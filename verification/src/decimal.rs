//! Whole numbers written in decimal.

use vstd::prelude::*;
use vstd::string::StringExecFns;

verus! {

/// The character of the digit `d`.
pub open spec fn digit(d: int) -> char {
    if d == 0 {
        '0'
    } else if d == 1 {
        '1'
    } else if d == 2 {
        '2'
    } else if d == 3 {
        '3'
    } else if d == 4 {
        '4'
    } else if d == 5 {
        '5'
    } else if d == 6 {
        '6'
    } else if d == 7 {
        '7'
    } else if d == 8 {
        '8'
    } else {
        '9'
    }
}

/// The digits of `n`, the most significant first, without leading zeros.
pub open spec fn digits_of(n: nat) -> Seq<char>
    decreases n,
{
    if n < 10 {
        seq![digit(n as int)]
    } else {
        digits_of(n / 10).push(digit((n % 10) as int))
    }
}

/// `n` written in decimal, with a minus sign in front where it is negative.
pub open spec fn decimal(n: int) -> Seq<char> {
    if n < 0 {
        seq!['-'] + digits_of((-n) as nat)
    } else {
        digits_of(n as nat)
    }
}

/// The characters of digits that were collected from the least significant
/// up, read from the most significant down.
pub open spec fn read_down(collected: Seq<u8>) -> Seq<char> {
    Seq::new(collected.len(), |j: int| digit(collected[collected.len() - 1 - j] as int))
}

/// The digit `d` as a text.
fn digit_text(d: u8) -> (text: &'static str)
    requires
        d < 10,
    ensures
        text@ == seq![digit(d as int)],
{
    proof {
        reveal_strlit("0");
        reveal_strlit("1");
        reveal_strlit("2");
        reveal_strlit("3");
        reveal_strlit("4");
        reveal_strlit("5");
        reveal_strlit("6");
        reveal_strlit("7");
        reveal_strlit("8");
        reveal_strlit("9");
    }
    let text = match d {
        0 => "0",
        1 => "1",
        2 => "2",
        3 => "3",
        4 => "4",
        5 => "5",
        6 => "6",
        7 => "7",
        8 => "8",
        _ => "9",
    };
    assert(text@ =~= seq![digit(d as int)]);
    text
}

/// Writes `n` in decimal.
pub fn decimal_of(n: i64) -> (text: String)
    ensures
        text@ == decimal(n as int),
{
    let start: u64 = if n < 0 {
        (-(n as i128)) as u64
    } else {
        n as u64
    };
    let mut rest: u64 = start;
    let mut collected: Vec<u8> = Vec::new();
    collected.push((rest % 10) as u8);
    proof {
        assert(read_down(collected@) =~= seq![digit((rest % 10) as int)]);
        if rest >= 10 {
            assert(digits_of(rest as nat) =~= digits_of((rest / 10) as nat) + read_down(
                collected@,
            ));
        }
    }
    rest = rest / 10;
    while rest > 0
        invariant
            collected@.len() > 0,
            forall|j: int| 0 <= j < collected@.len() ==> collected@[j] < 10,
            rest > 0 ==> digits_of(start as nat) == digits_of(rest as nat) + read_down(collected@),
            rest == 0 ==> digits_of(start as nat) == read_down(collected@),
        decreases rest,
    {
        let ghost before = collected@;
        collected.push((rest % 10) as u8);
        proof {
            assert(read_down(collected@) =~= seq![digit((rest % 10) as int)] + read_down(before));
            if rest >= 10 {
                assert(digits_of(rest as nat) + read_down(before) =~= digits_of(
                    (rest / 10) as nat,
                ) + read_down(collected@));
            } else {
                assert(digits_of(rest as nat) + read_down(before) =~= read_down(collected@));
            }
        }
        rest = rest / 10;
    }
    let mut text = String::new();
    if n < 0 {
        text.append("-");
    }
    proof {
        reveal_strlit("-");
    }
    let ghost sign: Seq<char> = if n < 0 {
        seq!['-']
    } else {
        Seq::empty()
    };
    assert(text@ =~= sign);
    let mut i: usize = collected.len();
    while i > 0
        invariant
            i <= collected@.len(),
            forall|j: int| 0 <= j < collected@.len() ==> collected@[j] < 10,
            text@ == sign + read_down(collected@).take(collected@.len() - i),
        decreases i,
    {
        i -= 1;
        let ghost before = text@;
        text.append(digit_text(collected[i]));
        assert(text@ =~= sign + read_down(collected@).take(collected@.len() - i)) by {
            let all = read_down(collected@);
            let k = collected@.len() - i;
            assert(all.take(k) =~= all.take(k - 1).push(all[k - 1]));
            assert(all[k - 1] == digit(collected@[i as int] as int));
        }
    }
    assert(read_down(collected@).take(collected@.len() as int) =~= read_down(collected@));
    text
}

} // verus!
