//! Admission of a request by the secret in its `Authorization` header.

use crate::text::same_text;
use vstd::prelude::*;
use vstd::string::StrSliceExecFns;

verus! {

/// A secret that admits its bearer, and the user it stands for.
#[derive(Clone, Debug)]
pub struct Token {
    pub user_id: i64,
    pub secret: String,
}

/// What a [`Token`] holds.
pub struct TokenView {
    pub user_id: i64,
    pub secret: Seq<char>,
}

impl View for Token {
    type V = TokenView;

    open spec fn view(&self) -> TokenView {
        TokenView { user_id: self.user_id, secret: self.secret@ }
    }
}

/// Why a request is not admitted.
#[derive(Clone, Copy, Debug, PartialEq, Eq, Structural)]
pub enum AuthError {
    /// The header is absent or empty.
    MissingHeader,
    /// The header is not two words with one space between them.
    InvalidHeader,
    /// No token has the secret that the header names.
    InvalidToken,
}

/// The only space of `header` stands at `at`.
pub open spec fn only_space_at(header: Seq<char>, at: int) -> bool {
    &&& 0 <= at < header.len()
    &&& header[at] == ' '
    &&& forall|i: int| 0 <= i < header.len() && header[i] == ' ' ==> i == at
}

/// `secret` is what the header names: what follows its only space.
pub open spec fn names_secret(header: Seq<char>, secret: Seq<char>) -> bool {
    exists|at: int| only_space_at(header, at) && secret == header.skip(at + 1)
}

/// The header has exactly one space.
pub open spec fn has_one_space(header: Seq<char>) -> bool {
    exists|at: int| only_space_at(header, at)
}

/// The secret that an `Authorization` header names.
///
/// The header is split at its spaces. It is missing when it is empty,
/// invalid unless the split gives two parts, and names the second part.
pub fn authorization_secret(header: &str) -> (result: Result<String, AuthError>)
    ensures
        match result {
            Ok(secret) => header@.len() > 0 && names_secret(header@, secret@),
            Err(AuthError::MissingHeader) => header@.len() == 0,
            Err(AuthError::InvalidHeader) => header@.len() > 0 && !has_one_space(header@),
            Err(AuthError::InvalidToken) => false,
        },
{
    let len = header.unicode_len();
    if len == 0 {
        return Err(AuthError::MissingHeader);
    }
    let mut first: Option<usize> = None;
    let mut i: usize = 0;
    while i < len
        invariant
            len == header@.len(),
            i <= len,
            match first {
                Some(at) => at < i && header@[at as int] == ' ' && forall|j: int|
                    0 <= j < i && header@[j] == ' ' ==> j == at,
                None => forall|j: int| 0 <= j < i ==> header@[j] != ' ',
            },
        decreases len - i,
    {
        if header.get_char(i) == ' ' {
            match first {
                Some(at) => {
                    assert(!has_one_space(header@)) by {
                        if has_one_space(header@) {
                            let p = choose|p: int| only_space_at(header@, p);
                            assert(at as int == p);
                            assert(i as int == p);
                        }
                    }
                    return Err(AuthError::InvalidHeader);
                },
                None => {
                    first = Some(i);
                },
            }
        }
        i += 1;
    }
    match first {
        Some(at) => {
            assert(only_space_at(header@, at as int));
            let secret = header.substring_char(at + 1, len);
            assert(secret@ =~= header@.skip(at + 1));
            Ok(secret.to_owned())
        },
        None => {
            assert(!has_one_space(header@)) by {
                if has_one_space(header@) {
                    let p = choose|p: int| only_space_at(header@, p);
                    assert(header@[p] != ' ');
                }
            }
            Err(AuthError::InvalidHeader)
        },
    }
}

/// `at` is the first token with the secret `secret`.
pub open spec fn first_with_secret(tokens: Seq<Token>, secret: Seq<char>, at: int) -> bool {
    &&& 0 <= at < tokens.len()
    &&& tokens[at].secret@ == secret
    &&& forall|j: int| 0 <= j < at ==> tokens[j].secret@ != secret
}

/// Admits the bearer of a known secret.
///
/// `header` is the `Authorization` header of the request, empty where it
/// has none, and `tokens` are the tokens that the store holds. The result is
/// the first token with the secret that the header names.
pub fn get_admin_token(tokens: &Vec<Token>, header: &str) -> (result: Result<Token, AuthError>)
    ensures
        match result {
            Ok(token) => header@.len() > 0 && names_secret(header@, token@.secret) && exists|at: int|
                first_with_secret(tokens@, token@.secret, at) && token@ == tokens@[at]@,
            Err(AuthError::MissingHeader) => header@.len() == 0,
            Err(AuthError::InvalidHeader) => header@.len() > 0 && !has_one_space(header@),
            Err(AuthError::InvalidToken) => header@.len() > 0 && exists|secret: Seq<char>|
                names_secret(header@, secret) && forall|j: int|
                    0 <= j < tokens@.len() ==> (#[trigger] tokens@[j]).secret@ != secret,
        },
{
    let secret = match authorization_secret(header) {
        Ok(secret) => secret,
        Err(e) => {
            return Err(e);
        },
    };
    let mut i: usize = 0;
    while i < tokens.len()
        invariant
            i <= tokens@.len(),
            header@.len() > 0,
            names_secret(header@, secret@),
            forall|j: int| 0 <= j < i ==> (#[trigger] tokens@[j]).secret@ != secret@,
        decreases tokens@.len() - i,
    {
        if same_text(tokens[i].secret.as_str(), secret.as_str()) {
            assert(first_with_secret(tokens@, secret@, i as int));
            return Ok(Token { user_id: tokens[i].user_id, secret });
        }
        i += 1;
    }
    Err(AuthError::InvalidToken)
}

} // verus!
