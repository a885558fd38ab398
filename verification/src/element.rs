//! Places of the dataset: their identity, their tags and their stored rows.

use crate::text::same_text;
use vstd::prelude::*;

verus! {

/// The kind of upstream object that a place is drawn from.
#[derive(Clone, Copy, Debug, PartialEq, Eq, Structural)]
pub enum ElementKind {
    Node,
    Way,
    Relation,
}

/// The stable external key of a place: its kind and its numeric id.
#[derive(Clone, Copy, Debug, PartialEq, Eq, Structural)]
pub struct ElementKey {
    pub kind: ElementKind,
    pub id: i64,
}

/// One tag of a place.
#[derive(Clone, Debug)]
pub struct Tag {
    pub name: String,
    pub value: String,
}

/// What a [`Tag`] holds.
pub struct TagView {
    pub name: Seq<char>,
    pub value: Seq<char>,
}

impl View for Tag {
    type V = TagView;

    open spec fn view(&self) -> TagView {
        TagView { name: self.name@, value: self.value@ }
    }
}

/// One record of the upstream dataset.
///
/// `payload` is the record as it was serialised; two records carry the same
/// data exactly when their payloads are the same text. The other fields are
/// what the library reads of the record.
#[derive(Clone, Debug)]
pub struct OverpassElement {
    pub kind: ElementKind,
    pub id: i64,
    pub tags: Vec<Tag>,
    /// Id of the mapper who last touched the record, `0` when unknown.
    pub uid: i64,
    /// Display name of that mapper, empty when unknown.
    pub user: String,
    /// Whether upstream still shows the record; `true` unless it says otherwise.
    pub visible: bool,
    pub payload: String,
}

/// What an [`OverpassElement`] holds.
pub struct RecordView {
    pub kind: ElementKind,
    pub id: i64,
    pub tags: Seq<TagView>,
    pub uid: i64,
    pub user: Seq<char>,
    pub visible: bool,
    pub payload: Seq<char>,
}

impl View for OverpassElement {
    type V = RecordView;

    open spec fn view(&self) -> RecordView {
        RecordView {
            kind: self.kind,
            id: self.id,
            tags: self.tags@.map_values(|t: Tag| t@),
            uid: self.uid,
            user: self.user@,
            visible: self.visible,
            payload: self.payload@,
        }
    }
}

/// One upstream record as it is read, before anything is checked: what it
/// says of its kind, its id and its mapper, where it says anything.
#[derive(Clone, Debug)]
pub struct RawElement {
    pub kind: Option<String>,
    pub id: Option<i64>,
    pub tags: Vec<Tag>,
    pub uid: Option<i64>,
    pub user: Option<String>,
    pub visible: Option<bool>,
    pub payload: String,
}

/// What a [`RawElement`] holds.
pub struct RawView {
    pub kind: Option<Seq<char>>,
    pub id: Option<i64>,
    pub tags: Seq<TagView>,
    pub uid: Option<i64>,
    pub user: Option<Seq<char>>,
    pub visible: Option<bool>,
    pub payload: Seq<char>,
}

impl View for RawElement {
    type V = RawView;

    open spec fn view(&self) -> RawView {
        RawView {
            kind: match self.kind {
                Some(k) => Some(k@),
                None => None,
            },
            id: self.id,
            tags: self.tags@.map_values(|t: Tag| t@),
            uid: self.uid,
            user: match self.user {
                Some(u) => Some(u@),
                None => None,
            },
            visible: self.visible,
            payload: self.payload@,
        }
    }
}

/// One row of the stored snapshot. Times are Unix timestamps.
#[derive(Clone, Debug)]
pub struct Element {
    pub data: OverpassElement,
    pub created_at: i64,
    pub updated_at: i64,
    /// Set while upstream does not report the place.
    pub deleted_at: Option<i64>,
}

/// What an [`Element`] holds.
pub struct RowView {
    pub data: RecordView,
    pub created_at: i64,
    pub updated_at: i64,
    pub deleted_at: Option<i64>,
}

impl View for Element {
    type V = RowView;

    open spec fn view(&self) -> RowView {
        RowView {
            data: self.data@,
            created_at: self.created_at,
            updated_at: self.updated_at,
            deleted_at: self.deleted_at,
        }
    }
}

/// The records of a dataset, in order.
pub open spec fn records(items: Seq<OverpassElement>) -> Seq<RecordView> {
    items.map_values(|e: OverpassElement| e@)
}

/// The rows of a snapshot, in order.
pub open spec fn rows(items: Seq<Element>) -> Seq<RowView> {
    items.map_values(|e: Element| e@)
}

/// The value of the first tag called `name`, if there is such a tag.
pub open spec fn tag_entry(tags: Seq<TagView>, name: Seq<char>) -> Option<Seq<char>>
    decreases tags.len(),
{
    if tags.len() == 0 {
        None
    } else if tags[0].name == name {
        Some(tags[0].value)
    } else {
        tag_entry(tags.drop_first(), name)
    }
}

/// The value of the first tag called `name`, or the empty text if there is none.
pub open spec fn tag_value(tags: Seq<TagView>, name: Seq<char>) -> Seq<char> {
    match tag_entry(tags, name) {
        Some(value) => value,
        None => Seq::empty(),
    }
}

/// The name under which a place without a `name` tag is shown.
pub open spec fn unnamed() -> Seq<char> {
    "Unnamed element"@
}

/// Looking a tag up in a list is looking it up in what is left of the list
/// once tags of other names are dropped from its front.
pub proof fn lemma_tag_entry_skip(tags: Seq<TagView>, name: Seq<char>, k: int)
    requires
        0 <= k <= tags.len(),
        forall|j: int| 0 <= j < k ==> tags[j].name != name,
    ensures
        tag_entry(tags, name) == tag_entry(tags.skip(k), name),
    decreases k,
{
    if k == 0 {
        assert(tags.skip(0) =~= tags);
    } else {
        assert(tags[0].name != name);
        assert forall|j: int| 0 <= j < k - 1 implies tags.drop_first()[j].name != name by {
            assert(tags[j + 1].name != name);
        }
        lemma_tag_entry_skip(tags.drop_first(), name, k - 1);
        assert(tags.drop_first().skip(k - 1) =~= tags.skip(k));
    }
}

impl RecordView {
    /// The external key of the record.
    pub open spec fn key(self) -> ElementKey {
        ElementKey { kind: self.kind, id: self.id }
    }

    /// The value of the tag `name`, if the record has such a tag.
    pub open spec fn entry(self, name: Seq<char>) -> Option<Seq<char>> {
        tag_entry(self.tags, name)
    }

    /// The value of the tag `name`, empty when the record has no such tag.
    pub open spec fn tag(self, name: Seq<char>) -> Seq<char> {
        tag_value(self.tags, name)
    }

    /// The display name: the `name` tag, whatever it holds, or a fixed text
    /// where the record has no such tag.
    pub open spec fn name(self) -> Seq<char> {
        match self.entry("name"@) {
            Some(name) => name,
            None => unnamed(),
        }
    }
}

impl RowView {
    /// The external key of the row.
    pub open spec fn key(self) -> ElementKey {
        self.data.key()
    }

    /// Whether the row is soft-deleted.
    pub open spec fn is_deleted(self) -> bool {
        self.deleted_at is Some
    }
}

/// The kind that upstream writes as `text`, if it is one of the three.
pub open spec fn kind_of_text(text: Seq<char>) -> Option<ElementKind> {
    if text == "node"@ {
        Some(ElementKind::Node)
    } else if text == "way"@ {
        Some(ElementKind::Way)
    } else if text == "relation"@ {
        Some(ElementKind::Relation)
    } else {
        None
    }
}

/// The text that upstream writes for a kind.
pub open spec fn text_of_kind(kind: ElementKind) -> Seq<char> {
    match kind {
        ElementKind::Node => "node"@,
        ElementKind::Way => "way"@,
        ElementKind::Relation => "relation"@,
    }
}

impl ElementKind {
    /// Reads a kind as upstream writes it.
    pub fn from_text(text: &str) -> (kind: Option<ElementKind>)
        ensures
            kind == kind_of_text(text@),
    {
        if same_text(text, "node") {
            Some(ElementKind::Node)
        } else if same_text(text, "way") {
            Some(ElementKind::Way)
        } else if same_text(text, "relation") {
            Some(ElementKind::Relation)
        } else {
            None
        }
    }

    /// Writes a kind as upstream does.
    pub fn as_text(&self) -> (text: &'static str)
        ensures
            text@ == text_of_kind(*self),
    {
        match self {
            ElementKind::Node => "node",
            ElementKind::Way => "way",
            ElementKind::Relation => "relation",
        }
    }
}

/// The record that a raw record stands for.
///
/// A record needs one of the three kinds and an id. Its mapper is unknown
/// where it names none, and it is visible unless it says otherwise.
pub open spec fn checked(raw: RawView) -> Option<RecordView> {
    if raw.kind is Some && kind_of_text(raw.kind->0) is Some && raw.id is Some {
        Some(
            RecordView {
                kind: kind_of_text(raw.kind->0)->0,
                id: raw.id->0,
                tags: raw.tags,
                uid: match raw.uid {
                    Some(uid) => uid,
                    None => 0,
                },
                user: match raw.user {
                    Some(user) => user,
                    None => Seq::empty(),
                },
                visible: match raw.visible {
                    Some(visible) => visible,
                    None => true,
                },
                payload: raw.payload,
            },
        )
    } else {
        None
    }
}

/// What an optional record holds.
pub open spec fn option_record(record: Option<OverpassElement>) -> Option<RecordView> {
    match record {
        Some(r) => Some(r@),
        None => None,
    }
}

impl Tag {
    /// A copy of the tag.
    pub fn duplicate(&self) -> (copy: Tag)
        ensures
            copy@ == self@,
    {
        Tag { name: self.name.clone(), value: self.value.clone() }
    }
}

impl OverpassElement {
    /// Checks a raw record and fills in what it leaves open.
    pub fn from_raw(raw: RawElement) -> (record: Option<OverpassElement>)
        ensures
            option_record(record) == checked(raw@),
    {
        let kind = match &raw.kind {
            Some(text) => match ElementKind::from_text(text.as_str()) {
                Some(kind) => kind,
                None => {
                    return None;
                },
            },
            None => {
                return None;
            },
        };
        let id = match raw.id {
            Some(id) => id,
            None => {
                return None;
            },
        };
        Some(
            OverpassElement {
                kind,
                id,
                tags: raw.tags,
                uid: match raw.uid {
                    Some(uid) => uid,
                    None => 0,
                },
                user: match raw.user {
                    Some(user) => user,
                    None => String::new(),
                },
                visible: match raw.visible {
                    Some(visible) => visible,
                    None => true,
                },
                payload: raw.payload,
            },
        )
    }

    /// The external key of the record.
    pub fn key(&self) -> (key: ElementKey)
        ensures
            key == self@.key(),
    {
        ElementKey { kind: self.kind, id: self.id }
    }

    /// The value of the tag `name`, if the record has such a tag.
    pub fn entry(&self, name: &str) -> (value: Option<&str>)
        ensures
            match value {
                Some(text) => self@.entry(name@) == Some(text@),
                None => self@.entry(name@) is None,
            },
    {
        let mut i: usize = 0;
        while i < self.tags.len()
            invariant
                i <= self.tags@.len(),
                self@.tags.len() == self.tags@.len(),
                forall|j: int| 0 <= j < i ==> self@.tags[j].name != name@,
            decreases self.tags@.len() - i,
        {
            if same_text(self.tags[i].name.as_str(), name) {
                proof {
                    lemma_tag_entry_skip(self@.tags, name@, i as int);
                    assert(self@.tags.skip(i as int)[0] == self.tags@[i as int]@);
                }
                return Some(self.tags[i].value.as_str());
            }
            assert(self@.tags[i as int] == self.tags@[i as int]@);
            i += 1;
        }
        proof {
            lemma_tag_entry_skip(self@.tags, name@, i as int);
        }
        None
    }

    /// The value of the tag `name`, empty when the record has no such tag.
    pub fn tag(&self, name: &str) -> (value: &str)
        ensures
            value@ == self@.tag(name@),
    {
        match self.entry(name) {
            Some(text) => text,
            None => {
                proof {
                    reveal_strlit("");
                }
                assert("".view() =~= Seq::<char>::empty());
                ""
            },
        }
    }

    /// The display name of the place: its `name` tag, whatever it holds, or a
    /// fixed text where the place has no such tag.
    pub fn name(&self) -> (name: &str)
        ensures
            name@ == self@.name(),
    {
        match self.entry("name") {
            Some(text) => text,
            None => "Unnamed element",
        }
    }

    /// A copy of the record.
    pub fn duplicate(&self) -> (copy: OverpassElement)
        ensures
            copy@ == self@,
    {
        let mut tags: Vec<Tag> = Vec::new();
        let mut i: usize = 0;
        while i < self.tags.len()
            invariant
                i <= self.tags@.len(),
                tags@.len() == i,
                forall|j: int| 0 <= j < i ==> tags@[j]@ == self.tags@[j]@,
            decreases self.tags@.len() - i,
        {
            tags.push(self.tags[i].duplicate());
            i += 1;
        }
        let copy = OverpassElement {
            kind: self.kind,
            id: self.id,
            tags,
            uid: self.uid,
            user: self.user.clone(),
            visible: self.visible,
            payload: self.payload.clone(),
        };
        assert(copy@.tags =~= self@.tags);
        copy
    }
}

impl Element {
    /// The external key of the row.
    pub fn key(&self) -> (key: ElementKey)
        ensures
            key == self@.key(),
    {
        self.data.key()
    }

    /// Whether the row is soft-deleted.
    pub fn is_deleted(&self) -> (deleted: bool)
        ensures
            deleted == self@.is_deleted(),
    {
        self.deleted_at.is_some()
    }

    /// A copy of the row.
    pub fn duplicate(&self) -> (copy: Element)
        ensures
            copy@ == self@,
    {
        Element {
            data: self.data.duplicate(),
            created_at: self.created_at,
            updated_at: self.updated_at,
            deleted_at: self.deleted_at,
        }
    }
}

} // verus!
