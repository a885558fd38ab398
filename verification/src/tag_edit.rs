//! Edits of the local tags of a stored item.

use vstd::prelude::*;
use vstd::string::StringExecFns;

verus! {

/// One edit of a local tag, addressed by its path in the tag document.
#[derive(Clone, Debug)]
pub enum TagEdit {
    /// The tag at `path` is set to `value`.
    Put { path: String, value: String },
    /// The tag at `path` is removed.
    Remove { path: String },
}

/// What a [`TagEdit`] holds.
pub enum TagEditView {
    Put { path: Seq<char>, value: Seq<char> },
    Remove { path: Seq<char> },
}

impl View for TagEdit {
    type V = TagEditView;

    open spec fn view(&self) -> TagEditView {
        match self {
            TagEdit::Put { path, value } => TagEditView::Put { path: path@, value: value@ },
            TagEdit::Remove { path } => TagEditView::Remove { path: path@ },
        }
    }
}

/// The path of the tag `name` in the tag document.
pub open spec fn tag_path(name: Seq<char>) -> Seq<char> {
    "$."@ + name
}

/// The edit that a request to give the tag `name` the value `value` asks
/// for: an empty value removes the tag.
pub open spec fn edit_for(name: Seq<char>, value: Seq<char>) -> TagEditView {
    if value.len() > 0 {
        TagEditView::Put { path: tag_path(name), value }
    } else {
        TagEditView::Remove { path: tag_path(name) }
    }
}

/// The edit that a request to give the tag `name` the value `value` asks for.
pub fn tag_edit(name: &str, value: &str) -> (edit: TagEdit)
    ensures
        edit@ == edit_for(name@, value@),
{
    let mut path = "$.".to_owned();
    path.append(name);
    if value.is_empty() {
        TagEdit::Remove { path }
    } else {
        TagEdit::Put { path, value: value.to_owned() }
    }
}

} // verus!
