//! The category of a place, derived from its tags.

use crate::element::Element;
use crate::element::RecordView;
use crate::text::option_text;
use crate::text::same_text;
use vstd::prelude::*;

verus! {

/// The category of a place, in the singular: a hotel by its `tourism` tag,
/// else what its `amenity` tag says where that is one of the known kinds,
/// else `other`.
pub open spec fn category_singular(record: RecordView) -> Seq<char> {
    let amenity = record.tag("amenity"@);
    if record.tag("tourism"@) == "hotel"@ {
        "hotel"@
    } else if amenity == "pub"@ {
        "pub"@
    } else if amenity == "bar"@ {
        "bar"@
    } else if amenity == "restaurant"@ {
        "restaurant"@
    } else if amenity == "cafe"@ {
        "cafe"@
    } else if amenity == "atm"@ {
        "atm"@
    } else {
        "other"@
    }
}

/// The category of a place, in the plural.
pub open spec fn category_plural(record: RecordView) -> Seq<char> {
    let amenity = record.tag("amenity"@);
    if record.tag("tourism"@) == "hotel"@ {
        "hotels"@
    } else if amenity == "pub"@ {
        "pubs"@
    } else if amenity == "bar"@ {
        "bars"@
    } else if amenity == "restaurant"@ {
        "restaurants"@
    } else if amenity == "cafe"@ {
        "cafes"@
    } else if amenity == "atm"@ {
        "atms"@
    } else {
        "other"@
    }
}

/// The category of a place where only cash machines are told apart.
pub open spec fn atm_category(record: RecordView) -> Seq<char> {
    if record.tag("amenity"@) == "atm"@ {
        "atm"@
    } else {
        "other"@
    }
}

/// What is to be written so that the category tags of a place say what its
/// upstream tags imply.
#[derive(Clone, Debug)]
pub struct CategoryUpdate {
    /// The new `category` tag, where it differs from the one that is stored.
    pub singular: Option<String>,
    /// The new `category:plural` tag, where it differs from the stored one.
    pub plural: Option<String>,
    /// Whether the place has a category other than `other`.
    pub known: bool,
}

impl Element {
    /// The category of the place, in the singular.
    pub fn category_singular(&self) -> (category: String)
        ensures
            category@ == category_singular(self@.data),
    {
        let amenity = self.data.tag("amenity");
        let tourism = self.data.tag("tourism");
        let mut category: &str = "other";
        if same_text(amenity, "atm") {
            category = "atm";
        }
        if same_text(amenity, "cafe") {
            category = "cafe";
        }
        if same_text(amenity, "restaurant") {
            category = "restaurant";
        }
        if same_text(amenity, "bar") {
            category = "bar";
        }
        if same_text(amenity, "pub") {
            category = "pub";
        }
        if same_text(tourism, "hotel") {
            category = "hotel";
        }
        category.to_owned()
    }

    /// The category of the place, in the plural.
    pub fn category_plural(&self) -> (category: String)
        ensures
            category@ == category_plural(self@.data),
    {
        let amenity = self.data.tag("amenity");
        let tourism = self.data.tag("tourism");
        let mut category: &str = "other";
        if same_text(amenity, "atm") {
            category = "atms";
        }
        if same_text(amenity, "cafe") {
            category = "cafes";
        }
        if same_text(amenity, "restaurant") {
            category = "restaurants";
        }
        if same_text(amenity, "bar") {
            category = "bars";
        }
        if same_text(amenity, "pub") {
            category = "pubs";
        }
        if same_text(tourism, "hotel") {
            category = "hotels";
        }
        category.to_owned()
    }
}

/// `new` where it differs from `old`.
pub open spec fn changed_to(new: Seq<char>, old: Seq<char>) -> Option<Seq<char>> {
    if new == old {
        None
    } else {
        Some(new)
    }
}

/// Compares the categories that the upstream tags of a place imply with the
/// category tags that are stored for it.
pub fn plan_category_update(
    element: &Element,
    stored_singular: &str,
    stored_plural: &str,
) -> (update: CategoryUpdate)
    ensures
        option_text(update.singular) == changed_to(
            category_singular(element@.data),
            stored_singular@,
        ),
        option_text(update.plural) == changed_to(
            category_plural(element@.data),
            stored_plural@,
        ),
        update.known == (category_singular(element@.data) != "other"@),
{
    let singular = element.category_singular();
    let plural = element.category_plural();
    let known = !same_text(singular.as_str(), "other");
    CategoryUpdate {
        singular: if same_text(singular.as_str(), stored_singular) {
            None
        } else {
            Some(singular)
        },
        plural: if same_text(plural.as_str(), stored_plural) {
            None
        } else {
            Some(plural)
        },
        known,
    }
}

impl Element {
    /// The category of the place where only cash machines are told apart.
    pub fn atm_category(&self) -> (category: String)
        ensures
            category@ == atm_category(self@.data),
    {
        if same_text(self.data.tag("amenity"), "atm") {
            "atm".to_owned()
        } else {
            "other".to_owned()
        }
    }
}

/// Compares the category of a place, where only cash machines are told
/// apart, with the `category` tag that is stored for it. The plural is left
/// as it is.
pub fn plan_atm_category_update(element: &Element, stored_category: &str) -> (update:
    CategoryUpdate)
    ensures
        option_text(update.singular) == changed_to(atm_category(element@.data), stored_category@),
        update.plural is None,
        update.known == (atm_category(element@.data) != "other"@),
{
    let category = element.atm_category();
    let known = !same_text(category.as_str(), "other");
    CategoryUpdate {
        singular: if same_text(category.as_str(), stored_category) {
            None
        } else {
            Some(category)
        },
        plural: None,
        known,
    }
}

} // verus!
