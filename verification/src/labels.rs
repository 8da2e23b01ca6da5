//! The fixed labels and reserved identifiers of the store.

use vstd::prelude::*;

verus! {

/// The identifier of the root section, which always exists and cannot be deleted.
pub open spec fn root_id() -> Seq<char> {
    "root"@
}

/// The notebook label of a page that names none.
pub open spec fn notebook_label() -> Seq<char> {
    "Notebook"@
}

/// The section label of a page whose section the registry does not know.
pub open spec fn section_label() -> Seq<char> {
    "Section"@
}

/// The display name given to a section that is created or renamed with an empty name.
pub open spec fn untitled_label() -> Seq<char> {
    "Untitled Section"@
}

/// The notebook label used where a page names none.
pub fn default_notebook() -> (r: String)
    ensures
        r@ == notebook_label(),
{
    "Notebook".to_owned()
}

/// The section label used where the registry has no name to offer.
pub fn default_section() -> (r: String)
    ensures
        r@ == section_label(),
{
    "Section".to_owned()
}

} // verus!
