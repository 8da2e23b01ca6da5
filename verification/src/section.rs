//! Sections: the nodes of the tree that pages are filed in.

use vstd::prelude::*;
use crate::text::clone_optional_text;

verus! {

/// A named node of the section tree.
#[derive(Debug, PartialEq, Eq)]
pub struct Section {
    pub id: String,
    pub name: String,
    /// The section above this one; only the root has none.
    pub parent_id: Option<String>,
    pub created_at: i64,
    pub updated_at: i64,
}

/// What a section holds.
pub struct SectionView {
    pub id: Seq<char>,
    pub name: Seq<char>,
    pub parent_id: Option<Seq<char>>,
    pub created_at: i64,
    pub updated_at: i64,
}

impl DeepView for Section {
    type V = SectionView;

    open spec fn deep_view(&self) -> SectionView {
        SectionView {
            id: self.id@,
            name: self.name@,
            parent_id: self.parent_id.deep_view(),
            created_at: self.created_at,
            updated_at: self.updated_at,
        }
    }
}

impl View for Section {
    type V = SectionView;

    open spec fn view(&self) -> SectionView {
        self.deep_view()
    }
}

impl Clone for Section {
    fn clone(&self) -> (r: Self)
        ensures
            r@ == self@,
    {
        Section {
            id: self.id.clone(),
            name: self.name.clone(),
            parent_id: clone_optional_text(&self.parent_id),
            created_at: self.created_at,
            updated_at: self.updated_at,
        }
    }
}

} // verus!
