//! Pages and their listing summaries.

use vstd::prelude::*;
use crate::text::{clone_optional_text, clone_texts};

verus! {

/// A text page: the unit that the store keeps.
#[derive(Debug, PartialEq, Eq)]
pub struct WikiPage {
    /// The storage key: the decimal text of an integer, given out at creation
    /// and never changed. It is the creation time unless that key was taken.
    pub id: String,
    pub title: String,
    pub content: String,
    /// Free-form tags, in the order given; duplicates are kept.
    pub tags: Vec<String>,
    pub notebook: String,
    /// The display name of the page's section, as it stood when the page was
    /// last written.
    pub section: String,
    /// The section that the page is filed in; `None` stands for the root.
    pub section_id: Option<String>,
    /// When the page was created.
    pub created_at: i64,
    /// When the page was last changed.
    pub updated_at: i64,
}

/// What a page holds.
pub struct PageView {
    pub id: Seq<char>,
    pub title: Seq<char>,
    pub content: Seq<char>,
    pub tags: Seq<Seq<char>>,
    pub notebook: Seq<char>,
    pub section: Seq<char>,
    pub section_id: Option<Seq<char>>,
    pub created_at: i64,
    pub updated_at: i64,
}

impl DeepView for WikiPage {
    type V = PageView;

    open spec fn deep_view(&self) -> PageView {
        PageView {
            id: self.id@,
            title: self.title@,
            content: self.content@,
            tags: self.tags.deep_view(),
            notebook: self.notebook@,
            section: self.section@,
            section_id: self.section_id.deep_view(),
            created_at: self.created_at,
            updated_at: self.updated_at,
        }
    }
}

impl View for WikiPage {
    type V = PageView;

    open spec fn view(&self) -> PageView {
        self.deep_view()
    }
}

/// The entry that stands for a page in a listing: the page without its body.
#[derive(Debug, PartialEq, Eq)]
pub struct WikiPageList {
    pub id: String,
    pub title: String,
    pub tags: Vec<String>,
    pub notebook: String,
    pub section: String,
    pub section_id: Option<String>,
    pub updated_at: i64,
}

/// What a listing entry holds.
pub struct PageListView {
    pub id: Seq<char>,
    pub title: Seq<char>,
    pub tags: Seq<Seq<char>>,
    pub notebook: Seq<char>,
    pub section: Seq<char>,
    pub section_id: Option<Seq<char>>,
    pub updated_at: i64,
}

impl DeepView for WikiPageList {
    type V = PageListView;

    open spec fn deep_view(&self) -> PageListView {
        PageListView {
            id: self.id@,
            title: self.title@,
            tags: self.tags.deep_view(),
            notebook: self.notebook@,
            section: self.section@,
            section_id: self.section_id.deep_view(),
            updated_at: self.updated_at,
        }
    }
}

impl View for WikiPageList {
    type V = PageListView;

    open spec fn view(&self) -> PageListView {
        self.deep_view()
    }
}

/// The listing entry of a page.
pub open spec fn summary_of(page: PageView) -> PageListView {
    PageListView {
        id: page.id,
        title: page.title,
        tags: page.tags,
        notebook: page.notebook,
        section: page.section,
        section_id: page.section_id,
        updated_at: page.updated_at,
    }
}

impl Clone for WikiPage {
    fn clone(&self) -> (r: Self)
        ensures
            r@ == self@,
    {
        WikiPage {
            id: self.id.clone(),
            title: self.title.clone(),
            content: self.content.clone(),
            tags: clone_texts(&self.tags),
            notebook: self.notebook.clone(),
            section: self.section.clone(),
            section_id: clone_optional_text(&self.section_id),
            created_at: self.created_at,
            updated_at: self.updated_at,
        }
    }
}

impl Clone for WikiPageList {
    fn clone(&self) -> (r: Self)
        ensures
            r@ == self@,
    {
        WikiPageList {
            id: self.id.clone(),
            title: self.title.clone(),
            tags: clone_texts(&self.tags),
            notebook: self.notebook.clone(),
            section: self.section.clone(),
            section_id: clone_optional_text(&self.section_id),
            updated_at: self.updated_at,
        }
    }
}

impl WikiPage {
    /// The listing entry of this page.
    pub fn summary(&self) -> (r: WikiPageList)
        ensures
            r@ == summary_of(self@),
    {
        WikiPageList {
            id: self.id.clone(),
            title: self.title.clone(),
            tags: clone_texts(&self.tags),
            notebook: self.notebook.clone(),
            section: self.section.clone(),
            section_id: clone_optional_text(&self.section_id),
            updated_at: self.updated_at,
        }
    }
}

} // verus!
