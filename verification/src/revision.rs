//! Revisions: immutable snapshots of a page, and their summaries.

use vstd::prelude::*;
use crate::page::{PageView, WikiPage};
use crate::text::{clone_optional_text, decimal, parse_decimal};

verus! {

/// A snapshot of a page, taken before the page was changed.
#[derive(Debug, PartialEq, Eq)]
pub struct WikiRevision {
    /// The key of the snapshot within its page's log: the decimal text of
    /// `created_at`.
    pub id: String,
    /// When the snapshot was taken, as its key tells it: the time of taking,
    /// moved past the latest snapshot of the page where the log already held
    /// that time. A snapshot is filed under its key alone, so its key is the
    /// only record of its time.
    pub created_at: i64,
    /// The page as it stood then.
    pub page: WikiPage,
}

/// What a snapshot holds.
pub struct RevisionView {
    pub id: Seq<char>,
    pub created_at: i64,
    pub page: PageView,
}

impl DeepView for WikiRevision {
    type V = RevisionView;

    open spec fn deep_view(&self) -> RevisionView {
        RevisionView { id: self.id@, created_at: self.created_at, page: self.page@ }
    }
}

impl View for WikiRevision {
    type V = RevisionView;

    open spec fn view(&self) -> RevisionView {
        self.deep_view()
    }
}

/// The summary of a snapshot, for listings.
#[derive(Debug, PartialEq, Eq)]
pub struct WikiRevisionMeta {
    pub id: String,
    pub page_id: String,
    pub title: String,
    pub notebook: String,
    pub section: String,
    pub section_id: Option<String>,
    /// When the snapshot was taken.
    pub created_at: i64,
}

/// What a snapshot summary holds.
pub struct RevisionMetaView {
    pub id: Seq<char>,
    pub page_id: Seq<char>,
    pub title: Seq<char>,
    pub notebook: Seq<char>,
    pub section: Seq<char>,
    pub section_id: Option<Seq<char>>,
    pub created_at: i64,
}

impl DeepView for WikiRevisionMeta {
    type V = RevisionMetaView;

    open spec fn deep_view(&self) -> RevisionMetaView {
        RevisionMetaView {
            id: self.id@,
            page_id: self.page_id@,
            title: self.title@,
            notebook: self.notebook@,
            section: self.section@,
            section_id: self.section_id.deep_view(),
            created_at: self.created_at,
        }
    }
}

impl View for WikiRevisionMeta {
    type V = RevisionMetaView;

    open spec fn view(&self) -> RevisionMetaView {
        self.deep_view()
    }
}

/// The summary of a snapshot.
pub open spec fn meta_of(revision: RevisionView) -> RevisionMetaView {
    RevisionMetaView {
        id: revision.id,
        page_id: revision.page.id,
        title: revision.page.title,
        notebook: revision.page.notebook,
        section: revision.page.section,
        section_id: revision.page.section_id,
        created_at: revision.created_at,
    }
}

impl Clone for WikiRevision {
    fn clone(&self) -> (r: Self)
        ensures
            r@ == self@,
    {
        WikiRevision { id: self.id.clone(), created_at: self.created_at, page: self.page.clone() }
    }
}

impl Clone for WikiRevisionMeta {
    fn clone(&self) -> (r: Self)
        ensures
            r@ == self@,
    {
        WikiRevisionMeta {
            id: self.id.clone(),
            page_id: self.page_id.clone(),
            title: self.title.clone(),
            notebook: self.notebook.clone(),
            section: self.section.clone(),
            section_id: clone_optional_text(&self.section_id),
            created_at: self.created_at,
        }
    }
}

impl WikiRevision {
    /// The snapshot that a record stands for: the page it holds, under the
    /// key it was filed by, which tells when it was taken. There is none
    /// where the key is not the decimal text of a stamp.
    pub fn from_record(id: String, page: WikiPage) -> (r: Option<WikiRevision>)
        ensures
            match r {
                Some(revision) => {
                    &&& revision@.id == id@
                    &&& revision@.page == page@
                    &&& id@ == decimal(revision@.created_at as int)
                },
                None => forall|stamp: i64| id@ != decimal(stamp as int),
            },
    {
        match parse_decimal(id.as_str()) {
            Some(created_at) => Some(WikiRevision { id, created_at, page }),
            None => None,
        }
    }

    /// The summary of this snapshot.
    pub fn meta(&self) -> (r: WikiRevisionMeta)
        ensures
            r@ == meta_of(self@),
    {
        WikiRevisionMeta {
            id: self.id.clone(),
            page_id: self.page.id.clone(),
            title: self.page.title.clone(),
            notebook: self.page.notebook.clone(),
            section: self.page.section.clone(),
            section_id: clone_optional_text(&self.page.section_id),
            created_at: self.created_at,
        }
    }
}

} // verus!
