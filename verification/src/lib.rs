//! A hierarchical document store: text pages filed into a tree of named
//! sections, each page carrying an append-only log of immutable revisions.
//!
//! A [`WikiStore`] holds the section registry ([`registry`]), the pages
//! ([`pages`]) and the revision archive ([`archive`]); [`query`] lists and
//! searches the pages. Every operation is specified over the store's view, a
//! [`store::StoreView`], and keeps the store well-formed; [`laws`] states
//! what holds across operations. The store lives in memory: reading and
//! writing the records that back it is left to the caller, who hands them to
//! [`WikiStore::open`].
//!
//! Beside the store stand a few helpers of the application it was written
//! for: media types and names of attached files ([`files`]), the summing up
//! of a directory's entries ([`disk`]), and the state shared by its commands.
//!
//! The calls that leave the library are gathered in [`trusted`].

pub mod archive;
pub mod config;
pub mod disk;
pub mod error;
pub mod files;
pub mod labels;
pub mod laws;
pub mod order;
pub mod page;
pub mod pages;
pub mod query;
pub mod registry;
pub mod reminder;
pub mod revision;
pub mod section;
pub mod stamp;
pub mod state;
pub mod store;
pub mod text;
pub mod trusted;

pub use archive::{
    list_wiki_revisions, restore_wiki_revision, restore_wiki_revision_at, save_revision,
};
pub use config::AppConfig;
pub use disk::{depth_reached, drive_roots, tally, DiskItem, ScanProgress};
pub use error::WikiError;
pub use files::{
    get_mime_type, is_local_file, mime_for_extension, stored_name_for, upload_name,
};
pub use labels::{default_notebook, default_section};
pub use page::{WikiPage, WikiPageList};
pub use pages::{
    count_pages_in_section, create_wiki_page, create_wiki_page_at, delete_wiki_page,
    get_wiki_page, update_wiki_page, update_wiki_page_at,
};
pub use query::{list_wiki_pages, search_wiki_pages};
pub use registry::{
    create_section, create_section_as, delete_section, ensure_section, list_sections,
    load_sections, section_name, update_section, update_section_at,
};
pub use reminder::Reminder;
pub use revision::{WikiRevision, WikiRevisionMeta};
pub use section::Section;
pub use state::AppState;
pub use store::WikiStore;
