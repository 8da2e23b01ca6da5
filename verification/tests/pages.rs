use wiki_store::{
    create_wiki_page, create_wiki_page_at, default_notebook, default_section, delete_wiki_page,
    get_wiki_page, list_sections, list_wiki_revisions, update_wiki_page, update_wiki_page_at,
    WikiError, WikiPage, WikiRevision, WikiStore,
};

fn text(s: &str) -> String {
    s.to_string()
}

fn empty_store() -> WikiStore {
    WikiStore::open(None, Vec::new(), Vec::new(), 100).unwrap()
}

#[test]
fn default_labels() {
    assert_eq!(default_notebook(), "Notebook");
    assert_eq!(default_section(), "Section");
}

#[test]
fn created_page_reads_back() {
    let mut store = empty_store();
    let page = create_wiki_page_at(
        &mut store,
        text("Title"),
        text("Body"),
        vec![text("a"), text("b"), text("a")],
        None,
        None,
        None,
        1_700_000_000,
    )
    .unwrap();
    assert_eq!(page.id, "1700000000");
    assert_eq!(page.created_at, 1_700_000_000);
    assert_eq!(page.updated_at, 1_700_000_000);
    assert_eq!(page.notebook, "Notebook");
    assert_eq!(page.section, "Notebook");
    assert_eq!(page.section_id, Some(text("root")));
    let read = get_wiki_page(&store, text("1700000000")).unwrap();
    assert_eq!(read, page);
    assert_eq!(read.title, "Title");
    assert_eq!(read.content, "Body");
    assert_eq!(read.tags, vec![text("a"), text("b"), text("a")]);
}

#[test]
fn created_page_takes_labels_given() {
    let mut store = empty_store();
    let page = create_wiki_page_at(
        &mut store,
        text("T"),
        text("B"),
        Vec::new(),
        Some(text("Work")),
        Some(text("Shown")),
        Some(text("ghost")),
        5,
    )
    .unwrap();
    assert_eq!(page.notebook, "Work");
    assert_eq!(page.section, "Shown");
    assert_eq!(page.section_id, Some(text("ghost")));
    let sections = list_sections(&store);
    assert_eq!(sections.len(), 2);
    assert_eq!(sections[1].id, "ghost");
    assert_eq!(sections[1].name, "ghost");
    assert_eq!(sections[1].parent_id, Some(text("root")));
    assert_eq!(sections[1].created_at, 5);
}

#[test]
fn pages_created_in_the_same_second_get_distinct_identifiers() {
    let mut store = empty_store();
    let a = create_wiki_page_at(&mut store, text("a"), text(""), Vec::new(), None, None, None, 50)
        .unwrap();
    let b = create_wiki_page_at(&mut store, text("b"), text(""), Vec::new(), None, None, None, 50)
        .unwrap();
    let c = create_wiki_page_at(&mut store, text("c"), text(""), Vec::new(), None, None, None, 40)
        .unwrap();
    assert_eq!(a.id, "50");
    assert_eq!(b.id, "51");
    assert_eq!(c.id, "52");
    assert_eq!((a.created_at, a.updated_at), (50, 50));
    assert_eq!((b.created_at, b.updated_at), (50, 50));
    assert_eq!((c.created_at, c.updated_at), (40, 40));
    assert_eq!(get_wiki_page(&store, text("50")).unwrap().title, "a");
    assert_eq!(get_wiki_page(&store, text("51")).unwrap().title, "b");
    assert_eq!(get_wiki_page(&store, text("52")).unwrap().title, "c");
}

#[test]
fn a_page_is_never_changed_before_it_was_created() {
    let mut store = empty_store();
    create_wiki_page_at(&mut store, text("a"), text(""), Vec::new(), None, None, None, 50).unwrap();
    let b = create_wiki_page_at(&mut store, text("b"), text(""), Vec::new(), None, None, None, 50)
        .unwrap();
    let changed = update_wiki_page_at(
        &mut store,
        b.id.clone(),
        text("b2"),
        text(""),
        Vec::new(),
        None,
        None,
        None,
        50,
    )
    .unwrap();
    assert_eq!(changed.id, "51");
    assert_eq!(changed.created_at, 50);
    assert_eq!(changed.updated_at, 50);
}

#[test]
fn creation_time_is_the_time_given_even_behind_a_later_key() {
    let ahead = WikiPage {
        id: text("900"),
        title: text("ahead"),
        content: text(""),
        tags: Vec::new(),
        notebook: text("Notebook"),
        section: text("Notebook"),
        section_id: Some(text("root")),
        created_at: 900,
        updated_at: 900,
    };
    let mut store = WikiStore::open(None, vec![ahead], Vec::new(), 1).unwrap();
    let page = create_wiki_page_at(&mut store, text("p"), text(""), Vec::new(), None, None, None, 100)
        .unwrap();
    assert_eq!(page.id, "901");
    assert_eq!(page.created_at, 100);
    assert_eq!(page.updated_at, 100);
    assert_eq!(get_wiki_page(&store, text("901")).unwrap(), page);
}

#[test]
fn identifier_of_a_deleted_page_with_history_is_not_reused() {
    let mut store = empty_store();
    let a = create_wiki_page_at(&mut store, text("a"), text(""), Vec::new(), None, None, None, 50)
        .unwrap();
    update_wiki_page_at(
        &mut store,
        a.id.clone(),
        text("a2"),
        text(""),
        Vec::new(),
        None,
        None,
        None,
        60,
    )
    .unwrap();
    delete_wiki_page(&mut store, a.id.clone()).unwrap();
    assert_eq!(list_wiki_revisions(&store, a.id.clone()).len(), 1);
    let b = create_wiki_page_at(&mut store, text("b"), text(""), Vec::new(), None, None, None, 50)
        .unwrap();
    assert_eq!(b.id, "51");
    assert_eq!(b.created_at, 50);
    assert_eq!(list_wiki_revisions(&store, b.id.clone()).len(), 0);
}

#[test]
fn negative_time_gives_a_signed_identifier() {
    let mut store = empty_store();
    let a = create_wiki_page_at(&mut store, text("a"), text(""), Vec::new(), None, None, None, -7)
        .unwrap();
    assert_eq!(a.id, "-7");
    let z = create_wiki_page_at(&mut store, text("z"), text(""), Vec::new(), None, None, None, -9)
        .unwrap();
    assert_eq!(z.id, "-6");
    assert_eq!(z.created_at, -9);
    let least = create_wiki_page_at(
        &mut WikiStore::open(None, Vec::new(), Vec::new(), 0).unwrap(),
        text("m"),
        text(""),
        Vec::new(),
        None,
        None,
        None,
        i64::MIN,
    )
    .unwrap();
    assert_eq!(least.id, "-9223372036854775808");
}

#[test]
fn create_fails_when_stamps_are_used_up() {
    let mut store = empty_store();
    let last = create_wiki_page_at(
        &mut store,
        text("last"),
        text(""),
        Vec::new(),
        None,
        None,
        None,
        i64::MAX,
    )
    .unwrap();
    assert_eq!(last.id, "9223372036854775807");
    let r = create_wiki_page_at(
        &mut store,
        text("more"),
        text(""),
        Vec::new(),
        None,
        None,
        Some(text("ghost")),
        3,
    );
    assert_eq!(r, Err(WikiError::PersistenceFailure));
    assert_eq!(store.pages().len(), 1);
    assert_eq!(list_sections(&store).len(), 1);
}

#[test]
fn create_page_now() {
    let mut store = empty_store();
    let page = create_wiki_page(
        &mut store,
        text("Title"),
        text("Body"),
        vec![text("t")],
        None,
        None,
        None,
    )
    .unwrap();
    assert_eq!(page.created_at, page.updated_at);
    assert!(page.created_at > 1_600_000_000);
    assert_eq!(page.id, page.created_at.to_string());
    let read = get_wiki_page(&store, page.id.clone()).unwrap();
    assert_eq!(read, page);
    let second = create_wiki_page(
        &mut store,
        text("Other"),
        text("Body"),
        Vec::new(),
        None,
        None,
        None,
    )
    .unwrap();
    assert_ne!(second.id, page.id);
    assert_eq!(get_wiki_page(&store, page.id.clone()).unwrap().title, "Title");
}

#[test]
fn update_changes_fields_and_keeps_the_rest() {
    let mut store = empty_store();
    let page = create_wiki_page_at(
        &mut store,
        text("T"),
        text("v1"),
        vec![text("x")],
        Some(text("Work")),
        None,
        None,
        10,
    )
    .unwrap();
    let changed = update_wiki_page_at(
        &mut store,
        page.id.clone(),
        text("T2"),
        text("v2"),
        vec![text("y"), text("z")],
        None,
        None,
        None,
        20,
    )
    .unwrap();
    assert_eq!(
        changed,
        WikiPage {
            id: text("10"),
            title: text("T2"),
            content: text("v2"),
            tags: vec![text("y"), text("z")],
            notebook: text("Work"),
            section: text("Notebook"),
            section_id: Some(text("root")),
            created_at: 10,
            updated_at: 20,
        }
    );
    assert_eq!(get_wiki_page(&store, text("10")).unwrap(), changed);
    assert_eq!(store.pages().len(), 1);
}

#[test]
fn update_heals_unknown_section() {
    let mut store = empty_store();
    let page = create_wiki_page_at(&mut store, text("T"), text("v1"), Vec::new(), None, None, None, 10)
        .unwrap();
    let changed = update_wiki_page_at(
        &mut store,
        page.id.clone(),
        text("T"),
        text("v1"),
        Vec::new(),
        None,
        None,
        Some(text("ghost-id")),
        30,
    )
    .unwrap();
    assert_eq!(changed.section_id, Some(text("ghost-id")));
    assert_eq!(changed.section, "ghost-id");
    let sections = list_sections(&store);
    assert_eq!(sections.len(), 2);
    assert_eq!(sections[1].id, "ghost-id");
    assert_eq!(sections[1].parent_id, Some(text("root")));
    assert_eq!(sections[1].created_at, 30);
}

#[test]
fn update_keeps_section_and_takes_label_given() {
    let mut store = empty_store();
    let page = create_wiki_page_at(
        &mut store,
        text("T"),
        text("v1"),
        Vec::new(),
        None,
        None,
        Some(text("s1")),
        10,
    )
    .unwrap();
    let changed = update_wiki_page_at(
        &mut store,
        page.id.clone(),
        text("T"),
        text("v2"),
        Vec::new(),
        Some(text("NB")),
        Some(text("Label")),
        None,
        11,
    )
    .unwrap();
    assert_eq!(changed.section_id, Some(text("s1")));
    assert_eq!(changed.section, "Label");
    assert_eq!(changed.notebook, "NB");
}

#[test]
fn update_of_page_without_section_files_it_under_root() {
    let stored = WikiPage {
        id: text("3"),
        title: text("old"),
        content: text(""),
        tags: Vec::new(),
        notebook: text("Notebook"),
        section: text("Section"),
        section_id: None,
        created_at: 3,
        updated_at: 3,
    };
    let mut store = WikiStore::open(None, vec![stored], Vec::new(), 1).unwrap();
    let changed = update_wiki_page_at(
        &mut store,
        text("3"),
        text("new"),
        text(""),
        Vec::new(),
        None,
        None,
        None,
        4,
    )
    .unwrap();
    assert_eq!(changed.section_id, Some(text("root")));
    assert_eq!(changed.section, "Notebook");
}

#[test]
fn update_page_now() {
    let mut store = empty_store();
    let page = create_wiki_page_at(&mut store, text("T"), text("v1"), Vec::new(), None, None, None, 10)
        .unwrap();
    let changed = update_wiki_page(
        &mut store,
        page.id.clone(),
        text("T"),
        text("v2"),
        Vec::new(),
        None,
        None,
        None,
    )
    .unwrap();
    assert_eq!(changed.content, "v2");
    assert_eq!(changed.created_at, 10);
    assert!(changed.updated_at > 1_600_000_000);
    assert_eq!(list_wiki_revisions(&store, page.id.clone()).len(), 1);
    let missing = update_wiki_page(
        &mut store,
        text("nope"),
        text("T"),
        text("v2"),
        Vec::new(),
        None,
        None,
        None,
    );
    assert_eq!(missing, Err(WikiError::NotFound));
}

#[test]
fn update_of_missing_page_is_not_found() {
    let mut store = empty_store();
    let r = update_wiki_page_at(
        &mut store,
        text("5"),
        text("t"),
        text("c"),
        Vec::new(),
        None,
        None,
        Some(text("ghost")),
        7,
    );
    assert_eq!(r, Err(WikiError::NotFound));
    assert_eq!(list_sections(&store).len(), 1);
    assert_eq!(delete_wiki_page(&mut store, text("5")), Err(WikiError::NotFound));
    assert_eq!(get_wiki_page(&store, text("5")), Err(WikiError::NotFound));
}

#[test]
fn delete_keeps_the_history() {
    let mut store = empty_store();
    let page = create_wiki_page_at(&mut store, text("T"), text("v1"), Vec::new(), None, None, None, 10)
        .unwrap();
    update_wiki_page_at(
        &mut store,
        page.id.clone(),
        text("T"),
        text("v2"),
        Vec::new(),
        None,
        None,
        None,
        20,
    )
    .unwrap();
    assert_eq!(delete_wiki_page(&mut store, page.id.clone()), Ok(()));
    assert_eq!(get_wiki_page(&store, page.id.clone()), Err(WikiError::NotFound));
    assert_eq!(store.pages().len(), 0);
    assert_eq!(list_wiki_revisions(&store, page.id.clone()).len(), 1);
    assert_eq!(delete_wiki_page(&mut store, page.id.clone()), Err(WikiError::NotFound));
}

#[test]
fn open_refuses_malformed_records() {
    let page = |id: &str, at: i64| WikiPage {
        id: text(id),
        title: text("t"),
        content: text(""),
        tags: Vec::new(),
        notebook: text("Notebook"),
        section: text("Section"),
        section_id: None,
        created_at: at,
        updated_at: at,
    };
    assert!(WikiStore::open(None, vec![page("7", 7)], Vec::new(), 1).is_ok());
    assert!(WikiStore::open(None, vec![page("7", 8)], Vec::new(), 1).is_ok());
    assert!(WikiStore::open(None, vec![page("-7", 8)], Vec::new(), 1).is_ok());
    assert_eq!(
        WikiStore::open(None, vec![page("seven", 7)], Vec::new(), 1).err(),
        Some(WikiError::PersistenceFailure)
    );
    assert_eq!(
        WikiStore::open(None, vec![page("", 7)], Vec::new(), 1).err(),
        Some(WikiError::PersistenceFailure)
    );
    assert_eq!(
        WikiStore::open(None, vec![page("7", 7), page("7", 9)], Vec::new(), 1).err(),
        Some(WikiError::PersistenceFailure)
    );
    assert!(page("7", 8).is_keyed());
    assert!(!page("07", 7).is_keyed());
    assert_eq!(
        WikiStore::open(None, vec![page("07", 7)], Vec::new(), 1).err(),
        Some(WikiError::PersistenceFailure)
    );
    assert_eq!(
        WikiStore::open(None, vec![page("7", 7), page("7", 7)], Vec::new(), 1).err(),
        Some(WikiError::PersistenceFailure)
    );
    let snap = |id: &str, at: i64, of: WikiPage| WikiRevision { id: text(id), created_at: at, page: of };
    assert!(WikiStore::open(
        None,
        Vec::new(),
        vec![snap("9", 9, page("7", 7)), snap("9", 9, page("8", 8))],
        1
    )
    .is_ok());
    assert_eq!(
        WikiStore::open(
            None,
            Vec::new(),
            vec![snap("9", 9, page("7", 7)), snap("9", 9, page("7", 7))],
            1
        )
        .err(),
        Some(WikiError::PersistenceFailure)
    );
    assert_eq!(
        WikiStore::open(None, Vec::new(), vec![snap("x", 9, page("7", 7))], 1).err(),
        Some(WikiError::PersistenceFailure)
    );
    assert_eq!(
        WikiStore::open(None, Vec::new(), vec![snap("9", 8, page("7", 7))], 1).err(),
        Some(WikiError::PersistenceFailure)
    );
    assert_eq!(
        WikiStore::open(None, Vec::new(), vec![snap("9", 9, page("x7", 7))], 1).err(),
        Some(WikiError::PersistenceFailure)
    );
    assert_eq!(
        WikiStore::open(Some(Vec::new()), Vec::new(), Vec::new(), 1).err(),
        Some(WikiError::PersistenceFailure)
    );
}
