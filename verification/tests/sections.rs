use wiki_store::{
    count_pages_in_section, create_section, create_section_as, create_wiki_page_at,
    delete_section, delete_wiki_page, ensure_section, list_sections, load_sections, section_name,
    update_section, update_section_at, Section, WikiError, WikiStore,
};

fn s(t: &str) -> String {
    t.to_string()
}

fn store_at(now: i64) -> WikiStore {
    WikiStore::open(None, Vec::new(), Vec::new(), now).unwrap()
}

#[test]
fn new_registry_holds_the_root() {
    let store = store_at(42);
    let sections = list_sections(&store);
    assert_eq!(sections.len(), 1);
    assert_eq!(
        sections[0],
        Section {
            id: s("root"),
            name: s("Notebook"),
            parent_id: None,
            created_at: 42,
            updated_at: 42
        }
    );
}

#[test]
fn load_sections_keeps_a_stored_registry() {
    let stored = vec![Section {
        id: s("root"),
        name: s("Mine"),
        parent_id: None,
        created_at: 1,
        updated_at: 2,
    }];
    let loaded = load_sections(Some(stored.clone()), 99);
    assert_eq!(loaded, stored);
    let seeded = load_sections(None, 99);
    assert_eq!(seeded.len(), 1);
    assert_eq!(seeded[0].id, "root");
    assert_eq!(seeded[0].created_at, 99);
}

#[test]
fn ensure_without_reference_is_root() {
    let mut store = store_at(1);
    assert_eq!(ensure_section(&mut store, None, 5), "root");
    assert_eq!(list_sections(&store).len(), 1);
}

#[test]
fn ensure_known_section_changes_nothing() {
    let mut store = store_at(1);
    create_section_as(&mut store, s("a"), s("A"), None, 2).unwrap();
    assert_eq!(ensure_section(&mut store, Some(s("a")), 5), "a");
    assert_eq!(list_sections(&store).len(), 2);
}

#[test]
fn ensure_unknown_section_makes_a_stand_in() {
    let mut store = store_at(1);
    assert_eq!(ensure_section(&mut store, Some(s("ghost-id")), 7), "ghost-id");
    let sections = list_sections(&store);
    assert_eq!(sections.len(), 2);
    assert_eq!(
        sections[1],
        Section {
            id: s("ghost-id"),
            name: s("ghost-id"),
            parent_id: Some(s("root")),
            created_at: 7,
            updated_at: 7
        }
    );
}

#[test]
fn section_name_of_known_and_unknown() {
    let mut store = store_at(1);
    create_section_as(&mut store, s("a"), s("Alpha"), None, 2).unwrap();
    assert_eq!(section_name(&store, "a"), "Alpha");
    assert_eq!(section_name(&store, "root"), "Notebook");
    assert_eq!(section_name(&store, "nowhere"), "Section");
}

#[test]
fn create_section_defaults() {
    let mut store = store_at(1);
    let made = create_section_as(&mut store, s("x"), s(""), None, 9).unwrap();
    assert_eq!(
        made,
        Section {
            id: s("x"),
            name: s("Untitled Section"),
            parent_id: Some(s("root")),
            created_at: 9,
            updated_at: 9
        }
    );
    assert_eq!(list_sections(&store)[1], made);
}

#[test]
fn create_section_under_unknown_parent_is_not_found() {
    let mut store = store_at(1);
    let r = create_section_as(&mut store, s("x"), s("X"), Some(s("nope")), 9);
    assert_eq!(r, Err(WikiError::NotFound));
    assert_eq!(list_sections(&store).len(), 1);
}

#[test]
fn create_section_with_used_identifier_is_refused() {
    let mut store = store_at(1);
    create_section_as(&mut store, s("x"), s("X"), None, 9).unwrap();
    let r = create_section_as(&mut store, s("x"), s("Y"), None, 10);
    assert_eq!(r, Err(WikiError::PersistenceFailure));
    let r = create_section_as(&mut store, s("root"), s("Y"), None, 10);
    assert_eq!(r, Err(WikiError::PersistenceFailure));
    assert_eq!(list_sections(&store).len(), 2);
}

#[test]
fn create_section_draws_distinct_identifiers() {
    let mut store = store_at(1);
    let a = create_section(&mut store, s("A"), None).unwrap();
    let b = create_section(&mut store, s("B"), Some(a.id.clone())).unwrap();
    assert_eq!(a.id.len(), 36);
    assert_eq!(b.id.len(), 36);
    assert_ne!(a.id, b.id);
    assert_eq!(a.parent_id, Some(s("root")));
    assert_eq!(b.parent_id, Some(a.id.clone()));
    assert_eq!(a.created_at, a.updated_at);
    assert!(a.created_at > 1_600_000_000);
    assert_eq!(list_sections(&store).len(), 3);
}

#[test]
fn rename_section() {
    let mut store = store_at(1);
    create_section_as(&mut store, s("x"), s("X"), None, 9).unwrap();
    let renamed = update_section_at(&mut store, s("x"), s("New"), 20).unwrap();
    assert_eq!(
        renamed,
        Section {
            id: s("x"),
            name: s("New"),
            parent_id: Some(s("root")),
            created_at: 9,
            updated_at: 20
        }
    );
    assert_eq!(list_sections(&store)[1], renamed);
    let blank = update_section_at(&mut store, s("x"), s(""), 21).unwrap();
    assert_eq!(blank.name, "Untitled Section");
    assert_eq!(
        update_section_at(&mut store, s("y"), s("New"), 22),
        Err(WikiError::NotFound)
    );
}

#[test]
fn rename_section_now() {
    let mut store = store_at(1);
    create_section_as(&mut store, s("x"), s("X"), None, 9).unwrap();
    let renamed = update_section(&mut store, s("x"), s("Later")).unwrap();
    assert_eq!(renamed.name, "Later");
    assert_eq!(renamed.created_at, 9);
    assert!(renamed.updated_at > 1_600_000_000);
    assert_eq!(update_section(&mut store, s("y"), s("New")), Err(WikiError::NotFound));
}

#[test]
fn root_cannot_be_deleted() {
    let mut store = store_at(1);
    assert_eq!(delete_section(&mut store, s("root")), Err(WikiError::InvalidOperation));
    create_section_as(&mut store, s("archive"), s("Archive"), Some(s("root")), 2).unwrap();
    assert_eq!(delete_section(&mut store, s("root")), Err(WikiError::InvalidOperation));
    delete_section(&mut store, s("archive")).unwrap();
    assert_eq!(delete_section(&mut store, s("root")), Err(WikiError::InvalidOperation));
    assert_eq!(list_sections(&store).len(), 1);
}

#[test]
fn child_guards_parent() {
    let mut store = store_at(1);
    create_section_as(&mut store, s("a"), s("A"), None, 2).unwrap();
    create_section_as(&mut store, s("b"), s("B"), Some(s("a")), 3).unwrap();
    assert_eq!(delete_section(&mut store, s("a")), Err(WikiError::Conflict));
    assert_eq!(list_sections(&store).len(), 3);
    assert_eq!(delete_section(&mut store, s("b")), Ok(()));
    assert_eq!(delete_section(&mut store, s("a")), Ok(()));
    assert_eq!(list_sections(&store).len(), 1);
}

#[test]
fn page_guards_section() {
    let mut store = store_at(1);
    create_section_as(&mut store, s("sec"), s("S"), None, 2).unwrap();
    let page = create_wiki_page_at(
        &mut store,
        s("t"),
        s("c"),
        Vec::new(),
        None,
        None,
        Some(s("sec")),
        10,
    )
    .unwrap();
    assert_eq!(page.section, "S");
    assert_eq!(count_pages_in_section(&store, "sec"), 1);
    assert_eq!(count_pages_in_section(&store, "root"), 0);
    assert_eq!(delete_section(&mut store, s("sec")), Err(WikiError::Conflict));
    delete_wiki_page(&mut store, page.id.clone()).unwrap();
    assert_eq!(count_pages_in_section(&store, "sec"), 0);
    assert_eq!(delete_section(&mut store, s("sec")), Ok(()));
}

#[test]
fn delete_unknown_section_is_not_found() {
    let mut store = store_at(1);
    assert_eq!(delete_section(&mut store, s("nope")), Err(WikiError::NotFound));
}

#[test]
fn page_guards_a_section_that_was_just_made() {
    let mut store = store_at(1);
    let made = create_section(&mut store, s("Fresh"), None).unwrap();
    let page = create_wiki_page_at(
        &mut store,
        s("t"),
        s("c"),
        Vec::new(),
        None,
        None,
        Some(made.id.clone()),
        10,
    )
    .unwrap();
    assert_eq!(page.section, "Fresh");
    let sections = list_sections(&store);
    assert_eq!(delete_section(&mut store, made.id.clone()), Err(WikiError::Conflict));
    assert_eq!(list_sections(&store), sections);
    assert_eq!(store.pages().len(), 1);
    assert_eq!(store.pages()[0], page);
    delete_wiki_page(&mut store, page.id).unwrap();
    assert_eq!(delete_section(&mut store, made.id), Ok(()));
}
