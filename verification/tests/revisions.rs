use wiki_store::{
    create_wiki_page_at, get_wiki_page, list_wiki_revisions, restore_wiki_revision,
    restore_wiki_revision_at, save_revision, update_wiki_page_at, WikiError, WikiPage,
    WikiRevision, WikiRevisionMeta, WikiStore,
};

fn s(t: &str) -> String {
    t.to_string()
}

fn store_with_page(now: i64) -> (WikiStore, WikiPage) {
    let mut store = WikiStore::open(None, Vec::new(), Vec::new(), 1).unwrap();
    let page = create_wiki_page_at(
        &mut store,
        s("Title"),
        s("v1"),
        vec![s("tag")],
        None,
        None,
        None,
        now,
    )
    .unwrap();
    (store, page)
}

fn update(store: &mut WikiStore, id: &str, content: &str, now: i64) -> WikiPage {
    update_wiki_page_at(
        store,
        s(id),
        s("Title"),
        s(content),
        vec![s("tag")],
        None,
        None,
        None,
        now,
    )
    .unwrap()
}

#[test]
fn new_page_has_no_revisions() {
    let (store, page) = store_with_page(10);
    assert_eq!(list_wiki_revisions(&store, page.id.clone()), Vec::new());
    assert_eq!(list_wiki_revisions(&store, s("unknown")), Vec::new());
}

#[test]
fn save_revision_returns_the_summary() {
    let (mut store, page) = store_with_page(10);
    let meta = save_revision(&mut store, &page, 15).unwrap();
    assert_eq!(
        meta,
        WikiRevisionMeta {
            id: s("15"),
            page_id: s("10"),
            title: s("Title"),
            notebook: s("Notebook"),
            section: s("Notebook"),
            section_id: Some(s("root")),
            created_at: 15,
        }
    );
    assert_eq!(store.revisions().len(), 1);
    assert_eq!(
        store.revisions()[0],
        WikiRevision { id: s("15"), created_at: 15, page: page.clone() }
    );
    assert_eq!(list_wiki_revisions(&store, s("10")), vec![meta]);
}

#[test]
fn save_revision_refuses_a_page_not_keyed_by_its_stamp() {
    let (mut store, page) = store_with_page(10);
    let foreign = WikiPage { id: s("elsewhere"), ..page };
    assert_eq!(save_revision(&mut store, &foreign, 15), Err(WikiError::PersistenceFailure));
    assert_eq!(store.revisions().len(), 0);
}

#[test]
fn three_updates_give_three_revisions_newest_first() {
    let (mut store, page) = store_with_page(10);
    update(&mut store, "10", "v2", 20);
    update(&mut store, "10", "v3", 30);
    update(&mut store, "10", "v4", 40);
    let listed = list_wiki_revisions(&store, page.id.clone());
    assert_eq!(listed.len(), 3);
    let ids: Vec<&str> = listed.iter().map(|m| m.id.as_str()).collect();
    assert_eq!(ids, vec!["40", "30", "20"]);
    let stamps: Vec<i64> = listed.iter().map(|m| m.created_at).collect();
    assert_eq!(stamps, vec![40, 30, 20]);
    assert!(listed.iter().all(|m| m.page_id == "10"));
    let kept: Vec<&str> = store.revisions().iter().map(|r| r.page.content.as_str()).collect();
    assert_eq!(kept, vec!["v1", "v2", "v3"]);
}

#[test]
fn updates_in_the_same_second_all_leave_a_revision() {
    let (mut store, page) = store_with_page(10);
    update(&mut store, "10", "v2", 20);
    update(&mut store, "10", "v3", 20);
    update(&mut store, "10", "v4", 5);
    let listed = list_wiki_revisions(&store, page.id.clone());
    let ids: Vec<&str> = listed.iter().map(|m| m.id.as_str()).collect();
    assert_eq!(ids, vec!["22", "21", "20"]);
    assert_eq!(get_wiki_page(&store, s("10")).unwrap().updated_at, 5);
}

#[test]
fn logs_of_different_pages_are_apart() {
    let (mut store, a) = store_with_page(10);
    let b = create_wiki_page_at(&mut store, s("B"), s("b1"), Vec::new(), None, None, None, 11)
        .unwrap();
    update(&mut store, &a.id, "a2", 20);
    update(&mut store, &b.id, "b2", 20);
    update(&mut store, &b.id, "b3", 25);
    let of_a = list_wiki_revisions(&store, a.id.clone());
    let of_b = list_wiki_revisions(&store, b.id.clone());
    assert_eq!(of_a.len(), 1);
    assert_eq!(of_a[0].id, "20");
    assert_eq!(of_a[0].title, "Title");
    let ids: Vec<&str> = of_b.iter().map(|m| m.id.as_str()).collect();
    assert_eq!(ids, vec!["25", "20"]);
    assert!(of_b.iter().all(|m| m.page_id == b.id));
}

#[test]
fn listing_does_not_depend_on_stored_order() {
    let page = |content: &str| WikiPage {
        id: s("10"),
        title: s("Title"),
        content: s(content),
        tags: Vec::new(),
        notebook: s("Notebook"),
        section: s("Notebook"),
        section_id: Some(s("root")),
        created_at: 10,
        updated_at: 10,
    };
    let snap = |at: i64, content: &str| WikiRevision {
        id: at.to_string(),
        created_at: at,
        page: page(content),
    };
    let store = WikiStore::open(
        None,
        vec![page("now")],
        vec![snap(30, "c"), snap(20, "b"), snap(40, "d")],
        1,
    )
    .unwrap();
    let listed = list_wiki_revisions(&store, s("10"));
    let ids: Vec<&str> = listed.iter().map(|m| m.id.as_str()).collect();
    assert_eq!(ids, vec!["40", "30", "20"]);
}

#[test]
fn restore_brings_back_and_loses_nothing() {
    let (mut store, page) = store_with_page(10);
    update(&mut store, "10", "v2", 20);
    update(&mut store, "10", "v3", 30);
    let before = list_wiki_revisions(&store, page.id.clone());
    assert_eq!(before.len(), 2);
    let holding_v2 = store
        .revisions()
        .iter()
        .find(|r| r.page.content == "v2")
        .map(|r| r.id.clone())
        .unwrap();
    assert_eq!(holding_v2, "30");
    let restored = restore_wiki_revision_at(&mut store, s("10"), holding_v2, 40).unwrap();
    assert_eq!(restored.content, "v2");
    assert_eq!(restored.updated_at, 40);
    assert_eq!(restored.created_at, 10);
    assert_eq!(restored.id, "10");
    assert_eq!(get_wiki_page(&store, s("10")).unwrap(), restored);
    let after = list_wiki_revisions(&store, page.id.clone());
    assert_eq!(after.len(), 3);
    assert_eq!(after[0].id, "40");
    assert_eq!(after[1..], before[..]);
    let newest = store.revisions().iter().find(|r| r.id == "40").unwrap();
    assert_eq!(newest.page.content, "v3");
    assert_eq!(newest.page.updated_at, 30);
}

#[test]
fn restore_of_the_first_state() {
    let (mut store, _page) = store_with_page(10);
    update(&mut store, "10", "v2", 20);
    let restored = restore_wiki_revision_at(&mut store, s("10"), s("20"), 20).unwrap();
    assert_eq!(restored.content, "v1");
    let ids: Vec<String> =
        list_wiki_revisions(&store, s("10")).into_iter().map(|m| m.id).collect();
    assert_eq!(ids, vec![s("21"), s("20")]);
}

#[test]
fn restore_failures() {
    let (mut store, page) = store_with_page(10);
    update(&mut store, "10", "v2", 20);
    assert_eq!(
        restore_wiki_revision_at(&mut store, s("10"), s("99"), 30),
        Err(WikiError::NotFound)
    );
    assert_eq!(
        restore_wiki_revision_at(&mut store, s("11"), s("20"), 30),
        Err(WikiError::NotFound)
    );
    assert_eq!(list_wiki_revisions(&store, page.id.clone()).len(), 1);
    wiki_store::delete_wiki_page(&mut store, s("10")).unwrap();
    assert_eq!(
        restore_wiki_revision_at(&mut store, s("10"), s("20"), 30),
        Err(WikiError::NotFound)
    );
    assert_eq!(list_wiki_revisions(&store, page.id.clone()).len(), 1);
}

#[test]
fn restore_now() {
    let (mut store, _page) = store_with_page(10);
    update(&mut store, "10", "v2", 20);
    let restored = restore_wiki_revision(&mut store, s("10"), s("20")).unwrap();
    assert_eq!(restored.content, "v1");
    assert!(restored.updated_at > 1_600_000_000);
    assert_eq!(list_wiki_revisions(&store, s("10")).len(), 2);
    assert_eq!(
        restore_wiki_revision(&mut store, s("10"), s("nope")),
        Err(WikiError::NotFound)
    );
}

#[test]
fn update_goes_ahead_when_the_log_is_used_up() {
    let page = WikiPage {
        id: s("10"),
        title: s("Title"),
        content: s("v1"),
        tags: Vec::new(),
        notebook: s("Notebook"),
        section: s("Notebook"),
        section_id: Some(s("root")),
        created_at: 10,
        updated_at: 10,
    };
    let last = WikiRevision { id: i64::MAX.to_string(), created_at: i64::MAX, page: page.clone() };
    let mut store = WikiStore::open(None, vec![page.clone()], vec![last], 1).unwrap();
    assert_eq!(save_revision(&mut store, &page, 5), Err(WikiError::PersistenceFailure));
    let changed = update(&mut store, "10", "v2", 20);
    assert_eq!(changed.content, "v2");
    assert_eq!(store.revisions().len(), 1);
}

#[test]
fn snapshot_from_a_record() {
    let (_store, page) = store_with_page(10);
    let found = WikiRevision::from_record(s("1700000000"), page.clone()).unwrap();
    assert_eq!(found, WikiRevision { id: s("1700000000"), created_at: 1700000000, page: page.clone() });
    assert_eq!(WikiRevision::from_record(s("-5"), page.clone()).unwrap().created_at, -5);
    assert_eq!(WikiRevision::from_record(s("007"), page.clone()), None);
    assert_eq!(WikiRevision::from_record(s("backup"), page.clone()), None);
    assert_eq!(WikiRevision::from_record(s(""), page), None);
}
