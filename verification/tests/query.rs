use wiki_store::{
    create_wiki_page_at, list_wiki_pages, search_wiki_pages, update_wiki_page_at, WikiPageList,
    WikiStore,
};

fn s(t: &str) -> String {
    t.to_string()
}

fn add(
    store: &mut WikiStore,
    title: &str,
    content: &str,
    tags: &[&str],
    notebook: Option<&str>,
    section: Option<&str>,
    now: i64,
) -> String {
    create_wiki_page_at(
        store,
        s(title),
        s(content),
        tags.iter().map(|t| s(t)).collect(),
        notebook.map(s),
        section.map(s),
        None,
        now,
    )
    .unwrap()
    .id
}

fn titles(list: &[WikiPageList]) -> Vec<&str> {
    list.iter().map(|e| e.title.as_str()).collect()
}

fn sample() -> WikiStore {
    let mut store = WikiStore::open(None, Vec::new(), Vec::new(), 1).unwrap();
    add(&mut store, "hello world", "first body", &["alpha"], None, None, 10);
    add(&mut store, "Second", "Says HeLLo inside", &["beta", "Gamma"], Some("Work"), None, 20);
    add(&mut store, "Third", "nothing", &["Hello-Tag"], None, Some("Drafts"), 30);
    add(&mut store, "Fourth", "plain", &[], Some("Helloville"), Some("Inbox"), 40);
    add(&mut store, "Fifth", "plain", &[], None, Some("ShellOil"), 50);
    add(&mut store, "Sixth", "unrelated", &["x"], None, None, 60);
    store
}

#[test]
fn empty_store_lists_nothing() {
    let store = WikiStore::open(None, Vec::new(), Vec::new(), 1).unwrap();
    assert_eq!(list_wiki_pages(&store), Vec::new());
    assert_eq!(search_wiki_pages(&store, s("x")), Vec::new());
}

#[test]
fn list_is_most_recently_changed_first() {
    let mut store = sample();
    assert_eq!(
        titles(&list_wiki_pages(&store)),
        vec!["Sixth", "Fifth", "Fourth", "Third", "Second", "hello world"]
    );
    update_wiki_page_at(
        &mut store,
        s("20"),
        s("Second again"),
        s("body"),
        Vec::new(),
        None,
        None,
        None,
        100,
    )
    .unwrap();
    let listed = list_wiki_pages(&store);
    assert_eq!(
        titles(&listed),
        vec!["Second again", "Sixth", "Fifth", "Fourth", "Third", "hello world"]
    );
    assert_eq!(listed[0].updated_at, 100);
    assert_eq!(listed[0].id, "20");
}

#[test]
fn list_entry_is_the_page_without_its_body() {
    let mut store = WikiStore::open(None, Vec::new(), Vec::new(), 1).unwrap();
    add(&mut store, "T", "body", &["a", "a"], Some("NB"), Some("Sec"), 10);
    assert_eq!(
        list_wiki_pages(&store),
        vec![WikiPageList {
            id: s("10"),
            title: s("T"),
            tags: vec![s("a"), s("a")],
            notebook: s("NB"),
            section: s("Sec"),
            section_id: Some(s("root")),
            updated_at: 10,
        }]
    );
}

#[test]
fn list_keeps_stored_order_among_equal_times() {
    let mut store = WikiStore::open(None, Vec::new(), Vec::new(), 1).unwrap();
    add(&mut store, "a", "", &[], None, None, 10);
    add(&mut store, "b", "", &[], None, None, 11);
    add(&mut store, "c", "", &[], None, None, 12);
    for id in ["10", "11", "12"] {
        update_wiki_page_at(&mut store, s(id), s(id), s(""), Vec::new(), None, None, None, 50)
            .unwrap();
    }
    add(&mut store, "d", "", &[], None, None, 60);
    add(&mut store, "e", "", &[], None, None, 5);
    assert_eq!(titles(&list_wiki_pages(&store)), vec!["d", "10", "11", "12", "e"]);
}

#[test]
fn a_page_changed_later_is_listed_before_one_untouched() {
    let mut store = WikiStore::open(None, Vec::new(), Vec::new(), 1).unwrap();
    add(&mut store, "first", "", &[], None, None, 50);
    add(&mut store, "second", "", &[], None, None, 50);
    update_wiki_page_at(&mut store, s("50"), s("first"), s("x"), Vec::new(), None, None, None, 51)
        .unwrap();
    let listed = list_wiki_pages(&store);
    assert_eq!(titles(&listed), vec!["first", "second"]);
    assert_eq!(listed[0].updated_at, 51);
    assert_eq!(listed[1].updated_at, 50);
    assert_eq!(listed[1].id, "51");
}

#[test]
fn search_ignores_case() {
    let store = sample();
    let upper = search_wiki_pages(&store, s("HELLO"));
    assert_eq!(
        titles(&upper),
        vec!["Fifth", "Fourth", "Third", "Second", "hello world"]
    );
    assert_eq!(search_wiki_pages(&store, s("hello")), upper);
    assert_eq!(search_wiki_pages(&store, s("hElLo")), upper);
}

#[test]
fn search_matches_hello_world_title() {
    let mut store = WikiStore::open(None, Vec::new(), Vec::new(), 1).unwrap();
    add(&mut store, "hello world", "", &[], None, None, 10);
    add(&mut store, "other", "", &[], None, None, 20);
    assert_eq!(titles(&search_wiki_pages(&store, s("HELLO"))), vec!["hello world"]);
}

#[test]
fn search_looks_in_each_field() {
    let store = sample();
    assert_eq!(titles(&search_wiki_pages(&store, s("world"))), vec!["hello world"]);
    assert_eq!(titles(&search_wiki_pages(&store, s("SAYS"))), vec!["Second"]);
    assert_eq!(titles(&search_wiki_pages(&store, s("gamma"))), vec!["Second"]);
    assert_eq!(titles(&search_wiki_pages(&store, s("helloville"))), vec!["Fourth"]);
    assert_eq!(titles(&search_wiki_pages(&store, s("drafts"))), vec!["Third"]);
    assert_eq!(titles(&search_wiki_pages(&store, s("work"))), vec!["Second"]);
    assert_eq!(search_wiki_pages(&store, s("absent")), Vec::new());
    assert_eq!(search_wiki_pages(&store, s("hello worlds")), Vec::new());
}

#[test]
fn search_does_not_look_in_identifiers() {
    let store = sample();
    assert_eq!(search_wiki_pages(&store, s("root")), Vec::new());
    assert_eq!(search_wiki_pages(&store, s("60")), Vec::new());
}

#[test]
fn empty_query_finds_every_page() {
    let store = sample();
    assert_eq!(search_wiki_pages(&store, s("")), list_wiki_pages(&store));
}

#[test]
fn search_folds_letters_beyond_ascii() {
    let mut store = WikiStore::open(None, Vec::new(), Vec::new(), 1).unwrap();
    add(&mut store, "Über uns", "Çay", &["ÉCOLE"], None, None, 10);
    assert_eq!(search_wiki_pages(&store, s("ÜBER")).len(), 1);
    assert_eq!(search_wiki_pages(&store, s("çAY")).len(), 1);
    assert_eq!(search_wiki_pages(&store, s("école")).len(), 1);
    assert_eq!(search_wiki_pages(&store, s("uber")).len(), 0);
}
