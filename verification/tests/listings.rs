use sn0int_registry::text::chars_of;
use sn0int_registry::text::split_of;
use sn0int_registry::text::text_before;
use sn0int_registry::text::words_of;
use sn0int_registry::Module;
use sn0int_registry::NewModule;
use sn0int_registry::NewRelease;
use sn0int_registry::Registry;
use sn0int_registry::Release;

fn add(store: &mut Registry, author: &str, name: &str, description: &str) -> Module {
    Module::create(&NewModule { author, name, description, latest: None }, store).unwrap()
}

fn downloads(store: &mut Registry, module: &Module, version: &str, n: u32) {
    let r = Release::create(&NewRelease { module_id: module.id, version, code: "c" }, store).unwrap();
    for _ in 0..n {
        r.bump_downloads(store).unwrap();
    }
}

fn names(hits: &[(Module, i64)]) -> Vec<(String, i64)> {
    hits.iter().map(|(m, n)| (m.name.clone(), *n)).collect()
}

fn words(s: &str) -> Vec<String> {
    words_of(s).into_iter().map(|w| w.into_iter().collect()).collect()
}

#[test]
fn words_are_lower_case_runs() {
    assert_eq!(words("Photo Gallery"), vec!["photo", "gallery"]);
    assert_eq!(words("  a-b_c.d9  "), vec!["a", "b", "c", "d9"]);
    assert_eq!(words(""), Vec::<String>::new());
    assert_eq!(words("!!! ---"), Vec::<String>::new());
    assert_eq!(words("caf\u{c9} M\u{dc}NCHEN"), vec!["caf\u{e9}", "m\u{fc}nchen"]);
    assert_eq!(words("x"), vec!["x"]);
}

#[test]
fn split_keeps_the_characters_as_they_are() {
    let runs: Vec<String> =
        split_of("Photo-GALLERY  x_9").into_iter().map(|w| w.into_iter().collect()).collect();
    assert_eq!(runs, vec!["Photo", "GALLERY", "x", "9"]);
    assert_eq!(split_of(" .. "), Vec::<Vec<char>>::new());
    assert_eq!(split_of("\u{c9}t\u{e9}"), vec![vec!['\u{c9}', 't', '\u{e9}']]);
}

#[test]
fn search_ignores_the_case_of_all_letters() {
    let mut store = Registry::new();
    add(&mut store, "alice", "caf\u{e9}", "M\u{dc}NCHEN guide");
    let hits = Module::search("CAF\u{c9} m\u{fc}nchen", &store).unwrap();
    assert_eq!(hits.iter().map(|h| h.0.id).collect::<Vec<i32>>(), vec![1]);
}

#[test]
fn chars_of_keeps_every_character() {
    assert_eq!(chars_of("a\u{e9}z"), vec!['a', '\u{e9}', 'z']);
    assert_eq!(chars_of(""), Vec::<char>::new());
}

#[test]
fn text_order_is_by_code_point() {
    assert!(text_before("a", "b"));
    assert!(!text_before("b", "a"));
    assert!(!text_before("a", "a"));
    assert!(text_before("", "a"));
    assert!(!text_before("", ""));
    assert!(text_before("ab", "abc"));
    assert!(!text_before("abc", "ab"));
    assert!(text_before("Z", "a"));
    assert!(text_before("z", "\u{e9}"));
    assert!(text_before("abz", "ac"));
}

#[test]
fn search_requires_every_word() {
    let mut store = Registry::new();
    add(&mut store, "alice", "gallery", "A photo gallery scraper");
    add(&mut store, "bob", "photo", "find a photo");
    add(&mut store, "carol", "photo-gallery", "no text");
    add(&mut store, "dave", "dns", "resolve names");
    let hits = Module::search("photo gallery", &store).unwrap();
    assert_eq!(names(&hits), vec![("gallery".to_string(), 0), ("photo-gallery".to_string(), 0)]);
    // in any order, and whatever the case
    let hits = Module::search("GALLERY Photo", &store).unwrap();
    assert_eq!(names(&hits), vec![("gallery".to_string(), 0), ("photo-gallery".to_string(), 0)]);
}

#[test]
fn search_without_words_finds_nothing() {
    let mut store = Registry::new();
    add(&mut store, "alice", "gallery", "A photo gallery scraper");
    assert_eq!(Module::search("", &store), Ok(vec![]));
    assert_eq!(Module::search(" ... ", &store), Ok(vec![]));
    assert_eq!(Module::search("photo", &Registry::new()), Ok(vec![]));
}

#[test]
fn search_does_not_look_at_the_author() {
    let mut store = Registry::new();
    add(&mut store, "photo", "dns", "resolve names");
    assert_eq!(Module::search("photo", &store), Ok(vec![]));
}

#[test]
fn search_ranks_featured_first_then_downloads() {
    let mut store = Registry::new();
    let a = add(&mut store, "alice", "a", "photo gallery");
    let b = add(&mut store, "bob", "b", "photo gallery");
    let c = add(&mut store, "carol", "c", "photo gallery");
    let d = add(&mut store, "dave", "d", "photo gallery");
    let e = add(&mut store, "erin", "e", "photo only");
    downloads(&mut store, &a, "1.0.0", 3);
    downloads(&mut store, &a, "1.0.1", 4);
    downloads(&mut store, &b, "1.0.0", 50);
    downloads(&mut store, &c, "1.0.0", 1);
    downloads(&mut store, &e, "1.0.0", 99);
    Module::set_featured(c.id, true, &mut store).unwrap();
    Module::set_featured(d.id, true, &mut store).unwrap();
    let hits = Module::search("photo gallery", &store).unwrap();
    assert_eq!(
        names(&hits),
        vec![
            ("c".to_string(), 1),
            ("d".to_string(), 0),
            ("b".to_string(), 50),
            ("a".to_string(), 7),
        ]
    );
    assert!(hits[0].0.featured && hits[1].0.featured);
    assert_eq!(hits[3].0, Module::id(a.id, &store).unwrap());
}

#[test]
fn search_breaks_ties_by_id() {
    let mut store = Registry::new();
    add(&mut store, "zed", "z", "photo");
    add(&mut store, "alice", "a", "photo");
    add(&mut store, "mid", "m", "photo");
    let hits = Module::search("photo", &store).unwrap();
    assert_eq!(hits.iter().map(|h| h.0.id).collect::<Vec<i32>>(), vec![1, 2, 3]);
}

#[test]
fn quickstart_lists_featured_by_author_then_name() {
    let mut store = Registry::new();
    let m1 = add(&mut store, "bob", "zeta", "d");
    let m2 = add(&mut store, "alice", "whois", "d");
    let m3 = add(&mut store, "bob", "alpha", "d");
    let m4 = add(&mut store, "alice", "dns", "d");
    let m5 = add(&mut store, "carol", "aaa", "d");
    for m in [&m1, &m2, &m3, &m4] {
        Module::set_featured(m.id, true, &mut store).unwrap();
    }
    // downloads do not matter here
    downloads(&mut store, &m1, "1.0.0", 40);
    downloads(&mut store, &m5, "1.0.0", 90);
    let list = Module::quickstart(&store).unwrap();
    let keys: Vec<(String, String)> =
        list.iter().map(|m| (m.author.clone(), m.name.clone())).collect();
    assert_eq!(
        keys,
        vec![
            ("alice".to_string(), "dns".to_string()),
            ("alice".to_string(), "whois".to_string()),
            ("bob".to_string(), "alpha".to_string()),
            ("bob".to_string(), "zeta".to_string()),
        ]
    );
    assert!(list.iter().all(|m| m.featured));
}

#[test]
fn quickstart_of_a_store_without_featured_modules_is_empty() {
    let mut store = Registry::new();
    add(&mut store, "bob", "zeta", "d");
    assert_eq!(Module::quickstart(&store), Ok(vec![]));
    assert_eq!(Module::quickstart(&Registry::new()), Ok(vec![]));
}

#[test]
fn total_downloads_adds_up_the_releases_of_one_module() {
    let mut store = Registry::new();
    let a = add(&mut store, "alice", "a", "d");
    let b = add(&mut store, "bob", "b", "d");
    downloads(&mut store, &a, "1", 2);
    downloads(&mut store, &a, "2", 5);
    downloads(&mut store, &b, "1", 11);
    assert_eq!(store.total_downloads(a.id), 7);
    assert_eq!(store.total_downloads(b.id), 11);
    assert_eq!(store.total_downloads(77), 0);
}
