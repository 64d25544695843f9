use sn0int_registry::RegistryError;
use sn0int_registry::Module;
use sn0int_registry::NewModule;
use sn0int_registry::Registry;
use sn0int_registry::Release;

fn new_module<'a>(author: &'a str, name: &'a str, description: &'a str) -> NewModule<'a> {
    NewModule { author, name, description, latest: None }
}

#[test]
fn create_assigns_ids_from_one() {
    let mut store = Registry::new();
    let a = Module::create(&new_module("alice", "scan", "port scanner"), &mut store).unwrap();
    let b = Module::create(&new_module("alice", "whois", "whois lookups"), &mut store).unwrap();
    assert_eq!(
        a,
        Module {
            id: 1,
            author: "alice".to_string(),
            name: "scan".to_string(),
            description: "port scanner".to_string(),
            latest: None,
            featured: false,
        }
    );
    assert_eq!(b.id, 2);
    assert_eq!(Module::id(1, &store), Ok(a));
    assert_eq!(Module::id_opt(2, &store), Ok(Some(b)));
}

#[test]
fn create_keeps_a_given_latest() {
    let mut store = Registry::new();
    let m = Module::create(
        &NewModule { author: "a", name: "n", description: "d", latest: Some("0.1.0") },
        &mut store,
    )
    .unwrap();
    assert_eq!(m.latest, Some("0.1.0".to_string()));
    assert_eq!(Module::find("a", "n", &store).unwrap().latest, Some("0.1.0".to_string()));
}

#[test]
fn duplicate_author_and_name_is_a_unique_violation() {
    let mut store = Registry::new();
    Module::create(&new_module("alice", "scan", "one"), &mut store).unwrap();
    assert_eq!(
        Module::create(&new_module("alice", "scan", "two"), &mut store),
        Err(RegistryError::UniqueConstraintViolation)
    );
    assert_eq!(Module::find("alice", "scan", &store).unwrap().description, "one");
    // the same name under another author is another module
    let other = Module::create(&new_module("bob", "scan", "three"), &mut store).unwrap();
    assert_eq!(other.id, 2);
}

#[test]
fn find_is_case_sensitive() {
    let mut store = Registry::new();
    Module::create(&new_module("alice", "scan", "one"), &mut store).unwrap();
    assert_eq!(Module::find("Alice", "scan", &store), Err(RegistryError::NotFound));
    assert_eq!(Module::find_opt("alice", "Scan", &store), Ok(None));
    assert_eq!(Module::find_opt("alice", "scan", &store).unwrap().unwrap().id, 1);
}

#[test]
fn lookups_of_unknown_modules() {
    let store = Registry::new();
    assert_eq!(Module::find("a", "b", &store), Err(RegistryError::NotFound));
    assert_eq!(Module::find_opt("a", "b", &store), Ok(None));
    assert_eq!(Module::id(7, &store), Err(RegistryError::NotFound));
    assert_eq!(Module::id_opt(7, &store), Ok(None));
}

#[test]
fn update_or_create_twice_keeps_one_row() {
    let mut store = Registry::new();
    Module::create(&new_module("zed", "other", "x"), &mut store).unwrap();
    let first = Module::update_or_create("alice", "scan", "first text", &mut store).unwrap();
    assert_eq!(first.id, 2);
    assert_eq!(first.description, "first text");
    assert_eq!(first.latest, None);
    let second = Module::update_or_create("alice", "scan", "second text", &mut store).unwrap();
    assert_eq!(second.id, first.id);
    assert_eq!(second.description, "second text");
    assert_eq!(Module::find("alice", "scan", &store), Ok(second));
    // no further row was made: the next module gets the next id
    let next = Module::create(&new_module("bob", "x", "y"), &mut store).unwrap();
    assert_eq!(next.id, 3);
}

#[test]
fn update_or_create_changes_only_the_description() {
    let mut store = Registry::new();
    let m = Module::create(&new_module("alice", "scan", "old"), &mut store).unwrap();
    m.add_version("1.0.0", "code", &mut store).unwrap();
    Module::set_featured(m.id, true, &mut store).unwrap();
    let updated = Module::update_or_create("alice", "scan", "new", &mut store).unwrap();
    assert_eq!(
        updated,
        Module {
            id: 1,
            author: "alice".to_string(),
            name: "scan".to_string(),
            description: "new".to_string(),
            latest: Some("1.0.0".to_string()),
            featured: true,
        }
    );
}

#[test]
fn add_version_moves_latest() {
    let mut store = Registry::new();
    let m = Module::create(&new_module("alice", "scan", "d"), &mut store).unwrap();
    assert_eq!(m.add_version("1.0.0", "code", &mut store), Ok(()));
    assert_eq!(Module::id(m.id, &store).unwrap().latest, Some("1.0.0".to_string()));
    assert_eq!(m.add_version("1.0.1", "code2", &mut store), Ok(()));
    assert_eq!(Module::id(m.id, &store).unwrap().latest, Some("1.0.1".to_string()));
    let first = Release::find(m.id, "1.0.0", &store).unwrap();
    let second = Release::find(m.id, "1.0.1", &store).unwrap();
    assert_eq!(first.code, "code");
    assert_eq!(second.code, "code2");
    assert_eq!((first.id, second.id), (1, 2));
    assert_eq!(Release::id_opt(3, &store), Ok(None));
}

#[test]
fn duplicate_version_fails_and_leaves_latest() {
    let mut store = Registry::new();
    let m = Module::create(&new_module("alice", "scan", "d"), &mut store).unwrap();
    m.add_version("1.0.0", "code", &mut store).unwrap();
    m.add_version("1.0.1", "code2", &mut store).unwrap();
    assert_eq!(
        m.add_version("1.0.0", "again", &mut store),
        Err(RegistryError::UniqueConstraintViolation)
    );
    assert_eq!(Module::id(m.id, &store).unwrap().latest, Some("1.0.1".to_string()));
    assert_eq!(Release::find(m.id, "1.0.0", &store).unwrap().code, "code");
    assert_eq!(Release::id_opt(3, &store), Ok(None));
}

#[test]
fn add_version_for_a_deleted_module_is_refused() {
    let mut store = Registry::new();
    let m = Module::create(&new_module("alice", "scan", "d"), &mut store).unwrap();
    Module::delete(m.id, &mut store).unwrap();
    assert_eq!(m.add_version("1.0.0", "code", &mut store), Err(RegistryError::StorageError));
    assert_eq!(Module::id_opt(m.id, &store), Ok(None));
    assert_eq!(Release::try_find(m.id, "1.0.0", &store), Ok(None));
    assert_eq!(Release::latest(&store), Ok(None));
}

#[test]
fn two_versions_of_a_module_without_releases() {
    let mut store = Registry::new();
    let other = Module::create(&new_module("zed", "x", "d"), &mut store).unwrap();
    other.add_version("0.1.0", "o", &mut store).unwrap();
    let m = Module::create(&new_module("alice", "scan", "d"), &mut store).unwrap();
    assert_eq!(m.add_version("1.0.0", "code", &mut store), Ok(()));
    assert_eq!(m.add_version("1.0.1", "code2", &mut store), Ok(()));
    assert_eq!(Module::id(m.id, &store).unwrap().latest, Some("1.0.1".to_string()));
    assert_eq!(Module::id(other.id, &store).unwrap().latest, Some("0.1.0".to_string()));
    let of_module: Vec<String> = (1..=4)
        .filter_map(|id| Release::id_opt(id, &store).unwrap())
        .filter(|r| r.module_id == m.id)
        .map(|r| r.version)
        .collect();
    assert_eq!(of_module, vec!["1.0.0", "1.0.1"]);
}

#[test]
fn delete_removes_the_row_and_is_idempotent() {
    let mut store = Registry::new();
    let a = Module::create(&new_module("alice", "scan", "d"), &mut store).unwrap();
    let b = Module::create(&new_module("bob", "scan", "d"), &mut store).unwrap();
    assert_eq!(Module::delete(a.id, &mut store), Ok(()));
    assert_eq!(Module::id(a.id, &store), Err(RegistryError::NotFound));
    assert_eq!(Module::find_opt("alice", "scan", &store), Ok(None));
    assert_eq!(Module::delete(a.id, &mut store), Ok(()));
    assert_eq!(Module::id(b.id, &store), Ok(b));
    // ids are not given out again
    let c = Module::create(&new_module("alice", "scan", "again"), &mut store).unwrap();
    assert_eq!(c.id, 3);
}

#[test]
fn delete_takes_the_releases_of_the_module_along() {
    let mut store = Registry::new();
    let a = Module::create(&new_module("alice", "scan", "d"), &mut store).unwrap();
    let b = Module::create(&new_module("bob", "dns", "d"), &mut store).unwrap();
    a.add_version("1.0.0", "a1", &mut store).unwrap();
    b.add_version("0.1.0", "b1", &mut store).unwrap();
    a.add_version("1.0.1", "a2", &mut store).unwrap();
    assert_eq!(Module::delete(a.id, &mut store), Ok(()));
    assert_eq!(Release::try_find(a.id, "1.0.0", &store), Ok(None));
    assert_eq!(Release::try_find(a.id, "1.0.1", &store), Ok(None));
    assert_eq!(Release::id_opt(1, &store), Ok(None));
    assert_eq!(Release::id_opt(3, &store), Ok(None));
    let kept = Release::find(b.id, "0.1.0", &store).unwrap();
    assert_eq!((kept.id, kept.code.as_str()), (2, "b1"));
    assert_eq!(Release::latest(&store), Ok(Some(kept)));
    assert_eq!(store.total_downloads(a.id), 0);
}

#[test]
fn set_featured_marks_and_unmarks() {
    let mut store = Registry::new();
    let a = Module::create(&new_module("alice", "scan", "d"), &mut store).unwrap();
    assert_eq!(Module::set_featured(a.id, true, &mut store), Ok(()));
    assert!(Module::id(a.id, &store).unwrap().featured);
    assert_eq!(Module::set_featured(a.id, false, &mut store), Ok(()));
    assert!(!Module::id(a.id, &store).unwrap().featured);
    assert_eq!(Module::set_featured(99, true, &mut store), Ok(()));
}

#[test]
fn duplicate_of_a_module_is_equal() {
    let m = Module {
        id: 4,
        author: "a".to_string(),
        name: "n".to_string(),
        description: "d".to_string(),
        latest: Some("1".to_string()),
        featured: true,
    };
    assert_eq!(m.duplicate(), m);
}
