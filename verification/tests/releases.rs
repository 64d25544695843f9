use sn0int_registry::Module;
use sn0int_registry::NewModule;
use sn0int_registry::NewRelease;
use sn0int_registry::Registry;
use sn0int_registry::RegistryError;
use sn0int_registry::Release;

fn new_release<'a>(module_id: i32, version: &'a str, code: &'a str) -> NewRelease<'a> {
    NewRelease { module_id, version, code }
}

/// A store with two modules, which get the ids 1 and 2.
fn store_with_two_modules() -> Registry {
    let mut store = Registry::new();
    Module::create(&NewModule::unpublished("alice", "scan", "d"), &mut store).unwrap();
    Module::create(&NewModule::unpublished("bob", "dns", "d"), &mut store).unwrap();
    store
}

#[test]
fn create_sets_defaults() {
    let mut store = store_with_two_modules();
    store.set_clock(1_700_000_000);
    assert_eq!(store.clock(), 1_700_000_000);
    let r = Release::create(&new_release(2, "1.0.0", "print('hi')"), &mut store).unwrap();
    assert_eq!(
        r,
        Release {
            id: 1,
            module_id: 2,
            version: "1.0.0".to_string(),
            downloads: 0,
            code: "print('hi')".to_string(),
            published: 1_700_000_000,
        }
    );
    assert_eq!(Release::find(2, "1.0.0", &store), Ok(r.duplicate()));
    assert_eq!(Release::try_find(2, "1.0.0", &store), Ok(Some(r.duplicate())));
    assert_eq!(Release::id(1, &store), Ok(r.duplicate()));
    assert_eq!(Release::id_opt(1, &store), Ok(Some(r)));
}

#[test]
fn duplicate_module_and_version_is_a_unique_violation() {
    let mut store = store_with_two_modules();
    Release::create(&new_release(1, "1.0.0", "a"), &mut store).unwrap();
    assert_eq!(
        Release::create(&new_release(1, "1.0.0", "b"), &mut store),
        Err(RegistryError::UniqueConstraintViolation)
    );
    assert_eq!(Release::find(1, "1.0.0", &store).unwrap().code, "a");
    // the same version of another module is another release
    assert_eq!(Release::create(&new_release(2, "1.0.0", "c"), &mut store).unwrap().id, 2);
}

#[test]
fn release_of_an_unknown_module_is_a_storage_error() {
    let mut store = store_with_two_modules();
    assert_eq!(
        Release::create(&new_release(3, "1.0.0", "a"), &mut store),
        Err(RegistryError::StorageError)
    );
    assert_eq!(Release::try_find(3, "1.0.0", &store), Ok(None));
    assert_eq!(
        Release::create(&new_release(1, "1.0.0", "a"), &mut Registry::new()),
        Err(RegistryError::StorageError)
    );
    // the refused release took no id
    assert_eq!(Release::create(&new_release(1, "1.0.0", "a"), &mut store).unwrap().id, 1);
}

#[test]
fn lookups_of_unknown_releases() {
    let mut store = store_with_two_modules();
    Release::create(&new_release(1, "1.0.0", "a"), &mut store).unwrap();
    assert_eq!(Release::find(1, "2.0.0", &store), Err(RegistryError::NotFound));
    assert_eq!(Release::find(2, "1.0.0", &store), Err(RegistryError::NotFound));
    assert_eq!(Release::try_find(1, "2.0.0", &store), Ok(None));
    assert_eq!(Release::id(2, &store), Err(RegistryError::NotFound));
    assert_eq!(Release::id_opt(2, &store), Ok(None));
}

#[test]
fn delete_removes_the_release() {
    let mut store = store_with_two_modules();
    let a = Release::create(&new_release(1, "1.0.0", "a"), &mut store).unwrap();
    let b = Release::create(&new_release(1, "1.1.0", "b"), &mut store).unwrap();
    assert_eq!(Release::delete(a.id, &mut store), Ok(()));
    assert_eq!(Release::id(a.id, &store), Err(RegistryError::NotFound));
    assert_eq!(Release::delete(a.id, &mut store), Ok(()));
    assert_eq!(Release::id(b.id, &store), Ok(b));
    // the version can be published again, under a new id
    let again = Release::create(&new_release(1, "1.0.0", "a2"), &mut store).unwrap();
    assert_eq!(again.id, 3);
}

#[test]
fn bump_downloads_counts_each_call() {
    let mut store = store_with_two_modules();
    let r = Release::create(&new_release(1, "1.0.0", "a"), &mut store).unwrap();
    let other = Release::create(&new_release(1, "1.1.0", "b"), &mut store).unwrap();
    for _ in 0..25 {
        // the handle is stale after the first call: the stored count is what grows
        assert_eq!(r.bump_downloads(&mut store), Ok(()));
    }
    assert_eq!(r.downloads, 0);
    assert_eq!(Release::id(r.id, &store).unwrap().downloads, 25);
    assert_eq!(Release::id(other.id, &store).unwrap().downloads, 0);
    assert_eq!(store.total_downloads(1), 25);
    assert_eq!(store.total_downloads(2), 0);
}

#[test]
fn bump_downloads_of_a_deleted_release_changes_nothing() {
    let mut store = store_with_two_modules();
    let r = Release::create(&new_release(1, "1.0.0", "a"), &mut store).unwrap();
    Release::delete(r.id, &mut store).unwrap();
    assert_eq!(r.bump_downloads(&mut store), Ok(()));
    assert_eq!(Release::id_opt(r.id, &store), Ok(None));
}

#[test]
fn latest_is_the_release_published_last() {
    let mut store = store_with_two_modules();
    assert_eq!(Release::latest(&store), Ok(None));
    store.set_clock(100);
    let a = Release::create(&new_release(1, "1.0.0", "a"), &mut store).unwrap();
    assert_eq!(Release::latest(&store), Ok(Some(a.duplicate())));
    store.set_clock(300);
    let b = Release::create(&new_release(2, "0.1.0", "b"), &mut store).unwrap();
    store.set_clock(200);
    let _c = Release::create(&new_release(1, "1.0.1", "c"), &mut store).unwrap();
    // across modules, by time and not by order of insertion
    assert_eq!(Release::latest(&store), Ok(Some(b.duplicate())));
    Release::delete(b.id, &mut store).unwrap();
    assert_eq!(Release::latest(&store).unwrap().unwrap().version, "1.0.1");
}

#[test]
fn latest_of_equal_times_is_the_lowest_id() {
    let mut store = store_with_two_modules();
    store.set_clock(7);
    let a = Release::create(&new_release(1, "1.0.0", "a"), &mut store).unwrap();
    Release::create(&new_release(1, "1.0.1", "b"), &mut store).unwrap();
    assert_eq!(Release::latest(&store), Ok(Some(a)));
}
