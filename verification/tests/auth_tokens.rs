use sn0int_registry::AuthToken;
use sn0int_registry::RegistryError;
use sn0int_registry::Registry;

fn token(id: &str, author: &str, secret: &str) -> AuthToken {
    AuthToken { id: id.to_string(), author: author.to_string(), access_token: secret.to_string() }
}

#[test]
fn create_then_read_returns_the_record() {
    let mut store = Registry::new();
    let t = token("tok-1", "alice", "s3cr3t");
    assert_eq!(AuthToken::create(&t, &mut store), Ok(()));
    assert_eq!(AuthToken::read("tok-1", &store), Ok(token("tok-1", "alice", "s3cr3t")));
    assert_eq!(AuthToken::read_opt("tok-1", &store), Ok(Some(token("tok-1", "alice", "s3cr3t"))));
}

#[test]
fn read_of_unknown_id_is_not_found() {
    let store = Registry::new();
    assert_eq!(AuthToken::read("nope", &store), Err(RegistryError::NotFound));
    assert_eq!(AuthToken::read_opt("nope", &store), Ok(None));
}

#[test]
fn duplicate_token_id_is_a_unique_violation() {
    let mut store = Registry::new();
    assert_eq!(AuthToken::create(&token("tok", "alice", "one"), &mut store), Ok(()));
    assert_eq!(
        AuthToken::create(&token("tok", "bob", "two"), &mut store),
        Err(RegistryError::UniqueConstraintViolation)
    );
    assert_eq!(AuthToken::read("tok", &store), Ok(token("tok", "alice", "one")));
}

#[test]
fn delete_then_read_is_not_found() {
    let mut store = Registry::new();
    AuthToken::create(&token("a", "alice", "x"), &mut store).unwrap();
    AuthToken::create(&token("b", "bob", "y"), &mut store).unwrap();
    assert_eq!(AuthToken::delete("a", &mut store), Ok(()));
    assert_eq!(AuthToken::read("a", &store), Err(RegistryError::NotFound));
    assert_eq!(AuthToken::read_opt("a", &store), Ok(None));
    assert_eq!(AuthToken::read("b", &store), Ok(token("b", "bob", "y")));
}

#[test]
fn delete_of_unknown_id_changes_nothing() {
    let mut store = Registry::new();
    AuthToken::create(&token("a", "alice", "x"), &mut store).unwrap();
    assert_eq!(AuthToken::delete("zzz", &mut store), Ok(()));
    assert_eq!(AuthToken::read("a", &store), Ok(token("a", "alice", "x")));
}

#[test]
fn token_ids_are_case_sensitive() {
    let mut store = Registry::new();
    AuthToken::create(&token("abc", "alice", "x"), &mut store).unwrap();
    assert_eq!(AuthToken::create(&token("ABC", "alice", "x"), &mut store), Ok(()));
    assert_eq!(AuthToken::read("Abc", &store), Err(RegistryError::NotFound));
}

#[test]
fn duplicate_of_a_token_is_equal() {
    let t = token("a", "alice", "x");
    assert_eq!(t.duplicate(), t);
}
