use diesel::result::DatabaseErrorKind;
use sn0int_registry::outcome::absent_as_none;
use sn0int_registry::outcome::checked;
use sn0int_registry::outcome::or_not_found;
use sn0int_registry::outcome::Fault;
use sn0int_registry::NewModule;
use sn0int_registry::RegistryError;

fn database_error(kind: DatabaseErrorKind) -> diesel::result::Error {
    diesel::result::Error::DatabaseError(kind, Box::new("refused".to_string()))
}

#[test]
fn faults_map_to_the_errors_of_the_store() {
    assert_eq!(RegistryError::from_fault(Fault::NoRow), RegistryError::NotFound);
    assert_eq!(
        RegistryError::from_fault(Fault::UniqueViolation),
        RegistryError::UniqueConstraintViolation
    );
    assert_eq!(RegistryError::from_fault(Fault::Other), RegistryError::StorageError);
}

#[test]
fn a_missing_row_is_not_found_where_one_is_required() {
    assert_eq!(or_not_found(Some(3)), Ok(3));
    assert_eq!(or_not_found::<i32>(None), Err(RegistryError::NotFound));
}

#[test]
fn checked_hands_rows_on_and_names_the_error() {
    assert_eq!(checked(Ok(7)), Ok(7));
    assert_eq!(checked::<i32>(Err(diesel::result::Error::NotFound)), Err(RegistryError::NotFound));
    assert_eq!(
        checked::<i32>(Err(database_error(DatabaseErrorKind::UniqueViolation))),
        Err(RegistryError::UniqueConstraintViolation)
    );
    assert_eq!(
        checked::<i32>(Err(database_error(DatabaseErrorKind::ForeignKeyViolation))),
        Err(RegistryError::StorageError)
    );
    assert_eq!(
        checked::<i32>(Err(diesel::result::Error::RollbackTransaction)),
        Err(RegistryError::StorageError)
    );
}

#[test]
fn absent_as_none_turns_no_row_into_none() {
    assert_eq!(absent_as_none(Ok(7)), Ok(Some(7)));
    assert_eq!(absent_as_none::<i32>(Err(diesel::result::Error::NotFound)), Ok(None));
    assert_eq!(
        absent_as_none::<i32>(Err(database_error(DatabaseErrorKind::UniqueViolation))),
        Err(RegistryError::UniqueConstraintViolation)
    );
    assert_eq!(
        absent_as_none::<i32>(Err(diesel::result::Error::AlreadyInTransaction)),
        Err(RegistryError::StorageError)
    );
}

#[test]
fn an_unpublished_module_has_no_latest_version() {
    assert_eq!(
        NewModule::unpublished("alice", "scan", "d"),
        NewModule { author: "alice", name: "scan", description: "d", latest: None }
    );
}
