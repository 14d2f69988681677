use rolebot::api::{ApiError, Roles, RolesDatabase};

fn create_test_db() -> RolesDatabase {
    RolesDatabase::try_from(vec![
        Roles::new(1, 1, 1),
        Roles::new(1, 1, 2),
        Roles::new(1, 1, 3),
        Roles::new(1, 1, 4),
        Roles::new(1, 1, 5),
        Roles::new(1, 2, 1),
        Roles::new(1, 2, 2),
        Roles::new(1, 2, 6),
        Roles::new(2, 1, 1),
        Roles::new(2, 1, 6),
        Roles::new(2, 3, 7),
    ])
    .unwrap()
}

fn sorted(mut v: Vec<u64>) -> Vec<u64> {
    v.sort();
    v
}

#[test]
pub fn test_add_user_to_role() {
    let mut db = create_test_db();
    assert!(db.add_user_to_role(1u64, 1u64, 1u64).is_err());
    assert!(db.add_user_to_role(1u64, 1u64, 1000u64).is_ok());
}

#[test]
pub fn test_show_roles_of_user() {
    let db = create_test_db();
    assert_eq!(db.show_roles_of_user(1u64, 2u64), vec![1u64, 2u64])
}

#[test]
pub fn test_show_users_of_role() {
    let db = create_test_db();
    assert_eq!(db.show_users_of_role(1u64, 2u64), vec![1u64, 2u64, 6u64])
}

#[test]
pub fn test_show_roles_of_guild() {
    let db = create_test_db();
    assert_eq!(db.show_roles_of_guild(1u64), vec![1u64, 2u64]);
    assert_eq!(db.show_roles_of_guild(2u64), vec![1u64, 3u64]);
}

#[test]
pub fn test_remove_user_from_role() {
    let mut db = create_test_db();
    assert!(db.remove_user_from_role(1u64, 1u64, 2u64).is_ok());
    assert!(db.remove_user_from_role(1u64, 10000u64, 2u64).is_err());
}

#[test]
pub fn test_remove_role() {
    let mut db = create_test_db();

    assert_eq!(db.remove_role(1u64, 2u64).unwrap(), vec![1u64, 2u64, 6u64]);
    assert!(db.remove_role(1u64, 10000u64).is_err());
}

#[test]
pub fn test_remove_user() {
    let mut db = create_test_db();
    assert_eq!(db.remove_user(1u64, 2u64).unwrap(), vec![1u64, 2u64]);
    assert!(db.remove_user(1u64, 200000u64).is_err());
}

#[test]
pub fn test_remove_guild() {
    let mut db = create_test_db();
    assert_eq!(
        db.remove_guild(2u64).unwrap(),
        vec![Roles::new(2, 1, 1), Roles::new(2, 1, 6), Roles::new(2, 3, 7),]
    );
    assert!(db.remove_guild(10000u64).is_err());
}

#[test]
fn empty_store_subscribe_duplicate_then_other_user() {
    let mut db = RolesDatabase::new();
    assert_eq!(db.add_user_to_role(1, 1, 1), Ok(()));
    assert_eq!(db.add_user_to_role(1, 1, 1), Err(ApiError::Insertion));
    assert_eq!(db.add_user_to_role(1, 1, 1000), Ok(()));
    assert_eq!(db.show_users_of_role(1, 1), vec![1, 1000]);
}

#[test]
fn failed_subscribe_leaves_contents_unchanged() {
    let mut db = create_test_db();
    let before = db.snapshot();
    assert_eq!(db.add_user_to_role(2, 3, 7), Err(ApiError::Insertion));
    assert_eq!(db.snapshot(), before);
}

#[test]
fn subscribe_appends_the_new_membership() {
    let mut db = create_test_db();
    assert_eq!(db.add_user_to_role(3, 4, 5), Ok(()));
    let all = db.snapshot();
    assert_eq!(all.len(), 12);
    assert_eq!(all[11], Roles::new(3, 4, 5));
    assert_eq!(db.add_user_to_role(3, 4, 5), Err(ApiError::Insertion));
}

#[test]
fn queries_on_unknown_keys_are_empty() {
    let db = create_test_db();
    assert!(db.show_roles_of_user(9, 9).is_empty());
    assert!(db.show_users_of_role(1, 9).is_empty());
    assert!(db.show_roles_of_guild(9).is_empty());
    assert!(RolesDatabase::new().show_roles_of_guild(1).is_empty());
}

#[test]
fn remove_one_returns_the_user() {
    let mut db = create_test_db();
    assert_eq!(db.remove_user_from_role(1, 1, 2), Ok(2));
    assert_eq!(db.remove_user_from_role(1, 10000, 2), Err(ApiError::Removal));
    assert_eq!(db.remove_user_from_role(1, 1, 2), Err(ApiError::Removal));
    assert_eq!(db.show_roles_of_user(1, 2), vec![2]);
}

#[test]
fn remove_role_returns_its_users_as_a_set() {
    let mut db = create_test_db();
    assert_eq!(sorted(db.remove_role(1, 2).unwrap()), vec![1, 2, 6]);
    assert_eq!(db.remove_role(1, 10000), Err(ApiError::Removal));
}

#[test]
fn remove_role_takes_exactly_that_role() {
    let mut db = create_test_db();
    assert!(db.remove_role(1, 2).is_ok());
    assert!(db.show_users_of_role(1, 2).is_empty());
    assert_eq!(db.remove_role(1, 2), Err(ApiError::Removal));
    assert_eq!(db.show_users_of_role(1, 1), vec![1, 2, 3, 4, 5]);
    assert_eq!(db.show_users_of_role(2, 1), vec![1, 6]);
    assert_eq!(db.snapshot().len(), 8);
}

#[test]
fn purge_guild_returns_its_memberships() {
    let mut db = create_test_db();
    let gone = db.remove_guild(2).unwrap();
    assert_eq!(gone.len(), 3);
    assert!(gone.contains(&Roles::new(2, 1, 1)));
    assert!(gone.contains(&Roles::new(2, 1, 6)));
    assert!(gone.contains(&Roles::new(2, 3, 7)));
    assert_eq!(db.remove_guild(10000), Err(ApiError::Removal));
    assert!(db.show_roles_of_guild(2).is_empty());
    assert_eq!(db.show_roles_of_guild(1), vec![1, 2]);
}

#[test]
fn remove_user_failure_keeps_store() {
    let mut db = create_test_db();
    let before = db.snapshot();
    assert_eq!(db.remove_user(1, 200000), Err(ApiError::Removal));
    assert_eq!(db.snapshot(), before);
}

#[test]
fn snapshot_loads_back_to_the_same_answers() {
    let db = create_test_db();
    let copy = RolesDatabase::try_from(db.snapshot()).unwrap();
    assert_eq!(copy.snapshot(), db.snapshot());
    for g in 0..4u64 {
        assert_eq!(copy.show_roles_of_guild(g), db.show_roles_of_guild(g));
        for k in 0..8u64 {
            assert_eq!(copy.show_users_of_role(g, k), db.show_users_of_role(g, k));
            assert_eq!(copy.show_roles_of_user(g, k), db.show_roles_of_user(g, k));
        }
    }
}

#[test]
fn loading_duplicates_is_refused() {
    let r = RolesDatabase::try_from(vec![Roles::new(1, 2, 3), Roles::new(4, 5, 6), Roles::new(1, 2, 3)]);
    assert_eq!(r.err(), Some(ApiError::BadRead));
    assert!(RolesDatabase::try_from(Vec::new()).is_ok());
}

#[test]
fn queries_do_not_change_later_answers() {
    let db = create_test_db();
    let first = (db.show_roles_of_user(1, 2), db.show_users_of_role(1, 2), db.show_roles_of_guild(1));
    let second = (db.show_roles_of_user(1, 2), db.show_users_of_role(1, 2), db.show_roles_of_guild(1));
    assert_eq!(first, second);
    assert_eq!(db.snapshot().len(), 11);
}

#[test]
fn users_of_several_roles_come_role_after_role() {
    let db = create_test_db();
    assert_eq!(db.show_users_of_roles(1, &vec![2, 1]), vec![1, 2, 6, 1, 2, 3, 4, 5]);
    assert_eq!(db.show_users_of_roles(2, &vec![3, 9]), vec![7]);
    assert!(db.show_users_of_roles(1, &Vec::new()).is_empty());
}

#[test]
fn largest_identifiers_round_trip() {
    let mut db = RolesDatabase::new();
    assert!(db.add_user_to_role(u64::MAX, u64::MAX, u64::MAX).is_ok());
    assert_eq!(db.show_roles_of_user(u64::MAX, u64::MAX), vec![u64::MAX]);
    assert_eq!(db.remove_user(u64::MAX, u64::MAX), Ok(vec![u64::MAX]));
}

#[test]
fn error_messages() {
    assert_eq!(ApiError::Insertion.message(), "Duplicate item inserted");
    assert_eq!(ApiError::BadRead.message(), "Couldn't read file");
    assert_eq!(ApiError::Removal.message(), "Item doesn't exist");
    assert_eq!(ApiError::BadSave.message(), "Couldn't save the database");
}
