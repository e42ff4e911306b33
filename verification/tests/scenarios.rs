//! End-to-end scenarios: compiled policies checked through the guard,
//! with storage facts supplied the way a driver loop would supply them.

use authz::compile::compile;
use authz::conditions::{AuthError, Cache, Lookup, Resolution};
use authz::table::Table;

fn policy() -> Table {
    let text = "\
[ member = 0 | admin = 100 ]
[ edit_role has_role(admin) ]
[ read_email_address any(own, has_role(admin), own_student) ]
";
    compile(text.as_bytes()).expect("the policy must compile")
}

#[test]
fn a_member_may_not_edit_roles_but_an_admin_may() {
    let table = policy();

    let mut member = Cache::empty(Some(1), None);
    assert_eq!(
        table.require(b"edit_role", &member),
        Resolution::Pending(Lookup::Role { user: 1 })
    );
    member.supply_role(Some(0));
    assert_eq!(
        table.require(b"edit_role", &member),
        Resolution::Failed(AuthError::Unauthorized)
    );

    let mut admin = Cache::empty(Some(2), None);
    assert_eq!(
        table.require(b"edit_role", &admin),
        Resolution::Pending(Lookup::Role { user: 2 })
    );
    admin.supply_role(Some(100));
    assert_eq!(table.require(b"edit_role", &admin), Resolution::Value(()));
}

#[test]
fn reading_ones_own_email_address_needs_no_storage_fact() {
    let table = policy();
    // Acting user 5 reads user 5: `own` decides first, so neither the
    // role nor the instructor fact is ever demanded.
    let cache = Cache::empty(Some(5), Some(5));
    assert_eq!(table.require(b"read_email_address", &cache), Resolution::Value(()));
}

#[test]
fn an_instructor_may_read_a_students_email_address() {
    let table = policy();
    let mut cache = Cache::empty(Some(7), Some(5));

    // Not the same user, so the role is demanded; user 7 is no admin.
    assert_eq!(
        table.require(b"read_email_address", &cache),
        Resolution::Pending(Lookup::Role { user: 7 })
    );
    cache.supply_role(Some(0));

    // Not an admin either, so the instructor relation is demanded.
    assert_eq!(
        table.require(b"read_email_address", &cache),
        Resolution::Pending(Lookup::Student { user: 7, target: 5 })
    );
    cache.supply_student(Some(true));
    assert_eq!(table.require(b"read_email_address", &cache), Resolution::Value(()));
}

#[test]
fn a_stranger_may_not_read_anothers_email_address() {
    let table = policy();
    let mut cache = Cache::empty(Some(7), Some(5));
    cache.supply_role(Some(0));
    cache.supply_student(Some(false));
    assert_eq!(
        table.require(b"read_email_address", &cache),
        Resolution::Failed(AuthError::Unauthorized)
    );
}

#[test]
fn a_storage_failure_during_a_check_is_a_server_error() {
    let table = policy();
    let mut cache = Cache::empty(Some(7), None);
    cache.supply_role(None);
    assert_eq!(
        table.require(b"edit_role", &cache),
        Resolution::Failed(AuthError::ServerError)
    );
}

#[test]
fn a_higher_rank_carries_all_lower_ranks_privileges() {
    // `read_member_area` asks only for the member rank; an admin's rank
    // of 100 meets the member requirement of 0.
    let table = compile(b"[ member = 0 | admin = 100 ] [ read_member_area has_role(member) ]")
        .expect("the policy must compile");
    let mut admin = Cache::empty(Some(2), None);
    admin.supply_role(Some(100));
    assert_eq!(table.require(b"read_member_area", &admin), Resolution::Value(()));

    let mut member = Cache::empty(Some(1), None);
    member.supply_role(Some(0));
    assert_eq!(table.require(b"read_member_area", &member), Resolution::Value(()));
}

#[test]
fn the_table_is_a_catalog_of_privilege_names() {
    let table = policy();
    let mut names: Vec<Vec<u8>> = Vec::new();
    for i in 0..table.len() {
        names.push(table.get(i).name.clone());
    }
    assert_eq!(names, vec![b"edit_role".to_vec(), b"read_email_address".to_vec()]);
}
