//! The policy-text compiler, on concrete texts.

use authz::compile::{compile, CompileError};
use authz::conditions::Conditions;

/// The full policy: the role list, then every privilege declaration.
fn full_policy() -> Vec<u8> {
    let text = "\
# These are the roles. Lower numbers have less privileges.
# Higher ranks automatically have lower ranks' privileges.
# Make sure you have the lowest one at zero, because that's the default.
[ member = 0 | admin = 100 ]

# These are the permissions: a privilege name, then the condition that
# needs to be met before the privilege may be exercised.
[ create_user has_role(admin) ]
[ delete_user has_role(admin) ]

[ read_name anyone ]
[ read_username anyone ]
[ search_users anyone ]
[ read_email_address any(own, has_role(admin), own_student) ]

[ edit_name any(own, has_role(admin)) ]
[ edit_username any(own, has_role(admin)) ]
[ edit_email_address any(own, has_role(admin)) ]

[ edit_password any(own, has_role(admin)) ]
[ read_role any(own, has_role(admin)) ]
[ edit_role has_role(admin) ]

[ create_location has_role(admin) ]
[ read_location_info anyone ]
[ edit_location_info has_role(admin) ]
[ delete_location has_role(admin) ]

[ read_students any(own, own_student, has_role(admin)) ]
[ edit_students any(own_student, has_role(admin)) ]
[ read_instructors anyone ]
[ edit_instructors has_role(admin) ]
";
    text.as_bytes().to_vec()
}

#[test]
fn the_full_policy_compiles() {
    let table = compile(&full_policy()).expect("the policy must compile");
    assert_eq!(table.roles.len(), 2);
    assert_eq!(table.len(), 20);
    assert_eq!(table.get(0).name, b"create_user".to_vec());
    assert_eq!(table.get(19).name, b"edit_instructors".to_vec());
}

#[test]
fn roles_compile_with_their_ranks() {
    let table = compile(&full_policy()).expect("the policy must compile");
    assert_eq!(table.roles.rank_of(b"member"), Some(0));
    assert_eq!(table.roles.rank_of(b"admin"), Some(100));
    assert_eq!(table.roles.rank_of(b"owner"), None);
    assert_eq!(table.roles.role_of(0).expect("rank 0 is declared").name, b"member".to_vec());
    assert_eq!(table.roles.role_of(100).expect("rank 100 is declared").rank, 100);
    assert!(table.roles.role_of(50).is_none());
}

#[test]
fn conditions_compile_to_their_trees() {
    let table = compile(&full_policy()).expect("the policy must compile");
    assert_eq!(table.lookup(b"read_name"), Some(&Conditions::Anyone));
    assert_eq!(table.lookup(b"edit_role"), Some(&Conditions::HasRole(100)));
    assert_eq!(
        table.lookup(b"read_email_address"),
        Some(&Conditions::Any(vec![
            Conditions::Own,
            Conditions::HasRole(100),
            Conditions::OwnStudent,
        ]))
    );
    assert_eq!(table.lookup(b"undeclared"), None);
}

#[test]
fn nested_composites_compile() {
    let src = b"[ member = 0 ] [ p all(anyone, any(own, own_student), has_role(member)) ]";
    let table = compile(src).expect("the policy must compile");
    assert_eq!(
        table.lookup(b"p"),
        Some(&Conditions::All(vec![
            Conditions::Anyone,
            Conditions::Any(vec![Conditions::Own, Conditions::OwnStudent]),
            Conditions::HasRole(0),
        ]))
    );
}

#[test]
fn a_single_role_and_no_privileges_compile() {
    let table = compile(b"[ member = 0 ]").expect("the policy must compile");
    assert_eq!(table.roles.len(), 1);
    assert_eq!(table.len(), 0);
}

#[test]
fn a_duplicate_role_name_is_rejected() {
    assert_eq!(
        compile(b"[ member = 0 | member = 1 ]"),
        Err(CompileError::DuplicateRoleName)
    );
}

#[test]
fn a_duplicate_rank_is_rejected() {
    assert_eq!(
        compile(b"[ member = 0 | admin = 0 ]"),
        Err(CompileError::DuplicateRank)
    );
}

#[test]
fn a_role_list_without_rank_zero_is_rejected() {
    assert_eq!(
        compile(b"[ member = 1 | admin = 100 ]"),
        Err(CompileError::MissingDefaultRole)
    );
}

#[test]
fn a_duplicate_privilege_is_rejected() {
    assert_eq!(
        compile(b"[ member = 0 ] [ p anyone ] [ p own ]"),
        Err(CompileError::DuplicatePrivilege)
    );
}

#[test]
fn an_unknown_role_reference_is_rejected() {
    assert_eq!(
        compile(b"[ member = 0 ] [ p has_role(admin) ]"),
        Err(CompileError::UnknownRole)
    );
}

#[test]
fn malformed_texts_are_rejected() {
    assert_eq!(compile(b""), Err(CompileError::Malformed));
    assert_eq!(compile(b"member = 0"), Err(CompileError::Malformed));
    assert_eq!(compile(b"[ member = 0"), Err(CompileError::Malformed));
    assert_eq!(compile(b"[ member ]"), Err(CompileError::Malformed));
    assert_eq!(compile(b"[ member = x ]"), Err(CompileError::Malformed));
    assert_eq!(compile(b"[ member = 0 ] [ p nobody ]"), Err(CompileError::Malformed));
    assert_eq!(compile(b"[ member = 0 ] [ p any() ]"), Err(CompileError::Malformed));
    assert_eq!(compile(b"[ member = 0 ] [ p anyone"), Err(CompileError::Malformed));
    assert_eq!(compile(b"[ member = 0 ] [ p has_role member ]"), Err(CompileError::Malformed));
    assert_eq!(compile(b"[ member = 0 ] stray"), Err(CompileError::Malformed));
    assert_eq!(compile(b"[ member = 0 ] [ 7up anyone ]"), Err(CompileError::Malformed));
}

#[test]
fn a_rank_of_nineteen_digits_is_rejected() {
    assert_eq!(
        compile(b"[ member = 0 | admin = 1000000000000000000 ]"),
        Err(CompileError::Malformed)
    );
    let table = compile(b"[ member = 0 | admin = 999999999999999999 ]")
        .expect("an eighteen-digit rank fits");
    assert_eq!(table.roles.rank_of(b"admin"), Some(999_999_999_999_999_999));
}

#[test]
fn comments_and_blank_lines_are_skipped() {
    let src = b"# heading\n[ member = 0 ] # trailing\n# footer\n[ p anyone ] # done\n";
    let table = compile(src).expect("the policy must compile");
    assert_eq!(table.lookup(b"p"), Some(&Conditions::Anyone));
}

#[test]
fn a_comment_runs_only_to_the_end_of_its_line() {
    let table = compile(b"[ member = 0 ] # [ p anyone ]").expect("must compile");
    assert_eq!(table.len(), 0);
    assert_eq!(table.roles.len(), 1);
}
