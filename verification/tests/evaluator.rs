//! The evaluator and the memoizing context, on concrete values.

use authz::conditions::{AuthError, Cache, Conditions, Lookup, Resolution, Slot};

fn fresh(user: Option<i64>, target: Option<i64>) -> Cache {
    Cache::empty(user, target)
}

#[test]
fn anyone_is_true_on_an_empty_context() {
    let cache = fresh(None, None);
    assert_eq!(Conditions::Anyone.check(&cache), Resolution::Value(true));
}

#[test]
fn anyone_is_true_whatever_the_context_holds() {
    let cache = Cache {
        user: Some(3),
        target: Some(9),
        role: Slot::Fault,
        student: Slot::Known(false),
    };
    assert_eq!(Conditions::Anyone.check(&cache), Resolution::Value(true));
}

#[test]
fn has_role_without_a_session_is_unauthorized_not_false() {
    let cache = fresh(None, Some(5));
    assert_eq!(
        Conditions::HasRole(0).check(&cache),
        Resolution::Failed(AuthError::Unauthorized)
    );
}

#[test]
fn has_role_demands_the_rank_then_compares_it() {
    let mut cache = fresh(Some(7), None);
    assert_eq!(
        Conditions::HasRole(100).check(&cache),
        Resolution::Pending(Lookup::Role { user: 7 })
    );
    cache.supply_role(Some(100));
    assert_eq!(Conditions::HasRole(100).check(&cache), Resolution::Value(true));
    assert_eq!(Conditions::HasRole(101).check(&cache), Resolution::Value(false));
}

#[test]
fn a_role_storage_failure_is_a_server_error() {
    let mut cache = fresh(Some(7), None);
    cache.supply_role(None);
    assert_eq!(
        Conditions::HasRole(0).check(&cache),
        Resolution::Failed(AuthError::ServerError)
    );
}

#[test]
fn own_is_true_exactly_when_both_are_set_and_equal() {
    assert_eq!(Conditions::Own.check(&fresh(Some(5), Some(5))), Resolution::Value(true));
    assert_eq!(Conditions::Own.check(&fresh(Some(5), Some(6))), Resolution::Value(false));
    assert_eq!(Conditions::Own.check(&fresh(None, Some(5))), Resolution::Value(false));
    assert_eq!(Conditions::Own.check(&fresh(Some(5), None)), Resolution::Value(false));
    assert_eq!(Conditions::Own.check(&fresh(None, None)), Resolution::Value(false));
}

#[test]
fn own_student_without_a_target_is_false_not_an_error() {
    assert_eq!(Conditions::OwnStudent.check(&fresh(None, None)), Resolution::Value(false));
    assert_eq!(Conditions::OwnStudent.check(&fresh(Some(4), None)), Resolution::Value(false));
}

#[test]
fn own_student_with_a_target_but_no_session_is_unauthorized() {
    assert_eq!(
        Conditions::OwnStudent.check(&fresh(None, Some(5))),
        Resolution::Failed(AuthError::Unauthorized)
    );
}

#[test]
fn own_student_demands_the_fact_then_returns_it() {
    let mut cache = fresh(Some(7), Some(5));
    assert_eq!(
        Conditions::OwnStudent.check(&cache),
        Resolution::Pending(Lookup::Student { user: 7, target: 5 })
    );
    cache.supply_student(Some(true));
    assert_eq!(Conditions::OwnStudent.check(&cache), Resolution::Value(true));
}

#[test]
fn a_student_storage_failure_is_a_server_error() {
    let mut cache = fresh(Some(7), Some(5));
    cache.supply_student(None);
    assert_eq!(
        Conditions::OwnStudent.check(&cache),
        Resolution::Failed(AuthError::ServerError)
    );
}

#[test]
fn empty_all_is_true_and_empty_any_is_false() {
    let cache = fresh(None, None);
    assert_eq!(Conditions::All(vec![]).check(&cache), Resolution::Value(true));
    assert_eq!(Conditions::Any(vec![]).check(&cache), Resolution::Value(false));
}

#[test]
fn all_collapses_a_failing_child_to_not_satisfied() {
    // The second child would fail `Unauthorized`, but `all` reports false
    // rather than propagating the error.
    let cache = fresh(None, Some(5));
    let c = Conditions::All(vec![Conditions::Anyone, Conditions::OwnStudent]);
    assert_eq!(c.check(&cache), Resolution::Value(false));
}

#[test]
fn any_collapses_a_failing_child_and_tries_the_next() {
    // The first child fails `ServerError`; `any` treats it as not
    // satisfied and the second child decides.
    let mut cache = fresh(Some(5), Some(5));
    cache.supply_student(None);
    let c = Conditions::Any(vec![Conditions::OwnStudent, Conditions::Own]);
    assert_eq!(c.check(&cache), Resolution::Value(true));
}

#[test]
fn any_short_circuits_before_a_storage_demand() {
    // `own` decides first, so the role and instructor facts are never
    // demanded.
    let cache = fresh(Some(5), Some(5));
    let c = Conditions::Any(vec![
        Conditions::Own,
        Conditions::HasRole(100),
        Conditions::OwnStudent,
    ]);
    assert_eq!(c.check(&cache), Resolution::Value(true));
}

#[test]
fn all_short_circuits_on_the_first_false_child() {
    // `own` is false, so the role fact is never demanded.
    let cache = fresh(Some(5), Some(6));
    let c = Conditions::All(vec![Conditions::Own, Conditions::HasRole(100)]);
    assert_eq!(c.check(&cache), Resolution::Value(false));
}

#[test]
fn evaluation_is_idempotent_and_each_fact_is_demanded_once() {
    let mut cache = fresh(Some(7), Some(5));
    let c = Conditions::Any(vec![Conditions::Own, Conditions::HasRole(100), Conditions::OwnStudent]);

    // The same unmodified context decides the same way, as often as asked.
    let first = c.check(&cache);
    assert_eq!(first, Resolution::Pending(Lookup::Role { user: 7 }));
    assert_eq!(c.check(&cache), first);
    assert_eq!(cache, Cache::empty(Some(7), Some(5)));

    // Once supplied, the role is never demanded again.
    cache.supply_role(Some(0));
    let second = c.check(&cache);
    assert_eq!(second, Resolution::Pending(Lookup::Student { user: 7, target: 5 }));
    assert_eq!(c.check(&cache), second);

    // Once both facts are held, the evaluation settles, and further
    // checks read only the memos.
    cache.supply_student(Some(true));
    assert_eq!(c.check(&cache), Resolution::Value(true));
    assert_eq!(c.check(&cache), Resolution::Value(true));
    assert_eq!(cache.role, Slot::Known(0));
    assert_eq!(cache.student, Slot::Known(true));
}

#[test]
fn nested_composites_evaluate_depth_first() {
    let cache = fresh(Some(2), Some(2));
    let c = Conditions::All(vec![
        Conditions::Any(vec![Conditions::Own, Conditions::HasRole(1)]),
        Conditions::Anyone,
    ]);
    assert_eq!(c.check(&cache), Resolution::Value(true));
}

#[test]
fn context_accessors_follow_the_policy() {
    let cache = fresh(Some(5), Some(5));
    assert!(cache.same());
    assert_eq!(cache.role(), Resolution::Pending(Lookup::Role { user: 5 }));
    assert_eq!(
        cache.student(),
        Resolution::Pending(Lookup::Student { user: 5, target: 5 })
    );

    let anon = fresh(None, None);
    assert!(!anon.same());
    assert_eq!(anon.role(), Resolution::Failed(AuthError::Unauthorized));
    assert_eq!(anon.student(), Resolution::Value(false));
}
