//! The condition language and its evaluator.

use vstd::prelude::*;

verus! {

/// Why an authorization check could not be decided in the caller's favour.
#[derive(Clone, Copy, Debug, PartialEq, Eq, Structural)]
pub enum AuthError {
    /// The acting party's identity or role could not establish the fact
    /// needed: an anonymous caller, or a role-dependent check with no session.
    Unauthorized,
    /// The storage collaborator failed or returned data violating an
    /// invariant, such as a user row missing its role.
    ServerError,
}

/// A condition over the acting user and the target entity.
#[derive(Debug, PartialEq, Eq)]
pub enum Conditions {
    /// Always satisfied.
    Anyone,
    /// The acting user's resolved role rank must meet or exceed this rank.
    HasRole(i64),
    /// The acting user must be the target entity.
    Own,
    /// The acting user must instruct at the target user's training location.
    OwnStudent,
    /// Every child must be satisfied; an empty list is vacuously satisfied.
    All(Vec<Conditions>),
    /// At least one child must be satisfied; an empty list never is.
    Any(Vec<Conditions>),
}

/// A storage fact that evaluation needs but the context does not hold yet.
#[derive(Clone, Copy, Debug, PartialEq, Eq, Structural)]
pub enum Lookup {
    /// The stored role rank of the given user.
    Role { user: i64 },
    /// Whether `user` instructs at `target`'s training location.
    Student { user: i64, target: i64 },
}

/// The result of resolving a fact, or of evaluating a condition.
#[derive(Clone, Copy, Debug, PartialEq, Eq)]
pub enum Resolution<T> {
    /// The value is decided.
    Value(T),
    /// The check failed: the error says whether the caller lacked a
    /// session or the storage collaborator failed.
    Failed(AuthError),
    /// A storage fact is missing; the caller must fetch it and hand it
    /// to the context before evaluating again.
    Pending(Lookup),
}

/// A memo slot for a fact fetched at most once per context.
#[derive(Clone, Copy, Debug, PartialEq, Eq, Structural)]
pub enum Slot<T> {
    /// The fact was never fetched.
    Empty,
    /// The fact was fetched and is held for the rest of the context's life.
    Known(T),
    /// Fetching the fact failed; the failure is held so the lookup is
    /// never reissued by this context.
    Fault,
}

/// The per-request evaluation context: the acting user, the target
/// entity, and the memoized storage facts about them.
#[derive(Clone, Debug, PartialEq, Eq, Structural)]
pub struct Cache {
    /// The identity attempting the action, if a session is present.
    pub user: Option<i64>,
    /// The record the action would affect, if any.
    pub target: Option<i64>,
    /// The acting user's stored role rank, fetched at most once.
    pub role: Slot<i64>,
    /// Whether the acting user instructs at the target's training
    /// location, fetched at most once.
    pub student: Slot<bool>,
}

impl Cache {
    /// A fresh context for one (acting user, target) pair, holding no
    /// storage facts yet.
    pub fn empty(user: Option<i64>, target: Option<i64>) -> (c: Cache)
        ensures
            c == (Cache { user, target, role: Slot::<i64>::Empty, student: Slot::<bool>::Empty }),
    {
        Cache { user, target, role: Slot::Empty, student: Slot::Empty }
    }

    /// Whether the acting user and the target are both present and equal.
    /// Pure and cheap, so never cached.
    pub fn same(&self) -> (r: bool)
        ensures
            r == spec_same(*self),
    {
        match (self.user, self.target) {
            (Some(u), Some(t)) => u == t,
            _ => false,
        }
    }

    /// The acting user's role rank: `Unauthorized` for an anonymous
    /// caller, the memoized rank or fault if one is held, and otherwise a
    /// demand for the stored rank.
    pub fn role(&self) -> (r: Resolution<i64>)
        ensures
            r == spec_role(*self),
    {
        match self.user {
            None => Resolution::Failed(AuthError::Unauthorized),
            Some(u) => match self.role {
                Slot::Known(rank) => Resolution::Value(rank),
                Slot::Fault => Resolution::Failed(AuthError::ServerError),
                Slot::Empty => Resolution::Pending(Lookup::Role { user: u }),
            },
        }
    }

    /// The instructor-of-target fact: `false` without a target,
    /// `Unauthorized` for an anonymous caller with a target, the memoized
    /// fact or fault if one is held, and otherwise a demand for the
    /// relational existence check.
    pub fn student(&self) -> (r: Resolution<bool>)
        ensures
            r == spec_student(*self),
    {
        match self.target {
            None => Resolution::Value(false),
            Some(t) => match self.user {
                None => Resolution::Failed(AuthError::Unauthorized),
                Some(u) => match self.student {
                    Slot::Known(b) => Resolution::Value(b),
                    Slot::Fault => Resolution::Failed(AuthError::ServerError),
                    Slot::Empty => Resolution::Pending(Lookup::Student { user: u, target: t }),
                },
            },
        }
    }

    /// Record the outcome of the role lookup demanded by
    /// `Lookup::Role`. `None` records a storage failure: a missing row
    /// for an authenticated identity is a data-integrity fault, not a
    /// normal denial. Each fact is recorded at most once per context.
    pub fn supply_role(&mut self, fetched: Option<i64>)
        requires
            old(self).role is Empty,
        ensures
            final(self).user == old(self).user,
            final(self).target == old(self).target,
            final(self).student == old(self).student,
            final(self).role == (match fetched {
                Some(rank) => Slot::Known(rank),
                None => Slot::<i64>::Fault,
            }),
    {
        self.role = match fetched {
            Some(rank) => Slot::Known(rank),
            None => Slot::Fault,
        };
    }

    /// Record the outcome of the existence check demanded by
    /// `Lookup::Student`, with `None` recording a storage failure.
    /// Each fact is recorded at most once per context.
    pub fn supply_student(&mut self, fetched: Option<bool>)
        requires
            old(self).student is Empty,
        ensures
            final(self).user == old(self).user,
            final(self).target == old(self).target,
            final(self).role == old(self).role,
            final(self).student == (match fetched {
                Some(b) => Slot::Known(b),
                None => Slot::<bool>::Fault,
            }),
    {
        self.student = match fetched {
            Some(b) => Slot::Known(b),
            None => Slot::Fault,
        };
    }
}

/// What resolving the acting user's role rank yields on a given context.
pub open spec fn spec_role(c: Cache) -> Resolution<i64> {
    match c.user {
        None => Resolution::Failed(AuthError::Unauthorized),
        Some(u) => match c.role {
            Slot::Known(r) => Resolution::Value(r),
            Slot::Fault => Resolution::Failed(AuthError::ServerError),
            Slot::Empty => Resolution::Pending(Lookup::Role { user: u }),
        },
    }
}

/// Whether the acting user and the target are both present and equal.
pub open spec fn spec_same(c: Cache) -> bool {
    c.user is Some && c.user == c.target
}

/// What resolving the instructor-of-target fact yields on a given context.
pub open spec fn spec_student(c: Cache) -> Resolution<bool> {
    match c.target {
        None => Resolution::Value(false),
        Some(t) => match c.user {
            None => Resolution::Failed(AuthError::Unauthorized),
            Some(u) => match c.student {
                Slot::Known(b) => Resolution::Value(b),
                Slot::Fault => Resolution::Failed(AuthError::ServerError),
                Slot::Empty => Resolution::Pending(Lookup::Student { user: u, target: t }),
            },
        },
    }
}

/// What evaluating a condition yields on a given context.
pub open spec fn spec_check(c: Conditions, ctx: Cache) -> Resolution<bool>
    decreases c,
{
    match c {
        Conditions::Anyone => Resolution::Value(true),
        Conditions::HasRole(min) => match spec_role(ctx) {
            Resolution::Value(r) => Resolution::Value(crate::roles::rank_meets(r, min)),
            Resolution::Failed(e) => Resolution::Failed(e),
            Resolution::Pending(l) => Resolution::Pending(l),
        },
        Conditions::Own => Resolution::Value(spec_same(ctx)),
        Conditions::OwnStudent => spec_student(ctx),
        Conditions::All(parts) => spec_check_all(parts@, 0, ctx),
        Conditions::Any(parts) => spec_check_any(parts@, 0, ctx),
    }
}

/// Conjunction from index `i` on: every remaining child must evaluate to
/// true; a child that fails collapses to "not satisfied".
pub open spec fn spec_check_all(parts: Seq<Conditions>, i: int, ctx: Cache) -> Resolution<bool>
    decreases parts, parts.len() - i when 0 <= i <= parts.len()
{
    if i == parts.len() {
        Resolution::Value(true)
    } else {
        match spec_check(parts[i], ctx) {
            Resolution::Value(true) => spec_check_all(parts, i + 1, ctx),
            Resolution::Pending(l) => Resolution::Pending(l),
            _ => Resolution::Value(false),
        }
    }
}

/// Disjunction from index `i` on: some remaining child must evaluate to
/// true; a child that fails collapses to "not satisfied".
pub open spec fn spec_check_any(parts: Seq<Conditions>, i: int, ctx: Cache) -> Resolution<bool>
    decreases parts, parts.len() - i when 0 <= i <= parts.len()
{
    if i == parts.len() {
        Resolution::Value(false)
    } else {
        match spec_check(parts[i], ctx) {
            Resolution::Value(true) => Resolution::Value(true),
            Resolution::Pending(l) => Resolution::Pending(l),
            _ => spec_check_any(parts, i + 1, ctx),
        }
    }
}

/// `Anyone` is satisfied on every context, even one with no acting user
/// and no target.
pub proof fn lemma_anyone_always_true(ctx: Cache)
    ensures
        spec_check(Conditions::Anyone, ctx) == Resolution::<bool>::Value(true),
{
}

/// `HasRole` with no acting user set always fails `Unauthorized`; it
/// never evaluates to `false`.
pub proof fn lemma_has_role_anonymous(min: i64, ctx: Cache)
    requires
        ctx.user is None,
    ensures
        spec_check(Conditions::HasRole(min), ctx)
            == Resolution::<bool>::Failed(AuthError::Unauthorized),
{
}

/// `Own` is `true` exactly when acting user and target are both set and
/// equal, and `false` otherwise; it never errors and never demands a
/// storage fact.
pub proof fn lemma_own_is_identity_test(ctx: Cache)
    ensures
        spec_check(Conditions::Own, ctx)
            == Resolution::<bool>::Value(ctx.user is Some && ctx.user == ctx.target),
{
}

/// `OwnStudent` with no target set is `false`, not an error, whatever
/// the acting user is.
pub proof fn lemma_own_student_without_target(ctx: Cache)
    requires
        ctx.target is None,
    ensures
        spec_check(Conditions::OwnStudent, ctx) == Resolution::<bool>::Value(false),
{
}

/// `OwnStudent` with a target set and no acting user fails `Unauthorized`.
pub proof fn lemma_own_student_anonymous(ctx: Cache)
    requires
        ctx.target is Some,
        ctx.user is None,
    ensures
        spec_check(Conditions::OwnStudent, ctx)
            == Resolution::<bool>::Failed(AuthError::Unauthorized),
{
}

/// An empty `All` is vacuously satisfied; an empty `Any` never is.
pub proof fn lemma_empty_composites(c: Conditions, ctx: Cache)
    ensures
        (c matches Conditions::All(parts) && parts@.len() == 0)
            ==> spec_check(c, ctx) == Resolution::<bool>::Value(true),
        (c matches Conditions::Any(parts) && parts@.len() == 0)
            ==> spec_check(c, ctx) == Resolution::<bool>::Value(false),
{
}

/// A more privileged role keeps every privilege: on two contexts that
/// differ only in the role rank they hold, the one holding the higher
/// rank satisfies every `HasRole` requirement the other satisfies.
pub proof fn lemma_higher_rank_keeps_privileges(
    min: i64,
    a: i64,
    b: i64,
    ctx_a: Cache,
    ctx_b: Cache,
)
    requires
        a >= b,
        ctx_a.user is Some,
        ctx_b.user is Some,
        ctx_a.role == Slot::<i64>::Known(a),
        ctx_b.role == Slot::<i64>::Known(b),
        spec_check(Conditions::HasRole(min), ctx_b) == Resolution::<bool>::Value(true),
    ensures
        spec_check(Conditions::HasRole(min), ctx_a) == Resolution::<bool>::Value(true),
{
}

/// Evaluation demands a storage fact only if the context does not hold
/// it, and names the identities the context was built for. Together with
/// `supply_role` and `supply_student`, which record a fact permanently
/// and may only fill an empty slot, this is the memoization law: each
/// storage lookup is issued at most once per context, however many times
/// evaluation asks for the fact.
pub proof fn lemma_check_demands_only_missing_facts(c: Conditions, ctx: Cache)
    ensures
        spec_check(c, ctx) matches Resolution::Pending(l)
            ==> (match l {
                Lookup::Role { user } =>
                    ctx.role is Empty && ctx.user == Some(user),
                Lookup::Student { user, target } =>
                    ctx.student is Empty && ctx.user == Some(user) && ctx.target == Some(target),
            }),
    decreases c,
{
    match c {
        Conditions::All(parts) => {
            lemma_check_all_demands_only_missing_facts(parts@, 0, ctx);
        },
        Conditions::Any(parts) => {
            lemma_check_any_demands_only_missing_facts(parts@, 0, ctx);
        },
        _ => {},
    }
}

proof fn lemma_check_all_demands_only_missing_facts(parts: Seq<Conditions>, i: int, ctx: Cache)
    requires
        0 <= i <= parts.len(),
    ensures
        spec_check_all(parts, i, ctx) matches Resolution::Pending(l)
            ==> (match l {
                Lookup::Role { user } =>
                    ctx.role is Empty && ctx.user == Some(user),
                Lookup::Student { user, target } =>
                    ctx.student is Empty && ctx.user == Some(user) && ctx.target == Some(target),
            }),
    decreases parts, parts.len() - i,
{
    if i < parts.len() {
        lemma_check_demands_only_missing_facts(parts[i], ctx);
        if spec_check(parts[i], ctx) == Resolution::<bool>::Value(true) {
            lemma_check_all_demands_only_missing_facts(parts, i + 1, ctx);
        }
    }
}

proof fn lemma_check_any_demands_only_missing_facts(parts: Seq<Conditions>, i: int, ctx: Cache)
    requires
        0 <= i <= parts.len(),
    ensures
        spec_check_any(parts, i, ctx) matches Resolution::Pending(l)
            ==> (match l {
                Lookup::Role { user } =>
                    ctx.role is Empty && ctx.user == Some(user),
                Lookup::Student { user, target } =>
                    ctx.student is Empty && ctx.user == Some(user) && ctx.target == Some(target),
            }),
    decreases parts, parts.len() - i,
{
    if i < parts.len() {
        lemma_check_demands_only_missing_facts(parts[i], ctx);
        lemma_check_any_demands_only_missing_facts(parts, i + 1, ctx);
    }
}

/// One context extends another when it is for the same acting user and
/// target and holds every fact the other holds, unchanged.
pub open spec fn cache_extends(wider: Cache, narrower: Cache) -> bool {
    &&& wider.user == narrower.user
    &&& wider.target == narrower.target
    &&& (narrower.role is Empty || wider.role == narrower.role)
    &&& (narrower.student is Empty || wider.student == narrower.student)
}

/// A decided evaluation is stable: once a condition evaluates to a value
/// or an error on a context, supplying further storage facts to the
/// context cannot change that resolution. Since evaluation never mutates
/// the context, this is the idempotence law: repeated evaluation of the
/// same condition against the same or a further-filled context decides
/// the same way.
pub proof fn lemma_check_stable_under_supply(c: Conditions, ctx: Cache, wider: Cache)
    requires
        cache_extends(wider, ctx),
        !(spec_check(c, ctx) is Pending),
    ensures
        spec_check(c, wider) == spec_check(c, ctx),
    decreases c,
{
    match c {
        Conditions::All(parts) => {
            lemma_check_all_stable_under_supply(parts@, 0, ctx, wider);
        },
        Conditions::Any(parts) => {
            lemma_check_any_stable_under_supply(parts@, 0, ctx, wider);
        },
        _ => {},
    }
}

proof fn lemma_check_all_stable_under_supply(
    parts: Seq<Conditions>,
    i: int,
    ctx: Cache,
    wider: Cache,
)
    requires
        0 <= i <= parts.len(),
        cache_extends(wider, ctx),
        !(spec_check_all(parts, i, ctx) is Pending),
    ensures
        spec_check_all(parts, i, wider) == spec_check_all(parts, i, ctx),
    decreases parts, parts.len() - i,
{
    if i < parts.len() {
        lemma_check_stable_under_supply(parts[i], ctx, wider);
        if spec_check(parts[i], ctx) == Resolution::<bool>::Value(true) {
            lemma_check_all_stable_under_supply(parts, i + 1, ctx, wider);
        }
    }
}

proof fn lemma_check_any_stable_under_supply(
    parts: Seq<Conditions>,
    i: int,
    ctx: Cache,
    wider: Cache,
)
    requires
        0 <= i <= parts.len(),
        cache_extends(wider, ctx),
        !(spec_check_any(parts, i, ctx) is Pending),
    ensures
        spec_check_any(parts, i, wider) == spec_check_any(parts, i, ctx),
    decreases parts, parts.len() - i,
{
    if i < parts.len() {
        lemma_check_stable_under_supply(parts[i], ctx, wider);
        if spec_check(parts[i], ctx) != Resolution::<bool>::Value(true) {
            lemma_check_any_stable_under_supply(parts, i + 1, ctx, wider);
        }
    }
}

impl Conditions {
    /// Evaluate this condition against a context, depth first and short
    /// circuiting, without touching storage: where a storage fact is
    /// missing the result is `Pending` and names the lookup to perform.
    /// Inside `All` and `Any`, a child that fails with an error counts as
    /// "not satisfied" rather than aborting the whole evaluation.
    #[verifier::loop_isolation(false)]
    pub fn check(&self, cache: &Cache) -> (r: Resolution<bool>)
        ensures
            r == spec_check(*self, *cache),
        decreases *self,
    {
        match self {
            Conditions::Anyone => Resolution::Value(true),
            Conditions::HasRole(min) => match cache.role() {
                Resolution::Value(rank) => Resolution::Value(*min <= rank),
                Resolution::Failed(e) => Resolution::Failed(e),
                Resolution::Pending(l) => Resolution::Pending(l),
            },
            Conditions::Own => Resolution::Value(cache.same()),
            Conditions::OwnStudent => cache.student(),
            Conditions::All(parts) => {
                let n = parts.len();
                for i in 0..n
                    invariant
                        n == parts.len(),
                        spec_check_all(parts@, i as int, *cache)
                            == spec_check(*self, *cache),
                    decreases n - i,
                {
                    match parts[i].check(cache) {
                        Resolution::Value(true) => {},
                        Resolution::Pending(l) => {
                            return Resolution::Pending(l);
                        },
                        _ => {
                            return Resolution::Value(false);
                        },
                    }
                }
                Resolution::Value(true)
            },
            Conditions::Any(parts) => {
                let n = parts.len();
                for i in 0..n
                    invariant
                        n == parts.len(),
                        spec_check_any(parts@, i as int, *cache)
                            == spec_check(*self, *cache),
                    decreases n - i,
                {
                    match parts[i].check(cache) {
                        Resolution::Value(true) => {
                            return Resolution::Value(true);
                        },
                        Resolution::Pending(l) => {
                            return Resolution::Pending(l);
                        },
                        _ => {},
                    }
                }
                Resolution::Value(false)
            },
        }
    }
}

} // verus!

