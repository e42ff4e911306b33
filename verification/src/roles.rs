//! The role model: an ordered, numeric-ranked set of roles where a
//! higher rank carries all lower ranks' privileges.

use vstd::prelude::*;

verus! {

/// Whether a held role rank meets a minimum-rank requirement. This is
/// the sole privilege-comparison mechanism: the evaluator's `HasRole`
/// test is exactly this predicate.
pub open spec fn rank_meets(held: i64, min: i64) -> bool {
    min <= held
}

/// Role rank `a` includes at least rank `b`'s privileges: every
/// minimum-rank requirement that `b` meets, `a` meets too.
pub open spec fn rank_covers(a: i64, b: i64) -> bool {
    forall|m: i64| rank_meets(b, m) ==> rank_meets(a, m)
}

/// Rank comparison is privilege comparison: `a` includes at least `b`'s
/// privileges exactly when `a >= b`. The inclusion is reflexive and
/// transitive across the rank ordering.
pub proof fn lemma_rank_order_is_privilege_order(a: i64, b: i64, c: i64)
    ensures
        rank_covers(a, b) <==> a >= b,
        rank_covers(a, a),
        rank_covers(a, b) && rank_covers(b, c) ==> rank_covers(a, c),
{
    if rank_covers(a, b) {
        assert(rank_meets(b, b));
        assert(rank_meets(a, b));
    }
}

/// One declared role: a canonical name and its unique rank.
#[derive(Debug, PartialEq, Eq)]
pub struct Role {
    /// The snake-cased name the policy text declares.
    pub name: Vec<u8>,
    /// The rank; higher means more privileged, inclusive of lower ranks.
    pub rank: i64,
}

/// The fixed, ordered list of declared roles.
#[derive(Debug, PartialEq, Eq)]
pub struct RoleTable {
    /// The roles in declaration order.
    pub roles: Vec<Role>,
}

impl RoleTable {
    /// The ranks, in declaration order.
    pub open spec fn spec_ranks(self) -> Seq<i64> {
        self.roles@.map_values(|r: Role| r.rank)
    }

    /// The names, in declaration order.
    pub open spec fn spec_names(self) -> Seq<Seq<u8>> {
        self.roles@.map_values(|r: Role| r.name@)
    }

    /// Well-formed: names and ranks are unique, and exactly one role has
    /// rank zero, the default role assigned to every new user.
    pub open spec fn wf(self) -> bool {
        &&& forall|i: int, j: int|
            0 <= i < j < self.roles@.len() ==> #[trigger] self.spec_ranks()[i] != #[trigger] self.spec_ranks()[j]
        &&& forall|i: int, j: int|
            0 <= i < j < self.roles@.len() ==> #[trigger] self.spec_names()[i] != #[trigger] self.spec_names()[j]
        &&& exists|i: int| 0 <= i < self.roles@.len() && #[trigger] self.spec_ranks()[i] == 0
    }

    /// How many roles are declared.
    pub fn len(&self) -> (n: usize)
        ensures
            n == self.roles@.len(),
    {
        self.roles.len()
    }

    /// The role at a declaration-order position, for enumeration and
    /// display.
    pub fn get(&self, i: usize) -> (r: &Role)
        requires
            i < self.roles@.len(),
        ensures
            *r == self.roles@[i as int],
    {
        &self.roles[i]
    }

    /// The rank declared for a role name, if the name is declared.
    pub fn rank_of(&self, name: &[u8]) -> (r: Option<i64>)
        ensures
            match r {
                Some(rank) => exists|i: int|
                    0 <= i < self.roles@.len() && #[trigger] self.roles@[i].name@ == name@
                        && self.roles@[i].rank == rank,
                None => forall|i: int|
                    0 <= i < self.roles@.len() ==> #[trigger] self.roles@[i].name@ != name@,
            },
    {
        let n = self.roles.len();
        for i in 0..n
            invariant
                n == self.roles@.len(),
                forall|j: int| 0 <= j < i ==> #[trigger] self.roles@[j].name@ != name@,
        {
            if bytes_eq(self.roles[i].name.as_slice(), name) {
                return Some(self.roles[i].rank);
            }
        }
        None
    }

    /// The role carrying a rank, if any role does. Callers must treat an
    /// unknown stored rank as a data-integrity concern, not a crash.
    pub fn role_of(&self, rank: i64) -> (r: Option<&Role>)
        ensures
            match r {
                Some(role) => exists|i: int|
                    0 <= i < self.roles@.len() && #[trigger] self.roles@[i] == *role
                        && role.rank == rank,
                None => forall|i: int|
                    0 <= i < self.roles@.len() ==> #[trigger] self.roles@[i].rank != rank,
            },
    {
        let n = self.roles.len();
        for i in 0..n
            invariant
                n == self.roles@.len(),
                forall|j: int| 0 <= j < i ==> #[trigger] self.roles@[j].rank != rank,
        {
            if self.roles[i].rank == rank {
                return Some(&self.roles[i]);
            }
        }
        None
    }
}

/// Whether two byte strings hold the same bytes.
pub fn bytes_eq(a: &[u8], b: &[u8]) -> (r: bool)
    ensures
        r == (a@ == b@),
{
    if a.len() != b.len() {
        return false;
    }
    let n = a.len();
    for i in 0..n
        invariant
            n == a@.len(),
            a@.len() == b@.len(),
            forall|j: int| 0 <= j < i ==> a@[j] == b@[j],
    {
        if a[i] != b[i] {
            return false;
        }
    }
    proof {
        assert(a@ =~= b@);
    }
    true
}

} // verus!
