//! The compiled policy: a fixed mapping from privilege name to condition
//! tree, with the role table it was compiled against, and the guard that
//! every protected access calls.

use vstd::prelude::*;

use crate::conditions::{AuthError, Cache, Conditions, Resolution, spec_check};
use crate::roles::{RoleTable, bytes_eq};

verus! {

/// One compiled privilege: a name and the condition guarding it.
#[derive(Debug, PartialEq, Eq)]
pub struct Privilege {
    /// The privilege name declared in the policy text.
    pub name: Vec<u8>,
    /// The condition that must be satisfied to exercise the privilege.
    pub condition: Conditions,
}

/// The process-wide compiled policy: read-only after compilation.
#[derive(Debug, PartialEq, Eq)]
pub struct Table {
    /// The declared roles.
    pub roles: RoleTable,
    /// The privileges, in declaration order, with no duplicate names.
    pub privileges: Vec<Privilege>,
}

impl Table {
    /// The privilege names, in declaration order.
    pub open spec fn spec_names(self) -> Seq<Seq<u8>> {
        self.privileges@.map_values(|p: Privilege| p.name@)
    }

    /// Whether a privilege name is declared.
    pub open spec fn spec_declares(self, name: Seq<u8>) -> bool {
        exists|i: int| 0 <= i < self.privileges@.len() && #[trigger] self.spec_names()[i] == name
    }

    /// The condition guarding a declared privilege name.
    pub open spec fn spec_condition_of(self, name: Seq<u8>) -> Conditions
        recommends
            self.spec_declares(name),
    {
        self.privileges@[choose|i: int|
            0 <= i < self.privileges@.len() && #[trigger] self.spec_names()[i] == name].condition
    }

    /// Well-formed: the role table is well-formed and no privilege name
    /// is declared twice, so each name maps to exactly one condition.
    pub open spec fn wf(self) -> bool {
        &&& self.roles.wf()
        &&& forall|i: int, j: int|
            0 <= i < j < self.privileges@.len()
                ==> #[trigger] self.spec_names()[i] != #[trigger] self.spec_names()[j]
    }

    /// How many privileges are declared.
    pub fn len(&self) -> (n: usize)
        ensures
            n == self.privileges@.len(),
    {
        self.privileges.len()
    }

    /// The privilege at a declaration-order position: the catalog of
    /// privilege names for the caller to enumerate.
    pub fn get(&self, i: usize) -> (p: &Privilege)
        requires
            i < self.privileges@.len(),
        ensures
            *p == self.privileges@[i as int],
    {
        &self.privileges[i]
    }

    /// The condition compiled for a privilege name, if the name is
    /// declared.
    #[verifier::loop_isolation(false)]
    pub fn lookup(&self, name: &[u8]) -> (r: Option<&Conditions>)
        requires
            self.wf(),
        ensures
            match r {
                Some(c) => self.spec_declares(name@) && *c == self.spec_condition_of(name@),
                None => !self.spec_declares(name@),
            },
    {
        let n = self.privileges.len();
        for i in 0..n
            invariant
                n == self.privileges@.len(),
                forall|j: int| 0 <= j < i ==> #[trigger] self.spec_names()[j] != name@,
        {
            if bytes_eq(self.privileges[i].name.as_slice(), name) {
                assert(self.spec_names()[i as int] == name@);
                proof {
                    let k = choose|k: int|
                        0 <= k < self.privileges@.len() && #[trigger] self.spec_names()[k] == name@;
                    assert(k == i);
                }
                return Some(&self.privileges[i].condition);
            }
        }
        None
    }

    /// The guard every protected access calls before touching protected
    /// data: check the named privilege's condition under the given
    /// context. A satisfied condition is success; an unsatisfied one
    /// fails `Unauthorized`; an evaluation error propagates; a missing
    /// storage fact is handed back for the caller to fetch and supply.
    /// Referencing an undeclared privilege is a programming error, ruled
    /// out when the table is compiled, not a runtime case.
    pub fn require(&self, name: &[u8], cache: &Cache) -> (r: Resolution<()>)
        requires
            self.wf(),
            self.spec_declares(name@),
        ensures
            r == (match spec_check(self.spec_condition_of(name@), *cache) {
                Resolution::Value(true) => Resolution::<()>::Value(()),
                Resolution::Value(false) => Resolution::<()>::Failed(AuthError::Unauthorized),
                Resolution::Failed(e) => Resolution::<()>::Failed(e),
                Resolution::Pending(l) => Resolution::<()>::Pending(l),
            }),
    {
        let condition = match self.lookup(name) {
            Some(c) => c,
            None => {
                proof {
                    assert(false);
                }
                return Resolution::Failed(AuthError::ServerError);
            },
        };
        match condition.check(cache) {
            Resolution::Value(true) => Resolution::Value(()),
            Resolution::Value(false) => Resolution::Failed(AuthError::Unauthorized),
            Resolution::Failed(e) => Resolution::Failed(e),
            Resolution::Pending(l) => Resolution::Pending(l),
        }
    }
}

} // verus!
