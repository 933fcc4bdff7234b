use vstd::prelude::*;
use crate::grants::{grant_key, key_le, GrantKey, GrantRow, Principal};
use crate::groups::GroupRow;
use crate::log::LogRow;
use crate::members::GroupMembershipRow;
use crate::seq_facts::occurrences;
use crate::user_id::UserId;
use crate::group_id::GroupId;
use crate::users::UserRow;

verus! {

/// The single transactional relational store: five relations, with the
/// uniqueness and referential invariants of `wf` holding between every
/// operation. The grant relation is kept in canonical key order, and the
/// audit log in descending timestamp order, so that every listing is a plain
/// order-preserving selection.
#[derive(Debug)]
pub struct Store {
    pub users: Vec<UserRow>,
    pub groups: Vec<GroupRow>,
    pub memberships: Vec<GroupMembershipRow>,
    pub grants: Vec<GrantRow>,
    pub log: Vec<LogRow>,
}

impl Store {
    /// Some user row carries this identifier.
    pub open spec fn has_user(self, id: UserId) -> bool {
        exists|i: int| 0 <= i < self.users@.len() && (#[trigger] self.users@[i]).id == id
    }

    /// The position of the user row carrying `id` (meaningful under `wf`
    /// when `has_user(id)` holds).
    pub open spec fn user_idx(self, id: UserId) -> int {
        choose|i: int| 0 <= i < self.users@.len() && (#[trigger] self.users@[i]).id == id
    }

    /// The user row carrying `id`, if any.
    pub open spec fn spec_user(self, id: UserId) -> Option<UserRow> {
        if self.has_user(id) {
            Some(self.users@[self.user_idx(id)])
        } else {
            None
        }
    }

    pub open spec fn has_group(self, id: GroupId) -> bool {
        exists|i: int| 0 <= i < self.groups@.len() && (#[trigger] self.groups@[i]).id == id
    }

    pub open spec fn group_idx(self, id: GroupId) -> int {
        choose|i: int| 0 <= i < self.groups@.len() && (#[trigger] self.groups@[i]).id == id
    }

    pub open spec fn spec_group(self, id: GroupId) -> Option<GroupRow> {
        if self.has_group(id) {
            Some(self.groups@[self.group_idx(id)])
        } else {
            None
        }
    }

    /// The principal of a grant names an existing user or group row.
    pub open spec fn principal_exists(self, p: Principal) -> bool {
        match p {
            Principal::User(u) => self.has_user(u),
            Principal::Group(g) => self.has_group(g),
        }
    }

    /// Some membership row links `g` and `u`.
    pub open spec fn spec_is_member(self, g: GroupId, u: UserId) -> bool {
        exists|i: int|
            0 <= i < self.memberships@.len() && (#[trigger] self.memberships@[i]).group_id == g
                && self.memberships@[i].user_id == u
    }

    /// The keys of the grant relation, in table order.
    pub open spec fn grant_keys(self) -> Seq<GrantKey> {
        self.grants@.map_values(|g: GrantRow| grant_key(g))
    }

    /// Exactly this grant tuple is present.
    pub open spec fn spec_has_grant(self, k: GrantKey) -> bool {
        self.grant_keys().contains(k)
    }

    /// How many rows of the grant relation carry this key.
    pub open spec fn grant_count(self, k: GrantKey) -> int {
        occurrences(self.grant_keys(), k)
    }

    pub open spec fn users_wf(self) -> bool {
        forall|i: int, j: int|
            #![trigger self.users@[i], self.users@[j]]
            0 <= i < j < self.users@.len() ==> self.users@[i].id != self.users@[j].id
                && self.users@[i].email@ != self.users@[j].email@ && ((self.users@[i].username
                is Some && self.users@[j].username is Some)
                ==> self.users@[i].username.unwrap()@ != self.users@[j].username.unwrap()@)
    }

    pub open spec fn groups_wf(self) -> bool {
        forall|i: int, j: int|
            #![trigger self.groups@[i], self.groups@[j]]
            0 <= i < j < self.groups@.len() ==> self.groups@[i].id != self.groups@[j].id
                && self.groups@[i].display_name@ != self.groups@[j].display_name@
    }

    pub open spec fn memberships_wf(self) -> bool {
        &&& forall|i: int, j: int|
            #![trigger self.memberships@[i], self.memberships@[j]]
            0 <= i < j < self.memberships@.len() ==> !(self.memberships@[i].group_id
                == self.memberships@[j].group_id && self.memberships@[i].user_id
                == self.memberships@[j].user_id)
        &&& forall|i: int|
            0 <= i < self.memberships@.len() ==> self.has_group(
                (#[trigger] self.memberships@[i]).group_id,
            ) && self.has_user(self.memberships@[i].user_id)
    }

    pub open spec fn grants_wf(self) -> bool {
        &&& forall|i: int, j: int|
            #![trigger self.grant_keys()[i], self.grant_keys()[j]]
            0 <= i < j < self.grant_keys().len() ==> key_le(
                self.grant_keys()[i],
                self.grant_keys()[j],
            ) && !key_le(self.grant_keys()[j], self.grant_keys()[i])
        &&& forall|i: int|
            0 <= i < self.grants@.len() ==> self.principal_exists(
                (#[trigger] self.grants@[i]).principal,
            )
    }

    pub open spec fn log_wf(self) -> bool {
        forall|i: int, j: int|
            #![trigger self.log@[i], self.log@[j]]
            0 <= i < j < self.log@.len() ==> self.log@[i].timestamp >= self.log@[j].timestamp
    }

    /// Well-formedness of the whole store: every uniqueness constraint of the
    /// persisted layout, referential integrity from memberships and grants to
    /// their owning rows, and the canonical internal orders.
    pub open spec fn wf(self) -> bool {
        &&& self.users_wf()
        &&& self.groups_wf()
        &&& self.memberships_wf()
        &&& self.grants_wf()
        &&& self.log_wf()
    }

    /// Finds the position of the user row carrying `id`, if any.
    pub fn find_user_index(&self, id: UserId) -> (r: Option<usize>)
        ensures
            match r {
                Some(i) => i < self.users@.len() && self.users@[i as int].id == id
                    && self.has_user(id),
                None => !self.has_user(id),
            },
    {
        let n = self.users.len();
        let mut i: usize = 0;
        while i < n
            invariant
                i <= n,
                n == self.users@.len(),
                forall|j: int| 0 <= j < i ==> (#[trigger] self.users@[j]).id != id,
            decreases n - i,
        {
            if self.users[i].id == id {
                return Some(i);
            }
            i = i + 1;
        }
        proof {
            if self.has_user(id) {
                let j = choose|j: int|
                    0 <= j < self.users@.len() && (#[trigger] self.users@[j]).id == id;
                assert(false);
            }
        }
        None
    }

    /// Finds the position of the group row carrying `id`, if any.
    pub fn find_group_index(&self, id: GroupId) -> (r: Option<usize>)
        ensures
            match r {
                Some(i) => i < self.groups@.len() && self.groups@[i as int].id == id
                    && self.has_group(id),
                None => !self.has_group(id),
            },
    {
        let n = self.groups.len();
        let mut i: usize = 0;
        while i < n
            invariant
                i <= n,
                n == self.groups@.len(),
                forall|j: int| 0 <= j < i ==> (#[trigger] self.groups@[j]).id != id,
            decreases n - i,
        {
            if self.groups[i].id == id {
                return Some(i);
            }
            i = i + 1;
        }
        proof {
            if self.has_group(id) {
                let j = choose|j: int|
                    0 <= j < self.groups@.len() && (#[trigger] self.groups@[j]).id == id;
                assert(false);
            }
        }
        None
    }

    /// Finds the position of the membership row linking `g` and `u`, if any.
    pub fn find_member_index(&self, g: GroupId, u: UserId) -> (r: Option<usize>)
        ensures
            match r {
                Some(i) => i < self.memberships@.len() && self.memberships@[i as int].group_id == g
                    && self.memberships@[i as int].user_id == u && self.spec_is_member(g, u),
                None => !self.spec_is_member(g, u),
            },
    {
        let n = self.memberships.len();
        let mut i: usize = 0;
        while i < n
            invariant
                i <= n,
                n == self.memberships@.len(),
                forall|j: int|
                    0 <= j < i ==> !((#[trigger] self.memberships@[j]).group_id == g
                        && self.memberships@[j].user_id == u),
            decreases n - i,
        {
            if self.memberships[i].group_id == g && self.memberships[i].user_id == u {
                return Some(i);
            }
            i = i + 1;
        }
        proof {
            if self.spec_is_member(g, u) {
                let j = choose|j: int|
                    0 <= j < self.memberships@.len() && (#[trigger] self.memberships@[j]).group_id
                        == g && self.memberships@[j].user_id == u;
                assert(false);
            }
        }
        None
    }

    /// Whether the principal of a grant names an existing row.
    pub fn principal_present(&self, p: Principal) -> (r: bool)
        ensures
            r == self.principal_exists(p),
    {
        match p {
            Principal::User(u) => self.find_user_index(u).is_some(),
            Principal::Group(g) => self.find_group_index(g).is_some(),
        }
    }

    /// The explicit initialization step: an empty store, with every relation
    /// in place and the invariants holding.
    pub fn new() -> (s: Store)
        ensures
            s.wf(),
            s.users@.len() == 0,
            s.groups@.len() == 0,
            s.memberships@.len() == 0,
            s.grants@.len() == 0,
            s.log@.len() == 0,
    {
        Store {
            users: Vec::new(),
            groups: Vec::new(),
            memberships: Vec::new(),
            grants: Vec::new(),
            log: Vec::new(),
        }
    }
}

/// A principal present in one store is present in any store whose user and
/// group relations hold the same rows.
pub proof fn lemma_principal_exists_same_rows(a: Store, b: Store, p: Principal)
    requires
        a.users@ == b.users@,
        a.groups@ == b.groups@,
        a.principal_exists(p),
    ensures
        b.principal_exists(p),
{
    match p {
        Principal::User(u) => {
            let j = choose|j: int| 0 <= j < a.users@.len() && (#[trigger] a.users@[j]).id == u;
            assert(b.users@[j].id == u);
        },
        Principal::Group(g) => {
            let j = choose|j: int| 0 <= j < a.groups@.len() && (#[trigger] a.groups@[j]).id == g;
            assert(b.groups@[j].id == g);
        },
    }
}

} // verus!
