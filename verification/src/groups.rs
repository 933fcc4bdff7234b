use vstd::prelude::*;
use crate::grants::{grant_key, grant_not_principal, key_le, GrantRow, Principal};
use crate::group_id::GroupId;
use crate::members::{membership_not_group, GroupMembershipRow};
use crate::seq_facts::{lemma_filter_elem_of, lemma_filter_pairwise};
use crate::store::Store;
use crate::text_order::str_eq;
use crate::AuthError;

verus! {

broadcast use vstd::seq_lib::group_filter_ensures;

/// One group record: identity, unique display name, opaque profile payload,
/// and the active flag of the soft-delete lifecycle.
#[derive(Debug)]
pub struct GroupRow {
    pub id: GroupId,
    pub display_name: String,
    pub details: Option<String>,
    pub active: bool,
}

impl Clone for GroupRow {
    fn clone(&self) -> (r: Self)
        ensures
            r == *self,
    {
        GroupRow {
            id: self.id,
            display_name: self.display_name.clone(),
            details: match &self.details {
                Some(d) => Some(d.clone()),
                None => None,
            },
            active: self.active,
        }
    }
}

impl GroupRow {
    /// A freshly provisioned group starts active.
    pub fn new(id: GroupId, details: Option<String>, display_name: &str) -> (r: Self)
        ensures
            r.id == id,
            r.display_name@ == display_name@,
            r.details == details,
            r.active == true,
    {
        GroupRow { id, display_name: String::from_str(display_name), details, active: true }
    }

    pub fn table_name() -> (r: &'static str)
        ensures
            r@ == "auth.groups"@,
    {
        "auth.groups"
    }

    pub fn columns() -> (r: &'static str)
        ensures
            r@ == "id, display_name, details"@,
    {
        "id, display_name, details"
    }

    /// Creates the group row. A duplicate identifier or display name is
    /// refused as a conflict, and the store is left as it was.
    #[verifier::loop_isolation(false)]
    pub fn insert(store: &mut Store, row: &GroupRow) -> (r: Result<(), AuthError>)
        requires
            old(store).wf(),
        ensures
            match r {
                Ok(()) => !group_conflict(*old(store), *row) && final(store).groups@ == old(store).groups@.push(*row) && final(store).wf(),
                Err(e) => e == AuthError::Conflict && group_conflict(*old(store), *row) && *final(store) == *old(store),
            },
            final(store).users@ == old(store).users@,
            final(store).memberships@ == old(store).memberships@,
            final(store).grants@ == old(store).grants@,
            final(store).log@ == old(store).log@,
    {
        let ghost pre = *store;
        let n = store.groups.len();
        let mut i: usize = 0;
        while i < n
            invariant
                i <= n,
                forall|j: int|
                    0 <= j < i ==> !((#[trigger] store.groups@[j]).id == row.id || store.groups@[j].display_name@ == row.display_name@),
            decreases n - i,
        {
            let g = &store.groups[i];
            if g.id == row.id || str_eq(g.display_name.as_str(), row.display_name.as_str()) {
                proof {
                    assert(group_conflict(pre, *row));
                }
                return Err(AuthError::Conflict);
            }
            i = i + 1;
        }
        proof {
            if group_conflict(pre, *row) {
                let j = choose|j: int|
                    0 <= j < pre.groups@.len() && ((#[trigger] pre.groups@[j]).id == row.id
                        || pre.groups@[j].display_name@ == row.display_name@);
                assert(false);
            }
        }
        store.groups.push(row.clone());
        proof {
            let m = pre.groups@.len() as int;
            assert forall|a: int, b: int|
                #![trigger store.groups@[a], store.groups@[b]]
                0 <= a < b < store.groups@.len() implies store.groups@[a].id != store.groups@[b].id
                && store.groups@[a].display_name@ != store.groups@[b].display_name@ by {
                if b < m {
                    assert(store.groups@[a] == pre.groups@[a]);
                    assert(store.groups@[b] == pre.groups@[b]);
                } else {
                    assert(store.groups@[a] == pre.groups@[a]);
                    assert(store.groups@[b] == *row);
                }
            }
            lemma_wf_after_group_change(pre, *store);
        }
        Ok(())
    }

    /// Point lookup by identifier; absence is a plain `None`, not a fault.
    pub fn get(store: &Store, group_id: GroupId) -> (r: Option<GroupRow>)
        requires
            store.wf(),
        ensures
            r == store.spec_group(group_id),
    {
        match store.find_group_index(group_id) {
            Some(i) => {
                let row = store.groups[i].clone();
                proof {
                    lemma_group_idx_agrees(*store, group_id, i as int);
                }
                Some(row)
            },
            None => None,
        }
    }

    /// Replaces the profile payload outright; an absent identifier is a
    /// successful no-op.
    pub fn set_details(store: &mut Store, group_id: GroupId, details: Option<String>)
        requires
            old(store).wf(),
        ensures
            final(store).wf(),
            final(store).users@ == old(store).users@,
            final(store).memberships@ == old(store).memberships@,
            final(store).grants@ == old(store).grants@,
            final(store).log@ == old(store).log@,
            !old(store).has_group(group_id) ==> final(store).groups@ == old(store).groups@,
            old(store).has_group(group_id) ==> group_row_updated(
                *old(store),
                *final(store),
                old(store).group_idx(group_id),
            ) && final(store).groups@[old(store).group_idx(group_id)].details == details && final(store).groups@[old(store).group_idx(group_id)].active == old(store).groups@[old(store).group_idx(group_id)].active,
    {
        let ghost pre = *store;
        match store.find_group_index(group_id) {
            None => {
            },
            Some(i) => {
                proof {
                    lemma_group_idx_agrees(pre, group_id, i as int);
                }
                let mut row = store.groups.remove(i);
                row.details = details;
                store.groups.insert(i, row);
                proof {
                    pre.groups@.remove_ensures(i as int);
                    pre.groups@.remove(i as int).insert_ensures(i as int, store.groups@[i as int]);
                    assert(group_row_updated(pre, *store, i as int));
                    assert forall|a: int, b: int|
                        #![trigger store.groups@[a], store.groups@[b]]
                        0 <= a < b < store.groups@.len() implies store.groups@[a].id
                        != store.groups@[b].id && store.groups@[a].display_name@ != store.groups@[b].display_name@ by {
                        assert(pre.groups@[a].id != pre.groups@[b].id && pre.groups@[a].display_name@ != pre.groups@[b].display_name@);
                    }
                    lemma_wf_after_group_change(pre, *store);
                }
            },
        }
    }

    /// Soft delete: clears the active flag; idempotent, and a successful
    /// no-op on an absent identifier. Membership rows are left in place.
    pub fn deactivate(store: &mut Store, group_id: GroupId)
        requires
            old(store).wf(),
        ensures
            final(store).wf(),
            final(store).users@ == old(store).users@,
            final(store).memberships@ == old(store).memberships@,
            final(store).grants@ == old(store).grants@,
            final(store).log@ == old(store).log@,
            !old(store).has_group(group_id) ==> final(store).groups@ == old(store).groups@,
            old(store).has_group(group_id) ==> group_row_updated(
                *old(store),
                *final(store),
                old(store).group_idx(group_id),
            ) && final(store).groups@[old(store).group_idx(group_id)].active == false && final(store).groups@[old(store).group_idx(group_id)].details == old(store).groups@[old(store).group_idx(group_id)].details,
    {
        let ghost pre = *store;
        match store.find_group_index(group_id) {
            None => {
            },
            Some(i) => {
                proof {
                    lemma_group_idx_agrees(pre, group_id, i as int);
                }
                let mut row = store.groups.remove(i);
                row.active = false;
                store.groups.insert(i, row);
                proof {
                    pre.groups@.remove_ensures(i as int);
                    pre.groups@.remove(i as int).insert_ensures(i as int, store.groups@[i as int]);
                    assert(group_row_updated(pre, *store, i as int));
                    assert forall|a: int, b: int|
                        #![trigger store.groups@[a], store.groups@[b]]
                        0 <= a < b < store.groups@.len() implies store.groups@[a].id
                        != store.groups@[b].id && store.groups@[a].display_name@ != store.groups@[b].display_name@ by {
                        assert(pre.groups@[a].id != pre.groups@[b].id && pre.groups@[a].display_name@ != pre.groups@[b].display_name@);
                    }
                    lemma_wf_after_group_change(pre, *store);
                }
            },
        }
    }

    /// Hard delete: removes the group row and cascades, removing every
    /// membership of the group and every grant the group owns; idempotent.
    #[verifier::loop_isolation(false)]
    pub fn delete(store: &mut Store, group_id: GroupId)
        requires
            old(store).wf(),
        ensures
            delete_group_post(*old(store), *final(store), group_id),
    {
        let ghost pre = *store;
        let target = Principal::Group(group_id);
        let n_groups = store.groups.len();
        let mut kept_groups: Vec<GroupRow> = Vec::new();
        let mut i: usize = 0;
        while i < n_groups
            invariant
                i <= n_groups,
                kept_groups@ == pre.groups@.take(i as int).filter(group_not(group_id)),
            decreases n_groups - i,
        {
            let g = &store.groups[i];
            proof {
                assert(group_not(group_id)(pre.groups@[i as int]) == (pre.groups@[i as int].id
                    != group_id));
                pre.groups@.lemma_take_succ_push(i as int);
                pre.groups@.take(i as int).lemma_filter_push(
                    pre.groups@[i as int],
                    group_not(group_id),
                );
            }
            if g.id != group_id {
                kept_groups.push(g.clone());
            }
            i = i + 1;
        }
        let n_members = store.memberships.len();
        let mut kept_members: Vec<GroupMembershipRow> = Vec::new();
        let mut j: usize = 0;
        while j < n_members
            invariant
                j <= n_members,
                kept_members@ == pre.memberships@.take(j as int).filter(
                    membership_not_group(group_id),
                ),
            decreases n_members - j,
        {
            let m = &store.memberships[j];
            proof {
                assert(membership_not_group(group_id)(pre.memberships@[j as int]) == (
                pre.memberships@[j as int].group_id != group_id));
                pre.memberships@.lemma_take_succ_push(j as int);
                pre.memberships@.take(j as int).lemma_filter_push(
                    pre.memberships@[j as int],
                    membership_not_group(group_id),
                );
            }
            if m.group_id != group_id {
                kept_members.push(m.clone());
            }
            j = j + 1;
        }
        let n_grants = store.grants.len();
        let mut kept_grants: Vec<GrantRow> = Vec::new();
        let mut g2: usize = 0;
        while g2 < n_grants
            invariant
                g2 <= n_grants,
                kept_grants@ == pre.grants@.take(g2 as int).filter(grant_not_principal(target)),
                target == Principal::Group(group_id),
            decreases n_grants - g2,
        {
            let row = &store.grants[g2];
            proof {
                assert(grant_not_principal(target)(pre.grants@[g2 as int]) == (pre.grants@[
                g2 as int].principal != target));
                pre.grants@.lemma_take_succ_push(g2 as int);
                pre.grants@.take(g2 as int).lemma_filter_push(
                    pre.grants@[g2 as int],
                    grant_not_principal(target),
                );
            }
            if !(row.principal == target) {
                kept_grants.push(row.clone());
            }
            g2 = g2 + 1;
        }
        proof {
            assert(pre.groups@.take(n_groups as int) =~= pre.groups@);
            assert(pre.memberships@.take(n_members as int) =~= pre.memberships@);
            assert(pre.grants@.take(n_grants as int) =~= pre.grants@);
        }
        store.groups = kept_groups;
        store.memberships = kept_members;
        store.grants = kept_grants;
        proof {
            lemma_wf_after_delete_group(pre, *store, group_id);
        }
    }
}

/// Keeps every group row whose identifier differs from `g`.
pub open spec fn group_not(g: GroupId) -> spec_fn(GroupRow) -> bool {
    |r: GroupRow| r.id != g
}

/// A create of `row` collides with an existing row: same identifier or same
/// display name.
pub open spec fn group_conflict(s: Store, row: GroupRow) -> bool {
    exists|i: int|
        0 <= i < s.groups@.len() && ((#[trigger] s.groups@[i]).id == row.id || s.groups@[i].display_name@ == row.display_name@)
}

/// The group relation changed in exactly one row, which kept its identifier
/// and display name.
pub open spec fn group_row_updated(pre: Store, post: Store, i: int) -> bool {
    &&& 0 <= i < pre.groups@.len()
    &&& post.groups@.len() == pre.groups@.len()
    &&& (forall|j: int|
        0 <= j < pre.groups@.len() && j != i ==> post.groups@[j] == #[trigger] pre.groups@[j])
    &&& post.groups@[i].id == pre.groups@[i].id
    &&& post.groups@[i].display_name == pre.groups@[i].display_name
}

/// What hard-deleting group `g` does to the store: the group row goes, the
/// memberships of the group and the grants the group owns go with it; users
/// and the audit log are untouched.
pub open spec fn delete_group_post(pre: Store, post: Store, g: GroupId) -> bool {
    &&& post.wf()
    &&& post.groups@ == pre.groups@.filter(group_not(g))
    &&& post.users@ == pre.users@
    &&& post.memberships@ == pre.memberships@.filter(membership_not_group(g))
    &&& post.grants@ == pre.grants@.filter(grant_not_principal(Principal::Group(g)))
    &&& post.log@ == pre.log@
}

/// Under `groups_wf`, the scan index of a group is the index the
/// specification picks.
pub proof fn lemma_group_idx_agrees(s: Store, id: GroupId, i: int)
    requires
        s.wf(),
        0 <= i < s.groups@.len(),
        s.groups@[i].id == id,
    ensures
        s.has_group(id),
        s.group_idx(id) == i,
        s.spec_group(id) == Some(s.groups@[i]),
{
    assert(s.has_group(id));
    let k = s.group_idx(id);
    assert(0 <= k < s.groups@.len() && s.groups@[k].id == id);
    if k != i {
        let a = s.groups@[if k < i {
            k
        } else {
            i
        }];
        let b = s.groups@[if k < i {
            i
        } else {
            k
        }];
        assert(a.id != b.id);
        assert(false);
    }
}

/// When the group relation keeps the same identifiers at the same positions
/// (grown by fresh rows or updated in non-key fields) and every other
/// relation is untouched, the rest of well-formedness transfers.
proof fn lemma_wf_after_group_change(pre: Store, post: Store)
    requires
        pre.wf(),
        post.groups_wf(),
        post.groups@.len() >= pre.groups@.len(),
        forall|j: int|
            0 <= j < pre.groups@.len() ==> (#[trigger] post.groups@[j]).id == pre.groups@[j].id,
        post.users@ == pre.users@,
        post.memberships@ == pre.memberships@,
        post.grants@ == pre.grants@,
        post.log@ == pre.log@,
    ensures
        post.wf(),
{
    assert forall|a: int, b: int|
        #![trigger post.users@[a], post.users@[b]]
        0 <= a < b < post.users@.len() implies post.users@[a].id != post.users@[b].id
        && post.users@[a].email@ != post.users@[b].email@ && ((post.users@[a].username is Some
        && post.users@[b].username is Some) ==> post.users@[a].username.unwrap()@ != post.users@[b].username.unwrap()@) by {
        assert(pre.users@[a] == post.users@[a]);
        assert(pre.users@[b] == post.users@[b]);
    }
    assert(post.users_wf());
    assert forall|a: int| 0 <= a < post.memberships@.len() implies post.has_group(
        (#[trigger] post.memberships@[a]).group_id,
    ) && post.has_user(post.memberships@[a].user_id) by {
        assert(pre.memberships@[a] == post.memberships@[a]);
        assert(pre.has_group(pre.memberships@[a].group_id));
        assert(pre.has_user(pre.memberships@[a].user_id));
        let gj = choose|gj: int|
            0 <= gj < pre.groups@.len() && (#[trigger] pre.groups@[gj]).id == pre.memberships@[a].group_id;
        assert(post.groups@[gj].id == post.memberships@[a].group_id);
        let uj = choose|uj: int|
            0 <= uj < pre.users@.len() && (#[trigger] pre.users@[uj]).id == pre.memberships@[a].user_id;
        assert(post.users@[uj].id == post.memberships@[a].user_id);
    }
    assert forall|a: int, b: int|
        #![trigger post.memberships@[a], post.memberships@[b]]
        0 <= a < b < post.memberships@.len() implies !(post.memberships@[a].group_id
        == post.memberships@[b].group_id && post.memberships@[a].user_id == post.memberships@[b].user_id) by {
        assert(pre.memberships@[a] == post.memberships@[a]);
        assert(pre.memberships@[b] == post.memberships@[b]);
    }
    assert(post.memberships_wf());
    assert(post.grant_keys() == pre.grant_keys());
    assert forall|a: int, b: int|
        #![trigger post.grant_keys()[a], post.grant_keys()[b]]
        0 <= a < b < post.grant_keys().len() implies key_le(
        post.grant_keys()[a],
        post.grant_keys()[b],
    ) && !key_le(post.grant_keys()[b], post.grant_keys()[a]) by {
        assert(pre.grant_keys()[a] == post.grant_keys()[a]);
        assert(pre.grant_keys()[b] == post.grant_keys()[b]);
    }
    assert forall|a: int| 0 <= a < post.grants@.len() implies post.principal_exists(
        (#[trigger] post.grants@[a]).principal,
    ) by {
        assert(pre.grants@[a] == post.grants@[a]);
        assert(pre.principal_exists(pre.grants@[a].principal));
        match pre.grants@[a].principal {
            Principal::User(u) => {
                let uj = choose|uj: int|
                    0 <= uj < pre.users@.len() && (#[trigger] pre.users@[uj]).id == u;
                assert(post.users@[uj].id == u);
            },
            Principal::Group(gr) => {
                let gj = choose|gj: int|
                    0 <= gj < pre.groups@.len() && (#[trigger] pre.groups@[gj]).id == gr;
                assert(post.groups@[gj].id == gr);
            },
        }
    }
    assert(post.grants_wf());
    assert forall|a: int, b: int|
        #![trigger post.log@[a], post.log@[b]]
        0 <= a < b < post.log@.len() implies post.log@[a].timestamp >= post.log@[b].timestamp by {
        assert(pre.log@[a] == post.log@[a]);
        assert(pre.log@[b] == post.log@[b]);
    }
    assert(post.log_wf());
}

/// The three cascading selections of a group hard-delete leave the store
/// well-formed.
proof fn lemma_wf_after_delete_group(pre: Store, post: Store, g: GroupId)
    requires
        pre.wf(),
        post.groups@ == pre.groups@.filter(group_not(g)),
        post.users@ == pre.users@,
        post.memberships@ == pre.memberships@.filter(membership_not_group(g)),
        post.grants@ == pre.grants@.filter(grant_not_principal(Principal::Group(g))),
        post.log@ == pre.log@,
    ensures
        post.wf(),
{
    let rel_gr = (|a: GroupRow, b: GroupRow|
        a.id != b.id && a.display_name@ != b.display_name@);
    assert forall|a: int, b: int| 0 <= a < b < pre.groups@.len() implies #[trigger] rel_gr(
        pre.groups@[a],
        pre.groups@[b],
    ) by {
        let x = pre.groups@[a];
        let y = pre.groups@[b];
    }
    lemma_filter_pairwise(pre.groups@, group_not(g), rel_gr);
    assert forall|a: int, b: int|
        #![trigger post.groups@[a], post.groups@[b]]
        0 <= a < b < post.groups@.len() implies post.groups@[a].id != post.groups@[b].id
        && post.groups@[a].display_name@ != post.groups@[b].display_name@ by {
        assert(rel_gr(post.groups@[a], post.groups@[b]));
    }
    assert(post.groups_wf());
    assert forall|a: int, b: int|
        #![trigger post.users@[a], post.users@[b]]
        0 <= a < b < post.users@.len() implies post.users@[a].id != post.users@[b].id
        && post.users@[a].email@ != post.users@[b].email@ && ((post.users@[a].username is Some
        && post.users@[b].username is Some) ==> post.users@[a].username.unwrap()@ != post.users@[b].username.unwrap()@) by {
        assert(pre.users@[a] == post.users@[a]);
        assert(pre.users@[b] == post.users@[b]);
    }
    assert(post.users_wf());
    let rel_m = (|a: GroupMembershipRow, b: GroupMembershipRow|
        !(a.group_id == b.group_id && a.user_id == b.user_id));
    assert forall|a: int, b: int| 0 <= a < b < pre.memberships@.len() implies #[trigger] rel_m(
        pre.memberships@[a],
        pre.memberships@[b],
    ) by {
        let x = pre.memberships@[a];
        let y = pre.memberships@[b];
    }
    lemma_filter_pairwise(pre.memberships@, membership_not_group(g), rel_m);
    assert forall|a: int, b: int|
        #![trigger post.memberships@[a], post.memberships@[b]]
        0 <= a < b < post.memberships@.len() implies !(post.memberships@[a].group_id
        == post.memberships@[b].group_id && post.memberships@[a].user_id == post.memberships@[b].user_id) by {
        assert(rel_m(post.memberships@[a], post.memberships@[b]));
    }
    assert forall|a: int| 0 <= a < post.memberships@.len() implies post.has_group(
        (#[trigger] post.memberships@[a]).group_id,
    ) && post.has_user(post.memberships@[a].user_id) by {
        lemma_filter_elem_of(pre.memberships@, membership_not_group(g), a);
        let o = choose|o: int|
            0 <= o < pre.memberships@.len() && #[trigger] pre.memberships@[o]
                == post.memberships@[a];
        let m = pre.memberships@[o];
        assert(membership_not_group(g)(post.memberships@[a]));
        assert(m.group_id != g);
        assert(pre.has_group(m.group_id));
        assert(pre.has_user(m.user_id));
        let gj = choose|gj: int|
            0 <= gj < pre.groups@.len() && (#[trigger] pre.groups@[gj]).id == m.group_id;
        assert(group_not(g)(pre.groups@[gj]));
        assert(pre.groups@.filter(group_not(g)).contains(pre.groups@[gj]));
        let gk = choose|gk: int|
            0 <= gk < post.groups@.len() && post.groups@[gk] == pre.groups@[gj];
        assert(post.groups@[gk].id == m.group_id);
        let uj = choose|uj: int|
            0 <= uj < pre.users@.len() && (#[trigger] pre.users@[uj]).id == m.user_id;
        assert(post.users@[uj].id == m.user_id);
    }
    assert(post.memberships_wf());
    let rel_g = (|a: GrantRow, b: GrantRow|
        key_le(grant_key(a), grant_key(b)) && !key_le(grant_key(b), grant_key(a)));
    assert forall|a: int, b: int| 0 <= a < b < pre.grants@.len() implies #[trigger] rel_g(
        pre.grants@[a],
        pre.grants@[b],
    ) by {
        assert(pre.grant_keys()[a] == grant_key(pre.grants@[a]));
        assert(pre.grant_keys()[b] == grant_key(pre.grants@[b]));
        assert(key_le(pre.grant_keys()[a], pre.grant_keys()[b]) && !key_le(
            pre.grant_keys()[b],
            pre.grant_keys()[a],
        ));
    }
    lemma_filter_pairwise(pre.grants@, grant_not_principal(Principal::Group(g)), rel_g);
    assert forall|a: int, b: int|
        #![trigger post.grant_keys()[a], post.grant_keys()[b]]
        0 <= a < b < post.grant_keys().len() implies key_le(
        post.grant_keys()[a],
        post.grant_keys()[b],
    ) && !key_le(post.grant_keys()[b], post.grant_keys()[a]) by {
        assert(rel_g(post.grants@[a], post.grants@[b]));
        assert(post.grant_keys()[a] == grant_key(post.grants@[a]));
        assert(post.grant_keys()[b] == grant_key(post.grants@[b]));
    }
    assert forall|a: int| 0 <= a < post.grants@.len() implies post.principal_exists(
        (#[trigger] post.grants@[a]).principal,
    ) by {
        lemma_filter_elem_of(pre.grants@, grant_not_principal(Principal::Group(g)), a);
        let o = choose|o: int|
            0 <= o < pre.grants@.len() && #[trigger] pre.grants@[o] == post.grants@[a];
        let row = pre.grants@[o];
        assert(grant_not_principal(Principal::Group(g))(post.grants@[a]));
        assert(row.principal != Principal::Group(g));
        assert(pre.principal_exists(row.principal));
        match row.principal {
            Principal::User(v) => {
                let uj = choose|uj: int|
                    0 <= uj < pre.users@.len() && (#[trigger] pre.users@[uj]).id == v;
                assert(post.users@[uj].id == v);
            },
            Principal::Group(gr) => {
                let gj = choose|gj: int|
                    0 <= gj < pre.groups@.len() && (#[trigger] pre.groups@[gj]).id == gr;
                assert(group_not(g)(pre.groups@[gj]));
                assert(pre.groups@.filter(group_not(g)).contains(pre.groups@[gj]));
                let gk = choose|gk: int|
                    0 <= gk < post.groups@.len() && post.groups@[gk] == pre.groups@[gj];
                assert(post.groups@[gk].id == gr);
            },
        }
    }
    assert(post.grants_wf());
    assert forall|a: int, b: int|
        #![trigger post.log@[a], post.log@[b]]
        0 <= a < b < post.log@.len() implies post.log@[a].timestamp >= post.log@[b].timestamp by {
        assert(pre.log@[a] == post.log@[a]);
        assert(pre.log@[b] == post.log@[b]);
    }
    assert(post.log_wf());
}

} // verus!
