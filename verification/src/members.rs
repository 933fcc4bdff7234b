use vstd::prelude::*;
use crate::group_id::GroupId;
use crate::groups::GroupRow;
use crate::seq_facts::{lemma_filter_elem_of, lemma_filter_pairwise, page_window};
use crate::store::Store;
use crate::text_order::str_eq;
use crate::user_id::UserId;
use crate::AuthError;

verus! {

broadcast use vstd::seq_lib::group_filter_ensures;

/// One membership link: `user_id` belongs to `group_id` and carries exactly
/// one role label scoped to that group. The pair is unique in the store.
#[derive(Debug)]
pub struct GroupMembershipRow {
    pub group_id: GroupId,
    pub user_id: UserId,
    pub role_name: String,
}

impl Clone for GroupMembershipRow {
    fn clone(&self) -> (r: Self)
        ensures
            r == *self,
    {
        GroupMembershipRow {
            group_id: self.group_id,
            user_id: self.user_id,
            role_name: self.role_name.clone(),
        }
    }
}

/// Keeps every membership row whose user differs from `u`.
pub open spec fn membership_not_user(u: UserId) -> spec_fn(GroupMembershipRow) -> bool {
    |m: GroupMembershipRow| m.user_id != u
}

/// Keeps every membership row whose group differs from `g`.
pub open spec fn membership_not_group(g: GroupId) -> spec_fn(GroupMembershipRow) -> bool {
    |m: GroupMembershipRow| m.group_id != g
}

/// Keeps every membership row but the one linking `g` and `u`.
pub open spec fn membership_not_pair(g: GroupId, u: UserId) -> spec_fn(GroupMembershipRow) -> bool {
    |m: GroupMembershipRow| !(m.group_id == g && m.user_id == u)
}

/// Keeps every membership row of group `g`.
pub open spec fn membership_of_group(g: GroupId) -> spec_fn(GroupMembershipRow) -> bool {
    |m: GroupMembershipRow| m.group_id == g
}

impl GroupMembershipRow {
    pub fn new(group_id: GroupId, user_id: UserId, role_name: &str) -> (r: Self)
        ensures
            r.group_id == group_id,
            r.user_id == user_id,
            r.role_name@ == role_name@,
    {
        GroupMembershipRow { group_id, user_id, role_name: String::from_str(role_name) }
    }

    pub fn table_name() -> (r: &'static str)
        ensures
            r@ == "auth.group_memberships"@,
    {
        "auth.group_memberships"
    }

    pub fn columns() -> (r: &'static str)
        ensures
            r@ == "group_id, user_id, role_name"@,
    {
        "group_id, user_id, role_name"
    }

    /// Links a user into a group with one role label. A pair that is already
    /// linked is a conflict; a group or user that does not exist is refused.
    pub fn add_member(store: &mut Store, row: &GroupMembershipRow) -> (r: Result<(), AuthError>)
        requires
            old(store).wf(),
        ensures
            match r {
                Ok(()) => !old(store).spec_is_member(row.group_id, row.user_id) && old(store).has_group(row.group_id) && old(store).has_user(row.user_id) && final(store).memberships@ == old(store).memberships@.push(*row) && final(store).wf(),
                Err(e) => *final(store) == *old(store) && ((e == AuthError::Conflict && old(store).spec_is_member(row.group_id, row.user_id)) || (e == AuthError::NotFound && !old(store).spec_is_member(row.group_id, row.user_id) && !(old(store).has_group(row.group_id)
                    && old(store).has_user(row.user_id)))),
            },
            final(store).users@ == old(store).users@,
            final(store).groups@ == old(store).groups@,
            final(store).grants@ == old(store).grants@,
            final(store).log@ == old(store).log@,
    {
        let ghost pre = *store;
        if store.find_member_index(row.group_id, row.user_id).is_some() {
            return Err(AuthError::Conflict);
        }
        if store.find_group_index(row.group_id).is_none() || store.find_user_index(
            row.user_id,
        ).is_none() {
            return Err(AuthError::NotFound);
        }
        store.memberships.push(row.clone());
        proof {
            let m = pre.memberships@.len() as int;
            assert forall|a: int, b: int| 0 <= a < b < store.memberships@.len() implies !((
            #[trigger] store.memberships@[a]).group_id == (#[trigger] store.memberships@[
            b]).group_id && store.memberships@[a].user_id == store.memberships@[b].user_id) by {
                if b < m {
                    assert(store.memberships@[a] == pre.memberships@[a]);
                    assert(store.memberships@[b] == pre.memberships@[b]);
                } else {
                    assert(store.memberships@[a] == pre.memberships@[a]);
                    assert(store.memberships@[b] == *row);
                    if pre.memberships@[a].group_id == row.group_id && pre.memberships@[a].user_id
                        == row.user_id {
                        assert(pre.spec_is_member(row.group_id, row.user_id));
                    }
                }
            }
            assert forall|a: int| 0 <= a < store.memberships@.len() implies pre.has_group(
                (#[trigger] store.memberships@[a]).group_id,
            ) && pre.has_user(store.memberships@[a].user_id) by {
                if a < m {
                    assert(store.memberships@[a] == pre.memberships@[a]);
                }
            }
            lemma_wf_after_memberships_change(pre, *store);
        }
        Ok(())
    }

    /// Unlinks a user from a group; an absent link is a successful no-op.
    #[verifier::loop_isolation(false)]
    pub fn remove_member(store: &mut Store, group_id: GroupId, user_id: UserId)
        requires
            old(store).wf(),
        ensures
            final(store).wf(),
            final(store).memberships@ == old(store).memberships@.filter(
                membership_not_pair(group_id, user_id),
            ),
            !final(store).spec_is_member(group_id, user_id),
            forall|g2: GroupId, u2: UserId| #[trigger]
                final(store).spec_is_member(g2, u2) <==> old(store).spec_is_member(g2, u2) && !(g2
                    == group_id && u2 == user_id),
            !old(store).spec_is_member(group_id, user_id) ==> final(store).memberships@ == old(store).memberships@,
            final(store).users@ == old(store).users@,
            final(store).groups@ == old(store).groups@,
            final(store).grants@ == old(store).grants@,
            final(store).log@ == old(store).log@,
    {
        let ghost pre = *store;
        let ghost pred = membership_not_pair(group_id, user_id);
        let n = store.memberships.len();
        let mut kept: Vec<GroupMembershipRow> = Vec::new();
        let mut i: usize = 0;
        while i < n
            invariant
                i <= n,
                kept@ == pre.memberships@.take(i as int).filter(pred),
            decreases n - i,
        {
            let m = &store.memberships[i];
            proof {
                assert(pred(pre.memberships@[i as int]) == !(pre.memberships@[i as int].group_id
                    == group_id && pre.memberships@[i as int].user_id == user_id));
                pre.memberships@.lemma_take_succ_push(i as int);
                pre.memberships@.take(i as int).lemma_filter_push(pre.memberships@[i as int], pred);
            }
            if !(m.group_id == group_id && m.user_id == user_id) {
                kept.push(m.clone());
            }
            i = i + 1;
        }
        proof {
            assert(pre.memberships@.take(n as int) =~= pre.memberships@);
        }
        store.memberships = kept;
        proof {
            let f = store.memberships@;
            let rel_m = (|a: GroupMembershipRow, b: GroupMembershipRow|
                !(a.group_id == b.group_id && a.user_id == b.user_id));
            assert forall|a: int, b: int|
                0 <= a < b < pre.memberships@.len() implies #[trigger] rel_m(
                pre.memberships@[a],
                pre.memberships@[b],
            ) by {
                let x = pre.memberships@[a];
                let y = pre.memberships@[b];
            }
            lemma_filter_pairwise(pre.memberships@, pred, rel_m);
            assert forall|a: int, b: int| 0 <= a < b < f.len() implies !((#[trigger] f[a]).group_id
                == (#[trigger] f[b]).group_id && f[a].user_id == f[b].user_id) by {
                assert(rel_m(f[a], f[b]));
            }
            assert forall|a: int| 0 <= a < f.len() implies pre.has_group(
                (#[trigger] f[a]).group_id,
            ) && pre.has_user(f[a].user_id) by {
                lemma_filter_elem_of(pre.memberships@, pred, a);
                let o = choose|o: int|
                    0 <= o < pre.memberships@.len() && #[trigger] pre.memberships@[o] == f[a];
            }
            lemma_wf_after_memberships_change(pre, *store);
            // the pair is gone
            assert(!store.spec_is_member(group_id, user_id)) by {
                if store.spec_is_member(group_id, user_id) {
                    let j = choose|j: int|
                        0 <= j < f.len() && (#[trigger] f[j]).group_id == group_id && f[j].user_id
                            == user_id;
                    assert(pred(f[j]));
                }
            }
            // every other pair is untouched
            assert forall|g2: GroupId, u2: UserId| #[trigger]
                store.spec_is_member(g2, u2) <==> pre.spec_is_member(g2, u2) && !(g2 == group_id
                    && u2 == user_id) by {
                if store.spec_is_member(g2, u2) {
                    let j = choose|j: int|
                        0 <= j < f.len() && (#[trigger] f[j]).group_id == g2 && f[j].user_id == u2;
                    lemma_filter_elem_of(pre.memberships@, pred, j);
                    let o = choose|o: int|
                        0 <= o < pre.memberships@.len() && #[trigger] pre.memberships@[o] == f[j];
                    assert(pre.spec_is_member(g2, u2));
                    assert(pred(f[j]));
                }
                if pre.spec_is_member(g2, u2) && !(g2 == group_id && u2 == user_id) {
                    let j = choose|j: int|
                        0 <= j < pre.memberships@.len() && (#[trigger] pre.memberships@[
                        j]).group_id == g2 && pre.memberships@[j].user_id == u2;
                    assert(pred(pre.memberships@[j]));
                    assert(pre.memberships@.filter(pred).contains(pre.memberships@[j]));
                    let j2 = choose|j2: int| 0 <= j2 < f.len() && f[j2] == pre.memberships@[j];
                    assert(store.spec_is_member(g2, u2));
                }
            }
            // an absent pair selects every row
            if !pre.spec_is_member(group_id, user_id) {
                assert forall|a: int| 0 <= a < pre.memberships@.len() implies pred(
                    #[trigger] pre.memberships@[a],
                ) by {
                    if pre.memberships@[a].group_id == group_id && pre.memberships@[a].user_id
                        == user_id {
                        assert(pre.spec_is_member(group_id, user_id));
                    }
                }
                crate::seq_facts::lemma_filter_keep_all(pre.memberships@, pred);
            }
        }
    }

    /// Whether the pair is linked.
    pub fn is_member(store: &Store, group_id: GroupId, user_id: UserId) -> (r: bool)
        ensures
            r == store.spec_is_member(group_id, user_id),
    {
        store.find_member_index(group_id, user_id).is_some()
    }

    /// Whether the pair is linked and the link carries exactly this role
    /// label.
    #[verifier::loop_isolation(false)]
    pub fn has_role(store: &Store, group_id: GroupId, user_id: UserId, role_name: &str) -> (r:
        bool)
        ensures
            r == membership_role_held(*store, group_id, user_id, role_name@),
    {
        let n = store.memberships.len();
        let mut i: usize = 0;
        while i < n
            invariant
                i <= n,
                forall|j: int|
                    0 <= j < i ==> !((#[trigger] store.memberships@[j]).group_id == group_id
                        && store.memberships@[j].user_id == user_id && store.memberships@[
                    j].role_name@ == role_name@),
            decreases n - i,
        {
            let m = &store.memberships[i];
            if m.group_id == group_id && m.user_id == user_id && str_eq(
                m.role_name.as_str(),
                role_name,
            ) {
                return true;
            }
            i = i + 1;
        }
        proof {
            if membership_role_held(*store, group_id, user_id, role_name@) {
                let j = choose|j: int|
                    0 <= j < store.memberships@.len() && (#[trigger] store.memberships@[
                    j]).group_id == group_id && store.memberships@[j].user_id == user_id
                        && store.memberships@[j].role_name@ == role_name@;
                assert(false);
            }
        }
        false
    }

    /// The membership rows of one group, in insertion order; paged through a
    /// (limit, offset) window when one is supplied, the full list otherwise.
    #[verifier::loop_isolation(false)]
    pub fn members(store: &Store, group_id: GroupId, page: Option<(i64, i64)>) -> (r: Vec<
        GroupMembershipRow,
    >)
        requires
            match page {
                Some((limit, offset)) => limit >= 0 && offset >= 0,
                None => true,
            },
        ensures
            r@ == page_window(
                store.memberships@.filter(membership_of_group(group_id)),
                page,
            ),
    {
        let ghost pred = membership_of_group(group_id);
        let n = store.memberships.len();
        let mut out: Vec<GroupMembershipRow> = Vec::new();
        let mut i: usize = 0;
        while i < n
            invariant
                i <= n,
                out@ == store.memberships@.take(i as int).filter(pred),
            decreases n - i,
        {
            let m = &store.memberships[i];
            proof {
                assert(pred(store.memberships@[i as int]) == (store.memberships@[
                i as int].group_id == group_id));
                store.memberships@.lemma_take_succ_push(i as int);
                store.memberships@.take(i as int).lemma_filter_push(
                    store.memberships@[i as int],
                    pred,
                );
            }
            if m.group_id == group_id {
                out.push(m.clone());
            }
            i = i + 1;
        }
        proof {
            assert(store.memberships@.take(n as int) =~= store.memberships@);
        }
        match page {
            None => out,
            Some((limit, offset)) => {
                let len = out.len();
                let start: usize = if offset as u64 >= len as u64 {
                    len
                } else {
                    offset as usize
                };
                let avail = len - start;
                let take_n: usize = if limit as u64 >= avail as u64 {
                    avail
                } else {
                    limit as usize
                };
                let mut win: Vec<GroupMembershipRow> = Vec::new();
                let mut j: usize = 0;
                while j < take_n
                    invariant
                        j <= take_n,
                        win@ == out@.subrange(start as int, start as int + j as int),
                    decreases take_n - j,
                {
                    proof {
                        assert(out@.subrange(start as int, start as int + j as int + 1)
                            =~= out@.subrange(start as int, start as int + j as int).push(
                            out@[start as int + j as int],
                        ));
                    }
                    win.push(out[start + j].clone());
                    j = j + 1;
                }
                proof {
                    assert(win@ == page_window(
                        store.memberships@.filter(membership_of_group(group_id)),
                        page,
                    ));
                }
                win
            },
        }
    }

    /// Every group the user belongs to, narrowed to active groups; membership
    /// rows themselves are not consulted for activity, the group row is.
    #[verifier::loop_isolation(false)]
    pub fn groups_for_user(store: &Store, user_id: UserId) -> (r: Vec<GroupRow>)
        requires
            store.wf(),
        ensures
            r@ == active_groups_of(*store, store.memberships@, user_id),
    {
        let n = store.memberships.len();
        let mut out: Vec<GroupRow> = Vec::new();
        let mut i: usize = 0;
        while i < n
            invariant
                i <= n,
                out@ == active_groups_of(*store, store.memberships@.take(i as int), user_id),
            decreases n - i,
        {
            let m = &store.memberships[i];
            proof {
                store.memberships@.lemma_take_succ_push(i as int);
                assert(store.memberships@.take(i as int + 1).drop_last() =~= store.memberships@.take(
                    i as int,
                ));
                assert(store.memberships@.take(i as int + 1).last() == store.memberships@[
                    i as int]);
            }
            if m.user_id == user_id {
                match GroupRow::get(store, m.group_id) {
                    Some(g) => {
                        if g.active {
                            out.push(g);
                        }
                    },
                    None => {
                    },
                }
            }
            i = i + 1;
        }
        proof {
            assert(store.memberships@.take(n as int) =~= store.memberships@);
        }
        out
    }
}

/// Some membership row links `g` and `u` and carries this role label.
pub open spec fn membership_role_held(s: Store, g: GroupId, u: UserId, role: Seq<char>) -> bool {
    exists|i: int|
        0 <= i < s.memberships@.len() && (#[trigger] s.memberships@[i]).group_id == g
            && s.memberships@[i].user_id == u && s.memberships@[i].role_name@ == role
}

/// The groups the user belongs to whose group row is active, each listed as
/// that group row, in membership insertion order.
pub open spec fn active_groups_of(s: Store, ms: Seq<GroupMembershipRow>, u: UserId) -> Seq<
    GroupRow,
>
    decreases ms.len(),
{
    if ms.len() == 0 {
        Seq::empty()
    } else {
        let init = active_groups_of(s, ms.drop_last(), u);
        let m = ms.last();
        if m.user_id == u && s.spec_group(m.group_id) is Some && s.spec_group(
            m.group_id,
        ).unwrap().active {
            init.push(s.spec_group(m.group_id).unwrap())
        } else {
            init
        }
    }
}

/// When the membership relation keeps pairwise-distinct pairs whose endpoints
/// exist and every other relation is untouched, well-formedness transfers.
proof fn lemma_wf_after_memberships_change(pre: Store, post: Store)
    requires
        pre.wf(),
        forall|a: int, b: int|
            0 <= a < b < post.memberships@.len() ==> !((#[trigger] post.memberships@[a]).group_id
                == (#[trigger] post.memberships@[b]).group_id && post.memberships@[a].user_id
                == post.memberships@[b].user_id),
        forall|a: int|
            0 <= a < post.memberships@.len() ==> pre.has_group(
                (#[trigger] post.memberships@[a]).group_id,
            ) && pre.has_user(post.memberships@[a].user_id),
        post.users@ == pre.users@,
        post.groups@ == pre.groups@,
        post.grants@ == pre.grants@,
        post.log@ == pre.log@,
    ensures
        post.wf(),
{
    assert forall|a: int, b: int|
        #![trigger post.users@[a], post.users@[b]]
        0 <= a < b < post.users@.len() implies post.users@[a].id != post.users@[b].id
        && post.users@[a].email@ != post.users@[b].email@ && ((post.users@[a].username is Some
        && post.users@[b].username is Some) ==> post.users@[a].username.unwrap()@ != post.users@[
        b].username.unwrap()@) by {
        assert(pre.users@[a] == post.users@[a]);
        assert(pre.users@[b] == post.users@[b]);
    }
    assert(post.users_wf());
    assert forall|a: int, b: int|
        #![trigger post.groups@[a], post.groups@[b]]
        0 <= a < b < post.groups@.len() implies post.groups@[a].id != post.groups@[b].id
        && post.groups@[a].display_name@ != post.groups@[b].display_name@ by {
        assert(pre.groups@[a] == post.groups@[a]);
        assert(pre.groups@[b] == post.groups@[b]);
    }
    assert(post.groups_wf());
    assert forall|a: int| 0 <= a < post.memberships@.len() implies post.has_group(
        (#[trigger] post.memberships@[a]).group_id,
    ) && post.has_user(post.memberships@[a].user_id) by {
        assert(pre.has_group(post.memberships@[a].group_id));
        assert(pre.has_user(post.memberships@[a].user_id));
        let gj = choose|gj: int|
            0 <= gj < pre.groups@.len() && (#[trigger] pre.groups@[gj]).id == post.memberships@[
                a].group_id;
        assert(post.groups@[gj].id == post.memberships@[a].group_id);
        let uj = choose|uj: int|
            0 <= uj < pre.users@.len() && (#[trigger] pre.users@[uj]).id == post.memberships@[
                a].user_id;
        assert(post.users@[uj].id == post.memberships@[a].user_id);
    }
    assert(post.memberships_wf());
    assert(post.grant_keys() == pre.grant_keys());
    assert forall|a: int, b: int|
        #![trigger post.grant_keys()[a], post.grant_keys()[b]]
        0 <= a < b < post.grant_keys().len() implies crate::grants::key_le(
        post.grant_keys()[a],
        post.grant_keys()[b],
    ) && !crate::grants::key_le(post.grant_keys()[b], post.grant_keys()[a]) by {
        assert(pre.grant_keys()[a] == post.grant_keys()[a]);
        assert(pre.grant_keys()[b] == post.grant_keys()[b]);
    }
    assert forall|a: int| 0 <= a < post.grants@.len() implies post.principal_exists(
        (#[trigger] post.grants@[a]).principal,
    ) by {
        assert(pre.grants@[a] == post.grants@[a]);
        assert(pre.principal_exists(pre.grants@[a].principal));
        crate::store::lemma_principal_exists_same_rows(pre, post, pre.grants@[a].principal);
    }
    assert(post.grants_wf());
    assert forall|a: int, b: int|
        #![trigger post.log@[a], post.log@[b]]
        0 <= a < b < post.log@.len() implies post.log@[a].timestamp >= post.log@[b].timestamp by {
        assert(pre.log@[a] == post.log@[a]);
        assert(pre.log@[b] == post.log@[b]);
    }
    assert(post.log_wf());
}

} // verus!
