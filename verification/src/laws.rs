use vstd::prelude::*;
use crate::grants::{
    allow_post, grant_key, grant_not_principal, of_principal, revoke_post, GrantKey, GrantRow,
    Principal,
};
use crate::group_id::GroupId;
use crate::groups::group_row_updated;
use crate::members::{active_groups_of, membership_not_user, GroupMembershipRow};
use crate::seq_facts::lemma_filter_elem_of;
use crate::store::Store;
use crate::user_id::UserId;
use crate::users::{delete_user_post, user_not};

verus! {

broadcast use vstd::seq_lib::group_filter_ensures;

/// Law: granting a tuple that is already held is a no-op. After a grant and
/// a second grant of the same tuple, the tuple is held, exactly one row
/// carries it, and the second call left the grant relation untouched.
pub proof fn lemma_allow_idempotent(s0: Store, s1: Store, s2: Store, k: GrantKey)
    requires
        allow_post(s0, s1, k),
        allow_post(s1, s2, k),
    ensures
        s2.spec_has_grant(k),
        s2.grant_count(k) == 1,
        s2.grants@ == s1.grants@,
{
}

/// Law: revoking a tuple that is not held succeeds and changes nothing; the
/// tuple is still not held afterwards.
pub proof fn lemma_revoke_absent(s0: Store, s1: Store, k: GrantKey)
    requires
        !s0.spec_has_grant(k),
        revoke_post(s0, s1, k),
    ensures
        !s1.spec_has_grant(k),
        s1.grants@ == s0.grants@,
{
}

/// Law: a grant made through the global convenience and a grant made by
/// passing the reserved scope pair explicitly are observably identical —
/// both calls satisfy the same transition, so the stores they produce hold
/// exactly the same grants.
pub proof fn lemma_global_is_reserved_pair(
    pre: Store,
    post_global: Store,
    post_scoped: Store,
    p: Principal,
    role: Seq<char>,
)
    requires
        allow_post(pre, post_global, (p, "global"@, "global"@, role)),
        allow_post(pre, post_scoped, (p, "global"@, "global"@, role)),
    ensures
        forall|k2: GrantKey| #[trigger]
            post_global.spec_has_grant(k2) == post_scoped.spec_has_grant(k2),
{
}

/// Law: role listings are deterministic. The listing of a principal is a
/// function of the store — two listings with no mutation in between select
/// the same rows in the same order (and the listing's own contract orders
/// them ascending by scope kind, scope id and role name).
pub proof fn lemma_roles_deterministic(
    s: Store,
    p: Principal,
    r1: Seq<GrantRow>,
    r2: Seq<GrantRow>,
)
    requires
        r1 == s.grants@.filter(of_principal(p)),
        r2 == s.grants@.filter(of_principal(p)),
    ensures
        r1 == r2,
{
}

/// Law: hard-deleting a user cascades. Afterwards the user row is gone, the
/// user belongs to no group, the user holds no grant in any scope, and no
/// membership or grant row referring to the user remains.
pub proof fn lemma_delete_user_cascades(pre: Store, post: Store, u: UserId)
    requires
        pre.wf(),
        delete_user_post(pre, post, u),
    ensures
        !post.has_user(u),
        forall|g: GroupId| !#[trigger] post.spec_is_member(g, u),
        forall|scope: Seq<char>, scope_id: Seq<char>, role: Seq<char>|
            !#[trigger] post.spec_has_grant((Principal::User(u), scope, scope_id, role)),
        forall|i: int| 0 <= i < post.memberships@.len() ==> (#[trigger] post.memberships@[i]).user_id != u,
        forall|i: int|
            0 <= i < post.grants@.len() ==> (#[trigger] post.grants@[i]).principal
                != Principal::User(u),
{
    assert forall|i: int| 0 <= i < post.memberships@.len() implies (#[trigger] post.memberships@[
    i]).user_id != u by {
        assert(membership_not_user(u)(post.memberships@[i]));
    }
    assert forall|i: int| 0 <= i < post.grants@.len() implies (#[trigger] post.grants@[i]).principal
        != Principal::User(u) by {
        assert(grant_not_principal(Principal::User(u))(post.grants@[i]));
    }
    assert(!post.has_user(u)) by {
        if post.has_user(u) {
            let j = choose|j: int|
                0 <= j < post.users@.len() && (#[trigger] post.users@[j]).id == u;
            assert(user_not(u)(post.users@[j]));
        }
    }
    assert forall|g: GroupId| !#[trigger] post.spec_is_member(g, u) by {
        if post.spec_is_member(g, u) {
            let j = choose|j: int|
                0 <= j < post.memberships@.len() && (#[trigger] post.memberships@[j]).group_id == g
                    && post.memberships@[j].user_id == u;
        }
    }
    assert forall|scope: Seq<char>, scope_id: Seq<char>, role: Seq<char>|
        !#[trigger] post.spec_has_grant((Principal::User(u), scope, scope_id, role)) by {
        if post.spec_has_grant((Principal::User(u), scope, scope_id, role)) {
            let j = choose|j: int|
                0 <= j < post.grant_keys().len() && post.grant_keys()[j] == (
                Principal::User(u),
                scope,
                scope_id,
                role,
                );
            assert(post.grant_keys()[j] == grant_key(post.grants@[j]));
            assert(post.grants@[j].principal == Principal::User(u));
        }
    }
}

/// Every group row a listing returns carries an active flag, and its
/// identifier is the one its membership row names; a group whose row is
/// inactive is never returned.
proof fn lemma_active_groups_skip_inactive(
    s: Store,
    ms: Seq<GroupMembershipRow>,
    u: UserId,
    g: GroupId,
)
    requires
        s.spec_group(g) is Some ==> s.spec_group(g).unwrap().active == false,
    ensures
        forall|i: int|
            0 <= i < active_groups_of(s, ms, u).len() ==> (#[trigger] active_groups_of(s, ms, u)[
            i]).id != g,
    decreases ms.len(),
{
    if ms.len() > 0 {
        lemma_active_groups_skip_inactive(s, ms.drop_last(), u, g);
        let m = ms.last();
        let init = active_groups_of(s, ms.drop_last(), u);
        if m.user_id == u && s.spec_group(m.group_id) is Some && s.spec_group(
            m.group_id,
        ).unwrap().active {
            let pushed = s.spec_group(m.group_id).unwrap();
            assert(s.has_group(m.group_id));
            assert(pushed.id == m.group_id) by {
                let k = s.group_idx(m.group_id);
                assert(0 <= k < s.groups@.len() && s.groups@[k].id == m.group_id);
            }
            assert(pushed.id != g);
            assert forall|i: int|
                0 <= i < active_groups_of(s, ms, u).len() implies (#[trigger] active_groups_of(
                s,
                ms,
                u,
            )[i]).id != g by {
                if i < init.len() {
                    assert(active_groups_of(s, ms, u)[i] == init[i]);
                } else {
                    assert(active_groups_of(s, ms, u)[i] == pushed);
                }
            }
        }
    }
}

/// Law: deactivating a group removes it from every user's group listing
/// while the membership rows stay exactly as they were.
pub proof fn lemma_deactivate_group_hides(pre: Store, post: Store, g: GroupId, u: UserId)
    requires
        pre.wf(),
        post.wf(),
        post.memberships@ == pre.memberships@,
        pre.has_group(g),
        group_row_updated(pre, post, pre.group_idx(g)),
        post.groups@[pre.group_idx(g)].active == false,
    ensures
        forall|i: int|
            0 <= i < active_groups_of(post, post.memberships@, u).len() ==> (
            #[trigger] active_groups_of(post, post.memberships@, u)[i]).id != g,
{
    let idx = pre.group_idx(g);
    assert(0 <= idx < pre.groups@.len() && pre.groups@[idx].id == g);
    assert(post.groups@[idx].id == g);
    crate::groups::lemma_group_idx_agrees(post, g, idx);
    assert(post.spec_group(g) == Some(post.groups@[idx]));
    lemma_active_groups_skip_inactive(post, post.memberships@, u, g);
}

} // verus!
