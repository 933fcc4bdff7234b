use vstd::prelude::*;
use crate::grants::{grant_key, grant_not_principal, key_le, GrantRow, Principal};
use crate::log::{detach_user, LogRow};
use crate::members::{membership_not_user, GroupMembershipRow};
use crate::seq_facts::{lemma_filter_elem_of, lemma_filter_pairwise};
use crate::store::Store;
use crate::text_order::str_eq;
use crate::user_id::UserId;
use crate::AuthError;

verus! {

broadcast use vstd::seq_lib::group_filter_ensures;

/// One user record: identity, optional unique handle, unique contact
/// address, opaque profile payload, and the active flag of the soft-delete
/// lifecycle.
#[derive(Debug)]
pub struct UserRow {
    pub id: UserId,
    pub username: Option<String>,
    pub email: String,
    pub details: Option<String>,
    pub active: bool,
}

impl Clone for UserRow {
    fn clone(&self) -> (r: Self)
        ensures
            r == *self,
    {
        UserRow {
            id: self.id,
            username: match &self.username {
                Some(u) => Some(u.clone()),
                None => None,
            },
            email: self.email.clone(),
            details: match &self.details {
                Some(d) => Some(d.clone()),
                None => None,
            },
            active: self.active,
        }
    }
}

impl UserRow {
    /// A freshly provisioned user starts active.
    pub fn new(id: UserId, username: Option<String>, email: String, details: Option<String>) -> (r:
        Self)
        ensures
            r.id == id,
            r.username == username,
            r.email == email,
            r.details == details,
            r.active == true,
    {
        UserRow { id, username, email, details, active: true }
    }

    pub fn table_name() -> (r: &'static str)
        ensures
            r@ == "auth.users"@,
    {
        "auth.users"
    }

    pub fn columns() -> (r: &'static str)
        ensures
            r@ == "id, username, email, details"@,
    {
        "id, username, email, details"
    }

    /// Creates the user row. A duplicate identifier, contact address or
    /// handle is refused as a conflict, and the store is left as it was.
    #[verifier::loop_isolation(false)]
    pub fn insert(store: &mut Store, row: &UserRow) -> (r: Result<(), AuthError>)
        requires
            old(store).wf(),
        ensures
            match r {
                Ok(()) => !user_conflict(*old(store), *row) && final(store).users@ == old(
                    store,
                ).users@.push(*row) && final(store).wf(),
                Err(e) => e == AuthError::Conflict && user_conflict(*old(store), *row) && *final(store) == *old(store),
            },
            final(store).groups@ == old(store).groups@,
            final(store).memberships@ == old(store).memberships@,
            final(store).grants@ == old(store).grants@,
            final(store).log@ == old(store).log@,
    {
        let ghost pre = *store;
        let n = store.users.len();
        let mut i: usize = 0;
        while i < n
            invariant
                i <= n,
                forall|j: int|
                    0 <= j < i ==> !((#[trigger] store.users@[j]).id == row.id || store.users@[j].email@ == row.email@ || (store.users@[j].username is Some && row.username
                        is Some && store.users@[j].username.unwrap()@ == row.username.unwrap()@)),
            decreases n - i,
        {
            let u = &store.users[i];
            let clash_username = match (&u.username, &row.username) {
                (Some(a), Some(b)) => str_eq(a.as_str(), b.as_str()),
                _ => false,
            };
            if u.id == row.id || str_eq(u.email.as_str(), row.email.as_str()) || clash_username {
                proof {
                    assert(user_conflict(pre, *row));
                }
                return Err(AuthError::Conflict);
            }
            i = i + 1;
        }
        proof {
            if user_conflict(pre, *row) {
                let j = choose|j: int|
                    0 <= j < pre.users@.len() && ((#[trigger] pre.users@[j]).id == row.id
                        || pre.users@[j].email@ == row.email@ || (pre.users@[j].username is Some
                        && row.username is Some && pre.users@[j].username.unwrap()@
                        == row.username.unwrap()@));
                assert(false);
            }
        }
        store.users.push(row.clone());
        proof {
            let m = pre.users@.len() as int;
            assert forall|a: int, b: int|
                #![trigger store.users@[a], store.users@[b]]
                0 <= a < b < store.users@.len() implies store.users@[a].id != store.users@[b].id
                && store.users@[a].email@ != store.users@[b].email@ && ((store.users@[a].username
                is Some && store.users@[b].username is Some) ==> store.users@[a].username.unwrap()@
                != store.users@[b].username.unwrap()@) by {
                if b < m {
                    assert(store.users@[a] == pre.users@[a]);
                    assert(store.users@[b] == pre.users@[b]);
                } else {
                    assert(store.users@[a] == pre.users@[a]);
                    assert(store.users@[b] == *row);
                }
            }
            lemma_wf_after_more_users(pre, *store);
        }
        Ok(())
    }

    /// Point lookup by identifier; absence is a plain `None`, not a fault.
    pub fn get(store: &Store, user_id: UserId) -> (r: Option<UserRow>)
        requires
            store.wf(),
        ensures
            r == store.spec_user(user_id),
    {
        match store.find_user_index(user_id) {
            Some(i) => {
                let row = store.users[i].clone();
                proof {
                    lemma_user_idx_agrees(*store, user_id, i as int);
                }
                Some(row)
            },
            None => None,
        }
    }

    /// Point lookup by handle.
    #[verifier::loop_isolation(false)]
    pub fn get_by_username(store: &Store, username: &str) -> (r: Option<UserRow>)
        requires
            store.wf(),
        ensures
            match r {
                Some(u) => u.username is Some && u.username.unwrap()@ == username@
                    && store.users@.contains(u),
                None => !user_named(*store, username@),
            },
    {
        let n = store.users.len();
        let mut i: usize = 0;
        while i < n
            invariant
                i <= n,
                forall|j: int|
                    0 <= j < i ==> !((#[trigger] store.users@[j]).username is Some
                        && store.users@[j].username.unwrap()@ == username@),
            decreases n - i,
        {
            let u = &store.users[i];
            let found = match &u.username {
                Some(a) => str_eq(a.as_str(), username),
                None => false,
            };
            if found {
                return Some(u.clone());
            }
            i = i + 1;
        }
        proof {
            if user_named(*store, username@) {
                let j = choose|j: int|
                    0 <= j < store.users@.len() && (#[trigger] store.users@[j]).username is Some
                        && store.users@[j].username.unwrap()@ == username@;
                assert(false);
            }
        }
        None
    }

    /// Point lookup by contact address.
    #[verifier::loop_isolation(false)]
    pub fn get_by_email(store: &Store, email: &str) -> (r: Option<UserRow>)
        requires
            store.wf(),
        ensures
            match r {
                Some(u) => u.email@ == email@ && store.users@.contains(u),
                None => !user_mailed(*store, email@),
            },
    {
        let n = store.users.len();
        let mut i: usize = 0;
        while i < n
            invariant
                i <= n,
                forall|j: int| 0 <= j < i ==> (#[trigger] store.users@[j]).email@ != email@,
            decreases n - i,
        {
            let u = &store.users[i];
            if str_eq(u.email.as_str(), email) {
                return Some(u.clone());
            }
            i = i + 1;
        }
        proof {
            if user_mailed(*store, email@) {
                let j = choose|j: int|
                    0 <= j < store.users@.len() && (#[trigger] store.users@[j]).email@ == email@;
                assert(false);
            }
        }
        None
    }

    /// Replaces the profile payload outright; an absent identifier is a
    /// successful no-op.
    pub fn set_details(store: &mut Store, user_id: UserId, details: Option<String>)
        requires
            old(store).wf(),
        ensures
            final(store).wf(),
            final(store).groups@ == old(store).groups@,
            final(store).memberships@ == old(store).memberships@,
            final(store).grants@ == old(store).grants@,
            final(store).log@ == old(store).log@,
            !old(store).has_user(user_id) ==> final(store).users@ == old(store).users@,
            old(store).has_user(user_id) ==> user_row_updated(
                *old(store),
                *final(store),
                old(store).user_idx(user_id),
            ) && final(store).users@[old(store).user_idx(user_id)].details == details && final(store).users@[old(store).user_idx(user_id)].active == old(store).users@[old(store).user_idx(user_id)].active,
    {
        let ghost pre = *store;
        match store.find_user_index(user_id) {
            None => {
            },
            Some(i) => {
                proof {
                    lemma_user_idx_agrees(pre, user_id, i as int);
                }
                let mut row = store.users.remove(i);
                row.details = details;
                store.users.insert(i, row);
                proof {
                    pre.users@.remove_ensures(i as int);
                    pre.users@.remove(i as int).insert_ensures(i as int, store.users@[i as int]);
                    assert(user_row_updated(pre, *store, i as int));
                    lemma_wf_after_user_update(pre, *store, i as int);
                }
            },
        }
    }

    /// Soft delete: clears the active flag; idempotent, and a successful
    /// no-op on an absent identifier.
    pub fn deactivate(store: &mut Store, user_id: UserId)
        requires
            old(store).wf(),
        ensures
            final(store).wf(),
            final(store).groups@ == old(store).groups@,
            final(store).memberships@ == old(store).memberships@,
            final(store).grants@ == old(store).grants@,
            final(store).log@ == old(store).log@,
            !old(store).has_user(user_id) ==> final(store).users@ == old(store).users@,
            old(store).has_user(user_id) ==> user_row_updated(
                *old(store),
                *final(store),
                old(store).user_idx(user_id),
            ) && final(store).users@[old(store).user_idx(user_id)].active == false && final(store).users@[old(store).user_idx(user_id)].details == old(store).users@[old(store).user_idx(user_id)].details,
    {
        let ghost pre = *store;
        match store.find_user_index(user_id) {
            None => {
            },
            Some(i) => {
                proof {
                    lemma_user_idx_agrees(pre, user_id, i as int);
                }
                let mut row = store.users.remove(i);
                row.active = false;
                store.users.insert(i, row);
                proof {
                    pre.users@.remove_ensures(i as int);
                    pre.users@.remove(i as int).insert_ensures(i as int, store.users@[i as int]);
                    assert(user_row_updated(pre, *store, i as int));
                    lemma_wf_after_user_update(pre, *store, i as int);
                }
            },
        }
    }

    /// Hard delete: removes the user row and cascades, removing every
    /// membership and grant the user owns and clearing the attribution of
    /// the user's audit entries; idempotent.
    #[verifier::loop_isolation(false)]
    pub fn delete(store: &mut Store, user_id: UserId)
        requires
            old(store).wf(),
        ensures
            delete_user_post(*old(store), *final(store), user_id),
    {
        let ghost pre = *store;
        let target = Principal::User(user_id);
        let n_users = store.users.len();
        let mut kept_users: Vec<UserRow> = Vec::new();
        let mut i: usize = 0;
        while i < n_users
            invariant
                i <= n_users,
                kept_users@ == pre.users@.take(i as int).filter(user_not(user_id)),
            decreases n_users - i,
        {
            let u = &store.users[i];
            proof {
                assert(user_not(user_id)(pre.users@[i as int]) == (pre.users@[i as int].id
                    != user_id));
                pre.users@.lemma_take_succ_push(i as int);
                pre.users@.take(i as int).lemma_filter_push(pre.users@[i as int], user_not(user_id));
            }
            if u.id != user_id {
                kept_users.push(u.clone());
            }
            i = i + 1;
        }
        let n_members = store.memberships.len();
        let mut kept_members: Vec<GroupMembershipRow> = Vec::new();
        let mut j: usize = 0;
        while j < n_members
            invariant
                j <= n_members,
                kept_members@ == pre.memberships@.take(j as int).filter(membership_not_user(user_id)),
            decreases n_members - j,
        {
            let m = &store.memberships[j];
            proof {
                assert(membership_not_user(user_id)(pre.memberships@[j as int]) == (
                pre.memberships@[j as int].user_id != user_id));
                pre.memberships@.lemma_take_succ_push(j as int);
                pre.memberships@.take(j as int).lemma_filter_push(
                    pre.memberships@[j as int],
                    membership_not_user(user_id),
                );
            }
            if m.user_id != user_id {
                kept_members.push(m.clone());
            }
            j = j + 1;
        }
        let n_grants = store.grants.len();
        let mut kept_grants: Vec<GrantRow> = Vec::new();
        let mut g: usize = 0;
        while g < n_grants
            invariant
                g <= n_grants,
                kept_grants@ == pre.grants@.take(g as int).filter(grant_not_principal(target)),
                target == Principal::User(user_id),
            decreases n_grants - g,
        {
            let row = &store.grants[g];
            proof {
                assert(grant_not_principal(target)(pre.grants@[g as int]) == (pre.grants@[
                g as int].principal != target));
                pre.grants@.lemma_take_succ_push(g as int);
                pre.grants@.take(g as int).lemma_filter_push(
                    pre.grants@[g as int],
                    grant_not_principal(target),
                );
            }
            if !(row.principal == target) {
                kept_grants.push(row.clone());
            }
            g = g + 1;
        }
        let n_log = store.log.len();
        let mut new_log: Vec<LogRow> = Vec::new();
        let mut e: usize = 0;
        while e < n_log
            invariant
                e <= n_log,
                new_log@ == pre.log@.take(e as int).map_values(detach_user(user_id)),
            decreases n_log - e,
        {
            let entry = &store.log[e];
            let is_target = match &entry.user_id {
                Some(v) => *v == user_id,
                None => false,
            };
            proof {
                pre.log@.lemma_take_succ_push(e as int);
                pre.log@.take(e as int).lemma_push_map_commute(
                    detach_user(user_id),
                    pre.log@[e as int],
                );
            }
            if is_target {
                new_log.push(
                    LogRow {
                        id: entry.id,
                        user_id: None,
                        action: entry.action.clone(),
                        timestamp: entry.timestamp,
                    },
                );
                proof {
                    assert(new_log@.last() == detach_user(user_id)(pre.log@[e as int]));
                    assert(new_log@ =~= pre.log@.take(e as int + 1).map_values(
                        detach_user(user_id),
                    ));
                }
            } else {
                new_log.push(entry.clone());
                proof {
                    assert(new_log@.last() == detach_user(user_id)(pre.log@[e as int]));
                    assert(new_log@ =~= pre.log@.take(e as int + 1).map_values(
                        detach_user(user_id),
                    ));
                }
            }
            e = e + 1;
        }
        proof {
            assert(pre.users@.take(n_users as int) =~= pre.users@);
            assert(pre.memberships@.take(n_members as int) =~= pre.memberships@);
            assert(pre.grants@.take(n_grants as int) =~= pre.grants@);
            assert(pre.log@.take(n_log as int) =~= pre.log@);
        }
        store.users = kept_users;
        store.memberships = kept_members;
        store.grants = kept_grants;
        store.log = new_log;
        proof {
            lemma_wf_after_delete_user(pre, *store, user_id);
        }
    }
}

/// Keeps every user row whose identifier differs from `u`.
pub open spec fn user_not(u: UserId) -> spec_fn(UserRow) -> bool {
    |r: UserRow| r.id != u
}

/// A create of `row` collides with an existing row: same identifier, same
/// contact address, or both rows carry the same handle.
pub open spec fn user_conflict(s: Store, row: UserRow) -> bool {
    exists|i: int|
        0 <= i < s.users@.len() && ((#[trigger] s.users@[i]).id == row.id || s.users@[i].email@
            == row.email@ || (s.users@[i].username is Some && row.username is Some && s.users@[i].username.unwrap()@ == row.username.unwrap()@))
}

/// Some user row carries this handle.
pub open spec fn user_named(s: Store, name: Seq<char>) -> bool {
    exists|i: int|
        0 <= i < s.users@.len() && (#[trigger] s.users@[i]).username is Some && s.users@[i].username.unwrap()@ == name
}

/// Some user row carries this contact address.
pub open spec fn user_mailed(s: Store, email: Seq<char>) -> bool {
    exists|i: int| 0 <= i < s.users@.len() && (#[trigger] s.users@[i]).email@ == email
}

/// The user relation changed in exactly one row, which kept its identifier,
/// handle and contact address.
pub open spec fn user_row_updated(pre: Store, post: Store, i: int) -> bool {
    &&& 0 <= i < pre.users@.len()
    &&& post.users@.len() == pre.users@.len()
    &&& (forall|j: int|
        0 <= j < pre.users@.len() && j != i ==> post.users@[j] == #[trigger] pre.users@[j])
    &&& post.users@[i].id == pre.users@[i].id
    &&& post.users@[i].username == pre.users@[i].username
    &&& post.users@[i].email == pre.users@[i].email
}

/// What hard-deleting user `u` does to the store: the user row goes, the
/// memberships and grants owned by the user go with it, the audit entries
/// keep their place with the attribution cleared, and groups are untouched.
pub open spec fn delete_user_post(pre: Store, post: Store, u: UserId) -> bool {
    &&& post.wf()
    &&& post.users@ == pre.users@.filter(user_not(u))
    &&& post.groups@ == pre.groups@
    &&& post.memberships@ == pre.memberships@.filter(membership_not_user(u))
    &&& post.grants@ == pre.grants@.filter(grant_not_principal(Principal::User(u)))
    &&& post.log@ == pre.log@.map_values(detach_user(u))
}

/// Under `users_wf`, the scan index of a user is the index the specification
/// picks.
proof fn lemma_user_idx_agrees(s: Store, id: UserId, i: int)
    requires
        s.wf(),
        0 <= i < s.users@.len(),
        s.users@[i].id == id,
    ensures
        s.has_user(id),
        s.user_idx(id) == i,
        s.spec_user(id) == Some(s.users@[i]),
{
    assert(s.has_user(id));
    let k = s.user_idx(id);
    assert(0 <= k < s.users@.len() && s.users@[k].id == id);
    if k != i {
        let a = s.users@[if k < i {
            k
        } else {
            i
        }];
        let b = s.users@[if k < i {
            i
        } else {
            k
        }];
        assert(a.id != b.id);
        assert(false);
    }
}

/// Growing the user relation by fresh rows preserves every other part of
/// well-formedness; the caller shows `users_wf` of the grown relation.
proof fn lemma_wf_after_more_users(pre: Store, post: Store)
    requires
        pre.wf(),
        post.users_wf(),
        post.users@.len() >= pre.users@.len(),
        forall|j: int| 0 <= j < pre.users@.len() ==> post.users@[j] == #[trigger] pre.users@[j],
        post.groups@ == pre.groups@,
        post.memberships@ == pre.memberships@,
        post.grants@ == pre.grants@,
        post.log@ == pre.log@,
    ensures
        post.wf(),
{
    assert forall|a: int, b: int|
        #![trigger post.groups@[a], post.groups@[b]]
        0 <= a < b < post.groups@.len() implies post.groups@[a].id != post.groups@[b].id
        && post.groups@[a].display_name@ != post.groups@[b].display_name@ by {
        assert(pre.groups@[a] == post.groups@[a]);
        assert(pre.groups@[b] == post.groups@[b]);
    }
    assert(post.groups_wf());
    assert forall|a: int| 0 <= a < post.memberships@.len() implies post.has_group(
        (#[trigger] post.memberships@[a]).group_id,
    ) && post.has_user(post.memberships@[a].user_id) by {
        assert(pre.memberships@[a] == post.memberships@[a]);
        assert(pre.has_group(pre.memberships@[a].group_id));
        assert(pre.has_user(pre.memberships@[a].user_id));
        let gj = choose|gj: int|
            0 <= gj < pre.groups@.len() && (#[trigger] pre.groups@[gj]).id == pre.memberships@[a].group_id;
        assert(post.groups@[gj].id == post.memberships@[a].group_id);
        let uj = choose|uj: int|
            0 <= uj < pre.users@.len() && (#[trigger] pre.users@[uj]).id == pre.memberships@[a].user_id;
        assert(post.users@[uj].id == post.memberships@[a].user_id);
    }
    assert forall|a: int, b: int|
        #![trigger post.memberships@[a], post.memberships@[b]]
        0 <= a < b < post.memberships@.len() implies !(post.memberships@[a].group_id
        == post.memberships@[b].group_id && post.memberships@[a].user_id == post.memberships@[b].user_id) by {
        assert(pre.memberships@[a] == post.memberships@[a]);
        assert(pre.memberships@[b] == post.memberships@[b]);
    }
    assert(post.memberships_wf());
    assert(post.grant_keys() == pre.grant_keys());
    assert forall|a: int, b: int|
        #![trigger post.grant_keys()[a], post.grant_keys()[b]]
        0 <= a < b < post.grant_keys().len() implies key_le(
        post.grant_keys()[a],
        post.grant_keys()[b],
    ) && !key_le(post.grant_keys()[b], post.grant_keys()[a]) by {
        assert(pre.grant_keys()[a] == post.grant_keys()[a]);
        assert(pre.grant_keys()[b] == post.grant_keys()[b]);
    }
    assert forall|a: int| 0 <= a < post.grants@.len() implies post.principal_exists(
        (#[trigger] post.grants@[a]).principal,
    ) by {
        assert(pre.grants@[a] == post.grants@[a]);
        assert(pre.principal_exists(pre.grants@[a].principal));
        match pre.grants@[a].principal {
            Principal::User(u) => {
                let uj = choose|uj: int|
                    0 <= uj < pre.users@.len() && (#[trigger] pre.users@[uj]).id == u;
                assert(post.users@[uj].id == u);
            },
            Principal::Group(gr) => {
                let gj = choose|gj: int|
                    0 <= gj < pre.groups@.len() && (#[trigger] pre.groups@[gj]).id == gr;
                assert(post.groups@[gj].id == gr);
            },
        }
    }
    assert(post.grants_wf());
    assert forall|a: int, b: int|
        #![trigger post.log@[a], post.log@[b]]
        0 <= a < b < post.log@.len() implies post.log@[a].timestamp >= post.log@[b].timestamp by {
        assert(pre.log@[a] == post.log@[a]);
        assert(pre.log@[b] == post.log@[b]);
    }
    assert(post.log_wf());
}

/// Replacing one user row, its key fields kept, preserves well-formedness.
proof fn lemma_wf_after_user_update(pre: Store, post: Store, i: int)
    requires
        pre.wf(),
        user_row_updated(pre, post, i),
        post.groups@ == pre.groups@,
        post.memberships@ == pre.memberships@,
        post.grants@ == pre.grants@,
        post.log@ == pre.log@,
    ensures
        post.wf(),
{
    assert forall|a: int, b: int|
        #![trigger post.users@[a], post.users@[b]]
        0 <= a < b < post.users@.len() implies post.users@[a].id != post.users@[b].id
        && post.users@[a].email@ != post.users@[b].email@ && ((post.users@[a].username is Some
        && post.users@[b].username is Some) ==> post.users@[a].username.unwrap()@ != post.users@[b].username.unwrap()@) by {
        assert(pre.users@[a].id != pre.users@[b].id && pre.users@[a].email@ != pre.users@[b].email@
            && ((pre.users@[a].username is Some && pre.users@[b].username is Some)
            ==> pre.users@[a].username.unwrap()@ != pre.users@[b].username.unwrap()@));
        assert(post.users@[a].id == pre.users@[a].id && post.users@[a].email == pre.users@[a].email
            && post.users@[a].username == pre.users@[a].username);
        assert(post.users@[b].id == pre.users@[b].id && post.users@[b].email == pre.users@[b].email
            && post.users@[b].username == pre.users@[b].username);
    }
    assert(post.users_wf());
    lemma_wf_after_same_keys(pre, post);
}

/// When the user relation keeps the same identifiers at the same positions
/// and every other relation is untouched, the rest of well-formedness
/// transfers.
proof fn lemma_wf_after_same_keys(pre: Store, post: Store)
    requires
        pre.wf(),
        post.users_wf(),
        post.users@.len() == pre.users@.len(),
        forall|j: int|
            0 <= j < pre.users@.len() ==> (#[trigger] post.users@[j]).id == pre.users@[j].id,
        post.groups@ == pre.groups@,
        post.memberships@ == pre.memberships@,
        post.grants@ == pre.grants@,
        post.log@ == pre.log@,
    ensures
        post.wf(),
{
    assert forall|a: int, b: int|
        #![trigger post.groups@[a], post.groups@[b]]
        0 <= a < b < post.groups@.len() implies post.groups@[a].id != post.groups@[b].id
        && post.groups@[a].display_name@ != post.groups@[b].display_name@ by {
        assert(pre.groups@[a] == post.groups@[a]);
        assert(pre.groups@[b] == post.groups@[b]);
    }
    assert(post.groups_wf());
    assert forall|a: int| 0 <= a < post.memberships@.len() implies post.has_group(
        (#[trigger] post.memberships@[a]).group_id,
    ) && post.has_user(post.memberships@[a].user_id) by {
        assert(pre.memberships@[a] == post.memberships@[a]);
        assert(pre.has_group(pre.memberships@[a].group_id));
        assert(pre.has_user(pre.memberships@[a].user_id));
        let gj = choose|gj: int|
            0 <= gj < pre.groups@.len() && (#[trigger] pre.groups@[gj]).id == pre.memberships@[a].group_id;
        assert(post.groups@[gj].id == post.memberships@[a].group_id);
        let uj = choose|uj: int|
            0 <= uj < pre.users@.len() && (#[trigger] pre.users@[uj]).id == pre.memberships@[a].user_id;
        assert(post.users@[uj].id == post.memberships@[a].user_id);
    }
    assert forall|a: int, b: int|
        #![trigger post.memberships@[a], post.memberships@[b]]
        0 <= a < b < post.memberships@.len() implies !(post.memberships@[a].group_id
        == post.memberships@[b].group_id && post.memberships@[a].user_id == post.memberships@[b].user_id) by {
        assert(pre.memberships@[a] == post.memberships@[a]);
        assert(pre.memberships@[b] == post.memberships@[b]);
    }
    assert(post.memberships_wf());
    assert(post.grant_keys() == pre.grant_keys());
    assert forall|a: int, b: int|
        #![trigger post.grant_keys()[a], post.grant_keys()[b]]
        0 <= a < b < post.grant_keys().len() implies key_le(
        post.grant_keys()[a],
        post.grant_keys()[b],
    ) && !key_le(post.grant_keys()[b], post.grant_keys()[a]) by {
        assert(pre.grant_keys()[a] == post.grant_keys()[a]);
        assert(pre.grant_keys()[b] == post.grant_keys()[b]);
    }
    assert forall|a: int| 0 <= a < post.grants@.len() implies post.principal_exists(
        (#[trigger] post.grants@[a]).principal,
    ) by {
        assert(pre.grants@[a] == post.grants@[a]);
        assert(pre.principal_exists(pre.grants@[a].principal));
        match pre.grants@[a].principal {
            Principal::User(u) => {
                let uj = choose|uj: int|
                    0 <= uj < pre.users@.len() && (#[trigger] pre.users@[uj]).id == u;
                assert(post.users@[uj].id == u);
            },
            Principal::Group(gr) => {
                let gj = choose|gj: int|
                    0 <= gj < pre.groups@.len() && (#[trigger] pre.groups@[gj]).id == gr;
                assert(post.groups@[gj].id == gr);
            },
        }
    }
    assert(post.grants_wf());
    assert forall|a: int, b: int|
        #![trigger post.log@[a], post.log@[b]]
        0 <= a < b < post.log@.len() implies post.log@[a].timestamp >= post.log@[b].timestamp by {
        assert(pre.log@[a] == post.log@[a]);
        assert(pre.log@[b] == post.log@[b]);
    }
    assert(post.log_wf());
}

/// The four cascading selections of a user hard-delete leave the store
/// well-formed.
proof fn lemma_wf_after_delete_user(pre: Store, post: Store, u: UserId)
    requires
        pre.wf(),
        post.users@ == pre.users@.filter(user_not(u)),
        post.groups@ == pre.groups@,
        post.memberships@ == pre.memberships@.filter(membership_not_user(u)),
        post.grants@ == pre.grants@.filter(grant_not_principal(Principal::User(u))),
        post.log@ == pre.log@.map_values(detach_user(u)),
    ensures
        post.wf(),
{
    // users: pairwise distinctness survives the selection
    let rel_u = (|a: UserRow, b: UserRow|
        a.id != b.id && a.email@ != b.email@ && ((a.username is Some && b.username is Some)
            ==> a.username.unwrap()@ != b.username.unwrap()@));
    assert forall|a: int, b: int| 0 <= a < b < pre.users@.len() implies #[trigger] rel_u(
        pre.users@[a],
        pre.users@[b],
    ) by {
        let x = pre.users@[a];
        let y = pre.users@[b];
    }
    lemma_filter_pairwise(pre.users@, user_not(u), rel_u);
    assert forall|a: int, b: int|
        #![trigger post.users@[a], post.users@[b]]
        0 <= a < b < post.users@.len() implies post.users@[a].id != post.users@[b].id
        && post.users@[a].email@ != post.users@[b].email@ && ((post.users@[a].username is Some
        && post.users@[b].username is Some) ==> post.users@[a].username.unwrap()@ != post.users@[b].username.unwrap()@) by {
        assert(rel_u(post.users@[a], post.users@[b]));
    }
    assert(post.users_wf());
    // groups untouched
    assert forall|a: int, b: int|
        #![trigger post.groups@[a], post.groups@[b]]
        0 <= a < b < post.groups@.len() implies post.groups@[a].id != post.groups@[b].id
        && post.groups@[a].display_name@ != post.groups@[b].display_name@ by {
        assert(pre.groups@[a] == post.groups@[a]);
        assert(pre.groups@[b] == post.groups@[b]);
    }
    assert(post.groups_wf());
    // memberships: pairwise uniqueness survives
    let rel_m = (|a: GroupMembershipRow, b: GroupMembershipRow|
        !(a.group_id == b.group_id && a.user_id == b.user_id));
    assert forall|a: int, b: int| 0 <= a < b < pre.memberships@.len() implies #[trigger] rel_m(
        pre.memberships@[a],
        pre.memberships@[b],
    ) by {
        let x = pre.memberships@[a];
        let y = pre.memberships@[b];
    }
    lemma_filter_pairwise(pre.memberships@, membership_not_user(u), rel_m);
    assert forall|a: int, b: int|
        #![trigger post.memberships@[a], post.memberships@[b]]
        0 <= a < b < post.memberships@.len() implies !(post.memberships@[a].group_id
        == post.memberships@[b].group_id && post.memberships@[a].user_id == post.memberships@[b].user_id) by {
        assert(rel_m(post.memberships@[a], post.memberships@[b]));
    }
    // memberships: referential integrity survives
    assert forall|a: int| 0 <= a < post.memberships@.len() implies post.has_group(
        (#[trigger] post.memberships@[a]).group_id,
    ) && post.has_user(post.memberships@[a].user_id) by {
        lemma_filter_elem_of(pre.memberships@, membership_not_user(u), a);
        let o = choose|o: int|
            0 <= o < pre.memberships@.len() && #[trigger] pre.memberships@[o]
                == post.memberships@[a];
        let m = pre.memberships@[o];
        assert(membership_not_user(u)(post.memberships@[a]));
        assert(m.user_id != u);
        assert(pre.has_group(m.group_id));
        assert(pre.has_user(m.user_id));
        let gj = choose|gj: int|
            0 <= gj < pre.groups@.len() && (#[trigger] pre.groups@[gj]).id == m.group_id;
        assert(post.groups@[gj].id == m.group_id);
        let uj = choose|uj: int|
            0 <= uj < pre.users@.len() && (#[trigger] pre.users@[uj]).id == m.user_id;
        assert(user_not(u)(pre.users@[uj]));
        assert(pre.users@.filter(user_not(u)).contains(pre.users@[uj]));
        let uk = choose|uk: int| 0 <= uk < post.users@.len() && post.users@[uk] == pre.users@[uj];
        assert(post.users@[uk].id == m.user_id);
    }
    assert(post.memberships_wf());
    // grants: order and distinctness survive
    let rel_g = (|a: GrantRow, b: GrantRow|
        key_le(grant_key(a), grant_key(b)) && !key_le(grant_key(b), grant_key(a)));
    assert forall|a: int, b: int| 0 <= a < b < pre.grants@.len() implies #[trigger] rel_g(
        pre.grants@[a],
        pre.grants@[b],
    ) by {
        assert(pre.grant_keys()[a] == grant_key(pre.grants@[a]));
        assert(pre.grant_keys()[b] == grant_key(pre.grants@[b]));
        assert(key_le(pre.grant_keys()[a], pre.grant_keys()[b]) && !key_le(
            pre.grant_keys()[b],
            pre.grant_keys()[a],
        ));
    }
    lemma_filter_pairwise(pre.grants@, grant_not_principal(Principal::User(u)), rel_g);
    assert forall|a: int, b: int|
        #![trigger post.grant_keys()[a], post.grant_keys()[b]]
        0 <= a < b < post.grant_keys().len() implies key_le(
        post.grant_keys()[a],
        post.grant_keys()[b],
    ) && !key_le(post.grant_keys()[b], post.grant_keys()[a]) by {
        assert(rel_g(post.grants@[a], post.grants@[b]));
        assert(post.grant_keys()[a] == grant_key(post.grants@[a]));
        assert(post.grant_keys()[b] == grant_key(post.grants@[b]));
    }
    // grants: referential integrity survives
    assert forall|a: int| 0 <= a < post.grants@.len() implies post.principal_exists(
        (#[trigger] post.grants@[a]).principal,
    ) by {
        lemma_filter_elem_of(pre.grants@, grant_not_principal(Principal::User(u)), a);
        let o = choose|o: int|
            0 <= o < pre.grants@.len() && #[trigger] pre.grants@[o] == post.grants@[a];
        let row = pre.grants@[o];
        assert(grant_not_principal(Principal::User(u))(post.grants@[a]));
        assert(row.principal != Principal::User(u));
        assert(pre.principal_exists(row.principal));
        match row.principal {
            Principal::User(v) => {
                let uj = choose|uj: int|
                    0 <= uj < pre.users@.len() && (#[trigger] pre.users@[uj]).id == v;
                assert(user_not(u)(pre.users@[uj]));
                assert(pre.users@.filter(user_not(u)).contains(pre.users@[uj]));
                let uk = choose|uk: int|
                    0 <= uk < post.users@.len() && post.users@[uk] == pre.users@[uj];
                assert(post.users@[uk].id == v);
            },
            Principal::Group(gr) => {
                let gj = choose|gj: int|
                    0 <= gj < pre.groups@.len() && (#[trigger] pre.groups@[gj]).id == gr;
                assert(post.groups@[gj].id == gr);
            },
        }
    }
    assert(post.grants_wf());
    // log: the mapping keeps every timestamp in place
    assert forall|a: int, b: int|
        #![trigger post.log@[a], post.log@[b]]
        0 <= a < b < post.log@.len() implies post.log@[a].timestamp >= post.log@[b].timestamp by {
        assert(post.log@[a] == detach_user(u)(pre.log@[a]));
        assert(post.log@[b] == detach_user(u)(pre.log@[b]));
        assert(post.log@[a].timestamp == pre.log@[a].timestamp);
        assert(post.log@[b].timestamp == pre.log@[b].timestamp);
        assert(pre.log@[a].timestamp >= pre.log@[b].timestamp);
    }
    assert(post.log_wf());
}

} // verus!
