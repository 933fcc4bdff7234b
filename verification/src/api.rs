use vstd::prelude::*;
use crate::group_id::GroupId;
use crate::groups::GroupRow;
use crate::grants::{in_scope, Principal};
use crate::members::{active_groups_of, membership_not_pair, GroupMembershipRow};
use crate::roles::AccessRoleRow;
use crate::store::Store;
use crate::text_order::text_le;
use crate::user_id::UserId;
use crate::users::UserRow;
use crate::uuid_text::uuid_value_of;
use crate::AuthError;

verus! {

/// A user record as the boundary returns it (the lifecycle flag stays
/// internal).
#[derive(Debug)]
pub struct User {
    pub id: UserId,
    pub username: Option<String>,
    pub email: String,
    pub details: Option<String>,
}

/// What the boundary shows of a user row.
pub open spec fn user_view(row: UserRow) -> User {
    User { id: row.id, username: row.username, email: row.email, details: row.details }
}

impl From<UserRow> for User {
    fn from(row: UserRow) -> (r: Self) {
        User { id: row.id, username: row.username, email: row.email, details: row.details }
    }
}

impl vstd::std_specs::convert::FromSpecImpl<UserRow> for User {
    open spec fn obeys_from_spec() -> bool {
        true
    }

    open spec fn from_spec(row: UserRow) -> Self {
        user_view(row)
    }
}

/// A group summary as the boundary returns it.
#[derive(Debug)]
pub struct Group {
    pub id: GroupId,
    pub name: String,
}

/// What the boundary shows of a group row.
pub open spec fn group_view(row: GroupRow) -> Group {
    Group { id: row.id, name: row.display_name }
}

impl From<GroupRow> for Group {
    fn from(row: GroupRow) -> (r: Self) {
        Group { id: row.id, name: row.display_name }
    }
}

impl vstd::std_specs::convert::FromSpecImpl<GroupRow> for Group {
    open spec fn obeys_from_spec() -> bool {
        true
    }

    open spec fn from_spec(row: GroupRow) -> Self {
        group_view(row)
    }
}

/// A role name as the boundary returns it.
#[derive(Debug)]
pub struct Role {
    pub name: String,
}

/// What the boundary shows of a global role row.
pub open spec fn role_view(row: AccessRoleRow) -> Role {
    Role { name: row.role_name }
}

impl From<AccessRoleRow> for Role {
    fn from(row: AccessRoleRow) -> (r: Self) {
        Role { name: row.role_name }
    }
}

impl vstd::std_specs::convert::FromSpecImpl<AccessRoleRow> for Role {
    open spec fn obeys_from_spec() -> bool {
        true
    }

    open spec fn from_spec(row: AccessRoleRow) -> Self {
        role_view(row)
    }
}

/// The body of a leave-group request: the group identifier, still as text.
#[derive(Debug)]
pub struct LeaveGroupContent {
    pub group_id: String,
}

impl Clone for LeaveGroupContent {
    fn clone(&self) -> (r: Self)
        ensures
            r == *self,
    {
        LeaveGroupContent { group_id: self.group_id.clone() }
    }
}

/// The authenticated caller's own record, or nothing when the principal is
/// unknown.
pub fn self_profile(store: &Store, auth_user: UserId) -> (r: Option<User>)
    requires
        store.wf(),
    ensures
        r == match store.spec_user(auth_user) {
            Some(row) => Some(user_view(row)),
            None => None::<User>,
        },
{
    match UserRow::get(store, auth_user) {
        Some(row) => Some(User::from(row)),
        None => None,
    }
}

/// The authenticated caller's groups: summaries of the active groups the
/// caller belongs to, in membership insertion order.
#[verifier::loop_isolation(false)]
pub fn self_groups(store: &Store, auth_user: UserId) -> (r: Vec<Group>)
    requires
        store.wf(),
    ensures
        r@.len() == active_groups_of(*store, store.memberships@, auth_user).len(),
        forall|i: int|
            0 <= i < r@.len() ==> #[trigger] r@[i] == group_view(
                active_groups_of(*store, store.memberships@, auth_user)[i],
            ),
{
    let gs = GroupMembershipRow::groups_for_user(store, auth_user);
    let ghost ags = active_groups_of(*store, store.memberships@, auth_user);
    let n = gs.len();
    let mut out: Vec<Group> = Vec::new();
    let mut i: usize = 0;
    while i < n
        invariant
            i <= n,
            out@.len() == i,
            forall|j: int| 0 <= j < i ==> #[trigger] out@[j] == group_view(ags[j]),
        decreases n - i,
    {
        let g = &gs[i];
        out.push(Group { id: g.id, name: g.display_name.clone() });
        i = i + 1;
    }
    out
}

/// The authenticated caller's global role names, ascending.
#[verifier::loop_isolation(false)]
pub fn self_permissions(store: &Store, auth_user: UserId) -> (r: Vec<Role>)
    requires
        store.wf(),
    ensures
        r@.len() == store.grants@.filter(
            in_scope(Principal::User(auth_user), "global"@, "global"@),
        ).len(),
        forall|i: int|
            0 <= i < r@.len() ==> (#[trigger] r@[i]).name == store.grants@.filter(
                in_scope(Principal::User(auth_user), "global"@, "global"@),
            )[i].role_name,
        forall|i: int, j: int|
            0 <= i < j < r@.len() ==> text_le((#[trigger] r@[i]).name@, (#[trigger] r@[j]).name@)
                && r@[i].name@ != r@[j].name@,
{
    let rs = AccessRoleRow::roles(store, auth_user);
    let ghost f = store.grants@.filter(in_scope(Principal::User(auth_user), "global"@, "global"@));
    let n = rs.len();
    let mut out: Vec<Role> = Vec::new();
    let mut i: usize = 0;
    while i < n
        invariant
            i <= n,
            out@.len() == i,
            forall|j: int| 0 <= j < i ==> (#[trigger] out@[j]).name == f[j].role_name,
        decreases n - i,
    {
        let role = &rs[i];
        out.push(Role { name: role.role_name.clone() });
        i = i + 1;
    }
    proof {
        assert forall|a: int, b: int| 0 <= a < b < out@.len() implies text_le(
            (#[trigger] out@[a]).name@,
            (#[trigger] out@[b]).name@,
        ) && out@[a].name@ != out@[b].name@ by {
            assert((#[trigger] rs@[a]).role_name == f[a].role_name);
            assert((#[trigger] rs@[b]).role_name == f[b].role_name);
            assert(text_le(rs@[a].role_name@, rs@[b].role_name@) && rs@[a].role_name@ != rs@[
            b].role_name@);
        }
    }
    out
}

/// Deactivates the authenticated caller's own record; a successful no-op on
/// an unknown principal.
pub fn self_deactivate(store: &mut Store, auth_user: UserId)
    requires
        old(store).wf(),
    ensures
        final(store).wf(),
        final(store).groups@ == old(store).groups@,
        final(store).memberships@ == old(store).memberships@,
        final(store).grants@ == old(store).grants@,
        final(store).log@ == old(store).log@,
        !old(store).has_user(auth_user) ==> final(store).users@ == old(store).users@,
        old(store).has_user(auth_user) ==> crate::users::user_row_updated(
            *old(store),
            *final(store),
            old(store).user_idx(auth_user),
        ) && final(store).users@[old(store).user_idx(auth_user)].active == false,
{
    UserRow::deactivate(store, auth_user)
}

/// Removes the authenticated caller from the group named by the request
/// body; text that does not parse as a group identifier is rejected, and an
/// absent membership is a successful no-op.
pub fn self_leave_group(store: &mut Store, auth_user: UserId, payload: &LeaveGroupContent) -> (r:
    Result<(), AuthError>)
    requires
        old(store).wf(),
    ensures
        final(store).wf(),
        final(store).users@ == old(store).users@,
        final(store).groups@ == old(store).groups@,
        final(store).grants@ == old(store).grants@,
        final(store).log@ == old(store).log@,
        match r {
            Ok(()) => uuid_value_of(payload.group_id@) is Some && final(store).memberships@ == old(
                store,
            ).memberships@.filter(
                membership_not_pair(
                    GroupId(uuid_value_of(payload.group_id@).unwrap()),
                    auth_user,
                ),
            ) && !final(store).spec_is_member(
                GroupId(uuid_value_of(payload.group_id@).unwrap()),
                auth_user,
            ),
            Err(e) => e == AuthError::MalformedIdentifier && uuid_value_of(payload.group_id@)
                is None && *final(store) == *old(store),
        },
{
    match GroupId::from_text(payload.group_id.as_str()) {
        Ok(gid) => {
            GroupMembershipRow::remove_member(store, gid, auth_user);
            Ok(())
        },
        Err(_) => Err(AuthError::MalformedIdentifier),
    }
}

} // verus!
