use vstd::prelude::*;
use crate::grants::{
    allow_post, grant_key, in_scope, key_le, of_principal, revoke_post, GrantRow, Principal,
};
use crate::group_id::GroupId;
use crate::store::Store;
use crate::text_order::text_le;
use crate::user_id::UserId;
use crate::AuthError;

verus! {

/// A scope triple: scope kind, scope id, role name.
pub type RoleTriple = (Seq<char>, Seq<char>, Seq<char>);

/// Lexicographic order on scope triples, matching the grant key order within
/// one principal.
pub open spec fn triple_le(a: RoleTriple, b: RoleTriple) -> bool {
    if a.0 != b.0 {
        text_le(a.0, b.0)
    } else if a.1 != b.1 {
        text_le(a.1, b.1)
    } else {
        text_le(a.2, b.2)
    }
}

pub open spec fn grant_triple(g: GrantRow) -> RoleTriple {
    (g.scope@, g.scope_id@, g.role_name@)
}

/// One scoped role grant of a user, as callers see it.
#[derive(Debug)]
pub struct UserRoleRow {
    pub user_id: UserId,
    pub scope: String,
    pub scope_id: String,
    pub role_name: String,
}

impl Clone for UserRoleRow {
    fn clone(&self) -> (r: Self)
        ensures
            r == *self,
    {
        UserRoleRow {
            user_id: self.user_id,
            scope: self.scope.clone(),
            scope_id: self.scope_id.clone(),
            role_name: self.role_name.clone(),
        }
    }
}

pub open spec fn user_role_triple(r: UserRoleRow) -> RoleTriple {
    (r.scope@, r.scope_id@, r.role_name@)
}

impl UserRoleRow {
    pub fn new(user_id: UserId, scope: &str, scope_id: &str, role_name: &str) -> (r: Self)
        ensures
            r.user_id == user_id,
            r.scope@ == scope@,
            r.scope_id@ == scope_id@,
            r.role_name@ == role_name@,
    {
        UserRoleRow {
            user_id,
            scope: String::from_str(scope),
            scope_id: String::from_str(scope_id),
            role_name: String::from_str(role_name),
        }
    }

    pub fn table_name() -> (r: &'static str)
        ensures
            r@ == "auth.user_roles"@,
    {
        "auth.user_roles"
    }

    pub fn columns() -> (r: &'static str)
        ensures
            r@ == "user_id, scope, scope_id, role_name"@,
    {
        "user_id, scope, scope_id, role_name"
    }

    /// Idempotent insert of the grant this row describes.
    pub fn allow(store: &mut Store, row: &UserRoleRow) -> (r: Result<(), AuthError>)
        requires
            old(store).wf(),
        ensures
            match r {
                Ok(()) => old(store).has_user(row.user_id) && allow_post(
                    *old(store),
                    *final(store),
                    (Principal::User(row.user_id), row.scope@, row.scope_id@, row.role_name@),
                ),
                Err(e) => e == AuthError::NotFound && !old(store).has_user(row.user_id) && *final(store) == *old(store),
            },
    {
        store.allow(
            Principal::User(row.user_id),
            row.scope.as_str(),
            row.scope_id.as_str(),
            row.role_name.as_str(),
        )
    }

    /// Idempotent delete of the grant this row describes.
    pub fn revoke(store: &mut Store, row: &UserRoleRow)
        requires
            old(store).wf(),
        ensures
            revoke_post(
                *old(store),
                *final(store),
                (Principal::User(row.user_id), row.scope@, row.scope_id@, row.role_name@),
            ),
    {
        store.revoke(
            Principal::User(row.user_id),
            row.scope.as_str(),
            row.scope_id.as_str(),
            row.role_name.as_str(),
        )
    }

    /// Existence check for one grant tuple of a user.
    pub fn has_role(
        store: &Store,
        user_id: UserId,
        scope: &str,
        scope_id: &str,
        role_name: &str,
    ) -> (r: bool)
        ensures
            r == store.spec_has_grant(
                (Principal::User(user_id), scope@, scope_id@, role_name@),
            ),
    {
        store.has_role(Principal::User(user_id), scope, scope_id, role_name)
    }

    /// Every grant of the user, ordered ascending by
    /// (scope, scope id, role name).
    #[verifier::loop_isolation(false)]
    pub fn roles(store: &Store, user_id: UserId) -> (r: Vec<UserRoleRow>)
        requires
            store.wf(),
        ensures
            r@.len() == store.grants@.filter(of_principal(Principal::User(user_id))).len(),
            forall|i: int|
                0 <= i < r@.len() ==> (#[trigger] r@[i]).user_id == user_id && r@[i].scope
                    == store.grants@.filter(of_principal(Principal::User(user_id)))[i].scope && r@[i].scope_id == store.grants@.filter(of_principal(Principal::User(user_id)))[
                    i
                ].scope_id && r@[i].role_name == store.grants@.filter(
                    of_principal(Principal::User(user_id)),
                )[i].role_name,
            forall|i: int, j: int|
                0 <= i < j < r@.len() ==> triple_le(
                    user_role_triple(#[trigger] r@[i]),
                    user_role_triple(#[trigger] r@[j]),
                ) && user_role_triple(r@[i]) != user_role_triple(r@[j]),
    {
        let ghost p = Principal::User(user_id);
        let g = store.roles(Principal::User(user_id));
        let ghost f = store.grants@.filter(of_principal(p));
        let n = g.len();
        let mut out: Vec<UserRoleRow> = Vec::new();
        let mut i: usize = 0;
        while i < n
            invariant
                i <= n,
                out@.len() == i,
                forall|j: int|
                    0 <= j < i ==> (#[trigger] out@[j]).user_id == user_id && out@[j].scope == f[j].scope && out@[j].scope_id == f[j].scope_id && out@[j].role_name == f[j].role_name,
            decreases n - i,
        {
            let gr = &g[i];
            out.push(
                UserRoleRow {
                    user_id,
                    scope: gr.scope.clone(),
                    scope_id: gr.scope_id.clone(),
                    role_name: gr.role_name.clone(),
                },
            );
            i = i + 1;
        }
        proof {
            assert forall|a: int, b: int| 0 <= a < b < out@.len() implies triple_le(
                user_role_triple(#[trigger] out@[a]),
                user_role_triple(#[trigger] out@[b]),
            ) && user_role_triple(out@[a]) != user_role_triple(out@[b]) by {
                assert(key_le(grant_key(f[a]), grant_key(f[b])) && grant_key(f[a]) != grant_key(
                    f[b],
                ));
                assert(f[a].principal == p);
                assert(f[b].principal == p);
                assert(user_role_triple(out@[a]) == grant_triple(f[a]));
                assert(user_role_triple(out@[b]) == grant_triple(f[b]));
                if grant_triple(f[a]) == grant_triple(f[b]) {
                    assert(grant_key(f[a]) =~= grant_key(f[b]));
                }
            }
        }
        out
    }

    /// The user's grants narrowed to one scope instance, ordered ascending by
    /// role name.
    #[verifier::loop_isolation(false)]
    pub fn roles_in_scope(store: &Store, user_id: UserId, scope: &str, scope_id: &str) -> (r: Vec<
        UserRoleRow,
    >)
        requires
            store.wf(),
        ensures
            r@.len() == store.grants@.filter(
                in_scope(Principal::User(user_id), scope@, scope_id@),
            ).len(),
            forall|i: int|
                0 <= i < r@.len() ==> (#[trigger] r@[i]).user_id == user_id && r@[i].scope@
                    == scope@ && r@[i].scope_id@ == scope_id@ && r@[i].role_name == store.grants@.filter(
                    in_scope(Principal::User(user_id), scope@, scope_id@),
                )[i].role_name,
            forall|i: int, j: int|
                0 <= i < j < r@.len() ==> text_le(
                    (#[trigger] r@[i]).role_name@,
                    (#[trigger] r@[j]).role_name@,
                ) && r@[i].role_name@ != r@[j].role_name@,
    {
        let ghost p = Principal::User(user_id);
        let g = store.roles_in_scope(Principal::User(user_id), scope, scope_id);
        let ghost f = store.grants@.filter(in_scope(p, scope@, scope_id@));
        let n = g.len();
        let mut out: Vec<UserRoleRow> = Vec::new();
        let mut i: usize = 0;
        while i < n
            invariant
                i <= n,
                out@.len() == i,
                forall|j: int|
                    0 <= j < i ==> (#[trigger] out@[j]).user_id == user_id && out@[j].scope == f[j].scope && out@[j].scope_id == f[j].scope_id && out@[j].role_name == f[j].role_name,
            decreases n - i,
        {
            let gr = &g[i];
            out.push(
                UserRoleRow {
                    user_id,
                    scope: gr.scope.clone(),
                    scope_id: gr.scope_id.clone(),
                    role_name: gr.role_name.clone(),
                },
            );
            i = i + 1;
        }
        out
    }
}

/// One scoped role grant of a group, as callers see it.
#[derive(Debug)]
pub struct GroupRoleRow {
    pub group_id: GroupId,
    pub scope: String,
    pub scope_id: String,
    pub role_name: String,
}

impl Clone for GroupRoleRow {
    fn clone(&self) -> (r: Self)
        ensures
            r == *self,
    {
        GroupRoleRow {
            group_id: self.group_id,
            scope: self.scope.clone(),
            scope_id: self.scope_id.clone(),
            role_name: self.role_name.clone(),
        }
    }
}

pub open spec fn group_role_triple(r: GroupRoleRow) -> RoleTriple {
    (r.scope@, r.scope_id@, r.role_name@)
}

impl GroupRoleRow {
    pub fn new(group_id: GroupId, scope: &str, scope_id: &str, role_name: &str) -> (r: Self)
        ensures
            r.group_id == group_id,
            r.scope@ == scope@,
            r.scope_id@ == scope_id@,
            r.role_name@ == role_name@,
    {
        GroupRoleRow {
            group_id,
            scope: String::from_str(scope),
            scope_id: String::from_str(scope_id),
            role_name: String::from_str(role_name),
        }
    }

    pub fn table_name() -> (r: &'static str)
        ensures
            r@ == "auth.group_roles"@,
    {
        "auth.group_roles"
    }

    pub fn columns() -> (r: &'static str)
        ensures
            r@ == "group_id, scope, scope_id, role_name"@,
    {
        "group_id, scope, scope_id, role_name"
    }

    /// Idempotent insert of the grant this row describes.
    pub fn allow(store: &mut Store, row: &GroupRoleRow) -> (r: Result<(), AuthError>)
        requires
            old(store).wf(),
        ensures
            match r {
                Ok(()) => old(store).has_group(row.group_id) && allow_post(
                    *old(store),
                    *final(store),
                    (Principal::Group(row.group_id), row.scope@, row.scope_id@, row.role_name@),
                ),
                Err(e) => e == AuthError::NotFound && !old(store).has_group(row.group_id) && *final(store) == *old(store),
            },
    {
        store.allow(
            Principal::Group(row.group_id),
            row.scope.as_str(),
            row.scope_id.as_str(),
            row.role_name.as_str(),
        )
    }

    /// Idempotent delete of the grant this row describes.
    pub fn revoke(store: &mut Store, row: &GroupRoleRow)
        requires
            old(store).wf(),
        ensures
            revoke_post(
                *old(store),
                *final(store),
                (Principal::Group(row.group_id), row.scope@, row.scope_id@, row.role_name@),
            ),
    {
        store.revoke(
            Principal::Group(row.group_id),
            row.scope.as_str(),
            row.scope_id.as_str(),
            row.role_name.as_str(),
        )
    }

    /// Existence check for one grant tuple of a group.
    pub fn has_role(
        store: &Store,
        group_id: GroupId,
        scope: &str,
        scope_id: &str,
        role_name: &str,
    ) -> (r: bool)
        ensures
            r == store.spec_has_grant(
                (Principal::Group(group_id), scope@, scope_id@, role_name@),
            ),
    {
        store.has_role(Principal::Group(group_id), scope, scope_id, role_name)
    }

    /// Every grant of the group, ordered ascending by
    /// (scope, scope id, role name).
    #[verifier::loop_isolation(false)]
    pub fn roles(store: &Store, group_id: GroupId) -> (r: Vec<GroupRoleRow>)
        requires
            store.wf(),
        ensures
            r@.len() == store.grants@.filter(of_principal(Principal::Group(group_id))).len(),
            forall|i: int|
                0 <= i < r@.len() ==> (#[trigger] r@[i]).group_id == group_id && r@[i].scope
                    == store.grants@.filter(of_principal(Principal::Group(group_id)))[i].scope
                    && r@[i].scope_id == store.grants@.filter(
                    of_principal(Principal::Group(group_id)),
                )[i].scope_id && r@[i].role_name == store.grants@.filter(
                    of_principal(Principal::Group(group_id)),
                )[i].role_name,
            forall|i: int, j: int|
                0 <= i < j < r@.len() ==> triple_le(
                    group_role_triple(#[trigger] r@[i]),
                    group_role_triple(#[trigger] r@[j]),
                ) && group_role_triple(r@[i]) != group_role_triple(r@[j]),
    {
        let ghost p = Principal::Group(group_id);
        let g = store.roles(Principal::Group(group_id));
        let ghost f = store.grants@.filter(of_principal(p));
        let n = g.len();
        let mut out: Vec<GroupRoleRow> = Vec::new();
        let mut i: usize = 0;
        while i < n
            invariant
                i <= n,
                out@.len() == i,
                forall|j: int|
                    0 <= j < i ==> (#[trigger] out@[j]).group_id == group_id && out@[j].scope == f[j].scope && out@[j].scope_id == f[j].scope_id && out@[j].role_name == f[j].role_name,
            decreases n - i,
        {
            let gr = &g[i];
            out.push(
                GroupRoleRow {
                    group_id,
                    scope: gr.scope.clone(),
                    scope_id: gr.scope_id.clone(),
                    role_name: gr.role_name.clone(),
                },
            );
            i = i + 1;
        }
        proof {
            assert forall|a: int, b: int| 0 <= a < b < out@.len() implies triple_le(
                group_role_triple(#[trigger] out@[a]),
                group_role_triple(#[trigger] out@[b]),
            ) && group_role_triple(out@[a]) != group_role_triple(out@[b]) by {
                assert(key_le(grant_key(f[a]), grant_key(f[b])) && grant_key(f[a]) != grant_key(
                    f[b],
                ));
                assert(f[a].principal == p);
                assert(f[b].principal == p);
                assert(group_role_triple(out@[a]) == grant_triple(f[a]));
                assert(group_role_triple(out@[b]) == grant_triple(f[b]));
                if grant_triple(f[a]) == grant_triple(f[b]) {
                    assert(grant_key(f[a]) =~= grant_key(f[b]));
                }
            }
        }
        out
    }

    /// The group's grants narrowed to one scope instance, ordered ascending
    /// by role name.
    #[verifier::loop_isolation(false)]
    pub fn roles_in_scope(store: &Store, group_id: GroupId, scope: &str, scope_id: &str) -> (r: Vec<
        GroupRoleRow,
    >)
        requires
            store.wf(),
        ensures
            r@.len() == store.grants@.filter(
                in_scope(Principal::Group(group_id), scope@, scope_id@),
            ).len(),
            forall|i: int|
                0 <= i < r@.len() ==> (#[trigger] r@[i]).group_id == group_id && r@[i].scope@
                    == scope@ && r@[i].scope_id@ == scope_id@ && r@[i].role_name
                    == store.grants@.filter(
                    in_scope(Principal::Group(group_id), scope@, scope_id@),
                )[i].role_name,
            forall|i: int, j: int|
                0 <= i < j < r@.len() ==> text_le(
                    (#[trigger] r@[i]).role_name@,
                    (#[trigger] r@[j]).role_name@,
                ) && r@[i].role_name@ != r@[j].role_name@,
    {
        let ghost p = Principal::Group(group_id);
        let g = store.roles_in_scope(Principal::Group(group_id), scope, scope_id);
        let ghost f = store.grants@.filter(in_scope(p, scope@, scope_id@));
        let n = g.len();
        let mut out: Vec<GroupRoleRow> = Vec::new();
        let mut i: usize = 0;
        while i < n
            invariant
                i <= n,
                out@.len() == i,
                forall|j: int|
                    0 <= j < i ==> (#[trigger] out@[j]).group_id == group_id && out@[j].scope == f[j].scope && out@[j].scope_id == f[j].scope_id && out@[j].role_name == f[j].role_name,
            decreases n - i,
        {
            let gr = &g[i];
            out.push(
                GroupRoleRow {
                    group_id,
                    scope: gr.scope.clone(),
                    scope_id: gr.scope_id.clone(),
                    role_name: gr.role_name.clone(),
                },
            );
            i = i + 1;
        }
        out
    }
}

/// A user's global role, as callers see it: a view over the scoped grant
/// table with the reserved scope pair substituted — never a table of its own.
#[derive(Debug)]
pub struct AccessRoleRow {
    pub user_id: UserId,
    pub role_name: String,
}

impl Clone for AccessRoleRow {
    fn clone(&self) -> (r: Self)
        ensures
            r == *self,
    {
        AccessRoleRow { user_id: self.user_id, role_name: self.role_name.clone() }
    }
}

impl AccessRoleRow {
    pub fn new(user_id: UserId, role_name: &str) -> (r: Self)
        ensures
            r.user_id == user_id,
            r.role_name@ == role_name@,
    {
        AccessRoleRow { user_id, role_name: String::from_str(role_name) }
    }

    /// The same table the scoped grants live in: the global view adds no
    /// storage of its own.
    pub fn table_name() -> (r: &'static str)
        ensures
            r@ == "auth.user_roles"@,
    {
        UserRoleRow::table_name()
    }

    pub fn columns() -> (r: &'static str)
        ensures
            r@ == "user_id, role_name"@,
    {
        "user_id, role_name"
    }

    /// Idempotent insert of a global role: the same row an explicit `allow`
    /// with the reserved scope pair makes.
    pub fn allow(store: &mut Store, row: &AccessRoleRow) -> (r: Result<(), AuthError>)
        requires
            old(store).wf(),
        ensures
            match r {
                Ok(()) => old(store).has_user(row.user_id) && allow_post(
                    *old(store),
                    *final(store),
                    (Principal::User(row.user_id), "global"@, "global"@, row.role_name@),
                ),
                Err(e) => e == AuthError::NotFound && !old(store).has_user(row.user_id) && *final(store) == *old(store),
            },
    {
        store.allow_global(Principal::User(row.user_id), row.role_name.as_str())
    }

    /// Idempotent delete of a global role.
    pub fn revoke(store: &mut Store, row: &AccessRoleRow)
        requires
            old(store).wf(),
        ensures
            revoke_post(
                *old(store),
                *final(store),
                (Principal::User(row.user_id), "global"@, "global"@, row.role_name@),
            ),
    {
        store.revoke_global(Principal::User(row.user_id), row.role_name.as_str())
    }

    /// Existence check for one global role of a user.
    pub fn has_role(store: &Store, user_id: UserId, role_name: &str) -> (r: bool)
        ensures
            r == store.spec_has_grant(
                (Principal::User(user_id), "global"@, "global"@, role_name@),
            ),
    {
        store.has_global_role(Principal::User(user_id), role_name)
    }

    /// The user's global roles, ordered ascending by role name.
    #[verifier::loop_isolation(false)]
    pub fn roles(store: &Store, user_id: UserId) -> (r: Vec<AccessRoleRow>)
        requires
            store.wf(),
        ensures
            r@.len() == store.grants@.filter(
                in_scope(Principal::User(user_id), "global"@, "global"@),
            ).len(),
            forall|i: int|
                0 <= i < r@.len() ==> (#[trigger] r@[i]).user_id == user_id && r@[i].role_name
                    == store.grants@.filter(
                    in_scope(Principal::User(user_id), "global"@, "global"@),
                )[i].role_name,
            forall|i: int, j: int|
                0 <= i < j < r@.len() ==> text_le(
                    (#[trigger] r@[i]).role_name@,
                    (#[trigger] r@[j]).role_name@,
                ) && r@[i].role_name@ != r@[j].role_name@,
    {
        let ghost p = Principal::User(user_id);
        let g = store.global_roles(Principal::User(user_id));
        let ghost f = store.grants@.filter(in_scope(p, "global"@, "global"@));
        let n = g.len();
        let mut out: Vec<AccessRoleRow> = Vec::new();
        let mut i: usize = 0;
        while i < n
            invariant
                i <= n,
                out@.len() == i,
                forall|j: int|
                    0 <= j < i ==> (#[trigger] out@[j]).user_id == user_id && out@[j].role_name
                        == f[j].role_name,
            decreases n - i,
        {
            let gr = &g[i];
            out.push(AccessRoleRow { user_id, role_name: gr.role_name.clone() });
            i = i + 1;
        }
        out
    }
}

} // verus!
