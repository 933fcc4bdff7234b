use vstd::prelude::*;
use crate::group_id::GroupId;
use crate::seq_facts::{
    lemma_filter_elem_of, lemma_filter_pairwise, lemma_insert_contains, lemma_occurrences_distinct,
};
use crate::store::{lemma_principal_exists_same_rows, Store};
use crate::text_order::{
    lemma_text_le_antisym, lemma_text_le_refl, lemma_text_le_total, lemma_text_le_trans, str_le,
    text_le,
};
use crate::user_id::UserId;
use crate::AuthError;

verus! {

/// The holder of a role grant: either a user or a group. The two identifier
/// kinds stay distinct inside the grant table as well.
#[derive(Clone, Copy, Debug, PartialEq, Eq, Structural)]
pub enum Principal {
    User(UserId),
    Group(GroupId),
}

/// One authorization fact: `principal` holds `role_name` within the scope
/// instance `(scope, scope_id)`. Global authorization is the reserved pair
/// `("global", "global")` — data in the same table, not a separate mechanism.
#[derive(Debug)]
pub struct GrantRow {
    pub principal: Principal,
    pub scope: String,
    pub scope_id: String,
    pub role_name: String,
}

impl Clone for GrantRow {
    fn clone(&self) -> (r: Self)
        ensures
            r == *self,
    {
        GrantRow {
            principal: self.principal,
            scope: self.scope.clone(),
            scope_id: self.scope_id.clone(),
            role_name: self.role_name.clone(),
        }
    }
}

/// The composite key of a grant, over the text views of its fields.
pub type GrantKey = (Principal, Seq<char>, Seq<char>, Seq<char>);

pub open spec fn grant_key(g: GrantRow) -> GrantKey {
    (g.principal, g.scope@, g.scope_id@, g.role_name@)
}

/// An arbitrary total order on principals, used only to keep the grant table
/// canonically ordered: users before groups, and within a kind by value.
pub open spec fn principal_le(a: Principal, b: Principal) -> bool {
    match (a, b) {
        (Principal::User(x), Principal::User(y)) => x.0 <= y.0,
        (Principal::User(_), Principal::Group(_)) => true,
        (Principal::Group(_), Principal::User(_)) => false,
        (Principal::Group(x), Principal::Group(y)) => x.0 <= y.0,
    }
}

/// Lexicographic order on grant keys: principal, then scope kind, then scope
/// id, then role name; the text components in ascending text order.
pub open spec fn key_le(a: GrantKey, b: GrantKey) -> bool {
    if a.0 != b.0 {
        principal_le(a.0, b.0)
    } else if a.1 != b.1 {
        text_le(a.1, b.1)
    } else if a.2 != b.2 {
        text_le(a.2, b.2)
    } else {
        text_le(a.3, b.3)
    }
}

pub proof fn lemma_key_le_refl(a: GrantKey)
    ensures
        key_le(a, a),
{
    lemma_text_le_refl(a.3);
}

pub proof fn lemma_key_le_total(a: GrantKey, b: GrantKey)
    ensures
        key_le(a, b) || key_le(b, a),
{
    if a.0 == b.0 {
        if a.1 == b.1 {
            if a.2 == b.2 {
                lemma_text_le_total(a.3, b.3);
            } else {
                lemma_text_le_total(a.2, b.2);
            }
        } else {
            lemma_text_le_total(a.1, b.1);
        }
    }
}

pub proof fn lemma_key_le_antisym(a: GrantKey, b: GrantKey)
    requires
        key_le(a, b),
        key_le(b, a),
    ensures
        a == b,
{
    if a.0 == b.0 {
        if a.1 == b.1 {
            if a.2 == b.2 {
                lemma_text_le_antisym(a.3, b.3);
                assert(a =~= b);
            } else {
                lemma_text_le_antisym(a.2, b.2);
            }
        } else {
            lemma_text_le_antisym(a.1, b.1);
        }
    }
}

pub proof fn lemma_key_le_trans(a: GrantKey, b: GrantKey, c: GrantKey)
    requires
        key_le(a, b),
        key_le(b, c),
    ensures
        key_le(a, c),
{
    if a.0 == b.0 && b.0 == c.0 {
        if a.1 == b.1 && b.1 == c.1 {
            if a.2 == b.2 && b.2 == c.2 {
                lemma_text_le_trans(a.3, b.3, c.3);
            } else if a.2 == c.2 {
                // a.2 == c.2 but the middle differs: both directions around b.2
                lemma_text_le_antisym(a.2, b.2);
            } else {
                if a.2 != b.2 && b.2 != c.2 {
                    lemma_text_le_trans(a.2, b.2, c.2);
                }
            }
        } else if a.1 == c.1 {
            lemma_text_le_antisym(a.1, b.1);
        } else {
            if a.1 != b.1 && b.1 != c.1 {
                lemma_text_le_trans(a.1, b.1, c.1);
            }
        }
    } else if a.0 == c.0 {
        // the principal went away and came back: only possible if it never moved
        if a.0 != b.0 {
            assert(principal_le(a.0, b.0));
            assert(principal_le(b.0, a.0));
            assert(a.0 == b.0);
        }
    }
}

/// Compares two grant keys given as plain parts; the result is exactly
/// `key_le` of the corresponding key tuples.
pub fn key_le_exec(
    ap: Principal,
    a1: &str,
    a2: &str,
    a3: &str,
    bp: Principal,
    b1: &str,
    b2: &str,
    b3: &str,
) -> (r: bool)
    ensures
        r == key_le((ap, a1@, a2@, a3@), (bp, b1@, b2@, b3@)),
{
    if ap != bp {
        return match (ap, bp) {
            (Principal::User(x), Principal::User(y)) => x.0 <= y.0,
            (Principal::User(_), Principal::Group(_)) => true,
            (Principal::Group(_), Principal::User(_)) => false,
            (Principal::Group(x), Principal::Group(y)) => x.0 <= y.0,
        };
    }
    let le1 = str_le(a1, b1);
    let ge1 = str_le(b1, a1);
    if !(le1 && ge1) {
        proof {
            lemma_text_le_refl(a1@);
        }
        return le1;
    }
    proof {
        lemma_text_le_antisym(a1@, b1@);
    }
    let le2 = str_le(a2, b2);
    let ge2 = str_le(b2, a2);
    if !(le2 && ge2) {
        proof {
            lemma_text_le_refl(a2@);
        }
        return le2;
    }
    proof {
        lemma_text_le_antisym(a2@, b2@);
    }
    str_le(a3, b3)
}

/// Keeps every grant row whose key differs from `k`.
pub open spec fn not_key(k: GrantKey) -> spec_fn(GrantRow) -> bool {
    |g: GrantRow| grant_key(g) != k
}

/// Keeps every grant row whose principal differs from `p`.
pub open spec fn grant_not_principal(p: Principal) -> spec_fn(GrantRow) -> bool {
    |g: GrantRow| g.principal != p
}

/// Keeps every grant row held by `p`.
pub open spec fn of_principal(p: Principal) -> spec_fn(GrantRow) -> bool {
    |g: GrantRow| g.principal == p
}

/// Keeps every grant row held by `p` within one scope instance.
pub open spec fn in_scope(p: Principal, scope: Seq<char>, scope_id: Seq<char>) -> spec_fn(
    GrantRow,
) -> bool {
    |g: GrantRow| g.principal == p && g.scope@ == scope && g.scope_id@ == scope_id
}

/// What a successful `allow` of key `k` does to the store: afterwards the
/// grant is present exactly once, nothing else changed in the grant set, a
/// grant that was already present leaves the relation untouched, and no other
/// relation moves.
pub open spec fn allow_post(pre: Store, post: Store, k: GrantKey) -> bool {
    &&& post.wf()
    &&& post.spec_has_grant(k)
    &&& post.grant_count(k) == 1
    &&& forall|k2: GrantKey| #[trigger]
        post.spec_has_grant(k2) <==> pre.spec_has_grant(k2) || k2 == k
    &&& (pre.spec_has_grant(k) ==> post.grants@ == pre.grants@)
    &&& post.users@ == pre.users@
    &&& post.groups@ == pre.groups@
    &&& post.memberships@ == pre.memberships@
    &&& post.log@ == pre.log@
}

/// What `revoke` of key `k` does to the store: the rows whose key differs
/// stay, in their order; the key is gone; no other relation moves.
pub open spec fn revoke_post(pre: Store, post: Store, k: GrantKey) -> bool {
    &&& post.wf()
    &&& post.grants@ == pre.grants@.filter(not_key(k))
    &&& !post.spec_has_grant(k)
    &&& forall|k2: GrantKey| #[trigger]
        post.spec_has_grant(k2) <==> pre.spec_has_grant(k2) && k2 != k
    &&& (!pre.spec_has_grant(k) ==> post.grants@ == pre.grants@)
    &&& post.users@ == pre.users@
    &&& post.groups@ == pre.groups@
    &&& post.memberships@ == pre.memberships@
    &&& post.log@ == pre.log@
}

/// Under `grants_wf`, the keys of distinct grant rows are distinct.
proof fn lemma_grant_keys_distinct(s: Store)
    requires
        s.grants_wf(),
    ensures
        forall|i: int, j: int|
            0 <= i < j < s.grant_keys().len() ==> s.grant_keys()[i] != s.grant_keys()[j],
{
    assert forall|i: int, j: int|
        0 <= i < j < s.grant_keys().len() implies s.grant_keys()[i] != s.grant_keys()[j] by {
        if s.grant_keys()[i] == s.grant_keys()[j] {
            lemma_key_le_refl(s.grant_keys()[i]);
        }
    }
}

/// Whether the key made of the given parts comes strictly before the key of
/// the grant row `g`.
fn key_before_row(p: Principal, s1: &str, s2: &str, s3: &str, g: &GrantRow) -> (r: bool)
    ensures
        r == !key_le((p, s1@, s2@, s3@), grant_key(*g)),
{
    !key_le_exec(
        p,
        s1,
        s2,
        s3,
        g.principal,
        g.scope.as_str(),
        g.scope_id.as_str(),
        g.role_name.as_str(),
    )
}

impl Store {
    /// Existence check for one grant tuple: true exactly when that 4-tuple
    /// stands in the relation.
    pub fn has_role(&self, p: Principal, scope: &str, scope_id: &str, role_name: &str) -> (r: bool)
        ensures
            r == self.spec_has_grant((p, scope@, scope_id@, role_name@)),
    {
        let ghost k: GrantKey = (p, scope@, scope_id@, role_name@);
        let s1 = String::from_str(scope);
        let s2 = String::from_str(scope_id);
        let s3 = String::from_str(role_name);
        let n = self.grants.len();
        let mut i: usize = 0;
        while i < n
            invariant
                i <= n,
                n == self.grants@.len(),
                s1@ == scope@,
                s2@ == scope_id@,
                s3@ == role_name@,
                k == (p, scope@, scope_id@, role_name@),
                forall|j: int| 0 <= j < i ==> #[trigger] self.grant_keys()[j] != k,
            decreases n - i,
        {
            let g = &self.grants[i];
            proof {
                assert(self.grant_keys().len() == self.grants@.len());
                assert(self.grant_keys()[i as int] == grant_key(self.grants@[i as int]));
            }
            if g.principal == p && g.scope == s1 && g.scope_id == s2 && g.role_name == s3 {
                proof {
                    let x = self.grants@[i as int];
                    assert(x.principal == p);
                    assert(x.scope@ == scope@);
                    assert(x.scope_id@ == scope_id@);
                    assert(x.role_name@ == role_name@);
                    assert(grant_key(x) == k);
                }
                return true;
            }
            proof {
                assert(self.grant_keys()[i as int] != k);
            }
            i = i + 1;
        }
        proof {
            if self.spec_has_grant(k) {
                let j = choose|j: int|
                    0 <= j < self.grant_keys().len() && self.grant_keys()[j] == k;
                assert(self.grant_keys()[j] != k);
            }
        }
        false
    }

    /// Idempotent insert of one grant. A grant already held is a successful
    /// no-op; a principal that names no row is refused.
    pub fn allow(&mut self, p: Principal, scope: &str, scope_id: &str, role_name: &str) -> (r:
        Result<(), AuthError>)
        requires
            old(self).wf(),
        ensures
            match r {
                Ok(()) => old(self).principal_exists(p) && allow_post(
                    *old(self),
                    *final(self),
                    (p, scope@, scope_id@, role_name@),
                ),
                Err(e) => e == AuthError::NotFound && !old(self).principal_exists(p) && *final(self)
                    == *old(self),
            },
    {
        let ghost pre = *self;
        let ghost k: GrantKey = (p, scope@, scope_id@, role_name@);
        if !self.principal_present(p) {
            return Err(AuthError::NotFound);
        }
        if self.has_role(p, scope, scope_id, role_name) {
            proof {
                lemma_grant_keys_distinct(pre);
                lemma_occurrences_distinct(pre.grant_keys(), k);
            }
            return Ok(());
        }
        let n = self.grants.len();
        let mut pos: usize = 0;
        while pos < n && key_before_row(p, scope, scope_id, role_name, &self.grants[pos])
            invariant
                pos <= n,
                n == self.grants@.len(),
                *self == pre,
                k == (p, scope@, scope_id@, role_name@),
                forall|j: int| 0 <= j < pos ==> !key_le(k, #[trigger] self.grant_keys()[j]),
            decreases n - pos,
        {
            proof {
                assert(self.grant_keys()[pos as int] == grant_key(self.grants@[pos as int]));
            }
            pos = pos + 1;
        }
        let row = GrantRow {
            principal: p,
            scope: String::from_str(scope),
            scope_id: String::from_str(scope_id),
            role_name: String::from_str(role_name),
        };
        proof {
            assert(grant_key(row) == k);
        }
        self.grants.insert(pos, row);
        proof {
            let ok = pre.grant_keys();
            let nk = self.grant_keys();
            pre.grants@.insert_ensures(pos as int, row);
            ok.insert_ensures(pos as int, k);
            assert(nk =~= ok.insert(pos as int, k)) by {
                assert forall|i: int| 0 <= i < nk.len() implies nk[i] == ok.insert(
                    pos as int,
                    k,
                )[i] by {
                    assert(nk[i] == grant_key(self.grants@[i]));
                    if i < pos as int {
                        assert(self.grants@[i] == pre.grants@[i]);
                        assert(ok[i] == grant_key(pre.grants@[i]));
                    } else if i == pos as int {
                        assert(self.grants@[i] == row);
                    } else {
                        assert(self.grants@[i] == pre.grants@[i - 1]);
                        assert(ok[i - 1] == grant_key(pre.grants@[i - 1]));
                    }
                }
            }
            // no row of the old relation carries `k`
            assert forall|j: int| 0 <= j < ok.len() implies ok[j] != k by {
                if ok[j] == k {
                    assert(pre.spec_has_grant(k));
                }
            }
            // the exit condition of the scan, together with antisymmetry
            if (pos as int) < ok.len() {
                assert(key_le(k, ok[pos as int]));
                assert(!key_le(ok[pos as int], k)) by {
                    if key_le(ok[pos as int], k) {
                        lemma_key_le_antisym(k, ok[pos as int]);
                    }
                }
            }
            // the new key order is strictly sorted
            assert forall|i: int, j: int| 0 <= i < j < nk.len() implies key_le(nk[i], nk[j])
                && !key_le(nk[j], nk[i]) by {
                let pi = pos as int;
                if j < pi {
                    assert(nk[i] == ok[i]);
                    assert(nk[j] == ok[j]);
                } else if i < pi && j == pi {
                    assert(nk[i] == ok[i]);
                    assert(nk[j] == k);
                    lemma_key_le_total(ok[i], k);
                } else if i < pi && j > pi {
                    assert(nk[i] == ok[i]);
                    assert(nk[j] == ok[j - 1]);
                } else if i == pi {
                    assert(nk[i] == k);
                    assert(nk[j] == ok[j - 1]);
                    if j - 1 > pi {
                        assert(key_le(ok[pi], ok[j - 1]));
                        lemma_key_le_trans(k, ok[pi], ok[j - 1]);
                        assert(!key_le(ok[j - 1], k)) by {
                            if key_le(ok[j - 1], k) {
                                lemma_key_le_trans(ok[j - 1], k, ok[pi]);
                            }
                        }
                    }
                } else {
                    assert(nk[i] == ok[i - 1]);
                    assert(nk[j] == ok[j - 1]);
                }
            }
            // referential integrity carries over, and holds of the new row
            assert forall|i: int| 0 <= i < self.grants@.len() implies self.principal_exists(
                (#[trigger] self.grants@[i]).principal,
            ) by {
                if i < pos as int {
                    assert(self.grants@[i] == pre.grants@[i]);
                    lemma_principal_exists_same_rows(pre, *self, pre.grants@[i].principal);
                } else if i == pos as int {
                    lemma_principal_exists_same_rows(pre, *self, p);
                } else {
                    assert(self.grants@[i] == pre.grants@[i - 1]);
                    lemma_principal_exists_same_rows(pre, *self, pre.grants@[i - 1].principal);
                }
            }
            assert(self.grants_wf());
            assert(self.wf());
            // membership of the new key set
            assert(nk[pos as int] == k);
            assert(self.spec_has_grant(k));
            assert forall|k2: GrantKey| #[trigger]
                self.spec_has_grant(k2) <==> pre.spec_has_grant(k2) || k2 == k by {
                lemma_insert_contains(ok, pos as int, k, k2);
            }
            lemma_grant_keys_distinct(*self);
            lemma_occurrences_distinct(nk, k);
        }
        Ok(())
    }

    /// Idempotent delete of one grant. Revoking an absent tuple is a
    /// successful no-op.
    pub fn revoke(&mut self, p: Principal, scope: &str, scope_id: &str, role_name: &str)
        requires
            old(self).wf(),
        ensures
            revoke_post(*old(self), *final(self), (p, scope@, scope_id@, role_name@)),
    {
        let ghost pre = *self;
        let ghost k: GrantKey = (p, scope@, scope_id@, role_name@);
        let s1 = String::from_str(scope);
        let s2 = String::from_str(scope_id);
        let s3 = String::from_str(role_name);
        let n = self.grants.len();
        let mut kept: Vec<GrantRow> = Vec::new();
        let mut i: usize = 0;
        while i < n
            invariant
                i <= n,
                n == self.grants@.len(),
                *self == pre,
                s1@ == scope@,
                s2@ == scope_id@,
                s3@ == role_name@,
                k == (p, scope@, scope_id@, role_name@),
                kept@ == self.grants@.take(i as int).filter(not_key(k)),
            decreases n - i,
        {
            let g = &self.grants[i];
            let keep = !(g.principal == p && g.scope == s1 && g.scope_id == s2 && g.role_name
                == s3);
            proof {
                let x = self.grants@[i as int];
                if keep {
                    assert(grant_key(x) != k) by {
                        if grant_key(x) == k {
                            assert(x.principal == p && x.scope@ == scope@ && x.scope_id@
                                == scope_id@ && x.role_name@ == role_name@);
                        }
                    }
                } else {
                    assert(grant_key(x) == k);
                }
                assert(not_key(k)(x) == keep);
                self.grants@.lemma_take_succ_push(i as int);
                self.grants@.take(i as int).lemma_filter_push(self.grants@[i as int], not_key(k));
            }
            if keep {
                kept.push(g.clone());
            }
            i = i + 1;
        }
        proof {
            assert(self.grants@.take(n as int) =~= self.grants@);
        }
        self.grants = kept;
        proof {
            let f = self.grants@;
            assert(f == pre.grants@.filter(not_key(k)));
            broadcast use vstd::seq_lib::group_filter_ensures;

            // order and distinctness survive the selection
            let rel = (|a: GrantRow, b: GrantRow|
                key_le(grant_key(a), grant_key(b)) && !key_le(grant_key(b), grant_key(a)));
            assert forall|i2: int, j2: int| 0 <= i2 < j2 < pre.grants@.len() implies #[trigger] rel(
                pre.grants@[i2],
                pre.grants@[j2],
            ) by {
                assert(pre.grant_keys()[i2] == grant_key(pre.grants@[i2]));
                assert(pre.grant_keys()[j2] == grant_key(pre.grants@[j2]));
                assert(key_le(pre.grant_keys()[i2], pre.grant_keys()[j2]) && !key_le(
                    pre.grant_keys()[j2],
                    pre.grant_keys()[i2],
                ));
            }
            lemma_filter_pairwise(pre.grants@, not_key(k), rel);
            assert forall|i2: int, j2: int|
                #![trigger self.grant_keys()[i2], self.grant_keys()[j2]]
                0 <= i2 < j2 < self.grant_keys().len() implies key_le(
                self.grant_keys()[i2],
                self.grant_keys()[j2],
            ) && !key_le(self.grant_keys()[j2], self.grant_keys()[i2]) by {
                assert(rel(f[i2], f[j2]));
                assert(self.grant_keys()[i2] == grant_key(f[i2]));
                assert(self.grant_keys()[j2] == grant_key(f[j2]));
            }
            // referential integrity survives the selection
            assert forall|i2: int| 0 <= i2 < f.len() implies self.principal_exists(
                (#[trigger] f[i2]).principal,
            ) by {
                lemma_filter_elem_of(pre.grants@, not_key(k), i2);
                let o = choose|o: int|
                    0 <= o < pre.grants@.len() && #[trigger] pre.grants@[o] == f[i2];
                lemma_principal_exists_same_rows(pre, *self, pre.grants@[o].principal);
            }
            assert(self.wf());
            // the key is gone
            assert(!self.spec_has_grant(k)) by {
                if self.spec_has_grant(k) {
                    let j = choose|j: int|
                        0 <= j < self.grant_keys().len() && self.grant_keys()[j] == k;
                    assert(self.grant_keys()[j] == grant_key(f[j]));
                    assert(not_key(k)(f[j]));
                }
            }
            // every other key is untouched
            assert forall|k2: GrantKey| #[trigger]
                self.spec_has_grant(k2) <==> pre.spec_has_grant(k2) && k2 != k by {
                if self.spec_has_grant(k2) {
                    let j = choose|j: int|
                        0 <= j < self.grant_keys().len() && self.grant_keys()[j] == k2;
                    assert(self.grant_keys()[j] == grant_key(f[j]));
                    lemma_filter_elem_of(pre.grants@, not_key(k), j);
                    let o = choose|o: int|
                        0 <= o < pre.grants@.len() && #[trigger] pre.grants@[o] == f[j];
                    assert(pre.grant_keys()[o] == grant_key(pre.grants@[o]));
                    assert(pre.spec_has_grant(k2));
                    assert(not_key(k)(f[j]));
                }
                if pre.spec_has_grant(k2) && k2 != k {
                    let j = choose|j: int|
                        0 <= j < pre.grant_keys().len() && pre.grant_keys()[j] == k2;
                    assert(pre.grant_keys()[j] == grant_key(pre.grants@[j]));
                    assert(not_key(k)(pre.grants@[j]));
                    assert(pre.grants@.filter(not_key(k)).contains(pre.grants@[j]));
                    let j2 = choose|j2: int| 0 <= j2 < f.len() && f[j2] == pre.grants@[j];
                    assert(self.grant_keys()[j2] == grant_key(f[j2]));
                    assert(self.spec_has_grant(k2));
                }
            }
            // an absent key selects every row
            if !pre.spec_has_grant(k) {
                assert forall|i2: int| 0 <= i2 < pre.grants@.len() implies not_key(k)(
                    #[trigger] pre.grants@[i2],
                ) by {
                    assert(pre.grant_keys()[i2] == grant_key(pre.grants@[i2]));
                    if grant_key(pre.grants@[i2]) == k {
                        assert(pre.spec_has_grant(k));
                    }
                }
                crate::seq_facts::lemma_filter_keep_all(pre.grants@, not_key(k));
            }
        }
    }

    /// Every grant of one principal, ordered ascending by
    /// (scope, scope id, role name).
    pub fn roles(&self, p: Principal) -> (r: Vec<GrantRow>)
        requires
            self.wf(),
        ensures
            r@ == self.grants@.filter(of_principal(p)),
            forall|i: int| 0 <= i < r@.len() ==> (#[trigger] r@[i]).principal == p,
            forall|i: int, j: int|
                0 <= i < j < r@.len() ==> key_le(
                    grant_key(#[trigger] r@[i]),
                    grant_key(#[trigger] r@[j]),
                ) && grant_key(r@[i]) != grant_key(r@[j]),
    {
        let n = self.grants.len();
        let mut out: Vec<GrantRow> = Vec::new();
        let mut i: usize = 0;
        while i < n
            invariant
                i <= n,
                n == self.grants@.len(),
                out@ == self.grants@.take(i as int).filter(of_principal(p)),
            decreases n - i,
        {
            let g = &self.grants[i];
            proof {
                assert(of_principal(p)(self.grants@[i as int]) == (self.grants@[i as int].principal
                    == p));
                self.grants@.lemma_take_succ_push(i as int);
                self.grants@.take(i as int).lemma_filter_push(
                    self.grants@[i as int],
                    of_principal(p),
                );
            }
            if g.principal == p {
                out.push(g.clone());
            }
            i = i + 1;
        }
        proof {
            assert(self.grants@.take(n as int) =~= self.grants@);
            broadcast use vstd::seq_lib::group_filter_ensures;

            let f = self.grants@.filter(of_principal(p));
            assert forall|i2: int| 0 <= i2 < f.len() implies (#[trigger] f[i2]).principal == p by {
                assert(of_principal(p)(f[i2]));
            }
            lemma_grant_keys_distinct(*self);
            let rel = (|a: GrantRow, b: GrantRow|
                key_le(grant_key(a), grant_key(b)) && grant_key(a) != grant_key(b));
            assert forall|i2: int, j2: int|
                0 <= i2 < j2 < self.grants@.len() implies #[trigger] rel(
                self.grants@[i2],
                self.grants@[j2],
            ) by {
                assert(self.grant_keys()[i2] == grant_key(self.grants@[i2]));
                assert(self.grant_keys()[j2] == grant_key(self.grants@[j2]));
                assert(key_le(self.grant_keys()[i2], self.grant_keys()[j2]));
                assert(self.grant_keys()[i2] != self.grant_keys()[j2]);
            }
            lemma_filter_pairwise(self.grants@, of_principal(p), rel);
            assert forall|i2: int, j2: int| 0 <= i2 < j2 < f.len() implies key_le(
                grant_key(#[trigger] f[i2]),
                grant_key(#[trigger] f[j2]),
            ) && grant_key(f[i2]) != grant_key(f[j2]) by {
                assert(rel(f[i2], f[j2]));
            }
        }
        out
    }

    /// The grants of one principal narrowed to one scope instance, ordered
    /// ascending by role name.
    pub fn roles_in_scope(&self, p: Principal, scope: &str, scope_id: &str) -> (r: Vec<GrantRow>)
        requires
            self.wf(),
        ensures
            r@ == self.grants@.filter(in_scope(p, scope@, scope_id@)),
            forall|i: int|
                0 <= i < r@.len() ==> (#[trigger] r@[i]).principal == p && r@[i].scope@ == scope@
                    && r@[i].scope_id@ == scope_id@,
            forall|i: int, j: int|
                0 <= i < j < r@.len() ==> text_le(
                    (#[trigger] r@[i]).role_name@,
                    (#[trigger] r@[j]).role_name@,
                ) && r@[i].role_name@ != r@[j].role_name@,
    {
        let ghost pred = in_scope(p, scope@, scope_id@);
        let s1 = String::from_str(scope);
        let s2 = String::from_str(scope_id);
        let n = self.grants.len();
        let mut out: Vec<GrantRow> = Vec::new();
        let mut i: usize = 0;
        while i < n
            invariant
                i <= n,
                n == self.grants@.len(),
                s1@ == scope@,
                s2@ == scope_id@,
                pred == in_scope(p, scope@, scope_id@),
                out@ == self.grants@.take(i as int).filter(pred),
            decreases n - i,
        {
            let g = &self.grants[i];
            let keep = g.principal == p && g.scope == s1 && g.scope_id == s2;
            proof {
                assert(pred(self.grants@[i as int]) == keep);
                self.grants@.lemma_take_succ_push(i as int);
                self.grants@.take(i as int).lemma_filter_push(self.grants@[i as int], pred);
            }
            if keep {
                out.push(g.clone());
            }
            i = i + 1;
        }
        proof {
            assert(self.grants@.take(n as int) =~= self.grants@);
            broadcast use vstd::seq_lib::group_filter_ensures;

            let f = self.grants@.filter(pred);
            assert forall|i2: int| 0 <= i2 < f.len() implies (#[trigger] f[i2]).principal == p
                && f[i2].scope@ == scope@ && f[i2].scope_id@ == scope_id@ by {
                assert(pred(f[i2]));
            }
            lemma_grant_keys_distinct(*self);
            let rel = (|a: GrantRow, b: GrantRow|
                key_le(grant_key(a), grant_key(b)) && grant_key(a) != grant_key(b));
            assert forall|i2: int, j2: int|
                0 <= i2 < j2 < self.grants@.len() implies #[trigger] rel(
                self.grants@[i2],
                self.grants@[j2],
            ) by {
                assert(self.grant_keys()[i2] == grant_key(self.grants@[i2]));
                assert(self.grant_keys()[j2] == grant_key(self.grants@[j2]));
                assert(key_le(self.grant_keys()[i2], self.grant_keys()[j2]));
                assert(self.grant_keys()[i2] != self.grant_keys()[j2]);
            }
            lemma_filter_pairwise(self.grants@, pred, rel);
            assert forall|i2: int, j2: int| 0 <= i2 < j2 < f.len() implies text_le(
                (#[trigger] f[i2]).role_name@,
                (#[trigger] f[j2]).role_name@,
            ) && f[i2].role_name@ != f[j2].role_name@ by {
                assert(rel(f[i2], f[j2]));
                assert(pred(f[i2]));
                assert(pred(f[j2]));
                let ka = grant_key(f[i2]);
                let kb = grant_key(f[j2]);
                assert(ka.0 == kb.0 && ka.1 == kb.1 && ka.2 == kb.2);
                if ka.3 == kb.3 {
                    assert(ka =~= kb);
                }
            }
        }
        out
    }

    /// Global convenience: `allow` with the reserved scope pair substituted.
    /// A pure delegation — the grant it makes is the same row an explicit
    /// `allow` with the reserved pair makes.
    pub fn allow_global(&mut self, p: Principal, role_name: &str) -> (r: Result<(), AuthError>)
        requires
            old(self).wf(),
        ensures
            match r {
                Ok(()) => old(self).principal_exists(p) && allow_post(
                    *old(self),
                    *final(self),
                    (p, "global"@, "global"@, role_name@),
                ),
                Err(e) => e == AuthError::NotFound && !old(self).principal_exists(p) && *final(self)
                    == *old(self),
            },
    {
        self.allow(p, "global", "global", role_name)
    }

    /// Global convenience: `revoke` with the reserved scope pair substituted.
    pub fn revoke_global(&mut self, p: Principal, role_name: &str)
        requires
            old(self).wf(),
        ensures
            revoke_post(*old(self), *final(self), (p, "global"@, "global"@, role_name@)),
    {
        self.revoke(p, "global", "global", role_name)
    }

    /// Global convenience: the existence check with the reserved scope pair.
    pub fn has_global_role(&self, p: Principal, role_name: &str) -> (r: bool)
        ensures
            r == self.spec_has_grant((p, "global"@, "global"@, role_name@)),
    {
        self.has_role(p, "global", "global", role_name)
    }

    /// Global convenience: the grants of one principal in the reserved scope,
    /// ordered ascending by role name.
    pub fn global_roles(&self, p: Principal) -> (r: Vec<GrantRow>)
        requires
            self.wf(),
        ensures
            r@ == self.grants@.filter(in_scope(p, "global"@, "global"@)),
            forall|i: int, j: int|
                0 <= i < j < r@.len() ==> text_le(
                    (#[trigger] r@[i]).role_name@,
                    (#[trigger] r@[j]).role_name@,
                ) && r@[i].role_name@ != r@[j].role_name@,
    {
        self.roles_in_scope(p, "global", "global")
    }
}

} // verus!
