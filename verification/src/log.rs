use vstd::prelude::*;
use crate::seq_facts::{lemma_filter_pairwise, page_window};
use crate::store::Store;
use crate::user_id::UserId;
use crate::uuid_text::{fresh_id, now_timestamp};

verus! {

broadcast use vstd::seq_lib::group_filter_ensures;

/// One audit entry: a generated identifier, the attributed user (none once
/// that user has been hard-deleted), an opaque action payload, and the
/// timestamp at which it was recorded. Entries are never mutated.
#[derive(Debug)]
pub struct LogRow {
    pub id: u128,
    pub user_id: Option<UserId>,
    pub action: String,
    pub timestamp: i64,
}

impl Clone for LogRow {
    fn clone(&self) -> (r: Self)
        ensures
            r == *self,
    {
        LogRow {
            id: self.id,
            user_id: self.user_id,
            action: self.action.clone(),
            timestamp: self.timestamp,
        }
    }
}

/// Clears the attribution of every entry of user `u`, keeping the entry.
pub open spec fn detach_user(u: UserId) -> spec_fn(LogRow) -> LogRow {
    |r: LogRow|
        if r.user_id == Some(u) {
            LogRow { user_id: None, ..r }
        } else {
            r
        }
}

/// Keeps every entry attributed to user `u`.
pub open spec fn log_of_user(u: UserId) -> spec_fn(LogRow) -> bool {
    |r: LogRow| r.user_id == Some(u)
}

impl LogRow {
    /// Builds a new entry attributed to `user_id`. The identifier and the
    /// timestamp are generated here; nothing is promised of their values.
    pub fn new(user_id: UserId, action: String) -> (r: Self)
        ensures
            r.user_id == Some(user_id),
            r.action == action,
    {
        LogRow { id: fresh_id(), user_id: Some(user_id), action, timestamp: now_timestamp() }
    }

    pub fn table_name() -> (r: &'static str)
        ensures
            r@ == "auth.log"@,
    {
        "auth.log"
    }

    pub fn columns() -> (r: &'static str)
        ensures
            r@ == "id, user_id, action, timestamp"@,
    {
        "id, user_id, action, timestamp"
    }

    /// Appends one audit entry. Recording never fails; the entry is kept in
    /// timestamp position, and no existing entry is touched.
    #[verifier::loop_isolation(false)]
    pub fn insert(store: &mut Store, row: &LogRow)
        requires
            old(store).wf(),
        ensures
            final(store).wf(),
            final(store).users@ == old(store).users@,
            final(store).groups@ == old(store).groups@,
            final(store).memberships@ == old(store).memberships@,
            final(store).grants@ == old(store).grants@,
            final(store).log@.len() == old(store).log@.len() + 1,
            exists|j: int|
                0 <= j <= old(store).log@.len() && final(store).log@ == old(store).log@.insert(
                    j,
                    *row,
                ),
    {
        let ghost pre = *store;
        let n = store.log.len();
        let mut pos: usize = 0;
        while pos < n && log_entry_at_or_after(&store.log[pos], row)
            invariant
                pos <= n,
                forall|j: int| 0 <= j < pos ==> (#[trigger] pre.log@[j]).timestamp >= row.timestamp,
            decreases n - pos,
        {
            pos = pos + 1;
        }
        store.log.insert(pos, row.clone());
        proof {
            pre.log@.insert_ensures(pos as int, *row);
            assert forall|a: int, b: int|
                #![trigger store.log@[a], store.log@[b]]
                0 <= a < b < store.log@.len() implies store.log@[a].timestamp >= store.log@[
                b].timestamp by {
                let pi = pos as int;
                if b < pi {
                    assert(store.log@[a] == pre.log@[a]);
                    assert(store.log@[b] == pre.log@[b]);
                } else if a < pi && b == pi {
                    assert(store.log@[a] == pre.log@[a]);
                    assert(store.log@[b] == *row);
                } else if a < pi && b > pi {
                    assert(store.log@[a] == pre.log@[a]);
                    assert(store.log@[b] == pre.log@[b - 1]);
                } else if a == pi {
                    assert(store.log@[a] == *row);
                    assert(store.log@[b] == pre.log@[b - 1]);
                    assert(pre.log@[pi].timestamp < row.timestamp);
                    assert(pre.log@[pi].timestamp >= pre.log@[b - 1].timestamp);
                } else {
                    assert(store.log@[a] == pre.log@[a - 1]);
                    assert(store.log@[b] == pre.log@[b - 1]);
                }
            }
            lemma_wf_after_log_change(pre, *store);
        }
    }

    /// The entries attributed to one user, newest first; paged through a
    /// (limit, offset) window when one is supplied, the full list otherwise.
    #[verifier::loop_isolation(false)]
    pub fn events_for_user(store: &Store, user_id: UserId, page: Option<(i64, i64)>) -> (r: Vec<
        LogRow,
    >)
        requires
            store.wf(),
            match page {
                Some((limit, offset)) => limit >= 0 && offset >= 0,
                None => true,
            },
        ensures
            r@ == page_window(store.log@.filter(log_of_user(user_id)), page),
            forall|i: int, j: int|
                0 <= i < j < r@.len() ==> (#[trigger] r@[i]).timestamp >= (
                #[trigger] r@[j]).timestamp,
    {
        let ghost pred = log_of_user(user_id);
        let n = store.log.len();
        let mut out: Vec<LogRow> = Vec::new();
        let mut i: usize = 0;
        while i < n
            invariant
                i <= n,
                out@ == store.log@.take(i as int).filter(pred),
            decreases n - i,
        {
            let e = &store.log[i];
            let keep = match &e.user_id {
                Some(v) => *v == user_id,
                None => false,
            };
            proof {
                assert(pred(store.log@[i as int]) == keep);
                store.log@.lemma_take_succ_push(i as int);
                store.log@.take(i as int).lemma_filter_push(store.log@[i as int], pred);
            }
            if keep {
                out.push(e.clone());
            }
            i = i + 1;
        }
        proof {
            assert(store.log@.take(n as int) =~= store.log@);
            let f = store.log@.filter(pred);
            let rel_t = (|a: LogRow, b: LogRow| a.timestamp >= b.timestamp);
            assert forall|a: int, b: int| 0 <= a < b < store.log@.len() implies #[trigger] rel_t(
                store.log@[a],
                store.log@[b],
            ) by {
                let x = store.log@[a];
                let y = store.log@[b];
            }
            lemma_filter_pairwise(store.log@, pred, rel_t);
            assert forall|a: int, b: int| 0 <= a < b < f.len() implies (#[trigger] f[a]).timestamp
                >= (#[trigger] f[b]).timestamp by {
                assert(rel_t(f[a], f[b]));
            }
        }
        match page {
            None => out,
            Some((limit, offset)) => {
                let len = out.len();
                let start: usize = if offset as u64 >= len as u64 {
                    len
                } else {
                    offset as usize
                };
                let avail = len - start;
                let take_n: usize = if limit as u64 >= avail as u64 {
                    avail
                } else {
                    limit as usize
                };
                let mut win: Vec<LogRow> = Vec::new();
                let mut j: usize = 0;
                while j < take_n
                    invariant
                        j <= take_n,
                        win@ == out@.subrange(start as int, start as int + j as int),
                    decreases take_n - j,
                {
                    proof {
                        assert(out@.subrange(start as int, start as int + j as int + 1)
                            =~= out@.subrange(start as int, start as int + j as int).push(
                            out@[start as int + j as int],
                        ));
                    }
                    win.push(out[start + j].clone());
                    j = j + 1;
                }
                win
            },
        }
    }
}

/// Whether the entry's timestamp is at or after the new row's: the scan for
/// the insertion position of an append continues past such entries.
fn log_entry_at_or_after(e: &LogRow, row: &LogRow) -> (r: bool)
    ensures
        r == (e.timestamp >= row.timestamp),
{
    e.timestamp >= row.timestamp
}

/// When the audit log stays ordered newest-first and every other relation is
/// untouched, well-formedness transfers.
proof fn lemma_wf_after_log_change(pre: Store, post: Store)
    requires
        pre.wf(),
        post.log_wf(),
        post.users@ == pre.users@,
        post.groups@ == pre.groups@,
        post.memberships@ == pre.memberships@,
        post.grants@ == pre.grants@,
    ensures
        post.wf(),
{
    assert forall|a: int, b: int|
        #![trigger post.users@[a], post.users@[b]]
        0 <= a < b < post.users@.len() implies post.users@[a].id != post.users@[b].id
        && post.users@[a].email@ != post.users@[b].email@ && ((post.users@[a].username is Some
        && post.users@[b].username is Some) ==> post.users@[a].username.unwrap()@ != post.users@[
        b].username.unwrap()@) by {
        assert(pre.users@[a] == post.users@[a]);
        assert(pre.users@[b] == post.users@[b]);
    }
    assert(post.users_wf());
    assert forall|a: int, b: int|
        #![trigger post.groups@[a], post.groups@[b]]
        0 <= a < b < post.groups@.len() implies post.groups@[a].id != post.groups@[b].id
        && post.groups@[a].display_name@ != post.groups@[b].display_name@ by {
        assert(pre.groups@[a] == post.groups@[a]);
        assert(pre.groups@[b] == post.groups@[b]);
    }
    assert(post.groups_wf());
    assert forall|a: int, b: int|
        #![trigger post.memberships@[a], post.memberships@[b]]
        0 <= a < b < post.memberships@.len() implies !(post.memberships@[a].group_id
        == post.memberships@[b].group_id && post.memberships@[a].user_id == post.memberships@[
        b].user_id) by {
        assert(pre.memberships@[a] == post.memberships@[a]);
        assert(pre.memberships@[b] == post.memberships@[b]);
    }
    assert forall|a: int| 0 <= a < post.memberships@.len() implies post.has_group(
        (#[trigger] post.memberships@[a]).group_id,
    ) && post.has_user(post.memberships@[a].user_id) by {
        assert(pre.memberships@[a] == post.memberships@[a]);
        assert(pre.has_group(pre.memberships@[a].group_id));
        assert(pre.has_user(pre.memberships@[a].user_id));
        let gj = choose|gj: int|
            0 <= gj < pre.groups@.len() && (#[trigger] pre.groups@[gj]).id == pre.memberships@[
                a].group_id;
        assert(post.groups@[gj].id == post.memberships@[a].group_id);
        let uj = choose|uj: int|
            0 <= uj < pre.users@.len() && (#[trigger] pre.users@[uj]).id == pre.memberships@[
                a].user_id;
        assert(post.users@[uj].id == post.memberships@[a].user_id);
    }
    assert(post.memberships_wf());
    assert(post.grant_keys() == pre.grant_keys());
    assert forall|a: int, b: int|
        #![trigger post.grant_keys()[a], post.grant_keys()[b]]
        0 <= a < b < post.grant_keys().len() implies crate::grants::key_le(
        post.grant_keys()[a],
        post.grant_keys()[b],
    ) && !crate::grants::key_le(post.grant_keys()[b], post.grant_keys()[a]) by {
        assert(pre.grant_keys()[a] == post.grant_keys()[a]);
        assert(pre.grant_keys()[b] == post.grant_keys()[b]);
    }
    assert forall|a: int| 0 <= a < post.grants@.len() implies post.principal_exists(
        (#[trigger] post.grants@[a]).principal,
    ) by {
        assert(pre.grants@[a] == post.grants@[a]);
        assert(pre.principal_exists(pre.grants@[a].principal));
        crate::store::lemma_principal_exists_same_rows(pre, post, pre.grants@[a].principal);
    }
    assert(post.grants_wf());
}

} // verus!
