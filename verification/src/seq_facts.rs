use vstd::prelude::*;

verus! {

broadcast use vstd::seq_lib::group_filter_ensures;

/// How many positions of `s` hold exactly `x`.
pub open spec fn occurrences<A>(s: Seq<A>, x: A) -> int
    decreases s.len(),
{
    if s.len() == 0 {
        0
    } else {
        occurrences(s.drop_last(), x) + if s.last() == x {
            1int
        } else {
            0int
        }
    }
}

/// In a sequence whose positions all hold distinct values, a value occurs
/// once if it is present and not at all otherwise.
pub proof fn lemma_occurrences_distinct<A>(s: Seq<A>, x: A)
    requires
        forall|i: int, j: int| 0 <= i < j < s.len() ==> s[i] != s[j],
    ensures
        occurrences(s, x) == if s.contains(x) {
            1int
        } else {
            0int
        },
    decreases s.len(),
{
    if s.len() > 0 {
        let rest = s.drop_last();
        assert(forall|i: int, j: int| 0 <= i < j < rest.len() ==> rest[i] != rest[j]);
        lemma_occurrences_distinct(rest, x);
        if s.last() == x {
            assert(s[s.len() - 1] == x);
            assert(s.contains(x));
            assert(!rest.contains(x)) by {
                if rest.contains(x) {
                    let i = choose|i: int| 0 <= i < rest.len() && rest[i] == x;
                    assert(s[i] == x);
                }
            }
        } else {
            if s.contains(x) {
                let i = choose|i: int| 0 <= i < s.len() && s[i] == x;
                assert(i < s.len() - 1);
                assert(rest[i] == x);
                assert(rest.contains(x));
            }
            if rest.contains(x) {
                let i = choose|i: int| 0 <= i < rest.len() && rest[i] == x;
                assert(s[i] == x);
                assert(s.contains(x));
            }
        }
    }
}

/// Every element of a filtered sequence stands somewhere in the source.
pub proof fn lemma_filter_elem_of<A>(s: Seq<A>, pred: spec_fn(A) -> bool, i: int)
    requires
        0 <= i < s.filter(pred).len(),
    ensures
        exists|k: int| 0 <= k < s.len() && #[trigger] s[k] == s.filter(pred)[i],
    decreases s.len(),
{
    reveal(Seq::filter);
    if s.len() > 0 {
        let rest = s.drop_last();
        let fr = rest.filter(pred);
        if pred(s.last()) {
            if i < fr.len() {
                lemma_filter_elem_of(rest, pred, i);
                let k = choose|k: int| 0 <= k < rest.len() && #[trigger] rest[k] == fr[i];
                assert(s[k] == s.filter(pred)[i]);
            } else {
                assert(s.filter(pred)[i] == s.last());
                assert(s[s.len() - 1] == s.filter(pred)[i]);
            }
        } else {
            lemma_filter_elem_of(rest, pred, i);
            let k = choose|k: int| 0 <= k < rest.len() && #[trigger] rest[k] == fr[i];
            assert(s[k] == s.filter(pred)[i]);
        }
    }
}

/// A relation that holds of every ordered pair of the source holds of every
/// ordered pair of the filtered sequence.
pub proof fn lemma_filter_pairwise<A>(s: Seq<A>, pred: spec_fn(A) -> bool, rel: spec_fn(A, A) -> bool)
    requires
        forall|i: int, j: int| 0 <= i < j < s.len() ==> #[trigger] rel(s[i], s[j]),
    ensures
        forall|i: int, j: int|
            0 <= i < j < s.filter(pred).len() ==> #[trigger] rel(
                s.filter(pred)[i],
                s.filter(pred)[j],
            ),
    decreases s.len(),
{
    reveal(Seq::filter);
    if s.len() > 0 {
        let rest = s.drop_last();
        assert(forall|i: int, j: int| 0 <= i < j < rest.len() ==> #[trigger] rel(rest[i], rest[j]));
        lemma_filter_pairwise(rest, pred, rel);
        let f = s.filter(pred);
        let fr = rest.filter(pred);
        if pred(s.last()) {
            assert(f == fr.push(s.last()));
            assert forall|i: int, j: int| 0 <= i < j < f.len() implies rel(f[i], f[j]) by {
                if j < fr.len() {
                    assert(f[i] == fr[i]);
                    assert(f[j] == fr[j]);
                    assert(rel(fr[i], fr[j]));
                } else {
                    assert(f[j] == s.last());
                    assert(f[i] == fr[i]);
                    lemma_filter_elem_of(rest, pred, i);
                    let k = choose|k: int| 0 <= k < rest.len() && #[trigger] rest[k] == fr[i];
                    assert(rest[k] == s[k]);
                    assert(rel(s[k], s[s.len() - 1]));
                }
            }
        }
    }
}

/// Filtering with a predicate that every element satisfies keeps the
/// sequence as it is.
pub proof fn lemma_filter_keep_all<A>(s: Seq<A>, pred: spec_fn(A) -> bool)
    requires
        forall|i: int| 0 <= i < s.len() ==> pred(#[trigger] s[i]),
    ensures
        s.filter(pred) == s,
    decreases s.len(),
{
    reveal(Seq::filter);
    if s.len() == 0 {
        assert(s.filter(pred) =~= s);
    } else {
        let rest = s.drop_last();
        assert(forall|i: int| 0 <= i < rest.len() ==> pred(#[trigger] rest[i]));
        lemma_filter_keep_all(rest, pred);
        assert(pred(s.last()));
        assert(s.filter(pred) =~= s);
    }
}

/// The page of a listing: the whole sequence when no window is supplied,
/// otherwise at most `limit` elements starting `offset` in, both clamped to
/// the sequence.
pub open spec fn page_window<A>(s: Seq<A>, page: Option<(i64, i64)>) -> Seq<A> {
    match page {
        None => s,
        Some((limit, offset)) => {
            let lo = if offset as int <= s.len() as int {
                offset as int
            } else {
                s.len() as int
            };
            let hi = if lo + limit as int <= s.len() as int {
                lo + limit as int
            } else {
                s.len() as int
            };
            s.subrange(lo, hi)
        },
    }
}

/// What a sequence contains after one insertion: everything it contained
/// before, and the inserted value.
pub proof fn lemma_insert_contains<A>(s: Seq<A>, pos: int, x: A, y: A)
    requires
        0 <= pos <= s.len(),
    ensures
        s.insert(pos, x).contains(y) <==> (s.contains(y) || y == x),
{
    s.insert_ensures(pos, x);
    let t = s.insert(pos, x);
    if s.contains(y) {
        let j = choose|j: int| 0 <= j < s.len() && s[j] == y;
        if j < pos {
            assert(t[j] == y);
        } else {
            assert(t[j + 1] == y);
        }
        assert(t.contains(y));
    }
    assert(t[pos] == x);
    assert(t.contains(x));
    if t.contains(y) && y != x {
        let j = choose|j: int| 0 <= j < t.len() && t[j] == y;
        assert(j != pos);
        if j < pos {
            assert(s[j] == y);
        } else {
            assert(t[(j - 1) + 1] == s[j - 1]);
            assert(s[j - 1] == y);
        }
        assert(s.contains(y));
    }
}

} // verus!
