//! Facts about sequences that the proofs of the table scans share.

use vstd::prelude::*;

verus! {

/// The mathematical content of a list of texts.
pub open spec fn texts(v: Seq<String>) -> Seq<Seq<char>> {
    v.map_values(|s: String| s@)
}

/// A prefix grows by the element that follows it.
pub proof fn lemma_take_step<T>(s: Seq<T>, i: int)
    requires
        0 <= i < s.len(),
    ensures
        s.take(i + 1) == s.take(i).push(s[i]),
{
    assert(s.take(i + 1) =~= s.take(i).push(s[i]));
}

/// The whole sequence is its own longest prefix.
pub proof fn lemma_take_all<T>(s: Seq<T>)
    ensures
        s.take(s.len() as int) == s,
{
    assert(s.take(s.len() as int) =~= s);
}

/// Mapping commutes with appending.
pub proof fn lemma_map_push<A, B>(s: Seq<A>, x: A, f: spec_fn(A) -> B)
    ensures
        s.push(x).map_values(f) == s.map_values(f).push(f(x)),
{
    assert(s.push(x).map_values(f) =~= s.map_values(f).push(f(x)));
}

/// One step of a scan that keeps the elements that satisfy `pred`.
pub proof fn lemma_filter_step<T>(s: Seq<T>, i: int, pred: spec_fn(T) -> bool)
    requires
        0 <= i < s.len(),
    ensures
        s.take(i + 1).filter(pred) == if pred(s[i]) {
            s.take(i).filter(pred).push(s[i])
        } else {
            s.take(i).filter(pred)
        },
{
    lemma_take_step(s, i);
    s.take(i).lemma_filter_push(s[i], pred);
}

/// One step of a scan that keeps the elements that satisfy `pred` and maps
/// them with `f`.
pub proof fn lemma_filter_map_step<A, B>(
    s: Seq<A>,
    i: int,
    pred: spec_fn(A) -> bool,
    f: spec_fn(A) -> B,
)
    requires
        0 <= i < s.len(),
    ensures
        s.take(i + 1).filter(pred).map_values(f) == if pred(s[i]) {
            s.take(i).filter(pred).map_values(f).push(f(s[i]))
        } else {
            s.take(i).filter(pred).map_values(f)
        },
{
    lemma_filter_step(s, i, pred);
    if pred(s[i]) {
        lemma_map_push(s.take(i).filter(pred), s[i], f);
    }
}

/// An element is kept by a filter exactly when it occurs and satisfies the
/// predicate.
pub proof fn lemma_filter_member<T>(s: Seq<T>, pred: spec_fn(T) -> bool, x: T)
    ensures
        s.filter(pred).contains(x) <==> s.contains(x) && pred(x),
{
    if s.filter(pred).contains(x) {
        s.lemma_filter_contains_rev(pred, x);
    }
    if s.contains(x) && pred(x) {
        let i = choose|i: int| 0 <= i < s.len() && s[i] == x;
        s.lemma_filter_contains(pred, i);
    }
}

/// Two elements that a filter keeps stand in the order, and at the
/// distinct places, in which they stood before.
pub proof fn lemma_filter_keeps_order<T>(s: Seq<T>, pred: spec_fn(T) -> bool, a: int, b: int)
    requires
        0 <= a < b < s.filter(pred).len(),
    ensures
        exists|i: int, j: int|
            0 <= i < j < s.len() && s[i] == s.filter(pred)[a] && s[j] == s.filter(pred)[b],
    decreases s.len(),
{
    reveal(Seq::filter);
    if s.len() > 0 {
        let rest = s.drop_last();
        let kept = rest.filter(pred);
        if pred(s.last()) {
            assert(s.filter(pred) == kept.push(s.last()));
            if b < kept.len() {
                lemma_filter_keeps_order(rest, pred, a, b);
                let (i, j) = choose|i: int, j: int|
                    0 <= i < j < rest.len() && rest[i] == kept[a] && rest[j] == kept[b];
                assert(s[i] == rest[i] && s[j] == rest[j]);
            } else {
                assert(kept.contains(kept[a]));
                rest.lemma_filter_contains_rev(pred, kept[a]);
                let i = choose|i: int| 0 <= i < rest.len() && rest[i] == kept[a];
                assert(s[i] == rest[i]);
                assert(s[s.len() - 1] == s.filter(pred)[b]);
            }
        } else {
            assert(s.filter(pred) == kept);
            lemma_filter_keeps_order(rest, pred, a, b);
            let (i, j) = choose|i: int, j: int|
                0 <= i < j < rest.len() && rest[i] == kept[a] && rest[j] == kept[b];
            assert(s[i] == rest[i] && s[j] == rest[j]);
        }
    }
}

} // verus!
