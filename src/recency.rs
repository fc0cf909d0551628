//! The recency order of a cache as a sequence, most recently used first, and
//! the ways an access changes it.
use vstd::prelude::*;

verus! {

/// The index at which `x` occurs in `s`, for a sequence that contains it.
pub open spec fn position_of<A>(s: Seq<A>, x: A) -> int {
    choose|i: int| 0 <= i < s.len() && s[i] == x
}

/// `s` with its element at `i` moved to the front.
pub open spec fn promote<A>(s: Seq<A>, i: int) -> Seq<A> {
    seq![s[i]] + s.remove(i)
}

/// `s` with `x` put in front, after dropping the last element when `s`
/// already holds `cap` of them. A capacity of zero keeps nothing.
pub open spec fn enter<A>(s: Seq<A>, cap: nat, x: A) -> Seq<A> {
    if cap == 0 {
        s
    } else if s.len() >= cap {
        seq![x] + s.drop_last()
    } else {
        seq![x] + s
    }
}

/// Whether entering into `s` under `cap` drops its last element.
pub open spec fn evicts<A>(s: Seq<A>, cap: nat) -> bool {
    cap > 0 && s.len() >= cap
}

/// The order after a successful access to `x`: promoted when present,
/// entered otherwise.
pub open spec fn access<A>(s: Seq<A>, cap: nat, x: A) -> Seq<A> {
    if s.contains(x) {
        promote(s, position_of(s, x))
    } else {
        enter(s, cap, x)
    }
}

/// In a sequence without duplicates, an index holding `x` is its position.
pub proof fn lemma_position_unique<A>(s: Seq<A>, x: A, i: int)
    requires
        s.no_duplicates(),
        0 <= i < s.len(),
        s[i] == x,
    ensures
        position_of(s, x) == i,
        s.contains(x),
{
    assert(s.contains(x));
    let j = position_of(s, x);
    assert(0 <= j < s.len() && s[j] == x);
}

/// Promoting commutes with mapping every element.
pub proof fn lemma_promote_map<A, B>(s: Seq<A>, i: int, f: spec_fn(A) -> B)
    requires
        0 <= i < s.len(),
    ensures
        promote(s, i).map_values(f) == promote(s.map_values(f), i),
{
    assert(promote(s, i).map_values(f) =~= promote(s.map_values(f), i));
}

/// Entering commutes with mapping every element.
pub proof fn lemma_enter_map<A, B>(s: Seq<A>, cap: nat, x: A, f: spec_fn(A) -> B)
    ensures
        enter(s, cap, x).map_values(f) == enter(s.map_values(f), cap, f(x)),
{
    if cap == 0 {
    } else if s.len() >= cap {
        assert(enter(s, cap, x).map_values(f) =~= enter(s.map_values(f), cap, f(x)));
    } else {
        assert(enter(s, cap, x).map_values(f) =~= enter(s.map_values(f), cap, f(x)));
    }
}

/// The index in `s` that index `k` of `promote(s, i)` comes from.
pub open spec fn promoted_from(i: int, k: int) -> int {
    if k == 0 {
        i
    } else if k - 1 < i {
        k - 1
    } else {
        k
    }
}

/// Promoting keeps the elements, each once.
pub proof fn lemma_promote_no_duplicates<A>(s: Seq<A>, i: int)
    requires
        s.no_duplicates(),
        0 <= i < s.len(),
    ensures
        promote(s, i).no_duplicates(),
        promote(s, i).len() == s.len(),
        forall|y: A| promote(s, i).contains(y) <==> s.contains(y),
{
    let p = promote(s, i);
    assert forall|k: int| 0 <= k < p.len() implies p[k] == s[promoted_from(i, k)] by {}
    assert forall|a: int, b: int| 0 <= a < p.len() && 0 <= b < p.len() && a != b implies p[a] != p[b] by {
        assert(p[a] == s[promoted_from(i, a)]);
        assert(p[b] == s[promoted_from(i, b)]);
    }
    assert forall|y: A| s.contains(y) implies p.contains(y) by {
        let j = choose|j: int| 0 <= j < s.len() && s[j] == y;
        if j == i {
            assert(p[0] == y);
        } else if j < i {
            assert(p[j + 1] == y);
        } else {
            assert(p[j] == y);
        }
    }
    assert forall|y: A| p.contains(y) implies s.contains(y) by {
        let k = choose|k: int| 0 <= k < p.len() && p[k] == y;
        assert(s[promoted_from(i, k)] == y);
    }
}

/// Entering an element not yet present keeps the elements distinct and
/// within the capacity.
pub proof fn lemma_enter_no_duplicates<A>(s: Seq<A>, cap: nat, x: A)
    requires
        s.no_duplicates(),
        !s.contains(x),
        s.len() <= cap,
    ensures
        enter(s, cap, x).no_duplicates(),
        enter(s, cap, x).len() <= cap,
{
    let t = enter(s, cap, x);
    if cap == 0 {
    } else {
        let rest = if s.len() >= cap { s.drop_last() } else { s };
        assert(t == seq![x] + rest);
        assert forall|a: int, b: int| 0 <= a < t.len() && 0 <= b < t.len() && a != b implies t[a] != t[b] by {
            if a == 0 {
                assert(t[b] == s[b - 1]);
            } else if b == 0 {
                assert(t[a] == s[a - 1]);
            } else {
                assert(t[a] == s[a - 1] && t[b] == s[b - 1]);
            }
        }
    }
}

/// Removing an index commutes with mapping every element.
pub proof fn lemma_remove_map<A, B>(s: Seq<A>, i: int, f: spec_fn(A) -> B)
    requires
        0 <= i < s.len(),
    ensures
        s.remove(i).map_values(f) == s.map_values(f).remove(i),
{
    assert(s.remove(i).map_values(f) =~= s.map_values(f).remove(i));
}

/// Removing the only occurrence of an element leaves no occurrence of it
/// and no duplicates.
pub proof fn lemma_remove_no_duplicates<A>(s: Seq<A>, i: int)
    requires
        s.no_duplicates(),
        0 <= i < s.len(),
    ensures
        s.remove(i).no_duplicates(),
        !s.remove(i).contains(s[i]),
{
    let t = s.remove(i);
    assert forall|k: int| 0 <= k < t.len() implies t[k] == s[if k < i { k } else { k + 1 }] by {}
    assert forall|a: int, b: int| 0 <= a < t.len() && 0 <= b < t.len() && a != b implies t[a] != t[b] by {
        assert(t[a] == s[if a < i { a } else { a + 1 }]);
        assert(t[b] == s[if b < i { b } else { b + 1 }]);
    }
    if t.contains(s[i]) {
        let k = choose|k: int| 0 <= k < t.len() && t[k] == s[i];
        assert(t[k] == s[if k < i { k } else { k + 1 }]);
    }
}

/// The order after successful accesses to each of `xs` in turn, from `s`.
pub open spec fn replay<A>(s: Seq<A>, cap: nat, xs: Seq<A>) -> Seq<A>
    decreases xs.len(),
{
    if xs.len() == 0 {
        s
    } else {
        access(replay(s, cap, xs.drop_last()), cap, xs.last())
    }
}

/// `s` with `x` moved, or put, in front.
pub open spec fn to_front<A>(s: Seq<A>, x: A) -> Seq<A> {
    if s.contains(x) {
        promote(s, position_of(s, x))
    } else {
        seq![x] + s
    }
}

/// Every element of `xs` once, the most recently accessed first.
pub open spec fn recency<A>(xs: Seq<A>) -> Seq<A>
    decreases xs.len(),
{
    if xs.len() == 0 {
        Seq::empty()
    } else {
        to_front(recency(xs.drop_last()), xs.last())
    }
}

/// The first `n` elements of `s`, or all of them when it has fewer.
pub open spec fn first_n<A>(s: Seq<A>, n: nat) -> Seq<A> {
    if s.len() <= n {
        s
    } else {
        s.take(n as int)
    }
}

/// Moving an element to the front keeps the elements distinct.
pub proof fn lemma_to_front_no_duplicates<A>(s: Seq<A>, x: A)
    requires
        s.no_duplicates(),
    ensures
        to_front(s, x).no_duplicates(),
{
    if s.contains(x) {
        let i = position_of(s, x);
        lemma_promote_no_duplicates(s, i);
    } else {
        let t = seq![x] + s;
        assert forall|a: int, b: int| 0 <= a < t.len() && 0 <= b < t.len() && a != b implies t[a] != t[b] by {
            if a == 0 {
                assert(t[b] == s[b - 1]);
            } else if b == 0 {
                assert(t[a] == s[a - 1]);
            }
        }
    }
}

/// The recency order holds each element once.
pub proof fn lemma_recency_no_duplicates<A>(xs: Seq<A>)
    ensures
        recency(xs).no_duplicates(),
    decreases xs.len(),
{
    if xs.len() > 0 {
        lemma_recency_no_duplicates(xs.drop_last());
        lemma_to_front_no_duplicates(recency(xs.drop_last()), xs.last());
    }
}

/// A cache of capacity `cap` that starts empty keeps, after any run of
/// successful accesses, exactly the `cap` most recently accessed distinct
/// elements, the most recent first: so the entry that an insertion evicts
/// is always the least recently accessed one.
pub proof fn lemma_replay_keeps_most_recent<A>(cap: nat, xs: Seq<A>)
    ensures
        replay(Seq::empty(), cap, xs) == first_n(recency(xs), cap),
    decreases xs.len(),
{
    if xs.len() > 0 {
        let prev = xs.drop_last();
        let x = xs.last();
        lemma_replay_keeps_most_recent(cap, prev);
        lemma_recency_no_duplicates(prev);
        let r = recency(prev);
        let b = first_n(r, cap);
        assert(replay(Seq::empty(), cap, xs) == access(b, cap, x));
        assert(recency(xs) == to_front(r, x));
        lemma_access_prefix(r, cap, x);
    }
}

/// One access on the first `cap` elements of an order without duplicates
/// gives the first `cap` elements of that order with the element moved to
/// the front.
pub proof fn lemma_access_prefix<A>(r: Seq<A>, cap: nat, x: A)
    requires
        r.no_duplicates(),
    ensures
        access(first_n(r, cap), cap, x) == first_n(to_front(r, x), cap),
{
    let b = first_n(r, cap);
    assert(forall|k: int| 0 <= k < b.len() ==> b[k] == r[k]);
    assert(b.len() <= cap);
    assert(b.no_duplicates());
    if cap == 0 {
        assert(b =~= Seq::<A>::empty());
        assert(!b.contains(x));
        assert(first_n(to_front(r, x), cap) =~= Seq::<A>::empty());
    } else if b.contains(x) {
        let p = position_of(b, x);
        lemma_position_unique(r, x, p);
        lemma_position_unique(b, x, p);
        assert(access(b, cap, x) == promote(b, p));
        assert(to_front(r, x) == promote(r, p));
        assert(promote(b, p) =~= first_n(promote(r, p), cap));
    } else {
        if r.contains(x) {
            let p = position_of(r, x);
            assert(p >= cap) by {
                if p < cap {
                    assert(b[p] == x);
                }
            }
            assert(enter(b, cap, x) =~= first_n(promote(r, p), cap));
        } else {
            assert(enter(b, cap, x) =~= first_n(seq![x] + r, cap));
        }
    }
}

/// After a successful access with a capacity above zero, the element is in
/// front; an access to it right after is a hit on that front element and
/// leaves the order as it is.
pub proof fn lemma_access_again<A>(s: Seq<A>, cap: nat, x: A)
    requires
        s.no_duplicates(),
        s.len() <= cap,
        cap > 0,
    ensures
        access(s, cap, x).len() > 0,
        access(s, cap, x)[0] == x,
        access(s, cap, x).contains(x),
        position_of(access(s, cap, x), x) == 0,
        access(access(s, cap, x), cap, x) == access(s, cap, x),
{
    let t = access(s, cap, x);
    if s.contains(x) {
        lemma_promote_no_duplicates(s, position_of(s, x));
    } else {
        lemma_enter_no_duplicates(s, cap, x);
    }
    assert(t[0] == x);
    lemma_position_unique(t, x, 0);
    assert(promote(t, 0) =~= t);
}

/// A successful access to an element not kept, in a full order, evicts
/// exactly the last element, the least recently used one: every other
/// element stays, behind the new one.
pub proof fn lemma_full_access_evicts_last<A>(s: Seq<A>, cap: nat, x: A)
    requires
        s.no_duplicates(),
        s.len() == cap,
        cap > 0,
        !s.contains(x),
    ensures
        access(s, cap, x) == seq![x] + s.drop_last(),
        access(s, cap, x).len() == cap,
        !access(s, cap, x).contains(s.last()),
        forall|i: int| 0 <= i < s.len() - 1 ==> access(s, cap, x).contains(#[trigger] s[i]),
{
    let t = access(s, cap, x);
    assert(t == seq![x] + s.drop_last());
    if t.contains(s.last()) {
        let k = choose|k: int| 0 <= k < t.len() && t[k] == s.last();
        if k == 0 {
            assert(s.contains(x));
        } else {
            assert(s[k - 1] == s[s.len() - 1]);
        }
    }
    assert forall|i: int| 0 <= i < s.len() - 1 implies t.contains(#[trigger] s[i]) by {
        assert(t[i + 1] == s[i]);
    }
}

/// The elements of `s` at which `keep` is true, in order.
pub open spec fn select<A>(s: Seq<A>, keep: Seq<bool>) -> Seq<A>
    decreases s.len(),
{
    if s.len() == 0 || keep.len() == 0 {
        Seq::empty()
    } else {
        select(s.drop_last(), keep.drop_last()) + if keep.last() {
            seq![s.last()]
        } else {
            Seq::empty()
        }
    }
}

} // verus!
