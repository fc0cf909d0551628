//! The backing-store capability that a cache loads from and writes back to.
use std::sync::Arc;
use vstd::prelude::*;
use writium::error::Error;

verus! {

/// A source where cached values come from and go back to.
pub trait CacheSource: Send + Sync + 'static {
    type Value: 'static;

    /// Produces the value stored under `id`. When nothing is stored there, an
    /// implementation fails with a not-found error if `create` is false and
    /// may make a default value if it is true. It keeps nothing in memory for
    /// later calls.
    fn load(&self, id: &str, create: bool) -> Result<Self::Value, Error>;

    /// Writes a value believed to be changed back to storage, e.g. by
    /// serialising it. Succeeds without doing anything unless overridden.
    fn unload(&self, id: &str, obj: &Self::Value) -> Result<(), Error> {
        Ok(())
    }

    /// Deletes whatever storage holds for `id`; nothing to delete is success.
    /// Succeeds without doing anything unless overridden.
    fn remove(&self, id: &str) -> Result<(), Error> {
        Ok(())
    }
}

/// A shared source is a source: a host that loads outside its lock on the
/// cache keeps one handle to the source and gives the cache another.
impl<S: CacheSource> CacheSource for Arc<S> {
    type Value = S::Value;

    fn load(&self, id: &str, create: bool) -> Result<S::Value, Error> {
        (**self).load(id, create)
    }

    fn unload(&self, id: &str, obj: &S::Value) -> Result<(), Error> {
        (**self).unload(id, obj)
    }

    fn remove(&self, id: &str) -> Result<(), Error> {
        (**self).remove(id)
    }
}

/// One call that a cache made on its backing store, with what it returned.
pub ghost enum StoreCall<T> {
    Load { id: Seq<char>, create: bool, outcome: Result<T, Error> },
    Unload { id: Seq<char>, value: T, result: Result<(), Error> },
    Remove { id: Seq<char>, result: Result<(), Error> },
}

/// What a load returned, for a call that is one.
pub open spec fn load_outcome<T>(c: StoreCall<T>) -> Result<T, Error>
    recommends
        c is Load,
{
    match c {
        StoreCall::Load { outcome, .. } => outcome,
        _ => arbitrary(),
    }
}

/// The value a write-back handed over, for a call that is one.
pub open spec fn unload_value<T>(c: StoreCall<T>) -> T
    recommends
        c is Unload,
{
    match c {
        StoreCall::Unload { value, .. } => value,
        _ => arbitrary(),
    }
}

/// What a write-back returned, for a call that is one.
pub open spec fn unload_result<T>(c: StoreCall<T>) -> Result<(), Error> {
    match c {
        StoreCall::Unload { result, .. } => result,
        _ => Ok(()),
    }
}

/// The failed write-backs among `calls`, in order, each with the identifier
/// it was for and the error the store gave.
pub open spec fn failures_in<T>(calls: Seq<StoreCall<T>>) -> Seq<(Seq<char>, Error)>
    decreases calls.len(),
{
    if calls.len() == 0 {
        Seq::empty()
    } else {
        failures_in(calls.drop_last()) + match calls.last() {
            StoreCall::Unload { id, result: Err(e), .. } => seq![(id, e)],
            _ => Seq::empty(),
        }
    }
}

/// Whether `c` is a write-back of the entry stored under `id`.
pub open spec fn is_unload_of<T>(c: StoreCall<T>, id: Seq<char>) -> bool {
    match c {
        StoreCall::Unload { id: u, .. } => u == id,
        _ => false,
    }
}

/// The write-backs of a pass over the entries stored under `ids`, in that
/// order: `outs[i]` is the value the write-back of the `i`-th handed over
/// and what it returned, or `None` where none was made.
pub open spec fn unload_trace<T>(ids: Seq<Seq<char>>, outs: Seq<Option<(T, Result<(), Error>)>>) -> Seq<StoreCall<T>>
    decreases ids.len(),
{
    if ids.len() == 0 || outs.len() == 0 {
        Seq::empty()
    } else {
        unload_trace(ids.drop_last(), outs.drop_last()) + match outs.last() {
            Some(out) => {
                let (v, res) = out;
                seq![StoreCall::Unload { id: ids.last(), value: v, result: res }]
            },
            None => Seq::empty(),
        }
    }
}

/// The value handed over by a write-back that `out` records.
pub open spec fn out_value<T>(out: Option<(T, Result<(), Error>)>) -> T {
    let (v, _) = out->0;
    v
}

/// What a write-back that `out` records returned.
pub open spec fn out_result<T>(out: Option<(T, Result<(), Error>)>) -> Result<(), Error> {
    let (_, res) = out->0;
    res
}

/// The identifier that a call on the store was about.
pub open spec fn call_id<T>(c: StoreCall<T>) -> Seq<char> {
    match c {
        StoreCall::Load { id, .. } => id,
        StoreCall::Unload { id, .. } => id,
        StoreCall::Remove { id, .. } => id,
    }
}

/// Whether `c` is the write-back of the `i`-th of `ids` for some `i` at
/// which `outs` records one.
pub open spec fn written_back<T>(
    c: StoreCall<T>,
    ids: Seq<Seq<char>>,
    outs: Seq<Option<(T, Result<(), Error>)>>,
) -> bool {
    exists|i: int|
        0 <= i < ids.len() && #[trigger] outs[i] is Some && c == StoreCall::<T>::Unload {
            id: ids[i],
            value: out_value(outs[i]),
            result: out_result(outs[i]),
        }
}

/// A teardown over entries with distinct identifiers writes back exactly the
/// entries for which a write-back was made, each exactly once, and calls the
/// store for nothing else.
pub proof fn lemma_unload_trace_once<T>(ids: Seq<Seq<char>>, outs: Seq<Option<(T, Result<(), Error>)>>)
    requires
        ids.no_duplicates(),
        outs.len() == ids.len(),
    ensures
        ({
            let t = unload_trace::<T>(ids, outs);
            &&& forall|k: int| 0 <= k < t.len() ==> written_back(#[trigger] t[k], ids, outs)
            &&& forall|i: int| 0 <= i < ids.len() && #[trigger] outs[i] is Some ==> t.contains(
                StoreCall::<T>::Unload { id: ids[i], value: out_value(outs[i]), result: out_result(outs[i]) },
            )
            &&& t.map_values(|c: StoreCall<T>| call_id(c)).no_duplicates()
        }),
    decreases ids.len(),
{
    let t = unload_trace::<T>(ids, outs);
    if ids.len() > 0 {
        let pids = ids.drop_last();
        let pouts = outs.drop_last();
        let n = ids.len() - 1;
        assert(pids.no_duplicates());
        lemma_unload_trace_once::<T>(pids, pouts);
        let pt = unload_trace::<T>(pids, pouts);
        // Every call of the shorter trace is about one of the first `n` ids.
        assert forall|k: int| 0 <= k < pt.len() implies call_id(pt[k]) != ids[n] by {
            let i = choose|i: int| 0 <= i < pids.len() && #[trigger] pouts[i] is Some
                && pt[k] == StoreCall::<T>::Unload { id: pids[i], value: out_value(pouts[i]), result: out_result(pouts[i]) };
            assert(ids[i] == pids[i]);
        }
        match outs.last() {
            Some(res) => {
                let (v, res) = res;
                let last = StoreCall::<T>::Unload { id: ids[n], value: v, result: res };
                assert(t == pt + seq![last]);
                assert forall|k: int| 0 <= k < t.len() implies written_back(t[k], ids, outs) by {
                    if k == pt.len() {
                        assert(outs[n] is Some);
                    } else {
                        let i = choose|i: int| 0 <= i < pids.len() && #[trigger] pouts[i] is Some
                            && pt[k] == StoreCall::<T>::Unload { id: pids[i], value: out_value(pouts[i]), result: out_result(pouts[i]) };
                        assert(outs[i] == pouts[i]);
                    }
                }
                assert forall|i: int| 0 <= i < ids.len() && #[trigger] outs[i] is Some implies t.contains(
                    StoreCall::<T>::Unload { id: ids[i], value: out_value(outs[i]), result: out_result(outs[i]) },
                ) by {
                    if i == n {
                        assert(t[pt.len() as int] == last);
                    } else {
                        assert(pouts[i] == outs[i]);
                        let k = choose|k: int| 0 <= k < pt.len() && pt[k] == StoreCall::<T>::Unload { id: pids[i], value: out_value(pouts[i]), result: out_result(pouts[i]) };
                        assert(t[k] == pt[k]);
                    }
                }
                let m = t.map_values(|c: StoreCall<T>| call_id(c));
                let pm = pt.map_values(|c: StoreCall<T>| call_id(c));
                assert forall|a: int, b: int| 0 <= a < m.len() && 0 <= b < m.len() && a != b implies m[a] != m[b] by {
                    if a == pt.len() {
                        assert(m[b] == pm[b]);
                    } else if b == pt.len() {
                        assert(m[a] == pm[a]);
                    } else {
                        assert(m[a] == pm[a] && m[b] == pm[b]);
                    }
                }
            },
            None => {
                assert(t =~= pt);
                assert forall|k: int| 0 <= k < t.len() implies written_back(t[k], ids, outs) by {
                    let i = choose|i: int| 0 <= i < pids.len() && #[trigger] pouts[i] is Some
                        && pt[k] == StoreCall::<T>::Unload { id: pids[i], value: out_value(pouts[i]), result: out_result(pouts[i]) };
                    assert(outs[i] == pouts[i]);
                }
                assert forall|i: int| 0 <= i < ids.len() && #[trigger] outs[i] is Some implies t.contains(
                    StoreCall::<T>::Unload { id: ids[i], value: out_value(outs[i]), result: out_result(outs[i]) },
                ) by {
                    assert(i != n);
                    assert(pouts[i] == outs[i]);
                }
            },
        }
    }
}

} // verus!
