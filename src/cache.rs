//! The cache: a bounded, recency-ordered sequence of shared entries in front
//! of a backing store.
use std::sync::Arc;
use vstd::prelude::*;
use writium::error::Error;

use crate::item::{guarded, CacheItem};
use crate::recency::{
    access, enter, evicts, lemma_enter_map, lemma_enter_no_duplicates, lemma_position_unique,
    lemma_promote_map, lemma_promote_no_duplicates, lemma_remove_map, lemma_remove_no_duplicates,
    position_of, promote, select,
};
use crate::source::{
    failures_in, is_unload_of, load_outcome, unload_result, unload_trace, unload_value, CacheSource, StoreCall,
};

verus! {

/// Relies on `Arc::clone`: a second handle to the same allocation.
#[verifier::external_body]
fn share<X>(a: &Arc<X>) -> (r: Arc<X>)
    ensures
        r == *a,
{
    Arc::clone(a)
}

/// The write-back decision: `src` is asked to write `value` back exactly
/// when the entry `id` was read as `dirty` and its value could be read.
/// Returns what the store answered, or `None` when no write-back was made.
pub fn unload_dirty_value<S: CacheSource>(
    src: &S,
    id: &str,
    dirty: bool,
    value: Option<&S::Value>,
) -> (r: Option<Result<(), Error>>)
    ensures
        r is Some <==> (dirty && value is Some),
        r matches Some(x) ==> value matches Some(v) && call_ensures(S::unload, (src, id, v), x),
{
    if dirty {
        match value {
            Some(v) => Some(src.unload(id, v)),
            None => None,
        }
    } else {
        None
    }
}

/// The store's part of a removal whose first step was
/// `Cache::begin_remove`, made without holding the cache: when the entry was
/// kept, the store removes it; otherwise the store is first asked to load it
/// with `create` false, to learn that it exists, and a failed load is
/// returned unchanged with nothing removed.
pub fn remove_from_store<S: CacheSource>(src: &S, id: &str, was_kept: bool) -> (r: Result<(), Error>)
    ensures
        was_kept ==> call_ensures(S::remove, (src, id), r),
        !was_kept ==> exists|probe: Result<S::Value, Error>|
            {
                &&& call_ensures(S::load, (src, id, false), probe)
                &&& probe matches Err(e) ==> r == Err::<(), Error>(e)
                &&& probe is Ok ==> call_ensures(S::remove, (src, id), r)
            },
{
    if was_kept {
        src.remove(id)
    } else {
        match src.load(id, false) {
            Err(e) => Err(e),
            Ok(_) => src.remove(id),
        }
    }
}

/// What became of a write-back.
pub enum WriteBack<R> {
    /// None was due: the entry was clean, or its lock poisoned so that its
    /// value cannot be read.
    Skipped,
    /// The entry was dirty but someone holds exclusive access to it, so it
    /// could not be read now; it is to be written back later.
    Busy,
    /// The store was asked to write the value back and answered this.
    Written(R),
}

/// Writes `item` back to `src` when it is dirty: reads its dirty flag, tries
/// a shared lock on its value only when the flag is set, and leaves the
/// decision to `unload_dirty_value`. Never blocks: while someone holds
/// exclusive access the entry is reported busy and the caller tries again
/// later. This is how the owner of a cache writes back an entry that
/// `finish_fetch` evicted or `take_deferred` handed out, without holding the
/// cache.
pub fn write_back_to<S: CacheSource>(src: &S, item: &CacheItem<S::Value>) -> (r: WriteBack<
    Result<(), Error>,
>)
    ensures
        r matches WriteBack::Written(x) ==> exists|id: &str, v: &S::Value|
            id@ == item.key() && call_ensures(S::unload, (src, id, v), x),
{
    let dirty = item.is_dirty();
    if dirty {
        match item.read() {
            Ok(Some(guard)) => match unload_dirty_value(src, item.id(), true, Some(guarded(&guard))) {
                Some(res) => WriteBack::Written(res),
                None => WriteBack::Skipped,
            },
            Ok(None) => WriteBack::Busy,
            Err(_) => match unload_dirty_value(src, item.id(), true, None) {
                Some(res) => WriteBack::Written(res),
                None => WriteBack::Skipped,
            },
        }
    } else {
        match unload_dirty_value(src, item.id(), false, None) {
            Some(res) => WriteBack::Written(res),
            None => WriteBack::Skipped,
        }
    }
}

/// How a fetch started by `Cache::begin_fetch` goes on.
#[verifier::reject_recursive_types(T)]
pub enum Fetch<T> {
    /// The entry is kept; here it is, made the most recently used.
    Hit(Arc<CacheItem<T>>),
    /// The caller is to load the value, without holding any lock on the
    /// cache, and hand the outcome to `finish_fetch`.
    Load,
    /// Another caller is loading this identifier: wait for it to finish,
    /// then start again.
    Wait,
}

/// Least-recently-used cache of entries loaded from a backing store.
pub struct Cache<S: CacheSource> {
    capacity: usize,
    /// Most recently used first. The dirty flag of an entry says whether it
    /// must be written back before it leaves.
    order: Vec<Arc<CacheItem<S::Value>>>,
    src: S,
    /// Identifiers whose load a caller of `begin_fetch` is making.
    in_flight: Vec<String>,
    /// Failed write-backs not yet handed out by `take_unload_failures`.
    failed: Vec<(String, Error)>,
    /// Dirty entries that left while busy, not yet handed out by
    /// `take_deferred`.
    deferred: Vec<Arc<CacheItem<S::Value>>>,
    /// Every call made on `src`, with what it returned.
    calls: Ghost<Seq<StoreCall<S::Value>>>,
    /// Failed write-backs already handed out, oldest first.
    reported: Ghost<Seq<(Seq<char>, Error)>>,
}

impl<S: CacheSource> Cache<S> {
    /// The most entries kept at a time.
    pub closed spec fn cap(&self) -> nat {
        self.capacity as nat
    }

    /// The kept entries, the most recently used first.
    pub closed spec fn entries(&self) -> Seq<Arc<CacheItem<S::Value>>> {
        self.order@
    }

    /// Every call made on the backing store so far, oldest first.
    pub closed spec fn calls(&self) -> Seq<StoreCall<S::Value>> {
        self.calls@
    }

    /// The backing store.
    pub closed spec fn source(&self) -> S {
        self.src
    }

    /// Dirty entries that left while busy, to be written back by the owner,
    /// oldest first.
    pub closed spec fn deferred(&self) -> Seq<Arc<CacheItem<S::Value>>> {
        self.deferred@
    }

    /// Failed write-backs not yet handed out, oldest first.
    pub closed spec fn unreported(&self) -> Seq<(Seq<char>, Error)> {
        self.failed@.map_values(|f: (String, Error)| (f.0@, f.1))
    }

    /// Failed write-backs already handed out, oldest first.
    pub closed spec fn reported(&self) -> Seq<(Seq<char>, Error)> {
        self.reported@
    }

    /// Every failed write-back is handed out once: those handed out, then
    /// those waiting, are the failures among the calls, in order.
    pub open spec fn reports_failures(&self) -> bool {
        self.reported() + self.unreported() == failures_in(self.calls())
    }

    /// The identifiers being loaded by callers of `begin_fetch`.
    pub closed spec fn pending(&self) -> Seq<Seq<char>> {
        self.in_flight@.map_values(|s: String| s@)
    }

    /// The identifiers of the kept entries, in the same order.
    pub open spec fn ids(&self) -> Seq<Seq<char>> {
        self.entries().map_values(|e: Arc<CacheItem<S::Value>>| e.key())
    }

    /// At most `cap()` entries are kept, under distinct identifiers, and no
    /// identifier is being loaded twice.
    pub open spec fn wf(&self) -> bool {
        &&& self.entries().len() <= self.cap()
        &&& self.ids().no_duplicates()
        &&& self.pending().no_duplicates()
        &&& self.reports_failures()
    }

    /// What becomes of the entry that entering into `self` evicts, from the
    /// calls `before` and deferred entries `before_d` to `after` and
    /// `after_d`: nothing, when it is clean or unreadable or nothing leaves;
    /// one write-back of it; or, when it is busy, a place among the deferred
    /// entries. Which one is decided by `unload_if_dirty` on the flag and
    /// value read from that entry.
    pub open spec fn writes_back_evicted(
        &self,
        before: Seq<StoreCall<S::Value>>,
        after: Seq<StoreCall<S::Value>>,
        before_d: Seq<Arc<CacheItem<S::Value>>>,
        after_d: Seq<Arc<CacheItem<S::Value>>>,
    ) -> bool {
        ||| after == before && after_d == before_d
        ||| {
            &&& evicts(self.entries(), self.cap())
            &&& after_d == before_d
            &&& after.len() == before.len() + 1
            &&& after.drop_last() == before
            &&& is_unload_of(after.last(), self.ids().last())
        }
        ||| {
            &&& evicts(self.entries(), self.cap())
            &&& after == before
            &&& after_d == before_d.push(self.entries().last())
        }
    }

    /// What `get` (`create` false) and `create` (`create` true) do from
    /// `self`: `after` is the cache after the call and `r` its result. A kept
    /// entry is made the most recently used and returned, with no call on the
    /// store. Any other is loaded once: a failed load is returned unchanged
    /// and changes nothing; a loaded value is entered in front, after the
    /// least recently used entry of a full cache leaves, written back if it
    /// is dirty. A returned entry is then in front, unless nothing is kept.
    pub open spec fn fetched(
        self,
        after: Self,
        id: Seq<char>,
        create: bool,
        r: Result<Arc<CacheItem<S::Value>>, Error>,
    ) -> bool {
        &&& self.ids().contains(id) ==> {
            let i = position_of(self.ids(), id);
            &&& r == Ok::<Arc<CacheItem<S::Value>>, Error>(self.entries()[i])
            &&& after.entries() == promote(self.entries(), i)
            &&& after.calls() == self.calls()
            &&& after.deferred() == self.deferred()
        }
        &&& !self.ids().contains(id) ==> {
            let n = self.calls().len();
            let load = after.calls()[n as int];
            &&& after.calls().len() > n
            &&& load matches StoreCall::Load { id: lid, create: lcreate, outcome } && lid == id
                && lcreate == create && match outcome {
                Err(e) => {
                    &&& r == Err::<Arc<CacheItem<S::Value>>, Error>(e)
                    &&& after.entries() == self.entries()
                    &&& after.calls() == self.calls().push(load)
                    &&& after.deferred() == self.deferred()
                },
                Ok(_) => {
                    let h = r->Ok_0;
                    &&& r is Ok
                    &&& h.key() == id
                    &&& after.entries() == enter(self.entries(), self.cap(), h)
                    &&& self.writes_back_evicted(
                        self.calls().push(load),
                        after.calls(),
                        self.deferred(),
                        after.deferred(),
                    )
                },
            }
        }
        &&& r is Ok ==> after.ids() == access(self.ids(), self.cap(), id)
        &&& r is Ok && self.cap() > 0 ==> after.entries().len() > 0 && after.entries()[0] == r->Ok_0
        &&& r is Err ==> after.entries() == self.entries()
    }

    /// What `enter_loaded` does from `self` to the entries: `after` is the
    /// cache after the call and `r` the handle it returned.
    pub open spec fn entered(
        self,
        after: Self,
        id: Seq<char>,
        loaded: Result<S::Value, Error>,
        r: Result<Arc<CacheItem<S::Value>>, Error>,
    ) -> bool {
        match loaded {
            Err(e) => {
                &&& r == Err::<Arc<CacheItem<S::Value>>, Error>(e)
                &&& after.entries() == self.entries()
            },
            Ok(_) => {
                &&& r is Ok
                &&& after.ids() == access(self.ids(), self.cap(), id)
                &&& self.ids().contains(id) ==> {
                    let i = position_of(self.ids(), id);
                    &&& r == Ok::<Arc<CacheItem<S::Value>>, Error>(self.entries()[i])
                    &&& after.entries() == promote(self.entries(), i)
                }
                &&& !self.ids().contains(id) ==> {
                    &&& r->Ok_0.key() == id
                    &&& after.entries() == enter(self.entries(), self.cap(), r->Ok_0)
                }
            },
        }
    }

    /// What `insert_loaded` does from `self`: `after` is the cache after the
    /// call and `r` its result.
    pub open spec fn inserted(
        self,
        after: Self,
        id: Seq<char>,
        loaded: Result<S::Value, Error>,
        r: Result<Arc<CacheItem<S::Value>>, Error>,
    ) -> bool {
        match loaded {
            Err(e) => {
                &&& r == Err::<Arc<CacheItem<S::Value>>, Error>(e)
                &&& after.entries() == self.entries()
                &&& after.calls() == self.calls()
                &&& after.deferred() == self.deferred()
            },
            Ok(_) => {
                &&& r is Ok
                &&& after.ids() == access(self.ids(), self.cap(), id)
                &&& self.ids().contains(id) ==> {
                    let i = position_of(self.ids(), id);
                    &&& r == Ok::<Arc<CacheItem<S::Value>>, Error>(self.entries()[i])
                    &&& after.entries() == promote(self.entries(), i)
                    &&& after.calls() == self.calls()
                    &&& after.deferred() == self.deferred()
                }
                &&& !self.ids().contains(id) ==> {
                    let h = r->Ok_0;
                    &&& h.key() == id
                    &&& after.entries() == enter(self.entries(), self.cap(), h)
                    &&& self.writes_back_evicted(
                        self.calls(),
                        after.calls(),
                        self.deferred(),
                        after.deferred(),
                    )
                }
            },
        }
    }

    /// An empty cache that keeps at most `capacity` entries loaded from `src`.
    pub fn new(capacity: usize, src: S) -> (r: Cache<S>)
        ensures
            r.wf(),
            r.cap() == capacity,
            r.entries() == Seq::<Arc<CacheItem<S::Value>>>::empty(),
            r.calls() == Seq::<StoreCall<S::Value>>::empty(),
            r.pending() == Seq::<Seq<char>>::empty(),
            r.unreported() == Seq::<(Seq<char>, Error)>::empty(),
            r.deferred() == Seq::<Arc<CacheItem<S::Value>>>::empty(),
            r.source() == src,
    {
        Cache {
            capacity,
            order: Vec::new(),
            src,
            in_flight: Vec::new(),
            failed: Vec::new(),
            deferred: Vec::new(),
            calls: Ghost(Seq::empty()),
            reported: Ghost(Seq::empty()),
        }
    }

    /// The maximum number of entries kept at a time.
    pub fn capacity(&self) -> (r: usize)
        ensures
            r == self.cap(),
    {
        self.capacity
    }

    /// The number of entries kept now.
    pub fn len(&self) -> (r: usize)
        ensures
            r == self.entries().len(),
    {
        self.order.len()
    }

    /// Where the entry stored under `key` stands, if it is kept.
    fn position(&self, key: &String) -> (r: Option<usize>)
        ensures
            match r {
                Some(i) => i < self.entries().len() && self.ids()[i as int] == key@,
                None => !self.ids().contains(key@),
            },
    {
        let mut i: usize = 0;
        while i < self.order.len()
            invariant
                i <= self.order@.len(),
                forall|j: int| 0 <= j < i ==> self.ids()[j] != key@,
            decreases self.order@.len() - i,
        {
            if self.order[i].has_id(key) {
                return Some(i);
            }
            i += 1;
        }
        None
    }

    /// Returns the kept entry stored under `id`, made the most recently used,
    /// or `None` when it is not kept. Touches no backing store.
    pub fn lookup(&mut self, id: &str) -> (r: Option<Arc<CacheItem<S::Value>>>)
        requires
            old(self).wf(),
        ensures
            final(self).wf(),
            final(self).cap() == old(self).cap(),
            final(self).source() == old(self).source(),
            final(self).deferred() == old(self).deferred(),
            final(self).pending() == old(self).pending(),
            final(self).reported() == old(self).reported(),
            final(self).calls() == old(self).calls(),
            old(self).ids().contains(id@) ==> {
                let i = position_of(old(self).ids(), id@);
                &&& r == Some(old(self).entries()[i])
                &&& final(self).entries() == promote(old(self).entries(), i)
            },
            !old(self).ids().contains(id@) ==> r is None && final(self).entries() == old(self).entries(),
            r is Some ==> {
                &&& final(self).ids() == access(old(self).ids(), old(self).cap(), id@)
                &&& final(self).entries()[0] == r->0
            },
    {
        let key = id.to_owned();
        match self.position(&key) {
            Some(pos) => {
                proof {
                    lemma_position_unique(old(self).ids(), id@, pos as int);
                }
                let item = self.order.remove(pos);
                let handle = share(&item);
                self.order.insert(0, item);
                proof {
                    assert(self.entries() =~= promote(old(self).entries(), pos as int));
                    lemma_promote_map(old(self).entries(), pos as int, |e: Arc<CacheItem<S::Value>>| e.key());
                    lemma_promote_no_duplicates(old(self).ids(), pos as int);
                }
                Some(handle)
            }
            None => None,
        }
    }
}

impl<S: CacheSource> Cache<S> {
    /// Hands out the failed write-backs, of evictions and of teardown, that
    /// were not handed out yet, oldest first, each with the identifier it
    /// was for, so that the owner can report them.
    pub fn take_unload_failures(&mut self) -> (r: Vec<(String, Error)>)
        requires
            old(self).wf(),
        ensures
            final(self).wf(),
            final(self).entries() == old(self).entries(),
            final(self).cap() == old(self).cap(),
            final(self).source() == old(self).source(),
            final(self).deferred() == old(self).deferred(),
            final(self).pending() == old(self).pending(),
            final(self).calls() == old(self).calls(),
            r@.map_values(|f: (String, Error)| (f.0@, f.1)) == old(self).unreported(),
            final(self).unreported() == Seq::<(Seq<char>, Error)>::empty(),
            final(self).reported() == old(self).reported() + old(self).unreported(),
    {
        let mut r: Vec<(String, Error)> = Vec::new();
        std::mem::swap(&mut r, &mut self.failed);
        self.reported = Ghost(self.reported@ + r@.map_values(|f: (String, Error)| (f.0@, f.1)));
        proof {
            assert(self.unreported() =~= Seq::<(Seq<char>, Error)>::empty());
            assert(self.reported() + self.unreported() =~= old(self).reported() + old(self).unreported());
        }
        r
    }

    /// Calls `load` on the store and records the call.
    fn call_load(&mut self, id: &str, create: bool) -> (r: Result<S::Value, Error>)
        requires
            old(self).reports_failures(),
        ensures
            final(self).reports_failures(),
            final(self).entries() == old(self).entries(),
            final(self).cap() == old(self).cap(),
            final(self).source() == old(self).source(),
            final(self).deferred() == old(self).deferred(),
            final(self).pending() == old(self).pending(),
            final(self).reported() == old(self).reported(),
            final(self).calls() == old(self).calls().push(StoreCall::Load { id: id@, create, outcome: r }),
            call_ensures(S::load, (&old(self).source(), id, create), r),
    {
        let r = self.src.load(id, create);
        self.calls = Ghost(self.calls@.push(StoreCall::Load { id: id@, create, outcome: r }));
        proof {
            assert(self.calls().drop_last() =~= old(self).calls());
        }
        r
    }

    /// Calls `remove` on the store and records the call.
    fn call_remove(&mut self, id: &str) -> (r: Result<(), Error>)
        requires
            old(self).reports_failures(),
        ensures
            final(self).reports_failures(),
            final(self).entries() == old(self).entries(),
            final(self).cap() == old(self).cap(),
            final(self).source() == old(self).source(),
            final(self).deferred() == old(self).deferred(),
            final(self).pending() == old(self).pending(),
            final(self).reported() == old(self).reported(),
            final(self).calls() == old(self).calls().push(StoreCall::Remove { id: id@, result: r }),
            call_ensures(S::remove, (&old(self).source(), id), r),
    {
        let r = self.src.remove(id);
        self.calls = Ghost(self.calls@.push(StoreCall::Remove { id: id@, result: r }));
        proof {
            assert(self.calls().drop_last() =~= old(self).calls());
        }
        r
    }

    /// Records a write-back of `value` for `id` that returned `res`; a
    /// failure is kept to be handed out by `take_unload_failures`. Returns
    /// whether it succeeded.
    fn record_unload(&mut self, id: &str, value: &S::Value, res: Result<(), Error>) -> (r: bool)
        requires
            old(self).reports_failures(),
        ensures
            final(self).reports_failures(),
            final(self).entries() == old(self).entries(),
            final(self).cap() == old(self).cap(),
            final(self).source() == old(self).source(),
            final(self).deferred() == old(self).deferred(),
            final(self).pending() == old(self).pending(),
            final(self).reported() == old(self).reported(),
            final(self).calls() == old(self).calls().push(
                StoreCall::Unload { id: id@, value: *value, result: res },
            ),
            r == res is Ok,
    {
        let ghost call = StoreCall::Unload { id: id@, value: *value, result: res };
        self.calls = Ghost(self.calls@.push(call));
        proof {
            assert(self.calls().drop_last() =~= old(self).calls());
        }
        let ok = match res {
            Ok(()) => true,
            Err(e) => {
                self.failed.push((id.to_owned(), e));
                proof {
                    assert(self.unreported() =~= old(self).unreported().push((id@, e)));
                    assert(self.reported() + self.unreported() =~= (old(self).reported()
                        + old(self).unreported()).push((id@, e)));
                    assert(failures_in(self.calls()) =~= failures_in(old(self).calls()).push((id@, e)));
                }
                false
            },
        };
        proof {
            if ok {
                assert(failures_in(self.calls()) =~= failures_in(old(self).calls()));
            }
        }
        ok
    }

    /// The write-back decision of `unload_dirty_value`, made on this cache's
    /// store and recorded: the store is asked to write `value` back exactly
    /// when the entry `id` was read as `dirty` and its value could be read.
    /// Returns whether that write-back succeeded, or `None` when none was
    /// made.
    pub fn unload_if_dirty(&mut self, id: &str, dirty: bool, value: Option<&S::Value>) -> (r: Option<bool>)
        requires
            old(self).wf(),
        ensures
            final(self).wf(),
            final(self).entries() == old(self).entries(),
            final(self).cap() == old(self).cap(),
            final(self).source() == old(self).source(),
            final(self).deferred() == old(self).deferred(),
            final(self).pending() == old(self).pending(),
            final(self).reported() == old(self).reported(),
            r is Some <==> (dirty && value is Some),
            match r {
                Some(ok) => {
                    let res = unload_result(final(self).calls().last());
                    &&& final(self).calls().len() == old(self).calls().len() + 1
                    &&& final(self).calls().drop_last() == old(self).calls()
                    &&& value matches Some(v) && final(self).calls().last() == StoreCall::Unload {
                        id: id@,
                        value: *v,
                        result: res,
                    } && call_ensures(S::unload, (&old(self).source(), id, v), res)
                    &&& ok == res is Ok
                },
                None => final(self).calls() == old(self).calls(),
            },
    {
        match value {
            Some(v) => match unload_dirty_value(&self.src, id, dirty, Some(v)) {
                Some(res) => Some(self.record_unload(id, v, res)),
                None => None,
            },
            None => {
                let _ = unload_dirty_value(&self.src, id, dirty, None);
                None
            },
        }
    }

    /// Writes `item` back to the store when it is dirty: reads its dirty
    /// flag, tries a shared lock on its value only when the flag is set, and
    /// leaves the decision to `unload_if_dirty`. Never blocks: an entry that
    /// someone holds exclusive access to is put among the deferred entries
    /// for the owner to write back later. A poisoned lock leaves the value
    /// unreadable, and then nothing is written.
    fn write_back(&mut self, item: Arc<CacheItem<S::Value>>) -> (r: WriteBack<bool>)
        requires
            old(self).wf(),
        ensures
            final(self).wf(),
            final(self).entries() == old(self).entries(),
            final(self).cap() == old(self).cap(),
            final(self).source() == old(self).source(),
            final(self).pending() == old(self).pending(),
            final(self).reported() == old(self).reported(),
            match r {
                WriteBack::Written(ok) => {
                    &&& final(self).calls().len() == old(self).calls().len() + 1
                    &&& final(self).calls().drop_last() == old(self).calls()
                    &&& is_unload_of(final(self).calls().last(), item.key())
                    &&& ok == unload_result(final(self).calls().last()) is Ok
                    &&& final(self).deferred() == old(self).deferred()
                },
                WriteBack::Busy => {
                    &&& final(self).calls() == old(self).calls()
                    &&& final(self).deferred() == old(self).deferred().push(item)
                },
                WriteBack::Skipped => {
                    &&& final(self).calls() == old(self).calls()
                    &&& final(self).deferred() == old(self).deferred()
                },
            },
    {
        let dirty = item.is_dirty();
        let (done, busy) = if dirty {
            match item.read() {
                Ok(Some(guard)) => (self.unload_if_dirty(item.id(), true, Some(guarded(&guard))), false),
                Ok(None) => (None, true),
                Err(_) => (self.unload_if_dirty(item.id(), true, None), false),
            }
        } else {
            (self.unload_if_dirty(item.id(), false, None), false)
        };
        if busy {
            self.deferred.push(item);
            return WriteBack::Busy;
        }
        match done {
            Some(ok) => WriteBack::Written(ok),
            None => WriteBack::Skipped,
        }
    }

    /// Hands out the dirty entries that left while busy, oldest first, for
    /// the owner to write back with `write_back_to` once they are free.
    pub fn take_deferred(&mut self) -> (r: Vec<Arc<CacheItem<S::Value>>>)
        requires
            old(self).wf(),
        ensures
            final(self).wf(),
            final(self).entries() == old(self).entries(),
            final(self).cap() == old(self).cap(),
            final(self).source() == old(self).source(),
            final(self).pending() == old(self).pending(),
            final(self).calls() == old(self).calls(),
            final(self).reported() == old(self).reported(),
            r@ == old(self).deferred(),
            final(self).deferred() == Seq::<Arc<CacheItem<S::Value>>>::empty(),
    {
        let mut r: Vec<Arc<CacheItem<S::Value>>> = Vec::new();
        std::mem::swap(&mut r, &mut self.deferred);
        r
    }

    /// Keeps a value just loaded for `id` and returns a handle to it, with
    /// the entry that left to make room, which it does not write back: the
    /// insertion step of a cache miss whose write-back the caller makes. A
    /// failed load is returned unchanged and changes nothing. When `id` is
    /// kept already, the kept entry wins and is made the most recently used.
    /// Otherwise, with a capacity of zero the value is handed out and not
    /// kept; with a full cache the least recently used entry leaves.
    pub fn enter_loaded(&mut self, id: &str, loaded: Result<S::Value, Error>) -> (r: (
        Result<Arc<CacheItem<S::Value>>, Error>,
        Option<Arc<CacheItem<S::Value>>>,
    ))
        requires
            old(self).wf(),
        ensures
            final(self).wf(),
            final(self).cap() == old(self).cap(),
            final(self).source() == old(self).source(),
            final(self).deferred() == old(self).deferred(),
            final(self).pending() == old(self).pending(),
            final(self).reported() == old(self).reported(),
            final(self).calls() == old(self).calls(),
            old(self).entered(*final(self), id@, loaded, r.0),
            r.1 == (if loaded is Ok && !old(self).ids().contains(id@) && evicts(
                old(self).entries(),
                old(self).cap(),
            ) {
                Some(old(self).entries().last())
            } else {
                None
            }),
    {
        let value = match loaded {
            Ok(value) => value,
            Err(e) => {
                return (Err(e), None);
            },
        };
        if let Some(handle) = self.lookup(id) {
            return (Ok(handle), None);
        }
        let item = Arc::new(CacheItem::new(id, value));
        proof {
            lemma_enter_map(old(self).entries(), old(self).cap(), item, |e: Arc<CacheItem<S::Value>>| e.key());
            lemma_enter_no_duplicates(old(self).ids(), old(self).cap(), id@);
        }
        if self.capacity == 0 {
            return (Ok(item), None);
        }
        let mut evicted = None;
        if self.order.len() == self.capacity {
            let last = self.order.len() - 1;
            let lru = self.order.remove(last);
            proof {
                assert(self.entries() =~= old(self).entries().drop_last());
            }
            evicted = Some(lru);
        }
        let handle = share(&item);
        self.order.insert(0, item);
        proof {
            assert(self.entries() =~= enter(old(self).entries(), old(self).cap(), handle));
        }
        (Ok(handle), evicted)
    }

    /// Keeps a value just loaded for `id` and returns a handle to it: the
    /// insertion step of a cache miss. As `enter_loaded`, but the entry that
    /// leaves a full cache is written back here if it is dirty, or, while
    /// someone holds exclusive access to it, put among the deferred entries
    /// for `take_deferred`.
    pub fn insert_loaded(&mut self, id: &str, loaded: Result<S::Value, Error>) -> (r: Result<
        Arc<CacheItem<S::Value>>,
        Error,
    >)
        requires
            old(self).wf(),
        ensures
            final(self).wf(),
            final(self).cap() == old(self).cap(),
            final(self).source() == old(self).source(),
            final(self).pending() == old(self).pending(),
            old(self).inserted(*final(self), id@, loaded, r),
    {
        let (r, evicted) = self.enter_loaded(id, loaded);
        if let Some(lru) = evicted {
            proof {
                assert(old(self).ids().last() == lru.key());
            }
            let _ = self.write_back(lru);
            proof {
                if self.calls() != old(self).calls() {
                    assert(self.calls().drop_last() =~= old(self).calls());
                }
            }
        }
        r
    }

    /// Shared body of `get` and `create`.
    fn fetch(&mut self, id: &str, create: bool) -> (r: Result<Arc<CacheItem<S::Value>>, Error>)
        requires
            old(self).wf(),
        ensures
            final(self).wf(),
            final(self).cap() == old(self).cap(),
            final(self).source() == old(self).source(),
            final(self).pending() == old(self).pending(),
            old(self).fetched(*final(self), id@, create, r),
            !old(self).ids().contains(id@) ==> call_ensures(
                S::load,
                (&old(self).source(), id, create),
                load_outcome(final(self).calls()[old(self).calls().len() as int]),
            ),
    {
        if let Some(handle) = self.lookup(id) {
            return Ok(handle);
        }
        let loaded = self.call_load(id, create);
        let ghost load = StoreCall::Load { id: id@, create, outcome: loaded };
        let ghost mid = *self;
        let r = self.insert_loaded(id, loaded);
        proof {
            assert(mid.entries() == old(self).entries());
            let n = old(self).calls().len() as int;
            assert(mid.calls()[n] == load);
            assert(self.calls()[n] == load) by {
                if self.calls() != mid.calls() {
                    assert(self.calls().drop_last()[n] == self.calls()[n]);
                }
            }
        }
        r
    }

    /// The entry stored under `id`. When it is not kept, it is loaded with
    /// `create` false and kept; a failed load is returned unchanged and
    /// changes nothing. An evicted dirty entry is written back here, or
    /// deferred while someone holds it (see `take_deferred`). The load is
    /// made here even when a caller of
    /// `begin_fetch` is loading `id` too: whichever inserts second gets the
    /// entry of the first.
    pub fn get(&mut self, id: &str) -> (r: Result<Arc<CacheItem<S::Value>>, Error>)
        requires
            old(self).wf(),
        ensures
            final(self).wf(),
            final(self).cap() == old(self).cap(),
            final(self).source() == old(self).source(),
            final(self).pending() == old(self).pending(),
            final(self).entries().len() <= final(self).cap(),
            old(self).fetched(*final(self), id@, false, r),
            !old(self).ids().contains(id@) ==> call_ensures(
                S::load,
                (&old(self).source(), id, false),
                load_outcome(final(self).calls()[old(self).calls().len() as int]),
            ),
    {
        self.fetch(id, false)
    }

    /// As `get`, but a missing entry is loaded with `create` true, so that
    /// the store may make a default value.
    pub fn create(&mut self, id: &str) -> (r: Result<Arc<CacheItem<S::Value>>, Error>)
        requires
            old(self).wf(),
        ensures
            final(self).wf(),
            final(self).cap() == old(self).cap(),
            final(self).source() == old(self).source(),
            final(self).pending() == old(self).pending(),
            final(self).entries().len() <= final(self).cap(),
            old(self).fetched(*final(self), id@, true, r),
            !old(self).ids().contains(id@) ==> call_ensures(
                S::load,
                (&old(self).source(), id, true),
                load_outcome(final(self).calls()[old(self).calls().len() as int]),
            ),
    {
        self.fetch(id, true)
    }
}

impl<S: CacheSource> Cache<S> {
    /// Removes the entry stored under `id`, from the cache without writing it
    /// back and then from the store. When it is not kept, the store is first
    /// asked to load it with `create` false, to learn that it exists: a
    /// failed load is returned unchanged and nothing is removed.
    pub fn remove(&mut self, id: &str) -> (r: Result<(), Error>)
        requires
            old(self).wf(),
        ensures
            final(self).wf(),
            final(self).cap() == old(self).cap(),
            final(self).source() == old(self).source(),
            final(self).deferred() == old(self).deferred(),
            final(self).pending() == old(self).pending(),
            final(self).entries().len() <= final(self).cap(),
            old(self).ids().contains(id@) ==> {
                &&& final(self).entries() == old(self).entries().remove(position_of(old(self).ids(), id@))
                &&& final(self).calls() == old(self).calls().push(StoreCall::Remove { id: id@, result: r })
            },
            !old(self).ids().contains(id@) ==> {
                let n = old(self).calls().len();
                let probe = final(self).calls()[n as int];
                &&& final(self).entries() == old(self).entries()
                &&& final(self).calls().len() > n
                &&& probe matches StoreCall::Load { id: lid, create: lcreate, outcome } && lid == id@
                    && !lcreate && match outcome {
                    Err(e) => {
                        &&& r == Err::<(), Error>(e)
                        &&& final(self).calls() == old(self).calls().push(probe)
                    },
                    Ok(_) => final(self).calls() == old(self).calls().push(probe).push(
                        StoreCall::Remove { id: id@, result: r },
                    ),
                }
            },
            old(self).ids().contains(id@) ==> call_ensures(S::remove, (&old(self).source(), id), r),
            !old(self).ids().contains(id@) ==> {
                let probe = load_outcome(final(self).calls()[old(self).calls().len() as int]);
                &&& call_ensures(S::load, (&old(self).source(), id, false), probe)
                &&& probe is Ok ==> call_ensures(S::remove, (&old(self).source(), id), r)
            },
            !final(self).ids().contains(id@),
    {
        let key = id.to_owned();
        match self.position(&key) {
            Some(pos) => {
                proof {
                    lemma_position_unique(old(self).ids(), id@, pos as int);
                }
                let _ = self.order.remove(pos);
                proof {
                    lemma_remove_map(old(self).entries(), pos as int, |e: Arc<CacheItem<S::Value>>| e.key());
                    lemma_remove_no_duplicates(old(self).ids(), pos as int);
                }
                self.call_remove(id)
            },
            None => {
                let probe = self.call_load(id, false);
                match probe {
                    Err(e) => Err(e),
                    Ok(_) => self.call_remove(id),
                }
            },
        }
    }

    /// The first step of a removal whose store part is made outside the
    /// cache, so that a host can release its lock on the cache meanwhile: the
    /// entry stored under `id` is detached without writing it back, and the
    /// result says whether it was kept. `remove_from_store` makes the rest.
    /// Touches no backing store.
    pub fn begin_remove(&mut self, id: &str) -> (r: bool)
        requires
            old(self).wf(),
        ensures
            final(self).wf(),
            final(self).cap() == old(self).cap(),
            final(self).source() == old(self).source(),
            final(self).deferred() == old(self).deferred(),
            final(self).pending() == old(self).pending(),
            final(self).calls() == old(self).calls(),
            final(self).reported() == old(self).reported(),
            r == old(self).ids().contains(id@),
            r ==> final(self).entries() == old(self).entries().remove(position_of(old(self).ids(), id@)),
            !r ==> final(self).entries() == old(self).entries(),
            !final(self).ids().contains(id@),
    {
        let key = id.to_owned();
        match self.position(&key) {
            Some(pos) => {
                proof {
                    lemma_position_unique(old(self).ids(), id@, pos as int);
                }
                let _ = self.order.remove(pos);
                proof {
                    lemma_remove_map(old(self).entries(), pos as int, |e: Arc<CacheItem<S::Value>>| e.key());
                    lemma_remove_no_duplicates(old(self).ids(), pos as int);
                }
                true
            },
            None => false,
        }
    }

    /// Teardown: writes every dirty entry back, once each, and empties the
    /// cache. A failed write-back does not stop the others; it is kept for
    /// `take_unload_failures`. Never blocks: a dirty entry that someone holds
    /// exclusive access to is put among the deferred entries, for the owner
    /// to write back once it is free. Loads that callers of `begin_fetch` are
    /// making stay pending. Verus lets a destructor call nothing that may
    /// unwind, which calling the store may do, so an owner that wants
    /// teardown at the end of a scope calls this from its own `Drop`.
    pub fn flush(&mut self)
        requires
            old(self).wf(),
        ensures
            final(self).wf(),
            final(self).cap() == old(self).cap(),
            final(self).source() == old(self).source(),
            final(self).pending() == old(self).pending(),
            final(self).reported() == old(self).reported(),
            final(self).entries().len() == 0,
            exists|outs: Seq<Option<(S::Value, Result<(), Error>)>>, busy: Seq<bool>|
                {
                    &&& outs.len() == old(self).entries().len()
                    &&& busy.len() == old(self).entries().len()
                    &&& final(self).calls() == old(self).calls() + unload_trace(old(self).ids(), outs)
                    &&& final(self).deferred() == old(self).deferred() + select(old(self).entries(), busy)
                    &&& forall|k: int| 0 <= k < busy.len() && #[trigger] busy[k] ==> outs[k] is None
                },
    {
        let ghost ids = old(self).ids();
        let ghost es = old(self).entries();
        let ghost mut outs: Seq<Option<(S::Value, Result<(), Error>)>> = Seq::empty();
        let ghost mut busy: Seq<bool> = Seq::empty();
        let mut i: usize = 0;
        while i < self.order.len()
            invariant
                self.entries() == es,
                self.cap() == old(self).cap(),
                self.source() == old(self).source(),
                self.pending() == old(self).pending(),
                self.reported() == old(self).reported(),
                self.wf(),
                ids == self.ids(),
                es == old(self).entries(),
                i <= es.len(),
                outs.len() == i,
                busy.len() == i,
                self.calls() == old(self).calls() + unload_trace::<S::Value>(ids.take(i as int), outs),
                self.deferred() == old(self).deferred() + select(es.take(i as int), busy),
                forall|k: int| 0 <= k < busy.len() && #[trigger] busy[k] ==> outs[k] is None,
            decreases es.len() - i,
        {
            let item = share(&self.order[i]);
            let ghost prev = self.calls();
            let ghost prev_d = self.deferred();
            let out = self.write_back(item);
            proof {
                let before = unload_trace::<S::Value>(ids.take(i as int), outs);
                let before_d = select(es.take(i as int), busy);
                assert(ids.take(i as int + 1).drop_last() =~= ids.take(i as int));
                assert(es.take(i as int + 1).drop_last() =~= es.take(i as int));
                assert(ids.take(i as int + 1).last() == es[i as int].key());
                assert(es.take(i as int + 1).last() == es[i as int]);
                let (o, b) = match out {
                    WriteBack::Written(_) => (
                        Some((unload_value(self.calls().last()), unload_result(self.calls().last()))),
                        false,
                    ),
                    WriteBack::Busy => (None, true),
                    WriteBack::Skipped => (None, false),
                };
                let next_outs = outs.push(o);
                let next_busy = busy.push(b);
                assert(next_outs.drop_last() =~= outs);
                assert(next_busy.drop_last() =~= busy);
                let after = unload_trace::<S::Value>(ids.take(i as int + 1), next_outs);
                let after_d = select(es.take(i as int + 1), next_busy);
                match out {
                    WriteBack::Written(_) => {
                        let last = self.calls().last();
                        assert(last == StoreCall::<S::Value>::Unload {
                            id: es[i as int].key(),
                            value: unload_value(last),
                            result: unload_result(last),
                        });
                        assert(after == before + seq![last]);
                        assert(self.calls() =~= prev.push(last));
                        assert(self.calls() =~= old(self).calls() + after);
                        assert(after_d =~= before_d);
                    },
                    WriteBack::Busy => {
                        assert(after =~= before);
                        assert(after_d == before_d + seq![es[i as int]]);
                        assert(self.deferred() =~= old(self).deferred() + after_d);
                    },
                    WriteBack::Skipped => {
                        assert(after =~= before);
                        assert(after_d =~= before_d);
                    },
                }
                assert forall|k: int| 0 <= k < next_busy.len() && #[trigger] next_busy[k] implies next_outs[k] is None by {
                    if k < i {
                        assert(next_busy[k] == busy[k]);
                        assert(next_outs[k] == outs[k]);
                    }
                }
                outs = next_outs;
                busy = next_busy;
            }
            i += 1;
        }
        proof {
            assert(ids.take(i as int) =~= ids);
            assert(es.take(i as int) =~= es);
        }
        self.order.clear();
    }
}

impl<S: CacheSource> Cache<S> {
    /// Where `key` stands among the identifiers being loaded, if it is one.
    fn pending_position(&self, key: &String) -> (r: Option<usize>)
        ensures
            match r {
                Some(i) => i < self.pending().len() && self.pending()[i as int] == key@,
                None => !self.pending().contains(key@),
            },
    {
        let mut i: usize = 0;
        while i < self.in_flight.len()
            invariant
                i <= self.in_flight@.len(),
                forall|j: int| 0 <= j < i ==> self.pending()[j] != key@,
            decreases self.in_flight@.len() - i,
        {
            if self.in_flight[i] == *key {
                return Some(i);
            }
            i += 1;
        }
        None
    }

    /// The first step of a fetch whose load is made outside the cache, so
    /// that a host can release its lock on the cache during the load. A kept
    /// entry is returned as a hit. Otherwise the identifier is marked as
    /// being loaded and the caller told to load it, unless it is marked
    /// already: then the caller is told to wait, so that no identifier is
    /// loaded twice at once. Touches no backing store.
    pub fn begin_fetch(&mut self, id: &str) -> (r: Fetch<S::Value>)
        requires
            old(self).wf(),
        ensures
            final(self).wf(),
            final(self).cap() == old(self).cap(),
            final(self).source() == old(self).source(),
            final(self).deferred() == old(self).deferred(),
            final(self).calls() == old(self).calls(),
            old(self).ids().contains(id@) ==> {
                let i = position_of(old(self).ids(), id@);
                &&& r == Fetch::Hit(old(self).entries()[i])
                &&& final(self).entries() == promote(old(self).entries(), i)
                &&& final(self).pending() == old(self).pending()
            },
            !old(self).ids().contains(id@) ==> final(self).entries() == old(self).entries(),
            !old(self).ids().contains(id@) && old(self).pending().contains(id@) ==> {
                &&& r is Wait
                &&& final(self).pending() == old(self).pending()
            },
            !old(self).ids().contains(id@) && !old(self).pending().contains(id@) ==> {
                &&& r is Load
                &&& final(self).pending() == old(self).pending().push(id@)
            },
    {
        if let Some(handle) = self.lookup(id) {
            return Fetch::Hit(handle);
        }
        let key = id.to_owned();
        match self.pending_position(&key) {
            Some(_) => Fetch::Wait,
            None => {
                self.in_flight.push(key);
                proof {
                    assert(self.pending() =~= old(self).pending().push(id@));
                    assert forall|a: int, b: int|
                        0 <= a < self.pending().len() && 0 <= b < self.pending().len() && a != b
                            implies self.pending()[a] != self.pending()[b] by {
                        if b == old(self).pending().len() {
                            assert(old(self).pending().contains(self.pending()[a]));
                        } else if a == old(self).pending().len() {
                            assert(old(self).pending().contains(self.pending()[b]));
                        }
                    }
                }
                Fetch::Load
            },
        }
    }

    /// The last step of a fetch started by `begin_fetch`: `loaded` is what
    /// the load returned. The identifier is no longer marked as being
    /// loaded, and the outcome is kept and returned as `enter_loaded` does,
    /// with the entry that left a full cache: the caller writes it back with
    /// `write_back_to`, outside its lock on the cache.
    pub fn finish_fetch(&mut self, id: &str, loaded: Result<S::Value, Error>) -> (r: (
        Result<Arc<CacheItem<S::Value>>, Error>,
        Option<Arc<CacheItem<S::Value>>>,
    ))
        requires
            old(self).wf(),
        ensures
            final(self).wf(),
            final(self).cap() == old(self).cap(),
            final(self).source() == old(self).source(),
            final(self).deferred() == old(self).deferred(),
            !final(self).pending().contains(id@),
            old(self).pending().contains(id@) ==> final(self).pending() == old(self).pending().remove(
                position_of(old(self).pending(), id@),
            ),
            !old(self).pending().contains(id@) ==> final(self).pending() == old(self).pending(),
            final(self).calls() == old(self).calls(),
            old(self).entered(*final(self), id@, loaded, r.0),
            r.1 == (if loaded is Ok && !old(self).ids().contains(id@) && evicts(
                old(self).entries(),
                old(self).cap(),
            ) {
                Some(old(self).entries().last())
            } else {
                None
            }),
    {
        let key = id.to_owned();
        if let Some(j) = self.pending_position(&key) {
            proof {
                lemma_position_unique(old(self).pending(), id@, j as int);
            }
            let _ = self.in_flight.remove(j);
            proof {
                lemma_remove_map(old(self).in_flight@, j as int, |s: String| s@);
                lemma_remove_no_duplicates(old(self).pending(), j as int);
            }
        }
        let ghost unmarked = *self;
        let r = self.enter_loaded(id, loaded);
        proof {
            assert(unmarked.entries() == old(self).entries());
            assert(unmarked.calls() == old(self).calls());
        }
        r
    }
}

} // verus!
