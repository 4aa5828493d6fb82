//! The correlation store: a capacity-bounded, recency-ordered table from
//! correlation id to the pending waiter's delivery handle. It is the
//! single source of truth for who is waiting for what. The table itself
//! is a least-recently-used cache from an outside crate, trusted through
//! the wrappers below; everything around it is verified.

use vstd::prelude::*;
use lru::LruCache;
use std::sync::mpsc::Sender;
use crate::models::ResponseMessageDto;
use crate::channel::send_response;

verus! {

#[verifier::external_type_specification]
#[verifier::external_body]
#[verifier::reject_recursive_types(K)]
#[verifier::reject_recursive_types(V)]
#[verifier::reject_recursive_types(S)]
pub struct ExLruCache<K, V, S>(LruCache<K, V, S>);

/// The keys held by the waiter cache, most recently registered first.
pub uninterp spec fn cache_keys(c: &LruCache<u128, Sender<ResponseMessageDto>>) -> Seq<u128>;

/// The capacity the waiter cache was created with.
pub uninterp spec fn cache_cap(c: &LruCache<u128, Sender<ResponseMessageDto>>) -> nat;

/// Relies on `lru::LruCache::new`: a fresh, empty cache holding at most
/// `cap` entries.
#[verifier::external_body]
fn cache_new(cap: usize) -> (c: LruCache<u128, Sender<ResponseMessageDto>>)
    requires
        1 <= cap,
    ensures
        cache_keys(&c) == Seq::<u128>::empty(),
        cache_cap(&c) == cap as nat,
{
    LruCache::new(std::num::NonZeroUsize::new(cap).unwrap())
}

/// Relies on `lru::LruCache::len`: the number of entries held.
#[verifier::external_body]
fn cache_len(c: &LruCache<u128, Sender<ResponseMessageDto>>) -> (r: usize)
    ensures
        r as nat == cache_keys(c).len(),
{
    c.len()
}

/// Relies on `lru::LruCache::contains`: whether an entry for the key is
/// present; it does not touch the recency order.
#[verifier::external_body]
fn cache_contains(c: &LruCache<u128, Sender<ResponseMessageDto>>, k: &u128) -> (r: bool)
    ensures
        r == cache_keys(c).contains(*k),
{
    c.contains(k)
}

/// Relies on `lru::LruCache::push`: called with a key not yet present,
/// it inserts the entry at the head of the recency order; when the cache
/// is full it removes the entry at the back — the least recently used —
/// and returns that pair, otherwise it returns nothing.
#[verifier::external_body]
fn cache_push(
    c: &mut LruCache<u128, Sender<ResponseMessageDto>>,
    k: u128,
    v: Sender<ResponseMessageDto>,
) -> (r: Option<(u128, Sender<ResponseMessageDto>)>)
    requires
        !cache_keys(old(c)).contains(k),
        cache_keys(old(c)).len() <= cache_cap(old(c)),
    ensures
        cache_cap(final(c)) == cache_cap(old(c)),
        cache_keys(old(c)).len() < cache_cap(old(c)) ==> r is None && cache_keys(final(c))
            == seq![k] + cache_keys(old(c)),
        cache_keys(old(c)).len() == cache_cap(old(c)) ==> (r matches Some(ev) && ev.0
            == cache_keys(old(c)).last()) && cache_keys(final(c)) == seq![k] + cache_keys(
            old(c),
        ).drop_last(),
{
    c.push(k, v)
}

/// Relies on `lru::LruCache::pop`: removes the entry for the key and
/// returns its value — the handle that was registered under that key —
/// leaving every other entry and their order untouched.
#[verifier::external_body]
fn cache_pop(
    c: &mut LruCache<u128, Sender<ResponseMessageDto>>,
    k: &u128,
) -> (r: Option<Sender<ResponseMessageDto>>)
    ensures
        cache_cap(final(c)) == cache_cap(old(c)),
        r is Some <==> cache_keys(old(c)).contains(*k),
        cache_keys(final(c)) == cache_keys(old(c)).remove_value(*k),
{
    c.pop(k)
}

/// What registering a waiter can come to.
#[derive(Clone, Copy, PartialEq, Eq, Structural, Debug)]
pub enum RegisterOutcome {
    /// The waiter is in the store.
    Registered,
    /// The store was full: the waiter is in, and the least recently
    /// registered waiter was silently dropped.
    Evicted { evicted: u128 },
    /// A waiter for this id is already pending; the new one is rejected
    /// and nothing changes.
    Duplicate,
}

/// The bounded, recency-ordered table from correlation id to pending
/// waiter.
pub struct CorrelationStore {
    cache: LruCache<u128, Sender<ResponseMessageDto>>,
}

impl CorrelationStore {
    /// The ids with a pending waiter, most recently registered first.
    pub closed spec fn keys(&self) -> Seq<u128> {
        cache_keys(&self.cache)
    }

    /// The fixed capacity.
    pub closed spec fn capacity(&self) -> nat {
        cache_cap(&self.cache)
    }

    /// Well-formed: a positive capacity, distinct ids, and never more
    /// waiters than the capacity allows.
    pub open spec fn wf(&self) -> bool {
        &&& self.capacity() >= 1
        &&& self.keys().no_duplicates()
        &&& self.keys().len() <= self.capacity()
    }

    /// Creates an empty store holding at most `capacity` waiters.
    pub fn new(capacity: usize) -> (s: Self)
        requires
            1 <= capacity,
        ensures
            s.wf(),
            s.keys() == Seq::<u128>::empty(),
            s.capacity() == capacity as nat,
    {
        let s = CorrelationStore { cache: cache_new(capacity) };
        s
    }

    /// How many waiters are pending.
    pub fn len(&self) -> (n: usize)
        ensures
            n as nat == self.keys().len(),
    {
        cache_len(&self.cache)
    }

    /// Whether a waiter for the id is pending.
    pub fn contains(&self, id: u128) -> (r: bool)
        ensures
            r == self.keys().contains(id),
    {
        cache_contains(&self.cache, &id)
    }

    /// Registers a waiter for `id`, holding its delivery handle. A
    /// pending id is rejected rather than overwritten; at capacity the
    /// least recently registered waiter is evicted without notice.
    pub fn register(&mut self, id: u128, tx: Sender<ResponseMessageDto>) -> (r: RegisterOutcome)
        requires
            old(self).wf(),
        ensures
            final(self).wf(),
            final(self).capacity() == old(self).capacity(),
            old(self).keys().contains(id) ==> r == RegisterOutcome::Duplicate
                && final(self).keys() == old(self).keys(),
            !old(self).keys().contains(id) && old(self).keys().len() < old(self).capacity()
                ==> r == RegisterOutcome::Registered
                && final(self).keys() == seq![id] + old(self).keys(),
            !old(self).keys().contains(id) && old(self).keys().len() == old(self).capacity()
                ==> r == (RegisterOutcome::Evicted { evicted: old(self).keys().last() })
                && final(self).keys() == seq![id] + old(self).keys().drop_last(),
    {
        if cache_contains(&self.cache, &id) {
            return RegisterOutcome::Duplicate;
        }
        let evicted = cache_push(&mut self.cache, id, tx);
        proof {
            lemma_insert_keeps_wf(old(self).keys(), id, old(self).capacity());
        }
        match evicted {
            None => RegisterOutcome::Registered,
            Some(pair) => RegisterOutcome::Evicted { evicted: pair.0 },
        }
    }

    /// Completes the waiter for `id`: removes it and hands `value` to
    /// its delivery handle, exactly once. Returns whether a waiter was
    /// found; when none is (already completed, or evicted), the value is
    /// discarded and the store is unchanged.
    pub fn complete(&mut self, id: u128, value: ResponseMessageDto) -> (delivered: bool)
        requires
            old(self).wf(),
        ensures
            final(self).wf(),
            final(self).capacity() == old(self).capacity(),
            delivered == old(self).keys().contains(id),
            final(self).keys() == old(self).keys().remove_value(id),
            !delivered ==> final(self).keys() == old(self).keys(),
            delivered ==> !final(self).keys().contains(id),
    {
        proof {
            lemma_remove_value_keeps_wf(old(self).keys(), id);
        }
        match cache_pop(&mut self.cache, &id) {
            Some(tx) => {
                // the send result is informational only: a waiter that
                // already gave up and dropped its receiver loses the value
                let _delivered_to_live_receiver = send_response(tx, value);
                true
            },
            None => false,
        }
    }
}

/// Inserting a fresh id keeps the store well formed: distinctness and
/// the capacity bound are preserved, whether or not an eviction was
/// needed.
proof fn lemma_insert_keeps_wf(keys: Seq<u128>, id: u128, cap: nat)
    requires
        keys.no_duplicates(),
        !keys.contains(id),
        keys.len() <= cap,
        cap >= 1,
    ensures
        keys.len() < cap ==> (seq![id] + keys).no_duplicates() && (seq![id] + keys).len()
            <= cap,
        keys.len() == cap ==> (seq![id] + keys.drop_last()).no_duplicates() && (seq![id]
            + keys.drop_last()).len() <= cap,
{
    let a = seq![id] + keys;
    assert forall|i: int, j: int| 0 <= i < a.len() && 0 <= j < a.len() && i != j implies a[i]
        != a[j] by {
        if i == 0 {
            assert(a[j] == keys[j - 1]);
            assert(keys.contains(keys[j - 1]));
        } else if j == 0 {
            assert(a[i] == keys[i - 1]);
            assert(keys.contains(keys[i - 1]));
        }
    }
    if keys.len() >= 1 {
        let b = seq![id] + keys.drop_last();
        assert forall|i: int, j: int| 0 <= i < b.len() && 0 <= j < b.len() && i != j implies b[i]
            != b[j] by {
            if i == 0 && j > 0 {
                assert(b[j] == keys[j - 1]);
                assert(keys.contains(keys[j - 1]));
            } else if j == 0 && i > 0 {
                assert(b[i] == keys[i - 1]);
                assert(keys.contains(keys[i - 1]));
            } else if i > 0 && j > 0 {
                assert(b[i] == keys[i - 1] && b[j] == keys[j - 1]);
            }
        }
    }
}

/// Removing an id keeps the store well formed, and with distinct ids the
/// removed id is gone entirely.
proof fn lemma_remove_value_keeps_wf(keys: Seq<u128>, id: u128)
    requires
        keys.no_duplicates(),
    ensures
        keys.remove_value(id).no_duplicates(),
        keys.remove_value(id).len() <= keys.len(),
        !keys.contains(id) ==> keys.remove_value(id) == keys,
        keys.contains(id) ==> !keys.remove_value(id).contains(id),
        forall|x: u128| x != id && keys.contains(x) ==> keys.remove_value(id).contains(x),
        forall|x: u128| !keys.contains(x) ==> !keys.remove_value(id).contains(x),
{
    keys.index_of_first_ensures(id);
    let r = keys.remove_value(id);
    match keys.index_of_first(id) {
        None => {},
        Some(idx) => {
            assert(r == keys.remove(idx));
            assert forall|i: int, j: int| 0 <= i < r.len() && 0 <= j < r.len() && i != j
                implies r[i] != r[j] by {
                let i0: int = if i < idx { i } else { i + 1 };
                let j0: int = if j < idx { j } else { j + 1 };
                assert(r[i] == keys[i0] && r[j] == keys[j0]);
            }
            if r.contains(id) {
                let w = choose|w: int| 0 <= w < r.len() && r[w] == id;
                let w0: int = if w < idx { w } else { w + 1 };
                assert(keys[w0] == id && keys[idx] == id && w0 != idx);
            }
            assert forall|x: u128| x != id && keys.contains(x) implies r.contains(x) by {
                let w = choose|w: int| 0 <= w < keys.len() && keys[w] == x;
                if w < idx {
                    assert(r[w] == x);
                } else {
                    assert(r[w - 1] == x);
                }
                assert(r.contains(x));
            }
            assert forall|x: u128| !keys.contains(x) implies !r.contains(x) by {
                if r.contains(x) {
                    let w = choose|w: int| 0 <= w < r.len() && r[w] == x;
                    let w0: int = if w < idx { w } else { w + 1 };
                    assert(keys[w0] == x);
                }
            }
        },
    }
}

/// At-most-once delivery: completing an id removes its waiter, so any
/// later completion for the same id finds none and delivers nothing,
/// while every other pending waiter is untouched.
pub proof fn lemma_at_most_once(keys: Seq<u128>, id: u128)
    requires
        keys.no_duplicates(),
    ensures
        !keys.remove_value(id).contains(id),
        forall|x: u128| x != id && keys.contains(x) ==> keys.remove_value(id).contains(x),
{
    lemma_remove_value_keeps_wf(keys, id);
    if !keys.contains(id) {
        keys.index_of_first_ensures(id);
    }
}

/// Bounded memory: a well-formed store holds at most its capacity of
/// waiters, and `register` and `complete` preserve well-formedness, so
/// no sequence of calls ever exceeds the bound.
pub proof fn lemma_bounded_memory(s: CorrelationStore)
    requires
        s.wf(),
    ensures
        s.keys().len() <= s.capacity(),
{
}

/// Eviction: when a waiter is registered into a full store, the least
/// recently registered waiter leaves; it is then no longer pending,
/// while every other waiter is still there, so a later reply for the
/// evicted id finds no waiter and is dropped without affecting the rest.
pub proof fn lemma_eviction_drops_oldest(keys: Seq<u128>, id: u128)
    requires
        keys.no_duplicates(),
        keys.len() >= 1,
        !keys.contains(id),
    ensures
        !(seq![id] + keys.drop_last()).contains(keys.last()),
        forall|x: u128|
            x != keys.last() && keys.contains(x) ==> (seq![id] + keys.drop_last()).contains(x),
{
    let after = seq![id] + keys.drop_last();
    let ev = keys.last();
    assert(keys.contains(ev));
    if after.contains(ev) {
        let w = choose|w: int| 0 <= w < after.len() && after[w] == ev;
        if w == 0 {
            assert(id == ev);
        } else {
            assert(keys[w - 1] == ev);
            assert(keys[keys.len() - 1] == ev);
        }
    }
    assert forall|x: u128| x != ev && keys.contains(x) implies after.contains(x) by {
        let w = choose|w: int| 0 <= w < keys.len() && keys[w] == x;
        assert(w < keys.len() - 1);
        assert(after[w + 1] == x);
    }
}

} // verus!
