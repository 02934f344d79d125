//! The counter handler: one message-style operation that increments a
//! persisted 64-bit counter.
//!
//! The counter lives at the fixed one-byte key `0x00`, encoded as eight
//! big-endian bytes.  `counter_step` is the state-machine model of one call:
//! an absent key becomes `1`; a present, well-formed value is incremented by
//! one; a stored value shorter than eight bytes is malformed state and the
//! call fails; an increment past the largest 64-bit value fails with an
//! overflow error rather than wrapping.  On any failure the store is left
//! unchanged.

use vstd::prelude::*;

use crate::codec::be_bytes_of;
use crate::codec::be_value_of;
use crate::codec::decode_be;
use crate::codec::encode_be;
use crate::codec::lemma_be_round_trip;
use crate::store::KvStore;

verus! {

/// The request of the increment operation.  It carries no payload beyond
/// the caller's execution scope, which the host resolves to a store.
pub struct IncrementCounterRequest {}

/// The response of the increment operation: the post-increment value.
#[derive(Clone, Copy, Debug, PartialEq, Eq, Structural)]
pub struct IncrementCounterResponse {
    pub current: u64,
}

/// Why an increment call failed.  Failures surface immediately to the
/// caller; there is no local recovery.
#[derive(Clone, Copy, Debug, PartialEq, Eq, Structural)]
pub enum CounterError {
    /// The stored value is shorter than the eight bytes the counter needs.
    MalformedState,
    /// The counter already holds the largest 64-bit value.
    Overflow,
}

/// The fixed key the counter is stored at.
pub open spec fn counter_key() -> Seq<u8> {
    seq![0u8]
}

/// What the counter key holds in store state `m`, or `None` where the key
/// is absent.
pub open spec fn stored_counter(m: Map<Seq<u8>, Seq<u8>>) -> Option<Seq<u8>> {
    if m.dom().contains(counter_key()) {
        Some(m[counter_key()])
    } else {
        None
    }
}

/// One step of the counter state machine: from the bytes stored at the
/// counter key to the value a successful call returns (and stores,
/// big-endian), or to the error that the call fails with.
pub open spec fn counter_step(st: Option<Seq<u8>>) -> Result<u64, CounterError> {
    match st {
        None => Ok(1),
        Some(b) => if b.len() < 8 {
            Err(CounterError::MalformedState)
        } else if be_value_of(b) == u64::MAX {
            Err(CounterError::Overflow)
        } else {
            Ok((be_value_of(b) + 1) as u64)
        },
    }
}

/// The counter handler, holding the store its state lives in.  The host
/// injects the store at construction; the view of a handler is the view of
/// its store.
pub struct Counter {
    store: KvStore,
}

impl Counter {
    pub closed spec fn view(&self) -> Map<Seq<u8>, Seq<u8>> {
        self.store@
    }

    /// A handler over the given store.
    pub fn new(store: KvStore) -> (c: Counter)
        ensures
            c@ == store@,
    {
        Counter { store }
    }

    /// The handler's store, for the host to read back or persist.
    pub fn store(&self) -> (s: &KvStore)
        ensures
            s@ == self@,
    {
        &self.store
    }

    /// Handles one increment request: reads the counter key, writes the
    /// incremented value back, and returns it.  The store is changed
    /// exactly on success, and then holds the returned value, big-endian,
    /// at the counter key; a failed call leaves it untouched.
    pub fn increment_counter(&mut self, _request: IncrementCounterRequest) -> (r: Result<
        IncrementCounterResponse,
        CounterError,
    >)
        ensures
            match r {
                Ok(resp) => counter_step(stored_counter(old(self)@)) == Ok::<u64, CounterError>(
                    resp.current,
                ) && final(self)@ == old(self)@.insert(counter_key(), be_bytes_of(resp.current)),
                Err(e) => counter_step(stored_counter(old(self)@)) == Err::<u64, CounterError>(e)
                    && final(self)@ == old(self)@,
            },
    {
        let key: Vec<u8> = vec![0u8];
        proof {
            assert(key@ =~= counter_key());
        }
        let current: u64 = match self.store.get(&key) {
            Some(stored) => {
                match decode_be(stored) {
                    Some(value) => {
                        if value == u64::MAX {
                            return Err(CounterError::Overflow);
                        }
                        value + 1
                    },
                    None => {
                        return Err(CounterError::MalformedState);
                    },
                }
            },
            None => 1,
        };
        self.store.set(key, encode_be(current));
        Ok(IncrementCounterResponse { current })
    }
}

/// The store state after `n` increment calls on a fresh store, each call
/// stepping the counter state machine (unchanged where a step fails, which
/// a later lemma rules out).
pub open spec fn state_after_increments(n: nat) -> Option<Seq<u8>>
    decreases n,
{
    if n == 0 {
        None
    } else {
        let prev = state_after_increments((n - 1) as nat);
        match counter_step(prev) {
            Ok(v) => Some(be_bytes_of(v)),
            Err(_) => prev,
        }
    }
}

/// On a fresh store, every one of the first `n` increment calls succeeds,
/// the call at 1-indexed position `n` returns `n`, and the store then
/// holds `n`, big-endian, at the counter key.
pub proof fn lemma_increment_sequence(n: u64)
    requires
        1 <= n,
    ensures
        counter_step(state_after_increments((n - 1) as nat)) == Ok::<u64, CounterError>(n),
        state_after_increments(n as nat) == Some(be_bytes_of(n)),
    decreases n,
{
    if n == 1 {
        assert(state_after_increments(0) is None);
    } else {
        lemma_increment_sequence((n - 1) as u64);
        lemma_be_round_trip((n - 1) as u64);
    }
}

/// The increment is not idempotent: of two consecutive successful calls,
/// the second returns one more than the first, never the same value.
pub proof fn lemma_not_idempotent(st: Option<Seq<u8>>, v1: u64, v2: u64)
    requires
        counter_step(st) == Ok::<u64, CounterError>(v1),
        counter_step(Some(be_bytes_of(v1))) == Ok::<u64, CounterError>(v2),
    ensures
        v2 == v1 + 1,
        v2 != v1,
{
    lemma_be_round_trip(v1);
}

} // verus!
