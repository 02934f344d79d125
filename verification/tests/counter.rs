use counter::codec::decode_be;
use counter::codec::encode_be;
use counter::handler::Counter;
use counter::handler::CounterError;
use counter::handler::IncrementCounterRequest;
use counter::store::KvStore;

fn counter_key() -> Vec<u8> {
    vec![0u8]
}

#[test]
fn fresh_store_two_increments() {
    let mut c = Counter::new(KvStore::new());
    let r1 = c.increment_counter(IncrementCounterRequest {}).unwrap();
    assert_eq!(r1.current, 1);
    assert_eq!(
        c.store().get(&counter_key()),
        Some(&vec![0u8, 0, 0, 0, 0, 0, 0, 1])
    );
    let r2 = c.increment_counter(IncrementCounterRequest {}).unwrap();
    assert_eq!(r2.current, 2);
    assert_eq!(
        c.store().get(&counter_key()),
        Some(&vec![0u8, 0, 0, 0, 0, 0, 0, 2])
    );
}

#[test]
fn n_increments_return_their_position() {
    let mut c = Counter::new(KvStore::new());
    for expected in 1u64..=5 {
        let r = c.increment_counter(IncrementCounterRequest {}).unwrap();
        assert_eq!(r.current, expected);
    }
    assert_eq!(
        c.store().get(&counter_key()),
        Some(&vec![0u8, 0, 0, 0, 0, 0, 0, 5])
    );
}

#[test]
fn two_calls_never_return_the_same_value() {
    let mut c = Counter::new(KvStore::new());
    let first = c.increment_counter(IncrementCounterRequest {}).unwrap().current;
    let second = c.increment_counter(IncrementCounterRequest {}).unwrap().current;
    assert_ne!(first, second);
    assert_eq!(second, first + 1);
}

#[test]
fn encode_decode_round_trip() {
    for v in [0u64, 1, 2, 255, 256, 0x0123_4567_89ab_cdef, u64::MAX - 1, u64::MAX] {
        assert_eq!(decode_be(&encode_be(v)), Some(v));
    }
}

#[test]
fn encode_exact_bytes() {
    assert_eq!(encode_be(1), vec![0u8, 0, 0, 0, 0, 0, 0, 1]);
    assert_eq!(
        encode_be(0x0102_0304_0506_0708),
        vec![1u8, 2, 3, 4, 5, 6, 7, 8]
    );
    assert_eq!(encode_be(u64::MAX), vec![0xffu8; 8]);
}

#[test]
fn decode_exact_value() {
    assert_eq!(decode_be(&vec![0u8, 0, 0, 0, 0, 0, 1, 0]), Some(256));
    // Only the first eight bytes are read.
    assert_eq!(
        decode_be(&vec![0u8, 0, 0, 0, 0, 0, 0, 9, 0xff]),
        Some(9)
    );
}

#[test]
fn decode_short_value_is_refused() {
    assert_eq!(decode_be(&Vec::new()), None);
    assert_eq!(decode_be(&vec![1u8, 2, 3]), None);
    assert_eq!(decode_be(&vec![0u8; 7]), None);
}

#[test]
fn increment_at_maximum_fails_with_overflow() {
    let mut store = KvStore::new();
    store.set(counter_key(), vec![0xffu8; 8]);
    let mut c = Counter::new(store);
    let r = c.increment_counter(IncrementCounterRequest {});
    assert_eq!(r, Err(CounterError::Overflow));
    // The stored counter is left unmodified.
    assert_eq!(c.store().get(&counter_key()), Some(&vec![0xffu8; 8]));
}

#[test]
fn malformed_short_state_fails_and_store_is_unchanged() {
    let mut store = KvStore::new();
    store.set(counter_key(), vec![1u8, 2, 3]);
    let mut c = Counter::new(store);
    let r = c.increment_counter(IncrementCounterRequest {});
    assert_eq!(r, Err(CounterError::MalformedState));
    assert_eq!(c.store().get(&counter_key()), Some(&vec![1u8, 2, 3]));
}

#[test]
fn store_get_and_set() {
    let mut s = KvStore::new();
    assert_eq!(s.get(&vec![7u8]), None);
    s.set(vec![7u8], vec![1u8, 2]);
    s.set(vec![9u8, 9], vec![3u8]);
    assert_eq!(s.get(&vec![7u8]), Some(&vec![1u8, 2]));
    assert_eq!(s.get(&vec![9u8, 9]), Some(&vec![3u8]));
    assert_eq!(s.get(&vec![8u8]), None);
    // Writing again replaces the value in place.
    s.set(vec![7u8], vec![4u8, 5, 6]);
    assert_eq!(s.get(&vec![7u8]), Some(&vec![4u8, 5, 6]));
    assert_eq!(s.get(&vec![9u8, 9]), Some(&vec![3u8]));
}
