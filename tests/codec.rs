use kvstore::binary::{decode_entry, BinKVStore};
use kvstore::codec::{from_byte, to_byte};
use kvstore::inmemory::HashMapKVStore;
use kvstore::kvstore::{GetOp, KVStoreError, SetOp, StoreResult};

#[test]
fn lib_set_and_get() {
    let store = HashMapKVStore::<Vec<u8>, Vec<u8>>::new();
    let mut bin_store = BinKVStore::new(store);

    assert_eq!(bin_store.get("test".to_string()).unwrap(), None);
    assert_eq!(bin_store.set("test".to_string(), 32).unwrap(), None);
    assert_eq!(bin_store.get("test".to_string()).unwrap(), Some(32));

    assert_eq!(
        bin_store.set("test".to_string(), 42).unwrap(),
        Some(32)
    );
    assert_eq!(bin_store.get("test".to_string()).unwrap(), Some(42));

    assert_eq!(bin_store.get("test2".to_string()).unwrap(), None);
    assert_eq!(bin_store.set("test2".to_string(), 2).unwrap(), None);
    assert_eq!(bin_store.set("test3".to_string(), 3).unwrap(), None);
    assert_eq!(bin_store.get("test2".to_string()).unwrap(), Some(2));
}

#[test]
fn integers_encode_little_endian() {
    assert_eq!(to_byte(&32i32).unwrap(), vec![32, 0, 0, 0]);
    assert_eq!(to_byte(&-1i32).unwrap(), vec![255, 255, 255, 255]);
    assert_eq!(to_byte(&0x0102_0304u32).unwrap(), vec![4, 3, 2, 1]);
    assert_eq!(to_byte(&1u64).unwrap(), vec![1, 0, 0, 0, 0, 0, 0, 0]);
    assert_eq!(to_byte(&-2i64).unwrap(), vec![254, 255, 255, 255, 255, 255, 255, 255]);
}

#[test]
fn text_and_bytes_are_length_prefixed() {
    assert_eq!(
        to_byte(&"ab".to_string()).unwrap(),
        vec![2, 0, 0, 0, 0, 0, 0, 0, b'a', b'b']
    );
    assert_eq!(
        to_byte(&"é".to_string()).unwrap(),
        vec![2, 0, 0, 0, 0, 0, 0, 0, 0xc3, 0xa9]
    );
    assert_eq!(to_byte(&String::new()).unwrap(), vec![0, 0, 0, 0, 0, 0, 0, 0]);
    assert_eq!(
        to_byte(&vec![9u8, 8]).unwrap(),
        vec![2, 0, 0, 0, 0, 0, 0, 0, 9, 8]
    );
}

#[test]
fn encoding_is_deterministic() {
    let a = "same key".to_string();
    let b = a.clone();
    assert_eq!(to_byte(&a).unwrap(), to_byte(&b).unwrap());
    assert_eq!(to_byte(&a).unwrap(), to_byte(&a).unwrap());
    assert_eq!(to_byte(&77u64).unwrap(), to_byte(&77u64).unwrap());
}

#[test]
fn decoding_reads_back_encodings() {
    let s: String = from_byte(&to_byte(&"hello".to_string()).unwrap()).unwrap();
    assert_eq!(s, "hello");
    let n: i64 = from_byte(&to_byte(&-123456789i64).unwrap()).unwrap();
    assert_eq!(n, -123456789);
    let v: Vec<u8> = from_byte(&[3, 0, 0, 0, 0, 0, 0, 0, 7, 8, 9]).unwrap();
    assert_eq!(v, vec![7, 8, 9]);
    let x: u32 = from_byte(&[1, 1, 0, 0, 99]).unwrap();
    assert_eq!(x, 257);
}

#[test]
fn truncated_bytes_fail_to_decode() {
    let r: StoreResult<u32> = from_byte(&[1, 2, 3]);
    assert!(r.unwrap_err().msg.starts_with("Bin serde error: "));
    let r: StoreResult<String> = from_byte(&[5, 0, 0, 0, 0, 0, 0, 0, b'a']);
    assert!(r.unwrap_err().msg.starts_with("Bin serde error: "));
}

#[test]
fn invalid_text_fails_to_decode() {
    let r: StoreResult<String> = from_byte(&[1, 0, 0, 0, 0, 0, 0, 0, 0xff]);
    assert!(r.unwrap_err().msg.starts_with("Bin serde error: "));
}

#[test]
fn decode_entry_passes_error_and_absence() {
    let failed: StoreResult<Option<Vec<u8>>> = Err(KVStoreError { msg: "backend down".to_string() });
    let r: StoreResult<Option<u64>> = decode_entry(failed);
    assert_eq!(r.unwrap_err().msg, "backend down");
    let r: StoreResult<Option<u64>> = decode_entry(Ok(None));
    assert_eq!(r.unwrap(), None);
    let r: StoreResult<Option<u64>> = decode_entry(Ok(Some(vec![5, 0, 0, 0, 0, 0, 0, 0])));
    assert_eq!(r.unwrap(), Some(5));
    let r: StoreResult<Option<u64>> = decode_entry(Ok(Some(vec![5, 0])));
    assert!(r.unwrap_err().msg.starts_with("Bin serde error: "));
}

#[test]
fn adapter_round_trips_various_types() {
    let mut store = BinKVStore::new(HashMapKVStore::<Vec<u8>, Vec<u8>>::new());
    assert_eq!(store.set(5u64, "five".to_string()).unwrap(), None);
    assert_eq!(store.set(u64::MAX, String::new()).unwrap(), None);
    assert_eq!(store.get(5u64).unwrap(), Some("five".to_string()));
    assert_eq!(store.get(u64::MAX).unwrap(), Some(String::new()));
    assert_eq!(store.get(6u64).unwrap(), None);

    let mut bytes = BinKVStore::new(HashMapKVStore::<Vec<u8>, Vec<u8>>::new());
    assert_eq!(bytes.set(vec![1u8, 2], vec![3u8]).unwrap(), None);
    assert_eq!(bytes.set(vec![1u8, 2], vec![4u8, 5]).unwrap(), Some(vec![3u8]));
    assert_eq!(bytes.get(vec![1u8, 2]).unwrap(), Some(vec![4u8, 5]));
}

#[test]
fn adapter_stores_encoded_entries() {
    let mut inner = HashMapKVStore::<Vec<u8>, Vec<u8>>::new();
    let mut store = BinKVStore::new(HashMapKVStore::<Vec<u8>, Vec<u8>>::new());
    assert_eq!(store.set(1u32, -1i32).unwrap(), None);
    assert_eq!(store.get(1u32).unwrap(), Some(-1i32));
    inner.set(vec![1, 0, 0, 0], vec![255, 255, 255, 255]).unwrap();
    let mut typed = BinKVStore::new(inner);
    assert_eq!(typed.get(1u32).unwrap(), Some(-1i32));
    assert_eq!(typed.set(1u32, 7i32).unwrap(), Some(-1i32));
}

#[test]
fn adapter_reports_undecodable_entries() {
    let mut inner = HashMapKVStore::<Vec<u8>, Vec<u8>>::new();
    inner.set(vec![1, 0, 0, 0, 0, 0, 0, 0, b'k'], vec![1, 2]).unwrap();
    let mut typed = BinKVStore::<String, u64, _>::new(inner);
    assert!(typed.get("k".to_string()).unwrap_err().msg.starts_with("Bin serde error: "));
    assert!(typed.set("k".to_string(), 9).unwrap_err().msg.starts_with("Bin serde error: "));
    assert_eq!(typed.get("k".to_string()).unwrap(), Some(9));
}

#[test]
fn pairs_encode_as_concatenated_fields() {
    let pair = (7u32, "ab".to_string());
    let mut expected = to_byte(&7u32).unwrap();
    expected.extend(to_byte(&"ab".to_string()).unwrap());
    assert_eq!(to_byte(&pair).unwrap(), expected);
    assert_eq!(
        to_byte(&pair).unwrap(),
        vec![7, 0, 0, 0, 2, 0, 0, 0, 0, 0, 0, 0, b'a', b'b']
    );
}

#[test]
fn pairs_decode_field_by_field() {
    let bytes = to_byte(&(("k".to_string(), -5i64), true)).unwrap();
    let back: ((String, i64), bool) = from_byte(&bytes).unwrap();
    assert_eq!(back, (("k".to_string(), -5), true));
    let r: StoreResult<(u32, u32)> = from_byte(&[1, 0, 0, 0, 2, 0]);
    assert!(r.unwrap_err().msg.starts_with("Bin serde error: "));
}

#[test]
fn booleans_are_one_byte() {
    assert_eq!(to_byte(&true).unwrap(), vec![1]);
    assert_eq!(to_byte(&false).unwrap(), vec![0]);
    let b: bool = from_byte(&[1]).unwrap();
    assert!(b);
    let r: StoreResult<bool> = from_byte(&[2]);
    assert!(r.unwrap_err().msg.starts_with("Bin serde error: "));
}

#[test]
fn trailing_bytes_after_an_encoding_are_ignored() {
    let s: String = from_byte(&[1, 0, 0, 0, 0, 0, 0, 0, b'z', 0xff, 0xff]).unwrap();
    assert_eq!(s, "z");
}

#[test]
fn adapter_with_pair_keys() {
    let mut store = BinKVStore::new(HashMapKVStore::<Vec<u8>, Vec<u8>>::new());
    assert_eq!(store.set((1u64, "a".to_string()), false).unwrap(), None);
    assert_eq!(store.set((1u64, "b".to_string()), true).unwrap(), None);
    assert_eq!(store.get((1u64, "a".to_string())).unwrap(), Some(false));
    assert_eq!(store.set((1u64, "a".to_string()), true).unwrap(), Some(false));
    assert_eq!(store.get((1u64, "b".to_string())).unwrap(), Some(true));
}
