use dbstruct::stores::BTreeMap;
use dbstruct::traits::byte_store::ByteStore;
use dbstruct::wrapper::vec::Prefixed;
use dbstruct::wrapper::{DefaultTrait, Vec};

fn val<V: serde::Serialize + ?Sized>(val: &V) -> std::vec::Vec<u8> {
    bincode::serde::encode_to_vec(val, bincode::config::standard()).unwrap()
}

fn back<V: serde::de::DeserializeOwned>(bytes: Option<std::vec::Vec<u8>>) -> Option<V> {
    bytes.map(|bytes| {
        bincode::serde::decode_from_slice(&bytes, bincode::config::standard())
            .unwrap()
            .0
    })
}

fn empty() -> Vec<BTreeMap> {
    Vec::new(BTreeMap::new(), 1, 0)
}

#[test]
fn vec_len_is_zero() {
    let vec = empty();
    assert_eq!(vec.len(), 0);
}

#[test]
fn vec_push_increases_the_len() {
    let mut vec = empty();
    vec.push(&val(&42u16)).unwrap();
    assert_eq!(vec.len(), 1)
}

#[test]
fn vec_pop_return_none() {
    let mut vec = empty();
    let elem: Option<()> = back(vec.pop().unwrap());
    assert_eq!(elem, None)
}

#[test]
fn vec_element_pop_in_the_right_order() {
    let mut vec = empty();
    vec.push(&val(&42)).unwrap();
    vec.push(&val(&43)).unwrap();

    assert_eq!(back(vec.pop().unwrap()), Some(43));
    assert_eq!(back(vec.pop().unwrap()), Some(42));
}

#[test]
fn vec_third_pop_is_none() {
    let mut vec = empty();
    vec.push(&val(&42u16)).unwrap();
    vec.push(&val(&43u16)).unwrap();

    vec.pop().unwrap();
    vec.pop().unwrap();
    let elem: Option<u16> = back(vec.pop().unwrap());
    assert_eq!(elem, None)
}

#[test]
fn extend_error() {
    let mut ds = BTreeMap::new();
    ds.force_error();
    let mut vec = Vec::new(ds, 1, 0);

    let iter = [val(&1u16), val(&2u16), val(&3u16), val(&4u16)];
    let err = vec
        .extend(&iter)
        .expect_err("we forced the datastore to crash on access");
    assert_eq!(err.unadded, &val(&1u16));
    assert_eq!(err.iter, &[val(&2u16), val(&3u16), val(&4u16)]);
}

#[test]
fn extend_push_str_slices() {
    let mut vec = empty();

    let iter = [val("1"), val("2"), val("3"), val("4")];
    vec.extend(&iter).unwrap();
    assert_eq!(vec.len(), 4);
}

#[test]
fn extend_push_strings() {
    let mut vec = empty();

    let iter = [
        val(&"1".to_owned()),
        val(&"2".to_owned()),
        val(&"3".to_owned()),
        val(&"4".to_owned()),
    ];
    vec.extend(&iter).unwrap();
    assert_eq!(back::<String>(vec.get(3).unwrap()), Some("4".to_owned()));
}

#[test]
fn iterator_trivial() {
    let mut vec = empty();
    vec.push(&val(&42u16)).unwrap();
    vec.push(&val(&13u16)).unwrap();
    vec.push(&val(&7u16)).unwrap();

    let mut sum = 0;
    let mut iter = vec.iter();
    while let Some(elem) = iter.next(&vec) {
        sum += back::<u16>(Some(elem.unwrap())).unwrap();
    }
    assert_eq!(sum, 62);
}

#[test]
fn push_post_iter() {
    let mut vec = empty();
    vec.push(&val(&42u16)).unwrap();
    vec.push(&val(&13u16)).unwrap();

    let mut iter = vec.iter();
    vec.push(&val(&7u16)).unwrap();

    let mut sum = 0;
    while let Some(elem) = iter.next(&vec) {
        sum += back::<u16>(Some(elem.unwrap())).unwrap();
    }
    assert_eq!(sum, 62);
}

#[test]
fn pop_post_iter_is_seen() {
    let mut vec = empty();
    vec.push(&val(&42u16)).unwrap();
    vec.push(&val(&13u16)).unwrap();

    let mut sum = 0;
    let mut iter = vec.iter();
    vec.pop().unwrap();

    while let Some(elem) = iter.next(&vec) {
        sum += back::<u16>(Some(elem.unwrap())).unwrap();
    }
    assert_eq!(sum, 42);
}

#[test]
fn pop_during_iter() {
    let mut vec = empty();
    vec.push(&val(&42u16)).unwrap();
    vec.push(&val(&13u16)).unwrap();

    let mut iter = vec.iter();
    iter.next(&vec);
    iter.next(&vec);
    vec.pop().unwrap();
    assert!(iter.next(&vec).is_none());
}

#[test]
fn get_reads_below_the_counter_only() {
    let mut vec = empty();
    assert_eq!(vec.get(0).unwrap(), None);
    vec.push(&[10]).unwrap();
    vec.push(&[20]).unwrap();
    assert_eq!(vec.get(0).unwrap(), Some(vec![10]));
    assert_eq!(vec.get(1).unwrap(), Some(vec![20]));
    assert_eq!(vec.get(2).unwrap(), None);
    vec.pop().unwrap();
    assert_eq!(vec.get(1).unwrap(), None);
}

#[test]
fn slot_key_is_prefix_and_big_endian_index() {
    let key = Prefixed {
        prefix: 7,
        index: 0x0102_0304,
    };
    assert_eq!(key.encode().unwrap(), vec![7, 0, 0, 0, 0, 1, 2, 3, 4]);
    assert_eq!(key.index(), 0x0102_0304);
    let max = Prefixed::max(9);
    assert_eq!(max.encode().unwrap(), vec![9, 255, 255, 255, 255, 255, 255, 255, 255]);
}

#[test]
fn slot_key_decodes_back() {
    let key = Prefixed::decode(&[3, 0, 0, 0, 0, 0, 0, 1, 0]).unwrap();
    assert_eq!(key, Prefixed { prefix: 3, index: 256 });
    let longer = Prefixed::decode(&[3, 0, 0, 0, 0, 0, 0, 1, 0, 99]).unwrap();
    assert_eq!(longer, Prefixed { prefix: 3, index: 256 });
    assert!(Prefixed::decode(&[3, 0, 0]).is_err());
}

#[test]
fn push_writes_under_the_slot_key() {
    let mut vec = Vec::new(BTreeMap::new(), 4, 0);
    vec.push(&[1, 2]).unwrap();
    vec.push(&[3]).unwrap();
    let ds = vec.into_store();
    assert_eq!(ds.get(&[4, 0, 0, 0, 0, 0, 0, 0, 0]).unwrap(), Some(vec![1, 2]));
    assert_eq!(ds.get(&[4, 0, 0, 0, 0, 0, 0, 0, 1]).unwrap(), Some(vec![3]));
}

#[test]
fn push_pop_sequence_counts_and_is_lifo() {
    let mut vec = empty();
    vec.push(&[2]).unwrap();
    vec.push(&[3]).unwrap();
    assert_eq!(vec.pop().unwrap(), Some(vec![3]));
    vec.push(&[5]).unwrap();
    vec.push(&[7]).unwrap();
    assert_eq!(vec.len(), 3);
    assert_eq!(vec.pop().unwrap(), Some(vec![7]));
    assert_eq!(vec.pop().unwrap(), Some(vec![5]));
    assert_eq!(vec.pop().unwrap(), Some(vec![2]));
    assert_eq!(vec.pop().unwrap(), None);
    assert_eq!(vec.pop().unwrap(), None);
    assert_eq!(vec.len(), 0);
    vec.push(&[9]).unwrap();
    assert_eq!(vec.len(), 1);
}

#[test]
fn counter_is_recovered_from_the_store() {
    let mut vec = Vec::open(BTreeMap::new(), 1).unwrap();
    assert_eq!(vec.len(), 0);
    vec.push(&val(&2u32)).unwrap();
    vec.push(&val(&3u32)).unwrap();
    vec.push(&val(&5u32)).unwrap();
    vec.push(&val(&7u32)).unwrap();
    assert_eq!(back(vec.pop().unwrap()), Some(7u32));
    assert_eq!(vec.len(), 3);

    let ds = vec.into_store();
    let mut vec = Vec::open(ds, 1).unwrap();
    assert_eq!(vec.len(), 3);
    assert_eq!(back(vec.pop().unwrap()), Some(5u32));
}

#[test]
fn push_persistance() {
    let mut the_field = DefaultTrait::new(BTreeMap::new(), 1, val(&u8::default()));
    the_field.set(&val(&8u8)).unwrap();

    let mut primes = Vec::open(the_field.into_store(), 0).unwrap();
    let values = [val(&2u32), val(&3u32), val(&5u32), val(&7u32)];
    primes.extend(&values).unwrap();

    let ds = primes.into_store();
    let the_field = DefaultTrait::new(ds, 1, val(&u8::default()));
    assert_eq!(Some(8u8), back(Some(the_field.get().unwrap())));
    let mut primes = Vec::open(the_field.into_store(), 0).unwrap();
    assert_eq!(Some(7u32), back(primes.pop().unwrap()));
    assert_eq!(Some(5u32), back(primes.pop().unwrap()));
}

#[test]
fn clear_persistence() {
    let mut primes = Vec::open(BTreeMap::new(), 0).unwrap();
    let values = [val(&2u32), val(&3u32), val(&5u32), val(&7u32)];
    primes.extend(&values).unwrap();
    primes.clear().unwrap();

    let ds = primes.into_store();
    let mut primes = Vec::open(ds, 0).unwrap();
    assert_eq!(None, back::<u32>(primes.pop().unwrap()));
    assert_eq!(0, primes.len());

    primes.push(&val(&2u32)).unwrap();
    assert_eq!(Some(2u32), back(primes.pop().unwrap()));
}

#[test]
fn recovery_ignores_other_prefixes() {
    let mut below = Vec::open(BTreeMap::new(), 1).unwrap();
    below.push(&[1]).unwrap();
    below.push(&[2]).unwrap();
    let ds = below.into_store();
    let above = Vec::open(ds, 2).unwrap();
    assert_eq!(above.len(), 0);
    let ds = above.into_store();
    let first = Vec::open(ds, 0).unwrap();
    assert_eq!(first.len(), 0);
}

#[test]
fn clear_twice_leaves_the_list_empty() {
    let mut vec = empty();
    vec.push(&[1]).unwrap();
    vec.push(&[2]).unwrap();
    vec.clear().unwrap();
    assert!(vec.is_empty());
    vec.clear().unwrap();
    assert!(vec.is_empty());
    let ds = vec.into_store();
    assert_eq!(ds.get(&[1, 0, 0, 0, 0, 0, 0, 0, 0]).unwrap(), None);
    assert_eq!(ds.get(&[1, 0, 0, 0, 0, 0, 0, 0, 1]).unwrap(), None);
}

#[test]
fn failed_push_leaves_a_gap() {
    let mut ds = BTreeMap::new();
    ds.force_error();
    let mut vec = Vec::new(ds, 1, 0);
    assert!(vec.push(&[1]).is_err());
    assert_eq!(vec.len(), 1);
    assert!(vec.pop().is_err());
    assert_eq!(vec.len(), 0);
    assert_eq!(vec.pop().unwrap(), None);
}

#[test]
fn recovery_fails_on_a_key_that_is_no_slot() {
    let mut ds = BTreeMap::new();
    ds.insert(&[1, 5], &[0]).unwrap();
    let opened = Vec::open(ds, 1);
    assert!(matches!(opened, Err(dbstruct::Error::DeSerializingKey(_))));
}

#[test]
fn recovery_reads_the_first_nine_bytes_of_a_longer_key() {
    let mut ds = BTreeMap::new();
    ds.insert(&[1, 0, 0, 0, 0, 0, 0, 0, 4, 9], &[0]).unwrap();
    let list = Vec::open(ds, 1).unwrap();
    assert_eq!(list.len(), 5);
}

#[test]
fn counter_wraps_around_after_the_last_index() {
    let mut list = Vec::new(BTreeMap::new(), 1, usize::MAX);
    list.push(&[7]).unwrap();
    assert_eq!(list.len(), 0);
    let ds = list.into_store();
    let key = Prefixed::max(1).encode().unwrap();
    assert_eq!(ds.get(&key).unwrap(), Some(vec![7]));
}

#[test]
fn recovery_fails_with_the_store() {
    let mut ds = BTreeMap::new();
    ds.force_error();
    assert!(matches!(
        Vec::open(ds, 1),
        Err(dbstruct::Error::Database(_))
    ));
}

#[test]
fn decoded_parts_make_the_slot_key() {
    let key = Prefixed::from_decoded(Ok((3, 256))).unwrap();
    assert_eq!(key, Prefixed { prefix: 3, index: 256 });
    let failed = Prefixed::from_decoded(Err(bincode::error::DecodeError::Other("short")));
    assert!(matches!(
        failed,
        Err(bincode::error::DecodeError::Other("short"))
    ));
}
