use dbstruct::stores::BTreeMap;
use dbstruct::traits::byte_store::{ByteStore, Ordered};
use dbstruct::wrapper::vec_deque::{Prefixed, HEAD_START, TAIL_START};
use dbstruct::wrapper::VecDeque;

fn val<V: serde::Serialize + ?Sized>(val: &V) -> Vec<u8> {
    bincode::serde::encode_to_vec(val, bincode::config::standard()).unwrap()
}

fn back<V: serde::de::DeserializeOwned>(bytes: Option<Vec<u8>>) -> Option<V> {
    bytes.map(|bytes| {
        bincode::serde::decode_from_slice(&bytes, bincode::config::standard())
            .unwrap()
            .0
    })
}

fn open(ds: BTreeMap, prefix: u8) -> VecDeque<BTreeMap> {
    let (head, tail) = VecDeque::cursors(&ds, prefix).unwrap();
    assert_ne!(head, tail, "VecDeque::new failed");
    assert!(head < tail);
    VecDeque::new(ds, prefix, head, tail)
}

fn numbers() -> VecDeque<BTreeMap> {
    open(BTreeMap::new(), 1)
}

fn collect(deque: &VecDeque<BTreeMap>) -> Vec<u32> {
    let mut all = Vec::new();
    let mut iter = deque.iter();
    while let Some(elem) = iter.next(deque) {
        all.push(back(Some(elem.unwrap())).unwrap());
    }
    all
}

#[test]
fn clear() {
    let mut numbers = numbers();

    let primes = [val(&2u32), val(&3u32), val(&5u32), val(&7u32)];
    numbers.extend(&primes).unwrap();
    numbers.clear().unwrap();
    numbers.push_front(&val(&3u32)).unwrap();
    numbers.push_back(&val(&5u32)).unwrap();
    numbers.push_front(&val(&2u32)).unwrap();
    numbers.push_back(&val(&7u32)).unwrap();

    assert_eq!(Some(7u32), back(numbers.pop_back().unwrap()));
    assert_eq!(Some(2u32), back(numbers.pop_front().unwrap()));
}

#[test]
fn vec_deque_len_is_zero() {
    let numbers = numbers();
    assert_eq!(numbers.len(), 0);
}

#[test]
fn vec_deque_push_increases_the_len() {
    let mut numbers = numbers();
    numbers.push_back(&val(&42u32)).unwrap();
    assert_eq!(numbers.len(), 1)
}

#[test]
fn vec_deque_pop_return_none() {
    let mut numbers = numbers();
    let elem: Option<u32> = back(numbers.pop_back().unwrap());
    assert_eq!(elem, None)
}

#[test]
fn vec_deque_len_is_two() {
    let mut numbers = numbers();
    numbers.push_back(&val(&42u32)).unwrap();
    numbers.push_back(&val(&43u32)).unwrap();

    assert_eq!(numbers.len(), 2);
}

#[test]
fn vec_deque_element_pop_in_the_right_order() {
    let mut numbers = numbers();
    numbers.push_back(&val(&42u32)).unwrap();
    numbers.push_back(&val(&43u32)).unwrap();

    assert_eq!(back(numbers.pop_back().unwrap()), Some(43u32));
    assert_eq!(back(numbers.pop_back().unwrap()), Some(42u32));
}

#[test]
fn vec_deque_third_pop_is_none() {
    let mut numbers = numbers();
    numbers.push_back(&val(&42u32)).unwrap();
    numbers.push_back(&val(&43u32)).unwrap();

    numbers.pop_back().unwrap();
    numbers.pop_back().unwrap();
    let elem: Option<u32> = back(numbers.pop_back().unwrap());
    assert_eq!(elem, None)
}

#[test]
fn push_front_len_is_two() {
    let mut numbers = numbers();
    numbers.push_front(&val(&42u32)).unwrap();
    numbers.push_front(&val(&43u32)).unwrap();

    assert_eq!(numbers.len(), 2);
}

#[test]
fn push_front_element_pop_in_the_right_order() {
    let mut numbers = numbers();
    numbers.push_front(&val(&42u32)).unwrap();
    numbers.push_front(&val(&43u32)).unwrap();

    assert_eq!(back(numbers.pop_front().unwrap()), Some(43u32));
    assert_eq!(back(numbers.pop_front().unwrap()), Some(42u32));
}

#[test]
fn push_front_third_pop_is_none() {
    let mut numbers = numbers();
    numbers.push_front(&val(&42u32)).unwrap();
    numbers.push_front(&val(&43u32)).unwrap();

    numbers.pop_front().unwrap();
    numbers.pop_front().unwrap();
    let elem: Option<u32> = back(numbers.pop_front().unwrap());
    assert_eq!(elem, None)
}

#[test]
fn len_is_correct() {
    let mut numbers = numbers();
    numbers.push_front(&val(&42u32)).unwrap();
    assert_eq!(numbers.len(), 1);

    numbers.push_back(&val(&43u32)).unwrap();
    assert_eq!(numbers.len(), 2);

    numbers.push_front(&val(&41u32)).unwrap();
    assert_eq!(numbers.len(), 3);
}

#[test]
fn combined_element_pop_in_the_right_order() {
    let mut numbers = numbers();
    numbers.push_front(&val(&42u32)).unwrap();
    numbers.push_back(&val(&43u32)).unwrap();
    numbers.push_front(&val(&41u32)).unwrap();

    assert_eq!(back(numbers.pop_front().unwrap()), Some(41u32));
    assert_eq!(back(numbers.pop_back().unwrap()), Some(43u32));
    assert_eq!(back(numbers.pop_front().unwrap()), Some(42u32));
}

#[test]
fn fourth_pop_is_none() {
    let mut numbers = numbers();
    numbers.push_front(&val(&42u32)).unwrap();
    numbers.push_back(&val(&43u32)).unwrap();
    numbers.push_front(&val(&41u32)).unwrap();

    numbers.pop_front().unwrap();
    numbers.pop_front().unwrap();
    numbers.pop_front().unwrap();
    let elem: Option<u32> = back(numbers.pop_front().unwrap());
    assert_eq!(elem, None)
}

#[test]
fn access_front_via_back_pop() {
    let mut numbers = numbers();
    numbers.push_front(&val(&43u32)).unwrap();
    numbers.push_front(&val(&42u32)).unwrap();
    numbers.push_front(&val(&41u32)).unwrap();

    assert_eq!(back(numbers.pop_back().unwrap()), Some(43u32));
    assert_eq!(back(numbers.pop_back().unwrap()), Some(42u32));
    assert_eq!(back(numbers.pop_back().unwrap()), Some(41u32));
}

#[test]
fn clear_then_push() {
    let mut numbers = numbers();
    numbers.push_front(&val(&43u32)).unwrap();
    numbers.push_front(&val(&42u32)).unwrap();
    numbers.clear().unwrap();
    assert!(numbers.is_empty());
    numbers.push_front(&val(&42u32)).unwrap();
    numbers.push_back(&val(&43u32)).unwrap();
    assert_eq!(collect(&numbers), vec![42, 43]);

    let mut numbers = open(BTreeMap::new(), 1);
    numbers.push_back(&val(&43u32)).unwrap();
    numbers.push_back(&val(&42u32)).unwrap();
    numbers.clear().unwrap();
    assert!(numbers.is_empty());
    numbers.push_front(&val(&42u32)).unwrap();
    numbers.push_back(&val(&43u32)).unwrap();
    assert_eq!(collect(&numbers), vec![42, 43]);
}

#[test]
fn pop_clears_from_both_sides() {
    let mut numbers = numbers();
    numbers.push_front(&val(&43u32)).unwrap();
    numbers.push_front(&val(&42u32)).unwrap();
    numbers.pop_back().unwrap();
    numbers.pop_back().unwrap();
    assert!(numbers.is_empty());

    numbers.push_front(&val(&42u32)).unwrap();
    numbers.push_back(&val(&43u32)).unwrap();
    assert_eq!(collect(&numbers), vec![42, 43]);

    let mut numbers = open(BTreeMap::new(), 1);
    numbers.push_back(&val(&43u32)).unwrap();
    numbers.push_back(&val(&42u32)).unwrap();
    numbers.pop_front().unwrap();
    numbers.pop_front().unwrap();
    assert!(numbers.is_empty());

    numbers.push_back(&val(&43u32)).unwrap();
    numbers.push_front(&val(&42u32)).unwrap();
    assert_eq!(collect(&numbers), vec![42, 43]);
}

#[test]
fn vec_deque_trivial() {
    let mut numbers = numbers();
    numbers.push_back(&val(&42u32)).unwrap();
    numbers.push_back(&val(&13u32)).unwrap();
    numbers.push_back(&val(&7u32)).unwrap();

    let mut sum = 0;
    for elem in collect(&numbers) {
        sum += elem;
    }
    assert_eq!(sum, 62);
}

#[test]
fn push_back_post_iter() {
    let mut numbers = numbers();
    numbers.push_back(&val(&42u32)).unwrap();
    numbers.push_back(&val(&13u32)).unwrap();

    let mut iter = numbers.iter();
    numbers.push_back(&val(&7u32)).unwrap();

    let mut sum = 0;
    while let Some(elem) = iter.next(&numbers) {
        sum += back::<u32>(Some(elem.unwrap())).unwrap();
    }
    assert_eq!(sum, 62);
}

#[test]
fn pop_back_post_iter_is_seen() {
    let mut numbers = numbers();
    numbers.push_back(&val(&42u32)).unwrap();
    numbers.push_back(&val(&13u32)).unwrap();

    let mut sum = 0;
    let mut iter = numbers.iter();
    numbers.pop_back().unwrap();

    while let Some(elem) = iter.next(&numbers) {
        sum += back::<u32>(Some(elem.unwrap())).unwrap();
    }
    assert_eq!(sum, 42);
}

#[test]
fn pop_back_during_iter() {
    let mut numbers = numbers();
    numbers.push_back(&val(&42u32)).unwrap();
    numbers.push_back(&val(&13u32)).unwrap();

    let mut iter = numbers.iter();
    iter.next(&numbers);
    iter.next(&numbers);
    numbers.pop_back().unwrap();
    assert!(iter.next(&numbers).is_none());
}

#[test]
fn vec_deque_push_str_slices() {
    let mut letters = open(BTreeMap::new(), 0);

    let iter = [val("a"), val("b"), val("c"), val("d")];
    letters.extend(&iter).unwrap();
    assert_eq!(letters.len(), 4);
    assert_eq!(back(letters.pop_back().unwrap()), Some("d".to_string()));
}

#[test]
fn vec_deque_push_strings() {
    let mut letters = open(BTreeMap::new(), 0);

    let iter = [
        val(&"a".to_owned()),
        val(&"b".to_owned()),
        val(&"c".to_owned()),
        val(&"d".to_owned()),
    ];
    letters.extend(&iter).unwrap();
    assert_eq!(back(letters.get(0).unwrap()), Some("a".to_string()));
}

#[test]
fn vec_deque_extend_error() {
    let mut ds = BTreeMap::new();
    ds.force_error();
    let mut deque = VecDeque::new(ds, 1, u64::MAX / 2 - 1, u64::MAX / 2);

    let iter = [val(&1u16), val(&2u16), val(&3u16), val(&4u16)];
    let err = deque
        .extend(&iter)
        .expect_err("we forced the datastore to crash on access");
    assert_eq!(err.unadded, &val(&1u16));
    assert_eq!(err.iter, &[val(&2u16), val(&3u16), val(&4u16)]);
}

#[test]
fn iter_yields_front_to_back() {
    let mut numbers = numbers();
    numbers.push_front(&val(&2u32)).unwrap();
    numbers.push_front(&val(&1u32)).unwrap();
    numbers.push_back(&val(&3u32)).unwrap();
    assert_eq!(collect(&numbers), vec![1, 2, 3]);
    assert_eq!(back(numbers.get(0).unwrap()), Some(1u32));
    assert_eq!(back(numbers.get(2).unwrap()), Some(3u32));
    assert_eq!(back::<u32>(numbers.get(3).unwrap()), None);
}

#[test]
fn new_deque_starts_in_the_middle() {
    let ds = BTreeMap::new();
    let (head, tail) = VecDeque::cursors(&ds, 5).unwrap();
    assert_eq!(head, u64::MAX / 2 - 1);
    assert_eq!(tail, u64::MAX / 2);
    assert_eq!(head, HEAD_START);
    assert_eq!(tail, TAIL_START);
    let mut deque = VecDeque::new(ds, 5, head, tail);
    deque.push_back(&[1]).unwrap();
    deque.push_front(&[0]).unwrap();
    assert_eq!(deque.head(), u64::MAX / 2 - 2);
    assert_eq!(deque.tail(), u64::MAX / 2 + 1);
    let ds = deque.into_store();
    assert_eq!(
        ds.get(&[5, 0x7f, 0xff, 0xff, 0xff, 0xff, 0xff, 0xff, 0xff])
            .unwrap(),
        Some(vec![1])
    );
    assert_eq!(
        ds.get(&[5, 0x7f, 0xff, 0xff, 0xff, 0xff, 0xff, 0xff, 0xfe])
            .unwrap(),
        Some(vec![0])
    );
}

#[test]
fn cursors_are_recovered_from_the_store() {
    let mut deque = open(BTreeMap::new(), 3);
    deque.push_front(&[2]).unwrap();
    deque.push_front(&[1]).unwrap();
    deque.push_back(&[3]).unwrap();
    let (head, tail) = (deque.head(), deque.tail());

    let mut other = open(deque.into_store(), 4);
    assert!(other.is_empty());
    other.push_back(&[9]).unwrap();

    let mut deque = open(other.into_store(), 3);
    assert_eq!(deque.head(), head);
    assert_eq!(deque.tail(), tail);
    assert_eq!(deque.len(), 3);
    assert_eq!(deque.pop_front().unwrap(), Some(vec![1]));
    assert_eq!(deque.pop_back().unwrap(), Some(vec![3]));
    assert_eq!(deque.pop_back().unwrap(), Some(vec![2]));
    assert_eq!(deque.pop_back().unwrap(), None);
}

#[test]
fn pop_on_empty_changes_nothing() {
    let mut deque = numbers();
    let (head, tail) = (deque.head(), deque.tail());
    assert_eq!(deque.pop_front().unwrap(), None);
    assert_eq!(deque.pop_back().unwrap(), None);
    assert_eq!(deque.pop_front().unwrap(), None);
    assert_eq!((deque.head(), deque.tail()), (head, tail));
    assert_eq!(deque.len(), 0);
    deque.push_back(&[1]).unwrap();
    assert_eq!(deque.len(), 1);
    assert_eq!(deque.pop_front().unwrap(), Some(vec![1]));
}

#[test]
fn clear_twice_leaves_the_deque_empty() {
    let mut deque = numbers();
    deque.push_back(&[1]).unwrap();
    deque.push_front(&[0]).unwrap();
    deque.clear().unwrap();
    assert!(deque.is_empty());
    deque.clear().unwrap();
    assert!(deque.is_empty());
    assert_eq!(deque.len(), 0);
    assert_eq!(deque.into_store().get_gt(&[]).unwrap(), None);
}

#[test]
fn deque_at_the_upper_boundary() {
    let mut deque = VecDeque::new(BTreeMap::new(), 1, u64::MAX - 3, u64::MAX - 2);
    assert!(deque.is_empty());
    deque.push_back(&[1]).unwrap();
    deque.push_back(&[2]).unwrap();
    assert_eq!(deque.tail(), u64::MAX);
    assert_eq!(deque.len(), 2);
    assert_eq!(deque.get(1).unwrap(), Some(vec![2]));

    let mut deque = open(deque.into_store(), 1);
    assert_eq!(deque.head(), u64::MAX - 3);
    assert_eq!(deque.tail(), u64::MAX);
    assert_eq!(deque.pop_back().unwrap(), Some(vec![2]));
    assert_eq!(deque.pop_back().unwrap(), Some(vec![1]));
    assert_eq!(deque.pop_back().unwrap(), None);
    assert_eq!(deque.tail(), u64::MAX - 2);
}

#[test]
fn deque_at_the_lower_boundary() {
    let mut deque = VecDeque::new(BTreeMap::new(), 1, 2, 3);
    deque.push_front(&[2]).unwrap();
    deque.push_front(&[1]).unwrap();
    assert_eq!(deque.head(), 0);
    assert_eq!(deque.len(), 2);
    assert_eq!(deque.get(0).unwrap(), Some(vec![1]));

    let mut deque = open(deque.into_store(), 1);
    assert_eq!(deque.head(), 0);
    assert_eq!(deque.tail(), 3);
    assert_eq!(deque.pop_front().unwrap(), Some(vec![1]));
    assert_eq!(deque.pop_front().unwrap(), Some(vec![2]));
    assert_eq!(deque.pop_front().unwrap(), None);
    assert_eq!(deque.head(), 2);
}

#[test]
fn deque_key_is_prefix_and_big_endian_index() {
    let key = Prefixed {
        prefix: 2,
        index: u64::MAX / 2,
    };
    assert_eq!(
        key.encode().unwrap(),
        vec![2, 0x7f, 0xff, 0xff, 0xff, 0xff, 0xff, 0xff, 0xff]
    );
    assert_eq!(Prefixed::min(2).encode().unwrap(), vec![2, 0, 0, 0, 0, 0, 0, 0, 0]);
    assert_eq!(Prefixed::max(2).index(), u64::MAX);
    let decoded = Prefixed::decode(&[2, 0, 0, 0, 0, 0, 0, 0, 9]).unwrap();
    assert_eq!(decoded, Prefixed { prefix: 2, index: 9 });
}

#[test]
fn cursors_fail_on_a_key_that_is_no_slot() {
    let mut ds = BTreeMap::new();
    ds.insert(&[1, 5], &[0]).unwrap();
    let recovered = VecDeque::cursors(&ds, 1);
    assert!(matches!(
        recovered,
        Err(dbstruct::Error::DeSerializingKey(_))
    ));
    ds.force_error();
    assert!(matches!(
        VecDeque::cursors(&ds, 1),
        Err(dbstruct::Error::Database(_))
    ));
}

#[test]
fn failed_push_leaves_a_gap_in_the_deque() {
    let mut ds = BTreeMap::new();
    ds.force_error();
    let mut deque = VecDeque::new(ds, 1, 10, 11);
    assert!(deque.push_back(&[1]).is_err());
    assert!(deque.push_front(&[1]).is_err());
    assert_eq!(deque.len(), 2);
    assert_eq!((deque.head(), deque.tail()), (9, 12));
    assert!(deque.pop_back().is_err());
    assert!(deque.pop_front().is_err());
    assert!(deque.is_empty());
}

#[test]
fn decoded_parts_make_the_deque_key() {
    let key = Prefixed::from_decoded(Ok((2, u64::MAX))).unwrap();
    assert_eq!(
        key,
        Prefixed {
            prefix: 2,
            index: u64::MAX
        }
    );
    let failed = Prefixed::from_decoded(Err(bincode::error::DecodeError::Other("short")));
    assert!(matches!(
        failed,
        Err(bincode::error::DecodeError::Other("short"))
    ));
}
