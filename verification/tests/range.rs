use dbstruct::stores::{BTreeMap, HashMap, HashMapError};
use dbstruct::traits::byte_store::{in_range, Bound, ByteStore, Ranged};
use dbstruct::traits::data_store;
use dbstruct::wrapper::OptionValue;

fn filled() -> BTreeMap {
    let mut ds = BTreeMap::new();
    ds.insert(&[3], &[30]).unwrap();
    ds.insert(&[1], &[10]).unwrap();
    ds.insert(&[2, 5], &[25]).unwrap();
    ds.insert(&[2], &[20]).unwrap();
    ds
}

#[test]
fn range_is_in_key_order() {
    let ds = filled();
    let all = ds.range(Bound::Unbounded, Bound::Unbounded).unwrap();
    assert_eq!(
        all,
        vec![
            (vec![1], vec![10]),
            (vec![2], vec![20]),
            (vec![2, 5], vec![25]),
            (vec![3], vec![30])
        ]
    );
}

#[test]
fn range_ends_are_included_or_excluded() {
    let ds = filled();
    let start: &[u8] = &[2];
    let end: &[u8] = &[3];
    let found = ds
        .range(Bound::Included(start), Bound::Excluded(end))
        .unwrap();
    assert_eq!(found, vec![(vec![2], vec![20]), (vec![2, 5], vec![25])]);
    let found = ds
        .range(Bound::Excluded(start), Bound::Included(end))
        .unwrap();
    assert_eq!(found, vec![(vec![2, 5], vec![25]), (vec![3], vec![30])]);
    let found = ds.range(Bound::Included(end), Bound::Included(start)).unwrap();
    assert_eq!(found, vec![]);
}

#[test]
fn in_range_compares_with_both_ends() {
    let low: &[u8] = &[1];
    let high: &[u8] = &[1, 0];
    assert!(in_range(&[1], &Bound::Included(low), &Bound::Included(high)));
    assert!(!in_range(&[1], &Bound::Excluded(low), &Bound::Included(high)));
    assert!(in_range(&[1, 0], &Bound::Excluded(low), &Bound::Included(high)));
    assert!(!in_range(&[1, 0], &Bound::Excluded(low), &Bound::Excluded(high)));
    assert!(in_range(&[9], &Bound::Unbounded, &Bound::Unbounded));
    assert!(!in_range(&[0], &Bound::Included(low), &Bound::Unbounded));
}

#[test]
fn typed_range_scopes_a_prefix() {
    let ds = filled();
    let found = data_store::range(
        &ds,
        Bound::Included(Ok(vec![2])),
        Bound::Excluded(Ok(vec![3])),
    )
    .unwrap();
    assert_eq!(found, vec![(vec![2], vec![20]), (vec![2, 5], vec![25])]);
}

#[test]
fn typed_range_fails_on_the_first_bad_bound() {
    let ds = filled();
    let bad_start = bincode::error::EncodeError::Other("start");
    let bad_end = bincode::error::EncodeError::Other("end");
    let res = data_store::range(
        &ds,
        Bound::Included(Err(bad_start)),
        Bound::Excluded(Err(bad_end)),
    );
    match res {
        Err(dbstruct::Error::SerializingKey(bincode::error::EncodeError::Other(which))) => {
            assert_eq!(which, "start")
        }
        other => unreachable!("expected a key error, got {other:?}"),
    }
    let bad_end = bincode::error::EncodeError::Other("end");
    let res = data_store::range(&ds, Bound::Unbounded, Bound::Excluded(Err(bad_end)));
    assert!(matches!(res, Err(dbstruct::Error::SerializingKey(_))));
}

#[test]
fn range_fails_with_the_store() {
    let mut ds = filled();
    ds.force_error();
    assert!(ds.range(Bound::Unbounded, Bound::Unbounded).is_err());
    let res = data_store::range(&ds, Bound::Unbounded, Bound::Unbounded);
    assert!(matches!(res, Err(dbstruct::Error::Database(_))));
}

#[test]
fn hashmap_get_then_insert() {
    let mut ds = HashMap::new();
    let key = bincode::serde::encode_to_vec(
        1,
        bincode::config::standard()
            .with_big_endian()
            .with_fixed_int_encoding(),
    );
    let val = bincode::serde::encode_to_vec(2u8, bincode::config::standard()).unwrap();
    let existing = data_store::insert(&mut ds, key, &val).unwrap();
    assert_eq!(existing, None);
    let key = bincode::serde::encode_to_vec(
        1,
        bincode::config::standard()
            .with_big_endian()
            .with_fixed_int_encoding(),
    );
    let removed = data_store::remove(&mut ds, key).unwrap().unwrap();
    let (val, _): (u8, usize) =
        bincode::serde::decode_from_slice(&removed, bincode::config::standard()).unwrap();
    assert_eq!(val, 2);
}

#[test]
fn hashmap_store_holds_scalars() {
    let mut field = OptionValue::new(HashMap::new(), 0);
    field.set(Some(&[8])).unwrap();
    assert_eq!(field.get().unwrap(), Some(vec![8]));
    let mut ds = field.into_store();
    assert_eq!(ds.get(&[0]).unwrap(), Some(vec![8]));
    assert_eq!(ds.remove(&[0]).unwrap(), Some(vec![8]));
    assert_eq!(ds.insert(&[0], &[1]).unwrap(), None);
    ds.force_error();
    assert_eq!(ds.get(&[0]), Err(HashMapError::Poisoned));
    assert_eq!(ds.insert(&[0], &[1]), Err(HashMapError::Poisoned));
    assert_eq!(ds.remove(&[0]), Err(HashMapError::Poisoned));
}
