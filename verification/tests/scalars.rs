use dbstruct::stores::{BTreeMap, BTreeMapError};
use dbstruct::traits::byte_store::{Atomic, ByteStore, Ordered};
use dbstruct::traits::data_store;
use dbstruct::wrapper::{DefaultTrait, DefaultValue, OptionValue};
use dbstruct::Error;
use std::collections::HashMap;

type Fault = Error<BTreeMapError>;

fn val<V: serde::Serialize + ?Sized>(val: &V) -> Vec<u8> {
    bincode::serde::encode_to_vec(val, bincode::config::standard()).unwrap()
}

fn back<V: serde::de::DeserializeOwned>(bytes: &[u8]) -> V {
    bincode::serde::decode_from_slice(bytes, bincode::config::standard())
        .unwrap()
        .0
}

fn plus_one(bytes: &[u8]) -> Result<Vec<u8>, Fault> {
    let (old, _): (u32, usize) =
        bincode::serde::decode_from_slice(bytes, bincode::config::standard())
            .map_err(Error::DeSerializingVal)?;
    bincode::serde::encode_to_vec(old + 1, bincode::config::standard())
        .map_err(Error::SerializingValue)
}

#[test]
fn btreemap_backend() {
    let mut the_field = DefaultTrait::new(BTreeMap::new(), 0, val(&u8::default()));

    the_field.set(&val(&8u8)).unwrap();
    assert_eq!(8u8, back::<u8>(&the_field.get().unwrap()));
}

#[test]
fn sled_backend() {
    let mut the_field = DefaultValue::new(BTreeMap::new(), 0, val(&0u8));

    the_field.set(&val(&8u8)).unwrap();
    let the_field = DefaultValue::new(the_field.into_store(), 0, val(&0u8));
    assert_eq!(8u8, back::<u8>(&the_field.get().unwrap()));
}

#[test]
fn main() {
    let ds = dbstruct::stores::HashMap::default();
    let mut small_list = DefaultTrait::new(ds, 0, val(&Vec::<u8>::default()));
    assert!(back::<Vec<u8>>(&small_list.get().unwrap()).is_empty());
    let list = vec![1u8, 2, 3, 4];
    small_list.set(&val(&list)).unwrap();
    assert_eq!(list, back::<Vec<u8>>(&small_list.get().unwrap()));

    let mut small_map = DefaultTrait::new(
        small_list.into_store(),
        1,
        val(&HashMap::<usize, u32>::default()),
    );
    assert!(back::<HashMap<usize, u32>>(&small_map.get().unwrap()).is_empty());
    let map: HashMap<usize, u32> = (4..8).enumerate().collect();
    small_map.set(&val(&map)).unwrap();
    assert_eq!(map, back::<HashMap<usize, u32>>(&small_map.get().unwrap()));
}

#[test]
fn default_is_read_while_nothing_was_written() {
    let the_result = DefaultValue::new(BTreeMap::new(), 2, val("42"));
    assert_eq!(back::<String>(&the_result.get().unwrap()), "42");
    let ds = the_result.into_store();
    assert_eq!(ds.get_gt(&[]).unwrap(), None);
}

#[test]
fn default_is_kept_as_an_absent_key() {
    let mut playing = DefaultValue::new(BTreeMap::new(), 2, val(&true));
    playing.set(&val(&false)).unwrap();
    assert_eq!(back::<bool>(&playing.get().unwrap()), false);
    let ds = playing.into_store();
    assert_eq!(ds.get(&[2]).unwrap(), Some(val(&false)));

    let mut playing = DefaultValue::new(ds, 2, val(&true));
    playing.set(&val(&true)).unwrap();
    assert_eq!(back::<bool>(&playing.get().unwrap()), true);
    let ds = playing.into_store();
    assert_eq!(ds.get(&[2]).unwrap(), None);
    assert_eq!(ds.get_gt(&[]).unwrap(), None);
}

#[test]
fn default_update_starts_from_the_default() {
    let mut counter = DefaultValue::new(BTreeMap::new(), 0, val(&41u32));
    counter.update(plus_one).unwrap();
    assert_eq!(back::<u32>(&counter.get().unwrap()), 42);
    counter.update(plus_one).unwrap();
    assert_eq!(back::<u32>(&counter.get().unwrap()), 43);
}

#[test]
fn default_update_to_the_default_removes_the_key() {
    let mut counter = DefaultValue::new(BTreeMap::new(), 0, val(&5u32));
    counter.set(&val(&4u32)).unwrap();
    counter.update(plus_one).unwrap();
    assert_eq!(back::<u32>(&counter.get().unwrap()), 5);
    assert_eq!(counter.into_store().get(&[0]).unwrap(), None);
}

#[test]
fn default_update_that_fails_keeps_the_value() {
    let mut counter = DefaultValue::new(BTreeMap::new(), 0, val(&5u32));
    counter.set(&[255, 255]).unwrap();
    let res = counter.update(plus_one);
    assert!(matches!(res, Err(Error::DeSerializingVal(_))));
    assert_eq!(counter.get().unwrap(), vec![255, 255]);
}

#[test]
fn default_conditional_update_compares_with_the_default() {
    let mut counter = DefaultValue::new(BTreeMap::new(), 3, val(&0u32));
    counter.conditional_update(&val(&1u32), &val(&9u32)).unwrap();
    assert_eq!(back::<u32>(&counter.get().unwrap()), 0);

    counter.conditional_update(&val(&0u32), &val(&7u32)).unwrap();
    assert_eq!(back::<u32>(&counter.get().unwrap()), 7);

    counter.conditional_update(&val(&0u32), &val(&8u32)).unwrap();
    assert_eq!(back::<u32>(&counter.get().unwrap()), 7);

    counter.conditional_update(&val(&7u32), &val(&0u32)).unwrap();
    assert_eq!(back::<u32>(&counter.get().unwrap()), 0);
    assert_eq!(counter.into_store().get(&[3]).unwrap(), None);
}

#[test]
fn option_set_get_unset() {
    let mut account = OptionValue::new(BTreeMap::new(), 4);
    assert_eq!(account.get().unwrap(), None);
    assert!(account.is_none().unwrap());
    assert!(!account.is_some().unwrap());

    account.set(Some(&val(&42u8))).unwrap();
    assert_eq!(account.get().unwrap(), Some(val(&42u8)));
    assert!(account.is_some().unwrap());
    assert!(!account.is_none().unwrap());

    account.set(None).unwrap();
    assert_eq!(account.get().unwrap(), None);
    assert!(account.is_none().unwrap());
    assert_eq!(account.into_store().get(&[4]).unwrap(), None);
}

#[test]
fn option_update_leaves_a_missing_value_missing() {
    let mut counter = OptionValue::new(BTreeMap::new(), 4);
    counter.update(plus_one).unwrap();
    assert_eq!(counter.get().unwrap(), None);
    counter.set(Some(&val(&1u32))).unwrap();
    counter.update(plus_one).unwrap();
    assert_eq!(counter.get().unwrap(), Some(val(&2u32)));
}

#[test]
fn option_update_that_fails_keeps_the_value() {
    let mut counter = OptionValue::new(BTreeMap::new(), 4);
    counter.set(Some(&[255, 255])).unwrap();
    let res = counter.update(plus_one);
    assert!(matches!(res, Err(Error::DeSerializingVal(_))));
    assert_eq!(counter.get().unwrap(), Some(vec![255, 255]));
}

#[test]
fn option_conditional_update() {
    let mut account = OptionValue::new(BTreeMap::new(), 4);
    account.conditional_update(&val(&1u8), &val(&2u8)).unwrap();
    assert_eq!(account.get().unwrap(), None);
    account.set(Some(&val(&1u8))).unwrap();
    account.conditional_update(&val(&3u8), &val(&2u8)).unwrap();
    assert_eq!(account.get().unwrap(), Some(val(&1u8)));
    account.conditional_update(&val(&1u8), &val(&2u8)).unwrap();
    assert_eq!(account.get().unwrap(), Some(val(&2u8)));
}

#[test]
fn scalar_key_is_the_prefix() {
    let mut field = OptionValue::new(BTreeMap::new(), 200);
    field.set(Some(&[1, 2, 3])).unwrap();
    let ds = field.into_store();
    assert_eq!(ds.get(&[200]).unwrap(), Some(vec![1, 2, 3]));
}

#[test]
fn scalars_fail_with_the_store() {
    let mut ds = BTreeMap::new();
    ds.force_error();
    let mut field = OptionValue::new(ds, 1);
    assert!(matches!(field.get(), Err(Error::Database(BTreeMapError::Poisoned))));
    assert!(matches!(field.set(Some(&[1])), Err(Error::Database(_))));
    assert!(matches!(field.update(plus_one), Err(Error::Database(_))));
    assert!(matches!(
        field.conditional_update(&[1], &[2]),
        Err(Error::Database(_))
    ));
    let mut field = DefaultValue::new(field.into_store(), 1, vec![0]);
    assert!(matches!(field.get(), Err(Error::Database(_))));
    assert!(matches!(field.set(&[1]), Err(Error::Database(_))));
    assert!(matches!(field.update(plus_one), Err(Error::Database(_))));
    assert!(matches!(
        field.conditional_update(&[0], &[2]),
        Err(Error::Database(_))
    ));
}

#[test]
fn store_atomic_update_writes_or_removes() {
    let mut ds = BTreeMap::new();
    let seen = ds
        .atomic_update(&[1], |current: Option<&[u8]>| {
            (Some(vec![7]), current.map(|bytes| bytes.to_vec()))
        })
        .unwrap();
    assert_eq!(seen, None);
    assert_eq!(ds.get(&[1]).unwrap(), Some(vec![7]));
    let seen = ds
        .atomic_update(&[1], |current: Option<&[u8]>| {
            (None, current.map(|bytes| bytes.to_vec()))
        })
        .unwrap();
    assert_eq!(seen, Some(vec![7]));
    assert_eq!(ds.get(&[1]).unwrap(), None);
}

#[test]
fn store_conditional_update_needs_the_expected_value() {
    let mut ds = BTreeMap::new();
    ds.conditional_update(&[1], &[2], &[1]).unwrap();
    assert_eq!(ds.get(&[1]).unwrap(), None);
    ds.insert(&[1], &[1]).unwrap();
    ds.conditional_update(&[1], &[2], &[9]).unwrap();
    assert_eq!(ds.get(&[1]).unwrap(), Some(vec![1]));
    ds.conditional_update(&[1], &[2], &[1]).unwrap();
    assert_eq!(ds.get(&[1]).unwrap(), Some(vec![2]));
}

#[test]
fn typed_atomic_update_reports_what_the_operation_refused() {
    let mut ds = BTreeMap::new();
    ds.insert(&[1], &[255, 255]).unwrap();
    let res = data_store::atomic_update(&mut ds, Ok(vec![1]), plus_one);
    assert!(matches!(res, Err(Error::DeSerializingVal(_))));
    assert_eq!(ds.get(&[1]).unwrap(), Some(vec![255, 255]));

    ds.insert(&[1], &val(&1u32)).unwrap();
    data_store::atomic_update(&mut ds, Ok(vec![1]), plus_one).unwrap();
    assert_eq!(ds.get(&[1]).unwrap(), Some(val(&2u32)));

    data_store::atomic_update(&mut ds, Ok(vec![2]), plus_one).unwrap();
    assert_eq!(ds.get(&[2]).unwrap(), None);

    data_store::conditional_update(&mut ds, Ok(vec![1]), &val(&5u32), &val(&2u32)).unwrap();
    assert_eq!(ds.get(&[1]).unwrap(), Some(val(&5u32)));
}

#[test]
fn update_hands_the_error_of_the_operation_on() {
    let refuse = |_bytes: &[u8]| -> Result<Vec<u8>, Fault> {
        Err(Error::SerializingValue(bincode::error::EncodeError::Other(
            "refused",
        )))
    };
    let mut field = OptionValue::new(BTreeMap::new(), 1);
    field.set(Some(&[1])).unwrap();
    assert!(matches!(
        field.update(refuse),
        Err(Error::SerializingValue(_))
    ));
    assert_eq!(field.get().unwrap(), Some(vec![1]));

    let mut field = DefaultValue::new(field.into_store(), 2, vec![0]);
    assert!(matches!(
        field.update(refuse),
        Err(Error::SerializingValue(_))
    ));
    assert_eq!(field.get().unwrap(), vec![0]);
    assert_eq!(field.into_store().get(&[2]).unwrap(), None);
}
