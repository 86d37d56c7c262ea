use dbstruct::stores::BTreeMap;
use dbstruct::wrapper::map::Entry;
use dbstruct::wrapper::DbMap;

fn map() -> DbMap<BTreeMap> {
    DbMap::new(BTreeMap::new(), 3)
}

#[test]
fn or_insert_fills_a_vacant_entry() {
    let mut map = map();
    let entry = map.entry(vec![1]).unwrap();
    assert!(matches!(entry, Entry::Vacant(_)));
    assert_eq!(entry.key(), &vec![1]);
    assert_eq!(entry.or_insert(&mut map, vec![10]).unwrap(), vec![10]);
    assert_eq!(map.get(&[1]).unwrap(), Some(vec![10]));
}

#[test]
fn or_insert_keeps_an_occupied_entry() {
    let mut map = map();
    map.insert(&[1], &[10]).unwrap();
    let entry = map.entry(vec![1]).unwrap();
    assert!(matches!(entry, Entry::Occupied(_)));
    assert_eq!(entry.or_insert(&mut map, vec![99]).unwrap(), vec![10]);
    assert_eq!(map.get(&[1]).unwrap(), Some(vec![10]));
}

#[test]
fn or_insert_with_calls_the_default_for_a_vacant_entry_only() {
    let mut map = map();
    let entry = map.entry(vec![1]).unwrap();
    assert_eq!(entry.or_insert_with(&mut map, || vec![7]).unwrap(), vec![7]);
    let entry = map.entry(vec![1]).unwrap();
    assert_eq!(
        entry
            .or_insert_with(&mut map, || unreachable!("the entry is occupied"))
            .unwrap(),
        vec![7]
    );
}

#[test]
fn or_insert_with_key_hands_the_key_to_the_default() {
    let mut map = map();
    let entry = map.entry(vec![4, 2]).unwrap();
    let value = entry
        .or_insert_with_key(&mut map, |key: &Vec<u8>| vec![key[0] + key[1]])
        .unwrap();
    assert_eq!(value, vec![6]);
    assert_eq!(map.get(&[4, 2]).unwrap(), Some(vec![6]));
}

#[test]
fn and_modify_changes_an_occupied_entry_only() {
    let mut map = map();
    let entry = map.entry(vec![1]).unwrap();
    let entry = entry
        .and_modify(&mut map, |mut value: Vec<u8>| {
            value.push(0);
            value
        })
        .unwrap();
    assert!(matches!(entry, Entry::Vacant(_)));
    assert_eq!(map.get(&[1]).unwrap(), None);
    assert_eq!(entry.or_insert(&mut map, vec![5]).unwrap(), vec![5]);

    let entry = map.entry(vec![1]).unwrap();
    let entry = entry
        .and_modify(&mut map, |mut value: Vec<u8>| {
            value.push(0);
            value
        })
        .unwrap();
    assert!(matches!(entry, Entry::Occupied(_)));
    assert_eq!(map.get(&[1]).unwrap(), Some(vec![5, 0]));
}

#[test]
fn insert_entry_occupies_the_entry() {
    let mut map = map();
    let entry = map.entry(vec![1]).unwrap();
    let occupied = entry.insert_entry(&mut map, vec![1]).unwrap();
    assert_eq!(occupied.key(), &vec![1]);
    assert_eq!(occupied.get(&map).unwrap(), vec![1]);
    assert_eq!(occupied.insert(&mut map, vec![2]).unwrap(), vec![1]);
    assert_eq!(occupied.get(&map).unwrap(), vec![2]);

    let entry = map.entry(vec![1]).unwrap();
    let occupied = entry.insert_entry(&mut map, vec![3]).unwrap();
    assert_eq!(occupied.remove(&mut map).unwrap(), vec![3]);
    assert_eq!(map.get(&[1]).unwrap(), None);
}

#[test]
fn remove_entry_returns_key_and_value() {
    let mut map = map();
    map.insert(&[8], &[80]).unwrap();
    match map.entry(vec![8]).unwrap() {
        Entry::Occupied(occupied) => {
            assert_eq!(occupied.remove_entry(&mut map).unwrap(), (vec![8], vec![80]));
        }
        Entry::Vacant(_) => unreachable!("the key was inserted"),
    }
    assert!(!map.contains_key(&[8]).unwrap());
}

#[test]
fn vacant_entry_inserts_or_gives_its_key_back() {
    let mut map = map();
    match map.entry(vec![8]).unwrap() {
        Entry::Vacant(vacant) => {
            assert_eq!(vacant.key(), &vec![8]);
            vacant.insert(&mut map, vec![1]).unwrap();
        }
        Entry::Occupied(_) => unreachable!("the map is empty"),
    }
    assert_eq!(map.get(&[8]).unwrap(), Some(vec![1]));
    match map.entry(vec![9]).unwrap() {
        Entry::Vacant(vacant) => assert_eq!(vacant.into_key(), vec![9]),
        Entry::Occupied(_) => unreachable!("the key is new"),
    }
}

#[test]
fn entry_fails_with_the_store() {
    let mut ds = BTreeMap::new();
    ds.force_error();
    let map = DbMap::new(ds, 3);
    assert!(map.entry(vec![1]).is_err());
}

#[test]
fn or_default_fills_a_vacant_entry_with_the_default() {
    let mut map = map();
    let entry = map.entry(vec![1]).unwrap();
    assert_eq!(entry.or_default(&mut map, vec![0]).unwrap(), vec![0]);
    let entry = map.entry(vec![1]).unwrap();
    assert_eq!(entry.or_default(&mut map, vec![9]).unwrap(), vec![0]);
    assert_eq!(map.get(&[1]).unwrap(), Some(vec![0]));
}
