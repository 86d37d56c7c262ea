use dbstruct::errors::Help;
use dbstruct::model::attribute::{BackendOptionVariant, Options};
use dbstruct::model::backend::{Backend, Bounds, ErrorVariant, ExtraBound};
use dbstruct::model::key::DbKey;
use dbstruct::model::Wrapper;
use dbstruct::stores::BTreeMap;
use dbstruct::traits::byte_store::ByteStore;
use dbstruct::Db;

#[test]
fn err_on_unsupported_backend() {
    let options = [Options::Backend(BackendOptionVariant::HashMap)];
    let fields = [Wrapper::Vec];
    let err = Backend::try_from(&options, &fields).unwrap_err();
    match err {
        ErrorVariant::MissesTraits {
            needed: missing, ..
        } => {
            assert!(missing.contains(ExtraBound::Ordered));
            assert!(!missing.contains(ExtraBound::Atomic));
        }
        _ => unreachable!("expected error missingtraits got: {err:?}"),
    }
}

#[test]
fn supported_backend() {
    let options = [Options::Backend(BackendOptionVariant::Sled)];
    let fields = [Wrapper::Vec];
    let backend = Backend::try_from(&options, &fields).unwrap();
    assert!(matches!(backend, Backend::Sled));
}

#[test]
fn reject_double_backend() {
    let options = [
        Options::Backend(BackendOptionVariant::Sled),
        Options::Backend(BackendOptionVariant::Sled),
    ];
    let fields = [Wrapper::Vec];
    let err = Backend::try_from(&options, &fields).unwrap_err();
    assert!(matches!(err, ErrorVariant::MultipleBackends));
}

#[test]
fn missing_backend_is_an_error() {
    let err = Backend::try_from(&[Options::Async], &[Wrapper::Option]).unwrap_err();
    assert_eq!(err, ErrorVariant::NoBackendSpecified);
    assert_eq!(
        err.help(),
        Some("specify a backend using db=sled".to_owned())
    );
}

#[test]
fn own_store_is_asked_for_what_the_fields_need() {
    let options = [Options::Async, Options::Backend(BackendOptionVariant::Trait)];
    let backend =
        Backend::try_from(&options, &[Wrapper::DefaultValue, Wrapper::VecDeque]).unwrap();
    assert_eq!(
        backend,
        Backend::Trait {
            bounds: Bounds {
                atomic: false,
                ordered: true
            }
        }
    );
    let backend = Backend::try_from(&options, &[Wrapper::DefaultTrait]).unwrap();
    assert_eq!(
        backend,
        Backend::Trait {
            bounds: Bounds {
                atomic: false,
                ordered: false
            }
        }
    );
}

#[test]
fn hashmap_holds_scalars_only() {
    let options = [Options::Backend(BackendOptionVariant::HashMap)];
    let scalars = [Wrapper::Option, Wrapper::DefaultTrait, Wrapper::DefaultValue];
    assert_eq!(Backend::try_from(&options, &scalars), Ok(Backend::HashMap));
    let with_map = [Wrapper::Option, Wrapper::HashMap, Wrapper::Vec];
    assert_eq!(
        Backend::try_from(&options, &with_map),
        Err(ErrorVariant::MissesTraits {
            backend: Backend::HashMap,
            needed: Bounds {
                atomic: false,
                ordered: true
            }
        })
    );
}

#[test]
fn backend_names() {
    assert_eq!(Backend::Sled.name(), "sled");
    assert_eq!(Backend::HashMap.name(), "hashmap");
    assert_eq!(Backend::BTreeMap.name(), "btreemap");
    let own = Backend::Trait {
        bounds: Bounds {
            atomic: true,
            ordered: true,
        },
    };
    assert_eq!(own.name(), "trait");
}

#[test]
fn prefixes_follow_the_sorted_names() {
    let keys = DbKey::new(&["the_result", "primes", "the_awnser"]).unwrap();
    assert_eq!(keys.len(), 3);
    assert_eq!(keys.prefix("primes"), 0);
    assert_eq!(keys.prefix("the_awnser"), 1);
    assert_eq!(keys.prefix("the_result"), 2);
    assert_eq!(keys.get("missing"), None);
}

#[test]
fn a_name_that_comes_twice_counts_once() {
    let keys = DbKey::new(&["b", "a", "b", "c", "a"]).unwrap();
    assert_eq!(keys.len(), 3);
    assert_eq!(keys.get("a"), Some(0));
    assert_eq!(keys.get("b"), Some(1));
    assert_eq!(keys.get("c"), Some(2));
}

#[test]
fn at_most_254_fields() {
    let names: Vec<String> = (0..254).map(|i| format!("field_{i:03}")).collect();
    let mut fields: Vec<&str> = names.iter().map(|name| name.as_str()).collect();
    let keys = DbKey::new(&fields).unwrap();
    assert_eq!(keys.len(), 254);
    assert_eq!(keys.prefix("field_000"), 0);
    assert_eq!(keys.prefix("field_253"), 253);

    fields.push("one_more");
    let err = DbKey::new(&fields).unwrap_err();
    assert_eq!(err.assigned, 254);
    assert_eq!(err.help(), None);
}

#[test]
fn database_opens_the_list_of_a_field() {
    let db = Db::new(BTreeMap::new(), &["queue", "account"]).unwrap();
    assert_eq!(db.prefix("account"), Some(0));
    assert_eq!(db.prefix("queue"), Some(1));
    let mut queue = db.vec("queue").unwrap().unwrap();
    queue.push(&[1]).unwrap();
    queue.push(&[2]).unwrap();

    let db = Db::new(queue.into_store(), &["queue", "account"]).unwrap();
    let mut queue = db.vec("queue").unwrap().unwrap();
    assert_eq!(queue.len(), 2);
    assert_eq!(queue.pop().unwrap(), Some(vec![2]));

    let db = Db::new(queue.into_store(), &["queue", "account"]).unwrap();
    let db = db.vec("playing").unwrap_err();
    assert_eq!(db.prefix("queue"), Some(1));
    assert_eq!(
        db.into_store().get(&[1, 0, 0, 0, 0, 0, 0, 0, 0]).unwrap(),
        Some(vec![1])
    );
}

#[test]
fn database_opens_each_kind_of_field() {
    let fields = ["account", "playing", "plus10", "queue"];
    let db = Db::new(BTreeMap::new(), &fields).unwrap();
    let mut plus10 = db.map("plus10").unwrap();
    plus10.insert(&[1], &[11]).unwrap();

    let db = Db::new(plus10.into_store(), &fields).unwrap();
    let mut account = db.option("account").unwrap();
    account.set(Some(&[7])).unwrap();

    let db = Db::new(account.into_store(), &fields).unwrap();
    let playing = db.default_value("playing", vec![1]).unwrap();
    assert_eq!(playing.get().unwrap(), vec![1]);

    let db = Db::new(playing.into_store(), &fields).unwrap();
    assert!(db.store().get(&[0]).unwrap().is_some());
    assert!(db.store().get(&[2, 1]).unwrap().is_some());
    let plus10 = db.map("plus10").unwrap();
    assert_eq!(plus10.get(&[1]).unwrap(), Some(vec![11]));

    let db = Db::new(plus10.into_store(), &fields).unwrap();
    let db = db.map("missing").unwrap_err();
    let db = db.option("missing").unwrap_err();
    let db = db.default_value("missing", vec![]).unwrap_err();
    let db = db.vec_deque("missing").unwrap_err();
    assert_eq!(db.store().get(&[2, 1]).unwrap(), Some(vec![11]));
}

#[test]
fn database_opens_the_deque_of_a_field() {
    let fields = ["letters", "numbers"];
    let db = Db::new(BTreeMap::new(), &fields).unwrap();
    let mut numbers = db.vec_deque("numbers").unwrap().unwrap();
    assert!(numbers.is_empty());
    numbers.push_front(&[2]).unwrap();
    numbers.push_front(&[1]).unwrap();
    numbers.push_back(&[3]).unwrap();

    let db = Db::new(numbers.into_store(), &fields).unwrap();
    let letters = db.vec_deque("letters").unwrap().unwrap();
    assert!(letters.is_empty());

    let db = Db::new(letters.into_store(), &fields).unwrap();
    let mut numbers = db.vec_deque("numbers").unwrap().unwrap();
    assert_eq!(numbers.len(), 3);
    assert_eq!(numbers.pop_front().unwrap(), Some(vec![1]));
    assert_eq!(numbers.pop_back().unwrap(), Some(vec![3]));
}

#[test]
fn database_hands_itself_back_where_the_cursors_bound_no_window() {
    let mut ds = BTreeMap::new();
    ds.insert(&[0, 0, 0, 0, 0, 0, 0, 0, 0, 7], &[1]).unwrap();
    let db = Db::new(ds, &["numbers"]).unwrap();
    let db = db.vec_deque("numbers").unwrap_err();
    assert_eq!(db.prefix("numbers"), Some(0));
}

#[test]
fn too_many_fields_fail_the_database() {
    let names: Vec<String> = (0..255).map(|i| format!("f{i}")).collect();
    let fields: Vec<&str> = names.iter().map(|name| name.as_str()).collect();
    assert!(Db::new(BTreeMap::new(), &fields).is_err());
}
