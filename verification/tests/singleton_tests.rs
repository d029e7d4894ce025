use hivebox::Hello;
use hivebox::HiveBoxable;
use hivebox::HiveError;
use hivebox::HiveMind;
use hivebox::HiveNamed;
use hivebox::SelfHiveBoxed;

fn transient_db() -> sled::Db {
    sled::Config::new().temporary(true).open().unwrap()
}

#[test]
fn remove_db() {
    let _fresh = HiveMind::new(transient_db());
}

#[test]
fn test_hello_singleton() {
    let db = transient_db();
    let mut cell = SelfHiveBoxed::<Hello>::initialize(
        Some(HiveMind::new(db.clone())),
        Hello::hive_name(),
        Hello::default(),
    )
    .unwrap();
    {
        println!("{:?}", cell.read());
        cell.set(Hello::new(String::from("world"), String::from("sus"), 0)).unwrap();
    }
    let hello = SelfHiveBoxed::<Hello>::initialize(
        Some(HiveMind::new(db)),
        Hello::hive_name(),
        Hello::default(),
    )
    .unwrap();
    println!("{:?}", hello.read());
}

#[test]
fn print_saved_hellos() {
    let db = transient_db();
    let mut mind = HiveMind::new(db);
    mind.set(&Hello::hive_name(), &Hello::default()).unwrap();
    for (k, v) in mind.iter_with_keys::<Hello>() {
        println!("{:?}{:?}", String::from_utf8(k), v);
    }
}

#[test]
fn debug_print() {
    let db = transient_db();
    let mut mind = HiveMind::new(db);
    mind.set(&Hello::hive_name(), &Hello::default()).unwrap();
    let hellos = mind.iter::<Hello>();
    for hello in hellos {
        println!("{:?}", hello);
    }
}

#[test]
fn test_hive_mind_store_on_disk() {
    {
        let mut hive_mind = HiveMind::new(sled::open("/tmp/hivebox_disk_test").unwrap());
        let hello = Hello::default();
        let bytes = hello.encode();
        hive_mind.set_bytes(&Hello::hive_name(), &bytes).unwrap();
    }
    {
        let hive_mind = HiveMind::new(sled::open("/tmp/hivebox_disk_test").unwrap());
        let hello = hive_mind.get::<Hello>(&Hello::hive_name()).unwrap();
        assert_eq!(hello.sus, "sus");
    }
}

#[test]
fn first_run_seeds_default() {
    let db = transient_db();
    let cell = SelfHiveBoxed::<Hello>::initialize(
        Some(HiveMind::new(db.clone())),
        b"k".to_vec(),
        Hello::default(),
    )
    .unwrap();
    assert_eq!(cell.read(), &Hello::default());
    let stored = HiveMind::new(db).get::<Hello>(b"k").unwrap();
    assert_eq!(stored, Hello::default());
}

#[test]
fn restart_adopts_persisted() {
    let db = transient_db();
    let prior = Hello::new(String::from("prior"), String::from("p"), 9);
    let mut mind = HiveMind::new(db.clone());
    mind.set(b"k", &prior).unwrap();
    let cell = SelfHiveBoxed::<Hello>::initialize(
        Some(HiveMind::new(db.clone())),
        b"k".to_vec(),
        Hello::default(),
    )
    .unwrap();
    assert_eq!(cell.read(), &prior);
    let stored = HiveMind::new(db).get::<Hello>(b"k").unwrap();
    assert_eq!(stored, prior);
}

#[test]
fn write_then_read_back() {
    let db = transient_db();
    let mut cell = SelfHiveBoxed::<Hello>::initialize(
        Some(HiveMind::new(db.clone())),
        b"k".to_vec(),
        Hello::default(),
    )
    .unwrap();
    let v2 = Hello::new(String::from("w2"), String::from("s2"), 2);
    cell.set(v2.clone()).unwrap();
    assert_eq!(cell.read(), &v2);
    let again = SelfHiveBoxed::<Hello>::initialize(
        Some(HiveMind::new(db)),
        b"k".to_vec(),
        Hello::default(),
    )
    .unwrap();
    assert_eq!(again.read(), &v2);
}

#[test]
fn unbound_cell_stays_in_memory() {
    let mut cell =
        SelfHiveBoxed::<Hello>::initialize(None, b"k".to_vec(), Hello::default()).unwrap();
    let v2 = Hello::new(String::from("mem"), String::from("only"), 3);
    cell.set(v2.clone()).unwrap();
    assert_eq!(cell.read(), &v2);
}

#[test]
fn named_set_then_get() {
    let db = transient_db();
    let value = Hello::new(String::from("world"), String::from("sus"), 1);
    let made = SelfHiveBoxed::set_named(HiveMind::new(db.clone()), value.clone()).unwrap();
    assert_eq!(made.read(), &value);
    let got = SelfHiveBoxed::<Hello>::get_named(HiveMind::new(db)).unwrap();
    assert_eq!(got.read(), &value);
}

#[test]
fn get_named_absent_is_not_found() {
    let r = SelfHiveBoxed::<Hello>::get_named(HiveMind::new(transient_db()));
    assert!(matches!(r, Err(HiveError::NotFound)));
}

#[test]
fn new_persists_before_binding() {
    let db = transient_db();
    let value = Hello::new(String::from("n"), String::from("v"), 4);
    let cell =
        SelfHiveBoxed::new(Some(HiveMind::new(db.clone())), b"n".to_vec(), value.clone()).unwrap();
    assert_eq!(cell.read(), &value);
    let stored = HiveMind::new(db).get::<Hello>(b"n").unwrap();
    assert_eq!(stored, value);
}

#[test]
fn new_unbound_always_succeeds() {
    let value = Hello::new(String::from("mem"), String::from("cell"), 5);
    let cell = SelfHiveBoxed::new(None, b"n".to_vec(), value.clone()).unwrap();
    assert_eq!(cell.read(), &value);
}

#[test]
fn malformed_record_key_never_surfaced() {
    let db = transient_db();
    let mut mind = HiveMind::new(db);
    let good = Hello::default();
    mind.set(b"good", &good).unwrap();
    mind.set_bytes(b"bad", &[1, 2, 3]).unwrap();
    let items = mind.iter_with_keys::<Hello>();
    assert_eq!(items.len(), 1);
    assert_eq!(items[0].0, b"good".to_vec());
    assert_eq!(items[0].1, good);
}
