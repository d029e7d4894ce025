use hivebox::Hello;
use hivebox::HiveBox;
use hivebox::HiveBoxable;
use hivebox::HiveError;
use hivebox::bytes_le::{fnv64_bytes, u32_to_le_bytes, u64_from_le_bytes, u64_to_le_bytes};

fn second_hello() -> Hello {
    Hello::new(String::from("world"), String::from("sus"), 1)
}

#[test]
fn test_db_with_file() {
    let mut db = HiveBox::<Hello>::new("/tmp/hivebox_file_test").unwrap();
    let hello = Hello::default();
    db.insert("hello", hello.clone()).unwrap();
    let hello2 = second_hello();
    db.insert("hello2", hello2.clone()).unwrap();
    let items = db.iter();
    assert_eq!(items[0], hello);
    assert_eq!(items[1], hello2);
}

#[test]
fn test_db_restore() {
    {
        let mut db = HiveBox::<Hello>::new("/tmp/hivebox_restore_test").unwrap();
        db.insert("hello", Hello::default()).unwrap();
    }
    {
        let db = HiveBox::<Hello>::new("/tmp/hivebox_restore_test").unwrap();
        let hello = db.get("hello").unwrap();
        assert_eq!(hello, Hello::default());
    }
}

#[test]
fn test_insert() {
    let mut db = HiveBox::<Hello>::memory().unwrap();
    let hello = Hello::default();
    db.insert("hello", hello.clone()).unwrap();
    let hello2 = db.get("hello").unwrap();
    assert_eq!(hello, hello2);
}

#[test]
fn test_iter() {
    let mut db = HiveBox::<Hello>::memory().unwrap();
    let hello = Hello::default();
    db.insert("hello", hello.clone()).unwrap();
    let hello2 = second_hello();
    db.insert("hello2", hello2.clone()).unwrap();
    let items = db.iter();
    assert_eq!(items[0], hello);
    assert_eq!(items[1], hello2);
}

#[test]
fn test_vec() {
    let mut db = HiveBox::<Hello>::memory().unwrap();
    let hello = Hello::default();
    db.insert("hello", hello.clone()).unwrap();
    let hello2 = second_hello();
    db.insert("hello2", hello2.clone()).unwrap();
    let vec = db.vec();
    assert_eq!(vec[0], hello);
    assert_eq!(vec[1], hello2);
}

#[test]
fn test_remove() {
    let mut db = HiveBox::<Hello>::memory().unwrap();
    let hello = Hello::default();
    db.insert("hello", hello.clone()).unwrap();
    db.remove("hello").unwrap();
    assert!(db.get("hello").is_err());
}

#[test]
fn test_add() {
    let mut db = HiveBox::<Hello>::memory().unwrap();
    let hello = Hello::default();
    db.add(hello.clone()).unwrap();
    let hello2 = second_hello();
    db.add(hello2.clone()).unwrap();
    let items = db.iter();
    assert_eq!(items[0], hello);
    assert_eq!(items[1], hello2);
}

#[test]
fn test_exact() {
    let mut db = HiveBox::<Hello>::memory().unwrap();
    let hello = Hello::default();
    db.add(hello.clone()).unwrap();
    let hello2 = second_hello();
    db.add(hello2.clone()).unwrap();
    let hello3 = second_hello();
    let hello4 = db.exact(&hello3).unwrap();
    assert_eq!(hello4, hello2);
}

#[test]
fn round_trip_exact_value() {
    let h = Hello::new(String::from("h\u{e9}llo \u{2713}"), String::from(""), -7);
    let bytes = h.encode();
    let back = Hello::decode(&bytes).unwrap();
    assert_eq!(back, h);
}

#[test]
fn malformed_bytes_do_not_decode() {
    assert!(Hello::decode(&[0xff, 0x00, 0x01]).is_none());
    assert!(Hello::decode(&[]).is_none());
}

#[test]
fn scan_order_is_key_order() {
    let mut db = HiveBox::<Hello>::memory().unwrap();
    let at_b = Hello::new(String::from("bee"), String::from(""), 2);
    let at_a = Hello::new(String::from("ay"), String::from(""), 1);
    db.insert("b", at_b.clone()).unwrap();
    db.insert("a", at_a.clone()).unwrap();
    let items = db.iter();
    assert_eq!(items, vec![at_a, at_b]);
}

#[test]
fn skip_on_malformed() {
    let mut db = HiveBox::<Hello>::memory().unwrap();
    let good = Hello::default();
    db.insert("good", good.clone()).unwrap();
    db.insert_bytes(b"bad", &[0xde, 0xad, 0xbe, 0xef]).unwrap();
    let items = db.vec();
    assert_eq!(items, vec![good]);
    assert!(matches!(db.get("bad"), Err(HiveError::Codec)));
}

#[test]
fn get_absent_is_not_found() {
    let db = HiveBox::<Hello>::memory().unwrap();
    assert!(matches!(db.get("nothing"), Err(HiveError::NotFound)));
    assert!(matches!(db.exact(&Hello::default()), Err(HiveError::NotFound)));
}

#[test]
fn delete_then_not_found() {
    let mut db = HiveBox::<Hello>::memory().unwrap();
    db.insert("k", Hello::default()).unwrap();
    db.remove("k").unwrap();
    assert!(matches!(db.get("k"), Err(HiveError::NotFound)));
}

#[test]
fn remove_dublicate_removes_by_identity() {
    let mut db = HiveBox::<Hello>::memory().unwrap();
    let hello = Hello::default();
    db.add(hello.clone()).unwrap();
    db.remove_dublicate(&hello).unwrap();
    assert!(matches!(db.exact(&hello), Err(HiveError::NotFound)));
    db.remove_dublicate(&hello).unwrap();
}

#[test]
fn word_images_are_little_endian() {
    assert_eq!(u64_to_le_bytes(0x0102030405060708), vec![8, 7, 6, 5, 4, 3, 2, 1]);
    assert_eq!(u32_to_le_bytes(0x01020304), vec![4, 3, 2, 1]);
    assert_eq!(u64_from_le_bytes(&[8, 7, 6, 5, 4, 3, 2, 1], 0), 0x0102030405060708);
}

#[test]
fn fnv64_known_values() {
    assert_eq!(fnv64_bytes(&Vec::new()), 0xcbf29ce484222325);
    assert_eq!(fnv64_bytes(&vec![0x61]), 0xaf63dc4c8601ec8c);
}
