use rox::hashtable::HashTable;
use rox::objects::HashKeyString;
use rox::utils::hash;
use rox::value::Value;

fn key(name: &str) -> HashKeyString {
    HashKeyString { value: name.as_bytes().to_vec(), hash: hash(name.as_bytes()) }
}

fn number(n: f64) -> Value {
    Value::Number(n.to_bits())
}

#[test]
fn test_hash_table() {
    let mut table = HashTable::new();
    table.insert(key("hello"), number(1.0));
    assert_eq!(table.count, 1);
    assert_eq!(table.capacity, 8);
}

#[test]
fn test_hash() {
    let hash = hash("hello".as_bytes());
    assert_eq!(hash, 11831194018420276491);
}

#[test]
fn test_hash_table_insert_duplicate() {
    let mut table = HashTable::new();
    table.insert(key("hello"), number(1.0));
    assert_eq!(table.count, 1);
    assert_eq!(table.capacity, 8);

    table.insert(key("hello"), number(2.0));
    assert_eq!(table.count, 1);
    assert_eq!(table.capacity, 8);
}

#[test]
fn test_hash_table_insert_resize() {
    let mut table = HashTable::new();
    table.insert(key("hello"), number(1.0));
    assert_eq!(table.count, 1);
    assert_eq!(table.capacity, 8);

    table.insert(key("hello2"), number(2.0));
    table.insert(key("hello3"), number(3.0));
    table.insert(key("hello4"), number(4.0));
    table.insert(key("hello5"), number(5.0));
    table.insert(key("hello6"), number(6.0));
    table.insert(key("hello7"), number(7.0));
    table.insert(key("hello8"), number(8.0));
    assert_eq!(table.count, 8);
    assert_eq!(table.capacity, 16);
}

#[test]
fn test_hash_table_get() {
    let mut table = HashTable::new();
    table.insert(key("hello"), number(1.0));
    assert_eq!(table.count, 1);
    assert_eq!(table.capacity, 8);

    let value = table.get(&key("hello"));
    assert_eq!(value, Some(&number(1.0)));
}

#[test]
fn test_hash_table_get_not_found() {
    let mut table = HashTable::new();
    table.insert(key("hello"), number(1.0));
    assert_eq!(table.count, 1);
    assert_eq!(table.capacity, 8);

    let value = table.get(&key("hello2"));
    assert_eq!(value, None);
}

#[test]
fn test_hash_table_remove() {
    let mut table = HashTable::new();
    table.insert(key("hello"), number(1.0));
    assert_eq!(table.count, 1);
    assert_eq!(table.capacity, 8);

    let value = table.remove(&key("hello"));
    assert_eq!(value, Some(number(1.0)));
    assert_eq!(table.count, 0);
    assert_eq!(table.capacity, 8);
}

#[test]
fn test_hash_table_remove_not_found() {
    let mut table = HashTable::new();
    table.insert(key("hello"), number(1.0));
    assert_eq!(table.count, 1);
    assert_eq!(table.capacity, 8);

    let value = table.remove(&key("hello2"));
    assert_eq!(value, None);
    assert_eq!(table.count, 1);
    assert_eq!(table.capacity, 8);
}

#[test]
fn hash_is_fnv1a() {
    assert_eq!(hash(b""), 0xcbf29ce484222325);
    assert_eq!(hash(b"a"), 0xaf63dc4c8601ec8c);
    assert_eq!(hash(b"foobar"), 0x85944171f73967e8);
}

#[test]
fn table_holds_nil_values() {
    let mut table = HashTable::new();
    assert!(table.is_empty());
    table.insert(key("a"), Value::Nil);
    assert_eq!(table.get(&key("a")), Some(&Value::Nil));
    assert_eq!(table.len(), 1);
    assert!(!table.is_empty());
}

#[test]
fn table_keeps_many_entries_through_growth_and_removal() {
    let mut table = HashTable::new();
    for i in 0..500u32 {
        assert!(table.insert(key(&format!("name{}", i)), number(i as f64)));
    }
    assert_eq!(table.len(), 500);
    assert_eq!(table.capacity(), 1024);
    for i in 0..500u32 {
        assert_eq!(table.get(&key(&format!("name{}", i))), Some(&number(i as f64)));
    }
    for i in (0..500u32).step_by(2) {
        assert_eq!(table.remove(&key(&format!("name{}", i))), Some(number(i as f64)));
    }
    assert_eq!(table.len(), 250);
    for i in 0..500u32 {
        let expected = if i % 2 == 0 { None } else { Some(number(i as f64)) };
        assert_eq!(table.get(&key(&format!("name{}", i))).copied(), expected);
    }
    for i in (0..500u32).step_by(2) {
        table.insert(key(&format!("name{}", i)), number(-(i as f64)));
    }
    assert_eq!(table.len(), 500);
    assert_eq!(table.get(&key("name4")), Some(&number(-4.0)));
    assert_eq!(table.get(&key("name5")), Some(&number(5.0)));
    table.remove_all();
    assert_eq!(table.len(), 0);
    assert_eq!(table.capacity(), 0);
    assert_eq!(table.get(&key("name5")), None);
}

#[test]
fn table_lists_the_handles_of_its_values() {
    let mut table = HashTable::new();
    table.insert(key("s"), Value::String(rox::gc::Gc { index: 4 }));
    table.insert(key("n"), number(1.0));
    table.insert(key("c"), Value::Closure(rox::gc::Gc { index: 9 }));
    let mut out = vec![rox::gc::Gc { index: 1 }];
    table.collect_handles(&mut out);
    let mut indices: Vec<usize> = out.iter().map(|h| h.index).collect();
    indices.sort();
    assert_eq!(indices, vec![1, 4, 9]);
}
