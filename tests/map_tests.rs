use my_hash::map::{HashMap, NUM_BUCKETS};
use std::collections::hash_map::DefaultHasher;
use std::hash::{Hash, Hasher};

fn bucket_for(key: &str) -> u64 {
    let mut hasher = DefaultHasher::new();
    key.hash(&mut hasher);
    hasher.finish() % (NUM_BUCKETS as u64)
}

#[test]
fn it_works() {
    let mut map = HashMap::new();

    assert_eq!(map.insert("foo", "bar"), None);
    assert_eq!(map.insert("foo", "lol"), Some("bar"));

    assert_eq!(map.get(&"foo"), Some(&"lol"));
    assert_eq!(map.get(&"foo"), Some(&"lol"));
    assert_eq!(map.get(&"qux"), None);

    assert_eq!(map.remove(&"foo"), Some("lol"));
    assert_eq!(map.get(&"foo"), None);
}

#[test]
fn insert_then_get_on_empty_map() {
    for (k, v) in [("a", 1), ("", 2), ("longer key", 3), ("é", 4)] {
        let mut map: HashMap<&str, i32> = HashMap::new();
        assert_eq!(map.insert(k, v), None);
        assert_eq!(map.get(&k), Some(&v));
    }
}

#[test]
fn update_returns_previous_value() {
    let mut map = HashMap::new();
    assert_eq!(map.insert("foo", "bar"), None);
    assert_eq!(map.insert("foo", "lol"), Some("bar"));
    assert_eq!(map.insert("foo", "baz"), Some("lol"));
}

#[test]
fn update_keeps_a_single_entry() {
    let mut map = HashMap::new();
    map.insert("foo", "bar");
    map.insert("foo", "lol");
    assert_eq!(map.get(&"foo"), Some(&"lol"));
    assert_eq!(map.remove(&"foo"), Some("lol"));
    assert_eq!(map.get(&"foo"), None);
    assert_eq!(map.remove(&"foo"), None);
}

#[test]
fn absent_key_on_empty_and_filled_maps() {
    let mut map: HashMap<&str, i32> = HashMap::new();
    assert_eq!(map.get(&"qux"), None);
    map.insert("foo", 1);
    map.insert("bar", 2);
    assert_eq!(map.get(&"qux"), None);
}

#[test]
fn remove_absent_key_changes_nothing() {
    let mut map = HashMap::new();
    assert_eq!(map.remove(&"foo"), None);
    map.insert("foo", 10);
    map.insert("bar", 20);
    assert_eq!(map.remove(&"qux"), None);
    assert_eq!(map.get(&"foo"), Some(&10));
    assert_eq!(map.get(&"bar"), Some(&20));
    assert_eq!(map.remove(&"foo"), Some(10));
    assert_eq!(map.remove(&"foo"), None);
    assert_eq!(map.get(&"bar"), Some(&20));
}

#[test]
fn colliding_keys_keep_their_own_values() {
    let keys: Vec<String> = (0..100).map(|i| format!("key{}", i)).collect();
    let mut pair = None;
    for a in 0..keys.len() {
        for b in (a + 1)..keys.len() {
            if pair.is_none() && bucket_for(&keys[a]) == bucket_for(&keys[b]) {
                pair = Some((a, b));
            }
        }
    }
    let (a, b) = pair.unwrap();
    let mut map = HashMap::new();
    assert_eq!(map.insert(keys[a].as_str(), 1), None);
    assert_eq!(map.insert(keys[b].as_str(), 2), None);
    assert_eq!(map.get(&keys[a].as_str()), Some(&1));
    assert_eq!(map.get(&keys[b].as_str()), Some(&2));
    assert_eq!(map.remove(&keys[a].as_str()), Some(1));
    assert_eq!(map.get(&keys[a].as_str()), None);
    assert_eq!(map.get(&keys[b].as_str()), Some(&2));
}

#[test]
fn many_keys_share_the_fixed_buckets() {
    let keys: Vec<String> = (0..200).map(|i| format!("k{}", i)).collect();
    let mut map = HashMap::new();
    for (i, k) in keys.iter().enumerate() {
        assert_eq!(map.insert(k.as_str(), i), None);
    }
    for (i, k) in keys.iter().enumerate() {
        assert_eq!(map.get(&k.as_str()), Some(&i));
    }
    for (i, k) in keys.iter().enumerate() {
        if i % 2 == 0 {
            assert_eq!(map.remove(&k.as_str()), Some(i));
        }
    }
    for (i, k) in keys.iter().enumerate() {
        if i % 2 == 0 {
            assert_eq!(map.get(&k.as_str()), None);
        } else {
            assert_eq!(map.get(&k.as_str()), Some(&i));
        }
    }
}

#[test]
fn bucket_count_never_changes() {
    let mut map = HashMap::new();
    assert_eq!(map.num_buckets(), 16);
    for i in 0..50 {
        map.insert(format!("k{}", i), i);
        assert_eq!(map.num_buckets(), 16);
    }
    for i in 0..50 {
        map.remove(&format!("k{}", i));
        assert_eq!(map.num_buckets(), 16);
    }
    assert_eq!(map.remove(&format!("k{}", 0)), None);
    assert_eq!(map.num_buckets(), 16);
}

#[test]
fn owned_string_keys() {
    let mut map: HashMap<String, u32> = HashMap::new();
    assert_eq!(map.insert(String::from("alpha"), 1), None);
    assert_eq!(map.insert(String::from("beta"), 2), None);
    assert_eq!(map.insert(String::from("alpha"), 3), Some(1));
    assert_eq!(map.get(&String::from("alpha")), Some(&3));
    assert_eq!(map.get(&String::from("gamma")), None);
    assert_eq!(map.remove(&String::from("beta")), Some(2));
    assert_eq!(map.get(&String::from("beta")), None);
}
