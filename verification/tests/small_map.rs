use std::cmp::Ordering;
use std::collections::hash_map::DefaultHasher;
use std::hash::{Hash, Hasher};
use starlark::collections::hash::{BorrowHashed, Hashed};
use starlark::collections::small_map::SmallMap;

fn key(n: i32) -> String {
    format!("{}", n)
}

fn letter(n: i32) -> char {
    (b'a' + n as u8) as char
}

#[test]
fn empty_map() {
    let m = SmallMap::<&str>::new();
    assert_eq!(m.is_empty(), true);
    assert_eq!(m.len(), 0);
    assert_eq!(m.iter().into_iter().next(), None);
}

#[test]
fn few_entries() {
    let entries1 = vec![(key(0), 'a'), (key(1), 'b')];
    let mut m1 = SmallMap::with_capacity(entries1.len());
    for (k, v) in entries1.iter().cloned() {
        m1.insert(k, v);
    }

    let entries2 = vec![(key(1), 'b'), (key(0), 'a')];
    let mut m2 = SmallMap::with_capacity(entries2.len());
    for (k, v) in entries2.iter().cloned() {
        m2.insert(k, v);
    }
    assert_eq!(m1.is_empty(), false);
    assert_eq!(m1.len(), 2);
    assert_eq!(m2.is_empty(), false);
    assert_eq!(m2.len(), 2);

    assert_eq!(m1.iter().into_iter().eq(entries1.iter().map(|(k, v)| (k, v))), true);
    assert_eq!(m2.iter().into_iter().eq(entries2.iter().map(|(k, v)| (k, v))), true);
    assert_eq!(m1.iter().into_iter().eq(m2.iter().into_iter()), false);
    assert_eq!(m1.eq(&m1), true);
    assert_eq!(m2.eq(&m2), true);
    assert_eq!(m1, m2);

    assert_eq!(m1.get(&key(0)), Some(&'a'));
    assert_eq!(m1.get(&key(3)), None);
    assert_eq!(m2.get(&key(1)), Some(&'b'));
    assert_eq!(m2.get(&key(3)), None);

    assert_eq!(m1.get_index(0), Some((&key(0), &'a')));
    assert_eq!(m1.get_index(1), Some((&key(1), &'b')));
    assert_eq!(m1.get_index(2), None);

    let mut other = SmallMap::with_capacity(2);
    other.insert(key(0), 'a');
    other.insert(key(1), 'c');
    assert_ne!(m1, other);
}

#[test]
fn many_entries() {
    let entries1: Vec<(String, char)> = (0..26).map(|n| (key(n), letter(n))).collect();
    let mut m1 = SmallMap::with_capacity(entries1.len());
    for (k, v) in entries1.iter().cloned() {
        m1.insert(k, v);
    }

    let entries2: Vec<(String, char)> = (0..26).rev().map(|n| (key(n), letter(n))).collect();
    let mut m2 = SmallMap::with_capacity(entries2.len());
    for (k, v) in entries2.iter().cloned() {
        m2.insert(k, v);
    }
    assert_eq!(m1.is_empty(), false);
    assert_eq!(m1.len(), 26);
    assert_eq!(m2.is_empty(), false);
    assert_eq!(m2.len(), 26);

    assert_eq!(m1.clone().into_iter().into_iter().eq(entries1.iter().cloned()), true);
    assert_eq!(m2.clone().into_iter().into_iter().eq(entries2.iter().cloned()), true);
    assert_eq!(m1.iter().into_iter().eq(m2.iter().into_iter()), false);
    assert_eq!(m1.eq(&m1), true);
    assert_eq!(m2.eq(&m2), true);
    assert_eq!(m1, m2);

    assert_eq!(m1.get(&key(1)), Some(&'b'));
    assert_eq!(m1.get(&key(30)), None);
    assert_eq!(m2.get(&key(0)), Some(&'a'));
    assert_eq!(m2.get(&key(30)), None);
    assert_eq!(m2.get_full(&key(0)), Some((25, &key(0), &'a')));
    assert_eq!(m2.get_full(&key(25)), Some((0, &key(25), &'z')));
    assert_eq!(m2.get_full(&key(29)), None);

    let not_m1 = {
        let mut m = m1.clone();
        m.remove(&key(1));
        m
    };
    assert_ne!(m1, not_m1);
}

#[test]
fn test_smallmap_macro() {
    let mut map = SmallMap::with_capacity(2);
    map.insert(key(1), "a");
    map.insert(key(3), "b");
    let mut i = map.into_iter().into_iter();
    assert_eq!(i.next(), Some((key(1), "a")));
    assert_eq!(i.next(), Some((key(3), "b")));
    assert_eq!(i.next(), None);
}

#[test]
fn ordering_follows_insertion_and_removal() {
    let mut m = SmallMap::new();
    m.insert("b".to_owned(), 1);
    m.insert("a".to_owned(), 2);
    m.insert("c".to_owned(), 3);
    let b = "b".to_owned();
    let a = "a".to_owned();
    let c = "c".to_owned();
    assert_eq!(m.iter(), vec![(&b, &1), (&a, &2), (&c, &3)]);
    assert_eq!(m.remove("a"), Some(2));
    assert_eq!(m.iter(), vec![(&b, &1), (&c, &3)]);
    assert_eq!(m.get_index(1), Some((&c, &3)));
    assert_eq!(m.get_index_of("c"), Some(1));
    assert_eq!(m.remove("a"), None);
}

#[test]
fn replacing_keeps_the_place_and_returns_the_old_value() {
    let mut m = SmallMap::new();
    assert_eq!(m.insert("x".to_owned(), 1), None);
    assert_eq!(m.insert("y".to_owned(), 2), None);
    assert_eq!(m.insert("x".to_owned(), 3), Some(1));
    assert_eq!(m.keys(), vec![&"x".to_owned(), &"y".to_owned()]);
    assert_eq!(m.values(), vec![&3, &2]);
    assert_eq!(m.len(), 2);
}

#[test]
fn index_survives_the_promotion() {
    let mut m = SmallMap::new();
    for n in 0..40 {
        assert_eq!(m.insert(key(n), n), None);
        for i in 0..=n {
            assert_eq!(m.get_index(i as usize), Some((&key(i), &i)));
            assert_eq!(m.get_index_of(&key(i)), Some(i as usize));
        }
        assert_eq!(m.get_index(n as usize + 1), None);
    }
    for n in 0..40 {
        assert_eq!(m.insert(key(n), n + 100), Some(n));
    }
    assert_eq!(m.remove(&key(5)), Some(105));
    assert_eq!(m.get_index(5), Some((&key(6), &106)));
    assert_eq!(m.len(), 39);
    assert!(!m.contains_key(&key(5)));
    assert!(m.contains_key(&key(39)));
}

#[test]
fn reserve_keeps_the_entries() {
    let mut m = SmallMap::new();
    m.reserve(0);
    assert!(m.is_empty());
    m.reserve(3);
    m.insert("a".to_owned(), 1);
    m.reserve(20);
    m.insert("b".to_owned(), 2);
    m.reserve(5);
    assert_eq!(m.into_iter(), vec![("a".to_owned(), 1), ("b".to_owned(), 2)]);
}

#[test]
fn hash_and_equality_ignore_the_order() {
    let mut m1 = SmallMap::new();
    let mut m2 = SmallMap::new();
    for n in 0..20 {
        m1.insert(key(n), key(n * 7));
        m2.insert(key(19 - n), key((19 - n) * 7));
    }
    assert_eq!(m1, m2);
    assert_eq!(m1.hash_value(), m2.hash_value());
    m2.insert(key(3), key(0));
    assert_ne!(m1, m2);
    assert_ne!(m1.hash_value(), m2.hash_value());
}

fn map_of(entries: &[(&str, i32)]) -> SmallMap<i32> {
    let mut m = SmallMap::new();
    for (k, v) in entries {
        m.insert((*k).to_owned(), *v);
    }
    m
}

#[test]
fn maps_are_ordered_by_their_entries_in_insertion_order() {
    let ab = map_of(&[("a", 1), ("b", 2)]);
    let ab3 = map_of(&[("a", 1), ("b", 3)]);
    let ba = map_of(&[("b", 2), ("a", 1)]);
    let a = map_of(&[("a", 1)]);
    assert_eq!(ab.partial_cmp(&ab3), Some(Ordering::Less));
    assert_eq!(ab3.partial_cmp(&ab), Some(Ordering::Greater));
    assert_eq!(ab.partial_cmp(&ab), Some(Ordering::Equal));
    assert_eq!(a.partial_cmp(&ab), Some(Ordering::Less));
    assert_eq!(ab.partial_cmp(&a), Some(Ordering::Greater));
    // equal as maps, yet not in this order
    assert_eq!(ab, ba);
    assert_eq!(ab.partial_cmp(&ba), Some(Ordering::Less));
    assert!(ab < ba);
    // names go by code points, the shorter first
    let upper = map_of(&[("Z", 9)]);
    let longer = map_of(&[("aa", 0)]);
    assert_eq!(upper.partial_cmp(&a), Some(Ordering::Less));
    assert_eq!(a.partial_cmp(&longer), Some(Ordering::Less));
    assert_eq!(SmallMap::<i32>::new().partial_cmp(&SmallMap::new()), Some(Ordering::Equal));
}

#[test]
fn values_change_in_place_through_the_mutable_views() {
    let mut m = map_of(&[("a", 1), ("b", 2), ("c", 3)]);
    for v in m.values_mut().iter_mut() {
        *v *= 10;
    }
    assert_eq!(m.get("b"), Some(&20));
    {
        let (keys, values) = m.iter_mut();
        assert_eq!(keys, vec!["a", "b", "c"]);
        for (k, v) in keys.iter().zip(values.iter_mut()) {
            if k.as_str() == "c" {
                *v += 1;
            }
        }
    }
    assert_eq!(m.get("c"), Some(&31));
    assert_eq!(m.keys(), vec!["a", "b", "c"]);
    assert_eq!(m.len(), 3);

    let mut big = SmallMap::new();
    for n in 0..30 {
        big.insert(key(n), n);
    }
    big.values_mut()[29] = -1;
    assert_eq!(big.get("29"), Some(&-1));
    assert_eq!(big.get_index_of("29"), Some(29));
    assert!(SmallMap::<i32>::new().values_mut().is_empty());
}

#[test]
fn map_hash_is_the_sum_of_the_hashes_of_its_pairs() {
    let mut m = SmallMap::new();
    let mut expected: u64 = 0;
    for n in 0..15 {
        let (k, v) = (key(n), key(100 - n));
        let mut hasher = DefaultHasher::new();
        (&k, &v).hash(&mut hasher);
        expected = expected.wrapping_add(hasher.finish());
        m.insert(k, v);
    }
    assert_eq!(m.hash_value(), expected);
    let mut into = DefaultHasher::new();
    m.hash(&mut into);
    let mut direct = DefaultHasher::new();
    direct.write_u64(expected);
    assert_eq!(into.finish(), direct.finish());
    assert_eq!(SmallMap::<String>::new().hash_value(), 0);
}

#[test]
fn hashed_keys_are_found_by_hash_and_text() {
    let mut m = SmallMap::new();
    m.insert_hashed(Hashed::new_unchecked(7, "a".to_owned()), 1);
    assert_eq!(m.get_hashed(BorrowHashed::new_unchecked(7, "a")), Some(&1));
    assert_eq!(m.get_hashed(BorrowHashed::new_unchecked(8, "a")), None);
    assert_eq!(m.get_hashed(BorrowHashed::new_unchecked(7, "b")), None);
    assert!(m.contains_key_hashed(BorrowHashed::new_unchecked(7, "a")));
    assert_eq!(m.get_index_of_hashed(BorrowHashed::new_unchecked(7, "a")), Some(0));
    let h = Hashed::new("a".to_owned());
    assert_eq!(h.hash(), BorrowHashed::new("a").hash());
    assert_eq!(m.remove_hashed(BorrowHashed::new_unchecked(7, "a")), Some(1));
    assert!(m.is_empty());
    m.insert("k".to_owned(), 5);
    m.clear();
    assert_eq!(m.len(), 0);
    let hashed = {
        let mut m = SmallMap::new();
        m.insert("p".to_owned(), 1);
        m.insert("q".to_owned(), 2);
        m.into_iter_hashed()
    };
    assert_eq!(hashed[1].0.key(), "q");
    assert_eq!(hashed[1].0.hash(), Hashed::new("q".to_owned()).hash());
}

#[test]
fn values_change_in_place() {
    let mut m = SmallMap::from_entries(vec![("a".to_owned(), 1), ("b".to_owned(), 2), ("a".to_owned(), 3)]);
    assert_eq!(m.iter(), vec![(&"a".to_owned(), &3), (&"b".to_owned(), &2)]);
    *m.get_mut("b").unwrap() += 10;
    assert_eq!(m.get("b"), Some(&12));
    assert!(m.get_mut("c").is_none());
    if let Some(v) = m.get_mut_hashed(BorrowHashed::new("a")) {
        *v = 0;
    }
    assert_eq!(m.values(), vec![&0, &12]);
    let big = SmallMap::from_entries((0..30).map(|n| (key(n), n)).collect());
    assert_eq!(big.len(), 30);
    assert_eq!(big.get_index(29), Some((&key(29), &29)));
    let hashed = SmallMap::from_hashed_entries(vec![(Hashed::new_unchecked(1, "x".to_owned()), 'x')]);
    assert_eq!(hashed.get_hashed(BorrowHashed::new_unchecked(1, "x")), Some(&'x'));
}

#[test]
fn hashes_add_up_modulo_two_to_the_sixty_four() {
    use_combine();
}

fn use_combine() {
    let sum = starlark::collections::compare::combine_hashes(&vec![u64::MAX, 2, 5]);
    assert_eq!(sum, 6);
    assert_eq!(starlark::collections::compare::combine_hashes(&vec![]), 0);
    assert_eq!(
        starlark::collections::compare::combine_hashes(&vec![7, 9]),
        starlark::collections::compare::combine_hashes(&vec![9, 7])
    );
}
