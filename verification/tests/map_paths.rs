use cfgmap::Condition::{IsExactlyInt, IsMap};
use cfgmap::{CfgMap, CfgValue, Checkable};

fn integer(x: isize) -> CfgValue {
    CfgValue::Int(x)
}

#[test]
fn new_map_is_empty() {
    let map = CfgMap::new();
    assert!(map.get("anything").is_none());
    assert!(map.get("").is_none());
    assert!(!map.contains_key("a/b"));
}

#[test]
fn add_at_the_root_always_works() {
    let mut map = CfgMap::new();
    assert_eq!(map.add("k1", integer(5)), Ok(None));
    assert_eq!(map.get("k1"), Some(&integer(5)));
}

#[test]
fn add_below_a_value_that_is_no_map_fails() {
    let mut map = CfgMap::new();
    assert!(map.add("k1", integer(5)).is_ok());
    assert!(map.add("k1/k2", integer(10)).is_err());
    assert_eq!(map.get("k1"), Some(&integer(5)));
    assert!(map.get("k1/k2").is_none());
}

#[test]
fn add_returns_the_value_it_replaces() {
    let mut map = CfgMap::new();
    assert!(map.add("k1", integer(5)).is_ok());
    let replaced = map.add("k1", CfgValue::Float(8.0f64.to_bits()));
    assert_eq!(replaced, Ok(Some(integer(5))));
    assert_eq!(map.get("k1"), Some(&CfgValue::Float(8.0f64.to_bits())));
}

#[test]
fn add_below_a_missing_parent_fails_and_creates_nothing() {
    let mut map = CfgMap::new();
    let before = map.clone();
    assert_eq!(map.add("a/b", integer(1)), Err(()));
    assert_eq!(map.add("a/b/c", integer(1)), Err(()));
    assert!(map.get("a").is_none());
    assert!(map == before);
}

#[test]
fn add_into_nested_maps() {
    let mut map = CfgMap::new();
    assert_eq!(map.add("a", CfgValue::Submap(CfgMap::new())), Ok(None));
    assert_eq!(map.add("a/b", CfgValue::Submap(CfgMap::new())), Ok(None));
    assert_eq!(map.add("a/b/c", integer(7)), Ok(None));
    assert_eq!(map.get("a/b/c"), Some(&integer(7)));
    assert_eq!(map.add("a/b/c", integer(8)), Ok(Some(integer(7))));
    assert_eq!(map.get("a/b/c"), Some(&integer(8)));
    assert_eq!(map.add("a/b/c/d", integer(9)), Err(()));
    assert!(map.get("a/x/c").is_none());
    assert!(map.get("a/b/x").is_none());
}

#[test]
fn get_follows_a_path() {
    let mut cmap = CfgMap::new();
    let mut submap = CfgMap::new();

    assert!(submap.add("key", integer(5)).is_ok());
    assert!(cmap.add("sub", CfgValue::Submap(submap)).is_ok());

    assert!(cmap.get("sub").check_that(IsMap));
    assert!(cmap.get("sub/key").check_that(IsExactlyInt(5)));
}

#[test]
fn get_mut_follows_a_path() {
    let mut cmap = CfgMap::new();
    let submap = CfgMap::new();

    assert!(cmap.add("sub", CfgValue::Submap(submap)).is_ok());

    let submap = cmap.get_mut("sub");
    assert!(submap.check_that(IsMap));

    assert!(submap.unwrap().as_map_mut().unwrap().add("key", integer(5)).is_ok());
    assert!(cmap.get_mut("sub/key").check_that(IsExactlyInt(5)));
}

#[test]
fn get_mut_changes_the_value_in_place() {
    let mut map = CfgMap::new();
    let mut inner = CfgMap::new();
    assert!(inner.add("n", integer(1)).is_ok());
    assert!(inner.add("m", integer(2)).is_ok());
    assert!(map.add("inner", CfgValue::Submap(inner)).is_ok());

    *map.get_mut("inner/n").unwrap() = integer(100);
    *map.get_mut("inner/m").unwrap().as_int_mut().unwrap() += 1;

    assert_eq!(map.get("inner/n"), Some(&integer(100)));
    assert_eq!(map.get("inner/m"), Some(&integer(3)));
    assert!(map.get_mut("inner/x").is_none());
    assert!(map.get_mut("n").is_none());
    assert!(map.get_mut("inner/n/deeper").is_none());
}

#[test]
fn contains_key_follows_a_path() {
    let mut cmap = CfgMap::new();
    let mut submap = CfgMap::new();

    assert!(cmap.add("num", integer(10)).is_ok());
    assert!(submap.add("num", integer(20)).is_ok());
    assert!(cmap.add("sub", CfgValue::Submap(submap)).is_ok());

    assert!(cmap.contains_key("num"));
    assert!(cmap.contains_key("sub/num"));
    assert!(!cmap.contains_key("sub/other"));
    assert!(!cmap.contains_key("num/num"));
    assert!(!cmap.contains_key("other"));
}

#[test]
fn insert_then_get_yields_the_value() {
    let mut map = CfgMap::new();
    assert!(map.add("a", CfgValue::Submap(CfgMap::new())).is_ok());
    assert!(map.add("a/b", CfgValue::Submap(CfgMap::new())).is_ok());
    let values = vec![
        integer(-3),
        CfgValue::Str("text".to_string()),
        CfgValue::Bool(true),
        CfgValue::List(vec![integer(1), CfgValue::Bool(false)]),
        CfgValue::Float(2.5f64.to_bits()),
    ];
    for path in ["top", "a/leaf", "a/b/leaf"] {
        for value in values.iter() {
            assert!(map.add(path, value.clone()).is_ok());
            assert_eq!(map.get(path), Some(value));
        }
    }
}

#[test]
fn get_is_absent_below_a_missing_or_plain_segment() {
    let mut map = CfgMap::new();
    assert!(map.add("plain", integer(1)).is_ok());
    assert!(map.add("nested", CfgValue::Submap(CfgMap::new())).is_ok());
    assert!(map.add("nested/plain", integer(2)).is_ok());
    for path in [
        "missing",
        "missing/x",
        "missing/x/y",
        "plain/x",
        "plain/x/y",
        "nested/missing",
        "nested/missing/x",
        "nested/plain/x",
    ] {
        assert!(map.get(path).is_none(), "{}", path);
        assert!(!map.contains_key(path), "{}", path);
    }
}

#[test]
fn an_empty_segment_is_the_empty_key() {
    let mut map = CfgMap::new();
    assert_eq!(map.add("", integer(1)), Ok(None));
    assert_eq!(map.get(""), Some(&integer(1)));
    // The front part of "/x" is the empty key, which holds no map here.
    assert_eq!(map.add("/x", integer(2)), Err(()));

    assert_eq!(map.add("", CfgValue::Submap(CfgMap::new())), Ok(Some(integer(1))));
    assert_eq!(map.add("/x", integer(2)), Ok(None));
    assert_eq!(map.get("/x"), Some(&integer(2)));

    assert!(map.add("a", CfgValue::Submap(CfgMap::new())).is_ok());
    assert_eq!(map.add("a/", integer(3)), Ok(None));
    assert_eq!(map.get("a/"), Some(&integer(3)));
    // "a//b" asks for the key "b" below the empty key of "a", which is no map.
    assert_eq!(map.add("a//b", integer(4)), Err(()));
    assert!(map.get("a//b").is_none());
    assert_eq!(map.add("a/", CfgValue::Submap(CfgMap::new())), Ok(Some(integer(3))));
    assert_eq!(map.add("a//b", integer(4)), Ok(None));
    assert_eq!(map.get("a//b"), Some(&integer(4)));
    assert!(map.get("a/b").is_none());
}

#[test]
fn keys_may_hold_any_character_but_the_separator() {
    let mut map = CfgMap::new();
    assert!(map.add("grüße", CfgValue::Submap(CfgMap::new())).is_ok());
    assert_eq!(map.add("grüße/日本語", integer(1)), Ok(None));
    assert_eq!(map.get("grüße/日本語"), Some(&integer(1)));
    assert!(map.get("grüße/日本").is_none());
    assert!(map.get("gruße/日本語").is_none());
}

#[test]
fn maps_compare_equal_whatever_the_order_of_insertion() {
    let mut first = CfgMap::new();
    assert!(first.add("a", integer(1)).is_ok());
    assert!(first.add("b", integer(2)).is_ok());
    let mut second = CfgMap::new();
    assert!(second.add("b", integer(2)).is_ok());
    assert!(second.add("a", integer(1)).is_ok());
    assert!(first == second);

    assert!(second.add("c", integer(3)).is_ok());
    assert!(first != second);
    assert!(second != first);
    assert!(first.add("c", integer(4)).is_ok());
    assert!(first != second);
    assert!(CfgMap::new() != CfgMap::with_default("d".to_string()));
}

#[test]
fn a_clone_is_equal_and_independent() {
    let mut map = CfgMap::with_default("d".to_string());
    assert!(map.add("d", CfgValue::Submap(CfgMap::new())).is_ok());
    assert!(map.add("d/list", CfgValue::List(vec![integer(1), integer(2)])).is_ok());
    let copy = map.clone();
    assert!(copy == map);
    assert!(map.add("d/list", integer(0)).is_ok());
    assert!(copy != map);
    assert_eq!(copy.get("d/list"), Some(&CfgValue::List(vec![integer(1), integer(2)])));
}
