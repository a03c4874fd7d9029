use cfgmap::Condition::{IsExactlyInt, IsExactlyStr};
use cfgmap::{CfgMap, CfgValue, Checkable};

fn integer(x: isize) -> CfgValue {
    CfgValue::Int(x)
}

fn text(s: &str) -> CfgValue {
    CfgValue::Str(s.to_string())
}

#[test]
fn get_option_reads_the_category_then_the_root() {
    let mut cmap = CfgMap::new();
    let mut submap = CfgMap::new();

    assert!(submap.add("OP1", integer(5)).is_ok());
    assert!(cmap.add("OP1", integer(8)).is_ok());

    assert!(cmap.add("sub", CfgValue::Submap(submap)).is_ok());

    assert!(cmap.get_option("sub", "OP1").check_that(IsExactlyInt(5)));
    assert!(cmap.get_option("foo", "OP1").check_that(IsExactlyInt(8)));
    assert!(cmap.get_option("sub", "OP2").is_none());
}

#[test]
fn update_option_replaces_where_the_option_is_found() {
    let mut cmap = CfgMap::new();
    let mut submap = CfgMap::new();

    assert!(submap.add("OP1", integer(5)).is_ok());
    assert!(cmap.add("OP1", integer(8)).is_ok());

    assert!(cmap.add("sub", CfgValue::Submap(submap)).is_ok());

    let ol1 = cmap.update_option("sub", "OP1", integer(10));
    let ol2 = cmap.update_option("foo", "OP1", integer(16));
    let ol3 = cmap.update_option("sub", "OP2", integer(99));

    assert!(cmap.get_option("sub", "OP1").check_that(IsExactlyInt(10)));
    assert!(cmap.get_option("foo", "OP1").check_that(IsExactlyInt(16)));
    assert!(cmap.get_option("sub", "OP2").is_none());

    assert_eq!(ol1, Some(integer(5)));
    assert_eq!(ol2, Some(integer(8)));
    assert_eq!(ol3, None);
}

#[test]
fn with_default_reads_options_below_the_default_path() {
    let mut map = CfgMap::with_default("default".to_string());
    assert!(map.add("default", CfgValue::Submap(CfgMap::new())).is_ok());
    assert!(map.add("default/ip", text("x")).is_ok());
    assert!(map.add("http", CfgValue::Submap(CfgMap::new())).is_ok());
    // An option at the root is no default of this map.
    assert!(map.add("limit", integer(80)).is_ok());

    assert_eq!(map.get_option("http", "ip"), Some(&text("x")));
    assert_eq!(map.get_option("nowhere", "ip"), Some(&text("x")));
    assert!(map.get_option("http", "limit").is_none());
}

#[test]
fn category_overrides_default() {
    let mut map = CfgMap::with_default("default".to_string());
    assert!(map.add("default", CfgValue::Submap(CfgMap::new())).is_ok());
    assert!(map.add("default/ip", text("x")).is_ok());
    assert!(map.add("http", CfgValue::Submap(CfgMap::new())).is_ok());

    assert!(map.get_option("http", "ip").check_that(IsExactlyStr("x".to_string())));

    assert!(map.add("http/ip", text("y")).is_ok());
    assert!(map.get_option("http", "ip").check_that(IsExactlyStr("y".to_string())));
    assert_eq!(map.get("default/ip"), Some(&text("x")));
}

#[test]
fn update_option_replaces_the_default_value() {
    let mut map = CfgMap::with_default("default".to_string());
    assert!(map.add("default", CfgValue::Submap(CfgMap::new())).is_ok());
    assert!(map.add("default/ip", text("x")).is_ok());
    assert!(map.add("http", CfgValue::Submap(CfgMap::new())).is_ok());

    let old = map.update_option("http", "ip", text("z"));
    assert_eq!(old, Some(text("x")));
    assert_eq!(map.get("default/ip"), Some(&text("z")));
    assert!(map.get("http/ip").is_none());

    let unchanged = map.clone();
    let absent = map.update_option("mail", "limit", integer(21));
    assert_eq!(absent, None);
    assert!(map == unchanged);
}

#[test]
fn update_option_prefers_the_category() {
    let mut map = CfgMap::with_default("default".to_string());
    assert!(map.add("default", CfgValue::Submap(CfgMap::new())).is_ok());
    assert!(map.add("default/ip", text("x")).is_ok());
    assert!(map.add("http", CfgValue::Submap(CfgMap::new())).is_ok());
    assert!(map.add("http/ip", text("y")).is_ok());

    assert_eq!(map.update_option("http", "ip", text("w")), Some(text("y")));
    assert_eq!(map.get("http/ip"), Some(&text("w")));
    assert_eq!(map.get("default/ip"), Some(&text("x")));
}

#[test]
fn options_may_be_paths() {
    let mut map = CfgMap::with_default("defaults/all".to_string());
    assert!(map.add("defaults", CfgValue::Submap(CfgMap::new())).is_ok());
    assert!(map.add("defaults/all", CfgValue::Submap(CfgMap::new())).is_ok());
    assert!(map.add("defaults/all/net", CfgValue::Submap(CfgMap::new())).is_ok());
    assert!(map.add("defaults/all/net/limit", integer(1)).is_ok());

    assert_eq!(map.get_option("http", "net/limit"), Some(&integer(1)));
    assert_eq!(map.update_option("http", "net/limit", integer(2)), Some(integer(1)));
    assert_eq!(map.get("defaults/all/net/limit"), Some(&integer(2)));
}
