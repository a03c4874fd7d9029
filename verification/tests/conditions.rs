use cfgmap::Condition::{
    And, IsBool, IsExactlyBool, IsExactlyFloat, IsExactlyInt, IsExactlyStr, IsFloat, IsInt,
    IsList, IsMap, IsStr, Negation, Or,
};
use cfgmap::{CfgMap, CfgValue, Checkable, Condition};

fn float(x: f64) -> CfgValue {
    CfgValue::Float(x.to_bits())
}

fn one_of_each() -> Vec<CfgValue> {
    vec![
        CfgValue::Int(5),
        float(5.0),
        CfgValue::Str("five".to_string()),
        CfgValue::Bool(true),
        CfgValue::Submap(CfgMap::new()),
        CfgValue::List(vec![CfgValue::Int(5)]),
    ]
}

#[test]
fn kind_conditions_hold_of_their_kind_only() {
    let conditions = [IsInt, IsFloat, IsStr, IsBool, IsMap, IsList];
    for (i, value) in one_of_each().iter().enumerate() {
        for (j, condition) in conditions.iter().enumerate() {
            assert_eq!(value.check_that(condition.clone()), i == j, "{} {}", i, j);
        }
    }
}

#[test]
fn not_numeric_holds_of_what_is_neither_int_nor_float() {
    for value in one_of_each() {
        let numeric = value.is_int() || value.is_float();
        assert_eq!(value.check_that(!(IsInt | IsFloat)), !numeric);
        assert_eq!(value.check_that(IsInt | IsFloat), numeric);
    }
}

#[test]
fn exactly_int_matches_that_int_only() {
    assert!(CfgValue::Int(5).check_that(IsExactlyInt(5)));
    assert!(!CfgValue::Int(6).check_that(IsExactlyInt(5)));
    assert!(!CfgValue::Int(-5).check_that(IsExactlyInt(5)));
    assert!(!float(5.0).check_that(IsExactlyInt(5)));
    assert!(!CfgValue::Str("5".to_string()).check_that(IsExactlyInt(5)));
}

#[test]
fn exactly_float_compares_as_numbers() {
    assert!(float(2.5).check_that(IsExactlyFloat(2.5f64.to_bits())));
    assert!(!float(2.5).check_that(IsExactlyFloat(2.25f64.to_bits())));
    assert!(float(0.0).check_that(IsExactlyFloat((-0.0f64).to_bits())));
    assert!(!float(f64::NAN).check_that(IsExactlyFloat(f64::NAN.to_bits())));
    assert!(!CfgValue::Int(2).check_that(IsExactlyFloat(2.0f64.to_bits())));
}

#[test]
fn exactly_str_and_bool_match_their_literal_only() {
    assert!(CfgValue::Str("a".to_string()).check_that(IsExactlyStr("a".to_string())));
    assert!(!CfgValue::Str("a".to_string()).check_that(IsExactlyStr("b".to_string())));
    assert!(!CfgValue::Str("".to_string()).check_that(IsExactlyStr("b".to_string())));
    assert!(!CfgValue::Bool(true).check_that(IsExactlyStr("true".to_string())));
    assert!(CfgValue::Bool(true).check_that(IsExactlyBool(true)));
    assert!(!CfgValue::Bool(true).check_that(IsExactlyBool(false)));
    assert!(!CfgValue::Int(1).check_that(IsExactlyBool(true)));
}

#[test]
fn combinators_follow_their_truth_tables() {
    let value = CfgValue::Int(5);
    let yes = || IsInt;
    let no = || IsStr;
    assert!(value.check_that(yes() & yes()));
    assert!(!value.check_that(yes() & no()));
    assert!(!value.check_that(no() & yes()));
    assert!(!value.check_that(no() & no()));
    assert!(value.check_that(yes() | yes()));
    assert!(value.check_that(yes() | no()));
    assert!(value.check_that(no() | yes()));
    assert!(!value.check_that(no() | no()));
    assert!(!value.check_that(!yes()));
    assert!(value.check_that(!no()));
    assert!(value.check_that(!!yes()));
}

#[test]
fn operators_build_the_named_combinators() {
    let built = !(IsInt | IsFloat) & IsExactlyBool(true);
    match built {
        And(left, right) => {
            match *left {
                Negation(inner) => match *inner {
                    Or(a, b) => {
                        assert!(matches!(*a, IsInt));
                        assert!(matches!(*b, IsFloat));
                    }
                    other => panic!("{:?}", other),
                },
                other => panic!("{:?}", other),
            }
            assert!(matches!(*right, IsExactlyBool(true)));
        }
        other => panic!("{:?}", other),
    }
}

#[test]
fn an_absent_value_fails_every_condition() {
    let map = CfgMap::new();
    let mut conditions: Vec<Condition> = vec![
        IsInt,
        IsFloat,
        IsStr,
        IsBool,
        IsMap,
        IsList,
        IsExactlyInt(0),
        IsExactlyBool(false),
    ];
    let negated: Vec<Condition> = conditions.iter().map(|c| !c.clone()).collect();
    conditions.extend(negated);
    conditions.push(IsInt | !IsInt);
    conditions.push(!(IsInt | !IsInt));
    conditions.push(!(IsInt & !IsInt));
    for condition in conditions {
        assert!(!map.get("absent").check_that(condition.clone()), "{:?}", condition);
        let none: Option<&mut CfgValue> = None;
        assert!(!none.check_that(condition.clone()), "{:?}", condition);
    }
}

#[test]
fn a_found_value_is_checked_as_the_value_itself() {
    let mut map = CfgMap::new();
    assert!(map.add("n", CfgValue::Int(5)).is_ok());
    assert!(map.get("n").check_that(IsExactlyInt(5)));
    assert!(map.get("n").check_that(!IsStr));
    assert!(!map.get("n").check_that(!IsInt));
    assert!(map.get_mut("n").check_that(IsInt & !IsExactlyInt(6)));
    assert!(!map.get_mut("n").check_that(IsFloat));
}

#[test]
fn a_condition_can_be_checked_against_many_values() {
    let condition = (IsInt & !IsExactlyInt(0)) | IsExactlyStr("zero".to_string());
    assert!(CfgValue::Int(1).check_that(condition.clone()));
    assert!(!CfgValue::Int(0).check_that(condition.clone()));
    assert!(CfgValue::Str("zero".to_string()).check_that(condition.clone()));
    assert!(!CfgValue::Str("one".to_string()).check_that(condition.clone()));
    assert!(condition.execute(&CfgValue::Int(7)));
    assert!(!condition.execute(&CfgValue::Bool(true)));
}
