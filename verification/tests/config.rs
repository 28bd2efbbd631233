//! The small parsers and data types: lenient booleans, path
//! resolution, the key-value-pair format, `train.dat` and
//! `extensions.cfg`, vectors and mip chains.

use bve::datatypes::UVec2;
use bve::extensions_cfg::parse_extensions_cfg;
use bve::filesystem::{resolve_path, resolve_path_bases};
use bve::kvp::{animated_like, parse_kvp_file, ValueData};
use bve::mip::enumerate_mip_levels;
use bve::numeric_bool::{parse_loose_numeric_bool, LooseNumericBool};
use bve::train_dat::{parse_train_dat, Version};

#[test]
fn loose_bool() {
    assert_eq!(parse_loose_numeric_bool("0"), Some(LooseNumericBool(false)));
    assert_eq!(parse_loose_numeric_bool("0xxxx0"), Some(LooseNumericBool(false)));
    assert_eq!(parse_loose_numeric_bool("0.1"), Some(LooseNumericBool(false)));
    assert_eq!(parse_loose_numeric_bool("1"), Some(LooseNumericBool(true)));
    assert_eq!(parse_loose_numeric_bool("1xxxx0"), Some(LooseNumericBool(true)));
    assert_eq!(parse_loose_numeric_bool("1.1"), Some(LooseNumericBool(true)));
    assert_eq!(parse_loose_numeric_bool(""), None);
    assert_eq!(parse_loose_numeric_bool("True"), Some(LooseNumericBool(true)));
    assert_eq!(parse_loose_numeric_bool("False"), Some(LooseNumericBool(false)));
    assert_eq!(parse_loose_numeric_bool("t"), Some(LooseNumericBool(true)));
    assert_eq!(parse_loose_numeric_bool("f"), Some(LooseNumericBool(false)));
}

fn snapshot() -> Vec<(String, Vec<String>)> {
    vec![
        ("src".to_string(), vec!["filesystem".to_string(), "lib.rs".to_string()]),
        ("src/filesystem".to_string(), vec!["resolve.rs".to_string()]),
        ("src/filesystem/resolve.rs".to_string(), vec![]),
        ("src/lib.rs".to_string(), vec![]),
    ]
}

#[test]
fn filesystem_resolve_test() {
    let fs = snapshot();
    let res = resolve_path("src", "fIlEsYsTeM/rEsOlVe.rs", &fs);
    assert_eq!(res, Some("src/filesystem/resolve.rs".to_string()));
}

#[test]
fn filesystem_resolve_exact_and_missing() {
    let fs = snapshot();
    assert_eq!(
        resolve_path("src", "filesystem/resolve.rs", &fs),
        Some("src/filesystem/resolve.rs".to_string())
    );
    assert_eq!(resolve_path("src", "nothing/here.rs", &fs), None);
    let bases = vec!["elsewhere".to_string(), "src".to_string()];
    assert_eq!(
        resolve_path_bases(&bases, "LIB.RS", &fs),
        Some("src/lib.rs".to_string())
    );
}

#[test]
fn kvp_basic_file() {
    let parsed = parse_kvp_file("value1\nkey1 = some_value\n\n[section1]\nvalue\nkey = value\n",
        animated_like());
    assert_eq!(parsed.sections.len(), 2);
    let unnamed = &parsed.sections[0];
    assert_eq!(unnamed.name, None);
    assert_eq!(unnamed.fields.len(), 2);
    match &unnamed.fields[0].data {
        ValueData::Value { value } => assert_eq!(value, "value1"),
        _ => unreachable!(),
    }
    match &unnamed.fields[1].data {
        ValueData::KeyValuePair { key, value } => {
            assert_eq!(key, "key1");
            assert_eq!(value, "some_value");
        },
        _ => unreachable!(),
    }
    let named = &parsed.sections[1];
    assert_eq!(named.name.as_deref(), Some("section1"));
    assert_eq!(named.fields.len(), 2);
}

#[test]
fn train_dat_version() {
    let (parsed, warnings) = parse_train_dat("BVE2000000\n");
    assert!(matches!(parsed.version.version, Version::BVE2));
    assert!(warnings.is_empty(), "{:?}", warnings);

    let (parsed, warnings) = parse_train_dat("OPENBVE1.6 ; a comment\n");
    match &parsed.version.version {
        Version::OpenBVE { version } => assert_eq!(version, "1.6"),
        v => panic!("wrong version: {:?}", v),
    }
    assert!(warnings.is_empty(), "{:?}", warnings);

    let (_, warnings) = parse_train_dat("BVE1220000\n[performance]\n");
    assert_eq!(warnings.len(), 1);
}

#[test]
fn extensions_cfg_sections_warn() {
    let (_, warnings) = parse_extensions_cfg("[car0]\nlength = 20\n[car1]\n");
    assert_eq!(warnings.len(), 2);
}

#[test]
fn uvec2_ops() {
    let v = UVec2::new(6, 9);
    assert_eq!(v.into_array(), [6, 9]);
    assert_eq!(UVec2::from_array([6, 9]), v);
    assert_eq!(v.map(|c| c / 3), UVec2::new(2, 3));
}

#[test]
fn mip_chain() {
    let mut it = enumerate_mip_levels(UVec2::new(8, 4));
    assert_eq!(it.next(), Some((1, UVec2::new(4, 2))));
    assert_eq!(it.next(), Some((2, UVec2::new(2, 1))));
    assert_eq!(it.next(), None);
}
