//! Include parsing and recursive include resolution against a file
//! table.

use bve::route::inclusion::{parse_include, preprocess_route, run_includes, Include};
use rand::SeedableRng;

fn new_rng() -> rand::rngs::StdRng {
    rand::rngs::StdRng::seed_from_u64(42)
}

fn directive_free(s: &str) -> bool {
    let l = s.to_lowercase();
    !(l.contains("include") || l.contains("if") || l.contains("else") || l.contains("endif")
        || l.contains("sub") || l.contains("rnd") || l.contains("chr"))
}

fn table(entries: &[(&str, &str)]) -> Vec<(String, String)> {
    entries.iter().map(|(p, c)| (p.to_string(), c.to_string())).collect()
}

fn assert_alts(got: &[Include], expected: &[(&str, i64, i64)]) {
    assert_eq!(got.len(), expected.len());
    for (g, e) in got.iter().zip(expected.iter()) {
        assert_eq!(g.file, e.0);
        assert_eq!(g.offset, e.1);
        assert_eq!(g.weight, e.2);
    }
}

#[test]
fn include_parse() {
    assert_alts(
        &parse_include(r#"$include(Thing\Other/Thing with Space)"#).expect("parse failed"),
        &[(r#"Thing\Other/Thing with Space"#, 0, 0)],
    );
    assert_alts(
        &parse_include(r#"$include(Thing\Other/Thing with Space:1000)"#).expect("parse failed"),
        &[(r#"Thing\Other/Thing with Space"#, 1000, 0)],
    );
    assert_alts(
        &parse_include(r#"$include(Thing\Other/Thing with Space:-1000)"#).expect("parse failed"),
        &[(r#"Thing\Other/Thing with Space"#, -1000, 0)],
    );
    assert_alts(
        &parse_include(r#"$include(Thing\Other/Thing with Space   :  1000)"#)
            .expect("parse failed"),
        &[(r#"Thing\Other/Thing with Space"#, 1000, 0)],
    );
    assert_alts(
        &parse_include(r#"$include(Thing\Other/Thing with Space;12)"#).expect("parse failed"),
        &[(r#"Thing\Other/Thing with Space"#, 0, 12)],
    );
    assert_alts(
        &parse_include(r#"$include(Thing\Other/Thing with Space;12;OtherThing;76)"#)
            .expect("parse failed"),
        &[
            (r#"Thing\Other/Thing with Space"#, 0, 12),
            (r#"OtherThing"#, 0, 76),
        ],
    );
}

#[test]
fn include_parse_malformed() {
    assert!(parse_include("$include()").is_err());
    assert!(parse_include("no directive at all").is_err());
    assert!(parse_include("$include(a;b)").is_err());
}

#[test]
fn include_basic() {
    let files = table(&[("file1", "contents1")]);
    let mut errors = Vec::new();
    let mut rng = new_rng();

    let processed = run_includes("", "$include(file1)\n", &mut errors, &mut rng, &files);
    assert!(processed.contains("contents1"), "output missing contents: {}", processed);
    assert!(directive_free(&processed), "contains preprocessing directives: {}", processed);
    assert!(errors.is_empty(), "{:?}", errors);

    // With a trailing comma this time
    let processed = run_includes("", "$include(file1),\n", &mut errors, &mut rng, &files);
    assert!(processed.contains("contents1"), "output missing contents: {}", processed);
    assert!(directive_free(&processed), "contains preprocessing directives: {}", processed);
    assert!(errors.is_empty(), "{:?}", errors);
}

#[test]
fn offset_include() {
    let files = table(&[("file1", "contents1")]);
    let mut errors = Vec::new();
    let mut rng = new_rng();

    let processed = run_includes("", "$include(file1:1000)\n", &mut errors, &mut rng, &files);
    assert!(processed.contains("contents1"), "output missing contents: {}", processed);
    assert!(processed.contains("%O1000%"), "output missing offset: {}", processed);
    assert!(processed.contains("%O-1000%"), "output missing reverse offset: {}", processed);
    assert!(directive_free(&processed), "contains preprocessing directives: {}", processed);
    assert!(errors.is_empty(), "{:?}", errors);
}

#[test]
fn rng_include() {
    let files = table(&[("file1", "contents1"), ("file2", "contents2")]);
    let mut errors = Vec::new();
    let mut rng = new_rng();

    let processed = run_includes(
        "",
        "$include(file1;1;file2;0)\n",
        &mut errors,
        &mut rng,
        &files,
    );
    assert!(processed.contains("contents1"), "output missing contents: {}", processed);
    assert!(directive_free(&processed), "contains preprocessing directives: {}", processed);
    assert!(errors.is_empty(), "{:?}", errors);

    let processed = run_includes(
        "",
        "$include(file1;0;file2;1)\n",
        &mut errors,
        &mut rng,
        &files,
    );
    assert!(processed.contains("contents2"), "output missing contents: {}", processed);
    assert!(directive_free(&processed), "contains preprocessing directives: {}", processed);
    assert!(errors.is_empty(), "{:?}", errors);
}

#[test]
fn rng_include_distribution() {
    // Weighted selection reproduces the configured distribution over
    // many seeded trials.
    let files = table(&[("file1", "a"), ("file2", "b")]);
    let mut first = 0usize;
    let trials = 1000u64;
    for seed in 0..trials {
        let mut errors = Vec::new();
        let mut rng = rand::rngs::StdRng::seed_from_u64(seed);
        let processed = run_includes(
            "",
            "$include(file1;1;file2;3)\n",
            &mut errors,
            &mut rng,
            &files,
        );
        assert!(errors.is_empty(), "{:?}", errors);
        if processed.contains('a') {
            first += 1;
        } else {
            assert!(processed.contains('b'));
        }
    }
    // The expected share of the first alternative is one quarter.
    assert!(first > 180 && first < 320, "distribution off: {} of {}", first, trials);
}

#[test]
fn single_target_ignores_weights() {
    // A single alternative is taken as it stands, even with a weight
    // that could never drive a draw.
    let files = table(&[("file1", "contents1")]);
    let mut errors = Vec::new();
    let mut rng = new_rng();
    let processed = run_includes("", "$include(file1;0)\n", &mut errors, &mut rng, &files);
    assert!(processed.contains("contents1"), "output missing contents: {}", processed);
    assert!(errors.is_empty(), "{:?}", errors);
}

#[test]
fn all_zero_weights_error() {
    let files = table(&[("file1", "a"), ("file2", "b")]);
    let mut errors = Vec::new();
    let mut rng = new_rng();
    let processed = run_includes(
        "",
        "$include(file1;0;file2;0)\n",
        &mut errors,
        &mut rng,
        &files,
    );
    assert!(!processed.contains('a') && !processed.contains('b'));
    assert_eq!(errors.len(), 1);
}

#[test]
fn missing_file_error() {
    let files = table(&[]);
    let mut errors = Vec::new();
    let mut rng = new_rng();
    let processed = run_includes("", "$include(nowhere)\n", &mut errors, &mut rng, &files);
    assert!(directive_free(&processed), "contains preprocessing directives: {}", processed);
    assert_eq!(errors.len(), 1);
}

#[test]
fn recursive_include() {
    let files = table(&[("file1", "$include(file2)\ncontents1"), ("file2", "contents2")]);
    let mut errors = Vec::new();
    let mut rng = new_rng();

    let processed = run_includes("", "$include(file1)\n", &mut errors, &mut rng, &files);
    assert!(processed.contains("contents1"), "output missing contents: {}", processed);
    assert!(processed.contains("contents2"), "output missing contents: {}", processed);
    // The inner file's contents stand before the rest of the outer one.
    let inner = processed.find("contents2").expect("inner contents");
    let outer = processed.find("contents1").expect("outer contents");
    assert!(inner < outer, "wrong splice order: {}", processed);
    assert!(directive_free(&processed), "contains preprocessing directives: {}", processed);
    assert!(errors.is_empty(), "{:?}", errors);
}

#[test]
fn include_sub_integration() {
    let files = table(&[("file1", "$sub(0) = contents1")]);
    let mut rng = new_rng();

    let (processed, errors) = preprocess_route(
        "",
        "$include(file1)\n$sub(0)\n",
        &mut rng,
        &files,
    );
    assert!(processed.contains("contents1"), "output missing contents: {}", processed);
    assert!(directive_free(&processed), "contains preprocessing directives: {}", processed);
    assert!(errors.is_empty(), "{:?}", errors);
}
