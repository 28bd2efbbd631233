//! The rewriting passes: character, random, substitution and
//! conditional evaluation.

use bve::route::passes::{run_chr, run_if, run_rnd, run_sub};
use bve::route::submap::SubMap;
use rand::SeedableRng;

fn new_rng() -> rand::rngs::StdRng {
    rand::rngs::StdRng::seed_from_u64(42)
}

fn directive_free(s: &str) -> bool {
    let l = s.to_lowercase();
    !(l.contains("include") || l.contains("if") || l.contains("else") || l.contains("endif")
        || l.contains("sub") || l.contains("rnd") || l.contains("chr"))
}

#[test]
fn chr() {
    let mut errors = Vec::new();
    assert_eq!(run_chr("$chr(10)", &mut errors), "%C10%");
    assert!(errors.is_empty(), "{:?}", errors);
    assert_eq!(run_chr("$chr(13)", &mut errors), "%C13%");
    assert!(errors.is_empty(), "{:?}", errors);
    assert_eq!(run_chr("$CHR ( 13 )", &mut errors), "%C13%");
    assert!(errors.is_empty(), "{:?}", errors);
}

#[test]
fn rnd() {
    let mut errors = Vec::new();
    assert_eq!(run_rnd("$rnd(1; 6)", &mut errors, &mut new_rng()), "4");
    assert!(errors.is_empty(), "{:?}", errors);
    assert_eq!(run_rnd("$RND ( 1 ; 6 )", &mut errors, &mut new_rng()), "4");
    assert!(errors.is_empty(), "{:?}", errors);
    assert_eq!(run_rnd("$rnd(1;1)", &mut errors, &mut new_rng()), "1");
    assert!(errors.is_empty(), "{:?}", errors);
}

#[test]
fn rnd_always_in_range() {
    for seed in 0..200u64 {
        let mut errors = Vec::new();
        let mut rng = rand::rngs::StdRng::seed_from_u64(seed);
        let out = run_rnd("$rnd(3;9)", &mut errors, &mut rng);
        let v: u64 = out.parse().expect("not a number");
        assert!((3..=9).contains(&v), "out of range: {}", v);
        assert!(errors.is_empty(), "{:?}", errors);
    }
}

#[test]
fn rnd_malformed() {
    let mut errors = Vec::new();
    assert_eq!(run_rnd("$rnd(9;3)", &mut errors, &mut new_rng()), "");
    assert_eq!(errors.len(), 1);
    let mut errors = Vec::new();
    assert_eq!(
        run_rnd("$rnd(99999999999999999999;3)", &mut errors, &mut new_rng()),
        ""
    );
    assert_eq!(errors.len(), 1);
}

#[test]
fn sub() {
    let mut errors = Vec::new();
    assert_eq!(
        run_sub("$sub(0) = hi\n$sub(0)", &mut errors, &mut new_rng(), &mut SubMap::new()),
        "\nhi"
    );
    assert!(errors.is_empty(), "{:?}", errors);
    assert_eq!(
        run_sub(
            "$sub ( 0 ) = hi\n$sub ( 0 )",
            &mut errors,
            &mut new_rng(),
            &mut SubMap::new()
        ),
        "\nhi"
    );
    assert!(errors.is_empty(), "{:?}", errors);
    assert_eq!(
        run_sub(
            "$sub(0) = hi\n$sub(0) = bye\n$sub(0)",
            &mut errors,
            &mut new_rng(),
            &mut SubMap::new()
        ),
        "\n\nbye"
    );
    assert!(errors.is_empty(), "{:?}", errors);
}

#[test]
fn sub_invalid_index() {
    let mut errors = Vec::new();
    assert_eq!(
        run_sub(
            "$sub(99999999999999999999999)",
            &mut errors,
            &mut new_rng(),
            &mut SubMap::new()
        ),
        ""
    );
    assert_eq!(errors.len(), 1);
}

#[test]
fn i_f() {
    let mut errors = Vec::new();
    assert_eq!(
        run_if(
            "$if(1)\ntrue\n$else()\nfalse\n$endif()",
            &mut errors,
            &mut new_rng(),
            &mut SubMap::new()
        ),
        "\ntrue\n"
    );
    assert!(errors.is_empty(), "{:?}", errors);
    assert_eq!(
        run_if(
            "$if(0)\ntrue\n$else()\nfalse\n$endif()",
            &mut errors,
            &mut new_rng(),
            &mut SubMap::new()
        ),
        "\nfalse\n"
    );
    assert!(errors.is_empty(), "{:?}", errors);
    assert_eq!(
        run_if(
            "$if($rnd(1;1))\ntrue\n$else()\nfalse\n$endif()",
            &mut errors,
            &mut new_rng(),
            &mut SubMap::new()
        ),
        "\ntrue\n"
    );
    assert!(errors.is_empty(), "{:?}", errors);
    assert_eq!(
        run_if(
            "$if($rnd(0;0))\ntrue\n$else()\nfalse\n$endif()",
            &mut errors,
            &mut new_rng(),
            &mut SubMap::new()
        ),
        "\nfalse\n"
    );
    assert!(errors.is_empty(), "{:?}", errors);
    assert_eq!(
        run_if("$if(1)\ntrue\n", &mut errors, &mut new_rng(), &mut SubMap::new()),
        "\ntrue\n"
    );
    assert!(errors.is_empty(), "{:?}", errors);
    assert_eq!(
        run_if("$if(0)\nfalse\n", &mut errors, &mut new_rng(), &mut SubMap::new()),
        ""
    );
    assert!(errors.is_empty(), "{:?}", errors);
    assert_eq!(
        run_if(
            "$if(1)\ntrue\n$else()\nfalse\n",
            &mut errors,
            &mut new_rng(),
            &mut SubMap::new()
        ),
        "\ntrue\n"
    );
    assert!(errors.is_empty(), "{:?}", errors);
    assert_eq!(
        run_if(
            "$if(0)\nfalse\n$else()\ntrue\n",
            &mut errors,
            &mut new_rng(),
            &mut SubMap::new()
        ),
        "\ntrue\n"
    );
    assert!(errors.is_empty(), "{:?}", errors);
}

#[test]
fn nested_if() {
    let mut errors = Vec::new();
    assert_eq!(
        run_if(
            "$if(1)\n$if(1)\ntrue\n$endif()\n$else()\n$if(1)\nfalse\n$endif()\n$endif()",
            &mut errors,
            &mut new_rng(),
            &mut SubMap::new()
        ),
        "\n\ntrue\n\n"
    );
    assert!(errors.is_empty(), "{:?}", errors);
    assert_eq!(
        run_if(
            "$if(0)\n$if(1)\ntrue\n$endif()\n$else()\n$if(1)\nfalse\n$endif()\n$endif()",
            &mut errors,
            &mut new_rng(),
            &mut SubMap::new()
        ),
        "\n\nfalse\n\n"
    );
    assert!(errors.is_empty(), "{:?}", errors);
}

#[test]
fn if_sub_integration() {
    let mut errors = Vec::new();

    let input_positive = "$sub(0) = 1\n$if($sub(0))\n    true\n$else()\n    false\n$endif()\n";
    let input_negative = "$sub(0) = 0\n$if($sub(0))\n    true\n$else()\n    false\n$endif()\n";
    let processed = run_if(input_positive, &mut errors, &mut new_rng(), &mut SubMap::new());
    assert!(processed.contains("true"), "output missing true: {}", processed);
    assert!(!processed.contains("false"), "output contains false: {}", processed);
    assert!(directive_free(&processed), "contains preprocessing directives: {}", processed);
    assert!(errors.is_empty(), "{:?}", errors);

    let processed = run_if(input_negative, &mut errors, &mut new_rng(), &mut SubMap::new());
    assert!(processed.contains("false"), "output missing false: {}", processed);
    assert!(!processed.contains("true"), "output contains true: {}", processed);
    assert!(directive_free(&processed), "contains preprocessing directives: {}", processed);
    assert!(errors.is_empty(), "{:?}", errors);

    let input_positive = "$if(1)\n    $sub(0) = true\n$else()\n    $sub(0) = false\n$endif()\n$sub(0)\n";
    let input_negative = "$if(0)\n    $sub(0) = true\n$else()\n    $sub(0) = false\n$endif()\n$sub(0)\n";
    let processed = run_if(input_positive, &mut errors, &mut new_rng(), &mut SubMap::new());
    assert!(processed.contains("true"), "output missing true: {}", processed);
    assert!(!processed.contains("false"), "output contains false: {}", processed);
    assert!(directive_free(&processed), "contains preprocessing directives: {}", processed);
    assert!(errors.is_empty(), "{:?}", errors);

    let processed = run_if(input_negative, &mut errors, &mut new_rng(), &mut SubMap::new());
    assert!(processed.contains("false"), "output missing false: {}", processed);
    assert!(!processed.contains("true"), "output contains true: {}", processed);
    assert!(directive_free(&processed), "contains preprocessing directives: {}", processed);
    assert!(errors.is_empty(), "{:?}", errors);
}

#[test]
fn if_sub_rnd_integration() {
    let mut errors = Vec::new();

    let input_positive =
        "$sub(1) = $rnd(1;4)\n$if($sub(1))\n    $sub(0) = true\n$else()\n    $sub(0) = false\n$endif()\n$sub(0)\n";
    let input_negative =
        "$sub(1) = $rnd(0;0)\n$if($sub(1))\n    $sub(0) = true\n$else()\n    $sub(0) = false\n$endif()\n$sub(0)\n";
    let processed = run_if(input_positive, &mut errors, &mut new_rng(), &mut SubMap::new());
    assert!(processed.contains("true"), "output missing true: {}", processed);
    assert!(!processed.contains("false"), "output contains false: {}", processed);
    assert!(directive_free(&processed), "contains preprocessing directives: {}", processed);
    assert!(errors.is_empty(), "{:?}", errors);

    let processed = run_if(input_negative, &mut errors, &mut new_rng(), &mut SubMap::new());
    assert!(processed.contains("false"), "output missing false: {}", processed);
    assert!(!processed.contains("true"), "output contains true: {}", processed);
    assert!(directive_free(&processed), "contains preprocessing directives: {}", processed);
    assert!(errors.is_empty(), "{:?}", errors);
}
