use lifetime_repair::bounds::{apply_bound_helps, insert_lifetime_bound, repair_bounds_help, BOUND_HELP_PATTERN};
use lifetime_repair::diagnostics::collect_pairs;
use lifetime_repair::elision::{elide_lifetimes_annotations, elide_signature};
use lifetime_repair::{FnSignature, LifetimeBound, LifetimeSite, LifetimeUse};

fn r(name: &str) -> LifetimeUse {
    LifetimeUse { site: LifetimeSite::Reference, name: Some(name.to_string()) }
}

fn bare() -> LifetimeUse {
    LifetimeUse { site: LifetimeSite::Reference, name: None }
}

fn arg(name: &str) -> LifetimeUse {
    LifetimeUse { site: LifetimeSite::Argument, name: Some(name.to_string()) }
}

fn other(name: &str) -> LifetimeUse {
    LifetimeUse { site: LifetimeSite::Other, name: Some(name.to_string()) }
}

fn sig(name: &str, params: &[&str], inputs: Vec<Vec<LifetimeUse>>, output: Vec<LifetimeUse>) -> FnSignature {
    FnSignature {
        name: name.to_string(),
        lifetime_params: params.iter().map(|s| s.to_string()).collect(),
        where_bounds: Vec::new(),
        has_receiver: false,
        inputs,
        output,
        type_params: Vec::new(),
    }
}

fn names(uses: &[LifetimeUse]) -> Vec<Option<String>> {
    uses.iter().map(|u| u.name.clone()).collect()
}

fn some(s: &str) -> Option<String> {
    Some(s.to_string())
}

fn helper_with_three_lifetimes() -> FnSignature {
    // fn bar_extracted<'a, 'b, 'c>(p: &'a mut &'b i32, x: &'c i32)
    sig("bar_extracted", &["'a", "'b", "'c"], vec![vec![r("'a"), r("'b")], vec![r("'c")]], vec![])
}

#[test]
fn single_use_lifetimes_are_all_elided() {
    let mut s = helper_with_three_lifetimes();
    let res = elide_signature(&mut s);
    assert!(res.success);
    assert!(!res.annotations_left);
    assert!(!res.has_struct_lt);
    assert!(s.lifetime_params.is_empty());
    assert_eq!(names(&s.inputs[0]), vec![None, None]);
    assert_eq!(names(&s.inputs[1]), vec![None]);
}

#[test]
fn shared_and_returned_lifetimes_are_kept_and_renumbered() {
    // fn f<'x, 'a, 'y>(a: &'a i32, b: &'a i32, c: &'x i32, d: &'y i32) -> &'y i32
    let mut s = sig(
        "f",
        &["'x", "'a", "'y"],
        vec![vec![r("'a")], vec![r("'a")], vec![r("'x")], vec![r("'y")]],
        vec![r("'y")],
    );
    let res = elide_signature(&mut s);
    assert!(res.annotations_left);
    assert_eq!(s.lifetime_params, vec!["'lt0".to_string(), "'lt1".to_string()]);
    assert_eq!(names(&s.inputs[0]), vec![some("'lt0")]);
    assert_eq!(names(&s.inputs[1]), vec![some("'lt0")]);
    assert_eq!(names(&s.inputs[2]), vec![None]);
    assert_eq!(names(&s.inputs[3]), vec![some("'lt1")]);
    assert_eq!(names(&s.output), vec![some("'lt1")]);
}

#[test]
fn where_clause_lifetimes_are_kept() {
    let mut s = sig("f", &["'a", "'b"], vec![vec![r("'a")], vec![r("'b")]], vec![]);
    s.where_bounds.push(LifetimeBound { lifetime: "'a".to_string(), bounds: vec!["'b".to_string()] });
    let res = elide_signature(&mut s);
    assert!(res.annotations_left);
    assert_eq!(s.lifetime_params, vec!["'lt0".to_string(), "'lt1".to_string()]);
    assert_eq!(s.where_bounds[0].lifetime, "'lt0");
    assert_eq!(s.where_bounds[0].bounds, vec!["'lt1".to_string()]);
    assert_eq!(names(&s.inputs[0]), vec![some("'lt0")]);
}

#[test]
fn generic_arguments_get_placeholder_and_flag() {
    // fn f<'a, 'b>(x: Foo<'a>, y: &'b T, z: &'b T)
    let mut s = sig("f", &["'a", "'b"], vec![vec![arg("'a")], vec![r("'b"), bare()], vec![r("'b")]], vec![]);
    let res = elide_signature(&mut s);
    assert!(res.has_struct_lt);
    assert!(res.annotations_left);
    assert_eq!(s.lifetime_params, vec!["'lt0".to_string()]);
    assert_eq!(names(&s.inputs[0]), vec![some("'_")]);
    assert_eq!(names(&s.inputs[1]), vec![some("'lt0"), None]);
    assert_eq!(names(&s.inputs[2]), vec![some("'lt0")]);
}

#[test]
fn generic_parameter_bounds_do_not_count_as_uses() {
    // fn f<'a, 'b, T: 'a>(x: Foo<'a>, y: &'b T)
    let mut s = sig("f", &["'a", "'b"], vec![vec![arg("'a")], vec![r("'b")]], vec![]);
    s.type_params.push(vec![other("'a")]);
    let res = elide_signature(&mut s);
    assert!(res.has_struct_lt);
    assert!(!res.annotations_left);
    assert!(s.lifetime_params.is_empty());
    assert_eq!(names(&s.inputs[0]), vec![some("'_")]);
    assert_eq!(names(&s.inputs[1]), vec![None]);
    assert_eq!(names(&s.type_params[0]), vec![some("'a")]);
}

#[test]
fn single_input_use_with_bounded_type_parameter_is_elided() {
    // fn f<'a, T: 'a>(x: &'a T) becomes fn f<T: 'a>(x: &T)
    let mut s = sig("f", &["'a"], vec![vec![r("'a")]], vec![]);
    s.type_params.push(vec![other("'a")]);
    let res = elide_signature(&mut s);
    assert!(!res.annotations_left);
    assert!(s.lifetime_params.is_empty());
    assert_eq!(names(&s.inputs[0]), vec![None]);
    assert_eq!(names(&s.type_params[0]), vec![some("'a")]);
}

#[test]
fn references_inside_type_parameters_are_only_renamed() {
    // fn f<'a, 'b, F: Fn(&'a i32, &'b i32)>(x: &'a i32, y: &'a i32)
    let mut s = sig("f", &["'a", "'b"], vec![vec![r("'a")], vec![r("'a")]], vec![]);
    s.type_params.push(vec![r("'a"), r("'b")]);
    let res = elide_signature(&mut s);
    assert!(res.annotations_left);
    assert_eq!(s.lifetime_params, vec!["'lt0".to_string()]);
    assert_eq!(names(&s.type_params[0]), vec![some("'lt0"), some("'b")]);
    assert_eq!(names(&s.inputs[1]), vec![some("'lt0")]);
}

#[test]
fn lifetime_needed_only_by_the_return_type_is_kept() {
    // fn f<'a>() -> &'a i32
    let mut s = sig("f", &["'a"], vec![], vec![r("'a")]);
    let res = elide_signature(&mut s);
    assert!(res.annotations_left);
    assert_eq!(s.lifetime_params, vec!["'lt0".to_string()]);
    assert_eq!(names(&s.output), vec![some("'lt0")]);
}

#[test]
fn receiver_disables_elision() {
    let mut s = helper_with_three_lifetimes();
    s.has_receiver = true;
    let res = elide_signature(&mut s);
    assert!(res.success);
    assert!(!res.annotations_left);
    assert_eq!(s.lifetime_params.len(), 3);
    assert_eq!(names(&s.inputs[0]), vec![some("'a"), some("'b")]);
}

#[test]
fn elision_twice_equals_once() {
    let make = || {
        let mut s = sig(
            "f",
            &["'p", "'q", "'r"],
            vec![vec![r("'p"), r("'q")], vec![r("'q")], vec![arg("'r")]],
            vec![r("'p")],
        );
        s.where_bounds.push(LifetimeBound { lifetime: "'p".to_string(), bounds: vec!["'q".to_string()] });
        s
    };
    let mut once = make();
    let first = elide_signature(&mut once);
    let mut twice = make();
    elide_signature(&mut twice);
    let second = elide_signature(&mut twice);
    assert_eq!(twice.lifetime_params, once.lifetime_params);
    assert_eq!(twice.where_bounds[0].lifetime, once.where_bounds[0].lifetime);
    assert_eq!(twice.where_bounds[0].bounds, once.where_bounds[0].bounds);
    for i in 0..3 {
        assert_eq!(names(&twice.inputs[i]), names(&once.inputs[i]));
    }
    assert_eq!(names(&twice.output), names(&once.output));
    assert_eq!(first.annotations_left, second.annotations_left);
    assert_eq!(first.has_struct_lt, second.has_struct_lt);
}

#[test]
fn elision_applies_only_to_the_named_function() {
    let mut fns = vec![helper_with_three_lifetimes(), sig("g", &["'a"], vec![vec![r("'a")]], vec![])];
    let res = elide_lifetimes_annotations(&mut fns, "g");
    assert!(res.success);
    assert!(!res.annotations_left);
    assert_eq!(fns[0].lifetime_params.len(), 3);
    assert!(fns[1].lifetime_params.is_empty());
}

const BOUND_DIAGNOSTIC: &str = "error: lifetime may not live long enough\n  = help: consider adding the following bound: `'lt0: 'lt1`\n";

#[test]
fn bound_scraping_captures_both_lifetimes() {
    let pairs = collect_pairs(BOUND_HELP_PATTERN, BOUND_DIAGNOSTIC, &vec![None]);
    assert_eq!(pairs, vec![("'lt0".to_string(), "'lt1".to_string())]);
}

#[test]
fn bound_is_inserted_into_every_function_of_that_name() {
    let mut fns = vec![
        sig("bar_extracted", &["'lt0", "'lt1"], vec![], vec![]),
        sig("other", &[], vec![], vec![]),
        sig("bar_extracted", &["'lt0", "'lt1"], vec![], vec![]),
    ];
    assert!(repair_bounds_help(BOUND_DIAGNOSTIC, &vec![None], &mut fns, "bar_extracted"));
    for i in [0, 2] {
        assert_eq!(fns[i].where_bounds.len(), 1);
        assert_eq!(fns[i].where_bounds[0].lifetime, "'lt0");
        assert_eq!(fns[i].where_bounds[0].bounds, vec!["'lt1".to_string()]);
    }
    assert!(fns[1].where_bounds.is_empty());
    // a second run repeats the predicate and still succeeds
    assert!(repair_bounds_help(BOUND_DIAGNOSTIC, &vec![None], &mut fns, "bar_extracted"));
    assert_eq!(fns[0].where_bounds.len(), 2);
    assert_eq!(fns[0].where_bounds[1].lifetime, "'lt0");
}

#[test]
fn bound_for_missing_function_makes_no_progress() {
    let mut fns = vec![sig("other", &[], vec![], vec![])];
    assert!(!repair_bounds_help(BOUND_DIAGNOSTIC, &vec![None], &mut fns, "bar_extracted"));
    assert!(fns[0].where_bounds.is_empty());
    assert!(!insert_lifetime_bound(&mut fns, "missing", "'a", "'b"));
}

#[test]
fn self_outlives_bound_for_the_helper() {
    let text = "  = help: consider adding the following bound: `'lt0: 'lt0`\n";
    let mut fns = vec![sig("bar_extracted", &["'lt0"], vec![vec![r("'lt0")], vec![r("'lt0")], vec![r("'lt0")]], vec![r("'lt0")])];
    assert!(repair_bounds_help(text, &vec![None], &mut fns, "bar_extracted"));
    assert_eq!(fns[0].where_bounds[0].lifetime, "'lt0");
    assert_eq!(fns[0].where_bounds[0].bounds, vec!["'lt0".to_string()]);
}

#[test]
fn lifetime_named_only_by_the_where_clause_is_dropped() {
    // fn f<'a, 'b>(x: &'b i32, y: &'b i32) where 'a: 'a
    let mut s = sig("f", &["'a", "'b"], vec![vec![r("'b")], vec![r("'b")]], vec![]);
    s.where_bounds.push(LifetimeBound { lifetime: "'a".to_string(), bounds: vec!["'a".to_string()] });
    let res = elide_signature(&mut s);
    assert!(res.annotations_left);
    assert_eq!(s.lifetime_params, vec!["'lt0".to_string()]);
    assert_eq!(s.where_bounds[0].lifetime, "'a");
    assert_eq!(names(&s.inputs[0]), vec![some("'lt0")]);
}

#[test]
fn static_references_follow_the_usage_rule() {
    // fn f(x: &'static str) -> &'static str keeps both; fn g(x: &'static str) drops it
    let mut kept = sig("f", &[], vec![vec![r("'static")]], vec![r("'static")]);
    elide_signature(&mut kept);
    assert_eq!(names(&kept.inputs[0]), vec![some("'static")]);
    assert_eq!(names(&kept.output), vec![some("'static")]);
    let mut dropped = sig("g", &[], vec![vec![r("'static")]], vec![]);
    let res = elide_signature(&mut dropped);
    assert!(!res.annotations_left);
    assert_eq!(names(&dropped.inputs[0]), vec![None]);
}

#[test]
fn bound_pairs_are_applied_in_order() {
    let mut fns = vec![sig("h", &["'a", "'b"], vec![], vec![])];
    let helps = vec![("'a".to_string(), "'b".to_string()), ("'b".to_string(), "'a".to_string())];
    assert!(apply_bound_helps(&mut fns, "h", &helps));
    assert_eq!(fns[0].where_bounds.len(), 2);
    assert_eq!(fns[0].where_bounds[0].lifetime, "'a");
    assert_eq!(fns[0].where_bounds[1].lifetime, "'b");
    assert_eq!(fns[0].where_bounds[1].bounds, vec!["'a".to_string()]);
    assert!(!apply_bound_helps(&mut fns, "h", &Vec::new()));
    assert_eq!(fns[0].where_bounds.len(), 2);
}

#[test]
fn undeclared_lifetime_kept_by_its_argument_use_only() {
    // fn f(x: Foo<'static>, y: &'static u8): the first pass keeps &'static
    // and turns the argument into '_; the second pass then elides it
    let make = || sig("f", &[], vec![vec![arg("'static")], vec![r("'static")]], vec![]);
    let mut s = make();
    elide_signature(&mut s);
    assert_eq!(names(&s.inputs[0]), vec![some("'_")]);
    assert_eq!(names(&s.inputs[1]), vec![some("'static")]);
    elide_signature(&mut s);
    assert_eq!(names(&s.inputs[1]), vec![None]);
}
