use lifetime_repair::borrowed_output::original_foo;
use lifetime_repair::driver::{CompileEvent, RepairDriver};
use lifetime_repair::extracted_helper::bar_extracted;
use lifetime_repair::names::{decimal_string, parse_decimal, remove_all_occurrences, str_contains};
use lifetime_repair::renamer::{callee_renamer, RenameFn, EXTRACT_MARKER};

fn drive(max: Option<i32>, events: &[CompileEvent]) -> (usize, RepairDriver) {
    let mut d = RepairDriver::new(max);
    let mut used = 0;
    for e in events {
        if d.is_finished() {
            break;
        }
        d.step(*e);
        used += 1;
    }
    (used, d)
}

#[test]
fn driver_succeeds_on_first_compile() {
    let (used, d) = drive(None, &[CompileEvent::Compiled]);
    assert_eq!(used, 1);
    let r = d.result();
    assert!(r.success);
    assert_eq!(r.repair_count, 0);
}

#[test]
fn driver_counts_repairs_until_success() {
    let p = CompileEvent::Failed { progress: true };
    let (used, d) = drive(Some(5), &[p, p, CompileEvent::Compiled, p]);
    assert_eq!(used, 3);
    assert!(d.result().success);
    assert_eq!(d.result().repair_count, 2);
}

#[test]
fn driver_stops_without_progress() {
    let p = CompileEvent::Failed { progress: true };
    let n = CompileEvent::Failed { progress: false };
    let (used, d) = drive(None, &[p, p, n, p, CompileEvent::Compiled]);
    assert_eq!(used, 3);
    assert!(!d.result().success);
    assert_eq!(d.result().repair_count, 3);
}

#[test]
fn driver_stops_at_default_budget() {
    let events = vec![CompileEvent::Failed { progress: true }; 40];
    let (used, d) = drive(None, &events);
    assert_eq!(used, 25);
    assert!(!d.result().success);
    assert_eq!(d.result().repair_count, 25);
}

#[test]
fn driver_stops_at_given_budget() {
    let events = vec![CompileEvent::Failed { progress: true }; 10];
    let (used, d) = drive(Some(3), &events);
    assert_eq!(used, 3);
    assert_eq!(d.result().repair_count, 3);
    assert!(!d.result().has_struct_lt);
    assert!(!d.result().has_non_elidible_lifetime);
}

#[test]
fn renamer_strips_marker_from_matching_identifiers() {
    let mut idents = vec![
        "bar_extracted____EXTRACT_THIS".to_string(),
        "self . bar_extracted____EXTRACT_THIS".to_string(),
        "other____EXTRACT_THIS".to_string(),
        "bar_extracted".to_string(),
    ];
    callee_renamer(&mut idents, "bar_extracted");
    assert_eq!(idents[0], "bar_extracted");
    assert_eq!(idents[1], "self . bar_extracted");
    assert_eq!(idents[2], "other____EXTRACT_THIS");
    assert_eq!(idents[3], "bar_extracted");
    let again = idents.clone();
    callee_renamer(&mut idents, "bar_extracted");
    assert_eq!(idents, again);
}

#[test]
fn rename_fn_uses_its_own_postfix() {
    let v = RenameFn::new("foo", "_tmp");
    assert_eq!(v.rename("foo_tmp_tmp"), "foo");
    assert_eq!(v.rename("bar_tmp"), "bar_tmp");
    assert_eq!(EXTRACT_MARKER, "____EXTRACT_THIS");
}

#[test]
fn text_helpers() {
    assert_eq!(parse_decimal("42"), Some(42));
    assert_eq!(parse_decimal("007"), Some(7));
    assert_eq!(parse_decimal(""), None);
    assert_eq!(parse_decimal("4a"), None);
    assert_eq!(parse_decimal("99999999999999999999999"), None);
    assert_eq!(decimal_string(0), "0");
    assert_eq!(decimal_string(1207), "1207");
    assert!(str_contains("abcabd", "abd"));
    assert!(!str_contains("abcab", "abd"));
    assert!(str_contains("x", ""));
    assert_eq!(remove_all_occurrences("aXXbXXc", "XX"), "abc");
    assert_eq!(remove_all_occurrences("aaab", "ab"), "aa");
    assert_eq!(remove_all_occurrences("abc", ""), "abc");
}

#[test]
fn extracted_helper_selects() {
    let x = 3;
    let y = 2;
    assert_eq!(*bar_extracted(&x, &y, &y), 2);
    let big = 9;
    assert_eq!(*bar_extracted(&x, &big, &big), 5);
    original_foo();
}

#[test]
fn renamer_removal_can_join_a_new_marker() {
    // removing the inner marker joins its neighbours into a new one; a second
    // pass then removes that too
    let mut idents = vec!["bar____EXTRACT____EXTRACT_THIS_THIS".to_string()];
    callee_renamer(&mut idents, "bar");
    assert_eq!(idents[0], "bar____EXTRACT_THIS");
    callee_renamer(&mut idents, "bar");
    assert_eq!(idents[0], "bar");
}
