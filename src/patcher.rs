//! The suggestion patcher: applies the compiler's "replace line N with this
//! text" suggestions to the lines of the file under repair.
use vstd::prelude::*;
use crate::diagnostics::{captures_view, collect_pairs, collected_pairs, records_view, Capture};
use crate::names::{contains, decimal_value, is_decimal, parse_decimal, str_contains};
use crate::signature::strings_view;

verus! {

/// A suggestion block in rendered diagnostic text: a `help: consider` line,
/// one more line, then `<line number> | <replacement>`.
pub const STANDARD_HELP_PATTERN: &'static str =
    "help: consider.+\n.*\n(?P<line_number>\\d+) \\| (?P<replacement>.+)\n";

/// A suggestion applies to a file of `n_lines` lines when its line number is
/// a decimal within the file and its replacement holds no `&'lifetime`
/// placeholder.
pub open spec fn help_applies(n_lines: nat, h: (Seq<char>, Seq<char>)) -> bool {
    is_decimal(h.0) && 1 <= decimal_value(h.0) <= n_lines && !contains(h.1, "&'lifetime"@)
}

pub open spec fn apply_help(lines: Seq<Seq<char>>, h: (Seq<char>, Seq<char>)) -> Seq<Seq<char>> {
    if help_applies(lines.len(), h) {
        lines.update(decimal_value(h.0) - 1, h.1)
    } else {
        lines
    }
}

/// The lines after applying the suggestions one after the other.
pub open spec fn patched(lines: Seq<Seq<char>>, helps: Seq<(Seq<char>, Seq<char>)>) -> Seq<
    Seq<char>,
>
    decreases helps.len(),
{
    if helps.len() == 0 {
        lines
    } else {
        apply_help(patched(lines, helps.drop_last()), helps.last())
    }
}

/// Some suggestion applies.
pub open spec fn any_applies(n_lines: nat, helps: Seq<(Seq<char>, Seq<char>)>) -> bool {
    exists|i: int| 0 <= i < helps.len() && help_applies(n_lines, #[trigger] helps[i])
}

/// Applies each `(line number, replacement)` suggestion in turn: the line
/// with that 1-based number is replaced, when the suggestion applies.
/// Returns whether at least one did.
///
/// Several suggestions of one batch are applied one after the other, not
/// at once: each line number is read against the lines as the earlier
/// suggestions left them. Since a replacement is a single line, numbers do
/// not shift; a number repeated later in the batch replaces the same line
/// again (the last replacement wins), where a single forward pass that
/// copies the file would have written it over the line after. Whether a
/// batch may hold overlapping suggestions is left open; each iteration of
/// the driver reads the diagnostics anew, so effects converge across
/// iterations.
pub fn apply_line_helps(lines: &mut Vec<String>, helps: &Vec<Capture>) -> (helped: bool)
    ensures
        strings_view(final(lines)@) == patched(strings_view(old(lines)@), captures_view(helps@)),
        helped == any_applies(old(lines)@.len(), captures_view(helps@)),
{
    let ghost start = strings_view(lines@);
    let mut helped = false;
    let mut i: usize = 0;
    while i < helps.len()
        invariant
            i <= helps.len(),
            lines@.len() == start.len(),
            strings_view(lines@) == patched(start, captures_view(helps@).take(i as int)),
            helped == any_applies(start.len(), captures_view(helps@).take(i as int)),
        decreases helps.len() - i,
    {
        let ghost hv = captures_view(helps@);
        assert(hv.take(i + 1).drop_last() =~= hv.take(i as int));
        assert(hv.take(i + 1).last() == hv[i as int]);
        assert(hv[i as int] == (helps@[i as int].0@, helps@[i as int].1@));
        let line = parse_decimal(helps[i].0.as_str());
        let guarded = str_contains(helps[i].1.as_str(), "&'lifetime");
        let ghost before = strings_view(lines@);
        let n_lines = lines.len();
        match line {
            Some(n) => {
                if !guarded && 1 <= n && n <= n_lines {
                    assert(is_decimal(hv[i as int].0));
                    assert(decimal_value(hv[i as int].0) == n);
                    assert(!contains(hv[i as int].1, "&'lifetime"@));
                    assert(help_applies(start.len(), hv[i as int]));
                    lines.set(n - 1, helps[i].1.clone());
                    assert(strings_view(lines@) =~= before.update(n - 1, hv[i as int].1));
                    helped = true;
                } else {
                    assert(!help_applies(start.len(), hv[i as int]));
                }
            },
            None => {
                assert(!help_applies(start.len(), hv[i as int]));
            },
        }
        assert(helped == any_applies(start.len(), hv.take(i + 1))) by {
            if help_applies(start.len(), hv[i as int]) {
                assert(hv.take(i + 1)[i as int] == hv[i as int]);
                assert(help_applies(start.len(), hv.take(i + 1)[i as int]));
            }
            if any_applies(start.len(), hv.take(i + 1)) && !help_applies(start.len(), hv[i as int]) {
                let k = choose|k: int|
                    0 <= k < i + 1 && help_applies(start.len(), #[trigger] hv.take(i + 1)[k]);
                assert(hv.take(i as int)[k] == hv.take(i + 1)[k]);
            }
            if any_applies(start.len(), hv.take(i as int)) {
                let k = choose|k: int|
                    0 <= k < i && help_applies(start.len(), #[trigger] hv.take(i as int)[k]);
                assert(hv.take(i + 1)[k] == hv.take(i as int)[k]);
            }
        }
        i = i + 1;
    }
    assert(captures_view(helps@).take(helps.len() as int) =~= captures_view(helps@));
    helped
}

/// The suggestions that a diagnostic stream offers.
pub open spec fn standard_helps(stderr: Seq<char>, records: Seq<Option<Seq<char>>>) -> Seq<
    (Seq<char>, Seq<char>),
> {
    collected_pairs(STANDARD_HELP_PATTERN@, stderr, records)
}

/// Applies the line suggestions found in `stderr` to `lines`, the file under
/// repair split at line breaks. `records` holds, per record of the stream,
/// its rendered text, or `None` where a record could not be read.
pub fn repair_standard_help(stderr: &str, records: &Vec<Option<String>>, lines: &mut Vec<String>) -> (helped: bool)
    ensures
        strings_view(final(lines)@) == patched(
            strings_view(old(lines)@),
            standard_helps(stderr@, records_view(records@)),
        ),
        helped == any_applies(old(lines)@.len(), standard_helps(stderr@, records_view(records@))),
{
    let helps = collect_pairs(STANDARD_HELP_PATTERN, stderr, records);
    apply_line_helps(lines, &helps)
}

} // verus!
