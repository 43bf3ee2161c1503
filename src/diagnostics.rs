//! Compiler diagnostics as plain values, and the scraping of suggestion text
//! out of their rendered form.
use vstd::prelude::*;
use crate::names::{contains, str_contains};

verus! {

/// One source location a diagnostic refers to.
pub struct RustcSpan {
    pub file_name: String,
}

/// One compiler diagnostic: its human-readable text and the files it names.
pub struct RustcError {
    pub rendered: String,
    pub spans: Vec<RustcSpan>,
}

/// A build-tool record, which may wrap a compiler diagnostic.
pub struct CargoError {
    pub message: Option<RustcError>,
}

/// A suggestion scraped from a diagnostic: two captured pieces of its text.
pub type Capture = (String, String);

pub open spec fn captures_view(v: Seq<Capture>) -> Seq<(Seq<char>, Seq<char>)> {
    v.map_values(|c: Capture| (c.0@, c.1@))
}

pub open spec fn records_view(v: Seq<Option<String>>) -> Seq<Option<Seq<char>>> {
    v.map_values(
        |r: Option<String>|
            match r {
                Some(s) => Some(s@),
                None => None,
            },
    )
}

/// What the regex `pattern` captures in `text` with its first two groups,
/// one pair per match in order; `None` when `pattern` does not compile.
pub uninterp spec fn regex_pairs(pattern: Seq<char>, text: Seq<char>) -> Option<
    Seq<(Seq<char>, Seq<char>)>,
>;

/// Relies on `regex::Regex::new` to compile `pattern` and on
/// `Regex::captures_iter` to list its matches in `text`, left to right,
/// each as the text of its first and second capture groups.
#[verifier::external_body]
fn capture_pairs(pattern: &str, text: &str) -> (r: Option<Vec<Capture>>)
    ensures
        r.is_some() == regex_pairs(pattern@, text@).is_some(),
        r matches Some(v) ==> captures_view(v@) == regex_pairs(pattern@, text@).unwrap(),
{
    let re = regex::Regex::new(pattern).ok()?;
    let group = |c: &regex::Captures, i: usize| c.get(i).map_or("", |m| m.as_str()).to_string();
    Some(re.captures_iter(text).map(|c| (group(&c, 1), group(&c, 2))).collect())
}

/// The captures of `pattern` in `text`; none when the pattern does not compile.
pub open spec fn pairs_of(pattern: Seq<char>, text: Seq<char>) -> Seq<(Seq<char>, Seq<char>)> {
    match regex_pairs(pattern, text) {
        Some(p) => p,
        None => Seq::empty(),
    }
}

/// The text a record contributes: its rendered message, or the whole raw
/// output when the record could not be read.
pub open spec fn record_text(raw: Seq<char>, record: Option<Seq<char>>) -> Seq<char> {
    match record {
        Some(t) => t,
        None => raw,
    }
}

/// The captures of `pattern` over all records, record by record.
pub open spec fn collected_pairs(
    pattern: Seq<char>,
    raw: Seq<char>,
    records: Seq<Option<Seq<char>>>,
) -> Seq<(Seq<char>, Seq<char>)>
    decreases records.len(),
{
    if records.len() == 0 {
        Seq::empty()
    } else {
        collected_pairs(pattern, raw, records.drop_last()) + pairs_of(
            pattern,
            record_text(raw, records.last()),
        )
    }
}

/// The captures of `pattern` in every record of a diagnostic stream. Each
/// record is the rendered text of one diagnostic, or `None` where the stream
/// held something that is not a diagnostic; that record stands for the whole
/// raw text `raw`.
pub fn collect_pairs(pattern: &str, raw: &str, records: &Vec<Option<String>>) -> (r: Vec<Capture>)
    ensures
        captures_view(r@) == collected_pairs(pattern@, raw@, records_view(records@)),
{
    let mut r: Vec<Capture> = Vec::new();
    let mut i: usize = 0;
    while i < records.len()
        invariant
            i <= records.len(),
            captures_view(r@) == collected_pairs(
                pattern@,
                raw@,
                records_view(records@).take(i as int),
            ),
        decreases records.len() - i,
    {
        assert(records_view(records@).take(i + 1).drop_last() =~= records_view(records@).take(
            i as int,
        ));
        let text: &str = match &records[i] {
            Some(t) => t.as_str(),
            None => raw,
        };
        assert(text@ == record_text(raw@, records_view(records@).take(i + 1).last()));
        match capture_pairs(pattern, text) {
            Some(found) => {
                let mut k: usize = 0;
                let ghost start = captures_view(r@);
                while k < found.len()
                    invariant
                        k <= found.len(),
                        captures_view(r@) == start + captures_view(found@).take(k as int),
                    decreases found.len() - k,
                {
                    let c = (found[k].0.clone(), found[k].1.clone());
                    let ghost prev = captures_view(r@);
                    r.push(c);
                    assert(captures_view(r@) =~= prev.push((c.0@, c.1@)));
                    assert(captures_view(found@).take(k + 1) =~= captures_view(found@).take(
                        k as int,
                    ).push((c.0@, c.1@)));
                    k = k + 1;
                }
                assert(captures_view(found@).take(found.len() as int) =~= captures_view(found@));
            },
            None => {
                assert(pairs_of(pattern@, text@) =~= Seq::empty());
                assert(captures_view(r@) =~= captures_view(r@) + Seq::empty());
            },
        }
        i = i + 1;
    }
    assert(records_view(records@).take(records.len() as int) =~= records_view(records@));
    r
}

/// How many spans of `message` refer to a file whose name occurs in `src_path`.
pub open spec fn relevant_spans(src_path: Seq<char>, spans: Seq<RustcSpan>) -> nat
    decreases spans.len(),
{
    if spans.len() == 0 {
        0
    } else {
        relevant_spans(src_path, spans.drop_last()) + if contains(
            src_path,
            spans.last().file_name@,
        ) {
            1nat
        } else {
            0nat
        }
    }
}

/// The number of spans of `message` that point into the source tree
/// `src_path`: those whose file name occurs in it.
pub fn relevant_span_count(src_path: &str, message: &RustcError) -> (r: usize)
    ensures
        r == relevant_spans(src_path@, message.spans@),
{
    let mut r: usize = 0;
    let mut i: usize = 0;
    while i < message.spans.len()
        invariant
            i <= message.spans.len(),
            r <= i,
            r == relevant_spans(src_path@, message.spans@.take(i as int)),
        decreases message.spans.len() - i,
    {
        assert(message.spans@.take(i + 1).drop_last() =~= message.spans@.take(i as int));
        if str_contains(src_path, message.spans[i].file_name.as_str()) {
            r = r + 1;
        }
        i = i + 1;
    }
    assert(message.spans@.take(message.spans.len() as int) =~= message.spans@);
    r
}

} // verus!
