//! The lifetime bound inserter: adds the compiler's suggested outlives
//! predicates to the where-clause of the function under repair.
use vstd::prelude::*;
use crate::diagnostics::{collect_pairs, collected_pairs, records_view, Capture, captures_view};
use crate::elision::signatures_view;
use crate::signature::{BoundView, FnSignature, LifetimeBound, SignatureView};

verus! {

/// A suggested outlives bound in rendered diagnostic text:
/// `= help: consider ... bound: `'a: 'b``.
pub const BOUND_HELP_PATTERN: &'static str =
    "= help: consider.+bound: `(?P<constraint_lhs>'[a-z0-9]+): (?P<constraint_rhs>'[a-z0-9]+)`";

/// The predicate `'lhs: 'rhs`.
pub open spec fn outlives(lhs: Seq<char>, rhs: Seq<char>) -> BoundView {
    BoundView { lifetime: lhs, bounds: seq![rhs] }
}

pub open spec fn with_bound(f: SignatureView, name: Seq<char>, lhs: Seq<char>, rhs: Seq<char>) -> SignatureView {
    if f.name == name {
        SignatureView { where_bounds: f.where_bounds.push(outlives(lhs, rhs)), ..f }
    } else {
        f
    }
}

/// Every signature named `name` gains the predicate `'lhs: 'rhs`.
pub open spec fn insert_bound(fns: Seq<SignatureView>, name: Seq<char>, lhs: Seq<char>, rhs: Seq<char>) -> Seq<SignatureView> {
    fns.map_values(|f: SignatureView| with_bound(f, name, lhs, rhs))
}

/// The predicates of `pairs` inserted one after the other.
pub open spec fn insert_bounds(
    fns: Seq<SignatureView>,
    name: Seq<char>,
    pairs: Seq<(Seq<char>, Seq<char>)>,
) -> Seq<SignatureView>
    decreases pairs.len(),
{
    if pairs.len() == 0 {
        fns
    } else {
        insert_bound(insert_bounds(fns, name, pairs.drop_last()), name, pairs.last().0, pairs.last().1)
    }
}

pub open spec fn has_named(fns: Seq<SignatureView>, name: Seq<char>) -> bool {
    exists|i: int| 0 <= i < fns.len() && (#[trigger] fns[i]).name == name
}

/// The bounds that a diagnostic stream suggests.
pub open spec fn bound_helps(stderr: Seq<char>, records: Seq<Option<Seq<char>>>) -> Seq<
    (Seq<char>, Seq<char>),
> {
    collected_pairs(BOUND_HELP_PATTERN@, stderr, records)
}

/// Adds `'lifetime: 'bound` to the where-clause of every signature named
/// `fn_name`, creating the clause where there is none. Returns whether any
/// signature has that name.
pub fn insert_lifetime_bound(fns: &mut Vec<FnSignature>, fn_name: &str, lifetime: &str, bound: &str) -> (success: bool)
    ensures
        signatures_view(final(fns)@) == insert_bound(signatures_view(old(fns)@), fn_name@, lifetime@, bound@),
        success == has_named(signatures_view(old(fns)@), fn_name@),
{
    let ghost orig = old(fns)@;
    let ghost before = signatures_view(orig);
    let target = String::from_str(fn_name);
    let n: usize = fns.len();
    let mut out: Vec<FnSignature> = Vec::new();
    let mut success = false;
    let mut i: usize = 0;
    while i < n
        invariant
            i + fns@.len() == before.len(),
            n == before.len(),
            target@ == fn_name@,
            fns@ == orig.skip(i as int),
            before == signatures_view(orig),
            signatures_view(out@) == insert_bound(before.take(i as int), fn_name@, lifetime@, bound@),
            success == has_named(before.take(i as int), fn_name@),
        decreases fns@.len(),
    {
        let mut f = fns.remove(0);
        assert(f == orig[i as int]);
        assert(fns@ =~= orig.skip(i + 1));
        let ghost prev = signatures_view(out@);
        let ghost fv = f@;
        if f.name == target {
            let rhs = String::from_str(bound);
            let mut bounds: Vec<String> = Vec::new();
            bounds.push(rhs);
            let b = LifetimeBound { lifetime: String::from_str(lifetime), bounds };
            assert(b@.bounds =~= seq![bound@]);
            assert(b@ == outlives(lifetime@, bound@));
            let ghost wb = f.where_bounds@;
            f.where_bounds.push(b);
            assert(f.where_bounds@ == wb.push(b));
            assert(f@.where_bounds =~= fv.where_bounds.push(outlives(lifetime@, bound@)));
            assert(f@ =~= with_bound(fv, fn_name@, lifetime@, bound@));
            success = true;
        }
        out.push(f);
        assert(signatures_view(out@) =~= prev.push(f@));
        assert(before.take(i + 1) =~= before.take(i as int).push(fv));
        assert(signatures_view(out@) =~= insert_bound(before.take(i + 1), fn_name@, lifetime@, bound@));
        assert(success == has_named(before.take(i + 1), fn_name@)) by {
            if has_named(before.take(i + 1), fn_name@) && fv.name != fn_name@ {
                let k = choose|k: int| 0 <= k < i + 1 && (#[trigger] before.take(i + 1)[k]).name == fn_name@;
                assert(before.take(i as int)[k] == before.take(i + 1)[k]);
            }
            if has_named(before.take(i as int), fn_name@) {
                let k = choose|k: int| 0 <= k < i && (#[trigger] before.take(i as int)[k]).name == fn_name@;
                assert(before.take(i + 1)[k] == before.take(i as int)[k]);
            }
            if fv.name == fn_name@ {
                assert(before.take(i + 1)[i as int] == fv);
            }
        }
        i = i + 1;
    }
    assert(before.take(i as int) =~= before);
    *fns = out;
    success
}

proof fn lemma_insert_bound_keeps_names(fns: Seq<SignatureView>, name: Seq<char>, lhs: Seq<char>, rhs: Seq<char>)
    ensures
        insert_bound(fns, name, lhs, rhs).len() == fns.len(),
        forall|i: int| 0 <= i < fns.len() ==> (#[trigger] insert_bound(fns, name, lhs, rhs)[i]).name == fns[i].name,
        has_named(insert_bound(fns, name, lhs, rhs), name) == has_named(fns, name),
{
    let g = insert_bound(fns, name, lhs, rhs);
    if has_named(g, name) {
        let k = choose|k: int| 0 <= k < g.len() && (#[trigger] g[k]).name == name;
        assert(fns[k].name == name);
    }
    if has_named(fns, name) {
        let k = choose|k: int| 0 <= k < fns.len() && (#[trigger] fns[k]).name == name;
        assert(g[k].name == name);
    }
}

proof fn lemma_insert_bounds_keeps_names(fns: Seq<SignatureView>, name: Seq<char>, pairs: Seq<(Seq<char>, Seq<char>)>)
    ensures
        insert_bounds(fns, name, pairs).len() == fns.len(),
        forall|i: int| 0 <= i < fns.len() ==> (#[trigger] insert_bounds(fns, name, pairs)[i]).name == fns[i].name,
        has_named(insert_bounds(fns, name, pairs), name) == has_named(fns, name),
    decreases pairs.len(),
{
    if pairs.len() > 0 {
        lemma_insert_bounds_keeps_names(fns, name, pairs.drop_last());
        lemma_insert_bound_keeps_names(insert_bounds(fns, name, pairs.drop_last()), name, pairs.last().0, pairs.last().1);
    }
}

/// Inserts each suggested bound `(lhs, rhs)` of `helps`, in order, into the
/// signatures named `fn_name`. Returns whether any bound was inserted.
pub fn apply_bound_helps(fns: &mut Vec<FnSignature>, fn_name: &str, helps: &Vec<Capture>) -> (helped: bool)
    ensures
        signatures_view(final(fns)@) == insert_bounds(
            signatures_view(old(fns)@),
            fn_name@,
            captures_view(helps@),
        ),
        helped == (helps@.len() > 0 && has_named(signatures_view(old(fns)@), fn_name@)),
{
    let ghost start = signatures_view(fns@);
    let ghost hv = captures_view(helps@);
    let mut helped = false;
    let mut i: usize = 0;
    while i < helps.len()
        invariant
            i <= helps.len(),
            hv == captures_view(helps@),
            signatures_view(fns@) == insert_bounds(start, fn_name@, hv.take(i as int)),
            helped == (i > 0 && has_named(start, fn_name@)),
        decreases helps.len() - i,
    {
        assert(hv.take(i + 1).drop_last() =~= hv.take(i as int));
        assert(hv.take(i + 1).last() == (helps@[i as int].0@, helps@[i as int].1@));
        proof {
            lemma_insert_bounds_keeps_names(start, fn_name@, hv.take(i as int));
        }
        if insert_lifetime_bound(fns, fn_name, helps[i].0.as_str(), helps[i].1.as_str()) {
            helped = true;
        }
        i = i + 1;
    }
    assert(hv.take(helps.len() as int) =~= hv);
    helped
}

/// Inserts every outlives bound that `stderr` suggests into the signatures
/// named `fn_name`. `records` holds, per record of the stream, its rendered
/// text, or `None` where a record could not be read. Returns whether any
/// bound was inserted.
pub fn repair_bounds_help(stderr: &str, records: &Vec<Option<String>>, fns: &mut Vec<FnSignature>, fn_name: &str) -> (helped: bool)
    ensures
        signatures_view(final(fns)@) == insert_bounds(
            signatures_view(old(fns)@),
            fn_name@,
            bound_helps(stderr@, records_view(records@)),
        ),
        helped == (bound_helps(stderr@, records_view(records@)).len() > 0 && has_named(
            signatures_view(old(fns)@),
            fn_name@,
        )),
{
    let helps = collect_pairs(BOUND_HELP_PATTERN, stderr, records);
    apply_bound_helps(fns, fn_name, &helps)
}

proof fn lemma_insert_bounds_grow(fns: Seq<SignatureView>, name: Seq<char>, pairs: Seq<(Seq<char>, Seq<char>)>)
    ensures
        insert_bounds(fns, name, pairs).len() == fns.len(),
        forall|i: int, b: BoundView|
            0 <= i < fns.len() && fns[i].where_bounds.contains(b) ==> #[trigger] insert_bounds(
                fns,
                name,
                pairs,
            )[i].where_bounds.contains(b),
        forall|i: int, j: int|
            0 <= i < fns.len() && fns[i].name == name && 0 <= j < pairs.len() ==> (#[trigger] insert_bounds(
                fns,
                name,
                pairs,
            )[i]).where_bounds.contains(outlives(#[trigger] pairs[j].0, pairs[j].1)),
    decreases pairs.len(),
{
    if pairs.len() > 0 {
        let prev = insert_bounds(fns, name, pairs.drop_last());
        lemma_insert_bounds_grow(fns, name, pairs.drop_last());
        lemma_insert_bounds_keeps_names(fns, name, pairs.drop_last());
        let last = pairs.last();
        let g = insert_bound(prev, name, last.0, last.1);
        assert forall|i: int, b: BoundView|
            0 <= i < prev.len() && prev[i].where_bounds.contains(b) implies g[i].where_bounds.contains(b) by {
            let k = choose|k: int| 0 <= k < prev[i].where_bounds.len() && prev[i].where_bounds[k] == b;
            if prev[i].name == name {
                assert(g[i].where_bounds[k] == b);
            }
        }
        assert forall|i: int| 0 <= i < prev.len() && prev[i].name == name implies g[i].where_bounds.contains(outlives(last.0, last.1)) by {
            assert(g[i].where_bounds[prev[i].where_bounds.len() as int] == outlives(last.0, last.1));
        }
        assert forall|i: int, j: int|
            0 <= i < fns.len() && fns[i].name == name && 0 <= j < pairs.len() implies (#[trigger] g[i]).where_bounds.contains(outlives(#[trigger] pairs[j].0, pairs[j].1)) by {
            if j < pairs.len() - 1 {
                assert(pairs.drop_last()[j] == pairs[j]);
                assert(prev[i].where_bounds.contains(outlives(pairs.drop_last()[j].0, pairs.drop_last()[j].1)));
            }
        }
    }
}

/// After the bound inserter has applied suggested bounds `'a: 'b` for the
/// function `name`, every signature of that name holds each of them as a
/// where-clause predicate, keeps the predicates it had, and no signature is
/// added, removed or renamed. Applying the same suggestions a second time
/// keeps all of this: the predicates are only repeated.
pub proof fn lemma_bound_insertion_monotone(
    fns: Seq<SignatureView>,
    name: Seq<char>,
    pairs: Seq<(Seq<char>, Seq<char>)>,
)
    ensures
        insert_bounds(fns, name, pairs).len() == fns.len(),
        forall|i: int|
            0 <= i < fns.len() ==> (#[trigger] insert_bounds(fns, name, pairs)[i]).name == fns[i].name,
        forall|i: int, b: BoundView|
            0 <= i < fns.len() && fns[i].where_bounds.contains(b) ==> #[trigger] insert_bounds(
                fns,
                name,
                pairs,
            )[i].where_bounds.contains(b),
        forall|i: int, j: int|
            0 <= i < fns.len() && fns[i].name == name && 0 <= j < pairs.len() ==> (#[trigger] insert_bounds(
                fns,
                name,
                pairs,
            )[i]).where_bounds.contains(outlives(#[trigger] pairs[j].0, pairs[j].1)),
        forall|i: int, j: int|
            0 <= i < fns.len() && fns[i].name == name && 0 <= j < pairs.len() ==> (#[trigger] insert_bounds(
                insert_bounds(fns, name, pairs),
                name,
                pairs,
            )[i]).where_bounds.contains(outlives(#[trigger] pairs[j].0, pairs[j].1)),
{
    lemma_insert_bounds_grow(fns, name, pairs);
    lemma_insert_bounds_keeps_names(fns, name, pairs);
    let once = insert_bounds(fns, name, pairs);
    lemma_insert_bounds_grow(once, name, pairs);
}

} // verus!
