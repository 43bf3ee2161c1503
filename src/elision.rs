//! The lifetime elision pass: drops lifetime parameters that elision can
//! infer, strips their annotations, and renumbers the ones that remain.
use vstd::prelude::*;
use crate::names::{decimal, decimal_string, digit_char};
use crate::signature::{
    cannot_elide, count_in, count_in_sites, in_output, in_where_clause, name_view, sites_view,
    strings_view, usage_count, uses_view, BoundView, FnSignature, LifetimeSite, LifetimeUse,
    LifetimeBound, SignatureView, UseView,
};
use vstd::string::StringExecFns;

verus! {

/// What one elision pass reports.
pub struct ElideLifetimeResult {
    pub success: bool,
    /// Some lifetime parameter survived the pass.
    pub annotations_left: bool,
    /// Some lifetime argument of a generic type was met while renaming.
    pub has_struct_lt: bool,
}

/// A lifetime parameter named `n` survives when the return type needs it,
/// or when the inputs use it and either use it more than once or a
/// where-clause predicate names it. A parameter that only a where-clause
/// names is dropped.
pub open spec fn keeps(sig: SignatureView, n: Seq<char>) -> bool {
    (usage_count(sig, n) > 0 || in_output(sig, n)) && (usage_count(sig, n) > 1 || cannot_elide(
        sig,
        n,
    ))
}

/// The members of `ps` that survive, in order.
pub open spec fn kept_of(sig: SignatureView, ps: Seq<Seq<char>>) -> Seq<Seq<char>>
    decreases ps.len(),
{
    if ps.len() == 0 {
        Seq::empty()
    } else if keeps(sig, ps.last()) {
        kept_of(sig, ps.drop_last()).push(ps.last())
    } else {
        kept_of(sig, ps.drop_last())
    }
}

/// The lifetime parameters that survive, in declaration order.
pub open spec fn survivors(sig: SignatureView) -> Seq<Seq<char>> {
    kept_of(sig, sig.params)
}

/// The canonical name of the `k`-th surviving parameter: `'lt` and `k` in decimal.
pub open spec fn canonical_name(k: nat) -> Seq<char> {
    seq!['\'', 'l', 't'] + decimal(k)
}

/// The inferred lifetime `'_`.
pub open spec fn placeholder() -> Seq<char> {
    seq!['\'', '_']
}

pub open spec fn is_first_index(s: Seq<Seq<char>>, n: Seq<char>, i: int) -> bool {
    0 <= i < s.len() && s[i] == n && forall|j: int| 0 <= j < i ==> s[j] != n
}

/// The new name of `n` when it is a surviving parameter.
pub open spec fn renamed(sig: SignatureView, n: Seq<char>) -> Option<Seq<char>> {
    let s = survivors(sig);
    if s.contains(n) {
        Some(canonical_name((choose|i: int| is_first_index(s, n, i)) as nat))
    } else {
        None
    }
}

pub open spec fn rename_or_keep(sig: SignatureView, n: Seq<char>) -> Seq<char> {
    match renamed(sig, n) {
        Some(m) => m,
        None => n,
    }
}

/// One lifetime position after the pass: where `strip` holds (the inputs
/// and the return type), a reference's lifetime that does not survive is
/// removed; a generic argument that names no surviving parameter becomes
/// `'_`; every surviving parameter is renamed.
pub open spec fn elide_use(sig: SignatureView, u: UseView, strip: bool) -> UseView {
    match u.name {
        None => u,
        Some(n) => match u.site {
            LifetimeSite::Reference => if !strip || keeps(sig, n) {
                UseView { site: u.site, name: Some(rename_or_keep(sig, n)) }
            } else {
                UseView { site: u.site, name: None }
            },
            LifetimeSite::Argument => UseView {
                site: u.site,
                name: Some(
                    match renamed(sig, n) {
                        Some(m) => m,
                        None => placeholder(),
                    },
                ),
            },
            LifetimeSite::Other => UseView { site: u.site, name: Some(rename_or_keep(sig, n)) },
        },
    }
}

pub open spec fn elide_uses(sig: SignatureView, uses: Seq<UseView>, strip: bool) -> Seq<UseView> {
    uses.map_values(|u: UseView| elide_use(sig, u, strip))
}

pub open spec fn elide_sites(sig: SignatureView, sites: Seq<Seq<UseView>>, strip: bool) -> Seq<
    Seq<UseView>,
> {
    sites.map_values(|s: Seq<UseView>| elide_uses(sig, s, strip))
}

pub open spec fn rename_bound(sig: SignatureView, b: BoundView) -> BoundView {
    BoundView {
        lifetime: rename_or_keep(sig, b.lifetime),
        bounds: b.bounds.map_values(|n: Seq<char>| rename_or_keep(sig, n)),
    }
}

/// The signature after one elision pass; one with a receiver is left alone.
/// References keep their lifetimes inside the other generic parameters,
/// which are only renamed.
pub open spec fn elided(sig: SignatureView) -> SignatureView {
    if sig.has_receiver {
        sig
    } else {
        SignatureView {
            name: sig.name,
            params: Seq::new(survivors(sig).len(), |k: int| canonical_name(k as nat)),
            where_bounds: sig.where_bounds.map_values(|b: BoundView| rename_bound(sig, b)),
            has_receiver: false,
            inputs: elide_sites(sig, sig.inputs, true),
            output: elide_uses(sig, sig.output, true),
            type_params: elide_sites(sig, sig.type_params, false),
        }
    }
}

pub open spec fn has_argument_in(uses: Seq<UseView>) -> bool {
    exists|k: int| 0 <= k < uses.len() && #[trigger] uses[k].site == LifetimeSite::Argument
}

pub open spec fn has_argument_in_sites(sites: Seq<Seq<UseView>>) -> bool {
    exists|k: int| 0 <= k < sites.len() && has_argument_in(#[trigger] sites[k])
}

/// Some input, the return type or another generic parameter holds a
/// lifetime argument of a generic type.
pub open spec fn has_struct_lifetime(sig: SignatureView) -> bool {
    has_argument_in_sites(sig.inputs) || has_argument_in(sig.output) || has_argument_in_sites(
        sig.type_params,
    )
}

pub open spec fn cap(x: int) -> int {
    if x > 2 {
        2
    } else {
        x
    }
}

fn count_capped(uses: &Vec<LifetimeUse>, n: &String, acc: usize) -> (r: usize)
    requires
        acc <= 2,
    ensures
        r == cap(acc + count_in(uses_view(uses@), n@)),
{
    let mut r = acc;
    let mut i: usize = 0;
    while i < uses.len()
        invariant
            i <= uses.len(),
            acc <= 2,
            r == cap(acc + count_in(uses_view(uses@).take(i as int), n@)),
        decreases uses.len() - i,
    {
        assert(uses_view(uses@).take(i + 1).drop_last() =~= uses_view(uses@).take(i as int));
        let hit = match &uses[i].name {
            Some(s) => *s == *n,
            None => false,
        };
        if hit && r < 2 {
            r = r + 1;
        }
        i = i + 1;
    }
    assert(uses_view(uses@).take(uses.len() as int) =~= uses_view(uses@));
    r
}

fn count_sites_capped(sites: &Vec<Vec<LifetimeUse>>, n: &String, acc: usize) -> (r: usize)
    requires
        acc <= 2,
    ensures
        r == cap(acc + count_in_sites(sites_view(sites@), n@)),
{
    let mut r = acc;
    let mut i: usize = 0;
    while i < sites.len()
        invariant
            i <= sites.len(),
            acc <= 2,
            r <= 2,
            r == cap(acc + count_in_sites(sites_view(sites@).take(i as int), n@)),
        decreases sites.len() - i,
    {
        assert(sites_view(sites@).take(i + 1).drop_last() =~= sites_view(sites@).take(i as int));
        r = count_capped(&sites[i], n, r);
        i = i + 1;
    }
    assert(sites_view(sites@).take(sites.len() as int) =~= sites_view(sites@));
    r
}

/// `usage_count` of `n`, capped at two.
fn usage_capped(sig: &FnSignature, n: &String) -> (r: usize)
    ensures
        r == cap(usage_count(sig@, n@) as int),
{
    count_sites_capped(&sig.inputs, n, 0)
}

fn strings_contain(v: &Vec<String>, n: &String) -> (r: bool)
    ensures
        r == strings_view(v@).contains(n@),
{
    let mut i: usize = 0;
    while i < v.len()
        invariant
            i <= v.len(),
            forall|j: int| 0 <= j < i ==> strings_view(v@)[j] != n@,
        decreases v.len() - i,
    {
        if v[i] == *n {
            assert(strings_view(v@)[i as int] == n@);
            return true;
        }
        i = i + 1;
    }
    false
}

fn in_where_clause_exec(sig: &FnSignature, n: &String) -> (r: bool)
    ensures
        r == in_where_clause(sig@, n@),
{
    let mut i: usize = 0;
    while i < sig.where_bounds.len()
        invariant
            i <= sig.where_bounds.len(),
            forall|j: int|
                0 <= j < i ==> (#[trigger] sig@.where_bounds[j]).lifetime != n@ && !sig@.where_bounds[j].bounds.contains(n@),
        decreases sig.where_bounds.len() - i,
    {
        let b = &sig.where_bounds[i];
        if b.lifetime == *n || strings_contain(&b.bounds, n) {
            assert(sig@.where_bounds[i as int] == b@);
            return true;
        }
        assert(sig@.where_bounds[i as int] == b@);
        i = i + 1;
    }
    false
}

fn in_output_exec(sig: &FnSignature, n: &String) -> (r: bool)
    ensures
        r == in_output(sig@, n@),
{
    let mut i: usize = 0;
    while i < sig.output.len()
        invariant
            i <= sig.output.len(),
            forall|j: int| 0 <= j < i ==> #[trigger] sig@.output[j].name != Some(n@),
        decreases sig.output.len() - i,
    {
        let hit = match &sig.output[i].name {
            Some(s) => *s == *n,
            None => false,
        };
        if hit {
            assert(sig@.output[i as int].name == Some(n@));
            return true;
        }
        i = i + 1;
    }
    false
}

fn keeps_exec(sig: &FnSignature, n: &String) -> (r: bool)
    ensures
        r == keeps(sig@, n@),
{
    let c = usage_capped(sig, n);
    let out = in_output_exec(sig, n);
    if c == 0 && !out {
        false
    } else if c > 1 || out {
        true
    } else {
        in_where_clause_exec(sig, n)
    }
}

fn survivors_exec(sig: &FnSignature) -> (r: Vec<String>)
    ensures
        strings_view(r@) == survivors(sig@),
{
    let ghost params = sig@.params;
    let mut r: Vec<String> = Vec::new();
    let mut i: usize = 0;
    while i < sig.lifetime_params.len()
        invariant
            i <= sig.lifetime_params.len(),
            params == sig@.params,
            strings_view(r@) == kept_of(sig@, params.take(i as int)),
        decreases sig.lifetime_params.len() - i,
    {
        assert(params.take(i + 1).drop_last() =~= params.take(i as int));
        assert(params.take(i + 1).last() == sig.lifetime_params@[i as int]@);
        if keeps_exec(sig, &sig.lifetime_params[i]) {
            r.push(sig.lifetime_params[i].clone());
            assert(strings_view(r@) =~= kept_of(sig@, params.take(i as int)).push(
                sig.lifetime_params@[i as int]@,
            ));
        }
        i = i + 1;
    }
    assert(params.take(sig.lifetime_params.len() as int) =~= params);
    r
}

proof fn lemma_first_index_unique(s: Seq<Seq<char>>, n: Seq<char>, i: int, j: int)
    requires
        is_first_index(s, n, i),
        is_first_index(s, n, j),
    ensures
        i == j,
{
}

/// `'lt` followed by `k` in decimal.
fn canonical_string(k: usize) -> (r: String)
    ensures
        r@ == canonical_name(k as nat),
{
    proof {
        reveal_strlit("'lt");
    }
    let mut s = String::from_str("'lt");
    let d = decimal_string(k);
    s.append(d.as_str());
    s
}

/// The new name of `n`, given the survivors of `sig`.
fn renamed_exec(sig: &FnSignature, surv: &Vec<String>, n: &String) -> (r: Option<String>)
    requires
        strings_view(surv@) == survivors(sig@),
    ensures
        name_view(r) == renamed(sig@, n@),
{
    let ghost s = survivors(sig@);
    let mut i: usize = 0;
    while i < surv.len()
        invariant
            i <= surv.len(),
            s == strings_view(surv@),
            s == survivors(sig@),
            forall|j: int| 0 <= j < i ==> s[j] != n@,
        decreases surv.len() - i,
    {
        if surv[i] == *n {
            proof {
                assert(is_first_index(s, n@, i as int));
                assert(s.contains(n@));
                let c = choose|c: int| is_first_index(s, n@, c);
                assert(is_first_index(s, n@, c));
                lemma_first_index_unique(s, n@, i as int, c);
                assert(renamed(sig@, n@) == Some(canonical_name(i as nat)));
            }
            return Some(canonical_string(i));
        }
        i = i + 1;
    }
    assert(!s.contains(n@));
    None
}

fn rename_or_keep_exec(sig: &FnSignature, surv: &Vec<String>, n: &String) -> (r: String)
    requires
        strings_view(surv@) == survivors(sig@),
    ensures
        r@ == rename_or_keep(sig@, n@),
{
    match renamed_exec(sig, surv, n) {
        Some(m) => m,
        None => n.clone(),
    }
}

fn elide_use_exec(sig: &FnSignature, surv: &Vec<String>, u: &LifetimeUse, strip: bool) -> (r:
    LifetimeUse)
    requires
        strings_view(surv@) == survivors(sig@),
    ensures
        r@ == elide_use(sig@, u@, strip),
{
    match &u.name {
        None => LifetimeUse { site: u.site, name: None },
        Some(n) => match u.site {
            LifetimeSite::Reference => {
                if !strip || keeps_exec(sig, n) {
                    LifetimeUse { site: u.site, name: Some(rename_or_keep_exec(sig, surv, n)) }
                } else {
                    LifetimeUse { site: u.site, name: None }
                }
            },
            LifetimeSite::Argument => {
                let m = match renamed_exec(sig, surv, n) {
                    Some(m) => m,
                    None => {
                        proof {
                            reveal_strlit("'_");
                        }
                        let p = String::from_str("'_");
                        assert(p@ == placeholder());
                        p
                    },
                };
                LifetimeUse { site: u.site, name: Some(m) }
            },
            LifetimeSite::Other => LifetimeUse {
                site: u.site,
                name: Some(rename_or_keep_exec(sig, surv, n)),
            },
        },
    }
}

fn elide_uses_exec(
    sig: &FnSignature,
    surv: &Vec<String>,
    uses: &Vec<LifetimeUse>,
    strip: bool,
) -> (r: Vec<LifetimeUse>)
    requires
        strings_view(surv@) == survivors(sig@),
    ensures
        uses_view(r@) == elide_uses(sig@, uses_view(uses@), strip),
{
    let mut r: Vec<LifetimeUse> = Vec::new();
    let mut i: usize = 0;
    while i < uses.len()
        invariant
            i <= uses.len(),
            strings_view(surv@) == survivors(sig@),
            uses_view(r@) == elide_uses(sig@, uses_view(uses@).take(i as int), strip),
        decreases uses.len() - i,
    {
        let e = elide_use_exec(sig, surv, &uses[i], strip);
        let ghost prev = uses_view(r@);
        r.push(e);
        assert(uses_view(r@) =~= prev.push(e@));
        assert(uses_view(uses@).take(i + 1) =~= uses_view(uses@).take(i as int).push(uses[i as int]@));
        assert(uses_view(r@) =~= elide_uses(sig@, uses_view(uses@).take(i + 1), strip));
        i = i + 1;
    }
    assert(uses_view(uses@).take(uses.len() as int) =~= uses_view(uses@));
    r
}

fn elide_sites_exec(
    sig: &FnSignature,
    surv: &Vec<String>,
    sites: &Vec<Vec<LifetimeUse>>,
    strip: bool,
) -> (r: Vec<Vec<LifetimeUse>>)
    requires
        strings_view(surv@) == survivors(sig@),
    ensures
        sites_view(r@) == elide_sites(sig@, sites_view(sites@), strip),
{
    let mut r: Vec<Vec<LifetimeUse>> = Vec::new();
    let mut i: usize = 0;
    while i < sites.len()
        invariant
            i <= sites.len(),
            strings_view(surv@) == survivors(sig@),
            sites_view(r@) == elide_sites(sig@, sites_view(sites@).take(i as int), strip),
        decreases sites.len() - i,
    {
        let e = elide_uses_exec(sig, surv, &sites[i], strip);
        let ghost prev = sites_view(r@);
        r.push(e);
        assert(sites_view(r@) =~= prev.push(uses_view(e@)));
        assert(sites_view(sites@).take(i + 1) =~= sites_view(sites@).take(i as int).push(uses_view(sites[i as int]@)));
        assert(sites_view(r@) =~= elide_sites(sig@, sites_view(sites@).take(i + 1), strip));
        i = i + 1;
    }
    assert(sites_view(sites@).take(sites.len() as int) =~= sites_view(sites@));
    r
}

fn rename_bound_exec(sig: &FnSignature, surv: &Vec<String>, b: &LifetimeBound) -> (r:
    LifetimeBound)
    requires
        strings_view(surv@) == survivors(sig@),
    ensures
        r@ == rename_bound(sig@, b@),
{
    let lifetime = rename_or_keep_exec(sig, surv, &b.lifetime);
    let mut bounds: Vec<String> = Vec::new();
    let mut i: usize = 0;
    while i < b.bounds.len()
        invariant
            i <= b.bounds.len(),
            strings_view(surv@) == survivors(sig@),
            strings_view(bounds@) == strings_view(b.bounds@).take(i as int).map_values(
                |n: Seq<char>| rename_or_keep(sig@, n),
            ),
        decreases b.bounds.len() - i,
    {
        let m = rename_or_keep_exec(sig, surv, &b.bounds[i]);
        let ghost prev = strings_view(bounds@);
        bounds.push(m);
        assert(strings_view(bounds@) =~= prev.push(m@));
        assert(strings_view(b.bounds@).take(i + 1) =~= strings_view(b.bounds@).take(i as int).push(
            b.bounds@[i as int]@,
        ));
        assert(strings_view(bounds@) =~= strings_view(b.bounds@).take(i + 1).map_values(
            |n: Seq<char>| rename_or_keep(sig@, n),
        ));
        i = i + 1;
    }
    assert(strings_view(b.bounds@).take(b.bounds.len() as int) =~= strings_view(b.bounds@));
    let r = LifetimeBound { lifetime, bounds };
    assert(r@.bounds =~= rename_bound(sig@, b@).bounds);
    r
}

pub open spec fn bounds_view(v: Seq<LifetimeBound>) -> Seq<BoundView> {
    v.map_values(|b: LifetimeBound| b@)
}

fn rename_bounds_exec(sig: &FnSignature, surv: &Vec<String>) -> (r: Vec<LifetimeBound>)
    requires
        strings_view(surv@) == survivors(sig@),
    ensures
        bounds_view(r@) == sig@.where_bounds.map_values(|b: BoundView| rename_bound(sig@, b)),
{
    let ghost wb = sig@.where_bounds;
    let mut r: Vec<LifetimeBound> = Vec::new();
    let mut i: usize = 0;
    while i < sig.where_bounds.len()
        invariant
            i <= sig.where_bounds.len(),
            wb == sig@.where_bounds,
            wb == bounds_view(sig.where_bounds@),
            strings_view(surv@) == survivors(sig@),
            bounds_view(r@) == wb.take(i as int).map_values(|b: BoundView| rename_bound(sig@, b)),
        decreases sig.where_bounds.len() - i,
    {
        let e = rename_bound_exec(sig, surv, &sig.where_bounds[i]);
        let ghost prev = bounds_view(r@);
        r.push(e);
        assert(bounds_view(r@) =~= prev.push(e@));
        assert(wb.take(i + 1) =~= wb.take(i as int).push(sig.where_bounds@[i as int]@));
        assert(bounds_view(r@) =~= wb.take(i + 1).map_values(
            |b: BoundView| rename_bound(sig@, b),
        ));
        i = i + 1;
    }
    assert(wb.take(sig.where_bounds.len() as int) =~= wb);
    r
}

/// `'lt0`, `'lt1`, ... up to `n` names.
fn canonical_params(n: usize) -> (r: Vec<String>)
    ensures
        strings_view(r@) == Seq::new(n as nat, |k: int| canonical_name(k as nat)),
{
    let mut r: Vec<String> = Vec::new();
    let mut k: usize = 0;
    while k < n
        invariant
            k <= n,
            strings_view(r@) == Seq::new(k as nat, |j: int| canonical_name(j as nat)),
        decreases n - k,
    {
        let c = canonical_string(k);
        let ghost prev = strings_view(r@);
        r.push(c);
        assert(strings_view(r@) =~= prev.push(c@));
        assert(strings_view(r@) =~= Seq::new((k + 1) as nat, |j: int| canonical_name(j as nat)));
        k = k + 1;
    }
    r
}

fn has_argument_exec(uses: &Vec<LifetimeUse>) -> (r: bool)
    ensures
        r == has_argument_in(uses_view(uses@)),
{
    let mut i: usize = 0;
    while i < uses.len()
        invariant
            i <= uses.len(),
            forall|j: int| 0 <= j < i ==> (#[trigger] uses_view(uses@)[j]).site != LifetimeSite::Argument,
        decreases uses.len() - i,
    {
        if uses[i].site == LifetimeSite::Argument {
            assert(uses_view(uses@)[i as int].site == LifetimeSite::Argument);
            return true;
        }
        assert(uses_view(uses@)[i as int].site != LifetimeSite::Argument);
        i = i + 1;
    }
    false
}

fn has_argument_sites_exec(sites: &Vec<Vec<LifetimeUse>>) -> (r: bool)
    ensures
        r == has_argument_in_sites(sites_view(sites@)),
{
    let mut i: usize = 0;
    while i < sites.len()
        invariant
            i <= sites.len(),
            forall|j: int| 0 <= j < i ==> !has_argument_in(#[trigger] sites_view(sites@)[j]),
        decreases sites.len() - i,
    {
        if has_argument_exec(&sites[i]) {
            assert(has_argument_in(sites_view(sites@)[i as int]));
            return true;
        }
        assert(!has_argument_in(sites_view(sites@)[i as int]));
        i = i + 1;
    }
    false
}

/// One elision pass over one signature.
pub fn elide_signature(sig: &mut FnSignature) -> (r: ElideLifetimeResult)
    ensures
        final(sig)@ == elided(old(sig)@),
        r.success,
        r.annotations_left == (!old(sig).has_receiver && survivors(old(sig)@).len() > 0),
        r.has_struct_lt == (!old(sig).has_receiver && has_struct_lifetime(old(sig)@)),
{
    if sig.has_receiver {
        return ElideLifetimeResult { success: true, annotations_left: false, has_struct_lt: false };
    }
    let surv = survivors_exec(sig);
    let has_struct_lt = has_argument_sites_exec(&sig.inputs) || has_argument_exec(&sig.output)
        || has_argument_sites_exec(&sig.type_params);
    let params = canonical_params(surv.len());
    let where_bounds = rename_bounds_exec(sig, &surv);
    let inputs = elide_sites_exec(sig, &surv, &sig.inputs, true);
    let output = elide_uses_exec(sig, &surv, &sig.output, true);
    let type_params = elide_sites_exec(sig, &surv, &sig.type_params, false);
    sig.lifetime_params = params;
    sig.where_bounds = where_bounds;
    sig.inputs = inputs;
    sig.output = output;
    sig.type_params = type_params;
    assert(final(sig)@.where_bounds =~= elided(old(sig)@).where_bounds);
    ElideLifetimeResult { success: true, annotations_left: surv.len() > 0, has_struct_lt }
}

pub open spec fn signatures_view(v: Seq<FnSignature>) -> Seq<SignatureView> {
    v.map_values(|f: FnSignature| f@)
}

/// Each signature named `name` after one elision pass; the others as they were.
pub open spec fn elided_named(fns: Seq<SignatureView>, name: Seq<char>) -> Seq<SignatureView> {
    fns.map_values(|f: SignatureView| if f.name == name { elided(f) } else { f })
}

/// Elides the lifetimes of every function, method and trait method named
/// `fn_name`; the flags report whether any of them kept a lifetime parameter
/// or met a lifetime argument of a generic type.
pub fn elide_lifetimes_annotations(fns: &mut Vec<FnSignature>, fn_name: &str) -> (r:
    ElideLifetimeResult)
    ensures
        signatures_view(final(fns)@) == elided_named(signatures_view(old(fns)@), fn_name@),
        r.success,
        r.annotations_left == exists|i: int|
            0 <= i < old(fns)@.len() && (#[trigger] old(fns)@[i])@.name == fn_name@
                && !old(fns)@[i].has_receiver && survivors(old(fns)@[i]@).len() > 0,
        r.has_struct_lt == exists|i: int|
            0 <= i < old(fns)@.len() && (#[trigger] old(fns)@[i])@.name == fn_name@
                && !old(fns)@[i].has_receiver && has_struct_lifetime(old(fns)@[i]@),
{
    let ghost before = old(fns)@;
    let mut out: Vec<FnSignature> = Vec::new();
    let mut annotations_left = false;
    let mut has_struct_lt = false;
    let target = String::from_str(fn_name);
    let n: usize = fns.len();
    let mut i: usize = 0;
    while i < n
        invariant
            i + fns@.len() == before.len(),
            n == before.len(),
            target@ == fn_name@,
            fns@ == before.skip(i as int),
            signatures_view(out@) == elided_named(signatures_view(before.take(i as int)), fn_name@),
            annotations_left == exists|j: int|
                0 <= j < i && (#[trigger] before[j])@.name == fn_name@ && !before[j].has_receiver
                    && survivors(before[j]@).len() > 0,
            has_struct_lt == exists|j: int|
                0 <= j < i && (#[trigger] before[j])@.name == fn_name@ && !before[j].has_receiver
                    && has_struct_lifetime(before[j]@),
        decreases fns@.len(),
    {
        let mut f = fns.remove(0);
        assert(f == before[i as int]);
        assert(fns@ =~= before.skip(i + 1));
        let ghost prev = signatures_view(out@);
        if f.name == target {
            let res = elide_signature(&mut f);
            annotations_left = annotations_left || res.annotations_left;
            has_struct_lt = has_struct_lt || res.has_struct_lt;
        }
        out.push(f);
        assert(signatures_view(out@) =~= prev.push(f@));
        assert(before.take(i + 1) =~= before.take(i as int).push(before[i as int]));
        assert(signatures_view(out@) =~= elided_named(
            signatures_view(before.take(i + 1)),
            fn_name@,
        ));
        i = i + 1;
    }
    assert(before.take(i as int) =~= before);
    *fns = out;
    ElideLifetimeResult { success: true, annotations_left, has_struct_lt }
}

proof fn lemma_kept_of(sig: SignatureView, ps: Seq<Seq<char>>)
    ensures
        forall|n: Seq<char>| #[trigger] kept_of(sig, ps).contains(n) <==> (ps.contains(n) && keeps(sig, n)),
    decreases ps.len(),
{
    if ps.len() > 0 {
        let prev = ps.drop_last();
        lemma_kept_of(sig, prev);
        assert forall|n: Seq<char>| #[trigger] kept_of(sig, ps).contains(n) <==> (ps.contains(n) && keeps(sig, n)) by {
            if ps.contains(n) && keeps(sig, n) {
                let k = choose|k: int| 0 <= k < ps.len() && ps[k] == n;
                let kp = kept_of(sig, prev);
                if keeps(sig, ps.last()) {
                    assert(kept_of(sig, ps) == kp.push(ps.last()));
                } else {
                    assert(kept_of(sig, ps) == kp);
                }
                if k < ps.len() - 1 {
                    assert(prev[k] == n);
                    assert(prev.contains(n));
                    assert(kp.contains(n));
                    let j = choose|j: int| 0 <= j < kp.len() && kp[j] == n;
                    assert(kept_of(sig, ps)[j] == n);
                } else {
                    assert(kept_of(sig, ps) == kept_of(sig, prev).push(n));
                    assert(kept_of(sig, ps)[kept_of(sig, prev).len() as int] == n);
                }
            }
            if kept_of(sig, ps).contains(n) {
                let kp = kept_of(sig, prev);
                let k = choose|k: int| 0 <= k < kept_of(sig, ps).len() && kept_of(sig, ps)[k] == n;
                if keeps(sig, ps.last()) {
                    assert(kept_of(sig, ps) == kp.push(ps.last()));
                } else {
                    assert(kept_of(sig, ps) == kp);
                }
                if k < kp.len() {
                    assert(kp[k] == n);
                    assert(kp.contains(n));
                    let j = choose|j: int| 0 <= j < prev.len() && prev[j] == n;
                    assert(ps[j] == n);
                } else {
                    assert(n == ps.last());
                    assert(ps[ps.len() - 1] == n);
                }
            }
        }
    }
}

/// Soundness of one pass on a signature without a receiver. Every lifetime
/// parameter that survives is used at least twice among the typed inputs,
/// or appears in the return type, or in a where-clause predicate. Every
/// declared parameter that is dropped, unless a where-clause names it while
/// no input uses it, is used at most once among the inputs and appears
/// neither in the return type nor in a where-clause predicate. A reference
/// in an input loses its lifetime exactly when that lifetime is used at most
/// once among the inputs and appears neither in the return type nor in a
/// where-clause predicate. The survivors become the new parameters.
pub proof fn lemma_elision_sound(sig: SignatureView)
    requires
        !sig.has_receiver,
    ensures
        elided(sig).params.len() == survivors(sig).len(),
        forall|n: Seq<char>|
            #[trigger] survivors(sig).contains(n) ==> sig.params.contains(n) && (usage_count(sig, n)
                >= 2 || in_output(sig, n) || in_where_clause(sig, n)),
        forall|n: Seq<char>|
            sig.params.contains(n) && !(#[trigger] survivors(sig).contains(n)) && !(in_where_clause(
                sig,
                n,
            ) && usage_count(sig, n) == 0) ==> usage_count(sig, n) <= 1 && !in_output(sig, n)
                && !in_where_clause(sig, n),
        forall|i: int, k: int|
            0 <= i < sig.inputs.len() && 0 <= k < sig.inputs[i].len() && sig.inputs[i][k].site
                == LifetimeSite::Reference && sig.inputs[i][k].name is Some ==> ((
            #[trigger] elided(sig).inputs[i][k]).name is None <==> (usage_count(
                sig,
                sig.inputs[i][k].name->0,
            ) <= 1 && !cannot_elide(sig, sig.inputs[i][k].name->0))),
{
    lemma_kept_of(sig, sig.params);
    assert forall|i: int, k: int|
        0 <= i < sig.inputs.len() && 0 <= k < sig.inputs[i].len() && sig.inputs[i][k].site
            == LifetimeSite::Reference && sig.inputs[i][k].name is Some implies ((
        #[trigger] elided(sig).inputs[i][k]).name is None <==> (usage_count(
            sig,
            sig.inputs[i][k].name->0,
        ) <= 1 && !cannot_elide(sig, sig.inputs[i][k].name->0))) by {
        let n = sig.inputs[i][k].name->0;
        lemma_count_sites_positive(sig.inputs, n, i, k);
        assert(elided(sig).inputs[i][k] == elide_use(sig, sig.inputs[i][k], true));
    }
}

proof fn lemma_count_positive(uses: Seq<UseView>, n: Seq<char>, k: int)
    requires
        0 <= k < uses.len(),
        uses[k].name == Some(n),
    ensures
        count_in(uses, n) > 0,
    decreases uses.len(),
{
    if k < uses.len() - 1 {
        assert(uses.drop_last()[k] == uses[k]);
        lemma_count_positive(uses.drop_last(), n, k);
    }
}

proof fn lemma_count_sites_positive(sites: Seq<Seq<UseView>>, n: Seq<char>, i: int, k: int)
    requires
        0 <= i < sites.len(),
        0 <= k < sites[i].len(),
        sites[i][k].name == Some(n),
    ensures
        count_in_sites(sites, n) > 0,
    decreases sites.len(),
{
    if i < sites.len() - 1 {
        assert(sites.drop_last()[i] == sites[i]);
        lemma_count_sites_positive(sites.drop_last(), n, i, k);
    } else {
        lemma_count_positive(sites[i], n, k);
    }
}

proof fn lemma_decimal_len(n: nat)
    ensures
        decimal(n).len() >= 1,
        n >= 10 ==> decimal(n).len() >= 2,
    decreases n,
{
    if n >= 10 {
        lemma_decimal_len(n / 10);
    }
}

proof fn lemma_decimal_injective(a: nat, b: nat)
    requires
        decimal(a) == decimal(b),
    ensures
        a == b,
    decreases a + b,
{
    lemma_decimal_len(a);
    lemma_decimal_len(b);
    if a >= 10 && b >= 10 {
        assert(decimal(a) == decimal(a / 10).push(digit_char(a % 10)));
        assert(decimal(b) == decimal(b / 10).push(digit_char(b % 10)));
        assert(decimal(a).last() == decimal(b).last());
        assert(decimal(a).last() == digit_char((a % 10) as nat));
        assert(decimal(b).last() == digit_char((b % 10) as nat));
        lemma_digit_char_injective((a % 10) as nat, (b % 10) as nat);
        assert(decimal(a).drop_last() =~= decimal(a / 10));
        assert(decimal(b).drop_last() =~= decimal(b / 10));
        lemma_decimal_injective(a / 10, b / 10);
        assert(a == (a / 10) * 10 + a % 10);
        assert(b == (b / 10) * 10 + b % 10);
    } else if a < 10 && b < 10 {
        assert(decimal(a) == seq![digit_char(a)]);
        assert(decimal(b) == seq![digit_char(b)]);
        assert(decimal(a)[0] == decimal(b)[0]);
        assert(seq![digit_char(a)][0] == digit_char(a));
        assert(seq![digit_char(b)][0] == digit_char(b));
        assert(digit_char(a) == digit_char(b));
        lemma_digit_char_injective(a, b);
    }
}

proof fn lemma_digit_char_injective(x: nat, y: nat)
    requires
        x < 10,
        y < 10,
        digit_char(x) == digit_char(y),
    ensures
        x == y,
{
}

proof fn lemma_first_index_exists(s: Seq<Seq<char>>, n: Seq<char>)
    requires
        s.contains(n),
    ensures
        exists|i: int| is_first_index(s, n, i),
    decreases s.len(),
{
    let prev = s.drop_last();
    if prev.contains(n) {
        lemma_first_index_exists(prev, n);
        let i = choose|i: int| is_first_index(prev, n, i);
        assert forall|j: int| 0 <= j < i implies s[j] != n by {
            assert(prev[j] == s[j]);
        }
        assert(is_first_index(s, n, i));
    } else {
        assert forall|j: int| 0 <= j < s.len() - 1 implies s[j] != n by {
            assert(prev[j] == s[j]);
        }
        assert(is_first_index(s, n, s.len() - 1));
    }
}

proof fn lemma_canonical_injective(a: nat, b: nat)
    requires
        canonical_name(a) == canonical_name(b),
    ensures
        a == b,
{
    assert(canonical_name(a).subrange(3, canonical_name(a).len() as int) =~= decimal(a));
    assert(canonical_name(b).subrange(3, canonical_name(b).len() as int) =~= decimal(b));
    lemma_decimal_injective(a, b);
}

proof fn lemma_placeholder_not_canonical(k: nat)
    ensures
        canonical_name(k) != placeholder(),
{
    assert(canonical_name(k)[1] == 'l');
}

pub open spec fn no_duplicates(s: Seq<Seq<char>>) -> bool {
    forall|i: int, j: int| 0 <= i < j < s.len() ==> s[i] != s[j]
}

/// `survivors(sig)` renamed: the `i`-th survivor becomes `'lt<i>`.
proof fn lemma_renamed_survivor(sig: SignatureView, i: int)
    requires
        no_duplicates(survivors(sig)),
        0 <= i < survivors(sig).len(),
    ensures
        renamed(sig, survivors(sig)[i]) == Some(canonical_name(i as nat)),
{
    let sv = survivors(sig);
    let n = sv[i];
    assert(is_first_index(sv, n, i));
    assert(sv.contains(n));
    let c = choose|c: int| is_first_index(sv, n, c);
    assert(is_first_index(sv, n, c));
    lemma_first_index_unique(sv, n, i, c);
}

/// Every use of `n` in `us` becomes a use of `m` where references are stripped.
pub open spec fn carries(sig: SignatureView, us: Seq<UseView>, n: Seq<char>, m: Seq<char>) -> bool {
    forall|k: int|
        0 <= k < us.len() && us[k].name == Some(n) ==> (#[trigger] elide_use(sig, us[k], true)).name
            == Some(m)
}

pub open spec fn carries_sites(sig: SignatureView, sites: Seq<Seq<UseView>>, n: Seq<char>, m: Seq<char>) -> bool {
    forall|i: int| 0 <= i < sites.len() ==> carries(sig, #[trigger] sites[i], n, m)
}

proof fn lemma_count_carried(sig: SignatureView, us: Seq<UseView>, n: Seq<char>, m: Seq<char>)
    requires
        carries(sig, us, n, m),
    ensures
        count_in(elide_uses(sig, us, true), m) >= count_in(us, n),
    decreases us.len(),
{
    if us.len() > 0 {
        let prev = us.drop_last();
        assert forall|k: int| 0 <= k < prev.len() && prev[k].name == Some(n) implies (#[trigger] elide_use(sig, prev[k], true)).name == Some(m) by {
            assert(prev[k] == us[k]);
        }
        lemma_count_carried(sig, prev, n, m);
        assert(elide_uses(sig, us, true).drop_last() =~= elide_uses(sig, prev, true));
        assert(elide_uses(sig, us, true).last() == elide_use(sig, us[us.len() - 1], true));
    }
}

proof fn lemma_count_sites_carried(sig: SignatureView, sites: Seq<Seq<UseView>>, n: Seq<char>, m: Seq<char>)
    requires
        carries_sites(sig, sites, n, m),
    ensures
        count_in_sites(elide_sites(sig, sites, true), m) >= count_in_sites(sites, n),
    decreases sites.len(),
{
    if sites.len() > 0 {
        let prev = sites.drop_last();
        assert forall|i: int| 0 <= i < prev.len() implies carries(sig, #[trigger] prev[i], n, m) by {
            assert(prev[i] == sites[i]);
        }
        lemma_count_sites_carried(sig, prev, n, m);
        assert(elide_sites(sig, sites, true).drop_last() =~= elide_sites(sig, prev, true));
        assert(carries(sig, sites[sites.len() - 1], n, m));
        lemma_count_carried(sig, sites.last(), n, m);
    }
}

/// How many positions of `us` name `n` outside a generic argument.
pub open spec fn count_plain(us: Seq<UseView>, n: Seq<char>) -> nat
    decreases us.len(),
{
    if us.len() == 0 {
        0
    } else {
        count_plain(us.drop_last(), n) + if us.last().name == Some(n) && us.last().site
            != LifetimeSite::Argument {
            1nat
        } else {
            0nat
        }
    }
}

pub open spec fn count_plain_sites(sites: Seq<Seq<UseView>>, n: Seq<char>) -> nat
    decreases sites.len(),
{
    if sites.len() == 0 {
        0
    } else {
        count_plain_sites(sites.drop_last(), n) + count_plain(sites.last(), n)
    }
}

/// `n` appears in the return type outside a generic argument.
pub open spec fn in_output_plain(sig: SignatureView, n: Seq<char>) -> bool {
    exists|k: int|
        0 <= k < sig.output.len() && #[trigger] sig.output[k].name == Some(n)
            && sig.output[k].site != LifetimeSite::Argument
}

/// A name that survives elision without being a declared parameter, other
/// than `'_`, would still survive if its uses as generic arguments, which
/// the pass turns into `'_`, were not counted.
pub open spec fn kept_names_stay_kept(sig: SignatureView) -> bool {
    forall|n: Seq<char>|
        #[trigger] keeps(sig, n) && !sig.params.contains(n) && n != placeholder() ==> (
        count_plain_sites(sig.inputs, n) > 0 || in_output_plain(sig, n)) && (count_plain_sites(
            sig.inputs,
            n,
        ) > 1 || in_where_clause(sig, n) || in_output_plain(sig, n))
}

/// Every use of `n` outside a generic argument becomes a use of `m`.
pub open spec fn carries_plain(sig: SignatureView, us: Seq<UseView>, n: Seq<char>, m: Seq<char>) -> bool {
    forall|k: int|
        0 <= k < us.len() && us[k].name == Some(n) && us[k].site != LifetimeSite::Argument ==> (
        #[trigger] elide_use(sig, us[k], true)).name == Some(m)
}

proof fn lemma_count_plain_carried(sig: SignatureView, us: Seq<UseView>, n: Seq<char>, m: Seq<char>)
    requires
        carries_plain(sig, us, n, m),
    ensures
        count_in(elide_uses(sig, us, true), m) >= count_plain(us, n),
    decreases us.len(),
{
    if us.len() > 0 {
        let prev = us.drop_last();
        assert forall|k: int| 0 <= k < prev.len() && prev[k].name == Some(n) && prev[k].site != LifetimeSite::Argument implies (#[trigger] elide_use(sig, prev[k], true)).name == Some(m) by {
            assert(prev[k] == us[k]);
        }
        lemma_count_plain_carried(sig, prev, n, m);
        assert(elide_uses(sig, us, true).drop_last() =~= elide_uses(sig, prev, true));
        assert(elide_uses(sig, us, true).last() == elide_use(sig, us[us.len() - 1], true));
    }
}

proof fn lemma_count_plain_sites_carried(sig: SignatureView, sites: Seq<Seq<UseView>>, n: Seq<char>, m: Seq<char>)
    requires
        forall|i: int| 0 <= i < sites.len() ==> carries_plain(sig, #[trigger] sites[i], n, m),
    ensures
        count_in_sites(elide_sites(sig, sites, true), m) >= count_plain_sites(sites, n),
    decreases sites.len(),
{
    if sites.len() > 0 {
        let prev = sites.drop_last();
        assert forall|i: int| 0 <= i < prev.len() implies carries_plain(sig, #[trigger] prev[i], n, m) by {
            assert(prev[i] == sites[i]);
        }
        lemma_count_plain_sites_carried(sig, prev, n, m);
        assert(elide_sites(sig, sites, true).drop_last() =~= elide_sites(sig, prev, true));
        assert(carries_plain(sig, sites[sites.len() - 1], n, m));
        lemma_count_plain_carried(sig, sites.last(), n, m);
    }
}

/// A kept name carries its plain uses over unchanged when it is no survivor.
proof fn lemma_carries_plain_kept(sig: SignatureView, us: Seq<UseView>, n: Seq<char>)
    requires
        keeps(sig, n),
        !survivors(sig).contains(n),
    ensures
        carries_plain(sig, us, n, n),
{
    assert(rename_or_keep(sig, n) == n);
}

proof fn lemma_carries_kept(sig: SignatureView, us: Seq<UseView>, n: Seq<char>)
    requires
        keeps(sig, n),
        survivors(sig).contains(n) || n == placeholder(),
    ensures
        carries(sig, us, n, rename_or_keep(sig, n)),
{
}

proof fn lemma_carries_sites_kept(sig: SignatureView, sites: Seq<Seq<UseView>>, n: Seq<char>)
    requires
        keeps(sig, n),
        survivors(sig).contains(n) || n == placeholder(),
    ensures
        carries_sites(sig, sites, n, rename_or_keep(sig, n)),
{
    assert forall|i: int| 0 <= i < sites.len() implies carries(sig, #[trigger] sites[i], n, rename_or_keep(sig, n)) by {
        lemma_carries_kept(sig, sites[i], n);
    }
}

/// A name that the pass keeps is, under its new name, kept by a second pass.
proof fn lemma_keeps_after(sig: SignatureView, n: Seq<char>)
    requires
        !sig.has_receiver,
        kept_names_stay_kept(sig),
        keeps(sig, n),
    ensures
        keeps(elided(sig), rename_or_keep(sig, n)),
{
    let t = elided(sig);
    let m = rename_or_keep(sig, n);
    lemma_kept_of(sig, sig.params);
    if survivors(sig).contains(n) || n == placeholder() {
        lemma_carries_sites_kept(sig, sig.inputs, n);
        lemma_carries_kept(sig, sig.output, n);
        lemma_count_sites_carried(sig, sig.inputs, n, m);
        if in_output(sig, n) {
            let k = choose|k: int| 0 <= k < sig.output.len() && #[trigger] sig.output[k].name == Some(n);
            assert(t.output[k] == elide_use(sig, sig.output[k], true));
            assert(t.output[k].name == Some(m));
        }
    } else {
        assert(!sig.params.contains(n));
        assert(m == n);
        assert forall|i: int| 0 <= i < sig.inputs.len() implies carries_plain(sig, #[trigger] sig.inputs[i], n, n) by {
            lemma_carries_plain_kept(sig, sig.inputs[i], n);
        }
        lemma_count_plain_sites_carried(sig, sig.inputs, n, n);
        if in_output_plain(sig, n) {
            let k = choose|k: int|
                0 <= k < sig.output.len() && #[trigger] sig.output[k].name == Some(n)
                    && sig.output[k].site != LifetimeSite::Argument;
            assert(t.output[k] == elide_use(sig, sig.output[k], true));
            assert(t.output[k].name == Some(m));
        }
    }
    if in_where_clause(sig, n) {
        let i = choose|i: int|
            0 <= i < sig.where_bounds.len() && ((#[trigger] sig.where_bounds[i]).lifetime == n
                || sig.where_bounds[i].bounds.contains(n));
        let b = sig.where_bounds[i];
        assert(t.where_bounds[i] == rename_bound(sig, b));
        if b.lifetime != n {
            let j = choose|j: int| 0 <= j < b.bounds.len() && b.bounds[j] == n;
            assert(rename_bound(sig, b).bounds[j] == m);
            assert(t.where_bounds[i].bounds.contains(m));
        }
    }
}

proof fn lemma_kept_of_all(sig: SignatureView, ps: Seq<Seq<char>>)
    requires
        forall|i: int| 0 <= i < ps.len() ==> keeps(sig, #[trigger] ps[i]),
    ensures
        kept_of(sig, ps) == ps,
    decreases ps.len(),
{
    if ps.len() > 0 {
        let prev = ps.drop_last();
        assert forall|i: int| 0 <= i < prev.len() implies keeps(sig, #[trigger] prev[i]) by {
            assert(prev[i] == ps[i]);
        }
        lemma_kept_of_all(sig, prev);
        assert(keeps(sig, ps[ps.len() - 1]));
        assert(prev.push(ps.last()) =~= ps);
    }
}

/// After one pass the survivors are exactly the new parameters, and a second
/// pass renames nothing.
proof fn lemma_second_pass_renames_nothing(sig: SignatureView)
    requires
        !sig.has_receiver,
        no_duplicates(survivors(sig)),
        kept_names_stay_kept(sig),
    ensures
        survivors(elided(sig)) == elided(sig).params,
        forall|n: Seq<char>| #[trigger] rename_or_keep(elided(sig), n) == n,
        forall|n: Seq<char>|
            #[trigger] renamed(elided(sig), n) == (if elided(sig).params.contains(n) {
                Some(n)
            } else {
                None::<Seq<char>>
            }),
{
    let t = elided(sig);
    let sv = survivors(sig);
    lemma_kept_of(sig, sig.params);
    assert forall|i: int| 0 <= i < t.params.len() implies keeps(t, #[trigger] t.params[i]) by {
        assert(sv.contains(sv[i]));
        lemma_renamed_survivor(sig, i);
        lemma_keeps_after(sig, sv[i]);
    }
    lemma_kept_of_all(t, t.params);
    assert forall|n: Seq<char>| #[trigger] renamed(t, n) == (if t.params.contains(n) {
        Some(n)
    } else {
        None::<Seq<char>>
    }) by {
        if t.params.contains(n) {
            let i = choose|i: int| 0 <= i < t.params.len() && t.params[i] == n;
            let c = choose|c: int| is_first_index(t.params, n, c);
            assert(is_first_index(t.params, n, c)) by {
                assert forall|j: int| 0 <= j < i implies t.params[j] != n by {
                    if t.params[j] == n {
                        lemma_canonical_injective(j as nat, i as nat);
                    }
                }
                assert(is_first_index(t.params, n, i));
            }
            assert(t.params[c] == n);
            lemma_canonical_injective(c as nat, i as nat);
        }
    }
    assert forall|n: Seq<char>| #[trigger] rename_or_keep(t, n) == n by {
        assert(renamed(t, n) == (if t.params.contains(n) {
            Some(n)
        } else {
            None::<Seq<char>>
        }));
    }
}

proof fn lemma_use_fixed(sig: SignatureView, u: UseView, strip: bool)
    requires
        !sig.has_receiver,
        no_duplicates(survivors(sig)),
        kept_names_stay_kept(sig),
    ensures
        elide_use(elided(sig), elide_use(sig, u, strip), strip) == elide_use(sig, u, strip),
{
    let t = elided(sig);
    lemma_second_pass_renames_nothing(sig);
    lemma_kept_of(sig, sig.params);
    match u.name {
        None => {},
        Some(n) => {
            match u.site {
                LifetimeSite::Reference => {
                    if strip && keeps(sig, n) {
                        lemma_keeps_after(sig, n);
                    }
                },
                LifetimeSite::Argument => {
                    match renamed(sig, n) {
                        Some(m) => {
                            lemma_first_index_exists(survivors(sig), n);
                            let i = choose|i: int| is_first_index(survivors(sig), n, i);
                            assert(is_first_index(survivors(sig), n, i));
                            assert(t.params[i] == m);
                            assert(t.params.contains(m));
                        },
                        None => {
                            assert forall|k: int| 0 <= k < t.params.len() implies t.params[k] != placeholder() by {
                                lemma_placeholder_not_canonical(k as nat);
                            }
                            assert(!t.params.contains(placeholder()));
                        },
                    }
                },
                LifetimeSite::Other => {},
            }
        },
    }
}

proof fn lemma_uses_fixed(sig: SignatureView, us: Seq<UseView>, strip: bool)
    requires
        !sig.has_receiver,
        no_duplicates(survivors(sig)),
        kept_names_stay_kept(sig),
    ensures
        elide_uses(elided(sig), elide_uses(sig, us, strip), strip) == elide_uses(sig, us, strip),
{
    assert forall|k: int| 0 <= k < us.len() implies elide_use(elided(sig), #[trigger] elide_uses(sig, us, strip)[k], strip) == elide_uses(sig, us, strip)[k] by {
        lemma_use_fixed(sig, us[k], strip);
    }
    assert(elide_uses(elided(sig), elide_uses(sig, us, strip), strip) =~= elide_uses(sig, us, strip));
}

/// Idempotence: a second pass changes neither the signature nor the flags
/// of the first, provided the surviving lifetime parameters are distinct and
/// every name that survives without being declared (such as `'static`),
/// other than `'_`, would survive even without its uses as generic
/// arguments. The first pass turns those uses into `'_`, so a name kept only
/// thanks to them (`fn f(x: Foo<'static>, y: &'static u8)`) loses its
/// reference annotation in the second pass.
pub proof fn lemma_elision_idempotent(sig: SignatureView)
    requires
        no_duplicates(survivors(sig)),
        kept_names_stay_kept(sig),
    ensures
        elided(elided(sig)) == elided(sig),
        survivors(elided(sig)).len() == survivors(sig).len(),
        has_struct_lifetime(elided(sig)) == has_struct_lifetime(sig),
        elided(sig).has_receiver == sig.has_receiver,
{
    if !sig.has_receiver {
        let t = elided(sig);
        lemma_second_pass_renames_nothing(sig);
        lemma_uses_fixed(sig, sig.output, true);
        assert forall|i: int| 0 <= i < sig.inputs.len() implies elide_uses(t, #[trigger] t.inputs[i], true) == t.inputs[i] by {
            lemma_uses_fixed(sig, sig.inputs[i], true);
        }
        assert forall|i: int| 0 <= i < sig.type_params.len() implies elide_uses(t, #[trigger] t.type_params[i], false) == t.type_params[i] by {
            lemma_uses_fixed(sig, sig.type_params[i], false);
        }
        assert forall|i: int| 0 <= i < t.where_bounds.len() implies rename_bound(t, #[trigger] t.where_bounds[i]) == t.where_bounds[i] by {
            assert(rename_bound(t, t.where_bounds[i]).bounds =~= t.where_bounds[i].bounds);
        }
        assert(elided(t).inputs =~= t.inputs);
        assert(elided(t).type_params =~= t.type_params);
        assert(elided(t).where_bounds =~= t.where_bounds);
        assert(elided(t).params =~= t.params);
        assert(elided(t) =~= t);
        lemma_struct_lifetime_kept(sig);
    }
}

proof fn lemma_struct_lifetime_kept(sig: SignatureView)
    requires
        !sig.has_receiver,
    ensures
        has_struct_lifetime(elided(sig)) == has_struct_lifetime(sig),
{
    assert forall|us: Seq<UseView>, strip: bool| #[trigger] has_argument_in(elide_uses(sig, us, strip)) == has_argument_in(us) by {
        if has_argument_in(us) {
            let k = choose|k: int| 0 <= k < us.len() && #[trigger] us[k].site == LifetimeSite::Argument;
            assert(elide_uses(sig, us, strip)[k].site == LifetimeSite::Argument);
        }
        if has_argument_in(elide_uses(sig, us, strip)) {
            let k = choose|k: int| 0 <= k < elide_uses(sig, us, strip).len() && #[trigger] elide_uses(sig, us, strip)[k].site == LifetimeSite::Argument;
            assert(us[k].site == LifetimeSite::Argument);
        }
    }
    assert forall|sites: Seq<Seq<UseView>>, strip: bool| #[trigger] has_argument_in_sites(elide_sites(sig, sites, strip)) == has_argument_in_sites(sites) by {
        if has_argument_in_sites(sites) {
            let k = choose|k: int| 0 <= k < sites.len() && has_argument_in(#[trigger] sites[k]);
            assert(elide_sites(sig, sites, strip)[k] == elide_uses(sig, sites[k], strip));
        }
        if has_argument_in_sites(elide_sites(sig, sites, strip)) {
            let k = choose|k: int| 0 <= k < elide_sites(sig, sites, strip).len() && has_argument_in(#[trigger] elide_sites(sig, sites, strip)[k]);
            assert(elide_sites(sig, sites, strip)[k] == elide_uses(sig, sites[k], strip));
        }
    }
}

} // verus!
