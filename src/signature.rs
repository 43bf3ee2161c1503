//! A function signature reduced to what the lifetime passes read and write:
//! its name, lifetime parameters, lifetime where-clause predicates, whether it
//! takes a receiver, and every lifetime position in its inputs, its return
//! type and its other generic parameters, in source order.
use vstd::prelude::*;

verus! {

/// Where a lifetime position stands in a type.
#[derive(Clone, Copy, PartialEq, Eq, Structural, Debug)]
pub enum LifetimeSite {
    /// The lifetime of a reference type, `&'a T`; it may be absent.
    Reference,
    /// A lifetime argument of a generic type, `Foo<'a>`.
    Argument,
    /// Any other lifetime, such as a bound `T: 'a`.
    Other,
}

/// One lifetime position; `name` is `None` for a reference written without one.
pub struct LifetimeUse {
    pub site: LifetimeSite,
    pub name: Option<String>,
}

/// A where-clause predicate `'lifetime: 'b + 'c`.
pub struct LifetimeBound {
    pub lifetime: String,
    pub bounds: Vec<String>,
}

/// The lifetime-relevant part of one function, method or trait method.
pub struct FnSignature {
    pub name: String,
    /// Declared lifetime parameters, in declaration order.
    pub lifetime_params: Vec<String>,
    /// Lifetime predicates of the where-clause, in order.
    pub where_bounds: Vec<LifetimeBound>,
    pub has_receiver: bool,
    /// The lifetime positions of each typed input parameter.
    pub inputs: Vec<Vec<LifetimeUse>>,
    /// The lifetime positions of the return type (empty when there is none).
    pub output: Vec<LifetimeUse>,
    /// The lifetime positions of each non-lifetime generic parameter.
    pub type_params: Vec<Vec<LifetimeUse>>,
}

pub struct UseView {
    pub site: LifetimeSite,
    pub name: Option<Seq<char>>,
}

pub struct BoundView {
    pub lifetime: Seq<char>,
    pub bounds: Seq<Seq<char>>,
}

pub struct SignatureView {
    pub name: Seq<char>,
    pub params: Seq<Seq<char>>,
    pub where_bounds: Seq<BoundView>,
    pub has_receiver: bool,
    pub inputs: Seq<Seq<UseView>>,
    pub output: Seq<UseView>,
    pub type_params: Seq<Seq<UseView>>,
}

pub open spec fn name_view(n: Option<String>) -> Option<Seq<char>> {
    match n {
        Some(s) => Some(s@),
        None => None,
    }
}

pub open spec fn strings_view(v: Seq<String>) -> Seq<Seq<char>> {
    v.map_values(|s: String| s@)
}

pub open spec fn uses_view(v: Seq<LifetimeUse>) -> Seq<UseView> {
    v.map_values(|u: LifetimeUse| u@)
}

pub open spec fn sites_view(v: Seq<Vec<LifetimeUse>>) -> Seq<Seq<UseView>> {
    v.map_values(|s: Vec<LifetimeUse>| uses_view(s@))
}

impl View for LifetimeUse {
    type V = UseView;

    open spec fn view(&self) -> UseView {
        UseView { site: self.site, name: name_view(self.name) }
    }
}

impl View for LifetimeBound {
    type V = BoundView;

    open spec fn view(&self) -> BoundView {
        BoundView { lifetime: self.lifetime@, bounds: strings_view(self.bounds@) }
    }
}

impl View for FnSignature {
    type V = SignatureView;

    open spec fn view(&self) -> SignatureView {
        SignatureView {
            name: self.name@,
            params: strings_view(self.lifetime_params@),
            where_bounds: self.where_bounds@.map_values(|b: LifetimeBound| b@),
            has_receiver: self.has_receiver,
            inputs: sites_view(self.inputs@),
            output: uses_view(self.output@),
            type_params: sites_view(self.type_params@),
        }
    }
}

/// How many positions of `uses` name `n`.
pub open spec fn count_in(uses: Seq<UseView>, n: Seq<char>) -> nat
    decreases uses.len(),
{
    if uses.len() == 0 {
        0
    } else {
        count_in(uses.drop_last(), n) + if uses.last().name == Some(n) {
            1nat
        } else {
            0nat
        }
    }
}

/// How many positions of all of `sites` name `n`.
pub open spec fn count_in_sites(sites: Seq<Seq<UseView>>, n: Seq<char>) -> nat
    decreases sites.len(),
{
    if sites.len() == 0 {
        0
    } else {
        count_in_sites(sites.drop_last(), n) + count_in(sites.last(), n)
    }
}

/// How often `n` is used in the types of the typed input parameters.
pub open spec fn usage_count(sig: SignatureView, n: Seq<char>) -> nat {
    count_in_sites(sig.inputs, n)
}

/// `n` stands on either side of a where-clause predicate.
pub open spec fn in_where_clause(sig: SignatureView, n: Seq<char>) -> bool {
    exists|i: int|
        0 <= i < sig.where_bounds.len() && ((#[trigger] sig.where_bounds[i]).lifetime == n
            || sig.where_bounds[i].bounds.contains(n))
}

/// `n` appears in the return type.
pub open spec fn in_output(sig: SignatureView, n: Seq<char>) -> bool {
    exists|k: int| 0 <= k < sig.output.len() && #[trigger] sig.output[k].name == Some(n)
}

/// A lifetime that the bounds or the return type need.
pub open spec fn cannot_elide(sig: SignatureView, n: Seq<char>) -> bool {
    in_where_clause(sig, n) || in_output(sig, n)
}

} // verus!
