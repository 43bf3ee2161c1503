//! The callee renamer: strips the marker suffix that an extract-function
//! repair appends to the name of the helper it creates.
use vstd::prelude::*;
use crate::names::{contains, occurs_at, remove_all, remove_all_occurrences, str_contains};
use crate::signature::strings_view;

verus! {

/// The suffix that marks a freshly extracted helper.
pub const EXTRACT_MARKER: &'static str = "____EXTRACT_THIS";

/// An identifier that contains `name` loses every occurrence of `postfix`;
/// any other is left alone.
pub open spec fn renamed_ident(ident: Seq<char>, name: Seq<char>, postfix: Seq<char>) -> Seq<char> {
    if contains(ident, name) {
        remove_all(ident, postfix)
    } else {
        ident
    }
}

/// Renames the identifiers of calls, method calls and definitions of the
/// helper called `callee_name`.
pub struct RenameFn<'a> {
    pub(crate) callee_name: &'a str,
    pub(crate) callee_postfix: &'a str,
}

impl<'a> RenameFn<'a> {
    pub fn new(callee_name: &'a str, callee_postfix: &'a str) -> (r: RenameFn<'a>)
        ensures
            r.name() == callee_name@,
            r.postfix() == callee_postfix@,
    {
        RenameFn { callee_name, callee_postfix }
    }

    pub closed spec fn name(&self) -> Seq<char> {
        self.callee_name@
    }

    pub closed spec fn postfix(&self) -> Seq<char> {
        self.callee_postfix@
    }

    /// The identifier `ident` after renaming.
    pub fn rename(&self, ident: &str) -> (r: String)
        ensures
            r@ == renamed_ident(ident@, self.name(), self.postfix()),
    {
        if str_contains(ident, self.callee_name) {
            remove_all_occurrences(ident, self.callee_postfix)
        } else {
            String::from_str(ident)
        }
    }
}

/// Finalizes the name of the helper `fn_name`: every identifier of the file
/// (called function, called method, defined function or method) that
/// contains `fn_name` loses the extraction marker.
pub fn callee_renamer(idents: &mut Vec<String>, fn_name: &str)
    ensures
        final(idents)@.len() == old(idents)@.len(),
        forall|i: int|
            0 <= i < old(idents)@.len() ==> (#[trigger] final(idents)@[i])@ == renamed_ident(
                old(idents)@[i]@,
                fn_name@,
                EXTRACT_MARKER@,
            ),
{
    let visitor = RenameFn::new(fn_name, EXTRACT_MARKER);
    let ghost before = idents@;
    let mut i: usize = 0;
    while i < idents.len()
        invariant
            i <= idents@.len(),
            idents@.len() == before.len(),
            visitor.name() == fn_name@,
            visitor.postfix() == EXTRACT_MARKER@,
            forall|j: int| i <= j < before.len() ==> idents@[j] == before[j],
            forall|j: int|
                0 <= j < i ==> (#[trigger] idents@[j])@ == renamed_ident(
                    before[j]@,
                    fn_name@,
                    EXTRACT_MARKER@,
                ),
        decreases idents.len() - i,
    {
        let r = visitor.rename(idents[i].as_str());
        idents.set(i, r);
        i = i + 1;
    }
}

proof fn lemma_remove_all_absent(s: Seq<char>, p: Seq<char>)
    requires
        !contains(s, p),
    ensures
        remove_all(s, p) == s,
    decreases s.len(),
{
    if p.len() > 0 && s.len() >= p.len() {
        assert(!occurs_at(s, p, 0));
        let t = s.subrange(1, s.len() as int);
        assert forall|i: int| !occurs_at(t, p, i) by {
            if occurs_at(t, p, i) {
                assert(s.subrange(i + 1, i + 1 + p.len()) =~= t.subrange(i, i + p.len()));
                assert(occurs_at(s, p, i + 1));
            }
        }
        lemma_remove_all_absent(t, p);
        assert(s =~= seq![s[0]] + t);
    }
}

proof fn lemma_remove_suffix(base: Seq<char>, p: Seq<char>)
    requires
        p.len() > 0,
        !contains(base + p.drop_last(), p),
    ensures
        remove_all(base + p, p) == base,
    decreases base.len(),
{
    let s = base + p;
    if base.len() == 0 {
        assert(s =~= p);
        assert(s.subrange(0, p.len() as int) =~= p);
        assert(s.subrange(p.len() as int, s.len() as int) =~= Seq::<char>::empty());
        assert(remove_all(Seq::<char>::empty(), p) == Seq::<char>::empty());
        assert(base =~= Seq::<char>::empty());
    } else {
        let q = base + p.drop_last();
        if s.subrange(0, p.len() as int) == p {
            assert(q.subrange(0, p.len() as int) =~= s.subrange(0, p.len() as int));
            assert(occurs_at(q, p, 0));
        }
        assert(s.subrange(0, p.len() as int) != p);
        assert(s[0] == base[0]);
        let rest = base.subrange(1, base.len() as int);
        assert forall|i: int| !occurs_at(rest + p.drop_last(), p, i) by {
            if occurs_at(rest + p.drop_last(), p, i) {
                assert(q.subrange(i + 1, i + 1 + p.len()) =~= (rest + p.drop_last()).subrange(
                    i,
                    i + p.len(),
                ));
                assert(occurs_at(q, p, i + 1));
            }
        }
        lemma_remove_suffix(rest, p);
        assert(s.subrange(1, s.len() as int) =~= rest + p);
        assert(base =~= seq![base[0]] + rest);
        assert(remove_all(s, p) == seq![s[0]] + remove_all(s.subrange(1, s.len() as int), p));
    }
}

/// The renamer finalizes a helper's name: an identifier that contains the
/// helper's name and ends in the marker, where the marker occurs nowhere
/// else (not even overlapping that suffix), becomes the identifier without
/// the marker; that result holds no marker, and renaming it again changes
/// nothing. An identifier without the marker is never changed.
pub proof fn lemma_renamer_finalizes(base: Seq<char>, name: Seq<char>, marker: Seq<char>)
    requires
        marker.len() > 0,
        !contains(base + marker.drop_last(), marker),
        contains(base + marker, name),
    ensures
        renamed_ident(base + marker, name, marker) == base,
        !contains(renamed_ident(base + marker, name, marker), marker),
        renamed_ident(renamed_ident(base + marker, name, marker), name, marker) == renamed_ident(
            base + marker,
            name,
            marker,
        ),
        forall|s: Seq<char>| !contains(s, marker) ==> #[trigger] renamed_ident(s, name, marker) == s,
{
    lemma_remove_suffix(base, marker);
    let full = base + marker;
    assert forall|i: int| !occurs_at(base, marker, i) by {
        if occurs_at(base, marker, i) {
            assert((base + marker.drop_last()).subrange(i, i + marker.len()) =~= base.subrange(
                i,
                i + marker.len(),
            ));
            assert(occurs_at(base + marker.drop_last(), marker, i));
        }
    }
    lemma_remove_all_absent(base, marker);
    assert forall|s: Seq<char>| !contains(s, marker) implies #[trigger] renamed_ident(s, name, marker) == s by {
        lemma_remove_all_absent(s, marker);
    }
}

proof fn lemma_remove_all_len(s: Seq<char>, p: Seq<char>)
    ensures
        remove_all(s, p).len() <= s.len(),
        p.len() > 0 && contains(s, p) ==> remove_all(s, p).len() < s.len(),
    decreases s.len(),
{
    if p.len() > 0 && s.len() >= p.len() {
        if s.subrange(0, p.len() as int) == p {
            lemma_remove_all_len(s.subrange(p.len() as int, s.len() as int), p);
        } else {
            let t = s.subrange(1, s.len() as int);
            lemma_remove_all_len(t, p);
            if contains(s, p) {
                let i = choose|i: int| occurs_at(s, p, i);
                if i == 0 {
                    assert(s.subrange(0, p.len() as int) == p);
                }
                assert(t.subrange(i - 1, i - 1 + p.len()) =~= s.subrange(i, i + p.len()));
                assert(occurs_at(t, p, i - 1));
            }
        }
    }
}

/// A second renaming pass leaves an identifier as the first pass left it
/// exactly when that result does not hold both the helper's name and the
/// marker. So the second pass is a no-op on every identifier in which the
/// first pass left no marker, and on every identifier without the marker.
pub proof fn lemma_renamer_idempotent(ident: Seq<char>, name: Seq<char>, marker: Seq<char>)
    requires
        marker.len() > 0,
    ensures
        renamed_ident(renamed_ident(ident, name, marker), name, marker) == renamed_ident(
            ident,
            name,
            marker,
        ) <==> !(contains(renamed_ident(ident, name, marker), name) && contains(
            renamed_ident(ident, name, marker),
            marker,
        )),
        !contains(ident, marker) ==> renamed_ident(ident, name, marker) == ident,
{
    let r = renamed_ident(ident, name, marker);
    lemma_remove_all_len(r, marker);
    if !contains(r, marker) {
        lemma_remove_all_absent(r, marker);
    }
    if !contains(ident, marker) {
        lemma_remove_all_absent(ident, marker);
    }
}

} // verus!
