//! Text helpers on identifiers and numbers, each proved against a spec function.
use vstd::prelude::*;
use vstd::string::StrSliceExecFns;
use vstd::string::StringExecFns;

verus! {

/// `p` occurs in `s` starting at index `i`.
pub open spec fn occurs_at(s: Seq<char>, p: Seq<char>, i: int) -> bool {
    0 <= i && i + p.len() <= s.len() && s.subrange(i, i + p.len()) == p
}

/// `p` occurs somewhere in `s`.
pub open spec fn contains(s: Seq<char>, p: Seq<char>) -> bool {
    exists|i: int| occurs_at(s, p, i)
}

/// `s` with every occurrence of `p` removed, scanning left to right without
/// overlap; an empty `p` removes nothing.
pub open spec fn remove_all(s: Seq<char>, p: Seq<char>) -> Seq<char>
    decreases s.len(),
{
    if p.len() == 0 || s.len() < p.len() {
        s
    } else if s.subrange(0, p.len() as int) == p {
        remove_all(s.subrange(p.len() as int, s.len() as int), p)
    } else {
        seq![s[0]] + remove_all(s.subrange(1, s.len() as int), p)
    }
}

pub open spec fn digit_char(d: nat) -> char {
    if d == 0 { '0' }
    else if d == 1 { '1' }
    else if d == 2 { '2' }
    else if d == 3 { '3' }
    else if d == 4 { '4' }
    else if d == 5 { '5' }
    else if d == 6 { '6' }
    else if d == 7 { '7' }
    else if d == 8 { '8' }
    else { '9' }
}

/// The decimal digits of `n`, most significant first, without leading zeros.
pub open spec fn decimal(n: nat) -> Seq<char>
    decreases n,
{
    if n < 10 {
        seq![digit_char(n)]
    } else {
        decimal(n / 10).push(digit_char(n % 10))
    }
}

pub open spec fn is_digit(c: char) -> bool {
    '0' <= c && c <= '9'
}

/// `s` is a non-empty run of ASCII digits.
pub open spec fn is_decimal(s: Seq<char>) -> bool {
    s.len() > 0 && forall|i: int| 0 <= i < s.len() ==> is_digit(#[trigger] s[i])
}

/// The number that a run of ASCII digits spells.
pub open spec fn decimal_value(s: Seq<char>) -> nat
    decreases s.len(),
{
    if s.len() == 0 {
        0
    } else {
        decimal_value(s.drop_last()) * 10 + ((s.last() as u32 - '0' as u32) as nat)
    }
}

/// Whether `p` occurs in `s` at index `i`.
fn matches_at(s: &str, s_len: usize, p: &str, p_len: usize, i: usize) -> (r: bool)
    requires
        s_len == s@.len(),
        p_len == p@.len(),
    ensures
        r == occurs_at(s@, p@, i as int),
{
    if i > s_len || p_len > s_len - i {
        return false;
    }
    let mut k: usize = 0;
    while k < p_len
        invariant
            k <= p_len,
            i + p_len <= s_len,
            s_len == s@.len(),
            p_len == p@.len(),
            forall|j: int| 0 <= j < k ==> s@[i + j] == p@[j],
        decreases p_len - k,
    {
        if s.get_char(i + k) != p.get_char(k) {
            assert(s@.subrange(i as int, i + p@.len())[k as int] != p@[k as int]);
            return false;
        }
        k = k + 1;
    }
    assert(s@.subrange(i as int, i + p@.len()) =~= p@);
    true
}

/// Whether `p` occurs in `s`.
pub fn str_contains(s: &str, p: &str) -> (r: bool)
    ensures
        r == contains(s@, p@),
{
    let s_len = s.unicode_len();
    let p_len = p.unicode_len();
    if p_len > s_len {
        return false;
    }
    let last = s_len - p_len;
    let mut i: usize = 0;
    loop
        invariant
            i <= last,
            last == s_len - p_len,
            s_len == s@.len(),
            p_len == p@.len(),
            forall|j: int| 0 <= j < i ==> !occurs_at(s@, p@, j),
        ensures
            forall|j: int| 0 <= j <= last ==> !occurs_at(s@, p@, j),
        decreases last - i,
    {
        if matches_at(s, s_len, p, p_len, i) {
            return true;
        }
        if i == last {
            break;
        }
        i = i + 1;
    }
    false
}

/// The one-character string of digit `d`.
fn digit_str(d: usize) -> (r: &'static str)
    requires
        d < 10,
    ensures
        r@ == seq![digit_char(d as nat)],
{
    proof {
        reveal_strlit("0");
        reveal_strlit("1");
        reveal_strlit("2");
        reveal_strlit("3");
        reveal_strlit("4");
        reveal_strlit("5");
        reveal_strlit("6");
        reveal_strlit("7");
        reveal_strlit("8");
        reveal_strlit("9");
    }
    if d == 0 {
        "0"
    } else if d == 1 {
        "1"
    } else if d == 2 {
        "2"
    } else if d == 3 {
        "3"
    } else if d == 4 {
        "4"
    } else if d == 5 {
        "5"
    } else if d == 6 {
        "6"
    } else if d == 7 {
        "7"
    } else if d == 8 {
        "8"
    } else {
        "9"
    }
}

/// The decimal representation of `n`.
pub fn decimal_string(n: usize) -> (r: String)
    ensures
        r@ == decimal(n as nat),
    decreases n,
{
    if n < 10 {
        String::from_str(digit_str(n))
    } else {
        let mut s = decimal_string(n / 10);
        s.append(digit_str(n % 10));
        s
    }
}

/// The value of `s` when it is a run of ASCII digits whose value fits in a
/// `usize`, and `None` otherwise.
pub fn parse_decimal(s: &str) -> (r: Option<usize>)
    ensures
        r == (if is_decimal(s@) && decimal_value(s@) <= usize::MAX {
            Some(decimal_value(s@) as usize)
        } else {
            None::<usize>
        }),
{
    let len = s.unicode_len();
    if len == 0 {
        return None;
    }
    let mut value: usize = 0;
    let mut i: usize = 0;
    while i < len
        invariant
            i <= len,
            len == s@.len(),
            forall|j: int| 0 <= j < i ==> is_digit(#[trigger] s@[j]),
            value as nat == decimal_value(s@.take(i as int)),
        decreases len - i,
    {
        let c = s.get_char(i);
        assert(s@.take(i + 1).drop_last() =~= s@.take(i as int));
        if c < '0' || c > '9' {
            assert(!is_digit(s@[i as int]));
            return None;
        }
        let d = (c as u32 - '0' as u32) as usize;
        if value > (usize::MAX - d) / 10 {
            proof {
                lemma_decimal_value_prefix(s@, (i + 1) as int);
                assert(decimal_value(s@.take(i + 1)) == value * 10 + d);
            }
            let mut k: usize = i + 1;
            while k < len
                invariant
                    i < k <= len,
                    len == s@.len(),
                    decimal_value(s@.take(k as int)) > usize::MAX,
                    forall|j: int| 0 <= j < k ==> is_digit(#[trigger] s@[j]),
                decreases len - k,
            {
                let e = s.get_char(k);
                assert(s@.take(k + 1).drop_last() =~= s@.take(k as int));
                if e < '0' || e > '9' {
                    assert(!is_digit(s@[k as int]));
                    return None;
                }
                k = k + 1;
            }
            assert(s@.take(len as int) =~= s@);
            return None;
        }
        value = value * 10 + d;
        i = i + 1;
    }
    assert(s@.take(len as int) =~= s@);
    Some(value)
}

proof fn lemma_decimal_value_prefix(s: Seq<char>, k: int)
    requires
        0 < k <= s.len(),
    ensures
        decimal_value(s.take(k)) == decimal_value(s.take(k - 1)) * 10 + ((s[k - 1] as u32
            - '0' as u32) as nat),
{
    assert(s.take(k).drop_last() =~= s.take(k - 1));
}

proof fn lemma_remove_all_step(s: Seq<char>, p: Seq<char>, i: int)
    requires
        0 <= i < s.len(),
    ensures
        occurs_at(s, p, i) && p.len() > 0 ==> remove_all(s.skip(i), p) == remove_all(
            s.skip(i + p.len()),
            p,
        ),
        !(occurs_at(s, p, i) && p.len() > 0) ==> remove_all(s.skip(i), p) == seq![s[i]]
            + remove_all(s.skip(i + 1), p),
{
    let t = s.skip(i);
    if p.len() > 0 && t.len() >= p.len() {
        assert(t.subrange(0, p.len() as int) =~= s.subrange(i, i + p.len()));
        assert(t.subrange(p.len() as int, t.len() as int) =~= s.skip(i + p.len()));
        assert(t.subrange(1, t.len() as int) =~= s.skip(i + 1));
    } else if p.len() > 0 {
        assert(s.skip(i + 1).len() < p.len());
        assert(t =~= seq![s[i]] + s.skip(i + 1));
    } else {
        lemma_remove_all_empty(t, p);
        lemma_remove_all_empty(s.skip(i + 1), p);
        assert(t =~= seq![s[i]] + s.skip(i + 1));
    }
}

proof fn lemma_remove_all_empty(s: Seq<char>, p: Seq<char>)
    requires
        p.len() == 0,
    ensures
        remove_all(s, p) == s,
{
}

/// `s` with every occurrence of `p` removed, as `remove_all` states.
pub fn remove_all_occurrences(s: &str, p: &str) -> (r: String)
    ensures
        r@ == remove_all(s@, p@),
{
    let s_len = s.unicode_len();
    let p_len = p.unicode_len();
    let mut r = String::new();
    let mut i: usize = 0;
    assert(s@.skip(0) =~= s@);
    assert(r@ + remove_all(s@, p@) =~= remove_all(s@, p@));
    while i < s_len
        invariant
            i <= s_len,
            s_len == s@.len(),
            p_len == p@.len(),
            r@ + remove_all(s@.skip(i as int), p@) == remove_all(s@, p@),
        decreases s_len - i,
    {
        proof {
            lemma_remove_all_step(s@, p@, i as int);
        }
        if p_len > 0 && matches_at(s, s_len, p, p_len, i) {
            i = i + p_len;
        } else {
            let c = s.substring_char(i, i + 1);
            let ghost prev = r@;
            r.append(c);
            assert(c@ =~= seq![s@[i as int]]);
            assert(r@ + remove_all(s@.skip(i + 1), p@) =~= prev + (seq![s@[i as int]] + remove_all(
                s@.skip(i + 1),
                p@,
            )));
            i = i + 1;
        }
    }
    assert(s@.skip(i as int) =~= Seq::<char>::empty());
    assert(r@ + Seq::<char>::empty() =~= r@);
    r
}

} // verus!
