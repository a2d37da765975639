//! Character-level text operations: literal substring replacement.

use vstd::prelude::*;

verus! {

/// `pat` occurs at the very start of `s`.
pub open spec fn starts_with(s: Seq<char>, pat: Seq<char>) -> bool {
    pat.len() <= s.len() && s.subrange(0, pat.len() as int) == pat
}

/// `pat` occurs somewhere in `s`.
pub open spec fn occurs_in(s: Seq<char>, pat: Seq<char>) -> bool {
    exists|i: int| 0 <= i <= s.len() && #[trigger] starts_with(s.skip(i), pat)
}

/// Every match of `pat` in `s`, taken from left to right without overlap,
/// replaced by `to`. An empty pattern matches before every character and at
/// the end.
pub open spec fn replace_all(s: Seq<char>, pat: Seq<char>, to: Seq<char>) -> Seq<char>
    decreases s.len(),
{
    if pat.len() == 0 {
        if s.len() == 0 {
            to
        } else {
            to + seq![s[0]] + replace_all(s.drop_first(), pat, to)
        }
    } else if s.len() == 0 {
        Seq::<char>::empty()
    } else if starts_with(s, pat) {
        to + replace_all(s.skip(pat.len() as int), pat, to)
    } else {
        seq![s[0]] + replace_all(s.drop_first(), pat, to)
    }
}

/// Replacing a non-empty pattern that does not occur leaves the text as it is.
pub proof fn lemma_replace_absent(s: Seq<char>, pat: Seq<char>, to: Seq<char>)
    requires
        pat.len() > 0,
        !occurs_in(s, pat),
    ensures
        replace_all(s, pat, to) == s,
    decreases s.len(),
{
    if s.len() > 0 {
        assert(s.skip(0) =~= s);
        assert(!starts_with(s.skip(0), pat));
        let t = s.drop_first();
        assert forall|i: int| 0 <= i <= t.len() implies !#[trigger] starts_with(t.skip(i), pat) by {
            assert(t.skip(i) =~= s.skip(i + 1));
            assert(!starts_with(s.skip(i + 1), pat));
        }
        lemma_replace_absent(t, pat, to);
        assert(seq![s[0]] + t =~= s);
    }
}

/// The leftmost match is replaced, whatever follows it: where `pat` first
/// occurs in a text at the end of `a`, the result is `a`, then `to`, then the
/// replacement of what follows the match.
pub proof fn lemma_replace_first_match(a: Seq<char>, pat: Seq<char>, b: Seq<char>, to: Seq<char>)
    requires
        pat.len() > 0,
        forall|i: int| 0 <= i < a.len() ==> !#[trigger] starts_with((a + pat + b).skip(i), pat),
    ensures
        replace_all(a + pat + b, pat, to) == a + to + replace_all(b, pat, to),
    decreases a.len(),
{
    let s = a + pat + b;
    if a.len() == 0 {
        assert(s =~= pat + b);
        assert(s.subrange(0, pat.len() as int) =~= pat);
        assert(s.skip(pat.len() as int) =~= b);
        assert(a + to =~= to);
    } else {
        assert(s.skip(0) =~= s);
        assert(!starts_with(s.skip(0), pat));
        let a1 = a.drop_first();
        let s1 = a1 + pat + b;
        assert(s.drop_first() =~= s1);
        assert forall|i: int| 0 <= i < a1.len() implies !#[trigger] starts_with(s1.skip(i), pat) by {
            assert(s1.skip(i) =~= s.skip(i + 1));
            assert(!starts_with(s.skip(i + 1), pat));
        }
        lemma_replace_first_match(a1, pat, b, to);
        assert(seq![s[0]] + (a1 + to + replace_all(b, pat, to)) =~= a + to + replace_all(b, pat, to));
    }
}

/// Appends one character to a string.
#[verifier::external_body]
fn push_char(s: &mut String, c: char)
    ensures
        final(s)@ == old(s)@.push(c),
{
    s.push(c);
}

/// The characters of `s`, in order.
pub fn chars_of(s: &str) -> (v: Vec<char>)
    ensures
        v@ == s@,
{
    let n = s.unicode_len();
    let mut v: Vec<char> = Vec::new();
    let mut i: usize = 0;
    while i < n
        invariant
            n == s@.len(),
            i <= n,
            v@ == s@.take(i as int),
        decreases n - i,
    {
        let c = s.get_char(i);
        v.push(c);
        i = i + 1;
        assert(v@ =~= s@.take(i as int));
    }
    assert(v@ =~= s@);
    v
}

/// Whether two strings hold the same characters.
pub fn text_eq(a: &str, b: &str) -> (r: bool)
    ensures
        r == (a@ == b@),
{
    let av = chars_of(a);
    let bv = chars_of(b);
    if av.len() != bv.len() {
        return false;
    }
    let mut i: usize = 0;
    while i < av.len()
        invariant
            av@ == a@,
            bv@ == b@,
            av.len() == bv.len(),
            i <= av.len(),
            forall|k: int| 0 <= k < i ==> av@[k] == bv@[k],
        decreases av.len() - i,
    {
        if av[i] != bv[i] {
            return false;
        }
        i = i + 1;
    }
    assert(a@ =~= b@);
    true
}

/// Whether `pat` occurs in `s` at position `i`.
fn matches_at(s: &Vec<char>, i: usize, pat: &Vec<char>) -> (b: bool)
    requires
        i <= s.len(),
    ensures
        b == starts_with(s@.skip(i as int), pat@),
{
    let m = pat.len();
    if m > s.len() - i {
        return false;
    }
    let mut j: usize = 0;
    while j < m
        invariant
            m == pat.len(),
            i + m <= s.len(),
            j <= m,
            forall|k: int| 0 <= k < j ==> s@[i + k] == pat@[k],
        decreases m - j,
    {
        if s[i + j] != pat[j] {
            assert(s@.skip(i as int).subrange(0, m as int)[j as int] != pat@[j as int]);
            return false;
        }
        j = j + 1;
    }
    assert(s@.skip(i as int).subrange(0, m as int) =~= pat@);
    true
}

/// `s` with every match of `pat` replaced by `to`, as `str::replace` does it.
pub fn replace(s: &str, pat: &str, to: &str) -> (r: String)
    ensures
        r@ == replace_all(s@, pat@, to@),
{
    let sv = chars_of(s);
    let pv = chars_of(pat);
    let n = sv.len();
    let m = pv.len();
    let mut out = String::new();
    let mut i: usize = 0;
    assert(s@.skip(0) =~= s@);
    assert(out@ + replace_all(s@.skip(0), pat@, to@) =~= replace_all(s@, pat@, to@));
    while i < n
        invariant
            sv@ == s@,
            pv@ == pat@,
            n == sv.len(),
            m == pv.len(),
            i <= n,
            out@ + replace_all(s@.skip(i as int), pat@, to@) == replace_all(s@, pat@, to@),
        decreases n - i,
    {
        let ghost rest = s@.skip(i as int);
        assert(rest.drop_first() =~= s@.skip(i + 1));
        if m == 0 {
            out.append(to);
            push_char(&mut out, sv[i]);
            i = i + 1;
            assert(out@ + replace_all(s@.skip(i as int), pat@, to@) =~= replace_all(s@, pat@, to@));
        } else if matches_at(&sv, i, &pv) {
            assert(rest.skip(m as int) =~= s@.skip(i + m));
            out.append(to);
            i = i + m;
            assert(out@ + replace_all(s@.skip(i as int), pat@, to@) =~= replace_all(s@, pat@, to@));
        } else {
            push_char(&mut out, sv[i]);
            i = i + 1;
            assert(out@ + replace_all(s@.skip(i as int), pat@, to@) =~= replace_all(s@, pat@, to@));
        }
    }
    assert(s@.skip(n as int) =~= Seq::<char>::empty());
    if m == 0 {
        out.append(to);
    }
    assert(out@ =~= replace_all(s@, pat@, to@));
    out
}

} // verus!
