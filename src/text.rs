//! Character-level text operations: conversions between strings and character
//! vectors, and literal replace-all.
use vstd::prelude::*;

verus! {

/// Replaces every non-overlapping occurrence of `from` in `s`, scanning left to
/// right, by `to`. An empty `from` matches at every character boundary, so `to`
/// is inserted before each character and at the end.
pub open spec fn replaced(s: Seq<char>, from: Seq<char>, to: Seq<char>) -> Seq<char>
    decreases s.len(),
{
    if s.len() == 0 {
        if from.len() == 0 {
            to
        } else {
            Seq::empty()
        }
    } else if from.len() > 0 && s.len() >= from.len() && s.subrange(0, from.len() as int) == from {
        to + replaced(s.subrange(from.len() as int, s.len() as int), from, to)
    } else if from.len() == 0 {
        to + seq![s[0]] + replaced(s.drop_first(), from, to)
    } else {
        seq![s[0]] + replaced(s.drop_first(), from, to)
    }
}

/// Relies on `str::chars`: the characters of `s`, in order.
#[verifier::external_body]
pub(crate) fn chars_of(s: &str) -> (r: Vec<char>)
    ensures
        r@ == s@,
{
    s.chars().collect()
}

/// Relies on `String`'s `FromIterator<char>`: a string of the given characters.
#[verifier::external_body]
pub(crate) fn string_of(v: &Vec<char>) -> (r: String)
    ensures
        r@ == v@,
{
    v.iter().collect()
}

/// Appends every character of `src` to `out`.
pub fn push_all(out: &mut Vec<char>, src: &Vec<char>)
    ensures
        final(out)@ == old(out)@ + src@,
{
    let mut k: usize = 0;
    while k < src.len()
        invariant
            k <= src@.len(),
            out@ == old(out)@ + src@.subrange(0, k as int),
        decreases src@.len() - k,
    {
        out.push(src[k]);
        k = k + 1;
        assert(src@.subrange(0, k as int) =~= src@.subrange(0, k - 1) + seq![src@[k - 1]]);
    }
    assert(src@.subrange(0, src@.len() as int) =~= src@);
}

/// Whether `pat` occurs in `s` starting at index `i`.
pub fn occurs_at(s: &Vec<char>, i: usize, pat: &Vec<char>) -> (r: bool)
    requires
        i <= s@.len(),
    ensures
        r == (i + pat@.len() <= s@.len() && s@.subrange(i as int, i + pat@.len()) == pat@),
{
    if pat.len() > s.len() - i {
        return false;
    }
    let m = s.len();
    let mut k: usize = 0;
    while k < pat.len()
        invariant
            m == s@.len(),
            k <= pat@.len(),
            i <= s@.len(),
            i + pat@.len() <= s@.len(),
            forall|j: int| 0 <= j < k ==> s@[i + j] == pat@[j],
        decreases pat@.len() - k,
    {
        if s[i + k] != pat[k] {
            assert(s@.subrange(i as int, i + pat@.len())[k as int] != pat@[k as int]);
            return false;
        }
        k = k + 1;
    }
    assert(s@.subrange(i as int, i + pat@.len()) =~= pat@);
    true
}

/// When `from` does not occur at the start of `seq![c] + s`, the first
/// character is kept and the scan goes on after it.
pub proof fn lemma_replaced_no_match_at_start(c: char, s: Seq<char>, from: Seq<char>, to: Seq<char>)
    requires
        from.len() > 0,
        !((seq![c] + s).len() >= from.len() && (seq![c] + s).subrange(0, from.len() as int) == from),
    ensures
        replaced(seq![c] + s, from, to) == seq![c] + replaced(s, from, to),
{
    assert((seq![c] + s).drop_first() =~= s);
}

/// An occurrence of `from` at the start is replaced and the scan goes on after it.
pub proof fn lemma_replaced_match_at_start(s: Seq<char>, from: Seq<char>, to: Seq<char>)
    requires
        from.len() > 0,
    ensures
        replaced(from + s, from, to) == to + replaced(s, from, to),
{
    assert((from + s).subrange(0, from.len() as int) =~= from);
    assert((from + s).subrange(from.len() as int, (from + s).len() as int) =~= s);
}

/// A prefix free of the first character of `from` is kept as it is.
pub proof fn lemma_replaced_plain_prefix(a: Seq<char>, b: Seq<char>, from: Seq<char>, to: Seq<char>)
    requires
        from.len() > 0,
        forall|i: int| 0 <= i < a.len() ==> a[i] != from[0],
    ensures
        replaced(a + b, from, to) == a + replaced(b, from, to),
    decreases a.len(),
{
    if a.len() > 0 {
        let rest = a.drop_first() + b;
        assert(a + b =~= seq![a[0]] + rest);
        if (seq![a[0]] + rest).len() >= from.len() {
            assert((seq![a[0]] + rest).subrange(0, from.len() as int)[0] == a[0]);
        }
        lemma_replaced_no_match_at_start(a[0], rest, from, to);
        lemma_replaced_plain_prefix(a.drop_first(), b, from, to);
        assert(a =~= seq![a[0]] + a.drop_first());
        assert(seq![a[0]] + (a.drop_first() + replaced(b, from, to)) =~= a + replaced(b, from, to));
    } else {
        assert(a + b =~= b);
        assert(a + replaced(b, from, to) =~= replaced(b, from, to));
    }
}

/// Text free of the first character of `from` is left unchanged.
pub proof fn lemma_replaced_absent(s: Seq<char>, from: Seq<char>, to: Seq<char>)
    requires
        from.len() > 0,
        forall|i: int| 0 <= i < s.len() ==> s[i] != from[0],
    ensures
        replaced(s, from, to) == s,
{
    lemma_replaced_plain_prefix(s, Seq::empty(), from, to);
    assert(s + Seq::<char>::empty() =~= s);
    assert(replaced(Seq::<char>::empty(), from, to) =~= Seq::<char>::empty());
}

/// Replace-all on character vectors.
pub fn replace_chars(s: &Vec<char>, from: &Vec<char>, to: &Vec<char>) -> (r: Vec<char>)
    ensures
        r@ == replaced(s@, from@, to@),
{
    let n = s.len();
    let mut out: Vec<char> = Vec::new();
    let mut i: usize = 0;
    assert(s@.subrange(0, n as int) =~= s@);
    while i < n
        invariant
            n == s@.len(),
            i <= n,
            out@ + replaced(s@.subrange(i as int, n as int), from@, to@) == replaced(s@, from@, to@),
        decreases n - i,
    {
        let ghost u = s@.subrange(i as int, n as int);
        let ghost before = out@;
        if from.len() > 0 && occurs_at(s, i, from) {
            assert(u.subrange(0, from@.len() as int) =~= s@.subrange(i as int, i + from@.len()));
            assert(u.subrange(from@.len() as int, u.len() as int) =~= s@.subrange(i + from@.len(), n as int));
            push_all(&mut out, to);
            i = i + from.len();
            assert(out@ + replaced(s@.subrange(i as int, n as int), from@, to@) =~= before + replaced(u, from@, to@));
        } else {
            assert(from@.len() > 0 && u.len() >= from@.len() ==> u.subrange(0, from@.len() as int) =~= s@.subrange(i as int, i + from@.len()));
            assert(u.drop_first() =~= s@.subrange(i + 1, n as int));
            if from.len() == 0 {
                push_all(&mut out, to);
            }
            out.push(s[i]);
            i = i + 1;
            assert(out@ + replaced(s@.subrange(i as int, n as int), from@, to@) =~= before + replaced(u, from@, to@));
        }
    }
    if from.len() == 0 {
        push_all(&mut out, to);
    }
    assert(out@ =~= replaced(s@, from@, to@));
    out
}

/// Replaces every non-overlapping occurrence of `from` in `s` by `to`.
pub fn replace_all(s: &str, from: &str, to: &str) -> (r: String)
    ensures
        r@ == replaced(s@, from@, to@),
{
    let sv = chars_of(s);
    let fv = chars_of(from);
    let tv = chars_of(to);
    let rv = replace_chars(&sv, &fv, &tv);
    string_of(&rv)
}

} // verus!
