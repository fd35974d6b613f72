//! Derived-text transforms over captured byte strings: the substring
//! transform that trims a captured value by character positions, and the
//! template splice that substitutes the transformed value for its
//! metavariable reference inside a fix template.

use vstd::prelude::*;

verus! {

/// A character position resolved against a text of length `len`:
/// negative positions count from the end; out-of-range positions clamp
/// to the bounds.
pub open spec fn resolve_char_index(len: int, idx: int) -> int {
    let k = if idx < 0 {
        len + idx
    } else {
        idx
    };
    if k < 0 {
        0
    } else if k > len {
        len
    } else {
        k
    }
}

/// The substring between two resolved character positions: empty when
/// the resolved start does not lie before the resolved end. An absent
/// start means the beginning of the text; an absent end means its end.
pub open spec fn substring_spec(t: Seq<u8>, start: Option<int>, end: Option<int>) -> Seq<u8> {
    let a = resolve_char_index(t.len() as int, start.unwrap_or(0));
    let b = resolve_char_index(t.len() as int, end.unwrap_or(t.len() as int));
    if a <= b {
        t.subrange(a, b)
    } else {
        Seq::empty()
    }
}

/// Trims `text` to the span between `start_char` and `end_char`, both
/// resolved as [`resolve_char_index`] says.
pub fn substring_bytes(text: &Vec<u8>, start_char: Option<i64>, end_char: Option<i64>) -> (r: Vec<
    u8,
>)
    requires
        text@.len() <= i64::MAX,
    ensures
        r@ == substring_spec(
            text@,
            match start_char {
                None => None,
                Some(s) => Some(s as int),
            },
            match end_char {
                None => None,
                Some(e) => Some(e as int),
            },
        ),
{
    let n = text.len();
    let a = resolve_index(n, start_char.unwrap_or(0));
    let b = match end_char {
        None => n,
        Some(e) => resolve_index(n, e),
    };
    let mut out: Vec<u8> = Vec::new();
    if a > b {
        proof {
            assert(out@ =~= Seq::<u8>::empty());
        }
        return out;
    }
    let mut k: usize = a;
    while k < b
        invariant
            a <= k <= b <= text@.len(),
            out@ == text@.subrange(a as int, k as int),
        decreases b - k,
    {
        assert(text@.subrange(a as int, k as int + 1) =~= text@.subrange(a as int, k as int).push(
            text@[k as int],
        ));
        out.push(text[k]);
        k = k + 1;
    }
    out
}

/// Resolves one character position against a text of length `n`.
fn resolve_index(n: usize, idx: i64) -> (r: usize)
    requires
        n <= i64::MAX,
    ensures
        r == resolve_char_index(n as int, idx as int),
{
    if idx < 0 {
        if idx + (n as i64) < 0 {
            0
        } else {
            (idx + (n as i64)) as usize
        }
    } else if idx > (n as i64) {
        n
    } else {
        idx as usize
    }
}

/// `t` with every occurrence of `pat` replaced by `val`, scanning left to
/// right and never rescanning replaced text.
pub open spec fn replace_spec(t: Seq<u8>, pat: Seq<u8>, val: Seq<u8>) -> Seq<u8>
    decreases t.len(),
    when pat.len() > 0
{
    if t.len() < pat.len() {
        t
    } else if t.subrange(0, pat.len() as int) == pat {
        val + replace_spec(t.skip(pat.len() as int), pat, val)
    } else {
        seq![t[0]] + replace_spec(t.skip(1), pat, val)
    }
}

/// Whether `pat` occurs in `t` at position `i`.
fn matches_at(t: &Vec<u8>, i: usize, pat: &Vec<u8>) -> (b: bool)
    requires
        i + pat@.len() <= t@.len(),
    ensures
        b == (t@.subrange(i as int, i as int + pat@.len()) == pat@),
{
    let n = t.len();
    let mut j: usize = 0;
    while j < pat.len()
        invariant
            n == t@.len(),
            0 <= j <= pat@.len(),
            i + pat@.len() <= t@.len(),
            forall|m: int| 0 <= m < j ==> t@[i + m] == pat@[m],
        decreases pat@.len() - j,
    {
        assert(i + j < n);
        if t[i + j] != pat[j] {
            assert(t@.subrange(i as int, i as int + pat@.len())[j as int] != pat@[j as int]);
            return false;
        }
        j = j + 1;
    }
    proof {
        assert(t@.subrange(i as int, i as int + pat@.len()) =~= pat@);
    }
    true
}

/// Splices `val` into `t` in place of every occurrence of `pat`,
/// scanning left to right: the instantiation of a fix template whose
/// metavariable reference is `pat` with the transformed value `val`.
#[verifier::rlimit(60)]
pub fn replace_bytes(t: &Vec<u8>, pat: &Vec<u8>, val: &Vec<u8>) -> (r: Vec<u8>)
    requires
        pat@.len() > 0,
    ensures
        r@ == replace_spec(t@, pat@, val@),
{
    let mut out: Vec<u8> = Vec::new();
    let mut i: usize = 0;
    proof {
        assert(t@.skip(0) =~= t@);
        assert(Seq::<u8>::empty() + replace_spec(t@, pat@, val@) =~= replace_spec(t@, pat@, val@));
    }
    while i < t.len()
        invariant
            0 <= i <= t@.len(),
            pat@.len() > 0,
            replace_spec(t@, pat@, val@) == out@ + replace_spec(t@.skip(i as int), pat@, val@),
        decreases t@.len() - i,
    {
        let ghost rest = t@.skip(i as int);
        proof {
            assert(rest.len() == t@.len() - i);
            assert(forall|m: int| 0 <= m < rest.len() ==> rest[m] == t@[i + m]);
        }
        if pat.len() <= t.len() - i && matches_at(t, i, pat) {
            proof {
                assert(rest.subrange(0, pat@.len() as int) =~= t@.subrange(
                    i as int,
                    i as int + pat@.len(),
                ));
                assert(rest.skip(pat@.len() as int) =~= t@.skip(i as int + pat@.len()));
                assert(replace_spec(rest, pat@, val@) == val@ + replace_spec(
                    t@.skip(i as int + pat@.len()),
                    pat@,
                    val@,
                ));
            }
            let ghost out0 = out@;
            let mut m: usize = 0;
            while m < val.len()
                invariant
                    0 <= m <= val@.len(),
                    out@ == out0 + val@.subrange(0, m as int),
                decreases val@.len() - m,
            {
                assert(val@.subrange(0, m as int + 1) =~= val@.subrange(0, m as int).push(
                    val@[m as int],
                ));
                out.push(val[m]);
                m = m + 1;
            }
            proof {
                assert(out@ =~= out0 + val@);
                assert(out0 + replace_spec(rest, pat@, val@) =~= out@ + replace_spec(
                    t@.skip(i as int + pat@.len()),
                    pat@,
                    val@,
                ));
            }
            i = i + pat.len();
        } else {
            proof {
                if rest.len() >= pat@.len() {
                    assert(rest.subrange(0, pat@.len() as int) =~= t@.subrange(
                        i as int,
                        i as int + pat@.len(),
                    ));
                    assert(rest.subrange(0, pat@.len() as int) != pat@);
                }
                assert(rest.skip(1) =~= t@.skip(i as int + 1));
                assert(seq![rest[0]] =~= seq![t@[i as int]]);
                assert(replace_spec(rest, pat@, val@) == seq![t@[i as int]] + replace_spec(
                    t@.skip(i as int + 1),
                    pat@,
                    val@,
                ));
            }
            let ghost out0 = out@;
            out.push(t[i]);
            proof {
                assert(out@ =~= out0 + seq![t@[i as int]]);
                assert(out0 + replace_spec(rest, pat@, val@) =~= out@ + replace_spec(
                    t@.skip(i as int + 1),
                    pat@,
                    val@,
                ));
            }
            i = i + 1;
        }
    }
    proof {
        assert(t@.skip(i as int) =~= Seq::<u8>::empty());
        assert(replace_spec(t@.skip(i as int), pat@, val@) == t@.skip(i as int));
        assert(out@ + replace_spec(t@.skip(i as int), pat@, val@) =~= out@);
    }
    out
}

} // verus!
