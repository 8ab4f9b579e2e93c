//! Byte-sequence helpers shared by the codec and the resolver: searching for a
//! pattern, splitting and joining on a separator byte, comparing slices, and
//! rendering an integer in decimal ASCII.
use vstd::prelude::*;
use vstd::string::StringSliceAdditionalSpecFns;

verus! {

/// Carriage return.
pub const CR: u8 = 13;

/// Line feed.
pub const LF: u8 = 10;

/// Space.
pub const SP: u8 = 32;

/// `/`, the path separator in request targets.
pub const SLASH: u8 = 47;

/// `?`, the start of a query suffix.
pub const QMARK: u8 = 63;

/// `.`, for extensions and the `.`/`..` path components.
pub const DOT: u8 = 46;

/// `0`, the base of the decimal digit range.
pub const DIGIT_ZERO: u8 = 48;

/// The pattern `pat` occurs in `s` at offset `i`.
pub open spec fn matches_at(s: Seq<u8>, pat: Seq<u8>, i: int) -> bool {
    0 <= i && i + pat.len() <= s.len() && s.subrange(i, i + pat.len()) == pat
}

/// The pattern `pat` occurs somewhere in `s`.
pub open spec fn contains_pat(s: Seq<u8>, pat: Seq<u8>) -> bool {
    exists|i: int| matches_at(s, pat, i)
}

/// Offset of the first occurrence of `pat` in `s`; `s.len()` when there is none.
pub open spec fn first_pat(s: Seq<u8>, pat: Seq<u8>) -> int
    decreases s.len(),
{
    if s.len() == 0 {
        0
    } else if s.len() < pat.len() {
        s.len() as int
    } else if s.subrange(0, pat.len() as int) == pat {
        0
    } else {
        1 + first_pat(s.subrange(1, s.len() as int), pat)
    }
}

/// `first_pat` is the least offset at which `pat` occurs, or `s.len()` when
/// `pat` does not occur at all.
pub proof fn lemma_first_pat(s: Seq<u8>, pat: Seq<u8>)
    requires
        pat.len() >= 1,
    ensures
        0 <= first_pat(s, pat) <= s.len(),
        first_pat(s, pat) < s.len() ==> matches_at(s, pat, first_pat(s, pat)),
        forall|j: int| 0 <= j < first_pat(s, pat) ==> !matches_at(s, pat, j),
        first_pat(s, pat) == s.len() ==> !contains_pat(s, pat),
    decreases s.len(),
{
    if s.len() == 0 {
        assert forall|i: int| !matches_at(s, pat, i) by {}
    } else if s.len() < pat.len() {
        assert forall|i: int| !matches_at(s, pat, i) by {}
    } else if s.subrange(0, pat.len() as int) == pat {
        assert(matches_at(s, pat, 0));
    } else {
        let t = s.subrange(1, s.len() as int);
        lemma_first_pat(t, pat);
        let f = first_pat(s, pat);
        assert forall|j: int| 0 <= j implies (matches_at(s, pat, j + 1) <==> matches_at(
            t,
            pat,
            j,
        )) by {
            if j + 1 + pat.len() <= s.len() {
                assert(s.subrange(j + 1, j + 1 + pat.len() as int) =~= t.subrange(
                    j,
                    j + pat.len() as int,
                ));
            }
        }
        assert(!matches_at(s, pat, 0));
        if first_pat(t, pat) < t.len() {
            assert(matches_at(s, pat, f));
            assert forall|j: int| 0 <= j < f implies !matches_at(s, pat, j) by {
                if j > 0 {
                    assert(!matches_at(t, pat, j - 1));
                }
            }
        } else {
            assert(f == s.len());
            assert forall|i: int| !matches_at(s, pat, i) by {
                if 1 <= i {
                    assert(!matches_at(t, pat, i - 1));
                }
            }
        }
    }
}

/// An offset that matches, with nothing matching before it, is `first_pat`.
pub proof fn lemma_first_pat_is(s: Seq<u8>, pat: Seq<u8>, i: int)
    requires
        pat.len() >= 1,
        matches_at(s, pat, i),
        forall|j: int| 0 <= j < i ==> !matches_at(s, pat, j),
    ensures
        first_pat(s, pat) == i,
{
    lemma_first_pat(s, pat);
    let f = first_pat(s, pat);
    if f < i {
        assert(!matches_at(s, pat, f));
    } else if f > i {
        if f == s.len() {
            assert(contains_pat(s, pat));
        }
        assert(!matches_at(s, pat, i));
    }
}

/// Whether `pat` occurs in `buf` at offset `i`, byte for byte.
pub fn match_at(buf: &[u8], pat: &[u8], i: usize) -> (r: bool)
    requires
        i + pat@.len() <= buf@.len(),
    ensures
        r == matches_at(buf@, pat@, i as int),
{
    let buf_len = buf.len();
    let mut j: usize = 0;
    while j < pat.len()
        invariant
            i + pat@.len() <= buf@.len(),
            buf@.len() == buf_len,
            0 <= j <= pat@.len(),
            forall|k: int| 0 <= k < j ==> buf@[i + k] == pat@[k],
        decreases pat@.len() - j,
    {
        if buf[i + j] != pat[j] {
            assert(buf@.subrange(i as int, i + pat@.len()) != pat@) by {
                assert(buf@.subrange(i as int, i + pat@.len())[j as int] != pat@[j as int]);
            }
            return false;
        }
        j += 1;
    }
    assert(buf@.subrange(i as int, i + pat@.len()) =~= pat@);
    true
}

/// Offset of the first occurrence of `pat` in `buf`, if any.
pub fn find_pattern(buf: &[u8], pat: &[u8]) -> (r: Option<usize>)
    requires
        pat@.len() >= 1,
    ensures
        match r {
            Some(i) => i as int == first_pat(buf@, pat@) && matches_at(buf@, pat@, i as int),
            None => first_pat(buf@, pat@) == buf@.len() && !contains_pat(buf@, pat@),
        },
{
    if buf.len() < pat.len() {
        proof {
            lemma_first_pat(buf@, pat@);
        }
        return None;
    }
    let last: usize = buf.len() - pat.len();
    let mut i: usize = 0;
    while i <= last
        invariant
            pat@.len() >= 1,
            buf@.len() <= usize::MAX,
            last == buf@.len() - pat@.len(),
            0 <= i <= last + 1,
            forall|j: int| 0 <= j < i ==> !matches_at(buf@, pat@, j),
        decreases last + 1 - i,
    {
        if match_at(buf, pat, i) {
            proof {
                lemma_first_pat_is(buf@, pat@, i as int);
            }
            return Some(i);
        }
        i += 1;
    }
    proof {
        assert forall|j: int| !matches_at(buf@, pat@, j) by {
            if 0 <= j && j + pat@.len() <= buf@.len() {
                assert(j < i);
            }
        }
        lemma_first_pat(buf@, pat@);
        if first_pat(buf@, pat@) < buf@.len() {
            assert(matches_at(buf@, pat@, first_pat(buf@, pat@)));
        }
    }
    None
}

/// A one-byte pattern matches at `i` exactly when the byte there is it.
pub proof fn lemma_byte_match(s: Seq<u8>, b: u8, i: int)
    requires
        0 <= i < s.len(),
    ensures
        matches_at(s, seq![b], i) <==> s[i] == b,
{
    assert(s.subrange(i, i + 1) =~= seq![s[i]]);
    if s[i] == b {
        assert(s.subrange(i, i + 1) =~= seq![b]);
    } else {
        assert(s.subrange(i, i + 1)[0] != b);
    }
}

/// Whether the two slices hold the same bytes.
pub fn eq_bytes(a: &[u8], b: &[u8]) -> (r: bool)
    ensures
        r == (a@ == b@),
{
    if a.len() != b.len() {
        return false;
    }
    let mut i: usize = 0;
    while i < a.len()
        invariant
            a@.len() == b@.len(),
            0 <= i <= a@.len(),
            forall|k: int| 0 <= k < i ==> a@[k] == b@[k],
        decreases a@.len() - i,
    {
        if a[i] != b[i] {
            return false;
        }
        i += 1;
    }
    proof {
        assert(a@ =~= b@);
    }
    true
}

/// Appends the bytes of `s` to `out`.
pub fn push_bytes(out: &mut Vec<u8>, s: &[u8])
    ensures
        final(out)@ == old(out)@ + s@,
{
    let mut i: usize = 0;
    while i < s.len()
        invariant
            0 <= i <= s@.len(),
            out@ == old(out)@ + s@.subrange(0, i as int),
        decreases s@.len() - i,
    {
        out.push(s[i]);
        proof {
            assert(old(out)@ + s@.subrange(0, i as int) + seq![s@[i as int]] =~= old(out)@
                + s@.subrange(0, i + 1));
        }
        i += 1;
    }
    proof {
        assert(s@.subrange(0, s@.len() as int) =~= s@);
    }
}

/// Copies a slice into an owned vector.
pub fn copy_bytes(s: &[u8]) -> (r: Vec<u8>)
    ensures
        r@ == s@,
{
    let mut v: Vec<u8> = Vec::new();
    push_bytes(&mut v, s);
    v
}

/// Appends the UTF-8 bytes of `s` to `out`.
pub fn push_str(out: &mut Vec<u8>, s: &str)
    ensures
        final(out)@ == old(out)@ + s.spec_bytes(),
{
    push_bytes(out, s.as_bytes());
}

/// The decimal digits of `n`, as ASCII bytes, most significant first.
pub open spec fn dec_bytes(n: nat) -> Seq<u8>
    decreases n,
{
    if n < 10 {
        seq![(DIGIT_ZERO + n) as u8]
    } else {
        dec_bytes(n / 10) + seq![(DIGIT_ZERO + n % 10) as u8]
    }
}

/// Renders `n` in decimal ASCII.
pub fn dec_u64(n: u64) -> (r: Vec<u8>)
    ensures
        r@ == dec_bytes(n as nat),
{
    let mut out: Vec<u8> = Vec::new();
    let mut m: u64 = n;
    loop
        invariant_except_break
            out@.len() == 0 || m > 0,
        invariant
            out@.len() == 0 ==> m == n,
            out@.len() > 0 && m > 0 ==> dec_bytes(n as nat) == dec_bytes(m as nat) + out@,
            out@.len() > 0 && m == 0 ==> dec_bytes(n as nat) == out@,
        ensures
            dec_bytes(n as nat) == out@,
        decreases m,
    {
        let ghost m0 = m as nat;
        let ghost out0 = out@;
        let d: u8 = DIGIT_ZERO + (m % 10) as u8;
        out.insert(0, d);
        m = m / 10;
        proof {
            assert(out@ =~= seq![d] + out0);
            if m0 < 10 {
                assert(dec_bytes(m0) =~= seq![d]);
                if out0.len() == 0 {
                    assert(dec_bytes(n as nat) =~= out@);
                } else {
                    assert(dec_bytes(n as nat) =~= dec_bytes(m0) + out0);
                    assert(dec_bytes(n as nat) =~= out@);
                }
            } else {
                assert(dec_bytes(m0) == dec_bytes(m0 / 10) + seq![d]);
                if out0.len() == 0 {
                    assert(dec_bytes(n as nat) =~= dec_bytes(m as nat) + out@);
                } else {
                    assert(dec_bytes(n as nat) =~= dec_bytes(m0) + out0);
                    assert(dec_bytes(n as nat) =~= dec_bytes(m as nat) + out@);
                }
            }
        }
        if m == 0 {
            break;
        }
    }
    out
}

} // verus!
