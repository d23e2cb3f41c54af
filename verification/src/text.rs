//! Byte-string primitives: case folding, substring search, prefix tests,
//! concatenation, trimming, splitting off the last `/`-separated segment and
//! template replacement, each with an exact `Seq<u8>` specification.

use vstd::prelude::*;
use vstd::string::StringSliceAdditionalSpecFns;

verus! {

/// ASCII lower-casing of a single byte; all other bytes are untouched.
pub open spec fn lower_byte(b: u8) -> u8 {
    if 65 <= b && b <= 90 {
        (b + 32) as u8
    } else {
        b
    }
}

/// ASCII lower-casing of a byte string. Bytes outside `A`..`Z` (including
/// every byte of a multi-byte UTF-8 sequence) are left as they are: case
/// folding is ASCII-only by design, since every keyword, prefix and match
/// pattern in the rule tables is ASCII. A character that only Unicode
/// folding would map into ASCII is deliberately not matched.
pub open spec fn lower(s: Seq<u8>) -> Seq<u8> {
    Seq::new(s.len(), |i: int| lower_byte(s[i]))
}

/// `pat` occurs somewhere inside `s`.
pub open spec fn has_sub(s: Seq<u8>, pat: Seq<u8>) -> bool {
    exists|i: int|
        0 <= i && i + pat.len() <= s.len() && #[trigger] s.subrange(i, i + pat.len() as int) == pat
}

/// The suffix of `s` after its last `/` byte; `s` itself when it has none.
pub open spec fn spec_last_segment(s: Seq<u8>) -> Seq<u8>
    decreases s.len(),
{
    if s.len() == 0 {
        s
    } else if s.last() == 47u8 {
        Seq::empty()
    } else {
        spec_last_segment(s.drop_last()).push(s.last())
    }
}

/// Greedy left-to-right replacement of every occurrence of `pat` by `rep`.
pub open spec fn spec_replace_all(s: Seq<u8>, pat: Seq<u8>, rep: Seq<u8>) -> Seq<u8>
    decreases s.len(),
    when pat.len() > 0
{
    if s.len() == 0 {
        s
    } else if pat.is_prefix_of(s) {
        rep + spec_replace_all(s.skip(pat.len() as int), pat, rep)
    } else {
        seq![s[0]] + spec_replace_all(s.skip(1), pat, rep)
    }
}

/// ASCII whitespace, as `u8`.
pub open spec fn is_space(b: u8) -> bool {
    b == 32 || b == 9 || b == 10 || b == 13
}

/// `s` without leading ASCII whitespace.
pub open spec fn spec_trim_start(s: Seq<u8>) -> Seq<u8>
    decreases s.len(),
{
    if s.len() > 0 && is_space(s[0]) {
        spec_trim_start(s.skip(1))
    } else {
        s
    }
}

/// `s` without trailing ASCII whitespace.
pub open spec fn spec_trim_end(s: Seq<u8>) -> Seq<u8>
    decreases s.len(),
{
    if s.len() > 0 && is_space(s.last()) {
        spec_trim_end(s.drop_last())
    } else {
        s
    }
}

/// `s` without leading and trailing ASCII whitespace.
pub open spec fn spec_trim(s: Seq<u8>) -> Seq<u8> {
    spec_trim_end(spec_trim_start(s))
}

/// The byte string of a string literal, for building rule tables and
/// messages; fully verified against vstd's specification of `str::as_bytes`.
pub fn bs(s: &str) -> (r: Vec<u8>)
    ensures
        r@ == s.spec_bytes(),
{
    vstd::slice::slice_to_vec(s.as_bytes())
}

/// ASCII lower-casing, byte for byte.
pub fn to_lower(s: &Vec<u8>) -> (r: Vec<u8>)
    ensures
        r@ == lower(s@),
{
    let mut out: Vec<u8> = Vec::new();
    let mut i: usize = 0;
    while i < s.len()
        invariant
            i <= s.len(),
            out@.len() == i,
            forall|j: int| 0 <= j < i ==> out@[j] == lower_byte(s@[j]),
        decreases s.len() - i,
    {
        let b = s[i];
        if 65 <= b && b <= 90 {
            out.push(b + 32);
        } else {
            out.push(b);
        }
        i = i + 1;
    }
    proof {
        assert(out@ =~= lower(s@));
    }
    out
}

/// Byte-for-byte equality.
pub fn bytes_eq(a: &Vec<u8>, b: &Vec<u8>) -> (r: bool)
    ensures
        r == (a@ == b@),
{
    if a.len() != b.len() {
        return false;
    }
    let mut i: usize = 0;
    while i < a.len()
        invariant
            i <= a.len(),
            a@.len() == b@.len(),
            forall|j: int| 0 <= j < i ==> a@[j] == b@[j],
        decreases a.len() - i,
    {
        if a[i] != b[i] {
            return false;
        }
        i = i + 1;
    }
    proof {
        assert(a@ =~= b@);
    }
    true
}

/// Whether `s` starts with `p`.
pub fn starts_with(s: &Vec<u8>, p: &Vec<u8>) -> (r: bool)
    ensures
        r == p@.is_prefix_of(s@),
{
    if p.len() > s.len() {
        return false;
    }
    let mut i: usize = 0;
    while i < p.len()
        invariant
            i <= p.len(),
            p@.len() <= s@.len(),
            forall|j: int| 0 <= j < i ==> s@[j] == p@[j],
        decreases p.len() - i,
    {
        if s[i] != p[i] {
            proof {
                assert(!p@.is_prefix_of(s@)) by {
                    if p@.is_prefix_of(s@) {
                        assert(p@[i as int] == s@.subrange(0, p@.len() as int)[i as int]);
                    }
                };
            }
            return false;
        }
        i = i + 1;
    }
    proof {
        assert(p@ =~= s@.subrange(0, p@.len() as int));
    }
    true
}

/// Whether `pat` matches `s` at offset `at`.
fn matches_at(s: &Vec<u8>, at: usize, pat: &Vec<u8>) -> (r: bool)
    requires
        at + pat@.len() <= s@.len(),
    ensures
        r == (s@.subrange(at as int, at + pat@.len()) == pat@),
{
    let n = s.len();
    let mut i: usize = 0;
    while i < pat.len()
        invariant
            i <= pat.len(),
            n == s@.len(),
            at + pat@.len() <= s@.len(),
            forall|j: int| 0 <= j < i ==> s@[at + j] == pat@[j],
        decreases pat.len() - i,
    {
        if s[at + i] != pat[i] {
            proof {
                assert(s@.subrange(at as int, at + pat@.len())[i as int] == s@[at + i]);
            }
            return false;
        }
        i = i + 1;
    }
    proof {
        assert(s@.subrange(at as int, at + pat@.len()) =~= pat@);
    }
    true
}

/// Whether `pat` occurs anywhere inside `s`.
pub fn contains_sub(s: &Vec<u8>, pat: &Vec<u8>) -> (r: bool)
    ensures
        r == has_sub(s@, pat@),
{
    if pat.len() > s.len() {
        return false;
    }
    if pat.len() == 0 {
        proof {
            assert(s@.subrange(0, 0 + pat@.len() as int) =~= pat@);
            assert(0 <= 0int && 0 + pat@.len() <= s@.len());
        }
        return true;
    }
    let last = s.len() - pat.len();
    let mut i: usize = 0;
    while i <= last
        invariant
            i <= last + 1,
            pat@.len() > 0,
            last == s@.len() - pat@.len(),
            forall|k: int| 0 <= k < i ==> #[trigger] s@.subrange(k, k + pat@.len()) != pat@,
        decreases last + 1 - i,
    {
        if matches_at(s, i, pat) {
            proof {
                assert(0 <= i as int && i as int + pat@.len() <= s@.len() && s@.subrange(
                    i as int,
                    i as int + pat@.len() as int,
                ) == pat@);
            }
            return true;
        }
        i = i + 1;
    }
    false
}

/// `a` followed by `b`.
pub fn concat_bytes(a: &Vec<u8>, b: &Vec<u8>) -> (r: Vec<u8>)
    ensures
        r@ == a@ + b@,
{
    let mut out: Vec<u8> = Vec::new();
    let mut i: usize = 0;
    while i < a.len()
        invariant
            i <= a.len(),
            out@ == a@.subrange(0, i as int),
        decreases a.len() - i,
    {
        out.push(a[i]);
        proof {
            assert(out@ =~= a@.subrange(0, i + 1));
        }
        i = i + 1;
    }
    let mut j: usize = 0;
    while j < b.len()
        invariant
            j <= b.len(),
            out@ == a@ + b@.subrange(0, j as int),
        decreases b.len() - j,
    {
        out.push(b[j]);
        proof {
            assert(out@ =~= a@ + b@.subrange(0, j + 1));
        }
        j = j + 1;
    }
    proof {
        assert(a@.subrange(0, a@.len() as int) =~= a@);
        assert(out@ =~= a@ + b@);
    }
    out
}

/// `prefix`, a `/`, then `rest`: the backend-prefixed form of an identifier.
pub fn prefixed(prefix: &Vec<u8>, rest: &Vec<u8>) -> (r: Vec<u8>)
    ensures
        r@ == prefix@ + seq![47u8] + rest@,
{
    let mut out = concat_bytes(prefix, rest);
    out.truncate(prefix.len());
    out.push(47);
    let mut j: usize = 0;
    while j < rest.len()
        invariant
            j <= rest.len(),
            out@ == prefix@ + seq![47u8] + rest@.subrange(0, j as int),
        decreases rest.len() - j,
    {
        out.push(rest[j]);
        proof {
            assert(out@ =~= prefix@ + seq![47u8] + rest@.subrange(0, j + 1));
        }
        j = j + 1;
    }
    proof {
        assert(out@ =~= prefix@ + seq![47u8] + rest@);
    }
    out
}

/// The suffix after the last `/`.
pub fn last_segment(s: &Vec<u8>) -> (r: Vec<u8>)
    ensures
        r@ == spec_last_segment(s@),
{
    let mut j: usize = s.len();
    while j > 0
        invariant
            j <= s.len(),
            forall|k: int| j <= k < s@.len() ==> s@[k] != 47u8,
        decreases j,
    {
        if s[j - 1] == 47 {
            break;
        }
        j = j - 1;
    }
    proof {
        lemma_last_segment_from(s@, j as int);
    }
    let mut out: Vec<u8> = Vec::new();
    let mut i: usize = j;
    while i < s.len()
        invariant
            j <= i <= s.len(),
            out@ == s@.subrange(j as int, i as int),
        decreases s.len() - i,
    {
        out.push(s[i]);
        proof {
            assert(out@ =~= s@.subrange(j as int, i + 1));
        }
        i = i + 1;
    }
    out
}

/// After the last `/` of `s` only slash-free bytes remain, and the segment
/// before it is exactly where the last `/` stands.
proof fn lemma_last_segment_from(s: Seq<u8>, j: int)
    requires
        0 <= j <= s.len(),
        forall|k: int| j <= k < s.len() ==> s[k] != 47u8,
        j == 0 || s[j - 1] == 47u8,
    ensures
        spec_last_segment(s) == s.subrange(j, s.len() as int),
    decreases s.len(),
{
    if s.len() == 0 {
        assert(spec_last_segment(s) =~= s.subrange(j, s.len() as int));
    } else if s.last() == 47u8 {
        assert(j == s.len());
        assert(spec_last_segment(s) =~= s.subrange(j, s.len() as int));
    } else {
        assert(j < s.len());
        lemma_last_segment_from(s.drop_last(), j);
        assert(s.subrange(j, s.len() as int) =~= s.drop_last().subrange(
            j,
            s.len() - 1,
        ).push(s.last()));
    }
}

/// The last segment never holds a `/`.
pub proof fn lemma_last_segment_no_slash(s: Seq<u8>)
    ensures
        forall|k: int| 0 <= k < spec_last_segment(s).len() ==> spec_last_segment(s)[k] != 47u8,
    decreases s.len(),
{
    if s.len() == 0 {
    } else if s.last() == 47u8 {
    } else {
        lemma_last_segment_no_slash(s.drop_last());
        let t = spec_last_segment(s.drop_last());
        assert(forall|k: int|
            0 <= k < spec_last_segment(s).len() ==> spec_last_segment(s)[k] != 47u8) by {
            assert(forall|k: int| 0 <= k < t.len() ==> t.push(s.last())[k] == t[k]);
            assert(t.push(s.last())[t.len() as int] == s.last());
        };
    }
}

/// Taking the last segment twice is the same as taking it once.
pub proof fn lemma_last_segment_of_slash_free(s: Seq<u8>)
    requires
        forall|k: int| 0 <= k < s.len() ==> s[k] != 47u8,
    ensures
        spec_last_segment(s) == s,
    decreases s.len(),
{
    if s.len() == 0 {
    } else {
        lemma_last_segment_of_slash_free(s.drop_last());
        assert(spec_last_segment(s) =~= s);
    }
}

/// The last segment of `prefix + "/" + rest` is `rest` whenever `rest` is
/// slash-free.
pub proof fn lemma_last_segment_after_prefix(prefix: Seq<u8>, rest: Seq<u8>)
    requires
        forall|k: int| 0 <= k < rest.len() ==> rest[k] != 47u8,
    ensures
        spec_last_segment(prefix + seq![47u8] + rest) == rest,
{
    let s = prefix + seq![47u8] + rest;
    let j = prefix.len() + 1;
    assert(s[j - 1] == 47u8);
    assert(forall|k: int| j <= k < s.len() ==> s[k] == rest[k - j] && s[k] != 47u8);
    lemma_last_segment_from(s, j as int);
    assert(s.subrange(j as int, s.len() as int) =~= rest);
}

/// Replace every occurrence of `pat` inside `s` by `rep`.
pub fn replace_all(s: &Vec<u8>, pat: &Vec<u8>, rep: &Vec<u8>) -> (r: Vec<u8>)
    requires
        pat@.len() > 0,
    ensures
        r@ == spec_replace_all(s@, pat@, rep@),
{
    let mut out: Vec<u8> = Vec::new();
    let mut i: usize = 0;
    proof {
        assert(s@.skip(0) =~= s@);
    }
    while i < s.len()
        invariant
            i <= s.len(),
            spec_replace_all(s@, pat@, rep@) == out@ + spec_replace_all(
                s@.skip(i as int),
                pat@,
                rep@,
            ),
        decreases s.len() - i,
    {
        let ghost tail = s@.skip(i as int);
        if pat.len() <= s.len() - i && matches_at(s, i, pat) {
            proof {
                assert(s@.subrange(i as int, i + pat@.len()) =~= tail.subrange(
                    0,
                    pat@.len() as int,
                ));
                assert(pat@.is_prefix_of(tail));
                assert(tail.skip(pat@.len() as int) =~= s@.skip(i + pat@.len()));
            }
            let ghost rt = spec_replace_all(s@.skip(i + pat@.len()), pat@, rep@);
            proof {
                assert(rep@.skip(0) =~= rep@);
                assert(out@ + (rep@ + rt) =~= (out@ + rep@.skip(0)) + rt);
            }
            let mut k: usize = 0;
            while k < rep.len()
                invariant
                    k <= rep.len(),
                    spec_replace_all(s@, pat@, rep@) == (out@ + rep@.skip(k as int)) + rt,
                decreases rep.len() - k,
            {
                let ghost out0 = out@;
                out.push(rep[k]);
                proof {
                    assert(out0 + rep@.skip(k as int) =~= out@ + rep@.skip(k + 1));
                }
                k = k + 1;
            }
            proof {
                assert(out@ + rep@.skip(rep@.len() as int) =~= out@);
            }
            i = i + pat.len();
        } else {
            proof {
                if i + pat@.len() <= s@.len() {
                    assert(tail.subrange(0, pat@.len() as int) =~= s@.subrange(
                        i as int,
                        i + pat@.len(),
                    ));
                }
                assert(!pat@.is_prefix_of(tail));
                assert(tail.skip(1) =~= s@.skip(i + 1));
                assert(tail[0] == s@[i as int]);
            }
            let ghost out0 = out@;
            out.push(s[i]);
            proof {
                let r1 = spec_replace_all(s@.skip(i + 1), pat@, rep@);
                assert(out0 + (seq![s@[i as int]] + r1) =~= out@ + r1);
            }
            i = i + 1;
        }
    }
    proof {
        assert(s@.skip(s@.len() as int) =~= Seq::<u8>::empty());
        assert(out@ + Seq::<u8>::empty() =~= out@);
    }
    out
}

/// Strip leading and trailing ASCII whitespace.
pub fn trim(s: &Vec<u8>) -> (r: Vec<u8>)
    ensures
        r@ == spec_trim(s@),
{
    let mut start: usize = 0;
    proof {
        assert(s@.skip(0) =~= s@);
    }
    while start < s.len() && is_space_byte(s[start])
        invariant
            start <= s.len(),
            spec_trim_start(s@) == spec_trim_start(s@.skip(start as int)),
            forall|k: int| 0 <= k < start ==> is_space(s@[k]),
        decreases s.len() - start,
    {
        proof {
            assert(s@.skip(start as int).skip(1) =~= s@.skip(start + 1));
        }
        start = start + 1;
    }
    proof {
        assert(spec_trim_start(s@.skip(start as int)) == s@.skip(start as int));
    }
    let mut end: usize = s.len();
    proof {
        assert(s@.skip(start as int).take(s@.len() - start) =~= s@.skip(start as int));
    }
    while end > start && is_space_byte(s[end - 1])
        invariant
            start <= end <= s.len(),
            spec_trim_end(s@.skip(start as int)) == spec_trim_end(
                s@.skip(start as int).take(end - start),
            ),
        decreases end,
    {
        proof {
            let cur = s@.skip(start as int).take(end - start);
            assert(cur.last() == s@[end - 1]);
            assert(cur.drop_last() =~= s@.skip(start as int).take(end - 1 - start));
        }
        end = end - 1;
    }
    proof {
        let cur = s@.skip(start as int).take(end - start);
        if end > start {
            assert(cur.last() == s@[end - 1]);
        }
        assert(spec_trim_end(cur) == cur);
    }
    let mut out: Vec<u8> = Vec::new();
    let mut i: usize = start;
    while i < end
        invariant
            start <= i <= end <= s.len(),
            out@ == s@.subrange(start as int, i as int),
        decreases end - i,
    {
        out.push(s[i]);
        proof {
            assert(out@ =~= s@.subrange(start as int, i + 1));
        }
        i = i + 1;
    }
    proof {
        assert(out@ =~= s@.skip(start as int).take(end - start));
    }
    out
}

/// Executable form of `is_space`.
pub fn is_space_byte(b: u8) -> (r: bool)
    ensures
        r == is_space(b),
{
    b == 32 || b == 9 || b == 10 || b == 13
}

/// A substring of the second part of a concatenation is a substring of the
/// whole.
pub proof fn lemma_has_sub_in_suffix(a: Seq<u8>, b: Seq<u8>, pat: Seq<u8>)
    requires
        has_sub(b, pat),
    ensures
        has_sub(a + b, pat),
{
    let i = choose|i: int|
        0 <= i && i + pat.len() <= b.len() && #[trigger] b.subrange(i, i + pat.len() as int)
            == pat;
    assert((a + b).subrange(a.len() + i, a.len() + i + pat.len() as int) =~= b.subrange(
        i,
        i + pat.len() as int,
    ));
}

/// A slash-free substring of `a + b` lies wholly in `a` or wholly in `b`
/// whenever `a` ends with a `/`.
pub proof fn lemma_has_sub_split(a: Seq<u8>, b: Seq<u8>, pat: Seq<u8>)
    requires
        a.len() > 0,
        a.last() == 47u8,
        forall|k: int| 0 <= k < pat.len() ==> pat[k] != 47u8,
        has_sub(a + b, pat),
    ensures
        has_sub(a, pat) || has_sub(b, pat),
{
    let s = a + b;
    let i = choose|i: int|
        0 <= i && i + pat.len() <= s.len() && #[trigger] s.subrange(i, i + pat.len() as int)
            == pat;
    if i + pat.len() <= a.len() {
        assert(a.subrange(i, i + pat.len() as int) =~= s.subrange(i, i + pat.len() as int));
    } else if i >= a.len() {
        assert(b.subrange(i - a.len(), i - a.len() + pat.len() as int) =~= s.subrange(
            i,
            i + pat.len() as int,
        ));
    } else {
        let j = a.len() - 1 - i;
        assert(pat[j] == s.subrange(i, i + pat.len() as int)[j]);
        assert(s[a.len() - 1] == 47u8);
    }
}

/// A verified copy of a byte string.
pub fn copy_bytes(v: &Vec<u8>) -> (r: Vec<u8>)
    ensures
        r@ == v@,
{
    vstd::slice::slice_to_vec(v.as_slice())
}

/// Lower-casing distributes over concatenation.
pub proof fn lemma_lower_concat(a: Seq<u8>, b: Seq<u8>)
    ensures
        lower(a + b) == lower(a) + lower(b),
{
    assert(lower(a + b) =~= lower(a) + lower(b));
}

} // verus!
