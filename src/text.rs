//! Byte-level text helpers: ranges, escape substitution and trimming.
use vstd::prelude::*;

verus! {

/// A half-open `[start, end)` span of byte offsets into a source text.
#[derive(Clone, Copy, Debug, PartialEq, Eq, Structural)]
pub struct ByteRange {
    pub start: usize,
    pub end: usize,
}

impl ByteRange {
    pub open spec fn wf(&self) -> bool {
        self.start <= self.end
    }

    pub fn new(start: usize, end: usize) -> (r: ByteRange)
        requires
            start <= end,
        ensures
            r.start == start,
            r.end == end,
            r.wf(),
    {
        ByteRange { start, end }
    }
}

/// Rewrites, left to right and without overlap, every two-byte sequence `a b`
/// of `s` into the single byte `r`.
pub open spec fn replace_pair(s: Seq<u8>, a: u8, b: u8, r: u8) -> Seq<u8>
    decreases s.len(),
{
    if s.len() < 2 {
        s
    } else if s[0] == a && s[1] == b {
        seq![r] + replace_pair(s.subrange(2, s.len() as int), a, b, r)
    } else {
        seq![s[0]] + replace_pair(s.subrange(1, s.len() as int), a, b, r)
    }
}

pub open spec fn backslash() -> u8 {
    92u8
}

/// The escape substitutions, applied as whole-text rewrites in this order:
/// `\n`, `` \` ``, `\$`, `\^`, `\"`, and last `\\`.
pub open spec fn unescape_spec(s: Seq<u8>) -> Seq<u8> {
    let s1 = replace_pair(s, backslash(), 110u8, 10u8);
    let s2 = replace_pair(s1, backslash(), 96u8, 96u8);
    let s3 = replace_pair(s2, backslash(), 36u8, 36u8);
    let s4 = replace_pair(s3, backslash(), 94u8, 94u8);
    let s5 = replace_pair(s4, backslash(), 34u8, 34u8);
    replace_pair(s5, backslash(), backslash(), backslash())
}

proof fn lemma_replace_pair_len(s: Seq<u8>, a: u8, b: u8, r: u8)
    ensures
        replace_pair(s, a, b, r).len() <= s.len(),
    decreases s.len(),
{
    if s.len() >= 2 {
        if s[0] == a && s[1] == b {
            lemma_replace_pair_len(s.subrange(2, s.len() as int), a, b, r);
        } else {
            lemma_replace_pair_len(s.subrange(1, s.len() as int), a, b, r);
        }
    }
}

/// Unescaping never makes a text longer.
pub proof fn lemma_unescape_len(s: Seq<u8>)
    ensures
        unescape_spec(s).len() <= s.len(),
{
    let s1 = replace_pair(s, backslash(), 110u8, 10u8);
    let s2 = replace_pair(s1, backslash(), 96u8, 96u8);
    let s3 = replace_pair(s2, backslash(), 36u8, 36u8);
    let s4 = replace_pair(s3, backslash(), 94u8, 94u8);
    let s5 = replace_pair(s4, backslash(), 34u8, 34u8);
    lemma_replace_pair_len(s, backslash(), 110u8, 10u8);
    lemma_replace_pair_len(s1, backslash(), 96u8, 96u8);
    lemma_replace_pair_len(s2, backslash(), 36u8, 36u8);
    lemma_replace_pair_len(s3, backslash(), 94u8, 94u8);
    lemma_replace_pair_len(s4, backslash(), 34u8, 34u8);
    lemma_replace_pair_len(s5, backslash(), backslash(), backslash());
}

fn replace_pair_exec(s: &[u8], a: u8, b: u8, r: u8) -> (out: Vec<u8>)
    ensures
        out@ == replace_pair(s@, a, b, r),
{
    let mut out: Vec<u8> = Vec::new();
    let mut i: usize = 0;
    assert(s@.subrange(0, s@.len() as int) =~= s@);
    assert(out@ + s@ =~= s@);
    while i < s.len()
        invariant
            i <= s.len(),
            out@ + replace_pair(s@.subrange(i as int, s@.len() as int), a, b, r)
                == replace_pair(s@, a, b, r),
        decreases s.len() - i,
    {
        let ghost rest = s@.subrange(i as int, s@.len() as int);
        let ghost old_out = out@;
        if i + 1 < s.len() && s[i] == a && s[i + 1] == b {
            out.push(r);
            assert(rest.subrange(2, rest.len() as int) =~= s@.subrange(i + 2, s@.len() as int));
            assert(out@ =~= old_out + seq![r]);
            i = i + 2;
        } else {
            out.push(s[i]);
            proof {
                if rest.len() >= 2 {
                    assert(rest.subrange(1, rest.len() as int) =~= s@.subrange(i + 1, s@.len() as int));
                } else {
                    assert(s@.subrange(i + 1, s@.len() as int) =~= Seq::<u8>::empty());
                    assert(rest =~= seq![s[i as int]]);
                }
            }
            assert(out@ =~= old_out + seq![s[i as int]]);
            i = i + 1;
        }
    }
    assert(s@.subrange(i as int, s@.len() as int) =~= Seq::<u8>::empty());
    assert(out@ + Seq::<u8>::empty() =~= out@);
    out
}

/// Applies the escape substitutions of `unescape_spec` to raw snippet text.
pub fn unescape(raw: &[u8]) -> (out: Vec<u8>)
    ensures
        out@ == unescape_spec(raw@),
{
    let s1 = replace_pair_exec(raw, 92u8, 110u8, 10u8);
    let s2 = replace_pair_exec(s1.as_slice(), 92u8, 96u8, 96u8);
    let s3 = replace_pair_exec(s2.as_slice(), 92u8, 36u8, 36u8);
    let s4 = replace_pair_exec(s3.as_slice(), 92u8, 94u8, 94u8);
    let s5 = replace_pair_exec(s4.as_slice(), 92u8, 34u8, 34u8);
    replace_pair_exec(s5.as_slice(), 92u8, 92u8, 92u8)
}

/// A one-byte whitespace character: tab, line feed, vertical tab, form
/// feed, carriage return or space.
pub open spec fn is_space1(a: u8) -> bool {
    a == 32u8 || (9u8 <= a && a <= 13u8)
}

/// The UTF-8 encoding of U+0085 or U+00A0.
pub open spec fn is_space2(a: u8, b: u8) -> bool {
    a == 0xC2u8 && (b == 0x85u8 || b == 0xA0u8)
}

/// The UTF-8 encoding of U+1680, U+2000 to U+200A, U+2028, U+2029, U+202F,
/// U+205F or U+3000.
pub open spec fn is_space3(a: u8, b: u8, c: u8) -> bool {
    ||| (a == 0xE1u8 && b == 0x9Au8 && c == 0x80u8)
    ||| (a == 0xE2u8 && b == 0x80u8 && ((0x80u8 <= c && c <= 0x8Au8) || c == 0xA8u8 || c
        == 0xA9u8 || c == 0xAFu8))
    ||| (a == 0xE2u8 && b == 0x81u8 && c == 0x9Fu8)
    ||| (a == 0xE3u8 && b == 0x80u8 && c == 0x80u8)
}

/// The byte length of the whitespace character (Unicode `White_Space`) that
/// `s` starts with, or 0 if it starts with none.
pub open spec fn lead_space(s: Seq<u8>) -> int {
    if s.len() >= 1 && is_space1(s[0]) {
        1
    } else if s.len() >= 2 && is_space2(s[0], s[1]) {
        2
    } else if s.len() >= 3 && is_space3(s[0], s[1], s[2]) {
        3
    } else {
        0
    }
}

/// The byte length of the whitespace character that `s` ends with, or 0.
pub open spec fn trail_space(s: Seq<u8>) -> int {
    let n = s.len() as int;
    if n >= 1 && is_space1(s[n - 1]) {
        1
    } else if n >= 2 && is_space2(s[n - 2], s[n - 1]) {
        2
    } else if n >= 3 && is_space3(s[n - 3], s[n - 2], s[n - 1]) {
        3
    } else {
        0
    }
}

pub open spec fn trim_start(s: Seq<u8>) -> Seq<u8>
    decreases s.len(),
{
    if lead_space(s) > 0 {
        trim_start(s.subrange(lead_space(s), s.len() as int))
    } else {
        s
    }
}

pub open spec fn trim_end(s: Seq<u8>) -> Seq<u8>
    decreases s.len(),
{
    if trail_space(s) > 0 {
        trim_end(s.subrange(0, s.len() - trail_space(s)))
    } else {
        s
    }
}

/// `s` without its leading and trailing whitespace characters.
pub open spec fn trim_spec(s: Seq<u8>) -> Seq<u8> {
    trim_end(trim_start(s))
}

/// `w` is made of whitespace characters, read from its start.
pub open spec fn blank_from_start(w: Seq<u8>) -> bool {
    trim_start(w).len() == 0
}

/// `w` is made of whitespace characters, read from its end.
pub open spec fn blank_from_end(w: Seq<u8>) -> bool {
    trim_end(w).len() == 0
}

proof fn lemma_lead_space_prefix(w: Seq<u8>, x: Seq<u8>)
    requires
        lead_space(w) > 0,
    ensures
        lead_space(w + x) == lead_space(w),
{
    assert((w + x)[0] == w[0]);
    if w.len() >= 2 {
        assert((w + x)[1] == w[1]);
    }
    if w.len() >= 3 {
        assert((w + x)[2] == w[2]);
    }
}

proof fn lemma_trail_space_suffix(x: Seq<u8>, w: Seq<u8>)
    requires
        trail_space(w) > 0,
    ensures
        trail_space(x + w) == trail_space(w),
{
    let n = w.len() as int;
    let m = (x + w).len() as int;
    assert((x + w)[m - 1] == w[n - 1]);
    if n >= 2 {
        assert((x + w)[m - 2] == w[n - 2]);
    }
    if n >= 3 {
        assert((x + w)[m - 3] == w[n - 3]);
    }
}

/// Leading whitespace does not change the trimmed text.
pub proof fn lemma_trim_start_skips(w: Seq<u8>, x: Seq<u8>)
    requires
        blank_from_start(w),
    ensures
        trim_start(w + x) == trim_start(x),
    decreases w.len(),
{
    if w.len() == 0 {
        assert(w + x =~= x);
    } else {
        let k = lead_space(w);
        lemma_lead_space_prefix(w, x);
        assert((w + x).subrange(k, (w + x).len() as int) =~= w.subrange(k, w.len() as int) + x);
        lemma_trim_start_skips(w.subrange(k, w.len() as int), x);
    }
}

/// Trailing whitespace does not change the trimmed text.
pub proof fn lemma_trim_end_skips(x: Seq<u8>, w: Seq<u8>)
    requires
        blank_from_end(w),
    ensures
        trim_end(x + w) == trim_end(x),
    decreases w.len(),
{
    if w.len() == 0 {
        assert(x + w =~= x);
    } else {
        let k = trail_space(w);
        lemma_trail_space_suffix(x, w);
        assert((x + w).subrange(0, (x + w).len() - k) =~= x + w.subrange(0, w.len() - k));
        lemma_trim_end_skips(x, w.subrange(0, w.len() - k));
    }
}

/// Surrounding whitespace is exactly what trimming removes from a text
/// that neither starts nor ends with whitespace.
pub proof fn lemma_trim_padded(pre: Seq<u8>, core: Seq<u8>, post: Seq<u8>)
    requires
        blank_from_start(pre),
        blank_from_end(post),
        lead_space(core + post) == 0,
        trail_space(core) == 0,
    ensures
        trim_spec(pre + core + post) == core,
{
    assert(pre + core + post =~= pre + (core + post));
    lemma_trim_start_skips(pre, core + post);
    lemma_trim_end_skips(core, post);
}

fn is_space1_exec(a: u8) -> (r: bool)
    ensures
        r == is_space1(a),
{
    a == 32u8 || (9u8 <= a && a <= 13u8)
}

fn is_space2_exec(a: u8, b: u8) -> (r: bool)
    ensures
        r == is_space2(a, b),
{
    a == 0xC2u8 && (b == 0x85u8 || b == 0xA0u8)
}

fn is_space3_exec(a: u8, b: u8, c: u8) -> (r: bool)
    ensures
        r == is_space3(a, b, c),
{
    (a == 0xE1u8 && b == 0x9Au8 && c == 0x80u8) || (a == 0xE2u8 && b == 0x80u8 && ((0x80u8 <= c
        && c <= 0x8Au8) || c == 0xA8u8 || c == 0xA9u8 || c == 0xAFu8)) || (a == 0xE2u8 && b
        == 0x81u8 && c == 0x9Fu8) || (a == 0xE3u8 && b == 0x80u8 && c == 0x80u8)
}

fn lead_space_at(s: &[u8], lo: usize) -> (r: usize)
    requires
        lo <= s@.len(),
    ensures
        r == lead_space(s@.subrange(lo as int, s@.len() as int)),
{
    let n = s.len() - lo;
    if n >= 1 && is_space1_exec(s[lo]) {
        1
    } else if n >= 2 && is_space2_exec(s[lo], s[lo + 1]) {
        2
    } else if n >= 3 && is_space3_exec(s[lo], s[lo + 1], s[lo + 2]) {
        3
    } else {
        0
    }
}

fn trail_space_at(s: &[u8], lo: usize, hi: usize) -> (r: usize)
    requires
        lo <= hi <= s@.len(),
    ensures
        r == trail_space(s@.subrange(lo as int, hi as int)),
{
    let n = hi - lo;
    if n >= 1 && is_space1_exec(s[hi - 1]) {
        1
    } else if n >= 2 && is_space2_exec(s[hi - 2], s[hi - 1]) {
        2
    } else if n >= 3 && is_space3_exec(s[hi - 3], s[hi - 2], s[hi - 1]) {
        3
    } else {
        0
    }
}

/// Copies `s[lo..hi]` into a new vector.
pub fn copy_range(s: &[u8], lo: usize, hi: usize) -> (out: Vec<u8>)
    requires
        lo <= hi <= s@.len(),
    ensures
        out@ == s@.subrange(lo as int, hi as int),
{
    let mut out: Vec<u8> = Vec::new();
    let mut i: usize = lo;
    while i < hi
        invariant
            lo <= i <= hi <= s@.len(),
            out@ == s@.subrange(lo as int, i as int),
        decreases hi - i,
    {
        out.push(s[i]);
        assert(out@ =~= s@.subrange(lo as int, i + 1));
        i = i + 1;
    }
    out
}

/// Returns `s` without leading and trailing whitespace, as `str::trim`
/// removes it: the characters of Unicode's `White_Space` property.
pub fn trim_whitespace(s: &[u8]) -> (out: Vec<u8>)
    ensures
        out@ == trim_spec(s@),
{
    let mut lo: usize = 0;
    let mut k: usize = lead_space_at(s, 0);
    assert(s@.subrange(0, s@.len() as int) =~= s@);
    while k > 0
        invariant
            lo <= s@.len(),
            k == lead_space(s@.subrange(lo as int, s@.len() as int)),
            trim_start(s@.subrange(lo as int, s@.len() as int)) == trim_start(s@),
        decreases s.len() - lo,
    {
        let ghost rest = s@.subrange(lo as int, s@.len() as int);
        assert(rest.subrange(k as int, rest.len() as int) =~= s@.subrange(lo + k, s@.len() as int));
        lo = lo + k;
        k = lead_space_at(s, lo);
    }
    let ghost tail = s@.subrange(lo as int, s@.len() as int);
    assert(trim_start(tail) == tail);
    let mut hi: usize = s.len();
    k = trail_space_at(s, lo, hi);
    while k > 0
        invariant
            lo <= hi <= s@.len(),
            k == trail_space(s@.subrange(lo as int, hi as int)),
            trim_end(s@.subrange(lo as int, hi as int)) == trim_end(tail),
        decreases hi,
    {
        let ghost part = s@.subrange(lo as int, hi as int);
        assert(part.subrange(0, part.len() - k) =~= s@.subrange(lo as int, hi - k));
        hi = hi - k;
        k = trail_space_at(s, lo, hi);
    }
    copy_range(s, lo, hi)
}

/// Whether two byte strings are equal.
pub fn bytes_equal(a: &[u8], b: &[u8]) -> (r: bool)
    ensures
        r == (a@ == b@),
{
    if a.len() != b.len() {
        return false;
    }
    let mut i: usize = 0;
    while i < a.len()
        invariant
            i <= a@.len() == b@.len(),
            forall|j: int| 0 <= j < i ==> a@[j] == b@[j],
        decreases a.len() - i,
    {
        if a[i] != b[i] {
            return false;
        }
        i = i + 1;
    }
    assert(a@ =~= b@);
    true
}

} // verus!
