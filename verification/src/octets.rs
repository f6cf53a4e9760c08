//! Byte strings: equality, prefixes, lexicographic order and the fixed-width
//! big-endian integers that storage keys embed.

use vstd::prelude::*;

verus! {

/// `prefix` is an initial segment of `s`.
pub open spec fn has_prefix(s: Seq<u8>, prefix: Seq<u8>) -> bool {
    prefix.len() <= s.len() && s.subrange(0, prefix.len() as int) == prefix
}

/// `a` and `b` agree on their first `k` bytes and `a` is smaller right after:
/// either `a` ends there and `b` goes on, or `a`'s next byte is the smaller.
pub open spec fn lex_lt_at(a: Seq<u8>, b: Seq<u8>, k: int) -> bool {
    &&& 0 <= k <= a.len()
    &&& k < b.len()
    &&& a.subrange(0, k) == b.subrange(0, k)
    &&& (k < a.len() ==> a[k] < b[k])
}

/// Strict lexicographic order on byte strings, the order in which an ordered
/// store walks its keys.
pub open spec fn lex_lt(a: Seq<u8>, b: Seq<u8>) -> bool {
    exists|k: int| lex_lt_at(a, b, k)
}

/// The eight bytes of `x`, most significant first.
#[verifier::opaque]
pub open spec fn be64(x: u64) -> Seq<u8> {
    let q1 = x / 256;
    let q2 = q1 / 256;
    let q3 = q2 / 256;
    let q4 = q3 / 256;
    let q5 = q4 / 256;
    let q6 = q5 / 256;
    let q7 = q6 / 256;
    seq![
        (q7 % 256) as u8,
        (q6 % 256) as u8,
        (q5 % 256) as u8,
        (q4 % 256) as u8,
        (q3 % 256) as u8,
        (q2 % 256) as u8,
        (q1 % 256) as u8,
        (x % 256) as u8,
    ]
}

/// The number that eight big-endian bytes stand for.
#[verifier::opaque]
pub open spec fn be64_value(b: Seq<u8>) -> int
    recommends
        b.len() == 8,
{
    ((((((b[0] * 256 + b[1]) * 256 + b[2]) * 256 + b[3]) * 256 + b[4]) * 256 + b[5]) * 256
        + b[6]) * 256 + b[7]
}

/// Decoding undoes encoding.
pub proof fn lemma_be64_value_of_be64(x: u64)
    ensures
        be64(x).len() == 8,
        be64_value(be64(x)) == x,
{
    reveal(be64);
    reveal(be64_value);
}

/// Encoding undoes decoding: every eight bytes are the encoding of their value.
pub proof fn lemma_be64_of_be64_value(b: Seq<u8>)
    requires
        b.len() == 8,
    ensures
        0 <= be64_value(b) <= u64::MAX,
        be64(be64_value(b) as u64) == b,
{
    reveal(be64);
    reveal(be64_value);
    assert(be64(be64_value(b) as u64) =~= b);
}

/// Distinct numbers have distinct encodings.
pub proof fn lemma_be64_injective(x: u64, y: u64)
    ensures
        be64(x) == be64(y) <==> x == y,
{
    lemma_be64_value_of_be64(x);
    lemma_be64_value_of_be64(y);
}

/// The encoding keeps the order: a smaller number gives a byte string that
/// comes first lexicographically.
pub proof fn lemma_be64_monotonic(x: u64, y: u64)
    requires
        x < y,
    ensures
        lex_lt(be64(x), be64(y)),
{
    reveal(be64);
    reveal(be64_value);
    let a = be64(x);
    let b = be64(y);
    lemma_be64_value_of_be64(x);
    lemma_be64_value_of_be64(y);
    let k: int = if a[0] != b[0] {
        0
    } else if a[1] != b[1] {
        1
    } else if a[2] != b[2] {
        2
    } else if a[3] != b[3] {
        3
    } else if a[4] != b[4] {
        4
    } else if a[5] != b[5] {
        5
    } else if a[6] != b[6] {
        6
    } else {
        7
    };
    assert(a.subrange(0, k) =~= b.subrange(0, k));
    assert(a[k] < b[k]);
    assert(lex_lt_at(a, b, k));
}

/// A common prefix does not change the order of what follows it.
pub proof fn lemma_lex_lt_prepend(p: Seq<u8>, a: Seq<u8>, b: Seq<u8>)
    requires
        lex_lt(a, b),
    ensures
        lex_lt(p + a, p + b),
{
    let k = choose|k: int| lex_lt_at(a, b, k);
    let n = p.len() as int;
    assert((p + a).subrange(0, n + k) =~= p + a.subrange(0, k));
    assert((p + b).subrange(0, n + k) =~= p + b.subrange(0, k));
    assert(lex_lt_at(p + a, p + b, n + k));
}

/// Whether two byte strings are equal.
pub fn bytes_eq(a: &[u8], b: &[u8]) -> (r: bool)
    ensures
        r == (a@ == b@),
{
    if a.len() != b.len() {
        return false;
    }
    let mut i: usize = 0;
    while i < a.len()
        invariant
            i <= a.len(),
            a.len() == b.len(),
            forall|j: int| 0 <= j < i ==> a@[j] == b@[j],
        decreases a.len() - i,
    {
        if a[i] != b[i] {
            return false;
        }
        i += 1;
    }
    assert(a@ =~= b@);
    true
}

/// Whether `s` starts with `prefix`.
pub fn starts_with(s: &[u8], prefix: &[u8]) -> (r: bool)
    ensures
        r == has_prefix(s@, prefix@),
{
    if prefix.len() > s.len() {
        return false;
    }
    let mut i: usize = 0;
    while i < prefix.len()
        invariant
            i <= prefix.len(),
            prefix.len() <= s.len(),
            forall|j: int| 0 <= j < i ==> s@[j] == prefix@[j],
        decreases prefix.len() - i,
    {
        if s[i] != prefix[i] {
            assert(s@.subrange(0, prefix@.len() as int)[i as int] != prefix@[i as int]);
            return false;
        }
        i += 1;
    }
    assert(s@.subrange(0, prefix@.len() as int) =~= prefix@);
    true
}

/// A copy of the bytes of `s`.
pub fn to_vec(s: &[u8]) -> (out: Vec<u8>)
    ensures
        out@ == s@,
{
    let out = copy_range(s, 0, s.len());
    assert(s@.subrange(0, s@.len() as int) =~= s@);
    out
}

/// A copy of the bytes of `s` from `from` on.
pub fn tail_from(s: &[u8], from: usize) -> (out: Vec<u8>)
    requires
        from <= s.len(),
    ensures
        out@ == s@.subrange(from as int, s@.len() as int),
{
    copy_range(s, from, s.len())
}

/// A copy of the bytes of `s` in `from..to`.
pub fn copy_range(s: &[u8], from: usize, to: usize) -> (out: Vec<u8>)
    requires
        from <= to <= s.len(),
    ensures
        out@ == s@.subrange(from as int, to as int),
{
    let mut out: Vec<u8> = Vec::new();
    let mut i: usize = from;
    while i < to
        invariant
            from <= i <= to <= s.len(),
            out@ == s@.subrange(from as int, i as int),
        decreases to - i,
    {
        out.push(s[i]);
        assert(out@ =~= s@.subrange(from as int, i + 1));
        i += 1;
    }
    out
}

/// Appends the bytes of `s` to `out`.
pub fn append(out: &mut Vec<u8>, s: &[u8])
    ensures
        final(out)@ == old(out)@ + s@,
{
    let mut i: usize = 0;
    while i < s.len()
        invariant
            i <= s.len(),
            out@ == old(out)@ + s@.subrange(0, i as int),
        decreases s.len() - i,
    {
        out.push(s[i]);
        assert(out@ =~= old(out)@ + s@.subrange(0, i + 1));
        i += 1;
    }
    assert(s@.subrange(0, s@.len() as int) =~= s@);
}

/// Appends the big-endian encoding of `x` to `out`.
pub fn append_be64(out: &mut Vec<u8>, x: u64)
    ensures
        final(out)@ == old(out)@ + be64(x),
{
    let q1: u64 = x / 256;
    let q2: u64 = q1 / 256;
    let q3: u64 = q2 / 256;
    let q4: u64 = q3 / 256;
    let q5: u64 = q4 / 256;
    let q6: u64 = q5 / 256;
    let q7: u64 = q6 / 256;
    out.push((q7 % 256) as u8);
    out.push((q6 % 256) as u8);
    out.push((q5 % 256) as u8);
    out.push((q4 % 256) as u8);
    out.push((q3 % 256) as u8);
    out.push((q2 % 256) as u8);
    out.push((q1 % 256) as u8);
    out.push((x % 256) as u8);
    proof {
        reveal(be64);
    }
    assert(out@ =~= old(out)@ + be64(x));
}

/// Reads the big-endian number in the eight bytes of `s` that start at `at`.
pub fn read_be64(s: &[u8], at: usize) -> (x: u64)
    requires
        at + 8 <= s.len(),
    ensures
        x == be64_value(s@.subrange(at as int, at + 8)),
        be64(x) == s@.subrange(at as int, at + 8),
{
    proof {
        reveal(be64_value);
        lemma_be64_of_be64_value(s@.subrange(at as int, at + 8));
    }
    let mut x: u64 = s[at] as u64;
    x = x * 256 + s[at + 1] as u64;
    x = x * 256 + s[at + 2] as u64;
    x = x * 256 + s[at + 3] as u64;
    x = x * 256 + s[at + 4] as u64;
    x = x * 256 + s[at + 5] as u64;
    x = x * 256 + s[at + 6] as u64;
    x = x * 256 + s[at + 7] as u64;
    x
}

/// Where the range of the strings that start with `prefix` ends: the least
/// byte string above all of them, which is `prefix` without its trailing
/// `0xff` bytes and with its last byte raised by one. `None` where every
/// byte is `0xff`: then the range has no end.
pub open spec fn prefix_end_of(prefix: Seq<u8>) -> Option<Seq<u8>>
    decreases prefix.len(),
{
    if prefix.len() == 0 {
        None
    } else if prefix.last() == 255 {
        prefix_end_of(prefix.drop_last())
    } else {
        Some(prefix.drop_last().push((prefix.last() + 1) as u8))
    }
}

/// `k` lies in the range that a scan of `prefix` asks an ordered store for:
/// from `prefix` on, and below the range's end where it has one.
pub open spec fn in_prefix_range(k: Seq<u8>, prefix: Seq<u8>) -> bool {
    &&& k == prefix || lex_lt(prefix, k)
    &&& prefix_end_of(prefix) is Some ==> lex_lt(k, prefix_end_of(prefix)->0)
}

/// The shape of a range's end: the prefix up to its last byte below `0xff`,
/// and that byte raised by one.
pub proof fn lemma_prefix_end_shape(prefix: Seq<u8>)
    ensures
        match prefix_end_of(prefix) {
            None => forall|t: int| 0 <= t < prefix.len() ==> prefix[t] == 255,
            Some(end) => {
                &&& 0 < end.len() <= prefix.len()
                &&& end.subrange(0, end.len() - 1) == prefix.subrange(0, end.len() - 1)
                &&& prefix[end.len() - 1] < 255
                &&& end[end.len() - 1] == prefix[end.len() - 1] + 1
                &&& forall|t: int| end.len() <= t < prefix.len() ==> prefix[t] == 255
            },
        },
    decreases prefix.len(),
{
    if prefix.len() > 0 {
        if prefix.last() == 255 {
            lemma_prefix_end_shape(prefix.drop_last());
            match prefix_end_of(prefix) {
                None => {
                    assert forall|t: int| 0 <= t < prefix.len() implies prefix[t] == 255 by {
                        if t < prefix.len() - 1 {
                            assert(prefix.drop_last()[t] == prefix[t]);
                        }
                    }
                },
                Some(end) => {
                    let n = end.len() as int;
                    assert(end.subrange(0, n - 1) =~= prefix.subrange(0, n - 1)) by {
                        assert(prefix.drop_last().subrange(0, n - 1) =~= prefix.subrange(
                            0,
                            n - 1,
                        ));
                    }
                    assert(prefix.drop_last()[n - 1] == prefix[n - 1]);
                    assert forall|t: int| n <= t < prefix.len() implies prefix[t] == 255 by {
                        if t < prefix.len() - 1 {
                            assert(prefix.drop_last()[t] == prefix[t]);
                        }
                    }
                },
            }
        } else {
            let end = prefix.drop_last().push((prefix.last() + 1) as u8);
            assert(end.subrange(0, end.len() - 1) =~= prefix.subrange(0, end.len() - 1));
        }
    }
}

/// A range scan is a prefix scan: the byte strings in the range of `prefix`
/// are exactly those that start with `prefix`.
pub proof fn law_prefix_range_exact(k: Seq<u8>, prefix: Seq<u8>)
    ensures
        in_prefix_range(k, prefix) <==> has_prefix(k, prefix),
{
    let n = prefix.len() as int;
    lemma_prefix_end_shape(prefix);
    if has_prefix(k, prefix) {
        if k.len() > n {
            assert(k.subrange(0, n) =~= prefix.subrange(0, n));
            assert(lex_lt_at(prefix, k, n));
        } else {
            assert(k =~= prefix);
        }
        match prefix_end_of(prefix) {
            None => {},
            Some(end) => {
                let j = end.len() - 1;
                assert(k.subrange(0, j) =~= end.subrange(0, j)) by {
                    assert(k.subrange(0, n).subrange(0, j) =~= k.subrange(0, j));
                }
                assert(k[j] == k.subrange(0, n)[j]);
                assert(lex_lt_at(k, end, j));
            },
        }
    }
    if in_prefix_range(k, prefix) && !has_prefix(k, prefix) {
        assert(k != prefix) by {
            if k == prefix {
                assert(k.subrange(0, n) =~= prefix);
            }
        }
        let i = choose|i: int| lex_lt_at(prefix, k, i);
        if i == n {
            assert(prefix.subrange(0, n) =~= prefix);
        }
        assert(i < n && prefix[i] < k[i]);
        let end = prefix_end_of(prefix)->0;
        let j = end.len() - 1;
        assert(i <= j);
        let w = choose|w: int| lex_lt_at(k, end, w);
        if w < i {
            assert(k[w] == k.subrange(0, i)[w]);
            assert(prefix[w] == prefix.subrange(0, i)[w]);
            assert(end[w] == end.subrange(0, j)[w]);
            assert(prefix[w] == prefix.subrange(0, j)[w]);
        } else if w > i {
            assert(k[i] == k.subrange(0, w)[i]);
            assert(end[i] == end.subrange(0, w)[i]);
            assert(end[i] == end.subrange(0, j)[i]);
            assert(prefix[i] == prefix.subrange(0, j)[i]);
        } else if i < j {
            assert(end[i] == end.subrange(0, j)[i]);
            assert(prefix[i] == prefix.subrange(0, j)[i]);
        }
    }
}

/// Where the range of the keys that start with `prefix` ends, for a scan of
/// an ordered store.
pub fn prefix_end(prefix: &[u8]) -> (end: Option<Vec<u8>>)
    ensures
        match end {
            Some(e) => prefix_end_of(prefix@) == Some(e@),
            None => prefix_end_of(prefix@) is None,
        },
{
    let mut n: usize = prefix.len();
    assert(prefix@.subrange(0, n as int) =~= prefix@);
    while n > 0 && prefix[n - 1] == 255
        invariant
            n <= prefix.len(),
            prefix_end_of(prefix@) == prefix_end_of(prefix@.subrange(0, n as int)),
        decreases n,
    {
        assert(prefix@.subrange(0, n as int).drop_last() =~= prefix@.subrange(0, n - 1));
        n -= 1;
    }
    if n == 0 {
        return None;
    }
    let mut end = copy_range(prefix, 0, n - 1);
    end.push(prefix[n - 1] + 1);
    assert(prefix@.subrange(0, n as int).drop_last() =~= prefix@.subrange(0, n - 1));
    Some(end)
}

} // verus!
