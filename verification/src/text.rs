//! Byte-level text helpers: scanning runs of bytes, trimming whitespace,
//! splitting a file at its first line break, and literal replacement.
//!
//! All note text is handled as UTF-8 bytes. Every boundary this module works
//! with (a newline, an ASCII whitespace byte, an ASCII pattern) lies on a
//! character boundary, so the splits never cut a multi-byte character apart.
//! Trimming removes ASCII whitespace only: a non-ASCII space (a no-break
//! space, say) at either end of a line stays.

use vstd::prelude::*;

verus! {

/// An ASCII whitespace byte: the characters trimmed from both ends of the
/// short and long fields of a node.
pub open spec fn is_space(b: u8) -> bool {
    b == 0x20 || b == 0x09 || b == 0x0a || b == 0x0b || b == 0x0c || b == 0x0d
}

/// The first index at or after `i` whose byte fails `p`, or `s.len()` when
/// every byte from `i` on satisfies `p`.
pub open spec fn seek(s: Seq<u8>, i: int, p: spec_fn(u8) -> bool) -> int
    recommends
        0 <= i <= s.len(),
    decreases s.len() - i when 0 <= i <= s.len()
{
    if i >= s.len() || !p(s[i]) {
        i
    } else {
        seek(s, i + 1, p)
    }
}

/// The least index `k <= j` such that every byte in `[k, j)` satisfies `p`;
/// scanning backwards from `j`.
pub open spec fn rseek(s: Seq<u8>, j: int, p: spec_fn(u8) -> bool) -> int
    recommends
        0 <= j <= s.len(),
    decreases j when 0 <= j <= s.len()
{
    if j <= 0 || !p(s[j - 1]) {
        j
    } else {
        rseek(s, j - 1, p)
    }
}

pub proof fn lemma_seek_at(s: Seq<u8>, i: int, k: int, p: spec_fn(u8) -> bool)
    requires
        0 <= i <= k <= s.len(),
        forall|m: int| i <= m < k ==> p(s[m]),
        k == s.len() || !p(s[k]),
    ensures
        seek(s, i, p) == k,
    decreases k - i,
{
    if i < k {
        lemma_seek_at(s, i + 1, k, p);
    }
}

pub proof fn lemma_rseek_at(s: Seq<u8>, j: int, k: int, p: spec_fn(u8) -> bool)
    requires
        0 <= k <= j <= s.len(),
        forall|m: int| k <= m < j ==> p(s[m]),
        k == 0 || !p(s[k - 1]),
    ensures
        rseek(s, j, p) == k,
    decreases j - k,
{
    if k < j {
        lemma_rseek_at(s, j - 1, k, p);
    }
}

pub proof fn lemma_seek_bounds(s: Seq<u8>, i: int, p: spec_fn(u8) -> bool)
    requires
        0 <= i <= s.len(),
    ensures
        i <= seek(s, i, p) <= s.len(),
        forall|m: int| i <= m < seek(s, i, p) ==> p(s[m]),
        seek(s, i, p) < s.len() ==> !p(s[seek(s, i, p)]),
    decreases s.len() - i,
{
    if i < s.len() && p(s[i]) {
        lemma_seek_bounds(s, i + 1, p);
    }
}

/// The predicate `seek`/`rseek` use for trimming.
pub open spec fn space_pred() -> spec_fn(u8) -> bool {
    |b: u8| is_space(b)
}

/// Index of the first byte that is not whitespace.
pub open spec fn trim_start(s: Seq<u8>) -> int {
    seek(s, 0, space_pred())
}

/// One past the index of the last byte that is not whitespace.
pub open spec fn trim_end(s: Seq<u8>) -> int {
    rseek(s, s.len() as int, space_pred())
}

/// The text with ASCII whitespace removed from both ends; empty when the
/// text is nothing but whitespace.
pub open spec fn trimmed(s: Seq<u8>) -> Seq<u8> {
    if trim_start(s) <= trim_end(s) {
        s.subrange(trim_start(s), trim_end(s))
    } else {
        Seq::empty()
    }
}

/// The predicate that stops a scan at the first line feed.
pub open spec fn not_nl_pred() -> spec_fn(u8) -> bool {
    |b: u8| b != 0x0a
}

/// Index of the first line feed, or `s.len()` when there is none.
pub open spec fn line_break(s: Seq<u8>) -> int {
    seek(s, 0, not_nl_pred())
}

/// The bytes before the first line feed; the whole text when there is none.
pub open spec fn head_line(s: Seq<u8>) -> Seq<u8> {
    s.subrange(0, line_break(s))
}

/// The bytes after the first line feed; empty when there is none.
pub open spec fn tail_lines(s: Seq<u8>) -> Seq<u8> {
    if line_break(s) >= s.len() {
        Seq::empty()
    } else {
        s.subrange(line_break(s) + 1, s.len() as int)
    }
}

pub fn is_space_byte(b: u8) -> (r: bool)
    ensures
        r == is_space(b),
{
    b == 0x20 || b == 0x09 || b == 0x0a || b == 0x0b || b == 0x0c || b == 0x0d
}

/// A fresh copy of `v[a..b]`.
pub fn subvec(v: &Vec<u8>, a: usize, b: usize) -> (r: Vec<u8>)
    requires
        a <= b <= v@.len(),
    ensures
        r@ == v@.subrange(a as int, b as int),
{
    let mut r: Vec<u8> = Vec::new();
    let mut i: usize = a;
    while i < b
        invariant
            a <= i <= b <= v@.len(),
            r@ == v@.subrange(a as int, i as int),
        decreases b - i,
    {
        r.push(v[i]);
        proof {
            assert(v@.subrange(a as int, i + 1 as int) =~= v@.subrange(a as int, i as int).push(
                v@[i as int],
            ));
        }
        i += 1;
    }
    r
}

/// A fresh copy of the whole of `v`.
pub fn clone_bytes(v: &Vec<u8>) -> (r: Vec<u8>)
    ensures
        r@ == v@,
{
    let r = subvec(v, 0, v.len());
    proof {
        assert(v@.subrange(0, v@.len() as int) =~= v@);
    }
    r
}

/// Append a copy of `add` to `out`.
pub fn append_bytes(out: &mut Vec<u8>, add: &Vec<u8>)
    ensures
        final(out)@ == old(out)@ + add@,
{
    let mut i: usize = 0;
    while i < add.len()
        invariant
            0 <= i <= add@.len(),
            out@ == old(out)@ + add@.subrange(0, i as int),
        decreases add@.len() - i,
    {
        out.push(add[i]);
        proof {
            assert(old(out)@ + add@.subrange(0, i + 1 as int) =~= (old(out)@ + add@.subrange(
                0,
                i as int,
            )).push(add@[i as int]));
        }
        i += 1;
    }
    proof {
        assert(add@.subrange(0, add@.len() as int) =~= add@);
    }
}

/// Trim ASCII whitespace from both ends.
pub fn trim(v: &Vec<u8>) -> (r: Vec<u8>)
    ensures
        r@ == trimmed(v@),
{
    let n = v.len();
    let mut a: usize = 0;
    while a < n && is_space_byte(v[a])
        invariant
            0 <= a <= n,
            n == v@.len(),
            forall|m: int| 0 <= m < a ==> is_space(v@[m]),
        decreases n - a,
    {
        a += 1;
    }
    proof {
        lemma_seek_at(v@, 0, a as int, space_pred());
    }
    let mut b: usize = n;
    while b > a && is_space_byte(v[b - 1])
        invariant
            a <= b <= n,
            n == v@.len(),
            forall|m: int| b <= m < n ==> is_space(v@[m]),
        decreases b,
    {
        b -= 1;
    }
    if a == n {
        // Nothing but whitespace: the scan from the right would pass `a`,
        // but the spec runs it down to zero.
        proof {
            lemma_rseek_at(v@, n as int, 0, space_pred());
            assert(trimmed(v@) =~= Seq::<u8>::empty());
        }
        Vec::new()
    } else {
        proof {
            lemma_rseek_at(v@, n as int, b as int, space_pred());
        }
        subvec(v, a, b)
    }
}

/// Split raw file content at its first line feed and trim both parts:
/// the short line before it, and the long remainder after it.
pub fn split_content(content: &Vec<u8>) -> (r: (Vec<u8>, Vec<u8>))
    ensures
        r.0@ == trimmed(head_line(content@)),
        r.1@ == trimmed(tail_lines(content@)),
{
    let n = content.len();
    let mut i: usize = 0;
    while i < n && content[i] != 0x0a
        invariant
            0 <= i <= n,
            n == content@.len(),
            forall|m: int| 0 <= m < i ==> content@[m] != 0x0a,
        decreases n - i,
    {
        i += 1;
    }
    proof {
        lemma_seek_at(content@, 0, i as int, not_nl_pred());
    }
    let head = subvec(content, 0, i);
    let tail = if i >= n {
        Vec::new()
    } else {
        subvec(content, i + 1, n)
    };
    proof {
        assert(tail@ =~= tail_lines(content@));
    }
    (trim(&head), trim(&tail))
}

} // verus!
