//! Reference extraction: scanning note text for the two bracket syntaxes
//! that encode a link to another note.
//!
//! A *bare* reference is `[some_id]`: an opening bracket, a run of word and
//! whitespace bytes, and a closing bracket that is not immediately followed
//! by an opening parenthesis — a bracket closing at the very end of the text
//! counts. The id is the bracket's inner text.
//!
//! A *titled* reference is `[Any title](some_id)`: a bracketed title (any
//! bytes but a closing bracket) followed immediately by a parenthesized id of
//! word, whitespace and hyphen bytes. The id is the parenthesized text.
//!
//! Matches are found leftmost first and do not overlap: a bare match ends at
//! its closing bracket and a titled match at its closing parenthesis, and the
//! scan resumes at the next byte. Ids are not deduplicated and not checked
//! against existing notes, and text inside code or raw blocks is scanned like
//! any other. The word and whitespace classes are ASCII: a bracketed token
//! holding a non-ASCII character (an accented letter, a non-ASCII space) is
//! no reference to this scanner.

use vstd::prelude::*;

use crate::text::is_space;
use crate::text::lemma_seek_at;
use crate::text::lemma_seek_bounds;
use crate::text::seek;
use crate::text::subvec;

verus! {

/// An ASCII word byte as the reference patterns use it: a letter, a digit or
/// an underscore.
pub open spec fn is_word(b: u8) -> bool {
    (0x30 <= b && b <= 0x39) || (0x41 <= b && b <= 0x5a) || (0x61 <= b && b <= 0x7a) || b == 0x5f
}

/// A byte allowed inside a bare reference's brackets.
pub open spec fn is_bare_byte(b: u8) -> bool {
    is_word(b) || is_space(b)
}

/// A byte allowed inside a titled reference's parenthesized id.
pub open spec fn is_id_byte(b: u8) -> bool {
    is_word(b) || is_space(b) || b == 0x2d
}

pub open spec fn bare_pred() -> spec_fn(u8) -> bool {
    |b: u8| is_bare_byte(b)
}

pub open spec fn id_pred() -> spec_fn(u8) -> bool {
    |b: u8| is_id_byte(b)
}

pub open spec fn not_rb_pred() -> spec_fn(u8) -> bool {
    |b: u8| b != 0x5d
}

/// A bare reference stands at `i`: `[`, a run of word and whitespace bytes,
/// and a `]` that is not immediately followed by `(`; a bracket closing at
/// the end of the text counts.
pub open spec fn bare_at(s: Seq<u8>, i: int) -> bool
    recommends
        0 <= i < s.len(),
{
    let j = seek(s, i + 1, bare_pred());
    s[i] == 0x5b && j < s.len() && s[j] == 0x5d && (j + 1 == s.len() || s[j + 1] != 0x28)
}

/// The ids of the bare references found at or after `i`, leftmost first.
pub open spec fn bare_refs(s: Seq<u8>, i: int) -> Seq<Seq<u8>>
    recommends
        0 <= i <= s.len(),
    decreases s.len() - i when 0 <= i <= s.len() via bare_refs_decreases
{
    if i >= s.len() {
        Seq::empty()
    } else if bare_at(s, i) {
        let j = seek(s, i + 1, bare_pred());
        seq![s.subrange(i + 1, j)] + bare_refs(s, j + 1)
    } else {
        bare_refs(s, i + 1)
    }
}

#[via_fn]
proof fn bare_refs_decreases(s: Seq<u8>, i: int) {
    if 0 <= i && i < s.len() && bare_at(s, i) {
        lemma_seek_bounds(s, i + 1, bare_pred());
    }
}

/// A titled reference stands at `i`: `[`, any bytes but `]`, then `](`, a run
/// of id bytes, and `)`.
pub open spec fn titled_at(s: Seq<u8>, i: int) -> bool
    recommends
        0 <= i < s.len(),
{
    let k = seek(s, i + 1, not_rb_pred());
    let m = seek(s, k + 2, id_pred());
    s[i] == 0x5b && k + 1 < s.len() && s[k + 1] == 0x28 && m < s.len() && s[m] == 0x29
}

/// The ids of the titled references found at or after `i`, leftmost first.
pub open spec fn titled_refs(s: Seq<u8>, i: int) -> Seq<Seq<u8>>
    recommends
        0 <= i <= s.len(),
    decreases s.len() - i when 0 <= i <= s.len() via titled_refs_decreases
{
    if i >= s.len() {
        Seq::empty()
    } else if titled_at(s, i) {
        let k = seek(s, i + 1, not_rb_pred());
        let m = seek(s, k + 2, id_pred());
        seq![s.subrange(k + 2, m)] + titled_refs(s, m + 1)
    } else {
        titled_refs(s, i + 1)
    }
}

#[via_fn]
proof fn titled_refs_decreases(s: Seq<u8>, i: int) {
    if 0 <= i && i < s.len() && titled_at(s, i) {
        lemma_seek_bounds(s, i + 1, not_rb_pred());
        lemma_seek_bounds(s, seek(s, i + 1, not_rb_pred()) + 2, id_pred());
    }
}

/// All referenced ids of a node, in the order the scan reports them: bare
/// matches in the short text, bare matches in the long text, then titled
/// matches in the short text, then titled matches in the long text.
pub open spec fn connections_of(short: Seq<u8>, long: Seq<u8>) -> Seq<Seq<u8>> {
    bare_refs(short, 0) + bare_refs(long, 0) + titled_refs(short, 0) + titled_refs(long, 0)
}

pub fn byte_is_bare(b: u8) -> (r: bool)
    ensures
        r == is_bare_byte(b),
{
    (0x30 <= b && b <= 0x39) || (0x41 <= b && b <= 0x5a) || (0x61 <= b && b <= 0x7a) || b == 0x5f
        || b == 0x20 || b == 0x09 || b == 0x0a || b == 0x0b || b == 0x0c || b == 0x0d
}

pub fn byte_is_id(b: u8) -> (r: bool)
    ensures
        r == is_id_byte(b),
{
    byte_is_bare(b) || b == 0x2d
}

/// All bare-reference ids in `v`, leftmost first.
pub fn extract_bare(v: &Vec<u8>) -> (r: Vec<Vec<u8>>)
    ensures
        r.deep_view() == bare_refs(v@, 0),
{
    let n = v.len();
    let mut out: Vec<Vec<u8>> = Vec::new();
    let mut i: usize = 0;
    proof {
        assert(out.deep_view() + bare_refs(v@, 0) =~~= bare_refs(v@, 0));
    }
    while i < n
        invariant
            0 <= i <= n,
            n == v@.len(),
            out.deep_view() + bare_refs(v@, i as int) == bare_refs(v@, 0),
        decreases n - i,
    {
        if v[i] == 0x5b {
            let mut j: usize = i + 1;
            while j < n && byte_is_bare(v[j])
                invariant
                    i + 1 <= j <= n,
                    n == v@.len(),
                    forall|m: int| i + 1 <= m < j ==> is_bare_byte(v@[m]),
                decreases n - j,
            {
                j += 1;
            }
            proof {
                lemma_seek_at(v@, i as int + 1, j as int, bare_pred());
            }
            if j < n && v[j] == 0x5d && (j + 1 >= n || v[j + 1] != 0x28) {
                let ghost out0 = out.deep_view();
                let cap = subvec(v, i + 1, j);
                out.push(cap);
                proof {
                    assert(bare_at(v@, i as int));
                    assert(out.deep_view() =~~= out0.push(cap@));
                    assert(out0.push(cap@) + bare_refs(v@, j as int + 1) =~~= out0 + (seq![cap@]
                        + bare_refs(v@, j as int + 1)));
                }
                i = j + 1;
            } else {
                proof {
                    assert(!bare_at(v@, i as int));
                }
                i = i + 1;
            }
        } else {
            proof {
                assert(!bare_at(v@, i as int));
            }
            i = i + 1;
        }
    }
    proof {
        assert(out.deep_view() + bare_refs(v@, n as int) =~~= out.deep_view());
    }
    out
}

/// All titled-reference ids in `v`, leftmost first.
pub fn extract_titled(v: &Vec<u8>) -> (r: Vec<Vec<u8>>)
    ensures
        r.deep_view() == titled_refs(v@, 0),
{
    let n = v.len();
    let mut out: Vec<Vec<u8>> = Vec::new();
    let mut i: usize = 0;
    proof {
        assert(out.deep_view() + titled_refs(v@, 0) =~~= titled_refs(v@, 0));
    }
    while i < n
        invariant
            0 <= i <= n,
            n == v@.len(),
            out.deep_view() + titled_refs(v@, i as int) == titled_refs(v@, 0),
        decreases n - i,
    {
        if v[i] == 0x5b {
            let mut k: usize = i + 1;
            while k < n && v[k] != 0x5d
                invariant
                    i + 1 <= k <= n,
                    n == v@.len(),
                    forall|m: int| i + 1 <= m < k ==> v@[m] != 0x5d,
                decreases n - k,
            {
                k += 1;
            }
            proof {
                lemma_seek_at(v@, i as int + 1, k as int, not_rb_pred());
            }
            if k < n && k + 1 < n && v[k + 1] == 0x28 {
                let mut m: usize = k + 2;
                while m < n && byte_is_id(v[m])
                    invariant
                        k + 2 <= m <= n,
                        n == v@.len(),
                        forall|q: int| k + 2 <= q < m ==> is_id_byte(v@[q]),
                    decreases n - m,
                {
                    m += 1;
                }
                proof {
                    lemma_seek_at(v@, k as int + 2, m as int, id_pred());
                }
                if m < n && v[m] == 0x29 {
                    let ghost out0 = out.deep_view();
                    let cap = subvec(v, k + 2, m);
                    out.push(cap);
                    proof {
                        assert(titled_at(v@, i as int));
                        assert(out.deep_view() =~~= out0.push(cap@));
                        assert(out0.push(cap@) + titled_refs(v@, m as int + 1) =~~= out0 + (
                        seq![cap@] + titled_refs(v@, m as int + 1)));
                    }
                    i = m + 1;
                } else {
                    proof {
                        assert(!titled_at(v@, i as int));
                    }
                    i = i + 1;
                }
            } else {
                proof {
                    assert(!titled_at(v@, i as int));
                }
                i = i + 1;
            }
        } else {
            proof {
                assert(!titled_at(v@, i as int));
            }
            i = i + 1;
        }
    }
    proof {
        assert(out.deep_view() + titled_refs(v@, n as int) =~~= out.deep_view());
    }
    out
}

/// All referenced ids of a node's two text fields, in scan order.
pub fn extract_connections(short: &Vec<u8>, long: &Vec<u8>) -> (r: Vec<Vec<u8>>)
    ensures
        r.deep_view() == connections_of(short@, long@),
{
    let mut r = extract_bare(short);
    let mut r2 = extract_bare(long);
    let mut r3 = extract_titled(short);
    let mut r4 = extract_titled(long);
    let ghost g1 = r.deep_view();
    let ghost g2 = r2.deep_view();
    let ghost g3 = r3.deep_view();
    let ghost g4 = r4.deep_view();
    r.append(&mut r2);
    r.append(&mut r3);
    r.append(&mut r4);
    proof {
        assert(r.deep_view() =~~= g1 + g2 + g3 + g4);
    }
    r
}

} // verus!
