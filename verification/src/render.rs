//! The markup renderer's verifiable surface: deciding when a note's long
//! text calls for rendering, the fixed presentation frame put around it, the
//! rendering error kinds, and the post-processing that forces a rendered
//! image's background to be transparent.
//!
//! Compiling the framed source to a vector image, and the font discovery
//! that needs, happen outside the library; rendering failure is always soft:
//! the owning node is still produced, just without a rendered body.

use vstd::prelude::*;

use vstd::string::StrSliceExecFns;
use vstd::string::StringSliceAdditionalSpecFns;

use crate::node::is_styled;
use crate::node::styled;
use crate::text::append_bytes;
use crate::text::clone_bytes;
use crate::text::split_content;
use crate::text::tail_lines;
use crate::text::trimmed;

verus! {

/// Why a markup body could not be rendered.
#[derive(Debug, Clone, Copy, PartialEq, Eq)]
pub enum RenderError {
    /// No system font loaded and the embedded fallback was unavailable too.
    NoFontsAvailable,
    /// The markup did not compile.
    CompileError,
    /// The compiled document has no pages.
    EmptyDocument,
}

/// The fixed frame put before a styled long text: page width and margins, a
/// transparent page fill, and the base text size and color.
pub open spec fn template_prefix() -> Seq<u8> {
    "#set page(\n  width: 600pt,\n  margin: 20pt,\n  fill: rgb(\"transparent\"),\n)\n#set text(\n  size: 12pt,\n  fill: rgb(0, 0, 0),\n)\n".spec_bytes()
}

/// The frame's closing newline after the long text.
pub open spec fn template_suffix() -> Seq<u8> {
    "\n".spec_bytes()
}

/// A styled long text wrapped in the fixed presentation frame.
pub open spec fn template_of(long: Seq<u8>) -> Seq<u8> {
    template_prefix() + long + template_suffix()
}

/// The framed markup source for one styled long text.
pub fn render_template(long: &Vec<u8>) -> (r: Vec<u8>)
    ensures
        r@ == template_of(long@),
{
    let mut out =
        "#set page(\n  width: 600pt,\n  margin: 20pt,\n  fill: rgb(\"transparent\"),\n)\n#set text(\n  size: 12pt,\n  fill: rgb(0, 0, 0),\n)\n".as_bytes_vec();
    append_bytes(&mut out, long);
    let suffix = "\n".as_bytes_vec();
    append_bytes(&mut out, &suffix);
    out
}

/// When a note's content calls for rendering: exactly when its trimmed long
/// text is classified as styled markup. Returns the framed markup source to
/// compile, or nothing for a long text that is not styled.
pub fn render_request(content: &Vec<u8>) -> (r: Option<Vec<u8>>)
    ensures
        r.deep_view() == (if styled(trimmed(tail_lines(content@))) {
            Some(template_of(trimmed(tail_lines(content@))))
        } else {
            None::<Seq<u8>>
        }),
{
    let parts = split_content(content);
    let long = parts.1;
    if is_styled(&long) {
        Some(render_template(&long))
    } else {
        None
    }
}

/// Non-overlapping left-to-right replacement of `pat` by `rep`, as
/// `str::replace` performs it; the text is unchanged when `pat` is empty.
pub open spec fn replaced(s: Seq<u8>, pat: Seq<u8>, rep: Seq<u8>) -> Seq<u8>
    decreases s.len(),
{
    if pat.len() == 0 || s.len() == 0 {
        s
    } else if s.len() >= pat.len() && s.subrange(0, pat.len() as int) == pat {
        rep + replaced(s.skip(pat.len() as int), pat, rep)
    } else {
        s.subrange(0, 1) + replaced(s.skip(1), pat, rep)
    }
}

/// Whether `pat` occurs in `s` at position `i`.
fn match_at(s: &Vec<u8>, pat: &Vec<u8>, i: usize) -> (r: bool)
    requires
        i <= s@.len(),
    ensures
        r == (i + pat@.len() <= s@.len() && s@.subrange(i as int, i as int + pat@.len() as int)
            == pat@),
{
    if pat.len() > s.len() - i {
        return false;
    }
    let n = s.len();
    let mut k: usize = 0;
    while k < pat.len()
        invariant
            0 <= k <= pat@.len(),
            n == s@.len(),
            i + pat@.len() <= s@.len(),
            forall|m: int| 0 <= m < k ==> s@[i + m] == pat@[m],
        decreases pat@.len() - k,
    {
        if s[i + k] != pat[k] {
            proof {
                assert(s@.subrange(i as int, i as int + pat@.len() as int)[k as int] == s@[i as int
                    + k as int]);
            }
            return false;
        }
        k += 1;
    }
    proof {
        assert(s@.subrange(i as int, i as int + pat@.len() as int) =~= pat@);
    }
    true
}

/// Replace every non-overlapping occurrence of `pat` in `s` by `rep`,
/// scanning from the left.
#[verifier::loop_isolation(false)]
pub fn replace_bytes(s: &Vec<u8>, pat: &Vec<u8>, rep: &Vec<u8>) -> (r: Vec<u8>)
    ensures
        r@ == replaced(s@, pat@, rep@),
{
    if pat.len() == 0 {
        return clone_bytes(s);
    }
    let mut out: Vec<u8> = Vec::new();
    let mut i: usize = 0;
    proof {
        assert(out@ + replaced(s@, pat@, rep@) =~= replaced(s@, pat@, rep@));
        assert(s@.skip(0) =~= s@);
    }
    while i < s.len()
        invariant
            0 <= i <= s@.len(),
            out@ + replaced(s@.skip(i as int), pat@, rep@) == replaced(s@, pat@, rep@),
        decreases s@.len() - i,
    {
        let ghost out0 = out@;
        let ghost tail = s@.skip(i as int);
        if match_at(s, pat, i) {
            append_bytes(&mut out, rep);
            proof {
                assert(tail.subrange(0, pat@.len() as int) =~= s@.subrange(
                    i as int,
                    i as int + pat@.len() as int,
                ));
                assert(replaced(tail, pat@, rep@) == rep@ + replaced(
                    tail.skip(pat@.len() as int),
                    pat@,
                    rep@,
                ));
                assert(tail.skip(pat@.len() as int) =~= s@.skip(i as int + pat@.len() as int));
                assert(out0 + rep@ + replaced(s@.skip(i as int + pat@.len() as int), pat@, rep@)
                    =~= out0 + replaced(tail, pat@, rep@));
            }
            i = i + pat.len();
        } else {
            out.push(s[i]);
            proof {
                if i as int + pat@.len() <= s@.len() {
                    assert(tail.subrange(0, pat@.len() as int) =~= s@.subrange(
                        i as int,
                        i as int + pat@.len() as int,
                    ));
                }
                assert(replaced(tail, pat@, rep@) == tail.subrange(0, 1) + replaced(
                    tail.skip(1),
                    pat@,
                    rep@,
                ));
                assert(tail.skip(1) =~= s@.skip(i as int + 1));
                assert(out0.push(s@[i as int]) + replaced(s@.skip(i as int + 1), pat@, rep@) =~=
                    out0 + replaced(tail, pat@, rep@));
            }
            i = i + 1;
        }
    }
    proof {
        assert(s@.skip(s@.len() as int) =~= Seq::<u8>::empty());
        assert(out@ + replaced(Seq::<u8>::empty(), pat@, rep@) =~= out@);
    }
    out
}

/// The background patch applied to a rendered vector image: every `<rect`
/// tag opening gains an explicit fully transparent fill.
pub open spec fn transparent_of(svg: Seq<u8>) -> Seq<u8> {
    replaced(svg, "<rect".spec_bytes(), "<rect fill=\"none\"".spec_bytes())
}

/// Force a rendered image's background fill to fully transparent.
pub fn make_transparent(svg: &Vec<u8>) -> (r: Vec<u8>)
    ensures
        r@ == transparent_of(svg@),
{
    let pat = "<rect".as_bytes_vec();
    let rep = "<rect fill=\"none\"".as_bytes_vec();
    replace_bytes(svg, &pat, &rep)
}

/// The font fallback decision: rendering can proceed only when at least one
/// font — a system font, or failing that the embedded default — was loaded.
pub fn check_fonts(fonts_loaded: usize) -> (r: Result<(), RenderError>)
    ensures
        fonts_loaded == 0 ==> r == Err::<(), RenderError>(RenderError::NoFontsAvailable),
        fonts_loaded > 0 ==> r == Ok::<(), RenderError>(()),
{
    if fonts_loaded == 0 {
        Err(RenderError::NoFontsAvailable)
    } else {
        Ok(())
    }
}

/// Which page of a compiled document is kept: only the first, whatever the
/// page count; a document with no pages at all cannot be rendered.
pub fn first_page(page_count: usize) -> (r: Result<usize, RenderError>)
    ensures
        page_count == 0 ==> r == Err::<usize, RenderError>(RenderError::EmptyDocument),
        page_count > 0 ==> r == Ok::<usize, RenderError>(0usize),
{
    if page_count == 0 {
        Err(RenderError::EmptyDocument)
    } else {
        Ok(0)
    }
}

} // verus!
