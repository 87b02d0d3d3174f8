//! Nodes: the structured record derived from one note file.
//!
//! A node's `id` is the file's base name, kept exactly as given; `title` is a
//! presentational title-cased form of it; `short` is the trimmed first line
//! of the content and `long` the trimmed remainder. A long text classified as
//! styled markup may carry a pre-rendered vector image.

use vstd::prelude::*;

use convert_case::Casing;

use crate::refs::connections_of;
use crate::refs::extract_connections;
use crate::text::clone_bytes;
use crate::text::head_line;
use crate::text::split_content;
use crate::text::tail_lines;
use crate::text::trimmed;

verus! {

/// What the loader gathers for one directory entry before it becomes a node:
/// the entry's base name, the file's raw content, and the pre-rendered image
/// for the long text, when one was produced.
pub struct NodeInput {
    pub name: Vec<u8>,
    pub content: Vec<u8>,
    pub rendered: Option<Vec<u8>>,
}

/// The mathematical value of a `NodeInput`.
pub struct NodeInputView {
    pub name: Seq<u8>,
    pub content: Seq<u8>,
    pub rendered: Option<Seq<u8>>,
}

impl View for NodeInput {
    type V = NodeInputView;

    open spec fn view(&self) -> NodeInputView {
        NodeInputView {
            name: self.name@,
            content: self.content@,
            rendered: self.rendered.deep_view(),
        }
    }
}

impl DeepView for NodeInput {
    type V = NodeInputView;

    open spec fn deep_view(&self) -> NodeInputView {
        self.view()
    }
}

/// One entry of the model: the record derived from one note file.
pub struct Node {
    pub id: Vec<u8>,
    pub title: Vec<u8>,
    pub short: Vec<u8>,
    pub long: Vec<u8>,
    pub long_text_svg: Option<Vec<u8>>,
}

/// The mathematical value of a `Node`.
pub struct NodeView {
    pub id: Seq<u8>,
    pub title: Seq<u8>,
    pub short: Seq<u8>,
    pub long: Seq<u8>,
    pub long_text_svg: Option<Seq<u8>>,
}

impl View for Node {
    type V = NodeView;

    open spec fn view(&self) -> NodeView {
        NodeView {
            id: self.id@,
            title: self.title@,
            short: self.short@,
            long: self.long@,
            long_text_svg: self.long_text_svg.deep_view(),
        }
    }
}

impl DeepView for Node {
    type V = NodeView;

    open spec fn deep_view(&self) -> NodeView {
        self.view()
    }
}

impl Clone for Node {
    /// A cloned node has the same value in every field.
    fn clone(&self) -> (r: Self)
        ensures
            r@ == self@,
    {
        let r = Node {
            id: clone_bytes(&self.id),
            title: clone_bytes(&self.title),
            short: clone_bytes(&self.short),
            long: clone_bytes(&self.long),
            long_text_svg: match &self.long_text_svg {
                Some(v) => Some(clone_bytes(v)),
                None => None,
            },
        };
        r
    }
}

/// The title-cased form of a note's file name, as the case-conversion
/// library computes it; a function of the name's bytes alone.
pub uninterp spec fn title_case_of(name: Seq<u8>) -> Seq<u8>;

/// Relies on convert_case's `Casing::to_case` with `Case::Title`: word
/// boundaries (underscores, hyphens, spaces, case changes) split the name,
/// each word is capitalized, and the words are joined with single spaces.
/// The output depends on the input bytes alone.
#[verifier::external_body]
fn title_case(name: &Vec<u8>) -> (r: Vec<u8>)
    ensures
        r@ == title_case_of(name@),
{
    String::from_utf8_lossy(name.as_slice()).to_case(convert_case::Case::Title).into_bytes()
}

/// The coarse heuristic that classifies a long text as styled markup: its
/// trimmed form starts with `#` or contains `$` anywhere. Plain text that
/// happens to contain those characters is misclassified knowingly.
pub open spec fn styled(long: Seq<u8>) -> bool {
    (long.len() > 0 && long[0] == 0x23) || (exists|i: int| 0 <= i < long.len() && long[i] == 0x24)
}

/// Whether a (trimmed) long text is classified as styled markup.
pub fn is_styled(long: &Vec<u8>) -> (r: bool)
    ensures
        r == styled(long@),
{
    if long.len() > 0 && long[0] == 0x23 {
        return true;
    }
    let mut i: usize = 0;
    while i < long.len()
        invariant
            0 <= i <= long@.len(),
            forall|m: int| 0 <= m < i ==> long@[m] != 0x24,
        decreases long@.len() - i,
    {
        if long[i] == 0x24 {
            return true;
        }
        i += 1;
    }
    false
}

/// The node that parsing one directory entry must produce: `id` is the name
/// as given; `title` its title-cased form; `short` and `long` come from
/// splitting the content at its first line break and trimming both parts;
/// a rendered image is kept only when the long text is styled markup.
pub open spec fn parsed_node(inp: NodeInputView) -> NodeView {
    NodeView {
        id: inp.name,
        title: title_case_of(inp.name),
        short: trimmed(head_line(inp.content)),
        long: trimmed(tail_lines(inp.content)),
        long_text_svg: if styled(trimmed(tail_lines(inp.content))) {
            inp.rendered
        } else {
            None
        },
    }
}

impl Node {
    /// Parse one directory entry into a node. A long text that is not styled
    /// markup never keeps a rendered image, whatever was handed in.
    pub fn parse(input: &NodeInput) -> (n: Node)
        ensures
            n@ == parsed_node(input@),
    {
        let (short, long) = split_content(&input.content);
        let title = title_case(&input.name);
        let id = clone_bytes(&input.name);
        let long_text_svg = if is_styled(&long) {
            match &input.rendered {
                Some(v) => Some(clone_bytes(v)),
                None => None,
            }
        } else {
            None
        };
        Node { id, title, short, long, long_text_svg }
    }

    /// The ids this node's text references, in scan order.
    pub fn get_connections(&self) -> (r: Vec<Vec<u8>>)
        ensures
            r.deep_view() == connections_of(self@.short, self@.long),
    {
        extract_connections(&self.short, &self.long)
    }
}

} // verus!
