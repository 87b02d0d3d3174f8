use notegraph::node::Node;
use notegraph::node::NodeInput;

fn input(name: &[u8], content: &[u8], rendered: Option<Vec<u8>>) -> NodeInput {
    NodeInput { name: name.to_vec(), content: content.to_vec(), rendered }
}

#[test]
fn round_trip_hello_world() {
    let n = Node::parse(&input(b"note", b"Hello\nWorld", None));
    assert_eq!(n.short, b"Hello".to_vec());
    assert_eq!(n.long, b"World".to_vec());
}

#[test]
fn no_newline_all_short() {
    let n = Node::parse(&input(b"note", b"just one line, no break", None));
    assert_eq!(n.short, b"just one line, no break".to_vec());
    assert_eq!(n.long, b"".to_vec());
}

#[test]
fn both_parts_trimmed() {
    let n = Node::parse(&input(b"note", b"  Hello \t\n  World  \n", None));
    assert_eq!(n.short, b"Hello".to_vec());
    assert_eq!(n.long, b"World".to_vec());
}

#[test]
fn long_keeps_inner_newlines() {
    let n = Node::parse(&input(b"note", b"a\nb\nc", None));
    assert_eq!(n.short, b"a".to_vec());
    assert_eq!(n.long, b"b\nc".to_vec());
}

#[test]
fn empty_content() {
    let n = Node::parse(&input(b"note", b"", None));
    assert_eq!(n.short, b"".to_vec());
    assert_eq!(n.long, b"".to_vec());
    assert_eq!(n.long_text_svg, None);
}

#[test]
fn id_keeps_raw_name_title_is_cased() {
    let n = Node::parse(&input(b"my_note", b"x", None));
    assert_eq!(n.id, b"my_note".to_vec());
    assert_eq!(n.title, b"My Note".to_vec());
}

#[test]
fn title_case_hyphens_and_case_changes() {
    let n = Node::parse(&input(b"someBig-topic", b"x", None));
    assert_eq!(n.title, b"Some Big Topic".to_vec());
}

#[test]
fn unstyled_long_never_keeps_rendered_body() {
    let n = Node::parse(&input(b"note", b"head\nplain text only", Some(b"<svg/>".to_vec())));
    assert_eq!(n.long_text_svg, None);
}

#[test]
fn styled_long_keeps_rendered_body() {
    let n = Node::parse(&input(b"note", b"head\n# a heading", Some(b"<svg/>".to_vec())));
    assert_eq!(n.long_text_svg, Some(b"<svg/>".to_vec()));
}

#[test]
fn dollar_marks_styled() {
    let n = Node::parse(&input(b"note", b"head\nthe sum $x + y$", Some(b"<svg/>".to_vec())));
    assert_eq!(n.long_text_svg, Some(b"<svg/>".to_vec()));
}

#[test]
fn styled_without_render_still_parses() {
    let n = Node::parse(&input(b"note", b"head\n# heading", None));
    assert_eq!(n.short, b"head".to_vec());
    assert_eq!(n.long, b"# heading".to_vec());
    assert_eq!(n.long_text_svg, None);
}

#[test]
fn hash_in_short_does_not_style() {
    let n = Node::parse(&input(b"note", b"# head\nplain", Some(b"<svg/>".to_vec())));
    assert_eq!(n.long_text_svg, None);
}
