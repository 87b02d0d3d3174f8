use notegraph::node::Node;
use notegraph::node::NodeInput;
use notegraph::node::is_styled;
use notegraph::render::RenderError;
use notegraph::render::check_fonts;
use notegraph::render::first_page;
use notegraph::render::make_transparent;
use notegraph::render::render_request;

#[test]
fn plain_long_requests_no_render() {
    let r = render_request(&b"head\nno markup markers here at all".to_vec());
    assert_eq!(r, None);
}

#[test]
fn styled_long_requests_framed_source() {
    let r = render_request(&b"head\n# heading".to_vec()).unwrap();
    let text = String::from_utf8(r).unwrap();
    assert!(text.starts_with("#set page("));
    assert!(text.contains("width: 600pt"));
    assert!(text.contains("fill: rgb(\"transparent\")"));
    assert!(text.contains("size: 12pt"));
    assert!(text.ends_with("# heading\n"));
}

#[test]
fn styled_classification_is_on_trimmed_text() {
    assert!(is_styled(&b"# x".to_vec()));
    assert!(is_styled(&b"with $math$ inside".to_vec()));
    assert!(!is_styled(&b"plain, even with [refs]".to_vec()));
    assert!(!is_styled(&b"hash # not first".to_vec()));
}

#[test]
fn transparency_patch_rewrites_every_rect() {
    let svg = b"<svg><rect width=\"1\"/><g><rect/></g></svg>".to_vec();
    let got = make_transparent(&svg);
    assert_eq!(
        String::from_utf8(got).unwrap(),
        "<svg><rect fill=\"none\" width=\"1\"/><g><rect fill=\"none\"/></g></svg>"
    );
}

#[test]
fn transparency_patch_leaves_other_text_alone() {
    let svg = b"<svg><recta/><path d=\"rect\"/></svg>".to_vec();
    let got = make_transparent(&svg);
    // `<recta` begins with `<rect`, so it is patched; the quoted word is not
    // preceded by `<` and stays.
    assert_eq!(
        String::from_utf8(got).unwrap(),
        "<svg><rect fill=\"none\"a/><path d=\"rect\"/></svg>"
    );
}

#[test]
fn zero_pages_is_empty_document() {
    assert_eq!(first_page(0), Err(RenderError::EmptyDocument));
    assert_eq!(first_page(1), Ok(0));
    assert_eq!(first_page(7), Ok(0));
}

#[test]
fn no_fonts_is_an_error() {
    assert_eq!(check_fonts(0), Err(RenderError::NoFontsAvailable));
    assert_eq!(check_fonts(3), Ok(()));
}

#[test]
fn failed_render_still_yields_a_node() {
    // A styled body whose rendering failed (for instance with an empty
    // document) is handed in without an image; the node still parses.
    let n = Node::parse(&NodeInput {
        name: b"math_note".to_vec(),
        content: b"head\n$x$".to_vec(),
        rendered: None,
    });
    assert_eq!(n.id, b"math_note".to_vec());
    assert_eq!(n.short, b"head".to_vec());
    assert_eq!(n.long, b"$x$".to_vec());
    assert_eq!(n.long_text_svg, None);
}
