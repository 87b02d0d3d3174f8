use notegraph::node::Node;
use notegraph::node::NodeInput;
use notegraph::refs::extract_bare;
use notegraph::refs::extract_connections;
use notegraph::refs::extract_titled;

fn ids(v: Vec<Vec<u8>>) -> Vec<String> {
    v.into_iter().map(|b| String::from_utf8(b).unwrap()).collect()
}

#[test]
fn bare_and_titled_in_order() {
    let text = b"[alpha] and [Beta](gamma)".to_vec();
    let empty = Vec::new();
    let got = ids(extract_connections(&text, &empty));
    assert_eq!(got, vec!["alpha".to_string(), "gamma".to_string()]);
}

#[test]
fn titled_wins_over_bare_on_same_bracket() {
    let text = b"[alpha](beta)".to_vec();
    let empty = Vec::new();
    let got = ids(extract_connections(&text, &empty));
    assert_eq!(got, vec!["beta".to_string()]);
}

#[test]
fn bare_at_end_of_field_extracted() {
    // A bracket closing at the very end of the text is not followed by an
    // opening parenthesis, so it is a reference.
    let text = b"see [alpha]".to_vec();
    let got = ids(extract_bare(&text));
    assert_eq!(got, vec!["alpha".to_string()]);
}

#[test]
fn adjacent_bare_references_both_extracted() {
    // A bare match ends at its closing bracket, so a bracket right after
    // another one is scanned too.
    let text = b"[a][b]c".to_vec();
    let got = ids(extract_bare(&text));
    assert_eq!(got, vec!["a".to_string(), "b".to_string()]);
}

#[test]
fn bare_allows_spaces_and_underscores() {
    let text = b"see [one_two three]!".to_vec();
    let got = ids(extract_bare(&text));
    assert_eq!(got, vec!["one_two three".to_string()]);
}

#[test]
fn titled_id_allows_hyphen() {
    let text = b"[The Title](some-id_1)".to_vec();
    let got = ids(extract_titled(&text));
    assert_eq!(got, vec!["some-id_1".to_string()]);
}

#[test]
fn titled_rejects_odd_id_bytes() {
    let text = b"[t](a!b)".to_vec();
    assert_eq!(extract_titled(&text).len(), 0);
}

#[test]
fn fields_scanned_in_fixed_order() {
    // bare in short, bare in long, titled in short, titled in long.
    let short = b"[s_bare] x [st](s_titled)".to_vec();
    let long = b"[l_bare] x [lt](l_titled)".to_vec();
    let got = ids(extract_connections(&short, &long));
    assert_eq!(
        got,
        vec![
            "s_bare".to_string(),
            "l_bare".to_string(),
            "s_titled".to_string(),
            "l_titled".to_string(),
        ]
    );
}

#[test]
fn connections_through_node() {
    let n = Node::parse(&NodeInput {
        name: b"n".to_vec(),
        content: b"see [alpha] here\nand [Beta](gamma) there".to_vec(),
        rendered: None,
    });
    let got = ids(n.get_connections());
    assert_eq!(got, vec!["alpha".to_string(), "gamma".to_string()]);
}

#[test]
fn no_references_in_plain_text() {
    let text = b"nothing to see here".to_vec();
    let empty = Vec::new();
    assert_eq!(extract_connections(&text, &empty).len(), 0);
}
