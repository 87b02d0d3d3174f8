use notegraph::model::Model;
use notegraph::model::OpenModelError;
use notegraph::node::NodeInput;

fn entry(name: &[u8], content: &[u8]) -> Option<NodeInput> {
    Some(NodeInput { name: name.to_vec(), content: content.to_vec(), rendered: None })
}

#[test]
fn load_produces_one_node_per_file() {
    let m = Model::read(Some(vec![
        entry(b"first_note", b"one\nbody [second_note] x"),
        entry(b"second_note", b"two"),
    ]))
    .unwrap();
    let nodes = m.get_nodes();
    assert_eq!(nodes.len(), 2);
    assert_eq!(nodes[0].id, b"first_note".to_vec());
    assert_eq!(nodes[0].title, b"First Note".to_vec());
    assert_eq!(nodes[1].id, b"second_note".to_vec());
    assert_eq!(nodes[1].title, b"Second Note".to_vec());
}

#[test]
fn unavailable_directory_fails() {
    let r = Model::read(None);
    assert!(matches!(r, Err(OpenModelError::NotADir)));
}

#[test]
fn one_bad_entry_fails_whole_load() {
    let r = Model::read(Some(vec![
        entry(b"good", b"fine"),
        None,
        entry(b"also_good", b"fine too"),
    ]));
    assert!(matches!(r, Err(OpenModelError::CantParseNode)));
}

#[test]
fn empty_directory_loads_empty_model() {
    let m = Model::read(Some(Vec::new())).unwrap();
    assert_eq!(m.get_nodes().len(), 0);
    assert_eq!(m.get_edges().len(), 0);
}

#[test]
fn loading_twice_gives_identical_nodes() {
    let make = || {
        Model::read(Some(vec![
            entry(b"a_note", b"short\n# long $x$"),
            entry(b"b_note", b"links to [a_note] here"),
        ]))
        .unwrap()
    };
    let n1 = make().get_nodes();
    let n2 = make().get_nodes();
    assert_eq!(n1.len(), n2.len());
    for (a, b) in n1.iter().zip(n2.iter()) {
        assert_eq!(a.id, b.id);
        assert_eq!(a.title, b.title);
        assert_eq!(a.short, b.short);
        assert_eq!(a.long, b.long);
        assert_eq!(a.long_text_svg, b.long_text_svg);
    }
}

#[test]
fn edges_grouped_by_source_in_model_order() {
    let m = Model::read(Some(vec![
        entry(b"a", b"[x] and [y] end\n"),
        entry(b"b", b"none"),
        entry(b"c", b"\n[T](z)"),
    ]))
    .unwrap();
    let edges = m.get_edges();
    // node a makes 2 references, b none, c one: 3 edges in all.
    assert_eq!(edges.len(), 3);
    assert_eq!(edges[0], vec![b"a".to_vec(), b"x".to_vec()]);
    assert_eq!(edges[1], vec![b"a".to_vec(), b"y".to_vec()]);
    assert_eq!(edges[2], vec![b"c".to_vec(), b"z".to_vec()]);
}

#[test]
fn self_reference_and_duplicates_kept() {
    let m = Model::read(Some(vec![entry(b"a", b"[a] x [a] x\n")])).unwrap();
    let edges = m.get_edges();
    assert_eq!(edges.len(), 2);
    assert_eq!(edges[0], vec![b"a".to_vec(), b"a".to_vec()]);
    assert_eq!(edges[1], vec![b"a".to_vec(), b"a".to_vec()]);
}
