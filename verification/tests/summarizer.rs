use depthview::store::{Input, InputField, InputNode, InputValue, ObjectStore, TypeDescriptor};
use depthview::summarize::summarize;

fn field(key: &str, value: &str) -> InputField {
    InputField { key: key.to_string(), value: value.to_string() }
}

fn value_with(name: &str, text: &str, url: &str, decorative: &str, id: &str) -> InputValue {
    InputValue {
        name: name.to_string(),
        fields: vec![
            field("value", text),
            field("is_url", url),
            field("is_decorative", decorative),
            field("is_id", id),
        ],
    }
}

fn value(name: &str, text: &str) -> InputValue {
    value_with(name, text, "false", "false", "false")
}

fn node(
    id: &str,
    type_id: &str,
    parent: Option<&str>,
    depth: u16,
    values: Vec<InputValue>,
    children: Vec<&str>,
) -> InputNode {
    InputNode {
        id: id.to_string(),
        type_id: type_id.to_string(),
        parent_id: parent.map(|p| p.to_string()),
        depth,
        values,
        child_ids: children.iter().map(|c| c.to_string()).collect(),
    }
}

fn tdesc(id: &str, name: &str) -> TypeDescriptor {
    TypeDescriptor { id: id.to_string(), name: name.to_string() }
}

fn sibling_store() -> ObjectStore {
    let input = Input {
        types: vec![tdesc("x", "X"), tdesc("y", "Y")],
        nodes: vec![
            node("A", "x", None, 0, vec![value("n", "v")], vec!["B", "C", "D"]),
            node("B", "x", Some("A"), 1, vec![value("n", "v")], vec![]),
            node("C", "x", Some("A"), 1, vec![value("n", "v")], vec![]),
            node("D", "y", Some("A"), 1, vec![value("n", "v")], vec![]),
        ],
    };
    ObjectStore::load(&input).unwrap()
}

#[test]
fn repeated_sibling_types_collapse_into_histogram() {
    let st = sibling_store();
    // below the top level: histogram sorted by type name, then only the
    // unique-typed child D is recursed into
    let text = summarize(&st.nodes[0], &st.nodes, &st.types, 1);
    assert_eq!(text, " vX x 2 Y x 1  v");
}

#[test]
fn top_level_recurses_into_every_child() {
    let st = sibling_store();
    let text = summarize(&st.nodes[0], &st.nodes, &st.types, 0);
    assert_eq!(text, " v v v v");
}

#[test]
fn summarize_is_deterministic() {
    let st = sibling_store();
    let a = summarize(&st.nodes[0], &st.nodes, &st.types, 1);
    let b = summarize(&st.nodes[0], &st.nodes, &st.types, 1);
    assert_eq!(a, b);
}

#[test]
fn histogram_entries_are_sorted_by_type_name() {
    let input = Input {
        types: vec![tdesc("b", "Beta"), tdesc("a", "Alpha")],
        nodes: vec![
            node("root", "a", None, 0, vec![value("n", "r")], vec!["k1", "k2", "k3"]),
            node("k1", "b", Some("root"), 1, vec![value("n", "1")], vec![]),
            node("k2", "a", Some("root"), 1, vec![value("n", "2")], vec![]),
            node("k3", "a", Some("root"), 1, vec![value("n", "3")], vec![]),
        ],
    };
    let st = ObjectStore::load(&input).unwrap();
    let text = summarize(&st.nodes[0], &st.nodes, &st.types, 1);
    // Alpha before Beta, Alpha collapsed, Beta's one child recursed into
    assert_eq!(text, " rAlpha x 2 Beta x 1  1");
}

#[test]
fn histogram_counts_above_nine_render_fully() {
    let mut nodes = vec![];
    let mut kids: Vec<String> = vec![];
    for i in 0..12 {
        kids.push(format!("k{}", i));
    }
    nodes.push(InputNode {
        id: "root".to_string(),
        type_id: "t".to_string(),
        parent_id: None,
        depth: 0,
        values: vec![value("n", "r")],
        child_ids: kids.clone(),
    });
    for k in kids {
        nodes.push(node(&k, "t", Some("root"), 1, vec![value("n", "v")], vec![]));
    }
    let input = Input { types: vec![tdesc("t", "T")], nodes };
    let st = ObjectStore::load(&input).unwrap();
    let text = summarize(&st.nodes[0], &st.nodes, &st.types, 1);
    assert_eq!(text, " rT x 12 ");
}

#[test]
fn flagged_values_are_skipped() {
    let input = Input {
        types: vec![tdesc("t", "T")],
        nodes: vec![node(
            "a",
            "t",
            None,
            0,
            vec![
                value("shown", "keep"),
                value_with("link", "http", "true", "false", "false"),
                value_with("deco", "border", "false", "true", "false"),
                value_with("ident", "a-1", "false", "false", "true"),
            ],
            vec![],
        )],
    };
    let st = ObjectStore::load(&input).unwrap();
    let text = summarize(&st.nodes[0], &st.nodes, &st.types, 0);
    assert_eq!(text, " keep");
}

#[test]
fn values_are_trimmed() {
    let input = Input {
        types: vec![tdesc("t", "T")],
        nodes: vec![node("a", "t", None, 0, vec![value("n", "  padded text  ")], vec![])],
    };
    let st = ObjectStore::load(&input).unwrap();
    let text = summarize(&st.nodes[0], &st.nodes, &st.types, 0);
    assert_eq!(text, " padded text");
}

#[test]
fn dangling_child_ids_are_ignored() {
    let input = Input {
        types: vec![tdesc("t", "T")],
        nodes: vec![
            node("a", "t", None, 0, vec![value("n", "v")], vec!["missing", "b"]),
            node("b", "t", Some("a"), 1, vec![value("n", "w")], vec![]),
        ],
    };
    let st = ObjectStore::load(&input).unwrap();
    let text = summarize(&st.nodes[0], &st.nodes, &st.types, 0);
    assert_eq!(text, " v w");
}

#[test]
fn cyclic_references_terminate_with_ellipsis() {
    let input = Input {
        types: vec![tdesc("t", "T")],
        nodes: vec![
            node("X", "t", None, 0, vec![value("n", "x")], vec!["Y"]),
            node("Y", "t", Some("X"), 1, vec![value("n", "y")], vec!["X"]),
        ],
    };
    let st = ObjectStore::load(&input).unwrap();
    let text = summarize(&st.nodes[0], &st.nodes, &st.types, 0);
    assert_eq!(text, " x yT x 1  xT x 1  yT x 1  x...");
}

#[test]
fn summarize_twice_on_cycle_is_identical() {
    let input = Input {
        types: vec![tdesc("t", "T")],
        nodes: vec![
            node("X", "t", None, 0, vec![value("n", "x")], vec!["Y"]),
            node("Y", "t", Some("X"), 1, vec![value("n", "y")], vec!["X"]),
        ],
    };
    let st = ObjectStore::load(&input).unwrap();
    let a = summarize(&st.nodes[0], &st.nodes, &st.types, 0);
    let b = summarize(&st.nodes[0], &st.nodes, &st.types, 0);
    assert_eq!(a, b);
}
