use depthview::app::{App, StatefulList};
use depthview::session::Session;
use depthview::store::{Input, InputField, InputNode, InputValue, LoadError, TypeDescriptor};

fn field(key: &str, value: &str) -> InputField {
    InputField { key: key.to_string(), value: value.to_string() }
}

fn value(name: &str, text: &str) -> InputValue {
    InputValue {
        name: name.to_string(),
        fields: vec![
            field("value", text),
            field("is_url", "false"),
            field("is_decorative", "false"),
            field("is_id", "false"),
        ],
    }
}

fn node(
    id: &str,
    type_id: &str,
    parent: Option<&str>,
    depth: u16,
    values: Vec<InputValue>,
    children: Vec<&str>,
) -> InputNode {
    InputNode {
        id: id.to_string(),
        type_id: type_id.to_string(),
        parent_id: parent.map(|p| p.to_string()),
        depth,
        values,
        child_ids: children.iter().map(|c| c.to_string()).collect(),
    }
}

fn tdesc(id: &str, name: &str) -> TypeDescriptor {
    TypeDescriptor { id: id.to_string(), name: name.to_string() }
}

#[test]
fn new_app_defaults() {
    let app = App::new();
    assert!(!app.should_quit);
    assert_eq!(app.current_depth(), 1);
    assert_eq!(app.max_depth(), 0);
    assert_eq!(app.visible_len(), 0);
    assert_eq!(app.color_palette.primary_hex, "#00FF00");
    assert_eq!(app.color_palette.secondary_hex, "#FFFFFF");
    assert_eq!(app.color_palette.background_hex, "#000011");
}

#[test]
fn quit_sets_flag() {
    let mut app = App::new();
    app.quit();
    assert!(app.should_quit);
}

#[test]
fn load_empty_input_gives_empty_store() {
    let mut app = App::new();
    let input = Input { types: vec![], nodes: vec![] };
    assert!(app.load_input(&input).is_ok());
    assert_eq!(app.max_depth(), 0);
    assert_eq!(app.current_depth(), 0);
    assert_eq!(app.visible_len(), 0);
}

#[test]
fn load_drops_degenerate_nodes() {
    let mut app = App::new();
    let input = Input {
        types: vec![tdesc("t", "T")],
        nodes: vec![
            node("keep", "t", None, 0, vec![value("n", "v")], vec![]),
            node("drop", "t", None, 0, vec![], vec![]),
            node("keep2", "t", None, 0, vec![], vec!["keep"]),
        ],
    };
    assert!(app.load_input(&input).is_ok());
    assert_eq!(app.store.nodes.len(), 2);
    assert_eq!(app.store.nodes[0].id, "keep");
    assert_eq!(app.store.nodes[1].id, "keep2");
    for n in app.store.nodes.iter() {
        assert!(!(n.values.is_empty() && n.child_ids.is_empty()));
    }
}

#[test]
fn load_missing_flag_is_rejected() {
    let mut app = App::new();
    let bad = InputValue {
        name: "n".to_string(),
        fields: vec![field("value", "v"), field("is_url", "false"), field("is_id", "false")],
    };
    let input = Input {
        types: vec![tdesc("t", "T")],
        nodes: vec![node("a", "t", None, 0, vec![bad], vec![])],
    };
    assert_eq!(app.load_input(&input), Err(LoadError::MalformedValue));
}

#[test]
fn load_unresolved_type_is_rejected() {
    let mut app = App::new();
    let input = Input {
        types: vec![tdesc("t", "T")],
        nodes: vec![node("a", "unknown", None, 0, vec![value("n", "v")], vec![])],
    };
    assert_eq!(app.load_input(&input), Err(LoadError::UnresolvedType));
}

#[test]
fn failed_load_keeps_prior_state() {
    let mut app = App::new();
    let good = Input {
        types: vec![tdesc("t", "T")],
        nodes: vec![
            node("a", "t", None, 0, vec![value("n", "v")], vec![]),
            node("b", "t", None, 1, vec![value("n", "v")], vec![]),
        ],
    };
    assert!(app.load_input(&good).is_ok());
    assert_eq!(app.current_depth(), 1);
    assert_eq!(app.visible_len(), 1);
    let bad = Input {
        types: vec![],
        nodes: vec![node("c", "unknown", None, 0, vec![value("n", "v")], vec![])],
    };
    assert_eq!(app.load_input(&bad), Err(LoadError::UnresolvedType));
    assert_eq!(app.current_depth(), 1);
    assert_eq!(app.visible_len(), 1);
    assert_eq!(app.store.nodes.len(), 2);
}

#[test]
fn five_nodes_with_distinct_parents_are_all_visible_unscoped() {
    let mut app = App::new();
    let mut nodes = vec![];
    for i in 0..5 {
        let id = format!("n{}", i);
        let parent = format!("p{}", i);
        nodes.push(InputNode {
            id: id.clone(),
            type_id: "t".to_string(),
            parent_id: Some(parent),
            depth: 1,
            values: vec![value("n", "v")],
            child_ids: vec![],
        });
    }
    let input = Input { types: vec![tdesc("t", "T")], nodes };
    assert!(app.load_input(&input).is_ok());
    assert_eq!(app.current_depth(), 1);
    assert_eq!(app.visible_len(), 5);
    for i in 0..5 {
        assert_eq!(app.visible_node(i).id, format!("n{}", i));
    }
}

#[test]
fn deeper_auto_descends_through_single_child_levels() {
    let mut app = App::new();
    let input = Input {
        types: vec![tdesc("t", "T")],
        nodes: vec![
            node("a", "t", None, 1, vec![value("n", "v")], vec!["b"]),
            node("other", "t", None, 1, vec![value("n", "v")], vec![]),
            node("b", "t", Some("a"), 2, vec![value("n", "v")], vec!["c1", "c2"]),
            node("c1", "t", Some("b"), 3, vec![value("n", "v")], vec![]),
            node("c2", "t", Some("b"), 3, vec![value("n", "v")], vec![]),
        ],
    };
    assert!(app.load_input(&input).is_ok());
    assert_eq!(app.current_depth(), 1);
    assert_eq!(app.max_depth(), 3);
    assert_eq!(app.visible_len(), 2);
    app.select(0);
    app.deeper();
    // one user action: through the single-child level at depth 2, landing
    // at depth 3 with both children of b visible
    assert_eq!(app.current_depth(), 3);
    assert_eq!(app.visible_len(), 2);
    assert_eq!(app.visible_node(0).id, "c1");
    assert_eq!(app.visible_node(1).id, "c2");
}

#[test]
fn deeper_selects_single_visible_node_at_bottom() {
    let mut app = App::new();
    let input = Input {
        types: vec![tdesc("t", "T")],
        nodes: vec![
            node("a", "t", None, 1, vec![value("n", "v")], vec!["b"]),
            node("other", "t", None, 1, vec![value("n", "v")], vec![]),
            node("b", "t", Some("a"), 2, vec![value("n", "v")], vec![]),
        ],
    };
    assert!(app.load_input(&input).is_ok());
    app.select(0);
    app.deeper();
    assert_eq!(app.current_depth(), 2);
    assert_eq!(app.visible_len(), 1);
    assert_eq!(app.selected_index(), Some(0));
    assert_eq!(app.visible_node(0).id, "b");
}

#[test]
fn deeper_without_selection_is_a_no_op() {
    let mut app = App::new();
    let input = Input {
        types: vec![tdesc("t", "T")],
        nodes: vec![
            node("a", "t", None, 1, vec![value("n", "v")], vec!["b"]),
            node("b", "t", Some("a"), 2, vec![value("n", "v")], vec![]),
        ],
    };
    assert!(app.load_input(&input).is_ok());
    app.deeper();
    assert_eq!(app.current_depth(), 1);
    assert_eq!(app.selected_index(), None);
}

#[test]
fn ascend_at_depth_zero_leaves_state_unchanged() {
    let mut app = App::new();
    let input = Input {
        types: vec![tdesc("t", "T")],
        nodes: vec![
            node("a", "t", None, 0, vec![value("n", "v")], vec![]),
            node("b", "t", None, 0, vec![value("n", "v")], vec![]),
        ],
    };
    assert!(app.load_input(&input).is_ok());
    assert_eq!(app.current_depth(), 0);
    let before_len = app.visible_len();
    app.higher();
    assert_eq!(app.current_depth(), 0);
    assert_eq!(app.visible_len(), before_len);
}

#[test]
fn higher_pops_the_parent_scope() {
    let mut app = App::new();
    let input = Input {
        types: vec![tdesc("t", "T")],
        nodes: vec![
            node("a", "t", None, 1, vec![value("n", "v")], vec!["b1", "b2"]),
            node("other", "t", None, 1, vec![value("n", "v")], vec![]),
            node("b1", "t", Some("a"), 2, vec![value("n", "v")], vec![]),
            node("b2", "t", Some("a"), 2, vec![value("n", "v")], vec![]),
        ],
    };
    assert!(app.load_input(&input).is_ok());
    app.select(0);
    app.deeper();
    assert_eq!(app.current_depth(), 2);
    assert_eq!(app.visible_len(), 2);
    app.higher();
    assert_eq!(app.current_depth(), 1);
    assert_eq!(app.visible_len(), 2);
    assert_eq!(app.visible_node(0).id, "a");
    assert_eq!(app.visible_node(1).id, "other");
}

#[test]
fn visible_nodes_respect_parent_scope() {
    let mut app = App::new();
    let input = Input {
        types: vec![tdesc("t", "T")],
        nodes: vec![
            node("a", "t", None, 1, vec![value("n", "v")], vec!["b1"]),
            node("x", "t", None, 1, vec![value("n", "v")], vec!["b2"]),
            node("b1", "t", Some("a"), 2, vec![value("n", "v")], vec![]),
            node("b2", "t", Some("x"), 2, vec![value("n", "v")], vec![]),
            node("b3", "t", None, 2, vec![value("n", "v")], vec![]),
        ],
    };
    assert!(app.load_input(&input).is_ok());
    app.select(1);
    app.deeper();
    assert_eq!(app.current_depth(), 2);
    assert_eq!(app.visible_len(), 1);
    assert_eq!(app.visible_node(0).id, "b2");
}

#[test]
fn stateful_list_next_wraps_around() {
    let mut l: StatefulList<usize> = StatefulList::with_items(vec![10, 20, 30]);
    assert_eq!(l.selected, None);
    l.next();
    assert_eq!(l.selected, Some(0));
    l.next();
    assert_eq!(l.selected, Some(1));
    l.next();
    assert_eq!(l.selected, Some(2));
    l.next();
    assert_eq!(l.selected, Some(0));
}

#[test]
fn stateful_list_previous_wraps_around() {
    let mut l: StatefulList<usize> = StatefulList::with_items(vec![10, 20, 30]);
    l.previous();
    assert_eq!(l.selected, Some(0));
    l.previous();
    assert_eq!(l.selected, Some(2));
    l.previous();
    assert_eq!(l.selected, Some(1));
}

#[test]
fn stateful_list_start_and_end_jump() {
    let mut l: StatefulList<usize> = StatefulList::with_items(vec![10, 20, 30]);
    l.end();
    assert_eq!(l.selected, Some(2));
    l.start();
    assert_eq!(l.selected, Some(0));
}

#[test]
fn stateful_list_is_safe_on_empty() {
    let mut l: StatefulList<usize> = StatefulList::with_items(vec![]);
    l.next();
    l.previous();
    l.start();
    l.end();
    l.select(0);
    assert_eq!(l.selected, None);
}

#[test]
fn stateful_list_select_out_of_range_is_a_no_op() {
    let mut l: StatefulList<usize> = StatefulList::with_items(vec![10, 20]);
    l.select(5);
    assert_eq!(l.selected, None);
    l.select(1);
    assert_eq!(l.selected, Some(1));
    assert_eq!(l.last_selected, Some(1));
}

#[test]
fn session_snapshot_and_clamped_override() {
    let mut app = App::new();
    let input = Input {
        types: vec![tdesc("t", "T")],
        nodes: vec![
            node("a", "t", None, 0, vec![value("n", "v")], vec!["b"]),
            node("b", "t", Some("a"), 1, vec![value("n", "v")], vec![]),
        ],
    };
    assert!(app.load_input(&input).is_ok());
    assert_eq!(app.get_session().depth, 1);
    app.apply_session(&Session { depth: 5 });
    assert_eq!(app.current_depth(), 1);
    app.apply_session(&Session { depth: 0 });
    assert_eq!(app.current_depth(), 0);
    assert_eq!(app.get_session().depth, 0);
}

#[test]
fn next_falls_back_to_the_remembered_selection() {
    let mut l: StatefulList<usize> = StatefulList::with_items(vec![10, 20, 30]);
    l.select(2);
    l.selected = None;
    l.next();
    assert_eq!(l.selected, Some(2));
}

#[test]
fn get_current_object_follows_the_selection() {
    let mut app = App::new();
    let input = Input {
        types: vec![tdesc("t", "T")],
        nodes: vec![
            node("a", "t", None, 1, vec![value("n", "v")], vec![]),
            node("b", "t", None, 1, vec![value("n", "v")], vec![]),
        ],
    };
    assert!(app.load_input(&input).is_ok());
    assert!(app.get_current_object().is_none());
    app.select(1);
    assert_eq!(app.get_current_object().unwrap().id, "b");
}

#[test]
fn deeper_on_a_fresh_app_is_a_no_op() {
    let mut app = App::new();
    app.deeper();
    assert_eq!(app.current_depth(), 1);
    assert_eq!(app.max_depth(), 0);
    assert_eq!(app.visible_len(), 0);
}

#[test]
fn reloading_resets_depth_and_scope() {
    let mut app = App::new();
    let input = Input {
        types: vec![tdesc("t", "T")],
        nodes: vec![
            node("a", "t", None, 1, vec![value("n", "v")], vec!["b1", "b2"]),
            node("other", "t", None, 1, vec![value("n", "v")], vec![]),
            node("b1", "t", Some("a"), 2, vec![value("n", "v")], vec![]),
            node("b2", "t", Some("a"), 2, vec![value("n", "v")], vec![]),
        ],
    };
    assert!(app.load_input(&input).is_ok());
    app.select(0);
    app.deeper();
    assert_eq!(app.current_depth(), 2);
    assert!(app.load_input(&input).is_ok());
    assert_eq!(app.current_depth(), 1);
    assert_eq!(app.visible_len(), 2);
    assert_eq!(app.selected_index(), None);
}
