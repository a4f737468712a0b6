use depthview::content::{
    sort_content_values, Content, ContentMetadata, ContentValue, ContentValueMetadata,
};
use depthview::display::to_display_lines;
use depthview::list::{get_lines, get_page, Line};
use depthview::store::InputField;

fn field(key: &str, value: &str) -> InputField {
    InputField { key: key.to_string(), value: value.to_string() }
}

fn line(id: &str, text: &str) -> Line {
    Line { id: id.to_string(), text: text.to_string(), data: vec![] }
}

#[test]
fn short_text_is_one_line_untruncated() {
    let (lines, truncated) = to_display_lines(&"hello world".to_string());
    assert_eq!(lines, vec!["hello world".to_string()]);
    assert!(!truncated);
}

#[test]
fn long_text_wraps_at_the_display_width() {
    let mut text = String::new();
    for _ in 0..100 {
        text.push_str("seven77 ");
    }
    let (lines, truncated) = to_display_lines(&text);
    assert!(lines.len() > 1);
    assert!(!truncated);
    for l in lines.iter() {
        assert!(l.len() <= 160);
    }
}

#[test]
fn overlong_text_is_cut_to_twenty_lines() {
    let mut text = String::new();
    for _ in 0..5000 {
        text.push_str("seven77 ");
    }
    let (lines, truncated) = to_display_lines(&text);
    assert_eq!(lines.len(), 20);
    assert!(truncated);
}

#[test]
fn get_page_serves_the_requested_window() {
    let lines = vec![line("a", "0"), line("b", "1"), line("c", "2"), line("d", "3"), line("e", "4")];
    let page = get_page(&lines, 4, 1, 1);
    assert_eq!(page.len(), 2);
    assert_eq!(page[0].text, "1");
    assert_eq!(page[0].id, "b");
    assert_eq!(page[1].text, "2");
    assert_eq!(page[1].id, "c");
}

#[test]
fn get_lines_packs_pairs_into_one_line() {
    let items = vec![vec![field("a", "1"), field("b", "2")]];
    let lines = get_lines(&items, 24, 20, 1, 1);
    assert_eq!(lines.len(), 2);
    assert_eq!(lines[0].text, "a: 1 b: 2 ");
    assert_eq!(lines[0].id.len(), 36);
    assert_eq!(lines[0].data.len(), 2);
    assert_eq!(lines[1].text, "");
    assert_eq!(lines[1].id, "");
    assert!(lines[1].data.is_empty());
}

#[test]
fn get_lines_breaks_when_a_segment_overflows() {
    // budget of 7 columns: the second segment overflows and starts a
    // fresh line
    let items = vec![vec![field("a", "1"), field("b", "2")]];
    let lines = get_lines(&items, 24, 9, 1, 1);
    assert_eq!(lines.len(), 3);
    assert_eq!(lines[0].text, "a: 1 ");
    assert_eq!(lines[1].text, "b: 2 ");
    assert_eq!(lines[2].text, "");
}

#[test]
fn get_lines_drops_a_segment_wider_than_the_budget() {
    let items = vec![vec![field("a-very-long-key-name", "1"), field("b", "2")]];
    let lines = get_lines(&items, 24, 9, 1, 1);
    assert_eq!(lines.len(), 2);
    assert_eq!(lines[0].text, "b: 2 ");
    assert_eq!(lines[1].text, "");
}

#[test]
fn get_lines_drops_a_segment_landing_exactly_on_the_budget() {
    // budget of 10: "a: 1 " fills 5, "b: 2 " would land exactly on 10
    // and is dropped
    let items = vec![vec![field("a", "1"), field("b", "2")]];
    let lines = get_lines(&items, 24, 12, 1, 1);
    assert_eq!(lines.len(), 2);
    assert_eq!(lines[0].text, "a: 1 ");
    assert_eq!(lines[1].text, "");
}

#[test]
fn get_lines_separates_records_with_blank_lines() {
    let items = vec![vec![field("a", "1")], vec![field("b", "2")]];
    let lines = get_lines(&items, 24, 20, 1, 1);
    assert_eq!(lines.len(), 4);
    assert_eq!(lines[0].text, "a: 1 ");
    assert_eq!(lines[1].text, "");
    assert_eq!(lines[2].text, "b: 2 ");
    assert_eq!(lines[3].text, "");
}

fn record(id: &str, text: &str, children: Vec<Content>) -> Content {
    Content {
        id: id.to_string(),
        meta: ContentMetadata { recursive: None },
        values: vec![ContentValue {
            meta: ContentValueMetadata { is_primary_content: true },
            name: "n".to_string(),
            value: text.to_string(),
        }],
        children,
    }
}

#[test]
fn go_down_depth_collects_the_requested_level() {
    let tree = record(
        "root",
        "r",
        vec![
            record("a", "a", vec![record("a1", "a1", vec![]), record("a2", "a2", vec![])]),
            record("b", "b", vec![record("b1", "b1", vec![])]),
        ],
    );
    let mut results = Vec::new();
    tree.go_down_depth(2, &mut results);
    let ids: Vec<&str> = results.iter().map(|c| c.id.as_str()).collect();
    assert_eq!(ids, vec!["a1", "a2", "b1"]);
    let mut top = Vec::new();
    tree.go_down_depth(0, &mut top);
    assert_eq!(top.len(), 1);
    assert_eq!(top[0].id, "root");
}

#[test]
fn content_values_sort_primary_first_then_by_name_stably() {
    let v = |primary: bool, name: &str, value: &str| ContentValue {
        meta: ContentValueMetadata { is_primary_content: primary },
        name: name.to_string(),
        value: value.to_string(),
    };
    let vals = vec![
        v(false, "beta", "1"),
        v(true, "zeta", "2"),
        v(false, "alpha", "3"),
        v(false, "beta", "4"),
        v(true, "alpha", "5"),
    ];
    let sorted = sort_content_values(&vals);
    let keys: Vec<(bool, &str, &str)> = sorted
        .iter()
        .map(|x| (x.meta.is_primary_content, x.name.as_str(), x.value.as_str()))
        .collect();
    assert_eq!(
        keys,
        vec![
            (true, "alpha", "5"),
            (true, "zeta", "2"),
            (false, "alpha", "3"),
            (false, "beta", "1"),
            (false, "beta", "4"),
        ]
    );
}

fn cv(primary: bool, name: &str, value: &str) -> ContentValue {
    ContentValue {
        meta: ContentValueMetadata { is_primary_content: primary },
        name: name.to_string(),
        value: value.to_string(),
    }
}

#[test]
fn pack_flows_short_values_onto_one_line() {
    let vals = vec![cv(true, "a", " one "), cv(false, "b", "two")];
    let packed = depthview::display::pack_content_lines(&vals);
    assert_eq!(packed.len(), 1);
    assert_eq!(packed[0].len(), 2);
    assert_eq!(packed[0][0].text, " one");
    assert!(packed[0][0].primary);
    assert_eq!(packed[0][1].text, " two");
    assert!(!packed[0][1].primary);
}

#[test]
fn pack_starts_a_fresh_line_on_overflow() {
    let eighty = "e".repeat(80);
    let ninety = "n".repeat(90);
    let vals = vec![cv(false, "a", &eighty), cv(false, "b", &ninety)];
    let packed = depthview::display::pack_content_lines(&vals);
    assert_eq!(packed.len(), 2);
    assert_eq!(packed[0].len(), 1);
    assert_eq!(packed[0][0].text, format!(" {}", eighty));
    assert_eq!(packed[1][0].text, ninety);
}

#[test]
fn pack_wraps_an_overwide_value_onto_its_own_lines() {
    let wide = "wide7777 ".repeat(40);
    let vals = vec![cv(false, "a", "lead"), cv(true, "b", &wide)];
    let packed = depthview::display::pack_content_lines(&vals);
    assert!(packed.len() >= 3);
    assert_eq!(packed[0].len(), 1);
    assert_eq!(packed[0][0].text, " lead");
    for line in packed.iter().skip(1) {
        assert_eq!(line.len(), 1);
        assert!(line[0].primary);
        assert!(line[0].text.len() <= 160);
    }
}
