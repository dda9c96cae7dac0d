use md2docx::image_reference_collector::{ImageModifiers, ImageReferenceCollector};
use md2docx::json::JsonMember;
use md2docx::metadata::TableMetadata;
use md2docx::node::{ContainerKind, Node};
use md2docx::references::{find_token, resolve_references};
use md2docx::traverser::MarkdownNodeTraverser;

fn keyed_image(key: &str) -> Node {
    Node::Image {
        url: "image.png".to_string(),
        alt: format!("{{\"ref\":\"{}\"}}", key),
        title: None,
    }
}

fn unkeyed_image() -> Node {
    Node::Image { url: "image.png".to_string(), alt: "A picture".to_string(), title: None }
}

fn metadata_cell(caption: &str, key: &str) -> Node {
    Node::TableCell(vec![Node::Text(format!(
        "{{\"caption\":\"{}\",\"ref\":\"{}\"}}",
        caption, key
    ))])
}

fn collected(tree: &Node) -> ImageReferenceCollector {
    let mut collector = ImageReferenceCollector::new();
    collector.process_node(tree, ());
    collector
}

fn chars(text: &str) -> Vec<char> {
    text.chars().collect()
}

#[test]
fn text_without_placeholder_is_returned_unchanged() {
    let refs = collected(&Node::Root(vec![keyed_image("a")]));
    for text in ["", "plain", "{ref a}", "{ref:", "ref: a}", "{ REF: a}", "{ref :a}", "{r{ef:a}", "né {}"] {
        assert_eq!(resolve_references(text, &refs), text);
    }
}

#[test]
fn unknown_key_is_left_as_written() {
    let refs = collected(&Node::Root(vec![keyed_image("a")]));
    assert_eq!(resolve_references("{ref: missing}", &refs), "{ref: missing}");
    assert_eq!(
        resolve_references("x {ref: missing} y {ref:a} z", &refs),
        "x {ref: missing} y Figure 1 z"
    );
    let nothing = ImageReferenceCollector::new();
    assert_eq!(resolve_references("{ref:a}{ref: b}", &nothing), "{ref:a}{ref: b}");
}

#[test]
fn white_space_around_the_key_is_ignored() {
    let refs = collected(&Node::Root(vec![keyed_image("fig-a")]));
    assert_eq!(resolve_references("{ref:fig-a}", &refs), "Figure 1");
    assert_eq!(resolve_references("{ref: fig-a}", &refs), "Figure 1");
    assert_eq!(resolve_references("{ref:   fig-a \t}", &refs), "Figure 1");
    assert_eq!(resolve_references("{ref:\u{a0}fig-a\u{2003}}", &refs), "Figure 1");
    assert_eq!(resolve_references("{ref: fig -a}", &refs), "{ref: fig -a}");
}

#[test]
fn every_placeholder_is_resolved_in_one_scan() {
    let refs = collected(&Node::Root(vec![keyed_image("a"), keyed_image("b")]));
    assert_eq!(resolve_references("{ref:a}{ref:b}{ref:a}", &refs), "Figure 1Figure 2Figure 1");
    assert_eq!(resolve_references("é{ref: b}ü", &refs), "éFigure 2ü");
    assert_eq!(resolve_references("{ref:{ref:a}", &refs), "{ref:{ref:a}");
    assert_eq!(resolve_references("{ref:a} {ref:b", &refs), "Figure 1 {ref:b");
    assert_eq!(resolve_references("}{ref:a}}", &refs), "}Figure 1}");
}

#[test]
fn key_with_braces_is_not_scanned_again() {
    let refs = collected(&Node::Root(vec![keyed_image("{ref:a"), keyed_image("a")]));
    assert_eq!(resolve_references("{ref:{ref:a}", &refs), "Figure 1");
    assert_eq!(resolve_references("{ref:{ref:a} {ref:a}", &refs), "Figure 1 Figure 2");
}

#[test]
fn leftmost_placeholder_is_found_first() {
    assert_eq!(find_token(&chars("ab{ref:x}cd{ref:y}"), 0), Some((2, 9)));
    assert_eq!(find_token(&chars("ab{ref:x}cd{ref:y}"), 3), Some((11, 18)));
    assert_eq!(find_token(&chars("ab{ref:x}cd{ref:y}"), 12), None);
    assert_eq!(find_token(&chars("{ref:}"), 0), Some((0, 6)));
    assert_eq!(find_token(&chars("{ref:"), 0), None);
    assert_eq!(find_token(&chars("{ref:x"), 0), None);
    assert_eq!(find_token(&chars("}{ref:x"), 0), None);
    assert_eq!(find_token(&chars(""), 0), None);
}

#[test]
fn figures_are_numbered_in_document_order() {
    let tree = Node::Root(vec![
        Node::Paragraph(vec![keyed_image("one"), unkeyed_image()]),
        Node::Heading { depth: 1, children: vec![keyed_image("two")] },
        Node::Container {
            kind: ContainerKind::Blockquote,
            children: vec![Node::Strong(vec![Node::Emphasis(vec![keyed_image("three")])])],
        },
        Node::List {
            ordered: false,
            children: vec![Node::ListItem {
                checked: None,
                spread: false,
                children: vec![keyed_image("four")],
            }],
        },
    ]);
    let refs = collected(&tree);
    assert_eq!(refs.get("one"), Some("Figure 1".to_string()));
    assert_eq!(refs.get("two"), Some("Figure 2".to_string()));
    assert_eq!(refs.get("three"), Some("Figure 3".to_string()));
    assert_eq!(refs.get("four"), Some("Figure 4".to_string()));
    assert_eq!(refs.get("five"), None);
    assert_eq!(refs.figure_count(), 4);
    assert_eq!(refs.figure_number("three"), Some(3));
    assert_eq!(refs.figure_number("A picture"), None);
}

#[test]
fn second_image_with_a_key_is_not_registered_but_counted() {
    let tree = Node::Root(vec![keyed_image("a"), keyed_image("a"), keyed_image("b")]);
    let refs = collected(&tree);
    assert_eq!(refs.get("a"), Some("Figure 1".to_string()));
    assert_eq!(refs.get("b"), Some("Figure 3".to_string()));
    assert_eq!(refs.figure_count(), 2);
    assert_eq!(resolve_references("{ref: a}", &refs), "Figure 1");
}

#[test]
fn numbers_of_several_digits_are_written_in_decimal() {
    let mut images = Vec::new();
    for i in 0..120 {
        images.push(keyed_image(&format!("k{}", i)));
    }
    let refs = collected(&Node::Root(images));
    assert_eq!(refs.get("k0"), Some("Figure 1".to_string()));
    assert_eq!(refs.get("k9"), Some("Figure 10".to_string()));
    assert_eq!(refs.get("k99"), Some("Figure 100".to_string()));
    assert_eq!(refs.get("k119"), Some("Figure 120".to_string()));
    assert_eq!(resolve_references("{ref: k108}", &refs), "Figure 109");
}

#[test]
fn every_table_is_counted_and_its_cells_register_keys() {
    let tree = Node::Root(vec![
        Node::Table(vec![]),
        Node::Table(vec![Node::TableRow(vec![Node::TableCell(vec![Node::Text(
            "no metadata".to_string(),
        )])])]),
        Node::Table(vec![
            Node::TableRow(vec![
                Node::TableCell(vec![]),
                metadata_cell("Results", "tab-r"),
                metadata_cell("Again", "tab-r"),
            ]),
            Node::Paragraph(vec![]),
            Node::TableRow(vec![
                Node::Text("{\"caption\":\"c\",\"ref\":\"stray\"}".to_string()),
                Node::TableCell(vec![
                    Node::Strong(vec![]),
                    Node::Text("{\"caption\":\"c\",\"ref\":\"second-child\"}".to_string()),
                ]),
                metadata_cell("Other", "tab-o"),
            ]),
        ]),
        Node::Table(vec![Node::TableRow(vec![metadata_cell("Late", "tab-r")])]),
        Node::Table(vec![Node::TableRow(vec![metadata_cell("Last", "tab-l")])]),
    ]);
    let refs = collected(&tree);
    assert_eq!(refs.get("tab-r"), Some("Table 3".to_string()));
    assert_eq!(refs.get("tab-o"), Some("Table 3".to_string()));
    assert_eq!(refs.get("tab-l"), Some("Table 5".to_string()));
    assert_eq!(refs.get("stray"), None);
    assert_eq!(refs.get("second-child"), None);
    assert_eq!(refs.figure_count(), 0);
}

#[test]
fn images_inside_tables_are_not_registered() {
    let tree = Node::Root(vec![
        Node::Table(vec![Node::TableRow(vec![Node::TableCell(vec![keyed_image("in-table")])])]),
        Node::TableCell(vec![keyed_image("in-cell")]),
        Node::TableRow(vec![keyed_image("in-row")]),
    ]);
    let refs = collected(&tree);
    assert_eq!(refs.get("in-table"), None);
    assert_eq!(refs.get("in-cell"), None);
    assert_eq!(refs.get("in-row"), Some("Figure 1".to_string()));
}

#[test]
fn figure_namespace_is_asked_before_table_namespace() {
    let tree = Node::Root(vec![
        Node::Table(vec![Node::TableRow(vec![metadata_cell("Both", "both")])]),
        Node::Table(vec![Node::TableRow(vec![metadata_cell("Only", "only")])]),
        keyed_image("both"),
    ]);
    let refs = collected(&tree);
    assert_eq!(refs.get("both"), Some("Figure 1".to_string()));
    assert_eq!(refs.get("only"), Some("Table 2".to_string()));
    assert_eq!(resolve_references("{ref: both}, {ref: only}", &refs), "Figure 1, Table 2");
}

#[test]
fn collector_visits_one_image_and_one_table() {
    let mut collector = ImageReferenceCollector::default();
    collector.visit_image("a.png", "{\"ref\": \"a\", \"scale\": 0.5}", &None, ());
    collector.visit_image("b.png", "no json", &None, ());
    collector.visit_table(&vec![Node::TableRow(vec![metadata_cell("T", "t")])], ());
    collector.process_child(&keyed_image("c"), ());
    assert_eq!(collector.get("a"), Some("Figure 1".to_string()));
    assert_eq!(collector.get("c"), Some("Figure 2".to_string()));
    assert_eq!(collector.get("t"), Some("Table 1".to_string()));
}

#[test]
fn image_modifiers_are_read_from_json() {
    let both = ImageModifiers::decode("{\"scale\": 0.5, \"ref\": \"fig-a\"}");
    assert_eq!(both, ImageModifiers { scale: "0.5".to_string(), reference: Some("fig-a".to_string()) });
    let key_only = ImageModifiers::decode("{\"ref\":\"fig-a\"}");
    assert_eq!(
        key_only,
        ImageModifiers { scale: "1.0".to_string(), reference: Some("fig-a".to_string()) }
    );
    let scale_only = ImageModifiers::decode(" { \"scale\" : 2 , \"other\" : [1, 2] } ");
    assert_eq!(scale_only, ImageModifiers { scale: "2".to_string(), reference: None });
    let null_key = ImageModifiers::decode("{\"scale\": 1.25e0, \"ref\": null}");
    assert_eq!(null_key, ImageModifiers { scale: "1.25".to_string(), reference: None });
    let escaped = ImageModifiers::decode("{\"ref\": \"a\\u0062\\\"c\"}");
    assert_eq!(escaped.reference, Some("ab\"c".to_string()));
    assert_eq!(ImageModifiers::decode("{}"), ImageModifiers::default());
}

#[test]
fn malformed_image_metadata_gives_the_defaults() {
    let default = ImageModifiers { scale: "1.0".to_string(), reference: None };
    assert_eq!(ImageModifiers::default(), default);
    for alt in [
        "",
        "A picture of a cat",
        "{\"ref\": \"a\"",
        "[\"a\"]",
        "\"a\"",
        "null",
        "{\"ref\": 5}",
        "{\"ref\": \"a\", \"scale\": \"big\"}",
        "{\"ref\": \"a\", \"scale\": null}",
        "{\"ref\": [\"a\"], \"scale\": 2}",
        "{\"ref\": \"a\"} trailing",
    ] {
        assert_eq!(ImageModifiers::decode(alt), default);
    }
}

#[test]
fn image_modifiers_from_members() {
    let default = ImageModifiers::default();
    assert_eq!(ImageModifiers::from_members(None, None), default);
    assert_eq!(ImageModifiers::from_members(Some(JsonMember::Absent), None), default);
    assert_eq!(ImageModifiers::from_members(None, Some(JsonMember::Text("k".to_string()))), default);
    assert_eq!(
        ImageModifiers::from_members(Some(JsonMember::Absent), Some(JsonMember::Absent)),
        default
    );
    assert_eq!(
        ImageModifiers::from_members(
            Some(JsonMember::Number("3".to_string())),
            Some(JsonMember::Text("k".to_string()))
        ),
        ImageModifiers { scale: "3".to_string(), reference: Some("k".to_string()) }
    );
    assert_eq!(
        ImageModifiers::from_members(Some(JsonMember::Number("3".to_string())), Some(JsonMember::Null)),
        ImageModifiers { scale: "3".to_string(), reference: None }
    );
    assert_eq!(
        ImageModifiers::from_members(Some(JsonMember::Null), Some(JsonMember::Text("k".to_string()))),
        default
    );
    assert_eq!(
        ImageModifiers::from_members(
            Some(JsonMember::Text("3".to_string())),
            Some(JsonMember::Text("k".to_string()))
        ),
        default
    );
    assert_eq!(
        ImageModifiers::from_members(Some(JsonMember::Number("3".to_string())), Some(JsonMember::Other)),
        default
    );
    assert_eq!(
        ImageModifiers::from_members(
            Some(JsonMember::Number("3".to_string())),
            Some(JsonMember::Number("4".to_string()))
        ),
        default
    );
}

#[test]
fn table_metadata_needs_both_members_as_strings() {
    assert_eq!(
        TableMetadata::decode("{\"caption\": \"Results\", \"ref\": \"tab-r\"}"),
        Some(TableMetadata { caption: "Results".to_string(), reference: "tab-r".to_string() })
    );
    for text in [
        "Results",
        "{}",
        "{\"caption\": \"Results\"}",
        "{\"ref\": \"tab-r\"}",
        "{\"caption\": \"Results\", \"ref\": null}",
        "{\"caption\": 1, \"ref\": \"tab-r\"}",
        "{\"caption\": \"Results\", \"ref\": \"tab-r\"",
    ] {
        assert_eq!(TableMetadata::decode(text), None);
    }
    assert_eq!(
        TableMetadata::from_members(
            Some(JsonMember::Text("c".to_string())),
            Some(JsonMember::Text("r".to_string()))
        ),
        Some(TableMetadata { caption: "c".to_string(), reference: "r".to_string() })
    );
    assert_eq!(TableMetadata::from_members(Some(JsonMember::Text("c".to_string())), None), None);
    assert_eq!(
        TableMetadata::from_members(Some(JsonMember::Absent), Some(JsonMember::Text("r".to_string()))),
        None
    );
}

#[test]
fn table_caption_line_names_the_table_or_question_marks() {
    let tree = Node::Root(vec![
        Node::Table(vec![]),
        Node::Table(vec![Node::TableRow(vec![metadata_cell("Results", "tab-r")])]),
        keyed_image("fig"),
    ]);
    let refs = collected(&tree);
    let known = TableMetadata { caption: "Results".to_string(), reference: "tab-r".to_string() };
    assert_eq!(known.to_string(&refs), "Table 2: Results");
    let figure = TableMetadata { caption: "".to_string(), reference: "fig".to_string() };
    assert_eq!(figure.to_string(&refs), "Figure 1: ");
    let unknown = TableMetadata { caption: "Lost".to_string(), reference: "nowhere".to_string() };
    assert_eq!(unknown.to_string(&refs), "Table ??: Lost");
}
