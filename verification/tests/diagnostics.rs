use md2docx::diagnostics::Diagnostic;
use md2docx::document::Document;
use md2docx::emitter::Emitter;
use md2docx::image_reference_collector::{ImageModifiers, ImageReferenceCollector};
use md2docx::json::JsonMember;
use md2docx::metadata::TableMetadata;
use md2docx::node::Node;
use md2docx::parser::Parser;
use md2docx::references::resolve_noting;
use md2docx::traverser::MarkdownNodeTraverser;

fn picture(alt: &str) -> Node {
    Node::Image { url: "p.png".to_string(), alt: alt.to_string(), title: None }
}

fn words(value: &str) -> Node {
    Node::Text(value.to_string())
}

fn cell(value: &str) -> Node {
    Node::TableCell(vec![words(value)])
}

fn duplicate(key: &str) -> Diagnostic {
    Diagnostic::DuplicateReferenceKey { key: key.to_string() }
}

fn unresolved(key: &str) -> Diagnostic {
    Diagnostic::UnresolvedReferencePlaceholder { key: key.to_string() }
}

fn malformed(text: &str) -> Diagnostic {
    Diagnostic::MalformedInlineMetadata { text: text.to_string() }
}

#[test]
fn duplicate_figure_keys_are_noted_in_order() {
    let mut collector = ImageReferenceCollector::new();
    assert_eq!(collector.diagnostics(), &vec![]);
    let tree = Node::Root(vec![
        picture("{\"ref\":\"a\"}"),
        picture("{\"ref\":\"b\"}"),
        picture("{\"ref\":\"a\"}"),
        picture("plain alternate text"),
        picture("{\"ref\":\"b\"}"),
        picture("{\"ref\":\"a\"}"),
    ]);
    collector.process_node(&tree, ());
    assert_eq!(collector.diagnostics(), &vec![duplicate("a"), duplicate("b"), duplicate("a")]);
    assert_eq!(collector.get("a"), Some("Figure 1".to_string()));
    assert_eq!(collector.get("b"), Some("Figure 2".to_string()));
}

#[test]
fn duplicate_table_keys_are_noted() {
    let metadata = "{\"caption\":\"c\",\"ref\":\"t\"}";
    let tree = Node::Root(vec![
        Node::Table(vec![Node::TableRow(vec![cell(metadata), cell("42"), cell(metadata)])]),
        Node::Table(vec![Node::TableRow(vec![cell(metadata)])]),
    ]);
    let mut collector = ImageReferenceCollector::new();
    collector.process_node(&tree, ());
    assert_eq!(collector.diagnostics(), &vec![duplicate("t"), duplicate("t")]);
    assert_eq!(collector.get("t"), Some("Table 1".to_string()));
}

#[test]
fn malformed_metadata_is_noted_and_counts_as_absent() {
    let tree = Node::Root(vec![
        picture("{\"ref\": 5}"),
        picture("{\"ref\": \"ok\", \"scale\": \"big\"}"),
        picture("not json at all"),
        picture(""),
        picture("[1, 2]"),
        picture("{\"ref\": \"fine\"}"),
        Node::Table(vec![Node::TableRow(vec![
            cell("{\"caption\": \"only a caption\"}"),
            cell("ordinary cell text"),
            cell("{\"caption\": 1, \"ref\": \"t\"}"),
            cell("{}"),
        ])]),
    ]);
    let mut collector = ImageReferenceCollector::new();
    collector.process_node(&tree, ());
    assert_eq!(
        collector.diagnostics(),
        &vec![
            malformed("{\"ref\": 5}"),
            malformed("{\"ref\": \"ok\", \"scale\": \"big\"}"),
            malformed("{\"caption\": \"only a caption\"}"),
            malformed("{\"caption\": 1, \"ref\": \"t\"}"),
            malformed("{}"),
        ]
    );
    assert_eq!(collector.get("ok"), None);
    assert_eq!(collector.get("t"), None);
    assert_eq!(collector.get("fine"), Some("Figure 1".to_string()));
}

#[test]
fn malformed_is_told_from_absent() {
    assert_eq!(ImageModifiers::decode_noting("A cat"), (ImageModifiers::default(), false));
    assert_eq!(ImageModifiers::decode_noting("{}"), (ImageModifiers::default(), false));
    assert_eq!(ImageModifiers::decode_noting("{\"ref\": true}"), (ImageModifiers::default(), true));
    assert_eq!(
        ImageModifiers::decode_noting("{\"ref\": \"k\"}"),
        (ImageModifiers { scale: "1.0".to_string(), reference: Some("k".to_string()) }, false)
    );
    assert!(!ImageModifiers::members_malformed(&None, &None));
    assert!(!ImageModifiers::members_malformed(&Some(JsonMember::Absent), &None));
    assert!(!ImageModifiers::members_malformed(
        &Some(JsonMember::Number("2".to_string())),
        &Some(JsonMember::Null)
    ));
    assert!(ImageModifiers::members_malformed(&Some(JsonMember::Null), &Some(JsonMember::Absent)));
    assert!(ImageModifiers::members_malformed(&Some(JsonMember::Absent), &Some(JsonMember::Other)));
    assert_eq!(TableMetadata::decode_noting("42"), (None, false));
    assert_eq!(TableMetadata::decode_noting("{\"ref\": \"t\"}"), (None, true));
    assert_eq!(
        TableMetadata::decode_noting("{\"caption\": \"c\", \"ref\": \"t\"}"),
        (Some(TableMetadata { caption: "c".to_string(), reference: "t".to_string() }), false)
    );
    assert!(!TableMetadata::members_malformed(&None, &Some(JsonMember::Other)));
    assert!(TableMetadata::members_malformed(
        &Some(JsonMember::Text("c".to_string())),
        &Some(JsonMember::Absent)
    ));
    assert!(!TableMetadata::members_malformed(
        &Some(JsonMember::Text("c".to_string())),
        &Some(JsonMember::Text("t".to_string()))
    ));
}

#[test]
fn unresolved_placeholders_are_noted_in_scan_order() {
    let mut refs = ImageReferenceCollector::new();
    refs.process_node(&picture("{\"ref\":\"known\"}"), ());
    let mut reports = vec![duplicate("earlier")];
    let text = "{ref: x} {ref:known} {ref:  y }{ref:x} {ref:";
    let resolved = resolve_noting(text, &refs, &mut reports);
    assert_eq!(resolved, "{ref: x} Figure 1 {ref:  y }{ref:x} {ref:");
    assert_eq!(
        reports,
        vec![duplicate("earlier"), unresolved("x"), unresolved("y"), unresolved("x")]
    );
    let mut none = Vec::new();
    assert_eq!(resolve_noting("no placeholder", &refs, &mut none), "no placeholder");
    assert_eq!(none, vec![]);
}

#[test]
fn emitter_notes_placeholders_and_stray_items() {
    let mut emitter = Emitter::new(None);
    let tree = Node::Root(vec![
        Node::Paragraph(vec![words("see {ref: nowhere}")]),
        Node::Heading { depth: 1, children: vec![words("{ref: in-heading}")] },
        Node::ListItem { checked: None, spread: false, children: vec![words("{ref: lost}")] },
        Node::List {
            ordered: false,
            children: vec![Node::ListItem {
                checked: None,
                spread: false,
                children: vec![Node::Paragraph(vec![words("{ref:\nitem}")])],
            }],
        },
    ]);
    let document = emitter.process_node(&tree, Document::new());
    assert_eq!(document.blocks.len(), 3);
    assert_eq!(
        emitter.diagnostics(),
        &vec![unresolved("nowhere"), Diagnostic::ListItemOutsideListContext, unresolved("item")]
    );
    emitter.clear_diagnostics();
    assert_eq!(emitter.diagnostics(), &vec![]);
    assert_eq!(emitter.references().figure_count(), 0);
}

#[test]
fn parser_hands_out_what_both_passes_noted() {
    let tree = Node::Root(vec![
        Node::Paragraph(vec![words("{ref: a} and {ref: z}")]),
        picture("{\"ref\":\"a\"}"),
        picture("{\"ref\":\"a\"}"),
        picture("{\"scale\": []}"),
        Node::ListItem { checked: None, spread: false, children: vec![] },
    ]);
    let mut parser = Parser::new(None, "", None);
    parser.parse_to_docx(Some(&tree)).unwrap();
    assert_eq!(
        parser.first_pass_diagnostics(),
        &vec![duplicate("a"), malformed("{\"scale\": []}")]
    );
    assert_eq!(
        parser.second_pass_diagnostics(),
        &vec![unresolved("z"), Diagnostic::ListItemOutsideListContext]
    );
    parser.parse_to_docx(Some(&tree)).unwrap();
    assert_eq!(parser.first_pass_diagnostics().len(), 2);
    assert_eq!(parser.second_pass_diagnostics().len(), 2);
    let quiet = Node::Root(vec![Node::Paragraph(vec![words("nothing to note")])]);
    parser.parse_to_docx(Some(&quiet)).unwrap();
    assert_eq!(parser.first_pass_diagnostics(), &vec![]);
    assert_eq!(parser.second_pass_diagnostics(), &vec![]);
}
