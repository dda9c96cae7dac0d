use md2docx::document::{
    AlignmentType, Block, Document, Image, Indent, ListNumbering, Paragraph, Run,
};
use md2docx::emitter::{ImageFile, ImageSource};
use md2docx::node::{ContainerKind, LeafKind, Node};
use md2docx::parser::{ConversionError, FrontMatter, Metadata, Parser};

fn text(value: &str) -> Node {
    Node::Text(value.to_string())
}

fn plain(value: &str) -> Run {
    Run { text: value.to_string(), bold: false, italic: false, size: None }
}

fn styled(value: &str, bold: bool, italic: bool) -> Run {
    Run { text: value.to_string(), bold, italic, size: None }
}

fn body(runs: Vec<Run>) -> Block {
    Block::Paragraph(Paragraph {
        runs,
        alignment: None,
        indent: Some(Indent { left: Some(720), special: None, end: Some(720), start_chars: None }),
        numbering: None,
    })
}

fn note(value: &str) -> Block {
    Block::Paragraph(Paragraph {
        runs: vec![Run { text: value.to_string(), bold: false, italic: true, size: None }],
        alignment: Some(AlignmentType::Center),
        indent: None,
        numbering: None,
    })
}

fn item(id: usize, level: usize, runs: Vec<Run>) -> Block {
    Block::Paragraph(Paragraph {
        runs,
        alignment: None,
        indent: None,
        numbering: Some(ListNumbering { id, level }),
    })
}

fn bare() -> Block {
    Block::Paragraph(Paragraph { runs: vec![], alignment: None, indent: None, numbering: None })
}

fn bullet_item(children: Vec<Node>) -> Node {
    Node::ListItem { checked: None, spread: false, children }
}

fn bullets(children: Vec<Node>) -> Node {
    Node::List { ordered: false, children }
}

fn convert(tree: &Node) -> Document {
    let mut parser = Parser::new(None, "", None);
    parser.parse_to_docx(Some(tree)).unwrap()
}

#[test]
fn heading_then_paragraph_with_bold_and_italic() {
    let tree = Node::Root(vec![
        Node::Heading { depth: 1, children: vec![text("Title")] },
        Node::Paragraph(vec![
            text("This is "),
            Node::Strong(vec![text("bold")]),
            text(" and "),
            Node::Emphasis(vec![text("italic")]),
            text("."),
        ]),
    ]);
    let mut parser = Parser::new(None, "# Title\n\nThis is **bold** and *italic*.", None);
    let document = parser.parse_to_docx(Some(&tree)).unwrap();
    let heading = Block::Paragraph(Paragraph {
        runs: vec![Run { text: "Title".to_string(), bold: true, italic: false, size: Some(36) }],
        alignment: None,
        indent: None,
        numbering: None,
    });
    let paragraph = body(vec![
        plain("This is "),
        styled("bold", true, false),
        plain(" and "),
        styled("italic", false, true),
        plain("."),
    ]);
    assert_eq!(document.blocks, vec![heading, paragraph]);
}

#[test]
fn keyed_and_unkeyed_images_with_a_forward_reference() {
    let tree = Node::Root(vec![
        Node::Paragraph(vec![text("See {ref: fig-a}.")]),
        Node::Image {
            url: "a.png".to_string(),
            alt: "{\"ref\":\"fig-a\"}".to_string(),
            title: Some("First".to_string()),
        },
        Node::Image { url: "b.png".to_string(), alt: "{}".to_string(), title: None },
    ]);
    let mut parser = Parser::new(None, "", Some("docs".to_string()));
    parser.set_image_files(vec![
        ImageFile {
            url: "a.png".to_string(),
            source: ImageSource::Loaded { bytes: vec![1, 2, 3], width: 220, height: 110 },
        },
        ImageFile {
            url: "b.png".to_string(),
            source: ImageSource::Loaded { bytes: vec![4], width: 100, height: 1 },
        },
    ]);
    let document = parser.parse_to_docx(Some(&tree)).unwrap();
    let first = Block::Image(Image {
        bytes: vec![1, 2, 3],
        width: 914_400,
        height: 457_200,
        scale: "1.0".to_string(),
        alignment: AlignmentType::Center,
    });
    let second = Block::Image(Image {
        bytes: vec![4],
        width: 415_636,
        height: 4_156,
        scale: "1.0".to_string(),
        alignment: AlignmentType::Center,
    });
    assert_eq!(
        document.blocks,
        vec![
            body(vec![plain("See Figure 1.")]),
            first,
            note("Figure 1: First"),
            second,
            note("Figure 2: {}"),
        ]
    );
}

#[test]
fn unkeyed_image_is_numbered_after_the_keys_even_when_it_comes_first() {
    let tree = Node::Root(vec![
        Node::Image { url: "b.png".to_string(), alt: "".to_string(), title: Some("".to_string()) },
        Node::Image {
            url: "a.png".to_string(),
            alt: "{\"ref\":\"fig-a\"}".to_string(),
            title: Some("Keyed".to_string()),
        },
    ]);
    let mut parser = Parser::new(None, "", Some("docs".to_string()));
    parser.set_image_files(vec![
        ImageFile {
            url: "a.png".to_string(),
            source: ImageSource::Loaded { bytes: vec![], width: 1, height: 1 },
        },
        ImageFile {
            url: "b.png".to_string(),
            source: ImageSource::Loaded { bytes: vec![], width: 1, height: 1 },
        },
    ]);
    let document = parser.parse_to_docx(Some(&tree)).unwrap();
    assert_eq!(document.blocks.len(), 4);
    assert_eq!(document.blocks[1], note("Figure 2"));
    assert_eq!(document.blocks[3], note("Figure 1: Keyed"));
}

#[test]
fn three_levels_of_bullets_use_two_styles() {
    let tree = Node::Root(vec![bullets(vec![
        bullet_item(vec![
            Node::Paragraph(vec![text("a")]),
            bullets(vec![bullet_item(vec![
                Node::Paragraph(vec![text("b")]),
                bullets(vec![bullet_item(vec![Node::Paragraph(vec![text("c")])])]),
            ])]),
        ]),
        bullet_item(vec![Node::Paragraph(vec![text("d")])]),
    ])]);
    let document = convert(&tree);
    assert_eq!(
        document.blocks,
        vec![
            item(1, 1, vec![plain("c")]),
            item(1, 1, vec![plain("b")]),
            item(1, 0, vec![plain("a")]),
            item(1, 0, vec![plain("d")]),
        ]
    );
    let bullets = &document.abstract_numberings[0];
    assert_eq!(bullets.id, 1);
    assert_eq!(bullets.levels.len(), 2);
    assert_eq!(bullets.levels[0].text, "\u{2022}");
    assert_eq!(bullets.levels[1].text, "\u{25CB}");
    assert_ne!(bullets.levels[0].text, bullets.levels[1].text);
    assert_eq!(document.numberings[0].id, 1);
    assert_eq!(document.numberings[0].abstract_id, 1);
}

#[test]
fn four_levels_of_numbers_stay_at_the_second_style_level() {
    let numbered = |children: Vec<Node>| Node::List { ordered: true, children };
    let tree = Node::Root(vec![numbered(vec![bullet_item(vec![numbered(vec![bullet_item(
        vec![numbered(vec![bullet_item(vec![numbered(vec![bullet_item(vec![
            Node::Paragraph(vec![text("deep")]),
        ])])])])],
    )])])])]);
    let document = convert(&tree);
    assert_eq!(
        document.blocks,
        vec![
            item(2, 1, vec![plain("deep")]),
            item(2, 1, vec![]),
            item(2, 1, vec![]),
            item(2, 0, vec![]),
        ]
    );
}

#[test]
fn nested_list_leaves_the_paragraph_of_its_item_alone() {
    let tree = Node::Root(vec![bullets(vec![bullet_item(vec![
        Node::Paragraph(vec![text("outer")]),
        Node::List {
            ordered: true,
            children: vec![bullet_item(vec![Node::Paragraph(vec![text("inner")])])],
        },
        Node::Paragraph(vec![text(" more")]),
    ])])]);
    let document = convert(&tree);
    assert_eq!(
        document.blocks,
        vec![item(2, 1, vec![plain("inner")]), item(1, 0, vec![plain("outer"), plain(" more")])]
    );
}

#[test]
fn paragraph_within_a_paragraph_has_runs_of_its_own() {
    let tree = Node::Root(vec![
        text("stray"),
        Node::Paragraph(vec![text("a"), Node::Paragraph(vec![text("b")]), text("c")]),
    ]);
    let document = convert(&tree);
    assert_eq!(document.blocks, vec![body(vec![plain("b")]), body(vec![plain("a"), plain("c")])]);
}

#[test]
fn ordered_list_items_refer_to_the_numbered_style() {
    let tree = Node::Root(vec![Node::List {
        ordered: true,
        children: vec![
            Node::ListItem {
                checked: Some(true),
                spread: true,
                children: vec![Node::Paragraph(vec![text("one")])],
            },
            bullet_item(vec![Node::Paragraph(vec![text("two "), Node::Strong(vec![text("2")])])]),
        ],
    }]);
    let document = convert(&tree);
    assert_eq!(
        document.blocks,
        vec![
            item(2, 0, vec![plain("one")]),
            item(2, 0, vec![plain("two "), styled("2", true, false)]),
        ]
    );
}

#[test]
fn list_item_outside_a_list_gives_nothing() {
    let tree = Node::Root(vec![bullet_item(vec![Node::Paragraph(vec![text("stray")])])]);
    let document = convert(&tree);
    assert_eq!(document.blocks, vec![]);
}

#[test]
fn empty_paragraph_still_gives_a_block() {
    let tree = Node::Root(vec![Node::Paragraph(vec![])]);
    let document = convert(&tree);
    assert_eq!(document.blocks, vec![body(vec![])]);
}

#[test]
fn nested_and_interleaved_spans_keep_their_formatting() {
    let tree = Node::Root(vec![Node::Paragraph(vec![
        Node::Strong(vec![
            text("a"),
            Node::Strong(vec![text("b")]),
            text("c"),
            Node::Emphasis(vec![text("d")]),
            text("e"),
        ]),
        text("f"),
    ])]);
    let document = convert(&tree);
    assert_eq!(
        document.blocks,
        vec![body(vec![
            styled("a", true, false),
            styled("b", true, false),
            styled("c", true, false),
            styled("d", true, true),
            styled("e", true, false),
            plain("f"),
        ])]
    );
}

#[test]
fn unused_kinds_are_walked_through_or_skipped() {
    let tree = Node::Root(vec![
        Node::Leaf(LeafKind::ThematicBreak),
        Node::Leaf(LeafKind::Code),
        Node::Leaf(LeafKind::Html),
        Node::Container {
            kind: ContainerKind::Blockquote,
            children: vec![Node::Paragraph(vec![
                text("quoted "),
                Node::Container { kind: ContainerKind::Link, children: vec![text("link")] },
                Node::Container { kind: ContainerKind::Delete, children: vec![text(" gone")] },
                Node::Leaf(LeafKind::InlineCode),
                Node::Leaf(LeafKind::Break),
            ])],
        },
        Node::Container { kind: ContainerKind::FootnoteDefinition, children: vec![] },
    ]);
    let document = convert(&tree);
    assert_eq!(document.blocks, vec![body(vec![plain("quoted "), plain("link"), plain(" gone")])]);
}

#[test]
fn tables_give_no_blocks() {
    let tree = Node::Root(vec![
        Node::Table(vec![Node::TableRow(vec![
            Node::TableCell(vec![text("cell")]),
            Node::TableCell(vec![]),
        ])]),
        Node::Paragraph(vec![text("after")]),
    ]);
    let document = convert(&tree);
    assert_eq!(document.blocks, vec![body(vec![plain("after")])]);
}

#[test]
fn table_reference_resolves_to_table_number() {
    let tree = Node::Root(vec![
        Node::Paragraph(vec![text("{ref:second} and {ref: first } and {ref: none}")]),
        Node::Table(vec![]),
        Node::Table(vec![Node::TableRow(vec![Node::TableCell(vec![text(
            "{\"caption\":\"Results\",\"ref\":\"second\"}",
        )])])]),
        Node::Image { url: "x.png".to_string(), alt: "{\"ref\":\"first\"}".to_string(), title: None },
    ]);
    let document = convert(&tree);
    assert_eq!(
        document.blocks,
        vec![body(vec![plain("Table 2 and Figure 1 and {ref: none}")]), note("[Image: x.png]")]
    );
}

#[test]
fn duplicate_key_resolves_to_the_first_image() {
    let tree = Node::Root(vec![
        Node::Image { url: "a.png".to_string(), alt: "{\"ref\":\"dup\"}".to_string(), title: None },
        Node::Image { url: "b.png".to_string(), alt: "{\"ref\":\"dup\"}".to_string(), title: None },
        Node::Image { url: "c.png".to_string(), alt: "{\"ref\":\"new\"}".to_string(), title: None },
        Node::Paragraph(vec![text("{ref: dup} {ref: new}")]),
    ]);
    let document = convert(&tree);
    assert_eq!(document.blocks.len(), 4);
    assert_eq!(document.blocks[3], body(vec![plain("Figure 1 Figure 3")]));
}

#[test]
fn document_starts_with_styles_and_title_block() {
    let front = FrontMatter {
        metadata: Metadata {
            title: Some("A Simple Proposal".to_string()),
            author: Some("N. N.".to_string()),
            affiliation: None,
        },
        content: "# Section One".to_string(),
    };
    let mut parser = Parser::new(Some(front), "---\ntitle: x\n---\n# Section One", None);
    assert_eq!(parser.content(), "# Section One");
    let tree = Node::Root(vec![Node::Heading { depth: 2, children: vec![text("Section One")] }]);
    let document = parser.parse_to_docx(Some(&tree)).unwrap();
    assert_eq!(document.abstract_numberings.len(), 2);
    assert_eq!(document.numberings.len(), 2);
    assert_eq!(document.blocks.len(), 4);
    assert_eq!(
        document.blocks[0],
        Block::Paragraph(Paragraph {
            runs: vec![Run {
                text: "A Simple Proposal".to_string(),
                bold: true,
                italic: false,
                size: Some(40),
            }],
            alignment: Some(AlignmentType::Center),
            indent: None,
            numbering: None,
        })
    );
    assert_eq!(
        document.blocks[1],
        Block::Paragraph(Paragraph {
            runs: vec![Run { text: "N. N.".to_string(), bold: false, italic: true, size: Some(24) }],
            alignment: Some(AlignmentType::Center),
            indent: None,
            numbering: None,
        })
    );
    assert_eq!(document.blocks[2], bare());
    assert_eq!(
        document.blocks[3],
        Block::Paragraph(Paragraph {
            runs: vec![Run {
                text: "Section One".to_string(),
                bold: true,
                italic: false,
                size: Some(28),
            }],
            alignment: None,
            indent: None,
            numbering: None,
        })
    );
}

#[test]
fn parser_without_front_matter_keeps_the_whole_text() {
    let parser = Parser::new(None, "plain text", Some("base".to_string()));
    assert_eq!(parser.content(), "plain text");
    assert_eq!(parser.metadata(), &None);
    assert_eq!(parser.base_path(), &Some("base".to_string()));
}

#[test]
fn missing_tree_is_an_error() {
    let mut parser = Parser::new(None, "", None);
    assert_eq!(parser.parse_to_docx(None), Err(ConversionError::MalformedSource));
}

#[test]
fn converting_twice_numbers_from_one_again() {
    let tree = Node::Root(vec![
        Node::Image { url: "a.png".to_string(), alt: "{\"ref\":\"k\"}".to_string(), title: None },
        Node::Paragraph(vec![text("{ref: k}")]),
    ]);
    let mut parser = Parser::new(None, "", None);
    let first = parser.parse_to_docx(Some(&tree)).unwrap();
    let second = parser.parse_to_docx(Some(&tree)).unwrap();
    assert_eq!(first, second);
    assert_eq!(first.blocks[1], body(vec![plain("Figure 1")]));
}

#[test]
fn reference_before_or_after_its_figure_resolves_alike() {
    let figure = || Node::Image {
        url: "a.png".to_string(),
        alt: "{\"ref\":\"k\"}".to_string(),
        title: None,
    };
    let other = || Node::Image {
        url: "b.png".to_string(),
        alt: "{\"ref\":\"other\"}".to_string(),
        title: None,
    };
    let reference = || Node::Paragraph(vec![text("as {ref: k} shows, and {ref: other}")]);
    let before = Node::Root(vec![reference(), other(), figure()]);
    let between = Node::Root(vec![other(), reference(), figure()]);
    let after = Node::Root(vec![other(), figure(), reference()]);
    let expected = body(vec![plain("as Figure 2 shows, and Figure 1")]);
    let first = convert(&before);
    let second = convert(&between);
    let third = convert(&after);
    assert_eq!(first.blocks[0], expected);
    assert_eq!(second.blocks[1], expected);
    assert_eq!(third.blocks[2], expected);
    assert_eq!(first.blocks[1], note("[Image: b.png]"));
    assert_eq!(third.blocks[1], note("[Image: a.png]"));
}
