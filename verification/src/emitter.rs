//! The second pass: it walks the tree once more and builds the document,
//! resolving references against what the first pass has collected.

use vstd::prelude::*;
use crate::diagnostics::{Diagnostic, DiagnosticView};
use crate::document::{
    views,
    lemma_views_empty,
    lemma_views_push,
    AbstractNumbering,
    AbstractNumberingView,
    AlignmentType,
    Block,
    BlockView,
    Document,
    DocumentView,
    Image,
    ImageView,
    Indent,
    Level,
    LevelView,
    ListNumbering,
    NumberFormat,
    Numbering,
    Paragraph,
    ParagraphView,
    Run,
    RunView,
    SpecialIndent,
};
use crate::image_reference_collector::{ImageModifiers, ImageReferenceCollector, ReferenceMap};
use crate::metadata::{ListType, StackCounter};
use crate::node::Node;
use crate::parser::{metadata_view, Metadata, MetadataView, EMUS_PER_INCH, PPI};
use crate::references::{
    is_sole_token,
    is_token,
    key_of,
    resolve_noting,
    resolve_references,
    resolved,
    unresolved,
    with_figure,
};
use crate::text::{append_decimal, append_str, decimal, normalize, normalized, string_of};
use crate::traverser::MarkdownNodeTraverser;

verus! {

/// The deepest level that the numbering styles define. A list nested deeper
/// is set at this level.
pub const DEEPEST_LIST_LEVEL: usize = 1;

/// What became of reading an image file.
#[derive(Debug, Clone, PartialEq, Eq)]
pub enum ImageSource {
    /// The file is there but could not be read; `path` is where it was
    /// looked for.
    Unreadable { path: String },
    /// The bytes of the file, and its dimensions in pixels.
    Loaded { bytes: Vec<u8>, width: u32, height: u32 },
}

/// The model of an [`ImageSource`].
pub enum ImageSourceView {
    Unreadable { path: Seq<char> },
    Loaded { bytes: Seq<u8>, width: u32, height: u32 },
}

impl View for ImageSource {
    type V = ImageSourceView;

    open spec fn view(&self) -> ImageSourceView {
        match self {
            ImageSource::Unreadable { path } => ImageSourceView::Unreadable { path: path@ },
            ImageSource::Loaded { bytes, width, height } => ImageSourceView::Loaded {
                bytes: bytes@,
                width: *width,
                height: *height,
            },
        }
    }
}

/// An image file that exists under the base directory, by the address that
/// the document uses for it.
#[derive(Debug, Clone, PartialEq, Eq)]
pub struct ImageFile {
    pub url: String,
    pub source: ImageSource,
}

/// The model of an [`ImageFile`].
pub struct ImageFileView {
    pub url: Seq<char>,
    pub source: ImageSourceView,
}

impl View for ImageFile {
    type V = ImageFileView;

    open spec fn view(&self) -> ImageFileView {
        ImageFileView { url: self.url@, source: self.source@ }
    }
}

/// What the first of the files with this address holds; `None` where no file
/// has it.
pub open spec fn find_file(files: Seq<ImageFileView>, url: Seq<char>) -> Option<ImageSourceView>
    decreases files.len(),
{
    if files.len() == 0 {
        None
    } else if files[0].url == url {
        Some(files[0].source)
    } else {
        find_file(files.drop_first(), url)
    }
}

/// A length in pixels as English Metric Units.
pub open spec fn emu_of(pixels: u32) -> u64 {
    (pixels as int * EMUS_PER_INCH as int / PPI as int) as u64
}

/// Converts a length in pixels to English Metric Units.
pub fn pixels_to_emu(pixels: u32) -> (emu: u64)
    ensures
        emu == emu_of(pixels),
        emu as int == pixels as int * 914_400 / 220,
{
    (pixels as u64) * (EMUS_PER_INCH as u64) / (PPI as u64)
}

/// The size of a heading of this depth, in half-points.
pub open spec fn heading_size(depth: u8) -> usize {
    if depth == 1 {
        36
    } else if depth == 2 {
        28
    } else if depth == 3 {
        24
    } else {
        20
    }
}

/// The text of a heading: the texts among its children, one after the other.
pub open spec fn heading_text(children: Seq<Node>) -> Seq<char>
    decreases children.len(),
{
    if children.len() == 0 {
        Seq::empty()
    } else {
        match children.last() {
            Node::Text(value) => heading_text(children.drop_last()) + value@,
            _ => heading_text(children.drop_last()),
        }
    }
}

/// The paragraph of a heading: one bold run at the size of its depth.
pub open spec fn heading_paragraph(text: Seq<char>, depth: u8) -> ParagraphView {
    ParagraphView {
        runs: seq![
            RunView { text: text, bold: true, italic: false, size: Some(heading_size(depth)) },
        ],
        alignment: None,
        indent: None,
        numbering: None,
    }
}

/// The paragraph that body text starts from: no runs, indented on both sides.
pub open spec fn body_paragraph() -> ParagraphView {
    ParagraphView {
        runs: Seq::empty(),
        alignment: None,
        indent: Some(Indent { left: Some(720), special: None, end: Some(720), start_chars: None }),
        numbering: None,
    }
}

/// The numbering of an item of the innermost of these lists: the style of
/// the list's kind, at the level of its depth, which is no deeper than the
/// styles define.
pub open spec fn item_numbering(lists: Seq<ListType>) -> ListNumbering
    recommends
        lists.len() > 0,
{
    ListNumbering {
        id: match lists.last() {
            ListType::Ordered => 2,
            ListType::Unordered => 1,
        },
        level: if lists.len() - 1 < DEEPEST_LIST_LEVEL {
            (lists.len() - 1) as usize
        } else {
            DEEPEST_LIST_LEVEL
        },
    }
}

/// The paragraph that a list item starts from.
pub open spec fn item_paragraph(lists: Seq<ListType>) -> ParagraphView {
    ParagraphView {
        runs: Seq::empty(),
        alignment: None,
        indent: None,
        numbering: Some(item_numbering(lists)),
    }
}

/// What a caption shows after the number: the title where there is one and
/// it is not empty, else the alternate text.
pub open spec fn caption_subject(alt: Seq<char>, title: Option<Seq<char>>) -> Seq<char> {
    match title {
        Some(t) => if t.len() > 0 {
            t
        } else {
            alt
        },
        None => alt,
    }
}

/// The caption under a figure: its number and what it shows. Only where
/// title and alternate text are both empty, the caption is the number alone.
pub open spec fn caption_text(
    alt: Seq<char>,
    title: Option<Seq<char>>,
    figure_number: usize,
) -> Seq<char> {
    let shown = caption_subject(alt, title);
    if shown.len() > 0 {
        "Figure "@ + decimal(figure_number as nat) + ": "@ + shown
    } else {
        "Figure "@ + decimal(figure_number as nat)
    }
}

/// One level of a numbering style, indented by its depth, with a hanging
/// marker.
pub open spec fn style_level(index: usize, format: NumberFormat, text: Seq<char>) -> LevelView {
    LevelView {
        index: index,
        start: 1,
        format: format,
        text: text,
        justification: AlignmentType::Left,
        indent: Indent {
            left: Some((720 * (index + 1)) as i32),
            special: Some(SpecialIndent::Hanging(360)),
            end: None,
            start_chars: None,
        },
    }
}

/// The style of unordered lists: a filled disc, then a hollow circle.
pub open spec fn bullet_style() -> AbstractNumberingView {
    AbstractNumberingView {
        id: 1,
        levels: seq![
            style_level(0, NumberFormat::Bullet, "\u{2022}"@),
            style_level(1, NumberFormat::Bullet, "\u{25CB}"@),
        ],
    }
}

/// The style of ordered lists: decimal numbers, then lower-case letters.
pub open spec fn numbered_style() -> AbstractNumberingView {
    AbstractNumberingView {
        id: 2,
        levels: seq![
            style_level(0, NumberFormat::Decimal, "%1."@),
            style_level(1, NumberFormat::LowerLetter, "%2)"@),
        ],
    }
}

/// The document with the two numbering styles and their bindings.
pub open spec fn with_numbering_styles(doc: DocumentView) -> DocumentView {
    doc.with_abstract_numbering(bullet_style()).with_abstract_numbering(
        numbered_style(),
    ).with_numbering(Numbering { id: 1, abstract_id: 1 }).with_numbering(
        Numbering { id: 2, abstract_id: 2 },
    )
}

/// The centred paragraph of a title: bold unless empty, at 20 points.
pub open spec fn title_paragraph(title: Seq<char>) -> ParagraphView {
    ParagraphView {
        runs: seq![RunView { text: title, bold: title.len() > 0, italic: false, size: Some(40) }],
        alignment: Some(AlignmentType::Center),
        indent: None,
        numbering: None,
    }
}

/// The centred paragraph of an author or an affiliation: italic, at 12
/// points.
pub open spec fn byline_paragraph(text: Seq<char>) -> ParagraphView {
    ParagraphView {
        runs: seq![RunView { text: text, bold: false, italic: true, size: Some(24) }],
        alignment: Some(AlignmentType::Center),
        indent: None,
        numbering: None,
    }
}

/// The document with the title block of this metadata: the title, the author
/// and, only with an author, the affiliation, each where it is given, then an
/// empty paragraph. Without metadata the document stays as it is.
pub open spec fn with_metadata(doc: DocumentView, metadata: Option<MetadataView>) -> DocumentView {
    match metadata {
        None => doc,
        Some(m) => {
            let titled = match m.title {
                Some(t) => doc.with_paragraph(title_paragraph(t)),
                None => doc,
            };
            let signed = match m.author {
                Some(a) => {
                    let by = titled.with_paragraph(byline_paragraph(a));
                    match m.affiliation {
                        Some(f) => by.with_paragraph(byline_paragraph(f)),
                        None => by,
                    }
                },
                None => titled,
            };
            signed.with_paragraph(ParagraphView::empty())
        },
    }
}

/// How many spans of one kind, strong or emphasis, the second pass has open
/// at most, one within the other, while it walks `node`. It does not walk
/// into headings and table cells.
pub open spec fn span_depth(node: Node, strong: bool) -> nat
    decreases node,
{
    match node {
        Node::Strong(children) => (if strong {
            1nat
        } else {
            0nat
        }) + span_depth_of(children@, strong),
        Node::Emphasis(children) => (if strong {
            0nat
        } else {
            1nat
        }) + span_depth_of(children@, strong),
        Node::Root(children) => span_depth_of(children@, strong),
        Node::Paragraph(children) => span_depth_of(children@, strong),
        Node::List { children, .. } => span_depth_of(children@, strong),
        Node::ListItem { children, .. } => span_depth_of(children@, strong),
        Node::Table(children) => span_depth_of(children@, strong),
        Node::TableRow(children) => span_depth_of(children@, strong),
        Node::Container { children, .. } => span_depth_of(children@, strong),
        Node::Heading { .. } => 0,
        Node::TableCell(_) => 0,
        Node::Image { .. } => 0,
        Node::Text(_) => 0,
        Node::Leaf(_) => 0,
    }
}

/// The greatest [`span_depth`] among `nodes`.
pub open spec fn span_depth_of(nodes: Seq<Node>, strong: bool) -> nat
    decreases nodes,
{
    if nodes.len() == 0 {
        0
    } else {
        let before = span_depth_of(nodes.drop_last(), strong);
        let last = span_depth(nodes.last(), strong);
        if before >= last {
            before
        } else {
            last
        }
    }
}

/// No node of a sequence is deeper than the sequence, and no prefix is.
pub proof fn lemma_span_depth_member(nodes: Seq<Node>, i: int, strong: bool)
    requires
        0 <= i < nodes.len(),
    ensures
        span_depth(nodes[i], strong) <= span_depth_of(nodes, strong),
        span_depth_of(nodes.take(i), strong) <= span_depth_of(nodes.take(i + 1), strong)
            <= span_depth_of(nodes, strong),
        span_depth(nodes[i], strong) <= span_depth_of(nodes.take(i + 1), strong),
    decreases nodes.len(),
{
    assert(nodes.take(i + 1).drop_last() =~= nodes.take(i));
    if i == nodes.len() - 1 {
        assert(nodes.take(i + 1) =~= nodes);
    } else {
        lemma_span_depth_member(nodes.drop_last(), i, strong);
        assert(nodes.drop_last().take(i + 1) =~= nodes.take(i + 1));
    }
}

/// Whether the second pass meets an image while it walks `node`.
pub open spec fn shows_image(node: Node) -> bool
    decreases node,
{
    match node {
        Node::Image { .. } => true,
        Node::Strong(children) => shows_image_in(children@),
        Node::Emphasis(children) => shows_image_in(children@),
        Node::Root(children) => shows_image_in(children@),
        Node::Paragraph(children) => shows_image_in(children@),
        Node::List { children, .. } => shows_image_in(children@),
        Node::ListItem { children, .. } => shows_image_in(children@),
        Node::Table(children) => shows_image_in(children@),
        Node::TableRow(children) => shows_image_in(children@),
        Node::Container { children, .. } => shows_image_in(children@),
        Node::Heading { .. } => false,
        Node::TableCell(_) => false,
        Node::Text(_) => false,
        Node::Leaf(_) => false,
    }
}

/// Whether the second pass meets an image while it walks `nodes`.
pub open spec fn shows_image_in(nodes: Seq<Node>) -> bool
    decreases nodes,
{
    if nodes.len() == 0 {
        false
    } else {
        shows_image_in(nodes.drop_last()) || shows_image(nodes.last())
    }
}

/// An image in a node of a sequence, or in a prefix of it, is an image in
/// the sequence.
pub proof fn lemma_shows_image_member(nodes: Seq<Node>, i: int)
    requires
        0 <= i < nodes.len(),
    ensures
        shows_image(nodes[i]) ==> shows_image_in(nodes),
        shows_image_in(nodes.take(i)) ==> shows_image_in(nodes.take(i + 1)),
        shows_image_in(nodes.take(i + 1)) ==> shows_image_in(nodes),
        shows_image_in(nodes.take(i + 1)) == (shows_image_in(nodes.take(i)) || shows_image(
            nodes[i],
        )),
    decreases nodes.len(),
{
    assert(nodes.take(i + 1).drop_last() =~= nodes.take(i));
    if i == nodes.len() - 1 {
        assert(nodes.take(i + 1) =~= nodes);
    } else {
        lemma_shows_image_member(nodes.drop_last(), i);
        assert(nodes.drop_last().take(i + 1) =~= nodes.take(i + 1));
    }
}

/// Whether the second pass meets an image while it walks `node`.
pub fn has_image(node: &Node) -> (found: bool)
    ensures
        found == shows_image(*node),
    decreases node, 1nat,
{
    match node {
        Node::Image { .. } => true,
        Node::Strong(children) => has_image_in(children),
        Node::Emphasis(children) => has_image_in(children),
        Node::Root(children) => has_image_in(children),
        Node::Paragraph(children) => has_image_in(children),
        Node::List { children, .. } => has_image_in(children),
        Node::ListItem { children, .. } => has_image_in(children),
        Node::Table(children) => has_image_in(children),
        Node::TableRow(children) => has_image_in(children),
        Node::Container { children, .. } => has_image_in(children),
        Node::Heading { .. } => false,
        Node::TableCell(_) => false,
        Node::Text(_) => false,
        Node::Leaf(_) => false,
    }
}

/// Whether the second pass meets an image while it walks `nodes`.
pub fn has_image_in(nodes: &Vec<Node>) -> (found: bool)
    ensures
        found == shows_image_in(nodes@),
    decreases nodes, 0nat,
{
    let mut i: usize = 0;
    while i < nodes.len()
        invariant
            0 <= i <= nodes.len(),
            !shows_image_in(nodes@.take(i as int)),
        decreases nodes.len() - i,
    {
        proof {
            lemma_shows_image_member(nodes@, i as int);
        }
        if has_image(&nodes[i]) {
            return true;
        }
        i = i + 1;
    }
    proof {
        assert(nodes@.take(nodes.len() as int) =~= nodes@);
    }
    false
}

/// Whether the second pass has at most so many strong spans and so many
/// emphasis spans open, one within the other, while it walks `node`.
pub fn spans_within(node: &Node, strong: usize, emphasis: usize) -> (within: bool)
    ensures
        within == (span_depth(*node, true) <= strong && span_depth(*node, false) <= emphasis),
    decreases node, 1nat,
{
    match node {
        Node::Strong(children) => strong > 0 && spans_within_all(children, strong - 1, emphasis),
        Node::Emphasis(children) => emphasis > 0 && spans_within_all(
            children,
            strong,
            emphasis - 1,
        ),
        Node::Root(children) => spans_within_all(children, strong, emphasis),
        Node::Paragraph(children) => spans_within_all(children, strong, emphasis),
        Node::List { children, .. } => spans_within_all(children, strong, emphasis),
        Node::ListItem { children, .. } => spans_within_all(children, strong, emphasis),
        Node::Table(children) => spans_within_all(children, strong, emphasis),
        Node::TableRow(children) => spans_within_all(children, strong, emphasis),
        Node::Container { children, .. } => spans_within_all(children, strong, emphasis),
        Node::Heading { .. } => true,
        Node::TableCell(_) => true,
        Node::Image { .. } => true,
        Node::Text(_) => true,
        Node::Leaf(_) => true,
    }
}

/// [`spans_within`], of each of `nodes`.
pub fn spans_within_all(nodes: &Vec<Node>, strong: usize, emphasis: usize) -> (within: bool)
    ensures
        within == (span_depth_of(nodes@, true) <= strong && span_depth_of(nodes@, false)
            <= emphasis),
    decreases nodes, 0nat,
{
    let mut i: usize = 0;
    while i < nodes.len()
        invariant
            0 <= i <= nodes.len(),
            span_depth_of(nodes@.take(i as int), true) <= strong,
            span_depth_of(nodes@.take(i as int), false) <= emphasis,
        decreases nodes.len() - i,
    {
        proof {
            lemma_span_depth_member(nodes@, i as int, true);
            lemma_span_depth_member(nodes@, i as int, false);
            assert(nodes@.take(i + 1).drop_last() =~= nodes@.take(i as int));
        }
        if !spans_within(&nodes[i], strong, emphasis) {
            return false;
        }
        i = i + 1;
    }
    proof {
        assert(nodes@.take(nodes.len() as int) =~= nodes@);
    }
    true
}

/// The model of the second pass at one point of its walk.
pub struct EmitterState {
    /// How many strong spans enclose the point.
    pub bold: nat,
    /// How many emphasis spans enclose the point.
    pub italic: nat,
    /// The lists that enclose the point, outermost first.
    pub lists: Seq<ListType>,
    /// What the first pass has collected.
    pub references: ReferenceMap,
    /// The paragraph that runs are added to.
    pub paragraph: ParagraphView,
    /// The alignment that the paragraph gets when it is closed, if any.
    pub paragraph_alignment: Option<AlignmentType>,
    /// The directory that image addresses are relative to.
    pub base_path: Option<Seq<char>>,
    /// The image files that exist under that directory.
    pub files: Seq<ImageFileView>,
    /// What the pass has met and gone on from, in the order it met it.
    pub reports: Seq<DiagnosticView>,
}

impl EmitterState {
    /// The state before anything was walked.
    pub open spec fn initial(base_path: Option<Seq<char>>) -> EmitterState {
        EmitterState {
            bold: 0,
            italic: 0,
            lists: Seq::empty(),
            references: ReferenceMap::empty(),
            paragraph: ParagraphView::empty(),
            paragraph_alignment: None,
            base_path: base_path,
            files: Seq::empty(),
            reports: Seq::empty(),
        }
    }

    /// Whether two states agree on all that surrounds the paragraph in the
    /// making: the nesting of spans and lists, the references and the image
    /// files.
    pub open spec fn same_context(self, other: EmitterState) -> bool {
        &&& self.bold == other.bold
        &&& self.italic == other.italic
        &&& self.lists == other.lists
        &&& self.references == other.references
        &&& self.base_path == other.base_path
        &&& self.files == other.files
    }

    /// The run that a text makes here: normalised, its references resolved,
    /// bold and italic as the enclosing spans say.
    pub open spec fn text_run(self, value: Seq<char>) -> RunView {
        RunView {
            text: resolved(normalized(value), self.references),
            bold: self.bold > 0,
            italic: self.italic > 0,
            size: None,
        }
    }

    /// The number of the figure with this alternate text: that of its key,
    /// or 0 where the key is unknown; without a key, one more than the
    /// number of keys in the figure namespace.
    pub open spec fn figure_number(self, alt: Seq<char>) -> usize {
        match ImageModifiers::of_alt(alt).reference {
            Some(key) => if self.references.figures.contains_key(key) {
                self.references.figures[key]
            } else {
                0
            },
            None => (self.references.figures.len() + 1) as usize,
        }
    }

    /// The blocks that an image makes: the image and its caption, or a note
    /// in its place where there is no base directory, no such file, or the
    /// file could not be read.
    pub open spec fn image_blocks(
        self,
        url: Seq<char>,
        alt: Seq<char>,
        title: Option<Seq<char>>,
        figure_number: usize,
    ) -> Seq<BlockView> {
        match self.base_path {
            None => seq![BlockView::Paragraph(ParagraphView::note("[Image: "@ + url + "]"@))],
            Some(_) => match find_file(self.files, url) {
                None => seq![
                    BlockView::Paragraph(ParagraphView::note("[Image: "@ + url + " (not found)]"@)),
                ],
                Some(ImageSourceView::Unreadable { path }) => seq![
                    BlockView::Paragraph(
                        ParagraphView::note("[Image: "@ + path + " (could not read file)]"@),
                    ),
                ],
                Some(ImageSourceView::Loaded { bytes, width, height }) => seq![
                    BlockView::Image(
                        ImageView {
                            bytes: bytes,
                            width: emu_of(width),
                            height: emu_of(height),
                            scale: ImageModifiers::of_alt(alt).scale,
                            alignment: AlignmentType::Center,
                        },
                    ),
                    BlockView::Paragraph(
                        ParagraphView::note(caption_text(alt, title, figure_number)),
                    ),
                ],
            },
        }
    }

    /// The state and the document after the second pass over `node`.
    pub open spec fn emit(self, node: Node, doc: DocumentView) -> (EmitterState, DocumentView)
        decreases node,
    {
        match node {
            Node::Root(children) => self.emit_all(children@, doc),
            Node::Paragraph(children) => {
                let opened = EmitterState {
                    paragraph: body_paragraph(),
                    paragraph_alignment: None,
                    ..self
                };
                let (state, out) = opened.emit_all(children@, doc);
                let closed = match state.paragraph_alignment {
                    Some(alignment) => state.paragraph.aligned(alignment),
                    None => state.paragraph,
                };
                (
                    EmitterState { paragraph: self.paragraph, ..state },
                    out.with_paragraph(closed),
                )
            },
            Node::Heading { depth, children } => (
                self,
                doc.with_paragraph(heading_paragraph(heading_text(children@), depth)),
            ),
            Node::Text(value) => (
                EmitterState {
                    paragraph: self.paragraph.with_run(self.text_run(value@)),
                    reports: self.reports + unresolved(normalized(value@), self.references),
                    ..self
                },
                doc,
            ),
            Node::Strong(children) => {
                let (state, out) = EmitterState { bold: self.bold + 1, ..self }.emit_all(
                    children@,
                    doc,
                );
                (
                    EmitterState {
                        bold: if state.bold > 0 {
                            (state.bold - 1) as nat
                        } else {
                            0
                        },
                        ..state
                    },
                    out,
                )
            },
            Node::Emphasis(children) => {
                let (state, out) = EmitterState { italic: self.italic + 1, ..self }.emit_all(
                    children@,
                    doc,
                );
                (
                    EmitterState {
                        italic: if state.italic > 0 {
                            (state.italic - 1) as nat
                        } else {
                            0
                        },
                        ..state
                    },
                    out,
                )
            },
            Node::List { ordered, children } => {
                let kind = if ordered {
                    ListType::Ordered
                } else {
                    ListType::Unordered
                };
                let (state, out) = EmitterState { lists: self.lists.push(kind), ..self }.emit_all(
                    children@,
                    doc,
                );
                (
                    EmitterState {
                        lists: if state.lists.len() > 0 {
                            state.lists.drop_last()
                        } else {
                            state.lists
                        },
                        ..state
                    },
                    out,
                )
            },
            Node::ListItem { checked, spread, children } => if self.lists.len() == 0 {
                (
                    EmitterState {
                        reports: self.reports.push(DiagnosticView::ListItemOutsideListContext),
                        ..self
                    },
                    doc,
                )
            } else {
                let opened = EmitterState { paragraph: item_paragraph(self.lists), ..self };
                let (state, out) = opened.emit_item(children@, doc);
                (
                    EmitterState { paragraph: self.paragraph, ..state },
                    out.with_paragraph(state.paragraph),
                )
            },
            Node::Image { url, alt, title } => (
                self,
                DocumentView {
                    blocks: doc.blocks + self.image_blocks(
                        url@,
                        alt@,
                        title.deep_view(),
                        self.figure_number(alt@),
                    ),
                    ..doc
                },
            ),
            Node::Table(children) => self.emit_all(children@, doc),
            Node::TableRow(children) => self.emit_all(children@, doc),
            Node::TableCell(_) => (self, doc),
            Node::Container { kind, children } => self.emit_all(children@, doc),
            Node::Leaf(_) => (self, doc),
        }
    }

    /// The state and the document after the second pass over `nodes`, in
    /// order.
    pub open spec fn emit_all(self, nodes: Seq<Node>, doc: DocumentView) -> (
        EmitterState,
        DocumentView,
    )
        decreases nodes,
    {
        if nodes.len() == 0 {
            (self, doc)
        } else {
            let (state, out) = self.emit_all(nodes.drop_last(), doc);
            state.emit(nodes.last(), out)
        }
    }

    /// The state and the document after the children of a list item, in
    /// order. A child that is a paragraph does not open a paragraph of its
    /// own: its children go into the paragraph of the item.
    pub open spec fn emit_item(self, nodes: Seq<Node>, doc: DocumentView) -> (
        EmitterState,
        DocumentView,
    )
        decreases nodes,
    {
        if nodes.len() == 0 {
            (self, doc)
        } else {
            let (state, out) = self.emit_item(nodes.drop_last(), doc);
            match nodes.last() {
                Node::Paragraph(inline) => state.emit_all(inline@, out),
                other => state.emit(other, out),
            }
        }
    }

    /// The second pass leaves the nesting as it found it: after a node, as
    /// many spans and lists are open as before it, and the references and
    /// image files are the same.
    pub proof fn lemma_emit_balanced(self, node: Node, doc: DocumentView)
        ensures
            self.emit(node, doc).0.same_context(self),
        decreases node,
    {
        match node {
            Node::Root(children) => {
                self.lemma_emit_all_balanced(children@, doc);
            },
            Node::Paragraph(children) => {
                let opened = EmitterState {
                    paragraph: body_paragraph(),
                    paragraph_alignment: None,
                    ..self
                };
                opened.lemma_emit_all_balanced(children@, doc);
            },
            Node::Heading { .. } => {},
            Node::Text(_) => {},
            Node::Strong(children) => {
                EmitterState { bold: self.bold + 1, ..self }.lemma_emit_all_balanced(
                    children@,
                    doc,
                );
            },
            Node::Emphasis(children) => {
                EmitterState { italic: self.italic + 1, ..self }.lemma_emit_all_balanced(
                    children@,
                    doc,
                );
            },
            Node::List { ordered, children } => {
                let kind = if ordered {
                    ListType::Ordered
                } else {
                    ListType::Unordered
                };
                EmitterState { lists: self.lists.push(kind), ..self }.lemma_emit_all_balanced(
                    children@,
                    doc,
                );
                assert(self.lists.push(kind).drop_last() =~= self.lists);
            },
            Node::ListItem { children, .. } => {
                if self.lists.len() > 0 {
                    let opened = EmitterState { paragraph: item_paragraph(self.lists), ..self };
                    opened.lemma_emit_item_balanced(children@, doc);
                }
            },
            Node::Image { .. } => {},
            Node::Table(children) => {
                self.lemma_emit_all_balanced(children@, doc);
            },
            Node::TableRow(children) => {
                self.lemma_emit_all_balanced(children@, doc);
            },
            Node::TableCell(_) => {},
            Node::Container { children, .. } => {
                self.lemma_emit_all_balanced(children@, doc);
            },
            Node::Leaf(_) => {},
        }
    }

    /// [`Self::lemma_emit_balanced`], of a sequence of trees.
    pub proof fn lemma_emit_all_balanced(self, nodes: Seq<Node>, doc: DocumentView)
        ensures
            self.emit_all(nodes, doc).0.same_context(self),
        decreases nodes,
    {
        if nodes.len() > 0 {
            self.lemma_emit_all_balanced(nodes.drop_last(), doc);
            let (state, out) = self.emit_all(nodes.drop_last(), doc);
            state.lemma_emit_balanced(nodes.last(), out);
        }
    }

    /// [`Self::lemma_emit_balanced`], of the children of a list item.
    pub proof fn lemma_emit_item_balanced(self, nodes: Seq<Node>, doc: DocumentView)
        ensures
            self.emit_item(nodes, doc).0.same_context(self),
        decreases nodes,
    {
        if nodes.len() > 0 {
            self.lemma_emit_item_balanced(nodes.drop_last(), doc);
            let (state, out) = self.emit_item(nodes.drop_last(), doc);
            match nodes.last() {
                Node::Paragraph(inline) => {
                    state.lemma_emit_all_balanced(inline@, out);
                },
                other => {
                    state.lemma_emit_balanced(other, out);
                },
            }
        }
    }
}

/// Whether each of `nodes` is a text.
pub open spec fn all_texts(nodes: Seq<Node>) -> bool {
    forall|i: int| 0 <= i < nodes.len() ==> nodes[i] is Text
}

/// What a text node says; nothing for a node of another kind.
pub open spec fn text_of(node: Node) -> Seq<char> {
    match node {
        Node::Text(value) => value@,
        _ => Seq::empty(),
    }
}

impl EmitterState {
    /// Texts make runs and nothing else: after a sequence of text nodes the
    /// document is as it was, and the paragraph in the making has one more
    /// run for each text, in order, each formatted as the spans around the
    /// texts say.
    pub proof fn lemma_texts_make_runs(self, nodes: Seq<Node>, doc: DocumentView)
        requires
            all_texts(nodes),
        ensures
            self.emit_all(nodes, doc).1 == doc,
            self.emit_all(nodes, doc).0.paragraph == (ParagraphView {
                runs: self.paragraph.runs + Seq::new(
                    nodes.len(),
                    |i: int| self.text_run(text_of(nodes[i])),
                ),
                ..self.paragraph
            }),
        decreases nodes.len(),
    {
        if nodes.len() > 0 {
            let before = nodes.drop_last();
            let last = nodes.last();
            assert(nodes[nodes.len() - 1] is Text);
            assert(all_texts(before)) by {
                assert forall|i: int| 0 <= i < before.len() implies before[i] is Text by {
                    assert(before[i] == nodes[i]);
                }
            }
            self.lemma_texts_make_runs(before, doc);
            self.lemma_emit_all_balanced(before, doc);
            let state = self.emit_all(before, doc).0;
            let run = self.text_run(text_of(last));
            assert(state.text_run(text_of(last)) == run);
            assert(self.emit_all(nodes, doc) == state.emit(last, doc));
            match last {
                Node::Text(value) => {
                    assert(state.emit(last, doc).1 == doc);
                    assert(state.emit(last, doc).0.paragraph == state.paragraph.with_run(run));
                },
                _ => {},
            }
            let earlier = Seq::new(before.len(), |i: int| self.text_run(text_of(before[i])));
            let all = Seq::new(nodes.len(), |i: int| self.text_run(text_of(nodes[i])));
            assert(all =~= earlier.push(run));
            assert(self.paragraph.runs + all =~= (self.paragraph.runs + earlier).push(run));
        } else {
            assert(self.paragraph.runs + Seq::new(
                nodes.len(),
                |i: int| self.text_run(text_of(nodes[i])),
            ) =~= self.paragraph.runs);
        }
    }

    /// An image without a key is numbered one above the number of keys in
    /// the figure namespace, whatever numbers the keys have.
    pub proof fn lemma_unkeyed_image_number(self, alt: Seq<char>)
        requires
            ImageModifiers::of_alt(alt).reference is None,
            self.references.figures.len() < usize::MAX,
        ensures
            self.figure_number(alt) == self.references.figures.len() + 1,
    {
    }

    /// The items of a list are set in the style of its kind, at the level of
    /// its depth, and below the second level at the second: the first two
    /// levels differ, every deeper one is as the second.
    pub proof fn lemma_item_numbering(lists: Seq<ListType>)
        requires
            lists.len() > 0,
        ensures
            item_numbering(lists).id == (if lists.last() == ListType::Unordered {
                1usize
            } else {
                2usize
            }),
            lists.len() == 1 ==> item_numbering(lists).level == 0,
            lists.len() >= 2 ==> item_numbering(lists).level == 1,
            item_numbering(lists).level <= DEEPEST_LIST_LEVEL,
    {
    }

    /// A list item of one paragraph of texts becomes one numbered paragraph
    /// at the end of the document: its runs are those of the texts, its
    /// numbering is that of the innermost list, and afterwards the paragraph
    /// in the making and the nesting are as before.
    pub proof fn lemma_item_of_texts(
        self,
        checked: Option<bool>,
        spread: bool,
        children: Vec<Node>,
        inline: Vec<Node>,
        doc: DocumentView,
    )
        requires
            self.lists.len() > 0,
            children@ == seq![Node::Paragraph(inline)],
            all_texts(inline@),
        ensures
            self.emit(
                Node::ListItem { checked: checked, spread: spread, children: children },
                doc,
            ).1 == doc.with_paragraph(
                ParagraphView {
                    runs: Seq::new(inline@.len(), |i: int| self.text_run(text_of(inline@[i]))),
                    alignment: None,
                    indent: None,
                    numbering: Some(item_numbering(self.lists)),
                },
            ),
            self.emit(
                Node::ListItem { checked: checked, spread: spread, children: children },
                doc,
            ).0.same_context(self),
            self.emit(
                Node::ListItem { checked: checked, spread: spread, children: children },
                doc,
            ).0.paragraph == self.paragraph,
    {
        let item = Node::ListItem { checked: checked, spread: spread, children: children };
        let opened = EmitterState { paragraph: item_paragraph(self.lists), ..self };
        assert(children@.drop_last() =~= Seq::<Node>::empty());
        assert(children@.last() == Node::Paragraph(inline));
        assert(opened.emit_item(children@.drop_last(), doc) == (opened, doc));
        assert(opened.emit_item(children@, doc) == opened.emit_all(inline@, doc));
        opened.lemma_texts_make_runs(inline@, doc);
        self.lemma_emit_balanced(item, doc);
        let runs = Seq::new(inline@.len(), |i: int| self.text_run(text_of(inline@[i])));
        assert(opened.emit_all(inline@, doc).0.paragraph.runs =~= runs);
    }

    /// What a strong span encloses is bold: after a strong span of texts
    /// the document is as it was, as many spans are open as before, and the
    /// paragraph in the making has one more run for each text, in order,
    /// each of them bold, and italic exactly where an emphasis span is open.
    pub proof fn lemma_strong_texts_bold(self, children: Vec<Node>, doc: DocumentView)
        requires
            all_texts(children@),
        ensures
            self.emit(Node::Strong(children), doc).1 == doc,
            self.emit(Node::Strong(children), doc).0.same_context(self),
            self.emit(Node::Strong(children), doc).0.paragraph.runs.len()
                == self.paragraph.runs.len() + children@.len(),
            forall|i: int|
                0 <= i < self.paragraph.runs.len() ==> self.emit(
                    Node::Strong(children),
                    doc,
                ).0.paragraph.runs[i] == self.paragraph.runs[i],
            forall|i: int|
                0 <= i < children@.len() ==> (#[trigger] self.emit(
                    Node::Strong(children),
                    doc,
                ).0.paragraph.runs[self.paragraph.runs.len() + i]) == (RunView {
                    text: resolved(normalized(text_of(children@[i])), self.references),
                    bold: true,
                    italic: self.italic > 0,
                    size: None,
                }),
    {
        let opened = EmitterState { bold: self.bold + 1, ..self };
        opened.lemma_texts_make_runs(children@, doc);
        self.lemma_emit_balanced(Node::Strong(children), doc);
    }

    /// What an emphasis span encloses is italic: after an emphasis span of
    /// texts the document is as it was, as many spans are open as before,
    /// and the paragraph in the making has one more run for each text, in
    /// order, each of them italic, and bold exactly where a strong span is
    /// open.
    pub proof fn lemma_emphasis_texts_italic(self, children: Vec<Node>, doc: DocumentView)
        requires
            all_texts(children@),
        ensures
            self.emit(Node::Emphasis(children), doc).1 == doc,
            self.emit(Node::Emphasis(children), doc).0.same_context(self),
            self.emit(Node::Emphasis(children), doc).0.paragraph.runs.len()
                == self.paragraph.runs.len() + children@.len(),
            forall|i: int|
                0 <= i < self.paragraph.runs.len() ==> self.emit(
                    Node::Emphasis(children),
                    doc,
                ).0.paragraph.runs[i] == self.paragraph.runs[i],
            forall|i: int|
                0 <= i < children@.len() ==> (#[trigger] self.emit(
                    Node::Emphasis(children),
                    doc,
                ).0.paragraph.runs[self.paragraph.runs.len() + i]) == (RunView {
                    text: resolved(normalized(text_of(children@[i])), self.references),
                    bold: self.bold > 0,
                    italic: true,
                    size: None,
                }),
    {
        let opened = EmitterState { italic: self.italic + 1, ..self };
        opened.lemma_texts_make_runs(children@, doc);
        self.lemma_emit_balanced(Node::Emphasis(children), doc);
    }
}

impl EmitterState {
    /// Whether `after` is `before` with blocks added at its end: the blocks
    /// of `before` come first, unchanged, and the numbering styles are the
    /// same.
    pub open spec fn extends(before: DocumentView, after: DocumentView) -> bool {
        &&& before.blocks.is_prefix_of(after.blocks)
        &&& after.abstract_numberings == before.abstract_numberings
        &&& after.numberings == before.numberings
    }

    /// The second pass only adds blocks at the end of the document: what the
    /// document held stays, in its place, and no numbering style is added
    /// or changed.
    pub proof fn lemma_emit_appends(self, node: Node, doc: DocumentView)
        ensures
            Self::extends(doc, self.emit(node, doc).1),
        decreases node,
    {
        match node {
            Node::Root(children) => {
                self.lemma_emit_all_appends(children@, doc);
            },
            Node::Paragraph(children) => {
                let opened = EmitterState {
                    paragraph: body_paragraph(),
                    paragraph_alignment: None,
                    ..self
                };
                opened.lemma_emit_all_appends(children@, doc);
            },
            Node::Heading { .. } => {},
            Node::Text(_) => {},
            Node::Strong(children) => {
                EmitterState { bold: self.bold + 1, ..self }.lemma_emit_all_appends(
                    children@,
                    doc,
                );
            },
            Node::Emphasis(children) => {
                EmitterState { italic: self.italic + 1, ..self }.lemma_emit_all_appends(
                    children@,
                    doc,
                );
            },
            Node::List { ordered, children } => {
                let kind = if ordered {
                    ListType::Ordered
                } else {
                    ListType::Unordered
                };
                EmitterState { lists: self.lists.push(kind), ..self }.lemma_emit_all_appends(
                    children@,
                    doc,
                );
            },
            Node::ListItem { children, .. } => {
                if self.lists.len() > 0 {
                    let opened = EmitterState { paragraph: item_paragraph(self.lists), ..self };
                    opened.lemma_emit_item_appends(children@, doc);
                }
            },
            Node::Image { .. } => {},
            Node::Table(children) => {
                self.lemma_emit_all_appends(children@, doc);
            },
            Node::TableRow(children) => {
                self.lemma_emit_all_appends(children@, doc);
            },
            Node::TableCell(_) => {},
            Node::Container { children, .. } => {
                self.lemma_emit_all_appends(children@, doc);
            },
            Node::Leaf(_) => {},
        }
    }

    /// [`Self::lemma_emit_appends`], of a sequence of trees.
    pub proof fn lemma_emit_all_appends(self, nodes: Seq<Node>, doc: DocumentView)
        ensures
            Self::extends(doc, self.emit_all(nodes, doc).1),
        decreases nodes,
    {
        if nodes.len() > 0 {
            self.lemma_emit_all_appends(nodes.drop_last(), doc);
            let (state, out) = self.emit_all(nodes.drop_last(), doc);
            state.lemma_emit_appends(nodes.last(), out);
        }
    }

    /// [`Self::lemma_emit_appends`], of the children of a list item.
    pub proof fn lemma_emit_item_appends(self, nodes: Seq<Node>, doc: DocumentView)
        ensures
            Self::extends(doc, self.emit_item(nodes, doc).1),
        decreases nodes,
    {
        if nodes.len() > 0 {
            self.lemma_emit_item_appends(nodes.drop_last(), doc);
            let (state, out) = self.emit_item(nodes.drop_last(), doc);
            match nodes.last() {
                Node::Paragraph(inline) => {
                    state.lemma_emit_all_appends(inline@, out);
                },
                other => {
                    state.lemma_emit_appends(other, out);
                },
            }
        }
    }

    /// Whether the counters have room for so many more strong spans and
    /// emphasis spans, one within the other, and, where an image is to be
    /// numbered, for the number of an image without a key, which is one
    /// above the number of keys.
    pub open spec fn has_room(self, strong: nat, emphasis: nat, image: bool) -> bool {
        &&& self.bold + strong <= u32::MAX
        &&& self.italic + emphasis <= u32::MAX
        &&& image ==> self.references.figures.len() < usize::MAX
    }

    /// Whether the pass can take `node` in this state: the counters have
    /// room for the spans that the pass opens within it, and for the numbers
    /// of its images.
    pub open spec fn admits(self, node: Node) -> bool {
        self.has_room(span_depth(node, true), span_depth(node, false), shows_image(node))
    }

    /// Whether the pass can take each of `nodes` in this state.
    pub open spec fn admits_all(self, nodes: Seq<Node>) -> bool {
        self.has_room(
            span_depth_of(nodes, true),
            span_depth_of(nodes, false),
            shows_image_in(nodes),
        )
    }
}

/// The string made of three parts.
fn joined(first: &str, second: &str, third: &str) -> (text: String)
    ensures
        text@ == first@ + second@ + third@,
{
    let mut out: Vec<char> = Vec::new();
    append_str(&mut out, first);
    append_str(&mut out, second);
    append_str(&mut out, third);
    string_of(&out)
}

/// A copy of the bytes.
fn copy_bytes(bytes: &Vec<u8>) -> (copy: Vec<u8>)
    ensures
        copy@ == bytes@,
{
    let mut copy: Vec<u8> = Vec::new();
    let mut i: usize = 0;
    while i < bytes.len()
        invariant
            0 <= i <= bytes.len(),
            copy@ == bytes@.take(i as int),
        decreases bytes.len() - i,
    {
        copy.push(bytes[i]);
        i = i + 1;
    }
    copy
}

/// One level of a numbering style.
fn make_level(index: usize, format: NumberFormat, text: &str) -> (level: Level)
    requires
        index <= 1,
    ensures
        level@ == style_level(index, format, text@),
{
    let left: i32 = if index == 0 {
        720
    } else {
        1440
    };
    Level {
        index: index,
        start: 1,
        format: format,
        text: String::from_str(text),
        justification: AlignmentType::Left,
        indent: Indent {
            left: Some(left),
            special: Some(SpecialIndent::Hanging(360)),
            end: None,
            start_chars: None,
        },
    }
}

/// A numbering style of two levels.
fn make_style(id: usize, outer: Level, inner: Level) -> (style: AbstractNumbering)
    ensures
        style@ == (AbstractNumberingView { id: id, levels: seq![outer@, inner@] }),
{
    let mut levels: Vec<Level> = Vec::new();
    levels.push(outer);
    levels.push(inner);
    proof {
        assert(views(levels@) =~= seq![outer@, inner@]);
    }
    AbstractNumbering { id: id, levels: levels }
}

/// A centred paragraph of one run of the given size.
fn make_centred(text: &str, bold: bool, italic: bool, size: usize) -> (paragraph: Paragraph)
    ensures
        paragraph@ == (ParagraphView {
            runs: seq![RunView { text: text@, bold: bold, italic: italic, size: Some(size) }],
            alignment: Some(AlignmentType::Center),
            indent: None,
            numbering: None,
        }),
{
    let run = Run { text: String::from_str(text), bold: bold, italic: italic, size: Some(size) };
    let mut runs: Vec<Run> = Vec::new();
    runs.push(run);
    proof {
        assert(views(runs@) =~= seq![run@]);
    }
    Paragraph { runs: runs, alignment: Some(AlignmentType::Center), indent: None, numbering: None }
}

/// The second pass over a document tree, and its state.
pub struct Emitter {
    strong_state: StackCounter,
    base_path: Option<String>,
    em_state: StackCounter,
    list_type: Vec<ListType>,
    references: ImageReferenceCollector,
    files: Vec<ImageFile>,
    reports: Vec<Diagnostic>,
    paragraph: Paragraph,
    paragraph_alignment: Option<AlignmentType>,
}

impl View for Emitter {
    type V = EmitterState;

    closed spec fn view(&self) -> EmitterState {
        EmitterState {
            bold: self.strong_state@,
            italic: self.em_state@,
            lists: self.list_type@,
            references: self.references@,
            paragraph: self.paragraph@,
            paragraph_alignment: self.paragraph_alignment,
            base_path: self.base_path.deep_view(),
            files: views(self.files@),
            reports: views(self.reports@),
        }
    }
}

impl Emitter {
    /// An emitter that has walked nothing. Image addresses are relative to
    /// `base_path`; without one no image can be embedded.
    pub fn new(base_path: Option<String>) -> (emitter: Self)
        ensures
            emitter@ == EmitterState::initial(base_path.deep_view()),
    {
        let emitter = Emitter {
            strong_state: StackCounter::new(),
            base_path: base_path,
            em_state: StackCounter::new(),
            list_type: Vec::new(),
            references: ImageReferenceCollector::new(),
            files: Vec::new(),
            reports: Vec::new(),
            paragraph: Paragraph::new(),
            paragraph_alignment: None,
        };
        proof {
            lemma_views_empty::<ImageFile>();
            lemma_views_empty::<Diagnostic>();
        }
        emitter
    }

    /// What the pass has met and gone on from, in the order it met it: the
    /// placeholders that it left as written, and the list items that stood
    /// outside any list.
    pub fn diagnostics(&self) -> (reports: &Vec<Diagnostic>)
        ensures
            views(reports@) == self@.reports,
    {
        &self.reports
    }

    /// Forgets what the pass has noted so far.
    pub fn clear_diagnostics(&mut self)
        ensures
            final(self)@ == (EmitterState { reports: Seq::empty(), ..old(self)@ }),
    {
        proof {
            lemma_views_empty::<Diagnostic>();
        }
        self.reports = Vec::new();
    }

    /// What the first pass has collected, as the emitter was handed it.
    pub fn references(&self) -> (references: &ImageReferenceCollector)
        ensures
            references@ == self@.references,
    {
        &self.references
    }

    /// Hands the emitter what the first pass has collected.
    pub fn set_image_refernces(&mut self, image_references: ImageReferenceCollector)
        ensures
            final(self)@ == (EmitterState { references: image_references@, ..old(self)@ }),
    {
        self.references = image_references;
    }

    /// Hands the emitter the image files that exist under the base
    /// directory. An image whose address none of them has counts as not
    /// found.
    pub fn set_image_files(&mut self, files: Vec<ImageFile>)
        ensures
            final(self)@ == (EmitterState { files: views(files@), ..old(self)@ }),
    {
        self.files = files;
    }

    /// The directory that image addresses are relative to.
    pub fn base_path(&self) -> (path: &Option<String>)
        ensures
            path.deep_view() == self@.base_path,
    {
        &self.base_path
    }

    /// How many more spans of either kind can be opened.
    pub fn nesting_room(&self) -> (room: usize)
        ensures
            room == if self@.bold >= self@.italic {
                u32::MAX - self@.bold
            } else {
                u32::MAX - self@.italic
            },
    {
        let strong = self.strong_state.room();
        let em = self.em_state.room();
        if strong <= em {
            strong
        } else {
            em
        }
    }

    /// Whether the span counters have room for the spans that the pass opens
    /// within `node`.
    pub fn spans_fit(&self, node: &Node) -> (fit: bool)
        ensures
            fit == (self@.bold + span_depth(*node, true) <= u32::MAX && self@.italic + span_depth(
                *node,
                false,
            ) <= u32::MAX),
    {
        spans_within(node, self.strong_state.room(), self.em_state.room())
    }

    /// Whether the pass can take `node` in this state.
    pub fn admits(&self, node: &Node) -> (admitted: bool)
        ensures
            admitted == self@.admits(*node),
    {
        self.spans_fit(node) && (!has_image(node) || self.references.figure_count() < usize::MAX)
    }

    /// Puts the title block of the document at the end of `docx`.
    pub fn add_document_metadata(&self, metadata: &Option<Metadata>, docx: Document) -> (result:
        Document)
        ensures
            result@ == with_metadata(docx@, metadata_view(*metadata)),
    {
        let mut docx = docx;
        if let Some(metadata) = metadata {
            if let Some(title) = &metadata.title {
                let bold = !title.as_str().is_empty();
                docx = docx.add_paragraph(make_centred(title.as_str(), bold, false, 40));
            }
            if let Some(author) = &metadata.author {
                docx = docx.add_paragraph(make_centred(author.as_str(), false, true, 24));
                if let Some(affiliation) = &metadata.affiliation {
                    docx = docx.add_paragraph(make_centred(affiliation.as_str(), false, true, 24));
                }
            }
            docx = docx.add_paragraph(Paragraph::new());
        }
        docx
    }

    /// The index of the first image file with this address.
    fn lookup_file(&self, url: &str) -> (found: Option<usize>)
        ensures
            match found {
                Some(i) => i < self.files.len() && find_file(self@.files, url@) == Some(
                    self.files[i as int]@.source,
                ),
                None => find_file(self@.files, url@) is None,
            },
    {
        let wanted = String::from_str(url);
        let ghost all = views(self.files@);
        let mut i: usize = 0;
        proof {
            assert(all.skip(0) =~= all);
        }
        while i < self.files.len()
            invariant
                0 <= i <= self.files.len(),
                all == views(self.files@),
                wanted@ == url@,
                find_file(all, url@) == find_file(all.skip(i as int), url@),
            decreases self.files.len() - i,
        {
            proof {
                assert(all.skip(i as int).drop_first() =~= all.skip(i + 1));
            }
            if self.files[i].url == wanted {
                return Some(i);
            }
            i = i + 1;
        }
        None
    }

    /// Puts an image at the end of `docx`: the image and its caption, or a
    /// note in its place where there is no base directory, no file of that
    /// address, or the file could not be read.
    pub fn handle_image(
        &self,
        docx: Document,
        url: &str,
        alt: &str,
        title: Option<&str>,
        figure_number: usize,
    ) -> (result: Document)
        ensures
            result@ == (DocumentView {
                blocks: docx@.blocks + self@.image_blocks(
                    url@,
                    alt@,
                    title.deep_view(),
                    figure_number,
                ),
                ..docx@
            }),
    {
        let ghost before = docx@;
        if self.base_path.is_none() {
            let note = Paragraph::note(joined("[Image: ", url, "]"));
            let result = docx.add_paragraph(note);
            proof {
                assert(result@.blocks =~= before.blocks + seq![BlockView::Paragraph(note@)]);
            }
            return result;
        }
        match self.lookup_file(url) {
            None => {
                let note = Paragraph::note(joined("[Image: ", url, " (not found)]"));
                let result = docx.add_paragraph(note);
                proof {
                    assert(result@.blocks =~= before.blocks + seq![BlockView::Paragraph(note@)]);
                }
                result
            },
            Some(i) => match &self.files[i].source {
                ImageSource::Unreadable { path } => {
                    let note = Paragraph::note(
                        joined("[Image: ", path.as_str(), " (could not read file)]"),
                    );
                    let result = docx.add_paragraph(note);
                    proof {
                        assert(result@.blocks =~= before.blocks + seq![
                            BlockView::Paragraph(note@),
                        ]);
                    }
                    result
                },
                ImageSource::Loaded { bytes, width, height } => {
                    let modifiers = ImageModifiers::decode(alt);
                    let image = Image {
                        bytes: copy_bytes(bytes),
                        width: pixels_to_emu(*width),
                        height: pixels_to_emu(*height),
                        scale: modifiers.scale,
                        alignment: AlignmentType::Center,
                    };
                    let shown = match title {
                        Some(t) => if t.is_empty() {
                            alt
                        } else {
                            t
                        },
                        None => alt,
                    };
                    let mut caption: Vec<char> = Vec::new();
                    append_str(&mut caption, "Figure ");
                    append_decimal(&mut caption, figure_number);
                    if !shown.is_empty() {
                        append_str(&mut caption, ": ");
                        append_str(&mut caption, shown);
                    }
                    let note = Paragraph::note(string_of(&caption));
                    let block = Block::Image(image);
                    let result = docx.add_block(block).add_paragraph(note);
                    proof {
                        assert(result@.blocks =~= before.blocks + seq![
                            block@,
                            BlockView::Paragraph(note@),
                        ]);
                    }
                    result
                },
            },
        }
    }

    /// Puts a heading at the end of `docx`: one bold run at the size of its
    /// level.
    pub fn add_heading(&self, docx: Document, text: &str, level: u8) -> (result: Document)
        ensures
            result@ == docx@.with_paragraph(heading_paragraph(text@, level)),
    {
        let size: usize = match level {
            1 => 36,
            2 => 28,
            3 => 24,
            _ => 20,
        };
        let run = Run { text: String::from_str(text), bold: true, italic: false, size: Some(size) };
        let mut runs: Vec<Run> = Vec::new();
        runs.push(run);
        proof {
            assert(views(runs@) =~= seq![run@]);
        }
        docx.add_paragraph(
            Paragraph { runs: runs, alignment: None, indent: None, numbering: None },
        )
    }

    /// Declares the two numbering styles that list paragraphs refer to:
    /// style 1 for unordered lists, style 2 for ordered ones, each bound to
    /// the numbering id of the same number.
    pub fn initialize_numbering(&self, docx: Document) -> (result: Document)
        ensures
            result@ == with_numbering_styles(docx@),
    {
        let bullets = make_style(
            1,
            make_level(0, NumberFormat::Bullet, "\u{2022}"),
            make_level(1, NumberFormat::Bullet, "\u{25CB}"),
        );
        let numbers = make_style(
            2,
            make_level(0, NumberFormat::Decimal, "%1."),
            make_level(1, NumberFormat::LowerLetter, "%2)"),
        );
        let docx = docx.add_abstract_numbering(bullets);
        let docx = docx.add_abstract_numbering(numbers);
        let docx = docx.add_numbering(Numbering { id: 1, abstract_id: 1 });
        let docx = docx.add_numbering(Numbering { id: 2, abstract_id: 2 });
        docx
    }

    /// Resolves the reference placeholders of `text`.
    pub fn check_references(&self, text: &str) -> (result: String)
        ensures
            result@ == resolved(text@, self@.references),
            (forall|s: int, e: int| !is_token(text@, s, e)) ==> result@ == text@,
            (forall|s: int, e: int| #[trigger]
                is_token(text@, s, e) ==> self@.references.label(key_of(text@, s, e)) is None)
                ==> result@ == text@,
            forall|s: int, e: int| #[trigger]
                is_sole_token(text@, s, e) && self@.references.figures.contains_key(
                    key_of(text@, s, e),
                ) ==> result@ == with_figure(
                    text@,
                    s,
                    e,
                    self@.references.figures[key_of(text@, s, e)],
                ),
    {
        resolve_references(text, &self.references)
    }

    /// A heading: the texts among its children make its text, other children
    /// are passed over. References are not resolved in headings.
    pub fn visit_heading(&mut self, depth: u8, children: &Vec<Node>, docx: Document) -> (result:
        Document)
        ensures
            (final(self)@, result@) == old(self)@.emit(
                Node::Heading { depth: depth, children: *children },
                docx@,
            ),
            final(self)@.same_context(old(self)@),
    {
        proof {
            self@.lemma_emit_balanced(Node::Heading { depth: depth, children: *children }, docx@);
        }
        let mut text: Vec<char> = Vec::new();
        let mut i: usize = 0;
        while i < children.len()
            invariant
                0 <= i <= children.len(),
                text@ == heading_text(children@.take(i as int)),
            decreases children.len() - i,
        {
            proof {
                assert(children@.take(i + 1).drop_last() =~= children@.take(i as int));
            }
            if let Node::Text(value) = &children[i] {
                append_str(&mut text, value.as_str());
            }
            i = i + 1;
        }
        proof {
            assert(children@.take(children.len() as int) =~= children@);
        }
        let text = string_of(&text);
        self.add_heading(docx, text.as_str(), depth)
    }

    /// An image: it is numbered and put at the end of `docx`.
    pub fn visit_image(&mut self, url: &str, alt: &str, title: Option<&str>, docx: Document) -> (result:
        Document)
        requires
            old(self)@.references.figures.len() < usize::MAX,
        ensures
            final(self)@ == old(self)@,
            result@ == (DocumentView {
                blocks: docx@.blocks + old(self)@.image_blocks(
                    url@,
                    alt@,
                    title.deep_view(),
                    old(self)@.figure_number(alt@),
                ),
                ..docx@
            }),
    {
        let modifiers = ImageModifiers::decode(alt);
        let figure_number = match &modifiers.reference {
            Some(reference) => match self.references.figure_number(reference.as_str()) {
                Some(n) => n,
                None => 0,
            },
            None => self.references.figure_count() + 1,
        };
        self.handle_image(docx, url, alt, title, figure_number)
    }

    /// A text: normalised, its references resolved, it becomes one run of
    /// the paragraph in the making. Each placeholder that is left as written
    /// is noted.
    pub fn visit_text(&mut self, value: &str, docx: Document) -> (result: Document)
        ensures
            final(self)@ == (EmitterState {
                paragraph: old(self)@.paragraph.with_run(old(self)@.text_run(value@)),
                reports: old(self)@.reports + unresolved(
                    normalized(value@),
                    old(self)@.references,
                ),
                ..old(self)@
            }),
            result == docx,
    {
        let normalized_text = normalize(value);
        let textval = resolve_noting(
            normalized_text.as_str(),
            &self.references,
            &mut self.reports,
        );
        let run = Run {
            text: textval,
            bold: self.strong_state.set(),
            italic: self.em_state.set(),
            size: None,
        };
        proof {
            lemma_views_push(self.paragraph.runs@, run);
        }
        self.paragraph.runs.push(run);
        docx
    }
}

impl Emitter {
    /// The children of a node, in order.
    pub fn visit_children(&mut self, children: &Vec<Node>, docx: Document) -> (result: Document)
        requires
            old(self)@.admits_all(children@),
        ensures
            (final(self)@, result@) == old(self)@.emit_all(children@, docx@),
            final(self)@.same_context(old(self)@),
        decreases children, 0nat,
    {
        proof {
            self@.lemma_emit_all_balanced(children@, docx@);
        }
        let ghost start = docx@;
        let mut docx = docx;
        let mut i: usize = 0;
        while i < children.len()
            invariant
                0 <= i <= children.len(),
                old(self)@.admits_all(children@),
                (self@, docx@) == old(self)@.emit_all(children@.take(i as int), start),
            decreases children.len() - i,
        {
            proof {
                assert(children@.take(i + 1).drop_last() =~= children@.take(i as int));
                lemma_span_depth_member(children@, i as int, true);
                lemma_span_depth_member(children@, i as int, false);
                lemma_shows_image_member(children@, i as int);
                old(self)@.lemma_emit_all_balanced(children@.take(i as int), start);
            }
            docx = self.dispatch(&children[i], docx);
            i = i + 1;
        }
        proof {
            assert(children@.take(children.len() as int) =~= children@);
        }
        docx
    }

    /// A strong span: what it encloses is bold.
    pub fn visit_strong(&mut self, children: &Vec<Node>, docx: Document) -> (result: Document)
        requires
            old(self)@.admits(Node::Strong(*children)),
        ensures
            (final(self)@, result@) == old(self)@.emit(Node::Strong(*children), docx@),
            final(self)@.same_context(old(self)@),
        decreases children, 1nat,
    {
        proof {
            self@.lemma_emit_balanced(Node::Strong(*children), docx@);
        }
        self.strong_state.push();
        let docx = self.visit_children(children, docx);
        self.strong_state.pop();
        docx
    }

    /// An emphasis span: what it encloses is italic.
    pub fn visit_emphasis(&mut self, children: &Vec<Node>, docx: Document) -> (result: Document)
        requires
            old(self)@.admits(Node::Emphasis(*children)),
        ensures
            (final(self)@, result@) == old(self)@.emit(Node::Emphasis(*children), docx@),
            final(self)@.same_context(old(self)@),
        decreases children, 1nat,
    {
        proof {
            self@.lemma_emit_balanced(Node::Emphasis(*children), docx@);
        }
        self.em_state.push();
        let docx = self.visit_children(children, docx);
        self.em_state.pop();
        docx
    }

    /// A list: its items are set in the style of its kind, one level deeper
    /// than the items around it.
    pub fn visit_list(&mut self, ordered: bool, children: &Vec<Node>, docx: Document) -> (result:
        Document)
        requires
            old(self)@.admits(Node::List { ordered: ordered, children: *children }),
        ensures
            (final(self)@, result@) == old(self)@.emit(
                Node::List { ordered: ordered, children: *children },
                docx@,
            ),
            final(self)@.same_context(old(self)@),
        decreases children, 1nat,
    {
        proof {
            self@.lemma_emit_balanced(Node::List { ordered: ordered, children: *children }, docx@);
        }
        if ordered {
            self.list_type.push(ListType::Ordered);
        } else {
            self.list_type.push(ListType::Unordered);
        }
        let docx = self.visit_children(children, docx);
        self.list_type.pop();
        docx
    }

    /// A child of a list item: the children of a paragraph go into the
    /// paragraph of the item, any other child is walked as usual.
    fn visit_item_child(&mut self, child: &Node, docx: Document) -> (result: Document)
        requires
            old(self)@.admits(*child),
        ensures
            (final(self)@, result@) == (match *child {
                Node::Paragraph(inline) => old(self)@.emit_all(inline@, docx@),
                other => old(self)@.emit(other, docx@),
            }),
        decreases child, 1nat,
    {
        match child {
            Node::Paragraph(inline) => self.visit_children(inline, docx),
            _ => self.dispatch(child, docx),
        }
    }

    /// A list item: one numbered paragraph of its own, put at the end of
    /// `docx` after its children were walked; the paragraph around the item
    /// is in the making again afterwards. Outside any list the item is passed
    /// over, and that is noted. Task markers and loose items are set like any
    /// other item.
    pub fn visit_list_item(
        &mut self,
        checked: Option<bool>,
        spread: bool,
        children: &Vec<Node>,
        docx: Document,
    ) -> (result: Document)
        requires
            old(self)@.admits(Node::ListItem { checked: checked, spread: spread, children: *children }),
        ensures
            (final(self)@, result@) == old(self)@.emit(
                Node::ListItem { checked: checked, spread: spread, children: *children },
                docx@,
            ),
            final(self)@.same_context(old(self)@),
        decreases children, 2nat,
    {
        proof {
            self@.lemma_emit_balanced(Node::ListItem { checked: checked, spread: spread, children: *children }, docx@);
        }
        if self.list_type.len() == 0 {
            proof {
                lemma_views_push(self.reports@, Diagnostic::ListItemOutsideListContext);
            }
            self.reports.push(Diagnostic::ListItemOutsideListContext);
            return docx;
        }
        let depth = self.list_type.len();
        let numbering_id: usize = match self.list_type[depth - 1] {
            ListType::Ordered => 2,
            ListType::Unordered => 1,
        };
        let indent_level: usize = if depth - 1 < DEEPEST_LIST_LEVEL {
            depth - 1
        } else {
            DEEPEST_LIST_LEVEL
        };
        let mut own = Paragraph {
            runs: Vec::new(),
            alignment: None,
            indent: None,
            numbering: Some(ListNumbering { id: numbering_id, level: indent_level }),
        };
        proof {
            lemma_views_empty::<Run>();
        }
        core::mem::swap(&mut own, &mut self.paragraph);
        let ghost opened = self@;
        let ghost start = docx@;
        let mut docx = docx;
        let mut i: usize = 0;
        while i < children.len()
            invariant
                0 <= i <= children.len(),
                opened.admits_all(children@),
                (self@, docx@) == opened.emit_item(children@.take(i as int), start),
            decreases children.len() - i,
        {
            proof {
                assert(children@.take(i + 1).drop_last() =~= children@.take(i as int));
                lemma_span_depth_member(children@, i as int, true);
                lemma_span_depth_member(children@, i as int, false);
                lemma_shows_image_member(children@, i as int);
                opened.lemma_emit_item_balanced(children@.take(i as int), start);
            }
            docx = self.visit_item_child(&children[i], docx);
            i = i + 1;
        }
        proof {
            assert(children@.take(children.len() as int) =~= children@);
        }
        core::mem::swap(&mut own, &mut self.paragraph);
        docx.add_paragraph(own)
    }

    /// A paragraph: the runs of its children, put at the end of `docx`; the
    /// paragraph around it, if any, is in the making again afterwards. A
    /// paragraph without runs is put into `docx` too.
    pub fn visit_paragraph(&mut self, children: &Vec<Node>, docx: Document) -> (result: Document)
        requires
            old(self)@.admits(Node::Paragraph(*children)),
        ensures
            (final(self)@, result@) == old(self)@.emit(Node::Paragraph(*children), docx@),
            final(self)@.same_context(old(self)@),
        decreases children, 1nat,
    {
        proof {
            self@.lemma_emit_balanced(Node::Paragraph(*children), docx@);
        }
        let mut own = Paragraph {
            runs: Vec::new(),
            alignment: None,
            indent: Some(
                Indent { left: Some(720), special: None, end: Some(720), start_chars: None },
            ),
            numbering: None,
        };
        proof {
            lemma_views_empty::<Run>();
        }
        core::mem::swap(&mut own, &mut self.paragraph);
        self.paragraph_alignment = None;
        let docx = self.visit_children(children, docx);
        core::mem::swap(&mut own, &mut self.paragraph);
        if let Some(alignment) = self.paragraph_alignment {
            own = own.align(alignment);
        }
        docx.add_paragraph(own)
    }

    /// A table: its rows are walked; nothing is put into `docx` for it.
    pub fn visit_table(&mut self, children: &Vec<Node>, docx: Document) -> (result: Document)
        requires
            old(self)@.admits(Node::Table(*children)),
        ensures
            (final(self)@, result@) == old(self)@.emit(Node::Table(*children), docx@),
            final(self)@.same_context(old(self)@),
        decreases children, 1nat,
    {
        proof {
            self@.lemma_emit_balanced(Node::Table(*children), docx@);
        }
        self.visit_children(children, docx)
    }

    /// A table row: its cells are walked.
    pub fn visit_table_row(&mut self, children: &Vec<Node>, docx: Document) -> (result: Document)
        requires
            old(self)@.admits(Node::TableRow(*children)),
        ensures
            (final(self)@, result@) == old(self)@.emit(Node::TableRow(*children), docx@),
            final(self)@.same_context(old(self)@),
        decreases children, 1nat,
    {
        proof {
            self@.lemma_emit_balanced(Node::TableRow(*children), docx@);
        }
        self.visit_children(children, docx)
    }

    /// A table cell: it is passed over.
    pub fn visit_table_cell(&mut self, children: &Vec<Node>, docx: Document) -> (result: Document)
        ensures
            (final(self)@, result@) == old(self)@.emit(Node::TableCell(*children), docx@),
            final(self)@.same_context(old(self)@),
    {
        proof {
            self@.lemma_emit_balanced(Node::TableCell(*children), docx@);
        }
        docx
    }

    /// Hands a node to the handler of its kind.
    fn dispatch(&mut self, node: &Node, docx: Document) -> (result: Document)
        requires
            old(self)@.admits(*node),
        ensures
            (final(self)@, result@) == old(self)@.emit(*node, docx@),
            final(self)@.same_context(old(self)@),
        decreases node, 0nat,
    {
        proof {
            self@.lemma_emit_balanced(*node, docx@);
        }
        match node {
            Node::Root(children) => self.visit_children(children, docx),
            Node::Paragraph(children) => self.visit_paragraph(children, docx),
            Node::Heading { depth, children } => self.visit_heading(*depth, children, docx),
            Node::Text(value) => self.visit_text(value.as_str(), docx),
            Node::Strong(children) => self.visit_strong(children, docx),
            Node::Emphasis(children) => self.visit_emphasis(children, docx),
            Node::List { ordered, children } => self.visit_list(*ordered, children, docx),
            Node::ListItem { checked, spread, children } => self.visit_list_item(
                *checked,
                *spread,
                children,
                docx,
            ),
            Node::Image { url, alt, title } => {
                let title = match title {
                    Some(t) => Some(t.as_str()),
                    None => None,
                };
                self.visit_image(url.as_str(), alt.as_str(), title, docx)
            },
            Node::Table(children) => self.visit_table(children, docx),
            Node::TableRow(children) => self.visit_table_row(children, docx),
            Node::TableCell(children) => self.visit_table_cell(children, docx),
            Node::Container { kind, children } => self.visit_children(children, docx),
            Node::Leaf(_) => docx,
        }
    }
}

impl Default for Emitter {
    fn default() -> (emitter: Self)
        ensures
            emitter@ == EmitterState::initial(None),
    {
        Emitter::new(None)
    }
}

impl MarkdownNodeTraverser for Emitter {
    type Output = Document;

    open spec fn admits(state: EmitterState, node: Node) -> bool {
        state.admits(node)
    }

    open spec fn traversed(state: EmitterState, node: Node, output: DocumentView) -> (
        EmitterState,
        DocumentView,
    ) {
        state.emit(node, output)
    }

    fn process_node(&mut self, node: &Node, output: Document) -> (result: Document)
        ensures
            final(self)@.same_context(old(self)@),
    {
        self.dispatch(node, output)
    }

    fn process_child(&mut self, node: &Node, result: Document) -> (output: Document)
        ensures
            final(self)@.same_context(old(self)@),
    {
        self.dispatch(node, result)
    }
}

} // verus!
