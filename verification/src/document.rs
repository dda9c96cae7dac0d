//! The document that the second pass builds: an ordered sequence of blocks,
//! and the numbering styles that list paragraphs refer to.

use vstd::prelude::*;

verus! {

/// The models of the items of a sequence, in order.
pub open spec fn views<T: View>(items: Seq<T>) -> Seq<T::V> {
    Seq::new(items.len(), |i: int| items[i]@)
}

/// The models of no items are no models.
pub proof fn lemma_views_empty<T: View>()
    ensures
        views(Seq::<T>::empty()) == Seq::<T::V>::empty(),
{
}

/// The models of a sequence with one more item are the models of the
/// sequence and the model of the item.
pub proof fn lemma_views_push<T: View>(items: Seq<T>, item: T)
    ensures
        views(items.push(item)) == views(items).push(item@),
{
}

/// How a paragraph or an image is set between the margins.
#[derive(Debug, Clone, Copy, PartialEq, Eq, Structural)]
pub enum AlignmentType {
    Left,
    Center,
    Right,
}

impl AlignmentType {
    /// The word for the alignment in a numbering style.
    pub open spec fn word(self) -> Seq<char> {
        match self {
            AlignmentType::Left => "left"@,
            AlignmentType::Center => "center"@,
            AlignmentType::Right => "right"@,
        }
    }

    /// The word for the alignment in a numbering style.
    pub fn name(&self) -> (name: &'static str)
        ensures
            name@ == self.word(),
    {
        match self {
            AlignmentType::Left => "left",
            AlignmentType::Center => "center",
            AlignmentType::Right => "right",
        }
    }
}

/// An indent of the first line of a paragraph that differs from the rest.
#[derive(Debug, Clone, Copy, PartialEq, Eq, Structural)]
pub enum SpecialIndent {
    FirstLine(i32),
    Hanging(i32),
}

/// The indents of a paragraph, in twentieths of a point.
#[derive(Debug, Clone, Copy, PartialEq, Eq, Structural)]
pub struct Indent {
    pub left: Option<i32>,
    pub special: Option<SpecialIndent>,
    pub end: Option<i32>,
    pub start_chars: Option<i32>,
}

/// The numbering style and the level that a list paragraph refers to.
#[derive(Debug, Clone, Copy, PartialEq, Eq, Structural)]
pub struct ListNumbering {
    pub id: usize,
    pub level: usize,
}

/// A span of text in one formatting.
#[derive(Debug, Clone, PartialEq, Eq)]
pub struct Run {
    pub text: String,
    pub bold: bool,
    pub italic: bool,
    /// The size in half-points; `None` for the size of the surrounding text.
    pub size: Option<usize>,
}

/// The model of a [`Run`].
pub struct RunView {
    pub text: Seq<char>,
    pub bold: bool,
    pub italic: bool,
    pub size: Option<usize>,
}

impl View for Run {
    type V = RunView;

    open spec fn view(&self) -> RunView {
        RunView { text: self.text@, bold: self.bold, italic: self.italic, size: self.size }
    }
}

/// A paragraph: its runs in order, and how it is set.
#[derive(Debug, Clone, PartialEq, Eq)]
pub struct Paragraph {
    pub runs: Vec<Run>,
    pub alignment: Option<AlignmentType>,
    pub indent: Option<Indent>,
    pub numbering: Option<ListNumbering>,
}

/// The model of a [`Paragraph`].
pub struct ParagraphView {
    pub runs: Seq<RunView>,
    pub alignment: Option<AlignmentType>,
    pub indent: Option<Indent>,
    pub numbering: Option<ListNumbering>,
}

impl View for Paragraph {
    type V = ParagraphView;

    open spec fn view(&self) -> ParagraphView {
        ParagraphView {
            runs: views(self.runs@),
            alignment: self.alignment,
            indent: self.indent,
            numbering: self.numbering,
        }
    }
}

impl ParagraphView {
    /// The paragraph without runs, set in no particular way.
    pub open spec fn empty() -> ParagraphView {
        ParagraphView { runs: Seq::empty(), alignment: None, indent: None, numbering: None }
    }

    /// The paragraph with one more run at its end.
    pub open spec fn with_run(self, run: RunView) -> ParagraphView {
        ParagraphView { runs: self.runs.push(run), ..self }
    }

    /// The paragraph with this alignment.
    pub open spec fn aligned(self, alignment: AlignmentType) -> ParagraphView {
        ParagraphView { alignment: Some(alignment), ..self }
    }

    /// The centred paragraph of one run in italics: a caption, or a note that
    /// stands in for an image.
    pub open spec fn note(text: Seq<char>) -> ParagraphView {
        ParagraphView {
            runs: seq![RunView { text: text, bold: false, italic: true, size: None }],
            alignment: Some(AlignmentType::Center),
            indent: None,
            numbering: None,
        }
    }
}

impl Paragraph {
    /// A paragraph without runs, set in no particular way.
    pub fn new() -> (paragraph: Self)
        ensures
            paragraph@ == ParagraphView::empty(),
    {
        let paragraph = Paragraph { runs: Vec::new(), alignment: None, indent: None, numbering: None };
        proof {
            lemma_views_empty::<Run>();
        }
        paragraph
    }

    /// The paragraph with one more run at its end.
    pub fn add_run(self, run: Run) -> (paragraph: Self)
        ensures
            paragraph@ == self@.with_run(run@),
    {
        let mut paragraph = self;
        proof {
            lemma_views_push(paragraph.runs@, run);
        }
        paragraph.runs.push(run);
        paragraph
    }

    /// The paragraph with this alignment.
    pub fn align(self, alignment: AlignmentType) -> (paragraph: Self)
        ensures
            paragraph@ == self@.aligned(alignment),
    {
        let mut paragraph = self;
        paragraph.alignment = Some(alignment);
        paragraph
    }

    /// A centred paragraph of one run in italics.
    pub fn note(text: String) -> (paragraph: Self)
        ensures
            paragraph@ == ParagraphView::note(text@),
    {
        let run = Run { text: text, bold: false, italic: true, size: None };
        let mut runs: Vec<Run> = Vec::new();
        runs.push(run);
        proof {
            assert(views(runs@) =~= seq![run@]);
        }
        Paragraph { runs: runs, alignment: Some(AlignmentType::Center), indent: None, numbering: None }
    }
}

/// An embedded image.
#[derive(Debug, Clone, PartialEq, Eq)]
pub struct Image {
    /// The bytes of the image file.
    pub bytes: Vec<u8>,
    /// The width of the unscaled image, in English Metric Units.
    pub width: u64,
    /// The height of the unscaled image, in English Metric Units.
    pub height: u64,
    /// The factor by which both axes are to be scaled, as a decimal numeral.
    pub scale: String,
    pub alignment: AlignmentType,
}

/// The model of an [`Image`].
pub struct ImageView {
    pub bytes: Seq<u8>,
    pub width: u64,
    pub height: u64,
    pub scale: Seq<char>,
    pub alignment: AlignmentType,
}

impl View for Image {
    type V = ImageView;

    open spec fn view(&self) -> ImageView {
        ImageView {
            bytes: self.bytes@,
            width: self.width,
            height: self.height,
            scale: self.scale@,
            alignment: self.alignment,
        }
    }
}

/// One element of the block sequence.
#[derive(Debug, Clone, PartialEq, Eq)]
pub enum Block {
    Paragraph(Paragraph),
    Image(Image),
}

/// The model of a [`Block`].
pub enum BlockView {
    Paragraph(ParagraphView),
    Image(ImageView),
}

impl View for Block {
    type V = BlockView;

    open spec fn view(&self) -> BlockView {
        match self {
            Block::Paragraph(p) => BlockView::Paragraph(p@),
            Block::Image(i) => BlockView::Image(i@),
        }
    }
}

/// How the items of one level of a list are marked.
#[derive(Debug, Clone, Copy, PartialEq, Eq, Structural)]
pub enum NumberFormat {
    Bullet,
    Decimal,
    LowerLetter,
}

impl NumberFormat {
    /// The word for the format in a numbering style.
    pub open spec fn word(self) -> Seq<char> {
        match self {
            NumberFormat::Bullet => "bullet"@,
            NumberFormat::Decimal => "decimal"@,
            NumberFormat::LowerLetter => "lowerLetter"@,
        }
    }

    /// The word for the format in a numbering style.
    pub fn name(&self) -> (name: &'static str)
        ensures
            name@ == self.word(),
    {
        match self {
            NumberFormat::Bullet => "bullet",
            NumberFormat::Decimal => "decimal",
            NumberFormat::LowerLetter => "lowerLetter",
        }
    }
}

/// One level of a numbering style.
#[derive(Debug, Clone, PartialEq, Eq)]
pub struct Level {
    pub index: usize,
    pub start: usize,
    pub format: NumberFormat,
    /// The text of the marker: a glyph, or a pattern such as `%1.`.
    pub text: String,
    pub justification: AlignmentType,
    pub indent: Indent,
}

/// The model of a [`Level`].
pub struct LevelView {
    pub index: usize,
    pub start: usize,
    pub format: NumberFormat,
    pub text: Seq<char>,
    pub justification: AlignmentType,
    pub indent: Indent,
}

impl View for Level {
    type V = LevelView;

    open spec fn view(&self) -> LevelView {
        LevelView {
            index: self.index,
            start: self.start,
            format: self.format,
            text: self.text@,
            justification: self.justification,
            indent: self.indent,
        }
    }
}

/// A numbering style: its levels, outermost first.
#[derive(Debug, Clone, PartialEq, Eq)]
pub struct AbstractNumbering {
    pub id: usize,
    pub levels: Vec<Level>,
}

/// The model of an [`AbstractNumbering`].
pub struct AbstractNumberingView {
    pub id: usize,
    pub levels: Seq<LevelView>,
}

impl View for AbstractNumbering {
    type V = AbstractNumberingView;

    open spec fn view(&self) -> AbstractNumberingView {
        AbstractNumberingView { id: self.id, levels: views(self.levels@) }
    }
}

/// The binding of a numbering id, which paragraphs refer to, to a style.
#[derive(Debug, Clone, Copy, PartialEq, Eq, Structural)]
pub struct Numbering {
    pub id: usize,
    pub abstract_id: usize,
}

impl View for Numbering {
    type V = Numbering;

    open spec fn view(&self) -> Numbering {
        *self
    }
}

/// The document: its blocks in order, and its numbering styles.
#[derive(Debug, Clone, PartialEq, Eq)]
pub struct Document {
    pub blocks: Vec<Block>,
    pub abstract_numberings: Vec<AbstractNumbering>,
    pub numberings: Vec<Numbering>,
}

/// The model of a [`Document`].
pub struct DocumentView {
    pub blocks: Seq<BlockView>,
    pub abstract_numberings: Seq<AbstractNumberingView>,
    pub numberings: Seq<Numbering>,
}

impl View for Document {
    type V = DocumentView;

    open spec fn view(&self) -> DocumentView {
        DocumentView {
            blocks: views(self.blocks@),
            abstract_numberings: views(self.abstract_numberings@),
            numberings: self.numberings@,
        }
    }
}

impl DocumentView {
    /// The document without blocks and without numbering styles.
    pub open spec fn empty() -> DocumentView {
        DocumentView {
            blocks: Seq::empty(),
            abstract_numberings: Seq::empty(),
            numberings: Seq::empty(),
        }
    }

    /// The document with one more block at its end.
    pub open spec fn with_block(self, block: BlockView) -> DocumentView {
        DocumentView { blocks: self.blocks.push(block), ..self }
    }

    /// The document with one more paragraph at its end.
    pub open spec fn with_paragraph(self, paragraph: ParagraphView) -> DocumentView {
        self.with_block(BlockView::Paragraph(paragraph))
    }

    /// The document with one more numbering style.
    pub open spec fn with_abstract_numbering(self, style: AbstractNumberingView) -> DocumentView {
        DocumentView { abstract_numberings: self.abstract_numberings.push(style), ..self }
    }

    /// The document with one more binding of a numbering id.
    pub open spec fn with_numbering(self, numbering: Numbering) -> DocumentView {
        DocumentView { numberings: self.numberings.push(numbering), ..self }
    }
}

impl Document {
    /// A document without blocks and without numbering styles.
    pub fn new() -> (document: Self)
        ensures
            document@ == DocumentView::empty(),
    {
        let document = Document {
            blocks: Vec::new(),
            abstract_numberings: Vec::new(),
            numberings: Vec::new(),
        };
        proof {
            lemma_views_empty::<Block>();
            lemma_views_empty::<AbstractNumbering>();
        }
        document
    }

    /// The document with one more block at its end.
    pub fn add_block(self, block: Block) -> (document: Self)
        ensures
            document@ == self@.with_block(block@),
    {
        let mut document = self;
        proof {
            lemma_views_push(document.blocks@, block);
        }
        document.blocks.push(block);
        document
    }

    /// The document with one more paragraph at its end.
    pub fn add_paragraph(self, paragraph: Paragraph) -> (document: Self)
        ensures
            document@ == self@.with_paragraph(paragraph@),
    {
        self.add_block(Block::Paragraph(paragraph))
    }

    /// The document with one more numbering style.
    pub fn add_abstract_numbering(self, style: AbstractNumbering) -> (document: Self)
        ensures
            document@ == self@.with_abstract_numbering(style@),
    {
        let mut document = self;
        proof {
            lemma_views_push(document.abstract_numberings@, style);
        }
        document.abstract_numberings.push(style);
        document
    }

    /// The document with one more binding of a numbering id.
    pub fn add_numbering(self, numbering: Numbering) -> (document: Self)
        ensures
            document@ == self@.with_numbering(numbering),
    {
        let mut document = self;
        document.numberings.push(numbering);
        document
    }
}

} // verus!
