//! The conversion as a whole: the metadata of a document, its text and the
//! two passes over its tree.

use vstd::prelude::*;
use crate::diagnostics::Diagnostic;
use crate::document::{views, Document, DocumentView, Numbering};
use crate::emitter::{
    bullet_style,
    numbered_style,
    span_depth,
    with_metadata,
    with_numbering_styles,
    Emitter,
    EmitterState,
    ImageFile,
};
use crate::image_reference_collector::{ImageReferenceCollector, ReferenceMap};
use crate::node::Node;
use crate::references::{is_token, key_of, lemma_figure_reference_resolves};
use crate::text::{decimal, normalized};
use crate::traverser::MarkdownNodeTraverser;

verus! {

/// The resolution that images are taken to have, in pixels per inch.
pub const PPI: u32 = 220;

/// The number of English Metric Units in one inch.
pub const EMUS_PER_INCH: u32 = 914_400;

/// What the front matter of a document says of it.
#[derive(Debug, Clone, PartialEq, Eq)]
pub struct Metadata {
    pub title: Option<String>,
    pub author: Option<String>,
    pub affiliation: Option<String>,
}

/// The model of a [`Metadata`].
pub struct MetadataView {
    pub title: Option<Seq<char>>,
    pub author: Option<Seq<char>>,
    pub affiliation: Option<Seq<char>>,
}

impl View for Metadata {
    type V = MetadataView;

    open spec fn view(&self) -> MetadataView {
        MetadataView {
            title: self.title.deep_view(),
            author: self.author.deep_view(),
            affiliation: self.affiliation.deep_view(),
        }
    }
}

/// The model of an optional [`Metadata`].
pub open spec fn metadata_view(metadata: Option<Metadata>) -> Option<MetadataView> {
    match metadata {
        Some(m) => Some(m@),
        None => None,
    }
}

/// A document as its front matter splits it: the metadata, and the text that
/// follows the front matter.
#[derive(Debug, Clone, PartialEq, Eq)]
pub struct FrontMatter {
    pub metadata: Metadata,
    pub content: String,
}

/// Why a conversion made no document.
#[derive(Debug, Clone, Copy, PartialEq, Eq, Structural)]
pub enum ConversionError {
    /// The text of the document could not be made into a tree.
    MalformedSource,
    /// The tree holds more nodes, or spans nested deeper, than the counters
    /// of the passes can count.
    TreeTooLarge,
}

/// The model of a [`Parser`].
pub struct ParserState {
    pub metadata: Option<MetadataView>,
    pub content: Seq<char>,
    pub emitter: EmitterState,
}

impl ParserState {
    /// Whether the counters of the two passes have room for `tree`: the
    /// first pass counts no more figures and tables than the tree has nodes,
    /// the second has as many spans open as they are nested.
    pub open spec fn fits(self, tree: Node) -> bool {
        &&& tree.node_count() < usize::MAX
        &&& self.emitter.bold + span_depth(tree, true) <= u32::MAX
        &&& self.emitter.italic + span_depth(tree, false) <= u32::MAX
    }

    /// What the first pass collects of `tree`. It starts from nothing, so
    /// that figures and tables are numbered from 1.
    pub open spec fn references(tree: Node) -> ReferenceMap {
        ReferenceMap::empty().collect(tree)
    }

    /// The state that the second pass starts from: it knows all that the
    /// first has collected, and has noted nothing yet.
    pub open spec fn started(self, tree: Node) -> EmitterState {
        EmitterState { references: Self::references(tree), reports: Seq::empty(), ..self.emitter }
    }

    /// The document that the second pass starts from: the numbering styles,
    /// then the title block.
    pub open spec fn preamble(self) -> DocumentView {
        with_metadata(with_numbering_styles(DocumentView::empty()), self.metadata)
    }

    /// The state, and the document, after the conversion of `tree`: the
    /// first pass walks the whole tree before the second starts, and the
    /// second resolves every reference against all that the first has
    /// collected.
    pub open spec fn converted(self, tree: Node) -> (ParserState, DocumentView) {
        let (emitter, document) = self.started(tree).emit(tree, self.preamble());
        (ParserState { emitter: emitter, ..self }, document)
    }

    /// A conversion leaves the nesting as it found it: as many strong spans,
    /// emphasis spans and lists are open after it as before. A parser that
    /// was just made has none of them open, so none is open after any of
    /// its conversions.
    pub proof fn lemma_converted_balanced(self, tree: Node)
        ensures
            self.converted(tree).0.emitter.bold == self.emitter.bold,
            self.converted(tree).0.emitter.italic == self.emitter.italic,
            self.converted(tree).0.emitter.lists == self.emitter.lists,
            self.converted(tree).0.emitter.references == Self::references(tree),
            self.converted(tree).0.metadata == self.metadata,
            self.converted(tree).0.content == self.content,
    {
        self.started(tree).lemma_emit_balanced(
            tree,
            self.preamble(),
        );
    }

    /// The numbering styles are declared once, before any block: a converted
    /// document holds the two styles and their two bindings and no others,
    /// and its blocks start with the title block.
    pub proof fn lemma_converted_preamble(self, tree: Node)
        ensures
            self.converted(tree).1.abstract_numberings == seq![bullet_style(), numbered_style()],
            self.converted(tree).1.numberings == seq![
                Numbering { id: 1, abstract_id: 1 },
                Numbering { id: 2, abstract_id: 2 },
            ],
            with_metadata(DocumentView::empty(), self.metadata).blocks.is_prefix_of(
                self.converted(tree).1.blocks,
            ),
    {
        self.started(tree).lemma_emit_appends(
            tree,
            self.preamble(),
        );
    }

    /// A reference resolves to its figure wherever the two stand in the
    /// document: a text whose normal form is one placeholder, for a key that
    /// some image of `tree` carries where the first pass meets it, becomes
    /// the run "Figure N" in the conversion of `tree`, with N the number
    /// that the first pass has registered for the key, whether the text comes
    /// before the image or after it.
    pub proof fn lemma_reference_run(self, tree: Node, value: Seq<char>)
        requires
            tree.node_count() <= usize::MAX,
            is_token(normalized(value), 0, normalized(value).len() as int),
            ReferenceMap::meets_image(
                tree,
                key_of(normalized(value), 0, normalized(value).len() as int),
            ),
        ensures
            Self::references(tree).figures.contains_key(
                key_of(normalized(value), 0, normalized(value).len() as int),
            ),
            self.started(tree).text_run(
                value,
            ).text == "Figure "@ + decimal(
                Self::references(tree).figures[key_of(
                    normalized(value),
                    0,
                    normalized(value).len() as int,
                )] as nat,
            ),
    {
        lemma_figure_reference_resolves(ReferenceMap::empty(), tree, normalized(value));
    }
}

/// A document to convert, and the passes that convert it.
pub struct Parser {
    metadata: Option<Metadata>,
    content: String,
    emitter: Emitter,
}

impl View for Parser {
    type V = ParserState;

    closed spec fn view(&self) -> ParserState {
        ParserState {
            metadata: metadata_view(self.metadata),
            content: self.content@,
            emitter: self.emitter@,
        }
    }
}

impl Parser {
    /// A parser for the document `filedata`. Where the text starts with
    /// front matter, `front_matter` is what that holds and the text after
    /// it; where it does not, or the front matter is malformed, the whole of
    /// `filedata` is the text and there is no metadata.
    pub fn new(front_matter: Option<FrontMatter>, filedata: &str, base_path: Option<String>) -> (parser:
        Self)
        ensures
            parser@.metadata == (match front_matter {
                Some(f) => Some(f.metadata@),
                None => None,
            }),
            parser@.content == (match front_matter {
                Some(f) => f.content@,
                None => filedata@,
            }),
            parser@.emitter == EmitterState::initial(base_path.deep_view()),
    {
        match front_matter {
            Some(document) => Parser {
                metadata: Some(document.metadata),
                content: document.content,
                emitter: Emitter::new(base_path),
            },
            None => Parser {
                metadata: None,
                content: String::from_str(filedata),
                emitter: Emitter::new(base_path),
            },
        }
    }

    /// The text of the document, without its front matter.
    pub fn content(&self) -> (content: &String)
        ensures
            content@ == self@.content,
    {
        &self.content
    }

    /// The metadata of the document.
    pub fn metadata(&self) -> (metadata: &Option<Metadata>)
        ensures
            metadata_view(*metadata) == self@.metadata,
    {
        &self.metadata
    }

    /// The directory that image addresses are relative to.
    pub fn base_path(&self) -> (path: &Option<String>)
        ensures
            path.deep_view() == self@.emitter.base_path,
    {
        self.emitter.base_path()
    }

    /// What the first pass of the last conversion has met and gone on
    /// from: duplicate keys and malformed metadata.
    pub fn first_pass_diagnostics(&self) -> (reports: &Vec<Diagnostic>)
        ensures
            views(reports@) == self@.emitter.references.reports,
    {
        self.emitter.references().diagnostics()
    }

    /// What the second pass of the last conversion has met and gone on
    /// from: placeholders left as written and list items outside any list.
    pub fn second_pass_diagnostics(&self) -> (reports: &Vec<Diagnostic>)
        ensures
            views(reports@) == self@.emitter.reports,
    {
        self.emitter.diagnostics()
    }

    /// Hands the parser the image files that exist under the base directory.
    pub fn set_image_files(&mut self, files: Vec<ImageFile>)
        ensures
            final(self)@ == (ParserState {
                emitter: EmitterState { files: views(files@), ..old(self)@.emitter },
                ..old(self)@
            }),
    {
        self.emitter.set_image_files(files);
    }

    /// Converts the document. `ast` is the tree that was made of its text,
    /// or `None` where the text could not be made into one. The document
    /// starts with the numbering styles and the title block; the blocks of
    /// the tree follow.
    pub fn parse_to_docx(&mut self, ast: Option<&Node>) -> (result: Result<Document, ConversionError>)
        ensures
            match result {
                Ok(document) => {
                    &&& ast matches Some(tree)
                    &&& old(self)@.fits(*tree)
                    &&& (final(self)@, document@) == old(self)@.converted(*tree)
                    &&& final(self)@.emitter.bold == old(self)@.emitter.bold
                    &&& final(self)@.emitter.italic == old(self)@.emitter.italic
                    &&& final(self)@.emitter.lists == old(self)@.emitter.lists
                },
                Err(ConversionError::MalformedSource) => ast is None && final(self)@ == old(self)@,
                Err(ConversionError::TreeTooLarge) => {
                    &&& ast matches Some(tree)
                    &&& !old(self)@.fits(*tree)
                    &&& final(self)@ == old(self)@
                },
            },
    {
        let tree = match ast {
            Some(tree) => tree,
            None => {
                return Err(ConversionError::MalformedSource);
            },
        };
        let nodes = match tree.count_nodes() {
            Some(nodes) => nodes,
            None => {
                return Err(ConversionError::TreeTooLarge);
            },
        };
        if nodes == usize::MAX || !self.emitter.spans_fit(tree) {
            return Err(ConversionError::TreeTooLarge);
        }
        let mut collector = ImageReferenceCollector::new();
        collector.process_node(tree, ());
        proof {
            ReferenceMap::empty().lemma_collect(*tree);
        }
        self.emitter.set_image_refernces(collector);
        self.emitter.clear_diagnostics();
        let docx = Document::new();
        let docx = self.emitter.initialize_numbering(docx);
        let docx = self.emitter.add_document_metadata(&self.metadata, docx);
        proof {
            self@.emitter.lemma_emit_balanced(*tree, docx@);
        }
        let docx = self.emitter.process_node(tree, docx);
        Ok(docx)
    }
}

} // verus!
