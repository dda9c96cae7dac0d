//! The first pass: it numbers the figures and tables of a document, so that
//! the second pass can resolve references to them wherever they stand.

use vstd::prelude::*;
use vstd::hash_map::StringHashMap;
use crate::diagnostics::{Diagnostic, DiagnosticView};
use crate::document::{lemma_views_empty, lemma_views_push, views};
use crate::json::{json_member, member_shape, read_member, JsonMember, MemberShape};
use crate::metadata::{TableMetadata, TableMetadataView};
use crate::node::Node;
use crate::text::{append_decimal, append_str, decimal, string_of};
use crate::traverser::MarkdownNodeTraverser;

verus! {

/// The inline metadata of an image, held by its alternate text.
#[derive(Debug, Clone, PartialEq, Eq)]
pub struct ImageModifiers {
    /// The factor by which the image is scaled, as a decimal numeral.
    pub scale: String,
    /// The key under which the image can be referred to.
    pub reference: Option<String>,
}

/// The model of an [`ImageModifiers`].
pub struct ImageModifiersView {
    pub scale: Seq<char>,
    pub reference: Option<Seq<char>>,
}

impl View for ImageModifiers {
    type V = ImageModifiersView;

    open spec fn view(&self) -> ImageModifiersView {
        ImageModifiersView { scale: self.scale@, reference: self.reference.deep_view() }
    }
}

impl ImageModifiers {
    /// The modifiers of an image that states none: full size, no key.
    pub open spec fn default_view() -> ImageModifiersView {
        ImageModifiersView { scale: "1.0"@, reference: None }
    }

    /// Whether a `scale` member is well formed: absent, or a number.
    pub open spec fn scale_allowed(scale: MemberShape) -> bool {
        scale is Absent || scale is Number
    }

    /// Whether a `ref` member is well formed: absent, `null`, or a string.
    pub open spec fn reference_allowed(reference: MemberShape) -> bool {
        reference is Absent || reference is Null || reference is Text
    }

    /// The modifiers that the two members make. Where the text is no JSON
    /// object, or either member is malformed, they are the default ones.
    pub open spec fn decoded(
        scale: Option<MemberShape>,
        reference: Option<MemberShape>,
    ) -> ImageModifiersView {
        match (scale, reference) {
            (Some(s), Some(r)) => if Self::scale_allowed(s) && Self::reference_allowed(r) {
                ImageModifiersView {
                    scale: match s {
                        MemberShape::Number(n) => n,
                        _ => "1.0"@,
                    },
                    reference: match r {
                        MemberShape::Text(k) => Some(k),
                        _ => None,
                    },
                }
            } else {
                Self::default_view()
            },
            _ => Self::default_view(),
        }
    }

    /// Whether the two members are those of a JSON object that holds no
    /// well-formed modifiers.
    pub open spec fn malformed(scale: Option<MemberShape>, reference: Option<MemberShape>) -> bool {
        match (scale, reference) {
            (Some(s), Some(r)) => !(Self::scale_allowed(s) && Self::reference_allowed(r)),
            _ => false,
        }
    }

    /// Whether an alternate text is a JSON object that holds no well-formed
    /// modifiers. A text that is no JSON object states no modifiers and is
    /// not malformed.
    pub open spec fn alt_malformed(alt: Seq<char>) -> bool {
        Self::malformed(json_member(alt, "scale"@), json_member(alt, "ref"@))
    }

    /// The modifiers that an alternate text holds: those of its members
    /// `scale` and `ref`.
    pub open spec fn of_alt(alt: Seq<char>) -> ImageModifiersView {
        Self::decoded(json_member(alt, "scale"@), json_member(alt, "ref"@))
    }

    /// Makes the modifiers of the two members as read.
    pub fn from_members(scale: Option<JsonMember>, reference: Option<JsonMember>) -> (modifiers:
        ImageModifiers)
        ensures
            modifiers@ == Self::decoded(member_shape(scale), member_shape(reference)),
    {
        let (scale, reference) = match (scale, reference) {
            (Some(s), Some(r)) => (s, r),
            _ => {
                return ImageModifiers::default();
            },
        };
        let factor = match scale {
            JsonMember::Absent => String::from_str("1.0"),
            JsonMember::Number(n) => n,
            _ => {
                return ImageModifiers::default();
            },
        };
        let key = match reference {
            JsonMember::Absent => None,
            JsonMember::Null => None,
            JsonMember::Text(k) => Some(k),
            _ => {
                return ImageModifiers::default();
            },
        };
        ImageModifiers { scale: factor, reference: key }
    }

    /// Whether the two members as read are those of a JSON object that holds
    /// no well-formed modifiers.
    pub fn members_malformed(scale: &Option<JsonMember>, reference: &Option<JsonMember>) -> (bad:
        bool)
        ensures
            bad == Self::malformed(member_shape(*scale), member_shape(*reference)),
    {
        match (scale, reference) {
            (Some(s), Some(r)) => {
                let scale_allowed = match s {
                    JsonMember::Absent => true,
                    JsonMember::Number(_) => true,
                    _ => false,
                };
                let reference_allowed = match r {
                    JsonMember::Absent => true,
                    JsonMember::Null => true,
                    JsonMember::Text(_) => true,
                    _ => false,
                };
                !(scale_allowed && reference_allowed)
            },
            _ => false,
        }
    }

    /// Decodes the modifiers that an alternate text holds.
    pub fn decode(alt: &str) -> (modifiers: ImageModifiers)
        ensures
            modifiers@ == Self::of_alt(alt@),
    {
        Self::decode_noting(alt).0
    }

    /// Decodes the modifiers that an alternate text holds, and says whether
    /// the text is a JSON object that holds no well-formed modifiers.
    pub fn decode_noting(alt: &str) -> (decoded: (ImageModifiers, bool))
        ensures
            decoded.0@ == Self::of_alt(alt@),
            decoded.1 == Self::alt_malformed(alt@),
    {
        let scale = read_member(alt, "scale");
        let reference = read_member(alt, "ref");
        let bad = Self::members_malformed(&scale, &reference);
        (Self::from_members(scale, reference), bad)
    }
}

impl Default for ImageModifiers {
    fn default() -> (modifiers: Self)
        ensures
            modifiers@ == ImageModifiers::default_view(),
    {
        ImageModifiers { scale: String::from_str("1.0"), reference: None }
    }
}

/// The model of what the first pass has collected: two independent
/// namespaces, figures and tables, each with the counter that numbers it,
/// and what the pass has met and gone on from, in the order it met it.
pub struct ReferenceMap {
    pub image_count: nat,
    pub figures: Map<Seq<char>, usize>,
    pub table_count: nat,
    pub tables: Map<Seq<char>, usize>,
    pub reports: Seq<DiagnosticView>,
}

impl ReferenceMap {
    /// Nothing collected yet.
    pub open spec fn empty() -> ReferenceMap {
        ReferenceMap {
            image_count: 0,
            figures: Map::empty(),
            table_count: 0,
            tables: Map::empty(),
            reports: Seq::empty(),
        }
    }

    /// The map with one more event noted.
    pub open spec fn reported(self, event: DiagnosticView) -> ReferenceMap {
        ReferenceMap { reports: self.reports.push(event), ..self }
    }

    /// Every number was handed out by its counter: it is positive and not
    /// above the counter, and a namespace holds no more keys than its counter
    /// has counted. The counters fit a `usize`.
    pub open spec fn wf(self) -> bool {
        &&& self.image_count <= usize::MAX
        &&& self.table_count <= usize::MAX
        &&& self.figures.dom().finite()
        &&& self.tables.dom().finite()
        &&& self.figures.len() <= self.image_count
        &&& forall|k: Seq<char>| #[trigger]
            self.figures.contains_key(k) ==> 1 <= self.figures[k] <= self.image_count
        &&& forall|k: Seq<char>| #[trigger]
            self.tables.contains_key(k) ==> 1 <= self.tables[k] <= self.table_count
    }

    /// Every key of `before` is a key of `after`, with the number it had.
    pub open spec fn keeps(before: Map<Seq<char>, usize>, after: Map<Seq<char>, usize>) -> bool {
        forall|k: Seq<char>| #[trigger]
            before.contains_key(k) ==> after.contains_key(k) && after[k] == before[k]
    }

    /// The phrase that stands for a reference to `key`: the figure namespace
    /// is asked first, then the table namespace.
    pub open spec fn label(self, key: Seq<char>) -> Option<Seq<char>> {
        if self.figures.contains_key(key) {
            Some("Figure "@ + decimal(self.figures[key] as nat))
        } else if self.tables.contains_key(key) {
            Some("Table "@ + decimal(self.tables[key] as nat))
        } else {
            None
        }
    }

    /// The map after an image with this key, if any, was met. An image with a
    /// key takes the next figure number, also where its key is known already;
    /// a known key keeps the number it has, and the duplicate is noted.
    pub open spec fn with_image(self, reference: Option<Seq<char>>) -> ReferenceMap {
        match reference {
            None => self,
            Some(key) => if self.figures.contains_key(key) {
                ReferenceMap {
                    image_count: self.image_count + 1,
                    ..self.reported(DiagnosticView::DuplicateReferenceKey { key: key })
                }
            } else {
                ReferenceMap {
                    image_count: self.image_count + 1,
                    figures: self.figures.insert(key, (self.image_count + 1) as usize),
                    ..self
                }
            },
        }
    }

    /// The map after an image with this alternate text was met: malformed
    /// modifiers are noted, then the image is taken with the key that its
    /// modifiers give it.
    pub open spec fn with_image_alt(self, alt: Seq<char>) -> ReferenceMap {
        let noted = if ImageModifiers::alt_malformed(alt) {
            self.reported(DiagnosticView::MalformedInlineMetadata { text: alt })
        } else {
            self
        };
        noted.with_image(ImageModifiers::of_alt(alt).reference)
    }

    /// The map after a table was entered: every table takes the next table
    /// number.
    pub open spec fn with_table(self) -> ReferenceMap {
        ReferenceMap { table_count: self.table_count + 1, ..self }
    }

    /// The map after a cell of the current table with this metadata, if any,
    /// was met. A known key keeps the number it has, and the duplicate is
    /// noted.
    pub open spec fn with_cell(self, metadata: Option<TableMetadataView>) -> ReferenceMap {
        match metadata {
            None => self,
            Some(m) => if self.tables.contains_key(m.reference) {
                self.reported(DiagnosticView::DuplicateReferenceKey { key: m.reference })
            } else {
                ReferenceMap {
                    tables: self.tables.insert(m.reference, self.table_count as usize),
                    ..self
                }
            },
        }
    }

    /// The map after a cell of the current table whose first child is this
    /// text was met: malformed metadata is noted, then the cell is taken
    /// with the metadata that the text holds.
    pub open spec fn with_cell_text(self, text: Seq<char>) -> ReferenceMap {
        let noted = if TableMetadata::text_malformed(text) {
            self.reported(DiagnosticView::MalformedInlineMetadata { text: text })
        } else {
            self
        };
        noted.with_cell(TableMetadata::of_text(text))
    }

    /// The text in which a table cell may carry metadata: its first child,
    /// where that is a text.
    pub open spec fn cell_text(cell: Node) -> Option<Seq<char>> {
        match cell {
            Node::TableCell(content) => if content@.len() > 0 {
                match content@[0] {
                    Node::Text(value) => Some(value@),
                    _ => None,
                }
            } else {
                None
            },
            _ => None,
        }
    }

    /// The map after the cells of one row of the current table, in order.
    pub open spec fn with_cells(self, cells: Seq<Node>) -> ReferenceMap
        decreases cells.len(),
    {
        if cells.len() == 0 {
            self
        } else {
            let before = self.with_cells(cells.drop_last());
            match Self::cell_text(cells.last()) {
                Some(text) => before.with_cell_text(text),
                None => before,
            }
        }
    }

    /// The map after the rows of the current table, in order. A child of the
    /// table that is no row is passed over.
    pub open spec fn with_rows(self, rows: Seq<Node>) -> ReferenceMap
        decreases rows.len(),
    {
        if rows.len() == 0 {
            self
        } else {
            let before = self.with_rows(rows.drop_last());
            match rows.last() {
                Node::TableRow(cells) => before.with_cells(cells@),
                _ => before,
            }
        }
    }

    /// The map after the first pass over `node`.
    pub open spec fn collect(self, node: Node) -> ReferenceMap
        decreases node,
    {
        match node {
            Node::Image { alt, .. } => self.with_image_alt(alt@),
            Node::Table(rows) => self.with_table().with_rows(rows@),
            Node::Root(children) => self.collect_all(children@),
            Node::Paragraph(children) => self.collect_all(children@),
            Node::Heading { children, .. } => self.collect_all(children@),
            Node::Strong(children) => self.collect_all(children@),
            Node::Emphasis(children) => self.collect_all(children@),
            Node::List { children, .. } => self.collect_all(children@),
            Node::ListItem { children, .. } => self.collect_all(children@),
            Node::TableRow(children) => self.collect_all(children@),
            Node::Container { children, .. } => self.collect_all(children@),
            Node::TableCell(_) => self,
            Node::Text(_) => self,
            Node::Leaf(_) => self,
        }
    }

    /// The map after the first pass over `nodes`, in order.
    pub open spec fn collect_all(self, nodes: Seq<Node>) -> ReferenceMap
        decreases nodes,
    {
        if nodes.len() == 0 {
            self
        } else {
            self.collect_all(nodes.drop_last()).collect(nodes.last())
        }
    }
}

impl ReferenceMap {
    /// The first pass only adds: it keeps the map well formed, moves each
    /// counter up by no more than the number of nodes it walks, and leaves
    /// every key that was known with the number it had.
    pub proof fn lemma_collect(self, node: Node)
        requires
            self.wf(),
            self.image_count + node.node_count() <= usize::MAX,
            self.table_count + node.node_count() <= usize::MAX,
        ensures
            self.collect(node).wf(),
            self.image_count <= self.collect(node).image_count <= self.image_count
                + node.node_count(),
            self.table_count <= self.collect(node).table_count <= self.table_count
                + node.node_count(),
            Self::keeps(self.figures, self.collect(node).figures),
            Self::keeps(self.tables, self.collect(node).tables),
        decreases node,
    {
        match node {
            Node::Image { .. } => {},
            Node::Table(rows) => {
                self.with_table().lemma_with_rows(rows@);
            },
            Node::Root(children) => {
                self.lemma_collect_all(children@);
            },
            Node::Paragraph(children) => {
                self.lemma_collect_all(children@);
            },
            Node::Heading { children, .. } => {
                self.lemma_collect_all(children@);
            },
            Node::Strong(children) => {
                self.lemma_collect_all(children@);
            },
            Node::Emphasis(children) => {
                self.lemma_collect_all(children@);
            },
            Node::List { children, .. } => {
                self.lemma_collect_all(children@);
            },
            Node::ListItem { children, .. } => {
                self.lemma_collect_all(children@);
            },
            Node::TableRow(children) => {
                self.lemma_collect_all(children@);
            },
            Node::Container { children, .. } => {
                self.lemma_collect_all(children@);
            },
            Node::TableCell(_) => {},
            Node::Text(_) => {},
            Node::Leaf(_) => {},
        }
    }

    /// [`Self::lemma_collect`], of a sequence of trees.
    pub proof fn lemma_collect_all(self, nodes: Seq<Node>)
        requires
            self.wf(),
            self.image_count + Node::node_count_of(nodes) <= usize::MAX,
            self.table_count + Node::node_count_of(nodes) <= usize::MAX,
        ensures
            self.collect_all(nodes).wf(),
            self.image_count <= self.collect_all(nodes).image_count <= self.image_count
                + Node::node_count_of(nodes),
            self.table_count <= self.collect_all(nodes).table_count <= self.table_count
                + Node::node_count_of(nodes),
            Self::keeps(self.figures, self.collect_all(nodes).figures),
            Self::keeps(self.tables, self.collect_all(nodes).tables),
        decreases nodes,
    {
        if nodes.len() > 0 {
            self.lemma_collect_all(nodes.drop_last());
            self.collect_all(nodes.drop_last()).lemma_collect(nodes.last());
        }
    }

    /// Meeting the cells of a row keeps the map well formed and every known
    /// key.
    pub proof fn lemma_with_cells(self, cells: Seq<Node>)
        requires
            self.wf(),
            self.table_count >= 1,
        ensures
            self.with_cells(cells).wf(),
            self.with_cells(cells).image_count == self.image_count,
            self.with_cells(cells).table_count == self.table_count,
            self.with_cells(cells).figures == self.figures,
            Self::keeps(self.tables, self.with_cells(cells).tables),
        decreases cells.len(),
    {
        if cells.len() > 0 {
            self.lemma_with_cells(cells.drop_last());
        }
    }

    /// Meeting the rows of a table keeps the map well formed and every known
    /// key.
    pub proof fn lemma_with_rows(self, rows: Seq<Node>)
        requires
            self.wf(),
            self.table_count >= 1,
        ensures
            self.with_rows(rows).wf(),
            self.with_rows(rows).image_count == self.image_count,
            self.with_rows(rows).table_count == self.table_count,
            self.with_rows(rows).figures == self.figures,
            Self::keeps(self.tables, self.with_rows(rows).tables),
        decreases rows.len(),
    {
        if rows.len() > 0 {
            self.lemma_with_rows(rows.drop_last());
            match rows.last() {
                Node::TableRow(cells) => {
                    self.with_rows(rows.drop_last()).lemma_with_cells(cells@);
                },
                _ => {},
            }
        }
    }
}

impl ReferenceMap {
    /// Whether the first pass meets, in `node`, an image with this key.
    pub open spec fn meets_image(node: Node, key: Seq<char>) -> bool
        decreases node,
    {
        match node {
            Node::Image { alt, .. } => ImageModifiers::of_alt(alt@).reference == Some(key),
            Node::Root(children) => Self::meets_image_in(children@, key),
            Node::Paragraph(children) => Self::meets_image_in(children@, key),
            Node::Heading { children, .. } => Self::meets_image_in(children@, key),
            Node::Strong(children) => Self::meets_image_in(children@, key),
            Node::Emphasis(children) => Self::meets_image_in(children@, key),
            Node::List { children, .. } => Self::meets_image_in(children@, key),
            Node::ListItem { children, .. } => Self::meets_image_in(children@, key),
            Node::TableRow(children) => Self::meets_image_in(children@, key),
            Node::Container { children, .. } => Self::meets_image_in(children@, key),
            Node::Table(_) => false,
            Node::TableCell(_) => false,
            Node::Text(_) => false,
            Node::Leaf(_) => false,
        }
    }

    /// Whether the first pass meets, in one of `nodes`, an image with this
    /// key.
    pub open spec fn meets_image_in(nodes: Seq<Node>, key: Seq<char>) -> bool
        decreases nodes,
    {
        if nodes.len() == 0 {
            false
        } else {
            Self::meets_image_in(nodes.drop_last(), key) || Self::meets_image(nodes.last(), key)
        }
    }

    /// The first image with a key gets the next figure number, and the key
    /// is registered with it.
    pub proof fn lemma_new_key_numbered(self, key: Seq<char>)
        requires
            self.wf(),
            self.image_count < usize::MAX,
            !self.figures.contains_key(key),
        ensures
            self.with_image(Some(key)).figures.contains_key(key),
            self.with_image(Some(key)).figures[key] == self.image_count + 1,
    {
    }

    /// A second image with a key that is known already is not registered:
    /// the figure namespace stays as it is, and the key keeps the number of
    /// the first image. The image still takes a figure number.
    pub proof fn lemma_known_key_kept(self, key: Seq<char>)
        requires
            self.figures.contains_key(key),
        ensures
            self.with_image(Some(key)).figures == self.figures,
            self.with_image(Some(key)).tables == self.tables,
            self.with_image(Some(key)).image_count == self.image_count + 1,
    {
    }

    /// After the first pass the figure namespace knows the key of every
    /// image that the pass has met.
    pub proof fn lemma_met_image_registered(self, node: Node, key: Seq<char>)
        requires
            self.wf(),
            self.image_count + node.node_count() <= usize::MAX,
            self.table_count + node.node_count() <= usize::MAX,
            Self::meets_image(node, key),
        ensures
            self.collect(node).figures.contains_key(key),
        decreases node,
    {
        match node {
            Node::Image { .. } => {},
            Node::Root(children) => {
                self.lemma_met_image_registered_in(children@, key);
            },
            Node::Paragraph(children) => {
                self.lemma_met_image_registered_in(children@, key);
            },
            Node::Heading { children, .. } => {
                self.lemma_met_image_registered_in(children@, key);
            },
            Node::Strong(children) => {
                self.lemma_met_image_registered_in(children@, key);
            },
            Node::Emphasis(children) => {
                self.lemma_met_image_registered_in(children@, key);
            },
            Node::List { children, .. } => {
                self.lemma_met_image_registered_in(children@, key);
            },
            Node::ListItem { children, .. } => {
                self.lemma_met_image_registered_in(children@, key);
            },
            Node::TableRow(children) => {
                self.lemma_met_image_registered_in(children@, key);
            },
            Node::Container { children, .. } => {
                self.lemma_met_image_registered_in(children@, key);
            },
            Node::Table(_) => {},
            Node::TableCell(_) => {},
            Node::Text(_) => {},
            Node::Leaf(_) => {},
        }
    }

    /// [`Self::lemma_met_image_registered`], of a sequence of trees.
    pub proof fn lemma_met_image_registered_in(self, nodes: Seq<Node>, key: Seq<char>)
        requires
            self.wf(),
            self.image_count + Node::node_count_of(nodes) <= usize::MAX,
            self.table_count + Node::node_count_of(nodes) <= usize::MAX,
            Self::meets_image_in(nodes, key),
        ensures
            self.collect_all(nodes).figures.contains_key(key),
        decreases nodes,
    {
        if nodes.len() > 0 {
            let before = self.collect_all(nodes.drop_last());
            self.lemma_collect_all(nodes.drop_last());
            before.lemma_collect(nodes.last());
            if Self::meets_image(nodes.last(), key) {
                before.lemma_met_image_registered(nodes.last(), key);
            } else {
                self.lemma_met_image_registered_in(nodes.drop_last(), key);
            }
        }
    }
}

impl ReferenceMap {
    /// Whether the first pass meets neither an image nor a table in `node`.
    pub open spec fn bears_nothing(node: Node) -> bool
        decreases node,
    {
        match node {
            Node::Image { .. } => false,
            Node::Table(_) => false,
            Node::Root(children) => Self::bear_nothing(children@),
            Node::Paragraph(children) => Self::bear_nothing(children@),
            Node::Heading { children, .. } => Self::bear_nothing(children@),
            Node::Strong(children) => Self::bear_nothing(children@),
            Node::Emphasis(children) => Self::bear_nothing(children@),
            Node::List { children, .. } => Self::bear_nothing(children@),
            Node::ListItem { children, .. } => Self::bear_nothing(children@),
            Node::TableRow(children) => Self::bear_nothing(children@),
            Node::Container { children, .. } => Self::bear_nothing(children@),
            Node::TableCell(_) => true,
            Node::Text(_) => true,
            Node::Leaf(_) => true,
        }
    }

    /// Whether the first pass meets neither an image nor a table in any of
    /// `nodes`.
    pub open spec fn bear_nothing(nodes: Seq<Node>) -> bool
        decreases nodes,
    {
        if nodes.len() == 0 {
            true
        } else {
            Self::bear_nothing(nodes.drop_last()) && Self::bears_nothing(nodes.last())
        }
    }

    /// The first pass takes nothing from a node without image and table:
    /// running text changes neither a namespace nor a counter.
    pub proof fn lemma_collect_nothing(self, node: Node)
        requires
            Self::bears_nothing(node),
        ensures
            self.collect(node) == self,
        decreases node,
    {
        match node {
            Node::Root(children) => {
                self.lemma_collect_all_nothing(children@);
            },
            Node::Paragraph(children) => {
                self.lemma_collect_all_nothing(children@);
            },
            Node::Heading { children, .. } => {
                self.lemma_collect_all_nothing(children@);
            },
            Node::Strong(children) => {
                self.lemma_collect_all_nothing(children@);
            },
            Node::Emphasis(children) => {
                self.lemma_collect_all_nothing(children@);
            },
            Node::List { children, .. } => {
                self.lemma_collect_all_nothing(children@);
            },
            Node::ListItem { children, .. } => {
                self.lemma_collect_all_nothing(children@);
            },
            Node::TableRow(children) => {
                self.lemma_collect_all_nothing(children@);
            },
            Node::Container { children, .. } => {
                self.lemma_collect_all_nothing(children@);
            },
            Node::Image { .. } => {},
            Node::Table(_) => {},
            Node::TableCell(_) => {},
            Node::Text(_) => {},
            Node::Leaf(_) => {},
        }
    }

    /// [`Self::lemma_collect_nothing`], of a sequence of trees.
    pub proof fn lemma_collect_all_nothing(self, nodes: Seq<Node>)
        requires
            Self::bear_nothing(nodes),
        ensures
            self.collect_all(nodes) == self,
        decreases nodes,
    {
        if nodes.len() > 0 {
            self.lemma_collect_all_nothing(nodes.drop_last());
            self.lemma_collect_nothing(nodes.last());
        }
    }

    /// The first pass takes one sequence of trees after another as it takes
    /// the two in one.
    pub proof fn lemma_collect_all_concat(self, first: Seq<Node>, second: Seq<Node>)
        ensures
            self.collect_all(first + second) == self.collect_all(first).collect_all(second),
        decreases second.len(),
    {
        if second.len() == 0 {
            assert(first + second =~= first);
        } else {
            self.lemma_collect_all_concat(first, second.drop_last());
            assert((first + second).drop_last() =~= first + second.drop_last());
            assert((first + second).last() == second.last());
        }
    }

    /// Where a reference stands does not change the numbers: a node without
    /// image and table, such as a paragraph of text with a placeholder, can
    /// be moved from before some nodes to after them, and the first pass
    /// collects the same.
    pub proof fn lemma_moving_text_keeps_numbers(
        self,
        before: Seq<Node>,
        moved: Node,
        between: Seq<Node>,
        after: Seq<Node>,
    )
        requires
            Self::bears_nothing(moved),
        ensures
            self.collect_all(before + seq![moved] + between + after) == self.collect_all(
                before + between + seq![moved] + after,
            ),
            self.collect_all(before + seq![moved] + between + after) == self.collect_all(
                before + between + after,
            ),
    {
        let one = seq![moved];
        assert(one.drop_last() =~= Seq::<Node>::empty());
        assert(one.last() == moved);
        assert(Self::bear_nothing(one.drop_last()));
        assert(Self::bear_nothing(one));
        let here = self.collect_all(before);
        here.lemma_collect_all_nothing(one);
        let there = here.collect_all(between);
        there.lemma_collect_all_nothing(one);
        self.lemma_collect_all_concat(before, one);
        self.lemma_collect_all_concat(before + one, between);
        self.lemma_collect_all_concat(before + one + between, after);
        self.lemma_collect_all_concat(before, between);
        self.lemma_collect_all_concat(before + between, one);
        self.lemma_collect_all_concat(before + between + one, after);
        self.lemma_collect_all_concat(before + between, after);
    }
}

/// The first pass over a document tree, and what it has collected.
pub struct ImageReferenceCollector {
    image_count: usize,
    image_references: StringHashMap<usize>,
    table_count: usize,
    table_references: StringHashMap<usize>,
    reports: Vec<Diagnostic>,
}

impl View for ImageReferenceCollector {
    type V = ReferenceMap;

    closed spec fn view(&self) -> ReferenceMap {
        ReferenceMap {
            image_count: self.image_count as nat,
            figures: self.image_references@,
            table_count: self.table_count as nat,
            tables: self.table_references@,
            reports: views(self.reports@),
        }
    }
}

impl ImageReferenceCollector {
    /// A collector that has collected nothing.
    pub fn new() -> (collector: Self)
        ensures
            collector@ == ReferenceMap::empty(),
            collector@.wf(),
    {
        proof {
            lemma_views_empty::<Diagnostic>();
        }
        ImageReferenceCollector {
            image_count: 0,
            image_references: StringHashMap::new(),
            table_count: 0,
            table_references: StringHashMap::new(),
            reports: Vec::new(),
        }
    }

    /// What the pass has met and gone on from, in the order it met it.
    pub fn diagnostics(&self) -> (reports: &Vec<Diagnostic>)
        ensures
            views(reports@) == self@.reports,
    {
        &self.reports
    }

    /// Notes one more event.
    fn report(&mut self, event: Diagnostic)
        ensures
            final(self)@ == old(self)@.reported(event@),
    {
        proof {
            lemma_views_push(self.reports@, event);
        }
        self.reports.push(event);
    }

    /// The phrase that stands for a reference to `key`, "Figure N" or
    /// "Table N"; `None` where neither namespace knows the key.
    pub fn get(&self, key: &str) -> (label: Option<String>)
        ensures
            label.deep_view() == self@.label(key@),
    {
        if let Some(n) = self.image_references.get(key) {
            let mut out: Vec<char> = Vec::new();
            append_str(&mut out, "Figure ");
            append_decimal(&mut out, *n);
            Some(string_of(&out))
        } else if let Some(n) = self.table_references.get(key) {
            let mut out: Vec<char> = Vec::new();
            append_str(&mut out, "Table ");
            append_decimal(&mut out, *n);
            Some(string_of(&out))
        } else {
            None
        }
    }

    /// The number of the figure with this key; `None` where the figure
    /// namespace does not know it.
    pub fn figure_number(&self, key: &str) -> (number: Option<usize>)
        ensures
            number == if self@.figures.contains_key(key@) {
                Some(self@.figures[key@])
            } else {
                None
            },
    {
        match self.image_references.get(key) {
            Some(n) => Some(*n),
            None => None,
        }
    }

    /// Whether the counters have room for a tree of `nodes` nodes.
    pub fn has_room_for(&self, nodes: usize) -> (room: bool)
        ensures
            room == (self@.image_count + nodes <= usize::MAX && self@.table_count + nodes
                <= usize::MAX),
    {
        nodes <= usize::MAX - self.image_count && nodes <= usize::MAX - self.table_count
    }

    /// The number of keys in the figure namespace.
    pub fn figure_count(&self) -> (count: usize)
        ensures
            count == self@.figures.len(),
    {
        self.image_references.len()
    }

    /// Meets an image: where its alternate text gives it a key, the image
    /// takes the next figure number, and the key is registered with it
    /// unless it is known already. Malformed modifiers and a key that is
    /// known already are noted.
    pub fn visit_image(&mut self, url: &str, alt: &str, title: &Option<String>, output: ())
        requires
            old(self)@.wf(),
            old(self)@.image_count < usize::MAX,
        ensures
            final(self)@ == old(self)@.with_image_alt(alt@),
            final(self)@.wf(),
    {
        let (modifiers, malformed) = ImageModifiers::decode_noting(alt);
        if malformed {
            self.report(Diagnostic::MalformedInlineMetadata { text: String::from_str(alt) });
        }
        if let Some(reference) = modifiers.reference {
            self.image_count += 1;
            let figure_number = self.image_count;
            if self.image_references.contains_key(reference.as_str()) {
                self.report(Diagnostic::DuplicateReferenceKey { key: reference });
            } else {
                self.image_references.insert(reference, figure_number);
            }
        }
    }

    /// Meets a table: it takes the next table number, and each of its cells
    /// that carries metadata registers its key with that number, unless the
    /// key is known already. Malformed metadata and a key that is known
    /// already are noted.
    pub fn visit_table(&mut self, rows: &Vec<Node>, output: ())
        requires
            old(self)@.wf(),
            old(self)@.table_count < usize::MAX,
        ensures
            final(self)@ == old(self)@.with_table().with_rows(rows@),
            final(self)@.wf(),
    {
        self.table_count += 1;
        let ghost entered = self@;
        let mut i: usize = 0;
        while i < rows.len()
            invariant
                0 <= i <= rows.len(),
                entered.wf(),
                entered.table_count >= 1,
                self@ == entered.with_rows(rows@.take(i as int)),
            decreases rows.len() - i,
        {
            proof {
                assert(rows@.take(i + 1).drop_last() =~= rows@.take(i as int));
                entered.lemma_with_rows(rows@.take(i as int));
            }
            if let Node::TableRow(cells) = &rows[i] {
                self.visit_cells(cells);
            }
            i = i + 1;
        }
        proof {
            assert(rows@.take(rows.len() as int) =~= rows@);
            entered.lemma_with_rows(rows@);
        }
    }

    /// Meets the cells of one row of the current table.
    fn visit_cells(&mut self, cells: &Vec<Node>)
        requires
            old(self)@.wf(),
            old(self)@.table_count >= 1,
        ensures
            final(self)@ == old(self)@.with_cells(cells@),
    {
        let mut j: usize = 0;
        while j < cells.len()
            invariant
                0 <= j <= cells.len(),
                old(self)@.wf(),
                old(self)@.table_count >= 1,
                self@ == old(self)@.with_cells(cells@.take(j as int)),
            decreases cells.len() - j,
        {
            proof {
                assert(cells@.take(j + 1).drop_last() =~= cells@.take(j as int));
            }
            if let Node::TableCell(content) = &cells[j] {
                if content.len() > 0 {
                    if let Node::Text(value) = &content[0] {
                        let (decoded, malformed) = TableMetadata::decode_noting(value.as_str());
                        if malformed {
                            self.report(
                                Diagnostic::MalformedInlineMetadata { text: value.clone() },
                            );
                        }
                        if let Some(metadata) = decoded {
                            if self.table_references.contains_key(metadata.reference.as_str()) {
                                self.report(
                                    Diagnostic::DuplicateReferenceKey { key: metadata.reference },
                                );
                            } else {
                                self.table_references.insert(metadata.reference, self.table_count);
                            }
                        }
                    }
                }
            }
            j = j + 1;
        }
        proof {
            assert(cells@.take(cells.len() as int) =~= cells@);
        }
    }

    /// Walks the children of a node in order.
    pub fn visit_children(&mut self, children: &Vec<Node>, output: ())
        requires
            old(self)@.wf(),
            old(self)@.image_count + Node::node_count_of(children@) <= usize::MAX,
            old(self)@.table_count + Node::node_count_of(children@) <= usize::MAX,
        ensures
            final(self)@ == old(self)@.collect_all(children@),
            final(self)@.wf(),
        decreases children,
    {
        let mut i: usize = 0;
        while i < children.len()
            invariant
                0 <= i <= children.len(),
                old(self)@.wf(),
                old(self)@.image_count + Node::node_count_of(children@) <= usize::MAX,
                old(self)@.table_count + Node::node_count_of(children@) <= usize::MAX,
                self@ == old(self)@.collect_all(children@.take(i as int)),
            decreases children.len() - i,
        {
            proof {
                assert(children@.take(i + 1).drop_last() =~= children@.take(i as int));
                Node::lemma_node_count_step(children@, i as int);
                old(self)@.lemma_collect_all(children@.take(i as int));
            }
            self.dispatch(&children[i]);
            i = i + 1;
        }
        proof {
            assert(children@.take(children.len() as int) =~= children@);
            old(self)@.lemma_collect_all(children@);
        }
    }

    /// Hands a node to the handler of its kind.
    fn dispatch(&mut self, node: &Node)
        requires
            old(self)@.wf(),
            old(self)@.image_count + node.node_count() <= usize::MAX,
            old(self)@.table_count + node.node_count() <= usize::MAX,
        ensures
            final(self)@ == old(self)@.collect(*node),
            final(self)@.wf(),
        decreases node,
    {
        match node {
            Node::Image { url, alt, title } => self.visit_image(
                url.as_str(),
                alt.as_str(),
                title,
                (),
            ),
            Node::Table(rows) => self.visit_table(rows, ()),
            Node::Root(children) => self.visit_children(children, ()),
            Node::Paragraph(children) => self.visit_children(children, ()),
            Node::Heading { children, .. } => self.visit_children(children, ()),
            Node::Strong(children) => self.visit_children(children, ()),
            Node::Emphasis(children) => self.visit_children(children, ()),
            Node::List { children, .. } => self.visit_children(children, ()),
            Node::ListItem { children, .. } => self.visit_children(children, ()),
            Node::TableRow(children) => self.visit_children(children, ()),
            Node::Container { children, .. } => self.visit_children(children, ()),
            Node::TableCell(_) => {},
            Node::Text(_) => {},
            Node::Leaf(_) => {},
        }
    }
}

impl Default for ImageReferenceCollector {
    fn default() -> (collector: Self)
        ensures
            collector@ == ReferenceMap::empty(),
    {
        ImageReferenceCollector::new()
    }
}

impl MarkdownNodeTraverser for ImageReferenceCollector {
    type Output = ();

    open spec fn admits(state: ReferenceMap, node: Node) -> bool {
        &&& state.wf()
        &&& state.image_count + node.node_count() <= usize::MAX
        &&& state.table_count + node.node_count() <= usize::MAX
    }

    open spec fn traversed(state: ReferenceMap, node: Node, output: ()) -> (ReferenceMap, ()) {
        (state.collect(node), ())
    }

    fn process_node(&mut self, node: &Node, output: ()) -> (result: ())
        ensures
            final(self)@.wf(),
    {
        self.dispatch(node)
    }

    fn process_child(&mut self, node: &Node, result: ()) -> (output: ())
        ensures
            final(self)@.wf(),
    {
        self.dispatch(node)
    }
}

} // verus!
