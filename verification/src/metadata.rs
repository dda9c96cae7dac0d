//! Small pieces of state and inline metadata: table captions, nesting
//! counters and list kinds.

use vstd::prelude::*;
use crate::image_reference_collector::ImageReferenceCollector;
use crate::json::{json_member, member_shape, read_member, JsonMember, MemberShape};
use crate::text::{append_str, string_of};

verus! {

/// The inline metadata of a table, held by the first text of one of its cells.
#[derive(Debug, Clone, PartialEq, Eq)]
pub struct TableMetadata {
    pub caption: String,
    pub reference: String,
}

/// The model of a [`TableMetadata`].
pub struct TableMetadataView {
    pub caption: Seq<char>,
    pub reference: Seq<char>,
}

impl View for TableMetadata {
    type V = TableMetadataView;

    open spec fn view(&self) -> TableMetadataView {
        TableMetadataView { caption: self.caption@, reference: self.reference@ }
    }
}

/// The model of an optional [`TableMetadata`].
pub open spec fn table_metadata_view(metadata: Option<TableMetadata>) -> Option<
    TableMetadataView,
> {
    match metadata {
        Some(m) => Some(m@),
        None => None,
    }
}

impl TableMetadata {
    /// The metadata that the two members make: both have to be strings.
    pub open spec fn decoded(
        caption: Option<MemberShape>,
        reference: Option<MemberShape>,
    ) -> Option<TableMetadataView> {
        match (caption, reference) {
            (Some(MemberShape::Text(c)), Some(MemberShape::Text(r))) => Some(
                TableMetadataView { caption: c, reference: r },
            ),
            _ => None,
        }
    }

    /// The metadata that a cell's text holds: that of its members `caption`
    /// and `ref`.
    pub open spec fn of_text(text: Seq<char>) -> Option<TableMetadataView> {
        Self::decoded(json_member(text, "caption"@), json_member(text, "ref"@))
    }

    /// Whether the two members are those of a JSON object that is no table
    /// metadata: one of them is no string.
    pub open spec fn malformed(
        caption: Option<MemberShape>,
        reference: Option<MemberShape>,
    ) -> bool {
        match (caption, reference) {
            (Some(c), Some(r)) => !(c is Text && r is Text),
            _ => false,
        }
    }

    /// Whether a cell's text is a JSON object that is no table metadata.
    pub open spec fn text_malformed(text: Seq<char>) -> bool {
        Self::malformed(json_member(text, "caption"@), json_member(text, "ref"@))
    }

    /// The caption line of the table: its label and the caption, or a label
    /// with question marks where the reference is unknown.
    pub open spec fn caption_line(
        metadata: TableMetadataView,
        label: Option<Seq<char>>,
    ) -> Seq<char> {
        match label {
            Some(l) => l + ": "@ + metadata.caption,
            None => "Table ??: "@ + metadata.caption,
        }
    }

    /// Makes the metadata of the two members as read; `None` unless both are
    /// strings.
    pub fn from_members(caption: Option<JsonMember>, reference: Option<JsonMember>) -> (metadata:
        Option<TableMetadata>)
        ensures
            table_metadata_view(metadata) == Self::decoded(
                member_shape(caption),
                member_shape(reference),
            ),
    {
        match caption {
            Some(JsonMember::Text(c)) => match reference {
                Some(JsonMember::Text(r)) => Some(TableMetadata { caption: c, reference: r }),
                _ => None,
            },
            _ => None,
        }
    }

    /// Whether the two members as read are those of a JSON object that is no
    /// table metadata.
    pub fn members_malformed(caption: &Option<JsonMember>, reference: &Option<JsonMember>) -> (bad:
        bool)
        ensures
            bad == Self::malformed(member_shape(*caption), member_shape(*reference)),
    {
        match (caption, reference) {
            (Some(c), Some(r)) => match (c, r) {
                (JsonMember::Text(_), JsonMember::Text(_)) => false,
                _ => true,
            },
            _ => false,
        }
    }

    /// Decodes the metadata that a cell's text holds, if it holds any.
    pub fn decode(text: &str) -> (metadata: Option<TableMetadata>)
        ensures
            table_metadata_view(metadata) == Self::of_text(text@),
    {
        Self::decode_noting(text).0
    }

    /// Decodes the metadata that a cell's text holds, if it holds any, and
    /// says whether the text is a JSON object that is no table metadata.
    pub fn decode_noting(text: &str) -> (decoded: (Option<TableMetadata>, bool))
        ensures
            table_metadata_view(decoded.0) == Self::of_text(text@),
            decoded.1 == Self::text_malformed(text@),
    {
        let caption = read_member(text, "caption");
        let reference = read_member(text, "ref");
        let bad = Self::members_malformed(&caption, &reference);
        (Self::from_members(caption, reference), bad)
    }

    /// The caption line of the table, with the label that `imc` knows for its
    /// reference.
    pub fn to_string(&self, imc: &ImageReferenceCollector) -> (line: String)
        ensures
            line@ == Self::caption_line(self@, imc@.label(self.reference@)),
    {
        let mut out: Vec<char> = Vec::new();
        match imc.get(self.reference.as_str()) {
            Some(label) => {
                append_str(&mut out, label.as_str());
                append_str(&mut out, ": ");
            },
            None => {
                append_str(&mut out, "Table ??: ");
            },
        }
        append_str(&mut out, self.caption.as_str());
        string_of(&out)
    }
}

/// A nesting counter: how many enclosing spans of one kind are open.
#[derive(Debug, Clone, Copy, PartialEq, Eq)]
pub struct StackCounter {
    value_: u32,
}

impl View for StackCounter {
    type V = nat;

    closed spec fn view(&self) -> nat {
        self.value_ as nat
    }
}

impl StackCounter {
    /// A counter with nothing open.
    pub fn new() -> (counter: Self)
        ensures
            counter@ == 0,
    {
        StackCounter { value_: 0 }
    }

    /// How many more spans can be opened.
    pub fn room(&self) -> (left: usize)
        ensures
            left == u32::MAX - self@,
    {
        (u32::MAX - self.value_) as usize
    }

    /// Opens one more span.
    pub fn push(&mut self)
        requires
            old(self)@ < u32::MAX,
        ensures
            final(self)@ == old(self)@ + 1,
    {
        self.value_ += 1;
    }

    /// Closes the innermost span; with nothing open it does nothing.
    pub fn pop(&mut self)
        ensures
            final(self)@ == if old(self)@ > 0 {
                old(self)@ - 1
            } else {
                0
            },
    {
        if self.value_ > 0 {
            self.value_ -= 1;
        }
    }

    /// Whether any span is open.
    pub fn set(&self) -> (open: bool)
        ensures
            open == (self@ > 0),
    {
        self.value_ > 0
    }
}

impl From<StackCounter> for bool {
    fn from(value: StackCounter) -> (open: bool) {
        value.set()
    }
}

impl vstd::std_specs::convert::FromSpecImpl<StackCounter> for bool {
    open spec fn obeys_from_spec() -> bool {
        true
    }

    open spec fn from_spec(value: StackCounter) -> bool {
        value@ > 0
    }
}

impl Default for StackCounter {
    fn default() -> (counter: Self)
        ensures
            counter@ == 0,
    {
        StackCounter::new()
    }
}

/// The kind of a list.
#[derive(Debug, Clone, Copy, PartialEq, Eq, Structural)]
pub enum ListType {
    Ordered,
    Unordered,
}

} // verus!
