//! The document tree that both passes walk.
//!
//! A tree is a closed tagged union. The kinds that a pass treats in a way of
//! its own are variants of [`Node`]; the remaining kinds are told apart by
//! [`ContainerKind`] and [`LeafKind`], so that a dispatcher handles every kind
//! explicitly and none can be forgotten.

use vstd::prelude::*;

verus! {

/// The kinds with children that no pass treats specially: a pass walks through
/// them into their children.
#[derive(Debug, Clone, Copy, PartialEq, Eq, Structural)]
pub enum ContainerKind {
    Blockquote,
    FootnoteDefinition,
    MdxJsxFlowElement,
    Delete,
    MdxJsxTextElement,
    Link,
    LinkReference,
}

/// The kinds without children that no pass treats specially: a pass skips them.
#[derive(Debug, Clone, Copy, PartialEq, Eq, Structural)]
pub enum LeafKind {
    MdxjsEsm,
    Toml,
    Yaml,
    Break,
    InlineCode,
    InlineMath,
    MdxTextExpression,
    FootnoteReference,
    Html,
    ImageReference,
    Code,
    Math,
    MdxFlowExpression,
    ThematicBreak,
    Definition,
}

/// One element of the document tree. A node with children owns them, in
/// document order.
#[derive(Debug)]
pub enum Node {
    Root(Vec<Node>),
    Paragraph(Vec<Node>),
    Heading { depth: u8, children: Vec<Node> },
    Text(String),
    Strong(Vec<Node>),
    Emphasis(Vec<Node>),
    List { ordered: bool, children: Vec<Node> },
    ListItem { checked: Option<bool>, spread: bool, children: Vec<Node> },
    Image { url: String, alt: String, title: Option<String> },
    Table(Vec<Node>),
    TableRow(Vec<Node>),
    TableCell(Vec<Node>),
    Container { kind: ContainerKind, children: Vec<Node> },
    Leaf(LeafKind),
}

impl Node {
    /// The number of nodes in the tree rooted here. It bounds the depth of
    /// the tree and the number of its nodes of any one kind.
    pub open spec fn node_count(self) -> nat
        decreases self,
    {
        match self {
            Node::Root(children) => 1 + Self::node_count_of(children@),
            Node::Paragraph(children) => 1 + Self::node_count_of(children@),
            Node::Heading { children, .. } => 1 + Self::node_count_of(children@),
            Node::Text(_) => 1,
            Node::Strong(children) => 1 + Self::node_count_of(children@),
            Node::Emphasis(children) => 1 + Self::node_count_of(children@),
            Node::List { children, .. } => 1 + Self::node_count_of(children@),
            Node::ListItem { children, .. } => 1 + Self::node_count_of(children@),
            Node::Image { .. } => 1,
            Node::Table(children) => 1 + Self::node_count_of(children@),
            Node::TableRow(children) => 1 + Self::node_count_of(children@),
            Node::TableCell(children) => 1 + Self::node_count_of(children@),
            Node::Container { children, .. } => 1 + Self::node_count_of(children@),
            Node::Leaf(_) => 1,
        }
    }

    /// The number of nodes in the trees rooted at `nodes`.
    pub open spec fn node_count_of(nodes: Seq<Node>) -> nat
        decreases nodes,
    {
        if nodes.len() == 0 {
            0
        } else {
            Self::node_count_of(nodes.drop_last()) + nodes.last().node_count()
        }
    }

    /// A prefix of a sequence of trees holds no more nodes than the whole.
    pub proof fn lemma_node_count_prefix(nodes: Seq<Node>, n: int)
        requires
            0 <= n <= nodes.len(),
        ensures
            Self::node_count_of(nodes.take(n)) <= Self::node_count_of(nodes),
        decreases nodes.len(),
    {
        if n < nodes.len() {
            Self::lemma_node_count_prefix(nodes.drop_last(), n);
            assert(nodes.drop_last().take(n) =~= nodes.take(n));
        } else {
            assert(nodes.take(n) =~= nodes);
        }
    }

    /// The trees before the one at `i`, and that tree, hold no more nodes
    /// than the whole sequence.
    pub proof fn lemma_node_count_step(nodes: Seq<Node>, i: int)
        requires
            0 <= i < nodes.len(),
        ensures
            Self::node_count_of(nodes.take(i + 1)) == Self::node_count_of(nodes.take(i))
                + nodes[i].node_count(),
            Self::node_count_of(nodes.take(i)) + nodes[i].node_count() <= Self::node_count_of(
                nodes,
            ),
    {
        assert(nodes.take(i + 1).drop_last() =~= nodes.take(i));
        Self::lemma_node_count_prefix(nodes, i + 1);
    }

    /// Counts the nodes of the tree rooted here; `None` where the count does
    /// not fit a `usize`.
    pub fn count_nodes(&self) -> (n: Option<usize>)
        ensures
            n matches Some(k) ==> k == self.node_count(),
            n is None ==> self.node_count() > usize::MAX,
        decreases self,
    {
        match self {
            Node::Root(children) => Self::count_nodes_of(children, 1),
            Node::Paragraph(children) => Self::count_nodes_of(children, 1),
            Node::Heading { children, .. } => Self::count_nodes_of(children, 1),
            Node::Text(_) => Some(1),
            Node::Strong(children) => Self::count_nodes_of(children, 1),
            Node::Emphasis(children) => Self::count_nodes_of(children, 1),
            Node::List { children, .. } => Self::count_nodes_of(children, 1),
            Node::ListItem { children, .. } => Self::count_nodes_of(children, 1),
            Node::Image { .. } => Some(1),
            Node::Table(children) => Self::count_nodes_of(children, 1),
            Node::TableRow(children) => Self::count_nodes_of(children, 1),
            Node::TableCell(children) => Self::count_nodes_of(children, 1),
            Node::Container { children, .. } => Self::count_nodes_of(children, 1),
            Node::Leaf(_) => Some(1),
        }
    }

    /// Adds the number of nodes in the trees rooted at `nodes` to `base`;
    /// `None` where the sum does not fit a `usize`.
    pub fn count_nodes_of(nodes: &Vec<Node>, base: usize) -> (n: Option<usize>)
        ensures
            n matches Some(k) ==> k == base + Self::node_count_of(nodes@),
            n is None ==> base + Self::node_count_of(nodes@) > usize::MAX,
        decreases nodes,
    {
        let mut total: usize = base;
        let mut i: usize = 0;
        while i < nodes.len()
            invariant
                0 <= i <= nodes.len(),
                total == base + Self::node_count_of(nodes@.take(i as int)),
            decreases nodes.len() - i,
        {
            proof {
                Self::lemma_node_count_step(nodes@, i as int);
            }
            match nodes[i].count_nodes() {
                None => {
                    return None;
                },
                Some(k) => {
                    if k > usize::MAX - total {
                        return None;
                    }
                    total = total + k;
                },
            }
            i = i + 1;
        }
        proof {
            assert(nodes@.take(nodes.len() as int) =~= nodes@);
        }
        Some(total)
    }
}

impl Node {
    /// The addresses of the images in the tree rooted here, in document
    /// order.
    pub open spec fn image_urls(self) -> Seq<Seq<char>>
        decreases self,
    {
        match self {
            Node::Image { url, .. } => seq![url@],
            Node::Root(children) => Self::image_urls_of(children@),
            Node::Paragraph(children) => Self::image_urls_of(children@),
            Node::Heading { children, .. } => Self::image_urls_of(children@),
            Node::Strong(children) => Self::image_urls_of(children@),
            Node::Emphasis(children) => Self::image_urls_of(children@),
            Node::List { children, .. } => Self::image_urls_of(children@),
            Node::ListItem { children, .. } => Self::image_urls_of(children@),
            Node::Table(children) => Self::image_urls_of(children@),
            Node::TableRow(children) => Self::image_urls_of(children@),
            Node::TableCell(children) => Self::image_urls_of(children@),
            Node::Container { children, .. } => Self::image_urls_of(children@),
            Node::Text(_) => Seq::empty(),
            Node::Leaf(_) => Seq::empty(),
        }
    }

    /// The addresses of the images in the trees rooted at `nodes`, in
    /// document order.
    pub open spec fn image_urls_of(nodes: Seq<Node>) -> Seq<Seq<char>>
        decreases nodes,
    {
        if nodes.len() == 0 {
            Seq::empty()
        } else {
            Self::image_urls_of(nodes.drop_last()) + nodes.last().image_urls()
        }
    }

    /// Appends the addresses of the images in the tree rooted here to
    /// `urls`, in document order.
    pub fn collect_image_urls(&self, urls: &mut Vec<String>)
        ensures
            final(urls).deep_view() == old(urls).deep_view() + self.image_urls(),
        decreases self,
    {
        match self {
            Node::Image { url, .. } => {
                urls.push(url.clone());
            },
            Node::Root(children) => Self::collect_image_urls_of(children, urls),
            Node::Paragraph(children) => Self::collect_image_urls_of(children, urls),
            Node::Heading { children, .. } => Self::collect_image_urls_of(children, urls),
            Node::Strong(children) => Self::collect_image_urls_of(children, urls),
            Node::Emphasis(children) => Self::collect_image_urls_of(children, urls),
            Node::List { children, .. } => Self::collect_image_urls_of(children, urls),
            Node::ListItem { children, .. } => Self::collect_image_urls_of(children, urls),
            Node::Table(children) => Self::collect_image_urls_of(children, urls),
            Node::TableRow(children) => Self::collect_image_urls_of(children, urls),
            Node::TableCell(children) => Self::collect_image_urls_of(children, urls),
            Node::Container { children, .. } => Self::collect_image_urls_of(children, urls),
            Node::Text(_) => {
            },
            Node::Leaf(_) => {
            },
        }
    }

    /// Appends the addresses of the images in the trees rooted at `nodes` to
    /// `urls`, in document order.
    pub fn collect_image_urls_of(nodes: &Vec<Node>, urls: &mut Vec<String>)
        ensures
            final(urls).deep_view() == old(urls).deep_view() + Self::image_urls_of(nodes@),
        decreases nodes,
    {
        let mut i: usize = 0;
        while i < nodes.len()
            invariant
                0 <= i <= nodes.len(),
                urls.deep_view() == old(urls).deep_view() + Self::image_urls_of(
                    nodes@.take(i as int),
                ),
            decreases nodes.len() - i,
        {
            nodes[i].collect_image_urls(urls);
            proof {
                assert(nodes@.take(i + 1).drop_last() =~= nodes@.take(i as int));
            }
            i = i + 1;
        }
        proof {
            assert(nodes@.take(nodes.len() as int) =~= nodes@);
        }
    }
}

} // verus!
