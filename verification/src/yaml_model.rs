//! The YAML document tree: an arena of nodes addressed by `YamlNodeId`.
use vstd::prelude::*;
use crate::source::Span;

verus! {

/// Width cache value meaning "not computed yet".
pub const YAML_WIDTH_CACHE_EMPTY: u32 = 0xffff_ffff;

/// Width cache value meaning "computed: no inline width".
pub const YAML_WIDTH_CACHE_NONE: u32 = 0xffff_fffe;

/// Source indent cache value meaning "not computed yet".
pub const YAML_SOURCE_INDENT_CACHE_EMPTY: u32 = 0xffff_ffff;

#[derive(Debug, Clone)]
pub struct YamlDocumentAst {
    pub range: Span,
    pub roots: Vec<YamlRoot>,
    pub nodes: Vec<YamlAstNode>,
    pub trailing_trivia: Vec<YamlTrivia>,
}

impl YamlDocumentAst {
    pub fn new(range: Span) -> (r: Self)
        ensures
            r.range == range,
            r.roots@.len() == 0,
            r.nodes@.len() == 0,
            r.trailing_trivia@.len() == 0,
    {
        YamlDocumentAst {
            range,
            roots: Vec::new(),
            nodes: Vec::new(),
            trailing_trivia: Vec::new(),
        }
    }

    /// Appends a node and returns its id.
    pub fn push_node(&mut self, node: YamlAstNode) -> (id: YamlNodeId)
        requires
            old(self).nodes@.len() < 0xffff_ffff,
        ensures
            id.spec_index() == old(self).nodes@.len(),
            final(self).nodes@ == old(self).nodes@.push(node),
            final(self).roots@ == old(self).roots@,
            final(self).range == old(self).range,
            final(self).trailing_trivia@ == old(self).trailing_trivia@,
    {
        let id = YamlNodeId::new(self.nodes.len());
        self.nodes.push(node);
        id
    }

    pub fn node(&self, id: YamlNodeId) -> (r: &YamlAstNode)
        requires
            id.spec_index() < self.nodes@.len(),
        ensures
            *r == self.nodes@[id.spec_index() as int],
    {
        &self.nodes[id.index()]
    }

    pub fn node_mut(&mut self, id: YamlNodeId) -> (r: &mut YamlAstNode)
        requires
            id.spec_index() < old(self).nodes@.len(),
        ensures
            *r == old(self).nodes@[id.spec_index() as int],
            final(self).nodes@ == old(self).nodes@.update(id.spec_index() as int, *final(r)),
            final(self).roots@ == old(self).roots@,
            final(self).range == old(self).range,
            final(self).trailing_trivia@ == old(self).trailing_trivia@,
    {
        let i = id.index();
        vstd::std_specs::vec::vec_index_mut(&mut self.nodes, i)
    }
}

#[derive(Debug, Clone)]
pub struct YamlRoot {
    pub node: Option<YamlNodeId>,
    pub start_marker: Option<Span>,
    pub end_marker: Option<Span>,
}

/// A node index, stored offset by one so that it is never zero.
#[derive(Debug, Clone, Copy, PartialEq, Eq, Structural)]
pub struct YamlNodeId {
    stored: u32,
}

impl YamlNodeId {
    #[verifier::type_invariant]
    spec fn stored_nonzero(self) -> bool {
        self.stored > 0
    }

    pub closed spec fn spec_index(self) -> nat {
        (self.stored - 1) as nat
    }

    /// The id of the node at `index`.
    pub closed spec fn spec_from_index(index: nat) -> YamlNodeId {
        YamlNodeId { stored: (index + 1) as u32 }
    }

    pub fn new(index: usize) -> (r: Self)
        requires
            index < 0xffff_ffff,
        ensures
            r.spec_index() == index,
            r == Self::spec_from_index(index as nat),
    {
        YamlNodeId { stored: index as u32 + 1 }
    }

    pub fn index(self) -> (r: usize)
        ensures
            r == self.spec_index(),
            r < 0xffff_ffff,
            self == Self::spec_from_index(r as nat),
    {
        proof {
            use_type_invariant(&self);
        }
        (self.stored - 1) as usize
    }

    /// Ids are one to one with node indices: the id built for an index
    /// gives that index back, and two such ids are equal exactly when
    /// their indices are.
    pub proof fn lemma_from_index_injective(i: nat, j: nat)
        requires
            i < 0xffff_ffff,
            j < 0xffff_ffff,
        ensures
            Self::spec_from_index(i).spec_index() == i,
            (Self::spec_from_index(i) == Self::spec_from_index(j)) <==> (i == j),
    {
    }
}

#[derive(Debug, Clone)]
pub struct YamlAstNode {
    pub kind: YamlAstKind,
    pub span: Span,
    pub leading_trivia: Vec<YamlTrivia>,
    pub state: u32,
    pub emit: YamlEmitPlan,
    pub must_preserve_source: Option<bool>,
    pub inline_width: u32,
    pub flow_inline_width: u32,
    pub source_indent: u32,
}

/// Cache encoding: a width below the reserved values, or "none".
pub open spec fn spec_encode_width(width: Option<usize>) -> u32 {
    match width {
        Some(w) => w as u32,
        None => YAML_WIDTH_CACHE_NONE,
    }
}

pub open spec fn spec_decode_width(width: u32) -> Option<Option<usize>> {
    if width == YAML_WIDTH_CACHE_EMPTY {
        None
    } else if width == YAML_WIDTH_CACHE_NONE {
        Some(None)
    } else {
        Some(Some(width as usize))
    }
}

pub open spec fn width_cacheable(width: Option<usize>) -> bool {
    match width {
        Some(w) => w < YAML_WIDTH_CACHE_NONE,
        None => true,
    }
}

fn encode_yaml_width_cache(width: Option<usize>) -> (r: u32)
    requires
        width_cacheable(width),
    ensures
        r == spec_encode_width(width),
        spec_decode_width(r) == Some(width),
{
    match width {
        Some(width) => width as u32,
        None => YAML_WIDTH_CACHE_NONE,
    }
}

fn decode_yaml_width_cache(width: u32) -> (r: Option<Option<usize>>)
    ensures
        r == spec_decode_width(width),
{
    if width == YAML_WIDTH_CACHE_EMPTY {
        None
    } else if width == YAML_WIDTH_CACHE_NONE {
        Some(None)
    } else {
        Some(Some(width as usize))
    }
}

impl YamlAstNode {
    pub closed spec fn cached_inline_width(&self) -> Option<Option<usize>> {
        spec_decode_width(self.inline_width)
    }

    pub closed spec fn cached_flow_inline_width(&self) -> Option<Option<usize>> {
        spec_decode_width(self.flow_inline_width)
    }

    pub closed spec fn cached_source_indent(&self) -> Option<usize> {
        if self.source_indent == YAML_SOURCE_INDENT_CACHE_EMPTY {
            None
        } else {
            Some(self.source_indent as usize)
        }
    }

    /// A node with no emit plan and empty caches.
    pub fn semantic(kind: YamlAstKind, span: Span, leading_trivia: Vec<YamlTrivia>, state: u32) -> (r:
        Self)
        ensures
            r.kind == kind,
            r.span == span,
            r.leading_trivia@ == leading_trivia@,
            r.state == state,
            r.emit == YamlEmitPlan::Unplanned,
            r.must_preserve_source is None,
            r.cached_inline_width() is None,
            r.cached_flow_inline_width() is None,
            r.cached_source_indent() is None,
    {
        YamlAstNode {
            kind,
            span,
            leading_trivia,
            state,
            emit: YamlEmitPlan::Unplanned,
            must_preserve_source: None,
            inline_width: YAML_WIDTH_CACHE_EMPTY,
            flow_inline_width: YAML_WIDTH_CACHE_EMPTY,
            source_indent: YAML_SOURCE_INDENT_CACHE_EMPTY,
        }
    }

    pub fn inline_width(&self) -> (r: Option<Option<usize>>)
        ensures
            r == self.cached_inline_width(),
    {
        decode_yaml_width_cache(self.inline_width)
    }

    pub fn set_inline_width(&mut self, width: Option<usize>)
        requires
            width_cacheable(width),
        ensures
            final(self).cached_inline_width() == Some(width),
            final(self).cached_flow_inline_width() == old(self).cached_flow_inline_width(),
            final(self).cached_source_indent() == old(self).cached_source_indent(),
            final(self).kind == old(self).kind,
            final(self).span == old(self).span,
            final(self).emit == old(self).emit,
    {
        self.inline_width = encode_yaml_width_cache(width);
    }

    pub fn clear_inline_width(&mut self)
        ensures
            final(self).cached_inline_width() is None,
            final(self).cached_flow_inline_width() == old(self).cached_flow_inline_width(),
            final(self).cached_source_indent() == old(self).cached_source_indent(),
            final(self).kind == old(self).kind,
            final(self).span == old(self).span,
            final(self).emit == old(self).emit,
    {
        self.inline_width = YAML_WIDTH_CACHE_EMPTY;
    }

    pub fn flow_inline_width(&self) -> (r: Option<Option<usize>>)
        ensures
            r == self.cached_flow_inline_width(),
    {
        decode_yaml_width_cache(self.flow_inline_width)
    }

    pub fn set_flow_inline_width(&mut self, width: Option<usize>)
        requires
            width_cacheable(width),
        ensures
            final(self).cached_flow_inline_width() == Some(width),
            final(self).cached_inline_width() == old(self).cached_inline_width(),
            final(self).cached_source_indent() == old(self).cached_source_indent(),
            final(self).kind == old(self).kind,
            final(self).span == old(self).span,
            final(self).emit == old(self).emit,
    {
        self.flow_inline_width = encode_yaml_width_cache(width);
    }

    pub fn clear_flow_inline_width(&mut self)
        ensures
            final(self).cached_flow_inline_width() is None,
            final(self).cached_inline_width() == old(self).cached_inline_width(),
            final(self).cached_source_indent() == old(self).cached_source_indent(),
            final(self).kind == old(self).kind,
            final(self).span == old(self).span,
            final(self).emit == old(self).emit,
    {
        self.flow_inline_width = YAML_WIDTH_CACHE_EMPTY;
    }

    pub fn source_indent(&self) -> (r: Option<usize>)
        ensures
            r == self.cached_source_indent(),
    {
        if self.source_indent != YAML_SOURCE_INDENT_CACHE_EMPTY {
            Some(self.source_indent as usize)
        } else {
            None
        }
    }

    pub fn set_source_indent(&mut self, indent: usize)
        requires
            indent < YAML_SOURCE_INDENT_CACHE_EMPTY,
        ensures
            final(self).cached_source_indent() == Some(indent),
            final(self).cached_inline_width() == old(self).cached_inline_width(),
            final(self).cached_flow_inline_width() == old(self).cached_flow_inline_width(),
            final(self).kind == old(self).kind,
            final(self).span == old(self).span,
            final(self).emit == old(self).emit,
    {
        self.source_indent = indent as u32;
    }
}

#[derive(Debug, Clone, PartialEq, Eq, Structural)]
pub enum YamlEmitPlan {
    Unplanned,
    PreserveSource,
    Rendered(YamlRenderedKind),
    NestedMarkdownBlockScalar { nested: u32 },
    ExternalBlockScalar,
}

impl YamlEmitPlan {
    pub fn rendered_shape(kind: YamlRenderedKind) -> (r: Self)
        ensures
            r == YamlEmitPlan::Rendered(kind),
    {
        YamlEmitPlan::Rendered(kind)
    }
}

#[derive(Debug, Clone, Copy, PartialEq, Eq, Structural)]
pub enum YamlRenderedKind {
    Table,
    CompactCollection,
    FlowCollection,
    BlockFlowCollection,
    EmptyMarkdownScalar,
    InlineMarkdownScalar,
    Scalar,
}

#[derive(Debug, Clone)]
pub enum YamlAstKind {
    Empty,
    Scalar(YamlScalar),
    Sequence(YamlSequence),
    Mapping(YamlMapping),
    FlowSequence(YamlFlowSequence),
    FlowMapping(YamlFlowMapping),
    Alias(YamlAlias),
    Opaque(YamlOpaque),
}

#[derive(Debug, Clone, Copy, PartialEq, Eq, Structural)]
pub struct YamlScalar {
    pub style: YamlScalarStyle,
    pub semantic: YamlScalarSemantic,
    pub value: Span,
    pub header: Option<Span>,
    pub block_header: Option<YamlBlockScalarHeader>,
    pub body: Option<Span>,
    pub nested: Option<u32>,
    pub tag: Option<Span>,
    pub anchor: Option<Span>,
    pub trailing_comment: Option<Span>,
}

#[derive(Debug, Clone, Copy, PartialEq, Eq, Structural)]
pub enum YamlScalarStyle {
    Plain,
    SingleQuoted,
    DoubleQuoted,
    LiteralBlock,
    FoldedBlock,
}

#[derive(Debug, Clone, Copy, PartialEq, Eq, Structural)]
pub struct YamlBlockScalarHeader {
    pub indent: Option<u8>,
    pub chomp: YamlBlockChomp,
    pub base_indent: usize,
}

#[derive(Debug, Clone, Copy, PartialEq, Eq, Structural)]
pub enum YamlBlockChomp {
    Clip,
    Strip,
    Keep,
}

#[derive(Debug, Clone, Copy, PartialEq, Eq, Structural)]
pub enum YamlScalarSemantic {
    String,
    Null,
    Boolean,
    Integer,
    Float,
    Unknown,
}

#[derive(Debug, Clone)]
pub struct YamlSequence {
    pub indent: usize,
    pub items: Vec<YamlSequenceItem>,
    pub tag: Option<Span>,
    pub anchor: Option<Span>,
    pub flow_collapse_hint: Option<Span>,
}

#[derive(Debug, Clone)]
pub struct YamlSequenceItem {
    pub leading_trivia: Vec<YamlTrivia>,
    pub marker: Span,
    pub line: Span,
    pub value_on_marker_line: bool,
    pub trailing_comment: Option<Span>,
    pub value: Option<YamlNodeId>,
}

#[derive(Debug, Clone)]
pub struct YamlMapping {
    pub indent: usize,
    pub pairs: Vec<YamlMappingPair>,
    pub tag: Option<Span>,
    pub anchor: Option<Span>,
    pub flow_collapse_hint: Option<Span>,
}

#[derive(Debug, Clone)]
pub struct YamlMappingPair {
    pub leading_trivia: Vec<YamlTrivia>,
    pub key: Span,
    pub key_node: Option<YamlNodeId>,
    pub colon: Span,
    pub line: Span,
    pub source: Span,
    pub explicit: bool,
    pub trailing_comment: Option<Span>,
    pub value: Option<YamlNodeId>,
}

#[derive(Debug, Clone)]
pub struct YamlFlowSequence {
    pub value: Span,
    pub entries: Vec<YamlNodeId>,
    pub tag: Option<Span>,
    pub anchor: Option<Span>,
    pub trailing_comment: Option<Span>,
    pub has_inner_trivia: bool,
    pub inner_trivia: Vec<YamlTrivia>,
}

#[derive(Debug, Clone)]
pub struct YamlFlowMapping {
    pub value: Span,
    pub pairs: Vec<YamlFlowPair>,
    pub braced: bool,
    pub tag: Option<Span>,
    pub anchor: Option<Span>,
    pub trailing_comment: Option<Span>,
    pub has_inner_trivia: bool,
    pub inner_trivia: Vec<YamlTrivia>,
}

#[derive(Debug, Clone, Copy, PartialEq, Eq, Structural)]
pub struct YamlFlowPair {
    pub key: YamlNodeId,
    pub value: Option<YamlNodeId>,
    pub explicit: bool,
    pub source: Span,
}

#[derive(Debug, Clone, Copy, PartialEq, Eq, Structural)]
pub struct YamlAlias {
    pub value: Span,
    pub trailing_comment: Option<Span>,
}

#[derive(Debug, Clone, Copy, PartialEq, Eq, Structural)]
pub struct YamlOpaque {
    pub reason: YamlOpaqueReason,
}

#[derive(Debug, Clone, Copy, PartialEq, Eq, Structural)]
pub enum YamlOpaqueReason {
    UnsupportedFlow,
    UnsupportedLine,
}

#[derive(Debug, Clone, Copy, PartialEq, Eq, Structural)]
pub struct YamlTrivia {
    pub kind: YamlTriviaKind,
    pub span: Span,
}

#[derive(Debug, Clone, Copy, PartialEq, Eq, Structural)]
pub enum YamlTriviaKind {
    Blank,
    Comment,
    Directive,
    DocumentMarker,
}

} // verus!
