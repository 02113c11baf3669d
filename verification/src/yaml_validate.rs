//! The check that formatting kept the YAML value: the documents before and
//! after are compared node by node, scalars by their decoded content.
use vstd::prelude::*;
use crate::diagnostic::YamarkError;
use crate::source::Span;
use crate::text::{chars_eq, str_chars, sub_chars};
use crate::yaml_blocks::{spec_clamped_range, spec_trim_ascii_bounds, trim_ascii_bounds};
use crate::yaml_equivalence::{
    comparable_scalar_is_empty_string, comparable_scalar_value, comparable_scalars_equal,
    spec_comparable_of, spec_cview, spec_cview_empty, spec_decoded_scalar,
    spec_yaml_forbidden_character, yaml_forbidden_character, ComparableScalar,
};
use crate::yaml_model::{
    YamlAstKind, YamlDocumentAst, YamlEmitPlan, YamlNodeId, YamlRenderedKind, YamlScalar,
    YamlScalarSemantic,
};

verus! {

/// How much a scalar's content may change when it is emitted.
#[derive(Debug, Clone, Copy, PartialEq, Eq, Structural)]
pub enum ScalarEmitRule {
    Exact,
    ContentMayChange,
    EmptyMarkdown,
}

pub open spec fn spec_scalar_emit_rule(emit: YamlEmitPlan) -> ScalarEmitRule {
    match emit {
        YamlEmitPlan::Rendered(YamlRenderedKind::EmptyMarkdownScalar) => ScalarEmitRule::EmptyMarkdown,
        YamlEmitPlan::NestedMarkdownBlockScalar { .. } => ScalarEmitRule::ContentMayChange,
        YamlEmitPlan::ExternalBlockScalar => ScalarEmitRule::ContentMayChange,
        YamlEmitPlan::Rendered(YamlRenderedKind::InlineMarkdownScalar) => ScalarEmitRule::ContentMayChange,
        _ => ScalarEmitRule::Exact,
    }
}

/// The emit rule of a node's plan: an empty Markdown scalar must stay
/// empty, a reformatted embedded scalar may change its content, everything
/// else must keep it.
pub fn scalar_emit_rule(emit: &YamlEmitPlan) -> (r: ScalarEmitRule)
    ensures
        r == spec_scalar_emit_rule(*emit),
{
    match emit {
        YamlEmitPlan::Rendered(YamlRenderedKind::EmptyMarkdownScalar) => ScalarEmitRule::EmptyMarkdown,
        YamlEmitPlan::NestedMarkdownBlockScalar { .. } => ScalarEmitRule::ContentMayChange,
        YamlEmitPlan::ExternalBlockScalar => ScalarEmitRule::ContentMayChange,
        YamlEmitPlan::Rendered(YamlRenderedKind::InlineMarkdownScalar) => ScalarEmitRule::ContentMayChange,
        _ => ScalarEmitRule::Exact,
    }
}

/// The characters of `src` between `a` and `b`, clamped to it.
pub fn text_range(src: &[char], a: usize, b: usize) -> (r: Vec<char>)
    ensures
        r@ == spec_clamped_range(src@, a as int, b as int),
{
    let e = if b < src.len() {
        b
    } else {
        src.len()
    };
    let s = if a < e {
        a
    } else {
        e
    };
    sub_chars(src, s, e)
}

/// The text of an optional span.
pub open spec fn spec_opt_text(src: Seq<char>, o: Option<Span>) -> Option<Seq<char>> {
    match o {
        Some(s) => Some(spec_clamped_range(src, s.start as int, s.end as int)),
        None => None,
    }
}

/// Whether two optional spans, each over its own source, hold the same
/// text (or are both absent).
pub fn optional_span_text_equal(
    before_source: &[char],
    before: Option<Span>,
    after_source: &[char],
    after: Option<Span>,
) -> (r: bool)
    ensures
        r == (spec_opt_text(before_source@, before) == spec_opt_text(after_source@, after)),
{
    match (before, after) {
        (Some(b), Some(a)) => {
            let x = text_range(before_source, b.start, b.end);
            let y = text_range(after_source, a.start, a.end);
            chars_eq(x.as_slice(), y.as_slice())
        },
        (None, None) => true,
        _ => false,
    }
}

/// The text of an optional collection tag, with the default tag counted
/// as absent.
pub open spec fn spec_collection_tag(src: Seq<char>, o: Option<Span>, removable: Seq<char>) -> Option<
    Seq<char>,
> {
    match spec_opt_text(src, o) {
        Some(t) => if t == removable {
            None
        } else {
            Some(t)
        },
        None => None,
    }
}

/// Whether two collections carry the same tag, `removable` (the default
/// tag of their kind) counting as none.
pub fn collection_tag_equal(
    before_source: &[char],
    before: Option<Span>,
    removable: &[char],
    after_source: &[char],
    after: Option<Span>,
) -> (r: bool)
    ensures
        r == (spec_collection_tag(before_source@, before, removable@) == spec_collection_tag(
            after_source@,
            after,
            removable@,
        )),
{
    let b = match before {
        Some(s) => {
            let t = text_range(before_source, s.start, s.end);
            if chars_eq(t.as_slice(), removable) {
                None
            } else {
                Some(t)
            }
        },
        None => None,
    };
    let a = match after {
        Some(s) => {
            let t = text_range(after_source, s.start, s.end);
            if chars_eq(t.as_slice(), removable) {
                None
            } else {
                Some(t)
            }
        },
        None => None,
    };
    match (b, a) {
        (Some(x), Some(y)) => chars_eq(x.as_slice(), y.as_slice()),
        (None, None) => true,
        _ => false,
    }
}

/// A scalar's value is a string: by its semantics, or unknown but tagged.
pub open spec fn spec_string_like(s: YamlScalar) -> bool {
    s.semantic == YamlScalarSemantic::String || (s.semantic == YamlScalarSemantic::Unknown
        && s.tag is Some)
}

pub fn scalar_is_string_like(s: &YamlScalar) -> (r: bool)
    ensures
        r == spec_string_like(*s),
{
    s.semantic == YamlScalarSemantic::String || (s.semantic == YamlScalarSemantic::Unknown
        && s.tag.is_some())
}

/// `t` without ASCII whitespace at either end.
pub open spec fn spec_trim_ascii(t: Seq<char>) -> Seq<char> {
    t.subrange(spec_trim_ascii_bounds(t).0, spec_trim_ascii_bounds(t).1)
}

fn trim_ascii(t: &[char]) -> (r: Vec<char>)
    ensures
        r@ == spec_trim_ascii(t@),
{
    let (a, b) = trim_ascii_bounds(t);
    sub_chars(t, a, b)
}

/// Where a scalar's own text starts: after its tag and anchor, else at its
/// value.
pub open spec fn spec_scalar_text_start(s: YamlScalar) -> int {
    match s.tag {
        Some(t) => match s.anchor {
            Some(a) => if t.end >= a.end {
                t.end as int
            } else {
                a.end as int
            },
            None => t.end as int,
        },
        None => match s.anchor {
            Some(a) => a.end as int,
            None => s.value.start as int,
        },
    }
}

/// A scalar's text without its tag and anchor, trimmed.
pub open spec fn spec_scalar_text(src: Seq<char>, s: YamlScalar) -> Seq<char> {
    let start = spec_scalar_text_start(s);
    let st = if start <= s.value.end {
        start
    } else {
        s.value.end as int
    };
    spec_trim_ascii(spec_clamped_range(src, st, s.value.end as int))
}

pub fn source_scalar_text(src: &[char], s: &YamlScalar) -> (r: Vec<char>)
    ensures
        r@ == spec_scalar_text(src@, *s),
{
    let start = match s.tag {
        Some(t) => match s.anchor {
            Some(a) => if t.end >= a.end {
                t.end
            } else {
                a.end
            },
            None => t.end,
        },
        None => match s.anchor {
            Some(a) => a.end,
            None => s.value.start,
        },
    };
    let st = if start <= s.value.end {
        start
    } else {
        s.value.end
    };
    let t = text_range(src, st, s.value.end);
    trim_ascii(t.as_slice())
}

/// The comparable value of a scalar of `src` under a parent at
/// `parent_indent`.
pub open spec fn spec_scalar_comparable(src: Seq<char>, s: YamlScalar, parent_indent: usize) -> Option<
    (int, Seq<char>, bool),
> {
    match spec_decoded_scalar(
        spec_scalar_text(src, s),
        spec_opt_text(src, s.body),
        s.style,
        s.block_header,
        parent_indent,
    ) {
        Some(d) => spec_comparable_of(d, s.semantic),
        None => None,
    }
}

fn scalar_comparable(src: &[char], s: &YamlScalar, parent_indent: usize) -> (r: Option<
    ComparableScalar,
>)
    ensures
        match r {
            Some(c) => spec_scalar_comparable(src@, *s, parent_indent) == Some(spec_cview(c)),
            None => spec_scalar_comparable(src@, *s, parent_indent) is None,
        },
{
    let raw = source_scalar_text(src, s);
    let body = match s.body {
        Some(b) => Some(text_range(src, b.start, b.end)),
        None => None,
    };
    let body_ref: Option<&[char]> = match &body {
        Some(b) => Some(b.as_slice()),
        None => None,
    };
    comparable_scalar_value(
        raw.as_slice(),
        body_ref,
        s.style,
        s.semantic,
        s.block_header,
        parent_indent,
    )
}

/// The message when the formatted YAML cannot be read back.
pub open spec fn spec_invalid_output() -> Seq<char> {
    "formatter produced invalid YAML"@
}

/// The message when the formatted YAML means something else.
pub open spec fn spec_changed_value() -> Seq<char> {
    "formatter changed the YAML value"@
}

fn invalid_output() -> (r: YamarkError)
    ensures
        r.diagnostic.message@ == spec_invalid_output(),
{
    crate::diagnostic::error_from_chars(str_chars("formatter produced invalid YAML").as_slice())
}

fn changed_value() -> (r: YamarkError)
    ensures
        r.diagnostic.message@ == spec_changed_value(),
{
    crate::diagnostic::error_from_chars(str_chars("formatter changed the YAML value").as_slice())
}

/// `r` is the outcome `s`: the same answer, or an error with its message.
pub open spec fn spec_outcome(r: Result<bool, YamarkError>, s: Result<bool, Seq<char>>) -> bool {
    match s {
        Ok(b) => r == Ok::<bool, YamarkError>(b),
        Err(m) => r matches Err(e) && e.diagnostic.message@ == m,
    }
}

/// Whether a scalar kept its value: same tag and anchor, and either the
/// same text or the same decoded value; a scalar whose content may change
/// only has to stay a string. An error when a value cannot be decoded.
pub open spec fn spec_scalars_equivalent(
    bs: Seq<char>,
    b: YamlScalar,
    rule: ScalarEmitRule,
    bpi: usize,
    as_: Seq<char>,
    a: YamlScalar,
    api: usize,
) -> Result<bool, Seq<char>> {
    if spec_opt_text(bs, b.tag) != spec_opt_text(as_, a.tag) || spec_opt_text(bs, b.anchor)
        != spec_opt_text(as_, a.anchor) {
        Ok(false)
    } else if b.style == a.style && b.semantic == a.semantic && spec_scalar_text(bs, b)
        == spec_scalar_text(as_, a) && spec_opt_text(bs, b.body) == spec_opt_text(as_, a.body) && (
    b.body is None || bpi == api) {
        Ok(true)
    } else {
        match spec_scalar_comparable(as_, a, api) {
            None => Err(spec_invalid_output()),
            Some(av) => if rule == ScalarEmitRule::ContentMayChange && spec_string_like(b)
                && spec_string_like(a) {
                Ok(true)
            } else {
                match spec_scalar_comparable(bs, b, bpi) {
                    None => Err(spec_changed_value()),
                    Some(bv) => Ok(bv == av),
                }
            },
        }
    }
}

pub fn scalars_equivalent(
    before_source: &[char],
    b: &YamlScalar,
    rule: ScalarEmitRule,
    before_parent_indent: usize,
    after_source: &[char],
    a: &YamlScalar,
    after_parent_indent: usize,
) -> (r: Result<bool, YamarkError>)
    ensures
        spec_outcome(
            r,
            spec_scalars_equivalent(
                before_source@,
                *b,
                rule,
                before_parent_indent,
                after_source@,
                *a,
                after_parent_indent,
            ),
        ),
{
    if !optional_span_text_equal(before_source, b.tag, after_source, a.tag)
        || !optional_span_text_equal(before_source, b.anchor, after_source, a.anchor) {
        return Ok(false);
    }
    let bt = source_scalar_text(before_source, b);
    let at = source_scalar_text(after_source, a);
    let raw_equal = b.style == a.style && b.semantic == a.semantic && chars_eq(
        bt.as_slice(),
        at.as_slice(),
    ) && optional_span_text_equal(before_source, b.body, after_source, a.body) && (b.body.is_none()
        || before_parent_indent == after_parent_indent);
    if raw_equal {
        return Ok(true);
    }
    let after_value = match scalar_comparable(after_source, a, after_parent_indent) {
        Some(v) => v,
        None => {
            return Err(invalid_output());
        },
    };
    if rule == ScalarEmitRule::ContentMayChange && scalar_is_string_like(b) && scalar_is_string_like(
        a,
    ) {
        return Ok(true);
    }
    let before_value = match scalar_comparable(before_source, b, before_parent_indent) {
        Some(v) => v,
        None => {
            return Err(changed_value());
        },
    };
    Ok(comparable_scalars_equal(&before_value, &after_value))
}

/// A block or flow sequence as (indentation, items, tag, anchor); a flow
/// sequence counts as unindented.
pub open spec fn spec_seq_view(k: YamlAstKind) -> Option<
    (usize, Seq<Option<YamlNodeId>>, Option<Span>, Option<Span>),
> {
    match k {
        YamlAstKind::Sequence(s) => Some(
            (s.indent, Seq::new(s.items@.len(), |i: int| s.items@[i].value), s.tag, s.anchor),
        ),
        YamlAstKind::FlowSequence(f) => Some(
            (0usize, Seq::new(f.entries@.len(), |i: int| Some(f.entries@[i])), f.tag, f.anchor),
        ),
        _ => None,
    }
}

/// A block or flow mapping as (indentation, (key, value) pairs, tag,
/// anchor).
pub open spec fn spec_map_view(k: YamlAstKind) -> Option<
    (usize, Seq<(Option<YamlNodeId>, Option<YamlNodeId>)>, Option<Span>, Option<Span>),
> {
    match k {
        YamlAstKind::Mapping(m) => Some(
            (
                m.indent,
                Seq::new(m.pairs@.len(), |i: int| (m.pairs@[i].key_node, m.pairs@[i].value)),
                m.tag,
                m.anchor,
            ),
        ),
        YamlAstKind::FlowMapping(f) => Some(
            (
                0usize,
                Seq::new(f.pairs@.len(), |i: int| (Some(f.pairs@[i].key), f.pairs@[i].value)),
                f.tag,
                f.anchor,
            ),
        ),
        _ => None,
    }
}

/// A node id of `ast`, if present, names one of its nodes.
pub open spec fn spec_opt_id_ok(ast: YamlDocumentAst, o: Option<YamlNodeId>) -> bool {
    match o {
        Some(id) => id.spec_index() < ast.nodes@.len(),
        None => true,
    }
}

/// The children of a node name nodes of `ast`.
pub open spec fn spec_children_ok(ast: YamlDocumentAst, k: YamlAstKind) -> bool {
    &&& (spec_seq_view(k) matches Some(v) ==> forall|i: int|
        0 <= i < v.1.len() ==> spec_opt_id_ok(ast, #[trigger] v.1[i]))
    &&& (spec_map_view(k) matches Some(v) ==> forall|i: int|
        0 <= i < v.1.len() ==> spec_opt_id_ok(ast, (#[trigger] v.1[i]).0) && spec_opt_id_ok(
            ast,
            v.1[i].1,
        ))
}

/// Every node id in `ast` (of its roots and its nodes' children) names
/// one of its nodes.
pub open spec fn spec_ast_ids_ok(ast: YamlDocumentAst) -> bool {
    &&& forall|r: int| 0 <= r < ast.roots@.len() ==> spec_opt_id_ok(ast, (#[trigger] ast.roots@[r]).node)
    &&& forall|n: int| 0 <= n < ast.nodes@.len() ==> spec_children_ok(ast, (#[trigger] ast.nodes@[n]).kind)
}

pub open spec fn spec_node_of(ast: YamlDocumentAst, id: YamlNodeId) -> crate::yaml_model::YamlAstNode {
    ast.nodes@[id.spec_index() as int]
}

/// A node that stands for null with nothing attached: empty, or a null
/// scalar without anchor whose tag, if any, is `!!null`.
pub open spec fn spec_unadorned_null(src: Seq<char>, ast: YamlDocumentAst, id: YamlNodeId) -> bool {
    match spec_node_of(ast, id).kind {
        YamlAstKind::Empty => true,
        YamlAstKind::Scalar(s) => s.semantic == YamlScalarSemantic::Null && s.anchor is None
            && match s.tag {
            Some(t) => spec_clamped_range(src, t.start as int, t.end as int) == "!!null"@,
            None => true,
        },
        _ => false,
    }
}

pub fn node_is_unadorned_null(src: &[char], ast: &YamlDocumentAst, id: YamlNodeId) -> (r: bool)
    requires
        id.spec_index() < ast.nodes@.len(),
    ensures
        r == spec_unadorned_null(src@, *ast, id),
{
    match &ast.node(id).kind {
        YamlAstKind::Empty => true,
        YamlAstKind::Scalar(s) => {
            if s.semantic != YamlScalarSemantic::Null || s.anchor.is_some() {
                return false;
            }
            match s.tag {
                Some(t) => {
                    let text = text_range(src, t.start, t.end);
                    let null_tag = str_chars("!!null");
                    chars_eq(text.as_slice(), null_tag.as_slice())
                },
                None => true,
            }
        },
        _ => false,
    }
}

/// Whether two optional nodes hold the same value: both present and
/// equivalent, or one absent and the other an unadorned null.
pub open spec fn spec_opt_nodes_eq(
    bs: Seq<char>,
    bast: YamlDocumentAst,
    b: Option<YamlNodeId>,
    bpi: usize,
    as_: Seq<char>,
    aast: YamlDocumentAst,
    a: Option<YamlNodeId>,
    api: usize,
    fuel: nat,
) -> Result<bool, Seq<char>>
    decreases fuel, 1int, 0int,
{
    match b {
        Some(bid) => match a {
            Some(aid) => spec_nodes_eq(bs, bast, bid, bpi, as_, aast, aid, api, fuel),
            None => Ok(spec_unadorned_null(bs, bast, bid)),
        },
        None => match a {
            Some(aid) => Ok(spec_unadorned_null(as_, aast, aid)),
            None => Ok(true),
        },
    }
}

/// Whether two nodes hold the same value, `fuel` bounding the depth of the
/// comparison: unadorned nulls alike; an empty Markdown scalar still empty;
/// scalars by `spec_scalars_equivalent`; sequences and mappings item by
/// item; aliases by their names; opaque nodes by their text.
pub open spec fn spec_nodes_eq(
    bs: Seq<char>,
    bast: YamlDocumentAst,
    bid: YamlNodeId,
    bpi: usize,
    as_: Seq<char>,
    aast: YamlDocumentAst,
    aid: YamlNodeId,
    api: usize,
    fuel: nat,
) -> Result<bool, Seq<char>>
    decreases fuel, 0int, 0int,
{
    if fuel == 0 {
        Ok(false)
    } else {
        let bn = spec_node_of(bast, bid);
        let an = spec_node_of(aast, aid);
        if spec_unadorned_null(bs, bast, bid) && spec_unadorned_null(as_, aast, aid) {
            Ok(true)
        } else {
            match bn.kind {
                YamlAstKind::Scalar(b) => if spec_scalar_emit_rule(bn.emit)
                    == ScalarEmitRule::EmptyMarkdown {
                    match an.kind {
                        YamlAstKind::Scalar(a) => Ok(
                            spec_opt_text(bs, b.tag) == spec_opt_text(as_, a.tag) && spec_opt_text(
                                bs,
                                b.anchor,
                            ) == spec_opt_text(as_, a.anchor) && spec_string_like(a)
                                && match spec_scalar_comparable(as_, a, api) {
                                Some(v) => spec_cview_empty(v),
                                None => false,
                            },
                        ),
                        _ => Ok(false),
                    }
                } else {
                    match an.kind {
                        YamlAstKind::Scalar(a) => spec_scalars_equivalent(
                            bs,
                            b,
                            spec_scalar_emit_rule(bn.emit),
                            bpi,
                            as_,
                            a,
                            api,
                        ),
                        _ => Ok(false),
                    }
                },
                _ => match spec_seq_view(bn.kind) {
                    Some(bv) => match spec_seq_view(an.kind) {
                        Some(av) => spec_seq_eq(bs, bast, bv, as_, aast, av, (fuel - 1) as nat),
                        None => Ok(false),
                    },
                    None => match spec_map_view(bn.kind) {
                        Some(bv) => match spec_map_view(an.kind) {
                            Some(av) => spec_map_eq(bs, bast, bv, as_, aast, av, (fuel - 1) as nat),
                            None => Ok(false),
                        },
                        None => match bn.kind {
                            YamlAstKind::Empty => Ok(an.kind is Empty),
                            YamlAstKind::Alias(x) => match an.kind {
                                YamlAstKind::Alias(y) => Ok(
                                    spec_trim_ascii(
                                        spec_clamped_range(bs, x.value.start as int, x.value.end as int),
                                    ) == spec_trim_ascii(
                                        spec_clamped_range(as_, y.value.start as int, y.value.end as int),
                                    ),
                                ),
                                _ => Ok(false),
                            },
                            _ => Ok(
                                an.kind is Opaque && spec_clamped_range(
                                    bs,
                                    bn.span.start as int,
                                    bn.span.end as int,
                                ) == spec_clamped_range(as_, an.span.start as int, an.span.end as int),
                            ),
                        },
                    },
                },
            }
        }
    }
}

/// Whether two sequences hold the same items, with the same tag (`!!seq`
/// counting as none) and anchor.
pub open spec fn spec_seq_eq(
    bs: Seq<char>,
    bast: YamlDocumentAst,
    bv: (usize, Seq<Option<YamlNodeId>>, Option<Span>, Option<Span>),
    as_: Seq<char>,
    aast: YamlDocumentAst,
    av: (usize, Seq<Option<YamlNodeId>>, Option<Span>, Option<Span>),
    fuel: nat,
) -> Result<bool, Seq<char>>
    decreases fuel, 3int, 0int,
{
    if bv.1.len() != av.1.len() || spec_collection_tag(bs, bv.2, "!!seq"@) != spec_collection_tag(
        as_,
        av.2,
        "!!seq"@,
    ) || spec_opt_text(bs, bv.3) != spec_opt_text(as_, av.3) {
        Ok(false)
    } else {
        spec_seq_items(bs, bast, bv.1, bv.0, as_, aast, av.1, av.0, 0, fuel)
    }
}

/// The items from the `k`-th on are pairwise equivalent; the first error
/// or difference decides.
pub open spec fn spec_seq_items(
    bs: Seq<char>,
    bast: YamlDocumentAst,
    bi: Seq<Option<YamlNodeId>>,
    bind: usize,
    as_: Seq<char>,
    aast: YamlDocumentAst,
    ai: Seq<Option<YamlNodeId>>,
    aind: usize,
    k: int,
    fuel: nat,
) -> Result<bool, Seq<char>>
    decreases fuel, 2int, bi.len() - k,
{
    if k < 0 || k >= bi.len() {
        Ok(true)
    } else {
        match spec_opt_nodes_eq(bs, bast, bi[k], bind, as_, aast, ai[k], aind, fuel) {
            Err(m) => Err(m),
            Ok(same) => if same {
                spec_seq_items(bs, bast, bi, bind, as_, aast, ai, aind, k + 1, fuel)
            } else {
                Ok(false)
            },
        }
    }
}

/// Whether two mappings hold equivalent keys and values in order, with the
/// same tag (`!!map` counting as none) and anchor.
pub open spec fn spec_map_eq(
    bs: Seq<char>,
    bast: YamlDocumentAst,
    bv: (usize, Seq<(Option<YamlNodeId>, Option<YamlNodeId>)>, Option<Span>, Option<Span>),
    as_: Seq<char>,
    aast: YamlDocumentAst,
    av: (usize, Seq<(Option<YamlNodeId>, Option<YamlNodeId>)>, Option<Span>, Option<Span>),
    fuel: nat,
) -> Result<bool, Seq<char>>
    decreases fuel, 3int, 0int,
{
    if bv.1.len() != av.1.len() || spec_collection_tag(bs, bv.2, "!!map"@) != spec_collection_tag(
        as_,
        av.2,
        "!!map"@,
    ) || spec_opt_text(bs, bv.3) != spec_opt_text(as_, av.3) {
        Ok(false)
    } else {
        spec_map_pairs(bs, bast, bv.1, bv.0, as_, aast, av.1, av.0, 0, fuel)
    }
}

/// The pairs from the `k`-th on have equivalent keys and values; both of a
/// pair are compared before a difference decides.
pub open spec fn spec_map_pairs(
    bs: Seq<char>,
    bast: YamlDocumentAst,
    bp: Seq<(Option<YamlNodeId>, Option<YamlNodeId>)>,
    bind: usize,
    as_: Seq<char>,
    aast: YamlDocumentAst,
    ap: Seq<(Option<YamlNodeId>, Option<YamlNodeId>)>,
    aind: usize,
    k: int,
    fuel: nat,
) -> Result<bool, Seq<char>>
    decreases fuel, 2int, bp.len() - k,
{
    if k < 0 || k >= bp.len() {
        Ok(true)
    } else {
        match spec_opt_nodes_eq(bs, bast, bp[k].0, bind, as_, aast, ap[k].0, aind, fuel) {
            Err(m) => Err(m),
            Ok(keys) => match spec_opt_nodes_eq(
                bs,
                bast,
                bp[k].1,
                bind,
                as_,
                aast,
                ap[k].1,
                aind,
                fuel,
            ) {
                Err(m) => Err(m),
                Ok(values) => if keys && values {
                    spec_map_pairs(bs, bast, bp, bind, as_, aast, ap, aind, k + 1, fuel)
                } else {
                    Ok(false)
                },
            },
        }
    }
}

fn is_seq(k: &YamlAstKind) -> (r: bool)
    ensures
        r == spec_seq_view(*k) is Some,
{
    match k {
        YamlAstKind::Sequence(_) => true,
        YamlAstKind::FlowSequence(_) => true,
        _ => false,
    }
}

fn is_map(k: &YamlAstKind) -> (r: bool)
    ensures
        r == spec_map_view(*k) is Some,
{
    match k {
        YamlAstKind::Mapping(_) => true,
        YamlAstKind::FlowMapping(_) => true,
        _ => false,
    }
}

/// A sequence's indentation, length, tag and anchor.
fn seq_parts(k: &YamlAstKind) -> (r: (usize, usize, Option<Span>, Option<Span>))
    requires
        spec_seq_view(*k) is Some,
    ensures
        ({
            let v = spec_seq_view(*k)->0;
            r.0 == v.0 && r.1 == v.1.len() && r.2 == v.2 && r.3 == v.3
        }),
{
    match k {
        YamlAstKind::Sequence(s) => (s.indent, s.items.len(), s.tag, s.anchor),
        YamlAstKind::FlowSequence(f) => (0, f.entries.len(), f.tag, f.anchor),
        _ => (0, 0, None, None),
    }
}

fn seq_item(k: &YamlAstKind, i: usize) -> (r: Option<YamlNodeId>)
    requires
        spec_seq_view(*k) is Some,
        i < (spec_seq_view(*k)->0).1.len(),
    ensures
        r == (spec_seq_view(*k)->0).1[i as int],
{
    match k {
        YamlAstKind::Sequence(s) => s.items[i].value,
        YamlAstKind::FlowSequence(f) => Some(f.entries[i]),
        _ => None,
    }
}

/// A mapping's indentation, length, tag and anchor.
fn map_parts(k: &YamlAstKind) -> (r: (usize, usize, Option<Span>, Option<Span>))
    requires
        spec_map_view(*k) is Some,
    ensures
        ({
            let v = spec_map_view(*k)->0;
            r.0 == v.0 && r.1 == v.1.len() && r.2 == v.2 && r.3 == v.3
        }),
{
    match k {
        YamlAstKind::Mapping(m) => (m.indent, m.pairs.len(), m.tag, m.anchor),
        YamlAstKind::FlowMapping(f) => (0, f.pairs.len(), f.tag, f.anchor),
        _ => (0, 0, None, None),
    }
}

fn map_pair(k: &YamlAstKind, i: usize) -> (r: (Option<YamlNodeId>, Option<YamlNodeId>))
    requires
        spec_map_view(*k) is Some,
        i < (spec_map_view(*k)->0).1.len(),
    ensures
        r == (spec_map_view(*k)->0).1[i as int],
{
    match k {
        YamlAstKind::Mapping(m) => (m.pairs[i].key_node, m.pairs[i].value),
        YamlAstKind::FlowMapping(f) => (Some(f.pairs[i].key), f.pairs[i].value),
        _ => (None, None),
    }
}

/// Whether two optional nodes hold the same value.
pub fn optional_nodes_equivalent(
    bs: &[char],
    bast: &YamlDocumentAst,
    b: Option<YamlNodeId>,
    bpi: usize,
    as_: &[char],
    aast: &YamlDocumentAst,
    a: Option<YamlNodeId>,
    api: usize,
    fuel: usize,
) -> (r: Result<bool, YamarkError>)
    requires
        spec_ast_ids_ok(*bast),
        spec_ast_ids_ok(*aast),
        spec_opt_id_ok(*bast, b),
        spec_opt_id_ok(*aast, a),
    ensures
        spec_outcome(r, spec_opt_nodes_eq(bs@, *bast, b, bpi, as_@, *aast, a, api, fuel as nat)),
    decreases fuel, 1int, 0int,
{
    match b {
        Some(bid) => match a {
            Some(aid) => nodes_equivalent(bs, bast, bid, bpi, as_, aast, aid, api, fuel),
            None => Ok(node_is_unadorned_null(bs, bast, bid)),
        },
        None => match a {
            Some(aid) => Ok(node_is_unadorned_null(as_, aast, aid)),
            None => Ok(true),
        },
    }
}

/// Whether two nodes hold the same value; `fuel` bounds the depth.
pub fn nodes_equivalent(
    bs: &[char],
    bast: &YamlDocumentAst,
    bid: YamlNodeId,
    bpi: usize,
    as_: &[char],
    aast: &YamlDocumentAst,
    aid: YamlNodeId,
    api: usize,
    fuel: usize,
) -> (r: Result<bool, YamarkError>)
    requires
        spec_ast_ids_ok(*bast),
        spec_ast_ids_ok(*aast),
        bid.spec_index() < bast.nodes@.len(),
        aid.spec_index() < aast.nodes@.len(),
    ensures
        spec_outcome(r, spec_nodes_eq(bs@, *bast, bid, bpi, as_@, *aast, aid, api, fuel as nat)),
    decreases fuel, 0int, 0int,
{
    if fuel == 0 {
        return Ok(false);
    }
    let bn = bast.node(bid);
    let an = aast.node(aid);
    if node_is_unadorned_null(bs, bast, bid) && node_is_unadorned_null(as_, aast, aid) {
        return Ok(true);
    }
    proof {
        assert(spec_children_ok(*bast, bast.nodes@[bid.spec_index() as int].kind));
        assert(spec_children_ok(*aast, aast.nodes@[aid.spec_index() as int].kind));
    }
    match &bn.kind {
        YamlAstKind::Scalar(b) => {
            let rule = scalar_emit_rule(&bn.emit);
            if rule == ScalarEmitRule::EmptyMarkdown {
                return match &an.kind {
                    YamlAstKind::Scalar(a) => {
                        let empty = match scalar_comparable(as_, a, api) {
                            Some(v) => comparable_scalar_is_empty_string(&v),
                            None => false,
                        };
                        Ok(
                            optional_span_text_equal(bs, b.tag, as_, a.tag)
                                && optional_span_text_equal(bs, b.anchor, as_, a.anchor)
                                && scalar_is_string_like(a) && empty,
                        )
                    },
                    _ => Ok(false),
                };
            }
            return match &an.kind {
                YamlAstKind::Scalar(a) => scalars_equivalent(bs, b, rule, bpi, as_, a, api),
                _ => Ok(false),
            };
        },
        _ => {},
    }
    if is_seq(&bn.kind) {
        if !is_seq(&an.kind) {
            return Ok(false);
        }
        return sequences_equivalent(bs, bast, &bn.kind, as_, aast, &an.kind, fuel - 1);
    }
    if is_map(&bn.kind) {
        if !is_map(&an.kind) {
            return Ok(false);
        }
        return mappings_equivalent(bs, bast, &bn.kind, as_, aast, &an.kind, fuel - 1);
    }
    match (&bn.kind, &an.kind) {
        (YamlAstKind::Empty, YamlAstKind::Empty) => Ok(true),
        (YamlAstKind::Empty, _) => Ok(false),
        (YamlAstKind::Alias(x), YamlAstKind::Alias(y)) => {
            let bx = text_range(bs, x.value.start, x.value.end);
            let ay = text_range(as_, y.value.start, y.value.end);
            let bt = trim_ascii(bx.as_slice());
            let at = trim_ascii(ay.as_slice());
            Ok(chars_eq(bt.as_slice(), at.as_slice()))
        },
        (YamlAstKind::Alias(_), _) => Ok(false),
        (_, YamlAstKind::Opaque(_)) => {
            let bx = text_range(bs, bn.span.start, bn.span.end);
            let ay = text_range(as_, an.span.start, an.span.end);
            Ok(chars_eq(bx.as_slice(), ay.as_slice()))
        },
        _ => Ok(false),
    }
}

/// Whether two sequences hold equivalent items with the same tag and
/// anchor.
pub fn sequences_equivalent(
    bs: &[char],
    bast: &YamlDocumentAst,
    bk: &YamlAstKind,
    as_: &[char],
    aast: &YamlDocumentAst,
    ak: &YamlAstKind,
    fuel: usize,
) -> (r: Result<bool, YamarkError>)
    requires
        spec_ast_ids_ok(*bast),
        spec_ast_ids_ok(*aast),
        spec_seq_view(*bk) is Some,
        spec_seq_view(*ak) is Some,
        spec_children_ok(*bast, *bk),
        spec_children_ok(*aast, *ak),
    ensures
        spec_outcome(
            r,
            spec_seq_eq(
                bs@,
                *bast,
                spec_seq_view(*bk)->0,
                as_@,
                *aast,
                spec_seq_view(*ak)->0,
                fuel as nat,
            ),
        ),
    decreases fuel, 3int, 0int,
{
    let ghost bv = spec_seq_view(*bk)->0;
    let ghost av = spec_seq_view(*ak)->0;
    let (bind, blen, btag, banchor) = seq_parts(bk);
    let (aind, alen, atag, aanchor) = seq_parts(ak);
    let seq_tag = str_chars("!!seq");
    if blen != alen || !collection_tag_equal(bs, btag, seq_tag.as_slice(), as_, atag)
        || !optional_span_text_equal(bs, banchor, as_, aanchor) {
        return Ok(false);
    }
    let mut k: usize = 0;
    while k < blen
        invariant
            k <= blen == bv.1.len() == av.1.len() == alen,
            bind == bv.0 && aind == av.0,
            spec_ast_ids_ok(*bast),
            spec_ast_ids_ok(*aast),
            bv == spec_seq_view(*bk)->0,
            av == spec_seq_view(*ak)->0,
            spec_children_ok(*bast, *bk),
            spec_children_ok(*aast, *ak),
            spec_seq_items(bs@, *bast, bv.1, bind, as_@, *aast, av.1, aind, k as int, fuel as nat)
                == spec_seq_items(bs@, *bast, bv.1, bind, as_@, *aast, av.1, aind, 0, fuel as nat),
        decreases blen - k,
    {
        let bi = seq_item(bk, k);
        let ai = seq_item(ak, k);
        assert(spec_opt_id_ok(*bast, bv.1[k as int]));
        assert(spec_opt_id_ok(*aast, av.1[k as int]));
        match optional_nodes_equivalent(bs, bast, bi, bind, as_, aast, ai, aind, fuel) {
            Err(e) => {
                return Err(e);
            },
            Ok(same) => {
                if !same {
                    return Ok(false);
                }
            },
        }
        k = k + 1;
    }
    Ok(true)
}

/// Whether two mappings hold equivalent keys and values with the same tag
/// and anchor.
pub fn mappings_equivalent(
    bs: &[char],
    bast: &YamlDocumentAst,
    bk: &YamlAstKind,
    as_: &[char],
    aast: &YamlDocumentAst,
    ak: &YamlAstKind,
    fuel: usize,
) -> (r: Result<bool, YamarkError>)
    requires
        spec_ast_ids_ok(*bast),
        spec_ast_ids_ok(*aast),
        spec_map_view(*bk) is Some,
        spec_map_view(*ak) is Some,
        spec_children_ok(*bast, *bk),
        spec_children_ok(*aast, *ak),
    ensures
        spec_outcome(
            r,
            spec_map_eq(
                bs@,
                *bast,
                spec_map_view(*bk)->0,
                as_@,
                *aast,
                spec_map_view(*ak)->0,
                fuel as nat,
            ),
        ),
    decreases fuel, 3int, 0int,
{
    let ghost bv = spec_map_view(*bk)->0;
    let ghost av = spec_map_view(*ak)->0;
    let (bind, blen, btag, banchor) = map_parts(bk);
    let (aind, alen, atag, aanchor) = map_parts(ak);
    let map_tag = str_chars("!!map");
    if blen != alen || !collection_tag_equal(bs, btag, map_tag.as_slice(), as_, atag)
        || !optional_span_text_equal(bs, banchor, as_, aanchor) {
        return Ok(false);
    }
    let mut k: usize = 0;
    while k < blen
        invariant
            k <= blen == bv.1.len() == av.1.len() == alen,
            bind == bv.0 && aind == av.0,
            spec_ast_ids_ok(*bast),
            spec_ast_ids_ok(*aast),
            bv == spec_map_view(*bk)->0,
            av == spec_map_view(*ak)->0,
            spec_children_ok(*bast, *bk),
            spec_children_ok(*aast, *ak),
            spec_map_pairs(bs@, *bast, bv.1, bind, as_@, *aast, av.1, aind, k as int, fuel as nat)
                == spec_map_pairs(bs@, *bast, bv.1, bind, as_@, *aast, av.1, aind, 0, fuel as nat),
        decreases blen - k,
    {
        let (bkey, bvalue) = map_pair(bk, k);
        let (akey, avalue) = map_pair(ak, k);
        assert(spec_opt_id_ok(*bast, bv.1[k as int].0) && spec_opt_id_ok(*bast, bv.1[k as int].1));
        assert(spec_opt_id_ok(*aast, av.1[k as int].0) && spec_opt_id_ok(*aast, av.1[k as int].1));
        let keys = match optional_nodes_equivalent(bs, bast, bkey, bind, as_, aast, akey, aind, fuel) {
            Err(e) => {
                return Err(e);
            },
            Ok(same) => same,
        };
        let values = match optional_nodes_equivalent(
            bs,
            bast,
            bvalue,
            bind,
            as_,
            aast,
            avalue,
            aind,
            fuel,
        ) {
            Err(e) => {
                return Err(e);
            },
            Ok(same) => same,
        };
        if !keys || !values {
            return Ok(false);
        }
        k = k + 1;
    }
    Ok(true)
}

/// The depth bound of a comparison: one more than the nodes of the
/// document before, which a tree's depth never reaches.
pub open spec fn spec_fuel(ast: YamlDocumentAst) -> nat {
    if ast.nodes@.len() < usize::MAX {
        ast.nodes@.len() + 1
    } else {
        ast.nodes@.len()
    }
}

/// The roots from the `k`-th on are pairwise equivalent.
pub open spec fn spec_roots_eq(
    bs: Seq<char>,
    bast: YamlDocumentAst,
    as_: Seq<char>,
    aast: YamlDocumentAst,
    k: int,
) -> Result<bool, Seq<char>>
    decreases bast.roots@.len() - k,
{
    if k < 0 || k >= bast.roots@.len() {
        Ok(true)
    } else {
        match spec_opt_nodes_eq(
            bs,
            bast,
            bast.roots@[k].node,
            0,
            as_,
            aast,
            aast.roots@[k].node,
            0,
            spec_fuel(bast),
        ) {
            Err(m) => Err(m),
            Ok(same) => if same {
                spec_roots_eq(bs, bast, as_, aast, k + 1)
            } else {
                Ok(false)
            },
        }
    }
}

/// Whether two parsed documents hold the same value: as many roots, each
/// pair equivalent.
pub open spec fn spec_asts_eq(
    bs: Seq<char>,
    bast: YamlDocumentAst,
    as_: Seq<char>,
    aast: YamlDocumentAst,
) -> Result<bool, Seq<char>> {
    if bast.roots@.len() != aast.roots@.len() {
        Ok(false)
    } else {
        spec_roots_eq(bs, bast, as_, aast, 0)
    }
}

/// Whether the document `after` (over `as_`) holds the value of `before`
/// (over `bs`).
pub fn yaml_asts_equivalent(
    bs: &[char],
    bast: &YamlDocumentAst,
    as_: &[char],
    aast: &YamlDocumentAst,
) -> (r: Result<bool, YamarkError>)
    requires
        spec_ast_ids_ok(*bast),
        spec_ast_ids_ok(*aast),
    ensures
        spec_outcome(r, spec_asts_eq(bs@, *bast, as_@, *aast)),
{
    let n = bast.roots.len();
    if n != aast.roots.len() {
        return Ok(false);
    }
    let count = bast.nodes.len();
    let fuel = if count < usize::MAX {
        count + 1
    } else {
        count
    };
    let mut k: usize = 0;
    while k < n
        invariant
            k <= n == bast.roots@.len() == aast.roots@.len(),
            fuel == spec_fuel(*bast),
            spec_ast_ids_ok(*bast),
            spec_ast_ids_ok(*aast),
            spec_roots_eq(bs@, *bast, as_@, *aast, k as int) == spec_roots_eq(
                bs@,
                *bast,
                as_@,
                *aast,
                0,
            ),
        decreases n - k,
    {
        let b = bast.roots[k].node;
        let a = aast.roots[k].node;
        assert(spec_opt_id_ok(*bast, bast.roots@[k as int].node));
        assert(spec_opt_id_ok(*aast, aast.roots@[k as int].node));
        match optional_nodes_equivalent(bs, bast, b, 0, as_, aast, a, 0, fuel) {
            Err(e) => {
                return Err(e);
            },
            Ok(same) => {
                if !same {
                    return Ok(false);
                }
            },
        }
        k = k + 1;
    }
    Ok(true)
}

/// A YAML document as the check sees it: its source, its range there, and
/// its parse, if it was parsed.
#[derive(Debug, Clone)]
pub struct YamlDocumentSide {
    pub source: Vec<char>,
    pub range: Span,
    pub yaml: Option<YamlDocumentAst>,
}

/// The text of a document.
pub open spec fn spec_document_text(d: YamlDocumentSide) -> Seq<char> {
    spec_clamped_range(d.source@, d.range.start as int, d.range.end as int)
}

/// Whether two documents hold the same value: unparsed ones by their text,
/// parsed ones by their trees.
pub open spec fn spec_documents_eq(b: YamlDocumentSide, a: YamlDocumentSide) -> Result<bool, Seq<char>> {
    match b.yaml {
        None => Ok(a.yaml is None && spec_document_text(b) == spec_document_text(a)),
        Some(bast) => match a.yaml {
            None => Ok(false),
            Some(aast) => spec_asts_eq(b.source@, bast, a.source@, aast),
        },
    }
}

pub fn yaml_documents_equivalent(b: &YamlDocumentSide, a: &YamlDocumentSide) -> (r: Result<
    bool,
    YamarkError,
>)
    requires
        b.yaml matches Some(t) ==> spec_ast_ids_ok(t),
        a.yaml matches Some(t) ==> spec_ast_ids_ok(t),
    ensures
        spec_outcome(r, spec_documents_eq(*b, *a)),
{
    match &b.yaml {
        None => {
            let bt = text_range(b.source.as_slice(), b.range.start, b.range.end);
            let at = text_range(a.source.as_slice(), a.range.start, a.range.end);
            Ok(a.yaml.is_none() && chars_eq(bt.as_slice(), at.as_slice()))
        },
        Some(bast) => match &a.yaml {
            None => Ok(false),
            Some(aast) => yaml_asts_equivalent(b.source.as_slice(), bast, a.source.as_slice(), aast),
        },
    }
}

/// The documents from the `k`-th on are pairwise equivalent.
pub open spec fn spec_documents_from(
    before: Seq<YamlDocumentSide>,
    after: Seq<YamlDocumentSide>,
    k: int,
) -> Result<bool, Seq<char>>
    decreases before.len() - k,
{
    if k < 0 || k >= before.len() {
        Ok(true)
    } else {
        match spec_documents_eq(before[k], after[k]) {
            Err(m) => Err(m),
            Ok(same) => if same {
                spec_documents_from(before, after, k + 1)
            } else {
                Ok(false)
            },
        }
    }
}

/// The outcome of checking that formatting kept the value of every YAML
/// document: the same number of documents, no character YAML forbids in
/// the output, and each pair equivalent; otherwise the error's message.
pub open spec fn spec_validate(before: Seq<YamlDocumentSide>, after: Seq<YamlDocumentSide>) -> Result<
    (),
    Seq<char>,
> {
    if before.len() != after.len() {
        Err(spec_changed_value())
    } else if exists|k: int, i: int|
        0 <= k < after.len() && 0 <= i < spec_document_text(after[k]).len()
            && spec_yaml_forbidden_character(#[trigger] spec_document_text(after[k])[i]) {
        Err(spec_invalid_output())
    } else {
        match spec_documents_from(before, after, 0) {
            Err(m) => Err(m),
            Ok(same) => if same {
                Ok(())
            } else {
                Err(spec_changed_value())
            },
        }
    }
}

/// Checks that the formatted YAML documents hold the values of the
/// documents before formatting.
pub fn validate_yaml_documents_equivalent(
    before: &Vec<YamlDocumentSide>,
    after: &Vec<YamlDocumentSide>,
) -> (r: Result<(), YamarkError>)
    requires
        forall|k: int| 0 <= k < before@.len() ==> ((#[trigger] before@[k]).yaml matches Some(t)
            ==> spec_ast_ids_ok(t)),
        forall|k: int| 0 <= k < after@.len() ==> ((#[trigger] after@[k]).yaml matches Some(t)
            ==> spec_ast_ids_ok(t)),
    ensures
        match spec_validate(before@, after@) {
            Ok(()) => r is Ok,
            Err(m) => r matches Err(e) && e.diagnostic.message@ == m,
        },
{
    if before.len() != after.len() {
        return Err(changed_value());
    }
    let mut k: usize = 0;
    while k < after.len()
        invariant
            k <= after@.len(),
            forall|j: int, i: int|
                0 <= j < k && 0 <= i < spec_document_text(after@[j]).len()
                    ==> !spec_yaml_forbidden_character(#[trigger] spec_document_text(after@[j])[i]),
        decreases after@.len() - k,
    {
        let text = text_range(after[k].source.as_slice(), after[k].range.start, after[k].range.end);
        let mut i: usize = 0;
        while i < text.len()
            invariant
                i <= text@.len(),
                text@ == spec_document_text(after@[k as int]),
                forall|m: int| 0 <= m < i ==> !spec_yaml_forbidden_character(#[trigger] text@[m]),
            decreases text@.len() - i,
        {
            if yaml_forbidden_character(text[i]) {
                assert(spec_yaml_forbidden_character(spec_document_text(after@[k as int])[i as int]));
                return Err(invalid_output());
            }
            i = i + 1;
        }
        k = k + 1;
    }
    let mut k: usize = 0;
    while k < before.len()
        invariant
            k <= before@.len() == after@.len(),
            forall|j: int| 0 <= j < before@.len() ==> ((#[trigger] before@[j]).yaml matches Some(t)
                ==> spec_ast_ids_ok(t)),
            forall|j: int| 0 <= j < after@.len() ==> ((#[trigger] after@[j]).yaml matches Some(t)
                ==> spec_ast_ids_ok(t)),
            spec_documents_from(before@, after@, k as int) == spec_documents_from(before@, after@, 0),
        decreases before@.len() - k,
    {
        match yaml_documents_equivalent(&before[k], &after[k]) {
            Err(e) => {
                return Err(e);
            },
            Ok(same) => {
                if !same {
                    return Err(changed_value());
                }
            },
        }
        k = k + 1;
    }
    Ok(())
}

} // verus!
