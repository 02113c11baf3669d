//! JSONC sources rendered as block-style YAML with their comments kept.
use vstd::prelude::*;
use crate::json_to_yaml::{emit_json_value, json_value_is_inline, spec_json_flow, spec_json_inline, JsonNode, JsonValue};
use crate::source::Span;
use crate::yaml_quote::{
    comment_lines, emit_yaml_comment_line, emit_yaml_mapping_key, push_yaml_indent, spec_comment_line,
    spec_comment_lines, spec_plain_json_key, spec_double_quoted, spec_trim_comment_line, trim_comment_line,
};

verus! {

/// A JSONC comment: its kind, its text without delimiters and its range.
#[derive(Debug, Clone)]
pub struct JsoncComment {
    pub block: bool,
    pub text: Vec<char>,
    pub range: Span,
}

/// The comments attached to one source position.
#[derive(Debug, Clone)]
pub struct JsoncCommentGroup {
    pub position: usize,
    pub comments: Vec<JsoncComment>,
}

/// Emits each comment once, at the first position it is attached to.
pub struct JsoncCommentEmitter {
    pub groups: Vec<JsoncCommentGroup>,
    pub emitted_through: usize,
}

/// `indent` spaces.
pub open spec fn spec_indent(indent: usize) -> Seq<char> {
    Seq::new(indent as nat, |_i: int| ' ')
}

/// The comment lines of the lines of a block comment.
pub open spec fn spec_block_comment_lines(lines: Seq<Seq<char>>, indent: usize) -> Seq<char>
    decreases lines.len(),
{
    if lines.len() == 0 {
        seq![]
    } else {
        spec_block_comment_lines(lines.drop_last(), indent) + spec_comment_line(
            spec_trim_comment_line(lines.last()),
            indent as nat,
            "jsonc"@,
        )
    }
}

/// A comment as YAML comment lines: a line comment as one line, a block
/// comment as one line per line of its text.
pub open spec fn spec_jsonc_comment(c: JsoncComment, indent: usize) -> Seq<char> {
    if c.block {
        spec_block_comment_lines(spec_comment_lines(c.text@), indent)
    } else {
        spec_comment_line(c.text@, indent as nat, "jsonc"@)
    }
}

/// Emitting the comments `cs[k..]`: each one that ends after everything
/// emitted so far goes on a line of its own; the result is the new
/// high-water mark and the output.
pub open spec fn spec_emit_comments(cs: Seq<JsoncComment>, k: int, emitted: int, out: Seq<char>, indent: usize) -> (
    int,
    Seq<char>,
)
    decreases cs.len() - k,
{
    if k < 0 || k >= cs.len() {
        (emitted, out)
    } else if cs[k].range.end <= emitted {
        spec_emit_comments(cs, k + 1, emitted, out, indent)
    } else {
        let broken = if out.len() > 0 && out.last() != '\n' {
            out.push('\n')
        } else {
            out
        };
        spec_emit_comments(cs, k + 1, cs[k].range.end as int, broken + spec_jsonc_comment(cs[k], indent), indent)
    }
}

/// The first group attached to `position`.
pub open spec fn spec_group_at(groups: Seq<JsoncCommentGroup>, position: int, g: int) -> Option<int>
    decreases groups.len() - g,
{
    if g < 0 || g >= groups.len() {
        None
    } else if groups[g].position == position {
        Some(g)
    } else {
        spec_group_at(groups, position, g + 1)
    }
}

/// Emitting the comments attached to `position`.
pub open spec fn spec_emit_at(groups: Seq<JsoncCommentGroup>, emitted: int, out: Seq<char>, position: int, indent: usize) -> (
    int,
    Seq<char>,
) {
    match spec_group_at(groups, position, 0) {
        None => (emitted, out),
        Some(g) => spec_emit_comments(groups[g].comments@, 0, emitted, out, indent),
    }
}

/// `position + 1`, kept at the largest `usize`.
pub open spec fn spec_after(position: usize) -> int {
    if position < usize::MAX {
        position + 1
    } else {
        position as int
    }
}

/// `position - 1`, kept at zero.
pub open spec fn spec_before(position: usize) -> int {
    if position > 0 {
        position - 1
    } else {
        0
    }
}

/// For an empty array or object, emitting the comments just inside its
/// brackets; nothing for other values.
pub open spec fn spec_empty_container(groups: Seq<JsoncCommentGroup>, emitted: int, out: Seq<char>, n: JsonNode, indent: usize) -> (
    int,
    Seq<char>,
) {
    let empty = match n.value {
        JsonValue::Array(items) => items@.len() == 0,
        JsonValue::Object(props) => props@.len() == 0,
        _ => false,
    };
    if !empty {
        (emitted, out)
    } else {
        let (e1, o1) = spec_emit_at(groups, emitted, out, spec_after(n.range.start), indent);
        spec_emit_at(groups, e1, o1, spec_before(n.range.end), indent)
    }
}

/// The indentation of a nested block: two more, kept at the largest
/// `usize`.
pub open spec fn spec_child_indent(indent: usize) -> usize {
    if indent <= usize::MAX - 2 {
        (indent + 2) as usize
    } else {
        usize::MAX
    }
}

/// A mapping key as YAML: plain when it can be, else double-quoted.
pub open spec fn spec_key(k: Seq<char>) -> Seq<char> {
    if spec_plain_json_key(k) {
        k
    } else {
        spec_double_quoted(k)
    }
}

/// A JSONC value as block-style YAML at `indent`, with the comments of the
/// source placed before the entries they precede: the new high-water mark
/// of emitted comments and the output.
pub open spec fn spec_jsonc_block(n: JsonNode, indent: usize, groups: Seq<JsoncCommentGroup>, emitted: int, out: Seq<char>) -> (
    int,
    Seq<char>,
)
    decreases n,
{
    match n.value {
        JsonValue::Array(items) => {
            let (e1, o1) = spec_emit_at(groups, emitted, out, spec_after(n.range.start), indent);
            let o2 = if items@.len() == 0 {
                o1 + spec_indent(indent) + seq!['[', ']', '\n']
            } else {
                o1
            };
            let (e3, o3) = spec_jsonc_items(items@, indent, groups, e1, o2);
            spec_emit_at(groups, e3, o3, spec_before(n.range.end), indent)
        },
        JsonValue::Object(props) => {
            let (e1, o1) = spec_emit_at(groups, emitted, out, spec_after(n.range.start), indent);
            let o2 = if props@.len() == 0 {
                o1 + spec_indent(indent) + seq!['{', '}', '\n']
            } else {
                o1
            };
            let (e3, o3) = spec_jsonc_props(props@, indent, groups, e1, o2);
            spec_emit_at(groups, e3, o3, spec_before(n.range.end), indent)
        },
        _ => (emitted, out + spec_indent(indent) + spec_json_flow(n) + seq!['\n']),
    }
}

/// The items of a block sequence, each with the comments before it.
pub open spec fn spec_jsonc_items(items: Seq<JsonNode>, indent: usize, groups: Seq<JsoncCommentGroup>, emitted: int, out: Seq<char>) -> (
    int,
    Seq<char>,
)
    decreases items,
{
    if items.len() == 0 {
        (emitted, out)
    } else {
        let item = items[0];
        let (e1, o1) = spec_emit_at(groups, emitted, out, item.range.start as int, indent);
        let (e2, o2) = spec_empty_container(groups, e1, o1, item, indent);
        let o3 = o2 + spec_indent(indent);
        let (e4, o4) = if spec_json_inline(item) {
            (e2, o3 + seq!['-', ' '] + spec_json_flow(item) + seq!['\n'])
        } else {
            spec_jsonc_block(item, spec_child_indent(indent), groups, e2, o3 + seq!['-', '\n'])
        };
        let (e5, o5) = spec_emit_at(groups, e4, o4, item.range.end as int, indent);
        spec_jsonc_items(items.subrange(1, items.len() as int), indent, groups, e5, o5)
    }
}

/// The members of a block mapping, each with the comments around its key
/// and before its value.
pub open spec fn spec_jsonc_props(
    props: Seq<crate::json_to_yaml::JsonProperty>,
    indent: usize,
    groups: Seq<JsoncCommentGroup>,
    emitted: int,
    out: Seq<char>,
) -> (int, Seq<char>)
    decreases props,
{
    if props.len() == 0 {
        (emitted, out)
    } else {
        let p = props[0];
        let (e1, o1) = spec_emit_at(groups, emitted, out, p.key_range.start as int, indent);
        let (e2, o2) = spec_emit_at(groups, e1, o1, p.key_range.end as int, indent);
        let (e3, o3) = spec_emit_at(groups, e2, o2, p.value.range.start as int, indent);
        let (e4, o4) = spec_empty_container(groups, e3, o3, p.value, indent);
        let o5 = o4 + spec_indent(indent) + spec_key(p.key@);
        let (e6, o6) = if spec_json_inline(p.value) {
            (e4, o5 + seq![':', ' '] + spec_json_flow(p.value) + seq!['\n'])
        } else {
            spec_jsonc_block(p.value, spec_child_indent(indent), groups, e4, o5 + seq![':', '\n'])
        };
        let (e7, o7) = spec_emit_at(groups, e6, o6, p.value.range.end as int, indent);
        spec_jsonc_props(props.subrange(1, props.len() as int), indent, groups, e7, o7)
    }
}

/// A JSONC document as YAML: one flow value when it has no comments, else
/// block style with the comments before, inside and after the value.
pub open spec fn spec_render_jsonc(value: JsonNode, groups: Seq<JsoncCommentGroup>) -> Seq<char> {
    if groups.len() == 0 {
        spec_json_flow(value) + seq!['\n']
    } else {
        let (e1, o1) = spec_emit_at(groups, 0, seq![], value.range.start as int, 0);
        let (e2, o2) = spec_jsonc_block(value, 0, groups, e1, o1);
        spec_emit_at(groups, e2, o2, value.range.end as int, 0).1
    }
}

/// Appends the lines of a block comment.
fn emit_block_comment(out: &mut Vec<char>, text: &[char], indent: usize)
    ensures
        final(out)@ == old(out)@ + spec_block_comment_lines(spec_comment_lines(text@), indent),
{
    let lines = comment_lines(text);
    let ghost lv = lines@.map_values(|v: Vec<char>| v@);
    let ghost o = out@;
    let dialect = vec!['j', 's', 'o', 'n', 'c'];
    assert(dialect@ =~= "jsonc"@) by {
        reveal_strlit("jsonc");
    }
    let mut m: usize = 0;
    while m < lines.len()
        invariant
            m <= lines@.len(),
            lv == lines@.map_values(|v: Vec<char>| v@),
            lv == spec_comment_lines(text@),
            dialect@ == "jsonc"@,
            out@ == o + spec_block_comment_lines(lv.subrange(0, m as int), indent),
        decreases lines@.len() - m,
    {
        proof {
            let pre = lv.subrange(0, m + 1);
            assert(pre.drop_last() =~= lv.subrange(0, m as int));
            assert(pre.last() == lines@[m as int]@);
        }
        let line = trim_comment_line(lines[m].as_slice());
        emit_yaml_comment_line(out, line.as_slice(), indent, dialect.as_slice());
        m = m + 1;
    }
    assert(lv.subrange(0, lines@.len() as int) =~= lv);
}

impl JsoncCommentEmitter {
    pub fn new(groups: Vec<JsoncCommentGroup>) -> (r: Self)
        ensures
            r.groups@ == groups@,
            r.emitted_through == 0,
    {
        JsoncCommentEmitter { groups, emitted_through: 0 }
    }

    /// Emits the comments attached to `position` that end after everything
    /// emitted so far, as YAML comment lines at `indent`.
    pub fn emit_at(&mut self, out: &mut Vec<char>, position: usize, indent: usize)
        ensures
            final(self).groups@ == old(self).groups@,
            (final(self).emitted_through as int, final(out)@) == spec_emit_at(
                old(self).groups@,
                old(self).emitted_through as int,
                old(out)@,
                position as int,
                indent,
            ),
    {
        let mut g: usize = 0;
        while g < self.groups.len() && self.groups[g].position != position
            invariant
                self.groups@ == old(self).groups@,
                self.emitted_through == old(self).emitted_through,
                out@ == old(out)@,
                spec_group_at(self.groups@, position as int, g as int) == spec_group_at(self.groups@, position as int, 0),
            decreases self.groups@.len() - g,
        {
            g = g + 1;
        }
        if g >= self.groups.len() {
            return;
        }
        let dialect = vec!['j', 's', 'o', 'n', 'c'];
        assert(dialect@ =~= "jsonc"@) by {
            reveal_strlit("jsonc");
        }
        let ghost cs = self.groups@[g as int].comments@;
        let mut k: usize = 0;
        while k < self.groups[g].comments.len()
            invariant
                g < self.groups@.len(),
                self.groups@ == old(self).groups@,
                cs == self.groups@[g as int].comments@,
                dialect@ == "jsonc"@,
                spec_emit_comments(cs, k as int, self.emitted_through as int, out@, indent) == spec_emit_comments(
                    cs,
                    0,
                    old(self).emitted_through as int,
                    old(out)@,
                    indent,
                ),
            decreases cs.len() - k,
        {
            let range = self.groups[g].comments[k].range;
            if range.end > self.emitted_through {
                self.emitted_through = range.end;
                if out.len() > 0 && out[out.len() - 1] != '\n' {
                    out.push('\n');
                }
                if self.groups[g].comments[k].block {
                    emit_block_comment(out, self.groups[g].comments[k].text.as_slice(), indent);
                } else {
                    emit_yaml_comment_line(
                        out,
                        self.groups[g].comments[k].text.as_slice(),
                        indent,
                        dialect.as_slice(),
                    );
                }
            }
            k = k + 1;
        }
    }

    /// For an empty array or object, emits the comments just inside its
    /// brackets.
    pub fn emit_empty_container_comments(&mut self, out: &mut Vec<char>, value: &JsonNode, indent: usize)
        ensures
            final(self).groups@ == old(self).groups@,
            (final(self).emitted_through as int, final(out)@) == spec_empty_container(
                old(self).groups@,
                old(self).emitted_through as int,
                old(out)@,
                *value,
                indent,
            ),
    {
        let empty = match &value.value {
            JsonValue::Array(items) => items.len() == 0,
            JsonValue::Object(props) => props.len() == 0,
            _ => false,
        };
        if !empty {
            return;
        }
        let start = if value.range.start < usize::MAX {
            value.range.start + 1
        } else {
            value.range.start
        };
        self.emit_at(out, start, indent);
        let end = if value.range.end > 0 {
            value.range.end - 1
        } else {
            0
        };
        self.emit_at(out, end, indent);
    }
}


/// Appends a JSONC value as block-style YAML at `indent`, with the comments
/// of the source placed before the entries they precede.
#[verifier::rlimit(60)]
pub fn emit_jsonc_block_value(
    out: &mut Vec<char>,
    n: &JsonNode,
    indent: usize,
    comments: &mut JsoncCommentEmitter,
)
    ensures
        final(comments).groups@ == old(comments).groups@,
        (final(comments).emitted_through as int, final(out)@) == spec_jsonc_block(
            *n,
            indent,
            old(comments).groups@,
            old(comments).emitted_through as int,
            old(out)@,
        ),
    decreases n,
{
    let ghost groups = comments.groups@;
    match &n.value {
        JsonValue::Array(items) => {
            let inner_start = if n.range.start < usize::MAX {
                n.range.start + 1
            } else {
                n.range.start
            };
            comments.emit_at(out, inner_start, indent);
            if items.len() == 0 {
                push_yaml_indent(out, indent);
                out.push('[');
                out.push(']');
                out.push('\n');
                assert(out@ =~= spec_emit_at(groups, old(comments).emitted_through as int, old(out)@, spec_after(n.range.start), indent).1
                    + spec_indent(indent) + seq!['[', ']', '\n']);
            }
            let ghost target = spec_jsonc_items(items@, indent, groups, comments.emitted_through as int, out@);
            let mut i: usize = 0;
            assert(items@.subrange(0, items@.len() as int) =~= items@);
            while i < items.len()
                invariant
                    i <= items@.len(),
                    comments.groups@ == groups,
                    spec_jsonc_items(items@.subrange(i as int, items@.len() as int), indent, groups, comments.emitted_through as int, out@)
                        == target,
                decreases items@.len() - i,
            {
                let item = &items[i];
                proof {
                    let rest = items@.subrange(i as int, items@.len() as int);
                    assert(rest[0] == *item);
                    assert(rest.subrange(1, rest.len() as int) =~= items@.subrange(i + 1, items@.len() as int));
                }
                comments.emit_at(out, item.range.start, indent);
                comments.emit_empty_container_comments(out, item, indent);
                push_yaml_indent(out, indent);
                let ghost o3 = out@;
                if json_value_is_inline(item) {
                    out.push('-');
                    out.push(' ');
                    emit_json_value(out, item);
                    out.push('\n');
                    assert(out@ =~= o3 + seq!['-', ' '] + spec_json_flow(*item) + seq!['\n']);
                } else {
                    out.push('-');
                    out.push('\n');
                    assert(out@ =~= o3 + seq!['-', '\n']);
                    assert(decreases_to!(n => items@[i as int]));
                    let child_indent = if indent <= usize::MAX - 2 {
                        indent + 2
                    } else {
                        usize::MAX
                    };
                    emit_jsonc_block_value(out, item, child_indent, comments);
                }
                comments.emit_at(out, item.range.end, indent);
                i = i + 1;
            }
            let inner_end = if n.range.end > 0 {
                n.range.end - 1
            } else {
                0
            };
            assert(items@.subrange(items@.len() as int, items@.len() as int).len() == 0);
            comments.emit_at(out, inner_end, indent);
        },
        JsonValue::Object(props) => {
            let inner_start = if n.range.start < usize::MAX {
                n.range.start + 1
            } else {
                n.range.start
            };
            comments.emit_at(out, inner_start, indent);
            if props.len() == 0 {
                push_yaml_indent(out, indent);
                out.push('{');
                out.push('}');
                out.push('\n');
                assert(out@ =~= spec_emit_at(groups, old(comments).emitted_through as int, old(out)@, spec_after(n.range.start), indent).1
                    + spec_indent(indent) + seq!['{', '}', '\n']);
            }
            let ghost target = spec_jsonc_props(props@, indent, groups, comments.emitted_through as int, out@);
            let mut i: usize = 0;
            assert(props@.subrange(0, props@.len() as int) =~= props@);
            while i < props.len()
                invariant
                    i <= props@.len(),
                    comments.groups@ == groups,
                    spec_jsonc_props(props@.subrange(i as int, props@.len() as int), indent, groups, comments.emitted_through as int, out@)
                        == target,
                decreases props@.len() - i,
            {
                let p = &props[i];
                proof {
                    let rest = props@.subrange(i as int, props@.len() as int);
                    assert(rest[0] == *p);
                    assert(rest.subrange(1, rest.len() as int) =~= props@.subrange(i + 1, props@.len() as int));
                }
                comments.emit_at(out, p.key_range.start, indent);
                comments.emit_at(out, p.key_range.end, indent);
                comments.emit_at(out, p.value.range.start, indent);
                comments.emit_empty_container_comments(out, &p.value, indent);
                let ghost o4 = out@;
                push_yaml_indent(out, indent);
                emit_yaml_mapping_key(out, p.key.as_slice());
                let ghost o5 = out@;
                assert(o5 =~= o4 + spec_indent(indent) + spec_key(p.key@));
                if json_value_is_inline(&p.value) {
                    out.push(':');
                    out.push(' ');
                    emit_json_value(out, &p.value);
                    out.push('\n');
                    assert(out@ =~= o5 + seq![':', ' '] + spec_json_flow(p.value) + seq!['\n']);
                } else {
                    out.push(':');
                    out.push('\n');
                    assert(out@ =~= o5 + seq![':', '\n']);
                    assert(decreases_to!(n => props@[i as int].value));
                    let child_indent = if indent <= usize::MAX - 2 {
                        indent + 2
                    } else {
                        usize::MAX
                    };
                    emit_jsonc_block_value(out, &p.value, child_indent, comments);
                }
                comments.emit_at(out, p.value.range.end, indent);
                i = i + 1;
            }
            let inner_end = if n.range.end > 0 {
                n.range.end - 1
            } else {
                0
            };
            comments.emit_at(out, inner_end, indent);
        },
        _ => {
            let ghost o = out@;
            push_yaml_indent(out, indent);
            emit_json_value(out, n);
            out.push('\n');
            assert(out@ =~= o + spec_indent(indent) + spec_json_flow(*n) + seq!['\n']);
        },
    }
}

/// A JSONC document rendered as YAML: flow style when it has no comments,
/// block style with the comments kept otherwise.
pub fn render_jsonc(value: &JsonNode, groups: Vec<JsoncCommentGroup>) -> (r: Vec<char>)
    ensures
        r@ == spec_render_jsonc(*value, groups@),
{
    if groups.len() == 0 {
        let mut out: Vec<char> = Vec::new();
        emit_json_value(&mut out, value);
        out.push('\n');
        assert(out@ =~= spec_json_flow(*value) + seq!['\n']);
        return out;
    }
    let mut out: Vec<char> = Vec::new();
    let mut comments = JsoncCommentEmitter::new(groups);
    comments.emit_at(&mut out, value.range.start, 0);
    emit_jsonc_block_value(&mut out, value, 0, &mut comments);
    comments.emit_at(&mut out, value.range.end, 0);
    out
}

} // verus!
