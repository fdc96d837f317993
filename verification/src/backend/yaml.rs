//! CamillaDSP reads YAML from disk, so a config held as JSON is written back out through here.
//! Only plain shapes are written: no anchors, no tags, no folding.
use vstd::prelude::*;

use super::json::{entry_views, jviews, lemma_array_view, lemma_object_view, JsonValue, JsonView};
use crate::text::{chars_of, push_char, push_str};

verus! {

pub open spec fn spaces(n: nat) -> Seq<char> {
    Seq::new(n, |i: int| ' ')
}

pub open spec fn escape_char(c: char) -> Seq<char> {
    if c == '\\' {
        "\\\\"@
    } else if c == '"' {
        "\\\""@
    } else if c == '\n' {
        "\\n"@
    } else {
        seq![c]
    }
}

/// Backslashes, double quotes and newlines escaped.
pub open spec fn escape(s: Seq<char>) -> Seq<char>
    decreases s.len(),
{
    if s.len() == 0 {
        Seq::empty()
    } else {
        escape(s.drop_last()) + escape_char(s.last())
    }
}

/// A double-quoted string.
pub open spec fn quote(s: Seq<char>) -> Seq<char> {
    "\""@ + escape(s) + "\""@
}

pub open spec fn plain_key_char(c: char) -> bool {
    ('a' <= c && c <= 'z') || ('A' <= c && c <= 'Z') || ('0' <= c && c <= '9') || c == '_' || c
        == '-' || c == '.'
}

/// A key is written bare when it is non-empty and only ASCII letters, digits, `_`, `-`, `.`.
pub open spec fn key_text(k: Seq<char>) -> Seq<char> {
    if k.len() > 0 && forall|i: int| 0 <= i < k.len() ==> plain_key_char(#[trigger] k[i]) {
        k
    } else {
        quote(k)
    }
}

/// A value written on one line.
pub open spec fn scalar(v: JsonView) -> Seq<char> {
    match v {
        JsonView::Null => "null"@,
        JsonView::Bool(b) => if b {
            "true"@
        } else {
            "false"@
        },
        JsonView::Number(n) => n,
        JsonView::String(s) => quote(s),
        JsonView::Object(_) => "{}"@,
        JsonView::Array(_) => "[]"@,
    }
}

/// Indentation before entry `i`: none for the first one when it continues a `- ` line.
pub open spec fn pad(indent: nat, inline_start: bool, i: nat) -> Seq<char> {
    if inline_start && i == 0 {
        Seq::empty()
    } else {
        spaces(indent)
    }
}

/// A value at the given indentation: an object's entries as `key:` lines, an array's items as
/// `- ` lines, anything else (and an empty object or array) as a scalar line.
pub open spec fn node(v: JsonView, indent: nat, inline_start: bool) -> Seq<char>
    decreases v, 1nat, 0nat,
{
    match v {
        JsonView::Object(m) => if m.len() > 0 {
            entries(m, indent, inline_start, m.len())
        } else {
            scalar(v) + "\n"@
        },
        JsonView::Array(a) => if a.len() > 0 {
            items(a, indent, inline_start, a.len())
        } else {
            scalar(v) + "\n"@
        },
        _ => scalar(v) + "\n"@,
    }
}

/// The first `n` entries of an object.
pub open spec fn entries(m: Seq<(Seq<char>, JsonView)>, indent: nat, inline_start: bool, n: nat) -> Seq<
    char,
>
    decreases m, 0nat, n,
{
    if n == 0 || n > m.len() {
        Seq::empty()
    } else {
        entries(m, indent, inline_start, (n - 1) as nat) + pad(indent, inline_start, (n - 1) as nat)
            + key_text(m[n - 1].0) + ":"@ + child(m[n - 1].1, indent)
    }
}

/// What follows `key:`: an empty object or array inline, a non-empty one on the lines below,
/// indented two more, a scalar after a space.
pub open spec fn child(c: JsonView, indent: nat) -> Seq<char>
    decreases c, 2nat, 0nat,
{
    match c {
        JsonView::Object(m) => if m.len() == 0 {
            " {}\n"@
        } else {
            "\n"@ + node(c, indent + 2, false)
        },
        JsonView::Array(a) => if a.len() == 0 {
            " []\n"@
        } else {
            "\n"@ + node(c, indent + 2, false)
        },
        _ => " "@ + scalar(c) + "\n"@,
    }
}

/// The first `n` items of an array.
pub open spec fn items(a: Seq<JsonView>, indent: nat, inline_start: bool, n: nat) -> Seq<char>
    decreases a, 0nat, n,
{
    if n == 0 || n > a.len() {
        Seq::empty()
    } else {
        items(a, indent, inline_start, (n - 1) as nat) + pad(indent, inline_start, (n - 1) as nat)
            + "- "@ + item(a[n - 1], indent)
    }
}

/// What follows `- `: an object or array continues on the same line, indented two more.
pub open spec fn item(x: JsonView, indent: nat) -> Seq<char>
    decreases x, 2nat, 0nat,
{
    match x {
        JsonView::Object(_) | JsonView::Array(_) => node(x, indent + 2, true),
        _ => scalar(x) + "\n"@,
    }
}

/// The document, ending in a newline.
pub open spec fn to_yaml_spec(v: JsonView) -> Seq<char> {
    let out = node(v, 0, false);
    if out.len() > 0 && out.last() == '\n' {
        out
    } else {
        out.push('\n')
    }
}

/// How deeply arrays and objects nest in a value.
pub open spec fn height(v: JsonView) -> nat
    decreases v, 1nat,
{
    match v {
        JsonView::Object(m) => 1 + entries_height(m, m.len()),
        JsonView::Array(a) => 1 + items_height(a, a.len()),
        _ => 0,
    }
}

pub open spec fn entries_height(m: Seq<(Seq<char>, JsonView)>, n: nat) -> nat
    decreases m, n,
{
    if n == 0 || n > m.len() {
        0
    } else {
        let h = height(m[n - 1].1);
        let r = entries_height(m, (n - 1) as nat);
        if h > r {
            h
        } else {
            r
        }
    }
}

pub open spec fn items_height(a: Seq<JsonView>, n: nat) -> nat
    decreases a, n,
{
    if n == 0 || n > a.len() {
        0
    } else {
        let h = height(a[n - 1]);
        let r = items_height(a, (n - 1) as nat);
        if h > r {
            h
        } else {
            r
        }
    }
}

proof fn lemma_entries_height(m: Seq<(Seq<char>, JsonView)>, n: nat, i: int)
    requires
        0 <= i < n <= m.len(),
    ensures
        height(m[i].1) <= entries_height(m, n),
    decreases n,
{
    if i < n - 1 {
        lemma_entries_height(m, (n - 1) as nat, i);
    }
}

proof fn lemma_items_height(a: Seq<JsonView>, n: nat, i: int)
    requires
        0 <= i < n <= a.len(),
    ensures
        height(a[i]) <= items_height(a, n),
    decreases n,
{
    if i < n - 1 {
        lemma_items_height(a, (n - 1) as nat, i);
    }
}

fn push_spaces(out: &mut String, n: usize)
    ensures
        final(out)@ == old(out)@ + spaces(n as nat),
{
    let mut i: usize = 0;
    while i < n
        invariant
            i <= n,
            out@ == old(out)@ + spaces(i as nat),
        decreases n - i,
    {
        push_char(out, ' ');
        assert(spaces((i + 1) as nat) =~= spaces(i as nat).push(' '));
        i += 1;
    }
}

fn push_pad(out: &mut String, indent: usize, inline_start: bool, i: usize)
    ensures
        final(out)@ == old(out)@ + pad(indent as nat, inline_start, i as nat),
{
    if !(inline_start && i == 0) {
        push_spaces(out, indent);
    } else {
        assert(old(out)@ =~= old(out)@ + pad(indent as nat, inline_start, i as nat));
    }
}

fn push_quoted(out: &mut String, s: &str)
    ensures
        final(out)@ == old(out)@ + quote(s@),
{
    let v = chars_of(s);
    push_str(out, "\"");
    let ghost start = out@;
    let mut i: usize = 0;
    while i < v.len()
        invariant
            i <= v@.len(),
            v@ == s@,
            out@ == start + escape(v@.take(i as int)),
        decreases v@.len() - i,
    {
        let c = v[i];
        if c == '\\' {
            push_str(out, "\\\\");
        } else if c == '"' {
            push_str(out, "\\\"");
        } else if c == '\n' {
            push_str(out, "\\n");
        } else {
            push_char(out, c);
        }
        assert(v@.take(i + 1).drop_last() =~= v@.take(i as int));
        assert(out@ =~= start + escape(v@.take(i + 1)));
        i += 1;
    }
    assert(v@.take(v@.len() as int) =~= v@);
    push_str(out, "\"");
    assert(out@ =~= old(out)@ + quote(s@));
}

fn push_key(out: &mut String, k: &str)
    ensures
        final(out)@ == old(out)@ + key_text(k@),
{
    let v = chars_of(k);
    let mut plain = v.len() > 0;
    let mut i: usize = 0;
    while i < v.len()
        invariant
            i <= v@.len(),
            plain == (v@.len() > 0 && forall|j: int| 0 <= j < i ==> plain_key_char(#[trigger] v@[j])),
        decreases v@.len() - i,
    {
        let c = v[i];
        let ok = ('a' <= c && c <= 'z') || ('A' <= c && c <= 'Z') || ('0' <= c && c <= '9') || c
            == '_' || c == '-' || c == '.';
        if !ok {
            plain = false;
        }
        i += 1;
    }
    if plain {
        push_str(out, k);
    } else {
        push_quoted(out, k);
    }
}

fn push_scalar(out: &mut String, v: &JsonValue)
    ensures
        final(out)@ == old(out)@ + scalar(v@),
{
    match v {
        JsonValue::Null => push_str(out, "null"),
        JsonValue::Bool(b) => if *b {
            push_str(out, "true")
        } else {
            push_str(out, "false")
        },
        JsonValue::Number(n) => push_str(out, n.as_str()),
        JsonValue::String(s) => push_quoted(out, s.as_str()),
        JsonValue::Object(_) => push_str(out, "{}"),
        JsonValue::Array(_) => push_str(out, "[]"),
    }
}

fn write_node(out: &mut String, v: &JsonValue, indent: usize, inline_start: bool)
    requires
        indent + 2 * height(v@) <= usize::MAX,
    ensures
        final(out)@ == old(out)@ + node(v@, indent as nat, inline_start),
    decreases v, 1nat, 0nat,
{
    match v {
        JsonValue::Object(m) => {
            proof {
                lemma_object_view(*m);
            }
            let ghost ev = entry_views(m@);
            if m.len() == 0 {
                push_scalar(out, v);
                push_str(out, "\n");
                return;
            }
            let mut i: usize = 0;
            while i < m.len()
                invariant
                    i <= m@.len(),
                    *v == JsonValue::Object(*m),
                    ev == entry_views(m@),
                    v@ == JsonView::Object(ev),
                    indent + 2 * height(v@) <= usize::MAX,
                    out@ == old(out)@ + entries(ev, indent as nat, inline_start, i as nat),
                decreases m@.len() - i,
            {
                proof {
                    assert(decreases_to!(*v => v->Object_0));
                    assert(decreases_to!(v->Object_0 => v->Object_0@));
                    assert(decreases_to!(v->Object_0@ => v->Object_0@[i as int]));
                    assert(decreases_to!(v->Object_0@[i as int] => v->Object_0@[i as int].1));
                    assert(ev[i as int] == (m@[i as int].0@, m@[i as int].1@));
                    lemma_entries_height(ev, ev.len(), i as int);
                }
                let ghost mid = out@;
                push_pad(out, indent, inline_start, i);
                push_key(out, m[i].0.as_str());
                push_str(out, ":");
                write_child(out, &m[i].1, indent);
                assert(out@ =~= old(out)@ + entries(ev, indent as nat, inline_start, (i + 1) as nat));
                i += 1;
            }
        },
        JsonValue::Array(a) => {
            proof {
                lemma_array_view(*a);
            }
            let ghost av = jviews(a@);
            if a.len() == 0 {
                push_scalar(out, v);
                push_str(out, "\n");
                return;
            }
            let mut i: usize = 0;
            while i < a.len()
                invariant
                    i <= a@.len(),
                    *v == JsonValue::Array(*a),
                    av == jviews(a@),
                    v@ == JsonView::Array(av),
                    indent + 2 * height(v@) <= usize::MAX,
                    out@ == old(out)@ + items(av, indent as nat, inline_start, i as nat),
                decreases a@.len() - i,
            {
                proof {
                    assert(decreases_to!(*v => v->Array_0));
                    assert(decreases_to!(v->Array_0 => v->Array_0@));
                    assert(decreases_to!(v->Array_0@ => v->Array_0@[i as int]));
                    assert(av[i as int] == a@[i as int]@);
                    lemma_items_height(av, av.len(), i as int);
                }
                push_pad(out, indent, inline_start, i);
                push_str(out, "- ");
                write_item(out, &a[i], indent);
                assert(out@ =~= old(out)@ + items(av, indent as nat, inline_start, (i + 1) as nat));
                i += 1;
            }
        },
        _ => {
            push_scalar(out, v);
            push_str(out, "\n");
        },
    }
}

fn write_child(out: &mut String, c: &JsonValue, indent: usize)
    requires
        indent + 2 + 2 * height(c@) <= usize::MAX,
    ensures
        final(out)@ == old(out)@ + child(c@, indent as nat),
    decreases c, 2nat, 0nat,
{
    match c {
        JsonValue::Object(m) => {
            proof {
                lemma_object_view(*m);
            }
            if m.len() == 0 {
                push_str(out, " {}\n");
            } else {
                push_str(out, "\n");
                write_node(out, c, indent + 2, false);
            }
        },
        JsonValue::Array(a) => {
            proof {
                lemma_array_view(*a);
            }
            if a.len() == 0 {
                push_str(out, " []\n");
            } else {
                push_str(out, "\n");
                write_node(out, c, indent + 2, false);
            }
        },
        _ => {
            push_str(out, " ");
            push_scalar(out, c);
            push_str(out, "\n");
        },
    }
}

fn write_item(out: &mut String, x: &JsonValue, indent: usize)
    requires
        indent + 2 + 2 * height(x@) <= usize::MAX,
    ensures
        final(out)@ == old(out)@ + item(x@, indent as nat),
    decreases x, 2nat, 0nat,
{
    match x {
        JsonValue::Object(_) | JsonValue::Array(_) => {
            write_node(out, x, indent + 2, true);
        },
        _ => {
            push_scalar(out, x);
            push_str(out, "\n");
        },
    }
}

/// The YAML document for a value.
pub fn to_yaml(value: &JsonValue) -> (r: String)
    requires
        2 * height(value@) <= usize::MAX,
    ensures
        r@ == to_yaml_spec(value@),
{
    let mut out = String::new();
    write_node(&mut out, value, 0, false);
    assert(out@ =~= node(value@, 0, false));
    let v = chars_of(out.as_str());
    if !(v.len() > 0 && v[v.len() - 1] == '\n') {
        push_char(&mut out, '\n');
    }
    out
}

} // verus!
