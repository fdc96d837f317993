//! Reading a number typed into a field: `1k`, `1.2 kHz`, `440hz`, `-3 dB`.
use vstd::prelude::*;

use crate::text::{
    chars_of, ends_with, ends_with_exec, is_float_text, is_float_text_exec, lower_chars,
    replace_comma, replace_comma_exec, slice_chars, str_to_lowercase, string_of, trim, trim_exec,
};

verus! {

/// The text as read: trimmed, `,` read as `.`, lower-cased.
pub open spec fn number_input(s: Seq<char>) -> Seq<char> {
    str_to_lowercase(replace_comma(trim(s)))
}

/// With the unit `suffix` cut off, what is left, trimmed.
pub open spec fn head_of(t: Seq<char>, suffix: Seq<char>) -> Seq<char> {
    trim(t.take(t.len() - suffix.len()))
}

pub open spec fn with_unit(t: Seq<char>, suffix: Seq<char>, kilo: bool) -> Option<(Seq<char>, bool)> {
    let h = head_of(t, suffix);
    if is_float_text(h) {
        Some((h, kilo))
    } else {
        None
    }
}

/// The number a field holds, as text, and whether it is in thousands (`khz` or `k`). The first
/// of `khz`, `hz`, `db`, `k` the text ends with is its unit; what precedes the unit must then be
/// a number. Without a unit the whole text must be one.
pub open spec fn parse_number_spec(s: Seq<char>) -> Option<(Seq<char>, bool)> {
    let t = number_input(s);
    if ends_with(t, "khz"@) {
        with_unit(t, "khz"@, true)
    } else if ends_with(t, "hz"@) {
        with_unit(t, "hz"@, false)
    } else if ends_with(t, "db"@) {
        with_unit(t, "db"@, false)
    } else if ends_with(t, "k"@) {
        with_unit(t, "k"@, true)
    } else if is_float_text(t) {
        Some((t, false))
    } else {
        None
    }
}

fn unit(t: &Vec<char>, suffix: &str, kilo: bool) -> (r: Option<(String, bool)>)
    requires
        suffix@.len() <= t@.len(),
    ensures
        match r {
            Some((h, k)) => with_unit(t@, suffix@, kilo) == Some((h@, k)),
            None => with_unit(t@, suffix@, kilo).is_none(),
        },
{
    let sv = chars_of(suffix);
    let head = slice_chars(t, 0, t.len() - sv.len());
    assert(head@ =~= t@.take(t@.len() - suffix@.len()));
    let h = trim_exec(&head);
    if is_float_text_exec(&h) {
        Some((string_of(&h), kilo))
    } else {
        None
    }
}

fn ends(t: &Vec<char>, suffix: &str) -> (r: bool)
    ensures
        r == ends_with(t@, suffix@),
        r ==> suffix@.len() <= t@.len(),
{
    let sv = chars_of(suffix);
    ends_with_exec(t, &sv)
}

/// The number a field holds, as text, and whether it counts thousands.
pub fn parse_number_text(s: &str) -> (r: Option<(String, bool)>)
    ensures
        match r {
            Some((h, k)) => parse_number_spec(s@) == Some((h@, k)),
            None => parse_number_spec(s@).is_none(),
        },
{
    let v = chars_of(s);
    let v = trim_exec(&v);
    let v = replace_comma_exec(&v);
    let t = lower_chars(&v);
    if ends(&t, "khz") {
        unit(&t, "khz", true)
    } else if ends(&t, "hz") {
        unit(&t, "hz", false)
    } else if ends(&t, "db") {
        unit(&t, "db", false)
    } else if ends(&t, "k") {
        unit(&t, "k", true)
    } else if is_float_text_exec(&t) {
        Some((string_of(&t), false))
    } else {
        None
    }
}

} // verus!
