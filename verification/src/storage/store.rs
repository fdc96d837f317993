//! How preset and folder names become file names. Two levels: `presets/<folder>/<preset>.json`,
//! with the folder's correction in the reserved `_correction.json`.
use vstd::prelude::*;

use std::path::PathBuf;

use crate::model::band::strings_view;
use crate::paths::{join_name, path_joined};
use crate::text::{
    chars_of, eq_ci, eq_ci_str, lower_chars, push_str, str_to_lowercase, string_of, text_less,
    text_lt, trim, trim_end, trim_exec, trim_start,
};

verus! {

pub const MIGRATED_FOLDER: &'static str = "Unsorted";

pub const CORRECTION_FILE: &'static str = "_correction";

/// The correction's file name, which no preset can take.
pub open spec fn is_reserved_spec(name: Seq<char>) -> bool {
    eq_ci(name, "_correction"@)
}

pub fn is_reserved(name: &str) -> (r: bool)
    ensures
        r == is_reserved_spec(name@),
{
    let v = chars_of(name);
    eq_ci_str(&v, CORRECTION_FILE)
}

/// Unicode control characters (general category Cc).
pub open spec fn is_control(c: char) -> bool {
    c <= '\u{1f}' || ('\u{7f}' <= c && c <= '\u{9f}')
}

/// Characters a file name cannot hold on some platform.
pub open spec fn is_hostile(c: char) -> bool {
    is_control(c) || c == '<' || c == '>' || c == ':' || c == '"' || c == '/' || c == '\\' || c
        == '|' || c == '?' || c == '*'
}

pub open spec fn clean(s: Seq<char>) -> Seq<char> {
    s.map_values(|c: char| if is_hostile(c) { '_' } else { c })
}

/// A name that is only a step through directories (`.` or `..`), which would not stay one level
/// down as a folder.
pub open spec fn is_dot_name(c: Seq<char>) -> bool {
    c == seq!['.'] || c == seq!['.', '.']
}

/// A name made safe as a file name: trimmed, hostile characters replaced by `_`; an empty name
/// is `untitled`, a name of only `.` or `..` has its dots replaced by `_`, and the reserved name
/// gets ` (preset)` appended.
pub open spec fn sanitize_spec(name: Seq<char>) -> Seq<char> {
    let c = trim(clean(trim(name)));
    if c.len() == 0 {
        "untitled"@
    } else if is_dot_name(c) {
        c.map_values(|ch: char| '_')
    } else if is_reserved_spec(c) {
        c + " (preset)"@
    } else {
        c
    }
}

/// A name that stands for exactly one entry of a directory: not empty, not `.` or `..`, and
/// without a path separator.
pub open spec fn is_plain_component(n: Seq<char>) -> bool {
    &&& n.len() > 0
    &&& !is_dot_name(n)
    &&& forall|i: int| 0 <= i < n.len() ==> #[trigger] n[i] != '/' && n[i] != '\\'
}

fn clean_exec(v: &[char]) -> (r: Vec<char>)
    ensures
        r@ == clean(v@),
{
    let mut r: Vec<char> = Vec::new();
    let mut i: usize = 0;
    while i < v.len()
        invariant
            i <= v@.len(),
            r@ == clean(v@.take(i as int)),
        decreases v@.len() - i,
    {
        let c = v[i];
        let hostile = c <= '\u{1f}' || ('\u{7f}' <= c && c <= '\u{9f}') || c == '<' || c == '>' || c
            == ':' || c == '"' || c == '/' || c == '\\' || c == '|' || c == '?' || c == '*';
        let d = if hostile {
            '_'
        } else {
            c
        };
        r.push(d);
        assert(clean(v@.take(i + 1)) =~= clean(v@.take(i as int)).push(d));
        i += 1;
    }
    assert(v@.take(v@.len() as int) =~= v@);
    r
}

pub fn sanitize(name: &str) -> (r: String)
    ensures
        r@ == sanitize_spec(name@),
{
    let v = chars_of(name);
    let t = trim_exec(&v);
    let c = clean_exec(&t);
    let c = trim_exec(&c);
    if c.len() == 0 {
        let mut s = String::new();
        push_str(&mut s, "untitled");
        assert(s@ =~= "untitled"@);
        return s;
    }
    if (c.len() == 1 && c[0] == '.') || (c.len() == 2 && c[0] == '.' && c[1] == '.') {
        let mut u: Vec<char> = Vec::new();
        let mut i: usize = 0;
        while i < c.len()
            invariant
                i <= c@.len(),
                u@ == Seq::new(i as nat, |j: int| '_'),
            decreases c@.len() - i,
        {
            u.push('_');
            i += 1;
        }
        assert(u@ =~= c@.map_values(|ch: char| '_'));
        assert(is_dot_name(c@)) by {
            if c.len() == 1 {
                assert(c@ =~= seq!['.']);
            } else {
                assert(c@ =~= seq!['.', '.']);
            }
        }
        return string_of(&u);
    }
    assert(!is_dot_name(c@));
    if eq_ci_str(&c, CORRECTION_FILE) {
        let mut s = string_of(&c);
        push_str(&mut s, " (preset)");
        return s;
    }
    string_of(&c)
}

/// The file a preset of this name is stored in, inside its folder.
pub open spec fn preset_file_spec(name: Seq<char>) -> Seq<char> {
    sanitize_spec(name) + ".json"@
}

pub fn preset_file_name(name: &str) -> (r: String)
    ensures
        r@ == preset_file_spec(name@),
{
    let mut s = sanitize(name);
    push_str(&mut s, ".json");
    s
}

/// The file a folder's correction is stored in.
pub fn correction_file_name() -> (r: String)
    ensures
        r@ == "_correction"@ + ".json"@,
{
    let mut s = String::new();
    push_str(&mut s, CORRECTION_FILE);
    push_str(&mut s, ".json");
    s
}

/// Two folder or preset names are the same name when they differ at most in ASCII case.
pub fn same(a: &str, b: &str) -> (r: bool)
    ensures
        r == eq_ci(a@, b@),
{
    let av = chars_of(a);
    let bv = chars_of(b);
    crate::text::eq_ci_exec(&av, &bv)
}

// ---------------------------------------------------------------------------------------------
// where things are stored, under heq's root directory
// ---------------------------------------------------------------------------------------------

/// `presets` under the root.
pub fn preset_dir(root: &PathBuf) -> (r: PathBuf)
    ensures
        r == path_joined(*root, "presets"@),
{
    join_name(root, "presets")
}

/// `settings.json` under the root.
pub fn settings_path(root: &PathBuf) -> (r: PathBuf)
    ensures
        r == path_joined(*root, "settings.json"@),
{
    join_name(root, "settings.json")
}

/// A folder's directory: its sanitized name under `presets`, one entry of it.
pub fn folder_dir(root: &PathBuf, folder: &str) -> (r: PathBuf)
    ensures
        r == path_joined(path_joined(*root, "presets"@), sanitize_spec(folder@)),
        is_plain_component(sanitize_spec(folder@)),
{
    proof {
        law_sanitize(folder@);
    }
    let dir = preset_dir(root);
    let name = sanitize(folder);
    join_name(&dir, name.as_str())
}

/// The file of preset `name` in `folder`: two levels under `presets`, each one plain entry.
pub fn path_for(root: &PathBuf, folder: &str, name: &str) -> (r: PathBuf)
    ensures
        r == path_joined(
            path_joined(path_joined(*root, "presets"@), sanitize_spec(folder@)),
            preset_file_spec(name@),
        ),
        is_plain_component(sanitize_spec(folder@)),
        is_plain_component(preset_file_spec(name@)),
{
    proof {
        law_sanitize(name@);
        reveal_strlit(".json");
        let f = preset_file_spec(name@);
        let n = sanitize_spec(name@);
        assert(f.len() > 1);
        assert(!is_dot_name(f)) by {
            if is_dot_name(f) {
                assert(f[f.len() - 1] == ".json"@[4]);
            }
        }
        assert forall|i: int| 0 <= i < f.len() implies #[trigger] f[i] != '/' && f[i] != '\\' by {
            if i < n.len() {
                assert(f[i] == n[i]);
            } else {
                assert(f[i] == ".json"@[i - n.len()]);
            }
        }
    }
    let dir = folder_dir(root, folder);
    let file = preset_file_name(name);
    join_name(&dir, file.as_str())
}

/// The file of `folder`'s correction.
pub fn correction_path(root: &PathBuf, folder: &str) -> (r: PathBuf)
    ensures
        r == path_joined(
            path_joined(path_joined(*root, "presets"@), sanitize_spec(folder@)),
            "_correction"@ + ".json"@,
        ),
        is_plain_component(sanitize_spec(folder@)),
{
    let dir = folder_dir(root, folder);
    let file = correction_file_name();
    join_name(&dir, file.as_str())
}

// ---------------------------------------------------------------------------------------------
// listing
// ---------------------------------------------------------------------------------------------

/// What folder and preset names are ordered by: their lower-cased text.
pub open spec fn name_key(n: Seq<char>) -> Seq<char> {
    str_to_lowercase(n)
}

/// In order of their keys, each no greater than the next.
pub open spec fn sorted_by_name(s: Seq<Seq<char>>) -> bool {
    forall|i: int, j: int| 0 <= i < j < s.len() ==> !text_lt(#[trigger] name_key(s[j]), #[trigger] name_key(s[i]))
}

pub open spec fn key_is(k: Seq<char>) -> spec_fn(Seq<char>) -> bool {
    |n: Seq<char>| name_key(n) == k
}

/// The names in `s` whose key is `k`, in the order `s` has them.
pub open spec fn with_key(s: Seq<Seq<char>>, k: Seq<char>) -> Seq<Seq<char>> {
    s.filter(key_is(k))
}

/// `r` is `input` sorted by name key, stably: sorted, and for every key the names carrying it
/// are the same and come in the same order as in `input`.
pub open spec fn sorts_names(r: Seq<Seq<char>>, input: Seq<Seq<char>>) -> bool {
    &&& sorted_by_name(r)
    &&& forall|k: Seq<char>| #[trigger] with_key(r, k) == with_key(input, k)
}

proof fn lemma_text_lt_irreflexive(a: Seq<char>)
    ensures
        !text_lt(a, a),
    decreases a.len(),
{
    if a.len() > 0 {
        lemma_text_lt_irreflexive(a.drop_first());
    }
}

proof fn lemma_text_lt_transitive(a: Seq<char>, b: Seq<char>, c: Seq<char>)
    requires
        text_lt(a, b),
        text_lt(b, c),
    ensures
        text_lt(a, c),
    decreases a.len(),
{
    if a.len() > 0 && b.len() > 0 && c.len() > 0 && a[0] == b[0] && b[0] == c[0] {
        lemma_text_lt_transitive(a.drop_first(), b.drop_first(), c.drop_first());
    }
}

proof fn lemma_text_lt_total(a: Seq<char>, b: Seq<char>)
    ensures
        a == b || text_lt(a, b) || text_lt(b, a),
    decreases a.len(),
{
    if a.len() == 0 && b.len() == 0 {
        assert(a =~= b);
    } else if a.len() > 0 && b.len() > 0 && a[0] == b[0] {
        let a1 = a.drop_first();
        let b1 = b.drop_first();
        lemma_text_lt_total(a1, b1);
        if a1 == b1 {
            assert(a.len() == b.len());
            assert forall|i: int| 0 <= i < a.len() implies a[i] == b[i] by {
                if i > 0 {
                    assert(a[i] == a1[i - 1]);
                    assert(b[i] == b1[i - 1]);
                }
            }
            assert(a =~= b);
        } else {
            assert(text_lt(a, b) == text_lt(a1, b1));
            assert(text_lt(b, a) == text_lt(b1, a1));
        }
    }
}

proof fn lemma_filter_push(s: Seq<Seq<char>>, x: Seq<char>, k: Seq<char>)
    ensures
        with_key(s.push(x), k) == if name_key(x) == k {
            with_key(s, k).push(x)
        } else {
            with_key(s, k)
        },
{
    reveal(Seq::filter);
    assert(s.push(x).drop_last() =~= s);
}

proof fn lemma_filter_none(s: Seq<Seq<char>>, k: Seq<char>)
    requires
        forall|i: int| 0 <= i < s.len() ==> name_key(#[trigger] s[i]) != k,
    ensures
        with_key(s, k) == Seq::<Seq<char>>::empty(),
    decreases s.len(),
{
    reveal(Seq::filter);
    if s.len() > 0 {
        assert forall|i: int| 0 <= i < s.drop_last().len() implies name_key(
            #[trigger] s.drop_last()[i],
        ) != k by {
            assert(s.drop_last()[i] == s[i]);
        }
        lemma_filter_none(s.drop_last(), k);
        assert(name_key(s[s.len() - 1]) != k);
    }
}

/// Inserting `x` after every name not above it and before every name above it keeps the names
/// sorted, and keeps each key's names as appending `x` would.
proof fn lemma_insert_sorted(o: Seq<Seq<char>>, pos: int, x: Seq<char>)
    requires
        sorted_by_name(o),
        0 <= pos <= o.len(),
        pos > 0 ==> !text_lt(name_key(x), name_key(o[pos - 1])),
        forall|j: int| pos <= j < o.len() ==> text_lt(name_key(x), #[trigger] name_key(o[j])),
    ensures
        sorted_by_name(o.insert(pos, x)),
        forall|k: Seq<char>| #[trigger] with_key(o.insert(pos, x), k) == with_key(o.push(x), k),
{
    let n = o.insert(pos, x);
    let kx = name_key(x);
    assert forall|i: int, j: int| 0 <= i < j < n.len() implies !text_lt(
        #[trigger] name_key(n[j]),
        #[trigger] name_key(n[i]),
    ) by {
        if i == pos {
            assert(n[j] == o[j - 1]);
            if text_lt(name_key(o[j - 1]), kx) {
                lemma_text_lt_transitive(kx, name_key(o[j - 1]), kx);
                lemma_text_lt_irreflexive(kx);
            }
        } else if j == pos {
            assert(n[i] == o[i]);
            let last = name_key(o[pos - 1]);
            if text_lt(kx, name_key(o[i])) {
                lemma_text_lt_total(name_key(o[i]), last);
                if i < pos - 1 {
                    assert(!text_lt(last, name_key(o[i])));
                }
                if name_key(o[i]) != last && i < pos - 1 {
                    lemma_text_lt_transitive(kx, name_key(o[i]), last);
                }
            }
        } else {
            let oi = if i < pos {
                i
            } else {
                i - 1
            };
            let oj = if j < pos {
                j
            } else {
                j - 1
            };
            assert(n[i] == o[oi]);
            assert(n[j] == o[oj]);
        }
    }
    assert forall|k: Seq<char>| #[trigger] with_key(o.insert(pos, x), k) == with_key(o.push(x), k) by {
        let a = o.take(pos);
        let b = o.skip(pos);
        assert(n =~= a + (seq![x] + b));
        assert(o.push(x) =~= a + (b + seq![x]));
        Seq::filter_distributes_over_add(a, seq![x] + b, key_is(k));
        Seq::filter_distributes_over_add(a, b + seq![x], key_is(k));
        Seq::filter_distributes_over_add(seq![x], b, key_is(k));
        Seq::filter_distributes_over_add(b, seq![x], key_is(k));
        lemma_filter_push(Seq::empty(), x, k);
        assert(Seq::<Seq<char>>::empty().push(x) =~= seq![x]);
        reveal(Seq::filter);
        assert(with_key(Seq::<Seq<char>>::empty(), k) =~= Seq::<Seq<char>>::empty());
        if kx == k {
            assert forall|i: int| 0 <= i < b.len() implies name_key(#[trigger] b[i]) != k by {
                assert(b[i] == o[pos + i]);
                if name_key(b[i]) == k {
                    lemma_text_lt_irreflexive(kx);
                }
            }
            lemma_filter_none(b, k);
            assert(with_key(seq![x] + b, k) =~= with_key(b + seq![x], k));
        } else {
            assert(with_key(seq![x] + b, k) =~= with_key(b + seq![x], k));
        }
    }
}

/// The names sorted case-insensitively, names of the same key kept in the order given: the order
/// folders and presets are listed in.
fn sort_names(names: &Vec<String>) -> (r: Vec<String>)
    ensures
        sorts_names(strings_view(r@), strings_view(names@)),
{
    let ghost input = strings_view(names@);
    let mut out: Vec<String> = Vec::new();
    let mut ks: Vec<Vec<char>> = Vec::new();
    let mut i: usize = 0;
    assert(strings_view(out@) =~= input.take(0));
    while i < names.len()
        invariant
            i <= names@.len(),
            input == strings_view(names@),
            out@.len() == ks@.len(),
            forall|j: int| 0 <= j < ks@.len() ==> (#[trigger] ks@[j])@ == name_key(out@[j]@),
            sorted_by_name(strings_view(out@)),
            forall|k: Seq<char>| #[trigger] with_key(strings_view(out@), k) == with_key(input.take(i as int), k),
        decreases names@.len() - i,
    {
        let x = names[i].clone();
        let kx = lower_chars(&chars_of(x.as_str()));
        let ghost o = strings_view(out@);
        let mut pos: usize = out.len();
        while pos > 0
            invariant
                pos <= out@.len(),
                out@.len() == ks@.len(),
                o == strings_view(out@),
                kx@ == name_key(x@),
                forall|j: int| 0 <= j < ks@.len() ==> (#[trigger] ks@[j])@ == name_key(out@[j]@),
                forall|j: int| pos <= j < o.len() ==> text_lt(kx@, #[trigger] name_key(o[j])),
            ensures
                pos <= out@.len(),
                forall|j: int| pos <= j < o.len() ==> text_lt(kx@, #[trigger] name_key(o[j])),
                pos > 0 ==> !text_lt(kx@, name_key(o[pos - 1])),
            decreases pos,
        {
            assert(ks@[pos - 1]@ == name_key(o[pos - 1]));
            if !text_less(&kx, &ks[pos - 1]) {
                break;
            }
            pos -= 1;
        }
        proof {
            if pos > 0 {
                assert(ks@[pos - 1]@ == name_key(o[pos - 1]));
            }
            lemma_insert_sorted(o, pos as int, x@);
            lemma_sorted_take_push(input, i as int, x@);
        }
        let ghost ks0 = ks@;
        let ghost out0 = out@;
        out.insert(pos, x);
        ks.insert(pos, kx);
        proof {
            assert(strings_view(out@) =~= o.insert(pos as int, x@));
            assert forall|j: int| 0 <= j < ks@.len() implies (#[trigger] ks@[j])@ == name_key(out@[j]@) by {
                if j < pos {
                    assert(ks@[j] == ks0[j] && out@[j] == out0[j]);
                } else if j > pos {
                    assert(ks@[j] == ks0[j - 1] && out@[j] == out0[j - 1]);
                }
            }
            assert forall|k: Seq<char>| #[trigger] with_key(strings_view(out@), k) == with_key(input.take(i + 1), k) by {
                lemma_filter_push(o, x@, k);
                lemma_filter_push(input.take(i as int), x@, k);
            }
        }
        i += 1;
    }
    assert(input.take(names@.len() as int) =~= input);
    out
}

proof fn lemma_sorted_take_push(input: Seq<Seq<char>>, i: int, x: Seq<char>)
    requires
        0 <= i < input.len(),
        input[i] == x,
    ensures
        input.take(i + 1) == input.take(i).push(x),
{
    assert(input.take(i + 1) =~= input.take(i).push(x));
}

/// Folder names as the library lists them: sorted case-insensitively, stably.
pub fn list_folders(names: &Vec<String>) -> (r: Vec<String>)
    ensures
        sorts_names(strings_view(r@), strings_view(names@)),
{
    sort_names(names)
}

/// The presets a folder lists, given the names of the `.json` files in it (without the
/// extension): every name but the reserved correction file's, sorted case-insensitively, stably.
pub fn list_presets(stems: &Vec<String>) -> (r: Vec<String>)
    ensures
        sorts_names(
            strings_view(r@),
            strings_view(stems@).filter(|n: Seq<char>| !is_reserved_spec(n)),
        ),
{
    let ghost keep = |n: Seq<char>| !is_reserved_spec(n);
    let ghost sv = strings_view(stems@);
    let mut kept: Vec<String> = Vec::new();
    let mut i: usize = 0;
    while i < stems.len()
        invariant
            i <= stems@.len(),
            sv == strings_view(stems@),
            keep == (|n: Seq<char>| !is_reserved_spec(n)),
            strings_view(kept@) == sv.take(i as int).filter(keep),
        decreases stems@.len() - i,
    {
        proof {
            reveal(Seq::filter);
            assert(sv.take(i + 1).drop_last() =~= sv.take(i as int));
            assert(sv.take(i + 1).last() == stems@[i as int]@);
        }
        if !is_reserved(stems[i].as_str()) {
            let ghost before = strings_view(kept@);
            kept.push(stems[i].clone());
            assert(strings_view(kept@) =~= before.push(stems@[i as int]@));
        }
        i += 1;
    }
    assert(sv.take(stems@.len() as int) =~= sv);
    sort_names(&kept)
}

// ---------------------------------------------------------------------------------------------
// laws
// ---------------------------------------------------------------------------------------------

proof fn lemma_trim_start_shape(s: Seq<char>)
    ensures
        trim_start(s).len() <= s.len(),
        trim_start(s).len() > 0 ==> !crate::text::is_ws(trim_start(s)[0]),
        trim_start(s) == s.skip(s.len() - trim_start(s).len()),
    decreases s.len(),
{
    if s.len() > 0 && crate::text::is_ws(s[0]) {
        lemma_trim_start_shape(s.drop_first());
        assert(s.drop_first().skip(s.drop_first().len() - trim_start(s).len()) =~= s.skip(
            s.len() - trim_start(s).len(),
        ));
    } else {
        assert(s.skip(0) =~= s);
    }
}

proof fn lemma_trim_end_shape(s: Seq<char>)
    ensures
        trim_end(s).len() <= s.len(),
        trim_end(s).len() > 0 ==> !crate::text::is_ws(trim_end(s).last()),
        trim_end(s) == s.take(trim_end(s).len() as int),
    decreases s.len(),
{
    if s.len() > 0 && crate::text::is_ws(s.last()) {
        lemma_trim_end_shape(s.drop_last());
        assert(s.drop_last().take(trim_end(s).len() as int) =~= s.take(trim_end(s).len() as int));
    } else {
        assert(s.take(s.len() as int) =~= s);
    }
}

/// A trimmed text neither begins nor ends with white space.
proof fn lemma_trim_shape(s: Seq<char>)
    ensures
        trim(s).len() > 0 ==> !crate::text::is_ws(trim(s)[0]) && !crate::text::is_ws(trim(s).last()),
{
    let a = trim_start(s);
    lemma_trim_start_shape(s);
    lemma_trim_end_shape(a);
    if trim(s).len() > 0 {
        assert(trim(s)[0] == a[0]);
    }
}

/// Trimming a text that neither begins nor ends with white space leaves it as it is.
proof fn lemma_trim_fixed(s: Seq<char>)
    requires
        s.len() > 0 ==> !crate::text::is_ws(s[0]) && !crate::text::is_ws(s.last()),
    ensures
        trim(s) == s,
{
    assert(trim_start(s) == s);
    assert(trim_end(s) == s);
}

proof fn lemma_clean_fixed(s: Seq<char>)
    requires
        forall|i: int| 0 <= i < s.len() ==> !is_hostile(#[trigger] s[i]),
    ensures
        clean(s) == s,
{
    assert(clean(s) =~= s);
}

/// What `sanitize` makes of a name is a usable file name: never empty, never `.` or `..` (so a
/// folder stays one level under `presets`), never the reserved correction name, free of
/// characters a file system refuses, without white space at either end — and sanitizing it
/// again changes nothing.
pub proof fn law_sanitize(name: Seq<char>)
    ensures
        sanitize_spec(name).len() > 0,
        !is_dot_name(sanitize_spec(name)),
        is_plain_component(sanitize_spec(name)),
        !is_reserved_spec(sanitize_spec(name)),
        forall|i: int| 0 <= i < sanitize_spec(name).len() ==> !is_hostile(#[trigger] sanitize_spec(name)[i]),
        sanitize_spec(sanitize_spec(name)) == sanitize_spec(name),
{
    let t = trim(name);
    let k = clean(t);
    let c = trim(k);
    lemma_trim_shape(name);
    lemma_trim_shape(k);
    lemma_trim_start_shape(k);
    lemma_trim_end_shape(trim_start(k));
    // every character of `c` comes from `clean`, so none is hostile
    assert forall|i: int| 0 <= i < c.len() implies !is_hostile(#[trigger] c[i]) by {
        let a = trim_start(k);
        let off = k.len() - a.len();
        assert(c[i] == a[i]);
        assert(a[i] == k[off + i]);
    }
    let r = sanitize_spec(name);
    let u = "untitled"@;
    let p = " (preset)"@;
    reveal_strlit("untitled");
    reveal_strlit(" (preset)");
    reveal_strlit("_correction");
    if c.len() == 0 {
        assert(r == u);
        assert(r.len() == 8);
    } else if is_dot_name(c) {
        assert(r == c.map_values(|ch: char| '_'));
        assert(r[0] == '_');
        assert(r.len() <= 2);
    } else if is_reserved_spec(c) {
        assert(r == c + p);
        assert(r.len() != 11);
        assert(r.len() > 2);
    } else {
        assert(r == c);
    }
    assert(!is_dot_name(r)) by {
        if is_dot_name(r) {
            assert(r[0] == '.');
        }
    }
    assert forall|i: int| 0 <= i < r.len() implies !is_hostile(#[trigger] r[i]) by {
        if c.len() == 0 {
        } else if is_dot_name(c) {
        } else if is_reserved_spec(c) {
            if i >= c.len() {
                assert(r[i] == p[i - c.len()]);
            } else {
                assert(r[i] == c[i]);
            }
        }
    }
    assert forall|i: int| 0 <= i < r.len() implies #[trigger] r[i] != '/' && r[i] != '\\' by {
        assert(!is_hostile(r[i]));
    }
    assert(!is_reserved_spec(r)) by {
        if c.len() > 0 && is_dot_name(c) {
            assert(r.len() != 11);
        }
    }
    // the result is its own sanitized form
    assert(!crate::text::is_ws(r[0]) && !crate::text::is_ws(r.last())) by {
        if c.len() > 0 && !is_dot_name(c) && is_reserved_spec(c) {
            assert(r[0] == c[0]);
            assert(r.last() == p.last());
        }
    }
    lemma_trim_fixed(r);
    lemma_clean_fixed(r);
    lemma_trim_fixed(clean(r));
}

} // verus!
