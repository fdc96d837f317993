//! Where heq's APO file lives, and how `config.txt` is read and edited to include it.
use vstd::prelude::*;

use std::path::PathBuf;

use super::format::lines_block;
use super::install::{display_spec, ApoDevice, HEQ_FILE_NAME, MAIN_CONFIG_NAME};
use crate::paths::{join_name, path_joined};
use crate::text::{
    chars_of, eq_ci, eq_ci_exec, eq_ci_str, line_state, lines, lines_exec, prefix_safe,
    push_chars, push_str, slice_chars, starts_with, starts_with_ci, starts_with_ci_str,
    starts_with_str, string_of, strip_cr, trim, trim_char, trim_char_end, trim_char_exec,
    trim_char_start, trim_end, trim_exec, trim_start, views, prefix_safe_exec,
};

verus! {

/// Writes heq's APO file into an Equalizer APO config directory.
pub struct ApoWriter {
    config_dir: PathBuf,
}

impl ApoWriter {
    /// The directory it writes into.
    pub closed spec fn dir(&self) -> PathBuf {
        self.config_dir
    }

    pub fn new(config_dir: PathBuf) -> (r: ApoWriter)
        ensures
            r.dir() == config_dir,
    {
        ApoWriter { config_dir }
    }

    pub fn config_dir(&self) -> (r: &PathBuf)
        ensures
            *r == self.dir(),
    {
        &self.config_dir
    }

    /// `heq.txt` in the config directory.
    pub fn heq_path(&self) -> (r: PathBuf)
        ensures
            r == path_joined(self.dir(), HEQ_FILE_NAME@),
    {
        join_name(&self.config_dir, HEQ_FILE_NAME)
    }

    /// `config.txt` in the config directory.
    pub fn main_config_path(&self) -> (r: PathBuf)
        ensures
            r == path_joined(self.dir(), MAIN_CONFIG_NAME@),
    {
        join_name(&self.config_dir, MAIN_CONFIG_NAME)
    }
}

/// Where `config.txt` includes heq's file, if it does.
#[derive(Debug, Default)]
pub struct IncludeSpot {
    pub exists: bool,
    pub duplicated: bool,
    /// the active `Device:` line above the first include
    pub device: Option<String>,
}

pub struct IncludeSpotView {
    pub exists: bool,
    pub duplicated: bool,
    pub device: Option<Seq<char>>,
}

impl View for IncludeSpot {
    type V = IncludeSpotView;

    open spec fn view(&self) -> IncludeSpotView {
        IncludeSpotView {
            exists: self.exists,
            duplicated: self.duplicated,
            device: match self.device {
                Some(d) => Some(d@),
                None => None,
            },
        }
    }
}

/// The outcome of making sure `config.txt` includes heq's file.
#[derive(Debug, Default)]
pub struct IncludeStatus {
    pub ok: bool,
    pub changed: bool,
    pub message: Option<String>,
}

impl IncludeStatus {
    /// The include was already there; nothing was written.
    pub fn present() -> (r: IncludeStatus)
        ensures
            r.ok,
            !r.changed,
            r.message.is_none(),
    {
        IncludeStatus { ok: true, changed: false, message: None }
    }

    /// The include was added.
    pub fn added() -> (r: IncludeStatus)
        ensures
            r.ok,
            r.changed,
            r.message.is_some() && r.message.unwrap()@ == "Added Include: heq.txt to config.txt."@,
    {
        let mut m = String::new();
        push_str(&mut m, "Added Include: heq.txt to config.txt.");
        assert(m@ =~= "Added Include: heq.txt to config.txt."@);
        IncludeStatus { ok: true, changed: true, message: Some(m) }
    }

    /// Writing `config.txt` failed with the given error text.
    pub fn write_failed(error: &str) -> (r: IncludeStatus)
        ensures
            !r.ok,
            !r.changed,
            r.message.is_some() && r.message.unwrap()@ == "Could not write config.txt: "@
                + error@,
    {
        let mut m = String::new();
        push_str(&mut m, "Could not write config.txt: ");
        push_str(&mut m, error);
        IncludeStatus { ok: false, changed: false, message: Some(m) }
    }
}

// ---------------------------------------------------------------------------------------------
// reading config.txt
// ---------------------------------------------------------------------------------------------

/// A trimmed line that is `Include: heq.txt` (key and file name in any ASCII case, the name
/// perhaps quoted).
pub open spec fn is_heq_include(t: Seq<char>) -> bool {
    starts_with_ci(t, "Include:"@) && eq_ci(trim_char(trim(t.skip(8)), '"'), "heq.txt"@)
}

/// Testing a line for the include slices its first eight bytes, when it has that many.
pub open spec fn include_probe_safe(raw: Seq<char>) -> bool {
    prefix_safe(trim(raw), 8)
}

pub open spec fn includes_safe(ls: Seq<Seq<char>>) -> bool {
    forall|i: int| 0 <= i < ls.len() ==> include_probe_safe(#[trigger] ls[i])
}

/// The indices of the lines that include heq's file.
pub open spec fn include_indices(ls: Seq<Seq<char>>) -> Seq<int>
    decreases ls.len(),
{
    if ls.len() == 0 {
        Seq::empty()
    } else if is_heq_include(trim(ls.last())) {
        include_indices(ls.drop_last()).push(ls.len() - 1)
    } else {
        include_indices(ls.drop_last())
    }
}

/// An active (not commented out) `Device:` line, trimmed.
pub open spec fn is_device_line(t: Seq<char>) -> bool {
    !(t.len() > 0 && t[0] == '#') && starts_with_ci(t, "Device:"@)
}

/// Testing a line for a device slices its first seven bytes unless it is a comment.
pub open spec fn device_probe_safe(raw: Seq<char>) -> bool {
    let t = trim(raw);
    (t.len() > 0 && t[0] == '#') || prefix_safe(t, 7)
}

/// The device of the nearest active `Device:` line among the first `k` lines, searching upwards.
pub open spec fn device_above(ls: Seq<Seq<char>>, k: int) -> Option<Seq<char>>
    decreases k,
{
    if k <= 0 || k > ls.len() {
        None
    } else if is_device_line(trim(ls[k - 1])) {
        Some(trim(trim(ls[k - 1]).skip(7)))
    } else {
        device_above(ls, k - 1)
    }
}

/// The upward search from line `k` does not panic: every line it tests is safe to slice.
pub open spec fn above_safe(ls: Seq<Seq<char>>, k: int) -> bool
    decreases k,
{
    if k <= 0 || k > ls.len() {
        true
    } else {
        device_probe_safe(ls[k - 1]) && (is_device_line(trim(ls[k - 1])) || above_safe(ls, k - 1))
    }
}

/// What a `config.txt` text says of heq's include.
pub open spec fn find_include_spec(text: Seq<char>) -> IncludeSpotView {
    let ls = lines(text);
    let found = include_indices(ls);
    if found.len() == 0 {
        IncludeSpotView { exists: false, duplicated: false, device: None }
    } else {
        IncludeSpotView {
            exists: true,
            duplicated: found.len() > 1,
            device: device_above(ls, found[0]),
        }
    }
}

/// Reading a `config.txt` for the include does not panic.
pub open spec fn find_include_safe(text: Seq<char>) -> bool {
    let ls = lines(text);
    &&& includes_safe(ls)
    &&& include_indices(ls).len() > 0 ==> above_safe(ls, include_indices(ls)[0])
}

fn is_heq_include_exec(t: &[char]) -> (r: bool)
    ensures
        r == is_heq_include(t@),
{
    if !starts_with_ci_str(t, "Include:") {
        return false;
    }
    proof {
        reveal_strlit("Include:");
    }
    let rest = slice_chars(t, 8, t.len());
    assert(rest@ =~= t@.skip(8));
    let rt = trim_exec(&rest);
    let unq = trim_char_exec(&rt, '"');
    eq_ci_str(&unq, "heq.txt")
}

proof fn lemma_include_indices_bounds(ls: Seq<Seq<char>>)
    ensures
        forall|i: int|
            0 <= i < include_indices(ls).len() ==> 0 <= #[trigger] include_indices(ls)[i] < ls.len(),
    decreases ls.len(),
{
    if ls.len() > 0 {
        lemma_include_indices_bounds(ls.drop_last());
        let p = include_indices(ls.drop_last());
        assert forall|i: int|
            0 <= i < include_indices(ls).len() implies 0 <= #[trigger] include_indices(ls)[i]
            < ls.len() by {
            if i < p.len() {
                assert(include_indices(ls)[i] == p[i]);
            }
        }
    }
}

fn include_indices_exec(ls: &Vec<Vec<char>>) -> (r: Vec<usize>)
    ensures
        r@.len() == include_indices(views(ls@)).len(),
        forall|i: int| 0 <= i < r@.len() ==> r@[i] == #[trigger] include_indices(views(ls@))[i],
{
    let ghost lv = views(ls@);
    let mut r: Vec<usize> = Vec::new();
    let mut i: usize = 0;
    while i < ls.len()
        invariant
            i <= ls@.len(),
            lv == views(ls@),
            r@.len() == include_indices(lv.take(i as int)).len(),
            forall|j: int|
                0 <= j < r@.len() ==> r@[j] == #[trigger] include_indices(lv.take(i as int))[j],
        decreases ls@.len() - i,
    {
        proof {
            assert(lv.take(i + 1).drop_last() =~= lv.take(i as int));
            assert(lv.take(i + 1).last() == ls@[i as int]@);
        }
        let t = trim_exec(&ls[i]);
        if is_heq_include_exec(&t) {
            r.push(i);
        }
        i += 1;
    }
    assert(lv.take(ls@.len() as int) =~= lv);
    r
}

fn device_above_exec(ls: &Vec<Vec<char>>, k: usize) -> (r: Option<String>)
    requires
        k <= ls@.len(),
    ensures
        match r {
            Some(s) => device_above(views(ls@), k as int) == Some(s@),
            None => device_above(views(ls@), k as int).is_none(),
        },
{
    let ghost lv = views(ls@);
    let mut j = k;
    while j > 0
        invariant
            j <= k <= ls@.len(),
            lv == views(ls@),
            device_above(lv, k as int) == device_above(lv, j as int),
        decreases j,
    {
        assert(lv[j - 1] == ls@[j - 1]@);
        let t = trim_exec(&ls[j - 1]);
        if !(t.len() > 0 && t[0] == '#') && starts_with_ci_str(&t, "Device:") {
            proof {
                reveal_strlit("Device:");
            }
            let rest = slice_chars(&t, 7, t.len());
            assert(rest@ =~= t@.skip(7));
            let name = trim_exec(&rest);
            return Some(string_of(&name));
        }
        j -= 1;
    }
    None
}

fn include_probe_safe_exec(raw: &[char]) -> (r: bool)
    ensures
        r == include_probe_safe(raw@),
{
    let t = trim_exec(raw);
    prefix_safe_exec(&t, 8)
}

fn device_probe_safe_exec(raw: &[char]) -> (r: bool)
    ensures
        r == device_probe_safe(raw@),
{
    let t = trim_exec(raw);
    (t.len() > 0 && t[0] == '#') || prefix_safe_exec(&t, 7)
}

fn includes_safe_exec(ls: &Vec<Vec<char>>) -> (r: bool)
    ensures
        r == includes_safe(views(ls@)),
{
    let ghost lv = views(ls@);
    let mut i: usize = 0;
    while i < ls.len()
        invariant
            i <= ls@.len(),
            lv == views(ls@),
            forall|j: int| 0 <= j < i ==> include_probe_safe(#[trigger] lv[j]),
        decreases ls@.len() - i,
    {
        assert(lv[i as int] == ls@[i as int]@);
        if !include_probe_safe_exec(&ls[i]) {
            return false;
        }
        i += 1;
    }
    true
}

fn above_safe_exec(ls: &Vec<Vec<char>>, k: usize) -> (r: bool)
    requires
        k <= ls@.len(),
    ensures
        r == above_safe(views(ls@), k as int),
{
    let ghost lv = views(ls@);
    let mut j = k;
    while j > 0
        invariant
            j <= k <= ls@.len(),
            lv == views(ls@),
            above_safe(lv, k as int) == above_safe(lv, j as int),
        decreases j,
    {
        assert(lv[j - 1] == ls@[j - 1]@);
        if !device_probe_safe_exec(&ls[j - 1]) {
            return false;
        }
        let t = trim_exec(&ls[j - 1]);
        if !(t.len() > 0 && t[0] == '#') && starts_with_ci_str(&t, "Device:") {
            return true;
        }
        j -= 1;
    }
    true
}

/// Whether reading the include out of this text stays clear of a panic (`find_include_safe`).
pub fn find_include_is_safe(text: &str) -> (r: bool)
    ensures
        r == find_include_safe(text@),
{
    let v = chars_of(text);
    let ls = lines_exec(&v);
    if !includes_safe_exec(&ls) {
        return false;
    }
    let found = include_indices_exec(&ls);
    if found.len() == 0 {
        return true;
    }
    proof {
        lemma_include_indices_bounds(views(ls@));
        assert(found@[0] == include_indices(views(ls@))[0]);
    }
    above_safe_exec(&ls, found[0])
}

/// What a `config.txt` text says of heq's include: whether a line includes `heq.txt`, whether
/// more than one does, and the active device above the first one.
pub fn find_include_in(text: &str) -> (r: IncludeSpot)
    requires
        find_include_safe(text@),
    ensures
        r@ == find_include_spec(text@),
{
    let v = chars_of(text);
    let ls = lines_exec(&v);
    let found = include_indices_exec(&ls);
    if found.len() == 0 {
        return IncludeSpot { exists: false, duplicated: false, device: None };
    }
    proof {
        lemma_include_indices_bounds(views(ls@));
    }
    let device = device_above_exec(&ls, found[0]);
    IncludeSpot { exists: true, duplicated: found.len() > 1, device }
}

// ---------------------------------------------------------------------------------------------
// editing config.txt
// ---------------------------------------------------------------------------------------------

/// heq's own marker comments, which an edit drops.
pub open spec fn is_marker(raw: Seq<char>) -> bool {
    starts_with(trim(raw), "# >>> heq"@) || starts_with(trim(raw), "# <<< heq"@)
}

/// The lines other than heq's markers, in order.
pub open spec fn without_markers(ls: Seq<Seq<char>>) -> Seq<Seq<char>>
    decreases ls.len(),
{
    if ls.len() == 0 {
        Seq::empty()
    } else if is_marker(ls.last()) {
        without_markers(ls.drop_last())
    } else {
        without_markers(ls.drop_last()).push(ls.last())
    }
}

/// An active `Device:` line naming `name`, ignoring ASCII case.
pub open spec fn names_device(raw: Seq<char>, name: Seq<char>) -> bool {
    let t = trim(raw);
    is_device_line(t) && eq_ci(trim(t.skip(7)), name)
}

/// The first line that is an active `Device:` line for `name`, from line `i` on.
pub open spec fn device_index_from(ls: Seq<Seq<char>>, name: Seq<char>, i: int) -> Option<int>
    decreases ls.len() - i,
{
    if i < 0 || i >= ls.len() {
        None
    } else if names_device(ls[i], name) {
        Some(i)
    } else {
        device_index_from(ls, name, i + 1)
    }
}

/// The search for a device line does not panic: every line it tests, up to the one it finds, is
/// safe to slice.
pub open spec fn device_search_safe(ls: Seq<Seq<char>>, name: Seq<char>, i: int) -> bool
    decreases ls.len() - i,
{
    if i < 0 || i >= ls.len() {
        true
    } else {
        device_probe_safe(ls[i]) && (names_device(ls[i], name) || device_search_safe(ls, name, i + 1))
    }
}

/// What making sure of the include comes to.
pub enum IncludePlan {
    /// nothing is to be written; this is the outcome
    Done(IncludeStatus),
    /// `config.txt` is to be replaced by this text
    Write(String),
}

pub enum IncludePlanView {
    Done(bool, bool, Option<Seq<char>>),
    Write(Seq<char>),
}

impl View for IncludePlan {
    type V = IncludePlanView;

    open spec fn view(&self) -> IncludePlanView {
        match self {
            IncludePlan::Done(s) => IncludePlanView::Done(
                s.ok,
                s.changed,
                match s.message {
                    Some(m) => Some(m@),
                    None => None,
                },
            ),
            IncludePlan::Write(t) => IncludePlanView::Write(t@),
        }
    }
}

/// A device that is not "all devices".
pub open spec fn specific_device(device: Option<ApoDevice>) -> bool {
    device matches Some(d) && d.name.is_some()
}

/// An existing include is never moved. Otherwise heq's marker lines are dropped and
/// `Include: heq.txt` goes first, or, for a specific device, right below that device's active
/// `Device:` line; a device without one is an error. Every line of the new text ends in CRLF.
pub open spec fn plan_include_spec(text: Seq<char>, device: Option<ApoDevice>) -> IncludePlanView {
    let ls = lines(text);
    if include_indices(ls).len() > 0 {
        IncludePlanView::Done(true, false, None)
    } else {
        let kept = without_markers(ls);
        if specific_device(device) {
            let d = device.unwrap();
            match device_index_from(kept, d.name.unwrap()@, 0) {
                None => IncludePlanView::Done(
                    false,
                    false,
                    Some(display_spec(d@) + " has no active Device line in config.txt."@),
                ),
                Some(i) => IncludePlanView::Write(
                    lines_block(kept.insert(i + 1, "Include: heq.txt"@)),
                ),
            }
        } else {
            IncludePlanView::Write(lines_block(kept.insert(0, "Include: heq.txt"@)))
        }
    }
}

/// Planning the edit does not panic.
pub open spec fn plan_include_safe(text: Seq<char>, device: Option<ApoDevice>) -> bool {
    let ls = lines(text);
    &&& includes_safe(ls)
    &&& (include_indices(ls).len() == 0 && specific_device(device)) ==> device_search_safe(
        without_markers(ls),
        device.unwrap().name.unwrap()@,
        0,
    )
}

fn without_markers_exec(ls: &Vec<Vec<char>>) -> (r: Vec<Vec<char>>)
    ensures
        views(r@) == without_markers(views(ls@)),
{
    let ghost lv = views(ls@);
    let mut r: Vec<Vec<char>> = Vec::new();
    let mut i: usize = 0;
    while i < ls.len()
        invariant
            i <= ls@.len(),
            lv == views(ls@),
            views(r@) == without_markers(lv.take(i as int)),
        decreases ls@.len() - i,
    {
        proof {
            assert(lv.take(i + 1).drop_last() =~= lv.take(i as int));
            assert(lv.take(i + 1).last() == ls@[i as int]@);
        }
        let t = trim_exec(&ls[i]);
        if !(starts_with_str(&t, "# >>> heq") || starts_with_str(&t, "# <<< heq")) {
            let c = slice_chars(&ls[i], 0, ls[i].len());
            assert(c@ =~= ls@[i as int]@);
            let ghost before = views(r@);
            r.push(c);
            assert(views(r@) =~= before.push(c@));
        }
        i += 1;
    }
    assert(lv.take(ls@.len() as int) =~= lv);
    r
}

fn device_index_exec(ls: &Vec<Vec<char>>, name: &[char]) -> (r: Option<usize>)
    ensures
        match r {
            Some(i) => device_index_from(views(ls@), name@, 0) == Some(i as int),
            None => device_index_from(views(ls@), name@, 0).is_none(),
        },
{
    let ghost lv = views(ls@);
    let mut i: usize = 0;
    while i < ls.len()
        invariant
            i <= ls@.len(),
            lv == views(ls@),
            device_index_from(lv, name@, 0) == device_index_from(lv, name@, i as int),
        decreases ls@.len() - i,
    {
        assert(lv[i as int] == ls@[i as int]@);
        let t = trim_exec(&ls[i]);
        if !(t.len() > 0 && t[0] == '#') && starts_with_ci_str(&t, "Device:") {
            proof {
                reveal_strlit("Device:");
            }
            let rest = slice_chars(&t, 7, t.len());
            assert(rest@ =~= t@.skip(7));
            let n = trim_exec(&rest);
            if eq_ci_exec(&n, name) {
                return Some(i);
            }
        }
        i += 1;
    }
    None
}

fn lines_text(ls: &Vec<Vec<char>>) -> (r: String)
    ensures
        r@ == lines_block(views(ls@)),
{
    let ghost lv = views(ls@);
    let mut out = String::new();
    let mut i: usize = 0;
    while i < ls.len()
        invariant
            i <= ls@.len(),
            lv == views(ls@),
            out@ == lines_block(lv.take(i as int)),
        decreases ls@.len() - i,
    {
        push_chars(&mut out, &ls[i]);
        push_str(&mut out, "\r\n");
        assert(lv.take(i + 1).drop_last() =~= lv.take(i as int));
        assert(out@ =~= lines_block(lv.take(i + 1)));
        i += 1;
    }
    assert(lv.take(ls@.len() as int) =~= lv);
    out
}

fn device_search_safe_exec(ls: &Vec<Vec<char>>, name: &[char]) -> (r: bool)
    ensures
        r == device_search_safe(views(ls@), name@, 0),
{
    let ghost lv = views(ls@);
    let mut i: usize = 0;
    while i < ls.len()
        invariant
            i <= ls@.len(),
            lv == views(ls@),
            device_search_safe(lv, name@, 0) == device_search_safe(lv, name@, i as int),
        decreases ls@.len() - i,
    {
        assert(lv[i as int] == ls@[i as int]@);
        if !device_probe_safe_exec(&ls[i]) {
            return false;
        }
        let t = trim_exec(&ls[i]);
        if !(t.len() > 0 && t[0] == '#') && starts_with_ci_str(&t, "Device:") {
            proof {
                reveal_strlit("Device:");
            }
            let rest = slice_chars(&t, 7, t.len());
            assert(rest@ =~= t@.skip(7));
            let n = trim_exec(&rest);
            if eq_ci_exec(&n, name) {
                return true;
            }
        }
        i += 1;
    }
    true
}

/// Whether planning the include for this text and device stays clear of a panic
/// (`plan_include_safe`).
pub fn plan_include_is_safe(text: &str, device: Option<&ApoDevice>) -> (r: bool)
    ensures
        r == plan_include_safe(
            text@,
            match device {
                Some(d) => Some(*d),
                None => None,
            },
        ),
{
    let v = chars_of(text);
    let ls = lines_exec(&v);
    if !includes_safe_exec(&ls) {
        return false;
    }
    let found = include_indices_exec(&ls);
    if found.len() > 0 {
        return true;
    }
    match device {
        Some(d) => match &d.name {
            Some(name) => {
                let kept = without_markers_exec(&ls);
                let nv = chars_of(name.as_str());
                device_search_safe_exec(&kept, &nv)
            },
            None => true,
        },
        None => true,
    }
}

/// What making sure `config.txt` (given as its text, empty when it cannot be read) includes
/// heq's file comes to, for the device chosen (`None` or "all devices": the top of the file).
pub fn plan_include(text: &str, device: Option<&ApoDevice>) -> (r: IncludePlan)
    requires
        plan_include_safe(
            text@,
            match device {
                Some(d) => Some(*d),
                None => None,
            },
        ),
    ensures
        r@ == plan_include_spec(
            text@,
            match device {
                Some(d) => Some(*d),
                None => None,
            },
        ),
{
    let v = chars_of(text);
    let ls = lines_exec(&v);
    let found = include_indices_exec(&ls);
    if found.len() > 0 {
        return IncludePlan::Done(IncludeStatus::present());
    }
    let mut kept = without_markers_exec(&ls);
    let kept_len = kept.len();
    let ghost kv = views(kept@);
    let mut at: usize = 0;
    if let Some(d) = device {
        if let Some(name) = &d.name {
            let nv = chars_of(name.as_str());
            match device_index_exec(&kept, &nv) {
                Some(i) => {
                    proof {
                        lemma_device_index_bound(kv, nv@, 0);
                        assert(kv.len() == kept@.len());
                        assert(device_index_from(kv, nv@, 0) == Some(i as int));
                        assert((i as int) < kv.len());
                        assert(i < kept_len);
                    }
                    at = i + 1;
                },
                None => {
                    let mut m = d.display();
                    push_str(&mut m, " has no active Device line in config.txt.");
                    return IncludePlan::Done(
                        IncludeStatus { ok: false, changed: false, message: Some(m) },
                    );
                },
            }
        }
    }
    let line = chars_of("Include: heq.txt");
    kept.insert(at, line);
    assert(views(kept@) =~= kv.insert(at as int, line@));
    IncludePlan::Write(lines_text(&kept))
}

proof fn lemma_device_index_bound(ls: Seq<Seq<char>>, name: Seq<char>, i: int)
    ensures
        device_index_from(ls, name, i) matches Some(k) ==> i <= k < ls.len(),
    decreases ls.len() - i,
{
    if 0 <= i < ls.len() && !names_device(ls[i], name) {
        lemma_device_index_bound(ls, name, i + 1);
    }
}

// ---------------------------------------------------------------------------------------------
// laws
// ---------------------------------------------------------------------------------------------

pub open spec fn no_newline(x: Seq<char>) -> bool {
    forall|j: int| 0 <= j < x.len() ==> #[trigger] x[j] != '\n'
}

pub open spec fn all_no_newline(xs: Seq<Seq<char>>) -> bool {
    forall|i: int| 0 <= i < xs.len() ==> no_newline(#[trigger] xs[i])
}

/// Reading characters without a newline only extends the line being read.
proof fn lemma_line_state_plain(s: Seq<char>, x: Seq<char>)
    requires
        no_newline(x),
    ensures
        line_state(s + x) == (line_state(s).0, line_state(s).1 + x),
    decreases x.len(),
{
    if x.len() == 0 {
        assert(s + x =~= s);
        assert(line_state(s).1 + x =~= line_state(s).1);
    } else {
        let y = x.drop_last();
        assert(no_newline(y)) by {
            assert forall|j: int| 0 <= j < y.len() implies #[trigger] y[j] != '\n' by {
                assert(y[j] == x[j]);
            }
        }
        lemma_line_state_plain(s, y);
        assert((s + x).drop_last() =~= s + y);
        assert((s + x).last() == x.last());
        assert(x[x.len() - 1] != '\n');
        assert(line_state(s).1 + y.push(x.last()) =~= line_state(s).1 + x);
    }
}

/// Reading a line followed by CRLF finishes exactly that line.
proof fn lemma_line_state_line(s: Seq<char>, x: Seq<char>)
    requires
        no_newline(x),
        line_state(s).1.len() == 0,
    ensures
        line_state(s + x + "\r\n"@) == (line_state(s).0.push(x), Seq::<char>::empty()),
{
    reveal_strlit("\r\n");
    let crlf = "\r\n"@;
    assert(no_newline(x.push('\r'))) by {
        assert forall|j: int| 0 <= j < x.push('\r').len() implies #[trigger] x.push('\r')[j]
            != '\n' by {
            if j < x.len() {
                assert(x.push('\r')[j] == x[j]);
            }
        }
    }
    lemma_line_state_plain(s, x.push('\r'));
    assert(line_state(s).1 + x.push('\r') =~= x.push('\r'));
    let w = s + x + crlf;
    assert(w.drop_last() =~= s + x.push('\r'));
    assert(w.last() == '\n');
    assert(strip_cr(x.push('\r')) =~= x);
}

/// Writing lines with CRLF and reading them back gives the same lines.
proof fn lemma_lines_of_block(xs: Seq<Seq<char>>)
    requires
        all_no_newline(xs),
    ensures
        line_state(lines_block(xs)) == (xs, Seq::<char>::empty()),
        lines(lines_block(xs)) == xs,
    decreases xs.len(),
{
    if xs.len() == 0 {
        assert(lines_block(xs) =~= Seq::<char>::empty());
        assert(xs =~= Seq::<Seq<char>>::empty());
    } else {
        let ys = xs.drop_last();
        assert(all_no_newline(ys)) by {
            assert forall|i: int| 0 <= i < ys.len() implies no_newline(#[trigger] ys[i]) by {
                assert(ys[i] == xs[i]);
            }
        }
        lemma_lines_of_block(ys);
        assert(no_newline(xs[xs.len() - 1]));
        lemma_line_state_line(lines_block(ys), xs.last());
        assert(ys.push(xs.last()) =~= xs);
    }
}

/// The lines of any text hold no newline.
proof fn lemma_line_state_no_newline(s: Seq<char>)
    ensures
        all_no_newline(line_state(s).0),
        no_newline(line_state(s).1),
    decreases s.len(),
{
    if s.len() > 0 {
        lemma_line_state_no_newline(s.drop_last());
        let (done, cur) = line_state(s.drop_last());
        if s.last() == '\n' {
            let p = strip_cr(cur);
            assert(no_newline(p)) by {
                assert forall|j: int| 0 <= j < p.len() implies #[trigger] p[j] != '\n' by {
                    assert(p[j] == cur[j]);
                }
            }
            assert forall|i: int| 0 <= i < done.push(p).len() implies no_newline(
                #[trigger] done.push(p)[i],
            ) by {
                if i < done.len() {
                    assert(done.push(p)[i] == done[i]);
                }
            }
        } else {
            let c2 = cur.push(s.last());
            assert forall|j: int| 0 <= j < c2.len() implies #[trigger] c2[j] != '\n' by {
                if j < cur.len() {
                    assert(c2[j] == cur[j]);
                }
            }
        }
    }
}

proof fn lemma_lines_no_newline(text: Seq<char>)
    ensures
        all_no_newline(lines(text)),
{
    lemma_line_state_no_newline(text);
    let (done, cur) = line_state(text);
    if cur.len() > 0 {
        assert forall|i: int| 0 <= i < done.push(cur).len() implies no_newline(
            #[trigger] done.push(cur)[i],
        ) by {
            if i < done.len() {
                assert(done.push(cur)[i] == done[i]);
            }
        }
    }
}

/// No line includes heq's file exactly when the list of such lines is empty.
proof fn lemma_no_include(ls: Seq<Seq<char>>)
    ensures
        include_indices(ls).len() == 0 <==> forall|i: int|
            0 <= i < ls.len() ==> !is_heq_include(trim(#[trigger] ls[i])),
    decreases ls.len(),
{
    if ls.len() > 0 {
        lemma_no_include(ls.drop_last());
        if include_indices(ls).len() == 0 {
            assert forall|i: int| 0 <= i < ls.len() implies !is_heq_include(
                trim(#[trigger] ls[i]),
            ) by {
                if i < ls.len() - 1 {
                    assert(ls[i] == ls.drop_last()[i]);
                }
            }
        } else {
            lemma_include_indices_bounds(ls);
            let k = include_indices(ls)[0];
            lemma_include_indices_member(ls, 0);
        }
    }
}

proof fn lemma_include_indices_member(ls: Seq<Seq<char>>, j: int)
    requires
        0 <= j < include_indices(ls).len(),
    ensures
        0 <= include_indices(ls)[j] < ls.len(),
        is_heq_include(trim(ls[include_indices(ls)[j]])),
    decreases ls.len(),
{
    let p = include_indices(ls.drop_last());
    if j < p.len() {
        lemma_include_indices_member(ls.drop_last(), j);
        if is_heq_include(trim(ls.last())) {
            assert(include_indices(ls)[j] == p[j]);
        }
        assert(ls.drop_last()[p[j]] == ls[p[j]]);
    }
}

/// When exactly one line includes heq's file, the list of such lines is just that one.
proof fn lemma_single_include(ls: Seq<Seq<char>>, at: int)
    requires
        0 <= at < ls.len(),
        is_heq_include(trim(ls[at])),
        forall|i: int| 0 <= i < ls.len() && i != at ==> !is_heq_include(trim(#[trigger] ls[i])),
    ensures
        include_indices(ls) == seq![at],
    decreases ls.len(),
{
    let n = ls.len() - 1;
    if at == n {
        assert forall|i: int| 0 <= i < ls.drop_last().len() implies !is_heq_include(
            trim(#[trigger] ls.drop_last()[i]),
        ) by {
            assert(ls.drop_last()[i] == ls[i]);
        }
        lemma_no_include(ls.drop_last());
        assert(include_indices(ls) =~= seq![at]);
    } else {
        assert forall|i: int| 0 <= i < ls.drop_last().len() && i != at implies !is_heq_include(
            trim(#[trigger] ls.drop_last()[i]),
        ) by {
            assert(ls.drop_last()[i] == ls[i]);
        }
        assert(ls.drop_last()[at] == ls[at]);
        lemma_single_include(ls.drop_last(), at);
        assert(!is_heq_include(trim(ls[n])));
    }
}

/// What heq adds is itself an include of its file.
proof fn lemma_include_line()
    ensures
        is_heq_include(trim("Include: heq.txt"@)),
{
    reveal_strlit("Include: heq.txt");
    reveal_strlit("Include:");
    reveal_strlit("heq.txt");
    let l = "Include: heq.txt"@;
    assert(trim_start(l) == l);
    assert(trim_end(l) == l);
    let rest = l.skip(8);
    let name = "heq.txt"@;
    assert(rest.drop_first() =~= name);
    assert(trim_start(rest) == trim_start(name));
    assert(trim_start(name) == name);
    assert(trim_end(name) == name);
    assert(trim_char_start(name, '"') == name);
    assert(trim_char_end(name, '"') == name);
    assert(starts_with_ci(l, "Include:"@)) by {
        assert(l.take(8) =~= "Include:"@);
    }
}

/// The lines other than heq's markers are lines of the text.
proof fn lemma_without_markers_from(ls: Seq<Seq<char>>)
    ensures
        forall|i: int|
            0 <= i < without_markers(ls).len() ==> exists|k: int|
                0 <= k < ls.len() && #[trigger] without_markers(ls)[i] == ls[k],
    decreases ls.len(),
{
    if ls.len() > 0 {
        lemma_without_markers_from(ls.drop_last());
        let w = without_markers(ls.drop_last());
        assert forall|i: int| 0 <= i < without_markers(ls).len() implies exists|k: int|
            0 <= k < ls.len() && #[trigger] without_markers(ls)[i] == ls[k] by {
            if i < w.len() {
                assert(without_markers(ls)[i] == w[i]);
                let k = choose|k: int| 0 <= k < ls.drop_last().len() && w[i] == ls.drop_last()[k];
                assert(ls.drop_last()[k] == ls[k]);
            } else {
                assert(without_markers(ls)[i] == ls[ls.len() - 1]);
            }
        }
    }
}

/// An include that exists is never moved: when `config.txt` already includes heq's file,
/// making sure of the include writes nothing and reports success.
pub proof fn law_existing_include_kept(text: Seq<char>, device: Option<ApoDevice>)
    requires
        find_include_spec(text).exists,
    ensures
        plan_include_spec(text, device) == IncludePlanView::Done(true, false, None),
{
}

/// After heq adds its include, `config.txt` includes heq's file exactly once; placed for a
/// specific device, it sits under that device's `Device:` line, otherwise at the top where no
/// device line precedes it.
pub proof fn law_added_include_found(text: Seq<char>, device: Option<ApoDevice>)
    requires
        plan_include_spec(text, device) is Write,
    ensures
        ({
            let spot = find_include_spec(plan_include_spec(text, device)->Write_0);
            &&& spot.exists
            &&& !spot.duplicated
            &&& specific_device(device) ==> (spot.device matches Some(n) && eq_ci(
                n,
                device.unwrap().name.unwrap()@,
            ))
            &&& !specific_device(device) ==> spot.device.is_none()
        }),
{
    let ls = lines(text);
    let kept = without_markers(ls);
    let inc = "Include: heq.txt"@;
    lemma_lines_no_newline(text);
    lemma_without_markers_from(ls);
    lemma_no_include(ls);
    lemma_include_line();
    assert(no_newline(inc)) by {
        reveal_strlit("Include: heq.txt");
    }
    let at: int = if specific_device(device) {
        device_index_from(kept, device.unwrap().name.unwrap()@, 0).unwrap() + 1
    } else {
        0
    };
    if specific_device(device) {
        lemma_device_index_bound(kept, device.unwrap().name.unwrap()@, 0);
    }
    let new = kept.insert(at, inc);
    assert(plan_include_spec(text, device) == IncludePlanView::Write(lines_block(new)));
    // the kept lines hold no newline and no include
    assert forall|i: int| 0 <= i < kept.len() implies no_newline(#[trigger] kept[i])
        && !is_heq_include(trim(kept[i])) by {
        let k = choose|k: int| 0 <= k < ls.len() && kept[i] == ls[k];
        assert(no_newline(ls[k]));
    }
    assert(all_no_newline(new)) by {
        assert forall|i: int| 0 <= i < new.len() implies no_newline(#[trigger] new[i]) by {
            if i < at {
                assert(new[i] == kept[i]);
            } else if i > at {
                assert(new[i] == kept[i - 1]);
            }
        }
    }
    lemma_lines_of_block(new);
    assert forall|i: int| 0 <= i < new.len() && i != at implies !is_heq_include(
        trim(#[trigger] new[i]),
    ) by {
        if i < at {
            assert(new[i] == kept[i]);
        } else {
            assert(new[i] == kept[i - 1]);
        }
    }
    lemma_single_include(new, at);
    if specific_device(device) {
        let name = device.unwrap().name.unwrap()@;
        let i = at - 1;
        lemma_device_index_found(kept, name, 0);
        assert(new[i] == kept[i]);
    }
}

/// A line of `config.txt` that an edit keeps: anything but heq's own `# >>> heq` / `# <<< heq`
/// marker comments.
pub open spec fn kept_by_edit(raw: Seq<char>) -> bool {
    !(starts_with(trim(raw), "# >>> heq"@) || starts_with(trim(raw), "# <<< heq"@))
}

/// The lines an edit keeps, in order.
pub open spec fn kept_lines(ls: Seq<Seq<char>>) -> Seq<Seq<char>> {
    ls.filter(|l: Seq<char>| kept_by_edit(l))
}

proof fn lemma_without_markers_filter(ls: Seq<Seq<char>>)
    ensures
        without_markers(ls) == kept_lines(ls),
    decreases ls.len(),
{
    reveal(Seq::filter);
    if ls.len() > 0 {
        lemma_without_markers_filter(ls.drop_last());
    }
}

/// Adding the include keeps the rest of `config.txt`: the written text's lines are the
/// original's lines, in the same order, less heq's marker comments, with exactly one line added,
/// `Include: heq.txt`. No other line is dropped, changed or moved.
pub proof fn law_include_keeps_the_rest(text: Seq<char>, device: Option<ApoDevice>)
    requires
        plan_include_spec(text, device) is Write,
    ensures
        exists|at: int|
            #![trigger lines(plan_include_spec(text, device)->Write_0)[at]]
            0 <= at < lines(plan_include_spec(text, device)->Write_0).len()
                && lines(plan_include_spec(text, device)->Write_0)[at] == "Include: heq.txt"@
                && lines(plan_include_spec(text, device)->Write_0).remove(at) == kept_lines(lines(text)),
{
    let ls = lines(text);
    let kept = without_markers(ls);
    let inc = "Include: heq.txt"@;
    lemma_lines_no_newline(text);
    lemma_without_markers_from(ls);
    lemma_without_markers_filter(ls);
    assert(no_newline(inc)) by {
        reveal_strlit("Include: heq.txt");
    }
    let at: int = if specific_device(device) {
        device_index_from(kept, device.unwrap().name.unwrap()@, 0).unwrap() + 1
    } else {
        0
    };
    if specific_device(device) {
        lemma_device_index_bound(kept, device.unwrap().name.unwrap()@, 0);
    }
    let new = kept.insert(at, inc);
    assert(plan_include_spec(text, device) == IncludePlanView::Write(lines_block(new)));
    assert forall|i: int| 0 <= i < kept.len() implies no_newline(#[trigger] kept[i]) by {
        let k = choose|k: int| 0 <= k < ls.len() && kept[i] == ls[k];
        assert(no_newline(ls[k]));
    }
    assert(all_no_newline(new)) by {
        assert forall|i: int| 0 <= i < new.len() implies no_newline(#[trigger] new[i]) by {
            if i < at {
                assert(new[i] == kept[i]);
            } else if i > at {
                assert(new[i] == kept[i - 1]);
            }
        }
    }
    lemma_lines_of_block(new);
    assert(new.remove(at) =~= kept);
    let w = lines(plan_include_spec(text, device)->Write_0);
    assert(w == new);
    assert(w[at] == inc);
    assert(w.remove(at) == kept_lines(ls));
    assert(0 <= at < w.len());
}

proof fn lemma_device_index_found(ls: Seq<Seq<char>>, name: Seq<char>, i: int)
    ensures
        device_index_from(ls, name, i) matches Some(k) ==> names_device(ls[k], name),
    decreases ls.len() - i,
{
    if 0 <= i < ls.len() && !names_device(ls[i], name) {
        lemma_device_index_found(ls, name, i + 1);
    }
}

} // verus!
