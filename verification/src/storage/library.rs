//! The library panel's bookkeeping: which folder is shown, which preset is loaded and the folder
//! it was loaded from, and which preset is set as B. Folder and preset names match ignoring ASCII
//! case; the rules below keep these right as presets and folders are renamed and deleted.
use vstd::prelude::*;

use super::preset::PresetRef;
use crate::model::band::strings_view;
use crate::text::{chars_of, eq_ci, eq_ci_exec, push_str, string_of, trim, trim_exec};

verus! {

pub struct Selection {
    /// the folder the panel shows
    pub folder: Option<String>,
    /// the preset loaded into the editor
    pub current: Option<String>,
    /// the folder the loaded preset came from
    pub baseline_folder: Option<String>,
    /// the preset set as B
    pub ab_source: Option<PresetRef>,
}

pub open spec fn name_of(o: Option<String>) -> Option<Seq<char>> {
    match o {
        Some(s) => Some(s@),
        None => None,
    }
}

/// `o` holds a name that is `n`, ignoring ASCII case.
pub open spec fn holds_same(o: Option<String>, n: Seq<char>) -> bool {
    o matches Some(s) && eq_ci(s@, n)
}

fn holds_same_exec(o: &Option<String>, n: &str) -> (r: bool)
    ensures
        r == holds_same(*o, n@),
{
    match o {
        Some(s) => {
            let a = chars_of(s.as_str());
            let b = chars_of(n);
            eq_ci_exec(&a, &b)
        },
        None => false,
    }
}

/// The index of the first name in `fs` from `i` on that is `w`, ignoring ASCII case.
pub open spec fn first_same_from(fs: Seq<Seq<char>>, w: Seq<char>, i: int) -> Option<int>
    decreases fs.len() - i,
{
    if i < 0 || i >= fs.len() {
        None
    } else if eq_ci(fs[i], w) {
        Some(i)
    } else {
        first_same_from(fs, w, i + 1)
    }
}

/// The folder to show among `folders` (in listing order): the one named `want` (ignoring ASCII
/// case) when there is one, else the first.
pub open spec fn pick_folder_spec(folders: Seq<Seq<char>>, want: Option<Seq<char>>) -> Option<Seq<char>> {
    let found = match want {
        Some(w) => first_same_from(folders, w, 0),
        None => None,
    };
    match found {
        Some(i) => Some(folders[i]),
        None => if folders.len() > 0 {
            Some(folders[0])
        } else {
            None
        },
    }
}

proof fn lemma_first_same_bounds(fs: Seq<Seq<char>>, w: Seq<char>, i: int)
    ensures
        first_same_from(fs, w, i) matches Some(k) ==> i <= k < fs.len(),
    decreases fs.len() - i,
{
    if 0 <= i < fs.len() && !eq_ci(fs[i], w) {
        lemma_first_same_bounds(fs, w, i + 1);
    }
}

/// Which folder to show after the folders were listed again.
pub fn pick_folder(folders: &Vec<String>, want: Option<&str>) -> (r: Option<String>)
    ensures
        name_of(r) == pick_folder_spec(
            strings_view(folders@),
            match want {
                Some(w) => Some(w@),
                None => None,
            },
        ),
{
    let ghost fv = strings_view(folders@);
    if let Some(w) = want {
        let wv = chars_of(w);
        let mut i: usize = 0;
        while i < folders.len()
            invariant
                i <= folders@.len(),
                fv == strings_view(folders@),
                wv@ == w@,
                want == Some(w),
                first_same_from(fv, w@, 0) == first_same_from(fv, w@, i as int),
            decreases folders@.len() - i,
        {
            assert(fv[i as int] == folders@[i as int]@);
            let f = chars_of(folders[i].as_str());
            if eq_ci_exec(&f, &wv) {
                assert(first_same_from(fv, w@, i as int) == Some(i as int));
                return Some(string_of(&f));
            }
            i += 1;
        }
    }
    if folders.len() > 0 {
        assert(fv[0] == folders@[0]@);
        Some(folders[0].clone())
    } else {
        None
    }
}

/// The text a prompt hands on when confirmed: trimmed; an empty name is not taken, while a
/// plain confirmation needs none.
pub open spec fn prompt_text_spec(text: Seq<char>, confirm_only: bool) -> Option<Seq<char>> {
    if !confirm_only && trim(text).len() == 0 {
        None
    } else {
        Some(trim(text))
    }
}

pub fn prompt_text(text: &str, confirm_only: bool) -> (r: Option<String>)
    ensures
        name_of(r) == prompt_text_spec(text@, confirm_only),
{
    let v = chars_of(text);
    let t = trim_exec(&v);
    if !confirm_only && t.len() == 0 {
        None
    } else {
        Some(string_of(&t))
    }
}

/// A preset's row in the list: its name, `  ·B` when it is set as B, and `  ·` when it is the
/// loaded preset with unsaved changes.
pub open spec fn row_label_spec(name: Seq<char>, is_b: bool, edited_here: bool) -> Seq<char> {
    name + (if is_b {
        "  ·B"@
    } else {
        Seq::empty()
    }) + (if edited_here {
        "  ·"@
    } else {
        Seq::empty()
    })
}

pub fn row_label(name: &str, is_b: bool, edited_here: bool) -> (r: String)
    ensures
        r@ == row_label_spec(name@, is_b, edited_here),
{
    let mut s = String::new();
    push_str(&mut s, name);
    if is_b {
        push_str(&mut s, "  ·B");
    }
    if edited_here {
        push_str(&mut s, "  ·");
    }
    assert(s@ =~= row_label_spec(name@, is_b, edited_here));
    s
}

impl Selection {
    pub fn new(folder: Option<String>, current: Option<String>) -> (r: Selection)
        ensures
            r.folder == folder,
            r.current == current,
            r.baseline_folder.is_none(),
            r.ab_source.is_none(),
    {
        Selection { folder, current, baseline_folder: None, ab_source: None }
    }

    /// The loaded preset came from the folder shown.
    pub open spec fn owns_folder_spec(&self) -> bool {
        self.baseline_folder matches Some(a) && holds_same(self.folder, a@)
    }

    pub fn owns_folder(&self) -> (r: bool)
        ensures
            r == self.owns_folder_spec(),
    {
        match &self.baseline_folder {
            Some(a) => holds_same_exec(&self.folder, a.as_str()),
            None => false,
        }
    }

    /// The row for `name` in the folder shown is the loaded preset.
    pub fn is_current(&self, name: &str) -> (r: bool)
        ensures
            r == (holds_same(self.current, name@) && self.owns_folder_spec()),
    {
        holds_same_exec(&self.current, name) && self.owns_folder()
    }

    /// `name` in `folder` is the preset set as B.
    pub fn is_b(&self, folder: &str, name: &str) -> (r: bool)
        ensures
            r == (self.ab_source matches Some(p) && eq_ci(p.folder@, folder@) && eq_ci(
                p.name@,
                name@,
            )),
    {
        match &self.ab_source {
            Some(p) => p.matches(folder, name),
            None => false,
        }
    }

    /// A preset is loaded, from the folder shown: the folder's loudness target applies to it.
    pub fn loaded_here(&self) -> (r: bool)
        ensures
            r == (self.current.is_some() && self.owns_folder_spec()),
    {
        self.current.is_some() && self.owns_folder()
    }

    /// The name a save proposes: the loaded preset's, or `New preset`.
    pub fn save_name(&self) -> (r: String)
        ensures
            r@ == match self.current {
                Some(c) => c@,
                None => "New preset"@,
            },
    {
        match &self.current {
            Some(c) => c.clone(),
            None => {
                let mut s = String::new();
                push_str(&mut s, "New preset");
                s
            },
        }
    }

    /// Nothing is loaded any more.
    pub fn forget_current(&mut self)
        ensures
            final(self).current.is_none(),
            final(self).baseline_folder.is_none(),
            final(self).folder == old(self).folder,
            final(self).ab_source == old(self).ab_source,
    {
        self.current = None;
        self.baseline_folder = None;
    }

    /// Preset `old_name` of the folder shown is now called `new_name`: the loaded preset follows
    /// the rename.
    pub fn preset_renamed(&mut self, old_name: &str, new_name: String)
        ensures
            final(self).current == if holds_same(old(self).current, old_name@) {
                Some(new_name)
            } else {
                old(self).current
            },
            final(self).folder == old(self).folder,
            final(self).baseline_folder == old(self).baseline_folder,
            final(self).ab_source == old(self).ab_source,
    {
        if holds_same_exec(&self.current, old_name) {
            self.current = Some(new_name);
        }
    }

    /// Preset `name` of `folder` was deleted. When it was the loaded preset, nothing is loaded any
    /// more; when it was B, B is dropped. Says which of the two happened.
    pub fn preset_deleted(&mut self, folder: &str, name: &str) -> (r: (bool, bool))
        ensures
            r.0 == holds_same(old(self).current, name@),
            r.1 == (old(self).ab_source matches Some(p) && eq_ci(p.folder@, folder@) && eq_ci(
                p.name@,
                name@,
            )),
            final(self).current == if r.0 {
                None
            } else {
                old(self).current
            },
            final(self).baseline_folder == if r.0 {
                None
            } else {
                old(self).baseline_folder
            },
            final(self).ab_source == if r.1 {
                None
            } else {
                old(self).ab_source
            },
            final(self).folder == old(self).folder,
    {
        let was_current = holds_same_exec(&self.current, name);
        if was_current {
            self.current = None;
            self.baseline_folder = None;
        }
        let was_b = self.is_b(folder, name);
        if was_b {
            self.ab_source = None;
        }
        (was_current, was_b)
    }

    /// Folder `old_folder` is now called `new_name`: the loaded preset's folder follows the
    /// rename.
    pub fn folder_renamed(&mut self, old_folder: &str, new_name: String)
        ensures
            final(self).baseline_folder == if holds_same(old(self).baseline_folder, old_folder@) {
                Some(new_name)
            } else {
                old(self).baseline_folder
            },
            final(self).folder == old(self).folder,
            final(self).current == old(self).current,
            final(self).ab_source == old(self).ab_source,
    {
        if holds_same_exec(&self.baseline_folder, old_folder) {
            self.baseline_folder = Some(new_name);
        }
    }

    /// Folder `folder` was deleted: no folder is shown, and when the loaded preset came from it,
    /// nothing is loaded any more (which the result says).
    pub fn folder_deleted(&mut self, folder: &str) -> (r: bool)
        ensures
            r == holds_same(old(self).baseline_folder, folder@),
            final(self).folder.is_none(),
            final(self).current == if r {
                None
            } else {
                old(self).current
            },
            final(self).baseline_folder == if r {
                None
            } else {
                old(self).baseline_folder
            },
            final(self).ab_source == old(self).ab_source,
    {
        let was_loaded = holds_same_exec(&self.baseline_folder, folder);
        if was_loaded {
            self.current = None;
            self.baseline_folder = None;
        }
        self.folder = None;
        was_loaded
    }
}

proof fn lemma_first_same_found(fs: Seq<Seq<char>>, w: Seq<char>, i: int, j: int)
    requires
        0 <= i <= j < fs.len(),
        eq_ci(fs[j], w),
    ensures
        first_same_from(fs, w, i) matches Some(k) && i <= k <= j && eq_ci(fs[k], w),
    decreases j - i,
{
    if !eq_ci(fs[i], w) {
        lemma_first_same_found(fs, w, i + 1, j);
    }
}

/// The folder shown is always a listed one when any is listed, and the one asked for when it
/// is listed (ignoring ASCII case); with no folders, none is shown.
pub proof fn law_pick_folder(folders: Seq<Seq<char>>, want: Option<Seq<char>>)
    ensures
        folders.len() == 0 ==> pick_folder_spec(folders, want).is_none(),
        folders.len() > 0 ==> (pick_folder_spec(folders, want) matches Some(f) && folders.contains(f)),
        (want matches Some(w) && exists|j: int| 0 <= j < folders.len() && eq_ci(#[trigger] folders[j], w))
            ==> (pick_folder_spec(folders, want) matches Some(f) && eq_ci(f, want.unwrap())),
{
    if let Some(w) = want {
        lemma_first_same_bounds(folders, w, 0);
        if exists|j: int| 0 <= j < folders.len() && eq_ci(#[trigger] folders[j], w) {
            let j = choose|j: int| 0 <= j < folders.len() && eq_ci(#[trigger] folders[j], w);
            lemma_first_same_found(folders, w, 0, j);
        }
        if let Some(k) = first_same_from(folders, w, 0) {
            assert(folders[k] == folders[k]);
        }
    }
    if folders.len() > 0 {
        assert(folders[0] == folders[0]);
    }
}

} // verus!
