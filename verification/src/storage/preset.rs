//! Naming a stored preset by its folder and name.
use vstd::prelude::*;

use crate::text::{chars_of, eq_ci, eq_ci_exec, push_str};

verus! {

/// A preset on disk: the folder it is in and its name. Names match ignoring ASCII case, as the
/// file systems heq runs on compare them.
#[derive(Clone, Debug, PartialEq, Eq)]
pub struct PresetRef {
    pub folder: String,
    pub name: String,
}

impl PresetRef {
    pub fn new(folder: String, name: String) -> (r: PresetRef)
        ensures
            r.folder@ == folder@,
            r.name@ == name@,
    {
        PresetRef { folder, name }
    }

    /// `folder / name`.
    pub fn display(&self) -> (r: String)
        ensures
            r@ == self.folder@ + " / "@ + self.name@,
    {
        let mut s = String::new();
        push_str(&mut s, self.folder.as_str());
        push_str(&mut s, " / ");
        push_str(&mut s, self.name.as_str());
        assert(s@ =~= self.folder@ + " / "@ + self.name@);
        s
    }

    pub fn matches(&self, folder: &str, name: &str) -> (r: bool)
        ensures
            r == (eq_ci(self.folder@, folder@) && eq_ci(self.name@, name@)),
    {
        let a = chars_of(self.folder.as_str());
        let b = chars_of(folder);
        let c = chars_of(self.name.as_str());
        let d = chars_of(name);
        eq_ci_exec(&a, &b) && eq_ci_exec(&c, &d)
    }
}

} // verus!
