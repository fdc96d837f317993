//! The kinds of output backend, and choosing among the ones a platform supports.
use vstd::prelude::*;

use crate::text::{chars_eq, chars_of};

verus! {

#[derive(Clone, Copy, Debug, PartialEq, Eq, Structural)]
pub enum BackendKind {
    Apo,
    Camilla,
    PipeWire,
}

pub open spec fn label_spec(k: BackendKind) -> Seq<char> {
    match k {
        BackendKind::Apo => "Equalizer APO"@,
        BackendKind::Camilla => "CamillaDSP"@,
        BackendKind::PipeWire => "PipeWire"@,
    }
}

/// The first supported kind whose label is `label`.
pub open spec fn from_label_spec(supported: Seq<BackendKind>, label: Seq<char>) -> Option<BackendKind>
    decreases supported.len(),
{
    if supported.len() == 0 {
        None
    } else if label_spec(supported[0]) == label {
        Some(supported[0])
    } else {
        from_label_spec(supported.drop_first(), label)
    }
}

impl BackendKind {
    pub fn label(self) -> (r: &'static str)
        ensures
            r@ == label_spec(self),
    {
        match self {
            BackendKind::Apo => "Equalizer APO",
            BackendKind::Camilla => "CamillaDSP",
            BackendKind::PipeWire => "PipeWire",
        }
    }

    /// The kind among `supported` (the platform's list) whose label is `label`.
    pub fn from_label(label: &str, supported: &[BackendKind]) -> (r: Option<BackendKind>)
        ensures
            r == from_label_spec(supported@, label@),
    {
        let lv = chars_of(label);
        let mut i: usize = 0;
        assert(supported@.skip(0) =~= supported@);
        while i < supported.len()
            invariant
                i <= supported@.len(),
                lv@ == label@,
                from_label_spec(supported@, label@) == from_label_spec(supported@.skip(i as int), label@),
            decreases supported@.len() - i,
        {
            assert(supported@.skip(i as int).drop_first() =~= supported@.skip(i + 1));
            assert(supported@.skip(i as int)[0] == supported@[i as int]);
            let k = supported[i];
            let kv = chars_of(k.label());
            if chars_eq(&kv, &lv) {
                return Some(k);
            }
            i += 1;
        }
        None
    }
}

/// The platform's first backend is its default.
pub fn default_kind(supported: &[BackendKind]) -> (r: BackendKind)
    requires
        supported@.len() > 0,
    ensures
        r == supported@[0],
{
    supported[0]
}

/// Each kind has its own label.
proof fn lemma_labels_differ(a: BackendKind, b: BackendKind)
    ensures
        label_spec(a) == label_spec(b) ==> a == b,
{
    reveal_strlit("Equalizer APO");
    reveal_strlit("CamillaDSP");
    reveal_strlit("PipeWire");
    if a != b {
        assert(label_spec(a).len() != label_spec(b).len());
    }
}

/// A label read back names the kind it was written from: for every supported kind, looking up
/// its label finds that kind; and whatever a lookup finds is supported and carries that label.
pub proof fn law_label_round_trip(supported: Seq<BackendKind>, k: BackendKind, label: Seq<char>)
    ensures
        supported.contains(k) ==> from_label_spec(supported, label_spec(k)) == Some(k),
        from_label_spec(supported, label) matches Some(found) ==> supported.contains(found)
            && label_spec(found) == label,
    decreases supported.len(),
{
    if supported.len() > 0 {
        let rest = supported.drop_first();
        law_label_round_trip(rest, k, label);
        lemma_labels_differ(supported[0], k);
        if supported.contains(k) && supported[0] != k {
            let j = choose|j: int| 0 <= j < supported.len() && supported[j] == k;
            assert(rest[j - 1] == k);
        }
        if let Some(found) = from_label_spec(rest, label) {
            let j = choose|j: int| 0 <= j < rest.len() && rest[j] == found;
            assert(supported[j + 1] == found);
        }
        assert(supported[0] == supported[0]);
    }
}

} // verus!
