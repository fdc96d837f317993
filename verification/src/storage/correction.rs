//! A folder's left/right correction: which ear each of its bands acts on, and how it is
//! summed up.
use vstd::prelude::*;

use crate::model::band::ChannelTarget;
use crate::text::{dec, push_dec, push_str};

verus! {

/// A correction is one-sided by nature: a band stored for both ears acts on the left one.
pub open spec fn correction_side_spec(c: ChannelTarget) -> ChannelTarget {
    if c == ChannelTarget::Both {
        ChannelTarget::Left
    } else {
        c
    }
}

pub fn correction_side(c: ChannelTarget) -> (r: ChannelTarget)
    ensures
        r == correction_side_spec(c),
        r != ChannelTarget::Both,
{
    if c == ChannelTarget::Both {
        ChannelTarget::Left
    } else {
        c
    }
}

/// How many of the bands are not right-only (they count as left).
pub open spec fn left_count(cs: Seq<ChannelTarget>) -> nat
    decreases cs.len(),
{
    if cs.len() == 0 {
        0
    } else {
        left_count(cs.drop_last()) + if cs.last() != ChannelTarget::Right {
            1nat
        } else {
            0nat
        }
    }
}

/// `no correction`, or how many bands act on each ear.
pub open spec fn summary_spec(cs: Seq<ChannelTarget>) -> Seq<char> {
    if cs.len() == 0 {
        "no correction"@
    } else {
        dec(left_count(cs)) + " left · "@ + dec((cs.len() - left_count(cs)) as nat) + " right"@
    }
}

proof fn lemma_left_count_bound(cs: Seq<ChannelTarget>)
    ensures
        left_count(cs) <= cs.len(),
    decreases cs.len(),
{
    if cs.len() > 0 {
        lemma_left_count_bound(cs.drop_last());
    }
}

/// The summary of a correction whose bands act on the given channels.
pub fn summary(channels: &[ChannelTarget]) -> (r: String)
    ensures
        r@ == summary_spec(channels@),
{
    let mut s = String::new();
    if channels.len() == 0 {
        push_str(&mut s, "no correction");
        assert(s@ =~= "no correction"@);
        return s;
    }
    let mut left: usize = 0;
    let mut i: usize = 0;
    while i < channels.len()
        invariant
            i <= channels@.len(),
            left == left_count(channels@.take(i as int)),
            left <= i,
        decreases channels@.len() - i,
    {
        assert(channels@.take(i + 1).drop_last() =~= channels@.take(i as int));
        if channels[i] != ChannelTarget::Right {
            left += 1;
        }
        i += 1;
    }
    assert(channels@.take(channels@.len() as int) =~= channels@);
    push_dec(&mut s, left);
    push_str(&mut s, " left · ");
    push_dec(&mut s, channels.len() - left);
    push_str(&mut s, " right");
    s
}

} // verus!
