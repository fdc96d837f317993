//! What a click, a double click or a scroll on the curve does to the bands, given which band (if
//! any) is under the pointer and which modifier keys are held.
use vstd::prelude::*;

use super::band::BandId;

verus! {

/// What pressing (or starting a drag) on the curve does.
#[derive(Clone, Copy, Debug, PartialEq, Eq, Structural)]
pub enum Press {
    /// Alt on a band: switch the band on or off and select it, without dragging.
    Toggle(BandId),
    /// On a band: select it and drag it; `q` drags its Q instead of frequency and gain.
    Drag { band: BandId, q: bool },
    /// On empty curve: add a band at the pointer, mark it just added, select it and drag it.
    Add { q: bool },
}

/// Which press a press on `hit` is: Ctrl (or Command) picks the Q drag, Alt on a band toggles it.
pub open spec fn press_spec(hit: Option<BandId>, alt: bool, ctrl: bool) -> Press {
    match hit {
        Some(id) => if alt {
            Press::Toggle(id)
        } else {
            Press::Drag { band: id, q: ctrl }
        },
        None => Press::Add { q: ctrl },
    }
}

pub fn press(hit: Option<BandId>, alt: bool, ctrl: bool) -> (r: Press)
    ensures
        r == press_spec(hit, alt, ctrl),
{
    match hit {
        Some(id) => if alt {
            Press::Toggle(id)
        } else {
            Press::Drag { band: id, q: ctrl }
        },
        None => Press::Add { q: ctrl },
    }
}

/// The band a double click removes: the one under the pointer, unless it is the band the first
/// click of the double click just added.
pub open spec fn double_click_spec(hit: Option<BandId>, just_added: Option<BandId>) -> Option<BandId> {
    match hit {
        Some(h) => if just_added == Some(h) {
            None
        } else {
            Some(h)
        },
        None => None,
    }
}

pub fn double_click(hit: Option<BandId>, just_added: Option<BandId>) -> (r: Option<BandId>)
    ensures
        r == double_click_spec(hit, just_added),
{
    match hit {
        Some(h) => match just_added {
            Some(j) => if j.0 == h.0 {
                None
            } else {
                Some(h)
            },
            None => Some(h),
        },
        None => None,
    }
}

/// The slopes, in dB per octave, a cut band steps through.
pub open spec fn slopes() -> Seq<i32> {
    seq![12i32, 24i32, 36i32, 48i32]
}

/// Where a slope stands among `slopes()`; one not among them counts as the first.
pub open spec fn slope_index(slope: i32) -> int {
    if slope == 24 {
        1
    } else if slope == 36 {
        2
    } else if slope == 48 {
        3
    } else {
        0
    }
}

/// Scrolling `steps` notches over a cut band moves its slope that many places along
/// `slopes()`, stopping at either end.
pub open spec fn stepped_slope_spec(slope: i32, steps: i32) -> i32 {
    let i = slope_index(slope) + steps;
    slopes()[if i < 0 {
        0
    } else if i > 3 {
        3
    } else {
        i
    }]
}

pub fn stepped_slope(slope: i32, steps: i32) -> (r: i32)
    requires
        steps <= i32::MAX - 3,
    ensures
        r == stepped_slope_spec(slope, steps),
{
    let i: i32 = if slope == 24 {
        1
    } else if slope == 36 {
        2
    } else if slope == 48 {
        3
    } else {
        0
    };
    let next: i32 = i + steps;
    if next <= 0 {
        12
    } else if next == 1 {
        24
    } else if next == 2 {
        36
    } else {
        48
    }
}

/// Scrolling never leaves the list: the slope a scroll gives is always one of `slopes()`, and
/// scrolling back by as many notches from a listed slope returns to it when neither scroll hits
/// an end.
pub proof fn law_slope_steps_stay_listed(slope: i32, steps: i32)
    ensures
        slopes().contains(stepped_slope_spec(slope, steps)),
        slopes().contains(slope) && 0 <= slope_index(slope) + steps <= 3 ==> stepped_slope_spec(
            stepped_slope_spec(slope, steps),
            -steps as i32,
        ) == slope,
{
    let i = slope_index(slope) + steps;
    let j = if i < 0 {
        0
    } else if i > 3 {
        3
    } else {
        i
    };
    assert(slopes()[j] == stepped_slope_spec(slope, steps));
    assert(slopes().contains(stepped_slope_spec(slope, steps)));
}

} // verus!
