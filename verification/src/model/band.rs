//! What a band is, apart from its numbers: its filter shape, the ears it acts on, its id.
use vstd::prelude::*;

verus! {

#[derive(Clone, Copy, Debug, PartialEq, Eq, Hash, Structural)]
pub enum FilterKind {
    Bell,
    LowShelf,
    HighShelf,
    LowCut,
    HighCut,
    Notch,
    BandPass,
    AllPass,
}

pub open spec fn display_name_spec(k: FilterKind) -> Seq<char> {
    match k {
        FilterKind::Bell => "Bell"@,
        FilterKind::LowShelf => "Low Shelf"@,
        FilterKind::HighShelf => "High Shelf"@,
        FilterKind::LowCut => "Low Cut"@,
        FilterKind::HighCut => "High Cut"@,
        FilterKind::Notch => "Notch"@,
        FilterKind::BandPass => "Band Pass"@,
        FilterKind::AllPass => "All Pass"@,
    }
}

pub open spec fn uses_gain_spec(k: FilterKind) -> bool {
    k is Bell || k is LowShelf || k is HighShelf
}

pub open spec fn uses_slope_spec(k: FilterKind) -> bool {
    k is LowCut || k is HighCut
}

impl FilterKind {
    /// Every kind, in the order the pickers list them.
    pub fn all() -> (r: Vec<FilterKind>)
        ensures
            r@ == seq![
                FilterKind::Bell,
                FilterKind::LowShelf,
                FilterKind::HighShelf,
                FilterKind::LowCut,
                FilterKind::HighCut,
                FilterKind::Notch,
                FilterKind::BandPass,
                FilterKind::AllPass,
            ],
    {
        let r = vec![
            FilterKind::Bell,
            FilterKind::LowShelf,
            FilterKind::HighShelf,
            FilterKind::LowCut,
            FilterKind::HighCut,
            FilterKind::Notch,
            FilterKind::BandPass,
            FilterKind::AllPass,
        ];
        assert(r@ =~= seq![
            FilterKind::Bell,
            FilterKind::LowShelf,
            FilterKind::HighShelf,
            FilterKind::LowCut,
            FilterKind::HighCut,
            FilterKind::Notch,
            FilterKind::BandPass,
            FilterKind::AllPass,
        ]);
        r
    }

    pub fn display_name(self) -> (r: &'static str)
        ensures
            r@ == display_name_spec(self),
    {
        match self {
            FilterKind::Bell => "Bell",
            FilterKind::LowShelf => "Low Shelf",
            FilterKind::HighShelf => "High Shelf",
            FilterKind::LowCut => "Low Cut",
            FilterKind::HighCut => "High Cut",
            FilterKind::Notch => "Notch",
            FilterKind::BandPass => "Band Pass",
            FilterKind::AllPass => "All Pass",
        }
    }

    /// Bells and shelves have a gain; the other shapes ignore it.
    pub fn uses_gain(self) -> (r: bool)
        ensures
            r == uses_gain_spec(self),
    {
        matches!(self, FilterKind::Bell | FilterKind::LowShelf | FilterKind::HighShelf)
    }

    /// Cuts are set by their slope rather than their Q.
    pub fn uses_slope(self) -> (r: bool)
        ensures
            r == uses_slope_spec(self),
    {
        matches!(self, FilterKind::LowCut | FilterKind::HighCut)
    }
}

#[derive(Clone, Copy, Debug, Default, PartialEq, Eq, Hash, Structural)]
pub enum ChannelTarget {
    #[default]
    Both,
    Left,
    Right,
}

pub open spec fn ear_name_spec(c: ChannelTarget) -> Seq<char> {
    match c {
        ChannelTarget::Left => "Left only"@,
        ChannelTarget::Right => "Right only"@,
        ChannelTarget::Both => "Both ears"@,
    }
}

pub open spec fn applies_to_spec(c: ChannelTarget, asked: ChannelTarget) -> bool {
    c == ChannelTarget::Both || c == asked
}

/// Which shapes take a gain and which a slope: a bell and the two shelves have a gain, the two
/// cuts a slope, and no shape has both.
pub proof fn law_gain_and_slope(k: FilterKind)
    ensures
        uses_gain_spec(k) <==> (k == FilterKind::Bell || k == FilterKind::LowShelf || k
            == FilterKind::HighShelf),
        uses_slope_spec(k) <==> (k == FilterKind::LowCut || k == FilterKind::HighCut),
        !(uses_gain_spec(k) && uses_slope_spec(k)),
{
}

/// A cut whose slope is a whole number of 12 dB/oct steps is built from one biquad per step
/// (12 dB/oct: one, 24: two, 36: three, 48: four); the Butterworth order built is the
/// smallest even order of at least two that covers the one asked for.
pub proof fn law_cut_sections(slope: i32, order: usize)
    ensures
        slope >= 12 && slope % 12 == 0 ==> cut_sections_spec(slope) == slope / 12,
        butterworth_order_spec(order) % 2 == 0,
        butterworth_order_spec(order) >= 2,
        butterworth_order_spec(order) >= order,
        butterworth_order_spec(order) <= if order < 2 {
            2
        } else {
            order + 1
        },
{
    if slope >= 12 && slope % 12 == 0 {
        let o = slope / 6;
        assert(o % 2 == 0);
        assert(o >= 2);
        if o > 2 {
            assert(butterworth_order_spec(o as usize) == o);
        }
    }
}

/// Which ears a band is heard on: a `Both` band on each ear, a `Left` band only on the left, a
/// `Right` band only on the right.
pub proof fn law_channel_targets()
    ensures
        applies_to_spec(ChannelTarget::Both, ChannelTarget::Left),
        applies_to_spec(ChannelTarget::Both, ChannelTarget::Right),
        applies_to_spec(ChannelTarget::Left, ChannelTarget::Left),
        !applies_to_spec(ChannelTarget::Left, ChannelTarget::Right),
        applies_to_spec(ChannelTarget::Right, ChannelTarget::Right),
        !applies_to_spec(ChannelTarget::Right, ChannelTarget::Left),
{
}

impl ChannelTarget {
    /// Every target, in the order the pickers list them.
    pub fn all() -> (r: Vec<ChannelTarget>)
        ensures
            r@ == seq![ChannelTarget::Both, ChannelTarget::Left, ChannelTarget::Right],
    {
        let r = vec![ChannelTarget::Both, ChannelTarget::Left, ChannelTarget::Right];
        assert(r@ =~= seq![ChannelTarget::Both, ChannelTarget::Left, ChannelTarget::Right]);
        r
    }

    pub fn ear_name(self) -> (r: &'static str)
        ensures
            r@ == ear_name_spec(self),
    {
        match self {
            ChannelTarget::Left => "Left only",
            ChannelTarget::Right => "Right only",
            ChannelTarget::Both => "Both ears",
        }
    }

    /// A band on `self` is heard on the `asked` side: `Both` is heard everywhere.
    pub fn applies_to(self, asked: ChannelTarget) -> (r: bool)
        ensures
            r == applies_to_spec(self, asked),
    {
        self == ChannelTarget::Both || self == asked
    }
}

/// The identity a model gives a band when it is inserted; never stored on disk.
#[derive(Clone, Copy, Debug, PartialEq, Eq, Hash, PartialOrd, Ord, Structural)]
pub struct BandId(pub u64);

/// The slope a band keeps: anything not above zero falls back to 12 dB/oct.
pub open spec fn normalized_slope_spec(slope: i32) -> i32 {
    if slope <= 0 {
        12
    } else {
        slope
    }
}

pub fn normalized_slope(slope: i32) -> (r: i32)
    ensures
        r == normalized_slope_spec(slope),
        r > 0,
{
    if slope <= 0 {
        12
    } else {
        slope
    }
}

/// The filter order a cut of the given slope asks for: one order per 6 dB/oct, at least two.
pub open spec fn cut_order_spec(slope: i32) -> int {
    if slope < 12 {
        2
    } else {
        slope / 6
    }
}

pub fn cut_order(slope: i32) -> (r: i32)
    ensures
        r == cut_order_spec(slope),
        r >= 2,
{
    if slope < 12 {
        2
    } else {
        slope / 6
    }
}

/// The Butterworth order actually built: at least two, rounded up to even.
pub open spec fn butterworth_order_spec(order: usize) -> int {
    let o = if order < 2 {
        2
    } else {
        order as int
    };
    if o % 2 != 0 {
        o + 1
    } else {
        o
    }
}

pub fn butterworth_order(order: usize) -> (r: usize)
    requires
        order < usize::MAX,
    ensures
        r == butterworth_order_spec(order),
        r >= 2,
        r % 2 == 0,
{
    let mut o = if order < 2 {
        2
    } else {
        order
    };
    if o % 2 != 0 {
        o += 1;
    }
    o
}

/// How many biquad sections a cut of the given slope is built from: one when its order is two
/// (that section uses the band's own Q), else one per pair of poles.
pub open spec fn cut_sections_spec(slope: i32) -> int {
    let order = cut_order_spec(slope);
    if order <= 2 {
        1
    } else {
        butterworth_order_spec(order as usize) / 2
    }
}

pub fn cut_sections(slope: i32) -> (r: usize)
    ensures
        r == cut_sections_spec(slope),
        r >= 1,
{
    let order = cut_order(slope);
    if order <= 2 {
        1
    } else {
        butterworth_order(order as usize) / 2
    }
}

/// A band as the config writers see it: its shape, and each of its numbers already written out
/// as text by the writer's own number format. `cut_qs` holds one Q per section of a cut.
#[derive(Clone, Debug, PartialEq)]
pub struct BandText {
    pub kind: FilterKind,
    pub enabled: bool,
    pub channel: ChannelTarget,
    pub freq: String,
    pub gain: String,
    pub q: String,
    pub cut_qs: Vec<String>,
}

pub struct BandTextView {
    pub kind: FilterKind,
    pub enabled: bool,
    pub channel: ChannelTarget,
    pub freq: Seq<char>,
    pub gain: Seq<char>,
    pub q: Seq<char>,
    pub cut_qs: Seq<Seq<char>>,
}

/// The texts held by a vector of strings.
pub open spec fn strings_view(v: Seq<String>) -> Seq<Seq<char>> {
    v.map_values(|s: String| s@)
}

impl View for BandText {
    type V = BandTextView;

    open spec fn view(&self) -> BandTextView {
        BandTextView {
            kind: self.kind,
            enabled: self.enabled,
            channel: self.channel,
            freq: self.freq@,
            gain: self.gain@,
            q: self.q@,
            cut_qs: strings_view(self.cut_qs@),
        }
    }
}

/// The views of a run of bands.
pub open spec fn band_views(v: Seq<BandText>) -> Seq<BandTextView> {
    v.map_values(|b: BandText| b@)
}

} // verus!
