//! A/B comparison: the side you hear is the live model, so it stays editable; the other side is
//! parked here, with the names of both.
use vstd::prelude::*;

verus! {

pub struct AbSides<P> {
    other: Option<P>,
    other_name: Option<String>,
    current_name: Option<String>,
    on_b: bool,
}

pub struct AbView<P> {
    pub other: Option<P>,
    pub other_name: Option<Seq<char>>,
    pub current_name: Option<Seq<char>>,
    pub on_b: bool,
}

pub open spec fn name_view(n: Option<String>) -> Option<Seq<char>> {
    match n {
        Some(s) => Some(s@),
        None => None,
    }
}

impl<P> View for AbSides<P> {
    type V = AbView<P>;

    closed spec fn view(&self) -> AbView<P> {
        AbView {
            other: self.other,
            other_name: name_view(self.other_name),
            current_name: name_view(self.current_name),
            on_b: self.on_b,
        }
    }
}

/// The name of side A: the live side's when A is live, else the parked side's.
pub open spec fn a_name_spec<P>(s: AbView<P>) -> Option<Seq<char>> {
    if s.on_b {
        s.other_name
    } else {
        s.current_name
    }
}

pub open spec fn b_name_spec<P>(s: AbView<P>) -> Option<Seq<char>> {
    if s.on_b {
        s.current_name
    } else {
        s.other_name
    }
}

/// Switching to the other side: the live side is parked under its name and the parked one,
/// returned, becomes live. Nothing happens when nothing is parked or that side is already live.
pub open spec fn switch_spec<P>(s: AbView<P>, to_b: bool, live: P) -> (AbView<P>, Option<P>) {
    if s.other.is_none() || to_b == s.on_b {
        (s, None)
    } else {
        (
            AbView {
                other: Some(live),
                other_name: s.current_name,
                current_name: s.other_name,
                on_b: to_b,
            },
            s.other,
        )
    }
}

impl<P> AbSides<P> {
    pub fn new() -> (r: AbSides<P>)
        ensures
            r@.other.is_none(),
            r@.other_name.is_none(),
            r@.current_name.is_none(),
            !r@.on_b,
    {
        AbSides { other: None, other_name: None, current_name: None, on_b: false }
    }

    /// A side is parked, so there is something to compare against.
    pub fn active(&self) -> (r: bool)
        ensures
            r == self@.other.is_some(),
    {
        self.other.is_some()
    }

    pub fn on_b(&self) -> (r: bool)
        ensures
            r == self@.on_b,
    {
        self.on_b
    }

    pub fn current_name(&self) -> (r: Option<&String>)
        ensures
            name_view(match r {
                Some(s) => Some(*s),
                None => None,
            }) == self@.current_name,
    {
        self.current_name.as_ref()
    }

    pub fn a_name(&self) -> (r: Option<&String>)
        ensures
            name_view(match r {
                Some(s) => Some(*s),
                None => None,
            }) == a_name_spec(self@),
    {
        if self.on_b {
            self.other_name.as_ref()
        } else {
            self.current_name.as_ref()
        }
    }

    pub fn b_name(&self) -> (r: Option<&String>)
        ensures
            name_view(match r {
                Some(s) => Some(*s),
                None => None,
            }) == b_name_spec(self@),
    {
        if self.on_b {
            self.current_name.as_ref()
        } else {
            self.other_name.as_ref()
        }
    }

    /// The parked side, if any.
    pub fn parked(&self) -> (r: Option<&P>)
        ensures
            match r {
                Some(p) => self@.other == Some(*p),
                None => self@.other.is_none(),
            },
    {
        self.other.as_ref()
    }

    /// Names the live side.
    pub fn name_current(&mut self, name: Option<String>)
        ensures
            final(self)@ == (AbView { current_name: name_view(name), ..old(self)@ }),
    {
        self.current_name = name;
    }

    /// The label a snapshot of the live side is parked under.
    pub fn live_label(&self) -> (r: &'static str)
        ensures
            r@ == if self@.on_b {
                "B"@
            } else {
                "A"@
            },
    {
        if self.on_b {
            "B"
        } else {
            "A"
        }
    }

    /// Parks `preset` as side B, with A live.
    pub fn park_b(&mut self, preset: P, name: Option<String>)
        ensures
            final(self)@ == (AbView {
                other: Some(preset),
                other_name: name_view(name),
                on_b: false,
                ..old(self)@
            }),
    {
        self.other = Some(preset);
        self.other_name = name;
        self.on_b = false;
    }

    /// Drops the parked side.
    pub fn clear(&mut self)
        ensures
            final(self)@ == (AbView {
                other: None,
                other_name: None,
                on_b: false,
                ..old(self)@
            }),
    {
        self.other = None;
        self.other_name = None;
        self.on_b = false;
    }

    /// Switches to side B (`to_b`) or A; `live` is a snapshot of the live side, parked in its
    /// place. Returns the side to make live, or nothing when there was no switch.
    pub fn switch_to(&mut self, to_b: bool, live: P) -> (r: Option<P>)
        ensures
            (final(self)@, r) == switch_spec(old(self)@, to_b, live),
    {
        if self.other.is_none() || to_b == self.on_b {
            return None;
        }
        let parked = self.other.take();
        let parked_name = self.other_name.take();
        let live_name = self.current_name.take();
        self.other = Some(live);
        self.other_name = live_name;
        self.current_name = parked_name;
        self.on_b = to_b;
        parked
    }
}

/// What a side is called in the A/B tip: its name, or "working EQ" when it has none (or an
/// empty one).
pub fn side_name<'a>(name: Option<&'a str>) -> (r: &'a str)
    ensures
        r@ == match name {
            Some(n) => if n@.len() > 0 {
                n@
            } else {
                "working EQ"@
            },
            None => "working EQ"@,
        },
{
    match name {
        Some(n) => {
            if !n.is_empty() {
                n
            } else {
                "working EQ"
            }
        },
        None => "working EQ",
    }
}

/// Switching never renames the sides: what A and B are called is the same after a switch.
pub proof fn law_switch_keeps_names<P>(s: AbView<P>, to_b: bool, live: P)
    ensures
        a_name_spec(switch_spec(s, to_b, live).0) == a_name_spec(s),
        b_name_spec(switch_spec(s, to_b, live).0) == b_name_spec(s),
{
}

/// Switching away and back restores the names and the live side, and hands back, in turn, the
/// parked side and then the snapshot that was parked in its place.
pub proof fn law_switch_back<P>(s: AbView<P>, x: P, y: P)
    requires
        s.other.is_some(),
    ensures
        ({
            let (s1, r1) = switch_spec(s, !s.on_b, x);
            let (s2, r2) = switch_spec(s1, s.on_b, y);
            &&& r1 == s.other
            &&& r2 == Some(x)
            &&& s2.on_b == s.on_b
            &&& s2.current_name == s.current_name
            &&& s2.other_name == s.other_name
            &&& s2.other == Some(y)
        }),
{
}

} // verus!
