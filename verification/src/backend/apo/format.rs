//! Equalizer APO's text format: reading filter lines back, and writing heq's own file.
use vstd::prelude::*;

use crate::model::band::{band_views, strings_view, BandText, BandTextView, ChannelTarget, FilterKind};
use crate::text::{
    chars_of, ends_with, ends_with_exec, eq_ci, eq_ci_exec, find_lower, find_lower_exec,
    is_float_text, is_float_text_exec, is_word, lines, lines_exec, lower_chars, push_str,
    replace_comma, replace_comma_exec, slice_chars, starts_with, starts_with_ci,
    starts_with_ci_exec, starts_with_exec, str_to_lowercase, str_to_uppercase, string_of, tokens,
    tokens_exec, trim, trim_exec, upper_chars, views,
};

verus! {

// =============================================================================================
// reading
// =============================================================================================

/// The Q a shelf given by its slope in dB (`LS 6dB`, `LS 12dB`) takes: 0.5 for a 6 dB shelf,
/// 0.7071 otherwise.
#[derive(Clone, Copy, Debug, PartialEq, Eq, Structural)]
pub enum ForcedQ {
    Half,
    Butterworth,
}

/// One `Filter:` line as read, its numbers still the text that was found. A number is kept only
/// where `f64::from_str` accepts it (after trimming and turning `,` into `.`); the last one
/// given for a key wins.
#[derive(Clone, Debug, PartialEq)]
pub struct RawFilter {
    pub kind: FilterKind,
    pub enabled: bool,
    pub channel: ChannelTarget,
    pub fc: Option<String>,
    pub gain: Option<String>,
    pub q: Option<String>,
    pub bw: Option<String>,
    pub forced_q: Option<ForcedQ>,
    /// plain `HP`/`LP`, which are Butterworth whatever Q they name
    pub butterworth: bool,
}

pub struct RawFilterView {
    pub kind: FilterKind,
    pub enabled: bool,
    pub channel: ChannelTarget,
    pub fc: Option<Seq<char>>,
    pub gain: Option<Seq<char>>,
    pub q: Option<Seq<char>>,
    pub bw: Option<Seq<char>>,
    pub forced_q: Option<ForcedQ>,
    pub butterworth: bool,
}

pub open spec fn opt_view(o: Option<String>) -> Option<Seq<char>> {
    match o {
        Some(s) => Some(s@),
        None => None,
    }
}

impl View for RawFilter {
    type V = RawFilterView;

    open spec fn view(&self) -> RawFilterView {
        RawFilterView {
            kind: self.kind,
            enabled: self.enabled,
            channel: self.channel,
            fc: opt_view(self.fc),
            gain: opt_view(self.gain),
            q: opt_view(self.q),
            bw: opt_view(self.bw),
            forced_q: self.forced_q,
            butterworth: self.butterworth,
        }
    }
}

/// A whole config file as read: its filters in order, the last readable `Preamp:`, and a
/// warning for each filter type heq does not know.
#[derive(Clone, Debug, PartialEq)]
pub struct RawConfig {
    pub filters: Vec<RawFilter>,
    pub preamp: Option<String>,
    pub warnings: Vec<String>,
}

pub struct RawConfigView {
    pub channel: ChannelTarget,
    pub filters: Seq<RawFilterView>,
    pub preamp: Option<Seq<char>>,
    pub warnings: Seq<Seq<char>>,
}

pub open spec fn filter_views(v: Seq<RawFilter>) -> Seq<RawFilterView> {
    v.map_values(|f: RawFilter| f@)
}

impl View for RawConfig {
    type V = RawConfigView;

    /// The channel of a finished read is not kept; it reads as `Both`.
    open spec fn view(&self) -> RawConfigView {
        RawConfigView {
            channel: ChannelTarget::Both,
            filters: filter_views(self.filters@),
            preamp: opt_view(self.preamp),
            warnings: strings_view(self.warnings@),
        }
    }
}

/// The number a token holds, as text: trimmed, with `,` read as `.`.
pub open spec fn num_text(t: Seq<char>) -> Seq<char> {
    replace_comma(trim(t))
}

/// A token `f64::from_str` reads.
pub open spec fn is_num(t: Seq<char>) -> bool {
    is_float_text(num_text(t))
}

pub struct ScanView {
    pub fc: Option<Seq<char>>,
    pub gain: Option<Seq<char>>,
    pub q: Option<Seq<char>>,
    pub bw: Option<Seq<char>>,
}

/// The key/value pairs after a filter's type: `Fc <n>`, `Gain <n>`, `Q <n>`, `BW Oct <n>`, keys in
/// any case. A key followed by no readable number is passed over; other tokens are ignored.
pub open spec fn scan(t: Seq<Seq<char>>, i: int, st: ScanView) -> ScanView
    decreases t.len() - i,
{
    if i < 0 || i >= t.len() {
        st
    } else {
        let k = str_to_uppercase(t[i]);
        if k == "FC"@ && i + 1 < t.len() && is_num(t[i + 1]) {
            scan(t, i + 2, ScanView { fc: Some(num_text(t[i + 1])), ..st })
        } else if k == "GAIN"@ && i + 1 < t.len() && is_num(t[i + 1]) {
            scan(t, i + 2, ScanView { gain: Some(num_text(t[i + 1])), ..st })
        } else if k == "Q"@ && i + 1 < t.len() && is_num(t[i + 1]) {
            scan(t, i + 2, ScanView { q: Some(num_text(t[i + 1])), ..st })
        } else if k == "BW"@ && i + 2 < t.len() && is_num(t[i + 2]) {
            scan(t, i + 3, ScanView { bw: Some(num_text(t[i + 2])), ..st })
        } else {
            scan(t, i + 1, st)
        }
    }
}

/// The filter types heq reads, by their upper-cased name.
pub open spec fn kind_of(ty: Seq<char>) -> Option<FilterKind> {
    if ty == "PK"@ || ty == "PEQ"@ || ty == "MODAL"@ {
        Some(FilterKind::Bell)
    } else if ty == "LS"@ || ty == "LSC"@ || ty == "LSQ"@ {
        Some(FilterKind::LowShelf)
    } else if ty == "HS"@ || ty == "HSC"@ || ty == "HSQ"@ {
        Some(FilterKind::HighShelf)
    } else if ty == "HP"@ || ty == "HPQ"@ {
        Some(FilterKind::LowCut)
    } else if ty == "LP"@ || ty == "LPQ"@ {
        Some(FilterKind::HighCut)
    } else if ty == "NO"@ {
        Some(FilterKind::Notch)
    } else if ty == "BP"@ {
        Some(FilterKind::BandPass)
    } else if ty == "AP"@ {
        Some(FilterKind::AllPass)
    } else {
        None
    }
}

/// What one filter body reads as.
pub enum FilterOutcome {
    /// no type, or `NONE` (AutoEq pads unused slots with these)
    Nothing,
    /// a type heq does not know, upper-cased
    Unsupported(Seq<char>),
    Found(RawFilterView),
}

/// `ON`/`OFF` (optional, any case), the type, for `LS`/`HS` an optional slope in dB, then the
/// key/value pairs.
pub open spec fn filter_outcome(t: Seq<Seq<char>>) -> FilterOutcome {
    if t.len() == 0 {
        FilterOutcome::Nothing
    } else {
        let state = if eq_ci(t[0], "ON"@) || eq_ci(t[0], "OFF"@) {
            1int
        } else {
            0int
        };
        let enabled = !eq_ci(t[0], "OFF"@);
        if state >= t.len() {
            FilterOutcome::Nothing
        } else {
            let ty = str_to_uppercase(t[state]);
            let i = state + 1;
            if ty == "NONE"@ {
                FilterOutcome::Nothing
            } else {
                let shelf_db = (ty == "LS"@ || ty == "HS"@) && i < t.len() && ends_with(
                    str_to_lowercase(t[i]),
                    "db"@,
                );
                let forced_q = if shelf_db {
                    Some(
                        if t[i].len() > 0 && t[i][0] == '6' {
                            ForcedQ::Half
                        } else {
                            ForcedQ::Butterworth
                        },
                    )
                } else {
                    None
                };
                let j = if shelf_db {
                    i + 1
                } else {
                    i
                };
                let sc = scan(t, j, ScanView { fc: None, gain: None, q: None, bw: None });
                match kind_of(ty) {
                    None => FilterOutcome::Unsupported(ty),
                    Some(kind) => FilterOutcome::Found(
                        RawFilterView {
                            kind,
                            enabled,
                            channel: ChannelTarget::Both,
                            fc: sc.fc,
                            gain: sc.gain,
                            q: sc.q,
                            bw: sc.bw,
                            forced_q,
                            butterworth: ty == "HP"@ || ty == "LP"@,
                        },
                    ),
                }
            }
        }
    }
}

/// The warning left for a filter type heq does not know.
pub open spec fn warning_text(ty: Seq<char>) -> Seq<char> {
    "Skipped unsupported filter type '"@ + ty + "'."@
}

/// `Channel:` values: `L`, `1`, `LEFT`, `R`, `2`, `RIGHT` in any case; anything else is both.
pub open spec fn channel_of(v: Seq<char>) -> ChannelTarget {
    if v == "L"@ || v == "1"@ || v == "LEFT"@ {
        ChannelTarget::Left
    } else if v == "R"@ || v == "2"@ || v == "RIGHT"@ {
        ChannelTarget::Right
    } else {
        ChannelTarget::Both
    }
}

/// Reading one line. Blank lines and `#` comments are skipped; `Channel:` sets the channel the
/// following filters belong to; `Preamp:` takes its first token when it is a number; any other
/// line whose key (the text before its first `:`) begins with `Filter` is a filter.
pub open spec fn read_line(st: RawConfigView, raw: Seq<char>) -> RawConfigView {
    let line = trim(raw);
    if line.len() == 0 || line[0] == '#' {
        st
    } else if starts_with_ci(line, "Channel:"@) {
        RawConfigView {
            channel: channel_of(str_to_uppercase(trim(line.skip(8)))),
            ..st
        }
    } else if starts_with_ci(line, "Preamp:"@) {
        let ts = tokens(line.skip(7));
        if ts.len() > 0 && is_num(ts[0]) {
            RawConfigView { preamp: Some(num_text(ts[0])), ..st }
        } else {
            st
        }
    } else {
        let c = find_lower(line, ':');
        if c >= line.len() || !starts_with(trim(line.take(c)), "Filter"@) {
            st
        } else {
            match filter_outcome(tokens(line.skip(c + 1))) {
                FilterOutcome::Nothing => st,
                FilterOutcome::Unsupported(ty) => RawConfigView {
                    warnings: st.warnings.push(warning_text(ty)),
                    ..st
                },
                FilterOutcome::Found(f) => RawConfigView {
                    filters: st.filters.push(RawFilterView { channel: st.channel, ..f }),
                    ..st
                },
            }
        }
    }
}

/// Reading lines in order, starting on both channels with nothing read.
pub open spec fn read_lines(ls: Seq<Seq<char>>) -> RawConfigView
    decreases ls.len(),
{
    if ls.len() == 0 {
        RawConfigView {
            channel: ChannelTarget::Both,
            filters: Seq::empty(),
            preamp: None,
            warnings: Seq::empty(),
        }
    } else {
        read_line(read_lines(ls.drop_last()), ls.last())
    }
}

/// What a whole text reads as.
pub open spec fn parse_spec(text: Seq<char>) -> RawConfigView {
    let r = read_lines(lines(text));
    RawConfigView { channel: ChannelTarget::Both, ..r }
}

fn num_text_exec(t: &[char]) -> (r: Vec<char>)
    ensures
        r@ == num_text(t@),
{
    let tr = trim_exec(t);
    replace_comma_exec(&tr)
}

/// The number a token holds, when it holds one.
fn try_num(t: &[char]) -> (r: Option<String>)
    ensures
        is_num(t@) ==> r.is_some() && r.unwrap()@ == num_text(t@),
        !is_num(t@) ==> r.is_none(),
{
    let n = num_text_exec(t);
    if is_float_text_exec(&n) {
        Some(string_of(&n))
    } else {
        None
    }
}

/// The key/value pairs of a filter, from token `start` on.
fn scan_exec(t: &Vec<Vec<char>>, start: usize) -> (r: (
    Option<String>,
    Option<String>,
    Option<String>,
    Option<String>,
))
    ensures
        ({
            let s = scan(views(t@), start as int, ScanView { fc: None, gain: None, q: None, bw: None });
            &&& opt_view(r.0) == s.fc
            &&& opt_view(r.1) == s.gain
            &&& opt_view(r.2) == s.q
            &&& opt_view(r.3) == s.bw
        }),
{
    let ghost tv = views(t@);
    let ghost goal = scan(tv, start as int, ScanView { fc: None, gain: None, q: None, bw: None });
    let mut fc: Option<String> = None;
    let mut gain: Option<String> = None;
    let mut q: Option<String> = None;
    let mut bw: Option<String> = None;
    let mut i = start;
    while i < t.len()
        invariant
            tv == views(t@),
            tv.len() == t@.len(),
            goal == scan(
                tv,
                i as int,
                ScanView { fc: opt_view(fc), gain: opt_view(gain), q: opt_view(q), bw: opt_view(bw) },
            ),
        decreases t@.len() - i,
    {
        assert(tv[i as int] == t@[i as int]@);
        let k = upper_chars(&t[i]);
        if is_word(&k, "FC") && i + 1 < t.len() && try_num(&t[i + 1]).is_some() {
            assert(tv[i + 1] == t@[i + 1]@);
            fc = try_num(&t[i + 1]);
            i += 2;
        } else if is_word(&k, "GAIN") && i + 1 < t.len() && try_num(&t[i + 1]).is_some() {
            assert(tv[i + 1] == t@[i + 1]@);
            gain = try_num(&t[i + 1]);
            i += 2;
        } else if is_word(&k, "Q") && i + 1 < t.len() && try_num(&t[i + 1]).is_some() {
            assert(tv[i + 1] == t@[i + 1]@);
            q = try_num(&t[i + 1]);
            i += 2;
        } else if is_word(&k, "BW") && t.len() - i > 2 && try_num(&t[i + 2]).is_some() {
            assert(tv[i + 2] == t@[i + 2]@);
            bw = try_num(&t[i + 2]);
            i += 3;
        } else {
            proof {
                if i + 1 < t.len() {
                    assert(tv[i + 1] == t@[i + 1]@);
                }
                if i + 2 < t.len() {
                    assert(tv[i + 2] == t@[i + 2]@);
                }
            }
            i += 1;
        }
    }
    (fc, gain, q, bw)
}

fn kind_of_exec(ty: &[char]) -> (r: Option<FilterKind>)
    ensures
        r == kind_of(ty@),
{
    if is_word(ty, "PK") || is_word(ty, "PEQ") || is_word(ty, "MODAL") {
        Some(FilterKind::Bell)
    } else if is_word(ty, "LS") || is_word(ty, "LSC") || is_word(ty, "LSQ") {
        Some(FilterKind::LowShelf)
    } else if is_word(ty, "HS") || is_word(ty, "HSC") || is_word(ty, "HSQ") {
        Some(FilterKind::HighShelf)
    } else if is_word(ty, "HP") || is_word(ty, "HPQ") {
        Some(FilterKind::LowCut)
    } else if is_word(ty, "LP") || is_word(ty, "LPQ") {
        Some(FilterKind::HighCut)
    } else if is_word(ty, "NO") {
        Some(FilterKind::Notch)
    } else if is_word(ty, "BP") {
        Some(FilterKind::BandPass)
    } else if is_word(ty, "AP") {
        Some(FilterKind::AllPass)
    } else {
        None
    }
}

/// Reading the body of a `Filter:` line (the text after its colon). `Err` carries the
/// upper-cased type of a filter heq does not know.
pub fn parse_filter(body: &[char]) -> (r: Option<Result<RawFilter, String>>)
    ensures
        match filter_outcome(tokens(body@)) {
            FilterOutcome::Nothing => r.is_none(),
            FilterOutcome::Unsupported(ty) => r.is_some() && r.unwrap().is_err()
                && r.unwrap()->Err_0@ == ty,
            FilterOutcome::Found(f) => r.is_some() && r.unwrap().is_ok() && r.unwrap()->Ok_0@
                == f,
        },
{
    let t = tokens_exec(body);
    let ghost tv = views(t@);
    assert(tv == tokens(body@));
    if t.len() == 0 {
        return None;
    }
    assert(tv[0] == t@[0]@);
    let on = chars_of("ON");
    let off = chars_of("OFF");
    let is_on = eq_ci_exec(&t[0], &on);
    let is_off = eq_ci_exec(&t[0], &off);
    let state: usize = if is_on || is_off {
        1
    } else {
        0
    };
    let enabled = !is_off;
    if state >= t.len() {
        return None;
    }
    assert(tv[state as int] == t@[state as int]@);
    let ty = upper_chars(&t[state]);
    let i = state + 1;
    if is_word(&ty, "NONE") {
        return None;
    }
    let mut shelf_db = false;
    if (is_word(&ty, "LS") || is_word(&ty, "HS")) && i < t.len() {
        assert(tv[i as int] == t@[i as int]@);
        let low = lower_chars(&t[i]);
        let db = chars_of("db");
        shelf_db = ends_with_exec(&low, &db);
    }
    let forced_q = if shelf_db {
        assert(tv[i as int] == t@[i as int]@);
        Some(
            if t[i].len() > 0 && t[i][0] == '6' {
                ForcedQ::Half
            } else {
                ForcedQ::Butterworth
            },
        )
    } else {
        None
    };
    let j = if shelf_db {
        i + 1
    } else {
        i
    };
    let (fc, gain, q, bw) = scan_exec(&t, j);
    match kind_of_exec(&ty) {
        None => Some(Err(string_of(&ty))),
        Some(kind) => {
            let butterworth = is_word(&ty, "HP") || is_word(&ty, "LP");
            Some(
                Ok(
                    RawFilter {
                        kind,
                        enabled,
                        channel: ChannelTarget::Both,
                        fc,
                        gain,
                        q,
                        bw,
                        forced_q,
                        butterworth,
                    },
                ),
            )
        },
    }
}

fn channel_of_exec(v: &[char]) -> (r: ChannelTarget)
    ensures
        r == channel_of(v@),
{
    if is_word(v, "L") || is_word(v, "1") || is_word(v, "LEFT") {
        ChannelTarget::Left
    } else if is_word(v, "R") || is_word(v, "2") || is_word(v, "RIGHT") {
        ChannelTarget::Right
    } else {
        ChannelTarget::Both
    }
}

/// Reads a config file: every filter heq understands, on the channel the `Channel:` lines
/// above it select, the last readable `Preamp:`, and warnings for filter types it skipped.
pub fn parse(text: &str) -> (r: RawConfig)
    ensures
        r@ == parse_spec(text@),
{
    let v = chars_of(text);
    let ls = lines_exec(&v);
    let ghost lv = views(ls@);
    let mut channel = ChannelTarget::Both;
    let mut filters: Vec<RawFilter> = Vec::new();
    let mut preamp: Option<String> = None;
    let mut warnings: Vec<String> = Vec::new();
    let mut n: usize = 0;
    proof {
        reveal_strlit("Channel:");
        reveal_strlit("Preamp:");
        assert(lv.take(0) =~= Seq::<Seq<char>>::empty());
        assert(filter_views(filters@) =~= Seq::<RawFilterView>::empty());
        assert(strings_view(warnings@) =~= Seq::<Seq<char>>::empty());
    }
    while n < ls.len()
        invariant
            lv == views(ls@),
            lv == lines(text@),
            n <= ls@.len(),
            read_lines(lv.take(n as int)) == (RawConfigView {
                channel,
                filters: filter_views(filters@),
                preamp: opt_view(preamp),
                warnings: strings_view(warnings@),
            }),
        decreases ls@.len() - n,
    {
        proof {
            assert(lv.take(n + 1).drop_last() =~= lv.take(n as int));
            assert(lv.take(n + 1).last() == ls@[n as int]@);
        }
        let line = trim_exec(&ls[n]);
        n += 1;
        if line.len() == 0 || line[0] == '#' {
            continue;
        }
        let key_channel = chars_of("Channel:");
        let key_preamp = chars_of("Preamp:");
        proof {
            reveal_strlit("Channel:");
            reveal_strlit("Preamp:");
        }
        if starts_with_ci_exec(&line, &key_channel) {
            let rest = slice_chars(&line, 8, line.len());
            assert(rest@ =~= line@.skip(8));
            let rt = trim_exec(&rest);
            let up = upper_chars(&rt);
            channel = channel_of_exec(&up);
            continue;
        }
        if starts_with_ci_exec(&line, &key_preamp) {
            let rest = slice_chars(&line, 7, line.len());
            assert(rest@ =~= line@.skip(7));
            let ts = tokens_exec(&rest);
            if ts.len() > 0 {
                assert(views(ts@)[0] == ts@[0]@);
                let p = try_num(&ts[0]);
                if p.is_some() {
                    preamp = p;
                }
            }
            continue;
        }
        let c = find_lower_exec(&line, ':');
        if c >= line.len() {
            continue;
        }
        let head = slice_chars(&line, 0, c);
        assert(head@ =~= line@.take(c as int));
        let head = trim_exec(&head);
        let filter_word = chars_of("Filter");
        if !starts_with_exec(&head, &filter_word) {
            continue;
        }
        let body = slice_chars(&line, c + 1, line.len());
        assert(body@ =~= line@.skip(c + 1));
        match parse_filter(&body) {
            None => {},
            Some(Err(ty)) => {
                let mut w = String::new();
                push_str(&mut w, "Skipped unsupported filter type '");
                push_str(&mut w, ty.as_str());
                push_str(&mut w, "'.");
                let ghost before = strings_view(warnings@);
                warnings.push(w);
                assert(strings_view(warnings@) =~= before.push(w@));
            },
            Some(Ok(mut f)) => {
                f.channel = channel;
                let ghost before = filter_views(filters@);
                let ghost fv = f@;
                filters.push(f);
                assert(filter_views(filters@) =~= before.push(fv));
            },
        }
    }
    proof {
        assert(lv.take(ls@.len() as int) =~= lv);
    }
    RawConfig { filters, preamp, warnings }
}

// =============================================================================================
// writing
// =============================================================================================

pub open spec fn state_word(enabled: bool) -> Seq<char> {
    if enabled {
        "ON"@
    } else {
        "OFF"@
    }
}

/// The APO filter type each shape is written as.
pub open spec fn filter_tag(k: FilterKind) -> Seq<char> {
    match k {
        FilterKind::Bell => "PK"@,
        FilterKind::LowShelf => "LSC"@,
        FilterKind::HighShelf => "HSC"@,
        FilterKind::Notch => "NO"@,
        FilterKind::BandPass => "BP"@,
        FilterKind::AllPass => "AP"@,
        FilterKind::LowCut => "HPQ"@,
        FilterKind::HighCut => "LPQ"@,
    }
}

pub open spec fn gain_line(state: Seq<char>, tag: Seq<char>, f: Seq<char>, gain: Seq<char>, q: Seq<char>) -> Seq<char> {
    "Filter: "@ + state + " "@ + tag + " Fc "@ + f + " Hz Gain "@ + gain + " dB Q "@ + q
}

pub open spec fn plain_line(state: Seq<char>, tag: Seq<char>, f: Seq<char>, q: Seq<char>) -> Seq<char> {
    "Filter: "@ + state + " "@ + tag + " Fc "@ + f + " Hz Q "@ + q
}

/// The `Filter:` lines one band is written as: one line for a bell or shelf (with its gain) and
/// for a notch, band pass or all pass (without), one line per section for a cut.
pub open spec fn filter_lines_spec(b: BandTextView) -> Seq<Seq<char>> {
    let st = state_word(b.enabled);
    let tag = filter_tag(b.kind);
    match b.kind {
        FilterKind::Bell | FilterKind::LowShelf | FilterKind::HighShelf => seq![
            gain_line(st, tag, b.freq, b.gain, b.q),
        ],
        FilterKind::Notch | FilterKind::BandPass | FilterKind::AllPass => seq![
            plain_line(st, tag, b.freq, b.q),
        ],
        FilterKind::LowCut | FilterKind::HighCut => b.cut_qs.map_values(
            |q: Seq<char>| plain_line(st, tag, b.freq, q),
        ),
    }
}

fn tag_str(k: FilterKind) -> (r: &'static str)
    ensures
        r@ == filter_tag(k),
{
    match k {
        FilterKind::Bell => "PK",
        FilterKind::LowShelf => "LSC",
        FilterKind::HighShelf => "HSC",
        FilterKind::Notch => "NO",
        FilterKind::BandPass => "BP",
        FilterKind::AllPass => "AP",
        FilterKind::LowCut => "HPQ",
        FilterKind::HighCut => "LPQ",
    }
}

fn line_text(state: &str, tag: &str, f: &str, gain: Option<&str>, q: &str) -> (r: String)
    ensures
        r@ == match gain {
            Some(g) => gain_line(state@, tag@, f@, g@, q@),
            None => plain_line(state@, tag@, f@, q@),
        },
{
    let mut s = String::new();
    push_str(&mut s, "Filter: ");
    push_str(&mut s, state);
    push_str(&mut s, " ");
    push_str(&mut s, tag);
    push_str(&mut s, " Fc ");
    push_str(&mut s, f);
    match gain {
        Some(g) => {
            push_str(&mut s, " Hz Gain ");
            push_str(&mut s, g);
            push_str(&mut s, " dB Q ");
        },
        None => {
            push_str(&mut s, " Hz Q ");
        },
    }
    push_str(&mut s, q);
    proof {
        match gain {
            Some(g) => {
                assert(s@ =~= gain_line(state@, tag@, f@, g@, q@));
            },
            None => {
                assert(s@ =~= plain_line(state@, tag@, f@, q@));
            },
        }
    }
    s
}

/// The `Filter:` lines of one band.
pub fn filter_lines(b: &BandText) -> (r: Vec<String>)
    ensures
        strings_view(r@) == filter_lines_spec(b@),
{
    let state = if b.enabled {
        "ON"
    } else {
        "OFF"
    };
    let tag = tag_str(b.kind);
    let mut out: Vec<String> = Vec::new();
    match b.kind {
        FilterKind::Bell | FilterKind::LowShelf | FilterKind::HighShelf => {
            out.push(line_text(state, tag, b.freq.as_str(), Some(b.gain.as_str()), b.q.as_str()));
            assert(strings_view(out@) =~= filter_lines_spec(b@));
        },
        FilterKind::Notch | FilterKind::BandPass | FilterKind::AllPass => {
            out.push(line_text(state, tag, b.freq.as_str(), None, b.q.as_str()));
            assert(strings_view(out@) =~= filter_lines_spec(b@));
        },
        FilterKind::LowCut | FilterKind::HighCut => {
            let ghost qs = strings_view(b.cut_qs@);
            let mut i: usize = 0;
            while i < b.cut_qs.len()
                invariant
                    i <= b.cut_qs@.len(),
                    qs == strings_view(b.cut_qs@),
                    state@ == state_word(b.enabled),
                    tag@ == filter_tag(b.kind),
                    strings_view(out@) =~= qs.take(i as int).map_values(
                        |q: Seq<char>| plain_line(state@, tag@, b.freq@, q),
                    ),
                decreases b.cut_qs@.len() - i,
            {
                let line = line_text(state, tag, b.freq.as_str(), None, b.cut_qs[i].as_str());
                let ghost before = strings_view(out@);
                out.push(line);
                assert(strings_view(out@) =~= before.push(line@));
                assert(qs.take(i + 1).map_values(
                    |q: Seq<char>| plain_line(state@, tag@, b.freq@, q),
                ) =~= qs.take(i as int).map_values(
                    |q: Seq<char>| plain_line(state@, tag@, b.freq@, q),
                ).push(plain_line(state@, tag@, b.freq@, qs[i as int])));
                i += 1;
            }
            assert(qs.take(b.cut_qs@.len() as int) =~= qs);
        },
    }
    out
}

/// Each line followed by CRLF.
pub open spec fn lines_block(ls: Seq<Seq<char>>) -> Seq<char>
    decreases ls.len(),
{
    if ls.len() == 0 {
        Seq::empty()
    } else {
        lines_block(ls.drop_last()) + ls.last() + "\r\n"@
    }
}

/// The lines of each band in turn.
pub open spec fn bands_block(bs: Seq<BandTextView>) -> Seq<char>
    decreases bs.len(),
{
    if bs.len() == 0 {
        Seq::empty()
    } else {
        bands_block(bs.drop_last()) + lines_block(filter_lines_spec(bs.last()))
    }
}

/// The bands set to exactly `ch`, in order.
pub open spec fn on_channel(bs: Seq<BandTextView>, ch: ChannelTarget) -> Seq<BandTextView>
    decreases bs.len(),
{
    if bs.len() == 0 {
        Seq::empty()
    } else if bs.last().channel == ch {
        on_channel(bs.drop_last(), ch).push(bs.last())
    } else {
        on_channel(bs.drop_last(), ch)
    }
}

/// A `Channel:` section, left out when it has no bands.
pub open spec fn channel_block(name: Seq<char>, bs: Seq<BandTextView>) -> Seq<char> {
    if bs.len() == 0 {
        Seq::empty()
    } else {
        "Channel: "@ + name + "\r\n"@ + bands_block(bs)
    }
}

/// heq's APO file: the preamp line when there is one, bands for both ears, then a `Channel: L`
/// and a `Channel: R` section for one-sided bands, and `Channel: ALL` after them when either was
/// written. Every line ends in CRLF.
pub open spec fn build_config_spec(preamp: Option<Seq<char>>, bs: Seq<BandTextView>) -> Seq<char> {
    let head = match preamp {
        Some(p) => "Preamp: "@ + p + " dB\r\n"@,
        None => Seq::empty(),
    };
    let left = on_channel(bs, ChannelTarget::Left);
    let right = on_channel(bs, ChannelTarget::Right);
    let tail = if left.len() > 0 || right.len() > 0 {
        "Channel: ALL\r\n"@
    } else {
        Seq::empty()
    };
    head + bands_block(on_channel(bs, ChannelTarget::Both)) + channel_block("L"@, left)
        + channel_block("R"@, right) + tail
}

fn append_lines(out: &mut String, ls: &Vec<String>)
    ensures
        final(out)@ == old(out)@ + lines_block(strings_view(ls@)),
{
    let ghost lv = strings_view(ls@);
    let mut i: usize = 0;
    while i < ls.len()
        invariant
            i <= ls@.len(),
            lv == strings_view(ls@),
            out@ == old(out)@ + lines_block(lv.take(i as int)),
        decreases ls@.len() - i,
    {
        push_str(out, ls[i].as_str());
        push_str(out, "\r\n");
        assert(lv.take(i + 1).drop_last() =~= lv.take(i as int));
        assert(out@ =~= old(out)@ + lines_block(lv.take(i + 1)));
        i += 1;
    }
    assert(lv.take(ls@.len() as int) =~= lv);
}

/// Appends the lines of every band set to exactly `ch`.
fn append_bands(out: &mut String, bands: &Vec<BandText>, ch: ChannelTarget)
    ensures
        final(out)@ == old(out)@ + bands_block(on_channel(band_views(bands@), ch)),
{
    let ghost bv = band_views(bands@);
    let mut i: usize = 0;
    while i < bands.len()
        invariant
            i <= bands@.len(),
            bv == band_views(bands@),
            out@ == old(out)@ + bands_block(on_channel(bv.take(i as int), ch)),
        decreases bands@.len() - i,
    {
        assert(bv.take(i + 1).drop_last() =~= bv.take(i as int));
        assert(bv.take(i + 1).last() == bands@[i as int]@);
        let ghost oc = on_channel(bv.take(i as int), ch);
        if bands[i].channel == ch {
            let ls = filter_lines(&bands[i]);
            let ghost mid = out@;
            append_lines(out, &ls);
            proof {
                let b = bv[i as int];
                assert(on_channel(bv.take(i + 1), ch) == oc.push(b));
                assert(oc.push(b).drop_last() =~= oc);
                assert(bands_block(oc.push(b)) == bands_block(oc) + lines_block(
                    filter_lines_spec(b),
                ));
                assert(out@ =~= old(out)@ + bands_block(on_channel(bv.take(i + 1), ch)));
            }
        }
        i += 1;
    }
    assert(bv.take(bands@.len() as int) =~= bv);
}

proof fn lemma_on_channel_empty(bs: Seq<BandTextView>, ch: ChannelTarget)
    ensures
        on_channel(bs, ch).len() == 0 <==> forall|i: int| 0 <= i < bs.len() ==> (#[trigger] bs[i]).channel != ch,
    decreases bs.len(),
{
    if bs.len() > 0 {
        lemma_on_channel_empty(bs.drop_last(), ch);
        if on_channel(bs, ch).len() == 0 {
            assert forall|i: int| 0 <= i < bs.len() implies (#[trigger] bs[i]).channel != ch by {
                if i < bs.len() - 1 {
                    assert(bs[i] == bs.drop_last()[i]);
                }
            }
        } else if forall|i: int| 0 <= i < bs.len() ==> (#[trigger] bs[i]).channel != ch {
            assert(bs[bs.len() - 1].channel != ch);
            assert forall|i: int| 0 <= i < bs.drop_last().len() implies (
            #[trigger] bs.drop_last()[i]).channel != ch by {
                assert(bs.drop_last()[i] == bs[i]);
            }
        }
    }
}

fn has_channel(bands: &Vec<BandText>, ch: ChannelTarget) -> (r: bool)
    ensures
        r == (on_channel(band_views(bands@), ch).len() > 0),
{
    proof {
        lemma_on_channel_empty(band_views(bands@), ch);
    }
    let mut i: usize = 0;
    while i < bands.len()
        invariant
            i <= bands@.len(),
            forall|j: int| 0 <= j < i ==> (#[trigger] band_views(bands@)[j]).channel != ch,
        decreases bands@.len() - i,
    {
        if bands[i].channel == ch {
            assert(band_views(bands@)[i as int].channel == ch);
            proof {
                lemma_on_channel_empty(band_views(bands@), ch);
            }
            return true;
        }
        i += 1;
    }
    false
}

fn append_channel(out: &mut String, name: &str, bands: &Vec<BandText>, ch: ChannelTarget)
    ensures
        final(out)@ == old(out)@ + channel_block(name@, on_channel(band_views(bands@), ch)),
{
    if !has_channel(bands, ch) {
        assert(old(out)@ =~= old(out)@ + channel_block(name@, on_channel(band_views(bands@), ch)));
        return;
    }
    push_str(out, "Channel: ");
    push_str(out, name);
    push_str(out, "\r\n");
    append_bands(out, bands, ch);
    assert(out@ =~= old(out)@ + channel_block(name@, on_channel(band_views(bands@), ch)));
}

/// heq's APO file for the given preamp line value (written only when given) and bands, in the
/// order they are heard: the user's bands, then the correction's.
pub fn build_config(preamp: Option<&str>, bands: &Vec<BandText>) -> (r: String)
    ensures
        r@ == build_config_spec(
            match preamp {
                Some(p) => Some(p@),
                None => None,
            },
            band_views(bands@),
        ),
{
    let mut out = String::new();
    if let Some(p) = preamp {
        push_str(&mut out, "Preamp: ");
        push_str(&mut out, p);
        push_str(&mut out, " dB\r\n");
    }
    let ghost head = out@;
    append_bands(&mut out, bands, ChannelTarget::Both);
    append_channel(&mut out, "L", bands, ChannelTarget::Left);
    append_channel(&mut out, "R", bands, ChannelTarget::Right);
    let any = has_channel(bands, ChannelTarget::Left) || has_channel(bands, ChannelTarget::Right);
    if any {
        push_str(&mut out, "Channel: ALL\r\n");
    }
    proof {
        let bv = band_views(bands@);
        let pv = match preamp {
            Some(p) => Some(p@),
            None => None,
        };
        assert(head =~= match pv {
            Some(p) => "Preamp: "@ + p + " dB\r\n"@,
            None => Seq::empty(),
        });
        assert(out@ =~= build_config_spec(pv, bv));
    }
    out
}


// =============================================================================================
// what the types mean
// =============================================================================================

/// The filter types Equalizer APO documents for each shape, and the shape each reads as: `PK`,
/// `PEQ` and `Modal` are bells; `LS`, `LSC`, `LSQ` low shelves; `HS`, `HSC`, `HSQ` high shelves;
/// `HP`, `HPQ` high passes (a low cut); `LP`, `LPQ` low passes (a high cut); `NO` a notch; `BP` a
/// band pass; `AP` an all pass. Nothing else is read as a shape.
pub proof fn law_apo_type_names(ty: Seq<char>)
    ensures
        (ty == "PK"@ || ty == "PEQ"@ || ty == "MODAL"@) <==> kind_of(ty) == Some(FilterKind::Bell),
        (ty == "LS"@ || ty == "LSC"@ || ty == "LSQ"@) <==> kind_of(ty) == Some(FilterKind::LowShelf),
        (ty == "HS"@ || ty == "HSC"@ || ty == "HSQ"@) <==> kind_of(ty) == Some(FilterKind::HighShelf),
        (ty == "HP"@ || ty == "HPQ"@) <==> kind_of(ty) == Some(FilterKind::LowCut),
        (ty == "LP"@ || ty == "LPQ"@) <==> kind_of(ty) == Some(FilterKind::HighCut),
        ty == "NO"@ <==> kind_of(ty) == Some(FilterKind::Notch),
        ty == "BP"@ <==> kind_of(ty) == Some(FilterKind::BandPass),
        ty == "AP"@ <==> kind_of(ty) == Some(FilterKind::AllPass),
{
    lemma_type_literals();
}

proof fn lemma_type_literals()
    ensures
        "PK"@ == seq!['P', 'K'],
        "PEQ"@ == seq!['P', 'E', 'Q'],
        "MODAL"@ == seq!['M', 'O', 'D', 'A', 'L'],
        "LS"@ == seq!['L', 'S'],
        "LSC"@ == seq!['L', 'S', 'C'],
        "LSQ"@ == seq!['L', 'S', 'Q'],
        "HS"@ == seq!['H', 'S'],
        "HSC"@ == seq!['H', 'S', 'C'],
        "HSQ"@ == seq!['H', 'S', 'Q'],
        "HP"@ == seq!['H', 'P'],
        "HPQ"@ == seq!['H', 'P', 'Q'],
        "LP"@ == seq!['L', 'P'],
        "LPQ"@ == seq!['L', 'P', 'Q'],
        "NO"@ == seq!['N', 'O'],
        "BP"@ == seq!['B', 'P'],
        "AP"@ == seq!['A', 'P'],
{
    reveal_strlit("PK");
    reveal_strlit("PEQ");
    reveal_strlit("MODAL");
    reveal_strlit("LS");
    reveal_strlit("LSC");
    reveal_strlit("LSQ");
    reveal_strlit("HS");
    reveal_strlit("HSC");
    reveal_strlit("HSQ");
    reveal_strlit("HP");
    reveal_strlit("HPQ");
    reveal_strlit("LP");
    reveal_strlit("LPQ");
    reveal_strlit("NO");
    reveal_strlit("BP");
    reveal_strlit("AP");
    assert("PK"@ =~= seq!['P', 'K']);
    assert("PEQ"@ =~= seq!['P', 'E', 'Q']);
    assert("MODAL"@ =~= seq!['M', 'O', 'D', 'A', 'L']);
    assert("LS"@ =~= seq!['L', 'S']);
    assert("LSC"@ =~= seq!['L', 'S', 'C']);
    assert("LSQ"@ =~= seq!['L', 'S', 'Q']);
    assert("HS"@ =~= seq!['H', 'S']);
    assert("HSC"@ =~= seq!['H', 'S', 'C']);
    assert("HSQ"@ =~= seq!['H', 'S', 'Q']);
    assert("HP"@ =~= seq!['H', 'P']);
    assert("HPQ"@ =~= seq!['H', 'P', 'Q']);
    assert("LP"@ =~= seq!['L', 'P']);
    assert("LPQ"@ =~= seq!['L', 'P', 'Q']);
    assert("NO"@ =~= seq!['N', 'O']);
    assert("BP"@ =~= seq!['B', 'P']);
    assert("AP"@ =~= seq!['A', 'P']);
}

/// What heq writes reads back as what it wrote: each shape's type in heq's file is one Equalizer
/// APO reads as that same shape (so no two shapes are written alike).
pub proof fn law_written_type_reads_back(k: FilterKind)
    ensures
        kind_of(filter_tag(k)) == Some(k),
{
    lemma_type_literals();
}

/// The lines each band is written as, in full: `Filter: ON` (or `OFF` for a band switched off),
/// the shape's type, `Fc <freq> Hz`, for a bell or shelf `Gain <gain> dB`, and `Q <q>`; a cut
/// gets one such line per section, with that section's Q. The types are a bell `PK`, a low shelf
/// `LSC`, a high shelf `HSC`, a notch `NO`, a band pass `BP`, an all pass `AP`, a low cut `HPQ`
/// and a high cut `LPQ` (the shelves and cuts in the forms that take a Q, as heq always gives
/// one).
pub proof fn law_written_lines(b: BandTextView)
    ensures
        ({
            let st = if b.enabled {
                "ON"@
            } else {
                "OFF"@
            };
            let with_gain = |tag: Seq<char>|
                seq!["Filter: "@ + st + " "@ + tag + " Fc "@ + b.freq + " Hz Gain "@ + b.gain + " dB Q "@ + b.q];
            let plain = |tag: Seq<char>| seq!["Filter: "@ + st + " "@ + tag + " Fc "@ + b.freq + " Hz Q "@ + b.q];
            let cut = |tag: Seq<char>|
                b.cut_qs.map_values(|q: Seq<char>| "Filter: "@ + st + " "@ + tag + " Fc "@ + b.freq + " Hz Q "@ + q);
            filter_lines_spec(b) == match b.kind {
                FilterKind::Bell => with_gain("PK"@),
                FilterKind::LowShelf => with_gain("LSC"@),
                FilterKind::HighShelf => with_gain("HSC"@),
                FilterKind::Notch => plain("NO"@),
                FilterKind::BandPass => plain("BP"@),
                FilterKind::AllPass => plain("AP"@),
                FilterKind::LowCut => cut("HPQ"@),
                FilterKind::HighCut => cut("LPQ"@),
            }
        }),
{
    let st = state_word(b.enabled);
    let tag = filter_tag(b.kind);
    match b.kind {
        FilterKind::LowCut | FilterKind::HighCut => {
            assert(filter_lines_spec(b) =~= b.cut_qs.map_values(
                |q: Seq<char>| "Filter: "@ + st + " "@ + tag + " Fc "@ + b.freq + " Hz Q "@ + q,
            ));
        },
        _ => {},
    }
}

/// The channel names heq writes read back as the channels it meant: `Channel: L` is the left
/// ear, `Channel: R` the right, and `Channel: ALL` both again.
pub proof fn law_written_channels_read_back()
    ensures
        channel_of("L"@) == ChannelTarget::Left,
        channel_of("R"@) == ChannelTarget::Right,
        channel_of("ALL"@) == ChannelTarget::Both,
{
    reveal_strlit("L");
    reveal_strlit("R");
    reveal_strlit("ALL");
    reveal_strlit("1");
    reveal_strlit("2");
    reveal_strlit("LEFT");
    reveal_strlit("RIGHT");
    assert("R"@[0] != "L"@[0] && "R"@[0] != "1"@[0]);
    assert("ALL"@.len() != "L"@.len() && "ALL"@.len() != "R"@.len());
    assert("ALL"@.len() != "1"@.len() && "ALL"@.len() != "2"@.len());
    assert("R"@.len() != "LEFT"@.len());
    assert("ALL"@.len() != "LEFT"@.len() && "ALL"@.len() != "RIGHT"@.len());
}

} // verus!
