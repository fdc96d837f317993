//! CamillaDSP: heq owns the `filters` and `pipeline` sections of the running config; everything
//! else in it (devices, mixers, resampling) is left exactly as it was found.
use vstd::prelude::*;

use super::json::{
    as_str, as_str_spec, entry_views, find_key, get, get_spec, insert, insert_spec, json_num, json_str, jviews,
    json_parsed, json_printed, law_insert_keeps_others, lemma_array_view, lemma_object_view,
    parse_json, print_json, JsonValue, JsonView,
};
use super::{BackendError, Status};
use crate::model::band::{
    applies_to_spec, band_views, strings_view, BandText, BandTextView, ChannelTarget, FilterKind,
};
use crate::text::{dec, push_dec, push_str};

verus! {

pub const DEFAULT_URL: &'static str = "ws://127.0.0.1:1234";

pub open spec fn jnum(s: Seq<char>) -> JsonView {
    JsonView::Number(s)
}

pub open spec fn jstr(s: Seq<char>) -> JsonView {
    JsonView::String(s)
}

/// A biquad's parameters with a gain, keys in order.
pub open spec fn gain_params(ty: Seq<char>, f: Seq<char>, g: Seq<char>, q: Seq<char>) -> JsonView {
    JsonView::Object(
        seq![("freq"@, jnum(f)), ("gain"@, jnum(g)), ("q"@, jnum(q)), ("type"@, jstr(ty))],
    )
}

/// A biquad's parameters without a gain, keys in order.
pub open spec fn plain_params(ty: Seq<char>, f: Seq<char>, q: Seq<char>) -> JsonView {
    JsonView::Object(seq![("freq"@, jnum(f)), ("q"@, jnum(q)), ("type"@, jstr(ty))])
}

/// The biquads a band becomes, the same RBJ shapes the curve is drawn from, named the way
/// CamillaDSP names them; a cut is one per section.
pub open spec fn band_parameters(b: BandTextView) -> Seq<JsonView> {
    match b.kind {
        FilterKind::Bell => seq![gain_params("Peaking"@, b.freq, b.gain, b.q)],
        FilterKind::LowShelf => seq![gain_params("Lowshelf"@, b.freq, b.gain, b.q)],
        FilterKind::HighShelf => seq![gain_params("Highshelf"@, b.freq, b.gain, b.q)],
        FilterKind::Notch => seq![plain_params("Notch"@, b.freq, b.q)],
        FilterKind::BandPass => seq![plain_params("Bandpass"@, b.freq, b.q)],
        FilterKind::AllPass => seq![plain_params("Allpass"@, b.freq, b.q)],
        FilterKind::LowCut => b.cut_qs.map_values(|q: Seq<char>| plain_params("Highpass"@, b.freq, q)),
        FilterKind::HighCut => b.cut_qs.map_values(|q: Seq<char>| plain_params("Lowpass"@, b.freq, q)),
    }
}

pub open spec fn biquad(p: JsonView) -> JsonView {
    JsonView::Object(seq![("parameters"@, p), ("type"@, jstr("Biquad"@))])
}

/// The preamp, a `Gain` filter.
pub open spec fn preamp_filter(g: Seq<char>) -> JsonView {
    JsonView::Object(
        seq![
            (
                "parameters"@,
                JsonView::Object(
                    seq![
                        ("gain"@, jnum(g)),
                        ("inverted"@, JsonView::Bool(false)),
                        ("mute"@, JsonView::Bool(false)),
                    ],
                ),
            ),
            ("type"@, jstr("Gain"@)),
        ],
    )
}

/// Band `i` (from 0) gets `heq_<i+1>`, its further sections `heq_<i+1>_<s+1>`.
pub open spec fn section_name(i: nat, s: nat) -> Seq<char> {
    if s == 0 {
        "heq_"@ + dec(i + 1)
    } else {
        "heq_"@ + dec(i + 1) + "_"@ + dec(s + 1)
    }
}

pub open spec fn band_filters(i: nat, b: BandTextView) -> Seq<(Seq<char>, JsonView)> {
    let ps = band_parameters(b);
    Seq::new(ps.len(), |s: int| (section_name(i, s as nat), biquad(ps[s])))
}

pub open spec fn band_names(i: nat, b: BandTextView) -> Seq<Seq<char>> {
    Seq::new(band_parameters(b).len(), |s: int| section_name(i, s as nat))
}

/// The filters of the enabled bands, and the names each channel runs, in band order. A band
/// keeps its index among all bands, enabled or not; `Right` bands are left out of channel 0 and
/// `Left` bands out of channel 1.
pub open spec fn band_fold(bs: Seq<BandTextView>) -> (
    Seq<(Seq<char>, JsonView)>,
    Seq<Seq<char>>,
    Seq<Seq<char>>,
)
    decreases bs.len(),
{
    if bs.len() == 0 {
        (Seq::empty(), Seq::empty(), Seq::empty())
    } else {
        let (f, l, r) = band_fold(bs.drop_last());
        let i = (bs.len() - 1) as nat;
        let b = bs.last();
        if !b.enabled {
            (f, l, r)
        } else {
            (
                f + band_filters(i, b),
                if b.channel != ChannelTarget::Right {
                    l + band_names(i, b)
                } else {
                    l
                },
                if b.channel != ChannelTarget::Left {
                    r + band_names(i, b)
                } else {
                    r
                },
            )
        }
    }
}

/// One `Filter` step of the pipeline.
pub open spec fn pipeline_step(channel: Seq<char>, names: Seq<Seq<char>>) -> JsonView {
    JsonView::Object(
        seq![
            ("channels"@, JsonView::Array(seq![jnum(channel)])),
            ("names"@, JsonView::Array(names.map_values(|n: Seq<char>| jstr(n)))),
            ("type"@, jstr("Filter"@)),
        ],
    )
}

/// heq's `filters` and `pipeline`: nothing when bypassed; else the preamp first (when a gain is
/// given) on both channels, then the bands; a channel with no filters gets no step.
pub open spec fn build_spec(bypassed: bool, preamp: Option<Seq<char>>, bs: Seq<BandTextView>) -> (
    Seq<(Seq<char>, JsonView)>,
    Seq<JsonView>,
) {
    if bypassed {
        (Seq::empty(), Seq::empty())
    } else {
        let (pf, pn): (Seq<(Seq<char>, JsonView)>, Seq<Seq<char>>) = match preamp {
            Some(g) => (seq![("heq_preamp"@, preamp_filter(g))], seq!["heq_preamp"@]),
            None => (Seq::empty(), Seq::empty()),
        };
        let (f, l, r) = band_fold(bs);
        let left = pn + l;
        let right = pn + r;
        let p0: Seq<JsonView> = if left.len() > 0 {
            seq![pipeline_step("0"@, left)]
        } else {
            Seq::empty()
        };
        let p1: Seq<JsonView> = if right.len() > 0 {
            seq![pipeline_step("1"@, right)]
        } else {
            Seq::empty()
        };
        (pf + f, p0 + p1)
    }
}

/// heq's part of a CamillaDSP config: its named filters and the pipeline running them.
pub struct Built {
    pub filters: Vec<(String, JsonValue)>,
    pub pipeline: Vec<JsonValue>,
}

impl View for Built {
    type V = (Seq<(Seq<char>, JsonView)>, Seq<JsonView>);

    open spec fn view(&self) -> (Seq<(Seq<char>, JsonView)>, Seq<JsonView>) {
        (entry_views(self.filters@), jviews(self.pipeline@))
    }
}

fn entry(key: &str, v: JsonValue) -> (r: (String, JsonValue))
    ensures
        r.0@ == key@,
        r.1@ == v@,
{
    let mut k = String::new();
    push_str(&mut k, key);
    assert(k@ =~= key@);
    (k, v)
}

fn params(ty: &str, b: &BandText, q: &str, with_gain: bool) -> (r: JsonValue)
    ensures
        r@ == if with_gain {
            gain_params(ty@, b.freq@, b.gain@, q@)
        } else {
            plain_params(ty@, b.freq@, q@)
        },
{
    let mut m: Vec<(String, JsonValue)> = Vec::new();
    m.push(entry("freq", json_num(b.freq.as_str())));
    if with_gain {
        m.push(entry("gain", json_num(b.gain.as_str())));
    }
    m.push(entry("q", json_num(q)));
    m.push(entry("type", json_str(ty)));
    proof {
        lemma_object_view(m);
        if with_gain {
            assert(entry_views(m@) =~= seq![
                ("freq"@, jnum(b.freq@)),
                ("gain"@, jnum(b.gain@)),
                ("q"@, jnum(q@)),
                ("type"@, jstr(ty@)),
            ]);
        } else {
            assert(entry_views(m@) =~= seq![
                ("freq"@, jnum(b.freq@)),
                ("q"@, jnum(q@)),
                ("type"@, jstr(ty@)),
            ]);
        }
    }
    JsonValue::Object(m)
}

/// The biquads a band becomes (`band_parameters`).
fn band_parameters_exec(b: &BandText) -> (r: Vec<JsonValue>)
    ensures
        jviews(r@) == band_parameters(b@),
{
    let mut out: Vec<JsonValue> = Vec::new();
    match b.kind {
        FilterKind::Bell => out.push(params("Peaking", b, b.q.as_str(), true)),
        FilterKind::LowShelf => out.push(params("Lowshelf", b, b.q.as_str(), true)),
        FilterKind::HighShelf => out.push(params("Highshelf", b, b.q.as_str(), true)),
        FilterKind::Notch => out.push(params("Notch", b, b.q.as_str(), false)),
        FilterKind::BandPass => out.push(params("Bandpass", b, b.q.as_str(), false)),
        FilterKind::AllPass => out.push(params("Allpass", b, b.q.as_str(), false)),
        FilterKind::LowCut | FilterKind::HighCut => {
            let ty = if b.kind == FilterKind::LowCut {
                "Highpass"
            } else {
                "Lowpass"
            };
            let ghost qs = strings_view(b.cut_qs@);
            let ghost tyv = ty@;
            let mut i: usize = 0;
            while i < b.cut_qs.len()
                invariant
                    i <= b.cut_qs@.len(),
                    qs == strings_view(b.cut_qs@),
                    tyv == ty@,
                    tyv == if b.kind == FilterKind::LowCut {
                        "Highpass"@
                    } else {
                        "Lowpass"@
                    },
                    jviews(out@) =~= qs.take(i as int).map_values(
                        |q: Seq<char>| plain_params(tyv, b.freq@, q),
                    ),
                decreases b.cut_qs@.len() - i,
            {
                let p = params(ty, b, b.cut_qs[i].as_str(), false);
                let ghost before = jviews(out@);
                let ghost pv = p@;
                out.push(p);
                assert(jviews(out@) =~= before.push(pv));
                assert(qs.take(i + 1).map_values(|q: Seq<char>| plain_params(tyv, b.freq@, q))
                    =~= qs.take(i as int).map_values(
                    |q: Seq<char>| plain_params(tyv, b.freq@, q),
                ).push(plain_params(tyv, b.freq@, qs[i as int])));
                i += 1;
            }
            assert(qs.take(b.cut_qs@.len() as int) =~= qs);
            return out;
        },
    }
    assert(jviews(out@) =~= band_parameters(b@));
    out
}

fn section_name_exec(i: usize, s: usize) -> (r: String)
    requires
        i < usize::MAX,
        s < usize::MAX,
    ensures
        r@ == section_name(i as nat, s as nat),
{
    let mut n = String::new();
    push_str(&mut n, "heq_");
    push_dec(&mut n, i + 1);
    if s != 0 {
        push_str(&mut n, "_");
        push_dec(&mut n, s + 1);
    }
    n
}

fn name_value(n: &String) -> (r: JsonValue)
    ensures
        r@ == jstr(n@),
{
    json_str(n.as_str())
}

fn step(channel: &str, names: &Vec<String>) -> (r: JsonValue)
    ensures
        r@ == pipeline_step(channel@, strings_view(names@)),
{
    let mut ch: Vec<JsonValue> = Vec::new();
    ch.push(json_num(channel));
    let mut ns: Vec<JsonValue> = Vec::new();
    let ghost nv = strings_view(names@);
    let mut i: usize = 0;
    while i < names.len()
        invariant
            i <= names@.len(),
            nv == strings_view(names@),
            jviews(ns@) =~= nv.take(i as int).map_values(|n: Seq<char>| jstr(n)),
        decreases names@.len() - i,
    {
        let v = name_value(&names[i]);
        let ghost before = jviews(ns@);
        let ghost vv = v@;
        ns.push(v);
        assert(jviews(ns@) =~= before.push(vv));
        assert(nv.take(i + 1).map_values(|n: Seq<char>| jstr(n)) =~= nv.take(i as int).map_values(
            |n: Seq<char>| jstr(n),
        ).push(jstr(nv[i as int])));
        i += 1;
    }
    assert(nv.take(names@.len() as int) =~= nv);
    proof {
        lemma_array_view(ch);
        lemma_array_view(ns);
        assert(jviews(ch@) =~= seq![jnum(channel@)]);
    }
    let mut m: Vec<(String, JsonValue)> = Vec::new();
    m.push(entry("channels", JsonValue::Array(ch)));
    m.push(entry("names", JsonValue::Array(ns)));
    m.push(entry("type", json_str("Filter")));
    proof {
        lemma_object_view(m);
        assert(entry_views(m@) =~= seq![
            ("channels"@, JsonView::Array(seq![jnum(channel@)])),
            ("names"@, JsonView::Array(nv.map_values(|n: Seq<char>| jstr(n)))),
            ("type"@, jstr("Filter"@)),
        ]);
    }
    JsonValue::Object(m)
}

fn preamp_exec(g: &str) -> (r: JsonValue)
    ensures
        r@ == preamp_filter(g@),
{
    let mut p: Vec<(String, JsonValue)> = Vec::new();
    p.push(entry("gain", json_num(g)));
    p.push(entry("inverted", JsonValue::Bool(false)));
    p.push(entry("mute", JsonValue::Bool(false)));
    proof {
        lemma_object_view(p);
        assert(entry_views(p@) =~= seq![
            ("gain"@, jnum(g@)),
            ("inverted"@, JsonView::Bool(false)),
            ("mute"@, JsonView::Bool(false)),
        ]);
    }
    let pv = JsonValue::Object(p);
    let mut m: Vec<(String, JsonValue)> = Vec::new();
    m.push(entry("parameters", pv));
    m.push(entry("type", json_str("Gain")));
    proof {
        lemma_object_view(m);
        assert(entry_views(m@) =~= seq![
            ("parameters"@, preamp_filter(g@)->Object_0[0].1),
            ("type"@, jstr("Gain"@)),
        ]);
    }
    JsonValue::Object(m)
}

/// heq's `filters` and `pipeline` for the given state. `preamp` is the preamp's gain written as
/// a JSON number, given when the preamp is to be applied at all; `bands` are in the order they
/// are heard (the user's, then the correction's).
pub fn build(bypassed: bool, preamp: Option<&str>, bands: &Vec<BandText>) -> (r: Built)
    requires
        bands@.len() < usize::MAX,
    ensures
        r@ == build_spec(
            bypassed,
            match preamp {
                Some(g) => Some(g@),
                None => None,
            },
            band_views(bands@),
        ),
{
    let mut filters: Vec<(String, JsonValue)> = Vec::new();
    let mut left: Vec<String> = Vec::new();
    let mut right: Vec<String> = Vec::new();
    if bypassed {
        assert(entry_views(filters@) =~= Seq::<(Seq<char>, JsonView)>::empty());
        let pipeline: Vec<JsonValue> = Vec::new();
        assert(jviews(pipeline@) =~= Seq::<JsonView>::empty());
        return Built { filters, pipeline };
    }
    if let Some(g) = preamp {
        filters.push(entry("heq_preamp", preamp_exec(g)));
        let mut n1 = String::new();
        push_str(&mut n1, "heq_preamp");
        let mut n2 = String::new();
        push_str(&mut n2, "heq_preamp");
        left.push(n1);
        right.push(n2);
    }
    let ghost pf = entry_views(filters@);
    let ghost pn = strings_view(left@);
    proof {
        match preamp {
            Some(g) => {
                assert(pf =~= seq![("heq_preamp"@, preamp_filter(g@))]);
                assert(pn =~= seq!["heq_preamp"@]);
                assert(strings_view(right@) =~= seq!["heq_preamp"@]);
            },
            None => {
                assert(pf =~= Seq::<(Seq<char>, JsonView)>::empty());
                assert(pn =~= Seq::<Seq<char>>::empty());
                assert(strings_view(right@) =~= Seq::<Seq<char>>::empty());
            },
        }
    }
    let ghost bv = band_views(bands@);
    let mut i: usize = 0;
    while i < bands.len()
        invariant
            i <= bands@.len(),
            bands@.len() < usize::MAX,
            bv == band_views(bands@),
            ({
                let (f, l, r) = band_fold(bv.take(i as int));
                &&& entry_views(filters@) =~= pf + f
                &&& strings_view(left@) =~= pn + l
                &&& strings_view(right@) =~= pn + r
            }),
        decreases bands@.len() - i,
    {
        proof {
            assert(bv.take(i + 1).drop_last() =~= bv.take(i as int));
            assert(bv.take(i + 1).last() == bands@[i as int]@);
        }
        let b = &bands[i];
        if b.enabled {
            let ps = band_parameters_exec(b);
            let ghost psv = jviews(ps@);
            let ghost f0 = entry_views(filters@);
            let ghost l0 = strings_view(left@);
            let ghost r0 = strings_view(right@);
            let mut s: usize = 0;
            while s < ps.len()
                invariant
                    s <= ps@.len(),
                    i < usize::MAX,
                    psv == jviews(ps@),
                    psv == band_parameters(b@),
                    entry_views(filters@) =~= f0 + band_filters(i as nat, b@).take(s as int),
                    strings_view(left@) =~= l0 + if b.channel != ChannelTarget::Right {
                        band_names(i as nat, b@).take(s as int)
                    } else {
                        Seq::empty()
                    },
                    strings_view(right@) =~= r0 + if b.channel != ChannelTarget::Left {
                        band_names(i as nat, b@).take(s as int)
                    } else {
                        Seq::empty()
                    },
                decreases ps@.len() - s,
            {
                assert(psv[s as int] == ps@[s as int]@);
                let name = section_name_exec(i, s);
                let mut bq: Vec<(String, JsonValue)> = Vec::new();
                let p = super::json::json_clone(&ps[s]);
                bq.push(entry("parameters", p));
                bq.push(entry("type", json_str("Biquad")));
                proof {
                    lemma_object_view(bq);
                    assert(entry_views(bq@) =~= seq![
                        ("parameters"@, psv[s as int]),
                        ("type"@, jstr("Biquad"@)),
                    ]);
                }
                let ghost fb = entry_views(filters@);
                let ghost e = (name@, biquad(psv[s as int]));
                let n_left = section_name_exec(i, s);
                let n_right = section_name_exec(i, s);
                filters.push((name, JsonValue::Object(bq)));
                assert(entry_views(filters@) =~= fb.push(e));
                assert(band_filters(i as nat, b@).take(s + 1) =~= band_filters(i as nat, b@).take(
                    s as int,
                ).push(e));
                assert(band_names(i as nat, b@).take(s + 1) =~= band_names(i as nat, b@).take(
                    s as int,
                ).push(section_name(i as nat, s as nat)));
                if b.channel != ChannelTarget::Right {
                    let ghost lb = strings_view(left@);
                    left.push(n_left);
                    assert(strings_view(left@) =~= lb.push(section_name(i as nat, s as nat)));
                }
                if b.channel != ChannelTarget::Left {
                    let ghost rb = strings_view(right@);
                    right.push(n_right);
                    assert(strings_view(right@) =~= rb.push(section_name(i as nat, s as nat)));
                }
                s += 1;
            }
            proof {
                assert(band_filters(i as nat, b@).take(ps@.len() as int) =~= band_filters(
                    i as nat,
                    b@,
                ));
                assert(band_names(i as nat, b@).take(ps@.len() as int) =~= band_names(
                    i as nat,
                    b@,
                ));
            }
        }
        i += 1;
    }
    proof {
        assert(bv.take(bands@.len() as int) =~= bv);
    }
    let mut pipeline: Vec<JsonValue> = Vec::new();
    if left.len() > 0 {
        pipeline.push(step("0", &left));
    }
    if right.len() > 0 {
        pipeline.push(step("1", &right));
    }
    proof {
        let gv = match preamp {
            Some(g) => Some(g@),
            None => None,
        };
        let (f, l, r) = band_fold(bv);
        let lv = pn + l;
        let rv = pn + r;
        assert(strings_view(left@) == lv);
        assert(strings_view(right@) == rv);
        let p0: Seq<JsonView> = if lv.len() > 0 {
            seq![pipeline_step("0"@, lv)]
        } else {
            Seq::empty()
        };
        let p1: Seq<JsonView> = if rv.len() > 0 {
            seq![pipeline_step("1"@, rv)]
        } else {
            Seq::empty()
        };
        assert(jviews(pipeline@) =~= p0 + p1);
        assert(entry_views(filters@) =~= build_spec(bypassed, gv, bv).0);
    }
    Built { filters, pipeline }
}

/// Putting heq's sections into a config: an object gets `filters` and `pipeline` set (replacing
/// what was there in its place, or added where the key sorts; other keys untouched); anything
/// else is replaced by an object of just those.
pub open spec fn splice_spec(config: JsonView, built: (Seq<(Seq<char>, JsonView)>, Seq<JsonView>)) -> JsonView {
    match config {
        JsonView::Object(m) => JsonView::Object(
            insert_spec(
                insert_spec(m, "filters"@, JsonView::Object(built.0)),
                "pipeline"@,
                JsonView::Array(built.1),
            ),
        ),
        _ => JsonView::Object(
            seq![("filters"@, JsonView::Object(built.0)), ("pipeline"@, JsonView::Array(built.1))],
        ),
    }
}

pub fn splice(config: &mut JsonValue, built: Built)
    ensures
        final(config)@ == splice_spec(old(config)@, built@),
{
    let ghost bv = built@;
    let Built { filters, pipeline } = built;
    proof {
        lemma_object_view(filters);
        lemma_array_view(pipeline);
    }
    let fv = JsonValue::Object(filters);
    let pv = JsonValue::Array(pipeline);
    match config {
        JsonValue::Object(m) => {
            proof {
                lemma_object_view(*m);
            }
            insert(m, "filters", fv);
            insert(m, "pipeline", pv);
            proof {
                lemma_object_view(*m);
            }
        },
        _ => {
            let mut m: Vec<(String, JsonValue)> = Vec::new();
            m.push(entry("filters", fv));
            m.push(entry("pipeline", pv));
            proof {
                lemma_object_view(m);
                assert(entry_views(m@) =~= seq![
                    ("filters"@, JsonView::Object(bv.0)),
                    ("pipeline"@, JsonView::Array(bv.1)),
                ]);
            }
            *config = JsonValue::Object(m);
        },
    }
}

// ---------------------------------------------------------------------------------------------
// replies
// ---------------------------------------------------------------------------------------------

/// What CamillaDSP answered to `command`: the reply carries `{command: {"result": "Ok",
/// "value": ...}}`; a missing value is `null`. Anything else is a protocol error with this text.
pub open spec fn result_value_spec(reply: JsonView, command: Seq<char>) -> Result<JsonView, Seq<char>> {
    match get_spec(reply, command) {
        None => Err("no reply to "@ + command),
        Some(body) => {
            let result = match get_spec(body, "result"@) {
                Some(r) => as_str_spec(r),
                None => None,
            };
            match result {
                Some(r) => if r == "Ok"@ {
                    Ok(
                        match get_spec(body, "value"@) {
                            Some(v) => v,
                            None => JsonView::Null,
                        },
                    )
                } else {
                    Err(command + ": "@ + r)
                },
                None => Err(command + ": malformed reply"@),
            }
        },
    }
}

/// A protocol error with the given text.
pub open spec fn is_protocol(e: BackendError, m: Seq<char>) -> bool {
    e matches BackendError::Protocol(t) && t@ == m
}

fn protocol(parts: &[&str]) -> (r: BackendError)
    ensures
        r matches BackendError::Protocol(t) && t@ == parts@.fold_left(
            Seq::<char>::empty(),
            |acc: Seq<char>, p: &str| acc + p@,
        ),
{
    let mut t = String::new();
    let mut i: usize = 0;
    while i < parts.len()
        invariant
            i <= parts@.len(),
            t@ == parts@.take(i as int).fold_left(
                Seq::<char>::empty(),
                |acc: Seq<char>, p: &str| acc + p@,
            ),
        decreases parts@.len() - i,
    {
        push_str(&mut t, parts[i]);
        assert(parts@.take(i + 1).drop_last() =~= parts@.take(i as int));
        i += 1;
    }
    assert(parts@.take(parts@.len() as int) =~= parts@);
    BackendError::Protocol(t)
}

/// The value CamillaDSP returned for `command`, or the protocol error its reply amounts to.
pub fn result_value(reply: &JsonValue, command: &str) -> (r: Result<JsonValue, BackendError>)
    ensures
        match r {
            Ok(v) => result_value_spec(reply@, command@) == Ok::<JsonView, Seq<char>>(v@),
            Err(e) => result_value_spec(reply@, command@) matches Err(m) && is_protocol(e, m),
        },
{
    let body = match get(reply, command) {
        Some(b) => b,
        None => {
            let e = protocol(&["no reply to ", command]);
            proof {
                reveal_with_fuel(Seq::fold_left, 3);
                assert(seq!["no reply to ", command].take(2) =~= seq!["no reply to ", command]);
            }
            return Err(e);
        },
    };
    let result = match get(body, "result") {
        Some(r) => as_str(r),
        None => None,
    };
    match result {
        Some(r) => {
            let rv = crate::text::chars_of(r.as_str());
            if crate::text::is_word(&rv, "Ok") {
                match get(body, "value") {
                    Some(v) => Ok(super::json::json_clone(v)),
                    None => Ok(JsonValue::Null),
                }
            } else {
                let e = protocol(&[command, ": ", r.as_str()]);
                proof {
                    reveal_with_fuel(Seq::fold_left, 4);
                }
                Err(e)
            }
        },
        None => {
            let e = protocol(&[command, ": malformed reply"]);
            proof {
                reveal_with_fuel(Seq::fold_left, 3);
            }
            Err(e)
        },
    }
}

/// The version string a `GetVersion` reply carries.
pub fn version_from_reply(reply: &JsonValue) -> (r: Result<String, BackendError>)
    ensures
        match result_value_spec(reply@, "GetVersion"@) {
            Err(m) => r matches Err(e) && is_protocol(e, m),
            Ok(v) => match as_str_spec(v) {
                Some(s) => r matches Ok(t) && t@ == s,
                None => r matches Err(e) && is_protocol(e, "GetVersion returned no version"@),
            },
        },
{
    let v = result_value(reply, "GetVersion")?;
    match as_str(&v) {
        Some(s) => Ok(crate::text::string_of(&crate::text::chars_of(s.as_str()))),
        None => {
            let e = protocol(&["GetVersion returned no version"]);
            proof {
                reveal_with_fuel(Seq::fold_left, 2);
            }
            Err(e)
        },
    }
}

/// The config text a `GetConfigJson` reply carries.
pub fn config_text_from_reply(reply: &JsonValue) -> (r: Result<String, BackendError>)
    ensures
        match result_value_spec(reply@, "GetConfigJson"@) {
            Err(m) => r matches Err(e) && is_protocol(e, m),
            Ok(v) => match as_str_spec(v) {
                Some(s) => r matches Ok(t) && t@ == s,
                None => r matches Err(e) && is_protocol(e, "GetConfigJson returned no config"@),
            },
        },
{
    let v = result_value(reply, "GetConfigJson")?;
    match as_str(&v) {
        Some(s) => Ok(crate::text::string_of(&crate::text::chars_of(s.as_str()))),
        None => {
            let e = protocol(&["GetConfigJson returned no config"]);
            proof {
                reveal_with_fuel(Seq::fold_left, 2);
            }
            Err(e)
        },
    }
}

/// Whether CamillaDSP accepted a `SetConfigJson`.
pub fn check_set_config_reply(reply: &JsonValue) -> (r: Result<(), BackendError>)
    ensures
        match result_value_spec(reply@, "SetConfigJson"@) {
            Err(m) => r matches Err(e) && is_protocol(e, m),
            Ok(_) => r is Ok,
        },
{
    result_value(reply, "SetConfigJson")?;
    Ok(())
}

// ---------------------------------------------------------------------------------------------
// the texts on the wire
// ---------------------------------------------------------------------------------------------

/// The oldest CamillaDSP major version whose config schema heq writes.
pub const MIN_MAJOR: u64 = 3;

pub open spec fn is_digit(c: char) -> bool {
    '0' <= c && c <= '9'
}

/// How many decimal digits a text starts with.
pub open spec fn digits_len(s: Seq<char>) -> nat
    decreases s.len(),
{
    if s.len() > 0 && is_digit(s[0]) {
        1 + digits_len(s.drop_first())
    } else {
        0
    }
}

/// The number a run of decimal digits writes.
pub open spec fn digits_value(d: Seq<char>) -> nat
    decreases d.len(),
{
    if d.len() == 0 {
        0
    } else {
        digits_value(d.drop_last()) * 10 + ((d.last() as nat) - ('0' as nat)) as nat
    }
}

/// The major version a version text such as `3.0.1` starts with, if it starts with digits.
pub open spec fn major_spec(version: Seq<char>) -> Option<nat> {
    if digits_len(version) > 0 {
        Some(digits_value(version.take(digits_len(version) as int)))
    } else {
        None
    }
}

/// heq talks to a CamillaDSP whose major version it can read and is at least `MIN_MAJOR`.
pub open spec fn version_supported_spec(version: Seq<char>) -> bool {
    match major_spec(version) {
        Some(m) => m >= MIN_MAJOR,
        None => false,
    }
}

proof fn lemma_digits_len(s: Seq<char>, i: int)
    requires
        0 <= i <= s.len(),
        forall|j: int| 0 <= j < i ==> is_digit(#[trigger] s[j]),
        i == s.len() || !is_digit(s[i]),
    ensures
        digits_len(s) == i,
    decreases i,
{
    if i > 0 {
        let t = s.drop_first();
        assert forall|j: int| 0 <= j < i - 1 implies is_digit(#[trigger] t[j]) by {
            assert(t[j] == s[j + 1]);
        }
        if i < s.len() {
            assert(t[i - 1] == s[i]);
        }
        lemma_digits_len(t, i - 1);
    }
}

/// Whether a CamillaDSP of this version is one heq can drive (`version_supported_spec`).
pub fn version_supported(version: &str) -> (r: bool)
    ensures
        r == version_supported_spec(version@),
{
    let v = crate::text::chars_of(version);
    let mut i: usize = 0;
    // the value of the digits read so far, held at 1000 once it gets there
    let mut capped: u64 = 0;
    while i < v.len() && '0' <= v[i] && v[i] <= '9'
        invariant
            i <= v@.len(),
            v@ == version@,
            forall|j: int| 0 <= j < i ==> is_digit(#[trigger] v@[j]),
            capped as nat == if digits_value(v@.take(i as int)) < 1000 {
                digits_value(v@.take(i as int))
            } else {
                1000
            },
        decreases v@.len() - i,
    {
        let d = (v[i] as u32 - '0' as u32) as u64;
        assert(v@.take(i + 1).drop_last() =~= v@.take(i as int));
        assert(v@.take(i + 1).last() == v@[i as int]);
        let next = capped * 10 + d;
        capped = if next < 1000 {
            next
        } else {
            1000
        };
        i += 1;
    }
    proof {
        lemma_digits_len(v@, i as int);
    }
    i > 0 && capped >= MIN_MAJOR
}

/// The running CamillaDSP is older than heq can drive.
pub fn too_old_status(version: &str) -> (r: Status)
    ensures
        !r.connected,
        r.message@ == "CamillaDSP "@ + version@ + " is too old; heq needs version 3 or newer"@,
{
    let mut m = String::new();
    push_str(&mut m, "CamillaDSP ");
    push_str(&mut m, version);
    push_str(&mut m, " is too old; heq needs version 3 or newer");
    Status::offline(m)
}

/// What a `GetVersion` reply comes to: the version, or the protocol error's text.
pub open spec fn version_spec(reply: JsonView) -> Result<Seq<char>, Seq<char>> {
    match result_value_spec(reply, "GetVersion"@) {
        Err(m) => Err(m),
        Ok(v) => match as_str_spec(v) {
            Some(s) => Ok(s),
            None => Err("GetVersion returned no version"@),
        },
    }
}

/// What a `GetConfigJson` reply comes to: the config's JSON text, or the protocol error's text.
pub open spec fn config_text_spec(reply: JsonView) -> Result<Seq<char>, Seq<char>> {
    match result_value_spec(reply, "GetConfigJson"@) {
        Err(m) => Err(m),
        Ok(v) => match as_str_spec(v) {
            Some(s) => Ok(s),
            None => Err("GetConfigJson returned no config"@),
        },
    }
}

pub open spec fn is_any_protocol(e: BackendError) -> bool {
    e is Protocol
}

/// The request for a plain command such as `GetVersion`: the command as a JSON string.
pub fn command_request(command: &str) -> (r: String)
    ensures
        r@ == json_printed(JsonView::String(command@)),
{
    print_json(&json_str(command))
}

/// The request that sets a config: `{"SetConfigJson": <the config's JSON text>}`.
pub fn set_config_request(config: &JsonValue) -> (r: String)
    ensures
        r@ == json_printed(
            JsonView::Object(seq![("SetConfigJson"@, JsonView::String(json_printed(config@)))]),
        ),
{
    let text = print_json(config);
    let mut m: Vec<(String, JsonValue)> = Vec::new();
    let mut k = String::new();
    push_str(&mut k, "SetConfigJson");
    m.push((k, JsonValue::String(text)));
    proof {
        lemma_object_view(m);
        assert(entry_views(m@) =~= seq![("SetConfigJson"@, JsonView::String(json_printed(config@)))]);
    }
    print_json(&JsonValue::Object(m))
}

/// The version a `GetVersion` reply text carries. A text that is not JSON is a protocol error
/// with serde_json's message.
pub fn version_from_reply_text(reply: &str) -> (r: Result<String, BackendError>)
    ensures
        match json_parsed(reply@) {
            None => r matches Err(e) && is_any_protocol(e),
            Some(v) => match version_spec(v) {
                Ok(s) => r matches Ok(t) && t@ == s,
                Err(m) => r matches Err(e) && is_protocol(e, m),
            },
        },
{
    match parse_json(reply) {
        Ok(v) => version_from_reply(&v),
        Err(e) => Err(BackendError::Protocol(e)),
    }
}

/// The config a `GetConfigJson` reply text carries, read from the JSON text inside it. A reply
/// or config text that is not JSON is a protocol error with serde_json's message.
pub fn config_from_reply_text(reply: &str) -> (r: Result<JsonValue, BackendError>)
    ensures
        match json_parsed(reply@) {
            None => r matches Err(e) && is_any_protocol(e),
            Some(v) => match config_text_spec(v) {
                Err(m) => r matches Err(e) && is_protocol(e, m),
                Ok(t) => match json_parsed(t) {
                    Some(c) => r matches Ok(x) && x@ == c,
                    None => r matches Err(e) && is_any_protocol(e),
                },
            },
        },
{
    let v = match parse_json(reply) {
        Ok(v) => v,
        Err(e) => return Err(BackendError::Protocol(e)),
    };
    let text = config_text_from_reply(&v)?;
    match parse_json(text.as_str()) {
        Ok(c) => Ok(c),
        Err(e) => Err(BackendError::Protocol(e)),
    }
}

/// Whether CamillaDSP accepted a `SetConfigJson`, from its reply text.
pub fn set_config_reply_text(reply: &str) -> (r: Result<(), BackendError>)
    ensures
        match json_parsed(reply@) {
            None => r matches Err(e) && is_any_protocol(e),
            Some(v) => match result_value_spec(v, "SetConfigJson"@) {
                Err(m) => r matches Err(e) && is_protocol(e, m),
                Ok(_) => r is Ok,
            },
        },
{
    match parse_json(reply) {
        Ok(v) => check_set_config_reply(&v),
        Err(e) => Err(BackendError::Protocol(e)),
    }
}

/// A config as serde_json's map holds it: printed and read back, so its keys come sorted. This
/// is the value the YAML copy on disk is written from.
pub fn reread(config: &JsonValue) -> (r: Option<JsonValue>)
    ensures
        match r {
            Some(v) => json_parsed(json_printed(config@)) == Some(v@),
            None => json_parsed(json_printed(config@)).is_none(),
        },
{
    let text = print_json(config);
    match parse_json(text.as_str()) {
        Ok(v) => Some(v),
        Err(_) => None,
    }
}

// ---------------------------------------------------------------------------------------------
// the status line
// ---------------------------------------------------------------------------------------------

/// The running config could not be fetched.
pub fn unreachable_status(error: &str) -> (r: Status)
    ensures
        !r.connected,
        r.message@ == "CamillaDSP unreachable ("@ + error@ + ")"@,
{
    let mut m = String::new();
    push_str(&mut m, "CamillaDSP unreachable (");
    push_str(&mut m, error);
    push_str(&mut m, ")");
    Status::offline(m)
}

/// A failure to reach CamillaDSP at all, as opposed to a bad reply from it.
pub fn is_no_connection(e: &BackendError) -> (r: bool)
    ensures
        r == (e is NotAvailable),
{
    match e {
        BackendError::NotAvailable(_) => true,
        _ => false,
    }
}

/// With no connection heq does not fail: it says it is not connected, and whether the YAML copy
/// of the config was written to `written` instead.
pub fn not_connected_status(error: &str, written: Option<&str>) -> (r: Status)
    ensures
        !r.connected,
        r.message@ == match written {
            Some(p) => "not connected ("@ + error@ + "); config written to "@ + p@,
            None => "not connected ("@ + error@ + ")"@,
        },
{
    let mut m = String::new();
    push_str(&mut m, "not connected (");
    push_str(&mut m, error);
    match written {
        Some(p) => {
            push_str(&mut m, "); config written to ");
            push_str(&mut m, p);
        },
        None => {
            push_str(&mut m, ")");
        },
    }
    Status::offline(m)
}

/// CamillaDSP did not take the new config.
pub fn refused_status(error: &str) -> (r: Status)
    ensures
        !r.connected,
        r.message@ == "CamillaDSP refused the config ("@ + error@ + ")"@,
{
    let mut m = String::new();
    push_str(&mut m, "CamillaDSP refused the config (");
    push_str(&mut m, error);
    push_str(&mut m, ")");
    Status::offline(m)
}

/// The config was applied to the instance at `url`.
pub fn applied_status(url: &str) -> (r: Status)
    ensures
        r.connected,
        r.message@ == "applied to "@ + url@,
{
    let mut m = String::new();
    push_str(&mut m, "applied to ");
    push_str(&mut m, url);
    Status::ok(m)
}

/// The config was applied, but its YAML copy could not be written to `path`.
pub fn not_written_status(path: &str, error: &str) -> (r: Status)
    ensures
        r.connected,
        r.message@ == "applied, but "@ + path@ + " not written: "@ + error@,
{
    let mut m = String::new();
    push_str(&mut m, "applied, but ");
    push_str(&mut m, path);
    push_str(&mut m, " not written: ");
    push_str(&mut m, error);
    Status::ok(m)
}

/// A request is tried twice, since a dropped connection is normal (CamillaDSP restarts): after
/// a first failure, the second attempt's reply stands, or else the first error.
pub fn after_retry<V, E>(first: E, second: Result<V, E>) -> (r: Result<V, E>)
    ensures
        r == match second {
            Ok(v) => Ok::<V, E>(v),
            Err(_) => Err(first),
        },
{
    match second {
        Ok(v) => Ok(v),
        Err(_) => Err(first),
    }
}

// ---------------------------------------------------------------------------------------------
// what every build keeps
// ---------------------------------------------------------------------------------------------

/// Filter `e` is section `s` of band `i`, an enabled band.
pub open spec fn is_band_filter(bs: Seq<BandTextView>, i: int, s: int, e: (Seq<char>, JsonView)) -> bool {
    &&& 0 <= i < bs.len()
    &&& bs[i].enabled
    &&& 0 <= s < band_parameters(bs[i]).len()
    &&& e == (section_name(i as nat, s as nat), biquad(band_parameters(bs[i])[s]))
}

/// Filter `e` is a section of some enabled band.
pub open spec fn from_enabled_band(bs: Seq<BandTextView>, e: (Seq<char>, JsonView)) -> bool {
    exists|i: int, s: int| is_band_filter(bs, i, s, e)
}

/// Name `n` is section `s` of band `i`, an enabled band heard on channel `ch`.
pub open spec fn is_channel_name(bs: Seq<BandTextView>, ch: ChannelTarget, i: int, s: int, n: Seq<char>) -> bool {
    &&& 0 <= i < bs.len()
    &&& bs[i].enabled
    &&& applies_to_spec(bs[i].channel, ch)
    &&& 0 <= s < band_parameters(bs[i]).len()
    &&& n == section_name(i as nat, s as nat)
}

/// Name `n` is a section of some enabled band heard on channel `ch`.
pub open spec fn heard_on(bs: Seq<BandTextView>, ch: ChannelTarget, n: Seq<char>) -> bool {
    exists|i: int, s: int| is_channel_name(bs, ch, i, s, n)
}

/// Some filter in `f` is named `n`.
pub open spec fn defines(f: Seq<(Seq<char>, JsonView)>, n: Seq<char>) -> bool {
    exists|j: int| 0 <= j < f.len() && f[j].0 == n
}

/// Disabled bands are left out: every filter built from the bands is a section of an enabled
/// band, and each channel runs only sections of enabled bands heard on it (`Both` on either,
/// `Left` on channel 0 only, `Right` on channel 1 only).
pub proof fn law_only_enabled_bands(bs: Seq<BandTextView>)
    ensures
        forall|k: int| 0 <= k < band_fold(bs).0.len() ==> #[trigger] from_enabled_band(bs, band_fold(bs).0[k]),
        forall|k: int| 0 <= k < band_fold(bs).1.len() ==> #[trigger] heard_on(bs, ChannelTarget::Left, band_fold(bs).1[k]),
        forall|k: int| 0 <= k < band_fold(bs).2.len() ==> #[trigger] heard_on(bs, ChannelTarget::Right, band_fold(bs).2[k]),
    decreases bs.len(),
{
    if bs.len() > 0 {
        let prev = bs.drop_last();
        law_only_enabled_bands(prev);
        let last = (bs.len() - 1) as int;
        assert forall|k: int| 0 <= k < band_fold(bs).0.len() implies #[trigger] from_enabled_band(bs, band_fold(bs).0[k]) by {
            if k < band_fold(prev).0.len() {
                assert(from_enabled_band(prev, band_fold(prev).0[k]));
                let (i, s) = choose|i: int, s: int| is_band_filter(prev, i, s, band_fold(prev).0[k]);
                assert(prev[i] == bs[i]);
                assert(is_band_filter(bs, i, s, band_fold(bs).0[k]));
            } else {
                let s = k - band_fold(prev).0.len();
                assert(is_band_filter(bs, last, s, band_fold(bs).0[k]));
            }
        }
        assert forall|k: int| 0 <= k < band_fold(bs).1.len() implies #[trigger] heard_on(bs, ChannelTarget::Left, band_fold(bs).1[k]) by {
            if k < band_fold(prev).1.len() {
                assert(heard_on(prev, ChannelTarget::Left, band_fold(prev).1[k]));
                let (i, s) = choose|i: int, s: int|
                    is_channel_name(prev, ChannelTarget::Left, i, s, band_fold(prev).1[k]);
                assert(prev[i] == bs[i]);
                assert(is_channel_name(bs, ChannelTarget::Left, i, s, band_fold(bs).1[k]));
            } else {
                let s = k - band_fold(prev).1.len();
                assert(is_channel_name(bs, ChannelTarget::Left, last, s, band_fold(bs).1[k]));
            }
        }
        assert forall|k: int| 0 <= k < band_fold(bs).2.len() implies #[trigger] heard_on(bs, ChannelTarget::Right, band_fold(bs).2[k]) by {
            if k < band_fold(prev).2.len() {
                assert(heard_on(prev, ChannelTarget::Right, band_fold(prev).2[k]));
                let (i, s) = choose|i: int, s: int|
                    is_channel_name(prev, ChannelTarget::Right, i, s, band_fold(prev).2[k]);
                assert(prev[i] == bs[i]);
                assert(is_channel_name(bs, ChannelTarget::Right, i, s, band_fold(bs).2[k]));
            } else {
                let s = k - band_fold(prev).2.len();
                assert(is_channel_name(bs, ChannelTarget::Right, last, s, band_fold(bs).2[k]));
            }
        }
    }
}

/// Every enabled band is built: each of its sections is among the filters, and each section's
/// name is run by every channel the band is heard on.
pub proof fn law_enabled_band_built(bs: Seq<BandTextView>, i: int, s: int)
    requires
        0 <= i < bs.len(),
        bs[i].enabled,
        0 <= s < band_parameters(bs[i]).len(),
    ensures
        band_fold(bs).0.contains((section_name(i as nat, s as nat), biquad(band_parameters(bs[i])[s]))),
        applies_to_spec(bs[i].channel, ChannelTarget::Left) ==> band_fold(bs).1.contains(
            section_name(i as nat, s as nat),
        ),
        applies_to_spec(bs[i].channel, ChannelTarget::Right) ==> band_fold(bs).2.contains(
            section_name(i as nat, s as nat),
        ),
    decreases bs.len(),
{
    let prev = bs.drop_last();
    let e = (section_name(i as nat, s as nat), biquad(band_parameters(bs[i])[s]));
    let n = section_name(i as nat, s as nat);
    if i == bs.len() - 1 {
        assert(band_fold(bs).0[band_fold(prev).0.len() + s] == e);
        if applies_to_spec(bs[i].channel, ChannelTarget::Left) {
            assert(band_fold(bs).1[band_fold(prev).1.len() + s] == n);
        }
        if applies_to_spec(bs[i].channel, ChannelTarget::Right) {
            assert(band_fold(bs).2[band_fold(prev).2.len() + s] == n);
        }
    } else {
        assert(prev[i] == bs[i]);
        law_enabled_band_built(prev, i, s);
        let k = choose|k: int| 0 <= k < band_fold(prev).0.len() && band_fold(prev).0[k] == e;
        assert(band_fold(bs).0[k] == e);
        if applies_to_spec(bs[i].channel, ChannelTarget::Left) {
            let k = choose|k: int| 0 <= k < band_fold(prev).1.len() && band_fold(prev).1[k] == n;
            assert(band_fold(bs).1[k] == n);
        }
        if applies_to_spec(bs[i].channel, ChannelTarget::Right) {
            let k = choose|k: int| 0 <= k < band_fold(prev).2.len() && band_fold(prev).2[k] == n;
            assert(band_fold(bs).2[k] == n);
        }
    }
}

/// The pipeline runs only filters that are defined: every name either channel runs is the name
/// of one of the filters built.
pub proof fn law_pipeline_names_defined(bs: Seq<BandTextView>)
    ensures
        forall|k: int| 0 <= k < band_fold(bs).1.len() ==> #[trigger] defines(band_fold(bs).0, band_fold(bs).1[k]),
        forall|k: int| 0 <= k < band_fold(bs).2.len() ==> #[trigger] defines(band_fold(bs).0, band_fold(bs).2[k]),
{
    law_only_enabled_bands(bs);
    assert forall|k: int| 0 <= k < band_fold(bs).1.len() implies #[trigger] defines(band_fold(bs).0, band_fold(bs).1[k]) by {
        assert(heard_on(bs, ChannelTarget::Left, band_fold(bs).1[k]));
        let (i, s) = choose|i: int, s: int|
            is_channel_name(bs, ChannelTarget::Left, i, s, band_fold(bs).1[k]);
        law_enabled_band_built(bs, i, s);
        let e = (section_name(i as nat, s as nat), biquad(band_parameters(bs[i])[s]));
        let j = choose|j: int| 0 <= j < band_fold(bs).0.len() && band_fold(bs).0[j] == e;
        assert(band_fold(bs).0[j].0 == band_fold(bs).1[k]);
    }
    assert forall|k: int| 0 <= k < band_fold(bs).2.len() implies #[trigger] defines(band_fold(bs).0, band_fold(bs).2[k]) by {
        assert(heard_on(bs, ChannelTarget::Right, band_fold(bs).2[k]));
        let (i, s) = choose|i: int, s: int|
            is_channel_name(bs, ChannelTarget::Right, i, s, band_fold(bs).2[k]);
        law_enabled_band_built(bs, i, s);
        let e = (section_name(i as nat, s as nat), biquad(band_parameters(bs[i])[s]));
        let j = choose|j: int| 0 <= j < band_fold(bs).0.len() && band_fold(bs).0[j] == e;
        assert(band_fold(bs).0[j].0 == band_fold(bs).2[k]);
    }
}

/// With a preamp, its `Gain` filter comes first, and both channels get a step that runs it
/// first: channel 0, then channel 1.
pub proof fn law_preamp_first(g: Seq<char>, bs: Seq<BandTextView>)
    ensures
        ({
            let (f, p) = build_spec(false, Some(g), bs);
            &&& f.len() >= 1
            &&& f[0] == ("heq_preamp"@, preamp_filter(g))
            &&& p == seq![
                pipeline_step("0"@, seq!["heq_preamp"@] + band_fold(bs).1),
                pipeline_step("1"@, seq!["heq_preamp"@] + band_fold(bs).2),
            ]
        }),
{
    let (f, p) = build_spec(false, Some(g), bs);
    assert(f[0] == ("heq_preamp"@, preamp_filter(g)));
    assert((seq!["heq_preamp"@] + band_fold(bs).1).len() > 0);
    assert((seq!["heq_preamp"@] + band_fold(bs).2).len() > 0);
}

/// Bypassed, heq builds nothing: no filters, no pipeline steps.
pub proof fn law_bypass_builds_nothing(preamp: Option<Seq<char>>, bs: Seq<BandTextView>)
    ensures
        build_spec(true, preamp, bs).0.len() == 0,
        build_spec(true, preamp, bs).1.len() == 0,
{
}

/// Splicing leaves the rest of the config as it was found: in an object config every key but
/// `filters` and `pipeline` keeps its value, and those two hold what was built; a config that is
/// not an object becomes an object of just those two.
pub proof fn law_splice_keeps_the_rest(
    config: JsonView,
    built: (Seq<(Seq<char>, JsonView)>, Seq<JsonView>),
    key: Seq<char>,
)
    ensures
        get_spec(splice_spec(config, built), "filters"@) == Some(JsonView::Object(built.0)),
        get_spec(splice_spec(config, built), "pipeline"@) == Some(JsonView::Array(built.1)),
        key != "filters"@ && key != "pipeline"@ ==> get_spec(splice_spec(config, built), key) == if config is Object {
            get_spec(config, key)
        } else {
            None
        },
{
    reveal_strlit("filters");
    reveal_strlit("pipeline");
    assert("filters"@ != "pipeline"@) by {
        assert("filters"@.len() != "pipeline"@.len());
    }
    match config {
        JsonView::Object(m) => {
            let m1 = insert_spec(m, "filters"@, JsonView::Object(built.0));
            law_insert_keeps_others(m, "filters"@, JsonView::Object(built.0), key);
            law_insert_keeps_others(m1, "pipeline"@, JsonView::Array(built.1), key);
            law_insert_keeps_others(m1, "pipeline"@, JsonView::Array(built.1), "filters"@);
            let m2 = insert_spec(m1, "pipeline"@, JsonView::Array(built.1));
            assert(splice_spec(config, built) == JsonView::Object(m2));
        },
        _ => {
            let m: Seq<(Seq<char>, JsonView)> = seq![
                ("filters"@, JsonView::Object(built.0)),
                ("pipeline"@, JsonView::Array(built.1)),
            ];
            assert(m.drop_last().drop_last() =~= Seq::<(Seq<char>, JsonView)>::empty());
            assert(m.drop_last() =~= seq![("filters"@, JsonView::Object(built.0))]);
            assert(splice_spec(config, built) == JsonView::Object(m));
            reveal_with_fuel(super::json::find_key, 3);
            assert(super::json::find_key(m, "filters"@) == Some(0int));
            assert(super::json::find_key(m, "pipeline"@) == Some(1int));
            if key != "filters"@ && key != "pipeline"@ {
                assert(super::json::find_key(m, key).is_none());
            }
        },
    }
}


// ---------------------------------------------------------------------------------------------
// what each shape becomes
// ---------------------------------------------------------------------------------------------

proof fn lemma_param_keys()
    ensures
        "freq"@ != "gain"@,
        "freq"@ != "q"@,
        "freq"@ != "type"@,
        "gain"@ != "q"@,
        "gain"@ != "type"@,
        "q"@ != "type"@,
{
    reveal_strlit("freq");
    reveal_strlit("gain");
    reveal_strlit("q");
    reveal_strlit("type");
    assert("freq"@[0] != "gain"@[0]);
    assert("freq"@.len() != "q"@.len());
    assert("freq"@[0] != "type"@[0]);
    assert("gain"@.len() != "q"@.len());
    assert("gain"@[0] != "type"@[0]);
    assert("q"@.len() != "type"@.len());
}

proof fn lemma_gain_params(ty: Seq<char>, f: Seq<char>, g: Seq<char>, q: Seq<char>)
    ensures
        get_spec(gain_params(ty, f, g, q), "type"@) == Some(jstr(ty)),
        get_spec(gain_params(ty, f, g, q), "freq"@) == Some(jnum(f)),
        get_spec(gain_params(ty, f, g, q), "gain"@) == Some(jnum(g)),
        get_spec(gain_params(ty, f, g, q), "q"@) == Some(jnum(q)),
{
    lemma_param_keys();
    reveal_with_fuel(find_key, 5);
    let m = seq![("freq"@, jnum(f)), ("gain"@, jnum(g)), ("q"@, jnum(q)), ("type"@, jstr(ty))];
    assert(m.drop_last() =~= seq![("freq"@, jnum(f)), ("gain"@, jnum(g)), ("q"@, jnum(q))]);
    assert(m.drop_last().drop_last() =~= seq![("freq"@, jnum(f)), ("gain"@, jnum(g))]);
    assert(m.drop_last().drop_last().drop_last() =~= seq![("freq"@, jnum(f))]);
    assert(m.drop_last().drop_last().drop_last().drop_last() =~= Seq::<(Seq<char>, JsonView)>::empty());
}

proof fn lemma_plain_params(ty: Seq<char>, f: Seq<char>, q: Seq<char>)
    ensures
        get_spec(plain_params(ty, f, q), "type"@) == Some(jstr(ty)),
        get_spec(plain_params(ty, f, q), "freq"@) == Some(jnum(f)),
        get_spec(plain_params(ty, f, q), "gain"@) == None::<JsonView>,
        get_spec(plain_params(ty, f, q), "q"@) == Some(jnum(q)),
{
    lemma_param_keys();
    reveal_with_fuel(find_key, 4);
    let m = seq![("freq"@, jnum(f)), ("q"@, jnum(q)), ("type"@, jstr(ty))];
    assert(m.drop_last() =~= seq![("freq"@, jnum(f)), ("q"@, jnum(q))]);
    assert(m.drop_last().drop_last() =~= seq![("freq"@, jnum(f))]);
    assert(m.drop_last().drop_last().drop_last() =~= Seq::<(Seq<char>, JsonView)>::empty());
}

/// The CamillaDSP biquad type each shape is sent as.
pub open spec fn biquad_type_of(k: FilterKind) -> Seq<char> {
    match k {
        FilterKind::Bell => "Peaking"@,
        FilterKind::LowShelf => "Lowshelf"@,
        FilterKind::HighShelf => "Highshelf"@,
        FilterKind::Notch => "Notch"@,
        FilterKind::BandPass => "Bandpass"@,
        FilterKind::AllPass => "Allpass"@,
        FilterKind::LowCut => "Highpass"@,
        FilterKind::HighCut => "Lowpass"@,
    }
}

/// Every biquad a band becomes carries the CamillaDSP type of the band's shape (a bell is
/// `Peaking`, a low shelf `Lowshelf`, a high shelf `Highshelf`, a notch, band pass and all pass
/// `Notch`, `Bandpass`, `Allpass`, a low cut `Highpass` and a high cut `Lowpass`), the band's
/// frequency, and the band's gain exactly when the shape has one. A bell, shelf, notch, band
/// pass or all pass is one biquad with the band's Q; a cut is one biquad per section, each with
/// its section's Q.
pub proof fn law_biquad_per_shape(b: BandTextView)
    ensures
        b.kind is LowCut || b.kind is HighCut ==> band_parameters(b).len() == b.cut_qs.len(),
        !(b.kind is LowCut || b.kind is HighCut) ==> band_parameters(b).len() == 1,
        forall|s: int| #![trigger band_parameters(b)[s]] 0 <= s < band_parameters(b).len() ==> {
            let p = band_parameters(b)[s];
            &&& get_spec(p, "type"@) == Some(jstr(biquad_type_of(b.kind)))
            &&& get_spec(p, "freq"@) == Some(jnum(b.freq))
            &&& get_spec(p, "q"@) == Some(
                jnum(
                    if b.kind is LowCut || b.kind is HighCut {
                        b.cut_qs[s]
                    } else {
                        b.q
                    },
                ),
            )
            &&& get_spec(p, "gain"@) == if b.kind is Bell || b.kind is LowShelf || b.kind is HighShelf {
                Some(jnum(b.gain))
            } else {
                None
            }
        },
        biquad_type_of(FilterKind::Bell) == "Peaking"@,
        biquad_type_of(FilterKind::LowShelf) == "Lowshelf"@,
        biquad_type_of(FilterKind::HighShelf) == "Highshelf"@,
        biquad_type_of(FilterKind::Notch) == "Notch"@,
        biquad_type_of(FilterKind::BandPass) == "Bandpass"@,
        biquad_type_of(FilterKind::AllPass) == "Allpass"@,
        biquad_type_of(FilterKind::LowCut) == "Highpass"@,
        biquad_type_of(FilterKind::HighCut) == "Lowpass"@,
{
    assert forall|s: int| #![trigger band_parameters(b)[s]] 0 <= s < band_parameters(b).len() implies {
        let p = band_parameters(b)[s];
        &&& get_spec(p, "type"@) == Some(jstr(biquad_type_of(b.kind)))
        &&& get_spec(p, "freq"@) == Some(jnum(b.freq))
        &&& get_spec(p, "q"@) == Some(
            jnum(
                if b.kind is LowCut || b.kind is HighCut {
                    b.cut_qs[s]
                } else {
                    b.q
                },
            ),
        )
        &&& get_spec(p, "gain"@) == if b.kind is Bell || b.kind is LowShelf || b.kind is HighShelf {
            Some(jnum(b.gain))
        } else {
            None
        }
    } by {
        match b.kind {
            FilterKind::Bell | FilterKind::LowShelf | FilterKind::HighShelf => {
                lemma_gain_params(biquad_type_of(b.kind), b.freq, b.gain, b.q);
            },
            FilterKind::Notch | FilterKind::BandPass | FilterKind::AllPass => {
                lemma_plain_params(biquad_type_of(b.kind), b.freq, b.q);
            },
            FilterKind::LowCut | FilterKind::HighCut => {
                lemma_plain_params(biquad_type_of(b.kind), b.freq, b.cut_qs[s]);
            },
        }
    }
}

} // verus!
