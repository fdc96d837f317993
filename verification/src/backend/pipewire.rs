//! PipeWire: heq writes a filter-chain drop-in; PipeWire picks it up when it restarts.
use vstd::prelude::*;

use std::path::PathBuf;

use super::Status;
use crate::model::band::{applies_to_spec, band_views, strings_view, BandText, BandTextView, FilterKind};
use crate::paths::{config_home, config_home_spec, join_name, opt_view, path_joined};
use crate::text::{dec, push_dec, push_str};

verus! {

pub const FILE_NAME: &'static str = "99-heq.conf";

/// Where the drop-in goes by default, from the home and `$XDG_CONFIG_HOME` values:
/// `pipewire/pipewire.conf.d/99-heq.conf` in the configuration directory.
pub fn default_path_from(home: Option<&str>, xdg: Option<&str>) -> (r: PathBuf)
    ensures
        r == path_joined(
            path_joined(config_home_spec(opt_view(home), opt_view(xdg)), "pipewire/pipewire.conf.d"@),
            FILE_NAME@,
        ),
{
    let base = config_home(home, xdg);
    let dir = join_name(&base, "pipewire/pipewire.conf.d");
    join_name(&dir, FILE_NAME)
}

/// Writes the filter-chain drop-in; it is heard after PipeWire restarts.
pub struct PipeWireBackend {
    path: PathBuf,
    status: Status,
}

impl PipeWireBackend {
    pub closed spec fn path_spec(&self) -> PathBuf {
        self.path
    }

    pub closed spec fn current(&self) -> (bool, Seq<char>) {
        (self.status.connected, self.status.message@)
    }

    pub fn new(path: PathBuf) -> (r: PipeWireBackend)
        ensures
            r.path_spec() == path,
            r.current() == (false, "not written yet"@),
    {
        let mut m = String::new();
        push_str(&mut m, "not written yet");
        assert(m@ =~= "not written yet"@);
        PipeWireBackend { path, status: Status::offline(m) }
    }

    pub fn path(&self) -> (r: &PathBuf)
        ensures
            *r == self.path_spec(),
    {
        &self.path
    }

    pub fn status(&self) -> (r: &Status)
        ensures
            (r.connected, r.message@) == self.current(),
    {
        &self.status
    }

    /// The drop-in was written.
    pub fn record_written(&mut self)
        ensures
            final(self).current() == (true, "written — restart PipeWire to hear it"@),
            final(self).path_spec() == old(self).path_spec(),
    {
        let mut m = String::new();
        push_str(&mut m, "written — restart PipeWire to hear it");
        assert(m@ =~= "written — restart PipeWire to hear it"@);
        self.status = Status::ok(m);
    }
}

// ---------------------------------------------------------------------------------------------
// the drop-in text
// ---------------------------------------------------------------------------------------------

pub const PW_HEAD: &'static str = "# written by heq — do not edit, your changes will be overwritten\n\
     context.modules = [\n\
     \x20 { name = libpipewire-module-filter-chain\n\
     \x20   args = {\n\
     \x20     node.description = \"heq\"\n\
     \x20     media.name       = \"heq\"\n\
     \x20     filter.graph = {\n\
     \x20       nodes = [\n";

pub const PW_MID: &'static str = "        ]\n        links = [\n";

pub const PW_INPUTS: &'static str = "        ]\n        inputs  = [ \"";

pub const PW_SEP: &'static str = "\" \"";

pub const PW_OUTPUTS: &'static str = "\" ]\n        outputs = [ \"";

pub const PW_TAIL: &'static str = "\" ]\n\
     \x20     }\n\
     \x20     capture.props = {\n\
     \x20       node.name   = \"heq\"\n\
     \x20       media.class = \"Audio/Sink\"\n\
     \x20       audio.channels = 2\n\
     \x20       audio.position = [ FL FR ]\n\
     \x20     }\n\
     \x20     playback.props = {\n\
     \x20       node.name    = \"heq_out\"\n\
     \x20       node.passive = true\n\
     \x20       audio.channels = 2\n\
     \x20       audio.position = [ FL FR ]\n\
     \x20     }\n\
     \x20   }\n\
     \x20 }\n\
     ]\n";

/// A node's builtin label and its control values.
pub type Entry = (Seq<char>, Seq<char>);

pub open spec fn freq_q(b: BandTextView, q: Seq<char>) -> Seq<char> {
    "\"Freq\" = "@ + b.freq + " \"Q\" = "@ + q
}

/// The builtin nodes one band becomes: a single biquad, or one per section for a cut.
pub open spec fn band_entries(b: BandTextView) -> Seq<Entry> {
    match b.kind {
        FilterKind::Bell => seq![("bq_peaking"@, freq_q(b, b.q) + " \"Gain\" = "@ + b.gain)],
        FilterKind::LowShelf => seq![("bq_lowshelf"@, freq_q(b, b.q) + " \"Gain\" = "@ + b.gain)],
        FilterKind::HighShelf => seq![("bq_highshelf"@, freq_q(b, b.q) + " \"Gain\" = "@ + b.gain)],
        FilterKind::Notch => seq![("bq_notch"@, freq_q(b, b.q))],
        FilterKind::BandPass => seq![("bq_bandpass"@, freq_q(b, b.q))],
        FilterKind::AllPass => seq![("bq_allpass"@, freq_q(b, b.q))],
        FilterKind::LowCut => b.cut_qs.map_values(|q: Seq<char>| ("bq_highpass"@, freq_q(b, q))),
        FilterKind::HighCut => b.cut_qs.map_values(|q: Seq<char>| ("bq_lowpass"@, freq_q(b, q))),
    }
}

/// The nodes of every enabled band heard on `side`, in order.
pub open spec fn side_entries(bs: Seq<BandTextView>, side: crate::model::band::ChannelTarget) -> Seq<Entry>
    decreases bs.len(),
{
    if bs.len() == 0 {
        Seq::empty()
    } else {
        let b = bs.last();
        side_entries(bs.drop_last(), side) + if b.enabled && applies_to_spec(b.channel, side) {
            band_entries(b)
        } else {
            Seq::empty()
        }
    }
}

/// One side's chain: the preamp (a `linear` gain) when not bypassed and a gain is given, then
/// the bands unless bypassed; a chain with nothing in it is a single `copy`.
pub open spec fn chain_entries(
    bypassed: bool,
    gain: Option<Seq<char>>,
    bs: Seq<BandTextView>,
    side: crate::model::band::ChannelTarget,
) -> Seq<Entry> {
    let pre: Seq<Entry> = match gain {
        Some(g) => if !bypassed {
            seq![("linear"@, "\"Gain\" = "@ + g)]
        } else {
            Seq::empty()
        },
        None => Seq::empty(),
    };
    let body = if !bypassed {
        side_entries(bs, side)
    } else {
        Seq::empty()
    };
    if (pre + body).len() == 0 {
        seq![("copy"@, Seq::empty())]
    } else {
        pre + body
    }
}

/// The `k`-th node (from 1) of a side's chain.
pub open spec fn node_name(tag: Seq<char>, k: nat) -> Seq<char> {
    "heq_"@ + tag + "_"@ + dec(k)
}

pub open spec fn node_text(name: Seq<char>, label: Seq<char>, controls: Seq<char>) -> Seq<char> {
    "{ type = builtin name = "@ + name + " label = "@ + label + " control = { "@ + controls
        + " } }"@
}

/// The node lines of a chain, each indented and on its own line.
pub open spec fn nodes_block(tag: Seq<char>, es: Seq<Entry>) -> Seq<char>
    decreases es.len(),
{
    if es.len() == 0 {
        Seq::empty()
    } else {
        nodes_block(tag, es.drop_last()) + "          "@ + node_text(
            node_name(tag, es.len()),
            es.last().0,
            es.last().1,
        ) + "\n"@
    }
}

pub open spec fn link_text(tag: Seq<char>, k: nat) -> Seq<char> {
    "{ output = \""@ + node_name(tag, k) + ":Out\" input = \""@ + node_name(tag, k + 1) + ":In\" }"@
}

/// The link lines joining node `k` to node `k + 1`, for the first `n` nodes.
pub open spec fn links_block(tag: Seq<char>, n: nat) -> Seq<char>
    decreases n,
{
    if n <= 1 {
        Seq::empty()
    } else {
        links_block(tag, (n - 1) as nat) + "          "@ + link_text(tag, (n - 1) as nat) + "\n"@
    }
}

/// The drop-in: the left chain fed by and feeding the left channel, the right chain the right.
pub open spec fn build_config_spec(
    bypassed: bool,
    gain: Option<Seq<char>>,
    bs: Seq<BandTextView>,
) -> Seq<char> {
    let l = chain_entries(bypassed, gain, bs, crate::model::band::ChannelTarget::Left);
    let r = chain_entries(bypassed, gain, bs, crate::model::band::ChannelTarget::Right);
    PW_HEAD@ + nodes_block("l"@, l) + nodes_block("r"@, r) + PW_MID@ + links_block("l"@, l.len())
        + links_block("r"@, r.len()) + PW_INPUTS@ + node_name("l"@, 1) + ":In"@ + PW_SEP@
        + node_name("r"@, 1) + ":In"@ + PW_OUTPUTS@ + node_name("l"@, l.len()) + ":Out"@ + PW_SEP@
        + node_name("r"@, r.len()) + ":Out"@ + PW_TAIL@
}

/// A node's label and controls, as strings.
pub struct NodeEntry {
    pub label: String,
    pub controls: String,
}

pub open spec fn entry_views(v: Seq<NodeEntry>) -> Seq<Entry> {
    v.map_values(|e: NodeEntry| (e.label@, e.controls@))
}

fn entry(label: &str, b: &BandText, q: &str, gain: bool) -> (r: NodeEntry)
    ensures
        r.label@ == label@,
        r.controls@ == if gain {
            freq_q(b@, q@) + " \"Gain\" = "@ + b.gain@
        } else {
            freq_q(b@, q@)
        },
{
    let mut l = String::new();
    push_str(&mut l, label);
    let mut c = String::new();
    push_str(&mut c, "\"Freq\" = ");
    push_str(&mut c, b.freq.as_str());
    push_str(&mut c, " \"Q\" = ");
    push_str(&mut c, q);
    if gain {
        push_str(&mut c, " \"Gain\" = ");
        push_str(&mut c, b.gain.as_str());
    }
    assert(l@ =~= label@);
    NodeEntry { label: l, controls: c }
}

/// Appends the nodes one band becomes.
fn push_band_entries(out: &mut Vec<NodeEntry>, b: &BandText)
    ensures
        entry_views(final(out)@) == entry_views(old(out)@) + band_entries(b@),
{
    let ghost before = entry_views(out@);
    match b.kind {
        FilterKind::Bell => out.push(entry("bq_peaking", b, b.q.as_str(), true)),
        FilterKind::LowShelf => out.push(entry("bq_lowshelf", b, b.q.as_str(), true)),
        FilterKind::HighShelf => out.push(entry("bq_highshelf", b, b.q.as_str(), true)),
        FilterKind::Notch => out.push(entry("bq_notch", b, b.q.as_str(), false)),
        FilterKind::BandPass => out.push(entry("bq_bandpass", b, b.q.as_str(), false)),
        FilterKind::AllPass => out.push(entry("bq_allpass", b, b.q.as_str(), false)),
        FilterKind::LowCut | FilterKind::HighCut => {
            let label = if b.kind == FilterKind::LowCut {
                "bq_highpass"
            } else {
                "bq_lowpass"
            };
            let ghost qs = strings_view(b.cut_qs@);
            let ghost lab = label@;
            let mut i: usize = 0;
            while i < b.cut_qs.len()
                invariant
                    i <= b.cut_qs@.len(),
                    qs == strings_view(b.cut_qs@),
                    lab == label@,
                    lab == if b.kind == FilterKind::LowCut {
                        "bq_highpass"@
                    } else {
                        "bq_lowpass"@
                    },
                    entry_views(out@) =~= before + qs.take(i as int).map_values(
                        |q: Seq<char>| (lab, freq_q(b@, q)),
                    ),
                decreases b.cut_qs@.len() - i,
            {
                let e = entry(label, b, b.cut_qs[i].as_str(), false);
                let ghost ev = (e.label@, e.controls@);
                let ghost mid = entry_views(out@);
                out.push(e);
                assert(entry_views(out@) =~= mid.push(ev));
                assert(qs.take(i + 1).map_values(|q: Seq<char>| (lab, freq_q(b@, q))) =~= qs.take(
                    i as int,
                ).map_values(|q: Seq<char>| (lab, freq_q(b@, q))).push((lab, freq_q(b@, qs[i as int]))));
                i += 1;
            }
            assert(qs.take(b.cut_qs@.len() as int) =~= qs);
            return;
        },
    }
    assert(entry_views(out@) =~= before + band_entries(b@));
}

fn chain_entries_exec(
    bypassed: bool,
    gain: Option<&str>,
    bands: &Vec<BandText>,
    side: crate::model::band::ChannelTarget,
) -> (r: Vec<NodeEntry>)
    ensures
        entry_views(r@) == chain_entries(
            bypassed,
            match gain {
                Some(g) => Some(g@),
                None => None,
            },
            band_views(bands@),
            side,
        ),
{
    let mut out: Vec<NodeEntry> = Vec::new();
    if !bypassed {
        if let Some(g) = gain {
            let mut c = String::new();
            push_str(&mut c, "\"Gain\" = ");
            push_str(&mut c, g);
            let mut l = String::new();
            push_str(&mut l, "linear");
            assert(l@ =~= "linear"@);
            out.push(NodeEntry { label: l, controls: c });
        }
    }
    let ghost pre = entry_views(out@);
    let ghost bv = band_views(bands@);
    if !bypassed {
        let mut i: usize = 0;
        while i < bands.len()
            invariant
                i <= bands@.len(),
                bv == band_views(bands@),
                entry_views(out@) =~= pre + side_entries(bv.take(i as int), side),
            decreases bands@.len() - i,
        {
            assert(bv.take(i + 1).drop_last() =~= bv.take(i as int));
            assert(bv.take(i + 1).last() == bands@[i as int]@);
            if bands[i].enabled && bands[i].channel.applies_to(side) {
                push_band_entries(&mut out, &bands[i]);
            }
            i += 1;
        }
        assert(bv.take(bands@.len() as int) =~= bv);
    }
    let ghost gv = match gain {
        Some(g) => Some(g@),
        None => None,
    };
    proof {
        if bypassed {
            assert(entry_views(out@) =~= pre + Seq::<Entry>::empty());
        }
    }
    if out.len() == 0 {
        let mut l = String::new();
        push_str(&mut l, "copy");
        assert(l@ =~= "copy"@);
        let c = String::new();
        out.push(NodeEntry { label: l, controls: c });
        assert(entry_views(out@) =~= chain_entries(bypassed, gv, bv, side));
    } else {
        assert(entry_views(out@) =~= chain_entries(bypassed, gv, bv, side));
    }
    out
}

fn push_node_name(s: &mut String, tag: &str, k: usize)
    ensures
        final(s)@ == old(s)@ + node_name(tag@, k as nat),
{
    push_str(s, "heq_");
    push_str(s, tag);
    push_str(s, "_");
    push_dec(s, k);
    assert(s@ =~= old(s)@ + node_name(tag@, k as nat));
}

/// Appends the node lines of a chain.
fn push_nodes(s: &mut String, tag: &str, es: &Vec<NodeEntry>)
    ensures
        final(s)@ == old(s)@ + nodes_block(tag@, entry_views(es@)),
{
    let ghost ev = entry_views(es@);
    let mut i: usize = 0;
    while i < es.len()
        invariant
            i <= es@.len(),
            ev == entry_views(es@),
            s@ == old(s)@ + nodes_block(tag@, ev.take(i as int)),
        decreases es@.len() - i,
    {
        let ghost mid = s@;
        push_str(s, "          ");
        push_str(s, "{ type = builtin name = ");
        push_node_name(s, tag, i + 1);
        push_str(s, " label = ");
        push_str(s, es[i].label.as_str());
        push_str(s, " control = { ");
        push_str(s, es[i].controls.as_str());
        push_str(s, " } }");
        push_str(s, "\n");
        proof {
            assert(ev.take(i + 1).drop_last() =~= ev.take(i as int));
            assert(ev.take(i + 1).last() == (es@[i as int].label@, es@[i as int].controls@));
            assert(s@ =~= mid + "          "@ + node_text(
                node_name(tag@, (i + 1) as nat),
                ev[i as int].0,
                ev[i as int].1,
            ) + "\n"@);
        }
        i += 1;
    }
    assert(ev.take(es@.len() as int) =~= ev);
}

/// Appends the link lines of a chain of `n` nodes.
fn push_links(s: &mut String, tag: &str, n: usize)
    ensures
        final(s)@ == old(s)@ + links_block(tag@, n as nat),
{
    let mut k: usize = 1;
    assert(old(s)@ =~= old(s)@ + links_block(tag@, 1));
    while k < n
        invariant
            1 <= k,
            k <= n || n == 0,
            n == 0 ==> k == 1,
            s@ == old(s)@ + links_block(tag@, k as nat),
        decreases n - k,
    {
        let ghost mid = s@;
        push_str(s, "          ");
        push_str(s, "{ output = \"");
        push_node_name(s, tag, k);
        push_str(s, ":Out\" input = \"");
        push_node_name(s, tag, k + 1);
        push_str(s, ":In\" }");
        push_str(s, "\n");
        assert(s@ =~= mid + "          "@ + link_text(tag@, k as nat) + "\n"@);
        assert(s@ =~= old(s)@ + links_block(tag@, (k + 1) as nat));
        k += 1;
    }
    proof {
        if n == 0 {
            assert(links_block(tag@, 0) == links_block(tag@, 1));
        }
    }
}

/// The PipeWire filter-chain drop-in. `gain` is the preamp's linear gain, written out, given
/// when the preamp is to be applied at all; `bands` are in the order they are heard.
pub fn build_config(bypassed: bool, gain: Option<&str>, bands: &Vec<BandText>) -> (r: String)
    ensures
        r@ == build_config_spec(
            bypassed,
            match gain {
                Some(g) => Some(g@),
                None => None,
            },
            band_views(bands@),
        ),
{
    let l = chain_entries_exec(bypassed, gain, bands, crate::model::band::ChannelTarget::Left);
    let r = chain_entries_exec(bypassed, gain, bands, crate::model::band::ChannelTarget::Right);
    let mut s = String::new();
    push_str(&mut s, PW_HEAD);
    push_nodes(&mut s, "l", &l);
    push_nodes(&mut s, "r", &r);
    push_str(&mut s, PW_MID);
    push_links(&mut s, "l", l.len());
    push_links(&mut s, "r", r.len());
    push_str(&mut s, PW_INPUTS);
    push_node_name(&mut s, "l", 1);
    push_str(&mut s, ":In");
    push_str(&mut s, PW_SEP);
    push_node_name(&mut s, "r", 1);
    push_str(&mut s, ":In");
    push_str(&mut s, PW_OUTPUTS);
    push_node_name(&mut s, "l", l.len());
    push_str(&mut s, ":Out");
    push_str(&mut s, PW_SEP);
    push_node_name(&mut s, "r", r.len());
    push_str(&mut s, ":Out");
    push_str(&mut s, PW_TAIL);
    proof {
        let gv = match gain {
            Some(g) => Some(g@),
            None => None,
        };
        assert(s@ =~= build_config_spec(bypassed, gv, band_views(bands@)));
    }
    s
}

/// Every side's chain has at least one node, so each side always has an input and an output.
pub proof fn law_chain_never_empty(
    bypassed: bool,
    gain: Option<Seq<char>>,
    bs: Seq<BandTextView>,
    side: crate::model::band::ChannelTarget,
)
    ensures
        chain_entries(bypassed, gain, bs, side).len() >= 1,
{
}

/// Bypassed, each side is a single `copy` node: nothing is heard but the input.
pub proof fn law_bypass_passes_through(
    gain: Option<Seq<char>>,
    bs: Seq<BandTextView>,
    side: crate::model::band::ChannelTarget,
)
    ensures
        chain_entries(true, gain, bs, side) == seq![("copy"@, Seq::<char>::empty())],
{
    let pre: Seq<Entry> = Seq::empty();
    assert(pre + Seq::<Entry>::empty() =~= Seq::<Entry>::empty());
}


/// The PipeWire builtin each shape runs as.
pub open spec fn builtin_of(k: FilterKind) -> Seq<char> {
    match k {
        FilterKind::Bell => "bq_peaking"@,
        FilterKind::LowShelf => "bq_lowshelf"@,
        FilterKind::HighShelf => "bq_highshelf"@,
        FilterKind::Notch => "bq_notch"@,
        FilterKind::BandPass => "bq_bandpass"@,
        FilterKind::AllPass => "bq_allpass"@,
        FilterKind::LowCut => "bq_highpass"@,
        FilterKind::HighCut => "bq_lowpass"@,
    }
}

/// Every node a band becomes runs the builtin of the band's shape (a bell `bq_peaking`, a low
/// shelf `bq_lowshelf`, a high shelf `bq_highshelf`, a notch, band pass and all pass
/// `bq_notch`, `bq_bandpass`, `bq_allpass`, a low cut `bq_highpass` and a high cut `bq_lowpass`),
/// with the band's frequency, its Q (a cut: its section's Q), and its gain exactly when the shape
/// has one. A cut is one node per section, anything else one node.
pub proof fn law_node_per_shape(b: BandTextView)
    ensures
        b.kind is LowCut || b.kind is HighCut ==> band_entries(b).len() == b.cut_qs.len(),
        !(b.kind is LowCut || b.kind is HighCut) ==> band_entries(b).len() == 1,
        forall|s: int| #![trigger band_entries(b)[s]] 0 <= s < band_entries(b).len() ==> {
            &&& band_entries(b)[s].0 == builtin_of(b.kind)
            &&& band_entries(b)[s].1 == if b.kind is Bell || b.kind is LowShelf || b.kind is HighShelf {
                "\"Freq\" = "@ + b.freq + " \"Q\" = "@ + b.q + " \"Gain\" = "@ + b.gain
            } else if b.kind is LowCut || b.kind is HighCut {
                "\"Freq\" = "@ + b.freq + " \"Q\" = "@ + b.cut_qs[s]
            } else {
                "\"Freq\" = "@ + b.freq + " \"Q\" = "@ + b.q
            }
        },
        builtin_of(FilterKind::Bell) == "bq_peaking"@,
        builtin_of(FilterKind::LowShelf) == "bq_lowshelf"@,
        builtin_of(FilterKind::HighShelf) == "bq_highshelf"@,
        builtin_of(FilterKind::Notch) == "bq_notch"@,
        builtin_of(FilterKind::BandPass) == "bq_bandpass"@,
        builtin_of(FilterKind::AllPass) == "bq_allpass"@,
        builtin_of(FilterKind::LowCut) == "bq_highpass"@,
        builtin_of(FilterKind::HighCut) == "bq_lowpass"@,
{
}

/// No two shapes run as the same builtin.
pub proof fn law_builtins_distinct(a: FilterKind, b: FilterKind)
    ensures
        a != b ==> builtin_of(a) != builtin_of(b),
{
    reveal_strlit("bq_peaking");
    reveal_strlit("bq_lowshelf");
    reveal_strlit("bq_highshelf");
    reveal_strlit("bq_notch");
    reveal_strlit("bq_bandpass");
    reveal_strlit("bq_allpass");
    reveal_strlit("bq_highpass");
    reveal_strlit("bq_lowpass");
    let x = builtin_of(a);
    let y = builtin_of(b);
    if a != b {
        if x.len() == y.len() {
            assert(x[3] != y[3] || x[4] != y[4] || x[5] != y[5]);
        }
    }
}

} // verus!
