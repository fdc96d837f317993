use heq_core::backend::pipewire::{build_config, PipeWireBackend, FILE_NAME};
use heq_core::model::band::{BandText, ChannelTarget, FilterKind};

fn band(kind: FilterKind, enabled: bool, channel: ChannelTarget, f: &str, g: &str, q: &str, qs: &[&str]) -> BandText {
    BandText {
        kind,
        enabled,
        channel,
        freq: f.to_string(),
        gain: g.to_string(),
        q: q.to_string(),
        cut_qs: qs.iter().map(|s| s.to_string()).collect(),
    }
}

fn document(nodes: &str, links: &str, lin: &str, rin: &str, lout: &str, rout: &str) -> String {
    format!(
        "# written by heq — do not edit, your changes will be overwritten\n\
         context.modules = [\n\
         \x20 {{ name = libpipewire-module-filter-chain\n\
         \x20   args = {{\n\
         \x20     node.description = \"heq\"\n\
         \x20     media.name       = \"heq\"\n\
         \x20     filter.graph = {{\n\
         \x20       nodes = [\n{nodes}\
         \x20       ]\n\
         \x20       links = [\n{links}\
         \x20       ]\n\
         \x20       inputs  = [ \"{lin}\" \"{rin}\" ]\n\
         \x20       outputs = [ \"{lout}\" \"{rout}\" ]\n\
         \x20     }}\n\
         \x20     capture.props = {{\n\
         \x20       node.name   = \"heq\"\n\
         \x20       media.class = \"Audio/Sink\"\n\
         \x20       audio.channels = 2\n\
         \x20       audio.position = [ FL FR ]\n\
         \x20     }}\n\
         \x20     playback.props = {{\n\
         \x20       node.name    = \"heq_out\"\n\
         \x20       node.passive = true\n\
         \x20       audio.channels = 2\n\
         \x20       audio.position = [ FL FR ]\n\
         \x20     }}\n\
         \x20   }}\n\
         \x20 }}\n\
         ]\n"
    )
}

#[test]
fn file_name() {
    assert_eq!(FILE_NAME, "99-heq.conf");
}

#[test]
fn chains_per_side() {
    let bands = vec![
        band(FilterKind::Bell, true, ChannelTarget::Both, "1000", "-3", "1.41", &[]),
        band(FilterKind::HighCut, true, ChannelTarget::Left, "8000", "0", "0.7", &["0.5412", "1.3066"]),
        band(FilterKind::Notch, false, ChannelTarget::Right, "50", "0", "30", &[]),
    ];
    let nodes = "          { type = builtin name = heq_l_1 label = linear control = { \"Gain\" = 0.707946 } }\n\
                 \x20         { type = builtin name = heq_l_2 label = bq_peaking control = { \"Freq\" = 1000 \"Q\" = 1.41 \"Gain\" = -3 } }\n\
                 \x20         { type = builtin name = heq_l_3 label = bq_lowpass control = { \"Freq\" = 8000 \"Q\" = 0.5412 } }\n\
                 \x20         { type = builtin name = heq_l_4 label = bq_lowpass control = { \"Freq\" = 8000 \"Q\" = 1.3066 } }\n\
                 \x20         { type = builtin name = heq_r_1 label = linear control = { \"Gain\" = 0.707946 } }\n\
                 \x20         { type = builtin name = heq_r_2 label = bq_peaking control = { \"Freq\" = 1000 \"Q\" = 1.41 \"Gain\" = -3 } }\n";
    let links = "          { output = \"heq_l_1:Out\" input = \"heq_l_2:In\" }\n\
                 \x20         { output = \"heq_l_2:Out\" input = \"heq_l_3:In\" }\n\
                 \x20         { output = \"heq_l_3:Out\" input = \"heq_l_4:In\" }\n\
                 \x20         { output = \"heq_r_1:Out\" input = \"heq_r_2:In\" }\n";
    assert_eq!(
        build_config(false, Some("0.707946"), &bands),
        document(nodes, links, "heq_l_1:In", "heq_r_1:In", "heq_l_4:Out", "heq_r_2:Out")
    );
}

#[test]
fn bypass_is_a_copy_on_each_side() {
    let bands = vec![band(FilterKind::Bell, true, ChannelTarget::Both, "1000", "-3", "1.41", &[])];
    let nodes = "          { type = builtin name = heq_l_1 label = copy control = {  } }\n\
                 \x20         { type = builtin name = heq_r_1 label = copy control = {  } }\n";
    assert_eq!(
        build_config(true, Some("0.5"), &bands),
        document(nodes, "", "heq_l_1:In", "heq_r_1:In", "heq_l_1:Out", "heq_r_1:Out")
    );
}

#[test]
fn shelves_and_passes() {
    let bands = vec![
        band(FilterKind::LowShelf, true, ChannelTarget::Right, "100", "4", "0.7", &[]),
        band(FilterKind::AllPass, true, ChannelTarget::Right, "500", "0", "0.5", &[]),
    ];
    let nodes = "          { type = builtin name = heq_l_1 label = copy control = {  } }\n\
                 \x20         { type = builtin name = heq_r_1 label = bq_lowshelf control = { \"Freq\" = 100 \"Q\" = 0.7 \"Gain\" = 4 } }\n\
                 \x20         { type = builtin name = heq_r_2 label = bq_allpass control = { \"Freq\" = 500 \"Q\" = 0.5 } }\n";
    let links = "          { output = \"heq_r_1:Out\" input = \"heq_r_2:In\" }\n";
    assert_eq!(
        build_config(false, None, &bands),
        document(nodes, links, "heq_l_1:In", "heq_r_1:In", "heq_l_1:Out", "heq_r_2:Out")
    );
}

#[test]
fn backend_path_and_status() {
    let mut b = PipeWireBackend::new(std::path::PathBuf::from("/tmp/pw/99-heq.conf"));
    assert_eq!(b.path(), &std::path::PathBuf::from("/tmp/pw/99-heq.conf"));
    assert!(!b.status().connected);
    assert_eq!(b.status().message, "not written yet");
    b.record_written();
    assert!(b.status().connected);
    assert_eq!(b.status().message, "written — restart PipeWire to hear it");
}
