use heq_core::backend::apo::format::{build_config, filter_lines, parse, parse_filter, ForcedQ};
use heq_core::backend::apo::writer::{
    find_include_in, find_include_is_safe, plan_include, plan_include_is_safe, IncludePlan,
    IncludeStatus,
};
use heq_core::backend::apo::install::{device_lines_are_safe, devices_in};
use heq_core::backend::apo::{ApoBackend, ApoDevice, ApoWriter, HEQ_FILE_NAME, MAIN_CONFIG_NAME};
use heq_core::model::band::{BandText, ChannelTarget, FilterKind};

fn band(kind: FilterKind, enabled: bool, channel: ChannelTarget, f: &str, g: &str, q: &str, qs: &[&str]) -> BandText {
    BandText {
        kind,
        enabled,
        channel,
        freq: f.to_string(),
        gain: g.to_string(),
        q: q.to_string(),
        cut_qs: qs.iter().map(|s| s.to_string()).collect(),
    }
}

fn chars(s: &str) -> Vec<char> {
    s.chars().collect()
}

fn device(name: &str) -> ApoDevice {
    ApoDevice { name: Some(name.to_string()), currently_disabled: false }
}

#[test]
fn apo_file_names() {
    assert_eq!(HEQ_FILE_NAME, "heq.txt");
    assert_eq!(MAIN_CONFIG_NAME, "config.txt");
}

#[test]
fn filter_lines_per_shape() {
    let bell = band(FilterKind::Bell, true, ChannelTarget::Both, "1000", "-3", "1.41", &[]);
    assert_eq!(filter_lines(&bell), vec!["Filter: ON PK Fc 1000 Hz Gain -3 dB Q 1.41".to_string()]);
    let shelf = band(FilterKind::HighShelf, false, ChannelTarget::Both, "8000", "2.5", "0.7071", &[]);
    assert_eq!(filter_lines(&shelf), vec!["Filter: OFF HSC Fc 8000 Hz Gain 2.5 dB Q 0.7071".to_string()]);
    let notch = band(FilterKind::Notch, true, ChannelTarget::Both, "50", "4", "30", &[]);
    assert_eq!(filter_lines(&notch), vec!["Filter: ON NO Fc 50 Hz Q 30".to_string()]);
    let cut = band(FilterKind::LowCut, true, ChannelTarget::Both, "80", "0", "1", &["0.5412", "1.3066"]);
    assert_eq!(
        filter_lines(&cut),
        vec![
            "Filter: ON HPQ Fc 80 Hz Q 0.5412".to_string(),
            "Filter: ON HPQ Fc 80 Hz Q 1.3066".to_string(),
        ]
    );
    let lp = band(FilterKind::HighCut, true, ChannelTarget::Both, "9000", "0", "0.7071", &["0.7071"]);
    assert_eq!(filter_lines(&lp), vec!["Filter: ON LPQ Fc 9000 Hz Q 0.7071".to_string()]);
}

#[test]
fn config_partitions_by_channel() {
    let bands = vec![
        band(FilterKind::Bell, true, ChannelTarget::Both, "1000", "-3", "1.41", &[]),
        band(FilterKind::LowCut, true, ChannelTarget::Left, "80", "0", "1", &["0.5412", "1.3066"]),
        band(FilterKind::Notch, false, ChannelTarget::Right, "50", "0", "30", &[]),
        band(FilterKind::LowShelf, true, ChannelTarget::Both, "100", "4", "0.7", &[]),
    ];
    let text = build_config(Some("-3.5"), &bands);
    assert_eq!(
        text,
        "Preamp: -3.5 dB\r\n\
         Filter: ON PK Fc 1000 Hz Gain -3 dB Q 1.41\r\n\
         Filter: ON LSC Fc 100 Hz Gain 4 dB Q 0.7\r\n\
         Channel: L\r\n\
         Filter: ON HPQ Fc 80 Hz Q 0.5412\r\n\
         Filter: ON HPQ Fc 80 Hz Q 1.3066\r\n\
         Channel: R\r\n\
         Filter: OFF NO Fc 50 Hz Q 30\r\n\
         Channel: ALL\r\n"
    );
}

#[test]
fn config_without_preamp_or_sides() {
    let bands = vec![band(FilterKind::AllPass, true, ChannelTarget::Both, "500", "0", "0.7", &[])];
    assert_eq!(build_config(None, &bands), "Filter: ON AP Fc 500 Hz Q 0.7\r\n");
    assert_eq!(build_config(None, &Vec::new()), "");
}

#[test]
fn parse_reads_filters_channels_and_preamp() {
    let text = "Preamp: -6,5 dB\n\
                Filter 1: ON PK Fc 100 Hz Gain 3 dB Q 1\r\n\
                Channel: L\n\
                Filter: OFF LS 6dB Fc 200 Gain -2\n\
                # Filter: ON PK Fc 1 Hz Gain 1 dB Q 1\n\
                Filter: ON XYZ Fc 1\n\
                Filter: NONE\n\
                Channel: all\n\
                Filter: HP Fc 30 Q 5\n\
                Filter: ON PK Fc 1000 Gain 2 BW Oct 0,5\n";
    let r = parse(text);
    assert_eq!(r.preamp.as_deref(), Some("-6.5"));
    assert_eq!(r.warnings, vec!["Skipped unsupported filter type 'XYZ'.".to_string()]);
    assert_eq!(r.filters.len(), 4);

    let f = &r.filters[0];
    assert_eq!(f.kind, FilterKind::Bell);
    assert!(f.enabled);
    assert_eq!(f.channel, ChannelTarget::Both);
    assert_eq!(f.fc.as_deref(), Some("100"));
    assert_eq!(f.gain.as_deref(), Some("3"));
    assert_eq!(f.q.as_deref(), Some("1"));
    assert_eq!(f.bw, None);
    assert_eq!(f.forced_q, None);
    assert!(!f.butterworth);

    let f = &r.filters[1];
    assert_eq!(f.kind, FilterKind::LowShelf);
    assert!(!f.enabled);
    assert_eq!(f.channel, ChannelTarget::Left);
    assert_eq!(f.fc.as_deref(), Some("200"));
    assert_eq!(f.gain.as_deref(), Some("-2"));
    assert_eq!(f.q, None);
    assert_eq!(f.forced_q, Some(ForcedQ::Half));

    let f = &r.filters[2];
    assert_eq!(f.kind, FilterKind::LowCut);
    assert_eq!(f.channel, ChannelTarget::Both);
    assert_eq!(f.q.as_deref(), Some("5"));
    assert!(f.butterworth);

    let f = &r.filters[3];
    assert_eq!(f.bw.as_deref(), Some("0.5"));
    assert_eq!(f.q, None);
}

#[test]
fn parse_keeps_the_last_readable_preamp() {
    let r = parse("Preamp: -3 dB\nPreamp: loud\nPreamp:\n");
    assert_eq!(r.preamp.as_deref(), Some("-3"));
    assert!(r.filters.is_empty());
}

#[test]
fn channel_names() {
    let r = parse("Channel: 2\nFilter: PK Fc 1\nChannel: right\nFilter: PK Fc 2\nChannel: 1\nFilter: PK Fc 3\nChannel: C\nFilter: PK Fc 4\n");
    let chans: Vec<ChannelTarget> = r.filters.iter().map(|f| f.channel).collect();
    assert_eq!(chans, vec![ChannelTarget::Right, ChannelTarget::Right, ChannelTarget::Left, ChannelTarget::Both]);
}

#[test]
fn filter_bodies() {
    assert!(parse_filter(&chars("")).is_none());
    assert!(parse_filter(&chars("ON")).is_none());
    assert!(parse_filter(&chars("off none")).is_none());
    match parse_filter(&chars("ON foo Fc 1")) {
        Some(Err(ty)) => assert_eq!(ty, "FOO"),
        _ => panic!("expected an unsupported type"),
    }
    match parse_filter(&chars("hs 12dB fc 3000 gain abc Gain 1")) {
        Some(Ok(f)) => {
            assert_eq!(f.kind, FilterKind::HighShelf);
            assert!(f.enabled);
            assert_eq!(f.forced_q, Some(ForcedQ::Butterworth));
            assert_eq!(f.fc.as_deref(), Some("3000"));
            assert_eq!(f.gain.as_deref(), Some("1"));
        }
        _ => panic!("expected a filter"),
    }
    match parse_filter(&chars("LPQ\tFc 5e3 Q +0.7")) {
        Some(Ok(f)) => {
            assert_eq!(f.kind, FilterKind::HighCut);
            assert!(!f.butterworth);
            assert_eq!(f.fc.as_deref(), Some("5e3"));
            assert_eq!(f.q.as_deref(), Some("+0.7"));
        }
        _ => panic!("expected a filter"),
    }
}

#[test]
fn written_config_reads_back() {
    let bands = vec![
        band(FilterKind::Bell, true, ChannelTarget::Both, "1000", "-3", "1.41", &[]),
        band(FilterKind::Notch, false, ChannelTarget::Right, "50", "0", "30", &[]),
    ];
    let r = parse(&build_config(Some("-2"), &bands));
    assert_eq!(r.preamp.as_deref(), Some("-2"));
    assert_eq!(r.filters.len(), 2);
    assert_eq!(r.filters[0].kind, FilterKind::Bell);
    assert_eq!(r.filters[0].gain.as_deref(), Some("-3"));
    assert_eq!(r.filters[1].kind, FilterKind::Notch);
    assert_eq!(r.filters[1].channel, ChannelTarget::Right);
    assert!(!r.filters[1].enabled);
}

#[test]
fn device_display() {
    assert_eq!(ApoDevice::all_devices().display(), "All devices");
    assert!(ApoDevice::all_devices().is_all());
    let d = device("Realtek Speakers {0.0.0.00000000}");
    assert!(!d.is_all());
    assert_eq!(d.display(), "Realtek Speakers");
    let off = ApoDevice { name: Some("Headphones".to_string()), currently_disabled: true };
    assert_eq!(off.display(), "Headphones  (disabled)");
    assert_eq!(device("{guid}").display(), "{guid}");
}

#[test]
fn devices_listed_once_each() {
    let text = "Device: Speakers {x}\r\n# Device: Headphones\r\nDevice: all\r\nDevice: speakers {X}\r\n#Device:\r\nPreamp: 1 dB\r\n";
    assert!(device_lines_are_safe(text));
    let ds = devices_in(text);
    assert_eq!(
        ds,
        vec![
            ApoDevice::all_devices(),
            ApoDevice { name: Some("Speakers {x}".to_string()), currently_disabled: false },
            ApoDevice { name: Some("Headphones".to_string()), currently_disabled: true },
        ]
    );
}

#[test]
fn device_probe_that_would_split_a_character() {
    assert!(!device_lines_are_safe("ééééé\n"));
    assert!(device_lines_are_safe("aéééé\n"));
}

#[test]
fn include_found_with_its_device() {
    let text = "Device: Speakers\r\nPreamp: -1 dB\r\nInclude: heq.txt\r\n";
    assert!(find_include_is_safe(text));
    let spot = find_include_in(text);
    assert!(spot.exists);
    assert!(!spot.duplicated);
    assert_eq!(spot.device.as_deref(), Some("Speakers"));
}

#[test]
fn include_twice_quoted_any_case() {
    let text = "Include: \"HEQ.TXT\"\ninclude: heq.txt\n# Device: X\n";
    let spot = find_include_in(text);
    assert!(spot.exists);
    assert!(spot.duplicated);
    assert_eq!(spot.device, None);
}

#[test]
fn no_include() {
    let spot = find_include_in("# Include: heq.txt\nInclude: other.txt\n");
    assert!(!spot.exists);
    assert!(!spot.duplicated);
    assert_eq!(spot.device, None);
}

#[test]
fn include_probe_that_would_split_a_character() {
    assert!(!find_include_is_safe("aéééé\n"));
    assert!(find_include_is_safe("aééé\n"));
}

#[test]
fn existing_include_is_left_alone() {
    let text = "Include: heq.txt\r\nDevice: Speakers\r\n";
    match plan_include(text, Some(&device("Speakers"))) {
        IncludePlan::Done(s) => {
            assert!(s.ok);
            assert!(!s.changed);
            assert_eq!(s.message, None);
        }
        IncludePlan::Write(_) => panic!("an existing include must not move"),
    }
}

#[test]
fn include_goes_first_for_all_devices() {
    let text = "Device: Speakers\nPreamp: -3 dB\n# >>> heq\n# <<< heq\n";
    assert!(plan_include_is_safe(text, None));
    match plan_include(text, None) {
        IncludePlan::Write(t) => assert_eq!(t, "Include: heq.txt\r\nDevice: Speakers\r\nPreamp: -3 dB\r\n"),
        IncludePlan::Done(_) => panic!("expected a write"),
    }
    match plan_include(text, Some(&ApoDevice::all_devices())) {
        IncludePlan::Write(t) => assert_eq!(t, "Include: heq.txt\r\nDevice: Speakers\r\nPreamp: -3 dB\r\n"),
        IncludePlan::Done(_) => panic!("expected a write"),
    }
}

#[test]
fn include_goes_under_its_device() {
    let text = "Device: Headphones\nPreamp: 1 dB\n# Device: Speakers\nDevice: SPEAKERS\nPreamp: -3 dB\n";
    match plan_include(text, Some(&device("speakers"))) {
        IncludePlan::Write(t) => assert_eq!(
            t,
            "Device: Headphones\r\nPreamp: 1 dB\r\n# Device: Speakers\r\nDevice: SPEAKERS\r\nInclude: heq.txt\r\nPreamp: -3 dB\r\n"
        ),
        IncludePlan::Done(_) => panic!("expected a write"),
    }
}

#[test]
fn include_for_a_missing_device() {
    let text = "# Device: Speakers {1}\n";
    match plan_include(text, Some(&device("Speakers {1}"))) {
        IncludePlan::Done(s) => {
            assert!(!s.ok);
            assert!(!s.changed);
            assert_eq!(s.message.as_deref(), Some("Speakers has no active Device line in config.txt."));
        }
        IncludePlan::Write(_) => panic!("expected an error"),
    }
}

#[test]
fn include_into_an_empty_file() {
    match plan_include("", None) {
        IncludePlan::Write(t) => assert_eq!(t, "Include: heq.txt\r\n"),
        IncludePlan::Done(_) => panic!("expected a write"),
    }
}

#[test]
fn include_statuses() {
    let s = IncludeStatus::present();
    assert!(s.ok && !s.changed && s.message.is_none());
    let s = IncludeStatus::added();
    assert!(s.ok && s.changed);
    assert_eq!(s.message.as_deref(), Some("Added Include: heq.txt to config.txt."));
    let s = IncludeStatus::write_failed("denied");
    assert!(!s.ok && !s.changed);
    assert_eq!(s.message.as_deref(), Some("Could not write config.txt: denied"));
}

#[test]
fn apo_writer_paths() {
    let w = ApoWriter::new(std::path::PathBuf::from("/tmp/apo/config"));
    assert_eq!(w.config_dir(), &std::path::PathBuf::from("/tmp/apo/config"));
    assert_eq!(w.heq_path(), std::path::PathBuf::from("/tmp/apo/config/heq.txt"));
    assert_eq!(w.main_config_path(), std::path::PathBuf::from("/tmp/apo/config/config.txt"));
}

#[test]
fn apo_backend_status() {
    let mut b = ApoBackend::new(ApoWriter::new(std::path::PathBuf::from("/x")));
    assert!(!b.status().connected);
    assert_eq!(b.status().message, "not applied yet");

    let spot = find_include_in("Device: Speakers\nInclude: heq.txt\n");
    b.record_applied(&spot);
    assert!(b.status().connected);
    assert_eq!(b.status().message, "applied under Speakers");

    let spot = find_include_in("Include: heq.txt\n");
    b.record_applied(&spot);
    assert_eq!(b.status().message, "applied");

    let spot = find_include_in("Include: heq.txt\nInclude: heq.txt\n");
    b.record_applied(&spot);
    assert!(b.status().connected);
    assert_eq!(b.status().message, "config.txt includes heq.txt more than once");

    let spot = find_include_in("");
    b.record_applied(&spot);
    assert!(!b.status().connected);
    assert_eq!(b.status().message, "config.txt has no Include: heq.txt");

    b.record_write_failed("disk full");
    assert!(!b.status().connected);
    assert_eq!(b.status().message, "write failed: disk full");
    assert_eq!(b.writer().config_dir(), &std::path::PathBuf::from("/x"));
}

#[test]
fn an_added_include_is_found_under_its_device() {
    let text = "Device: Headphones\nPreamp: 1 dB\nDevice: Speakers\nPreamp: -3 dB\n";
    match plan_include(text, Some(&device("Speakers"))) {
        IncludePlan::Write(t) => {
            assert!(find_include_is_safe(&t));
            let spot = find_include_in(&t);
            assert!(spot.exists);
            assert!(!spot.duplicated);
            assert_eq!(spot.device.as_deref(), Some("Speakers"));
            // and planning again leaves it where it is
            assert!(matches!(plan_include(&t, None), IncludePlan::Done(_)));
        }
        IncludePlan::Done(_) => panic!("expected a write"),
    }
}
