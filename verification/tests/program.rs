use platypus_core::rr::{Tag, Talkgroup};
use platypus_core::synthesize::{
    conventional_program_channel, site_frequency, talkgroup_program_channel, ProgramChannel, ProgramSiteFreq,
};

#[test]
fn talkgroups_become_program_channels() {
    let tg = Talkgroup {
        tg_dec: "12345".into(),
        tg_alpha: "CPD Disp".into(),
        tg_descr: "City Police Dispatch".into(),
        tg_mode: "D".into(),
        tags: vec![Tag { tag_id: 2, tag_descr: "Law Dispatch".into() }, Tag { tag_id: 8, tag_descr: "Fire".into() }],
    };
    assert_eq!(
        talkgroup_program_channel(&tg),
        ProgramChannel {
            name: "City Police Dispatch".into(),
            freq_hz: None,
            input_hz: None,
            tgid: Some("12345".into()),
            mode: Some("DIGITAL".into()),
            tone: None,
            service_type: Some(2),
        }
    );
    let bare = Talkgroup { tg_descr: String::new(), tg_mode: "a".into(), tags: vec![], ..tg };
    let ch = talkgroup_program_channel(&bare);
    assert_eq!(ch.name, "CPD Disp");
    assert_eq!(ch.mode.as_deref(), Some("ANALOG"));
    assert_eq!(ch.service_type, None);
    let unknown = Talkgroup { tg_mode: "X".into(), ..bare };
    assert_eq!(talkgroup_program_channel(&unknown).mode, None);
}

#[test]
fn conventional_frequencies_become_program_channels() {
    let tags = [Tag { tag_id: 3, tag_descr: "EMS Dispatch".into() }];
    let ch = conventional_program_channel("EMS", "County EMS", "fmn", "CSQ", &tags, Some(155_340_000), Some(150_000_000));
    assert_eq!(
        ch,
        ProgramChannel {
            name: "County EMS".into(),
            freq_hz: Some(155_340_000),
            input_hz: Some(150_000_000),
            tgid: None,
            mode: Some("NFM".into()),
            tone: Some("CSQ".into()),
            service_type: Some(3),
        }
    );
    let plain = conventional_program_channel("EMS", "", "", "", &[], None, None);
    assert_eq!(plain.name, "EMS");
    assert_eq!(plain.mode, None);
    assert_eq!(plain.tone, None);
    assert_eq!(plain.service_type, None);
    assert_eq!(plain.freq_hz, None);
}

#[test]
fn site_frequencies_mark_control_channels() {
    assert_eq!(site_frequency(851_012_500, "d"), ProgramSiteFreq { freq_hz: 851_012_500, control: true });
    assert_eq!(site_frequency(851_012_500, "a"), ProgramSiteFreq { freq_hz: 851_012_500, control: true });
    assert!(!site_frequency(851_012_500, "").control);
    assert!(!site_frequency(851_012_500, "D").control);
    assert!(!site_frequency(851_012_500, "v").control);
}
