use platypus_core::provider::ChannelKind;
use platypus_core::rr::{freq_channel, tech_from_rr, talkgroup_channel, zip_selector, Tag, Talkgroup};
use platypus_core::synthesize::{conventional_mode, talkgroup_mode};

#[test]
fn tech_mapping_known_and_fallback() {
    assert_eq!(tech_from_rr(Some("Project 25"), Some("Phase I")).as_deref(), Some("P25Standard"));
    assert_eq!(tech_from_rr(Some("DMR"), None).as_deref(), Some("MotoTrbo"));
    assert_eq!(tech_from_rr(Some("OpenSky"), None).as_deref(), Some("OpenSky"));
    assert_eq!(tech_from_rr(None, None), None);
}

#[test]
fn phase_two_and_ltr_variants_map() {
    assert_eq!(tech_from_rr(Some("Project 25"), Some("Phase II")).as_deref(), Some("P25Phase2"));
    assert_eq!(tech_from_rr(Some("LTR Passport"), None).as_deref(), Some("Ltr"));
    assert_eq!(tech_from_rr(Some("EDACS"), None).as_deref(), Some("Edacs"));
}

#[test]
fn talkgroups_map_to_channels() {
    let tg = Talkgroup {
        tg_dec: "12345".into(),
        tg_alpha: "CPD Disp".into(),
        tg_descr: "City Police Dispatch".into(),
        tg_mode: "D".into(),
        tags: vec![Tag { tag_id: 2, tag_descr: "Law Dispatch".into() }],
    };
    let ch = talkgroup_channel(&tg);
    assert_eq!(ch.kind, ChannelKind::Talkgroup);
    assert_eq!(ch.name, "City Police Dispatch");
    assert_eq!(ch.tgid.as_deref(), Some("12345"));
    assert_eq!(ch.mode.as_deref(), Some("D"));
    assert_eq!(ch.service_type, Some(2));
    let bare = Talkgroup { tg_descr: String::new(), tg_mode: String::new(), tags: vec![], ..tg };
    let ch = talkgroup_channel(&bare);
    assert_eq!(ch.name, "CPD Disp");
    assert_eq!(ch.mode, None);
    assert_eq!(ch.service_type, None);
}

#[test]
fn modes_normalize_to_the_card_vocabulary() {
    assert_eq!(conventional_mode("fmn").as_deref(), Some("NFM"));
    assert_eq!(conventional_mode("FM").as_deref(), Some("FM"));
    assert_eq!(conventional_mode("am").as_deref(), Some("AM"));
    assert_eq!(conventional_mode("usb").as_deref(), Some("USB"));
    assert_eq!(conventional_mode(""), None);
    assert_eq!(talkgroup_mode("a").as_deref(), Some("ANALOG"));
    assert_eq!(talkgroup_mode("T").as_deref(), Some("DIGITAL"));
    assert_eq!(talkgroup_mode("x"), None);
}

#[test]
fn freq_channel_prefers_description_and_drops_empty_fields() {
    let tags = vec![Tag { tag_id: 3, tag_descr: "Fire Dispatch".into() }];
    let c = freq_channel("FD1", "Fire Dispatch Main", "FMN", "", &tags, Some(154_430_000));
    assert_eq!(c.name, "Fire Dispatch Main");
    assert_eq!(c.kind, ChannelKind::Frequency);
    assert_eq!(c.freq_hz, Some(154_430_000));
    assert_eq!(c.tgid, None);
    assert_eq!(c.mode.as_deref(), Some("FMN"));
    assert_eq!(c.tone, None);
    assert_eq!(c.service_type, Some(3));
    let d = freq_channel("FD1", "", "", "CSQ", &[], None);
    assert_eq!(d.name, "FD1");
    assert_eq!(d.mode, None);
    assert_eq!(d.tone.as_deref(), Some("CSQ"));
    assert_eq!(d.service_type, None);
}

#[test]
fn zip_selector_reads_the_code() {
    assert_eq!(zip_selector("zip:90210"), Ok(90210));
    assert_eq!(zip_selector("zip: 02134 "), Ok(2134));
    assert_eq!(zip_selector("county:123"), Err("unsupported selector: county:123".to_string()));
    assert_eq!(zip_selector("zip:abc"), Err("invalid ZIP".to_string()));
    assert_eq!(zip_selector("zip:"), Err("invalid ZIP".to_string()));
}
