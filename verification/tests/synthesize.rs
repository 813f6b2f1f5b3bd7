use platypus_core::device::Sds150;
use platypus_core::format::Document;
use platypus_core::provider::SystemKind;
use platypus_core::synthesize::{
    synthesize_favorites, ProgramChannel, ProgramGeo, ProgramGroup, ProgramSite, ProgramSiteFreq, ProgramSystem,
};

fn geo(lat: &str, lon: &str, range: &str) -> Option<ProgramGeo> {
    Some(ProgramGeo { lat: lat.into(), lon: lon.into(), range_mi: range.into() })
}

// The programmable form of a statewide P25 Phase II system (one site, one
// talkgroup) and a conventional county fire system (one subcategory, one
// frequency), as mapped from RadioReference.
fn p25() -> ProgramSystem {
    ProgramSystem {
        name: "Statewide P25".into(),
        kind: SystemKind::Trunk,
        tech: Some("P25Phase2".into()),
        county_ids: vec![9001],
        state_ids: vec![90],
        sites: vec![ProgramSite {
            name: "Hilltop".into(),
            geo: geo("45.100000", "-122.100000", "25.0"),
            frequencies: vec![
                ProgramSiteFreq { freq_hz: 851_012_500, control: true },
                ProgramSiteFreq { freq_hz: 851_262_500, control: false },
            ],
        }],
        groups: vec![ProgramGroup {
            name: "Statewide P25".into(),
            geo: geo("45.000000", "-122.000000", "30.0"),
            channels: vec![ProgramChannel {
                name: "City Police Dispatch".into(),
                freq_hz: None,
                input_hz: None,
                tgid: Some("12345".into()),
                mode: Some("DIGITAL".into()),
                tone: None,
                service_type: Some(2),
            }],
        }],
    }
}

fn conventional() -> ProgramSystem {
    ProgramSystem {
        name: "County Fire".into(),
        kind: SystemKind::Conventional,
        tech: Some("Conventional".into()),
        county_ids: vec![9003],
        state_ids: vec![90],
        sites: vec![],
        groups: vec![ProgramGroup {
            name: "Fire/EMS".into(),
            geo: geo("44.000000", "-121.000000", "10.0"),
            channels: vec![ProgramChannel {
                name: "Fireground 1".into(),
                freq_hz: Some(154_265_000),
                input_hz: None,
                tgid: None,
                mode: Some("NFM".into()),
                tone: Some("TONE=C131.8".into()),
                service_type: Some(8),
            }],
        }],
    }
}

fn count(doc: &Document, cmd: &str) -> Option<usize> {
    doc.command_counts().into_iter().find(|(c, _)| c == cmd).map(|(_, n)| n)
}

#[test]
fn synthesized_favorites_round_trip_and_are_well_formed() {
    let profile = Sds150::new();
    let doc = synthesize_favorites(&[p25(), conventional()], &profile, false);

    // The serialized form is stable + parseable.
    let bytes = doc.to_bytes();
    let reparsed = Document::parse(&bytes).expect("synthesized favorites parse");
    assert_eq!(reparsed.to_bytes(), bytes);

    // The right records got emitted (trunk + conventional vocabulary).
    for cmd in ["Trunk", "Site", "T-Freq", "T-Group", "TGID", "Conventional", "C-Group", "C-Freq"] {
        assert!(count(&doc, cmd).unwrap_or(0) > 0, "missing {cmd}");
    }
    // One DQKs_Status synthesized per system (2 systems).
    assert_eq!(count(&doc, "DQKs_Status"), Some(2));
    // Favorites carry no area tagging.
    assert_eq!(count(&doc, "AreaState"), None);

    // Favorites dialect: hierarchical records blank id@1 / parent@2.
    for line in &doc.lines {
        if matches!(
            line.command(),
            "Trunk" | "Conventional" | "Site" | "T-Group" | "C-Group" | "TGID" | "C-Freq" | "T-Freq"
        ) {
            assert_eq!(line.field(1), Some(""), "{} id not blanked", line.command());
            assert_eq!(line.field(2), Some(""), "{} parent not blanked", line.command());
        }
    }

    // The control-channel lock defaults on T-Freq (col4=Off, col6=0).
    let tfreq = doc.lines.iter().find(|l| l.command() == "T-Freq").unwrap();
    assert_eq!(tfreq.field(4), Some("Off"));
    assert_eq!(tfreq.field(6), Some("0"));

    // A conventional channel kept its frequency + tone + mode + service type.
    let cfreq = doc.lines.iter().find(|l| l.command() == "C-Freq").unwrap();
    assert_eq!(cfreq.field(5), Some("154265000"));
    assert_eq!(cfreq.field(6), Some("NFM"));
    assert_eq!(cfreq.field(7), Some("TONE=C131.8"));
    assert_eq!(cfreq.field(8), Some("8"));

    // A talkgroup kept its decimal id + digital audio type + service type.
    let tgid = doc.lines.iter().find(|l| l.command() == "TGID").unwrap();
    assert_eq!(tgid.field(5), Some("12345"));
    assert_eq!(tgid.field(6), Some("DIGITAL"));
    assert_eq!(tgid.field(7), Some("2"));
}

#[test]
fn synthesized_records_carry_layout_and_geo() {
    let profile = Sds150::new();
    let doc = synthesize_favorites(&[conventional()], &profile, true);
    assert_eq!(doc.lines[0].fields, vec!["TargetModel", "BCDx36HP"]);
    assert_eq!(doc.lines[1].fields, vec!["FormatVersion", "1.00"]);
    let conv = doc.lines.iter().find(|l| l.command() == "Conventional").unwrap();
    assert_eq!(conv.fields.len(), 15);
    assert_eq!(conv.field(3), Some("County Fire"));
    assert_eq!(conv.field(6), Some("Conventional"));
    let grp = doc.lines.iter().find(|l| l.command() == "C-Group").unwrap();
    assert_eq!(grp.fields.len(), 11);
    assert_eq!(grp.field(3), Some("Fire/EMS"));
    assert_eq!(grp.field(5), Some("44.000000"));
    assert_eq!(grp.field(6), Some("-121.000000"));
    assert_eq!(grp.field(7), Some("10.0"));
    assert_eq!(grp.field(8), Some("Circle"));
    // No systems: just the model header.
    let empty = synthesize_favorites(&[], &profile, false);
    assert_eq!(empty.lines.len(), 2);
}
