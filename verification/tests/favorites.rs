use platypus_core::device::{SdCardProfile, Sds150};
use platypus_core::favorites::{
    build_favorites, has_area_tags, has_synthesized_records, is_favorites_dialect, merge_favorites,
    set_avoid, set_channel_value, set_priority, sort_systems, to_favorites_dialect,
    with_synthesized_bandplan, with_synthesized_dqks, AvoidLevel,
};
use platypus_core::format::{Document, Line, LineEnding};

fn line(fields: &[&str]) -> Line {
    Line {
        fields: fields.iter().map(|s| s.to_string()).collect(),
        ending: LineEnding::Crlf,
    }
}

#[test]
fn blanks_ids_and_drops_area_tags() {
    let doc = Document {
        lines: vec![
            line(&["TargetModel", "BCDx36HP"]),
            line(&["Trunk", "TrunkId=7678", "StateId=11", "American University"]),
            line(&["AreaState", "CountyId=315", "StateId=11"]),
            line(&["AreaCounty", "CountyId=315", "CountyId=315"]),
            line(&["Site", "SiteId=22044", "TrunkId=7678", "Anderson Hall"]),
        ],
    };
    let fav = to_favorites_dialect(&doc, &Sds150::new());

    // Area tags gone.
    assert!(!has_area_tags(&fav));
    // Trunk + Site ids blanked, names kept, column count preserved.
    let trunk = &fav.lines[1];
    assert_eq!(trunk.command(), "Trunk");
    assert_eq!(trunk.field(1), Some(""));
    assert_eq!(trunk.field(2), Some(""));
    assert_eq!(trunk.field(3), Some("American University"));
    let site = &fav.lines[2];
    assert_eq!(site.field(1), Some(""));
    assert_eq!(site.field(2), Some(""));
    assert_eq!(site.field(3), Some("Anderson Hall"));
}

#[test]
fn set_avoid_targets_group_channel_system() {
    let profile = Sds150::new();
    // One trunk: 2 departments, each with a channel. Field 4 (index 4) = avoid.
    let doc = Document {
        lines: vec![
            line(&["TargetModel", "BCDx36HP"]),
            line(&["Trunk", "", "", "SAFE-T", "Off", "", "P25Standard"]),
            line(&["T-Group", "", "", "Alpha County", "Off", "0", "0", "0"]),
            line(&["TGID", "", "", "Alpha Disp", "Off", "1001", "FM", "2"]),
            line(&["T-Group", "", "", "Bravo County", "Off", "0", "0", "0"]),
            line(&["TGID", "", "", "Bravo Police", "Off", "1002", "FM", "2"]),
        ],
    };
    // Avoid department 1 (Bravo County).
    let d = set_avoid(&doc, &profile, 0, AvoidLevel::Group, 1, true);
    assert_eq!(d.lines[4].command(), "T-Group");
    assert_eq!(d.lines[4].field(4), Some("On"), "group avoided");
    assert_eq!(d.lines[2].field(4), Some("Off"), "other group untouched");
    assert_eq!(
        d.lines[5].field(4),
        Some("Off"),
        "child channel flag untouched"
    );

    // Avoid channel 0 (EC Disp), then re-enable.
    let d2 = set_avoid(&doc, &profile, 0, AvoidLevel::Channel, 0, true);
    assert_eq!(d2.lines[3].field(4), Some("On"));
    let d3 = set_avoid(&d2, &profile, 0, AvoidLevel::Channel, 0, false);
    assert_eq!(d3.lines[3].field(4), Some("Off"));

    // Avoid the whole system.
    let d4 = set_avoid(&doc, &profile, 0, AvoidLevel::System, 0, true);
    assert_eq!(d4.lines[1].field(4), Some("On"));
}

#[test]
fn set_priority_targets_channel() {
    let profile = Sds150::new();
    // A full-width TGID (17 fields) so the Priority Channel column (15) exists.
    let doc = Document {
        lines: vec![
            line(&["TargetModel", "BCDx36HP"]),
            line(&["Trunk", "", "", "SAFE-T", "Off", "", "P25Standard"]),
            line(&["T-Group", "", "", "Alpha County", "Off", "0", "0", "0"]),
            line(&[
                "TGID",
                "",
                "",
                "Alpha Disp",
                "Off",
                "1001",
                "ALL",
                "2",
                "0",
                "0",
                "Off",
                "Auto",
                "Off",
                "Off",
                "Off",
                "Off",
                "Off",
            ]),
        ],
    };
    // Channel 0 → priority on; avoid (field 4) untouched.
    let d = set_priority(&doc, &profile, 0, 0, true);
    assert_eq!(d.lines[3].command(), "TGID");
    assert_eq!(d.lines[3].field(15), Some("On"), "priority set");
    assert_eq!(d.lines[3].field(4), Some("Off"), "avoid untouched");
    // Toggle back off.
    let d2 = set_priority(&d, &profile, 0, 0, false);
    assert_eq!(d2.lines[3].field(15), Some("Off"));
}

#[test]
fn set_channel_value_sets_delay() {
    let profile = Sds150::new();
    // Full-width TGID so the Delay column (8) exists.
    let doc = Document {
        lines: vec![
            line(&["TargetModel", "BCDx36HP"]),
            line(&["Trunk", "", "", "SAFE-T", "Off", "", "P25Standard"]),
            line(&["T-Group", "", "", "Alpha County", "Off", "0", "0", "0"]),
            line(&[
                "TGID",
                "",
                "",
                "Alpha Disp",
                "Off",
                "1001",
                "ALL",
                "2",
                "2",
                "0",
                "Off",
                "Auto",
                "Off",
                "Off",
                "Off",
                "Off",
                "Off",
            ]),
        ],
    };
    // Channel 0 delay 2 → 5; avoid (4) and TGID (5) untouched.
    let d = set_channel_value(&doc, &profile, 0, 0, "delay", "5");
    assert_eq!(d.lines[3].field(8), Some("5"), "delay set");
    assert_eq!(d.lines[3].field(4), Some("Off"), "avoid untouched");
    assert_eq!(d.lines[3].field(5), Some("1001"), "tgid untouched");
    // Unknown field is a no-op.
    let d2 = set_channel_value(&doc, &profile, 0, 0, "nonesuch", "9");
    assert_eq!(d2.lines[3].field(8), Some("2"), "unknown field no-op");
}

#[test]
fn conversion_is_flagged_incomplete() {
    let doc = Document {
        lines: vec![line(&["Trunk", "TrunkId=1", "StateId=1", "X"])],
    };
    let profile = Sds150::new();
    let fav = to_favorites_dialect(&doc, &profile);
    // to_favorites_dialect alone doesn't add DQKs_Status / BandPlan_P25.
    assert!(!has_synthesized_records(&fav, &profile));
}

#[test]
fn build_favorites_is_complete_for_a_p25_system() {
    let profile = Sds150::new();
    // A P25 trunk (tech at col 6) with a site + an area tag to drop.
    let doc = Document {
        lines: vec![
            line(&["TargetModel", "BCDx36HP"]),
            line(&[
                "Trunk",
                "TrunkId=1",
                "StateId=1",
                "Sys",
                "Off",
                "",
                "P25Standard",
            ]),
            line(&["AreaCounty", "TrunkId=1", "CountyId=5"]),
            line(&[
                "Site",
                "SiteId=2",
                "TrunkId=1",
                "S1",
                "Off",
                "45.0",
                "-100.0",
                "10",
            ]),
            line(&["T-Freq", "TFreqId=0", "SiteId=2", "", "", "851000000"]),
        ],
    };
    let fav = build_favorites(&doc, &profile, true);

    assert!(is_favorites_dialect(&fav)); // area tag dropped
    assert_eq!(
        fav.lines
            .iter()
            .filter(|l| l.command() == "DQKs_Status")
            .count(),
        1
    );
    // No band plan synthesized — adding one stops a real trunk from locking.
    assert_eq!(
        fav.lines
            .iter()
            .filter(|l| l.command() == "BandPlan_P25")
            .count(),
        0
    );
    // ids blanked on the kept records
    let site = fav.lines.iter().find(|l| l.command() == "Site").unwrap();
    assert_eq!(site.field(1), Some(""));
    // now structurally complete, and still byte round-trips
    assert!(has_synthesized_records(&fav, &profile));
    assert_eq!(
        fav.to_bytes(),
        Document::parse(&fav.to_bytes()).unwrap().to_bytes()
    );
}

#[test]
fn bandplan_only_on_p25_not_other_tech() {
    let profile = Sds150::new();
    let doc = Document {
        lines: vec![
            line(&[
                "Trunk",
                "TrunkId=1",
                "StateId=1",
                "DMR",
                "Off",
                "",
                "MotoTrbo",
            ]),
            line(&[
                "Site",
                "SiteId=2",
                "TrunkId=1",
                "S1",
                "Off",
                "45.0",
                "-100.0",
                "10",
            ]),
        ],
    };
    let fav = with_synthesized_bandplan(&doc, &profile);
    assert!(!fav.lines.iter().any(|l| l.command() == "BandPlan_P25"));
}

#[test]
fn bandplan_synthesized_on_p25_site_idempotent_and_roundtrips() {
    let profile = Sds150::new();
    // A P25 trunk (tech at col 6) with one site.
    let doc = Document {
        lines: vec![
            line(&["TargetModel", "BCDx36HP"]),
            line(&[
                "Trunk",
                "TrunkId=1",
                "StateId=1",
                "Sys",
                "Off",
                "",
                "P25Standard",
            ]),
            line(&[
                "Site",
                "SiteId=2",
                "TrunkId=1",
                "S1",
                "Off",
                "45.0",
                "-100.0",
                "10",
            ]),
        ],
    };
    let out = with_synthesized_bandplan(&doc, &profile);

    // Exactly one band plan, inserted immediately after the Site.
    assert_eq!(
        out.lines
            .iter()
            .filter(|l| l.command() == "BandPlan_P25")
            .count(),
        1
    );
    let site_idx = out
        .lines
        .iter()
        .position(|l| l.command() == "Site")
        .unwrap();
    assert_eq!(out.lines[site_idx + 1].command(), "BandPlan_P25");
    // The synthesized record carries the model's standard P25 plan.
    let plan = profile.standard_p25_bandplan().unwrap();
    let synthesized: Vec<&str> = out.lines[site_idx + 1].fields[1..]
        .iter()
        .map(String::as_str)
        .collect();
    assert_eq!(synthesized, plan);

    // Idempotent: an already-present band plan is not duplicated.
    let again = with_synthesized_bandplan(&out, &profile);
    assert_eq!(again.lines.len(), out.lines.len());
    assert_eq!(
        again
            .lines
            .iter()
            .filter(|l| l.command() == "BandPlan_P25")
            .count(),
        1
    );

    // Still byte round-trips.
    assert_eq!(
        out.to_bytes(),
        Document::parse(&out.to_bytes()).unwrap().to_bytes()
    );
}

#[test]
fn sort_systems_reorders_by_name_keeping_children_and_roundtrips() {
    let profile = Sds150::new();
    // Preamble + two systems out of order, each with a distinct child channel.
    let doc = Document {
        lines: vec![
            line(&["TargetModel", "BCDx36HP"]),
            line(&["Conventional", "", "", "Bravo System"]),
            line(&["C-Group", "", "", "Bravo Group"]),
            line(&["C-Freq", "", "", "Bravo Ch", "Off", "154000000"]),
            line(&["Conventional", "", "", "Alpha System"]),
            line(&["C-Group", "", "", "Alpha Group"]),
            line(&["C-Freq", "", "", "Alpha Ch", "Off", "155000000"]),
        ],
    };
    let sorted = sort_systems(&doc, &profile);

    // Preamble stays first.
    assert_eq!(sorted.lines[0].command(), "TargetModel");
    // System headers now alphabetical: Alpha before Bravo.
    let headers: Vec<&str> = sorted
        .lines
        .iter()
        .filter(|l| l.command() == "Conventional")
        .map(|l| l.field(3).unwrap())
        .collect();
    assert_eq!(headers, ["Alpha System", "Bravo System"]);
    // Each system's children stay attached to it: the Alpha header is
    // immediately followed by its group and channel, then Bravo's.
    let alpha = sorted
        .lines
        .iter()
        .position(|l| l.field(3) == Some("Alpha System"))
        .unwrap();
    assert_eq!(sorted.lines[alpha + 1].field(3), Some("Alpha Group"));
    assert_eq!(sorted.lines[alpha + 2].field(3), Some("Alpha Ch"));

    // No lines lost, and it still byte round-trips.
    assert_eq!(sorted.lines.len(), doc.lines.len());
    assert_eq!(
        sorted.to_bytes(),
        Document::parse(&sorted.to_bytes()).unwrap().to_bytes()
    );
}

#[test]
fn fills_favorites_field_defaults() {
    let profile = Sds150::new();
    let doc = Document {
        lines: vec![
            line(&[
                "Trunk",
                "TrunkId=1",
                "StateId=1",
                "Sys",
                "Off",
                "",
                "P25Standard",
            ]),
            line(&[
                "Site",
                "SiteId=2",
                "TrunkId=1",
                "S1",
                "Off",
                "45.0",
                "-100.0",
                "10",
            ]),
            line(&[
                "T-Freq",
                "TFreqId=0",
                "SiteId=2",
                "",
                "",
                "851000000",
                "1",
                "Srch",
                "Any",
            ]),
        ],
    };
    let fav = to_favorites_dialect(&doc, &profile);

    // The control-channel default that makes a trunk lock (was blank).
    let tfreq = fav.lines.iter().find(|l| l.command() == "T-Freq").unwrap();
    assert_eq!(tfreq.field(4), Some("Off"));
    // Trunk scan-setting defaults.
    let trunk = fav.lines.iter().find(|l| l.command() == "Trunk").unwrap();
    assert_eq!(trunk.field(11), Some("Srch"));
    assert_eq!(trunk.field(20), Some("On"));
    // Site defaults.
    let site = fav.lines.iter().find(|l| l.command() == "Site").unwrap();
    assert_eq!(site.field(13), Some("400"));
}

#[test]
fn merge_dedupes_channels_and_appends_new_systems() {
    let profile = Sds150::new();
    let base = Document {
        lines: vec![
            line(&["TargetModel", "BCDx36HP"]),
            line(&["Trunk", "", "", "SAFE-T", "Off", "", "P25Standard"]),
            line(&["T-Group", "", "", "Alpha County"]),
            line(&["TGID", "", "", "PD Disp", "Off", "1001"]),
        ],
    };
    // Addition: same SAFE-T (the existing TG 1001 + a NEW TG 1002), plus a
    // brand-new system.
    let addition = Document {
        lines: vec![
            line(&["TargetModel", "BCDx36HP"]),
            line(&["Trunk", "", "", "SAFE-T", "Off", "", "P25Standard"]),
            line(&["T-Group", "", "", "Alpha County"]),
            line(&["TGID", "", "", "PD Disp", "Off", "1001"]),
            line(&["TGID", "", "", "Fire Disp", "Off", "1002"]),
            line(&["Conventional", "", "", "Local FD"]),
            line(&["C-Group", "", "", "Fire"]),
            line(&["C-Freq", "", "", "Dispatch", "Off", "154000000"]),
        ],
    };
    let merged = merge_favorites(&base, &addition, &profile);
    let s = String::from_utf8(merged.to_bytes()).unwrap();

    // SAFE-T appears once (no duplicate system).
    assert_eq!(s.matches("\tSAFE-T\t").count(), 1);
    // The pre-existing talkgroup isn't duplicated; the new one was added.
    assert_eq!(s.matches("1001").count(), 1);
    assert!(s.contains("1002"));
    // The genuinely new system was appended whole.
    assert!(s.contains("Local FD"));
    assert!(s.contains("154000000"));
    // Still round-trips.
    assert_eq!(
        merged.to_bytes(),
        Document::parse(&merged.to_bytes()).unwrap().to_bytes()
    );
}

#[test]
fn synthesizes_one_dqks_per_system() {
    let profile = Sds150::new();
    let doc = Document {
        lines: vec![
            line(&["TargetModel", "BCDx36HP"]),
            line(&["Conventional", "", "", "Alpha County"]),
            line(&["C-Group", "", "", "Schools"]),
            line(&["Trunk", "", "", "SAFE-T"]),
            line(&["Site", "", "", "Primary"]),
        ],
    };
    let out = with_synthesized_dqks(&doc, &profile, true);

    // Exactly one DQKs_Status per system, each immediately after its header.
    assert_eq!(out.lines[1].command(), "Conventional");
    assert_eq!(out.lines[2].command(), "DQKs_Status");
    assert_eq!(
        out.lines
            .iter()
            .filter(|l| l.command() == "DQKs_Status")
            .count(),
        2
    );
    // Structure: 102 fields, blank id, 100 uniform slots.
    let d = &out.lines[2];
    assert_eq!(d.fields.len(), 102);
    assert_eq!(d.field(1), Some(""));
    assert!(d.fields[2..].iter().all(|v| v == "On"));

    // Idempotent: re-running adds nothing.
    let again = with_synthesized_dqks(&out, &profile, true);
    assert_eq!(again.lines.len(), out.lines.len());
}

#[test]
fn standard_bandplan_is_available_and_well_formed() {
    let bp = Sds150::new().standard_p25_bandplan().unwrap();
    assert_eq!(bp.len(), 49); // fields after the BandPlan_P25 command
    assert_eq!(bp[0], ""); // blank MyId column
    assert_eq!(bp[1], "851006250"); // P25 800 MHz base
}

#[test]
fn merging_a_list_into_itself_adds_nothing() {
    let profile = Sds150::new();
    let doc = Document {
        lines: vec![
            line(&["TargetModel", "BCDx36HP"]),
            line(&["Trunk", "", "", "SAFE-T", "Off", "", "P25Standard"]),
            line(&["T-Group", "", "", "Alpha County"]),
            line(&["TGID", "", "", "PD Disp", "Off", "1001"]),
            line(&["TGID", "", "", "Fire Disp", "Off", "1002"]),
            line(&["Conventional", "", "", "Local FD"]),
            line(&["C-Group", "", "", "Fire"]),
            line(&["C-Freq", "", "", "Dispatch", "Off", "154000000"]),
        ],
    };
    let merged = merge_favorites(&doc, &doc, &profile);
    assert_eq!(merged.to_bytes(), doc.to_bytes());
}
