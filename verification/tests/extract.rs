use std::collections::{BTreeMap, BTreeSet};

use platypus_core::device::Sds150;
use platypus_core::extract::{by_county, is_voice_channel, keep_near_groups, Extraction};
use platypus_core::favorites;
use platypus_core::format::{Document, Line, LineEnding};
use platypus_core::model::RecordKind;

fn line(fields: &[&str]) -> Line {
    Line { fields: fields.iter().map(|s| s.to_string()).collect(), ending: LineEnding::Crlf }
}

// System 0: P25 trunk — a site (with control freq) + two groups of two talkgroups.
// System 1: conventional — one group of two frequencies.
fn doc() -> Document {
    Document {
        lines: vec![
            line(&["TargetModel", "BCDx36HP"]),
            line(&["FormatVersion", "1.00"]),
            line(&["Trunk", "TrunkId=1", "StateId=1", "SysA", "Off", "", "P25Standard"]),
            line(&["AreaCounty", "TrunkId=1", "CountyId=5"]),
            line(&["Site", "SiteId=1", "TrunkId=1", "SiteOne", "Off", "45.0", "-100.0", "10"]),
            line(&["T-Freq", "TFreqId=1", "SiteId=1", "", "", "851000000"]),
            line(&["T-Group", "TGroupId=1", "TrunkId=1", "PoliceGrp"]),
            line(&["TGID", "Tid=1", "TGroupId=1", "AlphaDisp", "Off", "100"]),
            line(&["TGID", "Tid=2", "TGroupId=1", "AlphaTac", "Off", "101"]),
            line(&["T-Group", "TGroupId=2", "TrunkId=1", "FireGrp"]),
            line(&["TGID", "Tid=3", "TGroupId=2", "BravoFire", "Off", "200"]),
            line(&["TGID", "Tid=4", "TGroupId=2", "BravoGround", "Off", "201"]),
            line(&["Conventional", "CountyId=5", "StateId=1", "SysB"]),
            line(&["C-Group", "CGroupId=1", "CountyId=5", "EmsGrp"]),
            line(&["C-Freq", "CFreqId=1", "CGroupId=1", "EmsAmb", "Off", "154000000"]),
            line(&["C-Freq", "CFreqId=2", "CGroupId=1", "EmsHosp", "Off", "155000000"]),
        ],
    }
}

#[test]
fn keeps_only_selected_channels_with_scaffolding() {
    let profile = Sds150::new();
    let d = doc();
    let ext = Extraction::segment(&d, &profile);
    let mut keep = BTreeMap::new();
    keep.insert(0usize, BTreeSet::from([0usize, 2]));
    keep.insert(1usize, BTreeSet::from([1usize]));
    let s = String::from_utf8(ext.subset_channels(&keep).to_bytes()).unwrap();

    for kept in ["AlphaDisp", "BravoFire", "EmsHosp"] {
        assert!(s.contains(kept), "missing {kept}");
    }
    for dropped in ["AlphaTac", "BravoGround", "EmsAmb"] {
        assert!(!s.contains(dropped), "should have dropped {dropped}");
    }
    for scaffold in ["TargetModel", "SiteOne", "851000000", "PoliceGrp", "FireGrp", "EmsGrp"] {
        assert!(s.contains(scaffold), "missing scaffold {scaffold}");
    }
}

#[test]
fn drops_groups_with_no_kept_child_and_unselected_systems() {
    let profile = Sds150::new();
    let d = doc();
    let ext = Extraction::segment(&d, &profile);
    let mut keep = BTreeMap::new();
    keep.insert(0usize, BTreeSet::from([0usize]));
    let s = String::from_utf8(ext.subset_channels(&keep).to_bytes()).unwrap();

    assert!(s.contains("PoliceGrp"));
    assert!(s.contains("AlphaDisp"));
    assert!(!s.contains("FireGrp"));
    assert!(!s.contains("BravoFire"));
    assert!(!s.contains("SysB"));
    assert!(!s.contains("EmsHosp"));
}

#[test]
fn subset_feeds_a_complete_favorites_build() {
    let profile = Sds150::new();
    let d = doc();
    let ext = Extraction::segment(&d, &profile);
    let mut keep = BTreeMap::new();
    keep.insert(0usize, BTreeSet::from([0usize]));
    let sub = ext.subset_channels(&keep);
    let fav = favorites::build_favorites(&sub, &profile, false);

    assert!(favorites::is_favorites_dialect(&fav));
    assert!(favorites::has_synthesized_records(&fav, &profile));
    assert_eq!(fav.to_bytes(), Document::parse(&fav.to_bytes()).unwrap().to_bytes());
}

#[test]
fn segments_partition_the_document() {
    let profile = Sds150::new();
    let d = doc();
    let ext = Extraction::segment(&d, &profile);
    assert_eq!(ext.system_count(), 2);
    assert_eq!(ext.preamble_lines().len(), 2);
    let systems = ext.systems();
    assert_eq!(systems[0].lines().len(), 10);
    assert_eq!(systems[1].lines().len(), 4);
    assert_eq!(systems[0].kind(), RecordKind::Trunk);
    assert_eq!(systems[1].kind(), RecordKind::Conventional);
    assert_eq!(systems[0].name(), Some("SysA"));
    assert_eq!(systems[0].tech(), Some("P25Standard"));
    assert!(systems[0].is_p25());
    assert!(!systems[1].is_p25());
    // Selecting every system gives the document back.
    let all = ext.select(|_| true);
    assert_eq!(all.to_bytes(), d.to_bytes());
    let none = ext.select(|_| false);
    assert_eq!(none.lines.len(), 2);
}

#[test]
fn county_ids_come_from_field_two() {
    let profile = Sds150::new();
    let d = doc();
    let ext = Extraction::segment(&d, &profile);
    let systems = ext.systems();
    assert_eq!(systems[0].county_ids(), BTreeSet::from([5u64]));
    assert!(systems[0].is_in_county(5));
    assert!(!systems[0].is_in_county(1)); // field 1 (TrunkId=1) is the owner, not a county
    assert!(systems[1].county_ids().is_empty());
    assert!(!systems[0].is_in_state(1));
    let sel = by_county(&d, &profile, 5);
    assert_eq!(Extraction::segment(&sel, &profile).system_count(), 1);
    assert_eq!(sel.lines.len(), 12);
}

#[test]
fn voice_channels_exclude_control_frequencies() {
    assert!(is_voice_channel("TGID"));
    assert!(is_voice_channel("C-Freq"));
    assert!(!is_voice_channel("T-Freq"));
    assert!(!is_voice_channel("T-Group"));
}

#[test]
fn keep_near_groups_drops_far_parents_with_their_children() {
    let d = doc();
    // Mark the site and the police group far; everything else near.
    let mut near = vec![true; d.lines.len()];
    near[4] = false; // Site
    near[6] = false; // T-Group PoliceGrp
    let out = keep_near_groups(&d, &near);
    let cmds: Vec<&str> = out.lines.iter().map(|l| l.command()).collect();
    assert_eq!(
        cmds,
        vec![
            "TargetModel", "FormatVersion", "Trunk", "AreaCounty", "T-Group", "TGID", "TGID",
            "Conventional", "C-Group", "C-Freq", "C-Freq",
        ]
    );
    assert_eq!(out.lines[4].field(3), Some("FireGrp"));
    // All near: nothing dropped, bytes identical.
    let all = keep_near_groups(&d, &vec![true; d.lines.len()]);
    assert_eq!(all.to_bytes(), d.to_bytes());
}

#[test]
fn keep_near_groups_never_drops_headers() {
    let d = doc();
    let out = keep_near_groups(&d, &vec![false; d.lines.len()]);
    let cmds: Vec<&str> = out.lines.iter().map(|l| l.command()).collect();
    assert_eq!(cmds, vec!["TargetModel", "FormatVersion", "Trunk", "AreaCounty", "Conventional"]);
}

#[test]
fn select_takes_compound_predicates() {
    // The engine hard-codes no filter: any predicate over System metadata works,
    // compound ones included.
    let profile = Sds150::new();
    let d = doc();
    let ext = Extraction::segment(&d, &profile);

    let p25_in_county = ext.select(|s| s.is_in_county(5) && s.is_p25());
    let seg = Extraction::segment(&p25_in_county, &profile);
    assert_eq!(seg.system_count(), 1);
    assert_eq!(seg.systems()[0].name(), Some("SysA"));
    assert_eq!(p25_in_county.lines.len(), 12);

    let either = ext.select(|s| s.kind() == RecordKind::Conventional || s.is_in_county(5));
    assert_eq!(Extraction::segment(&either, &profile).system_count(), 2);
    assert_eq!(either.to_bytes(), d.to_bytes());

    let conventional_in_county = ext.select(|s| s.kind() == RecordKind::Conventional && s.is_in_county(5));
    assert_eq!(Extraction::segment(&conventional_in_county, &profile).system_count(), 0);
    assert_eq!(conventional_in_county.lines, ext.preamble_lines().to_vec());

    let named = ext.select(|s| s.name().is_some_and(|n| n.contains("B")));
    let seg = Extraction::segment(&named, &profile);
    assert_eq!(seg.system_count(), 1);
    assert_eq!(seg.systems()[0].kind(), RecordKind::Conventional);
    assert_eq!(named.lines.len(), 6);
}
