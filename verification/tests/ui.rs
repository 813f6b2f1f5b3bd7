use platypus_core::device::Sds150;
use platypus_core::favorites::AvoidLevel;
use platypus_core::format::{Document, Line, LineEnding};
use platypus_core::extract::{select_systems, Extraction};
use platypus_core::ui::{
    count_channels, dominant_service_type, passing_channels, remove_channels, name_hits, Filter,
    favorites_tree, parse_avoid_target, parse_channel_id, parse_fav_channel_id, parse_system_id, push_json_string,
    record_avoided, record_priority,
};

fn line(fields: &[&str]) -> Line {
    Line { fields: fields.iter().map(|s| s.to_string()).collect(), ending: LineEnding::Crlf }
}

#[test]
fn ids_parse() {
    assert_eq!(parse_channel_id("d0s3c7"), Some((0, 3, 7)));
    assert_eq!(parse_channel_id("d12s0c0"), Some((12, 0, 0)));
    assert_eq!(parse_channel_id("s3c7"), None);
    assert_eq!(parse_channel_id("d0s3"), None);
    assert_eq!(parse_channel_id("dxs3c7"), None);
    assert_eq!(parse_fav_channel_id("s3c7"), Some((3, 7)));
    assert_eq!(parse_fav_channel_id("s3"), None);
    assert_eq!(parse_system_id("d2s5"), Some((2, 5)));
    assert_eq!(parse_system_id("d2"), None);
}

#[test]
fn avoid_targets_parse() {
    assert_eq!(parse_avoid_target("s3"), Some((3, AvoidLevel::System, 0)));
    assert_eq!(parse_avoid_target("s3g1"), Some((3, AvoidLevel::Group, 1)));
    assert_eq!(parse_avoid_target("s3c7"), Some((3, AvoidLevel::Channel, 7)));
    assert_eq!(parse_avoid_target("s3gx"), None);
    assert_eq!(parse_avoid_target("x3"), None);
    assert_eq!(parse_avoid_target("s"), None);
}

#[test]
fn json_strings_are_escaped() {
    let mut out = String::new();
    push_json_string(&mut out, "a\"b\\c\nd\re\tf\u{1}g");
    assert_eq!(out, "\"a\\\"b\\\\c\\nd\\re\\tf\\u0001g\"");
    let mut plain = String::from("x:");
    push_json_string(&mut plain, "Fire Disp");
    assert_eq!(plain, "x:\"Fire Disp\"");
}

#[test]
fn flags_read_on_in_any_case() {
    let profile = Sds150::new();
    let tg = line(&["TGID", "", "", "Disp", "on", "100", "", "", "", "", "", "", "", "", "", "ON", ""]);
    assert!(record_avoided(&tg, &profile));
    assert!(record_priority(&tg, &profile));
    let tg2 = line(&["TGID", "", "", "Disp", "Off", "100"]);
    assert!(!record_avoided(&tg2, &profile));
    assert!(!record_priority(&tg2, &profile));
}

#[test]
fn favorites_tree_groups_channels_under_departments() {
    let profile = Sds150::new();
    let doc = Document {
        lines: vec![
            line(&["TargetModel", "BCDx36HP"]),
            line(&["Trunk", "", "", "SAFE-T", "Off", "", "P25Standard"]),
            line(&["TGID", "", "", "Loose", "Off", "999"]),
            line(&["T-Group", "", "", "Alpha County", "On"]),
            line(&["TGID", "", "", "PD Disp", "Off", "1001", "DIGITAL", "3"]),
            line(&["Conventional", "", "", "Local FD"]),
            line(&["C-Group", "", "", "Fire"]),
            line(&["C-Freq", "", "", "Dispatch", "Off", "154000000", "NFM"]),
        ],
    };
    let tree = favorites_tree(&doc, &profile);
    assert_eq!(tree.len(), 2);
    let t = &tree[0];
    assert_eq!((t.id.as_str(), t.name.as_str(), t.kind.as_str()), ("s0", "SAFE-T", "Trunk"));
    assert_eq!(t.tech.as_deref(), Some("P25Standard"));
    assert!(!t.avoid);
    assert_eq!(t.groups.len(), 2);
    // A channel before any department lands in an unnamed group.
    assert_eq!((t.groups[0].id.as_str(), t.groups[0].name.as_str()), ("s0g0", ""));
    assert_eq!(t.groups[0].channels[0].id, "s0c0");
    assert_eq!(t.groups[0].channels[0].tgid.as_deref(), Some("999"));
    let g = &t.groups[1];
    assert_eq!((g.id.as_str(), g.name.as_str(), g.avoid), ("s0g1", "Alpha County", true));
    let c = &g.channels[0];
    assert_eq!((c.id.as_str(), c.name.as_str()), ("s0c1", "PD Disp"));
    assert_eq!(c.mode.as_deref(), Some("DIGITAL"));
    assert_eq!(c.service_type, Some(3));
    let f = &tree[1].groups[0].channels[0];
    assert_eq!((f.id.as_str(), f.freq_hz), ("s1c0", Some(154_000_000)));
    assert!(f.settings.iter().any(|(k, v)| k == "modulation" && v == "NFM"));
}

fn library_doc() -> Document {
    Document {
        lines: vec![
            line(&["TargetModel", "BCDx36HP"]),
            line(&["Trunk", "TrunkId=1", "StateId=1", "SAFE-T", "Off", "", "P25Standard"]),
            line(&["AreaCounty", "TrunkId=1", "CountyId=5"]),
            line(&["T-Group", "TGroupId=1", "TrunkId=1", "Alpha County"]),
            line(&["TGID", "Tid=1", "TGroupId=1", "PD Disp", "Off", "1001", "DIGITAL", "3"]),
            line(&["TGID", "Tid=2", "TGroupId=1", "Fire Disp", "Off", "1002", "DIGITAL", "2"]),
            line(&["TGID", "Tid=3", "TGroupId=1", "EMS Tac", "Off", "1003", "DIGITAL", "3"]),
            line(&["Conventional", "CountyId=6", "StateId=1", "Local FD", "Off", "", "Conventional"]),
            line(&["C-Group", "CGroupId=1", "CountyId=6", "Fire"]),
            line(&["C-Freq", "CFreqId=1", "CGroupId=1", "Dispatch", "Off", "154000000", "NFM", "", "2"]),
        ],
    }
}

#[test]
fn selectors_pick_systems() {
    let profile = Sds150::new();
    let d = library_doc();
    assert_eq!(select_systems(&d, &profile, "all").unwrap().to_bytes(), d.to_bytes());
    let c = select_systems(&d, &profile, "county:5").unwrap();
    assert!(c.lines.iter().any(|l| l.field(3) == Some("SAFE-T")));
    assert!(!c.lines.iter().any(|l| l.field(3) == Some("Local FD")));
    let t = select_systems(&d, &profile, "tech:P25").unwrap();
    assert_eq!(t.lines.iter().filter(|l| l.command() == "Trunk").count(), 1);
    assert_eq!(t.lines.iter().filter(|l| l.command() == "Conventional").count(), 0);
    let n = select_systems(&d, &profile, "name:Local").unwrap();
    assert_eq!(n.lines.iter().filter(|l| l.command() == "Conventional").count(), 1);
    assert!(select_systems(&d, &profile, "county:x").is_none());
    assert!(select_systems(&d, &profile, "zip:1").is_none());
    assert!(select_systems(&d, &profile, "bogus").is_none());
}

#[test]
fn catalog_filter_passes_channels() {
    let profile = Sds150::new();
    let d = library_doc();
    let ext = Extraction::segment(&d, &profile);
    let systems = ext.systems();
    let f = Filter::parse("3, x,", " P25 ,,", "  ");
    assert_eq!(f.services, vec![3]);
    assert_eq!(f.techs, vec!["p25".to_string()]);
    assert_eq!(f.search, "");
    assert!(f.system_tech_ok(&systems[0]));
    assert!(!f.system_tech_ok(&systems[1]));
    assert_eq!(count_channels(&systems[0], &profile, &f), 2);
    assert_eq!(passing_channels(&systems[0], &profile, &f), vec![0, 2]);
    let g = Filter::parse("", "analog", "fire");
    assert!(g.system_tech_ok(&systems[1]));
    assert!(!name_hits(&systems[0], &g));
    assert_eq!(passing_channels(&systems[0], &profile, &g), vec![1]);
    // The system name matches, so all its channels pass.
    let h = Filter::parse("", "", "LOCAL");
    assert!(name_hits(&systems[1], &h));
    assert_eq!(count_channels(&systems[1], &profile, &h), 1);
    assert_eq!(count_channels(&systems[0], &profile, &Filter::all()), 3);
    assert_eq!(dominant_service_type(&systems[0], &profile, &[0, 1, 2]), Some(3));
    assert_eq!(dominant_service_type(&systems[0], &profile, &[1]), Some(2));
    assert_eq!(dominant_service_type(&systems[0], &profile, &[]), None);
}

#[test]
fn removing_channels_drops_emptied_systems() {
    let profile = Sds150::new();
    let d = library_doc();
    let r = remove_channels(&d, &profile, "s0c1, s1c0,junk,");
    let names: Vec<&str> = r.lines.iter().filter(|l| l.command() == "TGID").map(|l| l.field(3).unwrap()).collect();
    assert_eq!(names, vec!["PD Disp", "EMS Tac"]);
    assert!(!r.lines.iter().any(|l| l.command() == "Conventional"));
    assert_eq!(r.lines[0].command(), "TargetModel");
    // Nothing removed: every channel and its scaffolding stays.
    let same = remove_channels(&d, &profile, "");
    assert_eq!(same.lines.iter().filter(|l| l.command() == "TGID").count(), 3);
    assert_eq!(same.lines.iter().filter(|l| l.command() == "C-Freq").count(), 1);
}

#[test]
fn tree_ids_read_back() {
    let profile = Sds150::new();
    let tree = favorites_tree(&library_doc(), &profile);
    let g = &tree[0].groups[0];
    assert_eq!(parse_avoid_target(&tree[0].id), Some((0, AvoidLevel::System, 0)));
    assert_eq!(parse_avoid_target(&g.id), Some((0, AvoidLevel::Group, 0)));
    let c = &g.channels[2];
    assert_eq!(parse_avoid_target(&c.id), Some((0, AvoidLevel::Channel, 2)));
    assert_eq!(parse_fav_channel_id(&c.id), Some((0, 2)));
    assert_eq!(parse_fav_channel_id(&tree[1].groups[0].channels[0].id), Some((1, 0)));
}

#[test]
fn favorites_tree_renders_as_json() {
    let profile = Sds150::new();
    let doc = Document {
        lines: vec![
            line(&["TargetModel", "BCDx36HP"]),
            line(&["Conventional", "", "", "Local \"FD\""]),
            line(&["C-Group", "", "", "Fire"]),
            line(&["C-Freq", "", "", "Dispatch", "Off", "154000000", "NFM", "", "2"]),
        ],
    };
    let json = platypus_core::ui::favorites_tree_json(&doc, &profile);
    assert_eq!(
        json,
        "[{\"id\":\"s0\",\"name\":\"Local \\\"FD\\\"\",\"kind\":\"Conventional\",\"tech\":null,\"avoid\":false,\
\"groups\":[{\"id\":\"s0g0\",\"name\":\"Fire\",\"avoid\":false,\"channels\":[{\"id\":\"s0c0\",\"name\":\"Dispatch\",\
\"tgid\":null,\"freqHz\":154000000,\"mode\":\"NFM\",\"serviceType\":2,\"tone\":null,\"avoid\":false,\"priority\":false,\
\"settings\":{\"modulation\":\"NFM\"}}]}]}]"
    );
    assert_eq!(platypus_core::ui::favorites_tree_json(&Document { lines: vec![] }, &profile), "[]");
}
