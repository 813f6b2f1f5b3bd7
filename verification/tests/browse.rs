use platypus_core::browse::{county_channels_json, library_catalog_json, library_channels_json, system_rows_json};
use platypus_core::device::Sds150;
use platypus_core::format::{Document, Line, LineEnding};
use platypus_core::library::{department_channels, SystemPlacement};
use platypus_core::ui::Filter;
use std::collections::BTreeSet;

fn line(fields: &[&str]) -> Line {
    Line { fields: fields.iter().map(|s| s.to_string()).collect(), ending: LineEnding::Crlf }
}

fn library() -> Vec<Document> {
    vec![Document {
        lines: vec![
            line(&["TargetModel", "BCDx36HP"]),
            line(&["Trunk", "TrunkId=7", "StateId=11", "Metro PD", "Off", "", "P25Standard"]),
            line(&["AreaState", "TrunkId=7", "StateId=11"]),
            line(&["Site", "SiteId=1", "TrunkId=7", "North"]),
            line(&["T-Group", "TGroupId=1", "TrunkId=7", "Police", "Off", "0", "0", "0"]),
            line(&["TGID", "Tid=1", "TGroupId=1", "Disp", "Off", "1001", "FM", "3"]),
            line(&["TGID", "Tid=2", "TGroupId=1", "Tac", "Off", "1002", "", "2"]),
            line(&["Conventional", "AgencyId=2", "StateId=11", "Fire", "Off", "", "Conventional"]),
            line(&["C-Group", "CGroupId=1", "AgencyId=2", "Station 1", "Off", "0", "0", "0"]),
            line(&["C-Freq", "CFreqId=1", "CGroupId=1", "Main", "Off", "154000000", "NFM", "", "2"]),
        ],
    }]
}

const DISP: &str = "{\"id\":\"d0s0c0\",\"name\":\"Disp\",\"kind\":\"Talkgroup\",\"tgid\":\"1001\",\"freqHz\":null,\
\"mode\":\"FM\",\"serviceType\":3,\"tone\":null}";
const TAC: &str = "{\"id\":\"d0s0c1\",\"name\":\"Tac\",\"kind\":\"Talkgroup\",\"tgid\":\"1002\",\"freqHz\":null,\
\"mode\":null,\"serviceType\":2,\"tone\":null}";

fn placements() -> Vec<Vec<SystemPlacement>> {
    vec![vec![
        SystemPlacement { states: vec![11], by_county: vec![(0, vec![1]), (44, vec![0])] },
        SystemPlacement { states: vec![], by_county: vec![] },
    ]]
}

#[test]
fn system_channels_list_with_filters() {
    let profile = Sds150::new();
    let docs = library();
    assert_eq!(library_channels_json(&docs, &profile, "d0s0", "", ""), format!("[{},{}]", DISP, TAC));
    assert_eq!(library_channels_json(&docs, &profile, "d0s0", "2", ""), format!("[{}]", TAC));
    assert_eq!(library_channels_json(&docs, &profile, "d0s0", "", " DISP "), format!("[{}]", DISP));
    // A system-name match passes every channel.
    assert_eq!(library_channels_json(&docs, &profile, "d0s0", "", "metro"), format!("[{},{}]", DISP, TAC));
    assert_eq!(
        library_channels_json(&docs, &profile, "d0s1", "", ""),
        "[{\"id\":\"d0s1c0\",\"name\":\"Main\",\"kind\":\"Frequency\",\"tgid\":null,\"freqHz\":154000000,\
\"mode\":\"NFM\",\"serviceType\":2,\"tone\":null}]"
    );
}

#[test]
fn unknown_system_ids_list_nothing() {
    let profile = Sds150::new();
    let docs = library();
    assert_eq!(library_channels_json(&docs, &profile, "d1s0", "", ""), "[]");
    assert_eq!(library_channels_json(&docs, &profile, "d0s5", "", ""), "[]");
    assert_eq!(library_channels_json(&docs, &profile, "s0", "", ""), "[]");
}

#[test]
fn county_scoped_channels_keep_system_ids() {
    let profile = Sds150::new();
    let docs = library();
    let pl = placements();
    assert_eq!(county_channels_json(&docs, &profile, &pl, "d0s0", 44, "", ""), format!("[{}]", DISP));
    assert_eq!(county_channels_json(&docs, &profile, &pl, "d0s0", 0, "", ""), format!("[{}]", TAC));
    assert_eq!(county_channels_json(&docs, &profile, &pl, "d0s0", 9, "", ""), "[]");
    assert_eq!(county_channels_json(&docs, &profile, &[], "d0s0", 44, "", ""), "[]");
}

#[test]
fn department_scoped_channels() {
    let profile = Sds150::new();
    let docs = library();
    let lines = &docs[0].lines[1..7];
    let mut marks = vec![false; lines.len()];
    marks[3] = true;
    let picked = department_channels(lines, &marks);
    assert_eq!(picked, BTreeSet::from([0, 1]));
    assert!(department_channels(lines, &[]).is_empty());
    let json = system_rows_json(&docs, &profile, "d0s0", "3", "", Some(&picked));
    assert_eq!(json, format!("[{}]", DISP));
}

#[test]
fn catalog_rows_follow_the_filter_and_placement() {
    let profile = Sds150::new();
    let docs = library();
    let pl = placements();
    let all = library_catalog_json(&docs, &profile, &pl, &Filter::all());
    assert_eq!(
        all,
        "[{\"id\":\"d0s0\",\"name\":\"Metro PD\",\"kind\":\"Trunk\",\"tech\":\"P25Standard\",\"counties\":[44],\
\"states\":[11],\"statewide\":true,\"siteCount\":1,\"channelCount\":2},\
{\"id\":\"d0s1\",\"name\":\"Fire\",\"kind\":\"Conventional\",\"tech\":\"Conventional\",\"counties\":[],\
\"states\":[],\"statewide\":false,\"siteCount\":0,\"channelCount\":1}]"
    );
    let law = library_catalog_json(&docs, &profile, &pl, &Filter::parse("3", "", ""));
    assert_eq!(
        law,
        "[{\"id\":\"d0s0\",\"name\":\"Metro PD\",\"kind\":\"Trunk\",\"tech\":\"P25Standard\",\"counties\":[44],\
\"states\":[11],\"statewide\":false,\"siteCount\":1,\"channelCount\":1}]"
    );
    let analog = library_catalog_json(&docs, &profile, &pl, &Filter::parse("", "analog", ""));
    assert!(analog.starts_with("[{\"id\":\"d0s1\""));
    assert_eq!(analog.matches("\"id\"").count(), 1);
    // Without a placement a row lists no county or state.
    let bare = library_catalog_json(&docs, &profile, &[], &Filter::all());
    assert!(bare.contains("\"counties\":[],\"states\":[],\"statewide\":false,\"siteCount\":1,\"channelCount\":2"));
    assert_eq!(library_catalog_json(&[], &profile, &pl, &Filter::all()), "[]");
}
