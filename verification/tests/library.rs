use platypus_core::device::Sds150;
use platypus_core::format::{Document, Line, LineEnding};
use platypus_core::library::{build_favorites_doc, place_channels};
use std::collections::BTreeMap;

fn line(fields: &[&str]) -> Line {
    Line {
        fields: fields.iter().map(|s| s.to_string()).collect(),
        ending: LineEnding::Crlf,
    }
}

fn county_doc(model: &str, system: &str, channels: &[&str]) -> Document {
    let mut lines = vec![
        line(&["TargetModel", model]),
        line(&["Conventional", "AgencyId=1", "StateId=11", system, "Off", "", "Conventional"]),
        line(&["C-Group", "CGroupId=1", "AgencyId=1", "Dispatch", "Off", "0", "0", "0"]),
    ];
    for (i, name) in channels.iter().enumerate() {
        let freq = format!("{}", 155_000_000 + i as u64 * 10_000);
        lines.push(line(&["C-Freq", "CFreqId=1", "CGroupId=1", name, "Off", &freq, "FM", ""]));
    }
    Document { lines }
}

#[test]
fn no_readable_id_gives_none() {
    let profile = Sds150::new();
    let docs = vec![county_doc("BCDx36HP", "Alpha", &["A0", "A1"])];
    assert!(build_favorites_doc(&docs, &profile, "", true, false).is_none());
    assert!(build_favorites_doc(&docs, &profile, " junk , s0c1,", true, false).is_none());
}

#[test]
fn picks_named_channels_across_documents() {
    let profile = Sds150::new();
    let docs = vec![
        county_doc("FirstModel", "Alpha", &["A0", "A1", "A2"]),
        county_doc("SecondModel", "Bravo", &["B0", "B1"]),
    ];
    let fav = build_favorites_doc(&docs, &profile, "d1s0c1, d0s0c2,d0s0c0,d9s0c0", false, false)
        .expect("ids were readable");
    let names: Vec<String> = fav
        .lines
        .iter()
        .filter(|l| l.command() == "C-Freq")
        .map(|l| l.field(3).unwrap_or("").to_string())
        .collect();
    // Documents in index order, each system's channels in file order.
    assert_eq!(names, vec!["A0", "A2", "B1"]);
    // One preamble: the first named document's.
    let models: Vec<&str> = fav
        .lines
        .iter()
        .filter(|l| l.command() == "TargetModel")
        .map(|l| l.field(1).unwrap_or(""))
        .collect();
    assert_eq!(models, vec!["FirstModel"]);
    // Favorites dialect: ids blanked, one quick-key status line per system.
    let conv = fav.lines.iter().find(|l| l.command() == "Conventional").unwrap();
    assert_eq!(conv.field(1), Some(""));
    assert_eq!(fav.lines.iter().filter(|l| l.command() == "DQKs_Status").count(), 2);
}

#[test]
fn preamble_comes_from_the_first_named_document() {
    let profile = Sds150::new();
    let docs = vec![
        county_doc("FirstModel", "Alpha", &["A0"]),
        county_doc("SecondModel", "Bravo", &["B0"]),
    ];
    let fav = build_favorites_doc(&docs, &profile, "d1s0c0", true, true).unwrap();
    assert_eq!(fav.lines[0].field(1), Some("SecondModel"));
    assert!(fav.lines.iter().any(|l| l.command() == "C-Freq" && l.field(3) == Some("B0")));
    assert!(!fav.lines.iter().any(|l| l.field(3) == Some("A0")));
}

fn freq(name: &str) -> Line {
    line(&["C-Freq", "", "", name, "Off", "155000000", "FM", ""])
}

#[test]
fn places_channels_into_group_counties() {
    let lines = vec![
        line(&["Conventional", "", "", "Alpha", "Off", "", "Conventional"]),
        freq("X0"),
        line(&["C-Group", "", "", "North", "Off", "0", "0", "0"]),
        freq("X1"),
        line(&["Rectangle", "", "1", "2", "3", "4"]),
        freq("X2"),
        line(&["C-Group", "", "", "Nowhere", "Off", "0", "0", "0"]),
        freq("X3"),
        line(&["T-Freq", "", "", "Control", "Off", "851000000"]),
    ];
    let mut counties: Vec<Vec<u64>> = vec![Vec::new(); lines.len()];
    counties[2] = vec![5, 7, 5];
    let placed = place_channels(&lines, &counties);
    let mut expected: BTreeMap<u64, Vec<usize>> = BTreeMap::new();
    expected.insert(0, vec![0, 3]);
    expected.insert(5, vec![1, 2]);
    expected.insert(7, vec![1, 2]);
    assert_eq!(placed, expected);
}

#[test]
fn missing_county_lists_mean_no_county() {
    let lines = vec![
        line(&["Trunk", "", "", "Bravo", "Off", "", "P25Standard"]),
        line(&["T-Group", "", "", "Dept", "Off", "0", "0", "0"]),
        line(&["TGID", "", "", "Disp", "Off", "100", "FM", "2"]),
        line(&["TGID", "", "", "Tac", "Off", "101", "FM", "2"]),
    ];
    let placed = place_channels(&lines, &[]);
    let mut expected: BTreeMap<u64, Vec<usize>> = BTreeMap::new();
    expected.insert(0, vec![0, 1]);
    assert_eq!(placed, expected);
}
