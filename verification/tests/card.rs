use platypus_core::card::{
    app_data_path, count_systems_channels, dropped_slots, f_list_entries, f_list_path, favorites_path,
    layout_f_list, model_root, new_index_doc, parse_qk, remove_f_list_entry, reorder_f_list,
    slot_filename, slot_from_filename, sort_f_list, update_f_list_entry, ListLayout,
};
use platypus_core::device::Sds150;
use platypus_core::format::{Document, Line, LineEnding};

#[test]
fn paths_use_profile_layout() {
    let p = Sds150::new();
    let root = "/Volumes/NO NAME";
    assert_eq!(favorites_path(root, &p, 1), "/Volumes/NO NAME/BCDx36HP/favorites_lists/f_000001.hpd");
    assert_eq!(app_data_path(root, &p), "/Volumes/NO NAME/BCDx36HP/app_data.cfg");
}

#[test]
fn paths_join_like_a_path() {
    let p = Sds150::new();
    assert_eq!(model_root("/card/", &p), "/card/BCDx36HP");
    assert_eq!(model_root("", &p), "BCDx36HP");
    assert_eq!(f_list_path("/c", &p), "/c/BCDx36HP/favorites_lists/f_list.cfg");
}

#[test]
fn slot_filenames_round_trip() {
    assert_eq!(slot_filename(5), "f_000005.hpd");
    assert_eq!(slot_filename(1234567), "f_1234567.hpd");
    assert_eq!(slot_from_filename("f_000005.hpd"), Some(5));
    assert_eq!(slot_from_filename("f_1234567.hpd"), Some(1234567));
    assert_eq!(slot_from_filename("f_.hpd"), None);
    assert_eq!(slot_from_filename("g_000005.hpd"), None);
    assert_eq!(slot_from_filename("f_000005.cfg"), None);
    assert_eq!(slot_from_filename("f_99999999999.hpd"), None);
    for s in [0u32, 7, 999_999, u32::MAX] {
        assert_eq!(slot_from_filename(&slot_filename(s)), Some(s));
    }
}

#[test]
fn quick_keys_parse() {
    assert_eq!(parse_qk(Some("7")), Some(7));
    assert_eq!(parse_qk(Some("Off")), None);
    assert_eq!(parse_qk(Some("OFF")), None);
    assert_eq!(parse_qk(Some("")), None);
    assert_eq!(parse_qk(None), None);
    assert_eq!(parse_qk(Some("x")), None);
}

fn f_list_line(name: &str, filename: &str, monitor: &str, quick_key: &str) -> Line {
    let mut fields = vec![
        "F-List".to_string(),
        name.to_string(),
        filename.to_string(),
        "Off".to_string(),
        monitor.to_string(),
        quick_key.to_string(),
    ];
    fields.resize(118, "Off".to_string());
    Line { fields, ending: LineEnding::Crlf }
}

fn index() -> Document {
    let p = Sds150::new();
    let mut doc = new_index_doc(&p);
    doc.lines.push(f_list_line("Charlie", "f_000001.hpd", "On", "0"));
    doc.lines.push(f_list_line("alpha", "f_000002.hpd", "Off", "7"));
    doc.lines.push(f_list_line("Bravo", "f_000003.hpd", "On", "Off"));
    doc
}

#[test]
fn reads_the_index_entries() {
    let p = Sds150::new();
    let e = f_list_entries(&index(), &p);
    assert_eq!(e.len(), 3);
    assert_eq!((e[0].slot, e[0].name.as_str(), e[0].monitor, e[0].quick_key), (1, "Charlie", true, Some(0)));
    assert_eq!((e[1].slot, e[1].monitor, e[1].quick_key), (2, false, Some(7)));
    assert_eq!(e[2].quick_key, None);
    assert_eq!(e[2].number_tag, None);
}

#[test]
fn sorts_and_reorders_the_index() {
    let sorted = sort_f_list(&index());
    let names: Vec<&str> = sorted.lines.iter().skip(2).map(|l| l.field(1).unwrap()).collect();
    assert_eq!(names, ["alpha", "Bravo", "Charlie"]);
    assert_eq!(sorted.lines[0].command(), "TargetModel");

    let re = reorder_f_list(&index(), &[3, 1, 42]);
    let slots: Vec<&str> = re.lines.iter().skip(2).map(|l| l.field(2).unwrap()).collect();
    assert_eq!(slots, ["f_000003.hpd", "f_000001.hpd", "f_000002.hpd"]);
}

#[test]
fn removes_an_entry() {
    let out = remove_f_list_entry(&index(), 2);
    assert_eq!(out.lines.len(), 4);
    assert!(out.lines.iter().all(|l| l.field(2) != Some("f_000002.hpd")));
}

#[test]
fn update_preserves_existing_fields_and_adds_new_ones() {
    let p = Sds150::new();
    let out = update_f_list_entry(&index(), &p, 2, "Renamed").unwrap();
    assert_eq!(out.lines[3].field(1), Some("Renamed"));
    assert_eq!(out.lines[3].field(5), Some("7"), "quick key preserved");
    assert_eq!(out.lines[3].fields.len(), 118);
    let out = update_f_list_entry(&out, &p, 9, "Fresh").unwrap();
    assert_eq!(out.lines.len(), 6);
    assert_eq!(out.lines[5].field(2), Some("f_000009.hpd"));
    assert_eq!(out.lines[5].field(4), Some("On"), "new list default Monitor=On");
}

#[test]
fn layout_rebuilds_the_index() {
    let p = Sds150::new();
    let existing = index();
    let lists = vec![
        ListLayout::new(3, "Bravo"),
        ListLayout { monitor: Some(false), quick_key: Some("3".into()), ..ListLayout::new(2, "Alpha Renamed") },
        ListLayout::new(8, "New"),
    ];
    let out = layout_f_list(Some(&existing), &p, &lists).unwrap();
    assert_eq!(out.lines.len(), 5);
    assert_eq!(out.lines[2].field(2), Some("f_000003.hpd"));
    assert_eq!(out.lines[3].field(1), Some("Alpha Renamed"));
    assert_eq!(out.lines[3].field(4), Some("Off"));
    assert_eq!(out.lines[3].field(5), Some("3"));
    assert_eq!(out.lines[4].field(4), Some("On"), "new list default Monitor=On");
    assert_eq!(out.lines[4].field(5), Some("0"), "new list default Quick key=0");
    assert_eq!(dropped_slots(&existing, &lists), vec![1]);
}

#[test]
fn counts_systems_and_voice_channels() {
    let p = Sds150::new();
    let doc = Document {
        lines: vec![
            Line { fields: vec!["TargetModel".into(), "BCDx36HP".into()], ending: LineEnding::Crlf },
            Line { fields: vec!["Conventional".into(), "".into(), "".into(), "Sys".into()], ending: LineEnding::Crlf },
            Line {
                fields: vec!["C-Freq".into(), "".into(), "".into(), "Ch".into(), "Off".into(), "154000000".into()],
                ending: LineEnding::Crlf,
            },
        ],
    };
    assert_eq!(count_systems_channels(&doc, &p), (1, 1));
}

#[test]
fn card_favorites_json_lists_model_options_and_lists() {
    let profile = platypus_core::device::Sds150::new();
    let lists = vec![platypus_core::card::FavoriteListInfo {
        slot: 5,
        name: "Opts".to_string(),
        filename: "f_000005.hpd".to_string(),
        systems: 2,
        channels: 7,
        bytes: 1234,
        monitor: true,
        quick_key: Some(3),
        number_tag: None,
    }];
    let json = platypus_core::card::card_favorites_json(&profile, &lists);
    assert!(json.starts_with(
        "{\"model\":\"SDS150\",\"modelId\":\"SDS150GBT\",\"maxFavorites\":256,\"maxListBytes\":1048576,\
\"quickKeys\":100,\"channelValueOptions\":{\"delay\":[\"30\",\"10\","
    ));
    assert!(json.contains("\"channelValueOptions\":{"));
    assert!(json.contains("\"modulation\":[\"AUTO\",\"AM\",\"NFM\",\"FM\"]"));
    assert!(json.contains("\"alertColor\":[\"Off\""));
    assert!(json.contains("\"alertPattern\":[\"On\",\"Slow Blink\",\"Fast Blink\"]"));
    // Fields without enumerated options are left out.
    assert!(!json.contains("\"attenuator\""));
    assert!(json.ends_with(
        "},\"lists\":[{\"slot\":5,\"name\":\"Opts\",\"filename\":\"f_000005.hpd\",\"systems\":2,\
\"channels\":7,\"bytes\":1234,\"monitor\":true,\"quickKey\":3,\"numberTag\":null}]}"
    ));
    let empty = platypus_core::card::card_favorites_json(&profile, &[]);
    assert!(empty.ends_with("},\"lists\":[]}"));
}
