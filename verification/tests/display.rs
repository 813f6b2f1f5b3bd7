use platypus_core::display::{color_palette, global_specs, layout_modes, item_areas, color_groups, ColorPair, DisplayConfig};

// A synthetic profile.cfg fragment: the four display records + a non-display record,
// to prove preservation. Tab-separated, CRLF, no final newline.
const SAMPLE: &[u8] = b"TargetModel\tBCDx36HP\r\n\
FormatVersion\t2.00\r\n\
BandDefault\t1\t25000000\t54000000\tAM\r\n\
DisplayOption\t\t\t\t\t\tDEC\t\t\t\t\tOn\tAFS\tCOLOR\r\n\
Backlight\t\tHigh\t\t\t30\t40\tOff\tOff\tOn\t5\tInfinite\r\n\
DispOptItems\tDispOptId=1\tDispLayoutId=1\tFL_Name\tEmpty\tFrequency\r\n\
DispOptItems\tDispOptId=3\tDispLayoutId=1\tATT\tBluetooth\tDay\r\n\
DispColors\tDispColorId=1\tColorLayoutId=1\tff4600\t000000\tff8800\t000000\r\n\
DispColors\tDispColorId=4\tColorLayoutId=1\te79473\t000000";

#[test]
fn palette_has_147_colors() {
    let palette = color_palette();
    assert_eq!(palette.len(), 147);
    assert_eq!(palette.iter().find(|(n, _)| *n == "Aqua").map(|(_, h)| *h), Some("00fbf7"));
    for (_, hex) in palette {
        assert_eq!(hex.len(), 6);
        assert!(hex.bytes().all(|b| b.is_ascii_hexdigit() && !b.is_ascii_uppercase()));
    }
}

#[test]
fn round_trips_byte_for_byte() {
    let cfg = DisplayConfig::parse(SAMPLE).unwrap();
    assert_eq!(cfg.to_bytes(), SAMPLE, "unedited profile.cfg must round-trip");
}

#[test]
fn reads_globals() {
    let cfg = DisplayConfig::parse(SAMPLE).unwrap();
    let g = cfg.globals();
    let get = |k: &str| g.iter().find(|s| s.key == k).map(|s| s.value.as_str());
    assert_eq!(get("MotTgidFormat"), Some("DEC"));
    assert_eq!(get("SimpleMode"), Some("On"));
    assert_eq!(get("EdacTgidFormat"), Some("AFS"));
    assert_eq!(get("ColorMode"), Some("COLOR"));
    assert_eq!(get("SqLight"), Some("5"));
    assert_eq!(get("KeyLight"), Some("Infinite"));
}

#[test]
fn reads_items_and_colors() {
    let cfg = DisplayConfig::parse(SAMPLE).unwrap();
    let items = cfg.items();
    assert_eq!(items[0].disp_opt_id, 1);
    assert_eq!(items[0].tokens, vec!["FL_Name", "Empty", "Frequency"]);
    let colors = cfg.colors();
    assert_eq!(colors[0].disp_color_id, 1);
    assert_eq!(colors[0].pairs.len(), 2);
    assert_eq!(colors[0].pairs[0], ColorPair { text: "ff4600".into(), back: "000000".into() });
}

#[test]
fn edits_touch_only_the_target_field() {
    let mut cfg = DisplayConfig::parse(SAMPLE).unwrap();
    assert!(cfg.set_global("ColorMode", "BLACK"));
    assert!(cfg.set_item_token(1, 1, 1, "TGID"));
    assert!(cfg.set_color(1, 1, 0, "ffffff", "000000"));

    let out = String::from_utf8(cfg.to_bytes()).unwrap();
    assert!(out.contains("\tOn\tAFS\tBLACK\r\n"));
    assert!(out.contains("DispOptId=1\tDispLayoutId=1\tFL_Name\tTGID\tFrequency\r\n"));
    assert!(out.contains("DispColorId=1\tColorLayoutId=1\tffffff\t000000\tff8800\t000000\r\n"));
    assert!(out.contains("BandDefault\t1\t25000000\t54000000\tAM\r\n"));
    assert!(out.contains("DispOptItems\tDispOptId=3\tDispLayoutId=1\tATT\tBluetooth\tDay\r\n"));
}

#[test]
fn no_op_edits_are_byte_identical() {
    let mut cfg = DisplayConfig::parse(SAMPLE).unwrap();
    assert!(!cfg.set_global("ColorMode", "COLOR"));
    assert!(!cfg.set_item_token(1, 1, 0, "FL_Name"));
    assert!(!cfg.set_color(1, 1, 0, "ff4600", "000000"));
    assert!(!cfg.set_global("Nonexistent", "x"));
    assert!(!cfg.set_item_token(9, 9, 0, "x"));
    assert_eq!(cfg.to_bytes(), SAMPLE);
}

#[test]
fn display_tables_are_complete() {
    assert_eq!(global_specs().len(), 6);
    assert_eq!(global_specs()[3].key, "ColorMode");
    assert_eq!(global_specs()[3].col, 13);
    assert_eq!(global_specs()[3].options, &["COLOR", "BLACK", "WHITE"]);
    let modes = layout_modes();
    assert_eq!(modes.len(), 7);
    assert_eq!((modes[1].name, modes[1].disp_layout_id, modes[1].color_layout_id), ("Simple Trunk", 2, 6));
    let areas = item_areas();
    assert_eq!(areas.len(), 4);
    assert_eq!(areas[0].tokens.len(), 16);
    assert_eq!(areas[2].tokens, areas[3].tokens);
    let groups = color_groups();
    assert_eq!(groups.len(), 7);
    assert_eq!(groups[3].elements, &["Option A_1", "Option_B_1"]);
}

#[test]
fn set_color_out_of_range_pair_is_a_no_op() {
    let mut cfg = DisplayConfig::parse(SAMPLE).unwrap();
    // Group (4, 1) has one pair; pair 1 does not exist.
    assert!(!cfg.set_color(4, 1, 1, "ffffff", "ffffff"));
    // Only the back color differs: still a change.
    assert!(cfg.set_color(4, 1, 0, "e79473", "ffffff"));
    let out = String::from_utf8(cfg.to_bytes()).unwrap();
    assert!(out.ends_with("DispColorId=4\tColorLayoutId=1\te79473\tffffff"));
}

#[test]
fn parse_rejects_non_ascii_profile() {
    let err = DisplayConfig::parse(b"DisplayOption\t\xC3\r\n").unwrap_err();
    assert_eq!(err, platypus_core::Error::NonAscii { offset: 14, byte: 0xC3 });
}

#[test]
fn writes_read_back() {
    let mut cfg = DisplayConfig::parse(SAMPLE).unwrap();
    assert!(cfg.set_global("SqLight", "7"));
    assert!(cfg.set_item_token(3, 1, 2, "Night"));
    assert!(cfg.set_color(4, 1, 0, "ffffff", "112233"));
    let g = cfg.globals();
    assert_eq!(g.iter().find(|s| s.key == "SqLight").map(|s| s.value.as_str()), Some("7"));
    let items = cfg.items();
    let grp = items.iter().find(|i| i.disp_opt_id == 3 && i.disp_layout_id == 1).unwrap();
    assert_eq!(grp.tokens, vec!["ATT", "Bluetooth", "Night"]);
    let colors = cfg.colors();
    let c = colors.iter().find(|c| c.disp_color_id == 4 && c.color_layout_id == 1).unwrap();
    assert_eq!(c.pairs[0], ColorPair { text: "ffffff".into(), back: "112233".into() });
}
