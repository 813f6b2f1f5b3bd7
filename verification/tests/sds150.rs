use platypus_core::device::{ProfileRegistry, RadioProfile, SdCardProfile, Sds150};
use platypus_core::format::FileHeader;

#[test]
fn detects_real_header() {
    let p = Sds150::new();
    let h = FileHeader {
        target_model: Some("BCDx36HP".into()),
        format_version: Some("1.00".into()),
    };
    assert!(p.matches(&h));
}

#[test]
fn rejects_other_model() {
    let p = Sds150::new();
    let h = FileHeader {
        target_model: Some("BCDx00".into()),
        format_version: Some("1.00".into()),
    };
    assert!(!p.matches(&h));
}

#[test]
fn site_blanks_id_columns_in_favorites() {
    let p = Sds150::new();
    let site = p.record_schema("Site").unwrap();
    assert_eq!(site.favorites.blanked_id_columns, &[1, 2]);
    assert_eq!(site.field_count, 20);
}

#[test]
fn layout_uses_misspelled_discovery() {
    assert_eq!(Sds150::new().sd_layout().discovery_cfg, "discvery.cfg");
}

#[test]
fn channel_value_options_enumerate_alerts() {
    let p = Sds150::new();
    assert_eq!(p.channel_value_options("alertColor")[0], "Off");
    assert!(p.channel_value_options("alertColor").contains(&"Magenta".to_string()));
    assert_eq!(p.channel_value_options("alertPattern"), ["On", "Slow Blink", "Fast Blink"]);
    let tone = p.channel_value_options("alertTone");
    assert_eq!(tone.first().unwrap(), "Off");
    assert_eq!(tone.last().unwrap(), "9");
    assert_eq!(tone.len(), 10);
    let vol = p.channel_value_options("alertVolume");
    assert_eq!(vol.first().unwrap(), "Auto");
    assert_eq!(vol.last().unwrap(), "15");
    assert_eq!(p.channel_value_options("modulation"), ["AUTO", "AM", "NFM", "FM"]);
    assert_eq!(p.channel_value_options("audioType"), ["ALL", "ANALOG", "DIGITAL"]);
    for field in [
        "modulation",
        "audioType",
        "delay",
        "volumeOffset",
        "alertColor",
        "alertPattern",
        "alertTone",
        "alertVolume",
    ] {
        assert!(p.channel_value_fields().contains(&field));
        assert!(!p.channel_value_options(field).is_empty());
    }
    assert!(p.channel_value_options("numberTag").is_empty());
    assert!(p.channel_value_options("attenuator").is_empty());
    assert!(p.channel_value_options("nonsense").is_empty());
}

#[test]
fn registry_detects_sds150_by_header() {
    let reg = ProfileRegistry::with_builtins();
    let h = FileHeader {
        target_model: Some("BCDx36HP".into()),
        format_version: Some("1.00".into()),
    };
    assert_eq!(reg.detect(&h).map(|p| p.product_name()), Some("SDS150"));
    let other = FileHeader { target_model: Some("BCD996P2".into()), format_version: None };
    assert!(reg.detect(&other).is_none());
    // A header without a format version still matches on the target model.
    let no_version = FileHeader { target_model: Some("BCDx36HP".into()), format_version: None };
    assert!(reg.detect(&no_version).is_some());
}
