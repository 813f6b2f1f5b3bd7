use platypus_core::device::Sds150;
use platypus_core::format::{Document, Line, LineEnding};
use platypus_core::model::{keyed_id, records, service_type_name, service_types, CountyIndex, Record, RecordKind, Shape};

fn line(fields: &[&str]) -> Line {
    Line { fields: fields.iter().map(|s| s.to_string()).collect(), ending: LineEnding::Crlf }
}

#[test]
fn keyed_id_parses_and_rejects_blanks() {
    assert_eq!(keyed_id("SiteId=22044"), Some(22044));
    assert_eq!(keyed_id("TrunkId=7678"), Some(7678));
    assert_eq!(keyed_id(""), None);
    assert_eq!(keyed_id("NotKeyed"), None);
    assert_eq!(keyed_id("SiteId="), None);
}

#[test]
fn shape_parse() {
    assert_eq!(Shape::parse("Circle"), Shape::Circle);
    assert_eq!(Shape::parse("Rectangle"), Shape::Rectangle);
    assert_eq!(Shape::parse("AUTO"), Shape::Unknown);
}

#[test]
fn service_types_source_backs_the_name_lookup() {
    for (code, name) in service_types() {
        assert_eq!(service_type_name(*code), Some(*name));
    }
    assert_eq!(service_type_name(5), None);
    assert_eq!(service_type_name(13), Some("Ham"));
}

#[test]
fn keyed_id_splits_at_the_first_equals_and_accepts_a_plus_sign() {
    assert_eq!(keyed_id("A=B=3"), None);
    assert_eq!(keyed_id("Id=+7"), Some(7));
    assert_eq!(keyed_id("Id=18446744073709551615"), Some(u64::MAX));
    assert_eq!(keyed_id("Id=18446744073709551616"), None);
}

#[test]
fn record_accessors_read_the_schema_columns() {
    let profile = Sds150::new();
    let site = line(&["Site", "SiteId=2", "TrunkId=1", "S1", "Off", "45.0", "-100.0", "10"]);
    let r = Record::new(&site, &profile).unwrap();
    assert_eq!(r.command(), "Site");
    assert_eq!(r.kind(), RecordKind::Site);
    assert_eq!(r.id(), Some(2));
    assert_eq!(r.parent_id(), Some(1));
    assert_eq!(r.name(), Some("S1"));
    let unknown = line(&["Nonsense", "x"]);
    assert!(Record::new(&unknown, &profile).is_none());
    assert_eq!(RecordKind::from_command("DateModified"), RecordKind::Header);
    assert_eq!(RecordKind::from_command("LM"), RecordKind::Lm);
    assert_eq!(RecordKind::from_command("Whatever"), RecordKind::Other);
}

#[test]
fn channel_attributes_strip_the_tone_prefix() {
    let profile = Sds150::new();
    let cfreq = line(&["C-Freq", "", "", "Ch", "Off", "154000000", "NFM", "TONE=C156.7", "2"]);
    let r = Record::new(&cfreq, &profile).unwrap();
    assert_eq!(r.frequency_hz(), Some(154_000_000));
    assert_eq!(r.mode(), Some("NFM"));
    assert_eq!(r.tone(), Some("C156.7"));
    assert_eq!(r.audio_option(), Some("TONE=C156.7"));
    assert_eq!(r.service_type_code(), Some(2));
    assert_eq!(r.id(), None);
}

#[test]
fn county_index_maps_names_and_ids() {
    let doc = Document {
        lines: vec![
            line(&["TargetModel", "BCDx36HP"]),
            line(&["CountyInfo", "CountyId=9001", "StateId=90", "Alpha"]),
            line(&["CountyInfo", "CountyId=9002", "StateId=90", "Bravo"]),
            line(&["CountyInfo", "CountyId=9003", "StateId=90", "Charlie"]),
        ],
    };
    let index = CountyIndex::from_hpdb(&doc, &Sds150::new());

    assert_eq!(index.len(), 3);
    assert_eq!(index.id_by_name("Alpha"), Some(9001));
    assert_eq!(index.name(9001), Some("Alpha"));
    // Case-insensitive lookup.
    assert!(index.counties_named("bravo").iter().any(|c| c.id == 9002));
}

#[test]
fn county_index_reads_county_info_lines() {
    let profile = Sds150::new();
    let doc = Document {
        lines: vec![
            line(&["TargetModel", "BCDx36HP"]),
            line(&["CountyInfo", "CountyId=10", "StateId=1", "Washington"]),
            line(&["CountyInfo", "CountyId=11", "StateId=2", "WASHINGTON"]),
            line(&["CountyInfo", "CountyId=12", "StateId=2", "Adams"]),
            line(&["CountyInfo", "", "StateId=2", "NoId"]),
        ],
    };
    let idx = CountyIndex::from_hpdb(&doc, &profile);
    assert_eq!(idx.len(), 3);
    assert!(!idx.is_empty());
    assert_eq!(idx.name(12), Some("Adams"));
    assert_eq!(idx.by_id(11).unwrap().state_id, Some(2));
    assert_eq!(idx.counties_named("washington").len(), 2);
    assert_eq!(idx.id_by_name("WashingTon"), Some(10));
    assert_eq!(idx.id_by_name("Nowhere"), None);
    assert!(idx.by_id(99).is_none());
    assert_eq!(records(&doc, &profile).len(), 5);
}

#[test]
fn geo_fields_reads_the_location_columns() {
    let profile = Sds150::new();
    let site = line(&["Site", "SiteId=2", "TrunkId=1", "Hub", "Off", "45.0", "-100.0", "12", "", "", "", "Circle"]);
    let rec = Record::new(&site, &profile).unwrap();
    assert_eq!(rec.geo_fields(), Some(("45.0", "-100.0", Some("12"), Some("Circle"))));
    let short = line(&["Site", "SiteId=2", "TrunkId=1", "Hub", "Off", "45.0"]);
    assert_eq!(Record::new(&short, &profile).unwrap().geo_fields(), None);
    let tgid = line(&["TGID", "Tid=1", "TGroupId=1", "Disp", "Off", "100"]);
    assert_eq!(Record::new(&tgid, &profile).unwrap().geo_fields(), None);
}
