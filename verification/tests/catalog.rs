use platypus_core::catalog::{catalog_json, library_catalog};
use platypus_core::device::Sds150;
use platypus_core::format::{Document, Line, LineEnding};
use platypus_core::library::build_favorites_doc;
use platypus_core::ui::parse_channel_id;

fn line(fields: &[&str]) -> Line {
    Line { fields: fields.iter().map(|s| s.to_string()).collect(), ending: LineEnding::Crlf }
}

fn catalog_doc() -> Document {
    Document {
        lines: vec![
            line(&["TargetModel", "BCDx36HP"]),
            line(&["Trunk", "TrunkId=7", "StateId=11", "Metro \"PD\"", "Off", "", "P25Standard"]),
            line(&["AreaCounty", "TrunkId=7", "CountyId=30"]),
            line(&["AreaCounty", "TrunkId=7", "CountyId=4"]),
            line(&["AreaCounty", "TrunkId=7", "CountyId=30"]),
            line(&["Site", "SiteId=1", "TrunkId=7", "North"]),
            line(&["T-Freq", "", "SiteId=1", "", "Off", "851000000"]),
            line(&["Site", "SiteId=2", "TrunkId=7", "South"]),
            line(&["T-Group", "TGroupId=1", "TrunkId=7", "Police", "Off", "0", "0", "0"]),
            line(&["TGID", "Tid=1", "TGroupId=1", "Disp", "Off", "1001", "FM", "3"]),
            line(&["TGID", "Tid=2", "TGroupId=1", "Tac", "Off", "1002", "", ""]),
            line(&["Conventional", "AgencyId=2", "StateId=11", "Fire", "Off", "", "Conventional"]),
            line(&["C-Group", "CGroupId=1", "AgencyId=2", "Station 1", "Off", "0", "0", "0"]),
            line(&["C-Freq", "CFreqId=1", "CGroupId=1", "Main", "Off", "154000000", "NFM", "", "2"]),
        ],
    }
}

#[test]
fn catalog_lists_systems_and_channels() {
    let profile = Sds150::new();
    let cat = library_catalog(&catalog_doc(), &profile);
    assert_eq!(cat.len(), 2);
    let t = &cat[0];
    assert_eq!(t.id, "s0");
    assert_eq!(t.name, "Metro \"PD\"");
    assert_eq!(t.kind, "Trunk");
    assert_eq!(t.tech.as_deref(), Some("P25Standard"));
    // Counties ascending, each once.
    assert_eq!(t.counties, vec![4, 30]);
    assert_eq!(t.site_count, 2);
    // The control channel is not a voice channel.
    assert_eq!(t.channels.len(), 2);
    assert_eq!(t.channels[1].id, "s0c1");
    assert_eq!(t.channels[1].tgid.as_deref(), Some("1002"));
    assert_eq!(t.channels[1].mode, None);
    assert_eq!(t.channels[1].service_type, None);
    let c = &cat[1];
    assert_eq!(c.counties, Vec::<u64>::new());
    assert_eq!(c.site_count, 0);
    assert_eq!(c.channels[0].freq_hz, Some(154_000_000));
    assert_eq!(c.channels[0].service_type, Some(2));
}

#[test]
fn catalog_renders_as_json() {
    let profile = Sds150::new();
    let json = catalog_json(&catalog_doc(), &profile);
    assert_eq!(
        json,
        "[{\"id\":\"s0\",\"name\":\"Metro \\\"PD\\\"\",\"kind\":\"Trunk\",\"tech\":\"P25Standard\",\
\"counties\":[4,30],\"siteCount\":2,\"channels\":[\
{\"id\":\"s0c0\",\"name\":\"Disp\",\"kind\":\"Talkgroup\",\"tgid\":\"1001\",\"freqHz\":null,\"mode\":\"FM\",\"serviceType\":3},\
{\"id\":\"s0c1\",\"name\":\"Tac\",\"kind\":\"Talkgroup\",\"tgid\":\"1002\",\"freqHz\":null,\"mode\":null,\"serviceType\":null}]},\
{\"id\":\"s1\",\"name\":\"Fire\",\"kind\":\"Conventional\",\"tech\":\"Conventional\",\"counties\":[],\"siteCount\":0,\
\"channels\":[{\"id\":\"s1c0\",\"name\":\"Main\",\"kind\":\"Frequency\",\"tgid\":null,\"freqHz\":154000000,\
\"mode\":\"NFM\",\"serviceType\":2}]}]"
    );
    assert_eq!(catalog_json(&Document { lines: vec![] }, &profile), "[]");
}

#[test]
fn catalog_ids_read_back_as_library_ids() {
    let profile = Sds150::new();
    let cat = library_catalog(&catalog_doc(), &profile);
    for (si, sys) in cat.iter().enumerate() {
        for (k, ch) in sys.channels.iter().enumerate() {
            let id = format!("d3{}", ch.id);
            assert_eq!(parse_channel_id(&id), Some((3, si, k)));
        }
    }
}

#[test]
fn catalog_ids_pick_channels_for_a_favorites_list() {
    let profile = Sds150::new();
    let docs = vec![catalog_doc()];
    let cat = library_catalog(&docs[0], &profile);
    let ids = format!("d0{},d0{}", cat[0].channels[1].id, cat[1].channels[0].id);
    let fav = build_favorites_doc(&docs, &profile, &ids, true, false).unwrap();
    let tgids: Vec<&str> = fav.lines.iter().filter(|l| l.command() == "TGID").map(|l| l.field(3).unwrap()).collect();
    assert_eq!(tgids, vec!["Tac"]);
    let freqs: Vec<&str> = fav.lines.iter().filter(|l| l.command() == "C-Freq").map(|l| l.field(3).unwrap()).collect();
    assert_eq!(freqs, vec!["Main"]);
    // Favorites carry no area tags.
    assert!(!fav.lines.iter().any(|l| l.command() == "AreaCounty"));
}

#[test]
fn service_types_render_as_code_name_pairs() {
    let s = platypus_core::catalog::service_types_json();
    assert!(s.starts_with("[{\"code\":1,\"name\":\"Multi-Dispatch\"},{\"code\":2,\"name\":\"Law Dispatch\"}"));
    assert!(s.ends_with(']'));
    assert!(s.contains("\"code\":13"));
    assert!(s.contains("\"name\":\"Ham\""));
    assert!(s.matches("\"code\":").count() >= 20);
    assert_eq!(s.matches("\"code\":").count(), s.matches("\"name\":").count());
    assert_eq!(s.matches("\"code\":").count(), platypus_core::model::service_types().len());
}

#[test]
fn state_and_county_indexes_render_as_json() {
    let profile = Sds150::new();
    let cfg = Document {
        lines: vec![
            line(&["TargetModel", "BCDx36HP"]),
            line(&["StateInfo", "StateId=11", "CountryId=1", "Illinois", "IL"]),
            line(&["StateInfo", "", "CountryId=1", "Nowhere", "NW"]),
            line(&["StateInfo", "StateId=12", "", "Indiana \"IN\""]),
            line(&["CountyInfo", "CountyId=30", "StateId=11", "Cook"]),
            line(&["CountyInfo", "CountyId=31", "", "Lake"]),
        ],
    };
    assert_eq!(
        platypus_core::catalog::states_json(&cfg),
        "[{\"id\":11,\"name\":\"Illinois\",\"abbr\":\"IL\",\"country\":1},\
{\"id\":12,\"name\":\"Indiana \\\"IN\\\"\",\"abbr\":\"\",\"country\":0}]"
    );
    let idx = platypus_core::model::CountyIndex::from_hpdb(&cfg, &profile);
    assert_eq!(
        platypus_core::catalog::counties_json(&idx),
        "[{\"id\":30,\"name\":\"Cook\",\"state\":11},{\"id\":31,\"name\":\"Lake\",\"state\":null}]"
    );
    assert_eq!(platypus_core::catalog::states_json(&Document { lines: vec![] }), "[]");
}

#[test]
fn favorites_summary_counts_records_and_bytes() {
    let profile = Sds150::new();
    let doc = Document {
        lines: vec![
            line(&["TargetModel", "BCDx36HP"]),
            line(&["Trunk", "", "", "Metro", "Off", "", "P25Standard"]),
            line(&["DQKs_Status", "", "", "On"]),
            line(&["Site", "", "", "North"]),
            line(&["BandPlan_P25", "", "", "0"]),
            line(&["Site", "", "", "South"]),
            line(&["Conventional", "", "", "Fire"]),
        ],
    };
    let bytes = doc.to_bytes().len();
    assert_eq!(bytes, 139);
    assert_eq!(
        platypus_core::catalog::favorites_summary_json(&doc, &profile),
        format!("{{\"systems\":2,\"sites\":2,\"dqks\":1,\"bandPlans\":1,\"bytes\":{}}}", bytes)
    );
}
