//! Uniden **SDS150** profile (file family `BCDx36HP`, FormatVersion `1.00`).
//!
//! Every constant here was validated against a real SDS150 SD card.

use vstd::prelude::*;
use super::profile::{
    ChannelColumns, GeoColumns, ModelKey, RadioClass, RadioProfile, RecordSchema, ScannerLimits,
    SdCardProfile, SdLayout, SpecSchema, CloneImageProfile, header_schema, hier_schema, index_schema,
    strs_view, defaults_view, opt_strings_view,
};
use crate::text::{str_eq, copy_str, decimal, decimal_string};

verus! {

/// Geo columns of a `Site` (shape flag at column 11).
pub open spec fn geo_site() -> GeoColumns {
    GeoColumns { lat: 5, lon: 6, range: 7, shape: 11 }
}

/// Geo columns of a group record (shape flag at column 8).
pub open spec fn geo_group() -> GeoColumns {
    GeoColumns { lat: 5, lon: 6, range: 7, shape: 8 }
}

fn geo_site_exec() -> (g: GeoColumns)
    ensures
        g == geo_site(),
{
    GeoColumns { lat: 5, lon: 6, range: 7, shape: 11 }
}

fn geo_group_exec() -> (g: GeoColumns)
    ensures
        g == geo_group(),
{
    GeoColumns { lat: 5, lon: 6, range: 7, shape: 8 }
}

/// Record schemas observed on a real SDS150 card.
pub open spec fn sds150_schema(command: Seq<char>) -> Option<SpecSchema> {
    if command == "TargetModel"@ {
        Some(header_schema("TargetModel"@, 2))
    } else if command == "FormatVersion"@ {
        Some(header_schema("FormatVersion"@, 2))
    } else if command == "DateModified"@ {
        Some(header_schema("DateModified"@, 2))
    } else if command == "Conventional"@ {
        Some(SpecSchema { tech_col: Some(6usize), ..hier_schema("Conventional"@, 15, Some(3usize), None) })
    } else if command == "C-Group"@ {
        Some(hier_schema("C-Group"@, 11, Some(3usize), Some(geo_group())))
    } else if command == "C-Freq"@ {
        Some(SpecSchema { channel: Some(ChannelColumns { freq: Some(5usize), tgid: None, mode: Some(6usize), tone: Some(7usize), service_type: Some(8usize) }), ..hier_schema("C-Freq"@, 18, Some(3usize), None) })
    } else if command == "Trunk"@ {
        Some(SpecSchema { tech_col: Some(6usize), ..hier_schema("Trunk"@, 22, Some(3usize), None) })
    } else if command == "Site"@ {
        Some(hier_schema("Site"@, 20, Some(3usize), Some(geo_site())))
    } else if command == "T-Group"@ {
        Some(hier_schema("T-Group"@, 10, Some(3usize), Some(geo_group())))
    } else if command == "T-Freq"@ {
        Some(SpecSchema { channel: Some(ChannelColumns { freq: Some(5usize), tgid: None, mode: None, tone: None, service_type: None }), ..hier_schema("T-Freq"@, 9, None, None) })
    } else if command == "TGID"@ {
        Some(SpecSchema { channel: Some(ChannelColumns { freq: None, tgid: Some(5usize), mode: Some(6usize), tone: None, service_type: Some(7usize) }), ..hier_schema("TGID"@, 17, Some(3usize), None) })
    } else if command == "AreaState"@ {
        Some(header_schema("AreaState"@, 3))
    } else if command == "AreaCounty"@ {
        Some(header_schema("AreaCounty"@, 3))
    } else if command == "Rectangle"@ {
        Some(header_schema("Rectangle"@, 6))
    } else if command == "BandPlan_P25"@ {
        Some(header_schema("BandPlan_P25"@, 50))
    } else if command == "DQKs_Status"@ {
        Some(header_schema("DQKs_Status"@, 102))
    } else if command == "StateInfo"@ {
        Some(index_schema("StateInfo"@, 5, Some(3usize), None))
    } else if command == "CountyInfo"@ {
        Some(index_schema("CountyInfo"@, 4, Some(3usize), None))
    } else if command == "LM"@ {
        Some(index_schema("LM"@, 9, None, None))
    } else if command == "LM_Frequency"@ {
        Some(header_schema("LM_Frequency"@, 4))
    } else {
        None
    }
}

/// Favorites scan-setting defaults, by command (derived from known-good favorites).
pub open spec fn defaults_table(command: Seq<char>) -> Seq<(usize, &'static str)> {
    if command == "Conventional"@ {
        seq![(7usize, "Off"), (8, "Off"), (9, "0"), (10, "Off"), (11, "Off"), (12, "400"), (13, "Auto"), (14, "8")]
    } else if command == "C-Freq"@ {
        seq![(9usize, "Off"), (10, "2"), (11, "0"), (12, "Off"), (13, "Auto"), (14, "Off"), (15, "On"), (16, "Off"), (17, "Off")]
    } else if command == "Trunk"@ {
        seq![(7usize, "Off"), (8, "Off"), (9, "Auto"), (10, "Ignore"), (11, "Srch"), (12, "Off"), (13, "Off"), (14, "0"), (15, "Off"), (16, "Off"), (17, "Ignore"), (18, "Off"), (19, "Off"), (20, "On"), (21, "IDAS")]
    } else if command == "Site"@ {
        seq![(12usize, "Off"), (13, "400"), (14, "Auto"), (15, "8"), (16, "Off")]
    } else if command == "T-Freq"@ {
        seq![(4usize, "Off"), (6, "0")]
    } else if command == "T-Group"@ {
        seq![(9usize, "Off")]
    } else if command == "TGID"@ {
        seq![(8usize, "2"), (9, "0"), (10, "Off"), (11, "Auto"), (12, "Off"), (13, "On"), (14, "Off"), (15, "Off")]
    } else {
        Seq::empty()
    }
}

/// The standard P25 700/800/900 MHz band plan, exactly as a real SDS150 favorites file
/// emits it (fields after the `BandPlan_P25` command; the leading field is the blank MyId).
pub open spec fn bandplan_table() -> Seq<&'static str> {
    seq!["", "851006250", "6250", "762006250", "6250", "851012500", "12500", "762006250", "12500", "935012500", "12500", "935012500", "12500", "0", "0", "0", "0", "0", "0", "0", "0", "0", "0", "0", "0", "0", "0", "0", "0", "0", "0", "0", "0", "0", "0", "3", "3", "0", "3", "0", "0", "0", "0", "0", "0", "0", "0", "0", "0"]
}

/// Editable per-channel value field columns (C-Freq and TGID layouts differ).
pub open spec fn value_column(command: Seq<char>, field: Seq<char>) -> Option<usize> {
    if command == "C-Freq"@ && field == "delay"@ {
        Some(10usize)
    } else if command == "TGID"@ && field == "delay"@ {
        Some(8usize)
    } else if command == "C-Freq"@ && field == "attenuator"@ {
        Some(9usize)
    } else if command == "C-Freq"@ && field == "volumeOffset"@ {
        Some(11usize)
    } else if command == "TGID"@ && field == "volumeOffset"@ {
        Some(9usize)
    } else if command == "C-Freq"@ && field == "modulation"@ {
        Some(6usize)
    } else if command == "TGID"@ && field == "audioType"@ {
        Some(6usize)
    } else if command == "C-Freq"@ && field == "alertTone"@ {
        Some(12usize)
    } else if command == "TGID"@ && field == "alertTone"@ {
        Some(10usize)
    } else if command == "C-Freq"@ && field == "alertVolume"@ {
        Some(13usize)
    } else if command == "TGID"@ && field == "alertVolume"@ {
        Some(11usize)
    } else if command == "C-Freq"@ && field == "alertColor"@ {
        Some(14usize)
    } else if command == "TGID"@ && field == "alertColor"@ {
        Some(12usize)
    } else if command == "C-Freq"@ && field == "alertPattern"@ {
        Some(15usize)
    } else if command == "TGID"@ && field == "alertPattern"@ {
        Some(13usize)
    } else if command == "C-Freq"@ && field == "numberTag"@ {
        Some(16usize)
    } else if command == "TGID"@ && field == "numberTag"@ {
        Some(14usize)
    } else {
        None
    }
}

/// The enumerated options of a per-channel value field.
pub open spec fn value_options(field: Seq<char>) -> Seq<Seq<char>> {
    if field == "modulation"@ {
        seq!["AUTO"@, "AM"@, "NFM"@, "FM"@]
    } else if field == "audioType"@ {
        seq!["ALL"@, "ANALOG"@, "DIGITAL"@]
    } else if field == "delay"@ {
        seq!["30"@, "10"@, "5"@, "4"@, "3"@, "2"@, "1"@, "0"@, "-5"@, "-10"@]
    } else if field == "volumeOffset"@ {
        seq!["-3"@, "-2"@, "-1"@, "0"@, "1"@, "2"@, "3"@]
    } else if field == "alertColor"@ {
        seq!["Off"@, "Blue"@, "Red"@, "Magenta"@, "Green"@, "Cyan"@, "Yellow"@, "White"@]
    } else if field == "alertPattern"@ {
        seq!["On"@, "Slow Blink"@, "Fast Blink"@]
    } else if field == "alertTone"@ {
        seq!["Off"@] + Seq::new(9, |i: int| decimal((i + 1) as nat))
    } else if field == "alertVolume"@ {
        seq!["Auto"@] + Seq::new(15, |i: int| decimal((i + 1) as nat))
    } else {
        Seq::empty()
    }
}

pub open spec fn is_avoid_record(command: Seq<char>) -> bool {
    command == "Trunk"@ || command == "Conventional"@ || command == "T-Group"@ || command == "C-Group"@
        || command == "TGID"@ || command == "C-Freq"@ || command == "T-Freq"@
}

/// Field count of an `F-List` record.
pub const F_LIST_FIELDS: usize = 118;

/// Number of department-quick-key slots in a `DQKs_Status` line.
pub const DQKS_SLOTS: usize = 100;

/// The `DQKs_Status` line: command, one blank field, then 100 uniform slots.
pub open spec fn dqks_line(on: bool) -> Seq<Seq<char>> {
    seq!["DQKs_Status"@, ""@] + Seq::new(DQKS_SLOTS as nat, |i: int| if on { "On"@ } else { "Off"@ })
}

/// A fresh `F-List` entry: name, slot file, LocationControl Off, Monitor On,
/// Quick key 0, every other field Off; 118 fields.
pub open spec fn f_list_line(label: Seq<char>, filename: Seq<char>) -> Seq<Seq<char>> {
    seq!["F-List"@, label, filename, "Off"@, "On"@, "0"@] + Seq::new((F_LIST_FIELDS - 6) as nat, |i: int| "Off"@)
}

fn strs_to_strings(v: &[&str]) -> (r: Vec<String>)
    ensures
        crate::format::strings_view(r@) == strs_view(v@),
{
    let mut r: Vec<String> = Vec::new();
    let mut i: usize = 0;
    while i < v.len()
        invariant
            i <= v@.len(),
            r@.len() == i,
            forall|k: int| 0 <= k < i ==> #[trigger] r@[k]@ == v@[k]@,
        decreases v@.len() - i,
    {
        r.push(copy_str(v[i]));
        i += 1;
    }
    assert(crate::format::strings_view(r@) =~= strs_view(v@));
    r
}

/// `first`, then "1" … `n`.
fn numbered_options(first: &str, n: u64) -> (r: Vec<String>)
    requires
        n < 1000,
    ensures
        crate::format::strings_view(r@) == seq![first@] + Seq::new(n as nat, |i: int| decimal((i + 1) as nat)),
{
    let mut r: Vec<String> = Vec::new();
    r.push(copy_str(first));
    let mut k: u64 = 1;
    while k <= n
        invariant
            1 <= k <= n + 1,
            n < 1000,
            r@.len() == k,
            r@[0]@ == first@,
            forall|j: int| 1 <= j < k ==> #[trigger] r@[j]@ == decimal(j as nat),
        decreases n + 1 - k,
    {
        r.push(decimal_string(k));
        k += 1;
    }
    assert(crate::format::strings_view(r@) =~= seq![first@] + Seq::new(n as nat, |i: int| decimal((i + 1) as nat)));
    r
}

/// The SDS150 scanner profile. Stateless; cheap to construct.
#[derive(Debug, Clone, Copy, Default)]
pub struct Sds150;

impl Sds150 {
    pub fn new() -> (r: Self) {
        Sds150
    }
}

impl RadioProfile for Sds150 {
    open spec fn spec_class(&self) -> RadioClass {
        RadioClass::SdCardScanner
    }

    open spec fn spec_id(&self) -> Seq<char> {
        "sds150"@
    }

    open spec fn spec_name(&self) -> Seq<char> {
        "SDS150"@
    }

    open spec fn spec_maker(&self) -> Seq<char> {
        "Uniden"@
    }

    open spec fn spec_transport(&self) -> Seq<char> {
        "SD card"@
    }

    open spec fn spec_sd_model_key(&self) -> Option<(Seq<char>, Seq<char>)> {
        Some(("BCDx36HP"@, "1.00"@))
    }

    open spec fn spec_clone_magic(&self) -> Option<Seq<u8>> {
        None
    }

    fn id(&self) -> &'static str {
        "sds150"
    }

    fn product_name(&self) -> &'static str {
        "SDS150"
    }

    fn maker(&self) -> &'static str {
        "Uniden"
    }

    fn transport(&self) -> &'static str {
        "SD card"
    }

    fn class(&self) -> RadioClass {
        RadioClass::SdCardScanner
    }

    fn as_sd_card(&self) -> (r: Option<&dyn SdCardProfile>) {
        let r: Option<&dyn SdCardProfile> = Some(self);
        assert(<Sds150 as SdCardProfile>::spec_sd_id(self) == "sds150"@);
        assert(<Sds150 as SdCardProfile>::spec_product_name(self) == "SDS150"@);
        r
    }

    fn as_clone_image(&self) -> (r: Option<&dyn CloneImageProfile>) {
        None
    }
}

impl SdCardProfile for Sds150 {
    open spec fn spec_model_key(&self) -> (Seq<char>, Seq<char>) {
        ("BCDx36HP"@, "1.00"@)
    }

    open spec fn spec_sd_id(&self) -> Seq<char> {
        "sds150"@
    }

    open spec fn spec_sd_layout(&self) -> SdLayout {
        SdLayout {
            model_folder: "BCDx36HP",
            favorites_dir: "favorites_lists",
            favorites_list_cfg: "f_list.cfg",
            hpdb_dir: "HPDB",
            hpdb_cfg: "hpdb.cfg",
            profile_cfg: "profile.cfg",
            discovery_cfg: "discvery.cfg",
            app_data_cfg: "app_data.cfg",
        }
    }

    open spec fn spec_record_schema(&self, command: Seq<char>) -> Option<SpecSchema> {
        sds150_schema(command)
    }

    open spec fn spec_synthesized_records(&self) -> Seq<Seq<char>> {
        seq!["DQKs_Status"@]
    }

    open spec fn spec_dqks_status_line(&self, on: bool) -> Option<Seq<Seq<char>>> {
        Some(dqks_line(on))
    }

    open spec fn spec_p25_bandplan(&self) -> Option<Seq<Seq<char>>> {
        Some(strs_view(bandplan_table()))
    }

    open spec fn spec_f_list_entry(&self, label: Seq<char>, filename: Seq<char>) -> Option<Seq<Seq<char>>> {
        Some(f_list_line(label, filename))
    }

    open spec fn spec_field_defaults(&self, command: Seq<char>) -> Seq<(usize, Seq<char>)> {
        defaults_view(defaults_table(command))
    }

    open spec fn spec_avoid_column(&self, command: Seq<char>) -> Option<usize> {
        if is_avoid_record(command) { Some(4) } else { None }
    }

    open spec fn spec_priority_column(&self, command: Seq<char>) -> Option<usize> {
        if command == "C-Freq"@ { Some(17) } else if command == "TGID"@ { Some(15) } else { None }
    }

    open spec fn spec_channel_value_column(&self, command: Seq<char>, field: Seq<char>) -> Option<usize> {
        value_column(command, field)
    }

    open spec fn spec_channel_value_fields(&self) -> Seq<Seq<char>> {
        seq!["delay"@, "attenuator"@, "volumeOffset"@, "modulation"@, "audioType"@, "numberTag"@, "alertTone"@,
            "alertVolume"@, "alertColor"@, "alertPattern"@]
    }

    open spec fn spec_f_list_fields(&self) -> (Option<usize>, Option<usize>, Option<usize>) {
        (Some(4), Some(5), Some(6))
    }

    open spec fn spec_product_name(&self) -> Seq<char> {
        "SDS150"@
    }

    open spec fn spec_serial_model_id(&self) -> Option<Seq<char>> {
        Some("SDS150GBT"@)
    }

    open spec fn spec_limits(&self) -> ScannerLimits {
        ScannerLimits { max_favorites_lists: 256, max_favorite_list_bytes: 1_048_576, quick_keys: 100 }
    }

    open spec fn spec_channel_value_options(&self, field: Seq<char>) -> Seq<Seq<char>> {
        value_options(field)
    }

    fn id(&self) -> &'static str {
        "sds150"
    }

    fn product_name(&self) -> &'static str {
        "SDS150"
    }

    fn maker(&self) -> &'static str {
        "Uniden"
    }

    fn transport(&self) -> &'static str {
        "SD card"
    }

    fn class(&self) -> RadioClass {
        RadioClass::SdCardScanner
    }

    /// 256 favorites lists, 1 MB each, and 100 quick keys.
    fn limits(&self) -> (r: ScannerLimits)
        ensures
            r.max_favorites_lists == 256,
            r.max_favorite_list_bytes == 1_048_576,
            r.quick_keys == 100,
    {
        ScannerLimits { max_favorites_lists: 256, max_favorite_list_bytes: 1_048_576, quick_keys: 100 }
    }

    fn model_key(&self) -> (r: ModelKey) {
        ModelKey::new("BCDx36HP", "1.00")
    }

    fn serial_model_id(&self) -> (r: Option<&'static str>)
        ensures
            r matches Some(s) && s@ == "SDS150GBT"@,
    {
        Some("SDS150GBT")
    }

    fn sd_layout(&self) -> (r: SdLayout)
        ensures
            r.model_folder@ == "BCDx36HP"@,
            r.favorites_dir@ == "favorites_lists"@,
            r.favorites_list_cfg@ == "f_list.cfg"@,
            r.hpdb_dir@ == "HPDB"@,
            r.hpdb_cfg@ == "hpdb.cfg"@,
            r.profile_cfg@ == "profile.cfg"@,
            r.discovery_cfg@ == "discvery.cfg"@,
            r.app_data_cfg@ == "app_data.cfg"@,
    {
        SdLayout {
            model_folder: "BCDx36HP",
            favorites_dir: "favorites_lists",
            favorites_list_cfg: "f_list.cfg",
            hpdb_dir: "HPDB",
            hpdb_cfg: "hpdb.cfg",
            profile_cfg: "profile.cfg",
            discovery_cfg: "discvery.cfg",
            app_data_cfg: "app_data.cfg",
        }
    }

    fn record_schema(&self, command: &str) -> (r: Option<RecordSchema>) {
        if str_eq(command, "TargetModel") {
            Some(RecordSchema::header("TargetModel", 2))
        } else if str_eq(command, "FormatVersion") {
            Some(RecordSchema::header("FormatVersion", 2))
        } else if str_eq(command, "DateModified") {
            Some(RecordSchema::header("DateModified", 2))
        } else if str_eq(command, "Conventional") {
            Some(RecordSchema::hier("Conventional", 15, Some(3usize), None).with_tech(6))
        } else if str_eq(command, "C-Group") {
            Some(RecordSchema::hier("C-Group", 11, Some(3usize), Some(geo_group_exec())))
        } else if str_eq(command, "C-Freq") {
            Some(RecordSchema::hier("C-Freq", 18, Some(3usize), None).with_channel(ChannelColumns { freq: Some(5usize), tgid: None, mode: Some(6usize), tone: Some(7usize), service_type: Some(8usize) }))
        } else if str_eq(command, "Trunk") {
            Some(RecordSchema::hier("Trunk", 22, Some(3usize), None).with_tech(6))
        } else if str_eq(command, "Site") {
            Some(RecordSchema::hier("Site", 20, Some(3usize), Some(geo_site_exec())))
        } else if str_eq(command, "T-Group") {
            Some(RecordSchema::hier("T-Group", 10, Some(3usize), Some(geo_group_exec())))
        } else if str_eq(command, "T-Freq") {
            Some(RecordSchema::hier("T-Freq", 9, None, None).with_channel(ChannelColumns { freq: Some(5usize), tgid: None, mode: None, tone: None, service_type: None }))
        } else if str_eq(command, "TGID") {
            Some(RecordSchema::hier("TGID", 17, Some(3usize), None).with_channel(ChannelColumns { freq: None, tgid: Some(5usize), mode: Some(6usize), tone: None, service_type: Some(7usize) }))
        } else if str_eq(command, "AreaState") {
            Some(RecordSchema::header("AreaState", 3))
        } else if str_eq(command, "AreaCounty") {
            Some(RecordSchema::header("AreaCounty", 3))
        } else if str_eq(command, "Rectangle") {
            Some(RecordSchema::header("Rectangle", 6))
        } else if str_eq(command, "BandPlan_P25") {
            Some(RecordSchema::header("BandPlan_P25", 50))
        } else if str_eq(command, "DQKs_Status") {
            Some(RecordSchema::header("DQKs_Status", 102))
        } else if str_eq(command, "StateInfo") {
            Some(RecordSchema::index("StateInfo", 5, Some(3usize), None))
        } else if str_eq(command, "CountyInfo") {
            Some(RecordSchema::index("CountyInfo", 4, Some(3usize), None))
        } else if str_eq(command, "LM") {
            Some(RecordSchema::index("LM", 9, None, None))
        } else if str_eq(command, "LM_Frequency") {
            Some(RecordSchema::header("LM_Frequency", 4))
        } else {
            None
        }
    }

    fn favorites_synthesized_records(&self) -> (r: Vec<&'static str>) {
        let v: Vec<&'static str> = vec!["DQKs_Status"];
        assert(strs_view(v@) =~= seq!["DQKs_Status"@]);
        v
    }

    fn dqks_status_line(&self, on: bool) -> (r: Option<Vec<String>>) {
        let value = if on { "On" } else { "Off" };
        let mut fields: Vec<String> = Vec::new();
        fields.push("DQKs_Status".to_owned());
        fields.push(String::new());
        proof { reveal_strlit(""); }
        assert(fields@[1]@ =~= ""@);
        let mut i: usize = 0;
        while i < DQKS_SLOTS
            invariant
                i <= DQKS_SLOTS,
                value@ == (if on { "On"@ } else { "Off"@ }),
                fields@.len() == 2 + i,
                fields@[0]@ == "DQKs_Status"@,
                fields@[1]@ == ""@,
                forall|k: int| 2 <= k < 2 + i ==> #[trigger] fields@[k]@ == value@,
            decreases DQKS_SLOTS - i,
        {
            fields.push(copy_str(value));
            i += 1;
        }
        proof { reveal_strlit(""); }
        assert(crate::format::strings_view(fields@) =~= dqks_line(on));
        Some(fields)
    }

    fn standard_p25_bandplan(&self) -> (r: Option<Vec<&'static str>>) {
        let v: Vec<&'static str> = vec!["", "851006250", "6250", "762006250", "6250", "851012500", "12500", "762006250", "12500", "935012500", "12500", "935012500", "12500", "0", "0", "0", "0", "0", "0", "0", "0", "0", "0", "0", "0", "0", "0", "0", "0", "0", "0", "0", "0", "0", "0", "3", "3", "0", "3", "0", "0", "0", "0", "0", "0", "0", "0", "0", "0"];
        assert(v@ =~= bandplan_table());
        Some(v)
    }

    fn avoid_column(&self, command: &str) -> (r: Option<usize>) {
        if str_eq(command, "Trunk") || str_eq(command, "Conventional") || str_eq(command, "T-Group")
            || str_eq(command, "C-Group") || str_eq(command, "TGID") || str_eq(command, "C-Freq")
            || str_eq(command, "T-Freq") {
            Some(4)
        } else {
            None
        }
    }

    fn priority_column(&self, command: &str) -> (r: Option<usize>) {
        if str_eq(command, "C-Freq") {
            Some(17)
        } else if str_eq(command, "TGID") {
            Some(15)
        } else {
            None
        }
    }

    fn channel_value_fields(&self) -> (r: Vec<&'static str>)
        ensures
            strs_view(r@) == seq!["delay"@, "attenuator"@, "volumeOffset"@, "modulation"@, "audioType"@,
                "numberTag"@, "alertTone"@, "alertVolume"@, "alertColor"@, "alertPattern"@],
    {
        let v: Vec<&'static str> = vec!["delay", "attenuator", "volumeOffset", "modulation", "audioType",
            "numberTag", "alertTone", "alertVolume", "alertColor", "alertPattern"];
        assert(strs_view(v@) =~= seq!["delay"@, "attenuator"@, "volumeOffset"@, "modulation"@, "audioType"@,
            "numberTag"@, "alertTone"@, "alertVolume"@, "alertColor"@, "alertPattern"@]);
        v
    }

    fn channel_value_column(&self, command: &str, field: &str) -> (r: Option<usize>) {
        if str_eq(command, "C-Freq") && str_eq(field, "delay") {
            Some(10)
        } else if str_eq(command, "TGID") && str_eq(field, "delay") {
            Some(8)
        } else if str_eq(command, "C-Freq") && str_eq(field, "attenuator") {
            Some(9)
        } else if str_eq(command, "C-Freq") && str_eq(field, "volumeOffset") {
            Some(11)
        } else if str_eq(command, "TGID") && str_eq(field, "volumeOffset") {
            Some(9)
        } else if str_eq(command, "C-Freq") && str_eq(field, "modulation") {
            Some(6)
        } else if str_eq(command, "TGID") && str_eq(field, "audioType") {
            Some(6)
        } else if str_eq(command, "C-Freq") && str_eq(field, "alertTone") {
            Some(12)
        } else if str_eq(command, "TGID") && str_eq(field, "alertTone") {
            Some(10)
        } else if str_eq(command, "C-Freq") && str_eq(field, "alertVolume") {
            Some(13)
        } else if str_eq(command, "TGID") && str_eq(field, "alertVolume") {
            Some(11)
        } else if str_eq(command, "C-Freq") && str_eq(field, "alertColor") {
            Some(14)
        } else if str_eq(command, "TGID") && str_eq(field, "alertColor") {
            Some(12)
        } else if str_eq(command, "C-Freq") && str_eq(field, "alertPattern") {
            Some(15)
        } else if str_eq(command, "TGID") && str_eq(field, "alertPattern") {
            Some(13)
        } else if str_eq(command, "C-Freq") && str_eq(field, "numberTag") {
            Some(16)
        } else if str_eq(command, "TGID") && str_eq(field, "numberTag") {
            Some(14)
        } else {
            None
        }
    }

    fn channel_value_options(&self, field: &str) -> (r: Vec<String>)
        ensures
            crate::format::strings_view(r@) == value_options(field@),
    {
        if str_eq(field, "modulation") {
            let v: Vec<&'static str> = vec!["AUTO", "AM", "NFM", "FM"];
            let r = strs_to_strings(v.as_slice());
            assert(crate::format::strings_view(r@) =~= value_options(field@));
            r
        } else if str_eq(field, "audioType") {
            let v: Vec<&'static str> = vec!["ALL", "ANALOG", "DIGITAL"];
            let r = strs_to_strings(v.as_slice());
            assert(crate::format::strings_view(r@) =~= value_options(field@));
            r
        } else if str_eq(field, "delay") {
            let v: Vec<&'static str> = vec!["30", "10", "5", "4", "3", "2", "1", "0", "-5", "-10"];
            let r = strs_to_strings(v.as_slice());
            assert(crate::format::strings_view(r@) =~= value_options(field@));
            r
        } else if str_eq(field, "volumeOffset") {
            let v: Vec<&'static str> = vec!["-3", "-2", "-1", "0", "1", "2", "3"];
            let r = strs_to_strings(v.as_slice());
            assert(crate::format::strings_view(r@) =~= value_options(field@));
            r
        } else if str_eq(field, "alertColor") {
            let v: Vec<&'static str> = vec!["Off", "Blue", "Red", "Magenta", "Green", "Cyan", "Yellow", "White"];
            let r = strs_to_strings(v.as_slice());
            assert(crate::format::strings_view(r@) =~= value_options(field@));
            r
        } else if str_eq(field, "alertPattern") {
            let v: Vec<&'static str> = vec!["On", "Slow Blink", "Fast Blink"];
            let r = strs_to_strings(v.as_slice());
            assert(crate::format::strings_view(r@) =~= value_options(field@));
            r
        } else if str_eq(field, "alertTone") {
            numbered_options("Off", 9)
        } else if str_eq(field, "alertVolume") {
            numbered_options("Auto", 15)
        } else {
            let r: Vec<String> = Vec::new();
            assert(crate::format::strings_view(r@) =~= value_options(field@));
            r
        }
    }

    fn favorites_field_defaults(&self, command: &str) -> (r: Vec<(usize, &'static str)>) {
        let r = defaults_exec(command);
        r
    }

    fn f_list_entry(&self, label: &str, filename: &str) -> (r: Option<Vec<String>>) {
        let mut fields: Vec<String> = Vec::new();
        fields.push("F-List".to_owned());
        fields.push(copy_str(label));
        fields.push(copy_str(filename));
        fields.push("Off".to_owned());
        fields.push("On".to_owned());
        fields.push("0".to_owned());
        while fields.len() < F_LIST_FIELDS
            invariant
                6 <= fields@.len() <= F_LIST_FIELDS,
                fields@[0]@ == "F-List"@,
                fields@[1]@ == label@,
                fields@[2]@ == filename@,
                fields@[3]@ == "Off"@,
                fields@[4]@ == "On"@,
                fields@[5]@ == "0"@,
                forall|k: int| 6 <= k < fields@.len() ==> #[trigger] fields@[k]@ == "Off"@,
            decreases F_LIST_FIELDS - fields@.len(),
        {
            fields.push("Off".to_owned());
        }
        assert(crate::format::strings_view(fields@) =~= f_list_line(label@, filename@));
        Some(fields)
    }

    fn f_list_monitor_field(&self) -> (r: Option<usize>) {
        Some(4)
    }

    fn f_list_quick_key_field(&self) -> (r: Option<usize>) {
        Some(5)
    }

    fn f_list_number_tag_field(&self) -> (r: Option<usize>) {
        Some(6)
    }
}

fn defaults_exec(command: &str) -> (r: Vec<(usize, &'static str)>)
    ensures
        r@ == defaults_table(command@),
        defaults_view(r@) == defaults_view(defaults_table(command@)),
{
        if str_eq(command, "Conventional") {
            let v: Vec<(usize, &'static str)> = vec![(7usize, "Off"), (8, "Off"), (9, "0"), (10, "Off"), (11, "Off"), (12, "400"), (13, "Auto"), (14, "8")];
            assert(v@ =~= defaults_table(command@));
            v
        } else if str_eq(command, "C-Freq") {
            let v: Vec<(usize, &'static str)> = vec![(9usize, "Off"), (10, "2"), (11, "0"), (12, "Off"), (13, "Auto"), (14, "Off"), (15, "On"), (16, "Off"), (17, "Off")];
            assert(v@ =~= defaults_table(command@));
            v
        } else if str_eq(command, "Trunk") {
            let v: Vec<(usize, &'static str)> = vec![(7usize, "Off"), (8, "Off"), (9, "Auto"), (10, "Ignore"), (11, "Srch"), (12, "Off"), (13, "Off"), (14, "0"), (15, "Off"), (16, "Off"), (17, "Ignore"), (18, "Off"), (19, "Off"), (20, "On"), (21, "IDAS")];
            assert(v@ =~= defaults_table(command@));
            v
        } else if str_eq(command, "Site") {
            let v: Vec<(usize, &'static str)> = vec![(12usize, "Off"), (13, "400"), (14, "Auto"), (15, "8"), (16, "Off")];
            assert(v@ =~= defaults_table(command@));
            v
        } else if str_eq(command, "T-Freq") {
            let v: Vec<(usize, &'static str)> = vec![(4usize, "Off"), (6, "0")];
            assert(v@ =~= defaults_table(command@));
            v
        } else if str_eq(command, "T-Group") {
            let v: Vec<(usize, &'static str)> = vec![(9usize, "Off")];
            assert(v@ =~= defaults_table(command@));
            v
        } else if str_eq(command, "TGID") {
            let v: Vec<(usize, &'static str)> = vec![(8usize, "2"), (9, "0"), (10, "Off"), (11, "Auto"), (12, "Off"), (13, "On"), (14, "Off"), (15, "Off")];
            assert(v@ =~= defaults_table(command@));
            v
        } else {
            let v: Vec<(usize, &'static str)> = Vec::new();
            assert(v@ =~= defaults_table(command@));
            v
        }
}

/// The SDS150 profile can be synthesized for and converted to the favorites
/// dialect: its default columns are in range and every record type a
/// synthesized system uses has fields.
pub proof fn lemma_sds150_ready(p: &Sds150)
    ensures
        crate::favorites::defaults_fit(p),
        crate::synthesize::schemas_have_fields(p),
{
    assert forall|c: Seq<char>, k: int|
        0 <= k < p.spec_field_defaults(c).len() implies #[trigger] p.spec_field_defaults(c)[k].0 < usize::MAX by {
        let t = defaults_table(c);
        assert(p.spec_field_defaults(c)[k].0 == t[k].0);
        assert(t[k].0 <= 21);
    }
}

} // verus!
