//! The radio-profile traits and the registry. Model-agnostic definitions; concrete
//! profiles (e.g. [`super::sds150::Sds150`]) live in their own modules.

use vstd::prelude::*;
use super::ft60::{CloneSpec, Ft60};
use super::sds150::Sds150;
use crate::format::{FileHeader, opt_string_view};
use crate::text::{str_eq, copy_str};

verus! {

/// Identifies a file-format dialect by the two header sentences every card file
/// carries.
#[derive(Debug, Clone, PartialEq, Eq)]
pub struct ModelKey {
    /// `TargetModel`, e.g. `"BCDx36HP"` — a family tag several models can share.
    pub target_model: String,
    /// `FormatVersion`, e.g. `"1.00"`.
    pub format_version: String,
}

impl ModelKey {
    pub fn new(target_model: &str, format_version: &str) -> (r: Self)
        ensures
            r.target_model@ == target_model@,
            r.format_version@ == format_version@,
    {
        ModelKey { target_model: copy_str(target_model), format_version: copy_str(format_version) }
    }
}

/// Names of the folders and files a model lays down on the SD card (including the
/// real-world `discvery.cfg` misspelling and the must-delete `app_data.cfg`).
#[derive(Debug, Clone, Copy, PartialEq, Eq)]
pub struct SdLayout {
    pub model_folder: &'static str,
    pub favorites_dir: &'static str,
    pub favorites_list_cfg: &'static str,
    pub hpdb_dir: &'static str,
    pub hpdb_cfg: &'static str,
    pub profile_cfg: &'static str,
    /// Misspelled on real cards (`discvery.cfg`). Stored verbatim.
    pub discovery_cfg: &'static str,
    /// Resume-state file, which any writer that changes program data must delete.
    pub app_data_cfg: &'static str,
}

/// How the favorites dialect differs from the full HPDB dialect for a record: the
/// identity columns it keeps but blanks.
#[derive(Debug, Clone, Copy, PartialEq, Eq)]
pub struct FavoritesDialect {
    /// Column indices left empty in a favorites file (empty = record unchanged).
    pub blanked_id_columns: &'static [usize],
}

impl FavoritesDialect {
    /// Record absent from / unchanged in favorites files.
    pub fn none() -> (r: Self)
        ensures
            r.blanked_id_columns@ == Seq::<usize>::empty(),
    {
        let c: &'static [usize] = &[];
        assert(c@ =~= Seq::<usize>::empty());
        FavoritesDialect { blanked_id_columns: c }
    }

    /// Hierarchical record: favorites blank MyId@1 and ParentId@2.
    pub fn hierarchical() -> (r: Self)
        ensures
            r.blanked_id_columns@ == seq![1usize, 2usize],
    {
        let c: &'static [usize] = &[1usize, 2usize];
        assert(c@ =~= seq![1usize, 2usize]);
        FavoritesDialect { blanked_id_columns: c }
    }
}

/// Column indices for a record's geo fields.
#[derive(Debug, Clone, Copy, PartialEq, Eq, Structural)]
pub struct GeoColumns {
    pub lat: usize,
    pub lon: usize,
    pub range: usize,
    pub shape: usize,
}

/// Column indices for a channel record's filterable attributes.
#[derive(Debug, Clone, Copy, PartialEq, Eq, Default, Structural)]
pub struct ChannelColumns {
    /// Frequency in Hz.
    pub freq: Option<usize>,
    /// Talkgroup id.
    pub tgid: Option<usize>,
    /// Modulation / audio type.
    pub mode: Option<usize>,
    /// Squelch tone.
    pub tone: Option<usize>,
    /// RadioReference service-type code.
    pub service_type: Option<usize>,
}

/// Schema for one record/command type: observed field count, the semantic column
/// map (id/parent/name/geo/channel/tech), and the favorites dialect rule.
#[derive(Debug, Clone, Copy, PartialEq, Eq)]
pub struct RecordSchema {
    pub command: &'static str,
    /// Number of tab fields observed for this record on a real card.
    pub field_count: u16,
    pub id_col: Option<usize>,
    pub parent_col: Option<usize>,
    pub name_col: Option<usize>,
    pub geo: Option<GeoColumns>,
    pub channel: Option<ChannelColumns>,
    /// Column holding the system technology on a `Conventional`/`Trunk` header line.
    pub tech_col: Option<usize>,
    pub favorites: FavoritesDialect,
}

/// The content of a schema.
pub struct SpecSchema {
    pub command: Seq<char>,
    pub field_count: u16,
    pub id_col: Option<usize>,
    pub parent_col: Option<usize>,
    pub name_col: Option<usize>,
    pub geo: Option<GeoColumns>,
    pub channel: Option<ChannelColumns>,
    pub tech_col: Option<usize>,
    pub blanked: Seq<usize>,
}

impl View for RecordSchema {
    type V = SpecSchema;

    open spec fn view(&self) -> SpecSchema {
        SpecSchema {
            command: self.command@,
            field_count: self.field_count,
            id_col: self.id_col,
            parent_col: self.parent_col,
            name_col: self.name_col,
            geo: self.geo,
            channel: self.channel,
            tech_col: self.tech_col,
            blanked: self.favorites.blanked_id_columns@,
        }
    }
}

pub open spec fn opt_schema_view(o: Option<RecordSchema>) -> Option<SpecSchema> {
    match o {
        Some(s) => Some(s@),
        None => None,
    }
}

/// A header / global schema: no identity, name, or geo columns.
pub open spec fn header_schema(command: Seq<char>, field_count: u16) -> SpecSchema {
    SpecSchema {
        command, field_count, id_col: None, parent_col: None, name_col: None, geo: None,
        channel: None, tech_col: None, blanked: Seq::empty(),
    }
}

/// A hierarchical schema (MyId@1 / ParentId@2, blanked in favorites).
pub open spec fn hier_schema(command: Seq<char>, field_count: u16, name_col: Option<usize>, geo: Option<GeoColumns>) -> SpecSchema {
    SpecSchema {
        command, field_count, id_col: Some(1), parent_col: Some(2), name_col, geo,
        channel: None, tech_col: None, blanked: seq![1usize, 2usize],
    }
}

/// An HPDB index schema (id@1 / parent@2) that never appears in favorites.
pub open spec fn index_schema(command: Seq<char>, field_count: u16, name_col: Option<usize>, geo: Option<GeoColumns>) -> SpecSchema {
    SpecSchema {
        command, field_count, id_col: Some(1), parent_col: Some(2), name_col, geo,
        channel: None, tech_col: None, blanked: Seq::empty(),
    }
}

impl RecordSchema {
    /// Header / global record: no identity, name, or geo columns.
    pub fn header(command: &'static str, field_count: u16) -> (r: Self)
        ensures
            r@ == header_schema(command@, field_count),
    {
        RecordSchema {
            command,
            field_count,
            id_col: None,
            parent_col: None,
            name_col: None,
            geo: None,
            channel: None,
            tech_col: None,
            favorites: FavoritesDialect::none(),
        }
    }

    /// Hierarchical record present in favorites (MyId@1 / ParentId@2 blanked there).
    pub fn hier(command: &'static str, field_count: u16, name_col: Option<usize>, geo: Option<GeoColumns>) -> (r: Self)
        ensures
            r@ == hier_schema(command@, field_count, name_col, geo),
    {
        RecordSchema {
            command,
            field_count,
            id_col: Some(1),
            parent_col: Some(2),
            name_col,
            geo,
            channel: None,
            tech_col: None,
            favorites: FavoritesDialect::hierarchical(),
        }
    }

    /// HPDB index record (id@1 / parent@2) that never appears in favorites.
    pub fn index(command: &'static str, field_count: u16, name_col: Option<usize>, geo: Option<GeoColumns>) -> (r: Self)
        ensures
            r@ == index_schema(command@, field_count, name_col, geo),
    {
        RecordSchema {
            command,
            field_count,
            id_col: Some(1),
            parent_col: Some(2),
            name_col,
            geo,
            channel: None,
            tech_col: None,
            favorites: FavoritesDialect::none(),
        }
    }

    /// Builder: attach channel attribute columns.
    pub fn with_channel(self, channel: ChannelColumns) -> (r: Self)
        ensures
            r@ == (SpecSchema { channel: Some(channel), ..self@ }),
    {
        let mut s = self;
        s.channel = Some(channel);
        s
    }

    /// Builder: mark the system-technology column on a header line.
    pub fn with_tech(self, col: usize) -> (r: Self)
        ensures
            r@ == (SpecSchema { tech_col: Some(col), ..self@ }),
    {
        let mut s = self;
        s.tech_col = Some(col);
        s
    }
}

/// Known capacity limits for a scanner model. `0` means "unknown".
#[derive(Debug, Clone, Copy, Default, PartialEq, Eq)]
pub struct ScannerLimits {
    pub max_favorites_lists: u32,
    pub max_favorite_list_bytes: u64,
    pub quick_keys: u32,
}

/// Which value a tone-mode option needs from the user.
#[derive(Debug, Clone, Copy, PartialEq, Eq, Structural)]
pub enum ToneValueKind {
    /// No value needed (e.g. "Off").
    NoValue,
    /// A CTCSS tone frequency.
    Ctcss,
    /// A DCS/DTCS code.
    Dcs,
    /// Both a CTCSS tone and a DCS code (the cross modes).
    Cross,
}

/// One selectable value for an editable radio field: the human `label` a UI shows and
/// the on-radio `code` the writer stores.
#[derive(Debug, Clone, PartialEq, Eq)]
pub struct FieldOption {
    pub label: String,
    pub code: u8,
    pub value_kind: ToneValueKind,
}

impl FieldOption {
    /// A plain option (label + code); not a tone mode.
    pub fn new(label: &str, code: u8) -> (r: Self)
        ensures
            r.label@ == label@,
            r.code == code,
            r.value_kind == ToneValueKind::NoValue,
    {
        FieldOption { label: copy_str(label), code, value_kind: ToneValueKind::NoValue }
    }
}

/// The editable-field option sets a clone-image radio offers a UI.
#[derive(Debug, Clone, PartialEq, Eq, Default)]
pub struct CloneFieldOptions {
    pub modes: Vec<FieldOption>,
    pub tone_modes: Vec<FieldOption>,
    pub steps: Vec<FieldOption>,
    pub powers: Vec<FieldOption>,
    pub duplexes: Vec<FieldOption>,
}

/// The class of radio a profile describes.
#[derive(Debug, Clone, Copy, PartialEq, Eq, Structural)]
pub enum RadioClass {
    /// A database scanner programmed via an SD-card file format (e.g. the SDS150).
    SdCardScanner,
    /// A radio programmed by cloning a fixed EEPROM image over serial (e.g. the FT-60R).
    CloneImage,
}

/// A header matches a model key: same `TargetModel`, and same `FormatVersion` when
/// the file carries one.
pub open spec fn header_matches_key(header: FileHeader, model: Seq<char>, version: Seq<char>) -> bool {
    &&& opt_string_view(header.target_model) == Some(model)
    &&& match opt_string_view(header.format_version) {
        Some(v) => v == version,
        None => true,
    }
}

/// The small cross-cutting base every radio shares: its identity and class.
pub trait RadioProfile {
    /// The class this radio belongs to.
    spec fn spec_class(&self) -> RadioClass;
    /// The stable identifier.
    spec fn spec_id(&self) -> Seq<char>;
    /// The product name.
    spec fn spec_name(&self) -> Seq<char>;
    /// The manufacturer.
    spec fn spec_maker(&self) -> Seq<char>;
    /// The transport descriptor.
    spec fn spec_transport(&self) -> Seq<char>;
    /// The `(TargetModel, FormatVersion)` of its SD-card contract, if it has one.
    spec fn spec_sd_model_key(&self) -> Option<(Seq<char>, Seq<char>)>;
    /// The image magic of its clone-image contract, if it has one.
    spec fn spec_clone_magic(&self) -> Option<Seq<u8>>;

    /// Stable identifier for persistence + the UI radio list, e.g. `"sds150"`.
    fn id(&self) -> (r: &'static str)
        ensures
            r@ == self.spec_id();

    /// Marketing/product name, e.g. `"SDS150"`.
    fn product_name(&self) -> (r: &'static str)
        ensures
            r@ == self.spec_name();

    /// Manufacturer, e.g. `"Uniden"`.
    fn maker(&self) -> (r: &'static str)
        ensures
            r@ == self.spec_maker();

    /// Short transport / programming descriptor for the UI.
    fn transport(&self) -> (r: &'static str)
        ensures
            r@ == self.spec_transport();

    /// Which class of radio this is.
    fn class(&self) -> (r: RadioClass)
        ensures
            r == self.spec_class();

    /// The SD-card contract, if this is an SD-card scanner (else `None`).
    fn as_sd_card(&self) -> (r: Option<&dyn SdCardProfile>)
        ensures
            r is Some <==> self.spec_class() == RadioClass::SdCardScanner,
            r matches Some(p) ==> self.spec_sd_model_key() == Some(p.spec_model_key())
                && p.spec_sd_id() == self.spec_id() && p.spec_product_name() == self.spec_name();

    /// The clone-image contract, if this is a clone-image radio (else `None`).
    fn as_clone_image(&self) -> (r: Option<&dyn CloneImageProfile>)
        ensures
            r is Some <==> self.spec_class() == RadioClass::CloneImage,
            r matches Some(p) ==> self.spec_clone_magic() == Some(p.spec_magic())
                && p.spec_clone_id() == self.spec_id() && p.spec_clone_name() == self.spec_name();
}

/// What the registry knows of one profile: its id, class, and the model key or
/// image magic by which its class's contract recognizes files.
pub struct ProfileInfo {
    pub id: Seq<char>,
    pub name: Seq<char>,
    pub class: RadioClass,
    pub model_key: Option<(Seq<char>, Seq<char>)>,
    pub magic: Option<Seq<u8>>,
}

/// The registry's description of a profile.
pub open spec fn profile_info<T: RadioProfile + ?Sized>(p: &T) -> ProfileInfo {
    ProfileInfo {
        id: p.spec_id(),
        name: p.spec_name(),
        class: p.spec_class(),
        model_key: p.spec_sd_model_key(),
        magic: p.spec_clone_magic(),
    }
}

/// The model keys of the SD-card profiles among `ps`, in order.
pub open spec fn sd_keys(ps: Seq<ProfileInfo>) -> Seq<(Seq<char>, Seq<char>)>
    decreases ps.len(),
{
    if ps.len() == 0 {
        Seq::empty()
    } else {
        let prev = sd_keys(ps.drop_last());
        if ps.last().class == RadioClass::SdCardScanner {
            prev.push(ps.last().model_key->0)
        } else {
            prev
        }
    }
}

/// The image magics of the clone-image profiles among `ps`, in order.
pub open spec fn clone_magics(ps: Seq<ProfileInfo>) -> Seq<Seq<u8>>
    decreases ps.len(),
{
    if ps.len() == 0 {
        Seq::empty()
    } else {
        let prev = clone_magics(ps.drop_last());
        if ps.last().class == RadioClass::CloneImage {
            prev.push(ps.last().magic->0)
        } else {
            prev
        }
    }
}

/// The first of `keys` a file header matches.
pub open spec fn first_key_match(keys: Seq<(Seq<char>, Seq<char>)>, header: FileHeader) -> Option<int>
    decreases keys.len(),
{
    if keys.len() == 0 {
        None
    } else {
        match first_key_match(keys.drop_last(), header) {
            Some(i) => Some(i),
            None => if header_matches_key(header, keys.last().0, keys.last().1) {
                Some(keys.len() - 1)
            } else {
                None
            },
        }
    }
}

/// The registry position of the first SD-card entry whose model key a header matches.
pub open spec fn first_sd_entry(v: Seq<ProfileInfo>, header: FileHeader) -> Option<int>
    decreases v.len(),
{
    if v.len() == 0 {
        None
    } else {
        match first_sd_entry(v.drop_last(), header) {
            Some(i) => Some(i),
            None => if v.last().class == RadioClass::SdCardScanner && header_matches_key(
                header,
                (v.last().model_key->0).0,
                (v.last().model_key->0).1,
            ) {
                Some(v.len() - 1)
            } else {
                None
            },
        }
    }
}

/// The registry position of the first clone-image entry whose magic image bytes start with.
pub open spec fn first_clone_entry(v: Seq<ProfileInfo>, bytes: Seq<u8>) -> Option<int>
    decreases v.len(),
{
    if v.len() == 0 {
        None
    } else {
        match first_clone_entry(v.drop_last(), bytes) {
            Some(i) => Some(i),
            None => if v.last().class == RadioClass::CloneImage && starts_with_magic(bytes, v.last().magic->0) {
                Some(v.len() - 1)
            } else {
                None
            },
        }
    }
}

/// The registry position of the first clone-image entry.
pub open spec fn first_clone_index(v: Seq<ProfileInfo>) -> Option<int>
    decreases v.len(),
{
    if v.len() == 0 {
        None
    } else {
        match first_clone_index(v.drop_last()) {
            Some(i) => Some(i),
            None => if v.last().class == RadioClass::CloneImage { Some(v.len() - 1) } else { None },
        }
    }
}

proof fn lemma_first_sd_entry_extends(v: Seq<ProfileInfo>, m: int, header: FileHeader, j: int)
    requires
        0 <= m <= v.len(),
        first_sd_entry(v.take(m), header) == Some(j),
    ensures
        first_sd_entry(v, header) == Some(j),
    decreases v.len() - m,
{
    if m < v.len() {
        assert(v.take(m + 1).drop_last() =~= v.take(m));
        lemma_first_sd_entry_extends(v, m + 1, header, j);
    } else {
        assert(v.take(m) =~= v);
    }
}

proof fn lemma_first_clone_entry_extends(v: Seq<ProfileInfo>, m: int, bytes: Seq<u8>, j: int)
    requires
        0 <= m <= v.len(),
        first_clone_entry(v.take(m), bytes) == Some(j),
    ensures
        first_clone_entry(v, bytes) == Some(j),
    decreases v.len() - m,
{
    if m < v.len() {
        assert(v.take(m + 1).drop_last() =~= v.take(m));
        lemma_first_clone_entry_extends(v, m + 1, bytes, j);
    } else {
        assert(v.take(m) =~= v);
    }
}

proof fn lemma_first_clone_index_extends(v: Seq<ProfileInfo>, m: int, j: int)
    requires
        0 <= m <= v.len(),
        first_clone_index(v.take(m)) == Some(j),
    ensures
        first_clone_index(v) == Some(j),
    decreases v.len() - m,
{
    if m < v.len() {
        assert(v.take(m + 1).drop_last() =~= v.take(m));
        lemma_first_clone_index_extends(v, m + 1, j);
    } else {
        assert(v.take(m) =~= v);
    }
}

/// Image bytes start with `magic`.
pub open spec fn starts_with_magic(bytes: Seq<u8>, magic: Seq<u8>) -> bool {
    bytes.len() >= magic.len() && bytes.take(magic.len() as int) == magic
}

/// The first of `magics` that image bytes start with.
pub open spec fn first_magic_match(magics: Seq<Seq<u8>>, bytes: Seq<u8>) -> Option<int>
    decreases magics.len(),
{
    if magics.len() == 0 {
        None
    } else {
        match first_magic_match(magics.drop_last(), bytes) {
            Some(i) => Some(i),
            None => if starts_with_magic(bytes, magics.last()) {
                Some(magics.len() - 1)
            } else {
                None
            },
        }
    }
}

/// The characters of each string in an optional list.
pub open spec fn opt_strings_view(o: Option<Vec<String>>) -> Option<Seq<Seq<char>>> {
    match o {
        Some(v) => Some(crate::format::strings_view(v@)),
        None => None,
    }
}

/// The characters of each string slice.
pub open spec fn strs_view(s: Seq<&str>) -> Seq<Seq<char>> {
    Seq::new(s.len(), |i: int| s[i]@)
}

/// The characters of each `(column, value)` default.
pub open spec fn defaults_view(s: Seq<(usize, &str)>) -> Seq<(usize, Seq<char>)> {
    Seq::new(s.len(), |i: int| (s[i].0, s[i].1@))
}

/// One SD-card scanner family's complete format description. Implement + register to
/// add support for a new model. It carries the same identity as the model's [`RadioProfile`].
pub trait SdCardProfile {
    /// The `(TargetModel, FormatVersion)` this profile handles.
    spec fn spec_model_key(&self) -> (Seq<char>, Seq<char>);
    /// The schema of a command.
    spec fn spec_record_schema(&self, command: Seq<char>) -> Option<SpecSchema>;
    /// Record types a complete favorites file carries that HPDB source lacks.
    spec fn spec_synthesized_records(&self) -> Seq<Seq<char>>;
    /// The per-system `DQKs_Status` line (full fields).
    spec fn spec_dqks_status_line(&self, on: bool) -> Option<Seq<Seq<char>>>;
    /// The standard P25 band plan (fields after the command).
    spec fn spec_p25_bandplan(&self) -> Option<Seq<Seq<char>>>;
    /// A new `F-List` line (full fields).
    spec fn spec_f_list_entry(&self, label: Seq<char>, filename: Seq<char>) -> Option<Seq<Seq<char>>>;
    /// The favorites scan-setting defaults of a command.
    spec fn spec_field_defaults(&self, command: Seq<char>) -> Seq<(usize, Seq<char>)>;
    /// The Avoid column of a command.
    spec fn spec_avoid_column(&self, command: Seq<char>) -> Option<usize>;
    /// The Priority column of a command.
    spec fn spec_priority_column(&self, command: Seq<char>) -> Option<usize>;
    /// The column of a named per-channel value field.
    spec fn spec_channel_value_column(&self, command: Seq<char>, field: Seq<char>) -> Option<usize>;
    /// The editable per-channel value setting names.
    spec fn spec_channel_value_fields(&self) -> Seq<Seq<char>>;
    /// The `F-List` Monitor / Quick key / NumberTag field indices.
    spec fn spec_f_list_fields(&self) -> (Option<usize>, Option<usize>, Option<usize>);
    /// The SD-card folder/file names.
    spec fn spec_sd_layout(&self) -> SdLayout;
    /// The product name.
    spec fn spec_product_name(&self) -> Seq<char>;
    /// The serial-protocol model id, if characterized.
    spec fn spec_serial_model_id(&self) -> Option<Seq<char>>;
    /// The capacity limits.
    spec fn spec_limits(&self) -> ScannerLimits;
    /// The selectable values of a per-channel value field.
    spec fn spec_channel_value_options(&self, field: Seq<char>) -> Seq<Seq<char>>;

    /// The stable identifier.
    spec fn spec_sd_id(&self) -> Seq<char>;

    /// Stable identifier (same as the radio's [`RadioProfile::id`]).
    fn id(&self) -> (r: &'static str)
        ensures
            r@ == self.spec_sd_id();

    /// Marketing/product name.
    fn product_name(&self) -> (r: &'static str)
        ensures
            r@ == self.spec_product_name();

    /// Manufacturer.
    fn maker(&self) -> &'static str;

    /// Short transport / programming descriptor.
    fn transport(&self) -> &'static str;

    /// The radio class: always [`RadioClass::SdCardScanner`].
    fn class(&self) -> (r: RadioClass)
        ensures
            r == RadioClass::SdCardScanner;

    /// Capacity limits for this model (for the UI).
    fn limits(&self) -> (r: ScannerLimits)
        ensures
            r == self.spec_limits();

    /// The `(TargetModel, FormatVersion)` this profile handles.
    fn model_key(&self) -> (r: ModelKey)
        ensures
            (r.target_model@, r.format_version@) == self.spec_model_key();

    /// The serial-protocol model id, if characterized.
    fn serial_model_id(&self) -> (r: Option<&'static str>)
        ensures
            match r {
                Some(s) => self.spec_serial_model_id() == Some(s@),
                None => self.spec_serial_model_id() is None,
            };

    /// SD-card folder/file names for this model.
    fn sd_layout(&self) -> (r: SdLayout)
        ensures
            r == self.spec_sd_layout();

    /// Schema for a command, if known.
    fn record_schema(&self, command: &str) -> (r: Option<RecordSchema>)
        ensures
            opt_schema_view(r) == self.spec_record_schema(command@);

    /// Record types a favorites file carries that the HPDB source files do not, and
    /// which a writer must therefore synthesize.
    fn favorites_synthesized_records(&self) -> (r: Vec<&'static str>)
        ensures
            strs_view(r@) == self.spec_synthesized_records();

    /// The per-system `DQKs_Status` line a synthesized favorites list needs, as full
    /// fields (command first). `on` selects the blanket quick-key value.
    fn dqks_status_line(&self, on: bool) -> (r: Option<Vec<String>>)
        ensures
            opt_strings_view(r) == self.spec_dqks_status_line(on);

    /// The standard P25 band plan for this model, as fields after the command.
    fn standard_p25_bandplan(&self) -> (r: Option<Vec<&'static str>>)
        ensures
            match r {
                Some(v) => self.spec_p25_bandplan() == Some(strs_view(v@)),
                None => self.spec_p25_bandplan() is None,
            };

    /// An `F-List` line registering a favorites slot (full fields, command first),
    /// used only for a brand-new list.
    fn f_list_entry(&self, label: &str, filename: &str) -> (r: Option<Vec<String>>)
        ensures
            opt_strings_view(r) == self.spec_f_list_entry(label@, filename@);

    /// Zero-based index of the Monitor flag within the `F-List` record, if known.
    fn f_list_monitor_field(&self) -> (r: Option<usize>)
        ensures
            r == self.spec_f_list_fields().0;

    /// Zero-based index of the Quick key field within the `F-List` record, if known.
    fn f_list_quick_key_field(&self) -> (r: Option<usize>)
        ensures
            r == self.spec_f_list_fields().1;

    /// Zero-based index of the NumberTag field within the `F-List` record, if known.
    fn f_list_number_tag_field(&self) -> (r: Option<usize>)
        ensures
            r == self.spec_f_list_fields().2;

    /// Per-record `(column, value)` defaults the favorites dialect must fill.
    fn favorites_field_defaults(&self, command: &str) -> (r: Vec<(usize, &'static str)>)
        ensures
            defaults_view(r@) == self.spec_field_defaults(command@);

    /// The field index holding a record's Avoid flag, for the record types that carry one.
    fn avoid_column(&self, command: &str) -> (r: Option<usize>)
        ensures
            r == self.spec_avoid_column(command@);

    /// The field index holding a voice channel's Priority Channel flag.
    fn priority_column(&self, command: &str) -> (r: Option<usize>)
        ensures
            r == self.spec_priority_column(command@);

    /// The editable per-channel value setting names this model exposes.
    fn channel_value_fields(&self) -> (r: Vec<&'static str>)
        ensures
            strs_view(r@) == self.spec_channel_value_fields();

    /// The field index of an editable per-channel value setting on a voice channel.
    fn channel_value_column(&self, command: &str, field: &str) -> (r: Option<usize>)
        ensures
            r == self.spec_channel_value_column(command@, field@);

    /// The selectable values for an editable per-channel value field, in on-radio order.
    fn channel_value_options(&self, field: &str) -> (r: Vec<String>)
        ensures
            crate::format::strings_view(r@) == self.spec_channel_value_options(field@);

    /// Whether this profile handles a file with the given header: `TargetModel` must
    /// match, and `FormatVersion` too when the file carries one.
    fn matches(&self, header: &FileHeader) -> (r: bool)
        ensures
            r == header_matches_key(*header, self.spec_model_key().0, self.spec_model_key().1),
    {
        let key = self.model_key();
        let model_ok = match &header.target_model {
            Some(m) => str_eq(m.as_str(), key.target_model.as_str()),
            None => false,
        };
        let version_ok = match &header.format_version {
            Some(v) => str_eq(v.as_str(), key.format_version.as_str()),
            None => true,
        };
        model_ok && version_ok
    }
}

/// One clone-image radio's contract: the serial-transport spec + image detection.
/// It carries the same identity as the radio's [`RadioProfile`].
pub trait CloneImageProfile {
    /// The model magic its clone images start with.
    spec fn spec_magic(&self) -> Seq<u8>;
    /// The stable identifier.
    spec fn spec_clone_id(&self) -> Seq<char>;
    /// The product name.
    spec fn spec_clone_name(&self) -> Seq<char>;

    /// Stable identifier (same as the radio's [`RadioProfile::id`]).
    fn id(&self) -> (r: &'static str)
        ensures
            r@ == self.spec_clone_id();

    /// Marketing/product name.
    fn product_name(&self) -> (r: &'static str)
        ensures
            r@ == self.spec_clone_name();

    /// Manufacturer.
    fn maker(&self) -> &'static str;

    /// Short transport / programming descriptor.
    fn transport(&self) -> &'static str;

    /// The radio class: always [`RadioClass::CloneImage`].
    fn class(&self) -> (r: RadioClass)
        ensures
            r == RadioClass::CloneImage;

    /// The serial clone-transport spec.
    fn clone_spec(&self) -> (r: CloneSpec)
        ensures
            r.magic@ == self.spec_magic();

    /// The radio's fixed memory capacity.
    fn capacity(&self) -> CloneCapacity;

    /// The editable-field option sets this radio offers the channel form.
    fn field_options(&self) -> CloneFieldOptions;

    /// Whether a clone image/stream belongs to this radio: it starts with the model magic.
    fn matches_image(&self, bytes: &[u8]) -> (r: bool)
        ensures
            r == (bytes@.len() >= self.spec_magic().len() && bytes@.take(self.spec_magic().len() as int) == self.spec_magic()),
    {
        self.clone_spec().header_matches(bytes)
    }
}

/// A clone-image radio's fixed memory capacity.
#[derive(Debug, Clone, Copy, PartialEq, Eq)]
pub struct CloneCapacity {
    pub channels: usize,
    pub banks: usize,
    pub name_len: usize,
}

/// Ordered set of known radio profiles across every class. Class-specific lookups
/// (`detect`, `detect_clone_image`) recover the sub-trait via
/// [`RadioProfile::as_sd_card`] / [`RadioProfile::as_clone_image`].
pub struct ProfileRegistry {
    profiles: Vec<Registered<dyn RadioProfile>>,
}

/// A registered profile: a built-in model held by value, or one plugged in at run time.
#[verifier::reject_recursive_types(D)]
enum Registered<D: ?Sized> {
    Sds150(Sds150),
    Ft60(Ft60),
    Plugged(Box<D>),
}

/// What the registry knows of a registered profile.
spec fn registered_info<D: RadioProfile + ?Sized>(e: &Registered<D>) -> ProfileInfo {
    match e {
        Registered::Sds150(p) => profile_info(p),
        Registered::Ft60(p) => profile_info(p),
        Registered::Plugged(b) => profile_info::<D>(&**b),
    }
}

impl<D: RadioProfile + ?Sized> Registered<D> {
    /// The profile plugged in at run time, if this is one.
    fn plugged_ref(&self) -> (r: Option<&D>)
        ensures
            r is Some <==> self is Plugged,
            r matches Some(p) ==> profile_info(p) == registered_info(self),
    {
        match self {
            Registered::Plugged(b) => Some(&**b),
            _ => None,
        }
    }

    /// The built-in profile, if this is one.
    fn builtin_ref(&self) -> (r: Option<&dyn RadioProfile>)
        ensures
            r is Some <==> !(self is Plugged),
            r matches Some(p) ==> profile_info(p) == registered_info(self),
    {
        match self {
            Registered::Sds150(p) => Some(p),
            Registered::Ft60(p) => Some(p),
            Registered::Plugged(_) => None,
        }
    }

    /// Whether the profile was plugged in at run time.
    fn is_plugged(&self) -> (r: bool)
        ensures
            r == self is Plugged,
    {
        match self {
            Registered::Plugged(_) => true,
            _ => false,
        }
    }

    /// A profile plugged in at run time.
    fn plugged(b: Box<D>) -> (r: Self)
        ensures
            registered_info(&r) == profile_info(&*b),
    {
        Registered::Plugged(b)
    }

    /// The SD-card contract of the profile, if it is an SD-card scanner.
    fn as_sd_card<'a>(&'a self) -> (r: Option<&'a dyn SdCardProfile>)
        ensures
            r is Some <==> registered_info(self).class == RadioClass::SdCardScanner,
            r matches Some(p) ==> registered_info(self).model_key == Some(p.spec_model_key())
                && p.spec_sd_id() == registered_info(self).id && p.spec_product_name() == registered_info(self).name,
    {
        match self {
            Registered::Sds150(p) => p.as_sd_card(),
            Registered::Ft60(p) => p.as_sd_card(),
            Registered::Plugged(b) => (&**b).as_sd_card(),
        }
    }

    /// Appends the SD-card contract of the profile to `v`, if it is an SD-card scanner.
    fn push_sd_card_to<'a>(&'a self, v: &mut Vec<&'a dyn SdCardProfile>)
        ensures
            sd_listed(final(v)@) == (if registered_info(self).class == RadioClass::SdCardScanner {
                sd_listed(old(v)@).push(sd_info_entry(registered_info(self)))
            } else {
                sd_listed(old(v)@)
            }),
            final(v)@.len() == old(v)@.len() + (if registered_info(self).class == RadioClass::SdCardScanner { 1int } else { 0int }),
    {
        let o = self.as_sd_card();
        if o.is_some() {
            push_some_sd_card(v, o);
        }
    }

    /// Appends the clone-image contract of the profile to `v`, if it is a clone-image radio.
    fn push_clone_image_to<'a>(&'a self, v: &mut Vec<&'a dyn CloneImageProfile>)
        ensures
            clone_listed(final(v)@) == (if registered_info(self).class == RadioClass::CloneImage {
                clone_listed(old(v)@).push(clone_info_entry(registered_info(self)))
            } else {
                clone_listed(old(v)@)
            }),
            final(v)@.len() == old(v)@.len() + (if registered_info(self).class == RadioClass::CloneImage { 1int } else { 0int }),
    {
        let o = self.as_clone_image();
        if o.is_some() {
            push_some_clone_image(v, o);
        }
    }

    /// The clone-image contract of the profile, if it is a clone-image radio.
    fn as_clone_image<'a>(&'a self) -> (r: Option<&'a dyn CloneImageProfile>)
        ensures
            r is Some <==> registered_info(self).class == RadioClass::CloneImage,
            r matches Some(p) ==> registered_info(self).magic == Some(p.spec_magic())
                && p.spec_clone_id() == registered_info(self).id && p.spec_clone_name() == registered_info(self).name,
    {
        match self {
            Registered::Sds150(p) => p.as_clone_image(),
            Registered::Ft60(p) => p.as_clone_image(),
            Registered::Plugged(b) => (&**b).as_clone_image(),
        }
    }
}

/// What the registry knows of each listed profile, in order.
pub open spec fn listed_infos<P: RadioProfile + ?Sized>(s: Seq<&P>) -> Seq<ProfileInfo>
    decreases s.len(),
{
    if s.len() == 0 {
        Seq::empty()
    } else {
        listed_infos(s.drop_last()).push(profile_info(s.last()))
    }
}

/// What an SD-card profile shows of itself: its id, product name and model key.
pub open spec fn sd_card_entry<P: SdCardProfile + ?Sized>(p: &P) -> (Seq<char>, Seq<char>, (Seq<char>, Seq<char>)) {
    (p.spec_sd_id(), p.spec_product_name(), p.spec_model_key())
}

/// What each listed SD-card profile shows of itself, in order.
pub open spec fn sd_listed<P: SdCardProfile + ?Sized>(s: Seq<&P>) -> Seq<(Seq<char>, Seq<char>, (Seq<char>, Seq<char>))>
    decreases s.len(),
{
    if s.len() == 0 {
        Seq::empty()
    } else {
        sd_listed(s.drop_last()).push(sd_card_entry(s.last()))
    }
}

/// Appends a present SD-card profile to a list, extending what the list shows by
/// that profile's entry.
fn push_some_sd_card<'a, P: SdCardProfile + ?Sized>(v: &mut Vec<&'a P>, o: Option<&'a P>)
    requires
        o is Some,
    ensures
        final(v)@.len() == old(v)@.len() + 1,
        sd_listed(final(v)@) == sd_listed(old(v)@).push(sd_card_entry(o->0)),
{
    if let Some(p) = o {
        v.push(p);
        proof {
            assert(final(v)@.drop_last() =~= old(v)@);
        }
    }
}

/// What a list of SD-card profiles shows lines up with the list, index by index.
proof fn lemma_sd_listed_index<P: SdCardProfile + ?Sized>(s: Seq<&P>, k: int)
    ensures
        sd_listed(s).len() == s.len(),
        0 <= k < s.len() ==> sd_listed(s)[k] == sd_card_entry(s[k]),
    decreases s.len(),
{
    if s.len() > 0 {
        lemma_sd_listed_index(s.drop_last(), k);
    }
}

/// An empty list of SD-card profiles shows nothing.
proof fn lemma_sd_listed_empty<P: SdCardProfile + ?Sized>(s: Seq<&P>)
    requires
        s == Seq::<&P>::empty(),
    ensures
        sd_listed(s) == Seq::<(Seq<char>, Seq<char>, (Seq<char>, Seq<char>))>::empty(),
        s.len() == 0,
{
}

/// The id, product name and model key of a registered SD-card profile.
pub open spec fn sd_info_entry(e: ProfileInfo) -> (Seq<char>, Seq<char>, (Seq<char>, Seq<char>)) {
    (e.id, e.name, e.model_key->0)
}

/// The id, product name and model key of each SD-card profile among `ps`, in order.
pub open spec fn sd_entries(ps: Seq<ProfileInfo>) -> Seq<(Seq<char>, Seq<char>, (Seq<char>, Seq<char>))>
    decreases ps.len(),
{
    if ps.len() == 0 {
        Seq::empty()
    } else {
        let prev = sd_entries(ps.drop_last());
        if ps.last().class == RadioClass::SdCardScanner {
            prev.push(sd_info_entry(ps.last()))
        } else {
            prev
        }
    }
}

/// What a clone-image profile shows of itself: its id, product name and image magic.
pub open spec fn clone_card_entry<P: CloneImageProfile + ?Sized>(p: &P) -> (Seq<char>, Seq<char>, Seq<u8>) {
    (p.spec_clone_id(), p.spec_clone_name(), p.spec_magic())
}

/// What each listed clone-image profile shows of itself, in order.
pub open spec fn clone_listed<P: CloneImageProfile + ?Sized>(s: Seq<&P>) -> Seq<(Seq<char>, Seq<char>, Seq<u8>)>
    decreases s.len(),
{
    if s.len() == 0 {
        Seq::empty()
    } else {
        clone_listed(s.drop_last()).push(clone_card_entry(s.last()))
    }
}

/// Appends a present clone-image profile to a list, extending what the list shows by
/// that profile's entry.
fn push_some_clone_image<'a, P: CloneImageProfile + ?Sized>(v: &mut Vec<&'a P>, o: Option<&'a P>)
    requires
        o is Some,
    ensures
        final(v)@.len() == old(v)@.len() + 1,
        clone_listed(final(v)@) == clone_listed(old(v)@).push(clone_card_entry(o->0)),
{
    if let Some(p) = o {
        v.push(p);
        proof {
            assert(final(v)@.drop_last() =~= old(v)@);
        }
    }
}

/// What a list of clone-image profiles shows lines up with the list, index by index.
proof fn lemma_clone_listed_index<P: CloneImageProfile + ?Sized>(s: Seq<&P>, k: int)
    ensures
        clone_listed(s).len() == s.len(),
        0 <= k < s.len() ==> clone_listed(s)[k] == clone_card_entry(s[k]),
    decreases s.len(),
{
    if s.len() > 0 {
        lemma_clone_listed_index(s.drop_last(), k);
    }
}

/// An empty list of clone-image profiles shows nothing.
proof fn lemma_clone_listed_empty<P: CloneImageProfile + ?Sized>(s: Seq<&P>)
    requires
        s == Seq::<&P>::empty(),
    ensures
        clone_listed(s) == Seq::<(Seq<char>, Seq<char>, Seq<u8>)>::empty(),
        s.len() == 0,
{
}

/// The id, product name and image magic of a registered clone-image profile.
pub open spec fn clone_info_entry(e: ProfileInfo) -> (Seq<char>, Seq<char>, Seq<u8>) {
    (e.id, e.name, e.magic->0)
}

/// The id, product name and image magic of each clone-image profile among `ps`, in order.
pub open spec fn clone_entries(ps: Seq<ProfileInfo>) -> Seq<(Seq<char>, Seq<char>, Seq<u8>)>
    decreases ps.len(),
{
    if ps.len() == 0 {
        Seq::empty()
    } else {
        let prev = clone_entries(ps.drop_last());
        if ps.last().class == RadioClass::CloneImage {
            prev.push(clone_info_entry(ps.last()))
        } else {
            prev
        }
    }
}

/// Appends a present profile to a list, extending what the registry knows of the
/// list by that profile's description.
fn push_some_listed<'a, P: RadioProfile + ?Sized>(v: &mut Vec<&'a P>, o: Option<&'a P>)
    requires
        o is Some,
    ensures
        listed_infos(final(v)@) == listed_infos(old(v)@).push(profile_info(o->0)),
{
    if let Some(p) = o {
        v.push(p);
        proof {
            assert(final(v)@.drop_last() =~= old(v)@);
        }
    }
}

/// An empty list of profiles describes nothing.
proof fn lemma_listed_empty<P: RadioProfile + ?Sized>(s: Seq<&P>)
    requires
        s == Seq::<&P>::empty(),
    ensures
        listed_infos(s) == Seq::<ProfileInfo>::empty(),
{
}

/// Dropping the last element keeps the others in place.
proof fn lemma_drop_last_index<A>(s: Seq<A>, i: int)
    requires
        0 <= i < s.len() - 1,
    ensures
        s.drop_last()[i] === s[i],
{
}

/// The listed infos line up with the listed profiles, index by index.
pub proof fn lemma_listed_infos_index<P: RadioProfile + ?Sized>(s: Seq<&P>, i: int)
    ensures
        listed_infos(s).len() == s.len(),
        0 <= i < s.len() ==> listed_infos(s)[i] == profile_info(s[i]),
    decreases s.len(),
{
    if s.len() > 0 {
        lemma_listed_infos_index(s.drop_last(), i);
        if 0 <= i < s.len() - 1 {
            lemma_drop_last_index(s, i);
        }
    }
}

/// What the registry knows of the SDS150.
pub open spec fn sds150_info() -> ProfileInfo {
    ProfileInfo {
        id: "sds150"@,
        name: "SDS150"@,
        class: RadioClass::SdCardScanner,
        model_key: Some(("BCDx36HP"@, "1.00"@)),
        magic: None,
    }
}

/// What the registry knows of the FT-60R.
pub open spec fn ft60_info() -> ProfileInfo {
    ProfileInfo {
        id: "ft60r"@,
        name: "FT-60R"@,
        class: RadioClass::CloneImage,
        model_key: None,
        magic: Some(super::ft60::ft60_magic()),
    }
}

/// The built-in profiles, in registration order: the SDS150, then the FT-60R.
pub open spec fn builtin_profiles() -> Seq<ProfileInfo> {
    seq![sds150_info(), ft60_info()]
}

/// Among the built-ins, the SDS150 is the one SD-card scanner: a header is
/// detected as the SDS150 exactly when it matches the SDS150's model key, and
/// otherwise no SD-card profile is found.
pub proof fn lemma_builtins_detect(header: FileHeader)
    ensures
        sd_keys(builtin_profiles()) == seq![("BCDx36HP"@, "1.00"@)],
        first_key_match(sd_keys(builtin_profiles()), header) == (if header_matches_key(header, "BCDx36HP"@, "1.00"@) {
            Some(0int)
        } else {
            None
        }),
        first_sd_entry(builtin_profiles(), header) == (if header_matches_key(header, "BCDx36HP"@, "1.00"@) {
            Some(0int)
        } else {
            None
        }),
        builtin_profiles()[0] == sds150_info(),
        sd_entries(builtin_profiles()) == seq![sd_info_entry(sds150_info())],
{
    let bp = builtin_profiles();
    assert(bp.drop_last() =~= seq![sds150_info()]);
    assert(bp.drop_last().drop_last() =~= Seq::<ProfileInfo>::empty());
    assert(first_sd_entry(bp.drop_last().drop_last(), header) is None);
    assert(bp.drop_last().last() == sds150_info());
    assert(bp.last() == ft60_info());
    let m = header_matches_key(header, "BCDx36HP"@, "1.00"@);
    assert(first_sd_entry(bp.drop_last(), header) == (if m { Some(0int) } else { None }));
    assert(first_sd_entry(bp, header) == first_sd_entry(bp.drop_last(), header));
    let b = builtin_profiles();
    let b1 = b.drop_last();
    assert(b1 =~= seq![sds150_info()]);
    assert(b.last() == ft60_info());
    assert(b1.last() == sds150_info());
    assert(b1.drop_last() =~= Seq::<ProfileInfo>::empty());
    assert(sd_keys(b1.drop_last()) == Seq::<(Seq<char>, Seq<char>)>::empty());
    assert(sd_keys(b1) =~= seq![("BCDx36HP"@, "1.00"@)]);
    assert(sd_keys(b) == sd_keys(b1));
    let ks = sd_keys(b);
    assert(ks.drop_last() =~= Seq::<(Seq<char>, Seq<char>)>::empty());
    assert(first_key_match(ks.drop_last(), header) is None);
    assert(ks.last() == ("BCDx36HP"@, "1.00"@));
    assert(sd_entries(b1.drop_last()) == Seq::<(Seq<char>, Seq<char>, (Seq<char>, Seq<char>))>::empty());
    assert(sd_entries(b1) =~= seq![sd_info_entry(sds150_info())]);
    assert(sd_entries(b) == sd_entries(b1));
}

/// Among the built-ins, the FT-60R is the one clone-image radio: an image is
/// detected as the FT-60R exactly when it starts with the FT-60 magic.
pub proof fn lemma_builtins_detect_clone_image(bytes: Seq<u8>)
    ensures
        clone_magics(builtin_profiles()) == seq![super::ft60::ft60_magic()],
        first_magic_match(clone_magics(builtin_profiles()), bytes) == (if starts_with_magic(bytes, super::ft60::ft60_magic()) {
            Some(0int)
        } else {
            None
        }),
        first_clone_entry(builtin_profiles(), bytes) == (if starts_with_magic(bytes, super::ft60::ft60_magic()) {
            Some(1int)
        } else {
            None
        }),
        first_clone_index(builtin_profiles()) == Some(1int),
        builtin_profiles()[1] == ft60_info(),
        clone_entries(builtin_profiles()) == seq![clone_info_entry(ft60_info())],
{
    let bp = builtin_profiles();
    assert(bp.drop_last() =~= seq![sds150_info()]);
    assert(bp.drop_last().drop_last() =~= Seq::<ProfileInfo>::empty());
    assert(first_clone_entry(bp.drop_last().drop_last(), bytes) is None);
    assert(first_clone_index(bp.drop_last().drop_last()) is None);
    assert(bp.drop_last().last() == sds150_info());
    assert(bp.last() == ft60_info());
    assert(first_clone_entry(bp.drop_last(), bytes) is None);
    assert(first_clone_index(bp.drop_last()) is None);
    assert(bp.len() - 1 == 1);
    let b = builtin_profiles();
    let b1 = b.drop_last();
    assert(b1 =~= seq![sds150_info()]);
    assert(b.last() == ft60_info());
    assert(b1.last() == sds150_info());
    assert(b1.drop_last() =~= Seq::<ProfileInfo>::empty());
    assert(clone_magics(b1.drop_last()) == Seq::<Seq<u8>>::empty());
    assert(clone_magics(b1) == clone_magics(b1.drop_last()));
    assert(clone_magics(b) =~= seq![super::ft60::ft60_magic()]);
    let ms = clone_magics(b);
    assert(ms.drop_last() =~= Seq::<Seq<u8>>::empty());
    assert(first_magic_match(ms.drop_last(), bytes) is None);
    assert(ms.last() == super::ft60::ft60_magic());
    assert(clone_entries(b1.drop_last()) == Seq::<(Seq<char>, Seq<char>, Seq<u8>)>::empty());
    assert(clone_entries(b1) == clone_entries(b1.drop_last()));
    assert(clone_entries(b) =~= seq![clone_info_entry(ft60_info())]);
}

/// A profile registered later never takes precedence in detection: where a file
/// header already selects an SD-card profile, registering another keeps that choice.
pub proof fn lemma_register_keeps_sd_priority(v: Seq<ProfileInfo>, added: ProfileInfo, header: FileHeader)
    requires
        first_sd_entry(v, header) is Some,
    ensures
        first_sd_entry(v.push(added), header) == first_sd_entry(v, header),
{
    assert(v.push(added).drop_last() =~= v);
}

/// A profile registered later never takes precedence in clone-image detection: where
/// image bytes already select a clone-image profile, registering another keeps that
/// choice, and the registry's clone-image radio stays the same.
pub proof fn lemma_register_keeps_clone_priority(v: Seq<ProfileInfo>, added: ProfileInfo, bytes: Seq<u8>)
    ensures
        first_clone_entry(v, bytes) is Some ==> first_clone_entry(v.push(added), bytes) == first_clone_entry(v, bytes),
        first_clone_index(v) is Some ==> first_clone_index(v.push(added)) == first_clone_index(v),
{
    assert(v.push(added).drop_last() =~= v);
}

impl View for ProfileRegistry {
    type V = Seq<ProfileInfo>;

    /// The registered profiles, in registration order.
    closed spec fn view(&self) -> Seq<ProfileInfo> {
        Seq::new(self.profiles@.len(), |i: int| registered_info(&self.profiles@[i]))
    }
}

impl ProfileRegistry {
    /// Empty registry.
    pub fn new() -> (r: Self)
        ensures
            r@ == Seq::<ProfileInfo>::empty(),
    {
        let r = ProfileRegistry { profiles: Vec::new() };
        assert(r@ =~= Seq::<ProfileInfo>::empty());
        r
    }

    /// Registry preloaded with every built-in profile (SDS150, then FT-60R).
    pub fn with_builtins() -> (r: Self)
        ensures
            r@ == builtin_profiles(),
    {
        let mut profiles: Vec<Registered<dyn RadioProfile>> = Vec::new();
        profiles.push(Registered::Sds150(Sds150::new()));
        profiles.push(Registered::Ft60(Ft60::new()));
        let r = ProfileRegistry { profiles };
        assert(r@ =~= builtin_profiles());
        r
    }

    /// Add a profile of any class. Later registrations are lower priority in `detect*`.
    pub fn register(&mut self, profile: Box<dyn RadioProfile>)
        ensures
            final(self)@ == old(self)@.push(profile_info(&*profile)),
            final(self)@.len() == old(self)@.len() + 1,
    {
        let e = Registered::plugged(profile);
        self.profiles.push(e);
        assert(self@ =~= old(self)@.push(profile_info(&*profile)));
    }

    /// Every registered profile (identity/class only), in registration order.
    pub fn profiles(&self) -> (r: Vec<&dyn RadioProfile>)
        ensures
            listed_infos(r@) == self@,
            r@.len() == self@.len(),
            forall|i: int| 0 <= i < r@.len() ==> profile_info(#[trigger] r@[i]) == self@[i],
    {
        let ghost v = self@;
        let mut out: Vec<&dyn RadioProfile> = Vec::new();
        let mut i: usize = 0;
        proof { lemma_listed_empty(out@); }
        assert(v.take(0) =~= Seq::<ProfileInfo>::empty());
        while i < self.profiles.len()
            invariant
                i <= self.profiles@.len(),
                v == self@,
                v.len() == self.profiles@.len(),
                listed_infos(out@) == v.take(i as int),
            decreases self.profiles@.len() - i,
        {
            let e = &self.profiles[i];
            assert(v.take(i + 1) =~= v.take(i as int).push(v[i as int]));
            if e.is_plugged() {
                push_some_listed(&mut out, e.plugged_ref());
            } else {
                push_some_listed(&mut out, e.builtin_ref());
            }
            i += 1;
        }
        assert(v.take(v.len() as int) =~= v);
        proof {
            lemma_listed_infos_index(out@, 0);
            assert forall|k: int| 0 <= k < out@.len() implies profile_info(#[trigger] out@[k]) == v[k] by {
                lemma_listed_infos_index(out@, k);
            }
        }
        out
    }

    /// The SD-card scanner profiles, in registration order.
    pub fn sd_card_profiles(&self) -> (r: Vec<&dyn SdCardProfile>)
        ensures
            r@.len() == sd_keys(self@).len(),
            sd_listed(r@) == sd_entries(self@),
            forall|k: int| 0 <= k < r@.len() ==> sd_card_entry(#[trigger] r@[k]) == sd_entries(self@)[k],
    {
        let ghost v = self@;
        let mut out: Vec<&dyn SdCardProfile> = Vec::new();
        let mut i: usize = 0;
        assert(v.take(0) =~= Seq::<ProfileInfo>::empty());
        proof { lemma_sd_listed_empty(out@); }
        while i < self.profiles.len()
            invariant
                i <= self.profiles@.len(),
                v == self@,
                v.len() == self.profiles@.len(),
                out@.len() == sd_keys(v.take(i as int)).len(),
                sd_listed(out@) == sd_entries(v.take(i as int)),
            decreases self.profiles@.len() - i,
        {
            proof {
                assert(v.take(i + 1).drop_last() =~= v.take(i as int));
                assert(v.take(i + 1).last() == v[i as int]);
            }
            self.profiles[i].push_sd_card_to(&mut out);
            i += 1;
        }
        assert(v.take(v.len() as int) =~= v);
        proof {
            assert forall|k: int| 0 <= k < out@.len() implies sd_card_entry(#[trigger] out@[k]) == sd_entries(v)[k] by {
                lemma_sd_listed_index(out@, k);
            }
        }
        out
    }

    /// The clone-image radio profiles, in registration order.
    pub fn clone_image_profiles(&self) -> (r: Vec<&dyn CloneImageProfile>)
        ensures
            r@.len() == clone_magics(self@).len(),
            clone_listed(r@) == clone_entries(self@),
            forall|k: int| 0 <= k < r@.len() ==> clone_card_entry(#[trigger] r@[k]) == clone_entries(self@)[k],
    {
        let ghost v = self@;
        let mut out: Vec<&dyn CloneImageProfile> = Vec::new();
        let mut i: usize = 0;
        assert(v.take(0) =~= Seq::<ProfileInfo>::empty());
        proof { lemma_clone_listed_empty(out@); }
        while i < self.profiles.len()
            invariant
                i <= self.profiles@.len(),
                v == self@,
                v.len() == self.profiles@.len(),
                out@.len() == clone_magics(v.take(i as int)).len(),
                clone_listed(out@) == clone_entries(v.take(i as int)),
            decreases self.profiles@.len() - i,
        {
            proof {
                assert(v.take(i + 1).drop_last() =~= v.take(i as int));
                assert(v.take(i + 1).last() == v[i as int]);
            }
            self.profiles[i].push_clone_image_to(&mut out);
            i += 1;
        }
        assert(v.take(v.len() as int) =~= v);
        proof {
            assert forall|k: int| 0 <= k < out@.len() implies clone_card_entry(#[trigger] out@[k]) == clone_entries(v)[k] by {
                lemma_clone_listed_index(out@, k);
            }
        }
        out
    }

    /// First SD-card profile whose `matches` accepts this file header.
    pub fn detect(&self, header: &FileHeader) -> (r: Option<&dyn SdCardProfile>)
        ensures
            match first_key_match(sd_keys(self@), *header) {
                Some(j) => r matches Some(p) && p.spec_model_key() == sd_keys(self@)[j],
                None => r is None,
            },
            r matches Some(p) ==> header_matches_key(*header, p.spec_model_key().0, p.spec_model_key().1),
            match first_sd_entry(self@, *header) {
                Some(i) => r matches Some(p) && Some(p.spec_model_key()) == self@[i].model_key
                    && p.spec_sd_id() == self@[i].id && p.spec_product_name() == self@[i].name,
                None => r is None,
            },
    {
        let ghost v = self@;
        let mut i: usize = 0;
        assert(v.take(0) =~= Seq::<ProfileInfo>::empty());
        while i < self.profiles.len()
            invariant
                i <= self.profiles@.len(),
                v == self@,
                v.len() == self.profiles@.len(),
                first_key_match(sd_keys(v.take(i as int)), *header) is None,
                first_sd_entry(v.take(i as int), *header) is None,
            decreases self.profiles@.len() - i,
        {
            proof {
                assert(v.take(i + 1).drop_last() =~= v.take(i as int));
                assert(v.take(i + 1).last() == v[i as int]);
            }
            if let Some(p) = self.profiles[i].as_sd_card() {
                let ok = p.matches(header);
                assert(ok == header_matches_key(*header, p.spec_model_key().0, p.spec_model_key().1));
                let ghost ks = sd_keys(v.take(i + 1));
                assert(ks == sd_keys(v.take(i as int)).push(p.spec_model_key()));
                assert(ks.drop_last() =~= sd_keys(v.take(i as int)));
                if ok {
                    proof {
                        lemma_first_key_prefix(v, i as int + 1, *header);
                        assert(first_sd_entry(v.take(i + 1), *header) == Some(i as int));
                        lemma_first_sd_entry_extends(v, i as int + 1, *header, i as int);
                    }
                    let r = Some(p);
                    assert(r matches Some(q) ==> header_matches_key(*header, q.spec_model_key().0, q.spec_model_key().1));
                    return r;
                }
            }
            assert(first_sd_entry(v.take(i + 1), *header) is None);
            i += 1;
        }
        assert(v.take(v.len() as int) =~= v);
        None
    }

    /// First clone-image profile whose magic starts these image bytes.
    pub fn detect_clone_image(&self, bytes: &[u8]) -> (r: Option<&dyn CloneImageProfile>)
        ensures
            match first_magic_match(clone_magics(self@), bytes@) {
                Some(j) => r matches Some(p) && p.spec_magic() == clone_magics(self@)[j],
                None => r is None,
            },
            r matches Some(p) ==> starts_with_magic(bytes@, p.spec_magic()),
            match first_clone_entry(self@, bytes@) {
                Some(i) => r matches Some(p) && Some(p.spec_magic()) == self@[i].magic
                    && p.spec_clone_id() == self@[i].id && p.spec_clone_name() == self@[i].name,
                None => r is None,
            },
    {
        let ghost v = self@;
        let mut i: usize = 0;
        assert(v.take(0) =~= Seq::<ProfileInfo>::empty());
        while i < self.profiles.len()
            invariant
                i <= self.profiles@.len(),
                v == self@,
                v.len() == self.profiles@.len(),
                first_magic_match(clone_magics(v.take(i as int)), bytes@) is None,
                first_clone_entry(v.take(i as int), bytes@) is None,
            decreases self.profiles@.len() - i,
        {
            proof {
                assert(v.take(i + 1).drop_last() =~= v.take(i as int));
                assert(v.take(i + 1).last() == v[i as int]);
            }
            if let Some(p) = self.profiles[i].as_clone_image() {
                let ok = p.matches_image(bytes);
                let ghost ms = clone_magics(v.take(i + 1));
                assert(ms == clone_magics(v.take(i as int)).push(p.spec_magic()));
                assert(ms.drop_last() =~= clone_magics(v.take(i as int)));
                if ok {
                    proof {
                        lemma_first_magic_prefix(v, i as int + 1, bytes@);
                        assert(first_clone_entry(v.take(i + 1), bytes@) == Some(i as int));
                        lemma_first_clone_entry_extends(v, i as int + 1, bytes@, i as int);
                    }
                    let r = Some(p);
                    assert(r matches Some(q) ==> starts_with_magic(bytes@, q.spec_magic()));
                    return r;
                }
            }
            assert(first_clone_entry(v.take(i + 1), bytes@) is None);
            i += 1;
        }
        assert(v.take(v.len() as int) =~= v);
        None
    }

    /// The first clone-image profile (a convenience while there's a single clone radio).
    pub fn clone_image(&self) -> (r: Option<&dyn CloneImageProfile>)
        ensures
            clone_magics(self@).len() == 0 ==> r is None,
            clone_magics(self@).len() > 0 ==> (r matches Some(p) && p.spec_magic() == clone_magics(self@)[0]),
            match first_clone_index(self@) {
                Some(i) => r matches Some(p) && Some(p.spec_magic()) == self@[i].magic
                    && p.spec_clone_id() == self@[i].id && p.spec_clone_name() == self@[i].name,
                None => r is None,
            },
    {
        let ghost v = self@;
        let mut i: usize = 0;
        assert(v.take(0) =~= Seq::<ProfileInfo>::empty());
        while i < self.profiles.len()
            invariant
                i <= self.profiles@.len(),
                v == self@,
                v.len() == self.profiles@.len(),
                clone_magics(v.take(i as int)).len() == 0,
                first_clone_index(v.take(i as int)) is None,
            decreases self.profiles@.len() - i,
        {
            proof {
                assert(v.take(i + 1).drop_last() =~= v.take(i as int));
                assert(v.take(i + 1).last() == v[i as int]);
            }
            if let Some(p) = self.profiles[i].as_clone_image() {
                assert(v[i as int] == registered_info(&self.profiles@[i as int]));
                assert(v[i as int].magic == Some(p.spec_magic()));
                proof {
                    lemma_first_magic_is_first(v, i as int + 1);
                    assert(first_clone_index(v.take(i + 1)) == Some(i as int));
                    lemma_first_clone_index_extends(v, i as int + 1, i as int);
                }
                let r = Some(p);
                assert(r matches Some(q) && q.spec_magic() == clone_magics(v)[0]);
                return r;
            }
            assert(first_clone_index(v.take(i + 1)) is None);
            i += 1;
        }
        assert(v.take(v.len() as int) =~= v);
        None
    }
}

/// The SD keys of a prefix are a prefix of the SD keys.
proof fn lemma_sd_keys_prefix(v: Seq<ProfileInfo>, n: int)
    requires
        0 <= n <= v.len(),
    ensures
        sd_keys(v.take(n)).len() <= sd_keys(v).len(),
        forall|j: int| 0 <= j < sd_keys(v.take(n)).len() ==> #[trigger] sd_keys(v.take(n))[j] == sd_keys(v)[j],
    decreases v.len() - n,
{
    if n < v.len() {
        lemma_sd_keys_prefix(v, n + 1);
        assert(v.take(n + 1).drop_last() =~= v.take(n));
        assert(v.take(n + 1).last() == v[n]);
        let a = sd_keys(v.take(n));
        let b = sd_keys(v.take(n + 1));
        assert(a.len() <= b.len());
        assert forall|j: int| 0 <= j < a.len() implies #[trigger] a[j] == sd_keys(v)[j] by {
            assert(a[j] == b[j]);
        }
    } else {
        assert(v.take(n) =~= v);
    }
}

proof fn lemma_clone_magics_prefix(v: Seq<ProfileInfo>, n: int)
    requires
        0 <= n <= v.len(),
    ensures
        clone_magics(v.take(n)).len() <= clone_magics(v).len(),
        forall|j: int| 0 <= j < clone_magics(v.take(n)).len() ==> #[trigger] clone_magics(v.take(n))[j] == clone_magics(v)[j],
    decreases v.len() - n,
{
    if n < v.len() {
        lemma_clone_magics_prefix(v, n + 1);
        assert(v.take(n + 1).drop_last() =~= v.take(n));
        assert(v.take(n + 1).last() == v[n]);
        let a = clone_magics(v.take(n));
        let b = clone_magics(v.take(n + 1));
        assert(a.len() <= b.len());
        assert forall|j: int| 0 <= j < a.len() implies #[trigger] a[j] == clone_magics(v)[j] by {
            assert(a[j] == b[j]);
        }
    } else {
        assert(v.take(n) =~= v);
    }
}

proof fn lemma_first_key_extends(ks: Seq<(Seq<char>, Seq<char>)>, m: int, header: FileHeader, j0: int)
    requires
        0 <= m <= ks.len(),
        first_key_match(ks.take(m), header) == Some(j0),
    ensures
        first_key_match(ks, header) == Some(j0),
    decreases ks.len() - m,
{
    if m < ks.len() {
        assert(ks.take(m + 1).drop_last() =~= ks.take(m));
        lemma_first_key_extends(ks, m + 1, header, j0);
    } else {
        assert(ks.take(m) =~= ks);
    }
}

proof fn lemma_first_key_prefix(v: Seq<ProfileInfo>, n: int, header: FileHeader)
    requires
        0 < n <= v.len(),
        v[n - 1].class == RadioClass::SdCardScanner,
        first_key_match(sd_keys(v.take(n - 1)), header) is None,
        header_matches_key(header, (v[n - 1].model_key->0).0, (v[n - 1].model_key->0).1),
    ensures
        first_key_match(sd_keys(v), header) matches Some(j) && sd_keys(v)[j] == v[n - 1].model_key->0,
{
    assert(v.take(n).drop_last() =~= v.take(n - 1));
    assert(v.take(n).last() == v[n - 1]);
    let kn = sd_keys(v.take(n));
    assert(kn.drop_last() =~= sd_keys(v.take(n - 1)));
    assert(first_key_match(kn, header) == Some(kn.len() - 1));
    lemma_sd_keys_prefix(v, n);
    let all = sd_keys(v);
    assert(all.take(kn.len() as int) =~= kn);
    lemma_first_key_extends(all, kn.len() as int, header, kn.len() - 1);
}

proof fn lemma_first_magic_extends(ms: Seq<Seq<u8>>, m: int, bytes: Seq<u8>, j0: int)
    requires
        0 <= m <= ms.len(),
        first_magic_match(ms.take(m), bytes) == Some(j0),
    ensures
        first_magic_match(ms, bytes) == Some(j0),
    decreases ms.len() - m,
{
    if m < ms.len() {
        assert(ms.take(m + 1).drop_last() =~= ms.take(m));
        lemma_first_magic_extends(ms, m + 1, bytes, j0);
    } else {
        assert(ms.take(m) =~= ms);
    }
}

proof fn lemma_first_magic_prefix(v: Seq<ProfileInfo>, n: int, bytes: Seq<u8>)
    requires
        0 < n <= v.len(),
        v[n - 1].class == RadioClass::CloneImage,
        first_magic_match(clone_magics(v.take(n - 1)), bytes) is None,
        starts_with_magic(bytes, v[n - 1].magic->0),
    ensures
        first_magic_match(clone_magics(v), bytes) matches Some(j) && clone_magics(v)[j] == v[n - 1].magic->0,
{
    assert(v.take(n).drop_last() =~= v.take(n - 1));
    assert(v.take(n).last() == v[n - 1]);
    let mn = clone_magics(v.take(n));
    assert(mn.drop_last() =~= clone_magics(v.take(n - 1)));
    assert(first_magic_match(mn, bytes) == Some(mn.len() - 1));
    lemma_clone_magics_prefix(v, n);
    let all = clone_magics(v);
    assert(all.take(mn.len() as int) =~= mn);
    lemma_first_magic_extends(all, mn.len() as int, bytes, mn.len() - 1);
}

proof fn lemma_first_magic_is_first(v: Seq<ProfileInfo>, n: int)
    requires
        0 < n <= v.len(),
        v[n - 1].class == RadioClass::CloneImage,
        clone_magics(v.take(n - 1)).len() == 0,
    ensures
        clone_magics(v).len() > 0,
        clone_magics(v)[0] == v[n - 1].magic->0,
{
    assert(v.take(n).drop_last() =~= v.take(n - 1));
    assert(v.take(n).last() == v[n - 1]);
    let mn = clone_magics(v.take(n));
    assert(mn == clone_magics(v.take(n - 1)).push(v[n - 1].magic->0));
    assert(mn.len() == 1);
    assert(mn[0] == v[n - 1].magic->0);
    lemma_clone_magics_prefix(v, n);
    assert(mn[0] == clone_magics(v)[0]);
}

impl Default for ProfileRegistry {
    fn default() -> Self {
        Self::with_builtins()
    }
}

} // verus!
