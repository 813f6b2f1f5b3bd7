//! Typed, **read-only** semantic views over a parsed [`Document`].
//!
//! This is the bridge from raw tab lines to domain concepts (id, parent, name,
//! channel attributes) — and the foundation of the location-first feature. Views
//! *borrow* the underlying [`Line`]s rather than destructuring them, so the
//! [`Document`] remains the single source of truth and the byte-exact round trip is
//! never at risk. Filtering and lookups read; they never mutate.
//!
//! Column layouts come from each model's [`RecordSchema`], so this layer is
//! scanner-agnostic: point it at any [`SdCardProfile`] and it interprets that
//! model's files.

use vstd::prelude::*;
use crate::device::{RecordSchema, SdCardProfile};
use crate::device::profile::{SpecSchema, opt_schema_view};
use crate::format::{Document, Line, SpecLine, spec_command, spec_field};
use crate::text::{
    char_pos, find_char, parse_u16, parse_u64, spec_parse_u16, spec_parse_u64, starts_with,
    str_eq, strip_prefix_or_self, copy_str,
};

verus! {

/// What a `Key=Value` id field denotes: the value after the first `=`, read as a
/// decimal `u64`; `None` when there is no `=` or the value is not a number.
pub open spec fn spec_keyed_id(field: Seq<char>) -> Option<u64> {
    let p = char_pos(field, '=');
    if p < field.len() {
        spec_parse_u64(field.skip(p + 1))
    } else {
        None
    }
}

/// Parse a `Key=Value` id field (e.g. `"SiteId=22044"`) to its numeric value.
/// Returns `None` for blank/unkeyed fields (e.g. the blanked favorites columns).
pub fn keyed_id(field: &str) -> (r: Option<u64>)
    ensures
        r == spec_keyed_id(field@),
{
    let p = find_char(field, '=');
    let n = field.unicode_len();
    if p < n {
        let rest = field.substring_char(p + 1, n);
        assert(rest@ =~= field@.skip(p + 1));
        parse_u64(rest)
    } else {
        None
    }
}

/// Coverage shape of a geo record.
#[derive(Debug, Clone, Copy, PartialEq, Eq, Structural)]
pub enum Shape {
    Circle,
    Rectangle,
    Unknown,
}

impl Shape {
    /// The shape a `Shape` column names (`"Circle"`, `"Rectangle"`, anything else
    /// unknown).
    pub open spec fn spec_parse(s: Seq<char>) -> Shape {
        if s == "Circle"@ {
            Shape::Circle
        } else if s == "Rectangle"@ {
            Shape::Rectangle
        } else {
            Shape::Unknown
        }
    }

    pub fn parse(s: &str) -> (r: Self)
        ensures
            r == Shape::spec_parse(s@),
    {
        if str_eq(s, "Circle") {
            Shape::Circle
        } else if str_eq(s, "Rectangle") {
            Shape::Rectangle
        } else {
            Shape::Unknown
        }
    }
}

/// Coarse classification of a record, for matching in filters and UX.
#[derive(Debug, Clone, Copy, PartialEq, Eq, Structural)]
pub enum RecordKind {
    Header,
    Conventional,
    CGroup,
    CFreq,
    Trunk,
    Site,
    TGroup,
    TFreq,
    Tgid,
    AreaState,
    AreaCounty,
    StateInfo,
    CountyInfo,
    Lm,
    Other,
}

/// The kind a command token names.
pub open spec fn spec_record_kind(c: Seq<char>) -> RecordKind {
    if c == "TargetModel"@ || c == "FormatVersion"@ || c == "DateModified"@ {
        RecordKind::Header
    } else if c == "Conventional"@ {
        RecordKind::Conventional
    } else if c == "C-Group"@ {
        RecordKind::CGroup
    } else if c == "C-Freq"@ {
        RecordKind::CFreq
    } else if c == "Trunk"@ {
        RecordKind::Trunk
    } else if c == "Site"@ {
        RecordKind::Site
    } else if c == "T-Group"@ {
        RecordKind::TGroup
    } else if c == "T-Freq"@ {
        RecordKind::TFreq
    } else if c == "TGID"@ {
        RecordKind::Tgid
    } else if c == "AreaState"@ {
        RecordKind::AreaState
    } else if c == "AreaCounty"@ {
        RecordKind::AreaCounty
    } else if c == "StateInfo"@ {
        RecordKind::StateInfo
    } else if c == "CountyInfo"@ {
        RecordKind::CountyInfo
    } else if c == "LM"@ {
        RecordKind::Lm
    } else {
        RecordKind::Other
    }
}

impl RecordKind {
    pub fn from_command(command: &str) -> (r: Self)
        ensures
            r == spec_record_kind(command@),
    {
        if str_eq(command, "TargetModel") || str_eq(command, "FormatVersion") || str_eq(
            command,
            "DateModified",
        ) {
            RecordKind::Header
        } else if str_eq(command, "Conventional") {
            RecordKind::Conventional
        } else if str_eq(command, "C-Group") {
            RecordKind::CGroup
        } else if str_eq(command, "C-Freq") {
            RecordKind::CFreq
        } else if str_eq(command, "Trunk") {
            RecordKind::Trunk
        } else if str_eq(command, "Site") {
            RecordKind::Site
        } else if str_eq(command, "T-Group") {
            RecordKind::TGroup
        } else if str_eq(command, "T-Freq") {
            RecordKind::TFreq
        } else if str_eq(command, "TGID") {
            RecordKind::Tgid
        } else if str_eq(command, "AreaState") {
            RecordKind::AreaState
        } else if str_eq(command, "AreaCounty") {
            RecordKind::AreaCounty
        } else if str_eq(command, "StateInfo") {
            RecordKind::StateInfo
        } else if str_eq(command, "CountyInfo") {
            RecordKind::CountyInfo
        } else if str_eq(command, "LM") {
            RecordKind::Lm
        } else {
            RecordKind::Other
        }
    }
}

// ---------------------------------------------------------------------------
// What a record's accessors denote.
// ---------------------------------------------------------------------------

/// The field at an optional column.
pub open spec fn col_field(l: SpecLine, col: Option<usize>) -> Option<Seq<char>> {
    match col {
        Some(c) => spec_field(l.fields, c as int),
        None => None,
    }
}

/// A present, non-empty field.
pub open spec fn nonempty_of(o: Option<Seq<char>>) -> Option<Seq<char>> {
    match o {
        Some(s) => if s.len() > 0 { Some(s) } else { None },
        None => None,
    }
}

/// The keyed id of an optional field.
pub open spec fn keyed_of(o: Option<Seq<char>>) -> Option<u64> {
    match o {
        Some(s) => spec_keyed_id(s),
        None => None,
    }
}

pub open spec fn freq_col(s: SpecSchema) -> Option<usize> {
    match s.channel {
        Some(c) => c.freq,
        None => None,
    }
}

pub open spec fn tgid_col(s: SpecSchema) -> Option<usize> {
    match s.channel {
        Some(c) => c.tgid,
        None => None,
    }
}

pub open spec fn mode_col(s: SpecSchema) -> Option<usize> {
    match s.channel {
        Some(c) => c.mode,
        None => None,
    }
}

pub open spec fn tone_col(s: SpecSchema) -> Option<usize> {
    match s.channel {
        Some(c) => c.tone,
        None => None,
    }
}

pub open spec fn service_col(s: SpecSchema) -> Option<usize> {
    match s.channel {
        Some(c) => c.service_type,
        None => None,
    }
}

/// A record's own id.
pub open spec fn rec_id(r: (SpecLine, SpecSchema)) -> Option<u64> {
    keyed_of(col_field(r.0, r.1.id_col))
}

/// A record's parent id.
pub open spec fn rec_parent_id(r: (SpecLine, SpecSchema)) -> Option<u64> {
    keyed_of(col_field(r.0, r.1.parent_col))
}

/// A record's non-empty name.
pub open spec fn rec_name(r: (SpecLine, SpecSchema)) -> Option<Seq<char>> {
    nonempty_of(col_field(r.0, r.1.name_col))
}

/// A squelch tone with its `TONE=` prefix removed.
pub open spec fn strip_tone(v: Seq<char>) -> Seq<char> {
    if starts_with(v, "TONE="@) { v.skip(5) } else { v }
}

/// A record's location fields: latitude and longitude (both present), then range
/// and shape where present.
pub open spec fn rec_geo_fields(r: (SpecLine, SpecSchema)) -> Option<
    (Seq<char>, Seq<char>, Option<Seq<char>>, Option<Seq<char>>),
> {
    match r.1.geo {
        Some(g) => match (spec_field(r.0.fields, g.lat as int), spec_field(r.0.fields, g.lon as int)) {
            (Some(lat), Some(lon)) => Some(
                (lat, lon, spec_field(r.0.fields, g.range as int), spec_field(r.0.fields, g.shape as int)),
            ),
            _ => None,
        },
        None => None,
    }
}

/// The optional characters of an optional string slice.
pub open spec fn opt_str_view(o: Option<&str>) -> Option<Seq<char>> {
    match o {
        Some(s) => Some(s@),
        None => None,
    }
}

/// A typed view of one line, paired with its schema. Borrow-only.
#[derive(Debug, Clone, Copy)]
pub struct Record<'a> {
    line: &'a Line,
    schema: RecordSchema,
}

impl<'a> View for Record<'a> {
    type V = (SpecLine, SpecSchema);

    closed spec fn view(&self) -> (SpecLine, SpecSchema) {
        (self.line@, self.schema@)
    }
}

impl<'a> Record<'a> {
    /// Build a typed view of one line under a profile, or `None` if the profile
    /// doesn't recognize the command.
    pub fn new<P: SdCardProfile + ?Sized>(line: &'a Line, profile: &P) -> (r: Option<Self>)
        ensures
            match r {
                Some(rec) => rec@.0 == line@ && profile.spec_record_schema(
                    spec_command(line@.fields),
                ) == Some(rec@.1),
                None => profile.spec_record_schema(spec_command(line@.fields)) is None,
            },
    {
        match profile.record_schema(line.command()) {
            Some(schema) => Some(Record { line, schema }),
            None => None,
        }
    }

    /// The underlying raw line (escape hatch for fields not yet modeled).
    pub fn line(&self) -> (r: &'a Line)
        ensures
            r@ == self@.0,
    {
        self.line
    }

    pub fn command(&self) -> (r: &'a str)
        ensures
            r@ == spec_command(self@.0.fields),
    {
        self.line.command()
    }

    pub fn kind(&self) -> (r: RecordKind)
        ensures
            r == spec_record_kind(spec_command(self@.0.fields)),
    {
        RecordKind::from_command(self.command())
    }

    /// The field at an optional column.
    fn col(&self, col: Option<usize>) -> (r: Option<&'a str>)
        ensures
            opt_str_view(r) == col_field(self@.0, col),
    {
        match col {
            Some(c) => self.line.field(c),
            None => None,
        }
    }

    /// This record's own id (e.g. the number in `SiteId=22044`).
    pub fn id(&self) -> (r: Option<u64>)
        ensures
            r == rec_id(self@),
    {
        match self.col(self.schema.id_col) {
            Some(f) => keyed_id(f),
            None => None,
        }
    }

    /// The parent id linking up the hierarchy (e.g. `TrunkId=…`).
    pub fn parent_id(&self) -> (r: Option<u64>)
        ensures
            r == rec_parent_id(self@),
    {
        match self.col(self.schema.parent_col) {
            Some(f) => keyed_id(f),
            None => None,
        }
    }

    /// Human-readable name, if the record has one (and it's non-empty).
    pub fn name(&self) -> (r: Option<&'a str>)
        ensures
            opt_str_view(r) == rec_name(self@),
    {
        nonempty(self.col(self.schema.name_col))
    }

    /// The raw text of the location fields, for records that carry one (`Site`,
    /// `T-Group`, `C-Group`): latitude and longitude, then range and shape where
    /// present. `None` if the record has no geo columns or lacks either
    /// coordinate. Reading them as numbers is left to the caller.
    pub fn geo_fields(&self) -> (r: Option<(&'a str, &'a str, Option<&'a str>, Option<&'a str>)>)
        ensures
            match r {
                Some((lat, lon, range, shape)) => rec_geo_fields(self@) == Some(
                    (lat@, lon@, opt_str_view(range), opt_str_view(shape)),
                ),
                None => rec_geo_fields(self@) is None,
            },
    {
        match self.schema.geo {
            Some(g) => match (self.line.field(g.lat), self.line.field(g.lon)) {
                (Some(lat), Some(lon)) => Some((lat, lon, self.line.field(g.range), self.line.field(g.shape))),
                _ => None,
            },
            None => None,
        }
    }

    /// System technology on a header line (`P25Standard`, `MotoTrbo`,
    /// `Conventional`, …).
    pub fn tech(&self) -> (r: Option<&'a str>)
        ensures
            opt_str_view(r) == nonempty_of(col_field(self@.0, self@.1.tech_col)),
    {
        nonempty(self.col(self.schema.tech_col))
    }

    fn channel_col(&self, which: u8) -> (r: Option<usize>)
        requires
            which < 5,
        ensures
            which == 0 ==> r == freq_col(self@.1),
            which == 1 ==> r == tgid_col(self@.1),
            which == 2 ==> r == mode_col(self@.1),
            which == 3 ==> r == tone_col(self@.1),
            which == 4 ==> r == service_col(self@.1),
    {
        match self.schema.channel {
            Some(c) => if which == 0 {
                c.freq
            } else if which == 1 {
                c.tgid
            } else if which == 2 {
                c.mode
            } else if which == 3 {
                c.tone
            } else {
                c.service_type
            },
            None => None,
        }
    }

    /// Channel frequency in Hz (conventional / control-channel records).
    pub fn frequency_hz(&self) -> (r: Option<u64>)
        ensures
            r == (match col_field(self@.0, freq_col(self@.1)) {
                Some(f) => spec_parse_u64(f),
                None => None,
            }),
    {
        match self.col(self.channel_col(0)) {
            Some(f) => parse_u64(f),
            None => None,
        }
    }

    /// Talkgroup id (trunked talkgroup records).
    pub fn talkgroup(&self) -> (r: Option<&'a str>)
        ensures
            opt_str_view(r) == nonempty_of(col_field(self@.0, tgid_col(self@.1))),
    {
        nonempty(self.col(self.channel_col(1)))
    }

    /// Modulation / audio type (`NFM`/`AM`/`FM` or `ALL`/`ANALOG`/`DIGITAL`).
    pub fn mode(&self) -> (r: Option<&'a str>)
        ensures
            opt_str_view(r) == nonempty_of(col_field(self@.0, mode_col(self@.1))),
    {
        nonempty(self.col(self.channel_col(2)))
    }

    /// Squelch tone (the `TONE=` prefix stripped, e.g. `C156.7`).
    pub fn tone(&self) -> (r: Option<&'a str>)
        ensures
            opt_str_view(r) == (match col_field(self@.0, tone_col(self@.1)) {
                Some(v) => nonempty_of(Some(strip_tone(v))),
                None => None,
            }),
    {
        match self.col(self.channel_col(3)) {
            Some(v) => {
                proof { reveal_strlit("TONE="); }
                nonempty(Some(strip_prefix_or_self(v, "TONE=")))
            },
            None => None,
        }
    }

    /// The raw audio-option field verbatim, prefix intact: `TONE=`/`NAC=`/`ColorCode=`/
    /// `RAN=`/`Area=` (or a bare DCS code). Unlike [`tone`](Self::tone) this keeps the
    /// prefix so callers can tell a CTCSS/DCS tone from a P25 NAC or DMR color code.
    pub fn audio_option(&self) -> (r: Option<&'a str>)
        ensures
            opt_str_view(r) == nonempty_of(col_field(self@.0, tone_col(self@.1))),
    {
        nonempty(self.col(self.channel_col(3)))
    }

    /// RadioReference service-type code, if the record carries one.
    pub fn service_type_code(&self) -> (r: Option<u16>)
        ensures
            r == (match col_field(self@.0, service_col(self@.1)) {
                Some(f) => spec_parse_u16(f),
                None => None,
            }),
    {
        match self.col(self.channel_col(4)) {
            Some(f) => parse_u16(f),
            None => None,
        }
    }
}

fn nonempty<'a>(s: Option<&'a str>) -> (r: Option<&'a str>)
    ensures
        opt_str_view(r) == nonempty_of(opt_str_view(s)),
{
    match s {
        Some(v) => if v.unicode_len() > 0 { Some(v) } else { None },
        None => None,
    }
}

// ---------------------------------------------------------------------------
// Service types.
// ---------------------------------------------------------------------------

/// Service-type codes (`FuncTagId`) and their human names, from the Uniden file
/// specification's "Service Type" sheet (it mirrors the RadioReference service tags).
/// Codes the specification marks unused (5, 10, 18, 19, 27, 28, 35, 36) are absent;
/// `208`–`217` are the user's Custom slots.
pub open spec fn service_table() -> Seq<(u16, Seq<char>)> {
    seq![
        (1u16, "Multi-Dispatch"@),
        (2u16, "Law Dispatch"@),
        (3u16, "Fire Dispatch"@),
        (4u16, "EMS Dispatch"@),
        (6u16, "Multi-Tac"@),
        (7u16, "Law Tac"@),
        (8u16, "Fire-Tac"@),
        (9u16, "EMS-Tac"@),
        (11u16, "Interop"@),
        (12u16, "Hospital"@),
        (13u16, "Ham"@),
        (14u16, "Public Works"@),
        (15u16, "Aircraft"@),
        (16u16, "Federal"@),
        (17u16, "Business"@),
        (20u16, "Railroad"@),
        (21u16, "Other"@),
        (22u16, "Multi-Talk"@),
        (23u16, "Law Talk"@),
        (24u16, "Fire-Talk"@),
        (25u16, "EMS-Talk"@),
        (26u16, "Transportation"@),
        (29u16, "Emergency Ops"@),
        (30u16, "Military"@),
        (31u16, "Media"@),
        (32u16, "Schools"@),
        (33u16, "Security"@),
        (34u16, "Utilities"@),
        (37u16, "Corrections"@),
        (208u16, "Custom 1"@),
        (209u16, "Custom 2"@),
        (210u16, "Custom 3"@),
        (211u16, "Custom 4"@),
        (212u16, "Custom 5"@),
        (213u16, "Custom 6"@),
        (214u16, "Custom 7"@),
        (215u16, "Custom 8"@),
        (216u16, "Racing Officials"@),
        (217u16, "Racing Teams"@),
    ]
}

/// The characters of each `(code, name)` entry.
pub open spec fn code_names_view(s: Seq<(u16, &str)>) -> Seq<(u16, Seq<char>)> {
    Seq::new(s.len(), |i: int| (s[i].0, s[i].1@))
}

/// The service-type table: the single source every front-end reads, so no UI
/// re-hardcodes it.
pub fn service_types() -> (r: &'static [(u16, &'static str)])
    ensures
        code_names_view(r@) == service_table(),
{
    let r: &'static [(u16, &'static str)] = &[
        (1, "Multi-Dispatch"),
        (2, "Law Dispatch"),
        (3, "Fire Dispatch"),
        (4, "EMS Dispatch"),
        (6, "Multi-Tac"),
        (7, "Law Tac"),
        (8, "Fire-Tac"),
        (9, "EMS-Tac"),
        (11, "Interop"),
        (12, "Hospital"),
        (13, "Ham"),
        (14, "Public Works"),
        (15, "Aircraft"),
        (16, "Federal"),
        (17, "Business"),
        (20, "Railroad"),
        (21, "Other"),
        (22, "Multi-Talk"),
        (23, "Law Talk"),
        (24, "Fire-Talk"),
        (25, "EMS-Talk"),
        (26, "Transportation"),
        (29, "Emergency Ops"),
        (30, "Military"),
        (31, "Media"),
        (32, "Schools"),
        (33, "Security"),
        (34, "Utilities"),
        (37, "Corrections"),
        (208, "Custom 1"),
        (209, "Custom 2"),
        (210, "Custom 3"),
        (211, "Custom 4"),
        (212, "Custom 5"),
        (213, "Custom 6"),
        (214, "Custom 7"),
        (215, "Custom 8"),
        (216, "Racing Officials"),
        (217, "Racing Teams"),
    ];
    assert(code_names_view(r@) =~= service_table());
    r
}

/// The name of the first entry of a table with the given code.
pub open spec fn lookup_code(t: Seq<(u16, Seq<char>)>, code: u16) -> Option<Seq<char>>
    decreases t.len(),
{
    if t.len() == 0 {
        None
    } else if t[0].0 == code {
        Some(t[0].1)
    } else {
        lookup_code(t.drop_first(), code)
    }
}

/// Human name for a service-type code, from [`service_types`]. `None` for the
/// unused codes — a UI can fall back to "Service type N".
pub fn service_type_name(code: u16) -> (r: Option<&'static str>)
    ensures
        opt_str_view(r) == lookup_code(service_table(), code),
{
    let t = service_types();
    let ghost tv = code_names_view(t@);
    assert(tv.skip(0) =~= tv);
    let mut i: usize = 0;
    while i < t.len()
        invariant
            i <= t@.len(),
            tv == code_names_view(t@),
            tv == service_table(),
            lookup_code(tv, code) == lookup_code(tv.skip(i as int), code),
        decreases t@.len() - i,
    {
        let (c, name) = t[i];
        proof {
            assert(tv.skip(i as int)[0] == tv[i as int]);
            assert(tv.skip(i as int).drop_first() =~= tv.skip(i + 1));
        }
        if c == code {
            return Some(name);
        }
        i += 1;
    }
    assert(tv.skip(i as int).len() == 0);
    None
}

// ---------------------------------------------------------------------------
// Whole-document views.
// ---------------------------------------------------------------------------

/// The schema each line's command has under a profile.
pub open spec fn line_schemas<P: SdCardProfile + ?Sized>(ls: Seq<SpecLine>, profile: &P) -> Seq<Option<SpecSchema>> {
    Seq::new(ls.len(), |i: int| profile.spec_record_schema(spec_command(ls[i].fields)))
}

/// The typed records of a sequence of lines, given the schema of each line's
/// command: the lines that have one, in order, each paired with it.
pub open spec fn spec_records(ls: Seq<SpecLine>, ss: Seq<Option<SpecSchema>>) -> Seq<(SpecLine, SpecSchema)>
    decreases ls.len(),
{
    if ls.len() == 0 || ss.len() != ls.len() {
        Seq::empty()
    } else {
        let prev = spec_records(ls.drop_last(), ss.drop_last());
        match ss.last() {
            Some(s) => prev.push((ls.last(), s)),
            None => prev,
        }
    }
}

/// The views of a list of records.
pub open spec fn records_view<'a>(v: Seq<Record<'a>>) -> Seq<(SpecLine, SpecSchema)> {
    Seq::new(v.len(), |i: int| v[i]@)
}

/// The typed records of a document under a given profile. Lines whose command the
/// profile doesn't recognize are skipped (they carry no semantics we can
/// interpret, but they remain in the `Document` for byte-exact output).
pub fn records<'a, P: SdCardProfile + ?Sized>(doc: &'a Document, profile: &P) -> (r: Vec<Record<'a>>)
    ensures
        records_view(r@) == spec_records(doc@, line_schemas(doc@, profile)),
{
    let ghost ss = line_schemas(doc@, profile);
    let mut out: Vec<Record<'a>> = Vec::new();
    assert(records_view(out@) =~= Seq::<(SpecLine, SpecSchema)>::empty());
    let mut i: usize = 0;
    while i < doc.lines.len()
        invariant
            i <= doc.lines@.len(),
            ss == line_schemas(doc@, profile),
            records_view(out@) == spec_records(doc@.take(i as int), ss.take(i as int)),
        decreases doc.lines@.len() - i,
    {
        let line = &doc.lines[i];
        let ghost before = out@;
        proof {
            assert(doc@.take(i + 1).drop_last() =~= doc@.take(i as int));
            assert(doc@.take(i + 1).last() == doc@[i as int]);
            assert(doc@[i as int] == line@);
            assert(ss.take(i + 1).drop_last() =~= ss.take(i as int));
            assert(ss.take(i + 1).last() == profile.spec_record_schema(spec_command(line@.fields)));
        }
        match profile.record_schema(line.command()) {
            Some(schema) => {
                out.push(Record { line, schema });
                assert(records_view(out@) =~= records_view(before).push((line@, schema@)));
            },
            None => {
                assert(records_view(out@) == records_view(before));
            },
        }
        i += 1;
    }
    assert(doc@.take(doc.lines@.len() as int) =~= doc@);
    assert(ss.take(doc.lines@.len() as int) =~= ss);
    out
}

// ---------------------------------------------------------------------------
// The county master.
// ---------------------------------------------------------------------------

/// One county from the HPDB geo master (`CountyInfo`).
#[derive(Debug, Clone, PartialEq, Eq)]
pub struct County {
    pub id: u64,
    pub state_id: Option<u64>,
    pub name: String,
}

impl View for County {
    type V = (u64, Option<u64>, Seq<char>);

    open spec fn view(&self) -> (u64, Option<u64>, Seq<char>) {
        (self.id, self.state_id, self.name@)
    }
}

/// The county a record denotes: a `CountyInfo` record with an id, its parent (the
/// state) and its name (empty when absent).
pub open spec fn county_of(r: (SpecLine, SpecSchema)) -> Option<(u64, Option<u64>, Seq<char>)> {
    if spec_record_kind(spec_command(r.0.fields)) == RecordKind::CountyInfo {
        match rec_id(r) {
            Some(id) => Some(
                (
                    id,
                    rec_parent_id(r),
                    match rec_name(r) {
                        Some(n) => n,
                        None => Seq::empty(),
                    },
                ),
            ),
            None => None,
        }
    } else {
        None
    }
}

/// The counties of a list of records, in order.
pub open spec fn spec_counties(rs: Seq<(SpecLine, SpecSchema)>) -> Seq<(u64, Option<u64>, Seq<char>)>
    decreases rs.len(),
{
    if rs.len() == 0 {
        Seq::empty()
    } else {
        let prev = spec_counties(rs.drop_last());
        match county_of(rs.last()) {
            Some(c) => prev.push(c),
            None => prev,
        }
    }
}

/// The views of a list of counties.
pub open spec fn counties_view(v: Seq<County>) -> Seq<(u64, Option<u64>, Seq<char>)> {
    Seq::new(v.len(), |i: int| v[i]@)
}

/// Index of the last county with the given id.
pub open spec fn last_with_id(s: Seq<(u64, Option<u64>, Seq<char>)>, id: u64) -> Option<int>
    decreases s.len(),
{
    if s.len() == 0 {
        None
    } else if s.last().0 == id {
        Some(s.len() - 1)
    } else {
        last_with_id(s.drop_last(), id)
    }
}

/// The result of `str::to_lowercase` on a string: its Unicode lowercase mapping.
pub uninterp spec fn lowercase(s: Seq<char>) -> Seq<char>;

/// `str::to_lowercase` (std): the string mapped to lowercase by the Unicode
/// `Lowercase` property. Its result is a function of its argument alone, named
/// [`lowercase`]; nothing more is stated of it.
#[verifier::external_body]
pub(crate) fn to_lowercase(s: &str) -> (r: String)
    ensures
        r@ == lowercase(s@),
{
    s.to_lowercase()
}

/// The counties whose name matches `key` case-insensitively, in file order.
pub open spec fn named(s: Seq<(u64, Option<u64>, Seq<char>)>, key: Seq<char>) -> Seq<(u64, Option<u64>, Seq<char>)>
    decreases s.len(),
{
    if s.len() == 0 {
        Seq::empty()
    } else {
        let prev = named(s.drop_last(), key);
        if lowercase(s.last().2) == lowercase(key) {
            prev.push(s.last())
        } else {
            prev
        }
    }
}

/// Lookup over the county master in `hpdb.cfg`. Maps `CountyId` ↔ name so the UI
/// can turn a county name into the ids the filter layer works with.
///
/// County names are **not** unique across states (many "Washington" counties), so
/// name lookups can return several entries — scope by state id when needed.
#[derive(Debug, Default)]
pub struct CountyIndex {
    counties: Vec<County>,
}

impl View for CountyIndex {
    type V = Seq<(u64, Option<u64>, Seq<char>)>;

    closed spec fn view(&self) -> Seq<(u64, Option<u64>, Seq<char>)> {
        counties_view(self.counties@)
    }
}

impl CountyIndex {
    /// Build from a parsed `hpdb.cfg` document.
    pub fn from_hpdb<P: SdCardProfile + ?Sized>(doc: &Document, profile: &P) -> (r: Self)
        ensures
            r@ == spec_counties(spec_records(doc@, line_schemas(doc@, profile))),
    {
        let rs = records(doc, profile);
        let ghost rv = records_view(rs@);
        let mut counties: Vec<County> = Vec::new();
        assert(rv.take(0) =~= Seq::<(SpecLine, SpecSchema)>::empty());
        assert(counties_view(counties@) =~= Seq::<(u64, Option<u64>, Seq<char>)>::empty());
        let mut i: usize = 0;
        while i < rs.len()
            invariant
                i <= rs@.len(),
                rv == records_view(rs@),
                counties_view(counties@) == spec_counties(rv.take(i as int)),
            decreases rs@.len() - i,
        {
            let r = rs[i];
            proof {
                assert(rv.take(i + 1).drop_last() =~= rv.take(i as int));
                assert(rv.take(i + 1).last() == r@);
            }
            let ghost before = counties@;
            if r.kind() == RecordKind::CountyInfo {
                match r.id() {
                    Some(id) => {
                        let name = match r.name() {
                            Some(n) => copy_str(n),
                            None => String::new(),
                        };
                        let c = County { id, state_id: r.parent_id(), name };
                        assert(Some(c@) == county_of(r@));
                        counties.push(c);
                        assert(counties_view(counties@) =~= counties_view(before).push(c@));
                    },
                    None => {},
                }
            }
            i += 1;
        }
        assert(rv.take(rs@.len() as int) =~= rv);
        CountyIndex { counties }
    }

    pub fn len(&self) -> (r: usize)
        ensures
            r == self@.len(),
    {
        self.counties.len()
    }

    /// All counties, in file order. For listing in a UI picker.
    pub fn counties(&self) -> (r: &[County])
        ensures
            counties_view(r@) == self@,
    {
        self.counties.as_slice()
    }

    pub fn is_empty(&self) -> (r: bool)
        ensures
            r == (self@.len() == 0),
    {
        self.counties.len() == 0
    }

    /// The county with this id (the last one listed, should the master repeat an id).
    pub fn by_id(&self, id: u64) -> (r: Option<&County>)
        ensures
            match last_with_id(self@, id) {
                Some(k) => r matches Some(c) && c@ == self@[k],
                None => r is None,
            },
    {
        let ghost v = self@;
        assert(v.take(v.len() as int) =~= v);
        let mut i: usize = self.counties.len();
        while i > 0
            invariant
                i <= self.counties@.len(),
                v == counties_view(self.counties@),
                last_with_id(v, id) == last_with_id(v.take(i as int), id),
            decreases i,
        {
            proof {
                assert(v.take(i as int).drop_last() =~= v.take(i - 1));
                assert(v.take(i as int).last() == v[i - 1]);
            }
            if self.counties[i - 1].id == id {
                return Some(&self.counties[i - 1]);
            }
            i -= 1;
        }
        assert(v.take(0).len() == 0);
        None
    }

    /// Display name for a county id.
    pub fn name(&self, id: u64) -> (r: Option<&str>)
        ensures
            match last_with_id(self@, id) {
                Some(k) => r matches Some(s) && s@ == self@[k].2,
                None => r is None,
            },
    {
        match self.by_id(id) {
            Some(c) => Some(c.name.as_str()),
            None => None,
        }
    }

    /// Every county matching `name` (case-insensitive). May span states.
    pub fn counties_named(&self, name: &str) -> (r: Vec<&County>)
        ensures
            Seq::new(r@.len(), |i: int| r@[i]@) == named(self@, name@),
    {
        let key = to_lowercase(name);
        let ghost v = self@;
        let mut out: Vec<&County> = Vec::new();
        let mut i: usize = 0;
        while i < self.counties.len()
            invariant
                i <= self.counties@.len(),
                v == counties_view(self.counties@),
                key@ == lowercase(name@),
                Seq::new(out@.len(), |k: int| out@[k]@) == named(v.take(i as int), name@),
            decreases self.counties@.len() - i,
        {
            let c = &self.counties[i];
            let ghost before = out@;
            proof {
                assert(v.take(i + 1).drop_last() =~= v.take(i as int));
                assert(v.take(i + 1).last() == c@);
            }
            let lc = to_lowercase(c.name.as_str());
            if str_eq(lc.as_str(), key.as_str()) {
                out.push(c);
                assert(Seq::new(out@.len(), |k: int| out@[k]@) =~= Seq::new(
                    before.len(),
                    |k: int| before[k]@,
                ).push(c@));
            }
            i += 1;
        }
        assert(v.take(self.counties@.len() as int) =~= v);
        out
    }

    /// First county id matching `name` (case-insensitive), if any.
    pub fn id_by_name(&self, name: &str) -> (r: Option<u64>)
        ensures
            r == (if named(self@, name@).len() > 0 {
                Some(named(self@, name@)[0].0)
            } else {
                None
            }),
    {
        let v = self.counties_named(name);
        if v.len() > 0 {
            Some(v[0].id)
        } else {
            None
        }
    }
}

} // verus!
