//! The source-agnostic **programmable model**: the neutral, lossless hierarchy a
//! source (RadioReference, …) maps into and a radio-class emitter builds from.
//! This module holds the channel-level records and the vocabulary normalization
//! from RadioReference's mode codes onto the SD-card vocabulary.

use vstd::prelude::*;
use crate::device::SdCardProfile;
use crate::device::profile::{ChannelColumns, GeoColumns, SpecSchema};
use crate::favorites::{build_favorites, defaults_fit, spec_dqks, spec_favorites};
use crate::format::{Document, Line, LineEnding, SpecLine, lines_view};
use crate::provider::SystemKind;
use crate::rr::{Tag, Talkgroup, primary_service_type};
use crate::device::profile::opt_schema_view;
use crate::device::profile::RecordSchema;
use crate::text::{spec_parse_u64, copy_str, decimal, decimal_string, push_decimal, str_eq};

verus! {

/// One control/voice frequency a trunked site transmits (→ an SD-card `T-Freq`).
#[derive(Debug, Clone, PartialEq)]
pub struct ProgramSiteFreq {
    pub freq_hz: u64,
    /// Control channel (RR `use` = "d"/"a"); voice otherwise.
    pub control: bool,
}

/// One programmable channel — a conventional frequency or a trunked talkgroup.
#[derive(Debug, Clone, PartialEq)]
pub struct ProgramChannel {
    pub name: String,
    /// Conventional frequency (Hz); `None` for a talkgroup.
    pub freq_hz: Option<u64>,
    /// Repeater **input** (TX) frequency (Hz), when the source carries it — lets a
    /// clone-image emitter recover duplex/offset. `None` = simplex or a talkgroup.
    pub input_hz: Option<u64>,
    /// Talkgroup decimal id; `None` for a conventional frequency.
    pub tgid: Option<String>,
    /// Modulation/audio type as the device stores it (`NFM`/`AM`, or `DIGITAL`/`ANALOG`).
    pub mode: Option<String>,
    /// Squelch tone as the device stores it (`TONE=C156.7`); conventional only.
    pub tone: Option<String>,
    /// RadioReference service-type code.
    pub service_type: Option<u16>,
}

/// ASCII upper-casing of one character.
pub open spec fn ascii_upper(c: char) -> char {
    if 'a' <= c <= 'z' {
        ((c as u32) - 32) as char
    } else {
        c
    }
}

/// A string ASCII upper-cased (`str::to_ascii_uppercase`).
pub open spec fn upper(s: Seq<char>) -> Seq<char> {
    Seq::new(s.len(), |i: int| ascii_upper(s[i]))
}

fn to_upper(s: &str) -> (r: String)
    ensures
        r@ == upper(s@),
{
    let n = s.unicode_len();
    let mut out = String::new();
    let mut i: usize = 0;
    while i < n
        invariant
            n == s@.len(),
            i <= n,
            out@ == upper(s@).take(i as int),
        decreases n - i,
    {
        let c = s.get_char(i);
        let u = if 'a' <= c && c <= 'z' { ((c as u8) - 32) as char } else { c };
        out.push(u);
        i += 1;
        assert(out@ =~= upper(s@).take(i as int));
    }
    assert(upper(s@).take(n as int) =~= upper(s@));
    out
}

/// What an RR conventional `mode` becomes in the SD-card vocabulary.
pub open spec fn spec_conventional_mode(m: Seq<char>) -> Option<Seq<char>> {
    let u = upper(m);
    if u.len() == 0 {
        None
    } else if u == "FMN"@ || u == "NFM"@ {
        Some("NFM"@)
    } else if u == "FM"@ {
        Some("FM"@)
    } else if u == "AM"@ {
        Some("AM"@)
    } else {
        Some(u)
    }
}

pub open spec fn opt_string_view(o: Option<String>) -> Option<Seq<char>> {
    match o {
        Some(s) => Some(s@),
        None => None,
    }
}

/// A conventional frequency's mode: none when RR gives none; narrow FM, written
/// `FMN` or `NFM` in any case, becomes `NFM`; every other mode is kept, upper-cased
/// (so `FM` and `AM` stay as they are).
pub proof fn lemma_conventional_mode_vocabulary(m: Seq<char>)
    ensures
        m.len() == 0 ==> spec_conventional_mode(m) is None,
        m.len() > 0 && (upper(m) == "FMN"@ || upper(m) == "NFM"@) ==> spec_conventional_mode(m) == Some("NFM"@),
        m.len() > 0 && upper(m) != "FMN"@ && upper(m) != "NFM"@ ==> spec_conventional_mode(m) == Some(upper(m)),
        spec_conventional_mode(m) matches Some(x) ==> x.len() == m.len() || x == "NFM"@,
{
    reveal_strlit("FM");
    reveal_strlit("AM");
    reveal_strlit("NFM");
    reveal_strlit("FMN");
    assert(upper(m).len() == m.len());
}

/// Normalize an RR conventional `mode` (`FM`/`FMN`/`AM`/…) to the SD-card
/// vocabulary.
pub fn conventional_mode(rr_mode: &str) -> (r: Option<String>)
    ensures
        opt_string_view(r) == spec_conventional_mode(rr_mode@),
{
    let u = to_upper(rr_mode);
    if u.unicode_len() == 0 {
        None
    } else if str_eq(u.as_str(), "FMN") || str_eq(u.as_str(), "NFM") {
        Some(copy_str("NFM"))
    } else if str_eq(u.as_str(), "FM") {
        Some(copy_str("FM"))
    } else if str_eq(u.as_str(), "AM") {
        Some(copy_str("AM"))
    } else {
        Some(u)
    }
}

/// What an RR talkgroup `tgMode` becomes as an SD-card `TGID` audio type.
pub open spec fn spec_talkgroup_mode(m: Seq<char>) -> Option<Seq<char>> {
    let u = upper(m);
    if u == "A"@ {
        Some("ANALOG"@)
    } else if u == "D"@ || u == "T"@ || u == "M"@ || u == "E"@ {
        Some("DIGITAL"@)
    } else {
        None
    }
}

/// A talkgroup's `tgMode` letter, in either case, decides its audio type: `A` is
/// analog; `D` (P25), `T` (TDMA), `M` (mixed) and `E` (encrypted) are digital; any
/// other mode, including one of more or fewer than one character, has none.
pub proof fn lemma_talkgroup_mode_letters(m: Seq<char>)
    ensures
        spec_talkgroup_mode(m) == Some("ANALOG"@) <==> (m.len() == 1 && (m[0] == 'a' || m[0] == 'A')),
        spec_talkgroup_mode(m) == Some("DIGITAL"@) <==> (m.len() == 1 && (m[0] == 'd' || m[0] == 'D' || m[0] == 't'
            || m[0] == 'T' || m[0] == 'm' || m[0] == 'M' || m[0] == 'e' || m[0] == 'E')),
        spec_talkgroup_mode(m) is None <==> !(m.len() == 1 && (m[0] == 'a' || m[0] == 'A' || m[0] == 'd' || m[0] == 'D'
            || m[0] == 't' || m[0] == 'T' || m[0] == 'm' || m[0] == 'M' || m[0] == 'e' || m[0] == 'E')),
{
    reveal_strlit("A");
    reveal_strlit("D");
    reveal_strlit("T");
    reveal_strlit("M");
    reveal_strlit("E");
    reveal_strlit("ANALOG");
    reveal_strlit("DIGITAL");
    assert("ANALOG"@ != "DIGITAL"@) by {
        assert("ANALOG"@[0] != "DIGITAL"@[0]);
    }
    let u = upper(m);
    if m.len() == 1 {
        assert(u =~= seq![ascii_upper(m[0])]);
        assert("A"@ =~= seq!['A']);
        assert("D"@ =~= seq!['D']);
        assert("T"@ =~= seq!['T']);
        assert("M"@ =~= seq!['M']);
        assert("E"@ =~= seq!['E']);
        assert(u == "A"@ ==> u[0] == "A"@[0]);
        assert(u == "D"@ ==> u[0] == "D"@[0]);
        assert(u == "T"@ ==> u[0] == "T"@[0]);
        assert(u == "M"@ ==> u[0] == "M"@[0]);
        assert(u == "E"@ ==> u[0] == "E"@[0]);
        assert(u == "A"@ <==> ascii_upper(m[0]) == 'A');
        assert(u == "D"@ <==> ascii_upper(m[0]) == 'D');
        assert(u == "T"@ <==> ascii_upper(m[0]) == 'T');
        assert(u == "M"@ <==> ascii_upper(m[0]) == 'M');
        assert(u == "E"@ <==> ascii_upper(m[0]) == 'E');
    } else {
        assert(u.len() != 1);
        assert(u != "A"@ && u != "D"@ && u != "T"@ && u != "M"@ && u != "E"@);
    }
}

/// Normalize an RR talkgroup `tgMode` (`A`/`D`/`M`/`T`/`E`) to the SD-card `TGID`
/// audio type.
pub fn talkgroup_mode(tg_mode: &str) -> (r: Option<String>)
    ensures
        opt_string_view(r) == spec_talkgroup_mode(tg_mode@),
{
    let u = to_upper(tg_mode);
    if str_eq(u.as_str(), "A") {
        Some(copy_str("ANALOG"))
    } else if str_eq(u.as_str(), "D") || str_eq(u.as_str(), "T") || str_eq(u.as_str(), "M") || str_eq(u.as_str(), "E") {
        Some(copy_str("DIGITAL"))
    } else {
        None
    }
}

/// The service type an RR item is filed under: its first tag's, if it has one.
pub open spec fn spec_primary_tag(tags: Seq<Tag>) -> Option<u16> {
    if tags.len() > 0 {
        Some(tags[0].tag_id)
    } else {
        None
    }
}

/// An RR item's channel name: its description, else its alpha tag.
pub open spec fn spec_channel_name(descr: Seq<char>, alpha: Seq<char>) -> Seq<char> {
    if descr.len() > 0 {
        descr
    } else {
        alpha
    }
}

/// An RR item is named by its description when it has one and by its alpha tag
/// otherwise, and filed under the service type of its first tag (none without
/// tags).
pub proof fn lemma_program_channel_naming(descr: Seq<char>, alpha: Seq<char>, tags: Seq<Tag>)
    ensures
        descr.len() > 0 ==> spec_channel_name(descr, alpha) == descr,
        descr.len() == 0 ==> spec_channel_name(descr, alpha) == alpha,
        tags.len() > 0 ==> spec_primary_tag(tags) == Some(tags[0].tag_id),
        tags.len() == 0 ==> spec_primary_tag(tags) is None,
{
}

/// The channel an RR talkgroup is programmed as: named by its description (else
/// its alpha tag), keyed by its decimal id, with its mode in the device's
/// digital/analog vocabulary and its primary service type.
pub fn talkgroup_program_channel(tg: &Talkgroup) -> (r: ProgramChannel)
    ensures
        r.name@ == spec_channel_name(tg.tg_descr@, tg.tg_alpha@),
        r.freq_hz is None,
        r.input_hz is None,
        opt_string_view(r.tgid) == Some(tg.tg_dec@),
        opt_string_view(r.mode) == spec_talkgroup_mode(tg.tg_mode@),
        r.tone is None,
        r.service_type == spec_primary_tag(tg.tags@),
{
    let name = if tg.tg_descr.unicode_len() > 0 {
        copy_str(tg.tg_descr.as_str())
    } else {
        copy_str(tg.tg_alpha.as_str())
    };
    ProgramChannel {
        name,
        freq_hz: None,
        input_hz: None,
        tgid: Some(copy_str(tg.tg_dec.as_str())),
        mode: talkgroup_mode(tg.tg_mode.as_str()),
        tone: None,
        service_type: primary_service_type(tg.tags.as_slice()),
    }
}

/// The channel an RR conventional frequency is programmed as: named by its
/// description (else its alpha tag), on its output (and, for a repeater, input)
/// frequency in Hz, with its mode in the device's vocabulary, its tone when it
/// has one, and its primary service type.
pub fn conventional_program_channel(
    alpha: &str,
    descr: &str,
    mode: &str,
    tone: &str,
    tags: &[Tag],
    freq_hz: Option<u64>,
    input_hz: Option<u64>,
) -> (r: ProgramChannel)
    ensures
        r.name@ == spec_channel_name(descr@, alpha@),
        r.freq_hz == freq_hz,
        r.input_hz == input_hz,
        r.tgid is None,
        opt_string_view(r.mode) == spec_conventional_mode(mode@),
        opt_string_view(r.tone) == (if tone@.len() > 0 { Some(tone@) } else { None }),
        r.service_type == spec_primary_tag(tags@),
{
    let name = if descr.unicode_len() > 0 { copy_str(descr) } else { copy_str(alpha) };
    let t = if tone.unicode_len() > 0 { Some(copy_str(tone)) } else { None };
    ProgramChannel {
        name,
        freq_hz,
        input_hz,
        tgid: None,
        mode: conventional_mode(mode),
        tone: t,
        service_type: primary_service_type(tags),
    }
}

/// A trunked site's frequency: a control channel when RR marks its use `d` or
/// `a`, a voice channel otherwise.
pub fn site_frequency(freq_hz: u64, rr_use: &str) -> (r: ProgramSiteFreq)
    ensures
        r.freq_hz == freq_hz,
        r.control == (rr_use@ == "d"@ || rr_use@ == "a"@),
{
    ProgramSiteFreq { freq_hz, control: str_eq(rr_use, "d") || str_eq(rr_use, "a") }
}

// ---------------------------------------------------------------------------
// The programmable model: source-agnostic systems ready to emit.
// ---------------------------------------------------------------------------

/// A geographic coverage point (a site or a group), as the card stores it:
/// latitude and longitude to 6 decimal places, range in miles to 1.
#[derive(Debug, Clone, PartialEq)]
pub struct ProgramGeo {
    pub lat: String,
    pub lon: String,
    pub range_mi: String,
}

/// A trunked site: where it is + the frequencies it uses (→ an SD-card `Site` +
/// `T-Freq`s).
#[derive(Debug, Clone, PartialEq)]
pub struct ProgramSite {
    pub name: String,
    pub geo: Option<ProgramGeo>,
    pub frequencies: Vec<ProgramSiteFreq>,
}

/// A talkgroup category / conventional subcategory (→ an SD-card `T-Group` /
/// `C-Group`).
#[derive(Debug, Clone, PartialEq)]
pub struct ProgramGroup {
    pub name: String,
    pub geo: Option<ProgramGeo>,
    pub channels: Vec<ProgramChannel>,
}

/// One programmable system, source-agnostic and lossless.
#[derive(Debug, Clone, PartialEq)]
pub struct ProgramSystem {
    pub name: String,
    pub kind: SystemKind,
    /// Raw technology string (`P25Standard`, `MotoTrbo`, `Conventional`, …).
    pub tech: Option<String>,
    pub county_ids: Vec<u64>,
    pub state_ids: Vec<u64>,
    /// Trunked sites (empty for a conventional system).
    pub sites: Vec<ProgramSite>,
    /// Talkgroup categories (trunked) or subcategories (conventional).
    pub groups: Vec<ProgramGroup>,
}

// ---------------------------------------------------------------------------
// Records.
// ---------------------------------------------------------------------------

/// Field `i` after the assignments `set` (in order, a later one winning) over
/// `base`.
pub open spec fn set_at(set: Seq<(int, Seq<char>)>, i: int, base: Seq<char>) -> Seq<char>
    decreases set.len(),
{
    if set.len() == 0 {
        base
    } else if set.last().0 == i {
        set.last().1
    } else {
        set_at(set.drop_last(), i, base)
    }
}

/// A `command` line of `n` fields, empty but for the command and the
/// assignments in `set` (columns past the end are ignored).
pub open spec fn spec_record(command: Seq<char>, n: nat, set: Seq<(int, Seq<char>)>) -> SpecLine {
    SpecLine {
        fields: Seq::new(n, |i: int| set_at(set, i, if i == 0 { command } else { Seq::empty() })),
        ending: LineEnding::Crlf,
    }
}

pub open spec fn set_view(set: Seq<(usize, String)>) -> Seq<(int, Seq<char>)> {
    Seq::new(set.len(), |k: int| (set[k].0 as int, set[k].1@))
}

/// Build a line for `command` with `n` fields, then set specific columns. Extra
/// fields are empty — matching the full-dialect records on a real card.
fn record(command: &str, n: usize, set: &Vec<(usize, String)>) -> (r: Line)
    requires
        n >= 1,
    ensures
        r@ == spec_record(command@, n as nat, set_view(set@)),
{
    let mut fields: Vec<String> = Vec::new();
    let mut i: usize = 0;
    while i < n
        invariant
            i <= n,
            fields@.len() == i,
            forall|k: int| 0 <= k < i ==> (#[trigger] fields@[k])@ == Seq::<char>::empty(),
        decreases n - i,
    {
        fields.push(String::new());
        i += 1;
    }
    fields.set(0, copy_str(command));
    let ghost sv = set_view(set@);
    let ghost base = Seq::new(n as nat, |i: int| if i == 0 { command@ } else { Seq::<char>::empty() });
    let mut k: usize = 0;
    assert forall|j: int| 0 <= j < n implies (#[trigger] fields@[j])@ == set_at(sv.take(0), j, base[j]) by {
        assert(sv.take(0).len() == 0);
    }
    while k < set.len()
        invariant
            k <= set@.len(),
            fields@.len() == n,
            sv == set_view(set@),
            base == Seq::new(n as nat, |i: int| if i == 0 { command@ } else { Seq::<char>::empty() }),
            forall|j: int| 0 <= j < n ==> (#[trigger] fields@[j])@ == set_at(sv.take(k as int), j, base[j]),
        decreases set@.len() - k,
    {
        let col = set[k].0;
        proof {
            assert(sv.take(k + 1).drop_last() =~= sv.take(k as int));
            assert(sv.take(k + 1).last() == (col as int, set@[k as int].1@));
        }
        if col < n {
            fields.set(col, copy_str(set[k].1.as_str()));
        }
        k += 1;
    }
    let r = Line { fields, ending: LineEnding::Crlf };
    assert(sv.take(set@.len() as int) =~= sv);
    assert(r@.fields =~= spec_record(command@, n as nat, sv).fields);
    r
}

// ---------------------------------------------------------------------------
// Record ids.
// ---------------------------------------------------------------------------

/// `prefix=n`: a sequential record id.
pub open spec fn id_text(prefix: Seq<char>, n: nat) -> Seq<char> {
    prefix + "="@ + decimal(n)
}

/// Sequential id generator (`SiteId=8201` etc.). Values only need internal
/// referential integrity: the favorites dialect blanks the id/parent columns, so
/// the scanner reads the hierarchy positionally — the numbers just keep the
/// full-dialect document well-formed.
struct Ids {
    next: u64,
}

impl Ids {
    fn next_id(&mut self, prefix: &str) -> (r: String)
        requires
            old(self).next < u64::MAX,
        ensures
            r@ == id_text(prefix@, old(self).next as nat),
            final(self).next == old(self).next + 1,
    {
        let mut s = copy_str(prefix);
        s.append("=");
        push_decimal(&mut s, self.next);
        self.next = self.next + 1;
        s
    }
}

// ---------------------------------------------------------------------------
// What the emitted records hold.
// ---------------------------------------------------------------------------

/// A record's field count, from its schema.
pub open spec fn count_of(sc: Option<SpecSchema>) -> Option<nat> {
    match sc {
        Some(s) => Some(s.field_count as nat),
        None => None,
    }
}

/// A record's name column, from its schema (column 3 when it names none).
pub open spec fn name_col_of(sc: Option<SpecSchema>) -> int {
    match sc {
        Some(s) => match s.name_col {
            Some(c) => c as int,
            None => 3,
        },
        None => 3,
    }
}

pub open spec fn geo_cols_of(sc: Option<SpecSchema>) -> Option<GeoColumns> {
    match sc {
        Some(s) => s.geo,
        None => None,
    }
}

pub open spec fn chan_cols_of(sc: Option<SpecSchema>) -> Option<ChannelColumns> {
    match sc {
        Some(s) => s.channel,
        None => None,
    }
}

pub open spec fn tech_col_of(sc: Option<SpecSchema>) -> Option<usize> {
    match sc {
        Some(s) => s.tech_col,
        None => None,
    }
}

/// The location assignments of a geo-located record: lat, lon, range, and a
/// `Circle` shape.
pub open spec fn geo_set(g: Option<GeoColumns>, geo: Option<ProgramGeo>) -> Seq<(int, Seq<char>)> {
    match (g, geo) {
        (Some(c), Some(x)) => seq![
            (c.lat as int, x.lat@),
            (c.lon as int, x.lon@),
            (c.range as int, x.range_mi@),
            (c.shape as int, "Circle"@),
        ],
        _ => Seq::empty(),
    }
}

/// One assignment when both the column and the value are present.
pub open spec fn opt_set(col: Option<usize>, v: Option<Seq<char>>) -> Seq<(int, Seq<char>)> {
    match (col, v) {
        (Some(c), Some(x)) => seq![(c as int, x)],
        _ => Seq::empty(),
    }
}

pub open spec fn opt_dec(v: Option<u64>) -> Option<Seq<char>> {
    match v {
        Some(n) => Some(decimal(n as nat)),
        None => None,
    }
}

pub open spec fn opt_dec16(v: Option<u16>) -> Option<Seq<char>> {
    match v {
        Some(n) => Some(decimal(n as nat)),
        None => None,
    }
}

/// The assignments of a channel record with ids `c`, `c + 1`.
pub open spec fn channel_set(ch: ProgramChannel, cc: Option<ChannelColumns>, nc: int, c: nat) -> Seq<(int, Seq<char>)> {
    seq![(1, id_text("ChanId"@, c)), (2, id_text("GroupRef"@, c + 1)), (nc, ch.name@)] + match cc {
        Some(k) => opt_set(k.freq, opt_dec(ch.freq_hz)) + opt_set(k.tgid, opt_string_view(ch.tgid))
            + opt_set(k.mode, opt_string_view(ch.mode)) + opt_set(k.tone, opt_string_view(ch.tone))
            + opt_set(k.service_type, opt_dec16(ch.service_type)),
        None => Seq::empty(),
    }
}

/// The channel records of a group, ids from `c` on (two each).
pub open spec fn channel_lines(chs: Seq<ProgramChannel>, cmd: Seq<char>, sc: Option<SpecSchema>, c: nat) -> Seq<SpecLine> {
    match count_of(sc) {
        Some(n) => Seq::new(
            chs.len(),
            |k: int| spec_record(cmd, n, channel_set(chs[k], chan_cols_of(sc), name_col_of(sc), (c + 2 * k) as nat)),
        ),
        None => Seq::empty(),
    }
}

/// Assignments applied in two runs: the second run's overrides the first's.
proof fn lemma_set_at_concat(a: Seq<(int, Seq<char>)>, b: Seq<(int, Seq<char>)>, i: int, base: Seq<char>)
    ensures
        set_at(a + b, i, base) == set_at(b, i, set_at(a, i, base)),
    decreases b.len(),
{
    if b.len() == 0 {
        assert(a + b =~= a);
    } else {
        assert((a + b).drop_last() =~= a + b.drop_last());
        assert((a + b).last() == b.last());
        lemma_set_at_concat(a, b.drop_last(), i, base);
    }
}

/// One optional assignment: the column gets the value when both are present.
proof fn lemma_set_at_opt(col: Option<usize>, v: Option<Seq<char>>, i: int, base: Seq<char>)
    ensures
        set_at(opt_set(col, v), i, base) == (if col is Some && col->0 as int == i && v is Some { v->0 } else { base }),
{
    if col is Some && v is Some {
        let t = opt_set(col, v);
        assert(t == seq![(col->0 as int, v->0)]);
        assert(t.len() == 1);
        assert(t.last() == (col->0 as int, v->0));
        assert(t.drop_last() =~= Seq::<(int, Seq<char>)>::empty());
        assert(set_at(t.drop_last(), i, base) == base);
    } else {
        assert(opt_set(col, v) == Seq::<(int, Seq<char>)>::empty());
    }
}

/// Each programmed channel becomes one record (of the schema's field count) that
/// carries its values in the schema's columns: its frequency in Hz, its talkgroup
/// id, its mode and tone as given, its service type, and its name. A value is
/// read back from its column unless a value written after it (in the order
/// frequency, talkgroup id, mode, tone, service type) shares the column.
pub proof fn lemma_channel_records_carry_values(
    chs: Seq<ProgramChannel>,
    cmd: Seq<char>,
    sc: Option<SpecSchema>,
    c: nat,
    k: int,
)
    requires
        0 <= k < chs.len(),
        count_of(sc) is Some,
        chan_cols_of(sc) is Some,
    ensures
        channel_lines(chs, cmd, sc, c).len() == chs.len(),
        channel_lines(chs, cmd, sc, c)[k].fields.len() == count_of(sc)->0,
        (chan_cols_of(sc)->0).freq matches Some(f) ==> (f < count_of(sc)->0 && chs[k].freq_hz is Some
            && (chan_cols_of(sc)->0).tgid != Some(f) && (chan_cols_of(sc)->0).mode != Some(f)
            && (chan_cols_of(sc)->0).tone != Some(f) && (chan_cols_of(sc)->0).service_type != Some(f)
            ==> spec_parse_u64(channel_lines(chs, cmd, sc, c)[k].fields[f as int]) == chs[k].freq_hz),
        (chan_cols_of(sc)->0).tgid matches Some(t) ==> (t < count_of(sc)->0 && chs[k].tgid is Some
            && (chan_cols_of(sc)->0).mode != Some(t) && (chan_cols_of(sc)->0).tone != Some(t)
            && (chan_cols_of(sc)->0).service_type != Some(t)
            ==> Some(channel_lines(chs, cmd, sc, c)[k].fields[t as int]) == opt_string_view(chs[k].tgid)),
        (chan_cols_of(sc)->0).mode matches Some(m) ==> (m < count_of(sc)->0 && chs[k].mode is Some
            && (chan_cols_of(sc)->0).tone != Some(m) && (chan_cols_of(sc)->0).service_type != Some(m)
            ==> Some(channel_lines(chs, cmd, sc, c)[k].fields[m as int]) == opt_string_view(chs[k].mode)),
        (chan_cols_of(sc)->0).tone matches Some(t) ==> (t < count_of(sc)->0 && chs[k].tone is Some
            && (chan_cols_of(sc)->0).service_type != Some(t)
            ==> Some(channel_lines(chs, cmd, sc, c)[k].fields[t as int]) == opt_string_view(chs[k].tone)),
        (chan_cols_of(sc)->0).service_type matches Some(st) ==> (st < count_of(sc)->0 && chs[k].service_type is Some
            ==> spec_parse_u64(channel_lines(chs, cmd, sc, c)[k].fields[st as int]) == Some(
                chs[k].service_type->0 as u64,
            )),
{
    let n = count_of(sc)->0;
    let cc = chan_cols_of(sc)->0;
    let ch = chs[k];
    let nc = name_col_of(sc);
    let l = channel_lines(chs, cmd, sc, c)[k];
    let head = seq![(1, id_text("ChanId"@, (c + 2 * k) as nat)), (2, id_text("GroupRef"@, (c + 2 * k) as nat + 1)), (nc, ch.name@)];
    let s1 = opt_set(cc.freq, opt_dec(ch.freq_hz));
    let s2 = opt_set(cc.tgid, opt_string_view(ch.tgid));
    let s3 = opt_set(cc.mode, opt_string_view(ch.mode));
    let s4 = opt_set(cc.tone, opt_string_view(ch.tone));
    let s5 = opt_set(cc.service_type, opt_dec16(ch.service_type));
    let set = channel_set(ch, chan_cols_of(sc), nc, (c + 2 * k) as nat);
    assert(set == head + (s1 + s2 + s3 + s4 + s5));
    assert forall|i: int| 0 <= i < n implies #[trigger] l.fields[i] == set_at(
        s5,
        i,
        set_at(s4, i, set_at(s3, i, set_at(s2, i, set_at(s1, i, set_at(head, i, if i == 0 { cmd } else { Seq::empty() }))))),
    ) by {
        let base = if i == 0 { cmd } else { Seq::empty() };
        lemma_set_at_concat(head, s1 + s2 + s3 + s4 + s5, i, base);
        lemma_set_at_concat(s1 + s2 + s3 + s4, s5, i, set_at(head, i, base));
        lemma_set_at_concat(s1 + s2 + s3, s4, i, set_at(head, i, base));
        lemma_set_at_concat(s1 + s2, s3, i, set_at(head, i, base));
        lemma_set_at_concat(s1, s2, i, set_at(head, i, base));
        assert(head + (s1 + s2 + s3 + s4 + s5) =~= head + (s1 + s2 + s3 + s4 + s5));
        assert(l.fields[i] == set_at(set, i, base));
    }
    if cc.freq is Some && ch.freq_hz is Some {
        let f = cc.freq->0 as int;
        if f < n {
            lemma_set_at_opt(cc.freq, opt_dec(ch.freq_hz), f, set_at(head, f, if f == 0 { cmd } else { Seq::empty() }));
            lemma_set_at_opt(cc.tgid, opt_string_view(ch.tgid), f, decimal(ch.freq_hz->0 as nat));
            lemma_set_at_opt(cc.mode, opt_string_view(ch.mode), f, decimal(ch.freq_hz->0 as nat));
            lemma_set_at_opt(cc.tone, opt_string_view(ch.tone), f, decimal(ch.freq_hz->0 as nat));
            lemma_set_at_opt(cc.service_type, opt_dec16(ch.service_type), f, decimal(ch.freq_hz->0 as nat));
            crate::text::lemma_decimal_parses_u64(ch.freq_hz->0);
        }
    }
    if cc.tgid is Some && ch.tgid is Some {
        let t = cc.tgid->0 as int;
        if t < n {
            let v = opt_string_view(ch.tgid)->0;
            lemma_set_at_opt(cc.tgid, opt_string_view(ch.tgid), t, set_at(s1, t, set_at(head, t, if t == 0 { cmd } else { Seq::empty() })));
            lemma_set_at_opt(cc.mode, opt_string_view(ch.mode), t, v);
            lemma_set_at_opt(cc.tone, opt_string_view(ch.tone), t, v);
            lemma_set_at_opt(cc.service_type, opt_dec16(ch.service_type), t, v);
        }
    }
    if cc.mode is Some && ch.mode is Some {
        let m = cc.mode->0 as int;
        if m < n {
            let v = opt_string_view(ch.mode)->0;
            lemma_set_at_opt(cc.mode, opt_string_view(ch.mode), m, set_at(s2, m, set_at(s1, m, set_at(head, m, if m == 0 { cmd } else { Seq::empty() }))));
            lemma_set_at_opt(cc.tone, opt_string_view(ch.tone), m, v);
            lemma_set_at_opt(cc.service_type, opt_dec16(ch.service_type), m, v);
        }
    }
    if cc.tone is Some && ch.tone is Some {
        let t = cc.tone->0 as int;
        if t < n {
            let v = opt_string_view(ch.tone)->0;
            lemma_set_at_opt(cc.tone, opt_string_view(ch.tone), t, set_at(s3, t, set_at(s2, t, set_at(s1, t, set_at(head, t, if t == 0 { cmd } else { Seq::empty() })))));
            lemma_set_at_opt(cc.service_type, opt_dec16(ch.service_type), t, v);
        }
    }
    if cc.service_type is Some && ch.service_type is Some {
        let st = cc.service_type->0 as int;
        if st < n {
            lemma_set_at_opt(cc.service_type, opt_dec16(ch.service_type), st, set_at(s4, st, set_at(s3, st, set_at(s2, st, set_at(s1, st, set_at(head, st, if st == 0 { cmd } else { Seq::empty() }))))));
            crate::text::lemma_decimal_parses_u64(ch.service_type->0 as u64);
        }
    }
}

/// The ids a group's records take.
pub open spec fn group_ids(g: ProgramGroup, gsc: Option<SpecSchema>, csc: Option<SpecSchema>) -> nat {
    (if count_of(gsc) is Some { 2nat } else { 0nat }) + (if count_of(csc) is Some { 2 * g.channels@.len() } else { 0nat })
}

/// A group's records: its group record (when the model has one), then its channels.
pub open spec fn group_lines(
    g: ProgramGroup,
    gcmd: Seq<char>,
    gsc: Option<SpecSchema>,
    ccmd: Seq<char>,
    csc: Option<SpecSchema>,
    c: nat,
) -> Seq<SpecLine> {
    let head = match count_of(gsc) {
        Some(n) => seq![
            spec_record(
                gcmd,
                n,
                seq![(1, id_text("GroupId"@, c)), (2, id_text("SysRef"@, c + 1)), (name_col_of(gsc), g.name@)]
                    + geo_set(geo_cols_of(gsc), g.geo),
            ),
        ],
        None => Seq::empty(),
    };
    let c2: nat = if count_of(gsc) is Some { c + 2 } else { c };
    head + channel_lines(g.channels@, ccmd, csc, c2)
}

pub open spec fn groups_ids(gs: Seq<ProgramGroup>, gsc: Option<SpecSchema>, csc: Option<SpecSchema>) -> nat
    decreases gs.len(),
{
    if gs.len() == 0 {
        0
    } else {
        groups_ids(gs.drop_last(), gsc, csc) + group_ids(gs.last(), gsc, csc)
    }
}

pub open spec fn groups_lines(
    gs: Seq<ProgramGroup>,
    gcmd: Seq<char>,
    gsc: Option<SpecSchema>,
    ccmd: Seq<char>,
    csc: Option<SpecSchema>,
    c: nat,
) -> Seq<SpecLine>
    decreases gs.len(),
{
    if gs.len() == 0 {
        Seq::empty()
    } else {
        groups_lines(gs.drop_last(), gcmd, gsc, ccmd, csc, c) + group_lines(
            gs.last(),
            gcmd,
            gsc,
            ccmd,
            csc,
            c + groups_ids(gs.drop_last(), gsc, csc),
        )
    }
}

// ---------------------------------------------------------------------------
// Emitting the records.
// ---------------------------------------------------------------------------

/// A schema, when there is one, has at least one field (the command).
pub open spec fn has_fields(sc: Option<SpecSchema>) -> bool {
    sc matches Some(s) ==> s.field_count >= 1
}

/// Every record type a synthesized system uses has at least one field in the
/// model's schema.
pub open spec fn schemas_have_fields<P: SdCardProfile + ?Sized>(p: &P) -> bool {
    &&& has_fields(p.spec_record_schema("Conventional"@))
    &&& has_fields(p.spec_record_schema("C-Group"@))
    &&& has_fields(p.spec_record_schema("C-Freq"@))
    &&& has_fields(p.spec_record_schema("Trunk"@))
    &&& has_fields(p.spec_record_schema("Site"@))
    &&& has_fields(p.spec_record_schema("T-Freq"@))
    &&& has_fields(p.spec_record_schema("T-Group"@))
    &&& has_fields(p.spec_record_schema("TGID"@))
}

fn push_set(set: &mut Vec<(usize, String)>, col: usize, v: String)
    ensures
        set_view(final(set)@) == set_view(old(set)@).push((col as int, v@)),
{
    set.push((col, v));
    assert(set_view(set@) =~= set_view(old(set)@).push((col as int, v@)));
}

fn push_opt(set: &mut Vec<(usize, String)>, col: Option<usize>, v: Option<String>)
    ensures
        set_view(final(set)@) == set_view(old(set)@) + opt_set(col, opt_string_view(v)),
{
    match (col, v) {
        (Some(c), Some(x)) => {
            push_set(set, c, x);
            assert(set_view(set@) =~= set_view(old(set)@) + opt_set(col, opt_string_view(Some(x))));
        },
        _ => {
            assert(set_view(set@) =~= set_view(old(set)@) + opt_set(col, opt_string_view(v)));
        },
    }
}

fn opt_copy(o: &Option<String>) -> (r: Option<String>)
    ensures
        opt_string_view(r) == opt_string_view(*o),
{
    match o {
        Some(s) => Some(copy_str(s.as_str())),
        None => None,
    }
}

fn name_col(sc: Option<RecordSchema>) -> (r: usize)
    ensures
        r as int == name_col_of(opt_schema_view(sc)),
{
    match sc {
        Some(s) => match s.name_col {
            Some(c) => c,
            None => 3,
        },
        None => 3,
    }
}

/// One channel record, with the next two ids.
#[verifier::rlimit(40)]
fn channel_record(
    cmd: &str,
    n: usize,
    ch: &ProgramChannel,
    cc: Option<ChannelColumns>,
    nc: usize,
    ids: &mut Ids,
) -> (r: Line)
    requires
        n >= 1,
        old(ids).next + 2 <= u64::MAX,
    ensures
        r@ == spec_record(cmd@, n as nat, channel_set(*ch, cc, nc as int, old(ids).next as nat)),
        final(ids).next == old(ids).next + 2,
{
    let mut set: Vec<(usize, String)> = Vec::new();
    let ghost c = ids.next as nat;
    let a = ids.next_id("ChanId");
    push_set(&mut set, 1, a);
    let b = ids.next_id("GroupRef");
    push_set(&mut set, 2, b);
    push_set(&mut set, nc, copy_str(ch.name.as_str()));
    assert(set_view(set@) =~= seq![(1int, id_text("ChanId"@, c)), (2int, id_text("GroupRef"@, c + 1)), (nc as int, ch.name@)]);
    match cc {
        Some(kc) => {
            let f = match ch.freq_hz {
                Some(hz) => Some(decimal_string(hz)),
                None => None,
            };
            assert(opt_string_view(f) == opt_dec(ch.freq_hz));
            push_opt(&mut set, kc.freq, f);
            push_opt(&mut set, kc.tgid, opt_copy(&ch.tgid));
            push_opt(&mut set, kc.mode, opt_copy(&ch.mode));
            push_opt(&mut set, kc.tone, opt_copy(&ch.tone));
            let st = match ch.service_type {
                Some(v) => Some(decimal_string(v as u64)),
                None => None,
            };
            assert(opt_string_view(st) == opt_dec16(ch.service_type));
            push_opt(&mut set, kc.service_type, st);
            assert(set_view(set@) =~= channel_set(*ch, cc, nc as int, c));
        },
        None => {
            assert(set_view(set@) =~= channel_set(*ch, cc, nc as int, c));
        },
    }
    record(cmd, n, &set)
}

/// The channel records of a group.
fn emit_channels(
    out: &mut Vec<Line>,
    cmd: &str,
    chs: &Vec<ProgramChannel>,
    sc: Option<RecordSchema>,
    ids: &mut Ids,
)
    requires
        sc matches Some(s) ==> s.field_count >= 1,
        old(ids).next + (if sc is Some { 2 * chs@.len() } else { 0 }) <= u64::MAX,
    ensures
        lines_view(final(out)@) == lines_view(old(out)@) + channel_lines(chs@, cmd@, opt_schema_view(sc), old(ids).next as nat),
        final(ids).next == old(ids).next + (if sc is Some { 2 * chs@.len() } else { 0 }),
{
    let ghost scv = opt_schema_view(sc);
    let ghost c0 = ids.next as nat;
    let ghost o0 = lines_view(out@);
    let n = match sc {
        Some(s) => s.field_count as usize,
        None => {
            assert(lines_view(out@) =~= o0 + channel_lines(chs@, cmd@, scv, c0));
            return;
        },
    };
    let nc = name_col(sc);
    let cc = match sc {
        Some(s) => s.channel,
        None => None,
    };
    let mut k: usize = 0;
    while k < chs.len()
        invariant
            k <= chs@.len(),
            n >= 1,
            nc as int == name_col_of(scv),
            cc == chan_cols_of(scv),
            count_of(scv) == Some(n as nat),
            ids.next == c0 + 2 * k,
            c0 + 2 * chs@.len() <= u64::MAX,
            lines_view(out@) == o0 + channel_lines(chs@, cmd@, scv, c0).take(k as int),
        decreases chs@.len() - k,
    {
        let ghost c = ids.next as nat;
        let line = channel_record(cmd, n, &chs[k], cc, nc, ids);
        let ghost before = lines_view(out@);
        out.push(line);
        proof {
            let cl = channel_lines(chs@, cmd@, scv, c0);
            assert(cl[k as int] == spec_record(cmd@, n as nat, channel_set(chs@[k as int], cc, nc as int, c)));
            assert(lines_view(out@) =~= before.push(line@));
            assert(cl.take(k + 1) =~= cl.take(k as int).push(cl[k as int]));
        }
        k += 1;
    }
    assert(channel_lines(chs@, cmd@, scv, c0).take(chs@.len() as int) =~= channel_lines(chs@, cmd@, scv, c0));
}

/// The assignments of a `T-Freq` record with ids `c`, `c + 1`.
pub open spec fn site_freq_set(f: ProgramSiteFreq, fsc: Option<SpecSchema>, c: nat) -> Seq<(int, Seq<char>)> {
    seq![(1, id_text("TFreqId"@, c)), (2, id_text("SiteRef"@, c + 1))] + match chan_cols_of(fsc) {
        Some(k) => opt_set(k.freq, Some(decimal(f.freq_hz as nat))),
        None => Seq::empty(),
    }
}

/// Each site frequency becomes a `T-Freq` record whose frequency column, where the
/// model's schema has one within the record, reads back as that frequency in Hz.
pub proof fn lemma_site_freq_records_carry_hz(
    site: ProgramSite,
    ssc: Option<SpecSchema>,
    fsc: Option<SpecSchema>,
    c: nat,
    k: int,
    col: usize,
)
    requires
        0 <= k < site.frequencies@.len(),
        count_of(fsc) is Some,
        chan_cols_of(fsc) matches Some(cc) && cc.freq == Some(col),
        col < count_of(fsc)->0,
    ensures
        site_lines(site, ssc, fsc, c).len() == (if count_of(ssc) is Some { 1int } else { 0int }) + site.frequencies@.len(),
        site_lines(site, ssc, fsc, c)[(if count_of(ssc) is Some { 1int } else { 0int }) + k].fields.len() == count_of(fsc)->0,
        spec_parse_u64(site_lines(site, ssc, fsc, c)[(if count_of(ssc) is Some { 1int } else { 0int }) + k].fields[col as int])
            == Some(site.frequencies@[k].freq_hz),
{
    let h: int = if count_of(ssc) is Some { 1int } else { 0int };
    let ls = site_lines(site, ssc, fsc, c);
    let c2: nat = if count_of(ssc) is Some { c + 2 } else { c };
    let f = site.frequencies@[k];
    let set = site_freq_set(f, fsc, (c2 + 2 * k) as nat);
    assert(set.last() == (col as int, decimal(f.freq_hz as nat)));
    assert(ls[h + k] == spec_record("T-Freq"@, count_of(fsc)->0, set));
    assert(ls[h + k].fields[col as int] == set_at(set, col as int, Seq::empty()));
    crate::text::lemma_decimal_parses_u64(f.freq_hz);
}

/// The ids a site's records take.
pub open spec fn site_ids(site: ProgramSite, ssc: Option<SpecSchema>, fsc: Option<SpecSchema>) -> nat {
    (if count_of(ssc) is Some { 2nat } else { 0nat }) + (if count_of(fsc) is Some { 2 * site.frequencies@.len() } else { 0nat })
}

/// A site's records: its `Site` record (when the model has one), then its
/// `T-Freq`s.
pub open spec fn site_lines(site: ProgramSite, ssc: Option<SpecSchema>, fsc: Option<SpecSchema>, c: nat) -> Seq<SpecLine> {
    let head = match count_of(ssc) {
        Some(n) => seq![
            spec_record(
                "Site"@,
                n,
                seq![(1, id_text("SiteId"@, c)), (2, id_text("TrunkRef"@, c + 1)), (name_col_of(ssc), site.name@)]
                    + geo_set(geo_cols_of(ssc), site.geo),
            ),
        ],
        None => Seq::empty(),
    };
    let c2: nat = if count_of(ssc) is Some { c + 2 } else { c };
    let fs = site.frequencies@;
    head + match count_of(fsc) {
        Some(n) => Seq::new(fs.len(), |k: int| spec_record("T-Freq"@, n, site_freq_set(fs[k], fsc, (c2 + 2 * k) as nat))),
        None => Seq::empty(),
    }
}

pub open spec fn sites_ids(ss: Seq<ProgramSite>, ssc: Option<SpecSchema>, fsc: Option<SpecSchema>) -> nat
    decreases ss.len(),
{
    if ss.len() == 0 {
        0
    } else {
        sites_ids(ss.drop_last(), ssc, fsc) + site_ids(ss.last(), ssc, fsc)
    }
}

pub open spec fn sites_lines(ss: Seq<ProgramSite>, ssc: Option<SpecSchema>, fsc: Option<SpecSchema>, c: nat) -> Seq<SpecLine>
    decreases ss.len(),
{
    if ss.len() == 0 {
        Seq::empty()
    } else {
        sites_lines(ss.drop_last(), ssc, fsc, c) + site_lines(ss.last(), ssc, fsc, c + sites_ids(ss.drop_last(), ssc, fsc))
    }
}

/// A conventional system's technology: as named, else `Conventional`.
pub open spec fn conventional_tech(t: Option<String>) -> Seq<char> {
    match t {
        Some(x) => x@,
        None => "Conventional"@,
    }
}

/// The ids a system's records take.
pub open spec fn system_ids<P: SdCardProfile + ?Sized>(sys: ProgramSystem, p: &P) -> nat {
    match sys.kind {
        SystemKind::Conventional => match count_of(p.spec_record_schema("Conventional"@)) {
            Some(_) => 3 + groups_ids(
                sys.groups@,
                p.spec_record_schema("C-Group"@),
                p.spec_record_schema("C-Freq"@),
            ),
            None => 0,
        },
        _ => match count_of(p.spec_record_schema("Trunk"@)) {
            Some(_) => 2 + sites_ids(sys.sites@, p.spec_record_schema("Site"@), p.spec_record_schema("T-Freq"@))
                + groups_ids(sys.groups@, p.spec_record_schema("T-Group"@), p.spec_record_schema("TGID"@)),
            None => 0,
        },
    }
}

/// A system's full-dialect records, ids from `c` on: a conventional system's
/// header (`CountyId`, `StateId`, name, technology — `Conventional` when it names
/// none), then its groups (after one more id for their logical parent); a trunked
/// one's header (`TrunkId`, `StateId`, name, technology when known), its sites,
/// then its groups. Nothing when the model has no header record for it.
pub open spec fn system_lines<P: SdCardProfile + ?Sized>(sys: ProgramSystem, p: &P, c: nat) -> Seq<SpecLine> {
    match sys.kind {
        SystemKind::Conventional => {
            let sc = p.spec_record_schema("Conventional"@);
            match count_of(sc) {
                Some(n) => {
                    let tech = match tech_col_of(sc) {
                        Some(tc) => seq![(tc as int, conventional_tech(sys.tech))],
                        None => Seq::empty(),
                    };
                    seq![
                        spec_record(
                            "Conventional"@,
                            n,
                            seq![(1, id_text("CountyId"@, c)), (2, id_text("StateId"@, c + 1)), (name_col_of(sc), sys.name@)]
                                + tech,
                        ),
                    ] + groups_lines(
                        sys.groups@,
                        "C-Group"@,
                        p.spec_record_schema("C-Group"@),
                        "C-Freq"@,
                        p.spec_record_schema("C-Freq"@),
                        c + 3,
                    )
                },
                None => Seq::empty(),
            }
        },
        _ => {
            let sc = p.spec_record_schema("Trunk"@);
            match count_of(sc) {
                Some(n) => {
                    let tech = opt_set(tech_col_of(sc), opt_string_view(sys.tech));
                    let ssc = p.spec_record_schema("Site"@);
                    let fsc = p.spec_record_schema("T-Freq"@);
                    seq![
                        spec_record(
                            "Trunk"@,
                            n,
                            seq![(1, id_text("TrunkId"@, c)), (2, id_text("StateId"@, c + 1)), (name_col_of(sc), sys.name@)]
                                + tech,
                        ),
                    ] + sites_lines(sys.sites@, ssc, fsc, c + 2) + groups_lines(
                        sys.groups@,
                        "T-Group"@,
                        p.spec_record_schema("T-Group"@),
                        "TGID"@,
                        p.spec_record_schema("TGID"@),
                        c + 2 + sites_ids(sys.sites@, ssc, fsc),
                    )
                },
                None => Seq::empty(),
            }
        },
    }
}

pub open spec fn systems_ids<P: SdCardProfile + ?Sized>(ss: Seq<ProgramSystem>, p: &P) -> nat
    decreases ss.len(),
{
    if ss.len() == 0 {
        0
    } else {
        systems_ids(ss.drop_last(), p) + system_ids(ss.last(), p)
    }
}

pub open spec fn systems_lines<P: SdCardProfile + ?Sized>(ss: Seq<ProgramSystem>, p: &P, c: nat) -> Seq<SpecLine>
    decreases ss.len(),
{
    if ss.len() == 0 {
        Seq::empty()
    } else {
        systems_lines(ss.drop_last(), p, c) + system_lines(ss.last(), p, c + systems_ids(ss.drop_last(), p))
    }
}

/// The full-dialect document synthesized from `systems`: the model header
/// (`TargetModel`, `FormatVersion`), then every system's records, ids from 1.
pub open spec fn spec_synthesized<P: SdCardProfile + ?Sized>(systems: Seq<ProgramSystem>, p: &P) -> Seq<SpecLine> {
    seq![
        spec_record("TargetModel"@, 2, seq![(1int, p.spec_model_key().0)]),
        spec_record("FormatVersion"@, 2, seq![(1int, p.spec_model_key().1)]),
    ] + systems_lines(systems, p, 1)
}

fn push_geo(set: &mut Vec<(usize, String)>, g: Option<GeoColumns>, geo: &Option<ProgramGeo>)
    ensures
        set_view(final(set)@) == set_view(old(set)@) + geo_set(g, *geo),
{
    match (g, geo) {
        (Some(c), Some(x)) => {
            push_set(set, c.lat, copy_str(x.lat.as_str()));
            push_set(set, c.lon, copy_str(x.lon.as_str()));
            push_set(set, c.range, copy_str(x.range_mi.as_str()));
            push_set(set, c.shape, copy_str("Circle"));
            assert(set_view(set@) =~= set_view(old(set)@) + geo_set(g, *geo));
        },
        _ => {
            assert(set_view(set@) =~= set_view(old(set)@) + geo_set(g, *geo));
        },
    }
}

/// A group's records: its group record (when the model has one), then its
/// channels.
fn emit_group(
    out: &mut Vec<Line>,
    group_cmd: &str,
    chan_cmd: &str,
    group: &ProgramGroup,
    gsc: Option<RecordSchema>,
    csc: Option<RecordSchema>,
    ids: &mut Ids,
)
    requires
        gsc matches Some(s) ==> s.field_count >= 1,
        csc matches Some(s) ==> s.field_count >= 1,
        old(ids).next + group_ids(*group, opt_schema_view(gsc), opt_schema_view(csc)) <= u64::MAX,
    ensures
        lines_view(final(out)@) == lines_view(old(out)@) + group_lines(
            *group,
            group_cmd@,
            opt_schema_view(gsc),
            chan_cmd@,
            opt_schema_view(csc),
            old(ids).next as nat,
        ),
        final(ids).next == old(ids).next + group_ids(*group, opt_schema_view(gsc), opt_schema_view(csc)),
{
    let ghost c = ids.next as nat;
    let ghost o0 = lines_view(out@);
    let ghost gv = opt_schema_view(gsc);
    match gsc {
        Some(s) => {
            let mut set: Vec<(usize, String)> = Vec::new();
            let a = ids.next_id("GroupId");
            push_set(&mut set, 1, a);
            let b = ids.next_id("SysRef");
            push_set(&mut set, 2, b);
            push_set(&mut set, name_col(gsc), copy_str(group.name.as_str()));
            push_geo(&mut set, s.geo, &group.geo);
            assert(set_view(set@) =~= seq![
                (1int, id_text("GroupId"@, c)),
                (2int, id_text("SysRef"@, c + 1)),
                (name_col_of(gv), group.name@),
            ] + geo_set(geo_cols_of(gv), group.geo));
            let line = record(group_cmd, s.field_count as usize, &set);
            out.push(line);
            assert(lines_view(out@) =~= o0.push(line@));
        },
        None => {},
    }
    let ghost o1 = lines_view(out@);
    emit_channels(out, chan_cmd, &group.channels, csc, ids);
    assert(lines_view(out@) =~= o0 + group_lines(*group, group_cmd@, gv, chan_cmd@, opt_schema_view(csc), c));
}

proof fn lemma_groups_ids_prefix(gs: Seq<ProgramGroup>, gsc: Option<SpecSchema>, csc: Option<SpecSchema>, k: int)
    requires
        0 <= k <= gs.len(),
    ensures
        groups_ids(gs.take(k), gsc, csc) <= groups_ids(gs, gsc, csc),
    decreases gs.len(),
{
    if k < gs.len() {
        assert(gs.drop_last().take(k) =~= gs.take(k));
        lemma_groups_ids_prefix(gs.drop_last(), gsc, csc, k);
    } else {
        assert(gs.take(k) =~= gs);
    }
}

/// Every group's records, in order.
fn emit_groups(
    out: &mut Vec<Line>,
    group_cmd: &str,
    chan_cmd: &str,
    groups: &Vec<ProgramGroup>,
    gsc: Option<RecordSchema>,
    csc: Option<RecordSchema>,
    ids: &mut Ids,
)
    requires
        gsc matches Some(s) ==> s.field_count >= 1,
        csc matches Some(s) ==> s.field_count >= 1,
        old(ids).next + groups_ids(groups@, opt_schema_view(gsc), opt_schema_view(csc)) <= u64::MAX,
    ensures
        lines_view(final(out)@) == lines_view(old(out)@) + groups_lines(
            groups@,
            group_cmd@,
            opt_schema_view(gsc),
            chan_cmd@,
            opt_schema_view(csc),
            old(ids).next as nat,
        ),
        final(ids).next == old(ids).next + groups_ids(groups@, opt_schema_view(gsc), opt_schema_view(csc)),
{
    let ghost c0 = ids.next as nat;
    let ghost o0 = lines_view(out@);
    let ghost gv = opt_schema_view(gsc);
    let ghost cv = opt_schema_view(csc);
    let ghost gs = groups@;
    let mut k: usize = 0;
    assert(gs.take(0) =~= Seq::<ProgramGroup>::empty());
    while k < groups.len()
        invariant
            k <= gs.len(),
            gs == groups@,
            gv == opt_schema_view(gsc),
            cv == opt_schema_view(csc),
            gsc matches Some(s) ==> s.field_count >= 1,
            csc matches Some(s) ==> s.field_count >= 1,
            c0 + groups_ids(gs, gv, cv) <= u64::MAX,
            ids.next == c0 + groups_ids(gs.take(k as int), gv, cv),
            lines_view(out@) == o0 + groups_lines(gs.take(k as int), group_cmd@, gv, chan_cmd@, cv, c0),
        decreases gs.len() - k,
    {
        proof {
            assert(gs.take(k + 1).drop_last() =~= gs.take(k as int));
            assert(gs.take(k + 1).last() == gs[k as int]);
            lemma_groups_ids_prefix(gs, gv, cv, k + 1);
        }
        let ghost before = lines_view(out@);
        emit_group(out, group_cmd, chan_cmd, &groups[k], gsc, csc, ids);
        proof {
            assert(lines_view(out@) =~= o0 + groups_lines(gs.take(k + 1), group_cmd@, gv, chan_cmd@, cv, c0));
        }
        k += 1;
    }
    assert(gs.take(gs.len() as int) =~= gs);
}

/// One `T-Freq` record, with the next two ids.
fn site_freq_record(n: usize, f: &ProgramSiteFreq, fsc: Option<RecordSchema>, ids: &mut Ids) -> (r: Line)
    requires
        n >= 1,
        old(ids).next + 2 <= u64::MAX,
    ensures
        r@ == spec_record("T-Freq"@, n as nat, site_freq_set(*f, opt_schema_view(fsc), old(ids).next as nat)),
        final(ids).next == old(ids).next + 2,
{
    let ghost c = ids.next as nat;
    let mut set: Vec<(usize, String)> = Vec::new();
    let a = ids.next_id("TFreqId");
    push_set(&mut set, 1, a);
    let b = ids.next_id("SiteRef");
    push_set(&mut set, 2, b);
    let cc = match fsc {
        Some(s) => s.channel,
        None => None,
    };
    match cc {
        Some(kc) => {
            push_opt(&mut set, kc.freq, Some(decimal_string(f.freq_hz)));
        },
        None => {},
    }
    assert(set_view(set@) =~= site_freq_set(*f, opt_schema_view(fsc), c));
    record("T-Freq", n, &set)
}

/// A site's records: its `Site` record (when the model has one), then its
/// `T-Freq`s.
fn emit_site(out: &mut Vec<Line>, site: &ProgramSite, ssc: Option<RecordSchema>, fsc: Option<RecordSchema>, ids: &mut Ids)
    requires
        ssc matches Some(s) ==> s.field_count >= 1,
        fsc matches Some(s) ==> s.field_count >= 1,
        old(ids).next + site_ids(*site, opt_schema_view(ssc), opt_schema_view(fsc)) <= u64::MAX,
    ensures
        lines_view(final(out)@) == lines_view(old(out)@) + site_lines(
            *site,
            opt_schema_view(ssc),
            opt_schema_view(fsc),
            old(ids).next as nat,
        ),
        final(ids).next == old(ids).next + site_ids(*site, opt_schema_view(ssc), opt_schema_view(fsc)),
{
    let ghost c = ids.next as nat;
    let ghost o0 = lines_view(out@);
    let ghost sv = opt_schema_view(ssc);
    let ghost fv = opt_schema_view(fsc);
    proof { reveal_strlit("Site"); }
    match ssc {
        Some(s) => {
            let mut set: Vec<(usize, String)> = Vec::new();
            let a = ids.next_id("SiteId");
            push_set(&mut set, 1, a);
            let b = ids.next_id("TrunkRef");
            push_set(&mut set, 2, b);
            push_set(&mut set, name_col(ssc), copy_str(site.name.as_str()));
            push_geo(&mut set, s.geo, &site.geo);
            assert(set_view(set@) =~= seq![
                (1int, id_text("SiteId"@, c)),
                (2int, id_text("TrunkRef"@, c + 1)),
                (name_col_of(sv), site.name@),
            ] + geo_set(geo_cols_of(sv), site.geo));
            let line = record("Site", s.field_count as usize, &set);
            out.push(line);
            assert(lines_view(out@) =~= o0.push(line@));
        },
        None => {},
    }
    let ghost o1 = lines_view(out@);
    let ghost c2 = ids.next as nat;
    let ghost fs = site.frequencies@;
    let ghost tail = match count_of(fv) {
        Some(n) => Seq::new(fs.len(), |k: int| spec_record("T-Freq"@, n, site_freq_set(fs[k], fv, (c2 + 2 * k) as nat))),
        None => Seq::<SpecLine>::empty(),
    };
    match fsc {
        Some(s) => {
            let n = s.field_count as usize;
            let mut k: usize = 0;
            while k < site.frequencies.len()
                invariant
                    k <= fs.len(),
                    fs == site.frequencies@,
                    n >= 1,
                    fv == opt_schema_view(fsc),
                    count_of(fv) == Some(n as nat),
                    ids.next == c2 + 2 * k,
                    c2 + 2 * fs.len() <= u64::MAX,
                    tail == Seq::new(fs.len(), |k: int| spec_record("T-Freq"@, n as nat, site_freq_set(fs[k], fv, (c2 + 2 * k) as nat))),
                    lines_view(out@) == o1 + tail.take(k as int),
                decreases fs.len() - k,
            {
                let line = site_freq_record(n, &site.frequencies[k], fsc, ids);
                let ghost before = lines_view(out@);
                out.push(line);
                proof {
                    assert(lines_view(out@) =~= before.push(line@));
                    assert(tail.take(k + 1) =~= tail.take(k as int).push(tail[k as int]));
                }
                k += 1;
            }
            assert(tail.take(fs.len() as int) =~= tail);
        },
        None => {},
    }
    assert(lines_view(out@) =~= o0 + site_lines(*site, sv, fv, c));
}

proof fn lemma_sites_ids_prefix(ss: Seq<ProgramSite>, ssc: Option<SpecSchema>, fsc: Option<SpecSchema>, k: int)
    requires
        0 <= k <= ss.len(),
    ensures
        sites_ids(ss.take(k), ssc, fsc) <= sites_ids(ss, ssc, fsc),
    decreases ss.len(),
{
    if k < ss.len() {
        assert(ss.drop_last().take(k) =~= ss.take(k));
        lemma_sites_ids_prefix(ss.drop_last(), ssc, fsc, k);
    } else {
        assert(ss.take(k) =~= ss);
    }
}

/// Every site's records, in order.
fn emit_sites(out: &mut Vec<Line>, sites: &Vec<ProgramSite>, ssc: Option<RecordSchema>, fsc: Option<RecordSchema>, ids: &mut Ids)
    requires
        ssc matches Some(s) ==> s.field_count >= 1,
        fsc matches Some(s) ==> s.field_count >= 1,
        old(ids).next + sites_ids(sites@, opt_schema_view(ssc), opt_schema_view(fsc)) <= u64::MAX,
    ensures
        lines_view(final(out)@) == lines_view(old(out)@) + sites_lines(
            sites@,
            opt_schema_view(ssc),
            opt_schema_view(fsc),
            old(ids).next as nat,
        ),
        final(ids).next == old(ids).next + sites_ids(sites@, opt_schema_view(ssc), opt_schema_view(fsc)),
{
    let ghost c0 = ids.next as nat;
    let ghost o0 = lines_view(out@);
    let ghost sv = opt_schema_view(ssc);
    let ghost fv = opt_schema_view(fsc);
    let ghost ss = sites@;
    let mut k: usize = 0;
    assert(ss.take(0) =~= Seq::<ProgramSite>::empty());
    while k < sites.len()
        invariant
            k <= ss.len(),
            ss == sites@,
            sv == opt_schema_view(ssc),
            fv == opt_schema_view(fsc),
            ssc matches Some(s) ==> s.field_count >= 1,
            fsc matches Some(s) ==> s.field_count >= 1,
            c0 + sites_ids(ss, sv, fv) <= u64::MAX,
            ids.next == c0 + sites_ids(ss.take(k as int), sv, fv),
            lines_view(out@) == o0 + sites_lines(ss.take(k as int), sv, fv, c0),
        decreases ss.len() - k,
    {
        proof {
            assert(ss.take(k + 1).drop_last() =~= ss.take(k as int));
            assert(ss.take(k + 1).last() == ss[k as int]);
            lemma_sites_ids_prefix(ss, sv, fv, k + 1);
        }
        emit_site(out, &sites[k], ssc, fsc, ids);
        proof {
            assert(lines_view(out@) =~= o0 + sites_lines(ss.take(k + 1), sv, fv, c0));
        }
        k += 1;
    }
    assert(ss.take(ss.len() as int) =~= ss);
}

/// Emit one system's full-dialect records (header + sites/groups/channels) into
/// `out`, keyed off the model's schema field counts and column maps. Area
/// tagging is omitted — the favorites dialect strips it anyway.
fn emit_system<P: SdCardProfile + ?Sized>(out: &mut Vec<Line>, sys: &ProgramSystem, profile: &P, ids: &mut Ids)
    requires
        schemas_have_fields(profile),
        old(ids).next + system_ids(*sys, profile) <= u64::MAX,
    ensures
        lines_view(final(out)@) == lines_view(old(out)@) + system_lines(*sys, profile, old(ids).next as nat),
        final(ids).next == old(ids).next + system_ids(*sys, profile),
{
    let ghost c = ids.next as nat;
    let ghost o0 = lines_view(out@);
    match sys.kind {
        SystemKind::Conventional => {
            let sc = profile.record_schema("Conventional");
            let s = match sc {
                Some(s) => s,
                None => {
                    assert(lines_view(out@) =~= o0 + system_lines(*sys, profile, c));
                    return;
                },
            };
            assert(s.field_count >= 1);
            let ghost scv = opt_schema_view(sc);
            let mut set: Vec<(usize, String)> = Vec::new();
            let a = ids.next_id("CountyId");
            push_set(&mut set, 1, a);
            let b = ids.next_id("StateId");
            push_set(&mut set, 2, b);
            push_set(&mut set, name_col(sc), copy_str(sys.name.as_str()));
            let ghost head = set_view(set@);
            match s.tech_col {
                Some(tc) => {
                    let t = match &sys.tech {
                        Some(t) => copy_str(t.as_str()),
                        None => copy_str("Conventional"),
                    };
                    push_set(&mut set, tc, t);
                },
                None => {},
            }
            let ghost tech = match tech_col_of(scv) {
                Some(tc) => seq![(tc as int, conventional_tech(sys.tech))],
                None => Seq::<(int, Seq<char>)>::empty(),
            };
            assert(set_view(set@) =~= seq![
                (1int, id_text("CountyId"@, c)),
                (2int, id_text("StateId"@, c + 1)),
                (name_col_of(scv), sys.name@),
            ] + tech);
            let line = record("Conventional", s.field_count as usize, &set);
            out.push(line);
            let ghost o1 = lines_view(out@);
            assert(o1 =~= o0.push(line@));
            let _parent = ids.next_id("SysRef");
            let gsc = profile.record_schema("C-Group");
            let csc = profile.record_schema("C-Freq");
            emit_groups(out, "C-Group", "C-Freq", &sys.groups, gsc, csc, ids);
            assert(lines_view(out@) =~= o0 + system_lines(*sys, profile, c));
        },
        _ => {
            let sc = profile.record_schema("Trunk");
            let s = match sc {
                Some(s) => s,
                None => {
                    assert(lines_view(out@) =~= o0 + system_lines(*sys, profile, c));
                    return;
                },
            };
            assert(s.field_count >= 1);
            let ghost scv = opt_schema_view(sc);
            let mut set: Vec<(usize, String)> = Vec::new();
            let a = ids.next_id("TrunkId");
            push_set(&mut set, 1, a);
            let b = ids.next_id("StateId");
            push_set(&mut set, 2, b);
            push_set(&mut set, name_col(sc), copy_str(sys.name.as_str()));
            push_opt(&mut set, s.tech_col, opt_copy(&sys.tech));
            assert(set_view(set@) =~= seq![
                (1int, id_text("TrunkId"@, c)),
                (2int, id_text("StateId"@, c + 1)),
                (name_col_of(scv), sys.name@),
            ] + opt_set(tech_col_of(scv), opt_string_view(sys.tech)));
            let line = record("Trunk", s.field_count as usize, &set);
            out.push(line);
            let ghost o1 = lines_view(out@);
            assert(o1 =~= o0.push(line@));
            let ssc = profile.record_schema("Site");
            let fsc = profile.record_schema("T-Freq");
            emit_sites(out, &sys.sites, ssc, fsc, ids);
            let gsc = profile.record_schema("T-Group");
            let csc = profile.record_schema("TGID");
            emit_groups(out, "T-Group", "TGID", &sys.groups, gsc, csc, ids);
            assert(lines_view(out@) =~= o0 + system_lines(*sys, profile, c));
        },
    }
}

proof fn lemma_systems_ids_prefix<P: SdCardProfile + ?Sized>(ss: Seq<ProgramSystem>, p: &P, k: int)
    requires
        0 <= k <= ss.len(),
    ensures
        systems_ids(ss.take(k), p) <= systems_ids(ss, p),
    decreases ss.len(),
{
    if k < ss.len() {
        assert(ss.drop_last().take(k) =~= ss.take(k));
        lemma_systems_ids_prefix(ss.drop_last(), p, k);
    } else {
        assert(ss.take(k) =~= ss);
    }
}

/// Synthesize a **favorites** document from programmable systems, via the
/// model's full-dialect records and [`build_favorites`] (dialect + `DQKs_Status`
/// + field defaults). The result is ready to write, or to merge into an open
/// list with [`crate::favorites::merge_favorites`].
pub fn synthesize_favorites<P: SdCardProfile + ?Sized>(
    systems: &[ProgramSystem],
    profile: &P,
    departments_on: bool,
) -> (r: Document)
    requires
        defaults_fit(profile),
        schemas_have_fields(profile),
        1 + systems_ids(systems@, profile) <= u64::MAX,
    ensures
        r@ == match profile.spec_dqks_status_line(departments_on) {
            Some(t) => spec_dqks(spec_favorites(spec_synthesized(systems@, profile), profile), t),
            None => spec_favorites(spec_synthesized(systems@, profile), profile),
        },
{
    let key = profile.model_key();
    let mut lines: Vec<Line> = Vec::new();
    let ghost mk = profile.spec_model_key();
    let mut set1: Vec<(usize, String)> = Vec::new();
    push_set(&mut set1, 1, key.target_model);
    assert(set_view(set1@) =~= seq![(1int, mk.0)]);
    let l1 = record("TargetModel", 2, &set1);
    lines.push(l1);
    let mut set2: Vec<(usize, String)> = Vec::new();
    push_set(&mut set2, 1, key.format_version);
    assert(set_view(set2@) =~= seq![(1int, mk.1)]);
    let l2 = record("FormatVersion", 2, &set2);
    lines.push(l2);
    let ghost head = lines_view(lines@);
    assert(head =~= seq![
        spec_record("TargetModel"@, 2, seq![(1int, profile.spec_model_key().0)]),
        spec_record("FormatVersion"@, 2, seq![(1int, profile.spec_model_key().1)]),
    ]);
    let mut ids = Ids { next: 1 };
    let ghost ss = systems@;
    let mut k: usize = 0;
    assert(ss.take(0) =~= Seq::<ProgramSystem>::empty());
    while k < systems.len()
        invariant
            k <= ss.len(),
            ss == systems@,
            schemas_have_fields(profile),
            1 + systems_ids(ss, profile) <= u64::MAX,
            ids.next == 1 + systems_ids(ss.take(k as int), profile),
            lines_view(lines@) == head + systems_lines(ss.take(k as int), profile, 1),
        decreases ss.len() - k,
    {
        proof {
            assert(ss.take(k + 1).drop_last() =~= ss.take(k as int));
            assert(ss.take(k + 1).last() == ss[k as int]);
            lemma_systems_ids_prefix(ss, profile, k + 1);
        }
        emit_system(&mut lines, &systems[k], profile, &mut ids);
        proof {
            assert(lines_view(lines@) =~= head + systems_lines(ss.take(k + 1), profile, 1));
        }
        k += 1;
    }
    assert(ss.take(ss.len() as int) =~= ss);
    let doc = Document { lines };
    assert(doc@ =~= spec_synthesized(systems@, profile));
    build_favorites(&doc, profile, departments_on)
}

} // verus!
