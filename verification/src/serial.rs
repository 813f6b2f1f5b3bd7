//! Serial **Remote Command** protocol codec (live control).
//!
//! Pure encode/parse over the `BCDx36HP`-family remote-command protocol. This
//! layer knows *what the bytes mean* — it does **no I/O**. A transport opens the
//! USB virtual serial port and pumps the [`Command::encode`] lines out / feeds
//! response lines to [`parse_response`].
//!
//! Wire format: ASCII, comma-delimited, **CR-terminated** (`\r`) — e.g. `LCR\r` →
//! `LCR,41.582,-85.834,15\r`. One response (`GCS`) is LF-terminated; the parser
//! trims both. Location and temperature values travel as decimal text: the codec
//! frames them and hands them over as sent, leaving their numeric reading to the
//! caller.

use vstd::prelude::*;
use crate::text::{
    copy_str, decimal, has_prefix, parse_i32, parse_u32, parse_u8, push_decimal, spec_parse_i32,
    spec_parse_u32, spec_parse_u8, split_on, split_once, split_once_str, split_str, starts_with,
    str_eq, trim, trim_end, trim_end_matches, trim_end_matches_str, trim_start, trim_str, is_ws,
};

verus! {

/// The command-line terminator the radio expects.
pub const TERMINATOR: char = '\r';

/// A command sent to the radio. `encode()` renders the wire line (terminator
/// included); values like a `KEY` code/mode are opaque strings this codec just
/// frames.
#[derive(Debug, Clone, PartialEq)]
pub enum Command {
    /// `MDL` — get the model name (the handshake; SDS150 → `SDS150GBT`).
    Model,
    /// `VER` — get the firmware version.
    Version,
    /// `VOL` — get the current volume level.
    GetVolume,
    /// `VOL,<level>` — set volume (`0`–`15` on the SDS150).
    SetVolume(u8),
    /// `SQL` — get the current squelch level.
    GetSquelch,
    /// `SQL,<level>` — set squelch (`0`–`15` on the SDS150).
    SetSquelch(u8),
    /// `LCR` — get the scanner's location + range.
    GetLocation,
    /// `LCR,<lat>,<lon>,<range>` — **set** the scanner's location + range live
    /// (degrees / miles, as decimal text).
    SetLocation { lat: String, lon: String, range_mi: String },
    /// `KEY,<code>,<mode>` — press a keypad key.
    PushKey { code: String, mode: String },
    /// `STS` — get the current display status (the raw screen lines).
    Status,
    /// `GCS` — get charge/battery status.
    ChargeStatus,
    /// `KAL` — keep-alive (the radio sends **no** response).
    KeepAlive,
    /// `POF` — power the radio off.
    PowerOff,
}

/// The wire line of a command, without its terminator.
pub open spec fn command_body(c: Command) -> Seq<char> {
    match c {
        Command::Model => "MDL"@,
        Command::Version => "VER"@,
        Command::GetVolume => "VOL"@,
        Command::SetVolume(l) => "VOL,"@ + decimal(l as nat),
        Command::GetSquelch => "SQL"@,
        Command::SetSquelch(l) => "SQL,"@ + decimal(l as nat),
        Command::GetLocation => "LCR"@,
        Command::SetLocation { lat, lon, range_mi } => "LCR,"@ + lat@ + ","@ + lon@ + ","@ + range_mi@,
        Command::PushKey { code, mode } => "KEY,"@ + code@ + ","@ + mode@,
        Command::Status => "STS"@,
        Command::ChargeStatus => "GCS"@,
        Command::KeepAlive => "KAL"@,
        Command::PowerOff => "POF"@,
    }
}

impl Command {
    /// The wire line to send, terminator included.
    pub fn encode(&self) -> (r: String)
        ensures
            r@ == command_body(*self).push(TERMINATOR),
    {
        let mut s = match self {
            Command::Model => copy_str("MDL"),
            Command::Version => copy_str("VER"),
            Command::GetVolume => copy_str("VOL"),
            Command::SetVolume(l) => {
                let mut b = copy_str("VOL,");
                push_decimal(&mut b, *l as u64);
                b
            },
            Command::GetSquelch => copy_str("SQL"),
            Command::SetSquelch(l) => {
                let mut b = copy_str("SQL,");
                push_decimal(&mut b, *l as u64);
                b
            },
            Command::GetLocation => copy_str("LCR"),
            Command::SetLocation { lat, lon, range_mi } => {
                let mut b = copy_str("LCR,");
                b.append(lat.as_str());
                b.append(",");
                b.append(lon.as_str());
                b.append(",");
                b.append(range_mi.as_str());
                b
            },
            Command::PushKey { code, mode } => {
                let mut b = copy_str("KEY,");
                b.append(code.as_str());
                b.append(",");
                b.append(mode.as_str());
                b
            },
            Command::Status => copy_str("STS"),
            Command::ChargeStatus => copy_str("GCS"),
            Command::KeepAlive => copy_str("KAL"),
            Command::PowerOff => copy_str("POF"),
        };
        assert(s@ =~= command_body(*self));
        s.push(TERMINATOR);
        s
    }

    /// Whether the radio replies (keep-alive is fire-and-forget).
    pub fn expects_response(&self) -> (r: bool)
        ensures
            r == !(*self is KeepAlive),
    {
        match self {
            Command::KeepAlive => false,
            _ => true,
        }
    }
}

/// Battery / charge telemetry from a `GCS` response.
#[derive(Debug, Clone, PartialEq)]
pub struct ChargeStatus {
    /// `CST` charge state (0=no charge, 4=full, 6=charging, …).
    pub state: u8,
    /// Battery voltage, millivolts.
    pub millivolts: u32,
    /// Remaining capacity, percent.
    pub percent: u8,
    /// Current, mA (positive = charging, negative = discharging).
    pub current_ma: i32,
    /// Battery temperature, °C, as the decimal text the radio sent (`27.65`).
    pub temp_c: String,
}

impl View for ChargeStatus {
    type V = (u8, u32, u8, i32, Seq<char>);

    open spec fn view(&self) -> (u8, u32, u8, i32, Seq<char>) {
        (self.state, self.millivolts, self.percent, self.current_ma, self.temp_c@)
    }
}

/// A parsed response line from the radio.
#[derive(Debug, Clone, PartialEq)]
pub enum Response {
    /// `MDL,<model>` — the model name.
    Model(String),
    /// `VER,<version>`.
    Version(String),
    /// `VOL,<level>` — the current volume.
    Volume(u8),
    /// `SQL,<level>` — the current squelch.
    Squelch(u8),
    /// `LCR,<lat>,<lon>,<range>` — the scanner's location + range, as sent.
    Location { lat: String, lon: String, range_mi: String },
    /// `GCS,…` — charge/battery telemetry.
    Charge(ChargeStatus),
    /// `STS,…` — the raw display-status fields.
    Status(Vec<String>),
    /// A bare-command echo or `…,OK` — the acknowledgement to a set/action command.
    Ack,
    /// Anything not modeled: the echoed command + its raw comma fields.
    Raw { command: String, fields: Vec<String> },
}

/// What a response denotes.
pub enum SpecResponse {
    Model(Seq<char>),
    Version(Seq<char>),
    Volume(u8),
    Squelch(u8),
    Location(Seq<char>, Seq<char>, Seq<char>),
    Charge((u8, u32, u8, i32, Seq<char>)),
    Status(Seq<Seq<char>>),
    Ack,
    Raw(Seq<char>, Seq<Seq<char>>),
}

pub open spec fn strings_seq(v: Seq<String>) -> Seq<Seq<char>> {
    Seq::new(v.len(), |k: int| v[k]@)
}

impl View for Response {
    type V = SpecResponse;

    open spec fn view(&self) -> SpecResponse {
        match self {
            Response::Model(m) => SpecResponse::Model(m@),
            Response::Version(v) => SpecResponse::Version(v@),
            Response::Volume(l) => SpecResponse::Volume(*l),
            Response::Squelch(l) => SpecResponse::Squelch(*l),
            Response::Location { lat, lon, range_mi } => SpecResponse::Location(lat@, lon@, range_mi@),
            Response::Charge(c) => SpecResponse::Charge(c@),
            Response::Status(f) => SpecResponse::Status(strings_seq(f@)),
            Response::Ack => SpecResponse::Ack,
            Response::Raw { command, fields } => SpecResponse::Raw(command@, strings_seq(fields@)),
        }
    }
}

/// The `GCS` values read so far: state, millivolts, percent, current, temperature.
pub type ChargeFields = (Option<u8>, Option<u32>, Option<u8>, Option<i32>, Option<Seq<char>>);

/// A numeric field's text: trimmed, a trailing unit removed, trimmed again.
pub open spec fn unit_text(v: Seq<char>, unit: Seq<char>) -> Seq<char> {
    trim(trim_end_matches(trim(v), unit))
}

/// Read one `key=value` field of a `GCS` body into the values so far. `None`
/// (the whole body unreadable) for a field without `=`, or a `VOLT` value without
/// `:`; an unknown key leaves the values as they are; a known key's value
/// replaces the earlier one (`None` when its number does not parse).
pub open spec fn charge_step(acc: ChargeFields, field: Seq<char>) -> Option<ChargeFields> {
    match split_once(field, '=') {
        None => None,
        Some((k, v)) => {
            let key = trim(k);
            if key == "CST"@ {
                Some((spec_parse_u8(trim(v)), acc.1, acc.2, acc.3, acc.4))
            } else if key == "VOLT"@ {
                match split_once(v, ':') {
                    None => None,
                    Some((mv, pct)) => Some(
                        (
                            acc.0,
                            spec_parse_u32(unit_text(mv, "mV"@)),
                            spec_parse_u8(unit_text(pct, "%"@)),
                            acc.3,
                            acc.4,
                        ),
                    ),
                }
            } else if key == "CURR"@ {
                Some((acc.0, acc.1, acc.2, spec_parse_i32(unit_text(v, "mA"@)), acc.4))
            } else if key == "TEMP"@ {
                Some((acc.0, acc.1, acc.2, acc.3, Some(unit_text(v, "C"@))))
            } else {
                Some(acc)
            }
        },
    }
}

/// The values read from a run of `GCS` fields, left to right.
pub open spec fn charge_fold(fs: Seq<Seq<char>>) -> Option<ChargeFields>
    decreases fs.len(),
{
    if fs.len() == 0 {
        Some((None, None, None, None, None))
    } else {
        match charge_fold(fs.drop_last()) {
            Some(acc) => charge_step(acc, fs.last()),
            None => None,
        }
    }
}

/// The charge status a `GCS` body (`CST=4,VOLT=4184mV:100%,CURR=0000mA,TEMP= 27.65C`)
/// carries: every value present and readable.
pub open spec fn spec_parse_charge(body: Seq<char>) -> Option<(u8, u32, u8, i32, Seq<char>)> {
    match charge_fold(split_on(body, ',')) {
        Some((Some(a), Some(b), Some(c), Some(d), Some(e))) => Some((a, b, c, d, e)),
        _ => None,
    }
}

proof fn lemma_charge_fold_none(fs: Seq<Seq<char>>, i: int, j: int)
    requires
        0 <= i <= j <= fs.len(),
        charge_fold(fs.take(i)) is None,
    ensures
        charge_fold(fs.take(j)) is None,
    decreases j - i,
{
    if j > i {
        lemma_charge_fold_none(fs, i, j - 1);
        assert(fs.take(j).drop_last() =~= fs.take(j - 1));
    }
}

fn unit_str<'a>(v: &'a str, unit: &str) -> (r: &'a str)
    ensures
        r@ == unit_text(v@, unit@),
{
    trim_str(trim_end_matches_str(trim_str(v), unit))
}

pub open spec fn opt_text(o: Option<String>) -> Option<Seq<char>> {
    match o {
        Some(s) => Some(s@),
        None => None,
    }
}

/// One field of a `GCS` body, read into the values so far.
fn charge_step_exec(
    acc: (Option<u8>, Option<u32>, Option<u8>, Option<i32>, Option<String>),
    field: &str,
) -> (r: Option<(Option<u8>, Option<u32>, Option<u8>, Option<i32>, Option<String>)>)
    ensures
        match r {
            Some(a) => charge_step((acc.0, acc.1, acc.2, acc.3, opt_text(acc.4)), field@) == Some(
                (a.0, a.1, a.2, a.3, opt_text(a.4)),
            ),
            None => charge_step((acc.0, acc.1, acc.2, acc.3, opt_text(acc.4)), field@) is None,
        },
{
    let (k, v) = match split_once_str(field, '=') {
        Some(kv) => kv,
        None => {
            return None;
        },
    };
    let key = trim_str(k);
    let (st, mv, pct, cur, temp) = acc;
    if str_eq(key, "CST") {
        Some((parse_u8(trim_str(v)), mv, pct, cur, temp))
    } else if str_eq(key, "VOLT") {
        match split_once_str(v, ':') {
            Some((m, p)) => Some((st, parse_u32(unit_str(m, "mV")), parse_u8(unit_str(p, "%")), cur, temp)),
            None => None,
        }
    } else if str_eq(key, "CURR") {
        Some((st, mv, pct, parse_i32(unit_str(v, "mA")), temp))
    } else if str_eq(key, "TEMP") {
        Some((st, mv, pct, cur, Some(copy_str(unit_str(v, "C")))))
    } else {
        Some((st, mv, pct, cur, temp))
    }
}

/// Parse the `GCS` body `CST=4,VOLT=4184mV:100%,CURR=0000mA,TEMP= 27.65C`.
pub fn parse_charge(body: &str) -> (r: Option<ChargeStatus>)
    ensures
        match r {
            Some(c) => spec_parse_charge(body@) == Some(c@),
            None => spec_parse_charge(body@) is None,
        },
{
    let fields = split_str(body, ',');
    let ghost fs = strings_seq(fields@);
    assert(fs =~= split_on(body@, ','));
    let mut acc: (Option<u8>, Option<u32>, Option<u8>, Option<i32>, Option<String>) = (
        None,
        None,
        None,
        None,
        None,
    );
    let mut i: usize = 0;
    assert(fs.take(0) =~= Seq::<Seq<char>>::empty());
    while i < fields.len()
        invariant
            i <= fields@.len(),
            fs == strings_seq(fields@),
            fs == split_on(body@, ','),
            charge_fold(fs.take(i as int)) == Some((acc.0, acc.1, acc.2, acc.3, opt_text(acc.4))),
        decreases fields@.len() - i,
    {
        proof {
            assert(fs.take(i + 1).drop_last() =~= fs.take(i as int));
            assert(fs.take(i + 1).last() == fields@[i as int]@);
        }
        match charge_step_exec(acc, fields[i].as_str()) {
            Some(a) => {
                acc = a;
            },
            None => {
                proof {
                    assert(charge_fold(fs.take(i + 1)) == match charge_fold(fs.take(i + 1).drop_last()) {
                        Some(a) => charge_step(a, fs.take(i + 1).last()),
                        None => None,
                    });
                    assert(charge_fold(fs.take(i + 1)) is None);
                    lemma_charge_fold_none(fs, i + 1, fs.len() as int);
                    assert(fs.take(fs.len() as int) =~= fs);
                    assert(charge_fold(fs) is None);
                    assert(charge_fold(split_on(body@, ',')) is None);
                }
                return None;
            },
        }
        i += 1;
    }
    assert(fs.take(fs.len() as int) =~= fs);
    match acc {
        (Some(state), Some(millivolts), Some(percent), Some(current_ma), Some(temp_c)) => Some(
            ChargeStatus { state, millivolts, percent, current_ma, temp_c },
        ),
        _ => None,
    }
}

/// What a response line denotes. The line is trimmed (whitespace and the
/// `\r`/`\n` terminator). A `GCS,` body becomes a charge status when every value
/// is present and readable. Otherwise the line splits on commas into the echoed
/// command and its fields: `MDL`/`VER` with one field, `VOL`/`SQL` with one
/// readable level, `LCR` with three fields, a lone `OK` field or a bare
/// `VOL`/`SQL` echo (an acknowledgement), `STS` (its raw fields), else raw.
pub open spec fn spec_parse_response(line: Seq<char>) -> SpecResponse {
    let t = trim(line);
    if starts_with(t, "GCS,"@) {
        let rest = t.skip(4);
        match spec_parse_charge(rest) {
            Some(c) => SpecResponse::Charge(c),
            None => SpecResponse::Raw("GCS"@, split_on(rest, ',')),
        }
    } else {
        let parts = split_on(t, ',');
        let command = parts[0];
        let fields = parts.drop_first();
        if command == "MDL"@ && fields.len() == 1 {
            SpecResponse::Model(fields[0])
        } else if command == "VER"@ && fields.len() == 1 {
            SpecResponse::Version(fields[0])
        } else if command == "VOL"@ && fields.len() == 1 {
            match spec_parse_u8(fields[0]) {
                Some(l) => SpecResponse::Volume(l),
                None => SpecResponse::Raw(command, fields),
            }
        } else if command == "SQL"@ && fields.len() == 1 {
            match spec_parse_u8(fields[0]) {
                Some(l) => SpecResponse::Squelch(l),
                None => SpecResponse::Raw(command, fields),
            }
        } else if command == "LCR"@ && fields.len() == 3 {
            SpecResponse::Location(fields[0], fields[1], fields[2])
        } else if fields.len() == 1 && fields[0] == "OK"@ {
            SpecResponse::Ack
        } else if (command == "VOL"@ || command == "SQL"@) && fields.len() == 0 {
            SpecResponse::Ack
        } else if command == "STS"@ {
            SpecResponse::Status(fields)
        } else {
            SpecResponse::Raw(command, fields)
        }
    }
}

/// Parse one response line into a typed [`Response`]. Leading/trailing
/// whitespace and the `\r`/`\n` terminator are trimmed. Unrecognized shapes fall
/// back to [`Response::Raw`] rather than failing — a codec never panics on the
/// wire.
pub fn parse_response(line: &str) -> (r: Response)
    ensures
        r@ == spec_parse_response(line@),
{
    let t = trim_str(line);
    proof {
        reveal_strlit("GCS,");
        reveal_strlit("GCS");
    }
    if has_prefix(t, "GCS,") {
        let n = t.unicode_len();
        let rest = t.substring_char(4, n);
        assert(rest@ =~= t@.skip(4));
        return match parse_charge(rest) {
            Some(c) => Response::Charge(c),
            None => {
                let fields = split_str(rest, ',');
                assert(strings_seq(fields@) =~= split_on(rest@, ','));
                Response::Raw { command: copy_str("GCS"), fields }
            },
        };
    }
    let mut parts = split_str(t, ',');
    proof { crate::text::lemma_split_on_nonempty(t@, ','); }
    let ghost all = strings_seq(parts@);
    assert(all =~= split_on(t@, ','));
    let command = parts.remove(0);
    let fields = parts;
    assert(strings_seq(fields@) =~= all.drop_first());
    assert(command@ == all[0]);
    let c = command.as_str();
    let nf = fields.len();
    if str_eq(c, "MDL") && nf == 1 {
        Response::Model(copy_str(fields[0].as_str()))
    } else if str_eq(c, "VER") && nf == 1 {
        Response::Version(copy_str(fields[0].as_str()))
    } else if str_eq(c, "VOL") && nf == 1 {
        match parse_u8(fields[0].as_str()) {
            Some(l) => Response::Volume(l),
            None => Response::Raw { command, fields },
        }
    } else if str_eq(c, "SQL") && nf == 1 {
        match parse_u8(fields[0].as_str()) {
            Some(l) => Response::Squelch(l),
            None => Response::Raw { command, fields },
        }
    } else if str_eq(c, "LCR") && nf == 3 {
        Response::Location {
            lat: copy_str(fields[0].as_str()),
            lon: copy_str(fields[1].as_str()),
            range_mi: copy_str(fields[2].as_str()),
        }
    } else if nf == 1 && str_eq(fields[0].as_str(), "OK") {
        Response::Ack
    } else if (str_eq(c, "VOL") || str_eq(c, "SQL")) && nf == 0 {
        Response::Ack
    } else if str_eq(c, "STS") {
        Response::Status(fields)
    } else {
        Response::Raw { command, fields }
    }
}

// ---------------------------------------------------------------------------
// The location line round-trips.
// ---------------------------------------------------------------------------

/// Text the wire carries as one field: no comma, no whitespace.
pub open spec fn plain_field(s: Seq<char>) -> bool {
    forall|i: int| 0 <= i < s.len() ==> s[i] != ',' && !is_ws(#[trigger] s[i])
}

proof fn lemma_split_on_join(s: Seq<char>, t: Seq<char>, c: char)
    ensures
        split_on(s + seq![c] + t, c) == split_on(s, c) + split_on(t, c),
    decreases t.len(),
{
    if t.len() == 0 {
        assert((s + seq![c] + t).drop_last() =~= s);
        assert(s + seq![c] + t =~= s.push(c));
        assert(split_on(t, c) =~= seq![Seq::<char>::empty()]);
    } else {
        let u = s + seq![c] + t;
        assert(u.drop_last() =~= s + seq![c] + t.drop_last());
        assert(u.last() == t.last());
        lemma_split_on_join(s, t.drop_last(), c);
        crate::text::lemma_split_on_nonempty(t.drop_last(), c);
        crate::text::lemma_split_on_nonempty(s, c);
        let a = split_on(s, c);
        let b = split_on(t.drop_last(), c);
        if t.last() == c {
            assert((a + b).push(Seq::empty()) =~= a + b.push(Seq::empty()));
        } else {
            assert((a + b).update((a + b).len() - 1, (a + b).last().push(t.last())) =~= a + b.update(
                b.len() - 1,
                b.last().push(t.last()),
            ));
        }
    }
}

proof fn lemma_split_on_plain(s: Seq<char>, c: char)
    requires
        forall|i: int| 0 <= i < s.len() ==> s[i] != c,
    ensures
        split_on(s, c) == seq![s],
    decreases s.len(),
{
    if s.len() > 0 {
        lemma_split_on_plain(s.drop_last(), c);
        assert(s.drop_last().push(s.last()) =~= s);
        assert(seq![s.drop_last()].update(0, s.drop_last().push(s.last())) =~= seq![s]);
    } else {
        assert(s =~= Seq::<char>::empty());
    }
}

proof fn lemma_plain_no_comma(a: Seq<char>)
    requires
        plain_field(a),
    ensures
        forall|i: int| 0 <= i < a.len() ==> a[i] != ',',
{
    assert forall|i: int| 0 <= i < a.len() implies a[i] != ',' by {
        assert(!is_ws(a[i]));
    }
}

/// The three fields joined after `LCR`.
pub open spec fn lcr_body(a: Seq<char>, b: Seq<char>, c: Seq<char>) -> Seq<char> {
    seq!['L', 'C', 'R'] + seq![','] + a + seq![','] + b + seq![','] + c
}

proof fn lemma_lcr_trim(a: Seq<char>, b: Seq<char>, c: Seq<char>)
    requires
        plain_field(c),
    ensures
        trim(lcr_body(a, b, c).push('\r')) == lcr_body(a, b, c),
{
    let body = lcr_body(a, b, c);
    let line = body.push('\r');
    assert(line[0] == 'L');
    assert(trim_start(line) == line);
    assert(line.drop_last() =~= body);
    assert(trim_end(line) == trim_end(body));
    if c.len() > 0 {
        assert(body.last() == c[c.len() - 1]);
        assert(!is_ws(c[c.len() - 1]));
    } else {
        assert(body.last() == ',');
    }
    assert(trim_end(body) == body);
}

proof fn lemma_lcr_split(a: Seq<char>, b: Seq<char>, c: Seq<char>)
    requires
        plain_field(a),
        plain_field(b),
        plain_field(c),
    ensures
        split_on(lcr_body(a, b, c), ',') == seq![seq!['L', 'C', 'R'], a, b, c],
{
    let lcr = seq!['L', 'C', 'R'];
    lemma_split_on_plain(lcr, ',');
    lemma_plain_no_comma(a);
    lemma_plain_no_comma(b);
    lemma_plain_no_comma(c);
    lemma_split_on_plain(a, ',');
    lemma_split_on_plain(b, ',');
    lemma_split_on_plain(c, ',');
    let s1 = lcr + seq![','] + a;
    let s2 = s1 + seq![','] + b;
    lemma_split_on_join(lcr, a, ',');
    lemma_split_on_join(s1, b, ',');
    lemma_split_on_join(s2, c, ',');
    assert(lcr_body(a, b, c) =~= s2 + seq![','] + c);
    assert(split_on(lcr_body(a, b, c), ',') =~= seq![lcr, a, b, c]);
}

/// A `SetLocation` line reads back as that location: the response parser gives
/// the three values the encoder framed, when each is plain field text.
pub proof fn lemma_location_round_trip(lat: String, lon: String, range_mi: String)
    requires
        plain_field(lat@),
        plain_field(lon@),
        plain_field(range_mi@),
    ensures
        spec_parse_response(command_body(Command::SetLocation { lat, lon, range_mi }).push(TERMINATOR))
            == SpecResponse::Location(lat@, lon@, range_mi@),
{
    reveal_strlit("LCR,");
    reveal_strlit("LCR");
    reveal_strlit(",");
    let a = lat@;
    let b = lon@;
    let c = range_mi@;
    let body = command_body(Command::SetLocation { lat, lon, range_mi });
    assert(body =~= lcr_body(a, b, c));
    lemma_lcr_trim(a, b, c);
    lemma_lcr_split(a, b, c);
    let lcr = seq!['L', 'C', 'R'];
    assert("LCR"@ =~= lcr);
    assert(!starts_with(body, "GCS,"@)) by {
        reveal_strlit("GCS,");
        if starts_with(body, "GCS,"@) {
            assert(body.take(4)[0] == "GCS,"@[0]);
        }
    }
    let parts = split_on(body, ',');
    assert(parts.drop_first() =~= seq![a, b, c]);
    assert(lcr != "MDL"@) by {
        reveal_strlit("MDL");
        assert("MDL"@[0] == 'M');
    }
    assert(lcr != "VER"@) by {
        reveal_strlit("VER");
        assert("VER"@[0] == 'V');
    }
    assert(lcr != "VOL"@) by {
        reveal_strlit("VOL");
        assert("VOL"@[0] == 'V');
    }
    assert(lcr != "SQL"@) by {
        reveal_strlit("SQL");
        assert("SQL"@[0] == 'S');
    }
}

} // verus!
