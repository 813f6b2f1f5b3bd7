//! Addressing for a browsing UI: the ids by which a list's systems, departments
//! and channels are named (`s3`, `s3g1`, `s3c7`, `d0s3c7`), the avoid/priority
//! flags a list shows, and the scan/avoid tree of a favorites list.

use vstd::prelude::*;
use crate::card::{eq_ignore_ascii_case, str_eq_ignore_ascii_case};
use crate::device::SdCardProfile;
use crate::favorites::AvoidLevel;
use crate::format::{Line, SpecLine, spec_command, spec_field};
use crate::model::opt_str_view;
use crate::text::{
    str_eq, copy_str, is_digit, decimal, parse_u64, push_decimal, spec_parse_u16, spec_parse_u64, split_once, split_once_str,
};
use crate::device::profile::SpecSchema;
use crate::extract::{Extraction, is_voice_channel, is_voice_cmd, system_views};
use crate::format::{Document, lines_view};
use crate::model::{lowercase, to_lowercase};
use crate::extract::{System, pruned, preamble_end, push_system_subset};
use std::collections::BTreeSet;
use crate::text::{contains_sub, str_contains, split_on, split_str, trim, trim_str, parse_u16};
use crate::model::{Record, col_field, freq_col, mode_col, nonempty_of, rec_name, service_col, tgid_col, tone_col};

verus! {

// ---------------------------------------------------------------------------
// Ids.
// ---------------------------------------------------------------------------

/// What `str::parse::<usize>()` accepts: as for `u64`, with a value that fits.
pub open spec fn spec_parse_usize(s: Seq<char>) -> Option<usize> {
    match spec_parse_u64(s) {
        Some(v) => if v <= usize::MAX { Some(v as usize) } else { None },
        None => None,
    }
}

pub fn parse_usize(s: &str) -> (r: Option<usize>)
    ensures
        r == spec_parse_usize(s@),
{
    match parse_u64(s) {
        Some(v) => if v <= usize::MAX as u64 { Some(v as usize) } else { None },
        None => None,
    }
}

/// `s` without its first character when that is `c`.
pub open spec fn strip_char(s: Seq<char>, c: char) -> Option<Seq<char>> {
    if s.len() > 0 && s[0] == c { Some(s.drop_first()) } else { None }
}

fn strip_char_str(s: &str, c: char) -> (r: Option<&str>)
    ensures
        opt_str_view(r) == strip_char(s@, c),
{
    let n = s.unicode_len();
    if n > 0 && s.get_char(0) == c {
        let r = s.substring_char(1, n);
        assert(r@ =~= s@.drop_first());
        Some(r)
    } else {
        None
    }
}

/// Two numbers separated by `c`: `<a><c><b>`, split at the first `c`.
pub open spec fn spec_pair(s: Seq<char>, c: char) -> Option<(usize, usize)> {
    match split_once(s, c) {
        Some((a, b)) => match (spec_parse_usize(a), spec_parse_usize(b)) {
            (Some(x), Some(y)) => Some((x, y)),
            _ => None,
        },
        None => None,
    }
}

fn parse_pair(s: &str, c: char) -> (r: Option<(usize, usize)>)
    ensures
        r == spec_pair(s@, c),
{
    match split_once_str(s, c) {
        Some((a, b)) => match (parse_usize(a), parse_usize(b)) {
            (Some(x), Some(y)) => Some((x, y)),
            _ => None,
        },
        None => None,
    }
}

/// A library channel id `d<doc>s<system>c<channel>`.
pub open spec fn spec_channel_id(id: Seq<char>) -> Option<(usize, usize, usize)> {
    match strip_char(id, 'd') {
        Some(rest) => match split_once(rest, 's') {
            Some((d, rest2)) => match (spec_parse_usize(d), spec_pair(rest2, 'c')) {
                (Some(di), Some((si, ci))) => Some((di, si, ci)),
                _ => None,
            },
            None => None,
        },
        None => None,
    }
}

/// Parse a library channel id `"d<di>s<si>c<ci>"` into `(document, system,
/// channel)`.
pub fn parse_channel_id(id: &str) -> (r: Option<(usize, usize, usize)>)
    ensures
        r == spec_channel_id(id@),
{
    let rest = match strip_char_str(id, 'd') {
        Some(r) => r,
        None => {
            return None;
        },
    };
    let (d, rest2) = match split_once_str(rest, 's') {
        Some(p) => p,
        None => {
            return None;
        },
    };
    match (parse_usize(d), parse_pair(rest2, 'c')) {
        (Some(di), Some((si, ci))) => Some((di, si, ci)),
        _ => None,
    }
}

/// A favorites channel id `s<system>c<channel>` (within one list).
pub open spec fn spec_fav_channel_id(id: Seq<char>) -> Option<(usize, usize)> {
    match strip_char(id, 's') {
        Some(rest) => spec_pair(rest, 'c'),
        None => None,
    }
}

/// Parse a favorites channel id `"s<si>c<ci>"` into `(system, channel)`.
pub fn parse_fav_channel_id(id: &str) -> (r: Option<(usize, usize)>)
    ensures
        r == spec_fav_channel_id(id@),
{
    match strip_char_str(id, 's') {
        Some(rest) => parse_pair(rest, 'c'),
        None => None,
    }
}

/// A library system id `d<doc>s<system>`.
pub open spec fn spec_system_id(id: Seq<char>) -> Option<(usize, usize)> {
    match strip_char(id, 'd') {
        Some(rest) => spec_pair(rest, 's'),
        None => None,
    }
}

/// Parse a library system id `"d<di>s<si>"` into `(document, system)`.
pub fn parse_system_id(id: &str) -> (r: Option<(usize, usize)>)
    ensures
        r == spec_system_id(id@),
{
    match strip_char_str(id, 'd') {
        Some(rest) => parse_pair(rest, 's'),
        None => None,
    }
}

/// An avoid target: `s<system>` (the system), `s<system>g<group>` (its
/// `group`-th department) or `s<system>c<channel>` (its `channel`-th voice
/// channel). A `g` anywhere after the `s` makes it a department target.
pub open spec fn spec_avoid_target(s: Seq<char>) -> Option<(usize, AvoidLevel, usize)> {
    match strip_char(s, 's') {
        Some(rest) => match split_once(rest, 'g') {
            Some(_) => match spec_pair(rest, 'g') {
                Some((si, gi)) => Some((si, AvoidLevel::Group, gi)),
                None => None,
            },
            None => match split_once(rest, 'c') {
                Some(_) => match spec_pair(rest, 'c') {
                    Some((si, ci)) => Some((si, AvoidLevel::Channel, ci)),
                    None => None,
                },
                None => match spec_parse_usize(rest) {
                    Some(si) => Some((si, AvoidLevel::System, 0)),
                    None => None,
                },
            },
        },
        None => None,
    }
}

/// Parse an avoid target (`"s3"`, `"s3g1"`, `"s3c7"`).
pub fn parse_avoid_target(s: &str) -> (r: Option<(usize, AvoidLevel, usize)>)
    ensures
        r == spec_avoid_target(s@),
{
    let rest = match strip_char_str(s, 's') {
        Some(r) => r,
        None => {
            return None;
        },
    };
    if split_once_str(rest, 'g').is_some() {
        match parse_pair(rest, 'g') {
            Some((si, gi)) => Some((si, AvoidLevel::Group, gi)),
            None => None,
        }
    } else if split_once_str(rest, 'c').is_some() {
        match parse_pair(rest, 'c') {
            Some((si, ci)) => Some((si, AvoidLevel::Channel, ci)),
            None => None,
        }
    } else {
        match parse_usize(rest) {
            Some(si) => Some((si, AvoidLevel::System, 0)),
            None => None,
        }
    }
}

// ---------------------------------------------------------------------------
// Flags.
// ---------------------------------------------------------------------------

/// A record's flag at a column reads `On` (any case).
pub open spec fn flag_on(l: SpecLine, col: Option<usize>) -> bool {
    match col {
        Some(c) => match spec_field(l.fields, c as int) {
            Some(v) => eq_ignore_ascii_case(v, "On"@),
            None => false,
        },
        None => false,
    }
}

fn flag_on_exec(line: &Line, col: Option<usize>) -> (r: bool)
    ensures
        r == flag_on(line@, col),
{
    match col {
        Some(c) => match line.field(c) {
            Some(v) => str_eq_ignore_ascii_case(v, "On"),
            None => false,
        },
        None => false,
    }
}

/// A record's avoid flag (`"On"` = avoided), per the profile's avoid column.
pub fn record_avoided<P: SdCardProfile + ?Sized>(line: &Line, profile: &P) -> (r: bool)
    ensures
        r == flag_on(line@, profile.spec_avoid_column(spec_command(line@.fields))),
{
    flag_on_exec(line, profile.avoid_column(line.command()))
}

/// A channel's Priority Channel flag (`"On"` = priority), per the profile.
pub fn record_priority<P: SdCardProfile + ?Sized>(line: &Line, profile: &P) -> (r: bool)
    ensures
        r == flag_on(line@, profile.spec_priority_column(spec_command(line@.fields))),
{
    flag_on_exec(line, profile.priority_column(line.command()))
}

// ---------------------------------------------------------------------------
// JSON strings.
// ---------------------------------------------------------------------------

/// The lowercase hex digit of `n` (`n < 16`).
pub open spec fn hex_digit(n: u32) -> char {
    if n < 10 { ((48 + n) as u8) as char } else { ((87 + n) as u8) as char }
}

/// One character inside a JSON string literal: `"`, `\`, newline, carriage
/// return and tab escaped by name, other control characters as `\u00XX`.
pub open spec fn json_escape_char(c: char) -> Seq<char> {
    if c == '"' {
        seq!['\\', '"']
    } else if c == '\\' {
        seq!['\\', '\\']
    } else if c == '\n' {
        seq!['\\', 'n']
    } else if c == '\r' {
        seq!['\\', 'r']
    } else if c == '\t' {
        seq!['\\', 't']
    } else if (c as u32) < 0x20 {
        seq!['\\', 'u', '0', '0', hex_digit((c as u32) / 16), hex_digit((c as u32) % 16)]
    } else {
        seq![c]
    }
}

/// The characters of a JSON string literal's body.
pub open spec fn json_escape(s: Seq<char>) -> Seq<char>
    decreases s.len(),
{
    if s.len() == 0 {
        Seq::empty()
    } else {
        json_escape(s.drop_last()) + json_escape_char(s.last())
    }
}

fn push_hex(out: &mut String, n: u32)
    requires
        n < 16,
    ensures
        final(out)@ == old(out)@.push(hex_digit(n)),
{
    if n < 10 {
        out.push(((48 + n) as u8) as char);
    } else {
        out.push(((87 + n) as u8) as char);
    }
}

/// Append `s` as a JSON string literal (quoted and escaped).
pub fn push_json_string(out: &mut String, s: &str)
    ensures
        final(out)@ == old(out)@ + seq!['"'] + json_escape(s@) + seq!['"'],
{
    out.push('"');
    let n = s.unicode_len();
    let mut i: usize = 0;
    while i < n
        invariant
            n == s@.len(),
            i <= n,
            out@ == old(out)@ + seq!['"'] + json_escape(s@.take(i as int)),
        decreases n - i,
    {
        let c = s.get_char(i);
        let ghost before = out@;
        if c == '"' {
            out.push('\\');
            out.push('"');
        } else if c == '\\' {
            out.push('\\');
            out.push('\\');
        } else if c == '\n' {
            out.push('\\');
            out.push('n');
        } else if c == '\r' {
            out.push('\\');
            out.push('r');
        } else if c == '\t' {
            out.push('\\');
            out.push('t');
        } else if (c as u32) < 0x20 {
            out.push('\\');
            out.push('u');
            out.push('0');
            out.push('0');
            push_hex(out, (c as u32) / 16);
            push_hex(out, (c as u32) % 16);
        } else {
            out.push(c);
        }
        proof {
            assert(s@.take(i + 1).drop_last() =~= s@.take(i as int));
            assert(s@.take(i + 1).last() == c);
            assert(out@ =~= before + json_escape_char(c));
        }
        i += 1;
    }
    assert(s@.take(n as int) =~= s@);
    out.push('"');
}

// ---------------------------------------------------------------------------
// The scan/avoid tree of a favorites list.
// ---------------------------------------------------------------------------

/// One voice channel of the tree.
#[derive(Debug, Clone, PartialEq)]
pub struct TreeChannel {
    /// `s<system>c<channel>`, the channel counted over the whole system.
    pub id: String,
    pub name: String,
    pub tgid: Option<String>,
    pub freq_hz: Option<u64>,
    pub mode: Option<String>,
    pub service_type: Option<u16>,
    /// The audio option (tone) field.
    pub tone: Option<String>,
    pub avoid: bool,
    pub priority: bool,
    /// The editable per-channel value settings present on the record, in the
    /// model's order: `(field, value)`.
    pub settings: Vec<(String, String)>,
}

/// One department of the tree (a `C-Group`/`T-Group`, or an unnamed group for
/// channels that come before any department).
#[derive(Debug, Clone, PartialEq)]
pub struct TreeGroup {
    /// `s<system>g<group>`.
    pub id: String,
    pub name: String,
    pub avoid: bool,
    pub channels: Vec<TreeChannel>,
}

/// One system of the tree.
#[derive(Debug, Clone, PartialEq)]
pub struct TreeSystem {
    /// `s<system>`.
    pub id: String,
    pub name: String,
    /// The header command (`Conventional` / `Trunk`).
    pub kind: String,
    pub tech: Option<String>,
    pub avoid: bool,
    pub groups: Vec<TreeGroup>,
}

pub struct SpecTreeChannel {
    pub id: Seq<char>,
    pub name: Seq<char>,
    pub tgid: Option<Seq<char>>,
    pub freq_hz: Option<u64>,
    pub mode: Option<Seq<char>>,
    pub service_type: Option<u16>,
    pub tone: Option<Seq<char>>,
    pub avoid: bool,
    pub priority: bool,
    pub settings: Seq<(Seq<char>, Seq<char>)>,
}

pub struct SpecTreeGroup {
    pub id: Seq<char>,
    pub name: Seq<char>,
    pub avoid: bool,
    pub channels: Seq<SpecTreeChannel>,
}

pub struct SpecTreeSystem {
    pub id: Seq<char>,
    pub name: Seq<char>,
    pub kind: Seq<char>,
    pub tech: Option<Seq<char>>,
    pub avoid: bool,
    pub groups: Seq<SpecTreeGroup>,
}

pub open spec fn opt_owned(o: Option<String>) -> Option<Seq<char>> {
    match o {
        Some(s) => Some(s@),
        None => None,
    }
}

impl View for TreeChannel {
    type V = SpecTreeChannel;

    open spec fn view(&self) -> SpecTreeChannel {
        SpecTreeChannel {
            id: self.id@,
            name: self.name@,
            tgid: opt_owned(self.tgid),
            freq_hz: self.freq_hz,
            mode: opt_owned(self.mode),
            service_type: self.service_type,
            tone: opt_owned(self.tone),
            avoid: self.avoid,
            priority: self.priority,
            settings: Seq::new(self.settings@.len(), |k: int| (self.settings@[k].0@, self.settings@[k].1@)),
        }
    }
}

impl View for TreeGroup {
    type V = SpecTreeGroup;

    open spec fn view(&self) -> SpecTreeGroup {
        SpecTreeGroup {
            id: self.id@,
            name: self.name@,
            avoid: self.avoid,
            channels: Seq::new(self.channels@.len(), |k: int| self.channels@[k]@),
        }
    }
}

impl View for TreeSystem {
    type V = SpecTreeSystem;

    open spec fn view(&self) -> SpecTreeSystem {
        SpecTreeSystem {
            id: self.id@,
            name: self.name@,
            kind: self.kind@,
            tech: opt_owned(self.tech),
            avoid: self.avoid,
            groups: Seq::new(self.groups@.len(), |k: int| self.groups@[k]@),
        }
    }
}

/// `s<system>`.
pub open spec fn system_id(si: nat) -> Seq<char> {
    "s"@ + decimal(si)
}

/// `s<system>g<group>`.
pub open spec fn group_id(si: nat, gi: nat) -> Seq<char> {
    system_id(si) + "g"@ + decimal(gi)
}

/// `s<system>c<channel>`.
pub open spec fn channel_id(si: nat, ci: nat) -> Seq<char> {
    system_id(si) + "c"@ + decimal(ci)
}

pub(crate) fn make_id(si: usize, sep: Option<char>, n: usize) -> (r: String)
    ensures
        r@ == match sep {
            Some(c) => system_id(si as nat) + seq![c] + decimal(n as nat),
            None => system_id(si as nat),
        },
{
    let mut s = copy_str("s");
    push_decimal(&mut s, si as u64);
    match sep {
        Some(c) => {
            s.push(c);
            push_decimal(&mut s, n as u64);
        },
        None => {},
    }
    s
}

pub open spec fn or_empty(o: Option<Seq<char>>) -> Seq<char> {
    match o {
        Some(s) => s,
        None => Seq::empty(),
    }
}

pub open spec fn cmd_of(l: SpecLine) -> Seq<char> {
    spec_command(l.fields)
}

/// The value settings present on a channel record, over the model's field
/// names `fields`.
pub open spec fn settings_of<P: SdCardProfile + ?Sized>(l: SpecLine, fields: Seq<Seq<char>>, p: &P) -> Seq<(Seq<char>, Seq<char>)>
    decreases fields.len(),
{
    if fields.len() == 0 {
        Seq::empty()
    } else {
        let prev = settings_of(l, fields.drop_last(), p);
        match p.spec_channel_value_column(cmd_of(l), fields.last()) {
            Some(c) => match spec_field(l.fields, c as int) {
                Some(v) => prev.push((fields.last(), v)),
                None => prev,
            },
            None => prev,
        }
    }
}

/// The tree node of a voice channel record (`sc` its schema), the `ci`-th of
/// system `si`.
pub open spec fn tree_channel<P: SdCardProfile + ?Sized>(l: SpecLine, sc: SpecSchema, si: nat, ci: nat, p: &P) -> SpecTreeChannel {
    SpecTreeChannel {
        id: channel_id(si, ci),
        name: or_empty(rec_name((l, sc))),
        tgid: nonempty_of(col_field(l, tgid_col(sc))),
        freq_hz: match col_field(l, freq_col(sc)) {
            Some(f) => spec_parse_u64(f),
            None => None,
        },
        mode: nonempty_of(col_field(l, mode_col(sc))),
        service_type: match col_field(l, service_col(sc)) {
            Some(f) => spec_parse_u16(f),
            None => None,
        },
        tone: nonempty_of(col_field(l, tone_col(sc))),
        avoid: flag_on(l, p.spec_avoid_column(cmd_of(l))),
        priority: flag_on(l, p.spec_priority_column(cmd_of(l))),
        settings: settings_of(l, p.spec_channel_value_fields(), p),
    }
}

/// The name a department record shows: its record name, else empty.
pub open spec fn group_name<P: SdCardProfile + ?Sized>(l: SpecLine, p: &P) -> Seq<char> {
    match p.spec_record_schema(cmd_of(l)) {
        Some(sc) => or_empty(rec_name((l, sc))),
        None => Seq::empty(),
    }
}

/// A department record.
pub open spec fn is_department(c: Seq<char>) -> bool {
    c == "C-Group"@ || c == "T-Group"@
}

/// The tree after one more line of system `si`: a department opens a group; a
/// voice channel (counted whether or not it has a schema) joins the last group,
/// opening an unnamed one first when there is none; anything else changes
/// nothing.
pub open spec fn tree_step<P: SdCardProfile + ?Sized>(
    st: (Seq<SpecTreeGroup>, nat),
    l: SpecLine,
    si: nat,
    p: &P,
) -> (Seq<SpecTreeGroup>, nat) {
    let gs = st.0;
    let ci = st.1;
    let c = cmd_of(l);
    if is_department(c) {
        (
            gs.push(
                SpecTreeGroup {
                    id: group_id(si, gs.len()),
                    name: group_name(l, p),
                    avoid: flag_on(l, p.spec_avoid_column(c)),
                    channels: Seq::empty(),
                },
            ),
            ci,
        )
    } else if is_voice_cmd(c) {
        let gs2 = if gs.len() == 0 {
            seq![SpecTreeGroup { id: group_id(si, 0), name: Seq::empty(), avoid: false, channels: Seq::empty() }]
        } else {
            gs
        };
        match p.spec_record_schema(c) {
            Some(sc) => {
                let g = gs2.last();
                (
                    gs2.update(
                        gs2.len() - 1,
                        SpecTreeGroup { channels: g.channels.push(tree_channel(l, sc, si, ci, p)), ..g },
                    ),
                    ci + 1,
                )
            },
            None => (gs2, ci + 1),
        }
    } else {
        st
    }
}

/// The groups (and the voice-channel count) of a system's lines.
pub open spec fn tree_groups<P: SdCardProfile + ?Sized>(ls: Seq<SpecLine>, si: nat, p: &P) -> (Seq<SpecTreeGroup>, nat)
    decreases ls.len(),
{
    if ls.len() == 0 {
        (Seq::empty(), 0)
    } else {
        tree_step(tree_groups(ls.drop_last(), si, p), ls.last(), si, p)
    }
}

/// The tree node of system `si` (its lines `ls`, header first).
pub open spec fn tree_system<P: SdCardProfile + ?Sized>(ls: Seq<SpecLine>, si: nat, p: &P) -> SpecTreeSystem {
    let h = ls[0];
    SpecTreeSystem {
        id: system_id(si),
        name: match p.spec_record_schema(cmd_of(h)) {
            Some(s) => or_empty(nonempty_of(col_field(h, s.name_col))),
            None => Seq::empty(),
        },
        kind: cmd_of(h),
        tech: match p.spec_record_schema(cmd_of(h)) {
            Some(s) => nonempty_of(col_field(h, s.tech_col)),
            None => None,
        },
        avoid: flag_on(h, p.spec_avoid_column(cmd_of(h))),
        groups: tree_groups(ls, si, p).0,
    }
}

/// The scan/avoid tree of a document: one node per system.
pub open spec fn spec_tree<P: SdCardProfile + ?Sized>(ls: Seq<SpecLine>, p: &P) -> Seq<SpecTreeSystem> {
    Seq::new(system_views(ls).len(), |si: int| tree_system(system_views(ls)[si], si as nat, p))
}

pub(crate) fn opt_str_owned(o: Option<&str>) -> (r: Option<String>)
    ensures
        opt_owned(r) == opt_str_view(o),
{
    match o {
        Some(s) => Some(copy_str(s)),
        None => None,
    }
}

pub(crate) fn str_or_empty(o: Option<&str>) -> (r: String)
    ensures
        r@ == or_empty(opt_str_view(o)),
{
    match o {
        Some(s) => copy_str(s),
        None => String::new(),
    }
}

/// The value settings present on a channel record.
fn channel_settings<P: SdCardProfile + ?Sized>(line: &Line, profile: &P) -> (r: Vec<(String, String)>)
    ensures
        Seq::new(r@.len(), |k: int| (r@[k].0@, r@[k].1@)) == settings_of(line@, profile.spec_channel_value_fields(), profile),
{
    let fields = profile.channel_value_fields();
    let ghost fs = profile.spec_channel_value_fields();
    let cmd = line.command();
    let mut out: Vec<(String, String)> = Vec::new();
    let mut k: usize = 0;
    assert(fs.take(0) =~= Seq::<Seq<char>>::empty());
    while k < fields.len()
        invariant
            k <= fields@.len(),
            fs == crate::device::profile::strs_view(fields@),
            cmd@ == cmd_of(line@),
            Seq::new(out@.len(), |m: int| (out@[m].0@, out@[m].1@)) == settings_of(line@, fs.take(k as int), profile),
        decreases fields@.len() - k,
    {
        let f = fields[k];
        let ghost before = Seq::new(out@.len(), |m: int| (out@[m].0@, out@[m].1@));
        proof {
            assert(fs.take(k + 1).drop_last() =~= fs.take(k as int));
            assert(fs.take(k + 1).last() == f@);
        }
        match profile.channel_value_column(cmd, f) {
            Some(c) => match line.field(c) {
                Some(v) => {
                    out.push((copy_str(f), copy_str(v)));
                    assert(Seq::new(out@.len(), |m: int| (out@[m].0@, out@[m].1@)) =~= before.push((f@, v@)));
                },
                None => {},
            },
            None => {},
        }
        k += 1;
    }
    assert(fs.take(fs.len() as int) =~= fs);
    out
}

/// The tree node of a voice channel record, the `ci`-th of system `si`.
fn make_tree_channel<P: SdCardProfile + ?Sized>(rec: &Record, line: &Line, si: usize, ci: usize, profile: &P) -> (r: TreeChannel)
    requires
        rec@.0 == line@,
    ensures
        r@ == tree_channel(line@, rec@.1, si as nat, ci as nat, profile),
{
    let c = TreeChannel {
        id: make_id(si, Some('c'), ci),
        name: str_or_empty(rec.name()),
        tgid: opt_str_owned(rec.talkgroup()),
        freq_hz: rec.frequency_hz(),
        mode: opt_str_owned(rec.mode()),
        service_type: rec.service_type_code(),
        tone: opt_str_owned(rec.audio_option()),
        avoid: record_avoided(line, profile),
        priority: record_priority(line, profile),
        settings: channel_settings(line, profile),
    };
    proof { reveal_strlit("s"); reveal_strlit("c"); }
    assert(c.id@ =~= channel_id(si as nat, ci as nat));
    c
}

pub open spec fn groups_view(v: Seq<TreeGroup>) -> Seq<SpecTreeGroup> {
    Seq::new(v.len(), |k: int| v[k]@)
}

/// The groups of one system's lines.
fn system_groups<P: SdCardProfile + ?Sized>(lines: &[Line], si: usize, profile: &P) -> (r: Vec<TreeGroup>)
    ensures
        groups_view(r@) == tree_groups(lines_view(lines@), si as nat, profile).0,
{
    let ghost ls = lines_view(lines@);
    let mut groups: Vec<TreeGroup> = Vec::new();
    let mut ci: usize = 0;
    let mut k: usize = 0;
    assert(ls.take(0) =~= Seq::<SpecLine>::empty());
    while k < lines.len()
        invariant
            k <= lines@.len(),
            ls == lines_view(lines@),
            ci <= k,
            groups@.len() <= k,
            (groups_view(groups@), ci as nat) == tree_groups(ls.take(k as int), si as nat, profile),
        decreases lines@.len() - k,
    {
        let line = &lines[k];
        let cmd = line.command();
        let ghost st = tree_groups(ls.take(k as int), si as nat, profile);
        proof {
            assert(ls.take(k + 1).drop_last() =~= ls.take(k as int));
            assert(ls.take(k + 1).last() == line@);
            reveal_strlit("C-Group");
            reveal_strlit("T-Group");
            reveal_strlit("s");
            reveal_strlit("g");
        }
        if str_eq(cmd, "C-Group") || str_eq(cmd, "T-Group") {
            let name = match Record::new(line, profile) {
                Some(rec) => str_or_empty(rec.name()),
                None => String::new(),
            };
            let g = TreeGroup {
                id: make_id(si, Some('g'), groups.len()),
                name,
                avoid: record_avoided(line, profile),
                channels: Vec::new(),
            };
            assert(g.id@ =~= group_id(si as nat, groups@.len() as nat));
            let ghost gv = g@;
            groups.push(g);
            assert(groups_view(groups@) =~= st.0.push(gv));
            assert(gv.channels =~= Seq::<SpecTreeChannel>::empty());
        } else if is_voice_channel(cmd) {
            if groups.len() == 0 {
                let g = TreeGroup { id: make_id(si, Some('g'), 0), name: String::new(), avoid: false, channels: Vec::new() };
                assert(g.id@ =~= group_id(si as nat, 0));
                assert(g@.channels =~= Seq::<SpecTreeChannel>::empty());
                assert(g@.name =~= Seq::<char>::empty());
                let ghost gv = g@;
                groups.push(g);
                assert(groups_view(groups@) =~= seq![gv]);
            }
            let ghost gs2 = groups_view(groups@);
            assert(gs2 =~= if st.0.len() == 0 {
                seq![SpecTreeGroup { id: group_id(si as nat, 0), name: Seq::empty(), avoid: false, channels: Seq::empty() }]
            } else {
                st.0
            });
            let this = ci;
            ci = ci + 1;
            match Record::new(line, profile) {
                Some(rec) => {
                    let ch = make_tree_channel(&rec, line, si, this, profile);
                    let mut g = groups.pop().unwrap();
                    let ghost g0 = g@;
                    let ghost chv = ch@;
                    g.channels.push(ch);
                    assert(g@.channels =~= g0.channels.push(chv));
                    assert(g@ == SpecTreeGroup { channels: g0.channels.push(chv), ..g0 });
                    groups.push(g);
                    assert(groups_view(groups@) =~= gs2.update(gs2.len() - 1, g@));
                },
                None => {},
            }
        } else {
            proof { crate::extract::lemma_cmd_classes_pub(); }
        }
        k += 1;
    }
    assert(ls.take(lines@.len() as int) =~= ls);
    groups
}

/// The scan/avoid tree of a favorites list: for each system its departments
/// (`C-Group`/`T-Group`, with channels before any department under an unnamed
/// one) and their voice channels, with names, attributes, avoid/priority flags
/// and value settings. Channel ids count every voice channel of the system.
pub fn favorites_tree<P: SdCardProfile + ?Sized>(doc: &Document, profile: &P) -> (r: Vec<TreeSystem>)
    ensures
        Seq::new(r@.len(), |k: int| r@[k]@) == spec_tree(doc@, profile),
{
    let ext = Extraction::segment(doc, profile);
    let systems = ext.systems();
    let ghost sv = system_views(doc@);
    let mut out: Vec<TreeSystem> = Vec::new();
    let mut si: usize = 0;
    while si < systems.len()
        invariant
            si <= systems@.len(),
            systems@.len() == sv.len(),
            sv == system_views(doc@),
            forall|k: int| 0 <= k < systems@.len() ==> (#[trigger] systems@[k])@ == sv[k],
            forall|k: int| 0 <= k < systems@.len() ==> (#[trigger] systems@[k]).spec_profile() == profile,
            out@.len() == si,
            forall|k: int| 0 <= k < si ==> (#[trigger] out@[k])@ == tree_system(sv[k], k as nat, profile),
        decreases systems@.len() - si,
    {
        let sys = &systems[si];
        let header = sys.header();
        let lines = sys.lines();
        let t = TreeSystem {
            id: make_id(si, None, 0),
            name: str_or_empty(sys.name()),
            kind: copy_str(header.command()),
            tech: opt_str_owned(sys.tech()),
            avoid: record_avoided(header, profile),
            groups: system_groups(lines, si, profile),
        };
        proof { reveal_strlit("s"); }
        assert(t@.groups =~= tree_groups(sv[si as int], si as nat, profile).0);
        assert(t@ == tree_system(sv[si as int], si as nat, profile));
        out.push(t);
        si += 1;
    }
    assert(Seq::new(out@.len(), |k: int| out@[k]@) =~= spec_tree(doc@, profile));
    out
}

// ---------------------------------------------------------------------------
// The catalog filter.
// ---------------------------------------------------------------------------

/// A catalog filter: service-type codes, technology categories (lowercase) and
/// a lowercase search text. Each is "no constraint" when empty.
#[derive(Debug, Clone, PartialEq)]
pub struct Filter {
    pub services: Vec<u16>,
    pub techs: Vec<String>,
    pub search: String,
}

/// The service codes a comma list names: each piece trimmed and read as a
/// `u16`, unreadable pieces skipped.
pub open spec fn services_of(parts: Seq<Seq<char>>) -> Seq<u16>
    decreases parts.len(),
{
    if parts.len() == 0 {
        Seq::empty()
    } else {
        let prev = services_of(parts.drop_last());
        match spec_parse_u16(trim(parts.last())) {
            Some(c) => prev.push(c),
            None => prev,
        }
    }
}

/// The technology categories a comma list names: each piece trimmed and
/// lowercased, empty ones skipped.
pub open spec fn techs_of(parts: Seq<Seq<char>>) -> Seq<Seq<char>>
    decreases parts.len(),
{
    if parts.len() == 0 {
        Seq::empty()
    } else {
        let prev = techs_of(parts.drop_last());
        let t = lowercase(trim(parts.last()));
        if t.len() > 0 { prev.push(t) } else { prev }
    }
}

/// Whether a technology category matches a system's lowercase technology:
/// `analog`/`conventional` → `conventional`; `dmr` → `dmr` or `mototrbo`;
/// anything else by substring.
pub open spec fn tech_matches(cat: Seq<char>, tech: Seq<char>) -> bool {
    if cat == "analog"@ || cat == "conventional"@ {
        contains_sub(tech, "conventional"@)
    } else if cat == "dmr"@ {
        contains_sub(tech, "dmr"@) || contains_sub(tech, "mototrbo"@)
    } else {
        contains_sub(tech, cat)
    }
}

/// A channel passes: its service code is listed (when codes are given), and its
/// lowercase name contains the search text (when one is given and the system
/// name did not already match).
pub open spec fn spec_channel_ok(
    services: Seq<u16>,
    search: Seq<char>,
    service: Option<u16>,
    name: Seq<char>,
    name_search_hit: bool,
) -> bool {
    &&& (services.len() == 0 || (service matches Some(c) && services.contains(c)))
    &&& (search.len() == 0 || name_search_hit || contains_sub(lowercase(name), search))
}

impl Filter {
    /// No constraint at all.
    pub fn all() -> (r: Filter)
        ensures
            r.services@.len() == 0,
            r.techs@.len() == 0,
            r.search@.len() == 0,
    {
        Filter { services: Vec::new(), techs: Vec::new(), search: String::new() }
    }

    /// Build from the raw parameters: a comma list of service codes, a comma list
    /// of technology categories, and the search text.
    pub fn parse(services_csv: &str, techs_csv: &str, search: &str) -> (r: Filter)
        ensures
            r.services@ == services_of(split_on(services_csv@, ',')),
            Seq::new(r.techs@.len(), |k: int| r.techs@[k]@) == techs_of(split_on(techs_csv@, ',')),
            r.search@ == lowercase(trim(search@)),
    {
        let parts = split_str(services_csv, ',');
        let ghost ps = Seq::new(parts@.len(), |k: int| parts@[k]@);
        let mut services: Vec<u16> = Vec::new();
        let mut k: usize = 0;
        assert(ps.take(0) =~= Seq::<Seq<char>>::empty());
        while k < parts.len()
            invariant
                k <= parts@.len(),
                ps == Seq::new(parts@.len(), |k: int| parts@[k]@),
                services@ == services_of(ps.take(k as int)),
            decreases parts@.len() - k,
        {
            proof {
                assert(ps.take(k + 1).drop_last() =~= ps.take(k as int));
                assert(ps.take(k + 1).last() == parts@[k as int]@);
            }
            match parse_u16(trim_str(parts[k].as_str())) {
                Some(c) => services.push(c),
                None => {},
            }
            k += 1;
        }
        assert(ps.take(ps.len() as int) =~= ps);
        let tparts = split_str(techs_csv, ',');
        let ghost ts = Seq::new(tparts@.len(), |k: int| tparts@[k]@);
        let mut techs: Vec<String> = Vec::new();
        let mut j: usize = 0;
        assert(ts.take(0) =~= Seq::<Seq<char>>::empty());
        while j < tparts.len()
            invariant
                j <= tparts@.len(),
                ts == Seq::new(tparts@.len(), |k: int| tparts@[k]@),
                Seq::new(techs@.len(), |k: int| techs@[k]@) == techs_of(ts.take(j as int)),
            decreases tparts@.len() - j,
        {
            proof {
                assert(ts.take(j + 1).drop_last() =~= ts.take(j as int));
                assert(ts.take(j + 1).last() == tparts@[j as int]@);
            }
            let t = to_lowercase(trim_str(tparts[j].as_str()));
            let ghost before = Seq::new(techs@.len(), |k: int| techs@[k]@);
            if t.unicode_len() > 0 {
                let ghost tv = t@;
                techs.push(t);
                assert(Seq::new(techs@.len(), |k: int| techs@[k]@) =~= before.push(tv));
            }
            j += 1;
        }
        assert(ts.take(ts.len() as int) =~= ts);
        Filter { services, techs, search: to_lowercase(trim_str(search)) }
    }

    /// System-level technology match (empty = all).
    pub fn system_tech_ok<P: SdCardProfile + ?Sized>(&self, sys: &System<P>) -> (r: bool)
        ensures
            r == (self.techs@.len() == 0 || exists|k: int|
                0 <= k < self.techs@.len() && tech_matches(
                    #[trigger] self.techs@[k]@,
                    lowercase(or_empty(crate::extract::sys_tech_of(sys@, sys.spec_profile()))),
                )),
    {
        if self.techs.len() == 0 {
            return true;
        }
        let base: &str = match sys.tech() {
            Some(t) => t,
            None => "",
        };
        proof {
            reveal_strlit("");
            assert(""@ =~= Seq::<char>::empty());
        }
        assert(base@ == or_empty(crate::extract::sys_tech_of(sys@, sys.spec_profile())));
        let tech = to_lowercase(base);
        let mut k: usize = 0;
        while k < self.techs.len()
            invariant
                k <= self.techs@.len(),
                tech@ == lowercase(or_empty(crate::extract::sys_tech_of(sys@, sys.spec_profile()))),
                forall|m: int| 0 <= m < k ==> !tech_matches(#[trigger] self.techs@[m]@, tech@),
            decreases self.techs@.len() - k,
        {
            let cat = self.techs[k].as_str();
            let hit = if str_eq(cat, "analog") || str_eq(cat, "conventional") {
                str_contains(tech.as_str(), "conventional")
            } else if str_eq(cat, "dmr") {
                str_contains(tech.as_str(), "dmr") || str_contains(tech.as_str(), "mototrbo")
            } else {
                str_contains(tech.as_str(), cat)
            };
            assert(hit == tech_matches(self.techs@[k as int]@, tech@));
            if hit {
                assert(0 <= k < self.techs@.len() && tech_matches(self.techs@[k as int]@, tech@));
                return true;
            }
            k += 1;
        }
        false
    }

    /// Channel-level pass; `name_search_hit` lets a system-name match satisfy the
    /// text filter for all of its channels.
    pub fn channel_ok(&self, service: Option<u16>, name: &str, name_search_hit: bool) -> (r: bool)
        ensures
            r == spec_channel_ok(self.services@, self.search@, service, name@, name_search_hit),
    {
        if self.services.len() > 0 {
            let listed = match service {
                Some(c) => {
                    let mut found = false;
                    let mut k: usize = 0;
                    while k < self.services.len()
                        invariant
                            k <= self.services@.len(),
                            found == exists|m: int| 0 <= m < k && self.services@[m] == c,
                        decreases self.services@.len() - k,
                    {
                        if self.services[k] == c {
                            found = true;
                        }
                        k += 1;
                    }
                    found
                },
                None => false,
            };
            if !listed {
                return false;
            }
        }
        if self.search.unicode_len() > 0 && !name_search_hit {
            let lname = to_lowercase(name);
            if !str_contains(lname.as_str(), self.search.as_str()) {
                return false;
            }
        }
        true
    }
}

/// Whether a system's own name satisfies the text search (then all its
/// channels do).
pub fn name_hits<P: SdCardProfile + ?Sized>(sys: &System<P>, filter: &Filter) -> (r: bool)
    ensures
        r == (filter.search@.len() == 0 || contains_sub(
            lowercase(or_empty(crate::extract::sys_name_of(sys@, sys.spec_profile()))),
            filter.search@,
        )),
{
    if filter.search.unicode_len() == 0 {
        return true;
    }
    let base: &str = match sys.name() {
        Some(n) => n,
        None => "",
    };
    proof {
        reveal_strlit("");
        assert(""@ =~= Seq::<char>::empty());
    }
    assert(base@ == or_empty(crate::extract::sys_name_of(sys@, sys.spec_profile())));
    let n = to_lowercase(base);
    str_contains(n.as_str(), filter.search.as_str())
}

/// A voice channel line passes the filter (`hit`: the system name matched).
pub open spec fn line_passes<P: SdCardProfile + ?Sized>(l: SpecLine, p: &P, f: Filter, hit: bool) -> bool {
    &&& is_voice_cmd(cmd_of(l))
    &&& match p.spec_record_schema(cmd_of(l)) {
        Some(sc) => spec_channel_ok(
            f.services@,
            f.search@,
            match col_field(l, service_col(sc)) {
                Some(x) => spec_parse_u16(x),
                None => None,
            },
            or_empty(rec_name((l, sc))),
            hit,
        ),
        None => false,
    }
}

/// How many of the lines pass.
pub open spec fn count_passing<P: SdCardProfile + ?Sized>(ls: Seq<SpecLine>, p: &P, f: Filter, hit: bool) -> nat
    decreases ls.len(),
{
    if ls.len() == 0 {
        0
    } else {
        count_passing(ls.drop_last(), p, f, hit) + if line_passes(ls.last(), p, f, hit) { 1nat } else { 0nat }
    }
}

/// The voice lines among the first `n`, as `(index among the voice lines, passes)`.
pub open spec fn voice_count(ls: Seq<SpecLine>) -> nat
    decreases ls.len(),
{
    if ls.len() == 0 {
        0
    } else {
        voice_count(ls.drop_last()) + if is_voice_cmd(cmd_of(ls.last())) { 1nat } else { 0nat }
    }
}

/// The voice-channel indices (counted over all voice lines) that pass.
pub open spec fn passing_indices<P: SdCardProfile + ?Sized>(ls: Seq<SpecLine>, p: &P, f: Filter, hit: bool) -> Seq<usize>
    decreases ls.len(),
{
    if ls.len() == 0 {
        Seq::empty()
    } else {
        let prev = passing_indices(ls.drop_last(), p, f, hit);
        if line_passes(ls.last(), p, f, hit) {
            prev.push(voice_count(ls.drop_last()) as usize)
        } else {
            prev
        }
    }
}

/// Whether one line passes: a voice channel with a schema whose service code and
/// name pass.
fn line_ok<P: SdCardProfile + ?Sized>(line: &Line, profile: &P, filter: &Filter, hit: bool) -> (r: bool)
    ensures
        r == line_passes(line@, profile, *filter, hit),
{
    if !is_voice_channel(line.command()) {
        return false;
    }
    match Record::new(line, profile) {
        Some(rec) => {
            let name: &str = match rec.name() {
                Some(n) => n,
                None => "",
            };
            proof {
                reveal_strlit("");
                assert(""@ =~= Seq::<char>::empty());
            }
            assert(name@ == or_empty(rec_name(rec@)));
            filter.channel_ok(rec.service_type_code(), name, hit)
        },
        None => false,
    }
}

/// Count the channels in a system that pass the filter.
pub fn count_channels<P: SdCardProfile + ?Sized>(sys: &System<P>, profile: &P, filter: &Filter) -> (r: usize)
    ensures
        r == count_passing(sys@, profile, *filter, (filter.search@.len() == 0 || contains_sub(
            lowercase(or_empty(crate::extract::sys_name_of(sys@, sys.spec_profile()))),
            filter.search@,
        ))),
{
    let hit = name_hits(sys, filter);
    let lines = sys.lines();
    let ghost ls = lines_view(lines@);
    let mut n: usize = 0;
    let mut k: usize = 0;
    assert(ls.take(0) =~= Seq::<SpecLine>::empty());
    while k < lines.len()
        invariant
            k <= lines@.len(),
            ls == lines_view(lines@),
            n <= k,
            n == count_passing(ls.take(k as int), profile, *filter, hit),
        decreases lines@.len() - k,
    {
        proof {
            assert(ls.take(k + 1).drop_last() =~= ls.take(k as int));
            assert(ls.take(k + 1).last() == lines@[k as int]@);
        }
        if line_ok(&lines[k], profile, filter, hit) {
            n += 1;
        }
        k += 1;
    }
    assert(ls.take(ls.len() as int) =~= ls);
    n
}

proof fn lemma_voice_count_bound(ls: Seq<SpecLine>)
    ensures
        voice_count(ls) <= ls.len(),
    decreases ls.len(),
{
    if ls.len() > 0 {
        lemma_voice_count_bound(ls.drop_last());
    }
}

/// The voice-channel indices in a system that pass the filter, ascending.
pub fn passing_channels<P: SdCardProfile + ?Sized>(sys: &System<P>, profile: &P, filter: &Filter) -> (r: Vec<usize>)
    ensures
        r@ == passing_indices(sys@, profile, *filter, (filter.search@.len() == 0 || contains_sub(
            lowercase(or_empty(crate::extract::sys_name_of(sys@, sys.spec_profile()))),
            filter.search@,
        ))),
{
    let hit = name_hits(sys, filter);
    let lines = sys.lines();
    let ghost ls = lines_view(lines@);
    let mut out: Vec<usize> = Vec::new();
    let mut ci: usize = 0;
    let mut k: usize = 0;
    assert(ls.take(0) =~= Seq::<SpecLine>::empty());
    while k < lines.len()
        invariant
            k <= lines@.len(),
            ls == lines_view(lines@),
            ci as nat == voice_count(ls.take(k as int)),
            ci <= k,
            out@ == passing_indices(ls.take(k as int), profile, *filter, hit),
        decreases lines@.len() - k,
    {
        proof {
            assert(ls.take(k + 1).drop_last() =~= ls.take(k as int));
            assert(ls.take(k + 1).last() == lines@[k as int]@);
        }
        let line = &lines[k];
        if line_ok(line, profile, filter, hit) {
            out.push(ci);
        }
        if is_voice_channel(line.command()) {
            ci += 1;
        }
        k += 1;
    }
    assert(ls.take(ls.len() as int) =~= ls);
    out
}

/// The service codes of the passing voice channels (by index among the voice
/// lines), in order.
pub open spec fn passing_codes<P: SdCardProfile + ?Sized>(ls: Seq<SpecLine>, p: &P, passing: Seq<usize>) -> Seq<u16>
    decreases ls.len(),
{
    if ls.len() == 0 {
        Seq::empty()
    } else {
        let prev = passing_codes(ls.drop_last(), p, passing);
        let l = ls.last();
        if is_voice_cmd(cmd_of(l)) && passing.contains(voice_count(ls.drop_last()) as usize) {
            match p.spec_record_schema(cmd_of(l)) {
                Some(sc) => match col_field(l, service_col(sc)) {
                    Some(x) => match spec_parse_u16(x) {
                        Some(c) => prev.push(c),
                        None => prev,
                    },
                    None => prev,
                },
                None => prev,
            }
        } else {
            prev
        }
    }
}

/// How many times `c` occurs in `s`.
pub open spec fn occurrences(s: Seq<u16>, c: u16) -> nat
    decreases s.len(),
{
    if s.len() == 0 {
        0
    } else {
        occurrences(s.drop_last(), c) + if s.last() == c { 1nat } else { 0nat }
    }
}

proof fn lemma_occurrences_absent(s: Seq<u16>, c: u16)
    requires
        !s.contains(c),
    ensures
        occurrences(s, c) == 0,
    decreases s.len(),
{
    if s.len() > 0 {
        assert(!s.drop_last().contains(c)) by {
            if s.drop_last().contains(c) {
                let i = choose|i: int| 0 <= i < s.drop_last().len() && s.drop_last()[i] == c;
                assert(s[i] == c);
            }
        }
        lemma_occurrences_absent(s.drop_last(), c);
    }
}

fn count_occurrences(v: &Vec<u16>, c: u16) -> (r: usize)
    ensures
        r == occurrences(v@, c),
{
    let mut n: usize = 0;
    let mut k: usize = 0;
    assert(v@.take(0) =~= Seq::<u16>::empty());
    while k < v.len()
        invariant
            k <= v@.len(),
            n <= k,
            n == occurrences(v@.take(k as int), c),
        decreases v@.len() - k,
    {
        assert(v@.take(k + 1).drop_last() =~= v@.take(k as int));
        if v[k] == c {
            n += 1;
        }
        k += 1;
    }
    assert(v@.take(v@.len() as int) =~= v@);
    n
}

fn slice_contains(s: &[usize], x: usize) -> (r: bool)
    ensures
        r == s@.contains(x),
{
    let mut k: usize = 0;
    while k < s.len()
        invariant
            k <= s@.len(),
            forall|m: int| 0 <= m < k ==> s@[m] != x,
        decreases s@.len() - k,
    {
        if s[k] == x {
            assert(s@[k as int] == x);
            return true;
        }
        k += 1;
    }
    false
}

/// The service code carried by the most passing channels of a system (`None`
/// when none of them carries one). Between equally common codes any may be
/// returned.
pub fn dominant_service_type<P: SdCardProfile + ?Sized>(sys: &System<P>, profile: &P, passing: &[usize]) -> (r: Option<u16>)
    ensures
        match r {
            None => passing_codes(sys@, profile, passing@).len() == 0,
            Some(c) => passing_codes(sys@, profile, passing@).contains(c) && forall|d: u16|
                occurrences(passing_codes(sys@, profile, passing@), d) <= occurrences(
                    passing_codes(sys@, profile, passing@),
                    c,
                ),
        },
{
    let lines = sys.lines();
    let ghost ls = lines_view(lines@);
    let mut codes: Vec<u16> = Vec::new();
    let mut ci: usize = 0;
    let mut k: usize = 0;
    assert(ls.take(0) =~= Seq::<SpecLine>::empty());
    while k < lines.len()
        invariant
            k <= lines@.len(),
            ls == lines_view(lines@),
            ci as nat == voice_count(ls.take(k as int)),
            ci <= k,
            codes@ == passing_codes(ls.take(k as int), profile, passing@),
        decreases lines@.len() - k,
    {
        proof {
            assert(ls.take(k + 1).drop_last() =~= ls.take(k as int));
            assert(ls.take(k + 1).last() == lines@[k as int]@);
        }
        let line = &lines[k];
        if is_voice_channel(line.command()) {
            if slice_contains(passing, ci) {
                match Record::new(line, profile) {
                    Some(rec) => match rec.service_type_code() {
                        Some(c) => codes.push(c),
                        None => {},
                    },
                    None => {},
                }
            }
            ci += 1;
        }
        k += 1;
    }
    assert(ls.take(ls.len() as int) =~= ls);
    let ghost cs = codes@;
    if codes.len() == 0 {
        return None;
    }
    let mut best: u16 = codes[0];
    let mut best_n: usize = count_occurrences(&codes, best);
    let mut i: usize = 1;
    while i < codes.len()
        invariant
            1 <= i <= codes@.len(),
            cs == codes@,
            cs.contains(best),
            best_n == occurrences(cs, best),
            forall|m: int| 0 <= m < i ==> occurrences(cs, #[trigger] cs[m]) <= best_n,
        decreases codes@.len() - i,
    {
        let n = count_occurrences(&codes, codes[i]);
        if n > best_n {
            best = codes[i];
            best_n = n;
        }
        i += 1;
    }
    proof {
        assert forall|d: u16| occurrences(cs, d) <= occurrences(cs, best) by {
            if cs.contains(d) {
                let m = choose|m: int| 0 <= m < cs.len() && cs[m] == d;
                assert(occurrences(cs, cs[m]) <= best_n);
            } else {
                lemma_occurrences_absent(cs, d);
            }
        }
    }
    Some(best)
}

// ---------------------------------------------------------------------------
// Removing channels from a favorites list.
// ---------------------------------------------------------------------------

/// The `(system, channel)` pairs a comma list of favorites channel ids names:
/// pieces trimmed, empty and unreadable ones skipped.
pub open spec fn removed_of(parts: Seq<Seq<char>>) -> Seq<(usize, usize)>
    decreases parts.len(),
{
    if parts.len() == 0 {
        Seq::empty()
    } else {
        let prev = removed_of(parts.drop_last());
        let t = trim(parts.last());
        if t.len() > 0 {
            match spec_fav_channel_id(t) {
                Some(x) => prev.push(x),
                None => prev,
            }
        } else {
            prev
        }
    }
}

/// The voice channels of system `si` (with `total` of them) that survive.
pub open spec fn survivors(total: nat, si: usize, removed: Seq<(usize, usize)>) -> Set<usize> {
    Set::new(|c: usize| c < total && !removed.contains((si, c)))
}

/// The systems' lines after the removal, in order: each system with a surviving
/// channel, pruned to its survivors; systems left without channels dropped.
pub open spec fn removal_lines(sv: Seq<Seq<SpecLine>>, removed: Seq<(usize, usize)>) -> Seq<SpecLine>
    decreases sv.len(),
{
    if sv.len() == 0 {
        Seq::empty()
    } else {
        let prev = removal_lines(sv.drop_last(), removed);
        let si = (sv.len() - 1) as usize;
        let keep = survivors(voice_count(sv.last()), si, removed);
        if exists|c: usize| #[trigger] keep.contains(c) {
            prev + pruned(sv.last(), keep, sv.last().len() as int)
        } else {
            prev
        }
    }
}

fn pairs_contain(v: &Vec<(usize, usize)>, si: usize, c: usize) -> (r: bool)
    ensures
        r == v@.contains((si, c)),
{
    let mut k: usize = 0;
    while k < v.len()
        invariant
            k <= v@.len(),
            forall|m: int| 0 <= m < k ==> v@[m] != (si, c),
        decreases v@.len() - k,
    {
        if v[k].0 == si && v[k].1 == c {
            assert(v@[k as int] == (si, c));
            return true;
        }
        k += 1;
    }
    false
}

fn voice_total(lines: &[Line]) -> (r: usize)
    ensures
        r as nat == voice_count(lines_view(lines@)),
{
    let ghost ls = lines_view(lines@);
    let mut n: usize = 0;
    let mut k: usize = 0;
    assert(ls.take(0) =~= Seq::<SpecLine>::empty());
    while k < lines.len()
        invariant
            k <= lines@.len(),
            ls == lines_view(lines@),
            n <= k,
            n as nat == voice_count(ls.take(k as int)),
        decreases lines@.len() - k,
    {
        proof {
            assert(ls.take(k + 1).drop_last() =~= ls.take(k as int));
            assert(ls.take(k + 1).last() == lines@[k as int]@);
        }
        if is_voice_channel(lines[k].command()) {
            n += 1;
        }
        k += 1;
    }
    assert(ls.take(ls.len() as int) =~= ls);
    n
}

/// The channels below `total` of system `si` that are not removed, and whether
/// there is one.
fn survivor_set(removed: &Vec<(usize, usize)>, si: usize, total: usize) -> (r: (BTreeSet<usize>, bool))
    ensures
        r.0@ == Set::new(|x: usize| x < total && !removed@.contains((si, x))),
        r.1 == exists|x: usize| #[trigger] r.0@.contains(x),
{
    broadcast use vstd::laws_cmp::group_laws_cmp;
    let mut keep: BTreeSet<usize> = BTreeSet::new();
    let mut any = false;
    let mut c: usize = 0;
    assert(keep@ =~= Set::new(|x: usize| x < 0 && !removed@.contains((si, x))));
    while c < total
        invariant
            c <= total,
            keep@ == Set::new(|x: usize| x < c && !removed@.contains((si, x))),
            any == exists|x: usize| #[trigger] keep@.contains(x),
        decreases total - c,
    {
        if !pairs_contain(removed, si, c) {
            keep.insert(c);
            any = true;
            assert(keep@.contains(c));
        }
        assert(keep@ =~= Set::new(|x: usize| x < c + 1 && !removed@.contains((si, x))));
        c += 1;
    }
    (keep, any)
}

/// Remove channels (by `"s<si>c<ci>"` id, comma-separated) from a favorites
/// list. Systems left with no channels are dropped; each other system keeps its
/// surviving channels with their scaffolding.
pub fn remove_channels<P: SdCardProfile + ?Sized>(doc: &Document, profile: &P, channel_ids_csv: &str) -> (r: Document)
    ensures
        r@ == doc@.take(preamble_end(doc@)) + removal_lines(
            system_views(doc@),
            removed_of(split_on(channel_ids_csv@, ',')),
        ),
{
    let parts = split_str(channel_ids_csv, ',');
    let ghost ps = Seq::new(parts@.len(), |k: int| parts@[k]@);
    let mut removed: Vec<(usize, usize)> = Vec::new();
    let mut k: usize = 0;
    assert(ps.take(0) =~= Seq::<Seq<char>>::empty());
    while k < parts.len()
        invariant
            k <= parts@.len(),
            ps == Seq::new(parts@.len(), |k: int| parts@[k]@),
            removed@ == removed_of(ps.take(k as int)),
        decreases parts@.len() - k,
    {
        proof {
            assert(ps.take(k + 1).drop_last() =~= ps.take(k as int));
            assert(ps.take(k + 1).last() == parts@[k as int]@);
        }
        let t = trim_str(parts[k].as_str());
        if t.unicode_len() > 0 {
            match parse_fav_channel_id(t) {
                Some(x) => removed.push(x),
                None => {},
            }
        }
        k += 1;
    }
    assert(ps.take(ps.len() as int) =~= ps);
    let ghost rm = removed@;
    let ext = Extraction::segment(doc, profile);
    let systems = ext.systems();
    let ghost sv = system_views(doc@);
    let mut out: Vec<Line> = Vec::new();
    crate::format::push_lines(ext.preamble_lines(), &mut out);
    let ghost pre = doc@.take(preamble_end(doc@));
    let mut si: usize = 0;
    assert(sv.take(0) =~= Seq::<Seq<SpecLine>>::empty());
    while si < systems.len()
        invariant
            si <= systems@.len(),
            systems@.len() == sv.len(),
            sv == system_views(doc@),
            rm == removed@,
            forall|m: int| 0 <= m < systems@.len() ==> (#[trigger] systems@[m])@ == sv[m],
            lines_view(out@) == pre + removal_lines(sv.take(si as int), rm),
        decreases systems@.len() - si,
    {
        let lines = systems[si].lines();
        let total = voice_total(lines);
        let (keep, any) = survivor_set(&removed, si, total);
        let ghost kv = survivors(voice_count(sv[si as int]), si, rm);
        assert(keep@ =~= kv);
        proof {
            assert(sv.take(si + 1).drop_last() =~= sv.take(si as int));
            assert(sv.take(si + 1).last() == sv[si as int]);
        }
        let ghost before = lines_view(out@);
        let ghost sl = sv[si as int];
        assert(lines_view(lines@) == sl);
        if any {
            push_system_subset(lines, &keep, &mut out);
        }
        proof {
            let t = sv.take(si + 1);
            assert(t.len() == si + 1);
            assert(((t.len() - 1) as usize) == si);
            assert(removal_lines(t, rm) == if exists|c: usize| #[trigger] kv.contains(c) {
                removal_lines(sv.take(si as int), rm) + pruned(sl, kv, sl.len() as int)
            } else {
                removal_lines(sv.take(si as int), rm)
            });
            if any {
                assert(lines_view(out@) =~= before + pruned(sl, kv, sl.len() as int));
            }
        }
        assert(lines_view(out@) =~= pre + removal_lines(sv.take(si + 1), rm));
        si += 1;
    }
    assert(sv.take(sv.len() as int) =~= sv);
    Document { lines: out }
}

// ---------------------------------------------------------------------------
// The ids the tree hands out are read back by the parsers.
// ---------------------------------------------------------------------------

pub(crate) proof fn lemma_decimal_parses(n: usize)
    ensures
        spec_parse_usize(decimal(n as nat)) == Some(n),
        forall|i: int| 0 <= i < decimal(n as nat).len() ==> is_digit(#[trigger] decimal(n as nat)[i]),
        decimal(n as nat).len() > 0,
{
    crate::text::lemma_decimal_value(n as nat);
    let d = decimal(n as nat);
    assert(is_digit(d[0]));
}

pub(crate) proof fn lemma_split_at_first(x: Seq<char>, c: char, y: Seq<char>)
    requires
        forall|i: int| 0 <= i < x.len() ==> x[i] != c,
    ensures
        split_once(x + seq![c] + y, c) == Some((x, y)),
{
    let s = x + seq![c] + y;
    assert forall|k: int| 0 <= k < x.len() implies s[k] != c by {
        assert(s[k] == x[k]);
    }
    crate::text::lemma_char_pos(s, c, x.len() as int);
    assert(s.take(x.len() as int) =~= x);
    assert(s.skip(x.len() as int + 1) =~= y);
}

proof fn lemma_no_char(x: Seq<char>, c: char)
    requires
        forall|i: int| 0 <= i < x.len() ==> x[i] != c,
    ensures
        split_once(x, c) is None,
{
    crate::text::lemma_char_pos(x, c, x.len() as int);
}

/// The ids the tree hands out read back as what they name: a channel id as its
/// `(system, channel)` pair and as a channel avoid target, a group id as a
/// department avoid target, a system id as a system avoid target.
pub proof fn lemma_tree_ids_read_back(si: usize, x: usize)
    ensures
        spec_fav_channel_id(channel_id(si as nat, x as nat)) == Some((si, x)),
        spec_avoid_target(channel_id(si as nat, x as nat)) == Some((si, AvoidLevel::Channel, x)),
        spec_avoid_target(group_id(si as nat, x as nat)) == Some((si, AvoidLevel::Group, x)),
        spec_avoid_target(system_id(si as nat)) == Some((si, AvoidLevel::System, 0usize)),
{
    reveal_strlit("s");
    reveal_strlit("c");
    reveal_strlit("g");
    lemma_decimal_parses(si);
    lemma_decimal_parses(x);
    let ds = decimal(si as nat);
    let dx = decimal(x as nat);
    assert forall|i: int| 0 <= i < ds.len() implies ds[i] != 'c' && ds[i] != 'g' by {
        assert(is_digit(ds[i]));
    }
    assert forall|i: int| 0 <= i < dx.len() implies dx[i] != 'c' && dx[i] != 'g' by {
        assert(is_digit(dx[i]));
    }
    // channel id: s<si>c<x>
    let cid = channel_id(si as nat, x as nat);
    assert(cid =~= seq!['s'] + (ds + seq!['c'] + dx));
    assert(strip_char(cid, 's') == Some(ds + seq!['c'] + dx)) by {
        assert(cid.drop_first() =~= ds + seq!['c'] + dx);
    }
    lemma_split_at_first(ds, 'c', dx);
    let rest_c = ds + seq!['c'] + dx;
    assert forall|i: int| 0 <= i < rest_c.len() implies rest_c[i] != 'g' by {
        if i < ds.len() {
            assert(rest_c[i] == ds[i]);
        } else if i > ds.len() {
            assert(rest_c[i] == dx[i - ds.len() - 1]);
        }
    }
    lemma_no_char(rest_c, 'g');
    // group id: s<si>g<x>
    let gid = group_id(si as nat, x as nat);
    assert(gid =~= seq!['s'] + (ds + seq!['g'] + dx));
    assert(strip_char(gid, 's') == Some(ds + seq!['g'] + dx)) by {
        assert(gid.drop_first() =~= ds + seq!['g'] + dx);
    }
    lemma_split_at_first(ds, 'g', dx);
    // system id: s<si>
    let sid = system_id(si as nat);
    assert(sid =~= seq!['s'] + ds);
    assert(strip_char(sid, 's') == Some(ds)) by {
        assert(sid.drop_first() =~= ds);
    }
    lemma_no_char(ds, 'g');
    lemma_no_char(ds, 'c');
}

// ---------------------------------------------------------------------------
// The tree as JSON.
// ---------------------------------------------------------------------------

/// A JSON string literal.
pub open spec fn jstr(s: Seq<char>) -> Seq<char> {
    seq!['"'] + json_escape(s) + seq!['"']
}

/// A JSON string literal, or `null`.
pub open spec fn jopt_str(o: Option<Seq<char>>) -> Seq<char> {
    match o {
        Some(s) => jstr(s),
        None => "null"@,
    }
}

/// A JSON number, or `null`.
pub open spec fn jopt_num(o: Option<nat>) -> Seq<char> {
    match o {
        Some(n) => decimal(n),
        None => "null"@,
    }
}

pub open spec fn jbool(b: bool) -> Seq<char> {
    if b { "true"@ } else { "false"@ }
}

/// Items separated by commas.
pub open spec fn join(items: Seq<Seq<char>>) -> Seq<char>
    decreases items.len(),
{
    if items.len() == 0 {
        Seq::empty()
    } else if items.len() == 1 {
        items[0]
    } else {
        join(items.drop_last()) + ","@ + items.last()
    }
}

pub open spec fn opt_nat64(o: Option<u64>) -> Option<nat> {
    match o {
        Some(n) => Some(n as nat),
        None => None,
    }
}

pub open spec fn opt_nat16(o: Option<u16>) -> Option<nat> {
    match o {
        Some(n) => Some(n as nat),
        None => None,
    }
}

pub open spec fn json_setting(kv: (Seq<char>, Seq<char>)) -> Seq<char> {
    jstr(kv.0) + ":"@ + jstr(kv.1)
}

/// The leading fields of a channel node: id, name, talkgroup, frequency.
pub open spec fn ch_part1(c: SpecTreeChannel) -> Seq<char> {
    "{\"id\":"@ + jstr(c.id) + ",\"name\":"@ + jstr(c.name) + ",\"tgid\":"@ + jopt_str(c.tgid)
        + ",\"freqHz\":"@ + jopt_num(opt_nat64(c.freq_hz))
}

/// Mode, service type, tone.
pub open spec fn ch_part2(c: SpecTreeChannel) -> Seq<char> {
    ",\"mode\":"@ + jopt_str(c.mode) + ",\"serviceType\":"@ + jopt_num(opt_nat16(c.service_type))
        + ",\"tone\":"@ + jopt_str(c.tone)
}

/// The flags, and the opening of the settings object.
pub open spec fn ch_part3(c: SpecTreeChannel) -> Seq<char> {
    ",\"avoid\":"@ + jbool(c.avoid) + ",\"priority\":"@ + jbool(c.priority) + ",\"settings\":{"@
}

/// A channel node as JSON.
#[verifier::opaque]
pub open spec fn json_channel(c: SpecTreeChannel) -> Seq<char> {
    ch_part1(c) + ch_part2(c) + ch_part3(c) + join(Seq::new(c.settings.len(), |k: int| json_setting(c.settings[k])))
        + "}}"@
}

/// The fields of a group node before its channels.
pub open spec fn group_head(g: SpecTreeGroup) -> Seq<char> {
    "{\"id\":"@ + jstr(g.id) + ",\"name\":"@ + jstr(g.name) + ",\"avoid\":"@ + jbool(g.avoid) + ",\"channels\":["@
}

/// A group node as JSON.
#[verifier::opaque]
pub open spec fn json_group(g: SpecTreeGroup) -> Seq<char> {
    group_head(g) + join(Seq::new(g.channels.len(), |k: int| json_channel(g.channels[k]))) + "]}"@
}

/// The fields of a system node before its groups.
pub open spec fn system_head(t: SpecTreeSystem) -> Seq<char> {
    "{\"id\":"@ + jstr(t.id) + ",\"name\":"@ + jstr(t.name) + ",\"kind\":"@ + jstr(t.kind) + ",\"tech\":"@
        + jopt_str(t.tech) + ",\"avoid\":"@ + jbool(t.avoid) + ",\"groups\":["@
}

/// A system node as JSON.
#[verifier::opaque]
pub open spec fn json_system(t: SpecTreeSystem) -> Seq<char> {
    system_head(t) + join(Seq::new(t.groups.len(), |k: int| json_group(t.groups[k]))) + "]}"@
}

/// The tree as a JSON array.
pub open spec fn json_tree(ts: Seq<SpecTreeSystem>) -> Seq<char> {
    "["@ + join(Seq::new(ts.len(), |k: int| json_system(ts[k]))) + "]"@
}

pub(crate) proof fn lemma_join_step(items: Seq<Seq<char>>, k: int)
    requires
        0 <= k < items.len(),
    ensures
        join(items.take(k + 1)) == join(items.take(k)) + (if k > 0 { ","@ } else { Seq::empty() }) + items[k],
{
    let t = items.take(k + 1);
    assert(t.drop_last() =~= items.take(k));
    assert(t.last() == items[k]);
    if k == 0 {
        assert(items.take(0) =~= Seq::<Seq<char>>::empty());
        assert(Seq::<char>::empty() + Seq::<char>::empty() + items[0] =~= items[0]);
    }
}

pub(crate) fn push_str(out: &mut String, s: &str)
    ensures
        final(out)@ == old(out)@ + s@,
{
    out.append(s);
}

pub(crate) fn push_opt_json(out: &mut String, o: &Option<String>)
    ensures
        final(out)@ == old(out)@ + jopt_str(opt_owned(*o)),
{
    match o {
        Some(s) => push_json_string(out, s.as_str()),
        None => push_str(out, "null"),
    }
}

pub(crate) fn push_opt_num(out: &mut String, o: Option<u64>)
    ensures
        final(out)@ == old(out)@ + jopt_num(opt_nat64(o)),
{
    match o {
        Some(n) => push_decimal(out, n),
        None => push_str(out, "null"),
    }
}

pub(crate) fn push_bool(out: &mut String, b: bool)
    ensures
        final(out)@ == old(out)@ + jbool(b),
{
    if b { push_str(out, "true") } else { push_str(out, "false") }
}

fn push_ch_part1(out: &mut String, c: &TreeChannel)
    ensures
        final(out)@ == old(out)@ + ch_part1(c@),
{
    let ghost o0 = out@;
    push_str(out, "{\"id\":");
    push_json_string(out, c.id.as_str());
    push_str(out, ",\"name\":");
    push_json_string(out, c.name.as_str());
    push_str(out, ",\"tgid\":");
    push_opt_json(out, &c.tgid);
    push_str(out, ",\"freqHz\":");
    push_opt_num(out, c.freq_hz);
    assert(out@ =~= o0 + ch_part1(c@));
}

fn push_ch_part2(out: &mut String, c: &TreeChannel)
    ensures
        final(out)@ == old(out)@ + ch_part2(c@),
{
    let ghost o0 = out@;
    push_str(out, ",\"mode\":");
    push_opt_json(out, &c.mode);
    push_str(out, ",\"serviceType\":");
    let st = match c.service_type {
        Some(v) => Some(v as u64),
        None => None,
    };
    assert(opt_nat64(st) == opt_nat16(c.service_type));
    push_opt_num(out, st);
    push_str(out, ",\"tone\":");
    push_opt_json(out, &c.tone);
    assert(out@ =~= o0 + ch_part2(c@));
}

fn push_ch_part3(out: &mut String, c: &TreeChannel)
    ensures
        final(out)@ == old(out)@ + ch_part3(c@),
{
    let ghost o0 = out@;
    push_str(out, ",\"avoid\":");
    push_bool(out, c.avoid);
    push_str(out, ",\"priority\":");
    push_bool(out, c.priority);
    push_str(out, ",\"settings\":{");
    assert(out@ =~= o0 + ch_part3(c@));
}

fn push_channel_json(out: &mut String, c: &TreeChannel)
    ensures
        final(out)@ == old(out)@ + json_channel(c@),
{
    let ghost o0 = out@;
    push_ch_part1(out, c);
    push_ch_part2(out, c);
    push_ch_part3(out, c);
    let ghost head = out@;
    let ghost items = Seq::new(c.settings@.len(), |k: int| json_setting(c@.settings[k]));
    let mut k: usize = 0;
    assert(items.take(0) =~= Seq::<Seq<char>>::empty());
    while k < c.settings.len()
        invariant
            k <= c.settings@.len(),
            items == Seq::new(c.settings@.len(), |k: int| json_setting(c@.settings[k])),
            out@ == head + join(items.take(k as int)),
        decreases c.settings@.len() - k,
    {
        proof { lemma_join_step(items, k as int); }
        if k > 0 {
            push_str(out, ",");
        }
        push_json_string(out, c.settings[k].0.as_str());
        push_str(out, ":");
        push_json_string(out, c.settings[k].1.as_str());
        assert(out@ =~= head + join(items.take(k + 1)));
        k += 1;
    }
    assert(items.take(items.len() as int) =~= items);
    push_str(out, "}}");
    proof { reveal(json_channel); }
    assert(out@ =~= o0 + json_channel(c@));
}

fn push_group_head(out: &mut String, g: &TreeGroup)
    ensures
        final(out)@ == old(out)@ + group_head(g@),
{
    let ghost o0 = out@;
    push_str(out, "{\"id\":");
    push_json_string(out, g.id.as_str());
    push_str(out, ",\"name\":");
    push_json_string(out, g.name.as_str());
    push_str(out, ",\"avoid\":");
    push_bool(out, g.avoid);
    push_str(out, ",\"channels\":[");
    assert(out@ =~= o0 + group_head(g@));
}

fn push_system_head(out: &mut String, t: &TreeSystem)
    ensures
        final(out)@ == old(out)@ + system_head(t@),
{
    let ghost o0 = out@;
    push_str(out, "{\"id\":");
    push_json_string(out, t.id.as_str());
    push_str(out, ",\"name\":");
    push_json_string(out, t.name.as_str());
    push_str(out, ",\"kind\":");
    push_json_string(out, t.kind.as_str());
    push_str(out, ",\"tech\":");
    push_opt_json(out, &t.tech);
    push_str(out, ",\"avoid\":");
    push_bool(out, t.avoid);
    push_str(out, ",\"groups\":[");
    assert(out@ =~= o0 + system_head(t@));
}

fn push_group_json(out: &mut String, g: &TreeGroup)
    ensures
        final(out)@ == old(out)@ + json_group(g@),
{
    let ghost o0 = out@;
    push_group_head(out, g);
    let ghost head = out@;
    let ghost items = Seq::new(g.channels@.len(), |k: int| json_channel(g@.channels[k]));
    let mut k: usize = 0;
    assert(items.take(0) =~= Seq::<Seq<char>>::empty());
    while k < g.channels.len()
        invariant
            k <= g.channels@.len(),
            items == Seq::new(g.channels@.len(), |k: int| json_channel(g@.channels[k])),
            out@ == head + join(items.take(k as int)),
        decreases g.channels@.len() - k,
    {
        proof { lemma_join_step(items, k as int); }
        if k > 0 {
            push_str(out, ",");
        }
        push_channel_json(out, &g.channels[k]);
        assert(out@ =~= head + join(items.take(k + 1)));
        k += 1;
    }
    assert(items.take(items.len() as int) =~= items);
    push_str(out, "]}");
    proof { reveal(json_group); }
    assert(out@ =~= o0 + json_group(g@));
}

fn push_system_json(out: &mut String, t: &TreeSystem)
    ensures
        final(out)@ == old(out)@ + json_system(t@),
{
    let ghost o0 = out@;
    push_system_head(out, t);
    let ghost head = out@;
    let ghost items = Seq::new(t.groups@.len(), |k: int| json_group(t@.groups[k]));
    let mut k: usize = 0;
    assert(items.take(0) =~= Seq::<Seq<char>>::empty());
    while k < t.groups.len()
        invariant
            k <= t.groups@.len(),
            items == Seq::new(t.groups@.len(), |k: int| json_group(t@.groups[k])),
            out@ == head + join(items.take(k as int)),
        decreases t.groups@.len() - k,
    {
        proof { lemma_join_step(items, k as int); }
        if k > 0 {
            push_str(out, ",");
        }
        push_group_json(out, &t.groups[k]);
        assert(out@ =~= head + join(items.take(k + 1)));
        k += 1;
    }
    assert(items.take(items.len() as int) =~= items);
    push_str(out, "]}");
    proof { reveal(json_system); }
    assert(out@ =~= o0 + json_system(t@));
}

/// The scan/avoid tree of a favorites list as a JSON array (systems → groups →
/// channels, each with its id, name, attributes, avoid/priority flags and
/// value settings).
pub fn favorites_tree_json<P: SdCardProfile + ?Sized>(doc: &Document, profile: &P) -> (r: String)
    ensures
        r@ == json_tree(spec_tree(doc@, profile)),
{
    let tree = favorites_tree(doc, profile);
    let ghost tv = Seq::new(tree@.len(), |k: int| tree@[k]@);
    let mut out = String::new();
    push_str(&mut out, "[");
    let ghost head = out@;
    let ghost items = Seq::new(tree@.len(), |k: int| json_system(tv[k]));
    let mut k: usize = 0;
    assert(items.take(0) =~= Seq::<Seq<char>>::empty());
    while k < tree.len()
        invariant
            k <= tree@.len(),
            tv == Seq::new(tree@.len(), |k: int| tree@[k]@),
            items == Seq::new(tree@.len(), |k: int| json_system(tv[k])),
            out@ == head + join(items.take(k as int)),
        decreases tree@.len() - k,
    {
        proof { lemma_join_step(items, k as int); }
        if k > 0 {
            push_str(&mut out, ",");
        }
        push_system_json(&mut out, &tree[k]);
        assert(out@ =~= head + join(items.take(k + 1)));
        k += 1;
    }
    assert(items.take(items.len() as int) =~= items);
    push_str(&mut out, "]");
    assert(out@ =~= json_tree(tv));
    out
}

} // verus!
