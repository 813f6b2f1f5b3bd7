//! SD-card helpers — path layout, the favorites index (`f_list.cfg`) logic, and the
//! file-format side of the card's safety rules.
//!
//! Paths are composed from the profile's [`SdLayout`](crate::device::SdLayout), so
//! model differences stay in one place. Everything here computes: which file a slot
//! lives in, what `f_list.cfg` becomes after an edit, which slot files a layout
//! drops. Reading and writing the card (and deleting `app_data.cfg`, the spec's
//! critical rule) is done by the caller with the values computed here.

use vstd::prelude::*;
use crate::device::SdCardProfile;
use crate::device::profile::opt_strings_view;
use crate::error::{Error, Result};
use crate::extract::{Extraction, is_voice_channel, is_voice_cmd, system_views};
use crate::format::{
    Document, Line, LineEnding, SpecLine, copy_strings, lines_view, spec_command, spec_field,
    strings_view,
};
use crate::model::{lowercase, to_lowercase, opt_str_view};
use crate::ui::{jbool, jopt_num, jopt_str, jstr, lemma_join_step, push_bool, push_json_string, push_opt_num, push_str};
use crate::text::push_decimal;
use crate::text::{
    all_digits, concat_strs, copy_str, decimal, decimal_string, has_prefix, is_digit,
    lemma_decimal_value, lemma_leading_zeros, parse_u32, parse_u64, spec_parse_u32, spec_parse_u64,
    starts_with, str_eq,
    stable_order, stable_sort_indices, seq_lt, key_before,
};

verus! {

pub open spec fn cmd_of(l: SpecLine) -> Seq<char> {
    spec_command(l.fields)
}

// ---------------------------------------------------------------------------
// Slot files.
// ---------------------------------------------------------------------------

/// `n` as decimal, zero-padded on the left to at least six digits.
pub open spec fn pad6(n: nat) -> Seq<char> {
    let d = decimal(n);
    if d.len() < 6 {
        Seq::new((6 - d.len()) as nat, |i: int| '0') + d
    } else {
        d
    }
}

/// The slot file name of a slot: `f_` + six-digit slot number + `.hpd`.
pub open spec fn slot_name(slot: u32) -> Seq<char> {
    "f_"@ + pad6(slot as nat) + ".hpd"@
}

/// The slot file name, e.g. `5` → `f_000005.hpd`.
pub fn slot_filename(slot: u32) -> (r: String)
    ensures
        r@ == slot_name(slot),
{
    let digits = decimal_string(slot as u64);
    let mut s = copy_str("f_");
    let n = digits.unicode_len();
    let mut k: usize = n;
    proof { reveal_strlit("f_"); }
    while k < 6
        invariant
            n <= k <= 6 || (n > 6 && k == n),
            n == digits@.len(),
            s@ == "f_"@ + Seq::new((k - n) as nat, |i: int| '0'),
        decreases 6 - k,
    {
        s.push('0');
        k += 1;
        assert(s@ =~= "f_"@ + Seq::new((k - n) as nat, |i: int| '0'));
    }
    s.append(digits.as_str());
    s.append(".hpd");
    proof {
        let d = decimal(slot as nat);
        assert(digits@ == d);
        if d.len() < 6 {
            assert(s@ =~= "f_"@ + (Seq::new((6 - d.len()) as nat, |i: int| '0') + d) + ".hpd"@);
        } else {
            assert(Seq::new(0, |i: int| '0') + d =~= d);
            assert(s@ =~= "f_"@ + d + ".hpd"@);
        }
    }
    s
}

/// `p` is a suffix of `s`.
pub open spec fn ends_with(s: Seq<char>, p: Seq<char>) -> bool {
    p.len() <= s.len() && s.skip(s.len() - p.len()) == p
}

/// The slot a file name denotes: `f_<n>.hpd` with `n` a `u32`.
pub open spec fn spec_slot_of(f: Seq<char>) -> Option<u32> {
    if starts_with(f, "f_"@) {
        let rest = f.skip(2);
        if ends_with(rest, ".hpd"@) {
            spec_parse_u32(rest.take(rest.len() - 4))
        } else {
            None
        }
    } else {
        None
    }
}

/// `f_000005.hpd` → `5`.
pub fn slot_from_filename(filename: &str) -> (r: Option<u32>)
    ensures
        r == spec_slot_of(filename@),
{
    proof {
        reveal_strlit("f_");
        reveal_strlit(".hpd");
    }
    if !has_prefix(filename, "f_") {
        return None;
    }
    let n = filename.unicode_len();
    let rest = filename.substring_char(2, n);
    assert(rest@ =~= filename@.skip(2));
    let m = rest.unicode_len();
    if m < 4 {
        return None;
    }
    let tail = rest.substring_char(m - 4, m);
    assert(tail@ =~= rest@.skip(m - 4));
    if !str_eq(tail, ".hpd") {
        return None;
    }
    let mid = rest.substring_char(0, m - 4);
    assert(mid@ =~= rest@.take(m - 4));
    parse_u32(mid)
}

/// Slot file names round-trip: the name written for a slot is read back as that
/// slot.
pub proof fn lemma_slot_filename_round_trip(slot: u32)
    ensures
        spec_slot_of(slot_name(slot)) == Some(slot),
{
    reveal_strlit("f_");
    reveal_strlit(".hpd");
    let n = slot as nat;
    let d = decimal(n);
    lemma_decimal_value(n);
    let p = pad6(n);
    let z = if d.len() < 6 { Seq::new((6 - d.len()) as nat, |i: int| '0') } else {
        Seq::new(0, |i: int| '0')
    };
    assert(p =~= z + d);
    lemma_leading_zeros(z.len(), d);
    assert(all_digits(p)) by {
        assert forall|i: int| 0 <= i < p.len() implies is_digit(#[trigger] p[i]) by {
            if i >= z.len() {
                assert(p[i] == d[i - z.len()]);
            }
        }
    }
    assert(is_digit(p[0]));
    let f = slot_name(slot);
    assert(f.take(2) =~= "f_"@);
    let rest = f.skip(2);
    assert(rest =~= p + ".hpd"@);
    assert(rest.skip(rest.len() - 4) =~= ".hpd"@);
    assert(rest.take(rest.len() - 4) =~= p);
}

// ---------------------------------------------------------------------------
// Paths.
// ---------------------------------------------------------------------------

/// A path with one more component, as `Path::join` builds it: an absolute
/// component (starting with `/`) replaces the base; otherwise the two are joined
/// with `/` unless the base is empty or already ends with one.
pub open spec fn join_path(base: Seq<char>, part: Seq<char>) -> Seq<char> {
    if part.len() > 0 && part[0] == '/' {
        part
    } else if base.len() == 0 || base.last() == '/' {
        base + part
    } else {
        base + seq!['/'] + part
    }
}

fn join(base: &str, part: &str) -> (r: String)
    ensures
        r@ == join_path(base@, part@),
{
    if part.unicode_len() > 0 && part.get_char(0) == '/' {
        return copy_str(part);
    }
    let n = base.unicode_len();
    if n == 0 || base.get_char(n - 1) == '/' {
        concat_strs(base, part)
    } else {
        let mut s = copy_str(base);
        s.push('/');
        s.append(part);
        s
    }
}

/// `<card>/<model_folder>` — e.g. `/Volumes/NO NAME/BCDx36HP`.
pub fn model_root<P: SdCardProfile + ?Sized>(card_mount: &str, profile: &P) -> (r: String)
    ensures
        r@ == join_path(card_mount@, profile.spec_sd_layout().model_folder@),
{
    join(card_mount, profile.sd_layout().model_folder)
}

/// Path to a favorites slot file, e.g. `…/favorites_lists/f_000001.hpd`.
pub fn favorites_path<P: SdCardProfile + ?Sized>(card_mount: &str, profile: &P, slot: u32) -> (r: String)
    ensures
        r@ == join_path(
            join_path(
                join_path(card_mount@, profile.spec_sd_layout().model_folder@),
                profile.spec_sd_layout().favorites_dir@,
            ),
            slot_name(slot),
        ),
{
    let layout = profile.sd_layout();
    let root = model_root(card_mount, profile);
    let dir = join(root.as_str(), layout.favorites_dir);
    let name = slot_filename(slot);
    join(dir.as_str(), name.as_str())
}

/// Path to the resume-state file `app_data.cfg`.
pub fn app_data_path<P: SdCardProfile + ?Sized>(card_mount: &str, profile: &P) -> (r: String)
    ensures
        r@ == join_path(
            join_path(card_mount@, profile.spec_sd_layout().model_folder@),
            profile.spec_sd_layout().app_data_cfg@,
        ),
{
    let root = model_root(card_mount, profile);
    join(root.as_str(), profile.sd_layout().app_data_cfg)
}

/// Path to the favorites index `f_list.cfg`.
pub fn f_list_path<P: SdCardProfile + ?Sized>(card_mount: &str, profile: &P) -> (r: String)
    ensures
        r@ == join_path(
            join_path(
                join_path(card_mount@, profile.spec_sd_layout().model_folder@),
                profile.spec_sd_layout().favorites_dir@,
            ),
            profile.spec_sd_layout().favorites_list_cfg@,
        ),
{
    let layout = profile.sd_layout();
    let root = model_root(card_mount, profile);
    let dir = join(root.as_str(), layout.favorites_dir);
    join(dir.as_str(), layout.favorites_list_cfg)
}

// ---------------------------------------------------------------------------
// Reading the favorites index.
// ---------------------------------------------------------------------------

/// Metadata for one favorites list registered on the card (from `f_list.cfg` plus
/// the slot file). For showing and managing the user's current configuration.
#[derive(Debug, Clone, PartialEq, Eq)]
pub struct FavoriteListInfo {
    /// Slot number (from the `f_<NNNNNN>.hpd` filename).
    pub slot: u32,
    /// Display name shown on the scanner (`F-List` field 1).
    pub name: String,
    /// Slot filename, e.g. `f_000005.hpd`.
    pub filename: String,
    /// Systems in the list (0 if the slot file is missing/unreadable).
    pub systems: usize,
    /// Voice channels (talkgroups + conventional freqs) in the list.
    pub channels: usize,
    /// Slot file size in bytes.
    pub bytes: u64,
    /// The list's **Monitor** flag (`F-List` Monitor field = `On`). `false` for
    /// models whose F-List Monitor field isn't characterized.
    pub monitor: bool,
    /// The list's **quick key**: `Some(0..=99)`, or `None` for "Off"/unassigned.
    pub quick_key: Option<u32>,
    /// The list's **number tag**: `Some(0..=99)`, or `None` for "Off"/unassigned.
    pub number_tag: Option<u32>,
}

/// ASCII case folding of one character.
pub open spec fn ascii_lower(c: char) -> char {
    if 'A' <= c <= 'Z' {
        ((c as u32) + 32) as char
    } else {
        c
    }
}

/// Equal up to ASCII case (`str::eq_ignore_ascii_case`).
pub open spec fn eq_ignore_ascii_case(a: Seq<char>, b: Seq<char>) -> bool {
    a.len() == b.len() && forall|i: int| 0 <= i < a.len() ==> #[trigger] ascii_lower(a[i]) == ascii_lower(b[i])
}

fn lower_char(c: char) -> (r: char)
    ensures
        r == ascii_lower(c),
{
    if 'A' <= c && c <= 'Z' {
        ((c as u8) + 32) as char
    } else {
        c
    }
}

/// Equal ignoring ASCII case (`str::eq_ignore_ascii_case`).
pub fn str_eq_ignore_ascii_case(a: &str, b: &str) -> (r: bool)
    ensures
        r == eq_ignore_ascii_case(a@, b@),
{
    let n = a.unicode_len();
    if n != b.unicode_len() {
        return false;
    }
    let mut i: usize = 0;
    while i < n
        invariant
            n == a@.len(),
            n == b@.len(),
            i <= n,
            forall|k: int| 0 <= k < i ==> #[trigger] ascii_lower(a@[k]) == ascii_lower(b@[k]),
        decreases n - i,
    {
        if lower_char(a.get_char(i)) != lower_char(b.get_char(i)) {
            return false;
        }
        i += 1;
    }
    true
}

/// What an `F-List` quick-key / number-tag field denotes: `"Off"` (any case) or
/// empty → none, else its number.
pub open spec fn spec_qk(field: Option<Seq<char>>) -> Option<u32> {
    match field {
        Some(s) => if s.len() > 0 && !eq_ignore_ascii_case(s, "Off"@) { spec_parse_u32(s) } else { None },
        None => None,
    }
}

/// Parse an `F-List` quick-key / number-tag field: `"Off"`/empty → `None`, else the
/// number.
pub fn parse_qk(field: Option<&str>) -> (r: Option<u32>)
    ensures
        r == spec_qk(opt_str_view(field)),
{
    match field {
        Some(s) => if s.unicode_len() > 0 && !str_eq_ignore_ascii_case(s, "Off") {
            parse_u32(s)
        } else {
            None
        },
        None => None,
    }
}

/// The field at an optional index.
pub open spec fn opt_field(l: SpecLine, col: Option<usize>) -> Option<Seq<char>> {
    match col {
        Some(i) => spec_field(l.fields, i as int),
        None => None,
    }
}

/// A field's text, or empty when the line is shorter.
pub open spec fn field_text(l: SpecLine, col: int) -> Seq<char> {
    match spec_field(l.fields, col) {
        Some(v) => v,
        None => Seq::empty(),
    }
}

/// What an `F-List` line registers: `(slot, name, filename, monitor, quick key,
/// number tag)`, when its filename names a slot.
pub open spec fn entry_of<P: SdCardProfile + ?Sized>(l: SpecLine, profile: &P) -> Option<(u32, Seq<char>, Seq<char>, bool, Option<u32>, Option<u32>)> {
    if cmd_of(l) == "F-List"@ {
        match spec_slot_of(field_text(l, 2)) {
            Some(slot) => Some(
                (
                    slot,
                    field_text(l, 1),
                    field_text(l, 2),
                    opt_field(l, profile.spec_f_list_fields().0) == Some("On"@),
                    spec_qk(opt_field(l, profile.spec_f_list_fields().1)),
                    spec_qk(opt_field(l, profile.spec_f_list_fields().2)),
                ),
            ),
            None => None,
        }
    } else {
        None
    }
}

/// A line with field `col` replaced by `v`.
pub open spec fn with_field(l: SpecLine, col: int, v: Seq<char>) -> SpecLine {
    SpecLine { fields: l.fields.update(col, v), ending: l.ending }
}

/// Writing a number's decimal text into the profile's NumberTag (or QuickKey)
/// column of a registered `F-List` line makes the entry's number tag (or quick
/// key) that number; writing `Off` there makes it none.
pub proof fn lemma_f_list_tags_read_their_columns<P: SdCardProfile + ?Sized>(
    l: SpecLine,
    profile: &P,
    quick_key: bool,
    col: usize,
    n: u32,
)
    requires
        entry_of(l, profile) is Some,
        (if quick_key { profile.spec_f_list_fields().1 } else { profile.spec_f_list_fields().2 }) == Some(col),
        col != 0,
        col != 2,
        col < l.fields.len(),
    ensures
        entry_of(with_field(l, col as int, decimal(n as nat)), profile) matches Some(e)
            && (if quick_key { e.4 } else { e.5 }) == Some(n),
        entry_of(with_field(l, col as int, "Off"@), profile) matches Some(e)
            && (if quick_key { e.4 } else { e.5 }) is None,
{
    reveal_strlit("Off");
    let d = decimal(n as nat);
    crate::text::lemma_decimal_parses_u64(n as u64);
    lemma_decimal_value(n as nat);
    let l1 = with_field(l, col as int, d);
    let l2 = with_field(l, col as int, "Off"@);
    assert(cmd_of(l1) == cmd_of(l) && field_text(l1, 2) == field_text(l, 2));
    assert(cmd_of(l2) == cmd_of(l) && field_text(l2, 2) == field_text(l, 2));
    assert(spec_field(l1.fields, col as int) == Some(d));
    assert(spec_field(l2.fields, col as int) == Some("Off"@));
    assert(!eq_ignore_ascii_case(d, "Off"@)) by {
        assert(is_digit(d[0]));
        if d.len() == 3 {
            assert(ascii_lower(d[0]) == d[0]);
            assert("Off"@[0] == 'O');
        }
    }
    assert(eq_ignore_ascii_case("Off"@, "Off"@));
}

/// An `F-List` entry is monitored exactly when the profile's Monitor column reads
/// `On`: writing `On` there turns monitoring on, writing `Off` turns it off.
pub proof fn lemma_f_list_monitor_column<P: SdCardProfile + ?Sized>(l: SpecLine, profile: &P, col: usize)
    requires
        entry_of(l, profile) is Some,
        profile.spec_f_list_fields().0 == Some(col),
        col != 0,
        col != 2,
        col < l.fields.len(),
    ensures
        entry_of(with_field(l, col as int, "On"@), profile) matches Some(e) && e.3,
        entry_of(with_field(l, col as int, "Off"@), profile) matches Some(e) && !e.3,
{
    reveal_strlit("On");
    reveal_strlit("Off");
    let l1 = with_field(l, col as int, "On"@);
    let l2 = with_field(l, col as int, "Off"@);
    assert(cmd_of(l1) == cmd_of(l) && field_text(l1, 2) == field_text(l, 2));
    assert(cmd_of(l2) == cmd_of(l) && field_text(l2, 2) == field_text(l, 2));
    assert(spec_field(l1.fields, col as int) == Some("On"@));
    assert(spec_field(l2.fields, col as int) == Some("Off"@));
    assert("Off"@ != "On"@) by {
        assert("Off"@.len() != "On"@.len());
    }
}

/// An `F-List` entry's number tag comes from the profile's NumberTag column
/// alone: changing any other field (but the command and the filename, which
/// decide whether the line registers a list at all) leaves it as it was.
pub proof fn lemma_number_tag_ignores_other_columns<P: SdCardProfile + ?Sized>(
    l: SpecLine,
    profile: &P,
    col: int,
    v: Seq<char>,
)
    requires
        entry_of(l, profile) is Some,
        profile.spec_f_list_fields().2 is Some,
        col != profile.spec_f_list_fields().2->0 as int,
        col != 0,
        col != 2,
        0 <= col < l.fields.len(),
    ensures
        entry_of(with_field(l, col, v), profile) matches Some(e) && e.5 == (entry_of(l, profile)->0).5,
{
    let l1 = with_field(l, col, v);
    let nt = profile.spec_f_list_fields().2->0 as int;
    assert(cmd_of(l1) == cmd_of(l) && field_text(l1, 2) == field_text(l, 2));
    assert(spec_field(l1.fields, nt) == spec_field(l.fields, nt));
}

/// The registered lists of an index, in order.
pub open spec fn spec_entries<P: SdCardProfile + ?Sized>(ls: Seq<SpecLine>, profile: &P) -> Seq<(u32, Seq<char>, Seq<char>, bool, Option<u32>, Option<u32>)>
    decreases ls.len(),
{
    if ls.len() == 0 {
        Seq::empty()
    } else {
        let prev = spec_entries(ls.drop_last(), profile);
        match entry_of(ls.last(), profile) {
            Some(e) => prev.push(e),
            None => prev,
        }
    }
}

/// The index fields of a list's info.
pub open spec fn info_entry(i: FavoriteListInfo) -> (u32, Seq<char>, Seq<char>, bool, Option<u32>, Option<u32>) {
    (i.slot, i.name@, i.filename@, i.monitor, i.quick_key, i.number_tag)
}

fn field_or_empty(l: &Line, col: usize) -> (r: String)
    ensures
        r@ == field_text(l@, col as int),
{
    match l.field(col) {
        Some(v) => copy_str(v),
        None => String::new(),
    }
}

fn opt_field_of(l: &Line, col: Option<usize>) -> (r: Option<&str>)
    ensures
        opt_str_view(r) == opt_field(l@, col),
{
    match col {
        Some(i) => l.field(i),
        None => None,
    }
}

/// Every favorites list registered in a parsed `f_list.cfg`, in index order (the
/// order shown on the scanner). Lines whose filename names no slot are skipped.
/// The counts and size come from the slot files and are left at zero here.
pub fn f_list_entries<P: SdCardProfile + ?Sized>(doc: &Document, profile: &P) -> (r: Vec<FavoriteListInfo>)
    ensures
        Seq::new(r@.len(), |i: int| info_entry(r@[i])) == spec_entries(doc@, profile),
        forall|i: int| 0 <= i < r@.len() ==> (#[trigger] r@[i]).systems == 0 && r@[i].channels == 0 && r@[i].bytes == 0,
{
    let ghost ls = doc@;
    let mut out: Vec<FavoriteListInfo> = Vec::new();
    let mut i: usize = 0;
    while i < doc.lines.len()
        invariant
            i <= doc.lines@.len(),
            ls == doc@,
            Seq::new(out@.len(), |k: int| info_entry(out@[k])) == spec_entries(ls.take(i as int), profile),
            forall|k: int| 0 <= k < out@.len() ==> (#[trigger] out@[k]).systems == 0 && out@[k].channels == 0 && out@[k].bytes == 0,
        decreases doc.lines@.len() - i,
    {
        let line = &doc.lines[i];
        proof {
            assert(ls.take(i + 1).drop_last() =~= ls.take(i as int));
            assert(ls.take(i + 1).last() == line@);
        }
        let ghost before = Seq::new(out@.len(), |k: int| info_entry(out@[k]));
        if line.is_command("F-List") {
            let name = field_or_empty(line, 1);
            let filename = field_or_empty(line, 2);
            match slot_from_filename(filename.as_str()) {
                Some(slot) => {
                    let mon = opt_field_of(line, profile.f_list_monitor_field());
                    let monitor = match mon {
                        Some(v) => str_eq(v, "On"),
                        None => false,
                    };
                    let quick_key = parse_qk(opt_field_of(line, profile.f_list_quick_key_field()));
                    let number_tag = parse_qk(opt_field_of(line, profile.f_list_number_tag_field()));
                    let info = FavoriteListInfo {
                        slot,
                        name,
                        filename,
                        systems: 0,
                        channels: 0,
                        bytes: 0,
                        monitor,
                        quick_key,
                        number_tag,
                    };
                    assert(Some(info_entry(info)) == entry_of(line@, profile));
                    out.push(info);
                    assert(Seq::new(out@.len(), |k: int| info_entry(out@[k])) =~= before.push(info_entry(info)));
                },
                None => {},
            }
        }
        i += 1;
    }
    assert(ls.take(doc.lines@.len() as int) =~= ls);
    out
}

/// The number of voice channels among some lines.
pub open spec fn count_voice(ls: Seq<SpecLine>) -> nat
    decreases ls.len(),
{
    if ls.len() == 0 {
        0
    } else {
        count_voice(ls.drop_last()) + if is_voice_cmd(cmd_of(ls.last())) { 1nat } else { 0nat }
    }
}

/// (systems, voice channels) in a favorites/HPDB document.
pub fn count_systems_channels<P: SdCardProfile + ?Sized>(doc: &Document, profile: &P) -> (r: (usize, usize))
    ensures
        r.0 == system_views(doc@).len(),
        r.1 == count_voice(doc@),
{
    let systems = Extraction::segment(doc, profile).system_count();
    let ghost ls = doc@;
    let mut channels: usize = 0;
    let mut i: usize = 0;
    while i < doc.lines.len()
        invariant
            i <= doc.lines@.len(),
            ls == doc@,
            channels == count_voice(ls.take(i as int)),
            channels <= i,
        decreases doc.lines@.len() - i,
    {
        proof {
            assert(ls.take(i + 1).drop_last() =~= ls.take(i as int));
            assert(ls.take(i + 1).last() == doc.lines@[i as int]@);
        }
        if is_voice_channel(doc.lines[i].command()) {
            channels += 1;
        }
        i += 1;
    }
    assert(ls.take(doc.lines@.len() as int) =~= ls);
    (systems, channels)
}

// ---------------------------------------------------------------------------
// Editing the favorites index.
// ---------------------------------------------------------------------------

/// The line registers the slot file `filename`.
pub open spec fn is_entry_for(l: SpecLine, filename: Seq<char>) -> bool {
    cmd_of(l) == "F-List"@ && spec_field(l.fields, 2) == Some(filename)
}

fn entry_for(l: &Line, filename: &str) -> (r: bool)
    ensures
        r == is_entry_for(l@, filename@),
{
    l.is_command("F-List") && match l.field(2) {
        Some(f) => str_eq(f, filename),
        None => false,
    }
}

/// The lines without the entry (or entries) for `filename`.
pub open spec fn without_entry(ls: Seq<SpecLine>, filename: Seq<char>) -> Seq<SpecLine>
    decreases ls.len(),
{
    if ls.len() == 0 {
        Seq::empty()
    } else {
        let prev = without_entry(ls.drop_last(), filename);
        if is_entry_for(ls.last(), filename) {
            prev
        } else {
            prev.push(ls.last())
        }
    }
}

/// The index with a slot's `F-List` entry removed (the file-format part of
/// removing a favorites list; the caller deletes the slot file and
/// `app_data.cfg`).
pub fn remove_f_list_entry(doc: &Document, slot: u32) -> (r: Document)
    ensures
        r@ == without_entry(doc@, slot_name(slot)),
{
    let filename = slot_filename(slot);
    let ghost ls = doc@;
    let mut lines: Vec<Line> = Vec::new();
    let mut i: usize = 0;
    while i < doc.lines.len()
        invariant
            i <= doc.lines@.len(),
            ls == doc@,
            filename@ == slot_name(slot),
            lines_view(lines@) == without_entry(ls.take(i as int), filename@),
        decreases doc.lines@.len() - i,
    {
        let l = &doc.lines[i];
        proof {
            assert(ls.take(i + 1).drop_last() =~= ls.take(i as int));
            assert(ls.take(i + 1).last() == l@);
        }
        if !entry_for(l, filename.as_str()) {
            let ghost before = lines_view(lines@);
            lines.push(l.duplicate());
            assert(lines_view(lines@) =~= before.push(l@));
        }
        i += 1;
    }
    assert(ls.take(doc.lines@.len() as int) =~= ls);
    Document { lines }
}

/// The lines that are not `F-List` entries, in order.
pub open spec fn non_entries(ls: Seq<SpecLine>) -> Seq<SpecLine>
    decreases ls.len(),
{
    if ls.len() == 0 {
        Seq::empty()
    } else {
        let prev = non_entries(ls.drop_last());
        if cmd_of(ls.last()) == "F-List"@ { prev } else { prev.push(ls.last()) }
    }
}

/// The `F-List` entries, in order.
pub open spec fn entries(ls: Seq<SpecLine>) -> Seq<SpecLine>
    decreases ls.len(),
{
    if ls.len() == 0 {
        Seq::empty()
    } else {
        let prev = entries(ls.drop_last());
        if cmd_of(ls.last()) == "F-List"@ { prev.push(ls.last()) } else { prev }
    }
}

/// Split the lines into the non-entries and the `F-List` entries.
fn partition_entries(doc: &Document) -> (r: (Vec<Line>, Vec<Line>))
    ensures
        lines_view(r.0@) == non_entries(doc@),
        lines_view(r.1@) == entries(doc@),
{
    let ghost ls = doc@;
    let mut others: Vec<Line> = Vec::new();
    let mut ents: Vec<Line> = Vec::new();
    let mut i: usize = 0;
    while i < doc.lines.len()
        invariant
            i <= doc.lines@.len(),
            ls == doc@,
            lines_view(others@) == non_entries(ls.take(i as int)),
            lines_view(ents@) == entries(ls.take(i as int)),
        decreases doc.lines@.len() - i,
    {
        let l = &doc.lines[i];
        proof {
            assert(ls.take(i + 1).drop_last() =~= ls.take(i as int));
            assert(ls.take(i + 1).last() == l@);
        }
        let ghost ob = lines_view(others@);
        let ghost eb = lines_view(ents@);
        if l.is_command("F-List") {
            ents.push(l.duplicate());
            assert(lines_view(ents@) =~= eb.push(l@));
        } else {
            others.push(l.duplicate());
            assert(lines_view(others@) =~= ob.push(l@));
        }
        i += 1;
    }
    assert(ls.take(doc.lines@.len() as int) =~= ls);
    (others, ents)
}

/// The sort key of an `F-List` entry: its name, lowercased.
pub open spec fn entry_keys(es: Seq<SpecLine>) -> Seq<Seq<char>> {
    Seq::new(es.len(), |k: int| lowercase(field_text(es[k], 1)))
}

/// Sorting the index lists each `F-List` entry once, ordered by list name (field 1)
/// compared case-insensitively, entries with the same name keeping their order.
pub proof fn lemma_sorted_entries_by_name(ls: Seq<SpecLine>, perm: Seq<int>)
    requires
        stable_order(perm, entry_keys(entries(ls))),
    ensures
        perm.len() == entries(ls).len(),
        forall|p: int, q: int| 0 <= p < q < perm.len() ==> perm[p] != perm[q],
        forall|p: int, q: int| 0 <= p < q < perm.len() ==> {
            let a = lowercase(field_text(entries(ls)[#[trigger] perm[p]], 1));
            let b = lowercase(field_text(entries(ls)[#[trigger] perm[q]], 1));
            seq_lt(a, b) || (a == b && perm[p] < perm[q])
        },
{
    assert forall|p: int, q: int| 0 <= p < q < perm.len() implies {
        let a = lowercase(field_text(entries(ls)[#[trigger] perm[p]], 1));
        let b = lowercase(field_text(entries(ls)[#[trigger] perm[q]], 1));
        seq_lt(a, b) || (a == b && perm[p] < perm[q])
    } by {
        assert(key_before(entry_keys(entries(ls)), perm[p], perm[q]));
    }
}

/// Reorder the favorites lists **alphabetically by name** (case-insensitively,
/// stable for equal names) — the order the scanner shows them. Header and any
/// non-`F-List` lines stay first, in order.
pub fn sort_f_list(doc: &Document) -> (r: Document)
    ensures
        exists|perm: Seq<int>|
            #[trigger] stable_order(perm, entry_keys(entries(doc@))) && r@ == non_entries(doc@) + Seq::new(
                entries(doc@).len(),
                |p: int| entries(doc@)[perm[p]],
            ),
{
    let (others, ents) = partition_entries(doc);
    let ghost es = lines_view(ents@);
    let mut keys: Vec<String> = Vec::new();
    let mut k: usize = 0;
    while k < ents.len()
        invariant
            k <= ents@.len(),
            es == lines_view(ents@),
            keys@.len() == k,
            forall|m: int| 0 <= m < k ==> (#[trigger] keys@[m])@ == entry_keys(es)[m],
        decreases ents@.len() - k,
    {
        let name = field_or_empty(&ents[k], 1);
        keys.push(to_lowercase(name.as_str()));
        k += 1;
    }
    assert(Seq::new(keys@.len(), |m: int| keys@[m]@) =~= entry_keys(es));
    let order = stable_sort_indices(&keys);
    let ghost perm = Seq::new(order@.len(), |p: int| order@[p] as int);
    let mut lines = others;
    let ghost base = lines_view(lines@);
    let mut p: usize = 0;
    while p < order.len()
        invariant
            p <= order@.len(),
            order@.len() == es.len(),
            es == lines_view(ents@),
            perm == Seq::new(order@.len(), |p: int| order@[p] as int),
            forall|q: int| 0 <= q < order@.len() ==> (#[trigger] order@[q]) < es.len(),
            lines_view(lines@) == base + Seq::new(p as nat, |q: int| es[perm[q]]),
        decreases order@.len() - p,
    {
        let ghost before = lines_view(lines@);
        lines.push(ents[order[p]].duplicate());
        assert(ents@[order@[p as int] as int]@ == es[perm[p as int]]);
        assert(lines_view(lines@) =~= before.push(es[perm[p as int]]));
        assert(lines_view(lines@) =~= base + Seq::new((p + 1) as nat, |q: int| es[perm[q]]));
        p += 1;
    }
    assert(stable_order(perm, entry_keys(es)));
    Document { lines }
}

/// The index of the first entry for `filename`.
pub open spec fn first_entry(es: Seq<SpecLine>, filename: Seq<char>) -> Option<int>
    decreases es.len(),
{
    if es.len() == 0 {
        None
    } else {
        match first_entry(es.drop_last(), filename) {
            Some(i) => Some(i),
            None => if spec_field(es.last().fields, 2) == Some(filename) { Some(es.len() - 1) } else { None },
        }
    }
}

/// Moving the entries named by the first `n` slots, in slot order: the entries
/// moved so far and those left, in their original order.
pub open spec fn reorder_state(es: Seq<SpecLine>, slots: Seq<u32>, n: int) -> (Seq<SpecLine>, Seq<SpecLine>)
    decreases n,
{
    if n <= 0 {
        (Seq::empty(), es)
    } else {
        let (ordered, rest) = reorder_state(es, slots, n - 1);
        match first_entry(rest, slot_name(slots[n - 1])) {
            Some(p) => (ordered.push(rest[p]), rest.remove(p)),
            None => (ordered, rest),
        }
    }
}

proof fn lemma_first_entry_found(es: Seq<SpecLine>, filename: Seq<char>, i: int)
    requires
        0 <= i < es.len(),
        spec_field(es[i].fields, 2) == Some(filename),
        forall|j: int| 0 <= j < i ==> spec_field((#[trigger] es[j]).fields, 2) != Some(filename),
    ensures
        first_entry(es, filename) == Some(i),
    decreases es.len(),
{
    if i < es.len() - 1 {
        assert(es.drop_last()[i] == es[i]);
        assert forall|j: int| 0 <= j < i implies spec_field((#[trigger] es.drop_last()[j]).fields, 2) != Some(filename) by {
            assert(es.drop_last()[j] == es[j]);
        }
        lemma_first_entry_found(es.drop_last(), filename, i);
    } else {
        lemma_first_entry_none(es.drop_last(), filename);
    }
}

proof fn lemma_first_entry_none(es: Seq<SpecLine>, filename: Seq<char>)
    requires
        forall|j: int| 0 <= j < es.len() ==> spec_field((#[trigger] es[j]).fields, 2) != Some(filename),
    ensures
        first_entry(es, filename) is None,
    decreases es.len(),
{
    if es.len() > 0 {
        assert forall|j: int| 0 <= j < es.len() - 1 implies spec_field((#[trigger] es.drop_last()[j]).fields, 2) != Some(filename) by {
            assert(es.drop_last()[j] == es[j]);
        }
        lemma_first_entry_none(es.drop_last(), filename);
        assert(spec_field(es[es.len() - 1].fields, 2) != Some(filename));
    }
}

/// Position of the first entry for `filename`.
fn find_entry(es: &Vec<Line>, filename: &str) -> (r: Option<usize>)
    ensures
        match first_entry(lines_view(es@), filename@) {
            Some(i) => r matches Some(j) && j as int == i && 0 <= i < es@.len(),
            None => r is None,
        },
{
    let ghost rv = lines_view(es@);
    let mut pos: usize = 0;
    while pos < es.len()
        invariant
            pos <= es@.len(),
            rv == lines_view(es@),
            forall|j: int| 0 <= j < pos ==> spec_field((#[trigger] rv[j]).fields, 2) != Some(filename@),
        decreases es@.len() - pos,
    {
        let hit = match es[pos].field(2) {
            Some(f) => str_eq(f, filename),
            None => false,
        };
        assert(es@[pos as int]@ == rv[pos as int]);
        if hit {
            proof { lemma_first_entry_found(rv, filename@, pos as int); }
            return Some(pos);
        }
        pos += 1;
    }
    proof { lemma_first_entry_none(rv, filename@); }
    None
}

/// Reorder the favorites lists into the given slot order (the scanner display
/// order). Slots not listed keep their relative order at the end; the header and
/// other lines stay first.
pub fn reorder_f_list(doc: &Document, slots: &[u32]) -> (r: Document)
    ensures
        r@ == non_entries(doc@) + reorder_state(entries(doc@), slots@, slots@.len() as int).0 + reorder_state(
            entries(doc@),
            slots@,
            slots@.len() as int,
        ).1,
{
    let (others, mut rest) = partition_entries(doc);
    let ghost es = entries(doc@);
    let mut ordered: Vec<Line> = Vec::new();
    let mut k: usize = 0;
    while k < slots.len()
        invariant
            k <= slots@.len(),
            es == entries(doc@),
            lines_view(ordered@) == reorder_state(es, slots@, k as int).0,
            lines_view(rest@) == reorder_state(es, slots@, k as int).1,
        decreases slots@.len() - k,
    {
        let filename = slot_filename(slots[k]);
        let ghost rv = lines_view(rest@);
        let found = find_entry(&rest, filename.as_str());
        let ghost ob = lines_view(ordered@);
        if let Some(pos) = found {
            let l = rest.remove(pos);
            ordered.push(l);
            assert(lines_view(ordered@) =~= ob.push(rv[pos as int]));
            assert(lines_view(rest@) =~= rv.remove(pos as int));
        }
        k += 1;
    }
    let ghost a = lines_view(others@);
    let ghost b = lines_view(ordered@);
    let ghost c = lines_view(rest@);
    let mut lines = others;
    lines.append(&mut ordered);
    lines.append(&mut rest);
    assert(lines_view(lines@) =~= a + b + c);
    Document { lines }
}

// ---------------------------------------------------------------------------
// Rebuilding the favorites index.
// ---------------------------------------------------------------------------

/// A fresh config document with just the model header sentences.
pub fn new_index_doc<P: SdCardProfile + ?Sized>(profile: &P) -> (r: Document)
    ensures
        r@ == seq![
            SpecLine { fields: seq!["TargetModel"@, profile.spec_model_key().0], ending: LineEnding::Crlf },
            SpecLine { fields: seq!["FormatVersion"@, profile.spec_model_key().1], ending: LineEnding::Crlf },
        ],
{
    let key = profile.model_key();
    let mut a: Vec<String> = Vec::new();
    a.push(copy_str("TargetModel"));
    a.push(key.target_model);
    let mut b: Vec<String> = Vec::new();
    b.push(copy_str("FormatVersion"));
    b.push(key.format_version);
    let mut lines: Vec<Line> = Vec::new();
    lines.push(Line { fields: a, ending: LineEnding::Crlf });
    lines.push(Line { fields: b, ending: LineEnding::Crlf });
    let r = Document { lines };
    assert(r@[0].fields =~= seq!["TargetModel"@, profile.spec_model_key().0]);
    assert(r@[1].fields =~= seq!["FormatVersion"@, profile.spec_model_key().1]);
    assert(r@ =~= seq![
        SpecLine { fields: seq!["TargetModel"@, profile.spec_model_key().0], ending: LineEnding::Crlf },
        SpecLine { fields: seq!["FormatVersion"@, profile.spec_model_key().1], ending: LineEnding::Crlf },
    ]);
    r
}

/// The fields of the first entry for `filename`, if any.
pub open spec fn spec_fields_for(ls: Seq<SpecLine>, filename: Seq<char>) -> Option<Seq<Seq<char>>>
    decreases ls.len(),
{
    if ls.len() == 0 {
        None
    } else {
        match spec_fields_for(ls.drop_last(), filename) {
            Some(f) => Some(f),
            None => if is_entry_for(ls.last(), filename) { Some(ls.last().fields) } else { None },
        }
    }
}

/// The existing `F-List` field vector for `filename` in a parsed index, if present —
/// so a rewrite can carry a list's record through verbatim.
pub fn f_list_fields_for(doc: &Document, filename: &str) -> (r: Option<Vec<String>>)
    ensures
        opt_strings_view(r) == spec_fields_for(doc@, filename@),
{
    let ghost ls = doc@;
    let mut i: usize = 0;
    while i < doc.lines.len()
        invariant
            i <= doc.lines@.len(),
            ls == doc@,
            spec_fields_for(ls.take(i as int), filename@) is None,
        decreases doc.lines@.len() - i,
    {
        let l = &doc.lines[i];
        proof {
            assert(ls.take(i + 1).drop_last() =~= ls.take(i as int));
            assert(ls.take(i + 1).last() == l@);
        }
        if entry_for(l, filename) {
            proof { lemma_fields_for_prefix(ls, filename@, i as int); }
            return Some(copy_strings(&l.fields));
        }
        i += 1;
    }
    assert(ls.take(doc.lines@.len() as int) =~= ls);
    None
}

proof fn lemma_fields_for_prefix(ls: Seq<SpecLine>, filename: Seq<char>, i: int)
    requires
        0 <= i < ls.len(),
        spec_fields_for(ls.take(i), filename) is None,
        is_entry_for(ls[i], filename),
    ensures
        spec_fields_for(ls, filename) == Some(ls[i].fields),
    decreases ls.len(),
{
    assert(ls.take(i + 1).drop_last() =~= ls.take(i));
    if ls.len() > i + 1 {
        assert(ls.drop_last().take(i) =~= ls.take(i));
        lemma_fields_for_prefix(ls.drop_last(), filename, i);
    } else {
        assert(ls.take(i + 1) =~= ls);
    }
}

/// One desired `F-List` entry for a layout pass. `monitor`/`quick_key`/`number_tag`
/// are per-field overrides: `None` leaves the existing field as-is (preserved),
/// `Some(..)` sets it. `quick_key`/`number_tag` values are the raw field string
/// (`"Off"` or `"0".."99"`).
#[derive(Debug, Clone)]
pub struct ListLayout {
    pub slot: u32,
    pub name: String,
    pub monitor: Option<bool>,
    pub quick_key: Option<String>,
    pub number_tag: Option<String>,
}

impl ListLayout {
    /// A rename/reorder-only entry (leaves Monitor/quick-key/number-tag untouched).
    pub fn new(slot: u32, name: &str) -> (r: Self)
        ensures
            r.slot == slot,
            r.name@ == name@,
            r.monitor is None,
            r.quick_key is None,
            r.number_tag is None,
    {
        ListLayout { slot, name: copy_str(name), monitor: None, quick_key: None, number_tag: None }
    }
}

/// Set field `col` (when present and inside the fields) to `v`.
pub open spec fn override_field(fs: Seq<Seq<char>>, col: Option<usize>, v: Seq<char>) -> Seq<Seq<char>> {
    match col {
        Some(i) => if i < fs.len() { fs.update(i as int, v) } else { fs },
        None => fs,
    }
}

/// The base fields of a layout entry: the existing record with the new name, or
/// the profile's default block for a brand-new slot.
pub open spec fn base_fields<P: SdCardProfile + ?Sized>(
    existing: Option<Seq<SpecLine>>,
    profile: &P,
    slot: u32,
    name: Seq<char>,
) -> Option<Seq<Seq<char>>> {
    let kept = match existing {
        Some(ls) => spec_fields_for(ls, slot_name(slot)),
        None => None,
    };
    match kept {
        Some(f) => Some(if f.len() > 1 { f.update(1, name) } else { f }),
        None => profile.spec_f_list_entry(name, slot_name(slot)),
    }
}

/// The `F-List` fields a layout entry becomes: its base fields with the requested
/// overrides applied.
pub open spec fn layout_fields<P: SdCardProfile + ?Sized>(
    existing: Option<Seq<SpecLine>>,
    profile: &P,
    l: ListLayout,
) -> Option<Seq<Seq<char>>> {
    match base_fields(existing, profile, l.slot, l.name@) {
        Some(f0) => {
            let f1 = match l.monitor {
                Some(b) => override_field(f0, profile.spec_f_list_fields().0, if b { "On"@ } else { "Off"@ }),
                None => f0,
            };
            let f2 = match l.quick_key {
                Some(v) => override_field(f1, profile.spec_f_list_fields().1, v@),
                None => f1,
            };
            let f3 = match l.number_tag {
                Some(v) => override_field(f2, profile.spec_f_list_fields().2, v@),
                None => f2,
            };
            Some(f3)
        },
        None => None,
    }
}

fn set_if(fields: &mut Vec<String>, col: Option<usize>, val: &str)
    ensures
        strings_view(final(fields)@) == override_field(strings_view(old(fields)@), col, val@),
{
    match col {
        Some(i) => {
            if i < fields.len() {
                let ghost before = strings_view(fields@);
                fields.set(i, copy_str(val));
                assert(strings_view(fields@) =~= before.update(i as int, val@));
            }
        },
        None => {},
    }
}

pub open spec fn opt_doc_view(d: Option<&Document>) -> Option<Seq<SpecLine>> {
    match d {
        Some(x) => Some(x@),
        None => None,
    }
}

/// Apply the full desired favorites layout: `lists` becomes the complete, ordered
/// set of `F-List` entries of a fresh `f_list.cfg` (the model header first). Each
/// surviving list's existing record is carried through verbatim — only the display
/// name and the requested override fields change; the profile's default block is
/// used **only for a brand-new slot**. Fails when a new slot needs the default
/// block and the model has none.
pub fn layout_f_list<P: SdCardProfile + ?Sized>(existing: Option<&Document>, profile: &P, lists: &[ListLayout]) -> (r: Result<Document>)
    ensures
        match r {
            Ok(d) => {
                &&& forall|k: int| 0 <= k < lists@.len() ==> (#[trigger] layout_fields(opt_doc_view(existing), profile, lists@[k])) is Some
                &&& d@.len() == 2 + lists@.len()
                &&& d@.take(2) == new_index_doc_view(profile)
                &&& forall|k: int| 0 <= k < lists@.len() ==> #[trigger] d@[2 + k] == (SpecLine {
                    fields: layout_fields(opt_doc_view(existing), profile, lists@[k])->0,
                    ending: LineEnding::Crlf,
                })
            },
            Err(e) => {
                &&& e == Error::Unsupported("model has no F-List format")
                &&& exists|k: int| 0 <= k < lists@.len() && (#[trigger] layout_fields(opt_doc_view(existing), profile, lists@[k])) is None
            },
        },
{
    let mut doc = new_index_doc(profile);
    let ghost head = doc@;
    let mut k: usize = 0;
    while k < lists.len()
        invariant
            k <= lists@.len(),
            head == new_index_doc_view(profile),
            doc@.len() == 2 + k,
            doc@.take(2) == head,
            forall|m: int| 0 <= m < k ==> (#[trigger] layout_fields(opt_doc_view(existing), profile, lists@[m])) is Some,
            forall|m: int| 0 <= m < k ==> #[trigger] doc@[2 + m] == (SpecLine {
                fields: layout_fields(opt_doc_view(existing), profile, lists@[m])->0,
                ending: LineEnding::Crlf,
            }),
        decreases lists@.len() - k,
    {
        let list = &lists[k];
        let filename = slot_filename(list.slot);
        let kept = match existing {
            Some(d) => f_list_fields_for(d, filename.as_str()),
            None => None,
        };
        let base = match kept {
            Some(mut f) => {
                if f.len() > 1 {
                    let ghost fb = strings_view(f@);
                    f.set(1, copy_str(list.name.as_str()));
                    assert(strings_view(f@) =~= fb.update(1, list.name@));
                }
                Some(f)
            },
            None => profile.f_list_entry(list.name.as_str(), filename.as_str()),
        };
        let mut fields = match base {
            Some(f) => f,
            None => {
                return Err(Error::Unsupported("model has no F-List format"));
            },
        };
        match list.monitor {
            Some(b) => set_if(&mut fields, profile.f_list_monitor_field(), if b { "On" } else { "Off" }),
            None => {},
        }
        match &list.quick_key {
            Some(v) => set_if(&mut fields, profile.f_list_quick_key_field(), v.as_str()),
            None => {},
        }
        match &list.number_tag {
            Some(v) => set_if(&mut fields, profile.f_list_number_tag_field(), v.as_str()),
            None => {},
        }
        assert(strings_view(fields@) == layout_fields(opt_doc_view(existing), profile, *list)->0);
        let ghost before = doc@;
        doc.lines.push(Line { fields, ending: LineEnding::Crlf });
        assert(doc@ =~= before.push(SpecLine { fields: layout_fields(opt_doc_view(existing), profile, lists@[k as int])->0, ending: LineEnding::Crlf }));
        k += 1;
    }
    Ok(doc)
}

/// The header lines of a fresh index.
pub open spec fn new_index_doc_view<P: SdCardProfile + ?Sized>(profile: &P) -> Seq<SpecLine> {
    seq![
        SpecLine { fields: seq!["TargetModel"@, profile.spec_model_key().0], ending: LineEnding::Crlf },
        SpecLine { fields: seq!["FormatVersion"@, profile.spec_model_key().1], ending: LineEnding::Crlf },
    ]
}

/// The slots an index registers that a layout drops, in index order: their slot
/// files are to be removed.
pub open spec fn spec_dropped(ls: Seq<SpecLine>, keep: Seq<u32>) -> Seq<u32>
    decreases ls.len(),
{
    if ls.len() == 0 {
        Seq::empty()
    } else {
        let prev = spec_dropped(ls.drop_last(), keep);
        if cmd_of(ls.last()) == "F-List"@ {
            match spec_field(ls.last().fields, 2) {
                Some(f) => match spec_slot_of(f) {
                    Some(s) => if !keep.contains(s) { prev.push(s) } else { prev },
                    None => prev,
                },
                None => prev,
            }
        } else {
            prev
        }
    }
}

/// The slots registered in `existing` that `lists` no longer names — a layout pass
/// deletes their slot files.
pub fn dropped_slots(existing: &Document, lists: &[ListLayout]) -> (r: Vec<u32>)
    ensures
        r@ == spec_dropped(existing@, Seq::new(lists@.len(), |k: int| lists@[k].slot)),
{
    let ghost keep = Seq::new(lists@.len(), |k: int| lists@[k].slot);
    let ghost ls = existing@;
    let mut out: Vec<u32> = Vec::new();
    let mut i: usize = 0;
    while i < existing.lines.len()
        invariant
            i <= existing.lines@.len(),
            ls == existing@,
            keep == Seq::new(lists@.len(), |k: int| lists@[k].slot),
            out@ == spec_dropped(ls.take(i as int), keep),
        decreases existing.lines@.len() - i,
    {
        let l = &existing.lines[i];
        proof {
            assert(ls.take(i + 1).drop_last() =~= ls.take(i as int));
            assert(ls.take(i + 1).last() == l@);
        }
        if l.is_command("F-List") {
            match l.field(2) {
                Some(f) => match slot_from_filename(f) {
                    Some(s) => {
                        let mut kept = false;
                        let mut j: usize = 0;
                        while j < lists.len()
                            invariant
                                j <= lists@.len(),
                                keep == Seq::new(lists@.len(), |k: int| lists@[k].slot),
                                kept == keep.take(j as int).contains(s),
                            decreases lists@.len() - j,
                        {
                            proof {
                                assert(keep.take(j + 1) =~= keep.take(j as int).push(keep[j as int]));
                            }
                            if lists[j].slot == s {
                                kept = true;
                                assert(keep.take(j + 1)[j as int] == s);
                            }
                            proof {
                                if keep.take(j + 1).contains(s) && !keep.take(j as int).contains(s) {
                                    let w = choose|w: int| 0 <= w < j + 1 && #[trigger] keep.take(j + 1)[w] == s;
                                    if w < j {
                                        assert(keep.take(j as int)[w] == s);
                                    }
                                }
                                if keep.take(j as int).contains(s) {
                                    let w = choose|w: int| 0 <= w < j && #[trigger] keep.take(j as int)[w] == s;
                                    assert(keep.take(j + 1)[w] == s);
                                }
                            }
                            j += 1;
                        }
                        assert(keep.take(lists@.len() as int) =~= keep);
                        if !kept {
                            out.push(s);
                        }
                    },
                    None => {},
                },
                None => {},
            }
        }
        i += 1;
    }
    assert(ls.take(existing.lines@.len() as int) =~= ls);
    out
}

/// What adding or replacing a slot's entry makes of an index: an existing entry
/// changes only its display name (every other field is kept verbatim); a new one
/// gets the profile's default block.
pub open spec fn spec_update_entry<P: SdCardProfile + ?Sized>(
    ls: Seq<SpecLine>,
    profile: &P,
    slot: u32,
    label: Seq<char>,
) -> Option<Seq<SpecLine>> {
    match first_entry_line(ls, slot_name(slot)) {
        Some(i) => Some(
            if ls[i].fields.len() > 1 {
                ls.update(i, SpecLine { fields: ls[i].fields.update(1, label), ending: ls[i].ending })
            } else {
                ls
            },
        ),
        None => match profile.spec_f_list_entry(label, slot_name(slot)) {
            Some(f) => Some(ls.push(SpecLine { fields: f, ending: LineEnding::Crlf })),
            None => None,
        },
    }
}

/// Index of the first entry line for `filename`.
pub open spec fn first_entry_line(ls: Seq<SpecLine>, filename: Seq<char>) -> Option<int>
    decreases ls.len(),
{
    if ls.len() == 0 {
        None
    } else {
        match first_entry_line(ls.drop_last(), filename) {
            Some(i) => Some(i),
            None => if is_entry_for(ls.last(), filename) { Some(ls.len() - 1) } else { None },
        }
    }
}

proof fn lemma_first_entry_line(ls: Seq<SpecLine>, filename: Seq<char>, i: int)
    requires
        0 <= i <= ls.len(),
        forall|j: int| 0 <= j < i ==> !is_entry_for(#[trigger] ls[j], filename),
        i < ls.len() ==> is_entry_for(ls[i], filename),
    ensures
        first_entry_line(ls, filename) == if i < ls.len() { Some(i) } else { None::<int> },
    decreases ls.len(),
{
    if ls.len() > 0 {
        if i < ls.len() - 1 {
            assert(ls.drop_last()[i] == ls[i]);
            assert forall|j: int| 0 <= j < i implies !is_entry_for(#[trigger] ls.drop_last()[j], filename) by {
                assert(ls.drop_last()[j] == ls[j]);
            }
            lemma_first_entry_line(ls.drop_last(), filename, i);
        } else {
            assert forall|j: int| 0 <= j < ls.len() - 1 implies !is_entry_for(#[trigger] ls.drop_last()[j], filename) by {
                assert(ls.drop_last()[j] == ls[j]);
            }
            lemma_first_entry_line(ls.drop_last(), filename, ls.len() - 1);
        }
    }
}

/// Add or replace the `F-List` entry for `slot` in an index, preserving the header
/// and any other lists. Fails when a new slot needs the default block and the model
/// has none.
pub fn update_f_list_entry<P: SdCardProfile + ?Sized>(doc: &Document, profile: &P, slot: u32, label: &str) -> (r: Result<Document>)
    ensures
        match spec_update_entry(doc@, profile, slot, label@) {
            Some(ls) => r matches Ok(d) && d@ == ls,
            None => r == Err::<Document, Error>(Error::Unsupported("model has no F-List format")),
        },
{
    let filename = slot_filename(slot);
    let ghost ls = doc@;
    let mut out = doc.duplicate();
    let mut i: usize = 0;
    while i < doc.lines.len()
        invariant
            i <= doc.lines@.len(),
            ls == doc@,
            out@ == ls,
            filename@ == slot_name(slot),
            forall|j: int| 0 <= j < i ==> !is_entry_for(#[trigger] ls[j], filename@),
        decreases doc.lines@.len() - i,
    {
        if entry_for(&doc.lines[i], filename.as_str()) {
            proof { lemma_first_entry_line(ls, filename@, i as int); }
            if doc.lines[i].fields.len() > 1 {
                let mut line = doc.lines[i].duplicate();
                assert(line@.fields.len() == line.fields@.len());
                line.fields.set(1, copy_str(label));
                assert(line@.fields =~= ls[i as int].fields.update(1, label@));
                out.lines.set(i, line);
                assert(out@ =~= ls.update(i as int, SpecLine { fields: ls[i as int].fields.update(1, label@), ending: ls[i as int].ending }));
            }
            return Ok(out);
        }
        i += 1;
    }
    proof { lemma_first_entry_line(ls, filename@, ls.len() as int); }
    match profile.f_list_entry(label, filename.as_str()) {
        Some(fields) => {
            let ghost fv = strings_view(fields@);
            out.lines.push(Line { fields, ending: LineEnding::Crlf });
            assert(out@ =~= ls.push(SpecLine { fields: fv, ending: LineEnding::Crlf }));
            Ok(out)
        },
        None => Err(Error::Unsupported("model has no F-List format")),
    }
}

// ---------------------------------------------------------------------------
// The card's favorites configuration as JSON.
// ---------------------------------------------------------------------------

pub open spec fn opt_nat32(o: Option<u32>) -> Option<nat> {
    match o {
        Some(n) => Some(n as nat),
        None => None,
    }
}

/// A list's slot, name, filename and counts.
pub open spec fn list_part1(l: FavoriteListInfo) -> Seq<char> {
    "{\"slot\":"@ + decimal(l.slot as nat) + ",\"name\":"@ + jstr(l.name@) + ",\"filename\":"@ + jstr(l.filename@)
        + ",\"systems\":"@ + decimal(l.systems as nat) + ",\"channels\":"@ + decimal(l.channels as nat)
}

/// A list's size and `F-List` settings, and the closing brace.
pub open spec fn list_part2(l: FavoriteListInfo) -> Seq<char> {
    ",\"bytes\":"@ + decimal(l.bytes as nat) + ",\"monitor\":"@ + jbool(l.monitor) + ",\"quickKey\":"@ + jopt_num(
        opt_nat32(l.quick_key),
    ) + ",\"numberTag\":"@ + jopt_num(opt_nat32(l.number_tag)) + "}"@
}

/// One list as JSON.
#[verifier::opaque]
pub open spec fn json_list_info(l: FavoriteListInfo) -> Seq<char> {
    list_part1(l) + list_part2(l)
}

/// A value field's options as a JSON member: `"<field>":[<values>]`.
pub open spec fn json_option_entry(field: Seq<char>, options: Seq<Seq<char>>) -> Seq<char> {
    jstr(field) + ":["@ + crate::ui::join(Seq::new(options.len(), |i: int| jstr(options[i]))) + "]"@
}

/// The option members of the value fields that have enumerated options.
pub open spec fn option_entries<P: SdCardProfile + ?Sized>(fields: Seq<Seq<char>>, p: &P) -> Seq<Seq<char>>
    decreases fields.len(),
{
    if fields.len() == 0 {
        Seq::empty()
    } else {
        let prev = option_entries(fields.drop_last(), p);
        let os = p.spec_channel_value_options(fields.last());
        if os.len() == 0 {
            prev
        } else {
            prev.push(json_option_entry(fields.last(), os))
        }
    }
}

/// The model, its id and limits, and the opening of the value options.
pub open spec fn card_head<P: SdCardProfile + ?Sized>(p: &P) -> Seq<char> {
    "{\"model\":"@ + jstr(p.spec_product_name()) + ",\"modelId\":"@ + jopt_str(p.spec_serial_model_id())
        + ",\"maxFavorites\":"@ + decimal(p.spec_limits().max_favorites_lists as nat) + ",\"maxListBytes\":"@
        + decimal(p.spec_limits().max_favorite_list_bytes as nat) + ",\"quickKeys\":"@ + decimal(
        p.spec_limits().quick_keys as nat,
    ) + ",\"channelValueOptions\":{"@
}

/// The card's favorites configuration: model, limits, per-channel value options,
/// and the lists.
pub open spec fn json_card_favorites<P: SdCardProfile + ?Sized>(p: &P, lists: Seq<FavoriteListInfo>) -> Seq<char> {
    card_head(p) + crate::ui::join(option_entries(p.spec_channel_value_fields(), p)) + "},\"lists\":["@ + crate::ui::join(
        Seq::new(lists.len(), |i: int| json_list_info(lists[i])),
    ) + "]}"@
}

proof fn lemma_join_push(s: Seq<Seq<char>>, x: Seq<char>)
    ensures
        crate::ui::join(s.push(x)) == crate::ui::join(s) + (if s.len() > 0 { ","@ } else { Seq::empty() }) + x,
{
    let t = s.push(x);
    assert(t.drop_last() =~= s);
    if s.len() == 0 {
        assert(t.len() == 1);
        assert(Seq::<char>::empty() + Seq::<char>::empty() + x =~= x);
    }
}

#[verifier::rlimit(30)]
fn push_list_info(out: &mut String, l: &FavoriteListInfo)
    ensures
        final(out)@ == old(out)@ + json_list_info(*l),
{
    let ghost o0 = out@;
    push_str(out, "{\"slot\":");
    push_decimal(out, l.slot as u64);
    push_str(out, ",\"name\":");
    push_json_string(out, l.name.as_str());
    push_str(out, ",\"filename\":");
    push_json_string(out, l.filename.as_str());
    push_str(out, ",\"systems\":");
    push_decimal(out, l.systems as u64);
    push_str(out, ",\"channels\":");
    push_decimal(out, l.channels as u64);
    assert(out@ =~= o0 + list_part1(*l));
    let ghost o1 = out@;
    push_str(out, ",\"bytes\":");
    push_decimal(out, l.bytes);
    push_str(out, ",\"monitor\":");
    push_bool(out, l.monitor);
    push_str(out, ",\"quickKey\":");
    let qk = match l.quick_key {
        Some(n) => Some(n as u64),
        None => None,
    };
    assert(crate::ui::opt_nat64(qk) == opt_nat32(l.quick_key));
    push_opt_num(out, qk);
    push_str(out, ",\"numberTag\":");
    let nt = match l.number_tag {
        Some(n) => Some(n as u64),
        None => None,
    };
    assert(crate::ui::opt_nat64(nt) == opt_nat32(l.number_tag));
    push_opt_num(out, nt);
    push_str(out, "}");
    assert(out@ =~= o1 + list_part2(*l));
    proof { reveal(json_list_info); }
    assert(out@ =~= o0 + json_list_info(*l));
}

fn push_option_entry(out: &mut String, field: &str, options: &Vec<String>)
    ensures
        final(out)@ == old(out)@ + json_option_entry(field@, strings_view(options@)),
{
    let ghost o0 = out@;
    let ghost os = strings_view(options@);
    push_json_string(out, field);
    push_str(out, ":[");
    let ghost head = out@;
    let ghost items = Seq::new(os.len(), |i: int| jstr(os[i]));
    let mut k: usize = 0;
    assert(items.take(0) =~= Seq::<Seq<char>>::empty());
    while k < options.len()
        invariant
            k <= options@.len(),
            os == strings_view(options@),
            items == Seq::new(os.len(), |i: int| jstr(os[i])),
            out@ == head + crate::ui::join(items.take(k as int)),
        decreases options@.len() - k,
    {
        proof { lemma_join_step(items, k as int); }
        if k > 0 {
            push_str(out, ",");
        }
        push_json_string(out, options[k].as_str());
        assert(out@ =~= head + crate::ui::join(items.take(k + 1)));
        k += 1;
    }
    assert(items.take(items.len() as int) =~= items);
    push_str(out, "]");
    assert(out@ =~= o0 + json_option_entry(field@, os));
}

/// The card's favorites configuration as JSON, for a model and the lists read
/// from its card: `model`, `modelId`, `maxFavorites`, `maxListBytes`,
/// `quickKeys`, `channelValueOptions` (each value field with enumerated options,
/// with its values in on-radio order) and `lists` (per list `slot`, `name`,
/// `filename`, `systems`, `channels`, `bytes`, `monitor`, `quickKey`,
/// `numberTag`; a quick key or number tag that is off is `null`).
pub fn card_favorites_json<P: SdCardProfile + ?Sized>(profile: &P, lists: &[FavoriteListInfo]) -> (r: String)
    ensures
        r@ == json_card_favorites(profile, lists@),
{
    let mut out = String::new();
    push_str(&mut out, "{\"model\":");
    push_json_string(&mut out, profile.product_name());
    push_str(&mut out, ",\"modelId\":");
    match profile.serial_model_id() {
        Some(id) => push_json_string(&mut out, id),
        None => push_str(&mut out, "null"),
    }
    let limits = profile.limits();
    push_str(&mut out, ",\"maxFavorites\":");
    push_decimal(&mut out, limits.max_favorites_lists as u64);
    push_str(&mut out, ",\"maxListBytes\":");
    push_decimal(&mut out, limits.max_favorite_list_bytes);
    push_str(&mut out, ",\"quickKeys\":");
    push_decimal(&mut out, limits.quick_keys as u64);
    push_str(&mut out, ",\"channelValueOptions\":{");
    assert(out@ =~= card_head(profile));
    let ghost head = out@;
    let fields = profile.channel_value_fields();
    let ghost fs = profile.spec_channel_value_fields();
    let mut k: usize = 0;
    let mut first = true;
    assert(fs.take(0) =~= Seq::<Seq<char>>::empty());
    while k < fields.len()
        invariant
            k <= fields@.len(),
            fs == crate::device::profile::strs_view(fields@),
            fs == profile.spec_channel_value_fields(),
            first == (option_entries(fs.take(k as int), profile).len() == 0),
            out@ == head + crate::ui::join(option_entries(fs.take(k as int), profile)),
        decreases fields@.len() - k,
    {
        let f = fields[k];
        proof {
            assert(fs.take(k + 1).drop_last() =~= fs.take(k as int));
            assert(fs.take(k + 1).last() == f@);
        }
        let options = profile.channel_value_options(f);
        let ghost prev = option_entries(fs.take(k as int), profile);
        if options.len() > 0 {
            proof { lemma_join_push(prev, json_option_entry(f@, strings_view(options@))); }
            if !first {
                push_str(&mut out, ",");
            }
            push_option_entry(&mut out, f, &options);
            first = false;
            assert(out@ =~= head + crate::ui::join(option_entries(fs.take(k + 1), profile)));
        }
        k += 1;
    }
    assert(fs.take(fs.len() as int) =~= fs);
    push_str(&mut out, "},\"lists\":[");
    let ghost mid = out@;
    let ghost items = Seq::new(lists@.len(), |i: int| json_list_info(lists@[i]));
    let mut j: usize = 0;
    assert(items.take(0) =~= Seq::<Seq<char>>::empty());
    while j < lists.len()
        invariant
            j <= lists@.len(),
            items == Seq::new(lists@.len(), |i: int| json_list_info(lists@[i])),
            out@ == mid + crate::ui::join(items.take(j as int)),
        decreases lists@.len() - j,
    {
        proof { lemma_join_step(items, j as int); }
        if j > 0 {
            push_str(&mut out, ",");
        }
        push_list_info(&mut out, &lists[j]);
        assert(out@ =~= mid + crate::ui::join(items.take(j + 1)));
        j += 1;
    }
    assert(items.take(items.len() as int) =~= items);
    push_str(&mut out, "]}");
    out
}

} // verus!
