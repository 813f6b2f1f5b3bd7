//! Favorites-dialect conversion.
//!
//! The favorites `.hpd` is a *different* dialect from the HPDB files, not just a
//! subset. Two things are well understood and validated against real cards, and
//! implemented here:
//!
//! - **Identity columns are blanked.** Hierarchical records keep their column count
//!   but MyId@1 / ParentId@2 are emptied ([`crate::device::FavoritesDialect`]).
//! - **Area tags are dropped.** `AreaState` / `AreaCounty` do not appear in
//!   favorites.
//!
//! A real favorites file also carries two record types absent from the HPDB source:
//!
//! - **`DQKs_Status`** — exactly one per system, right after the header line: a
//!   constant `[blank, 100 × "On"|"Off"]`. [`with_synthesized_dqks`] synthesizes
//!   it. It is a quick-key preference, not a scan requirement.
//! - **`BandPlan_P25`** — the standard P25 700/800/900 plan. Per the file
//!   specification it's omissible unless a site designates a non-standard band
//!   plan, so [`build_favorites`] does not synthesize it;
//!   [`with_synthesized_bandplan`] is available on request.
//!
//! `Rectangle` is **not** synthesized: it occurs in HPDB source too and is
//! preserved verbatim by extraction + [`to_favorites_dialect`].

use vstd::prelude::*;
use crate::device::SdCardProfile;
use crate::device::profile::{defaults_view, opt_strings_view, strs_view};
use crate::format::{
    Document, Line, LineEnding, SpecLine, copy_strings, lines_view, push_lines, spec_command,
    strings_view,
};
use crate::model::{Record, RecordKind, col_field, nonempty_of, spec_record_kind};
use crate::extract::{
    Extraction, System, is_group_cmd, is_voice_cmd, is_voice_channel, preamble_end, starts,
    system_starts, system_views, flatten, spec_ranges,
};
use crate::model::{lowercase, to_lowercase, freq_col, tgid_col};
use crate::extract::flatten_kept;
use crate::device::profile::SpecSchema;
use crate::text::spec_parse_u64;
use crate::text::{stable_order, stable_sort_indices};
use crate::text::{contains_sub, copy_str, str_contains, str_eq};

verus! {

pub open spec fn cmd_of(l: SpecLine) -> Seq<char> {
    spec_command(l.fields)
}

/// An `AreaState` / `AreaCounty` tag.
pub open spec fn is_area_kind(c: Seq<char>) -> bool {
    spec_record_kind(c) == RecordKind::AreaState || spec_record_kind(c) == RecordKind::AreaCounty
}

/// A system header (`Conventional` / `Trunk`).
pub open spec fn is_system_kind(c: Seq<char>) -> bool {
    spec_record_kind(c) == RecordKind::Conventional || spec_record_kind(c) == RecordKind::Trunk
}

/// Fields with the given columns emptied (columns past the end are ignored).
pub open spec fn blank_cols(fs: Seq<Seq<char>>, cols: Seq<usize>) -> Seq<Seq<char>> {
    Seq::new(fs.len(), |i: int| if cols.contains(i as usize) { Seq::empty() } else { fs[i] })
}

/// Set one `(column, value)` default, padding with empty fields up to the column.
pub open spec fn apply_default(fs: Seq<Seq<char>>, d: (usize, Seq<char>)) -> Seq<Seq<char>> {
    let padded = if fs.len() <= d.0 {
        fs + Seq::new((d.0 + 1 - fs.len()) as nat, |i: int| Seq::<char>::empty())
    } else {
        fs
    };
    padded.update(d.0 as int, d.1)
}

/// Set each default in turn.
pub open spec fn apply_defaults(fs: Seq<Seq<char>>, ds: Seq<(usize, Seq<char>)>) -> Seq<Seq<char>>
    decreases ds.len(),
{
    if ds.len() == 0 {
        fs
    } else {
        apply_defaults(apply_default(fs, ds[0]), ds.drop_first())
    }
}

/// One record in the favorites dialect: identity columns blanked, then the
/// favorites scan-setting defaults filled.
pub open spec fn fav_line<P: SdCardProfile + ?Sized>(l: SpecLine, profile: &P) -> SpecLine {
    let c = cmd_of(l);
    let blanked = match profile.spec_record_schema(c) {
        Some(s) => blank_cols(l.fields, s.blanked),
        None => l.fields,
    };
    SpecLine { fields: apply_defaults(blanked, profile.spec_field_defaults(c)), ending: l.ending }
}

/// A document in the favorites dialect: area tags dropped, every other record
/// converted by [`fav_line`].
pub open spec fn spec_favorites<P: SdCardProfile + ?Sized>(ls: Seq<SpecLine>, profile: &P) -> Seq<SpecLine>
    decreases ls.len(),
{
    if ls.len() == 0 {
        Seq::empty()
    } else {
        let prev = spec_favorites(ls.drop_last(), profile);
        if is_area_kind(cmd_of(ls.last())) {
            prev
        } else {
            prev.push(fav_line(ls.last(), profile))
        }
    }
}

/// Every `(column, value)` default of the profile names a column that can be
/// padded to.
pub open spec fn defaults_fit<P: SdCardProfile + ?Sized>(profile: &P) -> bool {
    forall|c: Seq<char>, k: int|
        0 <= k < profile.spec_field_defaults(c).len() ==> #[trigger] profile.spec_field_defaults(c)[k].0
            < usize::MAX
}

proof fn lemma_take_contains(s: Seq<usize>, k: int, x: usize)
    requires
        0 <= k < s.len(),
    ensures
        s.take(k + 1).contains(x) == (s.take(k).contains(x) || s[k] == x),
{
    if s.take(k + 1).contains(x) {
        let j = choose|j: int| 0 <= j < k + 1 && #[trigger] s.take(k + 1)[j] == x;
        if j < k {
            assert(s.take(k)[j] == x);
        }
    }
    if s[k] == x {
        assert(s.take(k + 1)[k] == x);
    }
    if s.take(k).contains(x) {
        let j = choose|j: int| 0 <= j < k && #[trigger] s.take(k)[j] == x;
        assert(s.take(k + 1)[j] == x);
    }
}

/// Empty the given columns of a line's fields.
fn blank_columns(fields: &mut Vec<String>, cols: &[usize])
    ensures
        strings_view(final(fields)@) == blank_cols(strings_view(old(fields)@), cols@),
{
    let ghost orig = strings_view(fields@);
    let mut k: usize = 0;
    while k < cols.len()
        invariant
            k <= cols@.len(),
            orig == strings_view(old(fields)@),
            fields@.len() == orig.len(),
            strings_view(fields@) == blank_cols(orig, cols@.take(k as int)),
        decreases cols@.len() - k,
    {
        let c = cols[k];
        let ghost before = strings_view(fields@);
        let flen = fields.len();
        assert(orig.len() == flen);
        if c < flen {
            fields.set(c, String::new());
        }
        assert forall|i: int| 0 <= i < orig.len() implies #[trigger] cols@.take(k + 1).contains(i as usize)
            == (cols@.take(k as int).contains(i as usize) || i == c as int) by {
            lemma_take_contains(cols@, k as int, i as usize);
            assert(cols@[k as int] == c);
            assert(((i as usize) == c) == (i == c as int));
        }
        assert forall|i: int| 0 <= i < orig.len() implies #[trigger] strings_view(fields@)[i] == blank_cols(
            orig,
            cols@.take(k + 1),
        )[i] by {
            assert(before[i] == blank_cols(orig, cols@.take(k as int))[i]);
            if i == c as int {
                assert(strings_view(fields@)[i] == Seq::<char>::empty());
            } else {
                assert(strings_view(fields@)[i] == before[i]);
            }
        }
        assert(strings_view(fields@) =~= blank_cols(orig, cols@.take(k + 1)));
        k += 1;
    }
    assert(cols@.take(cols@.len() as int) =~= cols@);
}

/// Set each `(column, value)` default in turn, padding with empty fields.
fn fill_defaults(fields: &mut Vec<String>, ds: &Vec<(usize, &'static str)>)
    requires
        forall|k: int| 0 <= k < ds@.len() ==> (#[trigger] ds@[k]).0 < usize::MAX,
    ensures
        strings_view(final(fields)@) == apply_defaults(strings_view(old(fields)@), defaults_view(ds@)),
{
    let ghost dv = defaults_view(ds@);
    let ghost target = apply_defaults(strings_view(fields@), dv);
    assert(dv.skip(0) =~= dv);
    let mut k: usize = 0;
    while k < ds.len()
        invariant
            k <= ds@.len(),
            dv == defaults_view(ds@),
            forall|m: int| 0 <= m < ds@.len() ==> (#[trigger] ds@[m]).0 < usize::MAX,
            apply_defaults(strings_view(fields@), dv.skip(k as int)) == target,
        decreases ds@.len() - k,
    {
        let (col, value) = ds[k];
        let ghost before = strings_view(fields@);
        proof {
            assert(dv.skip(k as int)[0] == (col, value@));
            assert(dv.skip(k as int).drop_first() =~= dv.skip(k + 1));
        }
        if fields.len() <= col {
            assert(before + Seq::new(0, |i: int| Seq::<char>::empty()) =~= before);
            while fields.len() <= col
                invariant
                    col < usize::MAX,
                    before.len() <= col,
                    before.len() <= fields@.len() <= col + 1,
                    strings_view(fields@) == before + Seq::new(
                        (fields@.len() - before.len()) as nat,
                        |i: int| Seq::<char>::empty(),
                    ),
                decreases col + 1 - fields@.len(),
            {
                let ghost b2 = strings_view(fields@);
                fields.push(String::new());
                assert(strings_view(fields@) =~= b2.push(Seq::<char>::empty()));
                assert(strings_view(fields@) =~= before + Seq::new(
                    (fields@.len() - before.len()) as nat,
                    |i: int| Seq::<char>::empty(),
                ));
            }
        }
        fields.set(col, copy_str(value));
        assert(strings_view(fields@) =~= apply_default(before, (col, value@)));
        k += 1;
    }
}

/// Convert full-HPDB lines to the favorites dialect: drop `AreaState`/`AreaCounty`
/// and blank each record's identity columns, then fill the favorites scan-setting
/// defaults the source leaves blank (e.g. T-Freq col 4 = "Off" so a trunk can lock
/// its control channel). The result round-trips.
pub fn to_favorites_dialect<P: SdCardProfile + ?Sized>(doc: &Document, profile: &P) -> (r: Document)
    requires
        defaults_fit(profile),
    ensures
        r@ == spec_favorites(doc@, profile),
{
    let mut lines: Vec<Line> = Vec::new();
    let mut i: usize = 0;
    while i < doc.lines.len()
        invariant
            i <= doc.lines@.len(),
            defaults_fit(profile),
            lines_view(lines@) == spec_favorites(doc@.take(i as int), profile),
        decreases doc.lines@.len() - i,
    {
        let line = &doc.lines[i];
        proof {
            assert(doc@.take(i + 1).drop_last() =~= doc@.take(i as int));
            assert(doc@.take(i + 1).last() == line@);
        }
        let cmd = line.command();
        let kind = RecordKind::from_command(cmd);
        if !(kind == RecordKind::AreaState || kind == RecordKind::AreaCounty) {
            let mut out = line.duplicate();
            match profile.record_schema(cmd) {
                Some(schema) => blank_columns(&mut out.fields, schema.favorites.blanked_id_columns),
                None => {},
            }
            let ds = profile.favorites_field_defaults(cmd);
            proof {
                assert forall|k: int| 0 <= k < ds@.len() implies (#[trigger] ds@[k]).0 < usize::MAX by {
                    assert(defaults_view(ds@)[k] == profile.spec_field_defaults(cmd@)[k]);
                    assert(defaults_view(ds@)[k].0 == ds@[k].0);
                    assert(profile.spec_field_defaults(cmd@)[k].0 < usize::MAX);
                }
            }
            fill_defaults(&mut out.fields, &ds);
            let ghost before = lines_view(lines@);
            assert(out@ == fav_line(line@, profile));
            lines.push(out);
            assert(lines_view(lines@) =~= before.push(fav_line(line@, profile)));
        }
        i += 1;
    }
    assert(doc@.take(doc.lines@.len() as int) =~= doc@);
    Document { lines }
}

// ---------------------------------------------------------------------------
// DQKs_Status synthesis.
// ---------------------------------------------------------------------------

/// The first line is a system header not already followed by a `DQKs_Status`.
pub open spec fn needs_dqks(ls: Seq<SpecLine>) -> bool {
    &&& ls.len() > 0
    &&& is_system_kind(cmd_of(ls[0]))
    &&& !(ls.len() > 1 && cmd_of(ls[1]) == "DQKs_Status"@)
}

/// The lines with a `DQKs_Status` line (fields `t`, the header's terminator)
/// inserted after each system header that lacks one.
pub open spec fn spec_dqks(ls: Seq<SpecLine>, t: Seq<Seq<char>>) -> Seq<SpecLine>
    decreases ls.len(),
{
    if ls.len() == 0 {
        Seq::empty()
    } else {
        let inserted = if needs_dqks(ls) {
            seq![SpecLine { fields: t, ending: ls[0].ending }]
        } else {
            Seq::empty()
        };
        seq![ls[0]] + inserted + spec_dqks(ls.drop_first(), t)
    }
}

/// Insert a synthesized `DQKs_Status` line after each system header (`Conventional`
/// / `Trunk`) that doesn't already have one. Idempotent
/// ([`lemma_dqks_idempotent`]). `departments_on` picks the blanket quick-key value.
/// A no-op for models whose profile returns no template.
pub fn with_synthesized_dqks<P: SdCardProfile + ?Sized>(doc: &Document, profile: &P, departments_on: bool) -> (r: Document)
    ensures
        r@ == match profile.spec_dqks_status_line(departments_on) {
            Some(t) => spec_dqks(doc@, t),
            None => doc@,
        },
{
    let template = match profile.dqks_status_line(departments_on) {
        Some(t) => t,
        None => {
            return doc.duplicate();
        },
    };
    let ghost t = strings_view(template@);
    let ghost ls = doc@;
    let mut lines: Vec<Line> = Vec::new();
    let mut i: usize = 0;
    assert(ls.skip(0) =~= ls);
    while i < doc.lines.len()
        invariant
            i <= doc.lines@.len(),
            ls == doc@,
            t == strings_view(template@),
            lines_view(lines@) + spec_dqks(ls.skip(i as int), t) == spec_dqks(ls, t),
        decreases doc.lines@.len() - i,
    {
        let line = &doc.lines[i];
        let kind = RecordKind::from_command(line.command());
        let is_system = kind == RecordKind::Conventional || kind == RecordKind::Trunk;
        let next_is_dqks = i + 1 < doc.lines.len() && doc.lines[i + 1].is_command("DQKs_Status");
        let ghost before = lines_view(lines@);
        let ghost rest = ls.skip(i as int);
        proof {
            assert(rest[0] == line@);
            assert(rest.drop_first() =~= ls.skip(i + 1));
            if i + 1 < ls.len() {
                assert(rest[1] == ls[i + 1]);
            }
            assert(needs_dqks(rest) == (is_system && !next_is_dqks));
        }
        lines.push(line.duplicate());
        if is_system && !next_is_dqks {
            lines.push(Line { fields: copy_strings(&template), ending: line.ending });
        }
        proof {
            let ins = if needs_dqks(rest) {
                seq![SpecLine { fields: t, ending: rest[0].ending }]
            } else {
                Seq::empty()
            };
            assert(lines_view(lines@) =~= before + seq![rest[0]] + ins);
            assert(spec_dqks(rest, t) == seq![rest[0]] + ins + spec_dqks(ls.skip(i + 1), t));
            assert(lines_view(lines@) + spec_dqks(ls.skip(i + 1), t) =~= before + spec_dqks(rest, t));
        }
        i += 1;
    }
    assert(ls.skip(doc.lines@.len() as int) =~= Seq::<SpecLine>::empty());
    assert(lines_view(lines@) =~= spec_dqks(ls, t));
    Document { lines }
}

proof fn lemma_dqks_head(ls: Seq<SpecLine>, t: Seq<Seq<char>>)
    requires
        ls.len() > 0,
    ensures
        spec_dqks(ls, t).len() > 0,
        spec_dqks(ls, t)[0] == ls[0],
{
}

/// The kinds of the synthesized record names.
proof fn lemma_synth_kinds()
    ensures
        spec_record_kind("DQKs_Status"@) == RecordKind::Other,
        spec_record_kind("BandPlan_P25"@) == RecordKind::Other,
        "BandPlan_P25"@ != "Site"@,
{
    reveal_strlit("DQKs_Status");
    reveal_strlit("BandPlan_P25");
    reveal_strlit("TargetModel");
    reveal_strlit("FormatVersion");
    reveal_strlit("DateModified");
    reveal_strlit("Conventional");
    reveal_strlit("C-Group");
    reveal_strlit("C-Freq");
    reveal_strlit("Trunk");
    reveal_strlit("Site");
    reveal_strlit("T-Group");
    reveal_strlit("T-Freq");
    reveal_strlit("TGID");
    reveal_strlit("AreaState");
    reveal_strlit("AreaCounty");
    reveal_strlit("StateInfo");
    reveal_strlit("CountyInfo");
    reveal_strlit("LM");
    assert("DQKs_Status"@[0] != "TargetModel"@[0]);
    assert("DQKs_Status"@.len() != "FormatVersion"@.len());
    assert("DQKs_Status"@.len() != "DateModified"@.len());
    assert("DQKs_Status"@.len() != "Conventional"@.len());
    assert("BandPlan_P25"@[0] != "DateModified"@[0]);
    assert("BandPlan_P25"@[0] != "Conventional"@[0]);
    assert("BandPlan_P25"@.len() != "TargetModel"@.len());
    assert("BandPlan_P25"@.len() != "FormatVersion"@.len());
}

/// Synthesizing `DQKs_Status` twice is the same as once: after the first pass
/// every system header is already followed by one.
pub proof fn lemma_dqks_idempotent(ls: Seq<SpecLine>, t: Seq<Seq<char>>)
    requires
        t.len() > 0,
        t[0] == "DQKs_Status"@,
    ensures
        spec_dqks(spec_dqks(ls, t), t) == spec_dqks(ls, t),
    decreases ls.len(),
{
    lemma_synth_kinds();
    if ls.len() > 0 {
        let rest = ls.drop_first();
        lemma_dqks_idempotent(rest, t);
        let d = spec_dqks(ls, t);
        let dr = spec_dqks(rest, t);
        if rest.len() > 0 {
            lemma_dqks_head(rest, t);
        }
        if needs_dqks(ls) {
            let tl = SpecLine { fields: t, ending: ls[0].ending };
            assert(d == seq![ls[0], tl] + dr);
            assert(!needs_dqks(d));
            assert(d.drop_first() =~= seq![tl] + dr);
            let x = seq![tl] + dr;
            assert(!needs_dqks(x));
            assert(x.drop_first() =~= dr);
            assert(spec_dqks(x, t) =~= seq![tl] + spec_dqks(dr, t));
            assert(spec_dqks(d, t) =~= seq![ls[0]] + spec_dqks(x, t));
        } else {
            assert(d =~= seq![ls[0]] + dr);
            assert(!needs_dqks(d));
            assert(d.drop_first() =~= dr);
            assert(spec_dqks(d, t) =~= seq![ls[0]] + spec_dqks(dr, t));
        }
    }
}

// ---------------------------------------------------------------------------
// BandPlan_P25 synthesis.
// ---------------------------------------------------------------------------

/// A `Trunk` header whose technology names P25.
pub open spec fn trunk_is_p25<P: SdCardProfile + ?Sized>(h: SpecLine, profile: &P) -> bool {
    match profile.spec_record_schema(cmd_of(h)) {
        Some(s) => match nonempty_of(col_field(h, s.tech_col)) {
            Some(t) => contains_sub(t, "P25"@),
            None => false,
        },
        None => false,
    }
}

/// Whether we are inside a P25 trunk after line `h` (a `Conventional` ends it, a
/// `Trunk` starts or ends it by its technology).
pub open spec fn p25_after<P: SdCardProfile + ?Sized>(h: SpecLine, st: bool, profile: &P) -> bool {
    let k = spec_record_kind(cmd_of(h));
    if k == RecordKind::Conventional {
        false
    } else if k == RecordKind::Trunk {
        trunk_is_p25(h, profile)
    } else {
        st
    }
}

/// The first line is a `Site` of a P25 trunk not already followed by a band plan.
pub open spec fn needs_bandplan(ls: Seq<SpecLine>, st: bool) -> bool {
    &&& ls.len() > 0
    &&& st
    &&& cmd_of(ls[0]) == "Site"@
    &&& !(ls.len() > 1 && cmd_of(ls[1]) == "BandPlan_P25"@)
}

/// The lines with a `BandPlan_P25` line (the plan's fields, the site's terminator)
/// inserted after each P25-trunk `Site` that lacks one; `st` says whether the
/// lines start inside a P25 trunk.
pub open spec fn spec_bandplan<P: SdCardProfile + ?Sized>(
    ls: Seq<SpecLine>,
    plan: Seq<Seq<char>>,
    st: bool,
    profile: &P,
) -> Seq<SpecLine>
    decreases ls.len(),
{
    if ls.len() == 0 {
        Seq::empty()
    } else {
        let st2 = p25_after(ls[0], st, profile);
        let inserted = if needs_bandplan(ls, st2) {
            seq![SpecLine { fields: seq!["BandPlan_P25"@] + plan, ending: ls[0].ending }]
        } else {
            Seq::empty()
        };
        seq![ls[0]] + inserted + spec_bandplan(ls.drop_first(), plan, st2, profile)
    }
}

/// Insert a synthesized `BandPlan_P25` after each `Site` of a **P25** trunk that
/// doesn't already have one. The band-plan value is the model's standard P25 plan.
/// Idempotent ([`lemma_bandplan_idempotent`]); a no-op for models/data without P25
/// trunks or a known plan.
pub fn with_synthesized_bandplan<P: SdCardProfile + ?Sized>(doc: &Document, profile: &P) -> (r: Document)
    ensures
        r@ == match profile.spec_p25_bandplan() {
            Some(plan) => spec_bandplan(doc@, plan, false, profile),
            None => doc@,
        },
{
    let plan = match profile.standard_p25_bandplan() {
        Some(p) => p,
        None => {
            return doc.duplicate();
        },
    };
    let ghost pv = strs_view(plan@);
    let ghost ls = doc@;
    let mut lines: Vec<Line> = Vec::new();
    let mut in_p25_trunk = false;
    let mut i: usize = 0;
    assert(ls.skip(0) =~= ls);
    while i < doc.lines.len()
        invariant
            i <= doc.lines@.len(),
            ls == doc@,
            pv == strs_view(plan@),
            lines_view(lines@) + spec_bandplan(ls.skip(i as int), pv, in_p25_trunk, profile)
                == spec_bandplan(ls, pv, false, profile),
        decreases doc.lines@.len() - i,
    {
        let line = &doc.lines[i];
        let ghost rest = ls.skip(i as int);
        let ghost st = in_p25_trunk;
        let kind = RecordKind::from_command(line.command());
        if kind == RecordKind::Conventional {
            in_p25_trunk = false;
        } else if kind == RecordKind::Trunk {
            in_p25_trunk = match Record::new(line, profile) {
                Some(rec) => match rec.tech() {
                    Some(t) => str_contains(t, "P25"),
                    None => false,
                },
                None => false,
            };
        }
        let next_is_bandplan = i + 1 < doc.lines.len() && doc.lines[i + 1].is_command("BandPlan_P25");
        let is_site = line.is_command("Site");
        let ghost before = lines_view(lines@);
        proof {
            assert(rest[0] == line@);
            assert(rest.drop_first() =~= ls.skip(i + 1));
            if i + 1 < ls.len() {
                assert(rest[1] == ls[i + 1]);
            }
            assert(in_p25_trunk == p25_after(rest[0], st, profile));
            assert(needs_bandplan(rest, in_p25_trunk) == (in_p25_trunk && is_site && !next_is_bandplan));
        }
        lines.push(line.duplicate());
        if in_p25_trunk && is_site && !next_is_bandplan {
            let mut fields: Vec<String> = Vec::new();
            fields.push(copy_str("BandPlan_P25"));
            let mut k: usize = 0;
            while k < plan.len()
                invariant
                    k <= plan@.len(),
                    pv == strs_view(plan@),
                    strings_view(fields@) == seq!["BandPlan_P25"@] + pv.take(k as int),
                decreases plan@.len() - k,
            {
                let ghost fb = strings_view(fields@);
                fields.push(copy_str(plan[k]));
                assert(strings_view(fields@) =~= fb.push(plan@[k as int]@));
                assert(pv.take(k + 1) =~= pv.take(k as int).push(pv[k as int]));
                k += 1;
                assert(strings_view(fields@) =~= seq!["BandPlan_P25"@] + pv.take(k as int));
            }
            assert(pv.take(plan@.len() as int) =~= pv);
            lines.push(Line { fields, ending: line.ending });
        }
        proof {
            let ins = if needs_bandplan(rest, in_p25_trunk) {
                seq![SpecLine { fields: seq!["BandPlan_P25"@] + pv, ending: rest[0].ending }]
            } else {
                Seq::empty()
            };
            assert(lines_view(lines@) =~= before + seq![rest[0]] + ins);
            assert(spec_bandplan(rest, pv, st, profile) == seq![rest[0]] + ins + spec_bandplan(
                ls.skip(i + 1),
                pv,
                in_p25_trunk,
                profile,
            ));
            assert(lines_view(lines@) + spec_bandplan(ls.skip(i + 1), pv, in_p25_trunk, profile) =~= before
                + spec_bandplan(rest, pv, st, profile));
        }
        i += 1;
    }
    assert(ls.skip(doc.lines@.len() as int) =~= Seq::<SpecLine>::empty());
    assert(lines_view(lines@) =~= spec_bandplan(ls, pv, false, profile));
    Document { lines }
}

proof fn lemma_bandplan_head<P: SdCardProfile + ?Sized>(ls: Seq<SpecLine>, plan: Seq<Seq<char>>, st: bool, profile: &P)
    requires
        ls.len() > 0,
    ensures
        spec_bandplan(ls, plan, st, profile).len() > 0,
        spec_bandplan(ls, plan, st, profile)[0] == ls[0],
{
}

/// Synthesizing band plans twice is the same as once: after the first pass every
/// P25-trunk site is already followed by one.
pub proof fn lemma_bandplan_idempotent<P: SdCardProfile + ?Sized>(
    ls: Seq<SpecLine>,
    plan: Seq<Seq<char>>,
    st: bool,
    profile: &P,
)
    ensures
        spec_bandplan(spec_bandplan(ls, plan, st, profile), plan, st, profile) == spec_bandplan(
            ls,
            plan,
            st,
            profile,
        ),
    decreases ls.len(),
{
    lemma_synth_kinds();
    if ls.len() > 0 {
        let rest = ls.drop_first();
        let st2 = p25_after(ls[0], st, profile);
        lemma_bandplan_idempotent(rest, plan, st2, profile);
        let d = spec_bandplan(ls, plan, st, profile);
        let dr = spec_bandplan(rest, plan, st2, profile);
        if rest.len() > 0 {
            lemma_bandplan_head(rest, plan, st2, profile);
        }
        if needs_bandplan(ls, st2) {
            let bl = SpecLine { fields: seq!["BandPlan_P25"@] + plan, ending: ls[0].ending };
            assert(d == seq![ls[0], bl] + dr);
            assert(cmd_of(bl) == "BandPlan_P25"@);
            assert(!needs_bandplan(d, st2));
            assert(d.drop_first() =~= seq![bl] + dr);
            let x = seq![bl] + dr;
            assert(p25_after(bl, st2, profile) == st2);
            assert(!needs_bandplan(x, st2));
            assert(x.drop_first() =~= dr);
            assert(spec_bandplan(x, plan, st2, profile) =~= seq![bl] + spec_bandplan(dr, plan, st2, profile));
            assert(spec_bandplan(d, plan, st, profile) =~= seq![ls[0]] + spec_bandplan(x, plan, st2, profile));
        } else {
            assert(d =~= seq![ls[0]] + dr);
            assert(!needs_bandplan(d, st2));
            assert(d.drop_first() =~= dr);
            assert(spec_bandplan(d, plan, st, profile) =~= seq![ls[0]] + spec_bandplan(dr, plan, st2, profile));
        }
    }
}

// ---------------------------------------------------------------------------
// Complete favorites.
// ---------------------------------------------------------------------------

/// Build a complete favorites document from a filtered HPDB selection: apply the
/// favorites dialect (drop area tags, blank ids, fill scan-setting defaults), then
/// synthesize `DQKs_Status` (one per system).
///
/// `departments_on` is a **user preference** — it sets the department quick-key
/// state (`DQKs_Status` all `On` vs all `Off`); both values work.
///
/// **`BandPlan_P25` is deliberately NOT synthesized**: adding a band plan where the
/// system doesn't expect one prevents the trunk from locking.
pub fn build_favorites<P: SdCardProfile + ?Sized>(doc: &Document, profile: &P, departments_on: bool) -> (r: Document)
    requires
        defaults_fit(profile),
    ensures
        r@ == match profile.spec_dqks_status_line(departments_on) {
            Some(t) => spec_dqks(spec_favorites(doc@, profile), t),
            None => spec_favorites(doc@, profile),
        },
{
    let dialect = to_favorites_dialect(doc, profile);
    with_synthesized_dqks(&dialect, profile, departments_on)
}

// ---------------------------------------------------------------------------
// Dialect checks.
// ---------------------------------------------------------------------------

/// Some line is an `AreaState`/`AreaCounty` tag.
pub open spec fn spec_has_area_tags(ls: Seq<SpecLine>) -> bool {
    exists|i: int| 0 <= i < ls.len() && is_area_kind(#[trigger] cmd_of(ls[i]))
}

/// True if any line is an `AreaState`/`AreaCounty` (i.e. *not* favorites dialect).
pub fn has_area_tags(doc: &Document) -> (r: bool)
    ensures
        r == spec_has_area_tags(doc@),
{
    let mut i: usize = 0;
    while i < doc.lines.len()
        invariant
            i <= doc.lines@.len(),
            forall|k: int| 0 <= k < i ==> !is_area_kind(#[trigger] cmd_of(doc@[k])),
        decreases doc.lines@.len() - i,
    {
        let kind = RecordKind::from_command(doc.lines[i].command());
        if kind == RecordKind::AreaState || kind == RecordKind::AreaCounty {
            assert(is_area_kind(cmd_of(doc@[i as int])));
            return true;
        }
        i += 1;
    }
    false
}

/// Necessary (not sufficient) check that a document is in the favorites dialect:
/// it carries no `AreaState`/`AreaCounty` tags. Does not check the synthesized
/// records (see [`has_synthesized_records`]).
pub fn is_favorites_dialect(doc: &Document) -> (r: bool)
    ensures
        r == !spec_has_area_tags(doc@),
{
    !has_area_tags(doc)
}

/// Some line has command `c`.
pub open spec fn has_command(ls: Seq<SpecLine>, c: Seq<char>) -> bool {
    exists|i: int| 0 <= i < ls.len() && #[trigger] cmd_of(ls[i]) == c
}

/// Whether `doc` contains all the favorites-only record types the profile says a
/// complete favorites file needs. A conversion produced by [`to_favorites_dialect`]
/// alone reports `false`. Models that declare no such records trivially return
/// `true`.
pub fn has_synthesized_records<P: SdCardProfile + ?Sized>(doc: &Document, profile: &P) -> (r: bool)
    ensures
        r == forall|k: int| 0 <= k < profile.spec_synthesized_records().len() ==> has_command(
            doc@,
            #[trigger] profile.spec_synthesized_records()[k],
        ),
{
    let recs = profile.favorites_synthesized_records();
    let ghost rv = strs_view(recs@);
    let mut k: usize = 0;
    while k < recs.len()
        invariant
            k <= recs@.len(),
            rv == strs_view(recs@),
            rv == profile.spec_synthesized_records(),
            forall|m: int| 0 <= m < k ==> has_command(doc@, #[trigger] rv[m]),
        decreases recs@.len() - k,
    {
        let name = recs[k];
        let mut found = false;
        let mut i: usize = 0;
        while i < doc.lines.len()
            invariant
                i <= doc.lines@.len(),
                !found ==> forall|j: int| 0 <= j < i ==> #[trigger] cmd_of(doc@[j]) != name@,
                found ==> has_command(doc@, name@),
            decreases doc.lines@.len() - i,
        {
            if !found && doc.lines[i].is_command(name) {
                found = true;
                assert(cmd_of(doc@[i as int]) == name@);
            }
            i += 1;
        }
        assert(rv[k as int] == name@);
        if !found {
            assert(!has_command(doc@, rv[k as int]));
            return false;
        }
        k += 1;
    }
    true
}

/// The line a non-area record becomes keeps its command when the profile never
/// blanks or defaults column 0.
proof fn lemma_fav_line_command<P: SdCardProfile + ?Sized>(l: SpecLine, profile: &P)
    requires
        no_command_edits(profile),
    ensures
        cmd_of(fav_line(l, profile)) == cmd_of(l),
{
    let c = cmd_of(l);
    let blanked = match profile.spec_record_schema(c) {
        Some(s) => blank_cols(l.fields, s.blanked),
        None => l.fields,
    };
    assert(spec_command(blanked) == spec_command(l.fields));
    lemma_apply_defaults_keeps_head(blanked, profile.spec_field_defaults(c));
}

proof fn lemma_apply_defaults_keeps_head(fs: Seq<Seq<char>>, ds: Seq<(usize, Seq<char>)>)
    requires
        forall|k: int| 0 <= k < ds.len() ==> (#[trigger] ds[k]).0 != 0,
    ensures
        spec_command(apply_defaults(fs, ds)) == spec_command(fs),
    decreases ds.len(),
{
    if ds.len() > 0 {
        let f2 = apply_default(fs, ds[0]);
        assert(ds[0].0 != 0);
        assert(f2.len() > 0);
        if fs.len() > 0 {
            assert(f2[0] == fs[0]);
        } else {
            assert(f2[0] == Seq::<char>::empty());
        }
        assert(spec_command(f2) == spec_command(fs));
        assert forall|k: int| 0 <= k < ds.drop_first().len() implies (#[trigger] ds.drop_first()[k]).0 != 0 by {
            assert(ds.drop_first()[k] == ds[k + 1]);
        }
        lemma_apply_defaults_keeps_head(f2, ds.drop_first());
    }
}

/// The profile never blanks or defaults a record's command column.
pub open spec fn no_command_edits<P: SdCardProfile + ?Sized>(profile: &P) -> bool {
    &&& forall|c: Seq<char>| #[trigger] profile.spec_record_schema(c) matches Some(s) ==> !s.blanked.contains(0)
    &&& forall|c: Seq<char>, k: int|
        0 <= k < profile.spec_field_defaults(c).len() ==> #[trigger] profile.spec_field_defaults(c)[k].0
            != 0
}

/// No favorites default writes an area command (`AreaState` / `AreaCounty`) into a
/// record's command column.
pub open spec fn no_area_defaults<P: SdCardProfile + ?Sized>(profile: &P) -> bool {
    forall|c: Seq<char>, k: int|
        0 <= k < profile.spec_field_defaults(c).len() && #[trigger] profile.spec_field_defaults(c)[k].0 == 0
            ==> !is_area_kind(profile.spec_field_defaults(c)[k].1)
}

proof fn lemma_empty_not_area()
    ensures
        !is_area_kind(Seq::<char>::empty()),
{
    reveal_strlit("AreaState");
    reveal_strlit("AreaCounty");
    assert("AreaState"@.len() == 9);
    assert("AreaCounty"@.len() == 10);
    assert(Seq::<char>::empty() != "AreaState"@);
    assert(Seq::<char>::empty() != "AreaCounty"@);
}

proof fn lemma_apply_defaults_not_area(fs: Seq<Seq<char>>, ds: Seq<(usize, Seq<char>)>)
    requires
        !is_area_kind(spec_command(fs)),
        forall|k: int| 0 <= k < ds.len() && (#[trigger] ds[k]).0 == 0 ==> !is_area_kind(ds[k].1),
    ensures
        !is_area_kind(spec_command(apply_defaults(fs, ds))),
    decreases ds.len(),
{
    lemma_empty_not_area();
    if ds.len() > 0 {
        let f2 = apply_default(fs, ds[0]);
        assert(f2.len() > 0);
        if ds[0].0 == 0 {
            assert(f2[0] == ds[0].1);
        } else if fs.len() > 0 {
            assert(f2[0] == fs[0]);
        } else {
            assert(f2[0] == Seq::<char>::empty());
        }
        assert(!is_area_kind(spec_command(f2)));
        assert forall|k: int| 0 <= k < ds.drop_first().len() && (#[trigger] ds.drop_first()[k]).0 == 0 implies !is_area_kind(ds.drop_first()[k].1) by {
            assert(ds.drop_first()[k] == ds[k + 1]);
        }
        lemma_apply_defaults_not_area(f2, ds.drop_first());
    }
}

/// A record that is not an area tag stays one that is not, whatever the profile
/// blanks, as long as no default writes an area command into column 0.
proof fn lemma_fav_line_not_area<P: SdCardProfile + ?Sized>(l: SpecLine, profile: &P)
    requires
        no_area_defaults(profile),
        !is_area_kind(cmd_of(l)),
    ensures
        !is_area_kind(cmd_of(fav_line(l, profile))),
{
    lemma_empty_not_area();
    let c = cmd_of(l);
    let blanked = match profile.spec_record_schema(c) {
        Some(s) => blank_cols(l.fields, s.blanked),
        None => l.fields,
    };
    if blanked.len() > 0 {
        assert(blanked[0] == l.fields[0] || blanked[0] == Seq::<char>::empty());
    }
    assert(!is_area_kind(spec_command(blanked)));
    let ds = profile.spec_field_defaults(c);
    assert forall|k: int| 0 <= k < ds.len() && (#[trigger] ds[k]).0 == 0 implies !is_area_kind(ds[k].1) by {
        assert(profile.spec_field_defaults(c)[k].0 == 0);
    }
    lemma_apply_defaults_not_area(blanked, ds);
}

/// A favorites conversion carries no area tags, for any document and any profile
/// whose defaults never write an area command into the command column (the only
/// way a converted record could become an area tag).
pub proof fn lemma_favorites_has_no_area_tags<P: SdCardProfile + ?Sized>(ls: Seq<SpecLine>, profile: &P)
    requires
        no_area_defaults(profile),
    ensures
        !spec_has_area_tags(spec_favorites(ls, profile)),
    decreases ls.len(),
{
    if ls.len() > 0 {
        let p = ls.drop_last();
        lemma_favorites_has_no_area_tags(p, profile);
        if !is_area_kind(cmd_of(ls.last())) {
            lemma_fav_line_not_area(ls.last(), profile);
            let out = spec_favorites(ls, profile);
            let prev = spec_favorites(p, profile);
            assert(out == prev.push(fav_line(ls.last(), profile)));
            assert forall|i: int| 0 <= i < out.len() implies !is_area_kind(#[trigger] cmd_of(out[i])) by {
                if i < prev.len() {
                    assert(out[i] == prev[i]);
                }
            }
        }
    }
}

proof fn lemma_dqks_no_area_tags(ls: Seq<SpecLine>, t: Seq<Seq<char>>)
    requires
        !spec_has_area_tags(ls),
        t.len() > 0,
        !is_area_kind(t[0]),
    ensures
        !spec_has_area_tags(spec_dqks(ls, t)),
    decreases ls.len(),
{
    if ls.len() > 0 {
        let rest = ls.drop_first();
        assert forall|i: int| 0 <= i < rest.len() implies !is_area_kind(#[trigger] cmd_of(rest[i])) by {
            assert(rest[i] == ls[i + 1]);
            assert(!is_area_kind(cmd_of(ls[i + 1])));
        }
        lemma_dqks_no_area_tags(rest, t);
        let out = spec_dqks(ls, t);
        let tail = spec_dqks(rest, t);
        assert(!is_area_kind(cmd_of(ls[0])));
        assert forall|i: int| 0 <= i < out.len() implies !is_area_kind(#[trigger] cmd_of(out[i])) by {
            if needs_dqks(ls) {
                if i >= 2 {
                    assert(out[i] == tail[i - 2]);
                }
            } else {
                if i >= 1 {
                    assert(out[i] == tail[i - 1]);
                }
            }
        }
    }
}

/// The favorites conversion introduces no record type: every command in the
/// result was already in the source (for a profile that never edits the command
/// column).
pub proof fn lemma_favorites_adds_no_command<P: SdCardProfile + ?Sized>(ls: Seq<SpecLine>, profile: &P, c: Seq<char>)
    requires
        no_command_edits(profile),
    ensures
        has_command(spec_favorites(ls, profile), c) ==> has_command(ls, c),
    decreases ls.len(),
{
    if ls.len() > 0 {
        let p = ls.drop_last();
        lemma_favorites_adds_no_command(p, profile, c);
        let out = spec_favorites(ls, profile);
        let prev = spec_favorites(p, profile);
        if has_command(out, c) {
            let i = choose|i: int| 0 <= i < out.len() && #[trigger] cmd_of(out[i]) == c;
            if !is_area_kind(cmd_of(ls.last())) {
                lemma_fav_line_command(ls.last(), profile);
                assert(out == prev.push(fav_line(ls.last(), profile)));
                if i < prev.len() {
                    assert(out[i] == prev[i]);
                    assert(has_command(prev, c));
                    let j = choose|j: int| 0 <= j < p.len() && #[trigger] cmd_of(p[j]) == c;
                    assert(ls[j] == p[j]);
                } else {
                    assert(cmd_of(ls[ls.len() - 1]) == c);
                }
            } else {
                assert(has_command(prev, c));
                let j = choose|j: int| 0 <= j < p.len() && #[trigger] cmd_of(p[j]) == c;
                assert(ls[j] == p[j]);
            }
        }
    }
}

/// The `DQKs_Status` synthesis adds no other record type: any command of the
/// result other than the template's was already in the input.
pub proof fn lemma_dqks_adds_only_template(ls: Seq<SpecLine>, t: Seq<Seq<char>>, c: Seq<char>)
    requires
        t.len() > 0,
        c != t[0],
    ensures
        has_command(spec_dqks(ls, t), c) ==> has_command(ls, c),
    decreases ls.len(),
{
    if ls.len() > 0 {
        let rest = ls.drop_first();
        lemma_dqks_adds_only_template(rest, t, c);
        let out = spec_dqks(ls, t);
        let tail = spec_dqks(rest, t);
        if has_command(out, c) {
            let i = choose|i: int| 0 <= i < out.len() && #[trigger] cmd_of(out[i]) == c;
            let off: int = if needs_dqks(ls) { 2 } else { 1 };
            if i == 0 {
                assert(out[0] == ls[0]);
            } else if i < off {
                assert(out[1].fields == t);
            } else {
                assert(out[i] == tail[i - off]);
                assert(has_command(tail, c));
                assert(has_command(rest, c));
                let j = choose|j: int| 0 <= j < rest.len() && #[trigger] cmd_of(rest[j]) == c;
                assert(ls[j + 1] == rest[j]);
            }
        }
    }
}

/// [`build_favorites`] adds no `BandPlan_P25` record: one is in its result only if
/// the source had one (for a profile that never edits the command column and a
/// `DQKs_Status` template).
pub proof fn lemma_build_favorites_adds_no_bandplan<P: SdCardProfile + ?Sized>(
    ls: Seq<SpecLine>,
    profile: &P,
    t: Seq<Seq<char>>,
)
    requires
        no_command_edits(profile),
        t.len() > 0,
        t[0] == "DQKs_Status"@,
    ensures
        has_command(spec_favorites(ls, profile), "BandPlan_P25"@) ==> has_command(ls, "BandPlan_P25"@),
        has_command(spec_dqks(spec_favorites(ls, profile), t), "BandPlan_P25"@) ==> has_command(ls, "BandPlan_P25"@),
{
    reveal_strlit("DQKs_Status");
    reveal_strlit("BandPlan_P25");
    assert("DQKs_Status"@.len() == 11);
    assert("BandPlan_P25"@.len() == 12);
    lemma_favorites_adds_no_command(ls, profile, "BandPlan_P25"@);
    lemma_dqks_adds_only_template(spec_favorites(ls, profile), t, "BandPlan_P25"@);
}

/// What [`build_favorites`] produces is in the favorites dialect: no area tags
/// survive, and the synthesized `DQKs_Status` template is not one.
pub proof fn lemma_build_favorites_is_favorites_dialect<P: SdCardProfile + ?Sized>(
    ls: Seq<SpecLine>,
    profile: &P,
    t: Seq<Seq<char>>,
)
    requires
        no_area_defaults(profile),
        t.len() > 0,
        !is_area_kind(t[0]),
    ensures
        !spec_has_area_tags(spec_favorites(ls, profile)),
        !spec_has_area_tags(spec_dqks(spec_favorites(ls, profile), t)),
{
    lemma_favorites_has_no_area_tags(ls, profile);
    lemma_dqks_no_area_tags(spec_favorites(ls, profile), t);
}

// ---------------------------------------------------------------------------
// Per-record edits.
// ---------------------------------------------------------------------------

/// Which record an avoid toggle targets within one system.
#[derive(Debug, Clone, Copy, PartialEq, Eq, Structural)]
pub enum AvoidLevel {
    /// The system header (`Trunk`/`Conventional`) — skip the whole system.
    System,
    /// The `idx`-th department (`T-Group`/`C-Group`) — skip all its channels.
    Group,
    /// The `idx`-th voice channel (`TGID`/`C-Freq`) in the system.
    Channel,
}

/// The line matches the department (`group`) or voice-channel class.
pub open spec fn of_class(l: SpecLine, group: bool) -> bool {
    if group {
        is_group_cmd(cmd_of(l))
    } else {
        is_voice_cmd(cmd_of(l))
    }
}

/// The `idx`-th line of the class within `[lo, hi)`.
pub open spec fn nth_of(ls: Seq<SpecLine>, lo: int, hi: int, group: bool, idx: int) -> Option<int>
    decreases hi - lo,
{
    if lo >= hi || lo < 0 || hi > ls.len() {
        None
    } else if of_class(ls[lo], group) {
        if idx == 0 {
            Some(lo)
        } else {
            nth_of(ls, lo + 1, hi, group, idx - 1)
        }
    } else {
        nth_of(ls, lo + 1, hi, group, idx)
    }
}

/// Line index of the (system `si`, `level`, `idx`) record: the system's header, or
/// its `idx`-th department or voice channel.
pub open spec fn spec_locate(ls: Seq<SpecLine>, si: int, level: AvoidLevel, idx: int) -> Option<int> {
    let st = starts(ls);
    if 0 <= si < st.len() {
        let start = st[si];
        let end = if si + 1 < st.len() { st[si + 1] } else { ls.len() as int };
        match level {
            AvoidLevel::System => Some(start),
            AvoidLevel::Group => nth_of(ls, start, end, true, idx),
            AvoidLevel::Channel => nth_of(ls, start, end, false, idx),
        }
    } else {
        None
    }
}

proof fn lemma_nth_of_bounds(ls: Seq<SpecLine>, lo: int, hi: int, group: bool, idx: int)
    ensures
        nth_of(ls, lo, hi, group, idx) matches Some(i) ==> lo <= i < hi && 0 <= i < ls.len(),
    decreases hi - lo,
{
    if !(lo >= hi || lo < 0 || hi > ls.len()) {
        lemma_nth_of_bounds(ls, lo + 1, hi, group, idx - 1);
        lemma_nth_of_bounds(ls, lo + 1, hi, group, idx);
    }
}

/// A department record (`T-Group` or `C-Group`), or with `group` false a voice
/// channel (`TGID` or `C-Freq`).
pub open spec fn is_target_kind(l: SpecLine, group: bool) -> bool {
    if group {
        cmd_of(l) == "T-Group"@ || cmd_of(l) == "C-Group"@
    } else {
        cmd_of(l) == "TGID"@ || cmd_of(l) == "C-Freq"@
    }
}

/// How many department (or voice-channel) records lie in `[lo, hi)`.
pub open spec fn target_count(ls: Seq<SpecLine>, lo: int, hi: int, group: bool) -> nat
    decreases hi - lo,
{
    if lo >= hi {
        0
    } else {
        (if is_target_kind(ls[lo], group) { 1nat } else { 0nat }) + target_count(ls, lo + 1, hi, group)
    }
}

proof fn lemma_nth_of_counts(ls: Seq<SpecLine>, lo: int, hi: int, group: bool, idx: int, i: int)
    requires
        0 <= lo,
        hi <= ls.len(),
        0 <= idx,
    ensures
        nth_of(ls, lo, hi, group, idx) == Some(i) <==> (lo <= i < hi && is_target_kind(ls[i], group)
            && target_count(ls, lo, i, group) == idx),
    decreases hi - lo,
{
    if lo < hi {
        if of_class(ls[lo], group) {
            if idx > 0 {
                lemma_nth_of_counts(ls, lo + 1, hi, group, idx - 1, i);
            }
        } else {
            lemma_nth_of_counts(ls, lo + 1, hi, group, idx, i);
        }
    }
}

/// Which record an avoid toggle in system `si` reaches: at the system level the
/// system's own `Conventional`/`Trunk` header; at the department or channel level
/// the `idx`-th (from zero) `T-Group`/`C-Group` line, or `TGID`/`C-Freq` line,
/// among the system's lines, counted in file order.
pub proof fn lemma_locate_counts_records(ls: Seq<SpecLine>, si: int, group: bool, idx: int, i: int)
    requires
        0 <= si < starts(ls).len(),
        0 <= idx,
    ensures
        spec_locate(ls, si, if group { AvoidLevel::Group } else { AvoidLevel::Channel }, idx) == Some(i) <==> (
            spec_ranges(ls)[si].0 <= i < spec_ranges(ls)[si].1 && is_target_kind(ls[i], group)
            && target_count(ls, spec_ranges(ls)[si].0, i, group) == idx),
        spec_locate(ls, si, AvoidLevel::System, idx) == Some(spec_ranges(ls)[si].0),
        cmd_of(ls[spec_ranges(ls)[si].0]) == "Conventional"@ || cmd_of(ls[spec_ranges(ls)[si].0]) == "Trunk"@,
{
    crate::extract::lemma_starts_props(ls);
    lemma_nth_of_counts(ls, spec_ranges(ls)[si].0, spec_ranges(ls)[si].1, group, idx, i);
}

/// Avoiding (or scanning) the `idx`-th department of system `si` sets that
/// `T-Group`/`C-Group` line's Avoid column to `"On"` (or `"Off"`) and changes
/// nothing else.
pub proof fn lemma_set_avoid_department<P: SdCardProfile + ?Sized>(
    ls: Seq<SpecLine>,
    profile: &P,
    si: int,
    idx: int,
    i: int,
    col: usize,
    avoid: bool,
)
    requires
        0 <= si < starts(ls).len(),
        0 <= idx,
        spec_ranges(ls)[si].0 <= i < spec_ranges(ls)[si].1,
        cmd_of(ls[i]) == "T-Group"@ || cmd_of(ls[i]) == "C-Group"@,
        target_count(ls, spec_ranges(ls)[si].0, i, true) == idx,
        profile.spec_avoid_column(cmd_of(ls[i])) == Some(col),
        col < ls[i].fields.len(),
    ensures
        spec_set_avoid(ls, profile, si, AvoidLevel::Group, idx, avoid) == ls.update(
            i,
            SpecLine { fields: ls[i].fields.update(col as int, if avoid { "On"@ } else { "Off"@ }), ending: ls[i].ending },
        ),
{
    lemma_locate_counts_records(ls, si, true, idx, i);
    crate::extract::lemma_starts_props(ls);
}

/// Marking (or unmarking) the `idx`-th voice channel of system `si` as a priority
/// channel sets that `TGID`/`C-Freq` line's Priority column to `"On"` (or `"Off"`)
/// and changes nothing else.
pub proof fn lemma_set_priority_channel<P: SdCardProfile + ?Sized>(
    ls: Seq<SpecLine>,
    profile: &P,
    si: int,
    idx: int,
    i: int,
    col: usize,
    on: bool,
)
    requires
        0 <= si < starts(ls).len(),
        0 <= idx,
        spec_ranges(ls)[si].0 <= i < spec_ranges(ls)[si].1,
        cmd_of(ls[i]) == "TGID"@ || cmd_of(ls[i]) == "C-Freq"@,
        target_count(ls, spec_ranges(ls)[si].0, i, false) == idx,
        profile.spec_priority_column(cmd_of(ls[i])) == Some(col),
        col < ls[i].fields.len(),
    ensures
        (match spec_locate(ls, si, AvoidLevel::Channel, idx) {
            Some(li) => match profile.spec_priority_column(cmd_of(ls[li])) {
                Some(c) => set_field(ls, li, c as int, flag_text(on)),
                None => ls,
            },
            None => ls,
        }) == ls.update(
            i,
            SpecLine { fields: ls[i].fields.update(col as int, if on { "On"@ } else { "Off"@ }), ending: ls[i].ending },
        ),
{
    lemma_locate_counts_records(ls, si, false, idx, i);
    crate::extract::lemma_starts_props(ls);
}

/// Line index of the (system `si`, `level`, `idx`) target record within `doc`.
fn locate_record(doc: &Document, si: usize, level: AvoidLevel, idx: usize) -> (r: Option<usize>)
    ensures
        match spec_locate(doc@, si as int, level, idx as int) {
            Some(i) => 0 <= i < doc@.len() && r == Some(i as usize),
            None => r is None,
        },
{
    let ghost ls = doc@;
    proof { crate::extract::lemma_starts_props(ls); }
    let st = system_starts(doc);
    if si >= st.len() {
        return None;
    }
    let start = st[si];
    let end = if si + 1 < st.len() {
        st[si + 1]
    } else {
        doc.lines.len()
    };
    proof {
        if si + 1 < st.len() {
            assert(starts(ls)[si as int] < starts(ls)[si + 1]);
        }
    }
    let group = match level {
        AvoidLevel::System => {
            return Some(start);
        },
        AvoidLevel::Group => true,
        AvoidLevel::Channel => false,
    };
    proof { lemma_nth_of_bounds(ls, start as int, end as int, group, idx as int); }
    assert(spec_locate(ls, si as int, level, idx as int) == nth_of(ls, start as int, end as int, group, idx as int));
    let mut c: usize = 0;
    let mut j: usize = start;
    while j < end
        invariant
            start <= j <= end <= doc.lines@.len(),
            ls == doc@,
            c <= idx,
            spec_locate(ls, si as int, level, idx as int) == nth_of(ls, start as int, end as int, group, idx as int),
            nth_of(ls, start as int, end as int, group, idx as int) == nth_of(ls, j as int, end as int, group, idx - c),
        decreases end - j,
    {
        let cmd = doc.lines[j].command();
        let hit = if group {
            str_eq(cmd, "C-Group") || str_eq(cmd, "T-Group")
        } else {
            is_voice_channel(cmd)
        };
        assert(hit == of_class(ls[j as int], group));
        if hit {
            if c == idx {
                assert(nth_of(ls, j as int, end as int, group, 0) == Some(j as int));
                return Some(j);
            }
            c += 1;
        }
        j += 1;
    }
    None
}

/// The lines with field `col` of line `li` set to `v` (unchanged when the line is
/// shorter).
pub open spec fn set_field(ls: Seq<SpecLine>, li: int, col: int, v: Seq<char>) -> Seq<SpecLine> {
    if 0 <= li < ls.len() && 0 <= col < ls[li].fields.len() {
        ls.update(li, SpecLine { fields: ls[li].fields.update(col, v), ending: ls[li].ending })
    } else {
        ls
    }
}

/// Set the located record's resolved column to `value`. A copy when either is
/// unresolved.
fn set_record_value(doc: &Document, li: Option<usize>, col: Option<usize>, value: &str) -> (r: Document)
    ensures
        r@ == match (li, col) {
            (Some(i), Some(c)) => set_field(doc@, i as int, c as int, value@),
            _ => doc@,
        },
{
    let mut out = doc.duplicate();
    match (li, col) {
        (Some(i), Some(c)) => {
            if i < out.lines.len() && c < out.lines[i].fields.len() {
                let mut line = out.lines[i].duplicate();
                assert(line@.fields.len() == line.fields@.len());
                assert(out@[i as int].fields.len() == out.lines@[i as int].fields@.len());
                line.fields.set(c, copy_str(value));
                let ghost before = out@;
                out.lines.set(i, line);
                assert(line@.fields =~= doc@[i as int].fields.update(c as int, value@));
                assert(out@ =~= set_field(doc@, i as int, c as int, value@));
            }
        },
        _ => {},
    }
    out
}

/// Set an `On`/`Off` flag on the located record's resolved column.
fn set_record_flag(doc: &Document, li: Option<usize>, col: Option<usize>, on: bool) -> (r: Document)
    ensures
        r@ == match (li, col) {
            (Some(i), Some(c)) => set_field(doc@, i as int, c as int, flag_text(on)),
            _ => doc@,
        },
{
    let v = if on { "On" } else { "Off" };
    set_record_value(doc, li, col, v)
}

/// The text of an `On`/`Off` flag.
pub open spec fn flag_text(on: bool) -> Seq<char> {
    if on { "On"@ } else { "Off"@ }
}

/// The document after setting the Avoid flag of the (system, level, index) record.
pub open spec fn spec_set_avoid<P: SdCardProfile + ?Sized>(
    ls: Seq<SpecLine>,
    profile: &P,
    si: int,
    level: AvoidLevel,
    idx: int,
    avoid: bool,
) -> Seq<SpecLine> {
    match spec_locate(ls, si, level, idx) {
        Some(li) => match profile.spec_avoid_column(cmd_of(ls[li])) {
            Some(c) => set_field(ls, li, c as int, flag_text(avoid)),
            None => ls,
        },
        None => ls,
    }
}

/// Set the **Avoid** flag (`"On"` = skip / `"Off"` = scan) on one record in system
/// `si`, returning a new document. `idx` selects the department or channel within
/// the system (ignored for `System`). Avoiding a system or department skips its
/// channels without touching their own flags. A no-op copy if the target or its
/// avoid column can't be resolved.
pub fn set_avoid<P: SdCardProfile + ?Sized>(
    doc: &Document,
    profile: &P,
    si: usize,
    level: AvoidLevel,
    idx: usize,
    avoid: bool,
) -> (r: Document)
    ensures
        r@ == spec_set_avoid(doc@, profile, si as int, level, idx as int, avoid),
{
    let n = doc.lines.len();
    assert(doc@.len() == n);
    let li = locate_record(doc, si, level, idx);
    let col = match li {
        Some(i) => {
            assert(doc.lines@[i as int]@ == doc@[i as int]);
            profile.avoid_column(doc.lines[i].command())
        },
        None => None,
    };
    set_record_flag(doc, li, col, avoid)
}

/// Set the **Priority Channel** flag (`"On"` = priority / `"Off"`) on the `idx`-th
/// voice channel of system `si`, returning a new document. A no-op copy if the
/// target or its priority column can't be resolved.
pub fn set_priority<P: SdCardProfile + ?Sized>(doc: &Document, profile: &P, si: usize, idx: usize, on: bool) -> (r: Document)
    ensures
        r@ == match spec_locate(doc@, si as int, AvoidLevel::Channel, idx as int) {
            Some(li) => match profile.spec_priority_column(cmd_of(doc@[li])) {
                Some(c) => set_field(doc@, li, c as int, flag_text(on)),
                None => doc@,
            },
            None => doc@,
        },
{
    let n = doc.lines.len();
    assert(doc@.len() == n);
    let li = locate_record(doc, si, AvoidLevel::Channel, idx);
    let col = match li {
        Some(i) => {
            assert(doc.lines@[i as int]@ == doc@[i as int]);
            profile.priority_column(doc.lines[i].command())
        },
        None => None,
    };
    set_record_flag(doc, li, col, on)
}

/// Set an arbitrary per-channel value field (`field`, e.g. `"delay"`) on the
/// `idx`-th voice channel of system `si`, returning a new document. The value is
/// written verbatim. A no-op copy if the field/column can't be resolved.
pub fn set_channel_value<P: SdCardProfile + ?Sized>(
    doc: &Document,
    profile: &P,
    si: usize,
    idx: usize,
    field: &str,
    value: &str,
) -> (r: Document)
    ensures
        r@ == match spec_locate(doc@, si as int, AvoidLevel::Channel, idx as int) {
            Some(li) => match profile.spec_channel_value_column(cmd_of(doc@[li]), field@) {
                Some(c) => set_field(doc@, li, c as int, value@),
                None => doc@,
            },
            None => doc@,
        },
{
    let n = doc.lines.len();
    assert(doc@.len() == n);
    let li = locate_record(doc, si, AvoidLevel::Channel, idx);
    let col = match li {
        Some(i) => {
            assert(doc.lines@[i as int]@ == doc@[i as int]);
            profile.channel_value_column(doc.lines[i].command(), field)
        },
        None => None,
    };
    set_record_value(doc, li, col, value)
}

proof fn lemma_starts_same_commands(a: Seq<SpecLine>, b: Seq<SpecLine>)
    requires
        a.len() == b.len(),
        forall|i: int| 0 <= i < a.len() ==> #[trigger] cmd_of(a[i]) == cmd_of(b[i]),
    ensures
        starts(a) == starts(b),
    decreases a.len(),
{
    if a.len() > 0 {
        assert forall|i: int| 0 <= i < a.drop_last().len() implies #[trigger] cmd_of(a.drop_last()[i]) == cmd_of(b.drop_last()[i]) by {
            assert(cmd_of(a[i]) == cmd_of(b[i]));
        }
        lemma_starts_same_commands(a.drop_last(), b.drop_last());
        assert(cmd_of(a[a.len() - 1]) == cmd_of(b[b.len() - 1]));
    }
}

proof fn lemma_nth_same_commands(a: Seq<SpecLine>, b: Seq<SpecLine>, lo: int, hi: int, group: bool, idx: int)
    requires
        a.len() == b.len(),
        forall|i: int| 0 <= i < a.len() ==> #[trigger] cmd_of(a[i]) == cmd_of(b[i]),
    ensures
        nth_of(a, lo, hi, group, idx) == nth_of(b, lo, hi, group, idx),
    decreases hi - lo,
{
    if !(lo >= hi || lo < 0 || hi > a.len()) {
        assert(cmd_of(a[lo]) == cmd_of(b[lo]));
        lemma_nth_same_commands(a, b, lo + 1, hi, group, idx - 1);
        lemma_nth_same_commands(a, b, lo + 1, hi, group, idx);
    }
}

/// Setting the Avoid flag of a record twice leaves the last value: toggling a
/// flag on and back off is the same as setting it off (for profiles whose avoid
/// column is never the command column).
pub proof fn lemma_set_avoid_last_wins<P: SdCardProfile + ?Sized>(
    ls: Seq<SpecLine>,
    profile: &P,
    si: int,
    level: AvoidLevel,
    idx: int,
    first: bool,
    second: bool,
)
    requires
        forall|c: Seq<char>| #[trigger] profile.spec_avoid_column(c) != Some(0usize),
    ensures
        spec_set_avoid(spec_set_avoid(ls, profile, si, level, idx, first), profile, si, level, idx, second)
            == spec_set_avoid(ls, profile, si, level, idx, second),
{
    let once = spec_set_avoid(ls, profile, si, level, idx, first);
    match spec_locate(ls, si, level, idx) {
        Some(li) => {
            match profile.spec_avoid_column(cmd_of(ls[li])) {
                Some(c) => {
                    assert(c != 0);
                    assert forall|i: int| 0 <= i < ls.len() implies #[trigger] cmd_of(once[i]) == cmd_of(ls[i]) by {
                        if i == li && 0 <= c < ls[li].fields.len() {
                            assert(once[i].fields[0] == ls[i].fields[0]);
                        }
                    }
                    lemma_starts_same_commands(once, ls);
                    let st = starts(ls);
                    if 0 <= si < st.len() {
                        let end = if si + 1 < st.len() { st[si + 1] } else { ls.len() as int };
                        lemma_nth_same_commands(once, ls, st[si], end, true, idx);
                        lemma_nth_same_commands(once, ls, st[si], end, false, idx);
                    }
                    assert(spec_locate(once, si, level, idx) == Some(li));
                    assert(cmd_of(once[li]) == cmd_of(ls[li]));
                    if 0 <= li < ls.len() && 0 <= c < ls[li].fields.len() {
                        assert(once[li].fields.update(c as int, flag_text(second)) =~= ls[li].fields.update(
                            c as int,
                            flag_text(second),
                        ));
                        assert(set_field(once, li, c as int, flag_text(second)) =~= set_field(
                            ls,
                            li,
                            c as int,
                            flag_text(second),
                        ));
                    }
                },
                None => {},
            }
        },
        None => {},
    }
}

// ---------------------------------------------------------------------------
// Sorting systems.
// ---------------------------------------------------------------------------

/// A system's name under a profile (empty when it has none).
pub open spec fn system_name<P: SdCardProfile + ?Sized>(sys: Seq<SpecLine>, profile: &P) -> Seq<char> {
    match profile.spec_record_schema(cmd_of(sys[0])) {
        Some(s) => match nonempty_of(col_field(sys[0], s.name_col)) {
            Some(n) => n,
            None => Seq::empty(),
        },
        None => Seq::empty(),
    }
}

/// The sort key of each system: its name, lowercased.
pub open spec fn system_keys<P: SdCardProfile + ?Sized>(ls: Seq<SpecLine>, profile: &P) -> Seq<Seq<char>> {
    Seq::new(system_views(ls).len(), |k: int| lowercase(system_name(system_views(ls)[k], profile)))
}

/// Reorder a document's **systems alphabetically by name** (case-insensitively,
/// stable for equal names), preserving the preamble and each system's internal
/// structure (sites, groups, channels, DQKs).
pub fn sort_systems<P: SdCardProfile + ?Sized>(doc: &Document, profile: &P) -> (r: Document)
    ensures
        exists|perm: Seq<int>|
            #[trigger] stable_order(perm, system_keys(doc@, profile)) && r@ == doc@.take(preamble_end(doc@))
                + flatten(Seq::new(system_views(doc@).len(), |p: int| system_views(doc@)[perm[p]])),
{
    let ext = Extraction::segment(doc, profile);
    let systems = ext.systems();
    let ghost sv = system_views(doc@);
    let ghost keys = system_keys(doc@, profile);
    let mut key_strs: Vec<String> = Vec::new();
    let mut k: usize = 0;
    while k < systems.len()
        invariant
            k <= systems@.len(),
            systems@.len() == sv.len(),
            sv == system_views(doc@),
            keys == system_keys(doc@, profile),
            forall|m: int| 0 <= m < systems@.len() ==> (#[trigger] systems@[m])@ == sv[m],
            forall|m: int| 0 <= m < systems@.len() ==> (#[trigger] systems@[m]).spec_profile() == profile,
            key_strs@.len() == k,
            forall|m: int| 0 <= m < k ==> (#[trigger] key_strs@[m])@ == keys[m],
        decreases systems@.len() - k,
    {
        let name = match systems[k].name() {
            Some(n) => n,
            None => "",
        };
        proof { reveal_strlit(""); }
        assert(name@ == system_name(sv[k as int], profile));
        key_strs.push(to_lowercase(name));
        k += 1;
    }
    assert(Seq::new(key_strs@.len(), |m: int| key_strs@[m]@) =~= keys);
    let order = stable_sort_indices(&key_strs);
    let ghost perm = Seq::new(order@.len(), |p: int| order@[p] as int);
    let mut lines: Vec<Line> = Vec::new();
    push_lines(ext.preamble_lines(), &mut lines);
    let ghost pre = doc@.take(preamble_end(doc@));
    let ghost chosen = Seq::new(sv.len(), |p: int| sv[perm[p]]);
    let mut p: usize = 0;
    while p < order.len()
        invariant
            p <= order@.len(),
            order@.len() == sv.len(),
            systems@.len() == sv.len(),
            perm == Seq::new(order@.len(), |p: int| order@[p] as int),
            chosen == Seq::new(sv.len(), |p: int| sv[perm[p]]),
            forall|q: int| 0 <= q < order@.len() ==> (#[trigger] order@[q]) < sv.len(),
            forall|m: int| 0 <= m < systems@.len() ==> (#[trigger] systems@[m])@ == sv[m],
            lines_view(lines@) == pre + flatten(chosen.take(p as int)),
        decreases order@.len() - p,
    {
        let ghost before = lines_view(lines@);
        push_lines(systems[order[p]].lines(), &mut lines);
        proof {
            assert(chosen.take(p + 1).drop_last() =~= chosen.take(p as int));
            assert(chosen.take(p + 1).last() == sv[order@[p as int] as int]);
            assert(lines_view(lines@) =~= pre + flatten(chosen.take(p + 1)));
        }
        p += 1;
    }
    assert(chosen.take(order@.len() as int) =~= chosen);
    let r = Document { lines };
    assert(stable_order(perm, keys));
    r
}

// ---------------------------------------------------------------------------
// Merging favorites.
// ---------------------------------------------------------------------------

/// The identity of a voice channel: its talkgroup id, else its frequency.
pub enum SpecKey {
    Talkgroup(Seq<char>),
    Frequency(u64),
}

/// A voice channel's identity, for deduplication.
pub enum ChannelKey {
    Talkgroup(String),
    Frequency(u64),
}

impl View for ChannelKey {
    type V = SpecKey;

    open spec fn view(&self) -> SpecKey {
        match self {
            ChannelKey::Talkgroup(t) => SpecKey::Talkgroup(t@),
            ChannelKey::Frequency(f) => SpecKey::Frequency(*f),
        }
    }
}

/// The key of a typed record: its non-empty talkgroup id, else its frequency.
pub open spec fn record_key(r: (SpecLine, SpecSchema)) -> Option<SpecKey> {
    match nonempty_of(col_field(r.0, tgid_col(r.1))) {
        Some(t) => Some(SpecKey::Talkgroup(t)),
        None => match col_field(r.0, freq_col(r.1)) {
            Some(f) => match spec_parse_u64(f) {
                Some(v) => Some(SpecKey::Frequency(v)),
                None => None,
            },
            None => None,
        },
    }
}

/// The key of a line under a profile (none when the profile has no schema for it).
pub open spec fn line_key<P: SdCardProfile + ?Sized>(l: SpecLine, profile: &P) -> Option<SpecKey> {
    match profile.spec_record_schema(cmd_of(l)) {
        Some(s) => record_key((l, s)),
        None => None,
    }
}

pub open spec fn opt_key_view(o: Option<ChannelKey>) -> Option<SpecKey> {
    match o {
        Some(k) => Some(k@),
        None => None,
    }
}

/// Stable identity for a voice channel: its talkgroup id, else its frequency.
fn channel_key(rec: &Record) -> (r: Option<ChannelKey>)
    ensures
        opt_key_view(r) == record_key(rec@),
{
    match rec.talkgroup() {
        Some(t) => Some(ChannelKey::Talkgroup(copy_str(t))),
        None => match rec.frequency_hz() {
            Some(f) => Some(ChannelKey::Frequency(f)),
            None => None,
        },
    }
}

fn key_eq(a: &ChannelKey, b: &ChannelKey) -> (r: bool)
    ensures
        r == (a@ == b@),
{
    match (a, b) {
        (ChannelKey::Talkgroup(x), ChannelKey::Talkgroup(y)) => str_eq(x.as_str(), y.as_str()),
        (ChannelKey::Frequency(x), ChannelKey::Frequency(y)) => *x == *y,
        _ => false,
    }
}

/// The keys of a list.
pub open spec fn keys_view(v: Seq<ChannelKey>) -> Seq<SpecKey> {
    Seq::new(v.len(), |i: int| v[i]@)
}

fn keys_contain(v: &Vec<ChannelKey>, k: &ChannelKey) -> (r: bool)
    ensures
        r == keys_view(v@).contains(k@),
{
    let mut i: usize = 0;
    while i < v.len()
        invariant
            i <= v@.len(),
            forall|m: int| 0 <= m < i ==> keys_view(v@)[m] != k@,
        decreases v@.len() - i,
    {
        if key_eq(&v[i], k) {
            assert(keys_view(v@)[i as int] == k@);
            return true;
        }
        i += 1;
    }
    false
}

/// The keys of the voice channels among some lines.
pub open spec fn channel_key_set<P: SdCardProfile + ?Sized>(ls: Seq<SpecLine>, profile: &P) -> Set<SpecKey>
    decreases ls.len(),
{
    if ls.len() == 0 {
        Set::empty()
    } else {
        let prev = channel_key_set(ls.drop_last(), profile);
        if is_voice_cmd(cmd_of(ls.last())) {
            match line_key(ls.last(), profile) {
                Some(k) => prev.insert(k),
                None => prev,
            }
        } else {
            prev
        }
    }
}

/// The channel keys already present in a system.
fn channel_keys<P: SdCardProfile + ?Sized>(lines: &[Line], profile: &P) -> (r: Vec<ChannelKey>)
    ensures
        forall|k: SpecKey| #[trigger] keys_view(r@).contains(k) <==> channel_key_set(lines_view(lines@), profile).contains(k),
{
    let ghost ls = lines_view(lines@);
    let mut out: Vec<ChannelKey> = Vec::new();
    let mut i: usize = 0;
    while i < lines.len()
        invariant
            i <= lines@.len(),
            ls == lines_view(lines@),
            forall|k: SpecKey| #[trigger] keys_view(out@).contains(k) <==> channel_key_set(ls.take(i as int), profile).contains(k),
        decreases lines@.len() - i,
    {
        let l = &lines[i];
        proof {
            assert(ls.take(i + 1).drop_last() =~= ls.take(i as int));
            assert(ls.take(i + 1).last() == l@);
        }
        let ghost before = keys_view(out@);
        if is_voice_channel(l.command()) {
            match Record::new(l, profile) {
                Some(rec) => match channel_key(&rec) {
                    Some(key) => {
                        let ghost kv = key@;
                        out.push(key);
                        assert(keys_view(out@) =~= before.push(kv));
                        assert forall|k: SpecKey| #[trigger] keys_view(out@).contains(k) <==> channel_key_set(
                            ls.take(i + 1),
                            profile,
                        ).contains(k) by {
                            if keys_view(out@).contains(k) && k != kv {
                                let m = choose|m: int| 0 <= m < keys_view(out@).len() && keys_view(out@)[m] == k;
                                assert(before[m] == k);
                            }
                            if before.contains(k) {
                                let m = choose|m: int| 0 <= m < before.len() && before[m] == k;
                                assert(keys_view(out@)[m] == k);
                            }
                            assert(keys_view(out@)[before.len() as int] == kv);
                        }
                    },
                    None => {},
                },
                None => {},
            }
        }
        i += 1;
    }
    assert(ls.take(lines@.len() as int) =~= ls);
    out
}

/// A voice line is new when it has no key or its key is not among `existing`.
pub open spec fn is_new_channel<P: SdCardProfile + ?Sized>(l: SpecLine, existing: Set<SpecKey>, profile: &P) -> bool {
    match line_key(l, profile) {
        Some(k) => !existing.contains(k),
        None => true,
    }
}

/// A pending group's output: the group line, its `Rectangle` bounds and its new
/// channels, or nothing when it has no new channel (or there is no group).
pub open spec fn flush(group: Option<SpecLine>, extra: Seq<SpecLine>, kept: Seq<SpecLine>) -> Seq<SpecLine> {
    match group {
        Some(g) => if kept.len() > 0 { seq![g] + extra + kept } else { Seq::empty() },
        None => Seq::empty(),
    }
}

/// The state after reading the first `n` lines of an addition system: what was
/// emitted, the pending group, its bounds, and its new channels.
pub open spec fn new_groups_state<P: SdCardProfile + ?Sized>(
    ls: Seq<SpecLine>,
    n: int,
    existing: Set<SpecKey>,
    profile: &P,
) -> (Seq<SpecLine>, Option<SpecLine>, Seq<SpecLine>, Seq<SpecLine>)
    decreases n,
{
    if n <= 0 {
        (Seq::empty(), None, Seq::empty(), Seq::empty())
    } else {
        let (em, g, ex, kp) = new_groups_state(ls, n - 1, existing, profile);
        let l = ls[n - 1];
        let c = cmd_of(l);
        if is_group_cmd(c) {
            (em + flush(g, ex, kp), Some(l), Seq::empty(), Seq::empty())
        } else if is_voice_cmd(c) {
            if is_new_channel(l, existing, profile) {
                (em, g, ex, kp.push(l))
            } else {
                (em, g, ex, kp)
            }
        } else if c == "Rectangle"@ && g is Some {
            (em, g, ex.push(l), kp)
        } else {
            (em, g, ex, kp)
        }
    }
}

/// The groups of an addition system whose channels aren't already present, each
/// with only its new channels (and its `Rectangle` bounds).
pub open spec fn new_groups<P: SdCardProfile + ?Sized>(ls: Seq<SpecLine>, existing: Set<SpecKey>, profile: &P) -> Seq<SpecLine> {
    let (em, g, ex, kp) = new_groups_state(ls, ls.len() as int, existing, profile);
    em + flush(g, ex, kp)
}

/// Append the addition system's groups whose channels aren't already in
/// `existing`, keeping only the new channels (and the group's `Rectangle` bounds).
/// Emits nothing for groups with no new channels.
fn append_new_groups<P: SdCardProfile + ?Sized>(
    lines: &[Line],
    existing: &Vec<ChannelKey>,
    ex_set: Ghost<Set<SpecKey>>,
    profile: &P,
    out: &mut Vec<Line>,
)
    requires
        forall|k: SpecKey| #[trigger] keys_view(existing@).contains(k) <==> ex_set@.contains(k),
    ensures
        lines_view(final(out)@) == lines_view(old(out)@) + new_groups(lines_view(lines@), ex_set@, profile),
{
    let ghost ls = lines_view(lines@);
    let ghost base = lines_view(out@);
    let mut group: Option<Line> = None;
    let mut extra: Vec<Line> = Vec::new();
    let mut kept: Vec<Line> = Vec::new();
    let mut i: usize = 0;
    while i < lines.len()
        invariant
            i <= lines@.len(),
            ls == lines_view(lines@),
            base == lines_view(old(out)@),
            forall|k: SpecKey| #[trigger] keys_view(existing@).contains(k) <==> ex_set@.contains(k),
            ({
                let (em, g, ex, kp) = new_groups_state(ls, i as int, ex_set@, profile);
                &&& lines_view(out@) == base + em
                &&& g == opt_line_view(group)
                &&& lines_view(extra@) == ex
                &&& lines_view(kept@) == kp
            }),
        decreases lines@.len() - i,
    {
        proof { crate::extract::lemma_cmd_classes_pub(); }
        let line = &lines[i];
        assert(line@ == ls[i as int]);
        let cmd = line.command();
        let ghost st = new_groups_state(ls, i as int, ex_set@, profile);
        if str_eq(cmd, "T-Group") || str_eq(cmd, "C-Group") {
            flush_group(&mut group, &mut extra, &mut kept, out);
            group = Some(line.duplicate());
        } else if is_voice_channel(cmd) {
            let new = match Record::new(line, profile) {
                Some(rec) => match channel_key(&rec) {
                    Some(k) => !keys_contain(existing, &k),
                    None => true,
                },
                None => true,
            };
            assert(new == is_new_channel(line@, ex_set@, profile));
            if new {
                let ghost kb = lines_view(kept@);
                kept.push(line.duplicate());
                assert(lines_view(kept@) =~= kb.push(line@));
            }
        } else if str_eq(cmd, "Rectangle") && group.is_some() {
            let ghost eb = lines_view(extra@);
            extra.push(line.duplicate());
            assert(lines_view(extra@) =~= eb.push(line@));
        }
        i += 1;
    }
    assert(ls.len() == lines@.len());
    flush_group(&mut group, &mut extra, &mut kept, out);
}

/// The view of an optional line.
pub open spec fn opt_line_view(o: Option<Line>) -> Option<SpecLine> {
    match o {
        Some(l) => Some(l@),
        None => None,
    }
}

/// Emit the pending group (when it has new channels) and reset the state.
fn flush_group(group: &mut Option<Line>, extra: &mut Vec<Line>, kept: &mut Vec<Line>, out: &mut Vec<Line>)
    ensures
        lines_view(final(out)@) == lines_view(old(out)@) + flush(
            opt_line_view(*old(group)),
            lines_view(old(extra)@),
            lines_view(old(kept)@),
        ),
        *final(group) is None,
        final(extra)@.len() == 0,
        final(kept)@.len() == 0,
{
    let ghost g0 = opt_line_view(*group);
    let ghost e0 = lines_view(extra@);
    let ghost k0 = lines_view(kept@);
    let ghost o0 = lines_view(out@);
    let taken = group.take();
    match taken {
        Some(g) => {
            if kept.len() > 0 {
                out.push(g);
                push_lines(extra.as_slice(), out);
                push_lines(kept.as_slice(), out);
                assert(lines_view(out@) =~= o0 + flush(g0, e0, k0));
            } else {
                assert(flush(g0, e0, k0) =~= Seq::<SpecLine>::empty());
                assert(lines_view(out@) =~= o0 + flush(g0, e0, k0));
            }
        },
        None => {
            assert(lines_view(out@) =~= o0 + flush(g0, e0, k0));
        },
    }
    extra.clear();
    kept.clear();
}

/// The merge key of a system: its header command and name. (Headers are
/// `Conventional`/`Trunk`, so this pair identifies the same systems as the text
/// `command|name`.)
pub open spec fn system_key<P: SdCardProfile + ?Sized>(sys: Seq<SpecLine>, profile: &P) -> (Seq<char>, Seq<char>) {
    (cmd_of(sys[0]), system_name(sys, profile))
}

/// The first system of `sv` with the given key.
pub open spec fn first_with_key<P: SdCardProfile + ?Sized>(
    sv: Seq<Seq<SpecLine>>,
    key: (Seq<char>, Seq<char>),
    profile: &P,
) -> Option<int>
    decreases sv.len(),
{
    if sv.len() == 0 {
        None
    } else {
        match first_with_key(sv.drop_last(), key, profile) {
            Some(i) => Some(i),
            None => if system_key(sv.last(), profile) == key {
                Some(sv.len() - 1)
            } else {
                None
            },
        }
    }
}

/// What base system `bs` becomes in a merge: itself, then the new groups of the
/// first addition system with the same key.
pub open spec fn merged_system<P: SdCardProfile + ?Sized>(bs: Seq<SpecLine>, asv: Seq<Seq<SpecLine>>, profile: &P) -> Seq<SpecLine> {
    match first_with_key(asv, system_key(bs, profile), profile) {
        Some(ai) => bs + new_groups(asv[ai], channel_key_set(bs, profile), profile),
        None => bs,
    }
}

/// Addition system `i` was merged into some base system.
pub open spec fn merged_into_base<P: SdCardProfile + ?Sized>(
    bsv: Seq<Seq<SpecLine>>,
    asv: Seq<Seq<SpecLine>>,
    i: int,
    profile: &P,
) -> bool {
    exists|b: int| 0 <= b < bsv.len() && #[trigger] first_with_key(asv, system_key(bsv[b], profile), profile) == Some(i)
}

/// Each base system as merged.
pub open spec fn merged_systems<P: SdCardProfile + ?Sized>(
    bsv: Seq<Seq<SpecLine>>,
    asv: Seq<Seq<SpecLine>>,
    profile: &P,
) -> Seq<Seq<SpecLine>> {
    Seq::new(bsv.len(), |b: int| merged_system(bsv[b], asv, profile))
}

/// Which addition systems matched no base system.
pub open spec fn unmerged<P: SdCardProfile + ?Sized>(
    bsv: Seq<Seq<SpecLine>>,
    asv: Seq<Seq<SpecLine>>,
    profile: &P,
) -> Seq<bool> {
    Seq::new(asv.len(), |i: int| !merged_into_base(bsv, asv, i, profile))
}

/// The merge of two favorites documents: the base preamble, each base system
/// with its matching addition system's new channels, then every addition system
/// that matched none, whole.
pub open spec fn spec_merge<P: SdCardProfile + ?Sized>(base: Seq<SpecLine>, addition: Seq<SpecLine>, profile: &P) -> Seq<SpecLine> {
    let bsv = system_views(base);
    let asv = system_views(addition);
    base.take(preamble_end(base)) + flatten(merged_systems(bsv, asv, profile)) + flatten_kept(
        asv,
        unmerged(bsv, asv, profile),
    )
}

/// Position of the first addition system with the given header command and name.
fn find_system<P: SdCardProfile + ?Sized>(systems: &Vec<System<P>>, command: &str, name: &str, profile: &P) -> (r: Option<usize>)
    requires
        forall|m: int| 0 <= m < systems@.len() ==> (#[trigger] systems@[m]).spec_profile() == profile,
        forall|m: int| 0 <= m < systems@.len() ==> (#[trigger] systems@[m])@.len() > 0,
    ensures
        match first_with_key(Seq::new(systems@.len(), |m: int| systems@[m]@), (command@, name@), profile) {
            Some(i) => r == Some(i as usize) && 0 <= i < systems@.len(),
            None => r is None,
        },
{
    let ghost sv = Seq::new(systems@.len(), |m: int| systems@[m]@);
    let mut i: usize = 0;
    while i < systems.len()
        invariant
            i <= systems@.len(),
            sv == Seq::new(systems@.len(), |m: int| systems@[m]@),
            forall|m: int| 0 <= m < systems@.len() ==> (#[trigger] systems@[m]).spec_profile() == profile,
            forall|m: int| 0 <= m < systems@.len() ==> (#[trigger] systems@[m])@.len() > 0,
            first_with_key(sv.take(i as int), (command@, name@), profile) is None,
        decreases systems@.len() - i,
    {
        let sys = &systems[i];
        let sname = match sys.name() {
            Some(n) => n,
            None => "",
        };
        proof { reveal_strlit(""); }
        let hcmd = sys.header().command();
        assert(hcmd@ == cmd_of(sys@[0]));
        assert(sname@ == system_name(sys@, profile));
        let hit = str_eq(hcmd, command) && str_eq(sname, name);
        proof {
            assert(sv.take(i + 1).drop_last() =~= sv.take(i as int));
            assert(sv.take(i + 1).last() == sys@);
            assert(hit == (system_key(sys@, profile) == (command@, name@)));
        }
        if hit {
            proof { lemma_first_with_key_prefix(sv, (command@, name@), profile, i as int); }
            return Some(i);
        }
        i += 1;
    }
    assert(sv.take(systems@.len() as int) =~= sv);
    None
}

proof fn lemma_first_with_key_prefix<P: SdCardProfile + ?Sized>(
    sv: Seq<Seq<SpecLine>>,
    key: (Seq<char>, Seq<char>),
    profile: &P,
    i: int,
)
    requires
        0 <= i < sv.len(),
        first_with_key(sv.take(i), key, profile) is None,
        system_key(sv[i], profile) == key,
    ensures
        first_with_key(sv, key, profile) == Some(i),
    decreases sv.len(),
{
    assert(sv.take(i + 1).drop_last() =~= sv.take(i));
    if sv.len() > i + 1 {
        assert(sv.drop_last().take(i) =~= sv.take(i));
        lemma_first_with_key_prefix(sv.drop_last(), key, profile, i);
    } else {
        assert(sv.take(i + 1) =~= sv);
    }
}

/// Merge `addition`'s systems into `base`, **deduping by system and channel** so
/// adding to a list doesn't create duplicates. A system in `addition` that matches
/// a `base` system (same kind + name) has its *new* channels (by talkgroup id /
/// frequency, grouped) appended to that base system; an unmatched system is
/// appended whole. Stays favorites dialect (selection of existing lines).
pub fn merge_favorites<P: SdCardProfile + ?Sized>(base: &Document, addition: &Document, profile: &P) -> (r: Document)
    ensures
        r@ == spec_merge(base@, addition@, profile),
{
    let base_ext = Extraction::segment(base, profile);
    let add_ext = Extraction::segment(addition, profile);
    let bsys = base_ext.systems();
    let asys = add_ext.systems();
    let ghost bsv = system_views(base@);
    let ghost asv = system_views(addition@);
    assert(Seq::new(asys@.len(), |m: int| asys@[m]@) =~= asv);
    let mut out: Vec<Line> = Vec::new();
    push_lines(base_ext.preamble_lines(), &mut out);
    let ghost pre = base@.take(preamble_end(base@));
    let ghost merged = merged_systems(bsv, asv, profile);
    let mut used: Vec<bool> = Vec::new();
    let mut k: usize = 0;
    while k < asys.len()
        invariant
            k <= asys@.len(),
            used@.len() == k,
            forall|m: int| 0 <= m < k ==> !(#[trigger] used@[m]),
        decreases asys@.len() - k,
    {
        used.push(false);
        k += 1;
    }
    let mut b: usize = 0;
    while b < bsys.len()
        invariant
            b <= bsys@.len(),
            bsys@.len() == bsv.len(),
            asys@.len() == asv.len(),
            bsv == system_views(base@),
            asv == system_views(addition@),
            Seq::new(asys@.len(), |m: int| asys@[m]@) == asv,
            merged == merged_systems(bsv, asv, profile),
            forall|m: int| 0 <= m < bsys@.len() ==> (#[trigger] bsys@[m])@ == bsv[m],
            forall|m: int| 0 <= m < asys@.len() ==> (#[trigger] asys@[m])@ == asv[m],
            forall|m: int| 0 <= m < bsys@.len() ==> (#[trigger] bsys@[m]).spec_profile() == profile,
            forall|m: int| 0 <= m < asys@.len() ==> (#[trigger] asys@[m]).spec_profile() == profile,
            forall|m: int| 0 <= m < asys@.len() ==> (#[trigger] asys@[m])@.len() > 0,
            used@.len() == asv.len(),
            forall|i: int| 0 <= i < asv.len() ==> #[trigger] used@[i] == merged_into_base(bsv.take(b as int), asv, i, profile),
            lines_view(out@) == pre + flatten(merged.take(b as int)),
        decreases bsys@.len() - b,
    {
        let sys = &bsys[b];
        let ghost before = lines_view(out@);
        let sl = sys.lines();
        push_lines(sl, &mut out);
        let name = match sys.name() {
            Some(n) => n,
            None => "",
        };
        proof { reveal_strlit(""); }
        assert(name@ == system_name(bsv[b as int], profile));
        let hcmd = sys.header().command();
        assert(hcmd@ == cmd_of(bsv[b as int][0]));
        let found = find_system(&asys, hcmd, name, profile);
        let ghost key = system_key(bsv[b as int], profile);
        assert(key == (hcmd@, name@));
        let ghost used_before = used@;
        let ghost mid_out = lines_view(out@);
        assert(mid_out == before + bsv[b as int]);
        match found {
            Some(ai) => {
                used.set(ai, true);
                let existing = channel_keys(sl, profile);
                let al = asys[ai].lines();
                append_new_groups(
                    al,
                    &existing,
                    Ghost(channel_key_set(bsv[b as int], profile)),
                    profile,
                    &mut out,
                );
                assert(lines_view(al@) == asv[ai as int]);
                assert(lines_view(out@) == before + merged_system(bsv[b as int], asv, profile));
            },
            None => {
                assert(lines_view(out@) == before + merged_system(bsv[b as int], asv, profile));
            },
        }
        proof {
            assert(merged.take(b + 1).drop_last() =~= merged.take(b as int));
            assert(merged.take(b + 1).last() == merged_system(bsv[b as int], asv, profile));
            assert(lines_view(out@) =~= pre + flatten(merged.take(b + 1)));
            assert forall|i: int| 0 <= i < asv.len() implies #[trigger] used@[i] == merged_into_base(
                bsv.take(b + 1),
                asv,
                i,
                profile,
            ) by {
                let t1 = bsv.take(b + 1);
                let t0 = bsv.take(b as int);
                if merged_into_base(t0, asv, i, profile) {
                    let w = choose|w: int| 0 <= w < t0.len() && #[trigger] first_with_key(asv, system_key(t0[w], profile), profile) == Some(i);
                    assert(t1[w] == t0[w]);
                }
                if merged_into_base(t1, asv, i, profile) {
                    let w = choose|w: int| 0 <= w < t1.len() && #[trigger] first_with_key(asv, system_key(t1[w], profile), profile) == Some(i);
                    if w < b {
                        assert(t1[w] == t0[w]);
                    }
                }
                assert(t1[b as int] == bsv[b as int]);
                assert(first_with_key(asv, system_key(t1[b as int], profile), profile) == first_with_key(asv, key, profile));
            }
        }
        b += 1;
    }
    assert(bsv.take(bsys@.len() as int) =~= bsv);
    assert(merged.take(bsys@.len() as int) =~= merged);
    let ghost keep = unmerged(bsv, asv, profile);
    let ghost mid = lines_view(out@);
    let mut i: usize = 0;
    while i < asys.len()
        invariant
            i <= asys@.len(),
            asys@.len() == asv.len(),
            asv == system_views(addition@),
            forall|m: int| 0 <= m < asys@.len() ==> (#[trigger] asys@[m])@ == asv[m],
            used@.len() == asv.len(),
            keep == unmerged(bsv, asv, profile),
            forall|m: int| 0 <= m < asv.len() ==> #[trigger] used@[m] == !keep[m],
            lines_view(out@) == mid + flatten_kept(asv.take(i as int), keep.take(i as int)),
        decreases asys@.len() - i,
    {
        let ghost before = lines_view(out@);
        if !used[i] {
            push_lines(asys[i].lines(), &mut out);
        }
        proof {
            assert(asv.take(i + 1).drop_last() =~= asv.take(i as int));
            assert(keep.take(i + 1).drop_last() =~= keep.take(i as int));
            assert(keep.take(i + 1).last() == keep[i as int]);
            assert(asv.take(i + 1).last() == asv[i as int]);
            assert(lines_view(out@) =~= mid + flatten_kept(asv.take(i + 1), keep.take(i + 1)));
        }
        i += 1;
    }
    assert(asv.take(asys@.len() as int) =~= asv);
    assert(keep.take(asys@.len() as int) =~= keep);
    assert(lines_view(out@) =~= spec_merge(base@, addition@, profile));
    Document { lines: out }
}


/// Every voice channel of each system has a key (a talkgroup id or a frequency).
pub open spec fn all_channels_keyed<P: SdCardProfile + ?Sized>(sv: Seq<Seq<SpecLine>>, profile: &P) -> bool {
    forall|b: int, j: int|
        0 <= b < sv.len() && 0 <= j < sv[b].len() && is_voice_cmd(cmd_of(#[trigger] sv[b][j]))
            ==> line_key(sv[b][j], profile) is Some
}

/// No two systems share a kind and a name.
pub open spec fn distinct_system_keys<P: SdCardProfile + ?Sized>(sv: Seq<Seq<SpecLine>>, profile: &P) -> bool {
    forall|a: int, b: int|
        0 <= a < b < sv.len() ==> system_key(#[trigger] sv[a], profile) != system_key(#[trigger] sv[b], profile)
}

proof fn lemma_key_set_has_line_keys<P: SdCardProfile + ?Sized>(ls: Seq<SpecLine>, profile: &P)
    ensures
        forall|j: int|
            0 <= j < ls.len() && is_voice_cmd(cmd_of(#[trigger] ls[j])) && line_key(ls[j], profile) is Some
                ==> channel_key_set(ls, profile).contains(line_key(ls[j], profile)->0),
    decreases ls.len(),
{
    if ls.len() > 0 {
        let p = ls.drop_last();
        lemma_key_set_has_line_keys(p, profile);
        assert forall|j: int|
            0 <= j < ls.len() && is_voice_cmd(cmd_of(#[trigger] ls[j])) && line_key(ls[j], profile) is Some
                implies channel_key_set(ls, profile).contains(line_key(ls[j], profile)->0) by {
            if j < ls.len() - 1 {
                assert(p[j] == ls[j]);
            }
        }
    }
}

proof fn lemma_new_groups_state_empty<P: SdCardProfile + ?Sized>(
    ls: Seq<SpecLine>,
    n: int,
    existing: Set<SpecKey>,
    profile: &P,
)
    requires
        0 <= n <= ls.len(),
        forall|j: int|
            0 <= j < ls.len() && is_voice_cmd(cmd_of(#[trigger] ls[j])) ==> match line_key(ls[j], profile) {
                Some(k) => existing.contains(k),
                None => false,
            },
    ensures
        new_groups_state(ls, n, existing, profile).0.len() == 0,
        new_groups_state(ls, n, existing, profile).3.len() == 0,
    decreases n,
{
    if n > 0 {
        lemma_new_groups_state_empty(ls, n - 1, existing, profile);
        let l = ls[n - 1];
        if is_voice_cmd(cmd_of(l)) {
            assert(!is_new_channel(l, existing, profile));
        }
    }
}

proof fn lemma_first_with_key_found<P: SdCardProfile + ?Sized>(
    sv: Seq<Seq<SpecLine>>,
    key: (Seq<char>, Seq<char>),
    profile: &P,
)
    ensures
        match first_with_key(sv, key, profile) {
            Some(i) => 0 <= i < sv.len() && system_key(sv[i], profile) == key,
            None => true,
        },
    decreases sv.len(),
{
    if sv.len() > 0 {
        lemma_first_with_key_found(sv.drop_last(), key, profile);
        match first_with_key(sv.drop_last(), key, profile) {
            Some(i) => { assert(sv.drop_last()[i] == sv[i]); },
            None => {},
        }
    }
}

proof fn lemma_flatten_kept_none(ss: Seq<Seq<SpecLine>>, keep: Seq<bool>)
    requires
        forall|i: int| 0 <= i < keep.len() ==> !(#[trigger] keep[i]),
    ensures
        flatten_kept(ss, keep).len() == 0,
    decreases ss.len(),
{
    if ss.len() > 0 && keep.len() == ss.len() {
        let kd = keep.drop_last();
        assert forall|i: int| 0 <= i < kd.len() implies !(#[trigger] kd[i]) by {
            assert(kd[i] == keep[i]);
        }
        lemma_flatten_kept_none(ss.drop_last(), kd);
        assert(!keep[keep.len() - 1]);
    }
}

/// Adding a favorites document to itself adds nothing: the merge gives the
/// document back, when its systems are told apart by kind and name and each of
/// its channels has a talkgroup id or a frequency.
pub proof fn lemma_merge_with_itself<P: SdCardProfile + ?Sized>(ls: Seq<SpecLine>, profile: &P)
    requires
        distinct_system_keys(system_views(ls), profile),
        all_channels_keyed(system_views(ls), profile),
    ensures
        spec_merge(ls, ls, profile) == ls,
{
    let sv = system_views(ls);
    crate::extract::lemma_segments_partition(ls);
    assert forall|b: int| 0 <= b < sv.len() implies #[trigger] merged_system(sv[b], sv, profile) == sv[b] by {
        let key = system_key(sv[b], profile);
        assert(first_with_key(sv.take(b), key, profile) is None) by {
            lemma_first_with_key_found(sv.take(b), key, profile);
            match first_with_key(sv.take(b), key, profile) {
                Some(i) => {
                    assert(sv.take(b)[i] == sv[i]);
                    assert(system_key(sv[i], profile) != system_key(sv[b], profile));
                },
                None => {},
            }
        }
        lemma_first_with_key_prefix(sv, key, profile, b);
        let bs = sv[b];
        let ks = channel_key_set(bs, profile);
        lemma_key_set_has_line_keys(bs, profile);
        assert forall|j: int| 0 <= j < bs.len() && is_voice_cmd(cmd_of(#[trigger] bs[j])) implies match line_key(
            bs[j],
            profile,
        ) {
            Some(k) => ks.contains(k),
            None => false,
        } by {
            assert(line_key(sv[b][j], profile) is Some);
        }
        lemma_new_groups_state_empty(bs, bs.len() as int, ks, profile);
        assert(new_groups(bs, ks, profile) =~= Seq::<SpecLine>::empty());
        assert(bs + new_groups(bs, ks, profile) =~= bs);
    }
    assert(merged_systems(sv, sv, profile) =~= sv);
    let keep = unmerged(sv, sv, profile);
    assert forall|i: int| 0 <= i < keep.len() implies !(#[trigger] keep[i]) by {
        assert(merged_system(sv[i], sv, profile) == sv[i]);
        assert(first_with_key(sv, system_key(sv[i], profile), profile) == Some(i)) by {
            lemma_first_with_key_found(sv.take(i), system_key(sv[i], profile), profile);
            match first_with_key(sv.take(i), system_key(sv[i], profile), profile) {
                Some(m) => {
                    assert(sv.take(i)[m] == sv[m]);
                    assert(system_key(sv[m], profile) != system_key(sv[i], profile));
                },
                None => {},
            }
            lemma_first_with_key_prefix(sv, system_key(sv[i], profile), profile, i);
        }
        assert(merged_into_base(sv, sv, i, profile));
    }
    lemma_flatten_kept_none(sv, keep);
    assert(spec_merge(ls, ls, profile) =~= ls.take(preamble_end(ls)) + flatten(sv));
}

} // verus!
