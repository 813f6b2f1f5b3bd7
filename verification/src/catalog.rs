//! The channel-level catalog of an HPDB document: for each system its name, kind,
//! technology, counties, site count and voice channels (with the attributes a
//! browsing UI shows), and that catalog as JSON; the service-type table as JSON.

use vstd::prelude::*;
use crate::device::SdCardProfile;
use crate::device::profile::SpecSchema;
use crate::library::{lemma_library_id_read_back, library_channel_id};
use crate::extract::{Extraction, area_ids, is_voice_channel, is_voice_cmd, sys_name_of, sys_tech_of, system_views};
use crate::format::{Document, Line, SpecLine, lines_view, spec_command, spec_field};
use crate::model::{CountyIndex, Record, col_field, counties_view, freq_col, keyed_id, keyed_of, mode_col, nonempty_of, rec_name, service_col, spec_keyed_id, tgid_col};
use crate::text::{copy_str, decimal, push_decimal, spec_parse_u16, spec_parse_u64};
use crate::ui::{
    channel_id, cmd_of, jopt_num, jopt_str, join, jstr, lemma_join_step, make_id, opt_nat16, opt_nat64, opt_owned,
    opt_str_owned, or_empty, push_json_string, push_opt_json, push_opt_num, push_str, spec_channel_id, str_or_empty,
    system_id,
};

verus! {

/// One voice channel of the catalog.
#[derive(Debug, Clone, PartialEq)]
pub struct CatalogChannel {
    /// `s<system>c<channel>`, the channel counted among the system's catalogued
    /// voice channels.
    pub id: String,
    pub name: String,
    pub tgid: Option<String>,
    pub freq_hz: Option<u64>,
    pub mode: Option<String>,
    pub service_type: Option<u16>,
}

/// One system of the catalog.
#[derive(Debug, Clone, PartialEq)]
pub struct CatalogSystem {
    /// `s<system>`.
    pub id: String,
    pub name: String,
    /// The header command (`Conventional` / `Trunk`).
    pub kind: String,
    pub tech: Option<String>,
    /// The `AreaCounty` ids, ascending.
    pub counties: Vec<u64>,
    /// The number of `Site` records.
    pub site_count: usize,
    pub channels: Vec<CatalogChannel>,
}

pub struct SpecCatalogChannel {
    pub id: Seq<char>,
    pub name: Seq<char>,
    pub tgid: Option<Seq<char>>,
    pub freq_hz: Option<u64>,
    pub mode: Option<Seq<char>>,
    pub service_type: Option<u16>,
}

pub struct SpecCatalogSystem {
    pub id: Seq<char>,
    pub name: Seq<char>,
    pub kind: Seq<char>,
    pub tech: Option<Seq<char>>,
    pub counties: Seq<u64>,
    pub site_count: nat,
    pub channels: Seq<SpecCatalogChannel>,
}

impl View for CatalogChannel {
    type V = SpecCatalogChannel;

    open spec fn view(&self) -> SpecCatalogChannel {
        SpecCatalogChannel {
            id: self.id@,
            name: self.name@,
            tgid: opt_owned(self.tgid),
            freq_hz: self.freq_hz,
            mode: opt_owned(self.mode),
            service_type: self.service_type,
        }
    }
}

/// The channels' views.
pub open spec fn channels_view(v: Seq<CatalogChannel>) -> Seq<SpecCatalogChannel> {
    Seq::new(v.len(), |k: int| v[k]@)
}

impl View for CatalogSystem {
    type V = SpecCatalogSystem;

    open spec fn view(&self) -> SpecCatalogSystem {
        SpecCatalogSystem {
            id: self.id@,
            name: self.name@,
            kind: self.kind@,
            tech: opt_owned(self.tech),
            counties: self.counties@,
            site_count: self.site_count as nat,
            channels: channels_view(self.channels@),
        }
    }
}

/// The catalog entry of a voice channel record (`sc` its schema), the `ci`-th
/// catalogued channel of system `si`.
pub open spec fn catalog_channel(l: SpecLine, sc: SpecSchema, si: nat, ci: nat) -> SpecCatalogChannel {
    SpecCatalogChannel {
        id: channel_id(si, ci),
        name: or_empty(rec_name((l, sc))),
        tgid: nonempty_of(col_field(l, tgid_col(sc))),
        freq_hz: match col_field(l, freq_col(sc)) {
            Some(f) => spec_parse_u64(f),
            None => None,
        },
        mode: nonempty_of(col_field(l, mode_col(sc))),
        service_type: match col_field(l, service_col(sc)) {
            Some(f) => spec_parse_u16(f),
            None => None,
        },
    }
}

/// The catalogued channels of a system's lines: each voice channel the profile
/// has a schema for, numbered in order.
pub open spec fn catalog_channels<P: SdCardProfile + ?Sized>(ls: Seq<SpecLine>, si: nat, p: &P) -> Seq<SpecCatalogChannel>
    decreases ls.len(),
{
    if ls.len() == 0 {
        Seq::empty()
    } else {
        let prev = catalog_channels(ls.drop_last(), si, p);
        let l = ls.last();
        if is_voice_cmd(cmd_of(l)) {
            match p.spec_record_schema(cmd_of(l)) {
                Some(sc) => prev.push(catalog_channel(l, sc, si, prev.len())),
                None => prev,
            }
        } else {
            prev
        }
    }
}

/// The number of lines with command `c`.
pub open spec fn command_count(ls: Seq<SpecLine>, c: Seq<char>) -> nat
    decreases ls.len(),
{
    if ls.len() == 0 {
        0
    } else {
        command_count(ls.drop_last(), c) + if cmd_of(ls.last()) == c { 1nat } else { 0nat }
    }
}

/// Strictly increasing.
pub open spec fn ascending(s: Seq<u64>) -> bool {
    forall|i: int, j: int| 0 <= i < j < s.len() ==> s[i] < s[j]
}

/// A finite set of ids in ascending order.
pub open spec fn sorted_ids(ids: Set<u64>) -> Seq<u64> {
    choose|s: Seq<u64>| ascending(s) && s.to_set() == ids
}

/// The catalog entry of system `si` (its lines `sys`, header first).
pub open spec fn catalog_system<P: SdCardProfile + ?Sized>(sys: Seq<SpecLine>, si: nat, p: &P) -> SpecCatalogSystem {
    SpecCatalogSystem {
        id: system_id(si),
        name: or_empty(sys_name_of(sys, p)),
        kind: cmd_of(sys[0]),
        tech: sys_tech_of(sys, p),
        counties: sorted_ids(area_ids(sys, "AreaCounty"@)),
        site_count: command_count(sys, "Site"@),
        channels: catalog_channels(sys, si, p),
    }
}

/// The catalog of a document: one entry per system, in order.
pub open spec fn spec_catalog<P: SdCardProfile + ?Sized>(ls: Seq<SpecLine>, p: &P) -> Seq<SpecCatalogSystem> {
    Seq::new(system_views(ls).len(), |si: int| catalog_system(system_views(ls)[si], si as nat, p))
}

proof fn lemma_same_head_tail(a: Seq<u64>, b: Seq<u64>)
    requires
        a.len() > 0,
        b.len() > 0,
        a[0] == b[0],
        a.drop_first() == b.drop_first(),
    ensures
        a == b,
{
    assert(a =~= seq![a[0]] + a.drop_first());
    assert(b =~= seq![b[0]] + b.drop_first());
}

proof fn lemma_ascending_unique(a: Seq<u64>, b: Seq<u64>)
    requires
        ascending(a),
        ascending(b),
        a.to_set() == b.to_set(),
    ensures
        a == b,
    decreases a.len(),
{
    if a.len() == 0 {
        if b.len() > 0 {
            assert(b.to_set().contains(b[0]));
            assert(a.to_set().contains(b[0]));
        }
        assert(a =~= b);
    } else if b.len() == 0 {
        assert(a.to_set().contains(a[0]));
        assert(b.to_set().contains(a[0]));
    } else {
        assert(a.to_set().contains(a[0]));
        assert(b.contains(a[0]));
        let j = choose|j: int| 0 <= j < b.len() && b[j] == a[0];
        assert(b.to_set().contains(b[0]));
        assert(a.contains(b[0]));
        let i = choose|i: int| 0 <= i < a.len() && a[i] == b[0];
        assert(a[0] <= a[i]);
        assert(b[0] <= b[j]);
        assert(a[0] == b[0]);
        let a1 = a.drop_first();
        let b1 = b.drop_first();
        assert(ascending(a1)) by {
            assert forall|x: int, y: int| 0 <= x < y < a1.len() implies a1[x] < a1[y] by {
                assert(a1[x] == a[x + 1] && a1[y] == a[y + 1]);
            }
        }
        assert(ascending(b1)) by {
            assert forall|x: int, y: int| 0 <= x < y < b1.len() implies b1[x] < b1[y] by {
                assert(b1[x] == b[x + 1] && b1[y] == b[y + 1]);
            }
        }
        assert(a1.to_set() =~= b1.to_set()) by {
            assert forall|x: u64| a1.to_set().contains(x) implies b1.to_set().contains(x) by {
                let m = choose|m: int| 0 <= m < a1.len() && a1[m] == x;
                assert(a[m + 1] == x);
                assert(a.to_set().contains(x));
                assert(b.contains(x));
                let n = choose|n: int| 0 <= n < b.len() && b[n] == x;
                assert(x > a[0]);
                assert(n != 0);
                assert(b1[n - 1] == x);
            }
            assert forall|x: u64| b1.to_set().contains(x) implies a1.to_set().contains(x) by {
                let m = choose|m: int| 0 <= m < b1.len() && b1[m] == x;
                assert(b[m + 1] == x);
                assert(b.to_set().contains(x));
                assert(a.contains(x));
                let n = choose|n: int| 0 <= n < a.len() && a[n] == x;
                assert(x > b[0]);
                assert(n != 0);
                assert(a1[n - 1] == x);
            }
        }
        lemma_ascending_unique(a1, b1);
        lemma_same_head_tail(a, b);
    }
}

proof fn lemma_sorted_ids(s: Seq<u64>, ids: Set<u64>)
    requires
        ascending(s),
        s.to_set() == ids,
    ensures
        sorted_ids(ids) == s,
{
    let t = sorted_ids(ids);
    assert(ascending(t) && t.to_set() == ids);
    lemma_ascending_unique(t, s);
}

/// Insert `x` into an ascending list, keeping it ascending and without repeats.
fn insert_sorted(v: &mut Vec<u64>, x: u64)
    requires
        ascending(old(v)@),
    ensures
        ascending(final(v)@),
        final(v)@.to_set() == old(v)@.to_set().insert(x),
{
    let mut p: usize = 0;
    while p < v.len() && v[p] < x
        invariant
            p <= v@.len(),
            v@ == old(v)@,
            forall|i: int| 0 <= i < p ==> v@[i] < x,
        decreases v@.len() - p,
    {
        p += 1;
    }
    if p < v.len() && v[p] == x {
        assert(v@.to_set().contains(x)) by {
            assert(v@[p as int] == x);
        }
        assert(v@.to_set() =~= v@.to_set().insert(x));
        return;
    }
    let ghost o = v@;
    v.insert(p, x);
    let ghost n = v@;
    assert(n =~= o.take(p as int).push(x) + o.skip(p as int));
    assert forall|i: int| p <= i < o.len() implies o[i] > x by {
        assert(o[p as int] >= x);
        assert(o[p as int] != x);
        if i > p {
            assert(o[p as int] < o[i]);
        }
    }
    assert(ascending(n)) by {
        assert forall|i: int, j: int| 0 <= i < j < n.len() implies n[i] < n[j] by {
            if j < p {
                assert(n[i] == o[i] && n[j] == o[j]);
            } else if j == p {
                assert(n[i] == o[i]);
            } else if i < p {
                assert(n[i] == o[i] && n[j] == o[j - 1]);
            } else if i == p {
                assert(n[j] == o[j - 1]);
            } else {
                assert(n[i] == o[i - 1] && n[j] == o[j - 1]);
            }
        }
    }
    assert(n.to_set() =~= o.to_set().insert(x)) by {
        assert forall|y: u64| n.to_set().contains(y) implies o.to_set().contains(y) || y == x by {
            let m = choose|m: int| 0 <= m < n.len() && n[m] == y;
            if m < p {
                assert(o[m] == y);
            } else if m > p {
                assert(o[m - 1] == y);
            }
        }
        assert forall|y: u64| o.to_set().contains(y) || y == x implies n.to_set().contains(y) by {
            if y == x {
                assert(n[p as int] == x);
            } else {
                let m = choose|m: int| 0 <= m < o.len() && o[m] == y;
                if m < p {
                    assert(n[m] == y);
                } else {
                    assert(n[m + 1] == y);
                }
            }
        }
    }
}

/// A system's `AreaCounty` ids, ascending.
fn county_list(lines: &[Line]) -> (r: Vec<u64>)
    ensures
        r@ == sorted_ids(area_ids(lines_view(lines@), "AreaCounty"@)),
{
    let ghost v = lines_view(lines@);
    let mut out: Vec<u64> = Vec::new();
    let mut i: usize = 0;
    assert(out@.to_set() =~= Set::<u64>::empty());
    assert(v.take(0) =~= Seq::<SpecLine>::empty());
    while i < lines.len()
        invariant
            i <= lines@.len(),
            v == lines_view(lines@),
            ascending(out@),
            out@.to_set() == area_ids(v.take(i as int), "AreaCounty"@),
        decreases lines@.len() - i,
    {
        let l = &lines[i];
        proof {
            assert(v.take(i + 1).drop_last() =~= v.take(i as int));
            assert(v.take(i + 1).last() == l@);
        }
        if l.is_command("AreaCounty") {
            match l.field(2) {
                Some(f) => match keyed_id(f) {
                    Some(id) => {
                        insert_sorted(&mut out, id);
                    },
                    None => {},
                },
                None => {},
            }
        }
        i += 1;
    }
    assert(v.take(lines@.len() as int) =~= v);
    proof { lemma_sorted_ids(out@, area_ids(v, "AreaCounty"@)); }
    out
}

/// The number of lines with command `c`.
pub(crate) fn count_command(lines: &[Line], c: &str) -> (r: usize)
    ensures
        r as nat == command_count(lines_view(lines@), c@),
{
    let ghost v = lines_view(lines@);
    let mut n: usize = 0;
    let mut i: usize = 0;
    assert(v.take(0) =~= Seq::<SpecLine>::empty());
    while i < lines.len()
        invariant
            i <= lines@.len(),
            v == lines_view(lines@),
            n <= i,
            n as nat == command_count(v.take(i as int), c@),
        decreases lines@.len() - i,
    {
        proof {
            assert(v.take(i + 1).drop_last() =~= v.take(i as int));
            assert(v.take(i + 1).last() == lines@[i as int]@);
        }
        if lines[i].is_command(c) {
            n += 1;
        }
        i += 1;
    }
    assert(v.take(lines@.len() as int) =~= v);
    n
}

fn make_catalog_channel(rec: &Record, si: usize, ci: usize) -> (r: CatalogChannel)
    ensures
        r@ == catalog_channel(rec@.0, rec@.1, si as nat, ci as nat),
{
    let c = CatalogChannel {
        id: make_id(si, Some('c'), ci),
        name: str_or_empty(rec.name()),
        tgid: opt_str_owned(rec.talkgroup()),
        freq_hz: rec.frequency_hz(),
        mode: opt_str_owned(rec.mode()),
        service_type: rec.service_type_code(),
    };
    proof { reveal_strlit("s"); reveal_strlit("c"); }
    assert(c.id@ =~= channel_id(si as nat, ci as nat));
    c
}

/// The catalogued channels of one system's lines.
fn system_channels<P: SdCardProfile + ?Sized>(lines: &[Line], si: usize, profile: &P) -> (r: Vec<CatalogChannel>)
    ensures
        channels_view(r@) == catalog_channels(lines_view(lines@), si as nat, profile),
{
    let ghost ls = lines_view(lines@);
    let mut out: Vec<CatalogChannel> = Vec::new();
    let mut k: usize = 0;
    assert(ls.take(0) =~= Seq::<SpecLine>::empty());
    assert(channels_view(out@) =~= Seq::<SpecCatalogChannel>::empty());
    while k < lines.len()
        invariant
            k <= lines@.len(),
            ls == lines_view(lines@),
            out@.len() <= k,
            channels_view(out@) == catalog_channels(ls.take(k as int), si as nat, profile),
        decreases lines@.len() - k,
    {
        let line = &lines[k];
        proof {
            assert(ls.take(k + 1).drop_last() =~= ls.take(k as int));
            assert(ls.take(k + 1).last() == line@);
        }
        if is_voice_channel(line.command()) {
            match Record::new(line, profile) {
                Some(rec) => {
                    let ch = make_catalog_channel(&rec, si, out.len());
                    let ghost before = channels_view(out@);
                    out.push(ch);
                    assert(channels_view(out@) =~= before.push(ch@));
                },
                None => {},
            }
        }
        k += 1;
    }
    assert(ls.take(lines@.len() as int) =~= ls);
    out
}

/// The channel-level catalog of a document: for each system its id, name, kind,
/// technology, `AreaCounty` ids (ascending), number of sites and voice channels
/// (those the profile has a schema for, numbered in order, each with its name,
/// talkgroup, frequency, mode and service type).
pub fn library_catalog<P: SdCardProfile + ?Sized>(doc: &Document, profile: &P) -> (r: Vec<CatalogSystem>)
    ensures
        Seq::new(r@.len(), |k: int| r@[k]@) == spec_catalog(doc@, profile),
{
    let ext = Extraction::segment(doc, profile);
    let systems = ext.systems();
    let ghost sv = system_views(doc@);
    let mut out: Vec<CatalogSystem> = Vec::new();
    let mut si: usize = 0;
    while si < systems.len()
        invariant
            si <= systems@.len(),
            systems@.len() == sv.len(),
            sv == system_views(doc@),
            forall|k: int| 0 <= k < systems@.len() ==> (#[trigger] systems@[k])@ == sv[k],
            forall|k: int| 0 <= k < systems@.len() ==> (#[trigger] systems@[k]).spec_profile() == profile,
            out@.len() == si,
            forall|k: int| 0 <= k < si ==> (#[trigger] out@[k])@ == catalog_system(sv[k], k as nat, profile),
        decreases systems@.len() - si,
    {
        let sys = &systems[si];
        let header = sys.header();
        let lines = sys.lines();
        let t = CatalogSystem {
            id: make_id(si, None, 0),
            name: str_or_empty(sys.name()),
            kind: copy_str(header.command()),
            tech: opt_str_owned(sys.tech()),
            counties: county_list(lines),
            site_count: count_command(lines, "Site"),
            channels: system_channels(lines, si, profile),
        };
        proof { reveal_strlit("s"); reveal_strlit("Site"); reveal_strlit("AreaCounty"); }
        assert(t@ == catalog_system(sv[si as int], si as nat, profile));
        out.push(t);
        si += 1;
    }
    assert(Seq::new(out@.len(), |k: int| out@[k]@) =~= spec_catalog(doc@, profile));
    out
}

proof fn lemma_catalog_channel_ids<P: SdCardProfile + ?Sized>(ls: Seq<SpecLine>, si: nat, p: &P)
    ensures
        forall|k: int| 0 <= k < catalog_channels(ls, si, p).len() ==> (#[trigger] catalog_channels(ls, si, p)[k]).id
            == channel_id(si, k as nat),
    decreases ls.len(),
{
    if ls.len() > 0 {
        lemma_catalog_channel_ids(ls.drop_last(), si, p);
    }
}

/// A catalogued channel's id, under its document's prefix `d<di>`, is the
/// library id that reads back as that document, the channel's system and its
/// place among the system's catalogued channels.
pub proof fn lemma_catalog_ids_read_back<P: SdCardProfile + ?Sized>(ls: Seq<SpecLine>, p: &P, di: usize, si: usize, k: usize)
    requires
        si < spec_catalog(ls, p).len(),
        k < spec_catalog(ls, p)[si as int].channels.len(),
    ensures
        "d"@ + decimal(di as nat) + spec_catalog(ls, p)[si as int].channels[k as int].id == library_channel_id(
            di as nat,
            si as nat,
            k as nat,
        ),
        spec_channel_id("d"@ + decimal(di as nat) + spec_catalog(ls, p)[si as int].channels[k as int].id) == Some(
            (di, si, k),
        ),
{
    lemma_catalog_channel_ids(system_views(ls)[si as int], si as nat, p);
    lemma_library_id_read_back(di, si, k);
}

// ---------------------------------------------------------------------------
// The catalog as JSON.
// ---------------------------------------------------------------------------

/// `"Talkgroup"` for a channel with a talkgroup, else `"Frequency"`.
pub open spec fn channel_kind(c: SpecCatalogChannel) -> Seq<char> {
    if c.tgid is Some {
        "\"Talkgroup\""@
    } else {
        "\"Frequency\""@
    }
}

/// A catalog channel's id, name, kind and talkgroup.
pub open spec fn cat_channel_head(c: SpecCatalogChannel) -> Seq<char> {
    "{\"id\":\""@ + c.id + "\",\"name\":"@ + jstr(c.name) + ",\"kind\":"@ + channel_kind(c) + ",\"tgid\":"@
        + jopt_str(c.tgid)
}

/// A catalog channel's frequency, mode and service type, and the closing brace.
pub open spec fn cat_channel_tail(c: SpecCatalogChannel) -> Seq<char> {
    ",\"freqHz\":"@ + jopt_num(opt_nat64(c.freq_hz)) + ",\"mode\":"@ + jopt_str(c.mode) + ",\"serviceType\":"@
        + jopt_num(opt_nat16(c.service_type)) + "}"@
}

/// A catalog channel as JSON.
#[verifier::opaque]
pub open spec fn json_catalog_channel(c: SpecCatalogChannel) -> Seq<char> {
    cat_channel_head(c) + cat_channel_tail(c)
}

/// A catalog system's id, name, kind, technology, and the opening of its
/// county list.
pub open spec fn cat_system_head(t: SpecCatalogSystem) -> Seq<char> {
    "{\"id\":\""@ + t.id + "\",\"name\":"@ + jstr(t.name) + ",\"kind\":"@ + jstr(t.kind) + ",\"tech\":"@
        + jopt_str(t.tech) + ",\"counties\":["@
}

/// A catalog system's county list, site count, and the opening of its channels.
pub open spec fn cat_system_mid(t: SpecCatalogSystem) -> Seq<char> {
    join(Seq::new(t.counties.len(), |k: int| decimal(t.counties[k] as nat))) + "],\"siteCount\":"@ + decimal(
        t.site_count,
    ) + ",\"channels\":["@
}

/// A catalog system as JSON.
#[verifier::opaque]
pub open spec fn json_catalog_system(t: SpecCatalogSystem) -> Seq<char> {
    cat_system_head(t) + cat_system_mid(t) + join(
        Seq::new(t.channels.len(), |k: int| json_catalog_channel(t.channels[k])),
    ) + "]}"@
}

/// The catalog as a JSON array.
pub open spec fn json_catalog(ts: Seq<SpecCatalogSystem>) -> Seq<char> {
    "["@ + join(Seq::new(ts.len(), |k: int| json_catalog_system(ts[k]))) + "]"@
}

fn push_catalog_channel(out: &mut String, c: &CatalogChannel)
    ensures
        final(out)@ == old(out)@ + json_catalog_channel(c@),
{
    let ghost o0 = out@;
    push_str(out, "{\"id\":\"");
    push_str(out, c.id.as_str());
    push_str(out, "\",\"name\":");
    push_json_string(out, c.name.as_str());
    push_str(out, ",\"kind\":");
    match &c.tgid {
        Some(_) => push_str(out, "\"Talkgroup\""),
        None => push_str(out, "\"Frequency\""),
    }
    push_str(out, ",\"tgid\":");
    push_opt_json(out, &c.tgid);
    assert(out@ =~= o0 + cat_channel_head(c@));
    let ghost o1 = out@;
    push_str(out, ",\"freqHz\":");
    push_opt_num(out, c.freq_hz);
    push_str(out, ",\"mode\":");
    push_opt_json(out, &c.mode);
    push_str(out, ",\"serviceType\":");
    let st = match c.service_type {
        Some(v) => Some(v as u64),
        None => None,
    };
    assert(opt_nat64(st) == opt_nat16(c.service_type));
    push_opt_num(out, st);
    push_str(out, "}");
    assert(out@ =~= o1 + cat_channel_tail(c@));
    proof { reveal(json_catalog_channel); }
    assert(out@ =~= o0 + json_catalog_channel(c@));
}

fn push_catalog_system(out: &mut String, t: &CatalogSystem)
    ensures
        final(out)@ == old(out)@ + json_catalog_system(t@),
{
    let ghost o0 = out@;
    push_str(out, "{\"id\":\"");
    push_str(out, t.id.as_str());
    push_str(out, "\",\"name\":");
    push_json_string(out, t.name.as_str());
    push_str(out, ",\"kind\":");
    push_json_string(out, t.kind.as_str());
    push_str(out, ",\"tech\":");
    push_opt_json(out, &t.tech);
    push_str(out, ",\"counties\":[");
    assert(out@ =~= o0 + cat_system_head(t@));
    let ghost o1 = out@;
    let ghost cs = Seq::new(t.counties@.len(), |k: int| decimal(t@.counties[k] as nat));
    let mut k: usize = 0;
    assert(cs.take(0) =~= Seq::<Seq<char>>::empty());
    while k < t.counties.len()
        invariant
            k <= t.counties@.len(),
            cs == Seq::new(t.counties@.len(), |k: int| decimal(t@.counties[k] as nat)),
            out@ == o1 + join(cs.take(k as int)),
        decreases t.counties@.len() - k,
    {
        proof { lemma_join_step(cs, k as int); }
        if k > 0 {
            push_str(out, ",");
        }
        push_decimal(out, t.counties[k]);
        assert(out@ =~= o1 + join(cs.take(k + 1)));
        k += 1;
    }
    assert(cs.take(cs.len() as int) =~= cs);
    push_str(out, "],\"siteCount\":");
    push_decimal(out, t.site_count as u64);
    push_str(out, ",\"channels\":[");
    assert(out@ =~= o1 + cat_system_mid(t@));
    let ghost head = out@;
    let ghost items = Seq::new(t.channels@.len(), |k: int| json_catalog_channel(t@.channels[k]));
    let mut j: usize = 0;
    assert(items.take(0) =~= Seq::<Seq<char>>::empty());
    while j < t.channels.len()
        invariant
            j <= t.channels@.len(),
            items == Seq::new(t.channels@.len(), |k: int| json_catalog_channel(t@.channels[k])),
            out@ == head + join(items.take(j as int)),
        decreases t.channels@.len() - j,
    {
        proof { lemma_join_step(items, j as int); }
        if j > 0 {
            push_str(out, ",");
        }
        push_catalog_channel(out, &t.channels[j]);
        assert(out@ =~= head + join(items.take(j + 1)));
        j += 1;
    }
    assert(items.take(items.len() as int) =~= items);
    push_str(out, "]}");
    proof { reveal(json_catalog_system); }
    assert(out@ =~= o0 + json_catalog_system(t@));
}

/// The channel-level catalog (see [`library_catalog`]) as a JSON array: per
/// system `id`, `name`, `kind`, `tech`, `counties`, `siteCount` and `channels`,
/// per channel `id`, `name`, `kind` (`Talkgroup` / `Frequency`), `tgid`,
/// `freqHz`, `mode` and `serviceType`.
pub fn catalog_json<P: SdCardProfile + ?Sized>(doc: &Document, profile: &P) -> (r: String)
    ensures
        r@ == json_catalog(spec_catalog(doc@, profile)),
{
    let cat = library_catalog(doc, profile);
    let ghost cv = Seq::new(cat@.len(), |k: int| cat@[k]@);
    let mut out = String::new();
    push_str(&mut out, "[");
    let ghost head = out@;
    let ghost items = Seq::new(cat@.len(), |k: int| json_catalog_system(cv[k]));
    let mut k: usize = 0;
    assert(items.take(0) =~= Seq::<Seq<char>>::empty());
    while k < cat.len()
        invariant
            k <= cat@.len(),
            cv == Seq::new(cat@.len(), |k: int| cat@[k]@),
            items == Seq::new(cat@.len(), |k: int| json_catalog_system(cv[k])),
            out@ == head + join(items.take(k as int)),
        decreases cat@.len() - k,
    {
        proof { lemma_join_step(items, k as int); }
        if k > 0 {
            push_str(&mut out, ",");
        }
        push_catalog_system(&mut out, &cat[k]);
        assert(out@ =~= head + join(items.take(k + 1)));
        k += 1;
    }
    assert(items.take(items.len() as int) =~= items);
    push_str(&mut out, "]");
    assert(out@ =~= json_catalog(cv));
    out
}

// ---------------------------------------------------------------------------
// The service-type table.
// ---------------------------------------------------------------------------

/// The service-type table as a JSON array of `{code, name}` objects.
pub open spec fn json_service_types() -> Seq<char> {
    "["@ + join(
        Seq::new(
            crate::model::service_table().len(),
            |i: int|
                "{\"code\":"@ + decimal(crate::model::service_table()[i].0 as nat) + ",\"name\":"@ + jstr(
                    crate::model::service_table()[i].1,
                ) + "}"@,
        ),
    ) + "]"@
}

/// The service-type table (code and name of each service type) as JSON.
pub fn service_types_json() -> (r: String)
    ensures
        r@ == json_service_types(),
{
    let table = crate::model::service_types();
    let ghost t = crate::model::service_table();
    let mut out = String::new();
    push_str(&mut out, "[");
    let ghost head = out@;
    let ghost items = Seq::new(
        t.len(),
        |i: int| "{\"code\":"@ + decimal(t[i].0 as nat) + ",\"name\":"@ + jstr(t[i].1) + "}"@,
    );
    let mut k: usize = 0;
    assert(items.take(0) =~= Seq::<Seq<char>>::empty());
    while k < table.len()
        invariant
            k <= table@.len(),
            crate::model::code_names_view(table@) == t,
            t == crate::model::service_table(),
            items == Seq::new(
                t.len(),
                |i: int| "{\"code\":"@ + decimal(t[i].0 as nat) + ",\"name\":"@ + jstr(t[i].1) + "}"@,
            ),
            out@ == head + join(items.take(k as int)),
        decreases table@.len() - k,
    {
        proof { lemma_join_step(items, k as int); }
        if k > 0 {
            push_str(&mut out, ",");
        }
        let (code, name) = table[k];
        assert(code == t[k as int].0 && name@ == t[k as int].1);
        let ghost o0 = out@;
        push_str(&mut out, "{\"code\":");
        push_decimal(&mut out, code as u64);
        push_str(&mut out, ",\"name\":");
        push_json_string(&mut out, name);
        push_str(&mut out, "}");
        assert(out@ =~= o0 + items[k as int]);
        assert(out@ =~= head + join(items.take(k + 1)));
        k += 1;
    }
    assert(items.take(items.len() as int) =~= items);
    push_str(&mut out, "]");
    out
}

// ---------------------------------------------------------------------------
// The state and county indexes of `hpdb.cfg` as JSON.
// ---------------------------------------------------------------------------

/// A field's text, or empty when the line has no such field.
pub open spec fn field_or_empty(l: SpecLine, i: int) -> Seq<char> {
    match spec_field(l.fields, i) {
        Some(f) => f,
        None => Seq::empty(),
    }
}

/// The state a `StateInfo` line describes, as JSON: its id (field 1), name
/// (field 3), abbreviation (field 4) and country (field 2, 0 when unreadable).
pub open spec fn json_state(l: SpecLine, id: u64) -> Seq<char> {
    "{\"id\":"@ + decimal(id as nat) + ",\"name\":"@ + jstr(field_or_empty(l, 3)) + ",\"abbr\":"@ + jstr(
        field_or_empty(l, 4),
    ) + ",\"country\":"@ + decimal(
        match keyed_of(spec_field(l.fields, 2)) {
            Some(c) => c as nat,
            None => 0,
        },
    ) + "}"@
}

/// The states among the first `n` lines: each `StateInfo` line with a readable
/// id.
pub open spec fn state_items(ls: Seq<SpecLine>, n: int) -> Seq<Seq<char>>
    decreases n,
{
    if n <= 0 {
        Seq::empty()
    } else {
        let prev = state_items(ls, n - 1);
        let l = ls[n - 1];
        if cmd_of(l) == "StateInfo"@ {
            match keyed_of(spec_field(l.fields, 1)) {
                Some(id) => prev.push(json_state(l, id)),
                None => prev,
            }
        } else {
            prev
        }
    }
}

proof fn lemma_join_push(s: Seq<Seq<char>>, x: Seq<char>)
    ensures
        join(s.push(x)) == join(s) + (if s.len() > 0 { ","@ } else { Seq::empty() }) + x,
{
    let t = s.push(x);
    assert(t.drop_last() =~= s);
    if s.len() == 0 {
        assert(t.len() == 1);
        assert(Seq::<char>::empty() + Seq::<char>::empty() + x =~= x);
    }
}

fn push_state(out: &mut String, l: &Line, id: u64)
    ensures
        final(out)@ == old(out)@ + json_state(l@, id),
{
    let ghost o0 = out@;
    let country = match l.field(2) {
        Some(f) => match keyed_id(f) {
            Some(c) => c,
            None => 0,
        },
        None => 0,
    };
    push_str(out, "{\"id\":");
    crate::text::push_decimal(out, id);
    push_str(out, ",\"name\":");
    push_json_string(out, str_or_empty(l.field(3)).as_str());
    push_str(out, ",\"abbr\":");
    push_json_string(out, str_or_empty(l.field(4)).as_str());
    push_str(out, ",\"country\":");
    crate::text::push_decimal(out, country);
    push_str(out, "}");
    assert(out@ =~= o0 + json_state(l@, id));
}

/// The states an `hpdb.cfg` lists, as a JSON array of `{id, name, abbr,
/// country}`: each `StateInfo` line whose id reads, in file order.
pub fn states_json(doc: &Document) -> (r: String)
    ensures
        r@ == "["@ + join(state_items(doc@, doc@.len() as int)) + "]"@,
{
    let mut out = String::new();
    push_str(&mut out, "[");
    let ghost head = out@;
    let mut first = true;
    let mut i: usize = 0;
    while i < doc.lines.len()
        invariant
            i <= doc@.len(),
            doc@.len() == doc.lines@.len(),
            first == (state_items(doc@, i as int).len() == 0),
            out@ == head + join(state_items(doc@, i as int)),
        decreases doc.lines@.len() - i,
    {
        let l = &doc.lines[i];
        assert(l@ == doc@[i as int]);
        if l.is_command("StateInfo") {
            match l.field(1) {
                Some(f) => match keyed_id(f) {
                    Some(id) => {
                        proof { lemma_join_push(state_items(doc@, i as int), json_state(l@, id)); }
                        if !first {
                            push_str(&mut out, ",");
                        }
                        push_state(&mut out, l, id);
                        first = false;
                    },
                    None => {},
                },
                None => {},
            }
        }
        i += 1;
    }
    push_str(&mut out, "]");
    out
}

/// A county as JSON: id, name, state (`null` when unknown).
pub open spec fn json_county(c: (u64, Option<u64>, Seq<char>)) -> Seq<char> {
    "{\"id\":"@ + decimal(c.0 as nat) + ",\"name\":"@ + jstr(c.2) + ",\"state\":"@ + jopt_num(
        match c.1 {
            Some(s) => Some(s as nat),
            None => None,
        },
    ) + "}"@
}

fn push_county(out: &mut String, c: &crate::model::County)
    ensures
        final(out)@ == old(out)@ + json_county(c@),
{
    let ghost o0 = out@;
    push_str(out, "{\"id\":");
    crate::text::push_decimal(out, c.id);
    push_str(out, ",\"name\":");
    push_json_string(out, c.name.as_str());
    push_str(out, ",\"state\":");
    push_opt_num(out, c.state_id);
    push_str(out, "}");
    assert(out@ =~= o0 + json_county(c@));
}

/// A county index as a JSON array of `{id, name, state}`, in its order.
pub fn counties_json(index: &CountyIndex) -> (r: String)
    ensures
        r@ == "["@ + join(Seq::new(index@.len(), |i: int| json_county(index@[i]))) + "]"@,
{
    let cs = index.counties();
    let ghost items = Seq::new(index@.len(), |i: int| json_county(index@[i]));
    let mut out = String::new();
    push_str(&mut out, "[");
    let ghost head = out@;
    let mut k: usize = 0;
    assert(items.take(0) =~= Seq::<Seq<char>>::empty());
    while k < cs.len()
        invariant
            k <= cs@.len(),
            counties_view(cs@) == index@,
            items == Seq::new(index@.len(), |i: int| json_county(index@[i])),
            out@ == head + join(items.take(k as int)),
        decreases cs@.len() - k,
    {
        proof { lemma_join_step(items, k as int); }
        if k > 0 {
            push_str(&mut out, ",");
        }
        let c = &cs[k];
        assert(c@ == index@[k as int]);
        push_county(&mut out, c);
        assert(out@ =~= head + join(items.take(k + 1)));
        k += 1;
    }
    assert(items.take(items.len() as int) =~= items);
    push_str(&mut out, "]");
    out
}

// ---------------------------------------------------------------------------
// A favorites list's write-preview summary.
// ---------------------------------------------------------------------------

/// The summary of a list: its systems, `Site`, `DQKs_Status` and `BandPlan_P25`
/// records, and its size in bytes.
pub open spec fn json_summary<P: SdCardProfile + ?Sized>(ls: Seq<SpecLine>, p: &P) -> Seq<char> {
    "{\"systems\":"@ + decimal(system_views(ls).len()) + ",\"sites\":"@ + decimal(command_count(ls, "Site"@))
        + ",\"dqks\":"@ + decimal(command_count(ls, "DQKs_Status"@)) + ",\"bandPlans\":"@ + decimal(
        command_count(ls, "BandPlan_P25"@),
    ) + ",\"bytes\":"@ + decimal(crate::format::doc_bytes(ls).len()) + "}"@
}

/// A favorites list's summary for a write preview, as JSON: `systems`, `sites`,
/// `dqks`, `bandPlans` and `bytes` (the size it is written at).
pub fn favorites_summary_json<P: SdCardProfile + ?Sized>(doc: &Document, profile: &P) -> (r: String)
    ensures
        r@ == json_summary(doc@, profile),
{
    let systems = Extraction::segment(doc, profile).system_count();
    let sites = count_command(doc.lines.as_slice(), "Site");
    let dqks = count_command(doc.lines.as_slice(), "DQKs_Status");
    let plans = count_command(doc.lines.as_slice(), "BandPlan_P25");
    let bytes = doc.to_bytes().len();
    assert(lines_view(doc.lines@) == doc@);
    let mut out = String::new();
    push_str(&mut out, "{\"systems\":");
    push_decimal(&mut out, systems as u64);
    push_str(&mut out, ",\"sites\":");
    push_decimal(&mut out, sites as u64);
    push_str(&mut out, ",\"dqks\":");
    push_decimal(&mut out, dqks as u64);
    push_str(&mut out, ",\"bandPlans\":");
    push_decimal(&mut out, plans as u64);
    push_str(&mut out, ",\"bytes\":");
    push_decimal(&mut out, bytes as u64);
    push_str(&mut out, "}");
    proof {
        reveal_strlit("Site");
        reveal_strlit("DQKs_Status");
        reveal_strlit("BandPlan_P25");
    }
    assert(out@ =~= json_summary(doc@, profile));
    out
}

} // verus!
