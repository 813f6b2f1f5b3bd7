//! Browsing a loaded library: the filter-passing channels of one system as the
//! rows a UI lists (all of them, or those placed in a county or picked by their
//! departments), with the library ids that pick them.

use vstd::prelude::*;
use std::collections::{BTreeMap, BTreeSet};
use crate::device::SdCardProfile;
use crate::device::profile::SpecSchema;
use crate::catalog::command_count;
use crate::extract::{Extraction, System, is_voice_channel, is_voice_cmd, sys_name_of, sys_tech_of, system_views};
use crate::format::{Document, Line, SpecLine, lines_view};
use crate::library::{SystemPlacement, docs_view, library_channel_id};
use crate::model::{Record, col_field, freq_col, mode_col, nonempty_of, rec_name, service_col, tgid_col, tone_col};
use crate::text::{contains_sub, copy_str, decimal, push_decimal, spec_parse_u16, spec_parse_u64, split_on, trim};
use crate::model::lowercase;
use crate::ui::{
    Filter, cmd_of, jopt_num, jopt_str, join, jstr, lemma_join_step, name_hits, opt_nat16, opt_nat64, opt_owned,
    opt_str_owned, or_empty, parse_system_id, passing_channels, passing_indices, push_bool, push_json_string, push_opt_json,
    push_opt_num, push_str, services_of, spec_channel_ok, spec_system_id, str_or_empty, tech_matches, jbool,
};

verus! {

/// The service code of a channel record.
pub open spec fn service_of(l: SpecLine, sc: SpecSchema) -> Option<u16> {
    match col_field(l, service_col(sc)) {
        Some(f) => spec_parse_u16(f),
        None => None,
    }
}

/// A channel row's id, name, kind and talkgroup.
pub open spec fn row_part1(l: SpecLine, sc: SpecSchema, di: nat, si: nat, ci: nat) -> Seq<char> {
    let tgid = nonempty_of(col_field(l, tgid_col(sc)));
    "{\"id\":"@ + jstr(library_channel_id(di, si, ci)) + ",\"name\":"@ + jstr(or_empty(rec_name((l, sc))))
        + ",\"kind\":"@ + (if tgid is Some { "\"Talkgroup\""@ } else { "\"Frequency\""@ }) + ",\"tgid\":"@
        + jopt_str(tgid)
}

/// A channel row's frequency, mode, service type and tone, and the closing brace.
pub open spec fn row_part2(l: SpecLine, sc: SpecSchema) -> Seq<char> {
    ",\"freqHz\":"@ + jopt_num(
        opt_nat64(
            match col_field(l, freq_col(sc)) {
                Some(f) => spec_parse_u64(f),
                None => None,
            },
        ),
    ) + ",\"mode\":"@ + jopt_str(nonempty_of(col_field(l, mode_col(sc)))) + ",\"serviceType\":"@ + jopt_num(
        opt_nat16(service_of(l, sc)),
    ) + ",\"tone\":"@ + jopt_str(nonempty_of(col_field(l, tone_col(sc)))) + "}"@
}

/// A channel row: its library id, name, kind, talkgroup, frequency, mode,
/// service type and tone.
#[verifier::opaque]
pub open spec fn channel_row(l: SpecLine, sc: SpecSchema, di: nat, si: nat, ci: nat) -> Seq<char> {
    row_part1(l, sc, di, si, ci) + row_part2(l, sc)
}

/// The rows of a system's lines, with the number of voice channels (those with a
/// schema) seen: each such channel, numbered in order, whose number is allowed
/// (when a set is given) and which passes the filter (`hit`: the system name
/// matched the search).
pub open spec fn channel_rows<P: SdCardProfile + ?Sized>(
    ls: Seq<SpecLine>,
    di: nat,
    si: nat,
    p: &P,
    services: Seq<u16>,
    search: Seq<char>,
    hit: bool,
    allowed: Option<Set<usize>>,
) -> (Seq<Seq<char>>, nat)
    decreases ls.len(),
{
    if ls.len() == 0 {
        (Seq::empty(), 0)
    } else {
        let (rows, ci) = channel_rows(ls.drop_last(), di, si, p, services, search, hit, allowed);
        let l = ls.last();
        if is_voice_cmd(cmd_of(l)) {
            match p.spec_record_schema(cmd_of(l)) {
                Some(sc) => {
                    let in_set = match allowed {
                        Some(a) => a.contains(ci as usize),
                        None => true,
                    };
                    let ok = in_set && spec_channel_ok(
                        services,
                        search,
                        service_of(l, sc),
                        or_empty(rec_name((l, sc))),
                        hit,
                    );
                    (if ok { rows.push(channel_row(l, sc, di, si, ci)) } else { rows }, ci + 1)
                },
                None => (rows, ci),
            }
        } else {
            (rows, ci)
        }
    }
}

/// Scoping a system's rows to a set of channels only drops rows: every scoped
/// row is, id and all, a row of the unscoped list (the numbering counts every
/// channel either way), in the same order.
pub proof fn lemma_scoped_rows_are_rows<P: SdCardProfile + ?Sized>(
    ls: Seq<SpecLine>,
    di: nat,
    si: nat,
    p: &P,
    services: Seq<u16>,
    search: Seq<char>,
    hit: bool,
    allowed: Set<usize>,
)
    ensures
        channel_rows(ls, di, si, p, services, search, hit, Some(allowed)).1 == channel_rows(
            ls,
            di,
            si,
            p,
            services,
            search,
            hit,
            None,
        ).1,
        channel_rows(ls, di, si, p, services, search, hit, Some(allowed)).0.len() <= channel_rows(
            ls,
            di,
            si,
            p,
            services,
            search,
            hit,
            None,
        ).0.len(),
        exists|m: Seq<int>|
            #![trigger m.len()]
            {
                let scoped = channel_rows(ls, di, si, p, services, search, hit, Some(allowed)).0;
                let all = channel_rows(ls, di, si, p, services, search, hit, None).0;
                &&& m.len() == scoped.len()
                &&& forall|i: int| 0 <= i < m.len() ==> 0 <= #[trigger] m[i] < all.len() && all[m[i]] == scoped[i]
                &&& forall|i: int, j: int| 0 <= i < j < m.len() ==> #[trigger] m[i] < #[trigger] m[j]
            },
    decreases ls.len(),
{
    let scoped = channel_rows(ls, di, si, p, services, search, hit, Some(allowed)).0;
    let all = channel_rows(ls, di, si, p, services, search, hit, None).0;
    if ls.len() == 0 {
        let m = Seq::<int>::empty();
        assert(m.len() == scoped.len());
    } else {
        let ls0 = ls.drop_last();
        lemma_scoped_rows_are_rows(ls0, di, si, p, services, search, hit, allowed);
        let s0 = channel_rows(ls0, di, si, p, services, search, hit, Some(allowed)).0;
        let a0 = channel_rows(ls0, di, si, p, services, search, hit, None).0;
        let m0 = choose|m: Seq<int>|
            #![trigger m.len()]
            {
                &&& m.len() == s0.len()
                &&& forall|i: int| 0 <= i < m.len() ==> 0 <= #[trigger] m[i] < a0.len() && a0[m[i]] == s0[i]
                &&& forall|i: int, j: int| 0 <= i < j < m.len() ==> #[trigger] m[i] < #[trigger] m[j]
            };
        if scoped.len() > s0.len() {
            // The last line added a row to both lists.
            assert(all.len() == a0.len() + 1);
            assert(scoped == s0.push(scoped.last()));
            assert(all == a0.push(all.last()));
            assert(scoped.last() == all.last());
            let m = m0.push(a0.len() as int);
            assert(m.len() == scoped.len());
            assert forall|i: int| 0 <= i < m.len() implies 0 <= #[trigger] m[i] < all.len() && all[m[i]] == scoped[i] by {
                if i < m0.len() {
                    assert(m[i] == m0[i]);
                }
            }
            assert forall|i: int, j: int| 0 <= i < j < m.len() implies #[trigger] m[i] < #[trigger] m[j] by {
                if j < m0.len() {
                    assert(m[i] == m0[i] && m[j] == m0[j]);
                } else {
                    assert(m[i] == m0[i]);
                }
            }
        } else {
            assert(scoped == s0);
            assert(all.len() >= a0.len());
            assert forall|i: int| 0 <= i < a0.len() implies all[i] == a0[i] by {
                if all.len() > a0.len() {
                    assert(all == a0.push(all.last()));
                } else {
                    assert(all == a0);
                }
            }
            assert(m0.len() == scoped.len());
            assert forall|i: int| 0 <= i < m0.len() implies 0 <= #[trigger] m0[i] < all.len() && all[m0[i]] == scoped[i] by {
                assert(all[m0[i]] == a0[m0[i]]);
            }
        }
    }
}

/// The system name matches the filter's search (or there is none).
pub open spec fn search_hit<P: SdCardProfile + ?Sized>(sys: Seq<SpecLine>, p: &P, search: Seq<char>) -> bool {
    search.len() == 0 || contains_sub(lowercase(or_empty(sys_name_of(sys, p))), search)
}

pub open spec fn opt_set_view(o: Option<&BTreeSet<usize>>) -> Option<Set<usize>> {
    match o {
        Some(s) => Some(s@),
        None => None,
    }
}

proof fn lemma_join_push(s: Seq<Seq<char>>, x: Seq<char>)
    ensures
        join(s.push(x)) == join(s) + (if s.len() > 0 { ","@ } else { Seq::empty() }) + x,
{
    let t = s.push(x);
    assert(t.drop_last() =~= s);
    if s.len() == 0 {
        assert(t.len() == 1);
        assert(Seq::<char>::empty() + Seq::<char>::empty() + x =~= x);
    }
}

fn set_has(a: &BTreeSet<usize>, x: usize) -> (r: bool)
    ensures
        r == a@.contains(x),
{
    broadcast use vstd::laws_cmp::group_laws_cmp;
    a.contains(&x)
}

fn library_id_string(di: usize, si: usize, ci: usize) -> (r: String)
    ensures
        r@ == library_channel_id(di as nat, si as nat, ci as nat),
{
    let mut id = copy_str("d");
    push_decimal(&mut id, di as u64);
    push_str(&mut id, "s");
    push_decimal(&mut id, si as u64);
    push_str(&mut id, "c");
    push_decimal(&mut id, ci as u64);
    proof {
        reveal_strlit("d");
        reveal_strlit("s");
        reveal_strlit("c");
    }
    assert(id@ =~= library_channel_id(di as nat, si as nat, ci as nat));
    id
}

fn push_row_part1(out: &mut String, rec: &Record, di: usize, si: usize, ci: usize)
    ensures
        final(out)@ == old(out)@ + row_part1(rec@.0, rec@.1, di as nat, si as nat, ci as nat),
{
    let ghost o0 = out@;
    let id = library_id_string(di, si, ci);
    push_str(out, "{\"id\":");
    push_json_string(out, id.as_str());
    push_str(out, ",\"name\":");
    push_json_string(out, str_or_empty(rec.name()).as_str());
    let tgid = rec.talkgroup();
    push_str(out, ",\"kind\":");
    match tgid {
        Some(_) => push_str(out, "\"Talkgroup\""),
        None => push_str(out, "\"Frequency\""),
    }
    push_str(out, ",\"tgid\":");
    push_opt_json(out, &opt_str_owned(tgid));
    assert(out@ =~= o0 + row_part1(rec@.0, rec@.1, di as nat, si as nat, ci as nat));
}

fn push_row_part2(out: &mut String, rec: &Record)
    ensures
        final(out)@ == old(out)@ + row_part2(rec@.0, rec@.1),
{
    let ghost o0 = out@;
    push_str(out, ",\"freqHz\":");
    push_opt_num(out, rec.frequency_hz());
    push_str(out, ",\"mode\":");
    push_opt_json(out, &opt_str_owned(rec.mode()));
    push_str(out, ",\"serviceType\":");
    let st = match rec.service_type_code() {
        Some(v) => Some(v as u64),
        None => None,
    };
    assert(opt_nat64(st) == opt_nat16(service_of(rec@.0, rec@.1)));
    push_opt_num(out, st);
    push_str(out, ",\"tone\":");
    push_opt_json(out, &opt_str_owned(rec.audio_option()));
    push_str(out, "}");
    assert(out@ =~= o0 + row_part2(rec@.0, rec@.1));
}

fn push_channel_row(out: &mut String, rec: &Record, di: usize, si: usize, ci: usize)
    ensures
        final(out)@ == old(out)@ + channel_row(rec@.0, rec@.1, di as nat, si as nat, ci as nat),
{
    let ghost o0 = out@;
    push_row_part1(out, rec, di, si, ci);
    push_row_part2(out, rec);
    proof { reveal(channel_row); }
    assert(out@ =~= o0 + channel_row(rec@.0, rec@.1, di as nat, si as nat, ci as nat));
}

/// Append the filter-passing channels of system `si` of document `di` as rows,
/// comma-separated: each voice channel (one with a schema, numbered in order —
/// the number its library id carries) whose number is in `allowed` (when given)
/// and which passes the filter. With `allowed` the numbering still counts every
/// channel, so the ids match the unscoped list.
pub fn push_system_channels<P: SdCardProfile + ?Sized>(
    out: &mut String,
    di: usize,
    si: usize,
    sys: &System<P>,
    profile: &P,
    filter: &Filter,
    allowed: Option<&BTreeSet<usize>>,
)
    requires
        sys.spec_profile() == profile,
    ensures
        final(out)@ == old(out)@ + join(
            channel_rows(
                sys@,
                di as nat,
                si as nat,
                profile,
                filter.services@,
                filter.search@,
                search_hit(sys@, profile, filter.search@),
                opt_set_view(allowed),
            ).0,
        ),
{
    let hit = name_hits(sys, filter);
    let lines = sys.lines();
    let ghost ls = lines_view(lines@);
    let ghost av = opt_set_view(allowed);
    let ghost o0 = out@;
    let mut ci: usize = 0;
    let mut k: usize = 0;
    let mut first = true;
    assert(ls.take(0) =~= Seq::<SpecLine>::empty());
    while k < lines.len()
        invariant
            k <= lines@.len(),
            ls == lines_view(lines@),
            ls == sys@,
            av == opt_set_view(allowed),
            ci <= k,
            ci as nat == channel_rows(ls.take(k as int), di as nat, si as nat, profile, filter.services@, filter.search@, hit, av).1,
            first == (channel_rows(ls.take(k as int), di as nat, si as nat, profile, filter.services@, filter.search@, hit, av).0.len() == 0),
            out@ == o0 + join(channel_rows(ls.take(k as int), di as nat, si as nat, profile, filter.services@, filter.search@, hit, av).0),
        decreases lines@.len() - k,
    {
        let line = &lines[k];
        proof {
            assert(ls.take(k + 1).drop_last() =~= ls.take(k as int));
            assert(ls.take(k + 1).last() == line@);
        }
        let ghost prev = channel_rows(ls.take(k as int), di as nat, si as nat, profile, filter.services@, filter.search@, hit, av).0;
        if is_voice_channel(line.command()) {
            match Record::new(line, profile) {
                Some(rec) => {
                    let this = ci;
                    ci += 1;
                    let in_set = match allowed {
                        Some(a) => set_has(a, this),
                        None => true,
                    };
                    if in_set {
                        let name: &str = match rec.name() {
                            Some(n) => n,
                            None => "",
                        };
                        proof {
                            reveal_strlit("");
                            assert(""@ =~= Seq::<char>::empty());
                        }
                        assert(name@ == or_empty(rec_name(rec@)));
                        if filter.channel_ok(rec.service_type_code(), name, hit) {
                            proof {
                                lemma_join_push(prev, channel_row(rec@.0, rec@.1, di as nat, si as nat, this as nat));
                            }
                            if !first {
                                push_str(out, ",");
                            }
                            push_channel_row(out, &rec, di, si, this);
                            first = false;
                        }
                    }
                },
                None => {},
            }
        }
        k += 1;
    }
    assert(ls.take(ls.len() as int) =~= ls);
}

/// The rows of system `si` of document `di` (documents `ds`) as a JSON array;
/// `[]` when there is no such system.
pub open spec fn spec_rows_json<P: SdCardProfile + ?Sized>(
    ds: Seq<Seq<SpecLine>>,
    p: &P,
    di: usize,
    si: usize,
    services: Seq<u16>,
    search: Seq<char>,
    allowed: Option<Set<usize>>,
) -> Seq<char> {
    if di < ds.len() && si < system_views(ds[di as int]).len() {
        let sys = system_views(ds[di as int])[si as int];
        "["@ + join(channel_rows(sys, di as nat, si as nat, p, services, search, search_hit(sys, p, search), allowed).0)
            + "]"@
    } else {
        "[]"@
    }
}

/// The rows of the system a `d<di>s<si>` id names, filtered by a comma list of
/// service codes and a search text, scoped to `allowed` when given; `[]` when the
/// id does not read or names no system.
pub fn system_rows_json<P: SdCardProfile + ?Sized>(
    docs: &[Document],
    profile: &P,
    system_id: &str,
    services_csv: &str,
    search: &str,
    allowed: Option<&BTreeSet<usize>>,
) -> (r: String)
    ensures
        r@ == match spec_system_id(system_id@) {
            Some((di, si)) => spec_rows_json(
                docs_view(docs@),
                profile,
                di,
                si,
                services_of(split_on(services_csv@, ',')),
                lowercase(trim(search@)),
                opt_set_view(allowed),
            ),
            None => "[]"@,
        },
{
    let (di, si) = match parse_system_id(system_id) {
        Some(p) => p,
        None => {
            return copy_str("[]");
        },
    };
    if di >= docs.len() {
        return copy_str("[]");
    }
    let ext = Extraction::segment(&docs[di], profile);
    let systems = ext.systems();
    if si >= systems.len() {
        return copy_str("[]");
    }
    let filter = Filter::parse(services_csv, "", search);
    let mut out = copy_str("[");
    push_system_channels(&mut out, di, si, &systems[si], profile, &filter, allowed);
    push_str(&mut out, "]");
    out
}

/// The channels of the system a `d<di>s<si>` id names, filtered (the lazy-load
/// list of a catalog row).
pub fn library_channels_json<P: SdCardProfile + ?Sized>(
    docs: &[Document],
    profile: &P,
    system_id: &str,
    services_csv: &str,
    search: &str,
) -> (r: String)
    ensures
        r@ == match spec_system_id(system_id@) {
            Some((di, si)) => spec_rows_json(
                docs_view(docs@),
                profile,
                di,
                si,
                services_of(split_on(services_csv@, ',')),
                lowercase(trim(search@)),
                None,
            ),
            None => "[]"@,
        },
{
    system_rows_json(docs, profile, system_id, services_csv, search, None)
}

/// The first bucket of `county` among `bs`.
pub open spec fn bucket_index(bs: Seq<(u64, Vec<usize>)>, county: u64) -> Option<int>
    decreases bs.len(),
{
    if bs.len() == 0 {
        None
    } else {
        match bucket_index(bs.drop_last(), county) {
            Some(i) => Some(i),
            None => if bs.last().0 == county { Some(bs.len() - 1) } else { None },
        }
    }
}

/// The channels system `si` of document `di` has placed in `county` (0: the
/// no-county bucket); none when the placement or bucket is unknown.
pub open spec fn county_set(pl: Seq<Vec<SystemPlacement>>, di: usize, si: usize, county: u64) -> Set<usize> {
    if di < pl.len() && si < pl[di as int]@.len() {
        match bucket_index(pl[di as int]@[si as int].by_county@, county) {
            Some(i) => pl[di as int]@[si as int].by_county@[i].1@.to_set(),
            None => Set::empty(),
        }
    } else {
        Set::empty()
    }
}

fn set_insert(s: &mut BTreeSet<usize>, x: usize)
    ensures
        final(s)@ == old(s)@.insert(x),
{
    broadcast use vstd::laws_cmp::group_laws_cmp;
    s.insert(x);
}

fn find_bucket(bs: &Vec<(u64, Vec<usize>)>, county: u64) -> (r: Option<usize>)
    ensures
        match r {
            Some(i) => bucket_index(bs@, county) == Some(i as int) && i < bs@.len(),
            None => bucket_index(bs@, county) is None,
        },
{
    let mut k: usize = 0;
    while k < bs.len()
        invariant
            k <= bs@.len(),
            bucket_index(bs@.take(k as int), county) is None,
        decreases bs@.len() - k,
    {
        proof {
            assert(bs@.take(k + 1).drop_last() =~= bs@.take(k as int));
        }
        if bs[k].0 == county {
            proof { lemma_bucket_index_prefix(bs@, county, k as int + 1); }
            return Some(k);
        }
        k += 1;
    }
    assert(bs@.take(bs@.len() as int) =~= bs@);
    None
}

proof fn lemma_bucket_index_prefix(bs: Seq<(u64, Vec<usize>)>, county: u64, n: int)
    requires
        0 < n <= bs.len(),
        bucket_index(bs.take(n - 1), county) is None,
        bs[n - 1].0 == county,
    ensures
        bucket_index(bs, county) == Some(n - 1),
    decreases bs.len(),
{
    assert(bs.take(n).drop_last() =~= bs.take(n - 1));
    assert(bucket_index(bs.take(n), county) == Some(n - 1));
    if n < bs.len() {
        assert(bs.drop_last().take(n) =~= bs.take(n));
        assert(bs.drop_last().take(n - 1) =~= bs.take(n - 1));
        lemma_bucket_index_prefix(bs.drop_last(), county, n);
    } else {
        assert(bs.take(n) =~= bs);
    }
}

fn placed_set(pl: &[Vec<SystemPlacement>], di: usize, si: usize, county: u64) -> (r: BTreeSet<usize>)
    ensures
        r@ == county_set(pl@, di, si, county),
{
    let mut out: BTreeSet<usize> = BTreeSet::new();
    if di < pl.len() && si < pl[di].len() {
        let bs = &pl[di][si].by_county;
        match find_bucket(bs, county) {
            Some(i) => {
                let v = &bs[i].1;
                let mut k: usize = 0;
                assert(v@.take(0).to_set() =~= Set::<usize>::empty());
                while k < v.len()
                    invariant
                        k <= v@.len(),
                        out@ == v@.take(k as int).to_set(),
                    decreases v@.len() - k,
                {
                    let ghost before = out@;
                    set_insert(&mut out, v[k]);
                    assert(out@ =~= v@.take(k + 1).to_set()) by {
                        let t0 = v@.take(k as int);
                        let t1 = v@.take(k + 1);
                        assert forall|x: usize| out@.contains(x) <==> t1.to_set().contains(x) by {
                            if out@.contains(x) && x != v@[k as int] {
                                let m = choose|m: int| 0 <= m < t0.len() && #[trigger] t0[m] == x;
                                assert(t1[m] == x);
                            }
                            if t1.to_set().contains(x) {
                                let m = choose|m: int| 0 <= m < t1.len() && #[trigger] t1[m] == x;
                                if m < k {
                                    assert(t0[m] == x);
                                    assert(before.contains(x));
                                }
                            }
                            if x == v@[k as int] {
                                assert(t1[k as int] == x);
                            }
                        }
                    }
                    k += 1;
                }
                assert(v@.take(v@.len() as int) =~= v@);
            },
            None => {
                assert(out@ =~= Set::<usize>::empty());
            },
        }
    } else {
        assert(out@ =~= Set::<usize>::empty());
    }
    out
}

/// The channels of the system a `d<di>s<si>` id names that its placement puts
/// in `county` (0: the no-county bucket), filtered; no channel when the
/// placement is unknown. Ids keep the system-wide numbering.
pub fn county_channels_json<P: SdCardProfile + ?Sized>(
    docs: &[Document],
    profile: &P,
    placements: &[Vec<SystemPlacement>],
    system_id: &str,
    county: u64,
    services_csv: &str,
    search: &str,
) -> (r: String)
    ensures
        r@ == match spec_system_id(system_id@) {
            Some((di, si)) => spec_rows_json(
                docs_view(docs@),
                profile,
                di,
                si,
                services_of(split_on(services_csv@, ',')),
                lowercase(trim(search@)),
                Some(county_set(placements@, di, si, county)),
            ),
            None => "[]"@,
        },
{
    match parse_system_id(system_id) {
        Some((di, si)) => {
            let allowed = placed_set(placements, di, si, county);
            system_rows_json(docs, profile, system_id, services_csv, search, Some(&allowed))
        },
        None => copy_str("[]"),
    }
}

// ---------------------------------------------------------------------------
// The filtered catalog rows of a library.
// ---------------------------------------------------------------------------

/// Some channel of a bucket passes.
pub open spec fn bucket_hit(cis: Seq<usize>, passing: Seq<usize>) -> bool {
    exists|j: int| 0 <= j < cis.len() && passing.contains(#[trigger] cis[j])
}

/// The counties (not 0) whose bucket holds a passing channel, in bucket order.
pub open spec fn covered_counties(bs: Seq<(u64, Vec<usize>)>, passing: Seq<usize>) -> Seq<u64>
    decreases bs.len(),
{
    if bs.len() == 0 {
        Seq::empty()
    } else {
        let prev = covered_counties(bs.drop_last(), passing);
        let b = bs.last();
        if b.0 != 0 && bucket_hit(b.1@, passing) {
            prev.push(b.0)
        } else {
            prev
        }
    }
}

/// The no-county bucket holds a passing channel.
pub open spec fn statewide_hit(bs: Seq<(u64, Vec<usize>)>, passing: Seq<usize>) -> bool {
    exists|i: int| 0 <= i < bs.len() && (#[trigger] bs[i]).0 == 0 && bucket_hit(bs[i].1@, passing)
}

/// `d<di>s<si>`.
pub open spec fn system_row_id(di: nat, si: nat) -> Seq<char> {
    "d"@ + decimal(di) + "s"@ + decimal(si)
}

pub open spec fn decimals(s: Seq<u64>) -> Seq<Seq<char>> {
    Seq::new(s.len(), |i: int| decimal(s[i] as nat))
}

/// A catalog row's id, name, kind and technology, and the opening of its
/// county list.
pub open spec fn row_head<P: SdCardProfile + ?Sized>(sys: Seq<SpecLine>, p: &P, di: nat, si: nat) -> Seq<char> {
    "{\"id\":"@ + jstr(system_row_id(di, si)) + ",\"name\":"@ + jstr(or_empty(sys_name_of(sys, p))) + ",\"kind\":"@
        + jstr(cmd_of(sys[0])) + ",\"tech\":"@ + jopt_str(sys_tech_of(sys, p)) + ",\"counties\":["@
}

/// A catalog row's states, statewide flag, site and channel counts.
pub open spec fn row_tail(sys: Seq<SpecLine>, states: Seq<u64>, statewide: bool, count: nat) -> Seq<char> {
    "],\"states\":["@ + join(decimals(states)) + "],\"statewide\":"@ + jbool(statewide) + ",\"siteCount\":"@
        + decimal(command_count(sys, "Site"@)) + ",\"channelCount\":"@ + decimal(count) + "}"@
}

/// A catalog row: a system with its covered counties, states, whether it has
/// passing channels in no county, its site count and passing-channel count.
#[verifier::opaque]
pub open spec fn catalog_row<P: SdCardProfile + ?Sized>(
    sys: Seq<SpecLine>,
    p: &P,
    di: nat,
    si: nat,
    states: Seq<u64>,
    counties: Seq<u64>,
    statewide: bool,
    count: nat,
) -> Seq<char> {
    row_head(sys, p, di, si) + join(decimals(counties)) + row_tail(sys, states, statewide, count)
}

/// The system passes the filter's technology constraint.
pub open spec fn tech_ok<P: SdCardProfile + ?Sized>(sys: Seq<SpecLine>, p: &P, f: Filter) -> bool {
    f.techs@.len() == 0 || exists|k: int|
        0 <= k < f.techs@.len() && tech_matches(#[trigger] f.techs@[k]@, lowercase(or_empty(sys_tech_of(sys, p))))
}

/// The placement of system `si` of document `di`, when known.
pub open spec fn placement_of(pl: Seq<Vec<SystemPlacement>>, di: usize, si: usize) -> Option<SystemPlacement> {
    if di < pl.len() && si < pl[di as int]@.len() {
        Some(pl[di as int]@[si as int])
    } else {
        None
    }
}

/// The row of system `si` of document `di`: none when the system fails the
/// technology filter or has no passing channel.
pub open spec fn system_row<P: SdCardProfile + ?Sized>(
    sys: Seq<SpecLine>,
    p: &P,
    f: Filter,
    pl: Seq<Vec<SystemPlacement>>,
    di: usize,
    si: usize,
) -> Option<Seq<char>> {
    let passing = passing_indices(sys, p, f, search_hit(sys, p, f.search@));
    if !tech_ok(sys, p, f) || passing.len() == 0 {
        None
    } else {
        let states = match placement_of(pl, di, si) {
            Some(sp) => sp.states@,
            None => Seq::empty(),
        };
        let bs = match placement_of(pl, di, si) {
            Some(sp) => sp.by_county@,
            None => Seq::empty(),
        };
        Some(
            catalog_row(
                sys,
                p,
                di as nat,
                si as nat,
                states,
                covered_counties(bs, passing),
                statewide_hit(bs, passing),
                passing.len(),
            ),
        )
    }
}

/// The rows of one document's systems (`sv`), in order.
pub open spec fn doc_rows<P: SdCardProfile + ?Sized>(
    sv: Seq<Seq<SpecLine>>,
    p: &P,
    f: Filter,
    pl: Seq<Vec<SystemPlacement>>,
    di: usize,
) -> Seq<Seq<char>>
    decreases sv.len(),
{
    if sv.len() == 0 {
        Seq::empty()
    } else {
        let prev = doc_rows(sv.drop_last(), p, f, pl, di);
        match system_row(sv.last(), p, f, pl, di, (sv.len() - 1) as usize) {
            Some(r) => prev.push(r),
            None => prev,
        }
    }
}

/// The rows of every document's systems, documents in order.
pub open spec fn library_rows<P: SdCardProfile + ?Sized>(
    ds: Seq<Seq<SpecLine>>,
    p: &P,
    f: Filter,
    pl: Seq<Vec<SystemPlacement>>,
) -> Seq<Seq<char>>
    decreases ds.len(),
{
    if ds.len() == 0 {
        Seq::empty()
    } else {
        library_rows(ds.drop_last(), p, f, pl) + doc_rows(system_views(ds.last()), p, f, pl, (ds.len() - 1) as usize)
    }
}

fn vec_has(v: &Vec<usize>, x: usize) -> (r: bool)
    ensures
        r == v@.contains(x),
{
    let mut k: usize = 0;
    while k < v.len()
        invariant
            k <= v@.len(),
            forall|m: int| 0 <= m < k ==> v@[m] != x,
        decreases v@.len() - k,
    {
        if v[k] == x {
            assert(v@[k as int] == x);
            return true;
        }
        k += 1;
    }
    false
}

fn any_passing(cis: &Vec<usize>, passing: &Vec<usize>) -> (r: bool)
    ensures
        r == bucket_hit(cis@, passing@),
{
    let mut k: usize = 0;
    while k < cis.len()
        invariant
            k <= cis@.len(),
            forall|m: int| 0 <= m < k ==> !passing@.contains(#[trigger] cis@[m]),
        decreases cis@.len() - k,
    {
        if vec_has(passing, cis[k]) {
            return true;
        }
        k += 1;
    }
    false
}

/// The covered counties and the statewide flag of a system's buckets.
fn covered(bs: &Vec<(u64, Vec<usize>)>, passing: &Vec<usize>) -> (r: (Vec<u64>, bool))
    ensures
        r.0@ == covered_counties(bs@, passing@),
        r.1 == statewide_hit(bs@, passing@),
{
    let mut counties: Vec<u64> = Vec::new();
    let mut statewide = false;
    let mut k: usize = 0;
    assert(bs@.take(0) =~= Seq::<(u64, Vec<usize>)>::empty());
    while k < bs.len()
        invariant
            k <= bs@.len(),
            counties@ == covered_counties(bs@.take(k as int), passing@),
            statewide == statewide_hit(bs@.take(k as int), passing@),
        decreases bs@.len() - k,
    {
        proof {
            assert(bs@.take(k + 1).drop_last() =~= bs@.take(k as int));
            assert(bs@.take(k + 1).last() == bs@[k as int]);
        }
        let hit = any_passing(&bs[k].1, passing);
        if hit {
            if bs[k].0 == 0 {
                statewide = true;
            } else {
                counties.push(bs[k].0);
            }
        }
        proof {
            let t0 = bs@.take(k as int);
            let t1 = bs@.take(k + 1);
            if statewide_hit(t1, passing@) && !statewide_hit(t0, passing@) {
                let i = choose|i: int| 0 <= i < t1.len() && (#[trigger] t1[i]).0 == 0 && bucket_hit(t1[i].1@, passing@);
                if i < k {
                    assert(t0[i] == t1[i]);
                }
            }
            if statewide_hit(t0, passing@) {
                let i = choose|i: int| 0 <= i < t0.len() && (#[trigger] t0[i]).0 == 0 && bucket_hit(t0[i].1@, passing@);
                assert(t1[i] == t0[i]);
            }
            if hit && bs@[k as int].0 == 0 {
                assert(t1[k as int] == bs@[k as int]);
            }
        }
        k += 1;
    }
    assert(bs@.take(bs@.len() as int) =~= bs@);
    (counties, statewide)
}

fn push_decimals(out: &mut String, v: &Vec<u64>)
    ensures
        final(out)@ == old(out)@ + join(decimals(v@)),
{
    let ghost o0 = out@;
    let ghost items = decimals(v@);
    let mut k: usize = 0;
    assert(items.take(0) =~= Seq::<Seq<char>>::empty());
    while k < v.len()
        invariant
            k <= v@.len(),
            items == decimals(v@),
            out@ == o0 + join(items.take(k as int)),
        decreases v@.len() - k,
    {
        proof { lemma_join_step(items, k as int); }
        if k > 0 {
            push_str(out, ",");
        }
        push_decimal(out, v[k]);
        assert(out@ =~= o0 + join(items.take(k + 1)));
        k += 1;
    }
    assert(items.take(items.len() as int) =~= items);
}

fn system_row_id_string(di: usize, si: usize) -> (r: String)
    ensures
        r@ == system_row_id(di as nat, si as nat),
{
    let mut id = copy_str("d");
    push_decimal(&mut id, di as u64);
    push_str(&mut id, "s");
    push_decimal(&mut id, si as u64);
    proof {
        reveal_strlit("d");
        reveal_strlit("s");
    }
    assert(id@ =~= system_row_id(di as nat, si as nat));
    id
}

fn push_row_head<P: SdCardProfile + ?Sized>(out: &mut String, di: usize, si: usize, sys: &System<P>, profile: &P)
    requires
        sys.spec_profile() == profile,
    ensures
        final(out)@ == old(out)@ + row_head(sys@, profile, di as nat, si as nat),
{
    let ghost o0 = out@;
    let id = system_row_id_string(di, si);
    let name = str_or_empty(sys.name());
    assert(name@ == or_empty(sys_name_of(sys@, profile)));
    let kind = sys.header().command();
    assert(kind@ == cmd_of(sys@[0]));
    let tech = opt_str_owned(sys.tech());
    assert(opt_owned(tech) == sys_tech_of(sys@, profile));
    push_str(out, "{\"id\":");
    push_json_string(out, id.as_str());
    push_str(out, ",\"name\":");
    push_json_string(out, name.as_str());
    push_str(out, ",\"kind\":");
    push_json_string(out, kind);
    push_str(out, ",\"tech\":");
    push_opt_json(out, &tech);
    push_str(out, ",\"counties\":[");
    assert(out@ =~= o0 + row_head(sys@, profile, di as nat, si as nat));
}

fn push_row_tail<P: SdCardProfile + ?Sized>(out: &mut String, sys: &System<P>, states: &Vec<u64>, statewide: bool, count: usize)
    ensures
        final(out)@ == old(out)@ + row_tail(sys@, states@, statewide, count as nat),
{
    let ghost o0 = out@;
    push_str(out, "],\"states\":[");
    push_decimals(out, states);
    push_str(out, "],\"statewide\":");
    push_bool(out, statewide);
    push_str(out, ",\"siteCount\":");
    let sites = crate::catalog::count_command(sys.lines(), "Site");
    proof { reveal_strlit("Site"); }
    push_decimal(out, sites as u64);
    push_str(out, ",\"channelCount\":");
    push_decimal(out, count as u64);
    push_str(out, "}");
    assert(out@ =~= o0 + row_tail(sys@, states@, statewide, count as nat));
}

fn push_catalog_row<P: SdCardProfile + ?Sized>(
    out: &mut String,
    di: usize,
    si: usize,
    sys: &System<P>,
    profile: &P,
    states: &Vec<u64>,
    counties: &Vec<u64>,
    statewide: bool,
    count: usize,
)
    requires
        sys.spec_profile() == profile,
    ensures
        final(out)@ == old(out)@ + catalog_row(sys@, profile, di as nat, si as nat, states@, counties@, statewide, count as nat),
{
    let ghost o0 = out@;
    push_row_head(out, di, si, sys, profile);
    push_decimals(out, counties);
    push_row_tail(out, sys, states, statewide, count);
    proof { reveal(catalog_row); }
    assert(out@ =~= o0 + catalog_row(sys@, profile, di as nat, si as nat, states@, counties@, statewide, count as nat));
}

/// Append system `si`'s row, if it has one, after the rows `pre` already out.
fn push_system_row<P: SdCardProfile + ?Sized>(
    out: &mut String,
    first: &mut bool,
    di: usize,
    si: usize,
    sys: &System<P>,
    profile: &P,
    placements: &[Vec<SystemPlacement>],
    filter: &Filter,
    Ghost(h): Ghost<Seq<char>>,
    Ghost(pre): Ghost<Seq<Seq<char>>>,
)
    requires
        sys.spec_profile() == profile,
        old(out)@ == h + join(pre),
        *old(first) == (pre.len() == 0),
    ensures
        final(out)@ == h + join(
            match system_row(sys@, profile, *filter, placements@, di, si) {
                Some(r) => pre.push(r),
                None => pre,
            },
        ),
        *final(first) == ((match system_row(sys@, profile, *filter, placements@, di, si) {
            Some(r) => pre.push(r),
            None => pre,
        }).len() == 0),
{
    if !filter.system_tech_ok(sys) {
        return;
    }
    let passing = passing_channels(sys, profile, filter);
    if passing.len() == 0 {
        return;
    }
    let no_states: Vec<u64> = Vec::new();
    let no_buckets: Vec<(u64, Vec<usize>)> = Vec::new();
    let (states, buckets): (&Vec<u64>, &Vec<(u64, Vec<usize>)>) = if di < placements.len() && si < placements[di].len() {
        (&placements[di][si].states, &placements[di][si].by_county)
    } else {
        (&no_states, &no_buckets)
    };
    let (counties, statewide) = covered(buckets, &passing);
    let ghost row = catalog_row(
        sys@,
        profile,
        di as nat,
        si as nat,
        states@,
        counties@,
        statewide,
        passing@.len() as nat,
    );
    assert(system_row(sys@, profile, *filter, placements@, di, si) == Some(row));
    proof { lemma_join_push(pre, row); }
    if !*first {
        push_str(out, ",");
    }
    push_catalog_row(out, di, si, sys, profile, states, &counties, statewide, passing.len());
    *first = false;
}

/// Append one document's rows after the rows `pre` already out.
fn push_doc_rows<P: SdCardProfile + ?Sized>(
    out: &mut String,
    first: &mut bool,
    di: usize,
    doc: &Document,
    profile: &P,
    placements: &[Vec<SystemPlacement>],
    filter: &Filter,
    Ghost(h): Ghost<Seq<char>>,
    Ghost(pre): Ghost<Seq<Seq<char>>>,
)
    requires
        old(out)@ == h + join(pre),
        *old(first) == (pre.len() == 0),
    ensures
        final(out)@ == h + join(pre + doc_rows(system_views(doc@), profile, *filter, placements@, di)),
        *final(first) == ((pre + doc_rows(system_views(doc@), profile, *filter, placements@, di)).len() == 0),
{
    let ext = Extraction::segment(doc, profile);
    let systems = ext.systems();
    let ghost sv = system_views(doc@);
    let mut si: usize = 0;
    assert(sv.take(0) =~= Seq::<Seq<SpecLine>>::empty());
    assert(pre + doc_rows(sv.take(0), profile, *filter, placements@, di) =~= pre);
    while si < systems.len()
        invariant
            si <= systems@.len(),
            systems@.len() == sv.len(),
            sv == system_views(doc@),
            forall|k: int| 0 <= k < systems@.len() ==> (#[trigger] systems@[k])@ == sv[k],
            forall|k: int| 0 <= k < systems@.len() ==> (#[trigger] systems@[k]).spec_profile() == profile,
            out@ == h + join(pre + doc_rows(sv.take(si as int), profile, *filter, placements@, di)),
            *first == ((pre + doc_rows(sv.take(si as int), profile, *filter, placements@, di)).len() == 0),
        decreases systems@.len() - si,
    {
        proof {
            assert(sv.take(si + 1).drop_last() =~= sv.take(si as int));
            assert(sv.take(si + 1).last() == sv[si as int]);
        }
        let ghost rows = pre + doc_rows(sv.take(si as int), profile, *filter, placements@, di);
        push_system_row(out, first, di, si, &systems[si], profile, placements, filter, Ghost(h), Ghost(rows));
        proof {
            let next = doc_rows(sv.take(si + 1), profile, *filter, placements@, di);
            match system_row(sv[si as int], profile, *filter, placements@, di, si) {
                Some(r) => {
                    assert(pre + next =~= rows.push(r));
                },
                None => {
                    assert(pre + next =~= rows);
                },
            }
        }
        si += 1;
    }
    assert(sv.take(sv.len() as int) =~= sv);
}

/// The filtered catalog of a library as a JSON array of system rows, documents
/// and systems in order: each system that passes the technology filter and has
/// a channel passing the service/search filter, with its `id` (`d<di>s<si>`),
/// `name`, `kind`, `tech`, `counties` (the counties, in bucket order, whose
/// bucket in its placement holds a passing channel), `states`, `statewide` (its
/// no-county bucket holds one), `siteCount` and `channelCount` (passing
/// channels). A system with no known placement lists no county or state.
pub fn library_catalog_json<P: SdCardProfile + ?Sized>(
    docs: &[Document],
    profile: &P,
    placements: &[Vec<SystemPlacement>],
    filter: &Filter,
) -> (r: String)
    ensures
        r@ == "["@ + join(library_rows(docs_view(docs@), profile, *filter, placements@)) + "]"@,
{
    let ghost dv = docs_view(docs@);
    let mut out = copy_str("[");
    let ghost h = out@;
    let mut first = true;
    let mut di: usize = 0;
    assert(dv.take(0) =~= Seq::<Seq<SpecLine>>::empty());
    assert(out@ =~= h + join(library_rows(dv.take(0), profile, *filter, placements@)));
    while di < docs.len()
        invariant
            di <= docs@.len(),
            dv == docs_view(docs@),
            h == "["@,
            first == (library_rows(dv.take(di as int), profile, *filter, placements@).len() == 0),
            out@ == h + join(library_rows(dv.take(di as int), profile, *filter, placements@)),
        decreases docs@.len() - di,
    {
        proof {
            assert(dv.take(di + 1).drop_last() =~= dv.take(di as int));
            assert(dv.take(di + 1).last() == docs@[di as int]@);
        }
        let ghost pre = library_rows(dv.take(di as int), profile, *filter, placements@);
        push_doc_rows(&mut out, &mut first, di, &docs[di], profile, placements, filter, Ghost(h), Ghost(pre));
        di += 1;
    }
    assert(dv.take(dv.len() as int) =~= dv);
    push_str(&mut out, "]");
    out
}

} // verus!
