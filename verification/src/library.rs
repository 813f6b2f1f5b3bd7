//! Working across a loaded library of HPDB documents: a favorites list built from
//! channels picked anywhere in the library.

use vstd::prelude::*;
use std::collections::{BTreeMap, BTreeSet};
use crate::device::SdCardProfile;
use crate::extract::{Extraction, cmd_at, is_voice_channel, is_voice_cmd, last_group, preamble_end, pruned, push_system_subset, system_views, voice_before};
use crate::favorites::{build_favorites, defaults_fit, spec_bandplan, spec_dqks, spec_favorites, with_synthesized_bandplan};
use crate::format::{Document, Line, SpecLine, lines_view, push_lines};
use crate::text::{split_on, split_str, trim, trim_str};
use crate::text::{decimal, is_digit};
use crate::ui::{channel_id, lemma_decimal_parses, lemma_split_at_first, parse_channel_id, spec_channel_id, strip_char};

verus! {

/// The `(document, system, channel)` triples a comma list of library channel ids
/// names: pieces trimmed, empty and unreadable ones skipped.
pub open spec fn channel_ids_of(parts: Seq<Seq<char>>) -> Seq<(usize, usize, usize)>
    decreases parts.len(),
{
    if parts.len() == 0 {
        Seq::empty()
    } else {
        let prev = channel_ids_of(parts.drop_last());
        let t = trim(parts.last());
        if t.len() > 0 {
            match spec_channel_id(t) {
                Some(x) => prev.push(x),
                None => prev,
            }
        } else {
            prev
        }
    }
}

/// Some id names a channel of document `di`.
pub open spec fn names_document(ids: Seq<(usize, usize, usize)>, di: usize) -> bool {
    exists|k: int| 0 <= k < ids.len() && (#[trigger] ids[k]).0 == di
}

/// Some id names a channel of system `si` of document `di`.
pub open spec fn names_system(ids: Seq<(usize, usize, usize)>, di: usize, si: usize) -> bool {
    exists|k: int| 0 <= k < ids.len() && (#[trigger] ids[k]).0 == di && ids[k].1 == si
}

/// The voice channels of system `si` of document `di` that the ids name.
pub open spec fn chosen_channels(ids: Seq<(usize, usize, usize)>, di: usize, si: usize) -> Set<usize> {
    Set::new(|c: usize| ids.contains((di, si, c)))
}

/// A document named before `di`.
pub open spec fn named_before(ids: Seq<(usize, usize, usize)>, di: usize) -> bool {
    exists|d: usize| d < di && #[trigger] names_document(ids, d)
}

/// The lines the ids pick from one document's systems, in system order: each
/// named system pruned to its named channels.
pub open spec fn chosen_lines(sv: Seq<Seq<SpecLine>>, ids: Seq<(usize, usize, usize)>, di: usize) -> Seq<SpecLine>
    decreases sv.len(),
{
    if sv.len() == 0 {
        Seq::empty()
    } else {
        let prev = chosen_lines(sv.drop_last(), ids, di);
        let si = (sv.len() - 1) as usize;
        if names_system(ids, di, si) {
            prev + pruned(sv.last(), chosen_channels(ids, di, si), sv.last().len() as int)
        } else {
            prev
        }
    }
}

/// The source the picked channels make, documents in order: the preamble of the
/// first named document, then each named document's picked lines.
pub open spec fn gathered(ds: Seq<Seq<SpecLine>>, ids: Seq<(usize, usize, usize)>) -> Seq<SpecLine>
    decreases ds.len(),
{
    if ds.len() == 0 {
        Seq::empty()
    } else {
        let prev = gathered(ds.drop_last(), ids);
        let di = (ds.len() - 1) as usize;
        let d = ds.last();
        if names_document(ids, di) {
            let pre = if named_before(ids, di) {
                Seq::<SpecLine>::empty()
            } else {
                d.take(preamble_end(d))
            };
            prev + pre + chosen_lines(system_views(d), ids, di)
        } else {
            prev
        }
    }
}

/// The documents' views.
pub open spec fn docs_view(docs: Seq<Document>) -> Seq<Seq<SpecLine>> {
    Seq::new(docs.len(), |i: int| docs[i]@)
}

/// A favorites list made of `src`: converted to the favorites dialect with its
/// department quick keys, and with P25 band plans added where asked.
pub open spec fn spec_favorites_of<P: SdCardProfile + ?Sized>(
    src: Seq<SpecLine>,
    profile: &P,
    departments_on: bool,
    band_plan: bool,
) -> Seq<SpecLine> {
    let fav = match profile.spec_dqks_status_line(departments_on) {
        Some(t) => spec_dqks(spec_favorites(src, profile), t),
        None => spec_favorites(src, profile),
    };
    if band_plan {
        match profile.spec_p25_bandplan() {
            Some(plan) => spec_bandplan(fav, plan, false, profile),
            None => fav,
        }
    } else {
        fav
    }
}

fn names_document_exec(ids: &Vec<(usize, usize, usize)>, di: usize) -> (r: bool)
    ensures
        r == names_document(ids@, di),
{
    let mut k: usize = 0;
    while k < ids.len()
        invariant
            k <= ids@.len(),
            forall|m: int| 0 <= m < k ==> (#[trigger] ids@[m]).0 != di,
        decreases ids@.len() - k,
    {
        if ids[k].0 == di {
            assert(ids@[k as int].0 == di);
            return true;
        }
        k += 1;
    }
    false
}

fn names_system_exec(ids: &Vec<(usize, usize, usize)>, di: usize, si: usize) -> (r: bool)
    ensures
        r == names_system(ids@, di, si),
{
    let mut k: usize = 0;
    while k < ids.len()
        invariant
            k <= ids@.len(),
            forall|m: int| 0 <= m < k ==> !((#[trigger] ids@[m]).0 == di && ids@[m].1 == si),
        decreases ids@.len() - k,
    {
        if ids[k].0 == di && ids[k].1 == si {
            assert(ids@[k as int].0 == di && ids@[k as int].1 == si);
            return true;
        }
        k += 1;
    }
    false
}

/// The channel set the ids name for one system.
fn chosen_set(ids: &Vec<(usize, usize, usize)>, di: usize, si: usize) -> (r: BTreeSet<usize>)
    ensures
        r@ == chosen_channels(ids@, di, si),
{
    broadcast use vstd::laws_cmp::group_laws_cmp;
    let mut keep: BTreeSet<usize> = BTreeSet::new();
    let mut k: usize = 0;
    while k < ids.len()
        invariant
            k <= ids@.len(),
            forall|c: usize| #[trigger] keep@.contains(c) <==> exists|m: int| 0 <= m < k && ids@[m] == (di, si, c),
        decreases ids@.len() - k,
    {
        let (d, s, c) = ids[k];
        if d == di && s == si {
            keep.insert(c);
        }
        assert forall|x: usize| #[trigger] keep@.contains(x) <==> exists|m: int| 0 <= m < k + 1 && ids@[m] == (di, si, x) by {
            if keep@.contains(x) && x != c {
                let m = choose|m: int| 0 <= m < k && ids@[m] == (di, si, x);
            }
            if exists|m: int| 0 <= m < k + 1 && ids@[m] == (di, si, x) {
                let m = choose|m: int| 0 <= m < k + 1 && ids@[m] == (di, si, x);
                if m < k {
                    assert(exists|m2: int| 0 <= m2 < k && ids@[m2] == (di, si, x));
                }
            }
        }
        k += 1;
    }
    assert(keep@ =~= chosen_channels(ids@, di, si));
    keep
}

/// Append to `out` the lines the ids pick from document `di`.
fn push_chosen<P: SdCardProfile + ?Sized>(
    doc: &Document,
    profile: &P,
    ids: &Vec<(usize, usize, usize)>,
    di: usize,
    out: &mut Vec<Line>,
)
    ensures
        lines_view(final(out)@) == lines_view(old(out)@) + chosen_lines(system_views(doc@), ids@, di),
{
    let ext = Extraction::segment(doc, profile);
    let systems = ext.systems();
    let ghost sv = system_views(doc@);
    let ghost start = lines_view(out@);
    let mut si: usize = 0;
    assert(sv.take(0) =~= Seq::<Seq<SpecLine>>::empty());
    assert(lines_view(out@) =~= start + chosen_lines(sv.take(0), ids@, di));
    while si < systems.len()
        invariant
            si <= systems@.len(),
            systems@.len() == sv.len(),
            sv == system_views(doc@),
            forall|m: int| 0 <= m < systems@.len() ==> (#[trigger] systems@[m])@ == sv[m],
            lines_view(out@) == start + chosen_lines(sv.take(si as int), ids@, di),
        decreases systems@.len() - si,
    {
        proof {
            assert(sv.take(si + 1).drop_last() =~= sv.take(si as int));
            assert(sv.take(si + 1).last() == sv[si as int]);
        }
        let ghost before = lines_view(out@);
        let ghost sl = sv[si as int];
        if names_system_exec(ids, di, si) {
            let keep = chosen_set(ids, di, si);
            let lines = systems[si].lines();
            assert(lines_view(lines@) == sl);
            push_system_subset(lines, &keep, out);
            assert(lines_view(out@) =~= before + pruned(sl, chosen_channels(ids@, di, si), sl.len() as int));
        }
        assert(lines_view(out@) =~= start + chosen_lines(sv.take(si + 1), ids@, di));
        si += 1;
    }
    assert(sv.take(sv.len() as int) =~= sv);
}

/// Build a favorites document from library channel ids (`"d<di>s<si>c<ci>"`,
/// comma-separated): each named system of each named document pruned to its
/// named channels (with their scaffolding), under the preamble of the first named
/// document, then converted to the favorites dialect (department quick keys as
/// `departments_on` says) and, with `band_plan`, given P25 band plans. `None` when
/// no id can be read.
pub fn build_favorites_doc<P: SdCardProfile + ?Sized>(
    docs: &[Document],
    profile: &P,
    channel_ids_csv: &str,
    departments_on: bool,
    band_plan: bool,
) -> (r: Option<Document>)
    requires
        defaults_fit(profile),
    ensures
        r is None <==> channel_ids_of(split_on(channel_ids_csv@, ',')).len() == 0,
        r matches Some(d) ==> d@ == spec_favorites_of(
            gathered(docs_view(docs@), channel_ids_of(split_on(channel_ids_csv@, ','))),
            profile,
            departments_on,
            band_plan,
        ),
{
    let parts = split_str(channel_ids_csv, ',');
    let ghost ps = Seq::new(parts@.len(), |k: int| parts@[k]@);
    let mut ids: Vec<(usize, usize, usize)> = Vec::new();
    let mut k: usize = 0;
    assert(ps.take(0) =~= Seq::<Seq<char>>::empty());
    while k < parts.len()
        invariant
            k <= parts@.len(),
            ps == Seq::new(parts@.len(), |k: int| parts@[k]@),
            ids@ == channel_ids_of(ps.take(k as int)),
        decreases parts@.len() - k,
    {
        proof {
            assert(ps.take(k + 1).drop_last() =~= ps.take(k as int));
            assert(ps.take(k + 1).last() == parts@[k as int]@);
        }
        let t = trim_str(parts[k].as_str());
        if t.unicode_len() > 0 {
            match parse_channel_id(t) {
                Some(x) => ids.push(x),
                None => {},
            }
        }
        k += 1;
    }
    assert(ps.take(ps.len() as int) =~= ps);
    assert(ps =~= split_on(channel_ids_csv@, ','));
    if ids.len() == 0 {
        return None;
    }
    let ghost iv = ids@;
    let ghost dv = docs_view(docs@);
    let mut lines: Vec<Line> = Vec::new();
    let mut preamble_set = false;
    let mut di: usize = 0;
    assert(dv.take(0) =~= Seq::<Seq<SpecLine>>::empty());
    while di < docs.len()
        invariant
            di <= docs@.len(),
            dv == docs_view(docs@),
            iv == ids@,
            preamble_set == named_before(iv, di),
            lines_view(lines@) == gathered(dv.take(di as int), iv),
        decreases docs@.len() - di,
    {
        proof {
            assert(dv.take(di + 1).drop_last() =~= dv.take(di as int));
            assert(dv.take(di + 1).last() == docs@[di as int]@);
        }
        let named = names_document_exec(&ids, di);
        let ghost before = lines_view(lines@);
        let ghost d = docs@[di as int]@;
        if named {
            let doc = &docs[di];
            if !preamble_set {
                let ext = Extraction::segment(doc, profile);
                push_lines(ext.preamble_lines(), &mut lines);
                preamble_set = true;
            }
            let ghost mid = lines_view(lines@);
            assert(mid == before + (if named_before(iv, di) {
                Seq::<SpecLine>::empty()
            } else {
                d.take(preamble_end(d))
            })) by {
                if named_before(iv, di) {
                    assert(mid =~= before + Seq::<SpecLine>::empty());
                }
            }
            push_chosen(doc, profile, &ids, di, &mut lines);
        }
        assert(lines_view(lines@) =~= gathered(dv.take(di + 1), iv));
        proof {
            if named {
                assert(names_document(iv, di));
                assert(named_before(iv, (di + 1) as usize));
            } else if named_before(iv, (di + 1) as usize) {
                let w = choose|w: usize| w < di + 1 && #[trigger] names_document(iv, w);
                assert(w != di);
                assert(named_before(iv, di));
            }
            if named_before(iv, di) {
                let w = choose|w: usize| w < di && #[trigger] names_document(iv, w);
                assert(named_before(iv, (di + 1) as usize));
            }
        }
        di += 1;
    }
    assert(dv.take(dv.len() as int) =~= dv);
    let source = Document { lines };
    let fav = build_favorites(&source, profile, departments_on);
    if band_plan {
        Some(with_synthesized_bandplan(&fav, profile))
    } else {
        Some(fav)
    }
}

// ---------------------------------------------------------------------------
// Placing a system's channels into the counties their groups cover.
// ---------------------------------------------------------------------------

/// The county list given for line `g`, or none.
pub open spec fn counties_at(cs: Seq<Seq<u64>>, g: int) -> Seq<u64> {
    if 0 <= g < cs.len() {
        cs[g]
    } else {
        Seq::empty()
    }
}

/// The buckets voice channel line `i` goes into: the counties of the group above
/// it, or the no-county bucket `0` when that group covers none (or no group is
/// above it).
pub open spec fn placement_keys(ls: Seq<SpecLine>, cs: Seq<Seq<u64>>, i: int) -> Set<u64> {
    match last_group(ls, i) {
        Some(g) => if counties_at(cs, g).len() > 0 {
            counties_at(cs, g).to_set()
        } else {
            set![0u64]
        },
        None => set![0u64],
    }
}

/// A bucket's channels so far (none when it has no entry yet).
pub open spec fn bucket(m: Map<u64, Seq<usize>>, k: u64) -> Seq<usize> {
    if m.contains_key(k) {
        m[k]
    } else {
        Seq::empty()
    }
}

/// `prev` with channel `ci` appended to each bucket of `ks`.
pub open spec fn with_channel(prev: Map<u64, Seq<usize>>, ks: Set<u64>, ci: usize) -> Map<u64, Seq<usize>> {
    Map::new(
        |k: u64| prev.contains_key(k) || ks.contains(k),
        |k: u64| if ks.contains(k) {
            bucket(prev, k).push(ci)
        } else {
            prev[k]
        },
    )
}

/// Each bucket's voice-channel indices, in order, over the first `n` lines of a
/// system; `cs[g]` is the county list of the group on line `g`.
pub open spec fn spec_placement(ls: Seq<SpecLine>, cs: Seq<Seq<u64>>, n: int) -> Map<u64, Seq<usize>>
    decreases n,
{
    if n <= 0 {
        Map::empty()
    } else {
        let prev = spec_placement(ls, cs, n - 1);
        let i = n - 1;
        if is_voice_cmd(cmd_at(ls, i)) {
            with_channel(prev, placement_keys(ls, cs, i), voice_before(ls, i) as usize)
        } else {
            prev
        }
    }
}

/// The county lists' views.
pub open spec fn lists_view(v: Seq<Vec<u64>>) -> Seq<Seq<u64>> {
    Seq::new(v.len(), |i: int| v[i]@)
}

/// A map of vectors that holds `s`.
pub open spec fn holds(m: Map<u64, Vec<usize>>, s: Map<u64, Seq<usize>>) -> bool {
    &&& m.dom() == s.dom()
    &&& forall|k: u64| #[trigger] m.contains_key(k) ==> m[k]@ == s[k]
}

/// Every entry of every bucket is below `ci`.
pub open spec fn all_below(m: Map<u64, Seq<usize>>, ci: int) -> bool {
    forall|k: u64, j: int| m.contains_key(k) && 0 <= j < m[k].len() ==> #[trigger] m[k][j] < ci
}

proof fn lemma_voice_before_le(ls: Seq<SpecLine>, n: int)
    ensures
        n >= 0 ==> voice_before(ls, n) <= n,
    decreases n,
{
    if n > 0 {
        lemma_voice_before_le(ls, n - 1);
    }
}

proof fn lemma_placement_below(ls: Seq<SpecLine>, cs: Seq<Seq<u64>>, n: int)
    requires
        0 <= n <= usize::MAX,
    ensures
        all_below(spec_placement(ls, cs, n), voice_before(ls, n) as int),
    decreases n,
{
    if n > 0 {
        lemma_placement_below(ls, cs, n - 1);
        lemma_voice_before_le(ls, n - 1);
        let prev = spec_placement(ls, cs, n - 1);
        let i = n - 1;
        if is_voice_cmd(cmd_at(ls, i)) {
            let ci = voice_before(ls, i) as usize;
            assert(ci as int == voice_before(ls, i));
            let m = spec_placement(ls, cs, n);
            assert forall|k: u64, j: int| m.contains_key(k) && 0 <= j < m[k].len() implies #[trigger] m[k][j] < voice_before(ls, n) by {
                if placement_keys(ls, cs, i).contains(k) {
                    if j < bucket(prev, k).len() {
                        assert(prev.contains_key(k));
                        assert(m[k][j] == prev[k][j]);
                    }
                } else {
                    assert(m[k] == prev[k]);
                }
            }
        }
    }
}

/// Where a system's channels live: its `AreaState` ids, and its buckets — per
/// county id (0: no county) the voice-channel indices placed there — in
/// ascending county order, as [`place_channels`] gives them.
pub struct SystemPlacement {
    pub states: Vec<u64>,
    pub by_county: Vec<(u64, Vec<usize>)>,
}

/// Append channel `ci` to bucket `k`, unless it already ends with it.
fn add_to_bucket(map: &mut BTreeMap<u64, Vec<usize>>, k: u64, ci: usize)
    ensures
        final(map)@.dom() == old(map)@.dom().insert(k),
        forall|j: u64| j != k && #[trigger] old(map)@.contains_key(j) ==> final(map)@[j] == old(map)@[j],
        final(map)@[k]@ == if old(map)@.contains_key(k) && old(map)@[k]@.len() > 0
            && old(map)@[k]@.last() == ci {
            old(map)@[k]@
        } else if old(map)@.contains_key(k) {
            old(map)@[k]@.push(ci)
        } else {
            seq![ci]
        },
{
    broadcast use vstd::laws_cmp::group_laws_cmp;
    match map.remove(&k) {
        Some(mut v) => {
            let n = v.len();
            if n == 0 || v[n - 1] != ci {
                v.push(ci);
            }
            map.insert(k, v);
        },
        None => {
            let mut v: Vec<usize> = Vec::new();
            v.push(ci);
            map.insert(k, v);
        },
    }
}

/// Append channel `ci` to the bucket of each county of `list`.
fn add_all(map: &mut BTreeMap<u64, Vec<usize>>, list: &Vec<u64>, ci: usize, Ghost(prev): Ghost<Map<u64, Seq<usize>>>)
    requires
        holds(old(map)@, prev),
        all_below(prev, ci as int),
    ensures
        holds(final(map)@, with_channel(prev, list@.to_set(), ci)),
{
    let mut j: usize = 0;
    assert(list@.take(0).to_set() =~= Set::<u64>::empty());
    assert(with_channel(prev, list@.take(0).to_set(), ci) =~= prev);
    while j < list.len()
        invariant
            j <= list@.len(),
            all_below(prev, ci as int),
            holds(map@, with_channel(prev, list@.take(j as int).to_set(), ci)),
        decreases list@.len() - j,
    {
        let k = list[j];
        let ghost before = map@;
        let ghost s0 = list@.take(j as int).to_set();
        let ghost s1 = list@.take(j + 1).to_set();
        assert(s1 =~= s0.insert(k)) by {
            let t0 = list@.take(j as int);
            let t1 = list@.take(j + 1);
            assert forall|x: u64| s1.contains(x) <==> s0.contains(x) || x == k by {
                if s1.contains(x) {
                    let m = choose|m: int| 0 <= m < t1.len() && #[trigger] t1[m] == x;
                    if m < j {
                        assert(t0[m] == x);
                    }
                }
                if s0.contains(x) {
                    let m = choose|m: int| 0 <= m < t0.len() && #[trigger] t0[m] == x;
                    assert(t1[m] == x);
                }
                if x == k {
                    assert(t1[j as int] == x);
                }
            }
        }
        add_to_bucket(map, k, ci);
        let ghost w0 = with_channel(prev, s0, ci);
        let ghost w1 = with_channel(prev, s1, ci);
        assert(holds(map@, w1)) by {
            assert(map@.dom() =~= w1.dom());
            assert forall|x: u64| #[trigger] map@.contains_key(x) implies map@[x]@ == w1[x] by {
                if x == k {
                    if s0.contains(k) {
                        assert(before[k]@ == bucket(prev, k).push(ci));
                    } else if prev.contains_key(k) {
                        assert(before[k]@ == prev[k]);
                        if prev[k].len() > 0 {
                            assert(prev[k][prev[k].len() - 1] < ci);
                        }
                    } else {
                        assert(!before.contains_key(k));
                    }
                } else {
                    assert(before.contains_key(x));
                }
            }
        }
        j += 1;
    }
    assert(list@.take(list@.len() as int) =~= list@);
}

/// Place a system's voice channels into the counties their groups cover:
/// `group_counties[g]` is the county list of the group (`C-Group`/`T-Group`) on
/// line `g` of `sys_lines` (missing or empty: no county). Each voice channel goes,
/// by its voice-channel index, into the bucket of every county of the group above
/// it, or into bucket `0` when there is none.
pub fn place_channels(sys_lines: &[Line], group_counties: &[Vec<u64>]) -> (r: BTreeMap<u64, Vec<usize>>)
    ensures
        holds(r@, spec_placement(lines_view(sys_lines@), lists_view(group_counties@), sys_lines@.len() as int)),
{
    let ghost ls = lines_view(sys_lines@);
    let ghost cs = lists_view(group_counties@);
    let mut map: BTreeMap<u64, Vec<usize>> = BTreeMap::new();
    let mut current: Option<usize> = None;
    let mut ci: usize = 0;
    let mut i: usize = 0;
    let mut zero: Vec<u64> = Vec::new();
    zero.push(0);
    assert(zero@.to_set() =~= set![0u64]) by {
        assert(zero@[0] == 0u64);
    }
    assert(holds(map@, spec_placement(ls, cs, 0))) by {
        assert(spec_placement(ls, cs, 0) =~= Map::<u64, Seq<usize>>::empty());
        assert(map@.dom() =~= spec_placement(ls, cs, 0).dom());
    }
    while i < sys_lines.len()
        invariant
            i <= sys_lines@.len(),
            ls == lines_view(sys_lines@),
            cs == lists_view(group_counties@),
            zero@.to_set() == set![0u64],
            ci as int == voice_before(ls, i as int),
            ci <= i,
            match current {
                Some(g) => last_group(ls, i as int) == Some(g as int) && g < i,
                None => last_group(ls, i as int) is None,
            },
            holds(map@, spec_placement(ls, cs, i as int)),
        decreases sys_lines@.len() - i,
    {
        proof { crate::extract::lemma_cmd_classes_pub(); }
        let cmd = sys_lines[i].command();
        assert(cmd@ == cmd_at(ls, i as int));
        if crate::extract::is_group_command(cmd) {
            current = Some(i);
        } else if is_voice_channel(cmd) {
            let ghost prev = spec_placement(ls, cs, i as int);
            proof {
                lemma_placement_below(ls, cs, i as int);
            }
            let mut placed = false;
            match current {
                Some(g) => {
                    if g < group_counties.len() && group_counties[g].len() > 0 {
                        assert(counties_at(cs, g as int) == group_counties@[g as int]@);
                        add_all(&mut map, &group_counties[g], ci, Ghost(prev));
                        placed = true;
                    }
                },
                None => {},
            }
            if !placed {
                add_all(&mut map, &zero, ci, Ghost(prev));
            }
            assert(spec_placement(ls, cs, i + 1) == with_channel(prev, placement_keys(ls, cs, i as int), ci));
            ci += 1;
        }
        i += 1;
    }
    map
}

/// Line `i` sits under a department (the group above it) marked in `marks`
/// (indexed by line; a missing entry is unmarked).
pub open spec fn under_marked(ls: Seq<SpecLine>, marks: Seq<bool>, i: int) -> bool {
    match last_group(ls, i) {
        Some(g) => 0 <= g < marks.len() && marks[g],
        None => false,
    }
}

/// The voice-channel indices, over the first `n` lines, of the channels under a
/// marked department.
pub open spec fn marked_channels(ls: Seq<SpecLine>, marks: Seq<bool>, n: int) -> Set<usize>
    decreases n,
{
    if n <= 0 {
        Set::empty()
    } else {
        let prev = marked_channels(ls, marks, n - 1);
        if is_voice_cmd(cmd_at(ls, n - 1)) && under_marked(ls, marks, n - 1) {
            prev.insert(voice_before(ls, n - 1) as usize)
        } else {
            prev
        }
    }
}

fn insert_index(s: &mut BTreeSet<usize>, x: usize)
    ensures
        final(s)@ == old(s)@.insert(x),
{
    broadcast use vstd::laws_cmp::group_laws_cmp;
    s.insert(x);
}

/// The voice channels (by voice-channel index) of a system whose department —
/// the group above them — is marked: `marks[g]` marks the group on line `g`
/// (a missing entry is unmarked; channels above every group are never picked).
pub fn department_channels(sys_lines: &[Line], marks: &[bool]) -> (r: BTreeSet<usize>)
    ensures
        r@ == marked_channels(lines_view(sys_lines@), marks@, sys_lines@.len() as int),
{
    let ghost ls = lines_view(sys_lines@);
    let mut out: BTreeSet<usize> = BTreeSet::new();
    let mut current: Option<usize> = None;
    let mut ci: usize = 0;
    let mut i: usize = 0;
    assert(out@ =~= marked_channels(ls, marks@, 0));
    while i < sys_lines.len()
        invariant
            i <= sys_lines@.len(),
            ls == lines_view(sys_lines@),
            ci as int == voice_before(ls, i as int),
            ci <= i,
            match current {
                Some(g) => last_group(ls, i as int) == Some(g as int) && g < i,
                None => last_group(ls, i as int) is None,
            },
            out@ == marked_channels(ls, marks@, i as int),
        decreases sys_lines@.len() - i,
    {
        proof { crate::extract::lemma_cmd_classes_pub(); }
        let cmd = sys_lines[i].command();
        assert(cmd@ == cmd_at(ls, i as int));
        if crate::extract::is_group_command(cmd) {
            current = Some(i);
        } else if is_voice_channel(cmd) {
            let marked = match current {
                Some(g) => g < marks.len() && marks[g],
                None => false,
            };
            if marked {
                insert_index(&mut out, ci);
            }
            ci += 1;
        }
        i += 1;
    }
    out
}

// ---------------------------------------------------------------------------
// Library ids.
// ---------------------------------------------------------------------------

/// The library id of channel `ci` of system `si` of document `di`: the
/// document's prefix before the channel's id within its document.
pub open spec fn library_channel_id(di: nat, si: nat, ci: nat) -> Seq<char> {
    "d"@ + decimal(di) + channel_id(si, ci)
}

/// A library channel id reads back as the document, system and channel it was
/// made from.
pub proof fn lemma_library_id_read_back(di: usize, si: usize, ci: usize)
    ensures
        spec_channel_id(library_channel_id(di as nat, si as nat, ci as nat)) == Some((di, si, ci)),
{
    reveal_strlit("d");
    reveal_strlit("s");
    reveal_strlit("c");
    lemma_decimal_parses(di);
    lemma_decimal_parses(si);
    lemma_decimal_parses(ci);
    let dd = decimal(di as nat);
    let ds = decimal(si as nat);
    let dc = decimal(ci as nat);
    assert forall|i: int| 0 <= i < dd.len() implies dd[i] != 's' by {
        assert(is_digit(dd[i]));
    }
    assert forall|i: int| 0 <= i < ds.len() implies ds[i] != 'c' by {
        assert(is_digit(ds[i]));
    }
    let rest2 = ds + seq!['c'] + dc;
    let id = library_channel_id(di as nat, si as nat, ci as nat);
    assert(id =~= seq!['d'] + (dd + seq!['s'] + rest2));
    assert(strip_char(id, 'd') == Some(dd + seq!['s'] + rest2)) by {
        assert(id.drop_first() =~= dd + seq!['s'] + rest2);
    }
    lemma_split_at_first(dd, 's', rest2);
    lemma_split_at_first(ds, 'c', dc);
}

} // verus!
