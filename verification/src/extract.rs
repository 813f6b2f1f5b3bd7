//! Extraction engine: segment a full HPDB file (`s_*.hpd`) into systems and
//! select an arbitrary subset of them.
//!
//! A **system** is a `Conventional` or `Trunk` line plus everything under it (its
//! `AreaState`/`AreaCounty` tags and its child Group/Freq/Site/TGID records) up to
//! the next system.
//!
//! The core API is generic: [`Extraction::select`] takes *any* predicate over a
//! [`System`], and a `System` exposes the metadata a caller needs to build one —
//! [`System::county_ids`], [`System::state_ids`], [`System::name`],
//! [`System::kind`]. Which filters exist is a **UI** concern composed from these
//! primitives; [`by_county`] is just a thin convenience wrapper.
//!
//! Output stays in the **full HPDB dialect** — selection only ever *keeps* existing
//! lines, it never synthesizes, so the result round-trips byte-for-byte.

use vstd::prelude::*;
use std::collections::{BTreeMap, BTreeSet};
use crate::device::SdCardProfile;
use crate::format::{Document, Line, SpecLine, lines_view, push_lines, spec_command, spec_field};
use crate::model::{self, RecordKind, col_field, keyed_of, nonempty_of, opt_str_view, spec_record_kind};
use crate::text::{contains_sub, str_contains, str_eq};

verus! {

// ---------------------------------------------------------------------------
// Segmentation.
// ---------------------------------------------------------------------------

/// A line that starts a system: `Conventional` or `Trunk`.
pub open spec fn is_start(l: SpecLine) -> bool {
    spec_command(l.fields) == "Conventional"@ || spec_command(l.fields) == "Trunk"@
}

/// The indices of the system-start lines, in order.
pub open spec fn starts(ls: Seq<SpecLine>) -> Seq<int>
    decreases ls.len(),
{
    if ls.len() == 0 {
        Seq::empty()
    } else {
        let prev = starts(ls.drop_last());
        if is_start(ls.last()) {
            prev.push(ls.len() - 1)
        } else {
            prev
        }
    }
}

/// The line range `[start, end)` of each system: from its start line to the next
/// start (or the end of the file).
pub open spec fn spec_ranges(ls: Seq<SpecLine>) -> Seq<(int, int)> {
    let st = starts(ls);
    Seq::new(
        st.len(),
        |k: int| (st[k], if k + 1 < st.len() { st[k + 1] } else { ls.len() as int }),
    )
}

/// Where the header preamble ends: at the first system, or the end of the file.
pub open spec fn preamble_end(ls: Seq<SpecLine>) -> int {
    if starts(ls).len() > 0 {
        starts(ls)[0]
    } else {
        ls.len() as int
    }
}

/// The lines of each system.
pub open spec fn system_views(ls: Seq<SpecLine>) -> Seq<Seq<SpecLine>> {
    let r = spec_ranges(ls);
    Seq::new(r.len(), |k: int| ls.subrange(r[k].0, r[k].1))
}

/// Concatenate a list of line runs.
pub open spec fn flatten(ss: Seq<Seq<SpecLine>>) -> Seq<SpecLine>
    decreases ss.len(),
{
    if ss.len() == 0 {
        Seq::empty()
    } else {
        flatten(ss.drop_last()) + ss.last()
    }
}

/// Concatenate the runs whose flag is set.
pub open spec fn flatten_kept(ss: Seq<Seq<SpecLine>>, keep: Seq<bool>) -> Seq<SpecLine>
    decreases ss.len(),
{
    if ss.len() == 0 || keep.len() != ss.len() {
        Seq::empty()
    } else {
        let prev = flatten_kept(ss.drop_last(), keep.drop_last());
        if keep.last() {
            prev + ss.last()
        } else {
            prev
        }
    }
}

pub proof fn lemma_starts_props(ls: Seq<SpecLine>)
    ensures
        forall|k: int| 0 <= k < starts(ls).len() ==> 0 <= #[trigger] starts(ls)[k] < ls.len(),
        forall|k: int| 0 <= k < starts(ls).len() ==> is_start(ls[#[trigger] starts(ls)[k]]),
        forall|k: int, m: int| 0 <= k < m < starts(ls).len() ==> #[trigger] starts(ls)[k] < #[trigger] starts(ls)[m],
        forall|j: int| 0 <= j < ls.len() && is_start(#[trigger] ls[j]) ==> starts(ls).contains(j),
    decreases ls.len(),
{
    if ls.len() > 0 {
        let p = ls.drop_last();
        lemma_starts_props(p);
        assert forall|j: int| 0 <= j < ls.len() && is_start(#[trigger] ls[j]) implies starts(ls).contains(j) by {
            if j < ls.len() - 1 {
                assert(p[j] == ls[j]);
                assert(starts(p).contains(j));
                let k = choose|k: int| 0 <= k < starts(p).len() && starts(p)[k] == j;
                assert(starts(ls)[k] == j);
            } else {
                assert(starts(ls)[starts(ls).len() - 1] == j);
            }
        }
    }
}

/// There are as many systems as `Conventional` / `Trunk` lines.
pub proof fn lemma_system_count(ls: Seq<SpecLine>)
    ensures
        system_views(ls).len() == ls.filter(|l: SpecLine| is_start(l)).len(),
    decreases ls.len(),
{
    reveal(Seq::filter);
    if ls.len() > 0 {
        lemma_system_count(ls.drop_last());
    }
}

/// A system-start lines decomposition: the preamble and the systems, laid end to
/// end, give back the whole document.
pub proof fn lemma_segments_partition(ls: Seq<SpecLine>)
    ensures
        ls.take(preamble_end(ls)) + flatten(system_views(ls)) == ls,
        forall|k: int| 0 <= k < system_views(ls).len() ==> (#[trigger] system_views(ls)[k]).len() > 0
            && is_start(system_views(ls)[k][0]),
        forall|k: int, j: int| 0 <= k < system_views(ls).len() && 0 < j < system_views(ls)[k].len()
            ==> !is_start(#[trigger] system_views(ls)[k][j]),
        forall|j: int| 0 <= j < preamble_end(ls) ==> !is_start(#[trigger] ls[j]),
{
    lemma_starts_props(ls);
    let st = starts(ls);
    let sv = system_views(ls);
    let n = st.len();
    // The first `k` systems cover `[preamble_end, end of system k-1)`.
    assert forall|k: int| 0 <= k <= n implies #[trigger] flatten(sv.take(k)) == ls.subrange(
        preamble_end(ls),
        if k == 0 { preamble_end(ls) } else if k < n { st[k] } else { ls.len() as int },
    ) by {
        lemma_flatten_prefix(ls, k);
    }
    assert(sv.take(n as int) =~= sv);
    assert(ls.take(preamble_end(ls)) + ls.subrange(preamble_end(ls), ls.len() as int) =~= ls);
    assert forall|k: int, j: int| 0 <= k < sv.len() && 0 < j < sv[k].len() implies !is_start(#[trigger] sv[k][j]) by {
        let idx = st[k] + j;
        assert(sv[k][j] == ls[idx]);
        if is_start(ls[idx]) {
            let m = choose|m: int| 0 <= m < st.len() && st[m] == idx;
            if m <= k {
                assert(st[m] <= st[k]);
            } else {
                assert(st[k + 1] <= st[m]);
            }
        }
    }
    assert forall|j: int| 0 <= j < preamble_end(ls) implies !is_start(#[trigger] ls[j]) by {
        if is_start(ls[j]) {
            let m = choose|m: int| 0 <= m < st.len() && st[m] == j;
            assert(st[0] <= st[m]);
        }
    }
}

proof fn lemma_flatten_prefix(ls: Seq<SpecLine>, k: int)
    requires
        0 <= k <= starts(ls).len(),
    ensures
        flatten(system_views(ls).take(k)) == ls.subrange(
            preamble_end(ls),
            if k == 0 {
                preamble_end(ls)
            } else if k < starts(ls).len() {
                starts(ls)[k]
            } else {
                ls.len() as int
            },
        ),
    decreases k,
{
    lemma_starts_props(ls);
    let st = starts(ls);
    let sv = system_views(ls);
    if k == 0 {
        assert(sv.take(0) =~= Seq::<Seq<SpecLine>>::empty());
        assert(ls.subrange(preamble_end(ls), preamble_end(ls)) =~= Seq::<SpecLine>::empty());
    } else {
        lemma_flatten_prefix(ls, k - 1);
        assert(sv.take(k).drop_last() =~= sv.take(k - 1));
        let lo = if k - 1 == 0 { preamble_end(ls) } else { st[k - 1] };
        if k - 1 > 0 {
            assert(st[0] < st[k - 1]);
        }
        let hi = if k < st.len() { st[k] } else { ls.len() as int };
        assert(sv.take(k).last() == ls.subrange(st[k - 1], hi));
        assert(ls.subrange(preamble_end(ls), lo) + ls.subrange(st[k - 1], hi) =~= ls.subrange(
            preamble_end(ls),
            hi,
        ));
    }
}

proof fn lemma_flatten_kept_all(ss: Seq<Seq<SpecLine>>, keep: Seq<bool>)
    requires
        keep.len() == ss.len(),
        forall|i: int| 0 <= i < keep.len() ==> #[trigger] keep[i],
    ensures
        flatten_kept(ss, keep) == flatten(ss),
    decreases ss.len(),
{
    if ss.len() > 0 {
        let kd = keep.drop_last();
        assert forall|i: int| 0 <= i < kd.len() implies #[trigger] kd[i] by {
            assert(kd[i] == keep[i]);
        }
        lemma_flatten_kept_all(ss.drop_last(), kd);
        assert(keep[keep.len() - 1]);
    }
}

/// Keeping every system gives the document back: a selection that keeps them
/// all is the identity.
pub proof fn lemma_select_all(ls: Seq<SpecLine>, keep: Seq<bool>)
    requires
        keep.len() == system_views(ls).len(),
        forall|k: int| 0 <= k < keep.len() ==> #[trigger] keep[k],
    ensures
        ls.take(preamble_end(ls)) + flatten_kept(system_views(ls), keep) == ls,
{
    lemma_segments_partition(ls);
    lemma_flatten_kept_all(system_views(ls), keep);
}

proof fn lemma_flatten_kept_none(ss: Seq<Seq<SpecLine>>, keep: Seq<bool>)
    requires
        keep.len() == ss.len(),
        forall|i: int| 0 <= i < keep.len() ==> !#[trigger] keep[i],
    ensures
        flatten_kept(ss, keep) == Seq::<SpecLine>::empty(),
    decreases ss.len(),
{
    if ss.len() > 0 {
        let kd = keep.drop_last();
        assert forall|i: int| 0 <= i < kd.len() implies !#[trigger] kd[i] by {
            assert(kd[i] == keep[i]);
        }
        lemma_flatten_kept_none(ss.drop_last(), kd);
        assert(!keep[keep.len() - 1]);
    }
}

/// Keeping no system leaves just the preamble.
pub proof fn lemma_select_none(ls: Seq<SpecLine>, keep: Seq<bool>)
    requires
        keep.len() == system_views(ls).len(),
        forall|k: int| 0 <= k < keep.len() ==> !#[trigger] keep[k],
    ensures
        ls.take(preamble_end(ls)) + flatten_kept(system_views(ls), keep) == ls.take(preamble_end(ls)),
{
    lemma_flatten_kept_none(system_views(ls), keep);
    assert(ls.take(preamble_end(ls)) + Seq::<SpecLine>::empty() =~= ls.take(preamble_end(ls)));
}

// ---------------------------------------------------------------------------
// Systems.
// ---------------------------------------------------------------------------

/// The ids tagged by the area records with command `c` (field 2 of each).
pub open spec fn area_ids(ls: Seq<SpecLine>, c: Seq<char>) -> Set<u64>
    decreases ls.len(),
{
    if ls.len() == 0 {
        Set::empty()
    } else {
        let prev = area_ids(ls.drop_last(), c);
        if spec_command(ls.last().fields) == c {
            match keyed_of(spec_field(ls.last().fields, 2)) {
                Some(id) => prev.insert(id),
                None => prev,
            }
        } else {
            prev
        }
    }
}

/// A contiguous run of lines making up one system (its header line first).
pub struct System<'a, P: SdCardProfile + ?Sized> {
    doc: &'a Document,
    start: usize,
    end: usize,
    profile: &'a P,
}

impl<'a, P: SdCardProfile + ?Sized> System<'a, P> {
    #[verifier::type_invariant]
    spec fn inv(self) -> bool {
        self.start < self.end <= self.doc.lines@.len()
    }

    /// The profile the system is read under.
    pub closed spec fn spec_profile(&self) -> &'a P {
        self.profile
    }
}

impl<'a, P: SdCardProfile + ?Sized> View for System<'a, P> {
    type V = Seq<SpecLine>;

    closed spec fn view(&self) -> Seq<SpecLine> {
        self.doc@.subrange(self.start as int, self.end as int)
    }
}

impl<'a, P: SdCardProfile + ?Sized> System<'a, P> {
    /// All lines in the system, header first.
    pub fn lines(&self) -> (r: &'a [Line])
        ensures
            lines_view(r@) == self@,
            self@.len() > 0,
    {
        proof { use_type_invariant(self); }
        let r = vstd::slice::slice_subrange(self.doc.lines.as_slice(), self.start, self.end);
        assert(lines_view(r@) =~= self@);
        r
    }

    /// The `Conventional` / `Trunk` line that starts the system.
    pub fn header(&self) -> (r: &'a Line)
        ensures
            self@.len() > 0,
            r@ == self@[0],
    {
        proof { use_type_invariant(self); }
        &self.doc.lines[self.start]
    }

    pub fn kind(&self) -> (r: RecordKind)
        ensures
            self@.len() > 0,
            r == spec_record_kind(spec_command(self@[0].fields)),
    {
        RecordKind::from_command(self.header().command())
    }

    /// System technology (`P25Standard`, `MotoTrbo`, `Conventional`, …), if known.
    pub fn tech(&self) -> (r: Option<&'a str>)
        ensures
            self@.len() > 0,
            opt_str_view(r) == match self.spec_profile().spec_record_schema(spec_command(self@[0].fields)) {
                Some(s) => nonempty_of(col_field(self@[0], s.tech_col)),
                None => None,
            },
    {
        match model::Record::new(self.header(), self.profile) {
            Some(rec) => rec.tech(),
            None => None,
        }
    }

    /// True if this is a P25 trunked system (the band-plan-bearing kind).
    pub fn is_p25(&self) -> (r: bool)
        ensures
            self@.len() > 0,
            r == match self.spec_profile().spec_record_schema(spec_command(self@[0].fields)) {
                Some(s) => match nonempty_of(col_field(self@[0], s.tech_col)) {
                    Some(t) => contains_sub(t, "P25"@),
                    None => false,
                },
                None => false,
            },
    {
        match self.tech() {
            Some(t) => str_contains(t, "P25"),
            None => false,
        }
    }

    /// System name as shown in the scanner UI.
    pub fn name(&self) -> (r: Option<&'a str>)
        ensures
            self@.len() > 0,
            opt_str_view(r) == match self.spec_profile().spec_record_schema(spec_command(self@[0].fields)) {
                Some(s) => nonempty_of(col_field(self@[0], s.name_col)),
                None => None,
            },
    {
        match model::Record::new(self.header(), self.profile) {
            Some(rec) => rec.name(),
            None => None,
        }
    }

    /// The ids tagged by this system's area records with the given command.
    fn area_tags(&self, command: &str) -> (r: BTreeSet<u64>)
        ensures
            r@ == area_ids(self@, command@),
    {
        let lines = self.lines();
        let ghost v = self@;
        let mut out: BTreeSet<u64> = BTreeSet::new();
        let mut i: usize = 0;
        while i < lines.len()
            invariant
                i <= lines@.len(),
                v == lines_view(lines@),
                out@ == area_ids(v.take(i as int), command@),
            decreases lines@.len() - i,
        {
            let l = &lines[i];
            proof {
                assert(v.take(i + 1).drop_last() =~= v.take(i as int));
                assert(v.take(i + 1).last() == l@);
            }
            if l.is_command(command) {
                match l.field(2) {
                    Some(f) => match model::keyed_id(f) {
                        Some(id) => {
                            out.insert(id);
                        },
                        None => {},
                    },
                    None => {},
                }
            }
            i += 1;
        }
        assert(v.take(lines@.len() as int) =~= v);
        out
    }

    /// County ids this system is tagged with (`AreaCounty`). A statewide /
    /// multi-county system carries many — which is why it's correctly pulled in
    /// for any of its counties.
    ///
    /// `AreaCounty` is `[owner-id, county-tag]`: field 1 is the system's *own* id
    /// (e.g. `AgencyId=…`), field 2 is the actual county.
    pub fn county_ids(&self) -> (r: BTreeSet<u64>)
        ensures
            r@ == area_ids(self@, "AreaCounty"@),
    {
        self.area_tags("AreaCounty")
    }

    /// State ids this system is tagged with (`AreaState` field 2). Lets the UI
    /// filter by state as readily as by county.
    pub fn state_ids(&self) -> (r: BTreeSet<u64>)
        ensures
            r@ == area_ids(self@, "AreaState"@),
    {
        self.area_tags("AreaState")
    }

    pub fn is_in_county(&self, county_id: u64) -> (r: bool)
        ensures
            r == area_ids(self@, "AreaCounty"@).contains(county_id),
    {
        self.county_ids().contains(&county_id)
    }

    pub fn is_in_state(&self, state_id: u64) -> (r: bool)
        ensures
            r == area_ids(self@, "AreaState"@).contains(state_id),
    {
        self.state_ids().contains(&state_id)
    }
}

// ---------------------------------------------------------------------------
// The segmented document.
// ---------------------------------------------------------------------------

/// The stored ranges are the document's system ranges, each a non-empty run of
/// lines.
pub open spec fn ranges_match(ranges: Seq<(usize, usize)>, ls: Seq<SpecLine>) -> bool {
    &&& ranges.len() == spec_ranges(ls).len()
    &&& forall|k: int| 0 <= k < ranges.len() ==> (#[trigger] ranges[k]).0 as int == spec_ranges(ls)[k].0
        && ranges[k].1 as int == spec_ranges(ls)[k].1 && ranges[k].0 < ranges[k].1 <= ls.len()
}

/// The indices of the system-start lines of a document, in order.
pub fn system_starts(doc: &Document) -> (st: Vec<usize>)
    ensures
        st@.len() == starts(doc@).len(),
        forall|k: int| 0 <= k < st@.len() ==> #[trigger] st@[k] as int == starts(doc@)[k],
{
    let ghost ls = doc@;
    let mut st: Vec<usize> = Vec::new();
    let mut i: usize = 0;
    while i < doc.lines.len()
        invariant
            i <= doc.lines@.len(),
            ls == doc@,
            st@.len() == starts(ls.take(i as int)).len(),
            forall|k: int| 0 <= k < st@.len() ==> #[trigger] st@[k] as int == starts(ls.take(i as int))[k],
        decreases doc.lines@.len() - i,
    {
        let l = &doc.lines[i];
        proof {
            assert(ls.take(i + 1).drop_last() =~= ls.take(i as int));
            assert(ls.take(i + 1).last() == l@);
        }
        if l.is_command("Conventional") || l.is_command("Trunk") {
            st.push(i);
        }
        i += 1;
    }
    assert(ls.take(doc.lines@.len() as int) =~= ls);
    st
}

/// A segmented HPDB document: the header preamble plus its systems.
pub struct Extraction<'a, P: SdCardProfile + ?Sized> {
    doc: &'a Document,
    profile: &'a P,
    /// Header lines before the first system end here (`TargetModel`, …).
    preamble: usize,
    /// Line range of each system.
    ranges: Vec<(usize, usize)>,
}

impl<'a, P: SdCardProfile + ?Sized> Extraction<'a, P> {
    #[verifier::type_invariant]
    spec fn inv(self) -> bool {
        &&& self.preamble as int == preamble_end(self.doc@)
        &&& self.preamble <= self.doc.lines@.len()
        &&& ranges_match(self.ranges@, self.doc@)
    }

    /// The document segmented.
    pub closed spec fn spec_doc(&self) -> Seq<SpecLine> {
        self.doc@
    }

    /// The profile it is read under.
    pub closed spec fn spec_profile(&self) -> &'a P {
        self.profile
    }

    /// System `k`.
    pub closed spec fn spec_system(&self, k: int) -> System<'a, P> {
        System {
            doc: self.doc,
            start: self.ranges@[k].0,
            end: self.ranges@[k].1,
            profile: self.profile,
        }
    }

    /// Segment a parsed HPDB document into systems.
    pub fn segment(doc: &'a Document, profile: &'a P) -> (r: Self)
        ensures
            r.spec_doc() == doc@,
            r.spec_profile() == profile,
    {
        let ghost ls = doc@;
        proof { lemma_starts_props(ls); }
        let st = system_starts(doc);
        let preamble = if st.len() > 0 {
            st[0]
        } else {
            doc.lines.len()
        };
        let ghost sr = spec_ranges(ls);
        let mut ranges: Vec<(usize, usize)> = Vec::new();
        let mut k: usize = 0;
        while k < st.len()
            invariant
                k <= st@.len(),
                ls == doc@,
                sr == spec_ranges(ls),
                st@.len() == starts(ls).len(),
                forall|m: int| 0 <= m < st@.len() ==> #[trigger] st@[m] as int == starts(ls)[m],
                ranges@.len() == k,
                forall|m: int| 0 <= m < k ==> #[trigger] ranges@[m].0 as int == sr[m].0
                    && ranges@[m].1 as int == sr[m].1,
            decreases st@.len() - k,
        {
            let end = if k + 1 < st.len() {
                st[k + 1]
            } else {
                doc.lines.len()
            };
            ranges.push((st[k], end));
            k += 1;
        }
        proof {
            assert forall|m: int| 0 <= m < sr.len() implies (#[trigger] ranges@[m]).0 < ranges@[m].1
                <= doc.lines@.len() by {
                assert(starts(ls)[m] < ls.len());
                if m + 1 < sr.len() {
                    assert(starts(ls)[m] < starts(ls)[m + 1]);
                }
            }
            assert(ranges_match(ranges@, ls));
        }
        Extraction { doc, profile, preamble, ranges }
    }

    /// Every system, in file order.
    pub fn systems(&self) -> (r: Vec<System<'a, P>>)
        ensures
            r@.len() == system_views(self.spec_doc()).len(),
            forall|k: int| 0 <= k < r@.len() ==> #[trigger] r@[k] == self.spec_system(k),
            forall|k: int| 0 <= k < r@.len() ==> (#[trigger] r@[k])@ == system_views(self.spec_doc())[k],
            forall|k: int| 0 <= k < r@.len() ==> (#[trigger] r@[k]).spec_profile() == self.spec_profile(),
            forall|k: int| 0 <= k < r@.len() ==> (#[trigger] r@[k])@.len() > 0,
    {
        proof { use_type_invariant(self); }
        let mut out: Vec<System<'a, P>> = Vec::new();
        let mut k: usize = 0;
        while k < self.ranges.len()
            invariant
                k <= self.ranges@.len(),
                ranges_match(self.ranges@, self.doc@),
                out@.len() == k,
                forall|m: int| 0 <= m < k ==> #[trigger] out@[m] == self.spec_system(m),
            decreases self.ranges@.len() - k,
        {
            let (start, end) = self.ranges[k];
            assert(start < end <= self.doc.lines@.len()) by {
                assert(self.ranges@[k as int].0 < self.ranges@[k as int].1);
            }
            out.push(System { doc: self.doc, start, end, profile: self.profile });
            k += 1;
        }
        proof {
            assert forall|m: int| 0 <= m < out@.len() implies (#[trigger] out@[m])@ == system_views(self.spec_doc())[m] by {
                assert(self.ranges@[m].0 < self.ranges@[m].1);
            }
            assert forall|m: int| 0 <= m < out@.len() implies (#[trigger] out@[m])@.len() > 0 by {
                assert(self.ranges@[m].0 < self.ranges@[m].1);
            }
        }
        out
    }

    pub fn system_count(&self) -> (r: usize)
        ensures
            r == system_views(self.spec_doc()).len(),
    {
        proof { use_type_invariant(self); }
        self.ranges.len()
    }

    pub fn preamble_lines(&self) -> (r: &'a [Line])
        ensures
            lines_view(r@) == self.spec_doc().take(preamble_end(self.spec_doc())),
    {
        proof { use_type_invariant(self); }
        let r = vstd::slice::slice_subrange(self.doc.lines.as_slice(), 0, self.preamble);
        assert(lines_view(r@) =~= self.doc@.take(self.preamble as int));
        r
    }

    /// Build a new full-dialect document from the preamble plus the systems that
    /// match `pred`. The result round-trips (it is a subset of real lines).
    pub fn select<F: Fn(&System<'a, P>) -> bool>(&self, pred: F) -> (r: Document)
        requires
            forall|k: int| 0 <= k < system_views(self.spec_doc()).len() ==> call_requires(
                pred,
                (&#[trigger] self.spec_system(k),),
            ),
        ensures
            exists|keep: Seq<bool>|
                {
                    &&& keep.len() == system_views(self.spec_doc()).len()
                    &&& forall|k: int| 0 <= k < keep.len() ==> call_ensures(
                        pred,
                        (&#[trigger] self.spec_system(k),),
                        keep[k],
                    )
                    &&& r@ == self.spec_doc().take(preamble_end(self.spec_doc())) + flatten_kept(
                        system_views(self.spec_doc()),
                        keep,
                    )
                },
            forall|k: int| 0 <= k < system_views(self.spec_doc()).len() ==> (#[trigger] self.spec_system(k))@
                == system_views(self.spec_doc())[k],
    {
        let mut lines: Vec<Line> = Vec::new();
        push_lines(self.preamble_lines(), &mut lines);
        let systems = self.systems();
        let ghost sv = system_views(self.spec_doc());
        assert forall|k: int| 0 <= k < sv.len() implies (#[trigger] self.spec_system(k))@ == sv[k] by {
            assert(systems@[k] == self.spec_system(k));
        }
        let ghost pre = self.spec_doc().take(preamble_end(self.spec_doc()));
        let ghost mut keep: Seq<bool> = Seq::empty();
        let mut k: usize = 0;
        while k < systems.len()
            invariant
                k <= systems@.len(),
                systems@.len() == sv.len(),
                sv == system_views(self.spec_doc()),
                forall|m: int| 0 <= m < systems@.len() ==> #[trigger] systems@[m] == self.spec_system(m),
                forall|m: int| 0 <= m < systems@.len() ==> (#[trigger] systems@[m])@ == sv[m],
                forall|m: int| 0 <= m < sv.len() ==> call_requires(pred, (&#[trigger] self.spec_system(m),)),
                keep.len() == k,
                forall|m: int| 0 <= m < k ==> call_ensures(pred, (&#[trigger] self.spec_system(m),), keep[m]),
                lines_view(lines@) == pre + flatten_kept(sv.take(k as int), keep),
            decreases systems@.len() - k,
        {
            let sys = &systems[k];
            let b = pred(sys);
            let ghost before = lines_view(lines@);
            if b {
                push_lines(sys.lines(), &mut lines);
            }
            proof {
                let nk = keep.push(b);
                assert(sv.take(k + 1).drop_last() =~= sv.take(k as int));
                assert(nk.drop_last() =~= keep);
                assert(sv.take(k + 1).last() == sv[k as int]);
                if b {
                    assert(pre + flatten_kept(sv.take(k + 1), nk) =~= pre + flatten_kept(
                        sv.take(k as int),
                        keep,
                    ) + sv[k as int]);
                }
                keep = nk;
            }
            k += 1;
        }
        assert(sv.take(systems@.len() as int) =~= sv);
        Document { lines }
    }

    /// Channel-level subset: keep only the named voice channels within the named
    /// systems. `keep` maps a **system index** (as enumerated by
    /// [`Self::systems`]) to the set of **voice-channel indices** to keep (index =
    /// order of voice channels — `TGID`/`C-Freq`, see [`is_voice_channel`] — within
    /// that system).
    ///
    /// Each kept channel's scaffolding is preserved: the system header + area tags,
    /// every `Site` with its control freqs and band plans, and the parent
    /// `T-Group`/`C-Group` (plus its `Rectangle` bounds) of any kept channel. A
    /// group with no kept child is dropped. Output stays full-dialect.
    pub fn subset_channels(&self, keep: &BTreeMap<usize, BTreeSet<usize>>) -> (r: Document)
        ensures
            r@ == self.spec_doc().take(preamble_end(self.spec_doc())) + subset_lines(
                system_views(self.spec_doc()),
                keep@,
            ),
    {
        let mut lines: Vec<Line> = Vec::new();
        push_lines(self.preamble_lines(), &mut lines);
        let mut rest = self.subset_system_lines(keep);
        let ghost a = lines_view(lines@);
        let ghost b = lines_view(rest@);
        lines.append(&mut rest);
        assert(lines_view(lines@) =~= a + b);
        Document { lines }
    }

    /// The pruned system lines only (no preamble) — lets a caller merge subsets
    /// from several source documents under one preamble.
    pub fn subset_system_lines(&self, keep: &BTreeMap<usize, BTreeSet<usize>>) -> (r: Vec<Line>)
        ensures
            lines_view(r@) == subset_lines(system_views(self.spec_doc()), keep@),
    {
        let systems = self.systems();
        let ghost sv = system_views(self.spec_doc());
        let mut out: Vec<Line> = Vec::new();
        let mut k: usize = 0;
        while k < systems.len()
            invariant
                k <= systems@.len(),
                systems@.len() == sv.len(),
                sv == system_views(self.spec_doc()),
                forall|m: int| 0 <= m < systems@.len() ==> (#[trigger] systems@[m])@ == sv[m],
                lines_view(out@) == subset_lines(sv.take(k as int), keep@),
            decreases systems@.len() - k,
        {
            proof {
                assert(sv.take(k + 1).drop_last() =~= sv.take(k as int));
                assert(sv.take(k + 1).last() == sv[k as int]);
            }
            match keep.get(&k) {
                Some(channels) => {
                    let sl = systems[k].lines();
                    push_system_subset(sl, channels, &mut out);
                },
                None => {},
            }
            k += 1;
        }
        assert(sv.take(systems@.len() as int) =~= sv);
        out
    }
}

// ---------------------------------------------------------------------------
// Channel-level pruning.
// ---------------------------------------------------------------------------

pub open spec fn is_voice_cmd(c: Seq<char>) -> bool {
    c == "TGID"@ || c == "C-Freq"@
}

pub open spec fn is_group_cmd(c: Seq<char>) -> bool {
    c == "T-Group"@ || c == "C-Group"@
}

/// True for the user-selectable **voice channels** — talkgroups (`TGID`) and
/// conventional frequencies (`C-Freq`). Excludes the control-channel `T-Freq`,
/// which is trunk scaffolding: it must NOT be counted as a channel by the catalog
/// or the selection cart.
pub fn is_voice_channel(command: &str) -> (r: bool)
    ensures
        r == is_voice_cmd(command@),
{
    str_eq(command, "TGID") || str_eq(command, "C-Freq")
}

pub(crate) fn is_group_command(command: &str) -> (r: bool)
    ensures
        r == is_group_cmd(command@),
{
    str_eq(command, "T-Group") || str_eq(command, "C-Group")
}

proof fn lemma_cmd_classes()
    ensures
        forall|c: Seq<char>| #[trigger] is_group_cmd(c) ==> !is_voice_cmd(c) && c != "Rectangle"@,
        forall|c: Seq<char>| #[trigger] is_voice_cmd(c) ==> c != "Rectangle"@,
{
    reveal_strlit("T-Group");
    reveal_strlit("C-Group");
    reveal_strlit("TGID");
    reveal_strlit("C-Freq");
    reveal_strlit("Rectangle");
    assert("T-Group"@.len() == 7);
    assert("C-Group"@.len() == 7);
    assert("TGID"@.len() == 4);
    assert("C-Freq"@.len() == 6);
    assert("Rectangle"@.len() == 9);
}

/// The department, voice-channel and `Rectangle` commands are distinct.
pub proof fn lemma_cmd_classes_pub()
    ensures
        forall|c: Seq<char>| #[trigger] is_group_cmd(c) ==> !is_voice_cmd(c) && c != "Rectangle"@,
        forall|c: Seq<char>| #[trigger] is_voice_cmd(c) ==> c != "Rectangle"@,
{
    lemma_cmd_classes();
}

pub open spec fn cmd_at(ls: Seq<SpecLine>, i: int) -> Seq<char> {
    spec_command(ls[i].fields)
}

/// The number of voice channels among the first `i` lines.
pub open spec fn voice_before(ls: Seq<SpecLine>, i: int) -> nat
    decreases i,
{
    if i <= 0 {
        0
    } else {
        voice_before(ls, i - 1) + if is_voice_cmd(cmd_at(ls, i - 1)) { 1nat } else { 0nat }
    }
}

/// The last group line before line `i` (scaffolding does not close it).
pub open spec fn last_group(ls: Seq<SpecLine>, i: int) -> Option<int>
    decreases i,
{
    if i <= 0 {
        None
    } else if is_group_cmd(cmd_at(ls, i - 1)) {
        Some(i - 1)
    } else {
        last_group(ls, i - 1)
    }
}

/// The group a line `i` sits in while emitting: the nearest group line above it,
/// unless scaffolding (anything but channels and `Rectangle`s) came between.
pub open spec fn open_group(ls: Seq<SpecLine>, i: int) -> Option<int>
    decreases i,
{
    if i <= 0 {
        None
    } else if is_group_cmd(cmd_at(ls, i - 1)) {
        Some(i - 1)
    } else if is_voice_cmd(cmd_at(ls, i - 1)) || cmd_at(ls, i - 1) == "Rectangle"@ {
        open_group(ls, i - 1)
    } else {
        None
    }
}

/// Line `i` is a voice channel whose index is kept.
pub open spec fn kept_channel(ls: Seq<SpecLine>, keep: Set<usize>, i: int) -> bool {
    !is_group_cmd(cmd_at(ls, i)) && is_voice_cmd(cmd_at(ls, i)) && keep.contains(
        voice_before(ls, i) as usize,
    )
}

/// Group line `g` has a kept channel among the first `i` lines.
pub open spec fn group_kept_upto(ls: Seq<SpecLine>, keep: Set<usize>, g: int, i: int) -> bool
    decreases i,
{
    if i <= 0 {
        false
    } else {
        group_kept_upto(ls, keep, g, i - 1) || (kept_channel(ls, keep, i - 1) && last_group(ls, i - 1)
            == Some(g))
    }
}

/// Whether line `i` survives the pruning.
pub open spec fn emit_line(ls: Seq<SpecLine>, keep: Set<usize>, i: int) -> bool {
    let c = cmd_at(ls, i);
    if is_group_cmd(c) {
        group_kept_upto(ls, keep, i, ls.len() as int)
    } else if is_voice_cmd(c) {
        kept_channel(ls, keep, i)
    } else if c == "Rectangle"@ {
        match open_group(ls, i) {
            Some(g) => group_kept_upto(ls, keep, g, ls.len() as int),
            None => false,
        }
    } else {
        true
    }
}

/// The surviving lines among the first `n`, in order.
pub open spec fn pruned(ls: Seq<SpecLine>, keep: Set<usize>, n: int) -> Seq<SpecLine>
    decreases n,
{
    if n <= 0 {
        Seq::empty()
    } else {
        let prev = pruned(ls, keep, n - 1);
        if emit_line(ls, keep, n - 1) {
            prev.push(ls[n - 1])
        } else {
            prev
        }
    }
}

/// The pruned lines of the systems named in `keep`, in system order.
pub open spec fn subset_lines(sv: Seq<Seq<SpecLine>>, keep: Map<usize, BTreeSet<usize>>) -> Seq<SpecLine>
    decreases sv.len(),
{
    if sv.len() == 0 {
        Seq::empty()
    } else {
        let prev = subset_lines(sv.drop_last(), keep);
        let k = (sv.len() - 1) as usize;
        if keep.contains_key(k) {
            prev + pruned(sv.last(), keep[k]@, sv.last().len() as int)
        } else {
            prev
        }
    }
}

/// A subset that names no system is empty.
pub proof fn lemma_subset_lines_none(sv: Seq<Seq<SpecLine>>)
    ensures
        subset_lines(sv, Map::<usize, BTreeSet<usize>>::empty()) == Seq::<SpecLine>::empty(),
    decreases sv.len(),
{
    if sv.len() > 0 {
        lemma_subset_lines_none(sv.drop_last());
    }
}

/// Only the keys naming an actual system matter: two channel maps that agree on
/// the systems' indices give the same subset (so keys past the last system
/// contribute nothing).
pub proof fn lemma_subset_lines_agree(
    sv: Seq<Seq<SpecLine>>,
    k1: Map<usize, BTreeSet<usize>>,
    k2: Map<usize, BTreeSet<usize>>,
)
    requires
        forall|k: int| 0 <= k < sv.len() ==> (#[trigger] k1.contains_key(k as usize) <==> k2.contains_key(k as usize)),
        forall|k: int| 0 <= k < sv.len() && #[trigger] k1.contains_key(k as usize) ==> k1[k as usize]@ == k2[k as usize]@,
    ensures
        subset_lines(sv, k1) == subset_lines(sv, k2),
    decreases sv.len(),
{
    if sv.len() > 0 {
        let last = sv.len() - 1;
        assert(k1.contains_key(last as usize) <==> k2.contains_key(last as usize));
        lemma_subset_lines_agree(sv.drop_last(), k1, k2);
    }
}

proof fn lemma_pruned_contains(ls: Seq<SpecLine>, keep: Set<usize>, n: int, i: int)
    requires
        0 <= i < n <= ls.len(),
        emit_line(ls, keep, i),
    ensures
        pruned(ls, keep, n).contains(ls[i]),
    decreases n,
{
    let prev = pruned(ls, keep, n - 1);
    if i == n - 1 {
        let cur = prev.push(ls[i]);
        assert(cur[prev.len() as int] == ls[i]);
    } else {
        lemma_pruned_contains(ls, keep, n - 1, i);
        if emit_line(ls, keep, n - 1) {
            let j = choose|j: int| 0 <= j < prev.len() && prev[j] == ls[i];
            assert(prev.push(ls[n - 1])[j] == ls[i]);
        }
    }
}

/// A system-start line is scaffolding: not a department, a voice channel or a
/// `Rectangle`.
pub proof fn lemma_start_is_scaffolding(l: SpecLine)
    requires
        is_start(l),
    ensures
        !is_group_cmd(spec_command(l.fields)),
        !is_voice_cmd(spec_command(l.fields)),
        spec_command(l.fields) != "Rectangle"@,
{
    reveal_strlit("Conventional");
    reveal_strlit("Trunk");
    reveal_strlit("T-Group");
    reveal_strlit("C-Group");
    reveal_strlit("TGID");
    reveal_strlit("C-Freq");
    reveal_strlit("Rectangle");
    assert("Conventional"@.len() == 12);
    assert("Trunk"@.len() == 5);
    assert("T-Group"@.len() == 7);
    assert("C-Group"@.len() == 7);
    assert("TGID"@.len() == 4);
    assert("C-Freq"@.len() == 6);
    assert("Rectangle"@.len() == 9);
}

/// A channel subset keeps the scaffolding of every system it names: each line
/// that is not a department, a voice channel or a `Rectangle` (the system header
/// among them) is in the result.
pub proof fn lemma_subset_keeps_scaffolding(
    sv: Seq<Seq<SpecLine>>,
    keep: Map<usize, BTreeSet<usize>>,
    k: int,
    i: int,
)
    requires
        0 <= k < sv.len(),
        keep.contains_key(k as usize),
        0 <= i < sv[k].len(),
        !is_group_cmd(cmd_at(sv[k], i)),
        !is_voice_cmd(cmd_at(sv[k], i)),
        cmd_at(sv[k], i) != "Rectangle"@,
    ensures
        subset_lines(sv, keep).contains(sv[k][i]),
    decreases sv.len(),
{
    let last = sv.len() - 1;
    let prev = subset_lines(sv.drop_last(), keep);
    if k == last {
        let pr = pruned(sv.last(), keep[last as usize]@, sv.last().len() as int);
        lemma_pruned_contains(sv.last(), keep[last as usize]@, sv.last().len() as int, i);
        let j = choose|j: int| 0 <= j < pr.len() && pr[j] == sv[k][i];
        assert((prev + pr)[prev.len() + j] == sv[k][i]);
    } else {
        assert(sv.drop_last()[k] == sv[k]);
        lemma_subset_keeps_scaffolding(sv.drop_last(), keep, k, i);
        let j = choose|j: int| 0 <= j < prev.len() && prev[j] == sv[k][i];
        if keep.contains_key(last as usize) {
            let pr = pruned(sv.last(), keep[last as usize]@, sv.last().len() as int);
            assert((prev + pr)[j] == sv[k][i]);
        }
    }
}

/// `a` is `b` with some elements left out, the rest in their order.
pub open spec fn is_subseq(a: Seq<SpecLine>, b: Seq<SpecLine>) -> bool
    decreases b.len(),
{
    if a.len() == 0 {
        true
    } else if b.len() == 0 {
        false
    } else if a.last() == b.last() {
        is_subseq(a.drop_last(), b.drop_last())
    } else {
        is_subseq(a, b.drop_last())
    }
}

proof fn lemma_subseq_drop_left(a: Seq<SpecLine>, b: Seq<SpecLine>)
    requires
        a.len() > 0,
        is_subseq(a, b),
    ensures
        is_subseq(a.drop_last(), b),
    decreases b.len(), 0int,
{
    if b.len() > 0 {
        if a.last() == b.last() {
            lemma_subseq_push_right(a.drop_last(), b.drop_last(), b.last());
        } else {
            lemma_subseq_drop_left(a, b.drop_last());
            lemma_subseq_push_right(a.drop_last(), b.drop_last(), b.last());
        }
        assert(b.drop_last().push(b.last()) =~= b);
    }
}

proof fn lemma_subseq_push_right(a: Seq<SpecLine>, b: Seq<SpecLine>, x: SpecLine)
    requires
        is_subseq(a, b),
    ensures
        is_subseq(a, b.push(x)),
    decreases b.len(), 1int,
{
    let bx = b.push(x);
    assert(bx.drop_last() =~= b);
    if a.len() > 0 && a.last() == x {
        lemma_subseq_drop_left(a, b);
    }
}

proof fn lemma_subseq_empty(b: Seq<SpecLine>)
    ensures
        is_subseq(Seq::<SpecLine>::empty(), b),
{
}

proof fn lemma_subseq_concat(a1: Seq<SpecLine>, b1: Seq<SpecLine>, a2: Seq<SpecLine>, b2: Seq<SpecLine>)
    requires
        is_subseq(a1, b1),
        is_subseq(a2, b2),
    ensures
        is_subseq(a1 + a2, b1 + b2),
    decreases b2.len(),
{
    if b2.len() == 0 {
        assert(a2.len() == 0);
        assert(a1 + a2 =~= a1);
        assert(b1 + b2 =~= b1);
    } else {
        let bb = b1 + b2;
        assert(bb.drop_last() =~= b1 + b2.drop_last());
        assert(bb.last() == b2.last());
        if a2.len() == 0 {
            lemma_subseq_concat(a1, b1, a2, b2.drop_last());
            assert(a1 + a2 =~= a1);
            assert(bb =~= (b1 + b2.drop_last()).push(b2.last()));
            lemma_subseq_push_right(a1 + a2, b1 + b2.drop_last(), b2.last());
        } else {
            let aa = a1 + a2;
            assert(aa.last() == a2.last());
            assert(aa.drop_last() =~= a1 + a2.drop_last());
            if a2.last() == b2.last() {
                lemma_subseq_concat(a1, b1, a2.drop_last(), b2.drop_last());
            } else {
                lemma_subseq_concat(a1, b1, a2, b2.drop_last());
            }
        }
    }
}

proof fn lemma_pruned_subseq(ls: Seq<SpecLine>, keep: Set<usize>, n: int)
    requires
        0 <= n <= ls.len(),
    ensures
        is_subseq(pruned(ls, keep, n), ls.take(n)),
    decreases n,
{
    if n > 0 {
        lemma_pruned_subseq(ls, keep, n - 1);
        let prev = pruned(ls, keep, n - 1);
        let b = ls.take(n);
        assert(b.drop_last() =~= ls.take(n - 1));
        assert(b.last() == ls[n - 1]);
        if emit_line(ls, keep, n - 1) {
            let a = prev.push(ls[n - 1]);
            assert(a.drop_last() =~= prev);
        } else {
            assert(ls.take(n - 1).push(ls[n - 1]) =~= b);
            lemma_subseq_push_right(prev, ls.take(n - 1), ls[n - 1]);
        }
    }
}

/// A channel subset keeps the systems' lines in order: its lines are the named
/// systems' lines with some left out, nothing added or reordered.
pub proof fn lemma_subset_lines_subsequence(sv: Seq<Seq<SpecLine>>, keep: Map<usize, BTreeSet<usize>>)
    ensures
        is_subseq(subset_lines(sv, keep), flatten(sv)),
    decreases sv.len(),
{
    if sv.len() > 0 {
        lemma_subset_lines_subsequence(sv.drop_last(), keep);
        let prev = subset_lines(sv.drop_last(), keep);
        let last = sv.last();
        let k = (sv.len() - 1) as usize;
        if keep.contains_key(k) {
            lemma_pruned_subseq(last, keep[k]@, last.len() as int);
            assert(last.take(last.len() as int) =~= last);
            lemma_subseq_concat(prev, flatten(sv.drop_last()), pruned(last, keep[k]@, last.len() as int), last);
        } else {
            lemma_subseq_empty(last);
            lemma_subseq_concat(prev, flatten(sv.drop_last()), Seq::<SpecLine>::empty(), last);
            assert(prev + Seq::<SpecLine>::empty() =~= prev);
        }
    }
}

/// Prune one system's lines to the kept voice channels plus the scaffolding they
/// need. `keep` is the set of voice-channel indices (within this system) to retain.
pub(crate) fn push_system_subset(sys_lines: &[Line], keep: &BTreeSet<usize>, out: &mut Vec<Line>)
    ensures
        lines_view(final(out)@) == lines_view(old(out)@) + pruned(
            lines_view(sys_lines@),
            keep@,
            sys_lines@.len() as int,
        ),
{
    let ghost ls = lines_view(sys_lines@);
    proof { lemma_cmd_classes(); }
    let n = sys_lines.len();
    let mut kept_ch: Vec<bool> = Vec::new();
    let mut group_keep: Vec<bool> = Vec::new();
    let mut k: usize = 0;
    while k < n
        invariant
            k <= n,
            n == sys_lines@.len(),
            kept_ch@.len() == k,
            group_keep@.len() == k,
            forall|m: int| 0 <= m < k ==> !(#[trigger] kept_ch@[m]),
            forall|m: int| 0 <= m < k ==> !(#[trigger] group_keep@[m]),
        decreases n - k,
    {
        kept_ch.push(false);
        group_keep.push(false);
        k += 1;
    }
    // Mark which channel lines are kept (by voice-channel index), and which groups
    // therefore must survive (a group with at least one kept child).
    let mut ci: usize = 0;
    let mut current_group: Option<usize> = None;
    let mut i: usize = 0;
    while i < n
        invariant
            i <= n,
            n == sys_lines@.len(),
            ls == lines_view(sys_lines@),
            kept_ch@.len() == n,
            group_keep@.len() == n,
            ci as int == voice_before(ls, i as int),
            ci <= i,
            match current_group {
                Some(g) => last_group(ls, i as int) == Some(g as int) && g < i,
                None => last_group(ls, i as int) is None,
            },
            forall|m: int| 0 <= m < i ==> #[trigger] kept_ch@[m] == kept_channel(ls, keep@, m),
            forall|m: int| i <= m < n ==> !(#[trigger] kept_ch@[m]),
            forall|g: int| 0 <= g < n ==> #[trigger] group_keep@[g] == group_kept_upto(ls, keep@, g, i as int),
        decreases n - i,
    {
        proof { lemma_cmd_classes(); }
        let cmd = sys_lines[i].command();
        assert(cmd@ == cmd_at(ls, i as int));
        let ghost gk_before = group_keep@;
        if is_group_command(cmd) {
            current_group = Some(i);
        } else if is_voice_channel(cmd) {
            if keep.contains(&ci) {
                kept_ch.set(i, true);
                match current_group {
                    Some(g) => {
                        group_keep.set(g, true);
                    },
                    None => {},
                }
            }
            ci += 1;
        }
        proof {
            assert(voice_before(ls, i + 1) == voice_before(ls, i as int) + if is_voice_cmd(cmd_at(ls, i as int)) { 1nat } else { 0nat });
            assert(last_group(ls, i + 1) == if is_group_cmd(cmd_at(ls, i as int)) { Some(i as int) } else { last_group(ls, i as int) });
            assert forall|g: int| 0 <= g < n implies #[trigger] group_keep@[g] == group_kept_upto(
                ls,
                keep@,
                g,
                i + 1,
            ) by {
                assert(group_kept_upto(ls, keep@, g, i + 1) == (group_kept_upto(ls, keep@, g, i as int)
                    || (kept_channel(ls, keep@, i as int) && last_group(ls, i as int) == Some(g))));
            }
        }
        i += 1;
    }
    // Emit: scaffolding always; groups/rectangles only if the group survives;
    // channels only if kept.
    let mut open: Option<usize> = None;
    let mut j: usize = 0;
    while j < n
        invariant
            j <= n,
            n == sys_lines@.len(),
            ls == lines_view(sys_lines@),
            kept_ch@.len() == n,
            group_keep@.len() == n,
            forall|m: int| 0 <= m < n ==> #[trigger] kept_ch@[m] == kept_channel(ls, keep@, m),
            forall|g: int| 0 <= g < n ==> #[trigger] group_keep@[g] == group_kept_upto(ls, keep@, g, n as int),
            match open {
                Some(g) => open_group(ls, j as int) == Some(g as int) && g < j,
                None => open_group(ls, j as int) is None,
            },
            lines_view(out@) == lines_view(old(out)@) + pruned(ls, keep@, j as int),
        decreases n - j,
    {
        proof { lemma_cmd_classes(); }
        let line = &sys_lines[j];
        let cmd = line.command();
        assert(cmd@ == cmd_at(ls, j as int));
        assert(line@ == ls[j as int]);
        let ghost before = lines_view(out@);
        let ghost em = emit_line(ls, keep@, j as int);
        if is_group_command(cmd) {
            open = Some(j);
            assert(em == group_keep@[j as int]);
            if group_keep[j] {
                out.push(line.duplicate());
            }
        } else if is_voice_channel(cmd) {
            assert(em == kept_ch@[j as int]);
            if kept_ch[j] {
                out.push(line.duplicate());
            }
        } else if str_eq(cmd, "Rectangle") {
            let emit = match open {
                Some(g) => group_keep[g],
                None => false,
            };
            assert(em == emit);
            if emit {
                out.push(line.duplicate());
            }
        } else {
            open = None;
            assert(em);
            out.push(line.duplicate());
        }
        assert(lines_view(out@) == if em { before.push(ls[j as int]) } else { before });
        assert(pruned(ls, keep@, j + 1) == if emit_line(ls, keep@, j as int) {
            pruned(ls, keep@, j as int).push(ls[j as int])
        } else {
            pruned(ls, keep@, j as int)
        });
        assert(open_group(ls, j + 1) == if is_group_cmd(cmd_at(ls, j as int)) {
            Some(j as int)
        } else if is_voice_cmd(cmd_at(ls, j as int)) || cmd_at(ls, j as int) == "Rectangle"@ {
            open_group(ls, j as int)
        } else {
            None
        });
        assert(lines_view(out@) =~= lines_view(old(out)@) + pruned(ls, keep@, j + 1));
        j += 1;
    }
}

/// Convenience example: extract every system tagged with `county_id`. Equivalent
/// to `Extraction::segment(..).select(|s| s.is_in_county(county_id))` — the UI is
/// free to build its own predicate instead.
pub fn by_county<P: SdCardProfile + ?Sized>(doc: &Document, profile: &P, county_id: u64) -> (r: Document)
    ensures
        r@ == doc@.take(preamble_end(doc@)) + flatten_kept(
            system_views(doc@),
            Seq::new(
                system_views(doc@).len(),
                |k: int| area_ids(system_views(doc@)[k], "AreaCounty"@).contains(county_id),
            ),
        ),
{
    let ext = Extraction::segment(doc, profile);
    let pred = |s: &System<P>| -> (b: bool)
        ensures
            b == area_ids(s@, "AreaCounty"@).contains(county_id),
        { s.is_in_county(county_id) };
    let r = ext.select(pred);
    proof {
        let sv = system_views(doc@);
        let keep = choose|keep: Seq<bool>|
            {
                &&& keep.len() == sv.len()
                &&& forall|k: int| 0 <= k < keep.len() ==> call_ensures(
                    pred,
                    (&#[trigger] ext.spec_system(k),),
                    keep[k],
                )
                &&& r@ == doc@.take(preamble_end(doc@)) + flatten_kept(sv, keep)
            };
        let want = Seq::new(sv.len(), |k: int| area_ids(sv[k], "AreaCounty"@).contains(county_id));
        assert forall|k: int| 0 <= k < sv.len() implies keep[k] == #[trigger] want[k] by {
            assert(call_ensures(pred, (&ext.spec_system(k),), keep[k]));
            assert(ext.spec_system(k)@ == sv[k]);
        }
        assert(keep =~= want);
    }
    r
}

// ---------------------------------------------------------------------------
// Location pruning of groups and sites.
// ---------------------------------------------------------------------------

/// A geo-bearing parent record: `Site`, `T-Group` or `C-Group`.
pub open spec fn is_geo_parent_cmd(c: Seq<char>) -> bool {
    c == "Site"@ || c == "T-Group"@ || c == "C-Group"@
}

/// A child of a geo-bearing parent: `T-Freq`/`BandPlan_P25` under a site, `TGID`
/// under a talkgroup group, `C-Freq`/`Rectangle` under a conventional group.
pub open spec fn is_geo_child_cmd(c: Seq<char>) -> bool {
    c == "T-Freq"@ || c == "TGID"@ || c == "C-Freq"@ || c == "BandPlan_P25"@ || c == "Rectangle"@
}

/// The last line before `i` that is not such a child: the parent (or other
/// record) the children at `i` hang under.
pub open spec fn geo_owner(ls: Seq<SpecLine>, i: int) -> Option<int>
    decreases i,
{
    if i <= 0 {
        None
    } else if !is_geo_child_cmd(cmd_at(ls, i - 1)) {
        Some(i - 1)
    } else {
        geo_owner(ls, i - 1)
    }
}

proof fn lemma_geo_cmds_disjoint(c: Seq<char>)
    ensures
        is_geo_parent_cmd(c) ==> !is_geo_child_cmd(c),
{
    reveal_strlit("Site");
    reveal_strlit("T-Group");
    reveal_strlit("C-Group");
    reveal_strlit("T-Freq");
    reveal_strlit("TGID");
    reveal_strlit("C-Freq");
    reveal_strlit("BandPlan_P25");
    reveal_strlit("Rectangle");
    assert("Site"@.len() == 4 && "T-Group"@.len() == 7 && "C-Group"@.len() == 7);
    assert("T-Freq"@.len() == 6 && "TGID"@.len() == 4 && "C-Freq"@.len() == 6);
    assert("BandPlan_P25"@.len() == 12 && "Rectangle"@.len() == 9);
    if c == "Site"@ && c == "TGID"@ {
        assert("Site"@[0] == 'S');
        assert("TGID"@[0] == 'T');
    }
}

/// Line `i` survives the pruning: a geo parent when marked near; a child unless
/// it hangs under a parent that was dropped; anything else always.
pub open spec fn geo_kept(ls: Seq<SpecLine>, near: Seq<bool>, i: int) -> bool {
    let c = cmd_at(ls, i);
    if is_geo_parent_cmd(c) {
        near[i]
    } else if is_geo_child_cmd(c) {
        match geo_owner(ls, i) {
            Some(j) => !is_geo_parent_cmd(cmd_at(ls, j)) || near[j],
            None => true,
        }
    } else {
        true
    }
}

/// The surviving lines among the first `n`, in order.
pub open spec fn geo_kept_lines(ls: Seq<SpecLine>, near: Seq<bool>, n: int) -> Seq<SpecLine>
    decreases n,
{
    if n <= 0 {
        Seq::empty()
    } else if geo_kept(ls, near, n - 1) {
        geo_kept_lines(ls, near, n - 1).push(ls[n - 1])
    } else {
        geo_kept_lines(ls, near, n - 1)
    }
}

/// Prune a document to the geo-bearing children (`Site`, `T-Group`, `C-Group`)
/// marked near, dropping each other one along with its children (`T-Freq`/
/// `BandPlan_P25` for a site, `TGID` for a talkgroup group, `C-Freq`/`Rectangle`
/// for a conventional group). `near[i]` is the decision for line `i` (read only
/// on geo-bearing lines). System headers, `DQKs_Status` and area tags pass
/// through. Only whole real lines are dropped, so the result round-trips.
pub fn keep_near_groups(doc: &Document, near: &[bool]) -> (r: Document)
    requires
        near@.len() == doc@.len(),
    ensures
        r@ == geo_kept_lines(doc@, near@, doc@.len() as int),
{
    let ghost ls = doc@;
    let mut out: Vec<Line> = Vec::new();
    let mut dropping = false;
    let mut i: usize = 0;
    while i < doc.lines.len()
        invariant
            i <= doc.lines@.len(),
            ls == doc@,
            ls.len() == doc.lines@.len(),
            near@.len() == ls.len(),
            forall|k: int| 0 <= k < ls.len() ==> #[trigger] ls[k] == doc.lines@[k]@,
            lines_view(out@) == geo_kept_lines(ls, near@, i as int),
            dropping == match geo_owner(ls, i as int) {
                Some(j) => is_geo_parent_cmd(cmd_at(ls, j)) && !near@[j],
                None => false,
            },
        decreases doc.lines@.len() - i,
    {
        let line = &doc.lines[i];
        let c = line.command();
        assert(c@ == cmd_at(ls, i as int));
        let ghost before = lines_view(out@);
        proof {
            reveal_strlit("Site");
            reveal_strlit("T-Group");
            reveal_strlit("C-Group");
            reveal_strlit("T-Freq");
            reveal_strlit("TGID");
            reveal_strlit("C-Freq");
            reveal_strlit("BandPlan_P25");
            reveal_strlit("Rectangle");
        }
        let parent = str_eq(c, "Site") || str_eq(c, "T-Group") || str_eq(c, "C-Group");
        let child = str_eq(c, "T-Freq") || str_eq(c, "TGID") || str_eq(c, "C-Freq") || str_eq(
            c,
            "BandPlan_P25",
        ) || str_eq(c, "Rectangle");
        assert(parent == is_geo_parent_cmd(c@));
        assert(child == is_geo_child_cmd(c@));
        if parent {
            let keep = near[i];
            dropping = !keep;
            if keep {
                out.push(line.duplicate());
            }
        } else if child {
            if !dropping {
                out.push(line.duplicate());
            }
        } else {
            dropping = false;
            out.push(line.duplicate());
        }
        proof {
            lemma_geo_cmds_disjoint(c@);
            if geo_kept(ls, near@, i as int) {
                assert(lines_view(out@) =~= before.push(ls[i as int]));
            } else {
                assert(lines_view(out@) =~= before);
            }
        }
        i += 1;
    }
    Document { lines: out }
}

// ---------------------------------------------------------------------------
// Selection by a selector string.
// ---------------------------------------------------------------------------

/// A system's name (its header's non-empty name field).
pub open spec fn sys_name_of<P: SdCardProfile + ?Sized>(sys: Seq<SpecLine>, p: &P) -> Option<Seq<char>> {
    match p.spec_record_schema(spec_command(sys[0].fields)) {
        Some(s) => nonempty_of(col_field(sys[0], s.name_col)),
        None => None,
    }
}

/// A system's technology (its header's non-empty technology field).
pub open spec fn sys_tech_of<P: SdCardProfile + ?Sized>(sys: Seq<SpecLine>, p: &P) -> Option<Seq<char>> {
    match p.spec_record_schema(spec_command(sys[0].fields)) {
        Some(s) => nonempty_of(col_field(sys[0], s.tech_col)),
        None => None,
    }
}

/// Which systems a selector keeps: `all`; `county:<id>` (tagged with the
/// county); `tech:<text>` / `name:<text>` (technology / name containing the
/// text). `None` for any other selector or an unreadable county id.
pub open spec fn selector_keep<P: SdCardProfile + ?Sized>(
    sv: Seq<Seq<SpecLine>>,
    p: &P,
    selector: Seq<char>,
) -> Option<Seq<bool>> {
    if selector == "all"@ {
        Some(Seq::new(sv.len(), |k: int| true))
    } else {
        match crate::text::split_once(selector, ':') {
            Some((kind, value)) => if kind == "county"@ {
                match crate::text::spec_parse_u64(value) {
                    Some(id) => Some(Seq::new(sv.len(), |k: int| area_ids(sv[k], "AreaCounty"@).contains(id))),
                    None => None,
                }
            } else if kind == "tech"@ {
                Some(
                    Seq::new(
                        sv.len(),
                        |k: int|
                            match sys_tech_of(sv[k], p) {
                                Some(t) => contains_sub(t, value),
                                None => false,
                            },
                    ),
                )
            } else if kind == "name"@ {
                Some(
                    Seq::new(
                        sv.len(),
                        |k: int|
                            match sys_name_of(sv[k], p) {
                                Some(n) => contains_sub(n, value),
                                None => false,
                            },
                    ),
                )
            } else {
                None
            },
            None => None,
        }
    }
}

/// Select the systems a selector names (`all`, `county:<id>`, `tech:<text>`,
/// `name:<text>`); `None` for an unknown selector.
pub fn select_systems<P: SdCardProfile + ?Sized>(doc: &Document, profile: &P, selector: &str) -> (r: Option<Document>)
    ensures
        match selector_keep(system_views(doc@), profile, selector@) {
            Some(keep) => r matches Some(d) && d@ == doc@.take(preamble_end(doc@)) + flatten_kept(
                system_views(doc@),
                keep,
            ),
            None => r is None,
        },
{
    let ext = Extraction::segment(doc, profile);
    let ghost sv = system_views(doc@);
    if str_eq(selector, "all") {
        let pred = |s: &System<P>| -> (b: bool)
            ensures
                b,
            { true };
        let r = ext.select(pred);
        proof {
            let keep = choose|keep: Seq<bool>|
                {
                    &&& keep.len() == sv.len()
                    &&& forall|k: int| 0 <= k < keep.len() ==> call_ensures(
                        pred,
                        (&#[trigger] ext.spec_system(k),),
                        keep[k],
                    )
                    &&& r@ == doc@.take(preamble_end(doc@)) + flatten_kept(sv, keep)
                };
            let want = Seq::new(sv.len(), |k: int| true);
            assert forall|k: int| 0 <= k < sv.len() implies keep[k] == #[trigger] want[k] by {
                assert(call_ensures(pred, (&ext.spec_system(k),), keep[k]));
            }
            assert(keep =~= want);
        }
        return Some(r);
    }
    let (kind, value) = match crate::text::split_once_str(selector, ':') {
        Some(kv) => kv,
        None => {
            return None;
        },
    };
    if str_eq(kind, "county") {
        let id = match crate::text::parse_u64(value) {
            Some(id) => id,
            None => {
                return None;
            },
        };
        let pred = |s: &System<P>| -> (b: bool)
            ensures
                b == area_ids(s@, "AreaCounty"@).contains(id),
            { s.is_in_county(id) };
        let r = ext.select(pred);
        proof {
            let keep = choose|keep: Seq<bool>|
                {
                    &&& keep.len() == sv.len()
                    &&& forall|k: int| 0 <= k < keep.len() ==> call_ensures(
                        pred,
                        (&#[trigger] ext.spec_system(k),),
                        keep[k],
                    )
                    &&& r@ == doc@.take(preamble_end(doc@)) + flatten_kept(sv, keep)
                };
            let want = Seq::new(sv.len(), |k: int| area_ids(sv[k], "AreaCounty"@).contains(id));
            assert forall|k: int| 0 <= k < sv.len() implies keep[k] == #[trigger] want[k] by {
                assert(call_ensures(pred, (&ext.spec_system(k),), keep[k]));
                assert(ext.spec_system(k)@ == sv[k]);
            }
            assert(keep =~= want);
        }
        Some(r)
    } else if str_eq(kind, "tech") {
        let pred = |s: &System<P>| -> (b: bool)
            ensures
                b == match sys_tech_of(s@, s.spec_profile()) {
                    Some(t) => contains_sub(t, value@),
                    None => false,
                },
            {
                match s.tech() {
                    Some(t) => str_contains(t, value),
                    None => false,
                }
            };
        let r = ext.select(pred);
        proof {
            let keep = choose|keep: Seq<bool>|
                {
                    &&& keep.len() == sv.len()
                    &&& forall|k: int| 0 <= k < keep.len() ==> call_ensures(
                        pred,
                        (&#[trigger] ext.spec_system(k),),
                        keep[k],
                    )
                    &&& r@ == doc@.take(preamble_end(doc@)) + flatten_kept(sv, keep)
                };
            let want = Seq::new(
                sv.len(),
                |k: int|
                    match sys_tech_of(sv[k], profile) {
                        Some(t) => contains_sub(t, value@),
                        None => false,
                    },
            );
            assert forall|k: int| 0 <= k < sv.len() implies keep[k] == #[trigger] want[k] by {
                assert(call_ensures(pred, (&ext.spec_system(k),), keep[k]));
                assert(ext.spec_system(k)@ == sv[k]);
                assert(ext.spec_system(k).spec_profile() == profile);
            }
            assert(keep =~= want);
        }
        Some(r)
    } else if str_eq(kind, "name") {
        let pred = |s: &System<P>| -> (b: bool)
            ensures
                b == match sys_name_of(s@, s.spec_profile()) {
                    Some(n) => contains_sub(n, value@),
                    None => false,
                },
            {
                match s.name() {
                    Some(n) => str_contains(n, value),
                    None => false,
                }
            };
        let r = ext.select(pred);
        proof {
            let keep = choose|keep: Seq<bool>|
                {
                    &&& keep.len() == sv.len()
                    &&& forall|k: int| 0 <= k < keep.len() ==> call_ensures(
                        pred,
                        (&#[trigger] ext.spec_system(k),),
                        keep[k],
                    )
                    &&& r@ == doc@.take(preamble_end(doc@)) + flatten_kept(sv, keep)
                };
            let want = Seq::new(
                sv.len(),
                |k: int|
                    match sys_name_of(sv[k], profile) {
                        Some(n) => contains_sub(n, value@),
                        None => false,
                    },
            );
            assert forall|k: int| 0 <= k < sv.len() implies keep[k] == #[trigger] want[k] by {
                assert(call_ensures(pred, (&ext.spec_system(k),), keep[k]));
                assert(ext.spec_system(k)@ == sv[k]);
                assert(ext.spec_system(k).spec_profile() == profile);
            }
            assert(keep =~= want);
        }
        Some(r)
    } else {
        None
    }
}

} // verus!
