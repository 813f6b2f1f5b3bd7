//! Lossless, model-agnostic sentence layer for Uniden scanner files.
//!
//! Every `.hpd` / `.cfg` / `.avd` is tab-delimited ASCII, one sentence per line,
//! with CRLF line endings (with at least one real-world bare-LF quirk observed in
//! `profile.cfg`). [`Document::parse`] splits raw bytes into tab-split [`Line`]s,
//! each carrying its exact terminator, and [`Document::to_bytes`] serializes back
//! byte-for-byte: `parse(raw)` succeeding implies `to_bytes() == raw`
//! ([`lemma_parse_then_serialize`]).

use vstd::prelude::*;
use crate::error::{Error, Result};
use crate::text::{ascii_chars, is_ascii_bytes, push_all, str_eq, string_from_ascii, copy_str};

verus! {

/// Exactly how a line was terminated on disk. Preserved so we can rebuild the
/// file byte-for-byte (including the lone bare-LF seen in real `profile.cfg`,
/// and a possible missing newline on the final line).
#[derive(Debug, Clone, Copy, PartialEq, Eq, Structural)]
pub enum LineEnding {
    /// `\r\n` — the normal terminator.
    Crlf,
    /// `\n` — a bare line feed (rare, but it occurs on real cards).
    Lf,
    /// No terminator — only valid on the final line of a file.
    Unterminated,
}

impl LineEnding {
    /// The terminator's bytes.
    pub open spec fn spec_bytes(self) -> Seq<u8> {
        match self {
            LineEnding::Crlf => seq![13u8, 10u8],
            LineEnding::Lf => seq![10u8],
            LineEnding::Unterminated => seq![],
        }
    }

    pub fn as_bytes(self) -> (r: &'static [u8])
        ensures
            r@ == self.spec_bytes(),
    {
        match self {
            LineEnding::Crlf => {
                let r: &'static [u8] = &[13u8, 10u8];
                assert(r@ =~= seq![13u8, 10u8]);
                r
            },
            LineEnding::Lf => {
                let r: &'static [u8] = &[10u8];
                assert(r@ =~= seq![10u8]);
                r
            },
            LineEnding::Unterminated => {
                let r: &'static [u8] = &[];
                assert(r@ =~= Seq::<u8>::empty());
                r
            },
        }
    }
}

/// The mathematical content of one sentence: its fields (as characters) and its
/// terminator.
pub struct SpecLine {
    pub fields: Seq<Seq<char>>,
    pub ending: LineEnding,
}

/// One sentence: its tab-separated fields plus the terminator that followed it.
/// `fields[0]` is the command (record type). Empty fields are preserved exactly,
/// which is what makes the favorites "blanked MyId/ParentId" dialect round-trip.
#[derive(Debug, Clone, PartialEq, Eq)]
pub struct Line {
    pub fields: Vec<String>,
    pub ending: LineEnding,
}

/// The characters of each string of a vector.
pub open spec fn strings_view(v: Seq<String>) -> Seq<Seq<char>> {
    Seq::new(v.len(), |i: int| v[i]@)
}

impl View for Line {
    type V = SpecLine;

    open spec fn view(&self) -> SpecLine {
        SpecLine { fields: strings_view(self.fields@), ending: self.ending }
    }
}

/// The command token of a line's fields (`fields[0]`, or empty).
pub open spec fn spec_command(fields: Seq<Seq<char>>) -> Seq<char> {
    if fields.len() > 0 { fields[0] } else { Seq::empty() }
}

/// Field `idx` of a line, if present.
pub open spec fn spec_field(fields: Seq<Seq<char>>, idx: int) -> Option<Seq<char>> {
    if 0 <= idx < fields.len() { Some(fields[idx]) } else { None }
}

impl Line {
    /// The command / record-type token (`fields[0]`), e.g. `"Site"`.
    pub fn command(&self) -> (r: &str)
        ensures
            r@ == spec_command(self@.fields),
    {
        if self.fields.len() > 0 {
            self.fields[0].as_str()
        } else {
            let e: &'static str = "";
            proof { reveal_strlit(""); }
            assert(e@ =~= Seq::<char>::empty());
            e
        }
    }

    /// Field by index, or `None` if out of range.
    pub fn field(&self, idx: usize) -> (r: Option<&str>)
        ensures
            r matches Some(s) ==> spec_field(self@.fields, idx as int) == Some(s@),
            r is None ==> spec_field(self@.fields, idx as int) is None,
    {
        if idx < self.fields.len() {
            Some(self.fields[idx].as_str())
        } else {
            None
        }
    }

    /// Does this line's command equal `command`?
    pub fn is_command(&self, command: &str) -> (r: bool)
        ensures
            r == (spec_command(self@.fields) == command@),
    {
        str_eq(self.command(), command)
    }

    /// A field-by-field copy of this line.
    pub fn duplicate(&self) -> (r: Line)
        ensures
            r@ == self@,
    {
        let mut fields: Vec<String> = Vec::new();
        let mut i: usize = 0;
        while i < self.fields.len()
            invariant
                i <= self.fields@.len(),
                fields@.len() == i,
                forall|k: int| 0 <= k < i ==> #[trigger] fields@[k]@ == self.fields@[k]@,
            decreases self.fields@.len() - i,
        {
            fields.push(copy_str(self.fields[i].as_str()));
            i += 1;
        }
        let r = Line { fields, ending: self.ending };
        assert(r@.fields =~= self@.fields);
        r
    }

    /// A line from string slices (command first).
    pub fn from_strs(fields: &[&str], ending: LineEnding) -> (r: Line)
        ensures
            r@.fields == Seq::new(fields@.len(), |i: int| fields@[i]@),
            r@.ending == ending,
    {
        let mut v: Vec<String> = Vec::new();
        let mut i: usize = 0;
        while i < fields.len()
            invariant
                i <= fields@.len(),
                v@.len() == i,
                forall|k: int| 0 <= k < i ==> #[trigger] v@[k]@ == fields@[k]@,
            decreases fields@.len() - i,
        {
            v.push(copy_str(fields[i]));
            i += 1;
        }
        let r = Line { fields: v, ending };
        assert(r@.fields =~= Seq::new(fields@.len(), |i: int| fields@[i]@));
        r
    }
}

/// A copy of a list of strings.
pub fn copy_strings(v: &Vec<String>) -> (r: Vec<String>)
    ensures
        strings_view(r@) == strings_view(v@),
{
    let mut out: Vec<String> = Vec::new();
    let mut i: usize = 0;
    while i < v.len()
        invariant
            i <= v@.len(),
            out@.len() == i,
            forall|k: int| 0 <= k < i ==> #[trigger] out@[k]@ == v@[k]@,
        decreases v@.len() - i,
    {
        out.push(copy_str(v[i].as_str()));
        i += 1;
    }
    assert(strings_view(out@) =~= strings_view(v@));
    out
}

/// Append copies of `src` to `out`.
pub fn push_lines(src: &[Line], out: &mut Vec<Line>)
    ensures
        lines_view(final(out)@) == lines_view(old(out)@) + lines_view(src@),
{
    let mut i: usize = 0;
    while i < src.len()
        invariant
            i <= src@.len(),
            lines_view(out@) == lines_view(old(out)@) + lines_view(src@).take(i as int),
        decreases src@.len() - i,
    {
        let ghost before = lines_view(out@);
        out.push(src[i].duplicate());
        assert(lines_view(out@) =~= before.push(src@[i as int]@));
        assert(lines_view(src@).take(i + 1) =~= lines_view(src@).take(i as int).push(src@[i as int]@));
        i += 1;
    }
    assert(lines_view(src@).take(src@.len() as int) =~= lines_view(src@));
}

/// A whole parsed file: an ordered list of lines. Order and content are preserved
/// exactly; this type makes no semantic claims about the records (that's
/// `device::SdCardProfile`'s job).
#[derive(Debug, Clone, PartialEq, Eq, Default)]
pub struct Document {
    pub lines: Vec<Line>,
}

/// The views of a sequence of lines.
pub open spec fn lines_view(v: Seq<Line>) -> Seq<SpecLine> {
    Seq::new(v.len(), |i: int| v[i]@)
}

impl View for Document {
    type V = Seq<SpecLine>;

    open spec fn view(&self) -> Seq<SpecLine> {
        lines_view(self.lines@)
    }
}

/// The header sentences every card file starts with. Used to pick a scanner
/// profile. `target_model` is e.g. `"BCDx36HP"`; `format_version` e.g. `"1.00"`.
#[derive(Debug, Clone, PartialEq, Eq, Default)]
pub struct FileHeader {
    pub target_model: Option<String>,
    pub format_version: Option<String>,
}

/// The characters of an optional string.
pub open spec fn opt_string_view(o: Option<String>) -> Option<Seq<char>> {
    match o {
        Some(s) => Some(s@),
        None => None,
    }
}

// ---------------------------------------------------------------------------
// The byte-level grammar.
// ---------------------------------------------------------------------------

/// Bytes a line payload may contain: printable ASCII, TAB and CR.
pub open spec fn is_payload_byte(b: u8) -> bool {
    b == 9 || b == 13 || (0x20 <= b && b <= 0x7E)
}

/// Bytes a whole file may contain: payload bytes and the LF delimiter.
pub open spec fn is_file_byte(b: u8) -> bool {
    is_payload_byte(b) || b == 10
}

pub open spec fn all_file_bytes(raw: Seq<u8>) -> bool {
    forall|i: int| 0 <= i < raw.len() ==> is_file_byte(#[trigger] raw[i])
}

/// The offset of the first byte that may not appear in a card file.
pub open spec fn first_bad_byte(raw: Seq<u8>) -> int {
    choose|i: int|
        0 <= i < raw.len() && !is_file_byte(raw[i]) && forall|j: int|
            0 <= j < i ==> is_file_byte(#[trigger] raw[j])
}

/// Index of the first `\n` in `s`, or `s.len()` when there is none.
pub open spec fn nl_pos(s: Seq<u8>) -> int
    decreases s.len(),
{
    if s.len() == 0 {
        0
    } else if s[0] == 10 {
        0
    } else {
        1 + nl_pos(s.drop_first())
    }
}

/// Split a payload on TAB (0x09), keeping empty pieces; always at least one piece.
pub open spec fn split_tab(p: Seq<u8>) -> Seq<Seq<u8>>
    decreases p.len(),
{
    if p.len() == 0 {
        seq![Seq::<u8>::empty()]
    } else {
        let prev = split_tab(p.drop_last());
        if p.last() == 9 {
            prev.push(Seq::<u8>::empty())
        } else {
            prev.update(prev.len() - 1, prev.last().push(p.last()))
        }
    }
}

/// Join pieces with TAB between them.
pub open spec fn join_tab(fs: Seq<Seq<u8>>) -> Seq<u8>
    decreases fs.len(),
{
    if fs.len() == 0 {
        Seq::empty()
    } else if fs.len() == 1 {
        fs[0]
    } else {
        join_tab(fs.drop_last()) + seq![9u8] + fs.last()
    }
}

/// The line a payload and its terminator denote.
pub open spec fn line_of(payload: Seq<u8>, ending: LineEnding) -> SpecLine {
    let pieces = split_tab(payload);
    SpecLine { fields: Seq::new(pieces.len(), |i: int| ascii_chars(pieces[i])), ending }
}

/// The first line of `raw` (which must be non-empty) and the offset where the
/// rest of the file starts.
pub open spec fn first_line(raw: Seq<u8>) -> (SpecLine, int) {
    let nl = nl_pos(raw);
    if nl < raw.len() {
        if nl > 0 && raw[nl - 1] == 13 {
            (line_of(raw.take(nl - 1), LineEnding::Crlf), nl + 1)
        } else {
            (line_of(raw.take(nl), LineEnding::Lf), nl + 1)
        }
    } else {
        (line_of(raw, LineEnding::Unterminated), raw.len() as int)
    }
}

/// The lines a byte string splits into: split on `\n` keeping each terminator
/// (`\r\n`, `\n`, or none on a final unterminated line), then on TAB.
pub open spec fn parse_lines(raw: Seq<u8>) -> Seq<SpecLine>
    decreases raw.len(),
{
    if raw.len() == 0 {
        Seq::empty()
    } else {
        let (line, next) = first_line(raw);
        if 0 < next <= raw.len() {
            seq![line] + parse_lines(raw.skip(next))
        } else {
            seq![line]
        }
    }
}

/// The bytes one line serializes to: fields UTF-8 encoded and TAB-joined, then the
/// terminator.
pub open spec fn line_bytes(l: SpecLine) -> Seq<u8> {
    join_tab(Seq::new(l.fields.len(), |i: int| vstd::utf8::encode_utf8(l.fields[i])))
        + l.ending.spec_bytes()
}

/// The bytes a sequence of lines serializes to.
pub open spec fn doc_bytes(ls: Seq<SpecLine>) -> Seq<u8>
    decreases ls.len(),
{
    if ls.len() == 0 {
        Seq::empty()
    } else {
        doc_bytes(ls.drop_last()) + line_bytes(ls.last())
    }
}

// ---------------------------------------------------------------------------
// Lemmas.
// ---------------------------------------------------------------------------

proof fn lemma_nl_pos(s: Seq<u8>, m: int)
    requires
        0 <= m <= s.len(),
        forall|k: int| 0 <= k < m ==> s[k] != 10,
        m == s.len() || s[m] == 10,
    ensures
        nl_pos(s) == m,
    decreases s.len(),
{
    if s.len() > 0 && m > 0 {
        assert forall|k: int| 0 <= k < m - 1 implies s.drop_first()[k] != 10 by {
            assert(s.drop_first()[k] == s[k + 1]);
        }
        lemma_nl_pos(s.drop_first(), m - 1);
    }
}

proof fn lemma_nl_pos_bounds(s: Seq<u8>)
    ensures
        0 <= nl_pos(s) <= s.len(),
        nl_pos(s) < s.len() ==> s[nl_pos(s)] == 10,
        forall|k: int| 0 <= k < nl_pos(s) ==> s[k] != 10,
    decreases s.len(),
{
    if s.len() > 0 && s[0] != 10 {
        lemma_nl_pos_bounds(s.drop_first());
        assert forall|k: int| 0 <= k < nl_pos(s) implies s[k] != 10 by {
            if k > 0 {
                assert(s[k] == s.drop_first()[k - 1]);
            }
        }
    }
}

proof fn lemma_split_nonempty(p: Seq<u8>)
    ensures
        split_tab(p).len() >= 1,
    decreases p.len(),
{
    if p.len() > 0 {
        lemma_split_nonempty(p.drop_last());
    }
}

/// Every piece of a split consists of bytes of the payload (so it keeps any
/// per-byte property the payload has).
proof fn lemma_split_pieces_ascii(p: Seq<u8>)
    requires
        is_ascii_bytes(p),
    ensures
        forall|i: int| 0 <= i < split_tab(p).len() ==> is_ascii_bytes(#[trigger] split_tab(p)[i]),
    decreases p.len(),
{
    if p.len() > 0 {
        let q = p.drop_last();
        assert(is_ascii_bytes(q)) by {
            assert forall|i: int| 0 <= i < q.len() implies #[trigger] q[i] < 0x80 by {
                assert(q[i] == p[i]);
            }
        }
        lemma_split_pieces_ascii(q);
        lemma_split_nonempty(q);
        let prev = split_tab(q);
        if p.last() != 9 {
            let x = prev.last().push(p.last());
            assert(is_ascii_bytes(prev.last()));
            assert(is_ascii_bytes(x)) by {
                assert forall|i: int| 0 <= i < x.len() implies #[trigger] x[i] < 0x80 by {
                    if i < prev.last().len() {
                        assert(x[i] == prev.last()[i]);
                    } else {
                        assert(x[i] == p[p.len() - 1]);
                    }
                }
            }
        }
    }
}

proof fn lemma_join_update_last(fs: Seq<Seq<u8>>, b: u8)
    requires
        fs.len() >= 1,
    ensures
        join_tab(fs.update(fs.len() - 1, fs.last().push(b))) == join_tab(fs).push(b),
{
    let gs = fs.update(fs.len() - 1, fs.last().push(b));
    if fs.len() == 1 {
        assert(gs[0] == fs[0].push(b));
    } else {
        assert(gs.drop_last() =~= fs.drop_last());
        assert(gs.last() == fs.last().push(b));
        assert(join_tab(gs) =~= join_tab(fs).push(b));
    }
}

/// Joining the pieces of a split gives the payload back.
proof fn lemma_join_split(p: Seq<u8>)
    ensures
        join_tab(split_tab(p)) == p,
    decreases p.len(),
{
    if p.len() == 0 {
        assert(join_tab(split_tab(p)) =~= p);
    } else {
        let q = p.drop_last();
        lemma_join_split(q);
        lemma_split_nonempty(q);
        let prev = split_tab(q);
        if p.last() == 9 {
            let s = prev.push(Seq::<u8>::empty());
            assert(s.drop_last() =~= prev);
            assert(join_tab(s) =~= q + seq![9u8] + Seq::<u8>::empty());
            assert(q + seq![9u8] + Seq::<u8>::empty() =~= p);
        } else {
            lemma_join_update_last(prev, p.last());
            assert(q.push(p.last()) =~= p);
        }
    }
}

proof fn lemma_line_of_bytes(payload: Seq<u8>, ending: LineEnding)
    requires
        is_ascii_bytes(payload),
    ensures
        line_bytes(line_of(payload, ending)) == payload + ending.spec_bytes(),
{
    let pieces = split_tab(payload);
    let l = line_of(payload, ending);
    lemma_split_pieces_ascii(payload);
    let enc = Seq::new(l.fields.len(), |i: int| vstd::utf8::encode_utf8(l.fields[i]));
    assert forall|i: int| 0 <= i < pieces.len() implies enc[i] == pieces[i] by {
        assert(is_ascii_bytes(pieces[i]));
        crate::text::lemma_ascii_round_trip(pieces[i]);
    }
    assert(enc =~= pieces);
    lemma_join_split(payload);
}

proof fn lemma_doc_bytes_cons(l: SpecLine, rest: Seq<SpecLine>)
    ensures
        doc_bytes(seq![l] + rest) == line_bytes(l) + doc_bytes(rest),
    decreases rest.len(),
{
    if rest.len() == 0 {
        assert((seq![l] + rest).drop_last() =~= Seq::<SpecLine>::empty());
        assert((seq![l] + rest).last() == l);
        assert(doc_bytes(Seq::<SpecLine>::empty()) == Seq::<u8>::empty());
        assert(doc_bytes(seq![l] + rest) == doc_bytes(Seq::<SpecLine>::empty()) + line_bytes(l));
        assert(doc_bytes(seq![l] + rest) =~= line_bytes(l) + doc_bytes(rest));
    } else {
        lemma_doc_bytes_cons(l, rest.drop_last());
        assert((seq![l] + rest).drop_last() =~= seq![l] + rest.drop_last());
        assert((seq![l] + rest).last() == rest.last());
        assert(doc_bytes(seq![l] + rest) =~= line_bytes(l) + doc_bytes(rest));
    }
}

proof fn lemma_doc_bytes_push(ls: Seq<SpecLine>, l: SpecLine)
    ensures
        doc_bytes(ls.push(l)) == doc_bytes(ls) + line_bytes(l),
{
    assert(ls.push(l).drop_last() =~= ls);
}

/// The round-trip law of the sentence layer: serializing the lines a file
/// parses into gives back exactly the file's bytes.
pub proof fn lemma_parse_then_serialize(raw: Seq<u8>)
    requires
        all_file_bytes(raw),
    ensures
        doc_bytes(parse_lines(raw)) == raw,
    decreases raw.len(),
{
    if raw.len() > 0 {
        let nl = nl_pos(raw);
        lemma_nl_pos_bounds(raw);
        let (line, next) = first_line(raw);
        let payload = if nl < raw.len() {
            if nl > 0 && raw[nl - 1] == 13 { raw.take(nl - 1) } else { raw.take(nl) }
        } else {
            raw
        };
        assert(is_ascii_bytes(payload)) by {
            assert forall|i: int| 0 <= i < payload.len() implies #[trigger] payload[i] < 0x80 by {
                assert(payload[i] == raw[i]);
                assert(is_file_byte(raw[i]));
            }
        }
        lemma_line_of_bytes(payload, line.ending);
        let rest = raw.skip(next);
        assert(all_file_bytes(rest)) by {
            assert forall|i: int| 0 <= i < rest.len() implies is_file_byte(#[trigger] rest[i]) by {
                assert(rest[i] == raw[i + next]);
            }
        }
        lemma_parse_then_serialize(rest);
        lemma_doc_bytes_cons(line, parse_lines(rest));
        if nl < raw.len() {
            if nl > 0 && raw[nl - 1] == 13 {
                assert(payload + seq![13u8, 10u8] + rest =~= raw);
            } else {
                assert(payload + seq![10u8] + rest =~= raw);
            }
        } else {
            assert(rest =~= Seq::<u8>::empty());
            assert(payload + Seq::<u8>::empty() + rest =~= raw);
        }
    }
}

/// The first offending byte is determined by the file alone.
proof fn lemma_first_bad_byte(raw: Seq<u8>, i: int)
    requires
        0 <= i < raw.len(),
        !is_file_byte(raw[i]),
        forall|j: int| 0 <= j < i ==> is_file_byte(#[trigger] raw[j]),
    ensures
        first_bad_byte(raw) == i,
{
    let k = first_bad_byte(raw);
    assert(0 <= k < raw.len() && !is_file_byte(raw[k]) && forall|j: int|
        0 <= j < k ==> is_file_byte(#[trigger] raw[j]));
    if k < i {
        assert(is_file_byte(raw[k]));
    }
    if i < k {
        assert(is_file_byte(raw[i]));
    }
}

/// Split one validated payload into its fields.
fn split_fields(raw: &[u8], start: usize, end: usize) -> (fields: Vec<String>)
    requires
        start <= end <= raw@.len(),
    ensures
        strings_view(fields@) == line_of(raw@.subrange(start as int, end as int), LineEnding::Lf).fields,
{
    let ghost payload = raw@.subrange(start as int, end as int);
    let mut fields: Vec<String> = Vec::new();
    let mut cur = String::new();
    let mut i = start;
    while i < end
        invariant
            start <= i <= end <= raw@.len(),
            payload == raw@.subrange(start as int, end as int),
            ({
                let pieces = split_tab(payload.take(i - start));
                &&& pieces.len() == fields@.len() + 1
                &&& forall|k: int| 0 <= k < fields@.len() ==> #[trigger] fields@[k]@ == ascii_chars(pieces[k])
                &&& cur@ == ascii_chars(pieces.last())
            }),
        decreases end - i,
    {
        let ghost before = split_tab(payload.take(i - start));
        let b = raw[i];
        assert(payload.take(i - start + 1).drop_last() =~= payload.take(i - start));
        assert(payload.take(i - start + 1).last() == b);
        if b == 9 {
            let done = cur;
            fields.push(done);
            cur = String::new();
            assert(ascii_chars(Seq::<u8>::empty()) =~= Seq::<char>::empty());
        } else {
            cur.push(b as char);
            proof {
                lemma_split_nonempty(payload.take(i - start));
                assert(ascii_chars(before.last().push(b)) =~= ascii_chars(before.last()).push(b as char));
            }
        }
        i += 1;
    }
    assert(payload.take(end - start) =~= payload);
    fields.push(cur);
    let ghost pieces = split_tab(payload);
    assert(strings_view(fields@) =~= line_of(payload, LineEnding::Lf).fields);
    fields
}

impl Document {
    /// Parse raw file bytes into a [`Document`]. Errors only on bytes that break
    /// the ASCII contract (so we never silently mangle an unexpected card): the
    /// error carries the first such byte and its offset.
    pub fn parse(raw: &[u8]) -> (res: Result<Document>)
        ensures
            match res {
                Ok(doc) => all_file_bytes(raw@) && doc@ == parse_lines(raw@),
                Err(e) => !all_file_bytes(raw@) && e == (Error::NonAscii {
                    offset: first_bad_byte(raw@) as usize,
                    byte: raw@[first_bad_byte(raw@)],
                }),
            },
    {
        let mut lines: Vec<Line> = Vec::new();
        let n = raw.len();
        let mut start: usize = 0;
        assert(raw@.skip(0) =~= raw@);
        while start < n
            invariant
                n == raw@.len(),
                start <= n,
                forall|j: int| 0 <= j < start ==> is_file_byte(#[trigger] raw@[j]),
                lines_view(lines@) + parse_lines(raw@.skip(start as int)) == parse_lines(raw@),
            decreases n - start,
        {
            let ghost rest = raw@.skip(start as int);
            // find the next `\n`
            let mut j = start;
            while j < n && raw[j] != 10
                invariant
                    start <= j <= n,
                    n == raw@.len(),
                    forall|k: int| start <= k < j ==> raw@[k] != 10,
                decreases n - j,
            {
                j += 1;
            }
            proof {
                assert forall|k: int| 0 <= k < j - start implies rest[k] != 10 by {
                    assert(rest[k] == raw@[start + k]);
                }
                lemma_nl_pos(rest, (j - start) as int);
            }
            let (payload_end, next, ending) = if j < n {
                if j > start && raw[j - 1] == 13 {
                    (j - 1, j + 1, LineEnding::Crlf)
                } else {
                    (j, j + 1, LineEnding::Lf)
                }
            } else {
                (n, n, LineEnding::Unterminated)
            };
            // validate the payload
            let mut i = start;
            while i < payload_end
                invariant
                    start <= i <= payload_end <= j <= n,
                    n == raw@.len(),
                    forall|k: int| start <= k < j ==> raw@[k] != 10,
                    forall|k: int| 0 <= k < i ==> is_file_byte(#[trigger] raw@[k]),
                decreases payload_end - i,
            {
                let b = raw[i];
                if !(b == 9 || b == 13 || (0x20 <= b && b <= 0x7E)) {
                    proof {
                        assert(b != 10);
                        lemma_first_bad_byte(raw@, i as int);
                    }
                    return Err(Error::NonAscii { offset: i, byte: b });
                }
                i += 1;
            }
            let fields = split_fields(raw, start, payload_end);
            let line = Line { fields, ending };
            proof {
                let (sl, nx) = first_line(rest);
                assert(raw@.subrange(start as int, payload_end as int) =~= rest.take(
                    payload_end - start,
                ));
                assert(nx == next - start);
                assert(line@.fields =~= sl.fields);
                assert(line@ == sl);
                assert(rest.skip(next - start) =~= raw@.skip(next as int));
                assert(lines_view(lines@.push(line)) =~= lines_view(lines@).push(line@));
                assert(parse_lines(rest) == seq![sl] + parse_lines(rest.skip(nx)));
                assert(lines_view(lines@).push(line@) + parse_lines(raw@.skip(next as int))
                    =~= lines_view(lines@) + parse_lines(rest));
                assert forall|k: int| 0 <= k < next implies is_file_byte(#[trigger] raw@[k]) by {
                    if k >= payload_end {
                        assert(raw@[k] == 13 || raw@[k] == 10);
                    }
                }
            }
            lines.push(line);
            start = next;
        }
        assert(raw@.skip(n as int) =~= Seq::<u8>::empty());
        assert(lines_view(lines@) + Seq::<SpecLine>::empty() =~= lines_view(lines@));
        Ok(Document { lines })
    }

    /// Serialize back to bytes. For a parsed document this is the exact input
    /// ([`lemma_parse_then_serialize`]).
    pub fn to_bytes(&self) -> (out: Vec<u8>)
        ensures
            out@ == doc_bytes(self@),
    {
        let mut out: Vec<u8> = Vec::new();
        let mut i: usize = 0;
        while i < self.lines.len()
            invariant
                i <= self.lines@.len(),
                out@ == doc_bytes(self@.take(i as int)),
            decreases self.lines@.len() - i,
        {
            let line = &self.lines[i];
            let ghost before = out@;
            let ghost enc = Seq::new(
                line@.fields.len(),
                |k: int| vstd::utf8::encode_utf8(line@.fields[k]),
            );
            let mut k: usize = 0;
            while k < line.fields.len()
                invariant
                    k <= line.fields@.len(),
                    enc.len() == line.fields@.len(),
                    forall|m: int| 0 <= m < enc.len() ==> #[trigger] enc[m] == vstd::utf8::encode_utf8(line.fields@[m]@),
                    out@ == before + join_tab(enc.take(k as int)),
                decreases line.fields@.len() - k,
            {
                if k > 0 {
                    out.push(9u8);
                }
                let bytes = line.fields[k].as_str().as_bytes();
                push_all(&mut out, bytes);
                proof {
                    assert(enc.take(k + 1).drop_last() =~= enc.take(k as int));
                    assert(enc.take(k + 1).last() == enc[k as int]);
                    if k == 0 {
                        assert(join_tab(enc.take(1)) == enc[0]);
                    }
                    assert(out@ =~= before + join_tab(enc.take(k + 1)));
                }
                k += 1;
            }
            assert(enc.take(line.fields@.len() as int) =~= enc);
            push_all(&mut out, line.ending.as_bytes());
            proof {
                assert(self@.take(i + 1) =~= self@.take(i as int).push(line@));
                lemma_doc_bytes_push(self@.take(i as int), line@);
                assert(out@ =~= doc_bytes(self@.take(i + 1)));
            }
            i += 1;
        }
        assert(self@.take(self.lines@.len() as int) =~= self@);
        out
    }

    /// A line-by-line copy of this document.
    pub fn duplicate(&self) -> (r: Document)
        ensures
            r@ == self@,
    {
        let mut lines: Vec<Line> = Vec::new();
        push_lines(self.lines.as_slice(), &mut lines);
        assert(lines_view(lines@) =~= self@);
        Document { lines }
    }

    /// Extract the `TargetModel` / `FormatVersion` header sentences.
    pub fn header(&self) -> (h: FileHeader)
        ensures
            opt_string_view(h.target_model) == spec_field_value(self@, "TargetModel"@),
            opt_string_view(h.format_version) == spec_field_value(self@, "FormatVersion"@),
    {
        FileHeader {
            target_model: self.field_value("TargetModel"),
            format_version: self.field_value("FormatVersion"),
        }
    }

    /// Value (`fields[1]`) of the first line whose command matches `command`.
    pub fn field_value(&self, command: &str) -> (r: Option<String>)
        ensures
            opt_string_view(r) == spec_field_value(self@, command@),
    {
        let mut i: usize = 0;
        while i < self.lines.len()
            invariant
                i <= self.lines@.len(),
                forall|k: int| 0 <= k < i ==> spec_command(#[trigger] self@[k].fields) != command@,
            decreases self.lines@.len() - i,
        {
            if self.lines[i].is_command(command) {
                proof { lemma_first_command_index(self@, command@, i as int); }
                return match self.lines[i].field(1) {
                    Some(s) => Some(copy_str(s)),
                    None => None,
                };
            }
            i += 1;
        }
        proof { lemma_no_command(self@, command@); }
        None
    }

    /// Number of lines per command, in order of first appearance — handy for
    /// recon and schema validation.
    pub fn command_counts(&self) -> (counts: Vec<(String, usize)>)
        ensures
            forall|k: int| 0 <= k < counts@.len() ==> #[trigger] counts@[k].1 == count_command(self@, counts@[k].0@),
            forall|k: int| 0 <= k < counts@.len() ==> count_command(self@, (#[trigger] counts@[k]).0@) > 0,
            forall|k: int, m: int| 0 <= k < m < counts@.len() ==> counts@[k].0@ != counts@[m].0@,
            forall|k: int| 0 <= k < self@.len() ==> #[trigger] names_of(counts@).contains(spec_command(self@[k].fields)),
    {
        let mut counts: Vec<(String, usize)> = Vec::new();
        let mut i: usize = 0;
        while i < self.lines.len()
            invariant
                i <= self.lines@.len(),
                forall|k: int| 0 <= k < counts@.len() ==> #[trigger] counts@[k].1 == count_command(self@.take(i as int), counts@[k].0@),
                forall|k: int| 0 <= k < counts@.len() ==> count_command(self@.take(i as int), (#[trigger] counts@[k]).0@) > 0,
                forall|k: int, m: int| 0 <= k < m < counts@.len() ==> counts@[k].0@ != counts@[m].0@,
                forall|k: int| 0 <= k < i ==> #[trigger] names_of(counts@).contains(spec_command(self@[k].fields)),
                counts@.len() <= i,
            decreases self.lines@.len() - i,
        {
            let cmd = self.lines[i].command();
            let ghost c = cmd@;
            let ghost before = self@.take(i as int);
            proof {
                assert(self@.take(i + 1) =~= before.push(self@[i as int]));
                assert(spec_command(self@[i as int].fields) == c);
            }
            let found = find_count(&counts, cmd);
            let ghost old_counts = counts@;
            match found {
                Some(m) => {
                    let v = counts[m].1;
                    assert(v <= i) by { lemma_count_le(before, c); }
                    let name = copy_str(cmd);
                    counts.set(m, (name, v + 1));
                    assert(names_of(counts@) =~= names_of(old_counts));
                },
                None => {
                    proof { lemma_count_zero(before, c, old_counts); }
                    counts.push((copy_str(cmd), 1));
                    assert(names_of(counts@) =~= names_of(old_counts).push(c));
                },
            }
            proof {
                assert forall|k: int| 0 <= k < counts@.len() implies #[trigger] counts@[k].1 == count_command(self@.take(i + 1), counts@[k].0@) by {
                    lemma_count_push(before, self@[i as int], counts@[k].0@);
                }
                assert forall|k: int| 0 <= k < counts@.len() implies count_command(self@.take(i + 1), (#[trigger] counts@[k]).0@) > 0 by {
                    lemma_count_push(before, self@[i as int], counts@[k].0@);
                }
                assert forall|k: int| 0 <= k < i + 1 implies #[trigger] names_of(counts@).contains(spec_command(self@[k].fields)) by {
                    if k < i {
                        assert(names_of(old_counts).contains(spec_command(self@[k].fields)));
                        let mm = choose|mm: int| 0 <= mm < names_of(old_counts).len() && names_of(old_counts)[mm] == spec_command(self@[k].fields);
                        assert(names_of(counts@)[mm] == names_of(old_counts)[mm]);
                    } else {
                        match found {
                            Some(m) => { assert(names_of(counts@)[m as int] == c); },
                            None => { assert(names_of(counts@)[old_counts.len() as int] == c); },
                        }
                    }
                }
            }
            i += 1;
        }
        assert(self@.take(self.lines@.len() as int) =~= self@);
        counts
    }
}

/// The names of a list of counts.
pub open spec fn names_of(counts: Seq<(String, usize)>) -> Seq<Seq<char>> {
    Seq::new(counts.len(), |i: int| counts[i].0@)
}

/// Position of `name` in a list of counts.
fn find_count(counts: &Vec<(String, usize)>, name: &str) -> (r: Option<usize>)
    ensures
        r matches Some(m) ==> m < counts@.len() && counts@[m as int].0@ == name@,
        r is None ==> !names_of(counts@).contains(name@),
{
    let mut m: usize = 0;
    while m < counts.len()
        invariant
            m <= counts@.len(),
            forall|k: int| 0 <= k < m ==> counts@[k].0@ != name@,
        decreases counts@.len() - m,
    {
        if str_eq(counts[m].0.as_str(), name) {
            return Some(m);
        }
        m += 1;
    }
    proof {
        if names_of(counts@).contains(name@) {
            let k = choose|k: int| 0 <= k < names_of(counts@).len() && names_of(counts@)[k] == name@;
            assert(counts@[k].0@ == name@);
        }
    }
    None
}

/// Number of lines whose command is `c`.
pub open spec fn count_command(ls: Seq<SpecLine>, c: Seq<char>) -> nat
    decreases ls.len(),
{
    if ls.len() == 0 {
        0
    } else {
        count_command(ls.drop_last(), c) + if spec_command(ls.last().fields) == c { 1nat } else { 0nat }
    }
}

proof fn lemma_count_push(ls: Seq<SpecLine>, l: SpecLine, c: Seq<char>)
    ensures
        count_command(ls.push(l), c) == count_command(ls, c) + if spec_command(l.fields) == c { 1nat } else { 0nat },
{
    assert(ls.push(l).drop_last() =~= ls);
}

proof fn lemma_count_le(ls: Seq<SpecLine>, c: Seq<char>)
    ensures
        count_command(ls, c) <= ls.len(),
    decreases ls.len(),
{
    if ls.len() > 0 {
        lemma_count_le(ls.drop_last(), c);
    }
}

proof fn lemma_count_zero(ls: Seq<SpecLine>, c: Seq<char>, counts: Seq<(String, usize)>)
    requires
        forall|k: int| 0 <= k < ls.len() ==> #[trigger] names_of(counts).contains(spec_command(ls[k].fields)),
        !names_of(counts).contains(c),
    ensures
        count_command(ls, c) == 0,
    decreases ls.len(),
{
    if ls.len() > 0 {
        assert forall|k: int| 0 <= k < ls.drop_last().len() implies #[trigger] names_of(counts).contains(spec_command(ls.drop_last()[k].fields)) by {
            assert(ls.drop_last()[k] == ls[k]);
        }
        lemma_count_zero(ls.drop_last(), c, counts);
        assert(names_of(counts).contains(spec_command(ls[ls.len() - 1].fields)));
    }
}

/// The value (`fields[1]`) of the first line whose command is `command`.
pub open spec fn spec_field_value(ls: Seq<SpecLine>, command: Seq<char>) -> Option<Seq<char>>
    decreases ls.len(),
{
    if ls.len() == 0 {
        None
    } else if spec_command(ls[0].fields) == command {
        spec_field(ls[0].fields, 1)
    } else {
        spec_field_value(ls.drop_first(), command)
    }
}

proof fn lemma_first_command_index(ls: Seq<SpecLine>, command: Seq<char>, i: int)
    requires
        0 <= i < ls.len(),
        spec_command(ls[i].fields) == command,
        forall|k: int| 0 <= k < i ==> spec_command(#[trigger] ls[k].fields) != command,
    ensures
        spec_field_value(ls, command) == spec_field(ls[i].fields, 1),
    decreases i,
{
    if i > 0 {
        assert forall|k: int| 0 <= k < i - 1 implies spec_command(#[trigger] ls.drop_first()[k].fields) != command by {
            assert(ls.drop_first()[k] == ls[k + 1]);
        }
        assert(spec_command(ls[0].fields) != command);
        lemma_first_command_index(ls.drop_first(), command, i - 1);
    }
}

proof fn lemma_no_command(ls: Seq<SpecLine>, command: Seq<char>)
    requires
        forall|k: int| 0 <= k < ls.len() ==> spec_command(#[trigger] ls[k].fields) != command,
    ensures
        spec_field_value(ls, command) is None,
    decreases ls.len(),
{
    if ls.len() > 0 {
        assert(spec_command(ls[0].fields) != command);
        assert forall|k: int| 0 <= k < ls.drop_first().len() implies spec_command(#[trigger] ls.drop_first()[k].fields) != command by {
            assert(ls.drop_first()[k] == ls[k + 1]);
        }
        lemma_no_command(ls.drop_first(), command);
    }
}

/// The byte-exact round trip, stated on the executable API: whenever `parse`
/// accepts `raw`, `to_bytes` of the result is `raw`.
pub proof fn lemma_document_round_trip(raw: Seq<u8>, doc: Document)
    requires
        all_file_bytes(raw),
        doc@ == parse_lines(raw),
    ensures
        doc_bytes(doc@) == raw,
{
    lemma_parse_then_serialize(raw);
}

} // verus!
