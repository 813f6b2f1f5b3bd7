//! Yaesu FT-60R (`AH017`) clone-image support — a clone-image-class radio.
//!
//! This radio has no filesystem: it is programmed by moving one fixed-size EEPROM image
//! over a serial clone cable. This module owns the pure, I/O-free facts and codec:
//!
//! - [`CloneSpec`] — the transport constants (baud, image size, block framing, ACK byte,
//!   model magic). No I/O here.
//! - [`Ft60Image`] — `decode`/`encode` of the 28,617-byte image, with a byte-exact
//!   round trip and verbatim preservation of every region we don't model, plus surgical,
//!   change-gated edits ([`Ft60Image::apply_channels`], [`Ft60Image::apply_pms`],
//!   [`Ft60Image::apply_settings`]).

use vstd::prelude::*;
use crate::text::{str_eq, copy_str, decimal, decimal_string, push_decimal, concat_strs};
use super::profile::{CloneCapacity, CloneFieldOptions, CloneImageProfile, FieldOption, RadioClass, RadioProfile, SdCardProfile, ToneValueKind};

verus! {

/// The FT-60R as a radio profile (clone-image class).
#[derive(Debug, Default, Clone, Copy)]
pub struct Ft60;

impl Ft60 {
    pub fn new() -> (r: Self) {
        Ft60
    }
}

/// The serial clone-transport constants for the FT-60. A transport uses these to run
/// the read/write handshake; this struct carries no I/O.
#[derive(Debug, Clone, Copy, PartialEq, Eq)]
pub struct CloneSpec {
    /// Serial line rate (8N1).
    pub baud: u32,
    /// Total decoded EEPROM image size, in bytes.
    pub image_size: usize,
    /// Leading header bytes carrying the model magic.
    pub header_len: usize,
    /// Payload block size the radio streams between ACKs.
    pub block_size: usize,
    /// Number of payload blocks.
    pub block_count: usize,
    /// The byte the PC sends to acknowledge each received block.
    pub ack: u8,
    /// The model-identifying magic at the start of the stream.
    pub magic: &'static [u8],
}

/// The FT-60 model magic, `AH017`.
pub open spec fn ft60_magic() -> Seq<u8> {
    seq![0x41u8, 0x48u8, 0x30u8, 0x31u8, 0x37u8]
}

/// Size of an FT-60 clone image.
pub const IMAGE_SIZE: usize = 28617;

impl CloneSpec {
    /// The FT-60R (`AH017`) clone spec.
    pub fn ft60() -> (s: CloneSpec)
        ensures
            s.baud == 9600,
            s.image_size == IMAGE_SIZE,
            s.header_len == 8,
            s.block_size == 64,
            s.block_count == 448,
            s.ack == 0x06,
            s.magic@ == ft60_magic(),
    {
        let magic: &'static [u8] = &[0x41u8, 0x48u8, 0x30u8, 0x31u8, 0x37u8];
        assert(magic@ =~= ft60_magic());
        CloneSpec {
            baud: 9600,
            image_size: IMAGE_SIZE,
            header_len: 8,
            block_size: 64,
            block_count: 448,
            ack: 0x06,
            magic,
        }
    }

    /// Total bytes expected on the wire = header + all payload blocks.
    pub fn wire_len(&self) -> (r: usize)
        requires
            self.header_len + self.block_count * self.block_size <= usize::MAX,
        ensures
            r == self.header_len + self.block_count * self.block_size,
    {
        proof {
            vstd::arithmetic::mul::lemma_mul_nonnegative(self.block_count as int, self.block_size as int);
        }
        self.header_len + self.block_count * self.block_size
    }

    /// Does `header` begin with this radio's model magic?
    pub fn header_matches(&self, header: &[u8]) -> (r: bool)
        ensures
            r == (header@.len() >= self.magic@.len() && header@.take(self.magic@.len() as int) == self.magic@),
    {
        let n = self.magic.len();
        if header.len() < n {
            return false;
        }
        let mut i: usize = 0;
        while i < n
            invariant
                n == self.magic@.len(),
                n <= header@.len(),
                i <= n,
                forall|k: int| 0 <= k < i ==> header@[k] == self.magic@[k],
            decreases n - i,
        {
            if header[i] != self.magic[i] {
                assert(header@.take(n as int)[i as int] != self.magic@[i as int]);
                return false;
            }
            i += 1;
        }
        assert(header@.take(n as int) =~= self.magic@);
        true
    }
}

// ---------------------------------------------------------------------------
// Fixed layout facts.
// ---------------------------------------------------------------------------

/// Standard memories 000–999.
pub const MEM_BASE: usize = 0x0248;
/// Bytes per memory record.
pub const MEM_LEN: usize = 16;
pub const MEM_COUNT: usize = 1000;
/// Channel alpha tags.
pub const NAME_BASE: usize = 0x4708;
/// 6 chars per name …
pub const NAME_LEN: usize = 6;
/// … stored in an 8-byte slot (6 chars + trailing 0x80 0x80).
pub const NAME_STRIDE: usize = 8;
/// 10 banks × 128-byte bitmap (1 bit/channel).
pub const BANK_BASE: usize = 0x69C8;
pub const BANK_STRIDE: usize = 128;
pub const BANK_COUNT: usize = 10;
/// 2 bits/channel.
pub const SKIP_BASE: usize = 0x6EC8;
/// PMS band-edge records: 100 memory records right after the standard memories,
/// 50 interleaved lower/upper pairs.
pub const PMS_BASE: usize = 0x40C8;
pub const PMS_COUNT: usize = 100;
/// Repeater-shift magnitude field: a big-endian 15-bit value at record bytes 11–12,
/// counted in 50 kHz steps.
pub const OFFSET_LO: usize = 11;
pub const OFFSET_UNIT_HZ: u64 = 50_000;

/// Start of memory record `c`.
pub open spec fn rec_of(c: int) -> int {
    MEM_BASE + c * MEM_LEN
}

/// Start of the name slot of channel `c`.
pub open spec fn name_of(c: int) -> int {
    NAME_BASE + c * NAME_STRIDE
}

/// Byte of bank `b`'s bitmap holding channel `c`.
pub open spec fn bank_byte(b: int, c: int) -> int {
    BANK_BASE + b * BANK_STRIDE + c / 8
}

/// Byte holding channel `c`'s skip bits.
pub open spec fn skip_byte(c: int) -> int {
    SKIP_BASE + c / 4
}

/// Start of PMS record `i`.
pub open spec fn pms_rec(i: int) -> int {
    PMS_BASE + i * MEM_LEN
}

// ---------------------------------------------------------------------------
// Fact tables.
// ---------------------------------------------------------------------------

/// Industry-standard CTCSS tones (Hz ×10), indexed by the radio's `tone` field.
pub open spec fn ctcss_table() -> Seq<u16> {
    seq![
         670u16,  693,  719,  744,  770,  797,  825,  854,  885,  915,
         948,  974, 1000, 1035, 1072, 1109, 1148, 1188, 1230, 1273,
        1318, 1365, 1413, 1462, 1514, 1567, 1598, 1622, 1655, 1679,
        1713, 1738, 1773, 1799, 1835, 1862, 1899, 1928, 1966, 1995,
        2035, 2065, 2107, 2181, 2257, 2291, 2336, 2418, 2503, 2541
    ]
}

/// Industry-standard DCS codes (octal digits), indexed by the radio's `dtcs` field.
pub open spec fn dcs_table() -> Seq<u16> {
    seq![
         23u16,  25,  26,  31,  32,  36,  43,  47,  51,  53,  54,  65,  71,  72,  73,  74,
        114, 115, 116, 122, 125, 131, 132, 134, 143, 145, 152, 155, 156, 162, 165, 172,
        174, 205, 212, 223, 225, 226, 243, 244, 245, 246, 251, 252, 255, 261, 263, 265,
        266, 271, 274, 306, 311, 315, 325, 331, 332, 343, 346, 351, 356, 364, 365, 371,
        411, 412, 413, 423, 431, 432, 445, 446, 452, 454, 455, 462, 464, 465, 466, 503,
        506, 516, 523, 526, 532, 546, 565, 606, 612, 624, 627, 631, 632, 654, 662, 664,
        703, 712, 723, 731, 732, 734, 743, 754
    ]
}

/// Table entry `i`, or 0 past the end.
pub open spec fn table_at(t: Seq<u16>, i: int) -> u16 {
    if 0 <= i < t.len() { t[i] } else { 0 }
}

/// Index of the first table entry equal to `v`, or 0 when absent.
pub open spec fn table_index(t: Seq<u16>, v: u16) -> int {
    if exists|i: int| 0 <= i < t.len() && t[i] == v {
        choose|i: int| 0 <= i < t.len() && t[i] == v && forall|j: int| 0 <= j < i ==> t[j] != v
    } else {
        0
    }
}

fn ctcss_array() -> (t: [u16; 50])
    ensures
        t@ == ctcss_table(),
{
    let t: [u16; 50] = [
         670,  693,  719,  744,  770,  797,  825,  854,  885,  915,
         948,  974, 1000, 1035, 1072, 1109, 1148, 1188, 1230, 1273,
        1318, 1365, 1413, 1462, 1514, 1567, 1598, 1622, 1655, 1679,
        1713, 1738, 1773, 1799, 1835, 1862, 1899, 1928, 1966, 1995,
        2035, 2065, 2107, 2181, 2257, 2291, 2336, 2418, 2503, 2541,
    ];
    assert(t@ =~= ctcss_table());
    t
}

fn dcs_array() -> (t: [u16; 104])
    ensures
        t@ == dcs_table(),
{
    let t: [u16; 104] = [
         23,  25,  26,  31,  32,  36,  43,  47,  51,  53,  54,  65,  71,  72,  73,  74,
        114, 115, 116, 122, 125, 131, 132, 134, 143, 145, 152, 155, 156, 162, 165, 172,
        174, 205, 212, 223, 225, 226, 243, 244, 245, 246, 251, 252, 255, 261, 263, 265,
        266, 271, 274, 306, 311, 315, 325, 331, 332, 343, 346, 351, 356, 364, 365, 371,
        411, 412, 413, 423, 431, 432, 445, 446, 452, 454, 455, 462, 464, 465, 466, 503,
        506, 516, 523, 526, 532, 546, 565, 606, 612, 624, 627, 631, 632, 654, 662, 664,
        703, 712, 723, 731, 732, 734, 743, 754,
    ];
    assert(t@ =~= dcs_table());
    t
}

fn lookup(t: &[u16], i: usize) -> (r: u16)
    ensures
        r == table_at(t@, i as int),
{
    if i < t.len() { t[i] } else { 0 }
}

/// Index of the first entry equal to `v`, or 0.
fn position_of(t: &[u16], v: u16) -> (r: usize)
    ensures
        r == table_index(t@, v),
        t@.len() > 0 ==> r < t@.len(),
{
    let mut i: usize = 0;
    while i < t.len()
        invariant
            i <= t@.len(),
            forall|j: int| 0 <= j < i ==> t@[j] != v,
        decreases t@.len() - i,
    {
        if t[i] == v {
            proof {
                let k = choose|k: int| 0 <= k < t@.len() && t@[k] == v && forall|j: int| 0 <= j < k ==> t@[j] != v;
                if k < i { assert(t@[k] != v); }
                if i < k { assert(t@[i as int] != v); }
            }
            return i;
        }
        i += 1;
    }
    0
}

/// The CTCSS tone at a table index (0 past the end).
pub fn ctcss_at(i: usize) -> (r: u16)
    ensures
        r == table_at(ctcss_table(), i as int),
{
    let t = ctcss_array();
    lookup(&t, i)
}

/// The DCS code at a table index (0 past the end).
pub fn dcs_at(i: usize) -> (r: u16)
    ensures
        r == table_at(dcs_table(), i as int),
{
    let t = dcs_array();
    lookup(&t, i)
}

/// Repeater duplex labels, by the record's duplex nibble.
pub open spec fn duplex_label(i: int) -> Seq<char> {
    if i == 2 {
        "-"@
    } else if i == 3 {
        "+"@
    } else if i == 4 {
        "split"@
    } else if i == 5 {
        "off"@
    } else {
        ""@
    }
}

fn duplex_str(i: u8) -> (r: &'static str)
    ensures
        r@ == duplex_label(i as int),
{
    if i == 2 { "-" } else if i == 3 { "+" } else if i == 4 { "split" } else if i == 5 { "off" } else { "" }
}

/// Index of the first duplex label equal to `d` (0 when none).
pub open spec fn duplex_index(d: Seq<char>) -> int {
    if d == duplex_label(0) { 0 } else if d == duplex_label(2) { 2 } else if d == duplex_label(3) { 3 }
    else if d == duplex_label(4) { 4 } else if d == duplex_label(5) { 5 } else { 0 }
}

fn duplex_index_of(d: &str) -> (r: u8)
    ensures
        r as int == duplex_index(d@),
        r <= 5,
{
    if str_eq(d, "") { 0 } else if str_eq(d, "-") { 2 } else if str_eq(d, "+") { 3 }
    else if str_eq(d, "split") { 4 } else if str_eq(d, "off") { 5 } else { 0 }
}

/// Tone-mode labels (byte 4 low 3 bits). Indices 1–3 use the CTCSS value, 4–5 the DCS
/// value, 6–7 (the cross modes) both.
pub open spec fn tmode_label(i: int) -> Seq<char> {
    if i == 1 { "Tone"@ } else if i == 2 { "TSQL"@ } else if i == 3 { "TSQL-R"@ }
    else if i == 4 { "DTCS"@ } else if i == 5 { "DTCS->"@ } else if i == 6 { "Tone->DTCS"@ }
    else if i == 7 { "DTCS->Tone"@ } else { ""@ }
}

fn tmode_str(i: u8) -> (r: &'static str)
    ensures
        r@ == tmode_label(i as int),
{
    if i == 1 { "Tone" } else if i == 2 { "TSQL" } else if i == 3 { "TSQL-R" }
    else if i == 4 { "DTCS" } else if i == 5 { "DTCS->" } else if i == 6 { "Tone->DTCS" }
    else if i == 7 { "DTCS->Tone" } else { "" }
}

/// Index of the first tone-mode label equal to `m` (0 when none).
pub open spec fn tmode_index(m: Seq<char>) -> int {
    if m == tmode_label(0) { 0 } else if m == tmode_label(1) { 1 } else if m == tmode_label(2) { 2 }
    else if m == tmode_label(3) { 3 } else if m == tmode_label(4) { 4 } else if m == tmode_label(5) { 5 }
    else if m == tmode_label(6) { 6 } else if m == tmode_label(7) { 7 } else { 0 }
}

pub(crate) fn tmode_index_of(m: &str) -> (r: u8)
    ensures
        r as int == tmode_index(m@),
        r <= 7,
{
    if str_eq(m, "") { 0 } else if str_eq(m, "Tone") { 1 } else if str_eq(m, "TSQL") { 2 }
    else if str_eq(m, "TSQL-R") { 3 } else if str_eq(m, "DTCS") { 4 } else if str_eq(m, "DTCS->") { 5 }
    else if str_eq(m, "Tone->DTCS") { 6 } else if str_eq(m, "DTCS->Tone") { 7 } else { 0 }
}

/// Operating modes, indexed by the mode code.
pub fn modes() -> (r: Vec<&'static str>)
    ensures
        r@.len() == 3,
        r@[0]@ == "FM"@,
        r@[1]@ == "NFM"@,
        r@[2]@ == "AM"@,
{
    vec!["FM", "NFM", "AM"]
}

/// TX power levels, indexed by the channel's `power` field.
pub fn power_levels() -> (r: Vec<&'static str>)
    ensures
        r@.len() == 3,
        r@[0]@ == "High"@,
        r@[1]@ == "Mid"@,
        r@[2]@ == "Low"@,
{
    vec!["High", "Mid", "Low"]
}

/// Tone modes, indexed by the record's tone-mode bits.
pub fn tmodes() -> (r: Vec<&'static str>)
    ensures
        r@.len() == 8,
        forall|i: int| 0 <= i < 8 ==> #[trigger] r@[i]@ == tmode_label(i),
{
    let mut v: Vec<&'static str> = Vec::new();
    let mut i: u8 = 0;
    while i < 8
        invariant
            i <= 8,
            v@.len() == i,
            forall|k: int| 0 <= k < i ==> #[trigger] v@[k]@ == tmode_label(k),
        decreases 8 - i,
    {
        v.push(tmode_str(i));
        i += 1;
    }
    v
}

/// Channel tuning steps in Hz, indexed by the channel's `step` field.
pub open spec fn steps_table() -> Seq<u32> {
    seq![5_000u32, 10_000, 12_500, 15_000, 20_000, 25_000, 50_000, 100_000]
}

pub fn steps_hz() -> (r: Vec<u32>)
    ensures
        r@ == steps_table(),
{
    let r = vec![5_000u32, 10_000, 12_500, 15_000, 20_000, 25_000, 50_000, 100_000];
    assert(r@ =~= steps_table());
    r
}

/// The FT-60 name symbol block: glyphs for codes `0x25..=0x3F`, by `byte - 0x25`.
pub open spec fn name_symbols() -> Seq<char> {
    seq![
        '!', '`', 'o', '$', '%', '&', '\'', '(', ')', '*',
        '+', ',', '-', '.', '/', '|', ';', '/', '=', '>',
        '?', '@', '[', 'u', ']', '^', '_'
    ]
}

fn name_symbols_array() -> (t: [char; 27])
    ensures
        t@ == name_symbols(),
{
    let t: [char; 27] = [
        '!', '`', 'o', '$', '%', '&', '\'', '(', ')', '*',
        '+', ',', '-', '.', '/', '|', ';', '/', '=', '>',
        '?', '@', '[', 'u', ']', '^', '_',
    ];
    assert(t@ =~= name_symbols());
    t
}

/// The glyph of an FT-60 name byte: `0x00–09` digits, `0x0A–0x23` `A`–`Z`, `0x24`
/// space, `0x25–0x3F` the symbol block, anything higher space.
pub open spec fn spec_charset_byte(b: u8) -> char {
    if b <= 0x09 {
        ((48u8 + b) as u8) as char
    } else if b <= 0x23 {
        ((65u8 + (b - 0x0A)) as u8) as char
    } else if b == 0x24 {
        ' '
    } else if b <= 0x3F {
        name_symbols()[b - 0x25]
    } else {
        ' '
    }
}

/// FT-60 name charset (a hardware fact).
pub fn charset_byte(b: u8) -> (c: char)
    ensures
        c == spec_charset_byte(b),
{
    if b <= 0x09 {
        (48u8 + b) as char
    } else if b <= 0x23 {
        (65u8 + (b - 0x0A)) as char
    } else if b == 0x24 {
        ' '
    } else if b <= 0x3F {
        let t = name_symbols_array();
        t[(b - 0x25) as usize]
    } else {
        ' '
    }
}

/// Index of the first symbol equal to `c`.
pub open spec fn symbol_index(c: char) -> Option<int> {
    if exists|i: int| 0 <= i < 27 && name_symbols()[i] == c {
        Some(choose|i: int| 0 <= i < 27 && name_symbols()[i] == c && forall|j: int| 0 <= j < i ==> name_symbols()[j] != c)
    } else {
        None
    }
}

/// The FT-60 code of a name character: digits, `A`–`Z` (lowercase folds to
/// uppercase), space and the symbol block map back; anything else becomes `0x24`.
pub open spec fn spec_encode_charset(ch: char) -> u8 {
    if '0' <= ch <= '9' {
        (ch as u32 - '0' as u32) as u8
    } else if 'A' <= ch <= 'Z' {
        (0x0A + (ch as u32 - 'A' as u32)) as u8
    } else if 'a' <= ch <= 'z' {
        (0x0A + (ch as u32 - 'a' as u32)) as u8
    } else if ch == ' ' {
        0x24
    } else {
        match symbol_index(ch) {
            Some(i) => (0x25 + i) as u8,
            None => 0x24,
        }
    }
}

/// Inverse of [`charset_byte`] (see [`spec_encode_charset`]).
pub fn encode_charset(ch: char) -> (b: u8)
    ensures
        b == spec_encode_charset(ch),
{
    if '0' <= ch && ch <= '9' {
        (ch as u32 - '0' as u32) as u8
    } else if 'A' <= ch && ch <= 'Z' {
        (0x0A + (ch as u32 - 'A' as u32)) as u8
    } else if 'a' <= ch && ch <= 'z' {
        (0x0A + (ch as u32 - 'a' as u32)) as u8
    } else if ch == ' ' {
        0x24
    } else {
        let t = name_symbols_array();
        let mut i: usize = 0;
        while i < 27
            invariant
                i <= 27,
                t@ == name_symbols(),
                !('0' <= ch <= '9') && !('A' <= ch <= 'Z') && !('a' <= ch <= 'z') && ch != ' ',
                forall|j: int| 0 <= j < i ==> name_symbols()[j] != ch,
            decreases 27 - i,
        {
            if t[i] == ch {
                proof {
                    assert(name_symbols()[i as int] == ch);
                    assert(exists|k: int| 0 <= k < 27 && name_symbols()[k] == ch);
                    let k = choose|k: int| 0 <= k < 27 && name_symbols()[k] == ch && forall|j: int| 0 <= j < k ==> name_symbols()[j] != ch;
                    if k < i { assert(name_symbols()[k] != ch); }
                    if i < k { assert(name_symbols()[i as int] != ch); }
                }
                return (0x25 + i) as u8;
            }
            i += 1;
        }
        0x24
    }
}

/// The charset round trip: every code except the three decode-only glyphs
/// (`0x27` 'o', `0x36` the second '/', `0x3C` 'u') re-encodes to itself.
pub proof fn lemma_charset_round_trip(b: u8)
    requires
        b <= 0x3F,
        b != 0x27,
        b != 0x36,
        b != 0x3C,
    ensures
        spec_encode_charset(spec_charset_byte(b)) == b,
{
    let s = name_symbols();
    if b >= 0x25 {
        let i = (b - 0x25) as int;
        let c = s[i];
        assert(!('0' <= c <= '9') && !('A' <= c <= 'Z') && !('a' <= c <= 'z') && c != ' ') by {
            assert(s[0] == '!'); assert(s[1] == '`'); assert(s[3] == '$'); assert(s[4] == '%');
            assert(s[5] == '&'); assert(s[6] == '\''); assert(s[7] == '('); assert(s[8] == ')');
            assert(s[9] == '*'); assert(s[10] == '+'); assert(s[11] == ','); assert(s[12] == '-');
            assert(s[13] == '.'); assert(s[14] == '/'); assert(s[15] == '|'); assert(s[16] == ';');
            assert(s[18] == '='); assert(s[19] == '>'); assert(s[20] == '?'); assert(s[21] == '@');
            assert(s[22] == '['); assert(s[24] == ']'); assert(s[25] == '^'); assert(s[26] == '_');
        }
        assert(forall|j: int| 0 <= j < i ==> s[j] != c) by {
            assert(s[0] == '!'); assert(s[1] == '`'); assert(s[2] == 'o'); assert(s[3] == '$'); assert(s[4] == '%');
            assert(s[5] == '&'); assert(s[6] == '\''); assert(s[7] == '('); assert(s[8] == ')');
            assert(s[9] == '*'); assert(s[10] == '+'); assert(s[11] == ','); assert(s[12] == '-');
            assert(s[13] == '.'); assert(s[14] == '/'); assert(s[15] == '|'); assert(s[16] == ';');
            assert(s[17] == '/');
            assert(s[18] == '='); assert(s[19] == '>'); assert(s[20] == '?'); assert(s[21] == '@');
            assert(s[22] == '['); assert(s[23] == 'u'); assert(s[24] == ']'); assert(s[25] == '^'); assert(s[26] == '_');
        }
        let k = choose|k: int| 0 <= k < 27 && s[k] == c && forall|j: int| 0 <= j < k ==> s[j] != c;
        if k < i { assert(s[k] != c); }
        if i < k { assert(s[i] != c); }
    }
}

// ---------------------------------------------------------------------------
// Frequency fields.
// ---------------------------------------------------------------------------

/// Value of a BCD byte read as two decimal digits (nibbles taken at face value).
pub open spec fn nib(x: u8) -> int {
    10 * (x / 16) + (x % 16)
}

/// Decode a 3-byte frequency field to Hz. The first byte's high nibble is a flag: its
/// low nibble is the leading digit and bit `0x80` adds 5 kHz. So the value is 5 BCD
/// digits × 10 kHz, plus 5 kHz when flagged.
pub open spec fn spec_decode_freq(b0: u8, b1: u8, b2: u8) -> u64 {
    (((b0 % 16) as int * 10_000 + nib(b1) * 100 + nib(b2)) * 10_000 + if b0 >= 0x80 { 5_000int } else { 0int }) as u64
}

pub fn decode_freq(b: &[u8]) -> (hz: u64)
    requires
        b@.len() >= 3,
    ensures
        hz == spec_decode_freq(b@[0], b@[1], b@[2]),
{
    let b0 = b[0];
    let b1 = b[1];
    let b2 = b[2];
    let n1 = 10 * (b1 / 16) as u64 + (b1 % 16) as u64;
    let n2 = 10 * (b2 / 16) as u64 + (b2 % 16) as u64;
    let digits = (b0 % 16) as u64 * 10_000 + n1 * 100 + n2;
    digits * 10_000 + if b0 >= 0x80 { 5_000 } else { 0 }
}

/// The three bytes `write_bcd_freq` stores for `hz`, given the old first byte (whose
/// unknown flag bits `0x70` are preserved).
pub open spec fn spec_bcd_bytes(old0: u8, hz: u64) -> (u8, u8, u8) {
    let digits = hz / 10_000;
    let flag5 = hz % 10_000 == 5_000;
    let leading = ((digits / 10_000) % 256) as u8;
    let rem = digits % 10_000;
    let d32 = (rem / 100) as u8;
    let d10 = (rem % 100) as u8;
    (
        ((old0 & 0x70) | (if flag5 { 0x80u8 } else { 0u8 }) | (leading & 0x0F)) as u8,
        ((d32 / 10) * 16 + d32 % 10) as u8,
        ((d10 / 10) * 16 + d10 % 10) as u8,
    )
}

/// Inverse of [`decode_freq`] into a 3-byte field at `at`: 5 BCD digits × 10 kHz,
/// `0x80` = +5 kHz; preserves the unknown flag bits (`0x70`) of the first byte.
pub fn write_bcd_freq(raw: &mut Vec<u8>, at: usize, hz: u64)
    requires
        at + 3 <= old(raw)@.len(),
    ensures
        final(raw)@ == ({
            let (x, y, z) = spec_bcd_bytes(old(raw)@[at as int], hz);
            old(raw)@.update(at as int, x).update(at + 1, y).update(at + 2, z)
        }),
{
    let digits = hz / 10_000;
    let flag5 = hz % 10_000 == 5_000;
    let leading = ((digits / 10_000) % 256) as u8;
    let rem = digits % 10_000;
    assert(rem < 10_000);
    assert(rem / 100 < 100);
    let d32 = (rem / 100) as u8;
    let d10 = (rem % 100) as u8;
    assert(d32 < 100 && d10 < 100);
    assert(d32 / 10 <= 9 && d10 / 10 <= 9 && d32 % 10 <= 9 && d10 % 10 <= 9);
    let old0 = raw[at];
    let _n = raw.len();
    let a1 = at + 1;
    let a2 = at + 2;
    raw.set(at, (old0 & 0x70) | (if flag5 { 0x80u8 } else { 0u8 }) | (leading & 0x0F));
    raw.set(a1, (d32 / 10) * 16 + d32 % 10);
    raw.set(a2, (d10 / 10) * 16 + d10 % 10);
}

/// A frequency field that `write_bcd_freq` reproduces exactly: every digit nibble
/// is a decimal digit.
pub open spec fn is_bcd_field(b0: u8, b1: u8, b2: u8) -> bool {
    b0 % 16 <= 9 && b1 / 16 <= 9 && b1 % 16 <= 9 && b2 / 16 <= 9 && b2 % 16 <= 9
}

/// A frequency the 3-byte field can hold: whole 5 kHz steps on a 10 kHz grid (an
/// optional +5 kHz), below 1.6 GHz.
pub open spec fn encodable_freq(hz: u64) -> bool {
    (hz % 10_000 == 0 || hz % 10_000 == 5_000) && hz / 10_000 < 160_000
}

/// Writing a frequency the field can hold and decoding it gives it back.
pub proof fn lemma_freq_write_read(old0: u8, hz: u64)
    requires
        encodable_freq(hz),
    ensures
        ({
            let (x, y, z) = spec_bcd_bytes(old0, hz);
            spec_decode_freq(x, y, z) == hz
        }),
{
    let digits = hz / 10_000;
    let flag5 = hz % 10_000 == 5_000;
    let lead_i = digits / 10_000;
    let rem = digits % 10_000;
    let d32i = rem / 100;
    let d10i = rem % 100;
    assert(lead_i < 16);
    let leading = (lead_i % 256) as u8;
    assert(leading as int == lead_i);
    let d32 = d32i as u8;
    let d10 = d10i as u8;
    let f: u8 = if flag5 { 0x80u8 } else { 0u8 };
    let x = ((old0 & 0x70) | f | (leading & 0x0F)) as u8;
    let y = ((d32 / 10) * 16 + d32 % 10) as u8;
    let z = ((d10 / 10) * 16 + d10 % 10) as u8;
    assert(spec_bcd_bytes(old0, hz) == (x, y, z));
    assert(leading < 16 ==> (((old0 & 0x70) | f | (leading & 0x0F)) as u8) % 16 == leading) by (bit_vector)
        requires f == 0x80u8 || f == 0u8;
    assert((f == 0x80u8 ==> x >= 0x80) && (f == 0u8 ==> x < 0x80)) by (bit_vector)
        requires x == ((old0 & 0x70) | f | (leading & 0x0F)) as u8;
    assert(d32 < 100 && d10 < 100);
    assert(nib(y) == d32);
    assert(nib(z) == d10);
    assert(digits == lead_i * 10_000 + d32i * 100 + d10i);
    assert(hz == digits * 10_000 + (if flag5 { 5_000int } else { 0int })) by (nonlinear_arith)
        requires digits == hz / 10_000, flag5 == (hz % 10_000 == 5_000), hz % 10_000 == 0 || hz % 10_000 == 5_000;
}

/// Writing back a decoded BCD field leaves its bytes unchanged.
pub proof fn lemma_bcd_round_trip(b0: u8, b1: u8, b2: u8)
    requires
        is_bcd_field(b0, b1, b2),
    ensures
        spec_bcd_bytes(b0, spec_decode_freq(b0, b1, b2)) == (b0, b1, b2),
{
    let hz = spec_decode_freq(b0, b1, b2);
    let digits_i = (b0 % 16) as int * 10_000 + nib(b1) * 100 + nib(b2);
    let extra = if b0 >= 0x80 { 5_000int } else { 0int };
    assert(hz == digits_i * 10_000 + extra);
    assert(hz / 10_000 == digits_i) by (nonlinear_arith)
        requires hz == digits_i * 10_000 + extra, 0 <= extra < 10_000, digits_i >= 0;
    assert(hz % 10_000 == extra) by (nonlinear_arith)
        requires hz == digits_i * 10_000 + extra, 0 <= extra < 10_000, digits_i >= 0;
    assert(digits_i / 10_000 == b0 % 16);
    assert(digits_i % 10_000 == nib(b1) * 100 + nib(b2));
    assert((nib(b1) * 100 + nib(b2)) / 100 == nib(b1));
    assert((nib(b1) * 100 + nib(b2)) % 100 == nib(b2));
    let lead = (b0 % 16) as u8;
    assert(((b0 & 0x70) | (if b0 >= 0x80 { 0x80u8 } else { 0u8 }) | (lead & 0x0F)) == b0) by (bit_vector)
        requires lead == b0 % 16;
    assert(((b1 / 16) * 10 + b1 % 16) / 10 == b1 / 16);
    assert(((b1 / 16) * 10 + b1 % 16) % 10 == b1 % 16);
    assert(((b2 / 16) * 10 + b2 % 16) / 10 == b2 / 16);
    assert(((b2 / 16) * 10 + b2 % 16) % 10 == b2 % 16);
}

// ---------------------------------------------------------------------------
// The checksum.
// ---------------------------------------------------------------------------

/// Sum of the first `n` bytes.
pub open spec fn byte_sum(s: Seq<u8>, n: int) -> int
    decreases n,
{
    if n <= 0 { 0 } else { byte_sum(s, n - 1) + s[n - 1] }
}

/// The FT-60 image checksum: the low 8 bits of the sum of every byte but the last.
pub open spec fn spec_checksum(s: Seq<u8>) -> u8 {
    (byte_sum(s, s.len() - 1) % 256) as u8
}

/// The image with its trailing checksum byte recomputed.
pub open spec fn with_checksum(s: Seq<u8>) -> Seq<u8> {
    s.update(s.len() - 1, spec_checksum(s))
}

proof fn lemma_byte_sum_bound(s: Seq<u8>, n: int)
    requires
        0 <= n <= s.len(),
    ensures
        0 <= byte_sum(s, n) <= 255 * n,
    decreases n,
{
    if n > 0 {
        lemma_byte_sum_bound(s, n - 1);
    }
}

proof fn lemma_byte_sum_prefix(s: Seq<u8>, t: Seq<u8>, n: int)
    requires
        0 <= n <= s.len(),
        n <= t.len(),
        forall|i: int| 0 <= i < n ==> s[i] == t[i],
    ensures
        byte_sum(s, n) == byte_sum(t, n),
    decreases n,
{
    if n > 0 {
        lemma_byte_sum_prefix(s, t, n - 1);
    }
}

proof fn lemma_byte_sum_mono(s: Seq<u8>, i: int, j: int)
    requires
        0 <= i <= j <= s.len(),
    ensures
        byte_sum(s, i) <= byte_sum(s, j),
    decreases j - i,
{
    if i < j {
        lemma_byte_sum_mono(s, i, j - 1);
    }
}

/// The checksum of an image. The running sum is a `u32`, so the bytes before the
/// last must not sum past `u32::MAX`.
pub fn checksum(bytes: &[u8]) -> (c: u8)
    requires
        bytes@.len() >= 1,
        byte_sum(bytes@, bytes@.len() - 1) <= u32::MAX,
    ensures
        c == spec_checksum(bytes@),
{
    let n = bytes.len() - 1;
    let mut acc: u32 = 0;
    let mut i: usize = 0;
    while i < n
        invariant
            n == bytes@.len() - 1,
            byte_sum(bytes@, n as int) <= u32::MAX,
            i <= n,
            acc as int == byte_sum(bytes@, i as int),
        decreases n - i,
    {
        proof { lemma_byte_sum_mono(bytes@, i + 1, n as int); }
        acc = acc + bytes[i] as u32;
        i += 1;
    }
    (acc % 256) as u8
}

/// Recomputing the checksum only rewrites the last byte, and the result carries a
/// valid checksum.
pub proof fn lemma_with_checksum_valid(s: Seq<u8>)
    requires
        s.len() >= 1,
    ensures
        with_checksum(s).len() == s.len(),
        spec_checksum(with_checksum(s)) == spec_checksum(s),
        with_checksum(s)[s.len() - 1] == spec_checksum(with_checksum(s)),
        with_checksum(with_checksum(s)) == with_checksum(s),
{
    let w = with_checksum(s);
    lemma_byte_sum_prefix(s, w, s.len() - 1);
    assert(with_checksum(w) =~= w);
}


// ---------------------------------------------------------------------------
// The decoded channel model.
// ---------------------------------------------------------------------------

/// Squelch tone as interpreted from a memory record.
#[derive(Debug, Clone, Copy, PartialEq, Eq, Structural)]
pub enum Tone {
    /// No squelch tone.
    NoTone,
    /// CTCSS tone in Hz ×10 (e.g. 1000 = 100.0 Hz).
    Ctcss(u16),
    /// DCS/DTCS octal code.
    Dcs(u16),
    /// A cross tone mode (`Tone->DTCS` / `DTCS->Tone`) that carries both a CTCSS tone
    /// (Hz ×10) and a DCS code, each stored in its own field (byte 8 / byte 9).
    Cross { ctcss: u16, dcs: u16 },
}

/// One decoded FT-60 standard memory channel (a used slot). Frequencies in Hz.
#[derive(Debug, Clone, PartialEq)]
pub struct Ft60Channel {
    /// 0-based slot (0..1000; UI shows slot+1).
    pub slot: u16,
    /// 6-char name (the radio's charset, trailing pad trimmed).
    pub name: String,
    pub rx_hz: u64,
    /// Repeater duplex: "", "-", "+", "split", "off".
    pub duplex: &'static str,
    /// Offset in Hz (for +/- duplex).
    pub offset_hz: u64,
    /// TX frequency in Hz — used for "split" duplex (bytes 5–7).
    pub tx_hz: u64,
    /// FM / NFM / AM.
    pub mode: &'static str,
    /// Tone-mode label (see [`tmodes`]); the CTCSS/DCS value lives in `tone`.
    pub tone_mode: &'static str,
    pub tone: Tone,
    /// TX power index: 0 = High, 1 = Mid, 2 = Low.
    pub power: u8,
    /// Tuning-step index into [`steps_hz`].
    pub step: u8,
    /// Banks (0-based) this channel belongs to.
    pub banks: Vec<u8>,
    /// Skip flag: "" / "S" (skip) / "P" (preferred).
    pub skip: &'static str,
}

/// The mathematical content of a channel.
pub struct SpecChannel {
    pub slot: u16,
    pub name: Seq<char>,
    pub rx_hz: u64,
    pub duplex: Seq<char>,
    pub offset_hz: u64,
    pub tx_hz: u64,
    pub mode: Seq<char>,
    pub tone_mode: Seq<char>,
    pub tone: Tone,
    pub power: u8,
    pub step: u8,
    pub banks: Seq<u8>,
    pub skip: Seq<char>,
}

impl View for Ft60Channel {
    type V = SpecChannel;

    open spec fn view(&self) -> SpecChannel {
        SpecChannel {
            slot: self.slot,
            name: self.name@,
            rx_hz: self.rx_hz,
            duplex: self.duplex@,
            offset_hz: self.offset_hz,
            tx_hz: self.tx_hz,
            mode: self.mode@,
            tone_mode: self.tone_mode@,
            tone: self.tone,
            power: self.power,
            step: self.step,
            banks: self.banks@,
            skip: self.skip@,
        }
    }
}

/// The mode a mode code names: 1 = NFM, 2 = AM, anything else FM.
pub open spec fn code_mode(m: u8) -> Seq<char> {
    if m == 1 { "NFM"@ } else if m == 2 { "AM"@ } else { "FM"@ }
}

/// The tone a tone-mode code carries: CTCSS (codes 1–3), DCS (4–5), both for the
/// cross modes (6–7, CTCSS in `v`, DCS in `v2`), else none.
pub open spec fn code_tone(tm: u8, v: u16, v2: u16) -> Tone {
    if 1 <= tm <= 3 {
        Tone::Ctcss(v)
    } else if 4 <= tm <= 5 {
        Tone::Dcs(v)
    } else if 6 <= tm <= 7 {
        Tone::Cross { ctcss: v, dcs: v2 }
    } else {
        Tone::NoTone
    }
}

/// The skip flag a code names: 1 = `S`, 2 = `P`, else none.
pub open spec fn code_skip(k: u8) -> Seq<char> {
    if k == 1 { "S"@ } else if k == 2 { "P"@ } else { ""@ }
}

/// The duplex a code names: 2 = `-`, 3 = `+`, 4 = `split`, 5 = `off`, else simplex.
pub open spec fn code_duplex(d: u8) -> Seq<char> {
    if d == 2 { "-"@ } else if d == 3 { "+"@ } else if d == 4 { "split"@ } else if d == 5 { "off"@ } else { ""@ }
}

/// The banks (below `n`) whose bit is set in `mask`, ascending.
pub open spec fn bank_list(mask: u16, n: u8) -> Seq<u8>
    decreases n,
{
    if n == 0 {
        Seq::empty()
    } else {
        let prev = bank_list(mask, (n - 1) as u8);
        if mask & (1u16 << ((n - 1) as u8)) != 0 { prev.push((n - 1) as u8) } else { prev }
    }
}

/// The channel a set of codes describes (the layout a foreign caller passes):
/// mode, tone-mode, tone, duplex and skip by code, banks as a bit mask over
/// banks 0–9.
pub open spec fn spec_channel_from_codes(
    slot: u16,
    name: Seq<char>,
    rx_hz: u64,
    offset_hz: u32,
    tx_hz: u32,
    mode: u8,
    tone_mode: u8,
    tone_value: u16,
    tone_value2: u16,
    duplex: u8,
    power: u8,
    step: u8,
    skip: u8,
    banks: u16,
) -> SpecChannel {
    SpecChannel {
        slot,
        name,
        rx_hz,
        duplex: code_duplex(duplex),
        offset_hz: offset_hz as u64,
        tx_hz: tx_hz as u64,
        mode: code_mode(mode),
        tone_mode: tmode_label(tone_mode as int),
        tone: code_tone(tone_mode, tone_value, tone_value2),
        power,
        step,
        banks: bank_list(banks, 10),
        skip: code_skip(skip),
    }
}

/// Build a channel from codes: mode 0=FM 1=NFM 2=AM; `tone_mode` an index into
/// [`tmodes`], `tone_value` the CTCSS Hz×10 (modes 1–3) or DCS code (4–5),
/// both for the cross modes (6–7, DCS in `tone_value2`); duplex 0=simplex
/// 2=`-` 3=`+` 4=split 5=off; skip 1=`S` 2=`P`; bit *b* of `banks` → bank *b*.
pub fn channel_from_codes(
    slot: u16,
    name: &str,
    rx_hz: u64,
    offset_hz: u32,
    tx_hz: u32,
    mode: u8,
    tone_mode: u8,
    tone_value: u16,
    tone_value2: u16,
    duplex: u8,
    power: u8,
    step: u8,
    skip: u8,
    banks: u16,
) -> (r: Ft60Channel)
    ensures
        r@ == spec_channel_from_codes(
            slot,
            name@,
            rx_hz,
            offset_hz,
            tx_hz,
            mode,
            tone_mode,
            tone_value,
            tone_value2,
            duplex,
            power,
            step,
            skip,
            banks,
        ),
{
    let m: &'static str = if mode == 1 { "NFM" } else if mode == 2 { "AM" } else { "FM" };
    let tone = if 1 <= tone_mode && tone_mode <= 3 {
        Tone::Ctcss(tone_value)
    } else if 4 <= tone_mode && tone_mode <= 5 {
        Tone::Dcs(tone_value)
    } else if 6 <= tone_mode && tone_mode <= 7 {
        Tone::Cross { ctcss: tone_value, dcs: tone_value2 }
    } else {
        Tone::NoTone
    };
    let sk: &'static str = if skip == 1 { "S" } else if skip == 2 { "P" } else { "" };
    let dx: &'static str = if duplex == 2 {
        "-"
    } else if duplex == 3 {
        "+"
    } else if duplex == 4 {
        "split"
    } else if duplex == 5 {
        "off"
    } else {
        ""
    };
    let mut bl: Vec<u8> = Vec::new();
    let mut b: u8 = 0;
    while b < 10
        invariant
            b <= 10,
            bl@ == bank_list(banks, b),
        decreases 10 - b,
    {
        if banks & (1u16 << b) != 0 {
            bl.push(b);
        }
        b += 1;
    }
    Ft60Channel {
        slot,
        name: copy_str(name),
        rx_hz,
        duplex: dx,
        offset_hz: offset_hz as u64,
        tx_hz: tx_hz as u64,
        mode: m,
        tone_mode: tmode_str(tone_mode),
        tone,
        power,
        step,
        banks: bl,
        skip: sk,
    }
}

pub open spec fn channels_view(v: Seq<Ft60Channel>) -> Seq<SpecChannel> {
    Seq::new(v.len(), |i: int| v[i]@)
}

/// Is slot `c` in use?
pub open spec fn spec_used(r: Seq<u8>, c: int) -> bool {
    r[rec_of(c)] >= 0x80
}

pub open spec fn spec_mode(b0: u8) -> Seq<char> {
    if b0 & 0x10 != 0 { "AM"@ } else if b0 & 0x20 != 0 { "NFM"@ } else { "FM"@ }
}

pub open spec fn spec_rx(r: Seq<u8>, c: int) -> u64 {
    spec_decode_freq(r[rec_of(c) + 1], r[rec_of(c) + 2], r[rec_of(c) + 3])
}

pub open spec fn spec_tx(r: Seq<u8>, c: int) -> u64 {
    spec_decode_freq(r[rec_of(c) + 5], r[rec_of(c) + 6], r[rec_of(c) + 7])
}

pub open spec fn spec_duplex(r: Seq<u8>, c: int) -> Seq<char> {
    duplex_label((r[rec_of(c)] % 16) as int)
}

pub open spec fn spec_tmode(r: Seq<u8>, c: int) -> Seq<char> {
    tmode_label((r[rec_of(c) + 4] % 8) as int)
}

pub open spec fn spec_power(r: Seq<u8>, c: int) -> u8 {
    r[rec_of(c) + 8] / 64
}

pub open spec fn spec_step(r: Seq<u8>, c: int) -> u8 {
    (r[rec_of(c) + 4] / 16) % 8
}

pub open spec fn spec_offset(r: Seq<u8>, c: int) -> u64 {
    (((r[rec_of(c) + OFFSET_LO] % 128) as int * 256 + r[rec_of(c) + OFFSET_LO + 1] as int) * 50_000) as u64
}

pub open spec fn spec_tone(r: Seq<u8>, c: int) -> Tone {
    let t = r[rec_of(c) + 4] % 8;
    let ct = table_at(ctcss_table(), (r[rec_of(c) + 8] % 64) as int);
    let dc = table_at(dcs_table(), (r[rec_of(c) + 9] % 128) as int);
    if 1 <= t <= 3 {
        Tone::Ctcss(ct)
    } else if 4 <= t <= 5 {
        Tone::Dcs(dc)
    } else if 6 <= t <= 7 {
        Tone::Cross { ctcss: ct, dcs: dc }
    } else {
        Tone::NoTone
    }
}

/// Drop trailing spaces.
pub open spec fn trim_spaces(s: Seq<char>) -> Seq<char>
    decreases s.len(),
{
    if s.len() > 0 && s.last() == ' ' { trim_spaces(s.drop_last()) } else { s }
}

pub open spec fn raw_name_chars(r: Seq<u8>, c: int) -> Seq<char> {
    Seq::new(6, |i: int| spec_charset_byte(r[name_of(c) + i]))
}

pub open spec fn spec_name(r: Seq<u8>, c: int) -> Seq<char> {
    trim_spaces(raw_name_chars(r, c))
}

/// The bit of channel `c` within a bank byte.
pub open spec fn bank_bit(c: int) -> u8 {
    (1u8 << ((c % 8) as u8)) as u8
}

pub open spec fn in_bank(r: Seq<u8>, b: int, c: int) -> bool {
    r[bank_byte(b, c)] & bank_bit(c) != 0
}

/// Banks `0..n` that hold channel `c`, ascending.
pub open spec fn banks_upto(r: Seq<u8>, c: int, n: int) -> Seq<u8>
    decreases n,
{
    if n <= 0 {
        Seq::empty()
    } else if in_bank(r, n - 1, c) {
        banks_upto(r, c, n - 1).push((n - 1) as u8)
    } else {
        banks_upto(r, c, n - 1)
    }
}

pub open spec fn spec_banks(r: Seq<u8>, c: int) -> Seq<u8> {
    banks_upto(r, c, BANK_COUNT as int)
}

pub open spec fn skip_shift(c: int) -> u8 {
    ((c % 4) * 2) as u8
}

pub open spec fn skip_bits(r: Seq<u8>, c: int) -> u8 {
    (r[skip_byte(c)] >> skip_shift(c)) & 3
}

pub open spec fn spec_skip(r: Seq<u8>, c: int) -> Seq<char> {
    let b = skip_bits(r, c);
    if b == 1 { "S"@ } else if b == 2 { "P"@ } else { ""@ }
}

/// The channel slot `c` decodes to.
pub open spec fn spec_channel(r: Seq<u8>, c: int) -> SpecChannel {
    SpecChannel {
        slot: c as u16,
        name: spec_name(r, c),
        rx_hz: spec_rx(r, c),
        duplex: spec_duplex(r, c),
        offset_hz: spec_offset(r, c),
        tx_hz: spec_tx(r, c),
        mode: spec_mode(r[rec_of(c)]),
        tone_mode: spec_tmode(r, c),
        tone: spec_tone(r, c),
        power: spec_power(r, c),
        step: spec_step(r, c),
        banks: spec_banks(r, c),
        skip: spec_skip(r, c),
    }
}

/// The used channels among slots `0..n`, in slot order.
pub open spec fn decoded_upto(r: Seq<u8>, n: int) -> Seq<SpecChannel>
    decreases n,
{
    if n <= 0 {
        Seq::empty()
    } else if spec_used(r, n - 1) {
        decoded_upto(r, n - 1).push(spec_channel(r, n - 1))
    } else {
        decoded_upto(r, n - 1)
    }
}

pub open spec fn spec_channels(r: Seq<u8>) -> Seq<SpecChannel> {
    decoded_upto(r, MEM_COUNT as int)
}

// ---------------------------------------------------------------------------
// The write side, as functions on the image bytes. Each setter touches only the
// bits it owns; the ones whose layout hides bits we don't invert are change-gated.
// ---------------------------------------------------------------------------

pub open spec fn spec_set_used(r: Seq<u8>, c: int, used: bool) -> Seq<u8> {
    r.update(rec_of(c), if used { r[rec_of(c)] | 0x80 } else { r[rec_of(c)] & 0x7F })
}

pub open spec fn write_freq_at(r: Seq<u8>, at: int, hz: u64) -> Seq<u8> {
    let (x, y, z) = spec_bcd_bytes(r[at], hz);
    r.update(at, x).update(at + 1, y).update(at + 2, z)
}

pub open spec fn spec_set_freq(r: Seq<u8>, c: int, hz: u64) -> Seq<u8> {
    if spec_rx(r, c) == hz { r } else { write_freq_at(r, rec_of(c) + 1, hz) }
}

pub open spec fn spec_set_tx_freq(r: Seq<u8>, c: int, hz: u64) -> Seq<u8> {
    if spec_tx(r, c) == hz { r } else { write_freq_at(r, rec_of(c) + 5, hz) }
}

pub open spec fn spec_set_power(r: Seq<u8>, c: int, p: u8) -> Seq<u8> {
    if spec_power(r, c) == p {
        r
    } else {
        r.update(rec_of(c) + 8, (r[rec_of(c) + 8] & 0x3F) | ((p & 0x03) << 6))
    }
}

pub open spec fn spec_set_step(r: Seq<u8>, c: int, st: u8) -> Seq<u8> {
    if spec_step(r, c) == st {
        r
    } else {
        r.update(rec_of(c) + 4, (r[rec_of(c) + 4] & 0x8F) | ((st & 0x07) << 4))
    }
}

pub open spec fn mode_bits(m: Seq<char>) -> u8 {
    if m == "AM"@ { 0x10 } else if m == "NFM"@ { 0x20 } else { 0 }
}

pub open spec fn spec_set_mode(r: Seq<u8>, c: int, m: Seq<char>) -> Seq<u8> {
    if spec_mode(r[rec_of(c)]) == m { r } else { r.update(rec_of(c), (r[rec_of(c)] & 0xCF) | mode_bits(m)) }
}

pub open spec fn spec_set_duplex(r: Seq<u8>, c: int, d: Seq<char>) -> Seq<u8> {
    if spec_duplex(r, c) == d {
        r
    } else {
        r.update(rec_of(c), (r[rec_of(c)] & 0xF0) | (duplex_index(d) as u8))
    }
}

pub open spec fn offset_units(hz: u64) -> u16 {
    if hz / 50_000 > 0x7FFF { 0x7FFF } else { (hz / 50_000) as u16 }
}

pub open spec fn spec_set_offset(r: Seq<u8>, c: int, hz: u64) -> Seq<u8> {
    if spec_offset(r, c) == hz {
        r
    } else {
        let u = offset_units(hz);
        let at = rec_of(c) + OFFSET_LO;
        r.update(at, (r[at] & 0x80) | ((u / 256) as u8 & 0x7F)).update(at + 1, (u % 256) as u8)
    }
}

pub open spec fn set_tone_values(r: Seq<u8>, c: int, tone: Tone) -> Seq<u8> {
    let at8 = rec_of(c) + 8;
    let at9 = rec_of(c) + 9;
    match tone {
        Tone::NoTone => r,
        Tone::Ctcss(hz) => r.update(at8, (r[at8] & 0xC0) | (table_index(ctcss_table(), hz) as u8 & 0x3F)),
        Tone::Dcs(code) => r.update(at9, (r[at9] & 0x80) | (table_index(dcs_table(), code) as u8 & 0x7F)),
        Tone::Cross { ctcss, dcs } => {
            let r1 = r.update(at8, (r[at8] & 0xC0) | (table_index(ctcss_table(), ctcss) as u8 & 0x3F));
            r1.update(at9, (r1[at9] & 0x80) | (table_index(dcs_table(), dcs) as u8 & 0x7F))
        },
    }
}

pub open spec fn spec_set_tone(r: Seq<u8>, c: int, mode: Seq<char>, tone: Tone) -> Seq<u8> {
    let at4 = rec_of(c) + 4;
    let r1 = if spec_tmode(r, c) != mode {
        r.update(at4, (r[at4] & 0xF8) | (tmode_index(mode) as u8))
    } else {
        r
    };
    if spec_tone(r, c) != tone { set_tone_values(r1, c, tone) } else { r1 }
}

/// The 6 name bytes stored for `name`: its first six characters encoded, padded
/// with `0x24` (space).
pub open spec fn name_bytes(name: Seq<char>) -> Seq<u8> {
    Seq::new(6, |i: int| if i < name.len() { spec_encode_charset(name[i]) } else { 0x24u8 })
}

pub open spec fn spec_set_name(r: Seq<u8>, c: int, name: Seq<char>) -> Seq<u8> {
    if spec_name(r, c) == name {
        r
    } else {
        let nb = name_bytes(name);
        let at = name_of(c);
        Seq::new(r.len(), |i: int|
            if at <= i < at + 6 { nb[i - at] } else if at + 6 <= i < at + 8 { 0x80u8 } else { r[i] })
    }
}

pub open spec fn set_bank_bit(x: u8, c: int, member: bool) -> u8 {
    if member { x | bank_bit(c) } else { x & !bank_bit(c) }
}

pub open spec fn spec_set_banks_upto(r: Seq<u8>, c: int, banks: Seq<u8>, n: int) -> Seq<u8>
    decreases n,
{
    if n <= 0 {
        r
    } else {
        let r1 = spec_set_banks_upto(r, c, banks, n - 1);
        let at = bank_byte(n - 1, c);
        r1.update(at, set_bank_bit(r1[at], c, banks.contains((n - 1) as u8)))
    }
}

pub open spec fn spec_set_banks(r: Seq<u8>, c: int, banks: Seq<u8>) -> Seq<u8> {
    spec_set_banks_upto(r, c, banks, BANK_COUNT as int)
}

pub open spec fn skip_value(s: Seq<char>) -> u8 {
    if s == "S"@ { 1 } else if s == "P"@ { 2 } else { 0 }
}

pub open spec fn spec_set_skip(r: Seq<u8>, c: int, s: Seq<char>) -> Seq<u8> {
    let at = skip_byte(c);
    let sh = skip_shift(c);
    if spec_skip(r, c) == s { r } else { r.update(at, (r[at] & !((3u8 << sh) as u8)) | ((skip_value(s) << sh) as u8)) }
}

#[verifier::opaque]
pub open spec fn spec_clear_slot(r: Seq<u8>, c: int) -> Seq<u8> {
    if !spec_used(r, c) {
        r
    } else {
        spec_set_skip(spec_set_banks(spec_set_used(r, c, false), c, Seq::empty()), c, ""@)
    }
}

/// Program slot `c` with a channel (every field, each setter in turn).
#[verifier::opaque]
pub open spec fn spec_program(r: Seq<u8>, c: int, ch: SpecChannel) -> Seq<u8> {
    let r1 = spec_set_used(r, c, true);
    let r2 = spec_set_freq(r1, c, ch.rx_hz);
    let r3 = spec_set_mode(r2, c, ch.mode);
    let r4 = spec_set_duplex(r3, c, ch.duplex);
    let r5 = spec_set_offset(r4, c, ch.offset_hz);
    let r6 = spec_set_tx_freq(r5, c, ch.tx_hz);
    let r7 = spec_set_tone(r6, c, ch.tone_mode, ch.tone);
    let r8 = spec_set_power(r7, c, ch.power);
    let r9 = spec_set_step(r8, c, ch.step);
    let r10 = spec_set_name(r9, c, ch.name);
    let r11 = spec_set_banks(r10, c, ch.banks);
    spec_set_skip(r11, c, ch.skip)
}

/// Index of the last desired channel for slot `s`.
pub open spec fn last_with_slot(d: Seq<SpecChannel>, s: int) -> Option<int>
    decreases d.len(),
{
    if d.len() == 0 {
        None
    } else if d.last().slot as int == s {
        Some(d.len() - 1)
    } else {
        last_with_slot(d.drop_last(), s)
    }
}

/// Program or clear slots `0..n` in turn, per the desired channel set.
pub open spec fn apply_slots(r: Seq<u8>, d: Seq<SpecChannel>, n: int) -> Seq<u8>
    decreases n,
{
    if n <= 0 {
        r
    } else {
        let r1 = apply_slots(r, d, n - 1);
        match last_with_slot(d, n - 1) {
            Some(k) => spec_program(r1, n - 1, d[k]),
            None => spec_clear_slot(r1, n - 1),
        }
    }
}

/// The desired channel set applied to an image, with the checksum recomputed.
pub open spec fn spec_apply_channels(r: Seq<u8>, d: Seq<SpecChannel>) -> Seq<u8> {
    with_checksum(apply_slots(r, d, MEM_COUNT as int))
}


// ---------------------------------------------------------------------------
// The image.
// ---------------------------------------------------------------------------

/// A decoded FT-60 clone image. Owns the raw bytes so `encode` is byte-exact.
#[derive(Debug, Clone)]
pub struct Ft60Image {
    raw: Vec<u8>,
}

impl View for Ft60Image {
    type V = Seq<u8>;

    closed spec fn view(&self) -> Seq<u8> {
        self.raw@
    }
}

impl Ft60Image {
    /// The image holds exactly one clone image's worth of bytes.
    pub closed spec fn wf(&self) -> bool {
        self.raw@.len() == IMAGE_SIZE
    }

    pub proof fn lemma_wf(&self)
        requires
            self.wf(),
        ensures
            self@.len() == IMAGE_SIZE,
    {
    }

    /// Validate + wrap a clone image. Requires the full image size and the model magic.
    pub fn decode(bytes: &[u8]) -> (res: Result<Self, &'static str>)
        ensures
            match res {
                Ok(img) => {
                    &&& bytes@.len() >= IMAGE_SIZE
                    &&& bytes@.take(5) == ft60_magic()
                    &&& img.wf()
                    &&& img@ == bytes@.take(IMAGE_SIZE as int)
                },
                Err(e) => if bytes@.len() < IMAGE_SIZE {
                    e@ == "image too short"@
                } else {
                    bytes@.take(5) != ft60_magic() && e@ == "not an FT-60 image (bad magic)"@
                },
            },
    {
        let spec = CloneSpec::ft60();
        if bytes.len() < spec.image_size {
            return Err("image too short");
        }
        if !spec.header_matches(bytes) {
            return Err("not an FT-60 image (bad magic)");
        }
        let mut raw: Vec<u8> = Vec::new();
        let mut i: usize = 0;
        while i < IMAGE_SIZE
            invariant
                i <= IMAGE_SIZE <= bytes@.len(),
                raw@ == bytes@.take(i as int),
            decreases IMAGE_SIZE - i,
        {
            raw.push(bytes[i]);
            i += 1;
            assert(raw@ =~= bytes@.take(i as int));
        }
        Ok(Ft60Image { raw })
    }

    /// The image bytes back, with the trailing checksum recomputed. For an unmodified
    /// image whose stored checksum is valid this is the identity
    /// ([`lemma_decode_encode_identity`]).
    pub fn encode(&self) -> (out: Vec<u8>)
        requires
            self.wf(),
        ensures
            out@ == with_checksum(self@),
    {
        let mut out: Vec<u8> = Vec::new();
        let mut i: usize = 0;
        while i < self.raw.len()
            invariant
                i <= self.raw@.len(),
                out@ == self.raw@.take(i as int),
            decreases self.raw@.len() - i,
        {
            out.push(self.raw[i]);
            i += 1;
            assert(out@ =~= self.raw@.take(i as int));
        }
        assert(out@ =~= self.raw@);
        let n = out.len();
        proof { lemma_byte_sum_bound(out@, n - 1); }
        let c = checksum(out.as_slice());
        out.set(n - 1, c);
        out
    }

    /// The raw image bytes.
    pub fn raw(&self) -> (r: &[u8])
        ensures
            r@ == self@,
    {
        self.raw.as_slice()
    }

    fn recompute_checksum(&mut self)
        requires
            old(self).wf(),
        ensures
            final(self).wf(),
            final(self)@ == with_checksum(old(self)@),
    {
        let n = self.raw.len();
        proof { lemma_byte_sum_bound(self.raw@, n - 1); }
        let c = checksum(self.raw.as_slice());
        self.raw.set(n - 1, c);
    }

    // -- Read side -------------------------------------------------------------

    fn channel_used(&self, c: usize) -> (r: bool)
        requires
            self.wf(),
            c < MEM_COUNT,
        ensures
            r == spec_used(self@, c as int),
    {
        self.raw[MEM_BASE + c * MEM_LEN] >= 0x80
    }

    fn channel_name(&self, c: usize) -> (r: String)
        requires
            self.wf(),
            c < MEM_COUNT,
        ensures
            r@ == spec_name(self@, c as int),
    {
        let start = NAME_BASE + c * NAME_STRIDE;
        let ghost chars = raw_name_chars(self@, c as int);
        let mut end: usize = NAME_LEN;
        assert(chars.take(6) =~= chars);
        while end > 0 && charset_byte(self.raw[start + end - 1]) == ' '
            invariant
                end <= NAME_LEN,
                start == name_of(c as int),
                c < MEM_COUNT,
                self.wf(),
                chars == raw_name_chars(self@, c as int),
                trim_spaces(chars.take(end as int)) == spec_name(self@, c as int),
            decreases end,
        {
            proof {
                let t = chars.take(end as int);
                assert(t.last() == chars[end - 1]);
                assert(t.drop_last() =~= chars.take(end - 1));
            }
            end -= 1;
        }
        proof {
            let t = chars.take(end as int);
            if end > 0 {
                assert(t.last() == chars[end - 1]);
            }
            assert(trim_spaces(t) == t);
        }
        let mut out = String::new();
        let mut i: usize = 0;
        while i < end
            invariant
                i <= end <= NAME_LEN,
                start == name_of(c as int),
                c < MEM_COUNT,
                self.wf(),
                chars == raw_name_chars(self@, c as int),
                out@ == chars.take(i as int),
            decreases end - i,
        {
            out.push(charset_byte(self.raw[start + i]));
            i += 1;
            assert(out@ =~= chars.take(i as int));
        }
        assert(chars.take(end as int) == trim_spaces(chars.take(end as int)));
        out
    }

    fn channel_banks(&self, c: usize) -> (r: Vec<u8>)
        requires
            self.wf(),
            c < MEM_COUNT,
        ensures
            r@ == spec_banks(self@, c as int),
    {
        let mut banks: Vec<u8> = Vec::new();
        let bit: u8 = 1u8 << ((c % 8) as u8);
        let mut b: usize = 0;
        while b < BANK_COUNT
            invariant
                b <= BANK_COUNT,
                c < MEM_COUNT,
                self.wf(),
                bit == bank_bit(c as int),
                banks@ == banks_upto(self@, c as int, b as int),
            decreases BANK_COUNT - b,
        {
            let byte = self.raw[BANK_BASE + b * BANK_STRIDE + c / 8];
            if byte & bit != 0 {
                banks.push(b as u8);
            }
            b += 1;
        }
        banks
    }

    fn channel_skip(&self, c: usize) -> (r: &'static str)
        requires
            self.wf(),
            c < MEM_COUNT,
        ensures
            r@ == spec_skip(self@, c as int),
    {
        let bits = (self.raw[SKIP_BASE + c / 4] >> (((c % 4) * 2) as u8)) & 3;
        if bits == 1 { "S" } else if bits == 2 { "P" } else { "" }
    }

    fn channel_tone(&self, c: usize) -> (r: Tone)
        requires
            self.wf(),
            c < MEM_COUNT,
        ensures
            r == spec_tone(self@, c as int),
    {
        let rec = MEM_BASE + c * MEM_LEN;
        let tmode = self.raw[rec + 4] % 8;
        let ct = ctcss_at((self.raw[rec + 8] % 64) as usize);
        let dc = dcs_at((self.raw[rec + 9] % 128) as usize);
        if 1 <= tmode && tmode <= 3 {
            Tone::Ctcss(ct)
        } else if 4 <= tmode && tmode <= 5 {
            Tone::Dcs(dc)
        } else if 6 <= tmode && tmode <= 7 {
            Tone::Cross { ctcss: ct, dcs: dc }
        } else {
            Tone::NoTone
        }
    }

    fn channel_duplex(&self, c: usize) -> (r: &'static str)
        requires
            self.wf(),
            c < MEM_COUNT,
        ensures
            r@ == spec_duplex(self@, c as int),
    {
        duplex_str(self.raw[MEM_BASE + c * MEM_LEN] % 16)
    }

    fn channel_tone_mode(&self, c: usize) -> (r: &'static str)
        requires
            self.wf(),
            c < MEM_COUNT,
        ensures
            r@ == spec_tmode(self@, c as int),
    {
        tmode_str(self.raw[MEM_BASE + c * MEM_LEN + 4] % 8)
    }

    fn channel_mode(&self, c: usize) -> (r: &'static str)
        requires
            self.wf(),
            c < MEM_COUNT,
        ensures
            r@ == spec_mode(self@[rec_of(c as int)]),
    {
        let b0 = self.raw[MEM_BASE + c * MEM_LEN];
        if b0 & 0x10 != 0 { "AM" } else if b0 & 0x20 != 0 { "NFM" } else { "FM" }
    }

    fn channel_power(&self, c: usize) -> (r: u8)
        requires
            self.wf(),
            c < MEM_COUNT,
        ensures
            r == spec_power(self@, c as int),
    {
        self.raw[MEM_BASE + c * MEM_LEN + 8] / 64
    }

    fn channel_step(&self, c: usize) -> (r: u8)
        requires
            self.wf(),
            c < MEM_COUNT,
        ensures
            r == spec_step(self@, c as int),
    {
        (self.raw[MEM_BASE + c * MEM_LEN + 4] / 16) % 8
    }

    fn channel_offset(&self, c: usize) -> (r: u64)
        requires
            self.wf(),
            c < MEM_COUNT,
        ensures
            r == spec_offset(self@, c as int),
    {
        let rec = MEM_BASE + c * MEM_LEN;
        let hi = (self.raw[rec + OFFSET_LO] % 128) as u64;
        let lo = self.raw[rec + OFFSET_LO + 1] as u64;
        (hi * 256 + lo) * OFFSET_UNIT_HZ
    }

    fn channel_rx(&self, c: usize) -> (r: u64)
        requires
            self.wf(),
            c < MEM_COUNT,
        ensures
            r == spec_rx(self@, c as int),
    {
        let rec = MEM_BASE + c * MEM_LEN;
        decode_freq(&self.raw.as_slice()[rec + 1..rec + 4])
    }

    fn channel_tx(&self, c: usize) -> (r: u64)
        requires
            self.wf(),
            c < MEM_COUNT,
        ensures
            r == spec_tx(self@, c as int),
    {
        let rec = MEM_BASE + c * MEM_LEN;
        decode_freq(&self.raw.as_slice()[rec + 5..rec + 8])
    }

    fn channel_at(&self, c: usize) -> (r: Ft60Channel)
        requires
            self.wf(),
            c < MEM_COUNT,
        ensures
            r@ == spec_channel(self@, c as int),
    {
        Ft60Channel {
            slot: c as u16,
            name: self.channel_name(c),
            rx_hz: self.channel_rx(c),
            duplex: self.channel_duplex(c),
            offset_hz: self.channel_offset(c),
            tx_hz: self.channel_tx(c),
            mode: self.channel_mode(c),
            tone_mode: self.channel_tone_mode(c),
            tone: self.channel_tone(c),
            power: self.channel_power(c),
            step: self.channel_step(c),
            banks: self.channel_banks(c),
            skip: self.channel_skip(c),
        }
    }

    /// Interpret the 1000 standard memories into the used channels, in slot order.
    pub fn channels(&self) -> (out: Vec<Ft60Channel>)
        requires
            self.wf(),
        ensures
            channels_view(out@) == spec_channels(self@),
    {
        let mut out: Vec<Ft60Channel> = Vec::new();
        let mut c: usize = 0;
        while c < MEM_COUNT
            invariant
                c <= MEM_COUNT,
                self.wf(),
                channels_view(out@) == decoded_upto(self@, c as int),
            decreases MEM_COUNT - c,
        {
            if self.channel_used(c) {
                let ch = self.channel_at(c);
                let ghost before = out@;
                out.push(ch);
                assert(channels_view(out@) =~= channels_view(before).push(ch@));
            }
            c += 1;
        }
        out
    }
}


impl Ft60Image {
    // -- Write side ------------------------------------------------------------
    //
    // Each setter is the inverse of the matching decoder and touches only the bits it
    // owns (read-modify-write), so every field we don't model is preserved verbatim.

    /// Set/clear the "channel used" bit (add/remove a slot).
    fn set_used(&mut self, c: usize, used: bool)
        requires
            old(self).wf(),
            c < MEM_COUNT,
        ensures
            final(self).wf(),
            final(self)@ == spec_set_used(old(self)@, c as int, used),
    {
        let rec = MEM_BASE + c * MEM_LEN;
        let x = self.raw[rec];
        if used {
            self.raw.set(rec, x | 0x80);
        } else {
            self.raw.set(rec, x & 0x7F);
        }
    }

    /// Write the RX frequency (bytes 1–3), the inverse of [`decode_freq`]. Change-gated,
    /// so an unchanged frequency keeps its exact stored bytes.
    fn set_freq(&mut self, c: usize, hz: u64)
        requires
            old(self).wf(),
            c < MEM_COUNT,
        ensures
            final(self).wf(),
            final(self)@ == spec_set_freq(old(self)@, c as int, hz),
    {
        if self.channel_rx(c) == hz {
            return;
        }
        let rec = MEM_BASE + c * MEM_LEN;
        write_bcd_freq(&mut self.raw, rec + 1, hz);
    }

    /// Write the TX frequency (bytes 5–7) — used for "split" duplex. Change-gated.
    fn set_tx_freq(&mut self, c: usize, hz: u64)
        requires
            old(self).wf(),
            c < MEM_COUNT,
        ensures
            final(self).wf(),
            final(self)@ == spec_set_tx_freq(old(self)@, c as int, hz),
    {
        if self.channel_tx(c) == hz {
            return;
        }
        let rec = MEM_BASE + c * MEM_LEN;
        write_bcd_freq(&mut self.raw, rec + 5, hz);
    }

    /// Write the TX power index (byte 8 bits 6–7), preserving the CTCSS index.
    fn set_power(&mut self, c: usize, power: u8)
        requires
            old(self).wf(),
            c < MEM_COUNT,
        ensures
            final(self).wf(),
            final(self)@ == spec_set_power(old(self)@, c as int, power),
    {
        if self.channel_power(c) == power {
            return;
        }
        let rec = MEM_BASE + c * MEM_LEN;
        let x = self.raw[rec + 8];
        self.raw.set(rec + 8, (x & 0x3F) | ((power & 0x03) << 6));
    }

    /// Write the tuning-step index (byte 4 bits 4–6), preserving the tone mode.
    fn set_step(&mut self, c: usize, step: u8)
        requires
            old(self).wf(),
            c < MEM_COUNT,
        ensures
            final(self).wf(),
            final(self)@ == spec_set_step(old(self)@, c as int, step),
    {
        if self.channel_step(c) == step {
            return;
        }
        let rec = MEM_BASE + c * MEM_LEN;
        let x = self.raw[rec + 4];
        self.raw.set(rec + 4, (x & 0x8F) | ((step & 0x07) << 4));
    }

    /// Write the mode (the narrow-FM / AM bits of byte 0), preserving the in-use flag,
    /// the reserved bits, and the duplex nibble. Change-gated, so an unchanged mode keeps
    /// its exact bits.
    fn set_mode(&mut self, c: usize, mode: &str)
        requires
            old(self).wf(),
            c < MEM_COUNT,
        ensures
            final(self).wf(),
            final(self)@ == spec_set_mode(old(self)@, c as int, mode@),
    {
        if str_eq(self.channel_mode(c), mode) {
            return;
        }
        let rec = MEM_BASE + c * MEM_LEN;
        let bits: u8 = if str_eq(mode, "AM") { 0x10 } else if str_eq(mode, "NFM") { 0x20 } else { 0 };
        let x = self.raw[rec];
        self.raw.set(rec, (x & 0xCF) | bits);
    }

    /// Write the repeater duplex (byte 0's low nibble). Change-gated, so the two ""
    /// encodings (index 0/1) aren't disturbed.
    fn set_duplex(&mut self, c: usize, duplex: &str)
        requires
            old(self).wf(),
            c < MEM_COUNT,
        ensures
            final(self).wf(),
            final(self)@ == spec_set_duplex(old(self)@, c as int, duplex@),
    {
        if str_eq(self.channel_duplex(c), duplex) {
            return;
        }
        let idx = duplex_index_of(duplex);
        let rec = MEM_BASE + c * MEM_LEN;
        let x = self.raw[rec];
        self.raw.set(rec, (x & 0xF0) | idx);
    }

    /// Write the repeater-shift magnitude (bytes 11–12, 50 kHz steps), preserving the
    /// reserved top bit. Change-gated.
    fn set_offset(&mut self, c: usize, hz: u64)
        requires
            old(self).wf(),
            c < MEM_COUNT,
        ensures
            final(self).wf(),
            final(self)@ == spec_set_offset(old(self)@, c as int, hz),
    {
        if self.channel_offset(c) == hz {
            return;
        }
        let units: u16 = if hz / OFFSET_UNIT_HZ > 0x7FFF { 0x7FFF } else { (hz / OFFSET_UNIT_HZ) as u16 };
        let at = MEM_BASE + c * MEM_LEN + OFFSET_LO;
        let x = self.raw[at];
        self.raw.set(at, (x & 0x80) | ((units / 256) as u8 & 0x7F));
        self.raw.set(at + 1, (units % 256) as u8);
    }

    /// Write the tone mode (byte 4 low 3 bits) and the CTCSS/DCS value (byte 8 low 6 /
    /// byte 9 low 7). Each half is change-gated.
    fn set_tone(&mut self, c: usize, tone_mode: &str, tone: &Tone)
        requires
            old(self).wf(),
            c < MEM_COUNT,
        ensures
            final(self).wf(),
            final(self)@ == spec_set_tone(old(self)@, c as int, tone_mode@, *tone),
    {
        let rec = MEM_BASE + c * MEM_LEN;
        let cur_tone = self.channel_tone(c);
        if !str_eq(self.channel_tone_mode(c), tone_mode) {
            let idx = tmode_index_of(tone_mode);
            let x = self.raw[rec + 4];
            self.raw.set(rec + 4, (x & 0xF8) | idx);
        }
        if cur_tone != *tone {
            match *tone {
                Tone::NoTone => {},
                Tone::Ctcss(hz) => {
                    let t = ctcss_array();
                    let idx = position_of(&t, hz) as u8;
                    let x = self.raw[rec + 8];
                    self.raw.set(rec + 8, (x & 0xC0) | (idx & 0x3F));
                },
                Tone::Dcs(code) => {
                    let t = dcs_array();
                    let idx = position_of(&t, code) as u8;
                    let x = self.raw[rec + 9];
                    self.raw.set(rec + 9, (x & 0x80) | (idx & 0x7F));
                },
                Tone::Cross { ctcss, dcs } => {
                    let t = ctcss_array();
                    let idx = position_of(&t, ctcss) as u8;
                    let x = self.raw[rec + 8];
                    self.raw.set(rec + 8, (x & 0xC0) | (idx & 0x3F));
                    let t2 = dcs_array();
                    let idx2 = position_of(&t2, dcs) as u8;
                    let x2 = self.raw[rec + 9];
                    self.raw.set(rec + 9, (x2 & 0x80) | (idx2 & 0x7F));
                },
            }
        }
    }

    /// Write the 6-char name (space-padded) plus the `0x80 0x80` slot trailer. Only writes
    /// when the name changed, so unchanged slots keep their exact original padding bytes.
    fn set_name(&mut self, c: usize, name: &str)
        requires
            old(self).wf(),
            c < MEM_COUNT,
        ensures
            final(self).wf(),
            final(self)@ == spec_set_name(old(self)@, c as int, name@),
    {
        let cur = self.channel_name(c);
        if str_eq(cur.as_str(), name) {
            return;
        }
        let start = NAME_BASE + c * NAME_STRIDE;
        let n = name.unicode_len();
        let ghost nb = name_bytes(name@);
        let ghost r0 = self@;
        let mut i: usize = 0;
        while i < NAME_LEN
            invariant
                i <= NAME_LEN,
                c < MEM_COUNT,
                start == name_of(c as int),
                n == name@.len(),
                nb == name_bytes(name@),
                self.wf(),
                r0.len() == IMAGE_SIZE,
                spec_name(r0, c as int) != name@,
                forall|k: int| 0 <= k < IMAGE_SIZE ==> #[trigger] self@[k] == (
                    if start <= k < start + i { nb[k - start] } else { r0[k] }),
            decreases NAME_LEN - i,
        {
            let b = if i < n { encode_charset(name.get_char(i)) } else { 0x24u8 };
            assert(b == nb[i as int]);
            let ghost before = self@;
            self.raw.set(start + i, b);
            assert(self@ == before.update(start + i, b));
            i += 1;
            assert forall|k: int| 0 <= k < IMAGE_SIZE implies #[trigger] self@[k] == (
                if start <= k < start + i { nb[k - start] } else { r0[k] }) by {
                if k != start + i - 1 {
                    assert(self@[k] == before[k]);
                }
            }
        }
        let ghost mid = self@;
        self.raw.set(start + 6, 0x80);
        self.raw.set(start + 7, 0x80);
        let ghost want = spec_set_name(r0, c as int, name@);
        assert forall|k: int| 0 <= k < IMAGE_SIZE implies #[trigger] self@[k] == want[k] by {
            if k != start + 6 && k != start + 7 {
                assert(self@[k] == mid[k]);
            }
        }
        assert(self@ =~= want);
    }

    /// Set this channel's bank membership (the per-bank bitmaps).
    fn set_banks(&mut self, c: usize, banks: &[u8])
        requires
            old(self).wf(),
            c < MEM_COUNT,
        ensures
            final(self).wf(),
            final(self)@ == spec_set_banks(old(self)@, c as int, banks@),
    {
        let ghost r0 = self@;
        let bit: u8 = 1u8 << ((c % 8) as u8);
        let mut b: usize = 0;
        while b < BANK_COUNT
            invariant
                b <= BANK_COUNT,
                c < MEM_COUNT,
                self.wf(),
                bit == bank_bit(c as int),
                self@ == spec_set_banks_upto(r0, c as int, banks@, b as int),
            decreases BANK_COUNT - b,
        {
            let idx = BANK_BASE + b * BANK_STRIDE + c / 8;
            let member = slice_contains(banks, b as u8);
            let x = self.raw[idx];
            if member {
                self.raw.set(idx, x | bit);
            } else {
                self.raw.set(idx, x & !bit);
            }
            b += 1;
        }
    }

    /// Set the 2-bit skip flag (`""`/`S`/`P`). Change-gated, so an unchanged flag keeps
    /// its exact bits.
    fn set_skip(&mut self, c: usize, skip: &str)
        requires
            old(self).wf(),
            c < MEM_COUNT,
        ensures
            final(self).wf(),
            final(self)@ == spec_set_skip(old(self)@, c as int, skip@),
    {
        if str_eq(self.channel_skip(c), skip) {
            return;
        }
        let idx = SKIP_BASE + c / 4;
        let shift = ((c % 4) * 2) as u8;
        let val: u8 = if str_eq(skip, "S") { 1 } else if str_eq(skip, "P") { 2 } else { 0 };
        let x = self.raw[idx];
        self.raw.set(idx, (x & !(3u8 << shift)) | (val << shift));
    }

    /// Mark a slot empty: clear `used` plus its bank and skip bits (the record's other
    /// bytes stay as-is; the radio ignores unused slots). A no-op on an already-empty slot.
    fn clear_slot(&mut self, c: usize)
        requires
            old(self).wf(),
            c < MEM_COUNT,
        ensures
            final(self).wf(),
            final(self)@ == spec_clear_slot(old(self)@, c as int),
    {
        if !self.channel_used(c) {
            proof { reveal(spec_clear_slot); }
            return;
        }
        self.set_used(c, false);
        let empty: Vec<u8> = Vec::new();
        assert(empty@ =~= Seq::<u8>::empty());
        self.set_banks(c, empty.as_slice());
        self.set_skip(c, "");
        proof { reveal(spec_clear_slot); }
    }

    fn program(&mut self, c: usize, ch: &Ft60Channel)
        requires
            old(self).wf(),
            c < MEM_COUNT,
        ensures
            final(self).wf(),
            final(self)@ == spec_program(old(self)@, c as int, ch@),
    {
        self.set_used(c, true);
        self.set_freq(c, ch.rx_hz);
        self.set_mode(c, ch.mode);
        self.set_duplex(c, ch.duplex);
        self.set_offset(c, ch.offset_hz);
        self.set_tx_freq(c, ch.tx_hz);
        self.set_tone(c, ch.tone_mode, &ch.tone);
        self.set_power(c, ch.power);
        self.set_step(c, ch.step);
        self.set_name(c, ch.name.as_str());
        self.set_banks(c, ch.banks.as_slice());
        self.set_skip(c, ch.skip);
        proof { reveal(spec_program); }
    }

    /// Apply a desired channel set onto the image: slots present in `desired` are
    /// programmed (surgically; the last entry for a slot wins), slots absent are cleared
    /// to empty. Recomputes the checksum. Re-applying `self.channels()` is a no-op
    /// ([`lemma_apply_decoded_channels_is_noop`]).
    pub fn apply_channels(&mut self, desired: &[Ft60Channel])
        requires
            old(self).wf(),
        ensures
            final(self).wf(),
            final(self)@ == spec_apply_channels(old(self)@, channels_view(desired@)),
    {
        let ghost d = channels_view(desired@);
        let mut by_slot: Vec<Option<usize>> = Vec::new();
        let mut s: usize = 0;
        while s < MEM_COUNT
            invariant
                s <= MEM_COUNT,
                by_slot@.len() == s,
                forall|k: int| 0 <= k < s ==> #[trigger] by_slot@[k] is None,
            decreases MEM_COUNT - s,
        {
            by_slot.push(None);
            s += 1;
        }
        assert(d.take(0) =~= Seq::<SpecChannel>::empty());
        let mut k: usize = 0;
        while k < desired.len()
            invariant
                k <= desired@.len(),
                d == channels_view(desired@),
                by_slot@.len() == MEM_COUNT,
                forall|t: int| 0 <= t < MEM_COUNT ==> opt_int(#[trigger] by_slot@[t]) == last_with_slot(d.take(k as int), t),
            decreases desired@.len() - k,
        {
            let sl = desired[k].slot as usize;
            if sl < MEM_COUNT {
                by_slot.set(sl, Some(k));
            }
            proof {
                assert(d.take(k + 1).drop_last() =~= d.take(k as int));
                assert(d.take(k + 1).last() == d[k as int]);
                assert forall|t: int| 0 <= t < MEM_COUNT implies opt_int(#[trigger] by_slot@[t]) == last_with_slot(d.take(k + 1), t) by {
                    if t == sl {
                        assert(last_with_slot(d.take(k + 1), t) == Some(k as int));
                    }
                }
            }
            k += 1;
        }
        assert(d.take(desired@.len() as int) =~= d);
        let ghost r0 = self@;
        let mut slot: usize = 0;
        while slot < MEM_COUNT
            invariant
                slot <= MEM_COUNT,
                self.wf(),
                d == channels_view(desired@),
                by_slot@.len() == MEM_COUNT,
                forall|t: int| 0 <= t < MEM_COUNT ==> opt_int(#[trigger] by_slot@[t]) == last_with_slot(d, t),
                self@ == apply_slots(r0, d, slot as int),
            decreases MEM_COUNT - slot,
        {
            match by_slot[slot] {
                Some(k) => {
                    proof { lemma_last_with_slot_in_range(d, slot as int); }
                    self.program(slot, &desired[k]);
                },
                None => self.clear_slot(slot),
            }
            slot += 1;
        }
        self.recompute_checksum();
    }
}

pub open spec fn opt_int(o: Option<usize>) -> Option<int> {
    match o {
        Some(k) => Some(k as int),
        None => None,
    }
}

proof fn lemma_last_with_slot_in_range(d: Seq<SpecChannel>, s: int)
    ensures
        last_with_slot(d, s) matches Some(k) ==> 0 <= k < d.len() && d[k].slot as int == s,
    decreases d.len(),
{
    if d.len() > 0 && d.last().slot as int != s {
        lemma_last_with_slot_in_range(d.drop_last(), s);
    }
}

/// Does the slice contain `v`?
fn slice_contains(s: &[u8], v: u8) -> (r: bool)
    ensures
        r == s@.contains(v),
{
    let mut i: usize = 0;
    while i < s.len()
        invariant
            i <= s@.len(),
            forall|k: int| 0 <= k < i ==> s@[k] != v,
        decreases s@.len() - i,
    {
        if s[i] == v {
            assert(s@[i as int] == v);
            return true;
        }
        i += 1;
    }
    false
}


// ---------------------------------------------------------------------------
// PMS band edges.
// ---------------------------------------------------------------------------

/// One PMS band-edge record (a scan limit). `index` is 0..100; pair *p* = indices
/// `2p`/`2p+1` (lower/upper).
#[derive(Debug, Clone, Copy, PartialEq)]
pub struct PmsEdge {
    pub index: u16,
    pub used: bool,
    pub rx_hz: u64,
    /// Tuning-step index into [`steps_hz`].
    pub step: u8,
}

/// The PMS record `i` decodes to.
pub open spec fn spec_edge(r: Seq<u8>, i: int) -> PmsEdge {
    PmsEdge {
        index: i as u16,
        used: r[pms_rec(i)] >= 0x80,
        rx_hz: spec_decode_freq(r[pms_rec(i) + 1], r[pms_rec(i) + 2], r[pms_rec(i) + 3]),
        step: (r[pms_rec(i) + 4] / 16) % 8,
    }
}

/// Apply one edited edge (only `used`, frequency and step; freq/step change-gated).
pub open spec fn apply_edge(r: Seq<u8>, e: PmsEdge) -> Seq<u8> {
    if e.index as int >= PMS_COUNT {
        r
    } else {
        let rec = pms_rec(e.index as int);
        let r1 = r.update(rec, if e.used { r[rec] | 0x80 } else { r[rec] & 0x7F });
        let r2 = if spec_decode_freq(r1[rec + 1], r1[rec + 2], r1[rec + 3]) != e.rx_hz {
            write_freq_at(r1, rec + 1, e.rx_hz)
        } else {
            r1
        };
        if (r2[rec + 4] / 16) % 8 != e.step {
            r2.update(rec + 4, (r2[rec + 4] & 0x8F) | ((e.step & 0x07) << 4))
        } else {
            r2
        }
    }
}

/// Apply edges in order.
pub open spec fn apply_edges(r: Seq<u8>, es: Seq<PmsEdge>) -> Seq<u8>
    decreases es.len(),
{
    if es.len() == 0 { r } else { apply_edge(apply_edges(r, es.drop_last()), es.last()) }
}

/// An edge the PMS record can hold as given: an index below 100, a step that fits
/// in three bits, and a frequency the field can hold.
pub open spec fn storable_edge(e: PmsEdge) -> bool {
    (e.index as int) < PMS_COUNT && e.step < 8 && encodable_freq(e.rx_hz)
}

/// Byte `j` lies in bytes 0–4 (used flag, frequency, step) of PMS record `i`.
pub open spec fn in_edge_bytes(i: int, j: int) -> bool {
    pms_rec(i) <= j < pms_rec(i) + 5
}

/// Writing one storable edge: it reads back as written, and no byte outside bytes
/// 0–4 of its record changes.
pub proof fn lemma_apply_edge_reads_back(r: Seq<u8>, e: PmsEdge)
    requires
        r.len() == IMAGE_SIZE,
        storable_edge(e),
    ensures
        apply_edge(r, e).len() == r.len(),
        spec_edge(apply_edge(r, e), e.index as int) == e,
        forall|j: int| 0 <= j < r.len() && !in_edge_bytes(e.index as int, j) ==> #[trigger] apply_edge(r, e)[j] == r[j],
{
    let rec = pms_rec(e.index as int);
    let x = r[rec];
    let r1 = r.update(rec, if e.used { x | 0x80 } else { x & 0x7F });
    assert((x | 0x80) >= 0x80 && (x & 0x7F) < 0x80) by (bit_vector);
    let r2 = if spec_decode_freq(r1[rec + 1], r1[rec + 2], r1[rec + 3]) != e.rx_hz {
        write_freq_at(r1, rec + 1, e.rx_hz)
    } else {
        r1
    };
    lemma_freq_write_read(r1[rec + 1], e.rx_hz);
    assert(spec_decode_freq(r2[rec + 1], r2[rec + 2], r2[rec + 3]) == e.rx_hz);
    assert(r2[rec] == r1[rec]);
    let y = r2[rec + 4];
    let st = e.step;
    assert(st < 8 ==> (((y & 0x8F) | ((st & 0x07) << 4)) as u8 / 16) % 8 == st) by (bit_vector);
    let out = apply_edge(r, e);
    assert(out[rec] == r1[rec]);
    assert(spec_edge(out, e.index as int) == e);
}

/// An edge naming a record past the last one is ignored.
pub proof fn lemma_apply_edge_out_of_range(r: Seq<u8>, e: PmsEdge)
    requires
        e.index as int >= PMS_COUNT,
    ensures
        apply_edge(r, e) == r,
{
}

/// Some in-range edge of `es` owns byte `j`.
pub open spec fn edges_touch(es: Seq<PmsEdge>, j: int) -> bool {
    exists|k: int| 0 <= k < es.len() && (es[k].index as int) < PMS_COUNT && #[trigger] in_edge_bytes(es[k].index as int, j)
}

/// Applying edges changes no byte outside bytes 0–4 of the records they name
/// (the checksum aside, which `apply_pms` recomputes afterwards).
pub proof fn lemma_apply_edges_frame(r: Seq<u8>, es: Seq<PmsEdge>)
    requires
        r.len() == IMAGE_SIZE,
    ensures
        apply_edges(r, es).len() == r.len(),
        forall|j: int| 0 <= j < r.len() && !edges_touch(es, j) ==> #[trigger] apply_edges(r, es)[j] == r[j],
    decreases es.len(),
{
    if es.len() > 0 {
        let p = es.drop_last();
        lemma_apply_edges_frame(r, p);
        let mid = apply_edges(r, p);
        let e = es.last();
        assert forall|j: int| 0 <= j < r.len() && !edges_touch(es, j) implies #[trigger] apply_edges(r, es)[j] == r[j] by {
            if edges_touch(p, j) {
                let k = choose|k: int| 0 <= k < p.len() && (p[k].index as int) < PMS_COUNT && #[trigger] in_edge_bytes(p[k].index as int, j);
                assert(es[k] == p[k]);
            }
            if (e.index as int) < PMS_COUNT {
                assert(!in_edge_bytes(e.index as int, j)) by {
                    if in_edge_bytes(e.index as int, j) {
                        assert(es[es.len() - 1] == e);
                    }
                }
            }
        }
    }
}

/// Each storable edge that no later edge overrides reads back after applying them all.
pub proof fn lemma_apply_edges_reads_back(r: Seq<u8>, es: Seq<PmsEdge>, k: int)
    requires
        r.len() == IMAGE_SIZE,
        0 <= k < es.len(),
        storable_edge(es[k]),
        forall|m: int| k < m < es.len() ==> (#[trigger] es[m]).index != es[k].index,
    ensures
        spec_edge(apply_edges(r, es), es[k].index as int) == es[k],
    decreases es.len(),
{
    let p = es.drop_last();
    lemma_apply_edges_frame(r, p);
    let mid = apply_edges(r, p);
    if k == es.len() - 1 {
        lemma_apply_edge_reads_back(mid, es[k]);
    } else {
        assert forall|m: int| k < m < p.len() implies (#[trigger] p[m]).index != p[k].index by {
            assert(p[m] == es[m]);
        }
        lemma_apply_edges_reads_back(r, p, k);
        let e = es.last();
        let i = es[k].index as int;
        assert(e.index != es[k].index);
        if (e.index as int) < PMS_COUNT {
            lemma_apply_edge_reads_back_frame(mid, e, i);
        }
    }
}

proof fn lemma_apply_edge_reads_back_frame(r: Seq<u8>, e: PmsEdge, i: int)
    requires
        r.len() == IMAGE_SIZE,
        (e.index as int) < PMS_COUNT,
        0 <= i < PMS_COUNT,
        e.index as int != i,
    ensures
        spec_edge(apply_edge(r, e), i) == spec_edge(r, i),
{
    let out = apply_edge(r, e);
    let rec = pms_rec(e.index as int);
    assert(out.len() == r.len());
    assert forall|j: int| pms_rec(i) <= j < pms_rec(i) + 5 implies out[j] == r[j] by {
        assert(j < rec || j >= rec + 16);
    }
    assert(out[pms_rec(i)] == r[pms_rec(i)]);
    assert(out[pms_rec(i) + 1] == r[pms_rec(i) + 1]);
    assert(out[pms_rec(i) + 2] == r[pms_rec(i) + 2]);
    assert(out[pms_rec(i) + 3] == r[pms_rec(i) + 3]);
    assert(out[pms_rec(i) + 4] == r[pms_rec(i) + 4]);
}

impl Ft60Image {
    /// The 100 PMS band-edge records (`used` + frequency + step), interleaved
    /// lower/upper pairs.
    pub fn pms_edges(&self) -> (out: Vec<PmsEdge>)
        requires
            self.wf(),
        ensures
            out@.len() == PMS_COUNT,
            forall|i: int| 0 <= i < PMS_COUNT ==> #[trigger] out@[i] == spec_edge(self@, i),
    {
        let mut out: Vec<PmsEdge> = Vec::new();
        let mut i: usize = 0;
        while i < PMS_COUNT
            invariant
                i <= PMS_COUNT,
                self.wf(),
                out@.len() == i,
                forall|k: int| 0 <= k < i ==> #[trigger] out@[k] == spec_edge(self@, k),
            decreases PMS_COUNT - i,
        {
            let rec = PMS_BASE + i * MEM_LEN;
            let e = PmsEdge {
                index: i as u16,
                used: self.raw[rec] >= 0x80,
                rx_hz: decode_freq(&self.raw.as_slice()[rec + 1..rec + 4]),
                step: (self.raw[rec + 4] / 16) % 8,
            };
            out.push(e);
            i += 1;
        }
        out
    }

    /// Apply edited PMS edges (surgical: only `used`, frequency, and step; other bytes
    /// stay verbatim, freq/step change-gated). Recomputes the checksum. Re-applying
    /// `pms_edges()` is a no-op ([`lemma_apply_pms_edges_is_noop`]).
    pub fn apply_pms(&mut self, edges: &[PmsEdge])
        requires
            old(self).wf(),
        ensures
            final(self).wf(),
            final(self)@ == with_checksum(apply_edges(old(self)@, edges@)),
    {
        let ghost r0 = self@;
        let mut k: usize = 0;
        while k < edges.len()
            invariant
                k <= edges@.len(),
                self.wf(),
                self@ == apply_edges(r0, edges@.take(k as int)),
            decreases edges@.len() - k,
        {
            let e = edges[k];
            proof {
                assert(edges@.take(k + 1).drop_last() =~= edges@.take(k as int));
                assert(edges@.take(k + 1).last() == e);
            }
            let i = e.index as usize;
            if i < PMS_COUNT {
                let rec = PMS_BASE + i * MEM_LEN;
                let x = self.raw[rec];
                if e.used {
                    self.raw.set(rec, x | 0x80);
                } else {
                    self.raw.set(rec, x & 0x7F);
                }
                if decode_freq(&self.raw.as_slice()[rec + 1..rec + 4]) != e.rx_hz {
                    write_bcd_freq(&mut self.raw, rec + 1, e.rx_hz);
                }
                let y = self.raw[rec + 4];
                if (y / 16) % 8 != e.step {
                    self.raw.set(rec + 4, (y & 0x8F) | ((e.step & 0x07) << 4));
                }
            }
            k += 1;
        }
        assert(edges@.take(edges@.len() as int) =~= edges@);
        self.recompute_checksum();
    }
}

// ---------------------------------------------------------------------------
// Set-mode settings.
// ---------------------------------------------------------------------------

/// One editable set-mode setting: the value lives in `mask`'s (low) bits of byte
/// `offset`; the reserved high bits are preserved on write. `options[value]` is the
/// human label.
pub struct SettingSpec {
    pub key: &'static str,
    pub label: &'static str,
    pub offset: usize,
    pub mask: u8,
    pub options: Vec<String>,
}

/// The byte offsets of the modeled settings, in [`settings_specs`] order.
pub open spec fn setting_offsets() -> Seq<usize> {
    seq![0x24usize, 0x25, 0x28, 0x2B, 0x2C, 0x2D, 0x2E, 0x2F, 0x30, 0x31]
}

/// The value masks of the modeled settings, in [`settings_specs`] order.
pub open spec fn setting_masks() -> Seq<u8> {
    seq![0xFFu8, 0x1F, 0x0F, 0x07, 0x07, 0x01, 0x03, 0x03, 0x07, 0x07]
}

pub open spec fn setting_keys() -> Seq<Seq<char>> {
    seq!["apo"@, "tot"@, "rf_sql"@, "lock"@, "dt_dly"@, "dt_spd"@, "ar_bep"@, "lamp"@, "bell"@, "rxsave"@]
}

pub open spec fn setting_labels() -> Seq<Seq<char>> {
    seq![
        "Auto power-off"@, "Time-out timer"@, "RF squelch"@, "Control lock"@, "DTMF delay"@,
        "DTMF speed"@, "ARTS beep"@, "Lamp"@, "Bell"@, "Battery saver"@
    ]
}

/// Number of modeled settings.
pub const SETTING_COUNT: usize = 10;

fn setting_offset_mask(i: usize) -> (r: (usize, u8))
    requires
        i < SETTING_COUNT,
    ensures
        r.0 == setting_offsets()[i as int],
        r.1 == setting_masks()[i as int],
{
    let offs: [usize; 10] = [0x24, 0x25, 0x28, 0x2B, 0x2C, 0x2D, 0x2E, 0x2F, 0x30, 0x31];
    let masks: [u8; 10] = [0xFF, 0x1F, 0x0F, 0x07, 0x07, 0x01, 0x03, 0x03, 0x07, 0x07];
    assert(offs@ =~= setting_offsets());
    assert(masks@ =~= setting_masks());
    (offs[i], masks[i])
}

fn strs_to_strings(v: &[&str]) -> (r: Vec<String>)
    ensures
        r@.len() == v@.len(),
        forall|i: int| 0 <= i < v@.len() ==> #[trigger] r@[i]@ == v@[i]@,
{
    let mut r: Vec<String> = Vec::new();
    let mut i: usize = 0;
    while i < v.len()
        invariant
            i <= v@.len(),
            r@.len() == i,
            forall|k: int| 0 <= k < i ==> #[trigger] r@[k]@ == v@[k]@,
        decreases v@.len() - i,
    {
        r.push(copy_str(v[i]));
        i += 1;
    }
    r
}

/// Auto power-off option labels: "Off", then "0.5 h" … "12.0 h" in half hours.
pub open spec fn apo_label(x: nat) -> Seq<char> {
    decimal(x / 2) + (if x % 2 == 1 { ".5 h"@ } else { ".0 h"@ })
}

/// Time-out timer option labels: "Off", then "1 min" … "30 min".
pub open spec fn tot_label(x: nat) -> Seq<char> {
    decimal(x) + " min"@
}

/// The option labels of each modeled setting, in [`settings_specs`] order.
pub open spec fn setting_options(i: int) -> Seq<Seq<char>> {
    if i == 0 {
        seq!["Off"@] + Seq::new(24, |x: int| apo_label((x + 1) as nat))
    } else if i == 1 {
        seq!["Off"@] + Seq::new(30, |x: int| tot_label((x + 1) as nat))
    } else if i == 2 {
        seq!["Off"@, "S-1"@, "S-2"@, "S-3"@, "S-4"@, "S-5"@, "S-6"@, "S-7"@, "S-8"@, "S-Full"@]
    } else if i == 3 {
        seq!["Key"@, "Dial"@, "Key+Dial"@, "PTT"@, "PTT+Key"@, "PTT+Dial"@, "All"@]
    } else if i == 4 {
        seq!["50 ms"@, "100 ms"@, "250 ms"@, "450 ms"@, "750 ms"@, "1000 ms"@]
    } else if i == 5 {
        seq!["50 ms"@, "100 ms"@]
    } else if i == 6 {
        seq!["Off"@, "In range"@, "Always"@]
    } else if i == 7 {
        seq!["Key"@, "5 sec"@, "Toggle"@]
    } else if i == 8 {
        seq!["Off"@, "1"@, "3"@, "5"@, "8"@, "Continuous"@]
    } else if i == 9 {
        seq!["Off"@, "200 ms"@, "300 ms"@, "500 ms"@, "1 s"@, "2 s"@]
    } else {
        Seq::empty()
    }
}

/// The labels of a list of options.
pub open spec fn option_labels(v: Seq<String>) -> Seq<Seq<char>> {
    Seq::new(v.len(), |k: int| v[k]@)
}

fn labels_of(v: &[&str]) -> (r: Vec<String>)
    ensures
        option_labels(r@) == Seq::new(v@.len(), |k: int| v@[k]@),
{
    let r = strs_to_strings(v);
    assert(option_labels(r@) =~= Seq::new(v@.len(), |k: int| v@[k]@));
    r
}

/// The modeled set-mode settings block (`0x24`+). Each value is the low bits of a
/// dedicated byte, so decode/apply is a clean masked read/write.
pub fn settings_specs() -> (r: Vec<SettingSpec>)
    ensures
        r@.len() == SETTING_COUNT,
        forall|i: int| 0 <= i < SETTING_COUNT ==> {
            &&& (#[trigger] r@[i]).offset == setting_offsets()[i]
            &&& r@[i].mask == setting_masks()[i]
            &&& r@[i].key@ == setting_keys()[i]
            &&& r@[i].label@ == setting_labels()[i]
            &&& option_labels(r@[i].options@) == setting_options(i)
        },
        r@[0].options@.len() == 25,
        r@[0].options@[0]@ == "Off"@,
        forall|x: int| 1 <= x <= 24 ==> #[trigger] r@[0].options@[x]@ == apo_label(x as nat),
        r@[1].options@.len() == 31,
        r@[1].options@[0]@ == "Off"@,
        forall|x: int| 1 <= x <= 30 ==> #[trigger] r@[1].options@[x]@ == tot_label(x as nat),
{
    let mut apo: Vec<String> = Vec::new();
    apo.push("Off".to_owned());
    let mut x: u64 = 1;
    while x <= 24
        invariant
            1 <= x <= 25,
            apo@.len() == x,
            apo@[0]@ == "Off"@,
            forall|k: int| 1 <= k < x ==> #[trigger] apo@[k]@ == apo_label(k as nat),
        decreases 25 - x,
    {
        let mut s = decimal_string(x / 2);
        if x % 2 == 1 { s.append(".5 h"); } else { s.append(".0 h"); }
        apo.push(s);
        x += 1;
    }
    let mut tot: Vec<String> = Vec::new();
    tot.push("Off".to_owned());
    let mut y: u64 = 1;
    while y <= 30
        invariant
            1 <= y <= 31,
            tot@.len() == y,
            tot@[0]@ == "Off"@,
            forall|k: int| 1 <= k < y ==> #[trigger] tot@[k]@ == tot_label(k as nat),
        decreases 31 - y,
    {
        let mut s = decimal_string(y);
        s.append(" min");
        tot.push(s);
        y += 1;
    }
    assert(option_labels(apo@) =~= setting_options(0)) by {
        assert forall|k: int| 1 <= k < 25 implies #[trigger] option_labels(apo@)[k] == setting_options(0)[k] by {
            assert(setting_options(0)[k] == apo_label(k as nat));
        }
        assert(option_labels(apo@)[0] == setting_options(0)[0]);
    }
    assert(option_labels(tot@) =~= setting_options(1)) by {
        assert forall|k: int| 1 <= k < 31 implies #[trigger] option_labels(tot@)[k] == setting_options(1)[k] by {
            assert(setting_options(1)[k] == tot_label(k as nat));
        }
        assert(option_labels(tot@)[0] == setting_options(1)[0]);
    }
    let v = vec![
        SettingSpec { key: "apo", label: "Auto power-off", offset: 0x24, mask: 0xFF, options: apo },
        SettingSpec { key: "tot", label: "Time-out timer", offset: 0x25, mask: 0x1F, options: tot },
        SettingSpec {
            key: "rf_sql", label: "RF squelch", offset: 0x28, mask: 0x0F,
            options: labels_of(&["Off", "S-1", "S-2", "S-3", "S-4", "S-5", "S-6", "S-7", "S-8", "S-Full"]),
        },
        SettingSpec {
            key: "lock", label: "Control lock", offset: 0x2B, mask: 0x07,
            options: labels_of(&["Key", "Dial", "Key+Dial", "PTT", "PTT+Key", "PTT+Dial", "All"]),
        },
        SettingSpec {
            key: "dt_dly", label: "DTMF delay", offset: 0x2C, mask: 0x07,
            options: labels_of(&["50 ms", "100 ms", "250 ms", "450 ms", "750 ms", "1000 ms"]),
        },
        SettingSpec {
            key: "dt_spd", label: "DTMF speed", offset: 0x2D, mask: 0x01,
            options: labels_of(&["50 ms", "100 ms"]),
        },
        SettingSpec {
            key: "ar_bep", label: "ARTS beep", offset: 0x2E, mask: 0x03,
            options: labels_of(&["Off", "In range", "Always"]),
        },
        SettingSpec {
            key: "lamp", label: "Lamp", offset: 0x2F, mask: 0x03,
            options: labels_of(&["Key", "5 sec", "Toggle"]),
        },
        SettingSpec {
            key: "bell", label: "Bell", offset: 0x30, mask: 0x07,
            options: labels_of(&["Off", "1", "3", "5", "8", "Continuous"]),
        },
        SettingSpec {
            key: "rxsave", label: "Battery saver", offset: 0x31, mask: 0x07,
            options: labels_of(&["Off", "200 ms", "300 ms", "500 ms", "1 s", "2 s"]),
        },
    ];
    assert(option_labels(v@[2].options@) =~= setting_options(2));
    assert(option_labels(v@[3].options@) =~= setting_options(3));
    assert(option_labels(v@[4].options@) =~= setting_options(4));
    assert(option_labels(v@[5].options@) =~= setting_options(5));
    assert(option_labels(v@[6].options@) =~= setting_options(6));
    assert(option_labels(v@[7].options@) =~= setting_options(7));
    assert(option_labels(v@[8].options@) =~= setting_options(8));
    assert(option_labels(v@[9].options@) =~= setting_options(9));
    v
}

/// The masked write of one setting value (only when the value changed).
pub open spec fn setting_write(x: u8, m: u8, v: u8) -> u8 {
    if x & m != v & m { (x & !m) | (v & m) } else { x }
}

/// Apply the first `n` setting values in order.
pub open spec fn apply_setting_values(r: Seq<u8>, vals: Seq<u8>, n: int) -> Seq<u8>
    decreases n,
{
    if n <= 0 {
        r
    } else {
        let r1 = apply_setting_values(r, vals, n - 1);
        let off = setting_offsets()[n - 1] as int;
        r1.update(off, setting_write(r1[off], setting_masks()[n - 1], vals[n - 1]))
    }
}

/// Byte `j` holds one of the first `n` settings.
pub open spec fn setting_byte(n: int, j: int) -> bool {
    exists|i: int| 0 <= i < n && #[trigger] setting_offsets()[i] as int == j
}

/// Applying the first `n` setting values sets each one's masked bits to its value,
/// keeps the bits outside its mask, and changes no other byte.
pub proof fn lemma_apply_settings_frame(r: Seq<u8>, vals: Seq<u8>, n: int)
    requires
        r.len() == IMAGE_SIZE,
        0 <= n <= SETTING_COUNT,
        n <= vals.len(),
    ensures
        apply_setting_values(r, vals, n).len() == r.len(),
        forall|i: int| 0 <= i < n ==> #[trigger] apply_setting_values(r, vals, n)[setting_offsets()[i] as int] & setting_masks()[i]
            == vals[i] & setting_masks()[i],
        forall|i: int| 0 <= i < n ==> #[trigger] apply_setting_values(r, vals, n)[setting_offsets()[i] as int] & !setting_masks()[i]
            == r[setting_offsets()[i] as int] & !setting_masks()[i],
        forall|j: int| 0 <= j < r.len() && !setting_byte(n, j) ==> #[trigger] apply_setting_values(r, vals, n)[j] == r[j],
    decreases n,
{
    let offs = setting_offsets();
    assert(offs.len() == 10 && setting_masks().len() == 10);
    assert forall|a: int, b: int| 0 <= a < b < 10 implies #[trigger] offs[a] != #[trigger] offs[b] by {
        assert(offs[0] == 0x24 && offs[1] == 0x25 && offs[2] == 0x28 && offs[3] == 0x2B && offs[4] == 0x2C);
        assert(offs[5] == 0x2D && offs[6] == 0x2E && offs[7] == 0x2F && offs[8] == 0x30 && offs[9] == 0x31);
    }
    assert forall|i: int| 0 <= i < 10 implies (#[trigger] offs[i] as int) < IMAGE_SIZE by {
        assert(offs[i] <= 0x31);
    }
    if n > 0 {
        lemma_apply_settings_frame(r, vals, n - 1);
        let r1 = apply_setting_values(r, vals, n - 1);
        let off = offs[n - 1] as int;
        let m = setting_masks()[n - 1];
        let v = vals[n - 1];
        let x = r1[off];
        let w = setting_write(x, m, v);
        assert(w & m == v & m && w & !m == x & !m) by (bit_vector)
            requires w == (if x & m != v & m { (x & !m) | (v & m) } else { x });
        assert(!setting_byte(n - 1, off)) by {
            if setting_byte(n - 1, off) {
                let i = choose|i: int| 0 <= i < n - 1 && #[trigger] setting_offsets()[i] as int == off;
                assert(offs[i] != offs[n - 1]);
            }
        }
        assert(x == r[off]);
        let out = apply_setting_values(r, vals, n);
        assert forall|i: int| 0 <= i < n - 1 implies out[#[trigger] setting_offsets()[i] as int] == r1[setting_offsets()[i] as int] by {
            assert(offs[i] != offs[n - 1]);
        }
        assert forall|j: int| 0 <= j < r.len() && !setting_byte(n, j) implies #[trigger] out[j] == r[j] by {
            if setting_byte(n - 1, j) {
                let i = choose|i: int| 0 <= i < n - 1 && #[trigger] setting_offsets()[i] as int == j;
                assert(setting_byte(n, j));
            }
            if j == off {
                assert(setting_offsets()[n - 1] as int == j);
            }
        }
    }
}

pub open spec fn min_int(a: int, b: int) -> int {
    if a < b { a } else { b }
}

impl Ft60Image {
    /// The set-mode settings as current values, in [`settings_specs`] order (each the
    /// value in the masked low bits of its byte).
    pub fn settings(&self) -> (out: Vec<u8>)
        requires
            self.wf(),
        ensures
            out@.len() == SETTING_COUNT,
            forall|i: int| 0 <= i < SETTING_COUNT ==> #[trigger] out@[i] == self@[setting_offsets()[i] as int] & setting_masks()[i],
    {
        let mut out: Vec<u8> = Vec::new();
        let mut i: usize = 0;
        while i < SETTING_COUNT
            invariant
                i <= SETTING_COUNT,
                self.wf(),
                out@.len() == i,
                forall|k: int| 0 <= k < i ==> #[trigger] out@[k] == self@[setting_offsets()[k] as int] & setting_masks()[k],
            decreases SETTING_COUNT - i,
        {
            let (off, mask) = setting_offset_mask(i);
            out.push(self.raw[off] & mask);
            i += 1;
        }
        out
    }

    /// Apply set-mode settings in [`settings_specs`] order. Change-gated per field: only
    /// a byte whose value changed is rewritten, and only its own bits, so re-applying the
    /// decoded settings is a no-op ([`lemma_apply_settings_is_noop`]).
    pub fn apply_settings(&mut self, values: &[u8])
        requires
            old(self).wf(),
        ensures
            final(self).wf(),
            final(self)@ == with_checksum(apply_setting_values(
                old(self)@,
                values@,
                min_int(SETTING_COUNT as int, values@.len() as int),
            )),
    {
        let ghost r0 = self@;
        let n = if values.len() < SETTING_COUNT { values.len() } else { SETTING_COUNT };
        let mut i: usize = 0;
        while i < n
            invariant
                i <= n <= SETTING_COUNT,
                n <= values@.len(),
                self.wf(),
                self@ == apply_setting_values(r0, values@, i as int),
            decreases n - i,
        {
            let (off, mask) = setting_offset_mask(i);
            let val = values[i] & mask;
            let x = self.raw[off];
            if x & mask != val {
                self.raw.set(off, (x & !mask) | val);
            }
            proof {
                let v = values@[i as int];
                assert(v & mask & mask == v & mask) by (bit_vector);
            }
            i += 1;
        }
        self.recompute_checksum();
    }
}


// ---------------------------------------------------------------------------
// Laws.
// ---------------------------------------------------------------------------

/// Decoding then encoding an image whose stored checksum is valid gives back its
/// bytes exactly (the round-trip safety contract). Encoding always yields a valid
/// checksum, and re-encoding an encoded image changes nothing.
pub proof fn lemma_decode_encode_identity(bytes: Seq<u8>)
    requires
        bytes.len() == IMAGE_SIZE,
        bytes[IMAGE_SIZE - 1] == spec_checksum(bytes),
    ensures
        with_checksum(bytes) == bytes,
        with_checksum(with_checksum(bytes)) == with_checksum(bytes),
{
    assert(with_checksum(bytes) =~= bytes);
}

/// Whatever the image, encoding yields an image carrying a valid checksum.
pub proof fn lemma_encode_checksum_valid(bytes: Seq<u8>)
    requires
        bytes.len() == IMAGE_SIZE,
    ensures
        with_checksum(bytes)[IMAGE_SIZE - 1] == spec_checksum(with_checksum(bytes)),
        with_checksum(with_checksum(bytes)) == with_checksum(bytes),
{
    lemma_with_checksum_valid(bytes);
}

proof fn lemma_used_bit_noop(x: u8)
    ensures
        x >= 0x80 ==> x | 0x80 == x,
        x < 0x80 ==> x & 0x7F == x,
{
    assert(x >= 0x80 ==> x | 0x80 == x) by (bit_vector);
    assert(x < 0x80 ==> x & 0x7F == x) by (bit_vector);
}

/// The edges `pms_edges()` decodes.
pub open spec fn spec_edges(r: Seq<u8>) -> Seq<PmsEdge> {
    Seq::new(PMS_COUNT as nat, |i: int| spec_edge(r, i))
}

/// Re-applying the decoded PMS edges leaves the image bytes unchanged (so
/// `apply_pms(pms_edges())` changes at most the checksum byte, to its valid value).
pub proof fn lemma_apply_pms_edges_is_noop(r: Seq<u8>)
    requires
        r.len() == IMAGE_SIZE,
    ensures
        apply_edges(r, spec_edges(r)) == r,
{
    let es = spec_edges(r);
    assert forall|k: int| 0 <= k <= PMS_COUNT implies apply_edges(r, #[trigger] es.take(k)) == r by {
        lemma_apply_edges_prefix_noop(r, k);
    }
    assert(es.take(PMS_COUNT as int) =~= es);
}

proof fn lemma_apply_edges_prefix_noop(r: Seq<u8>, k: int)
    requires
        r.len() == IMAGE_SIZE,
        0 <= k <= PMS_COUNT,
    ensures
        apply_edges(r, spec_edges(r).take(k)) == r,
    decreases k,
{
    if k > 0 {
        let es = spec_edges(r).take(k);
        assert(es.drop_last() =~= spec_edges(r).take(k - 1));
        lemma_apply_edges_prefix_noop(r, k - 1);
        let e = es.last();
        assert(e == spec_edge(r, k - 1));
        let rec = pms_rec(k - 1);
        lemma_used_bit_noop(r[rec]);
        assert(r.update(rec, if e.used { r[rec] | 0x80 } else { r[rec] & 0x7F }) =~= r);
    }
}

/// Re-applying the decoded settings leaves the image bytes unchanged.
pub proof fn lemma_apply_settings_is_noop(r: Seq<u8>, vals: Seq<u8>)
    requires
        r.len() == IMAGE_SIZE,
        vals.len() == SETTING_COUNT,
        forall|i: int| 0 <= i < SETTING_COUNT ==> #[trigger] vals[i] == r[setting_offsets()[i] as int] & setting_masks()[i],
    ensures
        apply_setting_values(r, vals, SETTING_COUNT as int) == r,
{
    lemma_apply_settings_prefix_noop(r, vals, SETTING_COUNT as int);
}

proof fn lemma_apply_settings_prefix_noop(r: Seq<u8>, vals: Seq<u8>, n: int)
    requires
        r.len() == IMAGE_SIZE,
        vals.len() == SETTING_COUNT,
        0 <= n <= SETTING_COUNT,
        forall|i: int| 0 <= i < SETTING_COUNT ==> #[trigger] vals[i] == r[setting_offsets()[i] as int] & setting_masks()[i],
    ensures
        apply_setting_values(r, vals, n) == r,
    decreases n,
{
    if n > 0 {
        lemma_apply_settings_prefix_noop(r, vals, n - 1);
        let off = setting_offsets()[n - 1] as int;
        let m = setting_masks()[n - 1];
        let x = r[off];
        assert(vals[n - 1] == x & m);
        assert(setting_write(x, m, x & m) == x) by (bit_vector);
        assert(r.update(off, x) =~= r);
    }
}


proof fn lemma_banks_upto_contains(r: Seq<u8>, c: int, n: int, x: u8)
    requires
        0 <= n <= BANK_COUNT,
    ensures
        banks_upto(r, c, n).contains(x) <==> (x < n && in_bank(r, x as int, c)),
    decreases n,
{
    if n > 0 {
        lemma_banks_upto_contains(r, c, n - 1, x);
        let prev = banks_upto(r, c, n - 1);
        if in_bank(r, n - 1, c) {
            let cur = prev.push((n - 1) as u8);
            if x == n - 1 {
                assert(cur[cur.len() - 1] == x);
            } else {
                if cur.contains(x) {
                    let i = choose|i: int| 0 <= i < cur.len() && cur[i] == x;
                    assert(prev[i] == x);
                }
                if prev.contains(x) {
                    let i = choose|i: int| 0 <= i < prev.len() && prev[i] == x;
                    assert(cur[i] == x);
                }
            }
        }
    }
}

proof fn lemma_set_banks_noop(r: Seq<u8>, c: int, banks: Seq<u8>, n: int)
    requires
        r.len() == IMAGE_SIZE,
        0 <= c < MEM_COUNT,
        0 <= n <= BANK_COUNT,
        forall|b: int| 0 <= b < BANK_COUNT ==> (banks.contains(b as u8) <==> #[trigger] in_bank(r, b, c)),
    ensures
        spec_set_banks_upto(r, c, banks, n) == r,
    decreases n,
{
    if n > 0 {
        lemma_set_banks_noop(r, c, banks, n - 1);
        let at = bank_byte(n - 1, c);
        let x = r[at];
        let k = (c % 8) as u8;
        let bit = bank_bit(c);
        assert(bit == (1u8 << k) as u8);
        assert(k < 8 ==> ((x & ((1u8 << k) as u8)) != 0 ==> (x | ((1u8 << k) as u8)) == x)) by (bit_vector);
        assert(k < 8 ==> ((x & ((1u8 << k) as u8)) == 0 ==> (x & !((1u8 << k) as u8)) == x)) by (bit_vector);
        assert(in_bank(r, n - 1, c) == (x & bit != 0));
        assert(r.update(at, set_bank_bit(x, c, banks.contains((n - 1) as u8))) =~= r);
    }
}

/// Reprogramming a used slot with its own decoded channel changes nothing.
proof fn lemma_program_own_channel(r: Seq<u8>, c: int)
    requires
        r.len() == IMAGE_SIZE,
        0 <= c < MEM_COUNT,
        spec_used(r, c),
    ensures
        spec_program(r, c, spec_channel(r, c)) == r,
{
    reveal(spec_program);
    let ch = spec_channel(r, c);
    lemma_used_bit_noop(r[rec_of(c)]);
    assert(spec_set_used(r, c, true) =~= r);
    assert forall|b: int| 0 <= b < BANK_COUNT implies (ch.banks.contains(b as u8) <==> #[trigger] in_bank(r, b, c)) by {
        lemma_banks_upto_contains(r, c, BANK_COUNT as int, b as u8);
    }
    lemma_set_banks_noop(r, c, ch.banks, BANK_COUNT as int);
}

/// A slot's skip flag is read from its two bits of the skip table (byte
/// `SKIP_BASE + c / 4`, bits `2 * (c % 4)` and up): `1` is skip (`"S"`), `2` is
/// preferred (`"P"`), and `0` or the undefined `3` is unflagged.
pub proof fn lemma_skip_flag_of_bits(r: Seq<u8>, c: int)
    requires
        r.len() == IMAGE_SIZE,
        0 <= c < MEM_COUNT,
    ensures
        (r[SKIP_BASE + c / 4] >> ((2 * (c % 4)) as u8)) & 3u8 == 1u8 ==> spec_channel(r, c).skip == "S"@,
        (r[SKIP_BASE + c / 4] >> ((2 * (c % 4)) as u8)) & 3u8 == 2u8 ==> spec_channel(r, c).skip == "P"@,
        (r[SKIP_BASE + c / 4] >> ((2 * (c % 4)) as u8)) & 3u8 == 0u8 ==> spec_channel(r, c).skip == ""@,
        (r[SKIP_BASE + c / 4] >> ((2 * (c % 4)) as u8)) & 3u8 == 3u8 ==> spec_channel(r, c).skip == ""@,
{
    assert(skip_shift(c) == (2 * (c % 4)) as u8);
}

/// Writing a skip flag (`""`, `"S"` or `"P"`) into a slot and reading the slot's
/// flag back gives the flag written; every other byte is left as it was, and
/// within the slot's skip byte only the slot's two bits change.
pub proof fn lemma_set_skip_reads_back(r: Seq<u8>, c: int, s: Seq<char>)
    requires
        r.len() == IMAGE_SIZE,
        0 <= c < MEM_COUNT,
        s == ""@ || s == "S"@ || s == "P"@,
    ensures
        spec_set_skip(r, c, s).len() == r.len(),
        spec_skip(spec_set_skip(r, c, s), c) == s,
        forall|i: int| 0 <= i < r.len() && i != SKIP_BASE + c / 4 ==> #[trigger] spec_set_skip(r, c, s)[i] == r[i],
        forall|d: int| 0 <= d < MEM_COUNT && d != c ==> #[trigger] spec_skip(spec_set_skip(r, c, s), d) == spec_skip(r, d),
{
    reveal_strlit("");
    reveal_strlit("S");
    reveal_strlit("P");
    assert(""@.len() == 0 && "S"@.len() == 1 && "P"@.len() == 1);
    assert("S"@ != "P"@) by {
        assert("S"@[0] != "P"@[0]);
    }
    let at = skip_byte(c);
    let sh = skip_shift(c);
    if spec_skip(r, c) != s {
        let b = r[at];
        let v = skip_value(s);
        assert(v <= 2);
        assert(sh <= 6 && sh % 2 == 0);
        let nb = ((b & !((3u8 << sh) as u8)) | ((v << sh) as u8)) as u8;
        assert(sh <= 6 && sh % 2 == 0 && v < 4 ==> (nb >> sh) & 3u8 == v) by (bit_vector)
            requires nb == ((b & !((3u8 << sh) as u8)) | ((v << sh) as u8)) as u8;
        assert forall|d: int| 0 <= d < MEM_COUNT && d != c implies #[trigger] spec_skip(spec_set_skip(r, c, s), d) == spec_skip(r, d) by {
            if skip_byte(d) == at {
                let sd = skip_shift(d);
                assert(sd != sh && sd <= 6 && sd % 2 == 0);
                assert(sd <= 6 && sh <= 6 && sd % 2 == 0 && sh % 2 == 0 && sd != sh ==> (nb >> sd) & 3u8 == (b >> sd) & 3u8) by (bit_vector)
                    requires nb == ((b & !((3u8 << sh) as u8)) | ((v << sh) as u8)) as u8, v < 4;
            }
        }
    }
}

/// Every byte a slot's setters touch lies inside the image.
proof fn lemma_slot_bytes_in_image(c: int)
    requires
        0 <= c < MEM_COUNT,
    ensures
        0 <= rec_of(c),
        rec_of(c) + MEM_LEN <= IMAGE_SIZE,
        0 <= name_of(c),
        name_of(c) + NAME_STRIDE <= IMAGE_SIZE,
        forall|b: int| 0 <= b < BANK_COUNT ==> 0 <= #[trigger] bank_byte(b, c) < IMAGE_SIZE,
        0 <= skip_byte(c) < IMAGE_SIZE,
{
    assert(0 <= c * 16 <= 999 * 16) by (nonlinear_arith)
        requires
            0 <= c < 1000,
    ;
    assert(0 <= c * 8 <= 999 * 8) by (nonlinear_arith)
        requires
            0 <= c < 1000,
    ;
    assert forall|b: int| 0 <= b < BANK_COUNT implies 0 <= #[trigger] bank_byte(b, c) < IMAGE_SIZE by {
        assert(0 <= b * 128 <= 9 * 128) by (nonlinear_arith)
            requires
                0 <= b < 10,
        ;
    }
}

proof fn lemma_set_banks_len(r: Seq<u8>, c: int, banks: Seq<u8>, n: int)
    requires
        r.len() == IMAGE_SIZE,
        0 <= c < MEM_COUNT,
        n <= BANK_COUNT,
    ensures
        spec_set_banks_upto(r, c, banks, n).len() == IMAGE_SIZE,
    decreases n,
{
    if n > 0 {
        lemma_set_banks_len(r, c, banks, n - 1);
        lemma_slot_bytes_in_image(c);
        assert(0 <= bank_byte(n - 1, c) < IMAGE_SIZE);
    }
}

/// Programming a slot with a channel whose skip flag is `""`, `"S"` or `"P"` and
/// decoding the slot gives that flag back.
pub proof fn lemma_program_skip_reads_back(r: Seq<u8>, c: int, ch: SpecChannel)
    requires
        r.len() == IMAGE_SIZE,
        0 <= c < MEM_COUNT,
        ch.skip == ""@ || ch.skip == "S"@ || ch.skip == "P"@,
    ensures
        spec_channel(spec_program(r, c, ch), c).skip == ch.skip,
{
    reveal(spec_program);
    lemma_slot_bytes_in_image(c);
    let a = rec_of(c);
    let r1 = spec_set_used(r, c, true);
    assert(r1.len() == IMAGE_SIZE);
    let r2 = spec_set_freq(r1, c, ch.rx_hz);
    assert(r2.len() == IMAGE_SIZE);
    let r3 = spec_set_mode(r2, c, ch.mode);
    assert(r3.len() == IMAGE_SIZE);
    let r4 = spec_set_duplex(r3, c, ch.duplex);
    assert(r4.len() == IMAGE_SIZE);
    let r5 = spec_set_offset(r4, c, ch.offset_hz);
    assert(r5.len() == IMAGE_SIZE);
    let r6 = spec_set_tx_freq(r5, c, ch.tx_hz);
    assert(r6.len() == IMAGE_SIZE);
    let r7 = spec_set_tone(r6, c, ch.tone_mode, ch.tone);
    assert(r7.len() == IMAGE_SIZE);
    let r8 = spec_set_power(r7, c, ch.power);
    assert(r8.len() == IMAGE_SIZE);
    let r9 = spec_set_step(r8, c, ch.step);
    assert(r9.len() == IMAGE_SIZE);
    let r10 = spec_set_name(r9, c, ch.name);
    assert(r10.len() == IMAGE_SIZE);
    lemma_set_banks_len(r10, c, ch.banks, BANK_COUNT as int);
    let r11 = spec_set_banks(r10, c, ch.banks);
    lemma_set_skip_reads_back(r11, c, ch.skip);
}

/// Writing a slot's power level (0-3) or tuning step (0-7) and reading it back
/// gives the value written; the slot's other settings held in the same bytes
/// (its CTCSS tone index, its tone mode) are left as they were.
pub proof fn lemma_set_power_step_read_back(r: Seq<u8>, c: int, p: u8, st: u8)
    requires
        r.len() == IMAGE_SIZE,
        0 <= c < MEM_COUNT,
        p < 4,
        st < 8,
    ensures
        spec_power(spec_set_power(r, c, p), c) == p,
        spec_set_power(r, c, p)[rec_of(c) + 8] % 64 == r[rec_of(c) + 8] % 64,
        spec_step(spec_set_step(r, c, st), c) == st,
        spec_set_step(r, c, st)[rec_of(c) + 4] % 8 == r[rec_of(c) + 4] % 8,
{
    lemma_slot_bytes_in_image(c);
    let b8 = r[rec_of(c) + 8];
    let b4 = r[rec_of(c) + 4];
    if spec_power(r, c) != p {
        let nb = ((b8 & 0x3F) | ((p & 0x03) << 6)) as u8;
        assert(p < 4 ==> nb / 64 == p && nb % 64 == b8 % 64) by (bit_vector)
            requires
                nb == ((b8 & 0x3F) | ((p & 0x03) << 6)) as u8,
        ;
    }
    if spec_step(r, c) != st {
        let nb = ((b4 & 0x8F) | ((st & 0x07) << 4)) as u8;
        assert(st < 8 ==> (nb / 16) % 8 == st && nb % 8 == b4 % 8) by (bit_vector)
            requires
                nb == ((b4 & 0x8F) | ((st & 0x07) << 4)) as u8,
        ;
    }
}

/// Writing a slot's duplex (`""`, `"-"`, `"+"`, `"split"` or `"off"`) or its
/// modulation (`"FM"`, `"AM"` or `"NFM"`) and reading it back gives the value
/// written, and neither write clears the slot's used flag.
pub proof fn lemma_set_duplex_mode_read_back(r: Seq<u8>, c: int, d: Seq<char>, m: Seq<char>)
    requires
        r.len() == IMAGE_SIZE,
        0 <= c < MEM_COUNT,
        d == ""@ || d == "-"@ || d == "+"@ || d == "split"@ || d == "off"@,
        m == "FM"@ || m == "AM"@ || m == "NFM"@,
    ensures
        spec_duplex(spec_set_duplex(r, c, d), c) == d,
        spec_used(spec_set_duplex(r, c, d), c) == spec_used(r, c),
        spec_mode(spec_set_mode(r, c, m)[rec_of(c)]) == m,
        spec_used(spec_set_mode(r, c, m), c) == spec_used(r, c),
{
    lemma_slot_bytes_in_image(c);
    reveal_strlit("");
    reveal_strlit("-");
    reveal_strlit("+");
    reveal_strlit("split");
    reveal_strlit("off");
    reveal_strlit("FM");
    reveal_strlit("AM");
    reveal_strlit("NFM");
    assert("-"@ != "+"@) by {
        assert("-"@[0] != "+"@[0]);
    }
    assert("split"@ != "off"@ && "FM"@ != "AM"@) by {
        assert("split"@.len() != "off"@.len());
        assert("FM"@[0] != "AM"@[0]);
    }
    let b0 = r[rec_of(c)];
    if spec_duplex(r, c) != d {
        let v = duplex_index(d) as u8;
        assert(v <= 5);
        let nb = ((b0 & 0xF0) | v) as u8;
        assert(v < 16 ==> nb % 16 == v && (nb >= 0x80) == (b0 >= 0x80)) by (bit_vector)
            requires
                nb == ((b0 & 0xF0) | v) as u8,
        ;
    }
    if spec_mode(b0) != m {
        let v = mode_bits(m);
        let nb = ((b0 & 0xCF) | v) as u8;
        assert((v == 0 || v == 0x10 || v == 0x20) ==> (nb & 0x10 != 0) == (v == 0x10) && (nb & 0x20 != 0) == (v
            == 0x20) && (nb >= 0x80) == (b0 >= 0x80)) by (bit_vector)
            requires
                nb == ((b0 & 0xCF) | v) as u8,
        ;
    }
}

/// Writing a repeater shift that is a whole number of 50 kHz steps (at most
/// 0x7FFF of them) and reading it back gives the shift written; the byte's top bit
/// (which the shift does not use) is kept.
pub proof fn lemma_set_offset_read_back(r: Seq<u8>, c: int, hz: u64)
    requires
        r.len() == IMAGE_SIZE,
        0 <= c < MEM_COUNT,
        hz % 50_000 == 0,
        hz / 50_000 <= 0x7FFF,
    ensures
        spec_offset(spec_set_offset(r, c, hz), c) == hz,
        spec_set_offset(r, c, hz)[rec_of(c) + OFFSET_LO] / 128 == r[rec_of(c) + OFFSET_LO] / 128,
{
    lemma_slot_bytes_in_image(c);
    if spec_offset(r, c) != hz {
        let u = offset_units(hz);
        assert(u as int == hz / 50_000);
        let at = rec_of(c) + OFFSET_LO;
        let b = r[at];
        let h8 = (u / 256) as u8;
        let hi = (h8 & 0x7F) as u8;
        let nb = ((b & 0x80) | hi) as u8;
        assert(u / 256 < 128);
        assert(h8 < 128);
        assert(h8 < 128 ==> (h8 & 0x7F) as u8 == h8) by (bit_vector);
        assert(nb % 128 == hi && nb / 128 == b / 128) by (bit_vector)
            requires
                nb == ((b & 0x80) | hi) as u8,
                hi < 128,
        ;
        let r2 = spec_set_offset(r, c, hz);
        assert(r2[at] == nb);
        assert(r2[at + 1] == (u % 256) as u8);
        assert((u / 256) * 256 + u % 256 == u) by (nonlinear_arith);
        assert((u as int) * 50_000 == hz) by (nonlinear_arith)
            requires
                u as int == hz / 50_000,
                hz % 50_000 == 0,
        ;
    }
}

/// Writing a slot's bank memberships and reading them back: the slot is in bank
/// `b` (of the ten) exactly when `b` is among the banks written.
pub proof fn lemma_set_banks_membership(r: Seq<u8>, c: int, banks: Seq<u8>, b: int)
    requires
        r.len() == IMAGE_SIZE,
        0 <= c < MEM_COUNT,
        0 <= b < BANK_COUNT,
    ensures
        in_bank(spec_set_banks(r, c, banks), b, c) == banks.contains(b as u8),
{
    lemma_set_banks_bit(r, c, banks, BANK_COUNT as int, b);
}

proof fn lemma_set_banks_bit(r: Seq<u8>, c: int, banks: Seq<u8>, n: int, b: int)
    requires
        r.len() == IMAGE_SIZE,
        0 <= c < MEM_COUNT,
        0 <= b < n <= BANK_COUNT,
    ensures
        in_bank(spec_set_banks_upto(r, c, banks, n), b, c) == banks.contains(b as u8),
    decreases n,
{
    lemma_slot_bytes_in_image(c);
    lemma_set_banks_len(r, c, banks, n - 1);
    let r1 = spec_set_banks_upto(r, c, banks, n - 1);
    let at = bank_byte(n - 1, c);
    let bit = bank_bit(c);
    let sh = (c % 8) as u8;
    assert(bit == (1u8 << sh) as u8);
    let x = r1[at];
    let m = banks.contains((n - 1) as u8);
    assert(sh < 8 ==> ((x | ((1u8 << sh) as u8)) & ((1u8 << sh) as u8) != 0) && ((x & !((1u8 << sh) as u8)) & ((1u8 << sh) as u8) == 0)) by (bit_vector);
    if b < n - 1 {
        lemma_set_banks_bit(r, c, banks, n - 1, b);
        assert(bank_byte(b, c) != at) by {
            assert(0 <= c / 8 < 128);
        }
    }
}

/// A tone that the tone mode written with it can carry: none for no tone mode, a
/// CTCSS tone from the radio's table for `Tone` / `TSQL` / `TSQL-R`, a DCS code from
/// its table for `DTCS` / `DTCS->`, and one of each for the cross modes.
pub open spec fn tone_fits_mode(mode: Seq<char>, tone: Tone) -> bool {
    match tone {
        Tone::NoTone => mode == tmode_label(0),
        Tone::Ctcss(hz) => (mode == tmode_label(1) || mode == tmode_label(2) || mode == tmode_label(3))
            && ctcss_table().contains(hz),
        Tone::Dcs(code) => (mode == tmode_label(4) || mode == tmode_label(5)) && dcs_table().contains(code),
        Tone::Cross { ctcss, dcs } => (mode == tmode_label(6) || mode == tmode_label(7))
            && ctcss_table().contains(ctcss) && dcs_table().contains(dcs),
    }
}

proof fn lemma_table_index_found(t: Seq<u16>, v: u16)
    requires
        t.contains(v),
    ensures
        0 <= table_index(t, v) < t.len(),
        t[table_index(t, v)] == v,
        table_at(t, table_index(t, v)) == v,
{
    let j = choose|j: int| 0 <= j < t.len() && t[j] == v;
    assert(exists|i: int| 0 <= i < t.len() && t[i] == v);
    lemma_first_index(t, v, j);
}

proof fn lemma_first_index(t: Seq<u16>, v: u16, j: int)
    requires
        0 <= j < t.len(),
        t[j] == v,
    ensures
        exists|i: int| 0 <= i < t.len() && t[i] == v && forall|m: int| 0 <= m < i ==> t[m] != v,
    decreases j,
{
    if exists|m: int| 0 <= m < j && t[m] == v {
        let m = choose|m: int| 0 <= m < j && t[m] == v;
        lemma_first_index(t, v, m);
    }
}

/// The tone category of tone-mode index `i`.
pub open spec fn tone_of_category(i: int, tone: Tone) -> bool {
    match tone {
        Tone::NoTone => i == 0,
        Tone::Ctcss(hz) => 1 <= i <= 3 && ctcss_table().contains(hz),
        Tone::Dcs(code) => 4 <= i <= 5 && dcs_table().contains(code),
        Tone::Cross { ctcss, dcs } => 6 <= i <= 7 && ctcss_table().contains(ctcss) && dcs_table().contains(dcs),
    }
}

proof fn lemma_tone_table_lens()
    ensures
        ctcss_table().len() == 50,
        dcs_table().len() == 104,
{
}

proof fn lemma_ctcss_value_read_back(r1: Seq<u8>, c: int, hz: u16)
    requires
        r1.len() == IMAGE_SIZE,
        0 <= c < MEM_COUNT,
        ctcss_table().contains(hz),
    ensures
        table_at(ctcss_table(), (set_tone_values(r1, c, Tone::Ctcss(hz))[rec_of(c) + 8] % 64) as int) == hz,
        set_tone_values(r1, c, Tone::Ctcss(hz))[rec_of(c) + 4] == r1[rec_of(c) + 4],
        set_tone_values(r1, c, Tone::Ctcss(hz))[rec_of(c) + 9] == r1[rec_of(c) + 9],
        set_tone_values(r1, c, Tone::Ctcss(hz)).len() == IMAGE_SIZE,
{
    lemma_slot_bytes_in_image(c);
    lemma_table_index_found(ctcss_table(), hz);
    lemma_tone_table_lens();
    let at8 = rec_of(c) + 8;
    let j = table_index(ctcss_table(), hz) as u8;
    let b = r1[at8];
    let nb = ((b & 0xC0) | (j & 0x3F)) as u8;
    assert(j < 64 ==> nb % 64 == j) by (bit_vector)
        requires
            nb == ((b & 0xC0) | (j & 0x3F)) as u8,
    ;
}

proof fn lemma_dcs_value_read_back(r1: Seq<u8>, c: int, code: u16)
    requires
        r1.len() == IMAGE_SIZE,
        0 <= c < MEM_COUNT,
        dcs_table().contains(code),
    ensures
        table_at(dcs_table(), (set_tone_values(r1, c, Tone::Dcs(code))[rec_of(c) + 9] % 128) as int) == code,
        set_tone_values(r1, c, Tone::Dcs(code))[rec_of(c) + 4] == r1[rec_of(c) + 4],
        set_tone_values(r1, c, Tone::Dcs(code))[rec_of(c) + 8] == r1[rec_of(c) + 8],
        set_tone_values(r1, c, Tone::Dcs(code)).len() == IMAGE_SIZE,
{
    lemma_slot_bytes_in_image(c);
    lemma_table_index_found(dcs_table(), code);
    lemma_tone_table_lens();
    let at9 = rec_of(c) + 9;
    let j = table_index(dcs_table(), code) as u8;
    let b = r1[at9];
    let nb = ((b & 0x80) | (j & 0x7F)) as u8;
    assert(j < 128 ==> nb % 128 == j) by (bit_vector)
        requires
            nb == ((b & 0x80) | (j & 0x7F)) as u8,
    ;
}

proof fn lemma_tone_values_read_back(r1: Seq<u8>, c: int, tone: Tone, i: int)
    requires
        r1.len() == IMAGE_SIZE,
        0 <= c < MEM_COUNT,
        r1[rec_of(c) + 4] % 8 == i,
        tone_of_category(i, tone),
    ensures
        spec_tone(set_tone_values(r1, c, tone), c) == tone,
{
    lemma_slot_bytes_in_image(c);
    match tone {
        Tone::NoTone => {},
        Tone::Ctcss(hz) => {
            lemma_ctcss_value_read_back(r1, c, hz);
        },
        Tone::Dcs(code) => {
            lemma_dcs_value_read_back(r1, c, code);
        },
        Tone::Cross { ctcss, dcs } => {
            lemma_ctcss_value_read_back(r1, c, ctcss);
            let r2 = set_tone_values(r1, c, Tone::Ctcss(ctcss));
            lemma_dcs_value_read_back(r2, c, dcs);
            assert(set_tone_values(r1, c, tone) == set_tone_values(r2, c, Tone::Dcs(dcs)));
        },
    }
}

/// Writing a slot's tone mode with a tone it can carry and reading the slot's tone
/// back gives the tone written.
pub proof fn lemma_set_tone_read_back(r: Seq<u8>, c: int, mode: Seq<char>, tone: Tone)
    requires
        r.len() == IMAGE_SIZE,
        0 <= c < MEM_COUNT,
        tone_fits_mode(mode, tone),
    ensures
        spec_tone(spec_set_tone(r, c, mode, tone), c) == tone,
{
    lemma_slot_bytes_in_image(c);
    let i: int = match tone {
        Tone::NoTone => 0,
        Tone::Ctcss(_) => if mode == tmode_label(1) { 1 } else if mode == tmode_label(2) { 2 } else { 3 },
        Tone::Dcs(_) => if mode == tmode_label(4) { 4 } else { 5 },
        Tone::Cross { .. } => if mode == tmode_label(6) { 6 } else { 7 },
    };
    assert(mode == tmode_label(i));
    assert(tone_of_category(i, tone));
    lemma_tmode_index_of_label(i);
    let at4 = rec_of(c) + 4;
    let r1 = if spec_tmode(r, c) != mode {
        r.update(at4, (r[at4] & 0xF8) | (tmode_index(mode) as u8))
    } else {
        r
    };
    lemma_set_used_tmode_read_back(r, c, true, mode, Tone::NoTone);
    assert(set_tone_values(r1, c, Tone::NoTone) == r1);
    assert(spec_tmode(r1, c) == mode);
    assert(r1[at4] % 8 == i) by {
        assert(tmode_label((r1[at4] % 8) as int) == tmode_label(i));
        lemma_tmode_index_of_label((r1[at4] % 8) as int);
    }
    assert(r1.len() == IMAGE_SIZE);
    if spec_tone(r, c) != tone {
        lemma_tone_values_read_back(r1, c, tone, i);
    } else {
        assert(r1[rec_of(c) + 8] == r[rec_of(c) + 8] && r1[rec_of(c) + 9] == r[rec_of(c) + 9]);
    }
}

/// Clearing a used slot leaves it unused, in no bank and without a skip flag.
pub proof fn lemma_clear_slot_empties(r: Seq<u8>, c: int)
    requires
        r.len() == IMAGE_SIZE,
        0 <= c < MEM_COUNT,
        spec_used(r, c),
    ensures
        !spec_used(spec_clear_slot(r, c), c),
        forall|b: int| 0 <= b < BANK_COUNT ==> !#[trigger] in_bank(spec_clear_slot(r, c), b, c),
        spec_skip(spec_clear_slot(r, c), c) == ""@,
{
    reveal(spec_clear_slot);
    lemma_slot_bytes_in_image(c);
    let b0 = r[rec_of(c)];
    assert((b0 & 0x7F) < 0x80) by (bit_vector);
    let r1 = spec_set_used(r, c, false);
    assert(r1.len() == IMAGE_SIZE);
    assert(!spec_used(r1, c));
    lemma_set_banks_len(r1, c, Seq::empty(), BANK_COUNT as int);
    let r2 = spec_set_banks(r1, c, Seq::empty());
    assert(r2[rec_of(c)] == r1[rec_of(c)]) by {
        lemma_set_banks_frame(r1, c, Seq::empty(), BANK_COUNT as int, rec_of(c));
    }
    assert forall|b: int| 0 <= b < BANK_COUNT implies !#[trigger] in_bank(r2, b, c) by {
        lemma_set_banks_membership(r1, c, Seq::empty(), b);
    }
    lemma_set_skip_reads_back(r2, c, ""@);
    let r3 = spec_set_skip(r2, c, ""@);
    assert(r3[rec_of(c)] == r2[rec_of(c)]);
    assert forall|b: int| 0 <= b < BANK_COUNT implies !#[trigger] in_bank(r3, b, c) by {
        assert(!in_bank(r2, b, c));
        assert(c / 8 < 125);
        assert(0 <= b * 128 <= 9 * 128) by (nonlinear_arith)
            requires
                0 <= b < 10,
        ;
        assert(bank_byte(b, c) < SKIP_BASE);
        assert(r3[bank_byte(b, c)] == r2[bank_byte(b, c)]);
    }
}

/// Setting a slot's bank bits changes no byte outside the bank table.
proof fn lemma_set_banks_frame(r: Seq<u8>, c: int, banks: Seq<u8>, n: int, i: int)
    requires
        r.len() == IMAGE_SIZE,
        0 <= c < MEM_COUNT,
        n <= BANK_COUNT,
        0 <= i < BANK_BASE,
    ensures
        spec_set_banks_upto(r, c, banks, n)[i] == r[i],
    decreases n,
{
    if n > 0 {
        lemma_set_banks_frame(r, c, banks, n - 1, i);
        lemma_set_banks_len(r, c, banks, n - 1);
        lemma_slot_bytes_in_image(c);
        assert(bank_byte(n - 1, c) >= BANK_BASE);
    }
}

/// The eight tone-mode labels are distinct: each one's index is its position.
proof fn lemma_tmode_index_of_label(i: int)
    requires
        0 <= i < 8,
    ensures
        tmode_index(tmode_label(i)) == i,
{
    reveal_strlit("");
    reveal_strlit("Tone");
    reveal_strlit("TSQL");
    reveal_strlit("TSQL-R");
    reveal_strlit("DTCS");
    reveal_strlit("DTCS->");
    reveal_strlit("Tone->DTCS");
    reveal_strlit("DTCS->Tone");
    assert(""@.len() == 0 && "Tone"@.len() == 4 && "TSQL"@.len() == 4 && "TSQL-R"@.len() == 6);
    assert("DTCS"@.len() == 4 && "DTCS->"@.len() == 6 && "Tone->DTCS"@.len() == 10 && "DTCS->Tone"@.len() == 10);
    assert("Tone"@ != "TSQL"@) by {
        assert("Tone"@[1] != "TSQL"@[1]);
    }
    assert("Tone"@ != "DTCS"@) by {
        assert("Tone"@[0] != "DTCS"@[0]);
    }
    assert("TSQL"@ != "DTCS"@) by {
        assert("TSQL"@[0] != "DTCS"@[0]);
    }
    assert("TSQL-R"@ != "DTCS->"@) by {
        assert("TSQL-R"@[0] != "DTCS->"@[0]);
    }
    assert("Tone->DTCS"@ != "DTCS->Tone"@) by {
        assert("Tone->DTCS"@[0] != "DTCS->Tone"@[0]);
    }
}

/// Setting a slot's tone values leaves its tone mode alone.
proof fn lemma_tone_values_keep_tmode(r: Seq<u8>, c: int, tone: Tone)
    requires
        r.len() == IMAGE_SIZE,
        0 <= c < MEM_COUNT,
    ensures
        set_tone_values(r, c, tone).len() == IMAGE_SIZE,
        spec_tmode(set_tone_values(r, c, tone), c) == spec_tmode(r, c),
{
    lemma_slot_bytes_in_image(c);
}

/// Marking a slot used or empty and reading the flag back gives the flag written;
/// writing a slot's tone mode (one of the eight the radio offers) and reading it
/// back gives the mode written, whatever tone goes with it.
pub proof fn lemma_set_used_tmode_read_back(r: Seq<u8>, c: int, used: bool, mode: Seq<char>, tone: Tone)
    requires
        r.len() == IMAGE_SIZE,
        0 <= c < MEM_COUNT,
        exists|i: int| 0 <= i < 8 && mode == #[trigger] tmode_label(i),
    ensures
        spec_used(spec_set_used(r, c, used), c) == used,
        spec_tmode(spec_set_tone(r, c, mode, tone), c) == mode,
{
    lemma_slot_bytes_in_image(c);
    let b0 = r[rec_of(c)];
    assert((b0 | 0x80) >= 0x80 && (b0 & 0x7F) < 0x80) by (bit_vector);
    let at4 = rec_of(c) + 4;
    let b4 = r[at4];
    let i = choose|i: int| 0 <= i < 8 && mode == #[trigger] tmode_label(i);
    lemma_tmode_index_of_label(i);
    let r1 = if spec_tmode(r, c) != mode {
        r.update(at4, (r[at4] & 0xF8) | (tmode_index(mode) as u8))
    } else {
        r
    };
    if spec_tmode(r, c) != mode {
        let v = tmode_index(mode) as u8;
        let nb = ((b4 & 0xF8) | v) as u8;
        assert(v < 8 ==> nb % 8 == v) by (bit_vector)
            requires
                nb == ((b4 & 0xF8) | v) as u8,
        ;
        assert(r1[at4] == nb);
    }
    assert(spec_tmode(r1, c) == mode);
    lemma_tone_values_keep_tmode(r1, c, tone);
}

/// Which decoded channel (if any) names slot `s`.
proof fn lemma_decoded_slots(r: Seq<u8>, n: int, s: int)
    requires
        r.len() == IMAGE_SIZE,
        0 <= n <= MEM_COUNT,
        0 <= s < MEM_COUNT,
    ensures
        s < n ==> match last_with_slot(decoded_upto(r, n), s) {
            Some(k) => 0 <= k < decoded_upto(r, n).len() && spec_used(r, s) && decoded_upto(r, n)[k] == spec_channel(r, s),
            None => !spec_used(r, s),
        },
        s >= n ==> last_with_slot(decoded_upto(r, n), s) is None,
    decreases n,
{
    if n > 0 {
        lemma_decoded_slots(r, n - 1, s);
        let prev = decoded_upto(r, n - 1);
        if spec_used(r, n - 1) {
            let cur = prev.push(spec_channel(r, n - 1));
            assert(cur.drop_last() =~= prev);
            assert(cur.last().slot as int == n - 1);
        }
    }
}

/// The write-side round trip: applying an image's own decoded channels back onto it
/// leaves every byte as it was, so `apply_channels(channels())` changes at most the
/// checksum byte (to its valid value) and `encode` gives the same bytes before and after.
pub proof fn lemma_apply_decoded_channels_is_noop(r: Seq<u8>)
    requires
        r.len() == IMAGE_SIZE,
    ensures
        apply_slots(r, spec_channels(r), MEM_COUNT as int) == r,
        spec_apply_channels(r, spec_channels(r)) == with_checksum(r),
        with_checksum(spec_apply_channels(r, spec_channels(r))) == with_checksum(r),
{
    lemma_apply_slots_own_prefix(r, MEM_COUNT as int);
    lemma_with_checksum_valid(r);
}

proof fn lemma_apply_slots_own_prefix(r: Seq<u8>, n: int)
    requires
        r.len() == IMAGE_SIZE,
        0 <= n <= MEM_COUNT,
    ensures
        apply_slots(r, spec_channels(r), n) == r,
    decreases n,
{
    if n > 0 {
        lemma_apply_slots_own_prefix(r, n - 1);
        lemma_decoded_slots(r, MEM_COUNT as int, n - 1);
        match last_with_slot(spec_channels(r), n - 1) {
            Some(k) => {
                lemma_program_own_channel(r, n - 1);
            },
            None => {
                reveal(spec_clear_slot);
            },
        }
    }
}


// ---------------------------------------------------------------------------
// The FT-60R as a registered radio profile.
// ---------------------------------------------------------------------------

/// The value kind a tone mode needs: CTCSS for 1–3, DCS for 4–5, both for 6–7.
pub open spec fn tone_value_kind(i: int) -> ToneValueKind {
    if 1 <= i <= 3 {
        ToneValueKind::Ctcss
    } else if 4 <= i <= 5 {
        ToneValueKind::Dcs
    } else if 6 <= i <= 7 {
        ToneValueKind::Cross
    } else {
        ToneValueKind::NoValue
    }
}

/// The label of a tuning step in kHz ("5 kHz", "12.5 kHz").
pub open spec fn step_label(hz: u32) -> Seq<char> {
    let khz = hz / 1000;
    let frac = hz % 1000;
    if frac == 0 {
        decimal(khz as nat) + " kHz"@
    } else if frac % 100 == 0 {
        decimal(khz as nat) + "."@ + decimal((frac / 100) as nat) + " kHz"@
    } else {
        decimal(khz as nat) + "."@ + decimal(frac as nat) + " kHz"@
    }
}

fn step_label_exec(hz: u32) -> (s: String)
    ensures
        s@ == step_label(hz),
{
    let khz = hz / 1000;
    let frac = hz % 1000;
    let mut s = decimal_string(khz as u64);
    if frac != 0 {
        s.append(".");
        if frac % 100 == 0 {
            push_decimal(&mut s, (frac / 100) as u64);
        } else {
            push_decimal(&mut s, frac as u64);
        }
    }
    s.append(" kHz");
    s
}

fn plain_options(labels: &[&str]) -> (r: Vec<FieldOption>)
    requires
        labels@.len() < 256,
    ensures
        r@.len() == labels@.len(),
        forall|i: int| 0 <= i < r@.len() ==> (#[trigger] r@[i]).label@ == labels@[i]@ && r@[i].code == i
            && r@[i].value_kind == ToneValueKind::NoValue,
{
    let mut r: Vec<FieldOption> = Vec::new();
    let mut i: usize = 0;
    while i < labels.len()
        invariant
            i <= labels@.len() < 256,
            r@.len() == i,
            forall|k: int| 0 <= k < i ==> (#[trigger] r@[k]).label@ == labels@[k]@ && r@[k].code == k
                && r@[k].value_kind == ToneValueKind::NoValue,
        decreases labels@.len() - i,
    {
        r.push(FieldOption::new(labels[i], i as u8));
        i += 1;
    }
    r
}

impl RadioProfile for Ft60 {
    open spec fn spec_class(&self) -> RadioClass {
        RadioClass::CloneImage
    }

    open spec fn spec_id(&self) -> Seq<char> {
        "ft60r"@
    }

    open spec fn spec_name(&self) -> Seq<char> {
        "FT-60R"@
    }

    open spec fn spec_maker(&self) -> Seq<char> {
        "Yaesu"@
    }

    open spec fn spec_transport(&self) -> Seq<char> {
        "serial clone"@
    }

    open spec fn spec_sd_model_key(&self) -> Option<(Seq<char>, Seq<char>)> {
        None
    }

    open spec fn spec_clone_magic(&self) -> Option<Seq<u8>> {
        Some(ft60_magic())
    }

    fn id(&self) -> &'static str {
        "ft60r"
    }

    fn product_name(&self) -> &'static str {
        "FT-60R"
    }

    fn maker(&self) -> &'static str {
        "Yaesu"
    }

    fn transport(&self) -> &'static str {
        "serial clone"
    }

    fn class(&self) -> RadioClass {
        RadioClass::CloneImage
    }

    fn as_sd_card(&self) -> (r: Option<&dyn SdCardProfile>) {
        None
    }

    fn as_clone_image(&self) -> (r: Option<&dyn CloneImageProfile>) {
        Some(self)
    }
}

impl CloneImageProfile for Ft60 {
    open spec fn spec_magic(&self) -> Seq<u8> {
        ft60_magic()
    }

    open spec fn spec_clone_id(&self) -> Seq<char> {
        "ft60r"@
    }

    open spec fn spec_clone_name(&self) -> Seq<char> {
        "FT-60R"@
    }

    fn id(&self) -> &'static str {
        "ft60r"
    }

    fn product_name(&self) -> &'static str {
        "FT-60R"
    }

    fn maker(&self) -> &'static str {
        "Yaesu"
    }

    fn transport(&self) -> &'static str {
        "serial clone"
    }

    fn class(&self) -> RadioClass {
        RadioClass::CloneImage
    }

    fn clone_spec(&self) -> (r: CloneSpec)
        ensures
            r.baud == 9600,
            r.image_size == IMAGE_SIZE,
    {
        CloneSpec::ft60()
    }

    fn capacity(&self) -> (r: CloneCapacity)
        ensures
            r.channels == MEM_COUNT,
            r.banks == BANK_COUNT,
            r.name_len == NAME_LEN,
    {
        CloneCapacity { channels: MEM_COUNT, banks: BANK_COUNT, name_len: NAME_LEN }
    }

    /// Built from this module's fact tables — the same orderings the codec uses, so a
    /// UI's picker index round-trips through the writer with no separate table.
    fn field_options(&self) -> (r: CloneFieldOptions)
        ensures
            r.modes@.len() == 3,
            r.modes@[0].label@ == "FM"@ && r.modes@[1].label@ == "NFM"@ && r.modes@[2].label@ == "AM"@,
            forall|i: int| 0 <= i < 3 ==> (#[trigger] r.modes@[i]).code == i,
            r.powers@.len() == 3,
            r.powers@[0].label@ == "High"@ && r.powers@[1].label@ == "Mid"@ && r.powers@[2].label@ == "Low"@,
            forall|i: int| 0 <= i < 3 ==> (#[trigger] r.powers@[i]).code == i,
            r.tone_modes@.len() == 8,
            r.tone_modes@[0].label@ == "Off"@,
            forall|i: int| 1 <= i < 8 ==> (#[trigger] r.tone_modes@[i]).label@ == tmode_label(i),
            forall|i: int| 0 <= i < 8 ==> (#[trigger] r.tone_modes@[i]).code == i
                && r.tone_modes@[i].value_kind == tone_value_kind(i),
            r.steps@.len() == 8,
            forall|i: int| 0 <= i < 8 ==> (#[trigger] r.steps@[i]).label@ == step_label(steps_table()[i])
                && r.steps@[i].code == i,
            r.duplexes@.len() == 4,
            r.duplexes@[0].label@ == "Simplex"@ && r.duplexes@[0].code == 0,
            r.duplexes@[1].label@ == "\u{2212}"@ && r.duplexes@[1].code == 2,
            r.duplexes@[2].label@ == "+"@ && r.duplexes@[2].code == 3,
            r.duplexes@[3].label@ == "Split"@ && r.duplexes@[3].code == 4,
    {
        let modes = plain_options(&["FM", "NFM", "AM"]);
        let powers = plain_options(&["High", "Mid", "Low"]);
        let mut tone_modes: Vec<FieldOption> = Vec::new();
        let mut i: u8 = 0;
        while i < 8
            invariant
                i <= 8,
                tone_modes@.len() == i,
                i > 0 ==> tone_modes@[0].label@ == "Off"@,
                forall|k: int| 1 <= k < i ==> (#[trigger] tone_modes@[k]).label@ == tmode_label(k),
                forall|k: int| 0 <= k < i ==> (#[trigger] tone_modes@[k]).code == k
                    && tone_modes@[k].value_kind == tone_value_kind(k),
            decreases 8 - i,
        {
            let value_kind = if 1 <= i && i <= 3 {
                ToneValueKind::Ctcss
            } else if 4 <= i && i <= 5 {
                ToneValueKind::Dcs
            } else if 6 <= i && i <= 7 {
                ToneValueKind::Cross
            } else {
                ToneValueKind::NoValue
            };
            let label = if i == 0 { "Off" } else { tmode_str(i) };
            tone_modes.push(FieldOption { label: copy_str(label), code: i, value_kind });
            i += 1;
        }
        let hz = steps_hz();
        let mut steps: Vec<FieldOption> = Vec::new();
        let mut k: usize = 0;
        while k < 8
            invariant
                k <= 8,
                hz@ == steps_table(),
                steps@.len() == k,
                forall|j: int| 0 <= j < k ==> (#[trigger] steps@[j]).label@ == step_label(steps_table()[j])
                    && steps@[j].code == j,
            decreases 8 - k,
        {
            let label = step_label_exec(hz[k]);
            steps.push(FieldOption { label, code: k as u8, value_kind: ToneValueKind::NoValue });
            k += 1;
        }
        let duplexes = vec![
            FieldOption::new("Simplex", 0),
            FieldOption::new("\u{2212}", 2),
            FieldOption::new("+", 3),
            FieldOption::new("Split", 4),
        ];
        CloneFieldOptions { modes, tone_modes, steps, powers, duplexes }
    }
}

} // verus!
