//! The FT-60 memory list as option codes (the indices a form's pickers use) and
//! as JSON, with the image's band edges and settings and the channel form's
//! option sets; the codes of a decoded memory rebuild it.

use vstd::prelude::*;
use crate::device::ft60::{
    BANK_COUNT, Ft60Channel, Ft60Image, IMAGE_SIZE, MEM_COUNT, PMS_COUNT, PmsEdge, SETTING_COUNT, SpecChannel, Tone,
    banks_upto, bank_list, code_duplex, code_mode, code_skip, code_tone, decoded_upto, in_bank, option_labels,
    setting_keys, setting_labels, setting_masks, setting_offsets, setting_options, settings_specs, spec_channel,
    spec_channel_from_codes, spec_channels, spec_edge, tmode_index, tmode_index_of, tmode_label,
};
use crate::device::profile::{CloneFieldOptions, FieldOption, ToneValueKind};
use crate::text::{copy_str, decimal, push_decimal, str_eq};
use crate::ui::{join, jstr, lemma_join_step, push_json_string, push_str};

verus! {

/// One memory as the codes a form works with.
#[derive(Debug, Clone, PartialEq)]
pub struct MemoryCodes {
    pub slot: u16,
    pub name: String,
    pub freq_hz: u64,
    /// Index into the operating modes (0 FM, 1 NFM, 2 AM).
    pub mode_code: u8,
    /// Index into the tone modes.
    pub tone_mode_code: u8,
    /// `off`, `ctcss`, `dcs` or `cross`.
    pub tone_kind: &'static str,
    /// The CTCSS tone (Hz ×10) or DCS code; the CTCSS tone in a cross mode.
    pub tone_value: u16,
    /// The DCS code of a cross mode, else 0.
    pub tone_value2: u16,
    /// 0 simplex, 2 `-`, 3 `+`, 4 split (other duplex states read as simplex).
    pub duplex_code: u8,
    pub offset_hz: u64,
    pub tx_hz: u64,
    pub power: u8,
    pub step: u8,
    /// 0 none, 1 `S`, 2 `P`.
    pub skip_code: u8,
    pub banks: Vec<u8>,
}

pub struct SpecCodes {
    pub slot: u16,
    pub name: Seq<char>,
    pub freq_hz: u64,
    pub mode_code: u8,
    pub tone_mode_code: u8,
    pub tone_kind: Seq<char>,
    pub tone_value: u16,
    pub tone_value2: u16,
    pub duplex_code: u8,
    pub offset_hz: u64,
    pub tx_hz: u64,
    pub power: u8,
    pub step: u8,
    pub skip_code: u8,
    pub banks: Seq<u8>,
}

impl View for MemoryCodes {
    type V = SpecCodes;

    open spec fn view(&self) -> SpecCodes {
        SpecCodes {
            slot: self.slot,
            name: self.name@,
            freq_hz: self.freq_hz,
            mode_code: self.mode_code,
            tone_mode_code: self.tone_mode_code,
            tone_kind: self.tone_kind@,
            tone_value: self.tone_value,
            tone_value2: self.tone_value2,
            duplex_code: self.duplex_code,
            offset_hz: self.offset_hz,
            tx_hz: self.tx_hz,
            power: self.power,
            step: self.step,
            skip_code: self.skip_code,
            banks: self.banks@,
        }
    }
}

/// The mode's index among FM, NFM, AM (0 when none).
pub open spec fn mode_code(m: Seq<char>) -> u8 {
    if m == "FM"@ { 0 } else if m == "NFM"@ { 1 } else if m == "AM"@ { 2 } else { 0 }
}

pub open spec fn tone_kind(t: Tone) -> Seq<char> {
    match t {
        Tone::NoTone => "off"@,
        Tone::Ctcss(_) => "ctcss"@,
        Tone::Dcs(_) => "dcs"@,
        Tone::Cross { .. } => "cross"@,
    }
}

/// The tone's value and second value.
pub open spec fn tone_values(t: Tone) -> (u16, u16) {
    match t {
        Tone::NoTone => (0, 0),
        Tone::Ctcss(hz10) => (hz10, 0),
        Tone::Dcs(code) => (code, 0),
        Tone::Cross { ctcss, dcs } => (ctcss, dcs),
    }
}

pub open spec fn duplex_code(d: Seq<char>) -> u8 {
    if d == "-"@ { 2 } else if d == "+"@ { 3 } else if d == "split"@ { 4 } else { 0 }
}

pub open spec fn skip_code(s: Seq<char>) -> u8 {
    if s == "S"@ { 1 } else if s == "P"@ { 2 } else { 0 }
}

/// A channel's codes.
pub open spec fn spec_codes(c: SpecChannel) -> SpecCodes {
    SpecCodes {
        slot: c.slot,
        name: c.name,
        freq_hz: c.rx_hz,
        mode_code: mode_code(c.mode),
        tone_mode_code: tmode_index(c.tone_mode) as u8,
        tone_kind: tone_kind(c.tone),
        tone_value: tone_values(c.tone).0,
        tone_value2: tone_values(c.tone).1,
        duplex_code: duplex_code(c.duplex),
        offset_hz: c.offset_hz,
        tx_hz: c.tx_hz,
        power: c.power,
        step: c.step,
        skip_code: skip_code(c.skip),
        banks: c.banks,
    }
}

fn mode_code_of(m: &str) -> (r: u8)
    ensures
        r == mode_code(m@),
{
    if str_eq(m, "FM") { 0 } else if str_eq(m, "NFM") { 1 } else if str_eq(m, "AM") { 2 } else { 0 }
}

fn duplex_code_of(d: &str) -> (r: u8)
    ensures
        r == duplex_code(d@),
{
    if str_eq(d, "-") { 2 } else if str_eq(d, "+") { 3 } else if str_eq(d, "split") { 4 } else { 0 }
}

fn skip_code_of(s: &str) -> (r: u8)
    ensures
        r == skip_code(s@),
{
    if str_eq(s, "S") { 1 } else if str_eq(s, "P") { 2 } else { 0 }
}

/// The codes of one memory.
pub fn memory_codes(ch: &Ft60Channel) -> (r: MemoryCodes)
    ensures
        r@ == spec_codes(ch@),
{
    let (kind, v, v2): (&'static str, u16, u16) = match ch.tone {
        Tone::NoTone => ("off", 0, 0),
        Tone::Ctcss(hz10) => ("ctcss", hz10, 0),
        Tone::Dcs(code) => ("dcs", code, 0),
        Tone::Cross { ctcss, dcs } => ("cross", ctcss, dcs),
    };
    let mut banks: Vec<u8> = Vec::new();
    let mut k: usize = 0;
    while k < ch.banks.len()
        invariant
            k <= ch.banks@.len(),
            banks@ == ch.banks@.take(k as int),
        decreases ch.banks@.len() - k,
    {
        banks.push(ch.banks[k]);
        assert(banks@ =~= ch.banks@.take(k + 1));
        k += 1;
    }
    assert(banks@ =~= ch.banks@);
    let t = tmode_index_of(ch.tone_mode);
    MemoryCodes {
        slot: ch.slot,
        name: copy_str(ch.name.as_str()),
        freq_hz: ch.rx_hz,
        mode_code: mode_code_of(ch.mode),
        tone_mode_code: t,
        tone_kind: kind,
        tone_value: v,
        tone_value2: v2,
        duplex_code: duplex_code_of(ch.duplex),
        offset_hz: ch.offset_hz,
        tx_hz: ch.tx_hz,
        power: ch.power,
        step: ch.step,
        skip_code: skip_code_of(ch.skip),
        banks,
    }
}

// ---------------------------------------------------------------------------
// As JSON.
// ---------------------------------------------------------------------------

/// Slot, name, frequency and mode code.
pub open spec fn memory_part1(k: SpecCodes) -> Seq<char> {
    "{\"slot\":"@ + decimal(k.slot as nat) + ",\"name\":"@ + jstr(k.name) + ",\"freqHz\":"@ + decimal(k.freq_hz as nat)
        + ",\"modeCode\":"@ + decimal(k.mode_code as nat)
}

/// The tone codes and values.
pub open spec fn memory_part2(k: SpecCodes) -> Seq<char> {
    ",\"toneModeCode\":"@ + decimal(k.tone_mode_code as nat) + ",\"toneMode\":"@ + jstr(k.tone_kind) + ",\"toneValue\":"@
        + decimal(k.tone_value as nat) + ",\"toneValue2\":"@ + decimal(k.tone_value2 as nat)
}

/// Duplex, offset, transmit frequency, power, step, skip, and the opening of
/// the bank list.
pub open spec fn memory_part3(k: SpecCodes) -> Seq<char> {
    ",\"duplexCode\":"@ + decimal(k.duplex_code as nat) + ",\"offsetHz\":"@ + decimal(k.offset_hz as nat) + ",\"txHz\":"@
        + decimal(k.tx_hz as nat) + ",\"power\":"@ + decimal(k.power as nat) + ",\"step\":"@ + decimal(k.step as nat)
        + ",\"skip\":"@ + decimal(k.skip_code as nat) + ",\"banks\":["@
}

/// One memory's codes as JSON.
#[verifier::opaque]
pub open spec fn json_memory(k: SpecCodes) -> Seq<char> {
    memory_part1(k) + memory_part2(k) + memory_part3(k) + join(
        Seq::new(k.banks.len(), |i: int| decimal(k.banks[i] as nat)),
    ) + "]}"@
}

/// The memory list as a JSON array.
pub open spec fn json_memories(ks: Seq<SpecCodes>) -> Seq<char> {
    "["@ + join(Seq::new(ks.len(), |i: int| json_memory(ks[i]))) + "]"@
}

fn push_memory_part1(out: &mut String, k: &MemoryCodes)
    ensures
        final(out)@ == old(out)@ + memory_part1(k@),
{
    let ghost o0 = out@;
    push_str(out, "{\"slot\":");
    push_decimal(out, k.slot as u64);
    push_str(out, ",\"name\":");
    push_json_string(out, k.name.as_str());
    push_str(out, ",\"freqHz\":");
    push_decimal(out, k.freq_hz);
    push_str(out, ",\"modeCode\":");
    push_decimal(out, k.mode_code as u64);
    assert(out@ =~= o0 + memory_part1(k@));
}

fn push_memory_part2(out: &mut String, k: &MemoryCodes)
    ensures
        final(out)@ == old(out)@ + memory_part2(k@),
{
    let ghost o0 = out@;
    push_str(out, ",\"toneModeCode\":");
    push_decimal(out, k.tone_mode_code as u64);
    push_str(out, ",\"toneMode\":");
    push_json_string(out, k.tone_kind);
    push_str(out, ",\"toneValue\":");
    push_decimal(out, k.tone_value as u64);
    push_str(out, ",\"toneValue2\":");
    push_decimal(out, k.tone_value2 as u64);
    assert(out@ =~= o0 + memory_part2(k@));
}

fn push_memory_part3(out: &mut String, k: &MemoryCodes)
    ensures
        final(out)@ == old(out)@ + memory_part3(k@),
{
    let ghost o0 = out@;
    push_str(out, ",\"duplexCode\":");
    push_decimal(out, k.duplex_code as u64);
    push_str(out, ",\"offsetHz\":");
    push_decimal(out, k.offset_hz);
    push_str(out, ",\"txHz\":");
    push_decimal(out, k.tx_hz);
    push_str(out, ",\"power\":");
    push_decimal(out, k.power as u64);
    push_str(out, ",\"step\":");
    push_decimal(out, k.step as u64);
    push_str(out, ",\"skip\":");
    push_decimal(out, k.skip_code as u64);
    push_str(out, ",\"banks\":[");
    assert(out@ =~= o0 + memory_part3(k@));
}

fn push_banks(out: &mut String, banks: &Vec<u8>)
    ensures
        final(out)@ == old(out)@ + join(Seq::new(banks@.len(), |i: int| decimal(banks@[i] as nat))),
{
    let ghost head = out@;
    let ghost items = Seq::new(banks@.len(), |i: int| decimal(banks@[i] as nat));
    let mut j: usize = 0;
    assert(items.take(0) =~= Seq::<Seq<char>>::empty());
    while j < banks.len()
        invariant
            j <= banks@.len(),
            items == Seq::new(banks@.len(), |i: int| decimal(banks@[i] as nat)),
            out@ == head + join(items.take(j as int)),
        decreases banks@.len() - j,
    {
        proof { lemma_join_step(items, j as int); }
        if j > 0 {
            push_str(out, ",");
        }
        push_decimal(out, banks[j] as u64);
        assert(out@ =~= head + join(items.take(j + 1)));
        j += 1;
    }
    assert(items.take(items.len() as int) =~= items);
}

fn push_memory_json(out: &mut String, k: &MemoryCodes)
    ensures
        final(out)@ == old(out)@ + json_memory(k@),
{
    let ghost o0 = out@;
    push_memory_part1(out, k);
    push_memory_part2(out, k);
    push_memory_part3(out, k);
    push_banks(out, &k.banks);
    push_str(out, "]}");
    proof { reveal(json_memory); }
    assert(out@ =~= o0 + json_memory(k@));
}

/// The codes of every memory an image holds, in slot order.
pub open spec fn spec_memory_codes(r: Seq<u8>) -> Seq<SpecCodes> {
    Seq::new(spec_channels(r).len(), |i: int| spec_codes(spec_channels(r)[i]))
}

/// The image's memories as a JSON array of their codes: per memory `slot`,
/// `name`, `freqHz`, `modeCode`, `toneModeCode`, `toneMode`, `toneValue`,
/// `toneValue2`, `duplexCode`, `offsetHz`, `txHz`, `power`, `step`, `skip` and
/// `banks`.
pub fn memories_json(image: &Ft60Image) -> (r: String)
    requires
        image.wf(),
    ensures
        r@ == json_memories(spec_memory_codes(image@)),
{
    let channels = image.channels();
    let ghost ks = spec_memory_codes(image@);
    assert(channels@.len() == ks.len()) by {
        assert(crate::device::ft60::channels_view(channels@).len() == channels@.len());
    }
    assert forall|i: int| 0 <= i < channels@.len() implies (#[trigger] channels@[i])@ == spec_channels(image@)[i] by {
        assert(crate::device::ft60::channels_view(channels@)[i] == channels@[i]@);
    }
    let mut out = String::new();
    push_str(&mut out, "[");
    let ghost head = out@;
    let ghost items = Seq::new(ks.len(), |i: int| json_memory(ks[i]));
    let mut k: usize = 0;
    assert(items.take(0) =~= Seq::<Seq<char>>::empty());
    while k < channels.len()
        invariant
            k <= channels@.len(),
            channels@.len() == ks.len(),
            ks == spec_memory_codes(image@),
            forall|i: int| 0 <= i < channels@.len() ==> (#[trigger] channels@[i])@ == spec_channels(image@)[i],
            items == Seq::new(ks.len(), |i: int| json_memory(ks[i])),
            out@ == head + join(items.take(k as int)),
        decreases channels@.len() - k,
    {
        proof { lemma_join_step(items, k as int); }
        if k > 0 {
            push_str(&mut out, ",");
        }
        let codes = memory_codes(&channels[k]);
        push_memory_json(&mut out, &codes);
        assert(out@ =~= head + join(items.take(k + 1)));
        k += 1;
    }
    assert(items.take(items.len() as int) =~= items);
    push_str(&mut out, "]");
    out
}

// ---------------------------------------------------------------------------
// PMS band edges and set-mode settings as JSON.
// ---------------------------------------------------------------------------

/// A PMS edge as JSON.
pub open spec fn json_edge(e: PmsEdge) -> Seq<char> {
    "{\"index\":"@ + decimal(e.index as nat) + ",\"freqHz\":"@ + decimal(e.rx_hz as nat) + ",\"step\":"@ + decimal(
        e.step as nat,
    ) + "}"@
}

/// The used edges among the first `n` PMS records, as JSON items.
pub open spec fn used_edge_items(r: Seq<u8>, n: int) -> Seq<Seq<char>>
    decreases n,
{
    if n <= 0 {
        Seq::empty()
    } else {
        let prev = used_edge_items(r, n - 1);
        let e = spec_edge(r, n - 1);
        if e.used {
            prev.push(json_edge(e))
        } else {
            prev
        }
    }
}

/// The image's used PMS band edges as a JSON array (`index`, `freqHz`, `step`).
pub open spec fn json_pms(r: Seq<u8>) -> Seq<char> {
    "["@ + join(used_edge_items(r, PMS_COUNT as int)) + "]"@
}

proof fn lemma_join_push(s: Seq<Seq<char>>, x: Seq<char>)
    ensures
        join(s.push(x)) == join(s) + (if s.len() > 0 { ","@ } else { Seq::empty() }) + x,
{
    let t = s.push(x);
    assert(t.drop_last() =~= s);
    if s.len() == 0 {
        assert(t.len() == 1);
        assert(Seq::<char>::empty() + Seq::<char>::empty() + x =~= x);
    }
}

/// The image's used PMS band edges as JSON, in record order.
pub fn pms_json(image: &Ft60Image) -> (r: String)
    requires
        image.wf(),
    ensures
        r@ == json_pms(image@),
{
    let edges = image.pms_edges();
    let mut out = String::new();
    push_str(&mut out, "[");
    let ghost head = out@;
    let mut first = true;
    let mut i: usize = 0;
    while i < edges.len()
        invariant
            i <= edges@.len(),
            edges@.len() == PMS_COUNT,
            forall|k: int| 0 <= k < PMS_COUNT ==> #[trigger] edges@[k] == spec_edge(image@, k),
            first == (used_edge_items(image@, i as int).len() == 0),
            out@ == head + join(used_edge_items(image@, i as int)),
        decreases edges@.len() - i,
    {
        let e = edges[i];
        assert(e == spec_edge(image@, i as int));
        if e.used {
            proof { lemma_join_push(used_edge_items(image@, i as int), json_edge(e)); }
            if !first {
                push_str(&mut out, ",");
            }
            let ghost o0 = out@;
            push_str(&mut out, "{\"index\":");
            push_decimal(&mut out, e.index as u64);
            push_str(&mut out, ",\"freqHz\":");
            push_decimal(&mut out, e.rx_hz);
            push_str(&mut out, ",\"step\":");
            push_decimal(&mut out, e.step as u64);
            push_str(&mut out, "}");
            assert(out@ =~= o0 + json_edge(e));
            first = false;
        }
        i += 1;
    }
    push_str(&mut out, "]");
    out
}

/// The value of setting `i` in an image (the masked low bits of its byte).
pub open spec fn setting_value(r: Seq<u8>, i: int) -> u8 {
    r[setting_offsets()[i] as int] & setting_masks()[i]
}

/// A setting's key, label and value, and the opening of its options.
pub open spec fn setting_head(i: int, value: u8) -> Seq<char> {
    "{\"key\":"@ + jstr(setting_keys()[i]) + ",\"label\":"@ + jstr(setting_labels()[i]) + ",\"value\":"@ + decimal(
        value as nat,
    ) + ",\"options\":["@
}

/// One setting as JSON.
#[verifier::opaque]
pub open spec fn json_setting(i: int, value: u8) -> Seq<char> {
    setting_head(i, value) + join(Seq::new(setting_options(i).len(), |k: int| jstr(setting_options(i)[k]))) + "]}"@
}

/// The image's set-mode settings as a JSON array, in settings order.
pub open spec fn json_settings(r: Seq<u8>) -> Seq<char> {
    "["@ + join(Seq::new(SETTING_COUNT as nat, |i: int| json_setting(i, setting_value(r, i)))) + "]"@
}

fn push_setting(out: &mut String, i: usize, key: &str, label: &str, value: u8, options: &Vec<String>)
    requires
        i < SETTING_COUNT,
        key@ == setting_keys()[i as int],
        label@ == setting_labels()[i as int],
        option_labels(options@) == setting_options(i as int),
    ensures
        final(out)@ == old(out)@ + json_setting(i as int, value),
{
    let ghost o0 = out@;
    push_str(out, "{\"key\":");
    push_json_string(out, key);
    push_str(out, ",\"label\":");
    push_json_string(out, label);
    push_str(out, ",\"value\":");
    push_decimal(out, value as u64);
    push_str(out, ",\"options\":[");
    assert(out@ =~= o0 + setting_head(i as int, value));
    let ghost head = out@;
    let ghost os = setting_options(i as int);
    let ghost items = Seq::new(os.len(), |k: int| jstr(os[k]));
    let mut k: usize = 0;
    assert(items.take(0) =~= Seq::<Seq<char>>::empty());
    while k < options.len()
        invariant
            k <= options@.len(),
            os == option_labels(options@),
            items == Seq::new(os.len(), |k: int| jstr(os[k])),
            out@ == head + join(items.take(k as int)),
        decreases options@.len() - k,
    {
        proof { lemma_join_step(items, k as int); }
        if k > 0 {
            push_str(out, ",");
        }
        push_json_string(out, options[k].as_str());
        assert(out@ =~= head + join(items.take(k + 1)));
        k += 1;
    }
    assert(items.take(items.len() as int) =~= items);
    push_str(out, "]}");
    proof { reveal(json_setting); }
    assert(out@ =~= o0 + json_setting(i as int, value));
}

/// The image's set-mode settings as JSON, in settings order: per setting its
/// `key`, `label`, `value` (an index into its options) and `options`.
pub fn settings_json(image: &Ft60Image) -> (r: String)
    requires
        image.wf(),
    ensures
        r@ == json_settings(image@),
{
    let specs = settings_specs();
    let values = image.settings();
    let mut out = String::new();
    push_str(&mut out, "[");
    let ghost head = out@;
    let ghost items = Seq::new(SETTING_COUNT as nat, |i: int| json_setting(i, setting_value(image@, i)));
    let mut i: usize = 0;
    assert(items.take(0) =~= Seq::<Seq<char>>::empty());
    while i < SETTING_COUNT
        invariant
            i <= SETTING_COUNT,
            specs@.len() == SETTING_COUNT,
            values@.len() == SETTING_COUNT,
            forall|k: int| 0 <= k < SETTING_COUNT ==> {
                &&& (#[trigger] specs@[k]).key@ == setting_keys()[k]
                &&& specs@[k].label@ == setting_labels()[k]
                &&& option_labels(specs@[k].options@) == setting_options(k)
            },
            forall|k: int| 0 <= k < SETTING_COUNT ==> #[trigger] values@[k] == setting_value(image@, k),
            items == Seq::new(SETTING_COUNT as nat, |i: int| json_setting(i, setting_value(image@, i))),
            out@ == head + join(items.take(i as int)),
        decreases SETTING_COUNT - i,
    {
        proof { lemma_join_step(items, i as int); }
        if i > 0 {
            push_str(&mut out, ",");
        }
        let s = &specs[i];
        assert(s.key@ == setting_keys()[i as int]);
        push_setting(&mut out, i, s.key, s.label, values[i], &s.options);
        assert(out@ =~= head + join(items.take(i + 1)));
        i += 1;
    }
    assert(items.take(items.len() as int) =~= items);
    push_str(&mut out, "]");
    out
}

// ---------------------------------------------------------------------------
// The channel form's option sets as JSON.
// ---------------------------------------------------------------------------

pub open spec fn value_kind_name(k: ToneValueKind) -> Seq<char> {
    match k {
        ToneValueKind::NoValue => "none"@,
        ToneValueKind::Ctcss => "ctcss"@,
        ToneValueKind::Dcs => "dcs"@,
        ToneValueKind::Cross => "cross"@,
    }
}

/// One option: label and code, and for a tone mode the kind of value it needs.
pub open spec fn json_option(o: FieldOption, tone: bool) -> Seq<char> {
    "{\"label\":"@ + jstr(o.label@) + ",\"code\":"@ + decimal(o.code as nat) + (if tone {
        ",\"valueKind\":"@ + jstr(value_kind_name(o.value_kind))
    } else {
        Seq::empty()
    }) + "}"@
}

/// A named option list.
pub open spec fn json_option_list(key: Seq<char>, list: Seq<FieldOption>, tone: bool) -> Seq<char> {
    "\""@ + key + "\":["@ + join(Seq::new(list.len(), |i: int| json_option(list[i], tone))) + "]"@
}

/// The option sets as a JSON object: `modes`, `toneModes`, `steps`, `powers`,
/// `duplexes`.
pub open spec fn json_field_options(o: CloneFieldOptions) -> Seq<char> {
    "{"@ + json_option_list("modes"@, o.modes@, false) + ","@ + json_option_list("toneModes"@, o.tone_modes@, true)
        + ","@ + json_option_list("steps"@, o.steps@, false) + ","@ + json_option_list("powers"@, o.powers@, false)
        + ","@ + json_option_list("duplexes"@, o.duplexes@, false) + "}"@
}

fn push_option(out: &mut String, o: &FieldOption, tone: bool)
    ensures
        final(out)@ == old(out)@ + json_option(*o, tone),
{
    let ghost o0 = out@;
    push_str(out, "{\"label\":");
    push_json_string(out, o.label.as_str());
    push_str(out, ",\"code\":");
    push_decimal(out, o.code as u64);
    let ghost mid = out@;
    if tone {
        push_str(out, ",\"valueKind\":");
        let kind: &str = match o.value_kind {
            ToneValueKind::NoValue => "none",
            ToneValueKind::Ctcss => "ctcss",
            ToneValueKind::Dcs => "dcs",
            ToneValueKind::Cross => "cross",
        };
        push_json_string(out, kind);
    } else {
        assert(out@ =~= mid + Seq::<char>::empty());
    }
    push_str(out, "}");
    assert(out@ =~= o0 + json_option(*o, tone));
}

fn push_option_list(out: &mut String, key: &str, list: &Vec<FieldOption>, tone: bool)
    ensures
        final(out)@ == old(out)@ + json_option_list(key@, list@, tone),
{
    let ghost o0 = out@;
    push_str(out, "\"");
    push_str(out, key);
    push_str(out, "\":[");
    let ghost head = out@;
    let ghost items = Seq::new(list@.len(), |i: int| json_option(list@[i], tone));
    let mut k: usize = 0;
    assert(items.take(0) =~= Seq::<Seq<char>>::empty());
    while k < list.len()
        invariant
            k <= list@.len(),
            items == Seq::new(list@.len(), |i: int| json_option(list@[i], tone)),
            out@ == head + join(items.take(k as int)),
        decreases list@.len() - k,
    {
        proof { lemma_join_step(items, k as int); }
        if k > 0 {
            push_str(out, ",");
        }
        push_option(out, &list[k], tone);
        assert(out@ =~= head + join(items.take(k + 1)));
        k += 1;
    }
    assert(items.take(items.len() as int) =~= items);
    push_str(out, "]");
    assert(out@ =~= o0 + json_option_list(key@, list@, tone));
}

/// A clone-image radio's channel-form option sets as JSON: `modes`,
/// `toneModes` (each with the kind of value it needs), `steps`, `powers` and
/// `duplexes`, each option with its label and code.
pub fn field_options_json(opts: &CloneFieldOptions) -> (r: String)
    ensures
        r@ == json_field_options(*opts),
{
    let mut out = String::new();
    push_str(&mut out, "{");
    push_option_list(&mut out, "modes", &opts.modes, false);
    push_str(&mut out, ",");
    push_option_list(&mut out, "toneModes", &opts.tone_modes, true);
    push_str(&mut out, ",");
    push_option_list(&mut out, "steps", &opts.steps, false);
    push_str(&mut out, ",");
    push_option_list(&mut out, "powers", &opts.powers, false);
    push_str(&mut out, ",");
    push_option_list(&mut out, "duplexes", &opts.duplexes, false);
    push_str(&mut out, "}");
    out
}

// ---------------------------------------------------------------------------
// The codes rebuild the memory.
// ---------------------------------------------------------------------------

/// A bank list as a bit mask (bit *b* for bank *b*), the form in which
/// `channel_from_codes` takes banks.
pub open spec fn bank_mask(bs: Seq<u8>) -> u16
    decreases bs.len(),
{
    if bs.len() == 0 {
        0
    } else {
        bank_mask(bs.drop_last()) | (1u16 << bs.last())
    }
}

/// The channel a memory's codes describe, its banks passed as their mask.
pub open spec fn channel_of_codes(k: SpecCodes) -> SpecChannel {
    spec_channel_from_codes(
        k.slot,
        k.name,
        k.freq_hz,
        k.offset_hz as u32,
        k.tx_hz as u32,
        k.mode_code,
        k.tone_mode_code,
        k.tone_value,
        k.tone_value2,
        k.duplex_code,
        k.power,
        k.step,
        k.skip_code,
        bank_mask(k.banks),
    )
}

proof fn lemma_or_bit(m: u16, x: u8, b: u8)
    requires
        x < 16,
        b < 16,
    ensures
        ((m | (1u16 << x)) & (1u16 << b) != 0) == ((m & (1u16 << b) != 0) || x == b),
        (0u16 & (1u16 << b)) == 0,
{
    assert(((m | (1u16 << x)) & (1u16 << b) != 0) == ((m & (1u16 << b) != 0) || x == b)) by (bit_vector)
        requires
            x < 16,
            b < 16,
    ;
    assert((0u16 & (1u16 << b)) == 0) by (bit_vector);
}

proof fn lemma_mask_bits(r: Seq<u8>, c: int, n: int)
    requires
        0 <= n <= BANK_COUNT,
    ensures
        forall|b: u8| b < 16 ==> ((#[trigger] (bank_mask(banks_upto(r, c, n)) & (1u16 << b))) != 0) == (b < n
            && in_bank(r, b as int, c)),
    decreases n,
{
    if n == 0 {
        assert forall|b: u8| b < 16 implies ((#[trigger] (bank_mask(banks_upto(r, c, n)) & (1u16 << b))) != 0) == (b < n
            && in_bank(r, b as int, c)) by {
            lemma_or_bit(0, 0, b);
        }
    } else {
        lemma_mask_bits(r, c, n - 1);
        let prev = banks_upto(r, c, n - 1);
        if in_bank(r, n - 1, c) {
            let cur = prev.push((n - 1) as u8);
            assert(cur.drop_last() =~= prev);
            assert(bank_mask(cur) == bank_mask(prev) | (1u16 << ((n - 1) as u8)));
            assert forall|b: u8| b < 16 implies ((#[trigger] (bank_mask(banks_upto(r, c, n)) & (1u16 << b))) != 0) == (b
                < n && in_bank(r, b as int, c)) by {
                lemma_or_bit(bank_mask(prev), (n - 1) as u8, b);
                assert(((bank_mask(prev) & (1u16 << b))) != 0 == (b < n - 1 && in_bank(r, b as int, c)));
            }
        } else {
            assert forall|b: u8| b < 16 implies ((#[trigger] (bank_mask(banks_upto(r, c, n)) & (1u16 << b))) != 0) == (b
                < n && in_bank(r, b as int, c)) by {
                assert(((bank_mask(prev) & (1u16 << b))) != 0 == (b < n - 1 && in_bank(r, b as int, c)));
            }
        }
    }
}

proof fn lemma_bank_list_matches(mask: u16, r: Seq<u8>, c: int, m: u8)
    requires
        m <= BANK_COUNT,
        forall|b: u8| b < BANK_COUNT ==> ((#[trigger] (mask & (1u16 << b))) != 0) == in_bank(r, b as int, c),
    ensures
        bank_list(mask, m) == banks_upto(r, c, m as int),
    decreases m,
{
    if m > 0 {
        lemma_bank_list_matches(mask, r, c, (m - 1) as u8);
        let b = (m - 1) as u8;
        assert((mask & (1u16 << b) != 0) == in_bank(r, b as int, c));
    }
}

proof fn lemma_labels()
    ensures
        "FM"@ != "NFM"@,
        "FM"@ != "AM"@,
        "NFM"@ != "AM"@,
        "S"@ != "P"@,
        "S"@ != ""@,
        "P"@ != ""@,
        "-"@ != "+"@,
        "-"@ != "split"@,
        "-"@ != ""@,
        "+"@ != "split"@,
        "+"@ != ""@,
        "split"@ != ""@,
        forall|i: int, j: int| 0 <= i < 8 && 0 <= j < 8 && i != j ==> tmode_label(i) != tmode_label(j),
{
    reveal_strlit("FM");
    reveal_strlit("NFM");
    reveal_strlit("AM");
    reveal_strlit("S");
    reveal_strlit("P");
    reveal_strlit("");
    reveal_strlit("-");
    reveal_strlit("+");
    reveal_strlit("split");
    reveal_strlit("Tone");
    reveal_strlit("TSQL");
    reveal_strlit("TSQL-R");
    reveal_strlit("DTCS");
    reveal_strlit("DTCS->");
    reveal_strlit("Tone->DTCS");
    reveal_strlit("DTCS->Tone");
    assert("FM"@.len() == 2 && "AM"@.len() == 2 && "NFM"@.len() == 3);
    assert("FM"@[0] == 'F' && "AM"@[0] == 'A');
    assert("S"@[0] == 'S' && "P"@[0] == 'P' && "-"@[0] == '-' && "+"@[0] == '+');
    assert(""@.len() == 0 && "S"@.len() == 1 && "-"@.len() == 1 && "split"@.len() == 5);
    assert("Tone"@.len() == 4 && "TSQL"@.len() == 4 && "TSQL-R"@.len() == 6 && "DTCS"@.len() == 4);
    assert("DTCS->"@.len() == 6 && "Tone->DTCS"@.len() == 10 && "DTCS->Tone"@.len() == 10);
    assert("Tone"@[0] == 'T' && "TSQL"@[1] == 'S' && "Tone"@[1] == 'o');
    assert("TSQL-R"@[0] == 'T' && "DTCS->"@[0] == 'D');
    assert("Tone->DTCS"@[0] == 'T' && "DTCS->Tone"@[0] == 'D');
}

proof fn lemma_slot_codes_rebuild(r: Seq<u8>, c: int)
    requires
        r.len() == IMAGE_SIZE,
        0 <= c < MEM_COUNT,
        spec_channel(r, c).duplex != "off"@,
    ensures
        channel_of_codes(spec_codes(spec_channel(r, c))) == spec_channel(r, c),
{
    lemma_labels();
    let s = spec_channel(r, c);
    let k = spec_codes(s);
    let t = r[crate::device::ft60::rec_of(c) + 4] % 8;
    assert(tmode_index(tmode_label(t as int)) == t as int);
    lemma_mask_bits(r, c, BANK_COUNT as int);
    lemma_bank_list_matches(bank_mask(s.banks), r, c, 10);
    assert(k.offset_hz < 0x1_0000_0000);
    assert(k.tx_hz < 0x1_0000_0000);
    let back = channel_of_codes(k);
    assert(back.mode == s.mode);
    assert(back.duplex == s.duplex);
    assert(back.skip == s.skip);
    assert(back.tone == s.tone);
    assert(back.banks == s.banks);
}

proof fn lemma_decoded_slots_are_channels(r: Seq<u8>, n: int)
    requires
        0 <= n <= MEM_COUNT,
    ensures
        forall|k: int| 0 <= k < decoded_upto(r, n).len() ==> (#[trigger] decoded_upto(r, n)[k]).slot < n
            && decoded_upto(r, n)[k] == spec_channel(r, decoded_upto(r, n)[k].slot as int),
    decreases n,
{
    if n > 0 {
        lemma_decoded_slots_are_channels(r, n - 1);
    }
}

/// Every memory an image lists, turned into its codes and back (its banks as
/// their mask), is itself — unless its duplex is `off`, which the codes read as
/// simplex.
pub proof fn lemma_codes_rebuild_memory(r: Seq<u8>, k: int)
    requires
        r.len() == IMAGE_SIZE,
        0 <= k < spec_channels(r).len(),
        spec_channels(r)[k].duplex != "off"@,
    ensures
        channel_of_codes(spec_memory_codes(r)[k]) == spec_channels(r)[k],
{
    lemma_decoded_slots_are_channels(r, MEM_COUNT as int);
    let c = spec_channels(r)[k].slot as int;
    lemma_slot_codes_rebuild(r, c);
}

} // verus!
