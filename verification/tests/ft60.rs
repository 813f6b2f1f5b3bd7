use platypus_core::device::ft60::{
    charset_byte, checksum, encode_charset, modes, power_levels, settings_specs, tmodes,
    Ft60Channel, Ft60Image, PmsEdge, Tone, BANK_BASE, BANK_STRIDE, MEM_BASE, NAME_BASE,
    PMS_COUNT, SKIP_BASE,
};
use platypus_core::device::{CloneImageProfile, CloneSpec, Ft60, ProfileRegistry, RadioClass, ToneValueKind};

#[test]
fn ft60_spec_constants() {
    let s = CloneSpec::ft60();
    assert_eq!(s.baud, 9600);
    assert_eq!(s.image_size, 28_617);
    assert_eq!(s.ack, 0x06);
    assert_eq!(s.magic, b"AH017");
    assert_eq!(s.wire_len(), 8 + 448 * 64);
}

#[test]
fn ft60_is_a_registered_clone_image_profile() {
    let reg = ProfileRegistry::with_builtins();
    let ft60 = reg
        .clone_image_profiles()
        .into_iter()
        .find(|p| p.product_name() == "FT-60R")
        .expect("FT-60 registered as a clone-image profile");
    assert_eq!(ft60.class(), RadioClass::CloneImage);
    assert_eq!(ft60.clone_spec(), CloneSpec::ft60());
    // Detection by the model magic.
    assert!(reg.detect_clone_image(b"AH017\x00\x00\x00").is_some());
    assert!(reg.detect_clone_image(b"XX017\x00\x00\x00").is_none());
}

#[test]
fn field_options_match_the_fact_constants() {
    let opts = Ft60.field_options();
    let m = modes();
    assert_eq!(opts.modes.len(), m.len());
    for (i, o) in opts.modes.iter().enumerate() {
        assert_eq!(o.code as usize, i);
        assert_eq!(o.label, m[i]);
    }
    assert_eq!(
        opts.powers.iter().map(|o| o.label.as_str()).collect::<Vec<_>>(),
        power_levels()
    );
    assert_eq!(opts.tone_modes.len(), tmodes().len());
    assert_eq!(opts.tone_modes[0].label, "Off");
    assert_eq!(opts.tone_modes[0].value_kind, ToneValueKind::NoValue);
    assert_eq!(opts.tone_modes[1].value_kind, ToneValueKind::Ctcss);
    assert_eq!(opts.tone_modes[4].value_kind, ToneValueKind::Dcs);
    assert_eq!(opts.tone_modes[6].value_kind, ToneValueKind::Cross);
    assert_eq!(opts.tone_modes[7].value_kind, ToneValueKind::Cross);
    assert_eq!(opts.steps[0].label, "5 kHz");
    assert_eq!(opts.steps[2].label, "12.5 kHz");
    assert_eq!(opts.steps.last().unwrap().label, "100 kHz");
    let dup: Vec<_> = opts.duplexes.iter().map(|o| (o.label.as_str(), o.code)).collect();
    assert_eq!(dup, vec![("Simplex", 0), ("\u{2212}", 2), ("+", 3), ("Split", 4)]);
}

#[test]
fn header_match() {
    let s = CloneSpec::ft60();
    assert!(s.header_matches(b"AH017\x00\x00\x00"));
    assert!(!s.header_matches(b"XX017"));
    assert!(!s.header_matches(b"AH"));
}

/// A synthetic image (no real radio data): AH017 header + one programmed slot 0
/// (146.5200 FM, CTCSS 100.0, name "TEST12", banks A+C, skip). Everything else zero.
fn synthetic() -> Vec<u8> {
    let spec = CloneSpec::ft60();
    let mut b = vec![0u8; spec.image_size];
    b[..spec.magic.len()].copy_from_slice(spec.magic);
    b[MEM_BASE] = 0x80;
    b[MEM_BASE + 1] = 0x01;
    b[MEM_BASE + 2] = 0x46;
    b[MEM_BASE + 3] = 0x52;
    b[MEM_BASE + 4] = 0x52;
    b[MEM_BASE + 8] = 0x4C;
    b[NAME_BASE..NAME_BASE + 6].copy_from_slice(&[0x1D, 0x0E, 0x1C, 0x1D, 0x01, 0x02]);
    b[NAME_BASE + 6] = 0x80;
    b[NAME_BASE + 7] = 0x80;
    b[BANK_BASE] = 0x01;
    b[BANK_BASE + 2 * BANK_STRIDE] = 0x01;
    b[SKIP_BASE] = 0x01;
    let n = b.len();
    b[n - 1] = checksum(&b);
    b
}

#[test]
fn decode_synthetic_channel() {
    let img = Ft60Image::decode(&synthetic()).unwrap();
    let chans = img.channels();
    assert_eq!(chans.len(), 1, "only slot 0 is used");
    let c = &chans[0];
    assert_eq!(c.slot, 0);
    assert_eq!(c.name, "TEST12");
    assert_eq!(c.rx_hz, 146_520_000);
    assert_eq!(c.mode, "FM");
    assert_eq!(c.tone_mode, "TSQL");
    assert_eq!(c.tone, Tone::Ctcss(1000));
    assert_eq!(c.power, 1, "Mid");
    assert_eq!(c.step, 5, "25 kHz");
    assert_eq!(c.tx_hz, 0);
    assert_eq!(c.banks, vec![0, 2]);
    assert_eq!(c.skip, "S");
}

#[test]
fn synthetic_round_trips_byte_for_byte() {
    let bytes = synthetic();
    let img = Ft60Image::decode(&bytes).unwrap();
    assert_eq!(img.encode(), bytes, "decode → encode must be identity");
}

#[test]
fn checksum_is_sum_of_preceding_bytes() {
    let bytes = synthetic();
    let n = bytes.len();
    assert_eq!(bytes[n - 1], checksum(&bytes));
    let mut corrupt = bytes.clone();
    corrupt[n - 1] = corrupt[n - 1].wrapping_add(1);
    let img = Ft60Image::decode(&corrupt).unwrap();
    assert_eq!(img.encode(), bytes, "encode recomputes the checksum");
}

#[test]
fn apply_decoded_channels_is_a_noop() {
    let bytes = synthetic();
    let mut img = Ft60Image::decode(&bytes).unwrap();
    let chans = img.channels();
    img.apply_channels(&chans);
    assert_eq!(img.encode(), bytes, "apply(channels()) must be identity");
}

#[test]
fn edits_apply_and_decode_back() {
    let mut img = Ft60Image::decode(&synthetic()).unwrap();
    let mut chans = img.channels();
    chans[0].name = "HELLO".to_string();
    chans[0].rx_hz = 442_050_000;
    chans[0].mode = "NFM";
    chans[0].tone_mode = "DTCS";
    chans[0].tone = Tone::Dcs(23);
    chans[0].banks = vec![0];
    chans[0].skip = "";
    img.apply_channels(&chans);

    let back = img.channels();
    assert_eq!(back.len(), 1);
    let c = &back[0];
    assert_eq!(c.name, "HELLO");
    assert_eq!(c.rx_hz, 442_050_000);
    assert_eq!(c.mode, "NFM");
    assert_eq!(c.tone, Tone::Dcs(23));
    assert_eq!(c.banks, vec![0]);
    assert_eq!(c.skip, "");
    let bytes = img.encode();
    assert_eq!(bytes[bytes.len() - 1], checksum(&bytes));
    assert_eq!(Ft60Image::decode(&bytes).unwrap().channels(), back);
}

#[test]
fn name_charset_covers_symbols() {
    for b in 0x00u8..=0x3F {
        if b == 0x27 || b == 0x36 || b == 0x3C {
            continue;
        }
        assert_eq!(encode_charset(charset_byte(b)), b, "byte {b:#04x} must round-trip");
    }
    assert_eq!(charset_byte(0x31), '-');
    assert_eq!(charset_byte(0x33), '/');
    assert_eq!(charset_byte(0x3F), '_');

    let mut img = Ft60Image::decode(&synthetic()).unwrap();
    let mut chans = img.channels();
    chans[0].name = "A-B/C.".to_string();
    img.apply_channels(&chans);
    assert_eq!(img.channels()[0].name, "A-B/C.");
    let before = img.encode();
    let again = img.channels();
    img.apply_channels(&again);
    assert_eq!(img.encode(), before);
}

#[test]
fn duplex_and_offset_round_trip() {
    let mut img = Ft60Image::decode(&synthetic()).unwrap();
    let mut chans = img.channels();
    assert_eq!(chans[0].duplex, "");
    assert_eq!(chans[0].offset_hz, 0);
    chans[0].duplex = "-";
    chans[0].offset_hz = 600_000;
    img.apply_channels(&chans);

    let back = img.channels();
    assert_eq!(back[0].duplex, "-");
    assert_eq!(back[0].offset_hz, 600_000, "600 kHz = 12 × 50 kHz steps");
    let rec = MEM_BASE;
    assert_eq!((img.raw()[rec + 11], img.raw()[rec + 12]), (0x00, 0x0C));
    let before = img.encode();
    let again = img.channels();
    img.apply_channels(&again);
    assert_eq!(img.encode(), before);
}

#[test]
fn power_step_tone_mode_and_split_round_trip() {
    let mut img = Ft60Image::decode(&synthetic()).unwrap();
    let mut chans = img.channels();
    chans[0].power = 0;
    chans[0].step = 2;
    chans[0].tone_mode = "Tone";
    chans[0].duplex = "split";
    chans[0].tx_hz = 147_000_000;
    img.apply_channels(&chans);

    let back = &img.channels()[0];
    assert_eq!(back.power, 0);
    assert_eq!(back.step, 2);
    assert_eq!(back.tone_mode, "Tone");
    assert_eq!(back.tone, Tone::Ctcss(1000), "value preserved across a mode-only change");
    assert_eq!(back.duplex, "split");
    assert_eq!(back.tx_hz, 147_000_000);
    let before = img.encode();
    let again = img.channels();
    img.apply_channels(&again);
    assert_eq!(img.encode(), before);
}

#[test]
fn power_and_offset_encode_to_hardware_bytes() {
    let mut img = Ft60Image::decode(&synthetic()).unwrap();
    let mut chans = img.channels();

    chans[0].power = 1;
    img.apply_channels(&chans);
    assert_eq!(img.raw()[MEM_BASE + 8] & 0xC0, 0x40, "Mid = bits 01");
    chans[0].power = 2;
    img.apply_channels(&chans);
    assert_eq!(img.raw()[MEM_BASE + 8] & 0xC0, 0x80, "Low = bits 10");

    chans[0].rx_hz = 442_000_000;
    chans[0].duplex = "+";
    chans[0].offset_hz = 5_000_000;
    img.apply_channels(&chans);
    assert_eq!(img.raw()[MEM_BASE] & 0x0F, 3, "duplex '+' = nibble 3");
    let units = (((img.raw()[MEM_BASE + 11] as u16) << 8) | img.raw()[MEM_BASE + 12] as u16) & 0x7FFF;
    assert_eq!(units, 100, "5 MHz = 100 × 50 kHz");

    let before = img.encode();
    let again = img.channels();
    img.apply_channels(&again);
    assert_eq!(img.encode(), before);
}

#[test]
fn tone_cross_mode_carries_both_values() {
    let mut img = Ft60Image::decode(&synthetic()).unwrap();
    let mut chans = img.channels();
    chans[0].tone_mode = "Tone->DTCS";
    chans[0].tone = Tone::Cross { ctcss: 1000, dcs: 23 };
    img.apply_channels(&chans);

    let rec = MEM_BASE;
    assert_eq!(img.raw()[rec + 8] & 0x3F, 12, "CTCSS index kept");
    assert_eq!(img.raw()[rec + 9] & 0x7F, 0, "DCS index written");

    let back = &img.channels()[0];
    assert_eq!(back.tone_mode, "Tone->DTCS");
    assert_eq!(back.tone, Tone::Cross { ctcss: 1000, dcs: 23 }, "both halves survive");
    let before = img.encode();
    let again = img.channels();
    img.apply_channels(&again);
    assert_eq!(img.encode(), before);
}

#[test]
fn settings_round_trip_and_edit() {
    let mut img = Ft60Image::decode(&synthetic()).unwrap();
    let specs = settings_specs();
    let before = img.encode();
    let vals = img.settings();
    assert_eq!(vals.len(), specs.len());
    img.apply_settings(&vals);
    assert_eq!(img.encode(), before, "apply(settings()) must be identity");

    let lamp = specs.iter().position(|s| s.key == "lamp").unwrap();
    let mut edited = img.settings();
    edited[lamp] = 2;
    img.apply_settings(&edited);
    assert_eq!(img.raw()[0x2F] & 0x03, 2);
    assert_eq!(img.settings()[lamp], 2);
    let after = img.encode();
    let again = img.settings();
    img.apply_settings(&again);
    assert_eq!(img.encode(), after);
}

#[test]
fn pms_edges_round_trip() {
    let mut img = Ft60Image::decode(&synthetic()).unwrap();
    let edges = img.pms_edges();
    assert_eq!(edges.len(), PMS_COUNT);
    let before = img.encode();
    img.apply_pms(&edges);
    assert_eq!(img.encode(), before);
    let mut e = img.pms_edges();
    e[0] = PmsEdge { index: 0, used: true, rx_hz: 144_000_000, step: 5 };
    e[1] = PmsEdge { index: 1, used: true, rx_hz: 148_000_000, step: 5 };
    img.apply_pms(&e);
    let back = img.pms_edges();
    assert!(back[0].used && back[1].used);
    assert_eq!(back[0].rx_hz, 144_000_000);
    assert_eq!(back[1].rx_hz, 148_000_000);
}

#[test]
fn add_and_remove_channels() {
    let mut img = Ft60Image::decode(&synthetic()).unwrap();
    let mut chans = img.channels();
    chans.push(Ft60Channel {
        slot: 5,
        name: "NEW1".to_string(),
        rx_hz: 146_940_000,
        duplex: "",
        offset_hz: 0,
        tx_hz: 0,
        mode: "FM",
        tone_mode: "TSQL",
        tone: Tone::Ctcss(1000),
        power: 0,
        step: 0,
        banks: vec![1],
        skip: "",
    });
    img.apply_channels(&chans);
    assert_eq!(img.channels().len(), 2);

    let remaining: Vec<Ft60Channel> = img.channels().into_iter().filter(|c| c.slot != 0).collect();
    img.apply_channels(&remaining);
    let final_chans = img.channels();
    assert_eq!(final_chans.len(), 1);
    assert_eq!(final_chans[0].slot, 5);
    assert_eq!(final_chans[0].name, "NEW1");
}

#[test]
fn decode_rejects_bad_input() {
    assert!(Ft60Image::decode(b"too short").is_err());
    let mut b = vec![0u8; CloneSpec::ft60().image_size];
    b[0] = b'X';
    assert!(Ft60Image::decode(&b).is_err());
}

#[test]
fn channels_build_from_codes() {
    let c = platypus_core::device::ft60::channel_from_codes(
        4, "RPT1", 146_940_000, 600_000, 0, 1, 6, 1000, 23, 2, 1, 3, 2, 0b10_0000_0101,
    );
    assert_eq!(c.slot, 4);
    assert_eq!(c.name, "RPT1");
    assert_eq!(c.mode, "NFM");
    assert_eq!(c.tone_mode, "Tone->DTCS");
    assert_eq!(c.tone, platypus_core::device::ft60::Tone::Cross { ctcss: 1000, dcs: 23 });
    assert_eq!(c.duplex, "-");
    assert_eq!(c.offset_hz, 600_000);
    assert_eq!(c.skip, "P");
    assert_eq!(c.banks, vec![0, 2, 9]);
    let d = platypus_core::device::ft60::channel_from_codes(0, "", 146_520_000, 0, 0, 0, 0, 0, 0, 0, 0, 0, 0, 0);
    assert_eq!((d.mode, d.tone_mode, d.duplex, d.skip), ("FM", "", "", ""));
    assert_eq!(d.tone, platypus_core::device::ft60::Tone::NoTone);
    assert!(d.banks.is_empty());
}

#[test]
fn registry_finds_the_clone_image_radio_first() {
    let reg = ProfileRegistry::with_builtins();
    let ci = reg.clone_image().expect("a clone-image radio is registered");
    assert_eq!(ci.product_name(), "FT-60R");
    assert_eq!(reg.detect_clone_image(b"AH017").map(|p| p.id()), Some("ft60r"));
    assert!(reg.detect_clone_image(b"AH01").is_none());
    assert!(ProfileRegistry::new().clone_image().is_none());
}

#[test]
fn reapply_keeps_non_canonical_slots_byte_for_byte() {
    let mut bytes = synthetic();
    // slot 0: both mode bits set and the undefined skip value 3
    bytes[MEM_BASE] |= 0x30;
    bytes[SKIP_BASE] |= 0x03;
    // slot 9: unused, but with a stale bank bit and skip bits left behind
    bytes[BANK_BASE + 9 / 8] |= 1 << (9 % 8);
    bytes[SKIP_BASE + 9 / 4] |= 0x02 << ((9 % 4) * 2);
    let n = bytes.len();
    bytes[n - 1] = checksum(&bytes);
    let mut img = Ft60Image::decode(&bytes).unwrap();
    let chans = img.channels();
    assert_eq!(chans.len(), 1);
    img.apply_channels(&chans);
    assert_eq!(img.encode(), bytes, "re-applying the decoded channels moves no byte");
}

#[test]
fn decode_names_each_rejection() {
    assert_eq!(Ft60Image::decode(b"too short").err(), Some("image too short"));
    let mut b = vec![0u8; CloneSpec::ft60().image_size];
    b[0] = b'X';
    assert_eq!(Ft60Image::decode(&b).err(), Some("not an FT-60 image (bad magic)"));
}
