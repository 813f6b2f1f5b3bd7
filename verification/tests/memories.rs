use platypus_core::device::ft60::{
    channel_from_codes, checksum, settings_specs, Ft60Image, Tone, BANK_BASE, BANK_STRIDE, MEM_BASE, MEM_LEN, NAME_BASE,
    PMS_BASE, SKIP_BASE,
};
use platypus_core::device::{CloneImageProfile, CloneSpec, Ft60};
use platypus_core::memories::{memories_json, memory_codes, pms_json, settings_json};

/// AH017 header + slot 0 programmed (146.5200 FM, TSQL 100.0, name "TEST12",
/// banks A+C, skip).
fn synthetic() -> Vec<u8> {
    let spec = CloneSpec::ft60();
    let mut b = vec![0u8; spec.image_size];
    b[..spec.magic.len()].copy_from_slice(spec.magic);
    b[MEM_BASE] = 0x80;
    b[MEM_BASE + 1] = 0x01;
    b[MEM_BASE + 2] = 0x46;
    b[MEM_BASE + 3] = 0x52;
    b[MEM_BASE + 4] = 0x52;
    b[MEM_BASE + 8] = 0x4C;
    b[NAME_BASE..NAME_BASE + 6].copy_from_slice(&[0x1D, 0x0E, 0x1C, 0x1D, 0x01, 0x02]);
    b[NAME_BASE + 6] = 0x80;
    b[NAME_BASE + 7] = 0x80;
    b[BANK_BASE] = 0x01;
    b[BANK_BASE + 2 * BANK_STRIDE] = 0x01;
    b[SKIP_BASE] = 0x01;
    let n = b.len();
    b[n - 1] = checksum(&b);
    b
}

#[test]
fn memories_render_as_codes() {
    let img = Ft60Image::decode(&synthetic()).unwrap();
    assert_eq!(
        memories_json(&img),
        "[{\"slot\":0,\"name\":\"TEST12\",\"freqHz\":146520000,\"modeCode\":0,\"toneModeCode\":2,\
\"toneMode\":\"ctcss\",\"toneValue\":1000,\"toneValue2\":0,\"duplexCode\":0,\"offsetHz\":0,\"txHz\":0,\
\"power\":1,\"step\":5,\"skip\":1,\"banks\":[0,2]}]"
    );
}

#[test]
fn empty_image_has_no_memories() {
    let spec = CloneSpec::ft60();
    let mut b = vec![0u8; spec.image_size];
    b[..spec.magic.len()].copy_from_slice(spec.magic);
    let img = Ft60Image::decode(&b).unwrap();
    assert_eq!(memories_json(&img), "[]");
}

#[test]
fn cross_tone_and_duplex_codes() {
    let ch = channel_from_codes(4, "RPT1", 146_940_000, 600_000, 0, 1, 6, 1000, 23, 2, 1, 3, 2, 0b10_0000_0101);
    let k = memory_codes(&ch);
    assert_eq!(k.mode_code, 1);
    assert_eq!(k.tone_mode_code, 6);
    assert_eq!(k.tone_kind, "cross");
    assert_eq!((k.tone_value, k.tone_value2), (1000, 23));
    assert_eq!(k.duplex_code, 2);
    assert_eq!(k.skip_code, 2);
    assert_eq!(k.banks, vec![0, 2, 9]);
    // `off` duplex reads as simplex in the codes.
    let off = channel_from_codes(1, "X", 146_000_000, 0, 0, 0, 0, 0, 0, 5, 0, 0, 0, 0);
    assert_eq!(off.duplex, "off");
    assert_eq!(memory_codes(&off).duplex_code, 0);
}

fn mask(banks: &[u8]) -> u16 {
    banks.iter().fold(0u16, |m, b| m | (1u16 << b))
}

#[test]
fn codes_rebuild_the_memory() {
    let img = Ft60Image::decode(&synthetic()).unwrap();
    for ch in img.channels() {
        let k = memory_codes(&ch);
        let back = channel_from_codes(
            k.slot,
            &k.name,
            k.freq_hz,
            k.offset_hz as u32,
            k.tx_hz as u32,
            k.mode_code,
            k.tone_mode_code,
            k.tone_value,
            k.tone_value2,
            k.duplex_code,
            k.power,
            k.step,
            k.skip_code,
            mask(&k.banks),
        );
        assert_eq!(back, ch);
    }
    assert_eq!(img.channels()[0].tone, Tone::Ctcss(1000));
}

#[test]
fn pms_edges_render_used_records_only() {
    let mut b = synthetic();
    assert_eq!(pms_json(&Ft60Image::decode(&b).unwrap()), "[]");
    // Record 1 (the upper edge of pair 0): 148.000 MHz, step index 2.
    let r = PMS_BASE + MEM_LEN;
    b[r] = 0x80;
    b[r + 1] = 0x01;
    b[r + 2] = 0x48;
    b[r + 3] = 0x00;
    b[r + 4] = 0x20;
    // Record 3 holds a frequency but is unused.
    b[PMS_BASE + 3 * MEM_LEN + 1] = 0x01;
    let img = Ft60Image::decode(&b).unwrap();
    assert_eq!(pms_json(&img), "[{\"index\":1,\"freqHz\":148000000,\"step\":2}]");
}

#[test]
fn settings_render_with_their_options() {
    let mut img = Ft60Image::decode(&synthetic()).unwrap();
    let specs = settings_specs();
    let lamp = specs.iter().position(|s| s.key == "lamp").unwrap();
    let mut vals = img.settings();
    vals[lamp] = 2;
    img.apply_settings(&vals);
    let json = settings_json(&img);
    assert!(json.starts_with("[{\"key\":\"apo\",\"label\":\"Auto power-off\",\"value\":0,\"options\":[\"Off\",\"0.5 h\","));
    assert!(json.contains("{\"key\":\"lamp\",\"label\":\"Lamp\",\"value\":2,\"options\":[\"Key\",\"5 sec\",\"Toggle\"]}"));
    assert!(json.ends_with("{\"key\":\"rxsave\",\"label\":\"Battery saver\",\"value\":0,\"options\":[\"Off\",\"200 ms\",\"300 ms\",\"500 ms\",\"1 s\",\"2 s\"]}]"));
    assert_eq!(json.matches("\"key\"").count(), specs.len());
}

#[test]
fn form_options_render_with_codes() {
    let o = platypus_core::memories::field_options_json(&Ft60.field_options());
    assert!(o.starts_with(
        "{\"modes\":[{\"label\":\"FM\",\"code\":0},{\"label\":\"NFM\",\"code\":1},{\"label\":\"AM\",\"code\":2}],\
\"toneModes\":[{\"label\":\"Off\",\"code\":0,\"valueKind\":\"none\"},{\"label\":\"Tone\",\"code\":1,\"valueKind\":\"ctcss\"}"
    ));
    for key in ["\"modes\":[", "\"toneModes\":[", "\"steps\":[", "\"powers\":[", "\"duplexes\":["] {
        assert!(o.contains(key), "missing option key {key}");
    }
    assert!(o.contains("{\"label\":\"DTCS\",\"code\":4,\"valueKind\":\"dcs\"}"));
    assert!(o.contains("{\"label\":\"Tone->DTCS\",\"code\":6,\"valueKind\":\"cross\"}"));
    assert!(o.ends_with("\"duplexes\":[{\"label\":\"Simplex\",\"code\":0},{\"label\":\"\u{2212}\",\"code\":2},\
{\"label\":\"+\",\"code\":3},{\"label\":\"Split\",\"code\":4}]}"));
    // valueKind only on tone modes.
    assert_eq!(o.matches("\"valueKind\":").count(), 8);
}
