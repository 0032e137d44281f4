use mesh::presets::{
    modem_presets, preset_by_name, region_by_name, regions, DEFAULT_PRESET_IDX, DEFAULT_REGION_IDX,
};

#[test]
fn preset_lookup_ignores_case() {
    let p = preset_by_name("longfast").unwrap();
    assert_eq!(p.name, "LongFast");
    assert_eq!(p.sf, 11);
    assert_eq!(p.bw_hz, 250_000);
    assert_eq!(p.cr_denom, 5);
    assert_eq!(p.sync_word, 0x2B);
    assert_eq!(p.preamble_len, 16);
    assert_eq!(preset_by_name("VERYLONGSLOW").unwrap().bw_hz, 62_500);
    assert!(preset_by_name("LongFas").is_none());
    assert!(preset_by_name("").is_none());
}

#[test]
fn preset_table_order() {
    let t = modem_presets();
    assert_eq!(t.len(), 9);
    assert_eq!(t[0].name, "ShortTurbo");
    assert_eq!(t[8].name, "VeryLongSlow");
    assert_eq!(t[DEFAULT_PRESET_IDX].name, "LongFast");
    for w in t.windows(2) {
        assert!(w[0].sf <= w[1].sf);
    }
}

#[test]
fn region_lookup_ignores_case() {
    let r = region_by_name("eu_868").unwrap();
    assert_eq!(r.name, "EU_868");
    assert_eq!(r.freq_start_khz, 869_400);
    assert_eq!(r.freq_end_khz, 869_650);
    assert_eq!(r.tx_power, 27);
    assert_eq!(r.duty_cycle, 10);
    assert_eq!(region_by_name("Us").unwrap().freq_start_khz, 902_000);
    assert!(region_by_name("Mars").is_none());
    assert_eq!(regions().len(), 16);
    assert_eq!(regions()[DEFAULT_REGION_IDX].name, "TW");
}

#[test]
fn channel_frequencies() {
    let us = region_by_name("US").unwrap();
    // 902 MHz + 125 kHz.
    assert_eq!(us.channel_freq(250_000), 902_125_000);
    // Channel 0 of channel_n_freq is channel_freq.
    assert_eq!(us.channel_n_freq(250_000, 0), 902_125_000);
    // 902 MHz + 19.5 × 250 kHz.
    assert_eq!(us.channel_n_freq(250_000, 19), 906_875_000);
    let eu = region_by_name("EU_868").unwrap();
    assert_eq!(eu.channel_freq(62_500), 869_431_250);
}
