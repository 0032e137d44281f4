//! LoRa modem presets and regional frequency plans (Meshtastic radio
//! settings), with lookup by name, ignoring ASCII case.
//!
//! Bandwidths are held in Hz and frequencies in kHz, so that every value of
//! the tables is an integer.
use vstd::prelude::*;
use vstd::utf8::encode_utf8;

verus! {

/// LoRa modem configuration preset.
#[derive(Debug, Clone, Copy)]
pub struct ModemPreset {
    pub name: &'static str,
    pub sf: u8,
    /// Bandwidth in Hz (62 500, 125 000, 250 000 or 500 000).
    pub bw_hz: u32,
    /// Coding rate denominator (4 = CR 4/5, 8 = CR 4/8).
    pub cr_denom: u8,
    /// Meshtastic sync word (0x2B for all public channels).
    pub sync_word: u8,
    pub preamble_len: u16,
}

/// Regional frequency plan.
#[derive(Debug, Clone, Copy)]
pub struct Region {
    pub name: &'static str,
    /// Start of the ISM band (kHz).
    pub freq_start_khz: u32,
    /// End of the ISM band (kHz).
    pub freq_end_khz: u32,
    /// Max TX power (dBm).
    pub tx_power: u8,
    /// Duty cycle limit (percent, 0 = no limit).
    pub duty_cycle: u8,
}

/// Index of the default preset (LongFast) in [`modem_presets`].
pub const DEFAULT_PRESET_IDX: usize = 5;

/// Index of the default region (TW) in [`regions`].
pub const DEFAULT_REGION_IDX: usize = 10;

/// `c` in ASCII lower case.
pub open spec fn ascii_lower(c: u8) -> u8 {
    if 65 <= c <= 90 {
        (c + 32) as u8
    } else {
        c
    }
}

/// `a` and `b` are equal ignoring ASCII case, byte by byte.
pub open spec fn eq_ignore_ascii_case(a: Seq<u8>, b: Seq<u8>) -> bool {
    &&& a.len() == b.len()
    &&& forall|i: int| 0 <= i < a.len() ==> #[trigger] ascii_lower(a[i]) == ascii_lower(b[i])
}

/// The first preset of `table` named `name` (ignoring ASCII case).
pub open spec fn find_preset(table: Seq<ModemPreset>, name: Seq<u8>) -> Option<ModemPreset>
    decreases table.len(),
{
    if table.len() == 0 {
        None
    } else if eq_ignore_ascii_case(encode_utf8(table[0].name@), name) {
        Some(table[0])
    } else {
        find_preset(table.drop_first(), name)
    }
}

/// The first region of `table` named `name` (ignoring ASCII case).
pub open spec fn find_region(table: Seq<Region>, name: Seq<u8>) -> Option<Region>
    decreases table.len(),
{
    if table.len() == 0 {
        None
    } else if eq_ignore_ascii_case(encode_utf8(table[0].name@), name) {
        Some(table[0])
    } else {
        find_region(table.drop_first(), name)
    }
}

fn bytes_eq_ignore_ascii_case(a: &[u8], b: &[u8]) -> (r: bool)
    ensures
        r == eq_ignore_ascii_case(a@, b@),
{
    if a.len() != b.len() {
        return false;
    }
    let mut i: usize = 0;
    while i < a.len()
        invariant
            a@.len() == b@.len(),
            i <= a@.len(),
            forall|j: int| 0 <= j < i ==> #[trigger] ascii_lower(a@[j]) == ascii_lower(b@[j]),
        decreases a@.len() - i,
    {
        let x = a[i];
        let y = b[i];
        let lx: u8 = if 65 <= x && x <= 90 { x + 32 } else { x };
        let ly: u8 = if 65 <= y && y <= 90 { y + 32 } else { y };
        if lx != ly {
            assert(ascii_lower(a@[i as int]) != ascii_lower(b@[i as int]));
            return false;
        }
        i = i + 1;
    }
    true
}

/// All Meshtastic modem presets, fastest first.
pub open spec fn preset_table() -> Seq<ModemPreset> {
    seq![
        ModemPreset { name: "ShortTurbo", sf: 7, bw_hz: 500_000, cr_denom: 5, sync_word: 0x2B, preamble_len: 16 },
        ModemPreset { name: "ShortFast", sf: 7, bw_hz: 250_000, cr_denom: 5, sync_word: 0x2B, preamble_len: 16 },
        ModemPreset { name: "ShortSlow", sf: 8, bw_hz: 250_000, cr_denom: 5, sync_word: 0x2B, preamble_len: 16 },
        ModemPreset { name: "MediumFast", sf: 9, bw_hz: 250_000, cr_denom: 5, sync_word: 0x2B, preamble_len: 16 },
        ModemPreset { name: "MediumSlow", sf: 10, bw_hz: 250_000, cr_denom: 5, sync_word: 0x2B, preamble_len: 16 },
        ModemPreset { name: "LongFast", sf: 11, bw_hz: 250_000, cr_denom: 5, sync_word: 0x2B, preamble_len: 16 },
        ModemPreset { name: "LongModerate", sf: 11, bw_hz: 125_000, cr_denom: 8, sync_word: 0x2B, preamble_len: 16 },
        ModemPreset { name: "LongSlow", sf: 12, bw_hz: 125_000, cr_denom: 8, sync_word: 0x2B, preamble_len: 16 },
        ModemPreset { name: "VeryLongSlow", sf: 12, bw_hz: 62_500, cr_denom: 8, sync_word: 0x2B, preamble_len: 16 },
    ]
}

/// All Meshtastic modem presets, fastest first.
pub fn modem_presets() -> (v: Vec<ModemPreset>)
    ensures
        v@ == preset_table(),
{
    let v = vec![
        ModemPreset { name: "ShortTurbo", sf: 7, bw_hz: 500_000, cr_denom: 5, sync_word: 0x2B, preamble_len: 16 },
        ModemPreset { name: "ShortFast", sf: 7, bw_hz: 250_000, cr_denom: 5, sync_word: 0x2B, preamble_len: 16 },
        ModemPreset { name: "ShortSlow", sf: 8, bw_hz: 250_000, cr_denom: 5, sync_word: 0x2B, preamble_len: 16 },
        ModemPreset { name: "MediumFast", sf: 9, bw_hz: 250_000, cr_denom: 5, sync_word: 0x2B, preamble_len: 16 },
        ModemPreset { name: "MediumSlow", sf: 10, bw_hz: 250_000, cr_denom: 5, sync_word: 0x2B, preamble_len: 16 },
        ModemPreset { name: "LongFast", sf: 11, bw_hz: 250_000, cr_denom: 5, sync_word: 0x2B, preamble_len: 16 },
        ModemPreset { name: "LongModerate", sf: 11, bw_hz: 125_000, cr_denom: 8, sync_word: 0x2B, preamble_len: 16 },
        ModemPreset { name: "LongSlow", sf: 12, bw_hz: 125_000, cr_denom: 8, sync_word: 0x2B, preamble_len: 16 },
        ModemPreset { name: "VeryLongSlow", sf: 12, bw_hz: 62_500, cr_denom: 8, sync_word: 0x2B, preamble_len: 16 },
    ];
    assert(v@ =~= preset_table());
    v
}

/// Look up a preset by name (ignoring ASCII case).
pub fn preset_by_name(name: &str) -> (r: Option<ModemPreset>)
    ensures
        r == find_preset(preset_table(), encode_utf8(name@)),
{
    let table = modem_presets();
    let target = name.as_bytes();
    let mut i: usize = 0;
    assert(table@.skip(0) =~= table@);
    while i < table.len()
        invariant
            table@ == preset_table(),
            target@ == encode_utf8(name@),
            i <= table@.len(),
            find_preset(table@.skip(i as int), target@) == find_preset(preset_table(), target@),
        decreases table@.len() - i,
    {
        let p = table[i];
        assert(table@.skip(i as int).drop_first() =~= table@.skip(i + 1));
        if bytes_eq_ignore_ascii_case(p.name.as_bytes(), target) {
            return Some(p);
        }
        i = i + 1;
    }
    None
}

/// All supported Meshtastic regions.
pub open spec fn region_table() -> Seq<Region> {
    seq![
        Region { name: "US", freq_start_khz: 902_000, freq_end_khz: 928_000, tx_power: 30, duty_cycle: 0 },
        Region { name: "EU_868", freq_start_khz: 869_400, freq_end_khz: 869_650, tx_power: 27, duty_cycle: 10 },
        Region { name: "EU_433", freq_start_khz: 433_000, freq_end_khz: 434_000, tx_power: 12, duty_cycle: 10 },
        Region { name: "CN", freq_start_khz: 470_000, freq_end_khz: 510_000, tx_power: 19, duty_cycle: 0 },
        Region { name: "JP", freq_start_khz: 920_800, freq_end_khz: 927_800, tx_power: 16, duty_cycle: 0 },
        Region { name: "ANZ", freq_start_khz: 915_000, freq_end_khz: 928_000, tx_power: 30, duty_cycle: 0 },
        Region { name: "KR", freq_start_khz: 920_000, freq_end_khz: 923_000, tx_power: 14, duty_cycle: 0 },
        Region { name: "TH", freq_start_khz: 920_000, freq_end_khz: 925_000, tx_power: 16, duty_cycle: 0 },
        Region { name: "IN", freq_start_khz: 865_000, freq_end_khz: 867_000, tx_power: 30, duty_cycle: 0 },
        Region { name: "NZ_865", freq_start_khz: 864_000, freq_end_khz: 868_000, tx_power: 36, duty_cycle: 0 },
        Region { name: "TW", freq_start_khz: 920_000, freq_end_khz: 925_000, tx_power: 27, duty_cycle: 0 },
        Region { name: "RU", freq_start_khz: 868_700, freq_end_khz: 869_200, tx_power: 20, duty_cycle: 0 },
        Region { name: "UA", freq_start_khz: 868_000, freq_end_khz: 868_600, tx_power: 14, duty_cycle: 1 },
        Region { name: "MY_433", freq_start_khz: 433_000, freq_end_khz: 435_000, tx_power: 20, duty_cycle: 0 },
        Region { name: "MY_919", freq_start_khz: 919_000, freq_end_khz: 924_000, tx_power: 27, duty_cycle: 0 },
        Region { name: "SG_923", freq_start_khz: 920_000, freq_end_khz: 925_000, tx_power: 20, duty_cycle: 0 },
    ]
}

/// All supported Meshtastic regions.
pub fn regions() -> (v: Vec<Region>)
    ensures
        v@ == region_table(),
{
    let v = vec![
        Region { name: "US", freq_start_khz: 902_000, freq_end_khz: 928_000, tx_power: 30, duty_cycle: 0 },
        Region { name: "EU_868", freq_start_khz: 869_400, freq_end_khz: 869_650, tx_power: 27, duty_cycle: 10 },
        Region { name: "EU_433", freq_start_khz: 433_000, freq_end_khz: 434_000, tx_power: 12, duty_cycle: 10 },
        Region { name: "CN", freq_start_khz: 470_000, freq_end_khz: 510_000, tx_power: 19, duty_cycle: 0 },
        Region { name: "JP", freq_start_khz: 920_800, freq_end_khz: 927_800, tx_power: 16, duty_cycle: 0 },
        Region { name: "ANZ", freq_start_khz: 915_000, freq_end_khz: 928_000, tx_power: 30, duty_cycle: 0 },
        Region { name: "KR", freq_start_khz: 920_000, freq_end_khz: 923_000, tx_power: 14, duty_cycle: 0 },
        Region { name: "TH", freq_start_khz: 920_000, freq_end_khz: 925_000, tx_power: 16, duty_cycle: 0 },
        Region { name: "IN", freq_start_khz: 865_000, freq_end_khz: 867_000, tx_power: 30, duty_cycle: 0 },
        Region { name: "NZ_865", freq_start_khz: 864_000, freq_end_khz: 868_000, tx_power: 36, duty_cycle: 0 },
        Region { name: "TW", freq_start_khz: 920_000, freq_end_khz: 925_000, tx_power: 27, duty_cycle: 0 },
        Region { name: "RU", freq_start_khz: 868_700, freq_end_khz: 869_200, tx_power: 20, duty_cycle: 0 },
        Region { name: "UA", freq_start_khz: 868_000, freq_end_khz: 868_600, tx_power: 14, duty_cycle: 1 },
        Region { name: "MY_433", freq_start_khz: 433_000, freq_end_khz: 435_000, tx_power: 20, duty_cycle: 0 },
        Region { name: "MY_919", freq_start_khz: 919_000, freq_end_khz: 924_000, tx_power: 27, duty_cycle: 0 },
        Region { name: "SG_923", freq_start_khz: 920_000, freq_end_khz: 925_000, tx_power: 20, duty_cycle: 0 },
    ];
    assert(v@ =~= region_table());
    v
}

/// Look up a region by name (ignoring ASCII case).
pub fn region_by_name(name: &str) -> (r: Option<Region>)
    ensures
        r == find_region(region_table(), encode_utf8(name@)),
{
    let table = regions();
    let target = name.as_bytes();
    let mut i: usize = 0;
    assert(table@.skip(0) =~= table@);
    while i < table.len()
        invariant
            table@ == region_table(),
            target@ == encode_utf8(name@),
            i <= table@.len(),
            find_region(table@.skip(i as int), target@) == find_region(region_table(), target@),
        decreases table@.len() - i,
    {
        let reg = table[i];
        assert(table@.skip(i as int).drop_first() =~= table@.skip(i + 1));
        if bytes_eq_ignore_ascii_case(reg.name.as_bytes(), target) {
            return Some(reg);
        }
        i = i + 1;
    }
    None
}

impl Region {
    /// Default channel 0 centre frequency in Hz for a bandwidth of `bw_hz`:
    /// the band start plus half the bandwidth.
    pub fn channel_freq(&self, bw_hz: u32) -> (hz: u64)
        ensures
            hz == self.freq_start_khz * 1000 + bw_hz / 2,
    {
        self.freq_start_khz as u64 * 1000 + (bw_hz / 2) as u64
    }

    /// Centre frequency in Hz of channel `ch`: the band start plus
    /// `ch + 1/2` bandwidths (rounded down to a whole Hz).
    pub fn channel_n_freq(&self, bw_hz: u32, ch: u32) -> (hz: u128)
        ensures
            hz == self.freq_start_khz * 1000 + (2 * ch + 1) * bw_hz / 2,
    {
        let steps: u128 = 2 * (ch as u128) + 1;
        assert(steps * (bw_hz as u128) <= 0x2_0000_0000 * 0x1_0000_0000) by (nonlinear_arith)
            requires
                steps <= 0x2_0000_0000,
                bw_hz <= 0xFFFF_FFFFu32,
        ;
        self.freq_start_khz as u128 * 1000 + steps * (bw_hz as u128) / 2
    }
}

} // verus!
