use rgb_to_ansi::palette::{ansi88_to_rgb, grey_to_ansi256, grey_to_ansi88};
use rgb_to_ansi::search::{nearest_ansi256_by_keys, nearest_ansi88_by_keys, nearest_lanes8, nearest_scalar, Row};
use rgb_to_ansi::{ansi256_to_rgb, nearest_ansi256, nearest_ansi88, uncached, CacheTab};

// The floating-point side of the search, as a caller supplies it.

const SRGB: [f32; 256] = [
    0.0, 0.000303527, 0.000607054, 0.00091058103, 0.001214108, 0.001517635,
    0.0018211621, 0.002124689, 0.002428216, 0.002731743, 0.00303527, 0.0033465356,
    0.003676507, 0.004024717, 0.004391442, 0.0047769533, 0.005181517, 0.0056053917,
    0.0060488326, 0.006512091, 0.00699541, 0.0074990317, 0.008023192, 0.008568125,
    0.009134057, 0.009721218, 0.010329823, 0.010960094, 0.011612245, 0.012286487,
    0.012983031, 0.013702081, 0.014443844, 0.015208514, 0.015996292, 0.016807375,
    0.017641952, 0.018500218, 0.019382361, 0.020288562, 0.02121901, 0.022173883,
    0.023153365, 0.02415763, 0.025186857, 0.026241222, 0.027320892, 0.028426038,
    0.029556843, 0.03071345, 0.03189604, 0.033104774, 0.03433981, 0.035601325,
    0.036889452, 0.038204376, 0.039546248, 0.04091521, 0.042311423, 0.043735042,
    0.045186214, 0.046665095, 0.048171833, 0.049706575, 0.051269468, 0.052860655,
    0.05448028, 0.056128494, 0.057805434, 0.05951124, 0.06124607, 0.06301003,
    0.06480328, 0.06662595, 0.06847818, 0.07036011, 0.07227186, 0.07421358,
    0.07618539, 0.07818743, 0.08021983, 0.082282715, 0.084376216, 0.086500466,
    0.088655606, 0.09084173, 0.09305898, 0.095307484, 0.09758736, 0.09989874,
    0.10224175, 0.10461649, 0.10702311, 0.10946172, 0.111932434, 0.11443538,
    0.116970696, 0.11953845, 0.12213881, 0.12477186, 0.12743773, 0.13013652,
    0.13286836, 0.13563336, 0.13843165, 0.14126332, 0.1441285, 0.1470273,
    0.14995982, 0.15292618, 0.1559265, 0.15896086, 0.16202943, 0.16513224,
    0.16826946, 0.17144115, 0.17464745, 0.17788847, 0.1811643, 0.18447503,
    0.1878208, 0.19120172, 0.19461787, 0.19806935, 0.2015563, 0.20507877,
    0.2086369, 0.21223079, 0.21586053, 0.21952623, 0.22322798, 0.22696589,
    0.23074007, 0.23455065, 0.23839766, 0.2422812, 0.2462014, 0.25015837,
    0.25415218, 0.2581829, 0.26225072, 0.26635566, 0.27049786, 0.27467737,
    0.27889434, 0.2831488, 0.2874409, 0.2917707, 0.29613832, 0.30054384,
    0.30498737, 0.30946895, 0.31398875, 0.31854683, 0.32314324, 0.32777813,
    0.33245158, 0.33716366, 0.34191445, 0.3467041, 0.3515327, 0.35640025,
    0.36130688, 0.3662527, 0.37123778, 0.37626222, 0.3813261, 0.38642952,
    0.39157256, 0.3967553, 0.40197787, 0.4072403, 0.4125427, 0.41788515,
    0.42326775, 0.42869055, 0.4341537, 0.43965724, 0.44520125, 0.45078585,
    0.45641106, 0.46207705, 0.46778384, 0.47353154, 0.47932023, 0.48514998,
    0.4910209, 0.49693304, 0.5028866, 0.50888145, 0.5149178, 0.5209957,
    0.52711535, 0.5332766, 0.5394797, 0.5457247, 0.5520116, 0.5583406,
    0.5647117, 0.57112503, 0.57758063, 0.5840786, 0.590619, 0.597202,
    0.60382754, 0.61049575, 0.61720675, 0.62396055, 0.63075733, 0.637597,
    0.6444799, 0.6514058, 0.65837497, 0.66538745, 0.67244333, 0.6795426,
    0.68668544, 0.69387203, 0.70110214, 0.70837605, 0.7156938, 0.72305536,
    0.730461, 0.7379107, 0.7454045, 0.75294244, 0.76052475, 0.7681514,
    0.77582246, 0.78353804, 0.79129815, 0.79910296, 0.8069525, 0.8148468,
    0.822786, 0.8307701, 0.83879924, 0.84687346, 0.8549928, 0.8631574,
    0.87136734, 0.8796226, 0.8879232, 0.89626956, 0.90466136, 0.913099,
    0.92158204, 0.93011117, 0.9386859, 0.9473069, 0.9559735, 0.9646866,
    0.9734455, 0.98225087, 0.9911022, 1.0,
];

fn cbrt(f: f32) -> f32 {
    if f < 0.000001 {
        return 0.0;
    }
    let a = f32::from_bits(f.to_bits() / 3 + 0x2a51_19f2);
    let (a, f) = (a as f64, f as f64);
    let aaa = a * a * a;
    let a = a * (f + f + aaa) / (f + aaa + aaa);
    let aaa = a * a * a;
    let a = a * (f + f + aaa) / (f + aaa + aaa);
    a as f32
}

fn oklab(r: u8, g: u8, b: u8) -> [f32; 3] {
    let (r, g, b) = (SRGB[r as usize], SRGB[g as usize], SRGB[b as usize]);
    let x = 0.4122214708 * r + 0.5363325363 * g + 0.0514459929 * b;
    let y = 0.2119034982 * r + 0.6806995451 * g + 0.1073969566 * b;
    let z = 0.0883024619 * r + 0.2817188376 * g + 0.6299787005 * b;
    let (l, m, s) = (cbrt(x), cbrt(y), cbrt(z));
    [
        0.2104542553 * l + 0.7936177850 * m - 0.0040720468 * s,
        1.9779984951 * l - 2.4285922050 * m + 0.4505937099 * s,
        0.0259040371 * l + 0.7827717662 * m - 0.8086757660 * s,
    ]
}

fn keys(q: [f32; 3], palette: &[[f32; 3]], rows: usize) -> Vec<Row> {
    let mut out = vec![[0u32; 8]; rows];
    for k in 0..rows * 8 {
        let c = palette.get(k).copied().unwrap_or([f32::INFINITY; 3]);
        let (dl, da, db) = (q[0] - c[0], q[1] - c[1], q[2] - c[2]);
        out[k / 8][k % 8] = (dl * dl + da * da + db * db).to_bits();
    }
    out
}

fn palette256() -> Vec<[f32; 3]> {
    (16..=255u8).map(|i| { let (r, g, b) = ansi256_to_rgb(i); oklab(r, g, b) }).collect()
}

fn palette88() -> Vec<[f32; 3]> {
    (16..88u8).map(|i| { let (r, g, b) = ansi88_to_rgb(i); oklab(r, g, b) }).collect()
}

fn search256(r: u8, g: u8, b: u8) -> u8 {
    nearest_ansi256_by_keys(&keys(oklab(r, g, b), &palette256(), 30))
}

fn search88(r: u8, g: u8, b: u8) -> u8 {
    nearest_ansi88_by_keys(&keys(oklab(r, g, b), &palette88(), 9))
}

#[test]
fn scenario_table() {
    let cache = CacheTab::<1024>::new();
    let cases = [
        ((0, 0, 0), 16),
        ((255, 255, 255), 231),
        ((128, 128, 128), grey_to_ansi256(128)),
        ((255, 0, 0), 196),
        ((0, 255, 0), 46),
        ((0, 0, 255), 21),
        ((95, 135, 175), 67),
        ((250, 251, 252), 231),
    ];
    for ((r, g, b), want) in cases {
        assert_eq!(nearest_ansi256(&cache, r, g, b, search256), want, "{:?}", (r, g, b));
        assert_eq!(uncached::nearest_ansi256(r, g, b, search256), want, "{:?}", (r, g, b));
    }
}

#[test]
fn shortcuts_never_call_the_search() {
    let cache = CacheTab::<1024>::new();
    let refuse = |_: u8, _: u8, _: u8| -> u8 { panic!("searched") };
    for v in 0..=255u8 {
        assert_eq!(nearest_ansi256(&cache, v, v, v, refuse), grey_to_ansi256(v));
        assert_eq!(cache.read(v, v, v), None);
        assert_eq!(nearest_ansi88(&CacheTab::<512>::new(), v, v, v, refuse), grey_to_ansi88(v));
    }
    assert_eq!(uncached::nearest_ansi256(255, 0, 0, refuse), 196);
    assert_eq!(uncached::nearest_ansi88(255, 0, 0, refuse), 64);
}

#[test]
fn grey_tables_agree_with_the_search() {
    for v in 0..=255u8 {
        assert_eq!(search256(v, v, v), grey_to_ansi256(v), "grey {}", v);
        assert_eq!(search88(v, v, v), grey_to_ansi88(v), "grey {}", v);
    }
}

#[test]
fn every_searchable_entry_finds_itself() {
    let cache = CacheTab::<1024>::new();
    for i in 16..=255u8 {
        let (r, g, b) = ansi256_to_rgb(i);
        assert_eq!(nearest_ansi256(&cache, r, g, b, search256), i);
        if !(r == g && g == b) {
            assert_eq!(search256(r, g, b), i);
        }
    }
}

#[test]
fn cached_and_uncached_agree() {
    let cache = CacheTab::<1024>::new();
    let cache88 = CacheTab::<512>::new();
    let pal = palette256();
    let mut state = 1u32;
    for _ in 0..3000 {
        state = state.wrapping_mul(1664525).wrapping_add(1013904223);
        let (r, g, b) = ((state >> 8) as u8, (state >> 16) as u8, (state >> 24) as u8);
        let want = uncached::nearest_ansi256(r, g, b, search256);
        assert_eq!(nearest_ansi256(&cache, r, g, b, search256), want);
        assert_eq!(nearest_ansi256(&cache, r, g, b, search256), want);
        let rows = keys(oklab(r, g, b), &pal, 30);
        assert_eq!(nearest_scalar(&rows), nearest_lanes8(&rows));
        let want88 = uncached::nearest_ansi88(r, g, b, search88);
        assert!(want88 < 88);
        assert_eq!(nearest_ansi88(&cache88, r, g, b, search88), want88);
    }
}

#[test]
fn scenario_88() {
    let cache = CacheTab::<512>::new();
    assert_eq!(nearest_ansi88(&cache, 0, 0, 0, search88), 16);
    assert_eq!(nearest_ansi88(&cache, 255, 255, 255, search88), 79);
    assert_eq!(nearest_ansi88(&cache, 255, 0, 0, search88), 64);
    assert_eq!(nearest_ansi88(&cache, 139, 139, 139, search88), 37);
    assert_eq!(nearest_ansi88(&cache, 250, 251, 252, search88), 79);
}
