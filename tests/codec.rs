use pyxel_resource::color::{color_from_hex, color_to_hex};
use pyxel_resource::grid::{compress, expand};
use pyxel_resource::runtime::Noise;

fn grid_u8(rows: &[&[u8]]) -> Vec<Vec<u8>> {
    rows.iter().map(|r| r.to_vec()).collect()
}

#[test]
fn codec_round_trip_small_grid() {
    let g = grid_u8(&[&[1, 2, 2, 2], &[3, 3, 3, 3], &[3, 3, 3, 3], &[4, 5, 6, 6]]);
    let c = compress(&g);
    assert_eq!(expand(&c, 4, 4), Some(g));
}

#[test]
fn codec_compressed_form_is_exact() {
    let g = grid_u8(&[&[1, 2, 2, 2], &[7, 7, 7, 7], &[7, 7, 7, 7], &[7, 7, 7, 7]]);
    let c = compress(&g);
    assert_eq!(c, grid_u8(&[&[1, 2], &[7]]));
}

#[test]
fn codec_expand_repeats_last_cell_and_row() {
    let c = grid_u8(&[&[9, 8], &[5]]);
    let g = expand(&c, 3, 3).unwrap();
    assert_eq!(g, grid_u8(&[&[9, 8, 8], &[5, 5, 5], &[5, 5, 5]]));
}

#[test]
fn codec_round_trip_u16_cells() {
    let g: Vec<Vec<u16>> = vec![vec![1, 1000], vec![1, 1000], vec![65535, 0]];
    let c = compress(&g);
    assert_eq!(expand(&c, 3, 2), Some(g));
}

#[test]
fn codec_empty_grid() {
    let g: Vec<Vec<u8>> = Vec::new();
    let c = compress(&g);
    assert!(c.is_empty());
    assert_eq!(expand(&c, 0, 5), Some(Vec::new()));
}

#[test]
fn codec_zero_width_grid() {
    let g: Vec<Vec<u8>> = vec![Vec::new(), Vec::new(), Vec::new()];
    let c = compress(&g);
    assert!(c.is_empty());
    assert_eq!(expand(&c, 3, 0), Some(g));
}

#[test]
fn codec_rejects_inconsistent_forms() {
    let too_wide = grid_u8(&[&[1, 2, 3]]);
    assert_eq!(expand(&too_wide, 1, 2), None);
    let too_tall = grid_u8(&[&[1], &[2], &[3]]);
    assert_eq!(expand(&too_tall, 2, 1), None);
    let empty_row = grid_u8(&[&[]]);
    assert_eq!(expand(&empty_row, 1, 1), None);
    let nothing: Vec<Vec<u8>> = Vec::new();
    assert_eq!(expand(&nothing, 2, 2), None);
}

#[test]
fn color_encodes_as_six_upper_hex_digits() {
    assert_eq!(color_to_hex(0x1A2B3C), "1A2B3C");
    assert_eq!(color_to_hex(0x5), "000005");
    assert_eq!(color_to_hex(0), "000000");
    assert_eq!(color_to_hex(0xFFFFFF), "FFFFFF");
    assert_eq!(color_to_hex(0x1234567), "1234567");
}

#[test]
fn color_decodes_back() {
    assert_eq!(color_from_hex(&"1A2B3C".to_string()), Some(0x1A2B3C));
    assert_eq!(color_from_hex(&color_to_hex(0xABCDEF)), Some(0xABCDEF));
    assert_eq!(color_from_hex(&"ff00aa".to_string()), Some(0xFF00AA));
    assert_eq!(color_from_hex(&"+10".to_string()), Some(16));
    assert_eq!(color_from_hex(&"FFFFFFFF".to_string()), Some(u32::MAX));
}

#[test]
fn color_rejects_malformed_text() {
    assert_eq!(color_from_hex(&"ZZZZZZ".to_string()), None);
    assert_eq!(color_from_hex(&"".to_string()), None);
    assert_eq!(color_from_hex(&"+".to_string()), None);
    assert_eq!(color_from_hex(&"-1".to_string()), None);
    assert_eq!(color_from_hex(&"12 34".to_string()), None);
    assert_eq!(color_from_hex(&"100000000".to_string()), None);
}

#[test]
fn noise_index_round_trip() {
    for noise in [Noise::Off, Noise::ShortPeriod, Noise::LongPeriod] {
        assert_eq!(Noise::from_index(noise.to_index()), Some(noise));
    }
    assert_eq!(Noise::ShortPeriod.to_index(), 1);
    assert_eq!(Noise::from_index(2), Some(Noise::LongPeriod));
    assert_eq!(Noise::from_index(3), None);
    assert_eq!(Noise::from_index(u32::MAX), None);
}
