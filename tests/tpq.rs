use image::codecs::jpeg::JpegEncoder;
use image::ColorType;
use tpq2tiff::directory::{read_tile_directory, tile_bytes};
use tpq2tiff::encode::write_numeric_fields;
use tpq2tiff::header::{read_tpq_header, read_tpq_string, read_tpq_u64, text_bytes, TpqHeader, DIRECTORY_OFFSET, HEADER_LEN};
use tpq2tiff::mosaic::{assemble_from_tiles, RgbaTile};
use tpq2tiff::tiles::{build_mosaic, decode_tiles};
use tpq2tiff::{read_tpq_u32, TpqError};

fn put_u32(buf: &mut Vec<u8>, at: usize, v: u32) {
    buf[at..at + 4].copy_from_slice(&v.to_le_bytes());
}

fn put_f64(buf: &mut Vec<u8>, at: usize, v: f64) {
    buf[at..at + 8].copy_from_slice(&v.to_le_bytes());
}

fn put_text(buf: &mut Vec<u8>, at: usize, s: &str) {
    buf[at..at + s.len()].copy_from_slice(s.as_bytes());
}

fn sample_header_bytes(long_count: u32, lat_count: u32, mw: u32, mh: u32) -> Vec<u8> {
    let mut buf = vec![0u8; DIRECTORY_OFFSET];
    put_u32(&mut buf, 0, 7);
    put_f64(&mut buf, 4, -105.0);
    put_f64(&mut buf, 12, 40.0);
    put_f64(&mut buf, 20, -104.5);
    put_f64(&mut buf, 28, 39.5);
    put_text(&mut buf, 36, "TOPO!");
    put_text(&mut buf, 256, "Boulder");
    put_text(&mut buf, 384, "Colorado");
    put_text(&mut buf, 416, "USGS");
    put_text(&mut buf, 448, "1965");
    put_text(&mut buf, 452, "1994");
    put_text(&mut buf, 456, "40 feet");
    put_text(&mut buf, 480, "tpq");
    put_u32(&mut buf, 484, 24);
    put_u32(&mut buf, 488, 0xdead_beef);
    put_u32(&mut buf, 492, long_count);
    put_u32(&mut buf, 496, lat_count);
    put_u32(&mut buf, 500, mw);
    put_u32(&mut buf, 504, mh);
    buf
}

fn jpeg_of_color(w: u32, h: u32, rgb: [u8; 3]) -> Vec<u8> {
    let mut raw = Vec::new();
    for _ in 0..(w * h) {
        raw.extend_from_slice(&rgb);
    }
    let mut out = Vec::new();
    JpegEncoder::new_with_quality(&mut out, 100).encode(&raw, w, h, ColorType::Rgb8).unwrap();
    out
}

/// A whole container: header, directory, then the given tiles one after another.
fn container(long_count: u32, lat_count: u32, mw: u32, mh: u32, tiles: &[Vec<u8>]) -> Vec<u8> {
    let mut buf = sample_header_bytes(long_count, lat_count, mw, mh);
    let first = DIRECTORY_OFFSET + 4 * tiles.len();
    let mut offsets = Vec::new();
    let mut at = first;
    for t in tiles {
        offsets.push(at as u32);
        at += t.len();
    }
    for o in offsets {
        buf.extend_from_slice(&o.to_le_bytes());
    }
    for t in tiles {
        buf.extend_from_slice(t);
    }
    buf
}

fn solid_tile(w: u32, h: u32, p: [u8; 4]) -> RgbaTile {
    RgbaTile { width: w, height: h, pixels: vec![p; (w * h) as usize] }
}

fn near_red(p: [u8; 4]) -> bool {
    p[0] > 240 && p[1] < 16 && p[2] < 16 && p[3] == 255
}

#[test]
fn u32_reads_little_endian_and_advances() {
    let data = [0x78u8, 0x56, 0x34, 0x12, 0xff];
    let mut pos: usize = 0;
    assert_eq!(read_tpq_u32(&data, &mut pos), Ok(0x1234_5678));
    assert_eq!(pos, 4);
    assert_eq!(read_tpq_u32(&data, &mut pos), Err(TpqError::TruncatedInput));
    assert_eq!(pos, 4);
}

#[test]
fn u64_reads_f64_bits() {
    let data = (-105.25f64).to_le_bytes();
    let mut pos: usize = 0;
    let bits = read_tpq_u64(&data, &mut pos).unwrap();
    assert_eq!(f64::from_bits(bits), -105.25);
    assert_eq!(pos, 8);
    let mut pos: usize = 1;
    assert_eq!(read_tpq_u64(&data, &mut pos), Err(TpqError::TruncatedInput));
}

#[test]
fn header_decodes_every_field() {
    let buf = sample_header_bytes(2, 3, 256, 200);
    let h = read_tpq_header(&buf).unwrap();
    assert_eq!(h.version, 7);
    assert_eq!(f64::from_bits(h.w_long_bits), -105.0);
    assert_eq!(f64::from_bits(h.n_lat_bits), 40.0);
    assert_eq!(f64::from_bits(h.e_long_bits), -104.5);
    assert_eq!(f64::from_bits(h.s_lat_bits), 39.5);
    assert_eq!(h.topo, "TOPO!");
    assert_eq!(h.quad_name, "Boulder");
    assert_eq!(h.state_name, "Colorado");
    assert_eq!(h.source, "USGS");
    assert_eq!(h.year1, "1965");
    assert_eq!(h.year2, "1994");
    assert_eq!(h.contour, "40 feet");
    assert_eq!(h.extension, "tpq");
    assert_eq!(h.color_depth, 24);
    assert_eq!(h.long_count, 2);
    assert_eq!(h.lat_count, 3);
    assert_eq!(h.maplet_width, 256);
    assert_eq!(h.maplet_height, 200);
}

#[test]
fn header_needs_all_its_bytes() {
    let buf = sample_header_bytes(1, 1, 1, 1);
    assert!(read_tpq_header(&buf[..HEADER_LEN]).is_ok());
    assert!(matches!(read_tpq_header(&buf[..HEADER_LEN - 1]), Err(TpqError::TruncatedInput)));
    assert!(matches!(read_tpq_header(&[]), Err(TpqError::TruncatedInput)));
}

#[test]
fn text_stops_at_first_null() {
    assert_eq!(text_bytes(b"ab\0cd"), b"ab".to_vec());
    assert_eq!(text_bytes(b"\0abc"), Vec::<u8>::new());
    assert_eq!(text_bytes(b""), Vec::<u8>::new());
}

#[test]
fn text_without_null_keeps_full_capacity() {
    assert_eq!(text_bytes(b"1994"), b"1994".to_vec());
    let data = b"1994\0rest";
    let mut pos: usize = 0;
    assert_eq!(read_tpq_string(data, &mut pos, 4).unwrap(), "1994");
    assert_eq!(pos, 4);
}

#[test]
fn text_field_is_truncated_within_capacity() {
    let data = b"ab\0zzzz";
    let mut pos: usize = 0;
    assert_eq!(read_tpq_string(data, &mut pos, 6).unwrap(), "ab");
    assert_eq!(pos, 6);
    let mut pos: usize = 3;
    assert!(matches!(read_tpq_string(data, &mut pos, 6), Err(TpqError::TruncatedInput)));
    assert_eq!(pos, 3);
}

#[test]
fn text_field_replaces_malformed_utf8() {
    let data = [b'a', 0xff, b'b', 0];
    let mut pos: usize = 0;
    assert_eq!(read_tpq_string(&data, &mut pos, 4).unwrap(), "a\u{fffd}b");
}

#[test]
fn directory_reads_row_major_offsets_after_header() {
    let mut buf = sample_header_bytes(2, 1, 256, 256);
    buf.extend_from_slice(&5000u32.to_le_bytes());
    buf.extend_from_slice(&6000u32.to_le_bytes());
    assert_eq!(read_tile_directory(&buf, 1, 2), Ok(vec![5000, 6000]));
    assert_eq!(read_tile_directory(&buf, 1, 3), Err(TpqError::TruncatedInput));
    assert_eq!(read_tile_directory(&buf, 0, 5), Ok(vec![]));
    assert_eq!(read_tile_directory(&buf[..1000], 0, 0), Err(TpqError::TruncatedInput));
}

#[test]
fn tile_bytes_checks_offset() {
    let data = [1u8, 2, 3];
    assert_eq!(tile_bytes(&data, 1), Ok(&data[1..]));
    assert_eq!(tile_bytes(&data, 3), Ok(&data[3..]));
    assert_eq!(tile_bytes(&data, 4), Err(TpqError::TruncatedInput));
}

#[test]
fn mosaic_has_grid_dimensions() {
    let tiles: Vec<RgbaTile> = (0..6u8).map(|i| solid_tile(3, 2, [i, 0, 0, 255])).collect();
    let m = assemble_from_tiles(2, 3, 3, 2, &tiles).unwrap();
    assert_eq!(m.width, 9);
    assert_eq!(m.height, 4);
    assert_eq!(m.pixels.len(), 36);
}

#[test]
fn tile_origins_hold_their_tiles() {
    let tiles: Vec<RgbaTile> = (0..6u8).map(|i| solid_tile(3, 2, [i, 10 * i, 0, 255])).collect();
    let m = assemble_from_tiles(2, 3, 3, 2, &tiles).unwrap();
    for row in 0..2u32 {
        for col in 0..3u32 {
            let x = col * 3;
            let y = row * 2;
            let idx = (y * m.width + x) as usize;
            assert_eq!(m.pixels[idx], tiles[(row * 3 + col) as usize].pixels[0]);
        }
    }
    // the last pixel belongs to the last tile
    assert_eq!(m.pixels[35], [5, 50, 0, 255]);
}

#[test]
fn tile_pixels_keep_their_place_within_the_tile() {
    let t0 = RgbaTile { width: 2, height: 1, pixels: vec![[1, 1, 1, 255], [2, 2, 2, 255]] };
    let t1 = RgbaTile { width: 2, height: 1, pixels: vec![[3, 3, 3, 255], [4, 4, 4, 255]] };
    let m = assemble_from_tiles(1, 2, 2, 1, &vec![t0, t1]).unwrap();
    assert_eq!(m.pixels, vec![[1, 1, 1, 255], [2, 2, 2, 255], [3, 3, 3, 255], [4, 4, 4, 255]]);
}

#[test]
fn mismatched_tile_size_is_reported_with_its_index() {
    let tiles = vec![solid_tile(2, 2, [0; 4]), solid_tile(2, 3, [0; 4]), solid_tile(1, 2, [0; 4])];
    assert!(matches!(
        assemble_from_tiles(1, 3, 2, 2, &tiles),
        Err(TpqError::TileSizeMismatch { tile: 1 })
    ));
}

#[test]
fn oversized_mosaic_is_refused() {
    let tiles: Vec<RgbaTile> = Vec::new();
    assert!(matches!(
        assemble_from_tiles(0, 0x8000_0000, 4, 4, &tiles),
        Err(TpqError::MosaicTooLarge)
    ));
    let empty = assemble_from_tiles(0, 3, 4, 4, &tiles).unwrap();
    assert_eq!((empty.width, empty.height, empty.pixels.len()), (12, 0, 0));
}

#[test]
fn numeric_fields_round_trip() {
    let original = sample_header_bytes(2, 3, 256, 200);
    let h = read_tpq_header(&original).unwrap();
    let mut copy = original.clone();
    write_numeric_fields(&h, &mut copy);
    assert_eq!(copy, original);

    let mut blank = vec![0u8; DIRECTORY_OFFSET];
    write_numeric_fields(&h, &mut blank);
    let again = read_tpq_header(&blank).unwrap();
    assert_eq!(again.version, 7);
    assert_eq!(again.w_long_bits, h.w_long_bits);
    assert_eq!(again.n_lat_bits, h.n_lat_bits);
    assert_eq!(again.e_long_bits, h.e_long_bits);
    assert_eq!(again.s_lat_bits, h.s_lat_bits);
    assert_eq!(again.color_depth, 24);
    assert_eq!((again.long_count, again.lat_count), (2, 3));
    assert_eq!((again.maplet_width, again.maplet_height), (256, 200));
    assert_eq!(again.topo, "");
}

#[test]
fn two_red_tiles_make_one_red_mosaic() {
    let red = jpeg_of_color(256, 256, [255, 0, 0]);
    let data = container(2, 1, 256, 256, &[red.clone(), red]);
    let h = read_tpq_header(&data).unwrap();
    let offsets = read_tile_directory(&data, h.lat_count, h.long_count).unwrap();
    assert_eq!(offsets.len(), 2);
    assert_eq!(offsets[0] as usize, DIRECTORY_OFFSET + 8);
    let m = build_mosaic(&data, &h).unwrap();
    assert_eq!((m.width, m.height), (512, 256));
    assert_eq!(m.pixels.len(), 512 * 256);
    assert!(m.pixels.iter().all(|p| near_red(*p)));
}

#[test]
fn decoded_tiles_follow_directory_order() {
    let red = jpeg_of_color(8, 8, [255, 0, 0]);
    let blue = jpeg_of_color(8, 8, [0, 0, 255]);
    let data = container(2, 1, 8, 8, &[red, blue]);
    let tiles = decode_tiles(&data, 1, 2).unwrap();
    assert_eq!(tiles.len(), 2);
    assert_eq!((tiles[1].width, tiles[1].height, tiles[1].pixels.len()), (8, 8, 64));
    assert!(near_red(tiles[0].pixels[0]));
    let b = tiles[1].pixels[0];
    assert!(b[2] > 240 && b[0] < 16 && b[3] == 255);
    let h = read_tpq_header(&data).unwrap();
    let m = build_mosaic(&data, &h).unwrap();
    assert!(near_red(m.pixels[0]));
    assert_eq!(m.pixels[8], b);
}

#[test]
fn truncated_tile_fails_to_decode() {
    let red = jpeg_of_color(16, 16, [255, 0, 0]);
    let mut data = container(2, 1, 16, 16, &[red.clone(), red.clone()]);
    let cut = data.len() - red.len() / 2;
    data.truncate(cut);
    let h = read_tpq_header(&data).unwrap();
    assert!(matches!(build_mosaic(&data, &h), Err(TpqError::TileDecodeFailure { tile: 1 })));
}

#[test]
fn tile_of_wrong_size_is_refused() {
    let small = jpeg_of_color(8, 8, [0, 255, 0]);
    let data = container(1, 1, 16, 16, &[small]);
    let h = read_tpq_header(&data).unwrap();
    assert!(matches!(build_mosaic(&data, &h), Err(TpqError::TileSizeMismatch { tile: 0 })));
}

#[test]
fn tile_offset_past_end_is_truncation() {
    let mut data = sample_header_bytes(1, 1, 8, 8);
    data.extend_from_slice(&99_999u32.to_le_bytes());
    let h = read_tpq_header(&data).unwrap();
    assert!(matches!(build_mosaic(&data, &h), Err(TpqError::TruncatedInput)));
}

#[test]
fn short_directory_is_truncation() {
    let data = sample_header_bytes(2, 2, 8, 8);
    let h = read_tpq_header(&data).unwrap();
    assert!(matches!(build_mosaic(&data, &h), Err(TpqError::TruncatedInput)));
}
