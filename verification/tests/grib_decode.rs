use jma_radar_bridge::bridge::decode_downloads;
use jma_radar_bridge::error::DecodeError;
use jma_radar_bridge::nict::NictDownload;
use jma_radar_bridge::model::Product;
use jma_radar_bridge::parser::{decode_grib2, decode_tar};
use jma_radar_bridge::rle::{run_length_decode, BitValues};
use jma_radar_bridge::wire::{be_u16, be_u32, be_u64, optional_u32, signed_magnitude_i16, signed_magnitude_i32};

fn be16(v: u16) -> [u8; 2] {
    v.to_be_bytes()
}

fn be32(v: u32) -> [u8; 4] {
    v.to_be_bytes()
}

fn section(number: u8, body: &[u8]) -> Vec<u8> {
    let mut s = Vec::new();
    s.extend_from_slice(&be32((body.len() + 5) as u32));
    s.push(number);
    s.extend_from_slice(body);
    s
}

fn identification() -> Vec<u8> {
    let mut b = Vec::new();
    b.extend_from_slice(&be16(34));
    b.extend_from_slice(&be16(0));
    b.push(2);
    b.push(1);
    b.push(1);
    b.extend_from_slice(&be16(2024));
    b.extend_from_slice(&[7, 9, 12, 30, 5]);
    b.push(0);
    b.push(1);
    section(1, &b)
}

fn grid(gates: u32, radials: u32, points: u32, template: u16, lat: u32) -> Vec<u8> {
    let mut b = vec![0u8; 36];
    b[1..5].copy_from_slice(&be32(points));
    b[7..9].copy_from_slice(&be16(template));
    b[9..13].copy_from_slice(&be32(gates));
    b[13..17].copy_from_slice(&be32(radials));
    b[17..21].copy_from_slice(&be32(lat));
    b[21..25].copy_from_slice(&be32(139_000_000));
    b[25..29].copy_from_slice(&be32(250_000));
    b[29..33].copy_from_slice(&be32(0));
    b[33] = 0;
    b[34..36].copy_from_slice(&be16(1250));
    section(3, &b)
}

fn product(radials: u32, template: u16, category: u8, number: u8, id: &[u8; 4], lat: u32) -> Vec<u8> {
    let mut b = vec![0u8; 55 + radials as usize * 4];
    b[2..4].copy_from_slice(&be16(template));
    b[4] = category;
    b[5] = number;
    b[9..13].copy_from_slice(&be32(lat));
    b[13..17].copy_from_slice(&be32(140_500_000));
    b[17..19].copy_from_slice(&be16(0x8000 | 125));
    b[19..23].copy_from_slice(id);
    b[23..25].copy_from_slice(&be16(47_695));
    b[25..27].copy_from_slice(&be16(0xffff));
    b[27..31].copy_from_slice(&be32(0xffff_ffff));
    b[31] = 1;
    b[32] = 2;
    b[34] = 3;
    b[35] = 4;
    b[36..38].copy_from_slice(&be16(170));
    b[39..41].copy_from_slice(&be16(8000));
    b[41..43].copy_from_slice(&be16(9000));
    b[43..45].copy_from_slice(&be16(0xffff));
    b[45..47].copy_from_slice(&be16(0x8000 | 3));
    b[47..49].copy_from_slice(&be16(25));
    for ray in 0..radials as usize {
        let off = 55 + ray * 4;
        b[off..off + 2].copy_from_slice(&be16(160 + ray as u16));
        b[off + 2..off + 4].copy_from_slice(&be16(8000));
    }
    section(4, &b)
}

fn data_repr(points: u32, template: u16, num_bits: u8, max_value: u16, levels: &[u16], scale: u8) -> Vec<u8> {
    let mut b = Vec::new();
    b.extend_from_slice(&be32(points));
    b.extend_from_slice(&be16(template));
    b.push(num_bits);
    b.extend_from_slice(&be16(max_value));
    b.extend_from_slice(&be16(levels.len() as u16));
    b.push(scale);
    for l in levels {
        b.extend_from_slice(&be16(*l));
    }
    section(5, &b)
}

fn bitmap(indicator: u8) -> Vec<u8> {
    section(6, &[indicator])
}

fn data(packed: &[u8]) -> Vec<u8> {
    section(7, packed)
}

fn message(sections: &[Vec<u8>]) -> Vec<u8> {
    let mut body = Vec::new();
    for s in sections {
        body.extend_from_slice(s);
    }
    body.extend_from_slice(b"7777");
    let total = 16 + body.len() as u64;
    let mut m = Vec::new();
    m.extend_from_slice(b"GRIB");
    m.extend_from_slice(&[0, 0, 0, 2]);
    m.extend_from_slice(&total.to_be_bytes());
    m.extend_from_slice(&body);
    m
}

fn good_sections() -> Vec<Vec<u8>> {
    vec![
        identification(),
        grid(3, 2, 6, 50120, 35_000_000),
        product(2, 51022, 15, 1, b"JP\0\0", 35_100_000),
        data_repr(6, 200, 8, 250, &[100, 30, 0x8000 | 50], 1),
        bitmap(255),
        data(&[1, 2, 252, 3, 0, 1]),
    ]
}

fn good_message() -> Vec<u8> {
    message(&good_sections())
}

fn invalid(r: Result<jma_radar_bridge::model::Volume, DecodeError>) -> String {
    match r {
        Err(DecodeError::Invalid(m)) => m,
        other => panic!("expected an invalid-data error, got {:?}", other.map(|_| ())),
    }
}

#[test]
fn decodes_a_whole_message() {
    let bytes = good_message();
    let v = decode_grib2(&bytes, Some("radar.bin")).unwrap();
    assert_eq!(v.source_name.as_deref(), Some("radar.bin"));
    assert_eq!(v.identification.center_id, 34);
    assert_eq!(v.identification.reference_time.year, 2024);
    assert_eq!(v.identification.reference_time.iso_utc(), "2024-07-09T12:30:05Z");
    assert_eq!(v.identification.reference_time.compact_utc(), "20240709123005");
    assert_eq!(v.sweeps.len(), 1);
    let s = &v.sweeps[0];
    assert_eq!(s.product, Product::Reflectivity);
    assert_eq!(s.grid.gate_count, 3);
    assert_eq!(s.grid.radial_count, 2);
    assert_eq!(s.grid.center_lat_microdeg, 35_000_000);
    assert_eq!(s.grid.center_lon_microdeg, 139_000_000);
    assert_eq!(s.grid.gate_spacing_mm, 250_000);
    assert_eq!(s.grid.start_azimuth_centideg, 1250);
    assert!(s.grid.scans_clockwise());
    assert_eq!(s.site.id, "JP");
    assert_eq!(s.site.number, 47_695);
    assert_eq!(s.site.lat_microdeg, 35_100_000);
    assert_eq!(s.site.altitude_decim, Some(-125));
    assert_eq!(s.site.magnetic_declination_centideg, None);
    assert_eq!(s.site.tx_frequency_khz, None);
    assert_eq!(s.site.quality_control, 3);
    assert_eq!(s.elevation_angle_centideg, Some(170));
    assert_eq!(s.representative_prfs_decihz, [Some(8000), Some(9000), None]);
    assert_eq!(s.observation_start_offset_sec, Some(-3));
    assert_eq!(s.observation_end_offset_sec, Some(25));
    assert_eq!(s.ray_elevation_centideg, vec![Some(160), Some(161)]);
    assert_eq!(s.ray_prf_decihz, vec![Some(8000), Some(8000)]);
    assert_eq!(s.decimal_scale, 1);
    assert_eq!(s.values, vec![Some(100), Some(30), Some(30), Some(-50), None, Some(100)]);
    assert_eq!(s.value(1, 0), Some(Some(-50)));
    assert_eq!(s.value(1, 1), Some(None));
    assert_eq!(s.value(2, 0), None);
    assert_eq!(s.value(0, 3), None);
    assert_eq!(s.non_nan_count(), 5);
    assert_eq!(v.station_id(), Some("JP"));
    assert_eq!(v.station_number(), Some(47_695));
}

#[test]
fn decodes_downloads_in_order() {
    let a = NictDownload::from_fetch("x/a.bin".to_string(), good_message());
    let empty_tar = NictDownload::from_fetch("x/none.tar".to_string(), vec![]);
    let b = NictDownload::from_fetch("x/b.bin".to_string(), good_message());
    let vols = decode_downloads(&vec![a, empty_tar, b]).unwrap();
    let names: Vec<Option<&str>> = vols.iter().map(|v| v.source_name.as_deref()).collect();
    assert_eq!(names, vec![Some("a.bin"), Some("b.bin")]);
    let bad = NictDownload::from_fetch("x/bad.bin".to_string(), b"junk".to_vec());
    let c = NictDownload::from_fetch("x/c.bin".to_string(), good_message());
    assert!(matches!(decode_downloads(&vec![c, bad]), Err(DecodeError::Invalid(_))));
    assert!(decode_downloads(&vec![]).unwrap().is_empty());
}

#[test]
fn decoded_sweeps_hold_a_value_per_grid_point() {
    let v = decode_grib2(&good_message(), None).unwrap();
    for s in &v.sweeps {
        assert_eq!(s.values.len(), s.grid.gate_count * s.grid.radial_count);
        assert_eq!(s.ray_elevation_centideg.len(), s.grid.radial_count);
        for ray in 0..s.grid.radial_count {
            for gate in 0..s.grid.gate_count {
                assert!(s.value(ray, gate).is_some());
            }
        }
    }
}

#[test]
fn two_sweeps_share_one_grid() {
    let mut secs = good_sections();
    secs.push(product(2, 51022, 15, 2, b"JP\0\0", 35_100_000));
    secs.push(data_repr(6, 200, 8, 250, &[100], 2));
    secs.push(bitmap(255));
    secs.push(data(&[1, 255, 1]));
    let v = decode_grib2(&message(&secs), None).unwrap();
    assert_eq!(v.sweeps.len(), 2);
    assert_eq!(v.sweeps[1].product, Product::Velocity);
    assert_eq!(v.sweeps[1].decimal_scale, 2);
    assert_eq!(v.sweeps[1].values, vec![Some(100); 6]);
}

#[test]
fn rejects_a_missing_indicator() {
    assert_eq!(invalid(decode_grib2(b"GRIX0000000000000000", None)), "missing GRIB indicator");
    assert_eq!(invalid(decode_grib2(b"GRIB", None)), "missing GRIB indicator");
}

#[test]
fn rejects_another_edition() {
    let mut m = good_message();
    m[7] = 1;
    assert_eq!(invalid(decode_grib2(&m, None)), "expected GRIB edition 2, got 1");
}

#[test]
fn rejects_a_declared_length_past_the_input() {
    let mut m = good_message();
    let len = m.len();
    m[8..16].copy_from_slice(&(len as u64 + 1).to_be_bytes());
    assert_eq!(
        invalid(decode_grib2(&m, None)),
        format!("message declares {} bytes but input has {}", len + 1, len)
    );
}

#[test]
fn rejects_a_missing_end_marker() {
    let mut m = good_message();
    let len = m.len();
    m[len - 1] = b'8';
    assert_eq!(invalid(decode_grib2(&m, None)), "missing GRIB end marker 7777");
}

#[test]
fn rejects_broken_section_layouts() {
    let mut m = message(&[identification()]);
    let n = m.len();
    m[16..20].copy_from_slice(&be32(3));
    assert_eq!(invalid(decode_grib2(&m, None)), "section 1 has invalid length 3");
    m[16..20].copy_from_slice(&be32(n as u32));
    assert_eq!(invalid(decode_grib2(&m, None)), "section 1 overruns message");
    m[16..20].copy_from_slice(&be32(n as u32 - 16));
    assert_eq!(invalid(decode_grib2(&m, None)), "missing end marker");
    let mut t = b"GRIB\0\0\0\x02".to_vec();
    t.extend_from_slice(&20u64.to_be_bytes());
    t.extend_from_slice(b"7777");
    assert!(matches!(decode_grib2(&t, None), Err(DecodeError::MissingSection(1))));
}

#[test]
fn reports_a_truncated_header() {
    let mut m = b"GRIB\0\0\0\x02".to_vec();
    m.extend_from_slice(&25u64.to_be_bytes());
    m.extend_from_slice(&[0, 0, 0, 6, 1]);
    m.extend_from_slice(b"7777");
    assert_eq!(invalid(decode_grib2(&m, None)), "truncated section header");
}

#[test]
fn reports_missing_sections() {
    let secs = good_sections();
    let no_ident: Vec<Vec<u8>> = secs[1..].to_vec();
    assert!(matches!(decode_grib2(&message(&no_ident), None), Err(DecodeError::MissingSection(1))));
    let mut no_grid = secs.clone();
    no_grid.remove(1);
    assert!(matches!(decode_grib2(&message(&no_grid), None), Err(DecodeError::MissingSection(3))));
    let mut no_product = secs.clone();
    no_product.remove(2);
    assert!(matches!(decode_grib2(&message(&no_product), None), Err(DecodeError::MissingSection(4))));
    let mut no_repr = secs.clone();
    no_repr.remove(3);
    assert!(matches!(decode_grib2(&message(&no_repr), None), Err(DecodeError::MissingSection(5))));
    let mut no_bitmap = secs.clone();
    no_bitmap.remove(4);
    assert!(matches!(decode_grib2(&message(&no_bitmap), None), Err(DecodeError::MissingSection(6))));
}

#[test]
fn rejects_an_unexpected_section() {
    let mut secs = good_sections();
    secs.push(section(9, &[0]));
    assert_eq!(invalid(decode_grib2(&message(&secs), None)), "unexpected section 9");
}

#[test]
fn rejects_short_or_misnumbered_sections() {
    let mut secs = good_sections();
    secs[0] = section(1, &[0; 10]);
    assert_eq!(invalid(decode_grib2(&message(&secs), None)), "section 1 too short: 15 < 21");
    let mut secs = good_sections();
    secs[4] = section(6, &[]);
    assert_eq!(invalid(decode_grib2(&message(&secs), None)), "section 6 too short: 5 < 6");
}

#[test]
fn rejects_unsupported_templates() {
    let mut secs = good_sections();
    secs[1] = grid(3, 2, 6, 0, 35_000_000);
    assert!(matches!(
        decode_grib2(&message(&secs), None),
        Err(DecodeError::UnsupportedTemplate { section: 3, template: 0 })
    ));
    let mut secs = good_sections();
    secs[2] = product(2, 0, 15, 1, b"JP\0\0", 1);
    assert!(matches!(
        decode_grib2(&message(&secs), None),
        Err(DecodeError::UnsupportedTemplate { section: 4, template: 0 })
    ));
    let mut secs = good_sections();
    secs[3] = data_repr(6, 0, 8, 250, &[1], 1);
    assert!(matches!(
        decode_grib2(&message(&secs), None),
        Err(DecodeError::UnsupportedTemplate { section: 5, template: 0 })
    ));
}

#[test]
fn rejects_inconsistent_grids_and_sites() {
    let mut secs = good_sections();
    secs[1] = grid(3, 2, 7, 50120, 35_000_000);
    assert_eq!(
        invalid(decode_grib2(&message(&secs), None)),
        "grid point count mismatch: 3 gates * 2 radials != 7"
    );
    let mut secs = good_sections();
    secs[1] = grid(3, 2, 6, 50120, 0xffff_ffff);
    assert_eq!(invalid(decode_grib2(&message(&secs), None)), "missing radar latitude");
    let mut secs = good_sections();
    secs[2] = product(2, 51022, 15, 1, b"JP\0\0", 0xffff_ffff);
    assert_eq!(invalid(decode_grib2(&message(&secs), None)), "missing site latitude");
}

#[test]
fn rejects_bad_data_descriptions() {
    let mut secs = good_sections();
    secs[4] = bitmap(0);
    assert_eq!(invalid(decode_grib2(&message(&secs), None)), "bitmap indicator 0 is not supported yet");
    let mut secs = good_sections();
    secs[3] = data_repr(5, 200, 8, 250, &[1], 1);
    assert_eq!(invalid(decode_grib2(&message(&secs), None)), "encoded point count 5 != expected 6");
    let mut secs = good_sections();
    let mut s5 = data_repr(6, 200, 8, 250, &[1, 2], 1);
    s5[14..16].copy_from_slice(&be16(5));
    secs[3] = s5;
    assert_eq!(invalid(decode_grib2(&message(&secs), None)), "section 5 ended before all level values");
}

#[test]
fn rejects_levels_beyond_the_table() {
    let mut secs = good_sections();
    secs[5] = data(&[1, 2, 9, 3, 0, 1]);
    assert!(matches!(
        decode_grib2(&message(&secs), None),
        Err(DecodeError::RunLength(m)) if m == "invalid level 9"
    ));
}

#[test]
fn site_ids_are_trimmed() {
    let mut secs = good_sections();
    secs[2] = product(2, 51022, 15, 1, b" AB\0", 1);
    let v = decode_grib2(&message(&secs), None).unwrap();
    assert_eq!(v.sweeps[0].site.id, "AB");
    let mut secs = good_sections();
    secs[2] = product(2, 51022, 15, 1, b"\0 C ", 1);
    let v = decode_grib2(&message(&secs), None).unwrap();
    assert_eq!(v.sweeps[0].site.id, "C");
    let mut secs = good_sections();
    secs[2] = product(2, 51022, 15, 1, b" \0C\0", 1);
    let v = decode_grib2(&message(&secs), None).unwrap();
    assert_eq!(v.sweeps[0].site.id, "\0C");
}

#[test]
fn checks_the_section_number() {
    let s = section(3, &[0; 16]);
    assert!(matches!(
        jma_radar_bridge::parser::parse_identification(&s),
        Err(DecodeError::Invalid(m)) if m == "expected section 1, got 3"
    ));
    let mut secs = good_sections();
    secs[2] = section(4, &[0; 60]);
    assert_eq!(invalid(decode_grib2(&message(&secs), None)), "section 4 too short: 65 < 68");
}

#[test]
fn reads_big_endian_fields() {
    let b = [1u8, 2, 3, 4, 5, 6, 7, 8, 9];
    assert_eq!(be_u16(&b, 0).unwrap(), 0x0102);
    assert_eq!(be_u32(&b, 1).unwrap(), 0x0203_0405);
    assert_eq!(be_u64(&b, 1).unwrap(), 0x0203_0405_0607_0809);
    assert!(matches!(be_u16(&b, 8), Err(DecodeError::Invalid(m)) if m == "u16 read past end at offset 8"));
    assert!(matches!(be_u32(&b, 6), Err(DecodeError::Invalid(m)) if m == "u32 read past end at offset 6"));
    assert!(matches!(be_u64(&b, 2), Err(DecodeError::Invalid(m)) if m == "u64 read past end at offset 2"));
}

#[test]
fn sign_and_magnitude_fields() {
    assert_eq!(signed_magnitude_i16(0x8000), Some(0));
    assert_eq!(signed_magnitude_i16(0xfffe), Some(-32766));
    assert_eq!(signed_magnitude_i16(0x7fff), Some(32767));
    assert_eq!(signed_magnitude_i32(0x8000_0001), Some(-1));
    assert_eq!(signed_magnitude_i32(0xffff_ffff), None);
    assert_eq!(signed_magnitude_i32(35_000_000), Some(35_000_000));
    assert_eq!(optional_u32(u32::MAX), None);
    assert_eq!(optional_u32(2800), Some(2800));
    for v in -32766i32..=32767 {
        let raw: u16 = if v < 0 { (0x8000 - v) as u16 } else { v as u16 };
        assert_eq!(signed_magnitude_i16(raw), Some(v as i16));
    }
}

fn rle(bytes: &[u8], bits: u8, max: u16, n: usize) -> Result<Vec<u16>, String> {
    match run_length_decode(bytes, bits, max, n) {
        Ok(v) => Ok(v),
        Err(DecodeError::RunLength(m)) => Err(m),
        Err(other) => panic!("unexpected error {:?}", other),
    }
}

#[test]
fn run_length_errors() {
    assert_eq!(rle(&[1], 0, 250, 1), Err("unsupported packed width 0".to_string()));
    assert_eq!(rle(&[1], 17, 250, 1), Err("unsupported packed width 17".to_string()));
    assert_eq!(rle(&[1], 8, 65535, 1), Err("run-length base overflow".to_string()));
    assert_eq!(rle(&[1], 8, 255, 1), Err("invalid run-length base".to_string()));
    assert_eq!(rle(&[251], 8, 250, 1), Err("first value is a run marker".to_string()));
    assert_eq!(rle(&[1, 255], 8, 250, 3), Err("run expands past expected length 3".to_string()));
    assert_eq!(rle(&[1, 2], 8, 250, 3), Err("decoded 2 values, expected 3".to_string()));
}

#[test]
fn run_length_digits_combine() {
    // Base 5: markers 252 then 253 repeat 1 + 2 * 5 = 11 times.
    let mut expected = vec![7u16; 12];
    expected.push(1);
    assert_eq!(rle(&[7, 252, 253, 1], 8, 250, 13), Ok(expected));
}

#[test]
fn run_length_reads_narrow_values() {
    // Four-bit values 1, 2, 15 (a marker of digit 1 with max 13), 3.
    assert_eq!(rle(&[0x12, 0xf3], 4, 13, 4), Ok(vec![1, 2, 2, 3]));
}

#[test]
fn run_length_stops_at_the_expected_count() {
    assert_eq!(rle(&[1, 2, 3, 4], 8, 250, 2), Ok(vec![1, 2]));
    assert_eq!(rle(&[1], 8, 250, 0), Ok(vec![]));
    assert_eq!(rle(&[], 8, 250, 0), Ok(vec![]));
}

#[test]
fn literal_levels_come_through() {
    let bytes = [5u8, 6, 7, 8];
    assert_eq!(rle(&bytes, 8, 250, 4), Ok(vec![5, 6, 7, 8]));
}

#[test]
fn run_length_with_a_base_above_the_width() {
    // With max 20 and 4-bit values no number is a run marker.
    assert_eq!(rle(&[0xff], 4, 20, 2), Ok(vec![15, 15]));
}

fn tar_of(members: &[(&str, Vec<u8>)]) -> Vec<u8> {
    let mut builder = tar::Builder::new(Vec::new());
    for (path, data) in members {
        let mut header = tar::Header::new_gnu();
        header.set_size(data.len() as u64);
        header.set_mode(0o644);
        header.set_cksum();
        builder.append_data(&mut header, path, data.as_slice()).unwrap();
    }
    builder.into_inner().unwrap()
}

#[test]
fn decodes_the_bin_members_of_a_tar() {
    let t = tar_of(&[
        ("a.bin", good_message()),
        ("notes.txt", b"hello".to_vec()),
        ("dir/b.bin", good_message()),
    ]);
    let v = decode_tar(&t).unwrap();
    assert_eq!(v.len(), 2);
    assert_eq!(v[0].source_name.as_deref(), Some("a.bin"));
    assert_eq!(v[1].source_name.as_deref(), Some("dir/b.bin"));
}

#[test]
fn a_bad_tar_member_fails_the_bundle() {
    let t = tar_of(&[("a.bin", b"not grib".to_vec())]);
    assert!(matches!(decode_tar(&t), Err(DecodeError::Invalid(m)) if m == "missing GRIB indicator"));
}

#[test]
fn a_corrupt_tar_is_a_tar_error() {
    let mut t = tar_of(&[("a.txt", b"x".to_vec())]);
    t[148] ^= 0x55;
    assert!(matches!(decode_tar(&t), Err(DecodeError::Tar(_))));
    assert!(matches!(decode_tar(&[]), Ok(v) if v.is_empty()));
}

#[test]
fn bit_reader_yields_the_stream_in_order() {
    // 10101 01111 00110 11110, then four bits left over.
    let bytes = [0xABu8, 0xCD, 0xEF];
    let mut r = BitValues::new(&bytes, 5);
    assert_eq!(r.next(), Some(21));
    assert_eq!(r.next(), Some(15));
    assert_eq!(r.next(), Some(6));
    assert_eq!(r.next(), Some(30));
    assert_eq!(r.next(), None);
    assert_eq!(r.next(), None);
    let mut w = BitValues::new(&bytes, 16);
    assert_eq!(w.next(), Some(0xABCD));
    assert_eq!(w.next(), None);
}
