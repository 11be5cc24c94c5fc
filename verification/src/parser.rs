//! Decoding of JMA radar GRIB2 messages (grid template 3.50120, product
//! template 4.51022, data representation template 5.200).

use std::io::Read;
use vstd::prelude::*;
use vstd::slice::slice_subrange;
use crate::error::{text, text_number, text_number2, text_number3, with_number, DecodeError, DecodeFault};
use crate::model::{
    jma_product, opt_text, DateTimeParts, GridDefinition, Identification, Product, RadarSite, SiteModel, Sweep,
    SweepModel, Volume, VolumeModel,
};
use crate::rle::{rle_decode, run_length_decode};
use crate::text::{lossy_text, push_str, trim_nul_then_space, trim_nul_then_space_of, utf8_lossy};
use crate::wire::{
    be16, be32, be64, be_u16, be_u32, be_u64, optional_u32, sign_magnitude16, sign_magnitude32, signed_magnitude_i16,
    signed_magnitude_i32,
};

verus! {

/// Where a section lies in the message.
#[derive(Clone, Copy, Debug, PartialEq, Eq, Structural)]
pub struct SectionRef {
    pub number: u8,
    pub offset: usize,
    pub length: usize,
}

/// Whether the four bytes at `pos` are `7777`.
pub open spec fn end_marker_at(msg: Seq<u8>, pos: int) -> bool {
    &&& pos + 4 <= msg.len()
    &&& msg[pos] == 0x37 && msg[pos + 1] == 0x37 && msg[pos + 2] == 0x37 && msg[pos + 3] == 0x37
}

/// The sections from byte `pos` on, up to and including the end marker.
pub open spec fn scan_from(msg: Seq<u8>, pos: nat) -> Result<Seq<SectionRef>, DecodeFault>
    decreases msg.len() - pos,
{
    if pos >= msg.len() {
        Err(DecodeFault::Invalid("missing end marker"@))
    } else if end_marker_at(msg, pos as int) {
        Ok(seq![SectionRef { number: 8, offset: pos as usize, length: 4 }])
    } else if msg.len() - pos < 5 {
        Err(DecodeFault::Invalid("truncated section header"@))
    } else {
        let length = be32(msg, pos as int) as nat;
        let number = msg[pos + 4 as int];
        if length < 5 {
            Err(DecodeFault::Invalid(
                with_number("section "@, number as nat) + with_number(" has invalid length "@, length),
            ))
        } else if pos + length > msg.len() {
            Err(DecodeFault::Invalid(with_number("section "@, number as nat) + " overruns message"@))
        } else {
            match scan_from(msg, pos + length) {
                Ok(rest) => Ok(seq![SectionRef { number, offset: pos as usize, length: length as usize }] + rest),
                Err(e) => Err(e),
            }
        }
    }
}

/// The sections of a message, which start after its 16-byte indicator.
pub open spec fn spec_scan(msg: Seq<u8>) -> Result<Seq<SectionRef>, DecodeFault> {
    scan_from(msg, 16)
}

/// `prefix` in front of a list of sections.
pub open spec fn prepend_sections(prefix: Seq<SectionRef>, r: Result<Seq<SectionRef>, DecodeFault>) -> Result<Seq<SectionRef>, DecodeFault> {
    match r {
        Ok(rest) => Ok(prefix + rest),
        Err(e) => Err(e),
    }
}

/// Every section lies inside the message and is at least four bytes long.
pub open spec fn sections_fit(msg: Seq<u8>, secs: Seq<SectionRef>) -> bool {
    forall|i: int| 0 <= i < secs.len() ==> #[trigger] secs[i].offset + secs[i].length <= msg.len()
        && secs[i].length >= 4
}

proof fn lemma_scan_fits(msg: Seq<u8>, pos: nat)
    ensures
        scan_from(msg, pos) matches Ok(secs) ==> sections_fit(msg, secs),
    decreases msg.len() - pos,
{
    if pos < msg.len() && !end_marker_at(msg, pos as int) && pos + 5 <= msg.len() {
        let length = be32(msg, pos as int) as nat;
        if length >= 5 && pos + length <= msg.len() {
            lemma_scan_fits(msg, pos + length);
            if let Ok(rest) = scan_from(msg, pos + length) {
                let first = seq![SectionRef { number: msg[pos + 4 as int], offset: pos as usize, length: length as usize }];
                assert forall|i: int| 0 <= i < (first + rest).len() implies
                    #[trigger] (first + rest)[i].offset + (first + rest)[i].length <= msg.len()
                    && (first + rest)[i].length >= 4 by {
                    if i > 0 {
                        assert((first + rest)[i] == rest[i - 1]);
                    }
                }
            }
        }
    }
}

/// Finds the sections of a message, from byte 16 to the `7777` end marker.
pub fn scan_sections(msg: &[u8]) -> (r: Result<Vec<SectionRef>, DecodeError>)
    ensures
        match r {
            Ok(v) => spec_scan(msg@) == Ok::<Seq<SectionRef>, DecodeFault>(v@),
            Err(e) => spec_scan(msg@) == Err::<Seq<SectionRef>, DecodeFault>(e@),
        },
{
    let mut sections: Vec<SectionRef> = Vec::new();
    let mut pos: usize = 16;
    while pos < msg.len()
        invariant
            pos >= 16,
            spec_scan(msg@) == prepend_sections(sections@, scan_from(msg@, pos as nat)),
        decreases msg@.len() - pos,
    {
        if msg.len() - pos >= 4 && msg[pos] == 0x37 && msg[pos + 1] == 0x37 && msg[pos + 2] == 0x37
            && msg[pos + 3] == 0x37 {
            let ghost before = sections@;
            sections.push(SectionRef { number: 8, offset: pos, length: 4 });
            assert(sections@ =~= before + seq![SectionRef { number: 8, offset: pos, length: 4 }]);
            return Ok(sections);
        }
        if msg.len() - pos < 5 {
            return Err(DecodeError::Invalid(text("truncated section header")));
        }
        let length: usize = match be_u32(msg, pos) {
            Ok(v) => v as usize,
            Err(e) => return Err(e),
        };
        let number = msg[pos + 4];
        if length < 5 {
            let m = text_number2("section ", number as u64, " has invalid length ", length as u64);
            return Err(DecodeError::Invalid(m));
        }
        if length > msg.len() - pos {
            let mut m = text_number("section ", number as u64);
            push_str(&mut m, " overruns message");
            return Err(DecodeError::Invalid(m));
        }
        let ghost before = sections@;
        sections.push(SectionRef { number, offset: pos, length });
        assert(prepend_sections(before, scan_from(msg@, pos as nat))
            == prepend_sections(sections@, scan_from(msg@, (pos + length) as nat))) by {
            match scan_from(msg@, (pos + length) as nat) {
                Ok(rest) => {
                    assert(before + (seq![SectionRef { number, offset: pos, length }] + rest) =~= sections@ + rest);
                },
                Err(e) => {},
            }
        }
        pos = pos + length;
    }
    Err(DecodeError::Invalid(text("missing end marker")))
}

/// The bytes of a section.
pub open spec fn bytes_of(msg: Seq<u8>, s: SectionRef) -> Seq<u8> {
    msg.subrange(s.offset as int, s.offset + s.length)
}

/// The bytes of a section.
pub fn section_bytes(msg: &[u8], section: SectionRef) -> (r: &[u8])
    requires
        section.offset + section.length <= msg@.len(),
    ensures
        r@ == bytes_of(msg@, section),
{
    let len = msg.len();
    slice_subrange(msg, section.offset, section.offset + section.length)
}

/// Why a section is not section `number` with at least `min_len` bytes, if it
/// is not.
pub open spec fn section_fault(sec: Seq<u8>, number: u8, min_len: nat) -> Option<DecodeFault> {
    if sec.len() < min_len {
        Some(DecodeFault::Invalid(
            with_number("section "@, number as nat) + with_number(" too short: "@, sec.len())
                + with_number(" < "@, min_len),
        ))
    } else if sec[4] != number {
        Some(DecodeFault::Invalid(
            with_number("expected section "@, number as nat) + with_number(", got "@, sec[4] as nat),
        ))
    } else {
        None
    }
}

/// Checks that a section is section `number` with at least `min_len` bytes.
pub fn require_section(section: &[u8], number: u8, min_len: u64) -> (r: Result<(), DecodeError>)
    requires
        min_len >= 5,
    ensures
        match r {
            Ok(()) => section_fault(section@, number, min_len as nat) is None,
            Err(e) => section_fault(section@, number, min_len as nat) == Some(e@),
        },
{
    if (section.len() as u64) < min_len {
        let m = text_number3("section ", number as u64, " too short: ", section.len() as u64, " < ", min_len);
        return Err(DecodeError::Invalid(m));
    }
    if section[4] != number {
        let m = text_number2("expected section ", number as u64, ", got ", section[4] as u64);
        return Err(DecodeError::Invalid(m));
    }
    Ok(())
}

/// Section 1 read as an identification.
pub open spec fn spec_identification(sec: Seq<u8>) -> Result<Identification, DecodeFault> {
    match section_fault(sec, 1, 21) {
        Some(e) => Err(e),
        None => Ok(Identification {
            center_id: be16(sec, 5),
            subcenter_id: be16(sec, 7),
            master_table_version: sec[9],
            local_table_version: sec[10],
            reference_time_significance: sec[11],
            reference_time: DateTimeParts {
                year: be16(sec, 12),
                month: sec[14],
                day: sec[15],
                hour: sec[16],
                minute: sec[17],
                second: sec[18],
            },
            production_status: sec[19],
            data_type: sec[20],
        }),
    }
}

/// Reads the identification section.
pub fn parse_identification(section: &[u8]) -> (r: Result<Identification, DecodeError>)
    ensures
        match r {
            Ok(v) => spec_identification(section@) == Ok::<Identification, DecodeFault>(v),
            Err(e) => spec_identification(section@) == Err::<Identification, DecodeFault>(e@),
        },
{
    if let Err(e) = require_section(section, 1, 21) {
        return Err(e);
    }
    let center_id = be_u16(section, 5);
    let subcenter_id = be_u16(section, 7);
    let year = be_u16(section, 12);
    match (center_id, subcenter_id, year) {
        (Ok(center_id), Ok(subcenter_id), Ok(year)) => Ok(Identification {
            center_id,
            subcenter_id,
            master_table_version: section[9],
            local_table_version: section[10],
            reference_time_significance: section[11],
            reference_time: DateTimeParts {
                year,
                month: section[14],
                day: section[15],
                hour: section[16],
                minute: section[17],
                second: section[18],
            },
            production_status: section[19],
            data_type: section[20],
        }),
        _ => {
            assert(false);
            Err(DecodeError::Invalid(text("unreachable")))
        },
    }
}

/// The grid template that this decoder reads: azimuth-range.
pub const GRID_TEMPLATE_AZIMUTH_RANGE: u16 = 50120;

/// Section 3 read as an azimuth-range grid.
pub open spec fn spec_grid(sec: Seq<u8>) -> Result<GridDefinition, DecodeFault> {
    match section_fault(sec, 3, 41) {
        Some(e) => Err(e),
        None => {
            let template = be16(sec, 12);
            let gates = be32(sec, 14) as nat;
            let radials = be32(sec, 18) as nat;
            let expected = be32(sec, 6) as nat;
            if template != GRID_TEMPLATE_AZIMUTH_RANGE {
                Err(DecodeFault::UnsupportedTemplate { section: 3, template })
            } else if gates * radials != expected {
                Err(DecodeFault::Invalid(
                    with_number("grid point count mismatch: "@, gates) + with_number(" gates * "@, radials)
                        + with_number(" radials != "@, expected),
                ))
            } else {
                match sign_magnitude32(be32(sec, 22)) {
                    None => Err(DecodeFault::Invalid("missing radar latitude"@)),
                    Some(lat) => Ok(GridDefinition {
                        gate_count: gates as usize,
                        radial_count: radials as usize,
                        center_lat_microdeg: lat,
                        center_lon_microdeg: be32(sec, 26),
                        gate_spacing_mm: be32(sec, 30),
                        range_start_mm: be32(sec, 34),
                        scan_mode: sec[38],
                        start_azimuth_centideg: be16(sec, 39),
                    }),
                }
            }
        }
    }
}

/// Reads the grid definition section.
pub fn parse_grid(section: &[u8]) -> (r: Result<GridDefinition, DecodeError>)
    ensures
        match r {
            Ok(v) => spec_grid(section@) == Ok::<GridDefinition, DecodeFault>(v),
            Err(e) => spec_grid(section@) == Err::<GridDefinition, DecodeFault>(e@),
        },
        r matches Ok(g) ==> g.gate_count * g.radial_count <= u32::MAX && g.gate_count <= u32::MAX
            && g.radial_count <= u32::MAX,
{
    if let Err(e) = require_section(section, 3, 41) {
        return Err(e);
    }
    let (template, gates, radials, expected, lat_raw, lon, spacing, start, azimuth) = match (
        be_u16(section, 12),
        be_u32(section, 14),
        be_u32(section, 18),
        be_u32(section, 6),
        be_u32(section, 22),
        be_u32(section, 26),
        be_u32(section, 30),
        be_u32(section, 34),
        be_u16(section, 39),
    ) {
        (Ok(a), Ok(b), Ok(c), Ok(d), Ok(e), Ok(f), Ok(g), Ok(h), Ok(i)) => (a, b, c, d, e, f, g, h, i),
        _ => {
            assert(false);
            return Err(DecodeError::Invalid(text("unreachable")));
        },
    };
    if template != GRID_TEMPLATE_AZIMUTH_RANGE {
        return Err(DecodeError::UnsupportedTemplate { section: 3, template });
    }
    assert(gates as u64 * radials as u64 <= u64::MAX) by (nonlinear_arith)
        requires gates <= u32::MAX, radials <= u32::MAX;
    let points: u64 = gates as u64 * radials as u64;
    if points != expected as u64 {
        let m = text_number3(
            "grid point count mismatch: ",
            gates as u64,
            " gates * ",
            radials as u64,
            " radials != ",
            expected as u64,
        );
        return Err(DecodeError::Invalid(m));
    }
    let lat = match signed_magnitude_i32(lat_raw) {
        Some(v) => v,
        None => return Err(DecodeError::Invalid(text("missing radar latitude"))),
    };
    Ok(GridDefinition {
        gate_count: gates as usize,
        radial_count: radials as usize,
        center_lat_microdeg: lat,
        center_lon_microdeg: lon,
        gate_spacing_mm: spacing,
        range_start_mm: start,
        scan_mode: section[38],
        start_azimuth_centideg: azimuth,
    })
}

/// The text of a fixed-width ASCII field: decoded leniently as UTF-8, NUL
/// padding trimmed, then white space trimmed.
pub open spec fn field_text(bytes: Seq<u8>) -> Seq<char> {
    trim_nul_then_space(lossy_text(bytes))
}

/// Reads a fixed-width ASCII field as text.
pub fn ascii_trim(bytes: &[u8]) -> (s: String)
    ensures
        s@ == field_text(bytes@),
{
    let raw = utf8_lossy(bytes);
    trim_nul_then_space_of(raw.as_str())
}

/// The big-endian 16-bit field at `offset`, which lies inside `bytes`.
fn field16(bytes: &[u8], offset: usize) -> (v: u16)
    requires
        offset + 2 <= bytes@.len(),
    ensures
        v == be16(bytes@, offset as int),
{
    let len = bytes.len();
    match be_u16(bytes, offset) {
        Ok(v) => v,
        Err(_) => {
            assert(false);
            0
        },
    }
}

/// The big-endian 32-bit field at `offset`, which lies inside `bytes`.
fn field32(bytes: &[u8], offset: usize) -> (v: u32)
    requires
        offset + 4 <= bytes@.len(),
    ensures
        v == be32(bytes@, offset as int),
{
    let len = bytes.len();
    match be_u32(bytes, offset) {
        Ok(v) => v,
        Err(_) => {
            assert(false);
            0
        },
    }
}

/// The 16-bit sign-and-magnitude field at `offset`.
pub open spec fn sm16_at(sec: Seq<u8>, offset: int) -> Option<i16> {
    sign_magnitude16(be16(sec, offset))
}

/// The product template that this decoder reads: radar elevation scan.
pub const PRODUCT_TEMPLATE_RADAR_ELEVATION: u16 = 51022;

/// Section 4 read as a sweep on `grid`, before its data is attached.
pub open spec fn spec_product(sec: Seq<u8>, grid: GridDefinition) -> Result<SweepModel, DecodeFault> {
    match section_fault(sec, 4, (60 + grid.radial_count * 4) as nat) {
        Some(e) => Err(e),
        None => {
            let template = be16(sec, 7);
            if template != PRODUCT_TEMPLATE_RADAR_ELEVATION {
                Err(DecodeFault::UnsupportedTemplate { section: 4, template })
            } else {
                match sign_magnitude32(be32(sec, 14)) {
                    None => Err(DecodeFault::Invalid("missing site latitude"@)),
                    Some(lat) => Ok(SweepModel {
                        product: jma_product(sec[9], sec[10]),
                        grid,
                        site: SiteModel {
                            id: field_text(sec.subrange(24, 28)),
                            number: be16(sec, 28),
                            lat_microdeg: lat,
                            lon_microdeg: be32(sec, 18),
                            altitude_decim: sm16_at(sec, 22),
                            magnetic_declination_centideg: sm16_at(sec, 30),
                            tx_frequency_khz: if be32(sec, 32) == u32::MAX { None } else { Some(be32(sec, 32)) },
                            polarization: sec[36],
                            operation_mode: sec[37],
                            quality_control: sec[39],
                            clutter_filter: sec[40],
                        },
                        elevation_angle_centideg: sm16_at(sec, 41),
                        observation_start_offset_sec: sm16_at(sec, 50),
                        observation_end_offset_sec: sm16_at(sec, 52),
                        representative_prfs_decihz: seq![sm16_at(sec, 44), sm16_at(sec, 46), sm16_at(sec, 48)],
                        ray_elevation_centideg: Seq::new(grid.radial_count as nat, |i: int| sm16_at(sec, 60 + 4 * i)),
                        ray_prf_decihz: Seq::new(grid.radial_count as nat, |i: int| sm16_at(sec, 62 + 4 * i)),
                        decimal_scale: 0,
                        values: Seq::empty(),
                    }),
                }
            }
        }
    }
}

/// Reads the product definition section as a sweep on `grid`, with no data
/// yet.
pub fn parse_product(section: &[u8], grid: &GridDefinition) -> (r: Result<Sweep, DecodeError>)
    requires
        grid.radial_count <= u32::MAX,
    ensures
        match r {
            Ok(v) => spec_product(section@, *grid) == Ok::<SweepModel, DecodeFault>(v@),
            Err(e) => spec_product(section@, *grid) == Err::<SweepModel, DecodeFault>(e@),
        },
{
    let rays = grid.radial_count;
    if let Err(e) = require_section(section, 4, 60 + rays as u64 * 4) {
        return Err(e);
    }
    let template = field16(section, 7);
    if template != PRODUCT_TEMPLATE_RADAR_ELEVATION {
        return Err(DecodeError::UnsupportedTemplate { section: 4, template });
    }
    let product = Product::from_jma(section[9], section[10]);
    let id = ascii_trim(slice_subrange(section, 24, 28));
    let lat = match signed_magnitude_i32(field32(section, 14)) {
        Some(v) => v,
        None => return Err(DecodeError::Invalid(text("missing site latitude"))),
    };
    let site = RadarSite {
        id,
        number: field16(section, 28),
        lat_microdeg: lat,
        lon_microdeg: field32(section, 18),
        altitude_decim: signed_magnitude_i16(field16(section, 22)),
        magnetic_declination_centideg: signed_magnitude_i16(field16(section, 30)),
        tx_frequency_khz: optional_u32(field32(section, 32)),
        polarization: section[36],
        operation_mode: section[37],
        quality_control: section[39],
        clutter_filter: section[40],
    };
    let elevation = signed_magnitude_i16(field16(section, 41));
    let prfs = [
        signed_magnitude_i16(field16(section, 44)),
        signed_magnitude_i16(field16(section, 46)),
        signed_magnitude_i16(field16(section, 48)),
    ];
    let mut ray_elevation: Vec<Option<i16>> = Vec::new();
    let mut ray_prf: Vec<Option<i16>> = Vec::new();
    let mut ray: usize = 0;
    while ray < rays
        invariant
            rays == grid.radial_count,
            60 + rays * 4 <= section@.len(),
            section@.len() == section.len(),
            ray <= rays,
            ray_elevation@ == Seq::new(ray as nat, |i: int| sm16_at(section@, 60 + 4 * i)),
            ray_prf@ == Seq::new(ray as nat, |i: int| sm16_at(section@, 62 + 4 * i)),
        decreases rays - ray,
    {
        let off: usize = 60 + ray * 4;
        ray_elevation.push(signed_magnitude_i16(field16(section, off)));
        ray_prf.push(signed_magnitude_i16(field16(section, off + 2)));
        ray = ray + 1;
        assert(ray_elevation@ =~= Seq::new(ray as nat, |i: int| sm16_at(section@, 60 + 4 * i)));
        assert(ray_prf@ =~= Seq::new(ray as nat, |i: int| sm16_at(section@, 62 + 4 * i)));
    }
    let sweep = Sweep {
        product,
        grid: *grid,
        site,
        elevation_angle_centideg: elevation,
        observation_start_offset_sec: signed_magnitude_i16(field16(section, 50)),
        observation_end_offset_sec: signed_magnitude_i16(field16(section, 52)),
        representative_prfs_decihz: prfs,
        ray_elevation_centideg: ray_elevation,
        ray_prf_decihz: ray_prf,
        decimal_scale: 0,
        values: Vec::new(),
    };
    assert(sweep@.representative_prfs_decihz =~= seq![sm16_at(section@, 44), sm16_at(section@, 46), sm16_at(section@, 48)]);
    assert(sweep@.site.id == field_text(section@.subrange(24, 28)));
    Ok(sweep)
}

/// The data representation template that this decoder reads: run-length
/// packing.
pub const DATA_TEMPLATE_RUN_LENGTH: u16 = 200;

/// The value of a level: level 0 is missing, level `k` is the `k`-th value
/// of the table that section 5 lists from byte 17.
pub open spec fn level_value(s5: Seq<u8>, level: nat) -> Option<i16> {
    if level == 0 { None } else { sm16_at(s5, 17 + 2 * (level - 1)) }
}

/// The values of `levels`, or the first level above `max_level`.
pub open spec fn map_levels(levels: Seq<u16>, s5: Seq<u8>, max_level: nat) -> Result<Seq<Option<i16>>, DecodeFault>
    decreases levels.len(),
{
    if levels.len() == 0 {
        Ok(Seq::empty())
    } else if levels[0] > max_level {
        Err(DecodeFault::RunLength(with_number("invalid level "@, levels[0] as nat)))
    } else {
        match map_levels(levels.drop_first(), s5, max_level) {
            Ok(rest) => Ok(seq![level_value(s5, levels[0] as nat)] + rest),
            Err(e) => Err(e),
        }
    }
}

/// `prefix` in front of a list of values.
pub open spec fn prepend_values(prefix: Seq<Option<i16>>, r: Result<Seq<Option<i16>>, DecodeFault>) -> Result<Seq<Option<i16>>, DecodeFault> {
    match r {
        Ok(rest) => Ok(prefix + rest),
        Err(e) => Err(e),
    }
}

/// Sections 5, 6 and 7 read as the decimal scale and the `expected` values
/// of a sweep.
pub open spec fn spec_data(s5: Seq<u8>, s6: Seq<u8>, s7: Seq<u8>, expected: nat) -> Result<(u8, Seq<Option<i16>>), DecodeFault> {
    if section_fault(s5, 5, 17) is Some {
        Err(section_fault(s5, 5, 17)->0)
    } else if section_fault(s6, 6, 6) is Some {
        Err(section_fault(s6, 6, 6)->0)
    } else if section_fault(s7, 7, 5) is Some {
        Err(section_fault(s7, 7, 5)->0)
    } else {
        let encoded = be32(s5, 5) as nat;
        let template = be16(s5, 9);
        let max_level = be16(s5, 14) as nat;
        if template != DATA_TEMPLATE_RUN_LENGTH {
            Err(DecodeFault::UnsupportedTemplate { section: 5, template })
        } else if s6[5] != 255 {
            Err(DecodeFault::Invalid(with_number("bitmap indicator "@, s6[5] as nat) + " is not supported yet"@))
        } else if encoded != expected {
            Err(DecodeFault::Invalid(
                with_number("encoded point count "@, encoded) + with_number(" != expected "@, expected),
            ))
        } else if 17 + max_level * 2 > s5.len() {
            Err(DecodeFault::Invalid("section 5 ended before all level values"@))
        } else {
            match rle_decode(s7.subrange(5, s7.len() as int), s5[11], be16(s5, 12), expected) {
                Err(e) => Err(e),
                Ok(levels) => match map_levels(levels, s5, max_level) {
                    Err(e) => Err(e),
                    Ok(values) => Ok((s5[16], values)),
                },
            }
        }
    }
}

/// Decodes the run-length packed data of section 7 with the level table of
/// section 5: the decimal scale, and one value per grid point.
pub fn decode_data(section5: &[u8], section6: &[u8], section7: &[u8], expected_points: usize) -> (r: Result<(u8, Vec<Option<i16>>), DecodeError>)
    ensures
        match r {
            Ok((scale, values)) => spec_data(section5@, section6@, section7@, expected_points as nat)
                == Ok::<(u8, Seq<Option<i16>>), DecodeFault>((scale, values@)),
            Err(e) => spec_data(section5@, section6@, section7@, expected_points as nat)
                == Err::<(u8, Seq<Option<i16>>), DecodeFault>(e@),
        },
{
    if let Err(e) = require_section(section5, 5, 17) {
        return Err(e);
    }
    if let Err(e) = require_section(section6, 6, 6) {
        return Err(e);
    }
    if let Err(e) = require_section(section7, 7, 5) {
        return Err(e);
    }
    let encoded_points = field32(section5, 5);
    let template = field16(section5, 9);
    if template != DATA_TEMPLATE_RUN_LENGTH {
        return Err(DecodeError::UnsupportedTemplate { section: 5, template });
    }
    if section6[5] != 255 {
        let mut m = text_number("bitmap indicator ", section6[5] as u64);
        push_str(&mut m, " is not supported yet");
        return Err(DecodeError::Invalid(m));
    }
    if encoded_points as u64 != expected_points as u64 {
        let m = text_number2("encoded point count ", encoded_points as u64, " != expected ", expected_points as u64);
        return Err(DecodeError::Invalid(m));
    }
    let num_bits = section5[11];
    let max_value = field16(section5, 12);
    let max_level = field16(section5, 14);
    let decimal_scale = section5[16];
    let levels_end: u64 = 17 + max_level as u64 * 2;
    if levels_end > section5.len() as u64 {
        return Err(DecodeError::Invalid(text("section 5 ended before all level values")));
    }
    let mut level_values: Vec<Option<i16>> = Vec::new();
    level_values.push(None);
    let mut idx: usize = 0;
    while idx < max_level as usize
        invariant
            17 + max_level * 2 <= section5@.len(),
            section5@.len() == section5.len(),
            idx <= max_level,
            level_values@.len() == idx + 1,
            forall|k: int| 0 <= k <= idx ==> #[trigger] level_values@[k] == level_value(section5@, k as nat),
        decreases max_level - idx,
    {
        let raw = field16(section5, 17 + idx * 2);
        level_values.push(signed_magnitude_i16(raw));
        idx = idx + 1;
    }
    let packed = slice_subrange(section7, 5, section7.len());
    assert(packed@ == section7@.subrange(5, section7@.len() as int));
    let levels = match run_length_decode(packed, num_bits, max_value, expected_points) {
        Ok(v) => v,
        Err(e) => return Err(e),
    };
    let mut values: Vec<Option<i16>> = Vec::new();
    let mut i: usize = 0;
    assert(spec_data(section5@, section6@, section7@, expected_points as nat) == match map_levels(levels@, section5@, max_level as nat) {
        Ok(v) => Ok((decimal_scale, v)),
        Err(e) => Err(e),
    });
    assert(levels@.subrange(0, levels@.len() as int) =~= levels@);
    assert(prepend_values(values@, map_levels(levels@, section5@, max_level as nat))
        == map_levels(levels@, section5@, max_level as nat)) by {
        match map_levels(levels@, section5@, max_level as nat) {
            Ok(rest) => { assert(values@ + rest =~= rest); },
            Err(_) => {},
        }
    }
    while i < levels.len()
        invariant
            i <= levels@.len(),
            level_values@.len() == max_level + 1,
            spec_data(section5@, section6@, section7@, expected_points as nat) == match map_levels(levels@, section5@, max_level as nat) {
                Ok(v) => Ok((decimal_scale, v)),
                Err(e) => Err(e),
            },
            forall|k: int| 0 <= k <= max_level ==> #[trigger] level_values@[k] == level_value(section5@, k as nat),
            map_levels(levels@, section5@, max_level as nat)
                == prepend_values(values@, map_levels(levels@.subrange(i as int, levels@.len() as int), section5@, max_level as nat)),
        decreases levels@.len() - i,
    {
        let level = levels[i];
        let ghost tail = levels@.subrange(i as int, levels@.len() as int);
        assert(tail[0] == level);
        assert(tail.drop_first() =~= levels@.subrange(i + 1, levels@.len() as int));
        if level > max_level {
            assert(map_levels(tail, section5@, max_level as nat)
                == Err::<Seq<Option<i16>>, DecodeFault>(DecodeFault::RunLength(with_number("invalid level "@, level as nat))));
            let m = text_number("invalid level ", level as u64);
            assert(map_levels(levels@, section5@, max_level as nat) == Err::<Seq<Option<i16>>, DecodeFault>(DecodeFault::RunLength(m@)));
            return Err(DecodeError::RunLength(m));
        }
        let ghost before = values@;
        values.push(level_values[level as usize]);
        proof {
            match map_levels(tail.drop_first(), section5@, max_level as nat) {
                Ok(rest) => {
                    assert(before + (seq![level_value(section5@, level as nat)] + rest) =~= values@ + rest);
                },
                Err(_) => {},
            }
        }
        i = i + 1;
    }
    assert(levels@.subrange(i as int, levels@.len() as int) =~= Seq::<u16>::empty());
    assert(values@ + Seq::<Option<i16>>::empty() =~= values@);
    Ok((decimal_scale, values))
}

/// The sweep of section 4 with its data attached.
pub open spec fn with_data(sweep: SweepModel, scale: u8, values: Seq<Option<i16>>) -> SweepModel {
    SweepModel {
        product: sweep.product,
        grid: sweep.grid,
        site: sweep.site,
        elevation_angle_centideg: sweep.elevation_angle_centideg,
        observation_start_offset_sec: sweep.observation_start_offset_sec,
        observation_end_offset_sec: sweep.observation_end_offset_sec,
        representative_prfs_decihz: sweep.representative_prfs_decihz,
        ray_elevation_centideg: sweep.ray_elevation_centideg,
        ray_prf_decihz: sweep.ray_prf_decihz,
        decimal_scale: scale,
        values,
    }
}

/// The sweeps that sections `i..` add to `sweeps`, with the latest grid and
/// the sections 4, 5 and 6 that wait for their section 7.
pub open spec fn walk(
    msg: Seq<u8>,
    secs: Seq<SectionRef>,
    i: nat,
    grid: Option<GridDefinition>,
    product: Option<SectionRef>,
    data_repr: Option<SectionRef>,
    bitmap: Option<SectionRef>,
    sweeps: Seq<SweepModel>,
) -> Result<Seq<SweepModel>, DecodeFault>
    decreases secs.len() - i,
{
    if i >= secs.len() {
        Ok(sweeps)
    } else {
        let s = secs[i as int];
        let next = (i + 1) as nat;
        if s.number == 1 || s.number == 2 {
            walk(msg, secs, next, grid, product, data_repr, bitmap, sweeps)
        } else if s.number == 3 {
            match spec_grid(bytes_of(msg, s)) {
                Ok(g) => walk(msg, secs, next, Some(g), product, data_repr, bitmap, sweeps),
                Err(e) => Err(e),
            }
        } else if s.number == 4 {
            walk(msg, secs, next, grid, Some(s), data_repr, bitmap, sweeps)
        } else if s.number == 5 {
            walk(msg, secs, next, grid, product, Some(s), bitmap, sweeps)
        } else if s.number == 6 {
            walk(msg, secs, next, grid, product, data_repr, Some(s), sweeps)
        } else if s.number == 7 {
            if grid is None {
                Err(DecodeFault::MissingSection(3))
            } else if product is None {
                Err(DecodeFault::MissingSection(4))
            } else if data_repr is None {
                Err(DecodeFault::MissingSection(5))
            } else if bitmap is None {
                Err(DecodeFault::MissingSection(6))
            } else {
                let g = grid->0;
                match spec_product(bytes_of(msg, product->0), g) {
                    Err(e) => Err(e),
                    Ok(sweep) => match spec_data(
                        bytes_of(msg, data_repr->0),
                        bytes_of(msg, bitmap->0),
                        bytes_of(msg, s),
                        (g.gate_count * g.radial_count) as nat,
                    ) {
                        Err(e) => Err(e),
                        Ok((scale, values)) => walk(
                            msg,
                            secs,
                            next,
                            grid,
                            None,
                            None,
                            None,
                            sweeps.push(with_data(sweep, scale, values)),
                        ),
                    },
                }
            }
        } else if s.number == 8 {
            Ok(sweeps)
        } else {
            Err(DecodeFault::Invalid(with_number("unexpected section "@, s.number as nat)))
        }
    }
}

/// The first section numbered `n`.
pub open spec fn first_numbered(secs: Seq<SectionRef>, n: u8) -> Option<SectionRef>
    decreases secs.len(),
{
    if secs.len() == 0 {
        None
    } else if secs[0].number == n {
        Some(secs[0])
    } else {
        first_numbered(secs.drop_first(), n)
    }
}

/// Whether `bytes` start with the indicator of a GRIB message of at least 20
/// bytes.
pub open spec fn has_grib_indicator(bytes: Seq<u8>) -> bool {
    &&& bytes.len() >= 20
    &&& bytes[0] == 0x47 && bytes[1] == 0x52 && bytes[2] == 0x49 && bytes[3] == 0x42
}

/// A GRIB2 message decoded as a volume.
pub open spec fn spec_decode_grib2(bytes: Seq<u8>, source_name: Option<Seq<char>>) -> Result<VolumeModel, DecodeFault> {
    if !has_grib_indicator(bytes) {
        Err(DecodeFault::Invalid("missing GRIB indicator"@))
    } else if bytes[7] != 2 {
        Err(DecodeFault::Invalid(with_number("expected GRIB edition 2, got "@, bytes[7] as nat)))
    } else if be64(bytes, 8) > bytes.len() {
        Err(DecodeFault::Invalid(
            with_number("message declares "@, be64(bytes, 8) as nat)
                + with_number(" bytes but input has "@, bytes.len()),
        ))
    } else {
        let msg = bytes.take(be64(bytes, 8) as int);
        if !(msg.len() >= 4 && end_marker_at(msg, msg.len() - 4)) {
            Err(DecodeFault::Invalid("missing GRIB end marker 7777"@))
        } else {
            match spec_scan(msg) {
                Err(e) => Err(e),
                Ok(secs) => match first_numbered(secs, 1) {
                    None => Err(DecodeFault::MissingSection(1)),
                    Some(s1) => match spec_identification(bytes_of(msg, s1)) {
                        Err(e) => Err(e),
                        Ok(identification) => match walk(msg, secs, 0, None, None, None, None, Seq::empty()) {
                            Err(e) => Err(e),
                            Ok(sweeps) => Ok(VolumeModel { source_name, identification, sweeps }),
                        },
                    },
                },
            }
        }
    }
}

/// The plain values of a list of sweeps.
pub open spec fn sweep_models(v: Seq<Sweep>) -> Seq<SweepModel> {
    Seq::new(v.len(), |i: int| v[i]@)
}

/// Finds the first section numbered `n`.
fn find_section(secs: &Vec<SectionRef>, n: u8) -> (r: Option<SectionRef>)
    ensures
        r == first_numbered(secs@, n),
{
    let mut i: usize = 0;
    proof { lemma_subrange_all(secs@); }
    while i < secs.len()
        invariant
            i <= secs@.len(),
            first_numbered(secs@, n) == first_numbered(secs@.subrange(i as int, secs@.len() as int), n),
        decreases secs@.len() - i,
    {
        let ghost tail = secs@.subrange(i as int, secs@.len() as int);
        assert(tail.drop_first() =~= secs@.subrange(i + 1, secs@.len() as int));
        if secs[i].number == n {
            return Some(secs[i]);
        }
        i = i + 1;
    }
    None
}

proof fn lemma_subrange_all<T>(s: Seq<T>)
    ensures
        s.subrange(0, s.len() as int) == s,
{
    assert(s.subrange(0, s.len() as int) =~= s);
}

/// Decodes one JMA radar GRIB2 message into a volume of sweeps.
pub fn decode_grib2(bytes: &[u8], source_name: Option<&str>) -> (r: Result<Volume, DecodeError>)
    ensures
        match r {
            Ok(v) => spec_decode_grib2(bytes@, match source_name { Some(s) => Some(s@), None => None })
                == Ok::<VolumeModel, DecodeFault>(v@),
            Err(e) => spec_decode_grib2(bytes@, match source_name { Some(s) => Some(s@), None => None })
                == Err::<VolumeModel, DecodeFault>(e@),
        },
        r matches Ok(v) ==> all_wf(v@.sweeps),
{
    proof { decoded_sweeps_are_well_formed(bytes@, match source_name { Some(s) => Some(s@), None => None }); }
    let ghost source = match source_name { Some(s) => Some(s@), None => None };
    if bytes.len() < 20 || bytes[0] != 0x47 || bytes[1] != 0x52 || bytes[2] != 0x49 || bytes[3] != 0x42 {
        return Err(DecodeError::Invalid(text("missing GRIB indicator")));
    }
    if bytes[7] != 2 {
        let m = text_number("expected GRIB edition 2, got ", bytes[7] as u64);
        return Err(DecodeError::Invalid(m));
    }
    let total_length: u64 = match be_u64(bytes, 8) {
        Ok(v) => v,
        Err(_) => {
            assert(false);
            0
        },
    };
    if total_length > bytes.len() as u64 {
        let m = text_number2("message declares ", total_length, " bytes but input has ", bytes.len() as u64);
        return Err(DecodeError::Invalid(m));
    }
    let msg = slice_subrange(bytes, 0, total_length as usize);
    assert(msg@ =~= bytes@.take(total_length as int));
    let n = msg.len();
    if n < 4 || msg[n - 4] != 0x37 || msg[n - 3] != 0x37 || msg[n - 2] != 0x37 || msg[n - 1] != 0x37 {
        return Err(DecodeError::Invalid(text("missing GRIB end marker 7777")));
    }
    let sections = match scan_sections(msg) {
        Ok(v) => v,
        Err(e) => return Err(e),
    };
    proof { lemma_scan_fits(msg@, 16); }
    let identification = match find_section(&sections, 1) {
        None => return Err(DecodeError::MissingSection(1)),
        Some(s1) => {
            proof {
                assert(sections@.contains(s1)) by {
                    lemma_first_numbered_in(sections@, 1);
                }
            }
            match parse_identification(section_bytes(msg, s1)) {
                Ok(v) => v,
                Err(e) => return Err(e),
            }
        },
    };
    let mut current_grid: Option<GridDefinition> = None;
    let mut pending_product: Option<SectionRef> = None;
    let mut pending_data_repr: Option<SectionRef> = None;
    let mut pending_bitmap: Option<SectionRef> = None;
    let mut sweeps: Vec<Sweep> = Vec::new();
    let mut i: usize = 0;
    let ghost whole = walk(msg@, sections@, 0, None, None, None, None, Seq::empty());
    assert(sweep_models(sweeps@) =~= Seq::<SweepModel>::empty());
    assert(spec_decode_grib2(bytes@, source) == volume_outcome(source, identification, whole));
    while i < sections.len()
        invariant
            i <= sections@.len(),
            sections_fit(msg@, sections@),
            current_grid matches Some(g) ==> g.radial_count <= u32::MAX && g.gate_count * g.radial_count <= u32::MAX,
            pending_product matches Some(s) ==> sections@.contains(s),
            pending_data_repr matches Some(s) ==> sections@.contains(s),
            pending_bitmap matches Some(s) ==> sections@.contains(s),
            spec_decode_grib2(bytes@, source) == volume_outcome(source, identification, whole),
            source == match source_name { Some(s) => Some(s@), None => None },
            whole == walk(msg@, sections@, i as nat, current_grid, pending_product, pending_data_repr, pending_bitmap, sweep_models(sweeps@)),
        decreases sections@.len() - i,
    {
        let section = sections[i];
        assert(sections@.contains(section)) by { assert(sections@[i as int] == section); }
        assert(section.offset + section.length <= msg@.len() && section.length >= 4) by {
            assert(sections@[i as int] == section);
        }
        let number = section.number;
        if number == 1 || number == 2 {
        } else if number == 3 {
            match parse_grid(section_bytes(msg, section)) {
                Ok(g) => { current_grid = Some(g); },
                Err(e) => return Err(e),
            }
        } else if number == 4 {
            pending_product = Some(section);
        } else if number == 5 {
            pending_data_repr = Some(section);
        } else if number == 6 {
            pending_bitmap = Some(section);
        } else if number == 7 {
            let grid = match current_grid {
                Some(g) => g,
                None => return Err(DecodeError::MissingSection(3)),
            };
            let product_section = match pending_product {
                Some(s) => s,
                None => return Err(DecodeError::MissingSection(4)),
            };
            let data_repr = match pending_data_repr {
                Some(s) => s,
                None => return Err(DecodeError::MissingSection(5)),
            };
            let bitmap = match pending_bitmap {
                Some(s) => s,
                None => return Err(DecodeError::MissingSection(6)),
            };
            proof {
                lemma_contained_fits(msg@, sections@, product_section);
                lemma_contained_fits(msg@, sections@, data_repr);
                lemma_contained_fits(msg@, sections@, bitmap);
            }
            let mut sweep = match parse_product(section_bytes(msg, product_section), &grid) {
                Ok(v) => v,
                Err(e) => return Err(e),
            };
            let points: usize = grid.gate_count * grid.radial_count;
            let data_bytes = section_bytes(msg, section);
            let (scale, values) = match decode_data(
                section_bytes(msg, data_repr),
                section_bytes(msg, bitmap),
                data_bytes,
                points,
            ) {
                Ok(v) => v,
                Err(e) => return Err(e),
            };
            let ghost base = sweep@;
            sweep.grid = grid;
            sweep.decimal_scale = scale;
            sweep.values = values;
            assert(sweep@ == with_data(base, scale, values@));
            let ghost before = sweep_models(sweeps@);
            sweeps.push(sweep);
            assert(sweep_models(sweeps@) =~= before.push(with_data(base, scale, values@)));
            pending_product = None;
            pending_data_repr = None;
            pending_bitmap = None;
        } else if number == 8 {
            assert(whole == Ok::<Seq<SweepModel>, DecodeFault>(sweep_models(sweeps@)));
            let volume = make_volume(source_name, identification, sweeps);
            proof { decoded_sweeps_are_well_formed(bytes@, source); }
            return Ok(volume);
        } else {
            let m = text_number("unexpected section ", number as u64);
            return Err(DecodeError::Invalid(m));
        }
        i = i + 1;
    }
    Ok(make_volume(source_name, identification, sweeps))
}

/// The result of a decode whose sweeps came out as `sweeps`.
pub open spec fn volume_outcome(
    source: Option<Seq<char>>,
    identification: Identification,
    sweeps: Result<Seq<SweepModel>, DecodeFault>,
) -> Result<VolumeModel, DecodeFault> {
    match sweeps {
        Ok(s) => Ok(VolumeModel { source_name: source, identification, sweeps: s }),
        Err(e) => Err(e),
    }
}

fn make_volume(source_name: Option<&str>, identification: Identification, sweeps: Vec<Sweep>) -> (v: Volume)
    ensures
        v@ == (VolumeModel {
            source_name: match source_name { Some(s) => Some(s@), None => None },
            identification,
            sweeps: sweep_models(sweeps@),
        }),
{
    let name = match source_name {
        Some(s) => Some(text(s)),
        None => None,
    };
    let volume = Volume { source_name: name, identification, sweeps };
    assert(volume@.sweeps =~= sweep_models(volume.sweeps@));
    volume
}

proof fn lemma_first_numbered_in(secs: Seq<SectionRef>, n: u8)
    ensures
        first_numbered(secs, n) matches Some(s) ==> secs.contains(s),
    decreases secs.len(),
{
    if secs.len() > 0 && secs[0].number != n {
        lemma_first_numbered_in(secs.drop_first(), n);
        if let Some(s) = first_numbered(secs.drop_first(), n) {
            let k = choose|k: int| 0 <= k < secs.drop_first().len() && secs.drop_first()[k] == s;
            assert(secs[k + 1] == s);
        }
    } else if secs.len() > 0 {
        assert(secs[0] == secs[0]);
    }
}

proof fn lemma_contained_fits(msg: Seq<u8>, secs: Seq<SectionRef>, s: SectionRef)
    requires
        sections_fit(msg, secs),
        secs.contains(s),
    ensures
        s.offset + s.length <= msg.len(),
        s.length >= 4,
{
    let k = choose|k: int| 0 <= k < secs.len() && secs[k] == s;
    assert(secs[k].offset + secs[k].length <= msg.len());
}

proof fn lemma_map_levels_len(levels: Seq<u16>, s5: Seq<u8>, max_level: nat)
    ensures
        map_levels(levels, s5, max_level) matches Ok(v) ==> v.len() == levels.len(),
    decreases levels.len(),
{
    if levels.len() > 0 {
        lemma_map_levels_len(levels.drop_first(), s5, max_level);
    }
}

proof fn lemma_data_len(s5: Seq<u8>, s6: Seq<u8>, s7: Seq<u8>, expected: nat)
    ensures
        spec_data(s5, s6, s7, expected) matches Ok((_, v)) ==> v.len() == expected,
{
    let max_value = be16(s5, 12);
    let num_bits = s5[11];
    crate::rle::decoded_length_is_expected(s7.subrange(5, s7.len() as int), num_bits, max_value, expected);
    if let Ok(levels) = rle_decode(s7.subrange(5, s7.len() as int), num_bits, max_value, expected) {
        lemma_map_levels_len(levels, s5, be16(s5, 14) as nat);
    }
}

/// Every sweep's tables fit its grid.
pub open spec fn all_wf(sweeps: Seq<SweepModel>) -> bool {
    forall|i: int| 0 <= i < sweeps.len() ==> #[trigger] sweeps[i].wf()
}

proof fn lemma_walk_wf(
    msg: Seq<u8>,
    secs: Seq<SectionRef>,
    i: nat,
    grid: Option<GridDefinition>,
    product: Option<SectionRef>,
    data_repr: Option<SectionRef>,
    bitmap: Option<SectionRef>,
    sweeps: Seq<SweepModel>,
)
    requires
        all_wf(sweeps),
    ensures
        walk(msg, secs, i, grid, product, data_repr, bitmap, sweeps) matches Ok(out) ==> all_wf(out),
    decreases secs.len() - i,
{
    if i < secs.len() {
        let s = secs[i as int];
        let next = (i + 1) as nat;
        if s.number == 1 || s.number == 2 {
            lemma_walk_wf(msg, secs, next, grid, product, data_repr, bitmap, sweeps);
        } else if s.number == 3 {
            if let Ok(g) = spec_grid(bytes_of(msg, s)) {
                lemma_walk_wf(msg, secs, next, Some(g), product, data_repr, bitmap, sweeps);
            }
        } else if s.number == 4 {
            lemma_walk_wf(msg, secs, next, grid, Some(s), data_repr, bitmap, sweeps);
        } else if s.number == 5 {
            lemma_walk_wf(msg, secs, next, grid, product, Some(s), bitmap, sweeps);
        } else if s.number == 6 {
            lemma_walk_wf(msg, secs, next, grid, product, data_repr, Some(s), sweeps);
        } else if s.number == 7 && grid is Some && product is Some && data_repr is Some && bitmap is Some {
            let g = grid->0;
            if let Ok(sweep) = spec_product(bytes_of(msg, product->0), g) {
                let expected = (g.gate_count * g.radial_count) as nat;
                lemma_data_len(bytes_of(msg, data_repr->0), bytes_of(msg, bitmap->0), bytes_of(msg, s), expected);
                if let Ok((scale, values)) = spec_data(
                    bytes_of(msg, data_repr->0),
                    bytes_of(msg, bitmap->0),
                    bytes_of(msg, s),
                    expected,
                ) {
                    let added = sweeps.push(with_data(sweep, scale, values));
                    assert(all_wf(added)) by {
                        assert forall|k: int| 0 <= k < added.len() implies #[trigger] added[k].wf() by {
                            if k < sweeps.len() {
                                assert(added[k] == sweeps[k]);
                            }
                        }
                    }
                    lemma_walk_wf(msg, secs, next, grid, None, None, None, added);
                }
            }
        }
    }
}

/// A decoded volume's sweeps are well formed: each holds one value per grid
/// point and one elevation and PRF per radial, so that every in-grid
/// `Sweep::value` is present.
pub proof fn decoded_sweeps_are_well_formed(bytes: Seq<u8>, source_name: Option<Seq<char>>)
    ensures
        spec_decode_grib2(bytes, source_name) matches Ok(v) ==> all_wf(v.sweeps),
{
    let msg = bytes.take(be64(bytes, 8) as int);
    if let Ok(secs) = spec_scan(msg) {
        lemma_walk_wf(msg, secs, 0, None, None, None, None, Seq::empty());
    }
}

/// The members of a tar archive, in order, as (path, contents), with the
/// error that stopped the reading, if one did.
pub uninterp spec fn tar_listing(bytes: Seq<u8>) -> (Seq<(Seq<char>, Seq<u8>)>, Option<Seq<char>>);

/// The plain values of the members read from an archive.
pub open spec fn member_models(members: Seq<(String, Vec<u8>)>) -> Seq<(Seq<char>, Seq<u8>)> {
    Seq::new(members.len(), |i: int| (members[i].0@, members[i].1@))
}

/// Reads the members of an in-memory tar archive.
///
/// Trusted: `tar::Archive::new` over a `Cursor`, then `Archive::entries`,
/// and for each entry `Entry::path` (shown lossily as text) and
/// `Read::read_to_end`. The members read before the first error are
/// returned with that error's text; the listing as a whole is named
/// `tar_listing`, a function of the bytes alone, and nothing more is claimed
/// of it.
#[verifier::external_body]
fn read_tar(bytes: &[u8]) -> (r: (Vec<(String, Vec<u8>)>, Option<String>))
    ensures
        (member_models(r.0@), opt_text(r.1)) == tar_listing(bytes@),
{
    let mut archive = tar::Archive::new(std::io::Cursor::new(bytes));
    let mut members = Vec::new();
    let entries = match archive.entries() { Ok(e) => e, Err(e) => return (members, Some(e.to_string())) };
    for entry in entries {
        let member = entry.and_then(|mut e| {
            let path = e.path()?.to_string_lossy().to_string();
            let mut data = Vec::new();
            e.read_to_end(&mut data).map(|_| (path, data))
        });
        match member { Ok(m) => members.push(m), Err(e) => return (members, Some(e.to_string())) }
    }
    (members, None)
}

/// Whether a path ends in `.bin`.
pub open spec fn is_bin_path(p: Seq<char>) -> bool {
    p.len() >= 4 && p.subrange(p.len() - 4, p.len() as int) == ".bin"@
}

/// The volumes of the `.bin` members from member `i` on, or the first error:
/// a member that does not decode, else the error that stopped the listing.
pub open spec fn member_volumes(
    members: Seq<(Seq<char>, Seq<u8>)>,
    error: Option<Seq<char>>,
    i: nat,
) -> Result<Seq<VolumeModel>, DecodeFault>
    decreases members.len() - i,
{
    if i >= members.len() {
        match error {
            Some(m) => Err(DecodeFault::Tar(m)),
            None => Ok(Seq::empty()),
        }
    } else if !is_bin_path(members[i as int].0) {
        member_volumes(members, error, i + 1)
    } else {
        match spec_decode_grib2(members[i as int].1, Some(members[i as int].0)) {
            Err(e) => Err(e),
            Ok(v) => match member_volumes(members, error, i + 1) {
                Ok(rest) => Ok(seq![v] + rest),
                Err(e) => Err(e),
            },
        }
    }
}

/// A tar archive decoded as the volumes of its `.bin` members.
pub open spec fn spec_decode_tar(bytes: Seq<u8>) -> Result<Seq<VolumeModel>, DecodeFault> {
    member_volumes(tar_listing(bytes).0, tar_listing(bytes).1, 0)
}

/// The plain values of a list of volumes.
pub open spec fn volume_models(v: Seq<Volume>) -> Seq<VolumeModel> {
    Seq::new(v.len(), |i: int| v[i]@)
}

/// `prefix` in front of a list of volumes.
pub open spec fn prepend_volumes(prefix: Seq<VolumeModel>, r: Result<Seq<VolumeModel>, DecodeFault>) -> Result<Seq<VolumeModel>, DecodeFault> {
    match r {
        Ok(rest) => Ok(prefix + rest),
        Err(e) => Err(e),
    }
}

/// Whether a path ends in `.bin`.
fn ends_with_bin(path: &str) -> (b: bool)
    ensures
        b == is_bin_path(path@),
{
    let v = crate::text::chars_of(path);
    let n = v.len();
    if n < 4 {
        return false;
    }
    proof { reveal_strlit(".bin"); }
    let b = v[n - 4] == '.' && v[n - 3] == 'b' && v[n - 2] == 'i' && v[n - 1] == 'n';
    let ghost tail = v@.subrange(n - 4, n as int);
    assert(".bin"@ =~= seq!['.', 'b', 'i', 'n']);
    if b {
        assert(tail =~= ".bin"@);
    } else {
        assert(tail != ".bin"@) by {
            if tail == ".bin"@ {
                assert(tail[0] == '.' && tail[1] == 'b' && tail[2] == 'i' && tail[3] == 'n');
            }
        }
    }
    b
}

/// The volumes of the members of `listing`, as read from an archive.
pub fn decode_members(members: &Vec<(String, Vec<u8>)>, error: &Option<String>) -> (r: Result<Vec<Volume>, DecodeError>)
    ensures
        match r {
            Ok(v) => member_volumes(member_models(members@), opt_text(*error), 0)
                == Ok::<Seq<VolumeModel>, DecodeFault>(volume_models(v@)),
            Err(e) => member_volumes(member_models(members@), opt_text(*error), 0)
                == Err::<Seq<VolumeModel>, DecodeFault>(e@),
        },
{
    let ghost models = member_models(members@);
    let ghost err = opt_text(*error);
    let mut volumes: Vec<Volume> = Vec::new();
    let mut i: usize = 0;
    assert(volume_models(volumes@) + Seq::<VolumeModel>::empty() =~= Seq::<VolumeModel>::empty());
    assert(prepend_volumes(volume_models(volumes@), member_volumes(models, err, 0)) == member_volumes(models, err, 0)) by {
        match member_volumes(models, err, 0) {
            Ok(rest) => { assert(volume_models(volumes@) + rest =~= rest); },
            Err(_) => {},
        }
    }
    while i < members.len()
        invariant
            i <= members@.len(),
            models == member_models(members@),
            err == opt_text(*error),
            member_volumes(models, err, 0) == prepend_volumes(volume_models(volumes@), member_volumes(models, err, i as nat)),
        decreases members@.len() - i,
    {
        let path = members[i].0.as_str();
        if ends_with_bin(path) {
            let decoded = decode_grib2(members[i].1.as_slice(), Some(path));
            match decoded {
                Ok(v) => {
                    let ghost before = volume_models(volumes@);
                    volumes.push(v);
                    proof {
                        assert(volume_models(volumes@) =~= before.push(v@));
                        match member_volumes(models, err, (i + 1) as nat) {
                            Ok(rest) => {
                                assert(before + (seq![v@] + rest) =~= volume_models(volumes@) + rest);
                            },
                            Err(_) => {},
                        }
                    }
                },
                Err(e) => return Err(e),
            }
        }
        i = i + 1;
    }
    match error {
        Some(m) => Err(DecodeError::Tar(m.clone())),
        None => {
            assert(volume_models(volumes@) + Seq::<VolumeModel>::empty() =~= volume_models(volumes@));
            Ok(volumes)
        },
    }
}

/// Decodes every `.bin` member of a tar archive held in memory, in archive
/// order.
pub fn decode_tar(bytes: &[u8]) -> (r: Result<Vec<Volume>, DecodeError>)
    ensures
        match r {
            Ok(v) => spec_decode_tar(bytes@) == Ok::<Seq<VolumeModel>, DecodeFault>(volume_models(v@)),
            Err(e) => spec_decode_tar(bytes@) == Err::<Seq<VolumeModel>, DecodeFault>(e@),
        },
{
    let (members, error) = read_tar(bytes);
    decode_members(&members, &error)
}

} // verus!

verus! {

/// Whether a site was read from the product section `sec`: its latitude is
/// the sign-and-magnitude number at byte 14, its longitude the big-endian
/// `u32` at byte 18, and its number the big-endian `u16` at byte 28.
pub open spec fn site_read_from(site: SiteModel, sec: Seq<u8>) -> bool {
    &&& sign_magnitude32(be32(sec, 14)) == Some(site.lat_microdeg)
    &&& site.lon_microdeg == be32(sec, 18)
    &&& site.number == be16(sec, 28)
}

/// Whether a sweep's site, product and elevation were read from the product
/// section `sec`: the site as `site_read_from` says, the product from the
/// category and number at bytes 9 and 10, and the elevation from the
/// sign-and-magnitude number at byte 41.
pub open spec fn sweep_read_from(sweep: SweepModel, sec: Seq<u8>) -> bool {
    &&& site_read_from(sweep.site, sec)
    &&& (sec[9] == 15 && sec[10] == 1 ==> sweep.product == Product::Reflectivity)
    &&& (sec[9] == 15 && sec[10] == 2 ==> sweep.product == Product::Velocity)
    &&& (!(sec[9] == 15 && (sec[10] == 1 || sec[10] == 2)) ==> sweep.product == (Product::Unknown {
        category: sec[9],
        number: sec[10],
    }))
    &&& sweep.elevation_angle_centideg == sign_magnitude16(be16(sec, 41))
}

/// Whether a sweep was read from some section 4 among `secs` of `msg`.
pub open spec fn from_some_product(sweep: SweepModel, msg: Seq<u8>, secs: Seq<SectionRef>) -> bool {
    exists|j: int| 0 <= j < secs.len() && secs[j].number == 4 && #[trigger] sweep_read_from(sweep, bytes_of(msg, secs[j]))
}

/// A product section read on any grid gives the site, product and
/// elevation at their own fixed offsets: latitude at byte 14, longitude at
/// byte 18, whatever the other holds.
pub proof fn product_site_fields(sec: Seq<u8>, grid: GridDefinition)
    ensures
        spec_product(sec, grid) matches Ok(p) ==> sweep_read_from(p, sec),
{
}

proof fn lemma_walk_sites(
    msg: Seq<u8>,
    secs: Seq<SectionRef>,
    i: nat,
    grid: Option<GridDefinition>,
    product: Option<SectionRef>,
    data_repr: Option<SectionRef>,
    bitmap: Option<SectionRef>,
    sweeps: Seq<SweepModel>,
)
    requires
        forall|k: int| 0 <= k < sweeps.len() ==> from_some_product(#[trigger] sweeps[k], msg, secs),
        product matches Some(p) ==> exists|j: int| 0 <= j < secs.len() && #[trigger] secs[j] == p && p.number == 4,
    ensures
        walk(msg, secs, i, grid, product, data_repr, bitmap, sweeps) matches Ok(out) ==> forall|k: int|
            0 <= k < out.len() ==> from_some_product(#[trigger] out[k], msg, secs),
    decreases secs.len() - i,
{
    if i < secs.len() {
        let s = secs[i as int];
        let next = (i + 1) as nat;
        if s.number == 1 || s.number == 2 {
            lemma_walk_sites(msg, secs, next, grid, product, data_repr, bitmap, sweeps);
        } else if s.number == 3 {
            if let Ok(g) = spec_grid(bytes_of(msg, s)) {
                lemma_walk_sites(msg, secs, next, Some(g), product, data_repr, bitmap, sweeps);
            }
        } else if s.number == 4 {
            assert(secs[i as int] == s);
            lemma_walk_sites(msg, secs, next, grid, Some(s), data_repr, bitmap, sweeps);
        } else if s.number == 5 {
            lemma_walk_sites(msg, secs, next, grid, product, Some(s), bitmap, sweeps);
        } else if s.number == 6 {
            lemma_walk_sites(msg, secs, next, grid, product, data_repr, Some(s), sweeps);
        } else if s.number == 7 && grid is Some && product is Some && data_repr is Some && bitmap is Some {
            let g = grid->0;
            let p = product->0;
            if let Ok(sweep) = spec_product(bytes_of(msg, p), g) {
                if let Ok((scale, values)) = spec_data(
                    bytes_of(msg, data_repr->0),
                    bytes_of(msg, bitmap->0),
                    bytes_of(msg, s),
                    (g.gate_count * g.radial_count) as nat,
                ) {
                    let added = sweeps.push(with_data(sweep, scale, values));
                    let j = choose|j: int| 0 <= j < secs.len() && #[trigger] secs[j] == p && p.number == 4;
                    product_site_fields(bytes_of(msg, p), g);
                    assert(sweep_read_from(added.last(), bytes_of(msg, secs[j])));
                    assert forall|k: int| 0 <= k < added.len() implies from_some_product(
                        #[trigger] added[k],
                        msg,
                        secs,
                    ) by {
                        if k < sweeps.len() {
                            assert(added[k] == sweeps[k]);
                        } else {
                            assert(added[k] == added.last());
                        }
                    }
                    lemma_walk_sites(msg, secs, next, grid, None, None, None, added);
                }
            }
        }
    }
}

/// Every sweep of a decoded message was read from one of the message's
/// product sections: its site latitude at byte 14 of that section, its
/// longitude at byte 18, its site number at byte 28, its product at bytes 9
/// and 10 and its elevation at byte 41.
pub proof fn decoded_sweeps_come_from_product_sections(bytes: Seq<u8>, source_name: Option<Seq<char>>)
    ensures
        spec_decode_grib2(bytes, source_name) matches Ok(v) ==> {
            let msg = bytes.take(be64(bytes, 8) as int);
            &&& spec_scan(msg) is Ok
            &&& forall|k: int| 0 <= k < v.sweeps.len() ==> from_some_product(
                #[trigger] v.sweeps[k],
                msg,
                spec_scan(msg)->Ok_0,
            )
        },
{
    let msg = bytes.take(be64(bytes, 8) as int);
    if let Ok(secs) = spec_scan(msg) {
        lemma_walk_sites(msg, secs, 0, None, None, None, None, Seq::empty());
    }
}

} // verus!
