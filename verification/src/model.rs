//! The decoded radial volume.
//!
//! Every quantity is the integer that the message carries: latitudes and
//! longitudes in micro-degrees, distances in millimetres, angles in hundredths
//! of a degree, frequencies in tenths of a hertz, and data values in units of
//! `10^-decimal_scale`. `None` stands for a field marked missing.

use vstd::prelude::*;
use crate::text::{padded, pow10, push_char, push_padded};

verus! {

/// A UTC date and time as its calendar fields.
#[derive(Clone, Copy, Debug, PartialEq, Eq, Structural)]
pub struct DateTimeParts {
    pub year: u16,
    pub month: u8,
    pub day: u8,
    pub hour: u8,
    pub minute: u8,
    pub second: u8,
}

/// `yyyyMMddhhmmss`, each field zero-padded.
pub open spec fn compact_text(t: DateTimeParts) -> Seq<char> {
    padded(t.year as nat, 4) + padded(t.month as nat, 2) + padded(t.day as nat, 2)
        + padded(t.hour as nat, 2) + padded(t.minute as nat, 2) + padded(t.second as nat, 2)
}

/// `yyyy-MM-ddThh:mm:ssZ`, each field zero-padded.
pub open spec fn iso_text(t: DateTimeParts) -> Seq<char> {
    padded(t.year as nat, 4) + seq!['-'] + padded(t.month as nat, 2) + seq!['-']
        + padded(t.day as nat, 2) + seq!['T'] + padded(t.hour as nat, 2) + seq![':']
        + padded(t.minute as nat, 2) + seq![':'] + padded(t.second as nat, 2) + seq!['Z']
}

/// Whether `c` separates the fields of the ISO form.
pub open spec fn is_iso_separator(c: char) -> bool {
    c == '-' || c == 'T' || c == ':' || c == 'Z'
}

/// `s` without its ISO separators.
pub open spec fn without_separators(s: Seq<char>) -> Seq<char> {
    s.filter(|c: char| !is_iso_separator(c))
}

/// The digits of `padded(n, w)` are no separators.
proof fn lemma_padded_unseparated(n: nat, w: nat)
    ensures
        without_separators(padded(n, w)) == padded(n, w),
{
    crate::text::lemma_padded_digits(n, w);
    let p = padded(n, w);
    let f = |c: char| !is_iso_separator(c);
    assert forall|i: int| 0 <= i < p.len() implies f(p[i]) by {
        assert('0' <= p[i] <= '9');
    }
    lemma_filter_all(p, f);
}

/// Filtering a sequence whose elements all pass leaves it as it is.
proof fn lemma_filter_all(s: Seq<char>, f: spec_fn(char) -> bool)
    requires
        forall|i: int| 0 <= i < s.len() ==> f(s[i]),
    ensures
        s.filter(f) == s,
    decreases s.len(),
{
    reveal(Seq::filter);
    if s.len() > 0 {
        lemma_filter_all(s.drop_last(), f);
        assert(s.drop_last().push(s.last()) =~= s);
    }
}

/// Removing separators across a separator and a run of digits.
proof fn lemma_drop_separator(a: Seq<char>, c: char, p: Seq<char>)
    requires
        is_iso_separator(c),
        without_separators(p) == p,
    ensures
        without_separators(a + seq![c] + p) == without_separators(a) + p,
{
    let f = |x: char| !is_iso_separator(x);
    assert(seq![c].filter(f) =~= Seq::<char>::empty()) by { reveal_with_fuel(Seq::filter, 2); }
    Seq::filter_distributes_over_add(a, seq![c], f);
    Seq::filter_distributes_over_add(a + seq![c], p, f);
    assert(a.filter(f) + Seq::<char>::empty() =~= a.filter(f));
}

/// The compact form of a time is its ISO form with the separators `-`,
/// `T`, `:` and `Z` removed, and is 14 characters long when each field fits
/// its width.
pub proof fn compact_is_iso_without_separators(t: DateTimeParts)
    ensures
        compact_text(t) == without_separators(iso_text(t)),
        t.year <= 9999 && t.month <= 99 && t.day <= 99 && t.hour <= 99 && t.minute <= 99 && t.second <= 99
            ==> compact_text(t).len() == 14,
{
    let y = padded(t.year as nat, 4);
    let mo = padded(t.month as nat, 2);
    let d = padded(t.day as nat, 2);
    let h = padded(t.hour as nat, 2);
    let mi = padded(t.minute as nat, 2);
    let se = padded(t.second as nat, 2);
    lemma_padded_unseparated(t.year as nat, 4);
    lemma_padded_unseparated(t.month as nat, 2);
    lemma_padded_unseparated(t.day as nat, 2);
    lemma_padded_unseparated(t.hour as nat, 2);
    lemma_padded_unseparated(t.minute as nat, 2);
    lemma_padded_unseparated(t.second as nat, 2);
    let a1 = y + seq!['-'] + mo;
    lemma_drop_separator(y, '-', mo);
    let a2 = a1 + seq!['-'] + d;
    lemma_drop_separator(a1, '-', d);
    let a3 = a2 + seq!['T'] + h;
    lemma_drop_separator(a2, 'T', h);
    let a4 = a3 + seq![':'] + mi;
    lemma_drop_separator(a3, ':', mi);
    let a5 = a4 + seq![':'] + se;
    lemma_drop_separator(a4, ':', se);
    assert(without_separators(Seq::<char>::empty()) =~= Seq::<char>::empty()) by { reveal(Seq::filter); }
    lemma_drop_separator(a5, 'Z', Seq::empty());
    assert(iso_text(t) == a5 + seq!['Z'] + Seq::<char>::empty()) by {
        assert(iso_text(t) =~= a5 + seq!['Z'] + Seq::<char>::empty());
    }
    assert(without_separators(iso_text(t)) =~= compact_text(t));
    lemma_compact_len(t);
}

proof fn lemma_compact_len(t: DateTimeParts)
    ensures
        t.year <= 9999 && t.month <= 99 && t.day <= 99 && t.hour <= 99 && t.minute <= 99 && t.second <= 99
            ==> compact_text(t).len() == 14,
{
    if t.year <= 9999 && t.month <= 99 && t.day <= 99 && t.hour <= 99 && t.minute <= 99 && t.second <= 99 {
        assert(pow10(4) == 10000 && pow10(2) == 100) by { reveal_with_fuel(pow10, 5); }
        crate::text::lemma_padded_len(t.year as nat, 4);
        crate::text::lemma_padded_len(t.month as nat, 2);
        crate::text::lemma_padded_len(t.day as nat, 2);
        crate::text::lemma_padded_len(t.hour as nat, 2);
        crate::text::lemma_padded_len(t.minute as nat, 2);
        crate::text::lemma_padded_len(t.second as nat, 2);
    }
}

impl DateTimeParts {
    /// The time as `yyyyMMddhhmmss`.
    pub fn compact_utc(&self) -> (s: String)
        ensures
            s@ == compact_text(*self),
    {
        let mut s = String::new();
        push_padded(&mut s, self.year as u64, 4);
        push_padded(&mut s, self.month as u64, 2);
        push_padded(&mut s, self.day as u64, 2);
        push_padded(&mut s, self.hour as u64, 2);
        push_padded(&mut s, self.minute as u64, 2);
        push_padded(&mut s, self.second as u64, 2);
        assert(s@ =~= compact_text(*self));
        s
    }

    /// The time as `yyyy-MM-ddThh:mm:ssZ`.
    pub fn iso_utc(&self) -> (s: String)
        ensures
            s@ == iso_text(*self),
    {
        let mut s = String::new();
        push_padded(&mut s, self.year as u64, 4);
        push_char(&mut s, '-');
        push_padded(&mut s, self.month as u64, 2);
        push_char(&mut s, '-');
        push_padded(&mut s, self.day as u64, 2);
        push_char(&mut s, 'T');
        push_padded(&mut s, self.hour as u64, 2);
        push_char(&mut s, ':');
        push_padded(&mut s, self.minute as u64, 2);
        push_char(&mut s, ':');
        push_padded(&mut s, self.second as u64, 2);
        push_char(&mut s, 'Z');
        assert(s@ =~= iso_text(*self));
        s
    }
}

/// Section 1 of the message.
#[derive(Clone, Copy, Debug, PartialEq, Eq, Structural)]
pub struct Identification {
    pub center_id: u16,
    pub subcenter_id: u16,
    pub master_table_version: u8,
    pub local_table_version: u8,
    pub reference_time_significance: u8,
    pub reference_time: DateTimeParts,
    pub production_status: u8,
    pub data_type: u8,
}

/// The azimuth-range grid of section 3 (template 3.50120).
#[derive(Clone, Copy, Debug, PartialEq, Eq, Structural)]
pub struct GridDefinition {
    pub gate_count: usize,
    pub radial_count: usize,
    pub center_lat_microdeg: i32,
    pub center_lon_microdeg: u32,
    pub gate_spacing_mm: u32,
    pub range_start_mm: u32,
    pub scan_mode: u8,
    pub start_azimuth_centideg: u16,
}

impl GridDefinition {
    /// Whether the radials go clockwise: bit `0b0100_0000` of the scan mode
    /// is clear.
    pub fn scans_clockwise(&self) -> (r: bool)
        ensures
            r == (self.scan_mode & 0x40u8 == 0u8),
    {
        self.scan_mode & 0x40u8 == 0u8
    }
}

/// The radar site of section 4 (template 4.51022).
#[derive(Clone, Debug)]
pub struct RadarSite {
    pub id: String,
    pub number: u16,
    pub lat_microdeg: i32,
    pub lon_microdeg: u32,
    pub altitude_decim: Option<i16>,
    pub magnetic_declination_centideg: Option<i16>,
    pub tx_frequency_khz: Option<u32>,
    pub polarization: u8,
    pub operation_mode: u8,
    pub quality_control: u8,
    pub clutter_filter: u8,
}

/// A radar site as plain values.
pub struct SiteModel {
    pub id: Seq<char>,
    pub number: u16,
    pub lat_microdeg: i32,
    pub lon_microdeg: u32,
    pub altitude_decim: Option<i16>,
    pub magnetic_declination_centideg: Option<i16>,
    pub tx_frequency_khz: Option<u32>,
    pub polarization: u8,
    pub operation_mode: u8,
    pub quality_control: u8,
    pub clutter_filter: u8,
}

impl View for RadarSite {
    type V = SiteModel;

    open spec fn view(&self) -> SiteModel {
        SiteModel {
            id: self.id@,
            number: self.number,
            lat_microdeg: self.lat_microdeg,
            lon_microdeg: self.lon_microdeg,
            altitude_decim: self.altitude_decim,
            magnetic_declination_centideg: self.magnetic_declination_centideg,
            tx_frequency_khz: self.tx_frequency_khz,
            polarization: self.polarization,
            operation_mode: self.operation_mode,
            quality_control: self.quality_control,
            clutter_filter: self.clutter_filter,
        }
    }
}

/// The meteorological product of a sweep.
#[derive(Clone, Copy, Debug, PartialEq, Eq, Structural)]
pub enum Product {
    Reflectivity,
    Velocity,
    Unknown { category: u8, number: u8 },
}

/// The product of JMA parameter category and number.
pub open spec fn jma_product(category: u8, number: u8) -> Product {
    if category == 15 && number == 1 {
        Product::Reflectivity
    } else if category == 15 && number == 2 {
        Product::Velocity
    } else {
        Product::Unknown { category, number }
    }
}

/// The NEXRAD-style name of a product.
pub open spec fn short_name_of(p: Product) -> Seq<char> {
    match p {
        Product::Reflectivity => "REF"@,
        Product::Velocity => "VEL"@,
        Product::Unknown { .. } => "UNK"@,
    }
}

/// The units of a product's values.
pub open spec fn units_of(p: Product) -> Seq<char> {
    match p {
        Product::Reflectivity => "dBZ"@,
        Product::Velocity => "m/s"@,
        Product::Unknown { .. } => ""@,
    }
}

impl Product {
    /// The product of JMA parameter category and number: `(15, 1)` is
    /// reflectivity, `(15, 2)` Doppler velocity.
    pub fn from_jma(category: u8, number: u8) -> (p: Product)
        ensures
            p == jma_product(category, number),
    {
        if category == 15 && number == 1 {
            Product::Reflectivity
        } else if category == 15 && number == 2 {
            Product::Velocity
        } else {
            Product::Unknown { category, number }
        }
    }

    /// `REF`, `VEL` or `UNK`.
    pub fn short_name(&self) -> (s: &'static str)
        ensures
            s@ == short_name_of(*self),
    {
        match self {
            Product::Reflectivity => "REF",
            Product::Velocity => "VEL",
            Product::Unknown { .. } => "UNK",
        }
    }

    /// `dBZ`, `m/s`, or empty for an unknown product.
    pub fn units(&self) -> (s: &'static str)
        ensures
            s@ == units_of(*self),
    {
        match self {
            Product::Reflectivity => "dBZ",
            Product::Velocity => "m/s",
            Product::Unknown { .. } => "",
        }
    }
}

/// One sweep: a product on one grid at one elevation.
#[derive(Clone, Debug)]
pub struct Sweep {
    pub product: Product,
    pub grid: GridDefinition,
    pub site: RadarSite,
    pub elevation_angle_centideg: Option<i16>,
    pub observation_start_offset_sec: Option<i16>,
    pub observation_end_offset_sec: Option<i16>,
    pub representative_prfs_decihz: [Option<i16>; 3],
    pub ray_elevation_centideg: Vec<Option<i16>>,
    pub ray_prf_decihz: Vec<Option<i16>>,
    /// Each value is in units of `10^-decimal_scale`.
    pub decimal_scale: u8,
    /// Gate values ray by ray; `None` is a missing value.
    pub values: Vec<Option<i16>>,
}

/// A sweep as plain values.
pub struct SweepModel {
    pub product: Product,
    pub grid: GridDefinition,
    pub site: SiteModel,
    pub elevation_angle_centideg: Option<i16>,
    pub observation_start_offset_sec: Option<i16>,
    pub observation_end_offset_sec: Option<i16>,
    pub representative_prfs_decihz: Seq<Option<i16>>,
    pub ray_elevation_centideg: Seq<Option<i16>>,
    pub ray_prf_decihz: Seq<Option<i16>>,
    pub decimal_scale: u8,
    pub values: Seq<Option<i16>>,
}

impl View for Sweep {
    type V = SweepModel;

    open spec fn view(&self) -> SweepModel {
        SweepModel {
            product: self.product,
            grid: self.grid,
            site: self.site@,
            elevation_angle_centideg: self.elevation_angle_centideg,
            observation_start_offset_sec: self.observation_start_offset_sec,
            observation_end_offset_sec: self.observation_end_offset_sec,
            representative_prfs_decihz: self.representative_prfs_decihz@,
            ray_elevation_centideg: self.ray_elevation_centideg@,
            ray_prf_decihz: self.ray_prf_decihz@,
            decimal_scale: self.decimal_scale,
            values: self.values@,
        }
    }
}

impl SweepModel {
    /// The per-ray and per-gate tables fit the grid.
    pub open spec fn wf(self) -> bool {
        &&& self.values.len() == self.grid.gate_count * self.grid.radial_count
        &&& self.ray_elevation_centideg.len() == self.grid.radial_count
        &&& self.ray_prf_decihz.len() == self.grid.radial_count
    }

    /// The value at `ray` and `gate`, `None` outside the grid.
    pub open spec fn value_at(self, ray: int, gate: int) -> Option<Option<i16>> {
        if 0 <= ray < self.grid.radial_count && 0 <= gate < self.grid.gate_count {
            Some(self.values[ray * self.grid.gate_count + gate])
        } else {
            None
        }
    }
}

/// The number of present (not missing) values.
pub open spec fn present_count(values: Seq<Option<i16>>) -> nat
    decreases values.len(),
{
    if values.len() == 0 {
        0
    } else {
        present_count(values.drop_last()) + if values.last() is Some { 1nat } else { 0nat }
    }
}

proof fn lemma_row_index(ray: int, gate: int, gates: int, rays: int)
    requires
        0 <= ray < rays,
        0 <= gate < gates,
    ensures
        0 <= ray * gates + gate < gates * rays,
{
    assert(ray * gates + gate < gates * rays) by (nonlinear_arith)
        requires 0 <= ray < rays, 0 <= gate < gates;
    assert(0 <= ray * gates) by (nonlinear_arith)
        requires 0 <= ray, 0 <= gates;
}

impl Sweep {
    /// The value at `ray` and `gate`: `None` outside the grid, else the
    /// value, itself `None` where missing.
    pub fn value(&self, ray: usize, gate: usize) -> (r: Option<Option<i16>>)
        requires
            self.values@.len() >= self.grid.gate_count * self.grid.radial_count,
        ensures
            r == self@.value_at(ray as int, gate as int),
    {
        if ray >= self.grid.radial_count || gate >= self.grid.gate_count {
            return None;
        }
        let len = self.values.len();
        proof {
            lemma_row_index(ray as int, gate as int, self.grid.gate_count as int, self.grid.radial_count as int);
        }
        let index: usize = ray * self.grid.gate_count + gate;
        Some(self.values[index])
    }

    /// The elevation of ray `ray`: its own where the message gives one, else
    /// that of the sweep.
    pub fn ray_elevation(&self, ray: usize) -> (r: Option<i16>)
        ensures
            r == (if ray < self.ray_elevation_centideg@.len() && self.ray_elevation_centideg@[ray as int] is Some {
                self.ray_elevation_centideg@[ray as int]
            } else {
                self.elevation_angle_centideg
            }),
    {
        if ray < self.ray_elevation_centideg.len() {
            if let Some(e) = self.ray_elevation_centideg[ray] {
                return Some(e);
            }
        }
        self.elevation_angle_centideg
    }

    /// The values of ray `ray`, gate by gate.
    pub fn ray_values(&self, ray: usize) -> (r: Vec<Option<i16>>)
        requires
            ray < self.grid.radial_count,
            self.values@.len() >= self.grid.gate_count * self.grid.radial_count,
        ensures
            r@ == self.values@.subrange(
                ray * self.grid.gate_count,
                ray * self.grid.gate_count + self.grid.gate_count,
            ),
    {
        let gates = self.grid.gate_count;
        let len = self.values.len();
        proof {
            assert(ray * gates + gates <= gates * self.grid.radial_count) by (nonlinear_arith)
                requires ray < self.grid.radial_count;
        }
        let start: usize = ray * gates;
        let mut out: Vec<Option<i16>> = Vec::new();
        let mut g: usize = 0;
        while g < gates
            invariant
                gates == self.grid.gate_count,
                start == ray * gates,
                start + gates <= self.values@.len(),
                len == self.values@.len(),
                g <= gates,
                out@ == self.values@.subrange(start as int, start + g),
            decreases gates - g,
        {
            out.push(self.values[start + g]);
            g = g + 1;
            assert(out@ =~= self.values@.subrange(start as int, start + g));
        }
        out
    }

    /// The number of values that are present.
    pub fn non_nan_count(&self) -> (n: usize)
        ensures
            n == present_count(self@.values),
    {
        let mut n: usize = 0;
        let mut i: usize = 0;
        while i < self.values.len()
            invariant
                i <= self.values@.len(),
                n == present_count(self.values@.take(i as int)),
                n <= i,
            decreases self.values@.len() - i,
        {
            assert(self.values@.take(i as int + 1).drop_last() =~= self.values@.take(i as int));
            if self.values[i].is_some() {
                n = n + 1;
            }
            i = i + 1;
        }
        assert(self.values@.take(i as int) =~= self.values@);
        n
    }
}

/// One decoded GRIB2 message.
#[derive(Clone, Debug)]
pub struct Volume {
    pub source_name: Option<String>,
    pub identification: Identification,
    pub sweeps: Vec<Sweep>,
}

/// A volume as plain values.
pub struct VolumeModel {
    pub source_name: Option<Seq<char>>,
    pub identification: Identification,
    pub sweeps: Seq<SweepModel>,
}

/// The plain value of an optional string.
pub open spec fn opt_text(s: Option<String>) -> Option<Seq<char>> {
    match s {
        Some(t) => Some(t@),
        None => None,
    }
}

impl View for Volume {
    type V = VolumeModel;

    open spec fn view(&self) -> VolumeModel {
        VolumeModel {
            source_name: opt_text(self.source_name),
            identification: self.identification,
            sweeps: Seq::new(self.sweeps@.len(), |i: int| self.sweeps@[i]@),
        }
    }
}

impl Volume {
    /// The site id of the first sweep.
    pub fn station_id(&self) -> (r: Option<&str>)
        ensures
            self.sweeps@.len() == 0 ==> r is None,
            self.sweeps@.len() > 0 ==> (r matches Some(s) && s@ == self.sweeps@[0].site.id@),
    {
        if self.sweeps.len() == 0 {
            None
        } else {
            Some(self.sweeps[0].site.id.as_str())
        }
    }

    /// The station id for export: that of the first sweep, else `JMA`.
    pub fn export_station_id(&self) -> (r: String)
        ensures
            r@ == (if self.sweeps@.len() == 0 { "JMA"@ } else { self.sweeps@[0].site.id@ }),
    {
        match self.station_id() {
            Some(s) => s.to_string(),
            None => crate::error::text("JMA"),
        }
    }

    /// The site number of the first sweep.
    pub fn station_number(&self) -> (r: Option<u16>)
        ensures
            r == (if self.sweeps@.len() == 0 { None } else { Some(self.sweeps@[0].site.number) }),
    {
        if self.sweeps.len() == 0 {
            None
        } else {
            Some(self.sweeps[0].site.number)
        }
    }
}

} // verus!
