use jma_radar_bridge::bridge::{
    decode_input_bytes, dir_list, html_text, interesting_count, output_file_name, proof_file_name, publish_bytes,
    publish_volumes, render_candidates, root_index, sanitize, sanitize_component, site_id_for, site_id_from,
    station_index, BridgeError, BridgeOptions,
};
use jma_radar_bridge::error::DecodeError;
use jma_radar_bridge::model::{DateTimeParts, GridDefinition, Identification, Product, RadarSite, Sweep, Volume};
use jma_radar_bridge::render::{ColorPalette, RenderOptions};

fn grid(gates: usize, radials: usize) -> GridDefinition {
    GridDefinition {
        gate_count: gates,
        radial_count: radials,
        center_lat_microdeg: 35_000_000,
        center_lon_microdeg: 139_000_000,
        gate_spacing_mm: 250_000,
        range_start_mm: 0,
        scan_mode: 0,
        start_azimuth_centideg: 0,
    }
}

fn site(id: &str) -> RadarSite {
    RadarSite {
        id: id.to_string(),
        number: 1,
        lat_microdeg: 35_000_000,
        lon_microdeg: 139_000_000,
        altitude_decim: Some(100),
        magnetic_declination_centideg: None,
        tx_frequency_khz: None,
        polarization: 0,
        operation_mode: 0,
        quality_control: 0,
        clutter_filter: 0,
    }
}

fn sweep(id: &str, product: Product, scale: u8, values: Vec<Option<i16>>, elevation: Option<i16>) -> Sweep {
    Sweep {
        product,
        grid: grid(values.len(), 1),
        site: site(id),
        elevation_angle_centideg: elevation,
        observation_start_offset_sec: None,
        observation_end_offset_sec: None,
        representative_prfs_decihz: [None, None, None],
        ray_elevation_centideg: vec![None],
        ray_prf_decihz: vec![None],
        decimal_scale: scale,
        values,
    }
}

fn ident() -> Identification {
    Identification {
        center_id: 34,
        subcenter_id: 0,
        master_table_version: 2,
        local_table_version: 1,
        reference_time_significance: 1,
        reference_time: DateTimeParts { year: 2024, month: 1, day: 2, hour: 3, minute: 4, second: 5 },
        production_status: 0,
        data_type: 1,
    }
}

fn volume(name: Option<&str>, sweeps: Vec<Sweep>) -> Volume {
    Volume { source_name: name.map(|s| s.to_string()), identification: ident(), sweeps }
}

fn options(max: usize) -> BridgeOptions {
    BridgeOptions { raw_root: "out".to_string(), site_override: None, render_size_px: 900, max_images: max }
}

#[test]
fn counts_interesting_values() {
    let r = sweep("A", Product::Reflectivity, 1, vec![Some(50), Some(49), None, Some(-60), Some(120)], None);
    assert_eq!(interesting_count(&r), 2);
    let v = sweep("A", Product::Velocity, 1, vec![Some(5), Some(-5), Some(4), Some(-4), None], None);
    assert_eq!(interesting_count(&v), 2);
    let u = sweep("A", Product::Unknown { category: 1, number: 2 }, 0, vec![Some(0), None], None);
    assert_eq!(interesting_count(&u), 1);
    let big = sweep("A", Product::Reflectivity, 5, vec![Some(32767)], None);
    assert_eq!(interesting_count(&big), 0);
    let whole = sweep("A", Product::Reflectivity, 0, vec![Some(5), Some(4)], None);
    assert_eq!(interesting_count(&whole), 1);
}

#[test]
fn sanitizes_components() {
    assert_eq!(sanitize("RJTD-1 x"), "RJTD_1_x");
    assert_eq!(sanitize(""), "");
    assert_eq!(sanitize_component(""), "jma");
    assert_eq!(sanitize_component("é"), "_");
    assert_eq!(sanitize(&sanitize("a.b/c")), sanitize("a.b/c"));
}

#[test]
fn escapes_html() {
    assert_eq!(html_text("a<b>&\"c'"), "a&lt;b&gt;&amp;&quot;c'");
    assert_eq!(html_text("&amp;"), "&amp;amp;");
    let e = html_text("<<\">>");
    assert!(!e.contains('<') && !e.contains('>') && !e.contains('"'));
}

#[test]
fn chooses_the_site_id() {
    let vols = vec![volume(None, vec![]), volume(None, vec![sweep("rj-td5x", Product::Velocity, 0, vec![], None)])];
    assert_eq!(site_id_for(&vols, None), "RJTD");
    assert_eq!(site_id_for(&vols, Some("ab")), "AB");
    assert_eq!(site_id_for(&vols, Some("--")), "JMA1");
    assert_eq!(site_id_for(&[].to_vec(), None), "JMA1");
    assert_eq!(site_id_from("x1y2z3"), "X1Y2");
    for raw in ["", "a", "é!é", "abcdefgh", "12-34-56"] {
        let id = site_id_from(raw);
        assert!((1..=4).contains(&id.len()));
        assert!(id.chars().all(|c| c.is_ascii_digit() || c.is_ascii_uppercase()));
    }
}

#[test]
fn lists_the_directory() {
    assert_eq!(dir_list(&vec![]), "latest.json\n");
    assert_eq!(dir_list(&vec!["a.png".to_string(), "b.png".to_string()]), "a.png\nb.png\nlatest.json\n");
}

#[test]
fn writes_the_index_pages() {
    assert_eq!(
        root_index("RJTD", 3),
        "<!doctype html><title>JMA Radar Bridge</title><h1>JMA Radar Bridge</h1><p>Polling root is alive.</p><ul><li><a href=\"grlevel2.cfg\">grlevel2.cfg</a></li><li><a href=\"customradars.gis\">customradars.gis</a></li><li><a href=\"RJTD/\">RJTD</a></li></ul><p>3 sweeps available as proof products.</p>"
    );
    assert_eq!(
        station_index("RJTD", 1, 2, &vec!["a&b.png".to_string()]),
        "<!doctype html><title>RJTD JMA Radar Bridge</title><h1>RJTD</h1><p>1 volumes, 2 sweeps.</p><ul><li><a href=\"latest.json\">latest.json</a></li><li><a href=\"README.txt\">README.txt</a></li><li><a href=\"a&amp;b.png\">a&amp;b.png</a></li></ul>"
    );
}

#[test]
fn names_proof_files() {
    let v = volume(Some("/data/Z__C_RJTD_2024.bin"), vec![]);
    let s = sweep("RJTD", Product::Reflectivity, 1, vec![], Some(-5));
    assert_eq!(proof_file_name(&v, 3, &s), "Z__C_RJTD_2024_RJTD_REF_sweep03_elev-0.05.png");
    let s2 = sweep("", Product::Velocity, 1, vec![], Some(1234));
    let nameless = volume(None, vec![]);
    assert_eq!(proof_file_name(&nameless, 12, &s2), "jma_jma_VEL_sweep12_elev12.34.png");
    assert_eq!(output_file_name(&nameless, 12, &s2), "jma__VEL_sweep12_elev12.34.png");
    let s3 = sweep("A B", Product::Unknown { category: 0, number: 0 }, 1, vec![], None);
    assert_eq!(output_file_name(&v, 0, &s3), "Z__C_RJTD_2024_A_B_UNK_sweep00_elev0.00.png");
}

#[test]
fn elevations_match_two_decimal_formatting() {
    let v = volume(None, vec![]);
    for c in [-32767i16, -1234, -100, -5, -1, 0, 1, 9, 10, 99, 100, 101, 32767] {
        let s = sweep("A", Product::Reflectivity, 0, vec![], Some(c));
        let expected = format!("jma_A_REF_sweep00_elev{:.2}.png", c as f32 / 100.0);
        assert_eq!(proof_file_name(&v, 0, &s), expected);
    }
}

#[test]
fn picks_the_best_sweeps_in_stable_order() {
    let vols = vec![
        volume(None, vec![
            sweep("A", Product::Reflectivity, 0, vec![Some(10), Some(10)], None),
            sweep("A", Product::Reflectivity, 0, vec![Some(1)], None),
            sweep("A", Product::Reflectivity, 0, vec![Some(10)], None),
        ]),
        volume(None, vec![sweep("A", Product::Velocity, 0, vec![Some(3), Some(3), Some(-3)], None)]),
    ];
    let all: Vec<(usize, usize, usize)> =
        render_candidates(&vols, 10).iter().map(|c| (c.volume_index, c.sweep_index, c.score)).collect();
    assert_eq!(all, vec![(1, 0, 3), (0, 0, 2), (0, 2, 1)]);
    let two: Vec<(usize, usize)> = render_candidates(&vols, 2).iter().map(|c| (c.volume_index, c.sweep_index)).collect();
    assert_eq!(two, vec![(1, 0), (0, 0)]);
    assert!(render_candidates(&vols, 0).is_empty());
}

#[test]
fn plans_a_publish() {
    let vols = vec![
        volume(Some("x.bin"), vec![sweep("RJTD", Product::Velocity, 0, vec![Some(3)], Some(50))]),
        volume(Some("y.bin"), vec![sweep("RJTD", Product::Reflectivity, 0, vec![Some(1)], Some(50))]),
    ];
    let plan = publish_volumes(&vols, &options(8)).unwrap();
    assert_eq!(plan.site_id, "RJTD");
    assert_eq!(plan.site_volume, Some(0));
    assert_eq!(plan.volume_count, 2);
    assert_eq!(plan.sweep_count, 2);
    assert_eq!(plan.config_text, "Site: RJTD\n");
    assert!(plan.readme_text.starts_with("This folder is served in a GRLevel2/GR2Analyst-style polling layout.\nPNG"));
    assert_eq!(plan.jobs.len(), 1);
    assert_eq!(plan.jobs[0].file_name, "x_RJTD_VEL_sweep00_elev0.50.png");
    assert_eq!(plan.jobs[0].palette, ColorPalette::Velocity);
    assert_eq!(plan.proof_files, vec!["x_RJTD_VEL_sweep00_elev0.50.png".to_string()]);
    assert_eq!(plan.dir_list, "x_RJTD_VEL_sweep00_elev0.50.png\nlatest.json\n");
    assert!(plan.root_index.ends_with("<p>2 sweeps available as proof products.</p>"));
    assert!(plan.station_index.contains("<p>2 volumes, 2 sweeps.</p>"));
    assert_eq!(plan.notes.len(), 2);
    assert_eq!(plan.raw_root, "out");
    assert_eq!(plan.station_dir, std::path::Path::new("out").join("RJTD").display().to_string());
    let report = plan.report();
    assert_eq!(report.site_id, "RJTD");
    assert_eq!(report.raw_root, "out");
    assert_eq!(report.station_dir, plan.station_dir);
    assert_eq!(report.sweep_count, 2);
    assert!(matches!(publish_volumes(&vec![], &options(8)), Err(BridgeError::Empty)));
    let mut o = options(8);
    o.site_override = Some("zz9".to_string());
    assert_eq!(publish_volumes(&vols, &o).unwrap().site_id, "ZZ9");
}

#[test]
fn decodes_inputs_by_name() {
    assert!(matches!(decode_input_bytes(b"junk", Some("radar.bin")), Err(DecodeError::Invalid(_))));
    assert!(matches!(decode_input_bytes(b"junk", Some("radar.TAR")), Err(DecodeError::Tar(_))));
    assert!(matches!(decode_input_bytes(&[], Some("dir/radar.Tar")), Ok(v) if v.is_empty()));
    assert!(matches!(decode_input_bytes(&[], Some("tar")), Err(DecodeError::Invalid(_))));
    assert!(matches!(decode_input_bytes(&[], None), Err(DecodeError::Invalid(_))));
    assert!(matches!(publish_bytes(&[], Some("a.tar"), &options(1)), Err(BridgeError::Empty)));
    assert!(matches!(publish_bytes(&[], Some("a.bin"), &options(1)), Err(BridgeError::Decode(DecodeError::Invalid(_)))));
}

#[test]
fn default_render_options() {
    let o = RenderOptions::default();
    assert_eq!(o.size_px, 1200);
    assert_eq!(o.palette, ColorPalette::Auto);
    assert!(!o.transparent_background);
    assert_eq!(ColorPalette::Auto.resolve(&Product::Velocity), ColorPalette::Velocity);
    assert_eq!(ColorPalette::Auto.resolve(&Product::Reflectivity), ColorPalette::Reflectivity);
    assert_eq!(ColorPalette::Velocity.resolve(&Product::Reflectivity), ColorPalette::Velocity);
}

#[test]
fn products_and_names() {
    assert_eq!(Product::from_jma(15, 1), Product::Reflectivity);
    assert_eq!(Product::from_jma(15, 2), Product::Velocity);
    assert_eq!(Product::from_jma(15, 3), Product::Unknown { category: 15, number: 3 });
    assert_eq!(Product::from_jma(15, 1).short_name(), "REF");
    assert_eq!(Product::Velocity.short_name(), "VEL");
    assert_eq!(Product::Unknown { category: 0, number: 0 }.short_name(), "UNK");
    assert_eq!(Product::Reflectivity.units(), "dBZ");
    assert_eq!(Product::Velocity.units(), "m/s");
    assert_eq!(Product::Unknown { category: 0, number: 0 }.units(), "");
}

#[test]
fn formats_times() {
    let t = DateTimeParts { year: 987, month: 12, day: 31, hour: 0, minute: 5, second: 9 };
    assert_eq!(t.compact_utc(), "09871231000509");
    assert_eq!(t.iso_utc(), "0987-12-31T00:05:09Z");
    let t = DateTimeParts { year: 12345, month: 1, day: 1, hour: 1, minute: 1, second: 1 };
    assert_eq!(t.compact_utc(), "123450101010101");
}

#[test]
fn compact_time_is_iso_without_separators() {
    for t in [
        DateTimeParts { year: 2024, month: 7, day: 9, hour: 12, minute: 30, second: 5 },
        DateTimeParts { year: 5, month: 12, day: 31, hour: 23, minute: 59, second: 59 },
        DateTimeParts { year: 9999, month: 1, day: 1, hour: 0, minute: 0, second: 0 },
    ] {
        let stripped: String = t.iso_utc().chars().filter(|c| !['-', 'T', ':', 'Z'].contains(c)).collect();
        assert_eq!(t.compact_utc(), stripped);
        assert_eq!(t.compact_utc().len(), 14);
    }
}

#[test]
fn looks_up_values_without_per_ray_tables() {
    let mut s = sweep("A", Product::Reflectivity, 0, vec![Some(1), None, Some(3), Some(4)], None);
    s.grid = grid(2, 2);
    s.ray_elevation_centideg = vec![];
    s.ray_prf_decihz = vec![];
    assert_eq!(s.value(0, 0), Some(Some(1)));
    assert_eq!(s.value(0, 1), Some(None));
    assert_eq!(s.value(1, 1), Some(Some(4)));
    assert_eq!(s.value(2, 0), None);
    assert_eq!(s.value(0, 2), None);
}

#[test]
fn exports_rays_and_station() {
    let mut s = sweep("RJTD", Product::Reflectivity, 0, vec![Some(1), None, Some(3), Some(4), Some(5), Some(6)], Some(50));
    s.grid = grid(3, 2);
    s.ray_elevation_centideg = vec![Some(70), None];
    assert_eq!(s.ray_values(0), vec![Some(1), None, Some(3)]);
    assert_eq!(s.ray_values(1), vec![Some(4), Some(5), Some(6)]);
    assert_eq!(s.ray_elevation(0), Some(70));
    assert_eq!(s.ray_elevation(1), Some(50));
    assert_eq!(s.ray_elevation(2), Some(50));
    assert_eq!(volume(None, vec![s]).export_station_id(), "RJTD");
    assert_eq!(volume(None, vec![]).export_station_id(), "JMA");
}

#[test]
fn scan_direction() {
    let mut g = grid(1, 1);
    assert!(g.scans_clockwise());
    g.scan_mode = 0b0100_0000;
    assert!(!g.scans_clockwise());
    g.scan_mode = 0b1011_1111;
    assert!(g.scans_clockwise());
}
