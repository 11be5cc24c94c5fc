use jma_radar_bridge::live::{
    content_type, is_input_extension, latest_index, live_source, product_name, request_path, site_from_config,
    trim_trailing_slashes, LiveSource, NictSet,
};
use jma_radar_bridge::model::Product;
use jma_radar_bridge::nict::{
    candidate_urls, download_latest, finish_downloads, lookback_fits_at, next_fetch, nict_url, not_found, FetchAction, NictDownload,
    NictError, NictProduct,
};

#[test]
fn product_codes() {
    assert_eq!(NictProduct::N5.code(), "N5");
    assert_eq!(NictProduct::N6.code(), "N6");
    assert_eq!(NictSet::N5.products(), vec![NictProduct::N5]);
    assert_eq!(NictSet::N6.products(), vec![NictProduct::N6]);
    assert_eq!(NictSet::Both.products(), vec![NictProduct::N5, NictProduct::N6]);
}

#[test]
fn builds_archive_urls() {
    assert_eq!(
        nict_url(NictProduct::N6, (2024, 3, 7, 9, 5)),
        "https://pawr.nict.go.jp/jmadata/JMA-PolarCoordsRadar/2024/03/07/Z__C_RJTD_20240307090500_RDR_JMAGPV_N6_grib2.tar"
    );
}

#[test]
fn lists_five_minute_candidates_newest_first() {
    // 2019-01-01 00:07:30 UTC.
    let now = 1_546_300_800 + 450;
    let urls = candidate_urls(NictProduct::N5, 10, now);
    assert_eq!(urls.len(), 3);
    assert!(urls[0].ends_with("/2019/01/01/Z__C_RJTD_20190101000500_RDR_JMAGPV_N5_grib2.tar"));
    assert!(urls[1].ends_with("/2019/01/01/Z__C_RJTD_20190101000000_RDR_JMAGPV_N5_grib2.tar"));
    assert!(urls[2].ends_with("/2018/12/31/Z__C_RJTD_20181231235500_RDR_JMAGPV_N5_grib2.tar"));
    assert_eq!(candidate_urls(NictProduct::N5, -3, now).len(), 1);
    assert_eq!(candidate_urls(NictProduct::N5, 0, now), vec![urls[0].clone()]);
    let mut seen = std::collections::HashSet::new();
    for u in candidate_urls(NictProduct::N6, 180, now) {
        assert!(seen.insert(u));
    }
    assert_eq!(seen.len(), 37);
}

#[test]
fn names_downloads_by_the_last_segment() {
    let d = NictDownload::from_fetch("https://x/y/z.tar".to_string(), vec![1, 2]);
    assert_eq!(d.file_name, "z.tar");
    assert_eq!(d.bytes, vec![1, 2]);
    assert_eq!(NictDownload::from_fetch("noslash".to_string(), vec![]).file_name, "noslash");
    assert_eq!(NictDownload::from_fetch("a/".to_string(), vec![]).file_name, "");
}

#[test]
fn finishes_downloads() {
    let d = NictDownload::from_fetch("a/b.tar".to_string(), vec![]);
    assert_eq!(finish_downloads(vec![d], None, 5).unwrap().len(), 1);
    let e = not_found(NictProduct::N5, 7);
    assert!(matches!(&e, NictError::NotFound { product, lookback_minutes: 7 } if product == "N5"));
    assert!(matches!(finish_downloads(vec![], Some(e), 9), Err(NictError::NotFound { lookback_minutes: 7, .. })));
    assert!(matches!(
        finish_downloads(vec![], None, 9),
        Err(NictError::NotFound { product, lookback_minutes: 9 }) if product == "none"
    ));
}

#[test]
fn checks_the_lookback_arithmetic() {
    assert!(lookback_fits_at(180, 1_700_000_000));
    assert!(lookback_fits_at(-5, i64::MIN + 300));
    assert!(!lookback_fits_at(-5, i64::MIN + 299));
    assert!(!lookback_fits_at(i64::MAX, 0));
    assert!(!lookback_fits_at(i64::MAX / 60 + 1, 0));
    assert!(lookback_fits_at(i64::MAX / 60, i64::MAX));
}

#[test]
fn crosses_a_leap_day() {
    // 2000-02-29 00:02:00 UTC.
    let urls = candidate_urls(NictProduct::N6, 5, 951_782_400 + 120);
    assert_eq!(urls.len(), 2);
    assert!(urls[0].ends_with("/2000/02/29/Z__C_RJTD_20000229000000_RDR_JMAGPV_N6_grib2.tar"));
    assert!(urls[1].ends_with("/2000/02/28/Z__C_RJTD_20000228235500_RDR_JMAGPV_N6_grib2.tar"));
}

fn is_not_found(a: &FetchAction, code: &str, minutes: i64) -> bool {
    matches!(a, FetchAction::Finish(Err(NictError::NotFound { product, lookback_minutes })) if product == code && *lookback_minutes == minutes)
}

#[test]
fn steps_through_candidate_urls() {
    let urls = vec!["https://x/a.tar".to_string(), "https://x/b.tar".to_string()];
    assert!(matches!(next_fetch(NictProduct::N5, 10, &urls, None, None), FetchAction::Fetch(0)));
    assert!(matches!(next_fetch(NictProduct::N5, 10, &urls, Some(0), None), FetchAction::Fetch(1)));
    assert!(is_not_found(&next_fetch(NictProduct::N5, 10, &urls, Some(1), None), "N5", 10));
    match next_fetch(NictProduct::N5, 10, &urls, Some(1), Some(vec![7, 8])) {
        FetchAction::Finish(Ok(d)) => {
            assert_eq!(d.url, "https://x/b.tar");
            assert_eq!(d.file_name, "b.tar");
            assert_eq!(d.bytes, vec![7, 8]);
        }
        other => panic!("expected a download, got {other:?}"),
    }
    assert!(is_not_found(&next_fetch(NictProduct::N6, 3, &vec![], None, None), "N6", 3));
}

#[test]
fn combines_product_outcomes() {
    let d1 = NictDownload::from_fetch("a/one.tar".to_string(), vec![1]);
    let d2 = NictDownload::from_fetch("a/two.tar".to_string(), vec![2]);
    let got = download_latest(vec![Ok(d1), Err(not_found(NictProduct::N5, 4)), Ok(d2)], 4).unwrap();
    let names: Vec<&str> = got.iter().map(|d| d.file_name.as_str()).collect();
    assert_eq!(names, vec!["one.tar", "two.tar"]);
    let err = download_latest(vec![Err(not_found(NictProduct::N5, 4)), Err(not_found(NictProduct::N6, 4))], 4);
    assert!(matches!(err, Err(NictError::NotFound { product, .. }) if product == "N6"));
    assert!(matches!(download_latest(vec![], 8), Err(NictError::NotFound { product, lookback_minutes: 8 }) if product == "none"));
}

#[test]
fn routes_requests() {
    assert_eq!(request_path("/").unwrap(), "level2/raw/index.html");
    assert_eq!(request_path("/level2/raw").unwrap(), "level2/raw/index.html");
    assert_eq!(request_path("/level2/raw/?x=1").unwrap(), "level2/raw/index.html");
    assert_eq!(request_path("/customradars.gis").unwrap(), "level2/raw/customradars.gis");
    assert_eq!(request_path("//level2/raw/RJTD/latest.json?t=1").unwrap(), "level2/raw/RJTD/latest.json");
    assert_eq!(request_path("").unwrap(), "");
    assert_eq!(request_path("/a/../b").unwrap_err(), "invalid path");
    assert_eq!(request_path("/..").unwrap_err(), "invalid path");
    assert_eq!(request_path("/a/..b/c").unwrap(), "a/..b/c");
    assert_eq!(request_path("/c:/x").unwrap_err(), "invalid path");
    assert_eq!(request_path("/a\\b").unwrap_err(), "invalid path");
}

#[test]
fn content_types() {
    assert_eq!(content_type("gis"), "text/plain; charset=utf-8");
    assert_eq!(content_type("list"), "text/plain; charset=utf-8");
    assert_eq!(content_type("html"), "text/html; charset=utf-8");
    assert_eq!(content_type("json"), "application/json");
    assert_eq!(content_type("png"), "image/png");
    assert_eq!(content_type(""), "application/octet-stream");
    assert_eq!(content_type("PNG"), "application/octet-stream");
}

#[test]
fn reads_the_site_of_a_config() {
    assert_eq!(site_from_config("Site: RJTD\n"), "RJTD");
    assert_eq!(site_from_config("x\r\nSite:  AB \r\nSite: CD\n"), "AB");
    assert_eq!(site_from_config("Site:   \nSite: CD\n"), "JMA1");
    assert_eq!(site_from_config("nothing"), "JMA1");
    assert_eq!(site_from_config(""), "JMA1");
    assert_eq!(site_from_config(" Site: X"), "JMA1");
}

#[test]
fn trims_polling_roots() {
    assert_eq!(trim_trailing_slashes("http://h/level2/raw//"), "http://h/level2/raw");
    assert_eq!(trim_trailing_slashes("///"), "");
}

#[test]
fn chooses_the_live_source() {
    assert!(matches!(live_source(Some("a".into()), Some("b".into()), None, NictSet::Both, 3), LiveSource::Input(p) if p == "a"));
    assert!(matches!(live_source(None, Some("b".into()), Some("u".into()), NictSet::Both, 3), LiveSource::WatchDir(p) if p == "b"));
    assert!(matches!(live_source(None, None, Some("u".into()), NictSet::Both, 3), LiveSource::Url(u) if u == "u"));
    assert!(matches!(
        live_source(None, None, None, NictSet::N6, 3),
        LiveSource::NictLatest { products: NictSet::N6, lookback_minutes: 3 }
    ));
}

#[test]
fn recognises_inputs_and_the_latest() {
    assert!(is_input_extension("TAR") && is_input_extension("bin") && is_input_extension("Grib2"));
    assert!(!is_input_extension("grib") && !is_input_extension(""));
    assert_eq!(latest_index(&vec![]), None);
    assert_eq!(latest_index(&vec![3, 9, 1, 9, 2]), Some(3));
    assert_eq!(latest_index(&vec![-5]), Some(0));
    assert_eq!(product_name(&Product::Velocity), "VEL");
}
