//! Which NICT archive files to fetch for the latest JMA radar data.

use vstd::prelude::*;
use crate::text::{chars_of, padded, padded_signed, push_char, push_padded, push_padded_signed, push_str, string_from};

verus! {

/// The base URL of the NICT archive of JMA polar-coordinate radar files.
pub open spec fn base_url() -> Seq<char> {
    "https://pawr.nict.go.jp/jmadata/JMA-PolarCoordsRadar"@
}

/// A NICT product of JMA radar data.
#[derive(Clone, Copy, Debug, PartialEq, Eq, Structural)]
pub enum NictProduct {
    N5,
    N6,
}

/// The code of a product in NICT file names.
pub open spec fn product_code(p: NictProduct) -> Seq<char> {
    match p {
        NictProduct::N5 => "N5"@,
        NictProduct::N6 => "N6"@,
    }
}

impl NictProduct {
    /// `N5` or `N6`.
    pub fn code(self) -> (s: &'static str)
        ensures
            s@ == product_code(self),
    {
        match self {
            NictProduct::N5 => "N5",
            NictProduct::N6 => "N6",
        }
    }
}

/// A fetched archive file.
#[derive(Clone, Debug)]
pub struct NictDownload {
    pub url: String,
    pub file_name: String,
    pub bytes: Vec<u8>,
}

/// Why no archive file could be had.
#[derive(Clone, Debug)]
pub enum NictError {
    NotFound { product: String, lookback_minutes: i64 },
    Http { url: String, message: String },
    Io { url: String, message: String },
    Time(String),
}

/// Whether `y` is a leap year of the proleptic Gregorian calendar.
pub open spec fn is_leap_year(y: int) -> bool {
    y % 4 == 0 && (y % 100 != 0 || y % 400 == 0)
}

/// The number of days of month `m` of year `y`.
pub open spec fn days_in_month(y: int, m: int) -> int {
    if m == 2 {
        if is_leap_year(y) { 29 } else { 28 }
    } else if m == 4 || m == 6 || m == 9 || m == 11 {
        30
    } else {
        31
    }
}

/// The number of days of year `y` before month `m`.
pub open spec fn days_before_month(y: int, m: int) -> int
    decreases m,
{
    if m <= 1 { 0 } else { days_before_month(y, m - 1) + days_in_month(y, m - 1) }
}

/// The leap years up to `y`, counted from an arbitrary fixed origin: the
/// difference of two counts is the number of leap years between them.
pub open spec fn leap_years_through(y: int) -> int {
    y / 4 - y / 100 + y / 400
}

/// The day of a date, counted from 1970-01-01 (negative before it).
pub open spec fn days_from_epoch(y: int, m: int, d: int) -> int {
    365 * (y - 1970) + leap_years_through(y - 1) - leap_years_through(1969) + days_before_month(y, m) + d - 1
}

/// Whether `t`, as (year, month, day, hour, minute), is the UTC calendar
/// time of the instant `ts` seconds after the Unix epoch, in the proleptic
/// Gregorian calendar.
#[verifier::opaque]
pub open spec fn is_utc_calendar(ts: int, t: (i32, u8, u8, u8, u8)) -> bool {
    &&& 1 <= t.1 <= 12
    &&& 1 <= t.2 <= days_in_month(t.0 as int, t.1 as int)
    &&& days_from_epoch(t.0 as int, t.1 as int, t.2 as int) == ts / 86400
    &&& t.3 == (ts % 86400) / 3600
    &&& t.4 == (ts % 3600) / 60
}

/// The UTC calendar fields (year, month, day, hour, minute) of a Unix
/// timestamp, as the `time` crate computes them; `None` outside its range.
pub uninterp spec fn utc_calendar(ts: i64) -> Option<(i32, u8, u8, u8, u8)>;

/// The UTC calendar fields of a Unix timestamp.
///
/// Trusted: `time::OffsetDateTime::from_unix_timestamp`, then its `year`,
/// `month` (as its number), `day`, `hour` and `minute`. The result is named
/// `utc_calendar`. As documented, the date is that of the proleptic
/// Gregorian calendar in UTC, and every timestamp from -9999-01-01 to
/// 9999-12-31 is accepted; the range beyond (wider with the crate's
/// `large-dates` feature) is left to the name.
#[verifier::external_body]
fn utc_fields(ts: i64) -> (r: Option<(i32, u8, u8, u8, u8)>)
    ensures
        r == utc_calendar(ts),
        r matches Some(t) ==> is_utc_calendar(ts as int, t),
        -377705116800 <= ts <= 253402300799 ==> r is Some,
{
    match time::OffsetDateTime::from_unix_timestamp(ts) {
        Ok(dt) => Some((dt.year(), u8::from(dt.month()), dt.day(), dt.hour(), dt.minute())),
        Err(_) => None,
    }
}

/// The URL of the file of `product` at the given UTC time:
/// `{base}/yyyy/MM/dd/Z__C_RJTD_yyyyMMddhhmm00_RDR_JMAGPV_{code}_grib2.tar`.
pub open spec fn nict_url_text(product: NictProduct, t: (i32, u8, u8, u8, u8)) -> Seq<char> {
    let year = padded_signed(t.0 as int, 4);
    let month = padded(t.1 as nat, 2);
    let day = padded(t.2 as nat, 2);
    base_url() + seq!['/'] + year + seq!['/'] + month + seq!['/'] + day + "/Z__C_RJTD_"@ + year + month + day
        + padded(t.3 as nat, 2) + padded(t.4 as nat, 2) + "00_RDR_JMAGPV_"@ + product_code(product)
        + "_grib2.tar"@
}

/// The URL of the file of `product` at the given UTC calendar time.
pub fn nict_url(product: NictProduct, t: (i32, u8, u8, u8, u8)) -> (r: String)
    ensures
        r@ == nict_url_text(product, t),
{
    let mut s = String::new();
    push_str(&mut s, "https://pawr.nict.go.jp/jmadata/JMA-PolarCoordsRadar");
    push_char(&mut s, '/');
    push_padded_signed(&mut s, t.0 as i64, 4);
    push_char(&mut s, '/');
    push_padded(&mut s, t.1 as u64, 2);
    push_char(&mut s, '/');
    push_padded(&mut s, t.2 as u64, 2);
    push_str(&mut s, "/Z__C_RJTD_");
    push_padded_signed(&mut s, t.0 as i64, 4);
    push_padded(&mut s, t.1 as u64, 2);
    push_padded(&mut s, t.2 as u64, 2);
    push_padded(&mut s, t.3 as u64, 2);
    push_padded(&mut s, t.4 as u64, 2);
    push_str(&mut s, "00_RDR_JMAGPV_");
    push_str(&mut s, product.code());
    push_str(&mut s, "_grib2.tar");
    assert(s@ =~= nict_url_text(product, t));
    s
}

/// A timestamp rounded down to a multiple of five minutes.
pub open spec fn round_five_minutes(ts: int) -> int {
    ts - ts % 300
}

/// The distinct five-minute times of the first `k` minutes back from `now`,
/// newest first.
pub open spec fn candidate_times(now: int, k: nat) -> Seq<int>
    decreases k,
{
    if k == 0 {
        Seq::empty()
    } else {
        let earlier = candidate_times(now, (k - 1) as nat);
        let t = round_five_minutes(now - 60 * (k - 1));
        if earlier.contains(t) { earlier } else { earlier.push(t) }
    }
}

/// The URLs of the times that the calendar accepts.
pub open spec fn urls_of(product: NictProduct, times: Seq<int>) -> Seq<Seq<char>>
    decreases times.len(),
{
    if times.len() == 0 {
        Seq::empty()
    } else {
        urls_of(product, times.drop_last()) + match utc_calendar(times.last() as i64) {
            Some(t) => seq![nict_url_text(product, t)],
            None => Seq::empty(),
        }
    }
}

/// The URLs to try for the latest file of `product`: one per five-minute
/// time within `lookback_minutes` (at least zero) of `now`, newest first.
pub open spec fn candidate_url_texts(product: NictProduct, lookback_minutes: i64, now: i64) -> Seq<Seq<char>> {
    let lookback: nat = if lookback_minutes < 0 { 0 } else { lookback_minutes as nat };
    urls_of(product, candidate_times(now as int, lookback + 1))
}

/// Whether the arithmetic of `candidate_urls` stays within `i64`.
pub open spec fn lookback_fits(lookback_minutes: i64, now: i64) -> bool {
    let lookback: int = if lookback_minutes < 0 { 0 } else { lookback_minutes as int };
    &&& lookback * 60 <= i64::MAX
    &&& now - lookback * 60 - 300 >= i64::MIN
    &&& lookback < i64::MAX
}

/// Whether the arithmetic of `candidate_urls` stays within `i64` for this
/// lookback and time.
pub fn lookback_fits_at(lookback_minutes: i64, now: i64) -> (b: bool)
    ensures
        b == lookback_fits(lookback_minutes, now),
{
    let lookback: i64 = if lookback_minutes < 0 { 0 } else { lookback_minutes };
    if lookback == i64::MAX {
        return false;
    }
    match lookback.checked_mul(60) {
        None => false,
        Some(m) => match now.checked_sub(m) {
            None => false,
            Some(t) => t.checked_sub(300).is_some(),
        },
    }
}

/// The candidate times are five-minute marks, newest first, none twice.
pub proof fn candidate_times_are_distinct_marks(now: int, k: nat)
    ensures
        forall|i: int| 0 <= i < candidate_times(now, k).len() ==> #[trigger] candidate_times(now, k)[i] % 300 == 0,
        forall|i: int, j: int| 0 <= i < j < candidate_times(now, k).len()
            ==> #[trigger] candidate_times(now, k)[i] > #[trigger] candidate_times(now, k)[j],
        k > 0 ==> candidate_times(now, k).len() > 0
            && candidate_times(now, k).last() == round_five_minutes(now - 60 * (k - 1)),
    decreases k,
{
    if k > 0 {
        candidate_times_are_distinct_marks(now, (k - 1) as nat);
        let earlier = candidate_times(now, (k - 1) as nat);
        let t = round_five_minutes(now - 60 * (k - 1));
        if k > 1 {
            let prev = round_five_minutes(now - 60 * (k - 2));
            assert(t <= prev);
            if t == prev {
                assert(earlier.contains(t));
            } else {
                assert(!earlier.contains(t)) by {
                    if earlier.contains(t) {
                        let i = choose|i: int| 0 <= i < earlier.len() && earlier[i] == t;
                        if i < earlier.len() - 1 {
                            assert(earlier[i] > earlier[earlier.len() - 1]);
                        }
                    }
                }
            }
        }
    }
}

/// The URLs to try for the latest file of `product`, newest first.
pub fn candidate_urls(product: NictProduct, lookback_minutes: i64, now: i64) -> (r: Vec<String>)
    requires
        lookback_fits(lookback_minutes, now),
    ensures
        Seq::new(r@.len(), |i: int| r@[i]@) == candidate_url_texts(product, lookback_minutes, now),
{
    let lookback: i64 = if lookback_minutes < 0 { 0 } else { lookback_minutes };
    let mut urls: Vec<String> = Vec::new();
    let mut last: Option<i64> = None;
    let mut minute_offset: i64 = 0;
    let ghost mut times: Seq<int> = Seq::empty();
    while minute_offset <= lookback
        invariant
            0 <= lookback,
            lookback == (if lookback_minutes < 0 { 0 } else { lookback_minutes }),
            lookback_fits(lookback_minutes, now),
            0 <= minute_offset <= lookback + 1,
            times == candidate_times(now as int, minute_offset as nat),
            minute_offset == 0 <==> last is None,
            last matches Some(l) ==> l == round_five_minutes(now - 60 * (minute_offset - 1)),
            Seq::new(urls@.len(), |i: int| urls@[i]@) == urls_of(product, times),
        decreases lookback + 1 - minute_offset,
    {
        proof { candidate_times_are_distinct_marks(now as int, minute_offset as nat); }
        let ts: i64 = now - minute_offset * 60;
        let rounded: i64 = ts - ts % 300 - (if ts % 300 < 0 { 300 } else { 0 });
        assert(rounded == round_five_minutes(ts as int));
        let ghost k = minute_offset as nat;
        let seen = match last {
            Some(l) => l == rounded,
            None => false,
        };
        proof {
            let earlier = candidate_times(now as int, k);
            if k > 0 {
                assert(earlier.last() == last->0);
                let prev = round_five_minutes(now - 60 * (k - 1));
                assert(rounded <= prev);
                if !seen {
                    assert(!earlier.contains(rounded as int)) by {
                        if earlier.contains(rounded as int) {
                            let i = choose|i: int| 0 <= i < earlier.len() && earlier[i] == rounded;
                            if i < earlier.len() - 1 {
                                assert(earlier[i] > earlier[earlier.len() - 1]);
                            }
                        }
                    }
                } else {
                    assert(earlier[earlier.len() - 1] == rounded);
                }
            }
            assert(candidate_times(now as int, k + 1) == if earlier.contains(rounded as int) { earlier } else { earlier.push(rounded as int) });
        }
        if !seen {
            let ghost before = Seq::new(urls@.len(), |i: int| urls@[i]@);
            match utc_fields(rounded) {
                Some(t) => {
                    let url = nict_url(product, t);
                    urls.push(url);
                    assert(Seq::new(urls@.len(), |i: int| urls@[i]@) =~= before + seq![nict_url_text(product, t)]);
                },
                None => {
                    assert(Seq::new(urls@.len(), |i: int| urls@[i]@) =~= before + Seq::<Seq<char>>::empty());
                },
            }
            proof {
                let nt = times.push(rounded as int);
                assert(nt.drop_last() =~= times);
            }
            proof { times = times.push(rounded as int); }
        }
        last = Some(rounded);
        minute_offset = minute_offset + 1;
    }
    urls
}

/// A download of the file at `url`: the file name is the text after the
/// last `/`.
pub open spec fn url_file_name(url: Seq<char>) -> Seq<char>
    decreases url.len(),
{
    if url.len() == 0 {
        Seq::empty()
    } else if url.last() == '/' {
        Seq::empty()
    } else {
        url_file_name(url.drop_last()).push(url.last())
    }
}

impl NictDownload {
    /// The download of `bytes` from `url`, named by the last segment of the
    /// URL.
    pub fn from_fetch(url: String, bytes: Vec<u8>) -> (d: NictDownload)
        ensures
            d.url == url,
            d.file_name@ == url_file_name(url@),
            d.bytes == bytes,
    {
        let v = chars_of(url.as_str());
        let mut start: usize = v.len();
        assert(url@.take(v@.len() as int) =~= url@);
        assert(url@.subrange(v@.len() as int, url@.len() as int) =~= Seq::<char>::empty());
        assert(url_file_name(url@) + Seq::<char>::empty() =~= url_file_name(url@));
        while start > 0 && v[start - 1] != '/'
            invariant
                v@ == url@,
                start <= v@.len(),
                url_file_name(url@) == url_file_name(url@.take(start as int)) + url@.subrange(start as int, url@.len() as int),
            decreases start,
        {
            let ghost pre = url@.take(start as int);
            assert(pre.drop_last() =~= url@.take(start - 1));
            assert(url@.subrange(start - 1, url@.len() as int) =~= seq![pre.last()] + url@.subrange(start as int, url@.len() as int));
            start = start - 1;
        }
        assert(url@.take(v@.len() as int) =~= url@);
        let file_name = string_from(&v, start, v.len());
        proof {
            let pre = url@.take(start as int);
            assert(url_file_name(pre) =~= Seq::<char>::empty());
        }
        NictDownload { url, file_name, bytes }
    }
}

/// What fetching the latest files of several products gives: the files
/// fetched, else the last error, else "not found" for no product.
pub fn finish_downloads(downloads: Vec<NictDownload>, last_error: Option<NictError>, lookback_minutes: i64) -> (r: Result<Vec<NictDownload>, NictError>)
    ensures
        downloads@.len() > 0 ==> r == Ok::<Vec<NictDownload>, NictError>(downloads),
        downloads@.len() == 0 && last_error is Some ==> r == Err::<Vec<NictDownload>, NictError>(last_error->0),
        downloads@.len() == 0 && last_error is None ==> (r matches Err(NictError::NotFound { product, lookback_minutes: l })
            && product@ == "none"@ && l == lookback_minutes),
{
    if downloads.len() == 0 {
        return Err(match last_error {
            Some(e) => e,
            None => NictError::NotFound { product: crate::error::text("none"), lookback_minutes },
        });
    }
    Ok(downloads)
}

/// The error when no file of `product` could be fetched.
pub fn not_found(product: NictProduct, lookback_minutes: i64) -> (e: NictError)
    ensures
        e matches NictError::NotFound { product: p, lookback_minutes: l } && p@ == product_code(product)
            && l == lookback_minutes,
{
    NictError::NotFound { product: crate::error::text(product.code()), lookback_minutes }
}

/// What to do next while looking for the newest file of a product.
#[derive(Debug)]
pub enum FetchAction {
    /// Fetch the candidate URL at this index.
    Fetch(usize),
    /// Stop with this result.
    Finish(Result<NictDownload, NictError>),
}

/// Whether `e` says that no file of `product` was found.
pub open spec fn is_not_found(e: NictError, product: NictProduct, lookback_minutes: i64) -> bool {
    e matches NictError::NotFound { product: p, lookback_minutes: l } && p@ == product_code(product)
        && l == lookback_minutes
}

/// Whether `r` stops with "not found" for `product`.
pub open spec fn finishes_not_found(r: FetchAction, product: NictProduct, lookback_minutes: i64) -> bool {
    match r {
        FetchAction::Finish(Err(e)) => is_not_found(e, product, lookback_minutes),
        _ => false,
    }
}

/// Whether `r` stops with the download of `bytes` from `url`.
pub open spec fn finishes_with(r: FetchAction, url: Seq<char>, bytes: Vec<u8>) -> bool {
    match r {
        FetchAction::Finish(Ok(d)) => d.url@ == url && d.file_name@ == url_file_name(url) && d.bytes == bytes,
        _ => false,
    }
}

/// The next step of trying the candidate `urls` in order until one can be
/// fetched. `tried` is the index of the URL whose fetch gave `fetched`
/// (`None` for a failed fetch), or `None` before the first fetch.
pub fn next_fetch(
    product: NictProduct,
    lookback_minutes: i64,
    urls: &Vec<String>,
    tried: Option<usize>,
    fetched: Option<Vec<u8>>,
) -> (r: FetchAction)
    requires
        tried matches Some(i) ==> i < urls@.len(),
    ensures
        match tried {
            None => if urls@.len() > 0 {
                r == FetchAction::Fetch(0)
            } else {
                finishes_not_found(r, product, lookback_minutes)
            },
            Some(i) => match fetched {
                Some(b) => finishes_with(r, urls@[i as int]@, b),
                None => if i + 1 < urls@.len() {
                    r == FetchAction::Fetch((i + 1) as usize)
                } else {
                    finishes_not_found(r, product, lookback_minutes)
                },
            },
        },
{
    match tried {
        None => {
            if urls.len() > 0 {
                FetchAction::Fetch(0)
            } else {
                FetchAction::Finish(Err(not_found(product, lookback_minutes)))
            }
        },
        Some(i) => match fetched {
            Some(bytes) => {
                let url = urls[i].clone();
                FetchAction::Finish(Ok(NictDownload::from_fetch(url, bytes)))
            },
            None => {
                if i < urls.len() - 1 {
                    FetchAction::Fetch(i + 1)
                } else {
                    FetchAction::Finish(Err(not_found(product, lookback_minutes)))
                }
            },
        },
    }
}

/// The files fetched, in order, among the outcomes of fetching several
/// products.
pub open spec fn fetched_of(outcomes: Seq<Result<NictDownload, NictError>>) -> Seq<NictDownload>
    decreases outcomes.len(),
{
    if outcomes.len() == 0 {
        Seq::empty()
    } else {
        let rest = fetched_of(outcomes.drop_last());
        match outcomes.last() {
            Ok(d) => rest.push(d),
            Err(_) => rest,
        }
    }
}

/// The last error among the outcomes of fetching several products.
pub open spec fn last_error_of(outcomes: Seq<Result<NictDownload, NictError>>) -> Option<NictError>
    decreases outcomes.len(),
{
    if outcomes.len() == 0 {
        None
    } else {
        match outcomes.last() {
            Ok(_) => last_error_of(outcomes.drop_last()),
            Err(e) => Some(e),
        }
    }
}

/// What fetching the newest file of several products gives, from the outcome
/// for each product in turn: the files fetched, in order; else the last
/// error; else "not found" when there was no product.
pub fn download_latest(outcomes: Vec<Result<NictDownload, NictError>>, lookback_minutes: i64) -> (r: Result<
    Vec<NictDownload>,
    NictError,
>)
    ensures
        fetched_of(outcomes@).len() > 0 ==> (r matches Ok(v) && v@ == fetched_of(outcomes@)),
        fetched_of(outcomes@).len() == 0 && last_error_of(outcomes@) is Some ==> r == Err::<Vec<NictDownload>, NictError>(
            last_error_of(outcomes@)->0,
        ),
        fetched_of(outcomes@).len() == 0 && last_error_of(outcomes@) is None ==> (r matches Err(
            NictError::NotFound { product, lookback_minutes: l },
        ) && product@ == "none"@ && l == lookback_minutes),
{
    let n = outcomes.len();
    let ghost all = outcomes@;
    let mut rest = outcomes;
    let mut downloads: Vec<NictDownload> = Vec::new();
    let mut last_error: Option<NictError> = None;
    let mut i: usize = 0;
    while rest.len() > 0
        invariant
            rest@ == all.skip(i as int),
            i <= all.len(),
            all.len() == n,
            downloads@ == fetched_of(all.take(i as int)),
            last_error == last_error_of(all.take(i as int)),
        decreases rest@.len(),
    {
        let ghost before = all.take(i as int);
        assert(all.take(i + 1).drop_last() =~= before);
        assert(all.take(i + 1).last() == rest@[0]);
        let o = rest.remove(0);
        match o {
            Ok(d) => downloads.push(d),
            Err(e) => last_error = Some(e),
        }
        i = i + 1;
        assert(rest@ =~= all.skip(i as int));
    }
    assert(all.take(i as int) =~= all);
    finish_downloads(downloads, last_error, lookback_minutes)
}

/// A downloaded file's name holds no `/`.
pub proof fn file_name_has_no_slash(url: Seq<char>)
    ensures
        forall|i: int| 0 <= i < url_file_name(url).len() ==> #[trigger] url_file_name(url)[i] != '/',
    decreases url.len(),
{
    if url.len() > 0 && url.last() != '/' {
        file_name_has_no_slash(url.drop_last());
        let a = url_file_name(url.drop_last());
        assert forall|i: int| 0 <= i < a.push(url.last()).len() implies #[trigger] a.push(url.last())[i] != '/' by {
            if i < a.len() {
                assert(a.push(url.last())[i] == a[i]);
            }
        }
    }
}

} // verus!
