//! The bookkeeping of a GRLevel2/GR2Analyst-style polling directory: which
//! input decodes how, the served site id, which sweeps become proof images,
//! and the text of the served files.

use vstd::prelude::*;
use crate::error::{DecodeError, DecodeFault};
use crate::model::{opt_text, short_name_of, Product, Sweep, SweepModel, Volume, VolumeModel};
use crate::nict::NictDownload;
use crate::render::{palette_for, ColorPalette};
use crate::parser::{decode_grib2, decode_tar, spec_decode_grib2, spec_decode_tar, volume_models};
use crate::text::{
    ascii_alnum, ascii_ci_eq, ascii_upper, chars_of, decimal, eq_ignore_ascii_case, is_ascii_alnum, padded, pow10,
    push_char, push_decimal, push_padded, push_str, to_ascii_upper,
};

verus! {

/// What `std::path::Path::extension` makes of a path, as text.
pub uninterp spec fn path_extension_of(path: Seq<char>) -> Option<Seq<char>>;

/// What `std::path::Path::file_stem` makes of a path, as text.
pub uninterp spec fn path_stem_of(path: Seq<char>) -> Option<Seq<char>>;

/// The extension of the file name of a path.
///
/// Trusted: `std::path::Path::extension`, converted to text with
/// `OsStr::to_str` (always valid here, as the path is text). Its result is
/// named `path_extension_of`; the rules of the documentation (the part of the
/// file name after its last `.`, none for a name without an inner `.`) are
/// left to the name.
#[verifier::external_body]
pub(crate) fn path_extension(path: &str) -> (r: Option<String>)
    ensures
        opt_text(r) == path_extension_of(path@),
{
    std::path::Path::new(path).extension().and_then(|s| s.to_str()).map(|s| s.to_string())
}

/// The stem of the file name of a path.
///
/// Trusted: `std::path::Path::file_stem`, converted to text with
/// `OsStr::to_str`. Its result is named `path_stem_of`; the rules of the
/// documentation (the file name before its last `.`) are left to the name.
#[verifier::external_body]
pub(crate) fn path_stem(path: &str) -> (r: Option<String>)
    ensures
        opt_text(r) == path_stem_of(path@),
{
    std::path::Path::new(path).file_stem().and_then(|s| s.to_str()).map(|s| s.to_string())
}

/// What `std::path::Path::join` makes of a base path and a further part, as
/// text.
pub uninterp spec fn path_joined(base: Seq<char>, part: Seq<char>) -> Seq<char>;

/// The path `part` under `base`.
///
/// Trusted: `std::path::Path::join`, shown as text with `Path::display`
/// (exact here, as both paths are text). Its result is named `path_joined`;
/// the rules of the documentation (a separator between the two, an absolute
/// `part` replacing `base`) depend on the platform and are left to the name.
#[verifier::external_body]
pub(crate) fn path_join(base: &str, part: &str) -> (r: String)
    ensures
        r@ == path_joined(base@, part@),
{
    std::path::Path::new(base).join(part).display().to_string()
}

/// Whether a source is a tar bundle: its file extension is `tar` in any case.
pub open spec fn is_tar_source(source_name: Option<Seq<char>>) -> bool {
    match source_name {
        Some(s) => match path_extension_of(s) {
            Some(e) => ascii_ci_eq(e, "tar"@),
            None => false,
        },
        None => false,
    }
}

/// An input decoded as volumes: a tar bundle member by member, anything else
/// as one GRIB2 message.
pub open spec fn spec_decode_input(bytes: Seq<u8>, source_name: Option<Seq<char>>) -> Result<Seq<VolumeModel>, DecodeFault> {
    if is_tar_source(source_name) {
        spec_decode_tar(bytes)
    } else {
        match spec_decode_grib2(bytes, source_name) {
            Ok(v) => Ok(seq![v]),
            Err(e) => Err(e),
        }
    }
}

/// The plain value of an optional string slice.
pub open spec fn opt_str(s: Option<&str>) -> Option<Seq<char>> {
    match s {
        Some(t) => Some(t@),
        None => None,
    }
}

/// Whether a source name names a tar bundle.
fn tar_source(source_name: Option<&str>) -> (b: bool)
    ensures
        b == is_tar_source(opt_str(source_name)),
{
    match source_name {
        Some(s) => match path_extension(s) {
            Some(e) => eq_ignore_ascii_case(e.as_str(), "tar"),
            None => false,
        },
        None => false,
    }
}

/// Decodes an input: a `.tar` bundle (by its name) into the volumes of its
/// `.bin` members, anything else as a single GRIB2 message.
pub fn decode_input_bytes(bytes: &[u8], source_name: Option<&str>) -> (r: Result<Vec<Volume>, DecodeError>)
    ensures
        match r {
            Ok(v) => spec_decode_input(bytes@, opt_str(source_name)) == Ok::<Seq<VolumeModel>, DecodeFault>(volume_models(v@)),
            Err(e) => spec_decode_input(bytes@, opt_str(source_name)) == Err::<Seq<VolumeModel>, DecodeFault>(e@),
        },
{
    if tar_source(source_name) {
        decode_tar(bytes)
    } else {
        match decode_grib2(bytes, source_name) {
            Ok(v) => {
                let ghost m = v@;
                let mut out: Vec<Volume> = Vec::new();
                out.push(v);
                assert(volume_models(out@) =~= seq![m]);
                Ok(out)
            },
            Err(e) => Err(e),
        }
    }
}

/// Downloaded files as plain values: their bytes and file names.
pub open spec fn download_inputs(ds: Seq<NictDownload>) -> Seq<(Seq<u8>, Seq<char>)> {
    Seq::new(ds.len(), |i: int| (ds[i].bytes@, ds[i].file_name@))
}

/// One input decoded by its name.
#[verifier::opaque]
pub open spec fn decoded_input(bytes: Seq<u8>, name: Seq<char>) -> Result<Seq<VolumeModel>, DecodeFault> {
    spec_decode_input(bytes, Some(name))
}

/// The volumes of several inputs, each decoded by its name, in order, or the
/// error of the first that does not decode.
pub open spec fn spec_decode_inputs(inputs: Seq<(Seq<u8>, Seq<char>)>) -> Result<Seq<VolumeModel>, DecodeFault>
    decreases inputs.len(),
{
    if inputs.len() == 0 {
        Ok(Seq::empty())
    } else {
        match spec_decode_inputs(inputs.drop_last()) {
            Err(e) => Err(e),
            Ok(before) => match decoded_input(inputs.last().0, inputs.last().1) {
                Ok(more) => Ok(before + more),
                Err(e) => Err(e),
            },
        }
    }
}

/// Once some inputs fail to decode, more inputs after them fail the same way.
proof fn lemma_inputs_error_stays(inputs: Seq<(Seq<u8>, Seq<char>)>, k: int)
    requires
        0 <= k <= inputs.len(),
        spec_decode_inputs(inputs.take(k)) is Err,
    ensures
        spec_decode_inputs(inputs) == spec_decode_inputs(inputs.take(k)),
    decreases inputs.len(),
{
    if inputs.len() == k {
        assert(inputs.take(k) =~= inputs);
    } else {
        assert(inputs.drop_last().take(k) =~= inputs.take(k));
        lemma_inputs_error_stays(inputs.drop_last(), k);
    }
}

/// Decodes downloaded files, each by its file name, into one list of
/// volumes in download order; stops at the first file that does not decode.
pub fn decode_downloads(downloads: &Vec<NictDownload>) -> (r: Result<Vec<Volume>, DecodeError>)
    ensures
        match r {
            Ok(v) => spec_decode_inputs(download_inputs(downloads@)) == Ok::<Seq<VolumeModel>, DecodeFault>(
                volume_models(v@),
            ),
            Err(e) => spec_decode_inputs(download_inputs(downloads@)) == Err::<Seq<VolumeModel>, DecodeFault>(e@),
        },
{
    let ghost inputs = download_inputs(downloads@);
    let mut volumes: Vec<Volume> = Vec::new();
    let mut i: usize = 0;
    assert(inputs.take(0) =~= Seq::<(Seq<u8>, Seq<char>)>::empty());
    assert(volume_models(volumes@) =~= Seq::<VolumeModel>::empty());
    while i < downloads.len()
        invariant
            i <= downloads@.len(),
            inputs == download_inputs(downloads@),
            spec_decode_inputs(inputs.take(i as int)) == Ok::<Seq<VolumeModel>, DecodeFault>(volume_models(volumes@)),
        decreases downloads@.len() - i,
    {
        assert(inputs.take(i + 1).drop_last() =~= inputs.take(i as int));
        assert(inputs.take(i + 1).last() == inputs[i as int]);
        let d = &downloads[i];
        let decoded = decode_input_bytes(d.bytes.as_slice(), Some(d.file_name.as_str()));
        proof {
            assert(inputs[i as int] == (d.bytes@, d.file_name@));
            reveal(decoded_input);
        }
        match decoded {
            Ok(mut more) => {
                let ghost before = volumes@;
                let ghost added = more@;
                volumes.append(&mut more);
                assert(volume_models(volumes@) =~= volume_models(before) + volume_models(added));
            },
            Err(e) => {
                proof { lemma_inputs_error_stays(inputs, i + 1); }
                return Err(e);
            },
        }
        i = i + 1;
    }
    assert(inputs.take(i as int) =~= inputs);
    Ok(volumes)
}

/// `s` with every character that is not an ASCII letter or digit made `_`.
pub open spec fn sanitized(s: Seq<char>) -> Seq<char> {
    Seq::new(s.len(), |i: int| if is_ascii_alnum(s[i]) { s[i] } else { '_' })
}

/// `sanitized(s)`, or `jma` for empty text.
pub open spec fn sanitized_component(s: Seq<char>) -> Seq<char> {
    if s.len() == 0 { "jma"@ } else { sanitized(s) }
}

/// Replaces every character that is not an ASCII letter or digit by `_`.
pub fn sanitize(input: &str) -> (r: String)
    ensures
        r@ == sanitized(input@),
{
    let v = chars_of(input);
    let mut out = String::new();
    let mut i: usize = 0;
    while i < v.len()
        invariant
            v@ == input@,
            i <= v@.len(),
            out@ == sanitized(input@).take(i as int),
        decreases v@.len() - i,
    {
        let c = v[i];
        if ascii_alnum(c) {
            push_char(&mut out, c);
        } else {
            push_char(&mut out, '_');
        }
        i = i + 1;
        assert(out@ =~= sanitized(input@).take(i as int));
    }
    assert(sanitized(input@).take(i as int) =~= sanitized(input@));
    out
}

/// A file-name component: as `sanitize`, with `jma` for empty input.
pub fn sanitize_component(input: &str) -> (r: String)
    ensures
        r@ == sanitized_component(input@),
{
    let mut out = sanitize(input);
    if out.as_str().unicode_len() == 0 {
        push_str(&mut out, "jma");
        assert(out@ =~= "jma"@);
    }
    out
}

/// The HTML text of one character.
pub open spec fn escape_char(c: char) -> Seq<char> {
    if c == '&' {
        "&amp;"@
    } else if c == '<' {
        "&lt;"@
    } else if c == '>' {
        "&gt;"@
    } else if c == '"' {
        "&quot;"@
    } else {
        seq![c]
    }
}

/// `s` with `&`, `<`, `>` and `"` written as HTML entities.
pub open spec fn html_escaped(s: Seq<char>) -> Seq<char>
    decreases s.len(),
{
    if s.len() == 0 {
        Seq::empty()
    } else {
        html_escaped(s.drop_last()) + escape_char(s.last())
    }
}

/// Escapes text for HTML: `&`, `<`, `>` and `"` become entities.
pub fn html_text(input: &str) -> (r: String)
    ensures
        r@ == html_escaped(input@),
{
    let v = chars_of(input);
    let mut out = String::new();
    let mut i: usize = 0;
    while i < v.len()
        invariant
            v@ == input@,
            i <= v@.len(),
            out@ == html_escaped(input@.take(i as int)),
        decreases v@.len() - i,
    {
        let c = v[i];
        let ghost before = out@;
        if c == '&' {
            push_str(&mut out, "&amp;");
        } else if c == '<' {
            push_str(&mut out, "&lt;");
        } else if c == '>' {
            push_str(&mut out, "&gt;");
        } else if c == '"' {
            push_str(&mut out, "&quot;");
        } else {
            push_char(&mut out, c);
        }
        assert(input@.take(i + 1).drop_last() =~= input@.take(i as int));
        assert(out@ =~= before + escape_char(c));
        i = i + 1;
    }
    assert(input@.take(i as int) =~= input@);
    out
}

/// The ASCII letters and digits of `s`, upper-cased.
pub open spec fn alnum_upper(s: Seq<char>) -> Seq<char>
    decreases s.len(),
{
    if s.len() == 0 {
        Seq::empty()
    } else {
        alnum_upper(s.drop_last()) + if is_ascii_alnum(s.last()) { seq![ascii_upper(s.last())] } else { Seq::empty() }
    }
}

/// At most the first four characters of `s`.
pub open spec fn take4(s: Seq<char>) -> Seq<char> {
    if s.len() > 4 { s.take(4) } else { s }
}

/// A served site id: the first four letters and digits of `raw`, upper-cased,
/// or `JMA1` where there are none.
pub open spec fn site_id_text(raw: Seq<char>) -> Seq<char> {
    let id = take4(alnum_upper(raw));
    if id.len() == 0 { "JMA1"@ } else { id }
}

/// The station id of the first volume that has a sweep.
pub open spec fn first_station(volumes: Seq<VolumeModel>) -> Option<Seq<char>>
    decreases volumes.len(),
{
    if volumes.len() == 0 {
        None
    } else if volumes[0].sweeps.len() > 0 {
        Some(volumes[0].sweeps[0].site.id)
    } else {
        first_station(volumes.drop_first())
    }
}

/// The site id that the bridge serves: the override if given, else the first
/// station id of the volumes, else `JMA1`, reduced by `site_id_text`.
pub open spec fn site_id_spec(volumes: Seq<VolumeModel>, override_id: Option<Seq<char>>) -> Seq<char> {
    site_id_text(
        match override_id {
            Some(o) => o,
            None => match first_station(volumes) {
                Some(s) => s,
                None => "JMA1"@,
            },
        },
    )
}

/// Reduces text to a served site id.
pub fn site_id_from(raw: &str) -> (r: String)
    ensures
        r@ == site_id_text(raw@),
{
    let v = chars_of(raw);
    let mut out = String::new();
    let mut count: usize = 0;
    let mut i: usize = 0;
    while i < v.len()
        invariant
            v@ == raw@,
            i <= v@.len(),
            out@ == take4(alnum_upper(raw@.take(i as int))),
            count == out@.len(),
        decreases v@.len() - i,
    {
        let c = v[i];
        let ghost prefix = raw@.take(i as int);
        assert(raw@.take(i + 1).drop_last() =~= prefix);
        assert(raw@.take(i + 1).last() == c);
        if ascii_alnum(c) {
            if count < 4 {
                push_char(&mut out, to_ascii_upper(c));
                count = count + 1;
            }
        }
        proof {
            let a = alnum_upper(prefix);
            let b = alnum_upper(raw@.take(i + 1));
            if is_ascii_alnum(c) {
                assert(b == a + seq![ascii_upper(c)]);
                if a.len() >= 4 {
                    assert(take4(b) =~= take4(a));
                } else {
                    assert(take4(b) =~= take4(a).push(ascii_upper(c)));
                }
            } else {
                assert(b =~= a);
            }
        }
        i = i + 1;
    }
    assert(raw@.take(i as int) =~= raw@);
    if count == 0 {
        let id = crate::error::text("JMA1");
        return id;
    }
    out
}

/// Finds the first station id among the volumes.
fn first_station_of(volumes: &Vec<Volume>) -> (r: Option<&str>)
    ensures
        opt_str(r) == first_station(volume_models(volumes@)),
{
    let mut i: usize = 0;
    assert(volume_models(volumes@).skip(0) =~= volume_models(volumes@));
    while i < volumes.len()
        invariant
            i <= volumes@.len(),
            first_station(volume_models(volumes@)) == first_station(volume_models(volumes@).skip(i as int)),
        decreases volumes@.len() - i,
    {
        let ghost rest = volume_models(volumes@).skip(i as int);
        assert(rest.drop_first() =~= volume_models(volumes@).skip(i + 1));
        if let Some(id) = volumes[i].station_id() {
            return Some(id);
        }
        i = i + 1;
    }
    None
}

/// The site id that the bridge serves for these volumes.
pub fn site_id_for(volumes: &Vec<Volume>, override_id: Option<&str>) -> (r: String)
    ensures
        r@ == site_id_spec(volume_models(volumes@), opt_str(override_id)),
{
    let raw: &str = match override_id {
        Some(o) => o,
        None => match first_station_of(volumes) {
            Some(s) => s,
            None => "JMA1",
        },
    };
    site_id_from(raw)
}

/// The lines of `files`, one per file, then `latest.json`.
pub open spec fn dir_list_text(files: Seq<Seq<char>>) -> Seq<char>
    decreases files.len(),
{
    if files.len() == 0 {
        "latest.json\n"@
    } else {
        files[0] + seq!['\n'] + dir_list_text(files.drop_first())
    }
}

/// The plain values of a list of strings.
pub open spec fn texts(v: Seq<String>) -> Seq<Seq<char>> {
    Seq::new(v.len(), |i: int| v[i]@)
}

/// The `dir.list` of a station directory: the proof files, then
/// `latest.json`, one per line.
pub fn dir_list(files: &Vec<String>) -> (r: String)
    ensures
        r@ == dir_list_text(texts(files@)),
{
    let mut out = String::new();
    let mut i: usize = 0;
    assert(texts(files@).skip(0) =~= texts(files@));
    while i < files.len()
        invariant
            i <= files@.len(),
            out@ + dir_list_text(texts(files@).skip(i as int)) == dir_list_text(texts(files@)),
        decreases files@.len() - i,
    {
        let ghost rest = texts(files@).skip(i as int);
        assert(rest.drop_first() =~= texts(files@).skip(i + 1));
        assert(rest[0] == files@[i as int]@);
        let ghost before = out@;
        push_str(&mut out, files[i].as_str());
        push_char(&mut out, '\n');
        assert(out@ == before + files@[i as int]@ + seq!['\n']);
        assert(before + dir_list_text(rest) =~= out@ + dir_list_text(texts(files@).skip(i + 1)));
        i = i + 1;
    }
    assert(texts(files@).skip(i as int) =~= Seq::<Seq<char>>::empty());
    let ghost before = out@;
    push_str(&mut out, "latest.json\n");
    out
}

/// Whether a value is worth drawing: reflectivity of at least 5 dBZ, a
/// velocity of at least 0.5 m/s either way, any value of another product.
/// Values are in units of `10^-scale`.
pub open spec fn is_interesting(product: Product, scale: u8, value: Option<i16>) -> bool {
    match value {
        None => false,
        Some(v) => match product {
            Product::Reflectivity => v >= 5 * pow10(scale as nat),
            Product::Velocity => 2 * (if v < 0 { -v } else { v as int }) >= pow10(scale as nat),
            Product::Unknown { .. } => true,
        },
    }
}

/// The number of values of a sweep worth drawing.
pub open spec fn interesting_in(product: Product, scale: u8, values: Seq<Option<i16>>) -> nat
    decreases values.len(),
{
    if values.len() == 0 {
        0
    } else {
        interesting_in(product, scale, values.drop_last())
            + if is_interesting(product, scale, values.last()) { 1nat } else { 0nat }
    }
}

/// The number of values of a sweep worth drawing.
pub open spec fn score_of(sweep: SweepModel) -> nat {
    interesting_in(sweep.product, sweep.decimal_scale, sweep.values)
}

proof fn lemma_pow10_big(k: nat)
    requires
        k >= 5,
    ensures
        pow10(k) >= 100000,
    decreases k,
{
    if k == 5 {
        reveal_with_fuel(pow10, 6);
    } else {
        lemma_pow10_big((k - 1) as nat);
    }
}

proof fn lemma_interesting_le(product: Product, scale: u8, values: Seq<Option<i16>>)
    ensures
        interesting_in(product, scale, values) <= values.len(),
    decreases values.len(),
{
    if values.len() > 0 {
        lemma_interesting_le(product, scale, values.drop_last());
    }
}

/// `10^k` for a small `k`.
fn pow10_small(k: u8) -> (p: i64)
    requires
        k <= 4,
    ensures
        p == pow10(k as nat),
        p <= 10000,
{
    reveal_with_fuel(pow10, 5);
    if k == 0 { 1 } else if k == 1 { 10 } else if k == 2 { 100 } else if k == 3 { 1000 } else { 10000 }
}

/// Whether one value is worth drawing.
fn interesting(product: &Product, scale: u8, value: Option<i16>) -> (b: bool)
    ensures
        b == is_interesting(*product, scale, value),
{
    match value {
        None => false,
        Some(v) => match product {
            Product::Reflectivity => {
                if scale > 4 {
                    proof { lemma_pow10_big(scale as nat); }
                    false
                } else {
                    v as i64 >= 5 * pow10_small(scale)
                }
            },
            Product::Velocity => {
                let magnitude: i64 = if v < 0 { -(v as i64) } else { v as i64 };
                if scale > 4 {
                    proof { lemma_pow10_big(scale as nat); }
                    false
                } else {
                    2 * magnitude >= pow10_small(scale)
                }
            },
            Product::Unknown { .. } => true,
        },
    }
}

/// The number of values of a sweep worth drawing.
pub fn interesting_count(sweep: &Sweep) -> (n: usize)
    ensures
        n == score_of(sweep@),
{
    let mut n: usize = 0;
    let mut i: usize = 0;
    while i < sweep.values.len()
        invariant
            i <= sweep.values@.len(),
            n == interesting_in(sweep.product, sweep.decimal_scale, sweep.values@.take(i as int)),
            n <= i,
        decreases sweep.values@.len() - i,
    {
        assert(sweep.values@.take(i + 1).drop_last() =~= sweep.values@.take(i as int));
        if interesting(&sweep.product, sweep.decimal_scale, sweep.values[i]) {
            n = n + 1;
        }
        i = i + 1;
    }
    assert(sweep.values@.take(i as int) =~= sweep.values@);
    n
}

/// A sweep that may be drawn: where it is and how many values are worth it.
#[derive(Clone, Copy, Debug, PartialEq, Eq, Structural)]
pub struct Candidate {
    pub volume_index: usize,
    pub sweep_index: usize,
    pub score: usize,
}

/// The sweeps of volume `vi` with a positive score, in order.
pub open spec fn sweep_candidates(vi: nat, sweeps: Seq<SweepModel>) -> Seq<Candidate>
    decreases sweeps.len(),
{
    if sweeps.len() == 0 {
        Seq::empty()
    } else {
        sweep_candidates(vi, sweeps.drop_last()) + if score_of(sweeps.last()) > 0 {
            seq![Candidate { volume_index: vi as usize, sweep_index: (sweeps.len() - 1) as usize, score: score_of(sweeps.last()) as usize }]
        } else {
            Seq::empty()
        }
    }
}

/// The sweeps of all volumes with a positive score, in order.
pub open spec fn all_candidates(volumes: Seq<VolumeModel>) -> Seq<Candidate>
    decreases volumes.len(),
{
    if volumes.len() == 0 {
        Seq::empty()
    } else {
        all_candidates(volumes.drop_last()) + sweep_candidates((volumes.len() - 1) as nat, volumes.last().sweeps)
    }
}

/// Where a candidate of `score` goes in a list sorted by descending score:
/// after every candidate that scores as much.
pub open spec fn insert_pos(sorted: Seq<Candidate>, score: nat) -> nat
    decreases sorted.len(),
{
    if sorted.len() == 0 || sorted[0].score < score {
        0
    } else {
        1 + insert_pos(sorted.drop_first(), score)
    }
}

/// The candidates sorted by descending score, ties kept in order.
pub open spec fn sort_desc(cs: Seq<Candidate>) -> Seq<Candidate>
    decreases cs.len(),
{
    if cs.len() == 0 {
        Seq::empty()
    } else {
        let sorted = sort_desc(cs.drop_last());
        sorted.insert(insert_pos(sorted, cs.last().score as nat) as int, cs.last())
    }
}

/// The sweeps to draw: the best-scoring `max` candidates.
pub open spec fn best_candidates(volumes: Seq<VolumeModel>, max: nat) -> Seq<Candidate> {
    let sorted = sort_desc(all_candidates(volumes));
    if sorted.len() > max { sorted.take(max as int) } else { sorted }
}

proof fn lemma_insert_pos_bound(sorted: Seq<Candidate>, score: nat)
    ensures
        insert_pos(sorted, score) <= sorted.len(),
    decreases sorted.len(),
{
    if sorted.len() > 0 && sorted[0].score >= score {
        lemma_insert_pos_bound(sorted.drop_first(), score);
    }
}

proof fn lemma_sort_len(cs: Seq<Candidate>)
    ensures
        sort_desc(cs).len() == cs.len(),
    decreases cs.len(),
{
    if cs.len() > 0 {
        lemma_sort_len(cs.drop_last());
        lemma_insert_pos_bound(sort_desc(cs.drop_last()), cs.last().score as nat);
    }
}

/// Inserts `c` where `insert_pos` says.
fn insert_sorted(sorted: &mut Vec<Candidate>, c: Candidate)
    ensures
        final(sorted)@ == old(sorted)@.insert(insert_pos(old(sorted)@, c.score as nat) as int, c),
{
    let mut j: usize = 0;
    assert(sorted@.skip(0) =~= sorted@);
    while j < sorted.len() && sorted[j].score >= c.score
        invariant
            j <= sorted@.len(),
            sorted@ == old(sorted)@,
            insert_pos(sorted@, c.score as nat) == j + insert_pos(sorted@.skip(j as int), c.score as nat),
        decreases sorted@.len() - j,
    {
        assert(sorted@.skip(j as int).drop_first() =~= sorted@.skip(j + 1));
        j = j + 1;
    }
    assert(insert_pos(sorted@.skip(j as int), c.score as nat) == 0);
    sorted.insert(j, c);
}

/// Lists the sweeps of volume `vi` that have a positive score.
fn add_sweep_candidates(out: &mut Vec<Candidate>, vi: usize, volume: &Volume)
    ensures
        final(out)@ == old(out)@ + sweep_candidates(vi as nat, volume@.sweeps),
{
    let mut si: usize = 0;
    while si < volume.sweeps.len()
        invariant
            si <= volume.sweeps@.len(),
            out@ == old(out)@ + sweep_candidates(vi as nat, volume@.sweeps.take(si as int)),
        decreases volume.sweeps@.len() - si,
    {
        let ghost sweeps = volume@.sweeps;
        assert(sweeps.take(si + 1).drop_last() =~= sweeps.take(si as int));
        assert(sweeps.take(si + 1).last() == volume.sweeps@[si as int]@);
        let score = interesting_count(&volume.sweeps[si]);
        let ghost before = out@;
        if score > 0 {
            out.push(Candidate { volume_index: vi, sweep_index: si, score });
        }
        assert(out@ =~= old(out)@ + sweep_candidates(vi as nat, sweeps.take(si + 1)));
        si = si + 1;
    }
    assert(volume@.sweeps.take(si as int) =~= volume@.sweeps);
}

/// The sweeps worth drawing, best first (ties in input order), at most
/// `max_images` of them.
pub fn render_candidates(volumes: &Vec<Volume>, max_images: usize) -> (r: Vec<Candidate>)
    ensures
        r@ == best_candidates(volume_models(volumes@), max_images as nat),
{
    let ghost models = volume_models(volumes@);
    let mut all: Vec<Candidate> = Vec::new();
    let mut vi: usize = 0;
    while vi < volumes.len()
        invariant
            vi <= volumes@.len(),
            models == volume_models(volumes@),
            all@ == all_candidates(models.take(vi as int)),
        decreases volumes@.len() - vi,
    {
        assert(models.take(vi + 1).drop_last() =~= models.take(vi as int));
        assert(models.take(vi + 1).last() == volumes@[vi as int]@);
        add_sweep_candidates(&mut all, vi, &volumes[vi]);
        vi = vi + 1;
    }
    assert(models.take(vi as int) =~= models);
    let mut sorted: Vec<Candidate> = Vec::new();
    let mut i: usize = 0;
    while i < all.len()
        invariant
            i <= all@.len(),
            sorted@ == sort_desc(all@.take(i as int)),
        decreases all@.len() - i,
    {
        assert(all@.take(i + 1).drop_last() =~= all@.take(i as int));
        insert_sorted(&mut sorted, all[i]);
        i = i + 1;
    }
    assert(all@.take(i as int) =~= all@);
    if sorted.len() > max_images {
        sorted.truncate(max_images);
    }
    sorted
}

/// An elevation in hundredths of a degree, written with two decimals as
/// `{:.2}` writes the angle in degrees; a missing one is `0.00`.
pub open spec fn elevation_text(e: Option<i16>) -> Seq<char> {
    let c: int = match e { Some(v) => v as int, None => 0 };
    let m: nat = (if c < 0 { -c } else { c }) as nat;
    (if c < 0 { seq!['-'] } else { Seq::empty() }) + decimal(m / 100) + seq!['.'] + padded(m % 100, 2)
}

/// The name of the image of sweep `idx` of a volume:
/// `{source}_{station}_{product}_sweep{idx:02}_elev{elevation}.png`, where the
/// source is the stem of the volume's source name (`jma` if none). With
/// `fill_empty`, an empty component is written `jma`.
pub open spec fn image_file_name(source_name: Option<Seq<char>>, sweep: SweepModel, idx: nat, fill_empty: bool) -> Seq<char> {
    let clean = |s: Seq<char>| if fill_empty { sanitized_component(s) } else { sanitized(s) };
    let source = match source_name {
        Some(s) => match path_stem_of(s) {
            Some(stem) => clean(stem),
            None => "jma"@,
        },
        None => "jma"@,
    };
    source + seq!['_'] + clean(sweep.site.id) + seq!['_'] + short_name_of(sweep.product) + "_sweep"@
        + padded(idx, 2) + "_elev"@ + elevation_text(sweep.elevation_angle_centideg) + ".png"@
}

/// Appends an elevation as `elevation_text` writes it.
fn push_elevation(s: &mut String, e: Option<i16>)
    ensures
        final(s)@ == old(s)@ + elevation_text(e),
{
    let c: i32 = match e { Some(v) => v as i32, None => 0 };
    if c < 0 {
        push_char(s, '-');
    }
    let m: u64 = if c < 0 { (-c) as u64 } else { c as u64 };
    push_decimal(s, m / 100);
    push_char(s, '.');
    push_padded(s, m % 100, 2);
    assert(final(s)@ =~= old(s)@ + elevation_text(e));
}

/// A file-name component, `jma`-filled where empty with `fill_empty`.
fn clean_component(input: &str, fill_empty: bool) -> (r: String)
    ensures
        r@ == (if fill_empty { sanitized_component(input@) } else { sanitized(input@) }),
{
    if fill_empty { sanitize_component(input) } else { sanitize(input) }
}

/// The image name of sweep `idx` of a volume, as `image_file_name` says.
fn image_name(volume: &Volume, idx: usize, sweep: &Sweep, fill_empty: bool) -> (r: String)
    ensures
        r@ == image_file_name(volume@.source_name, sweep@, idx as nat, fill_empty),
{
    let source = match &volume.source_name {
        Some(name) => match path_stem(name.as_str()) {
            Some(stem) => clean_component(stem.as_str(), fill_empty),
            None => crate::error::text("jma"),
        },
        None => crate::error::text("jma"),
    };
    let mut out = source;
    push_char(&mut out, '_');
    let station = clean_component(sweep.site.id.as_str(), fill_empty);
    push_str(&mut out, station.as_str());
    push_char(&mut out, '_');
    push_str(&mut out, sweep.product.short_name());
    push_str(&mut out, "_sweep");
    push_padded(&mut out, idx as u64, 2);
    push_str(&mut out, "_elev");
    push_elevation(&mut out, sweep.elevation_angle_centideg);
    push_str(&mut out, ".png");
    assert(out@ =~= image_file_name(volume@.source_name, sweep@, idx as nat, fill_empty));
    out
}

/// The name under which the bridge serves the image of sweep `idx`.
pub fn proof_file_name(volume: &Volume, idx: usize, sweep: &Sweep) -> (r: String)
    ensures
        r@ == image_file_name(volume@.source_name, sweep@, idx as nat, true),
{
    image_name(volume, idx, sweep, true)
}

/// The name under which the render tool writes the image of sweep `idx`.
pub fn output_file_name(volume: &Volume, idx: usize, sweep: &Sweep) -> (r: String)
    ensures
        r@ == image_file_name(volume@.source_name, sweep@, idx as nat, false),
{
    image_name(volume, idx, sweep, false)
}

/// The text of `grlevel2.cfg`.
pub open spec fn config_text(site_id: Seq<char>) -> Seq<char> {
    "Site: "@ + site_id + seq!['\n']
}

/// The text of a station's `README.txt`.
pub open spec fn readme_text() -> Seq<char> {
    "This folder is served in a GRLevel2/GR2Analyst-style polling layout.\nPNG and JSON outputs are live proof products. Native Archive II output is not enabled yet.\n"@
}

/// The `index.html` of the polling root.
pub open spec fn root_index_text(site_id: Seq<char>, sweep_count: nat) -> Seq<char> {
    "<!doctype html><title>JMA Radar Bridge</title><h1>JMA Radar Bridge</h1><p>Polling root is alive.</p><ul><li><a href=\"grlevel2.cfg\">grlevel2.cfg</a></li><li><a href=\"customradars.gis\">customradars.gis</a></li><li><a href=\""@
        + site_id + "/\">"@ + site_id + "</a></li></ul><p>"@ + decimal(sweep_count)
        + " sweeps available as proof products.</p>"@
}

/// One list item per file, each linking to the file by its escaped name.
pub open spec fn file_items(files: Seq<Seq<char>>) -> Seq<char>
    decreases files.len(),
{
    if files.len() == 0 {
        Seq::empty()
    } else {
        "<li><a href=\""@ + html_escaped(files[0]) + "\">"@ + html_escaped(files[0]) + "</a></li>"@
            + file_items(files.drop_first())
    }
}

/// The `index.html` of a station directory.
pub open spec fn station_index_text(site_id: Seq<char>, volume_count: nat, sweep_count: nat, files: Seq<Seq<char>>) -> Seq<char> {
    "<!doctype html><title>"@ + site_id + " JMA Radar Bridge</title><h1>"@ + site_id + "</h1><p>"@
        + decimal(volume_count) + " volumes, "@ + decimal(sweep_count)
        + " sweeps.</p><ul><li><a href=\"latest.json\">latest.json</a></li><li><a href=\"README.txt\">README.txt</a></li>"@
        + file_items(files) + "</ul>"@
}

/// The `index.html` of the polling root.
pub fn root_index(site_id: &str, sweep_count: usize) -> (r: String)
    ensures
        r@ == root_index_text(site_id@, sweep_count as nat),
{
    let mut out = String::new();
    push_str(&mut out, "<!doctype html><title>JMA Radar Bridge</title><h1>JMA Radar Bridge</h1><p>Polling root is alive.</p><ul><li><a href=\"grlevel2.cfg\">grlevel2.cfg</a></li><li><a href=\"customradars.gis\">customradars.gis</a></li><li><a href=\"");
    push_str(&mut out, site_id);
    push_str(&mut out, "/\">");
    push_str(&mut out, site_id);
    push_str(&mut out, "</a></li></ul><p>");
    push_decimal(&mut out, sweep_count as u64);
    push_str(&mut out, " sweeps available as proof products.</p>");
    assert(out@ =~= root_index_text(site_id@, sweep_count as nat));
    out
}

/// The `index.html` of a station directory, linking the proof files.
pub fn station_index(site_id: &str, volume_count: usize, sweep_count: usize, proof_files: &Vec<String>) -> (r: String)
    ensures
        r@ == station_index_text(site_id@, volume_count as nat, sweep_count as nat, texts(proof_files@)),
{
    let mut out = String::new();
    push_str(&mut out, "<!doctype html><title>");
    push_str(&mut out, site_id);
    push_str(&mut out, " JMA Radar Bridge</title><h1>");
    push_str(&mut out, site_id);
    push_str(&mut out, "</h1><p>");
    push_decimal(&mut out, volume_count as u64);
    push_str(&mut out, " volumes, ");
    push_decimal(&mut out, sweep_count as u64);
    push_str(&mut out, " sweeps.</p><ul><li><a href=\"latest.json\">latest.json</a></li><li><a href=\"README.txt\">README.txt</a></li>");
    let ghost head = out@;
    let ghost files = texts(proof_files@);
    let mut i: usize = 0;
    assert(files.skip(0) =~= files);
    assert(head + Seq::<char>::empty() =~= head);
    while i < proof_files.len()
        invariant
            i <= proof_files@.len(),
            files == texts(proof_files@),
            out@ + file_items(files.skip(i as int)) == head + file_items(files),
        decreases proof_files@.len() - i,
    {
        let ghost rest = files.skip(i as int);
        assert(rest.drop_first() =~= files.skip(i + 1));
        assert(rest[0] == proof_files@[i as int]@);
        let ghost before = out@;
        let escaped = html_text(proof_files[i].as_str());
        push_str(&mut out, "<li><a href=\"");
        push_str(&mut out, escaped.as_str());
        push_str(&mut out, "\">");
        push_str(&mut out, escaped.as_str());
        push_str(&mut out, "</a></li>");
        assert(before + file_items(rest) =~= out@ + file_items(files.skip(i + 1)));
        i = i + 1;
    }
    assert(files.skip(i as int) =~= Seq::<Seq<char>>::empty());
    assert(out@ + Seq::<char>::empty() =~= out@);
    push_str(&mut out, "</ul>");
    assert(out@ =~= station_index_text(site_id@, volume_count as nat, sweep_count as nat, files));
    out
}

/// How the bridge publishes.
#[derive(Clone, Debug)]
pub struct BridgeOptions {
    /// The polling root directory.
    pub raw_root: String,
    /// Served site id in place of the decoded one.
    pub site_override: Option<String>,
    pub render_size_px: u32,
    pub max_images: usize,
}

/// What a publish wrote.
#[derive(Clone, Debug)]
pub struct PublishReport {
    pub site_id: String,
    pub raw_root: String,
    pub station_dir: String,
    pub volume_count: usize,
    pub sweep_count: usize,
    pub proof_files: Vec<String>,
    pub notes: Vec<String>,
}

/// Why a publish failed.
#[derive(Debug)]
pub enum BridgeError {
    Decode(DecodeError),
    Io(String),
    Image(String),
    Json(String),
    /// No volumes to publish.
    Empty,
}

/// A proof image to draw: a sweep, the file it goes to, and its palette.
#[derive(Clone, Debug)]
pub struct RenderJob {
    pub volume_index: usize,
    pub sweep_index: usize,
    pub file_name: String,
    pub palette: ColorPalette,
}

/// Everything that a publish writes, before it is written: the served site,
/// the text of each file, and the images to draw, in the order of writing.
#[derive(Clone, Debug)]
pub struct PublishPlan {
    pub site_id: String,
    /// The polling root directory.
    pub raw_root: String,
    /// The station directory: the site id under the polling root.
    pub station_dir: String,
    /// The volume whose first sweep places the site on the map.
    pub site_volume: Option<usize>,
    pub volume_count: usize,
    pub sweep_count: usize,
    /// `grlevel2.cfg`.
    pub config_text: String,
    /// The station's `README.txt`.
    pub readme_text: String,
    pub jobs: Vec<RenderJob>,
    /// The file names of the jobs, in order.
    pub proof_files: Vec<String>,
    /// The station's `dir.list`.
    pub dir_list: String,
    /// The root's `index.html`.
    pub root_index: String,
    /// The station's `index.html`.
    pub station_index: String,
    pub notes: Vec<String>,
}

/// The number of sweeps of all volumes.
pub open spec fn total_sweeps(volumes: Seq<VolumeModel>) -> nat
    decreases volumes.len(),
{
    if volumes.len() == 0 { 0 } else { total_sweeps(volumes.drop_last()) + volumes.last().sweeps.len() }
}

/// The index of the first volume that has a sweep.
pub open spec fn first_with_sweep(volumes: Seq<VolumeModel>, from: nat) -> Option<nat>
    decreases volumes.len() - from,
{
    if from >= volumes.len() {
        None
    } else if volumes[from as int].sweeps.len() > 0 {
        Some(from)
    } else {
        first_with_sweep(volumes, from + 1)
    }
}

/// The sweep count as reported: the total, or `usize::MAX` if larger.
pub open spec fn reported_sweeps(volumes: Seq<VolumeModel>) -> nat {
    if total_sweeps(volumes) > usize::MAX { usize::MAX as nat } else { total_sweeps(volumes) }
}

/// The render jobs of `best`: each sweep's image name and palette.
pub open spec fn job_matches(j: RenderJob, c: Candidate, volumes: Seq<VolumeModel>) -> bool {
    let v = volumes[c.volume_index as int];
    let sw = v.sweeps[c.sweep_index as int];
    &&& j.volume_index == c.volume_index
    &&& j.sweep_index == c.sweep_index
    &&& j.file_name@ == image_file_name(v.source_name, sw, c.sweep_index as nat, true)
    &&& j.palette == palette_for(ColorPalette::Auto, sw.product)
}

/// Whether `plan` is what publishing `volumes` with `options` writes.
pub open spec fn plan_for(plan: PublishPlan, volumes: Seq<VolumeModel>, options: BridgeOptions) -> bool {
    let site = site_id_spec(volumes, opt_text(options.site_override));
    let best = best_candidates(volumes, options.max_images as nat);
    let files = texts(plan.proof_files@);
    &&& plan.site_id@ == site
    &&& plan.raw_root@ == options.raw_root@
    &&& plan.station_dir@ == path_joined(options.raw_root@, site)
    &&& plan.site_volume == match first_with_sweep(volumes, 0) { Some(k) => Some(k as usize), None => None }
    &&& plan.volume_count == volumes.len()
    &&& plan.sweep_count == reported_sweeps(volumes)
    &&& plan.config_text@ == config_text(site)
    &&& plan.readme_text@ == readme_text()
    &&& plan.jobs@.len() == best.len()
    &&& forall|k: int| 0 <= k < best.len() ==> #[trigger] job_matches(plan.jobs@[k], best[k], volumes)
    &&& files.len() == best.len()
    &&& forall|k: int| 0 <= k < best.len() ==> #[trigger] files[k] == plan.jobs@[k].file_name@
    &&& plan.dir_list@ == dir_list_text(files)
    &&& plan.root_index@ == root_index_text(site, plan.sweep_count as nat)
    &&& plan.station_index@ == station_index_text(site, plan.volume_count as nat, plan.sweep_count as nat, files)
    &&& texts(plan.notes@) == seq![
        "Polling directory shape is ready for GR2A testing."@,
        "Archive II emission is the remaining GR2A-ingest step."@,
    ]
}

/// Counts the sweeps of all volumes, `usize::MAX` if they are more.
fn count_sweeps(volumes: &Vec<Volume>) -> (n: usize)
    ensures
        n == reported_sweeps(volume_models(volumes@)),
        countable(volume_models(volumes@)),
{
    let ghost models = volume_models(volumes@);
    let mut total: usize = 0;
    let mut exact = true;
    let mut i: usize = 0;
    while i < volumes.len()
        invariant
            i <= volumes@.len(),
            models == volume_models(volumes@),
            exact ==> total == total_sweeps(models.take(i as int)),
            !exact ==> total == usize::MAX && total_sweeps(models.take(i as int)) > usize::MAX,
            forall|j: int| 0 <= j < i ==> #[trigger] models[j].sweeps.len() <= usize::MAX,
        decreases volumes@.len() - i,
    {
        assert(models.take(i + 1).drop_last() =~= models.take(i as int));
        assert(models.take(i + 1).last() == volumes@[i as int]@);
        let k = volumes[i].sweeps.len();
        if exact {
            match total.checked_add(k) {
                Some(t) => { total = t; },
                None => {
                    total = usize::MAX;
                    exact = false;
                },
            }
        }
        i = i + 1;
    }
    assert(models.take(i as int) =~= models);
    total
}

/// Finds the first volume that has a sweep.
fn find_site_volume(volumes: &Vec<Volume>) -> (r: Option<usize>)
    ensures
        r == match first_with_sweep(volume_models(volumes@), 0) { Some(k) => Some(k as usize), None => None },
{
    let ghost models = volume_models(volumes@);
    let mut i: usize = 0;
    while i < volumes.len()
        invariant
            i <= volumes@.len(),
            models == volume_models(volumes@),
            first_with_sweep(models, 0) == first_with_sweep(models, i as nat),
        decreases volumes@.len() - i,
    {
        if volumes[i].sweeps.len() > 0 {
            return Some(i);
        }
        i = i + 1;
    }
    None
}

/// Whether a candidate names a sweep of the volumes.
pub open spec fn names_sweep(c: Candidate, volumes: Seq<VolumeModel>) -> bool {
    &&& c.volume_index < volumes.len()
    &&& c.sweep_index < volumes[c.volume_index as int].sweeps.len()
}

proof fn lemma_sweep_candidates_range(vi: nat, sweeps: Seq<SweepModel>)
    requires
        vi <= usize::MAX,
        sweeps.len() <= usize::MAX,
    ensures
        forall|k: int| 0 <= k < sweep_candidates(vi, sweeps).len() ==> {
            &&& (#[trigger] sweep_candidates(vi, sweeps)[k]).volume_index == vi as usize
            &&& sweep_candidates(vi, sweeps)[k].sweep_index < sweeps.len()
        },
    decreases sweeps.len(),
{
    if sweeps.len() > 0 {
        lemma_sweep_candidates_range(vi, sweeps.drop_last());
        let a = sweep_candidates(vi, sweeps.drop_last());
        let b: Seq<Candidate> = if score_of(sweeps.last()) > 0 {
            seq![Candidate { volume_index: vi as usize, sweep_index: (sweeps.len() - 1) as usize, score: score_of(sweeps.last()) as usize }]
        } else {
            Seq::empty()
        };
        assert(sweep_candidates(vi, sweeps) == a + b);
        assert forall|k: int| 0 <= k < (a + b).len() implies {
            &&& (#[trigger] (a + b)[k]).volume_index == vi as usize
            &&& (a + b)[k].sweep_index < sweeps.len()
        } by {
            if k < a.len() {
                assert((a + b)[k] == a[k]);
            } else {
                assert((a + b)[k] == b[k - a.len()]);
            }
        }
    }
}

/// The volumes and their sweeps can be counted in a `usize`.
pub open spec fn countable(volumes: Seq<VolumeModel>) -> bool {
    &&& volumes.len() <= usize::MAX
    &&& forall|i: int| 0 <= i < volumes.len() ==> #[trigger] volumes[i].sweeps.len() <= usize::MAX
}

proof fn lemma_all_candidates_range(volumes: Seq<VolumeModel>)
    requires
        countable(volumes),
    ensures
        forall|k: int| 0 <= k < all_candidates(volumes).len() ==> names_sweep(#[trigger] all_candidates(volumes)[k], volumes),
    decreases volumes.len(),
{
    if volumes.len() > 0 {
        let front = volumes.drop_last();
        assert forall|i: int| 0 <= i < front.len() implies #[trigger] front[i].sweeps.len() <= usize::MAX by {
            assert(front[i] == volumes[i]);
        }
        lemma_all_candidates_range(front);
        let vi = (volumes.len() - 1) as nat;
        lemma_sweep_candidates_range(vi, volumes.last().sweeps);
        let a = all_candidates(front);
        let b = sweep_candidates(vi, volumes.last().sweeps);
        assert forall|k: int| 0 <= k < (a + b).len() implies names_sweep(#[trigger] (a + b)[k], volumes) by {
            if k < a.len() {
                assert((a + b)[k] == a[k]);
                assert(names_sweep(a[k], front));
                assert(volumes[a[k].volume_index as int] == front[a[k].volume_index as int]);
            } else {
                assert((a + b)[k] == b[k - a.len()]);
            }
        }
    }
}

proof fn lemma_sort_members(cs: Seq<Candidate>)
    ensures
        forall|k: int| 0 <= k < sort_desc(cs).len() ==> cs.contains(#[trigger] sort_desc(cs)[k]),
    decreases cs.len(),
{
    if cs.len() > 0 {
        let front = cs.drop_last();
        lemma_sort_members(front);
        let sorted = sort_desc(front);
        let p = insert_pos(sorted, cs.last().score as nat);
        lemma_insert_pos_bound(sorted, cs.last().score as nat);
        let out = sorted.insert(p as int, cs.last());
        assert forall|k: int| 0 <= k < out.len() implies cs.contains(#[trigger] out[k]) by {
            if k < p {
                assert(out[k] == sorted[k]);
                assert(front.contains(sorted[k]));
                let j = choose|j: int| 0 <= j < front.len() && front[j] == sorted[k];
                assert(cs[j] == front[j]);
            } else if k == p {
                assert(cs[cs.len() - 1] == cs.last());
            } else {
                assert(out[k] == sorted[k - 1]);
                assert(front.contains(sorted[k - 1]));
                let j = choose|j: int| 0 <= j < front.len() && front[j] == sorted[k - 1];
                assert(cs[j] == front[j]);
            }
        }
    }
}

proof fn lemma_best_in_range(volumes: Seq<VolumeModel>, max: nat, k: int)
    requires
        countable(volumes),
        0 <= k < best_candidates(volumes, max).len(),
    ensures
        names_sweep(best_candidates(volumes, max)[k], volumes),
{
    let cs = all_candidates(volumes);
    lemma_all_candidates_range(volumes);
    lemma_sort_members(cs);
    let sorted = sort_desc(cs);
    assert(best_candidates(volumes, max)[k] == sorted[k]);
    assert(cs.contains(sorted[k]));
    let j = choose|j: int| 0 <= j < cs.len() && cs[j] == sorted[k];
    assert(names_sweep(cs[j], volumes));
}

/// Plans a publish of decoded volumes; fails only when there are none.
pub fn publish_volumes(volumes: &Vec<Volume>, options: &BridgeOptions) -> (r: Result<PublishPlan, BridgeError>)
    ensures
        volumes@.len() == 0 <==> r matches Err(BridgeError::Empty),
        r matches Ok(plan) ==> plan_for(plan, volume_models(volumes@), *options),
        r is Ok || r matches Err(BridgeError::Empty),
{
    if volumes.len() == 0 {
        return Err(BridgeError::Empty);
    }
    let ghost models = volume_models(volumes@);
    let override_id: Option<&str> = match &options.site_override {
        Some(s) => Some(s.as_str()),
        None => None,
    };
    let site_id = site_id_for(volumes, override_id);
    let site_volume = find_site_volume(volumes);
    let sweep_count = count_sweeps(volumes);
    assert(countable(models));
    let mut config = crate::error::text("Site: ");
    push_str(&mut config, site_id.as_str());
    push_char(&mut config, '\n');
    let readme_text = crate::error::text("This folder is served in a GRLevel2/GR2Analyst-style polling layout.\nPNG and JSON outputs are live proof products. Native Archive II output is not enabled yet.\n");
    let best = render_candidates(volumes, options.max_images);
    let mut jobs: Vec<RenderJob> = Vec::new();
    let mut proof_files: Vec<String> = Vec::new();
    let mut k: usize = 0;
    while k < best.len()
        invariant
            k <= best@.len(),
            models == volume_models(volumes@),
            best@ == best_candidates(models, options.max_images as nat),
            countable(models),
            jobs@.len() == k,
            proof_files@.len() == k,
            forall|j: int| 0 <= j < k ==> #[trigger] job_matches(jobs@[j], best@[j], models),
            forall|j: int| 0 <= j < k ==> #[trigger] proof_files@[j]@ == jobs@[j].file_name@,
        decreases best@.len() - k,
    {
        let c = best[k];
        proof {
            lemma_best_in_range(models, options.max_images as nat, k as int);
            assert(models[c.volume_index as int] == volumes@[c.volume_index as int]@);
        }
        let volume = &volumes[c.volume_index];
        let sweep = &volume.sweeps[c.sweep_index];
        let name = proof_file_name(volume, c.sweep_index, sweep);
        let palette = ColorPalette::Auto.resolve(&sweep.product);
        proof { assert(palette == palette_for(ColorPalette::Auto, sweep.product)); }
        proof_files.push(name.clone());
        jobs.push(RenderJob { volume_index: c.volume_index, sweep_index: c.sweep_index, file_name: name, palette });
        k = k + 1;
    }
    let ghost files = texts(proof_files@);
    assert(files.len() == best@.len());
    let dir = dir_list(&proof_files);
    let root = root_index(site_id.as_str(), sweep_count);
    let station = station_index(site_id.as_str(), volumes.len(), sweep_count, &proof_files);
    let mut notes: Vec<String> = Vec::new();
    notes.push(crate::error::text("Polling directory shape is ready for GR2A testing."));
    notes.push(crate::error::text("Archive II emission is the remaining GR2A-ingest step."));
    assert(texts(notes@) =~= seq![
        "Polling directory shape is ready for GR2A testing."@,
        "Archive II emission is the remaining GR2A-ingest step."@,
    ]);
    assert(config@ =~= config_text(site_id@));
    let raw_root = options.raw_root.clone();
    let station_dir = path_join(options.raw_root.as_str(), site_id.as_str());
    let plan = PublishPlan {
        site_id,
        raw_root,
        station_dir,
        site_volume,
        volume_count: volumes.len(),
        sweep_count,
        config_text: config,
        readme_text,
        jobs,
        proof_files,
        dir_list: dir,
        root_index: root,
        station_index: station,
        notes,
    };
    Ok(plan)
}

/// What publishing an input plans: its decode error, else the plan for its
/// volumes (`Empty` when there are none).
pub open spec fn plan_outcome(r: Result<PublishPlan, BridgeError>, decoded: Result<Seq<VolumeModel>, DecodeFault>, options: BridgeOptions) -> bool {
    match decoded {
        Err(e) => r matches Err(BridgeError::Decode(d)) && d@ == e,
        Ok(volumes) => {
            &&& (volumes.len() == 0 <==> (r matches Err(BridgeError::Empty)))
            &&& (r is Ok || r matches Err(BridgeError::Empty))
            &&& (r matches Ok(plan) ==> plan_for(plan, volumes, options))
        },
    }
}

/// Decodes an input (`.tar` by name, else one GRIB2 message) and plans its
/// publish.
pub fn publish_bytes(bytes: &[u8], source_name: Option<&str>, options: &BridgeOptions) -> (r: Result<PublishPlan, BridgeError>)
    ensures
        plan_outcome(r, spec_decode_input(bytes@, opt_str(source_name)), *options),
{
    let volumes = match decode_input_bytes(bytes, source_name) {
        Ok(v) => v,
        Err(e) => return Err(BridgeError::Decode(e)),
    };
    publish_volumes(&volumes, options)
}

impl PublishPlan {
    /// The report of this publish, once written.
    pub fn report(&self) -> (r: PublishReport)
        ensures
            r.site_id@ == self.site_id@,
            r.raw_root@ == self.raw_root@,
            r.station_dir@ == self.station_dir@,
            r.volume_count == self.volume_count,
            r.sweep_count == self.sweep_count,
            texts(r.proof_files@) == texts(self.proof_files@),
            texts(r.notes@) == texts(self.notes@),
    {
        PublishReport {
            site_id: self.site_id.clone(),
            raw_root: self.raw_root.clone(),
            station_dir: self.station_dir.clone(),
            volume_count: self.volume_count,
            sweep_count: self.sweep_count,
            proof_files: clone_texts(&self.proof_files),
            notes: clone_texts(&self.notes),
        }
    }
}

/// A copy of a list of strings.
fn clone_texts(v: &Vec<String>) -> (r: Vec<String>)
    ensures
        texts(r@) == texts(v@),
{
    let mut out: Vec<String> = Vec::new();
    let mut i: usize = 0;
    while i < v.len()
        invariant
            i <= v@.len(),
            out@.len() == i,
            forall|k: int| 0 <= k < i ==> #[trigger] out@[k]@ == v@[k]@,
        decreases v@.len() - i,
    {
        let c = v[i].clone();
        out.push(c);
        i = i + 1;
    }
    assert(texts(out@) =~= texts(v@));
    out
}

/// Whether `c` is an ASCII digit or upper-case letter.
pub open spec fn is_upper_alnum(c: char) -> bool {
    (48 <= c as u32 <= 57) || (65 <= c as u32 <= 90)
}

proof fn lemma_alnum_upper_chars(s: Seq<char>)
    ensures
        forall|i: int| 0 <= i < alnum_upper(s).len() ==> is_upper_alnum(#[trigger] alnum_upper(s)[i]),
    decreases s.len(),
{
    if s.len() > 0 {
        lemma_alnum_upper_chars(s.drop_last());
        let a = alnum_upper(s.drop_last());
        let c = s.last();
        if is_ascii_alnum(c) {
            let b = seq![ascii_upper(c)];
            assert forall|i: int| 0 <= i < (a + b).len() implies is_upper_alnum(#[trigger] (a + b)[i]) by {
                if i < a.len() {
                    assert((a + b)[i] == a[i]);
                } else {
                    let u = c as u32;
                    assert((a + b)[i] == ascii_upper(c));
                    if 97 <= u <= 122 {
                        assert(((u - 32) as u8) as char as u32 == u - 32);
                    }
                }
            }
        } else {
            assert(alnum_upper(s) =~= a);
        }
    }
}

/// A served site id is one to four ASCII digits and upper-case letters.
pub proof fn site_id_is_short_upper_alnum(raw: Seq<char>)
    ensures
        1 <= site_id_text(raw).len() <= 4,
        forall|i: int| 0 <= i < site_id_text(raw).len() ==> is_upper_alnum(#[trigger] site_id_text(raw)[i]),
{
    lemma_alnum_upper_chars(raw);
    reveal_strlit("JMA1");
    let a = alnum_upper(raw);
    if a.len() > 4 {
        assert forall|i: int| 0 <= i < 4 implies is_upper_alnum(#[trigger] a.take(4)[i]) by {
            assert(a.take(4)[i] == a[i]);
        }
    }
}

/// Sanitising keeps the length, leaves only ASCII letters, digits and `_`,
/// and changes nothing more when repeated.
pub proof fn sanitize_is_stable(s: Seq<char>)
    ensures
        sanitized(s).len() == s.len(),
        forall|i: int| 0 <= i < s.len() ==> #[trigger] is_ascii_alnum(sanitized(s)[i]) || sanitized(s)[i] == '_',
        sanitized(sanitized(s)) == sanitized(s),
{
    assert(sanitized(sanitized(s)) =~= sanitized(s));
}

/// Whether `s` holds none of the characters that HTML markup is made of
/// (`<`, `>` and `"`).
pub open spec fn markup_free(s: Seq<char>) -> bool {
    forall|i: int| 0 <= i < s.len() ==> #[trigger] s[i] != '<' && s[i] != '>' && s[i] != '"'
}

/// Escaped text holds no `<`, `>` or `"`, whatever it was made from.
pub proof fn escaped_text_is_markup_free(s: Seq<char>)
    ensures
        markup_free(html_escaped(s)),
    decreases s.len(),
{
    if s.len() > 0 {
        escaped_text_is_markup_free(s.drop_last());
        let a = html_escaped(s.drop_last());
        let b = escape_char(s.last());
        reveal_strlit("&amp;");
        reveal_strlit("&lt;");
        reveal_strlit("&gt;");
        reveal_strlit("&quot;");
        assert(markup_free(b));
        assert forall|i: int| 0 <= i < (a + b).len() implies #[trigger] (a + b)[i] != '<' && (a + b)[i] != '>'
            && (a + b)[i] != '"' by {
            if i < a.len() {
                assert((a + b)[i] == a[i]);
            } else {
                assert((a + b)[i] == b[i - a.len()]);
            }
        }
    }
}

/// Whether candidates are in non-increasing order of score.
pub open spec fn score_ordered(cs: Seq<Candidate>) -> bool {
    forall|i: int, j: int| 0 <= i < j < cs.len() ==> #[trigger] cs[i].score >= #[trigger] cs[j].score
}

proof fn lemma_insert_pos(sorted: Seq<Candidate>, score: nat)
    ensures
        insert_pos(sorted, score) <= sorted.len(),
        forall|i: int| 0 <= i < insert_pos(sorted, score) ==> #[trigger] sorted[i].score >= score,
        insert_pos(sorted, score) < sorted.len() ==> sorted[insert_pos(sorted, score) as int].score < score,
    decreases sorted.len(),
{
    if sorted.len() > 0 && sorted[0].score >= score {
        lemma_insert_pos(sorted.drop_first(), score);
        assert forall|i: int| 0 <= i < insert_pos(sorted, score) implies #[trigger] sorted[i].score >= score by {
            if i > 0 {
                assert(sorted[i] == sorted.drop_first()[i - 1]);
            }
        }
    }
}

proof fn lemma_sort_ordered(cs: Seq<Candidate>)
    ensures
        score_ordered(sort_desc(cs)),
        forall|k: int| 0 <= k < sort_desc(cs).len() ==> cs.contains(#[trigger] sort_desc(cs)[k]),
    decreases cs.len(),
{
    lemma_sort_members(cs);
    if cs.len() > 0 {
        lemma_sort_ordered(cs.drop_last());
        let sorted = sort_desc(cs.drop_last());
        let c = cs.last();
        let p = insert_pos(sorted, c.score as nat) as int;
        lemma_insert_pos(sorted, c.score as nat);
        let out = sorted.insert(p, c);
        assert forall|i: int, j: int| 0 <= i < j < out.len() implies #[trigger] out[i].score >= #[trigger] out[j].score by {
            if j < p {
                assert(out[i] == sorted[i] && out[j] == sorted[j]);
            } else if j == p {
                assert(out[i] == sorted[i]);
            } else if i < p {
                assert(out[i] == sorted[i] && out[j] == sorted[j - 1]);
            } else if i == p {
                assert(out[j] == sorted[j - 1]);
                assert(sorted[p].score < c.score);
                if j - 1 > p {
                    assert(sorted[p].score >= sorted[j - 1].score);
                }
            } else {
                assert(out[i] == sorted[i - 1] && out[j] == sorted[j - 1]);
            }
        }
    }
}

/// The test for a candidate of score `s`.
pub open spec fn score_is(s: usize) -> spec_fn(Candidate) -> bool {
    |c: Candidate| c.score == s
}

/// The candidates of score `s`, in order.
pub open spec fn with_score(cs: Seq<Candidate>, s: usize) -> Seq<Candidate> {
    cs.filter(score_is(s))
}

/// Sorting best first is a stable permutation: the result is ordered by
/// non-increasing score, holds the same candidates as many times each, and
/// keeps the candidates of each score in their input order.
pub proof fn sort_desc_is_stable(cs: Seq<Candidate>)
    ensures
        score_ordered(sort_desc(cs)),
        sort_desc(cs).to_multiset() == cs.to_multiset(),
        forall|s: usize| #[trigger] with_score(sort_desc(cs), s) == with_score(cs, s),
    decreases cs.len(),
{
    lemma_sort_ordered(cs);
    if cs.len() == 0 {
        assert(sort_desc(cs) =~= cs);
    } else {
        let front = cs.drop_last();
        sort_desc_is_stable(front);
        lemma_sort_ordered(front);
        let sorted = sort_desc(front);
        let c = cs.last();
        let p = insert_pos(sorted, c.score as nat) as int;
        lemma_insert_pos(sorted, c.score as nat);
        let out = sorted.insert(p, c);
        assert(sort_desc(cs) == out);
        assert(cs =~= front.push(c));
        vstd::seq_lib::to_multiset_insert(sorted, p, c);
        vstd::seq_lib::to_multiset_build(front, c);
        assert forall|s: usize| #[trigger] with_score(out, s) == with_score(cs, s) by {
            let f = score_is(s);
            assert(with_score(sorted, s) == with_score(front, s));
            let a = sorted.take(p);
            let b = sorted.skip(p);
            assert(out =~= a + seq![c] + b);
            assert(sorted =~= a + b);
            assert(cs =~= front + seq![c]);
            Seq::filter_distributes_over_add(a, seq![c], f);
            Seq::filter_distributes_over_add(a + seq![c], b, f);
            Seq::filter_distributes_over_add(a, b, f);
            Seq::filter_distributes_over_add(front, seq![c], f);
            reveal_with_fuel(Seq::filter, 2);
            if c.score == s {
                assert(seq![c].filter(f) =~= seq![c]);
                assert(b.all(|x: Candidate| !f(x))) by {
                    assert forall|k: int| 0 <= k < b.len() implies !f(#[trigger] b[k]) by {
                        assert(b[k] == sorted[p + k]);
                        if k > 0 {
                            assert(sorted[p].score >= sorted[p + k].score);
                        }
                    }
                }
                b.lemma_all_neg_filter_empty(f);
                assert(b.filter(f) =~= Seq::<Candidate>::empty());
                assert(sorted.filter(f) =~= a.filter(f));
                assert(with_score(out, s) =~= a.filter(f) + seq![c]);
                assert(with_score(cs, s) =~= front.filter(f) + seq![c]);
            } else {
                assert(seq![c].filter(f) =~= Seq::<Candidate>::empty());
                assert(with_score(out, s) =~= a.filter(f) + b.filter(f));
                assert(with_score(cs, s) =~= front.filter(f));
            }
        }
    }
}

/// Every sweep's values can be counted in a `usize`, as those of a `Vec` can.
pub open spec fn values_countable(volumes: Seq<VolumeModel>) -> bool {
    forall|v: int, i: int| 0 <= v < volumes.len() && 0 <= i < volumes[v].sweeps.len()
        ==> #[trigger] volumes[v].sweeps[i].values.len() <= usize::MAX
}

proof fn lemma_candidates_positive(volumes: Seq<VolumeModel>)
    requires
        values_countable(volumes),
    ensures
        forall|k: int| 0 <= k < all_candidates(volumes).len() ==> #[trigger] all_candidates(volumes)[k].score > 0,
    decreases volumes.len(),
{
    if volumes.len() > 0 {
        assert forall|v: int, i: int| 0 <= v < volumes.drop_last().len() && 0 <= i < volumes.drop_last()[v].sweeps.len()
            implies #[trigger] volumes.drop_last()[v].sweeps[i].values.len() <= usize::MAX by {
            assert(volumes.drop_last()[v] == volumes[v]);
        }
        lemma_candidates_positive(volumes.drop_last());
        assert forall|i: int| 0 <= i < volumes.last().sweeps.len() implies #[trigger] volumes.last().sweeps[i].values.len() <= usize::MAX by {
            assert(volumes.last() == volumes[volumes.len() - 1]);
        }
        lemma_sweep_candidates_positive((volumes.len() - 1) as nat, volumes.last().sweeps);
        let a = all_candidates(volumes.drop_last());
        let b = sweep_candidates((volumes.len() - 1) as nat, volumes.last().sweeps);
        assert forall|k: int| 0 <= k < (a + b).len() implies #[trigger] (a + b)[k].score > 0 by {
            if k < a.len() {
                assert((a + b)[k] == a[k]);
            } else {
                assert((a + b)[k] == b[k - a.len()]);
            }
        }
    }
}

proof fn lemma_sweep_candidates_positive(vi: nat, sweeps: Seq<SweepModel>)
    requires
        forall|i: int| 0 <= i < sweeps.len() ==> #[trigger] sweeps[i].values.len() <= usize::MAX,
    ensures
        forall|k: int| 0 <= k < sweep_candidates(vi, sweeps).len() ==> #[trigger] sweep_candidates(vi, sweeps)[k].score > 0,
    decreases sweeps.len(),
{
    if sweeps.len() > 0 {
        assert forall|i: int| 0 <= i < sweeps.drop_last().len() implies #[trigger] sweeps.drop_last()[i].values.len() <= usize::MAX by {
            assert(sweeps.drop_last()[i] == sweeps[i]);
        }
        lemma_sweep_candidates_positive(vi, sweeps.drop_last());
        assert(sweeps.last().values.len() <= usize::MAX) by { assert(sweeps.last() == sweeps[sweeps.len() - 1]); }
        let a = sweep_candidates(vi, sweeps.drop_last());
        let sc = score_of(sweeps.last());
        lemma_interesting_le(sweeps.last().product, sweeps.last().decimal_scale, sweeps.last().values);
        if sc > 0 {
            let b = seq![Candidate { volume_index: vi as usize, sweep_index: (sweeps.len() - 1) as usize, score: sc as usize }];
            assert forall|k: int| 0 <= k < (a + b).len() implies #[trigger] (a + b)[k].score > 0 by {
                if k < a.len() {
                    assert((a + b)[k] == a[k]);
                } else {
                    assert((a + b)[k] == b[k - a.len()]);
                }
            }
        } else {
            assert(sweep_candidates(vi, sweeps) =~= a);
        }
    }
}

/// The sweeps chosen for images are at most `max`, each with something
/// worth drawing, best first.
pub proof fn best_candidates_are_ordered(volumes: Seq<VolumeModel>, max: nat)
    requires
        values_countable(volumes),
    ensures
        best_candidates(volumes, max).len() <= max,
        score_ordered(best_candidates(volumes, max)),
        forall|k: int| 0 <= k < best_candidates(volumes, max).len() ==> #[trigger] best_candidates(volumes, max)[k].score > 0,
{
    let cs = all_candidates(volumes);
    lemma_sort_ordered(cs);
    lemma_candidates_positive(volumes);
    let sorted = sort_desc(cs);
    let best = best_candidates(volumes, max);
    assert forall|k: int| 0 <= k < best.len() implies #[trigger] best[k].score > 0 by {
        assert(best[k] == sorted[k]);
        assert(cs.contains(sorted[k]));
    }
    assert forall|i: int, j: int| 0 <= i < j < best.len() implies #[trigger] best[i].score >= #[trigger] best[j].score by {
        assert(best[i] == sorted[i] && best[j] == sorted[j]);
    }
}

} // verus!

verus! {

/// Without an override, the served site id is that of the first sweep of the
/// first volume (in input order) that has a sweep, whatever later volumes
/// hold; with one, it is the override's.
pub proof fn served_site_is_first_station(volumes: Seq<VolumeModel>, i: int, override_id: Seq<char>)
    requires
        0 <= i < volumes.len(),
        volumes[i].sweeps.len() > 0,
        forall|j: int| 0 <= j < i ==> #[trigger] volumes[j].sweeps.len() == 0,
    ensures
        site_id_spec(volumes, None) == site_id_text(volumes[i].sweeps[0].site.id),
        site_id_spec(volumes, Some(override_id)) == site_id_text(override_id),
    decreases i,
{
    if i > 0 {
        assert(volumes[0].sweeps.len() == 0);
        let rest = volumes.drop_first();
        assert forall|j: int| 0 <= j < i - 1 implies #[trigger] rest[j].sweeps.len() == 0 by {
            assert(rest[j] == volumes[j + 1]);
        }
        assert(rest[i - 1] == volumes[i]);
        served_site_is_first_station(rest, i - 1, override_id);
        assert(first_station(volumes) == first_station(rest));
    }
}

/// Each planned image is of a sweep that exists, and its file name is the
/// image name of that sweep numbered by its own index inside its volume:
/// the name ends in `_sweep{NN}_elev{elevation}.png`, `NN` being the sweep's
/// index, whatever the index of its volume.
pub proof fn job_images_name_their_own_sweep(plan: PublishPlan, volumes: Seq<VolumeModel>, options: BridgeOptions)
    requires
        countable(volumes),
        plan_for(plan, volumes, options),
    ensures
        forall|k: int| 0 <= k < plan.jobs@.len() ==> {
            let j = #[trigger] plan.jobs@[k];
            let v = volumes[j.volume_index as int];
            let sw = v.sweeps[j.sweep_index as int];
            let tail = "_sweep"@ + padded(j.sweep_index as nat, 2) + "_elev"@ + elevation_text(
                sw.elevation_angle_centideg,
            ) + ".png"@;
            &&& j.volume_index < volumes.len()
            &&& j.sweep_index < v.sweeps.len()
            &&& j.file_name@ == image_file_name(v.source_name, sw, j.sweep_index as nat, true)
            &&& j.file_name@.len() >= tail.len()
            &&& j.file_name@.skip(j.file_name@.len() - tail.len()) == tail
        },
{
    let best = best_candidates(volumes, options.max_images as nat);
    assert forall|k: int| 0 <= k < plan.jobs@.len() implies {
        let j = #[trigger] plan.jobs@[k];
        let v = volumes[j.volume_index as int];
        let sw = v.sweeps[j.sweep_index as int];
        let tail = "_sweep"@ + padded(j.sweep_index as nat, 2) + "_elev"@ + elevation_text(
            sw.elevation_angle_centideg,
        ) + ".png"@;
        &&& j.volume_index < volumes.len()
        &&& j.sweep_index < v.sweeps.len()
        &&& j.file_name@ == image_file_name(v.source_name, sw, j.sweep_index as nat, true)
        &&& j.file_name@.len() >= tail.len()
        &&& j.file_name@.skip(j.file_name@.len() - tail.len()) == tail
    } by {
        let j = plan.jobs@[k];
        assert(job_matches(plan.jobs@[k], best[k], volumes));
        lemma_best_in_range(volumes, options.max_images as nat, k);
        let v = volumes[j.volume_index as int];
        let sw = v.sweeps[j.sweep_index as int];
        let tail = "_sweep"@ + padded(j.sweep_index as nat, 2) + "_elev"@ + elevation_text(
            sw.elevation_angle_centideg,
        ) + ".png"@;
        let name = image_file_name(v.source_name, sw, j.sweep_index as nat, true);
        let clean = |s: Seq<char>| sanitized_component(s);
        let source = match v.source_name {
            Some(s) => match path_stem_of(s) {
                Some(stem) => clean(stem),
                None => "jma"@,
            },
            None => "jma"@,
        };
        let head = source + seq!['_'] + clean(sw.site.id) + seq!['_'] + short_name_of(sw.product);
        assert(name =~= head + tail);
        assert((head + tail).skip(head.len() as int) =~= tail);
    }
}

/// A value counts as worth drawing exactly when the physical quantity it
/// stands for, `v * 10^-scale`, passes the product's threshold: at least
/// 5 dBZ of reflectivity, at least 0.5 m/s of velocity either way, and any
/// present value of another product. Scaling a value and its scale together
/// by ten leaves the answer unchanged, and a sweep's count is the number of
/// its values that pass.
pub proof fn interesting_values_pass_physical_thresholds(scale: u8, v: i16, values: Seq<Option<i16>>)
    ensures
        is_interesting(Product::Reflectivity, scale, Some(v)) <==> v >= 5 * pow10(scale as nat),
        is_interesting(Product::Velocity, scale, Some(v)) <==> 2 * (if v < 0 { -v } else { v as int }) >= pow10(
            scale as nat,
        ),
        forall|c: u8, n: u8| is_interesting(Product::Unknown { category: c, number: n }, scale, Some(v)),
        forall|p: Product| !is_interesting(p, scale, None),
        scale < 255 && -3276 <= v <= 3276 ==> forall|p: Product|
            is_interesting(p, scale, Some(v)) == #[trigger] is_interesting(p, (scale + 1) as u8, Some((10 * v) as i16)),
        forall|p: Product| #[trigger] interesting_in(p, scale, values) == values.filter(
            |x: Option<i16>| is_interesting(p, scale, x),
        ).len(),
{
    assert(pow10((scale + 1) as nat) == 10 * pow10(scale as nat));
    assert forall|p: Product| #[trigger] interesting_in(p, scale, values) == values.filter(
        |x: Option<i16>| is_interesting(p, scale, x),
    ).len() by {
        lemma_interesting_filter(p, scale, values);
    }
}

proof fn lemma_interesting_filter(p: Product, scale: u8, values: Seq<Option<i16>>)
    ensures
        interesting_in(p, scale, values) == values.filter(|x: Option<i16>| is_interesting(p, scale, x)).len(),
    decreases values.len(),
{
    reveal(Seq::filter);
    if values.len() > 0 {
        lemma_interesting_filter(p, scale, values.drop_last());
    }
}

} // verus!
