//! The decisions of the command-line bridge: where a request is served
//! from, with which content type, which input to publish, and what a polling
//! root reports as its site.

use vstd::prelude::*;
use crate::model::{short_name_of, Product};
use crate::nict::NictProduct;
use crate::text::{
    ascii_ci_eq, chars_of, eq_ignore_ascii_case, string_from, strip, strip_back, strip_front, trim_pred,
};

verus! {

/// Whether `v[from..]` begins with `lit`.
fn starts_with_at(v: &Vec<char>, from: usize, lit: &str) -> (b: bool)
    requires
        from <= v@.len(),
    ensures
        b == (v@.len() - from >= lit@.len() && v@.subrange(from as int, from + lit@.len()) == lit@),
{
    let w = chars_of(lit);
    let vl = v.len();
    if vl - from < w.len() {
        return false;
    }
    let mut i: usize = 0;
    while i < w.len()
        invariant
            w@ == lit@,
            vl == v@.len(),
            from + w@.len() <= v@.len(),
            i <= w@.len(),
            forall|k: int| 0 <= k < i ==> v@[from + k] == w@[k],
        decreases w@.len() - i,
    {
        if v[from + i] != w[i] {
            assert(v@.subrange(from as int, from + lit@.len())[i as int] != lit@[i as int]);
            return false;
        }
        i = i + 1;
    }
    assert(v@.subrange(from as int, from + lit@.len()) =~= lit@);
    true
}

/// Whether the characters of `v` are exactly `lit`.
fn chars_eq(v: &Vec<char>, lit: &str) -> (b: bool)
    ensures
        b == (v@ == lit@),
{
    let r = v.len() == lit.unicode_len() && starts_with_at(v, 0, lit);
    assert(r ==> v@.subrange(0, v@.len() as int) =~= v@);
    assert(v@ == lit@ ==> v@.subrange(0, v@.len() as int) =~= v@);
    r
}

/// The test for `/`.
pub open spec fn slash_pred() -> spec_fn(char) -> bool {
    |c: char| c == '/'
}

/// The part of a request URL before its first `?`.
pub open spec fn before_query(u: Seq<char>) -> Seq<char>
    decreases u.len(),
{
    if u.len() == 0 || u[0] == '?' { Seq::empty() } else { seq![u[0]] + before_query(u.drop_first()) }
}

/// The file, relative to the public root, that a request path asks for.
pub open spec fn route(path: Seq<char>) -> Seq<char> {
    if path == "/"@ || path == "/level2/raw"@ || path == "/level2/raw/"@ {
        "level2/raw/index.html"@
    } else if path == "/customradars.gis"@ {
        "level2/raw/customradars.gis"@
    } else {
        strip_front(path, slash_pred())
    }
}

/// Whether `rel[i..]` starts a `/`-separated part that is exactly `..`.
pub open spec fn dotdot_part_at(rel: Seq<char>, i: int) -> bool {
    &&& i + 1 < rel.len()
    &&& rel[i] == '.' && rel[i + 1] == '.'
    &&& (i == 0 || rel[i - 1] == '/')
    &&& (i + 2 == rel.len() || rel[i + 2] == '/')
}

/// Whether character `i` of a relative path is `\`, `:`, or starts a part
/// that is `..`.
pub open spec fn bad_at(rel: Seq<char>, i: int) -> bool {
    rel[i] == '\\' || rel[i] == ':' || dotdot_part_at(rel, i)
}

/// Whether a relative path could leave the public root or name a drive: a
/// part is `..`, or a part holds `\` or `:`.
pub open spec fn unsafe_rel_path(rel: Seq<char>) -> bool {
    exists|i: int| 0 <= i < rel.len() && #[trigger] bad_at(rel, i)
}

/// The relative file a request URL is served from, or why it is refused.
pub open spec fn request_target(url: Seq<char>) -> Result<Seq<char>, Seq<char>> {
    let rel = route(before_query(url));
    if unsafe_rel_path(rel) { Err("invalid path"@) } else { Ok(rel) }
}

/// A string stripped of leading characters that satisfy `p` does not begin
/// with one.
proof fn lemma_strip_front_head(s: Seq<char>, p: spec_fn(char) -> bool)
    ensures
        strip_front(s, p).len() > 0 ==> !p(strip_front(s, p)[0]),
    decreases s.len(),
{
    if s.len() > 0 && p(s[0]) {
        lemma_strip_front_head(s.drop_first(), p);
    }
}

/// Whatever URL is requested, a file that is served lies under the public
/// root: its path is relative (it does not begin with `/`), no part of it is
/// `..`, and it holds no `\` and no `:`.
pub proof fn served_paths_stay_in_root(url: Seq<char>)
    ensures
        request_target(url) matches Ok(rel) ==> {
            &&& rel.len() > 0 ==> rel[0] != '/'
            &&& forall|i: int| 0 <= i < rel.len() ==> !dotdot_part_at(rel, i)
            &&& forall|i: int| 0 <= i < rel.len() ==> rel[i] != '\\' && rel[i] != ':'
        },
{
    let path = before_query(url);
    lemma_strip_front_head(path, slash_pred());
    reveal_strlit("level2/raw/index.html");
    reveal_strlit("level2/raw/customradars.gis");
    if let Ok(rel) = request_target(url) {
        assert forall|i: int| 0 <= i < rel.len() implies !dotdot_part_at(rel, i) && rel[i] != '\\' && rel[i]
            != ':' by {
            assert(!bad_at(rel, i));
        }
    }
}

/// The end of the part of `v` before its first `?`.
fn query_start(v: &Vec<char>) -> (n: usize)
    ensures
        n <= v@.len(),
        v@.take(n as int) == before_query(v@),
{
    let mut n: usize = 0;
    assert(v@.skip(0) =~= v@);
    assert(v@.take(0) + before_query(v@) =~= before_query(v@));
    while n < v.len() && v[n] != '?'
        invariant
            n <= v@.len(),
            forall|k: int| 0 <= k < n ==> v@[k] != '?',
            before_query(v@) == v@.take(n as int) + before_query(v@.skip(n as int)),
        decreases v@.len() - n,
    {
        let ghost rest = v@.skip(n as int);
        assert(rest.drop_first() =~= v@.skip(n + 1));
        assert(v@.take(n as int) + seq![v@[n as int]] =~= v@.take(n + 1));
        n = n + 1;
    }
    assert(before_query(v@.skip(n as int)) =~= Seq::<char>::empty());
    assert(v@.take(n as int) + Seq::<char>::empty() =~= v@.take(n as int));
    n
}

/// The file, relative to the public root, that a request URL asks for, or
/// `invalid path` for one that could leave the root.
pub fn request_path(url: &str) -> (r: Result<String, String>)
    ensures
        match r {
            Ok(rel) => request_target(url@) == Ok::<Seq<char>, Seq<char>>(rel@),
            Err(m) => request_target(url@) == Err::<Seq<char>, Seq<char>>(m@),
        },
{
    let all = chars_of(url);
    assert(all@.skip(0) =~= all@);
    let n = query_start(&all);
    let path_string = string_from(&all, 0, n);
    let path = chars_of(path_string.as_str());
    let ghost p = before_query(url@);
    assert(path@ == p) by { assert(all@.subrange(0, n as int) =~= all@.take(n as int)); }
    let rel: Vec<char> = if chars_eq(&path, "/") || chars_eq(&path, "/level2/raw") || chars_eq(&path, "/level2/raw/") {
        chars_of("level2/raw/index.html")
    } else if chars_eq(&path, "/customradars.gis") {
        chars_of("level2/raw/customradars.gis")
    } else {
        let mut start: usize = 0;
        let ghost slash = slash_pred();
        assert(path@.subrange(0, path@.len() as int) =~= path@);
        while start < path.len() && path[start] == '/'
            invariant
                start <= path@.len(),
                slash == slash_pred(),
                strip_front(path@, slash) == strip_front(path@.subrange(start as int, path@.len() as int), slash),
            decreases path@.len() - start,
        {
            let ghost rest = path@.subrange(start as int, path@.len() as int);
            assert(rest.drop_first() =~= path@.subrange(start + 1, path@.len() as int));
            assert(slash(rest[0]));
            start = start + 1;
        }
        let mut out: Vec<char> = Vec::new();
        let mut k: usize = start;
        while k < path.len()
            invariant
                start <= k <= path@.len(),
                out@ == path@.subrange(start as int, k as int),
            decreases path@.len() - k,
        {
            out.push(path[k]);
            k = k + 1;
            assert(out@ =~= path@.subrange(start as int, k as int));
        }
        proof {
            let rest = path@.subrange(start as int, path@.len() as int);
            if rest.len() > 0 {
                assert(!slash(rest[0]));
            }
            assert(out@ =~= rest);
        }
        out
    };
    assert(rel@ == route(p));
    assert(request_target(url@) == (if unsafe_rel_path(rel@) { Err("invalid path"@) } else { Ok(rel@) }));
    let len = rel.len();
    let mut i: usize = 0;
    while i < len
        invariant
            len == rel@.len(),
            request_target(url@) == (if unsafe_rel_path(rel@) { Err("invalid path"@) } else { Ok(rel@) }),
            i <= len,
            forall|j: int| 0 <= j < i ==> !#[trigger] bad_at(rel@, j),
        decreases len - i,
    {
        let c = rel[i];
        let dotdot = i + 1 < len && c == '.' && rel[i + 1] == '.' && (i == 0 || rel[i - 1] == '/')
            && (i + 2 == len || rel[i + 2] == '/');
        assert(dotdot == dotdot_part_at(rel@, i as int));
        if c == '\\' || c == ':' || dotdot {
            assert(bad_at(rel@, i as int));
            assert(unsafe_rel_path(rel@));
            return Err(crate::error::text("invalid path"));
        }
        assert(!dotdot_part_at(rel@, i as int));
        assert(rel@[i as int] != '\\');
        assert(rel@[i as int] != ':');
        assert(!bad_at(rel@, i as int));
        assert forall|j: int| 0 <= j < i + 1 implies !#[trigger] bad_at(rel@, j) by {
            if j == i {
                assert(rel@[j] == c);
            }
        }
        i = i + 1;
    }
    assert(rel@.subrange(0, len as int) =~= rel@);
    assert(!unsafe_rel_path(rel@));
    Ok(string_from(&rel, 0, len))
}

/// The content type that a served file's extension calls for.
pub open spec fn content_type_of(ext: Seq<char>) -> Seq<char> {
    if ext == "cfg"@ || ext == "gis"@ || ext == "txt"@ || ext == "list"@ {
        "text/plain; charset=utf-8"@
    } else if ext == "html"@ {
        "text/html; charset=utf-8"@
    } else if ext == "json"@ {
        "application/json"@
    } else if ext == "png"@ {
        "image/png"@
    } else {
        "application/octet-stream"@
    }
}

/// The content type of a served file by its extension (empty for none).
pub fn content_type(ext: &str) -> (r: &'static str)
    ensures
        r@ == content_type_of(ext@),
{
    let v = chars_of(ext);
    if chars_eq(&v, "cfg") || chars_eq(&v, "gis") || chars_eq(&v, "txt") || chars_eq(&v, "list") {
        "text/plain; charset=utf-8"
    } else if chars_eq(&v, "html") {
        "text/html; charset=utf-8"
    } else if chars_eq(&v, "json") {
        "application/json"
    } else if chars_eq(&v, "png") {
        "image/png"
    } else {
        "application/octet-stream"
    }
}

/// The index just past the line that starts at `from`: the next `\n`, or
/// the end.
pub open spec fn line_end(s: Seq<char>, from: int) -> int
    decreases s.len() - from,
{
    if from >= s.len() || s[from] == '\n' { from } else { line_end(s, from + 1) }
}

/// The line of `s` that starts at `from`, without its `\n` or `\r\n`.
pub open spec fn line_at(s: Seq<char>, from: int) -> Seq<char> {
    let e = line_end(s, from);
    let raw = s.subrange(from, e);
    if e < s.len() && raw.len() > 0 && raw.last() == '\r' { raw.drop_last() } else { raw }
}

/// What follows `Site:` on the first line from `from` on that starts so.
pub open spec fn site_line(s: Seq<char>, from: int) -> Option<Seq<char>>
    decreases s.len() - from,
{
    if from < 0 || from >= s.len() {
        None
    } else {
        let line = line_at(s, from);
        if line.len() >= 5 && line.take(5) == "Site:"@ {
            Some(line.skip(5))
        } else {
            proof { lemma_line_end(s, from); }
            if line_end(s, from) < s.len() { site_line(s, line_end(s, from) + 1) } else { None }
        }
    }
}

/// The site id that a `grlevel2.cfg` names: the trimmed rest of its first
/// `Site:` line, or `JMA1` where that is missing or empty.
pub open spec fn config_site(cfg: Seq<char>) -> Seq<char> {
    match site_line(cfg, 0) {
        Some(rest) => {
            let t = strip(rest, trim_pred(false));
            if t.len() == 0 { "JMA1"@ } else { t }
        },
        None => "JMA1"@,
    }
}

pub proof fn lemma_line_end(s: Seq<char>, from: int)
    requires
        0 <= from <= s.len(),
    ensures
        from <= line_end(s, from) <= s.len(),
        line_end(s, from) < s.len() ==> s[line_end(s, from)] == '\n',
        forall|k: int| from <= k < line_end(s, from) ==> s[k] != '\n',
    decreases s.len() - from,
{
    if from < s.len() && s[from] != '\n' {
        lemma_line_end(s, from + 1);
    }
}

/// The site id that a served `grlevel2.cfg` names.
pub fn site_from_config(cfg: &str) -> (r: String)
    ensures
        r@ == config_site(cfg@),
{
    let v = chars_of(cfg);
    let mut from: usize = 0;
    while from < v.len()
        invariant
            v@ == cfg@,
            from <= v@.len(),
            site_line(cfg@, 0) == site_line(cfg@, from as int),
        decreases v@.len() - from,
    {
        let mut e: usize = from;
        while e < v.len() && v[e] != '\n'
            invariant
                from <= e <= v@.len(),
                line_end(v@, from as int) == line_end(v@, e as int),
            decreases v@.len() - e,
        {
            e = e + 1;
        }
        let mut end: usize = e;
        if e < v.len() && end > from && v[end - 1] == '\r' {
            end = end - 1;
        }
        proof {
            let raw = v@.subrange(from as int, e as int);
            if e < v.len() && e > from && v@[e - 1] == '\r' {
                assert(raw.drop_last() =~= v@.subrange(from as int, end as int));
            }
        }
        let ghost line = line_at(v@, from as int);
        assert(line == v@.subrange(from as int, end as int));
        if starts_with_at(&v, from, "Site:") && end - from >= 5 {
            proof {
                reveal_strlit("Site:");
                assert(line.take(5) =~= v@.subrange(from as int, from + 5));
            }
            let rest = string_from(&v, from + 5, end);
            assert(rest@ =~= line.skip(5));
            let t = crate::text::trim_space_of(rest.as_str());
            if t.as_str().unicode_len() == 0 {
                return crate::error::text("JMA1");
            }
            return t;
        }
        proof {
            reveal_strlit("Site:");
            if line.len() >= 5 && line.take(5) == "Site:"@ {
                assert(v@.subrange(from as int, from + 5) =~= line.take(5));
            }
        }
        if e == v.len() {
            return crate::error::text("JMA1");
        }
        from = e + 1;
    }
    crate::error::text("JMA1")
}

/// `s` without trailing `/` characters.
pub fn trim_trailing_slashes(s: &str) -> (r: String)
    ensures
        r@ == strip_back(s@, slash_pred()),
{
    let v = chars_of(s);
    let mut end: usize = v.len();
    let ghost slash = slash_pred();
    assert(v@.subrange(0, v@.len() as int) =~= v@);
    while end > 0 && v[end - 1] == '/'
        invariant
            end <= v@.len(),
            v@ == s@,
            slash == slash_pred(),
            strip_back(s@, slash) == strip_back(v@.subrange(0, end as int), slash),
        decreases end,
    {
        assert(v@.subrange(0, end as int).drop_last() =~= v@.subrange(0, end - 1));
        assert(slash(v@.subrange(0, end as int).last()));
        end = end - 1;
    }
    proof {
        if end > 0 {
            assert(!slash(v@.subrange(0, end as int).last()));
        }
    }
    string_from(&v, 0, end)
}

/// The name of a product in summaries.
pub fn product_name(product: &Product) -> (r: &'static str)
    ensures
        r@ == short_name_of(*product),
{
    product.short_name()
}

/// Which NICT products the live bridge fetches.
#[derive(Clone, Copy, Debug, PartialEq, Eq, Structural)]
pub enum NictSet {
    N5,
    N6,
    Both,
}

impl NictSet {
    /// The products of the set.
    pub fn products(self) -> (r: Vec<NictProduct>)
        ensures
            r@ == match self {
                NictSet::N5 => seq![NictProduct::N5],
                NictSet::N6 => seq![NictProduct::N6],
                NictSet::Both => seq![NictProduct::N5, NictProduct::N6],
            },
    {
        let mut r: Vec<NictProduct> = Vec::new();
        match self {
            NictSet::N5 => r.push(NictProduct::N5),
            NictSet::N6 => r.push(NictProduct::N6),
            NictSet::Both => {
                r.push(NictProduct::N5);
                r.push(NictProduct::N6);
            },
        }
        assert(r@ =~= match self {
            NictSet::N5 => seq![NictProduct::N5],
            NictSet::N6 => seq![NictProduct::N6],
            NictSet::Both => seq![NictProduct::N5, NictProduct::N6],
        });
        r
    }
}

/// Where the live bridge takes its data from.
#[derive(Clone, Debug)]
pub enum LiveSource {
    Input(String),
    WatchDir(String),
    Url(String),
    NictLatest { products: NictSet, lookback_minutes: i64 },
}

/// The live source that the options name: a fixed input, else a watched
/// directory, else a URL, else the NICT feed.
pub fn live_source(
    input: Option<String>,
    watch_dir: Option<String>,
    url: Option<String>,
    nict_products: NictSet,
    nict_lookback_minutes: i64,
) -> (r: LiveSource)
    ensures
        input matches Some(p) ==> r == LiveSource::Input(p),
        input is None ==> (watch_dir matches Some(p) ==> r == LiveSource::WatchDir(p)),
        input is None && watch_dir is None ==> (url matches Some(u) ==> r == LiveSource::Url(u)),
        input is None && watch_dir is None && url is None ==> r == (LiveSource::NictLatest {
            products: nict_products,
            lookback_minutes: nict_lookback_minutes,
        }),
{
    match input {
        Some(p) => LiveSource::Input(p),
        None => match watch_dir {
            Some(p) => LiveSource::WatchDir(p),
            None => match url {
                Some(u) => LiveSource::Url(u),
                None => LiveSource::NictLatest { products: nict_products, lookback_minutes: nict_lookback_minutes },
            },
        },
    }
}

/// Whether a file extension marks a radar input: `tar`, `bin` or `grib2`
/// in any case.
pub open spec fn is_input_ext(ext: Seq<char>) -> bool {
    ascii_ci_eq(ext, "tar"@) || ascii_ci_eq(ext, "bin"@) || ascii_ci_eq(ext, "grib2"@)
}

/// Whether a file extension marks a radar input.
pub fn is_input_extension(ext: &str) -> (b: bool)
    ensures
        b == is_input_ext(ext@),
{
    eq_ignore_ascii_case(ext, "tar") || eq_ignore_ascii_case(ext, "bin") || eq_ignore_ascii_case(ext, "grib2")
}

/// The file that is newest by modification time: the last of those with the
/// greatest time, as a stable sort by time then taking the last gives.
pub fn latest_index(modified: &Vec<i128>) -> (r: Option<usize>)
    ensures
        modified@.len() == 0 <==> r is None,
        r matches Some(i) ==> {
            &&& i < modified@.len()
            &&& forall|j: int| 0 <= j < modified@.len() ==> modified@[j] <= modified@[i as int]
            &&& forall|j: int| i < j < modified@.len() ==> modified@[j] < modified@[i as int]
        },
{
    if modified.len() == 0 {
        return None;
    }
    let mut best: usize = 0;
    let mut i: usize = 1;
    while i < modified.len()
        invariant
            1 <= i <= modified@.len(),
            best < i,
            forall|j: int| 0 <= j < i ==> modified@[j] <= modified@[best as int],
            forall|j: int| best < j < i ==> modified@[j] < modified@[best as int],
        decreases modified@.len() - i,
    {
        if modified[i] >= modified[best] {
            best = i;
        }
        i = i + 1;
    }
    Some(best)
}

} // verus!
