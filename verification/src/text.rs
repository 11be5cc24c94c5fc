//! Exact text building: decimal numbers, zero padding, and character tests.

use vstd::prelude::*;

verus! {

/// The character of a decimal digit.
pub open spec fn digit_char(d: nat) -> char {
    if d == 0 { '0' }
    else if d == 1 { '1' }
    else if d == 2 { '2' }
    else if d == 3 { '3' }
    else if d == 4 { '4' }
    else if d == 5 { '5' }
    else if d == 6 { '6' }
    else if d == 7 { '7' }
    else if d == 8 { '8' }
    else { '9' }
}

/// The decimal representation of `n`, without sign or leading zeros.
pub open spec fn decimal(n: nat) -> Seq<char>
    decreases n,
{
    if n < 10 {
        seq![digit_char(n)]
    } else {
        decimal(n / 10).push(digit_char(n % 10))
    }
}

/// `k` copies of the character `c`.
pub open spec fn repeat_char(c: char, k: nat) -> Seq<char>
    decreases k,
{
    if k == 0 { Seq::empty() } else { repeat_char(c, (k - 1) as nat).push(c) }
}

/// The decimal representation of `n`, padded on the left with zeros to at
/// least `width` characters.
pub open spec fn padded(n: nat, width: nat) -> Seq<char> {
    let d = decimal(n);
    if d.len() >= width { d } else { repeat_char('0', (width - d.len()) as nat) + d }
}

/// The decimal representation of a signed number; a minus sign counts towards
/// the width, and zeros stand between the sign and the digits.
pub open spec fn padded_signed(n: int, width: nat) -> Seq<char> {
    if n < 0 {
        seq!['-'] + padded((-n) as nat, if width > 0 { (width - 1) as nat } else { 0 })
    } else {
        padded(n as nat, width)
    }
}

/// Appends one character to a string.
///
/// Trusted: `String::push`, documented to append the character to the end of
/// the string.
#[verifier::external_body]
pub(crate) fn push_char(s: &mut String, c: char)
    ensures
        final(s)@ == old(s)@.push(c),
{
    s.push(c);
}

/// Appends the contents of a string slice.
pub fn push_str(s: &mut String, t: &str)
    ensures
        final(s)@ == old(s)@ + t@,
{
    s.append(t);
}

/// The character of a decimal digit.
pub fn digit(d: u64) -> (c: char)
    requires
        d < 10,
    ensures
        c == digit_char(d as nat),
{
    if d == 0 { '0' }
    else if d == 1 { '1' }
    else if d == 2 { '2' }
    else if d == 3 { '3' }
    else if d == 4 { '4' }
    else if d == 5 { '5' }
    else if d == 6 { '6' }
    else if d == 7 { '7' }
    else if d == 8 { '8' }
    else { '9' }
}

/// Appends the decimal representation of `n`.
pub fn push_decimal(s: &mut String, n: u64)
    ensures
        final(s)@ == old(s)@ + decimal(n as nat),
    decreases n,
{
    if n >= 10 {
        push_decimal(s, n / 10);
    }
    let c = digit(n % 10);
    push_char(s, c);
    proof {
        if n >= 10 {
            assert(decimal(n as nat) == decimal((n / 10) as nat).push(digit_char((n % 10) as nat)));
        }
        assert(final(s)@ =~= old(s)@ + decimal(n as nat));
    }
}

proof fn lemma_decimal_len_mono(n: nat)
    ensures
        decimal(n).len() >= 1,
        n >= 10 ==> decimal(n).len() == decimal(n / 10).len() + 1,
    decreases n,
{
    if n >= 10 {
        lemma_decimal_len_mono(n / 10);
    }
}

proof fn lemma_decimal_digits(n: nat)
    ensures
        forall|i: int| 0 <= i < decimal(n).len() ==> '0' <= #[trigger] decimal(n)[i] <= '9',
    decreases n,
{
    let c = digit_char(n % 10);
    assert('0' <= c <= '9');
    if n >= 10 {
        lemma_decimal_digits(n / 10);
        let p = decimal(n / 10);
        assert(decimal(n) == p.push(c));
        assert forall|i: int| 0 <= i < decimal(n).len() implies '0' <= #[trigger] decimal(n)[i] <= '9' by {
            if i < p.len() {
                assert(decimal(n)[i] == p[i]);
            }
        }
    } else {
        assert(digit_char(n) == c);
    }
}

proof fn lemma_repeat_char(c: char, k: nat)
    ensures
        repeat_char(c, k).len() == k,
        forall|i: int| 0 <= i < k ==> #[trigger] repeat_char(c, k)[i] == c,
    decreases k,
{
    if k > 0 {
        lemma_repeat_char(c, (k - 1) as nat);
    }
}

/// Every character of a zero-padded number is a decimal digit.
pub proof fn lemma_padded_digits(n: nat, w: nat)
    ensures
        forall|i: int| 0 <= i < padded(n, w).len() ==> '0' <= #[trigger] padded(n, w)[i] <= '9',
{
    lemma_decimal_digits(n);
    let d = decimal(n);
    if d.len() < w {
        let z = repeat_char('0', (w - d.len()) as nat);
        lemma_repeat_char('0', (w - d.len()) as nat);
        assert forall|i: int| 0 <= i < padded(n, w).len() implies '0' <= #[trigger] padded(n, w)[i] <= '9' by {
            if i < z.len() {
                assert(padded(n, w)[i] == z[i]);
            } else {
                assert(padded(n, w)[i] == d[i - z.len()]);
            }
        }
    }
}

/// `10^k`.
pub open spec fn pow10(k: nat) -> nat
    decreases k,
{
    if k == 0 { 1 } else { 10 * pow10((k - 1) as nat) }
}

proof fn lemma_decimal_len_bound(n: nat, k: nat)
    requires
        k >= 1,
        n < pow10(k),
    ensures
        decimal(n).len() <= k,
    decreases k,
{
    lemma_decimal_len_mono(n);
    if n >= 10 {
        assert(k >= 2) by {
            if k == 1 {
                assert(pow10(1) == 10) by { reveal_with_fuel(pow10, 2); }
            }
        }
        assert(n / 10 < pow10((k - 1) as nat));
        lemma_decimal_len_bound(n / 10, (k - 1) as nat);
    }
}

/// A number below `10^w` pads to exactly `w` characters.
pub proof fn lemma_padded_len(n: nat, w: nat)
    requires
        w >= 1,
        n < pow10(w),
    ensures
        padded(n, w).len() == w,
{
    lemma_decimal_len_bound(n, w);
    let d = decimal(n);
    if d.len() < w {
        lemma_repeat_char('0', (w - d.len()) as nat);
    }
}

/// Number of decimal digits of `n`.
pub fn decimal_len(n: u64) -> (len: usize)
    ensures
        len == decimal(n as nat).len(),
        1 <= len <= 20,
    decreases n,
{
    proof {
        lemma_decimal_len_mono(n as nat);
        reveal_with_fuel(pow10, 21);
        assert(pow10(20) == 100000000000000000000nat);
        lemma_decimal_len_bound(n as nat, 20);
    }
    if n < 10 {
        1
    } else {
        let rest = decimal_len(n / 10);
        rest + 1
    }
}

/// Appends `k` zeros.
pub fn push_zeros(s: &mut String, k: usize)
    ensures
        final(s)@ == old(s)@ + repeat_char('0', k as nat),
{
    let mut i: usize = 0;
    while i < k
        invariant
            i <= k,
            s@ == old(s)@ + repeat_char('0', i as nat),
        decreases k - i,
    {
        push_char(s, '0');
        i = i + 1;
        assert(repeat_char('0', i as nat) == repeat_char('0', (i - 1) as nat).push('0'));
        assert(s@ =~= old(s)@ + repeat_char('0', i as nat));
    }
}

/// Appends `n` in decimal, zero-padded to at least `width` characters.
pub fn push_padded(s: &mut String, n: u64, width: usize)
    ensures
        final(s)@ == old(s)@ + padded(n as nat, width as nat),
{
    let len = decimal_len(n);
    if len < width {
        push_zeros(s, width - len);
    }
    push_decimal(s, n);
    assert(final(s)@ =~= old(s)@ + padded(n as nat, width as nat));
}

/// Appends a signed number, zero-padded to at least `width` characters with the
/// sign in front of the zeros.
pub fn push_padded_signed(s: &mut String, n: i64, width: usize)
    ensures
        final(s)@ == old(s)@ + padded_signed(n as int, width as nat),
{
    if n < 0 {
        push_char(s, '-');
        let magnitude: u64 = if n == i64::MIN { 9223372036854775808u64 } else { (-n) as u64 };
        let w: usize = if width > 0 { width - 1 } else { 0 };
        push_padded(s, magnitude, w);
        assert(final(s)@ =~= old(s)@ + padded_signed(n as int, width as nat));
    } else {
        push_padded(s, n as u64, width);
    }
}

/// The characters of a string slice.
pub fn chars_of(s: &str) -> (v: Vec<char>)
    ensures
        v@ == s@,
{
    let mut v: Vec<char> = Vec::new();
    for c in it: s.chars()
        invariant
            v@ == it.seq().take(it.index() as int),
            it.seq() == s@,
    {
        v.push(c);
    }
    assert(v@ =~= s@);
    v
}

/// A string of the characters `v[from..to]`.
pub fn string_from(v: &Vec<char>, from: usize, to: usize) -> (s: String)
    requires
        from <= to <= v@.len(),
    ensures
        s@ == v@.subrange(from as int, to as int),
{
    let mut s = String::new();
    let mut i: usize = from;
    while i < to
        invariant
            from <= i <= to <= v@.len(),
            s@ == v@.subrange(from as int, i as int),
        decreases to - i,
    {
        push_char(&mut s, v[i]);
        i = i + 1;
        assert(s@ =~= v@.subrange(from as int, i as int));
    }
    s
}

/// The text that `String::from_utf8_lossy` makes of `bytes`.
pub uninterp spec fn lossy_text(bytes: Seq<u8>) -> Seq<char>;

/// Whether every byte is ASCII.
pub open spec fn all_ascii(bytes: Seq<u8>) -> bool {
    forall|i: int| 0 <= i < bytes.len() ==> bytes[i] < 128
}

/// Bytes decoded as UTF-8, each invalid sequence replaced by U+FFFD.
///
/// Trusted: `String::from_utf8_lossy`, whose result is named `lossy_text`;
/// its documentation says that valid UTF-8 comes back unchanged, so ASCII
/// bytes come back as the same characters. What it makes of other bytes is
/// left to the name.
#[verifier::external_body]
pub(crate) fn utf8_lossy(bytes: &[u8]) -> (s: String)
    ensures
        s@ == lossy_text(bytes@),
        all_ascii(bytes@) ==> s@ == Seq::new(bytes@.len(), |i: int| bytes@[i] as char),
{
    String::from_utf8_lossy(bytes).to_string()
}

/// Whether `c` has the Unicode `White_Space` property, as `char::is_whitespace`
/// documents.
pub open spec fn is_white_space(c: char) -> bool {
    let u = c as u32;
    ||| 9 <= u <= 13
    ||| u == 32
    ||| u == 0x85
    ||| u == 0xa0
    ||| u == 0x1680
    ||| 0x2000 <= u <= 0x200a
    ||| u == 0x2028
    ||| u == 0x2029
    ||| u == 0x202f
    ||| u == 0x205f
    ||| u == 0x3000
}

/// Whether `c` is the NUL character.
pub open spec fn is_nul(c: char) -> bool {
    c as u32 == 0
}

/// `c` has the `White_Space` property.
pub fn white_space(c: char) -> (b: bool)
    ensures
        b == is_white_space(c),
{
    let u = c as u32;
    (9 <= u && u <= 13) || u == 32 || u == 0x85 || u == 0xa0 || u == 0x1680
        || (0x2000 <= u && u <= 0x200a) || u == 0x2028 || u == 0x2029 || u == 0x202f
        || u == 0x205f || u == 0x3000
}

/// `s` without its longest prefix of characters satisfying `p`.
pub open spec fn strip_front(s: Seq<char>, p: spec_fn(char) -> bool) -> Seq<char>
    decreases s.len(),
{
    if s.len() > 0 && p(s[0]) { strip_front(s.drop_first(), p) } else { s }
}

/// `s` without its longest suffix of characters satisfying `p`.
pub open spec fn strip_back(s: Seq<char>, p: spec_fn(char) -> bool) -> Seq<char>
    decreases s.len(),
{
    if s.len() > 0 && p(s.last()) { strip_back(s.drop_last(), p) } else { s }
}

/// `s` without leading and trailing characters satisfying `p`, as
/// `str::trim_matches` does.
pub open spec fn strip(s: Seq<char>, p: spec_fn(char) -> bool) -> Seq<char> {
    strip_back(strip_front(s, p), p)
}

proof fn lemma_strip_front_skip(s: Seq<char>, p: spec_fn(char) -> bool, i: int)
    requires
        0 <= i <= s.len(),
        forall|j: int| 0 <= j < i ==> p(s[j]),
    ensures
        strip_front(s, p) == strip_front(s.subrange(i, s.len() as int), p),
    decreases i,
{
    if i > 0 {
        assert(s.drop_first().subrange(i - 1, s.drop_first().len() as int) =~= s.subrange(i, s.len() as int));
        lemma_strip_front_skip(s.drop_first(), p, i - 1);
    } else {
        assert(s.subrange(0, s.len() as int) =~= s);
    }
}

proof fn lemma_strip_back_skip(s: Seq<char>, p: spec_fn(char) -> bool, e: int)
    requires
        0 <= e <= s.len(),
        forall|j: int| e <= j < s.len() ==> p(s[j]),
    ensures
        strip_back(s, p) == strip_back(s.subrange(0, e), p),
    decreases s.len() - e,
{
    if e < s.len() {
        assert(s.drop_last().subrange(0, e) =~= s.subrange(0, e));
        lemma_strip_back_skip(s.drop_last(), p, e);
    } else {
        assert(s.subrange(0, e) =~= s);
    }
}

/// The NUL test (`nul`) or the white-space test (otherwise).
pub open spec fn trim_pred(nul: bool) -> spec_fn(char) -> bool {
    if nul { |c: char| is_nul(c) } else { |c: char| is_white_space(c) }
}

/// Whether `c` is NUL (`nul`) or white space (otherwise).
fn trimmed_char(c: char, nul: bool) -> (b: bool)
    ensures
        b == trim_pred(nul)(c),
{
    if nul { c as u32 == 0 } else { white_space(c) }
}

/// Bounds `start..end` such that `v[start..end]` is `v[from..to]` stripped of
/// NUL characters (`nul`) or of white space (otherwise) at both ends.
fn strip_bounds(v: &Vec<char>, from: usize, to: usize, nul: bool) -> (r: (usize, usize))
    requires
        from <= to <= v@.len(),
    ensures
        from <= r.0 <= r.1 <= to,
        v@.subrange(r.0 as int, r.1 as int) == strip(v@.subrange(from as int, to as int), trim_pred(nul)),
{
    let ghost p: spec_fn(char) -> bool = trim_pred(nul);
    let ghost s = v@.subrange(from as int, to as int);
    let mut start: usize = from;
    while start < to && trimmed_char(v[start], nul)
        invariant
            from <= start <= to <= v@.len(),
            forall|j: int| from <= j < start ==> trim_pred(nul)(v@[j]),
        decreases to - start,
    {
        start = start + 1;
    }
    proof {
        lemma_strip_front_skip(s, p, start - from);
        assert(s.subrange(start - from, s.len() as int) =~= v@.subrange(start as int, to as int));
    }
    let ghost front = v@.subrange(start as int, to as int);
    assert(strip_front(s, p) == front) by {
        if start < to {
            assert(!p(front[0]));
        }
    }
    let mut end: usize = to;
    while end > start && trimmed_char(v[end - 1], nul)
        invariant
            start <= end <= to <= v@.len(),
            forall|j: int| end <= j < to ==> trim_pred(nul)(v@[j]),
        decreases end - start,
    {
        end = end - 1;
    }
    proof {
        lemma_strip_back_skip(front, p, end - start);
        assert(front.subrange(0, end - start) =~= v@.subrange(start as int, end as int));
        let back = v@.subrange(start as int, end as int);
        if end > start {
            assert(!p(back.last()));
        }
    }
    (start, end)
}

/// `s` with NUL characters trimmed from both ends, then white space trimmed
/// from both ends.
pub open spec fn trim_nul_then_space(s: Seq<char>) -> Seq<char> {
    strip(strip(s, |c: char| is_nul(c)), |c: char| is_white_space(c))
}

/// Trims NUL characters, then white space, from both ends of `s`.
pub fn trim_nul_then_space_of(s: &str) -> (r: String)
    ensures
        r@ == trim_nul_then_space(s@),
{
    let v = chars_of(s);
    let (a, b) = strip_bounds(&v, 0, v.len(), true);
    assert(v@.subrange(0, v@.len() as int) =~= v@);
    let (c, d) = strip_bounds(&v, a, b, false);
    assert(trim_pred(true) == (|c: char| is_nul(c)));
    assert(trim_pred(false) == (|c: char| is_white_space(c)));
    string_from(&v, c, d)
}

/// Trims white space from both ends of `s`, as `str::trim` does.
pub fn trim_space_of(s: &str) -> (r: String)
    ensures
        r@ == strip(s@, trim_pred(false)),
{
    let v = chars_of(s);
    assert(v@.subrange(0, v@.len() as int) =~= v@);
    let (c, d) = strip_bounds(&v, 0, v.len(), false);
    string_from(&v, c, d)
}

/// Whether `c` is an ASCII letter or digit.
pub open spec fn is_ascii_alnum(c: char) -> bool {
    let u = c as u32;
    (48 <= u <= 57) || (65 <= u <= 90) || (97 <= u <= 122)
}

/// `c` with an ASCII lower-case letter made upper-case.
pub open spec fn ascii_upper(c: char) -> char {
    let u = c as u32;
    if 97 <= u <= 122 { ((u - 32) as u8) as char } else { c }
}

/// `c` with an ASCII upper-case letter made lower-case.
pub open spec fn ascii_lower(c: char) -> char {
    let u = c as u32;
    if 65 <= u <= 90 { ((u + 32) as u8) as char } else { c }
}

/// Whether two texts are equal when ASCII letters are compared without
/// regard to case.
pub open spec fn ascii_ci_eq(a: Seq<char>, b: Seq<char>) -> bool {
    &&& a.len() == b.len()
    &&& forall|i: int| 0 <= i < a.len() ==> ascii_lower(#[trigger] a[i]) == ascii_lower(b[i])
}

/// Whether `c` is an ASCII letter or digit.
pub fn ascii_alnum(c: char) -> (b: bool)
    ensures
        b == is_ascii_alnum(c),
{
    let u = c as u32;
    (48 <= u && u <= 57) || (65 <= u && u <= 90) || (97 <= u && u <= 122)
}

/// `c` made ASCII upper-case.
pub fn to_ascii_upper(c: char) -> (r: char)
    ensures
        r == ascii_upper(c),
{
    let u = c as u32;
    if 97 <= u && u <= 122 { ((u - 32) as u8) as char } else { c }
}

/// `c` made ASCII lower-case.
pub fn to_ascii_lower(c: char) -> (r: char)
    ensures
        r == ascii_lower(c),
{
    let u = c as u32;
    if 65 <= u && u <= 90 { ((u + 32) as u8) as char } else { c }
}

/// Whether `a` equals `b` ignoring ASCII case.
pub fn eq_ignore_ascii_case(a: &str, b: &str) -> (r: bool)
    ensures
        r == ascii_ci_eq(a@, b@),
{
    let x = chars_of(a);
    let y = chars_of(b);
    if x.len() != y.len() {
        return false;
    }
    let mut i: usize = 0;
    while i < x.len()
        invariant
            x@ == a@,
            y@ == b@,
            x@.len() == y@.len(),
            i <= x@.len(),
            forall|j: int| 0 <= j < i ==> ascii_lower(#[trigger] x@[j]) == ascii_lower(y@[j]),
        decreases x@.len() - i,
    {
        if to_ascii_lower(x[i]) != to_ascii_lower(y[i]) {
            return false;
        }
        i = i + 1;
    }
    true
}

/// Appends the characters of `v`.
pub fn push_chars(s: &mut String, v: &Vec<char>)
    ensures
        final(s)@ == old(s)@ + v@,
{
    let mut i: usize = 0;
    while i < v.len()
        invariant
            i <= v@.len(),
            s@ == old(s)@ + v@.take(i as int),
        decreases v@.len() - i,
    {
        push_char(s, v[i]);
        i = i + 1;
        assert(s@ =~= old(s)@ + v@.take(i as int));
    }
    assert(v@.take(v@.len() as int) =~= v@);
}

} // verus!
