//! The JMA run-length packing of data representation template 5.200.
//!
//! The packed stream is a sequence of `num_bits`-wide big-endian numbers. A
//! number up to `max_value` is a level; a larger number is a run marker that
//! repeats the last level. Consecutive markers form one run length written in
//! base `2^num_bits - (max_value + 1)`, least significant digit first.

use vstd::prelude::*;
use crate::error::{seq_result, text, text_number, text_number2, with_number, DecodeError, DecodeFault};

verus! {

/// `2^k`.
pub open spec fn pow2(k: nat) -> nat
    decreases k,
{
    if k == 0 { 1 } else { 2 * pow2((k - 1) as nat) }
}

/// Bit `p` of `bytes`, counting from the most significant bit of the first
/// byte.
pub open spec fn bit_at(bytes: Seq<u8>, p: int) -> nat {
    ((bytes[p / 8] >> ((7 - p % 8) as u8)) & 1u8) as nat
}

/// The `width`-bit unsigned number whose most significant bit is bit `start`.
pub open spec fn packed_value(bytes: Seq<u8>, start: int, width: nat) -> nat
    decreases width,
{
    if width == 0 {
        0
    } else {
        2 * packed_value(bytes, start, (width - 1) as nat) + bit_at(bytes, start + width - 1)
    }
}

proof fn lemma_packed_value_bound(bytes: Seq<u8>, start: int, width: nat)
    ensures
        packed_value(bytes, start, width) < pow2(width),
    decreases width,
{
    if width > 0 {
        lemma_packed_value_bound(bytes, start, (width - 1) as nat);
        let b = bytes[(start + width - 1) / 8];
        let sh = (7 - (start + width - 1) % 8) as u8;
        assert((b >> sh) & 1u8 <= 1u8) by (bit_vector);
    }
}

proof fn lemma_pow2_16()
    ensures
        pow2(16) == 65536,
{
    reveal_with_fuel(pow2, 17);
}

proof fn lemma_pow2_mono(a: nat, b: nat)
    requires
        a <= b,
    ensures
        pow2(a) <= pow2(b),
    decreases b,
{
    if a < b {
        lemma_pow2_mono(a, (b - 1) as nat);
    }
}

/// `2^n` for a packed width.
fn pow2_u32(n: u8) -> (p: u32)
    requires
        n <= 16,
    ensures
        p == pow2(n as nat),
    decreases n,
{
    proof { lemma_pow2_mono(n as nat, 16); lemma_pow2_16(); }
    if n == 0 {
        1
    } else {
        2 * pow2_u32(n - 1)
    }
}

/// What reading the next number at bit position `pos` gives: the number
/// and the position after it, or nothing and the same position once fewer
/// than `width` bits remain.
pub open spec fn next_step(bytes: Seq<u8>, width: nat, pos: nat) -> (Option<u16>, nat) {
    if pos + width <= bytes.len() * 8 {
        (Some(packed_value(bytes, pos as int, width) as u16), pos + width)
    } else {
        (None, pos)
    }
}

/// The bit position after `k` reads from the start of `bytes`.
pub open spec fn position_after(bytes: Seq<u8>, width: nat, k: nat) -> nat
    decreases k,
{
    if k == 0 { 0 } else { next_step(bytes, width, position_after(bytes, width, (k - 1) as nat)).1 }
}

/// What read number `k` (counting from zero) gives, after `k` earlier reads
/// from the start of `bytes`.
pub open spec fn read_result(bytes: Seq<u8>, width: nat, k: nat) -> Option<u16> {
    next_step(bytes, width, position_after(bytes, width, k)).0
}

/// Reads consecutive fixed-width numbers from a byte string.
pub struct BitValues<'a> {
    bytes: &'a [u8],
    width: u8,
    bit_pos: u128,
}

impl<'a> BitValues<'a> {
    /// The bytes read from.
    pub closed spec fn data(&self) -> Seq<u8> {
        self.bytes@
    }

    /// The width of each number, in bits.
    pub closed spec fn width(&self) -> nat {
        self.width as nat
    }

    /// The bit position of the next number.
    pub closed spec fn position(&self) -> nat {
        self.bit_pos as nat
    }

    /// Starts reading `width`-bit numbers at the first bit of `bytes`.
    pub fn new(bytes: &'a [u8], width: u8) -> (r: Self)
        ensures
            r.data() == bytes@,
            r.width() == width as nat,
            r.position() == 0,
    {
        BitValues { bytes, width, bit_pos: 0 }
    }

    /// The next number, or `None` once fewer than `width` bits remain.
    pub fn next(&mut self) -> (r: Option<u16>)
        requires
            1 <= old(self).width() <= 16,
            old(self).position() <= old(self).data().len() * 8,
        ensures
            final(self).data() == old(self).data(),
            final(self).width() == old(self).width(),
            (r, final(self).position()) == next_step(old(self).data(), old(self).width(), old(self).position()),
            old(self).position() + old(self).width() <= old(self).data().len() * 8 ==> {
                &&& r == Some(packed_value(old(self).data(), old(self).position() as int, old(self).width()) as u16)
                &&& final(self).position() == old(self).position() + old(self).width()
            },
            old(self).position() + old(self).width() > old(self).data().len() * 8 ==> {
                &&& r is None
                &&& final(self).position() == old(self).position()
            },
    {
        let total_bits: u128 = self.bytes.len() as u128 * 8;
        if self.bit_pos + self.width as u128 > total_bits {
            return None;
        }
        let ghost start = self.bit_pos as int;
        let mut value: u16 = 0;
        let mut j: u8 = 0;
        while j < self.width
            invariant
                1 <= self.width <= 16,
                j <= self.width,
                self.bytes@ == old(self).data(),
                self.width == old(self).width(),
                start == old(self).position(),
                self.bit_pos == start + j,
                start + self.width <= self.bytes@.len() * 8,
                total_bits == self.bytes@.len() * 8,
                self.bytes@.len() == self.bytes.len(),
                value as nat == packed_value(self.bytes@, start, j as nat),
            decreases self.width - j,
        {
            let byte = self.bytes[(self.bit_pos / 8) as usize];
            let shift: u8 = 7 - (self.bit_pos % 8) as u8;
            let bit: u16 = ((byte >> shift) & 1u8) as u16;
            proof {
                lemma_packed_value_bound(self.bytes@, start, j as nat);
                lemma_pow2_mono(j as nat, 15);
                reveal_with_fuel(pow2, 16);
                assert(pow2(15) == 32768);
                assert(bit as nat == bit_at(self.bytes@, start + j));
                let v = value;
                assert((byte >> shift) & 1u8 <= 1u8) by (bit_vector);
                assert(bit <= 1);
                assert(v < 32768);
                assert(v < 32768 && bit <= 1 ==> (v << 1u16) | bit == v * 2 + bit) by (bit_vector);
                assert((v << 1u16) | bit == v * 2 + bit);
            }
            let ghost old_value = value;
            value = (value << 1u16) | bit;
            self.bit_pos = self.bit_pos + 1;
            j = j + 1;
            proof {
                assert(value == old_value * 2 + bit);
                assert(packed_value(self.bytes@, start, j as nat)
                    == 2 * packed_value(self.bytes@, start, (j - 1) as nat) + bit_at(self.bytes@, start + j - 1));
            }
        }
        Some(value)
    }
}

proof fn lemma_read_count(len_bits: nat, width: nat, k: nat)
    requires
        width >= 1,
    ensures
        k <= len_bits / width ==> k * width <= len_bits,
        (k + 1) * width <= len_bits <==> k < len_bits / width,
{
    let n = len_bits / width;
    assert(n * width <= len_bits < (n + 1) * width) by (nonlinear_arith)
        requires width >= 1, n == len_bits / width;
    if k <= n {
        assert(k * width <= n * width) by (nonlinear_arith) requires k <= n, width >= 1;
    }
    if k < n {
        assert((k + 1) * width <= n * width) by (nonlinear_arith) requires k + 1 <= n, width >= 1;
    } else {
        assert((k + 1) * width >= (n + 1) * width) by (nonlinear_arith) requires k + 1 >= n + 1, width >= 1;
    }
}

/// A reader started at the first bit of `bytes` yields, read by read, the
/// `width`-bit numbers of the stream in order: after `k` reads that each gave
/// a number its position is `k * width`, and read `k` gives the number packed
/// at bit `k * width`. Exactly `bytes.len() * 8 / width` reads give a number;
/// every read after them gives none and leaves the position where it is.
pub proof fn bit_reader_reads_in_order(bytes: Seq<u8>, width: nat, k: nat)
    requires
        1 <= width <= 16,
    ensures
        k <= bytes.len() * 8 / width ==> position_after(bytes, width, k) == k * width,
        k > bytes.len() * 8 / width ==> position_after(bytes, width, k) == (bytes.len() * 8 / width) * width,
        read_result(bytes, width, k) == if k < bytes.len() * 8 / width {
            Some(packed_value(bytes, (k * width) as int, width) as u16)
        } else {
            None::<u16>
        },
    decreases k,
{
    let len_bits = bytes.len() * 8;
    let n = len_bits / width;
    lemma_read_count(len_bits, width, k);
    assert(k * width + width == (k + 1) * width) by (nonlinear_arith);
    if k == 0 {
        assert(k * width == 0) by (nonlinear_arith) requires k == 0;
    }
    if k > 0 {
        let j = (k - 1) as nat;
        bit_reader_reads_in_order(bytes, width, j);
        lemma_read_count(len_bits, width, j);
        assert(j * width + width == k * width) by (nonlinear_arith) requires j + 1 == k;
        assert(position_after(bytes, width, k) == next_step(bytes, width, position_after(bytes, width, j)).1);
        if j < n {
            assert(position_after(bytes, width, j) == j * width);
            assert(j * width + width <= len_bits);
            assert(position_after(bytes, width, k) == k * width);
        } else {
            lemma_read_count(len_bits, width, n);
            assert(n * width + width == (n + 1) * width) by (nonlinear_arith);
            assert(position_after(bytes, width, j) == n * width);
            assert(position_after(bytes, width, k) == n * width);
        }
    }
    if k <= n {
        assert(position_after(bytes, width, k) == k * width);
    } else {
        lemma_read_count(len_bits, width, n);
        assert(n * width + width == (n + 1) * width) by (nonlinear_arith);
        assert(position_after(bytes, width, k) == n * width);
    }
    let pos = position_after(bytes, width, k);
    if k < n {
        lemma_packed_value_bound(bytes, pos as int, width);
        lemma_pow2_mono(width, 16);
        lemma_pow2_16();
    }
}

/// The result of a decode that has stopped with `out`.
pub open spec fn rle_finish(out: Seq<u16>, expected: nat) -> Result<Seq<u16>, DecodeFault> {
    if out.len() == expected {
        Ok(out)
    } else {
        Err(DecodeFault::RunLength(
            with_number("decoded "@, out.len()) + with_number(" values, expected "@, expected),
        ))
    }
}

/// `k` copies of `v`.
pub open spec fn copies(v: u16, k: nat) -> Seq<u16> {
    Seq::new(k, |i: int| v)
}

/// The decode from bit position `pos` on, with `out` decoded so far, `cached`
/// the last level, `exp` the weight of the next run digit, levels below
/// `rlbase`, and run digits in base `lngu`.
pub open spec fn rle_run(
    bytes: Seq<u8>,
    width: nat,
    pos: nat,
    out: Seq<u16>,
    cached: Option<u16>,
    exp: nat,
    rlbase: nat,
    lngu: nat,
    expected: nat,
) -> Result<Seq<u16>, DecodeFault>
    decreases bytes.len() * 8 - pos,
{
    if width == 0 || pos + width > bytes.len() * 8 {
        rle_finish(out, expected)
    } else {
        let v = packed_value(bytes, pos as int, width);
        if v < rlbase {
            if out.len() >= expected {
                rle_finish(out, expected)
            } else {
                let out2 = out.push(v as u16);
                if out2.len() == expected {
                    rle_finish(out2, expected)
                } else {
                    rle_run(bytes, width, pos + width, out2, Some(v as u16), 1, rlbase, lngu, expected)
                }
            }
        } else {
            match cached {
                None => Err(DecodeFault::RunLength("first value is a run marker"@)),
                Some(prev) => {
                    let repeat = ((v - rlbase) * exp) as nat;
                    if out.len() + repeat > expected {
                        Err(DecodeFault::RunLength(
                            with_number("run expands past expected length "@, expected),
                        ))
                    } else if exp * lngu > usize::MAX {
                        Err(DecodeFault::RunLength("run exponent overflow"@))
                    } else {
                        let out2 = out + copies(prev, repeat);
                        if out2.len() == expected {
                            rle_finish(out2, expected)
                        } else {
                            rle_run(bytes, width, pos + width, out2, cached, exp * lngu, rlbase, lngu, expected)
                        }
                    }
                }
            }
        }
    }
}

/// The levels that run-length packed `bytes` decode to, `expected` of them.
pub open spec fn rle_decode(bytes: Seq<u8>, num_bits: u8, max_value: u16, expected: nat) -> Result<Seq<u16>, DecodeFault> {
    if num_bits == 0 || num_bits > 16 {
        Err(DecodeFault::RunLength(with_number("unsupported packed width "@, num_bits as nat)))
    } else if max_value == 65535 {
        Err(DecodeFault::RunLength("run-length base overflow"@))
    } else if max_value + 1 == pow2(num_bits as nat) {
        Err(DecodeFault::RunLength("invalid run-length base"@))
    } else {
        rle_run(
            bytes,
            num_bits as nat,
            0,
            Seq::empty(),
            None,
            1,
            (max_value + 1) as nat,
            (pow2(num_bits as nat) - (max_value + 1)) as nat,
            expected,
        )
    }
}

fn finish(out: Vec<u16>, expected_len: usize) -> (r: Result<Vec<u16>, DecodeError>)
    ensures
        seq_result(r) == rle_finish(out@, expected_len as nat),
{
    if out.len() != expected_len {
        let m = text_number2("decoded ", out.len() as u64, " values, expected ", expected_len as u64);
        return Err(DecodeError::RunLength(m));
    }
    Ok(out)
}

/// Decodes `expected_len` levels from run-length packed `bytes`.
pub fn run_length_decode(bytes: &[u8], num_bits: u8, max_value: u16, expected_len: usize) -> (r: Result<Vec<u16>, DecodeError>)
    ensures
        seq_result(r) == rle_decode(bytes@, num_bits, max_value, expected_len as nat),
        r matches Ok(levels) ==> levels@.len() == expected_len,
{
    proof { decoded_length_is_expected(bytes@, num_bits, max_value, expected_len as nat); }
    if num_bits == 0 || num_bits > 16 {
        let m = text_number("unsupported packed width ", num_bits as u64);
        return Err(DecodeError::RunLength(m));
    }
    if max_value == u16::MAX {
        return Err(DecodeError::RunLength(text("run-length base overflow")));
    }
    let rlbase: u16 = max_value + 1;
    let full: u32 = pow2_u32(num_bits);
    let lngu: usize = full.wrapping_sub(rlbase as u32) as usize;
    proof { lemma_pow2_mono(num_bits as nat, 16); lemma_pow2_16(); }
    if lngu == 0 {
        proof {
            assert(full as nat == rlbase as nat) by {
                if full < rlbase {
                    assert(full.wrapping_sub(rlbase as u32) != 0);
                }
            }
        }
        return Err(DecodeError::RunLength(text("invalid run-length base")));
    }
    let ghost spec_lngu: nat = (pow2(num_bits as nat) - rlbase) as nat;
    let mut out: Vec<u16> = Vec::new();
    let mut cached: Option<u16> = None;
    let mut exp: usize = 1;
    let mut bits = BitValues::new(bytes, num_bits);
    loop
        invariant
            bits.data() == bytes@,
            bits.width() == num_bits as nat,
            1 <= num_bits <= 16,
            bits.position() <= bytes@.len() * 8,
            out@.len() <= expected_len,
            rlbase as nat == max_value as nat + 1,
            full as nat == pow2(num_bits as nat),
            pow2(num_bits as nat) <= 65536,
            rlbase <= full ==> lngu as nat == spec_lngu,
            rlbase != full,
            lngu >= 1,
            exp >= 1,
            rle_run(bytes@, num_bits as nat, bits.position(), out@, cached, exp as nat, rlbase as nat, spec_lngu, expected_len as nat)
                == rle_decode(bytes@, num_bits, max_value, expected_len as nat),
        decreases bytes@.len() * 8 - bits.position(),
    {
        let ghost pos = bits.position();
        let next = bits.next();
        let value: u16 = match next {
            None => {
                return finish(out, expected_len);
            },
            Some(v) => v,
        };
        proof {
            lemma_packed_value_bound(bytes@, pos as int, num_bits as nat);
        }
        if value < rlbase {
            if out.len() >= expected_len {
                return finish(out, expected_len);
            }
            out.push(value);
            cached = Some(value);
            exp = 1;
        } else {
            let prev: u16 = match cached {
                None => {
                    return Err(DecodeError::RunLength(text("first value is a run marker")));
                },
                Some(p) => p,
            };
            let digit: usize = (value - rlbase) as usize;
            let room: usize = expected_len - out.len();
            let repeat: usize = match digit.checked_mul(exp) {
                None => {
                    let m = text_number("run expands past expected length ", expected_len as u64);
                    return Err(DecodeError::RunLength(m));
                },
                Some(k) => k,
            };
            if repeat > room {
                let m = text_number("run expands past expected length ", expected_len as u64);
                return Err(DecodeError::RunLength(m));
            }
            let ghost before = out@;
            let mut k: usize = 0;
            while k < repeat
                invariant
                    k <= repeat,
                    repeat <= expected_len - before.len(),
                    before.len() <= expected_len,
                    out@ == before + copies(prev, k as nat),
                decreases repeat - k,
            {
                out.push(prev);
                k = k + 1;
                assert(out@ =~= before + copies(prev, k as nat));
            }
            proof {
                assert(value as nat >= rlbase as nat);
                assert(rlbase <= full);
            }
            exp = match exp.checked_mul(lngu) {
                None => {
                    return Err(DecodeError::RunLength(text("run exponent overflow")));
                },
                Some(e) => {
                    assert(e >= 1) by (nonlinear_arith)
                        requires e == exp * lngu, exp >= 1, lngu >= 1;
                    e
                },
            };
        }
        if out.len() == expected_len {
            return finish(out, expected_len);
        }
    }
}

/// The `k`-th packed number of `width` bits.
pub open spec fn packed_at(bytes: Seq<u8>, width: nat, k: nat) -> nat {
    packed_value(bytes, (k * width) as int, width)
}

proof fn lemma_run_len(
    bytes: Seq<u8>,
    width: nat,
    pos: nat,
    out: Seq<u16>,
    cached: Option<u16>,
    exp: nat,
    rlbase: nat,
    lngu: nat,
    expected: nat,
)
    ensures
        rle_run(bytes, width, pos, out, cached, exp, rlbase, lngu, expected) matches Ok(v) ==> v.len() == expected,
    decreases bytes.len() * 8 - pos,
{
    if !(width == 0 || pos + width > bytes.len() * 8) {
        let v = packed_value(bytes, pos as int, width);
        if v < rlbase {
            if out.len() < expected {
                lemma_run_len(bytes, width, pos + width, out.push(v as u16), Some(v as u16), 1, rlbase, lngu, expected);
            }
        } else if let Some(prev) = cached {
            let repeat = ((v - rlbase) * exp) as nat;
            lemma_run_len(bytes, width, pos + width, out + copies(prev, repeat), cached, exp * lngu, rlbase, lngu, expected);
        }
    }
}

/// A successful decode yields exactly the expected number of levels.
pub proof fn decoded_length_is_expected(bytes: Seq<u8>, num_bits: u8, max_value: u16, expected: nat)
    ensures
        rle_decode(bytes, num_bits, max_value, expected) matches Ok(levels) ==> levels.len() == expected,
{
    lemma_run_len(
        bytes,
        num_bits as nat,
        0,
        Seq::empty(),
        None,
        1,
        (max_value + 1) as nat,
        (pow2(num_bits as nat) - (max_value + 1)) as nat,
        expected,
    );
}

proof fn lemma_literals(
    bytes: Seq<u8>,
    width: nat,
    k: nat,
    rlbase: nat,
    lngu: nat,
    expected: nat,
)
    requires
        1 <= width,
        k < expected,
        (expected * width) <= bytes.len() * 8,
        forall|i: nat| i < expected ==> #[trigger] packed_at(bytes, width, i) < rlbase,
    ensures
        rle_run(
            bytes,
            width,
            k * width,
            Seq::new(k, |i: int| packed_at(bytes, width, i as nat) as u16),
            if k == 0 { None } else { Some(packed_at(bytes, width, (k - 1) as nat) as u16) },
            1,
            rlbase,
            lngu,
            expected,
        ) == Ok::<Seq<u16>, DecodeFault>(Seq::new(expected, |i: int| packed_at(bytes, width, i as nat) as u16)),
    decreases expected - k,
{
    let all = Seq::new(expected, |i: int| packed_at(bytes, width, i as nat) as u16);
    let out = Seq::new(k, |i: int| packed_at(bytes, width, i as nat) as u16);
    assert(k * width + width == (k + 1) * width) by (nonlinear_arith);
    assert((k + 1) * width <= expected * width) by (nonlinear_arith)
        requires k < expected;
    assert(packed_at(bytes, width, k) < rlbase);
    let v = packed_value(bytes, (k * width) as int, width);
    assert(v == packed_at(bytes, width, k));
    let out2 = out.push(v as u16);
    assert(out2 =~= Seq::new(k + 1, |i: int| packed_at(bytes, width, i as nat) as u16));
    if k + 1 == expected {
        assert(out2 =~= all);
    } else {
        lemma_literals(bytes, width, k + 1, rlbase, lngu, expected);
    }
}

/// A stream with no run markers decodes to its first `expected` levels.
pub proof fn literal_levels_pass_through(bytes: Seq<u8>, num_bits: u8, max_value: u16, expected: nat)
    requires
        1 <= num_bits <= 16,
        max_value < 65535,
        max_value + 1 != pow2(num_bits as nat),
        1 <= expected,
        expected * num_bits <= bytes.len() * 8,
        forall|i: nat| i < expected ==> #[trigger] packed_at(bytes, num_bits as nat, i) <= max_value,
    ensures
        rle_decode(bytes, num_bits, max_value, expected)
            == Ok::<Seq<u16>, DecodeFault>(Seq::new(expected, |i: int| packed_at(bytes, num_bits as nat, i as nat) as u16)),
{
    let w = num_bits as nat;
    let rlbase = (max_value + 1) as nat;
    lemma_literals(bytes, w, 0, rlbase, (pow2(w) - rlbase) as nat, expected);
    assert(Seq::new(0, |i: int| packed_at(bytes, w, i as nat) as u16) =~= Seq::<u16>::empty());
    assert(0 * w == 0);
}

} // verus!
