//! Minimal number conversions for tensor payloads. Single-precision numbers
//! are held by their bits.
use vstd::arithmetic::power2;
use vstd::prelude::*;

use crate::text;

verus! {

/// The bits of a half-precision number: sign, exponent and fraction.
pub open spec fn half_parts(bits: u16) -> (nat, nat, nat) {
    ((bits / 0x8000) as nat, ((bits / 1024) % 32) as nat, (bits % 1024) as nat)
}

/// The bits of a single-precision number: sign, exponent and fraction.
pub open spec fn single_parts(bits: u32) -> (nat, nat, nat) {
    (
        (bits / 0x8000_0000) as nat,
        ((bits / 0x80_0000) % 256) as nat,
        (bits % 0x80_0000) as nat,
    )
}

/// The magnitude of a finite half-precision number, in units of its least
/// one (two to the power of -24).
pub open spec fn half_magnitude(bits: u16) -> nat {
    let (_, e, f) = half_parts(bits);
    if e == 0 {
        f
    } else {
        (1024 + f) * power2::pow2((e - 1) as nat)
    }
}

/// The magnitude of a finite single-precision number, in units of its least
/// one (two to the power of -149).
pub open spec fn single_magnitude(bits: u32) -> nat {
    let (_, e, f) = single_parts(bits);
    if e == 0 {
        f
    } else {
        (0x80_0000 + f) * power2::pow2((e - 1) as nat)
    }
}

/// The bits of a single-precision number, put together.
fn single(sign: u32, exp: u32, frac: u32) -> (res: u32)
    requires
        sign <= 1,
        exp < 256,
        frac < 0x80_0000,
    ensures
        single_parts(res) == (sign as nat, exp as nat, frac as nat),
        res == sign * 0x8000_0000 + exp * 0x80_0000 + frac,
{
    sign * 0x8000_0000 + exp * 0x80_0000 + frac
}

/// A brain-float number is the upper half of a single-precision one.
pub fn bf16_bits_to_f32(bits: u16) -> (res: u32)
    ensures
        res == bits * 0x1_0000,
{
    bits as u32 * 0x1_0000
}

/// A half-precision number as a single-precision one: the same sign and the
/// same magnitude, or infinite, or not a number.
pub fn f16_bits_to_f32(bits: u16) -> (res: u32)
    ensures
        single_parts(res).0 == half_parts(bits).0,
        half_parts(bits).1 < 31 ==> single_parts(res).1 < 255 && single_magnitude(res)
            == half_magnitude(bits) * power2::pow2(125),
        1 <= half_parts(bits).1 < 31 ==> res == half_parts(bits).0 * 0x8000_0000 + (half_parts(
            bits,
        ).1 + 112) * 0x80_0000 + half_parts(bits).2 * 8192,
        half_parts(bits).1 == 31 && half_parts(bits).2 == 0 ==> single_parts(res).1 == 255
            && single_parts(res).2 == 0,
        half_parts(bits).1 == 31 && half_parts(bits).2 != 0 ==> single_parts(res).1 == 255
            && single_parts(res).2 == 0x40_0000,
{
    let sign: u32 = (bits / 0x8000) as u32;
    let exp: u32 = ((bits / 1024) % 32) as u32;
    let frac: u32 = (bits % 1024) as u32;
    if exp == 31 {
        return if frac == 0 {
            single(sign, 255, 0)
        } else {
            single(sign, 255, 0x40_0000)
        };
    }
    proof {
        vstd::arithmetic::power2::lemma2_to64();
        power2::lemma_pow2_adds(13, (exp + 111) as nat);
        if exp >= 1 {
            power2::lemma_pow2_adds((exp - 1) as nat, 125);
        }
    }
    if exp == 0 {
        if frac == 0 {
            let res = single(sign, 0, 0);
            assert(0 * power2::pow2(125) == 0) by (nonlinear_arith);
            return res;
        }
        // Below the normal numbers: shift the fraction up to its leading one.
        let mut m: u32 = frac;
        let mut k: u32 = 0;
        while m < 1024
            invariant
                1 <= frac < 1024,
                1 <= m < 2048,
                k <= 10,
                m == frac * power2::pow2(k as nat),
                k == 10 ==> m >= 1024,
                power2::pow2(k as nat) <= 1024,
                m < 1024 ==> k < 10,
            decreases 2048 - m,
        {
            proof {
                vstd::arithmetic::power2::lemma2_to64();
                power2::lemma_pow2_adds(1, k as nat);
                assert(frac * power2::pow2(k as nat) * 2 == frac * (2 * power2::pow2(k as nat))) by (
                nonlinear_arith);
                assert(power2::pow2((k + 1) as nat) <= 1024) by {
                    if k + 1 <= 10 {
                        if k + 1 < 10 {
                            vstd::arithmetic::power2::lemma_pow2_strictly_increases((k + 1) as nat, 10);
                        }
                    }
                }
                assert(k + 1 == 10 ==> 2 * m >= 1024) by {
                    if k + 1 == 10 {
                        assert(2 * m == frac * 1024);
                    }
                }
            }
            m = 2 * m;
            k = k + 1;
        }
        let res = single(sign, 113 - k, (m - 1024) * 8192);
        proof {
            power2::lemma_pow2_adds(13, (112 - k) as nat);
            power2::lemma_pow2_adds(k as nat, (125 - k) as nat);
            let p = power2::pow2((112 - k) as nat);
            let q = power2::pow2(k as nat);
            assert(0x80_0000 + (m - 1024) * 8192 == 8192 * m);
            assert(8192 * m * p == frac * (q * (8192 * p))) by (nonlinear_arith)
                requires
                    m == frac * q,
            ;
        }
        return res;
    }
    let res = single(sign, exp + 112, frac * 8192);
    proof {
        let p = power2::pow2((exp + 111) as nat);
        let q = power2::pow2((exp - 1) as nat);
        assert(0x80_0000 + frac * 8192 == 8192 * (1024 + frac));
        assert(8192 * (1024 + frac) * p == (1024 + frac) * (8192 * p)) by (nonlinear_arith);
        assert((1024 + frac) * q * power2::pow2(125) == (1024 + frac) * (q * power2::pow2(125))) by (
        nonlinear_arith);
    }
    res
}

/// The number of two bytes, the lower one first.
pub open spec fn le16(s: Seq<u8>, at: int) -> u16 {
    (s[at] + 0x100 * s[at + 1]) as u16
}

/// The number of four bytes, the lowest one first.
pub open spec fn le32(s: Seq<u8>, at: int) -> u32 {
    (s[at] + 0x100 * s[at + 1] + 0x1_0000 * s[at + 2] + 0x100_0000 * s[at + 3]) as u32
}

/// Whether the numbers `out` are what the bytes of a tensor say.
pub open spec fn decoded(data: Seq<u8>, dtype: Seq<char>, out: Seq<u32>) -> bool {
    if dtype == "F32"@ {
        out == Seq::new(data.len() / 4, |i: int| le32(data, 4 * i))
    } else if dtype == "BF16"@ {
        out == Seq::new(data.len() / 2, |i: int| (le16(data, 2 * i) * 0x1_0000) as u32)
    } else {
        out.len() == data.len() / 2 && forall|i: int|
            0 <= i < out.len() ==> widens(le16(data, 2 * i), #[trigger] out[i])
    }
}

/// Whether `single` is the half-precision number `half`.
pub open spec fn widens(half: u16, single: u32) -> bool {
    let (s, e, f) = half_parts(half);
    let (t, d, g) = single_parts(single);
    &&& s == t
    &&& e < 31 ==> d < 255 && single_magnitude(single) == half_magnitude(half) * power2::pow2(125)
    &&& 1 <= e < 31 ==> single == s * 0x8000_0000 + (e + 112) * 0x80_0000 + f * 8192
    &&& e == 31 && f == 0 ==> d == 255 && g == 0
    &&& e == 31 && f != 0 ==> d == 255 && g == 0x40_0000
}

/// What is wrong with the bytes of a tensor.
pub open spec fn decode_fault(data: Seq<u8>, dtype: Seq<char>) -> Option<Seq<char>> {
    if dtype == "F32"@ {
        if data.len() % 4 != 0 {
            Some("F32 tensor byte length not multiple of 4"@)
        } else {
            None
        }
    } else if dtype == "BF16"@ {
        if data.len() % 2 != 0 {
            Some("BF16 tensor byte length not multiple of 2"@)
        } else {
            None
        }
    } else if dtype == "F16"@ {
        if data.len() % 2 != 0 {
            Some("F16 tensor byte length not multiple of 2"@)
        } else {
            None
        }
    } else {
        Some("unsupported safetensors dtype for f32 load: "@ + dtype)
    }
}

/// The numbers that the bytes of a tensor say, given the name of their type.
pub fn bytes_to_f32_vec(data: &[u8], dtype: &str) -> (res: Result<Vec<u32>, String>)
    ensures
        match res {
            Ok(v) => decode_fault(data@, dtype@) is None && decoded(data@, dtype@, v@),
            Err(e) => decode_fault(data@, dtype@) == Some(e@),
        },
{
    let mut out: Vec<u32> = Vec::new();
    let len: usize = data.len();
    if text::same(dtype, "F32") {
        if len % 4 != 0 {
            return Err("F32 tensor byte length not multiple of 4".to_string());
        }
        let n: usize = len / 4;
        let mut i: usize = 0;
        while i < n
            invariant
                i <= n,
                4 * n == len == data@.len(),
                out@ == Seq::new(i as nat, |j: int| le32(data@, 4 * j)),
            decreases n - i,
        {
            let at: usize = 4 * i;
            out.push(
                data[at] as u32 + 0x100 * data[at + 1] as u32 + 0x1_0000 * data[at + 2] as u32
                    + 0x100_0000 * data[at + 3] as u32,
            );
            i += 1;
            assert(out@ =~= Seq::new(i as nat, |j: int| le32(data@, 4 * j)));
        }
        return Ok(out);
    }
    let brain = text::same(dtype, "BF16");
    if !brain && !text::same(dtype, "F16") {
        let mut m = "unsupported safetensors dtype for f32 load: ".to_string();
        m.append(dtype);
        return Err(m);
    }
    if len % 2 != 0 {
        return Err(
            if brain {
                "BF16 tensor byte length not multiple of 2".to_string()
            } else {
                "F16 tensor byte length not multiple of 2".to_string()
            },
        );
    }
    let n: usize = len / 2;
    let mut i: usize = 0;
    while i < n
        invariant
            i <= n,
            2 * n == len == data@.len(),
            out@.len() == i,
            forall|j: int|
                0 <= j < i ==> (brain ==> #[trigger] out@[j] == (le16(data@, 2 * j) * 0x1_0000) as u32)
                    && (!brain ==> widens(le16(data@, 2 * j), out@[j])),
        decreases n - i,
    {
        let at: usize = 2 * i;
        let half: u16 = data[at] as u16 + 0x100 * data[at + 1] as u16;
        out.push(
            if brain {
                bf16_bits_to_f32(half)
            } else {
                f16_bits_to_f32(half)
            },
        );
        i += 1;
    }
    assert(brain ==> out@ =~= Seq::new(n as nat, |j: int| (le16(data@, 2 * j) * 0x1_0000) as u32));
    Ok(out)
}

/// Numbers are read from their bytes, the lowest first: the bytes of a number
/// say that number, wherever they stand.
pub proof fn law_bytes_say_numbers(front: Seq<u8>, n: u32, m: u16, back: Seq<u8>)
    ensures
        le32(
            front + seq![
                (n % 0x100) as u8,
                ((n / 0x100) % 0x100) as u8,
                ((n / 0x1_0000) % 0x100) as u8,
                (n / 0x100_0000) as u8,
            ] + back,
            front.len() as int,
        ) == n,
        le16(
            front + seq![(m % 0x100) as u8, (m / 0x100) as u8] + back,
            front.len() as int,
        ) == m,
{
}

/// A tensor says as many numbers as its bytes hold: four bytes for a single
/// number, which is taken as it is, two for a brain float, which is the upper
/// half of a single number, and two for a half number.
pub proof fn law_decoded(data: Seq<u8>, out: Seq<u32>, i: int)
    ensures
        decoded(data, "F32"@, out) ==> out.len() == data.len() / 4 && (0 <= i < out.len() ==> out[i]
            == le32(data, 4 * i)),
        decoded(data, "BF16"@, out) ==> out.len() == data.len() / 2 && (0 <= i < out.len()
            ==> out[i] == 0x1_0000 * le16(data, 2 * i)),
        decoded(data, "F16"@, out) ==> out.len() == data.len() / 2 && (0 <= i < out.len()
            ==> widens(le16(data, 2 * i), out[i])),
        decode_fault(data, "F32"@) is None <==> data.len() % 4 == 0,
        decode_fault(data, "BF16"@) is None <==> data.len() % 2 == 0,
        decode_fault(data, "F16"@) is None <==> data.len() % 2 == 0,
{
    reveal_strlit("F32");
    reveal_strlit("BF16");
    reveal_strlit("F16");
    assert("F32"@.len() == 3 && "F16"@.len() == 3 && "BF16"@.len() == 4);
    assert("F32"@[1] == '3' && "F16"@[1] == '1');
    if decoded(data, "F16"@, out) && 0 <= i < out.len() {
        assert(widens(le16(data, 2 * i), out[i]));
    }
}

/// Other kinds of numbers are refused, by their name.
pub proof fn law_other_kinds_refused(data: Seq<u8>, dtype: Seq<char>)
    requires
        dtype != "F32"@,
        dtype != "BF16"@,
        dtype != "F16"@,
    ensures
        decode_fault(data, dtype) matches Some(m) && text::ends(m, dtype),
{
    let m = "unsupported safetensors dtype for f32 load: "@ + dtype;
    assert(m.skip(m.len() - dtype.len()) =~= dtype);
}

/// A half number keeps its sign, has its exponent moved from the bias of the one
/// form to that of the other, and its fraction filled up with zeros; infinite
/// stays infinite.
pub proof fn law_widened(sign: u16, exp: u16, frac: u16, single: u32)
    requires
        sign <= 1,
        exp < 32,
        frac < 1024,
        widens((sign * 0x8000 + exp * 1024 + frac) as u16, single),
    ensures
        1 <= exp <= 30 ==> single == sign * 0x8000_0000 + (exp + 112) * 0x80_0000 + frac * 8192,
        exp == 31 && frac == 0 ==> single == sign * 0x8000_0000 + 255 * 0x80_0000,
        exp == 31 && frac != 0 ==> single == sign * 0x8000_0000 + 255 * 0x80_0000 + 0x40_0000,
        single / 0x8000_0000 == sign,
{
    let half = (sign * 0x8000 + exp * 1024 + frac) as u16;
    assert(half_parts(half) == (sign as nat, exp as nat, frac as nat));
}

} // verus!
