use vstd::prelude::*;
use crate::color::Color3;
use crate::error::Error;
use crate::image::Image;

verus! {

/// The first newline at or after `pos`, or the end of the data.
pub open spec fn spec_eol(d: Seq<u8>, pos: int) -> int
    decreases d.len() - pos,
{
    if pos < 0 || pos >= d.len() {
        d.len() as int
    } else if d[pos] == 10 {
        pos
    } else {
        spec_eol(d, pos + 1)
    }
}

fn find_eol(d: &[u8], pos: usize) -> (r: usize)
    requires
        pos <= d@.len(),
    ensures
        r == spec_eol(d@, pos as int),
        pos <= r <= d@.len(),
        r < d@.len() ==> d@[r as int] == 10,
{
    let n = d.len();
    let mut i = pos;
    while i < n
        invariant
            pos <= i <= n,
            n == d@.len(),
            spec_eol(d@, pos as int) == spec_eol(d@, i as int),
        decreases n - i,
    {
        if d[i] == 10 {
            return i;
        }
        i = i + 1;
    }
    i
}

/// The line end with one trailing carriage return stripped.
pub open spec fn spec_strip_cr(d: Seq<u8>, a: int, b: int) -> int {
    if b > a && b - 1 < d.len() && d[b - 1] == 13 {
        b - 1
    } else {
        b
    }
}

fn strip_cr(d: &[u8], a: usize, b: usize) -> (r: usize)
    requires
        a <= b <= d@.len(),
    ensures
        r == spec_strip_cr(d@, a as int, b as int),
        a <= r <= b,
{
    if b > a && d[b - 1] == 13 {
        b - 1
    } else {
        b
    }
}

/// The first equals sign in `[a, b)`, or `b`.
pub open spec fn spec_find_eq(d: Seq<u8>, a: int, b: int) -> int
    decreases b - a,
{
    if a < 0 || a >= b || b > d.len() {
        b
    } else if d[a] == 61 {
        a
    } else {
        spec_find_eq(d, a + 1, b)
    }
}

fn find_eq(d: &[u8], a: usize, b: usize) -> (r: usize)
    requires
        a <= b <= d@.len(),
    ensures
        r == spec_find_eq(d@, a as int, b as int),
        a <= r <= b,
        r < b ==> d@[r as int] == 61,
{
    let mut i = a;
    while i < b
        invariant
            a <= i <= b,
            b <= d@.len(),
            spec_find_eq(d@, a as int, b as int) == spec_find_eq(d@, i as int, b as int),
        decreases b - i,
    {
        if d[i] == 61 {
            return i;
        }
        i = i + 1;
    }
    i
}

/// Whether the line is the radiance magic marker.
pub open spec fn spec_is_magic(d: Seq<u8>, a: int, b: int) -> bool {
    b - a == 10 && 0 <= a && b <= d.len() && d[a] == 35 && d[a + 1] == 63 && d[a + 2] == 82 && d[a
        + 3] == 65 && d[a + 4] == 68 && d[a + 5] == 73 && d[a + 6] == 65 && d[a + 7] == 78 && d[a
        + 8] == 67 && d[a + 9] == 69
}

fn is_magic(d: &[u8], a: usize, b: usize) -> (r: bool)
    requires
        a <= b <= d@.len(),
    ensures
        r == spec_is_magic(d@, a as int, b as int),
{
    b - a == 10 && d[a] == 35 && d[a + 1] == 63 && d[a + 2] == 82 && d[a + 3] == 65 && d[a + 4]
        == 68 && d[a + 5] == 73 && d[a + 6] == 65 && d[a + 7] == 78 && d[a + 8] == 67 && d[a + 9]
        == 69
}

/// Whether `[a, b)` spells `FORMAT`.
pub open spec fn spec_is_format_key(d: Seq<u8>, a: int, b: int) -> bool {
    b - a == 6 && 0 <= a && b <= d.len() && d[a] == 70 && d[a + 1] == 79 && d[a + 2] == 82 && d[a
        + 3] == 77 && d[a + 4] == 65 && d[a + 5] == 84
}

fn is_format_key(d: &[u8], a: usize, b: usize) -> (r: bool)
    requires
        a <= b <= d@.len(),
    ensures
        r == spec_is_format_key(d@, a as int, b as int),
{
    b - a == 6 && d[a] == 70 && d[a + 1] == 79 && d[a + 2] == 82 && d[a + 3] == 77 && d[a + 4]
        == 65 && d[a + 5] == 84
}

/// Whether `[a, b)` spells the one supported format, `32-bit_rle_rgbe`.
pub open spec fn spec_is_rle_format(d: Seq<u8>, a: int, b: int) -> bool {
    b - a == 15 && 0 <= a && b <= d.len() && d[a] == 51 && d[a + 1] == 50 && d[a + 2] == 45 && d[a
        + 3] == 98 && d[a + 4] == 105 && d[a + 5] == 116 && d[a + 6] == 95 && d[a + 7] == 114 && d[
        a + 8] == 108 && d[a + 9] == 101 && d[a + 10] == 95 && d[a + 11] == 114 && d[a + 12] == 103
        && d[a + 13] == 98 && d[a + 14] == 101
}

fn is_rle_format(d: &[u8], a: usize, b: usize) -> (r: bool)
    requires
        a <= b <= d@.len(),
    ensures
        r == spec_is_rle_format(d@, a as int, b as int),
{
    b - a == 15 && d[a] == 51 && d[a + 1] == 50 && d[a + 2] == 45 && d[a + 3] == 98 && d[a + 4]
        == 105 && d[a + 5] == 116 && d[a + 6] == 95 && d[a + 7] == 114 && d[a + 8] == 108 && d[a
        + 9] == 101 && d[a + 10] == 95 && d[a + 11] == 114 && d[a + 12] == 103 && d[a + 13] == 98
        && d[a + 14] == 101
}

/// Scans the parameter lines after the magic line: an empty line ends the
/// block and the next line holds the dimensions; a `FORMAT` parameter must
/// name the supported encoding; comments and other parameters are ignored.
pub open spec fn spec_scan_meta(d: Seq<u8>, pos: int) -> Result<int, Error>
    decreases d.len() + 1 - pos,
    via spec_scan_meta_dec
{
    if pos < 0 || pos >= d.len() {
        Result::Err(Error::HdrDecodingError)
    } else {
        let e = spec_eol(d, pos);
        let e2 = spec_strip_cr(d, pos, e);
        if e2 == pos {
            Result::Ok(e + 1)
        } else if d[pos] == 35 {
            spec_scan_meta(d, e + 1)
        } else {
            let q = spec_find_eq(d, pos, e2);
            if q == e2 {
                Result::Err(Error::HdrDecodingError)
            } else if spec_is_format_key(d, pos, q) && !spec_is_rle_format(d, q + 1, e2) {
                Result::Err(Error::HdrDecodingError)
            } else {
                spec_scan_meta(d, e + 1)
            }
        }
    }
}

proof fn lemma_eol_bounds(d: Seq<u8>, pos: int)
    requires
        0 <= pos <= d.len(),
    ensures
        pos <= spec_eol(d, pos) <= d.len(),
    decreases d.len() - pos,
{
    if pos < d.len() && d[pos] != 10 {
        lemma_eol_bounds(d, pos + 1);
    }
}

#[via_fn]
proof fn spec_scan_meta_dec(d: Seq<u8>, pos: int) {
    if 0 <= pos < d.len() {
        lemma_eol_bounds(d, pos);
    }
}

fn scan_meta(d: &[u8], pos: usize) -> (r: Result<usize, Error>)
    requires
        d@.len() <= 0x4000_0000,
        pos <= d@.len() + 1,
    ensures
        match r {
            Result::Ok(p) => spec_scan_meta(d@, pos as int) == Result::<int, Error>::Ok(
                p as int,
            ) && p <= d@.len() + 1,
            Result::Err(e) => spec_scan_meta(d@, pos as int) == Result::<int, Error>::Err(e),
        },
    decreases d@.len() + 1 - pos,
{
    if pos >= d.len() {
        return Result::Err(Error::HdrDecodingError);
    }
    let e = find_eol(d, pos);
    let e2 = strip_cr(d, pos, e);
    if e2 == pos {
        Result::Ok(e + 1)
    } else if d[pos] == 35 {
        scan_meta(d, e + 1)
    } else {
        let q = find_eq(d, pos, e2);
        if q == e2 {
            Result::Err(Error::HdrDecodingError)
        } else if is_format_key(d, pos, q) && !is_rle_format(d, q + 1, e2) {
            Result::Err(Error::HdrDecodingError)
        } else {
            scan_meta(d, e + 1)
        }
    }
}

/// The numeric value of the digit run `[a, b)`.
pub open spec fn spec_digits_val(d: Seq<u8>, a: int, b: int) -> int
    decreases b - a,
{
    if b <= a {
        0
    } else {
        spec_digits_val(d, a, b - 1) * 10 + (d[b - 1] - 48)
    }
}

/// Whether `[a, b)` is all decimal digits.
pub open spec fn spec_all_digits(d: Seq<u8>, a: int, b: int) -> bool {
    forall|i: int| a <= i < b ==> 48 <= #[trigger] d[i] <= 57
}

/// The parsed unsigned number, or nothing on an empty run, a stray byte, or
/// a value too large to represent.
pub open spec fn spec_parse_usize(d: Seq<u8>, a: int, b: int) -> Option<int> {
    if a < b && b <= d.len() && spec_all_digits(d, a, b) && spec_digits_val(d, a, b) <= usize::MAX {
        Option::Some(spec_digits_val(d, a, b))
    } else {
        Option::None
    }
}

proof fn lemma_digits_monotone(d: Seq<u8>, a: int, b1: int, b2: int)
    requires
        a <= b1 <= b2,
        spec_all_digits(d, a, b2),
        spec_digits_val(d, a, b1) >= 0,
    ensures
        spec_digits_val(d, a, b2) >= spec_digits_val(d, a, b1),
        spec_digits_val(d, a, b2) >= 0,
    decreases b2 - b1,
{
    if b1 < b2 {
        lemma_digits_monotone(d, a, b1, b2 - 1);
        let v = spec_digits_val(d, a, b2 - 1);
        assert(v * 10 >= v) by (nonlinear_arith)
            requires
                v >= 0,
        ;
    }
}

fn parse_usize(d: &[u8], a: usize, b: usize) -> (r: Option<usize>)
    requires
        a <= b <= d@.len(),
    ensures
        match r {
            Option::Some(v) => spec_parse_usize(d@, a as int, b as int) == Option::Some(v as int),
            Option::None => spec_parse_usize(d@, a as int, b as int) is None,
        },
{
    if a >= b {
        return Option::None;
    }
    let mut acc: u128 = 0;
    let mut i = a;
    while i < b
        invariant
            a <= i <= b,
            b <= d@.len(),
            spec_all_digits(d@, a as int, i as int),
            acc == spec_digits_val(d@, a as int, i as int),
            acc <= usize::MAX,
        decreases b - i,
    {
        let c = d[i];
        if c < 48 || c > 57 {
            proof {
                assert(!spec_all_digits(d@, a as int, b as int));
            }
            return Option::None;
        }
        acc = acc * 10 + ((c - 48) as u128);
        i = i + 1;
        if acc > (usize::MAX as u128) {
            proof {
                if spec_all_digits(d@, a as int, b as int) {
                    lemma_digits_monotone(d@, a as int, i as int, b as int);
                }
            }
            return Option::None;
        }
    }
    Option::Some(acc as usize)
}

/// The first non-space position at or after `a`, up to `b`.
pub open spec fn spec_skip_spaces(d: Seq<u8>, a: int, b: int) -> int
    decreases b - a,
{
    if a < 0 || a >= b || b > d.len() {
        b
    } else if d[a] == 32 {
        spec_skip_spaces(d, a + 1, b)
    } else {
        a
    }
}

fn skip_spaces(d: &[u8], a: usize, b: usize) -> (r: usize)
    requires
        a <= b <= d@.len(),
    ensures
        r == spec_skip_spaces(d@, a as int, b as int),
        a <= r <= b,
{
    let mut i = a;
    while i < b
        invariant
            a <= i <= b,
            b <= d@.len(),
            spec_skip_spaces(d@, a as int, b as int) == spec_skip_spaces(d@, i as int, b as int),
        decreases b - i,
    {
        if d[i] != 32 {
            return i;
        }
        i = i + 1;
    }
    i
}

/// The first space at or after `a`, up to `b`.
pub open spec fn spec_token_end(d: Seq<u8>, a: int, b: int) -> int
    decreases b - a,
{
    if a < 0 || a >= b || b > d.len() {
        b
    } else if d[a] != 32 {
        spec_token_end(d, a + 1, b)
    } else {
        a
    }
}

fn token_end(d: &[u8], a: usize, b: usize) -> (r: usize)
    requires
        a <= b <= d@.len(),
    ensures
        r == spec_token_end(d@, a as int, b as int),
        a <= r <= b,
{
    let mut i = a;
    while i < b
        invariant
            a <= i <= b,
            b <= d@.len(),
            spec_token_end(d@, a as int, b as int) == spec_token_end(d@, i as int, b as int),
        decreases b - i,
    {
        if d[i] == 32 {
            return i;
        }
        i = i + 1;
    }
    i
}

/// What the header gives: the image width and height and the position just
/// past the dimension line.
pub open spec fn spec_parse_header(d: Seq<u8>) -> Result<(int, int, int), Error> {
    let e0 = spec_eol(d, 0);
    let m0 = spec_strip_cr(d, 0, e0);
    if !spec_is_magic(d, 0, m0) {
        Result::Err(Error::HdrDecodingError)
    } else {
        match spec_scan_meta(d, e0 + 1) {
            Result::Err(err) => Result::Err(err),
            Result::Ok(dp) => {
                let de = spec_eol(d, dp);
                let de2 = spec_strip_cr(d, dp, de);
                let a1 = spec_skip_spaces(d, dp, de2);
                let b1 = spec_token_end(d, a1, de2);
                let a2 = spec_skip_spaces(d, b1, de2);
                let b2 = spec_token_end(d, a2, de2);
                let a3 = spec_skip_spaces(d, b2, de2);
                let b3 = spec_token_end(d, a3, de2);
                let a4 = spec_skip_spaces(d, b3, de2);
                let b4 = spec_token_end(d, a4, de2);
                if !(b1 - a1 == 2 && d[a1] == 45 && d[a1 + 1] == 89 && b3 - a3 == 2 && d[a3] == 43
                    && d[a3 + 1] == 88) {
                    Result::Err(Error::HdrDecodingError)
                } else {
                    match (spec_parse_usize(d, a2, b2), spec_parse_usize(d, a4, b4)) {
                        (Option::Some(h), Option::Some(w)) => Result::Ok((w, h, de + 1)),
                        _ => Result::Err(Error::ParseIntError),
                    }
                }
            },
        }
    }
}

/// Reads the radiance header: the magic line, the parameter block, then a
/// `-Y <height> +X <width>` dimension line.
pub fn parse_header(d: &[u8]) -> (r: Result<(usize, usize, usize), Error>)
    requires
        d@.len() <= 0x4000_0000,
    ensures
        match r {
            Result::Ok((w, h, p)) => spec_parse_header(d@) == Result::<(int, int, int), Error>::Ok(
                (w as int, h as int, p as int),
            ) && p <= d@.len() + 1,
            Result::Err(e) => spec_parse_header(d@) == Result::<(int, int, int), Error>::Err(e),
        },
{
    let e0 = find_eol(d, 0);
    let m0 = strip_cr(d, 0, e0);
    if !is_magic(d, 0, m0) {
        return Result::Err(Error::HdrDecodingError);
    }
    let dp = match scan_meta(d, e0 + 1) {
        Result::Ok(p) => p,
        Result::Err(err) => {
            return Result::Err(err);
        },
    };
    if dp > d.len() {
        proof {
            let de = spec_eol(d@, dp as int);
            assert(de == d@.len());
            let de2 = spec_strip_cr(d@, dp as int, de);
            assert(de2 == de);
            assert(spec_skip_spaces(d@, dp as int, de2) == de2);
            assert(spec_token_end(d@, de2, de2) == de2);
            assert(spec_skip_spaces(d@, de2, de2) == de2);
        }
        return Result::Err(Error::HdrDecodingError);
    }
    let de = find_eol(d, dp);
    let de2 = strip_cr(d, dp, de);
    let a1 = skip_spaces(d, dp, de2);
    let b1 = token_end(d, a1, de2);
    let a2 = skip_spaces(d, b1, de2);
    let b2 = token_end(d, a2, de2);
    let a3 = skip_spaces(d, b2, de2);
    let b3 = token_end(d, a3, de2);
    let a4 = skip_spaces(d, b3, de2);
    let b4 = token_end(d, a4, de2);
    if !(b1 - a1 == 2 && d[a1] == 45 && d[a1 + 1] == 89 && b3 - a3 == 2 && d[a3] == 43 && d[a3 + 1]
        == 88) {
        return Result::Err(Error::HdrDecodingError);
    }
    let h = parse_usize(d, a2, b2);
    let w = parse_usize(d, a4, b4);
    match (h, w) {
        (Option::Some(h), Option::Some(w)) => Result::Ok((w, h, de + 1)),
        _ => Result::Err(Error::ParseIntError),
    }
}

/// One color channel decoded from the shared-exponent byte encoding: the
/// mantissa scaled by two to the `e - 136`, as a saturating fixed-point
/// scalar.
pub open spec fn spec_decode_channel(c: u8, e: u8) -> i64 {
    if e >= 120 {
        if e - 120 >= 55 {
            if c == 0 {
                0
            } else {
                i64::MAX
            }
        } else {
            ((c as i64) << (e - 120)) as i64
        }
    } else {
        if 120 - e >= 64 {
            0
        } else {
            ((c as u64) >> (120 - e)) as i64
        }
    }
}

fn decode_channel(c: u8, e: u8) -> (r: i64)
    ensures
        r == spec_decode_channel(c, e),
{
    if e >= 120 {
        let k = e - 120;
        if k >= 55 {
            if c == 0 {
                0
            } else {
                i64::MAX
            }
        } else {
            proof {
                assert((c as i64) << k <= 0xff_i64 << 54 && (c as i64) << k >= 0) by (bit_vector)
                    requires
                        c <= 0xff && k < 55,
                ;
            }
            (c as i64) << k
        }
    } else {
        let k = 120 - e;
        if k >= 64 {
            0
        } else {
            proof {
                assert((c as u64) >> k <= 0xff) by (bit_vector)
                    requires
                        c <= 0xff,
                ;
            }
            ((c as u64) >> k) as i64
        }
    }
}

/// A run-length encoded component plane decoded back to one byte per pixel.
pub open spec fn spec_decode_rgbe(r: u8, g: u8, b: u8, e: u8) -> Color3 {
    Color3 {
        r: spec_decode_channel(r, e),
        g: spec_decode_channel(g, e),
        b: spec_decode_channel(b, e),
    }
}

pub fn decode_rgbe(r: u8, g: u8, b: u8, e: u8) -> (c: Color3)
    ensures
        c == spec_decode_rgbe(r, g, b, e),
{
    Color3 { r: decode_channel(r, e), g: decode_channel(g, e), b: decode_channel(b, e) }
}

/// Unpacks one run-length encoded component plane: `need` pixels, starting
/// at `pos`. A run longer than the pixels still owed, or truncated input,
/// fails instead of writing out of bounds.
pub open spec fn spec_unpack(d: Seq<u8>, pos: int, need: int) -> Option<(Seq<u8>, int)>
    decreases d.len() - pos,
{
    if need == 0 {
        Option::Some((Seq::empty(), pos))
    } else if pos < 0 || pos >= d.len() || need < 0 {
        Option::None
    } else {
        let count = d[pos];
        if count > 128 {
            let n = count - 128;
            if n > need || pos + 1 >= d.len() {
                Option::None
            } else {
                match spec_unpack(d, pos + 2, need - n) {
                    Option::Some((rest, p2)) => Option::Some(
                        (Seq::new(n as nat, |i: int| d[pos + 1]) + rest, p2),
                    ),
                    Option::None => Option::None,
                }
            }
        } else {
            let n = count as int;
            if n > need || pos + 1 + n > d.len() {
                Option::None
            } else {
                match spec_unpack(d, pos + 1 + n, need - n) {
                    Option::Some((rest, p2)) => Option::Some(
                        (Seq::new(n as nat, |i: int| d[pos + 1 + i]) + rest, p2),
                    ),
                    Option::None => Option::None,
                }
            }
        }
    }
}

fn unpack_component(d: &[u8], pos0: usize, need0: usize) -> (r: Result<(Vec<u8>, usize), Error>)
    requires
        d@.len() <= 0x4000_0000,
        pos0 <= d@.len(),
        need0 <= 0x1000_0000,
    ensures
        match r {
            Result::Ok((out, p)) => spec_unpack(d@, pos0 as int, need0 as int) == Option::Some(
                (out@, p as int),
            ) && out@.len() == need0 && p <= d@.len(),
            Result::Err(e) => spec_unpack(d@, pos0 as int, need0 as int) is None && e
                == Error::HdrDecodingError,
        },
    decreases d@.len() - pos0,
{
    if need0 == 0 {
        let out: Vec<u8> = Vec::new();
        proof {
            assert(out@ =~= Seq::<u8>::empty());
        }
        return Result::Ok((out, pos0));
    }
    if pos0 >= d.len() {
        return Result::Err(Error::HdrDecodingError);
    }
    let count = d[pos0];
    if count > 128 {
        let n = (count - 128) as usize;
        if n > need0 || pos0 + 1 >= d.len() {
            return Result::Err(Error::HdrDecodingError);
        }
        let v = d[pos0 + 1];
        match unpack_component(d, pos0 + 2, need0 - n) {
            Result::Ok((rest, p2)) => {
                let mut out: Vec<u8> = Vec::new();
                let mut i: usize = 0;
                while i < n
                    invariant
                        i <= n,
                        out@.len() == i,
                        forall|k: int| 0 <= k < i ==> out@[k] == v,
                    decreases n - i,
                {
                    out.push(v);
                    i = i + 1;
                }
                let mut i: usize = 0;
                let m = rest.len();
                while i < m
                    invariant
                        i <= m,
                        m == rest@.len(),
                        out@.len() == n + i,
                        forall|k: int| 0 <= k < n ==> out@[k] == v,
                        forall|k: int| 0 <= k < i ==> out@[n + k] == rest@[k],
                    decreases m - i,
                {
                    out.push(rest[i]);
                    i = i + 1;
                }
                proof {
                    assert(out@ =~= Seq::new(n as nat, |i: int| d@[pos0 + 1]) + rest@);
                }
                Result::Ok((out, p2))
            },
            Result::Err(e) => Result::Err(e),
        }
    } else {
        let n = count as usize;
        if n > need0 || pos0 + 1 + n > d.len() {
            return Result::Err(Error::HdrDecodingError);
        }
        match unpack_component(d, pos0 + 1 + n, need0 - n) {
            Result::Ok((rest, p2)) => {
                let mut out: Vec<u8> = Vec::new();
                let mut i: usize = 0;
                while i < n
                    invariant
                        i <= n,
                        pos0 + 1 + n <= d@.len(),
                        d@.len() <= 0x4000_0000,
                        out@.len() == i,
                        forall|k: int| 0 <= k < i ==> out@[k] == d@[pos0 + 1 + k],
                    decreases n - i,
                {
                    out.push(d[pos0 + 1 + i]);
                    i = i + 1;
                }
                let mut i: usize = 0;
                let m = rest.len();
                while i < m
                    invariant
                        i <= m,
                        m == rest@.len(),
                        pos0 + 1 + n <= d@.len(),
                        d@.len() <= 0x4000_0000,
                        out@.len() == n + i,
                        forall|k: int| 0 <= k < n ==> out@[k] == d@[pos0 + 1 + k],
                        forall|k: int| 0 <= k < i ==> out@[n + k] == rest@[k],
                    decreases m - i,
                {
                    out.push(rest[i]);
                    i = i + 1;
                }
                proof {
                    assert(out@ =~= Seq::new(n as nat, |i: int| d@[pos0 + 1 + i]) + rest@);
                }
                Result::Ok((out, p2))
            },
            Result::Err(e) => Result::Err(e),
        }
    }
}

/// One decoded scanline: the two marker bytes, the encoded width, then the
/// four component planes, combined pixel by pixel.
pub open spec fn spec_unpack_scanline(d: Seq<u8>, pos: int, width: int) -> Option<
    (Seq<Color3>, int),
> {
    if pos < 0 || pos + 4 > d.len() {
        Option::None
    } else if !(d[pos] == 2 && d[pos + 1] == 2) {
        Option::None
    } else if (d[pos + 2] as int) * 256 + (d[pos + 3] as int) != width {
        Option::None
    } else {
        match spec_unpack(d, pos + 4, width) {
            Option::None => Option::None,
            Option::Some((red, p1)) => match spec_unpack(d, p1, width) {
                Option::None => Option::None,
                Option::Some((green, p2)) => match spec_unpack(d, p2, width) {
                    Option::None => Option::None,
                    Option::Some((blue, p3)) => match spec_unpack(d, p3, width) {
                        Option::None => Option::None,
                        Option::Some((exp, p4)) => Option::Some(
                            (
                                Seq::new(
                                    width as nat,
                                    |i: int| spec_decode_rgbe(red[i], green[i], blue[i], exp[i]),
                                ),
                                p4,
                            ),
                        ),
                    },
                },
            },
        }
    }
}

pub fn unpack_rle_scanline(d: &[u8], pos: usize, width: usize) -> (r: Result<
    (Vec<Color3>, usize),
    Error,
>)
    requires
        d@.len() <= 0x4000_0000,
        pos <= d@.len(),
        width <= 0x1000_0000,
    ensures
        match r {
            Result::Ok((out, p)) => spec_unpack_scanline(d@, pos as int, width as int)
                == Option::Some((out@, p as int)) && out@.len() == width && p <= d@.len(),
            Result::Err(e) => spec_unpack_scanline(d@, pos as int, width as int) is None && e
                == Error::HdrDecodingError,
        },
{
    if pos + 4 > d.len() {
        return Result::Err(Error::HdrDecodingError);
    }
    if !(d[pos] == 2 && d[pos + 1] == 2) {
        return Result::Err(Error::HdrDecodingError);
    }
    let sw = (d[pos + 2] as usize) * 256 + (d[pos + 3] as usize);
    if sw != width {
        return Result::Err(Error::HdrDecodingError);
    }
    let (red, p1) = match unpack_component(d, pos + 4, width) {
        Result::Ok(x) => x,
        Result::Err(e) => {
            return Result::Err(e);
        },
    };
    let (green, p2) = match unpack_component(d, p1, width) {
        Result::Ok(x) => x,
        Result::Err(e) => {
            return Result::Err(e);
        },
    };
    let (blue, p3) = match unpack_component(d, p2, width) {
        Result::Ok(x) => x,
        Result::Err(e) => {
            return Result::Err(e);
        },
    };
    let (exp, p4) = match unpack_component(d, p3, width) {
        Result::Ok(x) => x,
        Result::Err(e) => {
            return Result::Err(e);
        },
    };
    let mut out: Vec<Color3> = Vec::new();
    let mut i: usize = 0;
    while i < width
        invariant
            i <= width,
            red@.len() == width,
            green@.len() == width,
            blue@.len() == width,
            exp@.len() == width,
            out@.len() == i,
            forall|k: int|
                0 <= k < i ==> out@[k] == spec_decode_rgbe(red@[k], green@[k], blue@[k], exp@[k]),
        decreases width - i,
    {
        out.push(decode_rgbe(red[i], green[i], blue[i], exp[i]));
        i = i + 1;
    }
    proof {
        assert(out@ =~= Seq::new(
            width as nat,
            |i: int| spec_decode_rgbe(red@[i], green@[i], blue@[i], exp@[i]),
        ));
    }
    Result::Ok((out, p4))
}

/// The scanlines of the image body, top row first.
pub open spec fn spec_scanlines(d: Seq<u8>, pos: int, width: int, rows: int) -> Option<
    Seq<Seq<Color3>>,
>
    decreases rows,
{
    if rows <= 0 {
        Option::Some(Seq::empty())
    } else {
        match spec_unpack_scanline(d, pos, width) {
            Option::None => Option::None,
            Option::Some((row, p2)) => match spec_scanlines(d, p2, width, rows - 1) {
                Option::None => Option::None,
                Option::Some(rest) => Option::Some(seq![row] + rest),
            },
        }
    }
}

proof fn lemma_scanlines_len(d: Seq<u8>, pos: int, width: int, rows: int)
    requires
        spec_scanlines(d, pos, width, rows) is Some,
    ensures
        spec_scanlines(d, pos, width, rows)->0.len() == if rows <= 0 {
            0int
        } else {
            rows
        },
    decreases rows,
{
    if rows > 0 {
        let step = spec_unpack_scanline(d, pos, width);
        lemma_scanlines_len(d, (step->0).1, width, rows - 1);
    }
}

/// Decodes a whole radiance image from its bytes. The decoder never reads
/// or writes out of bounds: malformed input is answered with an error.
pub fn parse(d: &[u8]) -> (r: Result<Image, Error>)
    requires
        d@.len() <= 0x4000_0000,
    ensures
        match r {
            Result::Ok(img) => {
                &&& img.wf()
                &&& (spec_parse_header(d@) matches Result::Ok((w, h, p)) && (img.spec_width() == w
                    && img.spec_height() == h && (spec_scanlines(d@, p, w, h) matches Option::Some(
                    rows,
                ) && forall|x: int, y: int|
                    0 <= x < img.spec_width() && 0 <= y < img.spec_height()
                        ==> #[trigger] img.spec_pixel(x, y) == rows[img.spec_height() - 1
                        - y][x])))
            },
            Result::Err(e) => {
                ||| spec_parse_header(d@) == Result::<(int, int, int), Error>::Err(e)
                ||| (spec_parse_header(d@) matches Result::Ok((w, h, p)) && e
                    == Error::HdrDecodingError && (w < 1 || h < 1 || w > 0x1000_0000 || h
                    > 0x1000_0000 || w > ((usize::MAX / 3) as int) / h || p > d@.len()
                    || spec_scanlines(d@, p, w, h) is None))
            },
        },
{
    let (width, height, start) = match parse_header(d) {
        Result::Ok(x) => x,
        Result::Err(e) => {
            return Result::Err(e);
        },
    };
    if width < 1 || height < 1 || width > 0x1000_0000 || height > 0x1000_0000 || width > (usize::MAX
        / 3) / height {
        return Result::Err(Error::HdrDecodingError);
    }
    if start > d.len() {
        return Result::Err(Error::HdrDecodingError);
    }
    proof {
        vstd::arithmetic::div_mod::lemma_fundamental_div_mod(
            (usize::MAX / 3) as int,
            height as int,
        );
        vstd::arithmetic::div_mod::lemma_mod_bound((usize::MAX / 3) as int, height as int);
        assert(width * height <= usize::MAX / 3) by (nonlinear_arith)
            requires
                1 <= height && 0 <= width && width <= ((usize::MAX / 3) as int) / (height as int)
                    && (usize::MAX / 3) as int == (height as int) * (((usize::MAX / 3) as int) / (
                height as int)) + ((usize::MAX / 3) as int) % (height as int) && 0 <= ((usize::MAX
                / 3) as int) % (height as int),
        ;
        assert((width * height) * 3 <= (usize::MAX / 3) * 3 <= usize::MAX) by (nonlinear_arith)
            requires
                width * height <= usize::MAX / 3,
        ;
    }
    let mut image = Image::new(width, height);
    let ghost grows = spec_scanlines(d@, start as int, width as int, height as int);
    proof {
        if grows is Some {
            lemma_scanlines_len(d@, start as int, width as int, height as int);
        }
    }
    let mut pos = start;
    let mut done: usize = 0;
    while done < height
        invariant
            done <= height,
            pos <= d@.len(),
            d@.len() <= 0x4000_0000,
            width <= 0x1000_0000,
            image.wf(),
            image.spec_width() == width,
            image.spec_height() == height,
            1 <= width,
            1 <= height,
            grows == spec_scanlines(d@, start as int, width as int, height as int),
            spec_parse_header(d@) == Result::<(int, int, int), Error>::Ok(
                (width as int, height as int, start as int),
            ),
            width <= ((usize::MAX / 3) as int) / (height as int),
            spec_scanlines(d@, pos as int, width as int, (height - done) as int) is Some
                ==> grows is Some,
            grows is Some ==> grows->0.len() == height && (spec_scanlines(
                d@,
                pos as int,
                width as int,
                (height - done) as int,
            ) matches Option::Some(rest) && forall|k: int|
                0 <= k < rest.len() ==> #[trigger] rest[k] == grows->0[done + k]),
            grows is Some ==> forall|x: int, y: int|
                0 <= x < width && height - done <= y < height ==> #[trigger] image.spec_pixel(
                    x,
                    y,
                ) == grows->0[height - 1 - y][x],
        decreases height - done,
    {
        let rowp = match unpack_rle_scanline(d, pos, width) {
            Result::Ok(x) => x,
            Result::Err(e) => {
                proof {
                    assert(spec_scanlines(d@, pos as int, width as int, (height - done) as int)
                        is None);
                    assert(grows is None);
                }
                return Result::Err(e);
            },
        };
        let (row, p2) = rowp;
        let y = height - 1 - done;
        let ghost img0 = image;
        let mut x: usize = 0;
        while x < width
            invariant
                x <= width,
                row@.len() == width,
                image.wf(),
                image.spec_width() == width,
                image.spec_height() == height,
                img0.spec_width() == width,
                img0.spec_height() == height,
                y < height,
                forall|k: int| 0 <= k < x ==> #[trigger] image.spec_pixel(k, y as int) == row@[k],
                forall|x2: int, y2: int|
                    0 <= x2 < width && 0 <= y2 < height && y2 != y ==> #[trigger] image.spec_pixel(
                        x2,
                        y2,
                    ) == img0.spec_pixel(x2, y2),
            decreases width - x,
        {
            image.set_pixel(x, y, row[x]);
            x = x + 1;
        }
        proof {
            let remaining = (height - done) as int;
            assert(spec_unpack_scanline(d@, pos as int, width as int) == Option::Some(
                (row@, p2 as int),
            ));
            if grows is Some {
                let rest = spec_scanlines(d@, pos as int, width as int, remaining)->0;
                let rest2 = spec_scanlines(d@, p2 as int, width as int, remaining - 1);
                assert(rest2 is Some);
                lemma_scanlines_len(d@, p2 as int, width as int, remaining - 1);
                assert(rest == seq![row@] + rest2->0);
                assert(rest[0] == row@);
                assert(grows->0[done as int] == row@);
                assert forall|k: int| 0 <= k < rest2->0.len() implies #[trigger] rest2->0[k]
                    == grows->0[done + 1 + k] by {
                    assert(rest[k + 1] == rest2->0[k]);
                }
                assert forall|x2: int, y2: int|
                    0 <= x2 < width && height - (done + 1) <= y2 < height implies #[trigger]
                image.spec_pixel(x2, y2) == grows->0[height - 1 - y2][x2] by {
                    if y2 == y as int {
                        assert(image.spec_pixel(x2, y as int) == row@[x2]);
                        assert(height - 1 - y2 == done as int);
                    } else {
                        assert(image.spec_pixel(x2, y2) == img0.spec_pixel(x2, y2));
                    }
                }
            } else {
                assert(spec_scanlines(d@, p2 as int, width as int, remaining - 1) is Some
                    ==> spec_scanlines(d@, pos as int, width as int, remaining) is Some);
            }
        }
        pos = p2;
        done = done + 1;
    }
    proof {
        if grows is None {
            assert(spec_scanlines(d@, pos as int, width as int, 0) == Option::Some(
                Seq::<Seq<Color3>>::empty(),
            ));
        }
    }
    Result::Ok(image)
}

} // verus!
