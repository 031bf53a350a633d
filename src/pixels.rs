//! Raw pixel data: reading pixels from lines of hexadecimal bytes, and laying
//! pixels out as an RGB buffer.
use vstd::prelude::*;
use crate::convert::pixel_to_rgb;
use crate::convert::rgb332_spec;
use crate::convert::rgb565_spec;
use crate::convert::rgb888_spec;
use crate::convert::BinFileFormat;
use crate::convert::ColorFormat;
use crate::numbers::parse_unsigned;
use crate::numbers::parsed_unsigned;
use crate::text::split_on_spaces;
use crate::text::split_spaces;
use crate::text::trim_end;
use crate::text::trim_trailing;
use crate::text::views;

verus! {

/// The byte that a token writes in hexadecimal, as `u8::from_str_radix(t, 16)` reads it.
pub open spec fn hex_byte(t: Seq<char>) -> Option<u8> {
    match parsed_unsigned(t, 16, 255) {
        Some(v) => Some(v as u8),
        None => None,
    }
}

/// The bytes of a line's tokens; `None` if one is not a byte in hexadecimal.
pub open spec fn tokens_bytes(toks: Seq<Seq<char>>) -> Option<Seq<u8>>
    decreases toks.len(),
{
    if toks.len() == 0 {
        Some(Seq::empty())
    } else {
        match (tokens_bytes(toks.drop_last()), hex_byte(toks.last())) {
            (Some(bs), Some(b)) => Some(bs.push(b)),
            _ => None,
        }
    }
}

/// Bytes read as a number, most significant first.
pub open spec fn pack_be(bs: Seq<u8>) -> nat
    decreases bs.len(),
{
    if bs.len() == 0 {
        0
    } else {
        pack_be(bs.drop_last()) * 256 + bs.last() as nat
    }
}

/// Bytes read as a number, least significant first.
pub open spec fn pack_le(bs: Seq<u8>) -> nat
    decreases bs.len(),
{
    if bs.len() == 0 {
        0
    } else {
        pack_le(bs.drop_first()) * 256 + bs.first() as nat
    }
}

pub open spec fn pack(bs: Seq<u8>, little: bool) -> nat {
    if little {
        pack_le(bs)
    } else {
        pack_be(bs)
    }
}

/// The pixels of a byte sequence, `n` bytes each; a shorter rest is dropped.
pub open spec fn samples(bs: Seq<u8>, n: nat, little: bool) -> Seq<u32>
    decreases bs.len(),
{
    if n == 0 || bs.len() < n {
        Seq::empty()
    } else {
        seq![pack(bs.take(n as int), little) as u32] + samples(bs.skip(n as int), n, little)
    }
}

/// The pixels of one line: none for a blank line; `None` if a token is not a byte.
pub open spec fn line_pixels(line: Seq<char>, n: nat, little: bool) -> Option<Seq<u32>> {
    let t = trim_end(line);
    if t.len() == 0 {
        Some(Seq::empty())
    } else {
        match tokens_bytes(split_spaces(t)) {
            Some(bs) => Some(samples(bs, n, little)),
            None => None,
        }
    }
}

/// The pixels of a text file, line after line; `None` if a line has a bad token.
pub open spec fn text_pixels(lines: Seq<Seq<char>>, n: nat, little: bool) -> Option<Seq<u32>>
    decreases lines.len(),
{
    if lines.len() == 0 {
        Some(Seq::empty())
    } else {
        match (text_pixels(lines.drop_last(), n, little), line_pixels(lines.last(), n, little)) {
            (Some(a), Some(b)) => Some(a + b),
            _ => None,
        }
    }
}

pub open spec fn pow256(k: nat) -> nat
    decreases k,
{
    if k == 0 {
        1
    } else {
        256 * pow256((k - 1) as nat)
    }
}

proof fn lemma_pow256_small()
    ensures
        pow256(0) == 1,
        pow256(1) == 256,
        pow256(2) == 65536,
        pow256(3) == 16777216,
        pow256(4) == 4294967296,
{
    assert(pow256(1) == 256 * pow256(0));
    assert(pow256(2) == 256 * pow256(1));
    assert(pow256(3) == 256 * pow256(2));
    assert(pow256(4) == 256 * pow256(3));
}

proof fn lemma_pow256_mono(a: nat, b: nat)
    requires
        a <= b,
    ensures
        pow256(a) <= pow256(b),
    decreases b,
{
    if a < b {
        lemma_pow256_mono(a, (b - 1) as nat);
    }
}

/// Reads bytes `from..from + n` of `bs` as one pixel.
fn pack_chunk(bs: &Vec<u8>, from: usize, n: usize, little: bool) -> (r: u32)
    requires
        1 <= n <= 4,
        from + n <= bs@.len(),
    ensures
        r as nat == pack(bs@.subrange(from as int, from + n), little),
{
    let ghost c = bs@.subrange(from as int, from + n);
    let len = bs.len();
    proof {
        lemma_pow256_small();
        lemma_pow256_mono(n as nat, 4);
    }
    let mut v: u32 = 0;
    if little {
        let mut k: usize = n;
        assert(c.skip(n as int) =~= Seq::<u8>::empty());
        while k > 0
            invariant
                k <= n <= 4,
                from + n <= bs@.len(),
                len == bs@.len(),
                c == bs@.subrange(from as int, from + n),
                pow256(n as nat) <= 4294967296,
                v as nat == pack_le(c.skip(k as int)),
                (v as nat) < pow256((n - k) as nat),
            decreases k,
        {
            let b = bs[from + k - 1];
            assert(c.skip(k - 1).drop_first() =~= c.skip(k as int));
            assert(c.skip(k - 1).first() == b);
            proof {
                lemma_pow256_mono((n - k + 1) as nat, n as nat);
                assert(pow256((n - k + 1) as nat) == 256 * pow256((n - k) as nat));
            }
            v = v * 256 + b as u32;
            k -= 1;
        }
        assert(c.skip(0) =~= c);
    } else {
        let mut k: usize = 0;
        assert(c.take(0) =~= Seq::<u8>::empty());
        while k < n
            invariant
                k <= n <= 4,
                from + n <= bs@.len(),
                len == bs@.len(),
                c == bs@.subrange(from as int, from + n),
                pow256(n as nat) <= 4294967296,
                v as nat == pack_be(c.take(k as int)),
                (v as nat) < pow256(k as nat),
            decreases n - k,
        {
            let b = bs[from + k];
            assert(c.take(k + 1).drop_last() =~= c.take(k as int));
            assert(c.take(k + 1).last() == b);
            proof {
                lemma_pow256_mono((k + 1) as nat, n as nat);
                assert(pow256((k + 1) as nat) == 256 * pow256(k as nat));
            }
            v = v * 256 + b as u32;
            k += 1;
        }
        assert(c.take(n as int) =~= c);
    }
    v
}

/// The pixels of `bs`, `n` bytes each (see `samples`).
fn chunk_samples(bs: &Vec<u8>, n: usize, little: bool) -> (r: Vec<u32>)
    requires
        1 <= n <= 4,
    ensures
        r@ == samples(bs@, n as nat, little),
{
    let mut out: Vec<u32> = Vec::new();
    let mut pos: usize = 0;
    let len = bs.len();
    assert(bs@.skip(0) =~= bs@);
    while n <= len - pos
        invariant
            1 <= n <= 4,
            len == bs@.len(),
            pos <= len,
            out@ + samples(bs@.skip(pos as int), n as nat, little) == samples(bs@, n as nat, little),
        decreases len - pos,
    {
        let p = pack_chunk(bs, pos, n, little);
        proof {
            let rest = bs@.skip(pos as int);
            assert(rest.take(n as int) =~= bs@.subrange(pos as int, pos + n));
            assert(rest.skip(n as int) =~= bs@.skip(pos + n));
            assert(samples(rest, n as nat, little) == seq![p] + samples(
                bs@.skip(pos + n),
                n as nat,
                little,
            ));
            assert(out@.push(p) + samples(bs@.skip(pos + n), n as nat, little) =~= out@ + (seq![p]
                + samples(bs@.skip(pos + n), n as nat, little)));
        }
        out.push(p);
        pos = pos + n;
    }
    assert(out@ + samples(bs@.skip(pos as int), n as nat, little) =~= out@);
    out
}

/// The bytes of a line's tokens (see `tokens_bytes`).
fn parse_tokens(toks: &Vec<String>) -> (r: Option<Vec<u8>>)
    ensures
        match tokens_bytes(views(toks@)) {
            Some(bs) => r matches Some(v) && v@ == bs,
            None => r is None,
        },
{
    let ghost ts = views(toks@);
    let mut out: Vec<u8> = Vec::new();
    let mut i: usize = 0;
    assert(ts.take(0) =~= Seq::<Seq<char>>::empty());
    while i < toks.len()
        invariant
            ts == views(toks@),
            i <= toks@.len(),
            tokens_bytes(ts.take(i as int)) == Some(out@),
        decreases toks@.len() - i,
    {
        assert(ts.take(i + 1).drop_last() =~= ts.take(i as int));
        assert(ts.take(i + 1).last() == toks@[i as int]@);
        match parse_unsigned(toks[i].as_str(), 16, 255) {
            None => {
                proof {
                    lemma_tokens_none_extends(ts, i + 1);
                }
                return None;
            },
            Some(b) => {
                out.push(b as u8);
            },
        }
        i += 1;
    }
    assert(ts.take(toks@.len() as int) =~= ts);
    Some(out)
}

proof fn lemma_tokens_none_extends(ts: Seq<Seq<char>>, k: int)
    requires
        0 < k <= ts.len(),
        tokens_bytes(ts.take(k)) is None,
    ensures
        tokens_bytes(ts) is None,
    decreases ts.len() - k,
{
    if k < ts.len() {
        assert(ts.take(k + 1).drop_last() =~= ts.take(k));
        lemma_tokens_none_extends(ts, k + 1);
    } else {
        assert(ts.take(k) =~= ts);
    }
}

proof fn lemma_text_none_extends(ls: Seq<Seq<char>>, k: int, n: nat, little: bool)
    requires
        0 < k <= ls.len(),
        text_pixels(ls.take(k), n, little) is None,
    ensures
        text_pixels(ls, n, little) is None,
    decreases ls.len() - k,
{
    if k < ls.len() {
        assert(ls.take(k + 1).drop_last() =~= ls.take(k));
        lemma_text_none_extends(ls, k + 1, n, little);
    } else {
        assert(ls.take(k) =~= ls);
    }
}

/// The pixels of one line (see `line_pixels`).
fn parse_line(line: &str, n: usize, little: bool) -> (r: Option<Vec<u32>>)
    requires
        1 <= n <= 4,
    ensures
        match line_pixels(line@, n as nat, little) {
            Some(ps) => r matches Some(v) && v@ == ps,
            None => r is None,
        },
{
    let t = trim_trailing(line);
    if t.as_str().unicode_len() == 0 {
        assert(line_pixels(line@, n as nat, little) == Some(Seq::<u32>::empty()));
        return Some(Vec::new());
    }
    let toks = split_on_spaces(t.as_str());
    match parse_tokens(&toks) {
        None => None,
        Some(bs) => Some(chunk_samples(&bs, n, little)),
    }
}

/// The pixels of a text file of hexadecimal bytes (see `text_pixels`): each
/// non-blank line is split at single spaces, each token read as a byte, and
/// each full group of `bytes_per_sample` bytes of the line packed into a pixel
/// in the format's byte order. `None` where a token is not a byte.
pub fn pixels_from_text(lines: &Vec<String>, format: &BinFileFormat) -> (r: Option<Vec<u32>>)
    requires
        1 <= format.spec_bytes_per_sample() <= 4,
    ensures
        match text_pixels(
            views(lines@),
            format.spec_bytes_per_sample() as nat,
            format.spec_is_small_endian(),
        ) {
            Some(ps) => r matches Some(v) && v@ == ps,
            None => r is None,
        },
{
    let n = format.bytes_per_sample() as usize;
    let little = format.is_small_endian();
    let ghost ls = views(lines@);
    let mut out: Vec<u32> = Vec::new();
    let mut i: usize = 0;
    assert(ls.take(0) =~= Seq::<Seq<char>>::empty());
    while i < lines.len()
        invariant
            ls == views(lines@),
            1 <= n <= 4,
            n == format.spec_bytes_per_sample() as usize,
            little == format.spec_is_small_endian(),
            i <= lines@.len(),
            text_pixels(ls.take(i as int), n as nat, little) == Some(out@),
        decreases lines@.len() - i,
    {
        assert(ls.take(i + 1).drop_last() =~= ls.take(i as int));
        assert(ls.take(i + 1).last() == lines@[i as int]@);
        match parse_line(lines[i].as_str(), n, little) {
            None => {
                proof {
                    assert(text_pixels(ls.take(i + 1), n as nat, little) is None);
                    lemma_text_none_extends(ls, i + 1, n as nat, little);
                }
                return None;
            },
            Some(ps) => {
                let mut j: usize = 0;
                let ghost before = out@;
                while j < ps.len()
                    invariant
                        j <= ps@.len(),
                        out@ == before + ps@.take(j as int),
                    decreases ps@.len() - j,
                {
                    out.push(ps[j]);
                    assert(ps@.take(j + 1) =~= ps@.take(j as int).push(ps@[j as int]));
                    assert(out@ =~= before + ps@.take(j + 1));
                    j += 1;
                }
                assert(ps@.take(ps@.len() as int) =~= ps@);
            },
        }
        i += 1;
    }
    assert(ls.take(lines@.len() as int) =~= ls);
    Some(out)
}

/// The RGB bytes of a pixel of the given layout.
pub open spec fn rgb_spec(rgb_type: ColorFormat, pixel: u32) -> Seq<u8> {
    match rgb_type {
        ColorFormat::Rgb332 => rgb332_spec(pixel),
        ColorFormat::Rgb565 => rgb565_spec(pixel),
        ColorFormat::Rgb888 => rgb888_spec(pixel),
    }
}

/// The RGB bytes of a sequence of pixels, three per pixel, in order.
pub open spec fn rgb_bytes(rgb_type: ColorFormat, pixels: Seq<u32>) -> Seq<u8>
    decreases pixels.len(),
{
    if pixels.len() == 0 {
        Seq::empty()
    } else {
        rgb_bytes(rgb_type, pixels.drop_last()) + rgb_spec(rgb_type, pixels.last())
    }
}

/// A `width` x `height` RGB buffer, row by row, whose first pixels are `pixels`
/// (pixel `i` at column `i % width`, row `i / width`) and whose other pixels are black.
pub open spec fn image_buffer(width: nat, height: nat, rgb_type: ColorFormat, pixels: Seq<u32>) -> Seq<u8> {
    rgb_bytes(rgb_type, pixels) + Seq::new(
        (3 * (width * height) - 3 * pixels.len()) as nat,
        |i: int| 0u8,
    )
}

proof fn lemma_rgb_bytes_len(rgb_type: ColorFormat, pixels: Seq<u32>)
    ensures
        rgb_bytes(rgb_type, pixels).len() == 3 * pixels.len(),
    decreases pixels.len(),
{
    if pixels.len() > 0 {
        lemma_rgb_bytes_len(rgb_type, pixels.drop_last());
    }
}

/// The RGB buffer of a `width` x `height` image that holds `pixels` (see
/// `image_buffer`). `None` where the pixels do not fit in the image, or the
/// buffer's size does not fit in memory addresses.
pub fn image_data(width: u32, height: u32, rgb_type: ColorFormat, pixels: &Vec<u32>) -> (r: Option<Vec<u8>>)
    ensures
        r is Some <==> pixels@.len() <= width * height && 3 * (width * height) <= usize::MAX,
        r matches Some(v) ==> v@ == image_buffer(width as nat, height as nat, rgb_type, pixels@),
{
    assert(width as u64 * height as u64 <= u64::MAX) by (nonlinear_arith);
    let area: u64 = width as u64 * height as u64;
    let size: u128 = 3 * (area as u128);
    assert(area == width * height);
    if pixels.len() as u128 > area as u128 || size > usize::MAX as u128 {
        return None;
    }
    let size = size as usize;
    let mut out: Vec<u8> = Vec::new();
    let mut i: usize = 0;
    assert(pixels@.take(0) =~= Seq::<u32>::empty());
    while i < pixels.len()
        invariant
            i <= pixels@.len(),
            pixels@.len() <= area,
            out@ == rgb_bytes(rgb_type, pixels@.take(i as int)),
        decreases pixels@.len() - i,
    {
        let c = pixel_to_rgb(rgb_type, pixels[i]);
        let ghost before = out@;
        out.push(c[0]);
        out.push(c[1]);
        out.push(c[2]);
        assert(pixels@.take(i + 1).drop_last() =~= pixels@.take(i as int));
        assert(out@ =~= before + rgb_spec(rgb_type, pixels@[i as int]));
        i += 1;
    }
    assert(pixels@.take(pixels@.len() as int) =~= pixels@);
    proof {
        lemma_rgb_bytes_len(rgb_type, pixels@);
    }
    let ghost colored = out@;
    while out.len() < size
        invariant
            colored.len() <= out@.len() <= size,
            out@.subrange(0, colored.len() as int) == colored,
            forall|k: int| colored.len() <= k < out@.len() ==> out@[k] == 0u8,
        decreases size - out@.len(),
    {
        out.push(0u8);
    }
    assert(out@ =~= image_buffer(width as nat, height as nat, rgb_type, pixels@));
    Some(out)
}

} // verus!
