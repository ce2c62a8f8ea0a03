//! Stream filters.
//!
//! Content and font streams decode fully here. Image-only filters (DCT, JPX, CCITT, JBIG2) are
//! passed through untouched with the filter name reported: callers extracting structure never
//! need the pixels, and a rasteriser decodes them with its own codecs.

use vstd::prelude::*;

use vstd::arithmetic::power2::{lemma2_to64, lemma_pow2_unfold, pow2};

use crate::error::Error;
use crate::object::{dict_lookup, spec_as_int, Dict, Object, ObjectView};
use crate::text::{decimal_chars, message_with_number, message_with_text, str_eq};
use crate::lexer::{hex_scan, hex_val};

verus! {

/// ASCIIHex: hex digit pairs up to `>`, other bytes ignored, an odd final digit padded with
/// zero. The same grammar as a hex string's body.
pub open spec fn spec_ascii_hex_decode(data: Seq<u8>) -> Seq<u8> {
    hex_scan(data, 0, None).0
}

pub fn ascii_hex_decode(data: &[u8]) -> (r: Vec<u8>)
    ensures
        r@ == spec_ascii_hex_decode(data@),
{
    let mut out: Vec<u8> = Vec::new();
    let mut hi: Option<u8> = None;
    let mut i: usize = 0;
    while i < data.len()
        invariant_except_break
            i <= data@.len(),
            hi matches Some(h) ==> h < 16,
            out@ + hex_scan(data@, i as int, hi).0 == hex_scan(data@, 0, None).0,
        ensures
            hi matches Some(h) ==> h < 16,
            out@ + crate::lexer::hex_pad(hi) == hex_scan(data@, 0, None).0,
        decreases data@.len() - i,
    {
        let b = data[i];
        if b == 62 {
            break;
        }
        i = i + 1;
        match hex_val(b) {
            None => {},
            Some(v) => match hi {
                Some(h) => {
                    out.push(h * 16 + v);
                    hi = None;
                    assert(out@ + hex_scan(data@, i as int, hi).0 =~= hex_scan(data@, 0, None).0);
                },
                None => {
                    hi = Some(v);
                },
            },
        }
    }
    if let Some(h) = hi {
        out.push(h * 16);
    }
    assert(out@ =~= hex_scan(data@, 0, None).0);
    out
}

/// The value of a base-85 group, wrapping at 2^32 as the decoder's `u32` arithmetic does.
pub open spec fn base85_value(g: Seq<u8>) -> int
    decreases g.len(),
{
    if g.len() == 0 {
        0
    } else {
        (base85_value(g.drop_last()) * 85 + g.last()) % 0x1_0000_0000
    }
}

/// The four big-endian bytes of a 32-bit value.
pub open spec fn be_bytes(v: int) -> Seq<u8> {
    seq![
        (v / 0x100_0000 % 256) as u8,
        (v / 0x1_0000 % 256) as u8,
        (v / 0x100 % 256) as u8,
        (v % 256) as u8,
    ]
}

/// A partial final group of `n` digits, padded with `u` (84), yields its first `n - 1` bytes.
pub open spec fn base85_tail(group: Seq<u8>) -> Seq<u8> {
    if group.len() == 0 {
        Seq::empty()
    } else {
        let padded = group + Seq::new((5 - group.len()) as nat, |i: int| 84u8);
        be_bytes(base85_value(padded)).subrange(0, group.len() - 1)
    }
}

/// ASCII85 from `i` with `group` the digits of the group in progress: `~` ends the data, `z`
/// between groups stands for four zero bytes, `!`..=`u` are digits, anything else is ignored.
pub open spec fn base85_scan(d: Seq<u8>, i: int, group: Seq<u8>) -> Seq<u8>
    decreases d.len() - i,
{
    if i < 0 || i >= d.len() || d[i] == 126 {
        base85_tail(group)
    } else {
        let b = d[i];
        if b == 122 && group.len() == 0 {
            seq![0u8, 0, 0, 0] + base85_scan(d, i + 1, group)
        } else if 33 <= b <= 117 {
            let g2 = group.push((b - 33) as u8);
            if g2.len() >= 5 {
                be_bytes(base85_value(g2)) + base85_scan(d, i + 1, Seq::empty())
            } else {
                base85_scan(d, i + 1, g2)
            }
        } else {
            base85_scan(d, i + 1, group)
        }
    }
}

/// ASCII85, after an optional `<~` prefix.
pub open spec fn spec_ascii85_decode(d: Seq<u8>) -> Seq<u8> {
    let start = if d.len() >= 2 && d[0] == 60 && d[1] == 126 {
        2
    } else {
        0
    };
    base85_scan(d, start, Seq::empty())
}

fn base85_group_value(g: &Vec<u8>) -> (v: u32)
    ensures
        v == base85_value(g@),
{
    let mut v: u32 = 0;
    let mut k: usize = 0;
    while k < g.len()
        invariant
            k <= g@.len(),
            v == base85_value(g@.subrange(0, k as int)),
        decreases g@.len() - k,
    {
        assert(g@.subrange(0, k + 1).drop_last() =~= g@.subrange(0, k as int));
        let t: u64 = (v as u64) * 85 + (g[k] as u64);
        v = (t % 0x1_0000_0000) as u32;
        k = k + 1;
    }
    assert(g@.subrange(0, k as int) =~= g@);
    v
}

fn push_be(out: &mut Vec<u8>, v: u32, n: usize)
    requires
        n <= 4,
    ensures
        final(out)@ == old(out)@ + be_bytes(v as int).subrange(0, n as int),
{
    let b0 = (v / 0x100_0000 % 256) as u8;
    let b1 = (v / 0x1_0000 % 256) as u8;
    let b2 = (v / 0x100 % 256) as u8;
    let b3 = (v % 256) as u8;
    let ghost before = out@;
    if n > 0 {
        out.push(b0);
    }
    if n > 1 {
        out.push(b1);
    }
    if n > 2 {
        out.push(b2);
    }
    if n > 3 {
        out.push(b3);
    }
    assert(out@ =~= before + be_bytes(v as int).subrange(0, n as int));
}

/// Decodes ASCII85 data.
pub fn ascii85_decode(data: &[u8]) -> (r: Vec<u8>)
    ensures
        r@ == spec_ascii85_decode(data@),
{
    let mut out: Vec<u8> = Vec::new();
    let mut group: Vec<u8> = Vec::new();
    let mut i: usize = 0;
    if data.len() >= 2 && data[0] == 60 && data[1] == 126 {
        i = 2;
    }
    while i < data.len()
        invariant_except_break
            i <= data@.len(),
            group@.len() < 5,
            out@ + base85_scan(data@, i as int, group@) == spec_ascii85_decode(data@),
        ensures
            group@.len() < 5,
            out@ + base85_tail(group@) == spec_ascii85_decode(data@),
        decreases data@.len() - i,
    {
        let b = data[i];
        if b == 126 {
            break;
        }
        i = i + 1;
        if b == 122 && group.len() == 0 {
            let ghost before = out@;
            out.push(0);
            out.push(0);
            out.push(0);
            out.push(0);
            assert(out@ =~= before + seq![0u8, 0, 0, 0]);
        } else if 33 <= b && b <= 117 {
            group.push(b - 33);
            if group.len() == 5 {
                let v = base85_group_value(&group);
                push_be(&mut out, v, 4);
                assert(be_bytes(v as int).subrange(0, 4) =~= be_bytes(v as int));
                group = Vec::new();
                assert(group@ =~= Seq::<u8>::empty());
            }
        }
    }
    let n = group.len();
    if n > 0 {
        let ghost g0 = group@;
        while group.len() < 5
            invariant
                0 < g0.len() <= group@.len() <= 5,
                group@ == g0 + Seq::new((group@.len() - g0.len()) as nat, |j: int| 84u8),
            decreases 5 - group@.len(),
        {
            let ghost before = group@;
            group.push(84);
            assert(group@ =~= g0 + Seq::new((group@.len() - g0.len()) as nat, |j: int| 84u8));
        }
        assert(group@ =~= g0 + Seq::new((5 - g0.len()) as nat, |j: int| 84u8));
        let v = base85_group_value(&group);
        push_be(&mut out, v, n - 1);
    } else {
        assert(out@ + base85_tail(group@) =~= out@);
    }
    out
}

/// RunLength from `i`: a length byte `n` below 128 copies the next `n + 1` bytes (fewer where
/// the data ends), 128 ends the data, and above 128 repeats the next byte `257 - n` times.
pub open spec fn run_length_scan(d: Seq<u8>, i: int) -> Seq<u8>
    decreases d.len() - i,
{
    if i < 0 || i >= d.len() {
        Seq::empty()
    } else {
        let n = d[i];
        if n <= 127 {
            let avail = d.len() - (i + 1);
            let take = if n + 1 <= avail {
                n + 1
            } else {
                avail
            };
            d.subrange(i + 1, i + 1 + take) + run_length_scan(d, i + 1 + take)
        } else if n == 128 {
            Seq::empty()
        } else if i + 1 < d.len() {
            Seq::new((257 - n) as nat, |k: int| d[i + 1]) + run_length_scan(d, i + 2)
        } else {
            Seq::empty()
        }
    }
}

/// Decodes RunLength data.
pub fn run_length_decode(data: &[u8]) -> (r: Vec<u8>)
    ensures
        r@ == run_length_scan(data@, 0),
{
    let mut out: Vec<u8> = Vec::new();
    let mut i: usize = 0;
    let dl = data.len();
    while i < dl
        invariant_except_break
            dl == data@.len(),
            i <= dl,
            out@ + run_length_scan(data@, i as int) == run_length_scan(data@, 0),
        ensures
            out@ == run_length_scan(data@, 0),
        decreases dl - i,
    {
        let n = data[i];
        let ghost i0 = i as int;
        i = i + 1;
        if n <= 127 {
            let avail = dl - i;
            let want = n as usize + 1;
            let take = if want <= avail {
                want
            } else {
                avail
            };
            let ghost before = out@;
            let mut k: usize = 0;
            while k < take
                invariant
                    dl == data@.len(),
                    i + take <= dl,
                    k <= take,
                    out@ == before + data@.subrange(i as int, i + k),
                decreases take - k,
            {
                out.push(data[i + k]);
                k = k + 1;
                assert(out@ =~= before + data@.subrange(i as int, i + k));
            }
            i = i + take;
            assert(before + run_length_scan(data@, i0) =~= out@ + run_length_scan(data@, i as int));
        } else if n == 128 {
            assert(run_length_scan(data@, i0) =~= Seq::<u8>::empty());
            assert(out@ =~= out@ + run_length_scan(data@, i0));
            break;
        } else {
            if i < dl {
                let c = data[i];
                let count: usize = 257 - n as usize;
                let ghost before = out@;
                let mut k: usize = 0;
                while k < count
                    invariant
                        k <= count,
                        out@ == before + Seq::new(k as nat, |j: int| c),
                    decreases count - k,
                {
                    out.push(c);
                    k = k + 1;
                    assert(out@ =~= before + Seq::new(k as nat, |j: int| c));
                }
                i = i + 1;
                assert(Seq::new(count as nat, |j: int| c) =~= Seq::new((257 - n) as nat, |j: int| data@[i0 + 1]));
                assert(before + run_length_scan(data@, i0) =~= out@ + run_length_scan(data@, i as int));
            } else {
                assert(run_length_scan(data@, i0) =~= Seq::<u8>::empty());
                assert(out@ =~= out@ + run_length_scan(data@, i0));
            }
        }
    }
    out
}

/// Bit `k` of `d`, most significant bit of each byte first.
pub open spec fn bit_at(d: Seq<u8>, k: int) -> u8 {
    (d[k / 8] >> ((7 - k % 8) as u8)) & 1u8
}

/// The `w`-bit code that starts at bit `p` of `d`.
pub open spec fn bits_value(d: Seq<u8>, p: int, w: nat) -> int
    decreases w,
{
    if w == 0 {
        0
    } else {
        bits_value(d, p, (w - 1) as nat) * 2 + bit_at(d, p + w - 1)
    }
}

/// The code table an LZW decoder starts from and returns to at each clear code: one entry for
/// every byte, then the clear (256) and end-of-data (257) codes.
pub open spec fn lzw_initial_table() -> Seq<Seq<u8>> {
    Seq::new(
        258,
        |i: int|
            if i < 256 {
                seq![i as u8]
            } else {
                Seq::empty()
            },
    )
}

/// The first byte of `s`, as a sequence of at most one byte.
pub open spec fn first_byte(s: Seq<u8>) -> Seq<u8> {
    if s.len() > 0 {
        seq![s[0]]
    } else {
        Seq::empty()
    }
}

/// LZW from bit `pos`, with the code table, code width and previous code the decoder holds
/// there. Codes are read most significant bit first while a whole code is left. Clear (256)
/// resets table and width, end-of-data (257) ends the output. A code past the table is the
/// previous entry extended by its own first byte, and with no previous code the data is
/// corrupt and decoding stops, as it does when the previous code itself lies past the table.
/// Each code after the first adds the previous entry extended by the first byte of the
/// current one; the width grows (up to 12 bits) when the table, plus one with early change,
/// reaches `2^width` entries.
pub open spec fn lzw_run(
    d: Seq<u8>,
    early: bool,
    table: Seq<Seq<u8>>,
    width: nat,
    prev: Option<int>,
    pos: int,
) -> Seq<u8>
    decreases 8 * d.len() - pos,
{
    if width == 0 || pos < 0 || pos + width > 8 * d.len() {
        Seq::empty()
    } else {
        let code = bits_value(d, pos, width);
        let next = pos + width;
        if code == 256 {
            lzw_run(d, early, lzw_initial_table(), 9, None, next)
        } else if code == 257 {
            Seq::empty()
        } else if prev matches Some(p) && !(0 <= p < table.len()) {
            Seq::empty()
        } else if code >= table.len() && prev is None {
            Seq::empty()
        } else {
            let entry = if code < table.len() {
                table[code]
            } else {
                table[prev->0] + first_byte(table[prev->0])
            };
            let table2 = match prev {
                Some(p) => table.push(table[p] + first_byte(entry)),
                None => table,
            };
            let limit: int = if early {
                1
            } else {
                0
            };
            let width2: nat = if table2.len() + limit >= pow2(width) && width < 12 {
                width + 1
            } else {
                width
            };
            entry + lzw_run(d, early, table2, width2, Some(code), next)
        }
    }
}

/// LZW-decoded `d`; `early` is the `/EarlyChange` flag.
pub open spec fn spec_lzw_decode(d: Seq<u8>, early: bool) -> Seq<u8> {
    lzw_run(d, early, lzw_initial_table(), 9, None, 0)
}

pub open spec fn table_view(t: Seq<Vec<u8>>) -> Seq<Seq<u8>> {
    t.map_values(|v: Vec<u8>| v@)
}

fn read_code(data: &[u8], p: u128, w: u128) -> (v: u16)
    requires
        1 <= w <= 12,
        p + w <= 8 * data@.len(),
    ensures
        v == bits_value(data@, p as int, w as nat),
{
    let mut v: u32 = 0;
    let mut j: u128 = 0;
    let n = data.len();
    proof {
        lemma2_to64();
    }
    while j < w
        invariant
            n == data@.len(),
            1 <= w <= 12,
            p + w <= 8 * data@.len(),
            j <= w,
            v == bits_value(data@, p as int, j as nat),
            v < pow2(j as nat),
            pow2(12) == 4096,
        decreases w - j,
    {
        let k: u128 = p + j;
        let byte = data[(k / 8) as usize];
        let sh: u8 = (7 - k % 8) as u8;
        let bit: u8 = (byte >> sh) & 1u8;
        assert(bit <= 1) by (bit_vector)
            requires
                bit == (byte >> sh) & 1u8,
        ;
        proof {
            lemma_pow2_unfold((j + 1) as nat);
            if j < 12 {
                vstd::arithmetic::power2::lemma_pow2_strictly_increases(j as nat, 12);
            }
        }
        v = v * 2 + bit as u32;
        j = j + 1;
    }
    proof {
        if w < 12 {
            vstd::arithmetic::power2::lemma_pow2_strictly_increases(w as nat, 12);
        }
    }
    v as u16
}

fn lzw_initial() -> (t: Vec<Vec<u8>>)
    ensures
        table_view(t@) == lzw_initial_table(),
{
    let mut t: Vec<Vec<u8>> = Vec::new();
    let mut b: u16 = 0;
    while b < 258
        invariant
            b <= 258,
            t@.len() == b,
            forall|i: int| 0 <= i < b ==> #[trigger] t@[i]@ == lzw_initial_table()[i],
        decreases 258 - b,
    {
        if b < 256 {
            let mut e: Vec<u8> = Vec::new();
            e.push(b as u8);
            t.push(e);
        } else {
            t.push(Vec::new());
        }
        b = b + 1;
    }
    assert(table_view(t@) =~= lzw_initial_table());
    t
}

fn copy_bytes(v: &Vec<u8>) -> (r: Vec<u8>)
    ensures
        r@ == v@,
{
    vstd::slice::slice_to_vec(v.as_slice())
}

/// Decodes LZW data; `early_change` is the `/EarlyChange` flag.
pub fn lzw_decode(data: &[u8], early_change: bool) -> (r: Vec<u8>)
    ensures
        r@ == spec_lzw_decode(data@, early_change),
{
    let mut out: Vec<u8> = Vec::new();
    let mut table = lzw_initial();
    let mut width: u128 = 9;
    let mut prev: Option<u16> = None;
    let mut pos: u128 = 0;
    let dl = data.len();
    let total: u128 = dl as u128 * 8;
    proof {
        lemma2_to64();
    }
    loop
        invariant
            total == 8 * data@.len(),
            total <= 8 * (usize::MAX as int),
            9 <= width <= 12,
            pos <= total,
            pow2(9) == 512 && pow2(10) == 1024 && pow2(11) == 2048 && pow2(12) == 4096,
            out@ + lzw_run(
                data@,
                early_change,
                table_view(table@),
                width as nat,
                match prev {
                    Some(p) => Some(p as int),
                    None => None,
                },
                pos as int,
            ) == spec_lzw_decode(data@, early_change),
        decreases total - pos,
    {
        let ghost tv = table_view(table@);
        let ghost pv: Option<int> = match prev {
            Some(p) => Some(p as int),
            None => None,
        };
        let ghost before = out@;
        let ghost w0 = width as nat;
        let ghost p0 = pos as int;
        if pos + width > total {
            assert(out@ =~= out@ + lzw_run(data@, early_change, tv, width as nat, pv, pos as int));
            return out;
        }
        let code = read_code(data, pos, width);
        pos = pos + width;
        if code == 256 {
            table = lzw_initial();
            width = 9;
            prev = None;
            continue;
        }
        if code == 257 {
            assert(out@ =~= before + lzw_run(data@, early_change, tv, width as nat, pv, p0));
            return out;
        }
        let tl = table.len();
        if let Some(p) = prev {
            if p as usize >= tl {
                assert(out@ =~= before + lzw_run(data@, early_change, tv, width as nat, pv, p0));
                return out;
            }
        }
        let entry: Vec<u8> = if (code as usize) < tl {
            copy_bytes(&table[code as usize])
        } else {
            match prev {
                Some(p) => {
                    let mut e = copy_bytes(&table[p as usize]);
                    if table[p as usize].len() > 0 {
                        let f = table[p as usize][0];
                        e.push(f);
                    }
                    assert(e@ =~= tv[p as int] + first_byte(tv[p as int]));
                    e
                },
                None => {
                    assert(out@ =~= before + lzw_run(data@, early_change, tv, width as nat, pv, p0));
                    return out;
                },
            }
        };
        let ghost ev = entry@;
        out.extend_from_slice(entry.as_slice());
        if let Some(p) = prev {
            let mut ne = copy_bytes(&table[p as usize]);
            if entry.len() > 0 {
                ne.push(entry[0]);
            }
            assert(ne@ =~= tv[p as int] + first_byte(ev));
            table.push(ne);
            assert(table_view(table@) =~= tv.push(tv[p as int] + first_byte(ev)));
        }
        prev = Some(code);
        let limit: usize = if early_change {
            1
        } else {
            0
        };
        let span: usize = if width == 9 {
            512
        } else if width == 10 {
            1024
        } else if width == 11 {
            2048
        } else {
            4096
        };
        if table.len() >= span - limit && width < 12 {
            width = width + 1;
        }
        assert(lzw_run(data@, early_change, tv, w0, pv, p0) == ev + lzw_run(
            data@,
            early_change,
            table_view(table@),
            width as nat,
            Some(code as int),
            pos as int,
        ));
        assert(out@ + lzw_run(data@, early_change, table_view(table@), width as nat, Some(code as int), pos as int)
            =~= before + lzw_run(data@, early_change, tv, w0, pv, p0));
    }
}

/// TIFF predictor 2 over the first `n` bytes: each byte from the `colors`-th of its row on
/// adds the decoded byte `colors` before it, rows being `row_len` bytes long.
pub open spec fn tiff_out(d: Seq<u8>, colors: int, row_len: int, n: nat) -> Seq<u8>
    decreases n,
{
    if n == 0 {
        Seq::empty()
    } else {
        let prev = tiff_out(d, colors, row_len, (n - 1) as nat);
        let g = n - 1;
        if g % row_len >= colors {
            prev.push(((d[g] + prev[g - colors]) % 256) as u8)
        } else {
            prev.push(d[g])
        }
    }
}

/// TIFF predictor 2: applied to 8-bit samples, other depths are left as they are.
pub open spec fn spec_tiff_predictor(d: Seq<u8>, colors: int, bpc: int, columns: int) -> Seq<u8> {
    if bpc != 8 {
        d
    } else {
        tiff_out(d, colors, colors * columns, d.len())
    }
}

/// The Paeth predictor of a left, an upper and an upper-left byte.
pub open spec fn paeth(a: int, b: int, c: int) -> int {
    let p = a + b - c;
    let pa = if p >= a {
        p - a
    } else {
        a - p
    };
    let pb = if p >= b {
        p - b
    } else {
        b - p
    };
    let pc = if p >= c {
        p - c
    } else {
        c - p
    };
    if pa <= pb && pa <= pc {
        a
    } else if pb <= pc {
        b
    } else {
        c
    }
}

/// One byte of a PNG row with filter type `ft` (0 to 4), from its filtered value `x` and its
/// decoded left, upper and upper-left neighbours (zero where there is none).
pub open spec fn png_byte(ft: u8, x: u8, left: u8, up: u8, upleft: u8) -> u8 {
    if ft == 0 {
        x
    } else if ft == 1 {
        ((x + left) % 256) as u8
    } else if ft == 2 {
        ((x + up) % 256) as u8
    } else if ft == 3 {
        ((x + (left + up) / 2) % 256) as u8
    } else {
        ((x + paeth(left as int, up as int, upleft as int)) % 256) as u8
    }
}

/// The first `n` decoded bytes of a PNG row with filter type `ft`, filtered bytes `raw`, the
/// decoded row above `prev`, and `bpp` bytes per pixel.
pub open spec fn png_row(ft: u8, raw: Seq<u8>, prev: Seq<u8>, bpp: int, n: nat) -> Seq<u8>
    decreases n,
{
    if n == 0 {
        Seq::empty()
    } else {
        let cur = png_row(ft, raw, prev, bpp, (n - 1) as nat);
        let i = n - 1;
        let left: u8 = if i >= bpp {
            cur[i - bpp]
        } else {
            0
        };
        let upleft: u8 = if i >= bpp {
            prev[i - bpp]
        } else {
            0
        };
        cur.push(png_byte(ft, raw[i], left, prev[i], upleft))
    }
}

/// PNG-predicted rows `r..rows` of `d`, each a filter-type byte and `row_len` bytes, `prev`
/// the decoded row above: the decoded rows, or the first filter type above 4.
pub open spec fn png_rows(d: Seq<u8>, row_len: int, bpp: int, r: int, rows: int, prev: Seq<u8>) -> Result<
    Seq<u8>,
    u8,
>
    decreases rows - r,
{
    if r >= rows || r < 0 {
        Ok(Seq::empty())
    } else {
        let start = r * (row_len + 1);
        let ft = d[start];
        if ft > 4 {
            Err(ft)
        } else {
            let raw = d.subrange(start + 1, start + 1 + row_len);
            let cur = png_row(ft, raw, prev, bpp, row_len as nat);
            match png_rows(d, row_len, bpp, r + 1, rows, cur) {
                Ok(rest) => Ok(cur + rest),
                Err(e) => Err(e),
            }
        }
    }
}

/// `n` zero bytes.
pub open spec fn zero_bytes(n: nat) -> Seq<u8> {
    Seq::new(n, |i: int| 0u8)
}

pub open spec fn at_least_one(v: int) -> int {
    if v < 1 {
        1
    } else {
        v
    }
}

/// The predictor named by `/Predictor` with its `/Colors`, `/BitsPerComponent` and
/// `/Columns` (each taken as at least one): none up to 1, TIFF for 2, PNG above. PNG rows are
/// `ceil(colors * bpc * columns / 8)` bytes after their filter-type byte, pixels
/// `ceil(colors * bpc / 8)` bytes, and a trailing partial row is dropped. `Err` carries a row
/// filter type past 4.
pub open spec fn spec_predict(predictor: int, colors: int, bpc: int, columns: int, d: Seq<u8>) -> Result<
    Seq<u8>,
    u8,
> {
    if predictor <= 1 {
        Ok(d)
    } else {
        let c = at_least_one(colors);
        let b = at_least_one(bpc);
        let k = at_least_one(columns);
        if predictor == 2 {
            Ok(spec_tiff_predictor(d, c, b, k))
        } else {
            let row_len = (c * b * k + 7) / 8;
            let bpp = (c * b + 7) / 8;
            let rows = d.len() as int / (row_len + 1);
            png_rows(d, row_len, bpp, 0, rows, zero_bytes(row_len as nat))
        }
    }
}

fn tiff_predictor(data: Vec<u8>, colors: u64, bpc: u64, columns: u64) -> (r: Vec<u8>)
    requires
        1 <= colors,
        1 <= columns,
    ensures
        r@ == spec_tiff_predictor(data@, colors as int, bpc as int, columns as int),
{
    if bpc != 8 {
        return data;
    }
    let ghost d = data@;
    let mut data = data;
    assert((colors as int) * (columns as int) <= u128::MAX) by (nonlinear_arith)
        requires
            colors <= u64::MAX,
            columns <= u64::MAX,
    ;
    let rl: u128 = colors as u128 * columns as u128;
    assert(rl >= 1) by (nonlinear_arith)
        requires
            rl == colors as int * columns as int,
            colors >= 1,
            columns >= 1,
    ;
    let n = data.len();
    let mut g: usize = 0;
    while g < n
        invariant
            n == data@.len(),
            n == d.len(),
            rl == colors * columns,
            rl >= 1,
            1 <= colors,
            g <= n,
            data@.subrange(0, g as int) == tiff_out(d, colors as int, rl as int, g as nat),
            data@.subrange(g as int, n as int) == d.subrange(g as int, n as int),
        decreases n - g,
    {
        let ghost pre = data@;
        let i: u128 = (g as u128) % rl;
        assert(data@[g as int] == d[g as int]) by {
            assert(data@.subrange(g as int, n as int)[0] == d.subrange(g as int, n as int)[0]);
        }
        assert(i <= g) by (nonlinear_arith)
            requires
                i == g as int % rl as int,
                rl >= 1,
        ;
        if i >= colors as u128 {
            let cs: usize = colors as usize;
            assert(cs == colors);
            let k: usize = g - cs;
            let a = data[g];
            let b = data[k];
            assert(b == tiff_out(d, colors as int, rl as int, g as nat)[k as int]) by {
                assert(data@.subrange(0, g as int)[k as int] == data@[k as int]);
            }
            data.set(g, ((a as u16 + b as u16) % 256) as u8);
        }
        assert(data@.subrange(0, g + 1) =~= tiff_out(d, colors as int, rl as int, (g + 1) as nat)) by {
            assert(data@.subrange(0, g as int) =~= pre.subrange(0, g as int));
        }
        assert(data@.subrange(g + 1, n as int) =~= d.subrange(g + 1, n as int)) by {
            assert forall|x: int| 0 <= x < n - g - 1 implies #[trigger] data@.subrange(g + 1, n as int)[x] == d.subrange(g + 1, n as int)[x] by {
                assert(pre.subrange(g as int, n as int)[x + 1] == d.subrange(g as int, n as int)[x + 1]);
            }
        }
        g = g + 1;
    }
    assert(data@ =~= data@.subrange(0, n as int));
    data
}

fn png_decode_row(ft: u8, data: &[u8], start: usize, row_len: usize, prev: &Vec<u8>, bpp: usize) -> (r: Vec<u8>)
    requires
        ft <= 4,
        bpp >= 1,
        start + row_len <= data@.len(),
        prev@.len() == row_len,
    ensures
        r@ == png_row(ft, data@.subrange(start as int, start + row_len), prev@, bpp as int, row_len as nat),
        r@.len() == row_len,
{
    let ghost raw = data@.subrange(start as int, start + row_len);
    let dl = data.len();
    let mut cur: Vec<u8> = Vec::new();
    let mut i: usize = 0;
    while i < row_len
        invariant
            dl == data@.len(),
            cur@.len() == i,
            start + row_len <= data@.len(),
            prev@.len() == row_len,
            raw == data@.subrange(start as int, start + row_len),
            i <= row_len,
            bpp >= 1,
            ft <= 4,
            cur@ == png_row(ft, raw, prev@, bpp as int, i as nat),
        decreases row_len - i,
    {
        let x = data[start + i];
        assert(x == raw[i as int]);
        let up = prev[i];
        let has_left = i >= bpp;
        let left: u8 = if has_left {
            cur[i - bpp]
        } else {
            0
        };
        let upleft: u8 = if has_left {
            prev[i - bpp]
        } else {
            0
        };
        let v: u8 = if ft == 0 {
            x
        } else if ft == 1 {
            ((x as u16 + left as u16) % 256) as u8
        } else if ft == 2 {
            ((x as u16 + up as u16) % 256) as u8
        } else if ft == 3 {
            ((x as u16 + (left as u16 + up as u16) / 2) % 256) as u8
        } else {
            let a = left as i32;
            let b = up as i32;
            let c = upleft as i32;
            let p = a + b - c;
            let pa = if p >= a {
                p - a
            } else {
                a - p
            };
            let pb = if p >= b {
                p - b
            } else {
                b - p
            };
            let pc = if p >= c {
                p - c
            } else {
                c - p
            };
            let pred = if pa <= pb && pa <= pc {
                a
            } else if pb <= pc {
                b
            } else {
                c
            };
            ((x as i32 + pred) % 256) as u8
        };
        cur.push(v);
        i = i + 1;
    }
    cur
}

fn png_predictor(data: &[u8], row_len: usize, bpp: usize, rows: usize) -> (r: Result<Vec<u8>, u8>)
    requires
        rows * (row_len + 1) <= data@.len(),
        row_len < data@.len(),
        bpp >= 1,
    ensures
        match r {
            Ok(v) => png_rows(data@, row_len as int, bpp as int, 0, rows as int, zero_bytes(row_len as nat)) == Ok::<Seq<u8>, u8>(v@),
            Err(ft) => png_rows(data@, row_len as int, bpp as int, 0, rows as int, zero_bytes(row_len as nat)) == Err::<Seq<u8>, u8>(ft),
        },
{
    let dl = data.len();
    let stride = row_len + 1;
    let ghost zero = zero_bytes(row_len as nat);
    let mut prev: Vec<u8> = Vec::new();
    let mut k: usize = 0;
    while k < row_len
        invariant
            k <= row_len,
            prev@ == Seq::new(k as nat, |i: int| 0u8),
        decreases row_len - k,
    {
        prev.push(0);
        k = k + 1;
        assert(prev@ =~= Seq::new(k as nat, |i: int| 0u8));
    }
    assert(prev@ =~= zero);
    let mut out: Vec<u8> = Vec::new();
    let mut r: usize = 0;
    while r < rows
        invariant
            dl == data@.len(),
            zero == zero_bytes(row_len as nat),
            bpp >= 1,
            stride == row_len + 1,
            rows * stride <= data@.len(),
            r <= rows,
            prev@.len() == row_len,
            png_rows(data@, row_len as int, bpp as int, 0, rows as int, zero) == match png_rows(
                data@,
                row_len as int,
                bpp as int,
                r as int,
                rows as int,
                prev@,
            ) {
                Ok(rest) => Ok(out@ + rest),
                Err(e) => Err(e),
            },
        decreases rows - r,
    {
        assert(r * stride + stride <= rows * stride) by (nonlinear_arith)
            requires
                r < rows,
                stride >= 1,
        ;
        let start = r * stride;
        let ft = data[start];
        assert(start == r * (row_len + 1));
        if ft > 4 {
            assert(png_rows(data@, row_len as int, bpp as int, r as int, rows as int, prev@) == Err::<Seq<u8>, u8>(ft));
            return Err(ft);
        }
        let cur = png_decode_row(ft, data, start + 1, row_len, &prev, bpp);
        let ghost before = out@;
        out.extend_from_slice(cur.as_slice());
        proof {
            assert(out@ =~= before + cur@);
            match png_rows(data@, row_len as int, bpp as int, r + 1, rows as int, cur@) {
                Ok(rest) => {
                    assert(before + (cur@ + rest) =~= out@ + rest);
                },
                Err(e) => {},
            }
        }
        prev = cur;
        r = r + 1;
    }
    assert(out@ + Seq::<u8>::empty() =~= out@);
    Ok(out)
}

#[verifier::rlimit(50)]
/// Applies the predictor of `/Predictor`, `/Colors`, `/BitsPerComponent` and `/Columns` to
/// decoded data; `Err` carries a PNG row filter type past 4.
pub fn predict(predictor: i64, colors: i64, bpc: i64, columns: i64, data: Vec<u8>) -> (r: Result<Vec<u8>, u8>)
    ensures
        match r {
            Ok(v) => spec_predict(predictor as int, colors as int, bpc as int, columns as int, data@) == Ok::<Seq<u8>, u8>(v@),
            Err(ft) => spec_predict(predictor as int, colors as int, bpc as int, columns as int, data@) == Err::<Seq<u8>, u8>(ft),
        },
{
    if predictor <= 1 {
        return Ok(data);
    }
    let c: u64 = if colors < 1 {
        1
    } else {
        colors as u64
    };
    let b: u64 = if bpc < 1 {
        1
    } else {
        bpc as u64
    };
    let k: u64 = if columns < 1 {
        1
    } else {
        columns as u64
    };
    if predictor == 2 {
        return Ok(tiff_predictor(data, c, b, k));
    }
    let ghost d = data@;
    let n = data.len();
    assert((c as int) * (b as int) < 0x1_0000_0000_0000_0000_0000_0000_0000_0000) by (nonlinear_arith)
        requires
            c <= 0x7fff_ffff_ffff_ffff,
            b <= 0x7fff_ffff_ffff_ffff,
    ;
    let cb: u128 = c as u128 * b as u128;
    assert(cb >= 1) by (nonlinear_arith)
        requires
            cb == c as int * b as int,
            c >= 1,
            b >= 1,
    ;
    let ghost row_len_s: int = (c * b * k + 7) / 8;
    let ghost rows_s: int = d.len() as int / (row_len_s + 1);
    match cb.checked_mul(k as u128) {
        None => {
            assert(c * b * k > u128::MAX);
            assert(rows_s == 0) by (nonlinear_arith)
                requires
                    row_len_s + 1 > d.len(),
                    rows_s == d.len() as int / (row_len_s + 1),
            ;
            let e: Vec<u8> = Vec::new();
            assert(e@ =~= Seq::<u8>::empty());
            Ok(e)
        },
        Some(bits) => {
            let row_len: u128 = bits / 8 + if bits % 8 != 0 {
                1
            } else {
                0
            };
            assert(row_len == row_len_s);
            let rows: u128 = (n as u128) / (row_len + 1);
            assert(rows == rows_s);
            if rows == 0 {
                let e: Vec<u8> = Vec::new();
                assert(e@ =~= Seq::<u8>::empty());
                return Ok(e);
            }
            assert(row_len + 1 <= n) by (nonlinear_arith)
                requires
                    rows == n as int / (row_len + 1),
                    rows >= 1,
                    row_len >= 0,
            ;
            let bpp: u128 = cb / 8 + if cb % 8 != 0 {
                1
            } else {
                0
            };
            assert(bpp <= row_len) by (nonlinear_arith)
                requires
                    bits == cb * k,
                    k >= 1,
                    cb >= 0,
                    bpp == (cb + 7) / 8,
                    row_len == (bits + 7) / 8,
            ;
            assert(bpp >= 1);
            assert(rows * (row_len + 1) <= n) by (nonlinear_arith)
                requires
                    rows == n as int / (row_len + 1),
                    row_len >= 0,
            ;
            png_predictor(data.as_slice(), row_len as usize, bpp as usize, rows as usize)
        },
    }
}

// ---- Flate --------------------------------------------------------------------------------

/// What a fresh `flate2::Decompress` (expecting a zlib header when `zlib` holds, raw deflate
/// otherwise) writes into an output of `room` bytes when handed all of `body` at once: the
/// start of the inflated stream, up to its end, its first corrupt byte, the end of `body` or
/// the end of the room, whichever comes first.
pub uninterp spec fn flate_into(zlib: bool, body: Seq<u8>, room: nat) -> Seq<u8>;

/// `flate2::Decompress::decompress` on a fresh inflater, with all of `body` as input, an
/// output of `room` zero bytes and `FlushDecompress::Finish`; the output is cut to the
/// inflater's `total_out`, which counts the bytes written into it whatever the status.
#[verifier::external_body]
fn inflate_into(zlib: bool, body: &[u8], room: usize) -> (r: Vec<u8>)
    ensures
        r@ == flate_into(zlib, body@, room as nat),
        r@.len() <= room,
{
    let mut out = vec![0u8; room];
    let mut inflater = flate2::Decompress::new(zlib);
    let _status = inflater.decompress(body, out.as_mut_slice(), flate2::FlushDecompress::Finish);
    out.truncate(inflater.total_out() as usize);
    out
}

/// The room the first inflation is given.
pub const INFLATE_FIRST_ROOM: usize = 65536;

/// Inflation from `room` on: an output that filled its room is done again with twice the room,
/// until one does not fill it (or the room cannot double).
pub open spec fn inflate_rounds(zlib: bool, body: Seq<u8>, room: nat) -> Seq<u8>
    decreases usize::MAX - room,
{
    let got = flate_into(zlib, body, room);
    if got.len() < room || room == 0 || room > usize::MAX / 2 {
        got
    } else {
        inflate_rounds(zlib, body, room * 2)
    }
}

/// Flate data inflated: zlib when the first byte after leading whitespace names the deflate
/// method, raw deflate otherwise, from that byte on.
pub open spec fn spec_inflate(data: Seq<u8>) -> Seq<u8> {
    let body = inflate_body(data);
    let zlib = body.len() > 0 && body[0] & 15 == 8;
    inflate_rounds(zlib, body, INFLATE_FIRST_ROOM as nat)
}

/// ASCII whitespace as `u8::is_ascii_whitespace` has it: space, tab, line feed, form feed and
/// carriage return.
pub open spec fn ascii_whitespace(b: u8) -> bool {
    b == 32 || b == 9 || b == 10 || b == 12 || b == 13
}

/// Where Flate data starts: at its first byte that is not ASCII whitespace (or at 0 when there
/// is none).
pub open spec fn inflate_start(d: Seq<u8>) -> int {
    if exists|i: int| 0 <= i < d.len() && !ascii_whitespace(d[i]) {
        choose|i: int|
            0 <= i < d.len() && !ascii_whitespace(d[i]) && forall|j: int|
                0 <= j < i ==> ascii_whitespace(#[trigger] d[j])
    } else {
        0
    }
}

/// The Flate data after leading whitespace.
pub open spec fn inflate_body(d: Seq<u8>) -> Seq<u8> {
    d.subrange(inflate_start(d), d.len() as int)
}

fn skip_ascii_whitespace(data: &[u8]) -> (r: usize)
    ensures
        r == inflate_start(data@),
        r <= data@.len(),
{
    let mut i: usize = 0;
    while i < data.len() && (data[i] == 32 || data[i] == 9 || data[i] == 10 || data[i] == 12
        || data[i] == 13)
        invariant
            i <= data@.len(),
            forall|j: int| 0 <= j < i ==> ascii_whitespace(#[trigger] data@[j]),
        decreases data@.len() - i,
    {
        i = i + 1;
    }
    if i == data.len() {
        assert(!exists|k: int| 0 <= k < data@.len() && !ascii_whitespace(data@[k]));
        return 0;
    }
    let ghost c = choose|k: int|
        0 <= k < data@.len() && !ascii_whitespace(data@[k]) && forall|j: int|
            0 <= j < k ==> ascii_whitespace(#[trigger] data@[j]);
    assert(c == i) by {
        if c < i {
            assert(ascii_whitespace(data@[c]));
        }
        if c > i {
            assert(ascii_whitespace(data@[i as int]));
        }
    }
    i
}

/// A parse error carrying the message `m`.
pub fn parse_error(m: &str) -> (e: Error)
    ensures
        e.is_parse_with(m@),
{
    Error::Parse(m.to_owned())
}

/// Inflates zlib or raw deflate data (zlib when the first byte after leading whitespace names
/// the deflate method), keeping whatever decoded cleanly when the tail is corrupt or
/// truncated. Data that decodes to nothing at all is an error.
pub fn inflate(data: &[u8]) -> (r: Result<Vec<u8>, Error>)
    ensures
        match r {
            Ok(v) => v@ == spec_inflate(data@) && (v@.len() > 0 || inflate_body(data@).len() == 0),
            Err(e) => e.is_parse_with("flate stream decoded to nothing"@) && spec_inflate(
                data@,
            ).len() == 0 && inflate_body(data@).len() > 0,
        },
{
    let start = skip_ascii_whitespace(data);
    let body = slice_from(data, start);
    let zlib = body.len() > 0 && body[0] & 15u8 == 8u8;
    let mut room: usize = INFLATE_FIRST_ROOM;
    let mut out = inflate_into(zlib, body, room);
    while out.len() == room && room <= usize::MAX / 2
        invariant
            room > 0,
            out@ == flate_into(zlib, body@, room as nat),
            out@.len() <= room,
            inflate_rounds(zlib, body@, room as nat) == inflate_rounds(
                zlib,
                body@,
                INFLATE_FIRST_ROOM as nat,
            ),
        decreases usize::MAX - room,
    {
        room = room * 2;
        out = inflate_into(zlib, body, room);
    }
    assert(out@ == inflate_rounds(zlib, body@, room as nat));
    if out.len() == 0 && body.len() > 0 {
        return Err(parse_error("flate stream decoded to nothing"));
    }
    Ok(out)
}

/// `data[from..]`.
fn slice_from(data: &[u8], from: usize) -> (r: &[u8])
    requires
        from <= data@.len(),
    ensures
        r@ == data@.subrange(from as int, data@.len() as int),
{
    let r = vstd::slice::slice_subrange(data, from, data.len());
    r
}

// ---- the filter chain ---------------------------------------------------------------------

/// How indirect objects are looked up while a filter chain is read: `/Filter`, `/DecodeParms`
/// and their members may all be references.
pub trait Resolve {
    /// The direct object `o` stands for.
    spec fn resolved(&self, o: ObjectView) -> ObjectView;

    fn resolve(&self, o: &Object) -> (r: Object)
        ensures
            r@ == self.resolved(o@),
    ;
}

/// Resolution for data that holds no references, such as cross-reference streams: every
/// object stands for itself.
pub struct Direct;

impl Resolve for Direct {
    open spec fn resolved(&self, o: ObjectView) -> ObjectView {
        o
    }

    fn resolve(&self, o: &Object) -> (r: Object) {
        o.clone()
    }
}

/// The result of running a stream's filter chain.
pub struct Decoded {
    pub data: Vec<u8>,
    /// `Some(name)` when the chain ended at an image codec the byte-level filters do not
    /// decode; `data` is then that codec's compressed payload.
    pub image_filter: Option<String>,
}

/// What a filter chain comes to: decoded bytes (and the image codec it stopped at, if any), or
/// the message of the parse error it failed with.
pub enum DecodeOutcome {
    Done(Seq<u8>, Option<Seq<char>>),
    Fail(Seq<char>),
    Other,
}

pub open spec fn outcome_of(r: Result<Decoded, Error>) -> DecodeOutcome {
    match r {
        Ok(d) => DecodeOutcome::Done(
            d.data@,
            match d.image_filter {
                Some(n) => Some(n@),
                None => None,
            },
        ),
        Err(Error::Parse(m)) => DecodeOutcome::Fail(m@),
        Err(_) => DecodeOutcome::Other,
    }
}

/// The `/Filter` entry (or `/F`, unless that is a string, which is a file specification).
pub open spec fn filter_entry(d: Seq<(Seq<char>, ObjectView)>) -> Option<ObjectView> {
    match dict_lookup(d, "Filter"@) {
        Some(o) => Some(o),
        None => match dict_lookup(d, "F"@) {
            Some(o) => if o is Str {
                None
            } else {
                Some(o)
            },
            None => None,
        },
    }
}

/// The names among `items`, each resolved first; other items are skipped.
pub open spec fn names_among<R: Resolve>(items: Seq<ObjectView>, r: R) -> Seq<Seq<char>>
    decreases items.len(),
{
    if items.len() == 0 {
        Seq::empty()
    } else {
        let rest = names_among(items.drop_last(), r);
        match r.resolved(items.last()) {
            ObjectView::Name(n) => rest.push(n),
            _ => rest,
        }
    }
}

/// The filter names of a stream dictionary: one name, or the names in an array.
pub open spec fn spec_filter_names<R: Resolve>(d: Seq<(Seq<char>, ObjectView)>, r: R) -> Seq<
    Seq<char>,
> {
    match filter_entry(d) {
        None => Seq::empty(),
        Some(e) => match r.resolved(e) {
            ObjectView::Name(n) => seq![n],
            ObjectView::Array(items) => names_among(items, r),
            _ => Seq::empty(),
        },
    }
}

/// The `/DecodeParms` entry (or `/DP`).
pub open spec fn parms_entry(d: Seq<(Seq<char>, ObjectView)>) -> Option<ObjectView> {
    match dict_lookup(d, "DecodeParms"@) {
        Some(o) => Some(o),
        None => dict_lookup(d, "DP"@),
    }
}

/// The entries of a dictionary or of a stream's dictionary; none for anything else.
pub open spec fn entries_of(o: ObjectView) -> Seq<(Seq<char>, ObjectView)> {
    match o {
        ObjectView::Dict(x) => x,
        ObjectView::Stream(x, _) => x,
        _ => Seq::empty(),
    }
}

/// The parameter dictionaries of the `n` filters: a single dictionary applies to the first
/// filter, an array gives one per filter, and a missing one is empty.
pub open spec fn spec_decode_parms<R: Resolve>(d: Seq<(Seq<char>, ObjectView)>, n: nat, r: R) -> Seq<
    Seq<(Seq<char>, ObjectView)>,
> {
    match parms_entry(d) {
        None => Seq::new(n, |i: int| Seq::empty()),
        Some(e) => match r.resolved(e) {
            ObjectView::Dict(x) => Seq::new(
                n,
                |i: int|
                    if i == 0 {
                        x
                    } else {
                        Seq::empty()
                    },
            ),
            ObjectView::Array(items) => Seq::new(
                n,
                |i: int|
                    if i < items.len() {
                        entries_of(r.resolved(items[i]))
                    } else {
                        Seq::empty()
                    },
            ),
            _ => Seq::new(n, |i: int| Seq::empty()),
        },
    }
}

/// An integer parameter: the entry `key` resolved and read as an integer, else `default`.
pub open spec fn param_int<R: Resolve>(
    parm: Seq<(Seq<char>, ObjectView)>,
    key: Seq<char>,
    default: i64,
    r: R,
) -> i64 {
    match dict_lookup(parm, key) {
        Some(o) => match spec_as_int(r.resolved(o)) {
            Some(v) => v,
            None => default,
        },
        None => default,
    }
}

/// The predictor a parameter dictionary names, applied to `d`.
pub open spec fn predicted<R: Resolve>(parm: Seq<(Seq<char>, ObjectView)>, d: Seq<u8>, r: R) -> Result<
    Seq<u8>,
    u8,
> {
    spec_predict(
        param_int(parm, "Predictor"@, 1, r) as int,
        param_int(parm, "Colors"@, 1, r) as int,
        param_int(parm, "BitsPerComponent"@, 8, r) as int,
        param_int(parm, "Columns"@, 1, r) as int,
        d,
    )
}

pub open spec fn is_flate(n: Seq<char>) -> bool {
    n == "FlateDecode"@ || n == "Fl"@
}

pub open spec fn is_lzw(n: Seq<char>) -> bool {
    n == "LZWDecode"@ || n == "LZW"@
}

pub open spec fn is_ascii_hex(n: Seq<char>) -> bool {
    n == "ASCIIHexDecode"@ || n == "AHx"@
}

pub open spec fn is_ascii85(n: Seq<char>) -> bool {
    n == "ASCII85Decode"@ || n == "A85"@
}

pub open spec fn is_run_length(n: Seq<char>) -> bool {
    n == "RunLengthDecode"@ || n == "RL"@
}

/// The image codecs that are reported by name and not decoded here.
pub open spec fn is_image_codec(n: Seq<char>) -> bool {
    n == "DCTDecode"@ || n == "DCT"@ || n == "JPXDecode"@ || n == "CCITTFaxDecode"@ || n
        == "CCF"@ || n == "JBIG2Decode"@
}

/// What one filter does: the chain goes on with new data, or stops with an outcome.
pub enum StepView {
    Next(Seq<u8>),
    Stop(DecodeOutcome),
}

/// One filter named `name` with parameters `parm` applied to `data`. Flate fails where it
/// inflates non-empty input to nothing, `Crypt` is the identity, an image codec stops the
/// chain, and an unknown name fails it.
#[verifier::opaque]
pub open spec fn filter_step<R: Resolve>(
    name: Seq<char>,
    parm: Seq<(Seq<char>, ObjectView)>,
    r: R,
    data: Seq<u8>,
) -> StepView {
    if is_flate(name) {
        let inflated = spec_inflate(data);
        if inflated.len() == 0 && inflate_body(data).len() > 0 {
            StepView::Stop(DecodeOutcome::Fail("flate stream decoded to nothing"@))
        } else {
            match predicted(parm, inflated, r) {
                Ok(d2) => StepView::Next(d2),
                Err(ft) => StepView::Stop(
                    DecodeOutcome::Fail("png predictor row type "@ + decimal_chars(ft as nat)),
                ),
            }
        }
    } else if is_lzw(name) {
        let early = param_int(parm, "EarlyChange"@, 1, r) != 0;
        match predicted(parm, spec_lzw_decode(data, early), r) {
            Ok(d2) => StepView::Next(d2),
            Err(ft) => StepView::Stop(
                DecodeOutcome::Fail("png predictor row type "@ + decimal_chars(ft as nat)),
            ),
        }
    } else if is_ascii_hex(name) {
        StepView::Next(spec_ascii_hex_decode(data))
    } else if is_ascii85(name) {
        StepView::Next(spec_ascii85_decode(data))
    } else if is_run_length(name) {
        StepView::Next(run_length_scan(data, 0))
    } else if name == "Crypt"@ {
        StepView::Next(data)
    } else if is_image_codec(name) {
        StepView::Stop(DecodeOutcome::Done(data, Some(name)))
    } else {
        StepView::Stop(DecodeOutcome::Fail("unknown filter "@ + name))
    }
}

/// Filters `i..` of a chain applied to `data`.
#[verifier::opaque]
pub open spec fn decode_chain<R: Resolve>(
    names: Seq<Seq<char>>,
    parms: Seq<Seq<(Seq<char>, ObjectView)>>,
    r: R,
    data: Seq<u8>,
    i: int,
) -> DecodeOutcome
    decreases names.len() - i,
{
    if i < 0 || i >= names.len() {
        DecodeOutcome::Done(data, None)
    } else {
        match filter_step(names[i], parms[i], r, data) {
            StepView::Next(d2) => decode_chain(names, parms, r, d2, i + 1),
            StepView::Stop(o) => o,
        }
    }
}

/// A stream's filter chain applied to `data`.
pub open spec fn spec_decode<R: Resolve>(
    d: Seq<(Seq<char>, ObjectView)>,
    data: Seq<u8>,
    r: R,
) -> DecodeOutcome {
    let names = spec_filter_names(d, r);
    decode_chain(names, spec_decode_parms(d, names.len(), r), r, data, 0)
}

#[verifier::rlimit(50)]
fn filter_names<R: Resolve>(dict: &Dict, resolve: &R) -> (r: Vec<String>)
    ensures
        r@.map_values(|s: String| s@) == spec_filter_names(dict@, *resolve),
{
    let entry = match dict.get("Filter") {
        Some(o) => Some(o),
        None => match dict.get("F") {
            Some(o) => {
                if o.as_string().is_some() {
                    None
                } else {
                    Some(o)
                }
            },
            None => None,
        },
    };
    let mut out: Vec<String> = Vec::new();
    match entry {
        None => {},
        Some(e) => {
            let v = resolve.resolve(e);
            match v {
                Object::Name(n) => {
                    out.push(n);
                },
                Object::Array(items) => {
                    let mut i: usize = 0;
                    let ghost iv = items@.map_values(|o: Object| o@);
                    assert(v@ == ObjectView::Array(iv)) by {
                        assert(v@->Array_0 =~= iv);
                    }
                    while i < items.len()
                        invariant
                            i <= items@.len(),
                            iv == items@.map_values(|o: Object| o@),
                            out@.map_values(|s: String| s@) == names_among(
                                iv.subrange(0, i as int),
                                *resolve,
                            ),
                        decreases items@.len() - i,
                    {
                        let ghost before = out@;
                        let o = resolve.resolve(&items[i]);
                        assert(iv.subrange(0, i + 1).drop_last() =~= iv.subrange(0, i as int));
                        match o {
                            Object::Name(n) => {
                                out.push(n);
                                assert(out@.map_values(|s: String| s@) =~= before.map_values(
                                    |s: String| s@,
                                ).push(o@->Name_0));
                            },
                            _ => {},
                        }
                        i = i + 1;
                    }
                    assert(iv.subrange(0, items@.len() as int) =~= iv);
                },
                _ => {},
            }
        },
    }
    assert(out@.map_values(|s: String| s@) =~= spec_filter_names(dict@, *resolve));
    out
}

fn empty_dicts(n: usize) -> (r: Vec<Dict>)
    ensures
        r@.len() == n,
        forall|i: int| 0 <= i < n ==> (#[trigger] r@[i])@ == Seq::<(Seq<char>, ObjectView)>::empty(),
{
    let mut v: Vec<Dict> = Vec::new();
    let mut i: usize = 0;
    while i < n
        invariant
            i <= n,
            v@.len() == i,
            forall|k: int| 0 <= k < i ==> (#[trigger] v@[k])@ == Seq::<(Seq<char>, ObjectView)>::empty(),
        decreases n - i,
    {
        v.push(Dict::new());
        i = i + 1;
    }
    v
}

#[verifier::rlimit(50)]
fn decode_parms<R: Resolve>(dict: &Dict, n: usize, resolve: &R) -> (r: Vec<Dict>)
    ensures
        r@.len() == n,
        forall|i: int| 0 <= i < n ==> (#[trigger] r@[i])@ == spec_decode_parms(dict@, n as nat, *resolve)[i],
{
    let ghost spec = spec_decode_parms(dict@, n as nat, *resolve);
    let entry = match dict.get("DecodeParms") {
        Some(o) => Some(o),
        None => dict.get("DP"),
    };
    match entry {
        None => empty_dicts(n),
        Some(e) => {
            let v = resolve.resolve(e);
            match v {
                Object::Dict(d) => {
                    let mut out = empty_dicts(n);
                    if n > 0 {
                        out.set(0, d);
                    }
                    out
                },
                Object::Array(items) => {
                    let ghost iv = items@.map_values(|o: Object| o@);
                    assert(v@ == ObjectView::Array(iv)) by {
                        assert(v@->Array_0 =~= iv);
                    }
                    let mut out: Vec<Dict> = Vec::new();
                    let mut i: usize = 0;
                    while i < n
                        invariant
                            i <= n,
                            out@.len() == i,
                            iv == items@.map_values(|o: Object| o@),
                            spec == Seq::new(
                                n as nat,
                                |k: int|
                                    if k < iv.len() {
                                        entries_of(resolve.resolved(iv[k]))
                                    } else {
                                        Seq::<(Seq<char>, ObjectView)>::empty()
                                    },
                            ),
                            forall|k: int| 0 <= k < i ==> (#[trigger] out@[k])@ == spec[k],
                        decreases n - i,
                    {
                        if i < items.len() {
                            let o = resolve.resolve(&items[i]);
                            match o.as_dict() {
                                Some(d) => {
                                    out.push(d.clone());
                                },
                                None => {
                                    out.push(Dict::new());
                                },
                            }
                        } else {
                            out.push(Dict::new());
                        }
                        i = i + 1;
                    }
                    out
                },
                _ => empty_dicts(n),
            }
        },
    }
}

/// An integer parameter of `parm`: the entry `key`, resolved and read as an integer, else
/// `default`.
fn param_int_of<R: Resolve>(parm: &Dict, key: &str, default: i64, resolve: &R) -> (v: i64)
    ensures
        v == param_int(parm@, key@, default, *resolve),
{
    match parm.get(key) {
        Some(o) => match resolve.resolve(o).as_int() {
            Some(v) => v,
            None => default,
        },
        None => default,
    }
}

fn apply_predictor<R: Resolve>(parm: &Dict, data: Vec<u8>, resolve: &R) -> (r: Result<Vec<u8>, u8>)
    ensures
        match r {
            Ok(v) => predicted(parm@, data@, *resolve) == Ok::<Seq<u8>, u8>(v@),
            Err(ft) => predicted(parm@, data@, *resolve) == Err::<Seq<u8>, u8>(ft),
        },
{
    let predictor = param_int_of(parm, "Predictor", 1, resolve);
    let colors = param_int_of(parm, "Colors", 1, resolve);
    let bpc = param_int_of(parm, "BitsPerComponent", 8, resolve);
    let columns = param_int_of(parm, "Columns", 1, resolve);
    predict(predictor, colors, bpc, columns, data)
}

fn name_is(n: &String, a: &str, b: &str) -> (r: bool)
    ensures
        r == (n@ == a@ || n@ == b@),
{
    str_eq(n.as_str(), a) || str_eq(n.as_str(), b)
}

fn is_image_codec_name(n: &String) -> (r: bool)
    ensures
        r == is_image_codec(n@),
{
    name_is(n, "DCTDecode", "DCT") || name_is(n, "JPXDecode", "CCITTFaxDecode") || name_is(
        n,
        "CCF",
        "JBIG2Decode",
    )
}

/// What one filter did: new data for the next filter, or the chain's result.
enum FilterStep {
    Next(Vec<u8>),
    Stop(Result<Decoded, Error>),
}

spec fn step_view(s: FilterStep) -> StepView {
    match s {
        FilterStep::Next(d) => StepView::Next(d@),
        FilterStep::Stop(r) => StepView::Stop(outcome_of(r)),
    }
}

/// Applies the filter `name` with parameters `parm`.
#[verifier::rlimit(50)]
fn apply_filter<R: Resolve>(name: &String, parm: &Dict, data: Vec<u8>, resolve: &R) -> (r: FilterStep)
    ensures
        step_view(r) == filter_step(name@, parm@, *resolve, data@),
{
    reveal(filter_step);
    if name_is(name, "FlateDecode", "Fl") {
        match inflate(data.as_slice()) {
            Err(e) => FilterStep::Stop(Err(e)),
            Ok(v) => match apply_predictor(parm, v, resolve) {
                Ok(d2) => FilterStep::Next(d2),
                Err(ft) => FilterStep::Stop(
                    Err(Error::Parse(message_with_number("png predictor row type ", ft as u64))),
                ),
            },
        }
    } else if name_is(name, "LZWDecode", "LZW") {
        let early = param_int_of(parm, "EarlyChange", 1, resolve) != 0;
        let lz = lzw_decode(data.as_slice(), early);
        match apply_predictor(parm, lz, resolve) {
            Ok(d2) => FilterStep::Next(d2),
            Err(ft) => FilterStep::Stop(
                Err(Error::Parse(message_with_number("png predictor row type ", ft as u64))),
            ),
        }
    } else if name_is(name, "ASCIIHexDecode", "AHx") {
        FilterStep::Next(ascii_hex_decode(data.as_slice()))
    } else if name_is(name, "ASCII85Decode", "A85") {
        FilterStep::Next(ascii85_decode(data.as_slice()))
    } else if name_is(name, "RunLengthDecode", "RL") {
        FilterStep::Next(run_length_decode(data.as_slice()))
    } else if str_eq(name.as_str(), "Crypt") {
        // Identity crypt filters appear on already-decrypted streams; anything else was
        // handled at the document layer before filters ran.
        FilterStep::Next(data)
    } else if is_image_codec_name(name) {
        FilterStep::Stop(Ok(Decoded { data, image_filter: Some(name.clone()) }))
    } else {
        FilterStep::Stop(Err(Error::Parse(message_with_text("unknown filter ", name.as_str()))))
    }
}

proof fn lemma_chain_step<R: Resolve>(
    names: Seq<Seq<char>>,
    parms: Seq<Seq<(Seq<char>, ObjectView)>>,
    r: R,
    data: Seq<u8>,
    i: int,
)
    requires
        0 <= i < names.len(),
    ensures
        decode_chain(names, parms, r, data, i) == match filter_step(names[i], parms[i], r, data) {
            StepView::Next(d2) => decode_chain(names, parms, r, d2, i + 1),
            StepView::Stop(o) => o,
        },
{
    reveal(decode_chain);
}

/// Applies a stream's `/Filter` chain to `data`.
///
/// `resolve` maps indirect objects to direct ones, since `/Filter`, `/DecodeParms` and their
/// members may all be references.
pub fn decode<R: Resolve>(dict: &Dict, data: &[u8], resolve: &R) -> (r: Result<Decoded, Error>)
    ensures
        outcome_of(r) == spec_decode(dict@, data@, *resolve),
{
    let filters = filter_names(dict, resolve);
    let ghost names = spec_filter_names(dict@, *resolve);
    assert(filters@.len() == names.len()) by {
        assert(filters@.map_values(|s: String| s@).len() == filters@.len());
    }
    let parms = decode_parms(dict, filters.len(), resolve);
    let ghost pv = spec_decode_parms(dict@, names.len(), *resolve);
    let mut cur: Vec<u8> = vstd::slice::slice_to_vec(data);
    let mut i: usize = 0;
    while i < filters.len()
        invariant
            names == filters@.map_values(|s: String| s@),
            names == spec_filter_names(dict@, *resolve),
            names.len() == filters@.len(),
            pv == spec_decode_parms(dict@, names.len(), *resolve),
            parms@.len() == filters@.len(),
            forall|k: int| 0 <= k < parms@.len() ==> (#[trigger] parms@[k])@ == pv[k],
            i <= filters@.len(),
            decode_chain(names, pv, *resolve, data@, 0) == decode_chain(
                names,
                pv,
                *resolve,
                cur@,
                i as int,
            ),
        decreases filters@.len() - i,
    {
        assert(names[i as int] == filters@[i as int]@);
        assert(pv[i as int] == parms@[i as int]@);
        proof {
            lemma_chain_step(names, pv, *resolve, cur@, i as int);
        }
        let step = apply_filter(&filters[i], &parms[i], cur, resolve);
        match step {
            FilterStep::Next(d2) => {
                cur = d2;
            },
            FilterStep::Stop(res) => {
                return res;
            },
        }
        i = i + 1;
    }
    proof {
        reveal(decode_chain);
    }
    Ok(Decoded { data: cur, image_filter: None })
}

} // verus!
