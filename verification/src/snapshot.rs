//! Turning a read-back frame into a binary PPM image.

use vstd::prelude::*;

verus! {

/// The decimal digits of `n`, as ASCII bytes, with no leading zeros.
pub open spec fn decimal(n: nat) -> Seq<u8>
    decreases n,
{
    if n < 10 {
        seq![(48 + n) as u8]
    } else {
        decimal(n / 10).push((48 + n % 10) as u8)
    }
}

/// The header of a binary PPM image: `P6`, the width and height in decimal, and the
/// maximum channel value 255, each followed by white space.
pub open spec fn ppm_header(width: nat, height: nat) -> Seq<u8> {
    seq![80u8, 54, 10] + decimal(width) + seq![32u8] + decimal(height) + seq![10u8, 50, 53, 53, 10]
}

/// The red, green and blue bytes of four-byte pixel `i`: in that order in the pixel, or
/// blue, green, red when the pixel is stored as BGRA. The fourth byte is left out.
pub open spec fn rgb_of(px: Seq<u8>, i: int, bgra: bool) -> Seq<u8> {
    if bgra {
        seq![px[4 * i + 2], px[4 * i + 1], px[4 * i]]
    } else {
        seq![px[4 * i], px[4 * i + 1], px[4 * i + 2]]
    }
}

/// The RGB bytes of the first `k` pixels, in order.
pub open spec fn ppm_body(px: Seq<u8>, bgra: bool, k: nat) -> Seq<u8>
    decreases k,
{
    if k == 0 {
        seq![]
    } else {
        ppm_body(px, bgra, (k - 1) as nat) + rgb_of(px, k - 1, bgra)
    }
}

/// The PPM image of a frame of four-byte pixels; bytes after the last whole pixel are
/// left out.
pub open spec fn spec_ppm_image(width: nat, height: nat, px: Seq<u8>, bgra: bool) -> Seq<u8> {
    ppm_header(width, height) + ppm_body(px, bgra, px.len() / 4)
}

fn push_decimal(out: &mut Vec<u8>, n: u32)
    ensures
        final(out)@ == old(out)@ + decimal(n as nat),
    decreases n,
{
    if n >= 10 {
        push_decimal(out, n / 10);
    }
    out.push(48 + (n % 10) as u8);
    assert(final(out)@ =~= old(out)@ + decimal(n as nat));
}

/// Encodes a frame read back as four-byte pixels (RGBA, or BGRA when `bgra`) as a binary
/// PPM image of `width` by `height` pixels.
pub fn ppm_image(width: u32, height: u32, px: &[u8], bgra: bool) -> (out: Vec<u8>)
    ensures
        out@ == spec_ppm_image(width as nat, height as nat, px@, bgra),
{
    let mut out: Vec<u8> = Vec::new();
    out.push(80);
    out.push(54);
    out.push(10);
    push_decimal(&mut out, width);
    out.push(32);
    push_decimal(&mut out, height);
    out.push(10);
    out.push(50);
    out.push(53);
    out.push(53);
    out.push(10);
    assert(out@ =~= ppm_header(width as nat, height as nat));
    let ghost header = out@;
    let n = px.len();
    let mut b: usize = 0;
    let ghost mut i: nat = 0;
    while 4 <= n - b
        invariant
            n == px@.len(),
            b == 4 * i,
            b <= n,
            out@ == header + ppm_body(px@, bgra, i),
        decreases n - b,
    {
        let ghost before = out@;
        if bgra {
            out.push(px[b + 2]);
            out.push(px[b + 1]);
            out.push(px[b]);
        } else {
            out.push(px[b]);
            out.push(px[b + 1]);
            out.push(px[b + 2]);
        }
        proof {
            assert(ppm_body(px@, bgra, i + 1) == ppm_body(px@, bgra, i) + rgb_of(px@, i as int, bgra));
            assert(out@ =~= header + ppm_body(px@, bgra, i + 1));
            i = i + 1;
        }
        b = b + 4;
    }
    assert(i == n / 4);
    out
}

/// Each pixel gives three bytes, so the image is the header and three bytes per whole pixel.
pub proof fn lemma_ppm_len(px: Seq<u8>, bgra: bool, k: nat)
    ensures
        ppm_body(px, bgra, k).len() == 3 * k,
    decreases k,
{
    if k > 0 {
        lemma_ppm_len(px, bgra, (k - 1) as nat);
    }
}

/// Byte `c` of pixel `i` in the body is the channel that `rgb_of` puts there.
pub proof fn lemma_ppm_pixel(px: Seq<u8>, bgra: bool, k: nat, i: int, c: int)
    requires
        0 <= i < k,
        0 <= c < 3,
    ensures
        ppm_body(px, bgra, k)[3 * i + c] == rgb_of(px, i, bgra)[c],
    decreases k,
{
    lemma_ppm_len(px, bgra, (k - 1) as nat);
    if i < k - 1 {
        lemma_ppm_pixel(px, bgra, (k - 1) as nat, i, c);
    }
}

/// The number that a sequence of ASCII decimal digits spells, most significant first.
pub open spec fn digits_value(s: Seq<u8>) -> int
    decreases s.len(),
{
    if s.len() == 0 {
        0
    } else {
        digits_value(s.drop_last()) * 10 + (s.last() - 48)
    }
}

/// `decimal(n)` is the usual way of writing `n`: ASCII digits only, no leading zero, and
/// spelling `n`.
pub proof fn lemma_decimal_spells(n: nat)
    ensures
        decimal(n).len() >= 1,
        n >= 10 ==> decimal(n).len() >= 2,
        forall|i: int| 0 <= i < decimal(n).len() ==> 48 <= #[trigger] decimal(n)[i] <= 57,
        decimal(n).len() == 1 || decimal(n)[0] != 48,
        digits_value(decimal(n)) == n,
    decreases n,
{
    if n >= 10 {
        lemma_decimal_spells(n / 10);
        let d = decimal(n / 10);
        assert(decimal(n).drop_last() =~= d);
        assert(decimal(n)[0] == d[0]);
        if n / 10 < 10 {
            assert(d[0] == 48 + n / 10);
        } else {
            assert(d.len() >= 2);
        }
        assert forall|i: int| 0 <= i < decimal(n).len() implies 48 <= #[trigger] decimal(n)[i]
            <= 57 by {
            if i < d.len() {
                assert(decimal(n)[i] == d[i]);
            }
        }
    } else {
        assert(digits_value(decimal(n).drop_last()) == 0);
    }
}

/// The layout of the image: `P6`, newline, the width, a space, the height, newline, `255`,
/// newline; then three bytes for each whole pixel of the frame, in order, red, green, blue
/// (taken from bytes 0, 1, 2 of the pixel, or 2, 1, 0 when it is stored as BGRA).
pub proof fn lemma_ppm_layout(width: nat, height: nat, px: Seq<u8>, bgra: bool)
    ensures
        ({
            let head = seq![80u8, 54, 10] + decimal(width) + seq![32u8] + decimal(height) + seq![
                10u8,
                50,
                53,
                53,
                10,
            ];
            let out = spec_ppm_image(width, height, px, bgra);
            &&& out.len() == head.len() + 3 * (px.len() / 4)
            &&& out.subrange(0, head.len() as int) == head
            &&& forall|i: int, c: int|
                0 <= i < px.len() / 4 && 0 <= c < 3 ==> #[trigger] out[head.len() + 3 * i + c] == if bgra {
                    px[4 * i + 2 - c]
                } else {
                    px[4 * i + c]
                }
        }),
{
    let head = seq![80u8, 54, 10] + decimal(width) + seq![32u8] + decimal(height) + seq![
        10u8,
        50,
        53,
        53,
        10,
    ];
    let k = px.len() / 4;
    let out = spec_ppm_image(width, height, px, bgra);
    assert(head == ppm_header(width, height));
    lemma_ppm_len(px, bgra, k);
    assert(out.subrange(0, head.len() as int) =~= head);
    assert forall|i: int, c: int| 0 <= i < k && 0 <= c < 3 implies #[trigger] out[head.len() + 3
        * i + c] == if bgra {
        px[4 * i + 2 - c]
    } else {
        px[4 * i + c]
    } by {
        lemma_ppm_pixel(px, bgra, k, i, c);
        assert(out[head.len() + 3 * i + c] == ppm_body(px, bgra, k)[3 * i + c]);
    }
}

} // verus!
