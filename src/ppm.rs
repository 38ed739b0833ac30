use vstd::prelude::*;

use crate::image::{Image, Rgb};

verus! {

/// ASCII `P`, which opens the magic number.
pub const MAGIC_P: u8 = 80;

/// ASCII `0`.
pub const DIGIT_ZERO: u8 = 48;

/// ASCII space, between the numbers of a line.
pub const SPACE: u8 = 32;

/// ASCII line feed, which ends each line.
pub const NEWLINE: u8 = 10;

/// The plain-text (ASCII) variant of PPM.
pub const PLAIN_VARIANT: u32 = 3;

/// Largest value of a channel.
pub const MAX_CHANNEL: u32 = 255;

/// ASCII code of the decimal digit `d`.
pub open spec fn digit_byte(d: nat) -> u8
    recommends
        d < 10,
{
    (d + DIGIT_ZERO) as u8
}

/// The decimal representation of `n`, without leading zeros.
pub open spec fn decimal(n: nat) -> Seq<u8>
    decreases n,
{
    if n < 10 {
        seq![digit_byte(n)]
    } else {
        decimal(n / 10).push(digit_byte(n % 10))
    }
}

/// `P3`, the width and height, and the largest channel value, one per line
/// (width and height share theirs).
pub open spec fn header_bytes(width: nat, height: nat) -> Seq<u8> {
    seq![MAGIC_P] + decimal(PLAIN_VARIANT as nat) + seq![NEWLINE] + decimal(width) + seq![SPACE]
        + decimal(height) + seq![NEWLINE] + decimal(MAX_CHANNEL as nat) + seq![NEWLINE]
}

/// One pixel: its three channels in decimal, separated by spaces, on a line
/// of its own.
pub open spec fn pixel_line(c: Rgb) -> Seq<u8> {
    decimal(c.r as nat) + seq![SPACE] + decimal(c.g as nat) + seq![SPACE] + decimal(c.b as nat)
        + seq![NEWLINE]
}

/// The pixel lines of `cells`, in order.
pub open spec fn body_bytes(cells: Seq<Rgb>) -> Seq<u8>
    decreases cells.len(),
{
    if cells.len() == 0 {
        Seq::empty()
    } else {
        body_bytes(cells.drop_last()) + pixel_line(cells.last())
    }
}

/// The whole plain-text image.
pub open spec fn ppm_bytes(width: nat, height: nat, cells: Seq<Rgb>) -> Seq<u8> {
    header_bytes(width, height) + body_bytes(cells)
}

/// Appends the decimal representation of `n`.
pub fn push_decimal(out: &mut Vec<u8>, n: u32)
    ensures
        final(out)@ == old(out)@ + decimal(n as nat),
    decreases n,
{
    if n >= 10 {
        push_decimal(out, n / 10);
    }
    out.push((n % 10) as u8 + DIGIT_ZERO);
    assert(final(out)@ =~= old(out)@ + decimal(n as nat));
}

/// Appends the PPM header of a `width` by `height` image.
pub fn push_header(out: &mut Vec<u8>, width: u32, height: u32)
    ensures
        final(out)@ == old(out)@ + header_bytes(width as nat, height as nat),
{
    out.push(MAGIC_P);
    push_decimal(out, PLAIN_VARIANT);
    out.push(NEWLINE);
    push_decimal(out, width);
    out.push(SPACE);
    push_decimal(out, height);
    out.push(NEWLINE);
    push_decimal(out, MAX_CHANNEL);
    out.push(NEWLINE);
    assert(final(out)@ =~= old(out)@ + header_bytes(width as nat, height as nat));
}

/// Appends the line of one pixel.
pub fn push_pixel(out: &mut Vec<u8>, c: Rgb)
    ensures
        final(out)@ == old(out)@ + pixel_line(c),
{
    push_decimal(out, c.r as u32);
    out.push(SPACE);
    push_decimal(out, c.g as u32);
    out.push(SPACE);
    push_decimal(out, c.b as u32);
    out.push(NEWLINE);
    assert(final(out)@ =~= old(out)@ + pixel_line(c));
}

/// The image as a plain-text PPM (P3) stream: the header, then one line per
/// pixel in row-major order from the top scanline down.
pub fn encode(image: &Image) -> (out: Vec<u8>)
    requires
        image.wf(),
    ensures
        out@ == ppm_bytes(image.spec_width(), image.spec_height(), image.cells()),
{
    let mut out: Vec<u8> = Vec::new();
    push_header(&mut out, image.width(), image.height());
    let cells = image.as_slice();
    let mut i: usize = 0;
    while i < cells.len()
        invariant
            i <= cells@.len(),
            cells@ == image.cells(),
            out@ == header_bytes(image.spec_width(), image.spec_height()) + body_bytes(
                cells@.subrange(0, i as int),
            ),
        decreases cells@.len() - i,
    {
        push_pixel(&mut out, cells[i]);
        proof {
            let prefix = cells@.subrange(0, i + 1);
            assert(prefix.drop_last() =~= cells@.subrange(0, i as int));
            assert(prefix.last() == cells@[i as int]);
        }
        i = i + 1;
        assert(out@ =~= header_bytes(image.spec_width(), image.spec_height()) + body_bytes(
            cells@.subrange(0, i as int),
        ));
    }
    assert(cells@.subrange(0, i as int) =~= cells@);
    out
}

/// Number of line feeds.
pub open spec fn count_lines(s: Seq<u8>) -> nat
    decreases s.len(),
{
    if s.len() == 0 {
        0
    } else {
        count_lines(s.drop_last()) + if s.last() == NEWLINE {
            1nat
        } else {
            0nat
        }
    }
}

proof fn lemma_count_lines_concat(a: Seq<u8>, b: Seq<u8>)
    ensures
        count_lines(a + b) == count_lines(a) + count_lines(b),
    decreases b.len(),
{
    if b.len() == 0 {
        assert(a + b =~= a);
    } else {
        assert((a + b).drop_last() =~= a + b.drop_last());
        lemma_count_lines_concat(a, b.drop_last());
    }
}

proof fn lemma_count_lines_single(x: u8)
    ensures
        count_lines(seq![x]) == if x == NEWLINE {
            1nat
        } else {
            0nat
        },
{
    assert(seq![x].drop_last() =~= Seq::<u8>::empty());
    assert(seq![x].last() == x);
    assert(count_lines(Seq::<u8>::empty()) == 0);
}

proof fn lemma_decimal_has_no_line(n: nat)
    ensures
        count_lines(decimal(n)) == 0,
    decreases n,
{
    if n < 10 {
        lemma_count_lines_single(digit_byte(n));
    } else {
        lemma_decimal_has_no_line(n / 10);
        lemma_count_lines_single(digit_byte(n % 10));
        assert(decimal(n) =~= decimal(n / 10) + seq![digit_byte(n % 10)]);
        lemma_count_lines_concat(decimal(n / 10), seq![digit_byte(n % 10)]);
    }
}

proof fn lemma_pixel_line_is_one_line(c: Rgb)
    ensures
        count_lines(pixel_line(c)) == 1,
{
    let r = decimal(c.r as nat);
    let g = decimal(c.g as nat);
    let b = decimal(c.b as nat);
    lemma_decimal_has_no_line(c.r as nat);
    lemma_decimal_has_no_line(c.g as nat);
    lemma_decimal_has_no_line(c.b as nat);
    lemma_count_lines_single(SPACE);
    lemma_count_lines_single(NEWLINE);
    lemma_count_lines_concat(r, seq![SPACE]);
    lemma_count_lines_concat(r + seq![SPACE], g);
    lemma_count_lines_concat(r + seq![SPACE] + g, seq![SPACE]);
    lemma_count_lines_concat(r + seq![SPACE] + g + seq![SPACE], b);
    lemma_count_lines_concat(r + seq![SPACE] + g + seq![SPACE] + b, seq![NEWLINE]);
}

proof fn lemma_header_is_three_lines(width: nat, height: nat)
    ensures
        count_lines(header_bytes(width, height)) == 3,
{
    let v = decimal(PLAIN_VARIANT as nat);
    let w = decimal(width);
    let h = decimal(height);
    let m = decimal(MAX_CHANNEL as nat);
    lemma_decimal_has_no_line(PLAIN_VARIANT as nat);
    lemma_decimal_has_no_line(width);
    lemma_decimal_has_no_line(height);
    lemma_decimal_has_no_line(MAX_CHANNEL as nat);
    lemma_count_lines_single(MAGIC_P);
    lemma_count_lines_single(SPACE);
    lemma_count_lines_single(NEWLINE);
    let p1 = seq![MAGIC_P] + v;
    let p2 = p1 + seq![NEWLINE];
    let p3 = p2 + w;
    let p4 = p3 + seq![SPACE];
    let p5 = p4 + h;
    let p6 = p5 + seq![NEWLINE];
    let p7 = p6 + m;
    lemma_count_lines_concat(seq![MAGIC_P], v);
    lemma_count_lines_concat(p1, seq![NEWLINE]);
    lemma_count_lines_concat(p2, w);
    lemma_count_lines_concat(p3, seq![SPACE]);
    lemma_count_lines_concat(p4, h);
    lemma_count_lines_concat(p5, seq![NEWLINE]);
    lemma_count_lines_concat(p6, m);
    lemma_count_lines_concat(p7, seq![NEWLINE]);
}

proof fn lemma_body_lines(cells: Seq<Rgb>)
    ensures
        count_lines(body_bytes(cells)) == cells.len(),
    decreases cells.len(),
{
    if cells.len() > 0 {
        lemma_body_lines(cells.drop_last());
        lemma_pixel_line_is_one_line(cells.last());
        lemma_count_lines_concat(body_bytes(cells.drop_last()), pixel_line(cells.last()));
    }
}

/// The stream holds the three lines of the header and then exactly one line
/// per pixel.
pub proof fn lemma_ppm_line_count(width: nat, height: nat, cells: Seq<Rgb>)
    ensures
        count_lines(ppm_bytes(width, height, cells)) == 3 + cells.len(),
{
    lemma_header_is_three_lines(width, height);
    lemma_body_lines(cells);
    lemma_count_lines_concat(header_bytes(width, height), body_bytes(cells));
}

} // verus!
