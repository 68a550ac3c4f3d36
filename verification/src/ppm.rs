//! The text of a plain PPM image: numbers in decimal, the header, and the
//! shape of the whole file.

use vstd::prelude::*;

verus! {

/// The byte of a space.
pub const SPACE: u8 = 32;

/// The byte of a line feed.
pub const NEWLINE: u8 = 10;

/// The largest value of a colour channel, as the header announces it.
pub const MAX_CHANNEL: u8 = 255;

/// The ASCII digit for a number below ten.
pub open spec fn digit(d: nat) -> u8
    recommends
        d < 10,
{
    (48 + d) as u8
}

/// The decimal numeral of `n`, most significant digit first, without
/// leading zeros.
pub open spec fn decimal(n: nat) -> Seq<u8>
    decreases n,
{
    if n < 10 {
        seq![digit(n)]
    } else {
        decimal(n / 10).push(digit(n % 10))
    }
}

/// The number that a string of ASCII digits denotes in base ten.
pub open spec fn decimal_value(digits: Seq<u8>) -> nat
    decreases digits.len(),
{
    if digits.len() == 0 {
        0
    } else {
        (10 * decimal_value(digits.drop_last()) + (digits.last() - 48)) as nat
    }
}

/// The header of a plain PPM image of the given size: the magic word of the
/// format (a capital P and the digit 3), then width and height, then the
/// largest channel value, each on a line of its own.
pub open spec fn header(width: nat, height: nat) -> Seq<u8> {
    seq![80u8, 51u8, NEWLINE] + decimal(width) + seq![SPACE] + decimal(height) + seq![NEWLINE]
        + decimal(MAX_CHANNEL as nat) + seq![NEWLINE]
}

/// The line of one pixel: red, green and blue in decimal, a space between
/// them and a line feed behind.
pub open spec fn pixel_line(red: u8, green: u8, blue: u8) -> Seq<u8> {
    decimal(red as nat) + seq![SPACE] + decimal(green as nat) + seq![SPACE] + decimal(blue as nat)
        + seq![NEWLINE]
}

/// The number of line feeds in a text.
pub open spec fn line_feeds(text: Seq<u8>) -> nat
    decreases text.len(),
{
    if text.len() == 0 {
        0
    } else if text.last() == NEWLINE {
        line_feeds(text.drop_last()) + 1
    } else {
        line_feeds(text.drop_last())
    }
}

/// The line feeds of two texts written one after the other add up.
pub proof fn lemma_line_feeds_add(front: Seq<u8>, back: Seq<u8>)
    ensures
        line_feeds(front + back) == line_feeds(front) + line_feeds(back),
    decreases back.len(),
{
    if back.len() == 0 {
        assert(front + back == front);
    } else {
        lemma_line_feeds_add(front, back.drop_last());
        assert((front + back).drop_last() == front + back.drop_last());
        assert((front + back).last() == back.last());
    }
}

/// A numeral holds no line feed.
pub proof fn lemma_decimal_is_one_word(n: nat)
    ensures
        line_feeds(decimal(n)) == 0,
    decreases n,
{
    if n >= 10 {
        lemma_decimal_is_one_word(n / 10);
        assert(decimal(n).drop_last() == decimal(n / 10));
    } else {
        assert(decimal(n).drop_last() == Seq::<u8>::empty());
        assert(line_feeds(Seq::<u8>::empty()) == 0);
    }
}

/// A text of one byte has one line feed if the byte is one, else none.
proof fn lemma_line_feeds_of_one(byte: u8)
    ensures
        line_feeds(seq![byte]) == if byte == NEWLINE {
            1nat
        } else {
            0nat
        },
{
    assert(seq![byte].drop_last() == Seq::<u8>::empty());
    assert(line_feeds(Seq::<u8>::empty()) == 0);
}

/// The line of a pixel is one line.
pub proof fn lemma_pixel_line_is_one_line(red: u8, green: u8, blue: u8)
    ensures
        line_feeds(pixel_line(red, green, blue)) == 1,
        pixel_line(red, green, blue).last() == NEWLINE,
{
    let (r, g, b) = (decimal(red as nat), decimal(green as nat), decimal(blue as nat));
    lemma_decimal_is_one_word(red as nat);
    lemma_decimal_is_one_word(green as nat);
    lemma_decimal_is_one_word(blue as nat);
    lemma_line_feeds_of_one(SPACE);
    lemma_line_feeds_of_one(NEWLINE);
    lemma_line_feeds_add(r, seq![SPACE]);
    lemma_line_feeds_add(r + seq![SPACE], g);
    lemma_line_feeds_add(r + seq![SPACE] + g, seq![SPACE]);
    lemma_line_feeds_add(r + seq![SPACE] + g + seq![SPACE], b);
    lemma_line_feeds_add(r + seq![SPACE] + g + seq![SPACE] + b, seq![NEWLINE]);
}

/// The header is three lines.
pub proof fn lemma_header_is_three_lines(width: nat, height: nat)
    ensures
        line_feeds(header(width, height)) == 3,
{
    let magic = seq![80u8, 51u8, NEWLINE];
    let (w, h, m) = (decimal(width), decimal(height), decimal(MAX_CHANNEL as nat));
    lemma_decimal_is_one_word(width);
    lemma_decimal_is_one_word(height);
    lemma_decimal_is_one_word(MAX_CHANNEL as nat);
    lemma_line_feeds_of_one(SPACE);
    lemma_line_feeds_of_one(NEWLINE);
    assert(line_feeds(magic) == 1) by {
        assert(magic == seq![80u8] + seq![51u8] + seq![NEWLINE]);
        lemma_line_feeds_of_one(80u8);
        lemma_line_feeds_of_one(51u8);
        lemma_line_feeds_add(seq![80u8], seq![51u8]);
        lemma_line_feeds_add(seq![80u8] + seq![51u8], seq![NEWLINE]);
    }
    lemma_line_feeds_add(magic, w);
    lemma_line_feeds_add(magic + w, seq![SPACE]);
    lemma_line_feeds_add(magic + w + seq![SPACE], h);
    lemma_line_feeds_add(magic + w + seq![SPACE] + h, seq![NEWLINE]);
    lemma_line_feeds_add(magic + w + seq![SPACE] + h + seq![NEWLINE], m);
    lemma_line_feeds_add(magic + w + seq![SPACE] + h + seq![NEWLINE] + m, seq![NEWLINE]);
}

/// A numeral is made of digits, starts with a zero only when it is `0`, and
/// denotes the number it was made from.
pub proof fn lemma_decimal_denotes(n: nat)
    ensures
        decimal(n).len() >= 1,
        forall|i: int| 0 <= i < decimal(n).len() ==> 48 <= #[trigger] decimal(n)[i] <= 57,
        decimal(n)[0] == 48 <==> n == 0,
        decimal_value(decimal(n)) == n,
    decreases n,
{
    if n >= 10 {
        lemma_decimal_denotes(n / 10);
        let front = decimal(n / 10);
        assert(decimal(n).drop_last() == front);
        assert(decimal(n)[0] == front[0]);
    } else {
        assert(decimal(n).drop_last() == Seq::<u8>::empty());
        assert(decimal_value(Seq::<u8>::empty()) == 0);
    }
}

/// Appends the decimal numeral of `n` to `out`.
pub fn push_decimal(out: &mut Vec<u8>, n: u32)
    ensures
        final(out)@ == old(out)@ + decimal(n as nat),
    decreases n,
{
    if n >= 10 {
        push_decimal(out, n / 10);
    }
    let low: u8 = (n % 10) as u8;
    out.push(48 + low);
    assert(out@ == old(out)@ + decimal(n as nat));
}

/// Appends the header of an image of the given size to `out`.
pub fn push_header(out: &mut Vec<u8>, width: u32, height: u32)
    ensures
        final(out)@ == old(out)@ + header(width as nat, height as nat),
{
    out.push(80);
    out.push(51);
    out.push(NEWLINE);
    push_decimal(out, width);
    out.push(SPACE);
    push_decimal(out, height);
    out.push(NEWLINE);
    push_decimal(out, MAX_CHANNEL as u32);
    out.push(NEWLINE);
    assert(out@ == old(out)@ + header(width as nat, height as nat));
}

/// Appends the line of one pixel to `out`.
pub fn push_pixel(out: &mut Vec<u8>, red: u8, green: u8, blue: u8)
    ensures
        final(out)@ == old(out)@ + pixel_line(red, green, blue),
{
    push_decimal(out, red as u32);
    out.push(SPACE);
    push_decimal(out, green as u32);
    out.push(SPACE);
    push_decimal(out, blue as u32);
    out.push(NEWLINE);
    assert(out@ == old(out)@ + pixel_line(red, green, blue));
}

} // verus!
