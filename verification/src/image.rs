//! RGB images: their buffers, the binary PPM format, and how far two of them differ.
use crate::error::Error;
use crate::text::{
    all_digits, chars_of, decimal, decimal_of, is_digit, join, law_decimal_parses_back,
    lemma_decimal_digits, parse_chars, parsed,
};
use vstd::prelude::*;
use vstd::string::*;

verus! {

/// An 8-bit RGB image, row by row.
#[derive(Clone, Debug)]
pub struct Image {
    pub width: u32,
    pub height: u32,
    pub pixels: Vec<u8>,
}

impl Image {
    /// The buffer holds three bytes for each pixel.
    pub open spec fn fits(&self) -> bool {
        self.pixels.len() == self.width * self.height * 3
    }

    /// The byte of channel `c` at column `x` of row `y`.
    pub open spec fn at(&self, y: int, x: int, c: int) -> u8 {
        self.pixels[(y * self.width + x) * 3 + c]
    }

    /// Whether the buffer holds three bytes for each pixel.
    pub fn buffer_fits(&self) -> (r: bool)
        ensures
            r == self.fits(),
    {
        proof {
            assert(self.width * self.height * 3 <= 0xffff_ffff * 0xffff_ffff * 3)
                by (nonlinear_arith)
                requires
                    self.width <= 0xffff_ffff,
                    self.height <= 0xffff_ffff,
            ;
            assert(self.width * self.height >= 0) by (nonlinear_arith);
        }
        let want: u128 = self.width as u128 * self.height as u128 * 3;
        self.pixels.len() as u128 == want
    }
}

/// What is wrong with a buffer that does not hold three bytes for each pixel.
pub open spec fn buffer_text(what: Seq<char>, image: &Image) -> Seq<char> {
    what + " "@ + decimal(image.pixels.len() as nat) + " != "@ + decimal(image.width as nat) + "x"@
        + decimal(image.height as nat) + "x3"@
}

/// Refuses an image whose buffer does not hold three bytes for each pixel.
pub fn check_buffer(what: &str, image: &Image) -> (r: Result<(), Error>)
    ensures
        match r {
            Ok(_) => image.fits(),
            Err(e) => !image.fits() && e.says(buffer_text(what@, image)),
        },
{
    if image.buffer_fits() {
        return Ok(());
    }
    let mut s = join(what, " ");
    s.append(decimal_of(image.pixels.len()).as_str());
    s.append(" != ");
    s.append(decimal_of(image.width as usize).as_str());
    s.append("x");
    s.append(decimal_of(image.height as usize).as_str());
    s.append("x3");
    Err(Error::Msg(s))
}

/// The plane element that pixel byte `k` comes from.
pub open spec fn plane_source(k: int, h: int, w: int) -> int {
    (k % 3) * (h * w) + k / 3
}

/// The image of three colour planes of `h` by `w`. Any other number of planes is refused.
pub fn image_of_planes(planes: &Vec<u8>, c: usize, h: u32, w: u32) -> (r: Result<Image, Error>)
    requires
        planes.len() == c * (h * w),
    ensures
        match r {
            Ok(i) => c == 3 && i.width == w && i.height == h && i.pixels@ == Seq::new(
                planes.len() as nat,
                |k: int| planes[plane_source(k, h as int, w as int)],
            ) && i.fits(),
            Err(e) => c != 3 && e.says("expected 3 channels, got "@ + decimal(c as nat)),
        },
{
    if c != 3 {
        return Err(Error::Msg(join("expected 3 channels, got ", decimal_of(c).as_str())));
    }
    let n: usize = planes.len();
    let area: usize = n / 3;
    proof {
        assert(h * w >= 0) by (nonlinear_arith);
        assert(area == h * w);
        assert(w * h * 3 == 3 * (h * w)) by (nonlinear_arith);
    }
    let mut pixels: Vec<u8> = Vec::new();
    let mut k: usize = 0;
    while k < n
        invariant
            k <= n,
            n == planes.len(),
            n == 3 * area,
            area == h * w,
            pixels@ == Seq::new(
                k as nat,
                |k: int| planes[plane_source(k, h as int, w as int)],
            ),
        decreases n - k,
    {
        let plane: usize = k % 3;
        let at: usize = k / 3;
        proof {
            assert(plane * area + at < 3 * area && plane * area <= 2 * area && plane * area >= 0)
                by (nonlinear_arith)
                requires
                    0 <= plane <= 2,
                    0 <= at < area,
            ;
        }
        pixels.push(planes[plane * area + at]);
        k += 1;
    }
    Ok(Image { width: w, height: h, pixels })
}

/// The byte is ASCII white space.
pub open spec fn is_space(b: u8) -> bool {
    b == 32 || b == 9 || b == 10 || b == 12 || b == 13
}

fn space(b: u8) -> (r: bool)
    ensures
        r == is_space(b),
{
    b == 32 || b == 9 || b == 10 || b == 12 || b == 13
}

/// The end of the line that `i` is in.
pub open spec fn line_end(b: Seq<u8>, i: int) -> int
    decreases b.len() - i,
{
    if i >= b.len() || b[i] == 10 {
        i
    } else {
        line_end(b, i + 1)
    }
}

/// The place from `i` on that is neither white space nor in a comment.
pub open spec fn word_start(b: Seq<u8>, i: int) -> int
    decreases b.len() - i,
{
    if i >= b.len() {
        i
    } else if is_space(b[i]) {
        word_start(b, i + 1)
    } else if b[i] == 35 {
        // A comment is at least one byte long, and ends before the line's end.
        if i < line_end(b, i) <= b.len() {
            word_start(b, line_end(b, i))
        } else {
            i
        }
    } else {
        i
    }
}

/// The end of the word at `i`.
pub open spec fn word_end(b: Seq<u8>, i: int) -> int
    decreases b.len() - i,
{
    if i >= b.len() || is_space(b[i]) {
        i
    } else {
        word_end(b, i + 1)
    }
}

/// The header word after `i`, by where it starts and ends.
pub open spec fn word(b: Seq<u8>, i: int) -> (int, int) {
    let s = word_start(b, i);
    (s, word_end(b, s))
}

/// Bytes as characters.
pub open spec fn ascii(b: Seq<u8>) -> Seq<char> {
    b.map_values(|x: u8| x as char)
}

/// The characters of a header word.
pub open spec fn word_text(b: Seq<u8>, at: (int, int)) -> Seq<char> {
    ascii(b.subrange(at.0, at.1))
}

/// Why bytes are no binary PPM.
#[derive(Clone, Copy, Debug, PartialEq, Eq, Structural)]
pub enum PpmError {
    /// The magic word is missing.
    NotPpm,
    Width,
    Height,
    MaxValue,
    /// The pixels end early.
    Truncated,
}

/// What reading the bytes gives: the magic word, width, height and largest value as words, one byte,
/// and the pixels.
pub open spec fn is_ppm_read(r: Result<Image, PpmError>, b: Seq<u8>) -> bool {
    let magic = word(b, 0);
    let width = word(b, magic.1);
    let height = word(b, width.1);
    let max = word(b, height.1);
    let w = parsed(word_text(b, width), u32::MAX as nat);
    let h = parsed(word_text(b, height), u32::MAX as nat);
    if word_text(b, magic) != seq!['P', '6'] {
        r == Err::<Image, PpmError>(PpmError::NotPpm)
    } else if w is None {
        r == Err::<Image, PpmError>(PpmError::Width)
    } else if h is None {
        r == Err::<Image, PpmError>(PpmError::Height)
    } else if parsed(word_text(b, max), u64::MAX as nat) is None {
        r == Err::<Image, PpmError>(PpmError::MaxValue)
    } else if max.1 + 1 + w->0 * h->0 * 3 > b.len() {
        r == Err::<Image, PpmError>(PpmError::Truncated)
    } else {
        r matches Ok(i) && i.width == w->0 && i.height == h->0 && i.pixels@ == b.subrange(
            max.1 + 1,
            max.1 + 1 + w->0 * h->0 * 3,
        )
    }
}

/// A header word: its place, and its characters.
fn read_word(b: &Vec<u8>, from: usize) -> (r: (Vec<char>, usize))
    requires
        from <= b.len(),
    ensures
        r.0@ == word_text(b@, word(b@, from as int)),
        r.1 == word(b@, from as int).1,
        word(b@, from as int).0 <= r.1 <= b.len(),
{
    let mut i: usize = from;
    loop
        invariant_except_break
            from <= i <= b.len(),
            word_start(b@, i as int) == word_start(b@, from as int),
        ensures
            from <= i <= b.len(),
            i == word_start(b@, from as int),
        decreases b.len() - i,
    {
        let before: usize = i;
        while i < b.len() && space(b[i])
            invariant
                before <= i <= b.len(),
                word_start(b@, i as int) == word_start(b@, from as int),
            decreases b.len() - i,
        {
            i += 1;
        }
        if i < b.len() && b[i] == 35 {
            let start: usize = i;
            while i < b.len() && b[i] != 10
                invariant
                    start <= i <= b.len(),
                    line_end(b@, i as int) == line_end(b@, start as int),
                    start < b.len(),
                    b[start as int] == 35,
                    i == start ==> b[i as int] != 10,
                decreases b.len() - i,
            {
                i += 1;
            }
            proof {
                assert(line_end(b@, start as int) == i);
            }
        } else {
            break;
        }
    }
    let mut text: Vec<char> = Vec::new();
    let start: usize = i;
    while i < b.len() && !space(b[i])
        invariant
            start <= i <= b.len(),
            word_end(b@, i as int) == word_end(b@, start as int),
            text@ == ascii(b@.subrange(start as int, i as int)),
        decreases b.len() - i,
    {
        text.push(b[i] as char);
        proof {
            assert(b@.subrange(start as int, i + 1) =~= b@.subrange(start as int, i as int).push(
                b[i as int],
            ));
            assert(text@ =~= ascii(b@.subrange(start as int, i + 1)));
        }
        i += 1;
    }
    (text, i)
}

/// Reads a binary PPM.
pub fn read_ppm(bytes: &Vec<u8>) -> (r: Result<Image, PpmError>)
    ensures
        is_ppm_read(r, bytes@),
{
    let (magic, a) = read_word(bytes, 0);
    if !(magic.len() == 2 && magic[0] == 'P' && magic[1] == '6') {
        return Err(PpmError::NotPpm);
    }
    proof {
        assert(magic@ =~= seq!['P', '6']);
    }
    let (width, c) = read_word(bytes, a);
    let w: u64 = match parse_chars(&width, 0xffff_ffff) {
        Some(n) => n,
        None => {
            return Err(PpmError::Width);
        },
    };
    let (height, d) = read_word(bytes, c);
    let h: u64 = match parse_chars(&height, 0xffff_ffff) {
        Some(n) => n,
        None => {
            return Err(PpmError::Height);
        },
    };
    let (max, e) = read_word(bytes, d);
    if parse_chars(&max, 0xffff_ffff_ffff_ffff).is_none() {
        return Err(PpmError::MaxValue);
    }
    proof {
        assert(0 <= w * h <= 0xffff_ffff * 0xffff_ffff) by (nonlinear_arith)
            requires
                0 <= w <= 0xffff_ffff,
                0 <= h <= 0xffff_ffff,
        ;
    }
    let n: u128 = w as u128 * h as u128 * 3;
    if e as u128 + 1 + n > bytes.len() as u128 {
        return Err(PpmError::Truncated);
    }
    let start: usize = e + 1;
    let len: usize = n as usize;
    let mut pixels: Vec<u8> = Vec::new();
    let mut k: usize = 0;
    while k < len
        invariant
            k <= len,
            start + len <= bytes.len(),
            pixels@ == bytes@.subrange(start as int, start + k),
        decreases len - k,
    {
        pixels.push(bytes[start + k]);
        proof {
            assert(pixels@ =~= bytes@.subrange(start as int, start + k + 1));
        }
        k += 1;
    }
    Ok(Image { width: w as u32, height: h as u32, pixels })
}

/// The decimal numeral of `n`, in bytes.
pub open spec fn numeral(n: nat) -> Seq<u8> {
    decimal(n).map_values(|c: char| c as u8)
}

/// The binary PPM of an image.
pub open spec fn ppm_bytes(image: &Image) -> Seq<u8> {
    seq![80u8, 54, 10] + numeral(image.width as nat) + seq![32u8] + numeral(image.height as nat)
        + seq![10u8, 50, 53, 53, 10] + image.pixels@
}

fn push_numeral(out: &mut Vec<u8>, n: u32)
    ensures
        final(out)@ == old(out)@ + numeral(n as nat),
{
    let text = decimal_of(n as usize);
    let digits = chars_of(text.as_str());
    let ghost start = out@;
    proof {
        lemma_decimal_digits(n as nat);
    }
    let mut i: usize = 0;
    while i < digits.len()
        invariant
            i <= digits.len(),
            digits@ == decimal(n as nat),
            all_digits(digits@),
            out@ == start + numeral(n as nat).take(i as int),
        decreases digits.len() - i,
    {
        proof {
            assert(is_digit(digits@[i as int]));
        }
        let c = digits[i];
        out.push(c as u8);
        proof {
            assert(out@ =~= start + numeral(n as nat).take(i + 1));
        }
        i += 1;
    }
    proof {
        assert(numeral(n as nat).take(digits.len() as int) =~= numeral(n as nat));
    }
}

fn push_bytes(out: &mut Vec<u8>, b: &Vec<u8>)
    ensures
        final(out)@ == old(out)@ + b@,
{
    let ghost start = out@;
    let mut i: usize = 0;
    while i < b.len()
        invariant
            i <= b.len(),
            out@ == start + b@.take(i as int),
        decreases b.len() - i,
    {
        out.push(b[i]);
        proof {
            assert(out@ =~= start + b@.take(i + 1));
        }
        i += 1;
    }
    proof {
        assert(b@.take(b.len() as int) =~= b@);
    }
}

/// Writes a binary PPM.
pub fn write_ppm(image: &Image) -> (r: Vec<u8>)
    ensures
        r@ == ppm_bytes(image),
{
    let mut out: Vec<u8> = vec![80, 54, 10];
    proof {
        assert(out@ =~= seq![80u8, 54, 10]);
    }
    push_numeral(&mut out, image.width);
    let gap: Vec<u8> = vec![32];
    proof {
        assert(gap@ =~= seq![32u8]);
    }
    push_bytes(&mut out, &gap);
    push_numeral(&mut out, image.height);
    let max: Vec<u8> = vec![10, 50, 53, 53, 10];
    proof {
        assert(max@ =~= seq![10u8, 50, 53, 53, 10]);
    }
    push_bytes(&mut out, &max);
    push_bytes(&mut out, &image.pixels);
    out
}

/// A word ends at the first white space after it.
proof fn lemma_word_end(b: Seq<u8>, s: int, e: int)
    requires
        0 <= s <= e < b.len(),
        forall|k: int| s <= k < e ==> !is_space(#[trigger] b[k]),
        is_space(b[e]),
    ensures
        word_end(b, s) == e,
    decreases e - s,
{
    if s < e {
        lemma_word_end(b, s + 1, e);
    }
}

/// The word after white space at `i`, where `part` stands and white space follows it.
proof fn lemma_word(b: Seq<u8>, i: int, part: Seq<u8>)
    requires
        0 <= i,
        part.len() > 0,
        i + 1 + part.len() < b.len(),
        is_space(b[i]),
        b.subrange(i + 1, i + 1 + part.len()) == part,
        forall|k: int| 0 <= k < part.len() ==> !is_space(#[trigger] part[k]) && part[k] != 35,
        is_space(b[i + 1 + part.len()]),
    ensures
        word(b, i) == (i + 1, i + 1 + part.len()),
        word_text(b, word(b, i)) == ascii(part),
{
    let e = i + 1 + part.len();
    let sub = b.subrange(i + 1, e);
    assert(sub[0] == part[0]);
    assert(b[i + 1] == part[0]);
    assert(word_start(b, i + 1) == i + 1);
    assert(word_start(b, i) == i + 1);
    assert forall|k: int| i + 1 <= k < e implies !is_space(#[trigger] b[k]) by {
        assert(sub[k - i - 1] == part[k - i - 1]);
    }
    lemma_word_end(b, i + 1, e);
}

/// A numeral is neither white space nor a comment, and its characters are those of the number.
proof fn lemma_numeral(n: nat)
    ensures
        numeral(n).len() > 0,
        ascii(numeral(n)) == decimal(n),
        forall|k: int|
            0 <= k < numeral(n).len() ==> !is_space(#[trigger] numeral(n)[k]) && numeral(n)[k]
                != 35,
{
    lemma_decimal_digits(n);
    assert forall|k: int| 0 <= k < numeral(n).len() implies !is_space(#[trigger] numeral(n)[k])
        && numeral(n)[k] != 35 && numeral(n)[k] as char == decimal(n)[k] by {
        assert(is_digit(decimal(n)[k]));
    }
    assert(ascii(numeral(n)) =~= decimal(n));
}

/// Reading what was written gives the image back.
pub proof fn law_ppm_round_trip(image: &Image, r: Result<Image, PpmError>)
    requires
        image.fits(),
        is_ppm_read(r, ppm_bytes(image)),
    ensures
        r matches Ok(i) && i.width == image.width && i.height == image.height && i.pixels@
            == image.pixels@,
{
    let b = ppm_bytes(image);
    let w = numeral(image.width as nat);
    let h = numeral(image.height as nat);
    let m = seq![50u8, 53, 53];
    lemma_numeral(image.width as nat);
    lemma_numeral(image.height as nat);
    let a = 2int;
    let c = a + 1 + w.len();
    let d = c + 1 + h.len();
    let e = d + 4;
    // The parts of the bytes.
    assert(b[0] == 80 && b[1] == 54 && b[2] == 10);
    assert(b.subrange(a + 1, c) =~= w);
    assert(b[c] == 32);
    assert(b.subrange(c + 1, d) =~= h);
    assert(b[d] == 10);
    assert(b.subrange(d + 1, d + 4) =~= m);
    assert(b[e] == 10);
    assert(b.skip(e + 1) =~= image.pixels@);
    // The words.
    lemma_word_end(b, 0, 2);
    assert(word_start(b, 0) == 0);
    assert(word(b, 0) == (0int, 2int));
    assert(word_text(b, (0int, 2int)) =~= seq!['P', '6']);
    lemma_word(b, a, w);
    lemma_word(b, c, h);
    lemma_word(b, d, m);
    law_decimal_parses_back(image.width as nat, u32::MAX as nat);
    law_decimal_parses_back(image.height as nat, u32::MAX as nat);
    assert(ascii(m) =~= seq!['2', '5', '5']);
    assert(parsed(seq!['2', '5', '5'], u64::MAX as nat) is Some) by {
        let s = seq!['2', '5', '5'];
        assert(s.drop_last() =~= seq!['2', '5']);
        assert(s.drop_last().drop_last() =~= seq!['2']);
        assert(s.drop_last().drop_last().drop_last() =~= Seq::<char>::empty());
        reveal_with_fuel(crate::text::digits_value, 4);
        assert(all_digits(s));
        assert(crate::text::digits_value(s) == 255);
    }
    assert(image.width as nat * image.height as nat * 3 == image.pixels.len());
    assert(b.subrange(e + 1, e + 1 + image.pixels.len()) =~= image.pixels@);
}

/// The pixel byte of the `k`-th compared place of columns `[x0, x0 + cols)`.
pub open spec fn compared(k: int, w: int, x0: int, cols: int) -> int {
    ((k / (3 * cols)) * w + x0 + (k / 3) % cols) * 3 + k % 3
}

pub open spec fn distance(a: u8, b: u8) -> nat {
    if a >= b {
        (a - b) as nat
    } else {
        (b - a) as nat
    }
}

/// The sum of the differences of the first `n` compared places.
pub open spec fn difference(a: Seq<u8>, b: Seq<u8>, n: nat, w: int, x0: int, cols: int) -> nat
    decreases n,
{
    if n == 0 {
        0
    } else {
        let k = compared(n - 1, w, x0, cols);
        difference(a, b, (n - 1) as nat, w, x0, cols) + distance(a[k], b[k])
    }
}

/// A compared place is in the image, in its columns.
proof fn lemma_compared(k: int, h: int, w: int, x0: int, cols: int)
    requires
        0 < cols,
        0 <= x0,
        x0 + cols <= w,
        0 <= k < h * (3 * cols),
    ensures
        0 <= k / (3 * cols) < h,
        0 <= (k / 3) % cols < cols,
        0 <= (k / (3 * cols)) * w,
        (k / (3 * cols)) * w + x0 + (k / 3) % cols < h * w,
        0 <= compared(k, w, x0, cols) < h * w * 3,
{
    let d = 3 * cols;
    let y = k / d;
    vstd::arithmetic::div_mod::lemma_fundamental_div_mod(k, d);
    vstd::arithmetic::div_mod::lemma_div_pos_is_pos(k, d);
    assert(y < h) by (nonlinear_arith)
        requires
            d * y <= k,
            k < h * d,
            d > 0,
    ;
    let x = (k / 3) % cols;
    vstd::arithmetic::div_mod::lemma_mod_bound(k / 3, cols);
    assert(y * w + w <= h * w) by (nonlinear_arith)
        requires
            y + 1 <= h,
            w >= 0,
    ;
    assert(y * w >= 0) by (nonlinear_arith)
        requires
            y >= 0,
            w >= 0,
    ;
}

/// The absolute difference of two images of one size over the columns `[x0, x1)`: the sum over all
/// channels, and the number of places it is taken over.
pub fn region_diff(a: &Image, b: &Image, x0: usize, x1: usize) -> (r: (u128, usize))
    requires
        a.fits(),
        b.fits(),
        a.width == b.width && a.height == b.height,
        x0 <= x1 <= a.width,
    ensures
        r.1 == a.height * (3 * (x1 - x0)),
        r.0 == difference(a.pixels@, b.pixels@, r.1 as nat, a.width as int, x0 as int, x1 - x0),
{
    let cols: usize = x1 - x0;
    let w: usize = a.width as usize;
    let h: usize = a.height as usize;
    proof {
        assert(h * (3 * cols) <= w * h * 3 && h * (3 * cols) >= 0 && 3 * cols >= 0)
            by (nonlinear_arith)
            requires
                0 <= cols <= w,
                h >= 0,
        ;
        if h > 0 {
            assert(3 * cols <= h * (3 * cols)) by (nonlinear_arith)
                requires
                    h >= 1,
                    cols >= 0,
            ;
        }
    }
    if h == 0 || cols == 0 {
        proof {
            assert(h * (3 * cols) == 0) by (nonlinear_arith)
                requires
                    h == 0 || cols == 0,
            ;
        }
        return (0, 0);
    }
    let row: usize = 3 * cols;
    let n: usize = h * row;
    let mut sum: u128 = 0;
    let mut k: usize = 0;
    while k < n
        invariant
            k <= n,
            n == h * (3 * cols),
            row == 3 * cols,
            cols > 0,
            x0 + cols <= w,
            w == a.width && h == a.height,
            a.pixels.len() == w * h * 3,
            b.pixels.len() == w * h * 3,
            sum == difference(
                a.pixels@,
                b.pixels@,
                k as nat,
                w as int,
                x0 as int,
                cols as int,
            ),
            sum <= 255 * k,
        decreases n - k,
    {
        proof {
            lemma_compared(k as int, h as int, w as int, x0 as int, cols as int);
            assert(w * h * 3 == h * w * 3) by (nonlinear_arith);
        }
        let at: usize = ((k / row) * w + x0 + (k / 3) % cols) * 3 + k % 3;
        let p: u8 = a.pixels[at];
        let q: u8 = b.pixels[at];
        let d: u8 = if p >= q {
            p - q
        } else {
            q - p
        };
        sum = sum + d as u128;
        k += 1;
    }
    (sum, n)
}

/// An image does not differ from itself.
pub proof fn law_no_difference_from_itself(a: Seq<u8>, n: nat, w: int, x0: int, cols: int)
    ensures
        difference(a, a, n, w, x0, cols) == 0,
    decreases n,
{
    if n > 0 {
        law_no_difference_from_itself(a, (n - 1) as nat, w, x0, cols);
    }
}

/// The difference of two images does not depend on which comes first.
pub proof fn law_difference_is_symmetric(a: Seq<u8>, b: Seq<u8>, n: nat, w: int, x0: int, cols: int)
    ensures
        difference(a, b, n, w, x0, cols) == difference(b, a, n, w, x0, cols),
    decreases n,
{
    if n > 0 {
        law_difference_is_symmetric(a, b, (n - 1) as nat, w, x0, cols);
    }
}

/// Byte `k` of a mask of `w` columns whose left half is white and whose right half is black.
pub open spec fn half_white(k: int, w: int) -> u8 {
    if (k / 3) % w < w / 2 {
        255
    } else {
        0
    }
}

/// A mask whose left half is white and whose right half is black.
pub fn split_mask(w: u32, h: u32) -> (r: Image)
    requires
        w * h * 3 <= usize::MAX,
    ensures
        r.width == w && r.height == h,
        r.pixels@ == Seq::new((w * h * 3) as nat, |k: int| half_white(k, w as int)),
        r.fits(),
{
    let ghost want = |k: int| half_white(k, w as int);
    let mut pixels: Vec<u8> = Vec::new();
    proof {
        assert(w * h >= 0) by (nonlinear_arith);
    }
    if w > 0 {
        let width: usize = w as usize;
        let n: usize = width * h as usize * 3;
        let mut k: usize = 0;
        while k < n
            invariant
                k <= n,
                n == w * h * 3,
                width == w,
                w > 0,
                want == (|k: int| half_white(k, w as int)),
                pixels@ == Seq::new(k as nat, want),
            decreases n - k,
        {
            let v: u8 = if (k / 3) % width < width / 2 {
                255
            } else {
                0
            };
            pixels.push(v);
            proof {
                assert(pixels@ =~= Seq::new((k + 1) as nat, want));
            }
            k += 1;
        }
    } else {
        proof {
            assert(w * h == 0) by (nonlinear_arith)
                requires
                    w == 0,
            ;
            assert(pixels@ =~= Seq::new((w * h * 3) as nat, want));
        }
    }
    Image { width: w, height: h, pixels }
}

/// Channel `c` of the pixel at column `x` of row `y` is what colour plane `c` holds at that place.
pub proof fn law_planes_become_pixels(h: int, w: int, y: int, x: int, c: int)
    requires
        0 <= y < h,
        0 <= x < w,
        0 <= c < 3,
    ensures
        plane_source((y * w + x) * 3 + c, h, w) == c * (h * w) + (y * w + x),
        0 <= plane_source((y * w + x) * 3 + c, h, w) < 3 * (h * w),
{
    let at = y * w + x;
    assert(0 <= at && at < h * w) by (nonlinear_arith)
        requires
            at == y * w + x,
            0 <= y < h,
            0 <= x < w,
    ;
    assert((at * 3 + c) / 3 == at && (at * 3 + c) % 3 == c);
    assert(0 <= c * (h * w) && c * (h * w) <= 2 * (h * w)) by (nonlinear_arith)
        requires
            0 <= c <= 2,
            h * w >= 0,
    ;
}

/// The places that are compared are those of the columns asked for, row by row: channel `c` of column
/// `x0 + x` of row `y`.
pub proof fn law_compared_places_are_the_columns(
    y: int,
    x: int,
    c: int,
    w: int,
    x0: int,
    cols: int,
)
    requires
        0 <= y,
        0 <= x < cols,
        0 <= c < 3,
        0 <= x0,
        x0 + cols <= w,
    ensures
        compared((y * cols + x) * 3 + c, w, x0, cols) == (y * w + (x0 + x)) * 3 + c,
{
    let at = y * cols + x;
    let k = at * 3 + c;
    assert(at >= 0) by (nonlinear_arith)
        requires
            at == y * cols + x,
            y >= 0,
            x >= 0,
            cols >= 0,
    ;
    assert(k / 3 == at && k % 3 == c);
    vstd::arithmetic::div_mod::lemma_fundamental_div_mod_converse(at, cols, y, x);
    assert(k == y * (3 * cols) + (3 * x + c)) by (nonlinear_arith)
        requires
            k == (y * cols + x) * 3 + c,
    ;
    vstd::arithmetic::div_mod::lemma_fundamental_div_mod_converse(k, 3 * cols, y, 3 * x + c);
}

/// How far two bytes are apart: what the smaller lacks of the larger, and nothing where they are equal.
pub proof fn law_distance_is_the_gap(a: u8, b: u8)
    ensures
        a <= b ==> a + distance(a, b) == b,
        b <= a ==> b + distance(a, b) == a,
        distance(a, b) == 0 <==> a == b,
{
}

/// Images do not differ over what is compared exactly where they are equal there, and one more place
/// adds how far they are apart in it.
pub proof fn law_difference_is_that_of_every_place(
    a: Seq<u8>,
    b: Seq<u8>,
    n: nat,
    w: int,
    x0: int,
    cols: int,
)
    ensures
        difference(a, b, n, w, x0, cols) == 0 <==> forall|k: int|
            0 <= k < n ==> a[#[trigger] compared(k, w, x0, cols)] == b[compared(k, w, x0, cols)],
        forall|k: int|
            0 <= k < n ==> difference(a, b, n, w, x0, cols) >= distance(
                a[#[trigger] compared(k, w, x0, cols)],
                b[compared(k, w, x0, cols)],
            ),
        difference(a, b, n + 1, w, x0, cols) - difference(a, b, n, w, x0, cols) == distance(
            a[compared(n as int, w, x0, cols)],
            b[compared(n as int, w, x0, cols)],
        ),
    decreases n,
{
    if n > 0 {
        law_difference_is_that_of_every_place(a, b, (n - 1) as nat, w, x0, cols);
        let last = compared(n - 1, w, x0, cols);
        if difference(a, b, n, w, x0, cols) == 0 {
            assert(a[last] == b[last]);
        }
    }
}

/// The left half of the columns is white, the others are black; the middle column of an odd number is
/// black.
pub proof fn law_left_half_is_white(w: int, y: int, x: int, c: int)
    requires
        0 <= y,
        0 <= x < w,
        0 <= c < 3,
    ensures
        2 * (x + 1) <= w ==> half_white((y * w + x) * 3 + c, w) == 255,
        2 * (x + 1) > w ==> half_white((y * w + x) * 3 + c, w) == 0,
{
    let at = y * w + x;
    let k = at * 3 + c;
    assert(at >= 0) by (nonlinear_arith)
        requires
            at == y * w + x,
            y >= 0,
            x >= 0,
            w >= 0,
    ;
    assert(k / 3 == at);
    vstd::arithmetic::div_mod::lemma_fundamental_div_mod_converse(at, w, y, x);
}

/// An image that is read has three bytes for each of its pixels, which are bytes of the file.
pub proof fn law_images_that_are_read_fit(r: Result<Image, PpmError>, b: Seq<u8>)
    requires
        is_ppm_read(r, b),
    ensures
        r matches Ok(i) ==> i.fits() && i.pixels.len() < b.len(),
{
    if let Ok(i) = r {
        let max = word(b, word(b, word(b, word(b, 0).1).1).1);
        let n = i.width * i.height * 3;
        assert(i.width as nat * i.height as nat * 3 == n);
        assert(n >= 0) by (nonlinear_arith)
            requires
                n == i.width * i.height * 3,
        ;
        law_words_are_between_white_space(b, 0);
        law_words_are_between_white_space(b, word(b, 0).1);
        law_words_are_between_white_space(b, word(b, word(b, 0).1).1);
        law_words_are_between_white_space(b, word(b, word(b, word(b, 0).1).1).1);
    }
}

/// A word starts behind white space and comments, at a byte that is neither, and ends before the first
/// white space; what is skipped before it is not cut off its end.
pub proof fn law_words_are_between_white_space(b: Seq<u8>, i: int)
    requires
        0 <= i <= b.len(),
    ensures
        ({
            let (s, e) = word(b, i);
            &&& i <= s <= e <= b.len()
            &&& s < b.len() ==> !is_space(b[s]) && b[s] != 35 && s < e
            &&& e < b.len() ==> is_space(b[e])
            &&& forall|k: int| s <= k < e ==> !is_space(#[trigger] b[k])
        }),
{
    lemma_word_start_bounds(b, i);
    lemma_word_end_bounds(b, word_start(b, i));
}

/// White space before a word does not count, nor does a comment up to the end of its line.
pub proof fn law_comments_are_skipped(b: Seq<u8>, i: int, j: int)
    requires
        0 <= i < j < b.len(),
        b[i] == 35,
        b[j] == 10,
        forall|k: int| i <= k < j ==> #[trigger] b[k] != 10,
    ensures
        word(b, i) == word(b, j),
        word(b, j) == word(b, j + 1),
{
    lemma_line_end(b, i, j);
}

proof fn lemma_line_end(b: Seq<u8>, i: int, j: int)
    requires
        0 <= i <= j < b.len(),
        b[j] == 10,
        forall|k: int| i <= k < j ==> #[trigger] b[k] != 10,
    ensures
        line_end(b, i) == j,
    decreases j - i,
{
    if i < j {
        lemma_line_end(b, i + 1, j);
    }
}

proof fn lemma_line_end_bounds(b: Seq<u8>, i: int)
    requires
        0 <= i <= b.len(),
    ensures
        i <= line_end(b, i) <= b.len(),
    decreases b.len() - i,
{
    if i < b.len() && b[i] != 10 {
        lemma_line_end_bounds(b, i + 1);
    }
}

proof fn lemma_word_start_bounds(b: Seq<u8>, i: int)
    requires
        0 <= i <= b.len(),
    ensures
        i <= word_start(b, i) <= b.len(),
        word_start(b, i) < b.len() ==> !is_space(b[word_start(b, i)]) && b[word_start(b, i)] != 35,
    decreases b.len() - i,
{
    if i < b.len() {
        if is_space(b[i]) {
            lemma_word_start_bounds(b, i + 1);
        } else if b[i] == 35 {
            assert(line_end(b, i) == line_end(b, i + 1));
            lemma_line_end_bounds(b, i + 1);
            lemma_word_start_bounds(b, line_end(b, i));
        }
    }
}

proof fn lemma_word_end_bounds(b: Seq<u8>, i: int)
    requires
        0 <= i <= b.len(),
    ensures
        i <= word_end(b, i) <= b.len(),
        word_end(b, i) < b.len() ==> is_space(b[word_end(b, i)]),
        forall|k: int| i <= k < word_end(b, i) ==> !is_space(#[trigger] b[k]),
    decreases b.len() - i,
{
    if i < b.len() && !is_space(b[i]) {
        lemma_word_end_bounds(b, i + 1);
    }
}

} // verus!
