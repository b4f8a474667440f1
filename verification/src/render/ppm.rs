use vstd::prelude::*;

verus! {

/// One pixel as it is written: three channels, each from 0 to 255.
#[derive(Clone, Copy, Debug, PartialEq, Eq, Structural)]
pub struct Rgb {
    pub r: u8,
    pub g: u8,
    pub b: u8,
}

/// The ASCII digit for a value below ten.
pub open spec fn digit(value: nat) -> u8 {
    (0x30 + value) as u8
}

/// The decimal numeral of `n` in ASCII: no sign, no leading zero, and the
/// single digit `0` for zero.
pub open spec fn decimal(n: nat) -> Seq<u8>
    decreases n,
{
    if n < 10 {
        seq![digit(n)]
    } else {
        decimal(n / 10).push(digit(n % 10))
    }
}

/// The number that a run of ASCII digits denotes.
pub open spec fn denoted(digits: Seq<u8>) -> nat
    decreases digits.len(),
{
    if digits.len() == 0 {
        0
    } else {
        (denoted(digits.drop_last()) * 10 + (digits.last() - 0x30)) as nat
    }
}

/// The head of a plain-text image of the given size: the two-byte magic, the
/// width and the height, and the largest channel value 255, each on a line.
pub open spec fn header_text(width: nat, height: nat) -> Seq<u8> {
    seq![0x50u8, 0x33u8, 0x0Au8] + decimal(width) + seq![0x20u8] + decimal(height) + seq![
        0x0Au8,
        0x32u8,
        0x35u8,
        0x35u8,
        0x0Au8,
    ]
}

/// The line of one pixel: its three channels in decimal, a space between
/// them and a line feed at the end.
pub open spec fn pixel_text(pixel: Rgb) -> Seq<u8> {
    decimal(pixel.r as nat) + seq![0x20u8] + decimal(pixel.g as nat) + seq![0x20u8] + decimal(
        pixel.b as nat,
    ) + seq![0x0Au8]
}

/// The lines of the pixels, one after another in the order given.
pub open spec fn body_text(pixels: Seq<Rgb>) -> Seq<u8>
    decreases pixels.len(),
{
    if pixels.len() == 0 {
        Seq::empty()
    } else {
        body_text(pixels.drop_last()) + pixel_text(pixels.last())
    }
}

/// Appends the decimal numeral of `n`.
pub fn push_decimal(out: &mut Vec<u8>, n: u32)
    ensures
        final(out)@ == old(out)@ + decimal(n as nat),
    decreases n,
{
    if n >= 10 {
        push_decimal(out, n / 10);
    }
    let d: u8 = (n % 10) as u8;
    out.push(0x30u8 + d);
    proof {
        let before = old(out)@;
        if n >= 10 {
            assert(out@ =~= before + decimal((n / 10) as nat).push(digit((n % 10) as nat)));
        } else {
            assert(out@ =~= before + seq![digit(n as nat)]);
        }
    }
}

/// Appends the line of one pixel.
pub fn write_color(out: &mut Vec<u8>, pixel: Rgb)
    ensures
        final(out)@ == old(out)@ + pixel_text(pixel),
{
    push_decimal(out, pixel.r as u32);
    out.push(0x20u8);
    push_decimal(out, pixel.g as u32);
    out.push(0x20u8);
    push_decimal(out, pixel.b as u32);
    out.push(0x0Au8);
    proof {
        assert(out@ =~= old(out)@ + pixel_text(pixel));
    }
}

/// The head of a plain-text image of `width` by `height` pixels.
pub fn header(width: u32, height: u32) -> (bytes: Vec<u8>)
    ensures
        bytes@ == header_text(width as nat, height as nat),
{
    let mut bytes: Vec<u8> = Vec::new();
    bytes.push(0x50u8);
    bytes.push(0x33u8);
    bytes.push(0x0Au8);
    push_decimal(&mut bytes, width);
    bytes.push(0x20u8);
    push_decimal(&mut bytes, height);
    bytes.push(0x0Au8);
    bytes.push(0x32u8);
    bytes.push(0x35u8);
    bytes.push(0x35u8);
    bytes.push(0x0Au8);
    proof {
        assert(bytes@ =~= header_text(width as nat, height as nat));
    }
    bytes
}

/// The line of one pixel.
pub fn pixel_line(pixel: Rgb) -> (bytes: Vec<u8>)
    ensures
        bytes@ == pixel_text(pixel),
{
    let mut bytes: Vec<u8> = Vec::new();
    write_color(&mut bytes, pixel);
    bytes
}

/// A whole plain-text image: the head, then the line of each pixel in the
/// order given, which is row by row from the top and from left to right
/// within a row.
pub fn encode(width: u32, height: u32, pixels: &Vec<Rgb>) -> (bytes: Vec<u8>)
    ensures
        bytes@ == header_text(width as nat, height as nat) + body_text(pixels@),
{
    let mut bytes = header(width, height);
    let ghost head = bytes@;
    let mut i: usize = 0;
    while i < pixels.len()
        invariant
            0 <= i <= pixels.len(),
            bytes@ == head + body_text(pixels@.take(i as int)),
        decreases pixels.len() - i,
    {
        proof {
            assert(pixels@.take(i + 1).drop_last() =~= pixels@.take(i as int));
        }
        write_color(&mut bytes, pixels[i]);
        i = i + 1;
    }
    proof {
        assert(pixels@.take(pixels.len() as int) =~= pixels@);
    }
    bytes
}

/// A decimal numeral holds digits only, does not start with a zero unless it
/// is the single digit of zero, and denotes the number it was made from: the
/// number can be read back from the text.
pub proof fn lemma_decimal_reads_back(n: nat)
    ensures
        denoted(decimal(n)) == n,
        decimal(n).len() >= 1,
        forall|i: int| 0 <= i < decimal(n).len() ==> 0x30 <= #[trigger] decimal(n)[i] <= 0x39,
        decimal(n)[0] == 0x30 <==> n == 0,
    decreases n,
{
    let text = decimal(n);
    if n >= 10 {
        lemma_decimal_reads_back(n / 10);
        let head = decimal(n / 10);
        assert(text.drop_last() =~= head);
        assert(text[0] == head[0]);
        assert(text.last() == digit(n % 10));
        assert(denoted(text) == denoted(head) * 10 + (text.last() - 0x30));
    } else {
        assert(text.drop_last() =~= Seq::<u8>::empty());
        assert(text.last() == digit(n));
        assert(denoted(text.drop_last()) == 0);
        assert(denoted(text) == denoted(text.drop_last()) * 10 + (text.last() - 0x30));
    }
}

} // verus!
