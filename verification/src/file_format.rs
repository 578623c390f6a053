//! Image output formats: the plain-text PPM variant.

use vstd::prelude::*;

verus! {

/// An image format: plain-text PPM with width, height, and maximum
/// color value.
pub enum Format {
    PP3(u32, u32, u32),
}

/// Decimal digits of a nonnegative number, most significant first, as
/// ASCII bytes.
pub open spec fn s_decimal(n: nat) -> Seq<u8>
    decreases n,
{
    if n < 10 {
        seq![(48 + n) as u8]
    } else {
        s_decimal(n / 10).push((48 + n % 10) as u8)
    }
}

/// The bytes of the PPM header: the magic line, the dimensions, and the
/// maximum color value, each line ended by a newline.
pub open spec fn s_header_bytes(w: nat, h: nat, m: nat) -> Seq<u8> {
    seq![80u8, 51u8, 10u8] + s_decimal(w) + seq![32u8] + s_decimal(h) + seq![10u8] + s_decimal(m)
        + seq![10u8]
}

/// Decimal digits are ASCII digits.
pub proof fn lemma_decimal_ascii(n: nat)
    ensures
        forall|i: int|
            0 <= i < s_decimal(n).len() ==> 48 <= #[trigger] s_decimal(n)[i] <= 57,
    decreases n,
{
    if n < 10 {
        assert(s_decimal(n) =~= seq![(48 + n) as u8]);
        assert(s_decimal(n)[0] == (48 + n) as u8);
    } else {
        lemma_decimal_ascii(n / 10);
        let prefix = s_decimal(n / 10);
        let d = (48 + n % 10) as u8;
        assert(s_decimal(n) =~= prefix.push(d));
        assert(48 <= d <= 57);
        assert forall|i: int| 0 <= i < s_decimal(n).len() implies 48 <= #[trigger] s_decimal(n)[i]
            <= 57 by {
            if i < prefix.len() {
                assert(s_decimal(n)[i] == prefix[i]);
            } else {
                assert(s_decimal(n)[i] == d);
            }
        }
    }
}

impl Format {
    /// The image width the format describes.
    pub open spec fn s_width(&self) -> u32 {
        match *self {
            Format::PP3(width, height, max_color) => width,
        }
    }

    /// The image height the format describes.
    pub open spec fn s_height(&self) -> u32 {
        match *self {
            Format::PP3(width, height, max_color) => height,
        }
    }

    /// The maximum color value of the format.
    pub open spec fn s_max_color(&self) -> u32 {
        match *self {
            Format::PP3(width, height, max_color) => max_color,
        }
    }

    pub fn width(&self) -> (r: u32)
        ensures
            r == self.s_width(),
    {
        match self {
            Format::PP3(width, height, max_color) => *width,
        }
    }

    pub fn height(&self) -> (r: u32)
        ensures
            r == self.s_height(),
    {
        match self {
            Format::PP3(width, height, max_color) => *height,
        }
    }

    pub fn max_color(&self) -> (r: u32)
        ensures
            r == self.s_max_color(),
    {
        match self {
            Format::PP3(width, height, max_color) => *max_color,
        }
    }

    /// The header of the image file, as text.
    pub fn print_header(&self) -> (r: String)
        ensures
            ({
                let b = s_header_bytes(
                    self.s_width() as nat,
                    self.s_height() as nat,
                    self.s_max_color() as nat,
                );
                r@.len() == b.len() && forall|i: int|
                    0 <= i < b.len() ==> r@[i] == #[trigger] b[i] as char
            }),
    {
        match self {
            Format::PP3(width, height, max_color) => {
                let mut bytes: Vec<u8> = Vec::new();
                bytes.push(80);
                bytes.push(51);
                bytes.push(10);
                push_decimal(*width, &mut bytes);
                bytes.push(32);
                push_decimal(*height, &mut bytes);
                bytes.push(10);
                push_decimal(*max_color, &mut bytes);
                bytes.push(10);
                proof {
                    assert(bytes@ =~= s_header_bytes(
                        self.s_width() as nat,
                        self.s_height() as nat,
                        self.s_max_color() as nat,
                    ));
                    lemma_decimal_ascii(self.s_width() as nat);
                    lemma_decimal_ascii(self.s_height() as nat);
                    lemma_decimal_ascii(self.s_max_color() as nat);
                }
                ascii_string(bytes)
            },
        }
    }
}

/// Append the decimal digits of `n`.
fn push_decimal(n: u32, out: &mut Vec<u8>)
    ensures
        final(out)@ == old(out)@ + s_decimal(n as nat),
    decreases n,
{
    if n < 10 {
        out.push(48 + (n as u8));
        proof {
            assert(out@ =~= old(out)@ + s_decimal(n as nat));
        }
    } else {
        push_decimal(n / 10, out);
        out.push(48 + ((n % 10) as u8));
        proof {
            assert(out@ =~= old(out)@ + s_decimal(n as nat));
        }
    }
}

/// Relies on `String::from_utf8`: ASCII bytes decode to the string of
/// the same characters (an empty string would stand in for invalid
/// input, which the precondition rules out).
#[verifier::external_body]
fn ascii_string(v: Vec<u8>) -> (r: String)
    requires
        forall|i: int| 0 <= i < v@.len() ==> v@[i] < 128,
    ensures
        r@.len() == v@.len(),
        forall|i: int| 0 <= i < v@.len() ==> r@[i] == #[trigger] v@[i] as char,
{
    String::from_utf8(v).unwrap_or_default()
}

} // verus!
