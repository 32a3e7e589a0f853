//! Client-facing request types: the commands a client can send and the
//! parsing of hex colors and filter names.
use vstd::prelude::*;
use vstd::string::*;
use crate::textfmt::push_decimal;
use crate::textfmt::str_eq;

verus! {

/// Scaling filters offered to clients, matching the resampling kernels
/// of the image library.
#[derive(Clone, Copy, PartialEq, Eq, Structural, Debug)]
pub enum Filter {
    Nearest,
    Triangle,
    CatmullRom,
    Gaussian,
    Lanczos3,
}

/// How a source image is reconciled with an output's dimensions.
#[derive(Clone, Copy, PartialEq, Eq, Structural, Debug)]
pub enum ResizeStrategy {
    /// Never scale: crop to size and pad the rest with the fill color.
    No,
    /// Scale to cover the output, cropping what overflows.
    Crop,
    /// Scale to fit inside the output, padding what is uncovered.
    Fit,
}

/// Transition modes a client can pick when switching images.
#[derive(Clone, Copy, PartialEq, Eq, Structural, Debug)]
pub enum TransitionType {
    /// Show the final frame immediately.
    Off,
    Simple,
    Fade,
    Wipe,
    Outer,
    Grow,
    Wave,
    Right,
    Top,
    Left,
    Bottom,
    Center,
    Any,
    Random,
}

/// Fill the targeted outputs with a solid color.
pub struct Clear {
    /// Color to fill the screen with.
    pub color: [u8; 3],
    /// Comma separated list of outputs; empty means all outputs.
    pub outputs: String,
}

/// Display an image on the targeted outputs.
pub struct Img {
    /// Path to the image to display.
    pub path: String,
    /// Comma separated list of outputs; empty means all outputs.
    pub outputs: String,
    /// Filter to use when scaling the image.
    pub filter: Filter,
    /// How to fit the image onto each output.
    pub resize: ResizeStrategy,
    /// Color for the padded border, if any.
    pub fill_color: [u8; 3],
    /// Transition mode used when switching to this image.
    pub transition_type: TransitionType,
    /// How much the transition approaches the new image each frame.
    pub transition_step: u8,
    /// Frame rate of the transition.
    pub transition_fps: u8,
}

/// One request from a client to the daemon.
pub enum Swww {
    /// Fill the specified outputs with a color.
    Clear(Clear),
    /// Send an image for the daemon to display.
    Img(Img),
    /// Initialize the daemon; a no-op when one is already running.
    Init { no_daemon: bool },
    /// Stop the daemon.
    Kill,
    /// Report output names and dimensions.
    Query,
}

/// An ASCII-alphanumeric character, the only ones `from_hex` keeps.
pub open spec fn is_alnum_char(c: char) -> bool {
    (48 <= c as u32 <= 57) || (65 <= c as u32 <= 90) || (97 <= c as u32 <= 122)
}

/// The ASCII code of `c` uppercased, for alphanumeric `c`.
pub open spec fn upper_code(c: char) -> u8 {
    if 97 <= c as u32 <= 122 {
        ((c as u32) - 32) as u8
    } else {
        (c as u32) as u8
    }
}

/// The ASCII-alphanumeric characters of `s`, uppercased, as byte codes:
/// the digits a hex color is parsed from.
pub open spec fn hex_norm(s: Seq<char>) -> Seq<u8>
    decreases s.len(),
{
    if s.len() == 0 {
        Seq::empty()
    } else {
        hex_norm(s.drop_last()) + (if is_alnum_char(s.last()) {
            seq![upper_code(s.last())]
        } else {
            Seq::empty()
        })
    }
}

/// An uppercased hexadecimal digit.
pub open spec fn is_hex_digit(b: u8) -> bool {
    (48 <= b <= 57) || (65 <= b <= 70)
}

/// Numeric value of an uppercased hexadecimal digit.
pub open spec fn hex_val(b: u8) -> u8 {
    if b <= 57 {
        (b - 48) as u8
    } else {
        (b - 55) as u8
    }
}

/// The color denoted by six hex digits.
pub open spec fn hex_color(h: Seq<u8>) -> Seq<u8> {
    seq![
        (16 * hex_val(h[0]) + hex_val(h[1])) as u8,
        (16 * hex_val(h[2]) + hex_val(h[3])) as u8,
        (16 * hex_val(h[4]) + hex_val(h[5])) as u8,
    ]
}

/// Numeric value of one hex digit byte.
fn hex_digit_val(b: u8) -> (v: u8)
    requires
        is_hex_digit(b),
    ensures
        v == hex_val(b),
        v < 16,
{
    if b <= 57 {
        b - 48
    } else {
        b - 55
    }
}

/// Parse an `rrggbb` hex color.  Characters that are not ASCII
/// alphanumeric are ignored; exactly six must remain and each must be a
/// hex digit.
pub fn from_hex(hex: &str) -> (r: Result<[u8; 3], String>)
    ensures
        r is Ok <==> (hex_norm(hex@).len() == 6 && (forall|q: int|
            0 <= q < 6 ==> is_hex_digit(hex_norm(hex@)[q]))),
        r matches Ok(c) ==> c@ == hex_color(hex_norm(hex@)),
{
    let len = hex.unicode_len();
    let mut digits: Vec<u8> = Vec::new();
    let mut i: usize = 0;
    while i < len
        invariant
            i <= len,
            len == hex@.len(),
            digits@ == hex_norm(hex@.subrange(0, i as int)),
        decreases len - i,
    {
        let ghost pre = hex@.subrange(0, i as int);
        let c = hex.get_char(i);
        let u = c as u32;
        if (48 <= u && u <= 57) || (65 <= u && u <= 90) || (97 <= u && u <= 122) {
            let b: u8 = if u >= 97 {
                (u - 32) as u8
            } else {
                u as u8
            };
            digits.push(b);
        }
        proof {
            assert(hex@.subrange(0, i + 1).drop_last() =~= pre);
            assert(hex@.subrange(0, i + 1).last() == hex@[i as int]);
        }
        i = i + 1;
    }
    proof {
        assert(hex@.subrange(0, len as int) =~= hex@);
    }
    if digits.len() != 6 {
        let mut e = String::from_str("expected 6 characters, found ");
        push_decimal(&mut e, digits.len() as u64);
        return Err(e);
    }
    let mut k: usize = 0;
    while k < 6
        invariant
            k <= 6,
            digits@.len() == 6,
            digits@ == hex_norm(hex@),
            forall|q: int| 0 <= q < k ==> is_hex_digit(digits@[q]),
        decreases 6 - k,
    {
        let b = digits[k];
        if !((48 <= b && b <= 57) || (65 <= b && b <= 70)) {
            return Err(String::from_str("expected [0-9], [a-f], or [A-F]"));
        }
        k = k + 1;
    }
    let c0 = 16 * hex_digit_val(digits[0]) + hex_digit_val(digits[1]);
    let c1 = 16 * hex_digit_val(digits[2]) + hex_digit_val(digits[3]);
    let c2 = 16 * hex_digit_val(digits[4]) + hex_digit_val(digits[5]);
    let color = [c0, c1, c2];
    proof {
        assert(color@ =~= hex_color(hex_norm(hex@)));
    }
    Ok(color)
}

impl Filter {
    /// Parse a filter name, accepting exactly the five filter names.
    pub fn from_str(s: &str) -> (r: Result<Filter, String>)
        ensures
            s@ == "Nearest"@ ==> r == Ok::<Filter, String>(Filter::Nearest),
            s@ == "Triangle"@ ==> r == Ok::<Filter, String>(Filter::Triangle),
            s@ == "CatmullRom"@ ==> r == Ok::<Filter, String>(Filter::CatmullRom),
            s@ == "Gaussian"@ ==> r == Ok::<Filter, String>(Filter::Gaussian),
            s@ == "Lanczos3"@ ==> r == Ok::<Filter, String>(Filter::Lanczos3),
            (s@ != "Nearest"@ && s@ != "Triangle"@ && s@ != "CatmullRom"@ && s@ != "Gaussian"@
                && s@ != "Lanczos3"@) ==> r is Err,
    {
        proof {
            reveal_strlit("Nearest");
            reveal_strlit("Triangle");
            reveal_strlit("CatmullRom");
            reveal_strlit("Gaussian");
            reveal_strlit("Lanczos3");
            assert("Triangle"@[0] != "Gaussian"@[0]);
            assert("Triangle"@[0] != "Lanczos3"@[0]);
            assert("Gaussian"@[0] != "Lanczos3"@[0]);
            assert("Nearest"@.len() == 7);
            assert("Triangle"@.len() == 8);
            assert("CatmullRom"@.len() == 10);
            assert("Gaussian"@.len() == 8);
            assert("Lanczos3"@.len() == 8);
        }
        if str_eq(s, "Nearest") {
            Ok(Filter::Nearest)
        } else if str_eq(s, "Triangle") {
            Ok(Filter::Triangle)
        } else if str_eq(s, "CatmullRom") {
            Ok(Filter::CatmullRom)
        } else if str_eq(s, "Gaussian") {
            Ok(Filter::Gaussian)
        } else if str_eq(s, "Lanczos3") {
            Ok(Filter::Lanczos3)
        } else {
            let mut e = String::from_str("unrecognized filter: ");
            e.append(s);
            Err(e)
        }
    }
}

} // verus!
