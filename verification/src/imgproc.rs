//! Image processing: raw RGB images, resize strategies and pixel-format
//! conversion for the daemon's BGRA output buffers.
use vstd::prelude::*;

pub mod frames;
pub mod resize;
pub mod transition;

verus! {

/// A decoded image: RGB bytes, three per pixel, row major.
pub struct RawImg {
    pub width: u32,
    pub height: u32,
    pub pixels: Vec<u8>,
}

impl RawImg {
    /// The pixel buffer holds exactly three bytes per pixel.
    pub open spec fn wf(&self) -> bool {
        self.pixels@.len() == 3 * (self.width as int) * (self.height as int)
    }

    /// A copy of this image.
    pub fn duplicate(&self) -> (r: RawImg)
        ensures
            r.width == self.width,
            r.height == self.height,
            r.pixels@ == self.pixels@,
    {
        RawImg {
            width: self.width,
            height: self.height,
            pixels: vstd::slice::slice_to_vec(self.pixels.as_slice()),
        }
    }
}

/// Byte sequence with every complete RGB triple reordered to BRG
/// (i.e. bytes 0 and 2 of each pixel swapped); trailing bytes that do
/// not form a whole triple are left as they are.
pub open spec fn brg_of(s: Seq<u8>) -> Seq<u8> {
    Seq::new(
        s.len(),
        |i: int|
            {
                let p = i / 3;
                if 3 * p + 3 <= s.len() {
                    if i % 3 == 0 {
                        s[3 * p + 2]
                    } else if i % 3 == 2 {
                        s[3 * p]
                    } else {
                        s[i]
                    }
                } else {
                    s[i]
                }
            },
    )
}

/// Convert an RGB byte buffer to BRG in place by swapping the first and
/// last byte of every complete pixel triple.
pub fn rgb_to_brg(rgb: &mut Vec<u8>)
    ensures
        final(rgb)@ == brg_of(old(rgb)@),
{
    let len = rgb.len();
    let mut i: usize = 0;
    while len - i >= 3
        invariant
            i <= len,
            i % 3 == 0,
            len == rgb@.len(),
            rgb@.len() == old(rgb)@.len(),
            forall|j: int| 0 <= j < i ==> rgb@[j] == brg_of(old(rgb)@)[j],
            forall|j: int| i <= j < len ==> rgb@[j] == old(rgb)@[j],
        decreases len - i,
    {
        let a = rgb[i];
        let b = rgb[i + 2];
        rgb.set(i, b);
        rgb.set(i + 2, a);
        assert forall|j: int| i <= j < i + 3 implies rgb@[j] == brg_of(old(rgb)@)[j] by {
            assert(j / 3 == i / 3 && 3 * (i / 3) == i && j % 3 == j - i) by (nonlinear_arith)
                requires
                    i % 3 == 0,
                    i <= j < i + 3,
                    0 <= i,
            ;
            assert(3 * (j / 3) + 3 <= old(rgb)@.len());
        }
        i = i + 3;
    }
    assert(final(rgb)@ =~= brg_of(old(rgb)@)) by {
        assert forall|j: int| 0 <= j < len implies rgb@[j] == brg_of(old(rgb)@)[j] by {
            if j >= i {
                assert(3 * (j / 3) + 3 > len) by (nonlinear_arith)
                    requires
                        i % 3 == 0,
                        i <= j < len,
                        len < i + 3,
                        0 <= i,
                ;
            }
        }
    }
}

} // verus!
