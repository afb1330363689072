//! A door standing open draws one full-screen picture, as the loader at
//! 0x875e leaves it: a palette and exactly one screen of pixels.

use vstd::prelude::*;
use crate::framebuffer::Framebuffer;

verus! {

/// One full-screen picture and its palette.
pub struct Picture {
    palette: Vec<u32>,
    pixels: Vec<u8>,
}

impl Picture {
    /// A picture always holds exactly one screen of pixels.
    #[verifier::type_invariant]
    spec fn full_screen(self) -> bool {
        self.pixels@.len() == 64000
    }

    /// The picture's palette, as values.
    pub closed spec fn palette_view(self) -> Seq<u32> {
        self.palette@
    }

    /// The picture's pixels, as values.
    pub closed spec fn pixels_view(self) -> Seq<u8> {
        self.pixels@
    }

    /// A picture from an image the pack holds: only a full screen is one.
    /// An image of any other size is refused, as the loader refuses it.
    pub fn new(palette: Vec<u32>, width: usize, height: usize, pixels: Vec<u8>) -> (r: Option<Picture>)
        ensures
            match r {
                Some(p) => width == 320 && height == 200 && pixels@.len() == 64000 && p.palette_view()
                    == palette@ && p.pixels_view() == pixels@,
                None => !(width == 320 && height == 200 && pixels@.len() == 64000),
            },
    {
        if width == 320 && height == 200 && pixels.len() == 64000 {
            Some(Picture { palette, pixels })
        } else {
            None
        }
    }

    /// Puts the picture up: its palette, as [`Framebuffer::set_palette`]
    /// takes one, and every pixel of it.
    pub fn show(&self, fb: &mut Framebuffer)
        requires
            old(fb).wf(),
        ensures
            final(fb).wf(),
            final(fb).pixels@ == self.pixels_view(),
            forall|i: int| 0 <= i < 32 ==> #[trigger] final(fb).palette@[i] == if i < self.palette_view().len() {
                self.palette_view()[i]
            } else {
                0
            },
    {
        proof {
            use_type_invariant(self);
        }
        fb.set_palette(self.palette.as_slice());
        let mut i: usize = 0;
        while i < 64000
            invariant
                i <= 64000,
                fb.pixels@.len() == 64000,
                self.pixels@.len() == 64000,
                forall|k: int| 0 <= k < i ==> #[trigger] fb.pixels@[k] == self.pixels@[k],
                forall|k: int| 0 <= k < 32 ==> #[trigger] fb.palette@[k] == if k < self.palette@.len() {
                    self.palette@[k]
                } else {
                    0
                },
            decreases 64000 - i,
        {
            fb.pixels.set(i, self.pixels[i]);
            i = i + 1;
        }
        proof {
            assert(fb.pixels@ =~= self.pixels@);
        }
    }
}

} // verus!
