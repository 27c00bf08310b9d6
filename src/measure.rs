use vstd::prelude::*;
use vstd::string::StringSliceAdditionalSpecFns;

verus! {

/// A font oracle: the pixel width of a text in a font at a size.
///
/// The width is a function of its three inputs; the text is given by its
/// UTF-8 bytes.
pub trait TextMeasure {
    spec fn text_width(&self, text: Seq<u8>, font: Seq<char>, font_size: u32) -> u32;

    fn measure(&self, text: &str, font: &str, font_size: u32) -> (r: u32)
        ensures
            r == self.text_width(text.spec_bytes(), font@, font_size),
    ;
}

/// Whether a byte of UTF-8 starts a character (is no continuation byte).
pub open spec fn starts_char(b: u8) -> bool {
    b < 0x80 || b >= 0xC0
}

/// The number of characters in well-formed UTF-8 bytes.
pub open spec fn char_count(s: Seq<u8>) -> nat
    decreases s.len(),
{
    if s.len() == 0 {
        0
    } else {
        char_count(s.drop_last()) + if starts_char(s.last()) {
            1nat
        } else {
            0nat
        }
    }
}

/// An idealized oracle: every character is `advance` pixels wide, whatever
/// the font and size; the width saturates at `u32::MAX`.
#[derive(Clone, Copy, Debug, PartialEq, Eq, Structural)]
pub struct MonospaceMeasure {
    pub advance: u32,
}

pub open spec fn capped_u32(x: int) -> u32 {
    if x > u32::MAX {
        u32::MAX
    } else {
        x as u32
    }
}

impl TextMeasure for MonospaceMeasure {
    open spec fn text_width(&self, text: Seq<u8>, font: Seq<char>, font_size: u32) -> u32 {
        capped_u32(self.advance * char_count(text))
    }

    fn measure(&self, text: &str, font: &str, font_size: u32) -> (r: u32) {
        let bytes = text.as_bytes();
        let mut width: u32 = 0;
        let mut i: usize = 0;
        proof {
            assert(char_count(bytes@.subrange(0, 0)) == 0);
            assert(self.advance * 0 == 0) by (nonlinear_arith);
        }
        while i < bytes.len()
            invariant
                i <= bytes@.len(),
                bytes@ == text.spec_bytes(),
                width == capped_u32(self.advance * char_count(bytes@.subrange(0, i as int))),
            decreases bytes@.len() - i,
        {
            let b = bytes[i];
            proof {
                let s = bytes@.subrange(0, i as int + 1);
                assert(s.drop_last() =~= bytes@.subrange(0, i as int));
                let c = char_count(bytes@.subrange(0, i as int));
                assert(self.advance * (c + 1) == self.advance * c + self.advance)
                    by (nonlinear_arith);
                assert(self.advance * c >= 0) by (nonlinear_arith);
            }
            if b < 0x80 || b >= 0xC0 {
                width = width.saturating_add(self.advance);
            }
            i = i + 1;
        }
        proof {
            assert(bytes@.subrange(0, bytes@.len() as int) =~= bytes@);
        }
        width
    }
}

} // verus!
