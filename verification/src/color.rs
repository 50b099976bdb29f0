//! 24-bit RGB colours, their integer codes and the distance between them.

use vstd::prelude::*;

verus! {

/// One pixel: three 8-bit channels. Two colours are equal exactly when all
/// three channels are.
#[derive(Clone, Copy, Debug, PartialEq, Eq, Hash, Structural)]
pub struct Rgb {
    pub r: u8,
    pub g: u8,
    pub b: u8,
}

/// An ordered list of colours; an entry's position is its palette index.
/// Entries may repeat.
pub type Palette = Vec<Rgb>;

/// Number of distinct colour codes, `2^24`.
pub const CODE_LIMIT: u32 = 0x100_0000;

/// Squared Euclidean distance between two colours in RGB space.
pub open spec fn sq_dist(a: Rgb, b: Rgb) -> int {
    (a.r - b.r) * (a.r - b.r) + (a.g - b.g) * (a.g - b.g) + (a.b - b.b) * (a.b - b.b)
}

/// The largest squared distance two colours can have, `3 * 255^2`.
pub const MAX_SQ_DIST: u32 = 195075;

impl Rgb {
    /// The colour as one integer, `0xRRGGBB`.
    pub open spec fn spec_code(self) -> u32 {
        (self.r as u32 * 65536 + self.g as u32 * 256 + self.b as u32) as u32
    }

    /// The colour whose code is `code`, for `code < CODE_LIMIT`.
    pub open spec fn spec_from_code(code: u32) -> Rgb {
        Rgb { r: (code / 65536) as u8, g: (code / 256 % 256) as u8, b: (code % 256) as u8 }
    }

    /// Packs the colour into `0xRRGGBB`.
    #[verifier::when_used_as_spec(spec_code)]
    pub fn code(self) -> (code: u32)
        ensures
            code == self.spec_code(),
            code < CODE_LIMIT,
            Rgb::spec_from_code(code) == self,
    {
        self.r as u32 * 65536 + self.g as u32 * 256 + self.b as u32
    }

    /// Unpacks `0xRRGGBB`; `None` when `code` has more than 24 bits.
    pub fn from_code(code: u32) -> (color: Option<Rgb>)
        ensures
            code < CODE_LIMIT ==> color == Some(Rgb::spec_from_code(code)),
            code >= CODE_LIMIT ==> color.is_none(),
            color matches Some(c) ==> c.spec_code() == code,
    {
        if code < CODE_LIMIT {
            Some(Rgb { r: (code / 65536) as u8, g: (code / 256 % 256) as u8, b: (code % 256) as u8 })
        } else {
            None
        }
    }

    /// Squared Euclidean distance to `other`.
    pub fn sq_distance(self, other: Rgb) -> (d: u32)
        ensures
            d == sq_dist(self, other),
            d <= MAX_SQ_DIST,
    {
        let dr: i32 = self.r as i32 - other.r as i32;
        let dg: i32 = self.g as i32 - other.g as i32;
        let db: i32 = self.b as i32 - other.b as i32;
        assert(0 <= dr * dr <= 65025) by (nonlinear_arith)
            requires
                -255 <= dr <= 255,
        ;
        assert(0 <= dg * dg <= 65025) by (nonlinear_arith)
            requires
                -255 <= dg <= 255,
        ;
        assert(0 <= db * db <= 65025) by (nonlinear_arith)
            requires
                -255 <= db <= 255,
        ;
        (dr * dr + dg * dg + db * db) as u32
    }
}

/// Colours at distance zero are the same colour, and only those.
pub proof fn lemma_sq_dist_zero(a: Rgb, b: Rgb)
    ensures
        sq_dist(a, b) >= 0,
        sq_dist(a, b) == 0 <==> a == b,
{
    let dr = a.r - b.r;
    let dg = a.g - b.g;
    let db = a.b - b.b;
    assert(dr * dr >= 0 && (dr * dr == 0 <==> dr == 0)) by (nonlinear_arith);
    assert(dg * dg >= 0 && (dg * dg == 0 <==> dg == 0)) by (nonlinear_arith);
    assert(db * db >= 0 && (db * db == 0 <==> db == 0)) by (nonlinear_arith);
}

/// No two colours are further apart than `MAX_SQ_DIST`.
pub proof fn lemma_sq_dist_bounded(a: Rgb, b: Rgb)
    ensures
        0 <= sq_dist(a, b) <= MAX_SQ_DIST,
{
    let dr = a.r - b.r;
    let dg = a.g - b.g;
    let db = a.b - b.b;
    assert(0 <= dr * dr <= 65025) by (nonlinear_arith)
        requires
            -255 <= dr <= 255,
    ;
    assert(0 <= dg * dg <= 65025) by (nonlinear_arith)
        requires
            -255 <= dg <= 255,
    ;
    assert(0 <= db * db <= 65025) by (nonlinear_arith)
        requires
            -255 <= db <= 255,
    ;
}

/// Codes and colours correspond one to one below `CODE_LIMIT`.
pub proof fn lemma_code_roundtrip(code: u32)
    requires
        code < CODE_LIMIT,
    ensures
        Rgb::spec_from_code(code).spec_code() == code,
{
}

} // verus!
