//! Colour histograms: how often each colour occurs in a run of pixels.

use crate::color::{Rgb, CODE_LIMIT};
use crate::rgb_image::RgbImage;
use std::collections::HashMap;
use vstd::prelude::*;

verus! {

broadcast use vstd::std_specs::hash::group_hash_axioms;

/// Occurrence counts keyed by colour code (`Rgb::code`). Only colours that
/// occur have an entry.
pub type RgbHistogram = HashMap<u32, u32>;

/// How many of `pixels` are `color`.
pub open spec fn occurrences(pixels: Seq<Rgb>, color: Rgb) -> nat
    decreases pixels.len(),
{
    if pixels.len() == 0 {
        0
    } else {
        occurrences(pixels.drop_last(), color) + if pixels.last() == color {
            1nat
        } else {
            0nat
        }
    }
}

/// The histogram of `pixels`: an entry for each colour that occurs, holding
/// its number of occurrences.
pub open spec fn histogram_of(pixels: Seq<Rgb>) -> Map<u32, u32> {
    Map::new(
        |code: u32| code < CODE_LIMIT && occurrences(pixels, Rgb::spec_from_code(code)) > 0,
        |code: u32| occurrences(pixels, Rgb::spec_from_code(code)) as u32,
    )
}

/// No colour occurs more often than a 32-bit count can hold.
pub open spec fn countable(pixels: Seq<Rgb>) -> bool {
    forall|color: Rgb| #[trigger] occurrences(pixels, color) <= u32::MAX
}

/// The sum of all counts of a finite histogram.
pub open spec fn total_count(counts: Map<u32, u32>) -> nat
    decreases counts.dom().len(),
    when counts.dom().finite()
{
    if counts.dom().len() == 0 {
        0
    } else {
        let code = counts.dom().choose();
        counts[code] as nat + total_count(counts.remove(code))
    }
}

/// No colour occurs more often than there are pixels.
pub proof fn lemma_occurrences_bounded(pixels: Seq<Rgb>, color: Rgb)
    ensures
        occurrences(pixels, color) <= pixels.len(),
    decreases pixels.len(),
{
    if pixels.len() > 0 {
        lemma_occurrences_bounded(pixels.drop_last(), color);
    }
}

/// One more pixel raises the count of its own colour by one and no other.
pub proof fn lemma_occurrences_push(pixels: Seq<Rgb>, pixel: Rgb, color: Rgb)
    ensures
        occurrences(pixels.push(pixel), color) == occurrences(pixels, color) + if pixel
            == color {
            1nat
        } else {
            0nat
        },
{
    assert(pixels.push(pixel).drop_last() =~= pixels);
}

/// A colour occurs in the first `n` pixels at most as often as in all.
pub proof fn lemma_occurrences_prefix(pixels: Seq<Rgb>, n: int, color: Rgb)
    requires
        0 <= n <= pixels.len(),
    ensures
        occurrences(pixels.take(n), color) <= occurrences(pixels, color),
    decreases pixels.len(),
{
    if n < pixels.len() {
        lemma_occurrences_prefix(pixels.drop_last(), n, color);
        assert(pixels.drop_last().take(n) =~= pixels.take(n));
    } else {
        assert(pixels.take(n) =~= pixels);
    }
}

/// An image of at most `u32::MAX` pixels has countable colours.
pub proof fn lemma_countable_when_small(pixels: Seq<Rgb>)
    requires
        pixels.len() <= u32::MAX,
    ensures
        countable(pixels),
{
    assert forall|color: Rgb| #[trigger] occurrences(pixels, color) <= u32::MAX by {
        lemma_occurrences_bounded(pixels, color);
    }
}

/// The sum of a histogram is the count of any one of its colours plus the
/// sum of the rest, whichever colour is taken out.
pub proof fn lemma_total_count_remove(counts: Map<u32, u32>, code: u32)
    requires
        counts.dom().finite(),
        counts.dom().contains(code),
    ensures
        total_count(counts) == counts[code] + total_count(counts.remove(code)),
    decreases counts.dom().len(),
{
    let first = counts.dom().choose();
    if first != code {
        lemma_total_count_remove(counts.remove(first), code);
        lemma_total_count_remove(counts.remove(code), first);
        assert(counts.remove(first).remove(code) =~= counts.remove(code).remove(first));
    }
}

/// Setting one colour's count changes the sum by the difference.
pub proof fn lemma_total_count_insert(counts: Map<u32, u32>, code: u32, count: u32)
    requires
        counts.dom().finite(),
    ensures
        total_count(counts.insert(code, count)) == total_count(counts) + count - if counts.dom().contains(
            code,
        ) {
            counts[code] as int
        } else {
            0
        },
{
    let after = counts.insert(code, count);
    lemma_total_count_remove(after, code);
    assert(after.remove(code) =~= counts.remove(code));
    if counts.dom().contains(code) {
        lemma_total_count_remove(counts, code);
    } else {
        assert(counts.remove(code) =~= counts);
    }
}

/// The histogram of one more pixel is the old one with that pixel's colour
/// counted once more.
pub proof fn lemma_histogram_push(pixels: Seq<Rgb>, pixel: Rgb)
    requires
        countable(pixels.push(pixel)),
    ensures
        histogram_of(pixels.push(pixel)) == histogram_of(pixels).insert(
            pixel.spec_code(),
            (occurrences(pixels, pixel) + 1) as u32,
        ),
{
    let before = histogram_of(pixels);
    let after = histogram_of(pixels.push(pixel));
    let code = pixel.spec_code();
    let expected = before.insert(code, (occurrences(pixels, pixel) + 1) as u32);
    assert(Rgb::spec_from_code(code) == pixel);
    assert forall|k: u32| after.dom().contains(k) <==> expected.dom().contains(k) by {
        lemma_occurrences_push(pixels, pixel, Rgb::spec_from_code(k));
        if k < CODE_LIMIT {
            crate::color::lemma_code_roundtrip(k);
        }
    }
    assert forall|k: u32| after.dom().contains(k) implies after[k] == expected[k] by {
        lemma_occurrences_push(pixels, pixel, Rgb::spec_from_code(k));
        assert(occurrences(pixels.push(pixel), Rgb::spec_from_code(k)) <= u32::MAX);
        if k < CODE_LIMIT {
            crate::color::lemma_code_roundtrip(k);
        }
    }
    assert(after =~= expected);
}

/// A histogram has finitely many entries, and its counts add up to the
/// number of pixels.
pub proof fn lemma_histogram_total(pixels: Seq<Rgb>)
    requires
        countable(pixels),
    ensures
        histogram_of(pixels).dom().finite(),
        total_count(histogram_of(pixels)) == pixels.len(),
    decreases pixels.len(),
{
    if pixels.len() == 0 {
        assert(histogram_of(pixels) =~= Map::<u32, u32>::empty());
    } else {
        let rest = pixels.drop_last();
        let pixel = pixels.last();
        assert(rest.push(pixel) =~= pixels);
        assert forall|color: Rgb| #[trigger] occurrences(rest, color) <= u32::MAX by {
            assert(occurrences(pixels, color) <= u32::MAX);
        }
        lemma_histogram_total(rest);
        lemma_histogram_push(rest, pixel);
        assert(occurrences(pixels, pixel) <= u32::MAX);
        lemma_total_count_insert(
            histogram_of(rest),
            pixel.spec_code(),
            (occurrences(rest, pixel) + 1) as u32,
        );
        assert(Rgb::spec_from_code(pixel.spec_code()) == pixel);
    }
}

/// Counts how often each colour occurs in `data`.
///
/// The counts are 32-bit, so no colour may occur more than `u32::MAX`
/// times; an image of at most `u32::MAX` pixels is always in order.
pub fn get_color_histogram(data: &RgbImage) -> (histogram: RgbHistogram)
    requires
        countable(data@.pixels),
    ensures
        histogram@ == histogram_of(data@.pixels),
        total_count(histogram@) == data@.width * data@.height,
{
    let bytes = data.as_raw();
    let ghost pixels = data@.pixels;
    proof {
        data.lemma_well_formed();
    }
    let n: usize = bytes.len() / 3;
    let mut histogram: RgbHistogram = HashMap::new();
    assert(histogram@ =~= histogram_of(pixels.take(0)));
    let mut i: usize = 0;
    while i < n
        invariant
            i <= n,
            n == pixels.len(),
            countable(pixels),
            bytes@.len() == 3 * n,
            3 * n <= usize::MAX,
            pixels == crate::rgb_image::pixels_of(bytes@),
            histogram@ == histogram_of(pixels.take(i as int)),
        decreases n - i,
    {
        let pixel = Rgb { r: bytes[3 * i], g: bytes[3 * i + 1], b: bytes[3 * i + 2] };
        let code = pixel.code();
        let count: u32 = match histogram.get(&code) {
            Some(c) => *c,
            None => 0,
        };
        proof {
            let seen = pixels.take(i as int);
            assert(pixels[i as int] == pixel);
            assert(seen.push(pixel) =~= pixels.take(i + 1));
            assert forall|color: Rgb| #[trigger] occurrences(seen.push(pixel), color)
                <= u32::MAX by {
                lemma_occurrences_prefix(pixels, i + 1, color);
                assert(occurrences(pixels, color) <= u32::MAX);
            }
            lemma_occurrences_push(seen, pixel, pixel);
            lemma_histogram_push(seen, pixel);
            assert(count == occurrences(seen, pixel));
        }
        histogram.insert(code, count + 1);
        i += 1;
    }
    proof {
        assert(pixels.take(n as int) =~= pixels);
        lemma_histogram_total(pixels);
    }
    histogram
}

} // verus!
