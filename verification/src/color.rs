//! Packed colors, the color of an iteration count, and the palette.
//!
//! An escaping count gets its color from a wave over the counts, which the
//! caller supplies as a function from the count to three channel levels. An
//! interior count is black.

use vstd::prelude::*;

verus! {

/// The color of every point that never escapes.
pub const BLACK: u32 = 0x000000;

/// One color as three channel levels.
#[derive(Clone, Copy, Debug, PartialEq, Eq, Structural)]
pub struct Rgb {
    pub r: u8,
    pub g: u8,
    pub b: u8,
}

impl Rgb {
    /// The color as one word, `0xRRGGBB`.
    pub open spec fn packed(self) -> u32 {
        (self.r * 0x1_0000 + self.g * 0x100 + self.b) as u32
    }

    /// Packs the three levels into one word, red highest.
    pub fn pack(self) -> (color: u32)
        ensures
            color == self.packed(),
            color <= 0xFF_FFFF,
    {
        let r: u32 = self.r as u32;
        let g: u32 = self.g as u32;
        let b: u32 = self.b as u32;
        assert((r << 16) | (g << 8) | b == r * 0x1_0000 + g * 0x100 + b) by (bit_vector)
            requires
                r <= 0xFF,
                g <= 0xFF,
                b <= 0xFF,
        ;
        (r << 16) | (g << 8) | b
    }
}

/// The color of the iteration count `iter` under the budget `max_iter`,
/// where `level` is the wave's level at `iter`: black for a point that used
/// the whole budget, the packed level for one that escaped.
pub open spec fn color_of(iter: u32, max_iter: u32, level: Rgb) -> u32 {
    if iter >= max_iter {
        BLACK
    } else {
        level.packed()
    }
}

/// The palette for the budget `max_iter` and the wave `levels`: one entry
/// for every count up to the budget, each the color of its count.
pub open spec fn palette_of(max_iter: u32, levels: spec_fn(u32) -> Rgb) -> Seq<u32> {
    Seq::new((max_iter + 1) as nat, |i: int| color_of(i as u32, max_iter, levels(i as u32)))
}

/// Whether the function `wave` computes the levels `levels`.
pub open spec fn computes_levels<W: Fn(u32) -> Rgb>(wave: W, levels: spec_fn(u32) -> Rgb) -> bool {
    forall|iter: u32, level: Rgb| wave.ensures((iter,), level) ==> level == levels(iter)
}

/// Maps an iteration count to its packed color. The wave is asked only for
/// a count below the budget.
pub fn color_from_iter<W: Fn(u32) -> Rgb>(iter: u32, max_iter: u32, wave: W) -> (color: u32)
    requires
        iter < max_iter ==> wave.requires((iter,)),
    ensures
        iter >= max_iter ==> color == BLACK,
        color <= 0xFF_FFFF,
        forall|levels: spec_fn(u32) -> Rgb| #[trigger]
            computes_levels(wave, levels) ==> color == color_of(iter, max_iter, levels(iter)),
{
    if iter >= max_iter {
        BLACK
    } else {
        wave(iter).pack()
    }
}

/// Builds the palette for the budget `max_iter`: the color of every count
/// from 0 to the budget, in that order.
pub fn build_palette<W: Fn(u32) -> Rgb>(max_iter: u32, wave: W) -> (palette: Vec<u32>)
    requires
        forall|iter: u32| iter < max_iter ==> wave.requires((iter,)),
    ensures
        palette@.len() == max_iter + 1,
        palette@[max_iter as int] == BLACK,
        forall|levels: spec_fn(u32) -> Rgb| #[trigger]
            computes_levels(wave, levels) ==> palette@ == palette_of(max_iter, levels),
{
    let mut palette: Vec<u32> = Vec::new();
    let mut i: u32 = 0;
    while i < max_iter
        invariant
            forall|iter: u32| iter < max_iter ==> wave.requires((iter,)),
            i <= max_iter,
            palette@.len() == i,
            forall|levels: spec_fn(u32) -> Rgb, k: int|
                computes_levels(wave, levels) && 0 <= k < i ==> #[trigger] palette@[k]
                    == color_of(k as u32, max_iter, #[trigger] levels(k as u32)),
        decreases max_iter - i,
    {
        let ghost before = palette@;
        let color = color_from_iter(i, max_iter, &wave);
        palette.push(color);
        proof {
            assert forall|levels: spec_fn(u32) -> Rgb, k: int|
                computes_levels(wave, levels) && 0 <= k <= i implies #[trigger] palette@[k]
                == color_of(k as u32, max_iter, #[trigger] levels(k as u32)) by {
                if k < i {
                    assert(palette@[k] == before[k]);
                } else {
                    assert(computes_levels(&wave, levels));
                }
            }
        }
        i = i + 1;
    }
    let last = color_from_iter(max_iter, max_iter, &wave);
    palette.push(last);
    proof {
        assert forall|levels: spec_fn(u32) -> Rgb| #[trigger]
            computes_levels(wave, levels) implies palette@ == palette_of(max_iter, levels) by {
            assert forall|k: int| 0 <= k <= max_iter implies palette@[k] == palette_of(
                max_iter,
                levels,
            )[k] by {
                if k < max_iter {
                    assert(palette@[k] == color_of(k as u32, max_iter, levels(k as u32)));
                }
            }
            assert(palette@ =~= palette_of(max_iter, levels));
        }
    }
    palette
}

/// The palette and the direct mapping agree: for every count up to the
/// budget, the palette's entry is the color that `color_of` gives the count.
pub proof fn lemma_palette_agrees_with_direct(
    max_iter: u32,
    levels: spec_fn(u32) -> Rgb,
    iter: u32,
)
    requires
        iter <= max_iter,
    ensures
        palette_of(max_iter, levels)[iter as int] == color_of(iter, max_iter, levels(iter)),
{
}

/// An interior point is black under both mappings: directly, whatever the
/// wave's level, and in the palette's entry for the budget.
pub proof fn lemma_interior_is_black(
    max_iter: u32,
    levels: spec_fn(u32) -> Rgb,
    iter: u32,
    level: Rgb,
)
    requires
        iter >= max_iter,
    ensures
        color_of(iter, max_iter, level) == BLACK,
        palette_of(max_iter, levels)[max_iter as int] == BLACK,
{
}

/// The palette is determined by its entries' colors: a table with one entry
/// for each count up to the budget, each the direct color of its count, is
/// the palette, so two such tables are the same.
pub proof fn lemma_palette_determined(
    max_iter: u32,
    levels: spec_fn(u32) -> Rgb,
    first: Seq<u32>,
    second: Seq<u32>,
)
    requires
        first.len() == max_iter + 1,
        second.len() == max_iter + 1,
        forall|i: int|
            0 <= i <= max_iter ==> first[i] == color_of(i as u32, max_iter, levels(i as u32)),
        forall|i: int|
            0 <= i <= max_iter ==> second[i] == color_of(i as u32, max_iter, levels(i as u32)),
    ensures
        first == palette_of(max_iter, levels),
        second == first,
{
    assert(first =~= palette_of(max_iter, levels));
    assert(second =~= palette_of(max_iter, levels));
}

} // verus!
