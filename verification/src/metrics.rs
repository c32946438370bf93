//! Laid-out glyphs and the pixel box that a whole text takes.
use vstd::prelude::*;
use crate::coverage::Coverage;

verus! {

/// A rectangle on the pixel grid, from `min` up to but not including `max`
/// on each axis.
#[derive(Debug, Clone, Copy, PartialEq, Eq, Structural)]
pub struct PixelBox {
    pub min_x: i32,
    pub min_y: i32,
    pub max_x: i32,
    pub max_y: i32,
}

/// The ink density of one pixel of a glyph. `x` and `y` count from the
/// top-left corner of the glyph's pixel box.
#[derive(Debug, Clone, Copy, PartialEq, Eq, Structural)]
pub struct CoverageSample {
    pub x: u32,
    pub y: u32,
    pub coverage: Coverage,
}

/// A glyph at its place in the line: its pixel box, which a glyph without
/// a shape such as a space does not have, and the coverage of its pixels.
#[derive(Debug, Clone)]
pub struct PlacedGlyph {
    pub bounds: Option<PixelBox>,
    pub samples: Vec<CoverageSample>,
}

/// The size in pixels of a laid-out text and the column of its leftmost
/// ink, counted from the start of the line.
#[derive(Debug, Clone, Copy, PartialEq, Eq, Structural)]
pub struct TextMetrics {
    pub width: u32,
    pub height: u32,
    pub x_offset: i32,
}

/// The smaller of two numbers.
pub open spec fn lesser(a: int, b: int) -> int {
    if a <= b {
        a
    } else {
        b
    }
}

/// The larger of two numbers.
pub open spec fn greater(a: int, b: int) -> int {
    if a >= b {
        a
    } else {
        b
    }
}

/// The distance from `low` up to `high`, or 0 where `high` is below `low`.
pub open spec fn span(low: int, high: int) -> int {
    if low <= high {
        high - low
    } else {
        0
    }
}

impl PixelBox {
    /// The smallest box that holds both boxes.
    pub open spec fn joined(self, other: PixelBox) -> PixelBox {
        PixelBox {
            min_x: lesser(self.min_x as int, other.min_x as int) as i32,
            min_y: lesser(self.min_y as int, other.min_y as int) as i32,
            max_x: greater(self.max_x as int, other.max_x as int) as i32,
            max_y: greater(self.max_y as int, other.max_y as int) as i32,
        }
    }

    /// Whether `inner` lies within this box on both axes.
    pub open spec fn holds(self, inner: PixelBox) -> bool {
        &&& self.min_x <= inner.min_x
        &&& self.min_y <= inner.min_y
        &&& inner.max_x <= self.max_x
        &&& inner.max_y <= self.max_y
    }
}

/// The smallest box that holds the boxes of all glyphs that have one, or
/// nothing where no glyph has a box.
pub open spec fn union_box(glyphs: Seq<PlacedGlyph>) -> Option<PixelBox>
    decreases glyphs.len(),
{
    if glyphs.len() == 0 {
        None
    } else {
        let before = union_box(glyphs.drop_last());
        match (before, glyphs.last().bounds) {
            (Some(u), Some(b)) => Some(u.joined(b)),
            (Some(u), None) => Some(u),
            (None, b) => b,
        }
    }
}

impl TextMetrics {
    /// The metrics of a text whose glyph boxes join to `union`: its extent
    /// on both axes and its least column. A text without any box measures
    /// 0 by 0 with no offset.
    pub open spec fn of(union: Option<PixelBox>) -> TextMetrics {
        match union {
            Some(u) => TextMetrics {
                width: span(u.min_x as int, u.max_x as int) as u32,
                height: span(u.min_y as int, u.max_y as int) as u32,
                x_offset: u.min_x,
            },
            None => TextMetrics { width: 0, height: 0, x_offset: 0 },
        }
    }
}

/// Joins the pixel boxes of all glyphs that have one.
pub fn join_boxes(glyphs: &Vec<PlacedGlyph>) -> (union: Option<PixelBox>)
    ensures
        union == union_box(glyphs@),
{
    let mut union: Option<PixelBox> = None;
    let mut i: usize = 0;
    while i < glyphs.len()
        invariant
            i <= glyphs@.len(),
            union == union_box(glyphs@.take(i as int)),
        decreases glyphs@.len() - i,
    {
        assert(glyphs@.take(i + 1).drop_last() =~= glyphs@.take(i as int));
        assert(glyphs@.take(i + 1).last() == glyphs@[i as int]);
        union = match (union, glyphs[i].bounds) {
            (Some(u), Some(b)) => Some(
                PixelBox {
                    min_x: if u.min_x <= b.min_x { u.min_x } else { b.min_x },
                    min_y: if u.min_y <= b.min_y { u.min_y } else { b.min_y },
                    max_x: if u.max_x >= b.max_x { u.max_x } else { b.max_x },
                    max_y: if u.max_y >= b.max_y { u.max_y } else { b.max_y },
                },
            ),
            (Some(u), None) => Some(u),
            (None, b) => b,
        };
        i += 1;
    }
    assert(glyphs@.take(i as int) =~= glyphs@);
    union
}

/// Measures a laid-out text: the width and height of the union of its
/// glyph boxes and the union's least column. Glyphs without a box are
/// passed over, and a text without any box measures 0 by 0.
pub fn measure_text(glyphs: &Vec<PlacedGlyph>) -> (metrics: TextMetrics)
    ensures
        metrics == TextMetrics::of(union_box(glyphs@)),
{
    match join_boxes(glyphs) {
        Some(u) => {
            let width: i64 = if u.min_x <= u.max_x {
                u.max_x as i64 - u.min_x as i64
            } else {
                0
            };
            let height: i64 = if u.min_y <= u.max_y {
                u.max_y as i64 - u.min_y as i64
            } else {
                0
            };
            TextMetrics { width: width as u32, height: height as u32, x_offset: u.min_x }
        },
        None => TextMetrics { width: 0, height: 0, x_offset: 0 },
    }
}

/// The union holds the box of every glyph that has one.
pub proof fn lemma_union_holds_each(glyphs: Seq<PlacedGlyph>, i: int)
    requires
        0 <= i < glyphs.len(),
        glyphs[i].bounds is Some,
    ensures
        union_box(glyphs) is Some,
        union_box(glyphs).unwrap().holds(glyphs[i].bounds.unwrap()),
    decreases glyphs.len(),
{
    let before = glyphs.drop_last();
    if i < glyphs.len() - 1 {
        lemma_union_holds_each(before, i);
    }
}

/// The union is tight: each of its four edges is an edge of some glyph's
/// box.
pub proof fn lemma_union_is_tight(glyphs: Seq<PlacedGlyph>)
    requires
        union_box(glyphs) is Some,
    ensures
        exists|i: int|
            0 <= i < glyphs.len() && (#[trigger] glyphs[i]).bounds is Some && glyphs[i].bounds.unwrap().min_x
                == union_box(glyphs).unwrap().min_x,
        exists|i: int|
            0 <= i < glyphs.len() && (#[trigger] glyphs[i]).bounds is Some && glyphs[i].bounds.unwrap().min_y
                == union_box(glyphs).unwrap().min_y,
        exists|i: int|
            0 <= i < glyphs.len() && (#[trigger] glyphs[i]).bounds is Some && glyphs[i].bounds.unwrap().max_x
                == union_box(glyphs).unwrap().max_x,
        exists|i: int|
            0 <= i < glyphs.len() && (#[trigger] glyphs[i]).bounds is Some && glyphs[i].bounds.unwrap().max_y
                == union_box(glyphs).unwrap().max_y,
    decreases glyphs.len(),
{
    let before = glyphs.drop_last();
    let last = glyphs.len() - 1;
    let u = union_box(glyphs).unwrap();
    if union_box(before) is Some {
        lemma_union_is_tight(before);
        let ub = union_box(before).unwrap();
        let a = choose|i: int| 0 <= i < before.len() && (#[trigger] before[i]).bounds is Some
            && before[i].bounds.unwrap().min_x == ub.min_x;
        let b = choose|i: int| 0 <= i < before.len() && (#[trigger] before[i]).bounds is Some
            && before[i].bounds.unwrap().min_y == ub.min_y;
        let c = choose|i: int| 0 <= i < before.len() && (#[trigger] before[i]).bounds is Some
            && before[i].bounds.unwrap().max_x == ub.max_x;
        let d = choose|i: int| 0 <= i < before.len() && (#[trigger] before[i]).bounds is Some
            && before[i].bounds.unwrap().max_y == ub.max_y;
        assert(glyphs[a] == before[a] && glyphs[b] == before[b] && glyphs[c] == before[c] && glyphs[d]
            == before[d]);
        let wa = if u.min_x == ub.min_x { a } else { last };
        let wb = if u.min_y == ub.min_y { b } else { last };
        let wc = if u.max_x == ub.max_x { c } else { last };
        let wd = if u.max_y == ub.max_y { d } else { last };
        assert(glyphs[wa].bounds is Some && glyphs[wa].bounds.unwrap().min_x == u.min_x);
        assert(glyphs[wb].bounds is Some && glyphs[wb].bounds.unwrap().min_y == u.min_y);
        assert(glyphs[wc].bounds is Some && glyphs[wc].bounds.unwrap().max_x == u.max_x);
        assert(glyphs[wd].bounds is Some && glyphs[wd].bounds.unwrap().max_y == u.max_y);
    } else {
        assert(glyphs[last].bounds is Some && glyphs[last].bounds.unwrap() == u);
    }
}

/// A text in which no glyph has a box, an empty one among them, measures
/// 0 by 0 with no offset.
pub proof fn lemma_no_box_measures_zero(glyphs: Seq<PlacedGlyph>)
    requires
        forall|i: int| 0 <= i < glyphs.len() ==> (#[trigger] glyphs[i]).bounds is None,
    ensures
        union_box(glyphs) is None,
        TextMetrics::of(union_box(glyphs)) == (TextMetrics { width: 0, height: 0, x_offset: 0 }),
    decreases glyphs.len(),
{
    if glyphs.len() > 0 {
        let before = glyphs.drop_last();
        assert forall|i: int| 0 <= i < before.len() implies (#[trigger] before[i]).bounds is None by {
            assert(before[i] == glyphs[i]);
        }
        lemma_no_box_measures_zero(before);
    }
}

} // verus!
