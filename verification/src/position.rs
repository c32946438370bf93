//! The nine anchors of a watermark and the origin each one resolves to.
use vstd::prelude::*;
use vstd::string::*;
use crate::errors::ParseWatermarkPositionError;
use crate::text::{lower_text, spells};

verus! {

/// Where on the image the watermark text is placed: a corner, the middle of
/// an edge, or the centre.
#[derive(Debug, Clone, Copy, PartialEq, Eq, Structural)]
pub enum WatermarkPosition {
    Nw,
    North,
    Ne,
    West,
    Center,
    East,
    Sw,
    South,
    Se,
}

/// One of the three places an anchor can take along a single axis.
#[derive(Debug, Clone, Copy, PartialEq, Eq, Structural)]
pub enum Placement {
    /// Against the left or top edge.
    Start,
    /// Half way between the two edges.
    Middle,
    /// Against the right or bottom edge.
    End,
}

/// `a - b`, or 0 where `b` exceeds `a`.
pub open spec fn saturating_diff(a: int, b: int) -> int {
    if a >= b {
        a - b
    } else {
        0
    }
}

/// The coordinate at which a box of length `text` starts on an axis of
/// length `image`, kept `padding` away from the edge it is placed against.
pub open spec fn axis_origin(place: Placement, image: int, text: int, padding: int) -> int {
    match place {
        Placement::Start => padding,
        Placement::Middle => saturating_diff(image, text) / 2,
        Placement::End => saturating_diff(saturating_diff(image, text), padding),
    }
}

impl WatermarkPosition {
    /// The anchor's place along the horizontal axis.
    pub open spec fn horizontal(self) -> Placement {
        match self {
            WatermarkPosition::Nw | WatermarkPosition::West | WatermarkPosition::Sw => Placement::Start,
            WatermarkPosition::North | WatermarkPosition::Center | WatermarkPosition::South => Placement::Middle,
            WatermarkPosition::Ne | WatermarkPosition::East | WatermarkPosition::Se => Placement::End,
        }
    }

    /// The anchor's place along the vertical axis.
    pub open spec fn vertical(self) -> Placement {
        match self {
            WatermarkPosition::Nw | WatermarkPosition::North | WatermarkPosition::Ne => Placement::Start,
            WatermarkPosition::West | WatermarkPosition::Center | WatermarkPosition::East => Placement::Middle,
            WatermarkPosition::Sw | WatermarkPosition::South | WatermarkPosition::Se => Placement::End,
        }
    }

    /// The lower-case name of the anchor.
    pub open spec fn name(self) -> Seq<char> {
        match self {
            WatermarkPosition::Nw => seq!['n', 'w'],
            WatermarkPosition::North => seq!['n', 'o', 'r', 't', 'h'],
            WatermarkPosition::Ne => seq!['n', 'e'],
            WatermarkPosition::West => seq!['w', 'e', 's', 't'],
            WatermarkPosition::Center => seq!['c', 'e', 'n', 't', 'e', 'r'],
            WatermarkPosition::East => seq!['e', 'a', 's', 't'],
            WatermarkPosition::Sw => seq!['s', 'w'],
            WatermarkPosition::South => seq!['s', 'o', 'u', 't', 'h'],
            WatermarkPosition::Se => seq!['s', 'e'],
        }
    }

    /// The anchor that a text names, if any: the one whose name the text
    /// spells, capitals counting as their lower-case letters.
    pub open spec fn named_by(s: Seq<char>) -> Option<WatermarkPosition> {
        let l = lower_text(s);
        if l == WatermarkPosition::Nw.name() {
            Some(WatermarkPosition::Nw)
        } else if l == WatermarkPosition::North.name() {
            Some(WatermarkPosition::North)
        } else if l == WatermarkPosition::Ne.name() {
            Some(WatermarkPosition::Ne)
        } else if l == WatermarkPosition::West.name() {
            Some(WatermarkPosition::West)
        } else if l == WatermarkPosition::Center.name() {
            Some(WatermarkPosition::Center)
        } else if l == WatermarkPosition::East.name() {
            Some(WatermarkPosition::East)
        } else if l == WatermarkPosition::Sw.name() {
            Some(WatermarkPosition::Sw)
        } else if l == WatermarkPosition::South.name() {
            Some(WatermarkPosition::South)
        } else if l == WatermarkPosition::Se.name() {
            Some(WatermarkPosition::Se)
        } else {
            None
        }
    }

    /// The anchor's lower-case name as a string.
    pub fn to_string(&self) -> (s: String)
        ensures
            s@ == self.name(),
    {
        proof {
            reveal_strlit("nw");
            reveal_strlit("north");
            reveal_strlit("ne");
            reveal_strlit("west");
            reveal_strlit("center");
            reveal_strlit("east");
            reveal_strlit("sw");
            reveal_strlit("south");
            reveal_strlit("se");
        }
        let s = match self {
            WatermarkPosition::Nw => String::from_str("nw"),
            WatermarkPosition::North => String::from_str("north"),
            WatermarkPosition::Ne => String::from_str("ne"),
            WatermarkPosition::West => String::from_str("west"),
            WatermarkPosition::Center => String::from_str("center"),
            WatermarkPosition::East => String::from_str("east"),
            WatermarkPosition::Sw => String::from_str("sw"),
            WatermarkPosition::South => String::from_str("south"),
            WatermarkPosition::Se => String::from_str("se"),
        };
        assert(s@ =~= self.name());
        s
    }

    /// Reads an anchor from its name, in any mix of upper and lower case.
    /// Any other text is handed back in the error.
    pub fn from_str(s: &str) -> (r: Result<WatermarkPosition, ParseWatermarkPositionError>)
        ensures
            match r {
                Ok(p) => Self::named_by(s@) == Some(p),
                Err(e) => Self::named_by(s@) is None && e.0@ == s@,
            },
    {
        proof {
            reveal_strlit("nw");
            reveal_strlit("north");
            reveal_strlit("ne");
            reveal_strlit("west");
            reveal_strlit("center");
            reveal_strlit("east");
            reveal_strlit("sw");
            reveal_strlit("south");
            reveal_strlit("se");
            assert("nw"@ =~= WatermarkPosition::Nw.name());
            assert("north"@ =~= WatermarkPosition::North.name());
            assert("ne"@ =~= WatermarkPosition::Ne.name());
            assert("west"@ =~= WatermarkPosition::West.name());
            assert("center"@ =~= WatermarkPosition::Center.name());
            assert("east"@ =~= WatermarkPosition::East.name());
            assert("sw"@ =~= WatermarkPosition::Sw.name());
            assert("south"@ =~= WatermarkPosition::South.name());
            assert("se"@ =~= WatermarkPosition::Se.name());
        }
        if spells(s, "nw") {
            Ok(WatermarkPosition::Nw)
        } else if spells(s, "north") {
            Ok(WatermarkPosition::North)
        } else if spells(s, "ne") {
            Ok(WatermarkPosition::Ne)
        } else if spells(s, "west") {
            Ok(WatermarkPosition::West)
        } else if spells(s, "center") {
            Ok(WatermarkPosition::Center)
        } else if spells(s, "east") {
            Ok(WatermarkPosition::East)
        } else if spells(s, "sw") {
            Ok(WatermarkPosition::Sw)
        } else if spells(s, "south") {
            Ok(WatermarkPosition::South)
        } else if spells(s, "se") {
            Ok(WatermarkPosition::Se)
        } else {
            Err(ParseWatermarkPositionError(s.to_owned()))
        }
    }
}

/// The top-left corner at which a text box of `text_width` by `text_height`
/// pixels is drawn on an image of `image_width` by `image_height` pixels so
/// that it sits at `position`, `padding` pixels away from the edges it is
/// placed against. Every subtraction stops at 0, so a box larger than the
/// image starts at 0 instead of wrapping.
pub fn resolve_anchor(
    image_width: u32,
    image_height: u32,
    text_width: u32,
    text_height: u32,
    padding: u32,
    position: WatermarkPosition,
) -> (origin: (u32, u32))
    ensures
        origin.0 == axis_origin(position.horizontal(), image_width as int, text_width as int, padding as int),
        origin.1 == axis_origin(position.vertical(), image_height as int, text_height as int, padding as int),
{
    let free_w: u32 = image_width.saturating_sub(text_width);
    let free_h: u32 = image_height.saturating_sub(text_height);
    let x: u32 = match position {
        WatermarkPosition::Nw | WatermarkPosition::West | WatermarkPosition::Sw => padding,
        WatermarkPosition::North | WatermarkPosition::Center | WatermarkPosition::South => free_w / 2,
        WatermarkPosition::Ne | WatermarkPosition::East | WatermarkPosition::Se => free_w.saturating_sub(padding),
    };
    let y: u32 = match position {
        WatermarkPosition::Nw | WatermarkPosition::North | WatermarkPosition::Ne => padding,
        WatermarkPosition::West | WatermarkPosition::Center | WatermarkPosition::East => free_h / 2,
        WatermarkPosition::Sw | WatermarkPosition::South | WatermarkPosition::Se => free_h.saturating_sub(padding),
    };
    (x, y)
}

/// Along one axis, an anchor never starts the box beyond the far edge when
/// it is centred or placed against that edge: a box no longer than the
/// image ends inside it, and a longer one starts at 0. A box placed against
/// the near edge ends inside the image when box and padding fit together.
pub proof fn lemma_axis_origin_bounds(place: Placement, image: u32, text: u32, padding: u32)
    ensures
        0 <= axis_origin(place, image as int, text as int, padding as int),
        place != Placement::Start ==> axis_origin(place, image as int, text as int, padding as int) <= image,
        place != Placement::Start && text <= image ==> axis_origin(
            place,
            image as int,
            text as int,
            padding as int,
        ) + text <= image,
        place != Placement::Start && text >= image ==> axis_origin(
            place,
            image as int,
            text as int,
            padding as int,
        ) == 0,
        text + padding <= image ==> axis_origin(place, image as int, text as int, padding as int) + text
            <= image,
{
}

/// At every anchor, a text box that fits the image together with the
/// padding lies wholly inside the image: the resolved origin is not
/// negative, and origin plus text size does not pass the image size.
pub proof fn lemma_anchor_inside_image(
    image_width: u32,
    image_height: u32,
    text_width: u32,
    text_height: u32,
    padding: u32,
    position: WatermarkPosition,
)
    requires
        text_width + padding <= image_width,
        text_height + padding <= image_height,
    ensures
        0 <= axis_origin(position.horizontal(), image_width as int, text_width as int, padding as int),
        axis_origin(position.horizontal(), image_width as int, text_width as int, padding as int)
            + text_width <= image_width,
        0 <= axis_origin(position.vertical(), image_height as int, text_height as int, padding as int),
        axis_origin(position.vertical(), image_height as int, text_height as int, padding as int)
            + text_height <= image_height,
{
    lemma_axis_origin_bounds(position.horizontal(), image_width, text_width, padding);
    lemma_axis_origin_bounds(position.vertical(), image_height, text_height, padding);
}

/// A text box larger than the image is clamped, not wrapped: at the six
/// anchors that are centred or placed against the far edge along an axis,
/// its origin on that axis is 0.
pub proof fn lemma_oversized_text_starts_at_zero(
    image_width: u32,
    image_height: u32,
    text_width: u32,
    text_height: u32,
    padding: u32,
    position: WatermarkPosition,
)
    ensures
        text_width >= image_width && position.horizontal() != Placement::Start ==> axis_origin(
            position.horizontal(),
            image_width as int,
            text_width as int,
            padding as int,
        ) == 0,
        text_height >= image_height && position.vertical() != Placement::Start ==> axis_origin(
            position.vertical(),
            image_height as int,
            text_height as int,
            padding as int,
        ) == 0,
{
}

/// Reading an anchor's own name gives that anchor back.
pub proof fn lemma_name_round_trip(position: WatermarkPosition)
    ensures
        WatermarkPosition::named_by(position.name()) == Some(position),
{
    let n = position.name();
    assert(lower_text(n) =~= n);
    assert(WatermarkPosition::Nw.name().len() == 2);
    assert(WatermarkPosition::Ne.name()[1] == 'e');
    assert(WatermarkPosition::Nw.name()[1] == 'w');
    assert(WatermarkPosition::Sw.name()[1] == 'w');
    assert(WatermarkPosition::Se.name()[1] == 'e');
    assert(WatermarkPosition::Sw.name()[0] == 's');
    assert(WatermarkPosition::Nw.name()[0] == 'n');
    assert(WatermarkPosition::North.name()[0] == 'n');
    assert(WatermarkPosition::South.name()[0] == 's');
    assert(WatermarkPosition::West.name()[0] == 'w');
    assert(WatermarkPosition::East.name()[0] == 'e');
    assert(WatermarkPosition::North.name().len() == 5);
    assert(WatermarkPosition::South.name().len() == 5);
    assert(WatermarkPosition::West.name().len() == 4);
    assert(WatermarkPosition::East.name().len() == 4);
    assert(WatermarkPosition::Center.name().len() == 6);
}

} // verus!
