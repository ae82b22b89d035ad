use vstd::prelude::*;

verus! {

/// What a cell of the level is, as told by the color of its pixel.
#[derive(Clone, Copy, Debug, PartialEq, Eq, Structural)]
pub enum SquareType {
    Wall,
    Checkpoint,
    Start,
    End,
    Empty,
}

/// A color sample outside the palette; it carries the offending sample.
#[derive(Clone, Copy, Debug)]
pub struct UnsupportedColor {
    pub color: [u8; 4],
}

/// The palette: black, red, green, blue and white; the alpha channel is ignored.
pub open spec fn square_of(p: [u8; 4]) -> Option<SquareType> {
    if p[0] == 0 && p[1] == 0 && p[2] == 0 {
        Some(SquareType::Wall)
    } else if p[0] == 255 && p[1] == 0 && p[2] == 0 {
        Some(SquareType::End)
    } else if p[0] == 0 && p[1] == 255 && p[2] == 0 {
        Some(SquareType::Start)
    } else if p[0] == 0 && p[1] == 0 && p[2] == 255 {
        Some(SquareType::Checkpoint)
    } else if p[0] == 255 && p[1] == 255 && p[2] == 255 {
        Some(SquareType::Empty)
    } else {
        None
    }
}

/// Whether a sample belongs to the palette.
pub open spec fn in_palette(p: [u8; 4]) -> bool {
    square_of(p) is Some
}

/// Whether a sample is of the given kind (false for samples outside the palette).
pub open spec fn is_kind(p: [u8; 4], k: SquareType) -> bool {
    square_of(p) == Some(k)
}

/// Classification depends on the color channels alone, so the same sample (whatever its
/// alpha) always gets the same kind; and a sample gets a kind exactly when its channels
/// are black, red, green, blue or white.
pub proof fn lemma_classification_total(p: [u8; 4], q: [u8; 4])
    ensures
        p[0] == q[0] && p[1] == q[1] && p[2] == q[2] ==> square_of(p) == square_of(q),
        in_palette(p) <==> {
            ||| p[0] == 0 && p[1] == 0 && p[2] == 0
            ||| p[0] == 255 && p[1] == 0 && p[2] == 0
            ||| p[0] == 0 && p[1] == 255 && p[2] == 0
            ||| p[0] == 0 && p[1] == 0 && p[2] == 255
            ||| p[0] == 255 && p[1] == 255 && p[2] == 255
        },
{
}

impl SquareType {
    /// Classifies a color sample; a sample outside the palette is an error.
    pub fn classify(value: [u8; 4]) -> (r: Result<SquareType, UnsupportedColor>)
        ensures
            square_of(value) matches Some(k) ==> r == Ok::<SquareType, UnsupportedColor>(k),
            square_of(value) is None ==> r == Err::<SquareType, UnsupportedColor>(
                UnsupportedColor { color: value },
            ),
    {
        let r = value[0];
        let g = value[1];
        let b = value[2];
        if r == 0 && g == 0 && b == 0 {
            Ok(SquareType::Wall)
        } else if r == 255 && g == 0 && b == 0 {
            Ok(SquareType::End)
        } else if r == 0 && g == 255 && b == 0 {
            Ok(SquareType::Start)
        } else if r == 0 && g == 0 && b == 255 {
            Ok(SquareType::Checkpoint)
        } else if r == 255 && g == 255 && b == 255 {
            Ok(SquareType::Empty)
        } else {
            Err(UnsupportedColor { color: value })
        }
    }

    /// The name of the kind, as `{:?}` would print it.
    pub fn name(&self) -> (r: String)
        ensures
            *self == SquareType::Wall ==> r@ == "Wall"@,
            *self == SquareType::Checkpoint ==> r@ == "Checkpoint"@,
            *self == SquareType::Start ==> r@ == "Start"@,
            *self == SquareType::End ==> r@ == "End"@,
            *self == SquareType::Empty ==> r@ == "Empty"@,
    {
        match self {
            SquareType::Wall => String::from_str("Wall"),
            SquareType::Checkpoint => String::from_str("Checkpoint"),
            SquareType::Start => String::from_str("Start"),
            SquareType::End => String::from_str("End"),
            SquareType::Empty => String::from_str("Empty"),
        }
    }
}

} // verus!
