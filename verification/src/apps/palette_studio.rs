//! Palette editor helpers: the names shown for each position function.
use vstd::prelude::*;

use crate::palette::PositionFn;

verus! {

pub open spec fn spec_position_fn_label(f: PositionFn) -> Seq<char> {
    match f {
        PositionFn::Linear => "Linear"@,
        PositionFn::Sinusoidal => "Sinusoidal"@,
        PositionFn::ASinusoidal => "ASinusoidal"@,
        PositionFn::Exponential => "Exponential"@,
        PositionFn::Quadratic => "Quadratic"@,
        PositionFn::Cubic => "Cubic"@,
        PositionFn::Quartic => "Quartic"@,
        PositionFn::Arc => "Arc"@,
        PositionFn::SmoothStep => "SmoothStep"@,
    }
}

/// The name of a position function, as listed in the editor.
pub fn position_fn_label(f: PositionFn) -> (r: &'static str)
    ensures
        r@ == spec_position_fn_label(f),
{
    match f {
        PositionFn::Linear => "Linear",
        PositionFn::Sinusoidal => "Sinusoidal",
        PositionFn::ASinusoidal => "ASinusoidal",
        PositionFn::Exponential => "Exponential",
        PositionFn::Quadratic => "Quadratic",
        PositionFn::Cubic => "Cubic",
        PositionFn::Quartic => "Quartic",
        PositionFn::Arc => "Arc",
        PositionFn::SmoothStep => "SmoothStep",
    }
}

} // verus!
