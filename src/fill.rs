use vstd::prelude::*;

verus! {

/// Which points a fill covers.
#[derive(Debug, Clone, Copy, PartialEq, Eq, Structural)]
pub enum FillRule {
    EvenOdd,
    NonZero,
}

/// How one fill tessellation is attempted: with the default flattening
/// tolerance or with twice it, under a fill rule.
#[derive(Debug, Clone, Copy, PartialEq, Eq, Structural)]
pub struct FillStrategy {
    pub doubled_tolerance: bool,
    pub rule: FillRule,
}

/// The strategies for a glyph's front cap, tried in turn until one succeeds:
/// the default, then twice the tolerance, then the non-zero rule at the
/// default tolerance.
pub open spec fn front_cap_ladder() -> Seq<FillStrategy> {
    seq![
        FillStrategy { doubled_tolerance: false, rule: FillRule::EvenOdd },
        FillStrategy { doubled_tolerance: true, rule: FillRule::EvenOdd },
        FillStrategy { doubled_tolerance: false, rule: FillRule::NonZero },
    ]
}

/// The strategies for a cap with holes: even-odd, then at twice the tolerance.
pub open spec fn face_ladder() -> Seq<FillStrategy> {
    seq![
        FillStrategy { doubled_tolerance: false, rule: FillRule::EvenOdd },
        FillStrategy { doubled_tolerance: true, rule: FillRule::EvenOdd },
    ]
}

/// The strategy of attempt `n` (from 0) at a front cap; `None` once all have
/// failed, when tessellation has failed.
pub fn front_cap_attempt(n: usize) -> (r: Option<FillStrategy>)
    ensures
        n < front_cap_ladder().len() ==> r == Some(front_cap_ladder()[n as int]),
        n >= front_cap_ladder().len() ==> r.is_none(),
{
    if n == 0 {
        Some(FillStrategy { doubled_tolerance: false, rule: FillRule::EvenOdd })
    } else if n == 1 {
        Some(FillStrategy { doubled_tolerance: true, rule: FillRule::EvenOdd })
    } else if n == 2 {
        Some(FillStrategy { doubled_tolerance: false, rule: FillRule::NonZero })
    } else {
        None
    }
}

/// The strategy of attempt `n` (from 0) at a cap with holes; `None` once all
/// have failed.
pub fn face_attempt(n: usize) -> (r: Option<FillStrategy>)
    ensures
        n < face_ladder().len() ==> r == Some(face_ladder()[n as int]),
        n >= face_ladder().len() ==> r.is_none(),
{
    if n == 0 {
        Some(FillStrategy { doubled_tolerance: false, rule: FillRule::EvenOdd })
    } else if n == 1 {
        Some(FillStrategy { doubled_tolerance: true, rule: FillRule::EvenOdd })
    } else {
        None
    }
}

} // verus!
