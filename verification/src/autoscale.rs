//! Autoscale mode cycling and the label of the autoscale button.

use vstd::prelude::*;

verus! {

/// Autoscaling strategy for a chart view.
#[derive(Clone, Copy, Debug, PartialEq, Eq, Structural)]
pub enum Autoscale {
    CenterLatest,
    FitAll,
    Disabled,
}

/// The mode after `current` in the toggle cycle: unset, center on latest,
/// fit all (only where the chart supports it), disabled, unset again.
pub open spec fn next_autoscale(current: Option<Autoscale>, supports_fit: bool) -> Option<Autoscale> {
    match current {
        None => Some(Autoscale::CenterLatest),
        Some(Autoscale::CenterLatest) => if supports_fit {
            Some(Autoscale::FitAll)
        } else {
            Some(Autoscale::Disabled)
        },
        Some(Autoscale::FitAll) => Some(Autoscale::Disabled),
        Some(Autoscale::Disabled) => None,
    }
}

/// Determine the next autoscale mode when toggling.
pub fn toggle_autoscale(current: Option<Autoscale>, supports_fit: bool) -> (r: Option<Autoscale>)
    ensures
        r == next_autoscale(current, supports_fit),
{
    match current {
        None => Some(Autoscale::CenterLatest),
        Some(Autoscale::CenterLatest) => {
            if supports_fit {
                Some(Autoscale::FitAll)
            } else {
                Some(Autoscale::Disabled)
            }
        },
        Some(Autoscale::FitAll) => Some(Autoscale::Disabled),
        Some(Autoscale::Disabled) => None,
    }
}

/// Button text and tooltip for an autoscale mode.
pub fn autoscale_display(autoscale: Option<Autoscale>) -> (r: (&'static str, &'static str))
    ensures
        r.0@ == (match autoscale {
            Some(Autoscale::CenterLatest) => "C"@,
            Some(Autoscale::FitAll) => "A"@,
            Some(Autoscale::Disabled) => "D"@,
            None => "C"@,
        }),
        r.1@ == (match autoscale {
            Some(Autoscale::CenterLatest) => "Center last price"@,
            Some(Autoscale::FitAll) => "Auto"@,
            Some(Autoscale::Disabled) => "Disabled"@,
            None => "Toggle autoscaling"@,
        }),
{
    match autoscale {
        Some(Autoscale::CenterLatest) => ("C", "Center last price"),
        Some(Autoscale::FitAll) => ("A", "Auto"),
        Some(Autoscale::Disabled) => ("D", "Disabled"),
        None => ("C", "Toggle autoscaling"),
    }
}

/// Toggling cycles through at most four states: four toggles from any mode
/// come back to it when fit is supported, and three when it is not (fit all
/// is skipped).
pub proof fn lemma_toggle_cycle(a: Option<Autoscale>)
    ensures
        next_autoscale(next_autoscale(next_autoscale(next_autoscale(a, true), true), true), true)
            == a,
        a != Some(Autoscale::FitAll) ==> next_autoscale(
            next_autoscale(next_autoscale(a, false), false),
            false,
        ) == a,
{
}

} // verus!
