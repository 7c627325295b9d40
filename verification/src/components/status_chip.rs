//! The status chip: for a container's state and what is under way, the text in it and
//! the name of its colour. The rows and the detail page share it, so that they stay in
//! step.
use vstd::prelude::*;

use crate::docker::types::ContainerState;

verus! {

/// The name of a state.
pub open spec fn state_label(state: ContainerState) -> Seq<char> {
    match state {
        ContainerState::Created => "Created"@,
        ContainerState::Running => "Running"@,
        ContainerState::Paused => "Paused"@,
        ContainerState::Restarting => "Restarting"@,
        ContainerState::Stopping => "Stopping"@,
        ContainerState::Exited => "Exited"@,
        ContainerState::Removing => "Removing"@,
        ContainerState::Dead => "Dead"@,
        ContainerState::Unknown => "Unknown"@,
    }
}

/// The colour of a state.
pub open spec fn state_variant(state: ContainerState) -> Seq<char> {
    match state {
        ContainerState::Running => "running"@,
        ContainerState::Restarting => "warning"@,
        ContainerState::Stopping => "warning"@,
        ContainerState::Paused => "warning"@,
        ContainerState::Dead => "error"@,
        ContainerState::Created => "neutral"@,
        ContainerState::Exited => "neutral"@,
        ContainerState::Removing => "neutral"@,
        ContainerState::Unknown => "neutral"@,
    }
}

/// The text of a chip: what is under way, or else the state.
pub open spec fn chip_text(state: ContainerState, transition: Option<Seq<char>>) -> Seq<char> {
    match transition {
        Some(text) => text,
        None => state_label(state),
    }
}

/// The colour of a chip: neutral while something is under way, or else the state's.
pub open spec fn chip_colour(state: ContainerState, transition: Option<Seq<char>>) -> Seq<char> {
    match transition {
        Some(_) => "neutral"@,
        None => state_variant(state),
    }
}

/// What an optional text under way holds.
pub open spec fn transition_view(transition: Option<&'static str>) -> Option<Seq<char>> {
    match transition {
        Some(text) => Some(text@),
        None => None,
    }
}

/// The name of the state, as shown in the chip.
pub fn label(state: ContainerState) -> (r: &'static str)
    ensures
        r@ == state_label(state),
{
    match state {
        ContainerState::Created => "Created",
        ContainerState::Running => "Running",
        ContainerState::Paused => "Paused",
        ContainerState::Restarting => "Restarting",
        ContainerState::Stopping => "Stopping",
        ContainerState::Exited => "Exited",
        ContainerState::Removing => "Removing",
        ContainerState::Dead => "Dead",
        ContainerState::Unknown => "Unknown",
    }
}

/// The style class for the chip's colour, to go with `status-chip`.
pub fn variant(state: ContainerState) -> (r: &'static str)
    ensures
        r@ == state_variant(state),
{
    match state {
        ContainerState::Running => "running",
        ContainerState::Restarting | ContainerState::Stopping | ContainerState::Paused => "warning",
        ContainerState::Dead => "error",
        _ => "neutral",
    }
}

/// The text of the chip while `transition`, if any, is under way.
pub fn label_during(state: ContainerState, transition: Option<&'static str>) -> (r: &'static str)
    ensures
        r@ == chip_text(state, transition_view(transition)),
{
    match transition {
        Some(text) => text,
        None => label(state),
    }
}

/// The style class for the chip's colour while `transition`, if any, is under way.
pub fn variant_during(state: ContainerState, transition: Option<&'static str>) -> (r: &'static str)
    ensures
        r@ == chip_colour(state, transition_view(transition)),
{
    match transition {
        Some(_) => "neutral",
        None => variant(state),
    }
}

} // verus!
