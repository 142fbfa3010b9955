//! What passes between the driver and the hardware that its caller owns.
//!
//! The driver asks for one [`Action`] at a time. The caller carries it out on
//! the bus or on a control line and answers with an [`Event`].

use vstd::prelude::*;
use crate::error::Error;

verus! {

/// The electrical level of a control line.
#[derive(Clone, Copy, Debug, PartialEq, Eq)]
pub enum Level {
    Low,
    High,
}

/// The three control lines that the driver sets.
#[derive(Clone, Copy, Debug, PartialEq, Eq)]
pub enum Line {
    /// Low announces a command byte on the bus, high announces data.
    DataCommand,
    /// Low while a bus transaction is in progress, high between transactions.
    ChipSelect,
    /// Pulled low to reset the panel.
    Reset,
}

/// One thing that the caller is asked to do.
#[derive(Debug, PartialEq, Eq)]
pub enum Action {
    /// Set a control line to a level.
    Drive(Line, Level),
    /// Write the bytes to the serial bus as one transaction.
    Write(Vec<u8>),
    /// Let the given number of milliseconds pass.
    DelayMs(u32),
    /// Read the level of the busy line.
    ReadBusy,
}

/// What the caller reports after an action.
#[derive(Clone, Copy, Debug, PartialEq, Eq)]
pub enum Event {
    /// The line was set, the bytes were written or the delay has passed.
    Done,
    /// The platform reported a fault, with its error code.
    Failed(i32),
    /// The level read on the busy line: low while the panel is busy.
    Sampled(Level),
}

/// What the driver hands back: the next action, or the end of the operation.
#[derive(Debug, PartialEq, Eq)]
pub enum Step {
    /// The caller carries out the action and reports the event.
    Perform(Action),
    /// The operation is over, with this result.
    Finished(Result<(), Error>),
}

/// An [`Action`] as a mathematical value.
pub enum ActionView {
    Drive(Line, Level),
    Write(Seq<u8>),
    DelayMs(u32),
    ReadBusy,
}

/// A [`Step`] as a mathematical value.
pub enum StepView {
    Perform(ActionView),
    Finished(Result<(), Error>),
}

impl View for Action {
    type V = ActionView;

    open spec fn view(&self) -> ActionView {
        match *self {
            Action::Drive(line, level) => ActionView::Drive(line, level),
            Action::Write(bytes) => ActionView::Write(bytes@),
            Action::DelayMs(ms) => ActionView::DelayMs(ms),
            Action::ReadBusy => ActionView::ReadBusy,
        }
    }
}

impl View for Step {
    type V = StepView;

    open spec fn view(&self) -> StepView {
        match *self {
            Step::Perform(action) => StepView::Perform(action@),
            Step::Finished(result) => StepView::Finished(result),
        }
    }
}

} // verus!
