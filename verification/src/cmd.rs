//! The command façades: one request type per verb. A request is built from
//! arguments that were already split into tokens, and says what is to be
//! done for it: answer at once, or run a command against the store.

use vstd::prelude::*;
use crate::command::{Command, CommandView};
use crate::frame::{Frame, FrameView};

pub mod hgetall;
pub mod lset;
pub mod smembers;

verus! {

/// What is to be done for a request.
#[derive(Clone, Debug, PartialEq, Eq)]
pub enum Dispatch {
    /// Answer with this frame; the store is not touched.
    Reply(Frame),
    /// Run this command in a transaction and answer with its reply.
    Run(Command),
}

/// A dispatch as a mathematical value.
pub enum DispatchView {
    Reply(FrameView),
    Run(CommandView),
}

impl View for Dispatch {
    type V = DispatchView;

    open spec fn view(&self) -> DispatchView {
        match self {
            Dispatch::Reply(f) => DispatchView::Reply(f@),
            Dispatch::Run(c) => DispatchView::Run(c@),
        }
    }
}

} // verus!
