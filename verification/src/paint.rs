//! Paint commands.

use vstd::prelude::*;
use crate::geometry::{Color, Frame, Rect};

verus! {

/// One paint command.
#[derive(Clone, Copy, Debug, PartialEq, Eq)]
pub enum DisplayCommand {
    /// Fill the rectangle with the colour.
    SolidBlock(Color, Rect),
    /// Stroke the frame with the colour.
    SolidFrame(Color, Frame),
}

/// Paint commands in the order in which they are issued.
#[derive(Debug)]
pub struct DisplayList {
    pub commands: Vec<DisplayCommand>,
}

impl View for DisplayList {
    type V = Seq<DisplayCommand>;

    open spec fn view(&self) -> Seq<DisplayCommand> {
        self.commands@
    }
}

impl DisplayList {
    /// The list without commands.
    pub fn new() -> (list: DisplayList)
        ensures
            list@ == Seq::<DisplayCommand>::empty(),
    {
        DisplayList { commands: Vec::new() }
    }

    /// Adds the command that fills `block` with `color`.
    pub fn display_block(&mut self, color: Color, block: Rect)
        ensures
            final(self)@ == old(self)@.push(DisplayCommand::SolidBlock(color, block)),
    {
        self.commands.push(DisplayCommand::SolidBlock(color, block));
    }

    /// Adds the command that strokes `frame` with `color`.
    pub fn display_frame(&mut self, color: Color, frame: Frame)
        ensures
            final(self)@ == old(self)@.push(DisplayCommand::SolidFrame(color, frame)),
    {
        self.commands.push(DisplayCommand::SolidFrame(color, frame));
    }

    /// The number of commands.
    pub fn len(&self) -> (n: usize)
        ensures
            n == self@.len(),
    {
        self.commands.len()
    }
}

} // verus!
