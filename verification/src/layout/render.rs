//! From the box tree to the list of paint commands.

use vstd::prelude::*;
use crate::layout::{box_views, lemma_view_children, BoxView, LayoutNode};
use crate::paint::{DisplayCommand, DisplayList};

verus! {

/// The paint commands of the last `n` of `children`, the last box first.
pub open spec fn painted_last(children: Seq<BoxView>, n: nat) -> Seq<DisplayCommand>
    decreases children, 0nat, n,
{
    if n == 0 || n > children.len() {
        Seq::empty()
    } else {
        painted_last(children, (n - 1) as nat) + painted(children[children.len() - n])
    }
}

/// The paint commands of a box: its border box is filled with the background
/// colour, the frame of its border is stroked with the border colour, and
/// then come the commands of the boxes inside it, the last box first.
pub open spec fn painted(b: BoxView) -> Seq<DisplayCommand>
    decreases b.children, 1nat,
{
    seq![
        DisplayCommand::SolidBlock(b.style.background_color, b.layout.border_box),
        DisplayCommand::SolidFrame(
            b.style.border_color,
            b.layout.border_box.frame_by(&b.layout.border),
        ),
    ] + painted_last(b.children, b.children.len())
}

impl<'a> LayoutNode<'a> {
    /// Adds the paint commands of the box and of the boxes inside it to
    /// `list`.
    pub fn render(&self, list: &mut DisplayList)
        ensures
            final(list)@ == old(list)@ + painted(self@),
        decreases self.children, 1nat,
    {
        let block = self.layout.border_box;
        let frame = self.layout.border_box.frame_by(&self.layout.border);
        list.display_block(self.style.background_color, block);
        list.display_frame(self.style.border_color, frame);
        let ghost head = list@;
        proof {
            lemma_view_children(*self);
            assert(head =~= old(list)@ + seq![
                DisplayCommand::SolidBlock(self.style.background_color, block),
                DisplayCommand::SolidFrame(self.style.border_color, frame),
            ]);
        }
        let mut i: usize = self.children.len();
        assert(head + painted_last(self@.children, 0) =~= head);
        while i > 0
            invariant
                i <= self.children@.len(),
                self@.children == box_views(self.children@),
                list@ == head + painted_last(self@.children, (self.children@.len() - i) as nat),
            decreases i,
        {
            let ghost before = list@;
            i -= 1;
            self.children[i].render(list);
            proof {
                let n = (self.children@.len() - i) as nat;
                assert(self@.children[self@.children.len() - n] == self.children@[i as int]@);
                assert(head + (painted_last(self@.children, (n - 1) as nat) + painted(
                    self.children@[i as int]@,
                )) =~= before + painted(self.children@[i as int]@));
            }
        }
        proof {
            assert(old(list)@ + (seq![
                DisplayCommand::SolidBlock(self.style.background_color, block),
                DisplayCommand::SolidFrame(self.style.border_color, frame),
            ] + painted_last(self@.children, self@.children.len())) =~= head + painted_last(
                self@.children,
                self@.children.len(),
            ));
        }
    }
}

} // verus!
