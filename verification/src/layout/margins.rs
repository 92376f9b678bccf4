//! The collapse of adjoining vertical margins, which runs before the layout.
//!
//! The pass sets the margin of every box from its style, and the effective
//! margin from the margin and from the effective margins of the boxes beside
//! and inside it. It sets nothing else.

use vstd::prelude::*;
use crate::geometry::{px_max, px_min, Edge, Pixels};
use crate::layout::{box_views, lemma_view_children, BoxView, Layout, LayoutNode};
use crate::style::Style;

verus! {

pub open spec fn collapsed_margin_spec(a: Pixels, b: Pixels) -> Pixels {
    if a >= 0 && b >= 0 {
        px_max(a, b)
    } else if a < 0 && b < 0 {
        px_min(a, b)
    } else {
        (px_max(a, b) + px_min(a, b)) as i64
    }
}

/// The margin into which two adjoining margins collapse: the greater of two
/// margins that are not negative, the smaller of two negative ones, and else
/// the sum of the two.
#[verifier::when_used_as_spec(collapsed_margin_spec)]
pub fn collapsed_margin(a: Pixels, b: Pixels) -> (m: Pixels)
    ensures
        m == collapsed_margin_spec(a, b),
        a >= 0 && b >= 0 ==> m == px_max(a, b),
        a < 0 && b < 0 ==> m == px_min(a, b),
        (a < 0) != (b < 0) ==> m == px_max(a, b) + px_min(a, b) && m == a + b,
{
    if a >= 0 && b >= 0 {
        px_max(a, b)
    } else if a < 0 && b < 0 {
        px_min(a, b)
    } else {
        px_max(a, b) + px_min(a, b)
    }
}

/// The geometry with the margin that the style asks for, an automatic margin
/// counting as none. The effective margin on the left and on the right is
/// that margin.
pub open spec fn with_style_margins(layout: Layout, style: &Style) -> Layout {
    Layout {
        margin: Edge {
            top: style.margin.top.value(),
            right: style.margin.right.value(),
            bottom: style.margin.bottom.value(),
            left: style.margin.left.value(),
        },
        effective_margin: Edge {
            left: style.margin.left.value(),
            right: style.margin.right.value(),
            ..layout.effective_margin
        },
        ..layout
    }
}

impl BoxView {
    /// The box with another effective margin at the top.
    pub open spec fn with_margin_top(self, top: Pixels) -> BoxView {
        BoxView {
            layout: Layout {
                effective_margin: Edge { top, ..self.layout.effective_margin },
                ..self.layout
            },
            ..self
        }
    }

    /// The box with another effective margin at the bottom.
    pub open spec fn with_margin_bottom(self, bottom: Pixels) -> BoxView {
        BoxView {
            layout: Layout {
                effective_margin: Edge { bottom, ..self.layout.effective_margin },
                ..self.layout
            },
            ..self
        }
    }

    /// Whether the margins of the box collapse with those of the boxes beside
    /// it: the box is in the flow and has no formatting context of its own.
    pub open spec fn adjoins(&self) -> bool {
        self.is_in_flow() && !self.class.is_block_root()
    }
}

/// The first `n` of `children` after the pass, with the margins between
/// neighbours collapsed: where two boxes that adjoin follow each other, the
/// second has the collapsed margin at its top and the first none at its
/// bottom.
pub open spec fn siblings_collapsed(children: Seq<BoxView>, n: nat) -> Seq<BoxView>
    decreases children, 0nat, n,
{
    if n == 0 || n > children.len() {
        Seq::empty()
    } else {
        let done = siblings_collapsed(children, (n - 1) as nat);
        let child = margins_collapsed(children[n - 1]);
        if n >= 2 && child.adjoins() && done[n - 2].adjoins() {
            let before = done[n - 2];
            done.update(n - 2, before.with_margin_bottom(0)).push(
                child.with_margin_top(
                    collapsed_margin(
                        child.layout.effective_margin.top,
                        before.layout.effective_margin.bottom,
                    ),
                ),
            )
        } else {
            done.push(child)
        }
    }
}

/// The first box in the flow from `from` on, unless a float stands before it.
pub open spec fn first_in_flow(children: Seq<BoxView>, from: nat) -> Option<int>
    decreases children.len() - from,
{
    if from >= children.len() {
        None
    } else if children[from as int].class.is_floated() {
        None
    } else if children[from as int].is_in_flow() {
        Some(from as int)
    } else {
        first_in_flow(children, from + 1)
    }
}

/// The last box in the flow among the first `upto`, unless a float stands
/// after it.
pub open spec fn last_in_flow(children: Seq<BoxView>, upto: nat) -> Option<int>
    decreases upto,
{
    if upto == 0 || upto > children.len() {
        None
    } else if children[upto - 1].class.is_floated() {
        None
    } else if children[upto - 1].is_in_flow() {
        Some(upto - 1)
    } else {
        last_in_flow(children, (upto - 1) as nat)
    }
}

/// The box `b` after the pass.
///
/// A box with a formatting context of its own keeps its margins. Any other
/// box without border and padding at the top collapses its top margin with
/// that of the first box in the flow inside it, which then has none; and
/// likewise at the bottom, with the last.
pub open spec fn margins_collapsed(b: BoxView) -> BoxView
    decreases b.children, 1nat,
{
    let own = with_style_margins(b.layout, &b.style);
    let children = siblings_collapsed(b.children, b.children.len());
    if b.class.is_block_root() {
        BoxView {
            layout: Layout {
                effective_margin: Edge {
                    top: own.margin.top,
                    bottom: own.margin.bottom,
                    ..own.effective_margin
                },
                ..own
            },
            children,
            ..b
        }
    } else {
        let first = if b.style.border.top == 0 && b.style.padding.top == 0 {
            first_in_flow(children, 0)
        } else {
            None
        };
        let top = match first {
            Some(i) => collapsed_margin(children[i].layout.effective_margin.top, own.margin.top),
            None => own.margin.top,
        };
        let children = match first {
            Some(i) => children.update(i, children[i].with_margin_top(0)),
            None => children,
        };
        let last = if b.style.border.bottom == 0 && b.style.padding.bottom == 0 {
            last_in_flow(children, children.len())
        } else {
            None
        };
        let bottom = match last {
            Some(i) => collapsed_margin(
                children[i].layout.effective_margin.bottom,
                own.margin.bottom,
            ),
            None => own.margin.bottom,
        };
        let children = match last {
            Some(i) => children.update(i, children[i].with_margin_bottom(0)),
            None => children,
        };
        BoxView {
            layout: Layout {
                effective_margin: Edge { top, bottom, ..own.effective_margin },
                ..own
            },
            children,
            ..b
        }
    }
}

impl<'a> LayoutNode<'a> {
    fn set_margin_top(&mut self, top: Pixels)
        ensures
            final(self)@ == old(self)@.with_margin_top(top),
            final(self).children == old(self).children,
    {
        self.layout.effective_margin.top = top;
        proof {
            lemma_view_children(*self);
            lemma_view_children(*old(self));
        }
    }

    fn set_margin_bottom(&mut self, bottom: Pixels)
        ensures
            final(self)@ == old(self)@.with_margin_bottom(bottom),
            final(self).children == old(self).children,
    {
        self.layout.effective_margin.bottom = bottom;
        proof {
            lemma_view_children(*self);
            lemma_view_children(*old(self));
        }
    }

    fn adjoins(&self) -> (b: bool)
        ensures
            b == self@.adjoins(),
    {
        self.is_in_flow() && !self.is_block_root()
    }

    fn find_first_in_flow(&self) -> (at: Option<usize>)
        ensures
            match at {
                Some(i) => i < self.children@.len() && first_in_flow(self@.children, 0) == Some(
                    i as int,
                ),
                None => first_in_flow(self@.children, 0).is_none(),
            },
    {
        proof {
            lemma_view_children(*self);
        }
        let mut i: usize = 0;
        while i < self.children.len()
            invariant
                i <= self.children@.len(),
                self@.children == box_views(self.children@),
                first_in_flow(self@.children, 0) == first_in_flow(self@.children, i as nat),
            decreases self.children@.len() - i,
        {
            if self.children[i].is_floated() {
                return None;
            }
            if self.children[i].is_in_flow() {
                return Some(i);
            }
            i += 1;
        }
        None
    }

    fn find_last_in_flow(&self) -> (at: Option<usize>)
        ensures
            match at {
                Some(i) => i < self.children@.len() && last_in_flow(
                    self@.children,
                    self@.children.len(),
                ) == Some(i as int),
                None => last_in_flow(self@.children, self@.children.len()).is_none(),
            },
    {
        proof {
            lemma_view_children(*self);
        }
        let mut i: usize = self.children.len();
        while i > 0
            invariant
                i <= self.children@.len(),
                self@.children == box_views(self.children@),
                last_in_flow(self@.children, self@.children.len()) == last_in_flow(
                    self@.children,
                    i as nat,
                ),
            decreases i,
        {
            if self.children[i - 1].is_floated() {
                return None;
            }
            if self.children[i - 1].is_in_flow() {
                return Some(i - 1);
            }
            i -= 1;
        }
        None
    }

    fn collapse_siblings(&mut self)
        ensures
            final(self).document_node == old(self).document_node,
            final(self).style == old(self).style,
            final(self).layout == old(self).layout,
            final(self).class == old(self).class,
            final(self).children@.len() == old(self).children@.len(),
            final(self)@.children == siblings_collapsed(
                old(self)@.children,
                old(self)@.children.len(),
            ),
        decreases old(self).children, 0nat,
    {
        let mut i: usize = 0;
        let mut follows: bool = false;
        proof {
            lemma_view_children(*self);
        }
        while i < self.children.len()
            invariant
                i <= self.children@.len(),
                self.document_node == old(self).document_node,
                self.style == old(self).style,
                self.layout == old(self).layout,
                self.class == old(self).class,
                self.children@.len() == old(self).children@.len(),
                old(self)@.children == box_views(old(self).children@),
                forall|j: int|
                    i <= j < self.children@.len() ==> self.children@[j] == old(self).children@[j],
                box_views(self.children@).take(i as int) == siblings_collapsed(
                    old(self)@.children,
                    i as nat,
                ),
                follows == (i > 0 && box_views(self.children@)[i - 1].adjoins()),
            decreases self.children@.len() - i,
        {
            let ghost before = box_views(self.children@);
            let child = &mut self.children[i];
            child.compute_effective_margin();
            let adjoins = child.adjoins();
            let top = child.layout.effective_margin.top;
            let ghost collapsed = box_views(self.children@);
            proof {
                assert(collapsed.take(i as int) =~= before.take(i as int));
                assert(collapsed.take(i + 1) =~= before.take(i as int).push(collapsed[i as int]));
            }
            if adjoins && follows {
                let bottom = self.children[i - 1].layout.effective_margin.bottom;
                let earlier = &mut self.children[i - 1];
                earlier.set_margin_bottom(0);
                let child = &mut self.children[i];
                child.set_margin_top(collapsed_margin(top, bottom));
                proof {
                    assert(box_views(self.children@).take(i + 1) =~= before.take(i as int).update(
                        i - 1,
                        before[i - 1].with_margin_bottom(0),
                    ).push(
                        collapsed[i as int].with_margin_top(collapsed_margin(top, bottom)),
                    ));
                }
            }
            follows = adjoins;
            i += 1;
        }
        proof {
            lemma_view_children(*self);
            assert(box_views(self.children@).take(i as int) =~= box_views(self.children@));
        }
    }

    /// Sets the margin of the box and of every box inside it from the style,
    /// and the effective margin to what is left of it when adjoining margins
    /// have collapsed.
    pub fn compute_effective_margin(&mut self)
        ensures
            final(self)@ == margins_collapsed(old(self)@),
        decreases old(self).children, 1nat,
    {
        self.layout.margin.top = self.style.margin.top.value();
        self.layout.margin.bottom = self.style.margin.bottom.value();
        self.layout.margin.left = self.style.margin.left.value();
        self.layout.margin.right = self.style.margin.right.value();
        self.layout.effective_margin.left = self.layout.margin.left;
        self.layout.effective_margin.right = self.layout.margin.right;
        proof {
            lemma_view_children(*self);
            lemma_view_children(*old(self));
        }
        self.collapse_siblings();
        proof {
            lemma_view_children(*self);
        }
        if self.is_block_root() {
            self.layout.effective_margin.top = self.layout.margin.top;
            self.layout.effective_margin.bottom = self.layout.margin.bottom;
            proof {
                lemma_view_children(*self);
            }
        } else {
            let first = if self.style.border.top == 0 && self.style.padding.top == 0 {
                self.find_first_in_flow()
            } else {
                None
            };
            match first {
                Some(i) => {
                    let ghost before = box_views(self.children@);
                    self.layout.effective_margin.top = collapsed_margin(
                        self.children[i].layout.effective_margin.top,
                        self.layout.margin.top,
                    );
                    let child = &mut self.children[i];
                    child.set_margin_top(0);
                    proof {
                        assert(box_views(self.children@) =~= before.update(
                            i as int,
                            before[i as int].with_margin_top(0),
                        ));
                    }
                },
                None => {
                    self.layout.effective_margin.top = self.layout.margin.top;
                },
            }
            proof {
                lemma_view_children(*self);
            }
            let last = if self.style.border.bottom == 0 && self.style.padding.bottom == 0 {
                self.find_last_in_flow()
            } else {
                None
            };
            match last {
                Some(i) => {
                    let ghost before = box_views(self.children@);
                    self.layout.effective_margin.bottom = collapsed_margin(
                        self.children[i].layout.effective_margin.bottom,
                        self.layout.margin.bottom,
                    );
                    let child = &mut self.children[i];
                    child.set_margin_bottom(0);
                    proof {
                        assert(box_views(self.children@) =~= before.update(
                            i as int,
                            before[i as int].with_margin_bottom(0),
                        ));
                    }
                },
                None => {
                    self.layout.effective_margin.bottom = self.layout.margin.bottom;
                },
            }
            proof {
                lemma_view_children(*self);
            }
        }
    }
}

} // verus!
