//! Box generation: from the styled document to the box tree.
//!
//! Every node of the styled document is given a class, and with it zero or
//! more boxes. Anonymous boxes are put around runs of boxes, so that a block
//! container holds block-level boxes only and an inline container holds
//! inline-level boxes only.

use itertools::Itertools;
use vstd::prelude::*;
use crate::layout::laws::{homogeneous, lemma_boxes_homogeneous};
use crate::layout::{box_views, lemma_view_children, BoxView, Layout, LayoutClass, LayoutNode};
use crate::style::{DisplayType, Floated, Overflow, Positioned, Style, StyledNode};

verus! {

/// The boxes that a run is made of.
#[derive(Clone, Copy, PartialEq, Eq, Debug, Structural)]
pub enum RunKind {
    /// Block-level boxes, floats among them.
    BlockLevel,
    /// Inline-level boxes, floats among them.
    InlineLevel,
    /// Block-level boxes but floats.
    BlockFlow,
}

impl RunKind {
    pub open spec fn accepts_spec(&self, class: LayoutClass) -> bool {
        match self {
            RunKind::BlockLevel => class.is_block_level(),
            RunKind::InlineLevel => class.is_inline_level(),
            RunKind::BlockFlow => class.is_block_level() && !class.is_floated(),
        }
    }

    /// Whether a box of the given class belongs in a run of this kind.
    #[verifier::when_used_as_spec(accepts_spec)]
    pub fn accepts(&self, class: LayoutClass) -> (b: bool)
        ensures
            b == self.accepts_spec(class),
    {
        match self {
            RunKind::BlockLevel => class.is_block_level(),
            RunKind::InlineLevel => class.is_inline_level(),
            RunKind::BlockFlow => class.is_block_level() && !class.is_floated(),
        }
    }
}

/// Whether the node asks for sticky positioning, which is not supported.
pub open spec fn uses_sticky(node: &StyledNode) -> bool {
    &&& !node.node.is_text()
    &&& !node.node.has_tag("html")
    &&& node.specified.overflow == Overflow::Visible
    &&& node.specified.position == Positioned::Sticky
}

/// The class of the box of a node, if the node generates a box.
///
/// A run of text is `Text`. The root element, an element that does not show
/// what overflows it, and an element that is placed by its offsets are
/// `BlockRoot`. Any other element with a float side is `Floated`. The rest go
/// by their display type, and one that is not displayed generates no box.
pub open spec fn class_of(node: &StyledNode) -> Option<LayoutClass> {
    if node.node.is_text() {
        Some(LayoutClass::Text)
    } else if node.node.has_tag("html") {
        Some(LayoutClass::BlockRoot)
    } else if node.specified.overflow != Overflow::Visible {
        Some(LayoutClass::BlockRoot)
    } else {
        match node.specified.position {
            Positioned::Absolute | Positioned::Fixed => Some(LayoutClass::BlockRoot),
            Positioned::Sticky => None,
            Positioned::Relative | Positioned::Static => match node.specified.float {
                Floated::Left | Floated::Right => Some(LayoutClass::Floated),
                Floated::NoSide => match node.specified.display {
                    DisplayType::Block => Some(LayoutClass::Block),
                    DisplayType::Inline => Some(LayoutClass::Inline),
                    DisplayType::InlineBlock => Some(LayoutClass::InlineBlock),
                    DisplayType::NoBox => None,
                },
            },
        }
    }
}

/// Whether box generation can handle the node and what is below it: no node
/// that would generate a box asks for sticky positioning.
pub open spec fn supported(node: StyledNode) -> bool
    decreases node,
{
    &&& !uses_sticky(&node)
    &&& class_of(&node).is_some() ==> forall|i: int|
        0 <= i < node.children@.len() ==> supported(#[trigger] node.children@[i])
}

/// The box of a node, with the given boxes inside it.
pub open spec fn generated(
    node: &StyledNode,
    class: LayoutClass,
    children: Seq<BoxView>,
) -> BoxView {
    BoxView {
        document_node: Some(*node.node),
        style: node.specified,
        layout: Layout::initial(),
        class,
        children,
    }
}

/// An anonymous box inside a box with the style `parent_style`, with the
/// given boxes inside it.
pub open spec fn anonymous(
    class: LayoutClass,
    parent_style: &Style,
    children: Seq<BoxView>,
) -> BoxView {
    BoxView {
        document_node: None,
        style: Style::inherit(parent_style),
        layout: Layout::initial(),
        class,
        children,
    }
}

/// The length of the longest run of the given kind at the start of `boxes`.
pub open spec fn run_length(boxes: Seq<BoxView>, kind: RunKind) -> nat
    decreases boxes.len(),
{
    if boxes.len() > 0 && kind.accepts(boxes[0].class) {
        1 + run_length(boxes.drop_first(), kind)
    } else {
        0
    }
}

/// A run ends at the first box that is not of its kind, or with the boxes.
pub proof fn lemma_run_length(boxes: Seq<BoxView>, kind: RunKind)
    ensures
        run_length(boxes, kind) <= boxes.len(),
        forall|i: int| 0 <= i < run_length(boxes, kind) ==> kind.accepts(#[trigger] boxes[i].class),
        run_length(boxes, kind) < boxes.len() ==> !kind.accepts(
            boxes[run_length(boxes, kind) as int].class,
        ),
    decreases boxes.len(),
{
    if boxes.len() > 0 && kind.accepts(boxes[0].class) {
        lemma_run_length(boxes.drop_first(), kind);
        assert forall|i: int| 0 <= i < run_length(boxes, kind) implies kind.accepts(
            #[trigger] boxes[i].class,
        ) by {
            if i > 0 {
                assert(boxes[i] == boxes.drop_first()[i - 1]);
            }
        }
    }
}

/// A prefix of boxes of one kind that is followed by no box of that kind is
/// the longest run.
pub proof fn lemma_run_found(boxes: Seq<BoxView>, kind: RunKind, n: nat)
    requires
        n <= boxes.len(),
        forall|i: int| 0 <= i < n ==> kind.accepts(#[trigger] boxes[i].class),
        n < boxes.len() ==> !kind.accepts(boxes[n as int].class),
    ensures
        run_length(boxes, kind) == n,
    decreases n,
{
    if n > 0 {
        assert(kind.accepts(boxes[0].class));
        let rest = boxes.drop_first();
        assert forall|i: int| 0 <= i < n - 1 implies kind.accepts(#[trigger] rest[i].class) by {
            assert(rest[i] == boxes[i + 1]);
        }
        lemma_run_found(rest, kind, (n - 1) as nat);
    }
}

/// The boxes inside a block container, made from the boxes of the nodes
/// inside its node: block-level boxes stay as they are, and every run of
/// inline-level boxes that starts with a box that is not block-level goes
/// into an anonymous `InlineRoot`.
pub open spec fn block_contents(style: &Style, boxes: Seq<BoxView>) -> Seq<BoxView>
    decreases boxes.len(),
    via block_contents_decreases
{
    if boxes.len() == 0 {
        Seq::empty()
    } else if boxes[0].class.is_block_level() {
        seq![boxes[0]] + block_contents(style, boxes.drop_first())
    } else {
        let n = run_length(boxes, RunKind::InlineLevel);
        seq![anonymous(LayoutClass::InlineRoot, style, boxes.take(n as int))] + block_contents(
            style,
            boxes.skip(n as int),
        )
    }
}

#[via_fn]
proof fn block_contents_decreases(style: &Style, boxes: Seq<BoxView>) {
    if boxes.len() > 0 && !boxes[0].class.is_block_level() {
        lemma_run_length(boxes, RunKind::InlineLevel);
        assert(RunKind::InlineLevel.accepts(boxes[0].class));
    }
}

/// The boxes of a node whose box is no block container, made from the boxes
/// of the nodes inside it: the box is split around every run of block-level
/// boxes in the flow, and each such run goes into an anonymous `Block`.
pub open spec fn inline_splits(node: &StyledNode, class: LayoutClass, boxes: Seq<BoxView>) -> Seq<
    BoxView,
>
    decreases boxes.len(),
    via inline_splits_decreases
{
    let n = run_length(boxes, RunKind::InlineLevel);
    let head = generated(node, class, boxes.take(n as int));
    let rest = boxes.skip(n as int);
    if n >= boxes.len() {
        seq![head]
    } else {
        let b = run_length(rest, RunKind::BlockFlow);
        seq![head, anonymous(LayoutClass::Block, &node.specified, rest.take(b as int))]
            + inline_splits(node, class, rest.skip(b as int))
    }
}

#[via_fn]
proof fn inline_splits_decreases(node: &StyledNode, class: LayoutClass, boxes: Seq<BoxView>) {
    let n = run_length(boxes, RunKind::InlineLevel);
    lemma_run_length(boxes, RunKind::InlineLevel);
    if n < boxes.len() {
        let rest = boxes.skip(n as int);
        lemma_run_length(rest, RunKind::BlockFlow);
        assert(rest[0] == boxes[n as int]);
        assert(RunKind::BlockFlow.accepts(rest[0].class));
    }
}

/// The boxes of the first `n` of `children`, one node after the other.
pub open spec fn child_boxes(children: Seq<StyledNode>, n: nat) -> Seq<BoxView>
    decreases children, n,
{
    if n == 0 || n > children.len() {
        Seq::empty()
    } else {
        child_boxes(children, (n - 1) as nat) + boxes_of(children[n - 1])
    }
}

/// The boxes of a node.
///
/// A node without a class has none. A node whose box is a block container has
/// one; where the box floats and the node has nodes inside it, an anonymous
/// `BlockRoot` stands between the box and what is inside it. Any other node
/// has one box for every run of inline-level boxes inside it, and at least
/// one.
pub open spec fn boxes_of(node: StyledNode) -> Seq<BoxView>
    decreases node, 0nat,
{
    match class_of(&node) {
        None => Seq::empty(),
        Some(class) => {
            let inner = child_boxes(node.children@, node.children@.len());
            if class.is_block_container() {
                let contents = block_contents(&node.specified, inner);
                seq![
                    generated(
                        &node,
                        class,
                        if class.is_floated() && node.children@.len() > 0 {
                            seq![anonymous(LayoutClass::BlockRoot, &node.specified, contents)]
                        } else {
                            contents
                        },
                    ),
                ]
            } else {
                inline_splits(&node, class, inner)
            }
        },
    }
}

/// The models of boxes that follow each other are the models of the first
/// followed by the models of the rest.
pub proof fn lemma_views_concat(first: Seq<LayoutNode>, rest: Seq<LayoutNode>)
    ensures
        box_views(first + rest) == box_views(first) + box_views(rest),
{
    assert(box_views(first + rest) =~= box_views(first) + box_views(rest));
}

/// Block-level boxes at the start of the boxes inside a block container stay
/// as they are.
pub proof fn lemma_block_run_stays(style: &Style, run: Seq<BoxView>, rest: Seq<BoxView>)
    requires
        forall|i: int| 0 <= i < run.len() ==> (#[trigger] run[i].class).is_block_level(),
    ensures
        block_contents(style, run + rest) == run + block_contents(style, rest),
    decreases run.len(),
{
    if run.len() == 0 {
        assert(run + rest =~= rest);
        assert(run + block_contents(style, rest) =~= block_contents(style, rest));
    } else {
        let all = run + rest;
        assert(all[0] == run[0]);
        assert(all.drop_first() =~= run.drop_first() + rest);
        assert forall|i: int| 0 <= i < run.drop_first().len() implies (
        #[trigger] run.drop_first()[i].class).is_block_level() by {
            assert(run.drop_first()[i] == run[i + 1]);
        }
        lemma_block_run_stays(style, run.drop_first(), rest);
        assert(seq![run[0]] + (run.drop_first() + block_contents(style, rest)) =~= run
            + block_contents(style, rest));
    }
}

/// A run of inline-level boxes at the start of the boxes inside a block
/// container, which starts with a box that is not block-level and is followed
/// by no inline-level box, goes into one anonymous `InlineRoot`.
pub proof fn lemma_inline_run_wrapped(style: &Style, run: Seq<BoxView>, rest: Seq<BoxView>)
    requires
        run.len() > 0,
        !run[0].class.is_block_level(),
        forall|i: int| 0 <= i < run.len() ==> (#[trigger] run[i].class).is_inline_level(),
        rest.len() > 0 ==> !rest[0].class.is_inline_level(),
    ensures
        block_contents(style, run + rest) == seq![
            anonymous(LayoutClass::InlineRoot, style, run),
        ] + block_contents(style, rest),
{
    let all = run + rest;
    assert(all[0] == run[0]);
    assert forall|i: int| 0 <= i < run.len() implies RunKind::InlineLevel.accepts(
        #[trigger] all[i].class,
    ) by {
        assert(all[i] == run[i]);
    }
    if rest.len() > 0 {
        assert(all[run.len() as int] == rest[0]);
    }
    lemma_run_found(all, RunKind::InlineLevel, run.len());
    assert(all.take(run.len() as int) =~= run);
    assert(all.skip(run.len() as int) =~= rest);
}

/// Every box inside a block container is block-level.
pub proof fn lemma_block_contents_block_level(style: &Style, boxes: Seq<BoxView>)
    ensures
        forall|i: int|
            0 <= i < block_contents(style, boxes).len() ==> (#[trigger] block_contents(
                style,
                boxes,
            )[i].class).is_block_level(),
    decreases boxes.len(),
{
    if boxes.len() == 0 {
    } else if boxes[0].class.is_block_level() {
        lemma_block_contents_block_level(style, boxes.drop_first());
    } else {
        lemma_run_length(boxes, RunKind::InlineLevel);
        assert(RunKind::InlineLevel.accepts(boxes[0].class));
        let n = run_length(boxes, RunKind::InlineLevel);
        lemma_block_contents_block_level(style, boxes.skip(n as int));
    }
}

/// What is left of the boxes of a node whose box is no block container once
/// a run of inline-level boxes is taken off: nothing, or a run of block-level
/// boxes in the flow and then the rest of the splits.
pub open spec fn splits_after_run(node: &StyledNode, class: LayoutClass, rest: Seq<BoxView>) -> Seq<
    BoxView,
> {
    if rest.len() == 0 {
        Seq::empty()
    } else {
        let b = run_length(rest, RunKind::BlockFlow);
        seq![anonymous(LayoutClass::Block, &node.specified, rest.take(b as int))] + inline_splits(
            node,
            class,
            rest.skip(b as int),
        )
    }
}

/// The splits of a box start with the box around the first run of
/// inline-level boxes.
pub proof fn lemma_inline_run_split(
    node: &StyledNode,
    class: LayoutClass,
    run: Seq<BoxView>,
    rest: Seq<BoxView>,
)
    requires
        forall|i: int| 0 <= i < run.len() ==> (#[trigger] run[i].class).is_inline_level(),
        rest.len() > 0 ==> !rest[0].class.is_inline_level(),
    ensures
        inline_splits(node, class, run + rest) == seq![generated(node, class, run)]
            + splits_after_run(node, class, rest),
{
    let all = run + rest;
    assert forall|i: int| 0 <= i < run.len() implies RunKind::InlineLevel.accepts(
        #[trigger] all[i].class,
    ) by {
        assert(all[i] == run[i]);
    }
    if rest.len() > 0 {
        assert(all[run.len() as int] == rest[0]);
    }
    lemma_run_found(all, RunKind::InlineLevel, run.len());
    assert(all.take(run.len() as int) =~= run);
    assert(all.skip(run.len() as int) =~= rest);
    if rest.len() == 0 {
        assert(seq![generated(node, class, run)] + splits_after_run(node, class, rest) =~= seq![
            generated(node, class, run),
        ]);
    } else {
        let b = run_length(rest, RunKind::BlockFlow);
        assert(seq![
            generated(node, class, run),
            anonymous(LayoutClass::Block, &node.specified, rest.take(b as int)),
        ] + inline_splits(node, class, rest.skip(b as int)) =~= seq![generated(node, class, run)]
            + splits_after_run(node, class, rest));
    }
}

/// `Itertools::peeking_take_while` on the boxes in `rest`, with the test of
/// the run kind, collected by `Itertools::collect_vec`.
///
/// The boxes that the adaptor hands out are the longest run of boxes of the
/// kind at the start of `rest`, in their order. The first box that the test
/// refuses is not consumed: it and all after it stay in `rest`.
#[verifier::external_body]
fn take_run<'a>(rest: &mut Vec<LayoutNode<'a>>, kind: RunKind) -> (run: Vec<LayoutNode<'a>>)
    ensures
        run@ + final(rest)@ == old(rest)@,
        forall|i: int| 0 <= i < run@.len() ==> kind.accepts(#[trigger] run@[i].class),
        final(rest)@.len() > 0 ==> !kind.accepts(final(rest)@[0].class),
{
    let mut boxes = std::mem::take(rest).into_iter().peekable();
    let run = boxes.peeking_take_while(|b| kind.accepts(b.class)).collect_vec();
    *rest = boxes.collect_vec();
    run
}

impl LayoutClass {
    /// The class of the box of a node, if the node generates a box.
    pub fn of_style_node(style_node: &StyledNode) -> (class: Option<LayoutClass>)
        requires
            !uses_sticky(style_node),
        ensures
            class == class_of(style_node),
    {
        if style_node.as_text().is_some() {
            Some(LayoutClass::Text)
        } else if style_node.node.has_tag("html") {
            Some(LayoutClass::BlockRoot)
        } else {
            let style = &style_node.specified;
            if style.overflow != Overflow::Visible {
                Some(LayoutClass::BlockRoot)
            } else {
                match style.position {
                    Positioned::Absolute | Positioned::Fixed => Some(LayoutClass::BlockRoot),
                    Positioned::Sticky => None,
                    Positioned::Relative | Positioned::Static => match style.float {
                        Floated::Left | Floated::Right => Some(LayoutClass::Floated),
                        Floated::NoSide => match style.display {
                            DisplayType::Block => Some(LayoutClass::Block),
                            DisplayType::Inline => Some(LayoutClass::Inline),
                            DisplayType::InlineBlock => Some(LayoutClass::InlineBlock),
                            DisplayType::NoBox => None,
                        },
                    },
                }
            }
        }
    }
}

impl<'a> StyledNode<'a> {
    /// Whether the node asks for sticky positioning.
    pub fn uses_sticky(&self) -> (b: bool)
        ensures
            b == uses_sticky(self),
    {
        !self.as_text().is_some() && !self.node.has_tag("html") && self.specified.overflow
            == Overflow::Visible && self.specified.position == Positioned::Sticky
    }

    /// Whether box generation can handle the node and what is below it.
    pub fn is_supported(&self) -> (b: bool)
        ensures
            b == supported(*self),
        decreases self,
    {
        if self.uses_sticky() {
            return false;
        }
        if LayoutClass::of_style_node(self).is_none() {
            return true;
        }
        let mut i: usize = 0;
        while i < self.children.len()
            invariant
                i <= self.children@.len(),
                !uses_sticky(self),
                class_of(self).is_some(),
                forall|j: int| 0 <= j < i ==> supported(#[trigger] self.children@[j]),
            decreases self.children@.len() - i,
        {
            if !self.children[i].is_supported() {
                assert(!supported(self.children@[i as int]));
                return false;
            }
            i += 1;
        }
        true
    }
}

impl<'a> LayoutNode<'a> {
    /// The box at the root of the box tree of a styled document.
    pub fn new(style_node: &'a StyledNode<'a>) -> (root: LayoutNode<'a>)
        requires
            supported(*style_node),
            class_of(style_node).is_some(),
        ensures
            root@ == boxes_of(*style_node).last(),
            homogeneous(root@),
    {
        let mut boxes = LayoutNode::from_style_node(style_node);
        proof {
            lemma_boxes_exist(*style_node);
        }
        let ghost all = boxes@;
        let root = boxes.pop().unwrap();
        assert(box_views(all).last() == root@);
        root
    }

    /// The boxes of a node of the styled document, with the boxes of the
    /// nodes below it inside them.
    pub fn from_style_node(style_node: &'a StyledNode<'a>) -> (boxes: Vec<LayoutNode<'a>>)
        requires
            supported(*style_node),
        ensures
            box_views(boxes@) == boxes_of(*style_node),
            forall|i: int| 0 <= i < boxes@.len() ==> homogeneous(#[trigger] boxes@[i]@),
        decreases style_node,
    {
        let style = &style_node.specified;
        let class = match LayoutClass::of_style_node(style_node) {
            None => {
                let none: Vec<LayoutNode<'a>> = Vec::new();
                assert(box_views(none@) =~= boxes_of(*style_node));
                return none;
            },
            Some(class) => class,
        };
        let mut rest: Vec<LayoutNode<'a>> = Vec::new();
        let mut i: usize = 0;
        assert(box_views(rest@) =~= child_boxes(style_node.children@, 0));
        while i < style_node.children.len()
            invariant
                i <= style_node.children@.len(),
                supported(*style_node),
                class_of(style_node).is_some(),
                box_views(rest@) == child_boxes(style_node.children@, i as nat),
            decreases style_node.children@.len() - i,
        {
            let ghost before = rest@;
            let mut more = LayoutNode::from_style_node(&style_node.children[i]);
            proof {
                lemma_views_concat(before, more@);
            }
            rest.append(&mut more);
            i += 1;
        }
        let ghost inner = box_views(rest@);
        let mut contents: Vec<LayoutNode<'a>> = Vec::new();
        if class.is_block_container() {
            assert(box_views(contents@) + block_contents(style, inner) =~= block_contents(
                style,
                inner,
            ));
            while rest.len() > 0
                invariant
                    box_views(contents@) + block_contents(style, box_views(rest@))
                        == block_contents(style, inner),
                decreases rest@.len(),
            {
                let ghost done = contents@;
                let mut run = take_run(&mut rest, RunKind::BlockLevel);
                proof {
                    lemma_views_concat(run@, rest@);
                    lemma_views_concat(done, run@);
                    lemma_block_run_stays(style, box_views(run@), box_views(rest@));
                    assert(box_views(done) + (box_views(run@) + block_contents(
                        style,
                        box_views(rest@),
                    )) =~= (box_views(done) + box_views(run@)) + block_contents(
                        style,
                        box_views(rest@),
                    ));
                }
                contents.append(&mut run);
                if rest.len() > 0 {
                    let ghost done = contents@;
                    let ghost pending = rest@;
                    let run = take_run(&mut rest, RunKind::InlineLevel);
                    proof {
                        if run@.len() == 0 {
                            assert(rest@ =~= pending);
                        }
                        assert(run@[0] == pending[0]);
                        lemma_views_concat(run@, rest@);
                        lemma_inline_run_wrapped(style, box_views(run@), box_views(rest@));
                    }
                    let wrapper = LayoutNode::into_inline_root(style, run);
                    contents.push(wrapper);
                    proof {
                        assert(box_views(contents@) =~= box_views(done) + seq![wrapper@]);
                        assert(box_views(done) + (seq![wrapper@] + block_contents(
                            style,
                            box_views(rest@),
                        )) =~= (box_views(done) + seq![wrapper@]) + block_contents(
                            style,
                            box_views(rest@),
                        ));
                    }
                }
            }
            proof {
                assert(box_views(contents@) + block_contents(style, box_views(rest@))
                    =~= box_views(contents@));
                lemma_block_contents_block_level(style, inner);
                assert forall|k: int| 0 <= k < contents@.len() implies (
                #[trigger] contents@[k].class).is_block_level() by {
                    assert(box_views(contents@)[k].class == contents@[k].class);
                    assert(block_contents(style, inner)[k].class.is_block_level());
                }
            }
            if class.is_floated() && style_node.children.len() > 0 {
                let root = LayoutNode::into_block_root(style, contents);
                contents = Vec::new();
                contents.push(root);
                assert(box_views(contents@) =~= seq![root@]);
            }
            let node = LayoutNode::generate(style_node, class, contents);
            let mut boxes: Vec<LayoutNode<'a>> = Vec::new();
            boxes.push(node);
            assert(box_views(boxes@) =~= seq![node@]);
            proof {
                lemma_boxes_homogeneous(*style_node);
                assert(box_views(boxes@) == boxes_of(*style_node));
            }
            assert forall|k: int| 0 <= k < boxes@.len() implies homogeneous(
                #[trigger] boxes@[k]@,
            ) by {
                assert(box_views(boxes@)[k] == boxes@[k]@);
                assert(homogeneous(boxes_of(*style_node)[k]));
            }
            boxes
        } else {
            let run = take_run(&mut rest, RunKind::InlineLevel);
            proof {
                lemma_views_concat(run@, rest@);
                lemma_inline_run_split(style_node, class, box_views(run@), box_views(rest@));
            }
            let head = LayoutNode::generate(style_node, class, run);
            contents.push(head);
            assert(box_views(contents@) =~= seq![head@]);
            while rest.len() > 0
                invariant
                    *style == style_node.specified,
                    rest@.len() > 0 ==> !rest@[0].class.is_inline_level(),
                    box_views(contents@) + splits_after_run(style_node, class, box_views(rest@))
                        == inline_splits(style_node, class, inner),
                decreases rest@.len(),
            {
                let ghost done = contents@;
                let ghost pending = rest@;
                let blocks = take_run(&mut rest, RunKind::BlockFlow);
                proof {
                    if blocks@.len() == 0 {
                        assert(rest@ =~= pending);
                    }
                    assert(blocks@[0] == pending[0]);
                    lemma_views_concat(blocks@, rest@);
                    let all = box_views(pending);
                    assert forall|k: int| 0 <= k < blocks@.len() implies RunKind::BlockFlow.accepts(
                        #[trigger] all[k].class,
                    ) by {
                        assert(all[k] == box_views(blocks@)[k]);
                    }
                    if rest@.len() > 0 {
                        assert(all[blocks@.len() as int] == box_views(rest@)[0]);
                    }
                    lemma_run_found(all, RunKind::BlockFlow, blocks@.len() as nat);
                    assert(all.take(blocks@.len() as int) =~= box_views(blocks@));
                    assert(all.skip(blocks@.len() as int) =~= box_views(rest@));
                }
                let wrapper = LayoutNode::into_block_container(style, blocks);
                contents.push(wrapper);
                let run = take_run(&mut rest, RunKind::InlineLevel);
                proof {
                    lemma_views_concat(run@, rest@);
                    lemma_inline_run_split(style_node, class, box_views(run@), box_views(rest@));
                }
                let head = LayoutNode::generate(style_node, class, run);
                contents.push(head);
                proof {
                    assert(box_views(contents@) =~= box_views(done) + seq![wrapper@, head@]);
                    assert(box_views(done) + (seq![wrapper@] + (seq![head@] + splits_after_run(
                        style_node,
                        class,
                        box_views(rest@),
                    ))) =~= (box_views(done) + seq![wrapper@, head@]) + splits_after_run(
                        style_node,
                        class,
                        box_views(rest@),
                    ));
                }
            }
            proof {
                assert(box_views(contents@) + splits_after_run(
                    style_node,
                    class,
                    box_views(rest@),
                ) =~= box_views(contents@));
                lemma_boxes_homogeneous(*style_node);
                assert(box_views(contents@) == boxes_of(*style_node));
                assert forall|k: int| 0 <= k < contents@.len() implies homogeneous(
                    #[trigger] contents@[k]@,
                ) by {
                    assert(box_views(contents@)[k] == contents@[k]@);
                    assert(homogeneous(boxes_of(*style_node)[k]));
                }
            }
            contents
        }
    }

    /// The box of a node, with the given boxes inside it.
    fn generate(
        style_node: &'a StyledNode<'a>,
        class: LayoutClass,
        children: Vec<LayoutNode<'a>>,
    ) -> (node: LayoutNode<'a>)
        ensures
            node@ == generated(style_node, class, box_views(children@)),
    {
        let node = LayoutNode {
            document_node: Some(style_node.node),
            style: style_node.specified,
            layout: Layout::initial(),
            class,
            children,
        };
        proof {
            lemma_view_children(node);
        }
        node
    }

    /// The anonymous `InlineRoot` around a run of inline-level boxes.
    pub fn into_inline_root(parent_style: &Style, wrapped: Vec<LayoutNode<'a>>) -> (node:
        LayoutNode<'a>)
        requires
            forall|i: int|
                0 <= i < wrapped@.len() ==> (#[trigger] wrapped@[i].class).is_inline_level(),
        ensures
            node@ == anonymous(LayoutClass::InlineRoot, parent_style, box_views(wrapped@)),
    {
        LayoutNode::anon(LayoutClass::InlineRoot, parent_style, wrapped)
    }

    /// The anonymous `BlockRoot` around the block-level boxes inside a float.
    pub fn into_block_root(parent_style: &Style, wrapped: Vec<LayoutNode<'a>>) -> (node:
        LayoutNode<'a>)
        requires
            forall|i: int|
                0 <= i < wrapped@.len() ==> (#[trigger] wrapped@[i].class).is_block_level(),
        ensures
            node@ == anonymous(LayoutClass::BlockRoot, parent_style, box_views(wrapped@)),
    {
        LayoutNode::anon(LayoutClass::BlockRoot, parent_style, wrapped)
    }

    /// The anonymous `Block` around a run of block-level boxes.
    pub fn into_block_container(parent_style: &Style, wrapped: Vec<LayoutNode<'a>>) -> (node:
        LayoutNode<'a>)
        requires
            forall|i: int|
                0 <= i < wrapped@.len() ==> (#[trigger] wrapped@[i].class).is_block_level(),
        ensures
            node@ == anonymous(LayoutClass::Block, parent_style, box_views(wrapped@)),
    {
        LayoutNode::anon(LayoutClass::Block, parent_style, wrapped)
    }

    /// An anonymous box of the given class around the given boxes. Its style
    /// inherits from the style of the box that it stands in.
    pub fn anon(
        wrapper_class: LayoutClass,
        parent_style: &Style,
        wrapped_nodes: Vec<LayoutNode<'a>>,
    ) -> (node: LayoutNode<'a>)
        ensures
            node@ == anonymous(wrapper_class, parent_style, box_views(wrapped_nodes@)),
    {
        let node = LayoutNode {
            document_node: None,
            style: Style::inherit(parent_style),
            layout: Layout::initial(),
            class: wrapper_class,
            children: wrapped_nodes,
        };
        proof {
            lemma_view_children(node);
        }
        node
    }
}

/// A node with a class has at least one box.
pub proof fn lemma_boxes_exist(node: StyledNode)
    requires
        class_of(&node).is_some(),
    ensures
        boxes_of(node).len() > 0,
{
    let class = class_of(&node).unwrap();
    if !class.is_block_container() {
        let inner = child_boxes(node.children@, node.children@.len());
        lemma_run_length(inner, RunKind::InlineLevel);
    }
}

} // verus!
