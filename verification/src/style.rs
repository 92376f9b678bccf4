//! Resolved style values, and the document tree annotated with them.

use vstd::prelude::*;
use crate::dom::DocumentNode;
use crate::geometry::{Color, Edge, Pixels};

verus! {

/// How an element takes part in the layout of its parent.
#[derive(Clone, Copy, Debug, PartialEq, Eq, Structural)]
pub enum DisplayType {
    Block,
    Inline,
    InlineBlock,
    /// The element and its descendants generate no box.
    NoBox,
}

/// The side to which an element floats.
#[derive(Clone, Copy, Debug, PartialEq, Eq, Structural)]
pub enum Floated {
    Left,
    Right,
    /// The element does not float.
    NoSide,
}

/// The positioning scheme of an element.
#[derive(Clone, Copy, Debug, PartialEq, Eq, Structural)]
pub enum Positioned {
    Static,
    Relative,
    Absolute,
    Fixed,
    Sticky,
}

impl Positioned {
    pub open spec fn is_positioned_spec(&self) -> bool {
        match self {
            Positioned::Static | Positioned::Relative => false,
            Positioned::Absolute | Positioned::Fixed | Positioned::Sticky => true,
        }
    }

    /// Whether the scheme takes the element out of the flow and places it by
    /// its offsets.
    #[verifier::when_used_as_spec(is_positioned_spec)]
    pub fn is_positioned(&self) -> (b: bool)
        ensures
            b == self.is_positioned_spec(),
    {
        match self {
            Positioned::Static | Positioned::Relative => false,
            Positioned::Absolute | Positioned::Fixed | Positioned::Sticky => true,
        }
    }
}

/// What happens to content that leaves its box.
#[derive(Clone, Copy, Debug, PartialEq, Eq, Structural)]
pub enum Overflow {
    Visible,
    Hidden,
    Scroll,
    Auto,
}

/// The sides on which an element refuses floats beside it.
#[derive(Clone, Copy, Debug, PartialEq, Eq, Structural)]
pub struct Clear {
    pub left: bool,
    pub right: bool,
}

/// A length that may be left to the layout.
#[derive(Clone, Copy, Debug, PartialEq, Eq, Structural)]
pub enum Dimension {
    Auto,
    Length(Pixels),
}

impl Dimension {
    pub open spec fn is_auto_spec(&self) -> bool {
        *self is Auto
    }

    /// Whether the length is left to the layout.
    #[verifier::when_used_as_spec(is_auto_spec)]
    pub fn is_auto(&self) -> (b: bool)
        ensures
            b == self.is_auto_spec(),
    {
        match self {
            Dimension::Auto => true,
            Dimension::Length(_) => false,
        }
    }

    pub open spec fn value_spec(&self) -> Pixels {
        match self {
            Dimension::Auto => 0,
            Dimension::Length(v) => *v,
        }
    }

    /// The length in pixels; zero where it is left to the layout.
    #[verifier::when_used_as_spec(value_spec)]
    pub fn value(&self) -> (v: Pixels)
        ensures
            v == self.value_spec(),
    {
        match self {
            Dimension::Auto => 0,
            Dimension::Length(v) => *v,
        }
    }
}

/// The resolved style of one node.
#[derive(Clone, Copy, Debug, PartialEq, Eq)]
pub struct Style {
    pub display: DisplayType,
    pub float: Floated,
    pub position: Positioned,
    pub overflow: Overflow,
    pub clear: Clear,
    pub width: Dimension,
    pub height: Dimension,
    pub margin: Edge<Dimension>,
    pub padding: Edge<Pixels>,
    pub border: Edge<Pixels>,
    pub left: Option<Pixels>,
    pub right: Option<Pixels>,
    pub top: Option<Pixels>,
    pub bottom: Option<Pixels>,
    /// The colour of text.
    pub color: Color,
    pub background_color: Color,
    pub border_color: Color,
}

impl Style {
    pub open spec fn initial_spec() -> Style {
        Style {
            display: DisplayType::Inline,
            float: Floated::NoSide,
            position: Positioned::Static,
            overflow: Overflow::Visible,
            clear: Clear { left: false, right: false },
            width: Dimension::Auto,
            height: Dimension::Auto,
            margin: Edge {
                top: Dimension::Length(0),
                right: Dimension::Length(0),
                bottom: Dimension::Length(0),
                left: Dimension::Length(0),
            },
            padding: Edge::<Pixels>::zero(),
            border: Edge::<Pixels>::zero(),
            left: None,
            right: None,
            top: None,
            bottom: None,
            color: Color { r: 0, g: 0, b: 0, a: 255 },
            background_color: Color::transparent(),
            border_color: Color { r: 0, g: 0, b: 0, a: 255 },
        }
    }

    /// The style in which every property has its initial value.
    #[verifier::when_used_as_spec(initial_spec)]
    pub fn initial() -> (s: Style)
        ensures
            s == Self::initial_spec(),
    {
        Style {
            display: DisplayType::Inline,
            float: Floated::NoSide,
            position: Positioned::Static,
            overflow: Overflow::Visible,
            clear: Clear { left: false, right: false },
            width: Dimension::Auto,
            height: Dimension::Auto,
            margin: Edge {
                top: Dimension::Length(0),
                right: Dimension::Length(0),
                bottom: Dimension::Length(0),
                left: Dimension::Length(0),
            },
            padding: Edge::<Pixels>::zero(),
            border: Edge::<Pixels>::zero(),
            left: None,
            right: None,
            top: None,
            bottom: None,
            color: Color { r: 0, g: 0, b: 0, a: 255 },
            background_color: Color::transparent(),
            border_color: Color { r: 0, g: 0, b: 0, a: 255 },
        }
    }

    pub open spec fn inherit_spec(parent: &Style) -> Style {
        Style { color: parent.color, border_color: parent.color, ..Self::initial_spec() }
    }

    /// The style of an anonymous box inside a box with the style `parent`:
    /// the text colour is the parent's, and with it the colour of borders;
    /// every other property has its initial value.
    #[verifier::when_used_as_spec(inherit_spec)]
    pub fn inherit(parent: &Style) -> (s: Style)
        ensures
            s == Self::inherit_spec(parent),
    {
        let mut s = Style::initial();
        s.color = parent.color;
        s.border_color = parent.color;
        s
    }
}

/// A node of the document with its resolved style.
#[derive(Debug)]
pub struct StyledNode<'a> {
    pub node: &'a DocumentNode,
    pub specified: Style,
    pub children: Vec<StyledNode<'a>>,
}

impl<'a> StyledNode<'a> {
    /// The text of the node, where it is a run of text.
    pub fn as_text(&self) -> (text: Option<&'a str>)
        ensures
            text.is_some() == self.node.is_text(),
            match text {
                Some(t) => t@ == self.node.data->Text_0@,
                None => true,
            },
    {
        self.node.as_text()
    }
}

/// The styled document.
#[derive(Debug)]
pub struct StyledTree<'a> {
    pub style_root: StyledNode<'a>,
}

} // verus!
