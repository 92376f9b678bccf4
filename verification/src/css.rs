//! A parser for a small subset of CSS: rules made of selectors and
//! declarations.
//!
//! A number is kept as it is written. What a length is worth in pixels is not
//! decided here.
//!
//! Every function that parses and can come upon a fault comes in two forms.
//! The form with the plain name is for a style sheet that is well formed: one
//! that is not is left out by its precondition. The form whose name starts
//! with `try_` takes any input and returns `None` for a style sheet that is
//! not well formed. No function panics.

use vstd::prelude::*;
use crate::geometry::Color;
use crate::scan::{
    char_at, chars_of, lemma_run_end, push_char, run_end, stands_at, CharClass,
};

verus! {

/// A style sheet: rules in the order in which they are written.
#[derive(Clone, Debug)]
pub struct Stylesheet {
    pub rules: Vec<Rule>,
}

/// A rule: what it selects, and what it declares.
#[derive(Clone, Debug)]
pub struct Rule {
    pub selectors: Vec<Selector>,
    pub declarations: Vec<Declaration>,
}

/// A selector of a style rule.
#[derive(Clone, Debug)]
pub enum Selector {
    Simple(SimpleSelector),
}

/// A selector made of a tag name, an id and class names, each of which may be
/// missing.
#[derive(Clone, Debug)]
pub struct SimpleSelector {
    pub tag: Option<String>,
    pub id: Option<String>,
    pub class: Vec<String>,
}

/// A declaration: the name of a property and its value.
#[derive(Clone, Debug)]
pub struct Declaration {
    pub name: String,
    pub value: Value,
}

/// The value of a property.
#[derive(Clone, Debug)]
pub enum Value {
    /// A keyword.
    Keyword(String),
    /// A number as it is written, and the unit behind it.
    Length(String, Unit),
    /// A number as it is written, where a percent sign stands behind it.
    Percent(String),
    /// A colour.
    ColorValue(Color),
}

/// A unit of length.
#[derive(Clone, Copy, PartialEq, Eq, Debug, Structural)]
pub enum Unit {
    Cm,
    Mm,
    Q,
    In,
    Pc,
    Pt,
    Px,
}

/// How specific a selector is: the number of ids, of class names and of tag
/// names in it. A selector is more specific than another where its first
/// number that differs is greater.
pub type Specificity = (usize, usize, usize);

/// The mathematical model of a selector.
pub struct SelectorView {
    pub tag: Option<Seq<char>>,
    pub id: Option<Seq<char>>,
    pub class: Seq<Seq<char>>,
}

/// The mathematical model of a value.
pub enum ValueView {
    Keyword(Seq<char>),
    Length(Seq<char>, Unit),
    Percent(Seq<char>),
    ColorValue(Color),
}

/// The mathematical model of a declaration.
pub struct DeclarationView {
    pub name: Seq<char>,
    pub value: ValueView,
}

/// The mathematical model of a rule.
pub struct RuleView {
    pub selectors: Seq<SelectorView>,
    pub declarations: Seq<DeclarationView>,
}

/// The texts of a sequence of strings.
pub open spec fn texts(strings: Seq<String>) -> Seq<Seq<char>> {
    Seq::new(strings.len(), |i: int| strings[i]@)
}

/// The text of a string that may be missing.
pub open spec fn text_of(string: Option<String>) -> Option<Seq<char>> {
    match string {
        Some(s) => Some(s@),
        None => None,
    }
}

impl View for SimpleSelector {
    type V = SelectorView;

    open spec fn view(&self) -> SelectorView {
        SelectorView { tag: text_of(self.tag), id: text_of(self.id), class: texts(self.class@) }
    }
}

impl View for Selector {
    type V = SelectorView;

    open spec fn view(&self) -> SelectorView {
        self->Simple_0@
    }
}

impl View for Value {
    type V = ValueView;

    open spec fn view(&self) -> ValueView {
        match self {
            Value::Keyword(k) => ValueView::Keyword(k@),
            Value::Length(n, u) => ValueView::Length(n@, *u),
            Value::Percent(n) => ValueView::Percent(n@),
            Value::ColorValue(c) => ValueView::ColorValue(*c),
        }
    }
}

impl View for Declaration {
    type V = DeclarationView;

    open spec fn view(&self) -> DeclarationView {
        DeclarationView { name: self.name@, value: self.value@ }
    }
}

/// The models of a sequence of selectors.
pub open spec fn selector_views(selectors: Seq<Selector>) -> Seq<SelectorView> {
    Seq::new(selectors.len(), |i: int| selectors[i]@)
}

/// The models of a sequence of declarations.
pub open spec fn declaration_views(declarations: Seq<Declaration>) -> Seq<DeclarationView> {
    Seq::new(declarations.len(), |i: int| declarations[i]@)
}

impl View for Rule {
    type V = RuleView;

    open spec fn view(&self) -> RuleView {
        RuleView {
            selectors: selector_views(self.selectors@),
            declarations: declaration_views(self.declarations@),
        }
    }
}

/// The models of a sequence of rules.
pub open spec fn rule_views(rules: Seq<Rule>) -> Seq<RuleView> {
    Seq::new(rules.len(), |i: int| rules[i]@)
}

impl View for Stylesheet {
    type V = Seq<RuleView>;

    open spec fn view(&self) -> Seq<RuleView> {
        rule_views(self.rules@)
    }
}

impl SelectorView {
    /// The selector without a tag name, an id or a class name.
    pub open spec fn empty() -> SelectorView {
        SelectorView { tag: None, id: None, class: Seq::empty() }
    }

    /// How specific the selector is.
    pub open spec fn specificity(&self) -> (nat, nat, nat) {
        (
            if self.id.is_some() {
                1nat
            } else {
                0nat
            },
            self.class.len(),
            if self.tag.is_some() {
                1nat
            } else {
                0nat
            },
        )
    }

    /// Whether the selector is more specific than `other`.
    pub open spec fn more_specific(&self, other: &SelectorView) -> bool {
        let a = self.specificity();
        let b = other.specificity();
        a.0 > b.0 || (a.0 == b.0 && (a.1 > b.1 || (a.1 == b.1 && a.2 > b.2)))
    }
}

impl Selector {
    /// How specific the selector is.
    pub fn specificity(&self) -> (s: Specificity)
        ensures
            (s.0 as nat, s.1 as nat, s.2 as nat) == self@.specificity(),
    {
        match self {
            Selector::Simple(simple) => {
                let a: usize = if simple.id.is_some() {
                    1
                } else {
                    0
                };
                let b: usize = simple.class.len();
                let c: usize = if simple.tag.is_some() {
                    1
                } else {
                    0
                };
                (a, b, c)
            },
        }
    }

    /// Whether the selector is more specific than `other`.
    pub fn more_specific(&self, other: &Selector) -> (b: bool)
        ensures
            b == self@.more_specific(&other@),
    {
        let a = self.specificity();
        let b = other.specificity();
        a.0 > b.0 || (a.0 == b.0 && (a.1 > b.1 || (a.1 == b.1 && a.2 > b.2)))
    }
}

/// The selectors with `selector` put in front of the first that is not more
/// specific than it.
pub open spec fn insert_ranked(selector: SelectorView, ranked: Seq<SelectorView>) -> Seq<
    SelectorView,
>
    decreases ranked.len(),
{
    if ranked.len() > 0 && ranked[0].more_specific(&selector) {
        seq![ranked[0]] + insert_ranked(selector, ranked.drop_first())
    } else {
        seq![selector] + ranked
    }
}

/// The selectors with the most specific first. Selectors that are equally
/// specific keep their order.
pub open spec fn ranked(selectors: Seq<SelectorView>) -> Seq<SelectorView>
    decreases selectors.len(),
{
    if selectors.len() == 0 {
        Seq::empty()
    } else {
        insert_ranked(selectors[0], ranked(selectors.drop_first()))
    }
}

/// Whether no selector is followed by one that is more specific.
pub open spec fn in_rank_order(selectors: Seq<SelectorView>) -> bool {
    forall|i: int, j: int|
        0 <= i < j < selectors.len() ==> !(#[trigger] selectors[j]).more_specific(
            #[trigger] &selectors[i],
        )
}

proof fn lemma_insert_ranked(selector: SelectorView, sorted: Seq<SelectorView>)
    requires
        in_rank_order(sorted),
    ensures
        in_rank_order(insert_ranked(selector, sorted)),
        insert_ranked(selector, sorted).len() == sorted.len() + 1,
        insert_ranked(selector, sorted).to_multiset() == sorted.to_multiset().insert(selector),
        forall|i: int|
            0 <= i < sorted.len() + 1 ==> #[trigger] insert_ranked(selector, sorted)[i] == selector
                || sorted.contains(insert_ranked(selector, sorted)[i]),
    decreases sorted.len(),
{
    broadcast use vstd::seq_lib::group_to_multiset_ensures;

    let out = insert_ranked(selector, sorted);
    if sorted.len() > 0 && sorted[0].more_specific(&selector) {
        let rest = sorted.drop_first();
        assert forall|i: int, j: int| 0 <= i < j < rest.len() implies !(
        #[trigger] rest[j]).more_specific(#[trigger] &rest[i]) by {
            assert(rest[i] == sorted[i + 1]);
            assert(rest[j] == sorted[j + 1]);
        }
        lemma_insert_ranked(selector, rest);
        let tail = insert_ranked(selector, rest);
        assert forall|i: int, j: int| 0 <= i < j < out.len() implies !(
        #[trigger] out[j]).more_specific(#[trigger] &out[i]) by {
            assert(out[j] == tail[j - 1]);
            if i == 0 {
                if tail[j - 1] == selector {
                } else {
                    assert(rest.contains(tail[j - 1]));
                    let k = choose|k: int| 0 <= k < rest.len() && rest[k] == tail[j - 1];
                    assert(rest[k] == sorted[k + 1]);
                    assert(!sorted[k + 1].more_specific(&sorted[0]));
                }
            } else {
                assert(out[i] == tail[i - 1]);
            }
        }
        assert forall|i: int| 0 <= i < sorted.len() + 1 implies #[trigger] out[i] == selector
            || sorted.contains(out[i]) by {
            if i == 0 {
                assert(sorted[0] == out[0]);
            } else {
                assert(out[i] == tail[i - 1]);
                if tail[i - 1] != selector {
                    let k = choose|k: int| 0 <= k < rest.len() && rest[k] == tail[i - 1];
                    assert(sorted[k + 1] == out[i]);
                }
            }
        }
        assert(sorted =~= seq![sorted[0]] + rest);
        vstd::seq_lib::lemma_multiset_commutative(seq![sorted[0]], rest);
        vstd::seq_lib::lemma_multiset_commutative(seq![sorted[0]], tail);
        assert(out.to_multiset() =~= sorted.to_multiset().insert(selector));
    } else {
        assert forall|i: int, j: int| 0 <= i < j < out.len() implies !(
        #[trigger] out[j]).more_specific(#[trigger] &out[i]) by {
            assert(out[j] == sorted[j - 1]);
            if i == 0 {
                if sorted.len() > 0 && j - 1 > 0 {
                    assert(!sorted[j - 1].more_specific(&sorted[0]));
                }
            } else {
                assert(out[i] == sorted[i - 1]);
            }
        }
        assert forall|i: int| 0 <= i < sorted.len() + 1 implies #[trigger] out[i] == selector
            || sorted.contains(out[i]) by {
            if i > 0 {
                assert(out[i] == sorted[i - 1]);
            }
        }
        vstd::seq_lib::lemma_multiset_commutative(seq![selector], sorted);
        assert(out.to_multiset() =~= sorted.to_multiset().insert(selector));
    }
}

/// Ranking puts the selectors in the order of their specificity, and neither
/// adds a selector nor drops one.
pub proof fn lemma_ranked(selectors: Seq<SelectorView>)
    ensures
        in_rank_order(ranked(selectors)),
        ranked(selectors).len() == selectors.len(),
        ranked(selectors).to_multiset() == selectors.to_multiset(),
    decreases selectors.len(),
{
    broadcast use vstd::seq_lib::group_to_multiset_ensures;

    if selectors.len() > 0 {
        let rest = selectors.drop_first();
        lemma_ranked(rest);
        lemma_insert_ranked(selectors[0], ranked(rest));
        assert(selectors =~= seq![selectors[0]] + rest);
        vstd::seq_lib::lemma_multiset_commutative(seq![selectors[0]], rest);
        assert(ranked(selectors).to_multiset() =~= selectors.to_multiset());
    } else {
        assert(ranked(selectors).to_multiset() =~= selectors.to_multiset());
    }
}

/// Where the comment that is open at `pos` closes: the first position from
/// `pos` on at which `*/` stands.
pub open spec fn comment_close(input: Seq<char>, pos: nat) -> Option<nat>
    decreases input.len() - pos,
{
    if pos >= input.len() {
        None
    } else if stands_at(input, pos, "*/"@) {
        Some(pos)
    } else {
        comment_close(input, pos + 1)
    }
}

/// A comment closes at or after the position from which it is looked for,
/// and within the input.
pub proof fn lemma_comment_close(input: Seq<char>, pos: nat)
    ensures
        match comment_close(input, pos) {
            Some(close) => pos <= close && close + 2 <= input.len(),
            None => true,
        },
    decreases input.len() - pos,
{
    reveal_strlit("*/");
    if pos < input.len() && !stands_at(input, pos, "*/"@) {
        lemma_comment_close(input, pos + 1);
    }
}

/// Where the white space and the comments that start at `pos` end. A comment
/// that does not close is an error.
pub open spec fn noise_end(input: Seq<char>, pos: nat) -> Option<nat>
    decreases input.len() - pos,
    via noise_end_decreases
{
    let start = run_end(input, pos, CharClass::Whitespace);
    if stands_at(input, start, "/*"@) {
        match comment_close(input, start + 2) {
            Some(close) => noise_end(input, close + 2),
            None => None,
        }
    } else {
        Some(start)
    }
}

#[via_fn]
proof fn noise_end_decreases(input: Seq<char>, pos: nat) {
    let start = run_end(input, pos, CharClass::Whitespace);
    lemma_run_end(input, pos, CharClass::Whitespace);
    lemma_comment_close(input, start + 2);
}

/// Noise ends at or after its start, and within the input where it starts
/// there.
pub proof fn lemma_noise_end(input: Seq<char>, pos: nat)
    requires
        pos <= input.len(),
    ensures
        match noise_end(input, pos) {
            Some(end) => pos <= end <= input.len(),
            None => true,
        },
    decreases input.len() - pos,
{
    let start = run_end(input, pos, CharClass::Whitespace);
    lemma_run_end(input, pos, CharClass::Whitespace);
    if stands_at(input, start, "/*"@) {
        lemma_comment_close(input, start + 2);
        match comment_close(input, start + 2) {
            Some(close) => {
                lemma_noise_end(input, close + 2);
            },
            None => {},
        }
    }
}

/// The simple selector at `pos`, added to what is `found` of it, with the
/// position after it. An id follows `#`, a class name follows a full stop, an
/// asterisk stands for nothing, and a name by itself is the tag name. A later
/// id or tag name replaces an earlier one.
pub open spec fn simple_selector_at(input: Seq<char>, pos: nat, found: SelectorView) -> (
    SelectorView,
    nat,
)
    decreases input.len() - pos,
    via simple_selector_at_decreases
{
    if pos >= input.len() {
        (found, pos)
    } else if input[pos as int] == '#' {
        let end = run_end(input, pos + 1, CharClass::Identifier);
        simple_selector_at(
            input,
            end,
            SelectorView { id: Some(input.subrange((pos + 1) as int, end as int)), ..found },
        )
    } else if input[pos as int] == '.' {
        let end = run_end(input, pos + 1, CharClass::Identifier);
        simple_selector_at(
            input,
            end,
            SelectorView {
                class: found.class.push(input.subrange((pos + 1) as int, end as int)),
                ..found
            },
        )
    } else if input[pos as int] == '*' {
        simple_selector_at(input, pos + 1, found)
    } else if CharClass::Identifier.holds(input[pos as int]) {
        let end = run_end(input, pos, CharClass::Identifier);
        simple_selector_at(
            input,
            end,
            SelectorView { tag: Some(input.subrange(pos as int, end as int)), ..found },
        )
    } else {
        (found, pos)
    }
}

#[via_fn]
proof fn simple_selector_at_decreases(input: Seq<char>, pos: nat, found: SelectorView) {
    if pos < input.len() {
        lemma_run_end(input, pos + 1, CharClass::Identifier);
        lemma_run_end(input, pos, CharClass::Identifier);
    }
}

/// A simple selector ends at or after its start, and within the input where
/// it starts there.
pub proof fn lemma_simple_selector_at(input: Seq<char>, pos: nat, found: SelectorView)
    requires
        pos <= input.len(),
    ensures
        pos <= simple_selector_at(input, pos, found).1 <= input.len(),
    decreases input.len() - pos,
{
    if pos < input.len() {
        lemma_run_end(input, pos + 1, CharClass::Identifier);
        lemma_run_end(input, pos, CharClass::Identifier);
        let c = input[pos as int];
        if c == '#' {
            let end = run_end(input, pos + 1, CharClass::Identifier);
            lemma_simple_selector_at(
                input,
                end,
                SelectorView { id: Some(input.subrange((pos + 1) as int, end as int)), ..found },
            );
        } else if c == '.' {
            let end = run_end(input, pos + 1, CharClass::Identifier);
            lemma_simple_selector_at(
                input,
                end,
                SelectorView {
                    class: found.class.push(input.subrange((pos + 1) as int, end as int)),
                    ..found
                },
            );
        } else if c == '*' {
            lemma_simple_selector_at(input, pos + 1, found);
        } else if CharClass::Identifier.holds(c) {
            let end = run_end(input, pos, CharClass::Identifier);
            lemma_simple_selector_at(
                input,
                end,
                SelectorView { tag: Some(input.subrange(pos as int, end as int)), ..found },
            );
        }
    }
}

/// The selectors from `pos` on, added to those `found`, with the position of
/// the opening brace after them. Selectors follow each other after a comma;
/// the most specific comes first in what is returned.
pub open spec fn selectors_at(input: Seq<char>, pos: nat, found: Seq<SelectorView>) -> Option<
    (Seq<SelectorView>, nat),
>
    decreases input.len() - pos,
{
    let (selector, end) = simple_selector_at(input, pos, SelectorView::empty());
    let found = found.push(selector);
    match noise_end(input, end) {
        None => None,
        Some(mark) => if char_at(input, mark, ',') {
            match noise_end(input, mark + 1) {
                Some(next) => if pos < next <= input.len() {
                    selectors_at(input, next, found)
                } else {
                    None
                },
                None => None,
            }
        } else if char_at(input, mark, '{') {
            Some((ranked(found), mark))
        } else {
            None
        },
    }
}

/// The lower case of a character of ASCII, and any other character itself.
pub open spec fn lower(c: char) -> char {
    if 'A' <= c && c <= 'Z' {
        ((c as u8) + 32) as char
    } else {
        c
    }
}

/// The unit with the given name, whatever the case of its letters.
pub open spec fn unit_named(name: Seq<char>) -> Option<Unit> {
    let name = name.map_values(|c: char| lower(c));
    if name == seq!['c', 'm'] {
        Some(Unit::Cm)
    } else if name == seq!['m', 'm'] {
        Some(Unit::Mm)
    } else if name == seq!['q'] {
        Some(Unit::Q)
    } else if name == seq!['i', 'n'] {
        Some(Unit::In)
    } else if name == seq!['p', 'c'] {
        Some(Unit::Pc)
    } else if name == seq!['p', 't'] {
        Some(Unit::Pt)
    } else if name == seq!['p', 'x'] {
        Some(Unit::Px)
    } else {
        None
    }
}

/// The worth of a hexadecimal digit.
pub open spec fn hex_digit(c: char) -> Option<nat> {
    if '0' <= c && c <= '9' {
        Some((c as u8 - '0' as u8) as nat)
    } else if 'a' <= c && c <= 'f' {
        Some((c as u8 - 'a' as u8 + 10) as nat)
    } else if 'A' <= c && c <= 'F' {
        Some((c as u8 - 'A' as u8 + 10) as nat)
    } else {
        None
    }
}

/// The number that two characters are in hexadecimal notation: two digits,
/// or a plus sign and one digit.
pub open spec fn hex_pair(first: char, second: char) -> Option<u8> {
    match hex_digit(second) {
        None => None,
        Some(low) => if first == '+' {
            Some(low as u8)
        } else {
            match hex_digit(first) {
                Some(high) => Some((high * 16 + low) as u8),
                None => None,
            }
        },
    }
}

/// The number in hexadecimal notation at `pos`.
pub open spec fn hex_pair_at(input: Seq<char>, pos: nat) -> Option<u8> {
    if pos + 1 < input.len() {
        hex_pair(input[pos as int], input[(pos + 1) as int])
    } else {
        None
    }
}

/// The colour at `pos`, with the position after it: a number sign and three
/// numbers in hexadecimal notation, for red, green and blue. The colour is
/// opaque.
pub open spec fn color_at(input: Seq<char>, pos: nat) -> Option<(ValueView, nat)> {
    if char_at(input, pos, '#') {
        match (
            hex_pair_at(input, pos + 1),
            hex_pair_at(input, pos + 3),
            hex_pair_at(input, pos + 5),
        ) {
            (Some(r), Some(g), Some(b)) => Some(
                (ValueView::ColorValue(Color { r, g, b, a: 255 }), pos + 7),
            ),
            _ => None,
        }
    } else {
        None
    }
}

/// The length or percentage at `pos`, with the position after it: a number,
/// and a percent sign or the name of a unit.
pub open spec fn length_at(input: Seq<char>, pos: nat) -> Option<(ValueView, nat)> {
    let end = run_end(input, pos, CharClass::Number);
    let number = input.subrange(pos as int, end as int);
    if end >= input.len() {
        None
    } else if input[end as int] == '%' {
        Some((ValueView::Percent(number), end + 1))
    } else {
        let unit_end = run_end(input, end, CharClass::Identifier);
        match unit_named(input.subrange(end as int, unit_end as int)) {
            Some(unit) => Some((ValueView::Length(number, unit), unit_end)),
            None => None,
        }
    }
}

/// The value at `pos`, which is within the input, with the position after
/// it: a length or percentage where a number starts there, a colour where a
/// number sign stands there, and else a keyword.
pub open spec fn value_at(input: Seq<char>, pos: nat) -> Option<(ValueView, nat)> {
    if pos >= input.len() {
        None
    } else if CharClass::Number.holds(input[pos as int]) {
        length_at(input, pos)
    } else if input[pos as int] == '#' {
        color_at(input, pos)
    } else {
        let end = run_end(input, pos, CharClass::Identifier);
        Some((ValueView::Keyword(input.subrange(pos as int, end as int)), end))
    }
}

/// The declaration at `pos`, with the position after it: a name, a colon, a
/// value, and a semicolon unless the closing brace follows. Noise may stand
/// between them.
pub open spec fn declaration_at(input: Seq<char>, pos: nat) -> Option<(DeclarationView, nat)> {
    let name_end = run_end(input, pos, CharClass::Identifier);
    let name = input.subrange(pos as int, name_end as int);
    match noise_end(input, name_end) {
        None => None,
        Some(colon) => if char_at(input, colon, ':') {
            match noise_end(input, colon + 1) {
                None => None,
                Some(start) => match value_at(input, start) {
                    None => None,
                    Some((value, value_end)) => match noise_end(input, value_end) {
                        None => None,
                        Some(end) => if char_at(input, end, '}') {
                            Some((DeclarationView { name, value }, end))
                        } else if char_at(input, end, ';') {
                            Some((DeclarationView { name, value }, end + 1))
                        } else {
                            None
                        },
                    },
                },
            }
        } else {
            None
        },
    }
}

/// The declarations from `pos` on, added to those `found`, with the position
/// after the closing brace.
pub open spec fn declarations_from(
    input: Seq<char>,
    pos: nat,
    found: Seq<DeclarationView>,
) -> Option<(Seq<DeclarationView>, nat)>
    decreases input.len() - pos,
{
    match noise_end(input, pos) {
        None => None,
        Some(start) => if start >= input.len() {
            None
        } else if input[start as int] == '}' {
            Some((found, start + 1))
        } else {
            match declaration_at(input, start) {
                Some((declaration, end)) => if pos < end <= input.len() {
                    declarations_from(input, end, found.push(declaration))
                } else {
                    None
                },
                None => None,
            }
        },
    }
}

/// The declarations in braces at `pos`, with the position after them.
pub open spec fn declarations_at(input: Seq<char>, pos: nat) -> Option<
    (Seq<DeclarationView>, nat),
> {
    if char_at(input, pos, '{') {
        declarations_from(input, pos + 1, Seq::empty())
    } else {
        None
    }
}

/// The rule at `pos`, with the position after it: selectors, and then
/// declarations in braces.
pub open spec fn rule_at(input: Seq<char>, pos: nat) -> Option<(RuleView, nat)> {
    match selectors_at(input, pos, Seq::empty()) {
        None => None,
        Some((selectors, brace)) => match declarations_at(input, brace) {
            None => None,
            Some((declarations, end)) => Some((RuleView { selectors, declarations }, end)),
        },
    }
}

/// The rules from `pos` on, added to those `found`. Noise may stand between
/// them and after them.
pub open spec fn rules_from(input: Seq<char>, pos: nat, found: Seq<RuleView>) -> Option<
    Seq<RuleView>,
>
    decreases input.len() - pos,
{
    match noise_end(input, pos) {
        None => None,
        Some(start) => if start >= input.len() {
            Some(found)
        } else {
            match rule_at(input, start) {
                Some((rule, end)) => if pos < end <= input.len() {
                    rules_from(input, end, found.push(rule))
                } else {
                    None
                },
                None => None,
            }
        },
    }
}

/// The rules of the style sheet that the input holds, if the input is well
/// formed.
pub open spec fn stylesheet_rules(input: Seq<char>) -> Option<Seq<RuleView>> {
    rules_from(input, 0, Seq::empty())
}

/// Is the character one that a name is made of?
pub fn valid_identifier_char(c: char) -> (b: bool)
    ensures
        b == CharClass::Identifier.holds(c),
{
    CharClass::Identifier.test(c)
}

fn lower_case(c: char) -> (l: char)
    ensures
        l == lower(c),
{
    if 'A' <= c && c <= 'Z' {
        ((c as u8) + 32) as char
    } else {
        c
    }
}

fn hex_digit_value(c: char) -> (d: Option<u8>)
    ensures
        match hex_digit(c) {
            Some(v) => d == Some(v as u8) && v < 16,
            None => d.is_none(),
        },
{
    if '0' <= c && c <= '9' {
        Some(c as u8 - '0' as u8)
    } else if 'a' <= c && c <= 'f' {
        Some(c as u8 - 'a' as u8 + 10)
    } else if 'A' <= c && c <= 'F' {
        Some(c as u8 - 'A' as u8 + 10)
    } else {
        None
    }
}

/// The selectors with the most specific first. Selectors that are equally
/// specific keep their order.
pub fn rank_selectors(selectors: Vec<Selector>) -> (out: Vec<Selector>)
    ensures
        selector_views(out@) == ranked(selector_views(selectors@)),
        in_rank_order(selector_views(out@)),
        out@.len() == selectors@.len(),
{
    let mut rest = selectors;
    let mut out: Vec<Selector> = Vec::new();
    let ghost all = selector_views(rest@);
    assert(selector_views(out@) =~= ranked(all.skip(all.len() as int)));
    while rest.len() > 0
        invariant
            rest@.len() <= all.len(),
            selector_views(rest@) == all.take(rest@.len() as int),
            selector_views(out@) == ranked(all.skip(rest@.len() as int)),
        decreases rest@.len(),
    {
        let ghost before = rest@;
        let ghost sorted = selector_views(out@);
        let selector = rest.pop().unwrap();
        let mut i: usize = 0;
        proof {
            assert(selector@ == all[rest@.len() as int]) by {
                assert(selector_views(before)[before.len() - 1] == selector@);
            }
            assert(selector_views(rest@) =~= all.take(rest@.len() as int));
            assert(all.skip(rest@.len() as int).drop_first() =~= all.skip(before.len() as int));
            assert(sorted.skip(0) =~= sorted);
            assert(sorted.take(0) + insert_ranked(selector@, sorted.skip(0)) =~= insert_ranked(
                selector@,
                sorted,
            ));
        }
        while i < out.len() && out[i].more_specific(&selector)
            invariant
                i <= out@.len(),
                sorted == selector_views(out@),
                sorted.take(i as int) + insert_ranked(selector@, sorted.skip(i as int))
                    == insert_ranked(selector@, sorted),
            decreases out@.len() - i,
        {
            proof {
                let tail = sorted.skip(i as int);
                assert(tail[0] == sorted[i as int]);
                assert(tail.drop_first() =~= sorted.skip(i + 1));
                assert(sorted.take(i + 1) + insert_ranked(selector@, sorted.skip(i + 1))
                    =~= sorted.take(i as int) + (seq![tail[0]] + insert_ranked(
                    selector@,
                    tail.drop_first(),
                )));
            }
            i += 1;
        }
        proof {
            let tail = sorted.skip(i as int);
            if tail.len() > 0 {
                assert(tail[0] == sorted[i as int]);
            }
        }
        out.insert(i, selector);
        proof {
            assert(selector_views(out@) =~= sorted.take(i as int) + (seq![selector@] + sorted.skip(
                i as int,
            )));
        }
    }
    proof {
        assert(all.skip(0) =~= all);
        lemma_ranked(all);
    }
    out
}

/// A parser on the characters of its input.
#[derive(Debug)]
pub struct Parser {
    /// The number of characters that are consumed.
    pub pos: usize,
    /// The characters of the input.
    pub input: Vec<char>,
}

/// Parses a style sheet, where the input is well formed.
pub fn try_parse(source: String) -> (sheet: Option<Stylesheet>)
    ensures
        match stylesheet_rules(source@) {
            Some(rules) => sheet.is_some() && sheet.unwrap()@ == rules,
            None => sheet.is_none(),
        },
{
    let mut parser = Parser::new(source);
    match parser.try_parse_rules() {
        Some(rules) => Some(Stylesheet { rules }),
        None => None,
    }
}

/// Parses a style sheet that is well formed.
///
/// A style sheet that is not well formed is left out: `try_parse` is for
/// input of which that is not known.
pub fn parse(source: String) -> (sheet: Stylesheet)
    requires
        stylesheet_rules(source@).is_some(),
    ensures
        sheet@ == stylesheet_rules(source@).unwrap(),
{
    try_parse(source).unwrap()
}

impl Parser {
    /// Whether the position is within the input or at its end.
    pub open spec fn well_formed(&self) -> bool {
        self.pos <= self.input@.len()
    }

    /// A parser at the start of the given input.
    pub fn new(input: String) -> (parser: Parser)
        ensures
            parser.pos == 0,
            parser.input@ == input@,
            parser.well_formed(),
    {
        Parser { pos: 0, input: chars_of(input.as_str()) }
    }

    /// Parses rules up to the end of the input.
    pub fn try_parse_rules(&mut self) -> (rules: Option<Vec<Rule>>)
        requires
            old(self).well_formed(),
        ensures
            final(self).input == old(self).input,
            final(self).well_formed(),
            match rules_from(old(self).input@, old(self).pos as nat, Seq::empty()) {
                Some(views) => rules.is_some() && rule_views(rules.unwrap()@) == views,
                None => rules.is_none(),
            },
    {
        let mut rules: Vec<Rule> = Vec::new();
        assert(rule_views(rules@) =~= Seq::<RuleView>::empty());
        loop
            invariant
                self.well_formed(),
                self.input == old(self).input,
                rules_from(old(self).input@, old(self).pos as nat, Seq::empty()) == rules_from(
                    self.input@,
                    self.pos as nat,
                    rule_views(rules@),
                ),
            decreases self.input@.len() - self.pos,
        {
            let ghost done = rules@;
            proof {
                lemma_noise_end(self.input@, self.pos as nat);
            }
            if !self.try_advance() {
                return None;
            }
            if self.eof() {
                return Some(rules);
            }
            match self.try_parse_rule() {
                Some(rule) => {
                    rules.push(rule);
                    assert(rule_views(rules@) =~= rule_views(done).push(rule@));
                },
                None => {
                    return None;
                },
            }
        }
    }

    /// Parses a rule: selectors, and declarations in braces.
    pub fn try_parse_rule(&mut self) -> (rule: Option<Rule>)
        requires
            old(self).well_formed(),
        ensures
            final(self).input == old(self).input,
            final(self).well_formed(),
            match rule_at(old(self).input@, old(self).pos as nat) {
                Some((view, end)) => rule.is_some() && rule.unwrap()@ == view && final(self).pos
                    == end && old(self).pos < end,
                None => rule.is_none(),
            },
    {
        let selectors = match self.try_parse_selectors() {
            Some(selectors) => selectors,
            None => {
                return None;
            },
        };
        let declarations = match self.try_parse_declarations() {
            Some(declarations) => declarations,
            None => {
                return None;
            },
        };
        Some(Rule { selectors, declarations })
    }

    /// Parses selectors that are separated by commas, up to the opening
    /// brace, and returns them with the most specific first.
    pub fn try_parse_selectors(&mut self) -> (selectors: Option<Vec<Selector>>)
        requires
            old(self).well_formed(),
        ensures
            final(self).input == old(self).input,
            final(self).well_formed(),
            match selectors_at(old(self).input@, old(self).pos as nat, Seq::empty()) {
                Some((views, end)) => selectors.is_some() && selector_views(selectors.unwrap()@)
                    == views && final(self).pos == end && old(self).pos <= end && char_at(
                    old(self).input@,
                    end,
                    '{',
                ),
                None => selectors.is_none(),
            },
    {
        let mut selectors: Vec<Selector> = Vec::new();
        assert(selector_views(selectors@) =~= Seq::<SelectorView>::empty());
        loop
            invariant
                self.well_formed(),
                self.input == old(self).input,
                old(self).pos <= self.pos,
                selectors_at(old(self).input@, old(self).pos as nat, Seq::empty())
                    == selectors_at(self.input@, self.pos as nat, selector_views(selectors@)),
            decreases self.input@.len() - self.pos,
        {
            let ghost from = self.pos as nat;
            let ghost done = selectors@;
            proof {
                lemma_simple_selector_at(self.input@, from, SelectorView::empty());
            }
            let simple = self.parse_simple_selector();
            selectors.push(Selector::Simple(simple));
            assert(selector_views(selectors@) =~= selector_views(done).push(simple@));
            proof {
                lemma_noise_end(self.input@, self.pos as nat);
            }
            if !self.try_advance() {
                return None;
            }
            if self.eof() {
                return None;
            }
            let c = self.next_char();
            if c == ',' {
                self.consume_char();
                proof {
                    lemma_noise_end(self.input@, self.pos as nat);
                }
                if !self.try_advance() {
                    return None;
                }
            } else if c == '{' {
                return Some(rank_selectors(selectors));
            } else {
                return None;
            }
        }
    }

    /// Parses one simple selector, such as `type#id.class1.class2`.
    pub fn parse_simple_selector(&mut self) -> (selector: SimpleSelector)
        requires
            old(self).well_formed(),
        ensures
            final(self).input == old(self).input,
            final(self).well_formed(),
            (selector@, final(self).pos as nat) == simple_selector_at(
                old(self).input@,
                old(self).pos as nat,
                SelectorView::empty(),
            ),
    {
        let mut selector = SimpleSelector { tag: None, id: None, class: Vec::new() };
        assert(selector@ =~= SelectorView::empty()) by {
            assert(selector@.class =~= Seq::<Seq<char>>::empty());
        }
        loop
            invariant
                self.well_formed(),
                self.input == old(self).input,
                simple_selector_at(old(self).input@, old(self).pos as nat, SelectorView::empty())
                    == simple_selector_at(self.input@, self.pos as nat, selector@),
            decreases self.input@.len() - self.pos,
        {
            if self.eof() {
                return selector;
            }
            let ghost found = selector@;
            let c = self.next_char();
            proof {
                lemma_run_end(self.input@, (self.pos + 1) as nat, CharClass::Identifier);
                lemma_run_end(self.input@, self.pos as nat, CharClass::Identifier);
            }
            if c == '#' {
                self.consume_char();
                selector.id = Some(self.parse_identifier());
                assert(selector@ == (SelectorView { id: selector@.id, ..found }));
            } else if c == '.' {
                self.consume_char();
                let ghost before = selector.class@;
                let name = self.parse_identifier();
                selector.class.push(name);
                assert(texts(selector.class@) =~= texts(before).push(name@));
                assert(selector@ == (SelectorView { class: texts(before).push(name@), ..found }));
            } else if c == '*' {
                self.consume_char();
            } else if valid_identifier_char(c) {
                selector.tag = Some(self.parse_identifier());
                assert(selector@ == (SelectorView { tag: selector@.tag, ..found }));
            } else {
                return selector;
            }
        }
    }

    /// Parses declarations in braces.
    pub fn try_parse_declarations(&mut self) -> (declarations: Option<Vec<Declaration>>)
        requires
            old(self).well_formed(),
        ensures
            final(self).input == old(self).input,
            final(self).well_formed(),
            match declarations_at(old(self).input@, old(self).pos as nat) {
                Some((views, end)) => declarations.is_some() && declaration_views(
                    declarations.unwrap()@,
                ) == views && final(self).pos == end && old(self).pos < end,
                None => declarations.is_none(),
            },
    {
        if self.eof() || self.consume_char() != '{' {
            return None;
        }
        let mut declarations: Vec<Declaration> = Vec::new();
        assert(declaration_views(declarations@) =~= Seq::<DeclarationView>::empty());
        loop
            invariant
                self.well_formed(),
                self.input == old(self).input,
                old(self).pos < self.pos,
                declarations_at(old(self).input@, old(self).pos as nat) == declarations_from(
                    self.input@,
                    self.pos as nat,
                    declaration_views(declarations@),
                ),
            decreases self.input@.len() - self.pos,
        {
            let ghost done = declarations@;
            proof {
                lemma_noise_end(self.input@, self.pos as nat);
            }
            if !self.try_advance() {
                return None;
            }
            if self.eof() {
                return None;
            }
            if self.next_char() == '}' {
                self.consume_char();
                return Some(declarations);
            }
            match self.try_parse_declaration() {
                Some(declaration) => {
                    declarations.push(declaration);
                    assert(declaration_views(declarations@) =~= declaration_views(done).push(
                        declaration@,
                    ));
                },
                None => {
                    return None;
                },
            }
        }
    }

    /// Parses one declaration: `<property>: <value>;`.
    pub fn try_parse_declaration(&mut self) -> (declaration: Option<Declaration>)
        requires
            old(self).well_formed(),
        ensures
            final(self).input == old(self).input,
            final(self).well_formed(),
            match declaration_at(old(self).input@, old(self).pos as nat) {
                Some((view, end)) => declaration.is_some() && declaration.unwrap()@ == view
                    && final(self).pos == end && old(self).pos < end,
                None => declaration.is_none(),
            },
    {
        proof {
            lemma_run_end(self.input@, self.pos as nat, CharClass::Identifier);
        }
        let property_name = self.parse_identifier();
        proof {
            lemma_noise_end(self.input@, self.pos as nat);
        }
        if !self.try_advance() {
            return None;
        }
        if self.eof() || self.consume_char() != ':' {
            return None;
        }
        proof {
            lemma_noise_end(self.input@, self.pos as nat);
        }
        if !self.try_advance() {
            return None;
        }
        if self.eof() {
            return None;
        }
        let value = match self.try_parse_value() {
            Some(value) => value,
            None => {
                return None;
            },
        };
        proof {
            lemma_noise_end(self.input@, self.pos as nat);
        }
        if !self.try_advance() {
            return None;
        }
        if self.eof() {
            return None;
        }
        if self.next_char() != '}' {
            if self.consume_char() != ';' {
                return None;
            }
        }
        Some(Declaration { name: property_name, value })
    }

    /// Parses a value.
    pub fn try_parse_value(&mut self) -> (value: Option<Value>)
        requires
            old(self).well_formed(),
            old(self).pos < old(self).input@.len(),
        ensures
            final(self).input == old(self).input,
            final(self).well_formed(),
            match value_at(old(self).input@, old(self).pos as nat) {
                Some((view, end)) => value.is_some() && value.unwrap()@ == view && final(self).pos
                    == end && old(self).pos <= end,
                None => value.is_none(),
            },
    {
        let c = self.next_char();
        if CharClass::Number.test(c) {
            self.try_parse_length()
        } else if c == '#' {
            self.try_parse_color()
        } else {
            proof {
                lemma_run_end(self.input@, self.pos as nat, CharClass::Identifier);
            }
            Some(Value::Keyword(self.parse_identifier()))
        }
    }

    /// Parses a number with a percent sign or a unit behind it.
    pub fn try_parse_length(&mut self) -> (value: Option<Value>)
        requires
            old(self).well_formed(),
        ensures
            final(self).input == old(self).input,
            final(self).well_formed(),
            match length_at(old(self).input@, old(self).pos as nat) {
                Some((view, end)) => value.is_some() && value.unwrap()@ == view && final(self).pos
                    == end && old(self).pos <= end,
                None => value.is_none(),
            },
    {
        proof {
            lemma_run_end(self.input@, self.pos as nat, CharClass::Number);
        }
        let number = self.parse_number();
        if self.eof() {
            return None;
        }
        if self.next_char() == '%' {
            self.consume_char();
            Some(Value::Percent(number))
        } else {
            proof {
                lemma_run_end(self.input@, self.pos as nat, CharClass::Identifier);
            }
            match self.try_parse_unit() {
                Some(unit) => Some(Value::Length(number, unit)),
                None => None,
            }
        }
    }

    /// Parses a number, and returns it as it is written.
    pub fn parse_number(&mut self) -> (number: String)
        requires
            old(self).well_formed(),
        ensures
            final(self).input == old(self).input,
            final(self).well_formed(),
            final(self).pos == run_end(old(self).input@, old(self).pos as nat, CharClass::Number),
            number@ == old(self).input@.subrange(old(self).pos as int, final(self).pos as int),
    {
        self.consume_while(CharClass::Number)
    }

    /// Parses the name of a unit, in letters of either case.
    pub fn try_parse_unit(&mut self) -> (unit: Option<Unit>)
        requires
            old(self).well_formed(),
        ensures
            final(self).input == old(self).input,
            final(self).well_formed(),
            final(self).pos == run_end(
                old(self).input@,
                old(self).pos as nat,
                CharClass::Identifier,
            ),
            unit == unit_named(
                old(self).input@.subrange(old(self).pos as int, final(self).pos as int),
            ),
    {
        let start = self.pos;
        proof {
            lemma_run_end(self.input@, self.pos as nat, CharClass::Identifier);
        }
        self.parse_identifier();
        let ghost name = self.input@.subrange(start as int, self.pos as int);
        let ghost lowered = name.map_values(|c: char| lower(c));
        let n = self.pos - start;
        proof {
            lemma_unit_named(name);
        }
        if n == 1 {
            let a = lower_case(self.input[start]);
            assert(lowered[0] == a);
            if a == 'q' {
                Some(Unit::Q)
            } else {
                None
            }
        } else if n == 2 {
            let a = lower_case(self.input[start]);
            let b = lower_case(self.input[start + 1]);
            assert(lowered[0] == a);
            assert(lowered[1] == b);
            if a == 'c' && b == 'm' {
                Some(Unit::Cm)
            } else if a == 'm' && b == 'm' {
                Some(Unit::Mm)
            } else if a == 'i' && b == 'n' {
                Some(Unit::In)
            } else if a == 'p' && b == 'c' {
                Some(Unit::Pc)
            } else if a == 'p' && b == 't' {
                Some(Unit::Pt)
            } else if a == 'p' && b == 'x' {
                Some(Unit::Px)
            } else {
                None
            }
        } else {
            None
        }
    }

    /// Parses a colour: a number sign and three numbers of two hexadecimal
    /// digits each.
    pub fn try_parse_color(&mut self) -> (value: Option<Value>)
        requires
            old(self).well_formed(),
        ensures
            final(self).input == old(self).input,
            final(self).well_formed(),
            match color_at(old(self).input@, old(self).pos as nat) {
                Some((view, end)) => value.is_some() && value.unwrap()@ == view && final(self).pos
                    == end && old(self).pos < end,
                None => value.is_none(),
            },
    {
        if self.eof() || self.consume_char() != '#' {
            return None;
        }
        let r = match self.try_parse_hex_pair() {
            Some(r) => r,
            None => {
                return None;
            },
        };
        let g = match self.try_parse_hex_pair() {
            Some(g) => g,
            None => {
                return None;
            },
        };
        let b = match self.try_parse_hex_pair() {
            Some(b) => b,
            None => {
                return None;
            },
        };
        Some(Value::ColorValue(Color { r, g, b, a: 255 }))
    }

    /// Parses a number of two hexadecimal digits.
    pub fn try_parse_hex_pair(&mut self) -> (value: Option<u8>)
        requires
            old(self).well_formed(),
        ensures
            final(self).input == old(self).input,
            final(self).well_formed(),
            value == hex_pair_at(old(self).input@, old(self).pos as nat),
            value.is_some() ==> final(self).pos == old(self).pos + 2,
    {
        let len = self.input.len();
        if len - self.pos < 2 {
            return None;
        }
        let first = self.input[self.pos];
        let second = self.input[self.pos + 1];
        let low = match hex_digit_value(second) {
            Some(low) => low,
            None => {
                return None;
            },
        };
        let value = if first == '+' {
            low
        } else {
            match hex_digit_value(first) {
                Some(high) => high * 16 + low,
                None => {
                    return None;
                },
            }
        };
        self.pos = self.pos + 2;
        Some(value)
    }

    /// Parses the name of a property or a keyword.
    pub fn parse_identifier(&mut self) -> (name: String)
        requires
            old(self).well_formed(),
        ensures
            final(self).input == old(self).input,
            final(self).well_formed(),
            final(self).pos == run_end(
                old(self).input@,
                old(self).pos as nat,
                CharClass::Identifier,
            ),
            name@ == old(self).input@.subrange(old(self).pos as int, final(self).pos as int),
    {
        self.consume_while(CharClass::Identifier)
    }

    /// Consumes white space and comments. Returns whether every comment is
    /// closed.
    pub fn try_advance(&mut self) -> (closed: bool)
        requires
            old(self).well_formed(),
        ensures
            final(self).input == old(self).input,
            final(self).well_formed(),
            match noise_end(old(self).input@, old(self).pos as nat) {
                Some(end) => closed && final(self).pos == end,
                None => !closed,
            },
    {
        proof {
            reveal_strlit("/*");
            reveal_strlit("*/");
            lemma_noise_after_space(self.input@, self.pos as nat);
        }
        let len = self.input.len();
        self.consume_while(CharClass::Whitespace);
        while self.starts_with("/*")
            invariant
                self.well_formed(),
                self.input == old(self).input,
                len == self.input@.len(),
                "/*"@.len() == 2,
                "*/"@.len() == 2,
                self.pos == run_end(self.input@, self.pos as nat, CharClass::Whitespace),
                noise_end(old(self).input@, old(self).pos as nat) == noise_end(
                    self.input@,
                    self.pos as nat,
                ),
            decreases self.input@.len() - self.pos,
        {
            let ghost open = self.pos as nat;
            self.pos = self.pos + 2;
            while self.pos < len && !self.starts_with("*/")
                invariant
                    self.well_formed(),
                    self.input == old(self).input,
                    len == self.input@.len(),
                    open + 2 <= self.pos,
                    comment_close(self.input@, open + 2) == comment_close(
                        self.input@,
                        self.pos as nat,
                    ),
                decreases self.input@.len() - self.pos,
            {
                self.pos = self.pos + 1;
            }
            if self.pos >= len {
                return false;
            }
            self.pos = self.pos + 2;
            proof {
                lemma_noise_after_space(self.input@, self.pos as nat);
                lemma_run_end(self.input@, self.pos as nat, CharClass::Whitespace);
            }
            self.consume_while(CharClass::Whitespace);
        }
        true
    }

    /// Consumes characters as long as they belong to the class, and returns
    /// them.
    pub fn consume_while(&mut self, class: CharClass) -> (text: String)
        requires
            old(self).well_formed(),
        ensures
            final(self).input == old(self).input,
            final(self).well_formed(),
            final(self).pos == run_end(old(self).input@, old(self).pos as nat, class),
            text@ == old(self).input@.subrange(old(self).pos as int, final(self).pos as int),
    {
        let mut result = String::new();
        assert(result@ =~= self.input@.subrange(self.pos as int, self.pos as int));
        while !self.eof() && class.test(self.next_char())
            invariant
                self.well_formed(),
                self.input == old(self).input,
                old(self).pos <= self.pos,
                run_end(old(self).input@, old(self).pos as nat, class) == run_end(
                    self.input@,
                    self.pos as nat,
                    class,
                ),
                result@ == self.input@.subrange(old(self).pos as int, self.pos as int),
            decreases self.input@.len() - self.pos,
        {
            let c = self.consume_char();
            push_char(&mut result, c);
            proof {
                assert(result@ =~= self.input@.subrange(old(self).pos as int, self.pos as int));
            }
        }
        result
    }

    /// Returns the character at the position and moves on to the next.
    pub fn consume_char(&mut self) -> (c: char)
        requires
            old(self).pos < old(self).input@.len(),
        ensures
            final(self).input == old(self).input,
            final(self).pos == old(self).pos + 1,
            c == old(self).input@[old(self).pos as int],
    {
        proof {
            vstd::std_specs::vec::axiom_spec_len(&self.input);
        }
        let c = self.input[self.pos];
        self.pos = self.pos + 1;
        c
    }

    /// The character at the position.
    pub fn next_char(&self) -> (c: char)
        requires
            self.pos < self.input@.len(),
        ensures
            c == self.input@[self.pos as int],
    {
        self.input[self.pos]
    }

    /// The input that is not consumed.
    pub fn peek(&self) -> (rest: &[char])
        requires
            self.well_formed(),
        ensures
            rest@ == self.input@.subrange(self.pos as int, self.input@.len() as int),
    {
        vstd::slice::slice_subrange(self.input.as_slice(), self.pos, self.input.len())
    }

    /// Does the text stand at the position?
    pub fn starts_with(&self, text: &str) -> (b: bool)
        requires
            self.well_formed(),
        ensures
            b == stands_at(self.input@, self.pos as nat, text@),
    {
        crate::scan::stands_in(&self.input, self.pos, text)
    }

    /// Is all input consumed?
    pub fn eof(&self) -> (b: bool)
        ensures
            b == (self.pos >= self.input@.len()),
    {
        self.pos >= self.input.len()
    }

    /// Parses rules that are well formed, up to the end of the input.
    pub fn parse_rules(&mut self) -> (rules: Vec<Rule>)
        requires
            old(self).well_formed(),
            rules_from(old(self).input@, old(self).pos as nat, Seq::empty()).is_some(),
        ensures
            final(self).input == old(self).input,
            final(self).well_formed(),
            rule_views(rules@) == rules_from(
                old(self).input@,
                old(self).pos as nat,
                Seq::empty(),
            ).unwrap(),
    {
        self.try_parse_rules().unwrap()
    }

    /// Parses a rule that is well formed: selectors, and declarations in
    /// braces.
    pub fn parse_rule(&mut self) -> (rule: Rule)
        requires
            old(self).well_formed(),
            rule_at(old(self).input@, old(self).pos as nat).is_some(),
        ensures
            final(self).input == old(self).input,
            final(self).well_formed(),
            (rule@, final(self).pos as nat) == rule_at(
                old(self).input@,
                old(self).pos as nat,
            ).unwrap(),
            old(self).pos < final(self).pos,
    {
        self.try_parse_rule().unwrap()
    }

    /// Parses selectors that are well formed and separated by commas, up to
    /// the opening brace, and returns them with the most specific first.
    pub fn parse_selectors(&mut self) -> (selectors: Vec<Selector>)
        requires
            old(self).well_formed(),
            selectors_at(old(self).input@, old(self).pos as nat, Seq::empty()).is_some(),
        ensures
            final(self).input == old(self).input,
            final(self).well_formed(),
            (selector_views(selectors@), final(self).pos as nat) == selectors_at(
                old(self).input@,
                old(self).pos as nat,
                Seq::empty(),
            ).unwrap(),
            char_at(old(self).input@, final(self).pos as nat, '{'),
    {
        self.try_parse_selectors().unwrap()
    }

    /// Parses declarations in braces that are well formed.
    pub fn parse_declarations(&mut self) -> (declarations: Vec<Declaration>)
        requires
            old(self).well_formed(),
            declarations_at(old(self).input@, old(self).pos as nat).is_some(),
        ensures
            final(self).input == old(self).input,
            final(self).well_formed(),
            (declaration_views(declarations@), final(self).pos as nat) == declarations_at(
                old(self).input@,
                old(self).pos as nat,
            ).unwrap(),
            old(self).pos < final(self).pos,
    {
        self.try_parse_declarations().unwrap()
    }

    /// Parses one declaration that is well formed: `<property>: <value>;`.
    pub fn parse_declaration(&mut self) -> (declaration: Declaration)
        requires
            old(self).well_formed(),
            declaration_at(old(self).input@, old(self).pos as nat).is_some(),
        ensures
            final(self).input == old(self).input,
            final(self).well_formed(),
            (declaration@, final(self).pos as nat) == declaration_at(
                old(self).input@,
                old(self).pos as nat,
            ).unwrap(),
            old(self).pos < final(self).pos,
    {
        self.try_parse_declaration().unwrap()
    }

    /// Parses a value that is well formed.
    pub fn parse_value(&mut self) -> (value: Value)
        requires
            old(self).well_formed(),
            old(self).pos < old(self).input@.len(),
            value_at(old(self).input@, old(self).pos as nat).is_some(),
        ensures
            final(self).input == old(self).input,
            final(self).well_formed(),
            (value@, final(self).pos as nat) == value_at(
                old(self).input@,
                old(self).pos as nat,
            ).unwrap(),
    {
        self.try_parse_value().unwrap()
    }

    /// Parses a number with a percent sign or the name of a unit behind it.
    pub fn parse_length(&mut self) -> (value: Value)
        requires
            old(self).well_formed(),
            length_at(old(self).input@, old(self).pos as nat).is_some(),
        ensures
            final(self).input == old(self).input,
            final(self).well_formed(),
            (value@, final(self).pos as nat) == length_at(
                old(self).input@,
                old(self).pos as nat,
            ).unwrap(),
    {
        self.try_parse_length().unwrap()
    }

    /// Parses a colour that is well formed: a number sign and three numbers
    /// of two hexadecimal digits each.
    pub fn parse_color(&mut self) -> (value: Value)
        requires
            old(self).well_formed(),
            color_at(old(self).input@, old(self).pos as nat).is_some(),
        ensures
            final(self).input == old(self).input,
            final(self).well_formed(),
            (value@, final(self).pos as nat) == color_at(
                old(self).input@,
                old(self).pos as nat,
            ).unwrap(),
            old(self).pos < final(self).pos,
    {
        self.try_parse_color().unwrap()
    }

    /// Parses the name of a unit, in letters of either case.
    pub fn parse_unit(&mut self) -> (unit: Unit)
        requires
            old(self).well_formed(),
            unit_named(
                old(self).input@.subrange(
                    old(self).pos as int,
                    run_end(old(self).input@, old(self).pos as nat, CharClass::Identifier) as int,
                ),
            ).is_some(),
        ensures
            final(self).input == old(self).input,
            final(self).well_formed(),
            final(self).pos == run_end(
                old(self).input@,
                old(self).pos as nat,
                CharClass::Identifier,
            ),
            Some(unit) == unit_named(
                old(self).input@.subrange(old(self).pos as int, final(self).pos as int),
            ),
    {
        self.try_parse_unit().unwrap()
    }

    /// Parses a number of two hexadecimal digits.
    pub fn parse_hex_pair(&mut self) -> (value: u8)
        requires
            old(self).well_formed(),
            hex_pair_at(old(self).input@, old(self).pos as nat).is_some(),
        ensures
            final(self).input == old(self).input,
            final(self).well_formed(),
            Some(value) == hex_pair_at(old(self).input@, old(self).pos as nat),
            final(self).pos == old(self).pos + 2,
    {
        self.try_parse_hex_pair().unwrap()
    }

    /// Consumes white space and comments, each of which is closed.
    pub fn advance(&mut self)
        requires
            old(self).well_formed(),
            noise_end(old(self).input@, old(self).pos as nat).is_some(),
        ensures
            final(self).input == old(self).input,
            final(self).well_formed(),
            Some(final(self).pos as nat) == noise_end(old(self).input@, old(self).pos as nat),
    {
        self.try_advance();
    }
}

/// The unit with a name goes by the number of its letters and by their
/// lower case.
pub proof fn lemma_unit_named(name: Seq<char>)
    ensures
        ({
            let l = name.map_values(|c: char| lower(c));
            unit_named(name) == if l.len() == 1 {
                if l[0] == 'q' {
                    Some(Unit::Q)
                } else {
                    None
                }
            } else if l.len() == 2 {
                if l[0] == 'c' && l[1] == 'm' {
                    Some(Unit::Cm)
                } else if l[0] == 'm' && l[1] == 'm' {
                    Some(Unit::Mm)
                } else if l[0] == 'i' && l[1] == 'n' {
                    Some(Unit::In)
                } else if l[0] == 'p' && l[1] == 'c' {
                    Some(Unit::Pc)
                } else if l[0] == 'p' && l[1] == 't' {
                    Some(Unit::Pt)
                } else if l[0] == 'p' && l[1] == 'x' {
                    Some(Unit::Px)
                } else {
                    None
                }
            } else {
                None
            }
        }),
{
    let l = name.map_values(|c: char| lower(c));
    assert(seq!['q'].len() == 1 && seq!['q'][0] == 'q');
    assert(seq!['c', 'm'].len() == 2 && seq!['c', 'm'][0] == 'c' && seq!['c', 'm'][1] == 'm');
    assert(seq!['m', 'm'].len() == 2 && seq!['m', 'm'][0] == 'm' && seq!['m', 'm'][1] == 'm');
    assert(seq!['i', 'n'].len() == 2 && seq!['i', 'n'][0] == 'i' && seq!['i', 'n'][1] == 'n');
    assert(seq!['p', 'c'].len() == 2 && seq!['p', 'c'][0] == 'p' && seq!['p', 'c'][1] == 'c');
    assert(seq!['p', 't'].len() == 2 && seq!['p', 't'][0] == 'p' && seq!['p', 't'][1] == 't');
    assert(seq!['p', 'x'].len() == 2 && seq!['p', 'x'][0] == 'p' && seq!['p', 'x'][1] == 'x');
    if l.len() == 1 {
        if l[0] == 'q' {
            assert(l =~= seq!['q']);
        }
    } else if l.len() == 2 {
        if l[0] == 'c' && l[1] == 'm' {
            assert(l =~= seq!['c', 'm']);
        } else if l[0] == 'm' && l[1] == 'm' {
            assert(l =~= seq!['m', 'm']);
        } else if l[0] == 'i' && l[1] == 'n' {
            assert(l =~= seq!['i', 'n']);
        } else if l[0] == 'p' && l[1] == 'c' {
            assert(l =~= seq!['p', 'c']);
        } else if l[0] == 'p' && l[1] == 't' {
            assert(l =~= seq!['p', 't']);
        } else if l[0] == 'p' && l[1] == 'x' {
            assert(l =~= seq!['p', 'x']);
        }
    }
}

/// Noise goes on after the white space that it starts with, and no white
/// space follows that white space.
pub proof fn lemma_noise_after_space(input: Seq<char>, pos: nat)
    ensures
        noise_end(input, pos) == noise_end(input, run_end(input, pos, CharClass::Whitespace)),
        run_end(input, run_end(input, pos, CharClass::Whitespace), CharClass::Whitespace)
            == run_end(input, pos, CharClass::Whitespace),
{
    lemma_run_end(input, pos, CharClass::Whitespace);
}

} // verus!
