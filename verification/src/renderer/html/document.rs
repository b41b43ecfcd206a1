//! Markup as a sequence of pieces, and the law that reading what was written
//! gives back what was meant.
//!
//! A [`Piece`] is a run of text, a start tag or an end tag. [`text_of`] writes
//! pieces down as markup; [`tokens_of`] says which tokens they stand for.
//! [`lemma_pieces_come_out`] proves that the machine, given the markup, hands
//! out exactly those tokens.

use super::ascii::{lower, lowered};
use super::attribute::AttributeView;
use super::laws::{lemma_text_is_read, text_tokens};
use super::machine::{Machine, Signal};
use super::scanning::{
    all_chars, attribute_name, attribute_name_char, lemma_extend_after_push, lemma_reads_in_turn,
    lemma_run_goes_on, lemma_scan_attribute_name, lemma_scan_quoted_value,
    lemma_scan_unquoted_value, lemma_tag_is_opened, named_tag, opening, past_name, quoted_value,
    tag_name, unquoted_value, value_char, value_state,
};
use super::token::{State, TokenView};
use vstd::prelude::*;

verus! {

/// One attribute as it is written, after the blank that comes before it.
pub enum WrittenAttribute {
    /// `name="value"` or `name='value'`.
    Quoted { name: Seq<char>, quote: char, value: Seq<char> },
    /// `name=value`.
    Unquoted { name: Seq<char>, value: Seq<char> },
    /// `name`, with no value.
    Bare { name: Seq<char> },
}

impl WrittenAttribute {
    /// The name as it was written.
    pub open spec fn name(self) -> Seq<char> {
        match self {
            WrittenAttribute::Quoted { name, .. } => name,
            WrittenAttribute::Unquoted { name, .. } => name,
            WrittenAttribute::Bare { name } => name,
        }
    }

    /// The value as it was written; none is an empty one.
    pub open spec fn value(self) -> Seq<char> {
        match self {
            WrittenAttribute::Quoted { value, .. } => value,
            WrittenAttribute::Unquoted { value, .. } => value,
            WrittenAttribute::Bare { .. } => Seq::empty(),
        }
    }

    /// The name can be the name of an attribute, and the value can stand
    /// where it stands: between its quotes, or without any.
    pub open spec fn valid(self) -> bool {
        &&& attribute_name(self.name())
        &&& match self {
            WrittenAttribute::Quoted { quote, value, .. } => quoted_value(quote, value),
            WrittenAttribute::Unquoted { value, .. } => unquoted_value(value),
            WrittenAttribute::Bare { .. } => true,
        }
    }

    /// What follows the name in the markup.
    pub open spec fn value_text(self) -> Seq<char> {
        match self {
            WrittenAttribute::Quoted { quote, value, .. } => seq!['=', quote] + value + seq![quote],
            WrittenAttribute::Unquoted { value, .. } => seq!['='] + value,
            WrittenAttribute::Bare { .. } => Seq::empty(),
        }
    }

    /// The attribute as markup, with the blank before it.
    pub open spec fn text(self) -> Seq<char> {
        seq![' '] + self.name() + self.value_text()
    }

    /// The attribute that the markup stands for: the name in lower case, the
    /// value as it was written.
    pub open spec fn meaning(self) -> AttributeView {
        AttributeView { name: lowered(self.name()), value: self.value() }
    }

    /// The state in which the machine is once it has read the attribute.
    pub open spec fn leaves(self) -> State {
        match self {
            WrittenAttribute::Quoted { .. } => State::AfterAttributeValueQuoted,
            WrittenAttribute::Unquoted { .. } => State::AttributeValueUnquoted,
            WrittenAttribute::Bare { .. } => State::AttributeName,
        }
    }
}

/// The attributes `a` as markup, one after the other.
pub open spec fn attributes_text(a: Seq<WrittenAttribute>) -> Seq<char>
    decreases a.len(),
{
    if a.len() == 0 {
        Seq::empty()
    } else {
        attributes_text(a.drop_last()) + a.last().text()
    }
}

/// The attributes that the written attributes `a` stand for, in order.
pub open spec fn attributes_meaning(a: Seq<WrittenAttribute>) -> Seq<AttributeView> {
    Seq::new(a.len(), |i: int| a[i].meaning())
}

/// One piece of markup.
pub enum Piece {
    /// Text between tags.
    Text(Seq<char>),
    /// `<name attributes>`, or `<name attributes/>` when `self_closing`;
    /// with a blank before the closing when `spaced`.
    StartTag {
        name: Seq<char>,
        attributes: Seq<WrittenAttribute>,
        spaced: bool,
        self_closing: bool,
    },
    /// `</name>`.
    EndTag { name: Seq<char> },
}

/// What closes a start tag: `/>` when it closes itself, else `>`; after a
/// blank when `spaced`.
pub open spec fn closing(spaced: bool, self_closing: bool) -> Seq<char> {
    let blank = if spaced {
        seq![' ']
    } else {
        Seq::empty()
    };
    if self_closing {
        blank + seq!['/', '>']
    } else {
        blank + seq!['>']
    }
}

/// This closing can follow these attributes: a `/` right after a value
/// without quotes would be part of the value.
pub open spec fn closing_fits(
    attributes: Seq<WrittenAttribute>,
    spaced: bool,
    self_closing: bool,
) -> bool {
    self_closing && !spaced ==> attributes.len() == 0 || attributes.last() !is Unquoted
}

/// The markup of a start tag.
pub open spec fn start_tag_text(
    name: Seq<char>,
    attributes: Seq<WrittenAttribute>,
    spaced: bool,
    self_closing: bool,
) -> Seq<char> {
    seq!['<'] + name + attributes_text(attributes) + closing(spaced, self_closing)
}

/// The token that the markup of a start tag stands for.
pub open spec fn start_tag_meaning(
    name: Seq<char>,
    attributes: Seq<WrittenAttribute>,
    self_closing: bool,
) -> TokenView {
    TokenView::StartTag {
        tag: lowered(name),
        self_closing,
        attributes: attributes_meaning(attributes),
    }
}

impl Piece {
    /// Text holds no `<`; the name of a tag can be one; every attribute is
    /// valid, and the closing fits the last of them.
    pub open spec fn valid(self) -> bool {
        match self {
            Piece::Text(s) => all_chars(s, |c: char| c != '<'),
            Piece::StartTag { name, attributes, spaced, self_closing } => {
                &&& tag_name(name)
                &&& forall|i: int| 0 <= i < attributes.len() ==> (#[trigger] attributes[i]).valid()
                &&& closing_fits(attributes, spaced, self_closing)
            },
            Piece::EndTag { name } => tag_name(name),
        }
    }

    /// The piece as markup.
    pub open spec fn text(self) -> Seq<char> {
        match self {
            Piece::Text(s) => s,
            Piece::StartTag { name, attributes, spaced, self_closing } => start_tag_text(
                name,
                attributes,
                spaced,
                self_closing,
            ),
            Piece::EndTag { name } => seq!['<', '/'] + name + seq!['>'],
        }
    }

    /// The tokens that the piece stands for: one `Char` for each character
    /// of text, one tag for a tag, its names in lower case.
    pub open spec fn tokens(self) -> Seq<TokenView> {
        match self {
            Piece::Text(s) => text_tokens(s),
            Piece::StartTag { name, attributes, self_closing, .. } => seq![
                start_tag_meaning(name, attributes, self_closing),
            ],
            Piece::EndTag { name } => seq![named_tag(false, name)],
        }
    }
}

/// The pieces as markup, one after the other.
pub open spec fn text_of(pieces: Seq<Piece>) -> Seq<char>
    decreases pieces.len(),
{
    if pieces.len() == 0 {
        Seq::empty()
    } else {
        pieces[0].text() + text_of(pieces.drop_first())
    }
}

/// The tokens that the pieces stand for, in order.
pub open spec fn tokens_of(pieces: Seq<Piece>) -> Seq<TokenView>
    decreases pieces.len(),
{
    if pieces.len() == 0 {
        Seq::empty()
    } else {
        pieces[0].tokens() + tokens_of(pieces.drop_first())
    }
}

/// Every piece is valid.
pub open spec fn all_valid(pieces: Seq<Piece>) -> bool {
    forall|i: int| 0 <= i < pieces.len() ==> (#[trigger] pieces[i]).valid()
}

/// A state in which a start tag is built and the next attribute, or the
/// closing, may follow: after the name of the tag, or where a written
/// attribute leaves the machine.
pub open spec fn between_attributes(s: State) -> bool {
    s == State::TagName || s == State::AfterAttributeValueQuoted || s
        == State::AttributeValueUnquoted || s == State::AttributeName
}

/// The machine `m`, which is building a tag, once it has read a blank and
/// the first character of an attribute's name.
pub open spec fn past_first(m: Machine, first: char) -> Machine {
    Machine {
        state: State::AttributeName,
        latest: Some(m.latest->0.open_attribute().push_attribute(lower(first), true)),
        ..m.skip(2)
    }
}

/// Between attributes, a blank and a character that can stand in a name
/// begin a new attribute, whose name that character begins.
pub proof fn lemma_attribute_is_begun(m: Machine, first: char)
    requires
        between_attributes(m.state),
        !m.reconsume,
        m.latest is Some,
        attribute_name_char(first),
        m.reads(seq![' ', first]),
    ensures
        m.run() == past_first(m, first).run(),
{
    assert(m.ahead(2)[0] == ' ' && m.ahead(2)[1] == first);
    let t = m.latest->0;
    // the blank
    let m1 = if m.state == State::AttributeName {
        m.skip(1).goto(State::AfterAttributeName)
    } else {
        m.skip(1).goto(State::BeforeAttributeName)
    };
    assert(m.run() == m1.run()) by {
        reveal(Machine::step);
        if m.state == State::AttributeName {
            let seen = m.skip(1).again(State::AfterAttributeName);
            lemma_run_goes_on(m, seen);
            lemma_run_goes_on(seen, m1);
        } else {
            lemma_run_goes_on(m, m1);
        }
    }
    // the first character of the name is seen, an attribute begun
    let m2 = Machine { latest: Some(t.open_attribute()), ..m1.skip(1).again(State::AttributeName) };
    assert(m1.step() == (m2, Signal::Continue)) by {
        reveal(Machine::step);
    }
    lemma_run_goes_on(m1, m2);
    // it joins the name
    assert(m2.step() == (past_first(m, first), Signal::Continue)) by {
        reveal(Machine::step);
    }
    lemma_run_goes_on(m2, past_first(m, first));
}

/// The machine `m`, which is building a tag, once it has read a blank and
/// the name of an attribute.
pub open spec fn past_attribute_name(m: Machine, name: Seq<char>) -> Machine {
    Machine {
        state: State::AttributeName,
        latest: Some(
            m.latest->0.with_attributes(
                seq![AttributeView { name: lowered(name), value: Seq::empty() }],
            ),
        ),
        ..m.skip(name.len() + 1)
    }
}

/// Between attributes, a blank and a name add an attribute of that name, in
/// lower case and with an empty value, to the start tag that is built.
pub proof fn lemma_attribute_is_named(m: Machine, name: Seq<char>)
    requires
        between_attributes(m.state),
        !m.reconsume,
        m.latest matches Some(t) && t is StartTag,
        attribute_name(name),
        m.reads(seq![' '] + name),
    ensures
        m.run() == past_attribute_name(m, name).run(),
{
    let t = m.latest->0;
    let first = name[0];
    lemma_reads_in_turn(m, seq![' '], name);
    assert(attribute_name_char(first));
    assert(m.ahead(2) =~= seq![' ', first]) by {
        assert(m.ahead(1)[0] == ' ');
        assert(m.skip(1).ahead(name.len())[0] == first);
    }
    lemma_attribute_is_begun(m, first);
    let m3 = past_first(m, first);
    let t3 = m3.latest->0;
    let rest: nat = (name.len() - 1) as nat;
    assert(m3.ahead(rest) =~= name.subrange(1, name.len() as int)) by {
        assert forall|i: int| 0 <= i < rest implies m3.ahead(rest)[i] == name[i + 1] by {
            assert(m.skip(1).ahead(name.len())[i + 1] == name[i + 1]);
        }
    }
    lemma_scan_attribute_name(m3, rest);
    let t4 = t3.extend_attribute(lowered(m3.ahead(rest)), true);
    assert(t4 == t.with_attributes(
        seq![AttributeView { name: lowered(name), value: Seq::empty() }],
    )) by {
        lemma_extend_after_push(t.open_attribute(), lower(first), lowered(m3.ahead(rest)));
        assert(seq![lower(first)] + lowered(m3.ahead(rest)) =~= lowered(name));
        assert(Seq::<char>::empty() + lowered(name) =~= lowered(name));
        let old = t->StartTag_attributes;
        assert(old.push(AttributeView::empty()).update(
            old.len() as int,
            AttributeView { name: lowered(name), value: Seq::empty() },
        ) =~= old + seq![AttributeView { name: lowered(name), value: Seq::empty() }]);
    }
    assert(m3.skip(rest).edit(|t: TokenView| t.extend_attribute(lowered(m3.ahead(rest)), true))
        == past_attribute_name(m, name));
}

/// The machine `m`, which is building the start tag `t`, once it has read
/// the written attribute `a`.
pub open spec fn past_attribute(m: Machine, a: WrittenAttribute) -> Machine {
    Machine {
        state: a.leaves(),
        latest: Some(m.latest->0.with_attributes(seq![a.meaning()])),
        ..m.skip(a.text().len())
    }
}

/// The last of a tag's attributes gets the value `value`.
pub proof fn lemma_value_is_set(t: TokenView, name: Seq<char>, value: Seq<char>)
    requires
        t is StartTag,
    ensures
        t.with_attributes(seq![AttributeView { name, value: Seq::empty() }]).extend_attribute(
            value,
            false,
        ) == t.with_attributes(seq![AttributeView { name, value }]),
{
    let old = t->StartTag_attributes;
    let named = AttributeView { name, value: Seq::<char>::empty() };
    assert(Seq::<char>::empty() + value =~= value);
    assert((old + seq![named]).last() == named);
    assert((old + seq![named]).update(old.len() as int, AttributeView { name, value }) =~= old
        + seq![AttributeView { name, value }]);
}

/// Between attributes, a written attribute adds what it stands for to the
/// start tag that is built, and nothing else happens.
pub proof fn lemma_attribute_is_read(m: Machine, a: WrittenAttribute)
    requires
        between_attributes(m.state),
        !m.reconsume,
        m.latest matches Some(t) && t is StartTag,
        a.valid(),
        m.reads(a.text()),
    ensures
        m.run() == past_attribute(m, a).run(),
{
    let t = m.latest->0;
    let name = a.name();
    let head = seq![' '] + name;
    lemma_reads_in_turn(m, head, a.value_text());
    lemma_attribute_is_named(m, name);
    let m0 = past_attribute_name(m, name);
    let t0 = m0.latest->0;
    let at: nat = head.len();
    match a {
        WrittenAttribute::Bare { .. } => {
            assert(head + a.value_text() =~= head);
            assert(m0 == past_attribute(m, a));
        },
        WrittenAttribute::Quoted { quote, value, .. } => {
            let opens = seq!['=', quote];
            lemma_reads_in_turn(m.skip(at), opens + value, seq![quote]);
            lemma_reads_in_turn(m.skip(at), opens, value);
            assert(m.skip(at).ahead(2)[0] == '=' && m.skip(at).ahead(2)[1] == quote);
            assert(m.skip(at + 2).ahead(value.len()) == value);
            assert(m.skip(at + 2 + value.len()).ahead(1)[0] == quote);
            // `=`
            let m1 = m0.skip(1).goto(State::BeforeAttributeValue);
            assert(m0.step() == (m1, Signal::Continue)) by {
                reveal(Machine::step);
            }
            lemma_run_goes_on(m0, m1);
            // the opening quote
            let m2 = m1.skip(1).goto(value_state(quote));
            assert(m1.step() == (m2, Signal::Continue)) by {
                reveal(Machine::step);
            }
            lemma_run_goes_on(m1, m2);
            // the value
            assert(m2.ahead(value.len()) == value);
            lemma_scan_quoted_value(m2, value.len(), quote);
            let t3 = t0.extend_attribute(value, false);
            let m3 = Machine { latest: Some(t3), ..m2.skip(value.len()) };
            assert(m3 == m2.skip(value.len()).edit(
                |t: TokenView| t.extend_attribute(m2.ahead(value.len()), false),
            ));
            // the closing quote
            assert(m3.input[m3.pos as int] == quote);
            let m4 = m3.skip(1).goto(State::AfterAttributeValueQuoted);
            assert(m3.step() == (m4, Signal::Continue)) by {
                reveal(Machine::step);
            }
            lemma_run_goes_on(m3, m4);
            lemma_value_is_set(t, lowered(name), value);
            assert(m4 == past_attribute(m, a));
        },
        WrittenAttribute::Unquoted { value, .. } => {
            lemma_reads_in_turn(m.skip(at), seq!['='], value);
            assert(m.skip(at).ahead(1)[0] == '=');
            assert(m.skip(at + 1).ahead(value.len()) == value);
            let first = value[0];
            assert(value_char(first));
            // `=`
            let m1 = m0.skip(1).goto(State::BeforeAttributeValue);
            assert(m0.step() == (m1, Signal::Continue)) by {
                reveal(Machine::step);
            }
            lemma_run_goes_on(m0, m1);
            // the first character of the value is seen
            assert(m1.input[m1.pos as int] == first) by {
                assert(m.skip(at + 1).ahead(value.len())[0] == first);
            }
            let m2 = m1.skip(1).again(State::AttributeValueUnquoted);
            assert(m1.step() == (m2, Signal::Continue)) by {
                reveal(Machine::step);
            }
            lemma_run_goes_on(m1, m2);
            // it joins the value
            let t3 = t0.push_attribute(first, false);
            let m3 = Machine { reconsume: false, latest: Some(t3), ..m2 };
            assert(m2.step() == (m3, Signal::Continue)) by {
                reveal(Machine::step);
            }
            lemma_run_goes_on(m2, m3);
            // and so do the others
            let rest: nat = (value.len() - 1) as nat;
            assert(m3.ahead(rest) =~= value.subrange(1, value.len() as int)) by {
                assert forall|i: int| 0 <= i < rest implies m3.ahead(rest)[i] == value[i + 1] by {
                    assert(m.skip(at + 1).ahead(value.len())[i + 1] == value[i + 1]);
                }
            }
            lemma_scan_unquoted_value(m3, rest);
            let t4 = t3.extend_attribute(m3.ahead(rest), false);
            assert(t4 == t0.extend_attribute(value, false)) by {
                lemma_extend_after_push(t0, first, m3.ahead(rest));
                assert(seq![first] + m3.ahead(rest) =~= value);
            }
            lemma_value_is_set(t, lowered(name), value);
            assert(m3.skip(rest).edit(|t: TokenView| t.extend_attribute(m3.ahead(rest), false))
                == past_attribute(m, a));
        },
    }
}

/// The machine `m`, which is building a start tag, once it has read the
/// written attributes `a`.
pub open spec fn past_attributes(m: Machine, a: Seq<WrittenAttribute>) -> Machine {
    Machine {
        state: if a.len() == 0 {
            m.state
        } else {
            a.last().leaves()
        },
        latest: Some(m.latest->0.with_attributes(attributes_meaning(a))),
        ..m.skip(attributes_text(a).len())
    }
}

/// Written attributes, one after the other, add what they stand for to the
/// start tag that is built, in order, and nothing else happens.
pub proof fn lemma_attributes_are_read(m: Machine, a: Seq<WrittenAttribute>)
    requires
        between_attributes(m.state),
        !m.reconsume,
        m.latest matches Some(t) && t is StartTag,
        forall|i: int| 0 <= i < a.len() ==> (#[trigger] a[i]).valid(),
        m.reads(attributes_text(a)),
    ensures
        m.run() == past_attributes(m, a).run(),
    decreases a.len(),
{
    let t = m.latest->0;
    let old = t->StartTag_attributes;
    if a.len() == 0 {
        assert(attributes_meaning(a) =~= Seq::<AttributeView>::empty());
        assert(old + attributes_meaning(a) =~= old);
        assert(past_attributes(m, a) == m);
    } else {
        let before = a.drop_last();
        let last = a.last();
        lemma_reads_in_turn(m, attributes_text(before), last.text());
        lemma_attributes_are_read(m, before);
        let mid = past_attributes(m, before);
        lemma_attribute_is_read(mid, last);
        assert(old + attributes_meaning(before) + seq![last.meaning()] =~= old
            + attributes_meaning(a));
        assert(past_attribute(mid, last) == past_attributes(m, a));
    }
}

/// The machine `m`, which is building a tag, once it has been closed.
pub open spec fn past_closing(m: Machine, spaced: bool, self_closing: bool) -> Machine {
    Machine { state: State::Data, latest: None, ..m.skip(closing(spaced, self_closing).len()) }
}

/// Between attributes, the closing hands out the start tag that was built,
/// marked as self-closing if `/` came before the `>`.
pub proof fn lemma_tag_is_closed(m: Machine, spaced: bool, self_closing: bool)
    requires
        between_attributes(m.state),
        !m.reconsume,
        m.latest matches Some(t) && t is StartTag,
        self_closing && !spaced ==> m.state != State::AttributeValueUnquoted,
        m.reads(closing(spaced, self_closing)),
    ensures
        m.run() == (
            past_closing(m, spaced, self_closing),
            Some(
                if self_closing {
                    m.latest->0.mark_self_closing()
                } else {
                    m.latest->0
                },
            ),
        ),
{
    let text = closing(spaced, self_closing);
    assert(forall|i: int| 0 <= i < text.len() ==> m.input[m.pos + i] == #[trigger] m.ahead(
        text.len(),
    )[i]);
    // the blank, if there is one
    let m1 = if !spaced {
        m
    } else if m.state == State::AttributeName {
        m.skip(1).goto(State::AfterAttributeName)
    } else {
        m.skip(1).goto(State::BeforeAttributeName)
    };
    assert(m.run() == m1.run()) by {
        reveal(Machine::step);
        if spaced {
            assert(text[0] == ' ');
            if m.state == State::AttributeName {
                let seen = m.skip(1).again(State::AfterAttributeName);
                lemma_run_goes_on(m, seen);
                lemma_run_goes_on(seen, m1);
            } else {
                lemma_run_goes_on(m, m1);
            }
        }
    }
    let at: int = if spaced {
        1
    } else {
        0
    };
    // `/` or `>` is handed on to `AfterAttributeName` where it is not
    // acted on at once
    let c = text[at];
    assert(m1.input[m1.pos as int] == c);
    let direct = m1.state == State::TagName || m1.state == State::AfterAttributeValueQuoted
        || m1.state == State::AfterAttributeName || (m1.state == State::AttributeValueUnquoted
        && c == '>');
    let m2 = if direct {
        m1
    } else {
        m1.skip(1).again(State::AfterAttributeName)
    };
    assert(m1.run() == m2.run()) by {
        reveal(Machine::step);
        if !direct {
            lemma_run_goes_on(m1, m2);
        }
    }
    assert(m2.current() == c);
    if self_closing {
        assert(c == '/' && text[at + 1] == '>');
        let m3 = m2.read().goto(State::SelfClosingStartTag);
        assert(m2.step() == (m3, Signal::Continue)) by {
            reveal(Machine::step);
        }
        lemma_run_goes_on(m2, m3);
        assert(m3.input[m3.pos as int] == '>');
        assert(m3.step() == (
            past_closing(m, spaced, self_closing),
            Signal::Emit(m.latest->0.mark_self_closing()),
        )) by {
            reveal(Machine::step);
        }
    } else {
        assert(c == '>');
        assert(m2.step() == (past_closing(m, spaced, self_closing), Signal::Emit(m.latest->0)))
            by {
            reveal(Machine::step);
        }
    }
}

/// A start tag, wherever it stands in the text, comes out with the names in
/// lower case and each value exactly as it was written. The machine is then
/// in `Data`, just past the `>`.
pub proof fn lemma_start_tag_is_read(
    m: Machine,
    name: Seq<char>,
    attributes: Seq<WrittenAttribute>,
    spaced: bool,
    self_closing: bool,
)
    requires
        m.state == State::Data,
        !m.reconsume,
        m.latest is None,
        tag_name(name),
        forall|i: int| 0 <= i < attributes.len() ==> (#[trigger] attributes[i]).valid(),
        closing_fits(attributes, spaced, self_closing),
        m.reads(start_tag_text(name, attributes, spaced, self_closing)),
    ensures
        m.run() == (
            m.skip(start_tag_text(name, attributes, spaced, self_closing).len()),
            Some(start_tag_meaning(name, attributes, self_closing)),
        ),
{
    let head = seq!['<'] + name;
    let middle = attributes_text(attributes);
    let tail = closing(spaced, self_closing);
    lemma_reads_in_turn(m, head + middle, tail);
    lemma_reads_in_turn(m, head, middle);
    assert(opening(true) + name == head);
    lemma_tag_is_opened(m, true, name);
    let m0 = past_name(m, true, name);
    lemma_attributes_are_read(m0, attributes);
    let m1 = past_attributes(m0, attributes);
    assert(Seq::<AttributeView>::empty() + attributes_meaning(attributes) =~= attributes_meaning(
        attributes,
    ));
    assert(m1.latest == Some(start_tag_meaning(name, attributes, false)));
    assert(m1.pos == m.pos + head.len() + middle.len());
    assert(m1.reads(tail)) by {
        assert(m1.ahead(tail.len()) == m.skip((head + middle).len()).ahead(tail.len()));
    }
    lemma_tag_is_closed(m1, spaced, self_closing);
}

/// An end tag, wherever it stands in the text, comes out with its name in
/// lower case. The machine is then in `Data`, just past the `>`.
pub proof fn lemma_end_tag_is_read(m: Machine, name: Seq<char>)
    requires
        m.state == State::Data,
        !m.reconsume,
        m.latest is None,
        tag_name(name),
        m.reads(seq!['<', '/'] + name + seq!['>']),
    ensures
        m.run() == (m.skip(name.len() + 3), Some(named_tag(false, name))),
{
    let head = opening(false) + name;
    lemma_reads_in_turn(m, head, seq!['>']);
    lemma_tag_is_opened(m, false, name);
    let named = past_name(m, false, name);
    assert(named.input[named.pos as int] == '>') by {
        assert(named.ahead(1)[0] == '>');
    }
    assert(named.step() == (m.skip(head.len() + 1), Signal::Emit(named_tag(false, name)))) by {
        reveal(Machine::step);
    }
}

/// Reading what was written gives back what was meant.
///
/// Wherever valid pieces stand in the text, the machine, coming to them in
/// `Data`, hands out exactly the tokens they stand for, and then what the
/// rest of the text gives.
pub proof fn lemma_pieces_are_read(m: Machine, pieces: Seq<Piece>)
    requires
        m.state == State::Data,
        !m.reconsume,
        m.latest is None,
        all_valid(pieces),
        m.reads(text_of(pieces)),
    ensures
        m.tokens() == tokens_of(pieces) + m.skip(text_of(pieces).len()).tokens(),
    decreases pieces.len(),
{
    if pieces.len() == 0 {
        assert(m.skip(0) == m);
        assert(tokens_of(pieces) + m.tokens() =~= m.tokens());
    } else {
        let piece = pieces[0];
        let others = pieces.drop_first();
        assert(piece.valid());
        assert forall|i: int| 0 <= i < others.len() implies (#[trigger] others[i]).valid() by {
            assert(others[i] == pieces[i + 1]);
        }
        lemma_reads_in_turn(m, piece.text(), text_of(others));
        let next = m.skip(piece.text().len());
        assert(m.tokens() == piece.tokens() + next.tokens()) by {
            match piece {
                Piece::Text(s) => {
                    lemma_text_is_read(m, s);
                },
                Piece::StartTag { name, attributes, spaced, self_closing } => {
                    lemma_start_tag_is_read(m, name, attributes, spaced, self_closing);
                },
                Piece::EndTag { name } => {
                    lemma_end_tag_is_read(m, name);
                },
            }
        }
        lemma_pieces_are_read(next, others);
        assert(next.skip(text_of(others).len()) == m.skip(text_of(pieces).len()));
        assert(piece.tokens() + (tokens_of(others) + m.skip(text_of(pieces).len()).tokens())
            =~= tokens_of(pieces) + m.skip(text_of(pieces).len()).tokens());
    }
}

/// Markup that is nothing but valid pieces gives exactly the tokens that the
/// pieces stand for.
pub proof fn lemma_pieces_come_out(pieces: Seq<Piece>)
    requires
        all_valid(pieces),
    ensures
        Machine::start(text_of(pieces)).tokens() == tokens_of(pieces),
{
    let m = Machine::start(text_of(pieces));
    assert(m.ahead(text_of(pieces).len()) =~= text_of(pieces));
    lemma_pieces_are_read(m, pieces);
    let end = m.skip(text_of(pieces).len());
    assert(end.tokens() == Seq::<TokenView>::empty()) by {
        reveal(Machine::step);
    }
    assert(tokens_of(pieces) + Seq::<TokenView>::empty() =~= tokens_of(pieces));
}

} // verus!
