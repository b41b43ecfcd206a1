//! The tokenizer as a mathematical state machine.
//!
//! A [`Machine`] is everything the tokenizer knows at one moment. [`Machine::step`]
//! is one transition; [`Machine::run`] takes transitions until a token comes
//! out or the input is used up; [`Machine::tokens`] is the whole stream. The
//! executable tokenizer is specified by `run`, and the laws about the stream
//! are proved of these functions.

use super::ascii::{is_alpha, lemma_lower_is_not_upper, lower};
use super::token::{State, TokenView};
use vstd::prelude::*;

verus! {

/// What one transition tells the driver.
pub enum Signal {
    /// Nothing to hand out yet: take another transition.
    Continue,
    /// A finished token.
    Emit(TokenView),
    /// The input is used up: the stream has ended.
    End,
}

/// The tokenizer's state, as plain mathematical values.
pub struct Machine {
    /// Position in the grammar.
    pub state: State,
    /// How many characters of `input` have been read.
    pub pos: nat,
    /// The next transition looks again at the character read last instead of
    /// reading a new one.
    pub reconsume: bool,
    /// The tag under construction, if any.
    pub latest: Option<TokenView>,
    /// The whole text.
    pub input: Seq<char>,
    /// Characters of a failed closing tag in raw text, waiting to be handed
    /// out again.
    pub buf: Seq<char>,
}

/// How many transitions in a row a character that is looked at again in state
/// `s` can stay unread, as an upper bound. It is what makes the cost of one
/// character finite.
pub open spec fn rank(s: State, c: char) -> nat {
    match s {
        State::Data => 1,
        State::TagOpen => 2,
        State::EndTagOpen => 2,
        State::TagName => 1,
        State::BeforeAttributeName => 3,
        State::AttributeName => if c == ' ' || c == '/' || c == '>' {
            2
        } else {
            1
        },
        State::AfterAttributeName => if c == ' ' || c == '/' || c == '=' || c == '>' {
            1
        } else {
            2
        },
        State::BeforeAttributeValue => 2,
        State::AttributeValueDoubleQuoted => 1,
        State::AttributeValueSingleQuoted => 1,
        State::AttributeValueUnquoted => 1,
        State::AfterAttributeValueQuoted => 4,
        State::SelfClosingStartTag => 1,
        State::ScriptData => 1,
        State::ScriptDataLessThanSign => 2,
        State::ScriptDataEndTagOpen => 5,
        State::ScriptDataEndTagName => 4,
        State::TemporaryBuffer => 1,
    }
}

impl Machine {
    /// The machine before anything was read: in `Data`, at the first
    /// character, with no tag under construction.
    pub open spec fn start(input: Seq<char>) -> Machine {
        Machine {
            state: State::Data,
            pos: 0,
            reconsume: false,
            latest: None,
            input,
            buf: Seq::empty(),
        }
    }

    /// The invariant of a machine that was started and then only stepped.
    ///
    /// - The cursor is inside the input, and a character can be looked at
    ///   again only once one was read.
    /// - A tag is under construction exactly in the states that build one.
    /// - Where characters go to the last attribute, a start tag has one.
    /// - The names built so far hold no capital letter.
    /// - The buffer is empty but while a closing tag in raw text is scanned
    ///   or handed back.
    pub open spec fn wf(self) -> bool {
        &&& self.pos <= self.input.len()
        &&& self.reconsume ==> self.pos > 0
        &&& self.buf.len() > 0 ==> self.state == State::ScriptDataEndTagName || self.state
            == State::TemporaryBuffer
        &&& match self.latest {
            Some(t) => {
                &&& self.state.builds_tag()
                &&& t.is_tag()
                &&& t.names_folded()
                &&& t is StartTag && self.state.fills_attribute() ==> t.has_attribute()
                &&& t is StartTag && self.state == State::AfterAttributeName
                    ==> t.has_attribute() || (self.reconsume && (self.last_read() == '/'
                    || self.last_read() == '>'))
            },
            None => !self.state.builds_tag(),
        }
    }

    /// Every character has been read.
    pub open spec fn at_end(self) -> bool {
        self.pos >= self.input.len()
    }

    /// The character read last.
    pub open spec fn last_read(self) -> char {
        self.input[self.pos - 1]
    }

    /// The index of the first character that is still to be acted on: the
    /// cursor, or the place before it while that character is looked at
    /// again.
    pub open spec fn unread_from(self) -> int {
        if self.reconsume {
            self.pos - 1
        } else {
            self.pos as int
        }
    }

    /// The machine has just read `>` and is back in `Data` with no tag under
    /// construction: the state that handing out a tag leaves.
    pub open spec fn closed_a_tag(self) -> bool {
        &&& self.state == State::Data
        &&& self.latest is None
        &&& !self.reconsume
        &&& 0 < self.pos <= self.input.len()
        &&& self.last_read() == '>'
    }

    /// The next transition would need a character and there is none: nothing
    /// is left to read, nothing to look at again. Handing back buffered
    /// characters needs no input, so a machine in `TemporaryBuffer` is never
    /// out of input.
    pub open spec fn exhausted(self) -> bool {
        self.state != State::TemporaryBuffer && !self.reconsume && self.at_end()
    }

    /// The character that the next transition looks at.
    pub open spec fn current(self) -> char {
        if self.reconsume {
            self.last_read()
        } else {
            self.input[self.pos as int]
        }
    }

    /// The machine after taking `current()`: the cursor has moved on unless
    /// the character was one to look at again.
    pub open spec fn read(self) -> Machine {
        Machine {
            pos: if self.reconsume {
                self.pos
            } else {
                self.pos + 1
            },
            reconsume: false,
            ..self
        }
    }

    /// The machine with the cursor `k` characters further on.
    pub open spec fn skip(self, k: nat) -> Machine {
        Machine { pos: self.pos + k, ..self }
    }

    /// The next `k` characters to read.
    pub open spec fn ahead(self, k: nat) -> Seq<char> {
        self.input.subrange(self.pos as int, (self.pos + k) as int)
    }

    /// The text `s` is what the machine reads next.
    pub open spec fn reads(self, s: Seq<char>) -> bool {
        self.pos + s.len() <= self.input.len() && self.ahead(s.len()) == s
    }

    /// Switch to state `s`.
    pub open spec fn goto(self, s: State) -> Machine {
        Machine { state: s, ..self }
    }

    /// Switch to state `s` and have it look at the same character again.
    pub open spec fn again(self, s: State) -> Machine {
        Machine { state: s, reconsume: true, ..self }
    }

    /// Begin a tag: `t` is the only tag under construction from now on.
    pub open spec fn begin(self, t: TokenView) -> Machine {
        Machine { latest: Some(t), ..self }
    }

    /// Change the tag under construction by `f`, if there is one.
    pub open spec fn edit(self, f: spec_fn(TokenView) -> TokenView) -> Machine {
        match self.latest {
            Some(t) => Machine { latest: Some(f(t)), ..self },
            None => self,
        }
    }

    /// Hand out the tag under construction and go back to `Data`.
    pub open spec fn finish(self) -> (Machine, Signal) {
        (
            Machine { state: State::Data, latest: None, ..self },
            match self.latest {
                Some(t) => Signal::Emit(t),
                None => Signal::Continue,
            },
        )
    }

    /// Drop a tag whose end the input does not hold, with what the buffer
    /// kept of it, and go back to `Data`. A machine with no tag under
    /// construction stays as it is.
    pub open spec fn abandon(self) -> Machine {
        if self.latest is Some {
            Machine { state: State::Data, latest: None, buf: Seq::empty(), ..self }
        } else {
            self
        }
    }

    /// Go over to raw text from wherever the machine stands: a tag under
    /// construction is dropped, and so is what the buffer holds. The cursor
    /// stays.
    pub open spec fn enter_raw_text(self) -> Machine {
        Machine { state: State::ScriptData, latest: None, buf: Seq::empty(), ..self }
    }

    /// `Data`: `<` opens a tag, any other character is text.
    pub open spec fn on_data(self, c: char) -> (Machine, Signal) {
        if c == '<' {
            (self.goto(State::TagOpen), Signal::Continue)
        } else {
            (self, Signal::Emit(TokenView::Char(c)))
        }
    }

    /// `TagOpen`: `/` announces an end tag; a letter begins a start tag and
    /// is its first character; anything else shows that the `<` opened no
    /// tag: it is dropped, and the character is read as text.
    pub open spec fn on_tag_open(self, c: char) -> (Machine, Signal) {
        if c == '/' {
            (self.goto(State::EndTagOpen), Signal::Continue)
        } else if is_alpha(c) {
            (self.again(State::TagName).begin(TokenView::start_tag()), Signal::Continue)
        } else {
            (self.again(State::Data), Signal::Continue)
        }
    }

    /// `EndTagOpen`: a letter begins an end tag and is its first character;
    /// anything else is skipped.
    pub open spec fn on_end_tag_open(self, c: char) -> (Machine, Signal) {
        if is_alpha(c) {
            (self.again(State::TagName).begin(TokenView::end_tag()), Signal::Continue)
        } else {
            (self, Signal::Continue)
        }
    }

    /// `TagName`: a blank ends the name, `/` may close the tag in itself, `>`
    /// finishes it; any other character joins the name, capital letters in
    /// lower case.
    pub open spec fn on_tag_name(self, c: char) -> (Machine, Signal) {
        if c == ' ' {
            (self.goto(State::BeforeAttributeName), Signal::Continue)
        } else if c == '/' {
            (self.goto(State::SelfClosingStartTag), Signal::Continue)
        } else if c == '>' {
            self.finish()
        } else {
            (self.edit(|t: TokenView| t.push_tag(lower(c))), Signal::Continue)
        }
    }

    /// `BeforeAttributeName`: `/` and `>` are for `AfterAttributeName` to
    /// read; any other character is the first of a new attribute's name.
    pub open spec fn on_before_attribute_name(self, c: char) -> (Machine, Signal) {
        if c == '/' || c == '>' {
            (self.again(State::AfterAttributeName), Signal::Continue)
        } else {
            (
                self.again(State::AttributeName).edit(|t: TokenView| t.open_attribute()),
                Signal::Continue,
            )
        }
    }

    /// `AttributeName`: a blank, `/` and `>` end the name and are for
    /// `AfterAttributeName` to read; `=` announces the value; any other
    /// character joins the name, capital letters in lower case.
    pub open spec fn on_attribute_name(self, c: char) -> (Machine, Signal) {
        if c == ' ' || c == '/' || c == '>' {
            (self.again(State::AfterAttributeName), Signal::Continue)
        } else if c == '=' {
            (self.goto(State::BeforeAttributeValue), Signal::Continue)
        } else {
            (self.edit(|t: TokenView| t.push_attribute(lower(c), true)), Signal::Continue)
        }
    }

    /// `AfterAttributeName`: blanks are skipped, `/` may close the tag in
    /// itself, `=` announces the value, `>` finishes the tag; any other
    /// character is the first of a new attribute's name.
    pub open spec fn on_after_attribute_name(self, c: char) -> (Machine, Signal) {
        if c == ' ' {
            (self, Signal::Continue)
        } else if c == '/' {
            (self.goto(State::SelfClosingStartTag), Signal::Continue)
        } else if c == '=' {
            (self.goto(State::BeforeAttributeValue), Signal::Continue)
        } else if c == '>' {
            self.finish()
        } else {
            (
                self.again(State::AttributeName).edit(|t: TokenView| t.open_attribute()),
                Signal::Continue,
            )
        }
    }

    /// `BeforeAttributeValue`: blanks are skipped, a quote opens a quoted
    /// value; any other character is the first of a value without quotes.
    pub open spec fn on_before_attribute_value(self, c: char) -> (Machine, Signal) {
        if c == ' ' {
            (self, Signal::Continue)
        } else if c == '"' {
            (self.goto(State::AttributeValueDoubleQuoted), Signal::Continue)
        } else if c == '\'' {
            (self.goto(State::AttributeValueSingleQuoted), Signal::Continue)
        } else {
            (self.again(State::AttributeValueUnquoted), Signal::Continue)
        }
    }

    /// A value between quotes: the same `quote` closes it; any other
    /// character joins the value as it is.
    pub open spec fn on_attribute_value_quoted(self, c: char, quote: char) -> (Machine, Signal) {
        if c == quote {
            (self.goto(State::AfterAttributeValueQuoted), Signal::Continue)
        } else {
            (self.edit(|t: TokenView| t.push_attribute(c, false)), Signal::Continue)
        }
    }

    /// `AttributeValueUnquoted`: a blank ends the value, `>` finishes the
    /// tag; any other character joins the value as it is.
    pub open spec fn on_attribute_value_unquoted(self, c: char) -> (Machine, Signal) {
        if c == ' ' {
            (self.goto(State::BeforeAttributeName), Signal::Continue)
        } else if c == '>' {
            self.finish()
        } else {
            (self.edit(|t: TokenView| t.push_attribute(c, false)), Signal::Continue)
        }
    }

    /// `AfterAttributeValueQuoted`: a blank leads to the next attribute, `/`
    /// may close the tag in itself, `>` finishes it; any other character is
    /// for `BeforeAttributeName` to read.
    pub open spec fn on_after_attribute_value_quoted(self, c: char) -> (Machine, Signal) {
        if c == ' ' {
            (self.goto(State::BeforeAttributeName), Signal::Continue)
        } else if c == '/' {
            (self.goto(State::SelfClosingStartTag), Signal::Continue)
        } else if c == '>' {
            self.finish()
        } else {
            (self.again(State::BeforeAttributeName), Signal::Continue)
        }
    }

    /// `SelfClosingStartTag`: `>` marks the start tag self-closing and
    /// finishes it; anything else is skipped.
    pub open spec fn on_self_closing_start_tag(self, c: char) -> (Machine, Signal) {
        if c == '>' {
            self.edit(|t: TokenView| t.mark_self_closing()).finish()
        } else {
            (self, Signal::Continue)
        }
    }

    /// `ScriptData`: `<` may open a closing tag, any other character is text.
    pub open spec fn on_script_data(self, c: char) -> (Machine, Signal) {
        if c == '<' {
            (self.goto(State::ScriptDataLessThanSign), Signal::Continue)
        } else {
            (self, Signal::Emit(TokenView::Char(c)))
        }
    }

    /// `ScriptDataLessThanSign`: `/` goes on towards a closing tag, with an
    /// empty buffer; otherwise the `<` was text, and the character after it
    /// is for `ScriptData` to read.
    pub open spec fn on_script_data_less_than_sign(self, c: char) -> (Machine, Signal) {
        if c == '/' {
            (
                Machine { buf: Seq::empty(), ..self.goto(State::ScriptDataEndTagOpen) },
                Signal::Continue,
            )
        } else {
            (self.again(State::ScriptData), Signal::Emit(TokenView::Char('<')))
        }
    }

    /// `ScriptDataEndTagOpen`: a letter begins an end tag and is its first
    /// character; otherwise `<` is handed out as text, and the character is
    /// for `ScriptData` to read.
    pub open spec fn on_script_data_end_tag_open(self, c: char) -> (Machine, Signal) {
        if is_alpha(c) {
            (self.again(State::ScriptDataEndTagName).begin(TokenView::end_tag()), Signal::Continue)
        } else {
            (self.again(State::ScriptData), Signal::Emit(TokenView::Char('<')))
        }
    }

    /// `ScriptDataEndTagName`: `>` finishes the end tag, and the buffer is
    /// emptied; a letter joins the name in lower case and is kept, as
    /// written, in the buffer; any other character shows that this was no
    /// closing tag: the tag is dropped and the buffer becomes `<`, the
    /// letters kept, and that character, to be handed out as text.
    pub open spec fn on_script_data_end_tag_name(self, c: char) -> (Machine, Signal) {
        if c == '>' {
            Machine { buf: Seq::empty(), ..self }.finish()
        } else if is_alpha(c) {
            (
                Machine {
                    buf: self.buf.push(c),
                    ..self.edit(|t: TokenView| t.push_tag(lower(c)))
                },
                Signal::Continue,
            )
        } else {
            (
                Machine {
                    state: State::TemporaryBuffer,
                    latest: None,
                    buf: seq!['<'] + self.buf.push(c),
                    ..self
                },
                Signal::Continue,
            )
        }
    }

    /// `TemporaryBuffer`: hands out the first character of the buffer as
    /// text; with an empty buffer, goes back to `ScriptData`. Reads nothing.
    pub open spec fn replay(self) -> (Machine, Signal) {
        if self.buf.len() == 0 {
            (self.goto(State::ScriptData), Signal::Continue)
        } else {
            (
                Machine { buf: self.buf.drop_first(), ..self },
                Signal::Emit(TokenView::Char(self.buf[0])),
            )
        }
    }

    /// What the machine, having just taken the character `c`, does with it.
    pub open spec fn dispatch(self, c: char) -> (Machine, Signal) {
        match self.state {
            State::Data => self.on_data(c),
            State::TagOpen => self.on_tag_open(c),
            State::EndTagOpen => self.on_end_tag_open(c),
            State::TagName => self.on_tag_name(c),
            State::BeforeAttributeName => self.on_before_attribute_name(c),
            State::AttributeName => self.on_attribute_name(c),
            State::AfterAttributeName => self.on_after_attribute_name(c),
            State::BeforeAttributeValue => self.on_before_attribute_value(c),
            State::AttributeValueDoubleQuoted => self.on_attribute_value_quoted(c, '"'),
            State::AttributeValueSingleQuoted => self.on_attribute_value_quoted(c, '\''),
            State::AttributeValueUnquoted => self.on_attribute_value_unquoted(c),
            State::AfterAttributeValueQuoted => self.on_after_attribute_value_quoted(c),
            State::SelfClosingStartTag => self.on_self_closing_start_tag(c),
            State::ScriptData => self.on_script_data(c),
            State::ScriptDataLessThanSign => self.on_script_data_less_than_sign(c),
            State::ScriptDataEndTagOpen => self.on_script_data_end_tag_open(c),
            State::ScriptDataEndTagName => self.on_script_data_end_tag_name(c),
            State::TemporaryBuffer => self.replay(),
        }
    }

    /// One transition.
    ///
    /// In `TemporaryBuffer` it serves the buffer. Otherwise it needs a
    /// character: if none is left, the stream ends and an unfinished tag is
    /// dropped; else it takes the character and acts on it by the state.
    #[verifier::opaque]
    pub open spec fn step(self) -> (Machine, Signal) {
        if self.state == State::TemporaryBuffer {
            self.replay()
        } else if self.exhausted() {
            (self.abandon(), Signal::End)
        } else {
            self.read().dispatch(self.current())
        }
    }

    /// An upper bound on the transitions still to come, whatever the input
    /// holds: unread characters weigh most, then buffered ones and a
    /// character that is being looked at again.
    pub open spec fn work_left(self) -> nat {
        let unread: nat = if self.pos <= self.input.len() {
            (self.input.len() - self.pos) as nat
        } else {
            0
        };
        let replaying: nat = if self.state == State::TemporaryBuffer {
            1
        } else {
            0
        };
        let pending: nat = if self.reconsume {
            rank(self.state, self.last_read())
        } else {
            0
        };
        16 * unread + self.buf.len() + replaying + pending
    }

    /// Transitions up to and including the first that hands out a token or
    /// ends the stream: the machine after it, and the token if there is one.
    pub open spec fn run(self) -> (Machine, Option<TokenView>)
        decreases self.work_left(),
    {
        let (next, signal) = self.step();
        match signal {
            Signal::Emit(t) => (next, Some(t)),
            Signal::End => (next, None),
            Signal::Continue => {
                proof {
                    lemma_step_uses_work(self);
                }
                next.run()
            },
        }
    }

    /// Every token still to come, in order: what repeated runs hand out until
    /// the stream ends.
    pub open spec fn tokens(self) -> Seq<TokenView>
        decreases self.work_left(),
    {
        let (next, token) = self.run();
        match token {
            Some(t) => {
                proof {
                    lemma_run_uses_work(self);
                }
                seq![t] + next.tokens()
            },
            None => Seq::empty(),
        }
    }

    /// The machine after the stream has ended: what the runs that hand out
    /// `tokens()` leave behind.
    pub open spec fn drained(self) -> Machine
        decreases self.work_left(),
    {
        let (next, token) = self.run();
        match token {
            Some(t) => {
                proof {
                    lemma_run_uses_work(self);
                }
                next.drained()
            },
            None => next,
        }
    }
}

/// A transition that does not end the stream uses up some of the work that
/// is left, and one that ends it adds none. This holds of every machine.
pub proof fn lemma_step_uses_work(m: Machine)
    ensures
        m.step().1 !is End ==> m.step().0.work_left() < m.work_left(),
        m.step().0.work_left() <= m.work_left(),
{
    reveal(Machine::step);
}

/// A run that hands out a token uses up some of the work that is left, and no
/// run adds to it. This holds of every machine.
pub proof fn lemma_run_uses_work(m: Machine)
    ensures
        m.run().1 is Some ==> m.run().0.work_left() < m.work_left(),
        m.run().0.work_left() <= m.work_left(),
    decreases m.work_left(),
{
    lemma_step_uses_work(m);
    if m.step().1 is Continue {
        lemma_run_uses_work(m.step().0);
    }
}

/// One transition keeps the invariant.
pub proof fn lemma_step_keeps_wf(m: Machine)
    requires
        m.wf(),
    ensures
        m.step().0.wf(),
{
    reveal(Machine::step);
    let c = m.current();
    lemma_lower_is_not_upper(c);
    if m.state != State::TemporaryBuffer && !m.exhausted() {
        if let Some(t) = m.latest {
            lemma_edits_keep_names_folded(t, c);
        }
    }
}

/// What one transition does besides keeping the invariant: it keeps the
/// input and never moves the cursor back.
///
/// A token that comes out is one character of text or a finished tag with
/// folded names, never `Eof`; and a tag comes out only when its closing `>`
/// has just been read. When the stream ends nothing is left under
/// construction.
pub proof fn lemma_step(m: Machine)
    requires
        m.wf(),
    ensures
        m.step().0.input == m.input,
        m.step().0.pos >= m.pos,
        m.step().0.unread_from() >= m.unread_from(),
        m.step().1 is End ==> m.exhausted() && m.step().0.exhausted() && m.step().0.latest is None,
        m.step().1 matches Signal::Emit(t) ==> (t.is_tag() || t is Char) && t.names_folded(),
        m.step().1 matches Signal::Emit(t) && t.is_tag() ==> m.step().0.closed_a_tag()
            && m.step().0.pos > m.unread_from(),
{
    reveal(Machine::step);
    let c = m.current();
    lemma_lower_is_not_upper(c);
    if m.state != State::TemporaryBuffer && !m.exhausted() {
        if let Some(t) = m.latest {
            lemma_edits_keep_names_folded(t, c);
        }
    }
}

/// Adding a folded character to a name, or any character to a value, and the
/// other edits of a tag, keep its names folded.
pub proof fn lemma_edits_keep_names_folded(t: TokenView, c: char)
    requires
        t.names_folded(),
    ensures
        t.push_tag(lower(c)).names_folded(),
        t.mark_self_closing().names_folded(),
        t.open_attribute().names_folded(),
        t.push_attribute(lower(c), true).names_folded(),
        t.push_attribute(c, false).names_folded(),
        t.open_attribute().is_tag() == t.is_tag(),
        t is StartTag ==> t.open_attribute().has_attribute(),
{
    lemma_lower_is_not_upper(c);
}

} // verus!
