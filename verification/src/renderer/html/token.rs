//! Tokens, and the tokenizer that produces them.

use super::ascii::{is_ascii_alphabetic, is_ascii_uppercase, is_upper, to_ascii_lowercase};
use super::attribute::{Attribute, AttributeView};
use super::laws::{lemma_run, run_keeps_its_word};
use super::machine::{
    lemma_run_uses_work, lemma_step_keeps_wf, lemma_step_uses_work, Machine, Signal,
};
use super::text::chars_of;
use vstd::pervasive::unreached;
use vstd::prelude::*;
use vstd::std_specs::cmp::PartialEqSpecImpl;

verus! {

/// One unit of lexical output. Two tokens are equal when they are of the
/// same shape and hold the same texts.
#[derive(Debug, Clone, Eq)]
pub enum HtmlToken {
    /// `<tag name=value ...>`, or `<tag ... />` when `self_closing`.
    StartTag { tag: String, self_closing: bool, attributes: Vec<Attribute> },
    /// `</tag>`.
    EndTag { tag: String },
    /// One character of text.
    Char(char),
    /// End of input. The tokenizer never produces it: when the input runs out
    /// the stream just ends. It is here for consumers that want to mark the
    /// end themselves.
    Eof,
}

/// What an [`HtmlToken`] holds, with texts as sequences of characters.
pub enum TokenView {
    StartTag { tag: Seq<char>, self_closing: bool, attributes: Seq<AttributeView> },
    EndTag { tag: Seq<char> },
    Char(char),
    Eof,
}

/// The views of `attributes`, in the same order.
pub open spec fn attribute_views(attributes: Seq<Attribute>) -> Seq<AttributeView> {
    Seq::new(attributes.len(), |i: int| attributes[i]@)
}

impl View for HtmlToken {
    type V = TokenView;

    open spec fn view(&self) -> TokenView {
        match *self {
            HtmlToken::StartTag { tag, self_closing, attributes } => TokenView::StartTag {
                tag: tag@,
                self_closing,
                attributes: attribute_views(attributes@),
            },
            HtmlToken::EndTag { tag } => TokenView::EndTag { tag: tag@ },
            HtmlToken::Char(c) => TokenView::Char(c),
            HtmlToken::Eof => TokenView::Eof,
        }
    }
}

impl PartialEq for HtmlToken {
    /// Tells whether the two tokens are of the same shape and hold the same
    /// texts.
    fn eq(&self, other: &Self) -> (r: bool) {
        match (self, other) {
            (
                HtmlToken::StartTag { tag, self_closing, attributes },
                HtmlToken::StartTag {
                    tag: other_tag,
                    self_closing: other_self_closing,
                    attributes: other_attributes,
                },
            ) => {
                proof {
                    lemma_same_views(attributes@, other_attributes@);
                }
                *tag == *other_tag && *self_closing == *other_self_closing && *attributes
                    == *other_attributes
            },
            (HtmlToken::EndTag { tag }, HtmlToken::EndTag { tag: other_tag }) => *tag == *other_tag,
            (HtmlToken::Char(c), HtmlToken::Char(other_c)) => *c == *other_c,
            (HtmlToken::Eof, HtmlToken::Eof) => true,
            _ => false,
        }
    }
}

impl PartialEqSpecImpl for HtmlToken {
    open spec fn obeys_eq_spec() -> bool {
        true
    }

    /// Equality is by content.
    open spec fn eq_spec(&self, other: &Self) -> bool {
        self@ == other@
    }
}

/// Two lists of attributes have the same views when they are as long as each
/// other and hold, place by place, attributes with the same view.
pub proof fn lemma_same_views(a: Seq<Attribute>, b: Seq<Attribute>)
    ensures
        attribute_views(a) == attribute_views(b) <==> a.len() == b.len() && forall|i: int|
            0 <= i < a.len() ==> (#[trigger] a[i])@ == b[i]@,
{
    if attribute_views(a) == attribute_views(b) {
        assert(a.len() == attribute_views(a).len());
        assert(b.len() == attribute_views(b).len());
        assert forall|i: int| 0 <= i < a.len() implies (#[trigger] a[i])@ == b[i]@ by {
            assert(attribute_views(a)[i] == a[i]@);
            assert(attribute_views(b)[i] == b[i]@);
        }
    }
    if a.len() == b.len() && forall|i: int| 0 <= i < a.len() ==> (#[trigger] a[i])@ == b[i]@ {
        assert(attribute_views(a) =~= attribute_views(b));
    }
}

/// The view of the token inside `token`, if there is one.
pub open spec fn token_view(token: Option<HtmlToken>) -> Option<TokenView> {
    match token {
        Some(t) => Some(t@),
        None => None,
    }
}

/// The views of `tokens`, in the same order.
pub open spec fn token_views(tokens: Seq<HtmlToken>) -> Seq<TokenView> {
    Seq::new(tokens.len(), |i: int| tokens[i]@)
}

/// What a transition that hands this back tells the driver: the token, or to
/// go on.
pub open spec fn signal(token: Option<HtmlToken>) -> Signal {
    match token {
        Some(t) => Signal::Emit(t@),
        None => Signal::Continue,
    }
}

/// No character of `s` is an ASCII capital letter.
pub open spec fn folded(s: Seq<char>) -> bool {
    forall|i: int| 0 <= i < s.len() ==> !is_upper(#[trigger] s[i])
}

impl TokenView {
    /// A start tag with no name, no attributes, not self-closing.
    pub open spec fn start_tag() -> TokenView {
        TokenView::StartTag { tag: Seq::empty(), self_closing: false, attributes: Seq::empty() }
    }

    /// An end tag with no name.
    pub open spec fn end_tag() -> TokenView {
        TokenView::EndTag { tag: Seq::empty() }
    }

    /// This token is a start tag or an end tag.
    pub open spec fn is_tag(self) -> bool {
        self is StartTag || self is EndTag
    }

    /// This token is a start tag with at least one attribute.
    pub open spec fn has_attribute(self) -> bool {
        self matches TokenView::StartTag { attributes, .. } && attributes.len() > 0
    }

    /// The tag with `c` added to the end of its name. Other tokens stay as
    /// they are.
    pub open spec fn push_tag(self, c: char) -> TokenView {
        match self {
            TokenView::StartTag { tag, self_closing, attributes } => TokenView::StartTag {
                tag: tag.push(c),
                self_closing,
                attributes,
            },
            TokenView::EndTag { tag } => TokenView::EndTag { tag: tag.push(c) },
            _ => self,
        }
    }

    /// The start tag marked self-closing. An end tag has no such mark and
    /// stays as it is.
    pub open spec fn mark_self_closing(self) -> TokenView {
        match self {
            TokenView::StartTag { tag, self_closing, attributes } => TokenView::StartTag {
                tag,
                self_closing: true,
                attributes,
            },
            _ => self,
        }
    }

    /// The start tag with one more attribute, empty, at the end of its list.
    /// An end tag carries no attributes and stays as it is.
    pub open spec fn open_attribute(self) -> TokenView {
        match self {
            TokenView::StartTag { tag, self_closing, attributes } => TokenView::StartTag {
                tag,
                self_closing,
                attributes: attributes.push(AttributeView::empty()),
            },
            _ => self,
        }
    }

    /// The start tag with `c` added to the name (`is_name`) or the value of
    /// its last attribute. A token without attributes stays as it is.
    pub open spec fn push_attribute(self, c: char, is_name: bool) -> TokenView {
        match self {
            TokenView::StartTag { tag, self_closing, attributes } => if attributes.len() > 0 {
                TokenView::StartTag {
                    tag,
                    self_closing,
                    attributes: attributes.update(
                        attributes.len() - 1,
                        attributes.last().add_char(c, is_name),
                    ),
                }
            } else {
                self
            },
            _ => self,
        }
    }

    /// The start tag with the attributes `more` added to the end of its
    /// list.
    pub open spec fn with_attributes(self, more: Seq<AttributeView>) -> TokenView {
        match self {
            TokenView::StartTag { tag, self_closing, attributes } => TokenView::StartTag {
                tag,
                self_closing,
                attributes: attributes + more,
            },
            _ => self,
        }
    }

    /// The tag with the characters of `s` added to the end of its name.
    pub open spec fn extend_tag(self, s: Seq<char>) -> TokenView {
        match self {
            TokenView::StartTag { tag, self_closing, attributes } => TokenView::StartTag {
                tag: tag + s,
                self_closing,
                attributes,
            },
            TokenView::EndTag { tag } => TokenView::EndTag { tag: tag + s },
            _ => self,
        }
    }

    /// The start tag with the characters of `s` added to the name
    /// (`is_name`) or the value of its last attribute.
    pub open spec fn extend_attribute(self, s: Seq<char>, is_name: bool) -> TokenView {
        match self {
            TokenView::StartTag { tag, self_closing, attributes } => if attributes.len() > 0 {
                let last = attributes.last();
                TokenView::StartTag {
                    tag,
                    self_closing,
                    attributes: attributes.update(
                        attributes.len() - 1,
                        if is_name {
                            AttributeView { name: last.name + s, value: last.value }
                        } else {
                            AttributeView { name: last.name, value: last.value + s }
                        },
                    ),
                }
            } else {
                self
            },
            _ => self,
        }
    }

    /// The tag's name, and the name of each of its attributes, holds no ASCII
    /// capital letter. True of every token that is not a tag.
    pub open spec fn names_folded(self) -> bool {
        match self {
            TokenView::StartTag { tag, attributes, .. } => {
                &&& folded(tag)
                &&& forall|i: int|
                    0 <= i < attributes.len() ==> folded(#[trigger] attributes[i].name)
            },
            TokenView::EndTag { tag } => folded(tag),
            _ => true,
        }
    }
}

/// Where the tokenizer stands in the grammar of tags, attributes and raw
/// text. It decides how the next character is read.
#[derive(Debug, Clone, Copy, PartialEq, Eq, Structural)]
pub enum State {
    /// Plain text.
    Data,
    /// After `<`.
    TagOpen,
    /// After `</`.
    EndTagOpen,
    /// Inside the name of a tag.
    TagName,
    /// After the blank that ends a tag's name or an attribute's value.
    BeforeAttributeName,
    /// Inside the name of an attribute.
    AttributeName,
    /// After the name of an attribute.
    AfterAttributeName,
    /// After `=`.
    BeforeAttributeValue,
    /// Inside a value that began with `"`.
    AttributeValueDoubleQuoted,
    /// Inside a value that began with `'`.
    AttributeValueSingleQuoted,
    /// Inside a value without quotes.
    AttributeValueUnquoted,
    /// After the quote that closes a value.
    AfterAttributeValueQuoted,
    /// After `/` inside a tag.
    SelfClosingStartTag,
    /// Raw text: `<` starts nothing but a closing tag.
    ScriptData,
    /// After `<` in raw text.
    ScriptDataLessThanSign,
    /// After `</` in raw text.
    ScriptDataEndTagOpen,
    /// Inside the name of a closing tag in raw text.
    ScriptDataEndTagName,
    /// Handing back, one by one, the characters of a closing tag in raw text
    /// that turned out not to be one.
    TemporaryBuffer,
}

impl State {
    /// In this state a tag is under construction.
    pub open spec fn builds_tag(self) -> bool {
        match self {
            State::TagName
            | State::BeforeAttributeName
            | State::AttributeName
            | State::AfterAttributeName
            | State::BeforeAttributeValue
            | State::AttributeValueDoubleQuoted
            | State::AttributeValueSingleQuoted
            | State::AttributeValueUnquoted
            | State::AfterAttributeValueQuoted
            | State::SelfClosingStartTag
            | State::ScriptDataEndTagName => true,
            _ => false,
        }
    }

    /// In this state characters go to the last attribute of the tag, so a
    /// start tag has one.
    pub open spec fn fills_attribute(self) -> bool {
        match self {
            State::AttributeName
            | State::BeforeAttributeValue
            | State::AttributeValueDoubleQuoted
            | State::AttributeValueSingleQuoted
            | State::AttributeValueUnquoted => true,
            _ => false,
        }
    }
}

/// Reads markup text and hands out its tokens one at a time.
///
/// A tokenizer is made once, from the whole text, and is driven to the end by
/// calls of [`HtmlTokenizer::next`]. It cannot be rewound.
#[derive(Debug, Clone, PartialEq, Eq)]
pub struct HtmlTokenizer {
    state: State,
    pos: usize,
    reconsume: bool,
    latest_token: Option<HtmlToken>,
    input: Vec<char>,
    buf: Vec<char>,
}

impl View for HtmlTokenizer {
    type V = Machine;

    closed spec fn view(&self) -> Machine {
        Machine {
            state: self.state,
            pos: self.pos as nat,
            reconsume: self.reconsume,
            latest: token_view(self.latest_token),
            input: self.input@,
            buf: self.buf@,
        }
    }
}

impl HtmlTokenizer {
    /// The tokenizer's invariant: that of the machine it stands for.
    pub open spec fn wf(&self) -> bool {
        self@.wf()
    }

    /// A tokenizer at the start of `html`. Any text is accepted.
    pub fn new(html: String) -> (tokenizer: Self)
        ensures
            tokenizer@ == Machine::start(html@),
            tokenizer.wf(),
    {
        Self {
            state: State::Data,
            pos: 0,
            reconsume: false,
            latest_token: None,
            input: chars_of(html.as_str()),
            buf: Vec::new(),
        }
    }

    /// Tells whether every character has been read.
    fn is_eof(&self) -> (r: bool)
        ensures
            r == self@.at_end(),
    {
        self.pos >= self.input.len()
    }

    /// Reads the character at the cursor and moves the cursor past it.
    /// Nothing else changes, whatever the tokenizer was doing.
    fn consume_next_input(&mut self) -> (c: char)
        requires
            !old(self)@.at_end(),
        ensures
            c == old(self)@.input[old(self)@.pos as int],
            final(self)@ == (Machine { pos: old(self)@.pos + 1, ..old(self)@ }),
    {
        let c = self.input[self.pos];
        assert(self.pos < self.input.len());
        self.pos += 1;
        c
    }

    /// Hands back the character read last and leaves the request to look at
    /// it again cleared. The cursor stays, and nothing else changes.
    fn reconsume_input(&mut self) -> (c: char)
        requires
            0 < old(self)@.pos <= old(self)@.input.len(),
        ensures
            c == old(self)@.last_read(),
            final(self)@ == (Machine { reconsume: false, ..old(self)@ }),
    {
        self.reconsume = false;
        self.input[self.pos - 1]
    }

    /// Begins a tag with an empty name: a start tag if `start_tag_token`,
    /// else an end tag. No other tag may be under construction.
    fn create_tag(&mut self, start_tag_token: bool)
        requires
            old(self)@.latest is None,
        ensures
            final(self)@ == old(self)@.begin(
                if start_tag_token {
                    TokenView::start_tag()
                } else {
                    TokenView::end_tag()
                },
            ),
    {
        if start_tag_token {
            let attributes: Vec<Attribute> = Vec::new();
            assert(attribute_views(attributes@) =~= Seq::empty());
            self.latest_token = Some(
                HtmlToken::StartTag { tag: String::new(), self_closing: false, attributes },
            );
        } else {
            self.latest_token = Some(HtmlToken::EndTag { tag: String::new() });
        }
    }

    /// Appends `c` to the name of the tag under construction.
    fn append_tag_name(&mut self, c: char)
        requires
            old(self)@.latest matches Some(t) && t.is_tag(),
        ensures
            final(self)@ == old(self)@.edit(|t: TokenView| t.push_tag(c)),
    {
        match &mut self.latest_token {
            Some(HtmlToken::StartTag { tag, .. }) => tag.push(c),
            Some(HtmlToken::EndTag { tag }) => tag.push(c),
            _ => unreached(),
        }
    }

    /// Marks the start tag under construction as self-closing.
    fn set_self_closing_flag(&mut self)
        requires
            old(self)@.latest matches Some(t) && t is StartTag,
        ensures
            final(self)@ == old(self)@.edit(|t: TokenView| t.mark_self_closing()),
    {
        match &mut self.latest_token {
            Some(HtmlToken::StartTag { self_closing, .. }) => *self_closing = true,
            _ => unreached(),
        }
    }

    /// Takes the tag under construction out of the tokenizer, which then
    /// holds none.
    fn take_latest_token(&mut self) -> (t: Option<HtmlToken>)
        requires
            old(self)@.latest is Some,
        ensures
            t is Some,
            token_view(t) == old(self)@.latest,
            final(self)@ == (Machine { latest: None, ..old(self)@ }),
    {
        self.latest_token.take()
    }

    /// Adds an empty attribute to the end of the list of the start tag under
    /// construction.
    fn start_new_attribute(&mut self)
        requires
            old(self)@.latest matches Some(t) && t is StartTag,
        ensures
            final(self)@ == old(self)@.edit(|t: TokenView| t.open_attribute()),
    {
        match &mut self.latest_token {
            Some(HtmlToken::StartTag { attributes, .. }) => {
                let ghost before = attributes@;
                let a = Attribute::new();
                attributes.push(a);
                assert(attribute_views(attributes@) =~= attribute_views(before).push(
                    AttributeView::empty(),
                ));
            },
            _ => unreached(),
        }
    }

    /// Appends `c` to the last attribute of the start tag under construction:
    /// to its name if `is_name`, else to its value.
    fn append_attribute(&mut self, c: char, is_name: bool)
        requires
            old(self)@.latest matches Some(t) && t.has_attribute(),
        ensures
            final(self)@ == old(self)@.edit(|t: TokenView| t.push_attribute(c, is_name)),
    {
        match &mut self.latest_token {
            Some(HtmlToken::StartTag { attributes, .. }) => {
                let ghost before = attributes@;
                let len: usize = attributes.len();
                attributes[len - 1].add_char(c, is_name);
                assert(attribute_views(attributes@) =~= attribute_views(before).update(
                    len - 1,
                    attribute_views(before).last().add_char(c, is_name),
                ));
            },
            _ => unreached(),
        }
    }

    /// Drops a tag whose end the input does not hold.
    fn abandon(&mut self)
        ensures
            final(self)@ == old(self)@.abandon(),
    {
        if self.latest_token.is_some() {
            self.latest_token = None;
            self.state = State::Data;
            self.buf.clear();
        }
    }

    /// Serves the buffer of a closing tag in raw text that turned out not to
    /// be one: hands out its first character as text, or, when it is empty,
    /// goes back to raw text and hands out nothing.
    fn replay(&mut self) -> (token: Option<HtmlToken>)
        ensures
            final(self)@ == old(self)@.replay().0,
            signal(token) == old(self)@.replay().1,
    {
        if self.buf.len() == 0 {
            self.state = State::ScriptData;
            return None;
        }
        let c = self.buf.remove(0);
        assert(self.buf@ =~= old(self).buf@.drop_first());
        Some(HtmlToken::Char(c))
    }

    /// Tells whether the tag under construction is a start tag.
    fn in_start_tag(&self) -> (r: bool)
        ensures
            r == (self@.latest matches Some(t) && t is StartTag),
    {
        match &self.latest_token {
            Some(HtmlToken::StartTag { .. }) => true,
            _ => false,
        }
    }

    /// `Data`: `<` opens a tag, any other character is text.
    fn on_data(&mut self, c: char) -> (token: Option<HtmlToken>)
        ensures
            final(self)@ == old(self)@.on_data(c).0,
            signal(token) == old(self)@.on_data(c).1,
    {
        if c == '<' {
            self.state = State::TagOpen;
            return None;
        }
        Some(HtmlToken::Char(c))
    }

    /// `TagOpen`: `/` announces an end tag, a letter begins a start tag;
    /// anything else shows that the `<` opened no tag, and is read as text.
    fn on_tag_open(&mut self, c: char) -> (token: Option<HtmlToken>)
        requires
            old(self)@.latest is None,
        ensures
            final(self)@ == old(self)@.on_tag_open(c).0,
            signal(token) == old(self)@.on_tag_open(c).1,
    {
        if c == '/' {
            self.state = State::EndTagOpen;
            return None;
        }
        if is_ascii_alphabetic(c) {
            self.reconsume = true;
            self.state = State::TagName;
            self.create_tag(true);
            return None;
        }
        self.reconsume = true;
        self.state = State::Data;
        None
    }

    /// `EndTagOpen`: a letter begins an end tag; anything else is skipped.
    fn on_end_tag_open(&mut self, c: char) -> (token: Option<HtmlToken>)
        requires
            old(self)@.latest is None,
        ensures
            final(self)@ == old(self)@.on_end_tag_open(c).0,
            signal(token) == old(self)@.on_end_tag_open(c).1,
    {
        if is_ascii_alphabetic(c) {
            self.reconsume = true;
            self.state = State::TagName;
            self.create_tag(false);
        }
        None
    }

    /// `TagName`: a blank, `/` or `>` ends the name; any other character
    /// joins it, capital letters in lower case.
    fn on_tag_name(&mut self, c: char) -> (token: Option<HtmlToken>)
        requires
            old(self)@.latest matches Some(t) && t.is_tag(),
        ensures
            final(self)@ == old(self)@.on_tag_name(c).0,
            signal(token) == old(self)@.on_tag_name(c).1,
    {
        if c == ' ' {
            // <tag attr <- the blank before the attribute
            self.state = State::BeforeAttributeName;
            return None;
        }
        if c == '/' {
            // <tag/
            self.state = State::SelfClosingStartTag;
            return None;
        }
        if c == '>' {
            // <tag>
            self.state = State::Data;
            return self.take_latest_token();
        }
        if is_ascii_uppercase(c) {
            self.append_tag_name(to_ascii_lowercase(c));
            return None;
        }
        self.append_tag_name(c);
        None
    }

    /// `BeforeAttributeName`: `/` and `>` are left to `AfterAttributeName`;
    /// any other character begins the name of a new attribute.
    fn on_before_attribute_name(&mut self, c: char) -> (token: Option<HtmlToken>)
        ensures
            final(self)@ == old(self)@.on_before_attribute_name(c).0,
            signal(token) == old(self)@.on_before_attribute_name(c).1,
    {
        if c == '/' || c == '>' {
            self.reconsume = true;
            self.state = State::AfterAttributeName;
            return None;
        }
        self.reconsume = true;
        self.state = State::AttributeName;
        if self.in_start_tag() {
            self.start_new_attribute();
        }
        None
    }

    /// `AttributeName`: a blank, `/` and `>` end the name and are left to
    /// `AfterAttributeName`; `=` announces the value; any other character
    /// joins the name, capital letters in lower case.
    fn on_attribute_name(&mut self, c: char) -> (token: Option<HtmlToken>)
        requires
            old(self)@.latest matches Some(t) && (t is StartTag ==> t.has_attribute()),
        ensures
            final(self)@ == old(self)@.on_attribute_name(c).0,
            signal(token) == old(self)@.on_attribute_name(c).1,
    {
        if c == ' ' || c == '/' || c == '>' {
            // <tag disabled>
            self.reconsume = true;
            self.state = State::AfterAttributeName;
            return None;
        }
        if c == '=' {
            // <tag attr=
            self.state = State::BeforeAttributeValue;
            return None;
        }
        if self.in_start_tag() {
            if is_ascii_uppercase(c) {
                self.append_attribute(to_ascii_lowercase(c), true);
                return None;
            }
            self.append_attribute(c, true);
        }
        None
    }

    /// `AfterAttributeName`: blanks are skipped, `/`, `=` and `>` lead on;
    /// any other character begins the name of a new attribute.
    fn on_after_attribute_name(&mut self, c: char) -> (token: Option<HtmlToken>)
        requires
            old(self)@.latest is Some,
        ensures
            final(self)@ == old(self)@.on_after_attribute_name(c).0,
            signal(token) == old(self)@.on_after_attribute_name(c).1,
    {
        if c == ' ' {
            return None;
        }
        if c == '/' {
            // <tag disabled/
            self.state = State::SelfClosingStartTag;
            return None;
        }
        if c == '=' {
            self.state = State::BeforeAttributeValue;
            return None;
        }
        if c == '>' {
            // <tag attr >
            self.state = State::Data;
            return self.take_latest_token();
        }
        // <tag attr1="value" a
        self.reconsume = true;
        self.state = State::AttributeName;
        if self.in_start_tag() {
            self.start_new_attribute();
        }
        None
    }

    /// `BeforeAttributeValue`: blanks are skipped, a quote opens a quoted
    /// value; any other character begins a value without quotes.
    fn on_before_attribute_value(&mut self, c: char) -> (token: Option<HtmlToken>)
        ensures
            final(self)@ == old(self)@.on_before_attribute_value(c).0,
            signal(token) == old(self)@.on_before_attribute_value(c).1,
    {
        if c == ' ' {
            return None;
        }
        if c == '"' {
            // <tag attr="
            self.state = State::AttributeValueDoubleQuoted;
            return None;
        }
        if c == '\'' {
            // <tag attr='
            self.state = State::AttributeValueSingleQuoted;
            return None;
        }
        // <tag attr=a
        self.reconsume = true;
        self.state = State::AttributeValueUnquoted;
        None
    }

    /// A value between quotes: the same `quote` closes it; any other
    /// character joins the value as it is.
    fn on_attribute_value_quoted(&mut self, c: char, quote: char) -> (token: Option<HtmlToken>)
        requires
            old(self)@.latest matches Some(t) && (t is StartTag ==> t.has_attribute()),
        ensures
            final(self)@ == old(self)@.on_attribute_value_quoted(c, quote).0,
            signal(token) == old(self)@.on_attribute_value_quoted(c, quote).1,
    {
        if c == quote {
            self.state = State::AfterAttributeValueQuoted;
            return None;
        }
        if self.in_start_tag() {
            self.append_attribute(c, false);
        }
        None
    }

    /// `AttributeValueUnquoted`: a blank ends the value, `>` finishes the
    /// tag; any other character joins the value as it is.
    fn on_attribute_value_unquoted(&mut self, c: char) -> (token: Option<HtmlToken>)
        requires
            old(self)@.latest matches Some(t) && (t is StartTag ==> t.has_attribute()),
        ensures
            final(self)@ == old(self)@.on_attribute_value_unquoted(c).0,
            signal(token) == old(self)@.on_attribute_value_unquoted(c).1,
    {
        if c == ' ' {
            self.state = State::BeforeAttributeName;
            return None;
        }
        if c == '>' {
            self.state = State::Data;
            return self.take_latest_token();
        }
        if self.in_start_tag() {
            self.append_attribute(c, false);
        }
        None
    }

    /// `AfterAttributeValueQuoted`: a blank, `/` and `>` lead on; any other
    /// character is left to `BeforeAttributeName`.
    fn on_after_attribute_value_quoted(&mut self, c: char) -> (token: Option<HtmlToken>)
        requires
            old(self)@.latest is Some,
        ensures
            final(self)@ == old(self)@.on_after_attribute_value_quoted(c).0,
            signal(token) == old(self)@.on_after_attribute_value_quoted(c).1,
    {
        if c == ' ' {
            self.state = State::BeforeAttributeName;
            return None;
        }
        if c == '/' {
            self.state = State::SelfClosingStartTag;
            return None;
        }
        if c == '>' {
            self.state = State::Data;
            return self.take_latest_token();
        }
        self.reconsume = true;
        self.state = State::BeforeAttributeName;
        None
    }

    /// `SelfClosingStartTag`: `>` marks the start tag self-closing and
    /// finishes it; anything else is skipped.
    fn on_self_closing_start_tag(&mut self, c: char) -> (token: Option<HtmlToken>)
        requires
            old(self)@.latest is Some,
        ensures
            final(self)@ == old(self)@.on_self_closing_start_tag(c).0,
            signal(token) == old(self)@.on_self_closing_start_tag(c).1,
    {
        if c == '>' {
            if self.in_start_tag() {
                self.set_self_closing_flag();
            }
            self.state = State::Data;
            return self.take_latest_token();
        }
        None
    }

    /// `ScriptData`: `<` may open a closing tag, any other character is
    /// text.
    fn on_script_data(&mut self, c: char) -> (token: Option<HtmlToken>)
        ensures
            final(self)@ == old(self)@.on_script_data(c).0,
            signal(token) == old(self)@.on_script_data(c).1,
    {
        if c == '<' {
            self.state = State::ScriptDataLessThanSign;
            return None;
        }
        Some(HtmlToken::Char(c))
    }

    /// `ScriptDataLessThanSign`: `/` goes on towards a closing tag, with an
    /// empty buffer; otherwise the `<` was text.
    fn on_script_data_less_than_sign(&mut self, c: char) -> (token: Option<HtmlToken>)
        ensures
            final(self)@ == old(self)@.on_script_data_less_than_sign(c).0,
            signal(token) == old(self)@.on_script_data_less_than_sign(c).1,
    {
        if c == '/' {
            self.buf.clear();
            self.state = State::ScriptDataEndTagOpen;
            return None;
        }
        self.reconsume = true;
        self.state = State::ScriptData;
        Some(HtmlToken::Char('<'))
    }

    /// `ScriptDataEndTagOpen`: a letter begins an end tag; otherwise `<` is
    /// handed out as text.
    fn on_script_data_end_tag_open(&mut self, c: char) -> (token: Option<HtmlToken>)
        requires
            old(self)@.latest is None,
        ensures
            final(self)@ == old(self)@.on_script_data_end_tag_open(c).0,
            signal(token) == old(self)@.on_script_data_end_tag_open(c).1,
    {
        if is_ascii_alphabetic(c) {
            self.reconsume = true;
            self.state = State::ScriptDataEndTagName;
            self.create_tag(false);
            return None;
        }
        self.reconsume = true;
        self.state = State::ScriptData;
        Some(HtmlToken::Char('<'))
    }

    /// `ScriptDataEndTagName`: `>` finishes the end tag; a letter joins the
    /// name and is kept in the buffer; any other character shows that this
    /// was no closing tag, and what was read of it is put up to be handed
    /// out as text.
    fn on_script_data_end_tag_name(&mut self, c: char) -> (token: Option<HtmlToken>)
        requires
            old(self)@.latest matches Some(t) && t.is_tag(),
        ensures
            final(self)@ == old(self)@.on_script_data_end_tag_name(c).0,
            signal(token) == old(self)@.on_script_data_end_tag_name(c).1,
    {
        if c == '>' {
            self.buf.clear();
            self.state = State::Data;
            return self.take_latest_token();
        }
        if is_ascii_alphabetic(c) {
            self.buf.push(c);
            self.append_tag_name(to_ascii_lowercase(c));
            return None;
        }
        self.state = State::TemporaryBuffer;
        self.latest_token = None;
        self.buf.insert(0, '<');
        self.buf.push(c);
        assert(self.buf@ =~= seq!['<'] + old(self).buf@.push(c));
        None
    }

    /// Hands out the next token, or `None` when the input is used up.
    ///
    /// Each call takes up the work where the last one left it and goes on,
    /// character by character, until a token is complete: the result is that
    /// of [`Machine::run`] on the tokenizer's state, which is left as `run`
    /// leaves it. For every text this means:
    ///
    /// - The text is kept and the cursor never moves back.
    /// - A token is one character of text or a tag, never `Eof`. The name of
    ///   a tag and the names of its attributes hold no ASCII capital letter.
    /// - A tag is handed out only when its closing `>` has just been read.
    /// - When the input ends inside a tag, the unfinished tag is dropped and
    ///   the stream ends: `None` comes back and nothing is left under
    ///   construction.
    ///
    /// An end tag carries neither attributes nor a self-closing mark: what
    /// the text holds of them is read and dropped.
    pub fn next(&mut self) -> (token: Option<HtmlToken>)
        requires
            old(self).wf(),
        ensures
            final(self).wf(),
            final(self)@ == old(self)@.run().0,
            token_view(token) == old(self)@.run().1,
            final(self)@.input == old(self)@.input,
            final(self)@.pos >= old(self)@.pos,
            token matches Some(t) ==> (t@.is_tag() || t@ is Char) && t@.names_folded(),
            token matches Some(t) && t@.is_tag() ==> final(self)@.closed_a_tag(),
            token is None ==> final(self)@.exhausted() && final(self)@.latest is None,
    {
        proof {
            lemma_run(self@);
        }
        loop
            invariant
                self.wf(),
                self@.run() == old(self)@.run(),
                run_keeps_its_word(old(self)@),
            decreases self@.work_left(),
        {
            proof {
                reveal(Machine::step);
                lemma_step_keeps_wf(self@);
                lemma_step_uses_work(self@);
            }
            let token = if self.state == State::TemporaryBuffer {
                self.replay()
            } else {
                if !self.reconsume && self.is_eof() {
                    self.abandon();
                    return None;
                }
                let c = match self.reconsume {
                    true => self.reconsume_input(),
                    false => self.consume_next_input(),
                };
                match self.state {
                    State::Data => self.on_data(c),
                    State::TagOpen => self.on_tag_open(c),
                    State::EndTagOpen => self.on_end_tag_open(c),
                    State::TagName => self.on_tag_name(c),
                    State::BeforeAttributeName => self.on_before_attribute_name(c),
                    State::AttributeName => self.on_attribute_name(c),
                    State::AfterAttributeName => self.on_after_attribute_name(c),
                    State::BeforeAttributeValue => self.on_before_attribute_value(c),
                    State::AttributeValueDoubleQuoted => self.on_attribute_value_quoted(c, '"'),
                    State::AttributeValueSingleQuoted => self.on_attribute_value_quoted(c, '\''),
                    State::AttributeValueUnquoted => self.on_attribute_value_unquoted(c),
                    State::AfterAttributeValueQuoted => self.on_after_attribute_value_quoted(c),
                    State::SelfClosingStartTag => self.on_self_closing_start_tag(c),
                    State::ScriptData => self.on_script_data(c),
                    State::ScriptDataLessThanSign => self.on_script_data_less_than_sign(c),
                    State::ScriptDataEndTagOpen => self.on_script_data_end_tag_open(c),
                    State::ScriptDataEndTagName => self.on_script_data_end_tag_name(c),
                    State::TemporaryBuffer => unreached(),
                }
            };
            if token.is_some() {
                return token;
            }
        }
    }

    /// Runs the tokenizer to the end of the input and hands back every token
    /// that was still to come, in order.
    pub fn drain(&mut self) -> (tokens: Vec<HtmlToken>)
        requires
            old(self).wf(),
        ensures
            final(self).wf(),
            token_views(tokens@) == old(self)@.tokens(),
            final(self)@ == old(self)@.drained(),
    {
        let mut tokens: Vec<HtmlToken> = Vec::new();
        loop
            invariant
                self.wf(),
                token_views(tokens@) + self@.tokens() == old(self)@.tokens(),
                self@.drained() == old(self)@.drained(),
            decreases self@.work_left(),
        {
            proof {
                lemma_run_uses_work(self@);
            }
            let ghost before = token_views(tokens@);
            match self.next() {
                Some(t) => {
                    tokens.push(t);
                    assert(token_views(tokens@) =~= before + seq![t@]);
                },
                None => {
                    assert(token_views(tokens@) =~= old(self)@.tokens());
                    return tokens;
                },
            }
        }
    }

    /// Goes over to raw text, in which `<` starts nothing but a closing tag.
    /// The consumer of the tokens calls this after the start tag of an
    /// element whose content is not markup; the end tag that closes it brings
    /// the tokenizer back to `Data`.
    ///
    /// It may be called at any time: a tag under construction is dropped,
    /// and so are buffered characters that were not handed out yet. The
    /// cursor stays where it is.
    pub fn switch_to_script_data(&mut self)
        requires
            old(self).wf(),
        ensures
            final(self).wf(),
            final(self)@ == old(self)@.enter_raw_text(),
    {
        self.state = State::ScriptData;
        self.latest_token = None;
        self.buf.clear();
    }
}

} // verus!
