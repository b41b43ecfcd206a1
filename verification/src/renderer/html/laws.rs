//! Laws of the token stream, proved of the machine that specifies the
//! tokenizer.

use super::machine::{
    lemma_run_uses_work, lemma_step, lemma_step_keeps_wf, lemma_step_uses_work, Machine, Signal,
};
use super::scanning::{all_chars, lemma_reads_in_turn};
use super::token::{State, TokenView};
use vstd::prelude::*;

verus! {

/// The token that stands for the character `c` of text.
pub open spec fn char_token(c: char) -> TokenView {
    TokenView::Char(c)
}

/// The stream that plain text gives: one `Char` for each character, in order.
pub open spec fn text_tokens(s: Seq<char>) -> Seq<TokenView> {
    Seq::new(s.len(), |i: int| char_token(s[i]))
}

/// What a run promises of its result.
///
/// The invariant and the input are kept and the cursor never moves back. A
/// token that comes out is one character of text or a finished tag whose
/// names hold no capital letter, never `Eof`; and a tag comes out only when
/// its closing `>` has just been read. When no token comes out the input is
/// used up and nothing is left under construction.
pub open spec fn run_keeps_its_word(m: Machine) -> bool {
    let (next, token) = m.run();
    &&& next.wf()
    &&& next.input == m.input
    &&& next.pos >= m.pos
    &&& next.unread_from() >= m.unread_from()
    &&& match token {
        Some(t) => {
            &&& (t.is_tag() || t is Char)
            &&& t.names_folded()
            &&& t.is_tag() ==> next.closed_a_tag() && next.pos > m.unread_from()
        },
        None => next.exhausted() && next.latest is None,
    }
}

/// Every run of a well-formed machine keeps its word.
pub proof fn lemma_run(m: Machine)
    requires
        m.wf(),
    ensures
        run_keeps_its_word(m),
    decreases m.work_left(),
{
    lemma_step_keeps_wf(m);
    lemma_step(m);
    lemma_step_uses_work(m);
    if m.step().1 is Continue {
        lemma_run(m.step().0);
    }
}

/// Once the stream has ended it stays ended: a run after the one that handed
/// out nothing hands out nothing again and leaves the machine as it was.
pub proof fn lemma_end_is_final(m: Machine)
    requires
        m.wf(),
        m.run().1 is None,
    ensures
        m.run().0.run() == (m.run().0, None::<TokenView>),
        m.run().0.tokens() == Seq::<TokenView>::empty(),
{
    lemma_run(m);
    let end = m.run().0;
    assert(end.step() == (end, Signal::End)) by {
        reveal(Machine::step);
    }
}

/// A machine that is out of input hands out nothing, whatever state it is in.
pub proof fn lemma_out_of_input(m: Machine)
    requires
        m.exhausted(),
    ensures
        m.run() == (m.abandon(), None::<TokenView>),
        m.tokens() == Seq::<TokenView>::empty(),
{
    reveal(Machine::step);
}

/// Text without `<`, wherever it stands, comes out as it was written, one
/// `Char` for each character in order, and the stream goes on with what comes
/// after it: in `Data` and in raw text alike.
pub proof fn lemma_text_is_read(m: Machine, s: Seq<char>)
    requires
        m.state == State::Data || m.state == State::ScriptData,
        !m.reconsume,
        all_chars(s, |c: char| c != '<'),
        m.reads(s),
    ensures
        m.tokens() == text_tokens(s) + m.skip(s.len()).tokens(),
    decreases s.len(),
{
    if s.len() == 0 {
        assert(m.skip(0) == m);
        assert(text_tokens(s) + m.tokens() =~= m.tokens());
    } else {
        let c = s[0];
        assert(m.input[m.pos as int] == c) by {
            assert(m.ahead(s.len())[0] == c);
        }
        let next = m.skip(1);
        assert(m.run() == (next, Some(char_token(c)))) by {
            reveal(Machine::step);
        }
        assert(m.tokens() == seq![char_token(c)] + next.tokens());
        let rest = s.drop_first();
        assert(s =~= seq![c] + rest);
        lemma_reads_in_turn(m, seq![c], rest);
        lemma_text_is_read(next, rest);
        assert(next.skip(rest.len()) == m.skip(s.len()));
        assert(text_tokens(s) =~= seq![char_token(c)] + text_tokens(rest));
        assert(seq![char_token(c)] + (text_tokens(rest) + m.skip(s.len()).tokens()) =~= text_tokens(
            s,
        ) + m.skip(s.len()).tokens());
    }
}

/// A text without any `<` gives one `Char` for each of its characters, in
/// order, and nothing else: in `Data` and in raw text alike.
pub proof fn lemma_text_comes_out_as_written(input: Seq<char>)
    requires
        all_chars(input, |c: char| c != '<'),
    ensures
        Machine::start(input).tokens() == text_tokens(input),
        Machine::start(input).enter_raw_text().tokens() == text_tokens(input),
{
    let m = Machine::start(input);
    let raw = m.enter_raw_text();
    assert(m.ahead(input.len()) =~= input);
    assert(raw.ahead(input.len()) =~= input);
    lemma_text_is_read(m, input);
    lemma_text_is_read(raw, input);
    lemma_out_of_input(m.skip(input.len()));
    lemma_out_of_input(raw.skip(input.len()));
    assert(text_tokens(input) + Seq::<TokenView>::empty() =~= text_tokens(input));
}

/// A tag that the text does not close never comes out: where no `>` is left
/// to read, the rest of the stream holds no tag.
pub proof fn lemma_no_tag_without_closing(m: Machine)
    requires
        m.wf(),
        forall|i: int| m.unread_from() <= i < m.input.len() ==> m.input[i] != '>',
    ensures
        forall|k: int| 0 <= k < m.tokens().len() ==> !(#[trigger] m.tokens()[k]).is_tag(),
    decreases m.work_left(),
{
    lemma_run(m);
    lemma_run_uses_work(m);
    let (next, token) = m.run();
    match token {
        Some(t) => {
            lemma_no_tag_without_closing(next);
            assert(m.tokens() == seq![t] + next.tokens());
            assert(!t.is_tag());
            assert forall|k: int| 0 <= k < m.tokens().len() implies !(#[trigger] m.tokens()[
                k
            ]).is_tag() by {
                if k > 0 {
                    assert(m.tokens()[k] == next.tokens()[k - 1]);
                }
            }
        },
        None => {
            assert(m.tokens() == Seq::<TokenView>::empty());
        },
    }
}

} // verus!
