//! Laws of raw text: what the machine does with `<` once it has gone over to
//! `ScriptData`.

use super::ascii::{is_alpha, lower, lowered};
use super::laws::{char_token, text_tokens};
use super::machine::{Machine, Signal};
use super::scanning::{
    all_chars, lemma_extend_after_push, lemma_extend_by_nothing, lemma_reads_in_turn,
    lemma_run_goes_on, named_tag,
};
use super::token::{State, TokenView};
use vstd::prelude::*;

verus! {

/// `name` can be the name of a closing tag in raw text: it is not empty and
/// holds ASCII letters only.
pub open spec fn letters(name: Seq<char>) -> bool {
    name.len() > 0 && all_chars(name, |c: char| is_alpha(c))
}

/// The machine `m`, which is building a closing tag in raw text, once it has
/// read the letters `s`: they have joined the name in lower case, and the
/// buffer as they were written.
pub open spec fn past_letters(m: Machine, s: Seq<char>) -> Machine {
    Machine {
        buf: m.buf + s,
        ..m.skip(s.len()).edit(|t: TokenView| t.extend_tag(lowered(s)))
    }
}

/// In raw text, `<` that is not followed by `/` is text: it comes out as
/// `Char('<')`, and the character after it is read as raw text.
pub proof fn lemma_less_than_is_text(m: Machine, c: char)
    requires
        m.state == State::ScriptData,
        !m.reconsume,
        c != '/',
        m.reads(seq!['<', c]),
    ensures
        m.run() == (m.skip(2).again(State::ScriptData), Some(char_token('<'))),
{
    assert(m.ahead(2)[0] == '<' && m.ahead(2)[1] == c);
    let m1 = m.skip(1).goto(State::ScriptDataLessThanSign);
    assert(m.step() == (m1, Signal::Continue)) by {
        reveal(Machine::step);
    }
    lemma_run_goes_on(m, m1);
    assert(m1.step() == (m.skip(2).again(State::ScriptData), Signal::Emit(char_token('<')))) by {
        reveal(Machine::step);
    }
}

/// Inside the name of a closing tag in raw text, letters join the name in
/// lower case and the buffer as they are, and nothing else happens.
pub proof fn lemma_scan_closing_name(m: Machine, k: nat)
    requires
        m.state == State::ScriptDataEndTagName,
        !m.reconsume,
        m.latest is Some,
        m.pos + k <= m.input.len(),
        all_chars(m.ahead(k), |c: char| is_alpha(c)),
    ensures
        m.run() == past_letters(m, m.ahead(k)).run(),
    decreases k,
{
    let t = m.latest->0;
    if k == 0 {
        assert(m.ahead(0) =~= Seq::<char>::empty());
        assert(m.buf + m.ahead(0) =~= m.buf);
        assert(t.extend_tag(lowered(m.ahead(0))) == t) by {
            lemma_extend_by_nothing(t);
        }
        assert(past_letters(m, m.ahead(0)) == m);
    } else {
        let c = m.input[m.pos as int];
        assert(c == m.ahead(k)[0]);
        let next = Machine {
            buf: m.buf.push(c),
            ..m.skip(1).edit(|t: TokenView| t.push_tag(lower(c)))
        };
        assert(m.step() == (next, Signal::Continue)) by {
            reveal(Machine::step);
        }
        lemma_run_goes_on(m, next);
        let rest: nat = (k - 1) as nat;
        assert forall|i: int| 0 <= i < rest implies is_alpha(#[trigger] next.ahead(rest)[i]) by {
            assert(next.ahead(rest)[i] == m.ahead(k)[i + 1]);
        }
        lemma_scan_closing_name(next, rest);
        assert(m.ahead(k) =~= seq![c] + next.ahead(rest));
        assert(lowered(m.ahead(k)) =~= seq![lower(c)] + lowered(next.ahead(rest)));
        assert(m.buf.push(c) + next.ahead(rest) =~= m.buf + m.ahead(k));
        assert(t.push_tag(lower(c)).extend_tag(lowered(next.ahead(rest))) == t.extend_tag(
            lowered(m.ahead(k)),
        )) by {
            lemma_extend_after_push(t, lower(c), lowered(next.ahead(rest)));
        }
        assert(past_letters(next, next.ahead(rest)) == past_letters(m, m.ahead(k)));
    }
}

/// The machine `m` once it has read, in raw text, `</` and the letters
/// `name`: it is building the end tag `name`, and the buffer holds the
/// letters as they were written.
pub open spec fn past_closing_name(m: Machine, name: Seq<char>) -> Machine {
    Machine {
        state: State::ScriptDataEndTagName,
        latest: Some(named_tag(false, name)),
        buf: name,
        ..m.skip(name.len() + 2)
    }
}

/// In raw text, `</` and letters lead to `ScriptDataEndTagName` with the end
/// tag of that name under construction.
pub proof fn lemma_closing_is_opened(m: Machine, name: Seq<char>)
    requires
        m.state == State::ScriptData,
        !m.reconsume,
        m.latest is None,
        letters(name),
        m.reads(seq!['<', '/'] + name),
    ensures
        m.run() == past_closing_name(m, name).run(),
{
    let open = seq!['<', '/'];
    lemma_reads_in_turn(m, open, name);
    assert(m.ahead(2)[0] == '<' && m.ahead(2)[1] == '/');
    // `<`
    let m1 = m.skip(1).goto(State::ScriptDataLessThanSign);
    assert(m.step() == (m1, Signal::Continue)) by {
        reveal(Machine::step);
    }
    lemma_run_goes_on(m, m1);
    // `/`
    let m2 = Machine { buf: Seq::empty(), ..m1.skip(1).goto(State::ScriptDataEndTagOpen) };
    assert(m1.step() == (m2, Signal::Continue)) by {
        reveal(Machine::step);
    }
    lemma_run_goes_on(m1, m2);
    // the first letter is seen, and an end tag begun
    let first = name[0];
    assert(is_alpha(first));
    assert(m2.input[m2.pos as int] == first) by {
        assert(m.skip(2).ahead(name.len())[0] == first);
    }
    let empty = TokenView::end_tag();
    let m3 = m2.skip(1).again(State::ScriptDataEndTagName).begin(empty);
    assert(m2.step() == (m3, Signal::Continue)) by {
        reveal(Machine::step);
    }
    lemma_run_goes_on(m2, m3);
    // the first letter joins the name and the buffer
    let m4 = Machine {
        reconsume: false,
        latest: Some(empty.push_tag(lower(first))),
        buf: seq![first],
        ..m3
    };
    assert(m3.step() == (m4, Signal::Continue)) by {
        reveal(Machine::step);
        assert(Seq::<char>::empty().push(first) =~= seq![first]);
    }
    lemma_run_goes_on(m3, m4);
    // and so do the others
    let rest: nat = (name.len() - 1) as nat;
    assert(m4.ahead(rest) =~= name.subrange(1, name.len() as int)) by {
        assert forall|i: int| 0 <= i < rest implies m4.ahead(rest)[i] == name[i + 1] by {
            assert(m.skip(2).ahead(name.len())[i + 1] == name[i + 1]);
        }
    }
    lemma_scan_closing_name(m4, rest);
    assert(seq![first] + m4.ahead(rest) =~= name);
    assert(seq![lower(first)] + lowered(m4.ahead(rest)) =~= lowered(name));
    assert(empty.push_tag(lower(first)).extend_tag(lowered(m4.ahead(rest))) == named_tag(
        false,
        name,
    )) by {
        lemma_extend_after_push(empty, lower(first), lowered(m4.ahead(rest)));
        assert(Seq::<char>::empty() + lowered(name) =~= lowered(name));
    }
    assert(past_letters(m4, m4.ahead(rest)) == past_closing_name(m, name));
}

/// A closing tag ends raw text: `</name>` comes out as the end tag `name`,
/// in lower case, and the machine is back in `Data`, just past the `>`, with
/// an empty buffer.
pub proof fn lemma_raw_text_is_closed(m: Machine, name: Seq<char>)
    requires
        m.state == State::ScriptData,
        !m.reconsume,
        m.latest is None,
        letters(name),
        m.reads(seq!['<', '/'] + name + seq!['>']),
    ensures
        m.run() == (
            Machine { state: State::Data, buf: Seq::empty(), ..m.skip(name.len() + 3) },
            Some(named_tag(false, name)),
        ),
{
    let head = seq!['<', '/'] + name;
    lemma_reads_in_turn(m, head, seq!['>']);
    lemma_closing_is_opened(m, name);
    let named = past_closing_name(m, name);
    assert(named.input[named.pos as int] == '>') by {
        assert(m.skip(head.len()).ahead(1)[0] == '>');
    }
    assert(named.step() == (
        Machine { state: State::Data, buf: Seq::empty(), ..m.skip(name.len() + 3) },
        Signal::Emit(named_tag(false, name)),
    )) by {
        reveal(Machine::step);
    }
}

/// The machine `m` in raw text with an empty buffer.
pub open spec fn back_in_raw_text(m: Machine) -> Machine {
    Machine { state: State::ScriptData, buf: Seq::empty(), ..m }
}

/// The buffer is handed out as text, character by character, and then the
/// machine goes on in raw text.
pub proof fn lemma_buffer_is_replayed(m: Machine)
    requires
        m.state == State::TemporaryBuffer,
    ensures
        m.tokens() == text_tokens(m.buf) + back_in_raw_text(m).tokens(),
    decreases m.buf.len(),
{
    let end = back_in_raw_text(m);
    if m.buf.len() == 0 {
        assert(m.buf =~= Seq::<char>::empty());
        assert(m.step() == (end, Signal::Continue)) by {
            reveal(Machine::step);
        }
        lemma_run_goes_on(m, end);
        assert(m.tokens() == end.tokens());
        assert(text_tokens(m.buf) + end.tokens() =~= end.tokens());
    } else {
        let c = m.buf[0];
        let next = Machine { buf: m.buf.drop_first(), ..m };
        assert(m.run() == (next, Some(char_token(c)))) by {
            reveal(Machine::step);
        }
        assert(m.tokens() == seq![char_token(c)] + next.tokens());
        lemma_buffer_is_replayed(next);
        assert(text_tokens(m.buf) =~= seq![char_token(c)] + text_tokens(next.buf));
        assert(seq![char_token(c)] + (text_tokens(next.buf) + end.tokens()) =~= text_tokens(m.buf)
            + end.tokens());
    }
}

/// A closing tag in raw text that turns out not to be one is handed back as
/// text: `</`, letters, and a character `c` that is neither a letter nor `>`
/// come out as `<`, the letters as they were written, and `c`. The `/` is not
/// handed back. The machine then goes on in raw text, past `c`.
pub proof fn lemma_failed_closing_is_text(m: Machine, name: Seq<char>, c: char)
    requires
        m.state == State::ScriptData,
        !m.reconsume,
        m.latest is None,
        letters(name),
        !is_alpha(c),
        c != '>',
        m.reads(seq!['<', '/'] + name + seq![c]),
    ensures
        m.tokens() == text_tokens(seq!['<'] + name + seq![c]) + back_in_raw_text(
            m.skip(name.len() + 3),
        ).tokens(),
{
    let head = seq!['<', '/'] + name;
    lemma_reads_in_turn(m, head, seq![c]);
    lemma_closing_is_opened(m, name);
    let named = past_closing_name(m, name);
    assert(named.input[named.pos as int] == c) by {
        assert(m.skip(head.len()).ahead(1)[0] == c);
    }
    let replaying = Machine {
        state: State::TemporaryBuffer,
        buf: seq!['<'] + name + seq![c],
        ..m.skip(name.len() + 3)
    };
    assert(named.step() == (replaying, Signal::Continue)) by {
        reveal(Machine::step);
        assert(seq!['<'] + name.push(c) =~= seq!['<'] + name + seq![c]);
    }
    lemma_run_goes_on(named, replaying);
    assert(m.run() == replaying.run());
    assert(m.tokens() == replaying.tokens());
    lemma_buffer_is_replayed(replaying);
}

} // verus!
