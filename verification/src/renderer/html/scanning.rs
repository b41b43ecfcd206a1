//! How the machine gets through the parts of a tag: facts about runs of
//! transitions that hand out nothing.

use super::ascii::{is_alpha, lower, lowered};
use super::attribute::AttributeView;
use super::machine::{Machine, Signal};
use super::token::{State, TokenView};
use vstd::prelude::*;

verus! {

/// Every character of `s` satisfies `p`.
pub open spec fn all_chars(s: Seq<char>, p: spec_fn(char) -> bool) -> bool {
    forall|i: int| 0 <= i < s.len() ==> p(#[trigger] s[i])
}

/// `c` can stand inside the name of a tag: it is no blank, `/` or `>`.
pub open spec fn name_char(c: char) -> bool {
    c != ' ' && c != '/' && c != '>'
}

/// `c` can stand inside the name of an attribute: it can stand inside the
/// name of a tag and is not `=`.
pub open spec fn attribute_name_char(c: char) -> bool {
    name_char(c) && c != '='
}

/// `c` can stand inside a value without quotes: it is no blank and no `>`.
pub open spec fn value_char(c: char) -> bool {
    c != ' ' && c != '>'
}

/// `name` can be the name of a tag: it begins with an ASCII letter and holds
/// no blank, `/` or `>`.
pub open spec fn tag_name(name: Seq<char>) -> bool {
    name.len() > 0 && is_alpha(name[0]) && all_chars(name, |c: char| name_char(c))
}

/// `name` can be the name of an attribute: it is not empty and holds no
/// blank, `/`, `>` or `=`.
pub open spec fn attribute_name(name: Seq<char>) -> bool {
    name.len() > 0 && all_chars(name, |c: char| attribute_name_char(c))
}

/// `value` can stand between two `quote`s: `quote` is `"` or `'`, and
/// `value` does not hold it.
pub open spec fn quoted_value(quote: char, value: Seq<char>) -> bool {
    (quote == '"' || quote == '\'') && all_chars(value, |c: char| c != quote)
}

/// `value` can stand without quotes: it is not empty, does not begin with a
/// quote, and holds no blank and no `>`.
pub open spec fn unquoted_value(value: Seq<char>) -> bool {
    &&& value.len() > 0
    &&& value[0] != '"'
    &&& value[0] != '\''
    &&& all_chars(value, |c: char| value_char(c))
}

/// A transition that hands out nothing changes nothing of what the run
/// hands out.
pub proof fn lemma_run_goes_on(m: Machine, next: Machine)
    requires
        m.step() == (next, Signal::Continue),
    ensures
        m.run() == next.run(),
{
}

/// A machine that reads `a` and then `b` reads `a`, and once past it reads
/// `b`.
pub proof fn lemma_reads_in_turn(m: Machine, a: Seq<char>, b: Seq<char>)
    requires
        m.reads(a + b),
    ensures
        m.reads(a),
        m.skip(a.len()).reads(b),
{
    let whole = m.ahead((a + b).len());
    assert(m.ahead(a.len()) =~= a) by {
        assert forall|i: int| 0 <= i < a.len() implies m.ahead(a.len())[i] == a[i] by {
            assert(whole[i] == (a + b)[i]);
        }
    }
    assert(m.skip(a.len()).ahead(b.len()) =~= b) by {
        assert forall|i: int| 0 <= i < b.len() implies m.skip(a.len()).ahead(b.len())[i]
            == b[i] by {
            assert(whole[a.len() + i] == (a + b)[a.len() + i]);
        }
    }
}

/// Adding no characters changes nothing.
pub proof fn lemma_extend_by_nothing(t: TokenView)
    ensures
        t.extend_tag(Seq::empty()) == t,
        t.extend_attribute(Seq::empty(), true) == t,
        t.extend_attribute(Seq::empty(), false) == t,
{
    match t {
        TokenView::StartTag { tag, self_closing, attributes } => {
            assert(tag + Seq::<char>::empty() =~= tag);
            if attributes.len() > 0 {
                let last = attributes.last();
                assert(last.name + Seq::<char>::empty() =~= last.name);
                assert(last.value + Seq::<char>::empty() =~= last.value);
                assert(attributes.update(attributes.len() - 1, last) =~= attributes);
            }
        },
        TokenView::EndTag { tag } => {
            assert(tag + Seq::<char>::empty() =~= tag);
        },
        _ => {},
    }
}

/// Adding one character and then some more is adding them all at once.
pub proof fn lemma_extend_after_push(t: TokenView, c: char, s: Seq<char>)
    ensures
        t.push_tag(c).extend_tag(s) == t.extend_tag(seq![c] + s),
        t.push_attribute(c, true).extend_attribute(s, true) == t.extend_attribute(
            seq![c] + s,
            true,
        ),
        t.push_attribute(c, false).extend_attribute(s, false) == t.extend_attribute(
            seq![c] + s,
            false,
        ),
{
    match t {
        TokenView::StartTag { tag, self_closing, attributes } => {
            assert(tag.push(c) + s =~= tag + (seq![c] + s));
            if attributes.len() > 0 {
                let last = attributes.last();
                let n: int = attributes.len() - 1;
                assert(last.name.push(c) + s =~= last.name + (seq![c] + s));
                assert(last.value.push(c) + s =~= last.value + (seq![c] + s));
                assert(attributes.update(n, last.add_char(c, true)).update(
                    n,
                    AttributeView { name: last.name.push(c) + s, value: last.value },
                ) =~= attributes.update(
                    n,
                    AttributeView { name: last.name + (seq![c] + s), value: last.value },
                ));
                assert(attributes.update(n, last.add_char(c, false)).update(
                    n,
                    AttributeView { name: last.name, value: last.value.push(c) + s },
                ) =~= attributes.update(
                    n,
                    AttributeView { name: last.name, value: last.value + (seq![c] + s) },
                ));
            }
        },
        TokenView::EndTag { tag } => {
            assert(tag.push(c) + s =~= tag + (seq![c] + s));
        },
        _ => {},
    }
}

/// Inside the name of a tag, characters that can stand there join the name
/// in lower case, and nothing else happens.
pub proof fn lemma_scan_tag_name(m: Machine, k: nat)
    requires
        m.state == State::TagName,
        !m.reconsume,
        m.latest is Some,
        m.pos + k <= m.input.len(),
        all_chars(m.ahead(k), |c: char| name_char(c)),
    ensures
        m.run() == m.skip(k).edit(|t: TokenView| t.extend_tag(lowered(m.ahead(k)))).run(),
    decreases k,
{
    let t = m.latest->0;
    if k == 0 {
        assert(m.ahead(0) =~= Seq::<char>::empty());
        assert(t.extend_tag(lowered(m.ahead(0))) == t) by {
            lemma_extend_by_nothing(t);
        }
        assert(m.skip(0).edit(|t: TokenView| t.extend_tag(lowered(m.ahead(0)))) == m);
    } else {
        let c = m.input[m.pos as int];
        assert(c == m.ahead(k)[0]);
        let next = m.skip(1).edit(|t: TokenView| t.push_tag(lower(c)));
        assert(m.step() == (next, Signal::Continue)) by {
            reveal(Machine::step);
        }
        lemma_run_goes_on(m, next);
        let rest: nat = (k - 1) as nat;
        assert forall|i: int| 0 <= i < rest implies name_char(#[trigger] next.ahead(rest)[i]) by {
            assert(next.ahead(rest)[i] == m.ahead(k)[i + 1]);
        }
        lemma_scan_tag_name(next, rest);
        assert(lowered(m.ahead(k)) =~= seq![lower(c)] + lowered(next.ahead(rest)));
        assert(t.push_tag(lower(c)).extend_tag(lowered(next.ahead(rest))) == t.extend_tag(
            lowered(m.ahead(k)),
        )) by {
            lemma_extend_after_push(t, lower(c), lowered(next.ahead(rest)));
        }
        assert(next.skip(rest).edit(|t: TokenView| t.extend_tag(lowered(next.ahead(rest))))
            == m.skip(k).edit(|t: TokenView| t.extend_tag(lowered(m.ahead(k)))));
    }
}

/// Inside the name of an attribute, characters that can stand there join the
/// name in lower case, and nothing else happens.
pub proof fn lemma_scan_attribute_name(m: Machine, k: nat)
    requires
        m.state == State::AttributeName,
        !m.reconsume,
        m.latest is Some,
        m.pos + k <= m.input.len(),
        all_chars(m.ahead(k), |c: char| attribute_name_char(c)),
    ensures
        m.run() == m.skip(k).edit(
            |t: TokenView| t.extend_attribute(lowered(m.ahead(k)), true),
        ).run(),
    decreases k,
{
    let t = m.latest->0;
    if k == 0 {
        assert(m.ahead(0) =~= Seq::<char>::empty());
        assert(t.extend_attribute(lowered(m.ahead(0)), true) == t) by {
            lemma_extend_by_nothing(t);
        }
        assert(m.skip(0).edit(|t: TokenView| t.extend_attribute(lowered(m.ahead(0)), true))
            == m);
    } else {
        let c = m.input[m.pos as int];
        assert(c == m.ahead(k)[0]);
        let next = m.skip(1).edit(|t: TokenView| t.push_attribute(lower(c), true));
        assert(m.step() == (next, Signal::Continue)) by {
            reveal(Machine::step);
        }
        lemma_run_goes_on(m, next);
        let rest: nat = (k - 1) as nat;
        assert forall|i: int| 0 <= i < rest implies attribute_name_char(
            #[trigger] next.ahead(rest)[i],
        ) by {
            assert(next.ahead(rest)[i] == m.ahead(k)[i + 1]);
        }
        lemma_scan_attribute_name(next, rest);
        assert(lowered(m.ahead(k)) =~= seq![lower(c)] + lowered(next.ahead(rest)));
        assert(t.push_attribute(lower(c), true).extend_attribute(lowered(next.ahead(rest)), true)
            == t.extend_attribute(lowered(m.ahead(k)), true)) by {
            lemma_extend_after_push(t, lower(c), lowered(next.ahead(rest)));
        }
        assert(next.skip(rest).edit(
            |t: TokenView| t.extend_attribute(lowered(next.ahead(rest)), true),
        ) == m.skip(k).edit(|t: TokenView| t.extend_attribute(lowered(m.ahead(k)), true)));
    }
}

/// The state in which a value that began with `quote` is read.
pub open spec fn value_state(quote: char) -> State {
    if quote == '"' {
        State::AttributeValueDoubleQuoted
    } else {
        State::AttributeValueSingleQuoted
    }
}

/// Inside a quoted value, every character but the quote joins the value as
/// it is, and nothing else happens.
pub proof fn lemma_scan_quoted_value(m: Machine, k: nat, quote: char)
    requires
        quote == '"' || quote == '\'',
        m.state == value_state(quote),
        !m.reconsume,
        m.latest is Some,
        m.pos + k <= m.input.len(),
        all_chars(m.ahead(k), |c: char| c != quote),
    ensures
        m.run() == m.skip(k).edit(|t: TokenView| t.extend_attribute(m.ahead(k), false)).run(),
    decreases k,
{
    let t = m.latest->0;
    if k == 0 {
        assert(m.ahead(0) =~= Seq::<char>::empty());
        assert(t.extend_attribute(m.ahead(0), false) == t) by {
            lemma_extend_by_nothing(t);
        }
        assert(m.skip(0).edit(|t: TokenView| t.extend_attribute(m.ahead(0), false)) == m);
    } else {
        let c = m.input[m.pos as int];
        assert(c == m.ahead(k)[0]);
        let next = m.skip(1).edit(|t: TokenView| t.push_attribute(c, false));
        assert(m.step() == (next, Signal::Continue)) by {
            reveal(Machine::step);
        }
        lemma_run_goes_on(m, next);
        let rest: nat = (k - 1) as nat;
        assert forall|i: int| 0 <= i < rest implies #[trigger] next.ahead(rest)[i] != quote by {
            assert(next.ahead(rest)[i] == m.ahead(k)[i + 1]);
        }
        lemma_scan_quoted_value(next, rest, quote);
        assert(m.ahead(k) =~= seq![c] + next.ahead(rest));
        assert(t.push_attribute(c, false).extend_attribute(next.ahead(rest), false)
            == t.extend_attribute(m.ahead(k), false)) by {
            lemma_extend_after_push(t, c, next.ahead(rest));
        }
        assert(next.skip(rest).edit(|t: TokenView| t.extend_attribute(next.ahead(rest), false))
            == m.skip(k).edit(|t: TokenView| t.extend_attribute(m.ahead(k), false)));
    }
}

/// Inside a value without quotes, characters that can stand there join the
/// value as they are, and nothing else happens.
pub proof fn lemma_scan_unquoted_value(m: Machine, k: nat)
    requires
        m.state == State::AttributeValueUnquoted,
        !m.reconsume,
        m.latest is Some,
        m.pos + k <= m.input.len(),
        all_chars(m.ahead(k), |c: char| value_char(c)),
    ensures
        m.run() == m.skip(k).edit(|t: TokenView| t.extend_attribute(m.ahead(k), false)).run(),
    decreases k,
{
    let t = m.latest->0;
    if k == 0 {
        assert(m.ahead(0) =~= Seq::<char>::empty());
        assert(t.extend_attribute(m.ahead(0), false) == t) by {
            lemma_extend_by_nothing(t);
        }
        assert(m.skip(0).edit(|t: TokenView| t.extend_attribute(m.ahead(0), false)) == m);
    } else {
        let c = m.input[m.pos as int];
        assert(c == m.ahead(k)[0]);
        let next = m.skip(1).edit(|t: TokenView| t.push_attribute(c, false));
        assert(m.step() == (next, Signal::Continue)) by {
            reveal(Machine::step);
        }
        lemma_run_goes_on(m, next);
        let rest: nat = (k - 1) as nat;
        assert forall|i: int| 0 <= i < rest implies value_char(#[trigger] next.ahead(rest)[i]) by {
            assert(next.ahead(rest)[i] == m.ahead(k)[i + 1]);
        }
        lemma_scan_unquoted_value(next, rest);
        assert(m.ahead(k) =~= seq![c] + next.ahead(rest));
        assert(t.push_attribute(c, false).extend_attribute(next.ahead(rest), false)
            == t.extend_attribute(m.ahead(k), false)) by {
            lemma_extend_after_push(t, c, next.ahead(rest));
        }
        assert(next.skip(rest).edit(|t: TokenView| t.extend_attribute(next.ahead(rest), false))
            == m.skip(k).edit(|t: TokenView| t.extend_attribute(m.ahead(k), false)));
    }
}

/// The text that opens a tag: `<` for a start tag, `</` for an end tag.
pub open spec fn opening(start: bool) -> Seq<char> {
    if start {
        seq!['<']
    } else {
        seq!['<', '/']
    }
}

/// The tag that `opening(start)` and then `name` build.
pub open spec fn named_tag(start: bool, name: Seq<char>) -> TokenView {
    if start {
        TokenView::StartTag { tag: lowered(name), self_closing: false, attributes: Seq::empty() }
    } else {
        TokenView::EndTag { tag: lowered(name) }
    }
}

/// The machine `m` once it has read the opening of a tag and its `name`: in
/// `TagName`, with that tag under construction.
pub open spec fn past_name(m: Machine, start: bool, name: Seq<char>) -> Machine {
    Machine {
        state: State::TagName,
        latest: Some(named_tag(start, name)),
        ..m.skip(opening(start).len() + name.len())
    }
}

/// From `Data`, the opening of a tag and its name lead to `TagName` with
/// that tag under construction, its name in lower case.
pub proof fn lemma_tag_is_opened(m: Machine, start: bool, name: Seq<char>)
    requires
        m.state == State::Data,
        !m.reconsume,
        m.latest is None,
        tag_name(name),
        m.reads(opening(start) + name),
    ensures
        m.run() == past_name(m, start, name).run(),
{
    let open = opening(start);
    lemma_reads_in_turn(m, open, name);
    assert(m.ahead(open.len())[0] == '<');
    assert(name_char(name[0]));
    // `<`
    let m1 = m.skip(1).goto(State::TagOpen);
    assert(m.step() == (m1, Signal::Continue)) by {
        reveal(Machine::step);
    }
    lemma_run_goes_on(m, m1);
    // `/`, for an end tag
    let m2 = if start {
        m1
    } else {
        m1.skip(1).goto(State::EndTagOpen)
    };
    if !start {
        assert(m.ahead(open.len())[1] == '/');
        assert(m1.step() == (m2, Signal::Continue)) by {
            reveal(Machine::step);
        }
        lemma_run_goes_on(m1, m2);
    }
    assert(m2 == m.skip(open.len()).goto(m2.state));
    // the first letter is seen, and a tag begun
    let first = name[0];
    assert(m2.input[m2.pos as int] == first) by {
        assert(m2.ahead(name.len())[0] == name[0]);
    }
    let empty = if start {
        TokenView::start_tag()
    } else {
        TokenView::end_tag()
    };
    let m3 = m2.skip(1).again(State::TagName).begin(empty);
    assert(m2.step() == (m3, Signal::Continue)) by {
        reveal(Machine::step);
    }
    lemma_run_goes_on(m2, m3);
    // the first letter joins the name
    let m4 = Machine { reconsume: false, latest: Some(empty.push_tag(lower(first))), ..m3 };
    assert(m3.step() == (m4, Signal::Continue)) by {
        reveal(Machine::step);
    }
    lemma_run_goes_on(m3, m4);
    // and so do the others
    let rest: nat = (name.len() - 1) as nat;
    assert(m4.ahead(rest) =~= name.subrange(1, name.len() as int)) by {
        assert forall|i: int| 0 <= i < rest implies m4.ahead(rest)[i] == name[i + 1] by {
            assert(m2.ahead(name.len())[i + 1] == name[i + 1]);
        }
    }
    lemma_scan_tag_name(m4, rest);
    assert(seq![lower(first)] + lowered(m4.ahead(rest)) =~= lowered(name));
    assert(empty.push_tag(lower(first)).extend_tag(lowered(m4.ahead(rest))) == named_tag(
        start,
        name,
    )) by {
        lemma_extend_after_push(empty, lower(first), lowered(m4.ahead(rest)));
        assert(Seq::<char>::empty() + lowered(name) =~= lowered(name));
    }
    assert(m4.skip(rest).edit(|t: TokenView| t.extend_tag(lowered(m4.ahead(rest)))) == past_name(
        m,
        start,
        name,
    ));
}

} // verus!
