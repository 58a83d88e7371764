//! Reading a line of comma-separated gate names.

use crate::gate::Gate;
use vstd::prelude::*;
use vstd::string::*;

verus! {

/// One entry of the input line: a gate, or a text that names none.
#[derive(Debug, PartialEq, Eq)]
pub enum GateToken {
    Known(Gate),
    Unknown(String),
}

/// A token as a value of the model.
pub enum SpecToken {
    Known(Gate),
    Unknown(Seq<char>),
}

impl View for GateToken {
    type V = SpecToken;

    open spec fn view(&self) -> SpecToken {
        match self {
            GateToken::Known(gate) => SpecToken::Known(*gate),
            GateToken::Unknown(text) => SpecToken::Unknown(text@),
        }
    }
}

/// The tokens of a vector as values of the model.
pub open spec fn token_views(tokens: Seq<GateToken>) -> Seq<SpecToken> {
    tokens.map_values(|token: GateToken| token@)
}

/// Spaces and line feeds are dropped wherever they stand in an entry.
pub open spec fn is_blank(c: char) -> bool {
    c == ' ' || c == '\n'
}

/// The test that keeps a character: it is no blank.
pub open spec fn kept() -> spec_fn(char) -> bool {
    |c: char| !is_blank(c)
}

/// `s` without its spaces and line feeds.
pub open spec fn stripped(s: Seq<char>) -> Seq<char> {
    s.filter(kept())
}

/// The pieces of `s` between its commas, in order. There is one piece more
/// than there are commas; a piece may be empty.
pub open spec fn segments(s: Seq<char>) -> Seq<Seq<char>>
    decreases s.len(),
{
    if s.len() == 0 {
        seq![Seq::empty()]
    } else {
        let before = segments(s.drop_last());
        if s.last() == ',' {
            before.push(Seq::empty())
        } else {
            before.update(before.len() - 1, before.last().push(s.last()))
        }
    }
}

/// The token that a stripped entry stands for.
pub open spec fn classified(text: Seq<char>) -> SpecToken {
    match Gate::spec_recognize(text) {
        Some(gate) => SpecToken::Known(gate),
        None => SpecToken::Unknown(text),
    }
}

/// The token of one piece of the line.
pub open spec fn token_of(segment: Seq<char>) -> SpecToken {
    classified(stripped(segment))
}

/// The tokens of a line: one for each piece between commas, unknown ones
/// included.
pub open spec fn parsed(line: Seq<char>) -> Seq<SpecToken> {
    segments(line).map_values(|segment: Seq<char>| token_of(segment))
}

/// The pieces written one after another with a comma between neighbours.
pub open spec fn joined(pieces: Seq<Seq<char>>) -> Seq<char>
    decreases pieces.len(),
{
    if pieces.len() == 0 {
        Seq::empty()
    } else if pieces.len() == 1 {
        pieces[0]
    } else {
        joined(pieces.drop_last()).push(',') + pieces.last()
    }
}

/// How many commas `s` holds.
pub open spec fn commas(s: Seq<char>) -> nat
    decreases s.len(),
{
    if s.len() == 0 {
        0
    } else if s.last() == ',' {
        commas(s.drop_last()) + 1
    } else {
        commas(s.drop_last())
    }
}

/// A line has one piece more than it has commas, no piece holds a comma, and
/// the pieces joined by commas are the line again. These three pin the
/// pieces down.
pub proof fn lemma_segments_split_at_commas(s: Seq<char>)
    ensures
        segments(s).len() == commas(s) + 1,
        forall|i: int| 0 <= i < segments(s).len() ==> !(#[trigger] segments(s)[i]).contains(','),
        joined(segments(s)) == s,
    decreases s.len(),
{
    if s.len() > 0 {
        let front = s.drop_last();
        let before = segments(front);
        lemma_segments_split_at_commas(front);
        let now = segments(s);
        if s.last() == ',' {
            assert(now.drop_last() =~= before);
        } else {
            let grown = before.last().push(s.last());
            assert forall|i: int| 0 <= i < now.len() implies !(#[trigger] now[i]).contains(',') by {
                if i == now.len() - 1 && grown.contains(',') {
                    let j = choose|j: int| 0 <= j < grown.len() && grown[j] == ',';
                    assert(j < grown.len() - 1 ==> before[i][j] == ',');
                }
            }
            if before.len() > 1 {
                assert(now.drop_last() =~= before.drop_last());
                assert(joined(now) =~= joined(before).push(s.last()));
            }
        }
    }
}

/// No token text holds a space, a line feed or a comma.
pub proof fn lemma_token_text_is_clean(line: Seq<char>, i: int)
    requires
        0 <= i < segments(line).len(),
    ensures
        forall|j: int|
            0 <= j < stripped(segments(line)[i]).len() ==> {
                let c = #[trigger] stripped(segments(line)[i])[j];
                !is_blank(c) && c != ','
            },
{
    let segment = segments(line)[i];
    lemma_segments_split_at_commas(line);
    assert forall|j: int| 0 <= j < stripped(segment).len() implies {
        let c = #[trigger] stripped(segment)[j];
        !is_blank(c) && c != ','
    } by {
        segment.lemma_filter_pred(kept(), j);
        segment.lemma_filter_contains_rev(kept(), stripped(segment)[j]);
    }
}

impl GateToken {
    /// Classifies a stripped entry: a gate where the text is a gate name,
    /// else the text itself as an unknown token.
    pub fn classify(text: String) -> (token: GateToken)
        ensures
            token@ == classified(text@),
    {
        match Gate::recognize(text.as_str()) {
            Some(gate) => GateToken::Known(gate),
            None => GateToken::Unknown(text),
        }
    }

    /// Whether the token names no gate.
    pub fn is_unknown(&self) -> (answer: bool)
        ensures
            answer == (self@ is Unknown),
    {
        match self {
            GateToken::Known(_) => false,
            GateToken::Unknown(_) => true,
        }
    }
}

/// Taken on trust of the standard library, not proved here: `String::push`
/// appends the character to the end of the string and leaves what stood
/// before it as it was.
pub assume_specification[ String::push ](s: &mut String, c: char)
    ensures
        final(s)@ == old(s)@.push(c),
;

/// Reads a line: splits it at its commas, drops the spaces and line feeds
/// of each piece and classifies what is left. Every piece gives a token, so
/// an empty line gives one unknown token with an empty text.
pub fn parse_gate_sequence(line: &str) -> (tokens: Vec<GateToken>)
    ensures
        token_views(tokens@) == parsed(line@),
{
    let mut tokens: Vec<GateToken> = Vec::new();
    let mut current = String::new();
    let ghost mut seen: int = 0;
    for c in it: line.chars()
        invariant
            it.seq() == line@,
            seen == it.index(),
            0 <= seen <= line@.len(),
            tokens@.len() + 1 == segments(line@.take(seen)).len(),
            forall|i: int|
                0 <= i < tokens@.len() ==> (#[trigger] tokens@[i])@ == token_of(
                    segments(line@.take(seen))[i],
                ),
            current@ == stripped(segments(line@.take(seen)).last()),
    {
        proof {
            assert(line@.take(seen + 1).drop_last() =~= line@.take(seen));
            segments(line@.take(seen)).last().lemma_filter_push(c, kept());
        }
        if c == ',' {
            let done = current;
            current = String::new();
            tokens.push(GateToken::classify(done));
            proof {
                assert(stripped(Seq::<char>::empty()) =~= Seq::<char>::empty()) by {
                    reveal(Seq::filter);
                }
            }
        } else if c != ' ' && c != '\n' {
            current.push(c);
        }
        proof {
            seen = seen + 1;
        }
    }
    tokens.push(GateToken::classify(current));
    proof {
        assert(line@.take(seen) =~= line@);
    }
    tokens
}

} // verus!
