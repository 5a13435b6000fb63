//! The colours in which a line is shown while it is typed.

use vstd::prelude::*;

use crate::cli::text::{
    joined, law_pieces_make_up_the_line, pieces, same_text, split_inclusive, trim, trimmed,
    trimmed_start,
};
use crate::cli::ticket::{parse_peer, ticket_parts};
use crate::proto::addr::texts_of;

verus! {

/// A colour.
#[derive(Debug, Clone, Copy, PartialEq, Eq, Structural)]
pub enum Colour {
    /// That of other text.
    Plain,
    /// That of what is right.
    Green,
    /// That of what is wrong.
    Red,
    /// That of an option.
    Yellow,
}

/// Text in one colour.
#[derive(Debug, Clone)]
pub struct Span {
    pub colour: Colour,
    pub text: String,
}

/// What a [`Span`] holds.
#[verifier::ext_equal]
pub struct SpanView {
    pub colour: Colour,
    pub text: Seq<char>,
}

impl View for Span {
    type V = SpanView;

    open spec fn view(&self) -> SpanView {
        SpanView { colour: self.colour, text: self.text@ }
    }
}

/// What a list of spans holds.
pub open spec fn spans_of(spans: Seq<Span>) -> Seq<SpanView> {
    spans.map_values(|s: Span| s@)
}

/// What the argument of a command has to be for the command to make sense.
#[derive(Debug, Clone)]
pub enum Subject {
    /// There is no argument, or it does not matter.
    Nothing,
    /// A ticket.
    Ticket(String),
    /// The hash of a blob.
    Key(String),
    /// The path of a file that exists.
    Path(String),
}

/// What a [`Subject`] holds.
#[verifier::ext_equal]
pub enum SubjectView {
    Nothing,
    Ticket(Seq<char>),
    Key(Seq<char>),
    Path(Seq<char>),
}

impl View for Subject {
    type V = SubjectView;

    open spec fn view(&self) -> SubjectView {
        match *self {
            Subject::Nothing => SubjectView::Nothing,
            Subject::Ticket(text) => SubjectView::Ticket(text@),
            Subject::Key(text) => SubjectView::Key(text@),
            Subject::Path(text) => SubjectView::Path(text@),
        }
    }
}

/// What the argument on a line has to be.
pub open spec fn subject_of(line: Seq<char>) -> SubjectView {
    let parts = pieces(line);
    if parts.len() < 2 {
        SubjectView::Nothing
    } else {
        let name = trimmed(parts[0]);
        let argument = trimmed(parts[1]);
        if name == "peer"@ {
            SubjectView::Ticket(argument)
        } else if name == "get"@ {
            SubjectView::Key(argument)
        } else if name == "put"@ {
            SubjectView::Path(argument)
        } else {
            SubjectView::Nothing
        }
    }
}

/// The colour of something that is right or wrong.
pub open spec fn judged(right: bool) -> Colour {
    if right {
        Colour::Green
    } else {
        Colour::Red
    }
}

/// The colour of a part of a line whose first word is the command `name`. `right` says whether
/// the argument is what it has to be.
pub open spec fn colour_of(name: Seq<char>, at: int, part: Seq<char>, right: bool) -> Colour {
    let takes_argument = name == "peer"@ || name == "get"@ || name == "put"@;
    if at == 0 {
        judged(takes_argument || name == "list"@)
    } else if at == 1 && takes_argument {
        judged(right)
    } else if at == 2 && name == "put"@ && trimmed(part) == "local"@ {
        Colour::Yellow
    } else {
        Colour::Red
    }
}

/// Whether there is a command of this name to be shown as right.
pub open spec fn is_shown(name: Seq<char>) -> bool {
    name == "peer"@ || name == "get"@ || name == "put"@ || name == "list"@
}

/// The parts of a line in their colours. A name that is no command is shown without the white
/// space around it.
pub open spec fn coloured(parts: Seq<Seq<char>>, right: bool) -> Seq<SpanView> {
    let name = trimmed(parts[0]);
    parts.map(
        |at: int, part: Seq<char>|
            SpanView {
                colour: colour_of(name, at, part, right),
                text: if at == 0 && !is_shown(name) {
                    name
                } else {
                    part
                },
            },
    )
}

/// A line in its colours. A space in front of it is shown too.
pub open spec fn highlighted(line: Seq<char>, right: bool) -> Seq<SpanView> {
    let parts = pieces(line);
    if parts.len() == 0 {
        seq![]
    } else if line[0] == ' ' {
        seq![SpanView { colour: Colour::Plain, text: seq![' '] }] + coloured(parts, right)
    } else {
        coloured(parts, right)
    }
}

/// Whether the argument on a line is what it has to be. A ticket is judged by what it holds, and
/// anything else by `known`.
pub open spec fn argument_is_right(line: Seq<char>, known: bool) -> bool {
    match subject_of(line) {
        SubjectView::Ticket(text) => ticket_parts(text) is Ok,
        _ => known,
    }
}

/// What the argument on a line has to be.
pub fn subject(line: &str) -> (r: Subject)
    ensures
        r@ == subject_of(line@),
{
    let parts = split_inclusive(line);
    let ghost texts = texts_of(parts@);
    proof {
        assert(texts.len() == parts@.len());
        assert(forall|i: int| 0 <= i < parts@.len() ==> texts[i] == (#[trigger] parts@[i])@);
    }
    if parts.len() < 2 {
        return Subject::Nothing;
    }
    let name = trim(parts[0].as_str());
    let argument = trim(parts[1].as_str()).to_owned();
    if same_text(name, "peer") {
        Subject::Ticket(argument)
    } else if same_text(name, "get") {
        Subject::Key(argument)
    } else if same_text(name, "put") {
        Subject::Path(argument)
    } else {
        Subject::Nothing
    }
}

/// Shows a line in its colours. `right` says whether the argument is what it has to be.
pub fn highlight_with(line: &str, right: bool) -> (spans: Vec<Span>)
    ensures
        spans_of(spans@) == highlighted(line@, right),
{
    let parts = split_inclusive(line);
    let ghost texts = texts_of(parts@);
    proof {
        assert(texts.len() == parts@.len());
        assert(forall|i: int| 0 <= i < parts@.len() ==> texts[i] == (#[trigger] parts@[i])@);
    }
    let mut spans: Vec<Span> = Vec::new();
    if parts.len() == 0 {
        assert(spans_of(spans@) =~= highlighted(line@, right));
        return spans;
    }
    proof {
        lemma_pieces_of_nothing(line@);
    }
    if line.get_char(0) == ' ' {
        proof {
            reveal_strlit(" ");
        }
        spans.push(Span { colour: Colour::Plain, text: " ".to_owned() });
        assert(" "@ =~= seq![' ']);
    }
    let ghost lead = spans_of(spans@);
    let name = trim(parts[0].as_str());
    let is_put = same_text(name, "put");
    let takes_argument = is_put || same_text(name, "peer") || same_text(name, "get");
    let shown = takes_argument || same_text(name, "list");
    let mut i: usize = 0;
    assert(spans_of(spans@) =~= lead + coloured(texts, right).take(0));
    while i < parts.len()
        invariant
            i <= parts@.len(),
            texts == texts_of(parts@),
            parts@.len() > 0,
            name@ == trimmed(texts[0]),
            is_put == (name@ == "put"@),
            takes_argument == (name@ == "peer"@ || name@ == "get"@ || name@ == "put"@),
            shown == is_shown(name@),
            spans_of(spans@) == lead + coloured(texts, right).take(i as int),
        decreases parts@.len() - i,
    {
        let ghost before = spans_of(spans@);
        assert(texts[i as int] == parts@[i as int]@);
        let colour = if i == 0 {
            if shown {
                Colour::Green
            } else {
                Colour::Red
            }
        } else if i == 1 && takes_argument {
            if right {
                Colour::Green
            } else {
                Colour::Red
            }
        } else if i == 2 && is_put && same_text(trim(parts[i].as_str()), "local") {
            Colour::Yellow
        } else {
            Colour::Red
        };
        let text = if i == 0 && !shown {
            name.to_owned()
        } else {
            parts[i].clone()
        };
        let span = Span { colour, text };
        assert(span@ == coloured(texts, right)[i as int]);
        spans.push(span);
        proof {
            assert(spans_of(spans@) =~= before.push(span@));
            assert(before.push(span@) =~= lead + coloured(texts, right).take(i + 1));
        }
        i = i + 1;
    }
    proof {
        assert(coloured(texts, right).take(i as int) =~= coloured(texts, right));
        assert(spans_of(spans@) =~= highlighted(line@, right));
    }
    spans
}

/// Shows a line in its colours. `known` says whether the argument, if it is a key or a path, is
/// what it has to be.
pub fn highlight(line: &str, known: bool) -> (spans: Vec<Span>)
    ensures
        spans_of(spans@) == highlighted(line@, argument_is_right(line@, known)),
{
    let right = match subject(line) {
        Subject::Ticket(text) => match parse_peer(text.as_str()) {
            Ok(_) => true,
            Err(_) => false,
        },
        _ => known,
    };
    highlight_with(line, right)
}

proof fn lemma_pieces_of_nothing(line: Seq<char>)
    ensures
        pieces(line).len() == 0 <==> line.len() == 0,
    decreases line.len(),
{
    if line.len() > 0 {
        lemma_pieces_of_nothing(line.drop_last());
    }
}

proof fn lemma_first_piece(line: Seq<char>)
    requires
        line.len() > 0,
        line[0] == ' ',
    ensures
        pieces(line).len() > 0,
        pieces(line)[0] == seq![' '],
    decreases line.len(),
{
    if line.len() == 1 {
        assert(line.drop_last().len() == 0);
    } else {
        lemma_first_piece(line.drop_last());
    }
}

/// The text of some spans.
pub open spec fn shown_text(spans: Seq<SpanView>) -> Seq<char> {
    joined(spans.map_values(|s: SpanView| s.text))
}

/// Nothing is added to a line that is a command, and nothing left out: what is shown is what was
/// typed.
pub proof fn law_commands_are_shown_as_typed(line: Seq<char>, right: bool)
    requires
        pieces(line).len() > 0,
        is_shown(trimmed(pieces(line)[0])),
    ensures
        shown_text(highlighted(line, right)) == line,
{
    law_pieces_make_up_the_line(line);
    lemma_pieces_of_nothing(line);
    if line[0] == ' ' {
        lemma_first_piece(line);
        reveal_with_fuel(trimmed_start, 2);
        assert(trimmed(seq![' ']) =~= seq![]);
        reveal_strlit("peer");
        reveal_strlit("get");
        reveal_strlit("put");
        reveal_strlit("list");
    }
    assert(highlighted(line, right).map_values(|s: SpanView| s.text) =~= pieces(line));
}

} // verus!
