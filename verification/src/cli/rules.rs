//! The rules of the command line, each said of the characters, words and colours themselves.

use vstd::prelude::*;

use crate::cli::command::{
    command, error_text, Command, CommandError, CommandErrorView, CommandView,
};
use crate::cli::highlight::{
    argument_is_right, highlighted, spans_of, subject_of, Colour, Span, SpanView, Subject,
    SubjectView,
};
use crate::cli::text::{is_white, pieces, trimmed, trimmed_end, trimmed_start};
use crate::cli::ticket::{made_of, ticket_parts};
use crate::proto::addr::{texts_of, NodeAddrView};
use crate::proto::keys::be_value;

verus! {

/// White space is just the characters that Unicode lists as such.
pub proof fn law_white_space(c: char)
    ensures
        is_white(c) <==> ({
            ||| c == '\t'
            ||| c == '\n'
            ||| c == '\u{b}'
            ||| c == '\u{c}'
            ||| c == '\r'
            ||| c == ' '
            ||| c == '\u{85}'
            ||| c == '\u{a0}'
            ||| c == '\u{1680}'
            ||| c == '\u{2000}'
            ||| c == '\u{2001}'
            ||| c == '\u{2002}'
            ||| c == '\u{2003}'
            ||| c == '\u{2004}'
            ||| c == '\u{2005}'
            ||| c == '\u{2006}'
            ||| c == '\u{2007}'
            ||| c == '\u{2008}'
            ||| c == '\u{2009}'
            ||| c == '\u{200a}'
            ||| c == '\u{2028}'
            ||| c == '\u{2029}'
            ||| c == '\u{202f}'
            ||| c == '\u{205f}'
            ||| c == '\u{3000}'
        }),
{
}

proof fn lemma_trimmed_start(text: Seq<char>)
    ensures
        exists|from: int|
            0 <= from <= text.len() && #[trigger] text.skip(from) == trimmed_start(text) && (
            forall|i: int| 0 <= i < from ==> is_white(#[trigger] text[i])),
        trimmed_start(text).len() > 0 ==> !is_white(trimmed_start(text)[0]),
    decreases text.len(),
{
    if text.len() > 0 && is_white(text[0]) {
        let rest = text.skip(1);
        lemma_trimmed_start(rest);
        let from = choose|from: int|
            0 <= from <= rest.len() && #[trigger] rest.skip(from) == trimmed_start(rest) && (
            forall|i: int| 0 <= i < from ==> is_white(#[trigger] rest[i]));
        assert(rest.skip(from) =~= text.skip(from + 1));
        assert forall|i: int| 0 <= i < from + 1 implies is_white(#[trigger] text[i]) by {
            if i > 0 {
                assert(rest[i - 1] == text[i]);
            }
        }
    } else {
        assert(text.skip(0) =~= text);
    }
}

proof fn lemma_trimmed_end(text: Seq<char>)
    ensures
        exists|to: int|
            0 <= to <= text.len() && #[trigger] text.take(to) == trimmed_end(text) && (forall|
                i: int,
            | to <= i < text.len() ==> is_white(#[trigger] text[i])),
        trimmed_end(text).len() > 0 ==> !is_white(trimmed_end(text).last()),
    decreases text.len(),
{
    if text.len() > 0 && is_white(text.last()) {
        let rest = text.drop_last();
        lemma_trimmed_end(rest);
        let to = choose|to: int|
            0 <= to <= rest.len() && #[trigger] rest.take(to) == trimmed_end(rest) && (forall|
                i: int,
            | to <= i < rest.len() ==> is_white(#[trigger] rest[i]));
        assert(rest.take(to) =~= text.take(to));
        assert forall|i: int| to <= i < text.len() implies is_white(#[trigger] text[i]) by {
            if i < rest.len() {
                assert(rest[i] == text[i]);
            }
        }
    } else {
        assert(text.take(text.len() as int) =~= text);
    }
}

/// Trimming takes away white space in front and behind, all of it, and nothing else.
pub proof fn law_trimming(text: Seq<char>)
    ensures
        exists|from: int, to: int|
            0 <= from <= to <= text.len() && trimmed(text) == #[trigger] text.subrange(from, to)
                && (forall|i: int| 0 <= i < from ==> is_white(#[trigger] text[i])) && (forall|
                i: int,
            | to <= i < text.len() ==> is_white(#[trigger] text[i])),
        trimmed(text).len() > 0 ==> !is_white(trimmed(text)[0]) && !is_white(trimmed(text).last()),
{
    lemma_trimmed_start(text);
    let rest = trimmed_start(text);
    let from = choose|from: int|
        0 <= from <= text.len() && #[trigger] text.skip(from) == rest && (forall|i: int|
            0 <= i < from ==> is_white(#[trigger] text[i]));
    lemma_trimmed_end(rest);
    let to = choose|to: int|
        0 <= to <= rest.len() && #[trigger] rest.take(to) == trimmed_end(rest) && (forall|i: int|
            to <= i < rest.len() ==> is_white(#[trigger] rest[i]));
    assert(text.subrange(from, from + to) =~= rest.take(to));
    assert forall|i: int| from + to <= i < text.len() implies is_white(#[trigger] text[i]) by {
        assert(rest[i - from] == text[i]);
    }
    if to > 0 {
        assert(trimmed(text)[0] == rest[0]);
    }
}

/// Every piece of a line but the last ends with a space, no piece holds a space elsewhere, and
/// none is empty.
pub proof fn law_pieces_end_with_spaces(line: Seq<char>)
    ensures
        forall|i: int| 0 <= i < pieces(line).len() ==> (#[trigger] pieces(line)[i]).len() > 0,
        forall|i: int|
            0 <= i < pieces(line).len() - 1 ==> (#[trigger] pieces(line)[i]).last() == ' ',
        forall|i: int, j: int|
            0 <= i < pieces(line).len() && 0 <= j < pieces(line)[i].len() - 1
                ==> #[trigger] pieces(line)[i][j] != ' ',
    decreases line.len(),
{
    if line.len() > 0 {
        let before = pieces(line.drop_last());
        let now = pieces(line);
        law_pieces_end_with_spaces(line.drop_last());
        if before.len() == 0 || before.last().last() == ' ' {
            assert forall|i: int| 0 <= i < now.len() implies (#[trigger] now[i]).len() > 0 by {
                if i < before.len() {
                    assert(now[i] == before[i]);
                }
            }
            assert forall|i: int| 0 <= i < now.len() - 1 implies (#[trigger] now[i]).last()
                == ' ' by {
                assert(now[i] == before[i]);
            }
            assert forall|i: int, j: int|
                0 <= i < now.len() && 0 <= j < now[i].len() - 1 implies #[trigger] now[i][j]
                != ' ' by {
                if i < before.len() {
                    assert(before[i][j] != ' ');
                }
            }
        } else {
            let n = before.len() - 1;
            assert(before[n].len() > 0);
            assert forall|i: int| 0 <= i < now.len() implies (#[trigger] now[i]).len() > 0 by {
                if i < n {
                    assert(now[i] == before[i]);
                }
            }
            assert forall|i: int| 0 <= i < now.len() - 1 implies (#[trigger] now[i]).last()
                == ' ' by {
                assert(now[i] == before[i]);
            }
            assert forall|i: int, j: int|
                0 <= i < now.len() && 0 <= j < now[i].len() - 1 implies #[trigger] now[i][j]
                != ' ' by {
                if i < n {
                    assert(before[i][j] != ' ');
                } else if j < before[n].len() - 1 {
                    assert(before[n][j] != ' ');
                } else {
                    assert(now[i][j] == before[n].last());
                }
            }
        }
    }
}

/// The first word names the command, and the words behind it are taken as they are, whatever they
/// hold; the only thing that can be missing is a word.
pub proof fn law_commands(words: Seq<Seq<char>>)
    requires
        words.len() > 0,
    ensures
        words[0] == "get"@ ==> if words.len() > 1 {
            command(words) matches Ok(CommandView::Get { key }) && key == words[1]
        } else {
            command(words) matches Err(CommandErrorView::NoKey)
        },
        words[0] == "put"@ ==> if words.len() > 1 {
            command(words) matches Ok(CommandView::Put { file_path, local }) && file_path
                == words[1] && (local <==> words.len() > 2 && words[2] == "local"@)
        } else {
            command(words) matches Err(CommandErrorView::NoFile)
        },
        words[0] == "peer"@ ==> if words.len() > 1 {
            command(words) matches Ok(CommandView::Peer { peer_id }) && peer_id == words[1]
        } else {
            command(words) matches Err(CommandErrorView::NoPeer)
        },
        words[0] == "list"@ ==> command(words) matches Ok(CommandView::List),
        words[0] == "tags"@ ==> command(words) matches Ok(CommandView::Tags),
        words[0] != "get"@ && words[0] != "put"@ && words[0] != "peer"@ && words[0] != "list"@
            && words[0] != "tags"@ ==> (command(words) matches Err(CommandErrorView::Invalid(name))
            && name == words[0]),
{
    reveal_strlit("get");
    reveal_strlit("put");
    reveal_strlit("peer");
    reveal_strlit("list");
    reveal_strlit("tags");
    assert("get"@[0] == 'g' && "put"@[0] == 'p' && "put"@[1] == 'u' && "peer"@[0] == 'p'
        && "peer"@[1] == 'e' && "list"@[0] == 'l' && "tags"@[0] == 't');
}

/// What the user is told names what is missing, or the command that there is not.
pub proof fn law_explanations(name: Seq<char>)
    ensures
        error_text(CommandErrorView::NoKey) == "please specify a key to retrieve"@,
        error_text(CommandErrorView::NoFile) == "please specify a file to insert"@,
        error_text(CommandErrorView::NoPeer) == "please specify a peer ID"@,
        ({
            let text = error_text(CommandErrorView::Invalid(name));
            &&& text.len() == name.len() + 31
            &&& text[0] == '`'
            &&& text.subrange(1, name.len() + 1int) == name
            &&& text.skip(name.len() + 1int) == "` is not a valid command (yet)"@
        }),
{
    reveal_strlit("`");
    reveal_strlit("` is not a valid command (yet)");
    let text = error_text(CommandErrorView::Invalid(name));
    assert(text.subrange(1, name.len() + 1int) =~= name);
    assert(text.skip(name.len() + 1int) =~= "` is not a valid command (yet)"@);
}

/// The argument that has to be looked at is the second piece of a line, without the white space
/// around it, whatever it holds; the first piece says what it has to be.
pub proof fn law_subjects(line: Seq<char>)
    ensures
        pieces(line).len() < 2 ==> subject_of(line) is Nothing,
        pieces(line).len() >= 2 ==> ({
            let name = trimmed(pieces(line)[0]);
            let argument = trimmed(pieces(line)[1]);
            &&& name == "peer"@ ==> subject_of(line) == SubjectView::Ticket(argument)
            &&& name == "get"@ ==> subject_of(line) == SubjectView::Key(argument)
            &&& name == "put"@ ==> subject_of(line) == SubjectView::Path(argument)
            &&& name != "peer"@ && name != "get"@ && name != "put"@ ==> subject_of(line) is Nothing
        }),
{
    reveal_strlit("get");
    reveal_strlit("put");
    reveal_strlit("peer");
    assert("get"@[0] == 'g' && "put"@[0] == 'p' && "put"@[1] == 'u' && "peer"@[1] == 'e');
}

/// A ticket is right if it reads as one, and anything else if it is known to be.
pub proof fn law_right_arguments(line: Seq<char>, known: bool)
    ensures
        subject_of(line) matches SubjectView::Ticket(text) ==> (argument_is_right(line, known)
            <==> ticket_parts(text) is Ok),
        !(subject_of(line) is Ticket) ==> argument_is_right(line, known) == known,
{
}

/// A line is shown piece by piece, behind a plain space if it begins with one. A command is green,
/// and so is its argument if it is right; the word `local` behind the argument of `put` is
/// yellow; and everything else is red. Text is shown as it is, but for a first word that is no
/// command, which is shown without the white space around it.
pub proof fn law_colours(line: Seq<char>, right: bool, i: int)
    requires
        0 <= i < pieces(line).len(),
    ensures
        ({
            let spans = highlighted(line, right);
            let lead = if line[0] == ' ' {
                1int
            } else {
                0
            };
            let name = trimmed(pieces(line)[0]);
            let piece = pieces(line)[i];
            let asks = name == "peer"@ || name == "get"@ || name == "put"@;
            let span = spans[lead + i];
            &&& spans.len() == pieces(line).len() + lead
            &&& lead == 1 ==> spans[0] == (SpanView { colour: Colour::Plain, text: seq![' '] })
            &&& i == 0 ==> if asks || name == "list"@ {
                span == (SpanView { colour: Colour::Green, text: piece })
            } else {
                span == (SpanView { colour: Colour::Red, text: name })
            }
            &&& i == 1 && asks && right ==> span == (SpanView {
                colour: Colour::Green,
                text: piece,
            })
            &&& i == 1 && asks && !right ==> span == (SpanView { colour: Colour::Red, text: piece })
            &&& i == 2 && name == "put"@ && trimmed(piece) == "local"@ ==> span == (SpanView {
                colour: Colour::Yellow,
                text: piece,
            })
            &&& i > 0 && !(i == 1 && asks) && !(i == 2 && name == "put"@ && trimmed(piece)
                == "local"@) ==> span == (SpanView { colour: Colour::Red, text: piece })
        }),
{
}

/// Nothing is shown of an empty line.
pub proof fn law_empty_line(line: Seq<char>, right: bool)
    requires
        line.len() == 0,
    ensures
        highlighted(line, right).len() == 0,
{
}

/// An address is made of the parts of a ticket one by one.
pub proof fn law_addresses_from_tickets(
    addr: NodeAddrView,
    id: Seq<u8>,
    relay: Option<Seq<char>>,
    direct: Seq<Seq<char>>,
)
    requires
        made_of(addr, id, relay, direct),
    ensures
        addr.node_id.hi == be_value(id.subrange(0, 16)),
        addr.node_id.lo == be_value(id.subrange(16, 32)),
        addr.relay_url == relay,
        addr.direct_addresses == direct,
{
}

/// What a span and an argument hold is shown whole.
pub proof fn law_spans_are_shown_whole(span: Span, subject: Subject)
    ensures
        span@.colour == span.colour,
        span@.text == span.text@,
        match subject {
            Subject::Nothing => subject@ is Nothing,
            Subject::Ticket(t) => subject@ matches SubjectView::Ticket(text) && text == t@,
            Subject::Key(t) => subject@ matches SubjectView::Key(text) && text == t@,
            Subject::Path(t) => subject@ matches SubjectView::Path(text) && text == t@,
        },
{
}

/// What a command holds is shown whole, and so is what is wrong with one.
pub proof fn law_commands_are_shown_whole(command: Command, err: CommandError)
    ensures
        match command {
            Command::Get { key } => command@ == (CommandView::Get { key: key@ }),
            Command::Put { file_path, local } => command@ == (CommandView::Put {
                file_path: file_path@,
                local,
            }),
            Command::Peer { peer_id } => command@ == (CommandView::Peer { peer_id: peer_id@ }),
            Command::List => command@ is List,
            Command::Tags => command@ is Tags,
        },
        match err {
            CommandError::NoKey => err@ is NoKey,
            CommandError::NoFile => err@ is NoFile,
            CommandError::NoPeer => err@ is NoPeer,
            CommandError::Invalid(name) => err@ == CommandErrorView::Invalid(name@),
        },
{
}

/// A list is shown item by item.
pub proof fn law_lists_are_shown_whole(spans: Seq<Span>, texts: Seq<String>)
    ensures
        spans_of(spans).len() == spans.len(),
        forall|i: int| 0 <= i < spans.len() ==> #[trigger] spans_of(spans)[i] == spans[i]@,
        texts_of(texts).len() == texts.len(),
        forall|i: int| 0 <= i < texts.len() ==> #[trigger] texts_of(texts)[i] == texts[i]@,
{
}

} // verus!
