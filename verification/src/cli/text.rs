//! Words and spaces.

use vstd::prelude::*;

use crate::proto::addr::texts_of;

verus! {

/// The words of a line: what stands before, between and after its spaces.
pub open spec fn words(line: Seq<char>) -> Seq<Seq<char>>
    decreases line.len(),
{
    if line.len() == 0 {
        seq![seq![]]
    } else {
        let before = words(line.drop_last());
        if line.last() == ' ' {
            before.push(seq![])
        } else {
            before.drop_last().push(before.last().push(line.last()))
        }
    }
}

/// The pieces of a line: each ends with a space, but for the last one, which need not.
pub open spec fn pieces(line: Seq<char>) -> Seq<Seq<char>>
    decreases line.len(),
{
    if line.len() == 0 {
        seq![]
    } else {
        let before = pieces(line.drop_last());
        if before.len() == 0 || before.last().last() == ' ' {
            before.push(seq![line.last()])
        } else {
            before.drop_last().push(before.last().push(line.last()))
        }
    }
}

/// Whether a character is white space, as Unicode has it.
pub open spec fn is_white(c: char) -> bool {
    let n = c as u32;
    ||| 0x9 <= n <= 0xd
    ||| n == 0x20
    ||| n == 0x85
    ||| n == 0xa0
    ||| n == 0x1680
    ||| 0x2000 <= n <= 0x200a
    ||| n == 0x2028
    ||| n == 0x2029
    ||| n == 0x202f
    ||| n == 0x205f
    ||| n == 0x3000
}

/// A text without the white space in front of it.
pub open spec fn trimmed_start(text: Seq<char>) -> Seq<char>
    decreases text.len(),
{
    if text.len() > 0 && is_white(text[0]) {
        trimmed_start(text.skip(1))
    } else {
        text
    }
}

/// A text without the white space behind it.
pub open spec fn trimmed_end(text: Seq<char>) -> Seq<char>
    decreases text.len(),
{
    if text.len() > 0 && is_white(text.last()) {
        trimmed_end(text.drop_last())
    } else {
        text
    }
}

/// A text without the white space around it.
pub open spec fn trimmed(text: Seq<char>) -> Seq<char> {
    trimmed_end(trimmed_start(text))
}

/// The words with a space between each and the next.
pub open spec fn spaced(words: Seq<Seq<char>>) -> Seq<char>
    decreases words.len(),
{
    if words.len() == 0 {
        seq![]
    } else if words.len() == 1 {
        words[0]
    } else {
        spaced(words.drop_last()).push(' ') + words.last()
    }
}

/// Texts one after another.
pub open spec fn joined(texts: Seq<Seq<char>>) -> Seq<char>
    decreases texts.len(),
{
    if texts.len() == 0 {
        seq![]
    } else {
        joined(texts.drop_last()) + texts.last()
    }
}

/// Whether two texts are the same.
pub fn same_text(a: &str, b: &str) -> (r: bool)
    ensures
        r == (a@ == b@),
{
    let len: usize = a.unicode_len();
    if len != b.unicode_len() {
        return false;
    }
    let mut i: usize = 0;
    while i < len
        invariant
            i <= len,
            len == a@.len(),
            len == b@.len(),
            forall|j: int| 0 <= j < i ==> a@[j] == b@[j],
        decreases len - i,
    {
        if a.get_char(i) != b.get_char(i) {
            return false;
        }
        i = i + 1;
    }
    assert(a@ =~= b@);
    true
}

/// The part of a text from `from` to `to`.
fn part(text: &str, from: usize, to: usize) -> (r: String)
    requires
        from <= to <= text@.len(),
    ensures
        r@ == text@.subrange(from as int, to as int),
{
    text.substring_char(from, to).to_owned()
}

/// Splits a line at its spaces.
pub fn split(line: &str) -> (r: Vec<String>)
    ensures
        texts_of(r@) == words(line@),
{
    let len: usize = line.unicode_len();
    let mut r: Vec<String> = Vec::new();
    let mut start: usize = 0;
    let mut i: usize = 0;
    assert(line@.take(0) =~= seq![]);
    assert(texts_of(r@).push(line@.subrange(0, 0)) =~= words(line@.take(0)));
    while i < len
        invariant
            start <= i <= len,
            len == line@.len(),
            words(line@.take(i as int)) == texts_of(r@).push(
                line@.subrange(start as int, i as int),
            ),
        decreases len - i,
    {
        let ghost so_far = texts_of(r@);
        let ghost word = line@.subrange(start as int, i as int);
        proof {
            assert(line@.take(i + 1).drop_last() =~= line@.take(i as int));
            assert(so_far.push(word).drop_last() =~= so_far);
            assert(line@.subrange(start as int, i + 1) =~= word.push(line@[i as int]));
        }
        if line.get_char(i) == ' ' {
            r.push(part(line, start, i));
            start = i + 1;
            assert(texts_of(r@) =~= so_far.push(word));
            assert(line@.subrange(start as int, i + 1) =~= seq![]);
        }
        i = i + 1;
    }
    let ghost so_far = texts_of(r@);
    r.push(part(line, start, len));
    proof {
        assert(line@.take(len as int) =~= line@);
        assert(texts_of(r@) =~= so_far.push(line@.subrange(start as int, len as int)));
    }
    r
}

/// Splits a line behind its spaces.
pub fn split_inclusive(line: &str) -> (r: Vec<String>)
    ensures
        texts_of(r@) == pieces(line@),
{
    let len: usize = line.unicode_len();
    let mut r: Vec<String> = Vec::new();
    let mut start: usize = 0;
    let mut i: usize = 0;
    assert(line@.take(0) =~= seq![]);
    assert(texts_of(r@) =~= pieces(line@.take(0)));
    while i < len
        invariant
            start <= i <= len,
            len == line@.len(),
            start == i ==> {
                &&& pieces(line@.take(i as int)) == texts_of(r@)
                &&& r@.len() > 0 ==> texts_of(r@).last().last() == ' '
            },
            start < i ==> {
                &&& pieces(line@.take(i as int)) == texts_of(r@).push(
                    line@.subrange(start as int, i as int),
                )
                &&& line@[i - 1] != ' '
            },
        decreases len - i,
    {
        let ghost so_far = texts_of(r@);
        let ghost piece = line@.subrange(start as int, i as int);
        let ghost longer = line@.subrange(start as int, i + 1);
        proof {
            assert(line@.take(i + 1).drop_last() =~= line@.take(i as int));
            assert(so_far.push(piece).drop_last() =~= so_far);
            assert(longer =~= piece.push(line@[i as int]));
            if start == i {
                assert(longer =~= seq![line@[i as int]]);
            } else {
                assert(piece.last() == line@[i - 1]);
            }
            assert(pieces(line@.take(i + 1)) == so_far.push(longer));
        }
        if line.get_char(i) == ' ' {
            r.push(part(line, start, i + 1));
            start = i + 1;
            assert(texts_of(r@) =~= so_far.push(longer));
            assert(texts_of(r@).last() == longer);
        }
        i = i + 1;
    }
    assert(line@.take(len as int) =~= line@);
    if start < len {
        let ghost so_far = texts_of(r@);
        r.push(part(line, start, len));
        assert(texts_of(r@) =~= so_far.push(line@.subrange(start as int, len as int)));
    }
    r
}

/// Whether a character is white space.
fn white(c: char) -> (r: bool)
    ensures
        r == is_white(c),
{
    let n: u32 = c as u32;
    (0x9 <= n && n <= 0xd) || n == 0x20 || n == 0x85 || n == 0xa0 || n == 0x1680 || (0x2000 <= n
        && n <= 0x200a) || n == 0x2028 || n == 0x2029 || n == 0x202f || n == 0x205f || n == 0x3000
}

/// Takes the white space around a text away.
pub fn trim<'a>(text: &'a str) -> (r: &'a str)
    ensures
        r@ == trimmed(text@),
{
    let len: usize = text.unicode_len();
    let mut from: usize = 0;
    assert(text@.skip(0) =~= text@);
    while from < len && white(text.get_char(from))
        invariant
            from <= len,
            len == text@.len(),
            trimmed_start(text@.skip(from as int)) == trimmed_start(text@),
        decreases len - from,
    {
        assert(text@.skip(from as int).skip(1) =~= text@.skip(from + 1));
        from = from + 1;
    }
    let ghost rest = text@.skip(from as int);
    assert(trimmed_start(text@) == rest);
    let mut to: usize = len;
    assert(text@.subrange(from as int, len as int) =~= rest);
    while from < to && white(text.get_char(to - 1))
        invariant
            from <= to <= len,
            len == text@.len(),
            trimmed_end(text@.subrange(from as int, to as int)) == trimmed_end(rest),
        decreases to,
    {
        assert(text@.subrange(from as int, to as int).drop_last() =~= text@.subrange(
            from as int,
            to - 1,
        ));
        to = to - 1;
    }
    text.substring_char(from, to)
}

pub(crate) proof fn lemma_words_not_empty(line: Seq<char>)
    ensures
        words(line).len() > 0,
    decreases line.len(),
{
    if line.len() > 0 {
        lemma_words_not_empty(line.drop_last());
    }
}

/// Splitting a line at its spaces loses nothing else: with the spaces put back the words are the
/// line. And no word holds a space.
pub proof fn law_words_make_up_the_line(line: Seq<char>)
    ensures
        spaced(words(line)) == line,
        forall|i: int| 0 <= i < words(line).len() ==> !(#[trigger] words(line)[i]).contains(' '),
    decreases line.len(),
{
    if line.len() == 0 {
        assert(spaced(words(line)) =~= line);
    } else {
        let before = words(line.drop_last());
        lemma_words_not_empty(line.drop_last());
        law_words_make_up_the_line(line.drop_last());
        assert(line =~= line.drop_last().push(line.last()));
        if line.last() == ' ' {
            assert(words(line).drop_last() =~= before);
            assert(spaced(words(line)) =~= line);
        } else {
            let longer = before.last().push(line.last());
            assert(words(line).drop_last() =~= before.drop_last());
            assert(spaced(words(line)) =~= spaced(before).push(line.last()));
            assert(!longer.contains(' ')) by {
                assert(!before[before.len() - 1].contains(' '));
                if longer.contains(' ') {
                    let j = longer.index_of(' ');
                    assert(before.last()[j] == ' ');
                }
            }
            assert forall|i: int| 0 <= i < words(line).len() implies !(
            #[trigger] words(line)[i]).contains(' ') by {
                if i < before.len() - 1 {
                    assert(words(line)[i] == before[i]);
                }
            }
        }
    }
}

/// Splitting a line behind its spaces loses nothing: the pieces are the line.
pub proof fn law_pieces_make_up_the_line(line: Seq<char>)
    ensures
        joined(pieces(line)) == line,
    decreases line.len(),
{
    if line.len() > 0 {
        let before = pieces(line.drop_last());
        law_pieces_make_up_the_line(line.drop_last());
        assert(line =~= line.drop_last().push(line.last()));
        if before.len() == 0 || before.last().last() == ' ' {
            assert(pieces(line).drop_last() =~= before);
        } else {
            assert(pieces(line).drop_last() =~= before.drop_last());
        }
        assert(joined(pieces(line)) =~= line);
    } else {
        assert(joined(pieces(line)) =~= line);
    }
}

/// A line without a space is one word, and a space always parts what is before it from what is
/// behind it.
pub proof fn law_spaces_part_words(a: Seq<char>, b: Seq<char>)
    ensures
        !a.contains(' ') ==> words(a) == seq![a],
        words(a.push(' ') + b) == words(a) + words(b),
    decreases a.len() + b.len(),
{
    if a.len() > 0 {
        law_spaces_part_words(a.drop_last(), seq![]);
        if !a.contains(' ') {
            assert(a[a.len() - 1] != ' ');
            assert(!a.drop_last().contains(' ')) by {
                if a.drop_last().contains(' ') {
                    let i = a.drop_last().index_of(' ');
                    assert(a[i] == ' ');
                }
            }
            assert(a.drop_last().push(a.last()) =~= a);
            assert(words(a) =~= seq![a]);
        }
    } else {
        assert(a =~= seq![]);
        assert(words(a) =~= seq![a]);
    }
    let line = a.push(' ') + b;
    if b.len() == 0 {
        assert(line =~= a.push(' '));
        assert(line.drop_last() =~= a);
        assert(b =~= seq![]);
        assert(words(line) =~= words(a) + words(b));
    } else {
        law_spaces_part_words(a, b.drop_last());
        lemma_words_not_empty(b.drop_last());
        assert(line.drop_last() =~= a.push(' ') + b.drop_last());
        assert(words(line) =~= words(a) + words(b));
    }
}

proof fn lemma_last_piece(line: Seq<char>)
    requires
        line.len() > 0,
    ensures
        pieces(line).len() > 0,
        pieces(line).last().len() > 0,
        pieces(line).last().last() == line.last(),
{
}

/// A line without a space is one piece unless it is empty, and so is one whose only space is its
/// last character; and behind a space a new piece begins.
pub proof fn law_spaces_end_pieces(a: Seq<char>, b: Seq<char>)
    ensures
        pieces(seq![]).len() == 0,
        !a.contains(' ') && a.len() > 0 ==> pieces(a) == seq![a],
        !a.contains(' ') ==> pieces(a.push(' ')) == seq![a.push(' ')],
        pieces(a.push(' ') + b) == pieces(a.push(' ')) + pieces(b),
    decreases a.len() + b.len(),
{
    if a.len() > 0 {
        law_spaces_end_pieces(a.drop_last(), seq![]);
        if !a.contains(' ') {
            assert(a[a.len() - 1] != ' ');
            assert(!a.drop_last().contains(' ')) by {
                if a.drop_last().contains(' ') {
                    let i = a.drop_last().index_of(' ');
                    assert(a[i] == ' ');
                }
            }
            assert(a.drop_last().push(a.last()) =~= a);
            let before = pieces(a.drop_last());
            if a.len() > 1 {
                assert(a[a.len() - 2] != ' ');
                assert(before == seq![a.drop_last()]);
                assert(before.last().last() != ' ');
                assert(pieces(a) == before.drop_last().push(before.last().push(a.last())));
            } else {
                assert(a =~= seq![a.last()]);
                assert(before.len() == 0);
                assert(pieces(a) == before.push(seq![a.last()]));
            }
            assert(pieces(a) =~= seq![a]);
        }
    }
    let head = a.push(' ');
    assert(head.drop_last() =~= a);
    if !a.contains(' ') {
        if a.len() == 0 {
            assert(head =~= seq![' ']);
            assert(pieces(head) == pieces(a).push(seq![' ']));
        } else {
            assert(a[a.len() - 1] != ' ');
            let before = pieces(a);
            assert(pieces(head) == before.drop_last().push(before.last().push(' ')));
        }
        assert(pieces(head) =~= seq![head]);
    }
    let line = head + b;
    if b.len() == 0 {
        assert(line =~= head);
        assert(pieces(line) =~= pieces(head) + pieces(b));
    } else {
        law_spaces_end_pieces(a, b.drop_last());
        lemma_last_piece(head);
        assert(line.drop_last() =~= head + b.drop_last());
        assert(pieces(line) =~= pieces(head) + pieces(b));
    }
}

} // verus!
