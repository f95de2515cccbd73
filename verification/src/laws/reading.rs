//! How the texts that the library writes are read by those who get them: line
//! by line, word by word, and as numbers.

use crate::text::{
    decimal_text, free_of, joined, lemma_free_of_add, lemma_one_piece,
    lemma_pieces_add, lemma_pieces_nonempty, lines_of, pieces, };
use vstd::prelude::*;
use vstd::string::*;

verus! {

/// Lines, each with a newline behind it.
pub open spec fn unlines(lines: Seq<Seq<char>>) -> Seq<char>
    decreases lines.len(),
{
    if lines.len() == 0 {
        Seq::empty()
    } else {
        unlines(lines.drop_last()) + lines.last().push('\n')
    }
}

/// A text that is one line: no newline in it, and no carriage return at its
/// end.
pub open spec fn is_line(line: Seq<char>) -> bool {
    free_of(line, '\n') && (line.len() == 0 || line.last() != '\r')
}

pub open spec fn all_lines(lines: Seq<Seq<char>>) -> bool {
    forall|i: int| 0 <= i < lines.len() ==> is_line(#[trigger] lines[i])
}

pub proof fn lemma_unlines_add(first: Seq<Seq<char>>, second: Seq<Seq<char>>)
    ensures
        unlines(first + second) == unlines(first) + unlines(second),
    decreases second.len(),
{
    if second.len() == 0 {
        assert(first + second =~= first);
        assert(unlines(first) + unlines(second) =~= unlines(first));
    } else {
        assert((first + second).drop_last() =~= first + second.drop_last());
        lemma_unlines_add(first, second.drop_last());
        assert(unlines(first + second) =~= unlines(first) + unlines(second));
    }
}

pub proof fn lemma_unlines_one(line: Seq<char>)
    ensures
        unlines(seq![line]) == line.push('\n'),
{
    reveal_with_fuel(unlines, 2);
    assert(seq![line].drop_last() =~= Seq::empty());
    assert(unlines(seq![line]) =~= line.push('\n'));
}

proof fn lemma_pieces_of_unlines(lines: Seq<Seq<char>>)
    requires
        all_lines(lines),
    ensures
        pieces(unlines(lines), '\n') == lines.push(Seq::empty()),
    decreases lines.len(),
{
    if lines.len() == 0 {
        assert(pieces(unlines(lines), '\n') =~= lines.push(Seq::empty()));
    } else {
        let front = lines.drop_last();
        let line = lines.last();
        assert(is_line(lines[lines.len() - 1]));
        assert(all_lines(front)) by {
            assert forall|i: int| 0 <= i < front.len() implies is_line(#[trigger] front[i]) by {
                assert(is_line(lines[i]));
            }
        }
        lemma_pieces_of_unlines(front);
        lemma_one_piece(line, '\n');
        let none = Seq::<char>::empty();
        if front.len() == 0 {
            assert(unlines(front) =~= none);
            assert(unlines(lines) =~= line.push('\n') + none);
            lemma_pieces_add(line, none, '\n');
            assert(pieces(unlines(lines), '\n') =~= lines.push(none));
        } else {
            let before = unlines(front);
            assert(before.last() == '\n');
            let cut = before.drop_last();
            assert(before =~= cut.push('\n') + none);
            lemma_pieces_add(cut, none, '\n');
            assert(pieces(none, '\n') =~= seq![none]);
            assert(pieces(cut, '\n') + seq![none] == front.push(none));
            assert(pieces(cut, '\n') =~= front) by {
                assert((pieces(cut, '\n') + seq![none]).drop_last() =~= pieces(cut, '\n'));
                assert(front.push(none).drop_last() =~= front);
            }
            assert(unlines(lines) =~= cut.push('\n') + (line.push('\n') + none));
            lemma_pieces_add(cut, line.push('\n') + none, '\n');
            lemma_pieces_add(line, none, '\n');
            assert(pieces(unlines(lines), '\n') =~= lines.push(none));
        }
    }
}

/// Lines that were put one below the other are read as those lines.
pub proof fn lemma_lines_of_unlines(lines: Seq<Seq<char>>)
    requires
        all_lines(lines),
    ensures
        lines_of(unlines(lines)) == lines,
{
    lemma_pieces_of_unlines(lines);
    let all = pieces(unlines(lines), '\n');
    assert(all.last() == Seq::<char>::empty());
    let read = lines_of(unlines(lines));
    assert(read.len() == lines.len());
    assert forall|i: int| 0 <= i < lines.len() implies read[i] == lines[i] by {
        assert(is_line(lines[i]));
        assert(all[i] == lines[i]);
    }
    assert(read =~= lines);
}

/// Those of `list` that are not empty.
pub open spec fn non_empty(list: Seq<Seq<char>>) -> Seq<Seq<char>>
    decreases list.len(),
{
    if list.len() == 0 {
        Seq::empty()
    } else if list.last().len() == 0 {
        non_empty(list.drop_last())
    } else {
        non_empty(list.drop_last()).push(list.last())
    }
}

/// The words of a line: what stands between spaces.
pub open spec fn words(text: Seq<char>) -> Seq<Seq<char>> {
    non_empty(pieces(text, ' '))
}

pub open spec fn is_word(text: Seq<char>) -> bool {
    text.len() > 0 && free_of(text, ' ')
}

proof fn lemma_non_empty_add(first: Seq<Seq<char>>, second: Seq<Seq<char>>)
    ensures
        non_empty(first + second) == non_empty(first) + non_empty(second),
    decreases second.len(),
{
    if second.len() == 0 {
        assert(first + second =~= first);
        assert(non_empty(first) + non_empty(second) =~= non_empty(first));
    } else {
        assert((first + second).drop_last() =~= first + second.drop_last());
        lemma_non_empty_add(first, second.drop_last());
        assert(non_empty(first + second) =~= non_empty(first) + non_empty(second));
    }
}

/// What stands on either side of a space is read on its own.
pub proof fn lemma_words_add(first: Seq<char>, second: Seq<char>)
    ensures
        words(first.push(' ') + second) == words(first) + words(second),
{
    lemma_pieces_add(first, second, ' ');
    lemma_non_empty_add(pieces(first, ' '), pieces(second, ' '));
}

pub proof fn lemma_one_word(text: Seq<char>)
    requires
        is_word(text),
    ensures
        words(text) == seq![text],
{
    lemma_one_piece(text, ' ');
    reveal_with_fuel(non_empty, 2);
    assert(seq![text].drop_last() =~= Seq::empty());
    assert(words(text) =~= seq![text]);
}

pub proof fn lemma_no_words()
    ensures
        words(Seq::empty()) == Seq::<Seq<char>>::empty(),
{
    reveal_with_fuel(non_empty, 2);
    let none = Seq::<char>::empty();
    assert(pieces(none, ' ') =~= seq![none]);
    assert(seq![none].drop_last() =~= Seq::empty());
    assert(words(none) =~= Seq::empty());
}

/// A character that is no space belongs to the word that it follows.
pub proof fn lemma_word_grows(text: Seq<char>, c: char)
    requires
        text.len() > 0,
        text.last() != ' ',
        c != ' ',
    ensures
        words(text).len() > 0,
        words(text.push(c)) == words(text).drop_last().push(words(text).last().push(c)),
{
    let before = pieces(text, ' ');
    let longer = text.push(c);
    assert(longer.drop_last() =~= text);
    lemma_pieces_nonempty(text, ' ');
    lemma_pieces_nonempty(text.drop_last(), ' ');
    let inner = pieces(text.drop_last(), ' ');
    assert(before.last() == inner.last().push(text.last()));
    assert(before.last().len() > 0);
    let after = pieces(longer, ' ');
    assert(after == before.drop_last().push(before.last().push(c)));
    assert(after.drop_last() =~= before.drop_last());
    assert(non_empty(after) == non_empty(before.drop_last()).push(before.last().push(c)));
    assert(words(text).drop_last() =~= non_empty(before.drop_last()));
}

/// A list as it is written with commas: one behind every item but the last.
pub open spec fn with_commas(items: Seq<Seq<char>>) -> Seq<Seq<char>> {
    Seq::new(
        items.len(),
        |i: int|
            if i + 1 < items.len() {
                items[i].push(',')
            } else {
                items[i]
            },
    )
}

pub proof fn lemma_words_of_list(items: Seq<Seq<char>>)
    requires
        forall|i: int| 0 <= i < items.len() ==> is_word(#[trigger] items[i]),
    ensures
        words(joined(items, ", "@)) == with_commas(items),
        items.len() > 0 ==> joined(items, ", "@).len() > 0 && joined(items, ", "@).last() != ' ',
    decreases items.len(),
{
    reveal_strlit(", ");
    if items.len() == 0 {
        lemma_no_words();
        assert(with_commas(items) =~= Seq::empty());
    } else if items.len() == 1 {
        assert(is_word(items[0]));
        lemma_one_word(items[0]);
        assert(with_commas(items) =~= seq![items[0]]);
        assert(items[0][items[0].len() - 1] != ' ');
    } else {
        let front = items.drop_last();
        let last = items.last();
        assert(is_word(items[items.len() - 1]));
        assert forall|i: int| 0 <= i < front.len() implies is_word(#[trigger] front[i]) by {
            assert(is_word(items[i]));
        }
        lemma_words_of_list(front);
        let before = joined(front, ", "@);
        lemma_word_grows(before, ',');
        lemma_one_word(last);
        lemma_words_add(before.push(','), last);
        assert(joined(items, ", "@) =~= before.push(',').push(' ') + last);
        assert(with_commas(items) =~= words(joined(items, ", "@)));
        assert(last[last.len() - 1] != ' ');
    }
}

/// The value of a decimal digit.
pub open spec fn digit_value(c: char) -> Option<nat> {
    if '0' <= c <= '9' {
        Some((c as nat - '0' as nat) as nat)
    } else {
        None
    }
}

/// The number that a text of decimal digits stands for.
pub open spec fn number_of(text: Seq<char>) -> Option<nat>
    decreases text.len(),
{
    if text.len() == 0 {
        None
    } else if text.len() == 1 {
        digit_value(text[0])
    } else {
        match (number_of(text.drop_last()), digit_value(text.last())) {
            (Some(front), Some(digit)) => Some(front * 10 + digit),
            _ => None,
        }
    }
}

/// The digits of a number are read as that number.
pub proof fn lemma_number_reads_back(number: nat)
    ensures
        number_of(decimal_text(number)) == Some(number),
        is_word(decimal_text(number)),
        is_line(decimal_text(number)),
        forall|i: int|
            0 <= i < decimal_text(number).len() ==> '0' <= #[trigger] decimal_text(number)[i]
                <= '9',
    decreases number,
{
    let text = decimal_text(number);
    if number >= 10 {
        lemma_number_reads_back(number / 10);
        let front = decimal_text(number / 10);
        assert(text.drop_last() =~= front);
        assert(digit_value(text.last()) == Some((number % 10) as nat));
        assert forall|i: int| 0 <= i < text.len() implies '0' <= #[trigger] text[i] <= '9' by {
            if i < front.len() {
                assert(text[i] == front[i]);
            }
        }
    }
}

pub proof fn lemma_is_line_add(first: Seq<char>, second: Seq<char>)
    requires
        free_of(first, '\n'),
        is_line(second),
        second.len() > 0,
    ensures
        is_line(first + second),
{
    lemma_free_of_add(first, second, '\n');
}

/// The word so far with `more` behind it.
pub open spec fn grown(current: Option<Seq<char>>, more: Seq<char>) -> Option<Seq<char>> {
    match current {
        Some(word) => Some(word + more),
        None => Some(more),
    }
}

/// `first` in front of the words of the rest.
pub open spec fn with_first(first: Seq<char>, rest: Option<Seq<Seq<char>>>) -> Option<
    Seq<Seq<char>>,
> {
    match rest {
        Some(list) => Some(seq![first] + list),
        None => None,
    }
}

/// How a shell splits a command into words: at spaces that are neither quoted
/// nor escaped. `current` is the word so far and `inside` tells whether a
/// quote is open; a quote that stays open has no reading.
pub open spec fn shell_split(text: Seq<char>, current: Option<Seq<char>>, inside: bool) -> Option<
    Seq<Seq<char>>,
>
    decreases text.len(),
{
    if text.len() == 0 {
        if inside {
            None
        } else {
            match current {
                Some(word) => Some(seq![word]),
                None => Some(Seq::empty()),
            }
        }
    } else if text[0] == '\'' {
        shell_split(text.skip(1), grown(current, Seq::empty()), !inside)
    } else if inside {
        shell_split(text.skip(1), grown(current, seq![text[0]]), true)
    } else if text[0] == ' ' {
        match current {
            Some(word) => with_first(word, shell_split(text.skip(1), None, false)),
            None => shell_split(text.skip(1), None, false),
        }
    } else if text[0] == '\\' && text.len() >= 2 {
        shell_split(text.skip(2), grown(current, seq![text[1]]), false)
    } else {
        shell_split(text.skip(1), grown(current, seq![text[0]]), false)
    }
}

/// The words that a shell reads in a command.
pub open spec fn shell_words(text: Seq<char>) -> Option<Seq<Seq<char>>> {
    shell_split(text, None, false)
}

/// A text that means itself to a shell.
pub open spec fn is_bare(text: Seq<char>) -> bool {
    free_of(text, '\'') && free_of(text, '\\')
}

/// Several words in front of the words of the rest.
pub open spec fn with_words(first: Seq<Seq<char>>, rest: Option<Seq<Seq<char>>>) -> Option<
    Seq<Seq<char>>,
> {
    match rest {
        Some(list) => Some(first + list),
        None => None,
    }
}

/// A word that means itself is read as it stands.
pub proof fn lemma_split_word(word: Seq<char>, rest: Seq<char>, current: Option<Seq<char>>)
    requires
        is_word(word),
        is_bare(word),
    ensures
        shell_split(word + rest, current, false) == shell_split(rest, grown(current, word), false),
    decreases word.len(),
{
    let text = word + rest;
    assert(text[0] == word[0]);
    let more = grown(current, seq![word[0]]);
    if word.len() == 1 {
        assert(text.skip(1) =~= rest);
        assert(seq![word[0]] =~= word);
    } else {
        let tail = word.skip(1);
        assert forall|i: int| 0 <= i < tail.len() implies #[trigger] tail[i] != ' ' && tail[i]
            != '\'' && tail[i] != '\\' by {
            assert(word[i + 1] != ' ' && word[i + 1] != '\'' && word[i + 1] != '\\');
        }
        lemma_split_word(tail, rest, more);
        assert(text.skip(1) =~= tail + rest);
        assert(grown(more, tail) == grown(current, word)) by {
            match current {
                Some(begun) => {
                    assert(begun + seq![word[0]] + tail =~= begun + word);
                },
                None => {
                    assert(seq![word[0]] + tail =~= word);
                },
            }
        }
    }
}

/// What stands in an open quote is read up to its end.
proof fn lemma_split_inside(value: Seq<char>, rest: Seq<char>, word: Seq<char>)
    ensures
        shell_split(
            crate::text::replaced_char(value, '\'', "'\\''"@) + rest,
            Some(word),
            true,
        ) == shell_split(rest, Some(word + value), true),
    decreases value.len(),
{
    let whole = crate::text::replaced_char(value, '\'', "'\\''"@);
    if value.len() == 0 {
        assert(whole + rest =~= rest);
        assert(word + value =~= word);
    } else {
        let front = value.drop_last();
        let c = value.last();
        let one: Seq<char> = if c == '\'' {
            "'\\''"@
        } else {
            seq![c]
        };
        assert(whole + rest =~= crate::text::replaced_char(front, '\'', "'\\''"@) + (one + rest));
        lemma_split_inside(front, one + rest, word);
        let begun = word + front;
        assert(begun.push(c) =~= word + value);
        if c == '\'' {
            reveal_strlit("'\\''");
            let text = "'\\''"@ + rest;
            assert(text.skip(1)[0] == '\\' && text.skip(1)[1] == '\'');
            assert(text.skip(1).skip(2)[0] == '\'');
            assert(text.skip(1).skip(2).skip(1) =~= rest);
            assert(begun + Seq::<char>::empty() =~= begun);
            assert(begun + seq!['\''] =~= begun.push(c));
            assert(begun.push(c) + Seq::<char>::empty() =~= begun.push(c));
            assert(shell_split(text, Some(begun), true) == shell_split(
                text.skip(1),
                Some(begun),
                false,
            ));
            assert(shell_split(text.skip(1), Some(begun), false) == shell_split(
                text.skip(1).skip(2),
                Some(begun.push(c)),
                false,
            ));
        } else {
            let text = seq![c] + rest;
            assert(text[0] == c);
            assert(text.skip(1) =~= rest);
            assert(begun + seq![c] =~= begun.push(c));
        }
    }
}

/// A quotation is read as the text that was quoted.
pub proof fn lemma_split_quoted(value: Seq<char>, rest: Seq<char>, current: Option<Seq<char>>)
    ensures
        shell_split(crate::image::quoted(value) + rest, current, false) == shell_split(
            rest,
            grown(current, value),
            false,
        ),
{
    reveal_strlit("'");
    let inner = crate::text::replaced_char(value, '\'', "'\\''"@);
    let text = crate::image::quoted(value) + rest;
    let begun = grown(current, Seq::empty())->Some_0;
    assert(text[0] == '\'');
    assert(text.skip(1) =~= inner + ("'"@ + rest));
    lemma_split_inside(value, "'"@ + rest, begun);
    let end = "'"@ + rest;
    assert(end[0] == '\'');
    assert(end.skip(1) =~= rest);
    assert(begun + value + Seq::<char>::empty() =~= begun + value);
    assert(grown(current, value) == Some(begun + value)) by {
        match current {
            Some(word) => {
                assert(word + Seq::<char>::empty() =~= word);
            },
            None => {
                assert(Seq::<char>::empty() + value =~= value);
            },
        }
    }
}

pub proof fn lemma_split_space(word: Seq<char>, rest: Seq<char>)
    ensures
        shell_split(seq![' '] + rest, Some(word), false) == with_first(word, shell_words(rest)),
{
    let text = seq![' '] + rest;
    assert(text[0] == ' ');
    assert(text.skip(1) =~= rest);
}

pub proof fn lemma_split_end(word: Seq<char>)
    ensures
        shell_split(Seq::empty(), Some(word), false) == Some(seq![word]),
{
}

/// Quoted words are read as the words that were quoted, with `rest` behind
/// the last of them.
pub proof fn lemma_split_quoted_words(items: Seq<Seq<char>>, rest: Seq<char>)
    requires
        items.len() > 0,
    ensures
        shell_words(crate::image::quoted_words(items) + rest) == with_words(
            items.drop_last(),
            shell_split(rest, Some(items.last()), false),
        ),
    decreases items.len(),
{
    let all = crate::image::all_quoted(items);
    reveal_strlit(" ");
    let last = items.last();
    if items.len() == 1 {
        assert(crate::image::quoted_words(items) == crate::image::quoted(last));
        lemma_split_quoted(last, rest, None);
        assert(items.drop_last() =~= Seq::empty());
        if let Some(list) = shell_split(rest, Some(last), false) {
            assert(items.drop_last() + list =~= list);
        }
    } else {
        let front = items.drop_last();
        assert(crate::image::all_quoted(front) =~= all.drop_last());
        let tail = crate::image::quoted(last) + rest;
        assert(crate::image::quoted_words(items) + rest =~= crate::image::quoted_words(front) + (
        seq![' '] + tail));
        lemma_split_quoted_words(front, seq![' '] + tail);
        lemma_split_space(front.last(), tail);
        lemma_split_quoted(last, rest, None);
        if let Some(list) = shell_split(rest, Some(last), false) {
            assert(front.drop_last() + (seq![front.last()] + list) =~= front + list);
        }
    }
}

/// One plain word in front of a command.
pub proof fn lemma_shell_word(word: Seq<char>, rest: Seq<char>)
    requires
        is_word(word),
        is_bare(word),
    ensures
        shell_words(word + (seq![' '] + rest)) == with_first(word, shell_words(rest)),
{
    lemma_split_word(word, seq![' '] + rest, None);
    lemma_split_space(word, rest);
}

/// A command of plain words and quoted ones behind them.
pub proof fn lemma_shell_words_quoted(items: Seq<Seq<char>>)
    requires
        items.len() > 0,
    ensures
        shell_words(crate::image::quoted_words(items)) == Some(items),
{
    let none = Seq::<char>::empty();
    lemma_split_quoted_words(items, none);
    assert(crate::image::quoted_words(items) + none =~= crate::image::quoted_words(items));
    assert(items.drop_last() + seq![items.last()] =~= items);
}

/// A text without quotes and escapes is read on its own, up to a space.
pub proof fn lemma_split_bare(text: Seq<char>, rest: Seq<char>, current: Option<Seq<char>>)
    requires
        is_bare(text),
    ensures
        shell_split(text, current, false) is Some,
        shell_split(text + (seq![' '] + rest), current, false) == with_words(
            shell_split(text, current, false)->Some_0,
            shell_words(rest),
        ),
    decreases text.len(),
{
    let whole = text + (seq![' '] + rest);
    if text.len() == 0 {
        assert(whole =~= seq![' '] + rest);
        assert(whole[0] == ' ' && whole.skip(1) =~= rest);
        if let Some(list) = shell_words(rest) {
            match current {
                Some(word) => {},
                None => {
                    assert(Seq::<Seq<char>>::empty() + list =~= list);
                },
            }
        }
    } else {
        let tail = text.skip(1);
        assert forall|i: int| 0 <= i < tail.len() implies #[trigger] tail[i] != '\'' && tail[i]
            != '\\' by {
            assert(text[i + 1] != '\'' && text[i + 1] != '\\');
        }
        assert(text[0] != '\'' && text[0] != '\\');
        assert(whole[0] == text[0]);
        assert(whole.skip(1) =~= tail + (seq![' '] + rest));
        if text[0] == ' ' {
            lemma_split_bare(tail, rest, None);
            if let Some(word) = current {
                if let Some(list) = shell_words(rest) {
                    let inner = shell_words(tail)->Some_0;
                    assert(seq![word] + (inner + list) =~= (seq![word] + inner) + list);
                }
            }
        } else {
            lemma_split_bare(tail, rest, grown(current, seq![text[0]]));
        }
    }
}

/// A command that is one plain word.
pub proof fn lemma_shell_one_word(word: Seq<char>)
    requires
        is_word(word),
        is_bare(word),
    ensures
        shell_words(word) == Some(seq![word]),
{
    let none = Seq::<char>::empty();
    lemma_split_word(word, none, None);
    assert(word + none =~= word);
}

} // verus!
