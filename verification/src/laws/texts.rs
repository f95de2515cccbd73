//! What the operations on text come to: what was joined splits again, what was
//! written is read back, and nothing else is lost.

use super::copying::{lemma_entry_is_one_deeper, plain_name};
use crate::paths::{extension_of, file_name_of, is_name, last_dot, path_join, stem_of};
use crate::platform::{all_digits, digits_value, is_digit, unsigned_digits, unsigned_value};
use crate::text::{
    decimal_text, digit_char, drop_leading, drop_trailing, free_of, has_prefix, hex_text, joined,
    lemma_pieces_nonempty, pieces, replaced_char, replaced_part, trimmed, CharSet,
};
use vstd::prelude::*;
use vstd::string::*;

verus! {

/// All characters of a text belong to a set.
pub open spec fn all_in(text: Seq<char>, set: CharSet) -> bool {
    forall|i: int| 0 <= i < text.len() ==> set.holds(#[trigger] text[i])
}

/// What is dropped before a text belongs to the set, and what stays does not
/// begin with it. The result is how many characters go.
pub proof fn lemma_leading_is_dropped(text: Seq<char>, set: CharSet) -> (n: int)
    ensures
        0 <= n <= text.len(),
        drop_leading(text, set) == text.skip(n),
        all_in(text.take(n), set),
        n < text.len() ==> !set.holds(text[n]),
    decreases text.len(),
{
    if text.len() > 0 && set.holds(text[0]) {
        let m = lemma_leading_is_dropped(text.skip(1), set);
        assert(text.skip(1).skip(m) =~= text.skip(m + 1));
        assert forall|i: int| 0 <= i < m + 1 implies set.holds(
            #[trigger] text.take(m + 1)[i],
        ) by {
            if i > 0 {
                assert(text.skip(1).take(m)[i - 1] == text[i]);
            }
        }
        m + 1
    } else {
        assert(text.skip(0) =~= text);
        0
    }
}

proof fn lemma_trailing_goes(text: Seq<char>, set: CharSet) -> (n: int)
    ensures
        0 <= n <= text.len(),
        drop_trailing(text, set) == text.take(n),
        all_in(text.skip(n), set),
        n > 0 ==> !set.holds(text[n - 1]),
    decreases text.len(),
{
    if text.len() > 0 && set.holds(text.last()) {
        let front = text.drop_last();
        let m = lemma_trailing_goes(front, set);
        assert(front.take(m) =~= text.take(m));
        assert forall|i: int| 0 <= i < text.len() - m implies set.holds(
            #[trigger] text.skip(m)[i],
        ) by {
            if m + i < front.len() {
                assert(front.skip(m)[i] == text[m + i]);
            }
        }
        m
    } else {
        assert(text.take(text.len() as int) =~= text);
        text.len() as int
    }
}

/// A trim takes characters of the set from both ends until there are none, and
/// nothing else. The result is what went before and behind.
pub proof fn lemma_trim_takes_the_ends(text: Seq<char>, set: CharSet) -> (r: (
    Seq<char>,
    Seq<char>,
))
    ensures
        text == r.0 + trimmed(text, set) + r.1,
        all_in(r.0, set),
        all_in(r.1, set),
        trimmed(text, set).len() > 0 ==> !set.holds(trimmed(text, set)[0]) && !set.holds(
            trimmed(text, set).last(),
        ),
{
    let n = lemma_leading_is_dropped(text, set);
    let middle = text.skip(n);
    let m = lemma_trailing_goes(middle, set);
    let before = text.take(n);
    let after = middle.skip(m);
    assert(text =~= before + middle.take(m) + after);
    (before, after)
}

/// The pieces of a text, put together with the separator again, are the text.
pub proof fn lemma_pieces_join_again(text: Seq<char>, separator: char)
    ensures
        joined(pieces(text, separator), seq![separator]) == text,
        pieces(text, separator).len() > 0,
    decreases text.len(),
{
    let between = seq![separator];
    lemma_pieces_nonempty(text, separator);
    if text.len() == 0 {
        assert(pieces(text, separator) =~= seq![Seq::<char>::empty()]);
        assert(joined(pieces(text, separator), between) =~= text);
    } else {
        let front = text.drop_last();
        let before = pieces(front, separator);
        lemma_pieces_join_again(front, separator);
        let all = pieces(text, separator);
        assert(front.push(text.last()) =~= text);
        if text.last() == separator {
            assert(all.drop_last() =~= before);
            assert(joined(all, between) =~= text);
        } else {
            assert(all.drop_last() =~= before.drop_last());
            assert(all.last() == before.last().push(text.last()));
            if before.len() == 1 {
                assert(all.len() == 1);
                assert(joined(all, between) =~= text);
            } else {
                assert(joined(before, between) == joined(before.drop_last(), between) + between
                    + before.last());
                assert(joined(all, between) =~= joined(before, between).push(text.last()));
            }
        }
    }
}

/// Joined lists are joined with one separator more.
pub proof fn lemma_joined_add(
    first: Seq<Seq<char>>,
    second: Seq<Seq<char>>,
    separator: Seq<char>,
)
    requires
        first.len() > 0,
        second.len() > 0,
    ensures
        joined(first + second, separator) == joined(first, separator) + separator + joined(
            second,
            separator,
        ),
    decreases second.len(),
{
    let all = first + second;
    if second.len() == 1 {
        assert(all.drop_last() =~= first);
        assert(all.last() == second[0]);
    } else {
        let front = second.drop_last();
        lemma_joined_add(first, front, separator);
        assert(all.drop_last() =~= first + front);
        assert(joined(all, separator) =~= joined(first, separator) + separator + joined(
            second,
            separator,
        ));
    }
}

/// Characters are replaced one by one: each that is meant, and no other.
pub proof fn lemma_replacing_is_by_character(
    first: Seq<char>,
    second: Seq<char>,
    old_char: char,
    with: Seq<char>,
)
    ensures
        replaced_char(first + second, old_char, with) == replaced_char(first, old_char, with)
            + replaced_char(second, old_char, with),
        replaced_char(seq![old_char], old_char, with) == with,
        forall|c: char|
            c != old_char ==> #[trigger] replaced_char(seq![c], old_char, with) == seq![c],
    decreases second.len(),
{
    let none = Seq::<char>::empty();
    assert(replaced_char(none, old_char, with) =~= none);
    assert(seq![old_char].drop_last() =~= none);
    assert(none + with =~= with);
    assert forall|c: char| c != old_char implies #[trigger] replaced_char(
        seq![c],
        old_char,
        with,
    ) == seq![c] by {
        assert(seq![c].drop_last() =~= none);
        assert(none.push(c) =~= seq![c]);
    }
    let all = first + second;
    if second.len() == 0 {
        assert(all =~= first);
        assert(second =~= none);
        assert(replaced_char(first, old_char, with) + none =~= replaced_char(
            first,
            old_char,
            with,
        ));
    } else {
        let front = second.drop_last();
        lemma_replacing_is_by_character(first, front, old_char, with);
        assert(all.drop_last() =~= first + front);
        assert(replaced_char(all, old_char, with) =~= replaced_char(first, old_char, with)
            + replaced_char(second, old_char, with));
    }
}

/// A part is replaced where it stands first, and the rest in the same way; where
/// it does not stand, a character is kept.
pub proof fn lemma_parts_are_replaced(
    part: Seq<char>,
    rest: Seq<char>,
    with: Seq<char>,
    c: char,
)
    requires
        part.len() > 0,
    ensures
        replaced_part(part + rest, part, with) == with + replaced_part(rest, part, with),
        c != part[0] ==> replaced_part(seq![c] + rest, part, with) == seq![c] + replaced_part(
            rest,
            part,
            with,
        ),
        replaced_part(Seq::empty(), part, with) == Seq::<char>::empty(),
{
    let text = part + rest;
    assert(text.take(part.len() as int) =~= part);
    assert(text.skip(part.len() as int) =~= rest);
    let other = seq![c] + rest;
    assert(other.skip(1) =~= rest);
    if c != part[0] {
        if has_prefix(other, part) {
            assert(other.take(part.len() as int)[0] == part[0]);
        }
        if other.len() < part.len() {
            assert(replaced_part(rest, part, with) == rest);
        }
    }
}

/// What a run of sixteenths is worth.
pub open spec fn hex_value(text: Seq<char>) -> nat
    decreases text.len(),
{
    if text.len() == 0 {
        0
    } else {
        let c = text.last();
        let digit: int = if '0' <= c <= '9' {
            c as int - '0' as int
        } else {
            c as int - 'a' as int + 10
        };
        (hex_value(text.drop_last()) * 16 + digit) as nat
    }
}

/// A number that has room in so many hexadecimal digits is read back from them.
pub proof fn lemma_hex_reads_back(number: nat, width: nat)
    ensures
        hex_text(number, width).len() == width,
        number < vstd::arithmetic::power::pow(16, width) ==> hex_value(hex_text(number, width))
            == number,
    decreases width,
{
    vstd::arithmetic::power::lemma_pow0(16);
    if width > 0 {
        let n = (width - 1) as nat;
        lemma_hex_reads_back(number / 16, n);
        vstd::arithmetic::power::lemma_pow1(16);
        vstd::arithmetic::power::lemma_pow_adds(16, n, 1);
        let all = hex_text(number, width);
        assert(all.drop_last() =~= hex_text(number / 16, n));
        let p = vstd::arithmetic::power::pow(16, n);
        assert(vstd::arithmetic::power::pow(16, width) == p * 16);
        if number < p * 16 {
            assert(number / 16 < p) by (nonlinear_arith)
                requires
                    number < p * 16,
            ;
            let digit = (number % 16) as int;
            assert(all.last() == digit_char(digit));
            assert(number == 16 * (number / 16) + number % 16);
        }
    }
}

proof fn lemma_decimal_digits(number: nat)
    ensures
        all_digits(decimal_text(number)),
        digits_value(decimal_text(number)) == number,
        decimal_text(number).len() > 0,
    decreases number,
{
    let text = decimal_text(number);
    if number < 10 {
        assert(text.drop_last() =~= Seq::empty());
        assert(is_digit(text[0]));
        assert(digits_value(text.drop_last()) == 0);
    } else {
        lemma_decimal_digits(number / 10);
        let front = decimal_text(number / 10);
        assert(text.drop_last() =~= front);
        assert forall|i: int| 0 <= i < text.len() implies is_digit(#[trigger] text[i]) by {
            if i < front.len() {
                assert(text[i] == front[i]);
            }
        }
    }
}

/// A number that was written is read back, as long as it is within the limit.
pub proof fn lemma_written_number_is_read(number: nat, limit: int)
    ensures
        unsigned_value(decimal_text(number), limit) == (if number <= limit {
            Some(number as int)
        } else {
            None
        }),
{
    lemma_decimal_digits(number);
    let text = decimal_text(number);
    assert(is_digit(text[0]));
    assert(unsigned_digits(text) == text);
}

proof fn lemma_dot_stands_there(stem: Seq<char>, ending: Seq<char>)
    requires
        free_of(ending, '.'),
    ensures
        last_dot(stem + "."@ + ending) == stem.len(),
    decreases ending.len(),
{
    reveal_strlit(".");
    let name = stem + "."@ + ending;
    if ending.len() == 0 {
        assert(name.last() == '.');
    } else {
        let front = ending.drop_last();
        assert(ending[ending.len() - 1] != '.');
        assert forall|i: int| 0 <= i < front.len() implies #[trigger] front[i] != '.' by {
            assert(ending[i] != '.');
        }
        lemma_dot_stands_there(stem, front);
        assert(name.drop_last() =~= stem + "."@ + front);
    }
}

/// A file has the name it was given below its directory, and its ending and its
/// stem are what stands on the two sides of the last dot.
pub proof fn lemma_file_keeps_its_name(dir: Seq<char>, stem: Seq<char>, ending: Seq<char>)
    requires
        stem.len() > 0,
        free_of(stem, '/'),
        free_of(ending, '/'),
        free_of(ending, '.'),
        ending.len() > 0,
    ensures
        file_name_of(path_join(dir, stem + "."@ + ending)) == Some(stem + "."@ + ending),
        extension_of(path_join(dir, stem + "."@ + ending)) == Some(ending),
        stem_of(path_join(dir, stem + "."@ + ending)) == Some(stem),
{
    reveal_strlit(".");
    reveal_strlit("..");
    reveal_strlit("/");
    let name = stem + "."@ + ending;
    assert forall|i: int| 0 <= i < name.len() implies #[trigger] name[i] != '/' by {
        if i < stem.len() {
            assert(name[i] == stem[i]);
        } else if i > stem.len() {
            assert(name[i] == ending[i - stem.len() - 1]);
        }
    }
    assert(name.len() >= 3);
    assert(plain_name(name));
    lemma_entry_is_one_deeper(dir, name);
    assert(is_name(name));
    lemma_dot_stands_there(stem, ending);
    assert(name.skip((stem.len() + 1) as int) =~= ending);
    assert(name.take(stem.len() as int) =~= stem);
}

} // verus!
