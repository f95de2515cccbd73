//! Text as sequences of characters: the string operations the rest of the
//! library is written in, each tied to a function on `Seq<char>`.

use vstd::prelude::*;
use vstd::string::*;

verus! {

/// `String::push` appends one character at the end.
pub assume_specification[ String::push ](text: &mut String, character: char)
    ensures
        final(text)@ == old(text)@.push(character),
;

/// The characters of every string of a list.
pub open spec fn texts(list: Seq<String>) -> Seq<Seq<char>> {
    Seq::new(list.len(), |i: int| list[i]@)
}

pub open spec fn str_option(text: Option<&str>) -> Option<Seq<char>> {
    match text {
        Some(text) => Some(text@),
        None => None,
    }
}

pub open spec fn text_option(text: Option<String>) -> Option<Seq<char>> {
    match text {
        Some(text) => Some(text@),
        None => None,
    }
}

pub broadcast proof fn lemma_texts_push(list: Seq<String>, text: String)
    ensures
        #[trigger] texts(list.push(text)) == texts(list).push(text@),
{
    assert(texts(list.push(text)) =~= texts(list).push(text@));
}

pub fn chars_of(text: &str) -> (r: Vec<char>)
    ensures
        r@ == text@,
{
    let mut out: Vec<char> = Vec::new();
    for c in it: text.chars()
        invariant
            out@ == it.seq().take(it.index() as int),
            it.seq() == text@,
    {
        out.push(c);
    }
    out
}

/// The characters of `chars` from `from` up to `to`.
pub fn text_between(chars: &Vec<char>, from: usize, to: usize) -> (r: String)
    requires
        from <= to <= chars@.len(),
    ensures
        r@ == chars@.subrange(from as int, to as int),
{
    let mut out = String::new();
    let mut i: usize = from;
    while i < to
        invariant
            from <= i <= to <= chars@.len(),
            out@ == chars@.subrange(from as int, i as int),
        decreases to - i,
    {
        out.push(chars[i]);
        i += 1;
    }
    out
}

pub fn text_of(chars: &Vec<char>) -> (r: String)
    ensures
        r@ == chars@,
{
    text_between(chars, 0, chars.len())
}


/// `part` stands in `text` at position `at`.
pub open spec fn occurs_at(text: Seq<char>, part: Seq<char>, at: int) -> bool {
    0 <= at && at + part.len() <= text.len() && text.subrange(at, at + part.len()) == part
}

/// `part` stands somewhere in `text`.
pub open spec fn contains_part(text: Seq<char>, part: Seq<char>) -> bool {
    exists|at: int| occurs_at(text, part, at)
}

pub open spec fn has_prefix(text: Seq<char>, prefix: Seq<char>) -> bool {
    prefix.len() <= text.len() && text.take(prefix.len() as int) == prefix
}

pub open spec fn has_suffix(text: Seq<char>, suffix: Seq<char>) -> bool {
    suffix.len() <= text.len() && text.skip(text.len() - suffix.len()) == suffix
}

fn matches_at(text: &Vec<char>, part: &Vec<char>, at: usize) -> (r: bool)
    ensures
        r == occurs_at(text@, part@, at as int),
{
    if part.len() > text.len() || at > text.len() - part.len() {
        return false;
    }
    let mut j: usize = 0;
    while j < part.len()
        invariant
            at + part.len() <= text.len(),
            j <= part@.len(),
            forall|k: int| 0 <= k < j ==> text@[at + k] == part@[k],
        decreases part@.len() - j,
    {
        if text[at + j] != part[j] {
            assert(text@.subrange(at as int, at + part@.len())[j as int] != part@[j as int]);
            return false;
        }
        j += 1;
    }
    assert(text@.subrange(at as int, at + part@.len()) =~= part@);
    true
}

pub fn contains(text: &str, part: &str) -> (r: bool)
    ensures
        r == contains_part(text@, part@),
{
    let t = chars_of(text);
    let p = chars_of(part);
    if p.len() > t.len() {
        return false;
    }
    let last: usize = t.len() - p.len();
    let mut at: usize = 0;
    while at < last
        invariant
            t@ == text@,
            p@ == part@,
            last == t@.len() - p@.len(),
            at <= last,
            forall|k: int| 0 <= k < at ==> !occurs_at(t@, p@, k),
        decreases last - at,
    {
        if matches_at(&t, &p, at) {
            return true;
        }
        at += 1;
    }
    matches_at(&t, &p, last)
}

pub fn starts_with(text: &str, prefix: &str) -> (r: bool)
    ensures
        r == has_prefix(text@, prefix@),
{
    let t = chars_of(text);
    let p = chars_of(prefix);
    let r = matches_at(&t, &p, 0);
    assert(prefix@.len() <= text@.len() ==> text@.subrange(0, prefix@.len() as int) =~= text@.take(
        prefix@.len() as int,
    ));
    r
}

pub fn ends_with(text: &str, suffix: &str) -> (r: bool)
    ensures
        r == has_suffix(text@, suffix@),
{
    let t = chars_of(text);
    let p = chars_of(suffix);
    if p.len() > t.len() {
        return false;
    }
    let at: usize = t.len() - p.len();
    assert(text@.subrange(at as int, at + suffix@.len()) =~= text@.skip(at as int));
    matches_at(&t, &p, at)
}

/// What follows `prefix`, when `text` starts with it.
pub fn strip_prefix(text: &str, prefix: &str) -> (r: Option<String>)
    ensures
        r is Some <==> has_prefix(text@, prefix@),
        r matches Some(rest) ==> rest@ == text@.skip(prefix@.len() as int),
{
    if !starts_with(text, prefix) {
        return None;
    }
    let t = chars_of(text);
    let n: usize = chars_of(prefix).len();
    let rest = text_between(&t, n, t.len());
    assert(text@.subrange(n as int, text@.len() as int) =~= text@.skip(n as int));
    Some(rest)
}

pub fn same_text(left: &str, right: &str) -> (r: bool)
    ensures
        r == (left@ == right@),
{
    left.to_owned() == right.to_owned()
}

/// The index of the first string equal to `wanted`.
pub fn position_of(list: &[String], wanted: &str) -> (r: Option<usize>)
    ensures
        r matches Some(i) ==> i < list@.len() && list@[i as int]@ == wanted@ && forall|j: int|
            0 <= j < i ==> list@[j]@ != wanted@,
        r is None ==> !texts(list@).contains(wanted@),
{
    let mut i: usize = 0;
    while i < list.len()
        invariant
            i <= list@.len(),
            forall|j: int| 0 <= j < i ==> list@[j]@ != wanted@,
        decreases list@.len() - i,
    {
        if same_text(list[i].as_str(), wanted) {
            return Some(i);
        }
        i += 1;
    }
    None
}

pub fn lists(list: &[String], wanted: &str) -> (r: bool)
    ensures
        r == texts(list@).contains(wanted@),
{
    match position_of(list, wanted) {
        Some(i) => {
            assert(texts(list@)[i as int] == wanted@);
            true
        },
        None => false,
    }
}

/// Whether two lists hold the same texts in the same order.
pub fn same_list(left: &[String], right: &[String]) -> (r: bool)
    ensures
        r == (texts(left@) == texts(right@)),
{
    if left.len() != right.len() {
        assert(texts(left@).len() != texts(right@).len());
        return false;
    }
    let mut i: usize = 0;
    while i < left.len()
        invariant
            left@.len() == right@.len(),
            i <= left@.len(),
            forall|j: int| 0 <= j < i ==> (#[trigger] left@[j])@ == right@[j]@,
        decreases left@.len() - i,
    {
        if !same_text(left[i].as_str(), right[i].as_str()) {
            assert(texts(left@)[i as int] != texts(right@)[i as int]);
            return false;
        }
        i += 1;
    }
    assert(texts(left@) =~= texts(right@));
    true
}

/// Unicode's White_Space characters.
pub open spec fn is_white_space(c: char) -> bool {
    ||| '\u{9}' <= c <= '\u{d}'
    ||| c == ' '
    ||| c == '\u{85}'
    ||| c == '\u{a0}'
    ||| c == '\u{1680}'
    ||| '\u{2000}' <= c <= '\u{200a}'
    ||| c == '\u{2028}'
    ||| c == '\u{2029}'
    ||| c == '\u{202f}'
    ||| c == '\u{205f}'
    ||| c == '\u{3000}'
}

/// The characters that a trim takes away.
#[derive(Clone, Copy)]
pub enum CharSet {
    WhiteSpace,
    One(char),
}

impl CharSet {
    pub open spec fn holds(self, c: char) -> bool {
        match self {
            CharSet::WhiteSpace => is_white_space(c),
            CharSet::One(only) => c == only,
        }
    }

    pub fn has(self, c: char) -> (r: bool)
        ensures
            r == self.holds(c),
    {
        match self {
            CharSet::WhiteSpace => {
                (c >= '\u{9}' && c <= '\u{d}') || c == ' ' || c == '\u{85}' || c == '\u{a0}' || c
                    == '\u{1680}' || (c >= '\u{2000}' && c <= '\u{200a}') || c == '\u{2028}' || c
                    == '\u{2029}' || c == '\u{202f}' || c == '\u{205f}' || c == '\u{3000}'
            },
            CharSet::One(only) => c == only,
        }
    }
}

pub open spec fn drop_leading(text: Seq<char>, set: CharSet) -> Seq<char>
    decreases text.len(),
{
    if text.len() > 0 && set.holds(text[0]) {
        drop_leading(text.skip(1), set)
    } else {
        text
    }
}

pub open spec fn drop_trailing(text: Seq<char>, set: CharSet) -> Seq<char>
    decreases text.len(),
{
    if text.len() > 0 && set.holds(text.last()) {
        drop_trailing(text.drop_last(), set)
    } else {
        text
    }
}

/// `text` without the characters of `set` at either end.
pub open spec fn trimmed(text: Seq<char>, set: CharSet) -> Seq<char> {
    drop_trailing(drop_leading(text, set), set)
}

pub fn trim_start(text: &str, set: CharSet) -> (r: String)
    ensures
        r@ == drop_leading(text@, set),
{
    let t = chars_of(text);
    let mut i: usize = 0;
    assert(t@.skip(0) =~= t@);
    while i < t.len() && set.has(t[i])
        invariant
            t@ == text@,
            i <= t@.len(),
            drop_leading(text@, set) == drop_leading(t@.skip(i as int), set),
        decreases t@.len() - i,
    {
        assert(t@.skip(i as int).skip(1) =~= t@.skip(i + 1));
        i += 1;
    }
    let r = text_between(&t, i, t.len());
    assert(t@.subrange(i as int, t@.len() as int) =~= t@.skip(i as int));
    r
}

pub fn trim_end(text: &str, set: CharSet) -> (r: String)
    ensures
        r@ == drop_trailing(text@, set),
{
    let t = chars_of(text);
    let mut n: usize = t.len();
    assert(t@.take(n as int) =~= t@);
    while n > 0 && set.has(t[n - 1])
        invariant
            t@ == text@,
            n <= t@.len(),
            drop_trailing(text@, set) == drop_trailing(t@.take(n as int), set),
        decreases n,
    {
        assert(t@.take(n as int).drop_last() =~= t@.take(n - 1));
        n -= 1;
    }
    let r = text_between(&t, 0, n);
    assert(t@.subrange(0, n as int) =~= t@.take(n as int));
    r
}

pub fn trim_both(text: &str, set: CharSet) -> (r: String)
    ensures
        r@ == trimmed(text@, set),
{
    let front = trim_start(text, set);
    trim_end(front.as_str(), set)
}

/// `text` without white space at either end.
pub fn trim(text: &str) -> (r: String)
    ensures
        r@ == trimmed(text@, CharSet::WhiteSpace),
{
    trim_both(text, CharSet::WhiteSpace)
}

/// The pieces of `list` between the separators, one more than there are separators.
pub open spec fn pieces<T>(list: Seq<T>, separator: T) -> Seq<Seq<T>>
    decreases list.len(),
{
    if list.len() == 0 {
        seq![Seq::<T>::empty()]
    } else {
        let before = pieces(list.drop_last(), separator);
        if list.last() == separator {
            before.push(Seq::<T>::empty())
        } else {
            before.drop_last().push(before.last().push(list.last()))
        }
    }
}

pub open spec fn views<T>(lists: Seq<Vec<T>>) -> Seq<Seq<T>> {
    Seq::new(lists.len(), |i: int| lists[i]@)
}

pub proof fn lemma_pieces_nonempty<T>(list: Seq<T>, separator: T)
    ensures
        pieces(list, separator).len() > 0,
    decreases list.len(),
{
    if list.len() > 0 {
        lemma_pieces_nonempty(list.drop_last(), separator);
    }
}

pub fn split_chars(chars: &Vec<char>, separator: char) -> (r: Vec<Vec<char>>)
    ensures
        views(r@) == pieces(chars@, separator),
        r@.len() > 0,
{
    let mut done: Vec<Vec<char>> = Vec::new();
    let mut current: Vec<char> = Vec::new();
    let mut i: usize = 0;
    assert(views(done@).push(current@) =~= pieces(chars@.take(0), separator));
    while i < chars.len()
        invariant
            i <= chars@.len(),
            views(done@).push(current@) == pieces(chars@.take(i as int), separator),
        decreases chars@.len() - i,
    {
        let c = chars[i];
        assert(chars@.take(i + 1).drop_last() =~= chars@.take(i as int));
        let ghost before = views(done@).push(current@);
        assert(before.drop_last() =~= views(done@));
        if c == separator {
            let ghost old_done = done@;
            done.push(current);
            current = Vec::new();
            assert(views(done@) =~= before);
        } else {
            current.push(c);
        }
        i += 1;
        assert(views(done@).push(current@) =~= pieces(chars@.take(i as int), separator));
    }
    assert(chars@.take(chars@.len() as int) =~= chars@);
    let ghost before = views(done@).push(current@);
    done.push(current);
    assert(views(done@) =~= before);
    done
}

pub open spec fn without_return(line: Seq<char>) -> Seq<char> {
    if line.len() > 0 && line.last() == '\r' {
        line.drop_last()
    } else {
        line
    }
}

/// The lines of `text`: a newline ends a line together with the carriage
/// return before it, and nothing follows the last newline.
pub open spec fn lines_of(text: Seq<char>) -> Seq<Seq<char>> {
    let all = pieces(text, '\n');
    let count = if all.last().len() == 0 {
        (all.len() - 1) as nat
    } else {
        all.len()
    };
    Seq::new(
        count,
        |i: int|
            if i + 1 < all.len() {
                without_return(all[i])
            } else {
                all[i]
            },
    )
}

pub fn lines(text: &str) -> (r: Vec<String>)
    ensures
        texts(r@) == lines_of(text@),
{
    let chars = chars_of(text);
    let all = split_chars(&chars, '\n');
    let ghost parts = pieces(text@, '\n');
    assert(views(all@) == parts);
    assert(views(all@).last() == all@[all@.len() - 1]@);
    let count: usize = if all[all.len() - 1].len() == 0 {
        all.len() - 1
    } else {
        all.len()
    };
    let mut out: Vec<String> = Vec::new();
    let mut i: usize = 0;
    while i < count
        invariant
            i <= count <= all@.len(),
            views(all@) == parts,
            parts == pieces(text@, '\n'),
            count == lines_of(text@).len(),
            texts(out@) == lines_of(text@).take(i as int),
        decreases count - i,
    {
        let piece = &all[i];
        assert(piece@ == parts[i as int]);
        let mut n: usize = piece.len();
        if i + 1 < all.len() && n > 0 && piece[n - 1] == '\r' {
            n -= 1;
        }
        let line = text_between(piece, 0, n);
        proof {
            lemma_texts_push(out@, line);
            assert(line@ =~= lines_of(text@)[i as int]);
        }
        out.push(line);
        i += 1;
        assert(texts(out@) =~= lines_of(text@).take(i as int));
    }
    assert(lines_of(text@).take(count as int) =~= lines_of(text@));
    out
}

/// `text` with `with` in place of every `old`.
pub open spec fn replaced_char(text: Seq<char>, old: char, with: Seq<char>) -> Seq<char>
    decreases text.len(),
{
    if text.len() == 0 {
        text
    } else if text.last() == old {
        replaced_char(text.drop_last(), old, with) + with
    } else {
        replaced_char(text.drop_last(), old, with).push(text.last())
    }
}

pub fn replace_char(text: &str, target: char, with: &str) -> (r: String)
    ensures
        r@ == replaced_char(text@, target, with@),
{
    let t = chars_of(text);
    let mut out = String::new();
    let mut i: usize = 0;
    while i < t.len()
        invariant
            t@ == text@,
            i <= t@.len(),
            out@ == replaced_char(t@.take(i as int), target, with@),
        decreases t@.len() - i,
    {
        assert(t@.take(i + 1).drop_last() =~= t@.take(i as int));
        if t[i] == target {
            out.append(with);
        } else {
            out.push(t[i]);
        }
        i += 1;
    }
    assert(t@.take(t@.len() as int) =~= t@);
    out
}

/// `text` with `with` in place of each `part`, found from the left.
pub open spec fn replaced_part(text: Seq<char>, part: Seq<char>, with: Seq<char>) -> Seq<char>
    decreases text.len(),
{
    if part.len() == 0 || text.len() < part.len() {
        text
    } else if has_prefix(text, part) {
        with + replaced_part(text.skip(part.len() as int), part, with)
    } else {
        seq![text[0]] + replaced_part(text.skip(1), part, with)
    }
}

pub fn replace_part(text: &str, part: &str, with: &str) -> (r: String)
    requires
        part@.len() > 0,
    ensures
        r@ == replaced_part(text@, part@, with@),
{
    let t = chars_of(text);
    let p = chars_of(part);
    let mut out = String::new();
    let mut i: usize = 0;
    assert(t@.skip(0) =~= t@);
    while i < t.len() && t.len() - i >= p.len()
        invariant
            t@ == text@,
            p@ == part@,
            p@.len() > 0,
            i <= t@.len(),
            replaced_part(text@, part@, with@) == out@ + replaced_part(t@.skip(i as int), part@, with@),
        decreases t@.len() - i,
    {
        let ghost rest = t@.skip(i as int);
        let here = matches_at(&t, &p, i);
        assert(t@.subrange(i as int, i + p@.len()) =~= rest.take(p@.len() as int));
        if here {
            assert(rest.skip(p@.len() as int) =~= t@.skip(i + p@.len()));
            out.append(with);
            i += p.len();
        } else {
            assert(rest.skip(1) =~= t@.skip(i + 1));
            out.push(t[i]);
            i += 1;
        }
        assert(replaced_part(text@, part@, with@) =~= out@ + replaced_part(
            t@.skip(i as int),
            part@,
            with@,
        ));
    }
    let tail = text_between(&t, i, t.len());
    assert(t@.subrange(i as int, t@.len() as int) =~= t@.skip(i as int));
    out.append(tail.as_str());
    out
}

/// The strings of `list` with `separator` between each two.
pub open spec fn joined(list: Seq<Seq<char>>, separator: Seq<char>) -> Seq<char>
    decreases list.len(),
{
    if list.len() == 0 {
        Seq::empty()
    } else if list.len() == 1 {
        list[0]
    } else {
        joined(list.drop_last(), separator) + separator + list.last()
    }
}

pub fn join(list: &[String], separator: &str) -> (r: String)
    ensures
        r@ == joined(texts(list@), separator@),
{
    let mut out = String::new();
    let mut i: usize = 0;
    while i < list.len()
        invariant
            i <= list@.len(),
            out@ == joined(texts(list@).take(i as int), separator@),
        decreases list@.len() - i,
    {
        assert(texts(list@).take(i + 1).drop_last() =~= texts(list@).take(i as int));
        if i > 0 {
            out.append(separator);
        }
        out.append(list[i].as_str());
        i += 1;
        assert(out@ =~= joined(texts(list@).take(i as int), separator@));
    }
    assert(texts(list@).take(list@.len() as int) =~= texts(list@));
    out
}

pub open spec fn digit_char(digit: int) -> char {
    if digit == 0 { '0' }
    else if digit == 1 { '1' }
    else if digit == 2 { '2' }
    else if digit == 3 { '3' }
    else if digit == 4 { '4' }
    else if digit == 5 { '5' }
    else if digit == 6 { '6' }
    else if digit == 7 { '7' }
    else if digit == 8 { '8' }
    else if digit == 9 { '9' }
    else if digit == 10 { 'a' }
    else if digit == 11 { 'b' }
    else if digit == 12 { 'c' }
    else if digit == 13 { 'd' }
    else if digit == 14 { 'e' }
    else { 'f' }
}

fn digit_of(digit: u64) -> (r: char)
    requires
        digit < 16,
    ensures
        r == digit_char(digit as int),
{
    if digit == 0 { '0' }
    else if digit == 1 { '1' }
    else if digit == 2 { '2' }
    else if digit == 3 { '3' }
    else if digit == 4 { '4' }
    else if digit == 5 { '5' }
    else if digit == 6 { '6' }
    else if digit == 7 { '7' }
    else if digit == 8 { '8' }
    else if digit == 9 { '9' }
    else if digit == 10 { 'a' }
    else if digit == 11 { 'b' }
    else if digit == 12 { 'c' }
    else if digit == 13 { 'd' }
    else if digit == 14 { 'e' }
    else { 'f' }
}

/// The decimal digits of `number`, without leading zeros.
pub open spec fn decimal_text(number: nat) -> Seq<char>
    decreases number,
{
    if number < 10 {
        seq![digit_char(number as int)]
    } else {
        decimal_text(number / 10).push(digit_char((number % 10) as int))
    }
}

pub fn decimal(number: u64) -> (r: String)
    ensures
        r@ == decimal_text(number as nat),
    decreases number,
{
    if number < 10 {
        let mut out = String::new();
        out.push(digit_of(number));
        assert(out@ =~= decimal_text(number as nat));
        out
    } else {
        let mut out = decimal(number / 10);
        out.push(digit_of(number % 10));
        out
    }
}

/// `number` in hexadecimal with exactly `width` digits, the high ones cut off.
pub open spec fn hex_text(number: nat, width: nat) -> Seq<char>
    decreases width,
{
    if width == 0 {
        Seq::empty()
    } else {
        hex_text(number / 16, (width - 1) as nat).push(digit_char((number % 16) as int))
    }
}

pub fn hex(number: u64, width: u64) -> (r: String)
    ensures
        r@ == hex_text(number as nat, width as nat),
    decreases width,
{
    if width == 0 {
        String::new()
    } else {
        let mut out = hex(number / 16, width - 1);
        out.push(digit_of(number % 16));
        out
    }
}

pub fn cat2(a: &str, b: &str) -> (r: String)
    ensures
        r@ == a@ + b@,
{
    let mut out = a.to_owned();
    out.append(b);
    out
}

pub fn cat3(a: &str, b: &str, c: &str) -> (r: String)
    ensures
        r@ == a@ + b@ + c@,
{
    let mut out = a.to_owned();
    out.append(b);
    out.append(c);
    out
}

pub fn cat4(a: &str, b: &str, c: &str, d: &str) -> (r: String)
    ensures
        r@ == a@ + b@ + c@ + d@,
{
    let mut out = a.to_owned();
    out.append(b);
    out.append(c);
    out.append(d);
    out
}

pub fn cat5(a: &str, b: &str, c: &str, d: &str, e: &str) -> (r: String)
    ensures
        r@ == a@ + b@ + c@ + d@ + e@,
{
    let mut out = a.to_owned();
    out.append(b);
    out.append(c);
    out.append(d);
    out.append(e);
    out
}

pub fn cat6(a: &str, b: &str, c: &str, d: &str, e: &str, f: &str) -> (r: String)
    ensures
        r@ == a@ + b@ + c@ + d@ + e@ + f@,
{
    let mut out = a.to_owned();
    out.append(b);
    out.append(c);
    out.append(d);
    out.append(e);
    out.append(f);
    out
}

pub fn cat7(a: &str, b: &str, c: &str, d: &str, e: &str, f: &str, g: &str) -> (r: String)
    ensures
        r@ == a@ + b@ + c@ + d@ + e@ + f@ + g@,
{
    let mut out = a.to_owned();
    out.append(b);
    out.append(c);
    out.append(d);
    out.append(e);
    out.append(f);
    out.append(g);
    out
}

/// Pairs of texts: variables with values, names with contents.
pub open spec fn text_pairs(list: Seq<(String, String)>) -> Seq<(Seq<char>, Seq<char>)> {
    Seq::new(list.len(), |i: int| (list[i].0@, list[i].1@))
}

/// `c` does not occur in `text`.
pub open spec fn free_of(text: Seq<char>, c: char) -> bool {
    forall|i: int| 0 <= i < text.len() ==> #[trigger] text[i] != c
}

pub proof fn lemma_free_of_add(left: Seq<char>, right: Seq<char>, c: char)
    requires
        free_of(left, c),
        free_of(right, c),
    ensures
        free_of(left + right, c),
{
    assert forall|i: int| 0 <= i < (left + right).len() implies #[trigger] (left + right)[i]
        != c by {
        if i < left.len() {
            assert(left[i] != c);
        } else {
            assert(right[i - left.len()] != c);
        }
    }
}

/// No piece holds the character at which the text was split.
pub proof fn lemma_pieces_free(text: Seq<char>, separator: char)
    ensures
        pieces(text, separator).len() > 0,
        forall|i: int|
            0 <= i < pieces(text, separator).len() ==> free_of(
                #[trigger] pieces(text, separator)[i],
                separator,
            ),
    decreases text.len(),
{
    if text.len() > 0 {
        lemma_pieces_free(text.drop_last(), separator);
        let before = pieces(text.drop_last(), separator);
        let after = pieces(text, separator);
        assert forall|i: int| 0 <= i < after.len() implies free_of(
            #[trigger] after[i],
            separator,
        ) by {
            if i < before.len() - 1 {
                assert(free_of(before[i], separator));
            } else if i == before.len() - 1 {
                assert(free_of(before[i], separator));
            }
        }
    }
}

/// No line holds a newline.
pub proof fn lemma_lines_free(text: Seq<char>)
    ensures
        forall|i: int| 0 <= i < lines_of(text).len() ==> free_of(#[trigger] lines_of(text)[i], '\n'),
{
    lemma_pieces_free(text, '\n');
    let all = pieces(text, '\n');
    assert forall|i: int| 0 <= i < lines_of(text).len() implies free_of(
        #[trigger] lines_of(text)[i],
        '\n',
    ) by {
        assert(free_of(all[i], '\n'));
    }
}

pub proof fn lemma_trimmed_free(text: Seq<char>, set: CharSet, c: char)
    requires
        free_of(text, c),
    ensures
        free_of(trimmed(text, set), c),
{
    lemma_drop_leading_free(text, set, c);
    lemma_drop_trailing_free(drop_leading(text, set), set, c);
}

proof fn lemma_drop_leading_free(text: Seq<char>, set: CharSet, c: char)
    requires
        free_of(text, c),
    ensures
        free_of(drop_leading(text, set), c),
    decreases text.len(),
{
    if text.len() > 0 && set.holds(text[0]) {
        assert(free_of(text.skip(1), c)) by {
            assert forall|i: int| 0 <= i < text.skip(1).len() implies #[trigger] text.skip(1)[i]
                != c by {
                assert(text[i + 1] != c);
            }
        }
        lemma_drop_leading_free(text.skip(1), set, c);
    }
}

proof fn lemma_drop_trailing_free(text: Seq<char>, set: CharSet, c: char)
    requires
        free_of(text, c),
    ensures
        free_of(drop_trailing(text, set), c),
    decreases text.len(),
{
    if text.len() > 0 && set.holds(text.last()) {
        assert(free_of(text.drop_last(), c)) by {
            assert forall|i: int| 0 <= i < text.drop_last().len() implies #[trigger] text.drop_last()[i]
                != c by {
                assert(text[i] != c);
            }
        }
        lemma_drop_trailing_free(text.drop_last(), set, c);
    }
}

/// Where a character is replaced by a text without `c`, and the text had no
/// other `c`, none is left.
pub proof fn lemma_replaced_char_free(text: Seq<char>, target: char, with: Seq<char>, c: char)
    requires
        free_of(with, c),
        c == target || free_of(text, c),
    ensures
        free_of(replaced_char(text, target, with), c),
    decreases text.len(),
{
    if text.len() > 0 {
        let front = text.drop_last();
        if c != target {
            assert forall|i: int| 0 <= i < front.len() implies #[trigger] front[i] != c by {
                assert(text[i] != c);
            }
        }
        lemma_replaced_char_free(front, target, with, c);
        let before = replaced_char(front, target, with);
        if text.last() == target {
            lemma_free_of_add(before, with, c);
        } else {
            assert(c != target ==> text[text.len() - 1] != c);
            assert(before.push(text.last()) =~= before + seq![text.last()]);
            lemma_free_of_add(before, seq![text.last()], c);
        }
    }
}

pub proof fn lemma_joined_free(list: Seq<Seq<char>>, separator: Seq<char>, c: char)
    requires
        forall|i: int| 0 <= i < list.len() ==> free_of(#[trigger] list[i], c),
        free_of(separator, c),
    ensures
        free_of(joined(list, separator), c),
    decreases list.len(),
{
    if list.len() > 1 {
        let front = list.drop_last();
        assert forall|i: int| 0 <= i < front.len() implies free_of(#[trigger] front[i], c) by {
            assert(free_of(list[i], c));
        }
        lemma_joined_free(front, separator, c);
        lemma_free_of_add(joined(front, separator), separator, c);
        assert(free_of(list[list.len() - 1], c));
        lemma_free_of_add(joined(front, separator) + separator, list.last(), c);
    } else if list.len() == 1 {
        assert(free_of(list[0], c));
    }
}

/// What occurs in a part of a text occurs in the text.
pub proof fn lemma_contains_inside(before: Seq<char>, inner: Seq<char>, after: Seq<char>, part: Seq<char>)
    requires
        contains_part(inner, part),
    ensures
        contains_part(before + inner + after, part),
{
    let at = choose|at: int| occurs_at(inner, part, at);
    let whole = before + inner + after;
    assert(whole.subrange(before.len() + at, before.len() + at + part.len()) =~= inner.subrange(
        at,
        at + part.len(),
    ));
    assert(occurs_at(whole, part, before.len() + at));
}

/// Two texts on either side of a separator are split on their own.
pub proof fn lemma_pieces_add(before: Seq<char>, after: Seq<char>, separator: char)
    ensures
        pieces(before.push(separator) + after, separator) == pieces(before, separator) + pieces(
            after,
            separator,
        ),
    decreases after.len(),
{
    let whole = before.push(separator) + after;
    let first = pieces(before, separator);
    if after.len() == 0 {
        assert(whole =~= before.push(separator));
        assert(whole.drop_last() =~= before);
        assert(pieces(whole, separator) =~= first + pieces(after, separator));
    } else {
        let rest = after.drop_last();
        lemma_pieces_add(before, rest, separator);
        lemma_pieces_nonempty(rest, separator);
        assert(whole.drop_last() =~= before.push(separator) + rest);
        let inner = pieces(rest, separator);
        assert((first + inner).drop_last() =~= first + inner.drop_last());
        assert((first + inner).last() == inner.last());
        assert(pieces(whole, separator) =~= first + pieces(after, separator));
    }
}

pub proof fn lemma_one_piece(text: Seq<char>, separator: char)
    requires
        free_of(text, separator),
    ensures
        pieces(text, separator) == seq![text],
    decreases text.len(),
{
    if text.len() > 0 {
        let front = text.drop_last();
        assert forall|i: int| 0 <= i < front.len() implies #[trigger] front[i] != separator by {
            assert(text[i] != separator);
        }
        lemma_one_piece(front, separator);
        assert(text[text.len() - 1] != separator);
        assert(front.push(text.last()) =~= text);
        assert(pieces(text, separator) =~= seq![text]);
    } else {
        assert(text =~= Seq::empty());
    }
}

/// What stands between two newlines is a line.
pub proof fn lemma_line_between(before: Seq<char>, line: Seq<char>, after: Seq<char>)
    requires
        free_of(line, '\n'),
        line.len() == 0 || line.last() != '\r',
    ensures
        lines_of(before.push('\n') + (line.push('\n') + after)).contains(line),
{
    let text = before.push('\n') + (line.push('\n') + after);
    let at = pieces(before, '\n').len() as int;
    lemma_pieces_add(before, line.push('\n') + after, '\n');
    lemma_pieces_add(line, after, '\n');
    lemma_one_piece(line, '\n');
    lemma_pieces_nonempty(after, '\n');
    let all = pieces(text, '\n');
    assert(all[at] == line);
    assert(at + 1 < all.len());
    assert(lines_of(text)[at] == line);
}

/// Trimming keeps what neither begins nor ends with a trimmed character.
pub proof fn lemma_trimmed_contains(text: Seq<char>, set: CharSet, part: Seq<char>)
    requires
        contains_part(text, part),
        part.len() > 0,
        !set.holds(part[0]),
        !set.holds(part.last()),
    ensures
        contains_part(trimmed(text, set), part),
{
    lemma_drop_leading_contains(text, set, part);
    lemma_drop_trailing_contains(drop_leading(text, set), set, part);
}

proof fn lemma_drop_leading_contains(text: Seq<char>, set: CharSet, part: Seq<char>)
    requires
        contains_part(text, part),
        part.len() > 0,
        !set.holds(part[0]),
    ensures
        contains_part(drop_leading(text, set), part),
    decreases text.len(),
{
    if text.len() > 0 && set.holds(text[0]) {
        let at = choose|at: int| occurs_at(text, part, at);
        assert(text.subrange(at, at + part.len())[0] == part[0]);
        assert(at != 0);
        let rest = text.skip(1);
        assert(rest.subrange(at - 1, at - 1 + part.len()) =~= text.subrange(at, at + part.len()));
        assert(occurs_at(rest, part, at - 1));
        lemma_drop_leading_contains(rest, set, part);
    }
}

proof fn lemma_drop_trailing_contains(text: Seq<char>, set: CharSet, part: Seq<char>)
    requires
        contains_part(text, part),
        part.len() > 0,
        !set.holds(part.last()),
    ensures
        contains_part(drop_trailing(text, set), part),
    decreases text.len(),
{
    if text.len() > 0 && set.holds(text.last()) {
        let at = choose|at: int| occurs_at(text, part, at);
        assert(text.subrange(at, at + part.len())[part.len() - 1] == part.last());
        assert(at + part.len() != text.len());
        let rest = text.drop_last();
        assert(rest.subrange(at, at + part.len()) =~= text.subrange(at, at + part.len()));
        assert(occurs_at(rest, part, at));
        lemma_drop_trailing_contains(rest, set, part);
    }
}

/// Where a character does not occur, replacing it changes nothing.
pub proof fn lemma_nothing_replaced(text: Seq<char>, target: char, with: Seq<char>)
    requires
        free_of(text, target),
    ensures
        replaced_char(text, target, with) == text,
    decreases text.len(),
{
    if text.len() > 0 {
        let front = text.drop_last();
        assert forall|i: int| 0 <= i < front.len() implies #[trigger] front[i] != target by {
            assert(text[i] != target);
        }
        lemma_nothing_replaced(front, target, with);
        assert(text[text.len() - 1] != target);
        assert(front.push(text.last()) =~= text);
    }
}

/// What `Debug` makes of a text: the text in quotation marks, with escapes.
pub uninterp spec fn debug_text(text: Seq<char>) -> Seq<char>;

/// Formats a text with its `Debug`, which depends on the text alone.
#[verifier::external_body]
pub(crate) fn debug_of(text: &str) -> (r: String)
    ensures
        r@ == debug_text(text@),
{
    format!("{:?}", text)
}

} // verus!
