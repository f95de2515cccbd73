//! Slash-separated paths as text: joining, components, and the patterns that
//! keep a path out of a session.

use crate::order::{lemma_first_with_rank, lex_less, sorted_unique, text_rank, with_rank, Ranked};
use crate::text::{
    cat2, chars_of, has_prefix, join, joined, lemma_texts_push, pieces, same_text, split_chars,
    starts_with, text_between, text_of, texts, views,
};
use vstd::prelude::*;
use vstd::string::*;

verus! {

/// `rest` below `base`; an absolute `rest` stands for itself.
pub open spec fn path_join(base: Seq<char>, rest: Seq<char>) -> Seq<char> {
    if has_prefix(rest, "/"@) {
        rest
    } else if base.len() == 0 || base.last() == '/' {
        base + rest
    } else {
        base + "/"@ + rest
    }
}

pub fn join_path(base: &str, rest: &str) -> (r: String)
    ensures
        r@ == path_join(base@, rest@),
{
    if starts_with(rest, "/") {
        return rest.to_owned();
    }
    let chars = chars_of(base);
    let mut out = base.to_owned();
    if chars.len() == 0 || chars[chars.len() - 1] == '/' {
        out.append(rest);
    } else {
        out.append("/");
        out.append(rest);
    }
    out
}

pub open spec fn path_is_absolute(path: Seq<char>) -> bool {
    has_prefix(path, "/"@)
}

pub fn is_absolute(path: &str) -> (r: bool)
    ensures
        r == path_is_absolute(path@),
{
    starts_with(path, "/")
}

/// The parts that name something: a part that is empty says nothing, and a
/// single dot says something only at the front of a relative path.
pub open spec fn named_parts(parts: Seq<Seq<char>>, rooted: bool) -> Seq<Seq<char>>
    decreases parts.len(),
{
    if parts.len() == 0 {
        Seq::empty()
    } else {
        let before = named_parts(parts.drop_last(), rooted);
        let part = parts.last();
        if part.len() == 0 || (part == "."@ && (rooted || parts.len() > 1)) {
            before
        } else {
            before.push(part)
        }
    }
}

/// The components of a path: the root, if it has one, and its named parts.
pub open spec fn components_of(path: Seq<char>) -> Seq<Seq<char>> {
    let rooted = path_is_absolute(path);
    let named = named_parts(pieces(path, '/'), rooted);
    if rooted {
        seq!["/"@] + named
    } else {
        named
    }
}

pub fn components(path: &str) -> (r: Vec<String>)
    ensures
        texts(r@) == components_of(path@),
{
    broadcast use lemma_texts_push;

    let chars = chars_of(path);
    let parts = split_chars(&chars, '/');
    let rooted = starts_with(path, "/");
    let mut out: Vec<String> = Vec::new();
    let ghost head: Seq<Seq<char>> = if rooted {
        seq!["/"@]
    } else {
        Seq::empty()
    };
    if rooted {
        out.push("/".to_owned());
    }
    assert(texts(out@) =~= head);
    let ghost all = pieces(path@, '/');
    let mut i: usize = 0;
    while i < parts.len()
        invariant
            i <= parts@.len(),
            views(parts@) == all,
            texts(out@) == head + named_parts(all.take(i as int), rooted),
        decreases parts@.len() - i,
    {
        broadcast use lemma_texts_push;

        let part = text_of(&parts[i]);
        assert(part@ == all[i as int]);
        assert(all.take(i + 1).drop_last() =~= all.take(i as int));
        assert(all.take(i + 1).last() == part@);
        let skip = parts[i].len() == 0 || (same_text(part.as_str(), ".") && (rooted || i > 0));
        if !skip {
            let ghost before = named_parts(all.take(i as int), rooted);
            assert((head + before).push(part@) =~= head + before.push(part@));
            out.push(part);
        }
        i += 1;
    }
    assert(all.take(all.len() as int) =~= all);
    assert(Seq::<Seq<char>>::empty() + named_parts(all, rooted) =~= named_parts(all, rooted));
    out
}

/// The place of a component: the root, `.`, `..`, then names by their text.
pub open spec fn component_rank(component: Seq<char>) -> Seq<int> {
    let kind: int = if component == "/"@ {
        0
    } else if component == "."@ {
        1
    } else if component == ".."@ {
        2
    } else {
        3
    };
    seq![kind] + text_rank(component) + seq![-1int]
}

pub open spec fn components_rank(components: Seq<Seq<char>>) -> Seq<int>
    decreases components.len(),
{
    if components.len() == 0 {
        Seq::empty()
    } else {
        component_rank(components[0]) + components_rank(components.skip(1))
    }
}

/// The place of a path: its components one after the other.
pub open spec fn path_rank(path: Seq<char>) -> Seq<int> {
    components_rank(components_of(path))
}

/// The number that stands for a component's kind in its rank.
fn component_kind(component: &str) -> (r: i64)
    ensures
        r == component_rank(component@)[0],
{
    if same_text(component, "/") {
        0
    } else if same_text(component, ".") {
        1
    } else if same_text(component, "..") {
        2
    } else {
        3
    }
}

pub open spec fn numbers(list: Seq<i64>) -> Seq<int> {
    Seq::new(list.len(), |i: int| list[i] as int)
}

proof fn lemma_numbers_push(list: Seq<i64>, number: i64)
    ensures
        numbers(list.push(number)) == numbers(list).push(number as int),
{
    assert(numbers(list.push(number)) =~= numbers(list).push(number as int));
}

fn code_point(c: char) -> (r: i64)
    ensures
        r == c as int,
{
    let code: u32 = c as u32;
    code as i64
}

fn path_numbers(path: &str) -> (r: Vec<i64>)
    ensures
        numbers(r@) == path_rank(path@),
{
    let parts = components(path);
    let mut out: Vec<i64> = Vec::new();
    let ghost all = components_of(path@);
    let mut i: usize = 0;
    assert(all.skip(0) =~= all);
    assert(numbers(out@) + components_rank(all) =~= components_rank(all));
    while i < parts.len()
        invariant
            i <= parts@.len(),
            all == texts(parts@),
            numbers(out@) + components_rank(all.skip(i as int)) == components_rank(all),
        decreases parts@.len() - i,
    {
        let ghost start = numbers(out@);
        let part = parts[i].as_str();
        assert(all.skip(i as int)[0] == part@);
        assert(all.skip(i as int).skip(1) =~= all.skip(i + 1));
        out.push(component_kind(part));
        let chars = chars_of(part);
        let mut j: usize = 0;
        assert(numbers(out@) =~= start.push(component_rank(part@)[0]) + text_rank(part@).take(0));
        while j < chars.len()
            invariant
                chars@ == part@,
                j <= chars@.len(),
                numbers(out@) == start.push(component_rank(part@)[0]) + text_rank(part@).take(
                    j as int,
                ),
            decreases chars@.len() - j,
        {
            let code = code_point(chars[j]);
            let ghost before = out@;
            out.push(code);
            proof {
                lemma_numbers_push(before, code);
                assert(text_rank(part@)[j as int] == code);
                assert(text_rank(part@).take(j + 1) =~= text_rank(part@).take(j as int).push(
                    code as int,
                ));
                assert(numbers(out@) =~= start.push(component_rank(part@)[0]) + text_rank(
                    part@,
                ).take(j + 1));
            }
            j += 1;
        }
        let ghost before = out@;
        let end: i64 = -1;
        out.push(end);
        proof {
            lemma_numbers_push(before, end);
            assert(text_rank(part@).take(j as int) =~= text_rank(part@));
            assert(numbers(out@) =~= start + component_rank(part@));
            let tail = components_rank(all.skip(i + 1));
            assert((start + component_rank(part@)) + tail =~= start + (component_rank(part@) + tail));
        }
        i += 1;
    }
    assert(all.skip(all.len() as int) =~= Seq::empty());
    assert(numbers(out@) =~= components_rank(all));
    out
}

/// A path together with its place in the order of paths.
pub struct RankedPath {
    pub text: String,
    pub place: Vec<i64>,
}

impl RankedPath {
    pub open spec fn placed(&self) -> bool {
        numbers(self.place@) == path_rank(self.text@)
    }
}

impl Ranked for RankedPath {
    open spec fn rank(&self) -> Seq<int> {
        numbers(self.place@)
    }

    fn precedes(&self, other: &Self) -> (r: bool) {
        let a = &self.place;
        let b = &other.place;
        let ghost ra = self.rank();
        let ghost rb = other.rank();
        let mut i: usize = 0;
        assert(ra.skip(0) =~= ra);
        assert(rb.skip(0) =~= rb);
        while i < a.len() && i < b.len()
            invariant
                ra == self.rank(),
                rb == other.rank(),
                ra == numbers(a@),
                rb == numbers(b@),
                i <= a@.len(),
                i <= b@.len(),
                lex_less(ra, rb) == lex_less(ra.skip(i as int), rb.skip(i as int)),
            decreases a@.len() - i,
        {
            assert(ra.skip(i as int)[0] == a@[i as int]);
            assert(rb.skip(i as int)[0] == b@[i as int]);
            if a[i] != b[i] {
                return a[i] < b[i];
            }
            assert(ra.skip(i as int).skip(1) =~= ra.skip(i + 1));
            assert(rb.skip(i as int).skip(1) =~= rb.skip(i + 1));
            i += 1;
        }
        i < b.len()
    }
}

/// `path` is the first of its place in `list`.
pub open spec fn first_of_its_place(list: Seq<Seq<char>>, path: Seq<char>) -> bool {
    exists|j: int|
        0 <= j < list.len() && #[trigger] list[j] == path && forall|k: int|
            0 <= k < j ==> path_rank(#[trigger] list[k]) != path_rank(path)
}

/// A path of `list` stands at `place`.
pub open spec fn has_place(list: Seq<Seq<char>>, place: Seq<int>) -> bool {
    exists|i: int| 0 <= i < list.len() && path_rank(#[trigger] list[i]) == place
}

/// `unique` holds the paths of `list` in order, each place once.
pub open spec fn paths_in_order(list: Seq<Seq<char>>, unique: Seq<Seq<char>>) -> bool {
    &&& forall|i: int, j: int|
        0 <= i < j < unique.len() ==> lex_less(path_rank(unique[i]), path_rank(unique[j]))
    &&& forall|i: int| 0 <= i < unique.len() ==> first_of_its_place(list, #[trigger] unique[i])
    &&& forall|j: int| 0 <= j < list.len() ==> has_place(unique, path_rank(#[trigger] list[j]))
}

/// The paths of `list` in path order, without repetition.
pub fn sort_paths(list: Vec<String>) -> (r: Vec<String>)
    ensures
        paths_in_order(texts(list@), texts(r@)),
{
    let mut keyed: Vec<RankedPath> = Vec::new();
    let ghost all = texts(list@);
    let mut rest = list;
    assert(rest@.skip(0) =~= rest@);
    while rest.len() > 0
        invariant
            all.len() == keyed@.len() + rest@.len(),
            forall|i: int| 0 <= i < rest@.len() ==> all[keyed@.len() + i] == (#[trigger] rest@[i])@,
            forall|i: int|
                0 <= i < keyed@.len() ==> (#[trigger] keyed@[i]).placed() && keyed@[i].text@ == all[i],
        decreases rest@.len(),
    {
        let ghost before = rest@;
        let text = rest.remove(0);
        assert(text@ == all[keyed@.len() as int]);
        assert forall|i: int| 0 <= i < rest@.len() implies all[keyed@.len() + 1 + i] == (
        #[trigger] rest@[i])@ by {
            assert(rest@[i] == before[i + 1]);
        }
        let place = path_numbers(text.as_str());
        keyed.push(RankedPath { text, place });
    }
    let ghost listed = keyed@;
    let mut unique = sorted_unique(keyed);
    let ghost sorted = unique@;
    proof {
        assert forall|i: int| 0 <= i < sorted.len() implies (#[trigger] sorted[i]).placed()
            && first_of_its_place(all, sorted[i].text@) by {
            lemma_first_with_rank(listed, sorted[i].rank());
            let j = choose|j: int|
                0 <= j < listed.len() && #[trigger] listed[j] == with_rank(
                    listed,
                    sorted[i].rank(),
                )[0] && listed[j].rank() == sorted[i].rank() && forall|k: int|
                    0 <= k < j ==> (#[trigger] listed[k]).rank() != sorted[i].rank();
            assert(listed[j].placed());
            assert(all[j] == sorted[i].text@);
            assert forall|k: int| 0 <= k < j implies path_rank(#[trigger] all[k]) != path_rank(
                sorted[i].text@,
            ) by {
                assert(listed[k].placed());
                assert(listed[k].rank() != sorted[i].rank());
            }
        }
    }
    let mut out: Vec<String> = Vec::new();
    while unique.len() > 0
        invariant
            sorted.len() == out@.len() + unique@.len(),
            forall|i: int|
                0 <= i < unique@.len() ==> sorted[out@.len() + i] == #[trigger] unique@[i],
            forall|i: int| 0 <= i < out@.len() ==> (#[trigger] out@[i])@ == sorted[i].text@,
        decreases unique@.len(),
    {
        let ghost before = unique@;
        let item = unique.remove(0);
        assert(item == sorted[out@.len() as int]);
        assert forall|i: int| 0 <= i < unique@.len() implies sorted[out@.len() + 1 + i]
            == #[trigger] unique@[i] by {
            assert(unique@[i] == before[i + 1]);
        }
        out.push(item.text);
    }
    proof {
        let result = texts(out@);
        assert forall|i: int, j: int| 0 <= i < j < result.len() implies lex_less(
            path_rank(result[i]),
            path_rank(result[j]),
        ) by {
            assert(lex_less(sorted[i].rank(), sorted[j].rank()));
            assert(sorted[i].placed() && sorted[j].placed());
        }
        assert forall|i: int| 0 <= i < result.len() implies first_of_its_place(
            all,
            #[trigger] result[i],
        ) by {
            assert(sorted[i].placed());
        }
        assert forall|j: int| 0 <= j < all.len() implies has_place(
            result,
            path_rank(#[trigger] all[j]),
        ) by {
            assert(listed[j].placed());
            let i = choose|i: int|
                0 <= i < sorted.len() && (#[trigger] sorted[i]).rank() == listed[j].rank();
            assert(sorted[i].placed());
            assert(path_rank(result[i]) == path_rank(all[j]));
        }
    }
    out
}

/// A component that names something, and does not lead elsewhere.
pub open spec fn is_name(component: Seq<char>) -> bool {
    component != "/"@ && component != "."@ && component != ".."@
}

/// The last component of a path, where that is a name.
pub open spec fn file_name_of(path: Seq<char>) -> Option<Seq<char>> {
    let parts = components_of(path);
    if parts.len() > 0 && is_name(parts.last()) {
        Some(parts.last())
    } else {
        None
    }
}

pub fn file_name(path: &str) -> (r: Option<String>)
    ensures
        (match r {
            Some(name) => file_name_of(path@) == Some(name@),
            None => file_name_of(path@) is None,
        }),
{
    let mut parts = components(path);
    let ghost all = components_of(path@);
    match parts.pop() {
        None => None,
        Some(last) => {
            assert(all.last() == last@);
            if same_text(last.as_str(), "/") || same_text(last.as_str(), ".") || same_text(
                last.as_str(),
                "..",
            ) {
                None
            } else {
                Some(last)
            }
        },
    }
}

/// Where the last dot of a name stands; -1 without one.
pub open spec fn last_dot(name: Seq<char>) -> int
    decreases name.len(),
{
    if name.len() == 0 {
        -1
    } else if name.last() == '.' {
        name.len() - 1
    } else {
        last_dot(name.drop_last())
    }
}

/// What follows the last dot of the file name; a dot in front is no
/// extension's.
pub open spec fn extension_of(path: Seq<char>) -> Option<Seq<char>> {
    match file_name_of(path) {
        Some(name) => if last_dot(name) > 0 {
            Some(name.skip(last_dot(name) + 1))
        } else {
            None
        },
        None => None,
    }
}

/// The file name without its extension.
pub open spec fn stem_of(path: Seq<char>) -> Option<Seq<char>> {
    match file_name_of(path) {
        Some(name) => if last_dot(name) > 0 {
            Some(name.take(last_dot(name)))
        } else {
            Some(name)
        },
        None => None,
    }
}

/// One past the last dot of a name; zero without one.
fn after_last_dot(name: &Vec<char>) -> (r: usize)
    ensures
        r == last_dot(name@) + 1,
        r <= name@.len(),
{
    let mut i: usize = name.len();
    assert(name@.take(i as int) =~= name@);
    while i > 0
        invariant
            i <= name@.len(),
            last_dot(name@) == last_dot(name@.take(i as int)),
        decreases i,
    {
        let ghost head = name@.take(i as int);
        assert(head.last() == name@[i - 1]);
        assert(head.drop_last() =~= name@.take(i - 1));
        if name[i - 1] == '.' {
            return i;
        }
        i -= 1;
    }
    0
}

pub fn extension(path: &str) -> (r: Option<String>)
    ensures
        (match r {
            Some(ending) => extension_of(path@) == Some(ending@),
            None => extension_of(path@) is None,
        }),
{
    let name = match file_name(path) {
        Some(name) => name,
        None => return None,
    };
    let chars = chars_of(name.as_str());
    let at = after_last_dot(&chars);
    if at > 1 {
        assert(chars@.subrange(at as int, chars@.len() as int) =~= name@.skip(at as int));
        Some(text_between(&chars, at, chars.len()))
    } else {
        None
    }
}

pub fn file_stem(path: &str) -> (r: Option<String>)
    ensures
        (match r {
            Some(stem) => stem_of(path@) == Some(stem@),
            None => stem_of(path@) is None,
        }),
{
    let name = match file_name(path) {
        Some(name) => name,
        None => return None,
    };
    let chars = chars_of(name.as_str());
    let at = after_last_dot(&chars);
    if at > 1 {
        assert(chars@.subrange(0, at - 1) =~= name@.take(at - 1));
        Some(text_between(&chars, 0, at - 1))
    } else {
        Some(name)
    }
}

pub open spec fn has_extension(path: Seq<char>, ending: Seq<char>) -> bool {
    extension_of(path) == Some(ending)
}

pub fn ends_in(path: &str, ending: &str) -> (r: bool)
    ensures
        r == has_extension(path@, ending@),
{
    match extension(path) {
        Some(found) => same_text(found.as_str(), ending),
        None => false,
    }
}

/// `parts` occur in `whole` from `at` on.
pub open spec fn parts_at(whole: Seq<Seq<char>>, parts: Seq<Seq<char>>, at: int) -> bool {
    0 <= at && at + parts.len() <= whole.len() && forall|k: int|
        0 <= k < parts.len() ==> #[trigger] parts[k] == whole[at + k]
}

/// `path` leads through `base`, component by component.
pub open spec fn path_starts_with(path: Seq<char>, base: Seq<char>) -> bool {
    parts_at(components_of(path), components_of(base), 0)
}

fn have_parts_at(whole: &Vec<String>, parts: &Vec<String>, at: usize) -> (r: bool)
    ensures
        r == parts_at(texts(whole@), texts(parts@), at as int),
{
    let ghost w = texts(whole@);
    let ghost p = texts(parts@);
    if parts.len() > whole.len() || at > whole.len() - parts.len() {
        return false;
    }
    let mut k: usize = 0;
    while k < parts.len()
        invariant
            k <= parts@.len(),
            at + parts.len() <= whole.len(),
            w == texts(whole@),
            p == texts(parts@),
            forall|j: int| 0 <= j < k ==> #[trigger] p[j] == w[at + j],
        decreases parts@.len() - k,
    {
        if !same_text(parts[k].as_str(), whole[at + k].as_str()) {
            assert(p[k as int] != w[at + k]);
            return false;
        }
        k += 1;
    }
    true
}

pub fn starts_with_path(path: &str, base: &str) -> (r: bool)
    ensures
        r == path_starts_with(path@, base@),
{
    let whole = components(path);
    let parts = components(base);
    have_parts_at(&whole, &parts, 0)
}

/// The components of `pattern` occur in `path`, one behind the other.
pub open spec fn pattern_matches(path: Seq<char>, pattern: Seq<char>) -> bool {
    exists|at: int| #[trigger] parts_at(components_of(path), components_of(pattern), at)
}

/// One of `patterns` matches `path`.
pub open spec fn any_matches(path: Seq<char>, patterns: Seq<Seq<char>>) -> bool {
    exists|i: int| 0 <= i < patterns.len() && pattern_matches(path, #[trigger] patterns[i])
}

fn matches_pattern(whole: &Vec<String>, parts: &Vec<String>) -> (r: bool)
    ensures
        r == (exists|at: int| #[trigger] parts_at(texts(whole@), texts(parts@), at)),
{
    let ghost w = texts(whole@);
    let ghost p = texts(parts@);
    if parts.len() > whole.len() {
        return false;
    }
    let last = whole.len() - parts.len();
    let mut at: usize = 0;
    while at <= last
        invariant
            parts@.len() <= whole@.len(),
            last == whole.len() - parts.len(),
            at <= last + 1,
            w == texts(whole@),
            p == texts(parts@),
            forall|j: int| 0 <= j < at ==> !#[trigger] parts_at(w, p, j),
        decreases last + 1 - at,
    {
        if have_parts_at(whole, parts, at) {
            return true;
        }
        if at == last {
            assert forall|j: int| !#[trigger] parts_at(w, p, j) by {
                if 0 <= j < at {
                    assert(!parts_at(w, p, j));
                }
            }
            return false;
        }
        at += 1;
    }
    false
}

/// A pattern without components would match at no place, so that it may
/// stand only behind one that matches.
pub open spec fn patterns_usable(path: Seq<char>, patterns: Seq<Seq<char>>) -> bool {
    forall|i: int|
        0 <= i < patterns.len() && components_of(#[trigger] patterns[i]).len() == 0 ==> any_matches(
            path,
            patterns.take(i),
        )
}

/// Whether one of `patterns` matches `path`.
pub fn matches_any(path: &str, patterns: &[String]) -> (r: bool)
    requires
        patterns_usable(path@, texts(patterns@)),
    ensures
        r == any_matches(path@, texts(patterns@)),
{
    let whole = components(path);
    let ghost all = texts(patterns@);
    let mut i: usize = 0;
    while i < patterns.len()
        invariant
            i <= patterns@.len(),
            all == texts(patterns@),
            texts(whole@) == components_of(path@),
            forall|j: int| 0 <= j < i ==> !pattern_matches(path@, #[trigger] all[j]),
        decreases patterns@.len() - i,
    {
        let parts = components(patterns[i].as_str());
        if matches_pattern(&whole, &parts) {
            assert(pattern_matches(path@, all[i as int]));
            return true;
        }
        assert(!pattern_matches(path@, all[i as int]));
        i += 1;
    }
    false
}

/// A path that sessions leave alone: the repository's own data, and what a
/// pattern matches.
pub open spec fn excluded(path: Seq<char>, patterns: Seq<Seq<char>>) -> bool {
    path_starts_with(path, ".git"@) || any_matches(path, patterns)
}

pub fn is_excluded(path: &str, patterns: &[String]) -> (r: bool)
    requires
        path_starts_with(path@, ".git"@) || patterns_usable(path@, texts(patterns@)),
    ensures
        r == excluded(path@, texts(patterns@)),
{
    starts_with_path(path, ".git") || matches_any(path, patterns)
}

proof fn lemma_pattern_stays(path: Seq<char>, deeper: Seq<char>, pattern: Seq<char>)
    requires
        components_of(path).is_prefix_of(components_of(deeper)),
        pattern_matches(path, pattern),
    ensures
        pattern_matches(deeper, pattern),
{
    let short = components_of(path);
    let long = components_of(deeper);
    let parts = components_of(pattern);
    let at = choose|at: int| #[trigger] parts_at(short, parts, at);
    assert forall|k: int| 0 <= k < parts.len() implies #[trigger] parts[k] == long[at + k] by {
        assert(parts[k] == short[at + k]);
        assert(long.take(short.len() as int)[at + k] == short[at + k]);
    }
    assert(parts_at(long, parts, at));
}

/// What is below an excluded path is excluded too.
pub proof fn lemma_exclusion_inherited(
    path: Seq<char>,
    deeper: Seq<char>,
    patterns: Seq<Seq<char>>,
)
    requires
        components_of(path).is_prefix_of(components_of(deeper)),
        excluded(path, patterns),
    ensures
        excluded(deeper, patterns),
{
    let short = components_of(path);
    let long = components_of(deeper);
    if path_starts_with(path, ".git"@) {
        let parts = components_of(".git"@);
        assert forall|k: int| 0 <= k < parts.len() implies #[trigger] parts[k] == long[0 + k] by {
            assert(parts[k] == short[0 + k]);
            assert(long.take(short.len() as int)[k] == short[k]);
        }
        assert(parts_at(long, parts, 0));
    } else {
        let i = choose|i: int|
            0 <= i < patterns.len() && pattern_matches(path, #[trigger] patterns[i]);
        lemma_pattern_stays(path, deeper, patterns[i]);
    }
}

/// The path with these components.
pub open spec fn path_of(components: Seq<Seq<char>>) -> Seq<char> {
    if components.len() > 0 && components[0] == "/"@ {
        "/"@ + joined(components.skip(1), "/"@)
    } else {
        joined(components, "/"@)
    }
}

fn to_path(parts: &Vec<String>) -> (r: String)
    ensures
        r@ == path_of(texts(parts@)),
{
    let ghost all = texts(parts@);
    if parts.len() > 0 && same_text(parts[0].as_str(), "/") {
        let mut rest: Vec<String> = Vec::new();
        let mut i: usize = 1;
        assert(texts(rest@) =~= all.subrange(1, 1));
        while i < parts.len()
            invariant
                1 <= i <= parts@.len(),
                all == texts(parts@),
                texts(rest@) == all.subrange(1, i as int),
            decreases parts@.len() - i,
        {
            broadcast use lemma_texts_push;

            rest.push(parts[i].clone());
            i += 1;
            assert(texts(rest@) =~= all.subrange(1, i as int));
        }
        assert(texts(rest@) =~= all.skip(1));
        let below = join(rest.as_slice(), "/");
        cat2("/", below.as_str())
    } else {
        assert(all.len() > 0 ==> all[0] == parts@[0]@);
        join(parts.as_slice(), "/")
    }
}

/// The directories above a path, from the nearest outwards: what is left of
/// it as one component after the other is taken away, up to the root.
pub open spec fn above(components: Seq<Seq<char>>) -> Seq<Seq<char>>
    decreases components.len(),
{
    if components.len() == 0 || components.last() == "/"@ {
        Seq::empty()
    } else {
        seq![path_of(components.drop_last())] + above(components.drop_last())
    }
}

pub fn directories_above(path: &str) -> (r: Vec<String>)
    ensures
        texts(r@) == above(components_of(path@)),
{
    let mut parts = components(path);
    let mut out: Vec<String> = Vec::new();
    let ghost all = above(components_of(path@));
    assert(texts(out@) + above(texts(parts@)) =~= all);
    while parts.len() > 0
        invariant
            all == above(components_of(path@)),
            texts(out@) + above(texts(parts@)) == all,
        decreases parts@.len(),
    {
        broadcast use lemma_texts_push;

        let ghost here = texts(parts@);
        assert(here.last() == parts@[parts@.len() - 1]@);
        if same_text(parts[parts.len() - 1].as_str(), "/") {
            assert(texts(out@) =~= all);
            return out;
        }
        parts.pop();
        assert(texts(parts@) =~= here.drop_last());
        let ghost before = texts(out@);
        out.push(to_path(&parts));
        assert(before + above(here) =~= texts(out@) + above(texts(parts@)));
    }
    assert(texts(out@) =~= all);
    out
}

} // verus!
