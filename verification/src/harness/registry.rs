//! The known harnesses: those that come with the library and those of the
//! user, who may replace any of them.

use super::def::{definitions, HarnessDef, HarnessDefView};
use super::embedded::{embedded, embedded_definitions, lemma_embedded_distinct};
use crate::builtin::{Names, NamesView};
use crate::config::{lemma_ordered_names_unique, names_ordered};
use crate::order::{
    lemma_lex_asymmetric, lemma_lex_total, lemma_lex_transitive, lemma_text_rank_injective, lex_less,
    text_before, text_rank, Ranked,
};
use crate::text::{same_text, texts};
use vstd::prelude::*;

verus! {

impl Ranked for HarnessDef {
    open spec fn rank(&self) -> Seq<int> {
        text_rank(self.name@)
    }

    fn precedes(&self, other: &Self) -> (r: bool) {
        text_before(self.name.as_str(), other.name.as_str())
    }
}

/// The last definition with a name.
pub open spec fn latest(list: Seq<HarnessDefView>, name: Seq<char>) -> Option<HarnessDefView>
    decreases list.len(),
{
    if list.len() == 0 {
        None
    } else if list.last().name == name {
        Some(list.last())
    } else {
        latest(list.drop_last(), name)
    }
}

pub open spec fn names_of(list: Seq<HarnessDefView>) -> Seq<Seq<char>> {
    Seq::new(list.len(), |i: int| list[i].name)
}

/// `catalogue` holds, in the order of the names, the last definition of each
/// name in `list`.
pub open spec fn is_catalogue(list: Seq<HarnessDefView>, catalogue: Seq<HarnessDefView>) -> bool {
    &&& names_ordered(names_of(catalogue))
    &&& forall|name: Seq<char>| #[trigger] latest(catalogue, name) == latest(list, name)
}

proof fn lemma_latest_found(list: Seq<HarnessDefView>, name: Seq<char>)
    ensures
        (match latest(list, name) {
            Some(found) => found.name == name && list.contains(found),
            None => forall|i: int| 0 <= i < list.len() ==> (#[trigger] list[i]).name != name,
        }),
    decreases list.len(),
{
    if list.len() > 0 {
        let front = list.drop_last();
        lemma_latest_found(front, name);
        assert(list[list.len() - 1] == list.last());
        match latest(front, name) {
            Some(found) => {
                let i = choose|i: int| 0 <= i < front.len() && front[i] == found;
                assert(list[i] == found);
            },
            None => {
                assert forall|i: int| 0 <= i < list.len() - 1 implies (#[trigger] list[i]).name
                    != name by {
                    assert(front[i] == list[i]);
                }
            },
        }
    }
}

/// Where names are ordered, a name stands at one place.
proof fn lemma_latest_at(list: Seq<HarnessDefView>, at: int)
    requires
        names_ordered(names_of(list)),
        0 <= at < list.len(),
    ensures
        latest(list, list[at].name) == Some(list[at]),
{
    lemma_latest_found(list, list[at].name);
    let found = latest(list, list[at].name)->Some_0;
    assert(latest(list, list[at].name) is Some);
    let k = choose|k: int| 0 <= k < list.len() && list[k] == found;
    let names = names_of(list);
    assert(names[k] == names[at]);
    lemma_lex_asymmetric(text_rank(names[k]), text_rank(names[at]));
    if k < at {
        assert(lex_less(text_rank(names[k]), text_rank(names[at])));
    } else if at < k {
        assert(lex_less(text_rank(names[at]), text_rank(names[k])));
    }
}

/// What a change at one name does to the others.
proof fn lemma_latest_kept(
    before: Seq<HarnessDefView>,
    after: Seq<HarnessDefView>,
    item: HarnessDefView,
    name: Seq<char>,
)
    requires
        names_ordered(names_of(before)),
        names_ordered(names_of(after)),
        after.contains(item),
        forall|i: int|
            0 <= i < before.len() && (#[trigger] before[i]).name != item.name ==> after.contains(
                before[i],
            ),
        forall|i: int|
            0 <= i < after.len() && (#[trigger] after[i]) != item ==> before.contains(after[i]),
    ensures
        latest(after, name) == latest(before.push(item), name),
{
    assert(before.push(item).drop_last() =~= before);
    assert(before.push(item).last() == item);
    lemma_latest_found(before, name);
    lemma_latest_found(after, name);
    if item.name == name {
        let k = choose|k: int| 0 <= k < after.len() && after[k] == item;
        lemma_latest_at(after, k);
    } else {
        match latest(before, name) {
            Some(found) => {
                let i = choose|i: int| 0 <= i < before.len() && before[i] == found;
                assert(after.contains(before[i]));
                let k = choose|k: int| 0 <= k < after.len() && after[k] == found;
                lemma_latest_at(after, k);
            },
            None => {
                if latest(after, name) is Some {
                    let found = latest(after, name)->Some_0;
                    let k = choose|k: int| 0 <= k < after.len() && after[k] == found;
                    assert(before.contains(after[k]));
                    let i = choose|i: int| 0 <= i < before.len() && before[i] == found;
                    assert(before[i].name != name);
                }
            },
        }
    }
}

/// Puts a definition into a catalogue, in place of one with the same name.
fn enter(list: &mut Vec<HarnessDef>, item: HarnessDef)
    requires
        names_ordered(names_of(definitions(old(list)@))),
    ensures
        names_ordered(names_of(definitions(final(list)@))),
        forall|name: Seq<char>| #[trigger]
            latest(definitions(final(list)@), name) == latest(
                definitions(old(list)@).push(item@),
                name,
            ),
{
    let ghost before = definitions(list@);
    let ghost names = names_of(before);
    let mut at: usize = 0;
    while at < list.len() && list[at].precedes(&item)
        invariant
            at <= list@.len(),
            before == definitions(list@),
            names == names_of(before),
            forall|j: int|
                0 <= j < at ==> lex_less(text_rank(#[trigger] names[j]), text_rank(item.name@)),
        decreases list@.len() - at,
    {
        assert(names[at as int] == list@[at as int].name@);
        at += 1;
    }
    if at < list.len() && same_text(list[at].name.as_str(), item.name.as_str()) {
        let ghost old_list = list@;
        list.set(at, item);
        proof {
            let after = definitions(list@);
            assert(after =~= before.update(at as int, item@));
            assert(names_of(after) =~= names);
            assert(after[at as int] == item@);
            assert forall|i: int|
                0 <= i < before.len() && (#[trigger] before[i]).name
                    != item@.name implies after.contains(before[i]) by {
                assert(names[at as int] == item.name@);
                assert(after[i] == before[i]);
            }
            assert forall|i: int|
                0 <= i < after.len() && (#[trigger] after[i]) != item@ implies before.contains(
                after[i],
            ) by {
                assert(before[i] == after[i]);
            }
            assert forall|name: Seq<char>| #[trigger]
                latest(after, name) == latest(before.push(item@), name) by {
                lemma_latest_kept(before, after, item@, name);
            }
        }
    } else {
        proof {
            if at < list@.len() {
                assert(names[at as int] == list@[at as int].name@);
                lemma_lex_total(text_rank(item.name@), text_rank(names[at as int]));
                if text_rank(item.name@) == text_rank(names[at as int]) {
                    lemma_text_rank_injective(item.name@, names[at as int]);
                }
                assert(lex_less(text_rank(item.name@), text_rank(names[at as int])));
            }
        }
        list.insert(at, item);
        proof {
            let after = definitions(list@);
            let after_names = names_of(after);
            assert(after =~= before.insert(at as int, item@));
            assert(after_names =~= names.insert(at as int, item.name@));
            assert forall|i: int, j: int| 0 <= i < j < after_names.len() implies lex_less(
                text_rank(#[trigger] after_names[i]),
                text_rank(#[trigger] after_names[j]),
            ) by {
                if j < at {
                    assert(lex_less(text_rank(names[i]), text_rank(names[j])));
                } else if j == at {
                    assert(lex_less(text_rank(names[i]), text_rank(item.name@)));
                } else if i < at {
                    assert(lex_less(text_rank(names[i]), text_rank(names[j - 1])));
                } else if i == at {
                    if at < j - 1 {
                        assert(lex_less(text_rank(names[at as int]), text_rank(names[j - 1])));
                        lemma_lex_transitive(
                            text_rank(item.name@),
                            text_rank(names[at as int]),
                            text_rank(names[j - 1]),
                        );
                    }
                } else {
                    assert(lex_less(text_rank(names[i - 1]), text_rank(names[j - 1])));
                }
            }
            assert(after[at as int] == item@);
            assert forall|i: int|
                0 <= i < before.len() && (#[trigger] before[i]).name
                    != item@.name implies after.contains(before[i]) by {
                if i < at {
                    assert(after[i] == before[i]);
                } else {
                    assert(after[i + 1] == before[i]);
                }
            }
            assert forall|i: int|
                0 <= i < after.len() && (#[trigger] after[i]) != item@ implies before.contains(
                after[i],
            ) by {
                if i < at {
                    assert(before[i] == after[i]);
                } else {
                    assert(before[i - 1] == after[i]);
                }
            }
            assert forall|name: Seq<char>| #[trigger]
                latest(after, name) == latest(before.push(item@), name) by {
                lemma_latest_kept(before, after, item@, name);
            }
        }
    }
}

/// Makes a catalogue: a later definition replaces an earlier one of the same
/// name.
pub fn catalogue(list: Vec<HarnessDef>) -> (r: Vec<HarnessDef>)
    ensures
        is_catalogue(definitions(list@), definitions(r@)),
{
    let ghost all = list@;
    let ghost views = definitions(list@);
    let mut rest = list;
    let mut out: Vec<HarnessDef> = Vec::new();
    let ghost mut taken: int = 0;
    assert(all.skip(0) =~= all);
    assert(definitions(out@) =~= views.take(0));
    while rest.len() > 0
        invariant
            0 <= taken <= all.len(),
            views == definitions(all),
            rest@ == all.skip(taken),
            is_catalogue(views.take(taken), definitions(out@)),
        decreases rest@.len(),
    {
        let item = rest.remove(0);
        let ghost before = definitions(out@);
        proof {
            assert(item == all[taken]);
            assert(rest@ =~= all.skip(taken + 1));
            assert(views.take(taken + 1).drop_last() =~= views.take(taken));
            assert(views.take(taken + 1).last() == item@);
            assert(before.push(item@).drop_last() =~= before);
            assert forall|name: Seq<char>| #[trigger]
                latest(before.push(item@), name) == latest(views.take(taken + 1), name) by {
                assert(latest(before, name) == latest(views.take(taken), name));
            }
        }
        enter(&mut out, item);
        proof {
            assert forall|name: Seq<char>| #[trigger]
                latest(definitions(out@), name) == latest(views.take(taken + 1), name) by {
                assert(latest(before.push(item@), name) == latest(views.take(taken + 1), name));
            }
            taken = taken + 1;
        }
    }
    assert(views.take(taken) =~= views);
    out
}

/// Every harness, in the order of the names. A definition of the user's takes
/// the place of one of the library's.
pub fn all_harnesses(names: &Names, user: Vec<HarnessDef>) -> (r: Vec<HarnessDef>)
    ensures
        is_catalogue(
            embedded_definitions(names@) + definitions(user@),
            definitions(r@),
        ),
{
    let mut list = embedded(names);
    let ghost first = list@;
    let mut more = user;
    list.append(&mut more);
    assert(definitions(list@) =~= definitions(first) + definitions(user@));
    catalogue(list)
}

/// The first definition with a name.
pub open spec fn earliest(list: Seq<HarnessDefView>, name: Seq<char>) -> Option<HarnessDefView>
    decreases list.len(),
{
    if list.len() == 0 {
        None
    } else if list[0].name == name {
        Some(list[0])
    } else {
        earliest(list.skip(1), name)
    }
}

fn take_named(list: Vec<HarnessDef>, name: &str) -> (r: Option<HarnessDef>)
    ensures
        (match r {
            Some(found) => earliest(definitions(list@), name@) == Some(found@),
            None => earliest(definitions(list@), name@) is None,
        }),
{
    let ghost all = definitions(list@);
    let mut rest = list;
    while rest.len() > 0
        invariant
            earliest(definitions(rest@), name@) == earliest(all, name@),
            all == definitions(list@),
        decreases rest@.len(),
    {
        let ghost before = rest@;
        let item = rest.remove(0);
        proof {
            assert(definitions(before)[0] == item@);
            assert(definitions(before).skip(1) =~= definitions(rest@));
        }
        if same_text(item.name.as_str(), name) {
            return Some(item);
        }
    }
    None
}

/// What is found under a name: the user's definition, else the library's.
pub open spec fn found_as(
    names: NamesView,
    user: Seq<HarnessDefView>,
    name: Seq<char>,
) -> Option<HarnessDefView> {
    match earliest(user, name) {
        Some(found) => Some(found),
        None => earliest(embedded_definitions(names), name),
    }
}

/// Looks a harness up.
pub fn find(name: &str, names: &Names, user: Vec<HarnessDef>) -> (r: Option<HarnessDef>)
    ensures
        (match r {
            Some(found) => found_as(names@, definitions(user@), name@) == Some(found@),
            None => found_as(names@, definitions(user@), name@) is None,
        }),
{
    match take_named(user, name) {
        Some(found) => Some(found),
        None => take_named(embedded(names), name),
    }
}

/// The names of all harnesses, in order.
pub fn available_names(names: &Names, user: Vec<HarnessDef>) -> (r: Vec<String>)
    ensures
        names_ordered(texts(r@)),
        forall|name: Seq<char>|
            texts(r@).contains(name) <==> #[trigger] latest(
                embedded_definitions(names@) + definitions(user@),
                name,
            ) is Some,
        texts(r@).contains(names@.base + "-code"@),
        texts(r@).contains("codex"@),
        texts(r@).contains("opencode"@),
{
    let list = all_harnesses(names, user);
    let ghost listed = names_of(definitions(list@));
    let mut out: Vec<String> = Vec::new();
    let mut i: usize = 0;
    assert(texts(out@) =~= listed.take(0));
    while i < list.len()
        invariant
            i <= list@.len(),
            listed == names_of(definitions(list@)),
            texts(out@) == listed.take(i as int),
        decreases list@.len() - i,
    {
        let ghost before = out@;
        out.push(list[i].name.clone());
        assert(texts(out@) =~= texts(before).push(list@[i as int].name@));
        assert(texts(out@) =~= listed.take(i + 1));
        i += 1;
    }
    assert(listed.take(i as int) =~= listed);
    proof {
        let views = definitions(list@);
        assert forall|name: Seq<char>|
            texts(out@).contains(name) <==> #[trigger] latest(
                embedded_definitions(names@) + definitions(user@),
                name,
            ) is Some by {
            assert(latest(views, name) == latest(
                embedded_definitions(names@) + definitions(user@),
                name,
            ));
            lemma_latest_found(views, name);
            if listed.contains(name) {
                let k = choose|k: int| 0 <= k < listed.len() && listed[k] == name;
                assert(views[k].name == name);
            }
            if latest(views, name) is Some {
                let k = choose|k: int|
                    0 <= k < views.len() && views[k] == latest(views, name)->Some_0;
                assert(listed[k] == name);
            }
        }
    }
    proof {
        let own = embedded_definitions(names@);
        let all = own + definitions(user@);
        assert forall|k: int| 0 <= k < own.len() implies texts(out@).contains(
            (#[trigger] own[k]).name,
        ) by {
            lemma_latest_found(all, own[k].name);
            assert(all[k] == own[k]);
            assert(latest(all, own[k].name) is Some);
        }
        assert(own[0].name == names@.base + "-code"@);
        assert(own[1].name == "codex"@);
        assert(own[2].name == "opencode"@);
    }
    out
}

proof fn lemma_latest_add(first: Seq<HarnessDefView>, second: Seq<HarnessDefView>, name: Seq<char>)
    ensures
        latest(first + second, name) == (match latest(second, name) {
            Some(found) => Some(found),
            None => latest(first, name),
        }),
    decreases second.len(),
{
    if second.len() == 0 {
        assert(first + second =~= first);
    } else {
        assert((first + second).last() == second.last());
        assert((first + second).drop_last() =~= first + second.drop_last());
        lemma_latest_add(first, second.drop_last(), name);
    }
}

proof fn lemma_earliest_found(list: Seq<HarnessDefView>, name: Seq<char>)
    ensures
        (match earliest(list, name) {
            Some(found) => found.name == name && list.contains(found),
            None => forall|i: int| 0 <= i < list.len() ==> (#[trigger] list[i]).name != name,
        }),
    decreases list.len(),
{
    if list.len() > 0 {
        let rest = list.skip(1);
        lemma_earliest_found(rest, name);
        match earliest(rest, name) {
            Some(found) => {
                let i = choose|i: int| 0 <= i < rest.len() && rest[i] == found;
                assert(list[i + 1] == found);
                assert(list[0] == list.first());
            },
            None => {
                assert forall|i: int| 1 <= i < list.len() implies (#[trigger] list[i]).name
                    != name by {
                    assert(rest[i - 1] == list[i]);
                }
            },
        }
    }
}

proof fn lemma_earliest_is_latest(list: Seq<HarnessDefView>, name: Seq<char>)
    requires
        names_of(list).no_duplicates(),
    ensures
        earliest(list, name) == latest(list, name),
{
    lemma_earliest_found(list, name);
    lemma_latest_found(list, name);
    if earliest(list, name) is Some && latest(list, name) is Some {
        let first = earliest(list, name)->Some_0;
        let last = latest(list, name)->Some_0;
        let i = choose|i: int| 0 <= i < list.len() && list[i] == first;
        let j = choose|j: int| 0 <= j < list.len() && list[j] == last;
        assert(names_of(list)[i] == names_of(list)[j]);
    } else if earliest(list, name) is Some {
        let found = earliest(list, name)->Some_0;
        let i = choose|i: int| 0 <= i < list.len() && list[i] == found;
        assert(list[i].name != name);
    } else if latest(list, name) is Some {
        let found = latest(list, name)->Some_0;
        let i = choose|i: int| 0 <= i < list.len() && list[i] == found;
        assert(list[i].name != name);
    }
}

/// What is found under a name is what the list of all harnesses has under
/// that name: the user's definition where there is one.
pub proof fn lemma_find_agrees_with_list(
    names: NamesView,
    user: Seq<HarnessDefView>,
    list: Seq<HarnessDefView>,
    name: Seq<char>,
)
    requires
        names_of(user).no_duplicates(),
        is_catalogue(embedded_definitions(names) + user, list),
    ensures
        found_as(names, user, name) == latest(list, name),
        latest(user, name) is Some ==> found_as(names, user, name) == latest(user, name),
{
    let own = embedded_definitions(names);
    assert forall|i: int, j: int|
        0 <= i < own.len() && 0 <= j < own.len() && i != j implies names_of(own)[i] != names_of(
        own,
    )[j] by {
        if i < j {
            lemma_embedded_distinct(names, i, j);
        } else {
            lemma_embedded_distinct(names, j, i);
        }
    }
    lemma_earliest_is_latest(user, name);
    lemma_earliest_is_latest(own, name);
    lemma_latest_add(own, user, name);
    assert(latest(list, name) == latest(own + user, name));
}

/// Every definition that comes with the library is found under its name, unless
/// the user has one of that name.
pub proof fn lemma_embedded_found(
    names: NamesView,
    user: Seq<HarnessDefView>,
    at: int,
)
    requires
        0 <= at < embedded_definitions(names).len(),
        latest(user, embedded_definitions(names)[at].name) is None,
    ensures
        found_as(names, user, embedded_definitions(names)[at].name) == Some(
            embedded_definitions(names)[at],
        ),
{
    let own = embedded_definitions(names);
    let name = own[at].name;
    lemma_latest_found(user, name);
    lemma_earliest_found(user, name);
    if earliest(user, name) is Some {
        let i = choose|i: int|
            0 <= i < user.len() && user[i] == earliest(user, name)->Some_0;
        assert(user[i].name != name);
    }
    lemma_earliest_found(own, name);
    assert(own[at].name == name);
    let found = earliest(own, name)->Some_0;
    let k = choose|k: int| 0 <= k < own.len() && own[k] == found;
    if k < at {
        lemma_embedded_distinct(names, k, at);
    } else if at < k {
        lemma_embedded_distinct(names, at, k);
    }
}

/// Nothing is found under a name but what the user has defined and what comes
/// with the library.
pub proof fn lemma_only_known_names_are_found(
    names: NamesView,
    user: Seq<HarnessDefView>,
    name: Seq<char>,
)
    ensures
        found_as(names, user, name) is Some <==> (names_of(user).contains(name) || name
            == names.base + "-code"@ || name == "codex"@ || name == "opencode"@),
{
    let own = embedded_definitions(names);
    lemma_earliest_found(user, name);
    lemma_earliest_found(own, name);
    if names_of(user).contains(name) {
        let i = choose|i: int| 0 <= i < user.len() && names_of(user)[i] == name;
        assert(user[i].name == name);
    }
    match earliest(user, name) {
        Some(found) => {
            let i = choose|i: int| 0 <= i < user.len() && user[i] == found;
            assert(names_of(user)[i] == name);
        },
        None => {
            assert(own[0].name == names.base + "-code"@);
            assert(own[1].name == "codex"@);
            assert(own[2].name == "opencode"@);
            if earliest(own, name) is Some {
                let found = earliest(own, name)->Some_0;
                let k = choose|k: int| 0 <= k < own.len() && own[k] == found;
                assert(k == 0 || k == 1 || k == 2);
            }
        },
    }
}

/// A catalogue is determined by the definitions that it is made of.
pub proof fn lemma_catalogue_unique(
    list: Seq<HarnessDefView>,
    one: Seq<HarnessDefView>,
    other: Seq<HarnessDefView>,
)
    requires
        is_catalogue(list, one),
        is_catalogue(list, other),
    ensures
        one == other,
{
    let names = names_of(one);
    let other_names = names_of(other);
    assert forall|name: Seq<char>| #[trigger] names.contains(name) <==> other_names.contains(
        name,
    ) by {
        assert(latest(one, name) == latest(list, name));
        assert(latest(other, name) == latest(list, name));
        lemma_latest_found(one, name);
        lemma_latest_found(other, name);
        if names.contains(name) {
            let i = choose|i: int| 0 <= i < names.len() && names[i] == name;
            assert(one[i].name == name);
            let k = choose|k: int|
                0 <= k < other.len() && other[k] == latest(other, name)->Some_0;
            assert(other_names[k] == name);
        }
        if other_names.contains(name) {
            let i = choose|i: int| 0 <= i < other_names.len() && other_names[i] == name;
            assert(other[i].name == name);
            let k = choose|k: int| 0 <= k < one.len() && one[k] == latest(one, name)->Some_0;
            assert(names[k] == name);
        }
    }
    lemma_ordered_names_unique(names, other_names);
    assert(one.len() == names.len());
    assert(other.len() == other_names.len());
    assert forall|i: int| 0 <= i < one.len() implies one[i] == other[i] by {
        lemma_latest_at(one, i);
        lemma_latest_at(other, i);
        assert(names[i] == other_names[i]);
        assert(latest(one, one[i].name) == latest(list, one[i].name));
        assert(latest(other, one[i].name) == latest(list, one[i].name));
    }
    assert(one =~= other);
}

} // verus!
