//! The terminal variables that sessions take over from the host.

use crate::order::{
    is_stable_sort, lemma_sort_keeps_items, lemma_sort_of_distinct, lemma_strict_order_unique,
    lemma_text_rank_injective, stable_sort, Ranked,
};
use crate::text::{lists, texts};
use vstd::prelude::*;

verus! {

pub open spec fn forwarded_names() -> Seq<Seq<char>> {
    seq!["COLORTERM"@, "NO_COLOR"@, "TERM"@, "TERM_PROGRAM"@, "TERM_PROGRAM_VERSION"@]
}

/// The variables that tell a program what its terminal can do.
pub fn forwarded_vars() -> (r: Vec<String>)
    ensures
        texts(r@) == forwarded_names(),
{
    let r = vec![
        "COLORTERM".to_owned(),
        "NO_COLOR".to_owned(),
        "TERM".to_owned(),
        "TERM_PROGRAM".to_owned(),
        "TERM_PROGRAM_VERSION".to_owned(),
    ];
    assert(texts(r@) =~= forwarded_names());
    r
}

/// A variable is taken over where it describes the terminal and has a value.
pub open spec fn is_forwarded(variable: (String, String)) -> bool {
    forwarded_names().contains(variable.0@) && variable.1@.len() > 0
}

/// Those of `source` that are taken over.
pub open spec fn forwarded(source: Seq<(String, String)>) -> Seq<(String, String)>
    decreases source.len(),
{
    if source.len() == 0 {
        Seq::empty()
    } else if is_forwarded(source.last()) {
        forwarded(source.drop_last()).push(source.last())
    } else {
        forwarded(source.drop_last())
    }
}

/// The terminal variables of `source`, in the order of their names.
pub fn terminal_env_from(source: Vec<(String, String)>) -> (r: Vec<(String, String)>)
    ensures
        is_stable_sort(forwarded(source@), r@),
{
    let names = forwarded_vars();
    let ghost all = source@;
    let mut rest = source;
    let mut kept: Vec<(String, String)> = Vec::new();
    let ghost mut taken: int = 0;
    assert(all.take(0) =~= Seq::empty());
    assert(all.skip(0) =~= all);
    while rest.len() > 0
        invariant
            0 <= taken <= all.len(),
            rest@ == all.skip(taken),
            texts(names@) == forwarded_names(),
            kept@ == forwarded(all.take(taken)),
        decreases rest@.len(),
    {
        proof {
            assert(rest@[0] == all[taken]);
            assert(all.take(taken + 1).drop_last() =~= all.take(taken));
            assert(all.take(taken + 1).last() == all[taken]);
        }
        let variable = rest.remove(0);
        assert(rest@ =~= all.skip(taken + 1));
        if lists(names.as_slice(), variable.0.as_str()) && !variable.1.as_str().is_empty() {
            kept.push(variable);
        }
        proof {
            taken = taken + 1;
        }
    }
    assert(all.take(taken) =~= all);
    stable_sort(kept)
}

/// No two variables have the same name.
pub open spec fn names_differ(source: Seq<(String, String)>) -> bool {
    forall|i: int, j: int|
        0 <= i < j < source.len() ==> (#[trigger] source[i]).0@ != (#[trigger] source[j]).0@
}

proof fn lemma_forwarded_contains(source: Seq<(String, String)>, variable: (String, String))
    ensures
        forwarded(source).contains(variable) <==> source.contains(variable) && is_forwarded(
            variable,
        ),
    decreases source.len(),
{
    if source.len() > 0 {
        let front = source.drop_last();
        let before = forwarded(front);
        lemma_forwarded_contains(front, variable);
        assert(source[source.len() - 1] == source.last());
        if front.contains(variable) {
            let i = choose|i: int| 0 <= i < front.len() && front[i] == variable;
            assert(source[i] == variable);
        }
        if source.contains(variable) && variable != source.last() {
            let i = choose|i: int| 0 <= i < source.len() && source[i] == variable;
            assert(front[i] == variable);
        }
        if is_forwarded(source.last()) {
            let after = before.push(source.last());
            assert(after[before.len() as int] == source.last());
            if before.contains(variable) {
                let i = choose|i: int| 0 <= i < before.len() && before[i] == variable;
                assert(after[i] == variable);
            }
            if after.contains(variable) && variable != source.last() {
                let i = choose|i: int| 0 <= i < after.len() && after[i] == variable;
                assert(before[i] == variable);
            }
        }
    }
}

proof fn lemma_forwarded_differ(source: Seq<(String, String)>)
    requires
        names_differ(source),
    ensures
        names_differ(forwarded(source)),
    decreases source.len(),
{
    if source.len() > 0 {
        let front = source.drop_last();
        assert forall|i: int, j: int| 0 <= i < j < front.len() implies (#[trigger] front[i]).0@ != (
        #[trigger] front[j]).0@ by {
            assert(source[i].0@ != source[j].0@);
        }
        lemma_forwarded_differ(front);
        let before = forwarded(front);
        let after = forwarded(source);
        assert forall|i: int, j: int| 0 <= i < j < after.len() implies (#[trigger] after[i]).0@ != (
        #[trigger] after[j]).0@ by {
            if j < before.len() {
                assert(before[i].0@ != before[j].0@);
            } else {
                lemma_forwarded_contains(front, before[i]);
                assert(before.contains(before[i]));
                let k = choose|k: int| 0 <= k < front.len() && front[k] == before[i];
                assert(source[k].0@ != source[source.len() - 1].0@);
            }
        }
    }
}

/// What sessions take over does not depend on the order in which the host
/// lists its variables.
pub proof fn lemma_order_of_source_is_irrelevant(
    source: Seq<(String, String)>,
    other: Seq<(String, String)>,
    result: Seq<(String, String)>,
    other_result: Seq<(String, String)>,
)
    requires
        names_differ(source),
        names_differ(other),
        forall|variable: (String, String)| #[trigger]
            source.contains(variable) <==> other.contains(variable),
        is_stable_sort(forwarded(source), result),
        is_stable_sort(forwarded(other), other_result),
    ensures
        result == other_result,
{
    lemma_forwarded_differ(source);
    lemma_forwarded_differ(other);
    lemma_ranks_differ(forwarded(source));
    lemma_ranks_differ(forwarded(other));
    lemma_sort_of_distinct(forwarded(source), result);
    lemma_sort_of_distinct(forwarded(other), other_result);
    assert forall|variable: (String, String)| #[trigger]
        result.contains(variable) <==> other_result.contains(variable) by {
        lemma_sort_keeps_items(forwarded(source), result, variable);
        lemma_sort_keeps_items(forwarded(other), other_result, variable);
        lemma_forwarded_contains(source, variable);
        lemma_forwarded_contains(other, variable);
        assert(source.contains(variable) <==> other.contains(variable));
    }
    lemma_strict_order_unique(result, other_result);
}

proof fn lemma_ranks_differ(source: Seq<(String, String)>)
    requires
        names_differ(source),
    ensures
        forall|i: int, j: int|
            0 <= i < j < source.len() ==> (#[trigger] source[i]).rank() != (
            #[trigger] source[j]).rank(),
{
    assert forall|i: int, j: int| 0 <= i < j < source.len() implies (#[trigger] source[i]).rank()
        != (#[trigger] source[j]).rank() by {
        if source[i].rank() == source[j].rank() {
            lemma_text_rank_injective(source[i].0@, source[j].0@);
        }
    }
}

} // verus!
