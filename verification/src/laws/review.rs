//! The end of a session: what a user is shown of the changes, and what follows
//! from an answer.

use crate::pull::{outcome_text, sighted, step_of, PullOptions, ReviewDecision, Sighting};
use crate::session::{
    bare, breakdown, clean_line, clean_lines, coloured, count_of, count_part, count_parts,
    filled, headline, in_small_letters, kind_of, listing, shown, summary, understood,
    with_commas, Answer, ChangeKind, ChangeView, PieceView, Side,
};
use crate::text::{decimal_text, has_prefix, lines_of, trimmed, CharSet};
use vstd::prelude::*;
use vstd::string::*;

verus! {

/// A path that only the workspace has was added, one that only the repository
/// has was deleted, and any other was modified. Seen from the other side, what
/// was added was deleted.
pub proof fn lemma_kind_tells_the_sides(in_source: bool, in_sandbox: bool)
    ensures
        kind_of(in_source, in_sandbox) == ChangeKind::Added <==> in_sandbox && !in_source,
        kind_of(in_source, in_sandbox) == ChangeKind::Deleted <==> in_source && !in_sandbox,
        kind_of(in_source, in_sandbox) == ChangeKind::Modified <==> in_source == in_sandbox,
        kind_of(in_source, in_sandbox) == ChangeKind::Added <==> kind_of(in_sandbox, in_source)
            == ChangeKind::Deleted,
{
}

proof fn lemma_counts_add_up(list: Seq<ChangeView>)
    ensures
        count_of(list, ChangeKind::Added) + count_of(list, ChangeKind::Modified) + count_of(
            list,
            ChangeKind::Deleted,
        ) == list.len(),
    decreases list.len(),
{
    if list.len() > 0 {
        lemma_counts_add_up(list.drop_last());
    }
}

/// The changes of one kind are counted: as many as the list holds.
pub proof fn lemma_count_is_the_number(list: Seq<ChangeView>, kind: ChangeKind)
    ensures
        count_of(list, kind) == list.filter(|change: ChangeView| change.kind == kind).len(),
    decreases list.len(),
{
    reveal(Seq::filter);
    if list.len() > 0 {
        lemma_count_is_the_number(list.drop_last(), kind);
    }
}

/// A report holds one piece directly before another.
pub open spec fn in_a_row(report: Seq<PieceView>, first: PieceView, second: PieceView) -> bool {
    exists|k: int| #[trigger] row_at(report, k, first, second)
}

pub open spec fn row_at(
    report: Seq<PieceView>,
    k: int,
    first: PieceView,
    second: PieceView,
) -> bool {
    0 <= k && k + 1 < report.len() && report[k] == first && report[k + 1] == second
}

proof fn lemma_listed(list: Seq<ChangeView>, i: int)
    requires
        0 <= i < list.len(),
    ensures
        listing(list).len() == 2 * list.len(),
        listing(list)[2 * i] == coloured("  "@ + list[i].path, list[i].kind),
        listing(list)[2 * i + 1] == bare("\n"@),
    decreases list.len(),
{
    let front = list.drop_last();
    if front.len() > 0 {
        lemma_listed(front, if i < front.len() {
            i
        } else {
            0
        });
    } else {
        assert(listing(front) =~= Seq::empty());
    }
}

/// A change that is among the first twenty has a line of its own in the summary,
/// in the colour of its kind.
pub proof fn lemma_summary_lists_changes(list: Seq<ChangeView>, i: int)
    requires
        0 <= i < list.len(),
        i < 20,
    ensures
        in_a_row(
            summary(list),
            coloured("  "@ + list[i].path, list[i].kind),
            bare("\n"@),
        ),
{
    let number: int = if list.len() > 20 {
        20
    } else {
        list.len() as int
    };
    let some = list.take(number);
    lemma_listed(some, i);
    let before = seq![bare(headline(list.len()))] + breakdown(list) + seq![bare("\n"@)];
    let all = summary(list);
    assert(all[before.len() + 2 * i] == listing(some)[2 * i]);
    assert(all[before.len() + 2 * i + 1] == listing(some)[2 * i + 1]);
    assert(row_at(
        all,
        before.len() + 2 * i,
        coloured("  "@ + list[i].path, list[i].kind),
        bare("\n"@),
    ));
}

/// The summary begins with the number of changes. Where there are more than
/// twenty, it ends with the number of those that are not listed.
pub proof fn lemma_summary_counts_changes(list: Seq<ChangeView>)
    ensures
        summary(list).len() > 0,
        list.len() == 1 ==> summary(list)[0] == bare("1 file changed"@),
        list.len() != 1 ==> summary(list)[0] == bare(
            decimal_text(list.len()) + " files changed"@,
        ),
        list.len() > 20 ==> summary(list).last() == bare(
            "  ... and "@ + decimal_text((list.len() - 20) as nat) + " more\n"@,
        ),
{
    if list.len() == 1 {
        reveal_with_fuel(decimal_text, 2);
        reveal_strlit("1 file changed");
        reveal_strlit(" file changed");
        assert(headline(1) =~= "1 file changed"@);
    }
}

/// However many changes there are, no more than twenty have lines of their own.
pub proof fn lemma_summary_is_short(list: Seq<ChangeView>)
    ensures
        summary(list).len() == breakdown(list).len() + (if list.len() > 20 {
            43
        } else {
            2 * list.len() + 2
        }),
{
    let shown = list.take(
        if list.len() > 20 {
            20
        } else {
            list.len() as int
        },
    );
    if list.len() > 0 {
        lemma_listed(shown, 0);
    } else {
        assert(listing(shown) =~= Seq::empty());
    }
}

/// A kind of change that occurs is counted in the summary, in its colour.
pub proof fn lemma_summary_counts_kinds(list: Seq<ChangeView>, kind: ChangeKind)
    ensures
        count_of(list, kind) > 0 ==> summary(list).contains(
            coloured(
                decimal_text(count_of(list, kind)) + (match kind {
                    ChangeKind::Added => " added"@,
                    ChangeKind::Modified => " modified"@,
                    ChangeKind::Deleted => " deleted"@,
                }),
                kind,
            ),
        ),
        count_of(list, ChangeKind::Added) + count_of(list, ChangeKind::Modified) + count_of(
            list,
            ChangeKind::Deleted,
        ) == list.len(),
{
    lemma_counts_add_up(list);
    if count_of(list, kind) > 0 {
        let word = match kind {
            ChangeKind::Added => " added"@,
            ChangeKind::Modified => " modified"@,
            ChangeKind::Deleted => " deleted"@,
        };
        let item = coloured(decimal_text(count_of(list, kind)) + word, kind);
        let a = count_part(count_of(list, ChangeKind::Added), " added"@, ChangeKind::Added);
        let b = count_part(
            count_of(list, ChangeKind::Modified),
            " modified"@,
            ChangeKind::Modified,
        );
        let c = count_part(count_of(list, ChangeKind::Deleted), " deleted"@, ChangeKind::Deleted);
        let parts = count_parts(list);
        assert(parts == a + b + c);
        match kind {
            ChangeKind::Added => assert(parts[0] == item),
            ChangeKind::Modified => assert(parts[a.len() as int] == item),
            ChangeKind::Deleted => assert(parts[(a.len() + b.len()) as int] == item),
        }
        lemma_commas_keep(parts, item);
        let middle = with_commas(parts);
        let k = choose|k: int| 0 <= k < middle.len() && middle[k] == item;
        assert(breakdown(list)[1 + k] == middle[k]);
        assert(summary(list)[2 + k] == breakdown(list)[1 + k]);
    }
}

proof fn lemma_commas_keep(parts: Seq<PieceView>, item: PieceView)
    requires
        parts.contains(item),
    ensures
        with_commas(parts).contains(item),
    decreases parts.len(),
{
    if parts.len() > 1 {
        let front = parts.drop_last();
        let before = with_commas(front);
        let all = with_commas(parts);
        if parts.last() == item {
            assert(all[all.len() - 1] == item);
        } else {
            let i = choose|i: int| 0 <= i < parts.len() && parts[i] == item;
            assert(front[i] == item);
            lemma_commas_keep(front, item);
            let k = choose|k: int| 0 <= k < before.len() && before[k] == item;
            assert(all[k] == item);
        }
    }
}

/// The words that a user may answer with.
pub open spec fn means(word: Seq<char>) -> Answer {
    if word == "y"@ || word == "yes"@ {
        Answer::Apply
    } else if word == "v"@ || word == "view"@ {
        Answer::View
    } else if word == ""@ || word == "n"@ || word == "no"@ {
        Answer::Discard
    } else {
        Answer::Again
    }
}

/// Changes are applied on a yes alone. What an answer means depends neither on
/// its case nor on the spaces around it.
pub proof fn lemma_answers_mean_what_they_say(line: Seq<char>, other: Seq<char>)
    ensures
        understood(line) == means(in_small_letters(trimmed(line, CharSet::WhiteSpace))),
        in_small_letters(trimmed(line, CharSet::WhiteSpace)) == in_small_letters(
            trimmed(other, CharSet::WhiteSpace),
        ) ==> understood(line) == understood(other),
        in_small_letters(line).len() == line.len(),
        forall|i: int|
            0 <= i < line.len() ==> #[trigger] in_small_letters(line)[i] == (if 'A' <= line[i]
                <= 'Z' {
                (line[i] as u32 + 32) as char
            } else {
                line[i]
            }),
{
    reveal_strlit("");
    reveal_strlit("y");
    reveal_strlit("yes");
    reveal_strlit("v");
    reveal_strlit("view");
    reveal_strlit("n");
    reveal_strlit("no");
    let word = in_small_letters(trimmed(line, CharSet::WhiteSpace));
    if word.len() == 0 {
        assert(word =~= ""@);
    }
    assert("y"@[0] == 'y' && "v"@[0] == 'v' && "n"@[0] == 'n' && "yes"@[0] == 'y');
    assert("view"@[0] == 'v' && "no"@[0] == 'n');
    assert("y"@.len() == 1 && "yes"@.len() == 3 && "v"@.len() == 1 && "view"@.len() == 4);
    assert("n"@.len() == 1 && "no"@.len() == 2);
}

/// A line of a diff is kept, unless it is one of the headers that say where the
/// compared files lie: those then name the file by its path. A side that is
/// missing stays the empty device.
pub proof fn lemma_headers_name_the_path(line: Seq<char>, path: Seq<char>)
    ensures
        has_prefix(line, "diff --git "@) ==> clean_line(line, path) == "diff --git a/"@ + path
            + " b/"@ + path + "\n"@,
        has_prefix(line, "--- /dev/null"@) || has_prefix(line, "+++ /dev/null"@) ==> clean_line(
            line,
            path,
        ) == line + "\n"@,
        has_prefix(line, "--- "@) && !has_prefix(line, "--- /dev/null"@) ==> clean_line(
            line,
            path,
        ) == "--- a/"@ + path + "\n"@,
        has_prefix(line, "+++ "@) && !has_prefix(line, "+++ /dev/null"@) ==> clean_line(
            line,
            path,
        ) == "+++ b/"@ + path + "\n"@,
        !has_prefix(line, "diff --git "@) && !has_prefix(line, "--- "@) && !has_prefix(
            line,
            "+++ "@,
        ) ==> clean_line(line, path) == line + "\n"@,
{
    reveal_strlit("diff --git ");
    reveal_strlit("--- ");
    reveal_strlit("+++ ");
    reveal_strlit("--- /dev/null");
    reveal_strlit("+++ /dev/null");
    let d = "diff --git "@;
    let m = "--- "@;
    let p = "+++ "@;
    let m0 = "--- /dev/null"@;
    let p0 = "+++ /dev/null"@;
    if has_prefix(line, d) {
        assert(line.take(d.len() as int)[0] == 'd');
    }
    if has_prefix(line, m) {
        assert(line.take(m.len() as int)[0] == '-');
    }
    if has_prefix(line, p) {
        assert(line.take(p.len() as int)[0] == '+');
    }
    if has_prefix(line, m0) {
        assert(line.take(m0.len() as int)[0] == '-');
        assert(line.take(4) =~= m0.take(4));
        assert(m0.take(4) =~= m);
    }
    if has_prefix(line, p0) {
        assert(line.take(p0.len() as int)[0] == '+');
        assert(line.take(4) =~= p0.take(4));
        assert(p0.take(4) =~= p);
    }
}

/// A cleaned diff has the lines of the diff, each cleaned, in their order. The
/// result is what follows one of them.
pub proof fn lemma_diff_keeps_its_lines(list: Seq<Seq<char>>, path: Seq<char>, n: int) -> (after:
    Seq<char>)
    requires
        0 <= n < list.len(),
    ensures
        clean_lines(list, path) == clean_lines(list.take(n), path) + clean_line(list[n], path)
            + after,
    decreases list.len(),
{
    let front = list.drop_last();
    if n == list.len() - 1 {
        let after = Seq::<char>::empty();
        assert(list.take(n) =~= front);
        assert(clean_lines(list, path) =~= clean_lines(front, path) + clean_line(list[n], path)
            + after);
        after
    } else {
        let after = lemma_diff_keeps_its_lines(front, path, n);
        assert(front.take(n) =~= list.take(n));
        let more = after + clean_line(list.last(), path);
        assert(clean_lines(list, path) =~= clean_lines(list.take(n), path) + clean_line(
            list[n],
            path,
        ) + more);
        more
    }
}

/// A change is shown in the colour of its kind where git has no diff of it, and
/// with its path; what it says of a directory or a link agrees with the colour.
pub proof fn lemma_shown_in_its_colour(
    path: Seq<char>,
    source: Side,
    sandbox: Side,
    diff: Option<Seq<char>>,
)
    ensures
        source is Directory || sandbox is Directory ==> shown(path, source, sandbox, diff).kind
            == Some(kind_of(source is Directory, sandbox is Directory)),
        !(source is Directory || sandbox is Directory) && (source is Link || sandbox is Link)
            ==> shown(path, source, sandbox, diff).kind == Some(
            kind_of(source.leads_to() is Some, sandbox.leads_to() is Some),
        ),
        !(source is Directory || sandbox is Directory || source is Link || sandbox is Link) ==> (
        diff is None ==> shown(path, source, sandbox, diff) == coloured(
            "  "@ + path + ": diff unavailable\n"@,
            kind_of(!(source is Absent), !(sandbox is Absent)),
        )) && (diff is Some ==> shown(path, source, sandbox, diff) == bare(
            clean_lines(lines_of(diff->Some_0), path),
        )),
{
}

/// The remotes are the lines that are not empty, in their order.
pub proof fn lemma_remotes_are_the_lines(list: Seq<Seq<char>>)
    ensures
        filled(list) == list.filter(|line: Seq<char>| line.len() > 0),
    decreases list.len(),
{
    reveal(Seq::filter);
    if list.len() > 0 {
        lemma_remotes_are_the_lines(list.drop_last());
    } else {
        assert(list =~= Seq::empty());
    }
}

/// Changes are taken over exactly on a standing yes, refused on a standing no,
/// asked about only at a terminal without a report; a pull fails where nothing
/// says what to do. Nothing is to be decided without changes or on a dry run.
pub proof fn lemma_pull_does_what_is_asked(
    options: PullOptions,
    changed: nat,
    stdin_is_tty: bool,
)
    ensures
        ({
            let step = step_of(options, changed, stdin_is_tty);
            let open = changed > 0 && !options.dry_run;
            &&& step == Ok::<ReviewDecision, Seq<char>>(ReviewDecision::Apply) <==> open
                && options.auto_yes
            &&& step == Ok::<ReviewDecision, Seq<char>>(ReviewDecision::Decline) <==> !open || (
            !options.auto_yes && options.auto_no)
            &&& step == Ok::<ReviewDecision, Seq<char>>(ReviewDecision::Prompt) <==> open
                && !options.auto_yes && !options.auto_no && stdin_is_tty && !options.json
            &&& step == Err::<ReviewDecision, Seq<char>>(
                "stdin is not interactive; pass --yes or --no"@,
            ) <==> open && !options.auto_yes && !options.auto_no && !stdin_is_tty
        }),
{
    reveal_strlit("stdin is not interactive; pass --yes or --no");
    reveal_strlit("--json cannot prompt for confirmation; pass --yes or --no");
    assert("stdin is not interactive; pass --yes or --no"@[0] == 's');
    assert("--json cannot prompt for confirmation; pass --yes or --no"@[0] == '-');
}

/// Another directory is taken from the current one on, and where it is absolute
/// as it is; without one the changes go to the session's repository.
pub proof fn lemma_pull_goes_where_it_is_told(
    repository: Seq<char>,
    named: Seq<char>,
    cwd: Seq<char>,
)
    ensures
        crate::pull::wanted_target(repository, None, cwd) == repository,
        named.len() > 0 && named[0] == '/' ==> crate::pull::wanted_target(
            repository,
            Some(named),
            cwd,
        ) == named,
        named.len() > 0 && named[0] != '/' && cwd.len() > 0 && cwd.last() != '/'
            ==> crate::pull::wanted_target(repository, Some(named), cwd) == cwd + "/"@ + named,
{
    reveal_strlit("/");
    assert("/"@ =~= seq!['/']);
    if named.len() > 0 {
        assert(named.take(1) =~= seq![named[0]]);
        assert(seq![named[0]][0] == named[0]);
        assert(seq!['/'][0] == '/');
    }
}

/// The last line of a pull says what was done: how many files went where, or why
/// nothing was.
pub proof fn lemma_outcome_says_what_was_done(
    applied: bool,
    changed: nat,
    dry_run: bool,
    target: Seq<char>,
)
    ensures
        applied ==> outcome_text(applied, changed, dry_run, target) == "pulled "@ + decimal_text(
            changed,
        ) + " files into "@ + target,
        !applied && changed == 0 ==> outcome_text(applied, changed, dry_run, target)
            == "no changes to pull"@,
        !applied && changed > 0 ==> outcome_text(applied, changed, dry_run, target) == (
        if dry_run {
            "dry run: nothing applied"@
        } else {
            "no changes applied"@
        }),
{
}

/// A report names every path that was found, with its kind, in the same order.
pub proof fn lemma_report_names_every_path(list: Seq<Sighting>, i: int)
    requires
        0 <= i < list.len(),
    ensures
        sighted(list).len() == list.len(),
        sighted(list)[i].path == list[i].path@,
        sighted(list)[i].kind == ChangeKind::Added <==> list[i].in_sandbox && !list[i].in_target,
        sighted(list)[i].kind == ChangeKind::Deleted <==> list[i].in_target
            && !list[i].in_sandbox,
{
}

} // verus!
