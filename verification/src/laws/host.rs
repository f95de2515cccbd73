//! What sessions take from the host, and how they are found again.

use crate::attach::{filling, label_of, session_line, uptime_text};
use crate::audio::{sound_through};
use crate::environment::{forwarded};
use crate::networking::cache::Entry;
use crate::networking::hook::{hook_problem, hooks_args, scanned_dirs, HookState};
use crate::networking::{bare_line, shows_private_drops, statement, statements};
use crate::registry::{ended, filled_lines, ids, live, no_session, suffix_bits, SessionRecord};
use crate::text::{contains_part, decimal_text, has_suffix, trimmed, CharSet};
use vstd::prelude::*;
use vstd::string::*;

verus! {

/// A hook is relied on exactly where it is registered, can be run and read,
/// knows the rules that it is handed, and has nft to load them with.
pub proof fn lemma_hook_is_relied_on(
    hooks_dir: Seq<char>,
    state: HookState,
    nft_available: bool,
)
    ensures
        hook_problem(hooks_dir, state, nft_available) is None <==> state.found is Some
            && state.executable && state.script is Ok && contains_part(
            state.script->Ok_0@,
            "pithos.networking-rules"@,
        ) && nft_available,
{
}

/// The hook's own directory is scanned behind those of the system, so that it
/// takes precedence; each is named behind an option of its own.
pub proof fn lemma_hook_directories(own: Seq<char>, i: int)
    requires
        0 <= i < 3,
    ensures
        ({
            let dirs = scanned_dirs(Some(own));
            let args = hooks_args(dirs);
            &&& dirs.len() == 3
            &&& dirs[0] == "/usr/share/containers/oci/hooks.d"@
            &&& dirs[1] == "/etc/containers/oci/hooks.d"@
            &&& dirs[2] == crate::paths::path_join(
                crate::paths::path_join(own, "pithos"@),
                "hooks.d"@,
            )
            &&& args.len() == 6
            &&& args[2 * i] == "--hooks-dir"@
            &&& args[2 * i + 1] == dirs[i]
            &&& scanned_dirs(None) == dirs.take(2)
        }),
{
    let dirs = scanned_dirs(Some(own));
    lemma_hooks_at(dirs, i);
    assert(scanned_dirs(None) =~= dirs.take(2));
}

proof fn lemma_hooks_at(dirs: Seq<Seq<char>>, i: int)
    requires
        0 <= i < dirs.len(),
    ensures
        hooks_args(dirs).len() == 2 * dirs.len(),
        hooks_args(dirs)[2 * i] == "--hooks-dir"@,
        hooks_args(dirs)[2 * i + 1] == dirs[i],
    decreases dirs.len(),
{
    let front = dirs.drop_last();
    if front.len() > 0 {
        lemma_hooks_at(front, if i < front.len() {
            i
        } else {
            0
        });
    } else {
        assert(hooks_args(front) =~= Seq::empty());
    }
}

/// An entry is used for five minutes after it was looked up, and renewed in the
/// last of them.
pub proof fn lemma_entry_lasts_five_minutes(entry: &Entry, now: u64)
    ensures
        entry.fresh(now) <==> now < entry.resolved_at + 300,
        entry.due(now) <==> now >= entry.resolved_at + 240,
{
}

/// A check of the rules looks for the drops of all four private ranges.
pub proof fn lemma_check_looks_for_every_range(ruleset: Seq<char>)
    ensures
        shows_private_drops(ruleset) <==> contains_part(ruleset, "drop"@) && contains_part(
            ruleset,
            "10.0.0.0/8"@,
        ) && contains_part(ruleset, "172.16.0.0/12"@) && contains_part(
            ruleset,
            "192.168.0.0/16"@,
        ) && contains_part(ruleset, "169.254.0.0/16"@),
{
    let ranges = crate::networking::private_ranges();
    if shows_private_drops(ruleset) {
        assert(contains_part(ruleset, ranges[0]));
        assert(contains_part(ruleset, ranges[1]));
        assert(contains_part(ruleset, ranges[2]));
        assert(contains_part(ruleset, ranges[3]));
    }
}

/// A line of rules, without its surroundings and with its separator.
pub open spec fn as_statement(line: Seq<char>) -> Seq<char> {
    let bare = bare_line(line);
    if has_suffix(bare, "{"@) || has_suffix(bare, ";"@) {
        bare
    } else {
        bare + ";"@
    }
}

/// Of rules that travel on one line no statement is lost: each line that is not
/// blank is one, in its order.
pub proof fn lemma_no_statement_is_lost(lines: Seq<Seq<char>>)
    ensures
        statements(lines) == lines.filter(|line: Seq<char>| bare_line(line).len() > 0).map_values(
            |line: Seq<char>| as_statement(line),
        ),
    decreases lines.len(),
{
    reveal(Seq::filter);
    let full = |line: Seq<char>| bare_line(line).len() > 0;
    let made = |line: Seq<char>| as_statement(line);
    if lines.len() == 0 {
        assert(lines.filter(full).map_values(made) =~= Seq::empty());
    } else {
        let front = lines.drop_last();
        let last = lines.last();
        lemma_no_statement_is_lost(front);
        assert(front.filter(full).push(last).map_values(made) =~= front.filter(full).map_values(
            made,
        ).push(made(last)));
        assert(statements(lines) =~= statements(front) + statement(last));
        if full(last) {
            assert(statement(last) =~= seq![as_statement(last)]);
            assert(statements(front) + seq![as_statement(last)] =~= statements(front).push(
                as_statement(last),
            ));
        } else {
            assert(statements(front) + statement(last) =~= statements(front));
        }
    }
}

/// The sound server's socket is mounted below the agent's runtime directory, and
/// the variables lead there.
pub proof fn lemma_sound_leads_to_the_socket(socket: Seq<char>, uid: nat)
    ensures
        ({
            let guest = "/run/user/"@ + decimal_text(uid);
            let sound = sound_through(socket, uid);
            &&& sound.volume == socket + ":"@ + guest + "/pulse/native:rw,Z"@
            &&& sound.env.len() == 2
            &&& sound.env.contains(("XDG_RUNTIME_DIR"@, guest))
            &&& sound.env.contains(("PULSE_SERVER"@, "unix:"@ + guest + "/pulse/native"@))
        }),
{
    reveal_strlit("/pulse/native");
    reveal_strlit(":rw,Z");
    reveal_strlit("/pulse/native:rw,Z");
    let guest = "/run/user/"@ + decimal_text(uid);
    let sound = sound_through(socket, uid);
    assert("/pulse/native:rw,Z"@ =~= "/pulse/native"@ + ":rw,Z"@);
    assert(sound.volume =~= socket + ":"@ + guest + "/pulse/native:rw,Z"@);
    assert(sound.env[0] == ("XDG_RUNTIME_DIR"@, guest));
    assert("unix:"@ + (guest + "/pulse/native"@) =~= "unix:"@ + guest + "/pulse/native"@);
    assert(sound.env[1] == ("PULSE_SERVER"@, "unix:"@ + guest + "/pulse/native"@));
}

/// A variable that tells of the terminal.
pub open spec fn of_the_terminal(name: Seq<char>) -> bool {
    ||| name == "COLORTERM"@
    ||| name == "NO_COLOR"@
    ||| name == "TERM"@
    ||| name == "TERM_PROGRAM"@
    ||| name == "TERM_PROGRAM_VERSION"@
}

/// Of the host's variables a session takes over those that tell of the terminal
/// and have a value, and no other.
pub proof fn lemma_terminal_is_taken_over(source: Seq<(String, String)>)
    ensures
        forwarded(source) == source.filter(
            |variable: (String, String)|
                of_the_terminal(variable.0@) && variable.1@.len() > 0,
        ),
    decreases source.len(),
{
    reveal(Seq::filter);
    if source.len() == 0 {
        assert(source =~= Seq::empty());
    } else {
        lemma_terminal_is_taken_over(source.drop_last());
        let name = source.last().0@;
        let names = crate::environment::forwarded_names();
        assert(names[0] == "COLORTERM"@ && names[1] == "NO_COLOR"@ && names[2] == "TERM"@
            && names[3] == "TERM_PROGRAM"@ && names[4] == "TERM_PROGRAM_VERSION"@);
        assert(names.contains(name) <==> of_the_terminal(name));
    }
}

/// Sessions are parted: those whose container runs stay, in their order, and of
/// the others the ids are given.
pub proof fn lemma_sessions_are_parted(
    sessions: Seq<SessionRecord>,
    running: Seq<Seq<char>>,
)
    ensures
        live(sessions, running) == sessions.filter(
            |record: SessionRecord| running.contains(record.container_name@),
        ),
        ended(sessions, running) == sessions.filter(
            |record: SessionRecord| !running.contains(record.container_name@),
        ).map_values(|record: SessionRecord| record.id@),
        live(sessions, running).len() + ended(sessions, running).len() == sessions.len(),
    decreases sessions.len(),
{
    reveal(Seq::filter);
    let over = |record: SessionRecord| !running.contains(record.container_name@);
    let id = |record: SessionRecord| record.id@;
    if sessions.len() == 0 {
        assert(sessions.filter(over).map_values(id) =~= Seq::empty());
        assert(sessions =~= Seq::empty());
    } else {
        let front = sessions.drop_last();
        lemma_sessions_are_parted(front, running);
        assert(front.filter(over).push(sessions.last()).map_values(id) =~= front.filter(
            over,
        ).map_values(id).push(id(sessions.last())));
    }
}

/// A request means a session exactly where it names one, or names none while one
/// alone runs.
pub proof fn lemma_request_means_a_session(
    sessions: Seq<SessionRecord>,
    requested: Option<Seq<char>>,
)
    ensures
        no_session(sessions, requested) is None <==> match requested {
            Some(name) => exists|i: int|
                0 <= i < sessions.len() && (#[trigger] sessions[i]).id@ == name,
            None => sessions.len() == 1,
        },
{
    match requested {
        Some(name) => {
            let all = ids(sessions);
            if all.contains(name) {
                let i = choose|i: int| 0 <= i < all.len() && all[i] == name;
                assert(sessions[i].id@ == name);
            }
            if exists|i: int| 0 <= i < sessions.len() && (#[trigger] sessions[i]).id@ == name {
                let i = choose|i: int|
                    0 <= i < sessions.len() && (#[trigger] sessions[i]).id@ == name;
                assert(all[i] == name);
            }
        },
        None => {},
    }
}

/// Two sessions of one process have different suffixes where the clock's last
/// sixteen bits differ.
pub proof fn lemma_suffix_follows_the_clock(first: u32, second: u32, pid: u32)
    ensures
        suffix_bits(first, pid) == suffix_bits(second, pid) <==> first & 0xffffu32 == second
            & 0xffffu32,
        suffix_bits(first, pid) < 0x10000u32,
{
    assert((first ^ ((pid << 16u32) | (pid >> 16u32))) & 0xffffu32 == (second ^ ((pid << 16u32)
        | (pid >> 16u32))) & 0xffffu32 <==> first & 0xffffu32 == second & 0xffffu32)
        by (bit_vector);
    assert((first ^ ((pid << 16u32) | (pid >> 16u32))) & 0xffffu32 < 0x10000u32) by (bit_vector);
}

/// The lines that are not blank are read, in their order and without their
/// surroundings.
pub proof fn lemma_filled_lines_are_read(lines: Seq<Seq<char>>)
    ensures
        filled_lines(lines) == lines.map_values(
            |line: Seq<char>| trimmed(line, CharSet::WhiteSpace),
        ).filter(|line: Seq<char>| line.len() > 0),
    decreases lines.len(),
{
    reveal(Seq::filter);
    let bare = |line: Seq<char>| trimmed(line, CharSet::WhiteSpace);
    let full = |line: Seq<char>| line.len() > 0;
    if lines.len() == 0 {
        assert(lines.map_values(bare) =~= Seq::empty());
    } else {
        lemma_filled_lines_are_read(lines.drop_last());
        let all = lines.map_values(bare);
        assert(all.drop_last() =~= lines.drop_last().map_values(bare));
        assert(all.last() == bare(lines.last()));
    }
}

/// The time since a start is given in hours and minutes, in minutes and seconds,
/// or in seconds; nothing has passed before the start.
pub proof fn lemma_uptime_in_words(
    started_at: u64,
    now: u64,
    hours: nat,
    minutes: nat,
    seconds: nat,
)
    requires
        minutes < 60,
        seconds < 60,
        now == started_at + 3600 * hours + 60 * minutes + seconds,
    ensures
        hours > 0 ==> uptime_text(now, started_at) == decimal_text(hours) + "h"@ + (if minutes
            < 10 {
            "0"@
        } else {
            Seq::empty()
        }) + decimal_text(minutes) + "m"@,
        hours == 0 && minutes > 0 ==> uptime_text(now, started_at) == decimal_text(minutes)
            + "m"@ + (if seconds < 10 {
            "0"@
        } else {
            Seq::empty()
        }) + decimal_text(seconds) + "s"@,
        hours == 0 && minutes == 0 ==> uptime_text(now, started_at) == decimal_text(seconds)
            + "s"@,
        uptime_text(started_at, now) == "0s"@ || started_at > now,
{
    let elapsed = (now - started_at) as nat;
    assert(elapsed == 3600 * hours + 60 * minutes + seconds);
    assert(elapsed / 3600 == hours) by (nonlinear_arith)
        requires
            elapsed == 3600 * hours + 60 * minutes + seconds,
            minutes < 60,
            seconds < 60,
    ;
    assert(elapsed % 3600 == 60 * minutes + seconds) by (nonlinear_arith)
        requires
            elapsed == 3600 * hours + 60 * minutes + seconds,
            minutes < 60,
            seconds < 60,
    ;
    assert((60 * minutes + seconds) / 60 == minutes);
    assert(elapsed % 60 == seconds) by (nonlinear_arith)
        requires
            elapsed == 3600 * hours + 60 * minutes + seconds,
            seconds < 60,
    ;
    let gap: Seq<char> = Seq::empty();
    if hours > 0 {
        assert(uptime_text(now, started_at) =~= decimal_text(hours) + "h"@ + (if minutes < 10 {
            "0"@
        } else {
            gap
        }) + decimal_text(minutes) + "m"@);
    } else if minutes > 0 {
        assert(uptime_text(now, started_at) =~= decimal_text(minutes) + "m"@ + (if seconds < 10 {
            "0"@
        } else {
            gap
        }) + decimal_text(seconds) + "s"@);
    }
    reveal_strlit("0s");
    reveal_strlit("s");
    assert(decimal_text(0) + "s"@ =~= "0s"@);
}

/// A session is listed in columns: its id, its repository, its age to the right
/// of its column, and its workspace.
pub proof fn lemma_session_is_listed_in_columns(session: SessionRecord, now: u64)
    requires
        session.id@.len() <= 30,
        label_of(session.repo_path@).len() <= 24,
        uptime_text(now, session.started_at).len() <= 8,
    ensures
        ({
            let line = session_line(session, now);
            let label = label_of(session.repo_path@);
            let age = uptime_text(now, session.started_at);
            &&& line.len() == 66 + session.sandbox_path@.len()
            &&& line.take(session.id@.len() as int) == session.id@
            &&& line.subrange(31, (31 + label.len()) as int) == label
            &&& line.subrange(64 - age.len(), 64) == age
            &&& line.skip(66) == session.sandbox_path@
        }),
{
    reveal_strlit(" ");
    reveal_strlit("  ");
    let line = session_line(session, now);
    let label = label_of(session.repo_path@);
    let age = uptime_text(now, session.started_at);
    let first = session.id@ + filling(session.id@, 30);
    let second = label + filling(label, 24);
    let third = filling(age, 8) + age;
    assert(first.len() == 30 && second.len() == 24 && third.len() == 8);
    let path = session.sandbox_path@;
    assert(line =~= first + " "@ + second + " "@ + third + "  "@ + path);
    assert(line.take(session.id@.len() as int) =~= session.id@);
    assert(line.subrange(31, (31 + label.len()) as int) =~= label);
    assert(line.subrange(64 - age.len(), 64) =~= age);
    assert(line.skip(66) =~= path);
}

} // verus!
