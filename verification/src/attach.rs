//! Looking into running sessions: listing them, and running commands in
//! their containers.

use crate::paths::{file_name, file_name_of};
use crate::podman::{pair, push_all, push_pair, push_text};
use crate::registry::SessionRecord;
use crate::text::{cat2, cat3, cat4, decimal, decimal_text, text_pairs, texts};
use vstd::prelude::*;
use vstd::string::*;

verus! {

/// The arguments that set variables in a container.
pub open spec fn env_args(variables: Seq<(Seq<char>, Seq<char>)>) -> Seq<Seq<char>>
    decreases variables.len(),
{
    if variables.len() == 0 {
        Seq::empty()
    } else {
        env_args(variables.drop_last()) + env_pair(variables.last().0, variables.last().1)
    }
}

pub open spec fn env_pair(key: Seq<char>, value: Seq<char>) -> Seq<Seq<char>> {
    pair("--env"@, key + "="@ + value)
}

pub fn push_env(args: &mut Vec<String>, key: &str, value: &str)
    ensures
        texts(final(args)@) == texts(old(args)@) + env_pair(key@, value@),
{
    let setting = cat3(key, "=", value);
    push_pair(args, "--env", setting.as_str());
}

pub fn push_env_all(args: &mut Vec<String>, variables: &Vec<(String, String)>)
    ensures
        texts(final(args)@) == texts(old(args)@) + env_args(text_pairs(variables@)),
{
    let ghost all = text_pairs(variables@);
    let ghost start = texts(args@);
    let mut i: usize = 0;
    assert(all.take(0) =~= Seq::empty());
    assert(start + Seq::<Seq<char>>::empty() =~= start);
    while i < variables.len()
        invariant
            i <= variables@.len(),
            all == text_pairs(variables@),
            texts(args@) == start + env_args(all.take(i as int)),
        decreases variables@.len() - i,
    {
        let ghost so_far = env_args(all.take(i as int));
        push_env(args, variables[i].0.as_str(), variables[i].1.as_str());
        proof {
            assert(all.take(i + 1).drop_last() =~= all.take(i as int));
            assert(all.take(i + 1).last() == all[i as int]);
            let more = env_pair(all[i as int].0, all[i as int].1);
            assert((start + so_far) + more =~= start + (so_far + more));
        }
        i += 1;
    }
    assert(all.take(i as int) =~= all);
}

/// Where in which container, and as whom, a command runs.
pub open spec fn target_args(session: SessionRecord) -> Seq<Seq<char>> {
    pair("--workdir"@, session.workspace@) + pair("--user"@, session.user@)
        + seq![session.container_name@]
}

pub fn push_target(args: &mut Vec<String>, session: &SessionRecord)
    ensures
        texts(final(args)@) == texts(old(args)@) + target_args(*session),
{
    let ghost start = texts(args@);
    push_pair(args, "--workdir", session.workspace.as_str());
    push_pair(args, "--user", session.user.as_str());
    push_text(args, session.container_name.as_str());
    assert(texts(args@) =~= start + target_args(*session));
}

/// The podman arguments for an interactive shell in a session.
pub fn shell_args(session: &SessionRecord, terminal: &Vec<(String, String)>) -> (r: Vec<String>)
    ensures
        texts(r@) == seq!["exec"@, "--interactive"@, "--tty"@] + env_args(text_pairs(terminal@))
            + target_args(*session) + seq!["bash"@],
{
    let mut args = vec!["exec".to_owned(), "--interactive".to_owned(), "--tty".to_owned()];
    assert(texts(args@) =~= seq!["exec"@, "--interactive"@, "--tty"@]);
    push_env_all(&mut args, terminal);
    push_target(&mut args, session);
    let ghost before = texts(args@);
    push_text(&mut args, "bash");
    assert(before.push("bash"@) =~= before + seq!["bash"@]);
    args
}

/// The complaint about an `exec` without a command.
pub fn require_command(command: &[String]) -> (r: Result<(), String>)
    ensures
        r is Ok <==> command@.len() > 0,
        r matches Err(message) ==> message@
            == "exec needs a command, e.g. pithos exec -- ls -la"@,
{
    if command.len() == 0 {
        Err("exec needs a command, e.g. pithos exec -- ls -la".to_owned())
    } else {
        Ok(())
    }
}

/// The podman arguments for one command in a session.
pub fn exec_args(
    session: &SessionRecord,
    terminal: &Vec<(String, String)>,
    command: &[String],
) -> (r: Vec<String>)
    ensures
        texts(r@) == seq!["exec"@] + env_args(text_pairs(terminal@)) + target_args(*session)
            + texts(command@),
{
    let mut args = vec!["exec".to_owned()];
    assert(texts(args@) =~= seq!["exec"@]);
    push_env_all(&mut args, terminal);
    push_target(&mut args, session);
    push_all(&mut args, command);
    args
}

/// What a finished foreground command is reported as; `status` is its exit
/// status in words.
pub fn foreground_outcome(label: &str, success: bool, status: &str) -> (r: Result<(), String>)
    ensures
        r is Ok <==> success,
        r matches Err(message) ==> message@ == label@ + " exited with "@ + status@,
{
    if success {
        Ok(())
    } else {
        Err(cat3(label, " exited with ", status))
    }
}

pub open spec fn label_of(repository: Seq<char>) -> Seq<char> {
    match file_name_of(repository) {
        Some(name) => name,
        None => repository,
    }
}

/// What a session's repository is listed as.
pub fn repo_label(session: &SessionRecord) -> (r: String)
    ensures
        r@ == label_of(session.repo_path@),
{
    match file_name(session.repo_path.as_str()) {
        Some(name) => name,
        None => session.repo_path.clone(),
    }
}

/// A number below a hundred, in two digits.
pub open spec fn two_digits(n: nat) -> Seq<char> {
    if n < 10 {
        "0"@ + decimal_text(n)
    } else {
        decimal_text(n)
    }
}

fn in_two_digits(n: u64) -> (r: String)
    ensures
        r@ == two_digits(n as nat),
{
    let text = decimal(n);
    if n < 10 {
        cat2("0", text.as_str())
    } else {
        text
    }
}

/// How long ago something started: in hours and minutes, in minutes and
/// seconds, or in seconds.
pub open spec fn uptime_text(now: u64, started_at: u64) -> Seq<char> {
    let elapsed: nat = if now > started_at {
        (now - started_at) as nat
    } else {
        0
    };
    let hours = elapsed / 3600;
    let minutes = (elapsed % 3600) / 60;
    let seconds = elapsed % 60;
    if hours > 0 {
        decimal_text(hours) + "h"@ + two_digits(minutes) + "m"@
    } else if minutes > 0 {
        decimal_text(minutes) + "m"@ + two_digits(seconds) + "s"@
    } else {
        decimal_text(seconds) + "s"@
    }
}

pub fn uptime(now: u64, started_at: u64) -> (r: String)
    ensures
        r@ == uptime_text(now, started_at),
{
    let elapsed: u64 = if now > started_at {
        now - started_at
    } else {
        0
    };
    let hours: u64 = elapsed / 3600;
    let minutes: u64 = (elapsed % 3600) / 60;
    let seconds: u64 = elapsed % 60;
    if hours > 0 {
        let first = decimal(hours);
        let second = in_two_digits(minutes);
        cat4(first.as_str(), "h", second.as_str(), "m")
    } else if minutes > 0 {
        let first = decimal(minutes);
        let second = in_two_digits(seconds);
        cat4(first.as_str(), "m", second.as_str(), "s")
    } else {
        let first = decimal(seconds);
        cat2(first.as_str(), "s")
    }
}

pub open spec fn spaces(n: nat) -> Seq<char> {
    Seq::new(n, |i: int| ' ')
}

/// The spaces that `text` lacks to be `width` wide.
pub open spec fn filling(text: Seq<char>, width: nat) -> Seq<char> {
    if text.len() < width {
        spaces((width - text.len()) as nat)
    } else {
        Seq::empty()
    }
}

fn fill(text: &str, width: usize) -> (r: String)
    ensures
        r@ == filling(text@, width as nat),
{
    let length = crate::text::chars_of(text).len();
    let mut out = String::new();
    let mut i: usize = length;
    while i < width
        invariant
            i >= length,
            i <= width || length > width,
            i == length || i <= width,
            length == text@.len(),
            out@ == spaces((i - length) as nat),
        decreases width - i,
    {
        out.push(' ');
        i += 1;
        assert(out@ =~= spaces((i - length) as nat));
    }
    assert(out@ =~= filling(text@, width as nat));
    out
}

/// One line of the list of sessions.
pub open spec fn session_line(session: SessionRecord, now: u64) -> Seq<char> {
    let label = label_of(session.repo_path@);
    let age = uptime_text(now, session.started_at);
    session.id@ + filling(session.id@, 30) + " "@ + label + filling(label, 24) + " "@ + filling(
        age,
        8,
    ) + age + "  "@ + session.sandbox_path@
}

pub fn ps_line(session: &SessionRecord, now: u64) -> (r: String)
    ensures
        r@ == session_line(*session, now),
{
    let label = repo_label(session);
    let age = uptime(now, session.started_at);
    let mut line = session.id.clone();
    line.append(fill(session.id.as_str(), 30).as_str());
    line.append(" ");
    line.append(label.as_str());
    line.append(fill(label.as_str(), 24).as_str());
    line.append(" ");
    line.append(fill(age.as_str(), 8).as_str());
    line.append(age.as_str());
    line.append("  ");
    line.append(session.sandbox_path.as_str());
    line
}

} // verus!
