//! The check, after a session has started, that its rules are in force.

use crate::config::Networking;
use crate::networking::{private_ranges, private_v4_ranges, shows_private_drops, TABLE};
use crate::platform::{decode_lossy, lossy_text};
use crate::text::{cat2, contains, contains_part, same_text, texts, trim, trimmed, CharSet};
use vstd::prelude::*;

verus! {

/// How long a container may take to start, in milliseconds.
pub const STARTUP_TIMEOUT_MS: u64 = 30_000;

/// How often its state is asked for meanwhile, in milliseconds.
pub const POLL_INTERVAL_MS: u64 = 500;

pub enum Verdict {
    /// The rules are in force.
    Compliant,
    /// The rules could not be read, for this reason.
    Inconclusive(String),
    /// The rules are not in force.
    Violated,
}

/// Without private drops there is nothing in a session's rules that a check
/// could look for.
pub fn check_wanted(networking: &Networking) -> (r: bool)
    ensures
        r == (networking.enabled && networking.block_private),
{
    networking.enabled && networking.block_private
}

/// What podman printed of a container's state, where it printed anything.
pub open spec fn state_text(output: Option<Seq<u8>>) -> Option<Seq<char>> {
    match output {
        Some(bytes) => {
            let text = trimmed(lossy_text(bytes), CharSet::WhiteSpace);
            if text.len() == 0 {
                None
            } else {
                Some(text)
            }
        },
        None => None,
    }
}

/// Reads what podman printed of a container's state, on success.
pub fn inspect_state(output: Option<&[u8]>) -> (r: Option<String>)
    ensures
        (match r {
            Some(text) => output is Some && state_text(Some(output->Some_0@)) == Some(text@),
            None => output is None || state_text(Some(output->Some_0@)) is None,
        }),
{
    match output {
        Some(bytes) => {
            let text = decode_lossy(bytes);
            let value = trim(text.as_str());
            if value.as_str().is_empty() {
                None
            } else {
                Some(value)
            }
        },
        None => None,
    }
}

pub fn is_running(status: &Option<String>) -> (r: bool)
    ensures
        r == (status is Some && status->Some_0@ == "running"@),
{
    match status {
        Some(text) => same_text(text.as_str(), "running"),
        None => false,
    }
}

/// The process of a running container; podman says zero while it has none.
pub fn running_pid(status: &Option<String>, pid: Option<String>) -> (r: Option<String>)
    ensures
        (match r {
            Some(text) => status is Some && status->Some_0@ == "running"@ && pid is Some
                && pid->Some_0@ == text@ && text@ != "0"@,
            None => status is None || status->Some_0@ != "running"@ || pid is None || pid->Some_0@
                == "0"@,
        }),
{
    if !is_running(status) {
        return None;
    }
    match pid {
        Some(text) => if same_text(text.as_str(), "0") {
            None
        } else {
            Some(text)
        },
        None => None,
    }
}

/// What to do while waiting for a container.
pub enum Wait {
    Started(String),
    Over,
    AskAgain,
}

/// Goes on waiting while the container exists and the time is not over.
pub fn next_wait(pid: Option<String>, still_there: bool, past_deadline: bool) -> (r: Wait)
    ensures
        (match pid {
            Some(text) => r matches Wait::Started(found) && found@ == text@,
            None => if !still_there || past_deadline {
                r is Over
            } else {
                r is AskAgain
            },
        }),
{
    match pid {
        Some(text) => Wait::Started(text),
        None => if !still_there || past_deadline {
            Wait::Over
        } else {
            Wait::AskAgain
        },
    }
}

pub fn inspect_args(format: &str, container: &str) -> (r: Vec<String>)
    ensures
        texts(r@) == seq!["inspect"@, "--format"@, format@, container@],
{
    let r = vec![
        "inspect".to_owned(),
        "--format".to_owned(),
        format.to_owned(),
        container.to_owned(),
    ];
    assert(texts(r@) =~= seq!["inspect"@, "--format"@, format@, container@]);
    r
}

/// The podman command that lists the rules of a process's network.
pub fn query_args(pid: &str) -> (r: Vec<String>)
    ensures
        texts(r@) == seq![
            "unshare"@,
            "nsenter"@,
            "-t"@,
            pid@,
            "-n"@,
            "nft"@,
            "list"@,
            "table"@,
            "inet"@,
            TABLE@,
        ],
{
    let r = vec![
        "unshare".to_owned(),
        "nsenter".to_owned(),
        "-t".to_owned(),
        pid.to_owned(),
        "-n".to_owned(),
        "nft".to_owned(),
        "list".to_owned(),
        "table".to_owned(),
        "inet".to_owned(),
        TABLE.to_owned(),
    ];
    assert(texts(r@) =~= seq![
        "unshare"@,
        "nsenter"@,
        "-t"@,
        pid@,
        "-n"@,
        "nft"@,
        "list"@,
        "table"@,
        "inet"@,
        TABLE@,
    ]);
    r
}

/// Whether a ruleset drops every private range.
pub fn private_drops_present(ruleset: &str) -> (r: bool)
    ensures
        r == shows_private_drops(ruleset@),
{
    if !contains(ruleset, "drop") {
        return false;
    }
    let ranges = private_v4_ranges();
    let mut i: usize = 0;
    while i < ranges.len()
        invariant
            i <= ranges@.len(),
            texts(ranges@) == private_ranges(),
            forall|j: int|
                0 <= j < i ==> contains_part(ruleset@, #[trigger] private_ranges()[j]),
        decreases ranges@.len() - i,
    {
        assert(private_ranges()[i as int] == ranges@[i as int]@);
        if !contains(ruleset, ranges[i].as_str()) {
            return false;
        }
        i += 1;
    }
    assert(private_ranges().len() == ranges@.len());
    true
}

/// What `str::to_lowercase` makes of a text.
pub uninterp spec fn lowercase(text: Seq<char>) -> Seq<char>;

/// Lowers a text with `str::to_lowercase`, whose result depends on the text
/// alone.
#[verifier::external_body]
fn lower(text: &str) -> (r: String)
    ensures
        r@ == lowercase(text@),
{
    text.to_lowercase()
}

/// What a query for the rules says: `success` and what it printed.
pub fn classify(success: bool, stdout: &[u8], stderr: &[u8]) -> (r: Verdict)
    ensures
        success ==> (r is Compliant <==> shows_private_drops(lossy_text(stdout@))),
        success ==> (r is Violated <==> !shows_private_drops(lossy_text(stdout@))),
        !success ==> classified_failure(lowercase(lossy_text(stderr@)), r),
{
    if success {
        let text = decode_lossy(stdout);
        if private_drops_present(text.as_str()) {
            Verdict::Compliant
        } else {
            Verdict::Violated
        }
    } else {
        let text = decode_lossy(stderr);
        let lowered = lower(text.as_str());
        classify_failure(lowered.as_str())
    }
}

/// What a failed query says: a table that is not there is a violation, and
/// anything else says nothing of the rules.
pub open spec fn classified_failure(message: Seq<char>, verdict: Verdict) -> bool {
    match verdict {
        Verdict::Compliant => false,
        Verdict::Violated => contains_part(message, "no such"@),
        Verdict::Inconclusive(reason) => !contains_part(message, "no such"@) && reason@
            == "nft list failed: "@ + trimmed(message, CharSet::WhiteSpace),
    }
}

/// Classifies the lower-case message of a failed query.
pub fn classify_failure(message: &str) -> (r: Verdict)
    ensures
        classified_failure(message@, r),
{
    if contains(message, "no such") {
        Verdict::Violated
    } else {
        let reason = trim(message);
        Verdict::Inconclusive(cat2("nft list failed: ", reason.as_str()))
    }
}

/// The verdict on a query that could not even be run.
pub fn query_not_run(error: &str) -> (r: Verdict)
    ensures
        r matches Verdict::Inconclusive(reason) && reason@ == "nft query could not run: "@ + error@,
{
    Verdict::Inconclusive(cat2("nft query could not run: ", error))
}

/// A session is stopped only where its rules are not in force.
pub fn must_stop(verdict: &Verdict) -> (r: bool)
    ensures
        r == (verdict is Violated),
{
    match verdict {
        Verdict::Violated => true,
        _ => false,
    }
}

} // verus!
