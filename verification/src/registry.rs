//! The record of running sessions: how they are named, listed and found.

use crate::order::{is_stable_sort, stable_sort, text_before, text_rank, Ranked};
use crate::paths::{file_name, file_name_of, join_path, path_join};
use crate::platform::{decode_lossy, lossy_text};
use crate::text::{
    cat2, cat3, cat4, cat5, chars_of, free_of, hex, hex_text, join, joined, lemma_texts_push,
    lemma_trimmed_free, lines, lines_of, lists, same_text, str_option, text_between, text_of, texts,
    trim, trim_both, trimmed, CharSet,
};
use vstd::prelude::*;
use vstd::string::*;

verus! {

pub struct SessionRecord {
    pub id: String,
    pub container_name: String,
    pub sandbox_path: String,
    pub repo_path: String,
    pub image_tag: String,
    pub workspace: String,
    pub user: String,
    pub unmanaged: Vec<String>,
    pub diff_viewer: Option<String>,
    pub pid: u32,
    /// When the session started, in seconds since the epoch.
    pub started_at: u64,
}

pub open spec fn safe_char(c: char) -> bool {
    ||| 'a' <= c <= 'z'
    ||| 'A' <= c <= 'Z'
    ||| '0' <= c <= '9'
    ||| c == '-'
    ||| c == '_'
    ||| c == '.'
}

/// A dash in place of each character that a container name cannot hold.
pub open spec fn dashed(name: Seq<char>) -> Seq<char> {
    Seq::new(
        name.len(),
        |i: int|
            if safe_char(name[i]) {
                name[i]
            } else {
                '-'
            },
    )
}

/// A name that a container can carry, of at most 32 characters.
pub open spec fn sanitized(name: Seq<char>) -> Seq<char> {
    let inner = trimmed(dashed(name), CharSet::One('-'));
    if inner.len() == 0 {
        "repo"@
    } else if inner.len() <= 32 {
        inner
    } else {
        inner.take(32)
    }
}

pub fn sanitize_name(name: &str) -> (r: String)
    ensures
        r@ == sanitized(name@),
{
    let chars = chars_of(name);
    let mut clean: Vec<char> = Vec::new();
    let mut i: usize = 0;
    assert(clean@ =~= dashed(name@).take(0));
    while i < chars.len()
        invariant
            chars@ == name@,
            i <= chars@.len(),
            clean@ == dashed(name@).take(i as int),
        decreases chars@.len() - i,
    {
        let c = chars[i];
        let fits = ('a' <= c && c <= 'z') || ('A' <= c && c <= 'Z') || ('0' <= c && c <= '9') || c
            == '-' || c == '_' || c == '.';
        clean.push(
            if fits {
                c
            } else {
                '-'
            },
        );
        i += 1;
        assert(clean@ =~= dashed(name@).take(i as int));
    }
    assert(dashed(name@).take(i as int) =~= dashed(name@));
    let text = text_of(&clean);
    let inner = trim_both(text.as_str(), CharSet::One('-'));
    if inner.as_str().is_empty() {
        return "repo".to_owned();
    }
    let letters = chars_of(inner.as_str());
    if letters.len() <= 32 {
        inner
    } else {
        assert(letters@.subrange(0, 32) =~= inner@.take(32));
        text_between(&letters, 0, 32)
    }
}

/// Sixteen bits of the clock mixed with sixteen of the process id.
pub open spec fn suffix_bits(nanos: u32, pid: u32) -> u32 {
    (nanos ^ ((pid << 16u32) | (pid >> 16u32))) & 0xffffu32
}

/// Four hexadecimal digits that tell sessions of one repository apart.
pub fn session_suffix(nanos: u32, pid: u32) -> (r: String)
    ensures
        r@ == hex_text(suffix_bits(nanos, pid) as nat, 4),
{
    let mixed: u32 = (nanos ^ ((pid << 16u32) | (pid >> 16u32))) & 0xffffu32;
    hex(mixed as u64, 4)
}

/// The name of the repository at `path`.
pub open spec fn repo_name(path: Seq<char>) -> Seq<char> {
    match file_name_of(path) {
        Some(name) => name,
        None => "repo"@,
    }
}

pub open spec fn session_id(repository: Seq<char>, suffix: Seq<char>) -> Seq<char> {
    sanitized(repo_name(repository)) + "-"@ + suffix
}

/// A text that a container can be named with.
pub open spec fn all_safe(text: Seq<char>) -> bool {
    forall|i: int| 0 <= i < text.len() ==> safe_char(#[trigger] text[i])
}

/// Whatever a repository is called, a session's id and its container's name
/// are ones that a container can carry; the id has at most 37 characters.
pub proof fn lemma_session_id_is_safe(repository: Seq<char>, nanos: u32, pid: u32)
    ensures
        ({
            let id = session_id(repository, hex_text(suffix_bits(nanos, pid) as nat, 4));
            &&& all_safe(id)
            &&& all_safe("pithos-"@ + id)
            &&& 6 <= id.len() <= 37
        }),
{
    reveal_strlit("repo");
    reveal_strlit("-");
    reveal_strlit("pithos-");
    reveal_with_fuel(hex_text, 5);
    let name = repo_name(repository);
    let inner = trimmed(dashed(name), CharSet::One('-'));
    assert forall|i: int| 0 <= i < inner.len() implies safe_char(#[trigger] inner[i]) by {
        if !safe_char(inner[i]) {
            assert(free_of(dashed(name), inner[i]));
            lemma_trimmed_free(dashed(name), CharSet::One('-'), inner[i]);
        }
    }
    assert(all_safe(sanitized(name)));
    let suffix = hex_text(suffix_bits(nanos, pid) as nat, 4);
    assert(all_safe(suffix));
    assert(all_safe("-"@));
    assert(all_safe("pithos-"@));
}

/// What a session is started with.
pub struct SessionInput {
    pub repository: String,
    pub sandbox_path: String,
    pub image_tag: String,
    pub workspace: String,
    pub user: String,
    pub unmanaged: Vec<String>,
    pub diff_viewer: Option<String>,
    pub suffix: String,
    pub pid: u32,
    pub started_at: u64,
}

impl SessionRecord {
    /// The record of a new session, named after its repository.
    pub fn new(input: SessionInput) -> (r: SessionRecord)
        ensures
            r.id@ == session_id(input.repository@, input.suffix@),
            r.container_name@ == "pithos-"@ + r.id@,
            r.sandbox_path == input.sandbox_path,
            r.repo_path == input.repository,
            r.image_tag == input.image_tag,
            r.workspace == input.workspace,
            r.user == input.user,
            r.unmanaged == input.unmanaged,
            r.diff_viewer == input.diff_viewer,
            r.pid == input.pid,
            r.started_at == input.started_at,
    {
        let name = match file_name(input.repository.as_str()) {
            Some(name) => name,
            None => "repo".to_owned(),
        };
        let clean = sanitize_name(name.as_str());
        let id = cat3(clean.as_str(), "-", input.suffix.as_str());
        SessionRecord {
            container_name: cat2("pithos-", id.as_str()),
            id,
            sandbox_path: input.sandbox_path,
            repo_path: input.repository,
            image_tag: input.image_tag,
            workspace: input.workspace,
            user: input.user,
            unmanaged: input.unmanaged,
            diff_viewer: input.diff_viewer,
            pid: input.pid,
            started_at: input.started_at,
        }
    }
}

impl Ranked for SessionRecord {
    /// Sessions are listed by their start, then by their id.
    open spec fn rank(&self) -> Seq<int> {
        seq![self.started_at as int] + text_rank(self.id@)
    }

    fn precedes(&self, other: &Self) -> (r: bool) {
        proof {
            assert(self.rank().skip(1) =~= text_rank(self.id@));
            assert(other.rank().skip(1) =~= text_rank(other.id@));
        }
        self.started_at < other.started_at || (self.started_at == other.started_at && text_before(
            self.id.as_str(),
            other.id.as_str(),
        ))
    }
}

/// The sessions in the order in which they are listed.
pub fn in_order(sessions: Vec<SessionRecord>) -> (r: Vec<SessionRecord>)
    ensures
        is_stable_sort(sessions@, r@),
{
    stable_sort(sessions)
}

pub open spec fn stale(record: SessionRecord, running: Seq<Seq<char>>) -> bool {
    !running.contains(record.container_name@)
}

/// A session is over once its container does not run.
pub fn is_stale(record: &SessionRecord, running_names: &[String]) -> (r: bool)
    ensures
        r == stale(*record, texts(running_names@)),
{
    !lists(running_names, record.container_name.as_str())
}

pub open spec fn live(sessions: Seq<SessionRecord>, running: Seq<Seq<char>>) -> Seq<SessionRecord>
    decreases sessions.len(),
{
    if sessions.len() == 0 {
        Seq::empty()
    } else if stale(sessions.last(), running) {
        live(sessions.drop_last(), running)
    } else {
        live(sessions.drop_last(), running).push(sessions.last())
    }
}

/// The ids of the sessions that are over.
pub open spec fn ended(sessions: Seq<SessionRecord>, running: Seq<Seq<char>>) -> Seq<Seq<char>>
    decreases sessions.len(),
{
    if sessions.len() == 0 {
        Seq::empty()
    } else if stale(sessions.last(), running) {
        ended(sessions.drop_last(), running).push(sessions.last().id@)
    } else {
        ended(sessions.drop_last(), running)
    }
}

/// Parts the sessions that run from the ids of those that do not.
pub fn prune(sessions: Vec<SessionRecord>, running_names: &[String]) -> (r: (
    Vec<SessionRecord>,
    Vec<String>,
))
    ensures
        r.0@ == live(sessions@, texts(running_names@)),
        texts(r.1@) == ended(sessions@, texts(running_names@)),
{
    let ghost all = sessions@;
    let ghost running = texts(running_names@);
    let mut rest = sessions;
    let mut kept: Vec<SessionRecord> = Vec::new();
    let mut gone: Vec<String> = Vec::new();
    let ghost mut taken: int = 0;
    assert(all.take(0) =~= Seq::empty());
    assert(all.skip(0) =~= all);
    assert(texts(gone@) =~= Seq::empty());
    while rest.len() > 0
        invariant
            0 <= taken <= all.len(),
            rest@ == all.skip(taken),
            running == texts(running_names@),
            kept@ == live(all.take(taken), running),
            texts(gone@) == ended(all.take(taken), running),
        decreases rest@.len(),
    {
        broadcast use lemma_texts_push;

        proof {
            assert(rest@[0] == all[taken]);
            assert(all.take(taken + 1).drop_last() =~= all.take(taken));
            assert(all.take(taken + 1).last() == all[taken]);
        }
        let session = rest.remove(0);
        assert(rest@ =~= all.skip(taken + 1));
        if is_stale(&session, running_names) {
            gone.push(session.id);
        } else {
            kept.push(session);
        }
        proof {
            taken = taken + 1;
        }
    }
    assert(all.take(taken) =~= all);
    (kept, gone)
}

/// Pruning keeps exactly the sessions whose container runs.
pub proof fn lemma_live_runs(
    sessions: Seq<SessionRecord>,
    running: Seq<Seq<char>>,
    record: SessionRecord,
)
    ensures
        live(sessions, running).contains(record) <==> sessions.contains(record) && running.contains(
            record.container_name@,
        ),
    decreases sessions.len(),
{
    if sessions.len() > 0 {
        let front = sessions.drop_last();
        lemma_live_runs(front, running, record);
        let before = live(front, running);
        if front.contains(record) {
            let i = choose|i: int| 0 <= i < front.len() && front[i] == record;
            assert(sessions[i] == record);
        }
        if sessions.contains(record) && record != sessions.last() {
            let i = choose|i: int| 0 <= i < sessions.len() && sessions[i] == record;
            assert(front[i] == record);
        }
        if !stale(sessions.last(), running) {
            let after = before.push(sessions.last());
            if before.contains(record) {
                let i = choose|i: int| 0 <= i < before.len() && before[i] == record;
                assert(after[i] == record);
            }
            if after.contains(record) && record != sessions.last() {
                let i = choose|i: int| 0 <= i < after.len() && after[i] == record;
                assert(before[i] == record);
            }
            assert(after[before.len() as int] == sessions.last());
        }
        assert(sessions[sessions.len() - 1] == sessions.last());
    }
}

pub open spec fn ids(sessions: Seq<SessionRecord>) -> Seq<Seq<char>> {
    Seq::new(sessions.len(), |i: int| sessions[i].id@)
}

/// Why no session answers to a request.
pub open spec fn no_session(sessions: Seq<SessionRecord>, requested: Option<Seq<char>>) -> Option<
    Seq<char>,
> {
    if sessions.len() == 0 {
        Some("no running pithos sessions"@)
    } else if sessions.len() == 1 {
        match requested {
            Some(name) => if sessions[0].id@ != name {
                Some(
                    "no session named \""@ + name + "\"; running session is \""@ + sessions[0].id@
                        + "\""@,
                )
            } else {
                None
            },
            None => None,
        }
    } else {
        match requested {
            Some(name) => if ids(sessions).contains(name) {
                None
            } else {
                Some(
                    "no session named \""@ + name + "\"; running sessions: "@ + joined(
                        ids(sessions),
                        ", "@,
                    ),
                )
            },
            None => Some(
                "multiple pithos sessions are running; pick one with its id: "@ + joined(
                    ids(sessions),
                    ", "@,
                ),
            ),
        }
    }
}

/// `i` is the session that a request means.
pub open spec fn answers(
    sessions: Seq<SessionRecord>,
    requested: Option<Seq<char>>,
    i: int,
) -> bool {
    &&& 0 <= i < sessions.len()
    &&& match requested {
        Some(name) => sessions[i].id@ == name && forall|j: int|
            0 <= j < i ==> (#[trigger] sessions[j]).id@ != name,
        None => sessions.len() == 1,
    }
}

fn id_list(sessions: &Vec<SessionRecord>) -> (r: String)
    ensures
        r@ == joined(ids(sessions@), ", "@),
{
    let mut out: Vec<String> = Vec::new();
    let ghost all = ids(sessions@);
    let mut i: usize = 0;
    assert(texts(out@) =~= all.take(0));
    while i < sessions.len()
        invariant
            i <= sessions@.len(),
            all == ids(sessions@),
            texts(out@) == all.take(i as int),
        decreases sessions@.len() - i,
    {
        broadcast use lemma_texts_push;

        out.push(sessions[i].id.clone());
        i += 1;
        assert(texts(out@) =~= all.take(i as int));
    }
    assert(all.take(i as int) =~= all);
    join(out.as_slice(), ", ")
}

/// Finds the session that a request means. The id may be left out while
/// exactly one session runs.
pub fn resolve<'a>(sessions: &'a Vec<SessionRecord>, requested: Option<&str>) -> (r: Result<
    &'a SessionRecord,
    String,
>)
    ensures
        (match r {
            Ok(record) => no_session(sessions@, str_option(requested)) is None && exists|i: int|
                #[trigger] answers(sessions@, str_option(requested), i) && sessions@[i] == *record,
            Err(message) => no_session(sessions@, str_option(requested)) == Some(message@),
        }),
{
    if sessions.len() == 0 {
        return Err("no running pithos sessions".to_owned());
    }
    let name = match requested {
        Some(name) => name,
        None => {
            if sessions.len() == 1 {
                assert(answers(sessions@, str_option(requested), 0));
                return Ok(&sessions[0]);
            }
            let list = id_list(sessions);
            return Err(
                cat2(
                    "multiple pithos sessions are running; pick one with its id: ",
                    list.as_str(),
                ),
            );
        },
    };
    let mut i: usize = 0;
    while i < sessions.len()
        invariant
            i <= sessions@.len(),
            sessions@.len() > 0,
            requested == Some(name),
            forall|j: int| 0 <= j < i ==> (#[trigger] sessions@[j]).id@ != name@,
        decreases sessions@.len() - i,
    {
        if same_text(sessions[i].id.as_str(), name) {
            proof {
                assert(ids(sessions@)[i as int] == name@);
                assert(answers(sessions@, str_option(requested), i as int));
            }
            return Ok(&sessions[i]);
        }
        i += 1;
    }
    assert(!ids(sessions@).contains(name@));
    if sessions.len() == 1 {
        Err(
            cat5(
                "no session named \"",
                name,
                "\"; running session is \"",
                sessions[0].id.as_str(),
                "\"",
            ),
        )
    } else {
        let list = id_list(sessions);
        Err(cat4("no session named \"", name, "\"; running sessions: ", list.as_str()))
    }
}

/// Where the record of a session is kept.
pub fn record_path(dir: &str, id: &str) -> (r: String)
    ensures
        r@ == path_join(dir@, id@ + ".json"@),
{
    let name = cat2(id, ".json");
    join_path(dir, name.as_str())
}

/// The directory of the records: below the runtime directory of the user, or
/// else below the one for temporary files.
pub fn runtime_dir(xdg_runtime_dir: Option<&String>, temp_dir: &str) -> (r: String)
    ensures
        r@ == path_join(
            (match xdg_runtime_dir {
                Some(dir) => dir@,
                None => temp_dir@,
            }),
            "pithos"@,
        ),
{
    match xdg_runtime_dir {
        Some(dir) => join_path(dir.as_str(), "pithos"),
        None => join_path(temp_dir, "pithos"),
    }
}

/// The lines that are not blank, without their surroundings.
pub open spec fn filled_lines(lines: Seq<Seq<char>>) -> Seq<Seq<char>>
    decreases lines.len(),
{
    if lines.len() == 0 {
        Seq::empty()
    } else {
        let line = trimmed(lines.last(), CharSet::WhiteSpace);
        let before = filled_lines(lines.drop_last());
        if line.len() == 0 {
            before
        } else {
            before.push(line)
        }
    }
}

/// The lines of `text` that are not blank, without their surroundings.
pub fn read_filled_lines(text: &str) -> (r: Vec<String>)
    ensures
        texts(r@) == filled_lines(lines_of(text@)),
{
    let list = lines(text);
    let ghost all = lines_of(text@);
    let mut out: Vec<String> = Vec::new();
    let mut i: usize = 0;
    assert(all.take(0) =~= Seq::empty());
    assert(texts(out@) =~= Seq::empty());
    while i < list.len()
        invariant
            i <= list@.len(),
            all == texts(list@),
            texts(out@) == filled_lines(all.take(i as int)),
        decreases list@.len() - i,
    {
        broadcast use lemma_texts_push;

        proof {
            assert(all.take(i + 1).drop_last() =~= all.take(i as int));
            assert(all.take(i + 1).last() == list@[i as int]@);
        }
        let line = trim(list[i].as_str());
        if !line.as_str().is_empty() {
            out.push(line);
        }
        i += 1;
    }
    assert(all.take(i as int) =~= all);
    out
}

/// Reads the names of the running containers from what podman printed.
pub fn running_container_names(success: bool, stdout: &[u8], stderr: &[u8]) -> (r: Result<
    Vec<String>,
    String,
>)
    ensures
        (match r {
            Ok(names) => success && texts(names@) == filled_lines(lines_of(lossy_text(stdout@))),
            Err(message) => !success && message@ == "podman ps failed: "@ + trimmed(
                lossy_text(stderr@),
                CharSet::WhiteSpace,
            ),
        }),
{
    if success {
        let text = decode_lossy(stdout);
        Ok(read_filled_lines(text.as_str()))
    } else {
        let text = decode_lossy(stderr);
        let reason = trim(text.as_str());
        Err(cat2("podman ps failed: ", reason.as_str()))
    }
}

} // verus!
