//! The OCI hook that loads egress rules on hosts where podman runs hooks:
//! where it is registered, and whether a registration can be relied on.

use crate::image::{quoted, shell_quote};
use crate::json::{json_parsed, parse_json, tree_member, Json, JsonTree};
use crate::paths::{ends_in, has_extension, join_path, path_join};
use crate::platform::{decode_lossy, lossy_text};
use crate::podman::{pair, push_pair};
use crate::text::{
    cat2, cat3, cat4, cat5, contains, contains_part, same_text, texts, trim, trimmed, CharSet,
};
use vstd::prelude::*;
use vstd::string::*;

verus! {

pub open spec fn pithos_hooks(data_dir: Seq<char>) -> Seq<char> {
    path_join(path_join(data_dir, "pithos"@), "hooks.d"@)
}

/// The directory of the hook and its registration, below the directory for
/// local data.
pub fn pithos_hooks_dir(data_dir: &str) -> (r: String)
    ensures
        r@ == pithos_hooks(data_dir@),
{
    let base = join_path(data_dir, "pithos");
    join_path(base.as_str(), "hooks.d")
}

/// The directories that podman scans. A later one takes precedence, so the
/// hook's own comes last.
pub open spec fn scanned_dirs(data_dir: Option<Seq<char>>) -> Seq<Seq<char>> {
    let system = seq!["/usr/share/containers/oci/hooks.d"@, "/etc/containers/oci/hooks.d"@];
    match data_dir {
        Some(dir) => system.push(pithos_hooks(dir)),
        None => system,
    }
}

pub fn oci_hooks_dirs(data_dir: Option<&String>) -> (r: Vec<String>)
    ensures
        texts(r@) == scanned_dirs(
            (match data_dir {
                Some(dir) => Some(dir@),
                None => None,
            }),
        ),
{
    let mut out = vec![
        "/usr/share/containers/oci/hooks.d".to_owned(),
        "/etc/containers/oci/hooks.d".to_owned(),
    ];
    if let Some(dir) = data_dir {
        out.push(pithos_hooks_dir(dir.as_str()));
    }
    assert(texts(out@) =~= scanned_dirs(
        (match data_dir {
            Some(dir) => Some(dir@),
            None => None,
        }),
    ));
    out
}

/// An option for each directory.
pub open spec fn hooks_args(dirs: Seq<Seq<char>>) -> Seq<Seq<char>>
    decreases dirs.len(),
{
    if dirs.len() == 0 {
        Seq::empty()
    } else {
        hooks_args(dirs.drop_last()) + pair("--hooks-dir"@, dirs.last())
    }
}

/// Tells podman to scan the directories.
pub fn append_oci_hooks_args(args: &mut Vec<String>, data_dir: Option<&String>)
    ensures
        texts(final(args)@) == texts(old(args)@) + hooks_args(
            scanned_dirs(
                (match data_dir {
                    Some(dir) => Some(dir@),
                    None => None,
                }),
            ),
        ),
{
    let dirs = oci_hooks_dirs(data_dir);
    let ghost all = texts(dirs@);
    let ghost start = texts(args@);
    let mut i: usize = 0;
    assert(all.take(0) =~= Seq::empty());
    assert(start + Seq::<Seq<char>>::empty() =~= start);
    while i < dirs.len()
        invariant
            i <= dirs@.len(),
            all == texts(dirs@),
            texts(args@) == start + hooks_args(all.take(i as int)),
        decreases dirs@.len() - i,
    {
        let ghost so_far = hooks_args(all.take(i as int));
        push_pair(args, "--hooks-dir", dirs[i].as_str());
        proof {
            assert(all.take(i + 1).drop_last() =~= all.take(i as int));
            assert(all.take(i + 1).last() == dirs@[i as int]@);
            let more = pair("--hooks-dir"@, dirs@[i as int]@);
            assert((start + so_far) + more =~= start + (so_far + more));
        }
        i += 1;
    }
    assert(all.take(i as int) =~= all);
}

pub open spec fn hook_config_text(script: Seq<char>) -> Seq<char> {
    "{\n  \"version\": \"1.0.0\",\n  \"hook\": {\n    \"path\": \""@ + script
        + "\",\n    \"args\": [\"pithos-egress-cap.sh\"]\n  },\n  \"when\": {\n    \"annotations\": {\n      \"pithos.networking\": \"1\"\n    }\n  },\n  \"stages\": [\"createRuntime\"]\n}\n"@
}

/// The registration of the hook script at `script_path`.
pub fn hook_config(script_path: &str) -> (r: String)
    ensures
        r@ == hook_config_text(script_path@),
{
    cat3(
        "{\n  \"version\": \"1.0.0\",\n  \"hook\": {\n    \"path\": \"",
        script_path,
        "\",\n    \"args\": [\"pithos-egress-cap.sh\"]\n  },\n  \"when\": {\n    \"annotations\": {\n      \"pithos.networking\": \"1\"\n    }\n  },\n  \"stages\": [\"createRuntime\"]\n}\n",
    )
}

/// The script that installs the hook inside a podman machine.
pub fn machine_install_script(hook_script: &str) -> (r: String)
    ensures
        r@
            == "set -eu\nmkdir -p /usr/local/share/pithos/hooks /usr/share/containers/oci/hooks.d \"$HOME/.config/containers/oci/hooks.d\"\nprintf '%s' "@
            + quoted(hook_script@)
            + " > /usr/local/share/pithos/hooks/pithos-egress-cap.sh\nchmod 755 /usr/local/share/pithos/hooks/pithos-egress-cap.sh\nprintf '%s\\n' '{\n  \\\"version\\\": \\\"1.0.0\\\",\n  \\\"hook\\\": { \\\"path\\\": \\\"/usr/local/share/pithos/hooks/pithos-egress-cap.sh\\\", \\\"args\\\": [\\\"pithos-egress-cap.sh\\\"] },\n  \\\"when\\\": { \\\"annotations\\\": { \\\"pithos.networking\\\": \\\"1\\\" } },\n  \\\"stages\\\": [\\\"createRuntime\\\"]\n}' > /usr/share/containers/oci/hooks.d/pithos-egress-cap.json\nrm -f \"$HOME/.config/containers/oci/hooks.d/pithos-egress-cap.json\"\n"@,
{
    let script = shell_quote(hook_script);
    cat3(
        "set -eu\nmkdir -p /usr/local/share/pithos/hooks /usr/share/containers/oci/hooks.d \"$HOME/.config/containers/oci/hooks.d\"\nprintf '%s' ",
        script.as_str(),
        " > /usr/local/share/pithos/hooks/pithos-egress-cap.sh\nchmod 755 /usr/local/share/pithos/hooks/pithos-egress-cap.sh\nprintf '%s\\n' '{\n  \\\"version\\\": \\\"1.0.0\\\",\n  \\\"hook\\\": { \\\"path\\\": \\\"/usr/local/share/pithos/hooks/pithos-egress-cap.sh\\\", \\\"args\\\": [\\\"pithos-egress-cap.sh\\\"] },\n  \\\"when\\\": { \\\"annotations\\\": { \\\"pithos.networking\\\": \\\"1\\\" } },\n  \\\"stages\\\": [\\\"createRuntime\\\"]\n}' > /usr/share/containers/oci/hooks.d/pithos-egress-cap.json\nrm -f \"$HOME/.config/containers/oci/hooks.d/pithos-egress-cap.json\"\n",
    )
}

/// The member that a chain of names leads to.
pub open spec fn member_at(tree: JsonTree, first: Seq<char>, second: Seq<char>) -> Option<
    JsonTree,
> {
    match tree_member(tree, first) {
        Some(inner) => tree_member(inner, second),
        None => None,
    }
}

/// A registration runs for pithos sessions.
pub open spec fn runs_for_sessions(tree: JsonTree) -> bool {
    match member_at(tree, "when"@, "annotations"@) {
        Some(annotations) => tree_member(annotations, "pithos.networking"@) == Some(
            JsonTree::Text("1"@),
        ),
        None => false,
    }
}

/// The hook script of a registration, where it runs for pithos sessions.
pub open spec fn hook_in(tree: JsonTree) -> Option<Seq<char>> {
    if runs_for_sessions(tree) {
        match member_at(tree, "hook"@, "path"@) {
            Some(JsonTree::Text(path)) => Some(path),
            _ => None,
        }
    } else {
        None
    }
}

/// Finds the hook script in a registration.
pub fn hook_of(value: &Json) -> (r: Option<String>)
    ensures
        (match r {
            Some(path) => hook_in(value@) == Some(path@),
            None => hook_in(value@) is None,
        }),
{
    let annotations = match value.member("when") {
        Some(when) => when.member("annotations"),
        None => None,
    };
    let annotation = match annotations {
        Some(annotations) => annotations.member("pithos.networking"),
        None => None,
    };
    let wanted = match annotation {
        Some(Json::Text(text)) => same_text(text.as_str(), "1"),
        _ => false,
    };
    if !wanted {
        return None;
    }
    let path = match value.member("hook") {
        Some(hook) => hook.member("path"),
        None => None,
    };
    match path {
        Some(Json::Text(text)) => Some(text.clone()),
        _ => None,
    }
}

/// A file in a hook directory, with its contents where it could be read.
pub struct HookFile {
    pub path: String,
    pub contents: Option<String>,
}

/// The hook script that a file registers.
pub open spec fn registers(file: HookFile) -> Option<Seq<char>> {
    if has_extension(file.path@, "json"@) {
        match file.contents {
            Some(text) => match json_parsed(text@) {
                Ok(tree) => hook_in(tree),
                Err(_) => None,
            },
            None => None,
        }
    } else {
        None
    }
}

fn hook_registered_by(file: &HookFile) -> (r: Option<String>)
    ensures
        (match r {
            Some(path) => registers(*file) == Some(path@),
            None => registers(*file) is None,
        }),
{
    if !ends_in(file.path.as_str(), "json") {
        return None;
    }
    match &file.contents {
        Some(text) => match parse_json(text.as_str()) {
            Ok(value) => hook_of(&value),
            Err(_) => None,
        },
        None => None,
    }
}

/// The first file that registers a hook for pithos sessions, and the hook.
pub fn registered_hook(files: &Vec<HookFile>) -> (r: Option<(String, String)>)
    ensures
        (match r {
            Some(found) => exists|i: int|
                0 <= i < files@.len() && found.0@ == (#[trigger] files@[i]).path@ && registers(
                    files@[i],
                ) == Some(found.1@) && forall|j: int|
                    0 <= j < i ==> registers(#[trigger] files@[j]) is None,
            None => forall|i: int| 0 <= i < files@.len() ==> registers(#[trigger] files@[i]) is None,
        }),
{
    let mut i: usize = 0;
    while i < files.len()
        invariant
            i <= files@.len(),
            forall|j: int| 0 <= j < i ==> registers(#[trigger] files@[j]) is None,
        decreases files@.len() - i,
    {
        if let Some(hook) = hook_registered_by(&files[i]) {
            assert(registers(files@[i as int]) == Some(hook@));
            return Some((files[i].path.clone(), hook));
        }
        i += 1;
    }
    None
}

/// The places where nft may be: its usual one, and the directories of PATH.
pub fn nft_candidates(path_dirs: &[String]) -> (r: Vec<String>)
    ensures
        r@.len() == path_dirs@.len() + 1,
        r@[0]@ == "/usr/sbin/nft"@,
        forall|i: int|
            0 <= i < path_dirs@.len() ==> (#[trigger] r@[i + 1])@ == path_join(
                path_dirs@[i]@,
                "nft"@,
            ),
{
    let mut out = vec!["/usr/sbin/nft".to_owned()];
    let mut i: usize = 0;
    while i < path_dirs.len()
        invariant
            i <= path_dirs@.len(),
            out@.len() == i + 1,
            out@[0]@ == "/usr/sbin/nft"@,
            forall|j: int|
                0 <= j < i ==> (#[trigger] out@[j + 1])@ == path_join(path_dirs@[j]@, "nft"@),
        decreases path_dirs@.len() - i,
    {
        out.push(join_path(path_dirs[i].as_str(), "nft"));
        i += 1;
    }
    out
}

/// What is known of a registered hook.
pub struct HookState {
    /// The registration and the hook script.
    pub found: Option<(String, String)>,
    pub executable: bool,
    /// The script's text, or why it could not be read.
    pub script: Result<String, String>,
}

/// Why a hook cannot be relied on.
pub open spec fn hook_problem(
    hooks_dir: Seq<char>,
    state: HookState,
    nft_available: bool,
) -> Option<Seq<char>> {
    match state.found {
        None => Some(
            "no OCI hook registered for pithos networking after automatic installation; expected one in: "@
                + hooks_dir,
        ),
        Some(found) => if !state.executable {
            Some(
                "OCI hook script "@ + found.1@ + " (referenced by "@ + found.0@
                    + ") is missing or not executable; fix the path or chmod +x the script"@,
            )
        } else {
            match state.script {
                Err(error) => Some(
                    "cannot read OCI hook script "@ + found.1@ + ": "@ + error@,
                ),
                Ok(text) => if !contains_part(text@, "pithos.networking-rules"@) {
                    Some(
                        "installed OCI hook "@ + found.1@ + " (referenced by "@ + found.0@
                            + ") is outdated: it does not read the pithos.networking-rules annotation. Reinstall host/hooks/pithos-egress-cap.sh"@,
                    )
                } else if !nft_available {
                    Some(
                        "nftables not found (expected /usr/sbin/nft or nft on PATH); install with `sudo apt install nftables`"@,
                    )
                } else {
                    None
                },
            }
        },
    }
}

/// Accepts the hook, or says why it cannot be relied on.
pub fn verify_networking_support(hooks_dir: &str, state: &HookState, nft_available: bool) -> (r:
    Result<(), String>)
    ensures
        (match r {
            Ok(_) => hook_problem(hooks_dir@, *state, nft_available) is None,
            Err(message) => hook_problem(hooks_dir@, *state, nft_available) == Some(message@),
        }),
{
    let found = match &state.found {
        None => return Err(
            cat2(
                "no OCI hook registered for pithos networking after automatic installation; expected one in: ",
                hooks_dir,
            ),
        ),
        Some(found) => found,
    };
    if !state.executable {
        return Err(
            cat5(
                "OCI hook script ",
                found.1.as_str(),
                " (referenced by ",
                found.0.as_str(),
                ") is missing or not executable; fix the path or chmod +x the script",
            ),
        );
    }
    match &state.script {
        Err(error) => Err(
            cat4(
                "cannot read OCI hook script ",
                found.1.as_str(),
                ": ",
                error.as_str(),
            ),
        ),
        Ok(text) => if !contains(text.as_str(), "pithos.networking-rules") {
            Err(
                cat5(
                    "installed OCI hook ",
                    found.1.as_str(),
                    " (referenced by ",
                    found.0.as_str(),
                    ") is outdated: it does not read the pithos.networking-rules annotation. Reinstall host/hooks/pithos-egress-cap.sh",
                ),
            )
        } else if !nft_available {
            Err(
                "nftables not found (expected /usr/sbin/nft or nft on PATH); install with `sudo apt install nftables`".to_owned(),
            )
        } else {
            Ok(())
        },
    }
}

/// The line that names the hook of a podman machine, or why it has none.
pub fn verify_machine_support(success: bool, stdout: &[u8], stderr: &[u8]) -> (r: Result<
    String,
    String,
>)
    ensures
        (match r {
            Ok(line) => success && line@ == "pithos networking hook: "@ + trimmed(
                lossy_text(stdout@),
                CharSet::WhiteSpace,
            ),
            Err(message) => !success && message@
                == "pithos networking is not set up inside the podman machine: "@ + trimmed(
                lossy_text(stderr@),
                CharSet::WhiteSpace,
            ),
        }),
{
    if success {
        let text = decode_lossy(stdout);
        let path = trim(text.as_str());
        Ok(cat2("pithos networking hook: ", path.as_str()))
    } else {
        let text = decode_lossy(stderr);
        let reason = trim(text.as_str());
        Err(
            cat2(
                "pithos networking is not set up inside the podman machine: ",
                reason.as_str(),
            ),
        )
    }
}

} // verus!
