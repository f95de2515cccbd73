//! The harness that a configuration selects, and the override of its own
//! configuration that a user may give it.

use super::def::{HarnessDef, HarnessDefView};
use super::types::{rest_after, AllowlistFormat, HarnessDependency};
use crate::paths::{
    above, components_of, directories_above, is_absolute, join_path, path_is_absolute, path_join,
};
use crate::podman::push_all;
use crate::text::{
    cat2, cat3, cat4, cat7, debug_of, debug_text, has_prefix, join, joined, lists, same_text,
    starts_with, str_option, strip_prefix, text_option, texts,
};
use vstd::prelude::*;
use vstd::string::*;
use vstd::utf8::{decode_utf8, valid_utf8};

verus! {

/// A selected harness.
pub struct Harness {
    pub name: String,
    pub command: Vec<String>,
    pub sandbox_config: Option<String>,
    pub credentials: bool,
}

/// The complaint about a name that is not known.
pub open spec fn unknown_harness(name: Seq<char>, available: Seq<Seq<char>>) -> Seq<char> {
    "unknown harness \""@ + name + "\"; available: "@ + joined(available, ", "@)
}

pub(crate) fn unknown_message(name: &str, available: &[String]) -> (r: String)
    ensures
        r@ == unknown_harness(name@, texts(available@)),
{
    let list = join(available, ", ");
    cat4("unknown harness \"", name, "\"; available: ", list.as_str())
}

impl Harness {
    pub fn command(&self) -> (r: &Vec<String>)
        ensures
            *r == self.command,
    {
        &self.command
    }

    pub fn name(&self) -> (r: &str)
        ensures
            r@ == self.name@,
    {
        self.name.as_str()
    }

    pub fn credentials_enabled(&self) -> (r: bool)
        ensures
            r == self.credentials,
    {
        self.credentials
    }

    pub fn sandbox_config_raw(&self) -> (r: Option<&str>)
        ensures
            str_option(r) == text_option(self.sandbox_config),
    {
        match &self.sandbox_config {
            Some(raw) => Some(raw.as_str()),
            None => None,
        }
    }

    /// The command that installs the harness; none where it is not known.
    pub fn install(&self, definition: Option<&HarnessDef>) -> (r: String)
        ensures
            r@ == (match definition {
                Some(def) => def.install@,
                None => Seq::empty(),
            }),
    {
        match definition {
            Some(def) => def.install.clone(),
            None => {
                let none = String::new();
                assert(none@ =~= Seq::empty());
                none
            },
        }
    }

    /// What has to be installed before the harness.
    pub fn depends_on(&self, definition: Option<&HarnessDef>) -> (r: Vec<HarnessDependency>)
        ensures
            r@ == (match definition {
                Some(def) => def.depends_on@,
                None => Seq::empty(),
            }),
    {
        let mut out: Vec<HarnessDependency> = Vec::new();
        if let Some(def) = definition {
            let mut i: usize = 0;
            while i < def.depends_on.len()
                invariant
                    i <= def.depends_on@.len(),
                    out@ == def.depends_on@.take(i as int),
                decreases def.depends_on@.len() - i,
            {
                out.push(def.depends_on[i]);
                assert(out@ =~= def.depends_on@.take(i + 1));
                i += 1;
            }
            assert(out@ =~= def.depends_on@);
        }
        out
    }

    /// The definition that the harness is used by, or the complaint that its
    /// name is not known.
    pub fn require_definition(&self, found: Option<HarnessDef>, available: &[String]) -> (r: Result<
        HarnessDef,
        String,
    >)
        ensures
            (match r {
                Ok(def) => found == Some(def),
                Err(message) => found is None && message@ == unknown_harness(
                    self.name@,
                    texts(available@),
                ),
            }),
    {
        match found {
            Some(def) => Ok(def),
            None => Err(unknown_message(self.name.as_str(), available)),
        }
    }

    /// Selects another harness, with its own command and without what was set
    /// for the former one.
    pub fn apply_harness_override(
        &mut self,
        harness_name: String,
        found: Option<&HarnessDef>,
        available: &[String],
    ) -> (r: Result<(), String>)
        ensures
            (match r {
                Ok(_) => found is Some && found->Some_0.command@.len() > 0 && final(self).name@
                    == harness_name@ && texts(final(self).command@) == texts(
                    found->Some_0.command@,
                ) && !final(self).credentials && final(self).sandbox_config is None,
                Err(message) => *final(self) == *old(self) && (match found {
                    None => message@ == unknown_harness(harness_name@, texts(available@)),
                    Some(def) => def.command@.len() == 0 && message@ == "harness \""@
                        + harness_name@
                        + "\" has no default command; add `command` to its definition"@,
                }),
            }),
    {
        match found {
            None => Err(unknown_message(harness_name.as_str(), available)),
            Some(def) => {
                if def.command.len() == 0 {
                    return Err(
                        cat3(
                            "harness \"",
                            harness_name.as_str(),
                            "\" has no default command; add `command` to its definition",
                        ),
                    );
                }
                let mut command: Vec<String> = Vec::new();
                assert(texts(command@) =~= Seq::empty());
                push_all(&mut command, def.command.as_slice());
                assert(texts(command@) =~= texts(def.command@));
                self.name = harness_name;
                self.command = command;
                self.credentials = false;
                self.sandbox_config = None;
                Ok(())
            },
        }
    }
}

/// Where an override is, from the way it is written.
pub open spec fn override_path(
    raw: Seq<char>,
    config_dir: Seq<char>,
    home: Option<Seq<char>>,
) -> Result<Seq<char>, Seq<char>> {
    match rest_after(raw, "config:"@) {
        Some(rest) => if rest.len() == 0 {
            Err("harness.sandbox_config \"config:\" requires a path after the prefix"@)
        } else {
            Ok(path_join(config_dir, rest))
        },
        None => match rest_after(raw, "cwd:"@) {
            Some(rest) => if rest.len() == 0 {
                Err("harness.sandbox_config \"cwd:\" requires a path after the prefix"@)
            } else {
                Ok(rest)
            },
            None => match rest_after(raw, "~/"@) {
                Some(rest) => match home {
                    Some(dir) => Ok(path_join(dir, rest)),
                    None => Err("cannot determine home directory"@),
                },
                None => if raw == "~"@ {
                    match home {
                        Some(dir) => Ok(dir),
                        None => Err("cannot determine home directory"@),
                    }
                } else if path_is_absolute(raw) {
                    Ok(raw)
                } else {
                    Err(
                        "harness.sandbox_config "@ + debug_text(raw)
                            + " needs an explicit location; use \"config:<path>\" for a file next to pithos.toml, \"cwd:<path>\" for a path relative to the shell, \"~/...\" for home, or an absolute path"@,
                    )
                },
            },
        },
    }
}

/// Finds an override.
pub fn resolve_prefixed_path(raw: &str, config_dir: &str, home: Option<&str>) -> (r: Result<
    String,
    String,
>)
    ensures
        (match r {
            Ok(path) => override_path(raw@, config_dir@, str_option(home)) == Ok::<
                Seq<char>,
                Seq<char>,
            >(path@),
            Err(message) => override_path(raw@, config_dir@, str_option(home)) == Err::<
                Seq<char>,
                Seq<char>,
            >(message@),
        }),
{
    if let Some(rest) = strip_prefix(raw, "config:") {
        if rest.as_str().is_empty() {
            return Err(
                "harness.sandbox_config \"config:\" requires a path after the prefix".to_owned(),
            );
        }
        return Ok(join_path(config_dir, rest.as_str()));
    }
    if let Some(rest) = strip_prefix(raw, "cwd:") {
        if rest.as_str().is_empty() {
            return Err(
                "harness.sandbox_config \"cwd:\" requires a path after the prefix".to_owned(),
            );
        }
        return Ok(rest);
    }
    if let Some(rest) = strip_prefix(raw, "~/") {
        return match home {
            Some(dir) => Ok(join_path(dir, rest.as_str())),
            None => Err("cannot determine home directory".to_owned()),
        };
    }
    if same_text(raw, "~") {
        return match home {
            Some(dir) => Ok(dir.to_owned()),
            None => Err("cannot determine home directory".to_owned()),
        };
    }
    if is_absolute(raw) {
        return Ok(raw.to_owned());
    }
    let quoted = debug_of(raw);
    Err(
        cat3(
            "harness.sandbox_config ",
            quoted.as_str(),
            " needs an explicit location; use \"config:<path>\" for a file next to pithos.toml, \"cwd:<path>\" for a path relative to the shell, \"~/...\" for home, or an absolute path",
        ),
    )
}

/// Judges the place of an override: it is a file that exists.
pub fn check_override(
    raw: &str,
    path: &str,
    config_dir: &str,
    present: bool,
    is_directory: bool,
) -> (r: Result<(), String>)
    ensures
        r is Ok <==> present && !is_directory,
        r matches Err(message) ==> message@ == (if is_directory {
            "harness.sandbox_config must point to a file, got directory "@ + path@
        } else {
            "harness.sandbox_config not found: "@ + path@ + " (resolved from "@ + debug_text(raw@)
                + " against "@ + config_dir@ + ")"@
        }),
{
    if is_directory {
        return Err(cat2("harness.sandbox_config must point to a file, got directory ", path));
    }
    if !present {
        let quoted = debug_of(raw);
        return Err(
            cat7(
                "harness.sandbox_config not found: ",
                path,
                " (resolved from ",
                quoted.as_str(),
                " against ",
                config_dir,
                ")",
            ),
        );
    }
    Ok(())
}

/// The places that show a repository around a path: `.git` in each directory
/// above it.
pub open spec fn repository_marks(dirs: Seq<Seq<char>>) -> Seq<Seq<char>> {
    Seq::new(dirs.len(), |i: int| path_join(dirs[i], ".git"@))
}

pub fn git_marks(path: &str) -> (r: Vec<String>)
    ensures
        texts(r@) == repository_marks(above(components_of(path@))),
{
    let dirs = directories_above(path);
    let ghost all = repository_marks(above(components_of(path@)));
    let mut out: Vec<String> = Vec::new();
    let mut i: usize = 0;
    assert(texts(out@) =~= all.take(0));
    while i < dirs.len()
        invariant
            i <= dirs@.len(),
            texts(dirs@) == above(components_of(path@)),
            all == repository_marks(above(components_of(path@))),
            texts(out@) == all.take(i as int),
        decreases dirs@.len() - i,
    {
        let ghost before = out@;
        let mark = join_path(dirs[i].as_str(), ".git");
        assert(texts(dirs@)[i as int] == dirs@[i as int]@);
        out.push(mark);
        assert(texts(out@) =~= texts(before).push(mark@));
        assert(texts(out@) =~= all.take(i + 1));
        i += 1;
    }
    assert(all.take(i as int) =~= all);
    out
}

/// Whether a path lies in a repository, where the override could be committed
/// with its secrets.
pub fn is_inside_git_worktree(path: &str, present: &[String]) -> (r: bool)
    ensures
        r == exists|i: int|
            0 <= i < repository_marks(above(components_of(path@))).len() && texts(
                present@,
            ).contains(#[trigger] repository_marks(above(components_of(path@)))[i]),
{
    let marks = git_marks(path);
    let ghost all = repository_marks(above(components_of(path@)));
    let mut i: usize = 0;
    while i < marks.len()
        invariant
            i <= marks@.len(),
            texts(marks@) == all,
            all == repository_marks(above(components_of(path@))),
            forall|j: int| 0 <= j < i ==> !texts(present@).contains(#[trigger] all[j]),
        decreases marks@.len() - i,
    {
        assert(all[i as int] == marks@[i as int]@);
        if lists(present, marks[i].as_str()) {
            return true;
        }
        i += 1;
    }
    false
}

/// What `serde_json::from_slice` has against bytes that it does not read as a
/// value.
pub uninterp spec fn json_fault(bytes: Seq<u8>) -> Option<Seq<char>>;

/// Reads bytes with `serde_json::from_slice`. The result is nothing where
/// they are JSON, else the error in words; it depends on the bytes alone.
#[verifier::external_body]
pub(crate) fn json_error(bytes: &[u8]) -> (r: Option<String>)
    ensures
        text_option(r) == json_fault(bytes@),
{
    match serde_json::from_slice::<serde_json::Value>(bytes) {
        Ok(_) => None,
        Err(error) => Some(error.to_string()),
    }
}

/// What `toml::from_str` has against a text that it does not read as a value.
pub uninterp spec fn toml_fault(text: Seq<char>) -> Option<Seq<char>>;

/// Reads a text with `toml::from_str`. The result is nothing where it is
/// TOML, else the error in words; it depends on the text alone.
#[verifier::external_body]
fn toml_error(text: &str) -> (r: Option<String>)
    ensures
        text_option(r) == toml_fault(text@),
{
    match toml::from_str::<toml::Value>(text) {
        Ok(_) => None,
        Err(error) => Some(error.to_string()),
    }
}

/// Reads bytes as UTF-8 with `std::str::from_utf8`, which takes those bytes
/// that are valid UTF-8 and no others.
#[verifier::external_body]
fn utf8_text(bytes: &[u8]) -> (r: Option<String>)
    ensures
        (match r {
            Some(text) => valid_utf8(bytes@) && text@ == decode_utf8(bytes@),
            None => !valid_utf8(bytes@),
        }),
{
    match std::str::from_utf8(bytes) {
        Ok(text) => Some(text.to_owned()),
        Err(_) => None,
    }
}

/// Why a harness cannot take its override into the container.
pub open spec fn sink_problem(def: HarnessDefView) -> Option<Seq<char>> {
    if def.allowlist.takes_override() && !has_prefix(def.allowlist.target, "/"@) {
        Some(
            "harness \""@ + def.name + "\" allowlist target must be an absolute container path, got "@
                + debug_text(def.allowlist.target),
        )
    } else {
        None
    }
}

/// Judges where an override would go in the container.
pub fn validate_sink(def: &HarnessDef) -> (r: Result<(), String>)
    ensures
        (match r {
            Ok(_) => sink_problem(def@) is None,
            Err(message) => sink_problem(def@) == Some(message@),
        }),
{
    if def.allowlist.has_sink() && !starts_with(def.allowlist.target.as_str(), "/") {
        let quoted = debug_of(def.allowlist.target.as_str());
        return Err(
            cat4(
                "harness \"",
                def.name.as_str(),
                "\" allowlist target must be an absolute container path, got ",
                quoted.as_str(),
            ),
        );
    }
    Ok(())
}

/// Why the contents of an override are not taken; `json` and `toml` are what
/// the parsers say of them.
pub open spec fn contents_problem(
    path: Seq<char>,
    format: AllowlistFormat,
    bytes: Seq<u8>,
    json: Option<Seq<char>>,
    toml: Option<Seq<char>>,
) -> Option<Seq<char>> {
    match format {
        AllowlistFormat::Json => match json {
            Some(error) => Some(path + " is not valid JSON: "@ + error),
            None => None,
        },
        AllowlistFormat::Toml => if !valid_utf8(bytes) {
            Some(path + " is not valid UTF-8 TOML"@)
        } else {
            match toml {
                Some(error) => Some(path + " is not valid TOML: "@ + error),
                None => None,
            }
        },
        AllowlistFormat::Raw => None,
    }
}

/// Why an override is not taken.
pub open spec fn override_problem(
    def: HarnessDefView,
    path: Seq<char>,
    contents: Result<Seq<u8>, Seq<char>>,
) -> Option<Seq<char>> {
    if !def.allowlist.takes_override() {
        Some(
            "harness \""@ + def.name
                + "\" does not support harness.sandbox_config; remove the key"@,
        )
    } else {
        match contents {
            Err(error) => Some("cannot read "@ + path + ": "@ + error),
            Ok(bytes) => contents_problem(
                path,
                def.allowlist.format,
                bytes,
                json_fault(bytes),
                toml_fault(decode_utf8(bytes)),
            ),
        }
    }
}

/// Says what an override's contents are refused for, given what the parser
/// for its format has against them.
pub fn fault_message(path: &str, format: AllowlistFormat, fault: Option<String>) -> (r: Result<
    (),
    String,
>)
    requires
        format != AllowlistFormat::Raw,
    ensures
        r is Ok <==> fault is None,
        r matches Err(message) ==> message@ == path@ + (if format == AllowlistFormat::Json {
            " is not valid JSON: "@
        } else {
            " is not valid TOML: "@
        }) + fault->Some_0@,
{
    match fault {
        None => Ok(()),
        Some(error) => if format == AllowlistFormat::Json {
            Err(cat3(path, " is not valid JSON: ", error.as_str()))
        } else {
            Err(cat3(path, " is not valid TOML: ", error.as_str()))
        },
    }
}

/// Judges an override by what it holds; `contents` is what reading it gave.
pub fn validate_override_file(
    def: &HarnessDef,
    path: &str,
    contents: &Result<Vec<u8>, String>,
) -> (r: Result<(), String>)
    ensures
        ({
            let read = match *contents {
                Ok(bytes) => Ok::<Seq<u8>, Seq<char>>(bytes@),
                Err(error) => Err::<Seq<u8>, Seq<char>>(error@),
            };
            match r {
                Ok(_) => override_problem(def@, path@, read) is None,
                Err(message) => override_problem(def@, path@, read) == Some(message@),
            }
        }),
{
    if !def.allowlist.has_sink() {
        return Err(
            cat3(
                "harness \"",
                def.name.as_str(),
                "\" does not support harness.sandbox_config; remove the key",
            ),
        );
    }
    match contents {
        Err(error) => Err(cat4("cannot read ", path, ": ", error.as_str())),
        Ok(bytes) => match def.allowlist.format {
            AllowlistFormat::Json => {
                let fault = json_error(bytes.as_slice());
                fault_message(path, AllowlistFormat::Json, fault)
            },
            AllowlistFormat::Toml => match utf8_text(bytes.as_slice()) {
                None => Err(cat2(path, " is not valid UTF-8 TOML")),
                Some(text) => {
                    let fault = toml_error(text.as_str());
                    fault_message(path, AllowlistFormat::Toml, fault)
                },
            },
            AllowlistFormat::Raw => Ok(()),
        },
    }
}

/// What is found at the place of an override.
pub struct Look {
    pub present: bool,
    pub is_directory: bool,
    /// What reading it gave.
    pub contents: Result<Vec<u8>, String>,
}

impl Look {
    pub open spec fn read(self) -> Result<Seq<u8>, Seq<char>> {
        match self.contents {
            Ok(bytes) => Ok(bytes@),
            Err(error) => Err(error@),
        }
    }
}

impl Harness {
    /// The override of a harness, if it has one: where it is, or why it cannot
    /// be used.
    pub open spec fn chosen_override(
        self,
        config_dir: Seq<char>,
        home: Option<Seq<char>>,
        look: Look,
    ) -> Result<Option<Seq<char>>, Seq<char>> {
        match text_option(self.sandbox_config) {
            None => Ok(None),
            Some(raw) => match override_path(raw, config_dir, home) {
                Err(message) => Err(message),
                Ok(path) => if look.is_directory {
                    Err("harness.sandbox_config must point to a file, got directory "@ + path)
                } else if !look.present {
                    Err(
                        "harness.sandbox_config not found: "@ + path + " (resolved from "@
                            + debug_text(raw) + " against "@ + config_dir + ")"@,
                    )
                } else {
                    Ok(Some(path))
                },
            },
        }
    }

    /// Finds the override of a harness. `look` is what is at the place that
    /// `resolve_prefixed_path` gives.
    pub fn resolve_override(&self, config_dir: &str, home: Option<&str>, look: &Look) -> (r: Result<
        Option<String>,
        String,
    >)
        ensures
            (match r {
                Ok(path) => self.chosen_override(config_dir@, str_option(home), *look) == Ok::<
                    Option<Seq<char>>,
                    Seq<char>,
                >(text_option(path)),
                Err(message) => self.chosen_override(config_dir@, str_option(home), *look)
                    == Err::<Option<Seq<char>>, Seq<char>>(message@),
            }),
    {
        match &self.sandbox_config {
            None => Ok(None),
            Some(raw) => match resolve_prefixed_path(raw.as_str(), config_dir, home) {
                Err(message) => Err(message),
                Ok(path) => match check_override(
                    raw.as_str(),
                    path.as_str(),
                    config_dir,
                    look.present,
                    look.is_directory,
                ) {
                    Ok(_) => Ok(Some(path)),
                    Err(message) => Err(message),
                },
            },
        }
    }

    /// What is wrong with a selected harness.
    pub open spec fn problem(
        self,
        def: HarnessDefView,
        config_dir: Seq<char>,
        home: Option<Seq<char>>,
        look: Look,
    ) -> Option<Seq<char>> {
        match sink_problem(def) {
            Some(message) => Some(message),
            None => match self.chosen_override(config_dir, home, look) {
                Err(message) => Some(message),
                Ok(None) => None,
                Ok(Some(path)) => override_problem(def, path, look.read()),
            },
        }
    }

    /// Judges a selected harness.
    pub fn validate(
        &self,
        definition: &HarnessDef,
        config_dir: &str,
        home: Option<&str>,
        look: &Look,
    ) -> (r: Result<(), String>)
        ensures
            (match r {
                Ok(_) => self.problem(definition@, config_dir@, str_option(home), *look) is None,
                Err(message) => self.problem(definition@, config_dir@, str_option(home), *look)
                    == Some(message@),
            }),
    {
        match validate_sink(definition) {
            Ok(_) => {},
            Err(message) => {
                return Err(message);
            },
        }
        match self.resolve_override(config_dir, home, look) {
            Err(message) => Err(message),
            Ok(None) => Ok(()),
            Ok(Some(path)) => validate_override_file(definition, path.as_str(), &look.contents),
        }
    }
}

} // verus!
