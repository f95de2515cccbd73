//! Harness definitions: as they are written, and as they are used.

use super::types::{
    Access, AllowlistFormat, HarnessDependency, HostBase, HostBaseView, MountType, OnMissing,
    Platform, Translation,
};
use crate::text::{
    cat2, cat3, chars_of, decimal, decimal_text, is_white_space, text_option, texts, CharSet,
};
use vstd::prelude::*;
use vstd::string::*;

verus! {

/// A definition as a file holds it.
pub struct HarnessToml {
    pub schema_version: u32,
    pub name: String,
    pub install: String,
    pub command: Vec<String>,
    pub depends_on: Vec<HarnessDependency>,
    pub mounts: Vec<MountToml>,
    pub allowlist: AllowlistToml,
    pub credentials: Vec<CredentialDef>,
}

pub struct MountToml {
    pub host: String,
    pub target: String,
    pub mount_type: MountType,
    pub access: Access,
    pub host_base: HostBase,
}

pub struct AllowlistToml {
    pub translation: Translation,
    pub env_var: Option<String>,
    pub target: String,
    pub format: AllowlistFormat,
}

/// A definition in use.
#[derive(Clone, Debug)]
pub struct HarnessDef {
    pub name: String,
    /// The shell command that installs the harness.
    pub install: String,
    pub command: Vec<String>,
    pub depends_on: Vec<HarnessDependency>,
    pub mounts: Vec<MountDef>,
    pub allowlist: AllowlistDef,
    pub credentials: Vec<CredentialDef>,
}

/// Something of the host's that the container sees.
#[derive(Clone, Debug)]
pub struct MountDef {
    pub host: String,
    pub target: String,
    pub mount_type: MountType,
    pub access: Access,
    pub host_base: HostBase,
}

/// Where an override of the harness's configuration goes in the container.
#[derive(Clone, Debug)]
pub struct AllowlistDef {
    pub translation: Translation,
    pub env_var: Option<String>,
    /// Empty where the harness takes no override.
    pub target: String,
    pub format: AllowlistFormat,
}

/// A credential that the container gets to read.
#[derive(Clone, Debug)]
pub struct CredentialDef {
    /// `keychain:` and a service, or `file:` and a path.
    pub source: String,
    pub target: String,
    /// Where it is looked for at all; everywhere if nothing is said.
    pub platforms: Option<Vec<Platform>>,
    pub host_base: HostBase,
    pub on_missing: OnMissing,
}

pub struct MountDefView {
    pub host: Seq<char>,
    pub target: Seq<char>,
    pub mount_type: MountType,
    pub access: Access,
    pub host_base: HostBaseView,
}

pub struct AllowlistDefView {
    pub translation: Translation,
    pub env_var: Option<Seq<char>>,
    pub target: Seq<char>,
    pub format: AllowlistFormat,
}

pub struct CredentialDefView {
    pub source: Seq<char>,
    pub target: Seq<char>,
    pub platforms: Option<Seq<Platform>>,
    pub host_base: HostBaseView,
    pub on_missing: OnMissing,
}

pub struct HarnessDefView {
    pub name: Seq<char>,
    pub install: Seq<char>,
    pub command: Seq<Seq<char>>,
    pub depends_on: Seq<HarnessDependency>,
    pub mounts: Seq<MountDefView>,
    pub allowlist: AllowlistDefView,
    pub credentials: Seq<CredentialDefView>,
}

impl View for MountToml {
    type V = MountDefView;

    open spec fn view(&self) -> MountDefView {
        MountDefView {
            host: self.host@,
            target: self.target@,
            mount_type: self.mount_type,
            access: self.access,
            host_base: self.host_base@,
        }
    }
}

impl View for MountDef {
    type V = MountDefView;

    open spec fn view(&self) -> MountDefView {
        MountDefView {
            host: self.host@,
            target: self.target@,
            mount_type: self.mount_type,
            access: self.access,
            host_base: self.host_base@,
        }
    }
}

impl View for AllowlistToml {
    type V = AllowlistDefView;

    open spec fn view(&self) -> AllowlistDefView {
        AllowlistDefView {
            translation: self.translation,
            env_var: text_option(self.env_var),
            target: self.target@,
            format: self.format,
        }
    }
}

impl View for AllowlistDef {
    type V = AllowlistDefView;

    open spec fn view(&self) -> AllowlistDefView {
        AllowlistDefView {
            translation: self.translation,
            env_var: text_option(self.env_var),
            target: self.target@,
            format: self.format,
        }
    }
}

impl View for CredentialDef {
    type V = CredentialDefView;

    open spec fn view(&self) -> CredentialDefView {
        CredentialDefView {
            source: self.source@,
            target: self.target@,
            platforms: (match self.platforms {
                Some(list) => Some(list@),
                None => None,
            }),
            host_base: self.host_base@,
            on_missing: self.on_missing,
        }
    }
}

pub open spec fn written_mounts(list: Seq<MountToml>) -> Seq<MountDefView> {
    Seq::new(list.len(), |i: int| list[i]@)
}

pub open spec fn mounts(list: Seq<MountDef>) -> Seq<MountDefView> {
    Seq::new(list.len(), |i: int| list[i]@)
}

pub open spec fn credentials(list: Seq<CredentialDef>) -> Seq<CredentialDefView> {
    Seq::new(list.len(), |i: int| list[i]@)
}

impl HarnessToml {
    /// What a written definition defines. The version of the format is no part
    /// of that.
    pub open spec fn defined(self) -> HarnessDefView {
        HarnessDefView {
            name: self.name@,
            install: self.install@,
            command: texts(self.command@),
            depends_on: self.depends_on@,
            mounts: written_mounts(self.mounts@),
            allowlist: self.allowlist@,
            credentials: credentials(self.credentials@),
        }
    }
}

impl View for HarnessDef {
    type V = HarnessDefView;

    open spec fn view(&self) -> HarnessDefView {
        HarnessDefView {
            name: self.name@,
            install: self.install@,
            command: texts(self.command@),
            depends_on: self.depends_on@,
            mounts: mounts(self.mounts@),
            allowlist: self.allowlist@,
            credentials: credentials(self.credentials@),
        }
    }
}

impl From<MountToml> for MountDef {
    fn from(value: MountToml) -> (r: Self) {
        MountDef {
            host: value.host,
            target: value.target,
            mount_type: value.mount_type,
            access: value.access,
            host_base: value.host_base,
        }
    }
}

impl vstd::std_specs::convert::FromSpecImpl<MountToml> for MountDef {
    open spec fn obeys_from_spec() -> bool {
        true
    }

    open spec fn from_spec(value: MountToml) -> Self {
        MountDef {
            host: value.host,
            target: value.target,
            mount_type: value.mount_type,
            access: value.access,
            host_base: value.host_base,
        }
    }
}

impl From<AllowlistToml> for AllowlistDef {
    fn from(value: AllowlistToml) -> (r: Self) {
        AllowlistDef {
            translation: value.translation,
            env_var: value.env_var,
            target: value.target,
            format: value.format,
        }
    }
}

impl vstd::std_specs::convert::FromSpecImpl<AllowlistToml> for AllowlistDef {
    open spec fn obeys_from_spec() -> bool {
        true
    }

    open spec fn from_spec(value: AllowlistToml) -> Self {
        AllowlistDef {
            translation: value.translation,
            env_var: value.env_var,
            target: value.target,
            format: value.format,
        }
    }
}

impl AllowlistDefView {
    pub open spec fn takes_override(self) -> bool {
        self.target.len() > 0
    }
}

impl AllowlistDef {
    /// Whether the harness takes an override of its configuration.
    pub fn has_sink(&self) -> (r: bool)
        ensures
            r == self@.takes_override(),
    {
        !self.target.as_str().is_empty()
    }
}

/// The characters up to the first white space.
pub open spec fn leading_word(text: Seq<char>) -> Seq<char>
    decreases text.len(),
{
    if text.len() == 0 || is_white_space(text[0]) {
        Seq::empty()
    } else {
        seq![text[0]] + leading_word(text.skip(1))
    }
}

/// Whether a command begins with the word `RUN`, whatever its case.
pub open spec fn bakes_run(install: Seq<char>) -> bool {
    let word = leading_word(crate::text::drop_leading(install, CharSet::WhiteSpace));
    &&& word.len() == 3
    &&& word[0] == 'R' || word[0] == 'r'
    &&& word[1] == 'U' || word[1] == 'u'
    &&& word[2] == 'N' || word[2] == 'n'
}

fn first_word(text: &str) -> (r: Vec<char>)
    ensures
        r@ == leading_word(crate::text::drop_leading(text@, CharSet::WhiteSpace)),
{
    let rest = crate::text::trim_start(text, CharSet::WhiteSpace);
    let chars = chars_of(rest.as_str());
    let ghost all = chars@;
    let mut word: Vec<char> = Vec::new();
    let mut i: usize = 0;
    assert(all.skip(0) =~= all);
    assert(word@ + leading_word(all) =~= leading_word(all));
    while i < chars.len() && !CharSet::WhiteSpace.has(chars[i])
        invariant
            i <= chars@.len(),
            all == chars@,
            word@ + leading_word(all.skip(i as int)) == leading_word(all),
        decreases chars@.len() - i,
    {
        let c = chars[i];
        let ghost before = word@;
        word.push(c);
        proof {
            let rest = all.skip(i as int);
            assert(rest.skip(1) =~= all.skip(i + 1));
            assert(rest[0] == c);
            assert(word@ + leading_word(all.skip(i + 1)) =~= before + (seq![c] + leading_word(
                all.skip(i + 1),
            )));
        }
        i += 1;
    }
    proof {
        assert(leading_word(all.skip(i as int)) =~= Seq::empty());
        assert(word@ + Seq::<char>::empty() =~= word@);
    }
    word
}

/// Why a written definition is not used.
pub open spec fn toml_problem(toml: HarnessToml) -> Option<Seq<char>> {
    if toml.schema_version != 1 {
        Some("unsupported schema_version "@ + decimal_text(toml.schema_version as nat))
    } else if toml.name@.len() == 0 {
        Some("harness name cannot be empty"@)
    } else if bakes_run(toml.install@) {
        Some(
            "harness \""@ + toml.name@
                + "\" install must be a plain shell command without a RUN prefix"@,
        )
    } else {
        None
    }
}

impl HarnessDef {
    /// Takes over a written definition, or says what is wrong with it.
    pub fn from_toml(toml: HarnessToml) -> (r: Result<HarnessDef, String>)
        ensures
            (match r {
                Ok(def) => toml_problem(toml) is None && def@ == toml.defined(),
                Err(message) => toml_problem(toml) == Some(message@),
            }),
    {
        if toml.schema_version != 1 {
            let version = decimal(toml.schema_version as u64);
            return Err(cat2("unsupported schema_version ", version.as_str()));
        }
        if toml.name.as_str().is_empty() {
            return Err("harness name cannot be empty".to_owned());
        }
        let word = first_word(toml.install.as_str());
        if word.len() == 3 && (word[0] == 'R' || word[0] == 'r') && (word[1] == 'U' || word[1]
            == 'u') && (word[2] == 'N' || word[2] == 'n') {
            return Err(
                cat3(
                    "harness \"",
                    toml.name.as_str(),
                    "\" install must be a plain shell command without a RUN prefix",
                ),
            );
        }
        let ghost wanted = toml.defined();
        let ghost all = toml.mounts@;
        let mut rest = toml.mounts;
        let mut list: Vec<MountDef> = Vec::new();
        assert(all.skip(0) =~= all);
        while rest.len() > 0
            invariant
                list@.len() <= all.len(),
                rest@ == all.skip(list@.len() as int),
                mounts(list@) == written_mounts(all).take(list@.len() as int),
            decreases rest@.len(),
        {
            let ghost n = list@.len() as int;
            let item = rest.remove(0);
            assert(item == all[n]);
            assert(rest@ =~= all.skip(n + 1));
            let ghost before = list@;
            let mount = MountDef::from(item);
            list.push(mount);
            assert(mounts(list@) =~= mounts(before).push(mount@));
            assert(mounts(list@) =~= written_mounts(all).take(n + 1));
        }
        assert(written_mounts(all).take(all.len() as int) =~= written_mounts(all));
        let def = HarnessDef {
            name: toml.name,
            install: toml.install,
            command: toml.command,
            depends_on: toml.depends_on,
            mounts: list,
            allowlist: AllowlistDef::from(toml.allowlist),
            credentials: toml.credentials,
        };
        assert(def@.mounts =~= wanted.mounts);
        Ok(def)
    }
}

pub open spec fn definitions(list: Seq<HarnessDef>) -> Seq<HarnessDefView> {
    Seq::new(list.len(), |i: int| list[i]@)
}

} // verus!
