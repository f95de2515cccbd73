//! The credentials that a harness reads: from the keychain or from files, each
//! place in the container once.

use super::def::{CredentialDef, CredentialDefView};
use super::mount::{flat_name, sanitize_target, Site};
use super::selection::{json_error, json_fault};
use super::types::{rest_after, OnMissing, Platform};
use crate::paths::{join_path, path_join};
use crate::platform::{decode_lossy, lossy_text};
use crate::podman::{push_volume, volume_args};
use crate::text::{
    cat2, cat3, cat4, has_prefix, same_text, starts_with, strip_prefix, text_option, texts,
    trim, trimmed, CharSet,
};
use vstd::prelude::*;
use vstd::string::*;

verus! {

/// Whether a credential is looked for on a platform.
pub open spec fn applies_on(platforms: Option<Seq<Platform>>, platform: Platform) -> bool {
    match platforms {
        Some(list) => list.contains(platform),
        None => true,
    }
}

pub fn platform_matches(platforms: &Option<Vec<Platform>>, platform: Platform) -> (r: bool)
    ensures
        r == applies_on(
            (match *platforms {
                Some(list) => Some(list@),
                None => None,
            }),
            platform,
        ),
{
    match platforms {
        Some(list) => {
            let mut i: usize = 0;
            while i < list.len()
                invariant
                    i <= list@.len(),
                    *platforms == Some(*list),
                    forall|j: int| 0 <= j < i ==> list@[j] != platform,
                decreases list@.len() - i,
            {
                if list[i] == platform {
                    assert(list@.contains(list@[i as int]));
                    return true;
                }
                i += 1;
            }
            false
        },
        None => true,
    }
}

/// What a keychain printed, without the ends of lines at its end.
pub open spec fn without_line_ends(data: Seq<u8>) -> Seq<u8>
    decreases data.len(),
{
    if data.len() > 0 && (data.last() == 10 || data.last() == 13) {
        without_line_ends(data.drop_last())
    } else {
        data
    }
}

/// The secret of a service, from what the keychain answered.
pub fn keychain_data(service: &str, success: bool, stdout: Vec<u8>, stderr: &[u8]) -> (r: Result<
    Vec<u8>,
    String,
>)
    ensures
        (match r {
            Ok(data) => success && data@ == without_line_ends(stdout@) && data@.len() > 0,
            Err(message) => if success {
                without_line_ends(stdout@).len() == 0 && message@ == "keychain service \""@
                    + service@ + "\" returned empty data"@
            } else {
                message@ == "security find-generic-password failed: "@ + trimmed(
                    lossy_text(stderr@),
                    CharSet::WhiteSpace,
                )
            },
        }),
{
    if !success {
        let text = decode_lossy(stderr);
        let reason = trim(text.as_str());
        return Err(cat2("security find-generic-password failed: ", reason.as_str()));
    }
    let mut data = stdout;
    while data.len() > 0 && (data[data.len() - 1] == 10 || data[data.len() - 1] == 13)
        invariant
            without_line_ends(data@) == without_line_ends(stdout@),
        decreases data@.len(),
    {
        data.pop();
    }
    if data.len() == 0 {
        return Err(cat3("keychain service \"", service, "\" returned empty data"));
    }
    Ok(data)
}

/// What JSON has against a secret. One that is no JSON is exported all the
/// same.
pub fn keychain_complaint(data: &[u8]) -> (r: Option<String>)
    ensures
        text_option(r) == json_fault(data@),
{
    json_error(data)
}

/// A path without `./` before it, however often that stands there.
pub open spec fn without_dots(path: Seq<char>) -> Seq<char>
    decreases path.len(),
{
    if has_prefix(path, seq!['.', '/']) {
        without_dots(path.skip(2))
    } else {
        path
    }
}

fn strip_dots(path: &str) -> (r: String)
    ensures
        r@ == without_dots(path@),
{
    proof {
        reveal_strlit("./");
        assert("./"@ =~= seq!['.', '/']);
    }
    let mut rest = path.to_owned();
    loop
        invariant
            without_dots(rest@) == without_dots(path@),
            "./"@ == seq!['.', '/'],
        ensures
            rest@ == without_dots(path@),
        decreases rest@.len(),
    {
        match strip_prefix(rest.as_str(), "./") {
            Some(shorter) => {
                rest = shorter;
            },
            None => {
                break;
            },
        }
    }
    rest
}

/// What is done about a credential.
pub enum CredentialStep {
    /// Nothing: it is for other platforms, or its place is taken.
    Skip,
    /// The keychain is asked for a service, and the secret is put at `path`.
    Keychain { service: String, path: String },
    /// The first of these files that exists is mounted.
    File { candidates: Vec<String> },
}

pub enum CredentialStepView {
    Skip,
    Keychain { service: Seq<char>, path: Seq<char> },
    File { candidates: Seq<Seq<char>> },
}

impl View for CredentialStep {
    type V = CredentialStepView;

    open spec fn view(&self) -> CredentialStepView {
        match self {
            CredentialStep::Skip => CredentialStepView::Skip,
            CredentialStep::Keychain { service, path } => CredentialStepView::Keychain {
                service: service@,
                path: path@,
            },
            CredentialStep::File { candidates } => CredentialStepView::File {
                candidates: texts(candidates@),
            },
        }
    }
}

/// How a credential ended.
#[derive(Clone, Copy, PartialEq, Eq, Structural, Debug)]
pub enum Settled {
    Mounted,
    /// It is missing, which is passed over.
    Skipped,
    /// It is missing, which is warned about.
    Warned,
}

/// The credentials that a container gets: files of the host's and where they
/// are in the container.
pub struct Credentials {
    pub mounted: Vec<(String, String)>,
}

pub open spec fn has_target(mounted: Seq<(String, String)>, target: Seq<char>) -> bool {
    exists|i: int| 0 <= i < mounted.len() && (#[trigger] mounted[i]).1@ == target
}

pub open spec fn mounted_args(mounted: Seq<(String, String)>) -> Seq<Seq<char>>
    decreases mounted.len(),
{
    if mounted.len() == 0 {
        Seq::empty()
    } else {
        mounted_args(mounted.drop_last()) + volume_args(
            mounted.last().0@,
            mounted.last().1@,
            true,
        )
    }
}

impl Credentials {
    /// No place in the container is used twice.
    pub open spec fn wf(self) -> bool {
        forall|i: int, j: int|
            0 <= i < j < self.mounted@.len() ==> (#[trigger] self.mounted@[i]).1@ != (
            #[trigger] self.mounted@[j]).1@
    }

    pub fn new() -> (r: Credentials)
        ensures
            r.wf(),
            r.mounted@.len() == 0,
    {
        Credentials { mounted: Vec::new() }
    }

    /// What is done about a credential, given those that are mounted.
    pub open spec fn step_for(
        self,
        credential: CredentialDefView,
        platform: Platform,
        site: Site<'_>,
    ) -> Result<CredentialStepView, Seq<char>> {
        if !applies_on(credential.platforms, platform) {
            Ok(CredentialStepView::Skip)
        } else if !has_prefix(credential.target, "/"@) {
            Err("credential target must be absolute path, got \""@ + credential.target + "\""@)
        } else if has_target(self.mounted@, credential.target) {
            Ok(CredentialStepView::Skip)
        } else {
            match rest_after(credential.source, "keychain:"@) {
                Some(rest) => {
                    let service = trimmed(rest, CharSet::WhiteSpace);
                    if service.len() == 0 {
                        Err("keychain source requires service name"@)
                    } else {
                        let dir = path_join(
                            path_join(site.runtime_base@, site.session_id@),
                            "credentials"@,
                        );
                        Ok(
                            CredentialStepView::Keychain {
                                service,
                                path: path_join(dir, flat_name(credential.target)),
                            },
                        )
                    }
                },
                None => match rest_after(credential.source, "file:"@) {
                    Some(rest) => match site.candidates(credential.host_base, without_dots(rest)) {
                        Ok(candidates) => Ok(CredentialStepView::File { candidates }),
                        Err(message) => Err(message),
                    },
                    None => Err(
                        "credential source must start with \"keychain:\" or \"file:\", got \""@
                            + credential.source + "\""@,
                    ),
                },
            }
        }
    }

    fn taken(&self, target: &str) -> (r: bool)
        ensures
            r == has_target(self.mounted@, target@),
    {
        let mut i: usize = 0;
        while i < self.mounted.len()
            invariant
                i <= self.mounted@.len(),
                forall|j: int| 0 <= j < i ==> (#[trigger] self.mounted@[j]).1@ != target@,
            decreases self.mounted@.len() - i,
        {
            if same_text(self.mounted[i].1.as_str(), target) {
                return true;
            }
            i += 1;
        }
        false
    }

    /// Decides what is done about a credential.
    pub fn step(&self, credential: &CredentialDef, platform: Platform, site: &Site<'_>) -> (r:
        Result<CredentialStep, String>)
        ensures
            (match r {
                Ok(step) => self.step_for(credential@, platform, *site) == Ok::<
                    CredentialStepView,
                    Seq<char>,
                >(step@),
                Err(message) => self.step_for(credential@, platform, *site) == Err::<
                    CredentialStepView,
                    Seq<char>,
                >(message@),
            }),
    {
        if !platform_matches(&credential.platforms, platform) {
            return Ok(CredentialStep::Skip);
        }
        let target = credential.target.as_str();
        if !starts_with(target, "/") {
            return Err(cat3("credential target must be absolute path, got \"", target, "\""));
        }
        if self.taken(target) {
            return Ok(CredentialStep::Skip);
        }
        if let Some(rest) = strip_prefix(credential.source.as_str(), "keychain:") {
            let service = trim(rest.as_str());
            if service.as_str().is_empty() {
                return Err("keychain source requires service name".to_owned());
            }
            let own = join_path(site.runtime_base, site.session_id);
            let dir = join_path(own.as_str(), "credentials");
            let name = sanitize_target(target);
            let path = join_path(dir.as_str(), name.as_str());
            Ok(CredentialStep::Keychain { service, path })
        } else if let Some(rest) = strip_prefix(credential.source.as_str(), "file:") {
            let host = strip_dots(rest.as_str());
            match site.host_candidates(&credential.host_base, host.as_str()) {
                Ok(candidates) => Ok(CredentialStep::File { candidates }),
                Err(message) => Err(message),
            }
        } else {
            Err(
                cat3(
                    "credential source must start with \"keychain:\" or \"file:\", got \"",
                    credential.source.as_str(),
                    "\"",
                ),
            )
        }
    }

    fn mount(&mut self, path: &str, target: &str)
        requires
            old(self).wf(),
            !has_target(old(self).mounted@, target@),
        ensures
            final(self).wf(),
            mounted_args(final(self).mounted@) == mounted_args(old(self).mounted@) + volume_args(
                path@,
                target@,
                true,
            ),
            forall|other: Seq<char>|
                has_target(final(self).mounted@, other) <==> has_target(old(self).mounted@, other)
                    || other == target@,
    {
        let ghost before = self.mounted@;
        self.mounted.push((path.to_owned(), target.to_owned()));
        proof {
            let after = self.mounted@;
            assert(after.drop_last() =~= before);
            assert(after[before.len() as int].1@ == target@);
            assert forall|i: int, j: int| 0 <= i < j < after.len() implies (
            #[trigger] after[i]).1@ != (#[trigger] after[j]).1@ by {
                assert(after[i] == before[i]);
                if j < before.len() {
                    assert(after[j] == before[j]);
                }
            }
            assert forall|other: Seq<char>|
                has_target(after, other) <==> has_target(before, other) || other == target@ by {
                if has_target(before, other) {
                    let i = choose|i: int| 0 <= i < before.len() && before[i].1@ == other;
                    assert(after[i] == before[i]);
                }
                if has_target(after, other) && other != target@ {
                    let i = choose|i: int| 0 <= i < after.len() && after[i].1@ == other;
                    assert(after[i] == before[i]);
                }
            }
        }
    }

    /// Ends a credential from the keychain. `outcome` says why there is no
    /// secret at `path`, where there is none.
    pub fn settle_keychain(
        &mut self,
        credential: &CredentialDef,
        service: &str,
        path: &str,
        outcome: Result<(), String>,
    ) -> (r: Result<Settled, String>)
        requires
            old(self).wf(),
            !has_target(old(self).mounted@, credential.target@),
        ensures
            final(self).wf(),
            (match outcome {
                Ok(_) => r == Ok::<Settled, String>(Settled::Mounted) && mounted_args(
                    final(self).mounted@,
                ) == mounted_args(old(self).mounted@) + volume_args(
                    path@,
                    credential.target@,
                    true,
                ) && has_target(final(self).mounted@, credential.target@),
                Err(reason) => final(self).mounted@ == old(self).mounted@ && (
                match credential.on_missing {
                    OnMissing::Ignore => r == Ok::<Settled, String>(Settled::Skipped),
                    OnMissing::Warn => r == Ok::<Settled, String>(Settled::Warned),
                    OnMissing::Error => r is Err && r->Err_0@ == "keychain service \""@ + service@
                        + "\" failed: "@ + reason@,
                }),
            }),
            forall|other: Seq<char>|
                other != credential.target@ ==> has_target(final(self).mounted@, other)
                    == has_target(old(self).mounted@, other),
    {
        match outcome {
            Ok(_) => {
                self.mount(path, credential.target.as_str());
                Ok(Settled::Mounted)
            },
            Err(reason) => match credential.on_missing {
                OnMissing::Ignore => Ok(Settled::Skipped),
                OnMissing::Warn => Ok(Settled::Warned),
                OnMissing::Error => Err(
                    cat4("keychain service \"", service, "\" failed: ", reason.as_str()),
                ),
            },
        }
    }

    /// Ends a credential from a file.
    pub fn settle_file(&mut self, credential: &CredentialDef, host: &str, found: bool) -> (r:
        Result<Settled, String>)
        requires
            old(self).wf(),
            !has_target(old(self).mounted@, credential.target@),
        ensures
            final(self).wf(),
            if found {
                r == Ok::<Settled, String>(Settled::Mounted) && mounted_args(final(self).mounted@)
                    == mounted_args(old(self).mounted@) + volume_args(
                    host@,
                    credential.target@,
                    true,
                ) && has_target(final(self).mounted@, credential.target@)
            } else {
                final(self).mounted@ == old(self).mounted@ && (match credential.on_missing {
                    OnMissing::Ignore => r == Ok::<Settled, String>(Settled::Skipped),
                    OnMissing::Warn => r == Ok::<Settled, String>(Settled::Warned),
                    OnMissing::Error => r is Err && r->Err_0@ == "credential file "@ + host@
                        + " not found"@,
                })
            },
            forall|other: Seq<char>|
                other != credential.target@ ==> has_target(final(self).mounted@, other)
                    == has_target(old(self).mounted@, other),
    {
        if found {
            self.mount(host, credential.target.as_str());
            return Ok(Settled::Mounted);
        }
        match credential.on_missing {
            OnMissing::Ignore => Ok(Settled::Skipped),
            OnMissing::Warn => Ok(Settled::Warned),
            OnMissing::Error => Err(cat3("credential file ", host, " not found")),
        }
    }

    /// The podman arguments for the mounted credentials.
    pub fn args(&self) -> (r: Vec<String>)
        ensures
            texts(r@) == mounted_args(self.mounted@),
    {
        let ghost all = self.mounted@;
        let mut args: Vec<String> = Vec::new();
        let mut i: usize = 0;
        assert(all.take(0) =~= Seq::empty());
        assert(texts(args@) =~= Seq::empty());
        while i < self.mounted.len()
            invariant
                i <= self.mounted@.len(),
                all == self.mounted@,
                texts(args@) == mounted_args(all.take(i as int)),
            decreases self.mounted@.len() - i,
        {
            proof {
                assert(all.take(i + 1).drop_last() =~= all.take(i as int));
                assert(all.take(i + 1).last() == all[i as int]);
            }
            push_volume(
                &mut args,
                self.mounted[i].0.as_str(),
                self.mounted[i].1.as_str(),
                true,
            );
            i += 1;
        }
        assert(all.take(i as int) =~= all);
        args
    }
}

} // verus!
