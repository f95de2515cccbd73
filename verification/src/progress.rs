//! What the user is told while a session is prepared.

use crate::text::{cat2, cat3, cat5, cat6, cat7, decimal, decimal_text, same_text, str_option};
use vstd::prelude::*;
use vstd::string::*;

verus! {

/// Whether progress is shown: as the setting says, else where there is a
/// terminal.
pub fn progress_enabled(setting: Option<&str>, terminal: bool) -> (r: bool)
    ensures
        r == (match str_option(setting) {
            Some(value) => value == "always"@ || (value != "never"@ && terminal),
            None => terminal,
        }),
{
    match setting {
        Some(value) => if same_text(value, "always") {
            true
        } else if same_text(value, "never") {
            false
        } else {
            terminal
        },
        None => terminal,
    }
}

/// The log filter for a number of `-v` flags. Without a flag the environment
/// decides.
pub fn verbose_filter(verbose: u8, name: &str) -> (r: Option<String>)
    ensures
        (match r {
            None => verbose == 0,
            Some(filter) => verbose > 0 && filter@ == (if verbose == 1 {
                name@ + "=debug"@
            } else if verbose == 2 {
                name@ + "=trace"@
            } else {
                "trace"@
            }),
        }),
{
    if verbose == 0 {
        None
    } else if verbose == 1 {
        Some(cat2(name, "=debug"))
    } else if verbose == 2 {
        Some(cat2(name, "=trace"))
    } else {
        Some("trace".to_owned())
    }
}

/// The log filter where neither flags nor the environment set one.
pub fn default_filter(name: &str) -> (r: String)
    ensures
        r@ == "warn,"@ + name@ + "=info"@,
{
    cat3("warn,", name, "=info")
}

/// How much a copy has got done. `size` is the number of bytes in words.
pub struct Amount<'a> {
    pub files: u64,
    pub cloned: u64,
    pub symlinks: u64,
    pub size: &'a str,
}

impl<'a> Amount<'a> {
    pub open spec fn files_text(self) -> Seq<char> {
        decimal_text(self.files as nat) + " files • "@ + self.size@
    }

    pub open spec fn links_text(self) -> Seq<char> {
        " • "@ + decimal_text(self.symlinks as nat) + " symlinks"@
    }

    pub open spec fn clones_text(self) -> Seq<char> {
        " • "@ + decimal_text(self.cloned as nat) + " cloned"@
    }

    fn files_words(&self) -> (r: String)
        ensures
            r@ == self.files_text(),
    {
        let files = decimal(self.files);
        cat3(files.as_str(), " files • ", self.size)
    }

    fn links_words(&self) -> (r: String)
        ensures
            r@ == self.links_text(),
    {
        let symlinks = decimal(self.symlinks);
        cat3(" • ", symlinks.as_str(), " symlinks")
    }

    fn clones_words(&self) -> (r: String)
        ensures
            r@ == self.clones_text(),
    {
        let cloned = decimal(self.cloned);
        cat3(" • ", cloned.as_str(), " cloned")
    }

    /// What is said while files are copied; nothing before the first one.
    pub fn so_far(&self) -> (r: Option<String>)
        ensures
            (match r {
                None => self.files == 0 && self.symlinks == 0,
                Some(text) => (self.files > 0 || self.symlinks > 0) && text@ == (if self.cloned
                    > 0 {
                    self.files_text() + self.clones_text() + self.links_text()
                } else if self.symlinks > 0 {
                    self.files_text() + self.links_text()
                } else {
                    self.files_text()
                }),
            }),
    {
        if self.files == 0 && self.symlinks == 0 {
            return None;
        }
        let files = self.files_words();
        let clones = self.clones_words();
        let links = self.links_words();
        if self.cloned > 0 {
            Some(cat3(files.as_str(), clones.as_str(), links.as_str()))
        } else if self.symlinks > 0 {
            Some(cat2(files.as_str(), links.as_str()))
        } else {
            Some(files)
        }
    }

    /// What is said when a copy is done.
    pub fn copied(&self, elapsed_ms: u64) -> (r: String)
        ensures
            r@ == "copied "@ + self.files_text() + (if self.cloned > 0 {
                self.clones_text()
            } else {
                Seq::empty()
            }) + self.links_text() + " in "@ + decimal_text(elapsed_ms as nat) + "ms"@,
    {
        let files = self.files_words();
        let clones = if self.cloned > 0 {
            self.clones_words()
        } else {
            String::new()
        };
        let links = self.links_words();
        let elapsed = decimal(elapsed_ms);
        let r = cat7(
            "copied ",
            files.as_str(),
            clones.as_str(),
            links.as_str(),
            " in ",
            elapsed.as_str(),
            "ms",
        );
        assert(self.cloned == 0 ==> clones@ =~= Seq::empty());
        r
    }

    /// What is said when changes are applied.
    pub fn applied(&self, elapsed_ms: u64) -> (r: String)
        ensures
            r@ == "applied "@ + self.files_text() + self.links_text() + " in "@ + decimal_text(
                elapsed_ms as nat,
            ) + "ms"@,
    {
        let files = self.files_words();
        let links = self.links_words();
        let elapsed = decimal(elapsed_ms);
        cat6("applied ", files.as_str(), links.as_str(), " in ", elapsed.as_str(), "ms")
    }
}

/// What is said before names are looked up.
pub fn resolving(total: usize) -> (r: String)
    ensures
        r@ == "resolving "@ + decimal_text(total as nat) + " hosts (3s timeout)..."@,
{
    let number = decimal(total as u64);
    cat3("resolving ", number.as_str(), " hosts (3s timeout)...")
}

/// What is said while names are looked up.
pub fn resolving_so_far(done: usize, total: usize) -> (r: String)
    ensures
        r@ == "resolving "@ + decimal_text(done as nat) + "/"@ + decimal_text(total as nat)
            + " hosts..."@,
{
    let part = decimal(done as u64);
    let whole = decimal(total as u64);
    cat5("resolving ", part.as_str(), "/", whole.as_str(), " hosts...")
}

/// What is said when names have been looked up.
pub fn resolved(total: usize, addresses: usize, elapsed_ms: u64) -> (r: String)
    ensures
        r@ == "resolved "@ + decimal_text(total as nat) + " hosts → "@ + decimal_text(
            addresses as nat,
        ) + " addresses in "@ + decimal_text(elapsed_ms as nat) + "ms"@,
{
    let hosts = decimal(total as u64);
    let found = decimal(addresses as u64);
    let elapsed = decimal(elapsed_ms);
    cat7(
        "resolved ",
        hosts.as_str(),
        " hosts → ",
        found.as_str(),
        " addresses in ",
        elapsed.as_str(),
        "ms",
    )
}

} // verus!
