//! The cache of resolved hosts: when an entry may be used, and when it is
//! time to renew it.

use crate::paths::{join_path, path_join};
use crate::text::{cat3, decimal, decimal_text, texts};
use vstd::prelude::*;

verus! {

/// How long an entry may be used, in seconds.
pub const TTL_SECONDS: u64 = 300;

/// How long before its end an entry is renewed, in seconds.
pub const REFRESH_WINDOW_SECONDS: u64 = 60;

/// The version of the cache file.
pub const VERSION: u32 = 1;

pub struct Entry {
    pub hosts: Vec<String>,
    /// The addresses of the hosts, in text form.
    pub addresses: Vec<String>,
    /// When they were looked up, in seconds since the epoch.
    pub resolved_at: u64,
}

/// The seconds since `then`; none have passed if it is still to come.
pub open spec fn age(then: u64, now: u64) -> int {
    if now > then {
        now - then
    } else {
        0
    }
}

fn age_of(then: u64, now: u64) -> (r: u64)
    ensures
        r == age(then, now),
{
    if now > then {
        now - then
    } else {
        0
    }
}

impl Entry {
    pub open spec fn fresh(&self, current_time: u64) -> bool {
        age(self.resolved_at, current_time) < TTL_SECONDS
    }

    pub open spec fn due(&self, current_time: u64) -> bool {
        age(self.resolved_at, current_time) >= TTL_SECONDS - REFRESH_WINDOW_SECONDS
    }

    pub fn is_fresh(&self, current_time: u64) -> (r: bool)
        ensures
            r == self.fresh(current_time),
    {
        age_of(self.resolved_at, current_time) < TTL_SECONDS
    }

    pub fn needs_refresh(&self, current_time: u64) -> (r: bool)
        ensures
            r == self.due(current_time),
    {
        age_of(self.resolved_at, current_time) >= TTL_SECONDS - REFRESH_WINDOW_SECONDS
    }
}

/// An entry is due for renewal before it ends, and stays due after.
pub proof fn lemma_due_before_stale(entry: &Entry, now: u64, later: u64)
    requires
        now <= later,
    ensures
        !entry.fresh(now) ==> entry.due(now),
        entry.due(now) ==> entry.due(later),
        entry.fresh(later) ==> entry.fresh(now),
        entry.resolved_at <= u64::MAX - TTL_SECONDS ==> {
            let shortly_before = (entry.resolved_at + TTL_SECONDS - 1) as u64;
            entry.fresh(shortly_before) && entry.due(shortly_before)
        },
{
}

/// Whether what the cache file holds answers for `hosts`.
pub fn answers_for(version: u32, entry: &Entry, hosts: &[String]) -> (r: bool)
    ensures
        r == (version == VERSION && texts(entry.hosts@) == texts(hosts@)),
{
    version == VERSION && crate::text::same_list(entry.hosts.as_slice(), hosts)
}

/// The path of the cache file, below the directory for local data.
pub fn cache_path(data_dir: Option<&String>) -> (r: Option<String>)
    ensures
        (match data_dir {
            Some(dir) => r is Some && r->Some_0@ == path_join(
                path_join(dir@, "pithos"@),
                "net_cache.json"@,
            ),
            None => r is None,
        }),
{
    match data_dir {
        Some(dir) => {
            let base = join_path(dir.as_str(), "pithos");
            Some(join_path(base.as_str(), "net_cache.json"))
        },
        None => None,
    }
}

/// The file that a process writes before it moves it into place.
pub fn temporary_name(process: u32) -> (r: String)
    ensures
        r@ == "net_cache.json."@ + decimal_text(process as nat) + ".tmp"@,
{
    let number = decimal(process as u64);
    cat3("net_cache.json.", number.as_str(), ".tmp")
}

} // verus!
