//! Where the user's harness definitions are, and which of them count.

use super::def::{definitions, HarnessDef, HarnessDefView};
use super::registry::{catalogue, is_catalogue};
use crate::order::{is_stable_sort, stable_sort};
use crate::paths::{components, components_of, ends_in, has_extension, join_path, path_join};
use crate::text::{lists, same_list, str_option, texts};
use vstd::prelude::*;
use vstd::string::*;

verus! {

/// Two paths with the same components are the same place.
pub open spec fn same_place(left: Seq<char>, right: Seq<char>) -> bool {
    components_of(left) == components_of(right)
}

pub fn is_same_place(left: &str, right: &str) -> (r: bool)
    ensures
        r == same_place(left@, right@),
{
    let first = components(left);
    let second = components(right);
    same_list(first.as_slice(), second.as_slice())
}

pub open spec fn fallback_dir(home: Seq<char>) -> Seq<char> {
    path_join(home, ".config"@)
}

/// The directories that may hold configuration: the platform's own, and the
/// one in the home directory.
pub open spec fn config_dirs(config: Option<Seq<char>>, home: Option<Seq<char>>) -> Seq<
    Seq<char>,
> {
    match (config, home) {
        (Some(dir), Some(home)) => if same_place(dir, fallback_dir(home)) {
            seq![dir]
        } else {
            seq![dir, fallback_dir(home)]
        },
        (Some(dir), None) => seq![dir],
        (None, Some(home)) => seq![fallback_dir(home)],
        (None, None) => Seq::empty(),
    }
}

pub fn config_dir_candidates(config: Option<&str>, home: Option<&str>) -> (r: Vec<String>)
    ensures
        texts(r@) == config_dirs(str_option(config), str_option(home)),
{
    let mut list: Vec<String> = Vec::new();
    if let Some(dir) = config {
        list.push(dir.to_owned());
    }
    if let Some(home) = home {
        let fallback = join_path(home, ".config");
        if list.len() == 0 || !is_same_place(list[0].as_str(), fallback.as_str()) {
            list.push(fallback);
        }
    }
    assert(texts(list@) =~= config_dirs(str_option(config), str_option(home)));
    list
}

/// The directory for definitions below a configuration directory.
pub open spec fn harnesses_in(dir: Seq<char>) -> Seq<char> {
    path_join(path_join(dir, "pithos"@), "harnesses"@)
}

pub fn harness_dir(dir: &str) -> (r: String)
    ensures
        r@ == harnesses_in(dir@),
{
    let own = join_path(dir, "pithos");
    join_path(own.as_str(), "harnesses")
}

/// The first of `dirs` that has definitions.
pub open spec fn first_with_harnesses(dirs: Seq<Seq<char>>, present: Seq<Seq<char>>) -> Option<
    Seq<char>,
>
    decreases dirs.len(),
{
    if dirs.len() == 0 {
        None
    } else if present.contains(harnesses_in(dirs[0])) {
        Some(dirs[0])
    } else {
        first_with_harnesses(dirs.skip(1), present)
    }
}

/// The configuration directory with definitions, as far as one of them has
/// any; else where definitions would be. `present` are the paths that exist.
pub fn user_harness_dir(config: Option<&str>, home: Option<&str>, present: &[String]) -> (r: Option<
    String,
>)
    ensures
        crate::text::text_option(r) == (match first_with_harnesses(
            config_dirs(str_option(config), str_option(home)),
            texts(present@),
        ) {
            Some(dir) => Some(dir),
            None => match (str_option(config), str_option(home)) {
                (Some(dir), _) => Some(harnesses_in(dir)),
                (None, Some(home)) => Some(fallback_dir(home)),
                (None, None) => None,
            },
        }),
{
    let dirs = config_dir_candidates(config, home);
    let ghost all = texts(dirs@);
    let mut i: usize = 0;
    assert(all.skip(0) =~= all);
    while i < dirs.len()
        invariant
            i <= dirs@.len(),
            all == texts(dirs@),
            all == config_dirs(str_option(config), str_option(home)),
            first_with_harnesses(all, texts(present@)) == first_with_harnesses(
                all.skip(i as int),
                texts(present@),
            ),
        decreases dirs@.len() - i,
    {
        assert(all.skip(i as int).skip(1) =~= all.skip(i + 1));
        let place = harness_dir(dirs[i].as_str());
        if lists(present, place.as_str()) {
            return Some(dirs[i].clone());
        }
        i += 1;
    }
    match config {
        Some(dir) => Some(harness_dir(dir)),
        None => match home {
            Some(home) => Some(join_path(home, ".config")),
            None => None,
        },
    }
}

/// Whether a file holds a definition, by its name.
pub fn is_harness_file(path: &str) -> (r: bool)
    ensures
        r == has_extension(path@, "toml"@),
{
    ends_in(path, "toml")
}

/// The definitions that could be read.
pub open spec fn readable(list: Seq<Result<HarnessDef, String>>) -> Seq<HarnessDef>
    decreases list.len(),
{
    if list.len() == 0 {
        Seq::empty()
    } else {
        match list.last() {
            Ok(def) => readable(list.drop_last()).push(def),
            Err(_) => readable(list.drop_last()),
        }
    }
}

/// The definitions of one directory, in the order of their names. A file that
/// holds none is passed over.
pub fn load_from_dir(files: Vec<Result<HarnessDef, String>>) -> (r: Vec<HarnessDef>)
    ensures
        is_stable_sort(readable(files@), r@),
{
    let ghost all = files@;
    let mut rest = files;
    let mut kept: Vec<HarnessDef> = Vec::new();
    let ghost mut taken: int = 0;
    assert(all.take(0) =~= Seq::empty());
    assert(all.skip(0) =~= all);
    while rest.len() > 0
        invariant
            0 <= taken <= all.len(),
            rest@ == all.skip(taken),
            kept@ == readable(all.take(taken)),
        decreases rest@.len(),
    {
        let item = rest.remove(0);
        proof {
            assert(item == all[taken]);
            assert(rest@ =~= all.skip(taken + 1));
            assert(all.take(taken + 1).drop_last() =~= all.take(taken));
            assert(all.take(taken + 1).last() == item);
        }
        if let Ok(def) = item {
            kept.push(def);
        }
        proof {
            taken = taken + 1;
        }
    }
    assert(all.take(taken) =~= all);
    stable_sort(kept)
}

/// The definitions of all directories, one after another.
pub open spec fn joined_definitions(list: Seq<Vec<HarnessDef>>) -> Seq<HarnessDefView>
    decreases list.len(),
{
    if list.len() == 0 {
        Seq::empty()
    } else {
        joined_definitions(list.drop_last()) + definitions(list.last()@)
    }
}

/// The user's definitions, from what each directory gave. A later directory
/// goes before an earlier one.
pub fn load_user_harnesses(directories: Vec<Vec<HarnessDef>>) -> (r: Vec<HarnessDef>)
    ensures
        is_catalogue(joined_definitions(directories@), definitions(r@)),
{
    let ghost all = directories@;
    let mut rest = directories;
    let mut list: Vec<HarnessDef> = Vec::new();
    let ghost mut taken: int = 0;
    assert(all.take(0) =~= Seq::empty());
    assert(all.skip(0) =~= all);
    assert(definitions(list@) =~= Seq::empty());
    while rest.len() > 0
        invariant
            0 <= taken <= all.len(),
            rest@ == all.skip(taken),
            definitions(list@) == joined_definitions(all.take(taken)),
        decreases rest@.len(),
    {
        let mut more = rest.remove(0);
        let ghost before = list@;
        let ghost added = more@;
        proof {
            assert(more == all[taken]);
            assert(rest@ =~= all.skip(taken + 1));
            assert(all.take(taken + 1).drop_last() =~= all.take(taken));
            assert(all.take(taken + 1).last() == all[taken]);
        }
        list.append(&mut more);
        proof {
            assert(definitions(list@) =~= definitions(before) + definitions(added));
            taken = taken + 1;
        }
    }
    assert(all.take(taken) =~= all);
    catalogue(list)
}

} // verus!
