//! Building podman command lines: options in pairs, and what has to exist on
//! the host before podman may bind it.

use crate::platform::{volume_spec, volume_text};
use crate::text::{cat2, lemma_texts_push, texts};
use vstd::prelude::*;
use vstd::string::*;

verus! {

/// How a tmpfs mount is written for podman: writable by everyone, with the
/// sticky bit.
pub open spec fn tmpfs_text(target: Seq<char>) -> Seq<char> {
    target + ":rw,mode=1777"@
}

pub fn tmpfs_spec(target: &str) -> (r: String)
    ensures
        r@ == tmpfs_text(target@),
{
    cat2(target, ":rw,mode=1777")
}

/// An option and its value, as two arguments.
pub open spec fn pair(option: Seq<char>, value: Seq<char>) -> Seq<Seq<char>> {
    seq![option, value]
}

pub fn push_text(args: &mut Vec<String>, text: &str)
    ensures
        texts(final(args)@) == texts(old(args)@).push(text@),
{
    broadcast use lemma_texts_push;

    args.push(text.to_owned());
}

pub fn push_pair(args: &mut Vec<String>, option: &str, value: &str)
    ensures
        texts(final(args)@) == texts(old(args)@) + pair(option@, value@),
{
    push_text(args, option);
    push_text(args, value);
    assert(texts(old(args)@).push(option@).push(value@) =~= texts(old(args)@) + pair(
        option@,
        value@,
    ));
}

pub fn push_all(args: &mut Vec<String>, more: &[String])
    ensures
        texts(final(args)@) == texts(old(args)@) + texts(more@),
{
    let ghost start = texts(args@);
    let ghost all = texts(more@);
    let mut i: usize = 0;
    assert(start + all.take(0) =~= start);
    while i < more.len()
        invariant
            i <= more@.len(),
            all == texts(more@),
            texts(args@) == start + all.take(i as int),
        decreases more@.len() - i,
    {
        push_text(args, more[i].as_str());
        assert((start + all.take(i as int)).push(all[i as int]) =~= start + all.take(i + 1));
        i += 1;
    }
    assert(all.take(i as int) =~= all);
}

pub open spec fn tmpfs_args(target: Seq<char>) -> Seq<Seq<char>> {
    pair("--tmpfs"@, tmpfs_text(target))
}

pub fn push_tmpfs(args: &mut Vec<String>, target: &str)
    ensures
        texts(final(args)@) == texts(old(args)@) + tmpfs_args(target@),
{
    let value = tmpfs_spec(target);
    push_pair(args, "--tmpfs", value.as_str());
}

pub open spec fn volume_args(source: Seq<char>, target: Seq<char>, read_only: bool) -> Seq<
    Seq<char>,
> {
    pair("--volume"@, volume_text(source, target, read_only))
}

pub fn push_volume(args: &mut Vec<String>, source: &str, target: &str, read_only: bool)
    ensures
        texts(final(args)@) == texts(old(args)@) + volume_args(source@, target@, read_only),
{
    let value = volume_spec(source, target, read_only);
    push_pair(args, "--volume", value.as_str());
}

/// Something that has to be on the host before podman starts: an existing
/// file or directory is left alone.
pub enum Prepare {
    File(String),
    Directory(String),
}

pub enum Prepared {
    File(Seq<char>),
    Directory(Seq<char>),
}

impl View for Prepare {
    type V = Prepared;

    open spec fn view(&self) -> Prepared {
        match self {
            Prepare::File(path) => Prepared::File(path@),
            Prepare::Directory(path) => Prepared::Directory(path@),
        }
    }
}

pub open spec fn prepared(list: Seq<Prepare>) -> Seq<Prepared> {
    Seq::new(list.len(), |i: int| list[i]@)
}

pub fn push_prepare(list: &mut Vec<Prepare>, item: Prepare)
    ensures
        prepared(final(list)@) == prepared(old(list)@).push(item@),
{
    let ghost before = list@;
    list.push(item);
    assert(prepared(list@) =~= prepared(before).push(item@));
}

/// What a harness asks of podman: things to prepare, and arguments.
pub struct MountPlan {
    pub prepare: Vec<Prepare>,
    pub args: Vec<String>,
}

pub struct MountPlanView {
    pub prepare: Seq<Prepared>,
    pub args: Seq<Seq<char>>,
}

impl View for MountPlan {
    type V = MountPlanView;

    open spec fn view(&self) -> MountPlanView {
        MountPlanView { prepare: prepared(self.prepare@), args: texts(self.args@) }
    }
}

/// The directories that the host keeps for its user, as far as it has them.
pub struct HostDirs {
    pub home: Option<String>,
    pub data: Option<String>,
    pub state: Option<String>,
    pub config: Option<String>,
    pub cache: Option<String>,
}

} // verus!
