//! How the container engine reads its arguments: which option has which value.

use crate::podman::{pair, tmpfs_args};
use vstd::prelude::*;
use vstd::string::*;

verus! {

/// The options of the engine whose value is the argument behind them.
pub open spec fn takes_value(option: Seq<char>) -> bool {
    ||| option == "--name"@
    ||| option == "--volume"@
    ||| option == "--workdir"@
    ||| option == "--tmpfs"@
    ||| option == "--env"@
    ||| option == "--env-merge"@
}

/// One option as the engine reads it, with its value where it takes one.
pub struct Read {
    pub name: Seq<char>,
    pub value: Option<Seq<char>>,
}

/// Reads arguments from the left, as far as each option has its value.
pub open spec fn read_options(args: Seq<Seq<char>>) -> Option<Seq<Read>>
    decreases args.len(),
{
    if args.len() == 0 {
        Some(Seq::empty())
    } else if takes_value(args[0]) {
        if args.len() < 2 {
            None
        } else {
            match read_options(args.skip(2)) {
                Some(rest) => Some(
                    seq![Read { name: args[0], value: Some(args[1]) }] + rest,
                ),
                None => None,
            }
        }
    } else {
        match read_options(args.skip(1)) {
            Some(rest) => Some(seq![Read { name: args[0], value: None }] + rest),
            None => None,
        }
    }
}

/// The values that an option is given, in order.
pub open spec fn values(list: Seq<Read>, name: Seq<char>) -> Seq<Seq<char>>
    decreases list.len(),
{
    if list.len() == 0 {
        Seq::empty()
    } else {
        let rest = values(list.skip(1), name);
        match list[0].value {
            Some(value) => if list[0].name == name {
                seq![value] + rest
            } else {
                rest
            },
            None => rest,
        }
    }
}

/// The arguments that stand for themselves, in order.
pub open spec fn flags(list: Seq<Read>) -> Seq<Seq<char>>
    decreases list.len(),
{
    if list.len() == 0 {
        Seq::empty()
    } else {
        let rest = flags(list.skip(1));
        match list[0].value {
            Some(_) => rest,
            None => seq![list[0].name] + rest,
        }
    }
}

proof fn lemma_read_add(first: Seq<Seq<char>>, second: Seq<Seq<char>>)
    requires
        read_options(first) is Some,
        read_options(second) is Some,
    ensures
        read_options(first + second) == Some(
            read_options(first)->Some_0 + read_options(second)->Some_0,
        ),
    decreases first.len(),
{
    let all = first + second;
    let tail = read_options(second)->Some_0;
    if first.len() == 0 {
        assert(all =~= second);
        assert(Seq::<Read>::empty() + tail =~= tail);
    } else if takes_value(first[0]) {
        lemma_read_add(first.skip(2), second);
        assert(all.skip(2) =~= first.skip(2) + second);
        assert(all[0] == first[0] && all[1] == first[1]);
        let one = seq![Read { name: first[0], value: Some(first[1]) }];
        let rest = read_options(first.skip(2))->Some_0;
        assert(one + (rest + tail) =~= (one + rest) + tail);
    } else {
        lemma_read_add(first.skip(1), second);
        assert(all.skip(1) =~= first.skip(1) + second);
        assert(all[0] == first[0]);
        let one = seq![Read { name: first[0], value: None }];
        let rest = read_options(first.skip(1))->Some_0;
        assert(one + (rest + tail) =~= (one + rest) + tail);
    }
}

proof fn lemma_values_add(first: Seq<Read>, second: Seq<Read>, name: Seq<char>)
    ensures
        values(first + second, name) == values(first, name) + values(second, name),
        flags(first + second) == flags(first) + flags(second),
    decreases first.len(),
{
    let all = first + second;
    if first.len() == 0 {
        assert(all =~= second);
        assert(values(first, name) + values(second, name) =~= values(second, name));
        assert(flags(first) + flags(second) =~= flags(second));
    } else {
        lemma_values_add(first.skip(1), second, name);
        assert(all.skip(1) =~= first.skip(1) + second);
        assert(all[0] == first[0]);
        assert(values(all, name) =~= values(first, name) + values(second, name));
        assert(flags(all) =~= flags(first) + flags(second));
    }
}

/// Arguments with what the engine reads in them: the variables, the volumes,
/// the memory file systems, and every other option.
pub struct Reading {
    pub variables: Seq<Seq<char>>,
    pub volumes: Seq<Seq<char>>,
    pub tmpfs: Seq<Seq<char>>,
    pub names: Seq<Seq<char>>,
    pub workdirs: Seq<Seq<char>>,
    pub merges: Seq<Seq<char>>,
    pub flags: Seq<Seq<char>>,
}

pub open spec fn reading_of(args: Seq<Seq<char>>) -> Option<Reading> {
    match read_options(args) {
        Some(list) => Some(
            Reading {
                variables: values(list, "--env"@),
                volumes: values(list, "--volume"@),
                tmpfs: values(list, "--tmpfs"@),
                names: values(list, "--name"@),
                workdirs: values(list, "--workdir"@),
                merges: values(list, "--env-merge"@),
                flags: flags(list),
            },
        ),
        None => None,
    }
}

pub open spec fn no_reading() -> Reading {
    Reading {
        variables: Seq::empty(),
        volumes: Seq::empty(),
        tmpfs: Seq::empty(),
        names: Seq::empty(),
        workdirs: Seq::empty(),
        merges: Seq::empty(),
        flags: Seq::empty(),
    }
}

pub open spec fn both(first: Reading, second: Reading) -> Reading {
    Reading {
        variables: first.variables + second.variables,
        volumes: first.volumes + second.volumes,
        tmpfs: first.tmpfs + second.tmpfs,
        names: first.names + second.names,
        workdirs: first.workdirs + second.workdirs,
        merges: first.merges + second.merges,
        flags: first.flags + second.flags,
    }
}

#[verifier::opaque]
pub open spec fn reads_as(args: Seq<Seq<char>>, reading: Reading) -> bool {
    reading_of(args) == Some(reading)
}

pub proof fn lemma_reads_add(
    first: Seq<Seq<char>>,
    one: Reading,
    second: Seq<Seq<char>>,
    two: Reading,
)
    requires
        reads_as(first, one),
        reads_as(second, two),
    ensures
        reads_as(first + second, both(one, two)),
{
    reveal(reads_as);
    lemma_read_add(first, second);
    let a = read_options(first)->Some_0;
    let b = read_options(second)->Some_0;
    lemma_values_add(a, b, "--env"@);
    lemma_values_add(a, b, "--volume"@);
    lemma_values_add(a, b, "--tmpfs"@);
    lemma_values_add(a, b, "--name"@);
    lemma_values_add(a, b, "--workdir"@);
    lemma_values_add(a, b, "--env-merge"@);
}

pub proof fn lemma_options_differ()
    ensures
        takes_value("--env"@),
        "--name"@ != "--volume"@,
        "--name"@ != "--workdir"@,
        "--name"@ != "--tmpfs"@,
        "--name"@ != "--env"@,
        "--name"@ != "--env-merge"@,
        "--volume"@ != "--workdir"@,
        "--volume"@ != "--tmpfs"@,
        "--volume"@ != "--env"@,
        "--volume"@ != "--env-merge"@,
        "--workdir"@ != "--tmpfs"@,
        "--workdir"@ != "--env"@,
        "--workdir"@ != "--env-merge"@,
        "--tmpfs"@ != "--env"@,
        "--tmpfs"@ != "--env-merge"@,
        "--env"@ != "--env-merge"@,
{
    reveal_strlit("--name");
    reveal_strlit("--volume");
    reveal_strlit("--workdir");
    reveal_strlit("--tmpfs");
    reveal_strlit("--env");
    reveal_strlit("--env-merge");
    assert("--name"@.len() == 6 && "--volume"@.len() == 8 && "--workdir"@.len() == 9);
    assert("--tmpfs"@.len() == 7 && "--env"@.len() == 5 && "--env-merge"@.len() == 11);
}

/// What one option with its value is read as.
pub open spec fn of_pair(option: Seq<char>, value: Seq<char>) -> Reading {
    let one = seq![value];
    let none = Seq::<Seq<char>>::empty();
    Reading {
        variables: if option == "--env"@ {
            one
        } else {
            none
        },
        volumes: if option == "--volume"@ {
            one
        } else {
            none
        },
        tmpfs: if option == "--tmpfs"@ {
            one
        } else {
            none
        },
        names: if option == "--name"@ {
            one
        } else {
            none
        },
        workdirs: if option == "--workdir"@ {
            one
        } else {
            none
        },
        merges: if option == "--env-merge"@ {
            one
        } else {
            none
        },
        flags: none,
    }
}

proof fn lemma_one_value(item: Read, name: Seq<char>)
    ensures
        values(seq![item], name) == (if item.name == name && item.value is Some {
            seq![item.value->Some_0]
        } else {
            Seq::empty()
        }),
        flags(seq![item]) == (if item.value is None {
            seq![item.name]
        } else {
            Seq::empty()
        }),
{
    let list = seq![item];
    assert(list.skip(1) =~= Seq::empty());
    assert(values(list.skip(1), name) =~= Seq::empty());
    assert(flags(list.skip(1)) =~= Seq::empty());
    if item.value is Some {
        assert(seq![item.value->Some_0] + Seq::<Seq<char>>::empty() =~= seq![item.value->Some_0]);
    } else {
        assert(seq![item.name] + Seq::<Seq<char>>::empty() =~= seq![item.name]);
    }
}

pub proof fn lemma_pair_reads(option: Seq<char>, value: Seq<char>)
    requires
        takes_value(option),
    ensures
        reads_as(pair(option, value), of_pair(option, value)),
{
    reveal(reads_as);
    let args = pair(option, value);
    assert(args.skip(2) =~= Seq::empty());
    assert(read_options(args.skip(2)) == Some(Seq::<Read>::empty()));
    let item = Read { name: option, value: Some(value) };
    assert(seq![item] + Seq::<Read>::empty() =~= seq![item]);
    assert(read_options(args) == Some(seq![item]));
    lemma_one_value(item, "--env"@);
    lemma_one_value(item, "--volume"@);
    lemma_one_value(item, "--tmpfs"@);
    lemma_one_value(item, "--name"@);
    lemma_one_value(item, "--workdir"@);
    lemma_one_value(item, "--env-merge"@);
    assert(reading_of(args) == Some(of_pair(option, value)));
}

pub proof fn lemma_flag_reads(flag: Seq<char>)
    requires
        !takes_value(flag),
    ensures
        reads_as(seq![flag], Reading { flags: seq![flag], ..no_reading() }),
{
    reveal(reads_as);
    let args = seq![flag];
    assert(args.skip(1) =~= Seq::empty());
    assert(read_options(args.skip(1)) == Some(Seq::<Read>::empty()));
    let item = Read { name: flag, value: None };
    assert(seq![item] + Seq::<Read>::empty() =~= seq![item]);
    assert(read_options(args) == Some(seq![item]));
    lemma_one_value(item, "--env"@);
    lemma_one_value(item, "--volume"@);
    lemma_one_value(item, "--tmpfs"@);
    lemma_one_value(item, "--name"@);
    lemma_one_value(item, "--workdir"@);
    lemma_one_value(item, "--env-merge"@);
}

pub proof fn lemma_nothing_reads()
    ensures
        reads_as(Seq::empty(), no_reading()),
{
    reveal(reads_as);
    assert(read_options(Seq::empty()) == Some(Seq::<Read>::empty()));
}

pub proof fn lemma_flags_read(list: Seq<Seq<char>>)
    requires
        forall|i: int| 0 <= i < list.len() ==> !takes_value(#[trigger] list[i]),
    ensures
        reads_as(list, Reading { flags: list, ..no_reading() }),
    decreases list.len(),
{
    if list.len() == 0 {
        lemma_nothing_reads();
        assert(list =~= Seq::empty());
    } else {
        let front = list.drop_last();
        assert forall|i: int| 0 <= i < front.len() implies !takes_value(#[trigger] front[i]) by {
            assert(front[i] == list[i]);
        }
        lemma_flags_read(front);
        assert(!takes_value(list[list.len() - 1]));
        lemma_flag_reads(list.last());
        let one = Reading { flags: front, ..no_reading() };
        let two = Reading { flags: seq![list.last()], ..no_reading() };
        lemma_reads_add(front, one, seq![list.last()], two);
        assert(front + seq![list.last()] =~= list);
        let whole = both(one, two);
        lemma_same(whole, Reading { flags: list, ..no_reading() });
    }
}

pub proof fn lemma_same(first: Reading, second: Reading)
    requires
        first.variables =~= second.variables,
        first.volumes =~= second.volumes,
        first.tmpfs =~= second.tmpfs,
        first.names =~= second.names,
        first.workdirs =~= second.workdirs,
        first.merges =~= second.merges,
        first.flags =~= second.flags,
    ensures
        first == second,
{
}

pub proof fn lemma_append(
    first: Seq<Seq<char>>,
    one: Reading,
    second: Seq<Seq<char>>,
    two: Reading,
    whole: Reading,
)
    requires
        reads_as(first, one),
        reads_as(second, two),
        whole.variables =~= one.variables + two.variables,
        whole.volumes =~= one.volumes + two.volumes,
        whole.tmpfs =~= one.tmpfs + two.tmpfs,
        whole.names =~= one.names + two.names,
        whole.workdirs =~= one.workdirs + two.workdirs,
        whole.merges =~= one.merges + two.merges,
        whole.flags =~= one.flags + two.flags,
    ensures
        reads_as(first + second, whole),
{
    lemma_reads_add(first, one, second, two);
    lemma_same(both(one, two), whole);
}

pub proof fn lemma_tmpfs_reads(target: Seq<char>)
    ensures
        reads_as(
            tmpfs_args(target),
            Reading { tmpfs: seq![target + ":rw,mode=1777"@], ..no_reading() },
        ),
{
    lemma_options_differ();
    let value = target + ":rw,mode=1777"@;
    lemma_pair_reads("--tmpfs"@, value);
    lemma_same(
        of_pair("--tmpfs"@, value),
        Reading { tmpfs: seq![value], ..no_reading() },
    );
}

/// A volume is written as its source, its target and the way it is mounted.
pub open spec fn volume(source: Seq<char>, target: Seq<char>, way: Seq<char>) -> Seq<char> {
    source + ":"@ + target + way
}

pub proof fn lemma_volume_reads(source: Seq<char>, target: Seq<char>, read_only: bool)
    ensures
        reads_as(
            crate::podman::volume_args(source, target, read_only),
            Reading {
                volumes: seq![
                    volume(
                        source,
                        target,
                        if read_only {
                            ":ro"@
                        } else {
                            ":rw"@
                        },
                    ),
                ],
                ..no_reading()
            },
        ),
{
    lemma_options_differ();
    reveal_strlit(":");
    reveal_strlit("ro");
    reveal_strlit("rw");
    reveal_strlit(":ro");
    reveal_strlit(":rw");
    let way = if read_only {
        ":ro"@
    } else {
        ":rw"@
    };
    let value = crate::platform::volume_text(source, target, read_only);
    assert(value =~= volume(source, target, way));
    lemma_pair_reads("--volume"@, value);
    lemma_same(
        of_pair("--volume"@, value),
        Reading { volumes: seq![volume(source, target, way)], ..no_reading() },
    );
}

} // verus!
