//! Toolchain definitions, and the expansion of a selection through their
//! includes.

use crate::order::{
    is_sorted_unique, lemma_first_with_rank, lemma_lex_asymmetric, lemma_text_rank_injective,
    lex_less, sorted_unique, strictly_ordered, text_before, text_rank, with_rank, Ranked,
};
use crate::text::{
    cat2, cat3, cat6, join, joined, lemma_texts_push, lists, position_of, same_text, texts,
};
use vstd::prelude::*;
use vstd::string::*;

verus! {

/// A tool that uv installs.
pub struct UvTool {
    pub name: String,
    pub python: Option<String>,
    pub run: Option<String>,
}

/// An installer script, with the variables that it runs under.
pub struct Download {
    pub url: String,
    pub env: Vec<(String, String)>,
}

pub struct ToolchainDef {
    pub includes: Vec<String>,
    pub install: Vec<String>,
    pub env: Vec<(String, String)>,
    pub run: Vec<String>,
    pub mise: Vec<String>,
    pub extra: Vec<String>,
    pub cargo: Vec<String>,
    pub npm: Vec<String>,
    pub bun: Vec<String>,
    pub uv: Vec<UvTool>,
    pub downloads: Vec<Download>,
}

impl Default for ToolchainDef {
    fn default() -> (r: Self)
        ensures
            r.includes@.len() == 0,
            r.install@.len() == 0,
            r.env@.len() == 0,
            r.run@.len() == 0,
            r.mise@.len() == 0,
            r.extra@.len() == 0,
            r.cargo@.len() == 0,
            r.npm@.len() == 0,
            r.bun@.len() == 0,
            r.uv@.len() == 0,
            r.downloads@.len() == 0,
    {
        ToolchainDef {
            includes: Vec::new(),
            install: Vec::new(),
            env: Vec::new(),
            run: Vec::new(),
            mise: Vec::new(),
            extra: Vec::new(),
            cargo: Vec::new(),
            npm: Vec::new(),
            bun: Vec::new(),
            uv: Vec::new(),
            downloads: Vec::new(),
        }
    }
}

/// A definition under its name.
pub struct Named<'a> {
    pub name: &'a String,
    pub def: &'a ToolchainDef,
}

impl<'a> Ranked for Named<'a> {
    open spec fn rank(&self) -> Seq<int> {
        text_rank(self.name@)
    }

    fn precedes(&self, other: &Self) -> (r: bool) {
        text_before(self.name.as_str(), other.name.as_str())
    }
}

/// The definition of `name` in a table: the first entry of that name.
pub open spec fn entry_named(table: Seq<(String, ToolchainDef)>, name: Seq<char>) -> Option<
    ToolchainDef,
>
    decreases table.len(),
{
    if table.len() == 0 {
        None
    } else if table[0].0@ == name {
        Some(table[0].1)
    } else {
        entry_named(table.skip(1), name)
    }
}

/// The definition of `name` among `defs`.
pub open spec fn def_named(defs: Seq<Named<'_>>, name: Seq<char>) -> Option<ToolchainDef>
    decreases defs.len(),
{
    if defs.len() == 0 {
        None
    } else if defs[0].name@ == name {
        Some(*defs[0].def)
    } else {
        def_named(defs.skip(1), name)
    }
}

/// Finds the definition of `name`.
pub fn find_def<'a>(defs: &[Named<'a>], name: &str) -> (r: Option<&'a ToolchainDef>)
    ensures
        (match r {
            Some(def) => def_named(defs@, name@) == Some(*def),
            None => def_named(defs@, name@) is None,
        }),
{
    let mut i: usize = 0;
    assert(defs@.skip(0) =~= defs@);
    while i < defs.len()
        invariant
            i <= defs@.len(),
            def_named(defs@, name@) == def_named(defs@.skip(i as int), name@),
        decreases defs@.len() - i,
    {
        assert(defs@.skip(i as int).skip(1) =~= defs@.skip(i + 1));
        if same_text(defs[i].name.as_str(), name) {
            return Some(defs[i].def);
        }
        i += 1;
    }
    None
}

pub open spec fn names_of(defs: Seq<Named<'_>>) -> Seq<Seq<char>> {
    Seq::new(defs.len(), |i: int| defs[i].name@)
}

/// The definitions that a configuration sees: those of the project, and
/// those of the global library that the project does not replace.
pub open spec fn is_merge(
    merged: Seq<Named<'_>>,
    project: Seq<(String, ToolchainDef)>,
    library: Seq<(String, ToolchainDef)>,
) -> bool {
    &&& strictly_ordered(merged)
    &&& forall|name: Seq<char>| #[trigger]
        def_named(merged, name) == (match entry_named(project, name) {
            Some(def) => Some(def),
            None => entry_named(library, name),
        })
}

/// Merges the two tables, in the order of the names.
pub fn merge_defs<'a>(
    project: &'a Vec<(String, ToolchainDef)>,
    library: &'a Vec<(String, ToolchainDef)>,
) -> (r: Vec<Named<'a>>)
    ensures
        is_merge(r@, project@, library@),
{
    let mut list: Vec<Named<'a>> = Vec::new();
    let mut i: usize = 0;
    while i < project.len()
        invariant
            i <= project@.len(),
            list@ == named(project@.take(i as int)),
        decreases project@.len() - i,
    {
        list.push(Named { name: &project[i].0, def: &project[i].1 });
        i += 1;
        assert(list@ =~= named(project@.take(i as int)));
    }
    assert(project@.take(i as int) =~= project@);
    let mut i: usize = 0;
    assert(list@ =~= named(project@) + named(library@.take(0)));
    while i < library.len()
        invariant
            i <= library@.len(),
            list@ == named(project@) + named(library@.take(i as int)),
        decreases library@.len() - i,
    {
        list.push(Named { name: &library[i].0, def: &library[i].1 });
        i += 1;
        assert(list@ =~= named(project@) + named(library@.take(i as int)));
    }
    assert(library@.take(i as int) =~= library@);
    let ghost all = list@;
    let merged = sorted_unique(list);
    proof {
        assert forall|name: Seq<char>| #[trigger] def_named(merged@, name) == (match entry_named(
            project@,
            name,
        ) {
            Some(def) => Some(def),
            None => entry_named(library@, name),
        }) by {
            lemma_unique_same_def(all, merged@, name);
            lemma_def_of_both(project@, library@, name);
        }
    }
    merged
}

spec fn named<'a>(table: Seq<(String, ToolchainDef)>) -> Seq<Named<'a>> {
    Seq::new(table.len(), |i: int| Named { name: &table[i].0, def: &table[i].1 })
}

proof fn lemma_def_of_both(
    project: Seq<(String, ToolchainDef)>,
    library: Seq<(String, ToolchainDef)>,
    name: Seq<char>,
)
    ensures
        def_named(named(project) + named(library), name) == (match entry_named(project, name) {
            Some(def) => Some(def),
            None => entry_named(library, name),
        }),
    decreases project.len(), library.len(),
{
    let both = named(project) + named(library);
    if project.len() > 0 {
        assert(both.skip(1) =~= named(project.skip(1)) + named(library));
        lemma_def_of_both(project.skip(1), library, name);
    } else if library.len() > 0 {
        assert(both.skip(1) =~= named(project) + named(library.skip(1)));
        lemma_def_of_both(project, library.skip(1), name);
    }
}

proof fn lemma_def_at(defs: Seq<Named<'_>>, name: Seq<char>, at: int)
    requires
        0 <= at < defs.len(),
        defs[at].name@ == name,
        forall|j: int| 0 <= j < at ==> (#[trigger] defs[j]).name@ != name,
    ensures
        def_named(defs, name) == Some(*defs[at].def),
    decreases at,
{
    if at > 0 {
        assert(defs[0].name@ != name);
        assert forall|j: int| 0 <= j < at - 1 implies (#[trigger] defs.skip(1)[j]).name@ != name by {
            assert(defs[j + 1].name@ != name);
        }
        lemma_def_at(defs.skip(1), name, at - 1);
    }
}

proof fn lemma_unique_same_def(all: Seq<Named<'_>>, unique: Seq<Named<'_>>, name: Seq<char>)
    requires
        is_sorted_unique(all, unique),
    ensures
        def_named(unique, name) == def_named(all, name),
{
    lemma_named_iff_listed(unique, name);
    lemma_named_iff_listed(all, name);
    if names_of(unique).contains(name) {
        let i = choose|i: int| 0 <= i < names_of(unique).len() && names_of(unique)[i] == name;
        let rank = unique[i].rank();
        lemma_first_with_rank(all, rank);
        let j = choose|j: int|
            0 <= j < all.len() && #[trigger] all[j] == with_rank(all, rank)[0] && all[j].rank()
                == rank && forall|k: int| 0 <= k < j ==> (#[trigger] all[k]).rank() != rank;
        assert forall|k: int| 0 <= k < j implies (#[trigger] all[k]).name@ != name by {
            assert(all[k].rank() != rank);
        }
        lemma_def_at(all, name, j);
        assert forall|k: int| 0 <= k < i implies (#[trigger] unique[k]).name@ != name by {
            assert(lex_less(unique[k].rank(), unique[i].rank()));
            lemma_lex_asymmetric(unique[k].rank(), unique[i].rank());
        }
        lemma_def_at(unique, name, i);
    } else if names_of(all).contains(name) {
        let j = choose|j: int| 0 <= j < names_of(all).len() && names_of(all)[j] == name;
        assert(all[j].name@ == name);
        let i = choose|i: int|
            0 <= i < unique.len() && (#[trigger] unique[i]).rank() == all[j].rank();
        lemma_text_rank_injective(unique[i].name@, name);
        assert(names_of(unique)[i] == name);
    }
}

/// Which toolchains each toolchain includes.
pub type IncludeGraph = Map<Seq<char>, Seq<Seq<char>>>;

pub open spec fn include_graph(defs: Seq<Named<'_>>) -> IncludeGraph {
    Map::new(
        |name: Seq<char>| names_of(defs).contains(name),
        |name: Seq<char>| texts(def_named(defs, name)->Some_0.includes@),
    )
}

/// A name has a definition exactly where it is among the names.
pub proof fn lemma_named_iff_listed(defs: Seq<Named<'_>>, name: Seq<char>)
    ensures
        def_named(defs, name) is Some <==> names_of(defs).contains(name),
    decreases defs.len(),
{
    let names = names_of(defs);
    if defs.len() > 0 {
        assert(names[0] == defs[0].name@);
        lemma_named_iff_listed(defs.skip(1), name);
        assert(names_of(defs.skip(1)) =~= names.skip(1));
        if names.contains(name) && defs[0].name@ != name {
            let i = choose|i: int| 0 <= i < names.len() && names[i] == name;
            assert(names.skip(1)[i - 1] == name);
        }
        if names.skip(1).contains(name) {
            let i = choose|i: int| 0 <= i < names.skip(1).len() && names.skip(1)[i] == name;
            assert(names[i + 1] == name);
        }
    }
}

/// There are as many definitions as names: finitely many.
pub proof fn lemma_graph_finite(defs: Seq<Named<'_>>)
    ensures
        include_graph(defs).dom().finite(),
{
    broadcast use vstd::seq_lib::seq_to_set_is_finite;

    assert(include_graph(defs).dom() =~= names_of(defs).to_set());
}

/// Why a selection cannot be expanded.
pub enum SelectionProblem {
    /// The includes lead round: each name includes the next, and the last is
    /// the first again.
    Cyclic(Seq<Seq<char>>),
    /// A name without a definition, and the toolchain that includes it.
    Unknown(Seq<char>, Option<Seq<char>>),
}

/// The part of `path` that starts at `name`.
pub open spec fn path_from(path: Seq<Seq<char>>, name: Seq<char>) -> Seq<Seq<char>>
    decreases path.len(),
{
    if path.len() == 0 || path[0] == name {
        path
    } else {
        path_from(path.skip(1), name)
    }
}

/// The names not on the path that can still be entered.
pub open spec fn unvisited(graph: IncludeGraph, path: Seq<Seq<char>>) -> Set<Seq<char>> {
    graph.dom().difference(path.to_set())
}

/// Entering a name leaves fewer to enter.
pub proof fn lemma_entering_shrinks(graph: IncludeGraph, path: Seq<Seq<char>>, name: Seq<char>)
    requires
        graph.dom().finite(),
        graph.dom().contains(name),
        !path.contains(name),
    ensures
        unvisited(graph, path.push(name)).len() < unvisited(graph, path).len(),
{
    let before = unvisited(graph, path);
    assert forall|other: Seq<char>| path.push(name).contains(other) <==> path.contains(other)
        || other == name by {
        if path.contains(other) {
            let i = choose|i: int| 0 <= i < path.len() && path[i] == other;
            assert(path.push(name)[i] == other);
        }
        if other == name {
            assert(path.push(name)[path.len() as int] == name);
        }
        if path.push(name).contains(other) && other != name {
            let i = choose|i: int| 0 <= i < path.push(name).len() && path.push(name)[i] == other;
            assert(path[i] == other);
        }
    }
    assert(unvisited(graph, path.push(name)) =~= before.remove(name));
    assert(before.contains(name));
}

/// Lists `name` and all that it includes, each before what it includes and
/// each once. `out` is what is listed already, and `path` leads to `name`.
pub open spec fn expand_one(
    graph: IncludeGraph,
    name: Seq<char>,
    out: Seq<Seq<char>>,
    path: Seq<Seq<char>>,
) -> Result<Seq<Seq<char>>, SelectionProblem>
    decreases unvisited(graph, path).len(), 0int,
    when graph.dom().finite()
{
    if path.contains(name) {
        Err(SelectionProblem::Cyclic(path_from(path, name).push(name)))
    } else if !graph.dom().contains(name) {
        Err(
            SelectionProblem::Unknown(
                name,
                if path.len() > 0 {
                    Some(path.last())
                } else {
                    None
                },
            ),
        )
    } else if out.contains(name) {
        Ok(out)
    } else {
        proof {
            lemma_entering_shrinks(graph, path, name);
        }
        expand_all(graph, graph[name], out.push(name), path.push(name))
    }
}

/// Lists each of `names` in turn.
pub open spec fn expand_all(
    graph: IncludeGraph,
    names: Seq<Seq<char>>,
    out: Seq<Seq<char>>,
    path: Seq<Seq<char>>,
) -> Result<Seq<Seq<char>>, SelectionProblem>
    decreases unvisited(graph, path).len(), names.len() + 1,
    when graph.dom().finite()
{
    if names.len() == 0 {
        Ok(out)
    } else {
        match expand_all(graph, names.drop_last(), out, path) {
            Err(problem) => Err(problem),
            Ok(listed) => expand_one(graph, names.last(), listed, path),
        }
    }
}

/// A selection, expanded through its includes.
pub open spec fn expansion(graph: IncludeGraph, selection: Seq<Seq<char>>) -> Result<
    Seq<Seq<char>>,
    SelectionProblem,
> {
    expand_all(graph, selection, Seq::empty(), Seq::empty())
}

/// Why a selection cannot be expanded.
pub enum SelectionError {
    Cyclic(Vec<String>),
    Unknown { name: String, included_by: Option<String> },
}

impl View for SelectionError {
    type V = SelectionProblem;

    open spec fn view(&self) -> SelectionProblem {
        match self {
            SelectionError::Cyclic(chain) => SelectionProblem::Cyclic(texts(chain@)),
            SelectionError::Unknown { name, included_by } => SelectionProblem::Unknown(
                name@,
                match included_by {
                    Some(parent) => Some(parent@),
                    None => None,
                },
            ),
        }
    }
}

/// The problem in words; `available` are the names that have a definition.
pub open spec fn problem_text(problem: SelectionProblem, available: Seq<Seq<char>>) -> Seq<char> {
    match problem {
        SelectionProblem::Cyclic(chain) => "cyclic toolchain includes: "@ + joined(chain, " -> "@),
        SelectionProblem::Unknown(name, None) => "unknown toolchain \""@ + name + "\""@ + ""@
            + "; available: "@ + joined(available, ", "@),
        SelectionProblem::Unknown(name, Some(parent)) => "unknown toolchain \""@ + name + "\""@ + (
        " (included by \""@ + parent + "\")"@) + "; available: "@ + joined(available, ", "@),
    }
}

fn owned_names(defs: &[Named<'_>]) -> (r: Vec<String>)
    ensures
        texts(r@) == names_of(defs@),
{
    broadcast use lemma_texts_push;

    let mut out: Vec<String> = Vec::new();
    let mut i: usize = 0;
    assert(texts(out@) =~= names_of(defs@).take(0));
    while i < defs.len()
        invariant
            i <= defs@.len(),
            texts(out@) == names_of(defs@).take(i as int),
        decreases defs@.len() - i,
    {
        broadcast use lemma_texts_push;

        out.push(defs[i].name.clone());
        i += 1;
        assert(texts(out@) =~= names_of(defs@).take(i as int));
    }
    assert(names_of(defs@).take(i as int) =~= names_of(defs@));
    out
}

impl SelectionError {
    /// The error in words.
    pub fn message(&self, defs: &[Named<'_>]) -> (r: String)
        ensures
            r@ == problem_text(self@, names_of(defs@)),
    {
        match self {
            SelectionError::Cyclic(chain) => {
                let list = join(chain.as_slice(), " -> ");
                cat2("cyclic toolchain includes: ", list.as_str())
            },
            SelectionError::Unknown { name, included_by } => {
                let context = match included_by {
                    Some(parent) => cat3(" (included by \"", parent.as_str(), "\")"),
                    None => "".to_owned(),
                };
                let available = owned_names(defs);
                let list = join(available.as_slice(), ", ");
                cat6(
                    "unknown toolchain \"",
                    name.as_str(),
                    "\"",
                    context.as_str(),
                    "; available: ",
                    list.as_str(),
                )
            },
        }
    }
}

/// The part of the path from its entry `start` on, with `name` behind it.
fn cycle_chain(path: &Vec<String>, start: usize, name: &str) -> (r: Vec<String>)
    requires
        start < path@.len(),
        path@[start as int]@ == name@,
        forall|j: int| 0 <= j < start ==> (#[trigger] path@[j])@ != name@,
    ensures
        texts(r@) == path_from(texts(path@), name@).push(name@),
{
    broadcast use lemma_texts_push;

    let ghost all = texts(path@);
    proof {
        lemma_path_from(all, name@, start as int);
    }
    let mut out: Vec<String> = Vec::new();
    let mut i: usize = start;
    assert(texts(out@) =~= all.subrange(start as int, i as int));
    while i < path.len()
        invariant
            start <= i <= path@.len(),
            all == texts(path@),
            texts(out@) == all.subrange(start as int, i as int),
        decreases path@.len() - i,
    {
        broadcast use lemma_texts_push;

        out.push(path[i].clone());
        i += 1;
        assert(texts(out@) =~= all.subrange(start as int, i as int));
    }
    assert(texts(out@) =~= all.skip(start as int));
    out.push(name.to_owned());
    out
}

proof fn lemma_path_from(path: Seq<Seq<char>>, name: Seq<char>, start: int)
    requires
        0 <= start < path.len(),
        path[start] == name,
        forall|j: int| 0 <= j < start ==> #[trigger] path[j] != name,
    ensures
        path_from(path, name) == path.skip(start),
    decreases start,
{
    if start == 0 {
        assert(path.skip(0) =~= path);
    } else {
        assert forall|j: int| 0 <= j < start - 1 implies #[trigger] path.skip(1)[j] != name by {
            assert(path[j + 1] != name);
        }
        lemma_path_from(path.skip(1), name, start - 1);
        assert(path.skip(1).skip(start - 1) =~= path.skip(start));
    }
}

fn expand_name(
    name: &str,
    defs: &[Named<'_>],
    out: &mut Vec<String>,
    path: &mut Vec<String>,
) -> (r: Result<(), SelectionError>)
    ensures
        (match r {
            Ok(_) => expand_one(
                include_graph(defs@),
                name@,
                texts(old(out)@),
                texts(old(path)@),
            ) == Ok::<Seq<Seq<char>>, SelectionProblem>(texts(final(out)@)) && texts(final(path)@)
                == texts(old(path)@),
            Err(error) => expand_one(
                include_graph(defs@),
                name@,
                texts(old(out)@),
                texts(old(path)@),
            ) == Err::<Seq<Seq<char>>, SelectionProblem>(error@),
        }),
    decreases unvisited(include_graph(defs@), texts(old(path)@)).len(),
{
    broadcast use lemma_texts_push;

    let ghost graph = include_graph(defs@);
    let ghost path0 = texts(path@);
    let ghost out0 = texts(out@);
    proof {
        lemma_graph_finite(defs@);
        lemma_named_iff_listed(defs@, name@);
    }
    if let Some(start) = position_of(path.as_slice(), name) {
        assert(path0[start as int] == name@);
        return Err(SelectionError::Cyclic(cycle_chain(path, start, name)));
    }
    let def = match find_def(defs, name) {
        Some(def) => def,
        None => {
            let included_by = if path.len() > 0 {
                Some(path[path.len() - 1].clone())
            } else {
                None
            };
            return Err(SelectionError::Unknown { name: name.to_owned(), included_by });
        },
    };
    if lists(out.as_slice(), name) {
        return Ok(());
    }
    proof {
        lemma_entering_shrinks(graph, path0, name@);
    }
    out.push(name.to_owned());
    path.push(name.to_owned());
    let ghost names = texts(def.includes@);
    let mut i: usize = 0;
    assert(names.take(0) =~= Seq::empty());
    assert(names == graph[name@]);
    while i < def.includes.len()
        invariant
            i <= def.includes@.len(),
            graph == include_graph(defs@),
            graph.dom().finite(),
            names == texts(def.includes@),
            texts(path@) == path0.push(name@),
            unvisited(graph, path0.push(name@)).len() < unvisited(graph, path0).len(),
            path0 == texts(old(path)@),
            out0 == texts(old(out)@),
            expand_one(graph, name@, out0, path0) == expand_all(
                graph,
                names,
                out0.push(name@),
                path0.push(name@),
            ),
            expand_all(graph, names.take(i as int), out0.push(name@), path0.push(name@)) == Ok::<
                Seq<Seq<char>>,
                SelectionProblem,
            >(texts(out@)),
        decreases def.includes@.len() - i,
    {
        proof {
            assert(names.take(i + 1).drop_last() =~= names.take(i as int));
            assert(names.take(i + 1).last() == names[i as int]);
            lemma_problem_stays(graph, names, out0.push(name@), path0.push(name@), i + 1);
        }
        expand_name(def.includes[i].as_str(), defs, out, path)?;
        i += 1;
    }
    assert(names.take(i as int) =~= names);
    let ghost entered = path@;
    path.pop();
    proof {
        assert(texts(entered).len() == path0.len() + 1);
        assert forall|j: int| 0 <= j < path0.len() implies texts(path@)[j] == path0[j] by {
            assert(texts(entered)[j] == path0.push(name@)[j]);
        }
        assert(texts(path@) =~= path0);
    }
    Ok(())
}

proof fn lemma_problem_stays(
    graph: IncludeGraph,
    names: Seq<Seq<char>>,
    out: Seq<Seq<char>>,
    path: Seq<Seq<char>>,
    n: int,
)
    requires
        graph.dom().finite(),
        0 <= n <= names.len(),
    ensures
        expand_all(graph, names.take(n), out, path) is Err ==> expand_all(graph, names, out, path)
            == expand_all(graph, names.take(n), out, path),
    decreases names.len() - n,
{
    if n == names.len() {
        assert(names.take(n) =~= names);
    } else {
        lemma_problem_stays(graph, names, out, path, n + 1);
        assert(names.take(n + 1).drop_last() =~= names.take(n));
    }
}

/// Expands a selection through its includes.
pub fn expand_selection(selection: &[String], defs: &[Named<'_>]) -> (r: Result<
    Vec<String>,
    SelectionError,
>)
    ensures
        (match r {
            Ok(names) => expansion(include_graph(defs@), texts(selection@)) == Ok::<
                Seq<Seq<char>>,
                SelectionProblem,
            >(texts(names@)),
            Err(error) => expansion(include_graph(defs@), texts(selection@)) == Err::<
                Seq<Seq<char>>,
                SelectionProblem,
            >(error@),
        }),
{
    let ghost graph = include_graph(defs@);
    let ghost names = texts(selection@);
    let mut out: Vec<String> = Vec::new();
    let mut i: usize = 0;
    proof {
        lemma_graph_finite(defs@);
    }
    assert(names.take(0) =~= Seq::empty());
    assert(texts(out@) =~= Seq::empty());
    while i < selection.len()
        invariant
            i <= selection@.len(),
            graph == include_graph(defs@),
            graph.dom().finite(),
            names == texts(selection@),
            expand_all(graph, names.take(i as int), Seq::empty(), Seq::empty()) == Ok::<
                Seq<Seq<char>>,
                SelectionProblem,
            >(texts(out@)),
        decreases selection@.len() - i,
    {
        proof {
            assert(names.take(i + 1).drop_last() =~= names.take(i as int));
            assert(names.take(i + 1).last() == names[i as int]);
            lemma_problem_stays(graph, names, Seq::empty(), Seq::empty(), i + 1);
        }
        let mut path: Vec<String> = Vec::new();
        assert(texts(path@) =~= Seq::empty());
        expand_name(selection[i].as_str(), defs, &mut out, &mut path)?;
        i += 1;
    }
    assert(names.take(i as int) =~= names);
    Ok(out)
}

/// Each name of `chain` includes the next.
pub open spec fn is_chain(graph: IncludeGraph, chain: Seq<Seq<char>>) -> bool {
    forall|i: int|
        0 <= i < chain.len() - 1 ==> graph.dom().contains(#[trigger] chain[i])
            && graph[chain[i]].contains(chain[i + 1])
}

/// `to` is `from`, or included by it directly or through others.
pub open spec fn reachable(graph: IncludeGraph, from: Seq<char>, to: Seq<char>) -> bool {
    exists|chain: Seq<Seq<char>>|
        chain.len() > 0 && chain[0] == from && chain.last() == to && #[trigger] is_chain(
            graph,
            chain,
        )
}

/// `chain` leads from a name back to itself.
pub open spec fn is_cycle(graph: IncludeGraph, chain: Seq<Seq<char>>) -> bool {
    chain.len() >= 2 && chain[0] == chain.last() && is_chain(graph, chain)
}

/// Every name of `done` stands behind all that it includes.
spec fn includes_first(graph: IncludeGraph, done: Seq<Seq<char>>) -> bool {
    forall|i: int, k: int|
        0 <= i < done.len() && 0 <= k < graph[done[i]].len() ==> done.take(i).contains(
            #[trigger] graph[#[trigger] done[i]][k],
        )
}

/// What holds while a selection is expanded: everything listed is either on
/// the path or done.
spec fn expanding(
    graph: IncludeGraph,
    out: Seq<Seq<char>>,
    path: Seq<Seq<char>>,
    done: Seq<Seq<char>>,
) -> bool {
    &&& out.no_duplicates()
    &&& done.no_duplicates()
    &&& forall|name: Seq<char>| #[trigger]
        out.contains(name) <==> path.contains(name) || done.contains(name)
    &&& forall|name: Seq<char>| #[trigger] done.contains(name) ==> !path.contains(name)
    &&& forall|name: Seq<char>| #[trigger] out.contains(name) ==> graph.dom().contains(name)
    &&& includes_first(graph, done)
}

proof fn lemma_push_contains(list: Seq<Seq<char>>, item: Seq<char>)
    ensures
        forall|other: Seq<char>| #[trigger]
            list.push(item).contains(other) <==> list.contains(other) || other == item,
{
    assert forall|other: Seq<char>| #[trigger] list.push(item).contains(other) <==> list.contains(
        other,
    ) || other == item by {
        if list.contains(other) {
            let i = choose|i: int| 0 <= i < list.len() && list[i] == other;
            assert(list.push(item)[i] == other);
        }
        if other == item {
            assert(list.push(item)[list.len() as int] == item);
        }
        if list.push(item).contains(other) && other != item {
            let i = choose|i: int| 0 <= i < list.push(item).len() && list.push(item)[i] == other;
            assert(list[i] == other);
        }
    }
}

proof fn lemma_expand_one_order(
    graph: IncludeGraph,
    name: Seq<char>,
    out: Seq<Seq<char>>,
    path: Seq<Seq<char>>,
    done: Seq<Seq<char>>,
) -> (more: Seq<Seq<char>>)
    requires
        graph.dom().finite(),
        expanding(graph, out, path, done),
        expand_one(graph, name, out, path) is Ok,
    ensures
        expanding(graph, expand_one(graph, name, out, path)->Ok_0, path, more),
        more.contains(name),
        forall|other: Seq<char>| #[trigger] done.contains(other) ==> more.contains(other),
    decreases unvisited(graph, path).len(), 0int,
{
    if out.contains(name) {
        done
    } else {
        lemma_entering_shrinks(graph, path, name);
        lemma_push_contains(out, name);
        lemma_push_contains(path, name);
        let within = lemma_expand_all_order(
            graph,
            graph[name],
            out.push(name),
            path.push(name),
            done,
        );
        let listed = expand_one(graph, name, out, path)->Ok_0;
        let more = within.push(name);
        lemma_push_contains(within, name);
        assert(path.push(name).contains(name));
        assert(!within.contains(name));
        assert(listed.contains(name));
        assert forall|i: int, k: int|
            0 <= i < more.len() && 0 <= k < graph[more[i]].len() implies more.take(i).contains(
            #[trigger] graph[#[trigger] more[i]][k],
        ) by {
            assert(more.take(i) =~= within.take(i));
            if i < within.len() {
                assert(more[i] == within[i]);
                assert(within.take(i).contains(graph[within[i]][k]));
            } else {
                assert(within.take(i) =~= within);
                assert(within.contains(graph[name][k]));
            }
        }
        assert forall|other: Seq<char>| #[trigger] listed.contains(other) <==> path.contains(other)
            || more.contains(other) by {
            assert(listed.contains(other) <==> path.push(name).contains(other) || within.contains(
                other,
            ));
        }
        assert forall|other: Seq<char>| #[trigger] more.contains(other) implies !path.contains(
            other,
        ) by {
            if within.contains(other) {
                assert(!path.push(name).contains(other));
            }
        }
        more
    }
}

proof fn lemma_expand_all_order(
    graph: IncludeGraph,
    names: Seq<Seq<char>>,
    out: Seq<Seq<char>>,
    path: Seq<Seq<char>>,
    done: Seq<Seq<char>>,
) -> (more: Seq<Seq<char>>)
    requires
        graph.dom().finite(),
        expanding(graph, out, path, done),
        expand_all(graph, names, out, path) is Ok,
    ensures
        expanding(graph, expand_all(graph, names, out, path)->Ok_0, path, more),
        forall|i: int| 0 <= i < names.len() ==> more.contains(#[trigger] names[i]),
        forall|other: Seq<char>| #[trigger] done.contains(other) ==> more.contains(other),
    decreases unvisited(graph, path).len(), names.len() + 1,
{
    if names.len() == 0 {
        done
    } else {
        let front = names.drop_last();
        let listed = expand_all(graph, front, out, path)->Ok_0;
        let before = lemma_expand_all_order(graph, front, out, path, done);
        let more = lemma_expand_one_order(graph, names.last(), listed, path, before);
        assert forall|i: int| 0 <= i < names.len() implies more.contains(#[trigger] names[i]) by {
            if i < front.len() {
                assert(before.contains(front[i]));
            }
        }
        more
    }
}

proof fn lemma_chain_goes_back(
    graph: IncludeGraph,
    done: Seq<Seq<char>>,
    chain: Seq<Seq<char>>,
    start: int,
) -> (end: int)
    requires
        includes_first(graph, done),
        is_chain(graph, chain),
        chain.len() >= 1,
        0 <= start < done.len(),
        done[start] == chain[0],
    ensures
        0 <= end <= start,
        done[end] == chain.last(),
        chain.len() >= 2 ==> end < start,
    decreases chain.len(),
{
    if chain.len() == 1 {
        start
    } else {
        assert(graph[chain[0]].contains(chain[0int + 1]));
        let k = choose|k: int| 0 <= k < graph[chain[0]].len() && graph[chain[0]][k] == chain[1];
        assert(done.take(start).contains(graph[done[start]][k]));
        let next = choose|j: int| 0 <= j < done.take(start).len() && done.take(start)[j] == chain[1];
        assert forall|i: int| 0 <= i < chain.skip(1).len() - 1 implies graph.dom().contains(
            #[trigger] chain.skip(1)[i],
        ) && graph[chain.skip(1)[i]].contains(chain.skip(1)[i + 1]) by {
            assert(graph[chain[i + 1]].contains(chain[i + 1 + 1]));
        }
        lemma_chain_goes_back(graph, done, chain.skip(1), next)
    }
}

/// An expanded selection lists each toolchain once; it lists every selected
/// one and all that a listed one includes; each listed name is defined; and
/// no listed toolchain includes itself, directly or through others.
pub proof fn lemma_expansion_complete(graph: IncludeGraph, selection: Seq<Seq<char>>)
    requires
        graph.dom().finite(),
        expansion(graph, selection) is Ok,
    ensures
        ({
            let listed = expansion(graph, selection)->Ok_0;
            &&& listed.no_duplicates()
            &&& forall|i: int| 0 <= i < selection.len() ==> listed.contains(#[trigger] selection[i])
            &&& forall|name: Seq<char>| #[trigger]
                listed.contains(name) ==> graph.dom().contains(name)
            &&& forall|name: Seq<char>, i: int|
                listed.contains(name) && 0 <= i < graph[name].len() ==> listed.contains(
                    #[trigger] graph[name][i],
                )
            &&& forall|chain: Seq<Seq<char>>| #[trigger]
                is_cycle(graph, chain) ==> !listed.contains(chain[0])
        }),
{
    let none = Seq::<Seq<char>>::empty();
    let listed = expansion(graph, selection)->Ok_0;
    assert(expanding(graph, none, none, none));
    let done = lemma_expand_all_order(graph, selection, none, none, none);
    assert forall|name: Seq<char>, i: int|
        listed.contains(name) && 0 <= i < graph[name].len() implies listed.contains(
        #[trigger] graph[name][i],
    ) by {
        assert(done.contains(name));
        let at = choose|j: int| 0 <= j < done.len() && done[j] == name;
        assert(done.take(at).contains(graph[done[at]][i]));
        let j = choose|j: int| 0 <= j < done.take(at).len() && done.take(at)[j] == graph[name][i];
        assert(done[j] == graph[name][i]);
        assert(done.contains(graph[name][i]));
    }
    assert forall|chain: Seq<Seq<char>>| #[trigger]
        is_cycle(graph, chain) implies !listed.contains(chain[0]) by {
        if listed.contains(chain[0]) {
            assert(done.contains(chain[0]));
            let start = choose|j: int| 0 <= j < done.len() && done[j] == chain[0];
            let end = lemma_chain_goes_back(graph, done, chain, start);
            assert(done[start] == done[end]);
        }
    }
}

proof fn lemma_chain_push(graph: IncludeGraph, chain: Seq<Seq<char>>, next: Seq<char>)
    requires
        is_chain(graph, chain),
        chain.len() > 0 ==> graph.dom().contains(chain.last()) && graph[chain.last()].contains(
            next,
        ),
    ensures
        is_chain(graph, chain.push(next)),
{
    let longer = chain.push(next);
    assert forall|i: int| 0 <= i < longer.len() - 1 implies graph.dom().contains(
        #[trigger] longer[i],
    ) && graph[longer[i]].contains(longer[i + 1]) by {
        assert(longer[i] == chain[i]);
        if i < chain.len() - 1 {
            assert(graph[chain[i]].contains(chain[i + 1]));
        }
    }
}

proof fn lemma_path_from_is_suffix(path: Seq<Seq<char>>, name: Seq<char>) -> (start: int)
    requires
        path.contains(name),
    ensures
        0 <= start < path.len(),
        path[start] == name,
        path_from(path, name) == path.skip(start),
    decreases path.len(),
{
    if path[0] == name {
        assert(path.skip(0) =~= path);
        0
    } else {
        let i = choose|i: int| 0 <= i < path.len() && path[i] == name;
        assert(path.skip(1)[i - 1] == name);
        let below = lemma_path_from_is_suffix(path.skip(1), name);
        assert(path.skip(1).skip(below) =~= path.skip(below + 1));
        below + 1
    }
}

/// What a refusal tells, while `path` leads to `name`.
spec fn refusal_holds(
    graph: IncludeGraph,
    problem: SelectionProblem,
    origin: Seq<Seq<char>>,
) -> bool {
    match problem {
        SelectionProblem::Cyclic(chain) => is_cycle(graph, chain) && reached_from(
            graph,
            origin,
            chain[0],
        ),
        SelectionProblem::Unknown(name, Some(parent)) => !graph.dom().contains(name)
            && graph.dom().contains(parent) && graph[parent].contains(name) && reached_from(
            graph,
            origin,
            parent,
        ),
        SelectionProblem::Unknown(name, None) => !graph.dom().contains(name) && origin.contains(
            name,
        ),
    }
}

/// `name` can be reached from one of `origin`.
pub open spec fn reached_from(
    graph: IncludeGraph,
    origin: Seq<Seq<char>>,
    name: Seq<char>,
) -> bool {
    exists|i: int| 0 <= i < origin.len() && reachable(graph, #[trigger] origin[i], name)
}

/// Where an expansion stands: `path` starts at a selected name and leads on
/// by includes.
spec fn path_leads(
    graph: IncludeGraph,
    origin: Seq<Seq<char>>,
    path: Seq<Seq<char>>,
    name: Seq<char>,
) -> bool {
    &&& is_chain(graph, path.push(name))
    &&& origin.contains(path.push(name)[0])
}

proof fn lemma_path_reaches(
    graph: IncludeGraph,
    origin: Seq<Seq<char>>,
    path: Seq<Seq<char>>,
    name: Seq<char>,
    at: int,
)
    requires
        path_leads(graph, origin, path, name),
        0 <= at <= path.len(),
    ensures
        reached_from(graph, origin, path.push(name)[at]),
{
    let whole = path.push(name);
    let chain = whole.take(at + 1);
    assert forall|i: int| 0 <= i < chain.len() - 1 implies graph.dom().contains(
        #[trigger] chain[i],
    ) && graph[chain[i]].contains(chain[i + 1]) by {
        assert(graph[whole[i]].contains(whole[i + 1]));
    }
    assert(is_chain(graph, chain));
    let first = choose|i: int| 0 <= i < origin.len() && origin[i] == whole[0];
    assert(chain[0] == origin[first] && chain.last() == whole[at]);
    assert(reachable(graph, origin[first], whole[at]));
}

proof fn lemma_expand_one_witness(
    graph: IncludeGraph,
    origin: Seq<Seq<char>>,
    name: Seq<char>,
    out: Seq<Seq<char>>,
    path: Seq<Seq<char>>,
)
    requires
        graph.dom().finite(),
        path_leads(graph, origin, path, name),
        forall|other: Seq<char>| #[trigger]
            out.contains(other) ==> reached_from(graph, origin, other),
    ensures
        expand_one(graph, name, out, path) matches Err(problem) ==> refusal_holds(
            graph,
            problem,
            origin,
        ),
        expand_one(graph, name, out, path) matches Ok(listed) ==> forall|other: Seq<char>|
            #[trigger] listed.contains(other) ==> reached_from(graph, origin, other),
    decreases unvisited(graph, path).len(), 0int,
{
    let whole = path.push(name);
    lemma_path_reaches(graph, origin, path, name, path.len() as int);
    assert(whole[path.len() as int] == name);
    if path.contains(name) {
        let start = lemma_path_from_is_suffix(path, name);
        let chain = path_from(path, name).push(name);
        assert(chain =~= whole.skip(start));
        assert forall|i: int| 0 <= i < chain.len() - 1 implies graph.dom().contains(
            #[trigger] chain[i],
        ) && graph[chain[i]].contains(chain[i + 1]) by {
            assert(graph[whole[start + i]].contains(whole[start + i + 1]));
        }
        lemma_path_reaches(graph, origin, path, name, start);
    } else if !graph.dom().contains(name) {
        if path.len() > 0 {
            let last = path.len() - 1;
            assert(graph[whole[last]].contains(whole[last + 1]));
            lemma_path_reaches(graph, origin, path, name, last);
        }
    } else if !out.contains(name) {
        lemma_entering_shrinks(graph, path, name);
        lemma_push_contains(out, name);
        assert forall|i: int| 0 <= i < graph[name].len() implies path_leads(
            graph,
            origin,
            whole,
            #[trigger] graph[name][i],
        ) by {
            assert(graph[name].contains(graph[name][i]));
            lemma_chain_push(graph, whole, graph[name][i]);
            assert(whole.push(graph[name][i])[0] == whole[0]);
        }
        lemma_expand_all_witness(graph, origin, graph[name], out.push(name), whole);
    }
}

proof fn lemma_expand_all_witness(
    graph: IncludeGraph,
    origin: Seq<Seq<char>>,
    names: Seq<Seq<char>>,
    out: Seq<Seq<char>>,
    path: Seq<Seq<char>>,
)
    requires
        graph.dom().finite(),
        forall|i: int|
            0 <= i < names.len() ==> path_leads(graph, origin, path, #[trigger] names[i]),
        forall|other: Seq<char>| #[trigger]
            out.contains(other) ==> reached_from(graph, origin, other),
    ensures
        expand_all(graph, names, out, path) matches Err(problem) ==> refusal_holds(
            graph,
            problem,
            origin,
        ),
        expand_all(graph, names, out, path) matches Ok(listed) ==> forall|other: Seq<char>|
            #[trigger] listed.contains(other) ==> reached_from(graph, origin, other),
    decreases unvisited(graph, path).len(), names.len() + 1,
{
    if names.len() > 0 {
        let front = names.drop_last();
        assert forall|i: int| 0 <= i < front.len() implies path_leads(
            graph,
            origin,
            path,
            #[trigger] front[i],
        ) by {
            assert(front[i] == names[i]);
        }
        lemma_expand_all_witness(graph, origin, front, out, path);
        if let Ok(listed) = expand_all(graph, front, out, path) {
            assert(names.last() == names[names.len() - 1]);
            lemma_expand_one_witness(graph, origin, names.last(), listed, path);
        }
    }
}

/// Everything in an expanded selection is selected, or included by something
/// selected, directly or through others.
pub proof fn lemma_expansion_reached(
    graph: IncludeGraph,
    selection: Seq<Seq<char>>,
    name: Seq<char>,
)
    requires
        graph.dom().finite(),
        expansion(graph, selection) is Ok,
        expansion(graph, selection)->Ok_0.contains(name),
    ensures
        reached_from(graph, selection, name),
{
    lemma_selection_leads(graph, selection);
    lemma_expand_all_witness(graph, selection, selection, Seq::empty(), Seq::empty());
}

proof fn lemma_selection_leads(graph: IncludeGraph, selection: Seq<Seq<char>>)
    ensures
        forall|i: int|
            0 <= i < selection.len() ==> path_leads(
                graph,
                selection,
                Seq::empty(),
                #[trigger] selection[i],
            ),
{
    assert forall|i: int| 0 <= i < selection.len() implies path_leads(
        graph,
        selection,
        Seq::empty(),
        #[trigger] selection[i],
    ) by {
        assert(Seq::<Seq<char>>::empty().push(selection[i])[0] == selection[i]);
    }
}

/// A selection is refused only for what is there: a cycle of includes that
/// the selection leads to, or a name without a definition that is selected or
/// included by something that the selection leads to.
pub proof fn lemma_refusal_is_real(graph: IncludeGraph, selection: Seq<Seq<char>>)
    requires
        graph.dom().finite(),
    ensures
        expansion(graph, selection) matches Err(SelectionProblem::Cyclic(chain)) ==> is_cycle(
            graph,
            chain,
        ) && reached_from(graph, selection, chain[0]),
        expansion(graph, selection) matches Err(SelectionProblem::Unknown(name, Some(parent)))
            ==> !graph.dom().contains(name) && graph[parent].contains(name) && reached_from(
            graph,
            selection,
            parent,
        ),
        expansion(graph, selection) matches Err(SelectionProblem::Unknown(name, None))
            ==> !graph.dom().contains(name) && selection.contains(name),
{
    lemma_selection_leads(graph, selection);
    lemma_expand_all_witness(graph, selection, selection, Seq::empty(), Seq::empty());
}

} // verus!
