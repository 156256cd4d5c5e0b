//! The dependencies between classes, and the partition of a schema into the
//! classes that one pass generates.
//!
//! A class depends on its base class and on every class that occurs in the
//! signatures of its methods. The classes are densely connected, through
//! cycles, so generation is not ordered by dependency: a pass generates what
//! can be reached from a root, apart from what an earlier pass has bound.

use crate::api::{Api, ApiView, SchemaError, SchemaErrorView};
use crate::class_set::ClassSet;
use crate::consistency::{
    check_references, class_references, closed_world, collect_references,
    dangling_error, first_dangling, lemma_closed_world_class, lemma_references_resolve,
};
use vstd::pervasive::unreached;
use vstd::prelude::*;
use vstd::string::*;

verus! {

/// Whether the class called `a` refers to the class called `b`, as its base
/// class or in the signature of a method.
pub open spec fn depends_on(api: ApiView, a: Seq<char>, b: Seq<char>) -> bool {
    &&& api.has_class(a)
    &&& exists|k: int|
        0 <= k < class_references(api.class_named(a)).len() && (#[trigger] class_references(
            api.class_named(a),
        )[k]).class == b
}

/// Whether `steps` dependencies in a row lead from the class called `root`
/// to `target`.
pub open spec fn reaches_in(api: ApiView, root: Seq<char>, target: Seq<char>, steps: nat) -> bool
    decreases steps,
{
    if steps == 0 {
        root == target && api.has_class(root)
    } else {
        exists|via: Seq<char>|
            reaches_in(api, root, via, (steps - 1) as nat) && #[trigger] depends_on(
                api,
                via,
                target,
            )
    }
}

/// Whether dependencies lead from the class called `root` to `target`. Every
/// class reaches itself.
pub open spec fn reaches(api: ApiView, root: Seq<char>, target: Seq<char>) -> bool {
    exists|steps: nat| reaches_in(api, root, target, steps)
}

/// The classes that a pass rooted at `root` generates when `already_bound`
/// has been bound before: everything that `root` reaches, without what is
/// bound already.
pub open spec fn generation_set(
    api: ApiView,
    root: Seq<char>,
    already_bound: Set<Seq<char>>,
) -> Set<Seq<char>> {
    Set::new(|c: Seq<char>| reaches(api, root, c) && !already_bound.contains(c))
}

/// What a partition of `api` may return: the generation set where the schema
/// is a closed world, and its first dangling reference where it is not.
pub open spec fn is_partition(
    api: ApiView,
    root: Seq<char>,
    already_bound: Set<Seq<char>>,
    result: Result<Set<Seq<char>>, SchemaErrorView>,
) -> bool {
    match result {
        Ok(set) => closed_world(api) && set == generation_set(api, root, already_bound),
        Err(e) => dangling_error(api) == Some(e),
    }
}

/// Partitioning is deterministic: the schema, the root and the set bound
/// before fix the result, so two runs on the same input agree.
pub proof fn lemma_partition_deterministic(
    api: ApiView,
    root: Seq<char>,
    already_bound: Set<Seq<char>>,
    first: Result<Set<Seq<char>>, SchemaErrorView>,
    second: Result<Set<Seq<char>>, SchemaErrorView>,
)
    requires
        is_partition(api, root, already_bound, first),
        is_partition(api, root, already_bound, second),
    ensures
        first == second,
{
}

/// Exclusion is monotonic: binding more classes beforehand never adds a
/// class to the pass.
pub proof fn lemma_partition_monotonic(
    api: ApiView,
    root: Seq<char>,
    smaller: Set<Seq<char>>,
    larger: Set<Seq<char>>,
)
    requires
        smaller.subset_of(larger),
    ensures
        generation_set(api, root, larger).subset_of(generation_set(api, root, smaller)),
{
}

/// Every class belongs to exactly one of the two passes that a foundation set
/// defines: the foundation pass generates the members of the set and the
/// pass that builds on it generates the rest. With nothing bound beforehand,
/// what the root reaches is generated by the foundation pass.
pub proof fn lemma_one_generation_set(api: ApiView, root: Seq<char>, i: int)
    requires
        0 <= i < api.classes.len(),
    ensures
        ({
            let foundation = generation_set(api, root, Set::empty());
            let first = api.with_generated(foundation, true).classes[i];
            let second = api.with_generated(foundation, false).classes[i];
            &&& first.is_generated != second.is_generated
            &&& reaches(api, root, api.classes[i].name) ==> first.is_generated
        }),
{
}

/// From a name that is no class, dependencies lead nowhere.
pub proof fn lemma_unknown_root_reaches_nothing(
    api: ApiView,
    root: Seq<char>,
    target: Seq<char>,
    steps: nat,
)
    requires
        !api.has_class(root),
    ensures
        !reaches_in(api, root, target, steps),
    decreases steps,
{
    if steps > 0 && reaches_in(api, root, target, steps) {
        let via = choose|via: Seq<char>|
            reaches_in(api, root, via, (steps - 1) as nat) && #[trigger] depends_on(
                api,
                via,
                target,
            );
        lemma_unknown_root_reaches_nothing(api, root, via, (steps - 1) as nat);
    }
}

/// One more dependency extends what a class reaches.
pub proof fn lemma_reaches_step(api: ApiView, root: Seq<char>, via: Seq<char>, target: Seq<char>)
    requires
        reaches(api, root, via),
        depends_on(api, via, target),
    ensures
        reaches(api, root, target),
{
    let steps = choose|steps: nat| reaches_in(api, root, via, steps);
    assert(((steps + 1) - 1) as nat == steps);
    assert(reaches_in(api, root, target, steps + 1));
}

/// With unique names, the class called like the `i`-th class is the `i`-th.
pub proof fn lemma_class_named(api: ApiView, i: int)
    requires
        api.names_unique(),
        0 <= i < api.classes.len(),
    ensures
        api.has_class(api.classes[i].name),
        api.index_of(api.classes[i].name) == i,
        api.class_named(api.classes[i].name) == api.classes[i],
{
    let j = api.index_of(api.classes[i].name);
    if j < i {
        assert(api.classes[j].name != api.classes[i].name);
    }
    if i < j {
        assert(api.classes[i].name != api.classes[j].name);
    }
}

/// The dependencies of a schema as adjacency lists: for each class, in
/// schema order, the positions of the classes that it refers to.
#[derive(Debug)]
pub struct DependencyGraph {
    edges: Vec<Vec<usize>>,
}

/// Whether `adjacency` holds the dependencies of `api`: one list for each
/// class, and in it one position for each reference of the class, that of
/// the class referred to.
pub open spec fn represents(adjacency: Seq<Seq<usize>>, api: ApiView) -> bool {
    &&& adjacency.len() == api.classes.len()
    &&& forall|i: int|
        0 <= i < adjacency.len() ==> (#[trigger] adjacency[i]).len() == class_references(
            api.classes[i],
        ).len()
    &&& forall|i: int, k: int|
        0 <= i < adjacency.len() && 0 <= k < adjacency[i].len() ==> {
            &&& (#[trigger] adjacency[i][k]) < api.classes.len()
            &&& api.classes[adjacency[i][k] as int].name == class_references(
                api.classes[i],
            )[k].class
        }
}

impl DependencyGraph {
    /// The adjacency lists of the graph.
    pub closed spec fn adjacency(&self) -> Seq<Seq<usize>> {
        self.edges.deep_view()
    }

    /// Derives the dependencies of `api`. Primitive and built-in value types
    /// induce no edge, and cycles are kept. A reference to a class that the
    /// schema does not hold fails the run: no edge is dropped in silence.
    pub fn build(api: &Api) -> (r: Result<DependencyGraph, SchemaError>)
        ensures
            match r {
                Ok(graph) => closed_world(api.deep_view()) && represents(
                    graph.adjacency(),
                    api.deep_view(),
                ),
                Err(e) => dangling_error(api.deep_view()) == Some(e.deep_view()),
            },
    {
        let ghost view = api.deep_view();
        match check_references(api) {
            Err(e) => {
                return Err(e);
            },
            Ok(_) => {},
        }
        let classes = api.classes();
        let mut edges: Vec<Vec<usize>> = Vec::new();
        let mut i: usize = 0;
        while i < classes.len()
            invariant
                i <= classes.len(),
                view == api.deep_view(),
                classes.deep_view() == view.classes,
                closed_world(view),
                edges.len() == i,
                forall|a: int|
                    0 <= a < i ==> (#[trigger] edges.deep_view()[a]).len() == class_references(
                        view.classes[a],
                    ).len(),
                forall|a: int, k: int|
                    0 <= a < i && 0 <= k < edges.deep_view()[a].len() ==> {
                        &&& (#[trigger] edges.deep_view()[a][k]) < view.classes.len()
                        &&& view.classes[edges.deep_view()[a][k] as int].name == class_references(
                            view.classes[a],
                        )[k].class
                    },
            decreases classes.len() - i,
        {
            let ghost c = view.classes[i as int];
            assert(c == classes@[i as int].deep_view());
            let refs = collect_references(&classes[i]);
            let ghost all = refs.deep_view();
            proof {
                lemma_closed_world_class(view, i as int);
            }
            let mut row: Vec<usize> = Vec::new();
            let mut k: usize = 0;
            while k < refs.len()
                invariant
                    k <= refs.len(),
                    view == api.deep_view(),
                    all == refs.deep_view(),
                    all == class_references(c),
                    first_dangling(view, all) is None,
                    row.len() == k,
                    forall|j: int|
                        0 <= j < k ==> (#[trigger] row@[j]) < view.classes.len()
                            && view.classes[row@[j] as int].name == all[j].class,
                decreases refs.len() - k,
            {
                assert(all[k as int] == refs@[k as int].deep_view());
                proof {
                    lemma_references_resolve(view, all, k as int);
                }
                let target = match api.find_index(refs[k].class.as_str()) {
                    Some(target) => target,
                    None => unreached(),
                };
                row.push(target);
                k += 1;
            }
            let ghost before = edges.deep_view();
            let ghost added = row.deep_view();
            assert(added =~= row@);
            edges.push(row);
            assert(edges.deep_view() =~= before.push(added));
            i += 1;
        }
        Ok(DependencyGraph { edges })
    }

    /// The number of classes in the graph.
    pub fn len(&self) -> (r: usize)
        ensures
            r == self.adjacency().len(),
    {
        self.edges.len()
    }

    /// The positions of the classes that the `i`-th class refers to, or
    /// `None` where the graph has no `i`-th class.
    pub fn successors(&self, i: usize) -> (r: Option<&Vec<usize>>)
        ensures
            match r {
                Some(row) => i < self.adjacency().len() && row@ == self.adjacency()[i as int],
                None => i >= self.adjacency().len(),
            },
    {
        if i < self.edges.len() {
            assert(self.edges.deep_view()[i as int] =~= self.edges@[i as int]@);
            Some(&self.edges[i])
        } else {
            None
        }
    }
}

/// How many classes a search has not reached yet.
pub open spec fn unvisited(visited: Seq<bool>) -> nat
    decreases visited.len(),
{
    if visited.len() == 0 {
        0
    } else {
        unvisited(visited.drop_last()) + if visited.last() {
            0nat
        } else {
            1nat
        }
    }
}

proof fn lemma_visit(visited: Seq<bool>, i: int)
    requires
        0 <= i < visited.len(),
        !visited[i],
    ensures
        unvisited(visited.update(i, true)) + 1 == unvisited(visited),
    decreases visited.len(),
{
    if i == visited.len() - 1 {
        assert(visited.update(i, true).drop_last() =~= visited.drop_last());
    } else {
        assert(visited.update(i, true).drop_last() =~= visited.drop_last().update(i, true));
        lemma_visit(visited.drop_last(), i);
    }
}

/// Every class that the search has marked is reached from the root.
pub open spec fn marks_sound(api: ApiView, root: Seq<char>, visited: Seq<bool>) -> bool {
    forall|i: int|
        0 <= i < visited.len() && visited[i] ==> reaches(api, root, (#[trigger] api.classes[i]).name)
}

/// The first `upto` successors of the class at `u` are marked.
pub open spec fn successors_marked(
    adjacency: Seq<Seq<usize>>,
    visited: Seq<bool>,
    u: int,
    upto: int,
) -> bool {
    forall|k: int| 0 <= k < upto ==> visited[(#[trigger] adjacency[u][k]) as int]
}

/// The marks are closed under dependency, apart from the classes that still
/// wait in `pending` and from the class at `current`.
pub open spec fn marks_closed(
    adjacency: Seq<Seq<usize>>,
    visited: Seq<bool>,
    pending: Seq<usize>,
    current: int,
) -> bool {
    forall|u: int|
        0 <= u < visited.len() && #[trigger] visited[u] && !pending.contains(u as usize) && u
            != current ==> successors_marked(adjacency, visited, u, adjacency[u].len() as int)
}

/// Marks that hold the root and are closed under dependency hold every class
/// that the root reaches.
proof fn lemma_marks_complete(
    api: ApiView,
    adjacency: Seq<Seq<usize>>,
    visited: Seq<bool>,
    root: int,
    target: Seq<char>,
    steps: nat,
)
    requires
        api.names_unique(),
        represents(adjacency, api),
        visited.len() == api.classes.len(),
        0 <= root < api.classes.len(),
        visited[root],
        marks_closed(adjacency, visited, Seq::empty(), -1),
        reaches_in(api, api.classes[root].name, target, steps),
    ensures
        exists|i: int|
            0 <= i < api.classes.len() && (#[trigger] api.classes[i]).name == target && visited[i],
    decreases steps,
{
    if steps == 0 {
        assert(api.classes[root].name == target);
    } else {
        let via = choose|via: Seq<char>|
            reaches_in(api, api.classes[root].name, via, (steps - 1) as nat) && #[trigger] depends_on(
                api,
                via,
                target,
            );
        lemma_marks_complete(api, adjacency, visited, root, via, (steps - 1) as nat);
        let u = choose|i: int|
            0 <= i < api.classes.len() && (#[trigger] api.classes[i]).name == via && visited[i];
        lemma_class_named(api, u);
        let k = choose|k: int|
            0 <= k < class_references(api.class_named(via)).len() && (#[trigger] class_references(
                api.class_named(via),
            )[k]).class == target;
        assert(!Seq::<usize>::empty().contains(u as usize));
        assert(visited[u]);
        assert(successors_marked(adjacency, visited, u, adjacency[u].len() as int));
        let v = adjacency[u][k];
        assert(visited[v as int]);
        assert(api.classes[v as int].name == target);
    }
}

/// Marks the classes that the class at `root` reaches.
fn reachable_classes(api: &Api, graph: &DependencyGraph, root: usize) -> (visited: Vec<bool>)
    requires
        api.deep_view().names_unique(),
        represents(graph.adjacency(), api.deep_view()),
        root < api.deep_view().classes.len(),
    ensures
        visited.len() == api.deep_view().classes.len(),
        marks_sound(api.deep_view(), api.deep_view().classes[root as int].name, visited@),
        forall|target: Seq<char>| #[trigger]
            reaches(api.deep_view(), api.deep_view().classes[root as int].name, target)
                ==> exists|i: int|
                0 <= i < visited.len() && (#[trigger] api.deep_view().classes[i]).name == target
                    && visited[i],
{
    let ghost view = api.deep_view();
    let ghost adjacency = graph.adjacency();
    let ghost origin = view.classes[root as int].name;
    let n = graph.len();
    let mut visited: Vec<bool> = Vec::new();
    let mut i: usize = 0;
    while i < n
        invariant
            i <= n,
            visited.len() == i,
            forall|k: int| 0 <= k < i ==> !visited@[k],
        decreases n - i,
    {
        visited.push(false);
        i += 1;
    }
    let mut pending: Vec<usize> = Vec::new();
    visited.set(root, true);
    pending.push(root);
    proof {
        lemma_class_named(view, root as int);
        assert(reaches_in(view, origin, origin, 0));
        assert(pending@[0] == root);
    }
    while pending.len() > 0
        invariant
            view == api.deep_view(),
            adjacency == graph.adjacency(),
            view.names_unique(),
            represents(adjacency, view),
            n == view.classes.len(),
            root < n,
            origin == view.classes[root as int].name,
            visited.len() == n,
            visited@[root as int],
            forall|p: int|
                0 <= p < pending.len() ==> (#[trigger] pending@[p]) < n && visited@[pending@[p] as int],
            marks_sound(view, origin, visited@),
            marks_closed(adjacency, visited@, pending@, -1),
        decreases unvisited(visited@), pending.len(),
    {
        let ghost pending_before = pending@;
        let ghost unvisited_before = unvisited(visited@);
        let u = pending.pop().unwrap();
        assert(u == pending_before[pending_before.len() - 1]);
        let row = match graph.successors(u) {
            Some(row) => row,
            None => unreached(),
        };
        let ghost base = pending@;
        assert forall|w: int|
            0 <= w < visited.len() && #[trigger] visited@[w] && !base.contains(w as usize) && w
                != u implies successors_marked(
            adjacency,
            visited@,
            w,
            adjacency[w].len() as int,
        ) by {
            if pending_before.contains(w as usize) {
                let p = choose|p: int|
                    0 <= p < pending_before.len() && pending_before[p] == w as usize;
                assert(base[p] == w as usize);
            }
        }
        let mut k: usize = 0;
        while k < row.len()
            invariant
                k <= row.len(),
                view == api.deep_view(),
                view.names_unique(),
                represents(adjacency, view),
                n == view.classes.len(),
                root < n,
                u < n,
                origin == view.classes[root as int].name,
                row@ == adjacency[u as int],
                visited.len() == n,
                visited@[root as int],
                visited@[u as int],
                forall|p: int|
                    0 <= p < pending.len() ==> (#[trigger] pending@[p]) < n
                        && visited@[pending@[p] as int],
                marks_sound(view, origin, visited@),
                marks_closed(adjacency, visited@, pending@, u as int),
                successors_marked(adjacency, visited@, u as int, k as int),
                base.len() <= pending.len(),
                unvisited(visited@) + (pending.len() - base.len()) == unvisited_before,
            decreases row.len() - k,
        {
            let v = row[k];
            assert(v == adjacency[u as int][k as int]);
            if !visited[v] {
                let ghost marks = visited@;
                let ghost waiting = pending@;
                proof {
                    lemma_visit(marks, v as int);
                    lemma_class_named(view, u as int);
                    assert(class_references(view.class_named(view.classes[u as int].name))[k as int].class
                        == view.classes[v as int].name);
                    assert(depends_on(
                        view,
                        view.classes[u as int].name,
                        view.classes[v as int].name,
                    ));
                    lemma_reaches_step(
                        view,
                        origin,
                        view.classes[u as int].name,
                        view.classes[v as int].name,
                    );
                }
                visited.set(v, true);
                pending.push(v);
                assert forall|w: int|
                    0 <= w < visited.len() && #[trigger] visited@[w] && !pending@.contains(
                        w as usize,
                    ) && w != u implies successors_marked(
                    adjacency,
                    visited@,
                    w,
                    adjacency[w].len() as int,
                ) by {
                    assert(pending@[waiting.len() as int] == v);
                    assert(w != v);
                    assert(marks[w]);
                    if waiting.contains(w as usize) {
                        let p = choose|p: int| 0 <= p < waiting.len() && waiting[p] == w as usize;
                        assert(pending@[p] == w as usize);
                    }
                    assert(successors_marked(adjacency, marks, w, adjacency[w].len() as int));
                }
                assert(successors_marked(adjacency, visited@, u as int, k as int + 1)) by {
                    assert(successors_marked(adjacency, marks, u as int, k as int));
                }
            }
            k += 1;
        }
        assert forall|w: int|
            0 <= w < visited.len() && #[trigger] visited@[w] && !pending@.contains(w as usize)
                implies successors_marked(adjacency, visited@, w, adjacency[w].len() as int) by {
            if w == u {
                assert(adjacency[u as int].len() == row.len());
            }
        }
    }
    proof {
        assert(pending@ =~= Seq::<usize>::empty());
        assert forall|target: Seq<char>| #[trigger] reaches(view, origin, target) implies exists|
            i: int,
        |
            0 <= i < visited.len() && (#[trigger] view.classes[i]).name == target && visited[i] by {
            let steps = choose|steps: nat| reaches_in(view, origin, target, steps);
            lemma_marks_complete(view, adjacency, visited@, root as int, target, steps);
        }
    }
    visited
}

/// The names that were bound before a pass.
pub open spec fn bound_names(already_bound: Option<&ClassSet>) -> Set<Seq<char>> {
    match already_bound {
        Some(set) => set@,
        None => Set::empty(),
    }
}

/// The result of a partition as a mathematical value.
pub open spec fn partition_view(r: Result<ClassSet, SchemaError>) -> Result<
    Set<Seq<char>>,
    SchemaErrorView,
> {
    match r {
        Ok(set) => Ok(set@),
        Err(e) => Err(e.deep_view()),
    }
}

/// Computes the classes that a pass rooted at the class called `class`
/// generates: everything that the root reaches through dependencies, the
/// root itself included, without the classes of `already_bound`. A root that
/// the schema does not hold reaches nothing. Only membership in the result
/// means anything.
pub fn strongly_connected_components(
    api: &Api,
    class: &str,
    already_bound: Option<&ClassSet>,
) -> (r: Result<ClassSet, SchemaError>)
    ensures
        is_partition(api.deep_view(), class@, bound_names(already_bound), partition_view(r)),
{
    let ghost view = api.deep_view();
    let ghost bound = bound_names(already_bound);
    let graph = match DependencyGraph::build(api) {
        Ok(graph) => graph,
        Err(e) => {
            return Err(e);
        },
    };
    let mut set = ClassSet::new();
    let root = match api.find_index(class) {
        Some(root) => root,
        None => {
            proof {
                assert forall|c: Seq<char>| !reaches(view, class@, c) by {
                    assert forall|steps: nat| !reaches_in(view, class@, c, steps) by {
                        lemma_unknown_root_reaches_nothing(view, class@, c, steps);
                    }
                }
                assert(set@ =~= generation_set(view, class@, bound));
            }
            return Ok(set);
        },
    };
    let classes = api.classes();
    let visited = reachable_classes(api, &graph, root);
    let mut i: usize = 0;
    while i < classes.len()
        invariant
            i <= classes.len(),
            view == api.deep_view(),
            bound == bound_names(already_bound),
            classes.deep_view() == view.classes,
            visited.len() == view.classes.len(),
            forall|c: Seq<char>|
                set@.contains(c) <==> exists|j: int|
                    0 <= j < i && (#[trigger] view.classes[j]).name == c && visited[j]
                        && !bound.contains(c),
        decreases classes.len() - i,
    {
        let ghost before = set@;
        assert(view.classes[i as int] == classes@[i as int].deep_view());
        let name = classes[i].name.as_str();
        let is_bound = match already_bound {
            Some(b) => b.contains(name),
            None => false,
        };
        if visited[i] && !is_bound {
            set.insert(classes[i].name.clone());
        }
        assert forall|c: Seq<char>|
            set@.contains(c) <==> exists|j: int|
                0 <= j < i + 1 && (#[trigger] view.classes[j]).name == c && visited[j]
                    && !bound.contains(c) by {
            if set@.contains(c) && !before.contains(c) {
                assert(view.classes[i as int].name == c);
            }
            if exists|j: int|
                0 <= j < i + 1 && (#[trigger] view.classes[j]).name == c && visited[j]
                    && !bound.contains(c) {
                let j = choose|j: int|
                    0 <= j < i + 1 && (#[trigger] view.classes[j]).name == c && visited[j]
                        && !bound.contains(c);
                if j < i {
                    assert(before.contains(c));
                }
            }
        }
        i += 1;
    }
    proof {
        assert forall|c: Seq<char>|
            set@.contains(c) <==> generation_set(view, class@, bound).contains(c) by {
            if set@.contains(c) {
                let j = choose|j: int|
                    0 <= j < view.classes.len() && (#[trigger] view.classes[j]).name == c
                        && visited[j] && !bound.contains(c);
                assert(reaches(view, class@, view.classes[j].name));
            }
            if reaches(view, class@, c) && !bound.contains(c) {
                let j = choose|j: int|
                    0 <= j < visited.len() && (#[trigger] view.classes[j]).name == c && visited[j];
                assert(set@.contains(c));
            }
        }
        assert(set@ =~= generation_set(view, class@, bound));
    }
    Ok(set)
}

} // verus!
