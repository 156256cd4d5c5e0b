//! The behaviour that every bound class has beside its methods: how its
//! instances are managed, and the casts along its line of base classes.

use crate::ancestry::{lemma_walk_ends, lemma_walk_repeats};
use crate::api::{Api, ApiView, ClassView, GodotClass};
use crate::classes::{memory_kind, memory_kind_of, MemoryKind};
use vstd::prelude::*;
use vstd::string::*;

verus! {

/// The behaviour of one class.
#[derive(Clone, Debug, PartialEq, Eq)]
pub struct Traits {
    /// How instances are managed. A counted reference is cloned by raising
    /// the count and released by lowering it, and the object is destroyed
    /// when the count reaches zero. Any other object is released by its
    /// owner, exactly once; a second release is the caller's fault and is not
    /// guarded against.
    pub memory: MemoryKind,
    /// The base class, to which a handle converts without a check. The root
    /// has none.
    pub upcast: Option<String>,
    /// The ancestors, nearest first. A handle typed as one of them converts
    /// to this class by a check at run time, which may find no match.
    pub downcast_from: Vec<String>,
    /// Whether the class can be constructed through the generic constructor.
    pub instantiable: bool,
}

/// The value of a [`Traits`] in contracts.
pub struct TraitsView {
    pub memory: MemoryKind,
    pub upcast: Option<Seq<char>>,
    pub downcast_from: Seq<Seq<char>>,
    pub instantiable: bool,
}

impl DeepView for Traits {
    type V = TraitsView;

    open spec fn deep_view(&self) -> TraitsView {
        TraitsView {
            memory: self.memory,
            upcast: self.upcast.deep_view(),
            downcast_from: self.downcast_from.deep_view(),
            instantiable: self.instantiable,
        }
    }
}

/// The target of the upcast of `class`: its base class, if it has one.
pub open spec fn upcast_target(class: ClassView) -> Option<Seq<char>> {
    if class.base_class.len() > 0 {
        Some(class.base_class)
    } else {
        None
    }
}

/// The classes met on a walk of at most `fuel` steps up the base classes,
/// starting at the class called `base_class`.
pub open spec fn ancestors_within(api: ApiView, base_class: Seq<char>, fuel: nat) -> Seq<
    Seq<char>,
>
    decreases fuel,
{
    if fuel == 0 || !api.can_be_base(base_class) {
        Seq::empty()
    } else {
        seq![base_class] + ancestors_within(
            api,
            api.class_named(base_class).base_class,
            (fuel - 1) as nat,
        )
    }
}

/// The ancestors of `class` that the schema holds, nearest first.
pub open spec fn ancestors(api: ApiView, class: ClassView) -> Seq<Seq<char>> {
    ancestors_within(api, class.base_class, api.classes.len())
}

/// The behaviour of `class`.
pub open spec fn traits(api: ApiView, class: ClassView) -> TraitsView {
    TraitsView {
        memory: memory_kind(api, class),
        upcast: upcast_target(class),
        downcast_from: ancestors(api, class),
        instantiable: class.instantiable,
    }
}

/// The ancestors of a class are the classes that the walk up its base
/// classes meets, in that order, so the class inherits from each of them.
pub proof fn lemma_ancestors_inherited(api: ApiView, base_class: Seq<char>, fuel: nat, k: int)
    requires
        0 <= k < ancestors_within(api, base_class, fuel).len(),
    ensures
        api.ancestor_name(base_class, k as nat) == Some(
            ancestors_within(api, base_class, fuel)[k],
        ),
        api.can_be_base(ancestors_within(api, base_class, fuel)[k]),
    decreases fuel,
{
    if k > 0 {
        let next = api.class_named(base_class).base_class;
        lemma_ancestors_inherited(api, next, (fuel - 1) as nat, k - 1);
        lemma_walk_from_base(api, base_class, (k - 1) as nat);
    }
}

/// A walk from a class is a step to its base class and a walk from there.
proof fn lemma_walk_from_base(api: ApiView, start: Seq<char>, steps: nat)
    requires
        api.can_be_base(start),
    ensures
        api.ancestor_name(start, steps + 1) == api.ancestor_name(
            api.class_named(start).base_class,
            steps,
        ),
    decreases steps,
{
    assert(((steps + 1) - 1) as nat == steps);
    if steps > 0 {
        lemma_walk_from_base(api, start, (steps - 1) as nat);
        assert(((steps - 1) + 1) as nat == steps);
    } else {
        assert(api.ancestor_name(start, 0) == Some(start));
    }
}

/// A walk that meets a class twice never comes to the empty name, where a
/// line of base classes ends.
proof fn lemma_circle_has_no_end(api: ApiView, start: Seq<char>, p: nat, q: nat, end: nat)
    requires
        p < q,
        api.ancestor_name(start, p) == api.ancestor_name(start, q),
        api.ancestor_name(start, p) matches Some(name) && api.can_be_base(name),
    ensures
        api.ancestor_name(start, end) != Some(Seq::<char>::empty()),
    decreases end,
{
    if api.ancestor_name(start, end) == Some(Seq::<char>::empty()) {
        if end < q {
            if end != p {
                lemma_walk_ends(api, start, end, q);
            }
        } else if end > q {
            lemma_walk_repeats(api, start, p, q, (end - q) as nat);
            assert(q + (end - q) as nat == end);
            lemma_circle_has_no_end(api, start, p, q, p + (end - q) as nat);
        }
    }
}

/// Where the base classes above a class come to an end, as they do above
/// every class of a consistent schema, no class is an ancestor twice.
pub proof fn lemma_ancestors_distinct(api: ApiView, class: ClassView)
    requires
        api.rooted(class),
    ensures
        ancestors(api, class).no_duplicates(),
{
    let line = ancestors(api, class);
    let end = choose|steps: nat| #[trigger]
        api.ancestor_name(class.base_class, steps) == Some(Seq::<char>::empty());
    assert forall|i: int, j: int| 0 <= i < line.len() && 0 <= j < line.len() && i != j implies line[i]
        != line[j] by {
        lemma_ancestors_inherited(api, class.base_class, api.classes.len(), i);
        lemma_ancestors_inherited(api, class.base_class, api.classes.len(), j);
        if line[i] == line[j] {
            if i < j {
                lemma_circle_has_no_end(api, class.base_class, i as nat, j as nat, end);
            } else {
                lemma_circle_has_no_end(api, class.base_class, j as nat, i as nat, end);
            }
        }
    }
}

/// Names the class to which handles of `class` convert without a check.
pub fn generate_deref_impl(class: &GodotClass) -> (out: Option<String>)
    ensures
        out.deep_view() == upcast_target(class.deep_view()),
{
    if class.base_class.as_str().is_empty() {
        None
    } else {
        Some(class.base_class.clone())
    }
}

/// Lists the ancestors of `class`, nearest first.
pub fn generate_downcasts(api: &Api, class: &GodotClass) -> (out: Vec<String>)
    ensures
        out.deep_view() == ancestors(api.deep_view(), class.deep_view()),
{
    let ghost view = api.deep_view();
    let mut out: Vec<String> = Vec::new();
    let mut fuel = api.classes().len();
    let mut current = class.base_class.clone();
    assert(out.deep_view() =~= Seq::<Seq<char>>::empty());
    assert(Seq::<Seq<char>>::empty() + ancestors_within(view, current@, fuel as nat)
        =~= ancestors_within(view, current@, fuel as nat));
    while fuel > 0
        invariant
            view == api.deep_view(),
            ancestors(view, class.deep_view()) == out.deep_view() + ancestors_within(
                view,
                current@,
                fuel as nat,
            ),
        decreases fuel,
    {
        let ghost before = out.deep_view();
        let ghost here = current@;
        let parent = if current.as_str().is_empty() {
            None
        } else {
            api.find_class(current.as_str())
        };
        match parent {
            None => {
                assert(before + Seq::<Seq<char>>::empty() =~= before);
                return out;
            },
            Some(parent) => {
                out.push(current);
                current = parent.base_class.clone();
            },
        }
        fuel -= 1;
        assert(out.deep_view() =~= before.push(here));
        assert(before + (seq![here] + ancestors_within(view, current@, fuel as nat))
            =~= before.push(here) + ancestors_within(view, current@, fuel as nat));
    }
    assert(out.deep_view() + Seq::<Seq<char>>::empty() =~= out.deep_view());
    out
}

/// Describes the behaviour of `class`.
pub fn generate_traits(api: &Api, class: &GodotClass) -> (out: Traits)
    ensures
        out.deep_view() == traits(api.deep_view(), class.deep_view()),
{
    Traits {
        memory: memory_kind_of(api, class),
        upcast: generate_deref_impl(class),
        downcast_from: generate_downcasts(api, class),
        instantiable: class.instantiable,
    }
}

} // verus!
