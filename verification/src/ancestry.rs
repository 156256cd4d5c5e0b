//! The line of base classes above a class, and what a class has from it.

use crate::api::{Api, ApiView, ClassView, GodotClass};
use crate::text::str_eq;
use vstd::prelude::*;
use vstd::set_lib::{lemma_int_range, lemma_len_subset, set_int_range};
use vstd::string::*;

verus! {

impl ApiView {
    /// Whether `name` can be a base class: it is the name of a class of the
    /// schema. The empty name never is, since it stands for "no base class".
    pub open spec fn can_be_base(self, name: Seq<char>) -> bool {
        name.len() > 0 && self.has_class(name)
    }

    /// The name met after `steps` steps up the base classes, starting at the
    /// name `start`: a step leads from a class of the schema to the name of
    /// its base class. There is no step from a name that cannot be a base
    /// class, so the walk ends at the empty name above a root, and at a name
    /// that the schema does not hold.
    pub open spec fn ancestor_name(self, start: Seq<char>, steps: nat) -> Option<Seq<char>>
        decreases steps,
    {
        if steps == 0 {
            Some(start)
        } else {
            match self.ancestor_name(start, (steps - 1) as nat) {
                Some(name) => if self.can_be_base(name) {
                    Some(self.class_named(name).base_class)
                } else {
                    None
                },
                None => None,
            }
        }
    }

    /// Whether some number of steps up from the name `start` meets `target`.
    pub open spec fn walk_meets(self, start: Seq<char>, target: Seq<char>) -> bool {
        exists|steps: nat| #[trigger] self.ancestor_name(start, steps) == Some(target)
    }

    /// Whether `target` is the base class of `class` or of one of its
    /// ancestors: `target` is a class of the schema, and some number of steps
    /// up from the base class of `class` meets it.
    pub open spec fn inherits(self, class: ClassView, target: Seq<char>) -> bool {
        self.can_be_base(target) && self.walk_meets(class.base_class, target)
    }

    /// Whether the line of base classes above `class` ends: the walk up from
    /// its base class comes to a class without a base class, or `class` has
    /// none itself. A line that does not end runs in a circle.
    pub open spec fn rooted(self, class: ClassView) -> bool {
        self.walk_meets(class.base_class, Seq::empty())
    }

    /// Whether instances of `class` are reference counted: the class is the
    /// engine's reference-counting base, or descends from it.
    pub open spec fn is_refcounted(self, class: ClassView) -> bool {
        class.name == "Reference"@ || self.inherits(class, "Reference"@)
    }

    /// Whether a handle to `class` may be held across calls: the engine keeps
    /// the object alive for a counted reference, and for a singleton.
    pub open spec fn is_pointer_safe(self, class: ClassView) -> bool {
        self.is_refcounted(class) || class.singleton
    }
}

/// Up to a name that the walk reaches, every name is a class of the schema.
pub proof fn lemma_walk_prefix(api: ApiView, start: Seq<char>, steps: nat, earlier: nat)
    requires
        api.ancestor_name(start, steps) is Some,
        earlier < steps,
    ensures
        api.ancestor_name(start, earlier) is Some,
        api.can_be_base(api.ancestor_name(start, earlier)->0),
    decreases steps,
{
    if earlier + 1 < steps {
        lemma_walk_prefix(api, start, (steps - 1) as nat, earlier);
    }
}

/// Past a name that cannot be a base class the walk meets nothing.
pub proof fn lemma_walk_ends(api: ApiView, start: Seq<char>, end: nat, later: nat)
    requires
        api.ancestor_name(start, end) matches Some(name) ==> !api.can_be_base(name),
        end < later,
    ensures
        api.ancestor_name(start, later) is None,
    decreases later,
{
    if end + 1 < later {
        lemma_walk_ends(api, start, end, (later - 1) as nat);
    }
}

/// Two walks of the same line that meet once stay together.
pub proof fn lemma_walk_repeats(api: ApiView, start: Seq<char>, p: nat, q: nat, further: nat)
    requires
        api.ancestor_name(start, p) == api.ancestor_name(start, q),
    ensures
        api.ancestor_name(start, p + further) == api.ancestor_name(start, q + further),
    decreases further,
{
    if further > 0 {
        lemma_walk_repeats(api, start, p, q, (further - 1) as nat);
    }
}

/// A walk that is longer than the schema has classes meets a name twice.
pub proof fn lemma_walk_meets_twice(api: ApiView, start: Seq<char>) -> (r: (nat, nat))
    requires
        api.ancestor_name(start, api.classes.len() + 1) is Some,
    ensures
        r.0 < r.1 <= api.classes.len(),
        api.ancestor_name(start, r.0) == api.ancestor_name(start, r.1),
{
    let n = api.classes.len();
    let positions = Seq::new(n + 1, |j: int| api.index_of(api.ancestor_name(start, j as nat)->0));
    assert forall|j: int| 0 <= j <= n implies 0 <= #[trigger] positions[j] < n
        && api.classes[positions[j]].name == api.ancestor_name(start, j as nat)->0
        && api.ancestor_name(start, j as nat) is Some by {
        lemma_walk_prefix(api, start, n + 1, j as nat);
    }
    if positions.no_duplicates() {
        positions.unique_seq_to_set();
        lemma_int_range(0, n as int);
        assert forall|x: int| positions.to_set().contains(x) implies set_int_range(
            0,
            n as int,
        ).contains(x) by {
            let j = choose|j: int| 0 <= j < positions.len() && positions[j] == x;
            assert(0 <= positions[j] < n);
        }
        lemma_len_subset(positions.to_set(), set_int_range(0, n as int));
        assert(false);
    }
    let (i, j) = choose|i: int, j: int|
        0 <= i < positions.len() && 0 <= j < positions.len() && i != j && positions[i]
            == positions[j];
    assert(api.classes[positions[i]].name == api.ancestor_name(start, i as nat)->0);
    assert(api.classes[positions[j]].name == api.ancestor_name(start, j as nat)->0);
    if i < j {
        (i as nat, j as nat)
    } else {
        (j as nat, i as nat)
    }
}

/// Whatever a walk up the base classes meets, it meets within as many steps
/// as the schema has classes: a longer walk only goes round a cycle.
pub proof fn lemma_walk_bound(api: ApiView, start: Seq<char>, target: Seq<char>, steps: nat)
    requires
        api.ancestor_name(start, steps) == Some(target),
    ensures
        exists|within: nat|
            within <= api.classes.len() && #[trigger] api.ancestor_name(start, within) == Some(
                target,
            ),
    decreases steps,
{
    let n = api.classes.len();
    if steps > n {
        if steps > n + 1 {
            lemma_walk_prefix(api, start, steps, n + 1);
        }
        let (p, q) = lemma_walk_meets_twice(api, start);
        let shorter = (steps - (q - p)) as nat;
        lemma_walk_repeats(api, start, p, q, (steps - q) as nat);
        assert(p + (steps - q) as nat == shorter);
        assert(q + (steps - q) as nat == steps);
        lemma_walk_bound(api, start, target, shorter);
    }
}

impl Api {
    /// Tells whether a walk up the base classes that starts at the name
    /// `start` meets the name `target`.
    pub fn walk_meets(&self, start: &str, target: &str) -> (r: bool)
        ensures
            r == self.deep_view().walk_meets(start@, target@),
    {
        let ghost api = self.deep_view();
        let limit = self.classes().len();
        let mut steps: usize = 0;
        let mut current = String::from_str(start);
        while steps < limit
            invariant
                steps <= limit,
                limit == api.classes.len(),
                api == self.deep_view(),
                api.ancestor_name(start@, steps as nat) == Some(current@),
                forall|j: nat|
                    j < steps ==> #[trigger] api.ancestor_name(start@, j) != Some(target@),
            decreases limit - steps,
        {
            if str_eq(current.as_str(), target) {
                return true;
            }
            let parent = if current.as_str().is_empty() {
                None
            } else {
                self.find_class(current.as_str())
            };
            match parent {
                Some(parent) => {
                    current = parent.base_class.clone();
                },
                None => {
                    proof {
                        assert forall|j: nat| #[trigger]
                            api.ancestor_name(start@, j) != Some(target@) by {
                            if j > steps {
                                lemma_walk_ends(api, start@, steps as nat, j);
                            }
                        }
                    }
                    return false;
                },
            }
            steps += 1;
        }
        let found = str_eq(current.as_str(), target);
        proof {
            if !found {
                assert forall|j: nat| #[trigger] api.ancestor_name(start@, j) != Some(target@) by {
                    if api.ancestor_name(start@, j) == Some(target@) {
                        lemma_walk_bound(api, start@, target@, j);
                    }
                }
            }
        }
        found
    }

    /// Tells whether `base_class_name` is the base class of `class` or of one
    /// of its ancestors. A name that is no class of the schema is nobody's
    /// ancestor.
    pub fn class_inherits(&self, class: &GodotClass, base_class_name: &str) -> (r: bool)
        ensures
            r == self.deep_view().inherits(class.deep_view(), base_class_name@),
    {
        !base_class_name.is_empty() && self.find_index(base_class_name).is_some()
            && self.walk_meets(class.base_class.as_str(), base_class_name)
    }

    /// Tells whether the line of base classes above `class` ends.
    pub fn is_rooted(&self, class: &GodotClass) -> (r: bool)
        ensures
            r == self.deep_view().rooted(class.deep_view()),
    {
        let nothing = String::new();
        self.walk_meets(class.base_class.as_str(), nothing.as_str())
    }

    /// Tells whether instances of `class` are reference counted.
    pub fn is_refcounted(&self, class: &GodotClass) -> (r: bool)
        ensures
            r == self.deep_view().is_refcounted(class.deep_view()),
    {
        str_eq(class.name.as_str(), "Reference") || self.class_inherits(class, "Reference")
    }

    /// Tells whether a handle to `class` may be held across calls.
    pub fn is_pointer_safe(&self, class: &GodotClass) -> (r: bool)
        ensures
            r == self.deep_view().is_pointer_safe(class.deep_view()),
    {
        class.singleton || self.is_refcounted(class)
    }
}

} // verus!
