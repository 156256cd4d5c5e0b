//! The closed-world rule of the schema: every class that is referred to, as a
//! base class or in a method signature, is a class of the schema, exactly one
//! class has no base class, and the base classes form a tree below it.

use crate::api::{
    is_class_type, names_class, Api, ApiView, ArgumentView, ClassView, GodotClass, MethodView,
    SchemaError, SchemaErrorView,
};
use vstd::prelude::*;
use vstd::string::*;

verus! {

/// A place where a class refers to another class by name.
#[derive(Clone, Debug, PartialEq, Eq)]
pub struct Reference {
    /// The method whose signature holds the reference; `None` where the
    /// reference is the base class.
    pub method: Option<String>,
    /// The class referred to.
    pub class: String,
}

/// The value of a [`Reference`] in contracts.
pub struct ReferenceView {
    pub method: Option<Seq<char>>,
    pub class: Seq<char>,
}

impl DeepView for Reference {
    type V = ReferenceView;

    open spec fn deep_view(&self) -> ReferenceView {
        ReferenceView { method: self.method.deep_view(), class: self.class@ }
    }
}

/// The reference that a class makes to its base class, if it has one.
pub open spec fn base_reference(class: ClassView) -> Seq<ReferenceView> {
    if class.base_class.len() > 0 {
        seq![ReferenceView { method: None, class: class.base_class }]
    } else {
        Seq::empty()
    }
}

/// The reference that the return type of `method` makes, if it is a class.
pub open spec fn return_reference(method: MethodView) -> Seq<ReferenceView> {
    if names_class(method.return_type) {
        seq![ReferenceView { method: Some(method.name), class: method.return_type }]
    } else {
        Seq::empty()
    }
}

/// The reference that an argument of the method called `method` makes, if its
/// type is a class.
pub open spec fn argument_reference(method: Seq<char>) -> spec_fn(ArgumentView) -> Option<
    ReferenceView,
> {
    |a: ArgumentView|
        if names_class(a.ty) {
            Some(ReferenceView { method: Some(method), class: a.ty })
        } else {
            None
        }
}

/// The classes that the signature of `method` refers to: the return type
/// first, then the arguments in order. Built-in value types, enums and `void`
/// refer to no class.
pub open spec fn method_references(method: MethodView) -> Seq<ReferenceView> {
    return_reference(method) + method.arguments.filter_map(argument_reference(method.name))
}

/// The references of `class` that its base class and its first `k` methods make.
pub open spec fn references_upto(class: ClassView, k: nat) -> Seq<ReferenceView>
    decreases k,
{
    if k == 0 {
        base_reference(class)
    } else {
        references_upto(class, (k - 1) as nat) + method_references(class.methods[k - 1])
    }
}

/// Every reference that `class` makes to a class: its base class, then the
/// signatures of its methods in order.
pub open spec fn class_references(class: ClassView) -> Seq<ReferenceView> {
    references_upto(class, class.methods.len())
}

/// The first of `refs` that names a class which `api` does not hold.
pub open spec fn first_dangling(api: ApiView, refs: Seq<ReferenceView>) -> Option<ReferenceView>
    decreases refs.len(),
{
    if refs.len() == 0 {
        None
    } else if !api.has_class(refs[0].class) {
        Some(refs[0])
    } else {
        first_dangling(api, refs.skip(1))
    }
}

/// The first dangling reference of a list is that of its first part, or else
/// that of the rest.
pub proof fn lemma_dangling_concat(api: ApiView, a: Seq<ReferenceView>, b: Seq<ReferenceView>)
    ensures
        first_dangling(api, a + b) == (match first_dangling(api, a) {
            Some(r) => Some(r),
            None => first_dangling(api, b),
        }),
    decreases a.len(),
{
    if a.len() == 0 {
        assert(a + b =~= b);
    } else {
        assert((a + b).skip(1) =~= a.skip(1) + b);
        lemma_dangling_concat(api, a.skip(1), b);
    }
}

/// A single reference dangles exactly when the schema lacks its class.
pub proof fn lemma_dangling_single(api: ApiView, r: ReferenceView)
    ensures
        first_dangling(api, seq![r]) == (if api.has_class(r.class) {
            None
        } else {
            Some(r)
        }),
        first_dangling(api, Seq::empty()) is None,
{
    assert(seq![r].skip(1) =~= Seq::empty());
    assert(first_dangling(api, seq![r].skip(1)) is None);
}

/// The error that reports the dangling reference `r` of the class `class`.
pub open spec fn reference_error(class: Seq<char>, r: ReferenceView) -> SchemaErrorView {
    match r.method {
        None => SchemaErrorView::UnknownBaseClass { class, base: r.class },
        Some(method) => SchemaErrorView::UnknownClass { class, method, referenced: r.class },
    }
}

/// What is wrong with the references of `class`, if anything: its first
/// reference to a class that `api` does not hold.
pub open spec fn class_error(api: ApiView, class: ClassView) -> Option<SchemaErrorView> {
    match first_dangling(api, class_references(class)) {
        Some(r) => Some(reference_error(class.name, r)),
        None => None,
    }
}

/// What keeps `class` from being bound, if anything: its first dangling
/// reference, or else base classes that do not lead to a root.
pub open spec fn class_fault(api: ApiView, class: ClassView) -> Option<SchemaErrorView> {
    match class_error(api, class) {
        Some(e) => Some(e),
        None => if api.rooted(class) {
            None
        } else {
            Some(SchemaErrorView::Unrooted { class: class.name })
        },
    }
}

/// The error of the first among the first `k` classes of `api` that has one.
pub open spec fn first_class_error(api: ApiView, k: nat) -> Option<SchemaErrorView>
    decreases k,
{
    if k == 0 {
        None
    } else {
        match first_class_error(api, (k - 1) as nat) {
            Some(e) => Some(e),
            None => class_error(api, api.classes[k - 1]),
        }
    }
}

/// The name of a class, if the class has no base class.
pub open spec fn root_name() -> spec_fn(ClassView) -> Option<Seq<char>> {
    |c: ClassView|
        if c.base_class.len() == 0 {
            Some(c.name)
        } else {
            None
        }
}

/// The names of the classes that have no base class, in schema order.
pub open spec fn roots(classes: Seq<ClassView>) -> Seq<Seq<char>> {
    classes.filter_map(root_name())
}

/// What is wrong with the roots of the schema, if anything: there is none, or
/// there are two.
pub open spec fn root_error(classes: Seq<ClassView>) -> Option<SchemaErrorView> {
    let r = roots(classes);
    if r.len() == 0 {
        Some(SchemaErrorView::MissingRoot)
    } else if r.len() >= 2 {
        Some(SchemaErrorView::SecondRoot { first: r[0], second: r[1] })
    } else {
        None
    }
}

/// The first dangling reference of `api` in schema order, if there is one.
pub open spec fn dangling_error(api: ApiView) -> Option<SchemaErrorView> {
    first_class_error(api, api.classes.len())
}

/// Whether every class that `api` refers to is a class of `api`.
pub open spec fn closed_world(api: ApiView) -> bool {
    dangling_error(api) is None
}

/// The first among the first `k` classes of `api` whose line of base classes
/// does not end, if there is one.
pub open spec fn first_unrooted(api: ApiView, k: nat) -> Option<SchemaErrorView>
    decreases k,
{
    if k == 0 {
        None
    } else {
        match first_unrooted(api, (k - 1) as nat) {
            Some(e) => Some(e),
            None => if api.rooted(api.classes[k - 1]) {
                None
            } else {
                Some(SchemaErrorView::Unrooted { class: api.classes[k - 1].name })
            },
        }
    }
}

/// What is wrong with the lines of base classes, if anything: the first
/// class, in schema order, above which they run in a circle. This includes a
/// class that is its own base class.
pub open spec fn cycle_error(api: ApiView) -> Option<SchemaErrorView> {
    first_unrooted(api, api.classes.len())
}

/// What makes `api` inconsistent, if anything: the first dangling reference in
/// schema order, or else a wrong number of roots, or else the first class
/// whose base classes run in a circle.
pub open spec fn schema_error(api: ApiView) -> Option<SchemaErrorView> {
    match dangling_error(api) {
        Some(e) => Some(e),
        None => match root_error(api.classes) {
            Some(e) => Some(e),
            None => cycle_error(api),
        },
    }
}

/// In a consistent schema the base classes above every class come to the
/// root: they form a tree. Nothing keeps a class of such a schema from being
/// bound.
pub proof fn lemma_consistent_rooted(api: ApiView, i: int)
    requires
        consistent(api),
        0 <= i < api.classes.len(),
    ensures
        api.rooted(api.classes[i]),
        class_fault(api, api.classes[i]) is None,
{
    lemma_all_rooted(api, api.classes.len(), i);
    lemma_closed_world_class(api, i);
}

proof fn lemma_all_rooted(api: ApiView, k: nat, i: int)
    requires
        first_unrooted(api, k) is None,
        0 <= i < k,
    ensures
        api.rooted(api.classes[i]),
    decreases k,
{
    if i < k - 1 {
        lemma_all_rooted(api, (k - 1) as nat, i);
    }
}

/// A class of the first `k` whose base classes run in a circle decides the
/// error of any longer prefix.
proof fn lemma_first_unrooted_extends(api: ApiView, k: nat, n: nat)
    requires
        first_unrooted(api, k) is Some,
        k <= n,
    ensures
        first_unrooted(api, n) == first_unrooted(api, k),
    decreases n,
{
    if k < n {
        lemma_first_unrooted_extends(api, k, (n - 1) as nat);
    }
}

/// Whether `api` is a closed world with a single root, below which the base
/// classes form a tree.
pub open spec fn consistent(api: ApiView) -> bool {
    schema_error(api) is None
}

/// In a closed world no class has a dangling reference.
pub proof fn lemma_closed_world_class(api: ApiView, i: int)
    requires
        closed_world(api),
        0 <= i < api.classes.len(),
    ensures
        class_error(api, api.classes[i]) is None,
{
    lemma_no_class_error(api, api.classes.len(), i);
}

proof fn lemma_no_class_error(api: ApiView, k: nat, i: int)
    requires
        first_class_error(api, k) is None,
        0 <= i < k,
    ensures
        class_error(api, api.classes[i]) is None,
    decreases k,
{
    if i < k - 1 {
        lemma_no_class_error(api, (k - 1) as nat, i);
    }
}

/// Where no reference dangles, each of them names a class of the schema.
pub proof fn lemma_references_resolve(api: ApiView, refs: Seq<ReferenceView>, k: int)
    requires
        first_dangling(api, refs) is None,
        0 <= k < refs.len(),
    ensures
        api.has_class(refs[k].class),
    decreases refs.len(),
{
    if k > 0 {
        lemma_references_resolve(api, refs.skip(1), k - 1);
    }
}

/// Lists every reference that `class` makes to a class.
pub fn collect_references(class: &GodotClass) -> (out: Vec<Reference>)
    ensures
        out.deep_view() == class_references(class.deep_view()),
{
    let ghost c = class.deep_view();
    let mut out: Vec<Reference> = Vec::new();
    if !class.base_class.as_str().is_empty() {
        out.push(Reference { method: None, class: class.base_class.clone() });
    }
    assert(out.deep_view() =~= base_reference(c));
    let mut m: usize = 0;
    while m < class.methods.len()
        invariant
            m <= class.methods.len(),
            c == class.deep_view(),
            out.deep_view() == references_upto(c, m as nat),
        decreases class.methods.len() - m,
    {
        let method = &class.methods[m];
        let ghost mv = method.deep_view();
        let ghost before = out.deep_view();
        assert(c.methods[m as int] == mv);
        if is_class_type(method.return_type.as_str()) {
            out.push(
                Reference {
                    method: Some(method.name.clone()),
                    class: method.return_type.clone(),
                },
            );
        }
        assert(out.deep_view() =~= before + return_reference(mv));
        let mut a: usize = 0;
        assert(mv.arguments.take(0).filter_map(argument_reference(mv.name)) =~= Seq::empty());
        while a < method.arguments.len()
            invariant
                a <= method.arguments.len(),
                mv == method.deep_view(),
                out.deep_view() == before + return_reference(mv) + mv.arguments.take(
                    a as int,
                ).filter_map(argument_reference(mv.name)),
            decreases method.arguments.len() - a,
        {
            let argument = &method.arguments[a];
            let ghost prev = out.deep_view();
            assert(mv.arguments[a as int] == argument.deep_view());
            proof {
                mv.arguments.lemma_filter_map_take_succ(argument_reference(mv.name), a as int);
            }
            if is_class_type(argument.ty.as_str()) {
                out.push(
                    Reference { method: Some(method.name.clone()), class: argument.ty.clone() },
                );
                assert(out.deep_view() =~= prev.push(
                    ReferenceView { method: Some(mv.name), class: argument.ty@ },
                ));
            }
            assert(out.deep_view() =~= before + return_reference(mv) + mv.arguments.take(
                a as int + 1,
            ).filter_map(argument_reference(mv.name)));
            a += 1;
        }
        assert(mv.arguments.take(mv.arguments.len() as int) =~= mv.arguments);
        assert(out.deep_view() =~= before + method_references(mv));
        m += 1;
    }
    out
}

/// Copies a reference into the error that reports it for the class `class`.
fn error_for(class: &String, r: &Reference) -> (e: SchemaError)
    ensures
        e.deep_view() == reference_error(class@, r.deep_view()),
{
    match &r.method {
        None => SchemaError::UnknownBaseClass { class: class.clone(), base: r.class.clone() },
        Some(method) => SchemaError::UnknownClass {
            class: class.clone(),
            method: method.clone(),
            referenced: r.class.clone(),
        },
    }
}

/// Checks the references of one class against the schema.
pub fn check_class(api: &Api, class: &GodotClass) -> (r: Result<(), SchemaError>)
    ensures
        match r {
            Ok(_) => class_error(api.deep_view(), class.deep_view()) is None,
            Err(e) => class_error(api.deep_view(), class.deep_view()) == Some(e.deep_view()),
        },
{
    let refs = collect_references(class);
    let ghost all = refs.deep_view();
    let mut k: usize = 0;
    assert(all.skip(0) =~= all);
    while k < refs.len()
        invariant
            k <= refs.len(),
            all == refs.deep_view(),
            all == class_references(class.deep_view()),
            first_dangling(api.deep_view(), all) == first_dangling(
                api.deep_view(),
                all.skip(k as int),
            ),
        decreases refs.len() - k,
    {
        assert(all.skip(k as int)[0] == refs@[k as int].deep_view());
        assert(all.skip(k as int).skip(1) =~= all.skip(k as int + 1));
        if api.find_index(refs[k].class.as_str()).is_none() {
            assert(first_dangling(api.deep_view(), all.skip(k as int)) == Some(all[k as int]));
            return Err(error_for(&class.name, &refs[k]));
        }
        k += 1;
    }
    Ok(())
}

/// Checks that the schema is a closed world. The error is that of the first
/// class, in schema order, with a dangling reference, and within the class
/// that of its first such reference.
pub fn check_references(api: &Api) -> (r: Result<(), SchemaError>)
    ensures
        match r {
            Ok(_) => closed_world(api.deep_view()),
            Err(e) => dangling_error(api.deep_view()) == Some(e.deep_view()),
        },
{
    let ghost view = api.deep_view();
    let classes = api.classes();
    let mut i: usize = 0;
    while i < classes.len()
        invariant
            i <= classes.len(),
            view == api.deep_view(),
            classes.deep_view() == view.classes,
            first_class_error(view, i as nat) is None,
        decreases classes.len() - i,
    {
        assert(view.classes[i as int] == classes@[i as int].deep_view());
        match check_class(api, &classes[i]) {
            Ok(_) => {},
            Err(e) => {
                proof {
                    lemma_first_class_error_extends(view, (i + 1) as nat, view.classes.len());
                }
                return Err(e);
            },
        }
        i += 1;
    }
    Ok(())
}

/// Checks that the schema is a closed world with a single root, below which
/// the base classes form a tree. A dangling reference is reported before a
/// wrong number of roots, and that before base classes that run in a circle.
pub fn check_schema(api: &Api) -> (r: Result<(), SchemaError>)
    ensures
        match r {
            Ok(_) => consistent(api.deep_view()),
            Err(e) => schema_error(api.deep_view()) == Some(e.deep_view()),
        },
{
    let ghost view = api.deep_view();
    match check_references(api) {
        Err(e) => {
            return Err(e);
        },
        Ok(_) => {},
    }
    let classes = api.classes();
    let mut first: Option<usize> = None;
    let mut j: usize = 0;
    assert(view.classes.take(0) =~= Seq::empty());
    while j < classes.len()
        invariant
            j <= classes.len(),
            view == api.deep_view(),
            classes.deep_view() == view.classes,
            first_class_error(view, view.classes.len()) is None,
            match first {
                None => roots(view.classes.take(j as int)).len() == 0,
                Some(f) => f < j && roots(view.classes.take(j as int)) == seq![
                    view.classes[f as int].name,
                ],
            },
        decreases classes.len() - j,
    {
        assert(view.classes[j as int] == classes@[j as int].deep_view());
        proof {
            view.classes.lemma_filter_map_take_succ(root_name(), j as int);
        }
        if classes[j].base_class.as_str().is_empty() {
            match first {
                None => {
                    first = Some(j);
                },
                Some(f) => {
                    assert(view.classes[f as int] == classes@[f as int].deep_view());
                    proof {
                        lemma_roots_prefix(view.classes, j as int + 1);
                    }
                    return Err(
                        SchemaError::SecondRoot {
                            first: classes[f].name.clone(),
                            second: classes[j].name.clone(),
                        },
                    );
                },
            }
        }
        j += 1;
    }
    assert(view.classes.take(view.classes.len() as int) =~= view.classes);
    if first.is_none() {
        return Err(SchemaError::MissingRoot);
    }
    let mut k: usize = 0;
    while k < classes.len()
        invariant
            k <= classes.len(),
            view == api.deep_view(),
            classes.deep_view() == view.classes,
            dangling_error(view) is None,
            root_error(view.classes) is None,
            first_unrooted(view, k as nat) is None,
        decreases classes.len() - k,
    {
        assert(view.classes[k as int] == classes@[k as int].deep_view());
        if !api.is_rooted(&classes[k]) {
            proof {
                lemma_first_unrooted_extends(view, (k + 1) as nat, view.classes.len());
            }
            return Err(SchemaError::Unrooted { class: classes[k].name.clone() });
        }
        k += 1;
    }
    Ok(())
}

/// An error found among the first `k` classes is the error of any longer prefix.
proof fn lemma_first_class_error_extends(api: ApiView, k: nat, n: nat)
    requires
        first_class_error(api, k) is Some,
        k <= n,
    ensures
        first_class_error(api, n) == first_class_error(api, k),
    decreases n,
{
    if k < n {
        lemma_first_class_error_extends(api, k, (n - 1) as nat);
    }
}

/// The roots of a prefix of the schema open the roots of the whole schema.
proof fn lemma_roots_prefix(classes: Seq<ClassView>, k: int)
    requires
        0 <= k <= classes.len(),
    ensures
        roots(classes.take(k)).len() <= roots(classes).len(),
        forall|i: int|
            0 <= i < roots(classes.take(k)).len() ==> roots(classes.take(k))[i] == roots(classes)[i],
    decreases classes.len() - k,
{
    if k < classes.len() {
        classes.lemma_filter_map_take_succ(root_name(), k);
        lemma_roots_prefix(classes, k + 1);
    } else {
        assert(classes.take(k) =~= classes);
    }
}

} // verus!
