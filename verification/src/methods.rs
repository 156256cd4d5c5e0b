//! Method signatures as the bindings expose them, and the table of native
//! function pointers through which the bindings call the engine.

use crate::api::{
    names_class, ty_of, Api, ApiView, ArgumentView, ClassView, GodotClass, GodotMethod,
    MethodView, SchemaError, Ty, TyView,
};
use crate::consistency::{
    argument_reference, first_dangling, lemma_dangling_concat, lemma_dangling_single,
    method_references, reference_error, return_reference, ReferenceView,
};
use crate::text::{snake_case, snake_case_of, str_eq};
use crate::{escaped, lemma_escape_marker, rust_safe_name, safe_name};
use vstd::prelude::*;
use vstd::string::*;

verus! {

/// How a value crosses the boundary between the bindings and the engine.
#[derive(Clone, Copy, PartialEq, Eq, Debug)]
pub enum PassMode {
    /// A plain value, copied.
    Value,
    /// A handle that the receiver owns and must release exactly once.
    Owned,
    /// A handle that is valid for the duration of the call only.
    Borrowed,
    /// A handle that shares ownership through the engine's reference count.
    RefCounted,
}

/// How values of the schema type `ty` travel. A class travels as a counted
/// reference exactly when it is reference counted; any other class travels
/// as an owned handle where the engine hands out a fresh instance (`fresh`),
/// and as a borrowed one otherwise. Everything else is a plain value.
pub open spec fn resolved_mode(api: ApiView, ty: Seq<char>, fresh: bool) -> PassMode {
    if names_class(ty) {
        if api.is_refcounted(api.class_named(ty)) {
            PassMode::RefCounted
        } else if fresh {
            PassMode::Owned
        } else {
            PassMode::Borrowed
        }
    } else {
        PassMode::Value
    }
}

/// One parameter of a bound method.
#[derive(Clone, Debug, PartialEq, Eq)]
pub struct ArgumentBinding {
    /// The parameter's name, escaped where it is a reserved word.
    pub name: String,
    pub ty: Ty,
    pub mode: PassMode,
    pub default_value: Option<String>,
}

/// The value of an [`ArgumentBinding`] in contracts.
pub struct ArgumentBindingView {
    pub name: Seq<char>,
    pub ty: TyView,
    pub mode: PassMode,
    pub default_value: Option<Seq<char>>,
}

impl DeepView for ArgumentBinding {
    type V = ArgumentBindingView;

    open spec fn deep_view(&self) -> ArgumentBindingView {
        ArgumentBindingView {
            name: self.name@,
            ty: self.ty.deep_view(),
            mode: self.mode,
            default_value: self.default_value.deep_view(),
        }
    }
}

/// The signature under which the bindings expose one method.
#[derive(Clone, Debug, PartialEq, Eq)]
pub struct MethodBinding {
    /// The name of the method in the bindings.
    pub rust_name: String,
    /// The name under which the engine knows the method.
    pub wire_name: String,
    /// The name of the slot of the table through which the method is called.
    pub slot: String,
    pub arguments: Vec<ArgumentBinding>,
    pub return_type: Ty,
    pub return_mode: PassMode,
    pub is_virtual: bool,
    pub has_varargs: bool,
}

/// The value of a [`MethodBinding`] in contracts.
pub struct MethodBindingView {
    pub rust_name: Seq<char>,
    pub wire_name: Seq<char>,
    pub slot: Seq<char>,
    pub arguments: Seq<ArgumentBindingView>,
    pub return_type: TyView,
    pub return_mode: PassMode,
    pub is_virtual: bool,
    pub has_varargs: bool,
}

impl DeepView for MethodBinding {
    type V = MethodBindingView;

    open spec fn deep_view(&self) -> MethodBindingView {
        MethodBindingView {
            rust_name: self.rust_name@,
            wire_name: self.wire_name@,
            slot: self.slot@,
            arguments: self.arguments.deep_view(),
            return_type: self.return_type.deep_view(),
            return_mode: self.return_mode,
            is_virtual: self.is_virtual,
            has_varargs: self.has_varargs,
        }
    }
}

/// Whether the method called `name` is kept out of the bindings. Only the
/// engine's destructor is: an object is released through its memory
/// management, never by a call of that method, so that it cannot be released
/// twice.
pub open spec fn is_excluded(name: Seq<char>) -> bool {
    name == "free"@
}

/// The name of a method in the bindings, given the snake-case form of its
/// engine name.
pub open spec fn binding_name(snake: Seq<char>) -> Seq<char> {
    safe_name(snake)
}

/// The binding of one argument. Arguments are never handed over as owned.
pub open spec fn argument_binding(api: ApiView) -> spec_fn(ArgumentView) -> ArgumentBindingView {
    |a: ArgumentView|
        ArgumentBindingView {
            name: safe_name(a.name),
            ty: ty_of(a.ty),
            mode: resolved_mode(api, a.ty, false),
            default_value: a.default_value,
        }
}

/// The binding of `method`, a method of the class called `class_name`: its
/// name in snake case and escaped, its slot, each argument and the return
/// value with the way it travels.
pub open spec fn method_binding(
    api: ApiView,
    class_name: Seq<char>,
    method: MethodView,
) -> MethodBindingView {
    MethodBindingView {
        rust_name: binding_name(snake_case_of(method.name)),
        wire_name: method.name,
        slot: slot_field(class_name, method.name),
        arguments: method.arguments.map_values(argument_binding(api)),
        return_type: ty_of(method.return_type),
        return_mode: resolved_mode(api, method.return_type, method.returns_new_instance),
        is_virtual: method.is_virtual,
        has_varargs: method.has_varargs,
    }
}

/// The binding of a method of the class called `class_name`, if the
/// bindings expose the method. Every method but the excluded one gets a
/// method in the bindings and a slot in the table, virtual methods and
/// methods with variable arguments included.
pub open spec fn exposed_binding(api: ApiView, class_name: Seq<char>) -> spec_fn(
    MethodView,
) -> Option<MethodBindingView> {
    |m: MethodView|
        if is_excluded(m.name) {
            None
        } else {
            Some(method_binding(api, class_name, m))
        }
}

/// The bindings of the methods of `class`, in schema order, without the
/// excluded ones.
pub open spec fn method_bindings(api: ApiView, class: ClassView) -> Seq<MethodBindingView> {
    class.methods.filter_map(exposed_binding(api, class.name))
}

/// A dangling reference among the first `k` arguments is the first dangling
/// reference of the whole signature.
proof fn lemma_dangling_arguments(api: ApiView, method: MethodView, k: int, n: int)
    requires
        0 <= k <= n <= method.arguments.len(),
        first_dangling(
            api,
            return_reference(method) + method.arguments.take(k).filter_map(
                argument_reference(method.name),
            ),
        ) is Some,
    ensures
        first_dangling(
            api,
            return_reference(method) + method.arguments.take(n).filter_map(
                argument_reference(method.name),
            ),
        ) == first_dangling(
            api,
            return_reference(method) + method.arguments.take(k).filter_map(
                argument_reference(method.name),
            ),
        ),
    decreases n - k,
{
    if k < n {
        let f = argument_reference(method.name);
        let head = return_reference(method) + method.arguments.take(n - 1).filter_map(f);
        lemma_dangling_arguments(api, method, k, n - 1);
        method.arguments.lemma_filter_map_take_succ(f, n - 1);
        let last = match f(method.arguments[n - 1]) {
            Some(r) => seq![r],
            None => Seq::empty(),
        };
        assert(return_reference(method) + method.arguments.take(n).filter_map(f) =~= head + last);
        lemma_dangling_concat(api, head, last);
    }
}

/// Tells how values of the schema type `ty` travel, or `None` where `ty`
/// names a class that the schema does not hold.
pub fn resolve_type(api: &Api, ty: &str, fresh: bool) -> (r: Option<PassMode>)
    ensures
        match r {
            Some(mode) => {
                &&& names_class(ty@) ==> api.deep_view().has_class(ty@)
                &&& mode == resolved_mode(api.deep_view(), ty@, fresh)
            },
            None => names_class(ty@) && !api.deep_view().has_class(ty@),
        },
{
    if Ty::from_src(ty).is_object() {
        match api.find_class(ty) {
            None => None,
            Some(class) => {
                if api.is_refcounted(class) {
                    Some(PassMode::RefCounted)
                } else if fresh {
                    Some(PassMode::Owned)
                } else {
                    Some(PassMode::Borrowed)
                }
            },
        }
    } else {
        Some(PassMode::Value)
    }
}

fn clone_text(text: &Option<String>) -> (r: Option<String>)
    ensures
        r.deep_view() == text.deep_view(),
{
    match text {
        Some(s) => Some(s.clone()),
        None => None,
    }
}

/// Tells whether the bindings leave out the method called `name`.
pub fn is_excluded_method(name: &str) -> (r: bool)
    ensures
        r == is_excluded(name@),
{
    str_eq(name, "free")
}

/// Resolves the signature of `method`, a method of the class called
/// `class_name`, into its binding. Fails on the first type, the return type
/// before the arguments, that names a class which the schema does not hold.
pub fn resolve_method(api: &Api, class_name: &str, method: &GodotMethod) -> (r: Result<
    MethodBinding,
    SchemaError,
>)
    ensures
        match r {
            Ok(b) => {
                &&& first_dangling(api.deep_view(), method_references(method.deep_view())) is None
                &&& b.deep_view() == method_binding(
                    api.deep_view(),
                    class_name@,
                    method.deep_view(),
                )
            },
            Err(e) => {
                &&& first_dangling(
                    api.deep_view(),
                    method_references(method.deep_view()),
                ) matches Some(dangling)
                &&& e.deep_view() == reference_error(class_name@, dangling)
            },
        },
{
    let ghost view = api.deep_view();
    let ghost mv = method.deep_view();
    let ghost f = argument_reference(mv.name);
    let return_mode = match resolve_type(
        api,
        method.return_type.as_str(),
        method.returns_new_instance,
    ) {
        Some(mode) => mode,
        None => {
            proof {
                lemma_dangling_concat(view, return_reference(mv), mv.arguments.filter_map(f));
                lemma_dangling_single(
                    view,
                    ReferenceView { method: Some(mv.name), class: mv.return_type },
                );
            }
            return Err(
                SchemaError::UnknownClass {
                    class: String::from_str(class_name),
                    method: method.name.clone(),
                    referenced: method.return_type.clone(),
                },
            );
        },
    };
    let mut arguments: Vec<ArgumentBinding> = Vec::new();
    let mut a: usize = 0;
    proof {
        lemma_dangling_single(
            view,
            ReferenceView { method: Some(mv.name), class: mv.return_type },
        );
    }
    assert(mv.arguments.take(0).filter_map(f) =~= Seq::empty());
    assert(return_reference(mv) + Seq::empty() =~= return_reference(mv));
    assert(arguments.deep_view() =~= mv.arguments.take(0).map_values(argument_binding(view)));
    while a < method.arguments.len()
        invariant
            a <= method.arguments.len(),
            view == api.deep_view(),
            mv == method.deep_view(),
            f == argument_reference(mv.name),
            arguments.deep_view() == mv.arguments.take(a as int).map_values(
                argument_binding(view),
            ),
            first_dangling(view, return_reference(mv) + mv.arguments.take(a as int).filter_map(f))
                is None,
        decreases method.arguments.len() - a,
    {
        let argument = &method.arguments[a];
        let ghost av = argument.deep_view();
        let ghost head = return_reference(mv) + mv.arguments.take(a as int).filter_map(f);
        let ghost last = match f(av) {
            Some(r) => seq![r],
            None => Seq::empty(),
        };
        assert(mv.arguments[a as int] == av);
        proof {
            mv.arguments.lemma_filter_map_take_succ(f, a as int);
            assert(return_reference(mv) + mv.arguments.take(a as int + 1).filter_map(f) =~= head
                + last);
            lemma_dangling_concat(view, head, last);
            lemma_dangling_single(view, ReferenceView { method: Some(mv.name), class: av.ty });
        }
        let mode = match resolve_type(api, argument.ty.as_str(), false) {
            Some(mode) => mode,
            None => {
                proof {
                    lemma_dangling_arguments(
                        view,
                        mv,
                        a as int + 1,
                        mv.arguments.len() as int,
                    );
                    assert(mv.arguments.take(mv.arguments.len() as int) =~= mv.arguments);
                }
                return Err(
                    SchemaError::UnknownClass {
                        class: String::from_str(class_name),
                        method: method.name.clone(),
                        referenced: argument.ty.clone(),
                    },
                );
            },
        };
        let ghost before = arguments.deep_view();
        arguments.push(
            ArgumentBinding {
                name: rust_safe_name(argument.name.as_str()),
                ty: Ty::from_src(argument.ty.as_str()),
                mode,
                default_value: clone_text(&argument.default_value),
            },
        );
        assert(arguments.deep_view() =~= before.push(argument_binding(view)(av)));
        assert(mv.arguments.take(a as int + 1) =~= mv.arguments.take(a as int).push(av));
        assert(arguments.deep_view() =~= mv.arguments.take(a as int + 1).map_values(
            argument_binding(view),
        ));
        a += 1;
    }
    assert(mv.arguments.take(mv.arguments.len() as int) =~= mv.arguments);
    let snake = snake_case(method.name.as_str());
    Ok(
        MethodBinding {
            rust_name: rust_safe_name(snake.as_str()),
            wire_name: method.name.clone(),
            slot: concat3(class_name, "__", method.name.as_str()),
            arguments,
            return_type: Ty::from_src(method.return_type.as_str()),
            return_mode,
            is_virtual: method.is_virtual,
            has_varargs: method.has_varargs,
        },
    )
}

/// One slot of the table of native function pointers.
#[derive(Clone, Debug, PartialEq, Eq)]
pub struct TableSlot {
    /// The name of the slot in the table.
    pub field: String,
    /// The class name under which the engine is asked for the pointer.
    pub lookup_class: String,
    /// The engine name of the method that the slot holds; `None` for the slot
    /// of the class constructor.
    pub method: Option<String>,
}

/// The value of a [`TableSlot`] in contracts.
pub struct TableSlotView {
    pub field: Seq<char>,
    pub lookup_class: Seq<char>,
    pub method: Option<Seq<char>>,
}

impl DeepView for TableSlot {
    type V = TableSlotView;

    open spec fn deep_view(&self) -> TableSlotView {
        TableSlotView {
            field: self.field@,
            lookup_class: self.lookup_class@,
            method: self.method.deep_view(),
        }
    }
}

/// The name under which the engine is asked for the class called
/// `class_name`: the name itself, or its underscore-prefixed alias for the
/// classes that the engine registers under one. The alias is used for the
/// lookup and nowhere else.
pub open spec fn lookup_name(api: ApiView, class_name: Seq<char>) -> Seq<char> {
    if api.api_underscore.contains(class_name) {
        escaped(class_name)
    } else {
        class_name
    }
}

/// The name of the slot that the class called `class_name` has for `member`.
pub open spec fn slot_field(class_name: Seq<char>, member: Seq<char>) -> Seq<char> {
    class_name + "__"@ + member
}

/// The slot of the constructor of the class called `class_name`.
pub open spec fn constructor_slot(api: ApiView, class_name: Seq<char>) -> TableSlotView {
    TableSlotView {
        field: slot_field(class_name, "class_constructor"@),
        lookup_class: lookup_name(api, class_name),
        method: None,
    }
}

/// The slot of a method of the class called `class_name`, if the bindings
/// expose the method.
pub open spec fn method_slot(api: ApiView, class_name: Seq<char>) -> spec_fn(MethodView) -> Option<
    TableSlotView,
> {
    |m: MethodView|
        if is_excluded(m.name) {
            None
        } else {
            Some(
                TableSlotView {
                    field: slot_field(class_name, m.name),
                    lookup_class: lookup_name(api, class_name),
                    method: Some(m.name),
                },
            )
        }
}

/// The slots of `class`, in the order in which they are resolved: the
/// constructor first, then one slot for each exposed method, in schema order.
pub open spec fn table_slots(api: ApiView, class: ClassView) -> Seq<TableSlotView> {
    seq![constructor_slot(api, class.name)] + class.methods.filter_map(
        method_slot(api, class.name),
    )
}

/// A class has slots when there is anything to call: it can be constructed,
/// or it has methods.
pub open spec fn has_table(class: ClassView) -> bool {
    class.instantiable || class.methods.len() > 0
}

/// The methods of a class and the slots through which they are called.
#[derive(Clone, Debug, PartialEq, Eq)]
pub struct MethodsAndTable {
    pub table: Vec<TableSlot>,
    pub methods: Vec<MethodBinding>,
}

/// The value of a [`MethodsAndTable`] in contracts.
pub struct MethodsAndTableView {
    pub table: Seq<TableSlotView>,
    pub methods: Seq<MethodBindingView>,
}

impl DeepView for MethodsAndTable {
    type V = MethodsAndTableView;

    open spec fn deep_view(&self) -> MethodsAndTableView {
        MethodsAndTableView { table: self.table.deep_view(), methods: self.methods.deep_view() }
    }
}

fn concat3(a: &str, b: &str, c: &str) -> (r: String)
    ensures
        r@ == a@ + b@ + c@,
{
    let mut r = String::from_str(a);
    r.append(b);
    r.append(c);
    r
}

/// Gives the name under which the engine is asked for the class called
/// `class_name`.
pub fn lookup_class_name(api: &Api, class_name: &str) -> (r: String)
    ensures
        r@ == lookup_name(api.deep_view(), class_name@),
{
    if api.has_underscore(class_name) {
        let mut r = String::from_str("_");
        r.append(class_name);
        proof {
            lemma_escape_marker();
        }
        r
    } else {
        String::from_str(class_name)
    }
}

/// Lays out the slots of `class` in the table of native function pointers.
pub fn generate_method_table(api: &Api, class: &GodotClass) -> (out: Vec<TableSlot>)
    ensures
        out.deep_view() == table_slots(api.deep_view(), class.deep_view()),
{
    let ghost view = api.deep_view();
    let ghost c = class.deep_view();
    let ghost f = method_slot(view, c.name);
    let name = class.name.as_str();
    let mut out: Vec<TableSlot> = Vec::new();
    out.push(
        TableSlot {
            field: concat3(name, "__", "class_constructor"),
            lookup_class: lookup_class_name(api, name),
            method: None,
        },
    );
    assert(c.methods.take(0).filter_map(f) =~= Seq::empty());
    assert(out.deep_view() =~= seq![constructor_slot(view, c.name)] + c.methods.take(
        0,
    ).filter_map(f));
    let mut m: usize = 0;
    while m < class.methods.len()
        invariant
            m <= class.methods.len(),
            view == api.deep_view(),
            c == class.deep_view(),
            name@ == c.name,
            f == method_slot(view, c.name),
            out.deep_view() == seq![constructor_slot(view, c.name)] + c.methods.take(
                m as int,
            ).filter_map(f),
        decreases class.methods.len() - m,
    {
        let method = &class.methods[m];
        let ghost before = out.deep_view();
        assert(c.methods[m as int] == method.deep_view());
        proof {
            c.methods.lemma_filter_map_take_succ(f, m as int);
        }
        if !is_excluded_method(method.name.as_str()) {
            out.push(
                TableSlot {
                    field: concat3(name, "__", method.name.as_str()),
                    lookup_class: lookup_class_name(api, name),
                    method: Some(method.name.clone()),
                },
            );
            assert(out.deep_view() =~= before.push(f(method.deep_view())->0));
        }
        assert(out.deep_view() =~= seq![constructor_slot(view, c.name)] + c.methods.take(
            m as int + 1,
        ).filter_map(f));
        m += 1;
    }
    assert(c.methods.take(c.methods.len() as int) =~= c.methods);
    out
}

} // verus!
