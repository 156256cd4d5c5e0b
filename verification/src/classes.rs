//! The type that stands for a class in the bindings, with what the class
//! declares: its enums, its constants, its constructor and its singleton.

use crate::api::{
    Api, ApiView, ClassView, Enum, EnumView, GodotClass, NamedValue, NamedValueView,
};
use vstd::prelude::*;
use vstd::string::*;

verus! {

/// Who ends the life of an object.
#[derive(Clone, Copy, PartialEq, Eq, Debug)]
pub enum MemoryKind {
    /// The engine counts the references to the object and destroys it when
    /// the last one is released.
    RefCounted,
    /// The owner releases the object, exactly once.
    ManuallyManaged,
}

/// How the instances of `class` are managed.
pub open spec fn memory_kind(api: ApiView, class: ClassView) -> MemoryKind {
    if api.is_refcounted(class) {
        MemoryKind::RefCounted
    } else {
        MemoryKind::ManuallyManaged
    }
}

/// The handle type of a class: a wrapper of one native object pointer.
#[derive(Clone, Debug, PartialEq, Eq)]
pub struct ClassStruct {
    pub name: String,
    /// Whether a handle also records that it is known to be the only one to
    /// its object. Only handles that are unsafe to hold across calls do.
    pub tracks_aliasing: bool,
}

/// The value of a [`ClassStruct`] in contracts.
pub struct ClassStructView {
    pub name: Seq<char>,
    pub tracks_aliasing: bool,
}

impl DeepView for ClassStruct {
    type V = ClassStructView;

    open spec fn deep_view(&self) -> ClassStructView {
        ClassStructView { name: self.name@, tracks_aliasing: self.tracks_aliasing }
    }
}

/// What the inherent part of a class holds besides its methods.
#[derive(Clone, Copy, PartialEq, Eq, Debug)]
pub struct ClassImpl {
    /// The constructor, with the kind of handle that it returns: a counted
    /// reference with a count of one, or an owned handle. `None` for a class
    /// that cannot be instantiated.
    pub constructor: Option<MemoryKind>,
    /// Whether the class has an accessor for its one shared instance.
    pub singleton_accessor: bool,
}

/// The type and method definitions of one class.
#[derive(Clone, Debug, PartialEq, Eq)]
pub struct TypesAndMethods {
    pub class_struct: ClassStruct,
    pub enums: Vec<Enum>,
    pub constants: Vec<NamedValue>,
    pub class_impl: ClassImpl,
}

/// The value of a [`TypesAndMethods`] in contracts.
pub struct TypesAndMethodsView {
    pub class_struct: ClassStructView,
    pub enums: Seq<EnumView>,
    pub constants: Seq<NamedValueView>,
    pub class_impl: ClassImpl,
}

impl DeepView for TypesAndMethods {
    type V = TypesAndMethodsView;

    open spec fn deep_view(&self) -> TypesAndMethodsView {
        TypesAndMethodsView {
            class_struct: self.class_struct.deep_view(),
            enums: self.enums.deep_view(),
            constants: self.constants.deep_view(),
            class_impl: self.class_impl,
        }
    }
}

/// The handle type of `class`.
pub open spec fn class_struct(api: ApiView, class: ClassView) -> ClassStructView {
    ClassStructView { name: class.name, tracks_aliasing: !api.is_pointer_safe(class) }
}

/// An enum of the class called `class_name`, under the name that it has in
/// the bindings: the class name followed by the enum's own.
pub open spec fn emitted_enum(class_name: Seq<char>) -> spec_fn(EnumView) -> EnumView {
    |e: EnumView| EnumView { name: class_name + e.name, values: e.values }
}

/// The enums of `class` as the bindings hold them.
pub open spec fn emitted_enums(class: ClassView) -> Seq<EnumView> {
    class.enums.map_values(emitted_enum(class.name))
}

/// Whether `c` belongs to the name of a type: everything but the colons of a
/// scope.
pub open spec fn in_type_name() -> spec_fn(char) -> bool {
    |c: char| c != ':'
}

/// The name that the bindings give to the enum type that the schema calls
/// `scoped`, with or without the class that declares it: the name without
/// its colons, so that an enum of a class is found under the class name
/// followed by its own.
pub open spec fn enum_type(scoped: Seq<char>) -> Seq<char> {
    scoped.filter(in_type_name())
}

/// The constructor and the singleton accessor of `class`. Only a class that
/// can be instantiated has a constructor, and only a singleton an accessor.
pub open spec fn class_impl(api: ApiView, class: ClassView) -> ClassImpl {
    ClassImpl {
        constructor: if class.instantiable {
            Some(memory_kind(api, class))
        } else {
            None
        },
        singleton_accessor: class.singleton,
    }
}

/// The type and method definitions of `class`.
pub open spec fn types_and_methods(api: ApiView, class: ClassView) -> TypesAndMethodsView {
    TypesAndMethodsView {
        class_struct: class_struct(api, class),
        enums: emitted_enums(class),
        constants: class.constants,
        class_impl: class_impl(api, class),
    }
}

/// Copies a list of named values.
pub fn clone_values(values: &Vec<NamedValue>) -> (out: Vec<NamedValue>)
    ensures
        out.deep_view() == values.deep_view(),
{
    let mut out: Vec<NamedValue> = Vec::new();
    let mut i: usize = 0;
    while i < values.len()
        invariant
            i <= values.len(),
            out.deep_view() == values.deep_view().take(i as int),
        decreases values.len() - i,
    {
        let ghost before = out.deep_view();
        out.push(NamedValue { name: values[i].name.clone(), value: values[i].value });
        assert(out.deep_view() =~= before.push(values@[i as int].deep_view()));
        assert(out.deep_view() =~= values.deep_view().take(i as int + 1));
        i += 1;
    }
    assert(values.deep_view().take(values.len() as int) =~= values.deep_view());
    out
}

/// Tells how the instances of `class` are managed.
pub fn memory_kind_of(api: &Api, class: &GodotClass) -> (r: MemoryKind)
    ensures
        r == memory_kind(api.deep_view(), class.deep_view()),
{
    if api.is_refcounted(class) {
        MemoryKind::RefCounted
    } else {
        MemoryKind::ManuallyManaged
    }
}

/// Describes the handle type of `class`.
pub fn generate_class_struct(api: &Api, class: &GodotClass) -> (out: ClassStruct)
    ensures
        out.deep_view() == class_struct(api.deep_view(), class.deep_view()),
{
    ClassStruct { name: class.name.clone(), tracks_aliasing: !api.is_pointer_safe(class) }
}

/// Names the enums of `class` for the bindings.
pub fn generate_enums(class: &GodotClass) -> (out: Vec<Enum>)
    ensures
        out.deep_view() == emitted_enums(class.deep_view()),
{
    let ghost c = class.deep_view();
    let mut out: Vec<Enum> = Vec::new();
    let mut i: usize = 0;
    while i < class.enums.len()
        invariant
            i <= class.enums.len(),
            c == class.deep_view(),
            out.deep_view() == c.enums.take(i as int).map_values(emitted_enum(c.name)),
        decreases class.enums.len() - i,
    {
        let ghost before = out.deep_view();
        let item = &class.enums[i];
        assert(c.enums[i as int] == item.deep_view());
        let mut name = class.name.clone();
        name.append(item.name.as_str());
        out.push(Enum { name, values: clone_values(&item.values) });
        assert(out.deep_view() =~= before.push(emitted_enum(c.name)(item.deep_view())));
        assert(c.enums.take(i as int + 1) =~= c.enums.take(i as int).push(item.deep_view()));
        assert(out.deep_view() =~= c.enums.take(i as int + 1).map_values(emitted_enum(c.name)));
        i += 1;
    }
    assert(c.enums.take(c.enums.len() as int) =~= c.enums);
    out
}

/// Gives the name of the enum type that the schema calls `scoped`.
pub fn enum_type_name(scoped: &str) -> (out: String)
    ensures
        out@ == enum_type(scoped@),
{
    let ghost s = scoped@;
    let n = scoped.unicode_len();
    let mut out = String::new();
    let mut i: usize = 0;
    proof {
        reveal(Seq::filter);
        assert(s.take(0) =~= Seq::<char>::empty());
    }
    while i < n
        invariant
            i <= n,
            n == s.len(),
            s == scoped@,
            out@ == s.take(i as int).filter(in_type_name()),
        decreases n - i,
    {
        proof {
            reveal(Seq::filter);
            assert(s.take(i as int + 1).drop_last() =~= s.take(i as int));
        }
        if scoped.get_char(i) != ':' {
            let piece = scoped.substring_char(i, i + 1);
            assert(piece@ =~= seq![s[i as int]]);
            let ghost before = out@;
            out.append(piece);
            assert(out@ =~= before.push(s[i as int]));
        }
        i += 1;
    }
    assert(s.take(n as int) =~= s);
    out
}

/// Lists the constants of `class`.
pub fn generate_class_constants(class: &GodotClass) -> (out: Vec<NamedValue>)
    ensures
        out.deep_view() == class.deep_view().constants,
{
    clone_values(&class.constants)
}

/// Decides on the constructor and the singleton accessor of `class`.
pub fn generate_class_impl(api: &Api, class: &GodotClass) -> (out: ClassImpl)
    ensures
        out == class_impl(api.deep_view(), class.deep_view()),
{
    ClassImpl {
        constructor: if class.instantiable {
            Some(memory_kind_of(api, class))
        } else {
            None
        },
        singleton_accessor: class.singleton,
    }
}

} // verus!
