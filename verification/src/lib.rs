//! Generator of language bindings for an object-oriented engine API that is
//! reached through a C-style table of function pointers.
//!
//! The library turns a class schema into a description of the bindings to emit:
//! which classes belong to a generation pass, and for each class its handle
//! type, constructors, casts, memory management and method table.

use vstd::prelude::*;
use vstd::string::*;

use crate::api::{Api, ApiView, ClassView, EnumView, GodotClass, SchemaError};
use crate::class_set::ClassSet;
use crate::classes::{
    generate_class_constants, generate_class_impl, generate_class_struct, generate_enums,
    types_and_methods, TypesAndMethods, TypesAndMethodsView,
};
use crate::consistency::{
    check_schema, class_fault, class_references, consistent, first_dangling,
    lemma_consistent_rooted, lemma_dangling_concat, lemma_dangling_single,
    lemma_references_resolve, method_references, references_upto, schema_error, ReferenceView,
};
use crate::dependency::bound_names;
use crate::keywords::{
    is_reserved, is_reserved_word, lemma_reserved_word_start, lemma_reserved_words,
};
use crate::methods::{
    exposed_binding, generate_method_table, has_table, is_excluded_method, method_bindings,
    resolve_method, table_slots, MethodBinding, MethodsAndTable, MethodsAndTableView, TableSlot,
    TableSlotView,
};
use crate::special_methods::{
    generate_traits, lemma_ancestors_distinct, traits, Traits, TraitsView,
};
use crate::text::{snake_case, snake_case_of};

pub mod ancestry;
pub mod api;
pub mod class_set;
pub mod classes;
pub mod consistency;
pub mod dependency;
pub mod keywords;
pub mod methods;
pub mod runtime;
pub mod special_methods;
pub mod text;

verus! {

/// The escape marker is a single underscore.
pub proof fn lemma_escape_marker()
    ensures
        "_"@ == seq!['_'],
{
    reveal_strlit("_");
    assert("_"@ =~= seq!['_']);
}

/// The escape marker followed by `s`.
pub open spec fn escaped(s: Seq<char>) -> Seq<char> {
    seq!['_'] + s
}

/// The identifier under which a schema name is emitted: reserved words are
/// escaped, every other name is kept as it is.
pub open spec fn safe_name(s: Seq<char>) -> Seq<char> {
    if is_reserved_word(s) {
        escaped(s)
    } else {
        s
    }
}

/// An emitted identifier is never a reserved word.
pub proof fn lemma_safe_name_not_reserved(s: Seq<char>)
    ensures
        !is_reserved_word(safe_name(s)),
{
    if is_reserved_word(s) {
        assert(escaped(s)[0] == '_');
        if is_reserved_word(escaped(s)) {
            lemma_reserved_word_start(escaped(s));
        }
    }
}

/// Escaping is one-to-one: two names share an emitted identifier only when
/// they are equal, or when one of them is already the escaped form of the
/// other, a reserved word.
pub proof fn lemma_safe_name_injective(a: Seq<char>, b: Seq<char>)
    requires
        a != b,
        !(is_reserved_word(a) && b == escaped(a)),
        !(is_reserved_word(b) && a == escaped(b)),
    ensures
        safe_name(a) != safe_name(b),
{
    if is_reserved_word(a) && is_reserved_word(b) {
        if escaped(a) == escaped(b) {
            assert(escaped(a).skip(1) =~= a);
            assert(escaped(b).skip(1) =~= b);
        }
    }
}

/// Every reserved word has one fixed escaped identifier: the word behind the
/// escape marker.
pub proof fn lemma_safe_name_of_reserved()
    ensures
        safe_name("as"@) == seq!['_', 'a', 's'],
        safe_name("break"@) == seq!['_', 'b', 'r', 'e', 'a', 'k'],
        safe_name("const"@) == seq!['_', 'c', 'o', 'n', 's', 't'],
        safe_name("continue"@) == seq!['_', 'c', 'o', 'n', 't', 'i', 'n', 'u', 'e'],
        safe_name("crate"@) == seq!['_', 'c', 'r', 'a', 't', 'e'],
        safe_name("else"@) == seq!['_', 'e', 'l', 's', 'e'],
        safe_name("enum"@) == seq!['_', 'e', 'n', 'u', 'm'],
        safe_name("extern"@) == seq!['_', 'e', 'x', 't', 'e', 'r', 'n'],
        safe_name("false"@) == seq!['_', 'f', 'a', 'l', 's', 'e'],
        safe_name("fn"@) == seq!['_', 'f', 'n'],
        safe_name("for"@) == seq!['_', 'f', 'o', 'r'],
        safe_name("if"@) == seq!['_', 'i', 'f'],
        safe_name("impl"@) == seq!['_', 'i', 'm', 'p', 'l'],
        safe_name("in"@) == seq!['_', 'i', 'n'],
        safe_name("let"@) == seq!['_', 'l', 'e', 't'],
        safe_name("loop"@) == seq!['_', 'l', 'o', 'o', 'p'],
        safe_name("match"@) == seq!['_', 'm', 'a', 't', 'c', 'h'],
        safe_name("mod"@) == seq!['_', 'm', 'o', 'd'],
        safe_name("move"@) == seq!['_', 'm', 'o', 'v', 'e'],
        safe_name("mut"@) == seq!['_', 'm', 'u', 't'],
        safe_name("pub"@) == seq!['_', 'p', 'u', 'b'],
        safe_name("ref"@) == seq!['_', 'r', 'e', 'f'],
        safe_name("return"@) == seq!['_', 'r', 'e', 't', 'u', 'r', 'n'],
        safe_name("self"@) == seq!['_', 's', 'e', 'l', 'f'],
        safe_name("Self"@) == seq!['_', 'S', 'e', 'l', 'f'],
        safe_name("static"@) == seq!['_', 's', 't', 'a', 't', 'i', 'c'],
        safe_name("struct"@) == seq!['_', 's', 't', 'r', 'u', 'c', 't'],
        safe_name("super"@) == seq!['_', 's', 'u', 'p', 'e', 'r'],
        safe_name("trait"@) == seq!['_', 't', 'r', 'a', 'i', 't'],
        safe_name("true"@) == seq!['_', 't', 'r', 'u', 'e'],
        safe_name("type"@) == seq!['_', 't', 'y', 'p', 'e'],
        safe_name("unsafe"@) == seq!['_', 'u', 'n', 's', 'a', 'f', 'e'],
        safe_name("use"@) == seq!['_', 'u', 's', 'e'],
        safe_name("where"@) == seq!['_', 'w', 'h', 'e', 'r', 'e'],
        safe_name("while"@) == seq!['_', 'w', 'h', 'i', 'l', 'e'],
        safe_name("async"@) == seq!['_', 'a', 's', 'y', 'n', 'c'],
        safe_name("await"@) == seq!['_', 'a', 'w', 'a', 'i', 't'],
        safe_name("dyn"@) == seq!['_', 'd', 'y', 'n'],
        safe_name("abstract"@) == seq!['_', 'a', 'b', 's', 't', 'r', 'a', 'c', 't'],
        safe_name("become"@) == seq!['_', 'b', 'e', 'c', 'o', 'm', 'e'],
        safe_name("box"@) == seq!['_', 'b', 'o', 'x'],
        safe_name("do"@) == seq!['_', 'd', 'o'],
        safe_name("final"@) == seq!['_', 'f', 'i', 'n', 'a', 'l'],
        safe_name("macro"@) == seq!['_', 'm', 'a', 'c', 'r', 'o'],
        safe_name("override"@) == seq!['_', 'o', 'v', 'e', 'r', 'r', 'i', 'd', 'e'],
        safe_name("priv"@) == seq!['_', 'p', 'r', 'i', 'v'],
        safe_name("typeof"@) == seq!['_', 't', 'y', 'p', 'e', 'o', 'f'],
        safe_name("unsized"@) == seq!['_', 'u', 'n', 's', 'i', 'z', 'e', 'd'],
        safe_name("virtual"@) == seq!['_', 'v', 'i', 'r', 't', 'u', 'a', 'l'],
        safe_name("yield"@) == seq!['_', 'y', 'i', 'e', 'l', 'd'],
        safe_name("try"@) == seq!['_', 't', 'r', 'y'],
        safe_name("gen"@) == seq!['_', 'g', 'e', 'n'],
{
    lemma_reserved_words();
    assert(escaped("as"@) =~= seq!['_', 'a', 's']);
    assert(escaped("break"@) =~= seq!['_', 'b', 'r', 'e', 'a', 'k']);
    assert(escaped("const"@) =~= seq!['_', 'c', 'o', 'n', 's', 't']);
    assert(escaped("continue"@) =~= seq!['_', 'c', 'o', 'n', 't', 'i', 'n', 'u', 'e']);
    assert(escaped("crate"@) =~= seq!['_', 'c', 'r', 'a', 't', 'e']);
    assert(escaped("else"@) =~= seq!['_', 'e', 'l', 's', 'e']);
    assert(escaped("enum"@) =~= seq!['_', 'e', 'n', 'u', 'm']);
    assert(escaped("extern"@) =~= seq!['_', 'e', 'x', 't', 'e', 'r', 'n']);
    assert(escaped("false"@) =~= seq!['_', 'f', 'a', 'l', 's', 'e']);
    assert(escaped("fn"@) =~= seq!['_', 'f', 'n']);
    assert(escaped("for"@) =~= seq!['_', 'f', 'o', 'r']);
    assert(escaped("if"@) =~= seq!['_', 'i', 'f']);
    assert(escaped("impl"@) =~= seq!['_', 'i', 'm', 'p', 'l']);
    assert(escaped("in"@) =~= seq!['_', 'i', 'n']);
    assert(escaped("let"@) =~= seq!['_', 'l', 'e', 't']);
    assert(escaped("loop"@) =~= seq!['_', 'l', 'o', 'o', 'p']);
    assert(escaped("match"@) =~= seq!['_', 'm', 'a', 't', 'c', 'h']);
    assert(escaped("mod"@) =~= seq!['_', 'm', 'o', 'd']);
    assert(escaped("move"@) =~= seq!['_', 'm', 'o', 'v', 'e']);
    assert(escaped("mut"@) =~= seq!['_', 'm', 'u', 't']);
    assert(escaped("pub"@) =~= seq!['_', 'p', 'u', 'b']);
    assert(escaped("ref"@) =~= seq!['_', 'r', 'e', 'f']);
    assert(escaped("return"@) =~= seq!['_', 'r', 'e', 't', 'u', 'r', 'n']);
    assert(escaped("self"@) =~= seq!['_', 's', 'e', 'l', 'f']);
    assert(escaped("Self"@) =~= seq!['_', 'S', 'e', 'l', 'f']);
    assert(escaped("static"@) =~= seq!['_', 's', 't', 'a', 't', 'i', 'c']);
    assert(escaped("struct"@) =~= seq!['_', 's', 't', 'r', 'u', 'c', 't']);
    assert(escaped("super"@) =~= seq!['_', 's', 'u', 'p', 'e', 'r']);
    assert(escaped("trait"@) =~= seq!['_', 't', 'r', 'a', 'i', 't']);
    assert(escaped("true"@) =~= seq!['_', 't', 'r', 'u', 'e']);
    assert(escaped("type"@) =~= seq!['_', 't', 'y', 'p', 'e']);
    assert(escaped("unsafe"@) =~= seq!['_', 'u', 'n', 's', 'a', 'f', 'e']);
    assert(escaped("use"@) =~= seq!['_', 'u', 's', 'e']);
    assert(escaped("where"@) =~= seq!['_', 'w', 'h', 'e', 'r', 'e']);
    assert(escaped("while"@) =~= seq!['_', 'w', 'h', 'i', 'l', 'e']);
    assert(escaped("async"@) =~= seq!['_', 'a', 's', 'y', 'n', 'c']);
    assert(escaped("await"@) =~= seq!['_', 'a', 'w', 'a', 'i', 't']);
    assert(escaped("dyn"@) =~= seq!['_', 'd', 'y', 'n']);
    assert(escaped("abstract"@) =~= seq!['_', 'a', 'b', 's', 't', 'r', 'a', 'c', 't']);
    assert(escaped("become"@) =~= seq!['_', 'b', 'e', 'c', 'o', 'm', 'e']);
    assert(escaped("box"@) =~= seq!['_', 'b', 'o', 'x']);
    assert(escaped("do"@) =~= seq!['_', 'd', 'o']);
    assert(escaped("final"@) =~= seq!['_', 'f', 'i', 'n', 'a', 'l']);
    assert(escaped("macro"@) =~= seq!['_', 'm', 'a', 'c', 'r', 'o']);
    assert(escaped("override"@) =~= seq!['_', 'o', 'v', 'e', 'r', 'r', 'i', 'd', 'e']);
    assert(escaped("priv"@) =~= seq!['_', 'p', 'r', 'i', 'v']);
    assert(escaped("typeof"@) =~= seq!['_', 't', 'y', 'p', 'e', 'o', 'f']);
    assert(escaped("unsized"@) =~= seq!['_', 'u', 'n', 's', 'i', 'z', 'e', 'd']);
    assert(escaped("virtual"@) =~= seq!['_', 'v', 'i', 'r', 't', 'u', 'a', 'l']);
    assert(escaped("yield"@) =~= seq!['_', 'y', 'i', 'e', 'l', 'd']);
    assert(escaped("try"@) =~= seq!['_', 't', 'r', 'y']);
    assert(escaped("gen"@) =~= seq!['_', 'g', 'e', 'n']);
}

/// Gives the identifier under which `name` is emitted.
pub fn rust_safe_name(name: &str) -> (out: String)
    ensures
        out@ == safe_name(name@),
{
    if is_reserved(name) {
        let mut out = String::from_str("_");
        out.append(name);
        proof {
            lemma_escape_marker();
        }
        out
    } else {
        String::from_str(name)
    }
}

/// Everything that is emitted for one class, in three parts: the type and
/// method definitions, the behaviour, and the methods with their table.
#[derive(Clone, Debug, PartialEq, Eq)]
pub struct ClassBindings {
    pub types_and_methods: TypesAndMethods,
    pub traits: Traits,
    /// Absent for a class that has nothing to call.
    pub methods_and_table: Option<MethodsAndTable>,
}

/// The value of a [`ClassBindings`] in contracts.
pub struct ClassBindingsView {
    pub types_and_methods: TypesAndMethodsView,
    pub traits: TraitsView,
    pub methods_and_table: Option<MethodsAndTableView>,
}

impl DeepView for ClassBindings {
    type V = ClassBindingsView;

    open spec fn deep_view(&self) -> ClassBindingsView {
        ClassBindingsView {
            types_and_methods: self.types_and_methods.deep_view(),
            traits: self.traits.deep_view(),
            methods_and_table: self.methods_and_table.deep_view(),
        }
    }
}

/// The methods of `class` with their table, where the class has anything to
/// call.
pub open spec fn methods_and_table(api: ApiView, class: ClassView) -> Option<
    MethodsAndTableView,
> {
    if has_table(class) {
        Some(
            MethodsAndTableView {
                table: table_slots(api, class),
                methods: method_bindings(api, class),
            },
        )
    } else {
        None
    }
}

/// The bindings of `class`.
pub open spec fn class_bindings(api: ApiView, class: ClassView) -> ClassBindingsView {
    ClassBindingsView {
        types_and_methods: types_and_methods(api, class),
        traits: traits(api, class),
        methods_and_table: methods_and_table(api, class),
    }
}

/// A dangling reference among the base class and the first `k` methods is
/// the first dangling reference of the class.
proof fn lemma_dangling_methods(api: ApiView, class: ClassView, k: nat, n: nat)
    requires
        k <= n,
        first_dangling(api, references_upto(class, k)) is Some,
    ensures
        first_dangling(api, references_upto(class, n)) == first_dangling(
            api,
            references_upto(class, k),
        ),
    decreases n,
{
    if k < n {
        lemma_dangling_methods(api, class, k, (n - 1) as nat);
        lemma_dangling_concat(
            api,
            references_upto(class, (n - 1) as nat),
            method_references(class.methods[n - 1]),
        );
    }
}

/// Synthesizes the bindings of `class`, a class of `api`.
///
/// The result depends on nothing but the two arguments. A class with a base
/// class gets an upcast to it, which needs no check; the root gets none. No
/// class is an ancestor twice. The run fails on the first reference of the
/// class, its base class before its methods in order, to a class that the
/// schema does not hold, and on base classes that do not lead to a root.
pub fn generate_class_bindings(api: &Api, class: &GodotClass) -> (r: Result<
    ClassBindings,
    SchemaError,
>)
    ensures
        match r {
            Ok(b) => {
                &&& class_fault(api.deep_view(), class.deep_view()) is None
                &&& b.deep_view() == class_bindings(api.deep_view(), class.deep_view())
                &&& class.base_class@.len() > 0 ==> {
                    &&& b.traits.upcast.deep_view() == Some(class.base_class@)
                    &&& api.deep_view().has_class(class.base_class@)
                }
                &&& class.base_class@.len() == 0 ==> b.traits.upcast is None
                &&& b.traits.downcast_from.deep_view().no_duplicates()
            },
            Err(e) => class_fault(api.deep_view(), class.deep_view()) == Some(e.deep_view()),
        },
{
    let ghost view = api.deep_view();
    let ghost c = class.deep_view();
    let ghost n = c.methods.len();
    proof {
        lemma_dangling_single(view, ReferenceView { method: None, class: c.base_class });
    }
    if !class.base_class.as_str().is_empty() && api.find_index(
        class.base_class.as_str(),
    ).is_none() {
        proof {
            lemma_dangling_methods(view, c, 0, n);
        }
        return Err(
            SchemaError::UnknownBaseClass {
                class: class.name.clone(),
                base: class.base_class.clone(),
            },
        );
    }
    let mut methods: Vec<MethodBinding> = Vec::new();
    let mut m: usize = 0;
    assert(methods.deep_view() =~= c.methods.take(0).filter_map(exposed_binding(view, c.name)));
    while m < class.methods.len()
        invariant
            m <= class.methods.len(),
            view == api.deep_view(),
            c == class.deep_view(),
            n == c.methods.len(),
            first_dangling(view, references_upto(c, m as nat)) is None,
            methods.deep_view() == c.methods.take(m as int).filter_map(exposed_binding(view, c.name)),
        decreases class.methods.len() - m,
    {
        let method = &class.methods[m];
        let ghost mv = method.deep_view();
        let ghost before = methods.deep_view();
        assert(c.methods[m as int] == mv);
        proof {
            lemma_dangling_concat(view, references_upto(c, m as nat), method_references(mv));
            c.methods.lemma_filter_map_take_succ(exposed_binding(view, c.name), m as int);
        }
        match resolve_method(api, class.name.as_str(), method) {
            Err(e) => {
                proof {
                    lemma_dangling_methods(view, c, (m + 1) as nat, n);
                }
                return Err(e);
            },
            Ok(binding) => {
                if !is_excluded_method(method.name.as_str()) {
                    methods.push(binding);
                    assert(methods.deep_view() =~= before.push(binding.deep_view()));
                }
            },
        }
        assert(methods.deep_view() =~= c.methods.take(m as int + 1).filter_map(
            exposed_binding(view, c.name),
        ));
        m += 1;
    }
    assert(c.methods.take(n as int) =~= c.methods);
    if !api.is_rooted(class) {
        return Err(SchemaError::Unrooted { class: class.name.clone() });
    }
    let table = if class.instantiable || class.methods.len() > 0 {
        Some(MethodsAndTable { table: generate_method_table(api, class), methods })
    } else {
        None
    };
    proof {
        if c.base_class.len() > 0 {
            lemma_base_reference_first(c, n);
            lemma_references_resolve(view, class_references(c), 0);
        }
        lemma_ancestors_distinct(view, c);
    }
    Ok(
        ClassBindings {
            types_and_methods: TypesAndMethods {
                class_struct: generate_class_struct(api, class),
                enums: generate_enums(class),
                constants: generate_class_constants(class),
                class_impl: generate_class_impl(api, class),
            },
            traits: generate_traits(api, class),
            methods_and_table: table,
        },
    )
}

/// The reference to the base class opens the references of a class.
proof fn lemma_base_reference_first(class: ClassView, k: nat)
    requires
        class.base_class.len() > 0,
    ensures
        references_upto(class, k).len() > 0,
        references_upto(class, k)[0] == (ReferenceView { method: None, class: class.base_class }),
    decreases k,
{
    if k > 0 {
        lemma_base_reference_first(class, (k - 1) as nat);
    }
}

/// What is emitted for one generated class as a module of its own.
#[derive(Clone, Debug, PartialEq, Eq)]
pub struct ModuleBinding {
    /// The name of the module: the class name in snake case.
    pub module: String,
    /// The class that the module holds and re-exports.
    pub class_name: String,
    /// The enums that the module re-exports, under their emitted names.
    pub enum_names: Vec<String>,
    pub bindings: ClassBindings,
}

/// The value of a [`ModuleBinding`] in contracts.
pub struct ModuleBindingView {
    pub module: Seq<char>,
    pub class_name: Seq<char>,
    pub enum_names: Seq<Seq<char>>,
    pub bindings: ClassBindingsView,
}

impl DeepView for ModuleBinding {
    type V = ModuleBindingView;

    open spec fn deep_view(&self) -> ModuleBindingView {
        ModuleBindingView {
            module: self.module@,
            class_name: self.class_name@,
            enum_names: self.enum_names.deep_view(),
            bindings: self.bindings.deep_view(),
        }
    }
}

/// The emitted name of an enum of the class called `class_name`.
pub open spec fn enum_name(class_name: Seq<char>) -> spec_fn(EnumView) -> Seq<char> {
    |e: EnumView| class_name + e.name
}

/// The module of `class`, given the name of the module and the bindings of
/// the class.
pub open spec fn module_binding(
    class: ClassView,
    module: Seq<char>,
    bindings: ClassBindingsView,
) -> ModuleBindingView {
    ModuleBindingView {
        module,
        class_name: class.name,
        enum_names: class.enums.map_values(enum_name(class.name)),
        bindings,
    }
}

/// The module of a class, if the pass generates the class.
pub open spec fn generated_module(api: ApiView) -> spec_fn(ClassView) -> Option<
    ModuleBindingView,
> {
    |c: ClassView|
        if c.is_generated {
            Some(module_binding(c, snake_case_of(c.name), class_bindings(api, c)))
        } else {
            None
        }
}

/// The slots that `class` adds to the table of the pass.
pub open spec fn class_table(api: ApiView, class: ClassView) -> Seq<TableSlotView> {
    if class.is_generated && has_table(class) {
        table_slots(api, class)
    } else {
        Seq::empty()
    }
}

/// The slots of the first `k` classes of the schema.
pub open spec fn table_upto(api: ApiView, k: nat) -> Seq<TableSlotView>
    decreases k,
{
    if k == 0 {
        Seq::empty()
    } else {
        table_upto(api, (k - 1) as nat) + class_table(api, api.classes[k - 1])
    }
}

/// Everything that one pass emits.
#[derive(Clone, Debug, PartialEq, Eq)]
pub struct Bindings {
    /// One module for each generated class, in schema order.
    pub modules: Vec<ModuleBinding>,
    /// The one table of the pass: the slots of the generated classes, class
    /// after class in schema order. Resolving the slots in this order
    /// populates the table.
    pub method_table: Vec<TableSlot>,
}

/// The value of a [`Bindings`] in contracts.
pub struct BindingsView {
    pub modules: Seq<ModuleBindingView>,
    pub method_table: Seq<TableSlotView>,
}

impl DeepView for Bindings {
    type V = BindingsView;

    open spec fn deep_view(&self) -> BindingsView {
        BindingsView {
            modules: self.modules.deep_view(),
            method_table: self.method_table.deep_view(),
        }
    }
}

/// What a pass over `api` emits.
pub open spec fn bindings(api: ApiView) -> BindingsView {
    BindingsView {
        modules: api.classes.filter_map(generated_module(api)),
        method_table: table_upto(api, api.classes.len()),
    }
}

/// Puts the bindings of `class` into the module called `module`.
pub fn module_binding_of(class: &GodotClass, module: String, bindings: ClassBindings) -> (out:
    ModuleBinding)
    ensures
        out.deep_view() == module_binding(class.deep_view(), module@, bindings.deep_view()),
{
    let ghost c = class.deep_view();
    let mut enum_names: Vec<String> = Vec::new();
    let mut i: usize = 0;
    assert(enum_names.deep_view() =~= c.enums.take(0).map_values(enum_name(c.name)));
    while i < class.enums.len()
        invariant
            i <= class.enums.len(),
            c == class.deep_view(),
            enum_names.deep_view() == c.enums.take(i as int).map_values(enum_name(c.name)),
        decreases class.enums.len() - i,
    {
        let ghost before = enum_names.deep_view();
        assert(c.enums[i as int] == class.enums@[i as int].deep_view());
        let mut name = class.name.clone();
        name.append(class.enums[i].name.as_str());
        enum_names.push(name);
        assert(enum_names.deep_view() =~= before.push(c.name + c.enums[i as int].name));
        assert(c.enums.take(i as int + 1) =~= c.enums.take(i as int).push(c.enums[i as int]));
        assert(enum_names.deep_view() =~= c.enums.take(i as int + 1).map_values(
            enum_name(c.name),
        ));
        i += 1;
    }
    assert(c.enums.take(c.enums.len() as int) =~= c.enums);
    ModuleBinding { module, class_name: class.name.clone(), enum_names, bindings }
}

/// Generates the bindings of every class that the pass is to generate.
///
/// The schema is checked first, and a schema that is no closed world with a
/// single root makes the whole run fail: nothing is emitted for part of an
/// inconsistent schema. Each generated class is synthesized once, in schema
/// order.
pub fn generate_bindings(api: &Api) -> (r: Result<Bindings, SchemaError>)
    ensures
        match r {
            Ok(b) => consistent(api.deep_view()) && b.deep_view() == bindings(api.deep_view()),
            Err(e) => schema_error(api.deep_view()) == Some(e.deep_view()),
        },
{
    let ghost view = api.deep_view();
    match check_schema(api) {
        Err(e) => {
            return Err(e);
        },
        Ok(_) => {},
    }
    let classes = api.classes();
    let mut modules: Vec<ModuleBinding> = Vec::new();
    let mut method_table: Vec<TableSlot> = Vec::new();
    let mut i: usize = 0;
    assert(modules.deep_view() =~= view.classes.take(0).filter_map(generated_module(view)));
    assert(method_table.deep_view() =~= table_upto(view, 0));
    while i < classes.len()
        invariant
            i <= classes.len(),
            view == api.deep_view(),
            classes.deep_view() == view.classes,
            consistent(view),
            modules.deep_view() == view.classes.take(i as int).filter_map(
                generated_module(view),
            ),
            method_table.deep_view() == table_upto(view, i as nat),
        decreases classes.len() - i,
    {
        let class = &classes[i];
        let ghost c = class.deep_view();
        let ghost modules_before = modules.deep_view();
        let ghost table_before = method_table.deep_view();
        assert(view.classes[i as int] == c);
        proof {
            lemma_consistent_rooted(view, i as int);
            view.classes.lemma_filter_map_take_succ(generated_module(view), i as int);
        }
        if class.is_generated {
            match generate_class_bindings(api, class) {
                Err(e) => {
                    return Err(e);
                },
                Ok(unit) => {
                    let module = snake_case(class.name.as_str());
                    let entry = module_binding_of(class, module, unit);
                    modules.push(entry);
                    assert(modules.deep_view() =~= modules_before.push(
                        generated_module(view)(c)->0,
                    ));
                },
            }
            if class.instantiable || class.methods.len() > 0 {
                let mut slots = generate_method_table(api, class);
                let ghost added = slots.deep_view();
                method_table.append(&mut slots);
                assert(method_table.deep_view() =~= table_before + added);
            }
        }
        assert(method_table.deep_view() =~= table_before + class_table(view, c));
        assert(modules.deep_view() =~= view.classes.take(i as int + 1).filter_map(
            generated_module(view),
        ));
        i += 1;
    }
    assert(view.classes.take(view.classes.len() as int) =~= view.classes);
    Ok(Bindings { modules, method_table })
}

/// The class that a request for the class called `name` is about: the class
/// of that name, unless the schema has none or an earlier pass has bound it.
pub open spec fn requested_class(
    api: ApiView,
    name: Seq<char>,
    already_bound: Set<Seq<char>>,
) -> Option<ClassView> {
    if api.has_class(name) && !already_bound.contains(name) {
        Some(api.class_named(name))
    } else {
        None
    }
}

/// Generates the bindings of the one class called `class_name`, on demand.
///
/// Nothing is generated for a name that is no class of the schema, nor for a
/// class that `already_bound`, the set of a foundation, covers. The run fails
/// on the first reference of the class to a class that the schema does not
/// hold, and on base classes that do not lead to a root.
pub fn generate_class(api: &Api, class_name: &str, already_bound: Option<&ClassSet>) -> (r:
    Result<Option<ClassBindings>, SchemaError>)
    ensures
        match requested_class(api.deep_view(), class_name@, bound_names(already_bound)) {
            None => r matches Ok(None),
            Some(class) => match r {
                Ok(Some(b)) => class_fault(api.deep_view(), class) is None && b.deep_view()
                    == class_bindings(api.deep_view(), class),
                Ok(None) => false,
                Err(e) => class_fault(api.deep_view(), class) == Some(e.deep_view()),
            },
        },
{
    let covered = match already_bound {
        Some(set) => set.contains(class_name),
        None => false,
    };
    if covered {
        return Ok(None);
    }
    match api.find_class(class_name) {
        None => Ok(None),
        Some(class) => match generate_class_bindings(api, class) {
            Ok(b) => Ok(Some(b)),
            Err(e) => Err(e),
        },
    }
}

/// Whether one of the first `k` classes of `api` is called `name`.
pub open spec fn among_first(api: ApiView, k: int, name: Seq<char>) -> bool {
    exists|a: int| 0 <= a < k && (#[trigger] api.classes[a]).name == name
}

/// The modules of a prefix of the schema hold classes of that prefix, each
/// at most once.
proof fn lemma_modules_of_prefix(api: ApiView, k: int)
    requires
        api.names_unique(),
        0 <= k <= api.classes.len(),
    ensures
        ({
            let modules = api.classes.take(k).filter_map(generated_module(api));
            &&& forall|i: int|
                0 <= i < modules.len() ==> among_first(api, k, (#[trigger] modules[i]).class_name)
            &&& forall|i: int, j: int|
                0 <= i < j < modules.len() ==> modules[i].class_name != modules[j].class_name
        }),
    decreases k,
{
    let modules = api.classes.take(k).filter_map(generated_module(api));
    if k == 0 {
        assert(api.classes.take(0) =~= Seq::empty());
    } else {
        let earlier = api.classes.take(k - 1).filter_map(generated_module(api));
        lemma_modules_of_prefix(api, k - 1);
        api.classes.lemma_filter_map_take_succ(generated_module(api), k - 1);
        assert forall|i: int| 0 <= i < modules.len() implies among_first(
            api,
            k,
            (#[trigger] modules[i]).class_name,
        ) by {
            if i < earlier.len() {
                assert(modules[i] == earlier[i]);
                assert(among_first(api, k - 1, earlier[i].class_name));
                let a = choose|a: int|
                    0 <= a < k - 1 && (#[trigger] api.classes[a]).name == earlier[i].class_name;
                assert(api.classes[a].name == modules[i].class_name);
            } else {
                assert(api.classes[k - 1].name == modules[i].class_name);
            }
        }
        assert forall|i: int, j: int| 0 <= i < j < modules.len() implies modules[i].class_name
            != modules[j].class_name by {
            assert(modules[i] == earlier[i]);
            if j < earlier.len() {
                assert(modules[j] == earlier[j]);
            } else {
                assert(among_first(api, k - 1, earlier[i].class_name));
                let a = choose|a: int|
                    0 <= a < k - 1 && (#[trigger] api.classes[a]).name == earlier[i].class_name;
                assert(api.classes[a].name != api.classes[k - 1].name);
            }
        }
    }
}

/// No class is synthesized more than once within a pass: the modules of a
/// pass hold classes with names of their own.
pub proof fn lemma_modules_distinct(api: ApiView, i: int, j: int)
    requires
        api.names_unique(),
        0 <= i < j < bindings(api).modules.len(),
    ensures
        bindings(api).modules[i].class_name != bindings(api).modules[j].class_name,
{
    lemma_modules_of_prefix(api, api.classes.len() as int);
    assert(api.classes.take(api.classes.len() as int) =~= api.classes);
}

} // verus!
