//! The in-memory model of the engine's class schema.

use crate::class_set::ClassSet;
use crate::text::str_eq;
use vstd::prelude::*;
use vstd::string::*;

verus! {

/// A named integer: one value of an enum, or one class constant.
#[derive(Clone, Debug, PartialEq, Eq)]
pub struct NamedValue {
    pub name: String,
    pub value: i64,
}

/// The value of a [`NamedValue`] in contracts.
pub struct NamedValueView {
    pub name: Seq<char>,
    pub value: i64,
}

impl DeepView for NamedValue {
    type V = NamedValueView;

    open spec fn deep_view(&self) -> NamedValueView {
        NamedValueView { name: self.name@, value: self.value }
    }
}

/// An enum that a class declares.
#[derive(Clone, Debug, PartialEq, Eq)]
pub struct Enum {
    pub name: String,
    pub values: Vec<NamedValue>,
}

/// The value of an [`Enum`] in contracts.
pub struct EnumView {
    pub name: Seq<char>,
    pub values: Seq<NamedValueView>,
}

impl DeepView for Enum {
    type V = EnumView;

    open spec fn deep_view(&self) -> EnumView {
        EnumView { name: self.name@, values: self.values.deep_view() }
    }
}

/// One parameter of a method, with its type as the schema writes it.
#[derive(Clone, Debug, PartialEq, Eq)]
pub struct GodotArgument {
    pub name: String,
    pub ty: String,
    pub default_value: Option<String>,
}

/// The value of a [`GodotArgument`] in contracts.
pub struct ArgumentView {
    pub name: Seq<char>,
    pub ty: Seq<char>,
    pub default_value: Option<Seq<char>>,
}

impl DeepView for GodotArgument {
    type V = ArgumentView;

    open spec fn deep_view(&self) -> ArgumentView {
        ArgumentView {
            name: self.name@,
            ty: self.ty@,
            default_value: self.default_value.deep_view(),
        }
    }
}

/// One native method that a class exposes.
#[derive(Clone, Debug, PartialEq, Eq)]
pub struct GodotMethod {
    /// The name under which the engine knows the method.
    pub name: String,
    pub return_type: String,
    pub is_virtual: bool,
    pub has_varargs: bool,
    /// Whether the engine documents the call as handing a freshly allocated
    /// instance to the caller.
    pub returns_new_instance: bool,
    pub arguments: Vec<GodotArgument>,
}

/// The value of a [`GodotMethod`] in contracts.
pub struct MethodView {
    pub name: Seq<char>,
    pub return_type: Seq<char>,
    pub is_virtual: bool,
    pub has_varargs: bool,
    pub returns_new_instance: bool,
    pub arguments: Seq<ArgumentView>,
}

impl DeepView for GodotMethod {
    type V = MethodView;

    open spec fn deep_view(&self) -> MethodView {
        MethodView {
            name: self.name@,
            return_type: self.return_type@,
            is_virtual: self.is_virtual,
            has_varargs: self.has_varargs,
            returns_new_instance: self.returns_new_instance,
            arguments: self.arguments.deep_view(),
        }
    }
}

/// One class of the engine.
#[derive(Clone, Debug, PartialEq, Eq)]
pub struct GodotClass {
    pub name: String,
    /// The name of the base class; empty for a class without one.
    pub base_class: String,
    pub singleton: bool,
    pub instantiable: bool,
    pub methods: Vec<GodotMethod>,
    pub enums: Vec<Enum>,
    pub constants: Vec<NamedValue>,
    /// Whether the current pass emits bindings for the class.
    pub is_generated: bool,
}

/// The value of a [`GodotClass`] in contracts.
pub struct ClassView {
    pub name: Seq<char>,
    pub base_class: Seq<char>,
    pub singleton: bool,
    pub instantiable: bool,
    pub methods: Seq<MethodView>,
    pub enums: Seq<EnumView>,
    pub constants: Seq<NamedValueView>,
    pub is_generated: bool,
}

impl DeepView for GodotClass {
    type V = ClassView;

    open spec fn deep_view(&self) -> ClassView {
        ClassView {
            name: self.name@,
            base_class: self.base_class@,
            singleton: self.singleton,
            instantiable: self.instantiable,
            methods: self.methods.deep_view(),
            enums: self.enums.deep_view(),
            constants: self.constants.deep_view(),
            is_generated: self.is_generated,
        }
    }
}

/// Whether `s` is one of the engine's built-in value types, which are passed
/// by value and are no classes.
pub open spec fn is_builtin_type(s: Seq<char>) -> bool {
    ||| s == "bool"@
    ||| s == "int"@
    ||| s == "float"@
    ||| s == "String"@
    ||| s == "Vector2"@
    ||| s == "Vector3"@
    ||| s == "Quat"@
    ||| s == "Transform"@
    ||| s == "Transform2D"@
    ||| s == "Rect2"@
    ||| s == "Plane"@
    ||| s == "AABB"@
    ||| s == "Basis"@
    ||| s == "Color"@
    ||| s == "NodePath"@
    ||| s == "Variant"@
    ||| s == "RID"@
    ||| s == "Array"@
    ||| s == "Dictionary"@
    ||| s == "PoolByteArray"@
    ||| s == "PoolStringArray"@
    ||| s == "PoolVector2Array"@
    ||| s == "PoolVector3Array"@
    ||| s == "PoolColorArray"@
    ||| s == "PoolIntArray"@
    ||| s == "PoolRealArray"@
}

/// Whether `s` starts with `enum.`, the schema's mark of an enum type.
pub open spec fn has_enum_prefix(s: Seq<char>) -> bool {
    &&& s.len() >= 5
    &&& s[0] == 'e'
    &&& s[1] == 'n'
    &&& s[2] == 'u'
    &&& s[3] == 'm'
    &&& s[4] == '.'
}

/// A type of the schema, told apart by how its values travel.
#[derive(Clone, Debug, PartialEq, Eq)]
pub enum Ty {
    Void,
    /// A built-in value type, under its schema name.
    Builtin(String),
    /// An enum, under its name without the `enum.` mark.
    Enum(String),
    /// A class, under its name.
    Object(String),
}

/// The value of a [`Ty`] in contracts.
pub enum TyView {
    Void,
    Builtin(Seq<char>),
    Enum(Seq<char>),
    Object(Seq<char>),
}

impl DeepView for Ty {
    type V = TyView;

    open spec fn deep_view(&self) -> TyView {
        match self {
            Ty::Void => TyView::Void,
            Ty::Builtin(name) => TyView::Builtin(name@),
            Ty::Enum(name) => TyView::Enum(name@),
            Ty::Object(name) => TyView::Object(name@),
        }
    }
}

/// The type that the schema string `s` denotes. Whatever is neither `void`,
/// nor an enum, nor a built-in value type, names a class.
pub open spec fn ty_of(s: Seq<char>) -> TyView {
    if s == "void"@ {
        TyView::Void
    } else if has_enum_prefix(s) {
        TyView::Enum(s.skip(5))
    } else if is_builtin_type(s) {
        TyView::Builtin(s)
    } else {
        TyView::Object(s)
    }
}

/// Whether the schema string `s` denotes a class.
pub open spec fn names_class(s: Seq<char>) -> bool {
    ty_of(s) is Object
}

fn is_builtin(src: &str) -> (r: bool)
    ensures
        r == is_builtin_type(src@),
{
    str_eq(src, "bool") || str_eq(src, "int") || str_eq(src, "float") || str_eq(src, "String")
        || str_eq(src, "Vector2") || str_eq(src, "Vector3") || str_eq(src, "Quat") || str_eq(
        src,
        "Transform",
    ) || str_eq(src, "Transform2D") || str_eq(src, "Rect2") || str_eq(src, "Plane") || str_eq(
        src,
        "AABB",
    ) || str_eq(src, "Basis") || str_eq(src, "Color") || str_eq(src, "NodePath") || str_eq(
        src,
        "Variant",
    ) || str_eq(src, "RID") || str_eq(src, "Array") || str_eq(src, "Dictionary") || str_eq(
        src,
        "PoolByteArray",
    ) || str_eq(src, "PoolStringArray") || str_eq(src, "PoolVector2Array") || str_eq(
        src,
        "PoolVector3Array",
    ) || str_eq(src, "PoolColorArray") || str_eq(src, "PoolIntArray") || str_eq(
        src,
        "PoolRealArray",
    )
}

impl Ty {
    /// Reads a type from the string that the schema holds for it.
    pub fn from_src(src: &str) -> (r: Ty)
        ensures
            r.deep_view() == ty_of(src@),
    {
        if str_eq(src, "void") {
            return Ty::Void;
        }
        let n = src.unicode_len();
        if n >= 5 && src.get_char(0) == 'e' && src.get_char(1) == 'n' && src.get_char(2) == 'u'
            && src.get_char(3) == 'm' && src.get_char(4) == '.' {
            let name = src.substring_char(5, n);
            assert(name@ =~= src@.skip(5));
            return Ty::Enum(String::from_str(name));
        }
        if is_builtin(src) {
            Ty::Builtin(String::from_str(src))
        } else {
            Ty::Object(String::from_str(src))
        }
    }

    /// Tells whether the type is a class.
    pub fn is_object(&self) -> (r: bool)
        ensures
            r == (self.deep_view() is Object),
    {
        match self {
            Ty::Object(_) => true,
            _ => false,
        }
    }
}

/// Whether the schema string `src` denotes a class.
pub fn is_class_type(src: &str) -> (r: bool)
    ensures
        r == names_class(src@),
{
    Ty::from_src(src).is_object()
}

/// Why a schema cannot be used for generation.
#[derive(Clone, Debug, PartialEq, Eq)]
pub enum SchemaError {
    /// Two classes of the schema share the name `class`.
    DuplicateClass { class: String },
    /// `class` names a base class that the schema does not hold.
    UnknownBaseClass { class: String, base: String },
    /// `method` of `class` takes or returns the class `referenced`, which the
    /// schema does not hold.
    UnknownClass { class: String, method: String, referenced: String },
    /// Every class of the schema has a base class, so it has no root.
    MissingRoot,
    /// Both `first` and `second` lack a base class.
    SecondRoot { first: String, second: String },
    /// The base classes above `class` do not lead to a class without a base
    /// class: they run in a circle, or break off at a name that the schema
    /// does not hold.
    Unrooted { class: String },
}

/// The value of a [`SchemaError`] in contracts.
pub enum SchemaErrorView {
    DuplicateClass { class: Seq<char> },
    UnknownBaseClass { class: Seq<char>, base: Seq<char> },
    UnknownClass { class: Seq<char>, method: Seq<char>, referenced: Seq<char> },
    MissingRoot,
    SecondRoot { first: Seq<char>, second: Seq<char> },
    Unrooted { class: Seq<char> },
}

impl DeepView for SchemaError {
    type V = SchemaErrorView;

    open spec fn deep_view(&self) -> SchemaErrorView {
        match self {
            SchemaError::DuplicateClass { class } => SchemaErrorView::DuplicateClass {
                class: class@,
            },
            SchemaError::UnknownBaseClass { class, base } => SchemaErrorView::UnknownBaseClass {
                class: class@,
                base: base@,
            },
            SchemaError::UnknownClass {
                class,
                method,
                referenced,
            } => SchemaErrorView::UnknownClass {
                class: class@,
                method: method@,
                referenced: referenced@,
            },
            SchemaError::MissingRoot => SchemaErrorView::MissingRoot,
            SchemaError::SecondRoot { first, second } => SchemaErrorView::SecondRoot {
                first: first@,
                second: second@,
            },
            SchemaError::Unrooted { class } => SchemaErrorView::Unrooted {
                class: class@,
            },
        }
    }
}

/// The classes of a schema, as mathematical values.
pub struct ApiView {
    pub classes: Seq<ClassView>,
    /// The classes that the engine registers under an underscore-prefixed name.
    pub api_underscore: Seq<Seq<char>>,
}

impl ApiView {
    /// Whether the schema holds a class called `name`.
    pub open spec fn has_class(self, name: Seq<char>) -> bool {
        exists|i: int| 0 <= i < self.classes.len() && self.classes[i].name == name
    }

    /// The position of the class called `name`, where the schema holds one.
    pub open spec fn index_of(self, name: Seq<char>) -> int {
        choose|i: int| 0 <= i < self.classes.len() && self.classes[i].name == name
    }

    /// The class called `name`, where the schema holds one.
    pub open spec fn class_named(self, name: Seq<char>) -> ClassView {
        self.classes[self.index_of(name)]
    }

    /// No two classes share a name.
    pub open spec fn names_unique(self) -> bool {
        forall|i: int, j: int|
            0 <= i < j < self.classes.len() ==> self.classes[i].name != self.classes[j].name
    }

    /// `j` is the first position whose name already occurred before it.
    pub open spec fn is_first_duplicate(self, j: int) -> bool {
        &&& 0 <= j < self.classes.len()
        &&& exists|i: int| 0 <= i < j && self.classes[i].name == self.classes[j].name
        &&& forall|i: int, k: int|
            0 <= i < k < j ==> self.classes[i].name != self.classes[k].name
    }
    /// The schema after a pass has been chosen: a class is generated exactly
    /// when its membership in `set` is `members`. Nothing else changes.
    pub open spec fn with_generated(self, set: Set<Seq<char>>, members: bool) -> ApiView {
        ApiView {
            classes: Seq::new(
                self.classes.len(),
                |i: int| self.classes[i].marked(set.contains(self.classes[i].name) == members),
            ),
            api_underscore: self.api_underscore,
        }
    }
}

impl ClassView {
    /// The class with its generation flag set to `generated`.
    pub open spec fn marked(self, generated: bool) -> ClassView {
        ClassView { is_generated: generated, ..self }
    }
}

/// The whole schema: every class of the engine, each under a name of its own.
#[derive(Debug)]
pub struct Api {
    classes: Vec<GodotClass>,
    api_underscore: Vec<String>,
}

impl DeepView for Api {
    type V = ApiView;

    closed spec fn deep_view(&self) -> ApiView {
        ApiView {
            classes: self.classes.deep_view(),
            api_underscore: self.api_underscore.deep_view(),
        }
    }
}

impl Api {
    #[verifier::type_invariant]
    spec fn names_are_unique(self) -> bool {
        self.deep_view().names_unique()
    }

    /// Builds the schema from its classes and from the names that the engine
    /// registers with a leading underscore. Fails when two classes share a
    /// name, and names the first class that repeats an earlier one.
    pub fn new(classes: Vec<GodotClass>, api_underscore: Vec<String>) -> (r: Result<
        Api,
        SchemaError,
    >)
        ensures
            match r {
                Ok(api) => {
                    &&& api.deep_view().classes == classes.deep_view()
                    &&& api.deep_view().api_underscore == api_underscore.deep_view()
                    &&& api.deep_view().names_unique()
                },
                Err(e) => exists|j: int|
                    {
                        &&& (ApiView {
                            classes: classes.deep_view(),
                            api_underscore: api_underscore.deep_view(),
                        }).is_first_duplicate(j)
                        &&& e.deep_view() == SchemaErrorView::DuplicateClass {
                            class: #[trigger] classes.deep_view()[j].name,
                        }
                    },
            },
    {
        let ghost view = ApiView {
            classes: classes.deep_view(),
            api_underscore: api_underscore.deep_view(),
        };
        let mut j: usize = 0;
        while j < classes.len()
            invariant
                j <= classes.len(),
                view.classes == classes.deep_view(),
                forall|i: int, k: int|
                    0 <= i < k < j ==> view.classes[i].name != view.classes[k].name,
            decreases classes.len() - j,
        {
            let mut i: usize = 0;
            while i < j
                invariant
                    i <= j < classes.len(),
                    view.classes == classes.deep_view(),
                    forall|a: int, b: int|
                        0 <= a < b < j ==> view.classes[a].name != view.classes[b].name,
                    forall|k: int| 0 <= k < i ==> view.classes[k].name != view.classes[j as int].name,
                decreases j - i,
            {
                assert(view.classes[i as int] == classes@[i as int].deep_view());
                assert(view.classes[j as int] == classes@[j as int].deep_view());
                if classes[i].name == classes[j].name {
                    let class = classes[j].name.clone();
                    assert(view.is_first_duplicate(j as int));
                    return Err(SchemaError::DuplicateClass { class });
                }
                i += 1;
            }
            j += 1;
        }
        Ok(Api { classes, api_underscore })
    }

    /// The classes of the schema, in schema order. No two share a name.
    pub fn classes(&self) -> (r: &Vec<GodotClass>)
        ensures
            r.deep_view() == self.deep_view().classes,
            self.deep_view().names_unique(),
    {
        proof {
            use_type_invariant(self);
        }
        &self.classes
    }

    /// The position of the class called `name`.
    pub fn find_index(&self, name: &str) -> (r: Option<usize>)
        ensures
            match r {
                Some(i) => i < self.deep_view().classes.len() && self.deep_view().classes[i as int].name
                    == name@ && self.deep_view().index_of(name@) == i,
                None => !self.deep_view().has_class(name@),
            },
    {
        proof {
            use_type_invariant(self);
        }
        let mut i: usize = 0;
        while i < self.classes.len()
            invariant
                i <= self.classes.len(),
                self.deep_view().names_unique(),
                forall|k: int| 0 <= k < i ==> self.deep_view().classes[k].name != name@,
            decreases self.classes.len() - i,
        {
            assert(self.deep_view().classes[i as int] == self.classes@[i as int].deep_view());
            if str_eq(self.classes[i].name.as_str(), name) {
                return Some(i);
            }
            i += 1;
        }
        None
    }

    /// Looks up a class by name.
    pub fn find_class(&self, name: &str) -> (r: Option<&GodotClass>)
        ensures
            match r {
                Some(class) => self.deep_view().has_class(name@) && class.deep_view()
                    == self.deep_view().class_named(name@),
                None => !self.deep_view().has_class(name@),
            },
    {
        match self.find_index(name) {
            Some(i) => Some(&self.classes[i]),
            None => None,
        }
    }
    /// Tells whether the engine registers the class called `name` under an
    /// underscore-prefixed name.
    pub fn has_underscore(&self, name: &str) -> (r: bool)
        ensures
            r == self.deep_view().api_underscore.contains(name@),
    {
        let mut i: usize = 0;
        while i < self.api_underscore.len()
            invariant
                i <= self.api_underscore.len(),
                forall|k: int| 0 <= k < i ==> self.deep_view().api_underscore[k] != name@,
            decreases self.api_underscore.len() - i,
        {
            assert(self.deep_view().api_underscore[i as int] == self.api_underscore@[i as int]@);
            if str_eq(self.api_underscore[i].as_str(), name) {
                return true;
            }
            i += 1;
        }
        false
    }
    /// Chooses the classes of a pass: a class is generated exactly when its
    /// membership in `set` is `members`. A foundation pass generates the
    /// members of its set; a pass that builds on a foundation generates
    /// everything but the members.
    pub fn mark_generated(self, set: &ClassSet, members: bool) -> (r: Api)
        ensures
            r.deep_view() == self.deep_view().with_generated(set@, members),
    {
        proof {
            use_type_invariant(&self);
        }
        let ghost before = self.deep_view();
        let Api { mut classes, api_underscore } = self;
        let mut i: usize = 0;
        while i < classes.len()
            invariant
                i <= classes.len(),
                classes.len() == before.classes.len(),
                forall|k: int|
                    0 <= k < i ==> (#[trigger] classes.deep_view()[k]) == before.classes[k].marked(
                        set@.contains(before.classes[k].name) == members,
                    ),
                forall|k: int|
                    i <= k < classes.len() ==> (#[trigger] classes.deep_view()[k])
                        == before.classes[k],
            decreases classes.len() - i,
        {
            let ghost prior = classes.deep_view();
            let ghost prior_classes = classes@;
            assert(prior[i as int] == classes@[i as int].deep_view());
            let generated = set.contains(classes[i].name.as_str()) == members;
            classes[i].is_generated = generated;
            assert forall|k: int| 0 <= k < classes.len() && k != i implies (
            #[trigger] classes.deep_view()[k]) == prior[k] by {
                assert(classes@[k] == prior_classes[k]);
            }
            assert(classes.deep_view()[i as int] == classes@[i as int].deep_view());
            i += 1;
        }
        let r = Api { classes, api_underscore };
        assert(r.deep_view().classes =~= before.with_generated(set@, members).classes);
        r
    }
}

} // verus!
