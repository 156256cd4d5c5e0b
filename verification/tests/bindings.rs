use bindings_generator::api::{
    Api, Enum, GodotArgument, GodotClass, GodotMethod, NamedValue, SchemaError, Ty,
};
use bindings_generator::class_set::ClassSet;
use bindings_generator::classes::{
    enum_type_name, generate_class_constants, generate_class_impl, generate_class_struct,
    generate_enums, ClassImpl, ClassStruct, MemoryKind,
};
use bindings_generator::methods::{
    generate_method_table, is_excluded_method, lookup_class_name, resolve_method, resolve_type,
    ArgumentBinding, MethodBinding, PassMode, TableSlot,
};
use bindings_generator::runtime::{
    check_downcast, init_step, populate_table, BindError, InitAction, InitEvent, InitState,
    RefCount,
};
use bindings_generator::special_methods::{generate_deref_impl, generate_downcasts, generate_traits};
use bindings_generator::{
    generate_bindings, generate_class, generate_class_bindings, module_binding_of,
};

fn name(s: &str) -> String {
    s.to_string()
}

fn arg(arg_name: &str, ty: &str) -> GodotArgument {
    GodotArgument { name: name(arg_name), ty: name(ty), default_value: None }
}

fn call(method_name: &str, return_type: &str, arguments: Vec<GodotArgument>) -> GodotMethod {
    GodotMethod {
        name: name(method_name),
        return_type: name(return_type),
        is_virtual: false,
        has_varargs: false,
        returns_new_instance: false,
        arguments,
    }
}

fn plain(class_name: &str, base_class: &str, methods: Vec<GodotMethod>) -> GodotClass {
    GodotClass {
        name: name(class_name),
        base_class: name(base_class),
        singleton: false,
        instantiable: false,
        methods,
        enums: Vec::new(),
        constants: Vec::new(),
        is_generated: false,
    }
}

fn slot(field: &str, lookup_class: &str, method: Option<&str>) -> TableSlot {
    TableSlot { field: name(field), lookup_class: name(lookup_class), method: method.map(name) }
}

fn names_of(names: &[&str]) -> ClassSet {
    let mut set = ClassSet::new();
    for n in names {
        set.insert(name(n));
    }
    set
}

fn two_classes() -> Api {
    let mut node = plain("Node", "Root", vec![call("get_name", "String", vec![])]);
    node.instantiable = true;
    Api::new(vec![plain("Root", "", vec![]), node], vec![]).unwrap()
}

fn world() -> Api {
    let mut texture = plain(
        "Texture",
        "Reference",
        vec![call("get_size", "Vector2", vec![]), call("free", "void", vec![])],
    );
    texture.instantiable = true;
    let mut server = plain("VisualServer", "Object", vec![call("sync", "void", vec![])]);
    server.singleton = true;
    let mut mesh = plain("Mesh", "Reference", vec![]);
    mesh.enums = vec![
        Enum {
            name: name("PrimitiveType"),
            values: vec![
                NamedValue { name: name("POINTS"), value: 0 },
                NamedValue { name: name("LINES"), value: 1 },
            ],
        },
        Enum { name: name("BlendShapeMode"), values: vec![] },
    ];
    mesh.constants = vec![NamedValue { name: name("ARRAY_MAX"), value: 9 }];
    let mut duplicate = call("duplicate", "Node", vec![arg("flags", "int")]);
    duplicate.returns_new_instance = true;
    let mut add_child = call("add_child", "void", vec![arg("node", "Node"), arg("in", "bool")]);
    add_child.arguments[1].default_value = Some(name("false"));
    let mut node = plain(
        "Node",
        "Object",
        vec![
            duplicate,
            add_child,
            call("get_texture", "Texture", vec![arg("type", "enum.Mesh::PrimitiveType")]),
            call("get_parent", "Node", vec![]),
        ],
    );
    node.instantiable = true;
    Api::new(
        vec![
            plain("Object", "", vec![call("free", "void", vec![]), call("getClass", "String", vec![])]),
            plain("Reference", "Object", vec![]),
            texture,
            server,
            mesh,
            node,
            plain("Marker", "Object", vec![]),
        ],
        vec![name("VisualServer")],
    ).unwrap()
}

#[test]
fn two_class_schema_end_to_end() {
    let api = two_classes().mark_generated(&names_of(&["Root", "Node"]), true);
    let out = generate_bindings(&api).unwrap();
    assert_eq!(out.modules.len(), 2);
    assert_eq!(out.modules[0].class_name, "Root");
    assert_eq!(out.modules[0].module, "root");
    assert!(out.modules[0].bindings.methods_and_table.is_none());
    assert_eq!(out.modules[0].bindings.traits.upcast, None);
    assert_eq!(out.modules[0].bindings.types_and_methods.class_impl.constructor, None);

    let node = &out.modules[1];
    assert_eq!(node.module, "node");
    assert_eq!(node.class_name, "Node");
    assert_eq!(
        node.bindings.types_and_methods.class_struct,
        ClassStruct { name: name("Node"), tracks_aliasing: true }
    );
    assert_eq!(
        node.bindings.types_and_methods.class_impl,
        ClassImpl { constructor: Some(MemoryKind::ManuallyManaged), singleton_accessor: false }
    );
    assert_eq!(node.bindings.traits.upcast, Some(name("Root")));
    assert_eq!(node.bindings.traits.downcast_from, vec![name("Root")]);
    assert_eq!(node.bindings.traits.memory, MemoryKind::ManuallyManaged);
    assert!(node.bindings.traits.instantiable);
    let unit = node.bindings.methods_and_table.as_ref().unwrap();
    let slots = vec![
        slot("Node__class_constructor", "Node", None),
        slot("Node__get_name", "Node", Some("get_name")),
    ];
    assert_eq!(unit.table, slots);
    assert_eq!(
        unit.methods,
        vec![MethodBinding {
            rust_name: name("get_name"),
            wire_name: name("get_name"),
            slot: name("Node__get_name"),
            arguments: vec![],
            return_type: Ty::Builtin(name("String")),
            return_mode: PassMode::Value,
            is_virtual: false,
            has_varargs: false,
        }]
    );
    assert_eq!(out.method_table, slots);
    assert_eq!(populate_table(&vec![Some(11), Some(22)]), Ok(vec![11, 22]));
}

#[test]
fn only_generated_classes_are_emitted() {
    let api = world().mark_generated(&names_of(&["Texture", "Node", "Marker"]), true);
    let out = generate_bindings(&api).unwrap();
    let emitted: Vec<&str> = out.modules.iter().map(|m| m.class_name.as_str()).collect();
    assert_eq!(emitted, vec!["Texture", "Node", "Marker"]);
    let fields: Vec<&str> = out.method_table.iter().map(|s| s.field.as_str()).collect();
    assert_eq!(
        fields,
        vec![
            "Texture__class_constructor",
            "Texture__get_size",
            "Node__class_constructor",
            "Node__duplicate",
            "Node__add_child",
            "Node__get_texture",
            "Node__get_parent",
        ]
    );
    let nothing = generate_bindings(&world()).unwrap();
    assert!(nothing.modules.is_empty());
    assert!(nothing.method_table.is_empty());
}

#[test]
fn no_class_is_emitted_twice() {
    let all = names_of(&["Object", "Reference", "Texture", "VisualServer", "Mesh", "Node", "Marker"]);
    let out = generate_bindings(&world().mark_generated(&all, true)).unwrap();
    assert_eq!(out.modules.len(), 7);
    for i in 0..out.modules.len() {
        for j in 0..i {
            assert_ne!(out.modules[i].class_name, out.modules[j].class_name);
        }
    }
}

#[test]
fn modules_are_named_in_snake_case() {
    let classes = vec![
        plain("Object", "", vec![]),
        plain("AnimationPlayer", "Object", vec![]),
        plain("HTTPClient", "Object", vec![]),
    ];
    let api = Api::new(classes, vec![]).unwrap().mark_generated(&ClassSet::new(), false);
    let out = generate_bindings(&api).unwrap();
    let modules: Vec<&str> = out.modules.iter().map(|m| m.module.as_str()).collect();
    assert_eq!(modules, vec!["object", "animation_player", "http_client"]);
}

#[test]
fn a_module_lists_the_emitted_enum_names() {
    let api = world();
    let mesh = api.find_class("Mesh").unwrap();
    let unit = generate_class_bindings(&api, mesh).unwrap();
    let module = module_binding_of(mesh, name("any_name"), unit.clone());
    assert_eq!(module.module, "any_name");
    assert_eq!(module.class_name, "Mesh");
    assert_eq!(module.enum_names, vec![name("MeshPrimitiveType"), name("MeshBlendShapeMode")]);
    assert_eq!(module.bindings, unit);
}

#[test]
fn generation_fails_on_an_inconsistent_schema() {
    let api = Api::new(
        vec![plain("Object", "", vec![]), plain("Node", "Object", vec![call("m", "Ghost", vec![])])],
        vec![],
    ).unwrap();
    let expected = SchemaError::UnknownClass {
        class: name("Node"),
        method: name("m"),
        referenced: name("Ghost"),
    };
    assert_eq!(generate_bindings(&api), Err(expected.clone()));
    assert_eq!(generate_class_bindings(&api, &api.classes()[1]), Err(expected.clone()));
    assert_eq!(generate_class(&api, "Node", None), Err(expected));
    assert!(generate_class(&api, "Object", None).unwrap().is_some());
    let rootless = Api::new(vec![plain("A", "B", vec![]), plain("B", "A", vec![])], vec![]).unwrap();
    assert_eq!(generate_bindings(&rootless), Err(SchemaError::MissingRoot));
}

#[test]
fn a_class_with_an_unknown_base_is_not_synthesized() {
    let api = Api::new(vec![plain("Node", "Missing", vec![call("m", "Ghost", vec![])])], vec![])
        .unwrap();
    assert_eq!(
        generate_class_bindings(&api, &api.classes()[0]),
        Err(SchemaError::UnknownBaseClass { class: name("Node"), base: name("Missing") })
    );
}

#[test]
fn a_single_class_is_generated_on_demand() {
    let api = world();
    let texture = generate_class(&api, "Texture", None).unwrap().unwrap();
    assert_eq!(texture, generate_class_bindings(&api, api.find_class("Texture").unwrap()).unwrap());
    assert_eq!(generate_class(&api, "Missing", None), Ok(None));
    let foundation = names_of(&["Object", "Texture"]);
    assert_eq!(generate_class(&api, "Texture", Some(&foundation)), Ok(None));
    assert!(generate_class(&api, "Node", Some(&foundation)).unwrap().is_some());
    assert_eq!(generate_class(&api, "Missing", Some(&foundation)), Ok(None));
}

#[test]
fn every_class_with_a_base_gets_an_upcast() {
    let api = world();
    for class in api.classes() {
        let unit = generate_class_bindings(&api, class).unwrap();
        if class.base_class.is_empty() {
            assert_eq!(unit.traits.upcast, None);
        } else {
            assert_eq!(unit.traits.upcast, Some(class.base_class.clone()));
        }
        assert_eq!(generate_deref_impl(class), unit.traits.upcast);
    }
}

#[test]
fn downcasts_come_from_the_ancestors() {
    let api = world();
    let texture = api.find_class("Texture").unwrap();
    assert_eq!(generate_downcasts(&api, texture), vec![name("Reference"), name("Object")]);
    assert!(generate_downcasts(&api, api.find_class("Object").unwrap()).is_empty());
    let cyclic = Api::new(vec![plain("A", "B", vec![]), plain("B", "A", vec![])], vec![]).unwrap();
    assert_eq!(generate_downcasts(&cyclic, &cyclic.classes()[0]), vec![name("B"), name("A")]);
}

#[test]
fn memory_management_follows_reference_counting() {
    let api = world();
    let texture = generate_traits(&api, api.find_class("Texture").unwrap());
    assert_eq!(texture.memory, MemoryKind::RefCounted);
    assert!(texture.instantiable);
    let node = generate_traits(&api, api.find_class("Node").unwrap());
    assert_eq!(node.memory, MemoryKind::ManuallyManaged);
    let marker = generate_traits(&api, api.find_class("Marker").unwrap());
    assert!(!marker.instantiable);
}

#[test]
fn constructors_exist_for_instantiable_classes_only() {
    let api = world();
    let of = |n: &str| generate_class_impl(&api, api.find_class(n).unwrap());
    assert_eq!(of("Texture").constructor, Some(MemoryKind::RefCounted));
    assert_eq!(of("Node").constructor, Some(MemoryKind::ManuallyManaged));
    assert_eq!(of("Mesh").constructor, None);
    assert_eq!(of("Object").constructor, None);
    assert!(of("VisualServer").singleton_accessor);
    assert!(!of("Node").singleton_accessor);
}

#[test]
fn handles_that_are_unsafe_to_hold_track_aliasing() {
    let api = world();
    let of = |n: &str| generate_class_struct(&api, api.find_class(n).unwrap());
    assert_eq!(of("Node"), ClassStruct { name: name("Node"), tracks_aliasing: true });
    assert_eq!(of("Texture"), ClassStruct { name: name("Texture"), tracks_aliasing: false });
    assert_eq!(of("VisualServer").tracks_aliasing, false);
    assert_eq!(of("Object").tracks_aliasing, true);
}

#[test]
fn enums_carry_the_class_name() {
    let api = world();
    let mesh = api.find_class("Mesh").unwrap();
    let enums = generate_enums(mesh);
    assert_eq!(enums.len(), 2);
    assert_eq!(enums[0].name, "MeshPrimitiveType");
    assert_eq!(enums[0].values, mesh.enums[0].values);
    assert_eq!(enums[1].name, "MeshBlendShapeMode");
    assert!(enums[1].values.is_empty());
    assert_eq!(generate_class_constants(mesh), vec![NamedValue { name: name("ARRAY_MAX"), value: 9 }]);
    assert!(generate_enums(api.find_class("Node").unwrap()).is_empty());
}

#[test]
fn a_class_with_nothing_to_call_has_no_table() {
    let api = world();
    let marker = generate_class_bindings(&api, api.find_class("Marker").unwrap()).unwrap();
    assert!(marker.methods_and_table.is_none());
    let mesh = generate_class_bindings(&api, api.find_class("Mesh").unwrap()).unwrap();
    assert!(mesh.methods_and_table.is_none());
    let object = generate_class_bindings(&api, api.find_class("Object").unwrap()).unwrap();
    let unit = object.methods_and_table.unwrap();
    assert_eq!(
        unit.table,
        vec![
            slot("Object__class_constructor", "Object", None),
            slot("Object__getClass", "Object", Some("getClass")),
        ]
    );
    assert_eq!(unit.methods.len(), 1);
    assert_eq!(unit.methods[0].rust_name, "get_class");
    assert_eq!(unit.methods[0].wire_name, "getClass");
}

#[test]
fn the_destructor_is_never_exposed() {
    let api = world();
    assert!(is_excluded_method("free"));
    assert!(!is_excluded_method("Free"));
    assert!(!is_excluded_method("queue_free"));
    let texture = generate_class_bindings(&api, api.find_class("Texture").unwrap()).unwrap();
    let unit = texture.methods_and_table.unwrap();
    assert!(unit.methods.iter().all(|m| m.wire_name != "free"));
    assert!(unit.table.iter().all(|s| s.method.as_deref() != Some("free")));
    assert_eq!(unit.methods.len(), 1);
    assert_eq!(unit.table.len(), 2);
    let only_free = plain("Object", "", vec![call("free", "void", vec![])]);
    let api = Api::new(vec![only_free], vec![]).unwrap();
    let unit = generate_class_bindings(&api, &api.classes()[0]).unwrap().methods_and_table.unwrap();
    assert!(unit.methods.is_empty());
    assert_eq!(unit.table, vec![slot("Object__class_constructor", "Object", None)]);
}

#[test]
fn the_lookup_alias_is_used_for_the_lookup_only() {
    let api = world();
    assert_eq!(lookup_class_name(&api, "VisualServer"), "_VisualServer");
    assert_eq!(lookup_class_name(&api, "Node"), "Node");
    let server = api.find_class("VisualServer").unwrap();
    assert_eq!(
        generate_method_table(&api, server),
        vec![
            slot("VisualServer__class_constructor", "_VisualServer", None),
            slot("VisualServer__sync", "_VisualServer", Some("sync")),
        ]
    );
    let unit = generate_class_bindings(&api, server).unwrap();
    assert_eq!(unit.types_and_methods.class_struct.name, "VisualServer");
}

#[test]
fn types_travel_by_their_ownership() {
    let api = world();
    assert_eq!(resolve_type(&api, "int", false), Some(PassMode::Value));
    assert_eq!(resolve_type(&api, "void", true), Some(PassMode::Value));
    assert_eq!(resolve_type(&api, "enum.Error", true), Some(PassMode::Value));
    assert_eq!(resolve_type(&api, "Texture", false), Some(PassMode::RefCounted));
    assert_eq!(resolve_type(&api, "Texture", true), Some(PassMode::RefCounted));
    assert_eq!(resolve_type(&api, "Reference", false), Some(PassMode::RefCounted));
    assert_eq!(resolve_type(&api, "Node", true), Some(PassMode::Owned));
    assert_eq!(resolve_type(&api, "Node", false), Some(PassMode::Borrowed));
    assert_eq!(resolve_type(&api, "Ghost", false), None);
}

#[test]
fn signatures_are_resolved() {
    let api = world();
    let node = api.find_class("Node").unwrap();
    let duplicate = resolve_method(&api, "Node", &node.methods[0]).unwrap();
    assert_eq!(duplicate.return_mode, PassMode::Owned);
    assert_eq!(duplicate.return_type, Ty::Object(name("Node")));
    assert_eq!(duplicate.arguments[0].mode, PassMode::Value);
    let add_child = resolve_method(&api, "Node", &node.methods[1]).unwrap();
    assert_eq!(
        add_child.arguments,
        vec![
            ArgumentBinding {
                name: name("node"),
                ty: Ty::Object(name("Node")),
                mode: PassMode::Borrowed,
                default_value: None,
            },
            ArgumentBinding {
                name: name("_in"),
                ty: Ty::Builtin(name("bool")),
                mode: PassMode::Value,
                default_value: Some(name("false")),
            },
        ]
    );
    assert_eq!(add_child.return_type, Ty::Void);
    assert_eq!(add_child.return_mode, PassMode::Value);
    let get_texture = resolve_method(&api, "Node", &node.methods[2]).unwrap();
    assert_eq!(get_texture.return_mode, PassMode::RefCounted);
    assert_eq!(get_texture.arguments[0].name, "_type");
    assert_eq!(get_texture.arguments[0].ty, Ty::Enum(name("Mesh::PrimitiveType")));
    let get_parent = resolve_method(&api, "Node", &node.methods[3]).unwrap();
    assert_eq!(get_parent.return_mode, PassMode::Borrowed);
}

#[test]
fn method_names_are_converted_and_escaped() {
    let api = world();
    let mut m = call("getTexture", "void", vec![]);
    m.is_virtual = true;
    m.has_varargs = true;
    let b = resolve_method(&api, "Node", &m).unwrap();
    assert_eq!(b.rust_name, "get_texture");
    assert_eq!(b.wire_name, "getTexture");
    assert!(b.is_virtual && b.has_varargs);
    assert_eq!(resolve_method(&api, "Node", &call("type", "void", vec![])).unwrap().rust_name, "_type");
    assert_eq!(resolve_method(&api, "Node", &call("Loop", "void", vec![])).unwrap().rust_name, "_loop");
    assert_eq!(resolve_method(&api, "Node", &call("get_name", "void", vec![])).unwrap().rust_name, "get_name");
}

#[test]
fn a_signature_with_an_unknown_class_is_refused() {
    let api = world();
    let m = call("m", "Node", vec![arg("a", "Node"), arg("b", "Ghost"), arg("c", "Phantom")]);
    assert_eq!(
        resolve_method(&api, "Sprite", &m),
        Err(SchemaError::UnknownClass {
            class: name("Sprite"),
            method: name("m"),
            referenced: name("Ghost"),
        })
    );
}

#[test]
fn sanity_test_generated_code() {
    let api = world();
    for class in api.classes() {
        let unit = generate_class_bindings(&api, class).unwrap();
        assert_eq!(unit.types_and_methods.class_struct, generate_class_struct(&api, class));
        assert_eq!(unit.types_and_methods.enums, generate_enums(class));
        if !class.constants.is_empty() {
            assert_eq!(unit.types_and_methods.constants, generate_class_constants(class));
        } else {
            assert!(unit.types_and_methods.constants.is_empty());
        }
        assert_eq!(unit.types_and_methods.class_impl, generate_class_impl(&api, class));
        assert_eq!(unit.traits, generate_traits(&api, class));
        if class.instantiable || !class.methods.is_empty() {
            let methods_and_table = unit.methods_and_table.unwrap();
            assert_eq!(methods_and_table.table, generate_method_table(&api, class));
            let exposed: Vec<MethodBinding> = class
                .methods
                .iter()
                .filter(|m| !is_excluded_method(&m.name))
                .map(|m| resolve_method(&api, &class.name, m).unwrap())
                .collect();
            assert_eq!(methods_and_table.methods, exposed);
        } else {
            assert!(unit.methods_and_table.is_none());
        }
    }
}

#[test]
fn the_last_release_destroys_the_object() {
    let mut count = RefCount::new();
    assert_eq!(count.count(), 1);
    assert!(count.acquire());
    assert_eq!(count.count(), 2);
    assert_eq!(count.release(), Some(false));
    assert!(count.is_alive());
    assert_eq!(count.count(), 1);
    assert_eq!(count.release(), Some(true));
    assert!(!count.is_alive());
    assert_eq!(count.count(), 0);
}

#[test]
fn a_destroyed_object_stays_destroyed() {
    let mut count = RefCount::new();
    assert_eq!(count.release(), Some(true));
    assert_eq!(count.release(), None);
    assert!(!count.acquire());
    assert_eq!(count.count(), 0);
}

#[test]
fn the_table_is_populated_once_for_many_callers() {
    let callers = 8;
    let mut state = InitState::Uninitialized;
    let mut initializations = 0;
    let mut waiting = 0;
    for _ in 0..callers {
        let (next, action) = init_step(state, InitEvent::Arrive);
        state = next;
        match action {
            InitAction::Initialize => initializations += 1,
            InitAction::Wait => waiting += 1,
            other => panic!("{:?} before the table is ready", other),
        }
    }
    assert_eq!(initializations, 1);
    assert_eq!(waiting, callers - 1);
    assert_eq!(state, InitState::Initializing);
    assert_eq!(init_step(state, InitEvent::Complete), (InitState::Ready, InitAction::Nothing));
    state = InitState::Ready;
    for _ in 0..callers {
        assert_eq!(init_step(state, InitEvent::Arrive), (InitState::Ready, InitAction::Proceed));
    }
    assert_eq!(init_step(state, InitEvent::Complete), (InitState::Ready, InitAction::Nothing));
    assert_eq!(
        init_step(InitState::Uninitialized, InitEvent::Complete),
        (InitState::Uninitialized, InitAction::Nothing)
    );
}

#[test]
fn a_missing_pointer_is_fatal() {
    assert_eq!(populate_table(&vec![]), Ok(vec![]));
    assert_eq!(populate_table(&vec![Some(7), Some(0), Some(9)]), Ok(vec![7, 0, 9]));
    assert_eq!(
        populate_table(&vec![Some(7), None, Some(9), None]),
        Err(BindError { slot: 1 })
    );
    assert_eq!(populate_table(&vec![None]), Err(BindError { slot: 0 }));
}

#[test]
fn a_name_that_is_no_class_is_nobodys_ancestor() {
    let api = world();
    let node = api.find_class("Node").unwrap();
    assert!(!check_downcast(&api, "Node", ""));
    assert!(!check_downcast(&api, "Object", ""));
    assert!(!api.class_inherits(node, ""));
    assert!(!api.class_inherits(node, "Ghost"));
    assert!(api.class_inherits(node, "Object"));
    let dangling = Api::new(vec![plain("Node", "Ghost", vec![])], vec![]).unwrap();
    assert!(!dangling.class_inherits(&dangling.classes()[0], "Ghost"));
    assert!(!check_downcast(&dangling, "Node", "Ghost"));
}

#[test]
fn a_class_that_is_its_own_base_is_refused() {
    let api = Api::new(vec![plain("Root", "", vec![]), plain("Loop", "Loop", vec![])], vec![])
        .unwrap();
    let expected = SchemaError::Unrooted { class: name("Loop") };
    assert_eq!(generate_class_bindings(&api, &api.classes()[1]), Err(expected.clone()));
    assert_eq!(generate_class(&api, "Loop", None), Err(expected.clone()));
    assert_eq!(generate_bindings(&api), Err(expected));
    assert!(generate_class_bindings(&api, &api.classes()[0]).is_ok());
    assert!(!api.is_rooted(&api.classes()[1]));
    assert!(api.is_rooted(&api.classes()[0]));
}

#[test]
fn no_class_is_an_ancestor_twice() {
    let api = world();
    for class in api.classes() {
        let unit = generate_class_bindings(&api, class).unwrap();
        let line = &unit.traits.downcast_from;
        for i in 0..line.len() {
            for j in 0..i {
                assert_ne!(line[i], line[j]);
            }
            assert_ne!(line[i], class.name);
        }
    }
}

#[test]
fn virtual_methods_are_bound_like_the_others() {
    let mut ready = call("_ready", "void", vec![]);
    ready.is_virtual = true;
    let api = Api::new(vec![plain("Node", "", vec![ready, call("free", "void", vec![])])], vec![])
        .unwrap();
    let unit = generate_class_bindings(&api, &api.classes()[0]).unwrap().methods_and_table.unwrap();
    assert_eq!(unit.methods.len(), 1);
    assert!(unit.methods[0].is_virtual);
    assert_eq!(unit.methods[0].wire_name, "_ready");
    assert_eq!(unit.methods[0].rust_name, "ready");
    assert_eq!(unit.methods[0].slot, "Node___ready");
    assert_eq!(unit.table.len(), 2);
    assert_eq!(unit.table[1].field, unit.methods[0].slot);
}

#[test]
fn every_method_names_its_slot() {
    let api = world();
    for class in api.classes() {
        let unit = generate_class_bindings(&api, class).unwrap();
        if let Some(unit) = unit.methods_and_table {
            assert_eq!(unit.table.len(), unit.methods.len() + 1);
            for (i, method) in unit.methods.iter().enumerate() {
                assert_eq!(unit.table[i + 1].field, method.slot);
                assert_eq!(unit.table[i + 1].method.as_ref(), Some(&method.wire_name));
            }
        }
    }
}

#[test]
fn enum_types_are_named_without_their_scope_marks() {
    assert_eq!(enum_type_name("Mesh::PrimitiveType"), "MeshPrimitiveType");
    assert_eq!(enum_type_name("Error"), "Error");
    assert_eq!(enum_type_name("Variant::Type"), "VariantType");
    assert_eq!(enum_type_name(""), "");
    assert_eq!(enum_type_name("::"), "");
    assert_eq!(enum_type_name("a:b"), "ab");
    let api = world();
    let mesh = api.find_class("Mesh").unwrap();
    assert_eq!(generate_enums(mesh)[0].name, enum_type_name("Mesh::PrimitiveType"));
}

#[test]
fn a_downcast_is_checked() {
    let api = world();
    assert!(check_downcast(&api, "Texture", "Texture"));
    assert!(check_downcast(&api, "Texture", "Reference"));
    assert!(check_downcast(&api, "Texture", "Object"));
    assert!(!check_downcast(&api, "Reference", "Texture"));
    assert!(!check_downcast(&api, "Node", "Texture"));
    assert!(!check_downcast(&api, "Ghost", "Ghost"));
    assert!(!check_downcast(&api, "Ghost", "Object"));
}
