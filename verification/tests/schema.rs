use bindings_generator::api::{
    is_class_type, Api, Enum, GodotArgument, GodotClass, GodotMethod, NamedValue, SchemaError, Ty,
};
use bindings_generator::class_set::ClassSet;
use bindings_generator::consistency::{check_class, check_references, check_schema, collect_references};
use bindings_generator::dependency::{strongly_connected_components, DependencyGraph};
use bindings_generator::keywords::is_reserved;
use bindings_generator::rust_safe_name;

fn text(s: &str) -> String {
    s.to_string()
}

fn argument(name: &str, ty: &str) -> GodotArgument {
    GodotArgument { name: text(name), ty: text(ty), default_value: None }
}

fn method(name: &str, return_type: &str, arguments: Vec<GodotArgument>) -> GodotMethod {
    GodotMethod {
        name: text(name),
        return_type: text(return_type),
        is_virtual: false,
        has_varargs: false,
        returns_new_instance: false,
        arguments,
    }
}

fn class(name: &str, base_class: &str, methods: Vec<GodotMethod>) -> GodotClass {
    GodotClass {
        name: text(name),
        base_class: text(base_class),
        singleton: false,
        instantiable: false,
        methods,
        enums: Vec::new(),
        constants: Vec::new(),
        is_generated: false,
    }
}

fn set_of(names: &[&str]) -> ClassSet {
    let mut set = ClassSet::new();
    for name in names {
        set.insert(text(name));
    }
    set
}

fn sorted(set: &ClassSet) -> Vec<String> {
    let mut names = set.names().clone();
    names.sort();
    names
}

/// Object <- Node <- Sprite, Object <- Reference <- Texture, and Island with
/// a base of its own line. Sprite and Texture refer to each other.
fn engine() -> Api {
    let classes = vec![
        class("Object", "", vec![method("get_class", "String", vec![])]),
        class("Node", "Object", vec![method("get_parent", "Node", vec![])]),
        class(
            "Sprite",
            "Node",
            vec![method("set_texture", "void", vec![argument("texture", "Texture")])],
        ),
        class("Reference", "Object", vec![]),
        class("Texture", "Reference", vec![method("get_owner", "Sprite", vec![])]),
        class("Island", "Object", vec![method("get_size", "int", vec![])]),
    ];
    Api::new(classes, vec![]).unwrap()
}

#[test]
fn reserved_words_are_escaped() {
    assert_eq!(rust_safe_name("use"), "_use");
    assert_eq!(rust_safe_name("type"), "_type");
    assert_eq!(rust_safe_name("loop"), "_loop");
    assert_eq!(rust_safe_name("in"), "_in");
    assert_eq!(rust_safe_name("override"), "_override");
    assert_eq!(rust_safe_name("where"), "_where");
}

#[test]
fn every_keyword_is_escaped() {
    let strict = [
        "as", "break", "const", "continue", "crate", "else", "enum", "extern", "false", "fn",
        "for", "if", "impl", "in", "let", "loop", "match", "mod", "move", "mut", "pub", "ref",
        "return", "self", "Self", "static", "struct", "super", "trait", "true", "type", "unsafe",
        "use", "where", "while", "async", "await", "dyn",
    ];
    let reserved = [
        "abstract", "become", "box", "do", "final", "macro", "override", "priv", "typeof",
        "unsized", "virtual", "yield", "try", "gen",
    ];
    for word in strict.iter().chain(reserved.iter()) {
        assert!(is_reserved(word));
        let escaped = rust_safe_name(word);
        assert_eq!(escaped, format!("_{}", word));
        assert!(!is_reserved(&escaped));
    }
    assert_eq!(rust_safe_name("match"), "_match");
    assert_eq!(rust_safe_name("fn"), "_fn");
    assert_eq!(rust_safe_name("self"), "_self");
}

#[test]
fn other_names_are_kept() {
    assert_eq!(rust_safe_name("get_name"), "get_name");
    assert_eq!(rust_safe_name(""), "");
    assert_eq!(rust_safe_name("used"), "used");
    assert_eq!(rust_safe_name("Type"), "Type");
    assert_eq!(rust_safe_name("_use"), "_use");
    assert_eq!(rust_safe_name("matches"), "matches");
    assert_eq!(rust_safe_name("Match"), "Match");
    assert_eq!(rust_safe_name("union"), "union");
}

#[test]
fn an_escaped_name_is_never_reserved() {
    for name in ["use", "type", "loop", "in", "override", "where", "free", "x"] {
        assert!(!is_reserved(&rust_safe_name(name)));
    }
    assert!(is_reserved("where"));
    assert!(!is_reserved("wher"));
}

#[test]
fn distinct_names_get_distinct_identifiers() {
    let names = ["use", "type", "loop", "in", "override", "where", "get", "set", "user"];
    for a in names {
        for b in names {
            if a != b {
                assert_ne!(rust_safe_name(a), rust_safe_name(b));
            }
        }
    }
}

#[test]
fn schema_types_are_told_apart() {
    assert_eq!(Ty::from_src("void"), Ty::Void);
    assert_eq!(Ty::from_src("int"), Ty::Builtin(text("int")));
    assert_eq!(Ty::from_src("String"), Ty::Builtin(text("String")));
    assert_eq!(Ty::from_src("PoolRealArray"), Ty::Builtin(text("PoolRealArray")));
    assert_eq!(Ty::from_src("enum.Error"), Ty::Enum(text("Error")));
    assert_eq!(Ty::from_src("enum.Variant::Type"), Ty::Enum(text("Variant::Type")));
    assert_eq!(Ty::from_src("enum."), Ty::Enum(text("")));
    assert_eq!(Ty::from_src("enum"), Ty::Object(text("enum")));
    assert_eq!(Ty::from_src("Node"), Ty::Object(text("Node")));
    assert_eq!(Ty::from_src("string"), Ty::Object(text("string")));
    assert!(Ty::from_src("Node").is_object());
    assert!(!Ty::from_src("void").is_object());
    assert!(is_class_type("Sprite"));
    assert!(!is_class_type("bool"));
    assert!(!is_class_type("enum.Sprite"));
}

#[test]
fn a_schema_holds_each_name_once() {
    let classes = vec![
        class("A", "", vec![]),
        class("B", "A", vec![]),
        class("C", "A", vec![]),
        class("B", "A", vec![]),
        class("C", "A", vec![]),
    ];
    match Api::new(classes, vec![]) {
        Err(e) => assert_eq!(e, SchemaError::DuplicateClass { class: text("B") }),
        Ok(_) => panic!("a repeated name was accepted"),
    }
    assert!(Api::new(vec![], vec![]).is_ok());
}

#[test]
fn classes_are_found_by_name() {
    let api = engine();
    assert_eq!(api.classes().len(), 6);
    assert_eq!(api.find_index("Sprite"), Some(2));
    assert_eq!(api.find_index("sprite"), None);
    assert_eq!(api.find_class("Texture").unwrap().base_class, "Reference");
    assert!(api.find_class("Missing").is_none());
}

#[test]
fn inheritance_follows_the_base_classes() {
    let api = engine();
    let sprite = api.find_class("Sprite").unwrap();
    assert!(api.class_inherits(sprite, "Node"));
    assert!(api.class_inherits(sprite, "Object"));
    assert!(!api.class_inherits(sprite, "Sprite"));
    assert!(!api.class_inherits(sprite, "Reference"));
    let object = api.find_class("Object").unwrap();
    assert!(!api.class_inherits(object, "Node"));
}

#[test]
fn inheritance_ends_on_a_cycle_of_base_classes() {
    let api = Api::new(vec![class("A", "B", vec![]), class("B", "A", vec![])], vec![]).unwrap();
    let a = api.find_class("A").unwrap();
    assert!(api.class_inherits(a, "B"));
    assert!(api.class_inherits(a, "A"));
    assert!(!api.class_inherits(a, "C"));
}

#[test]
fn reference_counting_is_inherited() {
    let api = engine();
    assert!(api.is_refcounted(api.find_class("Reference").unwrap()));
    assert!(api.is_refcounted(api.find_class("Texture").unwrap()));
    assert!(!api.is_refcounted(api.find_class("Object").unwrap()));
    assert!(!api.is_refcounted(api.find_class("Sprite").unwrap()));
}

#[test]
fn counted_references_and_singletons_are_pointer_safe() {
    let mut server = class("Server", "Object", vec![]);
    server.singleton = true;
    let api = Api::new(
        vec![
            class("Object", "", vec![]),
            class("Reference", "Object", vec![]),
            class("Node", "Object", vec![]),
            server,
        ],
        vec![],
    ).unwrap();
    assert!(api.is_pointer_safe(api.find_class("Reference").unwrap()));
    assert!(api.is_pointer_safe(api.find_class("Server").unwrap()));
    assert!(!api.is_pointer_safe(api.find_class("Node").unwrap()));
    assert!(!api.is_pointer_safe(api.find_class("Object").unwrap()));
}

#[test]
fn underscore_aliases_are_known() {
    let api = Api::new(vec![class("OS", "", vec![])], vec![text("OS"), text("Engine")]).unwrap();
    assert!(api.has_underscore("OS"));
    assert!(api.has_underscore("Engine"));
    assert!(!api.has_underscore("_OS"));
    assert!(!api.has_underscore("Node"));
}

#[test]
fn references_are_listed_in_schema_order() {
    let c = class(
        "Sprite",
        "Node",
        vec![
            method("a", "int", vec![argument("x", "Texture"), argument("y", "float")]),
            method("b", "Image", vec![argument("z", "enum.Mode"), argument("w", "Node")]),
        ],
    );
    let refs = collect_references(&c);
    let got: Vec<(Option<String>, String)> =
        refs.into_iter().map(|r| (r.method, r.class)).collect();
    assert_eq!(
        got,
        vec![
            (None, text("Node")),
            (Some(text("a")), text("Texture")),
            (Some(text("b")), text("Image")),
            (Some(text("b")), text("Node")),
        ]
    );
    assert!(collect_references(&class("Object", "", vec![])).is_empty());
}

#[test]
fn a_consistent_schema_passes_the_check() {
    let api = engine();
    assert_eq!(check_references(&api), Ok(()));
    assert_eq!(check_schema(&api), Ok(()));
    for c in api.classes() {
        assert_eq!(check_class(&api, c), Ok(()));
    }
}

#[test]
fn an_unknown_base_class_is_reported() {
    let api = Api::new(
        vec![class("Object", "", vec![]), class("Node", "Missing", vec![])],
        vec![],
    ).unwrap();
    let expected = SchemaError::UnknownBaseClass { class: text("Node"), base: text("Missing") };
    assert_eq!(check_schema(&api), Err(expected.clone()));
    assert_eq!(check_references(&api), Err(expected.clone()));
    assert_eq!(check_class(&api, &api.classes()[1]), Err(expected));
    assert_eq!(check_class(&api, &api.classes()[0]), Ok(()));
}

#[test]
fn an_unknown_class_in_a_signature_is_reported() {
    let api = Api::new(
        vec![
            class("Object", "", vec![]),
            class(
                "Node",
                "Object",
                vec![
                    method("fine", "Object", vec![argument("n", "Node")]),
                    method("bad", "Object", vec![argument("a", "int"), argument("b", "Ghost")]),
                    method("worse", "Phantom", vec![]),
                ],
            ),
            class("Late", "Nowhere", vec![]),
        ],
        vec![],
    ).unwrap();
    let expected = SchemaError::UnknownClass {
        class: text("Node"),
        method: text("bad"),
        referenced: text("Ghost"),
    };
    assert_eq!(check_schema(&api), Err(expected));
}

#[test]
fn the_return_type_is_checked_before_the_arguments() {
    let api = Api::new(
        vec![class("Object", "", vec![method("m", "Phantom", vec![argument("a", "Ghost")])])],
        vec![],
    ).unwrap();
    let expected = SchemaError::UnknownClass {
        class: text("Object"),
        method: text("m"),
        referenced: text("Phantom"),
    };
    assert_eq!(check_references(&api), Err(expected));
}

#[test]
fn a_schema_has_exactly_one_root() {
    let none = Api::new(vec![class("A", "B", vec![]), class("B", "A", vec![])], vec![]).unwrap();
    assert_eq!(check_schema(&none), Err(SchemaError::MissingRoot));
    assert_eq!(check_references(&none), Ok(()));
    let empty = Api::new(vec![], vec![]).unwrap();
    assert_eq!(check_schema(&empty), Err(SchemaError::MissingRoot));
    let three = Api::new(
        vec![
            class("N", "A", vec![]),
            class("A", "", vec![]),
            class("B", "", vec![]),
            class("C", "", vec![]),
        ],
        vec![],
    ).unwrap();
    assert_eq!(
        check_schema(&three),
        Err(SchemaError::SecondRoot { first: text("A"), second: text("B") })
    );
}

#[test]
fn base_classes_form_a_tree() {
    let own = Api::new(vec![class("Root", "", vec![]), class("Loop", "Loop", vec![])], vec![])
        .unwrap();
    assert_eq!(check_schema(&own), Err(SchemaError::Unrooted { class: text("Loop") }));
    assert_eq!(check_references(&own), Ok(()));
    let circle = Api::new(
        vec![
            class("Leaf", "A", vec![]),
            class("Root", "", vec![]),
            class("A", "B", vec![]),
            class("B", "A", vec![]),
            class("Fine", "Root", vec![]),
        ],
        vec![],
    ).unwrap();
    assert_eq!(check_schema(&circle), Err(SchemaError::Unrooted { class: text("Leaf") }));
    assert!(circle.is_rooted(circle.find_class("Fine").unwrap()));
    assert!(circle.is_rooted(circle.find_class("Root").unwrap()));
    assert!(!circle.is_rooted(circle.find_class("A").unwrap()));
    assert!(circle.walk_meets("Fine", "Root"));
    assert!(circle.walk_meets("Fine", ""));
    assert!(!circle.walk_meets("A", ""));
    assert!(circle.walk_meets("A", "A"));
}

#[test]
fn the_roots_are_checked_before_the_tree() {
    let api = Api::new(vec![class("A", "A", vec![])], vec![]).unwrap();
    assert_eq!(check_schema(&api), Err(SchemaError::MissingRoot));
}

#[test]
fn a_dangling_reference_is_reported_before_the_roots() {
    let api = Api::new(
        vec![class("A", "", vec![]), class("B", "", vec![]), class("C", "Missing", vec![])],
        vec![],
    ).unwrap();
    assert_eq!(
        check_schema(&api),
        Err(SchemaError::UnknownBaseClass { class: text("C"), base: text("Missing") })
    );
}

#[test]
fn the_graph_mirrors_the_references() {
    let api = engine();
    let graph = DependencyGraph::build(&api).unwrap();
    assert_eq!(graph.len(), 6);
    assert_eq!(graph.successors(0), Some(&vec![]));
    assert_eq!(graph.successors(1), Some(&vec![0, 1]));
    assert_eq!(graph.successors(2), Some(&vec![1, 4]));
    assert_eq!(graph.successors(3), Some(&vec![0]));
    assert_eq!(graph.successors(4), Some(&vec![3, 2]));
    assert_eq!(graph.successors(5), Some(&vec![0]));
    assert_eq!(graph.successors(6), None);
}

#[test]
fn the_graph_is_not_built_on_a_dangling_reference() {
    let api = Api::new(
        vec![class("Object", "", vec![method("m", "Ghost", vec![])])],
        vec![],
    ).unwrap();
    match DependencyGraph::build(&api) {
        Err(e) => assert_eq!(
            e,
            SchemaError::UnknownClass {
                class: text("Object"),
                method: text("m"),
                referenced: text("Ghost"),
            }
        ),
        Ok(_) => panic!("an edge was dropped"),
    }
}

#[test]
fn a_pass_generates_what_the_root_reaches() {
    let api = engine();
    let from_object = strongly_connected_components(&api, "Object", None).unwrap();
    assert_eq!(sorted(&from_object), vec!["Object"]);
    let from_sprite = strongly_connected_components(&api, "Sprite", None).unwrap();
    assert_eq!(sorted(&from_sprite), vec!["Node", "Object", "Reference", "Sprite", "Texture"]);
    let from_texture = strongly_connected_components(&api, "Texture", None).unwrap();
    assert_eq!(sorted(&from_texture), vec!["Node", "Object", "Reference", "Sprite", "Texture"]);
    let from_island = strongly_connected_components(&api, "Island", None).unwrap();
    assert_eq!(sorted(&from_island), vec!["Island", "Object"]);
    assert!(from_island.contains("Island"));
    assert!(!from_island.contains("Node"));
}

#[test]
fn what_is_bound_already_is_left_out() {
    let api = engine();
    let bound = set_of(&["Object", "Node", "Unrelated"]);
    let set = strongly_connected_components(&api, "Sprite", Some(&bound)).unwrap();
    assert_eq!(sorted(&set), vec!["Reference", "Sprite", "Texture"]);
    let all = set_of(&["Object", "Node", "Sprite", "Reference", "Texture"]);
    let nothing = strongly_connected_components(&api, "Sprite", Some(&all)).unwrap();
    assert!(nothing.names().is_empty());
}

#[test]
fn a_bound_class_still_leads_to_what_it_refers_to() {
    let api = engine();
    let bound = set_of(&["Node"]);
    let set = strongly_connected_components(&api, "Sprite", Some(&bound)).unwrap();
    assert_eq!(sorted(&set), vec!["Object", "Reference", "Sprite", "Texture"]);
    let root_bound = set_of(&["Sprite"]);
    let set = strongly_connected_components(&api, "Sprite", Some(&root_bound)).unwrap();
    assert_eq!(sorted(&set), vec!["Node", "Object", "Reference", "Texture"]);
}

#[test]
fn exclusion_is_monotonic() {
    let api = engine();
    let smaller = set_of(&["Object"]);
    let larger = set_of(&["Object", "Texture", "Node"]);
    let against_smaller = strongly_connected_components(&api, "Sprite", Some(&smaller)).unwrap();
    let against_larger = strongly_connected_components(&api, "Sprite", Some(&larger)).unwrap();
    for name in against_larger.names() {
        assert!(against_smaller.contains(name));
    }
    assert_eq!(sorted(&against_larger), vec!["Reference", "Sprite"]);
}

#[test]
fn partitioning_twice_gives_the_same_set() {
    let api = engine();
    let bound = set_of(&["Node"]);
    let first = strongly_connected_components(&api, "Texture", Some(&bound)).unwrap();
    let second = strongly_connected_components(&api, "Texture", Some(&bound)).unwrap();
    assert_eq!(sorted(&first), sorted(&second));
}

#[test]
fn an_unknown_root_reaches_nothing() {
    let api = engine();
    let set = strongly_connected_components(&api, "Missing", None).unwrap();
    assert!(set.names().is_empty());
}

#[test]
fn partitioning_fails_on_an_inconsistent_schema() {
    let api = Api::new(
        vec![class("Object", "", vec![]), class("Far", "Object", vec![method("m", "Ghost", vec![])])],
        vec![],
    ).unwrap();
    match strongly_connected_components(&api, "Object", None) {
        Err(e) => assert_eq!(
            e,
            SchemaError::UnknownClass {
                class: text("Far"),
                method: text("m"),
                referenced: text("Ghost"),
            }
        ),
        Ok(_) => panic!("the dangling reference went unnoticed"),
    }
}

#[test]
fn every_class_belongs_to_exactly_one_pass() {
    let foundation = strongly_connected_components(&engine(), "Island", None).unwrap();
    let first = engine().mark_generated(&foundation, true);
    let second = engine().mark_generated(&foundation, false);
    for (a, b) in first.classes().iter().zip(second.classes().iter()) {
        assert_eq!(a.name, b.name);
        assert_ne!(a.is_generated, b.is_generated);
        assert_eq!(a.is_generated, foundation.contains(&a.name));
    }
    let generated: Vec<&str> =
        first.classes().iter().filter(|c| c.is_generated).map(|c| c.name.as_str()).collect();
    assert_eq!(generated, vec!["Object", "Island"]);
}

#[test]
fn marking_changes_nothing_but_the_flag() {
    let marked = engine().mark_generated(&set_of(&["Sprite"]), true);
    let plain = engine();
    for (a, b) in marked.classes().iter().zip(plain.classes().iter()) {
        let mut expected = b.clone();
        expected.is_generated = a.name == "Sprite";
        assert_eq!(*a, expected);
    }
}

#[test]
fn a_class_set_holds_each_name_once() {
    let mut set = ClassSet::new();
    assert!(!set.contains("A"));
    set.insert(text("A"));
    set.insert(text("B"));
    set.insert(text("A"));
    assert!(set.contains("A"));
    assert!(set.contains("B"));
    assert!(!set.contains("C"));
    assert_eq!(sorted(&set), vec!["A", "B"]);
}

#[test]
fn enums_and_constants_are_plain_data() {
    let e = Enum {
        name: text("Mode"),
        values: vec![NamedValue { name: text("ON"), value: 1 }],
    };
    assert_eq!(e.clone(), e);
}
