use jsruntime::{Class, Function, JsFunction, Realm, StringPool};

type Code = Function<u32, u8, u16>;

fn function(atoms: &[&str], name: Option<&str>) -> Code {
    Function {
        instructions: vec![10, 11, atoms.len() as u32],
        atoms: atoms.iter().map(|s| s.to_string()).collect(),
        locals: vec![1, 2],
        locals_init: vec![7],
        functions: Vec::new(),
        stack_size: 4,
        name: name.map(|s| s.to_string()),
        local_size: 2,
        args_size: 1,
        classes: Vec::new(),
    }
}

fn text(realm: &Realm, p: jsruntime::JsPrimitiveString) -> String {
    realm.strings.get(p).clone()
}

#[test]
fn realm_starts_with_the_empty_string() {
    let realm = Realm::new();
    assert_eq!(realm.strings.len(), 1);
    assert_eq!(text(&realm, realm.constants.empty_string), "");
}

#[test]
fn interning_gives_one_handle_per_string() {
    let mut pool = StringPool::new();
    let a = pool.intern("a".to_string());
    let b = pool.intern("b".to_string());
    let a_again = pool.intern("a".to_string());
    assert_eq!(a.index(), 0);
    assert_eq!(b.index(), 1);
    assert_eq!(a_again.index(), 0);
    assert_eq!(pool.len(), 2);
    assert_eq!(pool.get(b), "b");
}

#[test]
fn load_interns_atoms_and_name() {
    let mut realm = Realm::new();
    let f = function(&["x", "y", "x"], Some("main"));
    let loaded = JsFunction::load(f, &mut realm);
    // "", then x, y in order, then the name.
    assert_eq!(realm.strings.len(), 4);
    assert_eq!(loaded.atoms().len(), 3);
    assert_eq!(text(&realm, loaded.get_atom(0)), "x");
    assert_eq!(text(&realm, loaded.get_atom(1)), "y");
    assert_eq!(loaded.get_atom(2).index(), loaded.get_atom(0).index());
    assert_eq!(text(&realm, loaded.name()), "main");
    assert_eq!(loaded.name().index(), 3);
    assert_eq!(loaded.args_size(), 1);
    assert_eq!(loaded.local_size(), 2);
}

#[test]
fn a_function_without_a_name_gets_the_empty_string() {
    let mut realm = Realm::new();
    let loaded = JsFunction::load(function(&[], None), &mut realm);
    assert_eq!(loaded.name().index(), realm.constants.empty_string.index());
    assert_eq!(realm.strings.len(), 1);
}

#[test]
fn nested_functions_and_classes_are_loaded() {
    let mut realm = Realm::new();
    let mut outer = function(&["a"], Some("outer"));
    outer.functions.push(function(&["b", "a"], Some("inner")));
    outer.classes.push(Class {
        construct: Some(function(&["c"], None)),
        atoms: vec!["Point".to_string(), "x".to_string()],
        methods: vec![function(&[], Some("norm"))],
        static_methods: vec![function(&["a"], Some("origin"))],
    });
    let loaded = JsFunction::load(outer, &mut realm);

    let inner = loaded.child_function(0);
    assert_eq!(text(&realm, inner.get_atom(0)), "b");
    assert_eq!(inner.get_atom(1).index(), loaded.get_atom(0).index());
    assert_eq!(text(&realm, inner.name()), "inner");

    let class = loaded.child_class(0);
    assert_eq!(text(&realm, class.name), "Point");
    assert_eq!(class.name.index(), class.atoms[0].index());
    assert_eq!(text(&realm, class.atoms[1]), "x");
    let construct = class.construct.as_ref().unwrap();
    assert_eq!(text(&realm, construct.get_atom(0)), "c");
    assert_eq!(construct.name().index(), realm.constants.empty_string.index());
    assert_eq!(text(&realm, class.methods[0].name()), "norm");
    assert_eq!(text(&realm, class.static_methods[0].name()), "origin");
    assert_eq!(class.static_methods[0].get_atom(0).index(), loaded.get_atom(0).index());

    // "", a, b, inner, c, Point, x, norm, origin, outer
    assert_eq!(realm.strings.len(), 10);
    assert_eq!(text(&realm, loaded.name()), "outer");
    assert_eq!(loaded.name().index(), 9);
}

#[test]
fn loading_again_adds_nothing() {
    let mut realm = Realm::new();
    let first = JsFunction::load(function(&["p", "q"], Some("f")), &mut realm);
    let size = realm.strings.len();
    let second = JsFunction::load(function(&["p", "q"], Some("f")), &mut realm);
    assert_eq!(realm.strings.len(), size);
    assert_eq!(first.get_atom(1).index(), second.get_atom(1).index());
    assert_eq!(first.name().index(), second.name().index());
}

#[test]
fn from_inner() {
    let mut realm = Realm::new();
    let a = realm.intern("a".to_string());
    let f = JsFunction::from(jsruntime::JsFunctionInner::<u32, u8, u16> {
        instructions: vec![4],
        atoms: vec![a],
        locals: Vec::new(),
        locals_init: Vec::new(),
        functions: Vec::new(),
        classes: Vec::new(),
        args_size: 3,
        local_size: 5,
        stack_size: 0,
        name: realm.constants.empty_string,
    });
    assert_eq!(f.args_size(), 3);
    assert_eq!(f.local_size(), 5);
    assert_eq!(f.get_atom(0).index(), a.index());
    assert_eq!(f.instructions(), &vec![4]);
}

#[test]
fn code_is_kept() {
    let mut realm = Realm::new();
    let mut outer = function(&["a"], Some("outer"));
    let mut inner = function(&["b", "c"], None);
    inner.instructions = vec![99, 98];
    inner.locals_init = vec![3, 4];
    outer.functions.push(inner);
    let loaded = JsFunction::load(outer, &mut realm);
    assert_eq!(loaded.instructions(), &vec![10, 11, 1]);
    assert_eq!(loaded.locals(), &vec![1, 2]);
    let child = loaded.child_function(0);
    assert_eq!(child.instructions(), &vec![99, 98]);
    assert_eq!(child.locals(), &vec![1, 2]);
}

#[test]
fn earlier_loads_survive_later_ones() {
    let mut realm = Realm::new();
    let first = JsFunction::load(function(&["one", "two"], Some("first")), &mut realm);
    let _second = JsFunction::load(function(&["three", "one"], Some("second")), &mut realm);
    assert_eq!(text(&realm, first.get_atom(0)), "one");
    assert_eq!(text(&realm, first.get_atom(1)), "two");
    assert_eq!(text(&realm, first.name()), "first");
    assert_eq!(realm.strings.len(), 6);
}
