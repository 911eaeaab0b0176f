use jsruntime::{Function, JsFunction, LocalInit, LocalStart, Realm};

fn function(name: &str, locals_init: Vec<LocalInit<u16>>) -> Function<u8, u8, LocalInit<u16>> {
    Function {
        instructions: Vec::new(),
        atoms: Vec::new(),
        functions: Vec::new(),
        stack_size: 0,
        name: Some(name.to_string()),
        local_size: locals_init.len(),
        locals: Vec::new(),
        locals_init,
        args_size: 0,
        classes: Vec::new(),
    }
}

#[test]
fn locals_start_as_constants_or_nested_functions() {
    let mut realm = Realm::new();
    let mut outer = function(
        "outer",
        vec![LocalInit::Constant(5), LocalInit::Function(1), LocalInit::Function(0)],
    );
    outer.functions.push(function("first", Vec::new()));
    outer.functions.push(function("second", Vec::new()));
    let loaded = JsFunction::load(outer, &mut realm);
    let starts = loaded.init();
    assert_eq!(starts.len(), 3);
    assert!(matches!(starts[0], LocalStart::Constant(5)));
    match starts[1] {
        LocalStart::Function(f) => assert_eq!(realm.strings.get(f.name()), "second"),
        _ => panic!("expected a function"),
    }
    match starts[2] {
        LocalStart::Function(f) => assert_eq!(realm.strings.get(f.name()), "first"),
        _ => panic!("expected a function"),
    }
}

#[test]
fn no_initialisers_no_starts() {
    let mut realm = Realm::new();
    let loaded = JsFunction::load(function("f", Vec::new()), &mut realm);
    assert!(loaded.init().is_empty());
}
