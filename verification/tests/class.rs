use jsruntime::{class_constructor, class_prototype_parent, ClassParent, ObjectPointer};

fn custom(construct: Option<&'static str>, callable: Option<&'static str>) -> ClassParent<'static, &'static str> {
    ClassParent::Custom {
        object: ObjectPointer::new(7),
        construct,
        callable,
        prototype: ObjectPointer::new(8),
    }
}

#[test]
fn own_constructor_wins() {
    let r = class_constructor(Some("own"), custom(Some("parent"), Some("call")));
    assert!(matches!(r, Ok(Some("own"))));
    let r = class_constructor(Some("own"), ClassParent::Null);
    assert!(matches!(r, Ok(Some("own"))));
}

#[test]
fn inherited_constructor_then_callable() {
    assert!(matches!(class_constructor(None, custom(Some("parent"), Some("call"))), Ok(Some("parent"))));
    assert!(matches!(class_constructor(None, custom(None, Some("call"))), Ok(Some("call"))));
}

#[test]
fn extending_a_plain_object_fails() {
    match class_constructor::<&str>(None, custom(None, None)) {
        Err(e) => assert_eq!(e.parent.index(), 7),
        Ok(_) => panic!("expected an error"),
    }
}

#[test]
fn no_parent_no_constructor() {
    assert!(matches!(class_constructor::<&str>(None, ClassParent::Null), Ok(None)));
    assert!(matches!(class_constructor::<&str>(None, ClassParent::Object), Ok(None)));
}

#[test]
fn prototype_parent() {
    let object_prototype = ObjectPointer::new(1);
    assert_eq!(class_prototype_parent::<&str>(&ClassParent::Object, object_prototype).map(|p| p.index()), Some(1));
    assert_eq!(class_prototype_parent::<&str>(&ClassParent::Null, object_prototype).map(|p| p.index()), None);
    assert_eq!(class_prototype_parent(&custom(None, None), object_prototype).map(|p| p.index()), Some(8));
}
