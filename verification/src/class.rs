//! The decisions of setting up a class object: which constructor the class
//! gets, and which object its instances' prototype inherits from.

use crate::pointers::ObjectPointer;
use vstd::prelude::*;

verus! {

/// What a class extends, as read from the realm: nothing (`Null`), the plain
/// object prototype (`Object`), or an object of the realm (`Custom`), with
/// the functions that object offers and the value of its `prototype`
/// property. `F` is how the runtime refers to a function.
pub enum ClassParent<'a, F> {
    Object,
    Null,
    Custom {
        object: ObjectPointer<'a>,
        construct: Option<F>,
        callable: Option<F>,
        prototype: ObjectPointer<'a>,
    },
}

/// A class extends an object that can be neither constructed nor called.
pub struct ClassExtendsError<'a> {
    /// The object that the class extends.
    pub parent: ObjectPointer<'a>,
}

/// The constructor of a class: its own, where it has one; else, where it
/// extends an object, that object's constructor, or failing that the object
/// itself as a function, and an error where the object is neither; else
/// (it extends `null` or the plain object prototype) none.
pub fn class_constructor<'a, F>(own: Option<F>, parent: ClassParent<'a, F>) -> (r: Result<
    Option<F>,
    ClassExtendsError<'a>,
>)
    ensures
        own is Some ==> r == Ok::<Option<F>, ClassExtendsError<'a>>(own),
        own is None ==> match parent {
            ClassParent::Custom { object, construct, callable, .. } => if construct is Some {
                r == Ok::<Option<F>, ClassExtendsError<'a>>(construct)
            } else if callable is Some {
                r == Ok::<Option<F>, ClassExtendsError<'a>>(callable)
            } else {
                r == Err::<Option<F>, ClassExtendsError<'a>>(ClassExtendsError { parent: object })
            },
            _ => r == Ok::<Option<F>, ClassExtendsError<'a>>(None),
        },
{
    match own {
        Some(f) => Ok(Some(f)),
        None => match parent {
            ClassParent::Custom { object, construct, callable, .. } => match construct {
                Some(c) => Ok(Some(c)),
                None => match callable {
                    Some(c) => Ok(Some(c)),
                    None => Err(ClassExtendsError { parent: object }),
                },
            },
            _ => Ok(None),
        },
    }
}

/// The object that the prototype of a class's instances inherits from: the
/// plain object prototype (given as `object_prototype`) where the class
/// extends it, the extended object's `prototype` property where it extends
/// an object, and none where it extends `null`.
pub fn class_prototype_parent<'a, F>(
    parent: &ClassParent<'a, F>,
    object_prototype: ObjectPointer<'a>,
) -> (r: Option<ObjectPointer<'a>>)
    ensures
        r == match *parent {
            ClassParent::Object => Some(object_prototype),
            ClassParent::Custom { prototype, .. } => Some(prototype),
            ClassParent::Null => None,
        },
{
    match parent {
        ClassParent::Object => Some(object_prototype),
        ClassParent::Custom { prototype, .. } => Some(*prototype),
        ClassParent::Null => None,
    }
}

} // verus!
