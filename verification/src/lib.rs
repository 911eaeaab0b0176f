//! Core of a small JavaScript runtime: NaN-boxed values, the realm's string
//! pool, loading compiled functions, calling built-ins, and the front door of
//! the parser.

mod class;
mod function;
mod nan;
mod parser;
mod pointers;
mod program;
mod result;
mod string_pool;

pub use class::{class_constructor, class_prototype_parent, ClassExtendsError, ClassParent};
pub use function::{
    BuiltIn, BuiltinFn, JsClass, JsFunction, JsFunctionInner, JsThread, LocalInit, LocalStart,
};
pub use nan::{Value, ValueType};
pub use parser::{locate, parse_input, ParseError, StaticJsResult, SyntaxError};
pub use pointers::{JsPrimitiveString, ObjectPointer, StringPointer};
pub use program::{Class, Function};
pub use result::{ExecutionError, InternalError, JsResult};
pub use string_pool::{Realm, RealmConstants, StringPool};
