//! The kinds of node that make up a syntax tree.

pub mod alias;
pub mod bool;
pub mod call;
pub mod def;
pub mod fn_node;
pub mod keyword;
pub mod let_node;
pub mod list;
pub mod macro_node;
pub mod string;
pub mod symbol;
pub mod vector;

pub use self::alias::Alias;
pub use self::bool::Bool;
pub use self::call::Call;
pub use self::def::Def;
pub use self::fn_node::Fn;
pub use self::keyword::Keyword;
pub use self::let_node::Let;
pub use self::list::List;
pub use self::macro_node::Macro;
pub use crate::number::Number;
pub use self::string::String;
pub use self::symbol::Symbol;
pub use self::vector::{Vector, VectorIntoIterator};
