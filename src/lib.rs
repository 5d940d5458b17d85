pub mod type_system;
pub mod typed;
pub mod declarations;
pub mod collection;
pub mod visibility;
pub mod namespace;
pub mod untyped;
pub mod collect;
pub mod monomorphize;
