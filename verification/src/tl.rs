//! The structures representing the various terms of the Type Language.

pub mod category;
pub mod definition;
pub mod parameter;
pub mod ty;

pub use category::Category;
pub use definition::Definition;
pub use parameter::Parameter;
pub use ty::Type;
