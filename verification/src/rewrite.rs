pub mod scope;
pub mod tokens;
pub mod calls;
pub mod component;
pub mod walk;
