pub mod runtime;
pub mod guards;
