//! A reactive component runtime: a generational arena for the runtime's
//! records, the bookkeeping of scopes and computations, Tailwind class
//! composition, and the source rewriting behind the `#[component]` attribute.
pub mod utils;
pub mod rewrite;
pub mod types;
