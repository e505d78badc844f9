pub mod builtins;
pub mod runner;
pub mod runtime;
pub mod semantics;
