//! A small neural-network execution engine: graph builders emit typed
//! instructions over tensor identities, a program assembler linearises them by
//! phase, and a stream planner and scheduler run them out of order while
//! keeping every operand's accesses ordered.
pub mod device;
pub mod error;
pub mod instruction;
pub mod machine;
pub mod models;
pub mod operators;
pub mod optimizers;
pub mod ordering;
pub mod planner;
pub mod program;
pub mod scheduler;
pub mod shape;
pub mod streams;
pub mod tape;
pub mod transaction;
