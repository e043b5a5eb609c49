//! Core of a tool-augmented teaching assistant: chapter numbering and book
//! lookup, streaming response assembly, a tool registry, a budgeted and
//! persisted conversation history, and the turn loop that ties them together.
pub mod chapter;
pub mod history;
pub mod message;
pub mod stream;
pub mod teacher;
pub mod tools;
