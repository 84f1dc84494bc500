//! Turns a chapter of remotely hosted page images into one paginated
//! document: manifest resolution, ordered page collection under a bounded
//! worker pool, and assembly of the pages into a PDF.

pub mod assembler;
pub mod catalog;
pub mod coordinator;
pub mod fetch;
pub mod json;
pub mod manifest;
pub mod naming;
pub mod pdf;
pub mod pipeline;
pub mod pool;
pub mod text;
