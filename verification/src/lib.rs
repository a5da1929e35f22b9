pub mod alias;
pub mod document_id;
pub mod error;
pub mod patterns;
pub mod relation_kind;
pub mod strings;
pub mod tag;
pub mod text;
pub mod content;
pub mod relation;
pub mod reference;
pub mod command;
pub mod thesis;
pub mod grammar;
pub mod reading;
pub mod resolver;
pub mod transaction;
pub mod writing;
pub mod backup;
pub mod write;
pub mod roundtrip;
pub mod memory;
