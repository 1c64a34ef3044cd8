//! A parser and query engine for SELinux binary kernel policies.

pub mod text;
pub mod reader;
pub mod order;
pub mod collections;
pub mod policy;
pub mod json;
pub mod symtab;
pub mod tables;
pub mod resolve;
pub mod avtab;
pub mod sections;
pub mod constraint;
pub mod parser;
pub mod testgen;
pub mod cli;
pub mod report;
pub mod listing;
pub mod membership;
pub mod truncation;
