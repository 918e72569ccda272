//! The execution core of an embeddable, dynamically typed scripting
//! language: a tagged value model with provenance chains and copy-on-write
//! collections, a persistent link type, run-time module loading and
//! cross-module dispatch under arity and lifetime validation, script-level
//! task and channel handles, and the fallible result plumbing that ties
//! them together.

pub mod arr;
pub mod concur;
pub mod data;
pub mod dispatch;
pub mod files;
pub mod fmt;
pub mod laws;
pub mod link;
pub mod meta;
pub mod module;
pub mod num;
pub mod outside;
pub mod res;
pub mod rt;
pub mod strutil;
pub mod val;
