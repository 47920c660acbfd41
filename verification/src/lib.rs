//! A test-expansion engine: a declarative annotation grammar (fixtures,
//! default values, case tuples, matrix value lists, modifiers) is parsed,
//! matched against a function signature, and expanded into a set of named
//! test instantiations, with positioned diagnostics when the annotation
//! cannot be reconciled with the signature.

pub mod diag;
pub mod expand;
pub mod extend;
pub mod future;
pub mod laws;
pub mod lex;
pub mod matcher;
pub mod model;
pub mod names;
pub mod outside;
pub mod parser;
pub mod resolver;
pub mod sig;
pub mod token;
