//! Core logic of `just`, a command runner: recipe-file lexing, invocation
//! parsing, name resolution, command-line reading, listings, the checks
//! before a run, wildcard matching of import paths, remote import URLs and
//! the text renderings used in messages.
use vstd::prelude::*;

pub mod glob;
pub mod text;
pub mod git_repository;
pub mod count;
pub mod enclosure;
pub mod conditional_operator;
pub mod keyword;
pub mod token;
pub mod string_kind;
pub mod delimiter;
pub mod compilation;
pub mod lexer;
pub mod cooked_string;
pub mod indentation;
pub mod string_literal;
pub mod interpreter;
pub mod shebang;
pub mod executor;
pub mod constants;
pub mod element;
pub mod interrupt_handler;
pub mod justfile;
pub mod invocation_parser;
pub mod expression;
pub mod expression_context;
pub mod const_error;
pub mod justfile_cache;
pub mod error;
pub mod reference;
pub mod function_resolver;
pub mod directive;
pub mod config;
pub mod order;
pub mod listing;
pub mod run;

verus! {

} // verus!
