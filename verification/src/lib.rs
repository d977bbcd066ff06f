//! The core of a multi-model database: the lexer and parser of its query language, the
//! values it computes with and their wire form, the layout of its keys, transactions over
//! an ordered key-value store, and the rules by which statements are carried out.

pub mod algebra;
pub mod arith;
pub mod array;
pub mod ast;
pub mod cast;
pub mod codec;
pub mod codec_laws;
pub mod convert;
pub mod dbs;
pub mod doc;
pub mod err;
pub mod eval;
pub mod exec;
pub mod float;
pub mod fmt;
pub mod fnc;
pub mod http;
pub mod key;
pub mod key_laws;
pub mod kvs;
pub mod lexer;
pub mod middleware;
pub mod number;
pub mod order;
pub mod parser;
pub mod reader;
pub mod rpc;
pub mod statements;
pub mod strings;
pub mod time;
pub mod token;
pub mod upgrade;
pub mod wire;
pub mod value;
