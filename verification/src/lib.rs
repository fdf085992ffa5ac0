//! A compiler for a small shading language towards SPIR-V: the lexer and the
//! parser, the scope and type inference passes, intermediate code
//! generation, and the binary form of SPIR-V instructions; with LaTeX
//! renderings of syntax trees and tokens for debugging.
pub mod types;
pub mod scope;
pub mod text;
pub mod lexer;
pub mod ast;
pub mod parser;
pub mod compiler;
pub mod scoping;
pub mod typing;
pub mod block;
pub mod iil;
pub mod iilgen;
pub mod module;
pub mod spv;
pub mod tex;
pub mod genplan;
pub mod spvgen;
