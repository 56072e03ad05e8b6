//! An L-system (Lindenmayer system) engine.
//!
//! The crate has two halves, consumed in sequence:
//!
//! * a production engine ([`LSystem`]) that owns a word — a sequence of
//!   characters — and a registry of production rules, and advances the word
//!   one generation at a time by simultaneous substitution, and
//! * an instruction executor ([`LSystemExecutor`]) that owns a caller-supplied
//!   state value and a registry of token handlers, tokenizes a finished word
//!   left to right, parses each token's optional parenthesized argument list,
//!   and dispatches the parsed arguments to the handler bound to the token.
//!
//! The rewrite semantics, the token scan, the argument grammar and the
//! probe-based search for the end of an argument list are all defined by spec
//! functions, and the executable engine is verified against them.

pub mod scan;
pub mod production;
pub mod value;
pub mod parse;
pub mod executor;
pub mod turtle;

pub use production::ConstGen;
pub use production::CycleGen;
pub use production::Generate;
pub use production::LSystem;
pub use production::ProductionRule;
pub use value::ArgTy;
pub use value::Value;
pub use value::ValModel;
pub use executor::CallParsed;
pub use executor::ExecError;
pub use executor::ExecRule;
pub use executor::LSystemExecutor;
pub use executor::Tally;
pub use turtle::BasicTurtle;
pub use turtle::FancyTurtle;
