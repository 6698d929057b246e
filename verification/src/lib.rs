//! An Earley chart recognizer: decides whether a token sequence is derivable
//! from a context-free grammar, by building a chart of dotted-rule states one
//! column per input position and running the predictor/scanner/completer
//! inference rules to a fixpoint in each column.

pub mod bounds;
pub mod derivation;
pub mod grammar;
pub mod recognizer;
pub mod semantics;
pub mod soundness;
pub mod state;
