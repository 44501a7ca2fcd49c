//! The `.smv` file that FDS writes to describe a simulation for Smokeview: sections introduced
//! by an upper-case keyword, each followed by its lines of values.
pub mod err;
pub mod lex;
pub mod values;
pub mod mesh;
pub mod model;
pub mod sections;
pub mod reader;
pub mod zero;
pub mod layout;
