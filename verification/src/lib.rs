//! Resolve firmware boot-log load addresses against the symbol tables of the
//! matching debug objects, producing debugger `nmadd` directives.

pub mod hexnum;
pub mod laws;
pub mod object;
pub mod render;
pub mod resolver;
pub mod scanner;
pub mod sorted_map;
pub mod table;
