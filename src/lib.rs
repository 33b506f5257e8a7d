//! Interval type checking for Filament: symbolic time expressions,
//! intervals over them, the timing facts a component body demands, and the
//! decisions of discharging those facts with an SMT solver.
pub mod time;
pub mod normal_form;
pub mod symbols;
pub mod errors;
pub mod interval;
pub mod ast;
pub mod fact;
pub mod collect;
pub mod discharge;
pub mod parser;
