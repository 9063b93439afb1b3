//! Architecture pass of a Python language server: builds the shape of the
//! symbol graph (modules, classes, functions, variables, import bindings)
//! from a parsed source file.
//!
//! `ast` is the tree that the pass reads and `symbols` the graph that it
//! fills. `arch_plan` walks the tree and plans the steps; `arch_steps` and
//! `import_binder` say what a step does to the graph;
//! `python_arch_builder` takes the steps, and asks its surroundings what it
//! cannot know. The modules whose names end in `laws` state what holds of
//! every pass.
pub mod text;
pub mod constants;
pub mod ast;
pub mod evaluation;
pub mod symbols;
pub mod python_utils;
pub mod arch_plan;
pub mod arch_steps;
pub mod import_binder;
pub mod python_arch_builder;
pub mod plan_laws;
pub mod pass_laws;
pub mod import_laws;
pub mod shape_laws;
pub mod utils;
