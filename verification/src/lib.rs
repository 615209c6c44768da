//! Verified core of the NCL Common Lisp runtime: symbol syntax, names,
//! values, the package system, variables and the dynamic environment,
//! `SETF` places, sequence functions and the argument and binding lists
//! of special forms.
pub mod text;
pub mod syntax;
pub mod names;
pub mod value;
pub mod numbers;
pub mod error;
pub mod literals;
pub mod runtime;
pub mod validation;
pub mod sequence_options;
pub mod printer;
pub mod package;
pub mod packages;
pub mod defpackage;
pub mod setf;
pub mod conditions;
pub mod sequence_edits;
pub mod sequence_search;
pub mod environment;
pub mod dynamic;
pub mod helpers;
pub mod sequence_order;
pub mod sequence_mapping;
pub mod lambda_arguments;
pub mod package_updates;
pub mod place_macros;
pub mod case_dispatch;
pub mod prog_bindings;
pub mod defsetf_arguments;
pub mod sequence_quantifiers;
pub mod exact_variables;
pub mod stream_forms;
pub mod sequence_calls;
pub mod place_dispatch;
pub mod structure_boa;
pub mod defsetf_expansion;
