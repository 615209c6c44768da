//! The runtime: package registry, dynamic state and global scope.
use vstd::prelude::*;
use crate::error::{arity, invalid, is_arity_error, is_invalid, RuntimeError};
use crate::dynamic::DynamicState;
use crate::environment::{Environment, Scope};
use crate::package::{standard_registry, PackageRegistry};
use crate::syntax::Span;

verus! {

/// The state of one Lisp runtime: its packages, its dynamic state, and
/// its lexical scopes, the global scope first.
pub struct Runtime {
    pub packages: PackageRegistry,
    pub dynamic: DynamicState,
    pub scopes: Vec<Scope>,
}

impl Runtime {
    /// A runtime with the standard packages, in the user package, with no
    /// variables yet.
    pub fn new() -> (r: Runtime)
        ensures
            standard_registry(r.packages),
            r.well_formed(),
            r.scopes@.len() == 1,
            r.scopes@[0].variables@.len() == 0,
            r.scopes@[0].specials@.len() == 0,
            r.dynamic.special_names@.len() == 0,
            r.dynamic.constants@.len() == 0,
            r.dynamic.globals@.len() == 0,
            r.dynamic.bindings@.len() == 0,
            r.dynamic.exact_special_names@.len() == 0,
            r.dynamic.exact_constants@.len() == 0,
            r.dynamic.exact_globals@.len() == 0,
            r.dynamic.exact_bindings@.len() == 0,
            r.dynamic.restart_bindings@.len() == 0,
    {
        let mut scopes: Vec<Scope> = Vec::new();
        scopes.push(Scope { parent: None, variables: Vec::new(), specials: Vec::new() });
        Runtime { packages: PackageRegistry::new(), dynamic: DynamicState::new(), scopes }
    }

    /// The global scope.
    pub fn global_environment(&self) -> (r: Environment)
        ensures
            r.scope == 0,
    {
        Environment { scope: 0 }
    }

    /// The name of the current package.
    pub fn current_package(&self) -> (r: String)
        ensures
            r@ == self.packages.current@,
    {
        self.packages.current_package()
    }

    /// An arity error for `function`.
    pub fn arity(function: &str, expected: &str, actual: usize) -> (r: RuntimeError)
        ensures
            is_arity_error(r, function@, expected@, actual as nat),
    {
        arity(function, expected, actual)
    }

    /// An invalid-form error.
    pub fn invalid(message: &str, span: Span) -> (r: RuntimeError)
        ensures
            is_invalid(r, message@, span),
    {
        invalid(message, span)
    }
}

} // verus!
