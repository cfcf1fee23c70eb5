use vstd::prelude::*;

use crate::bindings::{binding, find_binding};
use crate::types::Value;

verus! {

pub const TRANSIENT_CONTRACT_NAME: &'static str = "__transient";

/// How a function was defined, which decides who may call it.
#[derive(Debug, PartialEq, Eq, Clone, Copy)]
pub enum DefineType {
    ReadOnly,
    Public,
    Private,
}

/// A function defined by a contract, as the call protocol sees it.
#[derive(Debug, PartialEq, Eq, Clone)]
pub struct DefinedFunction {
    pub name: String,
    pub define_type: DefineType,
}

impl DefinedFunction {
    /// Read-only functions may be called from outside too.
    pub fn is_public(&self) -> (r: bool)
        ensures
            r == !(self.define_type is Private),
    {
        match self.define_type {
            DefineType::Public => true,
            DefineType::Private => false,
            DefineType::ReadOnly => true,
        }
    }

    pub fn is_read_only(&self) -> (r: bool)
        ensures
            r == (self.define_type is ReadOnly),
    {
        match self.define_type {
            DefineType::ReadOnly => true,
            _ => false,
        }
    }

    pub fn duplicate(&self) -> (r: DefinedFunction)
        ensures
            r == *self,
    {
        DefinedFunction { name: self.name.clone(), define_type: self.define_type }
    }
}

/// The bindings a contract defines when it is initialized.
pub struct ContractContext {
    pub name: String,
    pub variables: Vec<(String, Value)>,
    pub functions: Vec<(String, DefinedFunction)>,
}

impl ContractContext {
    pub fn new(name: String) -> (r: ContractContext)
        ensures
            r.name == name,
            r.variables@.len() == 0,
            r.functions@.len() == 0,
    {
        ContractContext { name, variables: Vec::new(), functions: Vec::new() }
    }

    /// The context used where no contract is bound.
    pub fn new_transient() -> (r: ContractContext)
        ensures
            r.name@ == TRANSIENT_CONTRACT_NAME@,
            r.variables@.len() == 0,
            r.functions@.len() == 0,
    {
        Self::new(TRANSIENT_CONTRACT_NAME.to_string())
    }

    pub fn lookup_variable(&self, name: &str) -> (r: Option<Value>)
        ensures
            r == binding(self.variables@, name@),
    {
        match find_binding(&self.variables, name) {
            Some(i) => Some(self.variables[i].1.duplicate()),
            None => None,
        }
    }

    pub fn lookup_function(&self, name: &str) -> (r: Option<DefinedFunction>)
        ensures
            r == binding(self.functions@, name@),
    {
        match find_binding(&self.functions, name) {
            Some(i) => Some(self.functions[i].1.duplicate()),
            None => None,
        }
    }
}

} // verus!
