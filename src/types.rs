use vstd::prelude::*;

verus! {

/// Errors raised while executing inside a context.
#[derive(Debug, PartialEq, Eq, Clone)]
pub enum Error {
    ParseError(String),
    UndefinedFunction(String),
    NonPublicFunction(String),
    ContractMustReturnBoolean,
    ArithmeticOverflow,
    MaxContextDepthReached,
    FailedToConstructAssetTable,
    InterpreterError(String),
}

/// The identity of an account or of a contract.
#[derive(Debug, PartialEq, Eq, Hash, Clone)]
pub enum PrincipalData {
    StandardPrincipal(String),
    ContractPrincipal(String),
}

/// What identifies a principal: whether it is a contract, and its name.
pub type PrincipalKey = (bool, Seq<char>);

impl PrincipalData {
    pub open spec fn key(&self) -> PrincipalKey {
        match self {
            PrincipalData::StandardPrincipal(s) => (false, s@),
            PrincipalData::ContractPrincipal(s) => (true, s@),
        }
    }

    /// Compares two principals by kind and name.
    pub fn same_as(&self, other: &PrincipalData) -> (r: bool)
        ensures
            r == (self.key() == other.key()),
    {
        match (self, other) {
            (PrincipalData::StandardPrincipal(a), PrincipalData::StandardPrincipal(b)) => *a == *b,
            (PrincipalData::ContractPrincipal(a), PrincipalData::ContractPrincipal(b)) => *a == *b,
            _ => false,
        }
    }

    pub fn duplicate(&self) -> (r: PrincipalData)
        ensures
            r == *self,
    {
        match self {
            PrincipalData::StandardPrincipal(s) => PrincipalData::StandardPrincipal(s.clone()),
            PrincipalData::ContractPrincipal(s) => PrincipalData::ContractPrincipal(s.clone()),
        }
    }
}

/// An asset, named by the contract that defines it and its name there.
#[derive(Debug, PartialEq, Eq, Hash, Clone)]
pub struct AssetIdentifier {
    pub contract_name: String,
    pub asset_name: String,
}

pub type AssetKey = (Seq<char>, Seq<char>);

impl AssetIdentifier {
    pub open spec fn key(&self) -> AssetKey {
        (self.contract_name@, self.asset_name@)
    }

    /// Compares two asset identifiers component by component.
    pub fn same_as(&self, other: &AssetIdentifier) -> (r: bool)
        ensures
            r == (self.key() == other.key()),
    {
        self.contract_name == other.contract_name && self.asset_name == other.asset_name
    }

    pub fn duplicate(&self) -> (r: AssetIdentifier)
        ensures
            r == *self,
    {
        AssetIdentifier {
            contract_name: self.contract_name.clone(),
            asset_name: self.asset_name.clone(),
        }
    }
}

#[derive(Debug, PartialEq, Eq)]
pub enum Value {
    Int(i128),
    UInt(u128),
    Bool(bool),
    Principal(PrincipalData),
    /// The outcome of a transaction, and the data it carries either way.
    Response { committed: bool, data: Box<Value> },
}

impl Value {
    pub fn duplicate(&self) -> (r: Value)
        ensures
            r == *self,
        decreases self,
    {
        match self {
            Value::Int(i) => Value::Int(*i),
            Value::UInt(u) => Value::UInt(*u),
            Value::Bool(b) => Value::Bool(*b),
            Value::Principal(p) => Value::Principal(p.duplicate()),
            Value::Response { committed, data } => {
                let inner = (**data).duplicate();
                Value::Response { committed: *committed, data: Box::new(inner) }
            },
        }
    }
}

/// A parsed program form.
#[derive(Debug, PartialEq, Eq)]
pub enum SymbolicExpression {
    AtomValue(Value),
    Atom(String),
    List(Vec<SymbolicExpression>),
}

impl SymbolicExpression {
    /// The value this form is a literal of, if it is one.
    pub fn match_atom_value(&self) -> (r: Option<&Value>)
        ensures
            match self {
                SymbolicExpression::AtomValue(v) => r == Some(v),
                _ => r is None,
            },
    {
        match self {
            SymbolicExpression::AtomValue(v) => Some(v),
            _ => None,
        }
    }
}

/// The name under which a function sits on the call stack.
#[derive(Debug, PartialEq, Eq, Hash, Clone)]
pub struct FunctionIdentifier {
    pub identifier: String,
}

impl FunctionIdentifier {
    pub fn same_as(&self, other: &FunctionIdentifier) -> (r: bool)
        ensures
            r == (self.identifier@ == other.identifier@),
    {
        self.identifier == other.identifier
    }

    pub fn duplicate(&self) -> (r: FunctionIdentifier)
        ensures
            r == *self,
    {
        FunctionIdentifier { identifier: self.identifier.clone() }
    }
}

} // verus!
