use vstd::prelude::*;

use crate::assets::{AssetMap, LedgerKey};
use crate::call_stack::CallStack;
use crate::contract::{ContractContext, DefinedFunction, TRANSIENT_CONTRACT_NAME};
use crate::global::{balanced, memory_db, ClarityDatabase, DatabaseOp, GlobalContext};
use crate::bindings::binding;
use crate::types::{Error, SymbolicExpression, Value};

verus! {

/// Owns the state of a transaction-processing session: the frames and the
/// store, the contract used where none is bound, and the call stack.
pub struct OwnedEnvironment {
    context: GlobalContext,
    default_contract: ContractContext,
    call_stack: CallStack,
}

impl OwnedEnvironment {
    pub closed spec fn global(&self) -> GlobalContext {
        self.context
    }

    /// The name of the contract used where none is bound.
    pub closed spec fn default_name(&self) -> Seq<char> {
        self.default_contract.name@
    }

    pub closed spec fn well_formed(&self) -> bool {
        self.context.well_formed() && self.call_stack.well_formed()
    }

    pub fn new(database: ClarityDatabase) -> (r: OwnedEnvironment)
        requires
            balanced(database.history()),
        ensures
            r.well_formed(),
            r.global().top_level(),
            r.global().db() == database,
            r.default_name() == TRANSIENT_CONTRACT_NAME@,
    {
        OwnedEnvironment {
            context: GlobalContext::new(database),
            default_contract: ContractContext::new_transient(),
            call_stack: CallStack::new(),
        }
    }

    /// A session over a store that keeps nothing.
    pub fn memory() -> (r: OwnedEnvironment)
        ensures
            r.well_formed(),
            r.global().top_level(),
            r.global().db().history() == Seq::<DatabaseOp>::empty(),
            r.default_name() == TRANSIENT_CONTRACT_NAME@,
    {
        let db = memory_db();
        proof {
            assert(balanced(db.history()));
        }
        OwnedEnvironment::new(db)
    }

    /// A view of the session for a transaction sent by `sender`, who also
    /// makes the first call, in the default contract.
    pub fn get_exec_environment<'b>(&'b mut self, sender: Option<Value>) -> (r: Environment<'b>)
        requires
            is_principal_or_none(sender),
        ensures
            *r.global_context == old(self).global(),
            r.contract_context.name@ == old(self).default_name(),
            r.sender == sender,
            r.caller == sender,
    {
        let caller = match &sender {
            Some(v) => Some(v.duplicate()),
            None => None,
        };
        Environment::new(
            &mut self.context,
            &self.default_contract,
            &mut self.call_stack,
            sender,
            caller,
        )
    }

    pub fn begin(&mut self)
        requires
            old(self).well_formed(),
        ensures
            final(self).well_formed(),
            final(self).global().frames().len() == old(self).global().frames().len() + 1,
            final(self).global().frames().drop_last() == old(self).global().frames(),
            forall|k: LedgerKey|
                !#[trigger] final(self).global().frames().last().has_tokens(k)
                    && !final(self).global().frames().last().has_transfers(k),
            final(self).global().read_only_flags() == old(self).global().read_only_flags().push(
                old(self).global().read_only_spec(),
            ),
            final(self).global().db().history() == old(self).global().db().history().push(
                DatabaseOp::Begin,
            ),
    {
        self.context.begin();
        proof {
            assert forall|k: LedgerKey|
                !#[trigger] self.global().frames().last().has_tokens(k)
                    && !self.global().frames().last().has_transfers(k) by {
                assert(!self.context.frames().last().has_tokens(k));
            }
        }
    }

    /// Concludes the transaction the outermost frame holds, given what
    /// executing it returned: on success the frame is committed and its
    /// ledger handed back with the value; on failure it is rolled back and
    /// the error passed on.
    pub fn finish_transaction(&mut self, result: Result<Value, Error>) -> (r: Result<(Value, AssetMap), Error>)
        requires
            old(self).well_formed(),
            old(self).global().frames().len() == 1,
        ensures
            final(self).well_formed(),
            final(self).global().top_level(),
            match result {
                Ok(v) => r == Ok::<(Value, AssetMap), Error>((v, old(self).global().frames()[0]))
                    && final(self).global().db().history() == old(self).global().db().history().push(
                    DatabaseOp::Commit,
                ),
                Err(e) => r == Err::<(Value, AssetMap), Error>(e)
                    && final(self).global().db().history() == old(self).global().db().history().push(
                    DatabaseOp::RollBack,
                ),
            },
    {
        match result {
            Ok(v) => match self.commit() {
                Ok(m) => Ok((v, m)),
                Err(e) => Err(e),
            },
            Err(e) => {
                self.context.roll_back();
                Err(e)
            },
        }
    }

    /// Closes the current frame, which must be the outermost, and hands back
    /// the assets the transaction moved. Closing an inner frame folds it into
    /// its parent and fails with `FailedToConstructAssetTable`, or with
    /// `ArithmeticOverflow` where folding overflows.
    pub fn commit(&mut self) -> (r: Result<AssetMap, Error>)
        requires
            old(self).well_formed(),
            old(self).global().frames().len() > 0,
        ensures
            final(self).well_formed(),
            final(self).global().frames().len() == old(self).global().frames().len() - 1,
            old(self).global().frames().len() == 1 ==> r == Ok::<AssetMap, Error>(
                old(self).global().frames()[0],
            ),
            final(self).global().closes_by_commit(&old(self).global(), r == Err::<AssetMap, Error>(Error::ArithmeticOverflow)),
            old(self).global().frames().len() > 1 ==> r is Err,
            old(self).global().frames().len() > 1 ==> (r == Err::<AssetMap, Error>(
                Error::ArithmeticOverflow,
            ) <==> old(self).global().frames()[old(self).global().frames().len() - 2].merge_overflows(
                &old(self).global().frames().last(),
            )),
            old(self).global().frames().len() > 1 && r != Err::<AssetMap, Error>(
                Error::ArithmeticOverflow,
            ) ==> r == Err::<AssetMap, Error>(Error::FailedToConstructAssetTable),
    {
        match self.context.commit() {
            Ok(Some(m)) => Ok(m),
            Ok(None) => Err(Error::FailedToConstructAssetTable),
            Err(e) => Err(e),
        }
    }
}

/// Whether `v` may stand as a sender or a caller.
pub open spec fn is_principal_or_none(v: Option<Value>) -> bool {
    match v {
        Some(Value::Principal(_)) => true,
        Some(_) => false,
        None => true,
    }
}

/// A short-lived view of a session for one invocation: the frames and the
/// store, the contract whose bindings are in scope, the call stack, and who
/// sent the transaction and who made the current call.
pub struct Environment<'a> {
    pub global_context: &'a mut GlobalContext,
    pub contract_context: &'a ContractContext,
    pub call_stack: &'a mut CallStack,
    pub sender: Option<Value>,
    pub caller: Option<Value>,
}

impl<'a> Environment<'a> {
    /// The sender and the caller, where given, must be principals.
    pub fn new(
        global_context: &'a mut GlobalContext,
        contract_context: &'a ContractContext,
        call_stack: &'a mut CallStack,
        sender: Option<Value>,
        caller: Option<Value>,
    ) -> (r: Environment<'a>)
        requires
            is_principal_or_none(sender),
            is_principal_or_none(caller),
        ensures
            *r.global_context == *old(global_context),
            r.contract_context == contract_context,
            *r.call_stack == *old(call_stack),
            r.sender == sender,
            r.caller == caller,
    {
        Environment { global_context, contract_context, call_stack, sender, caller }
    }

    /// A view in which `sender` both sent the transaction and makes the call.
    pub fn nest_as_principal<'c>(&'c mut self, sender: Value) -> (r: Environment<'c>)
        requires
            sender matches Value::Principal(_),
        ensures
            *r.global_context == *old(self).global_context,
            r.contract_context == old(self).contract_context,
            *r.call_stack == *old(self).call_stack,
            r.sender == Some(sender),
            r.caller == Some(sender),
    {
        let caller = sender.duplicate();
        Environment::new(
            &mut *self.global_context,
            self.contract_context,
            &mut *self.call_stack,
            Some(sender),
            Some(caller),
        )
    }

    /// A view in which `caller` makes the call, for the same sender.
    pub fn nest_with_caller<'c>(&'c mut self, caller: Value) -> (r: Environment<'c>)
        requires
            caller matches Value::Principal(_),
            is_principal_or_none(old(self).sender),
        ensures
            *r.global_context == *old(self).global_context,
            r.contract_context == old(self).contract_context,
            *r.call_stack == *old(self).call_stack,
            r.sender == old(self).sender,
            r.caller == Some(caller),
    {
        let sender = match &self.sender {
            Some(v) => Some(v.duplicate()),
            None => None,
        };
        Environment::new(
            &mut *self.global_context,
            self.contract_context,
            &mut *self.call_stack,
            sender,
            Some(caller),
        )
    }

    /// Opens the frame a call of `function` runs in: read-only for a
    /// read-only function, otherwise as writable as the current frame.
    pub fn begin_function_call(&mut self, function: &DefinedFunction)
        requires
            old(self).global_context.well_formed(),
        ensures
            final(self).global_context.well_formed(),
            final(self).global_context.frames().len() == old(self).global_context.frames().len() + 1,
            final(self).global_context.frames().drop_last() == old(self).global_context.frames(),
            final(self).global_context.read_only_flags() == old(
                self,
            ).global_context.read_only_flags().push(
                function.define_type is ReadOnly || old(self).global_context.read_only_spec(),
            ),
            final(self).global_context.db().history() == old(self).global_context.db().history().push(
                DatabaseOp::Begin,
            ),
            final(self).contract_context == old(self).contract_context,
            *final(self).call_stack == *old(self).call_stack,
            final(self).sender == old(self).sender,
            final(self).caller == old(self).caller,
    {
        if function.is_read_only() {
            self.global_context.begin_read_only();
        } else {
            self.global_context.begin();
        }
    }

    /// Closes the frame of a call of `function` that returned `result`. A
    /// read-only call is rolled back and its result handed back as it is;
    /// any other call is concluded as a transaction.
    pub fn finish_function_call(&mut self, function: &DefinedFunction, result: Result<Value, Error>) -> (r: Result<Value, Error>)
        requires
            old(self).global_context.well_formed(),
            old(self).global_context.frames().len() > 0,
        ensures
            final(self).global_context.well_formed(),
            function.define_type is ReadOnly ==> {
                &&& r == result
                &&& final(self).global_context.frames() == old(self).global_context.frames().drop_last()
                &&& final(self).global_context.read_only_flags() == old(
                    self,
                ).global_context.read_only_flags().drop_last()
                &&& final(self).global_context.db().history() == old(
                    self,
                ).global_context.db().history().push(DatabaseOp::RollBack)
            },
            !(function.define_type is ReadOnly) ==> final(self).global_context.concludes_tx(
                &*old(self).global_context,
                result,
                r,
            ),
            final(self).contract_context == old(self).contract_context,
            *final(self).call_stack == *old(self).call_stack,
            final(self).sender == old(self).sender,
            final(self).caller == old(self).caller,
    {
        if function.is_read_only() {
            self.global_context.roll_back();
            result
        } else {
            self.global_context.handle_tx_result(result)
        }
    }

    /// Opens the frame a read-only query of a program of `n_forms` parsed
    /// forms runs in. An empty program is a parse error, and nothing is
    /// opened. The frame is as writable as the current one: it is rolled
    /// back whatever the query does.
    pub fn begin_read_only_query(&mut self, n_forms: usize) -> (r: Result<(), Error>)
        requires
            old(self).global_context.well_formed(),
        ensures
            final(self).global_context.well_formed(),
            r is Err <==> n_forms == 0,
            r is Err ==> (r matches Err(Error::ParseError(_))) && *final(self).global_context == *old(self).global_context,
            r is Ok ==> {
                &&& final(self).global_context.frames().len() == old(self).global_context.frames().len() + 1
                &&& final(self).global_context.frames().drop_last() == old(self).global_context.frames()
                &&& forall|k: LedgerKey|
                    !#[trigger] final(self).global_context.frames().last().has_tokens(k)
                        && !final(self).global_context.frames().last().has_transfers(k)
                &&& final(self).global_context.read_only_flags() == old(
                    self,
                ).global_context.read_only_flags().push(old(self).global_context.read_only_spec())
                &&& final(self).global_context.db().history() == old(
                    self,
                ).global_context.db().history().push(DatabaseOp::Begin)
            },
            final(self).contract_context == old(self).contract_context,
            *final(self).call_stack == *old(self).call_stack,
            final(self).sender == old(self).sender,
            final(self).caller == old(self).caller,
    {
        if n_forms == 0 {
            return Err(Error::ParseError("Expected a program of at least length 1".to_string()));
        }
        self.global_context.begin();
        proof {
            assert forall|k: LedgerKey|
                !#[trigger] self.global_context.frames().last().has_tokens(k)
                    && !self.global_context.frames().last().has_transfers(k) by {
                assert(!self.global_context.frames().last().has_tokens(k));
            }
        }
        Ok(())
    }

    /// Closes the frame of a read-only query, whatever it returned, loading
    /// the contract included: the frame is always rolled back, and `result`
    /// handed back as it is.
    pub fn finish_read_only_query(&mut self, result: Result<Value, Error>) -> (r: Result<Value, Error>)
        requires
            old(self).global_context.well_formed(),
            old(self).global_context.frames().len() > 0,
        ensures
            final(self).global_context.well_formed(),
            r == result,
            final(self).global_context.frames() == old(self).global_context.frames().drop_last(),
            final(self).global_context.read_only_flags() == old(
                self,
            ).global_context.read_only_flags().drop_last(),
            final(self).global_context.db().history() == old(self).global_context.db().history().push(
                DatabaseOp::RollBack,
            ),
            final(self).contract_context == old(self).contract_context,
            *final(self).call_stack == *old(self).call_stack,
            final(self).sender == old(self).sender,
            final(self).caller == old(self).caller,
    {
        self.global_context.roll_back();
        result
    }

    /// Closes the frame a contract was built in, given whether building it
    /// (and storing it) succeeded: a success is committed, a failure rolled
    /// back and passed on.
    pub fn finish_initialize(&mut self, built: Result<(), Error>) -> (r: Result<(), Error>)
        requires
            old(self).global_context.well_formed(),
            old(self).global_context.frames().len() > 0,
        ensures
            final(self).global_context.well_formed(),
            match built {
                Ok(()) => final(self).global_context.closes_by_commit(
                    &*old(self).global_context,
                    r is Err,
                ) && (r is Err ==> r == Err::<(), Error>(Error::ArithmeticOverflow)),
                Err(e) => r == Err::<(), Error>(e) && final(self).global_context.frames() == old(
                    self,
                ).global_context.frames().drop_last() && final(self).global_context.read_only_flags()
                    == old(self).global_context.read_only_flags().drop_last()
                    && final(self).global_context.db().history() == old(
                    self,
                ).global_context.db().history().push(DatabaseOp::RollBack),
            },
            final(self).contract_context == old(self).contract_context,
            *final(self).call_stack == *old(self).call_stack,
            final(self).sender == old(self).sender,
            final(self).caller == old(self).caller,
    {
        self.global_context.finish_execute(built)
    }
}

/// The function `tx_name` of `contract`, where a transaction may call it:
/// `UndefinedFunction` where it does not exist, `NonPublicFunction` where it
/// is private.
pub fn resolve_public_function(contract: &ContractContext, tx_name: &str) -> (r: Result<DefinedFunction, Error>)
    ensures
        match binding(contract.functions@, tx_name@) {
            None => r matches Err(Error::UndefinedFunction(n)) && n@ == tx_name@,
            Some(f) => if f.define_type is Private {
                r matches Err(Error::NonPublicFunction(n)) && n@ == tx_name@
            } else {
                r == Ok::<DefinedFunction, Error>(f)
            },
        },
{
    match contract.lookup_function(tx_name) {
        None => Err(Error::UndefinedFunction(tx_name.to_string())),
        Some(f) => {
            if !f.is_public() {
                Err(Error::NonPublicFunction(tx_name.to_string()))
            } else {
                Ok(f)
            }
        },
    }
}

/// The values of `args`, each of which must be a literal value; any other
/// form is an interpreter error.
pub fn coerce_args(args: &[SymbolicExpression]) -> (r: Result<Vec<Value>, Error>)
    ensures
        r is Ok <==> forall|i: int| 0 <= i < args@.len() ==> #[trigger] args@[i] is AtomValue,
        r matches Ok(vs) ==> vs@.len() == args@.len() && forall|i: int|
            0 <= i < args@.len() ==> args@[i] == SymbolicExpression::AtomValue(#[trigger] vs@[i]),
        r is Err ==> r matches Err(Error::InterpreterError(_)),
{
    let mut out: Vec<Value> = Vec::new();
    let mut i: usize = 0;
    while i < args.len()
        invariant
            i <= args@.len(),
            out@.len() == i,
            forall|j: int| 0 <= j < i ==> args@[j] == SymbolicExpression::AtomValue(#[trigger] out@[j]),
        decreases args@.len() - i,
    {
        match args[i].match_atom_value() {
            Some(v) => out.push(v.duplicate()),
            None => {
                return Err(Error::InterpreterError("Passed non-value expression to exec_tx".to_string()));
            },
        }
        i = i + 1;
    }
    proof {
        assert forall|i: int| 0 <= i < args@.len() implies #[trigger] args@[i] is AtomValue by {
            assert(args@[i] == SymbolicExpression::AtomValue(out@[i]));
        }
    }
    Ok(out)
}

/// The form a program is evaluated by: its first, or a parse error where
/// the program holds none.
pub fn first_form(parsed: &Vec<SymbolicExpression>) -> (r: Result<&SymbolicExpression, Error>)
    ensures
        parsed@.len() == 0 <==> r is Err,
        r is Err ==> r matches Err(Error::ParseError(_)),
        r matches Ok(e) ==> *e == parsed@[0],
{
    if parsed.len() < 1 {
        return Err(Error::ParseError("Expected a program of at least length 1".to_string()));
    }
    Ok(&parsed[0])
}

} // verus!
