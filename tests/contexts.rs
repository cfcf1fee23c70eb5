use vm_contexts::assets::{AssetMap, AssetMapEntry};
use vm_contexts::call_stack::CallStack;
use vm_contexts::contract::{ContractContext, DefineType, DefinedFunction};
use vm_contexts::env::{
    coerce_args, first_form, resolve_public_function, Environment, OwnedEnvironment,
};
use vm_contexts::global::{memory_db, GlobalContext};
use vm_contexts::local::LocalContext;
use vm_contexts::types::{
    AssetIdentifier, Error, FunctionIdentifier, PrincipalData, SymbolicExpression, Value,
};

type Table = Vec<(PrincipalData, AssetIdentifier, AssetMapEntry)>;

fn entry<'t>(table: &'t Table, p: &PrincipalData, a: &AssetIdentifier) -> &'t AssetMapEntry {
    let found: Vec<&AssetMapEntry> = table
        .iter()
        .filter(|(tp, ta, _)| tp == p && ta == a)
        .map(|(_, _, e)| e)
        .collect();
    assert_eq!(found.len(), 1);
    found[0]
}

fn principal_count(table: &Table) -> usize {
    let mut seen: Vec<&PrincipalData> = Vec::new();
    for (p, _, _) in table {
        if !seen.contains(&p) {
            seen.push(p);
        }
    }
    seen.len()
}

fn asset(contract: &str, name: &str) -> AssetIdentifier {
    AssetIdentifier { contract_name: contract.into(), asset_name: name.into() }
}

#[test]
fn test_asset_map_abort() {
    let p1 = PrincipalData::ContractPrincipal("a".into());
    let p2 = PrincipalData::ContractPrincipal("b".into());

    let t1 = AssetIdentifier { contract_name: "a".into(), asset_name: "a".into() };
    let _t2 = AssetIdentifier { contract_name: "b".into(), asset_name: "a".into() };

    let mut am1 = AssetMap::new();
    let mut am2 = AssetMap::new();

    am1.add_token_transfer(&p1, t1.clone(), 1).unwrap();
    am1.add_token_transfer(&p2, t1.clone(), i128::max_value()).unwrap();
    am2.add_token_transfer(&p1, t1.clone(), 1).unwrap();
    am2.add_token_transfer(&p2, t1.clone(), 1).unwrap();

    am1.commit_other(am2).unwrap_err();

    let table = am1.to_table();

    assert_eq!(*entry(&table, &p2, &t1), AssetMapEntry::Token(i128::max_value()));
    assert_eq!(*entry(&table, &p1, &t1), AssetMapEntry::Token(1));
}

#[test]
fn test_asset_map_combinations() {
    let p1 = PrincipalData::ContractPrincipal("a".into());
    let p2 = PrincipalData::ContractPrincipal("b".into());
    let p3 = PrincipalData::ContractPrincipal("c".into());

    let t1 = AssetIdentifier { contract_name: "a".into(), asset_name: "a".into() };
    let t2 = AssetIdentifier { contract_name: "b".into(), asset_name: "a".into() };
    let t3 = AssetIdentifier { contract_name: "c".into(), asset_name: "a".into() };
    let t4 = AssetIdentifier { contract_name: "d".into(), asset_name: "a".into() };
    let t5 = AssetIdentifier { contract_name: "e".into(), asset_name: "a".into() };

    let mut am1 = AssetMap::new();
    let mut am2 = AssetMap::new();

    am1.add_token_transfer(&p1, t1.clone(), 10).unwrap();
    am2.add_token_transfer(&p1, t1.clone(), 15).unwrap();

    // a token that has no entry in the parent
    am2.add_token_transfer(&p1, t4.clone(), 1).unwrap();

    // a principal that has no entry in the parent
    am2.add_token_transfer(&p2, t2.clone(), 10).unwrap();
    am2.add_token_transfer(&p2, t2.clone(), 1).unwrap();

    // a principal that has no entry in the parent
    am2.add_asset_transfer(&p3, t3.clone(), Value::Int(10));

    // an asset that has no entry in the parent
    am1.add_asset_transfer(&p1, t5.clone(), Value::Int(0));
    am2.add_asset_transfer(&p1, t3.clone(), Value::Int(1));
    am2.add_asset_transfer(&p1, t3.clone(), Value::Int(0));

    // an asset that has an entry in the parent
    am1.add_asset_transfer(&p2, t3.clone(), Value::Int(2));
    am1.add_asset_transfer(&p2, t3.clone(), Value::Int(5));
    am2.add_asset_transfer(&p2, t3.clone(), Value::Int(3));
    am2.add_asset_transfer(&p2, t3.clone(), Value::Int(4));

    am1.commit_other(am2).unwrap();

    let table = am1.to_table();

    assert_eq!(principal_count(&table), 3);

    assert_eq!(*entry(&table, &p1, &t1), AssetMapEntry::Token(25));
    assert_eq!(*entry(&table, &p1, &t4), AssetMapEntry::Token(1));

    assert_eq!(*entry(&table, &p2, &t2), AssetMapEntry::Token(11));

    assert_eq!(
        *entry(&table, &p2, &t3),
        AssetMapEntry::Asset(vec![Value::Int(2), Value::Int(5), Value::Int(3), Value::Int(4)])
    );

    assert_eq!(*entry(&table, &p1, &t3), AssetMapEntry::Asset(vec![Value::Int(1), Value::Int(0)]));
    assert_eq!(*entry(&table, &p1, &t5), AssetMapEntry::Asset(vec![Value::Int(0)]));

    assert_eq!(*entry(&table, &p3, &t3), AssetMapEntry::Asset(vec![Value::Int(10)]));
}

#[test]
fn token_transfer_overflow_leaves_ledger_unchanged() {
    let p = PrincipalData::StandardPrincipal("SP1".into());
    let t = asset("a", "coin");
    let mut am = AssetMap::new();
    am.add_token_transfer(&p, t.clone(), i128::MAX - 1).unwrap();
    assert_eq!(am.add_token_transfer(&p, t.clone(), 2), Err(Error::ArithmeticOverflow));
    am.add_token_transfer(&p, t.clone(), 1).unwrap();
    let table = am.to_table();
    assert_eq!(*entry(&table, &p, &t), AssetMapEntry::Token(i128::MAX));
}

#[test]
fn principals_of_different_kinds_are_distinct() {
    let standard = PrincipalData::StandardPrincipal("a".into());
    let contract = PrincipalData::ContractPrincipal("a".into());
    let t = asset("a", "coin");
    let mut am = AssetMap::new();
    am.add_token_transfer(&standard, t.clone(), 3).unwrap();
    am.add_token_transfer(&contract, t.clone(), 4).unwrap();
    let table = am.to_table();
    assert_eq!(table.len(), 2);
    assert_eq!(*entry(&table, &standard, &t), AssetMapEntry::Token(3));
    assert_eq!(*entry(&table, &contract, &t), AssetMapEntry::Token(4));
}

#[test]
fn merge_into_empty_ledger_copies_other() {
    let p = PrincipalData::ContractPrincipal("a".into());
    let t = asset("x", "nft");
    let mut parent = AssetMap::new();
    let mut child = AssetMap::new();
    child.add_asset_transfer(&p, t.clone(), Value::Bool(true));
    child.add_token_transfer(&p, asset("x", "coin"), 0).unwrap();
    parent.commit_other(child).unwrap();
    let table = parent.to_table();
    assert_eq!(table.len(), 2);
    assert_eq!(*entry(&table, &p, &t), AssetMapEntry::Asset(vec![Value::Bool(true)]));
    assert_eq!(*entry(&table, &p, &asset("x", "coin")), AssetMapEntry::Token(0));
}

#[test]
fn balanced_frames_return_to_top_level() {
    let mut g = GlobalContext::new(memory_db());
    assert!(g.is_top_level());
    assert!(!g.is_read_only());
    g.begin();
    assert!(!g.is_read_only());
    g.begin_read_only();
    assert!(g.is_read_only());
    g.begin();
    assert!(g.is_read_only());
    assert_eq!(g.commit().unwrap().is_none(), true);
    g.roll_back();
    assert!(!g.is_read_only());
    assert!(!g.is_top_level());
    let outer = g.commit().unwrap();
    assert!(outer.is_some());
    assert!(g.is_top_level());
}

#[test]
fn commit_folds_child_ledger_into_parent() {
    let p = PrincipalData::ContractPrincipal("c".into());
    let contract: String = "c".into();
    let coin: String = "coin".into();
    let nft: String = "nft".into();
    let mut g = GlobalContext::new(memory_db());
    g.begin();
    g.log_token_transfer(&p, &contract, &coin, 5).unwrap();
    g.log_asset_transfer(&p, &contract, &nft, Value::UInt(1));
    g.begin();
    g.log_token_transfer(&p, &contract, &coin, 7).unwrap();
    g.log_asset_transfer(&p, &contract, &nft, Value::UInt(2));
    assert!(g.commit().unwrap().is_none());
    let table = g.commit().unwrap().unwrap().to_table();
    assert_eq!(*entry(&table, &p, &asset("c", "coin")), AssetMapEntry::Token(12));
    assert_eq!(
        *entry(&table, &p, &asset("c", "nft")),
        AssetMapEntry::Asset(vec![Value::UInt(1), Value::UInt(2)])
    );
    assert!(g.is_top_level());
}

#[test]
fn commit_overflow_keeps_parent_ledger() {
    let p = PrincipalData::ContractPrincipal("c".into());
    let contract: String = "c".into();
    let coin: String = "coin".into();
    let mut g = GlobalContext::new(memory_db());
    g.begin();
    g.log_token_transfer(&p, &contract, &coin, i128::MAX).unwrap();
    g.begin();
    g.log_token_transfer(&p, &contract, &coin, 1).unwrap();
    assert_eq!(g.commit().unwrap_err(), Error::ArithmeticOverflow);
    let table = g.commit().unwrap().unwrap().to_table();
    assert_eq!(*entry(&table, &p, &asset("c", "coin")), AssetMapEntry::Token(i128::MAX));
    assert!(g.is_top_level());
}

#[test]
fn non_response_result_is_refused_and_rolled_back() {
    let mut g = GlobalContext::new(memory_db());
    g.begin();
    let r = g.handle_tx_result(Ok(Value::Int(1)));
    assert_eq!(r, Err(Error::ContractMustReturnBoolean));
    assert!(g.is_top_level());
}

#[test]
fn response_results_commit_or_roll_back() {
    let p = PrincipalData::ContractPrincipal("c".into());
    let contract: String = "c".into();
    let coin: String = "coin".into();
    let mut g = GlobalContext::new(memory_db());
    g.begin();

    g.begin();
    g.log_token_transfer(&p, &contract, &coin, 4).unwrap();
    let ok = Value::Response { committed: true, data: Box::new(Value::Bool(true)) };
    assert_eq!(
        g.handle_tx_result(Ok(ok)),
        Ok(Value::Response { committed: true, data: Box::new(Value::Bool(true)) })
    );

    g.begin();
    g.log_token_transfer(&p, &contract, &coin, 100).unwrap();
    let aborted = Value::Response { committed: false, data: Box::new(Value::Int(3)) };
    assert_eq!(
        g.handle_tx_result(Ok(aborted)),
        Ok(Value::Response { committed: false, data: Box::new(Value::Int(3)) })
    );

    g.begin();
    let failed = g.handle_tx_result(Err(Error::InterpreterError("boom".into())));
    assert_eq!(failed, Err(Error::InterpreterError("boom".into())));

    let table = g.commit().unwrap().unwrap().to_table();
    assert_eq!(table.len(), 1);
    assert_eq!(*entry(&table, &p, &asset("c", "coin")), AssetMapEntry::Token(4));
}

#[test]
fn recursion_guard_tracks_insert_and_remove() {
    let f = FunctionIdentifier { identifier: "user:f".into() };
    let g = FunctionIdentifier { identifier: "native:g".into() };
    let mut stack = CallStack::new();
    assert!(!stack.contains(&f));
    stack.insert(&f, true);
    assert!(stack.contains(&f));
    stack.insert(&g, false);
    assert!(!stack.contains(&g));
    assert_eq!(stack.depth(), 2);
    stack.remove(&g, false).unwrap();
    stack.remove(&f, true).unwrap();
    assert!(!stack.contains(&f));
    assert_eq!(stack.depth(), 0);
    assert!(stack.make_stack_trace().is_empty());
}

#[test]
fn call_stack_remove_errors() {
    let f = FunctionIdentifier { identifier: "f".into() };
    let g = FunctionIdentifier { identifier: "g".into() };
    let mut stack = CallStack::new();
    assert!(matches!(stack.remove(&f, false), Err(Error::InterpreterError(_))));
    stack.insert(&f, false);
    assert!(matches!(stack.remove(&g, false), Err(Error::InterpreterError(_))));
    assert_eq!(stack.depth(), 0);
}

fn extend_times(ctx: &LocalContext<'_>, n: usize) -> Result<(), Error> {
    if n == 0 {
        return Ok(());
    }
    let child = ctx.extend()?;
    extend_times(&child, n - 1)
}

#[test]
fn local_context_depth_limit() {
    let root = LocalContext::new();
    assert_eq!(extend_times(&root, 256), Ok(()));
    assert_eq!(extend_times(&root, 257), Err(Error::MaxContextDepthReached));
}

#[test]
fn local_lookup_finds_nearest_binding() {
    let mut root = LocalContext::new();
    root.variables.push(("x".into(), Value::Int(1)));
    root.variables.push(("y".into(), Value::Int(2)));
    let mut child = root.extend().unwrap();
    child.variables.push(("x".into(), Value::Int(10)));
    let grandchild = child.extend().unwrap();
    assert_eq!(grandchild.lookup_variable("x"), Some(Value::Int(10)));
    assert_eq!(grandchild.lookup_variable("y"), Some(Value::Int(2)));
    assert_eq!(grandchild.lookup_variable("z"), None);
    assert_eq!(root.lookup_variable("x"), Some(Value::Int(1)));
}

#[test]
fn contract_context_lookups() {
    let mut c = ContractContext::new("c".into());
    c.variables.push(("x".into(), Value::Int(1)));
    c.functions.push((
        "f".into(),
        DefinedFunction { name: "f".into(), define_type: DefineType::Private },
    ));
    assert_eq!(c.lookup_variable("x"), Some(Value::Int(1)));
    assert_eq!(c.lookup_variable("y"), None);
    let f = c.lookup_function("f").unwrap();
    assert!(!f.is_public());
    assert!(!f.is_read_only());
    assert!(c.lookup_function("g").is_none());
    assert_eq!(ContractContext::new_transient().name, "__transient");
}

#[test]
fn defined_function_kinds() {
    let ro = DefinedFunction { name: "r".into(), define_type: DefineType::ReadOnly };
    let public = DefinedFunction { name: "p".into(), define_type: DefineType::Public };
    assert!(ro.is_public() && ro.is_read_only());
    assert!(public.is_public() && !public.is_read_only());
}

#[test]
fn owned_environment_commit_yields_outer_ledger() {
    let mut env = OwnedEnvironment::memory();
    env.begin();
    env.begin();
    assert_eq!(env.commit().unwrap_err(), Error::FailedToConstructAssetTable);
    let table = env.commit().unwrap().to_table();
    assert!(table.is_empty());
}

#[test]
fn value_duplicate_is_equal() {
    let v = Value::Response {
        committed: true,
        data: Box::new(Value::Principal(PrincipalData::StandardPrincipal("SP".into()))),
    };
    assert_eq!(v.duplicate(), v);
}

fn principal(name: &str) -> Value {
    Value::Principal(PrincipalData::StandardPrincipal(name.into()))
}

#[test]
fn exec_environment_sender_is_caller() {
    let mut owned = OwnedEnvironment::memory();
    let env = owned.get_exec_environment(Some(principal("alice")));
    assert_eq!(env.sender, Some(principal("alice")));
    assert_eq!(env.caller, Some(principal("alice")));
    assert_eq!(env.contract_context.name, "__transient");
}

#[test]
fn nesting_replaces_sender_and_caller() {
    let mut owned = OwnedEnvironment::memory();
    let mut env = owned.get_exec_environment(Some(principal("alice")));
    {
        let nested = env.nest_with_caller(principal("bob"));
        assert_eq!(nested.sender, Some(principal("alice")));
        assert_eq!(nested.caller, Some(principal("bob")));
    }
    let nested = env.nest_as_principal(principal("carol"));
    assert_eq!(nested.sender, Some(principal("carol")));
    assert_eq!(nested.caller, Some(principal("carol")));
}

#[test]
fn transaction_returning_non_response_is_refused() {
    let mut g = GlobalContext::new(memory_db());
    let contract = ContractContext::new("c".into());
    let mut stack = CallStack::new();
    let mut env = Environment::new(&mut g, &contract, &mut stack, Some(principal("a")), None);
    let f = DefinedFunction { name: "f".into(), define_type: DefineType::Public };
    env.begin_function_call(&f);
    assert!(!env.global_context.is_read_only());
    let r = env.finish_function_call(&f, Ok(Value::Int(5)));
    assert_eq!(r, Err(Error::ContractMustReturnBoolean));
    assert!(env.global_context.is_top_level());
}

#[test]
fn read_only_call_never_persists() {
    let p = PrincipalData::ContractPrincipal("c".into());
    let contract_name: String = "c".into();
    let coin: String = "coin".into();
    let mut g = GlobalContext::new(memory_db());
    g.begin();
    let contract = ContractContext::new("c".into());
    let mut stack = CallStack::new();
    {
        let mut env = Environment::new(&mut g, &contract, &mut stack, None, None);
        let f = DefinedFunction { name: "get".into(), define_type: DefineType::ReadOnly };
        env.begin_function_call(&f);
        assert!(env.global_context.is_read_only());
        env.global_context.log_token_transfer(&p, &contract_name, &coin, 9).unwrap();
        let committed = Value::Response { committed: true, data: Box::new(Value::Int(1)) };
        let r = env.finish_function_call(&f, Ok(committed));
        assert_eq!(r, Ok(Value::Response { committed: true, data: Box::new(Value::Int(1)) }));
        assert!(!env.global_context.is_read_only());
    }
    let table = g.commit().unwrap().unwrap().to_table();
    assert!(table.is_empty());
}

#[test]
fn resolving_functions_for_a_transaction() {
    let mut c = ContractContext::new("c".into());
    c.functions.push(("pub".into(), DefinedFunction { name: "pub".into(), define_type: DefineType::Public }));
    c.functions.push(("priv".into(), DefinedFunction { name: "priv".into(), define_type: DefineType::Private }));
    assert_eq!(resolve_public_function(&c, "pub").unwrap().name, "pub");
    assert_eq!(resolve_public_function(&c, "priv"), Err(Error::NonPublicFunction("priv".into())));
    assert_eq!(resolve_public_function(&c, "nope"), Err(Error::UndefinedFunction("nope".into())));
}

#[test]
fn arguments_must_be_values() {
    let args = vec![SymbolicExpression::AtomValue(Value::Int(1)), SymbolicExpression::AtomValue(Value::Bool(false))];
    assert_eq!(coerce_args(&args), Ok(vec![Value::Int(1), Value::Bool(false)]));
    let bad = vec![SymbolicExpression::AtomValue(Value::Int(1)), SymbolicExpression::Atom("x".into())];
    assert!(matches!(coerce_args(&bad), Err(Error::InterpreterError(_))));
    assert_eq!(coerce_args(&[]), Ok(vec![]));
}

#[test]
fn top_level_transaction_returning_non_response_fails() {
    let mut owned = OwnedEnvironment::memory();
    owned.begin();
    let returned = {
        let mut env = owned.get_exec_environment(Some(principal("alice")));
        let f = DefinedFunction { name: "f".into(), define_type: DefineType::Public };
        env.begin_function_call(&f);
        env.global_context.log_token_transfer(
            &PrincipalData::StandardPrincipal("alice".into()),
            &"c".to_string(),
            &"coin".to_string(),
            3,
        )
        .unwrap();
        env.finish_function_call(&f, Ok(Value::Int(7)))
    };
    assert_eq!(returned, Err(Error::ContractMustReturnBoolean));
    let r = owned.finish_transaction(returned);
    assert!(matches!(r, Err(Error::ContractMustReturnBoolean)));
    owned.begin();
    let table = owned.commit().unwrap().to_table();
    assert!(table.is_empty());
}

#[test]
fn top_level_transaction_hands_back_its_ledger() {
    let p = PrincipalData::StandardPrincipal("alice".into());
    let mut owned = OwnedEnvironment::memory();
    owned.begin();
    let returned = {
        let mut env = owned.get_exec_environment(Some(principal("alice")));
        let f = DefinedFunction { name: "f".into(), define_type: DefineType::Public };
        env.begin_function_call(&f);
        env.global_context.log_token_transfer(&p, &"c".to_string(), &"coin".to_string(), 3).unwrap();
        let ok = Value::Response { committed: true, data: Box::new(Value::Bool(true)) };
        env.finish_function_call(&f, Ok(ok))
    };
    let (value, ledger) = owned.finish_transaction(returned).unwrap();
    assert_eq!(value, Value::Response { committed: true, data: Box::new(Value::Bool(true)) });
    let table = ledger.to_table();
    assert_eq!(*entry(&table, &p, &asset("c", "coin")), AssetMapEntry::Token(3));
}

#[test]
fn read_only_query_is_always_rolled_back() {
    let p = PrincipalData::ContractPrincipal("c".into());
    let mut g = GlobalContext::new(memory_db());
    g.begin();
    let contract = ContractContext::new("c".into());
    let mut stack = CallStack::new();
    {
        let mut env = Environment::new(&mut g, &contract, &mut stack, None, None);
        assert!(matches!(env.begin_read_only_query(0), Err(Error::ParseError(_))));
        env.begin_read_only_query(1).unwrap();
        assert!(!env.global_context.is_read_only());
        env.global_context.log_token_transfer(&p, &"c".to_string(), &"coin".to_string(), 2).unwrap();
        let r = env.finish_read_only_query(Ok(Value::Int(1)));
        assert_eq!(r, Ok(Value::Int(1)));
        env.begin_read_only_query(1).unwrap();
        let failed = env.finish_read_only_query(Err(Error::InterpreterError("no such contract".into())));
        assert_eq!(failed, Err(Error::InterpreterError("no such contract".into())));
    }
    let table = g.commit().unwrap().unwrap().to_table();
    assert!(table.is_empty());
    assert!(g.is_top_level());
}

#[test]
fn contract_initialization_commits_or_rolls_back() {
    let p = PrincipalData::ContractPrincipal("c".into());
    let mut g = GlobalContext::new(memory_db());
    g.begin();
    let contract = ContractContext::new_transient();
    let mut stack = CallStack::new();
    {
        let mut env = Environment::new(&mut g, &contract, &mut stack, None, None);
        env.global_context.begin();
        env.global_context.log_token_transfer(&p, &"c".to_string(), &"coin".to_string(), 5).unwrap();
        assert_eq!(env.finish_initialize(Ok(())), Ok(()));
        env.global_context.begin();
        env.global_context.log_token_transfer(&p, &"c".to_string(), &"coin".to_string(), 50).unwrap();
        let e = Error::ParseError("bad".into());
        assert_eq!(env.finish_initialize(Err(e.clone())), Err(e));
    }
    let table = g.commit().unwrap().unwrap().to_table();
    assert_eq!(*entry(&table, &p, &asset("c", "coin")), AssetMapEntry::Token(5));
}

#[test]
fn committed_response_merges_into_parent() {
    let p = PrincipalData::ContractPrincipal("c".into());
    let mut g = GlobalContext::new(memory_db());
    g.begin();
    g.log_token_transfer(&p, &"c".to_string(), &"coin".to_string(), 1).unwrap();
    g.begin();
    g.log_token_transfer(&p, &"c".to_string(), &"coin".to_string(), 2).unwrap();
    let ok = Value::Response { committed: true, data: Box::new(Value::Int(0)) };
    assert!(g.handle_tx_result(Ok(ok)).is_ok());
    let table = g.commit().unwrap().unwrap().to_table();
    assert_eq!(*entry(&table, &p, &asset("c", "coin")), AssetMapEntry::Token(3));
}

#[test]
fn owned_commit_of_inner_frame_merges_into_parent() {
    let mut env = OwnedEnvironment::memory();
    env.begin();
    env.begin();
    assert_eq!(env.commit().unwrap_err(), Error::FailedToConstructAssetTable);
    assert!(env.commit().is_ok());
}

#[test]
fn execute_bracket_commits_success_and_rolls_back_failure() {
    let p = PrincipalData::ContractPrincipal("c".into());
    let mut g = GlobalContext::new(memory_db());
    g.begin();
    g.begin();
    g.log_token_transfer(&p, &"c".to_string(), &"coin".to_string(), 4).unwrap();
    assert_eq!(g.finish_execute(Ok(9u32)), Ok(9u32));
    g.begin();
    g.log_token_transfer(&p, &"c".to_string(), &"coin".to_string(), 40).unwrap();
    assert_eq!(g.finish_execute::<u32>(Err(Error::MaxContextDepthReached)), Err(Error::MaxContextDepthReached));
    let table = g.commit().unwrap().unwrap().to_table();
    assert_eq!(*entry(&table, &p, &asset("c", "coin")), AssetMapEntry::Token(4));
}

#[test]
fn program_needs_a_form() {
    let empty: Vec<SymbolicExpression> = vec![];
    assert!(matches!(first_form(&empty), Err(Error::ParseError(_))));
    let program = vec![SymbolicExpression::Atom("x".into()), SymbolicExpression::AtomValue(Value::Int(2))];
    assert_eq!(first_form(&program), Ok(&SymbolicExpression::Atom("x".into())));
}
