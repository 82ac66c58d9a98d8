use r_python::ast::{FormalArgument, FuncSignature, Function, Type};
use r_python::environment::Environment;

#[test]
fn test_variable_scoping() {
    let mut env: Environment<i32> = Environment::new();

    env.map_variable("x".to_string(), true, 32);
    assert_eq!(Some((true, 32)), env.lookup(&"x".to_string()));

    env.push();
    env.map_variable("y".to_string(), true, 23);
    env.map_variable("x".to_string(), true, 55);

    env.push();
    env.map_variable("z".to_string(), true, 44);

    assert_eq!(Some((true, 55)), env.lookup(&"x".to_string()));
    assert_eq!(Some((true, 23)), env.lookup(&"y".to_string()));
    assert_eq!(Some((true, 44)), env.lookup(&"z".to_string()));

    env.pop();
    assert_eq!(Some((true, 55)), env.lookup(&"x".to_string()));
    assert_eq!(Some((true, 23)), env.lookup(&"y".to_string()));
    assert_eq!(None, env.lookup(&"z".to_string()));

    env.pop();
    assert_eq!(Some((true, 32)), env.lookup(&"x".to_string()));
    assert_eq!(None, env.lookup(&"y".to_string()));
}

#[test]
fn environment_test_function_scoping() {
    let mut env: Environment<i32> = Environment::new();

    let global_func = Function {
        name: "global".to_string(),
        kind: Type::TVoid,
        params: Vec::new(),
        body: None,
    };

    let local_func = Function {
        name: "local".to_string(),
        kind: Type::TVoid,
        params: Vec::new(),
        body: None,
    };

    env.map_function(global_func.clone());
    let global_signature = FuncSignature::from_func(&global_func);
    assert!(env.lookup_function(&global_signature).is_some());

    env.push();
    env.map_function(local_func.clone());
    let local_signature = FuncSignature::from_func(&local_func);

    assert!(env.lookup_function(&global_signature).is_some());
    assert!(env.lookup_function(&local_signature).is_some());

    env.pop();
    assert!(env.lookup_function(&global_signature).is_some());
    assert!(env.lookup_function(&local_signature).is_none());
}

#[test]
fn overloads_are_found_by_signature() {
    let mut env: Environment<i32> = Environment::new();
    let by_int = Function {
        name: "show".to_string(),
        kind: Type::TString,
        params: vec![FormalArgument::new("x".to_string(), Type::TInteger)],
        body: None,
    };
    let by_bool = Function {
        name: "show".to_string(),
        kind: Type::TBool,
        params: vec![FormalArgument::new("x".to_string(), Type::TBool)],
        body: None,
    };
    env.map_function(by_int.clone());
    env.map_function(by_bool.clone());
    let int_sig = FuncSignature::from_func(&by_int);
    let bool_sig = FuncSignature::from_func(&by_bool);
    assert_eq!(env.lookup_function(&int_sig).map(|f| f.kind.clone()), Some(Type::TString));
    assert_eq!(env.lookup_function(&bool_sig).map(|f| f.kind.clone()), Some(Type::TBool));
    assert_eq!(
        env.lookup_function_by_name(&"show".to_string()).map(|f| f.kind.clone()),
        Some(Type::TBool)
    );
}

#[test]
fn scoped_binding_disappears_with_its_scope() {
    let mut env: Environment<i32> = Environment::new();
    env.map_variable("a".to_string(), false, 1);
    env.push();
    env.map_variable("a".to_string(), true, 2);
    assert_eq!(env.lookup(&"a".to_string()), Some((true, 2)));
    env.pop();
    assert_eq!(env.lookup(&"a".to_string()), Some((false, 1)));
    env.pop();
    assert_eq!(env.lookup(&"a".to_string()), Some((false, 1)));
}

#[test]
fn all_functions_agree_with_lookup() {
    let mut env: Environment<i32> = Environment::new();
    let outer = Function { name: "f".to_string(), kind: Type::TInteger, params: Vec::new(), body: None };
    let inner = Function { name: "f".to_string(), kind: Type::TBool, params: Vec::new(), body: None };
    let other = Function {
        name: "g".to_string(),
        kind: Type::TVoid,
        params: vec![FormalArgument::new("x".to_string(), Type::TString)],
        body: None,
    };
    env.map_function(outer.clone());
    env.map_function(other.clone());
    env.push();
    env.map_function(inner.clone());
    let all = env.get_all_functions();
    for f in [&outer, &other] {
        let sig = FuncSignature::from_func(f);
        assert_eq!(all.get(&sig).map(|x| x.kind.clone()), env.lookup_function(&sig).map(|x| x.kind.clone()));
    }
    let sig = FuncSignature::from_func(&inner);
    assert_eq!(all.get(&sig).map(|x| x.kind.clone()), Some(Type::TBool));
    assert_eq!(all.len(), 2);
}

#[test]
fn lookup_by_name_gives_the_most_recently_mapped_overload() {
    let mut env: Environment<i32> = Environment::new();
    let f = |arg: Type, kind: Type| Function {
        name: "f".to_string(),
        kind,
        params: vec![FormalArgument::new("x".to_string(), arg)],
        body: None,
    };
    env.map_function(f(Type::TInteger, Type::TVoid));
    env.map_function(f(Type::TString, Type::TBool));
    env.map_function(f(Type::TInteger, Type::TReal));
    let found = env.lookup_function_by_name(&"f".to_string()).unwrap();
    assert_eq!(found.kind, Type::TReal);
    assert_eq!(found.params[0].argument_type, Type::TInteger);
}
