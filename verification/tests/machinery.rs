use mal::env::Env;
use mal::env::EnvArena;
use mal::eval::gen_env_from_param_app;
use mal::stdlib::Interp;
use mal::types::ListKind;
use mal::types::MalType;

fn arena() -> EnvArena {
    EnvArena { scopes: Vec::new() }
}

#[test]
fn test_gen_env_from_param_app() {
    let mut st = arena();

    let basic = gen_env_from_param_app(&mut st, None, &vec![], vec![]).unwrap();
    let empty = Env::new(&mut st, None);
    assert!(basic.scope_data_eq(&st, empty));

    let one_arg = gen_env_from_param_app(
        &mut st,
        None,
        &vec!["foo".to_string()],
        vec![MalType::Nil],
    )
    .unwrap();
    let one_expected = Env::new_with_bindings_list(
        &mut st,
        None,
        vec![("foo".to_string(), MalType::Nil)],
    );
    assert!(one_arg.scope_data_eq(&st, one_expected));

    let multi_args = gen_env_from_param_app(
        &mut st,
        None,
        &vec!["foo".to_string(), "bar".to_string(), "quux".to_string()],
        vec![MalType::Nil, MalType::Number(1), MalType::Bool(true)],
    )
    .unwrap();
    let multi_expected = Env::new_with_bindings_list(
        &mut st,
        None,
        vec![
            ("foo".to_string(), MalType::Nil),
            ("bar".to_string(), MalType::Number(1)),
            ("quux".to_string(), MalType::Bool(true)),
        ],
    );
    assert!(multi_args.scope_data_eq(&st, multi_expected));

    let only_varargs = gen_env_from_param_app(
        &mut st,
        None,
        &vec!["&".to_string(), "va".to_string()],
        vec![MalType::Nil, MalType::Number(1), MalType::Bool(true)],
    )
    .unwrap();
    let only_expected = Env::new_with_bindings_list(
        &mut st,
        None,
        vec![(
            "va".to_string(),
            MalType::L(ListKind::List, vec![
                MalType::Nil,
                MalType::Number(1),
                MalType::Bool(true),
            ]),
        )],
    );
    assert!(only_varargs.scope_data_eq(&st, only_expected));

    let with_varargs = gen_env_from_param_app(
        &mut st,
        None,
        &vec![
            "foo".to_string(),
            "bar".to_string(),
            "&".to_string(),
            "va".to_string(),
        ],
        vec![
            MalType::Nil,
            MalType::Number(1),
            MalType::Bool(true),
            MalType::Bool(false),
            MalType::Keyword("cool".to_string()),
            MalType::String("hello, world!".to_string()),
        ],
    )
    .unwrap();
    let with_expected = Env::new_with_bindings_list(
        &mut st,
        None,
        vec![
            ("foo".to_string(), MalType::Nil),
            ("bar".to_string(), MalType::Number(1)),
            (
                "va".to_string(),
                MalType::L(ListKind::List, vec![
                    MalType::Bool(true),
                    MalType::Bool(false),
                    MalType::Keyword("cool".to_string()),
                    MalType::String("hello, world!".to_string()),
                ]),
            ),
        ],
    );
    assert!(with_varargs.scope_data_eq(&st, with_expected));

    let empty_varargs = gen_env_from_param_app(
        &mut st,
        None,
        &vec!["foo".to_string(), "&".to_string(), "va".to_string()],
        vec![MalType::Nil],
    )
    .unwrap();
    let empty_expected = Env::new_with_bindings_list(
        &mut st,
        None,
        vec![
            ("foo".to_string(), MalType::Nil),
            ("va".to_string(), MalType::L(ListKind::List, vec![])),
        ],
    );
    assert!(empty_varargs.scope_data_eq(&st, empty_expected));
}

#[test]
fn test_env_set_get_and_shadowing() {
    let mut st = arena();
    let outer = Env::new(&mut st, None);
    outer.set(&mut st, "x".to_string(), MalType::Number(1));
    let inner = Env::new(&mut st, Some(outer));
    inner.set(&mut st, "x".to_string(), MalType::Number(2));
    assert!(matches!(inner.get(&st, "x"), Some(MalType::Number(2))));
    assert!(matches!(outer.get(&st, "x"), Some(MalType::Number(1))));
    assert!(inner.get(&st, "y").is_none());
}

#[test]
fn test_env_find_owning_scope() {
    let mut st = arena();
    let outer = Env::new(&mut st, None);
    outer.set(&mut st, "x".to_string(), MalType::Number(1));
    let inner = Env::new(&mut st, Some(outer));
    let owner = inner.find(&st, "x").unwrap();
    assert_eq!(owner.id, outer.id);
    assert!(inner.find(&st, "y").is_none());
}

#[test]
fn test_set_replaces_in_place() {
    let mut st = arena();
    let env = Env::new(&mut st, None);
    env.set(&mut st, "x".to_string(), MalType::Number(1));
    env.set(&mut st, "x".to_string(), MalType::Number(2));
    assert!(matches!(env.get(&st, "x"), Some(MalType::Number(2))));
    assert_eq!(st.scopes[env.id].data.len(), 1);
}

#[test]
fn test_pr_str_readable_and_display() {
    let v = MalType::String("a\"b\nc\\d".to_string());
    assert_eq!(v.pr_str::<true>(), "\"a\\\"b\\nc\\\\d\"");
    assert_eq!(v.pr_str::<false>(), "a\"b\nc\\d");
    let list = MalType::L(ListKind::List, vec![
        MalType::Number(1),
        MalType::L(ListKind::Vector, vec![MalType::Keyword("k".to_string())]),
        MalType::Nil,
    ]);
    assert_eq!(list.pr_str::<true>(), "(1 [:k] nil)");
}

#[test]
fn test_pr_list_joins() {
    let items = vec![MalType::Number(1), MalType::Number(2)];
    assert_eq!(MalType::pr_list::<true>(&items, "(", ")", " "), "(1 2)");
    assert_eq!(MalType::pr_list::<false>(&items, "", "", ""), "12");
}

#[test]
fn test_string_natives_and_output_log() {
    let mut st = Interp::new();
    let env = mal::stdlib::ns(&mut st);
    let fuel = 10_000;
    assert_eq!(
        mal::rep("(pr-str \"a\" 1)", &mut st, env, fuel).unwrap(),
        "\"\\\"a\\\" 1\""
    );
    assert_eq!(mal::rep("(str \"a\" 1)", &mut st, env, fuel).unwrap(), "\"a1\"");
    assert_eq!(mal::rep("(prn \"a\")", &mut st, env, fuel).unwrap(), "nil");
    assert_eq!(mal::rep("(println \"a\")", &mut st, env, fuel).unwrap(), "nil");
    assert_eq!(st.output.len(), 2);
    assert_eq!(st.output[0], "\"a\"");
    assert_eq!(st.output[1], "a");
}

#[test]
fn test_builtin_arithmetic_functions() {
    let two = vec![MalType::Number(10), MalType::Number(4)];
    assert!(matches!(mal::builtin::add(&two), Ok(MalType::Number(14))));
    assert!(matches!(mal::builtin::sub(&two), Ok(MalType::Number(6))));
    assert!(matches!(mal::builtin::mul(&two), Ok(MalType::Number(40))));
    assert!(matches!(mal::builtin::div(&two), Ok(MalType::Number(2))));
    let neg = vec![MalType::Number(-7), MalType::Number(2)];
    assert!(matches!(mal::builtin::div(&neg), Ok(MalType::Number(-3))));
}

#[test]
fn test_is_special_atom() {
    for name in ["def!", "do", "fn*", "if", "let*"] {
        assert!(mal::eval::is_special_atom(&MalType::Symbol(name.to_string())));
    }
    assert!(!mal::eval::is_special_atom(&MalType::Symbol("defx".to_string())));
    assert!(!mal::eval::is_special_atom(&MalType::Number(1)));
}

#[test]
fn test_mal_equiv_structure() {
    let a = MalType::L(ListKind::List, vec![MalType::Number(1), MalType::Number(2)]);
    let b = MalType::L(ListKind::Vector, vec![MalType::Number(1), MalType::Number(2)]);
    assert!(a.mal_equiv(&b));
    let c = MalType::L(ListKind::List, vec![MalType::Number(1)]);
    assert!(!a.mal_equiv(&c));
}
