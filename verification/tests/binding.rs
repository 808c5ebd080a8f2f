use fancyargs_core::bind::{bind, BindingError, InvokationArg, Resolved};
use fancyargs_core::schema::{ArgCaptured, ArgDefault, DeclaredType, Schema};

type Expr = &'static str;

fn req(name: &str) -> ArgCaptured<Expr> {
    ArgCaptured {
        pat: name.to_string(),
        vararg_token: false,
        optional_token: false,
        ty: DeclaredType::Other,
        default: None,
    }
}

fn def(name: &str, value: Expr) -> ArgCaptured<Expr> {
    ArgCaptured { default: Some(ArgDefault { value }), ..req(name) }
}

fn opt(name: &str) -> ArgCaptured<Expr> {
    ArgCaptured {
        optional_token: true,
        ty: DeclaredType::Path("Option".to_string()),
        ..req(name)
    }
}

fn var(name: &str) -> ArgCaptured<Expr> {
    ArgCaptured { vararg_token: true, ty: DeclaredType::Path("Vec".to_string()), ..req(name) }
}

fn schema(decls: Vec<ArgCaptured<Expr>>) -> Schema<Expr> {
    Schema::build(decls).unwrap()
}

fn arg(expr: Expr) -> InvokationArg<Expr> {
    InvokationArg { name: None, expr }
}

fn named(name: &str, expr: Expr) -> InvokationArg<Expr> {
    InvokationArg { name: Some(name.to_string()), expr }
}

/// One bound parameter as text: a value as it is, a wrapped one as
/// `Some(..)`, an absent one as `None`, a default behind `=`, a sequence in
/// square brackets.
fn show(bound: &Resolved<Expr>) -> String {
    match bound {
        Resolved::Given(v) => v.to_string(),
        Resolved::Wrapped(v) => format!("Some({})", v),
        Resolved::Absent => "None".to_string(),
        Resolved::Default(v) => format!("={}", v),
        Resolved::Sequence(vs) => {
            let items: Vec<String> = vs.iter().map(|v| v.to_string()).collect();
            format!("[{}]", items.join(","))
        }
    }
}

fn run(schema: &Schema<Expr>, args: Vec<InvokationArg<Expr>>) -> Result<String, BindingError> {
    let bound = bind(schema, &args)?;
    assert_eq!(bound.len(), schema.len());
    let shown: Vec<String> = bound.iter().map(show).collect();
    Ok(shown.join(" "))
}

fn ok(text: &str) -> Result<String, BindingError> {
    Ok(text.to_string())
}

fn three_fixed() -> Schema<Expr> {
    schema(vec![req("a"), def("b", "b"), def("d", "d")])
}

fn all_kinds() -> Schema<Expr> {
    schema(vec![req("a"), def("b", "b_default"), opt("c"), var("d")])
}

#[test]
fn required_and_defaults() {
    let s = three_fixed();
    assert_eq!(
        run(&s, vec![]),
        Err(BindingError::MissingRequiredArgument("a".to_string()))
    );
    assert_eq!(run(&s, vec![arg("a")]), ok("a =b =d"));
    assert_eq!(run(&s, vec![named("a", "a")]), ok("a =b =d"));
    assert_eq!(run(&s, vec![arg("a"), arg("b1")]), ok("a b1 =d"));
    assert_eq!(
        run(&s, vec![arg("a"), named("d", "d1"), named("b", "b1")]),
        ok("a b1 d1")
    );
    assert_eq!(
        run(&s, vec![named("d", "d1"), named("b", "b1"), named("a", "a1")]),
        ok("a1 b1 d1")
    );
}

#[test]
fn vararg_alone() {
    let s = schema(vec![var("items")]);
    assert_eq!(run(&s, vec![]), ok("[]"));
    assert_eq!(run(&s, vec![arg("true")]), ok("[true]"));
    assert_eq!(
        run(&s, vec![arg("true"), arg("false"), arg("true")]),
        ok("[true,false,true]")
    );
}

#[test]
fn every_kind_together() {
    let s = all_kinds();
    assert_eq!(
        run(&s, vec![arg("a"), arg("b1"), arg("c"), arg("d1"), arg("d2")]),
        ok("a b1 Some(c) [d1,d2]")
    );
    assert_eq!(
        run(
            &s,
            vec![named("a", "a"), named("b", "b1"), named("c", "c"), arg("d1"), arg("d2")]
        ),
        ok("a b1 Some(c) [d1,d2]")
    );
    assert_eq!(run(&s, vec![arg("a")]), ok("a =b_default None []"));
    assert_eq!(run(&s, vec![arg("a"), named("c", "c")]), ok("a =b_default Some(c) []"));
}

#[test]
fn bound_values_are_those_of_the_call_and_the_schema() {
    let s = all_kinds();
    let args = vec![arg("a"), named("c", "c"), arg("d1")];
    let bound = bind(&s, &args).unwrap();
    assert_eq!(
        bound,
        vec![
            Resolved::Given(&"a"),
            Resolved::Default(&"b_default"),
            Resolved::Wrapped(&"c"),
            Resolved::Sequence(vec![&"d1"]),
        ]
    );
    match &bound[0] {
        Resolved::Given(v) => assert!(std::ptr::eq(*v, &args[0].expr)),
        _ => panic!("the first parameter was given"),
    }
}

#[test]
fn positional_arguments_fill_the_fixed_parameters_in_order() {
    let s = all_kinds();
    assert_eq!(run(&s, vec![arg("x"), arg("y"), arg("z")]), ok("x y Some(z) []"));
    let t = three_fixed();
    assert_eq!(run(&t, vec![arg("1"), arg("2"), arg("3")]), ok("1 2 3"));
    let u = schema(vec![opt("o"), opt("p")]);
    assert_eq!(run(&u, vec![arg("1"), arg("2")]), ok("Some(1) Some(2)"));
}

#[test]
fn missing_required_names_the_first_one() {
    let s = schema(vec![req("a"), req("b"), req("c")]);
    assert_eq!(
        run(&s, vec![named("b", "1")]),
        Err(BindingError::MissingRequiredArgument("a".to_string()))
    );
    assert_eq!(
        run(&s, vec![arg("0"), named("c", "2")]),
        Err(BindingError::MissingRequiredArgument("b".to_string()))
    );
    assert_eq!(
        run(&s, vec![arg("0"), arg("1")]),
        Err(BindingError::MissingRequiredArgument("c".to_string()))
    );
    assert_eq!(run(&s, vec![named("c", "2"), named("a", "0"), named("b", "1")]), ok("0 1 2"));
}

#[test]
fn optional_is_absent_or_wrapped() {
    let s = schema(vec![req("a"), opt("o")]);
    assert_eq!(run(&s, vec![arg("1")]), ok("1 None"));
    assert_eq!(run(&s, vec![arg("1"), arg("2")]), ok("1 Some(2)"));
    assert_eq!(run(&s, vec![arg("1"), named("o", "2")]), ok("1 Some(2)"));
    assert_eq!(run(&s, vec![named("o", "2"), named("a", "1")]), ok("1 Some(2)"));
}

#[test]
fn default_is_kept_or_overridden() {
    let s = schema(vec![def("x", "10"), def("y", "20")]);
    assert_eq!(run(&s, vec![]), ok("=10 =20"));
    assert_eq!(run(&s, vec![arg("1")]), ok("1 =20"));
    assert_eq!(run(&s, vec![named("y", "2")]), ok("=10 2"));
    assert_eq!(run(&s, vec![arg("1"), named("y", "2")]), ok("1 2"));
    // a value equal to the default is still the call's own
    assert_eq!(run(&s, vec![arg("10")]), ok("10 =20"));
}

#[test]
fn vararg_collects_in_call_order() {
    let s = schema(vec![req("a"), def("b", "0"), var("rest")]);
    assert_eq!(run(&s, vec![arg("1"), arg("2")]), ok("1 2 []"));
    assert_eq!(run(&s, vec![arg("1"), arg("2"), arg("3"), arg("4")]), ok("1 2 [3,4]"));
    assert_eq!(run(&s, vec![arg("1"), named("b", "2"), arg("3"), arg("4")]), ok("1 2 [3,4]"));
    assert_eq!(run(&s, vec![named("a", "1"), arg("3"), arg("4")]), ok("1 =0 [3,4]"));
    assert_eq!(
        run(&s, vec![named("b", "2"), arg("3"), named("a", "1"), arg("4")]),
        ok("1 2 [3,4]")
    );
    assert_eq!(
        run(&s, vec![arg("1"), arg("2"), arg("3"), named("b", "9")]),
        Err(BindingError::DuplicateKeyword("b".to_string()))
    );
}

#[test]
fn unnamed_arguments_overflow_before_and_after_a_keyword() {
    let s = schema(vec![def("a", "0"), def("b", "0"), var("rest")]);
    assert_eq!(
        run(&s, vec![arg("1"), arg("2"), arg("3"), arg("4")]),
        ok("1 2 [3,4]")
    );
    // an unnamed argument behind a keyword overflows even where a fixed
    // parameter is still free
    assert_eq!(run(&s, vec![named("a", "1"), arg("2")]), ok("1 =0 [2]"));
    assert_eq!(run(&s, vec![arg("1"), named("b", "2"), arg("3")]), ok("1 2 [3]"));
}

#[test]
fn keyword_order_does_not_matter() {
    let s = all_kinds();
    let orders = vec![
        vec![named("a", "1"), named("b", "2"), named("c", "3")],
        vec![named("a", "1"), named("c", "3"), named("b", "2")],
        vec![named("b", "2"), named("a", "1"), named("c", "3")],
        vec![named("b", "2"), named("c", "3"), named("a", "1")],
        vec![named("c", "3"), named("a", "1"), named("b", "2")],
        vec![named("c", "3"), named("b", "2"), named("a", "1")],
    ];
    for order in orders {
        assert_eq!(run(&s, order), ok("1 2 Some(3) []"));
    }
    assert_eq!(
        run(&s, vec![arg("1"), named("c", "3"), arg("x"), named("b", "2"), arg("y")]),
        run(&s, vec![arg("1"), named("b", "2"), arg("x"), named("c", "3"), arg("y")])
    );
    assert_eq!(
        run(&s, vec![arg("1"), named("c", "3"), arg("x"), named("b", "2"), arg("y")]),
        ok("1 2 Some(3) [x,y]")
    );
}

#[test]
fn unknown_keyword() {
    let s = three_fixed();
    assert_eq!(
        run(&s, vec![arg("a"), named("c", "1")]),
        Err(BindingError::UnknownKeyword("c".to_string()))
    );
    assert_eq!(
        run(&s, vec![named("", "1")]),
        Err(BindingError::UnknownKeyword("".to_string()))
    );
    let empty = schema(vec![]);
    assert_eq!(
        run(&empty, vec![named("a", "1")]),
        Err(BindingError::UnknownKeyword("a".to_string()))
    );
}

#[test]
fn no_keyword_selects_the_vararg() {
    let s = all_kinds();
    assert_eq!(
        run(&s, vec![arg("a"), named("d", "vec![]")]),
        Err(BindingError::UnknownKeyword("d".to_string()))
    );
    let lone = schema(vec![var("items")]);
    assert_eq!(
        run(&lone, vec![named("items", "x")]),
        Err(BindingError::UnknownKeyword("items".to_string()))
    );
}

#[test]
fn duplicate_keyword() {
    let s = three_fixed();
    assert_eq!(
        run(&s, vec![named("a", "1"), named("a", "2")]),
        Err(BindingError::DuplicateKeyword("a".to_string()))
    );
    assert_eq!(
        run(&s, vec![named("a", "1"), named("b", "2"), named("a", "3")]),
        Err(BindingError::DuplicateKeyword("a".to_string()))
    );
    // a keyword for a parameter that an unnamed argument has supplied
    assert_eq!(
        run(&s, vec![arg("1"), named("a", "2")]),
        Err(BindingError::DuplicateKeyword("a".to_string()))
    );
    assert_eq!(
        run(&s, vec![arg("1"), arg("2"), named("b", "3")]),
        Err(BindingError::DuplicateKeyword("b".to_string()))
    );
}

#[test]
fn positional_after_keyword() {
    let s = three_fixed();
    assert_eq!(
        run(&s, vec![named("a", "1"), arg("2")]),
        Err(BindingError::PositionalAfterKeyword(1))
    );
    assert_eq!(
        run(&s, vec![arg("1"), named("b", "2"), named("d", "3"), arg("4"), arg("5")]),
        Err(BindingError::PositionalAfterKeyword(3))
    );
    // with a variadic parameter the same call binds
    let v = schema(vec![req("a"), var("rest")]);
    assert_eq!(run(&v, vec![named("a", "1"), arg("2")]), ok("1 [2]"));
}

#[test]
fn too_many_positional_arguments() {
    let s = three_fixed();
    assert_eq!(
        run(&s, vec![arg("1"), arg("2"), arg("3"), arg("4")]),
        Err(BindingError::TooManyPositionalArguments(3))
    );
    assert_eq!(
        run(&s, vec![arg("1"), arg("2"), arg("3"), arg("4"), arg("5")]),
        Err(BindingError::TooManyPositionalArguments(3))
    );
    let empty = schema(vec![]);
    assert_eq!(run(&empty, vec![arg("1")]), Err(BindingError::TooManyPositionalArguments(0)));
}

#[test]
fn the_empty_call_of_the_empty_schema() {
    let empty = schema(vec![]);
    assert_eq!(run(&empty, vec![]), ok(""));
    let bound = bind(&empty, &[]).unwrap();
    assert!(bound.is_empty());
}

#[test]
fn the_first_fault_in_call_order_decides() {
    let s = three_fixed();
    // an unknown keyword before the duplicate
    assert_eq!(
        run(&s, vec![named("a", "1"), named("zzz", "2"), named("a", "3")]),
        Err(BindingError::UnknownKeyword("zzz".to_string()))
    );
    // a duplicate before the unknown keyword
    assert_eq!(
        run(&s, vec![named("a", "1"), named("a", "3"), named("zzz", "2")]),
        Err(BindingError::DuplicateKeyword("a".to_string()))
    );
    // an argument at fault before a required parameter is missed
    assert_eq!(
        run(&s, vec![named("zzz", "1")]),
        Err(BindingError::UnknownKeyword("zzz".to_string()))
    );
    assert_eq!(
        run(&s, vec![named("b", "1"), arg("2")]),
        Err(BindingError::PositionalAfterKeyword(1))
    );
    assert_eq!(
        run(&s, vec![named("b", "1")]),
        Err(BindingError::MissingRequiredArgument("a".to_string()))
    );
}

#[test]
fn values_may_be_of_any_type() {
    let decls: Vec<ArgCaptured<Vec<u32>>> = vec![
        ArgCaptured {
            pat: "xs".to_string(),
            vararg_token: false,
            optional_token: false,
            ty: DeclaredType::Path("Vec".to_string()),
            default: Some(ArgDefault { value: vec![1, 2, 3] }),
        },
        ArgCaptured {
            pat: "ys".to_string(),
            vararg_token: false,
            optional_token: false,
            ty: DeclaredType::Path("Vec".to_string()),
            default: None,
        },
    ];
    let schema = Schema::build(decls).unwrap();
    let args = vec![InvokationArg { name: Some("ys".to_string()), expr: vec![4u32] }];
    let bound = bind(&schema, &args).unwrap();
    assert_eq!(bound, vec![Resolved::Default(&vec![1, 2, 3]), Resolved::Given(&vec![4])]);
}

/// The binder as one pass over the arguments with a table of slots, written
/// without regard to anything but plainness, to hold `bind` against.
fn one_pass(
    names: &[&str],
    kinds: &[char],
    args: &[InvokationArg<Expr>],
) -> Result<String, BindingError> {
    let n = names.len();
    let have_vararg = n > 0 && kinds[n - 1] == 'v';
    let mut slots: Vec<Option<String>> = vec![None; n];
    let mut tail: Vec<String> = Vec::new();
    let mut seen_named = false;
    for (i, a) in args.iter().enumerate() {
        let target = match &a.name {
            Some(name) => {
                let found = names.iter().position(|candidate| candidate == name);
                let k = match found {
                    Some(k) if kinds[k] != 'v' => k,
                    _ => return Err(BindingError::UnknownKeyword(name.clone())),
                };
                if slots[k].is_some() {
                    return Err(BindingError::DuplicateKeyword(name.clone()));
                }
                seen_named = true;
                k
            }
            None => {
                if seen_named {
                    if have_vararg {
                        tail.push(a.expr.to_string());
                        continue;
                    }
                    return Err(BindingError::PositionalAfterKeyword(i));
                } else if have_vararg && i >= n - 1 {
                    tail.push(a.expr.to_string());
                    continue;
                } else if i >= n {
                    return Err(BindingError::TooManyPositionalArguments(i));
                }
                i
            }
        };
        slots[target] = Some(if kinds[target] == 'o' {
            format!("Some({})", a.expr)
        } else {
            a.expr.to_string()
        });
    }
    let mut shown = Vec::new();
    for k in 0..n {
        shown.push(match (&slots[k], kinds[k]) {
            (Some(value), _) => value.clone(),
            (None, 'v') => format!("[{}]", tail.join(",")),
            (None, 'o') => "None".to_string(),
            (None, 'd') => format!("=D{}", k),
            _ => return Err(BindingError::MissingRequiredArgument(names[k].to_string())),
        });
    }
    Ok(shown.join(" "))
}

#[test]
fn binds_as_one_pass_with_a_table_of_slots_does() {
    const DEFAULTS: [Expr; 3] = ["D0", "D1", "D2"];
    const VALUES: [Expr; 4] = ["v0", "v1", "v2", "v3"];
    let names = ["a", "b", "c"];
    let labels: [Option<&str>; 5] = [None, Some("a"), Some("b"), Some("c"), Some("zzz")];
    let mut calls = 0;
    for n in 0..=3usize {
        // every choice of kinds for the fixed parameters, with and without a
        // variadic parameter at the end
        let fixed_kinds = ['r', 'o', 'd'];
        let shapes = 3usize.pow(n as u32);
        for shape in 0..shapes {
            for last_is_vararg in [false, true] {
                if last_is_vararg && n == 0 {
                    continue;
                }
                let mut kinds = Vec::new();
                let mut rest = shape;
                for _ in 0..n {
                    kinds.push(fixed_kinds[rest % 3]);
                    rest /= 3;
                }
                if last_is_vararg {
                    kinds[n - 1] = 'v';
                }
                let decls: Vec<ArgCaptured<Expr>> = (0..n)
                    .map(|k| match kinds[k] {
                        'r' => req(names[k]),
                        'o' => opt(names[k]),
                        'd' => def(names[k], DEFAULTS[k]),
                        _ => var(names[k]),
                    })
                    .collect();
                let s = schema(decls);
                for len in 0..=4usize {
                    for code in 0..labels.len().pow(len as u32) {
                        let mut args = Vec::new();
                        let mut rest = code;
                        for position in 0..len {
                            let label = labels[rest % labels.len()];
                            rest /= labels.len();
                            args.push(InvokationArg {
                                name: label.map(|name| name.to_string()),
                                expr: VALUES[position],
                            });
                        }
                        let expected = one_pass(&names[..n], &kinds, &args);
                        assert_eq!(run(&s, args), expected);
                        calls += 1;
                    }
                }
            }
        }
    }
    assert!(calls > 10_000);
}
