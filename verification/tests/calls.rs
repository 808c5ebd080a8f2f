use fancyargs_core::bind::{bind, InvokationArg, Resolved};
use fancyargs_core::schema::{ArgCaptured, ArgDefault, DeclaredType, Schema};

fn kw1(a: &str, b: &str, d: &str) -> String {
    format!("{}{}{}", a, b, d)
}

fn varargs1(items: Vec<bool>) -> Vec<bool> {
    items
}

fn opt1(a: Option<bool>) -> bool {
    a.unwrap_or(false)
}

fn full1(a: &str, b: &str, c: Option<&str>, d: Vec<&str>) -> String {
    format!("{}{}{}{}", a, b, c.unwrap_or(""), d.join(""))
}

fn path(head: &str) -> DeclaredType {
    DeclaredType::Path(head.to_string())
}

fn plain<E>(name: &str, ty: DeclaredType) -> ArgCaptured<E> {
    ArgCaptured {
        pat: name.to_string(),
        vararg_token: false,
        optional_token: false,
        ty,
        default: None,
    }
}

fn defaulted<E>(name: &str, ty: DeclaredType, value: E) -> ArgCaptured<E> {
    ArgCaptured { default: Some(ArgDefault { value }), ..plain(name, ty) }
}

fn optional<E>(name: &str, ty: DeclaredType) -> ArgCaptured<E> {
    ArgCaptured { optional_token: true, ..plain(name, ty) }
}

fn vararg<E>(name: &str, ty: DeclaredType) -> ArgCaptured<E> {
    ArgCaptured { vararg_token: true, ..plain(name, ty) }
}

fn pos<E>(expr: E) -> InvokationArg<E> {
    InvokationArg { name: None, expr }
}

fn kw<E>(name: &str, expr: E) -> InvokationArg<E> {
    InvokationArg { name: Some(name.to_string()), expr }
}

fn value<E: Copy>(bound: &Resolved<E>) -> E {
    match bound {
        Resolved::Given(v) | Resolved::Default(v) => **v,
        _ => panic!("the parameter has no plain value"),
    }
}

fn wrapped<E: Copy>(bound: &Resolved<E>) -> Option<E> {
    match bound {
        Resolved::Wrapped(v) => Some(**v),
        Resolved::Absent => None,
        _ => panic!("the parameter is not optional"),
    }
}

fn collected<E: Copy>(bound: &Resolved<E>) -> Vec<E> {
    match bound {
        Resolved::Sequence(vs) => vs.iter().map(|v| **v).collect(),
        _ => panic!("the parameter is not variadic"),
    }
}

fn call_kw1(args: Vec<InvokationArg<&'static str>>) -> String {
    let schema = Schema::build(vec![
        plain("a", DeclaredType::Other),
        defaulted("b", DeclaredType::Other, "b"),
        defaulted("d", DeclaredType::Other, "d"),
    ])
    .unwrap();
    let bound = bind(&schema, &args).unwrap();
    assert_eq!(bound.len(), 3);
    kw1(value(&bound[0]), value(&bound[1]), value(&bound[2]))
}

fn call_varargs1(args: Vec<InvokationArg<bool>>) -> Vec<bool> {
    let schema = Schema::build(vec![vararg("items", path("Vec"))]).unwrap();
    let bound = bind(&schema, &args).unwrap();
    assert_eq!(bound.len(), 1);
    varargs1(collected(&bound[0]))
}

fn call_opt1(args: Vec<InvokationArg<bool>>) -> bool {
    let schema = Schema::build(vec![optional("a", path("Option"))]).unwrap();
    let bound = bind(&schema, &args).unwrap();
    assert_eq!(bound.len(), 1);
    opt1(wrapped(&bound[0]))
}

fn call_full1(args: Vec<InvokationArg<&'static str>>) -> String {
    let schema = Schema::build(vec![
        plain("a", DeclaredType::Other),
        defaulted("b", DeclaredType::Other, "b_default"),
        optional("c", path("Option")),
        vararg("d", path("Vec")),
    ])
    .unwrap();
    let bound = bind(&schema, &args).unwrap();
    assert_eq!(bound.len(), 4);
    full1(value(&bound[0]), value(&bound[1]), wrapped(&bound[2]), collected(&bound[3]))
}

#[test]
fn test_full1() {
    assert_eq!(
        call_full1(vec![pos("a"), pos("b1"), pos("c"), pos("d1"), pos("d2")]),
        "ab1cd1d2".to_string()
    );
    assert_eq!(
        call_full1(vec![kw("a", "a"), kw("b", "b1"), kw("c", "c"), pos("d1"), pos("d2")]),
        "ab1cd1d2".to_string()
    );
    assert_eq!(call_full1(vec![pos("a")]), "ab_default".to_string());
    assert_eq!(call_full1(vec![pos("a"), kw("b", "b1")]), "ab1".to_string());
    assert_eq!(call_full1(vec![pos("a"), kw("c", "c")]), "ab_defaultc".to_string());
    assert_eq!(
        call_full1(vec![pos("a"), kw("c", "c"), pos("d1"), pos("d2")]),
        "ab_defaultcd1d2".to_string()
    );
}

#[test]
fn test_kw1() {
    assert_eq!(kw1("a", "b", "c"), "abc");
    assert_eq!(call_kw1(vec![pos("a")]), "abd");
    assert_eq!(call_kw1(vec![kw("a", "a")]), "abd");
    assert_eq!(call_kw1(vec![pos("a"), pos("b1")]), "ab1d");
    assert_eq!(call_kw1(vec![pos("a"), kw("d", "d1"), kw("b", "b1")]), "ab1d1");
    assert_eq!(call_kw1(vec![kw("d", "d1"), kw("b", "b1"), kw("a", "a1")]), "a1b1d1");
}

#[test]
fn test_varargs1() {
    assert_eq!(call_varargs1(vec![]), vec![]);
    assert_eq!(call_varargs1(vec![pos(true)]), vec![true]);
    assert_eq!(
        call_varargs1(vec![pos(true), pos(false), pos(true)]),
        vec![true, false, true]
    );
}

#[test]
fn test_opt1() {
    assert_eq!(call_opt1(vec![]), false);
    assert_eq!(call_opt1(vec![pos(false)]), false);
    assert_eq!(call_opt1(vec![pos(true)]), true);
}

#[test]
fn test_nested() {
    assert_eq!(call_kw1(vec![pos("a")]), "abd");
}
