//! Binding the arguments of one call to the parameters of a schema.

use vstd::prelude::*;

use crate::least::{least, lemma_least, lemma_least_is, lemma_least_none};
use crate::schema::{
    arg_pos_by_name, lemma_position_of, parameter_views, position_of, schema_wf, Kind,
    ParameterSpecView, Schema,
};

verus! {

/// One argument of a call: a value, and the name of the parameter it is meant
/// for where the call gives one. The value is of any type `E`; the binder
/// never looks into it.
#[derive(Debug, Clone, PartialEq, Eq)]
pub struct InvokationArg<E> {
    /// The keyword, for an argument written `name = value`.
    pub name: Option<String>,
    pub expr: E,
}

/// An argument with its keyword as a sequence of characters.
pub struct InvokationArgView<E> {
    pub name: Option<Seq<char>>,
    pub value: E,
}

impl<E> View for InvokationArg<E> {
    type V = InvokationArgView<E>;

    open spec fn view(&self) -> InvokationArgView<E> {
        InvokationArgView {
            name: match self.name {
                Some(name) => Some(name@),
                None => None,
            },
            value: self.expr,
        }
    }
}

/// The views of a run of arguments.
pub open spec fn argument_views<E>(args: Seq<InvokationArg<E>>) -> Seq<InvokationArgView<E>> {
    Seq::new(args.len(), |i: int| args[i]@)
}

/// What one parameter is bound to. The values are those of the call and of
/// the schema, untouched.
#[derive(Debug, Clone, PartialEq, Eq)]
pub enum Resolved<'a, E> {
    /// The value that the call gave.
    Given(&'a E),
    /// The value that the call gave for an optional parameter, to be wrapped
    /// as present.
    Wrapped(&'a E),
    /// The absent value of an optional parameter that the call left out.
    Absent,
    /// The default of a parameter that the call left out.
    Default(&'a E),
    /// The values that a variadic parameter collects, in call order.
    Sequence(Vec<&'a E>),
}

/// What one parameter is bound to, by the values themselves.
pub enum ResolvedView<E> {
    Given(E),
    Wrapped(E),
    Absent,
    Default(E),
    Sequence(Seq<E>),
}

/// The values that a run of references points to.
pub open spec fn pointees<E>(refs: Seq<&E>) -> Seq<E> {
    Seq::new(refs.len(), |i: int| *refs[i])
}

impl<'a, E> View for Resolved<'a, E> {
    type V = ResolvedView<E>;

    open spec fn view(&self) -> ResolvedView<E> {
        match self {
            Resolved::Given(value) => ResolvedView::Given(**value),
            Resolved::Wrapped(value) => ResolvedView::Wrapped(**value),
            Resolved::Absent => ResolvedView::Absent,
            Resolved::Default(value) => ResolvedView::Default(**value),
            Resolved::Sequence(values) => ResolvedView::Sequence(pointees(values@)),
        }
    }
}

/// The views of a run of bound parameters.
pub open spec fn resolved_views<E>(bound: Seq<Resolved<E>>) -> Seq<ResolvedView<E>> {
    Seq::new(bound.len(), |k: int| bound[k]@)
}

/// What a call is bound to: one entry for each parameter, in schema order.
pub type BindingResult<'a, E> = Vec<Resolved<'a, E>>;

/// Why a call cannot be bound.
#[derive(Debug, Clone, PartialEq, Eq)]
pub enum BindingError {
    /// A keyword that selects no parameter: none has the name, or the one
    /// that has it is variadic.
    UnknownKeyword(String),
    /// A keyword for a parameter that an earlier argument has supplied.
    DuplicateKeyword(String),
    /// The index of an unnamed argument that follows a keyword, where no
    /// variadic parameter takes it.
    PositionalAfterKeyword(usize),
    /// The index of an unnamed argument for which no parameter is left.
    TooManyPositionalArguments(usize),
    /// The name of a required parameter that no argument supplies.
    MissingRequiredArgument(String),
}

/// A binding error with its name as a sequence of characters.
pub enum BindingErrorView {
    UnknownKeyword(Seq<char>),
    DuplicateKeyword(Seq<char>),
    PositionalAfterKeyword(nat),
    TooManyPositionalArguments(nat),
    MissingRequiredArgument(Seq<char>),
}

impl View for BindingError {
    type V = BindingErrorView;

    open spec fn view(&self) -> BindingErrorView {
        match self {
            BindingError::UnknownKeyword(name) => BindingErrorView::UnknownKeyword(name@),
            BindingError::DuplicateKeyword(name) => BindingErrorView::DuplicateKeyword(name@),
            BindingError::PositionalAfterKeyword(index) => {
                BindingErrorView::PositionalAfterKeyword(*index as nat)
            },
            BindingError::TooManyPositionalArguments(index) => {
                BindingErrorView::TooManyPositionalArguments(*index as nat)
            },
            BindingError::MissingRequiredArgument(name) => {
                BindingErrorView::MissingRequiredArgument(name@)
            },
        }
    }
}

/// The last parameter is variadic.
pub open spec fn has_vararg<E>(schema: Seq<ParameterSpecView<E>>) -> bool {
    schema.len() > 0 && schema.last().kind is Vararg
}

/// The number of parameters that unnamed arguments fill one by one: all but
/// the variadic one.
pub open spec fn fixed_count<E>(schema: Seq<ParameterSpecView<E>>) -> int {
    if has_vararg(schema) {
        schema.len() - 1
    } else {
        schema.len() as int
    }
}

/// A keyword argument stands before the argument at `i`.
pub open spec fn keyword_before<E>(args: Seq<InvokationArgView<E>>, i: int) -> bool {
    exists|j: int| 0 <= j < i && (#[trigger] args[j]).name is Some
}

/// The parameter that the keyword `name` selects: the first of that name. A
/// variadic parameter is filled by the unnamed tail only, so no keyword
/// selects it.
pub open spec fn keyword_target<E>(schema: Seq<ParameterSpecView<E>>, name: Seq<char>) -> Option<
    int,
> {
    match position_of(schema, name) {
        Some(k) => if schema[k].kind is Vararg {
            None
        } else {
            Some(k)
        },
        None => None,
    }
}

/// The parameter that the argument at `j` supplies, if it supplies one: a
/// keyword argument the one it selects, an unnamed argument the one at its
/// own index, as long as no keyword came before and a fixed parameter stands
/// there.
pub open spec fn slot_of<E>(
    schema: Seq<ParameterSpecView<E>>,
    args: Seq<InvokationArgView<E>>,
    j: int,
) -> Option<int> {
    match args[j].name {
        Some(name) => keyword_target(schema, name),
        None => if !keyword_before(args, j) && j < fixed_count(schema) {
            Some(j)
        } else {
            None
        },
    }
}

/// The unnamed argument at `j` goes to the variadic parameter: it follows a
/// keyword, or it stands at or behind the variadic parameter's own index.
pub open spec fn overflows<E>(
    schema: Seq<ParameterSpecView<E>>,
    args: Seq<InvokationArgView<E>>,
    j: int,
) -> bool {
    &&& args[j].name is None
    &&& has_vararg(schema)
    &&& (keyword_before(args, j) || j >= schema.len() - 1)
}

/// An argument before the one at `i` supplies the parameter at `k`.
pub open spec fn supplied_before<E>(
    schema: Seq<ParameterSpecView<E>>,
    args: Seq<InvokationArgView<E>>,
    i: int,
    k: int,
) -> bool {
    exists|j: int| 0 <= j < i && #[trigger] slot_of(schema, args, j) == Some(k)
}

/// What is wrong with the argument at `i`, given those before it, if anything.
pub open spec fn argument_fault<E>(
    schema: Seq<ParameterSpecView<E>>,
    args: Seq<InvokationArgView<E>>,
    i: int,
) -> Option<BindingErrorView> {
    match args[i].name {
        Some(name) => match keyword_target(schema, name) {
            None => Some(BindingErrorView::UnknownKeyword(name)),
            Some(k) => if supplied_before(schema, args, i, k) {
                Some(BindingErrorView::DuplicateKeyword(name))
            } else {
                None
            },
        },
        None => if keyword_before(args, i) {
            if has_vararg(schema) {
                None
            } else {
                Some(BindingErrorView::PositionalAfterKeyword(i as nat))
            }
        } else if has_vararg(schema) && i >= schema.len() - 1 {
            None
        } else if i >= schema.len() {
            Some(BindingErrorView::TooManyPositionalArguments(i as nat))
        } else {
            None
        },
    }
}

/// The first argument that supplies the parameter at `k`, if any does.
pub open spec fn supplier<E>(
    schema: Seq<ParameterSpecView<E>>,
    args: Seq<InvokationArgView<E>>,
    k: int,
) -> Option<int> {
    least(|j: int| slot_of(schema, args, j) == Some(k), args.len() as int)
}

/// The values of the first `n` arguments that go to the variadic parameter,
/// in call order.
pub open spec fn tail_values<E>(
    schema: Seq<ParameterSpecView<E>>,
    args: Seq<InvokationArgView<E>>,
    n: int,
) -> Seq<E>
    decreases n,
{
    if n <= 0 {
        Seq::empty()
    } else if overflows(schema, args, n - 1) {
        tail_values(schema, args, n - 1).push(args[n - 1].value)
    } else {
        tail_values(schema, args, n - 1)
    }
}

/// What the parameter at `k` is bound to, or `None` where it is required and
/// no argument supplies it.
pub open spec fn resolve<E>(
    schema: Seq<ParameterSpecView<E>>,
    args: Seq<InvokationArgView<E>>,
    k: int,
) -> Option<ResolvedView<E>> {
    match supplier(schema, args, k) {
        Some(j) => if schema[k].kind is Optional {
            Some(ResolvedView::Wrapped(args[j].value))
        } else {
            Some(ResolvedView::Given(args[j].value))
        },
        None => match schema[k].kind {
            Kind::Vararg => Some(
                ResolvedView::Sequence(tail_values(schema, args, args.len() as int)),
            ),
            Kind::Optional => Some(ResolvedView::Absent),
            Kind::Defaulted(value) => Some(ResolvedView::Default(value)),
            Kind::Required => None,
        },
    }
}

/// The binding of `args` to `schema`: the fault of the first argument that
/// has one; else the name of the first required parameter that is left
/// without a value; else what each parameter is bound to, in schema order.
pub open spec fn bind_spec<E>(
    schema: Seq<ParameterSpecView<E>>,
    args: Seq<InvokationArgView<E>>,
) -> Result<Seq<ResolvedView<E>>, BindingErrorView> {
    match least(|i: int| argument_fault(schema, args, i) is Some, args.len() as int) {
        Some(i) => Err(argument_fault(schema, args, i).unwrap()),
        None => match least(|k: int| resolve(schema, args, k) is None, schema.len() as int) {
            Some(k) => Err(BindingErrorView::MissingRequiredArgument(schema[k].name)),
            None => Ok(Seq::new(schema.len(), |k: int| resolve(schema, args, k).unwrap())),
        },
    }
}

/// What the binder holds after the first `i` arguments, none of them at
/// fault: for each parameter the value that was supplied for it, the values
/// that went to the variadic parameter, and whether a keyword was seen.
spec fn scanned<E>(
    schema: Seq<ParameterSpecView<E>>,
    args: Seq<InvokationArgView<E>>,
    i: int,
    slots: Seq<Option<&E>>,
    tail: Seq<&E>,
    seen_named: bool,
) -> bool {
    &&& slots.len() == schema.len()
    &&& seen_named == keyword_before(args, i)
    &&& forall|k: int|
        0 <= k < schema.len() ==> ((#[trigger] slots[k]) is Some <==> supplied_before(
            schema,
            args,
            i,
            k,
        ))
    &&& forall|j: int, k: int|
        0 <= j < i && #[trigger] slot_of(schema, args, j) == Some(k) ==> 0 <= k < schema.len()
            && (#[trigger] slots[k]) == Some(&args[j].value)
    &&& pointees(tail) == tail_values(schema, args, i)
}

/// Binds the arguments of one call to the parameters of `schema`.
///
/// The arguments are taken in call order. A keyword argument supplies the
/// parameter of its name; an unnamed one supplies the parameter at its own
/// index, until a keyword has been seen or the variadic parameter is reached,
/// from where on unnamed arguments are collected for the variadic parameter.
/// A keyword cannot select the variadic parameter. The first argument that
/// cannot be placed decides the error. Parameters left without a value then
/// take what their kind provides, and the first required one among them
/// decides the error.
pub fn bind<'a, E>(schema: &'a Schema<E>, args: &'a [InvokationArg<E>]) -> (r: Result<
    BindingResult<'a, E>,
    BindingError,
>)
    ensures
        r matches Ok(bound) ==> bound@.len() == schema@.len(),
        match r {
            Ok(bound) => bind_spec(schema@, argument_views(args@)) == Ok::<
                Seq<ResolvedView<E>>,
                BindingErrorView,
            >(resolved_views(bound@)),
            Err(e) => bind_spec(schema@, argument_views(args@)) == Err::<
                Seq<ResolvedView<E>>,
                BindingErrorView,
            >(e@),
        },
{
    let params = schema.params();
    let ghost sv = schema@;
    let ghost av = argument_views(args@);
    let ghost faulty = |i: int| argument_fault(sv, av, i) is Some;
    let n = params.len();
    let have_vararg = n > 0 && match &params[n - 1].kind {
        Kind::Vararg => true,
        _ => false,
    };
    let fixed = if have_vararg {
        n - 1
    } else {
        n
    };

    let mut slots: Vec<Option<&'a E>> = Vec::new();
    while slots.len() < n
        invariant
            slots@.len() <= n,
            forall|k: int| 0 <= k < slots@.len() ==> (#[trigger] slots@[k]) is None,
        decreases n - slots@.len(),
    {
        slots.push(None);
    }
    let mut tail: Vec<&'a E> = Vec::new();
    let mut seen_named = false;

    assert(scanned(sv, av, 0, slots@, tail@, seen_named)) by {
        assert(pointees(tail@) =~= tail_values(sv, av, 0));
    }

    let mut i: usize = 0;
    while i < args.len()
        invariant
            i <= args.len(),
            n == sv.len(),
            sv == parameter_views(params@),
            sv == schema@,
            schema_wf(sv),
            av == argument_views(args@),
            faulty == |i: int| argument_fault(sv, av, i) is Some,
            have_vararg == has_vararg(sv),
            fixed == fixed_count(sv),
            forall|j: int| 0 <= j < i ==> !#[trigger] faulty(j),
            scanned(sv, av, i as int, slots@, tail@, seen_named),
        decreases args.len() - i,
    {
        let arg = &args[i];
        proof {
            lemma_scan_step(sv, av, i as int);
        }
        match &arg.name {
            Some(name) => {
                proof {
                    lemma_position_of(sv, name@);
                }
                match arg_pos_by_name(params, name.as_str()) {
                    None => {
                        proof {
                            lemma_least_is(faulty, av.len() as int, i as int);
                        }
                        return Err(BindingError::UnknownKeyword(name.clone()));
                    },
                    Some((k, param)) => {
                        match &param.kind {
                            Kind::Vararg => {
                                proof {
                                    lemma_least_is(faulty, av.len() as int, i as int);
                                }
                                return Err(BindingError::UnknownKeyword(name.clone()));
                            },
                            _ => {},
                        }
                        if slots[k].is_some() {
                            proof {
                                lemma_least_is(faulty, av.len() as int, i as int);
                            }
                            return Err(BindingError::DuplicateKeyword(name.clone()));
                        }
                        seen_named = true;
                        slots.set(k, Some(&arg.expr));
                    },
                }
            },
            None => {
                if seen_named {
                    if have_vararg {
                        tail.push(&arg.expr);
                        proof {
                            assert(pointees(tail@) =~= tail_values(sv, av, i + 1));
                        }
                    } else {
                        proof {
                            lemma_least_is(faulty, av.len() as int, i as int);
                        }
                        return Err(BindingError::PositionalAfterKeyword(i));
                    }
                } else if have_vararg && i >= n - 1 {
                    tail.push(&arg.expr);
                    proof {
                        assert(pointees(tail@) =~= tail_values(sv, av, i + 1));
                    }
                } else if i >= n {
                    proof {
                        lemma_least_is(faulty, av.len() as int, i as int);
                    }
                    return Err(BindingError::TooManyPositionalArguments(i));
                } else {
                    slots.set(i, Some(&arg.expr));
                }
            },
        }
        i += 1;
    }

    proof {
        lemma_least_none(faulty, av.len() as int);
    }
    let ghost missing = |k: int| resolve(sv, av, k) is None;
    let mut bound: BindingResult<'a, E> = Vec::new();
    let mut k: usize = 0;
    while k < fixed
        invariant
            k <= fixed <= n,
            n == sv.len(),
            sv == parameter_views(params@),
            sv == schema@,
            schema_wf(sv),
            av == argument_views(args@),
            have_vararg == has_vararg(sv),
            fixed == fixed_count(sv),
            missing == |k: int| resolve(sv, av, k) is None,
            least(|i: int| argument_fault(sv, av, i) is Some, av.len() as int) is None,
            scanned(sv, av, av.len() as int, slots@, tail@, seen_named),
            bound@.len() == k,
            forall|m: int| 0 <= m < k ==> !#[trigger] missing(m),
            forall|m: int| 0 <= m < k ==> resolve(sv, av, m) == Some((#[trigger] bound@[m])@),
        decreases fixed - k,
    {
        let param = &params[k];
        proof {
            lemma_supplier(sv, av, k as int);
        }
        let value = match slots[k] {
            Some(v) => match &param.kind {
                Kind::Optional => Resolved::Wrapped(v),
                _ => Resolved::Given(v),
            },
            None => match &param.kind {
                Kind::Optional => Resolved::Absent,
                Kind::Defaulted(d) => Resolved::Default(d),
                Kind::Required => {
                    proof {
                        lemma_least_is(missing, n as int, k as int);
                    }
                    return Err(BindingError::MissingRequiredArgument(param.name.clone()));
                },
                // only the last parameter of a schema is variadic, and `k`
                // stands before it
                Kind::Vararg => unreached(),
            },
        };
        bound.push(value);
        k += 1;
    }
    if have_vararg {
        proof {
            lemma_supplier(sv, av, fixed as int);
        }
        bound.push(Resolved::Sequence(tail));
    }
    proof {
        lemma_least_none(missing, n as int);
        assert(resolved_views(bound@) =~= Seq::new(
            sv.len(),
            |k: int| resolve(sv, av, k).unwrap(),
        ));
    }
    Ok(bound)
}

/// How the binder's view of the arguments grows by the one at `i`.
proof fn lemma_scan_step<E>(
    schema: Seq<ParameterSpecView<E>>,
    args: Seq<InvokationArgView<E>>,
    i: int,
)
    requires
        0 <= i < args.len(),
    ensures
        keyword_before(args, i + 1) == (keyword_before(args, i) || args[i].name is Some),
        forall|k: int| #[trigger]
            supplied_before(schema, args, i + 1, k) == (supplied_before(schema, args, i, k)
                || slot_of(schema, args, i) == Some(k)),
{
    if keyword_before(args, i + 1) {
        let j = choose|j: int| 0 <= j < i + 1 && (#[trigger] args[j]).name is Some;
        assert(j < i ==> keyword_before(args, i));
    }
    assert forall|k: int| #[trigger]
        supplied_before(schema, args, i + 1, k) == (supplied_before(schema, args, i, k) || slot_of(
            schema,
            args,
            i,
        ) == Some(k)) by {
        if supplied_before(schema, args, i + 1, k) {
            let j = choose|j: int| 0 <= j < i + 1 && #[trigger] slot_of(schema, args, j) == Some(k);
            assert(j < i ==> supplied_before(schema, args, i, k));
        }
    }
}

/// The first supplier of a parameter is an argument that supplies it, and
/// there is one exactly when some argument supplies the parameter.
pub proof fn lemma_supplier<E>(
    schema: Seq<ParameterSpecView<E>>,
    args: Seq<InvokationArgView<E>>,
    k: int,
)
    ensures
        match supplier(schema, args, k) {
            Some(j) => 0 <= j < args.len() && slot_of(schema, args, j) == Some(k),
            None => !supplied_before(schema, args, args.len() as int, k),
        },
        supplier(schema, args, k) is Some ==> supplied_before(schema, args, args.len() as int, k),
{
    let p = |j: int| slot_of(schema, args, j) == Some(k);
    lemma_least(p, args.len() as int);
    if supplied_before(schema, args, args.len() as int, k) {
        let j = choose|j: int|
            0 <= j < args.len() && #[trigger] slot_of(schema, args, j) == Some(k);
        assert(p(j));
    }
}

} // verus!
