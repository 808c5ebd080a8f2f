//! How `bind_spec` is made up: when a call binds, which argument supplies
//! which parameter, and what goes to the variadic parameter.

use vstd::prelude::*;

use crate::bind::{
    argument_fault, bind_spec, fixed_count, keyword_before, keyword_target, lemma_supplier,
    overflows, resolve, slot_of, supplied_before, supplier, tail_values, BindingErrorView,
    InvokationArgView, ResolvedView,
};
use crate::least::{least, lemma_least, lemma_least_none};
use crate::schema::{lemma_position_of, schema_wf, ParameterSpecView};

verus! {

/// No argument is at fault.
pub open spec fn faultless<E>(
    schema: Seq<ParameterSpecView<E>>,
    args: Seq<InvokationArgView<E>>,
) -> bool {
    forall|i: int| 0 <= i < args.len() ==> argument_fault(schema, args, i) is None
}

/// Some argument supplies the parameter at `k`.
pub open spec fn supplied<E>(
    schema: Seq<ParameterSpecView<E>>,
    args: Seq<InvokationArgView<E>>,
    k: int,
) -> bool {
    supplied_before(schema, args, args.len() as int, k)
}

/// No keyword argument has the name of the parameter at `k`, and no unnamed
/// argument stands at its index ahead of every keyword: the call leaves the
/// parameter out.
pub open spec fn left_out<E>(
    schema: Seq<ParameterSpecView<E>>,
    args: Seq<InvokationArgView<E>>,
    k: int,
) -> bool {
    &&& forall|j: int| 0 <= j < args.len() ==> (#[trigger] args[j]).name != Some(schema[k].name)
    &&& !(k < args.len() && args[k].name is None && !keyword_before(args, k))
}

/// A binding succeeds exactly when no argument is at fault and every
/// parameter resolves, and then holds what each parameter resolves to. It
/// fails with the fault of the first argument that has one, and else with
/// the first parameter that does not resolve.
pub proof fn lemma_bind_spec<E>(schema: Seq<ParameterSpecView<E>>, args: Seq<InvokationArgView<E>>)
    ensures
        match bind_spec(schema, args) {
            Ok(bound) => {
                &&& faultless(schema, args)
                &&& bound.len() == schema.len()
                &&& forall|k: int|
                    0 <= k < schema.len() ==> #[trigger] resolve(schema, args, k) == Some(bound[k])
            },
            Err(e) => {
                ||| exists|i: int|
                    {
                        &&& 0 <= i < args.len()
                        &&& #[trigger] argument_fault(schema, args, i) == Some(e)
                        &&& forall|j: int|
                            0 <= j < i ==> #[trigger] argument_fault(schema, args, j) is None
                    }
                ||| {
                    &&& faultless(schema, args)
                    &&& exists|k: int|
                        {
                            &&& 0 <= k < schema.len()
                            &&& #[trigger] resolve(schema, args, k) is None
                            &&& e == BindingErrorView::MissingRequiredArgument(schema[k].name)
                            &&& forall|m: int|
                                0 <= m < k ==> #[trigger] resolve(schema, args, m) is Some
                        }
                }
            },
        },
{
    let faulty = |i: int| argument_fault(schema, args, i) is Some;
    let missing = |k: int| resolve(schema, args, k) is None;
    lemma_least(faulty, args.len() as int);
    lemma_least(missing, schema.len() as int);
    match least(faulty, args.len() as int) {
        Some(i) => {
            assert forall|j: int| 0 <= j < i implies #[trigger] argument_fault(schema, args, j)
                is None by {
                assert(!faulty(j));
            }
        },
        None => {
            assert forall|i: int| 0 <= i < args.len() implies argument_fault(schema, args, i)
                is None by {
                assert(!faulty(i));
            }
            match least(missing, schema.len() as int) {
                Some(k) => {
                    assert forall|m: int| 0 <= m < k implies #[trigger] resolve(schema, args, m)
                        is Some by {
                        assert(!missing(m));
                    }
                },
                None => {
                    let bound = bind_spec(schema, args)->Ok_0;
                    assert forall|k: int| 0 <= k < schema.len() implies #[trigger] resolve(
                        schema,
                        args,
                        k,
                    ) == Some(bound[k]) by {
                        assert(!missing(k));
                    }
                },
            }
        },
    }
}

/// A call in which no argument is at fault and every parameter resolves binds
/// to what the parameters resolve to.
pub proof fn lemma_binds<E>(
    schema: Seq<ParameterSpecView<E>>,
    args: Seq<InvokationArgView<E>>,
    bound: Seq<ResolvedView<E>>,
)
    requires
        faultless(schema, args),
        bound.len() == schema.len(),
        forall|k: int|
            0 <= k < schema.len() ==> #[trigger] resolve(schema, args, k) == Some(bound[k]),
    ensures
        bind_spec(schema, args) == Ok::<Seq<ResolvedView<E>>, BindingErrorView>(bound),
{
    lemma_least_none(|i: int| argument_fault(schema, args, i) is Some, args.len() as int);
    lemma_least_none(|k: int| resolve(schema, args, k) is None, schema.len() as int);
    assert(bind_spec(schema, args)->Ok_0 =~= bound);
}

/// No two arguments that are not at fault supply the same parameter: the
/// later of them would be a keyword for a parameter that is supplied, or an
/// unnamed argument at an index that an earlier one has.
pub proof fn lemma_one_supplier<E>(
    schema: Seq<ParameterSpecView<E>>,
    args: Seq<InvokationArgView<E>>,
    i: int,
    j: int,
    k: int,
)
    requires
        0 <= i < args.len(),
        0 <= j < args.len(),
        argument_fault(schema, args, i) is None,
        argument_fault(schema, args, j) is None,
        slot_of(schema, args, i) == Some(k),
        slot_of(schema, args, j) == Some(k),
    ensures
        i == j,
{
}

/// Where no argument is at fault, an argument that supplies a parameter is
/// its supplier.
pub proof fn lemma_supplier_is<E>(
    schema: Seq<ParameterSpecView<E>>,
    args: Seq<InvokationArgView<E>>,
    j: int,
    k: int,
)
    requires
        faultless(schema, args),
        0 <= j < args.len(),
        slot_of(schema, args, j) == Some(k),
    ensures
        supplier(schema, args, k) == Some(j),
{
    lemma_supplier(schema, args, k);
    if supplier(schema, args, k) is Some {
        lemma_one_supplier(schema, args, supplier(schema, args, k)->Some_0, j, k);
    }
}

/// In a well-formed schema a keyword selects the parameter of its name,
/// unless that parameter is variadic.
pub proof fn lemma_keyword_selects<E>(schema: Seq<ParameterSpecView<E>>, k: int)
    requires
        schema_wf(schema),
        0 <= k < schema.len(),
    ensures
        keyword_target(schema, schema[k].name) == if schema[k].kind is Vararg {
            None
        } else {
            Some(k)
        },
{
    lemma_position_of(schema, schema[k].name);
}

/// A keyword argument supplies the parameter of its name, unless that
/// parameter is variadic.
pub proof fn lemma_supplied_by_keyword<E>(
    schema: Seq<ParameterSpecView<E>>,
    args: Seq<InvokationArgView<E>>,
    j: int,
    k: int,
)
    requires
        schema_wf(schema),
        0 <= k < schema.len(),
        !(schema[k].kind is Vararg),
        0 <= j < args.len(),
        args[j].name == Some(schema[k].name),
    ensures
        slot_of(schema, args, j) == Some(k),
        supplied(schema, args, k),
{
    lemma_keyword_selects(schema, k);
}

/// An unnamed argument that no keyword precedes supplies the parameter at its
/// own index, unless that parameter is variadic.
pub proof fn lemma_supplied_by_position<E>(
    schema: Seq<ParameterSpecView<E>>,
    args: Seq<InvokationArgView<E>>,
    j: int,
)
    requires
        0 <= j < args.len(),
        j < schema.len(),
        !(schema[j].kind is Vararg),
        args[j].name is None,
        !keyword_before(args, j),
    ensures
        slot_of(schema, args, j) == Some(j),
        supplied(schema, args, j),
{
}

/// A call leaves a fixed parameter out exactly when none of its arguments
/// supplies the parameter.
pub proof fn lemma_left_out<E>(
    schema: Seq<ParameterSpecView<E>>,
    args: Seq<InvokationArgView<E>>,
    k: int,
)
    requires
        schema_wf(schema),
        0 <= k < schema.len(),
        !(schema[k].kind is Vararg),
    ensures
        left_out(schema, args, k) <==> !supplied(schema, args, k),
{
    if supplied(schema, args, k) {
        let j = choose|j: int|
            0 <= j < args.len() && #[trigger] slot_of(schema, args, j) == Some(k);
        if args[j].name is Some {
            lemma_position_of(schema, args[j].name->Some_0);
        }
    }
    if !left_out(schema, args, k) {
        if k < args.len() && args[k].name is None && !keyword_before(args, k) {
            lemma_supplied_by_position(schema, args, k);
        } else {
            let j = choose|j: int|
                0 <= j < args.len() && (#[trigger] args[j]).name == Some(schema[k].name);
            lemma_supplied_by_keyword(schema, args, j, k);
        }
    }
}

/// Whatever argument supplies a parameter, the parameter is one of the fixed
/// parameters of the schema.
pub proof fn lemma_slot_is_fixed<E>(
    schema: Seq<ParameterSpecView<E>>,
    args: Seq<InvokationArgView<E>>,
    j: int,
    k: int,
)
    requires
        schema_wf(schema),
        0 <= j,
        slot_of(schema, args, j) == Some(k),
    ensures
        0 <= k < fixed_count(schema),
        !(schema[k].kind is Vararg),
{
    if args[j].name is Some {
        lemma_position_of(schema, args[j].name->Some_0);
    }
}

/// Where none of the first `n` arguments goes to the variadic parameter, it
/// has collected nothing from them.
pub proof fn lemma_tail_values_empty<E>(
    schema: Seq<ParameterSpecView<E>>,
    args: Seq<InvokationArgView<E>>,
    n: int,
)
    requires
        forall|j: int| 0 <= j < n ==> !#[trigger] overflows(schema, args, j),
    ensures
        tail_values(schema, args, n) == Seq::<E>::empty(),
    decreases n,
{
    if n > 0 {
        lemma_tail_values_empty(schema, args, n - 1);
    }
}

/// Where each argument from `m` up to `n` goes to the variadic parameter,
/// their values follow, in call order, on what was collected before `m`.
pub proof fn lemma_tail_values_run<E>(
    schema: Seq<ParameterSpecView<E>>,
    args: Seq<InvokationArgView<E>>,
    m: int,
    n: int,
)
    requires
        0 <= m <= n,
        forall|j: int| m <= j < n ==> #[trigger] overflows(schema, args, j),
    ensures
        tail_values(schema, args, n) == tail_values(schema, args, m) + Seq::new(
            (n - m) as nat,
            |t: int| args[m + t].value,
        ),
    decreases n - m,
{
    let run = Seq::new((n - m) as nat, |t: int| args[m + t].value);
    if m < n {
        lemma_tail_values_run(schema, args, m, n - 1);
        let shorter = Seq::new((n - 1 - m) as nat, |t: int| args[m + t].value);
        assert(tail_values(schema, args, m) + run =~= (tail_values(schema, args, m)
            + shorter).push(args[n - 1].value));
    }
}

} // verus!
