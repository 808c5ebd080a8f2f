//! What holds of every schema and of every binding.
//!
//! Each law is proved from the definitions of `build_spec` and `bind_spec`,
//! which the contracts of `Schema::build` and `bind` are stated over.

use vstd::prelude::*;

use crate::bind::{
    argument_fault, bind_spec, fixed_count, has_vararg, keyword_before, keyword_target,
    lemma_supplier, overflows, resolve, slot_of, supplied_before, supplier, tail_values,
    BindingErrorView, InvokationArgView, ResolvedView,
};
use crate::least::{least, lemma_least, lemma_least_agrees, lemma_least_is, lemma_least_none};
use crate::lemmas::{
    faultless, left_out, lemma_bind_spec, lemma_binds, lemma_left_out, lemma_one_supplier,
    lemma_slot_is_fixed, lemma_supplied_by_keyword, lemma_supplied_by_position,
    lemma_supplier_is, lemma_tail_values_empty, lemma_tail_values_run,
};
use crate::schema::{
    build_spec, conflicting_modifiers, declaration_fault, invalid_modifier_type,
    lemma_build_spec, lemma_parameters_of_wf, schema_wf, ArgCapturedView, ParameterSpecView,
    SchemaErrorView,
};

verus! {

/// A schema that was built is well formed: its parameters stand at their
/// positions under names that differ, and at most one is variadic, the last.
/// None of its declarations had markers that exclude each other, or a type
/// that its marker does not go with.
pub proof fn law_built_schema<E>(decls: Seq<ArgCapturedView<E>>)
    requires
        build_spec(decls) is Ok,
    ensures
        schema_wf(build_spec(decls)->Ok_0),
        (build_spec(decls)->Ok_0).len() == decls.len(),
        forall|i: int|
            0 <= i < decls.len() ==> !conflicting_modifiers(#[trigger] decls[i])
                && !invalid_modifier_type(decls[i]),
        forall|i: int, j: int|
            #![trigger decls[i], decls[j]]
            0 <= i < j < decls.len() && decls[i].vararg ==> !decls[j].vararg,
{
    lemma_build_spec(decls);
    lemma_parameters_of_wf(decls);
    assert forall|i: int| 0 <= i < decls.len() implies !conflicting_modifiers(#[trigger] decls[i])
        && !invalid_modifier_type(decls[i]) by {
        assert(declaration_fault(decls, i) is None);
    }
    assert forall|i: int, j: int|
        #![trigger decls[i], decls[j]]
        0 <= i < j < decls.len() && decls[i].vararg implies !decls[j].vararg by {
        assert(declaration_fault(decls, i) is None);
    }
}

/// A declaration at fault makes the build fail. Where no declaration before
/// it is at fault, the error is its own.
pub proof fn law_declaration_fault<E>(decls: Seq<ArgCapturedView<E>>, i: int)
    requires
        0 <= i < decls.len(),
        declaration_fault(decls, i) is Some,
    ensures
        build_spec(decls) is Err,
        (forall|j: int| 0 <= j < i ==> #[trigger] declaration_fault(decls, j) is None)
            ==> build_spec(decls) == Err::<Seq<ParameterSpecView<E>>, SchemaErrorView>(
            declaration_fault(decls, i)->Some_0,
        ),
{
    lemma_build_spec(decls);
    if forall|j: int| 0 <= j < i ==> #[trigger] declaration_fault(decls, j) is None {
        lemma_least_is(|i: int| declaration_fault(decls, i) is Some, decls.len() as int, i);
    }
}

/// What unnamed arguments, as many as the schema has fixed parameters, are
/// bound to.
pub open spec fn positional_binding<E>(
    schema: Seq<ParameterSpecView<E>>,
    args: Seq<InvokationArgView<E>>,
) -> Seq<ResolvedView<E>> {
    Seq::new(
        schema.len(),
        |k: int|
            if k >= args.len() {
                ResolvedView::Sequence(Seq::empty())
            } else if schema[k].kind is Optional {
                ResolvedView::Wrapped(args[k].value)
            } else {
                ResolvedView::Given(args[k].value)
            },
    )
}

/// Unnamed arguments, as many as the schema has fixed parameters, are bound
/// to those parameters one by one in their order: no default and no absent
/// value is used, and a variadic parameter collects nothing.
pub proof fn law_positional_binding<E>(
    schema: Seq<ParameterSpecView<E>>,
    args: Seq<InvokationArgView<E>>,
)
    requires
        schema_wf(schema),
        args.len() == fixed_count(schema),
        forall|i: int| 0 <= i < args.len() ==> (#[trigger] args[i]).name is None,
    ensures
        bind_spec(schema, args) == Ok::<Seq<ResolvedView<E>>, BindingErrorView>(
            positional_binding(schema, args),
        ),
{
    assert forall|i: int| 0 <= i <= args.len() implies !keyword_before(args, i) by {}
    lemma_tail_values_empty(schema, args, args.len() as int);
    let bound = positional_binding(schema, args);
    assert forall|k: int| 0 <= k < schema.len() implies #[trigger] resolve(schema, args, k)
        == Some(bound[k]) by {
        if k < args.len() {
            lemma_supplied_by_position(schema, args, k);
            lemma_supplier_is(schema, args, k, k);
        } else {
            lemma_supplier(schema, args, k);
            if supplier(schema, args, k) is Some {
                lemma_slot_is_fixed(schema, args, supplier(schema, args, k)->Some_0, k);
            }
        }
    }
    lemma_binds(schema, args, bound);
}

/// The first required parameter that the call leaves out, if there is one.
pub open spec fn first_missing<E>(
    schema: Seq<ParameterSpecView<E>>,
    args: Seq<InvokationArgView<E>>,
) -> Option<int> {
    least(
        |k: int| schema[k].kind is Required && left_out(schema, args, k),
        schema.len() as int,
    )
}

/// A required parameter that the call leaves out makes the binding fail.
/// Where no argument is at fault, the error names the first required
/// parameter that is left out.
pub proof fn law_missing_required<E>(
    schema: Seq<ParameterSpecView<E>>,
    args: Seq<InvokationArgView<E>>,
    k: int,
)
    requires
        schema_wf(schema),
        0 <= k < schema.len(),
        schema[k].kind is Required,
        left_out(schema, args, k),
    ensures
        bind_spec(schema, args) is Err,
        first_missing(schema, args) is Some,
        faultless(schema, args) ==> bind_spec(schema, args) == Err::<
            Seq<ResolvedView<E>>,
            BindingErrorView,
        >(
            BindingErrorView::MissingRequiredArgument(
                schema[first_missing(schema, args)->Some_0].name,
            ),
        ),
{
    let unresolved = |k: int| resolve(schema, args, k) is None;
    let missing = |k: int| schema[k].kind is Required && left_out(schema, args, k);
    // a parameter does not resolve exactly when it is required and left out
    assert forall|m: int| 0 <= m < schema.len() implies #[trigger] unresolved(m)
        == #[trigger] missing(m) by {
        lemma_supplier(schema, args, m);
        if schema[m].kind is Required {
            lemma_left_out(schema, args, m);
        }
    }
    lemma_least_agrees(unresolved, missing, schema.len() as int);
    lemma_least(missing, schema.len() as int);
    assert(missing(k));
    lemma_bind_spec(schema, args);
    if faultless(schema, args) {
        lemma_least_none(|i: int| argument_fault(schema, args, i) is Some, args.len() as int);
    }
}

/// The value that a call which binds gives to the fixed parameter at `k`, by
/// a keyword argument of the parameter's name or by an unnamed argument at
/// the parameter's index ahead of every keyword, is the value that the
/// parameter's supplier holds.
proof fn lemma_supplied_value<E>(
    schema: Seq<ParameterSpecView<E>>,
    args: Seq<InvokationArgView<E>>,
    j: int,
    k: int,
)
    requires
        schema_wf(schema),
        0 <= k < schema.len(),
        !(schema[k].kind is Vararg),
        0 <= j < args.len(),
        bind_spec(schema, args) is Ok,
        args[j].name == Some(schema[k].name) || (j == k && args[j].name is None && !keyword_before(
            args,
            j,
        )),
    ensures
        supplier(schema, args, k) == Some(j),
{
    lemma_bind_spec(schema, args);
    if args[j].name is Some {
        lemma_supplied_by_keyword(schema, args, j, k);
    } else {
        lemma_supplied_by_position(schema, args, j);
    }
    lemma_supplier_is(schema, args, j, k);
}

/// An optional parameter of a call that binds is absent where the call
/// leaves it out. Where the call supplies it, by keyword or by position, it
/// holds the supplied value, wrapped as present.
pub proof fn law_optional<E>(
    schema: Seq<ParameterSpecView<E>>,
    args: Seq<InvokationArgView<E>>,
    k: int,
)
    requires
        schema_wf(schema),
        0 <= k < schema.len(),
        schema[k].kind is Optional,
        bind_spec(schema, args) is Ok,
    ensures
        ({
            let bound = bind_spec(schema, args)->Ok_0;
            &&& left_out(schema, args, k) ==> bound[k] == ResolvedView::<E>::Absent
            &&& forall|j: int|
                0 <= j < args.len() && (#[trigger] args[j]).name == Some(schema[k].name)
                    ==> bound[k] == ResolvedView::Wrapped(args[j].value)
            &&& k < args.len() && args[k].name is None && !keyword_before(args, k) ==> bound[k]
                == ResolvedView::Wrapped(args[k].value)
        }),
{
    lemma_bind_spec(schema, args);
    let bound = bind_spec(schema, args)->Ok_0;
    lemma_left_out(schema, args, k);
    lemma_supplier(schema, args, k);
    assert forall|j: int|
        0 <= j < args.len() && (#[trigger] args[j]).name == Some(schema[k].name) implies bound[k]
        == ResolvedView::Wrapped(args[j].value) by {
        lemma_supplied_value(schema, args, j, k);
    }
    if k < args.len() && args[k].name is None && !keyword_before(args, k) {
        lemma_supplied_value(schema, args, k, k);
    }
}

/// A defaulted parameter of a call that binds holds its default where the
/// call leaves it out. Where the call supplies it, by keyword or by
/// position, it holds the supplied value in place of the default.
pub proof fn law_defaulted<E>(
    schema: Seq<ParameterSpecView<E>>,
    args: Seq<InvokationArgView<E>>,
    k: int,
)
    requires
        schema_wf(schema),
        0 <= k < schema.len(),
        schema[k].kind is Defaulted,
        bind_spec(schema, args) is Ok,
    ensures
        ({
            let bound = bind_spec(schema, args)->Ok_0;
            &&& left_out(schema, args, k) ==> bound[k] == ResolvedView::Default(
                schema[k].kind->Defaulted_0,
            )
            &&& forall|j: int|
                0 <= j < args.len() && (#[trigger] args[j]).name == Some(schema[k].name)
                    ==> bound[k] == ResolvedView::Given(args[j].value)
            &&& k < args.len() && args[k].name is None && !keyword_before(args, k) ==> bound[k]
                == ResolvedView::Given(args[k].value)
        }),
{
    lemma_bind_spec(schema, args);
    let bound = bind_spec(schema, args)->Ok_0;
    lemma_left_out(schema, args, k);
    lemma_supplier(schema, args, k);
    assert forall|j: int|
        0 <= j < args.len() && (#[trigger] args[j]).name == Some(schema[k].name) implies bound[k]
        == ResolvedView::Given(args[j].value) by {
        lemma_supplied_value(schema, args, j, k);
    }
    if k < args.len() && args[k].name is None && !keyword_before(args, k) {
        lemma_supplied_value(schema, args, k, k);
    }
}

/// The variadic parameter of a binding that succeeds holds the values of the
/// arguments that go to it, in call order. Where those are the arguments
/// from `m` on, it holds their values and nothing else: none, where `m` is
/// the number of arguments.
pub proof fn law_vararg_collects<E>(
    schema: Seq<ParameterSpecView<E>>,
    args: Seq<InvokationArgView<E>>,
    m: int,
)
    requires
        schema_wf(schema),
        has_vararg(schema),
        0 <= m <= args.len(),
        forall|j: int| 0 <= j < args.len() ==> (#[trigger] overflows(schema, args, j) <==> m <= j),
        bind_spec(schema, args) is Ok,
    ensures
        (bind_spec(schema, args)->Ok_0).last() == ResolvedView::Sequence(
            Seq::new((args.len() - m) as nat, |t: int| args[m + t].value),
        ),
{
    let k = schema.len() - 1;
    lemma_bind_spec(schema, args);
    lemma_supplier(schema, args, k);
    if supplier(schema, args, k) is Some {
        lemma_slot_is_fixed(schema, args, supplier(schema, args, k)->Some_0, k);
    }
    lemma_tail_values_empty(schema, args, m);
    lemma_tail_values_run(schema, args, m, args.len() as int);
}

/// An unnamed argument that follows a keyword goes to the variadic parameter
/// where the schema has one. Where it has none the binding fails, and the
/// error is this argument's where no argument before it is at fault.
pub proof fn law_positional_after_keyword<E>(
    schema: Seq<ParameterSpecView<E>>,
    args: Seq<InvokationArgView<E>>,
    i: int,
)
    requires
        0 <= i < args.len(),
        args[i].name is None,
        keyword_before(args, i),
    ensures
        has_vararg(schema) ==> overflows(schema, args, i) && argument_fault(schema, args, i)
            is None,
        !has_vararg(schema) ==> bind_spec(schema, args) is Err,
        !has_vararg(schema) && (forall|j: int|
            0 <= j < i ==> #[trigger] argument_fault(schema, args, j) is None) ==> bind_spec(
            schema,
            args,
        ) == Err::<Seq<ResolvedView<E>>, BindingErrorView>(
            BindingErrorView::PositionalAfterKeyword(i as nat),
        ),
{
    if !has_vararg(schema) {
        lemma_bind_spec(schema, args);
        if forall|j: int| 0 <= j < i ==> #[trigger] argument_fault(schema, args, j) is None {
            lemma_least_is(|i: int| argument_fault(schema, args, i) is Some, args.len() as int, i);
        }
    }
}

/// Two keyword arguments of one name make the binding fail. Where no
/// argument before the second of them is at fault, the error is that the
/// keyword is a duplicate.
pub proof fn law_duplicate_keyword<E>(
    schema: Seq<ParameterSpecView<E>>,
    args: Seq<InvokationArgView<E>>,
    i: int,
    j: int,
)
    requires
        0 <= i < j < args.len(),
        args[i].name is Some,
        args[j].name == args[i].name,
    ensures
        bind_spec(schema, args) is Err,
        (forall|m: int| 0 <= m < j ==> #[trigger] argument_fault(schema, args, m) is None)
            ==> bind_spec(schema, args) == Err::<Seq<ResolvedView<E>>, BindingErrorView>(
            BindingErrorView::DuplicateKeyword(args[i].name->Some_0),
        ),
{
    let name = args[i].name->Some_0;
    lemma_bind_spec(schema, args);
    match keyword_target(schema, name) {
        Some(k) => {
            // the first of the two supplies the parameter that the second selects
            assert(slot_of(schema, args, i) == Some(k));
            assert(argument_fault(schema, args, j) == Some(
                BindingErrorView::DuplicateKeyword(name),
            ));
            if forall|m: int| 0 <= m < j ==> #[trigger] argument_fault(schema, args, m) is None {
                lemma_least_is(
                    |i: int| argument_fault(schema, args, i) is Some,
                    args.len() as int,
                    j,
                );
            }
        },
        None => {
            // the keyword selects nothing, and the first of the two is at fault
            assert(argument_fault(schema, args, i) is Some);
        },
    }
}

/// `b` holds the arguments of `a` with the keyword arguments in another
/// order: the argument at `i` in `a` stands at `to[i]` in `b`, the one at
/// `i` in `b` comes from `from[i]` in `a`, and the unnamed arguments have
/// kept their places.
pub open spec fn rearranged<E>(
    a: Seq<InvokationArgView<E>>,
    b: Seq<InvokationArgView<E>>,
    to: Seq<int>,
    from: Seq<int>,
) -> bool {
    &&& a.len() == b.len()
    &&& to.len() == a.len()
    &&& from.len() == a.len()
    &&& forall|i: int|
        0 <= i < a.len() ==> 0 <= #[trigger] to[i] < a.len() && from[to[i]] == i && b[to[i]]
            == a[i]
    &&& forall|i: int| 0 <= i < b.len() ==> 0 <= #[trigger] from[i] < b.len() && to[from[i]] == i
    &&& forall|i: int| 0 <= i < a.len() && (#[trigger] a[i]).name is None ==> to[i] == i
}

/// To rearrange keyword arguments is to undo another rearrangement.
proof fn lemma_rearranged_back<E>(
    a: Seq<InvokationArgView<E>>,
    b: Seq<InvokationArgView<E>>,
    to: Seq<int>,
    from: Seq<int>,
)
    requires
        rearranged(a, b, to, from),
    ensures
        rearranged(b, a, from, to),
{
    assert forall|i: int| 0 <= i < b.len() implies a[#[trigger] from[i]] == b[i] by {}
    assert forall|i: int| 0 <= i < b.len() && (#[trigger] b[i]).name is None implies from[i]
        == i by {}
}

/// What a rearrangement of the keyword arguments leaves as it was: where the
/// keywords stand, which parameter each argument supplies, and what goes to
/// the variadic parameter.
proof fn lemma_rearranged_keeps<E>(
    schema: Seq<ParameterSpecView<E>>,
    a: Seq<InvokationArgView<E>>,
    b: Seq<InvokationArgView<E>>,
    to: Seq<int>,
    from: Seq<int>,
)
    requires
        rearranged(a, b, to, from),
    ensures
        forall|i: int| 0 <= i < a.len() ==> ((#[trigger] a[i]).name is Some <==> b[i].name is Some),
        forall|i: int|
            0 <= i <= a.len() ==> #[trigger] keyword_before(a, i) == keyword_before(b, i),
        forall|i: int|
            0 <= i < a.len() ==> #[trigger] slot_of(schema, a, i) == slot_of(schema, b, to[i]),
        forall|n: int|
            0 <= n <= a.len() ==> #[trigger] tail_values(schema, a, n) == tail_values(schema, b, n),
{
    lemma_rearranged_back(a, b, to, from);
    // an unnamed argument has kept its place, so a place holds a keyword in
    // both calls or in neither
    assert forall|i: int| 0 <= i < a.len() implies ((#[trigger] a[i]).name is Some <==> b[i].name
        is Some) by {}
    assert forall|i: int| 0 <= i <= a.len() implies #[trigger] keyword_before(a, i)
        == keyword_before(b, i) by {
        if keyword_before(b, i) {
            let j = choose|j: int| 0 <= j < i && (#[trigger] b[j]).name is Some;
            assert(a[j].name is Some);
        }
    }
    assert forall|n: int| 0 <= n <= a.len() implies #[trigger] tail_values(schema, a, n)
        == tail_values(schema, b, n) by {
        lemma_rearranged_tail(schema, a, b, n);
    }
}

/// Arguments that agree wherever one is unnamed, and in where their keywords
/// stand, send the same values to the variadic parameter.
proof fn lemma_rearranged_tail<E>(
    schema: Seq<ParameterSpecView<E>>,
    a: Seq<InvokationArgView<E>>,
    b: Seq<InvokationArgView<E>>,
    n: int,
)
    requires
        a.len() == b.len(),
        0 <= n <= a.len(),
        forall|i: int| 0 <= i < a.len() ==> ((#[trigger] a[i]).name is Some <==> b[i].name is Some),
        forall|i: int| 0 <= i < a.len() && (#[trigger] a[i]).name is None ==> b[i] == a[i],
        forall|i: int|
            0 <= i <= a.len() ==> #[trigger] keyword_before(a, i) == keyword_before(b, i),
    ensures
        tail_values(schema, a, n) == tail_values(schema, b, n),
    decreases n,
{
    if n > 0 {
        lemma_rearranged_tail(schema, a, b, n - 1);
    }
}

/// A binding that succeeds is the binding of every rearrangement of its
/// keyword arguments.
proof fn lemma_rearranged_binding<E>(
    schema: Seq<ParameterSpecView<E>>,
    a: Seq<InvokationArgView<E>>,
    b: Seq<InvokationArgView<E>>,
    to: Seq<int>,
    from: Seq<int>,
)
    requires
        rearranged(a, b, to, from),
        bind_spec(schema, a) is Ok,
    ensures
        bind_spec(schema, b) == bind_spec(schema, a),
{
    lemma_rearranged_back(a, b, to, from);
    lemma_rearranged_keeps(schema, a, b, to, from);
    lemma_bind_spec(schema, a);
    let bound = bind_spec(schema, a)->Ok_0;

    // a keyword that finds its parameter supplied in `b` would have a rival
    // for that parameter in `a`
    assert forall|i: int| 0 <= i < b.len() implies argument_fault(schema, b, i) is None by {
        if b[i].name is Some {
            let k = keyword_target(schema, b[i].name->Some_0)->Some_0;
            if supplied_before(schema, b, i, k) {
                let j = choose|j: int| 0 <= j < i && #[trigger] slot_of(schema, b, j) == Some(k);
                lemma_one_supplier(schema, a, from[j], from[i], k);
            }
        }
    }

    // the argument that supplies a parameter in `a` supplies it in `b`, from
    // its new place
    assert forall|k: int| 0 <= k < schema.len() implies #[trigger] resolve(schema, b, k) == Some(
        bound[k],
    ) by {
        lemma_supplier(schema, a, k);
        lemma_supplier(schema, b, k);
        match supplier(schema, a, k) {
            Some(j) => {
                lemma_supplier_is(schema, b, to[j], k);
            },
            None => {
                if supplier(schema, b, k) is Some {
                    let j = supplier(schema, b, k)->Some_0;
                    assert(slot_of(schema, a, from[j]) == slot_of(schema, b, to[from[j]]));
                }
            },
        }
    }
    lemma_binds(schema, b, bound);
}

/// Keyword arguments may come in any order: a call binds exactly when a
/// rearrangement of its keyword arguments does, and to the same values.
pub proof fn law_keyword_order<E>(
    schema: Seq<ParameterSpecView<E>>,
    a: Seq<InvokationArgView<E>>,
    b: Seq<InvokationArgView<E>>,
    to: Seq<int>,
    from: Seq<int>,
)
    requires
        rearranged(a, b, to, from),
    ensures
        bind_spec(schema, a) is Ok <==> bind_spec(schema, b) is Ok,
        bind_spec(schema, a) is Ok ==> bind_spec(schema, b) == bind_spec(schema, a),
{
    if bind_spec(schema, a) is Ok {
        lemma_rearranged_binding(schema, a, b, to, from);
    }
    if bind_spec(schema, b) is Ok {
        lemma_rearranged_back(a, b, to, from);
        lemma_rearranged_binding(schema, b, a, from, to);
    }
}

} // verus!
