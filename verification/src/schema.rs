//! The parameter schema of a declared function: the declarations as written,
//! the parameters they stand for, and the validation that leads from one to
//! the other.

use vstd::prelude::*;
use vstd::string::StringExecFns;

use crate::least::{least, lemma_least, lemma_least_is, lemma_least_none};

verus! {

/// What is known of a parameter's declared type: the first identifier of its
/// path, or nothing where the type is not a path.
#[derive(Debug, Clone, PartialEq, Eq)]
pub enum DeclaredType {
    Path(String),
    Other,
}

/// A declared type with its identifier as a sequence of characters.
pub enum DeclaredTypeView {
    Path(Seq<char>),
    Other,
}

impl View for DeclaredType {
    type V = DeclaredTypeView;

    open spec fn view(&self) -> DeclaredTypeView {
        match self {
            DeclaredType::Path(head) => DeclaredTypeView::Path(head@),
            DeclaredType::Other => DeclaredTypeView::Other,
        }
    }
}

/// A sequence type is a path that starts with `Vec`.
pub open spec fn is_sequence_type(ty: DeclaredTypeView) -> bool {
    ty matches DeclaredTypeView::Path(head) && head == "Vec"@
}

/// A possibly-absent wrapper type is a path that starts with `Option`.
pub open spec fn is_wrapper_type(ty: DeclaredTypeView) -> bool {
    ty matches DeclaredTypeView::Path(head) && head == "Option"@
}

/// Whether `ty` is a sequence type, which a variadic parameter must have.
pub fn is_vararg_ty(ty: &DeclaredType) -> (r: bool)
    ensures
        r == is_sequence_type(ty@),
{
    match ty {
        DeclaredType::Path(head) => {
            let expected = String::from_str("Vec");
            *head == expected
        },
        DeclaredType::Other => false,
    }
}

/// Whether `ty` is a possibly-absent wrapper type, which an optional
/// parameter must have.
pub fn is_option_ty(ty: &DeclaredType) -> (r: bool)
    ensures
        r == is_wrapper_type(ty@),
{
    match ty {
        DeclaredType::Path(head) => {
            let expected = String::from_str("Option");
            *head == expected
        },
        DeclaredType::Other => false,
    }
}

/// The default value written after `=` in a declaration. The value is of any
/// type `E`; it is kept as it is and never looked into.
#[derive(Debug, Clone, PartialEq, Eq)]
pub struct ArgDefault<E> {
    pub value: E,
}

/// One parameter as declared: its name, its markers, its type and its default.
/// Nothing is checked yet; the markers may contradict each other.
#[derive(Debug, Clone, PartialEq, Eq)]
pub struct ArgCaptured<E> {
    /// The identifier that the parameter binds.
    pub pat: String,
    /// Whether the name is followed by `*`.
    pub vararg_token: bool,
    /// Whether the name is followed by `?`.
    pub optional_token: bool,
    pub ty: DeclaredType,
    pub default: Option<ArgDefault<E>>,
}

/// A declaration by what it says: the name, the two markers, the type and the
/// default value.
pub struct ArgCapturedView<E> {
    pub name: Seq<char>,
    pub vararg: bool,
    pub optional: bool,
    pub ty: DeclaredTypeView,
    pub default: Option<E>,
}

impl<E> View for ArgCaptured<E> {
    type V = ArgCapturedView<E>;

    open spec fn view(&self) -> ArgCapturedView<E> {
        ArgCapturedView {
            name: self.pat@,
            vararg: self.vararg_token,
            optional: self.optional_token,
            ty: self.ty@,
            default: match self.default {
                Some(d) => Some(d.value),
                None => None,
            },
        }
    }
}

impl<E> ArgCaptured<E> {
    /// The name of the parameter.
    pub fn name(&self) -> (r: &str)
        ensures
            r@ == self@.name,
    {
        self.pat.as_str()
    }

    /// Whether the declaration is marked variadic.
    pub fn is_vararg(&self) -> (r: bool)
        ensures
            r == self@.vararg,
    {
        self.vararg_token
    }

    /// Whether the declaration is marked optional.
    pub fn is_optional(&self) -> (r: bool)
        ensures
            r == self@.optional,
    {
        self.optional_token
    }

    /// The default value, where the declaration has one.
    pub fn default(&self) -> (r: Option<&E>)
        ensures
            match r {
                Some(value) => self@.default == Some(*value),
                None => self@.default is None,
            },
    {
        match &self.default {
            Some(d) => Some(&d.value),
            None => None,
        }
    }
}

/// How a parameter takes its value.
#[derive(Debug, Clone, PartialEq, Eq)]
pub enum Kind<E> {
    /// Some call argument must supply it.
    Required,
    /// It may be left out, and then has no value.
    Optional,
    /// It may be left out, and then has the default held here.
    Defaulted(E),
    /// It takes the unnamed arguments that are left over, however many.
    Vararg,
}

/// One parameter of a schema.
#[derive(Debug, Clone, PartialEq, Eq)]
pub struct ParameterSpec<E> {
    pub name: String,
    /// Its index in declaration order, which is also its slot in a binding.
    pub position: usize,
    pub kind: Kind<E>,
}

/// A parameter with its name as a sequence of characters.
pub struct ParameterSpecView<E> {
    pub name: Seq<char>,
    pub position: nat,
    pub kind: Kind<E>,
}

impl<E> View for ParameterSpec<E> {
    type V = ParameterSpecView<E>;

    open spec fn view(&self) -> ParameterSpecView<E> {
        ParameterSpecView { name: self.name@, position: self.position as nat, kind: self.kind }
    }
}

/// The views of a run of parameters.
pub open spec fn parameter_views<E>(params: Seq<ParameterSpec<E>>) -> Seq<ParameterSpecView<E>> {
    Seq::new(params.len(), |i: int| params[i]@)
}

/// The index of the first parameter of `params` that is called `name`.
pub open spec fn position_of<E>(params: Seq<ParameterSpecView<E>>, name: Seq<char>) -> Option<int> {
    least(|k: int| params[k].name == name, params.len() as int)
}

/// `position_of` gives an index that holds the name and has none before it
/// that does, and it is `None` exactly when no parameter has the name.
pub proof fn lemma_position_of<E>(params: Seq<ParameterSpecView<E>>, name: Seq<char>)
    ensures
        match position_of(params, name) {
            Some(k) => {
                &&& 0 <= k < params.len()
                &&& params[k].name == name
                &&& forall|j: int| 0 <= j < k ==> (#[trigger] params[j]).name != name
            },
            None => forall|j: int| 0 <= j < params.len() ==> (#[trigger] params[j]).name != name,
        },
{
    let p = |k: int| params[k].name == name;
    lemma_least(p, params.len() as int);
    match position_of(params, name) {
        Some(k) => {
            assert forall|j: int| 0 <= j < k implies (#[trigger] params[j]).name != name by {
                assert(!p(j));
            }
        },
        None => {
            assert forall|j: int| 0 <= j < params.len() implies (#[trigger] params[j]).name
                != name by {
                assert(!p(j));
            }
        },
    }
}

/// Finds the first parameter that is called `name`, with its index.
pub fn arg_pos_by_name<'a, E>(args: &'a [ParameterSpec<E>], name: &str) -> (r: Option<
    (usize, &'a ParameterSpec<E>),
>)
    ensures
        match r {
            Some((index, param)) => {
                &&& position_of(parameter_views(args@), name@) == Some(index as int)
                &&& *param == args@[index as int]
            },
            None => position_of(parameter_views(args@), name@) is None,
        },
{
    let wanted = String::from_str(name);
    let ghost views = parameter_views(args@);
    let mut index: usize = 0;
    while index < args.len()
        invariant
            index <= args.len(),
            wanted@ == name@,
            views == parameter_views(args@),
            forall|j: int| 0 <= j < index ==> (#[trigger] views[j]).name != name@,
        decreases args.len() - index,
    {
        if args[index].name == wanted {
            proof {
                lemma_least_is(|k: int| views[k].name == name@, views.len() as int, index as int);
            }
            return Some((index, &args[index]));
        }
        index += 1;
    }
    proof {
        lemma_least_none(|k: int| views[k].name == name@, views.len() as int);
    }
    None
}

/// Why a run of declarations is no schema. Each holds the name of the
/// parameter at fault.
#[derive(Debug, Clone, PartialEq, Eq)]
pub enum SchemaError {
    /// A variadic parameter stands before the end.
    MisplacedVararg(String),
    /// The markers and the default of one parameter exclude each other.
    ConflictingModifiers(String),
    /// An optional parameter has no wrapper type, or a variadic one no
    /// sequence type.
    InvalidModifierType(String),
    /// An earlier parameter has the same name.
    DuplicateParameterName(String),
}

/// A schema error with its name as a sequence of characters.
pub enum SchemaErrorView {
    MisplacedVararg(Seq<char>),
    ConflictingModifiers(Seq<char>),
    InvalidModifierType(Seq<char>),
    DuplicateParameterName(Seq<char>),
}

impl View for SchemaError {
    type V = SchemaErrorView;

    open spec fn view(&self) -> SchemaErrorView {
        match self {
            SchemaError::MisplacedVararg(name) => SchemaErrorView::MisplacedVararg(name@),
            SchemaError::ConflictingModifiers(name) => SchemaErrorView::ConflictingModifiers(name@),
            SchemaError::InvalidModifierType(name) => SchemaErrorView::InvalidModifierType(name@),
            SchemaError::DuplicateParameterName(name) => {
                SchemaErrorView::DuplicateParameterName(name@)
            },
        }
    }
}

/// The views of a run of declarations.
pub open spec fn declaration_views<E>(raw: Seq<ArgCaptured<E>>) -> Seq<ArgCapturedView<E>> {
    Seq::new(raw.len(), |i: int| raw[i]@)
}

/// An optional parameter is neither variadic nor defaulted, and a variadic
/// one is not defaulted.
pub open spec fn conflicting_modifiers<E>(decl: ArgCapturedView<E>) -> bool {
    ||| decl.optional && (decl.vararg || decl.default is Some)
    ||| decl.vararg && decl.default is Some
}

/// An optional parameter has a wrapper type and a variadic one a sequence type.
pub open spec fn invalid_modifier_type<E>(decl: ArgCapturedView<E>) -> bool {
    ||| decl.optional && !is_wrapper_type(decl.ty)
    ||| decl.vararg && !is_sequence_type(decl.ty)
}

/// The declaration at `i` has the name of one before it.
pub open spec fn repeats_name<E>(decls: Seq<ArgCapturedView<E>>, i: int) -> bool {
    exists|j: int| 0 <= j < i && (#[trigger] decls[j]).name == decls[i].name
}

/// What is wrong with the declaration at `i`, if anything. A declaration has
/// at most one fault, the first of these that holds of it: its markers and
/// default exclude each other; it is variadic and not the last; its type does
/// not go with its marker; its name is that of an earlier declaration.
pub open spec fn declaration_fault<E>(decls: Seq<ArgCapturedView<E>>, i: int) -> Option<
    SchemaErrorView,
> {
    let decl = decls[i];
    if conflicting_modifiers(decl) {
        Some(SchemaErrorView::ConflictingModifiers(decl.name))
    } else if decl.vararg && i != decls.len() - 1 {
        Some(SchemaErrorView::MisplacedVararg(decl.name))
    } else if invalid_modifier_type(decl) {
        Some(SchemaErrorView::InvalidModifierType(decl.name))
    } else if repeats_name(decls, i) {
        Some(SchemaErrorView::DuplicateParameterName(decl.name))
    } else {
        None
    }
}

/// The kind that a declaration's markers and default stand for.
pub open spec fn kind_of<E>(decl: ArgCapturedView<E>) -> Kind<E> {
    if decl.optional {
        Kind::Optional
    } else if decl.vararg {
        Kind::Vararg
    } else {
        match decl.default {
            Some(value) => Kind::Defaulted(value),
            None => Kind::Required,
        }
    }
}

/// The parameter that the declaration at `i` stands for.
pub open spec fn parameter_of<E>(decls: Seq<ArgCapturedView<E>>, i: int) -> ParameterSpecView<E> {
    ParameterSpecView { name: decls[i].name, position: i as nat, kind: kind_of(decls[i]) }
}

/// The parameters that a run of declarations stands for, in their order.
pub open spec fn parameters_of<E>(decls: Seq<ArgCapturedView<E>>) -> Seq<ParameterSpecView<E>> {
    Seq::new(decls.len(), |i: int| parameter_of(decls, i))
}

/// The schema of a run of declarations, or the fault of the first declaration
/// that has one.
pub open spec fn build_spec<E>(decls: Seq<ArgCapturedView<E>>) -> Result<
    Seq<ParameterSpecView<E>>,
    SchemaErrorView,
> {
    match least(|i: int| declaration_fault(decls, i) is Some, decls.len() as int) {
        Some(i) => Err(declaration_fault(decls, i).unwrap()),
        None => Ok(parameters_of(decls)),
    }
}

/// No declaration is at fault.
pub open spec fn well_declared<E>(decls: Seq<ArgCapturedView<E>>) -> bool {
    forall|i: int| 0 <= i < decls.len() ==> declaration_fault(decls, i) is None
}

/// Declarations make a schema exactly when none of them is at fault, and
/// then the schema holds the parameter of each. They fail with the fault of
/// the first declaration that has one.
pub proof fn lemma_build_spec<E>(decls: Seq<ArgCapturedView<E>>)
    ensures
        match build_spec(decls) {
            Ok(params) => well_declared(decls) && params == parameters_of(decls),
            Err(e) => exists|i: int|
                {
                    &&& 0 <= i < decls.len()
                    &&& #[trigger] declaration_fault(decls, i) == Some(e)
                    &&& forall|j: int|
                        0 <= j < i ==> #[trigger] declaration_fault(decls, j) is None
                },
        },
{
    let faulty = |i: int| declaration_fault(decls, i) is Some;
    lemma_least(faulty, decls.len() as int);
    match least(faulty, decls.len() as int) {
        Some(i) => {
            assert forall|j: int| 0 <= j < i implies #[trigger] declaration_fault(decls, j)
                is None by {
                assert(!faulty(j));
            }
        },
        None => {
            assert forall|i: int| 0 <= i < decls.len() implies declaration_fault(decls, i)
                is None by {
                assert(!faulty(i));
            }
        },
    }
}

/// What holds of every schema: each parameter knows its place, no name occurs
/// twice, and only the last parameter may be variadic.
pub open spec fn schema_wf<E>(params: Seq<ParameterSpecView<E>>) -> bool {
    &&& forall|i: int| 0 <= i < params.len() ==> (#[trigger] params[i]).position == i
    &&& forall|i: int, j: int|
        #![trigger params[i], params[j]]
        0 <= i < j < params.len() ==> params[i].name != params[j].name
    &&& forall|i: int|
        0 <= i < params.len() && (#[trigger] params[i]).kind is Vararg ==> i == params.len() - 1
}

/// The validated parameters of one function, in declaration order.
#[derive(Debug, PartialEq, Eq)]
pub struct Schema<E> {
    params: Vec<ParameterSpec<E>>,
}

impl<E> View for Schema<E> {
    type V = Seq<ParameterSpecView<E>>;

    closed spec fn view(&self) -> Seq<ParameterSpecView<E>> {
        parameter_views(self.params@)
    }
}

impl<E> Schema<E> {
    #[verifier::type_invariant]
    spec fn well_formed(self) -> bool {
        schema_wf(self@)
    }

    /// Validates the declarations in their order and makes the schema of them.
    /// The first declaration at fault decides the error.
    pub fn build(raw_params: Vec<ArgCaptured<E>>) -> (r: Result<Schema<E>, SchemaError>)
        ensures
            r matches Ok(schema) ==> schema_wf(schema@),
            match r {
                Ok(schema) => build_spec(declaration_views(raw_params@)) == Ok::<
                    Seq<ParameterSpecView<E>>,
                    SchemaErrorView,
                >(schema@),
                Err(e) => build_spec(declaration_views(raw_params@)) == Err::<
                    Seq<ParameterSpecView<E>>,
                    SchemaErrorView,
                >(e@),
            },
    {
        let ghost decls = declaration_views(raw_params@);
        let ghost faulty = |i: int| declaration_fault(decls, i) is Some;
        let count = raw_params.len();
        let mut params: Vec<ParameterSpec<E>> = Vec::new();
        for decl in it: raw_params
            invariant
                count == raw_params@.len(),
                it.seq() == raw_params@,
                decls == declaration_views(raw_params@),
                faulty == |i: int| declaration_fault(decls, i) is Some,
                params@.len() == it.index(),
                forall|j: int| 0 <= j < it.index() ==> !#[trigger] faulty(j),
                forall|j: int|
                    0 <= j < it.index() ==> (#[trigger] params@[j])@ == parameter_of(decls, j),
        {
            let position = params.len();
            let defaulted = decl.default.is_some();
            let conflicting = if decl.optional_token {
                decl.vararg_token || defaulted
            } else {
                decl.vararg_token && defaulted
            };
            if conflicting {
                proof {
                    lemma_least_is(faulty, count as int, position as int);
                }
                return Err(SchemaError::ConflictingModifiers(decl.pat));
            }
            if decl.vararg_token && position + 1 != count {
                proof {
                    lemma_least_is(faulty, count as int, position as int);
                }
                return Err(SchemaError::MisplacedVararg(decl.pat));
            }
            let wrong_type = (decl.optional_token && !is_option_ty(&decl.ty))
                || (decl.vararg_token && !is_vararg_ty(&decl.ty));
            if wrong_type {
                proof {
                    lemma_least_is(faulty, count as int, position as int);
                }
                return Err(SchemaError::InvalidModifierType(decl.pat));
            }
            let earlier = arg_pos_by_name(params.as_slice(), decl.pat.as_str());
            proof {
                lemma_position_of(parameter_views(params@), decl.pat@);
            }
            if earlier.is_some() {
                proof {
                    lemma_least_is(faulty, count as int, position as int);
                }
                return Err(SchemaError::DuplicateParameterName(decl.pat));
            }
            proof {
                assert(!repeats_name(decls, position as int)) by {
                    if repeats_name(decls, position as int) {
                        let j = choose|j: int|
                            0 <= j < position && (#[trigger] decls[j]).name
                                == decls[position as int].name;
                        assert(parameter_views(params@)[j].name == decl.pat@);
                    }
                }
            }
            let kind = if decl.optional_token {
                Kind::Optional
            } else if decl.vararg_token {
                Kind::Vararg
            } else {
                match decl.default {
                    Some(d) => Kind::Defaulted(d.value),
                    None => Kind::Required,
                }
            };
            params.push(ParameterSpec { name: decl.pat, position, kind });
        }
        proof {
            lemma_least_none(faulty, count as int);
            assert forall|i: int| 0 <= i < decls.len() implies declaration_fault(decls, i)
                is None by {
                assert(!faulty(i));
            }
            assert(parameter_views(params@) =~= parameters_of(decls));
            lemma_parameters_of_wf(decls);
        }
        Ok(Schema { params })
    }

    /// The number of parameters.
    pub fn len(&self) -> (r: usize)
        ensures
            r == self@.len(),
    {
        self.params.len()
    }

    /// The parameters, in declaration order. They are well formed, as those
    /// of every schema are.
    pub fn params(&self) -> (r: &[ParameterSpec<E>])
        ensures
            parameter_views(r@) == self@,
            schema_wf(self@),
    {
        proof {
            use_type_invariant(self);
        }
        self.params.as_slice()
    }
}

/// Declarations without a fault stand for a well-formed schema.
pub proof fn lemma_parameters_of_wf<E>(decls: Seq<ArgCapturedView<E>>)
    requires
        forall|i: int| 0 <= i < decls.len() ==> declaration_fault(decls, i) is None,
    ensures
        schema_wf(parameters_of(decls)),
{
    let params = parameters_of(decls);
    assert forall|i: int, j: int|
        #![trigger params[i], params[j]]
        0 <= i < j < params.len() implies params[i].name != params[j].name by {
        assert(declaration_fault(decls, j) is None);
    }
    assert forall|i: int|
        0 <= i < params.len() && (#[trigger] params[i]).kind is Vararg implies i == params.len()
        - 1 by {
        assert(declaration_fault(decls, i) is None);
    }
}

} // verus!
