//! Reading the signature of an input function: which parameters are
//! components, resources, the entity, the subject and the target.
//!
//! The syntax is given as plain shapes that carry the tokens of each part
//! as an opaque payload `T`; what comes back holds the payloads of the
//! parts it uses.
use vstd::prelude::*;

verus! {

/// A segment of a path: its name, and its tokens.
pub struct Segment<T> {
    pub name: String,
    pub tokens: T,
}

/// The pattern of a parameter.
pub enum PatShape<T> {
    /// A plain identifier: its name and its tokens.
    Ident { name: String, ident: T },
    /// Any other pattern, with its tokens.
    Other { tokens: T },
}

/// What a reference refers to.
pub enum ElemShape<T> {
    /// A path, by its segments.
    Path { segments: Vec<Segment<T>> },
    /// Any other type, with its tokens.
    Other { tokens: T },
}

/// The type of a parameter; each variant carries the tokens of the whole type.
#[verifier::reject_recursive_types(T)]
pub enum TypeShape<T> {
    Reference { elem: ElemShape<T>, tokens: T },
    Path { segments: Vec<Segment<T>>, tokens: T },
    Tuple { elems: Vec<TypeShape<T>>, tokens: T },
    Other { tokens: T },
}

/// A typed parameter: its pattern and its type.
#[verifier::reject_recursive_types(T)]
pub struct ParamShape<T> {
    pub pat: PatShape<T>,
    pub ty: TypeShape<T>,
}

/// A parameter of a function, with the tokens of the whole parameter.
#[verifier::reject_recursive_types(T)]
pub enum ArgShape<T> {
    Receiver { tokens: T },
    Typed { tokens: T, param: ParamShape<T> },
}

/// What a parameter of an input function stands for.
#[derive(Copy, Clone, Debug, PartialEq, Eq, Structural)]
pub enum SigType {
    Component,
    Extra,
    Entity,
}

/// A parameter that was read: what it stands for, its name and the tokens
/// of its type (the component's last path segment, or the whole path).
pub struct ParsedInput<T> {
    pub sig_type: SigType,
    pub ident: T,
    pub tokens: T,
}

/// A tuple parameter that was read: its name and the tokens of the types of
/// its elements. The generated bindings of the elements are named `p0`,
/// `p1`, ... in order.
pub struct ParsedTupleInput<T> {
    pub ident: T,
    pub arg_types: Vec<T>,
}

/// Why a signature is refused.
#[derive(Copy, Clone, Debug, PartialEq, Eq, Structural)]
pub enum SyntaxErrorKind {
    ExpectedIdentity,
    ExpectedComponent,
    UnexpectedType,
    RequiresReference,
    ExpectedReference,
    ExpectedTuple,
    ExpectedAtLeastOneInput,
    InputCannotHaveSelf,
    DuplicateSubject,
    DuplicateTarget,
    InvalidExtraInput,
    MissingTarget,
    ExpectedOneArgument,
    ExpectedIdentityHere,
    ExpectedTypePath,
}

/// The message reported to the user for each refusal.
pub open spec fn error_message(kind: SyntaxErrorKind) -> Seq<char> {
    match kind {
        SyntaxErrorKind::ExpectedIdentity => "Expected an Identity"@,
        SyntaxErrorKind::ExpectedComponent => "Expected a Component"@,
        SyntaxErrorKind::UnexpectedType => "Expected the parameter type to be a reference, Res or ResMut"@,
        SyntaxErrorKind::RequiresReference => "Only Entity cannot be borrowed here"@,
        SyntaxErrorKind::ExpectedReference => "Expected the parameter type to be a reference"@,
        SyntaxErrorKind::ExpectedTuple => "Expected the parameter type to be a tuple"@,
        SyntaxErrorKind::ExpectedAtLeastOneInput => "Expected at least one input"@,
        SyntaxErrorKind::InputCannotHaveSelf => "Input cannot have self"@,
        SyntaxErrorKind::DuplicateSubject => "There already exists an input named 'subject'"@,
        SyntaxErrorKind::DuplicateTarget => "There already exists an input named 'target'"@,
        SyntaxErrorKind::InvalidExtraInput => "This extra input is not valid, expected one of Res, ResMut"@,
        SyntaxErrorKind::MissingTarget => "Function must have an input named 'target'"@,
        SyntaxErrorKind::ExpectedOneArgument => "Expected only one argument"@,
        SyntaxErrorKind::ExpectedIdentityHere => "expected an identity here!"@,
        SyntaxErrorKind::ExpectedTypePath => "expected an type path here!"@,
    }
}

impl SyntaxErrorKind {
    /// The message reported to the user.
    pub fn message(&self) -> (r: &'static str)
        ensures
            r@ == error_message(*self),
    {
        match self {
            SyntaxErrorKind::ExpectedIdentity => "Expected an Identity",
            SyntaxErrorKind::ExpectedComponent => "Expected a Component",
            SyntaxErrorKind::UnexpectedType => "Expected the parameter type to be a reference, Res or ResMut",
            SyntaxErrorKind::RequiresReference => "Only Entity cannot be borrowed here",
            SyntaxErrorKind::ExpectedReference => "Expected the parameter type to be a reference",
            SyntaxErrorKind::ExpectedTuple => "Expected the parameter type to be a tuple",
            SyntaxErrorKind::ExpectedAtLeastOneInput => "Expected at least one input",
            SyntaxErrorKind::InputCannotHaveSelf => "Input cannot have self",
            SyntaxErrorKind::DuplicateSubject => "There already exists an input named 'subject'",
            SyntaxErrorKind::DuplicateTarget => "There already exists an input named 'target'",
            SyntaxErrorKind::InvalidExtraInput => "This extra input is not valid, expected one of Res, ResMut",
            SyntaxErrorKind::MissingTarget => "Function must have an input named 'target'",
            SyntaxErrorKind::ExpectedOneArgument => "Expected only one argument",
            SyntaxErrorKind::ExpectedIdentityHere => "expected an identity here!",
            SyntaxErrorKind::ExpectedTypePath => "expected an type path here!",
        }
    }
}

/// A refusal, with the tokens it points at.
pub struct SyntaxError<T> {
    pub kind: SyntaxErrorKind,
    pub span: T,
}

pub open spec fn syntax_error<T>(kind: SyntaxErrorKind, span: T) -> SyntaxError<T> {
    SyntaxError { kind, span }
}

/// The names of the resource types an input function may take.
pub open spec fn is_extra_type_name(name: Seq<char>) -> bool {
    name == "Res"@ || name == "ResMut"@
}

/// Whether `name` is `expected`.
fn name_is(name: &String, expected: &str) -> (r: bool)
    ensures
        r == (name@ == expected@),
{
    let e: String = expected.to_owned();
    *name == e
}

/// A parameter can be read without a fault: a reference to a path has a
/// segment (every path written in source has one).
pub open spec fn param_is_readable<T>(param: ParamShape<T>) -> bool {
    match param.ty {
        TypeShape::Reference { elem: ElemShape::Path { segments }, .. } => segments@.len() > 0,
        TypeShape::Tuple { elems, .. } => forall|i: int|
            0 <= i < elems@.len() ==> (#[trigger] elems@[i] matches TypeShape::Reference {
                elem: ElemShape::Path { segments },
                ..
            } ==> segments@.len() > 0),
        _ => true,
    }
}

/// How a parameter of a plain input function reads: a reference to a
/// component (by the last segment of its path), a resource (`Res` or
/// `ResMut`), or the entity; anything else is refused.
pub open spec fn parsed_param<T>(param: ParamShape<T>) -> Result<ParsedInput<T>, SyntaxError<T>> {
    match param.pat {
        PatShape::Other { tokens } => Err(syntax_error(SyntaxErrorKind::ExpectedIdentity, tokens)),
        PatShape::Ident { name, ident } => match param.ty {
            TypeShape::Reference { elem, tokens } => match elem {
                ElemShape::Path { segments } => Ok(
                    ParsedInput { sig_type: SigType::Component, ident, tokens: segments@.last().tokens },
                ),
                ElemShape::Other { tokens } => Err(syntax_error(SyntaxErrorKind::ExpectedComponent, tokens)),
            },
            TypeShape::Path { segments, tokens } => if segments@.len() == 0 {
                Err(syntax_error(SyntaxErrorKind::UnexpectedType, tokens))
            } else if is_extra_type_name(segments@[0].name@) {
                Ok(ParsedInput { sig_type: SigType::Extra, ident, tokens })
            } else if segments@[0].name@ == "Entity"@ {
                Ok(ParsedInput { sig_type: SigType::Entity, ident, tokens })
            } else {
                Err(syntax_error(SyntaxErrorKind::UnexpectedType, tokens))
            },
            TypeShape::Tuple { tokens, .. } => Err(syntax_error(SyntaxErrorKind::UnexpectedType, tokens)),
            TypeShape::Other { tokens } => Err(syntax_error(SyntaxErrorKind::UnexpectedType, tokens)),
        },
    }
}

/// Reads a parameter of a plain input function, as [`parsed_param`] says.
pub fn parse_param<T>(param: ParamShape<T>) -> (r: Result<ParsedInput<T>, SyntaxError<T>>)
    requires
        param_is_readable(param),
    ensures
        r == parsed_param(param),
{
    let ghost p = param;
    let ParamShape { pat, ty } = param;
    match pat {
        PatShape::Other { tokens } => Err(SyntaxError { kind: SyntaxErrorKind::ExpectedIdentity, span: tokens }),
        PatShape::Ident { name, ident } => match ty {
            TypeShape::Reference { elem, tokens } => match elem {
                ElemShape::Path { segments } => {
                    let mut segments = segments;
                    let last = segments.pop();
                    match last {
                        Some(segment) => Ok(
                            ParsedInput { sig_type: SigType::Component, ident, tokens: segment.tokens },
                        ),
                        None => Err(SyntaxError { kind: SyntaxErrorKind::ExpectedComponent, span: tokens }),
                    }
                },
                ElemShape::Other { tokens } => Err(
                    SyntaxError { kind: SyntaxErrorKind::ExpectedComponent, span: tokens },
                ),
            },
            TypeShape::Path { segments, tokens } => {
                if segments.len() == 0 {
                    Err(SyntaxError { kind: SyntaxErrorKind::UnexpectedType, span: tokens })
                } else if name_is(&segments[0].name, "Res") || name_is(&segments[0].name, "ResMut") {
                    Ok(ParsedInput { sig_type: SigType::Extra, ident, tokens })
                } else if name_is(&segments[0].name, "Entity") {
                    Ok(ParsedInput { sig_type: SigType::Entity, ident, tokens })
                } else {
                    Err(SyntaxError { kind: SyntaxErrorKind::UnexpectedType, span: tokens })
                }
            },
            TypeShape::Tuple { tokens, .. } => Err(SyntaxError { kind: SyntaxErrorKind::UnexpectedType, span: tokens }),
            TypeShape::Other { tokens } => Err(SyntaxError { kind: SyntaxErrorKind::UnexpectedType, span: tokens }),
        },
    }
}

/// A parameter of a function is readable: it is not `self`, and its
/// parameter is readable.
pub open spec fn arg_is_readable<T>(input: ArgShape<T>) -> bool {
    match input {
        ArgShape::Receiver { .. } => false,
        ArgShape::Typed { param, .. } => param_is_readable(param),
    }
}

/// The parameter of a typed function argument.
pub open spec fn arg_param<T>(input: ArgShape<T>) -> ParamShape<T>
    recommends
        input is Typed,
{
    match input {
        ArgShape::Typed { param, .. } => param,
        ArgShape::Receiver { .. } => arbitrary(),
    }
}

/// Reads a parameter of a plain input function. A function that takes
/// `self` is no input function, and is refused by the caller.
pub fn parse_input<T>(input: ArgShape<T>) -> (r: Result<ParsedInput<T>, SyntaxError<T>>)
    requires
        arg_is_readable(input),
    ensures
        r == parsed_param(arg_param(input)),
{
    match input {
        ArgShape::Typed { param, .. } => parse_param(param),
        ArgShape::Receiver { tokens } => Err(SyntaxError { kind: SyntaxErrorKind::InputCannotHaveSelf, span: tokens }),
    }
}

/// How one element of a tuple parameter reads: a reference to a component
/// (by the last segment of its path), or `Entity` (by its first segment);
/// another path is refused at the whole tuple `whole`, anything else at the
/// element.
pub open spec fn tuple_elem_type<T>(elem: TypeShape<T>, whole: T) -> Result<T, SyntaxError<T>> {
    match elem {
        TypeShape::Reference { elem, .. } => match elem {
            ElemShape::Path { segments } => Ok(segments@.last().tokens),
            ElemShape::Other { tokens } => Err(syntax_error(SyntaxErrorKind::ExpectedComponent, tokens)),
        },
        TypeShape::Path { segments, .. } => if segments@.len() > 0 && segments@[0].name@ == "Entity"@ {
            Ok(segments@[0].tokens)
        } else {
            Err(syntax_error(SyntaxErrorKind::RequiresReference, whole))
        },
        TypeShape::Tuple { tokens, .. } => Err(syntax_error(SyntaxErrorKind::ExpectedReference, tokens)),
        TypeShape::Other { tokens } => Err(syntax_error(SyntaxErrorKind::ExpectedReference, tokens)),
    }
}

/// How the elements of a tuple parameter read, in order: the types of all
/// of them, or the refusal of the first one that is refused.
pub open spec fn tuple_elem_types<T>(elems: Seq<TypeShape<T>>, whole: T) -> Result<Seq<T>, SyntaxError<T>>
    decreases elems.len(),
{
    if elems.len() == 0 {
        Ok(Seq::empty())
    } else {
        match tuple_elem_types(elems.drop_last(), whole) {
            Err(e) => Err(e),
            Ok(types) => match tuple_elem_type(elems.last(), whole) {
                Err(e) => Err(e),
                Ok(t) => Ok(types.push(t)),
            },
        }
    }
}

/// Once an element of a tuple is refused, the tuple is refused for it,
/// whatever elements follow.
pub proof fn lemma_tuple_error_persists<T>(s: Seq<TypeShape<T>>, t: Seq<TypeShape<T>>, whole: T)
    ensures
        tuple_elem_types(s, whole) is Err ==> tuple_elem_types(s + t, whole) == tuple_elem_types(s, whole),
    decreases t.len(),
{
    if t.len() == 0 {
        assert(s + t =~= s);
    } else {
        lemma_tuple_error_persists(s, t.drop_last(), whole);
        assert((s + t).drop_last() =~= s + t.drop_last());
    }
}

/// How a tuple parameter (the subject or the target of a targeted input
/// function) reads.
pub open spec fn parsed_tuple_param<T>(param: ParamShape<T>) -> Result<(T, Seq<T>), SyntaxError<T>> {
    match param.pat {
        PatShape::Other { tokens } => Err(syntax_error(SyntaxErrorKind::ExpectedIdentity, tokens)),
        PatShape::Ident { ident, .. } => match param.ty {
            TypeShape::Tuple { elems, tokens } => match tuple_elem_types(elems@, tokens) {
                Err(e) => Err(e),
                Ok(types) => Ok((ident, types)),
            },
            TypeShape::Reference { tokens, .. } => Err(syntax_error(SyntaxErrorKind::ExpectedTuple, tokens)),
            TypeShape::Path { tokens, .. } => Err(syntax_error(SyntaxErrorKind::ExpectedTuple, tokens)),
            TypeShape::Other { tokens } => Err(syntax_error(SyntaxErrorKind::ExpectedTuple, tokens)),
        },
    }
}

/// The mathematical value of a read tuple parameter.
pub open spec fn tuple_view<T>(r: Result<ParsedTupleInput<T>, SyntaxError<T>>) -> Result<(T, Seq<T>), SyntaxError<T>> {
    match r {
        Ok(p) => Ok((p.ident, p.arg_types@)),
        Err(e) => Err(e),
    }
}

/// Reads a tuple parameter, as [`parsed_tuple_param`] says.
pub fn parse_tuple_param<T>(param: ParamShape<T>) -> (r: Result<ParsedTupleInput<T>, SyntaxError<T>>)
    requires
        param_is_readable(param),
    ensures
        tuple_view(r) == parsed_tuple_param(param),
{
    let ghost p = param;
    let ParamShape { pat, ty } = param;
    let ident = match pat {
        PatShape::Other { tokens } => {
            return Err(SyntaxError { kind: SyntaxErrorKind::ExpectedIdentity, span: tokens });
        },
        PatShape::Ident { ident, .. } => ident,
    };
    match ty {
        TypeShape::Tuple { elems, tokens } => {
            let ghost all = elems@;
            let ghost gtokens = tokens;
            let mut elems = elems;
            let mut arg_types: Vec<T> = Vec::new();
            let mut k: usize = 0;
            let n = elems.len();
            while elems.len() > 0
                invariant
                    n == all.len(),
                    k + elems@.len() == n,
                    elems@ == all.subrange(k as int, n as int),
                    gtokens == tokens,
                    p == param,
                    parsed_tuple_param(p) == (match tuple_elem_types(all, gtokens) {
                        Err(e) => Err(e),
                        Ok(types) => Ok((ident, types)),
                    }),
                    forall|i: int| 0 <= i < all.len() ==> (#[trigger] all[i] matches TypeShape::Reference {
                        elem: ElemShape::Path { segments },
                        ..
                    } ==> segments@.len() > 0),
                    tuple_elem_types(all.take(k as int), gtokens) == Ok::<Seq<T>, SyntaxError<T>>(arg_types@),
                decreases elems.len(),
            {
                let e = elems.remove(0);
                proof {
                    assert(e == all[k as int]);
                    assert(all.take(k + 1).drop_last() =~= all.take(k as int));
                    assert(all.take(k + 1).last() == all[k as int]);
                    assert(elems@ =~= all.subrange(k + 1, n as int));
                    lemma_tuple_error_persists(all.take(k + 1), all.subrange(k + 1, n as int), gtokens);
                    assert(all.take(k + 1) + all.subrange(k + 1, n as int) =~= all);
                }
                let elem_type = match e {
                    TypeShape::Reference { elem, .. } => match elem {
                        ElemShape::Path { segments } => {
                            let mut segments = segments;
                            match segments.pop() {
                                Some(segment) => segment.tokens,
                                None => {
                                    return Err(SyntaxError { kind: SyntaxErrorKind::ExpectedComponent, span: tokens });
                                },
                            }
                        },
                        ElemShape::Other { tokens } => {
                            return Err(SyntaxError { kind: SyntaxErrorKind::ExpectedComponent, span: tokens });
                        },
                    },
                    TypeShape::Path { segments, .. } => {
                        if segments.len() > 0 && name_is(&segments[0].name, "Entity") {
                            let mut segments = segments;
                            segments.remove(0).tokens
                        } else {
                            return Err(SyntaxError { kind: SyntaxErrorKind::RequiresReference, span: tokens });
                        }
                    },
                    TypeShape::Tuple { tokens, .. } => {
                        return Err(SyntaxError { kind: SyntaxErrorKind::ExpectedReference, span: tokens });
                    },
                    TypeShape::Other { tokens } => {
                        return Err(SyntaxError { kind: SyntaxErrorKind::ExpectedReference, span: tokens });
                    },
                };
                arg_types.push(elem_type);
                k = k + 1;
            }
            assert(all.take(n as int) =~= all);
            Ok(ParsedTupleInput { ident, arg_types })
        },
        TypeShape::Reference { tokens, .. } => Err(SyntaxError { kind: SyntaxErrorKind::ExpectedTuple, span: tokens }),
        TypeShape::Path { tokens, .. } => Err(SyntaxError { kind: SyntaxErrorKind::ExpectedTuple, span: tokens }),
        TypeShape::Other { tokens } => Err(SyntaxError { kind: SyntaxErrorKind::ExpectedTuple, span: tokens }),
    }
}

/// Reads a tuple parameter of a function argument. A function that takes
/// `self` is no input function, and is refused by the caller.
pub fn parse_tuple_input<T>(input: ArgShape<T>) -> (r: Result<ParsedTupleInput<T>, SyntaxError<T>>)
    requires
        arg_is_readable(input),
    ensures
        tuple_view(r) == parsed_tuple_param(arg_param(input)),
{
    match input {
        ArgShape::Typed { param, .. } => parse_tuple_param(param),
        ArgShape::Receiver { tokens } => Err(SyntaxError { kind: SyntaxErrorKind::InputCannotHaveSelf, span: tokens }),
    }
}

/// The parameters of a function read so far: its subject, its target and
/// its resource parameters, in order.
pub type ScanState<T> = (Option<(T, Seq<T>)>, Option<(T, Seq<T>)>, Seq<ParsedInput<T>>);

/// One parameter of a targeted input function: the parameter named
/// `subject` or `target` (each at most once) is a tuple of components; any
/// other must be a resource.
pub open spec fn targeted_step<T>(state: ScanState<T>, arg: ArgShape<T>) -> Result<ScanState<T>, SyntaxError<T>> {
    match arg {
        ArgShape::Receiver { tokens } => Err(syntax_error(SyntaxErrorKind::InputCannotHaveSelf, tokens)),
        ArgShape::Typed { tokens, param } => match param.pat {
            PatShape::Other { tokens: pattern } => Err(syntax_error(SyntaxErrorKind::ExpectedIdentity, pattern)),
            PatShape::Ident { name, .. } => if name@ == "subject"@ {
                if state.0 is Some {
                    Err(syntax_error(SyntaxErrorKind::DuplicateSubject, tokens))
                } else {
                    match parsed_tuple_param(param) {
                        Err(e) => Err(e),
                        Ok(t) => Ok((Some(t), state.1, state.2)),
                    }
                }
            } else if name@ == "target"@ {
                if state.1 is Some {
                    Err(syntax_error(SyntaxErrorKind::DuplicateTarget, tokens))
                } else {
                    match parsed_tuple_param(param) {
                        Err(e) => Err(e),
                        Ok(t) => Ok((state.0, Some(t), state.2)),
                    }
                }
            } else {
                match parsed_param(param) {
                    Err(e) => Err(e),
                    Ok(p) => if p.sig_type == SigType::Extra {
                        Ok((state.0, state.1, state.2.push(p)))
                    } else {
                        Err(syntax_error(SyntaxErrorKind::InvalidExtraInput, tokens))
                    },
                }
            },
        },
    }
}

/// The parameters of a targeted input function read in order, up to the
/// first refusal.
pub open spec fn targeted_scan<T>(args: Seq<ArgShape<T>>) -> Result<ScanState<T>, SyntaxError<T>>
    decreases args.len(),
{
    if args.len() == 0 {
        Ok((None, None, Seq::empty()))
    } else {
        match targeted_scan(args.drop_last()) {
            Err(e) => Err(e),
            Ok(state) => targeted_step(state, args.last()),
        }
    }
}

/// Once a parameter is refused, the signature is refused for it, whatever
/// parameters follow.
pub proof fn lemma_scan_error_persists<T>(s: Seq<ArgShape<T>>, t: Seq<ArgShape<T>>)
    ensures
        targeted_scan(s) is Err ==> targeted_scan(s + t) == targeted_scan(s),
    decreases t.len(),
{
    if t.len() == 0 {
        assert(s + t =~= s);
    } else {
        lemma_scan_error_persists(s, t.drop_last());
        assert((s + t).drop_last() =~= s + t.drop_last());
    }
}

/// How the signature of a targeted input function reads: it needs at least
/// one parameter, and a target; the subject is optional.
pub open spec fn targeted_signature<T>(inputs: T, args: Seq<ArgShape<T>>) -> Result<ScanState<T>, SyntaxError<T>> {
    if args.len() == 0 {
        Err(syntax_error(SyntaxErrorKind::ExpectedAtLeastOneInput, inputs))
    } else {
        match targeted_scan(args) {
            Err(e) => Err(e),
            Ok(state) => if state.1 is None {
                Err(syntax_error(SyntaxErrorKind::MissingTarget, inputs))
            } else {
                Ok(state)
            },
        }
    }
}

/// The read signature of a targeted input function.
pub struct TargetedSignature<T> {
    pub subject: Option<ParsedTupleInput<T>>,
    pub target: ParsedTupleInput<T>,
    pub extras: Vec<ParsedInput<T>>,
}

/// The mathematical value of an optional read tuple parameter.
pub open spec fn tuple_opt_view<T>(o: Option<ParsedTupleInput<T>>) -> Option<(T, Seq<T>)> {
    match o {
        None => None,
        Some(p) => Some((p.ident, p.arg_types@)),
    }
}

/// The mathematical value of a read targeted signature.
pub open spec fn targeted_view<T>(r: Result<TargetedSignature<T>, SyntaxError<T>>) -> Result<ScanState<T>, SyntaxError<T>> {
    match r {
        Err(e) => Err(e),
        Ok(s) => Ok((
            match s.subject {
                None => None,
                Some(p) => Some((p.ident, p.arg_types@)),
            },
            Some((s.target.ident, s.target.arg_types@)),
            s.extras@,
        )),
    }
}

/// The parameters of a function, where typed, are readable.
pub open spec fn typed_args_readable<T>(args: Seq<ArgShape<T>>) -> bool {
    forall|i: int| 0 <= i < args.len() ==> (#[trigger] args[i] matches ArgShape::Typed { param, .. } ==> param_is_readable(param))
}

/// Reads the signature of a targeted input function; `inputs` are the
/// tokens of its whole parameter list.
pub fn targeted_input_signature<T>(inputs: T, args: Vec<ArgShape<T>>) -> (r: Result<TargetedSignature<T>, SyntaxError<T>>)
    requires
        typed_args_readable(args@),
    ensures
        targeted_view(r) == targeted_signature(inputs, args@),
{
    if args.len() == 0 {
        return Err(SyntaxError { kind: SyntaxErrorKind::ExpectedAtLeastOneInput, span: inputs });
    }
    let ghost all = args@;
    let n = args.len();
    let mut rest = args;
    let mut subject: Option<ParsedTupleInput<T>> = None;
    let mut target: Option<ParsedTupleInput<T>> = None;
    let mut extras: Vec<ParsedInput<T>> = Vec::new();
    let mut k: usize = 0;
    while rest.len() > 0
        invariant
            n == all.len(),
            k + rest@.len() == n,
            rest@ == all.subrange(k as int, n as int),
            all == args@,
            all.len() > 0,
            typed_args_readable(all),
            targeted_scan(all.take(k as int)) == Ok::<ScanState<T>, SyntaxError<T>>((
                tuple_opt_view(subject),
                tuple_opt_view(target),
                extras@,
            )),
        decreases rest.len(),
    {
        let arg = rest.remove(0);
        let ghost state = (
            tuple_opt_view(subject),
            tuple_opt_view(target),
            extras@,
        );
        proof {
            assert(arg == all[k as int]);
            assert(all.take(k + 1).drop_last() =~= all.take(k as int));
            assert(all.take(k + 1).last() == all[k as int]);
            assert(rest@ =~= all.subrange(k + 1, n as int));
            lemma_scan_error_persists(all.take(k + 1), all.subrange(k + 1, n as int));
            assert(all.take(k + 1) + all.subrange(k + 1, n as int) =~= all);
            assert(targeted_scan(all.take(k + 1)) == targeted_step(state, arg));
        }
        match arg {
            ArgShape::Receiver { tokens } => {
                return Err(SyntaxError { kind: SyntaxErrorKind::InputCannotHaveSelf, span: tokens });
            },
            ArgShape::Typed { tokens, param } => {
                let is_subject;
                let is_target;
                match &param.pat {
                    PatShape::Other { .. } => {
                        let ParamShape { pat, .. } = param;
                        match pat {
                            PatShape::Other { tokens: pattern } => {
                                return Err(SyntaxError { kind: SyntaxErrorKind::ExpectedIdentity, span: pattern });
                            },
                            PatShape::Ident { ident, .. } => {
                                return Err(SyntaxError { kind: SyntaxErrorKind::ExpectedIdentity, span: ident });
                            },
                        }
                    },
                    PatShape::Ident { name, .. } => {
                        is_subject = name_is(name, "subject");
                        is_target = name_is(name, "target");
                    },
                }
                if is_subject {
                    if subject.is_some() {
                        return Err(SyntaxError { kind: SyntaxErrorKind::DuplicateSubject, span: tokens });
                    }
                    match parse_tuple_param(param) {
                        Err(e) => { return Err(e); },
                        Ok(t) => { subject = Some(t); },
                    }
                } else if is_target {
                    if target.is_some() {
                        return Err(SyntaxError { kind: SyntaxErrorKind::DuplicateTarget, span: tokens });
                    }
                    match parse_tuple_param(param) {
                        Err(e) => { return Err(e); },
                        Ok(t) => { target = Some(t); },
                    }
                } else {
                    match parse_param(param) {
                        Err(e) => { return Err(e); },
                        Ok(p) => {
                            if p.sig_type == SigType::Extra {
                                extras.push(p);
                            } else {
                                return Err(SyntaxError { kind: SyntaxErrorKind::InvalidExtraInput, span: tokens });
                            }
                        },
                    }
                }
            },
        }
        k = k + 1;
    }
    proof {
        assert(all.take(n as int) =~= all);
    }
    match target {
        None => Err(SyntaxError { kind: SyntaxErrorKind::MissingTarget, span: inputs }),
        Some(target) => Ok(TargetedSignature { subject, target, extras }),
    }
}

/// How the parameters of a plain input function read, in order, up to the
/// first refusal.
pub open spec fn parsed_params<T>(args: Seq<ArgShape<T>>) -> Result<Seq<ParsedInput<T>>, SyntaxError<T>>
    decreases args.len(),
{
    if args.len() == 0 {
        Ok(Seq::empty())
    } else {
        match parsed_params(args.drop_last()) {
            Err(e) => Err(e),
            Ok(ps) => match parsed_param(arg_param(args.last())) {
                Err(e) => Err(e),
                Ok(p) => Ok(ps.push(p)),
            },
        }
    }
}

/// Once a parameter is refused, the signature is refused for it, whatever
/// parameters follow.
pub proof fn lemma_params_error_persists<T>(s: Seq<ArgShape<T>>, t: Seq<ArgShape<T>>)
    ensures
        parsed_params(s) is Err ==> parsed_params(s + t) == parsed_params(s),
    decreases t.len(),
{
    if t.len() == 0 {
        assert(s + t =~= s);
    } else {
        lemma_params_error_persists(s, t.drop_last());
        assert((s + t).drop_last() =~= s + t.drop_last());
    }
}

/// Reads the parameters of a plain input function, in order. Every
/// parameter must be a readable typed one (an input function has no `self`).
pub fn input_system_signature<T>(args: Vec<ArgShape<T>>) -> (r: Result<Vec<ParsedInput<T>>, SyntaxError<T>>)
    requires
        forall|i: int| 0 <= i < args@.len() ==> #[trigger] arg_is_readable(args@[i]),
    ensures
        match r {
            Ok(ps) => parsed_params(args@) == Ok::<Seq<ParsedInput<T>>, SyntaxError<T>>(ps@),
            Err(e) => parsed_params(args@) == Err::<Seq<ParsedInput<T>>, SyntaxError<T>>(e),
        },
{
    let ghost all = args@;
    let n = args.len();
    let mut rest = args;
    let mut parsed: Vec<ParsedInput<T>> = Vec::new();
    let mut k: usize = 0;
    while rest.len() > 0
        invariant
            n == all.len(),
            k + rest@.len() == n,
            rest@ == all.subrange(k as int, n as int),
            all == args@,
            forall|i: int| 0 <= i < all.len() ==> #[trigger] arg_is_readable(all[i]),
            parsed_params(all.take(k as int)) == Ok::<Seq<ParsedInput<T>>, SyntaxError<T>>(parsed@),
        decreases rest.len(),
    {
        let arg = rest.remove(0);
        proof {
            assert(arg == all[k as int]);
            assert(arg_is_readable(all[k as int]));
            assert(all.take(k + 1).drop_last() =~= all.take(k as int));
            assert(all.take(k + 1).last() == all[k as int]);
            assert(rest@ =~= all.subrange(k + 1, n as int));
            lemma_params_error_persists(all.take(k + 1), all.subrange(k + 1, n as int));
            assert(all.take(k + 1) + all.subrange(k + 1, n as int) =~= all);
        }
        match parse_input(arg) {
            Err(e) => { return Err(e); },
            Ok(p) => { parsed.push(p); },
        }
        k = k + 1;
    }
    proof {
        assert(all.take(n as int) =~= all);
    }
    Ok(parsed)
}

/// The components and the resources among read parameters, each in order;
/// the entity parameter belongs to neither.
pub fn split_inputs<T>(parsed: Vec<ParsedInput<T>>) -> (r: (Vec<ParsedInput<T>>, Vec<ParsedInput<T>>))
    ensures
        r.0@ == parsed@.filter(|p: ParsedInput<T>| p.sig_type == SigType::Component),
        r.1@ == parsed@.filter(|p: ParsedInput<T>| p.sig_type == SigType::Extra),
{
    let ghost all = parsed@;
    let n = parsed.len();
    let mut parsed = parsed;
    let mut components: Vec<ParsedInput<T>> = Vec::new();
    let mut extras: Vec<ParsedInput<T>> = Vec::new();
    let mut k: usize = 0;
    while parsed.len() > 0
        invariant
            n == all.len(),
            k + parsed@.len() == n,
            parsed@ == all.subrange(k as int, n as int),
            components@ == all.take(k as int).filter(|p: ParsedInput<T>| p.sig_type == SigType::Component),
            extras@ == all.take(k as int).filter(|p: ParsedInput<T>| p.sig_type == SigType::Extra),
        decreases parsed.len(),
    {
        let p = parsed.remove(0);
        proof {
            assert(p == all[k as int]);
            assert(all.take(k + 1).drop_last() =~= all.take(k as int));
            assert(parsed@ =~= all.subrange(k + 1, n as int));
            reveal_with_fuel(Seq::filter, 1);
        }
        match p.sig_type {
            SigType::Component => { components.push(p); },
            SigType::Extra => { extras.push(p); },
            SigType::Entity => {},
        }
        k = k + 1;
    }
    proof {
        assert(all.take(n as int) =~= all);
    }
    (components, extras)
}

/// How the signature of a target selector reads: exactly one parameter, a
/// plain identifier of a path type; the identifier and the type come back.
pub open spec fn target_selector_signature_of<T>(inputs: T, args: Seq<ArgShape<T>>) -> Result<(T, T), SyntaxError<T>> {
    if args.len() != 1 {
        Err(syntax_error(SyntaxErrorKind::ExpectedOneArgument, inputs))
    } else {
        match args[0] {
            ArgShape::Receiver { tokens } => Err(syntax_error(SyntaxErrorKind::InputCannotHaveSelf, tokens)),
            ArgShape::Typed { tokens, param } => match param.pat {
                PatShape::Other { .. } => Err(syntax_error(SyntaxErrorKind::ExpectedIdentityHere, tokens)),
                PatShape::Ident { ident, .. } => match param.ty {
                    TypeShape::Path { tokens: ty, .. } => Ok((ident, ty)),
                    _ => Err(syntax_error(SyntaxErrorKind::ExpectedTypePath, tokens)),
                },
            },
        }
    }
}

/// Reads the signature of a target selector. A selector that takes `self`
/// is refused by the caller.
pub fn target_selector_signature<T>(inputs: T, args: Vec<ArgShape<T>>) -> (r: Result<(T, T), SyntaxError<T>>)
    requires
        args@.len() == 1 ==> args@[0] is Typed,
    ensures
        r == target_selector_signature_of(inputs, args@),
{
    if args.len() != 1 {
        return Err(SyntaxError { kind: SyntaxErrorKind::ExpectedOneArgument, span: inputs });
    }
    let mut args = args;
    let ghost all = args@;
    let arg = args.remove(0);
    assert(arg == all[0]);
    match arg {
        ArgShape::Receiver { tokens } => Err(SyntaxError { kind: SyntaxErrorKind::InputCannotHaveSelf, span: tokens }),
        ArgShape::Typed { tokens, param } => {
            let ParamShape { pat, ty } = param;
            match pat {
                PatShape::Other { .. } => Err(SyntaxError { kind: SyntaxErrorKind::ExpectedIdentityHere, span: tokens }),
                PatShape::Ident { ident, .. } => match ty {
                    TypeShape::Path { tokens: ty_tokens, .. } => Ok((ident, ty_tokens)),
                    _ => Err(SyntaxError { kind: SyntaxErrorKind::ExpectedTypePath, span: tokens }),
                },
            }
        },
    }
}

} // verus!
