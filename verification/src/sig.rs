//! The signature validator: decides whether a function may be lowered, and
//! extracts its parameters and the type of the items it produces.

use crate::utils::same_text;
use vstd::prelude::*;

verus! {

/// The pattern that binds a parameter.
#[derive(Clone, Debug, PartialEq, Eq)]
pub enum Pat {
    /// A plain binding: `x`, `mut x`, `ref x`, `x @ ..`.
    Ident { ident: String, by_ref: bool, subpat: bool },
    /// Any other pattern.
    Other,
}

/// One declared input of a function.
#[derive(Clone, Debug, PartialEq, Eq)]
pub enum FnArg<T> {
    /// `self` in any of its forms.
    Receiver,
    /// A pattern with its type.
    Typed { pat: Pat, ty: T },
}

/// One argument between the angle brackets of a path segment.
#[derive(Clone, Debug, PartialEq, Eq)]
pub enum GenericArgument<T> {
    /// An associated type bound to a type: `Item = T`.
    Binding { ident: String, ty: T },
    Other,
}

/// The arguments of a path segment.
#[derive(Clone, Debug, PartialEq, Eq)]
pub enum PathArguments<T> {
    /// None are written.
    Absent,
    AngleBracketed(Vec<GenericArgument<T>>),
    Parenthesized,
}

/// One segment of a path, with its arguments.
#[derive(Clone, Debug, PartialEq, Eq)]
pub struct PathSegment<T> {
    pub ident: String,
    pub arguments: PathArguments<T>,
}

/// One bound of an `impl` type.
#[derive(Clone, Debug, PartialEq, Eq)]
pub enum TypeParamBound<T> {
    /// A trait, given by the segments of its path.
    Trait(Vec<PathSegment<T>>),
    Lifetime,
}

/// What the validator reads of a type.
#[derive(Clone, Debug, PartialEq, Eq)]
pub enum Type<T> {
    /// `impl Bound1 + Bound2 + ..`
    ImplTrait(Vec<TypeParamBound<T>>),
    Other,
}

/// The declared return type of a function.
#[derive(Clone, Debug, PartialEq, Eq)]
pub enum ReturnType<T> {
    /// None is written.
    Default,
    Type(Type<T>),
}

/// A function signature. `T` is the type of a type node, which the
/// validator carries along and never looks into.
#[derive(Clone, Debug, PartialEq, Eq)]
pub struct Signature<T> {
    pub constness: bool,
    pub asyncness: bool,
    pub unsafety: bool,
    pub abi: bool,
    pub variadic: bool,
    pub ident: String,
    pub inputs: Vec<FnArg<T>>,
    pub output: ReturnType<T>,
}

/// The part of a signature that a rejection points at.
#[derive(Clone, Copy, PartialEq, Eq, Structural, Debug)]
pub enum Site {
    Constness,
    Asyncness,
    Unsafety,
    Abi,
    Variadic,
    /// The whole input at this position.
    Input(usize),
    /// The `ref` of the input at this position.
    ByRef(usize),
    /// The subpattern of the input at this position.
    Subpattern(usize),
    Output,
}

/// Why a signature cannot be lowered. The number is the position of the
/// offending input.
#[derive(Clone, Copy, PartialEq, Eq, Structural, Debug)]
pub enum Rejection {
    Const,
    Async,
    Unsafe,
    Extern,
    Variadic,
    Receiver,
    Reference(usize),
    Subpattern(usize),
    Pattern(usize),
    ReturnType,
}

impl Rejection {
    /// The fixed message of the rejection.
    pub open spec fn text(self) -> Seq<char> {
        match self {
            Rejection::Const => "iterator cannot be const"@,
            Rejection::Async => "iterator cannot be async"@,
            Rejection::Unsafe => "iterator cannot be unsafe"@,
            Rejection::Extern => "iterator cannot be extern"@,
            Rejection::Variadic => "iterator cannot have variadic parameters"@,
            Rejection::Receiver => "iterator cannot have a method receiver (self)"@,
            Rejection::Reference(_) => "iterator cannot have reference arguments"@,
            Rejection::Subpattern(_) => "iterator cannot have argument subpatterns"@,
            Rejection::Pattern(_) => "iterator cannot have a pattern arguments"@,
            Rejection::ReturnType => "return type must be `-> impl Iterator<Item = XXX>`"@,
        }
    }

    /// The fixed message of the rejection.
    pub fn message(&self) -> (message: &'static str)
        ensures
            message@ == self.text(),
    {
        match self {
            Rejection::Const => "iterator cannot be const",
            Rejection::Async => "iterator cannot be async",
            Rejection::Unsafe => "iterator cannot be unsafe",
            Rejection::Extern => "iterator cannot be extern",
            Rejection::Variadic => "iterator cannot have variadic parameters",
            Rejection::Receiver => "iterator cannot have a method receiver (self)",
            Rejection::Reference(_) => "iterator cannot have reference arguments",
            Rejection::Subpattern(_) => "iterator cannot have argument subpatterns",
            Rejection::Pattern(_) => "iterator cannot have a pattern arguments",
            Rejection::ReturnType => "return type must be `-> impl Iterator<Item = XXX>`",
        }
    }

    /// The smallest part of the signature that is responsible.
    pub open spec fn place(self) -> Site {
        match self {
            Rejection::Const => Site::Constness,
            Rejection::Async => Site::Asyncness,
            Rejection::Unsafe => Site::Unsafety,
            Rejection::Extern => Site::Abi,
            Rejection::Variadic => Site::Variadic,
            Rejection::Receiver => Site::Input(0),
            Rejection::Reference(at) => Site::ByRef(at),
            Rejection::Subpattern(at) => Site::Subpattern(at),
            Rejection::Pattern(at) => Site::Input(at),
            Rejection::ReturnType => Site::Output,
        }
    }

    /// The smallest part of the signature that is responsible.
    pub fn site(&self) -> (site: Site)
        ensures
            site == self.place(),
    {
        match self {
            Rejection::Const => Site::Constness,
            Rejection::Async => Site::Asyncness,
            Rejection::Unsafe => Site::Unsafety,
            Rejection::Extern => Site::Abi,
            Rejection::Variadic => Site::Variadic,
            Rejection::Receiver => Site::Input(0),
            Rejection::Reference(at) => Site::ByRef(*at),
            Rejection::Subpattern(at) => Site::Subpattern(*at),
            Rejection::Pattern(at) => Site::Input(*at),
            Rejection::ReturnType => Site::Output,
        }
    }
}

/// A parameter: its name and its type.
pub type IterParams<T> = (String, T);

/// What a valid signature yields: its parameters in declared order, and the
/// type of the items produced.
pub type IterSig<T> = (Vec<IterParams<T>>, T);

/// The only element of `items`, if there is exactly one.
pub open spec fn sole<A>(items: Seq<A>) -> Option<A> {
    if items.len() == 1 {
        Some(items[0])
    } else {
        None
    }
}

/// The only bound of the return type, if that is an `impl` type with
/// exactly one bound.
pub open spec fn sole_bound<T>(output: ReturnType<T>) -> Option<TypeParamBound<T>> {
    match output {
        ReturnType::Type(Type::ImplTrait(bounds)) => sole(bounds@),
        _ => None,
    }
}

/// The only path segment of the bound, if it is a trait bound with exactly
/// one segment and that segment is called `Iterator`.
pub open spec fn iterator_segment<T>(bound: TypeParamBound<T>) -> Option<PathSegment<T>> {
    match bound {
        TypeParamBound::Trait(segments) => match sole(segments@) {
            Some(segment) => if segment.ident@ == "Iterator"@ {
                Some(segment)
            } else {
                None
            },
            None => None,
        },
        TypeParamBound::Lifetime => None,
    }
}

/// The only generic argument of the segment, if it has exactly one between
/// angle brackets.
pub open spec fn sole_argument<T>(segment: PathSegment<T>) -> Option<GenericArgument<T>> {
    match segment.arguments {
        PathArguments::AngleBracketed(args) => sole(args@),
        _ => None,
    }
}

/// The type that the argument binds to `Item`, if it is such a binding.
pub open spec fn item_binding<T>(arg: GenericArgument<T>) -> Option<T> {
    match arg {
        GenericArgument::Binding { ident, ty } => if ident@ == "Item"@ {
            Some(ty)
        } else {
            None
        },
        GenericArgument::Other => None,
    }
}

/// The item type `T` of a return type of the exact form
/// `impl Iterator<Item = T>`; `None` for any other return type.
pub open spec fn item_type<T>(output: ReturnType<T>) -> Option<T> {
    match sole_bound(output) {
        Some(bound) => match iterator_segment(bound) {
            Some(segment) => match sole_argument(segment) {
                Some(arg) => item_binding(arg),
                None => None,
            },
            None => None,
        },
        None => None,
    }
}

fn take_sole<A>(items: Vec<A>) -> (only: Option<A>)
    ensures
        only == sole(items@),
{
    let mut items = items;
    if items.len() == 1 {
        items.pop()
    } else {
        None
    }
}

fn take_sole_bound<T>(output: ReturnType<T>) -> (bound: Option<TypeParamBound<T>>)
    ensures
        bound == sole_bound(output),
{
    match output {
        ReturnType::Type(Type::ImplTrait(bounds)) => take_sole(bounds),
        _ => None,
    }
}

fn take_iterator_segment<T>(bound: TypeParamBound<T>) -> (segment: Option<PathSegment<T>>)
    ensures
        segment == iterator_segment(bound),
{
    match bound {
        TypeParamBound::Trait(segments) => {
            let segment = take_sole(segments)?;
            if same_text(segment.ident.as_str(), "Iterator") {
                Some(segment)
            } else {
                None
            }
        },
        TypeParamBound::Lifetime => None,
    }
}

fn take_sole_argument<T>(segment: PathSegment<T>) -> (arg: Option<GenericArgument<T>>)
    ensures
        arg == sole_argument(segment),
{
    match segment.arguments {
        PathArguments::AngleBracketed(args) => take_sole(args),
        _ => None,
    }
}

fn take_item_binding<T>(arg: GenericArgument<T>) -> (ty: Option<T>)
    ensures
        ty == item_binding(arg),
{
    match arg {
        GenericArgument::Binding { ident, ty } => {
            if same_text(ident.as_str(), "Item") {
                Some(ty)
            } else {
                None
            }
        },
        GenericArgument::Other => None,
    }
}

/// Extracts `T` from a return type of the exact form
/// `impl Iterator<Item = T>`.
pub fn get_iter_item_type<T>(ret_type: ReturnType<T>) -> (ty: Option<T>)
    ensures
        ty == item_type(ret_type),
{
    let bound = take_sole_bound(ret_type)?;
    let segment = take_iterator_segment(bound)?;
    let arg = take_sole_argument(segment)?;
    take_item_binding(arg)
}

/// What is wrong with the input at position `index`, if anything. An input
/// must bind its whole value to one name, by value. A receiver is no fault
/// here: it has one only in first position, and then `rejection` says so.
pub open spec fn input_fault<T>(arg: FnArg<T>, index: int) -> Option<Rejection> {
    match arg {
        FnArg::Receiver => None,
        FnArg::Typed { pat: Pat::Ident { ident, by_ref, subpat }, ty } => if by_ref {
            Some(Rejection::Reference(index as usize))
        } else if subpat {
            Some(Rejection::Subpattern(index as usize))
        } else {
            None
        },
        FnArg::Typed { pat: Pat::Other, ty } => Some(Rejection::Pattern(index as usize)),
    }
}

/// The fault of the first faulty input, if there is one.
pub open spec fn first_input_fault<T>(inputs: Seq<FnArg<T>>) -> Option<Rejection>
    decreases inputs.len(),
{
    if inputs.len() == 0 {
        None
    } else {
        match first_input_fault(inputs.drop_last()) {
            Some(fault) => Some(fault),
            None => input_fault(inputs.last(), inputs.len() - 1),
        }
    }
}

/// The name and type of every input that binds a name, in declared order.
pub open spec fn params_of<T>(inputs: Seq<FnArg<T>>) -> Seq<IterParams<T>>
    decreases inputs.len(),
{
    if inputs.len() == 0 {
        Seq::empty()
    } else {
        match inputs.last() {
            FnArg::Typed { pat: Pat::Ident { ident, by_ref, subpat }, ty } => params_of(
                inputs.drop_last(),
            ).push((ident, ty)),
            _ => params_of(inputs.drop_last()),
        }
    }
}

impl<T> Signature<T> {
    /// Why the signature cannot be lowered; `None` when it can. Of several
    /// reasons the first applies, in this order: the modifiers `const`,
    /// `async`, `unsafe` and `extern`, a variadic parameter, a receiver, the
    /// inputs from left to right, the return type.
    pub open spec fn rejection(self) -> Option<Rejection> {
        if self.constness {
            Some(Rejection::Const)
        } else if self.asyncness {
            Some(Rejection::Async)
        } else if self.unsafety {
            Some(Rejection::Unsafe)
        } else if self.abi {
            Some(Rejection::Extern)
        } else if self.variadic {
            Some(Rejection::Variadic)
        } else if self.inputs@.len() > 0 && self.inputs@[0] is Receiver {
            Some(Rejection::Receiver)
        } else if first_input_fault(self.inputs@) is Some {
            first_input_fault(self.inputs@)
        } else if item_type(self.output) is None {
            Some(Rejection::ReturnType)
        } else {
            None
        }
    }
}

/// The first fault among the inputs is the fault of the leftmost faulty
/// input, and there is none only if no input is faulty.
pub proof fn lemma_first_input_fault<T>(inputs: Seq<FnArg<T>>)
    ensures
        match first_input_fault(inputs) {
            Some(fault) => exists|i: int|
                {
                    &&& 0 <= i < inputs.len()
                    &&& #[trigger] input_fault(inputs[i], i) == Some(fault)
                    &&& forall|j: int| 0 <= j < i ==> input_fault(#[trigger] inputs[j], j) is None
                },
            None => forall|i: int|
                0 <= i < inputs.len() ==> input_fault(#[trigger] inputs[i], i) is None,
        },
    decreases inputs.len(),
{
    if inputs.len() > 0 {
        let before = inputs.drop_last();
        lemma_first_input_fault(before);
        match first_input_fault(before) {
            Some(fault) => {
                let i = choose|i: int|
                    {
                        &&& 0 <= i < before.len()
                        &&& #[trigger] input_fault(before[i], i) == Some(fault)
                        &&& forall|j: int|
                            0 <= j < i ==> input_fault(#[trigger] before[j], j) is None
                    };
                assert(input_fault(inputs[i], i) == Some(fault));
                assert forall|j: int| 0 <= j < i implies input_fault(
                    #[trigger] inputs[j],
                    j,
                ) is None by {
                    assert(before[j] == inputs[j]);
                }
            },
            None => {
                let last = inputs.len() - 1;
                assert forall|j: int| 0 <= j < last implies input_fault(
                    #[trigger] inputs[j],
                    j,
                ) is None by {
                    assert(before[j] == inputs[j]);
                }
                if input_fault(inputs.last(), last) is Some {
                    assert(input_fault(inputs[last], last) == first_input_fault(inputs));
                }
            },
        }
    }
}

/// Every rule rejects on its own: a signature can be lowered only if it has
/// none of the four modifiers, no variadic parameter and no receiver in
/// first position, if each of its inputs binds its whole value to one name
/// by value, and if its return type has the form `impl Iterator<Item = T>`.
pub proof fn lemma_every_rule_rejects<T>(sig: Signature<T>)
    ensures
        sig.rejection() is None <==> {
            &&& !sig.constness
            &&& !sig.asyncness
            &&& !sig.unsafety
            &&& !sig.abi
            &&& !sig.variadic
            &&& !(sig.inputs@.len() > 0 && sig.inputs@[0] is Receiver)
            &&& forall|i: int|
                0 <= i < sig.inputs@.len() ==> input_fault(#[trigger] sig.inputs@[i], i) is None
            &&& item_type(sig.output) is Some
        },
{
    lemma_first_input_fault(sig.inputs@);
}

/// Validates `sig`. A signature that can be lowered yields its parameters
/// and the type of its items; any other yields the reason it cannot.
#[verifier::loop_isolation(false)]
pub fn extract_iter_sig<T>(sig: Signature<T>) -> (result: Result<IterSig<T>, Rejection>)
    ensures
        match result {
            Ok((params, item)) => {
                &&& sig.rejection() is None
                &&& params@ == params_of(sig.inputs@)
                &&& Some(item) == item_type(sig.output)
            },
            Err(rejection) => sig.rejection() == Some(rejection),
        },
{
    let Signature { constness, asyncness, unsafety, abi, variadic, ident, inputs, output } = sig;
    if constness {
        return Err(Rejection::Const);
    }
    if asyncness {
        return Err(Rejection::Async);
    }
    if unsafety {
        return Err(Rejection::Unsafe);
    }
    if abi {
        return Err(Rejection::Extern);
    }
    if variadic {
        return Err(Rejection::Variadic);
    }
    if inputs.len() > 0 {
        if let FnArg::Receiver = &inputs[0] {
            return Err(Rejection::Receiver);
        }
    }
    let ghost all = inputs@;
    let total = inputs.len();
    let mut params: Vec<IterParams<T>> = Vec::new();
    let mut position: usize = 0;
    proof {
        assert(all.take(0) =~= Seq::<FnArg<T>>::empty());
    }
    for arg in it: inputs
        invariant
            it.seq() == all,
            all.len() == total,
            position == it.index(),
            first_input_fault(all.take(position as int)) is None,
            params@ == params_of(all.take(position as int)),
    {
        proof {
            assert(all.take(position + 1).drop_last() =~= all.take(position as int));
            assert(all.take(position + 1).last() == arg);
        }
        match arg {
            FnArg::Typed { pat, ty } => match pat {
                Pat::Ident { ident, by_ref, subpat } => {
                    if by_ref {
                        proof {
                            lemma_fault_stays(all, position + 1);
                        }
                        return Err(Rejection::Reference(position));
                    }
                    if subpat {
                        proof {
                            lemma_fault_stays(all, position + 1);
                        }
                        return Err(Rejection::Subpattern(position));
                    }
                    params.push((ident, ty));
                },
                Pat::Other => {
                    proof {
                        lemma_fault_stays(all, position + 1);
                    }
                    return Err(Rejection::Pattern(position));
                },
            },
            FnArg::Receiver => {},
        }
        position += 1;
    }
    proof {
        assert(all.take(position as int) =~= all);
    }
    match get_iter_item_type(output) {
        Some(item) => Ok((params, item)),
        None => Err(Rejection::ReturnType),
    }
}

/// A fault among the first `upto` inputs is the first fault of them all.
proof fn lemma_fault_stays<T>(inputs: Seq<FnArg<T>>, upto: int)
    requires
        0 <= upto <= inputs.len(),
        first_input_fault(inputs.take(upto)) is Some,
    ensures
        first_input_fault(inputs) == first_input_fault(inputs.take(upto)),
    decreases inputs.len() - upto,
{
    if upto == inputs.len() {
        assert(inputs.take(upto) =~= inputs);
    } else {
        assert(inputs.take(upto + 1).drop_last() =~= inputs.take(upto));
        lemma_fault_stays(inputs, upto + 1);
    }
}

} // verus!
