//! Lowering of generator-style function bodies into explicit state machines.
//!
//! A function whose body holds `give!(..)` statements is turned into the
//! declarations of an iterator: an enumeration of states, a holder type, a
//! step function that dispatches on the state, and a constructor.

pub mod emit;
pub mod protocol;
pub mod sequence;
pub mod sig;
pub mod utils;
pub mod walker;

use emit::{arm_views, arms_of, bodies_of, emit, keeps, Generator};
use sig::{extract_iter_sig, item_type, params_of, IterParams, Rejection, Signature};
use utils::{pascal, same_text, to_pascal_case};
use vstd::prelude::*;
use walker::{accepted, first_misplaced, gives, labels, lowered, Stmt, Unsupported, Walker};

verus! {

/// A function to lower: its signature and the statements of its body.
#[derive(Clone, Debug, PartialEq, Eq)]
pub struct Function<S, E, T> {
    pub sig: Signature<T>,
    pub body: Vec<Stmt<S, E>>,
}

/// Why a function was not lowered.
#[derive(Clone, Copy, PartialEq, Eq, Structural, Debug)]
pub enum Failure {
    Signature(Rejection),
    Body(Unsupported),
}

impl Failure {
    /// The fixed message of the failure.
    pub open spec fn text(self) -> Seq<char> {
        match self {
            Failure::Signature(rejection) => rejection.text(),
            Failure::Body(unsupported) => unsupported.text(),
        }
    }
}

/// What is reported for a function that was not lowered. A placeholder of
/// the function's own signature, which produces nothing, goes with it.
#[derive(Clone, Debug, PartialEq, Eq)]
pub struct Diagnostic {
    pub failure: Failure,
    pub message: String,
}

impl Diagnostic {
    /// The diagnostic is the one for `failure`.
    pub open spec fn reports(&self, failure: Failure) -> bool {
        &&& self.failure == failure
        &&& self.message@ == "[be_generust] "@ + failure.text()
    }
}

/// The outcome of lowering one function.
#[derive(Clone, Debug, PartialEq, Eq)]
pub enum Expansion<S, E, T> {
    /// The declarations of the state machine; `print` asks that they be
    /// echoed to the diagnostic stream as well.
    Machine { generator: Generator<S, E, T>, print: bool },
    /// The function is left as a placeholder, with a diagnostic.
    Placeholder(Diagnostic),
}

/// Builds the diagnostic for `failure`.
pub fn fail(failure: Failure) -> (diagnostic: Diagnostic)
    ensures
        diagnostic.reports(failure),
{
    let mut message = String::from_str("[be_generust] ");
    match failure {
        Failure::Signature(rejection) => message.append(rejection.message()),
        Failure::Body(unsupported) => message.append(unsupported.message()),
    }
    Diagnostic { failure, message }
}

/// The name of the state enumeration of the function called `name`.
pub open spec fn state_enum_name(name: Seq<char>) -> Seq<char> {
    pascal(name) + "State"@
}

/// `generator` holds the declarations for the function called `name`, with
/// the parameters `params`, the item type `item` and the statements `body`.
pub open spec fn declares<S, E, T>(
    generator: Generator<S, E, T>,
    name: Seq<char>,
    params: Seq<IterParams<T>>,
    item: T,
    body: Seq<Stmt<S, E>>,
) -> bool {
    &&& generator.module@ == name + "_mod"@
    &&& generator.state_enum@ == state_enum_name(name)
    &&& generator.variants@.len() == gives(body).len() + 2
    &&& forall|k: int|
        0 <= k < generator.variants@.len() ==> (#[trigger] generator.variants@[k])@ == labels(
            generator.variants@.len(),
        )[k]
    &&& generator.holder@ == pascal(name)
    &&& keeps(generator.fields@, params)
    &&& generator.item == item
    &&& arm_views(generator.arms@) == arms_of(lowered(body))
    &&& generator.constructor@ == name
    &&& generator.start == 0
}

/// Lowers `func`. The signature is validated first, then the body is
/// walked; the first failure makes the outcome a placeholder. `attr` is the
/// mode switch: `print` asks for an echo of the declarations, anything else
/// does not, and neither changes the declarations.
pub fn giver<S, E, T>(attr: &str, func: Function<S, E, T>) -> (expansion: Expansion<S, E, T>)
    ensures
        match func.sig.rejection() {
            Some(rejection) => expansion matches Expansion::Placeholder(d) && d.reports(
                Failure::Signature(rejection),
            ),
            None => if accepted(func.body@) {
                &&& expansion matches Expansion::Machine { generator, print }
                &&& print == (attr@ == "print"@)
                &&& declares(
                    generator,
                    func.sig.ident@,
                    params_of(func.sig.inputs@),
                    item_type(func.sig.output)->0,
                    func.body@,
                )
            } else {
                &&& expansion matches Expansion::Placeholder(d)
                &&& d.failure matches Failure::Body(unsupported)
                &&& first_misplaced(func.body@, unsupported.statement as int)
                &&& d.reports(d.failure)
            },
        },
{
    let Function { sig, body } = func;
    let name = sig.ident.clone();
    let (params, item) = match extract_iter_sig(sig) {
        Ok(found) => found,
        Err(rejection) => {
            return Expansion::Placeholder(fail(Failure::Signature(rejection)));
        },
    };
    let mut state_enum = to_pascal_case(name.as_str());
    state_enum.append("State");
    let walker = match Walker::walk(state_enum, body) {
        Ok(walker) => walker,
        Err(unsupported) => {
            return Expansion::Placeholder(fail(Failure::Body(unsupported)));
        },
    };
    proof {
        assert(bodies_of(walker.states@) =~= lowered(body@));
    }
    let generator = emit(name, params, item, walker);
    let print = same_text(attr, "print");
    Expansion::Machine { generator, print }
}

} // verus!
