//! The emitter: assembles the declarations of the state machine from a
//! validated signature and the walker's states.

use crate::sig::IterParams;
use crate::utils::{pascal, to_pascal_case};
use crate::walker::{State, Step, Walker};
use vstd::prelude::*;

verus! {

/// One arm of the step function's dispatch: the states that select it, in
/// ascending order, and the statements it runs.
#[derive(Clone, Debug, PartialEq, Eq)]
pub struct Arm<S, E> {
    pub states: Vec<usize>,
    pub body: Vec<Step<S, E>>,
}

/// An arm as a mathematical value.
pub struct ArmView<S, E> {
    pub states: Seq<usize>,
    pub body: Seq<Step<S, E>>,
}

impl<S, E> View for Arm<S, E> {
    type V = ArmView<S, E>;

    open spec fn view(&self) -> ArmView<S, E> {
        ArmView { states: self.states@, body: self.body@ }
    }
}

/// The views of `arms`, in order.
pub open spec fn arm_views<S, E>(arms: Seq<Arm<S, E>>) -> Seq<ArmView<S, E>> {
    Seq::new(arms.len(), |i: int| arms[i]@)
}

/// The bodies of `states`, in order.
pub open spec fn bodies_of<S, E>(states: Seq<State<S, E>>) -> Seq<Seq<Step<S, E>>> {
    Seq::new(states.len(), |i: int| states[i].body@)
}

/// The labels of `states`, in order.
pub open spec fn labels_of<S, E>(states: Seq<State<S, E>>) -> Seq<String> {
    Seq::new(states.len(), |i: int| states[i].label)
}

/// The numbers from `low` up to, not including, `high`.
pub open spec fn span(low: int, high: int) -> Seq<usize> {
    Seq::new((high - low) as nat, |i: int| (low + i) as usize)
}

/// The arms for the states from `low` on, where the states from `low` up
/// to `at` are known to have empty bodies. A state with an empty body has no
/// arm of its own: it selects the arm of the next state whose body is not
/// empty. States after the last such state share one arm with no statements.
pub open spec fn arms_from<S, E>(bodies: Seq<Seq<Step<S, E>>>, low: int, at: int) -> Seq<
    ArmView<S, E>,
>
    decreases bodies.len() - at,
{
    if at < 0 || at >= bodies.len() {
        if low < at {
            seq![ArmView { states: span(low, at), body: Seq::empty() }]
        } else {
            Seq::empty()
        }
    } else if bodies[at].len() > 0 {
        seq![ArmView { states: span(low, at + 1), body: bodies[at] }] + arms_from(
            bodies,
            at + 1,
            at + 1,
        )
    } else {
        arms_from(bodies, low, at + 1)
    }
}

/// The arms of the dispatch over states with these bodies.
pub open spec fn arms_of<S, E>(bodies: Seq<Seq<Step<S, E>>>) -> Seq<ArmView<S, E>> {
    arms_from(bodies, 0, 0)
}

/// The states that `arms` list, arm after arm.
pub open spec fn listed<S, E>(arms: Seq<ArmView<S, E>>) -> Seq<usize>
    decreases arms.len(),
{
    if arms.len() == 0 {
        Seq::empty()
    } else {
        arms[0].states + listed(arms.drop_first())
    }
}

/// The arm groups states as the dispatch over `bodies` does: it lists at
/// least one state, all of them exist, all but the last have empty bodies,
/// and its statements are the body of the last.
pub open spec fn groups<S, E>(arm: ArmView<S, E>, bodies: Seq<Seq<Step<S, E>>>) -> bool {
    &&& arm.states.len() > 0
    &&& forall|j: int| 0 <= j < arm.states.len() ==> (#[trigger] arm.states[j]) < bodies.len()
    &&& forall|j: int|
        0 <= j < arm.states.len() - 1 ==> bodies[(#[trigger] arm.states[j]) as int].len() == 0
    &&& arm.body == bodies[arm.states.last() as int]
}

proof fn lemma_arms_from_partition<S, E>(bodies: Seq<Seq<Step<S, E>>>, low: int, at: int)
    requires
        0 <= low <= at <= bodies.len() <= usize::MAX,
        forall|j: int| low <= j < at ==> (#[trigger] bodies[j]).len() == 0,
    ensures
        listed(arms_from(bodies, low, at)) == span(low, bodies.len() as int),
        forall|a: int|
            0 <= a < arms_from(bodies, low, at).len() ==> groups(
                #[trigger] arms_from(bodies, low, at)[a],
                bodies,
            ),
    decreases bodies.len() - at,
{
    let arms = arms_from(bodies, low, at);
    if at == bodies.len() {
        if low < at {
            assert(arms.drop_first() =~= Seq::empty());
            assert(listed(arms.drop_first()) =~= Seq::empty());
            assert(listed(arms) =~= span(low, at));
            assert(arms[0].body =~= bodies[at - 1]);
            assert(groups(arms[0], bodies));
        } else {
            assert(listed(arms) =~= span(low, at));
        }
    } else if bodies[at].len() > 0 {
        let first = ArmView { states: span(low, at + 1), body: bodies[at] };
        let rest = arms_from(bodies, at + 1, at + 1);
        lemma_arms_from_partition(bodies, at + 1, at + 1);
        assert(arms.drop_first() =~= rest);
        assert(listed(arms) =~= span(low, bodies.len() as int));
        assert(groups(first, bodies));
        assert forall|a: int| 0 <= a < arms.len() implies groups(#[trigger] arms[a], bodies) by {
            if a > 0 {
                assert(arms[a] == rest[a - 1]);
            }
        }
    } else {
        lemma_arms_from_partition(bodies, low, at + 1);
    }
}

/// The arms of a dispatch list every state once, in ascending order, and
/// each arm holds the body of its last state, the states before it in the
/// arm being those with empty bodies that fall through to it.
pub proof fn lemma_arms_partition<S, E>(bodies: Seq<Seq<Step<S, E>>>)
    requires
        bodies.len() <= usize::MAX,
    ensures
        listed(arms_of(bodies)) == span(0, bodies.len() as int),
        forall|a: int|
            0 <= a < arms_of(bodies).len() ==> groups(#[trigger] arms_of(bodies)[a], bodies),
{
    lemma_arms_from_partition(bodies, 0, 0);
}

/// Splits `states` into the labels of the enumeration, in index order, and
/// the arms of the dispatch.
pub fn merge_arms<S, E>(states: Vec<State<S, E>>) -> (result: (Vec<String>, Vec<Arm<S, E>>))
    ensures
        result.0@ == labels_of(states@),
        arm_views(result.1@) == arms_of(bodies_of(states@)),
{
    let ghost all = states@;
    let ghost bodies = bodies_of(all);
    let total = states.len();
    let mut labels: Vec<String> = Vec::new();
    let mut arms: Vec<Arm<S, E>> = Vec::new();
    let mut pending: Vec<usize> = Vec::new();
    let mut position: usize = 0;
    let ghost mut start: int = 0;
    proof {
        assert(arm_views(arms@) =~= Seq::<ArmView<S, E>>::empty());
        assert(arm_views(arms@) + arms_of(bodies) =~= arms_of(bodies));
        assert(pending@ =~= span(0, 0));
    }
    for state in it: states
        invariant
            it.seq() == all,
            bodies == bodies_of(all),
            all.len() == total,
            position == it.index(),
            0 <= start <= position,
            labels@ == labels_of(all.take(position as int)),
            pending@ == span(start, position as int),
            arm_views(arms@) + arms_from(bodies, start, position as int) == arms_of(bodies),
    {
        let State { index, label, body } = state;
        labels.push(label);
        pending.push(position);
        proof {
            assert(labels@ =~= labels_of(all.take(position + 1)));
            assert(pending@ =~= span(start, position + 1));
            assert(bodies[position as int] == body@);
        }
        if body.len() > 0 {
            let ghost before = arm_views(arms@);
            arms.push(Arm { states: pending, body });
            pending = Vec::new();
            proof {
                let arm = ArmView { states: span(start, position + 1), body: bodies[position as int] };
                let rest = arms_from(bodies, position + 1, position + 1);
                assert(arms_from(bodies, start, position as int) == seq![arm] + rest);
                assert(arm_views(arms@) =~= before.push(arm));
                assert(arm_views(arms@) + rest =~= before + (seq![arm] + rest));
                start = position + 1;
                assert(pending@ =~= span(start, position + 1));
            }
        }
        position += 1;
    }
    proof {
        assert(all.take(position as int) =~= all);
    }
    if pending.len() > 0 {
        let ghost before = arm_views(arms@);
        arms.push(Arm { states: pending, body: Vec::new() });
        proof {
            let arm = ArmView::<S, E> { states: span(start, total as int), body: Seq::empty() };
            assert(arms_from(bodies, start, total as int) =~= seq![arm]);
            assert(arm_views(arms@) =~= before.push(arm));
        }
    } else {
        proof {
            assert(start == total);
            assert(arm_views(arms@) + arms_from(bodies, start, total as int) =~= arm_views(arms@));
        }
    }
    (labels, arms)
}

/// One field of the holder type: it keeps the parameter `param`, of type
/// `ty`, under the name `name`.
#[derive(Clone, Debug, PartialEq, Eq)]
pub struct Field<T> {
    pub name: String,
    pub param: String,
    pub ty: T,
}

/// The name of the field that keeps the parameter called `param`. The
/// prefix keeps a parameter from colliding with the state field.
pub open spec fn field_name(param: Seq<char>) -> Seq<char> {
    "param_"@ + param
}

/// `fields` keeps `params`, one field each, in declared order.
pub open spec fn keeps<T>(fields: Seq<Field<T>>, params: Seq<IterParams<T>>) -> bool {
    &&& fields.len() == params.len()
    &&& forall|i: int|
        0 <= i < fields.len() ==> {
            &&& (#[trigger] fields[i]).name@ == field_name(params[i].0@)
            &&& fields[i].param == params[i].0
            &&& fields[i].ty == params[i].1
        }
}

/// Builds the fields of the holder type, one per parameter.
pub fn make_fields<T>(params: Vec<IterParams<T>>) -> (fields: Vec<Field<T>>)
    ensures
        keeps(fields@, params@),
{
    let ghost all = params@;
    let mut fields: Vec<Field<T>> = Vec::new();
    for pair in it: params
        invariant
            it.seq() == all,
            keeps(fields@, all.take(it.index() as int)),
    {
        let (param, ty) = pair;
        let mut name = String::from_str("param_");
        name.append(param.as_str());
        fields.push(Field { name, param, ty });
    }
    proof {
        assert(all.take(all.len() as int) =~= all);
    }
    fields
}

/// The declarations that make up the state machine: the enumeration of the
/// states, the holder type with its fields, the arms of the step function,
/// and the constructor, all inside a module of their own.
#[derive(Clone, Debug, PartialEq, Eq)]
pub struct Generator<S, E, T> {
    /// The name of the enclosing module.
    pub module: String,
    /// The name of the state enumeration.
    pub state_enum: String,
    /// The variants of the state enumeration, in index order.
    pub variants: Vec<String>,
    /// The name of the holder type.
    pub holder: String,
    /// The fields of the holder type besides the state field.
    pub fields: Vec<Field<T>>,
    /// The type of the items produced.
    pub item: T,
    /// The arms of the dispatch on the state field.
    pub arms: Vec<Arm<S, E>>,
    /// The name of the constructor.
    pub constructor: String,
    /// The state that the constructor sets.
    pub start: usize,
}

impl<S, E, T> Generator<S, E, T> {
    /// The declarations are those of the function called `name` with the
    /// parameters `params` and the item type `item`, whose body made the
    /// states of `walker`.
    pub open spec fn emits(
        &self,
        name: Seq<char>,
        params: Seq<IterParams<T>>,
        item: T,
        walker: Walker<S, E>,
    ) -> bool {
        &&& self.module@ == name + "_mod"@
        &&& self.state_enum == walker.name
        &&& self.variants@ == labels_of(walker.states@)
        &&& self.holder@ == pascal(name)
        &&& keeps(self.fields@, params)
        &&& self.item == item
        &&& arm_views(self.arms@) == arms_of(bodies_of(walker.states@))
        &&& self.constructor@ == name
        &&& self.start == 0
    }
}

/// Assembles the declarations of the state machine.
pub fn emit<S, E, T>(
    name: String,
    params: Vec<IterParams<T>>,
    item: T,
    walker: Walker<S, E>,
) -> (generator: Generator<S, E, T>)
    ensures
        generator.emits(name@, params@, item, walker),
{
    let mut module = name.clone();
    module.append("_mod");
    let holder = to_pascal_case(name.as_str());
    let Walker { name: state_enum, states } = walker;
    let (variants, arms) = merge_arms(states);
    let fields = make_fields(params);
    Generator {
        module,
        state_enum,
        variants,
        holder,
        fields,
        item,
        arms,
        constructor: name,
        start: 0,
    }
}

} // verus!
