//! The body walker: partitions a flat statement sequence into states, one
//! state boundary per yield point.

use crate::utils::{decimal, digits, lemma_digits_are_digits, lemma_digits_differ, same_text};
use vstd::prelude::*;

verus! {

/// The path of a macro invocation: `give`, `std::println`, `::core::write`.
#[derive(Clone, Debug, PartialEq, Eq)]
pub struct MacroPath {
    pub leading_colon: bool,
    pub segments: Vec<String>,
}

impl MacroPath {
    /// The path is the single identifier `ident`, with no leading colon.
    pub open spec fn names(&self, ident: Seq<char>) -> bool {
        &&& !self.leading_colon
        &&& self.segments@.len() == 1
        &&& self.segments@[0]@ == ident
    }

    /// The path is that of the yield marker.
    pub open spec fn is_marker(&self) -> bool {
        self.names("give"@)
    }

    /// Whether the path is the single identifier `ident`.
    pub fn is_ident(&self, ident: &str) -> (found: bool)
        ensures
            found == self.names(ident@),
    {
        !self.leading_colon && self.segments.len() == 1 && same_text(
            self.segments[0].as_str(),
            ident,
        )
    }
}

/// A macro invocation found inside a statement: its path, and whether it
/// stands inside a nested item, whose body is not that of the function
/// being lowered.
#[derive(Clone, Debug, PartialEq, Eq)]
pub struct Invocation {
    pub path: MacroPath,
    pub in_item: bool,
}

impl Invocation {
    /// The invocation is one of the yield marker that belongs to the
    /// function being lowered: a marker inside a nested item is that item's.
    pub open spec fn is_marker(&self) -> bool {
        self.path.is_marker() && !self.in_item
    }
}

/// Some invocation in `found` is one of the yield marker.
pub open spec fn mentions_marker(found: Seq<Invocation>) -> bool {
    exists|i: int| 0 <= i < found.len() && (#[trigger] found[i]).is_marker()
}

/// Whether some invocation in `found` is one of the yield marker.
pub fn any_marker(found: &Vec<Invocation>) -> (any: bool)
    ensures
        any == mentions_marker(found@),
{
    let mut i: usize = 0;
    while i < found.len()
        invariant
            i <= found@.len(),
            forall|j: int| 0 <= j < i ==> !(#[trigger] found@[j]).is_marker(),
        decreases found@.len() - i,
    {
        if !found[i].in_item && found[i].path.is_ident("give") {
            return true;
        }
        i += 1;
    }
    false
}

/// What the walker reads of an expression: whether it is a macro invocation,
/// and if so its path and its argument tokens.
#[derive(Clone, Debug, PartialEq, Eq)]
pub enum Expr<E> {
    Macro { path: MacroPath, tokens: E },
    Other,
}

/// The syntactic form of a statement.
#[derive(Clone, Debug, PartialEq, Eq)]
pub enum Syntax<E> {
    /// A `let` binding.
    Local,
    /// A nested item.
    Item,
    /// A trailing expression, without semicolon.
    Expr(Expr<E>),
    /// An expression statement, with semicolon.
    Semi(Expr<E>),
}

/// One statement of a function body. `node` is the statement itself, which
/// the walker never looks into; `macros` lists the macro invocations found
/// inside it, not counting the one that `syntax` shows.
#[derive(Clone, Debug, PartialEq, Eq)]
pub struct Stmt<S, E> {
    pub syntax: Syntax<E>,
    pub macros: Vec<Invocation>,
    pub node: S,
}

/// What the walker does with a statement.
#[derive(Clone, Debug, PartialEq, Eq)]
pub enum Role<S, E> {
    /// A yield point, with the expression it produces.
    Give(E),
    /// A yield marker in a place other than a statement of its own.
    Misplaced,
    /// Anything else, with the statement to copy.
    Copy(S),
}

impl<S, E> Stmt<S, E> {
    /// The expression produced, where the statement is a yield point: an
    /// expression statement that invokes the yield marker.
    pub open spec fn given(self) -> Option<E> {
        match self.syntax {
            Syntax::Semi(Expr::Macro { path, tokens }) => if path.is_marker() {
                Some(tokens)
            } else {
                None
            },
            _ => None,
        }
    }

    /// The yield marker is the trailing expression of the body.
    pub open spec fn trailing_marker(self) -> bool {
        match self.syntax {
            Syntax::Expr(Expr::Macro { path, tokens }) => path.is_marker(),
            _ => false,
        }
    }

    /// What the walker does with the statement. A yield point is given; a
    /// statement that holds the yield marker anywhere else, be it as the
    /// trailing expression or inside, is misplaced; any other is copied.
    pub open spec fn role(self) -> Role<S, E> {
        match self.given() {
            Some(tokens) => Role::Give(tokens),
            None => if self.trailing_marker() || mentions_marker(self.macros@) {
                Role::Misplaced
            } else {
                Role::Copy(self.node)
            },
        }
    }

    /// Decides what the walker does with the statement.
    pub fn into_role(self) -> (role: Role<S, E>)
        ensures
            role == self.role(),
    {
        let Stmt { syntax, macros, node } = self;
        let nested = any_marker(&macros);
        match syntax {
            Syntax::Semi(Expr::Macro { path, tokens }) => {
                if path.is_ident("give") {
                    Role::Give(tokens)
                } else if nested {
                    Role::Misplaced
                } else {
                    Role::Copy(node)
                }
            },
            Syntax::Expr(Expr::Macro { path, .. }) => {
                if nested || path.is_ident("give") {
                    Role::Misplaced
                } else {
                    Role::Copy(node)
                }
            },
            _ => {
                if nested {
                    Role::Misplaced
                } else {
                    Role::Copy(node)
                }
            },
        }
    }
}

/// No statement of `body` holds a misplaced yield marker.
pub open spec fn accepted<S, E>(body: Seq<Stmt<S, E>>) -> bool {
    forall|i: int| 0 <= i < body.len() ==> !((#[trigger] body[i]).role() is Misplaced)
}

/// `at` is the first statement of `body` that holds a misplaced yield marker.
pub open spec fn first_misplaced<S, E>(body: Seq<Stmt<S, E>>, at: int) -> bool {
    &&& 0 <= at < body.len()
    &&& body[at].role() is Misplaced
    &&& accepted(body.take(at))
}

/// The expressions that the yield points of `body` produce, in order.
pub open spec fn gives<S, E>(body: Seq<Stmt<S, E>>) -> Seq<E>
    decreases body.len(),
{
    if body.len() == 0 {
        Seq::empty()
    } else {
        match body.last().given() {
            Some(tokens) => gives(body.drop_last()).push(tokens),
            None => gives(body.drop_last()),
        }
    }
}

/// The runs of statements that the yield points of `body` delimit, in order:
/// one more run than there are yield points, some of them possibly empty.
pub open spec fn segments<S, E>(body: Seq<Stmt<S, E>>) -> Seq<Seq<S>>
    decreases body.len(),
{
    if body.len() == 0 {
        seq![Seq::empty()]
    } else {
        let before = segments(body.drop_last());
        match body.last().given() {
            Some(_) => before.push(Seq::empty()),
            None => before.update(before.len() - 1, before.last().push(body.last().node)),
        }
    }
}

/// There is one more segment than there are yield points.
pub proof fn lemma_segments_len<S, E>(body: Seq<Stmt<S, E>>)
    ensures
        segments(body).len() == gives(body).len() + 1,
    decreases body.len(),
{
    if body.len() != 0 {
        lemma_segments_len(body.drop_last());
    }
}

/// The positions in `body` of its yield points, in ascending order.
pub open spec fn yield_points<S, E>(body: Seq<Stmt<S, E>>) -> Seq<int>
    decreases body.len(),
{
    if body.len() == 0 {
        Seq::empty()
    } else if body.last().given() is Some {
        yield_points(body.drop_last()).push(body.len() - 1)
    } else {
        yield_points(body.drop_last())
    }
}

/// The yield points of a body are counted in the order in which they are
/// written: `gives` holds the expression of each, and a later one stands at
/// a later position.
pub proof fn lemma_yield_points<S, E>(body: Seq<Stmt<S, E>>)
    ensures
        yield_points(body).len() == gives(body).len(),
        forall|k: int|
            0 <= k < gives(body).len() ==> {
                &&& 0 <= (#[trigger] yield_points(body)[k]) < body.len()
                &&& body[yield_points(body)[k]].given() == Some(gives(body)[k])
            },
        forall|j: int, k: int|
            0 <= j < k < gives(body).len() ==> yield_points(body)[j] < yield_points(body)[k],
    decreases body.len(),
{
    if body.len() != 0 {
        let before = body.drop_last();
        lemma_yield_points(before);
        assert forall|k: int| 0 <= k < gives(body).len() implies {
            &&& 0 <= (#[trigger] yield_points(body)[k]) < body.len()
            &&& body[yield_points(body)[k]].given() == Some(gives(body)[k])
        } by {
            if k < gives(before).len() {
                assert(before[yield_points(before)[k]] == body[yield_points(before)[k]]);
            }
        }
    }
}

/// Why a state exists.
#[derive(Clone, Copy, PartialEq, Eq, Structural, Debug)]
pub enum Purpose {
    Start,
    AfterGive,
    End,
}

impl Purpose {
    /// The word that stands for the purpose in a state label.
    pub open spec fn text(self) -> Seq<char> {
        match self {
            Purpose::Start => "Start"@,
            Purpose::AfterGive => "AfterGive"@,
            Purpose::End => "End"@,
        }
    }

    /// The word that stands for the purpose in a state label.
    pub fn name(&self) -> (word: &'static str)
        ensures
            word@ == self.text(),
    {
        match self {
            Purpose::Start => "Start",
            Purpose::AfterGive => "AfterGive",
            Purpose::End => "End",
        }
    }
}

/// The purpose of state `index` in a machine of `count` states.
pub open spec fn purpose_at(index: int, count: int) -> Purpose {
    if index == 0 {
        Purpose::Start
    } else if index == count - 1 {
        Purpose::End
    } else {
        Purpose::AfterGive
    }
}

/// The label of state `index`: `S`, the index in decimal, `_`, the purpose.
pub open spec fn label_text(index: nat, purpose: Purpose) -> Seq<char> {
    seq!['S'] + digits(index) + seq!['_'] + purpose.text()
}

/// States with different indices have different labels, whatever their
/// purposes: no label occurs twice in a machine.
pub proof fn lemma_labels_differ(i: nat, p: Purpose, j: nat, q: Purpose)
    requires
        i != j,
    ensures
        label_text(i, p) != label_text(j, q),
{
    let a = digits(i);
    let b = digits(j);
    let left = label_text(i, p);
    let right = label_text(j, q);
    lemma_digits_are_digits(i);
    lemma_digits_are_digits(j);
    lemma_digits_differ(i, j);
    if left == right {
        assert forall|k: int| 0 <= k < a.len() implies left[1 + k] == a[k] by {}
        assert forall|k: int| 0 <= k < b.len() implies right[1 + k] == b[k] by {}
        assert(left[1 + a.len() as int] == '_');
        assert(right[1 + b.len() as int] == '_');
        if a.len() == b.len() {
            assert(a =~= b);
        } else if a.len() < b.len() {
            assert(right[1 + a.len() as int] == b[a.len() as int]);
        } else {
            assert(left[1 + b.len() as int] == a[b.len() as int]);
        }
    }
}

/// Builds the label of state `index`.
pub fn make_label(index: usize, purpose: Purpose) -> (label: String)
    ensures
        label@ == label_text(index as nat, purpose),
{
    let mut label = String::new();
    label.push('S');
    label.append(decimal(index).as_str());
    label.push('_');
    label.append(purpose.name());
    assert(label@ =~= label_text(index as nat, purpose));
    label
}

/// One statement of a state's body.
#[derive(Clone, Debug, PartialEq, Eq)]
pub enum Step<S, E> {
    /// A statement of the input, unchanged.
    Copy(S),
    /// Set the state field to the state with this index.
    Enter(usize),
    /// Produce the value of this expression and suspend.
    Give(E),
    /// Produce nothing: the sequence is exhausted.
    Finish,
}

/// One state of the machine.
#[derive(Clone, Debug, PartialEq, Eq)]
pub struct State<S, E> {
    pub index: usize,
    pub label: String,
    pub body: Vec<Step<S, E>>,
}

/// The statements of `run`, each as a step that copies it.
pub open spec fn copies<S, E>(run: Seq<S>) -> Seq<Step<S, E>> {
    Seq::new(run.len(), |i: int| Step::Copy(run[i]))
}

/// What a state that ends at a yield point holds: the statements before the
/// yield point, then the move to state `next`, then the value produced.
pub open spec fn closed<S, E>(run: Seq<S>, next: usize, tokens: E) -> Seq<Step<S, E>> {
    copies(run).push(Step::Enter(next)).push(Step::Give(tokens))
}

/// What the state after the last yield point holds: nothing where no
/// statement follows that yield point, else the statements that follow it
/// and the move to state `end`, so that the dispatch goes on to report
/// exhaustion once they have run.
pub open spec fn trailing<S, E>(run: Seq<S>, end: usize) -> Seq<Step<S, E>> {
    if run.len() == 0 {
        Seq::empty()
    } else {
        copies(run).push(Step::Enter(end))
    }
}

/// The body of state `index` of the machine that `body` lowers to.
pub open spec fn state_body<S, E>(body: Seq<Stmt<S, E>>, index: int) -> Seq<Step<S, E>> {
    let n = gives(body).len();
    if 0 <= index < n {
        closed(segments(body)[index], (index + 1) as usize, gives(body)[index])
    } else if index == n {
        trailing(segments(body)[index], (index + 1) as usize)
    } else {
        seq![Step::Finish]
    }
}

/// The body of state `index` while `body` is being walked: as when the walk
/// is done, but for the last state, which is still open and holds only the
/// statements copied into it so far.
spec fn open_body<S, E>(body: Seq<Stmt<S, E>>, index: int) -> Seq<Step<S, E>> {
    if 0 <= index < gives(body).len() {
        state_body(body, index)
    } else {
        copies(segments(body)[index])
    }
}

/// The bodies of the states that `body` lowers to, in index order: one state
/// up to each yield point, one for what follows the last, and `End`.
pub open spec fn lowered<S, E>(body: Seq<Stmt<S, E>>) -> Seq<Seq<Step<S, E>>> {
    Seq::new(gives(body).len() + 2, |index: int| state_body(body, index))
}

/// The labels of a machine of `count` states, in index order.
pub open spec fn labels(count: nat) -> Seq<Seq<char>> {
    Seq::new(count, |index: int| label_text(index as nat, purpose_at(index, count as int)))
}

/// A yield marker stands where the walker does not support one.
#[derive(Clone, Copy, PartialEq, Eq, Structural, Debug)]
pub struct Unsupported {
    /// The position in the body of the first offending statement.
    pub statement: usize,
}

impl Unsupported {
    /// The fixed message of the failure.
    pub open spec fn text(self) -> Seq<char> {
        "give! is only supported as a statement of its own in the function body"@
    }

    /// The fixed message of the failure.
    pub fn message(&self) -> (message: &'static str)
        ensures
            message@ == self.text(),
    {
        "give! is only supported as a statement of its own in the function body"
    }
}

/// The walker's result: the name of the state enumeration and the states in
/// index order.
#[derive(Clone, Debug, PartialEq, Eq)]
pub struct Walker<S, E> {
    pub name: String,
    pub states: Vec<State<S, E>>,
}

impl<S, E> Walker<S, E> {
    /// Every state carries its position as index and the label of that
    /// position in a machine of `count` states.
    pub open spec fn labelled(&self, count: int) -> bool {
        forall|k: int|
            0 <= k < self.states@.len() ==> {
                &&& (#[trigger] self.states@[k]).index == k
                &&& self.states@[k].label@ == label_text(k as nat, purpose_at(k, count))
            }
    }

    /// The states hold, in order, the bodies that `body` lowers to, the last
    /// of them still open: no `End` state follows yet.
    spec fn walked(&self, body: Seq<Stmt<S, E>>) -> bool {
        &&& self.states@.len() == gives(body).len() + 1
        &&& self.labelled(self.states@.len() as int + 1)
        &&& forall|k: int|
            0 <= k < self.states@.len() ==> (#[trigger] self.states@[k]).body@ == open_body(
                body,
                k,
            )
    }

    /// The machine is the one that `body` lowers to: `Start`, one `AfterGive`
    /// state per yield point in the order of the yield points, then `End`.
    /// Each state but the last two ends at its yield point; the state after
    /// the last yield point holds what follows it and hands over to `End`.
    pub open spec fn lowers(&self, body: Seq<Stmt<S, E>>) -> bool {
        &&& self.states@.len() == gives(body).len() + 2
        &&& self.labelled(self.states@.len() as int)
        &&& forall|k: int|
            0 <= k < self.states@.len() ==> (#[trigger] self.states@[k]).body@ == state_body(
                body,
                k,
            )
    }

    /// The states of a lowered body are numbered without gaps from zero, in
    /// the order in which the yield points are written: the state with index
    /// `k` ends at yield point number `k`, whose value it produces, and
    /// hands over to the state with index `k + 1`, which is labelled as the
    /// state after a yield. The first state is labelled as the start, the
    /// last as the end.
    pub proof fn lemma_states_follow_yield_points(&self, body: Seq<Stmt<S, E>>, k: int)
        requires
            self.lowers(body),
            0 <= k < gives(body).len(),
        ensures
            self.states@.len() == gives(body).len() + 2,
            forall|i: int| 0 <= i < self.states@.len() ==> (#[trigger] self.states@[i]).index == i,
            self.states@[0].label@ == label_text(0, Purpose::Start),
            self.states@.last().label@ == label_text(
                (gives(body).len() + 1) as nat,
                Purpose::End,
            ),
            self.states@[k + 1].label@ == label_text((k + 1) as nat, Purpose::AfterGive),
            0 <= yield_points(body)[k] < body.len(),
            self.states@[k].body@.last() == Step::<S, E>::Give(
                body[yield_points(body)[k]].given()->0,
            ),
            self.states@[k].body@[self.states@[k].body@.len() - 2] == Step::<S, E>::Enter(
                (k + 1) as usize,
            ),
    {
        lemma_yield_points(body);
        assert(self.states@[k].body@ == state_body(body, k));
        assert(self.states@[k + 1].index == k + 1);
        assert(self.states@[0].index == 0);
        assert(self.states@.last().index == gives(body).len() + 1);
    }

    /// Lowers `body` into the states of a machine whose state enumeration is
    /// called `name`. Fails on the first statement that holds a yield marker
    /// anywhere but as a statement of its own.
    pub fn walk(name: String, body: Vec<Stmt<S, E>>) -> (result: Result<Walker<S, E>, Unsupported>)
        ensures
            match result {
                Ok(w) => accepted(body@) && w.name == name && w.lowers(body@),
                Err(e) => first_misplaced(body@, e.statement as int),
            },
    {
        let mut w = Walker { name, states: Vec::new() };
        match w.walk_fn_body(body) {
            Ok(()) => Ok(w),
            Err(e) => Err(e),
        }
    }

    /// Appends an empty state with the next index and returns that index.
    fn add_state(&mut self, purpose: Purpose) -> (index: usize)
        ensures
            index == old(self).states@.len(),
            final(self).name == old(self).name,
            final(self).states@.len() == index + 1,
            final(self).states@.drop_last() == old(self).states@,
            final(self).states@[index as int].index == index,
            final(self).states@[index as int].label@ == label_text(index as nat, purpose),
            final(self).states@[index as int].body@ == Seq::<Step<S, E>>::empty(),
    {
        let index = self.states.len();
        let label = make_label(index, purpose);
        self.states.push(State { index, label, body: Vec::new() });
        assert(self.states@.drop_last() =~= old(self).states@);
        index
    }

    /// The index of the state that statements currently go to.
    fn curr_state(&self) -> (index: usize)
        requires
            self.states@.len() > 0,
        ensures
            index == self.states@.len() - 1,
    {
        self.states.len() - 1
    }

    /// Appends `step` to the body of state `state`.
    fn add_stmt(&mut self, state: usize, step: Step<S, E>)
        requires
            state < old(self).states@.len(),
        ensures
            final(self).name == old(self).name,
            final(self).states@.len() == old(self).states@.len(),
            final(self).states@[state as int].index == old(self).states@[state as int].index,
            final(self).states@[state as int].label == old(self).states@[state as int].label,
            final(self).states@[state as int].body@ == old(self).states@[state as int].body@.push(
                step,
            ),
            forall|k: int|
                0 <= k < old(self).states@.len() && k != state ==> final(self).states@[k] == old(
                    self,
                ).states@[k],
    {
        self.states[state].body.push(step);
    }

    /// Copies `node` into the current state.
    fn copy_stmt(&mut self, node: S)
        requires
            old(self).states@.len() > 0,
        ensures
            final(self).name == old(self).name,
            final(self).states@.len() == old(self).states@.len(),
            final(self).states@.drop_last() == old(self).states@.drop_last(),
            final(self).states@.last().index == old(self).states@.last().index,
            final(self).states@.last().label == old(self).states@.last().label,
            final(self).states@.last().body@ == old(self).states@.last().body@.push(
                Step::Copy(node),
            ),
    {
        let current = self.curr_state();
        self.add_stmt(current, Step::Copy(node));
        assert(self.states@.drop_last() =~= old(self).states@.drop_last());
    }

    /// Walks `body`, starting from no states: opens `Start`, closes the
    /// current state and opens a new one at each yield point, and ends with
    /// `End`, to which the last state hands over where it holds statements.
    pub fn walk_fn_body(&mut self, body: Vec<Stmt<S, E>>) -> (result: Result<(), Unsupported>)
        ensures
            final(self).name == old(self).name,
            match result {
                Ok(()) => accepted(body@) && final(self).lowers(body@),
                Err(e) => first_misplaced(body@, e.statement as int),
            },
    {
        let ghost all = body@;
        let total = body.len();
        self.states.clear();
        self.add_state(Purpose::Start);
        let mut position: usize = 0;
        proof {
            assert(all.take(0) =~= Seq::<Stmt<S, E>>::empty());
            assert(copies::<S, E>(Seq::empty()) =~= Seq::<Step<S, E>>::empty());
        }
        for stmt in it: body
            invariant
                it.seq() == all,
                all.len() == total,
                position == it.index(),
                self.name == old(self).name,
                accepted(all.take(position as int)),
                self.walked(all.take(position as int)),
        {
            let ghost seen = all.take(position as int);
            let ghost next = all.take(position + 1);
            let ghost before = self.states@;
            proof {
                assert(next.drop_last() =~= seen);
                assert(next.last() == stmt);
                lemma_segments_len(seen);
                lemma_segments_len(next);
            }
            match stmt.into_role() {
                Role::Give(tokens) => {
                    let current = self.curr_state();
                    let entered = self.add_state(Purpose::AfterGive);
                    let ghost opened = self.states@;
                    self.add_stmt(current, Step::Enter(entered));
                    let ghost pointed = self.states@;
                    self.add_stmt(current, Step::Give(tokens));
                    proof {
                        assert(copies::<S, E>(Seq::empty()) =~= Seq::<Step<S, E>>::empty());
                        assert(segments(next) == segments(seen).push(Seq::empty()));
                        assert(gives(next) == gives(seen).push(tokens));
                        assert forall|k: int| 0 <= k < self.states@.len() implies {
                            &&& (#[trigger] self.states@[k]).index == k
                            &&& self.states@[k].label@ == label_text(
                                k as nat,
                                purpose_at(k, self.states@.len() as int + 1),
                            )
                            &&& self.states@[k].body@ == open_body(next, k)
                        } by {
                            if k <= current {
                                assert(opened[k] == opened.drop_last()[k]);
                                assert(opened[k] == before[k]);
                            }
                            if k != current {
                                assert(pointed[k] == opened[k]);
                                assert(self.states@[k] == pointed[k]);
                            } else {
                                assert(self.states@[k].body@ == closed(
                                    segments(seen)[k],
                                    entered,
                                    tokens,
                                ));
                            }
                        }
                    }
                },
                Role::Misplaced => {
                    return Err(Unsupported { statement: position });
                },
                Role::Copy(node) => {
                    self.copy_stmt(node);
                    proof {
                        let current = before.len() - 1;
                        assert(copies::<S, E>(segments(seen)[current].push(node)) =~= copies::<
                            S,
                            E,
                        >(segments(seen)[current]).push(Step::Copy(node)));
                        assert forall|k: int| 0 <= k < self.states@.len() implies {
                            &&& (#[trigger] self.states@[k]).index == k
                            &&& self.states@[k].label@ == label_text(
                                k as nat,
                                purpose_at(k, self.states@.len() as int + 1),
                            )
                            &&& self.states@[k].body@ == open_body(next, k)
                        } by {
                            if k < current {
                                assert(self.states@[k] == self.states@.drop_last()[k]);
                                assert(before[k] == before.drop_last()[k]);
                            }
                        }
                    }
                },
            }
            proof {
                assert forall|j: int| 0 <= j < next.len() implies !((#[trigger] next[j]).role()
                    is Misplaced) by {
                    if j < position {
                        assert(seen[j] == next[j]);
                    }
                }
            }
            position += 1;
        }
        proof {
            assert(all.take(position as int) =~= all);
        }
        let ghost before = self.states@;
        let current = self.curr_state();
        let end = self.add_state(Purpose::End);
        let ghost opened = self.states@;
        if self.states[current].body.len() > 0 {
            self.add_stmt(current, Step::Enter(end));
        }
        let ghost pointed = self.states@;
        self.add_stmt(end, Step::Finish);
        proof {
            lemma_segments_len(all);
            assert forall|k: int| 0 <= k < self.states@.len() implies {
                &&& (#[trigger] self.states@[k]).index == k
                &&& self.states@[k].label@ == label_text(
                    k as nat,
                    purpose_at(k, self.states@.len() as int),
                )
                &&& self.states@[k].body@ == state_body(all, k)
            } by {
                if k < end {
                    assert(opened[k] == opened.drop_last()[k]);
                    assert(opened[k] == before[k]);
                    assert(self.states@[k] == pointed[k]);
                    if k == current {
                        assert(before[k].body@ == copies::<S, E>(segments(all)[k]));
                    } else {
                        assert(pointed[k] == opened[k]);
                    }
                }
            }
        }
        Ok(())
    }
}

} // verus!
