//! Checking a fighter's data: every input key is made of known tokens, every input
//! transition leads to a state of the fighter, and every animation frame is a resource.
use vstd::prelude::*;

use crate::combo::{is_key_valid, key_valid};
use crate::fighter::{FighterData, State};
use crate::table::{has_key, Table};

verus! {

/// The report of an input key of state `state` that holds an unknown token.
pub open spec fn key_error(state: Seq<char>, key: Seq<char>) -> Seq<char> {
    "State("@ + state + ") input_transition key("@ + key + ") not correct. "@
}

/// The report of an input transition of state `state` toward a state that does not exist.
pub open spec fn target_error(state: Seq<char>, target: Seq<char>) -> Seq<char> {
    "State("@ + state + ") input_transition value("@ + target + ") not correct. "@
}

/// The report of an animation frame that is not a resource.
pub open spec fn resource_error(name: Seq<char>) -> Seq<char> {
    "Animation resource missing: "@ + name
}

/// Reports for the input keys, in order, that hold an unknown token.
pub open spec fn key_errors(state: Seq<char>, trans: Seq<(Seq<char>, String)>) -> Seq<Seq<char>>
    decreases trans.len(),
{
    if trans.len() == 0 {
        Seq::empty()
    } else {
        key_errors(state, trans.drop_last()) + if key_valid(trans.last().0) {
            Seq::<Seq<char>>::empty()
        } else {
            seq![key_error(state, trans.last().0)]
        }
    }
}

/// Reports for the input transitions, in order, toward states not in `states`.
pub open spec fn target_errors(
    state: Seq<char>,
    trans: Seq<(Seq<char>, String)>,
    states: Seq<(Seq<char>, State)>,
) -> Seq<Seq<char>>
    decreases trans.len(),
{
    if trans.len() == 0 {
        Seq::empty()
    } else {
        target_errors(state, trans.drop_last(), states) + if has_key(states, trans.last().1@) {
            Seq::<Seq<char>>::empty()
        } else {
            seq![target_error(state, trans.last().1@)]
        }
    }
}

/// Reports for the animation frames, in order, that are not in `resources`.
pub open spec fn resource_errors(frames: Seq<String>, resources: Seq<(Seq<char>, String)>) -> Seq<
    Seq<char>,
>
    decreases frames.len(),
{
    if frames.len() == 0 {
        Seq::empty()
    } else {
        resource_errors(frames.drop_last(), resources) + if has_key(resources, frames.last()@) {
            Seq::<Seq<char>>::empty()
        } else {
            seq![resource_error(frames.last()@)]
        }
    }
}

/// Whether every token of every input key is known.
pub open spec fn keys_valid(trans: Seq<(Seq<char>, String)>) -> bool {
    forall|i: int| 0 <= i < trans.len() ==> key_valid(#[trigger] trans[i].0)
}

/// Whether every input transition leads to one of `states`.
pub open spec fn targets_known(trans: Seq<(Seq<char>, String)>, states: Seq<(Seq<char>, State)>) -> bool {
    forall|i: int| 0 <= i < trans.len() ==> has_key(states, (#[trigger] trans[i]).1@)
}

/// Whether every animation frame is one of `resources`.
pub open spec fn frames_known(frames: Seq<String>, resources: Seq<(Seq<char>, String)>) -> bool {
    forall|i: int| 0 <= i < frames.len() ==> has_key(resources, (#[trigger] frames[i])@)
}

impl FighterData {
    /// The reports for state `s`, named `name`: its unknown keys, then its unknown targets,
    /// then its missing animation frames.
    pub open spec fn state_errors(self, name: Seq<char>, s: State) -> Seq<Seq<char>> {
        key_errors(name, s.input_transition@) + target_errors(
            name,
            s.input_transition@,
            self.states@,
        ) + resource_errors(s.animation@, self.resources@)
    }

    /// The reports for the given states, in order.
    pub open spec fn errors_of(self, states: Seq<(Seq<char>, State)>) -> Seq<Seq<char>>
        decreases states.len(),
    {
        if states.len() == 0 {
            Seq::empty()
        } else {
            self.errors_of(states.drop_last()) + self.state_errors(
                states.last().0,
                states.last().1,
            )
        }
    }

    /// All reports for the data, state by state.
    pub open spec fn errors(self) -> Seq<Seq<char>> {
        self.errors_of(self.states@)
    }

    /// Whether state `s` has only known keys and targets and only frames that are
    /// resources.
    pub open spec fn state_valid(self, s: State) -> bool {
        &&& keys_valid(s.input_transition@)
        &&& targets_known(s.input_transition@, self.states@)
        &&& frames_known(s.animation@, self.resources@)
    }

    /// Whether every state of the data is valid.
    pub open spec fn is_valid(self) -> bool {
        forall|i: int| 0 <= i < self.states@.len() ==> self.state_valid(#[trigger] self.states@[i].1)
    }

    /// Checks the data. On failure the reports name every unknown input key, every input
    /// transition toward a missing state and every animation frame that is not a resource,
    /// state by state.
    pub fn validate(&self) -> (r: Result<(), Vec<String>>)
        ensures
            r is Ok <==> self.is_valid(),
            r is Ok <==> self.errors().len() == 0,
            r matches Err(v) ==> v@.map_values(|m: String| m@) == self.errors(),
    {
        let mut errors: Vec<String> = Vec::new();
        let n = self.states.len();
        let mut i: usize = 0;
        assert(errors@.map_values(|m: String| m@) =~= Seq::<Seq<char>>::empty());
        assert(self.states@.subrange(0, 0) =~= Seq::<(Seq<char>, State)>::empty());
        while i < n
            invariant
                n == self.states@.len(),
                i <= n,
                errors@.map_values(|m: String| m@) == self.errors_of(
                    self.states@.subrange(0, i as int),
                ),
            decreases n - i,
        {
            let ghost prefix = self.states@.subrange(0, i + 1);
            assert(prefix.drop_last() =~= self.states@.subrange(0, i as int));
            let name = self.states.key_at(i);
            let s = self.states.value_at(i);
            push_key_errors(name, &s.input_transition, &mut errors);
            push_target_errors(name, &s.input_transition, &self.states, &mut errors);
            push_resource_errors(&s.animation, &self.resources, &mut errors);
            assert(errors@.map_values(|m: String| m@) =~= self.errors_of(prefix));
            i += 1;
        }
        assert(self.states@.subrange(0, n as int) =~= self.states@);
        proof {
            self.lemma_errors_empty(self.states@);
        }
        if errors.len() == 0 {
            Ok(())
        } else {
            Err(errors)
        }
    }

    /// There is no report for the given states exactly when each of them is valid.
    pub proof fn lemma_errors_empty(self, states: Seq<(Seq<char>, State)>)
        ensures
            self.errors_of(states).len() == 0 <==> forall|i: int|
                0 <= i < states.len() ==> self.state_valid(#[trigger] states[i].1),
        decreases states.len(),
    {
        if states.len() > 0 {
            let init = states.drop_last();
            self.lemma_errors_empty(init);
            let s = states.last().1;
            lemma_key_errors_empty(states.last().0, s.input_transition@);
            lemma_target_errors_empty(states.last().0, s.input_transition@, self.states@);
            lemma_resource_errors_empty(s.animation@, self.resources@);
            assert forall|i: int| 0 <= i < init.len() implies #[trigger] init[i] == states[i] by {}
            if !(forall|i: int| 0 <= i < states.len() ==> self.state_valid(#[trigger] states[i].1)) {
                let i = choose|i: int| 0 <= i < states.len() && !self.state_valid(#[trigger] states[i].1);
                if i < states.len() - 1 {
                    assert(!self.state_valid(init[i].1));
                }
            }
            if forall|i: int| 0 <= i < states.len() ==> self.state_valid(#[trigger] states[i].1) {
                assert forall|i: int| 0 <= i < init.len() implies self.state_valid(
                    #[trigger] init[i].1,
                ) by {
                    assert(self.state_valid(states[i].1));
                }
                assert(self.state_valid(states[states.len() - 1].1));
            }
        }
    }
}

/// No key is reported exactly when every key is valid.
pub proof fn lemma_key_errors_empty(state: Seq<char>, trans: Seq<(Seq<char>, String)>)
    ensures
        key_errors(state, trans).len() == 0 <==> keys_valid(trans),
    decreases trans.len(),
{
    if trans.len() > 0 {
        let init = trans.drop_last();
        lemma_key_errors_empty(state, init);
        assert forall|i: int| 0 <= i < init.len() implies #[trigger] init[i] == trans[i] by {}
        if !keys_valid(trans) {
            let i = choose|i: int| 0 <= i < trans.len() && !key_valid(#[trigger] trans[i].0);
            if i < trans.len() - 1 {
                assert(!key_valid(init[i].0));
            }
        } else {
            assert forall|i: int| 0 <= i < init.len() implies key_valid(#[trigger] init[i].0) by {
                assert(key_valid(trans[i].0));
            }
            assert(key_valid(trans[trans.len() - 1].0));
        }
    }
}

/// No target is reported exactly when every target is known.
pub proof fn lemma_target_errors_empty(
    state: Seq<char>,
    trans: Seq<(Seq<char>, String)>,
    states: Seq<(Seq<char>, State)>,
)
    ensures
        target_errors(state, trans, states).len() == 0 <==> targets_known(trans, states),
    decreases trans.len(),
{
    if trans.len() > 0 {
        let init = trans.drop_last();
        lemma_target_errors_empty(state, init, states);
        assert forall|i: int| 0 <= i < init.len() implies #[trigger] init[i] == trans[i] by {}
        if !targets_known(trans, states) {
            let i = choose|i: int| 0 <= i < trans.len() && !has_key(states, (#[trigger] trans[i]).1@);
            if i < trans.len() - 1 {
                assert(!has_key(states, init[i].1@));
            }
        } else {
            assert forall|i: int| 0 <= i < init.len() implies has_key(
                states,
                (#[trigger] init[i]).1@,
            ) by {
                assert(has_key(states, trans[i].1@));
            }
            assert(has_key(states, trans[trans.len() - 1].1@));
        }
    }
}

/// No frame is reported exactly when every frame is a resource.
pub proof fn lemma_resource_errors_empty(frames: Seq<String>, resources: Seq<(Seq<char>, String)>)
    ensures
        resource_errors(frames, resources).len() == 0 <==> frames_known(frames, resources),
    decreases frames.len(),
{
    if frames.len() > 0 {
        let init = frames.drop_last();
        lemma_resource_errors_empty(init, resources);
        assert forall|i: int| 0 <= i < init.len() implies #[trigger] init[i] == frames[i] by {}
        if !frames_known(frames, resources) {
            let i = choose|i: int| 0 <= i < frames.len() && !has_key(resources, (#[trigger] frames[i])@);
            if i < frames.len() - 1 {
                assert(!has_key(resources, init[i]@));
            }
        } else {
            assert forall|i: int| 0 <= i < init.len() implies has_key(
                resources,
                (#[trigger] init[i])@,
            ) by {
                assert(has_key(resources, frames[i]@));
            }
            assert(has_key(resources, frames[frames.len() - 1]@));
        }
    }
}

/// The report of an input key of state `state` that holds an unknown token.
fn key_error_message(state: &String, key: &String) -> (m: String)
    ensures
        m@ == key_error(state@, key@),
{
    let mut m = String::from_str("State(");
    m.append(state.as_str());
    m.append(") input_transition key(");
    m.append(key.as_str());
    m.append(") not correct. ");
    m
}

/// The report of an input transition of state `state` toward a missing state.
fn target_error_message(state: &String, target: &String) -> (m: String)
    ensures
        m@ == target_error(state@, target@),
{
    let mut m = String::from_str("State(");
    m.append(state.as_str());
    m.append(") input_transition value(");
    m.append(target.as_str());
    m.append(") not correct. ");
    m
}

/// The report of an animation frame that is not a resource.
fn resource_error_message(name: &String) -> (m: String)
    ensures
        m@ == resource_error(name@),
{
    let mut m = String::from_str("Animation resource missing: ");
    m.append(name.as_str());
    m
}

/// Appends the reports of the unknown keys of `trans`.
fn push_key_errors(state: &String, trans: &Table<String>, errors: &mut Vec<String>)
    ensures
        final(errors)@.map_values(|m: String| m@) == old(errors)@.map_values(|m: String| m@)
            + key_errors(state@, trans@),
{
    let ghost start = old(errors)@.map_values(|m: String| m@);
    let n = trans.len();
    let mut i: usize = 0;
    assert(trans@.subrange(0, 0) =~= Seq::<(Seq<char>, String)>::empty());
    assert(start + key_errors(state@, trans@.subrange(0, 0)) =~= start);
    while i < n
        invariant
            n == trans@.len(),
            i <= n,
            errors@.map_values(|m: String| m@) == start + key_errors(
                state@,
                trans@.subrange(0, i as int),
            ),
        decreases n - i,
    {
        let ghost prefix = trans@.subrange(0, i + 1);
        assert(prefix.drop_last() =~= trans@.subrange(0, i as int));
        assert(prefix.last() == trans@[i as int]);
        let key = trans.key_at(i);
        let ghost before = errors@;
        if !is_key_valid(key) {
            let m = key_error_message(state, key);
            errors.push(m);
            assert(errors@.map_values(|m: String| m@) =~= before.map_values(|m: String| m@).push(
                key_error(state@, key@),
            ));
        }
        assert(errors@.map_values(|m: String| m@) =~= start + key_errors(state@, prefix));
        i += 1;
    }
    assert(trans@.subrange(0, n as int) =~= trans@);
}

/// Appends the reports of the targets of `trans` that are not in `states`.
fn push_target_errors(
    state: &String,
    trans: &Table<String>,
    states: &Table<State>,
    errors: &mut Vec<String>,
)
    ensures
        final(errors)@.map_values(|m: String| m@) == old(errors)@.map_values(|m: String| m@)
            + target_errors(state@, trans@, states@),
{
    let ghost start = old(errors)@.map_values(|m: String| m@);
    let n = trans.len();
    let mut i: usize = 0;
    assert(trans@.subrange(0, 0) =~= Seq::<(Seq<char>, String)>::empty());
    assert(start + target_errors(state@, trans@.subrange(0, 0), states@) =~= start);
    while i < n
        invariant
            n == trans@.len(),
            i <= n,
            errors@.map_values(|m: String| m@) == start + target_errors(
                state@,
                trans@.subrange(0, i as int),
                states@,
            ),
        decreases n - i,
    {
        let ghost prefix = trans@.subrange(0, i + 1);
        assert(prefix.drop_last() =~= trans@.subrange(0, i as int));
        assert(prefix.last() == trans@[i as int]);
        let target = trans.value_at(i);
        let ghost before = errors@;
        if !states.contains_key(target) {
            let m = target_error_message(state, target);
            errors.push(m);
            assert(errors@.map_values(|m: String| m@) =~= before.map_values(|m: String| m@).push(
                target_error(state@, target@),
            ));
        }
        assert(errors@.map_values(|m: String| m@) =~= start + target_errors(
            state@,
            prefix,
            states@,
        ));
        i += 1;
    }
    assert(trans@.subrange(0, n as int) =~= trans@);
}

/// Appends the reports of the frames that are not in `resources`.
fn push_resource_errors(frames: &Vec<String>, resources: &Table<String>, errors: &mut Vec<String>)
    ensures
        final(errors)@.map_values(|m: String| m@) == old(errors)@.map_values(|m: String| m@)
            + resource_errors(frames@, resources@),
{
    let ghost start = old(errors)@.map_values(|m: String| m@);
    let mut i: usize = 0;
    assert(frames@.subrange(0, 0) =~= Seq::<String>::empty());
    assert(start + resource_errors(frames@.subrange(0, 0), resources@) =~= start);
    while i < frames.len()
        invariant
            i <= frames.len(),
            errors@.map_values(|m: String| m@) == start + resource_errors(
                frames@.subrange(0, i as int),
                resources@,
            ),
        decreases frames.len() - i,
    {
        let ghost prefix = frames@.subrange(0, i + 1);
        assert(prefix.drop_last() =~= frames@.subrange(0, i as int));
        assert(prefix.last() == frames@[i as int]);
        let name = &frames[i];
        let ghost before = errors@;
        if !resources.contains_key(name) {
            let m = resource_error_message(name);
            errors.push(m);
            assert(errors@.map_values(|m: String| m@) =~= before.map_values(|m: String| m@).push(
                resource_error(name@),
            ));
        }
        assert(errors@.map_values(|m: String| m@) =~= start + resource_errors(prefix, resources@));
        i += 1;
    }
    assert(frames@.subrange(0, frames.len() as int) =~= frames@);
}

/// A value is in a joined sequence exactly when it is in one of the parts.
proof fn lemma_contains_join<T>(a: Seq<T>, b: Seq<T>, x: T)
    ensures
        (a + b).contains(x) <==> (a.contains(x) || b.contains(x)),
{
    if a.contains(x) {
        let i = choose|i: int| 0 <= i < a.len() && a[i] == x;
        assert((a + b)[i] == x);
    }
    if b.contains(x) {
        let i = choose|i: int| 0 <= i < b.len() && b[i] == x;
        assert((a + b)[a.len() + i] == x);
    }
    if (a + b).contains(x) {
        let i = choose|i: int| 0 <= i < (a + b).len() && (a + b)[i] == x;
        if i < a.len() {
            assert(a[i] == x);
        } else {
            assert(b[i - a.len()] == x);
        }
    }
}

/// The key reports are exactly one per input key with an unknown token.
pub proof fn lemma_key_reports(state: Seq<char>, trans: Seq<(Seq<char>, String)>, m: Seq<char>)
    ensures
        key_errors(state, trans).contains(m) <==> exists|j: int|
            0 <= j < trans.len() && !key_valid((#[trigger] trans[j]).0) && m == "State("@ + state
                + ") input_transition key("@ + trans[j].0 + ") not correct. "@,
    decreases trans.len(),
{
    if trans.len() > 0 {
        let init = trans.drop_last();
        lemma_key_reports(state, init, m);
        let last = if key_valid(trans.last().0) {
            Seq::<Seq<char>>::empty()
        } else {
            seq![key_error(state, trans.last().0)]
        };
        lemma_contains_join(key_errors(state, init), last, m);
        assert forall|j: int| 0 <= j < init.len() implies #[trigger] init[j] == trans[j] by {}
        if last.contains(m) {
            assert(last[0] == m);
            assert(trans[trans.len() - 1] == trans.last());
        }
        if exists|j: int|
            0 <= j < trans.len() && !key_valid((#[trigger] trans[j]).0) && m == "State("@ + state
                + ") input_transition key("@ + trans[j].0 + ") not correct. "@ {
            let j = choose|j: int|
                0 <= j < trans.len() && !key_valid((#[trigger] trans[j]).0) && m == "State("@
                    + state + ") input_transition key("@ + trans[j].0 + ") not correct. "@;
            if j < init.len() {
                assert(init[j] == trans[j]);
            } else {
                assert(last[0] == m);
            }
        }
    } else {
        assert(key_errors(state, trans) =~= Seq::<Seq<char>>::empty());
    }
}

/// The target reports are exactly one per input transition toward a missing state.
pub proof fn lemma_target_reports(
    state: Seq<char>,
    trans: Seq<(Seq<char>, String)>,
    states: Seq<(Seq<char>, State)>,
    m: Seq<char>,
)
    ensures
        target_errors(state, trans, states).contains(m) <==> exists|j: int|
            0 <= j < trans.len() && !has_key(states, (#[trigger] trans[j]).1@) && m == "State("@
                + state + ") input_transition value("@ + trans[j].1@ + ") not correct. "@,
    decreases trans.len(),
{
    if trans.len() > 0 {
        let init = trans.drop_last();
        lemma_target_reports(state, init, states, m);
        let last = if has_key(states, trans.last().1@) {
            Seq::<Seq<char>>::empty()
        } else {
            seq![target_error(state, trans.last().1@)]
        };
        lemma_contains_join(target_errors(state, init, states), last, m);
        assert forall|j: int| 0 <= j < init.len() implies #[trigger] init[j] == trans[j] by {}
        if last.contains(m) {
            assert(last[0] == m);
            assert(trans[trans.len() - 1] == trans.last());
        }
        if exists|j: int|
            0 <= j < trans.len() && !has_key(states, (#[trigger] trans[j]).1@) && m == "State("@
                + state + ") input_transition value("@ + trans[j].1@ + ") not correct. "@ {
            let j = choose|j: int|
                0 <= j < trans.len() && !has_key(states, (#[trigger] trans[j]).1@) && m
                    == "State("@ + state + ") input_transition value("@ + trans[j].1@
                    + ") not correct. "@;
            if j < init.len() {
                assert(init[j] == trans[j]);
            } else {
                assert(last[0] == m);
            }
        }
    } else {
        assert(target_errors(state, trans, states) =~= Seq::<Seq<char>>::empty());
    }
}

/// The frame reports are exactly one per animation frame that is not a resource.
pub proof fn lemma_resource_reports(
    frames: Seq<String>,
    resources: Seq<(Seq<char>, String)>,
    m: Seq<char>,
)
    ensures
        resource_errors(frames, resources).contains(m) <==> exists|j: int|
            0 <= j < frames.len() && !has_key(resources, (#[trigger] frames[j])@) && m
                == "Animation resource missing: "@ + frames[j]@,
    decreases frames.len(),
{
    if frames.len() > 0 {
        let init = frames.drop_last();
        lemma_resource_reports(init, resources, m);
        let last = if has_key(resources, frames.last()@) {
            Seq::<Seq<char>>::empty()
        } else {
            seq![resource_error(frames.last()@)]
        };
        lemma_contains_join(resource_errors(init, resources), last, m);
        assert forall|j: int| 0 <= j < init.len() implies #[trigger] init[j] == frames[j] by {}
        if last.contains(m) {
            assert(last[0] == m);
            assert(frames[frames.len() - 1] == frames.last());
        }
        if exists|j: int|
            0 <= j < frames.len() && !has_key(resources, (#[trigger] frames[j])@) && m
                == "Animation resource missing: "@ + frames[j]@ {
            let j = choose|j: int|
                0 <= j < frames.len() && !has_key(resources, (#[trigger] frames[j])@) && m
                    == "Animation resource missing: "@ + frames[j]@;
            if j < init.len() {
                assert(init[j] == frames[j]);
            } else {
                assert(last[0] == m);
            }
        }
    } else {
        assert(resource_errors(frames, resources) =~= Seq::<Seq<char>>::empty());
    }
}

impl FighterData {
    /// The data's reports are exactly the reports of its states.
    pub proof fn lemma_reports_by_state(self, states: Seq<(Seq<char>, State)>, m: Seq<char>)
        ensures
            self.errors_of(states).contains(m) <==> exists|i: int|
                0 <= i < states.len() && self.state_errors(
                    (#[trigger] states[i]).0,
                    states[i].1,
                ).contains(m),
        decreases states.len(),
    {
        if states.len() > 0 {
            let init = states.drop_last();
            self.lemma_reports_by_state(init, m);
            lemma_contains_join(
                self.errors_of(init),
                self.state_errors(states.last().0, states.last().1),
                m,
            );
            assert forall|i: int| 0 <= i < init.len() implies #[trigger] init[i] == states[i] by {}
            if exists|i: int|
                0 <= i < states.len() && self.state_errors(
                    (#[trigger] states[i]).0,
                    states[i].1,
                ).contains(m) {
                let i = choose|i: int|
                    0 <= i < states.len() && self.state_errors(
                        (#[trigger] states[i]).0,
                        states[i].1,
                    ).contains(m);
                if i < init.len() {
                    assert(init[i] == states[i]);
                }
            }
            if self.state_errors(states.last().0, states.last().1).contains(m) {
                assert(states[states.len() - 1] == states.last());
            }
        } else {
            assert(self.errors_of(states) =~= Seq::<Seq<char>>::empty());
        }
    }

    /// Validation reports exactly the problems of the data, in these words: for a state
    /// named `n`, "State(n) input_transition key(k) not correct. " for each input key `k`
    /// with an unknown token, "State(n) input_transition value(t) not correct. " for each
    /// input transition toward a missing state `t`, and "Animation resource missing: f" for
    /// each animation frame `f` that is not a resource.
    pub proof fn lemma_reports_name_every_problem(self, m: Seq<char>)
        ensures
            self.errors().contains(m) <==> exists|i: int|
                0 <= i < self.states@.len() && {
                    let n = (#[trigger] self.states@[i]).0;
                    let s = self.states@[i].1;
                    ||| exists|j: int|
                        0 <= j < s.input_transition@.len() && !key_valid(
                            (#[trigger] s.input_transition@[j]).0,
                        ) && m == "State("@ + n + ") input_transition key("@
                            + s.input_transition@[j].0 + ") not correct. "@
                    ||| exists|j: int|
                        0 <= j < s.input_transition@.len() && !has_key(
                            self.states@,
                            (#[trigger] s.input_transition@[j]).1@,
                        ) && m == "State("@ + n + ") input_transition value("@
                            + s.input_transition@[j].1@ + ") not correct. "@
                    ||| exists|j: int|
                        0 <= j < s.animation@.len() && !has_key(
                            self.resources@,
                            (#[trigger] s.animation@[j])@,
                        ) && m == "Animation resource missing: "@ + s.animation@[j]@
                },
    {
        self.lemma_reports_by_state(self.states@, m);
        assert forall|i: int| 0 <= i < self.states@.len() implies #[trigger] self.state_errors(
            self.states@[i].0,
            self.states@[i].1,
        ).contains(m) == {
            let n = self.states@[i].0;
            let s = self.states@[i].1;
            ||| exists|j: int|
                0 <= j < s.input_transition@.len() && !key_valid(
                    (#[trigger] s.input_transition@[j]).0,
                ) && m == "State("@ + n + ") input_transition key("@ + s.input_transition@[j].0
                    + ") not correct. "@
            ||| exists|j: int|
                0 <= j < s.input_transition@.len() && !has_key(
                    self.states@,
                    (#[trigger] s.input_transition@[j]).1@,
                ) && m == "State("@ + n + ") input_transition value("@
                    + s.input_transition@[j].1@ + ") not correct. "@
            ||| exists|j: int|
                0 <= j < s.animation@.len() && !has_key(
                    self.resources@,
                    (#[trigger] s.animation@[j])@,
                ) && m == "Animation resource missing: "@ + s.animation@[j]@
        } by {
            let n = self.states@[i].0;
            let s = self.states@[i].1;
            lemma_key_reports(n, s.input_transition@, m);
            lemma_target_reports(n, s.input_transition@, self.states@, m);
            lemma_resource_reports(s.animation@, self.resources@, m);
            lemma_contains_join(
                key_errors(n, s.input_transition@),
                target_errors(n, s.input_transition@, self.states@),
                m,
            );
            lemma_contains_join(
                key_errors(n, s.input_transition@) + target_errors(
                    n,
                    s.input_transition@,
                    self.states@,
                ),
                resource_errors(s.animation@, self.resources@),
                m,
            );
        }
    }
}

} // verus!
