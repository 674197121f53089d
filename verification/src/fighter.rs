//! The fighter's state machine: its states, their transitions, and the rules that move
//! a fighter from one state to the next.
use vstd::prelude::*;

use crate::combo::{select_transition, selected_target};
use crate::input::{AiInput, Facing, InputState};
use crate::table::{has_key, lookup, Table};

verus! {

/// One state of a fighter, with the transitions that leave it.
pub struct State {
    /// Names of the animation frames of the state, in order.
    pub animation: Vec<String>,
    /// Input keys and the state each leads to while the state runs.
    pub input_transition: Table<String>,
    /// Input keys and the state each leads to when the state's duration has run out.
    pub on_duration_end_input_transition: Table<String>,
    /// The state entered when the duration runs out, before any input is considered.
    pub auto_transition: Option<String>,
    /// The state entered while the fighter is in the air.
    pub on_air_transition: Option<String>,
    /// The state entered while the fighter stands on the ground.
    pub on_ground_transition: Option<String>,
    /// The state entered when the fighter is hit.
    pub on_hit_transition: Option<String>,
    /// The state entered when the fighter recovers from stun.
    pub on_stun_end_transition: Option<String>,
    /// Names of the collision boxes whose placement this state changes.
    pub collision_boxes: Vec<String>,
    /// Whether the fighter blocks hits in this state.
    pub blocking: bool,
    pub throw_trasition: Option<String>,
    pub throw_escape: bool,
    pub throw_lock: bool,
    pub throw_interrupt_transition: Option<String>,
    /// Whether the fighter turns toward its opponent in this state.
    pub auto_facing: bool,
}

impl State {
    /// A state with no animation, no transition and no box, that neither blocks nor turns.
    pub open spec fn is_blank(self) -> bool {
        &&& self.animation@.len() == 0
        &&& self.input_transition@.len() == 0
        &&& self.on_duration_end_input_transition@.len() == 0
        &&& self.auto_transition is None
        &&& self.on_air_transition is None
        &&& self.on_ground_transition is None
        &&& self.on_hit_transition is None
        &&& self.on_stun_end_transition is None
        &&& self.collision_boxes@.len() == 0
        &&& !self.blocking
        &&& self.throw_trasition is None
        &&& !self.throw_escape
        &&& !self.throw_lock
        &&& self.throw_interrupt_transition is None
        &&& !self.auto_facing
    }
}

impl Default for State {
    fn default() -> (s: State)
        ensures
            s.is_blank(),
    {
        State {
            animation: Vec::new(),
            input_transition: Table::new(),
            on_duration_end_input_transition: Table::new(),
            auto_transition: None,
            on_air_transition: None,
            on_ground_transition: None,
            on_hit_transition: None,
            on_stun_end_transition: None,
            collision_boxes: Vec::new(),
            blocking: false,
            throw_trasition: None,
            throw_escape: false,
            throw_lock: false,
            throw_interrupt_transition: None,
            auto_facing: false,
        }
    }
}

/// Everything a fighter is made of: its resources, collision boxes and states.
pub struct FighterData {
    pub name: String,
    /// Resource names and the files they are loaded from.
    pub resources: Table<String>,
    /// Names of the fighter's collision boxes.
    pub collision_boxes: Vec<String>,
    /// The fighter's states by name.
    pub states: Table<State>,
}

impl Default for FighterData {
    fn default() -> (d: FighterData)
        ensures
            d.name@.len() == 0,
            d.resources@.len() == 0,
            d.collision_boxes@.len() == 0,
            d.states@.len() == 0,
    {
        FighterData {
            name: String::new(),
            resources: Table::new(),
            collision_boxes: Vec::new(),
            states: Table::new(),
        }
    }
}

/// Why a fighter could not act.
#[derive(Debug, Clone, PartialEq, Eq)]
pub enum FighterError {
    /// The fighter's current state is not among its states.
    StateNotFound(String),
    /// A transition leads to a state the fighter does not have.
    UnknownState(String),
    /// A state moves a collision box the fighter does not have.
    CollisionBoxNotFound(String),
}

impl FighterError {
    /// The text of the error.
    pub open spec fn spec_message(self) -> Seq<char> {
        match self {
            FighterError::StateNotFound(s) => "State not find in data, state: "@ + s@,
            FighterError::UnknownState(s) => "Fighter does not have state: "@ + s@,
            FighterError::CollisionBoxNotFound(s) => "Collision box not found: "@ + s@,
        }
    }

    /// The text of the error.
    pub fn message(&self) -> (m: String)
        ensures
            m@ == self.spec_message(),
    {
        match self {
            FighterError::StateNotFound(s) => {
                let mut m = String::from_str("State not find in data, state: ");
                m.append(s.as_str());
                m
            },
            FighterError::UnknownState(s) => {
                let mut m = String::from_str("Fighter does not have state: ");
                m.append(s.as_str());
                m
            },
            FighterError::CollisionBoxNotFound(s) => {
                let mut m = String::from_str("Collision box not found: ");
                m.append(s.as_str());
                m
            },
        }
    }
}

/// A fighter: its data, the state it is in, and what it currently reads and faces.
pub struct Fighter {
    pub data: FighterData,
    /// The name of the current state.
    pub state: String,
    pub input_state: InputState,
    pub facing: Facing,
    pub on_ground: bool,
}

/// The outcome of moving `before` to `target`, if there is one: no target leaves the
/// fighter as it was with `Ok(false)`; a known target becomes the current state with
/// `Ok(true)`; an unknown one leaves the fighter as it was with an error that names it.
pub open spec fn entered(before: Fighter, after: Fighter, r: Result<bool, FighterError>, target: Option<
    String,
>) -> bool {
    match target {
        None => r == Ok::<bool, FighterError>(false) && after == before,
        Some(next) => if has_key(before.data.states@, next@) {
            r == Ok::<bool, FighterError>(true) && after == before.in_state(next)
        } else {
            r == Err::<bool, FighterError>(FighterError::UnknownState(next)) && after == before
        },
    }
}

/// The first of `moved` that is not among `names`.
pub open spec fn first_unknown_box(names: Seq<Seq<char>>, moved: Seq<String>) -> Option<String>
    decreases moved.len(),
{
    if moved.len() == 0 {
        None
    } else {
        match first_unknown_box(names, moved.drop_last()) {
            Some(n) => Some(n),
            None => if names.contains(moved.last()@) {
                None
            } else {
                Some(moved.last())
            },
        }
    }
}

/// When the first `i` boxes are all known and box `i` is not, box `i` is the first unknown.
proof fn lemma_first_unknown_prefix(names: Seq<Seq<char>>, moved: Seq<String>, i: int)
    requires
        0 <= i < moved.len(),
        first_unknown_box(names, moved.subrange(0, i)) is None,
        !names.contains(moved[i]@),
    ensures
        first_unknown_box(names, moved) == Some(moved[i]),
    decreases moved.len(),
{
    if i < moved.len() - 1 {
        assert(moved.drop_last().subrange(0, i) =~= moved.subrange(0, i));
        lemma_first_unknown_prefix(names, moved.drop_last(), i);
    } else {
        assert(moved.drop_last() =~= moved.subrange(0, i));
    }
}

impl Fighter {
    /// The same fighter in the state named `next`.
    pub open spec fn in_state(self, next: String) -> Fighter {
        Fighter { state: next, ..self }
    }

    /// The same fighter facing `facing`.
    pub open spec fn facing_to(self, facing: Facing) -> Fighter {
        Fighter { facing, ..self }
    }

    /// The same fighter reading `input`.
    pub open spec fn reading(self, input: InputState) -> Fighter {
        Fighter { input_state: input, ..self }
    }

    /// Whether the current state turns the fighter toward its opponent.
    pub open spec fn turns_automatically(self) -> bool {
        self.current() matches Some(s) && s.auto_facing
    }

    /// The names of the fighter's collision boxes.
    pub open spec fn box_names(self) -> Seq<Seq<char>> {
        self.data.collision_boxes@.map_values(|b: String| b@)
    }

    /// The current state, if the fighter has it.
    pub open spec fn current(self) -> Option<State> {
        lookup(self.data.states@, self.state@)
    }

    /// Whether the current state is one of the fighter's states.
    pub open spec fn state_known(self) -> bool {
        has_key(self.data.states@, self.state@)
    }

    /// The state that `transition_check` moves to: the most specific held input key of
    /// the current state, else the ground or air transition, as the fighter stands.
    pub open spec fn check_target(self, s: State) -> Option<String> {
        match selected_target(s.input_transition@, self.input_state, self.facing) {
            Some(next) => Some(next),
            None => if self.on_ground {
                s.on_ground_transition
            } else {
                s.on_air_transition
            },
        }
    }

    /// The state entered when the current state's duration runs out: its automatic
    /// transition, else the most specific held key of its end-of-duration inputs.
    pub open spec fn duration_end_target(self, s: State) -> Option<String> {
        match s.auto_transition {
            Some(next) => Some(next),
            None => selected_target(
                s.on_duration_end_input_transition@,
                self.input_state,
                self.facing,
            ),
        }
    }

    /// A fighter in the state named "stand", facing right, off the ground, with no button
    /// held.
    pub fn new(data: FighterData) -> (f: Fighter)
        ensures
            f.data == data,
            f.state@ == "stand"@,
            f.input_state == InputState::released(),
            f.facing == Facing::Right,
            !f.on_ground,
    {
        Fighter {
            data,
            state: String::from_str("stand"),
            input_state: InputState::default(),
            facing: Facing::Right,
            on_ground: false,
        }
    }

    /// The current state, or an error naming it when the fighter does not have it.
    pub fn current_state(&self) -> (r: Result<&State, FighterError>)
        ensures
            self.current() is None ==> r == Err::<&State, FighterError>(
                FighterError::StateNotFound(self.state),
            ),
            self.current() matches Some(s) ==> r matches Ok(t) && *t == s,
            self.current() is Some <==> self.state_known(),
    {
        proof {
            crate::table::lemma_find_key(self.data.states@, self.state@);
        }
        match self.data.states.get(&self.state) {
            Some(s) => Ok(s),
            None => Err(FighterError::StateNotFound(self.state.clone())),
        }
    }

    /// The target of the most specific held key of `tran_map` for this fighter's input
    /// and facing; among equally specific keys the one listed last.
    pub fn check_input_transition(&self, tran_map: &Table<String>) -> (r: Option<String>)
        ensures
            r == selected_target(tran_map@, self.input_state, self.facing),
    {
        select_transition(tran_map, &self.input_state, self.facing)
    }

    /// Enters the state named `next`, or fails, unchanged, when there is no such state.
    pub fn change_state(&mut self, next: String) -> (r: Result<(), FighterError>)
        ensures
            has_key(old(self).data.states@, next@) ==> r is Ok && *final(self) == old(self).in_state(
                next,
            ),
            !has_key(old(self).data.states@, next@) ==> r == Err::<(), FighterError>(
                FighterError::UnknownState(next),
            ) && *final(self) == *old(self),
    {
        if self.data.states.contains_key(&next) {
            self.state = next;
            Ok(())
        } else {
            Err(FighterError::UnknownState(next))
        }
    }

    /// Moves to `target` if there is one; `Ok(true)` when a state was entered.
    fn enter(&mut self, target: Option<String>) -> (r: Result<bool, FighterError>)
        ensures
            entered(*old(self), *final(self), r, target),
    {
        match target {
            Some(next) => match self.change_state(next) {
                Ok(()) => Ok(true),
                Err(e) => Err(e),
            },
            None => Ok(false),
        }
    }

    /// Takes the transition that the current input, or else the ground under the fighter,
    /// calls for. `Ok(true)` when a state was entered.
    pub fn transition_check(&mut self) -> (r: Result<bool, FighterError>)
        ensures
            old(self).current() is None ==> r == Err::<bool, FighterError>(
                FighterError::StateNotFound(old(self).state),
            ) && *final(self) == *old(self),
            old(self).current() matches Some(s) ==> entered(
                *old(self),
                *final(self),
                r,
                old(self).check_target(s),
            ),
    {
        let target = match self.current_state() {
            Err(e) => return Err(e),
            Ok(s) => match self.check_input_transition(&s.input_transition) {
                Some(next) => Some(next),
                None => if self.on_ground {
                    s.on_ground_transition.clone()
                } else {
                    s.on_air_transition.clone()
                },
            },
        };
        self.enter(target)
    }

    /// Leaves the current state for its stun-end transition, if it has one: the step taken
    /// once the fighter's stun has run out. `Ok(true)` when a state was entered.
    pub fn stun_end_transition(&mut self) -> (r: Result<bool, FighterError>)
        ensures
            old(self).current() is None ==> r == Err::<bool, FighterError>(
                FighterError::StateNotFound(old(self).state),
            ) && *final(self) == *old(self),
            old(self).current() matches Some(s) ==> entered(
                *old(self),
                *final(self),
                r,
                s.on_stun_end_transition,
            ),
    {
        let target = match self.current_state() {
            Err(e) => return Err(e),
            Ok(s) => s.on_stun_end_transition.clone(),
        };
        self.enter(target)
    }

    /// Leaves the current state once its duration has run out: for its automatic
    /// transition if it has one, else for the most specific held key of its
    /// end-of-duration inputs. `Ok(true)` when a state was entered.
    pub fn duration_end_transition(&mut self) -> (r: Result<bool, FighterError>)
        ensures
            old(self).current() is None ==> r == Err::<bool, FighterError>(
                FighterError::StateNotFound(old(self).state),
            ) && *final(self) == *old(self),
            old(self).current() matches Some(s) ==> entered(
                *old(self),
                *final(self),
                r,
                old(self).duration_end_target(s),
            ),
    {
        let target = match self.current_state() {
            Err(e) => return Err(e),
            Ok(s) => match &s.auto_transition {
                Some(next) => Some(next.clone()),
                None => self.check_input_transition(&s.on_duration_end_input_transition),
            },
        };
        self.enter(target)
    }

    /// Whether the fighter blocks in its current state.
    pub fn blocking(&self) -> (b: bool)
        requires
            self.state_known(),
        ensures
            b == self.current()->0.blocking,
    {
        match self.current_state() {
            Ok(s) => s.blocking,
            Err(_) => false,
        }
    }

    /// Reacts to a hit by taking the current state's on-hit transition, if it has one.
    /// `Ok(true)` when a state was entered.
    pub fn on_hit(&mut self) -> (r: Result<bool, FighterError>)
        requires
            old(self).state_known(),
        ensures
            entered(*old(self), *final(self), r, old(self).current()->0.on_hit_transition),
    {
        let target = match self.current_state() {
            Ok(s) => s.on_hit_transition.clone(),
            Err(_) => None,
        };
        self.enter(target)
    }

    /// Turns toward the opponent (to the right exactly when `toward_right`) if the current
    /// state turns automatically; otherwise nothing changes.
    pub fn auto_face(&mut self, toward_right: bool)
        ensures
            old(self).turns_automatically() ==> *final(self) == old(self).facing_to(
                Facing::toward(toward_right),
            ),
            !old(self).turns_automatically() ==> *final(self) == *old(self),
    {
        let turn = match self.current_state() {
            Ok(s) => s.auto_facing,
            Err(_) => false,
        };
        if turn {
            self.facing = Facing::toward(toward_right);
        }
    }

    /// Reads the buttons an AI chose, turning backward and forward into left and right
    /// according to where the fighter faces.
    pub fn set_ai_input(&mut self, ai: &AiInput)
        ensures
            *final(self) == old(self).reading(InputState::spec_from_ai(*ai, old(self).facing)),
    {
        self.input_state = InputState::from_ai(ai, self.facing);
    }

    /// Checks that every collision box the current state moves is one of the fighter's
    /// boxes; the error names the first that is not.
    pub fn check_collision_boxes(&self) -> (r: Result<(), FighterError>)
        ensures
            self.current() is None ==> r == Err::<(), FighterError>(
                FighterError::StateNotFound(self.state),
            ),
            self.current() matches Some(s) ==> r == (match first_unknown_box(
                self.box_names(),
                s.collision_boxes@,
            ) {
                Some(name) => Err(FighterError::CollisionBoxNotFound(name)),
                None => Ok(()),
            }),
    {
        let s = match self.current_state() {
            Err(e) => return Err(e),
            Ok(s) => s,
        };
        let ghost names = self.box_names();
        let mut i: usize = 0;
        assert(s.collision_boxes@.subrange(0, 0) =~= Seq::<String>::empty());
        while i < s.collision_boxes.len()
            invariant
                i <= s.collision_boxes.len(),
                names == self.box_names(),
                self.current() == Some(*s),
                first_unknown_box(names, s.collision_boxes@.subrange(0, i as int)) is None,
            decreases s.collision_boxes.len() - i,
        {
            let ghost next = s.collision_boxes@.subrange(0, i + 1);
            assert(next.drop_last() =~= s.collision_boxes@.subrange(0, i as int));
            let name = &s.collision_boxes[i];
            if !contains_name(&self.data.collision_boxes, name) {
                proof {
                    lemma_first_unknown_prefix(names, s.collision_boxes@, i as int);
                }
                return Err(FighterError::CollisionBoxNotFound(name.clone()));
            }
            i += 1;
        }
        assert(s.collision_boxes@.subrange(0, i as int) =~= s.collision_boxes@);
        Ok(())
    }
}

/// Whether `names` holds `name`.
pub fn contains_name(names: &Vec<String>, name: &String) -> (b: bool)
    ensures
        b == names@.map_values(|s: String| s@).contains(name@),
{
    let ghost views = names@.map_values(|s: String| s@);
    let mut i: usize = 0;
    while i < names.len()
        invariant
            i <= names.len(),
            views == names@.map_values(|s: String| s@),
            forall|j: int| 0 <= j < i ==> views[j] != name@,
        decreases names.len() - i,
    {
        if names[i] == *name {
            assert(views[i as int] == name@);
            return true;
        }
        i += 1;
    }
    false
}

} // verus!
