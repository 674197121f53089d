use vstd::prelude::*;

verus! {

/// Which way a fighter looks.
#[derive(Clone, Copy, Debug, PartialEq, Eq, Structural)]
pub enum Facing {
    Right,
    Left,
}

impl Facing {
    /// The sign of the facing direction on the horizontal axis.
    pub fn sign(self) -> (s: i8)
        ensures
            s == (if self == Facing::Right { 1i8 } else { -1i8 }),
    {
        match self {
            Facing::Right => 1,
            Facing::Left => -1,
        }
    }

    /// The facing direction that looks toward the right exactly when `right` holds.
    pub open spec fn spec_toward(right: bool) -> Facing {
        if right {
            Facing::Right
        } else {
            Facing::Left
        }
    }

    /// The facing direction that looks toward the right exactly when `right` holds.
    #[verifier::when_used_as_spec(spec_toward)]
    pub fn toward(right: bool) -> (f: Facing)
        ensures
            f == Facing::spec_toward(right),
    {
        if right {
            Facing::Right
        } else {
            Facing::Left
        }
    }
}

/// The buttons a fighter reads, as named in transition keys.
/// `Backward` and `Forward` are relative to the direction the fighter faces.
#[derive(Clone, Copy, Debug, PartialEq, Eq, Structural)]
pub enum Button {
    Backward,
    Forward,
    Up,
    Down,
    Throw,
    Light,
    Heavy,
}

/// The buttons held in the current frame; `left` and `right` are absolute directions.
#[derive(Clone, Copy, Debug, PartialEq, Eq, Structural)]
pub struct InputState {
    pub left: bool,
    pub right: bool,
    pub up: bool,
    pub down: bool,
    pub throw: bool,
    pub light: bool,
    pub heavy: bool,
}

/// The buttons an AI player chooses to hold; `backward` and `forward` are relative
/// to the direction its fighter faces.
#[derive(Clone, Copy, Debug, PartialEq, Eq, Structural)]
pub struct AiInput {
    pub backward: bool,
    pub forward: bool,
    pub up: bool,
    pub down: bool,
    pub throw: bool,
    pub light: bool,
    pub heavy: bool,
}

impl InputState {
    /// No button held.
    pub open spec fn released() -> InputState {
        InputState {
            left: false,
            right: false,
            up: false,
            down: false,
            throw: false,
            light: false,
            heavy: false,
        }
    }

    /// Whether `button` is held, for a fighter facing `facing`.
    pub open spec fn spec_pressed(self, button: Button, facing: Facing) -> bool {
        match button {
            Button::Backward => if facing == Facing::Right {
                self.left
            } else {
                self.right
            },
            Button::Forward => if facing == Facing::Right {
                self.right
            } else {
                self.left
            },
            Button::Up => self.up,
            Button::Down => self.down,
            Button::Throw => self.throw,
            Button::Light => self.light,
            Button::Heavy => self.heavy,
        }
    }

    /// The same buttons with left and right exchanged.
    pub open spec fn mirrored(self) -> InputState {
        InputState { left: self.right, right: self.left, ..self }
    }

    /// Whether `button` is held, for a fighter facing `facing`.
    pub fn pressed(&self, button: Button, facing: Facing) -> (b: bool)
        ensures
            b == self.spec_pressed(button, facing),
    {
        match button {
            Button::Backward => if facing == Facing::Right {
                self.left
            } else {
                self.right
            },
            Button::Forward => if facing == Facing::Right {
                self.right
            } else {
                self.left
            },
            Button::Up => self.up,
            Button::Down => self.down,
            Button::Throw => self.throw,
            Button::Light => self.light,
            Button::Heavy => self.heavy,
        }
    }

    /// The absolute buttons held by a fighter facing `facing` whose AI chose `ai`:
    /// backward and forward become left or right according to the facing direction.
    pub open spec fn spec_from_ai(ai: AiInput, facing: Facing) -> InputState {
        InputState {
            left: if facing == Facing::Right {
                ai.backward
            } else {
                ai.forward
            },
            right: if facing == Facing::Right {
                ai.forward
            } else {
                ai.backward
            },
            up: ai.up,
            down: ai.down,
            throw: ai.throw,
            light: ai.light,
            heavy: ai.heavy,
        }
    }

    /// The absolute buttons held by a fighter facing `facing` whose AI chose `ai`.
    pub fn from_ai(ai: &AiInput, facing: Facing) -> (s: InputState)
        ensures
            s == InputState::spec_from_ai(*ai, facing),
    {
        let right_facing = facing == Facing::Right;
        InputState {
            left: if right_facing {
                ai.backward
            } else {
                ai.forward
            },
            right: if right_facing {
                ai.forward
            } else {
                ai.backward
            },
            up: ai.up,
            down: ai.down,
            throw: ai.throw,
            light: ai.light,
            heavy: ai.heavy,
        }
    }
}

impl Default for InputState {
    fn default() -> (s: InputState)
        ensures
            s == InputState::released(),
    {
        InputState {
            left: false,
            right: false,
            up: false,
            down: false,
            throw: false,
            light: false,
            heavy: false,
        }
    }
}

impl AiInput {
    /// No button chosen.
    pub open spec fn idle() -> AiInput {
        AiInput {
            backward: false,
            forward: false,
            up: false,
            down: false,
            throw: false,
            light: false,
            heavy: false,
        }
    }

    /// The input of the first candidate whose flag is set, or no button at all.
    pub open spec fn spec_first_in_range(inputs: Seq<AiInput>, in_range: Seq<bool>) -> AiInput
        decreases inputs.len(),
    {
        if inputs.len() == 0 || in_range.len() == 0 {
            AiInput::idle()
        } else if in_range[0] {
            inputs[0]
        } else {
            AiInput::spec_first_in_range(inputs.drop_first(), in_range.drop_first())
        }
    }

    /// Picks the input of the first setting whose distance range holds the opponent
    /// (`in_range[i]` tells whether setting `i` does), or no button when none does.
    pub fn first_in_range(inputs: &Vec<AiInput>, in_range: &Vec<bool>) -> (r: AiInput)
        requires
            inputs.len() == in_range.len(),
        ensures
            r == AiInput::spec_first_in_range(inputs@, in_range@),
            (exists|i: int| 0 <= i < in_range.len() && in_range@[i]) ==> exists|i: int|
                0 <= i < in_range.len() && in_range@[i] && r == inputs@[i] && (forall|j: int|
                    0 <= j < i ==> !in_range@[j]),
            (forall|i: int| 0 <= i < in_range.len() ==> !in_range@[i]) ==> r == AiInput::idle(),
    {
        let mut i: usize = 0;
        assert(inputs@.skip(0) =~= inputs@);
        assert(in_range@.skip(0) =~= in_range@);
        while i < inputs.len()
            invariant
                inputs.len() == in_range.len(),
                i <= inputs.len(),
                forall|j: int| 0 <= j < i ==> !in_range@[j],
                AiInput::spec_first_in_range(inputs@, in_range@) == AiInput::spec_first_in_range(
                    inputs@.skip(i as int),
                    in_range@.skip(i as int),
                ),
            decreases inputs.len() - i,
        {
            assert(inputs@.skip(i as int).drop_first() =~= inputs@.skip(i + 1));
            assert(in_range@.skip(i as int).drop_first() =~= in_range@.skip(i + 1));
            if in_range[i] {
                return inputs[i];
            }
            i += 1;
        }
        AiInput::default()
    }
}

impl Default for AiInput {
    fn default() -> (a: AiInput)
        ensures
            a == AiInput::idle(),
    {
        AiInput {
            backward: false,
            forward: false,
            up: false,
            down: false,
            throw: false,
            light: false,
            heavy: false,
        }
    }
}

} // verus!
