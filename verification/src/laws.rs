//! Properties that hold across the fighter's operations.
use vstd::prelude::*;

use crate::combo::{
    button_named, key_held, parse_token, selected_target, chosen_index, split_commas,
    token_held, token_valid, lemma_chosen_is_most_specific,
};
use crate::fighter::{entered, first_unknown_box, Fighter, FighterData, FighterError, State};
use crate::input::{AiInput, Button, Facing, InputState};
use crate::table::{has_key, inserted, keys_unique, lookup, lemma_find_key, find_key};
use crate::hits::{fresh_overlaps, overlaps_by, OverlapEvent};
use crate::validation::targets_known;

verus! {

/// The name a transition key uses for a button.
pub open spec fn button_name(b: Button) -> Seq<char> {
    match b {
        Button::Backward => "backward"@,
        Button::Forward => "forward"@,
        Button::Up => "up"@,
        Button::Down => "down"@,
        Button::Throw => "throw"@,
        Button::Light => "light"@,
        Button::Heavy => "heavy"@,
    }
}

/// A button's name is read back as that button, and `!` before it is its negation:
/// whatever is held and wherever the fighter faces, the token `!name` is satisfied
/// exactly when the token `name` is not.
pub proof fn lemma_negated_token(b: Button, input: InputState, facing: Facing)
    ensures
        button_named(button_name(b)) == Some(b),
        parse_token(button_name(b)) == Some((false, b)),
        parse_token(seq!['!'] + button_name(b)) == Some((true, b)),
        token_held(button_name(b), input, facing) == input.spec_pressed(b, facing),
        token_held(seq!['!'] + button_name(b), input, facing) == !token_held(
            button_name(b),
            input,
            facing,
        ),
{
    reveal_strlit("backward");
    reveal_strlit("forward");
    reveal_strlit("up");
    reveal_strlit("down");
    reveal_strlit("throw");
    reveal_strlit("light");
    reveal_strlit("heavy");
    let t = seq!['!'] + button_name(b);
    assert(t.drop_first() =~= button_name(b));
    assert(t[0] == '!');
}

/// Facing left with left and right exchanged reads every key as facing right does.
pub proof fn lemma_mirrored_facing(key: Seq<char>, input: InputState)
    ensures
        key_held(key, input, Facing::Right) == key_held(key, input.mirrored(), Facing::Left),
{
    assert forall|i: int| 0 <= i < split_commas(key).len() implies #[trigger] token_held(
        split_commas(key)[i],
        input,
        Facing::Right,
    ) == token_held(split_commas(key)[i], input.mirrored(), Facing::Left) by {
        let t = split_commas(key)[i];
        match parse_token(t) {
            Some((negated, b)) => {
                assert(input.spec_pressed(b, Facing::Right) == input.mirrored().spec_pressed(
                    b,
                    Facing::Left,
                ));
            },
            None => {},
        }
    }
    if key_held(key, input, Facing::Right) {
        assert forall|i: int| 0 <= i < split_commas(key).len() implies #[trigger] token_held(
            split_commas(key)[i],
            input.mirrored(),
            Facing::Left,
        ) by {
            assert(token_held(split_commas(key)[i], input, Facing::Right));
        }
    }
    if key_held(key, input.mirrored(), Facing::Left) {
        assert forall|i: int| 0 <= i < split_commas(key).len() implies #[trigger] token_held(
            split_commas(key)[i],
            input,
            Facing::Right,
        ) by {
            assert(token_held(split_commas(key)[i], input.mirrored(), Facing::Left));
        }
    }
}

/// The buttons an AI chooses are the buttons its fighter reads: whichever way the fighter
/// faces, it reads backward, forward and every other button exactly as the AI chose them.
pub proof fn lemma_ai_input_read_back(ai: AiInput, facing: Facing)
    ensures
        InputState::spec_from_ai(ai, facing).spec_pressed(Button::Backward, facing)
            == ai.backward,
        InputState::spec_from_ai(ai, facing).spec_pressed(Button::Forward, facing) == ai.forward,
        InputState::spec_from_ai(ai, facing).spec_pressed(Button::Up, facing) == ai.up,
        InputState::spec_from_ai(ai, facing).spec_pressed(Button::Down, facing) == ai.down,
        InputState::spec_from_ai(ai, facing).spec_pressed(Button::Throw, facing) == ai.throw,
        InputState::spec_from_ai(ai, facing).spec_pressed(Button::Light, facing) == ai.light,
        InputState::spec_from_ai(ai, facing).spec_pressed(Button::Heavy, facing) == ai.heavy,
{
}

/// A non-empty token that is not a button name or a negated button name is never
/// satisfied, so a key holding one, as validation reports it, never fires.
pub proof fn lemma_unknown_token_never_held(key: Seq<char>, i: int, input: InputState, facing: Facing)
    requires
        0 <= i < split_commas(key).len(),
        split_commas(key)[i].len() > 0,
        !token_valid(split_commas(key)[i]),
    ensures
        !token_held(split_commas(key)[i], input, facing),
        !key_held(key, input, facing),
{
    assert(!token_held(split_commas(key)[i], input, facing));
}

/// Every transition step keeps a fighter in one of its states: the data never changes,
/// a fighter whose state was known still has a known state whatever the outcome, and a
/// step that enters a state always enters a known one.
pub proof fn lemma_steps_stay_in_known_states(
    before: Fighter,
    after: Fighter,
    r: Result<bool, FighterError>,
    target: Option<String>,
)
    requires
        entered(before, after, r, target),
    ensures
        after.data == before.data,
        before.state_known() ==> after.state_known(),
        r == Ok::<bool, FighterError>(true) ==> after.state_known(),
        r == Ok::<bool, FighterError>(false) ==> after == before,
        r is Err ==> after == before,
{
}

/// In valid data, a transition chosen by input keys always leads to a state of the
/// fighter, so that step of `transition_check` never fails on an unknown state.
pub proof fn lemma_valid_data_input_targets_known(
    data: FighterData,
    name: Seq<char>,
    input: InputState,
    facing: Facing,
)
    requires
        data.is_valid(),
        lookup(data.states@, name) is Some,
    ensures
        selected_target(lookup(data.states@, name)->0.input_transition@, input, facing) matches Some(
            t,
        ) ==> has_key(data.states@, t@),
{
    lemma_find_key(data.states@, name);
    let i = find_key(data.states@, name)->0;
    let s = data.states@[i].1;
    assert(data.state_valid(s));
    assert(targets_known(s.input_transition@, data.states@));
    lemma_chosen_is_most_specific(s.input_transition@, input, facing);
    match chosen_index(s.input_transition@, input, facing) {
        Some(c) => {
            assert(has_key(data.states@, s.input_transition@[c].1@));
        },
        None => {},
    }
}

/// Each button reads its own field: up, down, throw, light and heavy whatever the facing,
/// backward the left field facing right and the right field facing left, forward the other.
pub proof fn lemma_button_fields(input: InputState, facing: Facing)
    ensures
        input.spec_pressed(Button::Up, facing) == input.up,
        input.spec_pressed(Button::Down, facing) == input.down,
        input.spec_pressed(Button::Throw, facing) == input.throw,
        input.spec_pressed(Button::Light, facing) == input.light,
        input.spec_pressed(Button::Heavy, facing) == input.heavy,
        facing == Facing::Right ==> input.spec_pressed(Button::Backward, facing) == input.left
            && input.spec_pressed(Button::Forward, facing) == input.right,
        facing == Facing::Left ==> input.spec_pressed(Button::Backward, facing) == input.right
            && input.spec_pressed(Button::Forward, facing) == input.left,
{
}

/// The AI's choice sets each field of the input from the same choice: up, down, throw,
/// light and heavy are copied, and backward and forward become left and right as the
/// fighter faces.
pub proof fn lemma_ai_input_fields(ai: AiInput, facing: Facing)
    ensures
        InputState::spec_from_ai(ai, facing).up == ai.up,
        InputState::spec_from_ai(ai, facing).down == ai.down,
        InputState::spec_from_ai(ai, facing).throw == ai.throw,
        InputState::spec_from_ai(ai, facing).light == ai.light,
        InputState::spec_from_ai(ai, facing).heavy == ai.heavy,
        facing == Facing::Right ==> InputState::spec_from_ai(ai, facing).left == ai.backward
            && InputState::spec_from_ai(ai, facing).right == ai.forward,
        facing == Facing::Left ==> InputState::spec_from_ai(ai, facing).left == ai.forward
            && InputState::spec_from_ai(ai, facing).right == ai.backward,
{
}

/// The per-frame step goes where a held input key says; with none held, a fighter on the
/// ground goes to the on-ground transition and a fighter in the air to the on-air
/// transition, and the other one is never consulted.
pub proof fn lemma_check_target_by_ground(f: Fighter, s: State, other: Option<String>)
    ensures
        selected_target(s.input_transition@, f.input_state, f.facing) matches Some(t)
            ==> f.check_target(s) == Some(t),
        selected_target(s.input_transition@, f.input_state, f.facing) is None && f.on_ground
            ==> f.check_target(s) == s.on_ground_transition,
        selected_target(s.input_transition@, f.input_state, f.facing) is None && !f.on_ground
            ==> f.check_target(s) == s.on_air_transition,
        f.on_ground ==> f.check_target(s) == f.check_target(State { on_air_transition: other, ..s }),
        !f.on_ground ==> f.check_target(s) == f.check_target(
            State { on_ground_transition: other, ..s },
        ),
{
}

/// A fighter in the air, holding no key of its state, whose state has no on-air
/// transition, is left as it is by the per-frame step.
pub proof fn lemma_airborne_without_air_transition_stays(
    before: Fighter,
    after: Fighter,
    r: Result<bool, FighterError>,
    s: State,
)
    requires
        !before.on_ground,
        selected_target(s.input_transition@, before.input_state, before.facing) is None,
        s.on_air_transition is None,
        entered(before, after, r, before.check_target(s)),
    ensures
        r == Ok::<bool, FighterError>(false),
        after == before,
{
}

/// When a state's duration runs out, its automatic transition is taken if it has one,
/// whatever is held; otherwise the most specific held end-of-duration key decides.
pub proof fn lemma_duration_end_target(f: Fighter, s: State)
    ensures
        s.auto_transition matches Some(t) ==> f.duration_end_target(s) == Some(t),
        s.auto_transition is None ==> f.duration_end_target(s) == selected_target(
            s.on_duration_end_input_transition@,
            f.input_state,
            f.facing,
        ),
{
}

/// The overlaps made by an attacker all name it as attacker and a struck fighter other
/// than itself, in increasing order of the struck fighter, one for each other fighter
/// that is struck.
pub proof fn lemma_overlaps_by(attacker: usize, struck: Seq<bool>)
    requires
        struck.len() <= usize::MAX,
    ensures
        forall|k: int|
            0 <= k < overlaps_by(attacker, struck).len() ==> {
                let e = #[trigger] overlaps_by(attacker, struck)[k];
                &&& e.a == attacker
                &&& e.b != attacker
                &&& e.b < struck.len()
                &&& struck[e.b as int]
            },
        forall|k1: int, k2: int|
            0 <= k1 < k2 < overlaps_by(attacker, struck).len() ==> (#[trigger] overlaps_by(
                attacker,
                struck,
            )[k1]).b < (#[trigger] overlaps_by(attacker, struck)[k2]).b,
        forall|u: int|
            0 <= u < struck.len() && u != attacker && #[trigger] struck[u] ==> exists|k: int|
                0 <= k < overlaps_by(attacker, struck).len() && (#[trigger] overlaps_by(
                    attacker,
                    struck,
                )[k]).b == u,
    decreases struck.len(),
{
    if struck.len() > 0 {
        let init = struck.drop_last();
        lemma_overlaps_by(attacker, init);
        let r = overlaps_by(attacker, struck);
        let ri = overlaps_by(attacker, init);
        let n = struck.len() - 1;
        assert forall|k: int| 0 <= k < ri.len() implies #[trigger] r[k] == ri[k] by {}
        assert forall|k: int| 0 <= k < r.len() implies {
            let e = #[trigger] r[k];
            &&& e.a == attacker
            &&& e.b != attacker
            &&& e.b < struck.len()
            &&& struck[e.b as int]
        } by {
            if k < ri.len() {
                assert(r[k] == ri[k]);
                assert(struck[ri[k].b as int] == init[ri[k].b as int]);
            }
        }
        assert forall|k1: int, k2: int| 0 <= k1 < k2 < r.len() implies (#[trigger] r[k1]).b < (
        #[trigger] r[k2]).b by {
            assert(r[k1] == ri[k1]);
            if k2 < ri.len() {
                assert(r[k2] == ri[k2]);
            } else {
                assert(ri[k1].b < init.len());
            }
        }
        assert forall|u: int| 0 <= u < struck.len() && u != attacker && #[trigger] struck[u]
            implies exists|k: int| 0 <= k < r.len() && (#[trigger] r[k]).b == u by {
            if u < n {
                assert(init[u] == struck[u]);
                let k = choose|k: int| 0 <= k < ri.len() && (#[trigger] ri[k]).b == u;
                assert(r[k] == ri[k]);
            } else {
                assert(r[r.len() - 1].b == u);
            }
        }
    }
}

/// A name is found exactly when some entry has it; what is found is the value of the
/// first entry of that name, and, names being distinct, of every entry of that name.
pub proof fn lemma_lookup_finds<V>(entries: Seq<(Seq<char>, V)>, key: Seq<char>)
    ensures
        lookup(entries, key) is None <==> forall|i: int|
            0 <= i < entries.len() ==> (#[trigger] entries[i]).0 != key,
        lookup(entries, key) matches Some(v) ==> exists|i: int|
            0 <= i < entries.len() && (#[trigger] entries[i]).0 == key && entries[i].1 == v
                && forall|j: int| 0 <= j < i ==> (#[trigger] entries[j]).0 != key,
        keys_unique(entries) ==> forall|i: int|
            0 <= i < entries.len() && (#[trigger] entries[i]).0 == key ==> lookup(entries, key)
                == Some(entries[i].1),
{
    lemma_find_key(entries, key);
    if let Some(f) = find_key(entries, key) {
        assert(entries[f].0 == key);
        if keys_unique(entries) {
            assert forall|i: int| 0 <= i < entries.len() && (#[trigger] entries[i]).0 == key
                implies lookup(entries, key) == Some(entries[i].1) by {
                if i != f {
                    if i < f {
                        assert(entries[i].0 != entries[f].0);
                    } else {
                        assert(entries[f].0 != entries[i].0);
                    }
                }
            }
        }
    } else {
        if exists|i: int| 0 <= i < entries.len() && (#[trigger] entries[i]).0 == key {
            let i = choose|i: int| 0 <= i < entries.len() && (#[trigger] entries[i]).0 == key;
            assert(has_key(entries, key));
        }
    }
}

/// The box reported missing is the first moved box that is not one of the fighter's boxes;
/// none is reported exactly when every moved box is one of them.
pub proof fn lemma_first_unknown_box(names: Seq<Seq<char>>, moved: Seq<String>)
    ensures
        first_unknown_box(names, moved) is None <==> forall|i: int|
            0 <= i < moved.len() ==> names.contains((#[trigger] moved[i])@),
        first_unknown_box(names, moved) matches Some(n) ==> exists|i: int|
            0 <= i < moved.len() && #[trigger] moved[i] == n && !names.contains(n@) && forall|
                j: int,
            | 0 <= j < i ==> names.contains((#[trigger] moved[j])@),
    decreases moved.len(),
{
    if moved.len() > 0 {
        let init = moved.drop_last();
        lemma_first_unknown_box(names, init);
        assert forall|i: int| 0 <= i < init.len() implies #[trigger] init[i] == moved[i] by {}
        match first_unknown_box(names, init) {
            Some(n) => {
                let i = choose|i: int|
                    0 <= i < init.len() && #[trigger] init[i] == n && !names.contains(n@)
                        && forall|j: int| 0 <= j < i ==> names.contains((#[trigger] init[j])@);
                assert(moved[i] == n);
                assert forall|j: int| 0 <= j < i implies names.contains((#[trigger] moved[j])@) by {
                    assert(init[j] == moved[j]);
                }
                assert(!names.contains(moved[i]@));
            },
            None => {
                assert forall|j: int| 0 <= j < moved.len() - 1 implies names.contains(
                    (#[trigger] moved[j])@,
                ) by {
                    assert(init[j] == moved[j]);
                }
                if !names.contains(moved.last()@) {
                    assert(moved[moved.len() - 1] == moved.last());
                }
            },
        }
    }
}

/// A transition step changes nothing but the state name: the data, input, facing and
/// ground contact stay as they were; a known target becomes the state with `Ok(true)`,
/// an unknown one is reported by name and leaves the state, and no target leaves it with
/// `Ok(false)`.
pub proof fn lemma_step_changes_only_the_state(
    before: Fighter,
    after: Fighter,
    r: Result<bool, FighterError>,
    target: Option<String>,
)
    requires
        entered(before, after, r, target),
    ensures
        after.data == before.data,
        after.input_state == before.input_state,
        after.facing == before.facing,
        after.on_ground == before.on_ground,
        target is None ==> r == Ok::<bool, FighterError>(false) && after.state == before.state,
        target matches Some(next) ==> (has_key(before.data.states@, next@) ==> r == Ok::<
            bool,
            FighterError,
        >(true) && after.state == next),
        target matches Some(next) ==> (!has_key(before.data.states@, next@) ==> r == Err::<
            bool,
            FighterError,
        >(FighterError::UnknownState(next)) && after.state == before.state),
{
}

/// A fighter turns toward its opponent exactly when its current state exists and is one
/// that turns automatically.
pub proof fn lemma_turning_states(f: Fighter)
    ensures
        f.turns_automatically() <==> (exists|i: int|
            0 <= i < f.data.states@.len() && (#[trigger] f.data.states@[i]).0 == f.state@
                && f.data.states@[i].1.auto_facing && forall|j: int|
                0 <= j < i ==> (#[trigger] f.data.states@[j]).0 != f.state@),
{
    lemma_lookup_finds(f.data.states@, f.state@);
    lemma_find_key(f.data.states@, f.state@);
    if exists|i: int|
        0 <= i < f.data.states@.len() && (#[trigger] f.data.states@[i]).0 == f.state@
            && f.data.states@[i].1.auto_facing && forall|j: int|
            0 <= j < i ==> (#[trigger] f.data.states@[j]).0 != f.state@ {
        let i = choose|i: int|
            0 <= i < f.data.states@.len() && (#[trigger] f.data.states@[i]).0 == f.state@
                && f.data.states@[i].1.auto_facing && forall|j: int|
                0 <= j < i ==> (#[trigger] f.data.states@[j]).0 != f.state@;
        let k = find_key(f.data.states@, f.state@)->0;
        if k < i {
            assert(f.data.states@[k].0 != f.state@);
        }
        if i < k {
            assert(f.data.states@[i].0 != f.state@);
        }
    }
}

/// The new overlaps of two runs of overlaps, one after the other, are the new overlaps of
/// the first followed by those of the second; a single overlap is new exactly when it was
/// not there before. So order and repeats of the current overlaps are kept.
pub proof fn lemma_fresh_overlaps_in_order(
    c1: Seq<OverlapEvent>,
    c2: Seq<OverlapEvent>,
    previous: Seq<OverlapEvent>,
    e: OverlapEvent,
)
    ensures
        fresh_overlaps(c1 + c2, previous) == fresh_overlaps(c1, previous) + fresh_overlaps(
            c2,
            previous,
        ),
        fresh_overlaps(seq![e], previous) == (if previous.contains(e) {
            Seq::<OverlapEvent>::empty()
        } else {
            seq![e]
        }),
    decreases c2.len(),
{
    assert(seq![e].drop_last() =~= Seq::<OverlapEvent>::empty());
    assert(fresh_overlaps(Seq::<OverlapEvent>::empty(), previous) =~= Seq::<OverlapEvent>::empty());
    if c2.len() == 0 {
        assert(c1 + c2 =~= c1);
        assert(fresh_overlaps(c1, previous) + fresh_overlaps(c2, previous) =~= fresh_overlaps(
            c1,
            previous,
        ));
    } else {
        lemma_fresh_overlaps_in_order(c1, c2.drop_last(), previous, e);
        assert((c1 + c2).drop_last() =~= c1 + c2.drop_last());
        assert((c1 + c2).last() == c2.last());
        assert(fresh_overlaps(c1 + c2, previous) =~= fresh_overlaps(c1, previous)
            + fresh_overlaps(c2, previous));
    }
}

/// Storing a value under a name makes that name give that value, leaves every other name
/// as it was, and adds an entry exactly when the name was new.
pub proof fn lemma_insert_then_lookup<V>(
    entries: Seq<(Seq<char>, V)>,
    key: Seq<char>,
    value: V,
    other: Seq<char>,
)
    requires
        keys_unique(entries),
    ensures
        lookup(inserted(entries, key, value), key) == Some(value),
        other != key ==> lookup(inserted(entries, key, value), other) == lookup(entries, other),
        inserted(entries, key, value).len() == entries.len() + (if has_key(entries, key) {
            0int
        } else {
            1int
        }),
        keys_unique(inserted(entries, key, value)),
{
    lemma_find_key(entries, key);
    let e2 = inserted(entries, key, value);
    assert forall|i: int, j: int| 0 <= i < j < e2.len() implies (#[trigger] e2[i]).0 != (
    #[trigger] e2[j]).0 by {
        match find_key(entries, key) {
            Some(f) => {
                assert(e2[i].0 == entries[i].0);
                assert(e2[j].0 == entries[j].0);
            },
            None => {
                if j == entries.len() {
                    assert(e2[i] == entries[i]);
                    assert(!has_key(entries, key));
                    if entries[i].0 == key {
                        assert(has_key(entries, key));
                    }
                } else {
                    assert(e2[i] == entries[i]);
                    assert(e2[j] == entries[j]);
                }
            },
        }
    }
    lemma_lookup_finds(e2, key);
    lemma_lookup_finds(e2, other);
    lemma_lookup_finds(entries, other);
    match find_key(entries, key) {
        Some(f) => {
            assert(e2[f] == (key, value));
        },
        None => {
            assert(e2[entries.len() as int] == (key, value));
        },
    }
    if other != key {
        assert forall|i: int| 0 <= i < e2.len() && (#[trigger] e2[i]).0 == other implies i
            < entries.len() && entries[i] == e2[i] by {
            match find_key(entries, key) {
                Some(f) => {
                    if i == f {
                        assert(e2[i].0 == key);
                    }
                },
                None => {
                    if i == entries.len() {
                        assert(e2[i].0 == key);
                    }
                },
            }
        }
        assert forall|i: int| 0 <= i < entries.len() && (#[trigger] entries[i]).0 == other
            implies e2[i] == entries[i] by {
            match find_key(entries, key) {
                Some(f) => {
                    if i == f {
                        assert(entries[f].0 == key);
                    }
                },
                None => {},
            }
        }
        match lookup(entries, other) {
            Some(v) => {
                let i = choose|i: int|
                    0 <= i < entries.len() && (#[trigger] entries[i]).0 == other && entries[i].1
                        == v;
                assert(e2[i] == entries[i]);
            },
            None => {
                if lookup(e2, other) is Some {
                    let v = lookup(e2, other)->0;
                    let i = choose|i: int|
                        0 <= i < e2.len() && (#[trigger] e2[i]).0 == other && e2[i].1 == v;
                    assert(entries[i] == e2[i]);
                }
            },
        }
    }
}

/// Entering a state changes only the state name, turning changes only the facing, and
/// reading new buttons changes only the input.
pub proof fn lemma_single_field_updates(f: Fighter, next: String, facing: Facing, input: InputState)
    ensures
        f.in_state(next).state == next && f.in_state(next).data == f.data && f.in_state(
            next,
        ).input_state == f.input_state && f.in_state(next).facing == f.facing && f.in_state(
            next,
        ).on_ground == f.on_ground,
        f.facing_to(facing).facing == facing && f.facing_to(facing).state == f.state
            && f.facing_to(facing).data == f.data && f.facing_to(facing).input_state
            == f.input_state && f.facing_to(facing).on_ground == f.on_ground,
        f.reading(input).input_state == input && f.reading(input).state == f.state && f.reading(
            input,
        ).data == f.data && f.reading(input).facing == f.facing && f.reading(input).on_ground
            == f.on_ground,
{
}

} // verus!
