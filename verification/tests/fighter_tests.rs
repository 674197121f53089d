use fighter::combo::{is_key_held, is_key_valid, key_comma_count, select_transition};
use fighter::fighter::{Fighter, FighterData, FighterError, State};
use fighter::hits::{new_overlaps, overlaps_of, OverlapEvent};
use fighter::input::{AiInput, Button, Facing, InputState};
use fighter::table::Table;

fn s(text: &str) -> String {
    text.to_string()
}

fn table(entries: &[(&str, &str)]) -> Table<String> {
    let mut t = Table::new();
    for (k, v) in entries {
        t.insert(s(k), s(v));
    }
    t
}

fn input_with(f: impl Fn(&mut InputState)) -> InputState {
    let mut i = InputState::default();
    f(&mut i);
    i
}

/// A small fighter: "stand" moves on "light" to "jab", on "down,light" to "low_jab";
/// "jab" goes back to "stand" when its duration ends and to "hurt" when hit.
fn sample_data() -> FighterData {
    let mut data = FighterData::default();
    data.name = s("ryu");
    data.resources.insert(s("stand_0"), s("assets/stand_0.png"));
    data.resources.insert(s("jab_0"), s("assets/jab_0.png"));
    data.collision_boxes.push(s("body"));

    let mut stand = State::default();
    stand.animation.push(s("stand_0"));
    stand.input_transition = table(&[("light", "jab"), ("down,light", "low_jab")]);
    stand.on_air_transition = Some(s("fall"));
    stand.auto_facing = true;
    stand.collision_boxes.push(s("body"));
    data.states.insert(s("stand"), stand);

    let mut jab = State::default();
    jab.animation.push(s("jab_0"));
    jab.auto_transition = Some(s("stand"));
    jab.on_hit_transition = Some(s("hurt"));
    data.states.insert(s("jab"), jab);

    let mut low_jab = State::default();
    low_jab.on_duration_end_input_transition = table(&[("down", "crouch"), ("", "stand")]);
    low_jab.on_ground_transition = Some(s("crouch"));
    low_jab.blocking = true;
    data.states.insert(s("low_jab"), low_jab);

    let mut hurt = State::default();
    hurt.on_stun_end_transition = Some(s("stand"));
    data.states.insert(s("hurt"), hurt);

    data.states.insert(s("crouch"), State::default());
    data.states.insert(s("fall"), State::default());
    data
}

#[test]
fn it_works() {
    assert_eq!(2 + 2, 4);
}

#[test]
fn facing_sign_and_toward() {
    assert_eq!(Facing::Right.sign(), 1);
    assert_eq!(Facing::Left.sign(), -1);
    assert_eq!(Facing::toward(true), Facing::Right);
    assert_eq!(Facing::toward(false), Facing::Left);
}

#[test]
fn default_input_holds_nothing() {
    let i = InputState::default();
    assert!(!i.left && !i.right && !i.up && !i.down && !i.throw && !i.light && !i.heavy);
    let a = AiInput::default();
    assert!(!a.backward && !a.forward && !a.up && !a.down && !a.throw && !a.light && !a.heavy);
}

#[test]
fn backward_and_forward_depend_on_facing() {
    let left = input_with(|i| i.left = true);
    assert!(left.pressed(Button::Backward, Facing::Right));
    assert!(!left.pressed(Button::Forward, Facing::Right));
    assert!(left.pressed(Button::Forward, Facing::Left));
    assert!(!left.pressed(Button::Backward, Facing::Left));
}

#[test]
fn key_tokens_all_must_hold() {
    let down_right = input_with(|i| {
        i.down = true;
        i.right = true;
    });
    assert!(is_key_held(&s("down,forward"), &down_right, Facing::Right));
    assert!(!is_key_held(&s("down,!forward"), &down_right, Facing::Right));
    assert!(is_key_held(&s("down,!backward"), &down_right, Facing::Right));
    assert!(!is_key_held(&s("down,!backward"), &down_right, Facing::Left));
    assert!(!is_key_held(&s("up"), &down_right, Facing::Right));
    assert!(is_key_held(&s("!up,!light,!heavy,!throw"), &down_right, Facing::Right));
}

#[test]
fn empty_key_and_empty_tokens_always_hold() {
    let none = InputState::default();
    assert!(is_key_held(&s(""), &none, Facing::Right));
    assert!(is_key_held(&s(",,"), &none, Facing::Left));
    assert!(!is_key_valid(&s("")));
    assert!(!is_key_valid(&s("down,")));
}

#[test]
fn unknown_tokens_never_hold() {
    let all = input_with(|i| {
        i.left = true;
        i.right = true;
        i.up = true;
        i.down = true;
        i.throw = true;
        i.light = true;
        i.heavy = true;
    });
    assert!(!is_key_held(&s("jump"), &all, Facing::Right));
    assert!(!is_key_held(&s("down,Light"), &all, Facing::Right));
    assert!(!is_key_held(&s("!"), &all, Facing::Right));
    assert!(!is_key_held(&s("!!up"), &all, Facing::Right));
    assert!(!is_key_valid(&s("jump")));
    assert!(is_key_valid(&s("down,!backward,heavy")));
}

#[test]
fn negated_token_is_opposite() {
    let buttons = [
        ("backward", Button::Backward),
        ("forward", Button::Forward),
        ("up", Button::Up),
        ("down", Button::Down),
        ("throw", Button::Throw),
        ("light", Button::Light),
        ("heavy", Button::Heavy),
    ];
    let inputs = [
        InputState::default(),
        input_with(|i| i.left = true),
        input_with(|i| {
            i.right = true;
            i.light = true;
            i.throw = true;
        }),
    ];
    for (name, button) in buttons {
        for input in inputs {
            for facing in [Facing::Right, Facing::Left] {
                let plain = is_key_held(&s(name), &input, facing);
                let negated = is_key_held(&format!("!{}", name), &input, facing);
                assert_eq!(plain, input.pressed(button, facing));
                assert_eq!(negated, !plain);
            }
        }
    }
}

#[test]
fn mirrored_input_reads_the_same_facing_left() {
    let input = input_with(|i| {
        i.left = true;
        i.heavy = true;
    });
    let mirrored = input_with(|i| {
        i.right = true;
        i.heavy = true;
    });
    for key in ["backward", "forward,heavy", "!forward", "backward,heavy", "down"] {
        assert_eq!(
            is_key_held(&s(key), &input, Facing::Right),
            is_key_held(&s(key), &mirrored, Facing::Left)
        );
    }
}

#[test]
fn comma_count_of_keys() {
    assert_eq!(key_comma_count(&s("")), 0);
    assert_eq!(key_comma_count(&s("down")), 0);
    assert_eq!(key_comma_count(&s("down,!backward,light")), 2);
}

#[test]
fn most_specific_key_wins() {
    let t = table(&[("light", "jab"), ("down,light", "low_jab"), ("", "idle")]);
    let down_light = input_with(|i| {
        i.down = true;
        i.light = true;
    });
    assert_eq!(select_transition(&t, &down_light, Facing::Right), Some(s("low_jab")));
    let light = input_with(|i| i.light = true);
    assert_eq!(select_transition(&t, &light, Facing::Right), Some(s("jab")));
    assert_eq!(select_transition(&t, &InputState::default(), Facing::Right), Some(s("idle")));
}

#[test]
fn longer_key_wins_among_equal_commas() {
    let t = table(&[("down", "crouch"), ("up", "jump")]);
    let both = input_with(|i| {
        i.down = true;
        i.up = true;
    });
    assert_eq!(select_transition(&t, &both, Facing::Right), Some(s("crouch")));
    let t2 = table(&[("up", "jump"), ("down", "crouch")]);
    assert_eq!(select_transition(&t2, &both, Facing::Right), Some(s("crouch")));
}

#[test]
fn last_key_wins_among_equal_rank() {
    let t = table(&[("light", "jab"), ("heavy", "punch")]);
    let both = input_with(|i| {
        i.light = true;
        i.heavy = true;
    });
    assert_eq!(select_transition(&t, &both, Facing::Right), Some(s("punch")));
    let t2 = table(&[("heavy", "punch"), ("light", "jab")]);
    assert_eq!(select_transition(&t2, &both, Facing::Right), Some(s("jab")));
}

#[test]
fn no_key_held_selects_nothing() {
    let t = table(&[("light", "jab"), ("down,light", "low_jab")]);
    assert_eq!(select_transition(&t, &InputState::default(), Facing::Right), None);
    assert_eq!(select_transition(&Table::new(), &InputState::default(), Facing::Right), None);
}

#[test]
fn table_insert_replaces_and_keeps_order() {
    let mut t = table(&[("a", "1"), ("b", "2")]);
    t.insert(s("a"), s("3"));
    assert_eq!(t.len(), 2);
    assert_eq!(t.key_at(0), &s("a"));
    assert_eq!(t.value_at(0), &s("3"));
    assert_eq!(t.get(&s("b")), Some(&s("2")));
    assert_eq!(t.get(&s("c")), None);
    assert!(t.contains_key(&s("b")));
    assert!(!t.contains_key(&s("c")));
}

#[test]
fn new_fighter_stands_facing_right() {
    let f = Fighter::new(sample_data());
    assert_eq!(f.state, s("stand"));
    assert_eq!(f.facing, Facing::Right);
    assert!(!f.on_ground);
    assert_eq!(f.input_state, InputState::default());
    assert_eq!(f.data.name, s("ryu"));
}

#[test]
fn check_input_transition_uses_fighter_input() {
    let mut f = Fighter::new(sample_data());
    f.input_state.light = true;
    let t = table(&[("light", "jab"), ("down,light", "low_jab")]);
    assert_eq!(f.check_input_transition(&t), Some(s("jab")));
}

#[test]
fn transition_check_prefers_input() {
    let mut f = Fighter::new(sample_data());
    f.input_state.light = true;
    assert_eq!(f.transition_check(), Ok(true));
    assert_eq!(f.state, s("jab"));
}

#[test]
fn transition_check_falls_back_to_air_and_ground() {
    let mut f = Fighter::new(sample_data());
    assert_eq!(f.transition_check(), Ok(true));
    assert_eq!(f.state, s("fall"));

    let mut g = Fighter::new(sample_data());
    g.on_ground = true;
    assert_eq!(g.transition_check(), Ok(false));
    assert_eq!(g.state, s("stand"));
}

#[test]
fn transition_check_takes_most_specific_key() {
    let mut f = Fighter::new(sample_data());
    f.input_state.down = true;
    f.input_state.light = true;
    assert_eq!(f.transition_check(), Ok(true));
    assert_eq!(f.state, s("low_jab"));
}

#[test]
fn input_transition_to_missing_state_is_an_error() {
    let mut data = sample_data();
    let mut odd = State::default();
    odd.input_transition = table(&[("up", "ghost")]);
    odd.on_ground_transition = Some(s("stand"));
    data.states.insert(s("odd"), odd);
    let mut f = Fighter::new(data);
    f.state = s("odd");
    f.on_ground = true;
    f.input_state.up = true;
    assert_eq!(f.transition_check(), Err(FighterError::UnknownState(s("ghost"))));
    assert_eq!(f.state, s("odd"));
    assert_eq!(
        f.data.validate(),
        Err(vec![s("State(odd) input_transition value(ghost) not correct. ")])
    );
}

#[test]
fn transition_check_missing_state_is_an_error() {
    let mut f = Fighter::new(sample_data());
    f.state = s("nowhere");
    assert_eq!(f.transition_check(), Err(FighterError::StateNotFound(s("nowhere"))));
    assert_eq!(f.state, s("nowhere"));
}

#[test]
fn change_state_to_unknown_state_fails_and_keeps_state() {
    let mut f = Fighter::new(sample_data());
    assert_eq!(f.change_state(s("fly")), Err(FighterError::UnknownState(s("fly"))));
    assert_eq!(f.state, s("stand"));
    assert_eq!(f.change_state(s("crouch")), Ok(()));
    assert_eq!(f.state, s("crouch"));
}

#[test]
fn ground_transition_to_missing_state_is_unknown_state() {
    let mut data = sample_data();
    let mut lonely = State::default();
    lonely.on_ground_transition = Some(s("void"));
    data.states.insert(s("lonely"), lonely);
    let mut f = Fighter::new(data);
    f.state = s("lonely");
    f.on_ground = true;
    assert_eq!(f.transition_check(), Err(FighterError::UnknownState(s("void"))));
    assert_eq!(f.state, s("lonely"));
}

#[test]
fn duration_end_prefers_auto_transition() {
    let mut f = Fighter::new(sample_data());
    f.state = s("jab");
    f.input_state.down = true;
    assert_eq!(f.duration_end_transition(), Ok(true));
    assert_eq!(f.state, s("stand"));
}

#[test]
fn duration_end_reads_its_own_inputs() {
    let mut f = Fighter::new(sample_data());
    f.state = s("low_jab");
    f.input_state.down = true;
    assert_eq!(f.duration_end_transition(), Ok(true));
    assert_eq!(f.state, s("crouch"));

    let mut g = Fighter::new(sample_data());
    g.state = s("low_jab");
    assert_eq!(g.duration_end_transition(), Ok(true));
    assert_eq!(g.state, s("stand"));

    let mut h = Fighter::new(sample_data());
    h.state = s("crouch");
    assert_eq!(h.duration_end_transition(), Ok(false));
    assert_eq!(h.state, s("crouch"));
}

#[test]
fn stun_end_transition_leaves_hurt() {
    let mut f = Fighter::new(sample_data());
    f.state = s("hurt");
    assert_eq!(f.stun_end_transition(), Ok(true));
    assert_eq!(f.state, s("stand"));
    assert_eq!(f.stun_end_transition(), Ok(false));
    assert_eq!(f.state, s("stand"));
    f.state = s("gone");
    assert_eq!(f.stun_end_transition(), Err(FighterError::StateNotFound(s("gone"))));
}

#[test]
fn hit_reaction_follows_state() {
    let mut f = Fighter::new(sample_data());
    f.state = s("low_jab");
    assert!(f.blocking());
    assert_eq!(f.on_hit(), Ok(false));
    f.state = s("jab");
    assert!(!f.blocking());
    assert_eq!(f.on_hit(), Ok(true));
    assert_eq!(f.state, s("hurt"));
}

#[test]
fn auto_face_only_in_turning_states() {
    let mut f = Fighter::new(sample_data());
    f.auto_face(false);
    assert_eq!(f.facing, Facing::Left);
    f.state = s("jab");
    f.auto_face(true);
    assert_eq!(f.facing, Facing::Left);
}

#[test]
fn ai_input_becomes_absolute_directions() {
    let ai = AiInput { forward: true, light: true, ..AiInput::default() };
    let mut f = Fighter::new(sample_data());
    f.set_ai_input(&ai);
    assert!(f.input_state.right && !f.input_state.left && f.input_state.light);
    f.facing = Facing::Left;
    f.set_ai_input(&ai);
    assert!(f.input_state.left && !f.input_state.right);
    assert!(f.input_state.pressed(Button::Forward, Facing::Left));
    let r = InputState::from_ai(&ai, Facing::Right);
    assert!(r.pressed(Button::Forward, Facing::Right));
    assert!(!r.pressed(Button::Backward, Facing::Right));
}

#[test]
fn first_ai_input_in_range() {
    let a = AiInput { up: true, ..AiInput::default() };
    let b = AiInput { down: true, ..AiInput::default() };
    assert_eq!(AiInput::first_in_range(&vec![a, b], &vec![false, true]), b);
    assert_eq!(AiInput::first_in_range(&vec![a, b], &vec![true, true]), a);
    assert_eq!(AiInput::first_in_range(&vec![a, b], &vec![false, false]), AiInput::default());
}

#[test]
fn collision_boxes_must_be_known() {
    let f = Fighter::new(sample_data());
    assert_eq!(f.check_collision_boxes(), Ok(()));
    let mut data = sample_data();
    let mut odd = State::default();
    odd.collision_boxes.push(s("body"));
    odd.collision_boxes.push(s("tail"));
    odd.collision_boxes.push(s("wing"));
    data.states.insert(s("odd"), odd);
    let mut g = Fighter::new(data);
    g.state = s("odd");
    assert_eq!(g.check_collision_boxes(), Err(FighterError::CollisionBoxNotFound(s("tail"))));
    g.state = s("none");
    assert_eq!(g.check_collision_boxes(), Err(FighterError::StateNotFound(s("none"))));
}

#[test]
fn error_messages() {
    assert_eq!(
        FighterError::StateNotFound(s("jab")).message(),
        "State not find in data, state: jab"
    );
    assert_eq!(FighterError::UnknownState(s("fly")).message(), "Fighter does not have state: fly");
    assert_eq!(
        FighterError::CollisionBoxNotFound(s("tail")).message(),
        "Collision box not found: tail"
    );
}

#[test]
fn sample_data_is_valid() {
    assert_eq!(sample_data().validate(), Ok(()));
}

#[test]
fn validate_reports_every_problem_in_order() {
    let mut data = FighterData::default();
    data.resources.insert(s("a"), s("a.png"));
    let mut one = State::default();
    one.input_transition = table(&[("jump", "two"), ("down", "three"), ("", "two")]);
    one.animation.push(s("a"));
    one.animation.push(s("b"));
    data.states.insert(s("one"), one);
    let mut two = State::default();
    two.animation.push(s("c"));
    data.states.insert(s("two"), two);
    assert_eq!(
        data.validate(),
        Err(vec![
            s("State(one) input_transition key(jump) not correct. "),
            s("State(one) input_transition key() not correct. "),
            s("State(one) input_transition value(three) not correct. "),
            s("Animation resource missing: b"),
            s("Animation resource missing: c"),
        ])
    );
}

#[test]
fn overlaps_of_skips_the_attacker() {
    let r = overlaps_of(1, &vec![true, true, false, true]);
    assert_eq!(r, vec![OverlapEvent { a: 1, b: 0 }, OverlapEvent { a: 1, b: 3 }]);
    assert_eq!(overlaps_of(0, &vec![]), vec![]);
}

#[test]
fn only_new_overlaps_hit() {
    let current = vec![OverlapEvent { a: 0, b: 1 }, OverlapEvent { a: 1, b: 0 }];
    let previous = vec![OverlapEvent { a: 0, b: 1 }];
    assert_eq!(new_overlaps(&current, &previous), vec![OverlapEvent { a: 1, b: 0 }]);
    assert_eq!(new_overlaps(&current, &vec![]), current);
    assert_eq!(new_overlaps(&vec![], &previous), vec![]);
}

fn all_inputs() -> Vec<InputState> {
    (0u32..128)
        .map(|bits| InputState {
            left: bits & 1 != 0,
            right: bits & 2 != 0,
            up: bits & 4 != 0,
            down: bits & 8 != 0,
            throw: bits & 16 != 0,
            light: bits & 32 != 0,
            heavy: bits & 64 != 0,
        })
        .collect()
}

#[test]
fn valid_data_input_transitions_lead_to_known_states() {
    let data = sample_data();
    assert_eq!(data.validate(), Ok(()));
    let mut f = Fighter::new(sample_data());
    for i in 0..data.states.len() {
        let state = data.states.value_at(i);
        for input in all_inputs() {
            for facing in [Facing::Right, Facing::Left] {
                f.input_state = input;
                f.facing = facing;
                if let Some(next) = f.check_input_transition(&state.input_transition) {
                    assert!(data.states.contains_key(&next));
                }
            }
        }
    }
}

#[test]
fn transitions_keep_a_known_state() {
    let mut f = Fighter::new(sample_data());
    for (n, input) in all_inputs().into_iter().enumerate() {
        f.input_state = input;
        f.on_ground = n % 3 == 0;
        let _ = f.transition_check();
        assert!(f.current_state().is_ok());
        let _ = f.duration_end_transition();
        assert!(f.current_state().is_ok());
        let _ = f.stun_end_transition();
        assert!(f.current_state().is_ok());
        let _ = f.on_hit();
        assert!(f.current_state().is_ok());
    }
}

#[test]
fn ai_choice_is_read_back_whatever_the_facing() {
    let ai = AiInput { backward: true, heavy: true, ..AiInput::default() };
    for facing in [Facing::Right, Facing::Left] {
        let read = InputState::from_ai(&ai, facing);
        assert!(read.pressed(Button::Backward, facing));
        assert!(!read.pressed(Button::Forward, facing));
        assert!(read.pressed(Button::Heavy, facing));
        assert!(is_key_held(&s("backward,heavy,!forward"), &read, facing));
    }
}
