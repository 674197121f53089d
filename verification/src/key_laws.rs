//! What a transition key means, stated on its text: a key is read piece by piece between
//! commas, each piece names one button (or its release), and the more buttons a key names
//! the more specific it is.
use vstd::prelude::*;

use crate::combo::{
    byte_len, chosen_index, comma_count, key_held, key_valid, lemma_chosen_is_most_specific,
    lemma_split_len, parse_token, selected_target, split_commas, token_held, token_valid,
};
use crate::input::{Facing, InputState};

verus! {

/// Whether `s` holds no comma.
pub open spec fn comma_free(s: Seq<char>) -> bool {
    forall|i: int| 0 <= i < s.len() ==> s[i] != ','
}

/// A text without commas is a single piece.
proof fn lemma_split_comma_free(s: Seq<char>)
    requires
        comma_free(s),
    ensures
        split_commas(s) == seq![s],
        comma_count(s) == 0,
    decreases s.len(),
{
    if s.len() > 0 {
        let init = s.drop_last();
        assert(comma_free(init)) by {
            assert forall|i: int| 0 <= i < init.len() implies init[i] != ',' by {
                assert(init[i] == s[i]);
            }
        }
        lemma_split_comma_free(init);
        assert(s[s.len() - 1] != ',');
        assert(init.push(s.last()) =~= s);
        assert(split_commas(s) =~= seq![s]);
    } else {
        assert(s =~= Seq::<char>::empty());
    }
}

/// Joining two texts with a comma joins their pieces and adds one comma.
proof fn lemma_split_join(p: Seq<char>, q: Seq<char>)
    ensures
        split_commas(p + seq![','] + q) == split_commas(p) + split_commas(q),
        comma_count(p + seq![','] + q) == comma_count(p) + comma_count(q) + 1,
    decreases q.len(),
{
    let s = p + seq![','] + q;
    if q.len() == 0 {
        assert(s.drop_last() =~= p);
        assert(s.last() == ',');
        assert(split_commas(q) =~= seq![Seq::<char>::empty()]);
        assert(split_commas(s) =~= split_commas(p) + split_commas(q));
    } else {
        let qd = q.drop_last();
        lemma_split_join(p, qd);
        lemma_split_len(p);
        lemma_split_len(qd);
        assert(s.drop_last() =~= p + seq![','] + qd);
        assert(s.last() == q.last());
        assert(split_commas(s) =~= split_commas(p) + split_commas(q));
    }
}

/// A key joined from two keys by a comma holds exactly when both hold; a key without
/// commas holds exactly when its single token does.
pub proof fn lemma_key_held_by_pieces(p: Seq<char>, q: Seq<char>, input: InputState, facing: Facing)
    ensures
        key_held(p + seq![','] + q, input, facing) == (key_held(p, input, facing) && key_held(
            q,
            input,
            facing,
        )),
        comma_free(p) ==> key_held(p, input, facing) == token_held(p, input, facing),
{
    lemma_split_join(p, q);
    let a = split_commas(p);
    let b = split_commas(q);
    let ab = split_commas(p + seq![','] + q);
    if key_held(p + seq![','] + q, input, facing) {
        assert forall|i: int| 0 <= i < a.len() implies #[trigger] token_held(a[i], input, facing) by {
            assert(ab[i] == a[i]);
            assert(token_held(ab[i], input, facing));
        }
        assert forall|i: int| 0 <= i < b.len() implies #[trigger] token_held(b[i], input, facing) by {
            assert(ab[a.len() + i] == b[i]);
            assert(token_held(ab[a.len() + i], input, facing));
        }
    }
    if key_held(p, input, facing) && key_held(q, input, facing) {
        assert forall|i: int| 0 <= i < ab.len() implies #[trigger] token_held(ab[i], input, facing) by {
            if i < a.len() {
                assert(ab[i] == a[i]);
                assert(token_held(a[i], input, facing));
            } else {
                assert(ab[i] == b[i - a.len()]);
                assert(token_held(b[i - a.len()], input, facing));
            }
        }
    }
    if comma_free(p) {
        lemma_split_comma_free(p);
        assert(a[0] == p);
        if token_held(p, input, facing) {
            assert forall|i: int| 0 <= i < a.len() implies #[trigger] token_held(a[i], input, facing) by {}
        }
    }
}

/// A key joined from two keys by a comma is valid exactly when both are; a key without
/// commas is valid exactly when its single token is.
pub proof fn lemma_key_valid_by_pieces(p: Seq<char>, q: Seq<char>)
    ensures
        key_valid(p + seq![','] + q) == (key_valid(p) && key_valid(q)),
        comma_free(p) ==> key_valid(p) == token_valid(p),
{
    lemma_split_join(p, q);
    let a = split_commas(p);
    let b = split_commas(q);
    let ab = split_commas(p + seq![','] + q);
    if key_valid(p + seq![','] + q) {
        assert forall|i: int| 0 <= i < a.len() implies #[trigger] token_valid(a[i]) by {
            assert(ab[i] == a[i]);
            assert(token_valid(ab[i]));
        }
        assert forall|i: int| 0 <= i < b.len() implies #[trigger] token_valid(b[i]) by {
            assert(ab[a.len() + i] == b[i]);
            assert(token_valid(ab[a.len() + i]));
        }
    }
    if key_valid(p) && key_valid(q) {
        assert forall|i: int| 0 <= i < ab.len() implies #[trigger] token_valid(ab[i]) by {
            if i < a.len() {
                assert(ab[i] == a[i]);
                assert(token_valid(a[i]));
            } else {
                assert(ab[i] == b[i - a.len()]);
                assert(token_valid(b[i - a.len()]));
            }
        }
    }
    if comma_free(p) {
        lemma_split_comma_free(p);
        assert(a[0] == p);
        if token_valid(p) {
            assert forall|i: int| 0 <= i < a.len() implies #[trigger] token_valid(a[i]) by {}
        }
    }
}

/// A key's comma count is the number of its commas: none in a comma-free key, and one
/// more than its two sides together when two keys are joined by a comma.
pub proof fn lemma_comma_count_by_pieces(p: Seq<char>, q: Seq<char>)
    ensures
        comma_count(p + seq![','] + q) == comma_count(p) + comma_count(q) + 1,
        comma_free(p) ==> comma_count(p) == 0,
{
    lemma_split_join(p, q);
    if comma_free(p) {
        lemma_split_comma_free(p);
    }
}

/// Whether `a` names more buttons than `b`, or as many with at least as many bytes.
pub open spec fn at_least_as_specific(a: Seq<char>, b: Seq<char>) -> bool {
    comma_count(b) < comma_count(a) || (comma_count(b) == comma_count(a) && byte_len(b)
        <= byte_len(a))
}

/// The target picked for the held buttons comes from a held key; no held key has more
/// commas, and among held keys with as many commas none is longer in bytes; every later
/// held key has fewer commas, or as many and fewer bytes, so ties go to the key listed
/// last. Nothing is picked exactly when no key is held.
pub proof fn lemma_selection_prefers_more_buttons(
    entries: Seq<(Seq<char>, String)>,
    input: InputState,
    facing: Facing,
)
    ensures
        selected_target(entries, input, facing) is None <==> forall|j: int|
            0 <= j < entries.len() ==> !key_held((#[trigger] entries[j]).0, input, facing),
        selected_target(entries, input, facing) matches Some(v) ==> exists|i: int|
            0 <= i < entries.len() && key_held((#[trigger] entries[i]).0, input, facing)
                && entries[i].1 == v && (forall|j: int|
                0 <= j < entries.len() && key_held((#[trigger] entries[j]).0, input, facing)
                    ==> comma_count(entries[j].0) < comma_count(entries[i].0) || (comma_count(
                    entries[j].0,
                ) == comma_count(entries[i].0) && byte_len(entries[j].0) <= byte_len(
                    entries[i].0,
                ))) && (forall|j: int|
                i < j < entries.len() && key_held((#[trigger] entries[j]).0, input, facing)
                    ==> comma_count(entries[j].0) < comma_count(entries[i].0) || (comma_count(
                    entries[j].0,
                ) == comma_count(entries[i].0) && byte_len(entries[j].0) < byte_len(
                    entries[i].0,
                ))),
{
    lemma_chosen_is_most_specific(entries, input, facing);
    match chosen_index(entries, input, facing) {
        Some(c) => {
            assert(entries[c].1 == selected_target(entries, input, facing)->0);
        },
        None => {
            if exists|j: int|
                0 <= j < entries.len() && key_held((#[trigger] entries[j]).0, input, facing) {
                let j = choose|j: int|
                    0 <= j < entries.len() && key_held((#[trigger] entries[j]).0, input, facing);
                assert(key_held(entries[j].0, input, facing));
            }
        },
    }
}

/// Each button token reads exactly its own button: `up`, `down`, `throw`, `light` and
/// `heavy` read the field of that name, `backward` and `forward` read left or right as the
/// fighter faces, a `!` in front reads the button released, and the empty key always holds.
pub proof fn lemma_token_meanings(input: InputState, facing: Facing)
    ensures
        key_held(""@, input, facing),
        key_held("backward"@, input, facing) == (if facing == Facing::Right {
            input.left
        } else {
            input.right
        }),
        key_held("forward"@, input, facing) == (if facing == Facing::Right {
            input.right
        } else {
            input.left
        }),
        key_held("up"@, input, facing) == input.up,
        key_held("down"@, input, facing) == input.down,
        key_held("throw"@, input, facing) == input.throw,
        key_held("light"@, input, facing) == input.light,
        key_held("heavy"@, input, facing) == input.heavy,
        key_held("!backward"@, input, facing) == !(if facing == Facing::Right {
            input.left
        } else {
            input.right
        }),
        key_held("!forward"@, input, facing) == !(if facing == Facing::Right {
            input.right
        } else {
            input.left
        }),
        key_held("!up"@, input, facing) == !input.up,
        key_held("!down"@, input, facing) == !input.down,
        key_held("!throw"@, input, facing) == !input.throw,
        key_held("!light"@, input, facing) == !input.light,
        key_held("!heavy"@, input, facing) == !input.heavy,
{
    reveal_strlit("");
    reveal_strlit("backward");
    reveal_strlit("forward");
    reveal_strlit("up");
    reveal_strlit("down");
    reveal_strlit("throw");
    reveal_strlit("light");
    reveal_strlit("heavy");
    reveal_strlit("!backward");
    reveal_strlit("!forward");
    reveal_strlit("!up");
    reveal_strlit("!down");
    reveal_strlit("!throw");
    reveal_strlit("!light");
    reveal_strlit("!heavy");
    lemma_key_held_by_pieces(""@, seq![], input, facing);
    lemma_key_held_by_pieces("backward"@, seq![], input, facing);
    lemma_key_held_by_pieces("forward"@, seq![], input, facing);
    lemma_key_held_by_pieces("up"@, seq![], input, facing);
    lemma_key_held_by_pieces("down"@, seq![], input, facing);
    lemma_key_held_by_pieces("throw"@, seq![], input, facing);
    lemma_key_held_by_pieces("light"@, seq![], input, facing);
    lemma_key_held_by_pieces("heavy"@, seq![], input, facing);
    lemma_key_held_by_pieces("!backward"@, seq![], input, facing);
    lemma_key_held_by_pieces("!forward"@, seq![], input, facing);
    lemma_key_held_by_pieces("!up"@, seq![], input, facing);
    lemma_key_held_by_pieces("!down"@, seq![], input, facing);
    lemma_key_held_by_pieces("!throw"@, seq![], input, facing);
    lemma_key_held_by_pieces("!light"@, seq![], input, facing);
    lemma_key_held_by_pieces("!heavy"@, seq![], input, facing);
    assert("!backward"@.drop_first() =~= "backward"@);
    assert("!forward"@.drop_first() =~= "forward"@);
    assert("!up"@.drop_first() =~= "up"@);
    assert("!down"@.drop_first() =~= "down"@);
    assert("!throw"@.drop_first() =~= "throw"@);
    assert("!light"@.drop_first() =~= "light"@);
    assert("!heavy"@.drop_first() =~= "heavy"@);
}

/// A token is known exactly when it is one of the seven button names or one of them
/// after `!`; a key without commas is valid exactly when it is such a token.
pub proof fn lemma_known_tokens(t: Seq<char>)
    requires
        comma_free(t),
    ensures
        key_valid(t) <==> (t == "backward"@ || t == "forward"@ || t == "up"@ || t == "down"@
            || t == "throw"@ || t == "light"@ || t == "heavy"@ || t == "!backward"@ || t
            == "!forward"@ || t == "!up"@ || t == "!down"@ || t == "!throw"@ || t == "!light"@
            || t == "!heavy"@),
{
    reveal_strlit("backward");
    reveal_strlit("forward");
    reveal_strlit("up");
    reveal_strlit("down");
    reveal_strlit("throw");
    reveal_strlit("light");
    reveal_strlit("heavy");
    reveal_strlit("!backward");
    reveal_strlit("!forward");
    reveal_strlit("!up");
    reveal_strlit("!down");
    reveal_strlit("!throw");
    reveal_strlit("!light");
    reveal_strlit("!heavy");
    lemma_key_valid_by_pieces(t, seq![]);
    assert("!backward"@ =~= seq!['!'] + "backward"@);
    assert("!forward"@ =~= seq!['!'] + "forward"@);
    assert("!up"@ =~= seq!['!'] + "up"@);
    assert("!down"@ =~= seq!['!'] + "down"@);
    assert("!throw"@ =~= seq!['!'] + "throw"@);
    assert("!light"@ =~= seq!['!'] + "light"@);
    assert("!heavy"@ =~= seq!['!'] + "heavy"@);
    let bang = t.len() > 0 && t[0] == '!';
    let plain = t == "backward"@ || t == "forward"@ || t == "up"@ || t == "down"@ || t
        == "throw"@ || t == "light"@ || t == "heavy"@;
    let negated = t == "!backward"@ || t == "!forward"@ || t == "!up"@ || t == "!down"@ || t
        == "!throw"@ || t == "!light"@ || t == "!heavy"@;
    if bang {
        let d = t.drop_first();
        assert(t =~= seq!['!'] + d);
        assert(!plain);
        assert(token_valid(t) == (parse_token(t) is Some));
        if negated {
            assert(d == "backward"@ || d == "forward"@ || d == "up"@ || d == "down"@ || d
                == "throw"@ || d == "light"@ || d == "heavy"@);
        }
        if d == "backward"@ || d == "forward"@ || d == "up"@ || d == "down"@ || d == "throw"@
            || d == "light"@ || d == "heavy"@ {
            assert(negated);
        }
    } else {
        assert(!negated);
    }
}

/// A non-empty key without commas that is not one of the fourteen known tokens never holds.
pub proof fn lemma_unknown_tokens_never_hold(t: Seq<char>, input: InputState, facing: Facing)
    requires
        comma_free(t),
        t.len() > 0,
        !(t == "backward"@ || t == "forward"@ || t == "up"@ || t == "down"@ || t == "throw"@
            || t == "light"@ || t == "heavy"@ || t == "!backward"@ || t == "!forward"@ || t
            == "!up"@ || t == "!down"@ || t == "!throw"@ || t == "!light"@ || t == "!heavy"@),
    ensures
        !key_held(t, input, facing),
{
    lemma_known_tokens(t);
    lemma_key_valid_by_pieces(t, seq![]);
    lemma_key_held_by_pieces(t, seq![], input, facing);
}

/// A key's length in bytes adds up over its parts, and a single character takes one byte
/// below 0x80, two below 0x800, three below 0x10000 and four above.
pub proof fn lemma_byte_len_adds_up(a: Seq<char>, b: Seq<char>, c: char)
    ensures
        byte_len(a + b) == byte_len(a) + byte_len(b),
        byte_len(seq![c]) == (if (c as u32) < 0x80 {
            1nat
        } else if (c as u32) < 0x800 {
            2nat
        } else if (c as u32) < 0x10000 {
            3nat
        } else {
            4nat
        }),
    decreases a.len(),
{
    assert(seq![c].drop_first() =~= Seq::<char>::empty());
    assert(seq![c][0] == c);
    assert(vstd::utf8::encode_utf8(Seq::<char>::empty()) =~= Seq::<u8>::empty());
    assert(vstd::utf8::encode_utf8(seq![c]) == vstd::utf8::encode_scalar(c as u32)
        + vstd::utf8::encode_utf8(Seq::<char>::empty()));
    assert(!(0xD800 <= (c as u32) <= 0xDFFF));
    if a.len() == 0 {
        assert(a + b =~= b);
    } else {
        lemma_byte_len_adds_up(a.drop_first(), b, c);
        assert((a + b).drop_first() =~= a.drop_first() + b);
        assert((a + b)[0] == a[0]);
    }
}

} // verus!
