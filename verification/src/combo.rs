//! Transition keys: comma-separated lists of button tokens such as `"down,!backward"`.
use vstd::prelude::*;

use crate::input::{Button, Facing, InputState};
use crate::table::Table;

verus! {

/// The pieces of `s` between commas, as `str::split(",")` yields them:
/// an empty string gives one empty piece, and each comma starts a new piece.
pub open spec fn split_commas(s: Seq<char>) -> Seq<Seq<char>>
    decreases s.len(),
{
    if s.len() == 0 {
        seq![Seq::<char>::empty()]
    } else {
        let parts = split_commas(s.drop_last());
        if s.last() == ',' {
            parts.push(Seq::<char>::empty())
        } else {
            parts.update(parts.len() - 1, parts.last().push(s.last()))
        }
    }
}

/// The number of commas in `s`.
pub open spec fn comma_count(s: Seq<char>) -> nat
    decreases s.len(),
{
    if s.len() == 0 {
        0
    } else if s.last() == ',' {
        comma_count(s.drop_last()) + 1
    } else {
        comma_count(s.drop_last())
    }
}

/// The button a token names without a leading `!`.
pub open spec fn button_named(name: Seq<char>) -> Option<Button> {
    if name == "backward"@ {
        Some(Button::Backward)
    } else if name == "forward"@ {
        Some(Button::Forward)
    } else if name == "up"@ {
        Some(Button::Up)
    } else if name == "down"@ {
        Some(Button::Down)
    } else if name == "throw"@ {
        Some(Button::Throw)
    } else if name == "light"@ {
        Some(Button::Light)
    } else if name == "heavy"@ {
        Some(Button::Heavy)
    } else {
        None
    }
}

/// A known token: a button name, or `!` followed by a button name (the button released).
/// The flag tells whether the token is negated.
pub open spec fn parse_token(token: Seq<char>) -> Option<(bool, Button)> {
    if token.len() > 0 && token[0] == '!' {
        match button_named(token.drop_first()) {
            Some(b) => Some((true, b)),
            None => None,
        }
    } else {
        match button_named(token) {
            Some(b) => Some((false, b)),
            None => None,
        }
    }
}

/// Whether a token is satisfied: the empty token always is, a known token is when its
/// button is held (or, negated, released), and any other token never is.
pub open spec fn token_held(token: Seq<char>, input: InputState, facing: Facing) -> bool {
    token.len() == 0 || match parse_token(token) {
        Some((negated, b)) => input.spec_pressed(b, facing) != negated,
        None => false,
    }
}

/// Whether a token is one of the button names or negated button names.
pub open spec fn token_valid(token: Seq<char>) -> bool {
    parse_token(token) is Some
}

/// Whether every token of the key is satisfied.
pub open spec fn key_held(key: Seq<char>, input: InputState, facing: Facing) -> bool {
    forall|i: int|
        0 <= i < split_commas(key).len() ==> #[trigger] token_held(
            split_commas(key)[i],
            input,
            facing,
        )
}

/// Whether every token of the key is a known token.
pub open spec fn key_valid(key: Seq<char>) -> bool {
    forall|i: int| 0 <= i < split_commas(key).len() ==> #[trigger] token_valid(split_commas(key)[i])
}

/// A key has one more piece than it has commas.
pub proof fn lemma_split_len(s: Seq<char>)
    ensures
        split_commas(s).len() == comma_count(s) + 1,
    decreases s.len(),
{
    if s.len() > 0 {
        lemma_split_len(s.drop_last());
    }
}

/// The characters of a string slice.
pub fn chars_of(s: &str) -> (v: Vec<char>)
    ensures
        v@ == s@,
{
    let n = s.unicode_len();
    let mut v: Vec<char> = Vec::new();
    let mut i: usize = 0;
    while i < n
        invariant
            n == s@.len(),
            i <= n,
            v@ == s@.subrange(0, i as int),
        decreases n - i,
    {
        let c = s.get_char(i);
        v.push(c);
        i += 1;
        assert(v@ =~= s@.subrange(0, i as int));
    }
    assert(v@ =~= s@);
    v
}

/// Whether `v[start..end]` holds exactly the characters of `lit`.
fn span_equals(v: &Vec<char>, start: usize, end: usize, lit: &Vec<char>) -> (b: bool)
    requires
        start <= end <= v.len(),
    ensures
        b == (v@.subrange(start as int, end as int) == lit@),
{
    if end - start != lit.len() {
        return false;
    }
    let mut i: usize = 0;
    while i < lit.len()
        invariant
            start <= end <= v.len(),
            end - start == lit.len(),
            i <= lit.len(),
            forall|j: int| 0 <= j < i ==> v@[start + j] == lit@[j],
        decreases lit.len() - i,
    {
        if v[start + i] != lit[i] {
            assert(v@.subrange(start as int, end as int)[i as int] != lit@[i as int]);
            return false;
        }
        i += 1;
    }
    assert(v@.subrange(start as int, end as int) =~= lit@);
    true
}

/// The button named by `v[start..end]`.
fn button_at(v: &Vec<char>, start: usize, end: usize) -> (r: Option<Button>)
    requires
        start <= end <= v.len(),
    ensures
        r == button_named(v@.subrange(start as int, end as int)),
{
    if span_equals(v, start, end, &chars_of("backward")) {
        Some(Button::Backward)
    } else if span_equals(v, start, end, &chars_of("forward")) {
        Some(Button::Forward)
    } else if span_equals(v, start, end, &chars_of("up")) {
        Some(Button::Up)
    } else if span_equals(v, start, end, &chars_of("down")) {
        Some(Button::Down)
    } else if span_equals(v, start, end, &chars_of("throw")) {
        Some(Button::Throw)
    } else if span_equals(v, start, end, &chars_of("light")) {
        Some(Button::Light)
    } else if span_equals(v, start, end, &chars_of("heavy")) {
        Some(Button::Heavy)
    } else {
        None
    }
}

/// Parses the token `v[start..end]`.
fn token_at(v: &Vec<char>, start: usize, end: usize) -> (r: Option<(bool, Button)>)
    requires
        start <= end <= v.len(),
    ensures
        r == parse_token(v@.subrange(start as int, end as int)),
{
    let ghost t = v@.subrange(start as int, end as int);
    if start < end && v[start] == '!' {
        assert(t.drop_first() =~= v@.subrange(start + 1, end as int));
        match button_at(v, start + 1, end) {
            Some(b) => Some((true, b)),
            None => None,
        }
    } else {
        match button_at(v, start, end) {
            Some(b) => Some((false, b)),
            None => None,
        }
    }
}

/// Whether the token `v[start..end]` is satisfied by `input` for a fighter facing `facing`.
fn token_held_at(v: &Vec<char>, start: usize, end: usize, input: &InputState, facing: Facing) -> (b:
    bool)
    requires
        start <= end <= v.len(),
    ensures
        b == token_held(v@.subrange(start as int, end as int), *input, facing),
{
    if start == end {
        return true;
    }
    match token_at(v, start, end) {
        Some((negated, button)) => input.pressed(button, facing) != negated,
        None => false,
    }
}

/// The bounds of the comma-separated pieces of `v`, in order.
fn token_spans(v: &Vec<char>) -> (spans: Vec<(usize, usize)>)
    ensures
        spans.len() == split_commas(v@).len(),
        forall|j: int|
            0 <= j < spans.len() ==> {
                &&& (#[trigger] spans@[j]).0 <= spans@[j].1 <= v.len()
                &&& v@.subrange(spans@[j].0 as int, spans@[j].1 as int) == split_commas(v@)[j]
            },
{
    let mut spans: Vec<(usize, usize)> = Vec::new();
    let mut start: usize = 0;
    let mut i: usize = 0;
    assert(v@.subrange(0, 0) =~= Seq::<char>::empty());
    while i < v.len()
        invariant
            start <= i <= v.len(),
            spans.len() + 1 == split_commas(v@.subrange(0, i as int)).len(),
            split_commas(v@.subrange(0, i as int)).last() == v@.subrange(start as int, i as int),
            forall|j: int|
                0 <= j < spans.len() ==> {
                    &&& (#[trigger] spans@[j]).0 <= spans@[j].1 <= v.len()
                    &&& v@.subrange(spans@[j].0 as int, spans@[j].1 as int) == split_commas(
                        v@.subrange(0, i as int),
                    )[j]
                },
        decreases v.len() - i,
    {
        let ghost before = v@.subrange(0, i as int);
        let ghost after = v@.subrange(0, i + 1);
        assert(after.drop_last() =~= before);
        assert(after.last() == v@[i as int]);
        proof {
            lemma_split_len(before);
        }
        if v[i] == ',' {
            spans.push((start, i));
            start = i + 1;
            assert(v@.subrange(start as int, i + 1) =~= Seq::<char>::empty());
        } else {
            assert(v@.subrange(start as int, i + 1) =~= v@.subrange(start as int, i as int).push(
                v@[i as int],
            ));
        }
        i += 1;
    }
    assert(v@.subrange(0, v.len() as int) =~= v@);
    spans.push((start, v.len()));
    spans
}

/// Whether every token of `key` is satisfied by `input` for a fighter facing `facing`.
pub fn is_key_held(key: &String, input: &InputState, facing: Facing) -> (b: bool)
    ensures
        b == key_held(key@, *input, facing),
{
    let v = chars_of(key.as_str());
    let spans = token_spans(&v);
    let mut i: usize = 0;
    while i < spans.len()
        invariant
            v@ == key@,
            spans.len() == split_commas(v@).len(),
            forall|j: int|
                0 <= j < spans.len() ==> {
                    &&& (#[trigger] spans@[j]).0 <= spans@[j].1 <= v.len()
                    &&& v@.subrange(spans@[j].0 as int, spans@[j].1 as int) == split_commas(v@)[j]
                },
            i <= spans.len(),
            forall|j: int| 0 <= j < i ==> #[trigger] token_held(split_commas(v@)[j], *input, facing),
        decreases spans.len() - i,
    {
        let (start, end) = spans[i];
        assert(spans@[i as int].0 <= spans@[i as int].1);
        if !token_held_at(&v, start, end, input, facing) {
            return false;
        }
        i += 1;
    }
    true
}

/// Whether every token of `key` is a button name or a negated button name.
pub fn is_key_valid(key: &String) -> (b: bool)
    ensures
        b == key_valid(key@),
{
    let v = chars_of(key.as_str());
    let spans = token_spans(&v);
    let mut i: usize = 0;
    while i < spans.len()
        invariant
            v@ == key@,
            spans.len() == split_commas(v@).len(),
            forall|j: int|
                0 <= j < spans.len() ==> {
                    &&& (#[trigger] spans@[j]).0 <= spans@[j].1 <= v.len()
                    &&& v@.subrange(spans@[j].0 as int, spans@[j].1 as int) == split_commas(v@)[j]
                },
            i <= spans.len(),
            forall|j: int| 0 <= j < i ==> #[trigger] token_valid(split_commas(v@)[j]),
        decreases spans.len() - i,
    {
        let (start, end) = spans[i];
        assert(spans@[i as int].0 <= spans@[i as int].1);
        if token_at(&v, start, end).is_none() {
            assert(!token_valid(split_commas(v@)[i as int]));
            return false;
        }
        i += 1;
    }
    true
}

/// The number of commas in `key`.
pub fn key_comma_count(key: &String) -> (n: usize)
    ensures
        n == comma_count(key@),
{
    let v = chars_of(key.as_str());
    let spans = token_spans(&v);
    proof {
        lemma_split_len(v@);
    }
    spans.len() - 1
}

/// The number of bytes of the key in UTF-8.
pub open spec fn byte_len(key: Seq<char>) -> nat {
    vstd::utf8::encode_utf8(key).len()
}

/// Whether key `a` is at most as specific as key `b`: first by the number of commas,
/// then by the length in bytes.
pub open spec fn rank_le(a: Seq<char>, b: Seq<char>) -> bool {
    comma_count(a) < comma_count(b) || (comma_count(a) == comma_count(b) && byte_len(a)
        <= byte_len(b))
}

/// Among the entries whose key is held, the last one of the highest rank.
pub open spec fn chosen_index(entries: Seq<(Seq<char>, String)>, input: InputState, facing: Facing) -> Option<
    int,
>
    decreases entries.len(),
{
    if entries.len() == 0 {
        None
    } else {
        let prev = chosen_index(entries.drop_last(), input, facing);
        if key_held(entries.last().0, input, facing) && match prev {
            Some(p) => rank_le(entries[p].0, entries.last().0),
            None => true,
        } {
            Some(entries.len() - 1)
        } else {
            prev
        }
    }
}

/// The target of the chosen entry, if any key is held.
pub open spec fn selected_target(entries: Seq<(Seq<char>, String)>, input: InputState, facing: Facing) -> Option<
    String,
> {
    match chosen_index(entries, input, facing) {
        Some(i) => Some(entries[i].1),
        None => None,
    }
}

/// The chosen entry is the most specific held key: an entry is chosen exactly when some
/// key is held; the chosen key is held; no held key outranks it; and every later held key
/// ranks strictly below it, so among equally specific keys the last one wins.
pub proof fn lemma_chosen_is_most_specific(
    entries: Seq<(Seq<char>, String)>,
    input: InputState,
    facing: Facing,
)
    ensures
        chosen_index(entries, input, facing) is Some <==> exists|i: int|
            0 <= i < entries.len() && key_held((#[trigger] entries[i]).0, input, facing),
        chosen_index(entries, input, facing) matches Some(c) ==> {
            &&& 0 <= c < entries.len()
            &&& key_held(entries[c].0, input, facing)
            &&& forall|j: int|
                0 <= j < entries.len() && key_held((#[trigger] entries[j]).0, input, facing)
                    ==> rank_le(entries[j].0, entries[c].0)
            &&& forall|j: int|
                c < j < entries.len() && key_held((#[trigger] entries[j]).0, input, facing)
                    ==> !rank_le(entries[c].0, entries[j].0)
        },
    decreases entries.len(),
{
    if entries.len() > 0 {
        let init = entries.drop_last();
        lemma_chosen_is_most_specific(init, input, facing);
        assert forall|j: int| 0 <= j < init.len() implies #[trigger] init[j] == entries[j] by {}
        let n = entries.len() - 1;
        if exists|i: int| 0 <= i < init.len() && key_held((#[trigger] init[i]).0, input, facing) {
            let i = choose|i: int|
                0 <= i < init.len() && key_held((#[trigger] init[i]).0, input, facing);
            assert(key_held(entries[i].0, input, facing));
        }
        if exists|i: int|
            0 <= i < entries.len() && key_held((#[trigger] entries[i]).0, input, facing) {
            let i = choose|i: int|
                0 <= i < entries.len() && key_held((#[trigger] entries[i]).0, input, facing);
            if i < n {
                assert(key_held(init[i].0, input, facing));
            }
        }
        let prev = chosen_index(init, input, facing);
        match chosen_index(entries, input, facing) {
            Some(c) => {
                if c == n {
                    assert forall|j: int|
                        0 <= j < entries.len() && key_held(
                            (#[trigger] entries[j]).0,
                            input,
                            facing,
                        ) implies rank_le(entries[j].0, entries[c].0) by {
                        if j < n {
                            assert(key_held(init[j].0, input, facing));
                            let p = prev->0;
                            assert(rank_le(init[j].0, init[p].0));
                        }
                    }
                } else {
                    assert(prev == Some(c));
                    assert(key_held(init[c].0, input, facing));
                    assert forall|j: int|
                        0 <= j < entries.len() && key_held(
                            (#[trigger] entries[j]).0,
                            input,
                            facing,
                        ) implies rank_le(entries[j].0, entries[c].0) by {
                        if j < n {
                            assert(key_held(init[j].0, input, facing));
                            assert(rank_le(init[j].0, init[c].0));
                        }
                    }
                    assert forall|j: int|
                        c < j < entries.len() && key_held(
                            (#[trigger] entries[j]).0,
                            input,
                            facing,
                        ) implies !rank_le(entries[c].0, entries[j].0) by {
                        if j < n {
                            assert(key_held(init[j].0, input, facing));
                            assert(!rank_le(init[c].0, init[j].0));
                        }
                    }
                }
            },
            None => {},
        }
    }
}

/// The number of bytes of `key` in UTF-8.
fn key_byte_len(key: &String) -> (n: usize)
    ensures
        n == byte_len(key@),
{
    key.as_str().as_bytes().len()
}

/// The target of the most specific held key of `table`; among equally specific keys the
/// one that comes last.
pub fn select_transition(table: &Table<String>, input: &InputState, facing: Facing) -> (r: Option<
    String,
>)
    ensures
        r == selected_target(table@, *input, facing),
{
    let n = table.len();
    let mut best: Option<usize> = None;
    let mut best_commas: usize = 0;
    let mut best_bytes: usize = 0;
    let mut i: usize = 0;
    while i < n
        invariant
            n == table@.len(),
            i <= n,
            best == (match chosen_index(table@.subrange(0, i as int), *input, facing) {
                Some(c) => Some(c as usize),
                None => None::<usize>,
            }),
            best matches Some(b) ==> {
                &&& b < i
                &&& best_commas == comma_count(table@[b as int].0)
                &&& best_bytes == byte_len(table@[b as int].0)
            },
        decreases n - i,
    {
        let ghost prefix = table@.subrange(0, i + 1);
        assert(prefix.drop_last() =~= table@.subrange(0, i as int));
        assert(prefix.last() == table@[i as int]);
        proof {
            lemma_chosen_is_most_specific(table@.subrange(0, i as int), *input, facing);
        }
        let key = table.key_at(i);
        if is_key_held(key, input, facing) {
            let commas = key_comma_count(key);
            let bytes = key_byte_len(key);
            let replace = match best {
                None => true,
                Some(_) => best_commas < commas || (best_commas == commas && best_bytes <= bytes),
            };
            if let Some(b) = best {
                assert(prefix[b as int] == table@[b as int]);
            }
            if replace {
                best = Some(i);
                best_commas = commas;
                best_bytes = bytes;
            }
        }
        i += 1;
    }
    assert(table@.subrange(0, n as int) =~= table@);
    match best {
        Some(b) => {
            proof {
                lemma_chosen_is_most_specific(table@, *input, facing);
            }
            Some(table.value_at(b).clone())
        },
        None => None,
    }
}

} // verus!
