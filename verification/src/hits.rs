//! Hit bookkeeping between fighters: which fighter's hit boxes overlap which fighter's
//! hurt boxes, and which of those overlaps are new since the previous frame.
use vstd::prelude::*;

verus! {

/// Fighter `a`'s hit boxes overlap fighter `b`'s hurt boxes.
#[derive(Clone, Copy, Debug, PartialEq, Eq, Structural)]
pub struct OverlapEvent {
    pub a: usize,
    pub b: usize,
}

/// The overlaps of `current`, in order, that are not among `previous`.
pub open spec fn fresh_overlaps(current: Seq<OverlapEvent>, previous: Seq<OverlapEvent>) -> Seq<
    OverlapEvent,
>
    decreases current.len(),
{
    if current.len() == 0 {
        Seq::empty()
    } else {
        fresh_overlaps(current.drop_last(), previous) + if previous.contains(current.last()) {
            Seq::<OverlapEvent>::empty()
        } else {
            seq![current.last()]
        }
    }
}

/// The overlaps made by `attacker`, in order of the struck fighter: one for each other
/// fighter `u` with `struck[u]`.
pub open spec fn overlaps_by(attacker: usize, struck: Seq<bool>) -> Seq<OverlapEvent>
    decreases struck.len(),
{
    if struck.len() == 0 {
        Seq::empty()
    } else {
        let u = (struck.len() - 1) as usize;
        overlaps_by(attacker, struck.drop_last()) + if struck.last() && u != attacker {
            seq![OverlapEvent { a: attacker, b: u }]
        } else {
            Seq::<OverlapEvent>::empty()
        }
    }
}

/// An overlap is fresh exactly when it is current and was not there before.
pub proof fn lemma_fresh_overlaps(current: Seq<OverlapEvent>, previous: Seq<OverlapEvent>)
    ensures
        forall|e: OverlapEvent|
            #[trigger] fresh_overlaps(current, previous).contains(e) <==> (current.contains(e)
                && !previous.contains(e)),
    decreases current.len(),
{
    if current.len() > 0 {
        let init = current.drop_last();
        lemma_fresh_overlaps(init, previous);
        let f = fresh_overlaps(current, previous);
        let fi = fresh_overlaps(init, previous);
        assert forall|e: OverlapEvent| #[trigger] f.contains(e) <==> (current.contains(e)
            && !previous.contains(e)) by {
            if f.contains(e) {
                let k = choose|k: int| 0 <= k < f.len() && f[k] == e;
                if k < fi.len() {
                    assert(fi[k] == e);
                    assert(fi.contains(e));
                    let m = choose|m: int| 0 <= m < init.len() && init[m] == e;
                    assert(current[m] == e);
                } else {
                    assert(current[current.len() - 1] == e);
                }
            }
            if current.contains(e) && !previous.contains(e) {
                let m = choose|m: int| 0 <= m < current.len() && current[m] == e;
                if m < current.len() - 1 {
                    assert(init[m] == e);
                    assert(fi.contains(e));
                    let k = choose|k: int| 0 <= k < fi.len() && fi[k] == e;
                    assert(f[k] == e);
                } else {
                    assert(f[f.len() - 1] == e);
                }
            }
        }
    }
}

/// The overlaps of `current` that were not already there in `previous`, in order: the
/// overlaps that land a hit this frame.
pub fn new_overlaps(current: &Vec<OverlapEvent>, previous: &Vec<OverlapEvent>) -> (r: Vec<
    OverlapEvent,
>)
    ensures
        r@ == fresh_overlaps(current@, previous@),
        forall|e: OverlapEvent|
            #[trigger] r@.contains(e) <==> (current@.contains(e) && !previous@.contains(e)),
{
    let mut r: Vec<OverlapEvent> = Vec::new();
    let mut i: usize = 0;
    assert(current@.subrange(0, 0) =~= Seq::<OverlapEvent>::empty());
    while i < current.len()
        invariant
            i <= current.len(),
            r@ == fresh_overlaps(current@.subrange(0, i as int), previous@),
        decreases current.len() - i,
    {
        let ghost prefix = current@.subrange(0, i + 1);
        assert(prefix.drop_last() =~= current@.subrange(0, i as int));
        assert(prefix.last() == current@[i as int]);
        let e = current[i];
        let mut seen = false;
        let mut j: usize = 0;
        while j < previous.len()
            invariant
                j <= previous.len(),
                seen == exists|k: int| 0 <= k < j && previous@[k] == e,
            decreases previous.len() - j,
        {
            if previous[j] == e {
                seen = true;
            }
            j += 1;
        }
        let ghost before = r@;
        if !seen {
            r.push(e);
        }
        assert(r@ =~= fresh_overlaps(prefix, previous@));
        i += 1;
    }
    assert(current@.subrange(0, current.len() as int) =~= current@);
    proof {
        lemma_fresh_overlaps(current@, previous@);
    }
    r
}

/// The overlaps made by fighter `attacker`: one for every other fighter `u` whose hurt
/// boxes its hit boxes reach (`struck[u]`), in order of `u`.
pub fn overlaps_of(attacker: usize, struck: &Vec<bool>) -> (r: Vec<OverlapEvent>)
    ensures
        r@ == overlaps_by(attacker, struck@),
{
    let mut r: Vec<OverlapEvent> = Vec::new();
    let mut u: usize = 0;
    assert(struck@.subrange(0, 0) =~= Seq::<bool>::empty());
    while u < struck.len()
        invariant
            u <= struck.len(),
            r@ == overlaps_by(attacker, struck@.subrange(0, u as int)),
        decreases struck.len() - u,
    {
        let ghost prefix = struck@.subrange(0, u + 1);
        assert(prefix.drop_last() =~= struck@.subrange(0, u as int));
        assert(prefix.last() == struck@[u as int]);
        if struck[u] && u != attacker {
            r.push(OverlapEvent { a: attacker, b: u });
        }
        assert(r@ =~= overlaps_by(attacker, prefix));
        u += 1;
    }
    assert(struck@.subrange(0, struck.len() as int) =~= struck@);
    r
}

} // verus!
