use crate::model::{EngineError, Participant};
use vstd::prelude::*;

verus! {

/// Some participant of `s` carries `id`.
pub open spec fn has_id(s: Seq<Participant>, id: u64) -> bool {
    exists|i: int| 0 <= i < s.len() && #[trigger] s[i].id == id
}

/// `s` with every participant whose id was already seen left out; the
/// first occurrence of each id keeps its place.
pub open spec fn dedup_by_id(s: Seq<Participant>) -> Seq<Participant>
    decreases s.len(),
{
    if s.len() == 0 {
        Seq::empty()
    } else {
        let d = dedup_by_id(s.drop_last());
        if has_id(d, s.last().id) {
            d
        } else {
            d.push(s.last())
        }
    }
}

/// `s` without its automated accounts, in the same order.
pub open spec fn without_automated(s: Seq<Participant>) -> Seq<Participant>
    decreases s.len(),
{
    if s.len() == 0 {
        Seq::empty()
    } else {
        let d = without_automated(s.drop_last());
        if s.last().is_automated {
            d
        } else {
            d.push(s.last())
        }
    }
}

/// The participants a command works with: de-duplicated by id, then, when
/// asked, stripped of automated accounts.
pub open spec fn eligible(raw: Seq<Participant>, exclude_automated: bool) -> Seq<Participant> {
    if exclude_automated {
        without_automated(dedup_by_id(raw))
    } else {
        dedup_by_id(raw)
    }
}

/// Dropping automated accounts leaves none of them, and keeps only
/// participants that were there.
pub proof fn lemma_without_automated(s: Seq<Participant>)
    ensures
        forall|i: int|
            0 <= i < without_automated(s).len() ==> !(#[trigger] without_automated(s)[i]).is_automated
                && s.contains(without_automated(s)[i]),
    decreases s.len(),
{
    if s.len() > 0 {
        lemma_without_automated(s.drop_last());
        let d = without_automated(s.drop_last());
        assert forall|i: int| 0 <= i < d.len() implies s.contains(#[trigger] d[i]) by {
            let j = choose|j: int| 0 <= j < s.drop_last().len() && s.drop_last()[j] == d[i];
            assert(s[j] == d[i]);
        }
        assert(s[s.len() - 1] == s.last());
    }
}

/// De-duplication keeps only participants that were there.
pub proof fn lemma_dedup_from_input(s: Seq<Participant>)
    ensures
        forall|i: int| 0 <= i < dedup_by_id(s).len() ==> s.contains(#[trigger] dedup_by_id(s)[i]),
    decreases s.len(),
{
    if s.len() > 0 {
        lemma_dedup_from_input(s.drop_last());
        let d = dedup_by_id(s.drop_last());
        assert forall|i: int| 0 <= i < d.len() implies s.contains(#[trigger] d[i]) by {
            let j = choose|j: int| 0 <= j < s.drop_last().len() && s.drop_last()[j] == d[i];
            assert(s[j] == d[i]);
        }
        assert(s[s.len() - 1] == s.last());
    }
}

/// De-duplication leaves no two participants with the same id.
pub proof fn lemma_dedup_unique(s: Seq<Participant>)
    ensures
        forall|i: int, j: int|
            0 <= i < j < dedup_by_id(s).len() ==> (#[trigger] dedup_by_id(s)[i]).id != (
            #[trigger] dedup_by_id(s)[j]).id,
    decreases s.len(),
{
    if s.len() > 0 {
        lemma_dedup_unique(s.drop_last());
        let d = dedup_by_id(s.drop_last());
        if !has_id(d, s.last().id) {
            let e = d.push(s.last());
            assert forall|i: int, j: int| 0 <= i < j < e.len() implies (#[trigger] e[i]).id != (
            #[trigger] e[j]).id by {
                if j == d.len() {
                    assert(d[i].id == e[i].id);
                }
            }
        }
    }
}

/// Everyone a command works with was present, and with automated accounts
/// excluded none of them is automated.
pub proof fn lemma_eligible(raw: Seq<Participant>, exclude_automated: bool)
    ensures
        forall|i: int|
            0 <= i < eligible(raw, exclude_automated).len() ==> raw.contains(
                #[trigger] eligible(raw, exclude_automated)[i],
            ) && (exclude_automated ==> !eligible(raw, exclude_automated)[i].is_automated),
{
    lemma_dedup_from_input(raw);
    lemma_without_automated(dedup_by_id(raw));
    if exclude_automated {
        let d = dedup_by_id(raw);
        let w = without_automated(d);
        assert forall|i: int| 0 <= i < w.len() implies raw.contains(#[trigger] w[i]) by {
            let j = choose|j: int| 0 <= j < d.len() && d[j] == w[i];
            assert(raw.contains(d[j]));
        }
    }
}

/// Ids that are distinct in `s` stay distinct once automated accounts are
/// dropped.
proof fn lemma_without_automated_unique(s: Seq<Participant>)
    requires
        forall|i: int, j: int| 0 <= i < j < s.len() ==> (#[trigger] s[i]).id != (#[trigger] s[j]).id,
    ensures
        forall|i: int, j: int|
            0 <= i < j < without_automated(s).len() ==> (#[trigger] without_automated(s)[i]).id != (
            #[trigger] without_automated(s)[j]).id,
    decreases s.len(),
{
    if s.len() > 0 {
        let p = s.drop_last();
        assert forall|i: int, j: int| 0 <= i < j < p.len() implies (#[trigger] p[i]).id != (
        #[trigger] p[j]).id by {
            assert(p[i] == s[i] && p[j] == s[j]);
        }
        lemma_without_automated_unique(p);
        lemma_without_automated(p);
        let d = without_automated(p);
        if !s.last().is_automated {
            let e = d.push(s.last());
            assert forall|i: int, j: int| 0 <= i < j < e.len() implies (#[trigger] e[i]).id != (
            #[trigger] e[j]).id by {
                if j == d.len() {
                    assert(p.contains(d[i]));
                    let q = choose|q: int| 0 <= q < p.len() && p[q] == d[i];
                    assert(s[q] == d[i]);
                    assert(s[s.len() - 1] == s.last());
                }
            }
        }
    }
}

/// No two participants that a command works with share an id.
pub proof fn lemma_eligible_unique(raw: Seq<Participant>, exclude_automated: bool)
    ensures
        forall|i: int, j: int|
            0 <= i < j < eligible(raw, exclude_automated).len() ==> (#[trigger] eligible(
                raw,
                exclude_automated,
            )[i]).id != (#[trigger] eligible(raw, exclude_automated)[j]).id,
{
    lemma_dedup_unique(raw);
    if exclude_automated {
        lemma_without_automated_unique(dedup_by_id(raw));
    }
}

fn contains_id(v: &Vec<Participant>, id: u64) -> (r: bool)
    ensures
        r == has_id(v@, id),
{
    let mut i: usize = 0;
    while i < v.len()
        invariant
            i <= v@.len(),
            forall|j: int| 0 <= j < i ==> v@[j].id != id,
        decreases v@.len() - i,
    {
        if v[i].id == id {
            return true;
        }
        i = i + 1;
    }
    false
}

/// The eligible participants of a raw presence list.
pub fn eligible_participants(raw: &Vec<Participant>, exclude_automated: bool) -> (r: Vec<Participant>)
    ensures
        r@ == eligible(raw@, exclude_automated),
        forall|i: int, j: int| 0 <= i < j < r@.len() ==> (#[trigger] r@[i]).id != (#[trigger] r@[j]).id,
{
    proof {
        lemma_eligible_unique(raw@, exclude_automated);
    }
    let mut unique: Vec<Participant> = Vec::new();
    let mut i: usize = 0;
    while i < raw.len()
        invariant
            i <= raw@.len(),
            unique@ == dedup_by_id(raw@.subrange(0, i as int)),
        decreases raw@.len() - i,
    {
        assert(raw@.subrange(0, i + 1).drop_last() == raw@.subrange(0, i as int));
        if !contains_id(&unique, raw[i].id) {
            unique.push(raw[i].duplicate());
        }
        i = i + 1;
    }
    assert(raw@.subrange(0, raw@.len() as int) == raw@);
    if !exclude_automated {
        assert(unique@ == eligible(raw@, exclude_automated));
        return unique;
    }
    let mut kept: Vec<Participant> = Vec::new();
    let mut i: usize = 0;
    while i < unique.len()
        invariant
            i <= unique@.len(),
            kept@ == without_automated(unique@.subrange(0, i as int)),
        decreases unique@.len() - i,
    {
        assert(unique@.subrange(0, i + 1).drop_last() == unique@.subrange(0, i as int));
        if !unique[i].is_automated {
            kept.push(unique[i].duplicate());
        }
        i = i + 1;
    }
    assert(unique@.subrange(0, unique@.len() as int) == unique@);
    kept
}

/// The eligible participants, or `EmptyChannel` when there are none.
pub fn filter_participants(raw: &Vec<Participant>, exclude_automated: bool) -> (r: Result<Vec<Participant>, EngineError>)
    ensures
        r is Err <==> eligible(raw@, exclude_automated).len() == 0,
        r matches Err(e) ==> e is EmptyChannel,
        r matches Ok(v) ==> v@ == eligible(raw@, exclude_automated),
{
    let v = eligible_participants(raw, exclude_automated);
    if v.len() == 0 {
        Err(EngineError::EmptyChannel)
    } else {
        Ok(v)
    }
}

} // verus!
