//! The scores of past games: which are the best, and how they are stored.
//!
//! The scores are kept as a set, so a score that was reached twice is kept
//! once. They are stored as MessagePack: an array of whole numbers. The
//! encoding itself is left to `rmp_serde`; this module says which numbers go
//! in and what is made of the numbers that come out.

use std::collections::BTreeSet;
use vstd::prelude::*;
use vstd::std_specs::btree::spec_btree_keys_iter;
use vstd::std_specs::cmp::OrdSpec;
use vstd::std_specs::iter::IteratorSpec;

verus! {

/// How many of the best scores are kept from game to game.
pub const SCORES_KEPT: usize = 10;

/// Whether `listed` goes strictly upwards.
pub open spec fn is_ascending(listed: Seq<i64>) -> bool {
    forall|i: int, j: int| 0 <= i < j < listed.len() ==> listed[i] < listed[j]
}

/// Lists the scores from the lowest to the highest.
pub fn ascending(scores: &BTreeSet<i64>) -> (listed: Vec<i64>)
    ensures
        is_ascending(listed@),
        listed@.to_set() == scores@,
        listed@.len() == scores@.len(),
{
    let mut listed: Vec<i64> = Vec::new();
    for score in walk: scores.iter()
        invariant
            walk.seq() == spec_btree_keys_iter(scores).remaining(),
            listed@ == walk.seq().unref().take(walk.index()),
    {
        listed.push(*score);
        assert(listed@ =~= walk.seq().unref().take(walk.index() + 1));
    }
    proof {
        let stored = spec_btree_keys_iter(scores).remaining();
        assert(listed@ =~= stored.unref());
        broadcast use vstd::laws_cmp::group_laws_cmp;
        assert(vstd::laws_cmp::obeys_cmp::<i64>());
        assert(vstd::laws_cmp::obeys_cmp::<&i64>());
        vstd::std_specs::btree::axiom_increasing_seq_meaning::<&i64>(stored);
        assert forall|i: int, j: int| 0 <= i < j < listed@.len() implies listed@[i] < listed@[j] by {
            assert((&stored[i]).cmp_spec(&stored[j]) is Less);
        }
    }
    listed
}

/// Whether `best` is the highest of `scores`.
pub open spec fn is_highest(scores: Set<i64>, best: i64) -> bool {
    &&& scores.contains(best)
    &&& forall|score: i64| scores.contains(score) ==> score <= best
}

/// Whether `top` lists the `how_many` highest of `scores`, or all of them if
/// there are fewer, from the highest down.
pub open spec fn is_top_of(top: Seq<i64>, scores: Set<i64>, how_many: nat) -> bool {
    &&& top.len() == if scores.len() < how_many {
        scores.len()
    } else {
        how_many
    }
    &&& forall|i: int, j: int| 0 <= i < j < top.len() ==> top[i] > top[j]
    &&& forall|i: int| 0 <= i < top.len() ==> scores.contains(#[trigger] top[i])
    &&& forall|score: i64, i: int|
        #![trigger scores.contains(score), top[i]]
        scores.contains(score) && !top.contains(score) && 0 <= i < top.len() ==> score < top[i]
}

/// Adds a score to the scores. Returns whether it is new to them.
pub fn record_score(scores: &mut BTreeSet<i64>, score: i64) -> (new: bool)
    ensures
        final(scores)@ == old(scores)@.insert(score),
        new == !old(scores)@.contains(score),
{
    broadcast use vstd::laws_cmp::group_laws_cmp;

    scores.insert(score)
}

/// The set of the scores in `values`.
pub fn scores_from(values: &Vec<i64>) -> (scores: BTreeSet<i64>)
    ensures
        scores@ == values@.to_set(),
{
    let mut scores: BTreeSet<i64> = BTreeSet::new();
    let mut taken: usize = 0;
    assert(values@.take(0).to_set() =~= Set::<i64>::empty());
    while taken < values.len()
        invariant
            taken <= values@.len(),
            scores@ == values@.take(taken as int).to_set(),
        decreases values@.len() - taken,
    {
        record_score(&mut scores, values[taken]);
        proof {
            let before = values@.take(taken as int);
            let after = values@.take(taken + 1);
            assert(after == before.push(values@[taken as int]));
            assert(after.to_set() =~= before.to_set().insert(values@[taken as int])) by {
                assert forall|score: i64| after.contains(score) implies before.contains(score)
                    || score == values@[taken as int] by {
                    let at = choose|at: int| 0 <= at < after.len() && after[at] == score;
                    if at < before.len() {
                        assert(before[at] == score);
                    }
                }
                assert forall|score: i64| before.contains(score) implies after.contains(
                    score,
                ) by {
                    let at = choose|at: int| 0 <= at < before.len() && before[at] == score;
                    assert(after[at] == score);
                }
                assert(after[taken as int] == values@[taken as int]);
            }
        }
        taken = taken + 1;
    }
    assert(values@.take(taken as int) == values@);
    scores
}

/// The highest score, if there is any.
pub fn highest_score(scores: &BTreeSet<i64>) -> (best: Option<i64>)
    ensures
        match best {
            Some(best) => is_highest(scores@, best),
            None => scores@ =~= Set::<i64>::empty(),
        },
{
    let listed = ascending(scores);
    if listed.len() == 0 {
        assert(listed@.to_set() =~= Set::<i64>::empty());
        None
    } else {
        let best = listed[listed.len() - 1];
        proof {
            assert(listed@.contains(best));
            assert forall|score: i64| scores@.contains(score) implies score <= best by {
                assert(listed@.contains(score));
                let at = choose|at: int| 0 <= at < listed@.len() && listed@[at] == score;
                if at < listed@.len() - 1 {
                    assert(listed@[at] < listed@[listed@.len() - 1]);
                }
            }
        }
        Some(best)
    }
}

/// Whether `score` is a new high score: higher than every score so far, or,
/// where there is none so far, higher than nothing.
pub fn is_high_score(scores: &BTreeSet<i64>, score: i64) -> (high: bool)
    ensures
        high == if scores@ =~= Set::<i64>::empty() {
            score > 0
        } else {
            forall|earlier: i64| scores@.contains(earlier) ==> earlier < score
        },
{
    match highest_score(scores) {
        Some(best) => {
            assert(scores@.contains(best));
            score > best
        },
        None => score > 0,
    }
}

/// Lists the `how_many` highest scores, from the highest down.
pub fn top_scores(scores: &BTreeSet<i64>, how_many: usize) -> (top: Vec<i64>)
    ensures
        is_top_of(top@, scores@, how_many as nat),
{
    let listed = ascending(scores);
    let mut top: Vec<i64> = Vec::new();
    let mut left: usize = listed.len();
    while left > 0 && top.len() < how_many
        invariant
            is_ascending(listed@),
            left + top@.len() == listed@.len(),
            top@.len() <= how_many,
            forall|i: int| 0 <= i < top@.len() ==> #[trigger] top@[i] == listed@[listed@.len() - 1 - i],
        decreases left,
    {
        left = left - 1;
        top.push(listed[left]);
    }
    proof {
        let count = listed@.len() as int;
        assert forall|i: int| 0 <= i < top@.len() implies scores@.contains(#[trigger] top@[i]) by {
            assert(listed@.contains(listed@[count - 1 - i]));
        }
        assert forall|score: i64, i: int|
            #![trigger scores@.contains(score), top@[i]]
            scores@.contains(score) && !top@.contains(score) && 0 <= i < top@.len() implies score
            < top@[i] by {
            assert(listed@.contains(score));
            let at = choose|at: int| 0 <= at < count && listed@[at] == score;
            if at >= left {
                assert(top@[count - 1 - at] == score);
            }
            assert(listed@[at] < listed@[count - 1 - i]);
        }
    }
    top
}

/// The bytes that `rmp_serde` writes for an array of these scores.
pub uninterp spec fn msgpack_written(scores: Seq<i64>) -> Seq<u8>;

/// The scores that `rmp_serde` reads from the front of these bytes, or `None`
/// where it reads none and reports an error.
pub uninterp spec fn msgpack_read(bytes: Seq<u8>) -> Option<Seq<i64>>;

/// The error of `rmp_serde::encode::write`. Nothing is known of what it holds.
#[verifier::external_type_specification]
#[verifier::external_body]
pub struct ExEncodeError(rmp_serde::encode::Error);

/// The error of `rmp_serde::decode::from_read`. Nothing is known of what it holds.
#[verifier::external_type_specification]
#[verifier::external_body]
pub struct ExDecodeError(rmp_serde::decode::Error);

/// Calls `rmp_serde::encode::write` on an empty buffer and the scores.
///
/// What it writes depends on the scores alone, so the bytes that come back
/// are `msgpack_written` of the scores; nothing more is claimed of them. It
/// writes an array header and then each score, and reports an error only
/// where the buffer does; a `Vec<u8>` takes whatever is written to it, so
/// the call succeeds. Where there are more scores than a `u32` counts, it
/// counts them one by one in a `u32`, which overflows: so many are left out.
#[verifier::external_body]
fn write_msgpack(scores: &[i64]) -> (written: Result<Vec<u8>, rmp_serde::encode::Error>)
    requires
        scores@.len() <= u32::MAX,
    ensures
        written is Ok,
        written matches Ok(bytes) ==> bytes@ == msgpack_written(scores@),
{
    let mut bytes: Vec<u8> = Vec::new();
    match rmp_serde::encode::write(&mut bytes, scores) {
        Ok(()) => Ok(bytes),
        Err(error) => Err(error),
    }
}

/// Calls `rmp_serde::decode::from_read` on the bytes, for a list of scores.
///
/// What it reads depends on the bytes alone, so the scores that come back
/// are `msgpack_read` of the bytes; nothing more is claimed of them.
#[verifier::external_body]
fn read_msgpack(bytes: &[u8]) -> (read: Result<Vec<i64>, rmp_serde::decode::Error>)
    ensures
        match read {
            Ok(scores) => msgpack_read(bytes@) == Some(scores@),
            Err(_) => msgpack_read(bytes@) is None,
        },
{
    rmp_serde::decode::from_read::<&[u8], Vec<i64>>(bytes)
}

/// Why scores could not be saved.
#[derive(Clone, Copy, Debug, PartialEq, Eq, Structural)]
pub enum SaveError {
    /// There are more scores than the header of an array can count.
    TooManyScores,
}

/// The scores that a stored state holds: those that were read, or none
/// where nothing could be read.
pub open spec fn stored_scores(read: Option<Seq<i64>>) -> Set<i64> {
    match read {
        Some(scores) => scores.to_set(),
        None => Set::empty(),
    }
}

/// Encodes the scores for storing, in the order given. As many scores as
/// a `u32` counts can be stored, and no more.
pub fn save_state(scores: &[i64]) -> (saved: Result<Vec<u8>, SaveError>)
    ensures
        saved is Ok <==> scores@.len() <= u32::MAX,
        saved matches Ok(bytes) ==> bytes@ == msgpack_written(scores@),
        saved matches Err(error) ==> error == SaveError::TooManyScores,
{
    if scores.len() > u32::MAX as usize {
        return Err(SaveError::TooManyScores);
    }
    match write_msgpack(scores) {
        Ok(bytes) => Ok(bytes),
        Err(_) => unreached(),
    }
}

/// Decodes a stored state into the set of its scores. A state that cannot
/// be read holds none.
pub fn read_state(bytes: &[u8]) -> (scores: BTreeSet<i64>)
    ensures
        scores@ == stored_scores(msgpack_read(bytes@)),
{
    match read_msgpack(bytes) {
        Ok(values) => scores_from(&values),
        Err(_) => BTreeSet::new(),
    }
}

} // verus!
