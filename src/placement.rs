use rand::seq::SliceRandom;
use rand::Rng;
use vstd::prelude::*;
use crate::voxel::{Pos, VoxelField, column_lt};

verus! {

broadcast use vstd::seq_lib::group_to_multiset_ensures;

/// How many pickups are placed per world.
pub const BLUE_BALLS: usize = 5;

/// Hazard rolls are drawn uniformly from `0..HAZARD_ROLL_RANGE`.
pub const HAZARD_ROLL_RANGE: u32 = 200;

/// A roll below this value places a hazard.
pub const HAZARD_ODDS: u32 = 2;

/// Where one world's pickups and hazards go.
pub struct PlacementBatch {
    /// Positions that receive a pickup.
    pub blue_balls: Vec<Pos>,
    /// The positions after the pickups, each of which may receive a hazard.
    pub hazard_candidates: Vec<Pos>,
    /// The candidates whose roll placed a hazard, in candidate order.
    pub hazards: Vec<Pos>,
}

pub open spec fn min_nat(a: nat, b: nat) -> nat {
    if a < b { a } else { b }
}

/// Number of pickups for a list of `n` positions.
pub open spec fn ball_count(n: nat) -> nat {
    min_nat(BLUE_BALLS as nat, n)
}

/// The candidates whose roll is below the hazard odds, in order.
pub open spec fn hazards_of(c: Seq<Pos>, rolls: Seq<u32>) -> Seq<Pos>
    decreases c.len(),
{
    if c.len() == 0 {
        Seq::empty()
    } else {
        let rest = hazards_of(c.drop_last(), rolls.drop_last());
        if rolls.last() < HAZARD_ODDS {
            rest.push(c.last())
        } else {
            rest
        }
    }
}

/// Relies on rand's `SliceRandom::shuffle`: it reorders the slice in place, keeping
/// every element.
#[verifier::external_body]
fn shuffle_positions(v: &mut Vec<Pos>)
    ensures
        final(v)@.to_multiset() == old(v)@.to_multiset(),
{
    v.shuffle(&mut rand::thread_rng());
}

/// Relies on rand's `Rng::gen_range`: a value of the half-open range `0..bound`, which is
/// not empty.
#[verifier::external_body]
fn roll_below(bound: u32) -> (r: u32)
    requires
        bound > 0,
    ensures
        r < bound,
{
    rand::thread_rng().gen_range(0..bound)
}

/// Splits an already shuffled list: the first `min(5, len)` positions get pickups, the rest
/// are hazard candidates, and the candidates whose roll is below the odds get hazards.
pub fn place_batch(shuffled: &Vec<Pos>, rolls: &Vec<u32>) -> (r: PlacementBatch)
    requires
        rolls@.len() == shuffled@.len() - ball_count(shuffled@.len()),
    ensures
        r.blue_balls@ == shuffled@.take(ball_count(shuffled@.len()) as int),
        r.hazard_candidates@ == shuffled@.skip(ball_count(shuffled@.len()) as int),
        r.hazards@ == hazards_of(r.hazard_candidates@, rolls@),
{
    let n = if shuffled.len() < BLUE_BALLS { shuffled.len() } else { BLUE_BALLS };
    let mut blue_balls: Vec<Pos> = Vec::new();
    let mut hazard_candidates: Vec<Pos> = Vec::new();
    let mut i: usize = 0;
    while i < shuffled.len()
        invariant
            n == ball_count(shuffled@.len()),
            i <= shuffled@.len(),
            blue_balls@ == shuffled@.take(if i < n { i as int } else { n as int }),
            hazard_candidates@ == shuffled@.subrange(if i < n { i as int } else { n as int }, i as int),
        decreases shuffled.len() - i,
    {
        if i < n {
            blue_balls.push(shuffled[i]);
            assert(shuffled@.take(i + 1) == shuffled@.take(i as int).push(shuffled@[i as int]));
        } else {
            hazard_candidates.push(shuffled[i]);
            assert(shuffled@.subrange(n as int, i + 1) == shuffled@.subrange(n as int, i as int).push(
                shuffled@[i as int]));
        }
        i = i + 1;
    }
    assert(hazard_candidates@ == shuffled@.skip(n as int));
    let hazards = pick_hazards(&hazard_candidates, rolls);
    PlacementBatch { blue_balls, hazard_candidates, hazards }
}

/// The candidates whose roll is below the hazard odds, in order.
pub fn pick_hazards(candidates: &Vec<Pos>, rolls: &Vec<u32>) -> (r: Vec<Pos>)
    requires
        rolls@.len() == candidates@.len(),
    ensures
        r@ == hazards_of(candidates@, rolls@),
{
    let mut out: Vec<Pos> = Vec::new();
    let mut i: usize = 0;
    while i < candidates.len()
        invariant
            rolls@.len() == candidates@.len(),
            i <= candidates@.len(),
            out@ == hazards_of(candidates@.take(i as int), rolls@.take(i as int)),
        decreases candidates.len() - i,
    {
        assert(candidates@.take(i + 1).drop_last() == candidates@.take(i as int));
        assert(rolls@.take(i + 1).drop_last() == rolls@.take(i as int));
        if rolls[i] < HAZARD_ODDS {
            out.push(candidates[i]);
        }
        i = i + 1;
    }
    assert(candidates@.take(i as int) == candidates@);
    assert(rolls@.take(i as int) == rolls@);
    out
}

/// Samples the column surface positions of `field`, shuffles them, puts pickups on the
/// first `min(5, n)` and rolls for a hazard on each of the others.
pub fn spawn_balls(field: &VoxelField) -> (r: PlacementBatch)
    requires
        field.wf(),
    ensures
        r.blue_balls@.len() == ball_count(r.blue_balls@.len() + r.hazard_candidates@.len()),
        (r.blue_balls@ + r.hazard_candidates@).no_duplicates(),
        forall|p: Pos| #[trigger] (r.blue_balls@ + r.hazard_candidates@).contains(p)
            <==> field.column_surface(p.0 as int, p.1 as int, p.2 as int),
        forall|p: Pos| #[trigger] r.hazards@.contains(p) ==> r.hazard_candidates@.contains(p),
        exists|rolls: Seq<u32>|
            rolls.len() == r.hazard_candidates@.len() && (forall|i: int|
                0 <= i < rolls.len() ==> #[trigger] rolls[i] < HAZARD_ROLL_RANGE) && r.hazards@
                == hazards_of(r.hazard_candidates@, rolls),
        r.hazards@.no_duplicates(),
        r.hazards@.len() <= r.hazard_candidates@.len(),
        forall|p: Pos| #[trigger] r.hazards@.contains(p) ==> !r.blue_balls@.contains(p),
{
    let mut positions = field.sample_columns();
    let ghost sampled = positions@;
    assert(sampled.no_duplicates()) by {
        assert forall|i: int, j: int| 0 <= i < sampled.len() && 0 <= j < sampled.len() && i != j
            implies sampled[i] != sampled[j] by {
            if i < j {
                assert(column_lt(sampled[i], sampled[j]));
            } else {
                assert(column_lt(sampled[j], sampled[i]));
            }
        }
    }
    shuffle_positions(&mut positions);
    proof {
        sampled.lemma_multiset_has_no_duplicates();
        positions@.lemma_multiset_has_no_duplicates_conv();
    }
    let n = if positions.len() < BLUE_BALLS { positions.len() } else { BLUE_BALLS };
    let mut rolls: Vec<u32> = Vec::new();
    let mut i: usize = n;
    while i < positions.len()
        invariant
            n <= i <= positions@.len(),
            rolls@.len() == i - n,
            forall|k: int| 0 <= k < rolls@.len() ==> #[trigger] rolls@[k] < HAZARD_ROLL_RANGE,
        decreases positions.len() - i,
    {
        rolls.push(roll_below(HAZARD_ROLL_RANGE));
        i = i + 1;
    }
    let r = place_batch(&positions, &rolls);
    assert(r.blue_balls@ + r.hazard_candidates@ == positions@);
    assert forall|p: Pos| #[trigger] positions@.contains(p) <==> sampled.contains(p) by {
        assert(positions@.contains(p) <==> positions@.to_multiset().count(p) > 0);
        assert(sampled.contains(p) <==> sampled.to_multiset().count(p) > 0);
    }
    proof {
        lemma_hazards_from_candidates(r.hazard_candidates@, rolls@);
        lemma_batch_bounds(positions@, rolls@);
    }
    assert(rolls@.len() == r.hazard_candidates@.len() && r.hazards@ == hazards_of(
        r.hazard_candidates@,
        rolls@,
    ));
    r
}

/// Every hazard position is one of the candidates.
pub proof fn lemma_hazards_from_candidates(c: Seq<Pos>, rolls: Seq<u32>)
    ensures
        forall|p: Pos| #[trigger] hazards_of(c, rolls).contains(p) ==> c.contains(p),
    decreases c.len(),
{
    if c.len() > 0 {
        lemma_hazards_from_candidates(c.drop_last(), rolls.drop_last());
        assert forall|p: Pos| #[trigger] hazards_of(c, rolls).contains(p) implies c.contains(p) by {
            let rest = hazards_of(c.drop_last(), rolls.drop_last());
            if rest.contains(p) {
                let k = choose|k: int| 0 <= k < c.drop_last().len() && c.drop_last()[k] == p;
                assert(c[k] == p);
            } else {
                assert(c[c.len() - 1] == p);
            }
        }
    }
}

/// Hazards taken from distinct candidates are distinct, and never more than the candidates.
pub proof fn lemma_hazards_distinct(c: Seq<Pos>, rolls: Seq<u32>)
    requires
        c.no_duplicates(),
    ensures
        hazards_of(c, rolls).no_duplicates(),
        hazards_of(c, rolls).len() <= c.len(),
    decreases c.len(),
{
    if c.len() > 0 {
        let init = c.drop_last();
        assert(init.no_duplicates()) by {
            assert forall|i: int, j: int| 0 <= i < init.len() && 0 <= j < init.len() && i != j
                implies init[i] != init[j] by {
                assert(init[i] == c[i] && init[j] == c[j]);
            }
        }
        lemma_hazards_distinct(init, rolls.drop_last());
        lemma_hazards_from_candidates(init, rolls.drop_last());
        let rest = hazards_of(init, rolls.drop_last());
        if rolls.last() < HAZARD_ODDS {
            assert(!rest.contains(c.last())) by {
                if rest.contains(c.last()) {
                    let k = choose|k: int| 0 <= k < init.len() && init[k] == c.last();
                    assert(c[k] == c[c.len() - 1]);
                }
            }
            assert forall|i: int, j: int| 0 <= i < rest.len() + 1 && 0 <= j < rest.len() + 1 && i != j
                implies rest.push(c.last())[i] != rest.push(c.last())[j] by {
                if i == rest.len() {
                    assert(rest.contains(rest[j]));
                } else if j == rest.len() {
                    assert(rest.contains(rest[i]));
                }
            }
        }
    }
}

/// Pickups number `min(5, n)`, no position is both a pickup and a hazard candidate, hazards
/// are distinct, no more than the candidates and never on a pickup, and every position
/// handed out comes from the input.
pub proof fn lemma_batch_bounds(shuffled: Seq<Pos>, rolls: Seq<u32>)
    requires
        shuffled.no_duplicates(),
    ensures
        ({
            let k = ball_count(shuffled.len()) as int;
            let blue = shuffled.take(k);
            let rest = shuffled.skip(k);
            &&& blue.len() == ball_count(shuffled.len())
            &&& forall|p: Pos| #[trigger] blue.contains(p) ==> !rest.contains(p)
            &&& forall|p: Pos| #[trigger] blue.contains(p) ==> shuffled.contains(p)
            &&& forall|p: Pos| #[trigger] rest.contains(p) ==> shuffled.contains(p)
            &&& forall|p: Pos| #[trigger] hazards_of(rest, rolls).contains(p) ==> shuffled.contains(p)
            &&& forall|p: Pos| #[trigger] hazards_of(rest, rolls).contains(p) ==> !blue.contains(p)
            &&& hazards_of(rest, rolls).no_duplicates()
            &&& hazards_of(rest, rolls).len() <= rest.len()
        }),
{
    let k = ball_count(shuffled.len()) as int;
    let blue = shuffled.take(k);
    let rest = shuffled.skip(k);
    lemma_hazards_from_candidates(rest, rolls);
    assert(rest.no_duplicates()) by {
        assert forall|i: int, j: int| 0 <= i < rest.len() && 0 <= j < rest.len() && i != j
            implies rest[i] != rest[j] by {
            assert(rest[i] == shuffled[k + i] && rest[j] == shuffled[k + j]);
        }
    }
    lemma_hazards_distinct(rest, rolls);
    assert forall|p: Pos| #[trigger] blue.contains(p) implies !rest.contains(p) && shuffled.contains(p) by {
        let i = choose|i: int| 0 <= i < blue.len() && blue[i] == p;
        assert(shuffled[i] == p);
        if rest.contains(p) {
            let j = choose|j: int| 0 <= j < rest.len() && rest[j] == p;
            assert(shuffled[k + j] == p);
        }
    }
    assert forall|p: Pos| #[trigger] rest.contains(p) implies shuffled.contains(p) by {
        let j = choose|j: int| 0 <= j < rest.len() && rest[j] == p;
        assert(shuffled[k + j] == p);
    }
}

} // verus!
