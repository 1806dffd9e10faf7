use vstd::prelude::*;

verus! {

/// Pickups needed to win a round.
pub const PICKUPS_TO_WIN: u64 = 5;

/// Score bookkeeping for the running session.
#[derive(Clone, Copy, Debug)]
pub struct GameInfo {
    pub is_won: bool,
    pub wins: u64,
    pub collected: u64,
}

/// The score as numbers without a machine bound.
pub struct Score {
    pub is_won: bool,
    pub wins: nat,
    pub collected: nat,
}

impl View for GameInfo {
    type V = Score;

    open spec fn view(&self) -> Score {
        Score { is_won: self.is_won, wins: self.wins as nat, collected: self.collected as nat }
    }
}

impl GameInfo {
    /// A round in progress never rests at the pickup threshold.
    pub open spec fn wf(&self) -> bool {
        self.collected < PICKUPS_TO_WIN
    }
}

/// Jump eligibility of the avatar.
#[derive(Clone, Copy, Debug)]
pub struct Jump {
    pub jumping: bool,
    pub avalible: bool,
}

/// The category that a contact partner was tagged with when it was spawned.
#[derive(Clone, Copy, Debug, PartialEq, Eq, Structural)]
pub enum ContactKind {
    Ground,
    Hazard,
    Pickup,
    Other,
}

/// One contact between the avatar and another collider.
#[derive(Clone, Copy, Debug)]
pub struct Contact {
    pub other: u64,
    pub kind: ContactKind,
}

/// A sound to play.
#[derive(Clone, Copy, Debug, PartialEq, Eq, Structural)]
pub enum SoundCue {
    Hit,
    Score,
    Death,
}

/// What the avatar's contacts of one step ask of the engine.
pub struct CollisionOutcome {
    /// Sounds to play, in contact order.
    pub sounds: Vec<SoundCue>,
    /// Pickups to despawn, in contact order.
    pub despawned: Vec<u64>,
}

/// The effect of one contact on the score, taken on its own.
pub open spec fn step(s: Score, k: ContactKind) -> Score {
    match k {
        ContactKind::Hazard => Score { is_won: true, collected: 0, ..s },
        ContactKind::Pickup => if s.collected + 1 == PICKUPS_TO_WIN {
            Score { is_won: true, wins: s.wins + 1, collected: 0 }
        } else {
            Score { collected: s.collected + 1, ..s }
        },
        _ => s,
    }
}

/// The contacts of a step, applied one by one in order.
pub open spec fn run(s: Score, cs: Seq<ContactKind>) -> Score
    decreases cs.len(),
{
    if cs.len() == 0 {
        s
    } else {
        step(run(s, cs.drop_last()), cs.last())
    }
}

/// The score after one step: the contacts in order, and then a hazard touched anywhere in
/// the step takes precedence, ending the round with the count cleared.
pub open spec fn resolve(s: Score, cs: Seq<ContactKind>) -> Score {
    let t = run(s, cs);
    if cs.contains(ContactKind::Hazard) {
        Score { is_won: true, collected: 0, ..t }
    } else {
        t
    }
}

pub open spec fn kinds(cs: Seq<Contact>) -> Seq<ContactKind> {
    cs.map_values(|c: Contact| c.kind)
}

/// The sounds that a sequence of contacts plays.
pub open spec fn cues_of(cs: Seq<Contact>) -> Seq<SoundCue>
    decreases cs.len(),
{
    if cs.len() == 0 {
        Seq::empty()
    } else {
        let rest = cues_of(cs.drop_last());
        match cs.last().kind {
            ContactKind::Hazard => rest.push(SoundCue::Death),
            ContactKind::Pickup => rest.push(SoundCue::Score),
            _ => rest,
        }
    }
}

/// The pickups touched by a sequence of contacts.
pub open spec fn pickups_of(cs: Seq<Contact>) -> Seq<u64>
    decreases cs.len(),
{
    if cs.len() == 0 {
        Seq::empty()
    } else {
        let rest = pickups_of(cs.drop_last());
        if cs.last().kind == ContactKind::Pickup {
            rest.push(cs.last().other)
        } else {
            rest
        }
    }
}

/// Some contact is with the ground or a cube.
pub open spec fn touches_ground(cs: Seq<Contact>) -> bool {
    exists|i: int| 0 <= i < cs.len() && #[trigger] cs[i].kind == ContactKind::Ground
}

/// Applies the avatar's contacts of one step: pickups score and end the round at the
/// threshold, a hazard anywhere in the step ends the round with the count cleared, and
/// jumping is allowed iff some contact is ground.
pub fn collision_system(info: &mut GameInfo, jump: &mut Jump, contacts: &Vec<Contact>) -> (r:
    CollisionOutcome)
    requires
        old(info).wf(),
        old(info).wins + contacts@.len() <= u64::MAX,
    ensures
        final(info)@ == resolve(old(info)@, kinds(contacts@)),
        kinds(contacts@).contains(ContactKind::Hazard) ==> final(info).is_won
            && final(info).collected == 0,
        final(info).wf(),
        final(jump).avalible == touches_ground(contacts@),
        final(jump).jumping == old(jump).jumping,
        r.sounds@ == cues_of(contacts@),
        r.despawned@ == pickups_of(contacts@),
{
    let ghost start = *info;
    let mut sounds: Vec<SoundCue> = Vec::new();
    let mut despawned: Vec<u64> = Vec::new();
    let mut ground = false;
    let mut hazard = false;
    let mut i: usize = 0;
    while i < contacts.len()
        invariant
            start.wf(),
            start.wins + contacts@.len() <= u64::MAX,
            i <= contacts@.len(),
            info@ == run(start@, kinds(contacts@.take(i as int))),
            info.wf(),
            info.wins <= start.wins + i,
            ground == touches_ground(contacts@.take(i as int)),
            hazard == kinds(contacts@.take(i as int)).contains(ContactKind::Hazard),
            sounds@ == cues_of(contacts@.take(i as int)),
            despawned@ == pickups_of(contacts@.take(i as int)),
        decreases contacts.len() - i,
    {
        let c = contacts[i];
        let ghost pre = contacts@.take(i as int);
        assert(contacts@.take(i + 1).drop_last() == pre);
        assert(kinds(contacts@.take(i + 1)) == kinds(pre).push(c.kind));
        assert(kinds(contacts@.take(i + 1)).drop_last() == kinds(pre));
        assert(contacts@.take(i + 1).last() == c);
        proof {
            lemma_contains_push(kinds(pre), c.kind, ContactKind::Hazard);
        }
        match c.kind {
            ContactKind::Ground => {
                ground = true;
            },
            ContactKind::Hazard => {
                hazard = true;
                info.is_won = true;
                sounds.push(SoundCue::Death);
                info.collected = 0;
            },
            ContactKind::Pickup => {
                info.collected = info.collected + 1;
                sounds.push(SoundCue::Score);
                despawned.push(c.other);
                if info.collected == PICKUPS_TO_WIN {
                    info.is_won = true;
                    info.collected = 0;
                    info.wins = info.wins + 1;
                }
            },
            ContactKind::Other => {},
        }
        assert(ground == touches_ground(contacts@.take(i + 1))) by {
            let next = contacts@.take(i + 1);
            if touches_ground(next) && !touches_ground(pre) {
                let j = choose|j: int| 0 <= j < next.len() && #[trigger] next[j].kind == ContactKind::Ground;
                if j < i {
                    assert(pre[j].kind == ContactKind::Ground);
                }
            }
            if touches_ground(pre) {
                let j = choose|j: int| 0 <= j < pre.len() && #[trigger] pre[j].kind == ContactKind::Ground;
                assert(next[j].kind == ContactKind::Ground);
            }
            if c.kind == ContactKind::Ground {
                assert(next[i as int].kind == ContactKind::Ground);
            }
        }
        i = i + 1;
    }
    assert(contacts@.take(i as int) == contacts@);
    if hazard {
        info.is_won = true;
        info.collected = 0;
    }
    jump.avalible = ground;
    CollisionOutcome { sounds, despawned }
}

proof fn lemma_contains_push<A>(s: Seq<A>, a: A, x: A)
    ensures
        s.push(a).contains(x) <==> s.contains(x) || a == x,
{
    if s.push(a).contains(x) {
        let k = choose|k: int| 0 <= k < s.push(a).len() && s.push(a)[k] == x;
        if k < s.len() {
            assert(s[k] == x);
        }
    }
    if s.contains(x) {
        let k = choose|k: int| 0 <= k < s.len() && s[k] == x;
        assert(s.push(a)[k] == x);
    }
    if a == x {
        assert(s.push(a)[s.len() as int] == x);
    }
}

/// Four pickups in, one more ends the round: the count clears and the win count rises by
/// exactly one.
pub proof fn lemma_collection_threshold(s: Score)
    requires
        s.collected == PICKUPS_TO_WIN - 1,
    ensures
        resolve(s, seq![ContactKind::Pickup]) == (Score {
            is_won: true,
            wins: s.wins + 1,
            collected: 0,
        }),
{
    let cs = seq![ContactKind::Pickup];
    assert(cs.drop_last() == Seq::<ContactKind>::empty());
    assert(!cs.contains(ContactKind::Hazard)) by {
        if cs.contains(ContactKind::Hazard) {
            let k = choose|k: int| 0 <= k < cs.len() && cs[k] == ContactKind::Hazard;
            assert(cs[0] == ContactKind::Pickup);
        }
    }
    reveal_with_fuel(run, 2);
}

/// The number of pickups among the contacts.
pub open spec fn pickup_count(cs: Seq<ContactKind>) -> nat
    decreases cs.len(),
{
    if cs.len() == 0 {
        0
    } else {
        pickup_count(cs.drop_last()) + if cs.last() == ContactKind::Pickup {
            1nat
        } else {
            0nat
        }
    }
}

/// A hazard touched in a step ends the round with the count cleared, whatever the order of
/// the step's contacts; every pickup of the step is still despawned, and wins rise by at
/// most one per pickup.
pub proof fn lemma_hazard_precedence(s: Score, cs: Seq<Contact>)
    requires
        kinds(cs).contains(ContactKind::Hazard),
    ensures
        resolve(s, kinds(cs)).is_won,
        resolve(s, kinds(cs)).collected == 0,
        s.wins <= resolve(s, kinds(cs)).wins <= s.wins + pickup_count(kinds(cs)),
        pickups_of(cs).len() == pickup_count(kinds(cs)),
{
    lemma_wins_bounded(s, kinds(cs));
    lemma_pickups_counted(cs);
}

proof fn lemma_wins_bounded(s: Score, cs: Seq<ContactKind>)
    ensures
        s.wins <= run(s, cs).wins <= s.wins + pickup_count(cs),
    decreases cs.len(),
{
    if cs.len() > 0 {
        lemma_wins_bounded(s, cs.drop_last());
    }
}

proof fn lemma_pickups_counted(cs: Seq<Contact>)
    ensures
        pickups_of(cs).len() == pickup_count(kinds(cs)),
    decreases cs.len(),
{
    if cs.len() > 0 {
        lemma_pickups_counted(cs.drop_last());
        assert(kinds(cs).drop_last() == kinds(cs.drop_last()));
    }
}

/// A pickup and a hazard touched in one step end the round with the count cleared in
/// either order; the pickup scores a win only when it reaches the threshold before the
/// hazard.
pub proof fn lemma_pickup_and_hazard(s: Score)
    requires
        s.collected < PICKUPS_TO_WIN,
    ensures
        resolve(s, seq![ContactKind::Pickup, ContactKind::Hazard]).is_won,
        resolve(s, seq![ContactKind::Pickup, ContactKind::Hazard]).collected == 0,
        resolve(s, seq![ContactKind::Pickup, ContactKind::Hazard]).wins == if s.collected + 1
            == PICKUPS_TO_WIN {
            s.wins + 1
        } else {
            s.wins
        },
        resolve(s, seq![ContactKind::Hazard, ContactKind::Pickup]).is_won,
        resolve(s, seq![ContactKind::Hazard, ContactKind::Pickup]).collected == 0,
        resolve(s, seq![ContactKind::Hazard, ContactKind::Pickup]).wins == s.wins,
{
    let a = seq![ContactKind::Pickup, ContactKind::Hazard];
    let b = seq![ContactKind::Hazard, ContactKind::Pickup];
    assert(a.drop_last() == seq![ContactKind::Pickup]);
    assert(b.drop_last() == seq![ContactKind::Hazard]);
    assert(seq![ContactKind::Pickup].drop_last() == Seq::<ContactKind>::empty());
    assert(seq![ContactKind::Hazard].drop_last() == Seq::<ContactKind>::empty());
    assert(a[1] == ContactKind::Hazard);
    assert(b[0] == ContactKind::Hazard);
    reveal_with_fuel(run, 3);
}

} // verus!
