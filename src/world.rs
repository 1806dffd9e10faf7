use vstd::prelude::*;
use crate::session::GameInfo;

verus! {

/// Edge length of the generated world in cells.
pub const WORLD_SIZE: usize = 64;

/// The lifecycle states of the game.
#[derive(Clone, Copy, Debug, PartialEq, Eq, Structural)]
pub enum GameState {
    Menu,
    NewGame,
    InGame,
    Paused,
    Splash,
}

/// The pause flag shown by the menu.
#[derive(Clone, Copy, Debug)]
pub struct Pause {
    pub paused: bool,
}

/// Detail setting that chooses the world height.
#[derive(Clone, Copy, Debug, PartialEq, Eq, Structural)]
pub enum DisplayQuality {
    Low,
    Medium,
    High,
}

/// What an entity in the scene is.
#[derive(Clone, Copy, Debug, PartialEq, Eq, Structural)]
pub enum EntityKind {
    Cube,
    BlueBall,
    Enemy,
    Wall,
    Ground,
    Ceiling,
    Light,
    Timer,
    Player,
    Other,
}

/// One entity of the scene; `reboot` marks it as belonging to the current round.
#[derive(Clone, Copy, Debug)]
pub struct EntityRecord {
    pub id: u64,
    pub kind: EntityKind,
    pub reboot: bool,
}

/// The entities without the round marker, in order.
pub open spec fn survivors(es: Seq<EntityRecord>) -> Seq<EntityRecord>
    decreases es.len(),
{
    if es.len() == 0 {
        Seq::empty()
    } else {
        let rest = survivors(es.drop_last());
        if es.last().reboot {
            rest
        } else {
            rest.push(es.last())
        }
    }
}

/// The entities that a soft reset keeps: unmarked ones and the avatar.
pub open spec fn kept_on_win(es: Seq<EntityRecord>) -> Seq<EntityRecord>
    decreases es.len(),
{
    if es.len() == 0 {
        Seq::empty()
    } else {
        let rest = kept_on_win(es.drop_last());
        if es.last().reboot && es.last().kind != EntityKind::Player {
            rest
        } else {
            rest.push(es.last())
        }
    }
}

/// The same entities, each marked as belonging to the round.
pub open spec fn marked(es: Seq<EntityRecord>) -> Seq<EntityRecord> {
    es.map_values(|e: EntityRecord| EntityRecord { reboot: true, ..e })
}

/// The scene after entering a new game: old round entities gone, fresh ones marked.
pub open spec fn new_world(es: Seq<EntityRecord>, fresh: Seq<EntityRecord>) -> Seq<EntityRecord> {
    survivors(es) + marked(fresh)
}

/// World height for a detail setting.
pub open spec fn height_of(q: DisplayQuality) -> usize {
    match q {
        DisplayQuality::Low => 8,
        DisplayQuality::Medium => 32,
        DisplayQuality::High => 64,
    }
}

/// The world dimensions `(width, height, depth)` for a detail setting.
pub fn world_dimensions(q: DisplayQuality) -> (r: (usize, usize, usize))
    ensures
        r == (WORLD_SIZE, height_of(q), WORLD_SIZE),
{
    let height: usize = match q {
        DisplayQuality::Low => 8,
        DisplayQuality::Medium => 32,
        DisplayQuality::High => 64,
    };
    (WORLD_SIZE, height, WORLD_SIZE)
}

/// Removes every entity that carries the round marker.
pub fn cleanup(es: &Vec<EntityRecord>) -> (r: Vec<EntityRecord>)
    ensures
        r@ == survivors(es@),
{
    let mut out: Vec<EntityRecord> = Vec::new();
    let mut i: usize = 0;
    while i < es.len()
        invariant
            i <= es@.len(),
            out@ == survivors(es@.take(i as int)),
        decreases es.len() - i,
    {
        assert(es@.take(i + 1).drop_last() == es@.take(i as int));
        if !es[i].reboot {
            out.push(es[i]);
        }
        i = i + 1;
    }
    assert(es@.take(i as int) == es@);
    out
}

/// Marks every entity as belonging to the round.
pub fn mark_round(fresh: &Vec<EntityRecord>) -> (r: Vec<EntityRecord>)
    ensures
        r@ == marked(fresh@),
{
    let mut out: Vec<EntityRecord> = Vec::new();
    let mut i: usize = 0;
    while i < fresh.len()
        invariant
            i <= fresh@.len(),
            out@ == marked(fresh@.take(i as int)),
        decreases fresh.len() - i,
    {
        let e = fresh[i];
        out.push(EntityRecord { id: e.id, kind: e.kind, reboot: true });
        assert(marked(fresh@.take(i + 1)) == marked(fresh@.take(i as int)).push(
            EntityRecord { reboot: true, ..e },
        ));
        i = i + 1;
    }
    assert(fresh@.take(i as int) == fresh@);
    out
}

/// Score bookkeeping on entering a new game: the score clears and no win is pending.
pub fn game_info(info: &mut GameInfo)
    ensures
        *final(info) == (GameInfo { is_won: false, collected: 0, ..*old(info) }),
        final(info).wf(),
{
    info.is_won = false;
    info.collected = 0;
}

/// Entering a new game: removes the previous round's entities, resets the score, adds the
/// fresh round's entities with the round marker, and moves on to play.
pub fn new_game(
    es: &Vec<EntityRecord>,
    info: &mut GameInfo,
    state: &mut GameState,
    fresh: &Vec<EntityRecord>,
) -> (r: Vec<EntityRecord>)
    ensures
        r@ == new_world(es@, fresh@),
        *final(info) == (GameInfo { is_won: false, collected: 0, ..*old(info) }),
        *final(state) == GameState::InGame,
{
    let mut out = cleanup(es);
    game_info(info);
    let mut spawned = mark_round(fresh);
    out.append(&mut spawned);
    *state = GameState::InGame;
    out
}

/// Per-frame win check: reports a pending win and clears it.
pub fn check_win_condition(info: &mut GameInfo) -> (r: bool)
    ensures
        r == old(info).is_won,
        *final(info) == (GameInfo { is_won: false, ..*old(info) }),
{
    let won = info.is_won;
    info.is_won = false;
    won
}

/// Soft reset after a win: keeps the avatar and unmarked entities, drops the rest of the
/// round, and adds the fresh round's entities with the round marker.
pub fn soft_reset(es: &Vec<EntityRecord>, fresh: &Vec<EntityRecord>) -> (r: Vec<EntityRecord>)
    ensures
        r@ == kept_on_win(es@) + marked(fresh@),
{
    let mut out: Vec<EntityRecord> = Vec::new();
    let mut i: usize = 0;
    while i < es.len()
        invariant
            i <= es@.len(),
            out@ == kept_on_win(es@.take(i as int)),
        decreases es.len() - i,
    {
        assert(es@.take(i + 1).drop_last() == es@.take(i as int));
        if !es[i].reboot || es[i].kind == EntityKind::Player {
            out.push(es[i]);
        }
        i = i + 1;
    }
    assert(es@.take(i as int) == es@);
    let mut spawned = mark_round(fresh);
    out.append(&mut spawned);
    out
}

/// One frame of play: on a pending win, clears it and rebuilds the scene in place, keeping
/// the avatar and unmarked entities and adding the fresh round; otherwise leaves all as is.
pub fn win_step(info: &mut GameInfo, es: &Vec<EntityRecord>, fresh: &Vec<EntityRecord>) -> (r:
    Option<Vec<EntityRecord>>)
    ensures
        *final(info) == (GameInfo { is_won: false, ..*old(info) }),
        old(info).is_won <==> r is Some,
        r matches Some(v) ==> v@ == kept_on_win(es@) + marked(fresh@),
{
    if check_win_condition(info) {
        Some(soft_reset(es, fresh))
    } else {
        None
    }
}

/// Escape during play opens the menu and pauses.
pub fn menu_input_system(escape_pressed: bool, state: &mut GameState, pause: &mut Pause)
    ensures
        escape_pressed ==> *final(state) == GameState::Menu && final(pause).paused,
        !escape_pressed ==> *final(state) == *old(state) && final(pause).paused == old(pause).paused,
{
    if escape_pressed {
        *state = GameState::Menu;
        pause.paused = true;
    }
}

proof fn lemma_survivors_append(a: Seq<EntityRecord>, b: Seq<EntityRecord>)
    ensures
        survivors(a + b) == survivors(a) + survivors(b),
    decreases b.len(),
{
    if b.len() == 0 {
        assert(a + b == a);
    } else {
        lemma_survivors_append(a, b.drop_last());
        assert((a + b).drop_last() == a + b.drop_last());
    }
}

proof fn lemma_survivors_of_marked(fresh: Seq<EntityRecord>)
    ensures
        survivors(marked(fresh)) == Seq::<EntityRecord>::empty(),
    decreases fresh.len(),
{
    if fresh.len() > 0 {
        assert(marked(fresh).drop_last() == marked(fresh.drop_last()));
        lemma_survivors_of_marked(fresh.drop_last());
    }
}

proof fn lemma_survivors_idempotent(es: Seq<EntityRecord>)
    ensures
        survivors(survivors(es)) == survivors(es),
    decreases es.len(),
{
    if es.len() > 0 {
        lemma_survivors_idempotent(es.drop_last());
        let rest = survivors(es.drop_last());
        if !es.last().reboot {
            assert(rest.push(es.last()).drop_last() == rest);
        }
    }
}

/// Entering a new game twice in a row leaves exactly the second round's entities beside
/// the unmarked ones: nothing of either earlier round survives and nothing is doubled.
pub proof fn lemma_new_game_twice(
    es: Seq<EntityRecord>,
    first: Seq<EntityRecord>,
    second: Seq<EntityRecord>,
)
    ensures
        new_world(new_world(es, first), second) == new_world(es, second),
{
    lemma_survivors_append(survivors(es), marked(first));
    lemma_survivors_of_marked(first);
    lemma_survivors_idempotent(es);
    assert(survivors(es) + Seq::<EntityRecord>::empty() == survivors(es));
}

} // verus!
