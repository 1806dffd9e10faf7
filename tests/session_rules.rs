use voxel_arcade::hud::{infotext_system, GamePlugin, SoundPlugin, TextPlugin};
use voxel_arcade::session::{collision_system, Contact, ContactKind, GameInfo, Jump, SoundCue};
use voxel_arcade::world::{
    check_win_condition, cleanup, menu_input_system, new_game, soft_reset, win_step, world_dimensions,
    DisplayQuality, EntityKind, EntityRecord, GameState, Pause,
};

fn info(collected: u64, wins: u64) -> GameInfo {
    GameInfo { is_won: false, wins, collected }
}

fn jump() -> Jump {
    Jump { jumping: false, avalible: false }
}

fn contact(other: u64, kind: ContactKind) -> Contact {
    Contact { other, kind }
}

#[test]
fn fifth_pickup_wins_once() {
    let mut g = info(4, 2);
    let mut j = jump();
    let out = collision_system(&mut g, &mut j, &vec![contact(9, ContactKind::Pickup)]);
    assert_eq!(g.collected, 0);
    assert!(g.is_won);
    assert_eq!(g.wins, 3);
    assert_eq!(out.sounds, vec![SoundCue::Score]);
    assert_eq!(out.despawned, vec![9]);
}

#[test]
fn pickup_below_threshold_only_scores() {
    let mut g = info(1, 0);
    let mut j = jump();
    collision_system(&mut g, &mut j, &vec![contact(1, ContactKind::Pickup)]);
    assert_eq!(g.collected, 2);
    assert!(!g.is_won);
    assert_eq!(g.wins, 0);
}

#[test]
fn pickup_then_hazard_ends_round_cleared() {
    let mut g = info(2, 1);
    let mut j = jump();
    let out = collision_system(
        &mut g,
        &mut j,
        &vec![contact(4, ContactKind::Pickup), contact(5, ContactKind::Hazard)],
    );
    assert!(g.is_won);
    assert_eq!(g.collected, 0);
    assert_eq!(g.wins, 1);
    assert_eq!(out.sounds, vec![SoundCue::Score, SoundCue::Death]);
    assert_eq!(out.despawned, vec![4]);
}

#[test]
fn hazard_then_pickup_still_ends_round() {
    let mut g = info(2, 1);
    let mut j = jump();
    let out = collision_system(
        &mut g,
        &mut j,
        &vec![contact(5, ContactKind::Hazard), contact(4, ContactKind::Pickup)],
    );
    assert!(g.is_won);
    assert_eq!(g.collected, 0);
    assert_eq!(g.wins, 1);
    assert_eq!(out.sounds, vec![SoundCue::Death, SoundCue::Score]);
    assert_eq!(out.despawned, vec![4]);
}

#[test]
fn hazard_before_threshold_pickup_still_counts_the_win() {
    let mut g = info(4, 0);
    let mut j = jump();
    collision_system(
        &mut g,
        &mut j,
        &vec![contact(5, ContactKind::Hazard), contact(1, ContactKind::Pickup), contact(2, ContactKind::Pickup)],
    );
    assert!(g.is_won);
    assert_eq!(g.collected, 0);
    assert_eq!(g.wins, 0);
    let mut h = info(4, 0);
    collision_system(&mut h, &mut j, &vec![contact(1, ContactKind::Pickup), contact(5, ContactKind::Hazard)]);
    assert!(h.is_won);
    assert_eq!(h.collected, 0);
    assert_eq!(h.wins, 1);
}

#[test]
fn two_hazards_act_as_one() {
    let mut g = info(3, 0);
    let mut j = jump();
    collision_system(&mut g, &mut j, &vec![contact(1, ContactKind::Hazard), contact(2, ContactKind::Hazard)]);
    assert!(g.is_won);
    assert_eq!(g.collected, 0);
    assert_eq!(g.wins, 0);
}

#[test]
fn ground_contact_allows_jump_this_step_only() {
    let mut g = info(0, 0);
    let mut j = jump();
    collision_system(&mut g, &mut j, &vec![contact(1, ContactKind::Ground), contact(2, ContactKind::Other)]);
    assert!(j.avalible);
    collision_system(&mut g, &mut j, &vec![contact(2, ContactKind::Other)]);
    assert!(!j.avalible);
    collision_system(&mut g, &mut j, &Vec::new());
    assert!(!j.avalible);
    assert!(!g.is_won);
    assert_eq!(g.collected, 0);
}

fn rec(id: u64, kind: EntityKind, reboot: bool) -> EntityRecord {
    EntityRecord { id, kind, reboot }
}

fn ids(es: &[EntityRecord]) -> Vec<u64> {
    es.iter().map(|e| e.id).collect()
}

#[test]
fn new_game_twice_leaves_one_world() {
    let start = vec![rec(1, EntityKind::Player, false), rec(2, EntityKind::Cube, true), rec(3, EntityKind::Other, false)];
    let mut g = GameInfo { is_won: true, wins: 4, collected: 3 };
    let mut state = GameState::NewGame;
    let first = vec![rec(10, EntityKind::Cube, false), rec(11, EntityKind::BlueBall, false)];
    let second = vec![rec(20, EntityKind::Cube, false), rec(21, EntityKind::Enemy, false)];
    let once = new_game(&start, &mut g, &mut state, &first);
    assert_eq!(ids(&once), vec![1, 3, 10, 11]);
    let twice = new_game(&once, &mut g, &mut state, &second);
    assert_eq!(ids(&twice), vec![1, 3, 20, 21]);
    assert!(twice[2].reboot && twice[3].reboot);
    assert_eq!(state, GameState::InGame);
    assert!(!g.is_won);
    assert_eq!(g.collected, 0);
    assert_eq!(g.wins, 4);
}

#[test]
fn cleanup_drops_marked_entities() {
    let es = vec![rec(1, EntityKind::Wall, true), rec(2, EntityKind::Other, false), rec(3, EntityKind::Light, true)];
    assert_eq!(ids(&cleanup(&es)), vec![2]);
}

#[test]
fn soft_reset_keeps_the_avatar() {
    let es = vec![rec(1, EntityKind::Player, true), rec(2, EntityKind::Cube, true), rec(3, EntityKind::Other, false)];
    let fresh = vec![rec(7, EntityKind::Timer, false)];
    let r = soft_reset(&es, &fresh);
    assert_eq!(ids(&r), vec![1, 3, 7]);
    assert!(r[2].reboot);
}

#[test]
fn win_check_clears_the_flag() {
    let mut g = GameInfo { is_won: true, wins: 2, collected: 0 };
    assert!(check_win_condition(&mut g));
    assert!(!g.is_won);
    assert_eq!(g.wins, 2);
    assert!(!check_win_condition(&mut g));
}

#[test]
fn escape_opens_menu() {
    let mut s = GameState::InGame;
    let mut p = Pause { paused: false };
    menu_input_system(false, &mut s, &mut p);
    assert_eq!(s, GameState::InGame);
    assert!(!p.paused);
    menu_input_system(true, &mut s, &mut p);
    assert_eq!(s, GameState::Menu);
    assert!(p.paused);
}

#[test]
fn detail_sets_height() {
    assert_eq!(world_dimensions(DisplayQuality::Low), (64, 8, 64));
    assert_eq!(world_dimensions(DisplayQuality::Medium), (64, 32, 64));
    assert_eq!(world_dimensions(DisplayQuality::High), (64, 64, 64));
}

#[test]
fn starting_score_is_zero() {
    let g = GamePlugin::initial_info();
    assert!(!g.is_won);
    assert_eq!(g.wins, 0);
    assert_eq!(g.collected, 0);
}

#[test]
fn cues_name_their_assets() {
    assert_eq!(SoundPlugin::cue_asset(SoundCue::Hit), "sounds/hit.ogg");
    assert_eq!(SoundPlugin::cue_asset(SoundCue::Score), "sounds/score.ogg");
    assert_eq!(SoundPlugin::cue_asset(SoundCue::Death), "sounds/die.ogg");
}

#[test]
fn overlay_texts() {
    let (info, cross) = infotext_system();
    assert_eq!(info, " fps,  ms/frame\nElapsed Time: \n Wins");
    assert_eq!(cross, "+");
}

#[test]
fn win_step_rebuilds_only_after_a_win() {
    let es = vec![rec(1, EntityKind::Player, true), rec(2, EntityKind::Enemy, true), rec(3, EntityKind::Other, false)];
    let fresh = vec![rec(8, EntityKind::Cube, false)];
    let mut g = GameInfo { is_won: false, wins: 1, collected: 2 };
    assert!(win_step(&mut g, &es, &fresh).is_none());
    assert_eq!(g.collected, 2);
    g.is_won = true;
    let r = win_step(&mut g, &es, &fresh).unwrap();
    assert_eq!(ids(&r), vec![1, 3, 8]);
    assert!(!g.is_won);
    assert_eq!(g.wins, 1);
    assert_eq!(g.collected, 2);
}

#[test]
fn overlay_font() {
    assert_eq!(TextPlugin::font_asset(), "fonts/FiraSans-Bold.ttf");
}
