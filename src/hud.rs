use vstd::prelude::*;
use crate::session::{GameInfo, SoundCue};

verus! {

/// Registers the game's systems and the initial score.
pub struct GamePlugin;

impl GamePlugin {
    /// The score the game starts from: no win pending, no wins, nothing collected.
    pub fn initial_info() -> (r: GameInfo)
        ensures
            r == (GameInfo { is_won: false, wins: 0, collected: 0 }),
            r.wf(),
    {
        GameInfo { is_won: false, wins: 0, collected: 0 }
    }
}

/// Plays the game's sound cues.
pub struct SoundPlugin;

impl SoundPlugin {
    /// The asset that a cue plays.
    pub fn cue_asset(cue: SoundCue) -> (r: &'static str)
        ensures
            r@ == cue_asset_of(cue)@,
    {
        match cue {
            SoundCue::Hit => "sounds/hit.ogg",
            SoundCue::Score => "sounds/score.ogg",
            SoundCue::Death => "sounds/die.ogg",
        }
    }
}

pub open spec fn cue_asset_of(cue: SoundCue) -> &'static str {
    match cue {
        SoundCue::Hit => "sounds/hit.ogg",
        SoundCue::Score => "sounds/score.ogg",
        SoundCue::Death => "sounds/die.ogg",
    }
}

/// Shows the score overlay and the crosshair.
pub struct TextPlugin;

impl TextPlugin {
    /// The font that both overlay texts are drawn in.
    pub fn font_asset() -> (r: &'static str)
        ensures
            r@ == "fonts/FiraSans-Bold.ttf"@,
    {
        "fonts/FiraSans-Bold.ttf"
    }
}

/// The two overlay texts put up when play starts: the info panel, before the first frame
/// fills it in, and the crosshair.
pub fn infotext_system() -> (r: (String, String))
    ensures
        r.0@ == " fps,  ms/frame\nElapsed Time: \n Wins"@,
        r.1@ == "+"@,
{
    (" fps,  ms/frame\nElapsed Time: \n Wins".to_owned(), "+".to_owned())
}

} // verus!
