use vstd::prelude::*;
use crate::game::{lemma_revealed_twice, lemma_revealed_wf, Game, GameView};

verus! {

/// Where a session stands between two redraws of the table.
#[derive(Copy, Clone, Debug, PartialEq, Eq, Structural)]
pub enum Phase {
    /// The hands were dealt and nothing was shown yet.
    Setup,
    /// The table was shown at least once; each further turn shows it with
    /// every card face up.
    RoundActive,
}

/// What the caller is to do after a turn: clear the terminal, write the
/// lines, wait until the user has pressed enter, and then ask for the next
/// turn in the phase given here.
pub struct Turn {
    pub next: Phase,
    pub screen: Vec<String>,
}

/// The game after a turn in the given phase. The first turn leaves the cards
/// as they were dealt; every later turn leaves them face up, with the totals
/// up to date.
pub open spec fn after_turn(g: GameView, phase: Phase) -> GameView {
    match phase {
        Phase::Setup => g,
        Phase::RoundActive => g.revealed(),
    }
}

/// The phase that follows a phase. No phase ends the session: once the table
/// has been shown, the round goes on for as long as the caller asks.
pub open spec fn next_phase(phase: Phase) -> Phase {
    Phase::RoundActive
}

/// What is written for a game: the table, and below it the request to go on.
pub open spec fn screen_lines(g: GameView) -> Seq<Seq<char>> {
    g.lines() + seq!["Press enter to continue"@]
}

/// One turn of the session. In the first phase the table is shown as it was
/// dealt, all cards face down. In every later turn all cards are turned face
/// up, the totals are brought up to date, and the table is shown again.
pub fn advance(game: &mut Game, phase: Phase) -> (turn: Turn)
    requires
        old(game).wf(),
    ensures
        final(game)@ == after_turn(old(game)@, phase),
        final(game).wf(),
        turn.next == next_phase(phase),
        turn.screen@.map_values(|s: String| s@) == screen_lines(final(game)@),
{
    match phase {
        Phase::Setup => {},
        Phase::RoundActive => {
            game.reveal_all();
        },
    }
    let mut screen = game.show();
    let ghost table = screen@.map_values(|s: String| s@);
    screen.push(String::from_str("Press enter to continue"));
    assert(screen@.map_values(|s: String| s@) =~= table + seq!["Press enter to continue"@]);
    Turn { next: Phase::RoundActive, screen }
}

/// Once the cards are face up they stay so: a later turn changes nothing,
/// and so shows the same table again.
pub proof fn lemma_round_is_stable(g: GameView)
    requires
        g.wf(),
    ensures
        after_turn(after_turn(g, Phase::RoundActive), Phase::RoundActive) == after_turn(
            g,
            Phase::RoundActive,
        ),
        after_turn(g, Phase::RoundActive).wf(),
{
    lemma_revealed_twice(g);
    lemma_revealed_wf(g);
}

} // verus!
