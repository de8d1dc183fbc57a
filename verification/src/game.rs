//! The state of the game's user interface.
use vstd::prelude::*;

verus! {

/// State kept while in game.
#[derive(Default)]
pub struct InGameState {}

/// Which view of the game is shown.
#[derive(Copy, Clone, Debug, PartialEq, Eq, Hash, Structural)]
pub enum GameViewState {
    System,
    Planet,
    Ship,
    Galaxy,
}

impl Default for GameViewState {
    /// The game starts in the system view.
    fn default() -> (r: GameViewState)
        ensures
            r == GameViewState::System,
    {
        GameViewState::System
    }
}

/// The positions of the companies that are on `planet`, in order, given the
/// planet (an entity, as its bits) each company is on.
pub fn select_planet_companies(planet: u64, company_planets: &Vec<u64>) -> (r: Vec<usize>)
    ensures
        forall|i: int| 0 <= i < r@.len() ==> #[trigger] r@[i] < company_planets@.len()
            && company_planets@[r@[i] as int] == planet,
        forall|i: int, j: int| 0 <= i < j < r@.len() ==> #[trigger] r@[i] < #[trigger] r@[j],
        forall|k: int|
            0 <= k < company_planets@.len() && #[trigger] company_planets@[k] == planet ==> exists|i: int|
                0 <= i < r@.len() && r@[i] == k,
{
    let mut r: Vec<usize> = Vec::new();
    let mut k: usize = 0;
    while k < company_planets.len()
        invariant
            k <= company_planets@.len(),
            forall|i: int| 0 <= i < r@.len() ==> #[trigger] r@[i] < k && company_planets@[r@[i] as int] == planet,
            forall|i: int, j: int| 0 <= i < j < r@.len() ==> #[trigger] r@[i] < #[trigger] r@[j],
            forall|m: int|
                0 <= m < k && #[trigger] company_planets@[m] == planet ==> exists|i: int|
                    0 <= i < r@.len() && r@[i] == m,
        decreases company_planets.len() - k,
    {
        let ghost before = r@;
        if company_planets[k] == planet {
            r.push(k);
        }
        assert forall|m: int|
            0 <= m < k + 1 && #[trigger] company_planets@[m] == planet implies exists|i: int|
                0 <= i < r@.len() && r@[i] == m by {
            if m < k {
                let i = choose|i: int| 0 <= i < before.len() && before[i] == m;
                assert(r@[i] == before[i]);
            } else {
                assert(r@[r@.len() - 1] == m);
            }
        }
        k = k + 1;
    }
    r
}

} // verus!
