//! Season results of football players, and the figures drawn from them.

use vstd::prelude::*;

verus! {

/// A football league, named by its country.
#[derive(Clone, Debug)]
pub struct FootballLeague {
    pub country: String,
}

#[derive(Clone, Debug)]
pub struct FootballPlayer {
    pub id: i32,
    pub firstname: String,
    pub lastname: String,
}

#[derive(Clone, Copy, Debug, PartialEq, Eq, Structural)]
pub struct PlayerStatsGames {
    pub minutes: Option<i32>,
    pub appearences: Option<i32>,
}

#[derive(Clone, Copy, Debug, PartialEq, Eq, Structural)]
pub struct PlayerStatsCards {
    pub yellow: Option<i32>,
    pub yellowred: Option<i32>,
    pub red: Option<i32>,
}

#[derive(Clone, Copy, Debug, PartialEq, Eq, Structural)]
pub struct PlayerStatsDuels {
    pub total: Option<i32>,
    pub won: Option<i32>,
}

#[derive(Clone, Copy, Debug, PartialEq, Eq, Structural)]
pub struct PlayerStatsPasses {
    pub total: Option<i32>,
    pub accuracy: Option<i32>,
}

#[derive(Clone, Copy, Debug, PartialEq, Eq, Structural)]
pub struct PlayerStatsGoals {
    pub total: Option<i32>,
    pub conceded: Option<i32>,
}

/// What one competition records of a player in a season. A part that the
/// source left out is missing.
#[derive(Clone, Copy, Debug, PartialEq, Eq, Structural)]
pub struct PlayerStats {
    pub games: Option<PlayerStatsGames>,
    pub goals: Option<PlayerStatsGoals>,
    pub cards: Option<PlayerStatsCards>,
    pub duels: Option<PlayerStatsDuels>,
    pub passes: Option<PlayerStatsPasses>,
}

#[derive(Clone, Debug)]
pub struct SeasonPlayerResults {
    pub player: FootballPlayer,
    pub statistics: Vec<PlayerStats>,
}

#[derive(Clone, Debug)]
pub struct FootballSeasonResults {
    pub season: i32,
    pub player_results: Vec<SeasonPlayerResults>,
}

/// The figures of one player in one season.
#[derive(Clone, Copy, Debug, PartialEq, Eq, Structural)]
pub struct PlayerTotals {
    pub goals: i32,
    pub minutes: i32,
    pub passes: i32,
    /// Cards by weight: a red card counts three, a second yellow two, a
    /// yellow card one.
    pub cards_weighted: i64,
}

/// One player in one season. The figures are missing where the season
/// holds no statistics of the player.
#[derive(Clone, Copy, Debug, PartialEq, Eq, Structural)]
pub struct PlayerSeasonRow {
    pub season: i32,
    pub player_id: i32,
    pub totals: Option<PlayerTotals>,
}

/// A count that was not recorded is zero.
pub open spec fn count_or_zero(count: Option<i32>) -> i32 {
    match count {
        Some(n) => n,
        None => 0,
    }
}

/// The weight of a player's cards.
pub open spec fn weigh_cards(cards: PlayerStatsCards) -> int {
    count_or_zero(cards.red) * 3 + count_or_zero(cards.yellowred) * 2 + count_or_zero(cards.yellow)
}

/// The figures that statistics give; a part that is missing counts zero.
pub open spec fn totals_of(stats: PlayerStats) -> PlayerTotals {
    PlayerTotals {
        goals: match stats.goals {
            Some(goals) => count_or_zero(goals.total),
            None => 0,
        },
        minutes: match stats.games {
            Some(games) => count_or_zero(games.minutes),
            None => 0,
        },
        passes: match stats.passes {
            Some(passes) => count_or_zero(passes.total),
            None => 0,
        },
        cards_weighted: match stats.cards {
            Some(cards) => weigh_cards(cards) as i64,
            None => 0,
        },
    }
}

/// The row of a player in a season: the figures come from the first of
/// the player's statistics.
pub open spec fn row_of(season: i32, results: SeasonPlayerResults) -> PlayerSeasonRow {
    PlayerSeasonRow {
        season,
        player_id: results.player.id,
        totals: if results.statistics@.len() > 0 {
            Some(totals_of(results.statistics@[0]))
        } else {
            None
        },
    }
}

/// The rows of one season, player after player.
pub open spec fn season_rows(season: FootballSeasonResults) -> Seq<PlayerSeasonRow> {
    Seq::new(
        season.player_results@.len(),
        |i: int| row_of(season.season, season.player_results@[i]),
    )
}

/// The rows of all seasons, season after season.
pub open spec fn all_rows(seasons: Seq<FootballSeasonResults>) -> Seq<PlayerSeasonRow>
    decreases seasons.len(),
{
    if seasons.len() == 0 {
        Seq::empty()
    } else {
        all_rows(seasons.drop_last()) + season_rows(seasons.last())
    }
}

fn or_zero(count: Option<i32>) -> (n: i32)
    ensures
        n == count_or_zero(count),
{
    match count {
        Some(n) => n,
        None => 0,
    }
}

/// Weighs a player's cards.
pub fn cards_weighted(cards: &PlayerStatsCards) -> (weight: i64)
    ensures
        weight == weigh_cards(*cards),
{
    or_zero(cards.red) as i64 * 3 + or_zero(cards.yellowred) as i64 * 2 + or_zero(cards.yellow) as i64
}

/// Draws the figures out of a player's statistics.
pub fn player_totals(stats: &PlayerStats) -> (totals: PlayerTotals)
    ensures
        totals == totals_of(*stats),
{
    PlayerTotals {
        goals: match &stats.goals {
            Some(goals) => or_zero(goals.total),
            None => 0,
        },
        minutes: match &stats.games {
            Some(games) => or_zero(games.minutes),
            None => 0,
        },
        passes: match &stats.passes {
            Some(passes) => or_zero(passes.total),
            None => 0,
        },
        cards_weighted: match &stats.cards {
            Some(cards) => cards_weighted(cards),
            None => 0,
        },
    }
}

/// One row for every player of every season, in the order of the seasons
/// and, within a season, of its players.
pub fn player_rows(season_results: &Vec<FootballSeasonResults>) -> (rows: Vec<PlayerSeasonRow>)
    ensures
        rows@ == all_rows(season_results@),
{
    let mut rows: Vec<PlayerSeasonRow> = Vec::new();
    let mut i: usize = 0;
    proof {
        assert(season_results@.take(0) =~= Seq::empty());
    }
    while i < season_results.len()
        invariant
            i <= season_results.len(),
            rows@ == all_rows(season_results@.take(i as int)),
        decreases season_results.len() - i,
    {
        let season = &season_results[i];
        let ghost before = rows@;
        let mut j: usize = 0;
        while j < season.player_results.len()
            invariant
                j <= season.player_results.len(),
                rows.len() == before.len() + j,
                forall|k: int| 0 <= k < before.len() ==> rows[k] == before[k],
                forall|k: int|
                    0 <= k < j ==> rows[before.len() + k] == row_of(
                        season.season,
                        season.player_results@[k],
                    ),
            decreases season.player_results.len() - j,
        {
            let results = &season.player_results[j];
            let totals = if results.statistics.len() > 0 {
                Some(player_totals(&results.statistics[0]))
            } else {
                None
            };
            rows.push(PlayerSeasonRow { season: season.season, player_id: results.player.id, totals });
            j = j + 1;
        }
        proof {
            let next = season_results@.take(i + 1);
            assert(next.drop_last() =~= season_results@.take(i as int));
            assert(next.last() == *season);
            assert(rows@ =~= before + season_rows(*season));
        }
        i = i + 1;
    }
    proof {
        assert(season_results@.take(season_results@.len() as int) =~= season_results@);
    }
    rows
}

} // verus!
