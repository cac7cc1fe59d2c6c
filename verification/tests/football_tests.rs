use forecast_bands::football::{
    cards_weighted, player_rows, player_totals, FootballPlayer, FootballSeasonResults,
    PlayerSeasonRow, PlayerStats, PlayerStatsCards, PlayerStatsGames, PlayerStatsGoals,
    PlayerStatsPasses, PlayerTotals, SeasonPlayerResults,
};

fn player(id: i32) -> FootballPlayer {
    FootballPlayer { id, firstname: "L.".to_string(), lastname: "M.".to_string() }
}

fn no_stats() -> PlayerStats {
    PlayerStats { games: None, goals: None, cards: None, duels: None, passes: None }
}

fn full_stats() -> PlayerStats {
    PlayerStats {
        games: Some(PlayerStatsGames { minutes: Some(2700), appearences: Some(30) }),
        goals: Some(PlayerStatsGoals { total: Some(25), conceded: None }),
        cards: Some(PlayerStatsCards { yellow: Some(4), yellowred: Some(1), red: Some(2) }),
        duels: None,
        passes: Some(PlayerStatsPasses { total: Some(1500), accuracy: Some(80) }),
    }
}

#[test]
fn cards_are_weighed() {
    let cards = PlayerStatsCards { yellow: Some(4), yellowred: Some(1), red: Some(2) };
    assert_eq!(cards_weighted(&cards), 12);
    let none = PlayerStatsCards { yellow: None, yellowred: None, red: None };
    assert_eq!(cards_weighted(&none), 0);
    let many = PlayerStatsCards { yellow: Some(i32::MAX), yellowred: Some(i32::MAX), red: Some(i32::MAX) };
    assert_eq!(cards_weighted(&many), 6 * i32::MAX as i64);
}

#[test]
fn totals_count_missing_parts_as_zero() {
    assert_eq!(
        player_totals(&full_stats()),
        PlayerTotals { goals: 25, minutes: 2700, passes: 1500, cards_weighted: 12 }
    );
    assert_eq!(
        player_totals(&no_stats()),
        PlayerTotals { goals: 0, minutes: 0, passes: 0, cards_weighted: 0 }
    );
    let partial = PlayerStats {
        games: Some(PlayerStatsGames { minutes: None, appearences: Some(3) }),
        goals: Some(PlayerStatsGoals { total: None, conceded: Some(2) }),
        ..no_stats()
    };
    assert_eq!(
        player_totals(&partial),
        PlayerTotals { goals: 0, minutes: 0, passes: 0, cards_weighted: 0 }
    );
}

#[test]
fn one_row_for_every_player_of_every_season() {
    let seasons = vec![
        FootballSeasonResults {
            season: 2019,
            player_results: vec![
                SeasonPlayerResults { player: player(154), statistics: vec![full_stats(), no_stats()] },
                SeasonPlayerResults { player: player(874), statistics: Vec::new() },
            ],
        },
        FootballSeasonResults { season: 2020, player_results: Vec::new() },
        FootballSeasonResults {
            season: 2021,
            player_results: vec![SeasonPlayerResults { player: player(154), statistics: vec![no_stats(), full_stats()] }],
        },
    ];
    let rows = player_rows(&seasons);
    assert_eq!(
        rows,
        vec![
            PlayerSeasonRow {
                season: 2019,
                player_id: 154,
                totals: Some(PlayerTotals { goals: 25, minutes: 2700, passes: 1500, cards_weighted: 12 }),
            },
            PlayerSeasonRow { season: 2019, player_id: 874, totals: None },
            PlayerSeasonRow {
                season: 2021,
                player_id: 154,
                totals: Some(PlayerTotals { goals: 0, minutes: 0, passes: 0, cards_weighted: 0 }),
            },
        ]
    );
    assert_eq!(player_rows(&Vec::new()), Vec::new());
}
