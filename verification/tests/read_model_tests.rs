use riverrun::read_model::{HandSummary, PlayerStats, ReadModelError};

/// The share of hands won in percent; 0 for a player who has not played.
fn win_rate(stats: &PlayerStats) -> f64 {
    let (won, played) = stats.win_fraction();
    if played == 0 {
        0.0
    } else {
        (won as f64 / played as f64) * 100.0
    }
}


#[test]
fn test_hand_summary_duration() {
    let summary = HandSummary {
        hand_id: "hand-1".to_string(),
        game_id: "game-1".to_string(),
        started_at: 1000,
        ended_at: 3500,
        num_players: 4,
        player_ids: vec![],
        winner_ids: vec![],
        is_tie: false,
        winning_hand_rank: None,
    };
    assert_eq!(summary.duration_ms(), 2500);
}

#[test]
fn test_player_stats_win_rate() {
    let stats = PlayerStats {
        player_id: "player-1".to_string(),
        hands_played: 100,
        hands_won: 25,
        last_played_at: Some(1000),
    };
    assert!((win_rate(&stats) - 25.0).abs() < f64::EPSILON);
}

#[test]
fn test_player_stats_win_rate_zero_hands() {
    let stats = PlayerStats::default();
    assert!((win_rate(&stats) - 0.0).abs() < f64::EPSILON);
}

#[test]
fn test_read_model_error_display() {
    let err = ReadModelError::NotFound("hand-123".to_string());
    assert_eq!(err.to_string(), "not found: hand-123");

    let err = ReadModelError::StorageError("connection failed".to_string());
    assert_eq!(err.to_string(), "storage error: connection failed");

    let err = ReadModelError::InvalidQuery("limit must be > 0".to_string());
    assert_eq!(err.to_string(), "invalid query: limit must be > 0");
}
