use riverrun::betting::{BettingRound, BettingState, Pot};
use riverrun::chips::Chips;
use riverrun::player::PlayerId;
#[test]
fn test_pot_basic() {
    let mut pot = Pot::new();
    assert!(pot.amount().is_zero());

    pot.add(Chips::new(50));
    pot.add(Chips::new(50));
    assert_eq!(pot.amount(), Chips::new(100));
}

#[test]
fn test_pot_eligibility() {
    let mut pot = Pot::new();
    let p0 = PlayerId::new(0);
    let p1 = PlayerId::new(1);

    pot.add_eligible_player(p0);
    pot.add_eligible_player(p1);
    assert!(pot.is_eligible(p0));
    assert!(pot.is_eligible(p1));
    assert_eq!(pot.eligible_count(), 2);

    pot.remove_eligible_player(p0);
    assert!(!pot.is_eligible(p0));
    assert_eq!(pot.eligible_count(), 1);
}

#[test]
fn test_betting_round() {
    let mut round = BettingRound::new(6, Chips::new(10));
    let p0 = PlayerId::new(0);

    assert_eq!(round.current_bet(), Chips::new(10));
    assert_eq!(round.amount_to_call(p0), Chips::new(10));

    round.record_bet(p0, Chips::new(10));
    assert_eq!(round.player_contribution(p0), Chips::new(10));
    assert!(round.has_acted(p0));
}

#[test]
fn test_betting_round_raise() {
    let mut round = BettingRound::new(3, Chips::new(10));
    let p0 = PlayerId::new(0);
    let p1 = PlayerId::new(1);

    round.record_bet(p0, Chips::new(10)); // call
    round.record_bet(p1, Chips::new(30)); // raise to 30

    assert_eq!(round.current_bet(), Chips::new(30));
    assert_eq!(round.raise_count(), 1);
    assert!(!round.has_acted(p0)); // p0 needs to act again
}

#[test]
fn test_betting_state() {
    let stacks = vec![Chips::new(1000), Chips::new(1000), Chips::new(1000)];
    let state = BettingState::new(stacks);

    assert_eq!(state.num_players(), 3);
    assert_eq!(state.stack(PlayerId::new(0)), Chips::new(1000));
}

#[test]
fn test_betting_state_blinds() {
    let stacks = vec![Chips::new(1000), Chips::new(1000), Chips::new(1000)];
    let mut state = BettingState::new(stacks);
    state.start_round(Chips::new(10), true);

    let sb = PlayerId::new(0);
    let bb = PlayerId::new(1);

    state.post_blind(sb, Chips::new(5));
    state.post_blind(bb, Chips::new(10));

    assert_eq!(state.stack(sb), Chips::new(995));
    assert_eq!(state.stack(bb), Chips::new(990));
    assert_eq!(state.total_pot(), Chips::new(15));
}

#[test]
fn test_betting_state_fold() {
    let stacks = vec![Chips::new(1000), Chips::new(1000)];
    let mut state = BettingState::new(stacks);

    let p0 = PlayerId::new(0);
    state.fold(p0);

    assert!(state.has_folded(p0));
    assert!(!state.is_active(p0));
    assert_eq!(state.players_in_hand(), 1);
}

#[test]
fn test_betting_state_all_in() {
    let stacks = vec![Chips::new(100), Chips::new(1000)];
    let mut state = BettingState::new(stacks);
    state.start_round(Chips::new(10), true);

    let p0 = PlayerId::new(0);
    state.bet_or_raise(p0, Chips::new(100));

    assert!(state.is_all_in(p0));
    assert_eq!(state.stack(p0), Chips::zero());
}
