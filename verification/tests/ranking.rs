use skillratings::glicko2::{glicko2, Glicko2Config, Glicko2Rating};
use skillratings::Outcomes;
use startgg_interactions::confidence::Confidence;
use startgg_interactions::database::{rate_challonge_set, DatabaseUserWithElo};
use startgg_interactions::elo::{Elo, RatingRules};
use startgg_interactions::startgg::{TournamentSet, TournamentSetStanding};

fn set(a: i64, a_won: bool, a_score: i64, b: i64, b_score: i64) -> TournamentSet {
    TournamentSet {
        standings: [
            TournamentSetStanding { id: a, has_won: a_won, score: a_score },
            TournamentSetStanding { id: b, has_won: !a_won, score: b_score },
        ],
    }
}

#[test]
fn confidence_starts_at_zero() {
    assert_eq!(Confidence::new().0, 0);
    assert_eq!(Confidence::from(37).0, 37);
}

#[test]
fn confidence_update_counts_up_to_cap() {
    assert_eq!(Confidence::new().update().0, 1);
    assert_eq!(Confidence::from(99).update().0, 100);
    assert_eq!(Confidence::from(100).update().0, 100);
    // Values above the cap (only from a database) keep counting.
    assert_eq!(Confidence::from(150).update().0, 151);
}

#[test]
fn confidence_after_many_sets_is_capped_sum() {
    for (start, n) in [(0i64, 3usize), (95, 10), (100, 4), (60, 40)] {
        let mut c = Confidence::from(start);
        for _ in 0..n {
            c = c.update();
        }
        assert_eq!(c.0, std::cmp::min(start + n as i64, 100));
    }
}

#[test]
fn elo_new_is_empty() {
    let elo = Elo::new();
    assert!(elo.get_users().is_empty());
}

#[test]
fn elo_rates_each_game_of_difference() {
    let mut elo = Elo::new();
    elo.update_player_elo(&set(1, true, 3, 2, 1));
    let users = elo.get_users();
    assert_eq!(users.len(), 2);
    let fresh = Glicko2Rating::new();
    let config = Glicko2Config::new();
    let (a1, b1) = glicko2(&fresh, &fresh, &Outcomes::WIN, &config);
    let (a2, b2) = glicko2(&a1, &b1, &Outcomes::WIN, &config);
    assert_eq!(users[&1].1, a2);
    assert_eq!(users[&2].1, b2);
    assert!(users[&1].1.rating > 1500.0);
    assert!(users[&2].1.rating < 1500.0);
    // A set counts once toward confidence, however many games.
    assert_eq!(users[&1].0 .0, 1);
    assert_eq!(users[&2].0 .0, 1);
}

#[test]
fn elo_loss_for_first_player() {
    let mut elo = Elo::new();
    elo.update_player_elo(&set(5, false, 0, 6, 2));
    let users = elo.get_users();
    assert!(users[&5].1.rating < 1500.0);
    assert!(users[&6].1.rating > 1500.0);
}

#[test]
fn elo_even_score_adds_players_without_rating_them() {
    let mut elo = Elo::new();
    elo.update_player_elo(&set(7, true, 2, 8, 2));
    let users = elo.get_users();
    assert_eq!(users.len(), 2);
    assert_eq!(users[&7].0 .0, 0);
    assert_eq!(users[&7].1, Glicko2Rating::new());
    assert_eq!(users[&8].1, Glicko2Rating::new());
}

#[test]
fn elo_leaves_other_players_alone() {
    let mut elo = Elo::new();
    elo.update_player_elo(&set(1, true, 2, 2, 0));
    let before = elo.get_users()[&1];
    elo.update_player_elo(&set(3, true, 2, 4, 1));
    let after = elo.get_users();
    assert_eq!(after.len(), 4);
    assert_eq!(after[&1].1, before.1);
    assert_eq!(after[&1].0 .0, before.0 .0);
}

#[test]
fn elo_confidence_stops_at_one_hundred() {
    let mut elo = Elo::new();
    for _ in 0..120 {
        elo.update_player_elo(&set(1, true, 1, 2, 0));
    }
    let users = elo.get_users();
    assert_eq!(users[&1].0 .0, 100);
    assert_eq!(users[&2].0 .0, 100);
}

#[test]
fn elo_same_player_on_both_sides() {
    let mut elo = Elo::new();
    elo.update_player_elo(&set(9, true, 1, 9, 0));
    let users = elo.get_users();
    assert_eq!(users.len(), 1);
    let fresh = Glicko2Rating::new();
    let (_, b) = glicko2(&fresh, &fresh, &Outcomes::WIN, &Glicko2Config::new());
    assert_eq!(users[&9].1, b);
    assert_eq!(users[&9].0 .0, 1);
}

fn db_user(name: &str, uid: i64, confidence: i64) -> DatabaseUserWithElo {
    DatabaseUserWithElo {
        username: name.to_string(),
        startgg_uid: uid,
        elo: Glicko2Rating::new(),
        confidence: Confidence::from(confidence),
    }
}

#[test]
fn challonge_set_rates_winner_up() {
    let p1 = db_user("alpha", 11, 4);
    let p2 = db_user("beta", 12, 100);
    let (r1, r2) = rate_challonge_set(&p1, &p2, "Alpha".to_string(), "Beta".to_string(), 1, 3, &RatingRules::standard());
    let fresh = Glicko2Rating::new();
    let config = Glicko2Config::new();
    let (a1, b1) = glicko2(&fresh, &fresh, &Outcomes::LOSS, &config);
    let (a2, b2) = glicko2(&a1, &b1, &Outcomes::LOSS, &config);
    assert_eq!(r1.elo, a2);
    assert_eq!(r2.elo, b2);
    assert_eq!(r1.username, "Alpha");
    assert_eq!(r2.username, "Beta");
    assert_eq!(r1.startgg_uid, 11);
    assert_eq!(r2.startgg_uid, 12);
    assert_eq!(r1.confidence.0, 5);
    assert_eq!(r2.confidence.0, 100);
}

#[test]
fn challonge_tie_still_counts_confidence() {
    let p1 = db_user("a", 1, 0);
    let p2 = db_user("b", 2, 0);
    let (r1, r2) = rate_challonge_set(&p1, &p2, "a".to_string(), "b".to_string(), 2, 2, &RatingRules::standard());
    assert_eq!(r1.elo, Glicko2Rating::new());
    assert_eq!(r2.elo, Glicko2Rating::new());
    assert_eq!(r1.confidence.0, 1);
    assert_eq!(r2.confidence.0, 1);
}
