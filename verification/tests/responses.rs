use startgg_interactions::database::{challonge_set_records, UserInfoSchedule};
use startgg_interactions::challonge::{ChallongeTournamentEvent, ChallongeTournamentSet, ChallongeTournamentSetStanding};
use startgg_interactions::graphql::{
    completed_event_ids, event_set_page_count, event_sets, has_overlong_fraction, parse_response, read_user, tournament_list,
    tournament_page_count, user_country, ResponseError,
};

#[test]
fn malformed_response_is_reported() {
    assert_eq!(parse_response("{not json").err(), Some(ResponseError::Malformed));
}

#[test]
fn tournament_pages_and_list() {
    let v = parse_response(
        r#"{"data":{"tournaments":{"pageInfo":{"page":1,"totalPages":3},"nodes":[{"id":10,"name":"Evo"},{"id":11,"name":"CEO"}]}}}"#,
    )
    .unwrap();
    assert_eq!(tournament_page_count(&v), Some(3));
    assert_eq!(tournament_list(&v).unwrap(), vec![(10, "Evo".to_string()), (11, "CEO".to_string())]);
    let missing = parse_response(r#"{"data":{"tournaments":{"nodes":[{"id":10}]}}}"#).unwrap();
    assert_eq!(tournament_page_count(&missing), None);
    assert!(tournament_list(&missing).is_none());
}

#[test]
fn only_completed_events_are_kept() {
    let v = parse_response(
        r#"{"data":{"tournament":{"events":[{"id":1,"state":"COMPLETED"},{"id":2,"state":"ACTIVE"},{"id":3,"state":"COMPLETED"}]}}}"#,
    )
    .unwrap();
    assert_eq!(completed_event_ids(&v).unwrap(), vec![1, 3]);
    let no_state = parse_response(r#"{"data":{"tournament":{"events":[{"id":1}]}}}"#).unwrap();
    assert!(completed_event_ids(&no_state).is_none());
    let none = parse_response(r#"{"data":{"tournament":null}}"#).unwrap();
    assert_eq!(completed_event_ids(&none).unwrap(), Vec::<i64>::new());
}

fn slot(user: &str, placement: &str, score: &str) -> String {
    format!(
        r#"{{"standing":{{"placement":{},"stats":{{"score":{{"value":{}}}}},"entrant":{{"participants":[{{"user":{}}}]}}}}}}"#,
        placement, score, user
    )
}

#[test]
fn event_sets_are_read() {
    let body = format!(
        r#"{{"data":{{"event":{{"sets":{{"pageInfo":{{"totalPages":2}},"nodes":[{},{},{},{}]}}}}}}}}"#,
        format!(r#"{{"id":1,"slots":[{},{}]}}"#, slot(r#"{"id":100}"#, "1", "2"), slot(r#"{"id":200}"#, "2", "0")),
        format!(r#"{{"id":2,"slots":[{},{}]}}"#, slot("null", "1", "2"), slot(r#"{"id":200}"#, "2", "0")),
        format!(r#"{{"id":106458667,"slots":[]}}"#),
        format!(r#"{{"id":3,"slots":[{},{}]}}"#, slot(r#"{"id":300}"#, "2", "1"), slot(r#"{"id":400}"#, "1", "3")),
    );
    let v = parse_response(&body).unwrap();
    assert_eq!(event_set_page_count(&v), 2);
    let sets = event_sets(&v).unwrap();
    assert_eq!(sets.len(), 3);
    assert_eq!((sets[0].standings[0].id, sets[0].standings[0].has_won, sets[0].standings[0].score), (100, true, 2));
    assert_eq!((sets[0].standings[1].id, sets[0].standings[1].has_won, sets[0].standings[1].score), (200, false, 0));
    assert_eq!((sets[1].standings[0].id, sets[1].standings[1].id), (162430, 48752));
    assert_eq!((sets[2].standings[0].has_won, sets[2].standings[1].has_won), (false, true));
}

#[test]
fn event_sets_need_set_ids() {
    let v = parse_response(r#"{"data":{"event":{"sets":{"nodes":[{"slots":[]}]}}}}"#).unwrap();
    assert!(event_sets(&v).is_none());
    assert_eq!(event_set_page_count(&v), 0);
}

#[test]
fn users_are_read() {
    let v = parse_response(
        r#"{"data":{"user":{"player":{"gamerTag":"Ryazo"},"slug":"user/abc","location":{"country":"Japan"}}}}"#,
    )
    .unwrap();
    let u = read_user(5, &v, Some("AS")).unwrap();
    assert_eq!((u.user_id, u.user_name.as_str(), u.user_slug.as_str(), u.user_region), (5, "Ryazo", "user/abc", Some("AS")));
    assert_eq!(user_country(&v), "Japan");
    let bare = parse_response(r#"{"data":{"user":{"player":{"gamerTag":"Yui"}}}}"#).unwrap();
    let u = read_user(6, &bare, None).unwrap();
    assert_eq!(u.user_slug, "NONE");
    assert_eq!(user_country(&bare), "");
    let nobody = parse_response(r#"{"data":{"user":null}}"#).unwrap();
    assert!(read_user(7, &nobody, None).is_none());
}

fn standing(name: &str, id: i64, score: i64) -> ChallongeTournamentSetStanding {
    ChallongeTournamentSetStanding { name: name.to_string(), id, score }
}

#[test]
fn set_records_put_winner_first() {
    let events = vec![
        ChallongeTournamentEvent {
            sets: vec![
                ChallongeTournamentSet { standings: [standing("A", 1, 2), standing("B", 2, 0)] },
                ChallongeTournamentSet { standings: [standing("C", 3, 1), standing("D", 4, 2)] },
            ],
            slug: "wrr32bbtagpc".to_string(),
        },
        ChallongeTournamentEvent {
            sets: vec![ChallongeTournamentSet { standings: [standing("E", 5, 1), standing("F", 6, 1)] }],
            slug: "houseofcasuals24".to_string(),
        },
    ];
    let records = challonge_set_records(&events);
    let rows: Vec<(&str, i64, &str, i64, &str)> = records
        .iter()
        .map(|r| (r.winner_name.as_str(), r.winner_score, r.loser_name.as_str(), r.loser_score, r.tournament_slug.as_str()))
        .collect();
    assert_eq!(
        rows,
        vec![
            ("A", 2, "B", 0, "wrr32bbtagpc"),
            ("D", 2, "C", 1, "wrr32bbtagpc"),
            ("F", 1, "E", 1, "houseofcasuals24"),
        ]
    );
    assert_eq!(records[1].winner_id, 4);
    assert_eq!(records[1].loser_id, 3);
}

#[test]
fn user_schedule_waits_are_counted_exactly() {
    let mut s = UserInfoSchedule::new(120);
    assert_eq!(s.avoids_left_now(), 2);
    let mut waits = vec![];
    for i in 1..=120 {
        if s.before_request() {
            waits.push(i);
        }
    }
    assert_eq!(waits, vec![50, 100]);
    assert_eq!(s.avoids_left_now(), 0);
    assert_eq!(s.users_left_now(), 0);
}

#[test]
fn page_counts_read_integers_as_the_json_crate_does() {
    for text in ["3", "0", "-12", "9223372036854775807", "1.5", "1e2", "\"3\"", "null"] {
        let body = format!(r#"{{"data":{{"tournaments":{{"pageInfo":{{"totalPages":{}}}}}}}}}"#, text);
        let v = parse_response(&body).unwrap();
        assert_eq!(tournament_page_count(&v), v["data"]["tournaments"]["pageInfo"]["totalPages"].as_i64(), "{}", text);
    }
}

#[test]
fn most_negative_integer_is_read_without_overflow() {
    let v = parse_response(r#"{"data":{"tournaments":{"pageInfo":{"totalPages":-9223372036854775808}}}}"#).unwrap();
    assert_eq!(tournament_page_count(&v), Some(i64::MIN));
    let big = parse_response(r#"{"data":{"tournaments":{"pageInfo":{"totalPages":9223372036854775808}}}}"#).unwrap();
    assert_eq!(tournament_page_count(&big), big["data"]["tournaments"]["pageInfo"]["totalPages"].as_i64());
}

#[test]
fn overlong_fraction_is_refused_before_parsing() {
    let long = format!("{{\"a\": 0.{}}}", "0".repeat(32769));
    assert!(has_overlong_fraction(&long));
    assert_eq!(parse_response(&long).err(), Some(ResponseError::Malformed));
}

#[test]
fn fraction_just_under_the_limit_is_parsed() {
    let text = format!("{{\"a\": 0.{}1}}", "0".repeat(32767));
    assert!(!has_overlong_fraction(&text));
    assert!(parse_response(&text).is_ok());
    assert!(!has_overlong_fraction("{\"a\": 1.5, \"b\": \".\"}"));
    assert!(has_overlong_fraction(&format!(".{}", "7".repeat(32769))));
    assert!(!has_overlong_fraction(&format!(".{}", "7".repeat(32768))));
}
