use startgg_interactions::bracket_search::{BracketSearch, Series};
use startgg_interactions::challonge::{
    assemble_page_event, frame_page, score_needs_html, score_unreadable, ChallongeSlotText,
};
use startgg_interactions::challonge_tournaments::{ChallongeTournament, HouseOfCasuals, WeeklyRebelRumble};

#[test]
fn rumble_skips_week_forty_six() {
    assert!(WeeklyRebelRumble::is_skipped_week(14));
    assert!(!WeeklyRebelRumble::is_skipped_week(13));
    assert!(!WeeklyRebelRumble::is_skipped_week(0));
    assert!(!WeeklyRebelRumble::is_skipped_week(46));
}

#[test]
fn rumble_event_names() {
    assert_eq!(WeeklyRebelRumble::get_first_week(), 32);
    assert_eq!(
        WeeklyRebelRumble::get_possible_event_names(0),
        vec!["wrr32bbtagsw", "wrr32bbtagxbl", "wrr32bbtagpsn", "wrr32bbtagnso", "wrr32bbtagpc"]
    );
    assert_eq!(WeeklyRebelRumble::get_possible_event_names(68)[4], "wrr100bbtagpc");
    assert_eq!(WeeklyRebelRumble::get_possible_event_names(-40)[0], "wrr-8bbtagsw");
}

#[test]
fn casuals_event_names() {
    assert_eq!(HouseOfCasuals::get_first_week(), 24);
    assert_eq!(HouseOfCasuals::get_possible_event_names(0), vec!["houseofcasuals24"]);
    assert_eq!(HouseOfCasuals::get_possible_event_names(-24), vec!["houseofcasuals0"]);
    assert_eq!(HouseOfCasuals::get_possible_event_names(7), vec!["houseofcasuals31"]);
}

fn slot(id: &str, text: &str, html: Option<&str>, name: &str) -> ChallongeSlotText {
    ChallongeSlotText {
        participant_id: id.to_string(),
        score_text: text.to_string(),
        score_html: html.map(|h| h.to_string()),
        name: name.to_string(),
    }
}

#[test]
fn page_without_matches_gives_nothing() {
    assert!(assemble_page_event(&vec![], "wrr32bbtagpc".to_string()).is_none());
}

#[test]
fn page_sets_in_order() {
    let page = vec![
        vec![slot("10", "2", None, "Ann"), slot("11", "1", None, "Bob")],
        vec![slot("12", "0", None, "Cid"), slot("13", "2", None, "Dee")],
        vec![],
        vec![slot("14", "x", Some("3"), "Eve"), slot("15", "-1", None, "Fay")],
    ];
    let event = assemble_page_event(&page, "houseofcasuals24".to_string()).unwrap();
    assert_eq!(event.slug, "houseofcasuals24");
    // The match whose first score is 0 and the empty match are left out.
    assert_eq!(event.sets.len(), 2);
    let first = &event.sets[0].standings;
    assert_eq!((first[0].name.as_str(), first[0].id, first[0].score), ("Ann", 10, 2));
    assert_eq!((first[1].name.as_str(), first[1].id, first[1].score), ("Bob", 11, 1));
    let second = &event.sets[1].standings;
    assert_eq!((second[0].name.as_str(), second[0].id, second[0].score), ("Eve", 14, 3));
    assert_eq!((second[1].name.as_str(), second[1].id, second[1].score), ("Fay", 15, -1));
}

#[test]
fn unreadable_score_throws_bracket_away() {
    let page = vec![
        vec![slot("10", "2", None, "Ann"), slot("11", "1", None, "Bob")],
        vec![slot("12", "0", None, "Cid"), slot("13", "?", Some("<b>?</b>"), "Dee")],
    ];
    assert!(assemble_page_event(&page, "l".to_string()).is_none());
}

#[test]
fn frame_page_embeds_link() {
    let page = frame_page("wrr40bbtagpc");
    assert!(page.starts_with("<!DOCTYPE html>"));
    assert!(page.contains("<body>wrr40bbtagpc<br><iframe src=\"https://challonge.com/wrr40bbtagpc/module\""));
    assert!(page.ends_with("</iframe></body></html>"));
}

#[test]
fn search_walks_candidates_then_weeks() {
    let mut s = BracketSearch::new();
    assert_eq!(s.next_link().unwrap(), "wrr32bbtagsw");
    s.record(false);
    assert_eq!(s.next_link().unwrap(), "wrr32bbtagxbl");
    s.record(true);
    assert_eq!(s.next_link().unwrap(), "wrr33bbtagsw");
}

#[test]
fn search_passes_over_skipped_week() {
    let mut s = BracketSearch::new();
    for _ in 0..13 {
        s.record(true);
    }
    assert_eq!(s.next_link().unwrap(), "wrr45bbtagsw");
    s.record(true);
    assert_eq!(s.next_link().unwrap(), "wrr47bbtagsw");
}

#[test]
fn search_moves_to_casuals_then_ends() {
    let mut s = BracketSearch::new();
    for _ in 0..5 {
        assert!(!s.is_done());
        s.record(false);
    }
    assert_eq!(s.next_link().unwrap(), "houseofcasuals24");
    s.record(true);
    assert_eq!(s.next_link().unwrap(), "houseofcasuals25");
    s.record(false);
    assert!(s.is_done());
    assert!(s.next_link().is_none());
}

#[test]
fn score_cells_are_read_from_text_then_html() {
    assert!(!score_needs_html("2"));
    assert!(score_needs_html("-"));
    assert!(!score_unreadable("2", &None));
    assert!(!score_unreadable("", &Some("3".to_string())));
    assert!(score_unreadable("", &Some("<span>3</span>".to_string())));
    assert!(score_unreadable("x", &None));
}
