use matchup_stats::analyze::format_chance;
use matchup_stats::analyze::get_win_chance_summary;
use matchup_stats::analyze::Analyzer;
use matchup_stats::analyze::MatchRecord;
use matchup_stats::analyze::Participant;

fn participant(champion: &str, summoner: &str, team: u64, win: bool) -> Participant {
    Participant {
        champion_name: String::from(champion),
        summoner_id: String::from(summoner),
        team_id: team,
        win,
    }
}

fn small_match(mine: &str, ally: &str, enemy: &str, win: bool) -> MatchRecord {
    MatchRecord {
        game_creation: 0,
        participants: vec![
            participant(mine, "me", 100, win),
            participant(ally, "buddy", 100, win),
            participant(enemy, "rival", 200, !win),
        ],
    }
}

fn analyzer_of(records: &Vec<MatchRecord>) -> Analyzer {
    let mut analyzer = Analyzer::new(String::from("me"));
    analyzer.duration_limit = i64::MAX / 2;
    analyzer.analyze_records(records, 12);
    analyzer
}

#[test]
fn universe_unions_all_known_names_without_duplicates() {
    let records = vec![
        small_match("Ashe", "Lux", "Zed", true),
        small_match("Ashe", "Zed", "Lux", false),
    ];
    let analyzer = analyzer_of(&records);
    let mut names = analyzer.get_all_champion_names();
    names.sort();
    assert_eq!(names, vec!["Ashe", "Lux", "Zed"]);
}

#[test]
fn misspelled_names_resolve_to_known_champions() {
    let records = vec![small_match("Ashe", "Lux", "Zed", true)];
    let analyzer = analyzer_of(&records);
    let guessed = analyzer.guess_champion_names(&vec![
        String::from("Ash"),
        String::from("zed"),
    ]);
    assert_eq!(guessed, vec!["Ashe", "Zed"]);
}

#[test]
fn unresolvable_names_keep_their_own_spelling() {
    let records = vec![small_match("Ashe", "Lux", "Zed", true)];
    let analyzer = analyzer_of(&records);
    let guessed = analyzer.guess_champion_names(&vec![String::from("Qqq")]);
    assert_eq!(guessed, vec!["Qqq"]);
}

#[test]
fn format_chance_uses_the_unknown_marker_for_empty_categories() {
    assert_eq!(format_chance(0, 0), "[?]");
    assert_eq!(format_chance(2, 15000), "75% of 2");
    assert_eq!(format_chance(1, 10000), "100% of 1");
    assert_eq!(format_chance(3, 10000), "33% of 3");
}

#[test]
fn chance_summary_matches_only_candidate_names() {
    let records = vec![
        small_match("Ashe", "Lux", "Zed", true),
        small_match("Ashe", "Lux", "Ahri", false),
    ];
    let analyzer = analyzer_of(&records);
    let ashe = &analyzer.champion_infos[0].1;
    let (count, score, breakdown) = get_win_chance_summary(
        ashe.get_win_rates_vs_champions(),
        &vec![String::from("Zed")],
        2,
        1,
    );
    assert_eq!(count, 1);
    // One win in one match at threshold 1: a whole chance, ten thousand
    // ten-thousandths.
    assert_eq!(score, 10000);
    assert_eq!(breakdown, "    Zed 100% of 1\n");
}

#[test]
fn score_report_shows_unknown_ally_strength_when_nothing_matches() {
    let records = vec![small_match("Ashe", "Lux", "Zed", true)];
    let analyzer = analyzer_of(&records);
    let text = analyzer.get_score_summary_text(
        &vec![String::from("Nobody")],
        &vec![String::from("Zed")],
        1,
    );
    assert!(text.contains("ally strength [?]"));
    assert!(!text.contains("ally strength 0%"));
    assert!(text.contains("enemy weakness 100% of 1"));
}

#[test]
fn score_report_for_one_champion_is_exact() {
    let records = vec![small_match("Ashe", "Lux", "Zed", true)];
    let analyzer = analyzer_of(&records);
    let text = analyzer.get_score_summary_text(&vec![], &vec![String::from("Zed")], 1);
    let expected = "Ashe: ally strength [?], enemy weakness 100% of 1, summary chance 100% of 1\n\
        \u{20} Allies:\n  Enemies:\n    Zed 100% of 1\n";
    assert_eq!(text, expected);
}

#[test]
fn combined_score_averages_both_categories() {
    // Ally Lux always wins with us (chance 1), enemy Zed we always beat
    // (chance 1): combined average of two whole chances is 100%.
    let records = vec![small_match("Ashe", "Lux", "Zed", true)];
    let analyzer = analyzer_of(&records);
    let text = analyzer.get_score_summary_text(
        &vec![String::from("Lux")],
        &vec![String::from("Zed")],
        1,
    );
    assert!(text.contains("summary chance 100% of 2"));
    assert!(text.contains("ally strength 100% of 1"));
}
