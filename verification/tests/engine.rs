use matchup_stats::analyze::find_participants_by_team_id;
use matchup_stats::analyze::Analyzer;
use matchup_stats::analyze::MatchRecord;
use matchup_stats::analyze::Participant;

const DAY_MS: i64 = 24 * 60 * 60 * 1000;

fn participant(champion: &str, summoner: &str, team: u64, win: bool) -> Participant {
    Participant {
        champion_name: String::from(champion),
        summoner_id: String::from(summoner),
        team_id: team,
        win,
    }
}

/// A 2v2 match: the target player "me" pilots `mine` against `enemy`,
/// alongside `ally`.
fn small_match(day: i64, mine: &str, ally: &str, enemy: &str, win: bool) -> MatchRecord {
    MatchRecord {
        game_creation: day * DAY_MS,
        participants: vec![
            participant(mine, "me", 100, win),
            participant(ally, "buddy", 100, win),
            participant(enemy, "rival", 200, !win),
        ],
    }
}

fn analyzer_with_limit(days: i64) -> Analyzer {
    let mut analyzer = Analyzer::new(String::from("me"));
    analyzer.duration_limit = days * DAY_MS;
    analyzer
}

fn champion<'a>(analyzer: &'a Analyzer, name: &str) -> &'a matchup_stats::champion_info::ChampionInfo {
    for (champ, info) in analyzer.champion_infos.iter() {
        if champ == name {
            return info;
        }
    }
    panic!("champion not aggregated");
}

#[test]
fn end_to_end_three_matches_against_zed() {
    // The player always pilots Ashe, always faces Zed, wins twice and
    // loses once.
    let records = vec![
        small_match(10, "Ashe", "Lux", "Zed", true),
        small_match(9, "Ashe", "Lux", "Zed", true),
        small_match(8, "Ashe", "Lux", "Zed", false),
    ];
    let mut analyzer = analyzer_with_limit(300);
    analyzer.analyze_records(&records, 12);
    let ashe = champion(&analyzer, "Ashe");
    assert_eq!(ashe.count_of_matches, 3);
    let vs_zed = &ashe.get_win_rates_vs_champions()[0];
    assert_eq!(vs_zed.0, "Zed");
    assert_eq!(vs_zed.1.get_count_of_matches(), 3);
    assert_eq!(vs_zed.1.count_of_wins, 2);
    // With a significance threshold of 1 the chance is the raw rate, about
    // 67 percent.
    let chance = vs_zed.1.get_win_chance(1);
    assert_eq!((chance.num, chance.den), (2, 3));
    assert_eq!(chance.percent(), 66);
}

#[test]
fn recency_window_stops_before_old_records() {
    // Records at day 10, day 9, day 1 with a five-day window: the gap from
    // day 10 to day 1 exceeds the limit, so the third record is skipped.
    let records = vec![
        small_match(10, "Ashe", "Lux", "Zed", true),
        small_match(9, "Ashe", "Lux", "Zed", true),
        small_match(1, "Ashe", "Lux", "Zed", true),
    ];
    let mut analyzer = analyzer_with_limit(5);
    analyzer.analyze_records(&records, 12);
    let ashe = champion(&analyzer, "Ashe");
    assert_eq!(ashe.count_of_matches, 2);
    let vs_zed = &ashe.get_win_rates_vs_champions()[0];
    assert_eq!(vs_zed.1.get_count_of_matches(), 2);
}

#[test]
fn recency_window_skips_the_first_record_beyond_it() {
    // Day 10 then day 4: the window is tested against each record's own
    // timestamp before it contributes, so the six-day gap stops the run at
    // the day-4 record, and nothing after it is read either.
    let records = vec![
        small_match(10, "Ashe", "Lux", "Zed", true),
        small_match(4, "Ashe", "Lux", "Zed", true),
        small_match(9, "Ashe", "Lux", "Zed", true),
    ];
    let mut analyzer = analyzer_with_limit(5);
    analyzer.analyze_records(&records, 12);
    let ashe = champion(&analyzer, "Ashe");
    assert_eq!(ashe.count_of_matches, 1);
}

#[test]
fn player_filter_ignores_other_players() {
    let records = vec![small_match(10, "Ashe", "Lux", "Zed", true)];
    let mut analyzer = Analyzer::new(String::from("somebody else"));
    analyzer.duration_limit = 300 * DAY_MS;
    analyzer.analyze_records(&records, 12);
    assert_eq!(analyzer.champion_infos.len(), 0);
}

#[test]
fn allies_exclude_the_player_and_enemies_are_the_other_team() {
    let records = vec![small_match(10, "Ashe", "Lux", "Zed", true)];
    let mut analyzer = analyzer_with_limit(300);
    analyzer.analyze_records(&records, 12);
    let ashe = champion(&analyzer, "Ashe");
    let allies = ashe.get_win_rates_with_champions();
    assert_eq!(allies.len(), 1);
    assert_eq!(allies[0].0, "Lux");
    let enemies = ashe.get_win_rates_vs_champions();
    assert_eq!(enemies.len(), 1);
    assert_eq!(enemies[0].0, "Zed");
}

#[test]
fn team_partition_is_by_team_identifier_equality() {
    let parts = vec![
        participant("Ashe", "me", 7, true),
        participant("Lux", "buddy", 7, true),
        participant("Zed", "rival", 31, false),
        participant("Ahri", "rival2", 31, false),
    ];
    let same = find_participants_by_team_id(&parts, 7, true);
    assert_eq!(same, vec![0, 1]);
    let other = find_participants_by_team_id(&parts, 7, false);
    assert_eq!(other, vec![2, 3]);
}

#[test]
fn saturation_cap_limits_every_matchup() {
    let records = vec![
        small_match(10, "Ashe", "Lux", "Zed", true),
        small_match(9, "Ashe", "Lux", "Zed", false),
        small_match(8, "Ashe", "Lux", "Zed", false),
    ];
    let mut analyzer = analyzer_with_limit(300);
    analyzer.analyze_records(&records, 1);
    let ashe = champion(&analyzer, "Ashe");
    // The profile's own match count is not capped, matchup accumulators are.
    assert_eq!(ashe.count_of_matches, 3);
    assert_eq!(ashe.get_win_rates_vs_champions()[0].1.get_count_of_matches(), 1);
    assert_eq!(ashe.get_win_rates_with_champions()[0].1.get_count_of_matches(), 1);
}

#[test]
fn champions_rank_by_matches_played_descending() {
    let records = vec![
        small_match(10, "Rare", "Lux", "Zed", true),
        small_match(9, "Often", "Lux", "Zed", true),
        small_match(8, "Often", "Lux", "Zed", false),
    ];
    let mut analyzer = analyzer_with_limit(300);
    analyzer.analyze_records(&records, 12);
    let order = analyzer.get_sorted_champions();
    let names: Vec<&str> = order
        .iter()
        .map(|&i| analyzer.champion_infos[i].0.as_str())
        .collect();
    assert_eq!(names, vec!["Often", "Rare"]);
}

#[test]
fn summary_report_lists_champions_in_ranked_order() {
    let records = vec![
        small_match(10, "Rare", "Lux", "Zed", true),
        small_match(9, "Often", "Lux", "Zed", true),
        small_match(8, "Often", "Lux", "Zed", false),
    ];
    let mut analyzer = analyzer_with_limit(300);
    analyzer.analyze_records(&records, 12);
    let text = analyzer.get_summary_text(1, 6);
    let often = text.find("Often\n").expect("Often in report");
    let rare = text.find("Rare\n").expect("Rare in report");
    assert!(often < rare);
    assert!(text.contains("count of matches: 2"));
}
