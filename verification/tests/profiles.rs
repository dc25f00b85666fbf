use matchup_stats::champion_info::format_top_summary_list;
use matchup_stats::champion_info::get_significant_list;
use matchup_stats::champion_info::ChampionInfo;
use matchup_stats::text::format_percent;
use matchup_stats::text::format_ratio;
use matchup_stats::text::indent_string;
use matchup_stats::text::u64_to_string;
use matchup_stats::ratio::Ratio;

fn record_n(info: &mut ChampionInfo, enemy: &str, wins: u64, losses: u64, cap: u64) {
    let name = String::from(enemy);
    for _ in 0..wins {
        info.record_vs(&name, true, cap);
    }
    for _ in 0..losses {
        info.record_vs(&name, false, cap);
    }
}

#[test]
fn get_or_create_starts_empty_and_accumulates() {
    let mut info = ChampionInfo::new();
    let zed = String::from("Zed");
    assert_eq!(info.get_win_rate_vs(&zed).get_count_of_matches(), 0);
    info.record_vs(&zed, true, 12);
    info.record_vs(&zed, false, 12);
    let acc = info.get_win_rate_vs(&zed);
    assert_eq!(acc.get_count_of_matches(), 2);
    assert_eq!(acc.count_of_wins, 1);
    // The ally map is untouched.
    assert_eq!(info.get_win_rates_with_champions().len(), 0);
    assert_eq!(info.get_win_rates_vs_champions().len(), 1);
}

#[test]
fn ally_map_is_separate_from_enemy_map() {
    let mut info = ChampionInfo::new();
    let lux = String::from("Lux");
    info.record_with(&lux, true, 12);
    assert_eq!(info.get_win_rates_with_champions().len(), 1);
    assert_eq!(info.get_win_rates_vs_champions().len(), 0);
    assert_eq!(info.get_win_rate_with(&lux).get_count_of_matches(), 1);
}

#[test]
fn saturated_matchup_ignores_further_records() {
    let mut info = ChampionInfo::new();
    let zed = String::from("Zed");
    info.record_vs(&zed, true, 2);
    info.record_vs(&zed, true, 2);
    // The accumulator reached the cap: further records change nothing.
    info.record_vs(&zed, true, 2);
    info.record_vs(&zed, false, 2);
    let acc = info.get_win_rate_vs(&zed);
    assert_eq!(acc.get_count_of_matches(), 2);
    assert_eq!(acc.count_of_wins, 2);
}

#[test]
fn significant_list_filters_and_ranks_ascending() {
    let mut info = ChampionInfo::new();
    // chances with threshold 1 are the raw rates:
    record_n(&mut info, "Middle", 2, 2, 100); // 0.5
    record_n(&mut info, "Hard", 1, 4, 100); // 0.2
    record_n(&mut info, "Easy", 4, 1, 100); // 0.8
    let ranked = get_significant_list(info.get_win_rates_vs_champions(), 1);
    let names: Vec<&str> = ranked.iter().map(|p| p.0.as_str()).collect();
    assert_eq!(names, vec!["Hard", "Middle", "Easy"]);
}

#[test]
fn top_summary_views_read_the_ranking_from_both_ends() {
    let mut info = ChampionInfo::new();
    record_n(&mut info, "Middle", 2, 2, 100); // 0.5
    record_n(&mut info, "Hard", 1, 4, 100); // 0.2
    record_n(&mut info, "Easy", 4, 1, 100); // 0.8
    let ranked = get_significant_list(info.get_win_rates_vs_champions(), 1);
    // Descending view: 0.8 before 0.5 before 0.2.
    let easiest = format_top_summary_list("easiest enemies", &ranked, true, 1, 6);
    let expected_easiest = "easiest enemies: 3\n\
        \u{20} Easy  chance 80% ratio 80% of 5\n\
        \u{20} Middle  chance 50% ratio 50% of 4\n\
        \u{20} Hard  chance 20% ratio 20% of 5\n";
    assert_eq!(easiest, expected_easiest);
    // Ascending view: the reverse.
    let worst = format_top_summary_list("worst enemies", &ranked, false, 1, 6);
    let expected_worst = "worst enemies: 3\n\
        \u{20} Hard  chance 20% ratio 20% of 5\n\
        \u{20} Middle  chance 50% ratio 50% of 4\n\
        \u{20} Easy  chance 80% ratio 80% of 5\n";
    assert_eq!(worst, expected_worst);
    // A limit below the list length bounds each view.
    let top_one = format_top_summary_list("easiest enemies", &ranked, true, 1, 1);
    assert_eq!(top_one, "easiest enemies: 1\n  Easy  chance 80% ratio 80% of 5\n");
}

#[test]
fn significant_list_applies_the_significance_floor() {
    let mut info = ChampionInfo::new();
    record_n(&mut info, "Rare", 1, 0, 100); // 1 match only
    record_n(&mut info, "Common", 3, 2, 100); // 5 matches
    let ranked = get_significant_list(info.get_win_rates_vs_champions(), 5);
    assert_eq!(ranked.len(), 1);
    assert_eq!(ranked[0].0.as_str(), "Common");
}

#[test]
fn summary_text_of_a_small_profile() {
    let mut info = ChampionInfo::new();
    info.count_of_matches = 3;
    record_n(&mut info, "Zed", 2, 1, 12);
    let text = info.get_summary_text(1, 6);
    let expected = "count of matches: 3\n\
        best allies: 0\n\
        worst allies: 0\n\
        easiest enemies: 1\n  Zed  chance 66% ratio 66% of 3\n\
        worst enemies: 1\n  Zed  chance 66% ratio 66% of 3\n";
    assert_eq!(text, expected);
}

#[test]
fn indent_string_prefixes_every_line() {
    assert_eq!(indent_string("a\nb"), "  a\n  b");
    assert_eq!(indent_string(""), "  ");
    assert_eq!(indent_string("x\n"), "  x\n  ");
}

#[test]
fn format_ratio_truncates_and_handles_empty() {
    assert_eq!(format_ratio(3, 4), "75%");
    assert_eq!(format_ratio(2, 3), "66%");
    assert_eq!(format_ratio(0, 5), "0%");
    assert_eq!(format_ratio(0, 0), "?");
}

#[test]
fn format_percent_truncates_toward_zero() {
    assert_eq!(format_percent(&Ratio::new(9, 13)), "69%");
    assert_eq!(format_percent(&Ratio::new(1, 2)), "50%");
    assert_eq!(format_percent(&Ratio::new(1, 1)), "100%");
}

#[test]
fn counters_render_in_decimal() {
    assert_eq!(u64_to_string(0), "0");
    assert_eq!(u64_to_string(7), "7");
    assert_eq!(u64_to_string(10), "10");
    assert_eq!(u64_to_string(90217), "90217");
}
