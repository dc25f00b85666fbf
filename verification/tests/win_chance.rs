use matchup_stats::ratio::Ratio;
use matchup_stats::win_rate_info::WinRateInfo;
use matchup_stats::win_rate_info::STATISTICAL_SIGNIFICANCE_THRESHOLD;

fn accumulate(outcomes: &[bool]) -> WinRateInfo {
    let mut info = WinRateInfo::new();
    for &win in outcomes {
        info.add(win);
    }
    info
}

#[test]
fn new_accumulator_is_empty() {
    let info = WinRateInfo::new();
    assert_eq!(info.get_count_of_matches(), 0);
    assert_eq!(info.count_of_wins, 0);
}

#[test]
fn wins_never_exceed_matches() {
    let sequences: [&[bool]; 5] = [
        &[],
        &[true],
        &[false, false, false],
        &[true, true, true, true],
        &[true, false, true, false, true, true, false],
    ];
    for outcomes in sequences {
        let info = accumulate(outcomes);
        assert!(info.count_of_wins <= info.count_of_matches);
        assert_eq!(info.count_of_matches, outcomes.len() as u64);
        assert_eq!(
            info.count_of_wins,
            outcomes.iter().filter(|&&w| w).count() as u64
        );
    }
}

#[test]
fn chance_of_empty_accumulator_is_exactly_half() {
    let info = WinRateInfo::new();
    let chance = info.get_win_chance(STATISTICAL_SIGNIFICANCE_THRESHOLD);
    assert_eq!(chance, Ratio { num: 1, den: 2 });
}

#[test]
fn chance_at_or_above_threshold_is_the_raw_rate() {
    let info = accumulate(&[true, true, false]);
    // threshold 1 <= 3 matches: the chance is exactly wins/matches.
    let chance = info.get_win_chance(1);
    assert_eq!(chance, Ratio { num: 2, den: 3 });
    // threshold 3 == 3 matches: still the raw rate.
    let chance = info.get_win_chance(3);
    assert_eq!(chance, Ratio { num: 2, den: 3 });
}

#[test]
fn chance_with_one_match_lacking_divides_delta_by_13_tenths() {
    // threshold 5, wins 3, matches 4: win rate 0.75, delta 0.25,
    // chance 0.5 + 0.25/1.3 = 9/13.
    let info = accumulate(&[true, true, true, false]);
    let chance = info.get_win_chance(5);
    assert_eq!(chance, Ratio { num: 72, den: 104 });
    // 72/104 is exactly 9/13:
    assert_eq!(72 * 13, 9 * 104);
    // and about 0.6923 as a truncated percentage:
    assert_eq!(chance.percent(), 69);
}

#[test]
fn chance_with_two_matches_lacking_divides_delta_by_16_tenths() {
    // threshold 5, wins 3, matches 3: win rate 1.0, delta 0.5,
    // chance 0.5 + 0.5/1.6 = 0.8125.
    let info = accumulate(&[true, true, true]);
    let chance = info.get_win_chance(5);
    assert_eq!(chance, Ratio { num: 78, den: 96 });
    assert_eq!(chance.percent(), 81);
}

#[test]
fn chance_with_larger_lack_divides_delta_by_the_lack() {
    // threshold 5, wins 1, matches 1: lack 4, chance 0.5 + 0.5/4 = 0.625.
    let info = accumulate(&[true]);
    let chance = info.get_win_chance(5);
    assert_eq!(chance, Ratio { num: 5, den: 8 });
    assert_eq!(chance.percent(), 62);
    // threshold 5, wins 0, matches 2: lack 3, chance 0.5 - 0.5/3 = 1/3.
    let info = accumulate(&[false, false]);
    let chance = info.get_win_chance(5);
    assert_eq!(chance, Ratio { num: 4, den: 12 });
}

#[test]
fn chance_stays_within_the_unit_interval() {
    let sequences: [&[bool]; 4] = [
        &[true],
        &[false],
        &[true, true, true, true, true, true],
        &[false, false, false, false, false, false],
    ];
    for outcomes in sequences {
        let info = accumulate(outcomes);
        for threshold in 1..8u64 {
            let c = info.get_win_chance(threshold);
            assert!(c.den >= 1);
            assert!(c.num <= c.den);
        }
    }
}

#[test]
fn raw_win_rate_is_zero_when_empty() {
    let info = WinRateInfo::new();
    assert_eq!(info.get_win_rate(), Ratio { num: 0, den: 1 });
    let info = accumulate(&[true, false]);
    assert_eq!(info.get_win_rate(), Ratio { num: 1, den: 2 });
}

#[test]
fn ratio_comparison_and_projections() {
    let a = Ratio::new(1, 5); // 0.2
    let b = Ratio::new(1, 2); // 0.5
    let c = Ratio::new(4, 5); // 0.8
    assert!(a.le(&b));
    assert!(b.le(&c));
    assert!(a.le(&c));
    assert!(!c.le(&a));
    assert!(b.le(&b));
    assert_eq!(a.percent(), 20);
    assert_eq!(c.percent(), 80);
    assert_eq!(b.permyriad(), 5000);
    assert_eq!(Ratio::new(2, 3).percent(), 66);
    assert_eq!(Ratio::new(2, 3).permyriad(), 6666);
}
