//! The win-rate accumulator: win and match counts for one matchup, and the
//! confidence-adjusted win-chance estimate derived from them.

use vstd::prelude::*;
use vstd::string::StringExecFns;

use crate::ratio::Ratio;
use crate::text::dec_digits;
use crate::text::format_percent;
use crate::text::format_ratio;
use crate::text::spec_format_percent;
use crate::text::spec_format_ratio;
use crate::text::string_push_char;
use crate::text::u64_to_string;

verus! {

/// Default number of matches a matchup needs before its raw win rate is
/// trusted as-is; below it the estimate is pulled toward one half.
pub const STATISTICAL_SIGNIFICANCE_THRESHOLD: u64 = 5;

/// Counts wins and matches for one specific matchup. `count_of_wins` never
/// exceeds `count_of_matches`; both start at zero.
#[derive(Clone, Copy, PartialEq, Eq, Structural, Debug)]
pub struct WinRateInfo {
    pub count_of_wins: u64,
    pub count_of_matches: u64,
}

/// Numerator of the confidence-adjusted win chance, as an exact rational.
///
/// The estimate is `1/2 + (rate - 1/2) / divisor` where `rate = wins/matches`
/// and the divisor depends on `lack = threshold - matches`: `13/10` for a lack
/// of one, `16/10` for a lack of two, and `lack` itself beyond that. Cleared
/// of fractions:
///   - lack 1: `1/2 + (rate - 1/2)*10/13 == (3*matches + 20*wins) / (26*matches)`
///   - lack 2: `1/2 + (rate - 1/2)*10/16 == (6*matches + 20*wins) / (32*matches)`
///   - lack l >= 3: `1/2 + (rate - 1/2)/l == (matches*(l-1) + 2*wins) / (2*matches*l)`
/// With no matches at all the estimate is exactly `1/2`, and at or above the
/// threshold it is the raw rate `wins/matches`.
pub open spec fn chance_num(wins: int, matches: int, threshold: int) -> int {
    if matches == 0 {
        1
    } else if matches < threshold {
        let lack = threshold - matches;
        if lack == 1 {
            3 * matches + 20 * wins
        } else if lack == 2 {
            6 * matches + 20 * wins
        } else {
            matches * (lack - 1) + 2 * wins
        }
    } else {
        wins
    }
}

/// Denominator of the confidence-adjusted win chance; see [`chance_num`].
pub open spec fn chance_den(matches: int, threshold: int) -> int {
    if matches == 0 {
        2
    } else if matches < threshold {
        let lack = threshold - matches;
        if lack == 1 {
            26 * matches
        } else if lack == 2 {
            32 * matches
        } else {
            2 * matches * lack
        }
    } else {
        matches
    }
}

impl WinRateInfo {
    /// The accumulator's invariant: it never records a win without a match.
    pub open spec fn wf(&self) -> bool {
        self.count_of_wins <= self.count_of_matches
    }

    pub fn new() -> (r: WinRateInfo)
        ensures
            r.count_of_wins == 0,
            r.count_of_matches == 0,
            r.wf(),
    {
        WinRateInfo { count_of_wins: 0, count_of_matches: 0 }
    }

    /// Records one match and, if `win` holds, one win.
    pub fn add(&mut self, win: bool)
        requires
            old(self).wf(),
            old(self).count_of_matches < u64::MAX,
        ensures
            final(self).count_of_matches == old(self).count_of_matches + 1,
            final(self).count_of_wins == old(self).count_of_wins + if win {
                1int
            } else {
                0int
            },
            final(self).wf(),
    {
        self.count_of_matches = self.count_of_matches + 1;
        if win {
            self.count_of_wins = self.count_of_wins + 1;
        }
    }

    /// The raw win rate `wins/matches`, or zero when nothing was recorded.
    pub fn get_win_rate(&self) -> (r: Ratio)
        requires
            self.wf(),
        ensures
            self.count_of_matches == 0 ==> r == (Ratio { num: 0, den: 1 }),
            self.count_of_matches > 0 ==> r == (Ratio {
                num: self.count_of_wins,
                den: self.count_of_matches,
            }),
            r.wf(),
    {
        if self.count_of_matches > 0 {
            Ratio::new(self.count_of_wins, self.count_of_matches)
        } else {
            Ratio::new(0, 1)
        }
    }

    /// The confidence-adjusted win chance for this matchup: the raw win rate
    /// pulled toward one half while fewer than `threshold` matches were seen.
    /// The result is the exact rational of [`chance_num`] over [`chance_den`].
    pub fn get_win_chance(&self, threshold: u64) -> (r: Ratio)
        requires
            self.wf(),
            1 <= threshold <= 0x8000_0000,
        ensures
            r.num == chance_num(
                self.count_of_wins as int,
                self.count_of_matches as int,
                threshold as int,
            ),
            r.den == chance_den(self.count_of_matches as int, threshold as int),
            r.wf(),
    {
        let w = self.count_of_wins;
        let m = self.count_of_matches;
        if m == 0 {
            Ratio::new(1, 2)
        } else if m < threshold {
            let lack = threshold - m;
            if lack == 1 {
                Ratio::new(3 * m + 20 * w, 26 * m)
            } else if lack == 2 {
                Ratio::new(6 * m + 20 * w, 32 * m)
            } else {
                proof {
                    lemma_general_lack_fits(w as int, m as int, lack as int);
                }
                Ratio::new(m * (lack - 1) + 2 * w, 2 * m * lack)
            }
        } else {
            Ratio::new(w, m)
        }
    }

    pub fn get_count_of_matches(&self) -> (r: u64)
        ensures
            r == self.count_of_matches,
    {
        self.count_of_matches
    }
}

/// Bounds for the general damping case, `lack >= 3`: the numerator and
/// denominator fit in 64 bits and form a proper fraction.
proof fn lemma_general_lack_fits(w: int, m: int, lack: int)
    requires
        0 <= w <= m,
        1 <= m,
        3 <= lack,
        m + lack <= 0x8000_0000,
    ensures
        0 <= m * (lack - 1) + 2 * w <= 2 * m * lack <= u64::MAX,
        1 <= 2 * m * lack,
{
    assert(1 <= 2 * m * lack) by (nonlinear_arith)
        requires
            1 <= m,
            3 <= lack,
    ;
    assert(m * (lack - 1) + 2 * w <= 2 * m * lack) by (nonlinear_arith)
        requires
            0 <= w <= m,
            1 <= m,
            3 <= lack,
    ;
    assert(0 <= m * (lack - 1)) by (nonlinear_arith)
        requires
            1 <= m,
            3 <= lack,
    ;
    assert(2 * m * lack <= u64::MAX) by (nonlinear_arith)
        requires
            1 <= m,
            3 <= lack,
            m + lack <= 0x8000_0000,
    ;
}

/// The accumulator a fresh [`WinRateInfo::new`] reaches after recording the
/// given outcomes in order, each step being exactly what
/// [`WinRateInfo::add`] promises.
pub open spec fn spec_replay(outcomes: Seq<bool>) -> WinRateInfo
    decreases outcomes.len(),
{
    if outcomes.len() == 0 {
        WinRateInfo { count_of_wins: 0, count_of_matches: 0 }
    } else {
        let prev = spec_replay(outcomes.drop_last());
        WinRateInfo {
            count_of_wins: (prev.count_of_wins + if outcomes.last() {
                1u64
            } else {
                0u64
            }) as u64,
            count_of_matches: (prev.count_of_matches + 1) as u64,
        }
    }
}

/// After any sequence of records, wins never exceed matches: an accumulator
/// built from scratch holds one match per outcome, one win per winning
/// outcome, and satisfies its invariant.
pub proof fn lemma_replay_wins_le_matches(outcomes: Seq<bool>)
    requires
        outcomes.len() <= u64::MAX,
    ensures
        spec_replay(outcomes).count_of_matches == outcomes.len(),
        spec_replay(outcomes).count_of_wins <= spec_replay(outcomes).count_of_matches,
        spec_replay(outcomes).wf(),
    decreases outcomes.len(),
{
    if outcomes.len() > 0 {
        lemma_replay_wins_le_matches(outcomes.drop_last());
    }
}

/// Recording one match preserves the accumulator's invariant: starting from
/// any state with `wins <= matches`, the state after one more record still
/// has `wins <= matches`. Together with [`WinRateInfo::new`] starting at
/// zero, the invariant holds after any sequence of records.
pub proof fn lemma_record_preserves_invariant(before: WinRateInfo, after: WinRateInfo, win: bool)
    requires
        before.wf(),
        before.count_of_matches < u64::MAX,
        after.count_of_matches == before.count_of_matches + 1,
        after.count_of_wins == before.count_of_wins + if win {
            1int
        } else {
            0int
        },
    ensures
        after.wf(),
{
}

/// With no recorded matches the win chance is exactly one half.
pub proof fn lemma_chance_of_empty_is_half(threshold: int)
    ensures
        chance_num(0, 0, threshold) * 2 == chance_den(0, threshold) * 1,
{
}

/// At or above the significance threshold the win chance is exactly the raw
/// win rate `wins/matches`.
pub proof fn lemma_chance_at_threshold_is_rate(wins: int, matches: int, threshold: int)
    requires
        matches >= threshold,
        matches > 0,
    ensures
        chance_num(wins, matches, threshold) == wins,
        chance_den(matches, threshold) == matches,
{
}

/// Below the threshold the chance obeys the damping table exactly: writing
/// `delta` for `rate - 1/2`, a lack of one match divides `delta` by `13/10`,
/// a lack of two by `16/10`, and a lack of `l >= 3` by `l`. Each clause is
/// the corresponding rational equation `chance - 1/2 == delta / divisor`
/// cleared of fractions, with `num`/`den` the chance and `w`/`m` the counts:
/// `(2*num - den) * divisor_num * (2*m) == (2*w - m) * divisor_den * (2*den)`.
pub proof fn lemma_chance_damping(w: int, m: int, t: int)
    requires
        0 <= w <= m,
        1 <= m < t,
    ensures
        t - m == 1 ==> (2 * chance_num(w, m, t) - chance_den(m, t)) * 13 * (2 * m) == (2 * w - m)
            * 10 * (2 * chance_den(m, t)),
        t - m == 2 ==> (2 * chance_num(w, m, t) - chance_den(m, t)) * 16 * (2 * m) == (2 * w - m)
            * 10 * (2 * chance_den(m, t)),
        t - m >= 3 ==> (2 * chance_num(w, m, t) - chance_den(m, t)) * (t - m) * (2 * m) == (2 * w
            - m) * (2 * chance_den(m, t)),
{
    let lack = t - m;
    if lack == 1 {
        assert((2 * (3 * m + 20 * w) - 26 * m) * 13 * (2 * m) == (2 * w - m) * 10 * (2 * (26 * m)))
            by (nonlinear_arith);
    } else if lack == 2 {
        assert((2 * (6 * m + 20 * w) - 32 * m) * 16 * (2 * m) == (2 * w - m) * 10 * (2 * (32 * m)))
            by (nonlinear_arith);
    } else {
        assert((2 * (m * (lack - 1) + 2 * w) - 2 * m * lack) * lack * (2 * m) == (2 * w - m) * (2
            * (2 * m * lack))) by (nonlinear_arith);
    }
}

/// For a well-formed accumulator and a threshold in the supported range,
/// the exact chance fraction fits in 64 bits and is proper.
pub proof fn lemma_chance_fits(w: u64, m: u64, t: u64)
    requires
        w <= m,
        1 <= t <= 0x8000_0000,
    ensures
        0 <= chance_num(w as int, m as int, t as int) <= chance_den(m as int, t as int)
            <= u64::MAX,
        1 <= chance_den(m as int, t as int),
{
    lemma_chance_bounded(w as int, m as int, t as int);
    lemma_chance_den_pos(m as int, t as int);
    if m > 0 && m < t {
        let lack = t - m;
        if lack >= 3 {
            assert(2 * (m as int) * (lack as int) <= u64::MAX) by (nonlinear_arith)
                requires
                    1 <= m,
                    3 <= lack,
                    m + lack <= 0x8000_0000,
            ;
        }
    }
}

/// The chance denominator is positive for every count, so comparing chances
/// by cross multiplication is always meaningful.
pub proof fn lemma_chance_den_pos(m: int, t: int)
    requires
        m >= 0,
    ensures
        chance_den(m, t) >= 1,
{
    if m == 0 {
    } else if m < t {
        let lack = t - m;
        if lack == 1 {
        } else if lack == 2 {
        } else {
            assert(2 * m * lack >= 1) by (nonlinear_arith)
                requires
                    m >= 1,
                    lack >= 3,
            ;
        }
    } else {
    }
}

/// The win chance of an accumulator, as a ratio value (meaningful whenever
/// the numerator and denominator are within 64-bit range, which
/// [`WinRateInfo::get_win_chance`]'s bounds guarantee).
pub open spec fn spec_chance(info: WinRateInfo, threshold: int) -> Ratio {
    Ratio {
        num: chance_num(
            info.count_of_wins as int,
            info.count_of_matches as int,
            threshold,
        ) as u64,
        den: chance_den(info.count_of_matches as int, threshold) as u64,
    }
}

/// `a`'s win chance is at most `b`'s, as exact rationals (cross
/// multiplication; both denominators are always positive).
pub open spec fn chance_le_spec(a: WinRateInfo, b: WinRateInfo, threshold: int) -> bool {
    chance_num(a.count_of_wins as int, a.count_of_matches as int, threshold) * chance_den(
        b.count_of_matches as int,
        threshold,
    ) <= chance_num(b.count_of_wins as int, b.count_of_matches as int, threshold) * chance_den(
        a.count_of_matches as int,
        threshold,
    )
}

/// Compares the win chances of two accumulators as exact rationals.
pub fn chance_le(a: &WinRateInfo, b: &WinRateInfo, threshold: u64) -> (r: bool)
    requires
        a.wf(),
        b.wf(),
        1 <= threshold <= 0x8000_0000,
    ensures
        r == chance_le_spec(*a, *b, threshold as int),
{
    let ca = a.get_win_chance(threshold);
    let cb = b.get_win_chance(threshold);
    ca.le(&cb)
}

/// One line of a matchup report: the champion name, the confidence-adjusted
/// chance, the raw win ratio, and the number of matches behind them.
pub open spec fn spec_matchup_line(
    name: Seq<char>,
    info: WinRateInfo,
    indentation: Seq<char>,
    threshold: int,
) -> Seq<char> {
    indentation + name + " "@ + " chance "@ + spec_format_percent(spec_chance(info, threshold))
        + " ratio "@ + spec_format_ratio(info.count_of_wins as int, info.count_of_matches as int)
        + " of "@ + dec_digits(info.count_of_matches as int) + seq!['\n']
}

/// One matchup line per entry, in order.
pub open spec fn spec_matchup_lines(
    list: Seq<(String, WinRateInfo)>,
    indentation: Seq<char>,
    threshold: int,
) -> Seq<char>
    decreases list.len(),
{
    if list.len() == 0 {
        Seq::empty()
    } else {
        spec_matchup_line(list[0].0@, list[0].1, indentation, threshold) + spec_matchup_lines(
            list.drop_first(),
            indentation,
            threshold,
        )
    }
}

/// Extending the list by one entry extends the rendered lines by that
/// entry's line.
proof fn lemma_matchup_lines_push(
    list: Seq<(String, WinRateInfo)>,
    e: (String, WinRateInfo),
    indentation: Seq<char>,
    threshold: int,
)
    ensures
        spec_matchup_lines(list.push(e), indentation, threshold) == spec_matchup_lines(
            list,
            indentation,
            threshold,
        ) + spec_matchup_line(e.0@, e.1, indentation, threshold),
    decreases list.len(),
{
    if list.len() == 0 {
        assert(list.push(e).drop_first() =~= Seq::<(String, WinRateInfo)>::empty());
        assert(list.push(e)[0] == e);
        assert(spec_matchup_lines(list, indentation, threshold) == Seq::<char>::empty());
        assert(spec_matchup_lines(Seq::<(String, WinRateInfo)>::empty(), indentation, threshold)
            == Seq::<char>::empty());
        assert(spec_matchup_lines(list.push(e), indentation, threshold) == spec_matchup_line(
            e.0@,
            e.1,
            indentation,
            threshold,
        ) + Seq::<char>::empty());
        assert(spec_matchup_lines(list.push(e), indentation, threshold) =~= spec_matchup_lines(
            list,
            indentation,
            threshold,
        ) + spec_matchup_line(e.0@, e.1, indentation, threshold));
    } else {
        assert(list.push(e).drop_first() =~= list.drop_first().push(e));
        lemma_matchup_lines_push(list.drop_first(), e, indentation, threshold);
        assert(list.push(e)[0] == list[0]);
        assert(spec_matchup_lines(list.push(e), indentation, threshold) == spec_matchup_line(
            list[0].0@,
            list[0].1,
            indentation,
            threshold,
        ) + (spec_matchup_lines(list.drop_first(), indentation, threshold) + spec_matchup_line(
            e.0@,
            e.1,
            indentation,
            threshold,
        )));
        assert(spec_matchup_lines(list.push(e), indentation, threshold) =~= spec_matchup_lines(
            list,
            indentation,
            threshold,
        ) + spec_matchup_line(e.0@, e.1, indentation, threshold));
    }
}

impl WinRateInfo {
    /// Renders one line per named accumulator: name, adjusted chance, raw
    /// ratio, and match count, each line prefixed with `indentation`.
    pub fn format_list_of_named(
        list: &Vec<(String, WinRateInfo)>,
        indentation: &str,
        threshold: u64,
    ) -> (r: String)
        requires
            forall|i: int| 0 <= i < list@.len() ==> (#[trigger] list@[i].1).wf(),
            1 <= threshold <= 0x8000_0000,
        ensures
            r@ == spec_matchup_lines(list@, indentation@, threshold as int),
    {
        let ghost s = list@;
        let mut text = String::new();
        proof {
            assert(text@ =~= spec_matchup_lines(s.take(0), indentation@, threshold as int));
        }
        let mut i: usize = 0;
        while i < list.len()
            invariant
                0 <= i <= list.len(),
                s == list@,
                forall|j: int| 0 <= j < s.len() ==> (#[trigger] s[j].1).wf(),
                1 <= threshold <= 0x8000_0000,
                text@ == spec_matchup_lines(s.take(i as int), indentation@, threshold as int),
            decreases list.len() - i,
        {
            let entry = &list[i];
            let chance = entry.1.get_win_chance(threshold);
            text.append(indentation);
            text.append(entry.0.as_str());
            text.append(" ");
            text.append(" chance ");
            text.append(format_percent(&chance).as_str());
            text.append(" ratio ");
            text.append(format_ratio(entry.1.count_of_wins, entry.1.count_of_matches).as_str());
            text.append(" of ");
            text.append(u64_to_string(entry.1.count_of_matches).as_str());
            string_push_char(&mut text, '\n');
            proof {
                lemma_matchup_lines_push(
                    s.take(i as int),
                    s[i as int],
                    indentation@,
                    threshold as int,
                );
                assert(s.take(i as int).push(s[i as int]) =~= s.take(i + 1));
                assert(text@ =~= spec_matchup_lines(s.take(i + 1), indentation@, threshold as int));
            }
            i = i + 1;
        }
        proof {
            assert(s.take(s.len() as int) =~= s);
        }
        text
    }
}

/// The win chance always lies in `[0, 1]`, and strictly between 0 and 1
/// whenever some matches were recorded but fewer than the threshold.
pub proof fn lemma_chance_bounded(w: int, m: int, t: int)
    requires
        0 <= w <= m,
        t >= 1,
    ensures
        0 <= chance_num(w, m, t) <= chance_den(m, t),
        1 <= chance_den(m, t),
        1 <= m < t ==> 0 < chance_num(w, m, t) < chance_den(m, t),
{
    if m == 0 {
    } else if m < t {
        let lack = t - m;
        if lack == 1 {
            assert(0 < 3 * m + 20 * w < 26 * m) by (nonlinear_arith)
                requires
                    0 <= w <= m,
                    1 <= m,
            ;
        } else if lack == 2 {
            assert(0 < 6 * m + 20 * w < 32 * m) by (nonlinear_arith)
                requires
                    0 <= w <= m,
                    1 <= m,
            ;
        } else {
            assert(0 < m * (lack - 1) + 2 * w < 2 * m * lack) by (nonlinear_arith)
                requires
                    0 <= w <= m,
                    1 <= m,
                    3 <= lack,
            ;
        }
    }
}

} // verus!
