//! The per-champion profile: how many matches the player piloted this
//! champion, and one win-rate accumulator per allied and per opposing
//! champion, keyed by champion name.

use vstd::prelude::*;
use vstd::relations::sorted_by;
use vstd::relations::transitive;
use vstd::string::StringExecFns;

use crate::ratio::lemma_rational_le_trans;
use crate::sorting::lemma_insert_all;
use crate::sorting::lemma_insert_at;
use crate::sorting::lemma_sort_multiset;
use crate::sorting::lemma_sort_sorted;
use crate::sorting::spec_insert;
use crate::sorting::spec_sort;
use crate::sorting::total;
use crate::table::find_index;
use crate::table::find_key;
use crate::table::lemma_find_key_props;
use crate::text::dec_digits;
use crate::text::indentation_string;
use crate::text::spec_indentation;
use crate::text::string_push_char;
use crate::text::u64_to_string;
use crate::win_rate_info::chance_le;
use crate::win_rate_info::chance_le_spec;
use crate::win_rate_info::lemma_chance_den_pos;
use crate::win_rate_info::spec_matchup_lines;
use crate::win_rate_info::WinRateInfo;

verus! {

/// Default number of entries shown in each ranked view of the report.
pub const SUMMARY_LIMIT: usize = 6;

/// A name-keyed collection of win-rate accumulators is well formed when its
/// keys are distinct and every accumulator satisfies its own invariant.
pub open spec fn wrmap_wf(s: Seq<(String, WinRateInfo)>) -> bool {
    &&& forall|i: int, j: int|
        0 <= i < j < s.len() ==> (#[trigger] s[i].0)@ != (#[trigger] s[j].0)@
    &&& forall|i: int| 0 <= i < s.len() ==> (#[trigger] s[i].1).wf()
}

/// One step of aggregation on a matchup map: the accumulator for `name` is
/// found or freshly created, and records `win` unless it already holds
/// `cap` matches (the saturation cap).
pub open spec fn spec_record(
    s: Seq<(String, WinRateInfo)>,
    name: String,
    win: bool,
    cap: u64,
) -> Seq<(String, WinRateInfo)> {
    let k = find_key(s, name@, 0);
    let s1 = if k == -1 {
        s.push((name, WinRateInfo { count_of_wins: 0, count_of_matches: 0 }))
    } else {
        s
    };
    let k1 = if k == -1 {
        s.len() as int
    } else {
        k
    };
    let e = s1[k1].1;
    if e.count_of_matches < cap {
        s1.update(
            k1,
            (
                s1[k1].0,
                WinRateInfo {
                    count_of_wins: (e.count_of_wins + if win {
                        1u64
                    } else {
                        0u64
                    }) as u64,
                    count_of_matches: (e.count_of_matches + 1) as u64,
                },
            ),
        )
    } else {
        s1
    }
}

/// Aggregation preserves well-formedness of a matchup map.
pub proof fn lemma_spec_record_wf(s: Seq<(String, WinRateInfo)>, name: String, win: bool, cap: u64)
    requires
        wrmap_wf(s),
    ensures
        wrmap_wf(spec_record(s, name, win, cap)),
{
    lemma_find_key_props(s, name@, 0);
}

/// Saturation: once a matchup's accumulator holds at least `cap` matches,
/// recording further observations of that matchup changes nothing — neither
/// its wins nor its matches nor any other entry.
pub proof fn lemma_record_saturated(
    s: Seq<(String, WinRateInfo)>,
    name: String,
    win: bool,
    cap: u64,
)
    requires
        ({
            let k = find_key(s, name@, 0);
            k != -1 && s[k].1.count_of_matches >= cap
        }),
    ensures
        spec_record(s, name, win, cap) == s,
{
    lemma_find_key_props(s, name@, 0);
}

/// Looks up the accumulator for `champion_name`, creating a fresh one if the
/// map has no entry for it yet, and hands back exclusive access to it.
fn get_or_create<'a>(
    map: &'a mut Vec<(String, WinRateInfo)>,
    champion_name: &String,
) -> (info: &'a mut WinRateInfo)
    ensures
        ({
            let s = old(map)@;
            let k = find_key(s, champion_name@, 0);
            &&& if k == -1 {
                &&& *info == (WinRateInfo { count_of_wins: 0, count_of_matches: 0 })
                &&& final(map)@ == s.push((*champion_name, *final(info)))
            } else {
                &&& *info == s[k].1
                &&& final(map)@ == s.update(k, (s[k].0, *final(info)))
            }
        }),
{
    let ghost s = map@;
    let idx: usize = match find_index(map, champion_name) {
        Some(i) => i,
        None => {
            let i = map.len();
            map.push((champion_name.clone(), WinRateInfo::new()));
            i
        },
    };
    proof {
        lemma_find_key_props(s, champion_name@, 0);
    }
    let entry = &mut map[idx];
    &mut entry.1
}

/// Records one observation of the matchup `champion_name` in `map`: the
/// accumulator is found or created, and counts `win` unless it is already
/// saturated at `cap` matches.
fn record_matchup(map: &mut Vec<(String, WinRateInfo)>, champion_name: &String, win: bool, cap: u64)
    requires
        wrmap_wf(old(map)@),
    ensures
        final(map)@ == spec_record(old(map)@, *champion_name, win, cap),
        wrmap_wf(final(map)@),
{
    let ghost s = map@;
    proof {
        lemma_find_key_props(s, champion_name@, 0);
    }
    let info = get_or_create(map, champion_name);
    if info.get_count_of_matches() < cap {
        info.add(win);
    }
    proof {
        let k = find_key(s, champion_name@, 0);
        if k == -1 {
            assert(map@ =~= spec_record(s, *champion_name, win, cap));
        } else {
            assert(map@ =~= spec_record(s, *champion_name, win, cap));
        }
        lemma_spec_record_wf(s, *champion_name, win, cap);
    }
}

/// Holds of an entry whose accumulator has at least `threshold` matches,
/// the statistical-significance floor for appearing in a ranked view.
pub open spec fn significant(threshold: u64) -> spec_fn((String, WinRateInfo)) -> bool {
    |p: (String, WinRateInfo)| p.1.count_of_matches >= threshold
}

/// Orders two entries by their confidence-adjusted win chance.
pub open spec fn by_chance(threshold: u64) -> spec_fn(
    (String, WinRateInfo),
    (String, WinRateInfo),
) -> bool {
    |a: (String, WinRateInfo), b: (String, WinRateInfo)|
        chance_le_spec(a.1, b.1, threshold as int)
}

/// The ranked view of a matchup map: entries with at least `threshold`
/// matches, stably sorted by ascending win chance.
pub open spec fn spec_significant_list(
    s: Seq<(String, WinRateInfo)>,
    threshold: u64,
) -> Seq<(String, WinRateInfo)> {
    spec_sort(s.filter(significant(threshold)), by_chance(threshold))
}

/// Ordering entries by win chance is a total, transitive relation.
pub proof fn lemma_by_chance_preorder(threshold: u64)
    ensures
        total(by_chance(threshold)),
        transitive(by_chance(threshold)),
{
    let leq = by_chance(threshold);
    let t = threshold as int;
    assert forall|a: (String, WinRateInfo), b: (String, WinRateInfo)| #[trigger]
        leq(a, b) || #[trigger] leq(b, a) by {
        assert(chance_le_spec(a.1, b.1, t) || chance_le_spec(b.1, a.1, t));
    }
    assert forall|a: (String, WinRateInfo), b: (String, WinRateInfo), c: (String, WinRateInfo)|
        #[trigger] leq(a, b) && #[trigger] leq(b, c) implies #[trigger] leq(a, c) by {
        lemma_chance_den_pos(a.1.count_of_matches as int, t);
        lemma_chance_den_pos(b.1.count_of_matches as int, t);
        lemma_chance_den_pos(c.1.count_of_matches as int, t);
        lemma_rational_le_trans(
            crate::win_rate_info::chance_num(
                a.1.count_of_wins as int,
                a.1.count_of_matches as int,
                t,
            ),
            crate::win_rate_info::chance_den(a.1.count_of_matches as int, t),
            crate::win_rate_info::chance_num(
                b.1.count_of_wins as int,
                b.1.count_of_matches as int,
                t,
            ),
            crate::win_rate_info::chance_den(b.1.count_of_matches as int, t),
            crate::win_rate_info::chance_num(
                c.1.count_of_wins as int,
                c.1.count_of_matches as int,
                t,
            ),
            crate::win_rate_info::chance_den(c.1.count_of_matches as int, t),
        );
    }
}

/// Ranking: the significant list is sorted by ascending win chance and
/// holds exactly the entries of the map that meet the significance floor.
pub proof fn lemma_significant_list_ranked(s: Seq<(String, WinRateInfo)>, threshold: u64)
    ensures
        sorted_by(spec_significant_list(s, threshold), by_chance(threshold)),
        spec_significant_list(s, threshold).to_multiset() == s.filter(
            significant(threshold),
        ).to_multiset(),
        spec_significant_list(s, threshold).len() == s.filter(significant(threshold)).len(),
{
    lemma_by_chance_preorder(threshold);
    lemma_sort_sorted(s.filter(significant(threshold)), by_chance(threshold));
    lemma_sort_multiset(s.filter(significant(threshold)), by_chance(threshold));
}

/// Inserts `x` into a list sorted by ascending win chance, scanning from the
/// right, so that existing entries with the same chance keep their place.
fn insert_by_chance(v: &mut Vec<(String, WinRateInfo)>, x: (String, WinRateInfo), threshold: u64)
    requires
        forall|i: int| 0 <= i < old(v)@.len() ==> (#[trigger] old(v)@[i].1).wf(),
        x.1.wf(),
        1 <= threshold <= 0x8000_0000,
    ensures
        final(v)@ == spec_insert(old(v)@, x, by_chance(threshold)),
        forall|i: int| 0 <= i < final(v)@.len() ==> (#[trigger] final(v)@[i].1).wf(),
{
    let ghost s = v@;
    let ghost leq = by_chance(threshold);
    let mut j: usize = v.len();
    loop
        invariant
            0 <= j <= v.len(),
            s == v@,
            leq == by_chance(threshold),
            forall|i: int| 0 <= i < s.len() ==> (#[trigger] s[i].1).wf(),
            x.1.wf(),
            1 <= threshold <= 0x8000_0000,
            forall|l: int| j <= l < s.len() ==> !leq(#[trigger] s[l], x),
        ensures
            s == v@,
            0 <= j <= s.len(),
            j > 0 ==> leq(s[j - 1], x),
            forall|l: int| j <= l < s.len() ==> !leq(#[trigger] s[l], x),
        decreases j,
    {
        if j == 0 {
            break ;
        }
        proof {
            assert(leq(s[j - 1], x) == chance_le_spec(s[j - 1].1, x.1, threshold as int));
        }
        if chance_le(&v[j - 1].1, &x.1, threshold) {
            break ;
        }
        j = j - 1;
    }
    proof {
        lemma_insert_at(s, x, leq, j as int);
        lemma_insert_all(s, x, leq, |e: (String, WinRateInfo)| e.1.wf());
    }
    v.insert(j, x);
    proof {
        assert(v@ =~= spec_insert(s, x, leq));
    }
}

/// The entries of `source` with at least `threshold` matches, sorted by
/// ascending win chance (see [`spec_significant_list`]).
pub fn get_significant_list(source: &Vec<(String, WinRateInfo)>, threshold: u64) -> (r: Vec<
    (String, WinRateInfo),
>)
    requires
        forall|i: int| 0 <= i < source@.len() ==> (#[trigger] source@[i].1).wf(),
        1 <= threshold <= 0x8000_0000,
    ensures
        r@ == spec_significant_list(source@, threshold),
        forall|i: int| 0 <= i < r@.len() ==> (#[trigger] r@[i].1).wf(),
{
    let ghost s = source@;
    let ghost pred = significant(threshold);
    let mut filtered: Vec<(String, WinRateInfo)> = Vec::new();
    proof {
        assert(s.take(0) =~= Seq::<(String, WinRateInfo)>::empty());
        reveal_with_fuel(Seq::filter, 1);
        assert(filtered@ =~= s.take(0).filter(pred));
    }
    let mut i: usize = 0;
    while i < source.len()
        invariant
            0 <= i <= source.len(),
            s == source@,
            pred == significant(threshold),
            forall|l: int| 0 <= l < s.len() ==> (#[trigger] s[l].1).wf(),
            filtered@ == s.take(i as int).filter(pred),
            forall|l: int| 0 <= l < filtered@.len() ==> (#[trigger] filtered@[l].1).wf(),
        decreases source.len() - i,
    {
        let entry = &source[i];
        proof {
            assert(pred(s[i as int]) == (s[i as int].1.count_of_matches >= threshold));
        }
        if entry.1.get_count_of_matches() >= threshold {
            filtered.push((entry.0.clone(), entry.1));
            proof {
                assert(filtered@.last() == s[i as int]);
            }
        }
        proof {
            s.take(i as int).lemma_filter_push(s[i as int], pred);
            assert(s.take(i as int).push(s[i as int]) =~= s.take(i + 1));
            assert(filtered@ =~= s.take(i + 1).filter(pred));
        }
        i = i + 1;
    }
    proof {
        assert(s.take(s.len() as int) =~= s);
    }
    let ghost f = filtered@;
    let mut result: Vec<(String, WinRateInfo)> = Vec::new();
    proof {
        assert(f.take(0) =~= Seq::<(String, WinRateInfo)>::empty());
        assert(result@ =~= spec_sort(f.take(0), by_chance(threshold)));
    }
    let mut k: usize = 0;
    while k < filtered.len()
        invariant
            0 <= k <= filtered.len(),
            f == filtered@,
            forall|l: int| 0 <= l < f.len() ==> (#[trigger] f[l].1).wf(),
            result@ == spec_sort(f.take(k as int), by_chance(threshold)),
            forall|l: int| 0 <= l < result@.len() ==> (#[trigger] result@[l].1).wf(),
            1 <= threshold <= 0x8000_0000,
        decreases filtered.len() - k,
    {
        let entry = &filtered[k];
        insert_by_chance(&mut result, (entry.0.clone(), entry.1), threshold);
        proof {
            assert(f.take(k + 1).drop_last() =~= f.take(k as int));
            assert(f.take(k + 1).last() == f[k as int]);
        }
        k = k + 1;
    }
    proof {
        assert(f.take(f.len() as int) =~= f);
    }
    result
}

/// The first `limit` entries of a ranked list, or, in reverse, the last
/// `limit` entries read backwards; fewer if the list is shorter.
pub open spec fn spec_top_selection(
    s: Seq<(String, WinRateInfo)>,
    reverse: bool,
    limit: int,
) -> Seq<(String, WinRateInfo)> {
    let n = if s.len() <= limit {
        s.len() as int
    } else {
        limit
    };
    if reverse {
        Seq::new(n as nat, |i: int| s[s.len() - 1 - i])
    } else {
        s.take(n)
    }
}

/// Copies out the bounded view of a ranked list described by
/// [`spec_top_selection`].
fn take_top(sorted: &Vec<(String, WinRateInfo)>, reverse: bool, limit: usize) -> (r: Vec<
    (String, WinRateInfo),
>)
    ensures
        r@ == spec_top_selection(sorted@, reverse, limit as int),
{
    let ghost s = sorted@;
    let n: usize = if sorted.len() <= limit {
        sorted.len()
    } else {
        limit
    };
    let mut r: Vec<(String, WinRateInfo)> = Vec::new();
    let mut i: usize = 0;
    while i < n
        invariant
            0 <= i <= n <= sorted.len(),
            s == sorted@,
            n == if s.len() <= limit {
                s.len() as int
            } else {
                limit as int
            },
            r@.len() == i,
            forall|l: int|
                0 <= l < i ==> r@[l] == (if reverse {
                    s[s.len() - 1 - l]
                } else {
                    s[l]
                }),
        decreases n - i,
    {
        let src: usize = if reverse {
            sorted.len() - 1 - i
        } else {
            i
        };
        let entry = &sorted[src];
        r.push((entry.0.clone(), entry.1));
        i = i + 1;
    }
    proof {
        assert(r@ =~= spec_top_selection(s, reverse, limit as int));
    }
    r
}

/// The text of one ranked view: its title, the number of entries shown, and
/// one matchup line per entry.
pub open spec fn spec_top_summary_text(
    title: Seq<char>,
    sorted: Seq<(String, WinRateInfo)>,
    reverse: bool,
    threshold: u64,
    limit: int,
) -> Seq<char> {
    let sel = spec_top_selection(sorted, reverse, limit);
    title + ": "@ + dec_digits(sel.len() as int) + seq!['\n'] + spec_matchup_lines(
        sel,
        spec_indentation(),
        threshold as int,
    )
}

/// Renders one ranked view: `title`, a count, then the first (or, in
/// reverse, the last) `limit` entries of `sorted_champions`, one line each.
pub fn format_top_summary_list(
    title: &str,
    sorted_champions: &Vec<(String, WinRateInfo)>,
    reverse: bool,
    threshold: u64,
    limit: usize,
) -> (r: String)
    requires
        forall|i: int|
            0 <= i < sorted_champions@.len() ==> (#[trigger] sorted_champions@[i].1).wf(),
        1 <= threshold <= 0x8000_0000,
    ensures
        r@ == spec_top_summary_text(title@, sorted_champions@, reverse, threshold, limit as int),
{
    let relevant = take_top(sorted_champions, reverse, limit);
    proof {
        let sel = spec_top_selection(sorted_champions@, reverse, limit as int);
        assert forall|i: int| 0 <= i < relevant@.len() implies (#[trigger] relevant@[i].1).wf() by {
            if reverse {
                assert(relevant@[i] == sorted_champions@[sorted_champions@.len() - 1 - i]);
            } else {
                assert(relevant@[i] == sorted_champions@[i]);
            }
        }
    }
    let mut text = String::new();
    text.append(title);
    text.append(": ");
    text.append(u64_to_string(relevant.len() as u64).as_str());
    string_push_char(&mut text, '\n');
    text.append(
        WinRateInfo::format_list_of_named(&relevant, indentation_string(), threshold).as_str(),
    );
    proof {
        assert(text@ =~= spec_top_summary_text(
            title@,
            sorted_champions@,
            reverse,
            threshold,
            limit as int,
        ));
    }
    text
}

/// The text of one champion's summary: its match count and the four ranked
/// views (best and worst allies, easiest and worst enemies).
pub open spec fn spec_summary_text(ci: ChampionInfo, threshold: u64, limit: int) -> Seq<char> {
    let allies = spec_significant_list(ci.win_rates_with_champions@, threshold);
    let enemies = spec_significant_list(ci.win_rates_vs_champions@, threshold);
    "count of matches: "@ + dec_digits(ci.count_of_matches as int) + seq!['\n']
        + spec_top_summary_text("best allies"@, allies, true, threshold, limit)
        + spec_top_summary_text("worst allies"@, allies, false, threshold, limit)
        + spec_top_summary_text("easiest enemies"@, enemies, true, threshold, limit)
        + spec_top_summary_text("worst enemies"@, enemies, false, threshold, limit)
}

/// The mathematical content of a [`ChampionInfo`]: its match count and the
/// two matchup maps as sequences of entries.
pub struct ChampionView {
    pub count_of_matches: u64,
    pub vs: Seq<(String, WinRateInfo)>,
    pub with_team: Seq<(String, WinRateInfo)>,
}

/// Aggregated results for one champion the player piloted.
pub struct ChampionInfo {
    /// Number of match records in which the player piloted this champion.
    pub count_of_matches: u64,
    /// One accumulator per opposing champion, keyed by champion name.
    pub win_rates_vs_champions: Vec<(String, WinRateInfo)>,
    /// One accumulator per allied champion, keyed by champion name.
    pub win_rates_with_champions: Vec<(String, WinRateInfo)>,
}

impl View for ChampionInfo {
    type V = ChampionView;

    open spec fn view(&self) -> ChampionView {
        ChampionView {
            count_of_matches: self.count_of_matches,
            vs: self.win_rates_vs_champions@,
            with_team: self.win_rates_with_champions@,
        }
    }
}

impl ChampionInfo {
    /// Both matchup maps have distinct keys and well-formed accumulators.
    pub open spec fn wf(&self) -> bool {
        &&& wrmap_wf(self.win_rates_vs_champions@)
        &&& wrmap_wf(self.win_rates_with_champions@)
    }

    pub fn new() -> (r: ChampionInfo)
        ensures
            r.count_of_matches == 0,
            r.win_rates_vs_champions@ == Seq::<(String, WinRateInfo)>::empty(),
            r.win_rates_with_champions@ == Seq::<(String, WinRateInfo)>::empty(),
            r.wf(),
    {
        ChampionInfo {
            count_of_matches: 0,
            win_rates_vs_champions: Vec::new(),
            win_rates_with_champions: Vec::new(),
        }
    }

    /// The accumulator for matches against `champion_name`, created empty on
    /// first sight (the explicit get-or-create operation of the data model).
    pub fn get_win_rate_vs<'a>(&'a mut self, champion_name: &String) -> (info: &'a mut WinRateInfo)
        ensures
            final(self).count_of_matches == old(self).count_of_matches,
            final(self).win_rates_with_champions == old(self).win_rates_with_champions,
            ({
                let s = old(self).win_rates_vs_champions@;
                let k = find_key(s, champion_name@, 0);
                &&& if k == -1 {
                    &&& *info == (WinRateInfo { count_of_wins: 0, count_of_matches: 0 })
                    &&& final(self).win_rates_vs_champions@ == s.push(
                        (*champion_name, *final(info)),
                    )
                } else {
                    &&& *info == s[k].1
                    &&& final(self).win_rates_vs_champions@ == s.update(
                        k,
                        (s[k].0, *final(info)),
                    )
                }
            }),
    {
        get_or_create(&mut self.win_rates_vs_champions, champion_name)
    }

    /// The accumulator for matches alongside `champion_name`, created empty
    /// on first sight.
    pub fn get_win_rate_with<'a>(&'a mut self, champion_name: &String) -> (info:
        &'a mut WinRateInfo)
        ensures
            final(self).count_of_matches == old(self).count_of_matches,
            final(self).win_rates_vs_champions == old(self).win_rates_vs_champions,
            ({
                let s = old(self).win_rates_with_champions@;
                let k = find_key(s, champion_name@, 0);
                &&& if k == -1 {
                    &&& *info == (WinRateInfo { count_of_wins: 0, count_of_matches: 0 })
                    &&& final(self).win_rates_with_champions@ == s.push(
                        (*champion_name, *final(info)),
                    )
                } else {
                    &&& *info == s[k].1
                    &&& final(self).win_rates_with_champions@ == s.update(
                        k,
                        (s[k].0, *final(info)),
                    )
                }
            }),
    {
        get_or_create(&mut self.win_rates_with_champions, champion_name)
    }

    /// Records one match against `champion_name` with outcome `win`, unless
    /// that matchup is already saturated at `cap` matches.
    pub fn record_vs(&mut self, champion_name: &String, win: bool, cap: u64)
        requires
            wrmap_wf(old(self).win_rates_vs_champions@),
        ensures
            final(self).count_of_matches == old(self).count_of_matches,
            final(self).win_rates_with_champions == old(self).win_rates_with_champions,
            final(self).win_rates_vs_champions@ == spec_record(
                old(self).win_rates_vs_champions@,
                *champion_name,
                win,
                cap,
            ),
            wrmap_wf(final(self).win_rates_vs_champions@),
    {
        record_matchup(&mut self.win_rates_vs_champions, champion_name, win, cap)
    }

    /// Records one match alongside `champion_name` with outcome `win`,
    /// unless that matchup is already saturated at `cap` matches.
    pub fn record_with(&mut self, champion_name: &String, win: bool, cap: u64)
        requires
            wrmap_wf(old(self).win_rates_with_champions@),
        ensures
            final(self).count_of_matches == old(self).count_of_matches,
            final(self).win_rates_vs_champions == old(self).win_rates_vs_champions,
            final(self).win_rates_with_champions@ == spec_record(
                old(self).win_rates_with_champions@,
                *champion_name,
                win,
                cap,
            ),
            wrmap_wf(final(self).win_rates_with_champions@),
    {
        record_matchup(&mut self.win_rates_with_champions, champion_name, win, cap)
    }

    /// Renders this champion's full summary: its match count, then the four
    /// ranked views (best and worst allies, easiest and worst enemies).
    pub fn get_summary_text(&self, threshold: u64, limit: usize) -> (r: String)
        requires
            self.wf(),
            1 <= threshold <= 0x8000_0000,
        ensures
            r@ == spec_summary_text(*self, threshold, limit as int),
    {
        let mut text = String::new();
        text.append("count of matches: ");
        text.append(u64_to_string(self.count_of_matches).as_str());
        string_push_char(&mut text, '\n');
        let allies = get_significant_list(&self.win_rates_with_champions, threshold);
        text.append(
            format_top_summary_list("best allies", &allies, true, threshold, limit).as_str(),
        );
        text.append(
            format_top_summary_list("worst allies", &allies, false, threshold, limit).as_str(),
        );
        let enemies = get_significant_list(&self.win_rates_vs_champions, threshold);
        text.append(
            format_top_summary_list("easiest enemies", &enemies, true, threshold, limit).as_str(),
        );
        text.append(
            format_top_summary_list("worst enemies", &enemies, false, threshold, limit).as_str(),
        );
        proof {
            assert(text@ =~= spec_summary_text(*self, threshold, limit as int));
        }
        text
    }

    /// The map of opposing-champion accumulators.
    pub fn get_win_rates_vs_champions(&self) -> (r: &Vec<(String, WinRateInfo)>)
        ensures
            r == &self.win_rates_vs_champions,
    {
        &self.win_rates_vs_champions
    }

    /// The map of allied-champion accumulators.
    pub fn get_win_rates_with_champions(&self) -> (r: &Vec<(String, WinRateInfo)>)
        ensures
            r == &self.win_rates_with_champions,
    {
        &self.win_rates_with_champions
    }
}

} // verus!
