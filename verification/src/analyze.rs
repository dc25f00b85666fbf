//! The aggregation engine: walks an ordered sequence of match records,
//! bounded by a recency window, and builds one [`ChampionInfo`] per champion
//! the target player piloted. Also the summary and composition-score
//! reports over the aggregated state.

use fuzzy_matcher::skim::SkimMatcherV2;
use fuzzy_matcher::FuzzyMatcher;
use vstd::prelude::*;
use vstd::relations::sorted_by;
use vstd::string::StringExecFns;

use crate::champion_info::spec_record;
use crate::champion_info::spec_summary_text;
use crate::champion_info::wrmap_wf;
use crate::champion_info::ChampionInfo;
use crate::champion_info::ChampionView;
use crate::sorting::lemma_insert_all;
use crate::sorting::lemma_insert_at;
use crate::sorting::lemma_sort_multiset;
use crate::sorting::lemma_sort_sorted;
use crate::sorting::spec_insert;
use crate::sorting::spec_sort;
use crate::table::find_index;
use crate::table::find_key;
use crate::table::lemma_find_key_props;
use crate::table::lemma_find_key_push;
use crate::table::lemma_find_key_update;
use crate::text::dec_digits;
use crate::text::format_ratio;
use crate::text::indent_string;
use crate::text::spec_format_ratio;
use crate::text::spec_indent;
use crate::text::spec_indentation;
use crate::text::string_push_char;
use crate::text::u128_to_string;
use crate::text::u64_to_string;
use crate::win_rate_info::spec_chance;
use crate::win_rate_info::WinRateInfo;

verus! {

/// Default saturation cap: once a matchup holds this many matches, further
/// observations of it are ignored for the rest of the run.
pub const STATISTICAL_SATURATION_THRESHOLD: u64 = 12;

/// One player's entry in a match record.
pub struct Participant {
    /// The champion this participant piloted.
    pub champion_name: String,
    /// The participant's player identity.
    pub summoner_id: String,
    /// Which side the participant played on; only equality between two
    /// participants' team identifiers matters.
    pub team_id: u64,
    /// Whether this participant's team won the match.
    pub win: bool,
}

/// One raw match record: when the match was created, in milliseconds since
/// the epoch, and who took part.
pub struct MatchRecord {
    pub game_creation: i64,
    pub participants: Vec<Participant>,
}

/// Whether a participant is on the given team (`equal`) or on the opposing
/// team (`!equal`).
pub open spec fn team_matches(p: Participant, team_id: u64, equal: bool) -> bool {
    if equal {
        p.team_id == team_id
    } else {
        p.team_id != team_id
    }
}

/// The indices, in order, of the participants from position `i` on that are
/// on the given team (`equal`) or on the opposing team (`!equal`).
pub open spec fn team_indices(
    parts: Seq<Participant>,
    team_id: u64,
    equal: bool,
    i: int,
) -> Seq<usize>
    decreases parts.len() - i,
{
    if i < 0 || i >= parts.len() {
        Seq::empty()
    } else {
        let rest = team_indices(parts, team_id, equal, i + 1);
        if team_matches(parts[i], team_id, equal) {
            seq![i as usize] + rest
        } else {
            rest
        }
    }
}

/// Every index selected by [`team_indices`] is a valid position in the
/// participant list, and its participant is on the requested side.
pub proof fn lemma_team_indices_sound(parts: Seq<Participant>, team_id: u64, equal: bool, i: int)
    requires
        parts.len() <= usize::MAX,
    ensures
        forall|k: int|
            0 <= k < team_indices(parts, team_id, equal, i).len() ==> {
                let idx = #[trigger] team_indices(parts, team_id, equal, i)[k];
                &&& 0 <= idx < parts.len()
                &&& team_matches(parts[idx as int], team_id, equal)
            },
    decreases parts.len() - i,
{
    if i < 0 || i >= parts.len() {
    } else {
        lemma_team_indices_sound(parts, team_id, equal, i + 1);
        let rest = team_indices(parts, team_id, equal, i + 1);
        let r = team_indices(parts, team_id, equal, i);
        if team_matches(parts[i], team_id, equal) {
            assert(r == seq![i as usize] + rest);
            assert(r[0] == i as usize);
            assert forall|k: int| 0 <= k < r.len() implies {
                let idx = #[trigger] r[k];
                &&& 0 <= idx < parts.len()
                &&& team_matches(parts[idx as int], team_id, equal)
            } by {
                if k >= 1 {
                    assert(r[k] == rest[k - 1]);
                }
            }
        } else {
            assert(r == rest);
        }
    }
}

/// The participants on the given team (`equal` true) or on the opposing
/// team (`equal` false), as indices into the participant list, in order.
pub fn find_participants_by_team_id(participants: &Vec<Participant>, team_id: u64, equal: bool) -> (r:
    Vec<usize>)
    ensures
        r@ == team_indices(participants@, team_id, equal, 0),
{
    let ghost parts = participants@;
    let mut r: Vec<usize> = Vec::new();
    let mut i: usize = 0;
    while i < participants.len()
        invariant
            0 <= i <= parts.len(),
            parts == participants@,
            team_indices(parts, team_id, equal, 0) == r@ + team_indices(
                parts,
                team_id,
                equal,
                i as int,
            ),
        decreases participants.len() - i,
    {
        let p = &participants[i];
        let is_matched = equal && team_id == p.team_id || !equal && team_id != p.team_id;
        if is_matched {
            r.push(i);
            proof {
                assert(team_indices(parts, team_id, equal, i as int) =~= seq![i as usize]
                    + team_indices(parts, team_id, equal, i + 1));
                assert(r@ + team_indices(parts, team_id, equal, i + 1) =~= r@.drop_last() + (seq![
                    i as usize,
                ] + team_indices(parts, team_id, equal, i + 1)));
            }
        } else {
            proof {
                assert(team_indices(parts, team_id, equal, i as int) == team_indices(
                    parts,
                    team_id,
                    equal,
                    i + 1,
                ));
            }
        }
        i = i + 1;
    }
    proof {
        assert(team_indices(parts, team_id, equal, i as int) =~= Seq::<usize>::empty());
        assert(r@ =~= r@ + Seq::<usize>::empty());
    }
    r
}

/// The champion map as a sequence of name/view pairs.
pub open spec fn champs_view(s: Seq<(String, ChampionInfo)>) -> Seq<(String, ChampionView)> {
    s.map_values(|p: (String, ChampionInfo)| (p.0, p.1@))
}

/// The champion map is well formed: distinct champion names, each profile
/// well formed.
pub open spec fn champs_wf(s: Seq<(String, ChampionInfo)>) -> bool {
    &&& forall|i: int, j: int|
        0 <= i < j < s.len() ==> (#[trigger] s[i].0)@ != (#[trigger] s[j].0)@
    &&& forall|i: int| 0 <= i < s.len() ==> (#[trigger] s[i].1).wf()
}

/// Taking the view of a champion map keeps its keys, so lookups agree.
proof fn lemma_find_key_view(s: Seq<(String, ChampionInfo)>, k: Seq<char>, i: int)
    requires
        0 <= i,
    ensures
        find_key(champs_view(s), k, i) == find_key(s, k, i),
    decreases s.len() - i,
{
    if i >= s.len() {
    } else {
        assert(champs_view(s)[i] == (s[i].0, s[i].1@));
        lemma_find_key_view(s, k, i + 1);
    }
}

/// A counter that can no longer grow stays put: incrementing saturates at
/// the largest representable value.
pub open spec fn inc_sat(c: u64) -> u64 {
    if c < u64::MAX {
        (c + 1) as u64
    } else {
        c
    }
}

/// The empty champion view: no matches, no matchups.
pub open spec fn spec_empty_champion() -> ChampionView {
    ChampionView {
        count_of_matches: 0,
        vs: Seq::empty(),
        with_team: Seq::empty(),
    }
}

/// Folds [`spec_record`] over the matchups named by `idxs[i..]`, skipping
/// the participant at index `skip` (the player themself, for ally lists).
pub open spec fn spec_record_matchups_from(
    m: Seq<(String, WinRateInfo)>,
    parts: Seq<Participant>,
    idxs: Seq<usize>,
    i: int,
    skip: int,
    win: bool,
    cap: u64,
) -> Seq<(String, WinRateInfo)>
    decreases idxs.len() - i,
{
    if i < 0 || i >= idxs.len() {
        m
    } else {
        let m1 = if idxs[i] as int == skip {
            m
        } else {
            spec_record(m, parts[idxs[i] as int].champion_name, win, cap)
        };
        spec_record_matchups_from(m1, parts, idxs, i + 1, skip, win, cap)
    }
}

/// What one participant entry contributes: nothing unless it is the target
/// player; otherwise the player's champion profile gains one match, one
/// ally observation per teammate (the player excluded), and one enemy
/// observation per opponent, all with the participant's own outcome.
pub open spec fn spec_apply_participant(
    state: Seq<(String, ChampionView)>,
    parts: Seq<Participant>,
    j: int,
    target: Seq<char>,
    cap: u64,
) -> Seq<(String, ChampionView)> {
    if 0 <= j < parts.len() && parts[j].summoner_id@ == target {
        let p = parts[j];
        let k = find_key(state, p.champion_name@, 0);
        let s1 = if k == -1 {
            state.push((p.champion_name, spec_empty_champion()))
        } else {
            state
        };
        let k1 = if k == -1 {
            state.len() as int
        } else {
            k
        };
        let cv = s1[k1].1;
        let allies = team_indices(parts, p.team_id, true, 0);
        let enemies = team_indices(parts, p.team_id, false, 0);
        let cv1 = ChampionView {
            count_of_matches: inc_sat(cv.count_of_matches),
            with_team: spec_record_matchups_from(cv.with_team, parts, allies, 0, j, p.win, cap),
            vs: spec_record_matchups_from(cv.vs, parts, enemies, 0, -1, p.win, cap),
        };
        s1.update(k1, (s1[k1].0, cv1))
    } else {
        state
    }
}

/// Folds [`spec_apply_participant`] over the participants from `j` on.
pub open spec fn spec_apply_participants(
    state: Seq<(String, ChampionView)>,
    parts: Seq<Participant>,
    j: int,
    target: Seq<char>,
    cap: u64,
) -> Seq<(String, ChampionView)>
    decreases parts.len() - j,
{
    if j < 0 || j >= parts.len() {
        state
    } else {
        spec_apply_participants(
            spec_apply_participant(state, parts, j, target, cap),
            parts,
            j + 1,
            target,
            cap,
        )
    }
}

/// What one whole match record contributes to the champion map.
pub open spec fn spec_apply_record(
    state: Seq<(String, ChampionView)>,
    rec: MatchRecord,
    target: Seq<char>,
    cap: u64,
) -> Seq<(String, ChampionView)> {
    spec_apply_participants(state, rec.participants@, 0, target, cap)
}

/// Looks up the profile for `name`, creating an empty one if the map has no
/// entry for it yet, and hands back exclusive access to it.
fn get_champion_info<'a>(
    champs: &'a mut Vec<(String, ChampionInfo)>,
    name: &String,
) -> (info: &'a mut ChampionInfo)
    ensures
        ({
            let s = old(champs)@;
            let k = find_key(s, name@, 0);
            &&& if k == -1 {
                &&& (*info).count_of_matches == 0
                &&& (*info).win_rates_vs_champions@ == Seq::<(String, WinRateInfo)>::empty()
                &&& (*info).win_rates_with_champions@ == Seq::<(String, WinRateInfo)>::empty()
                &&& final(champs)@ == s.push((*name, *final(info)))
            } else {
                &&& *info == s[k].1
                &&& final(champs)@ == s.update(k, (s[k].0, *final(info)))
            }
        }),
{
    let ghost s = champs@;
    let idx: usize = match find_index(champs, name) {
        Some(i) => i,
        None => {
            let i = champs.len();
            champs.push((name.clone(), ChampionInfo::new()));
            i
        },
    };
    proof {
        lemma_find_key_props(s, name@, 0);
    }
    let entry = &mut champs[idx];
    &mut entry.1
}

/// The creation timestamps of a record sequence, in order.
pub open spec fn creation_times(records: Seq<MatchRecord>) -> Seq<i64> {
    records.map_values(|r: MatchRecord| r.game_creation)
}

/// The recency window closes at position `i` when the gap between the most
/// recent record's timestamp and this record's own exceeds the limit.
pub open spec fn spec_gap_at(times: Seq<i64>, limit: int, i: int) -> bool {
    times[0] - times[i] > limit
}

/// The first position at or after `i` where the recency window closes, or
/// the total length if it never does.
pub open spec fn spec_stop_from(times: Seq<i64>, limit: int, i: int) -> int
    decreases times.len() - i,
{
    if i >= times.len() {
        times.len() as int
    } else if spec_gap_at(times, limit, i) {
        i
    } else {
        spec_stop_from(times, limit, i + 1)
    }
}

/// How many records the engine processes: all of them, unless the recency
/// window closes first. The window is tested before each record from the
/// second one on, against that record's own timestamp, so a record beyond
/// the window never contributes.
pub open spec fn spec_processed_count(times: Seq<i64>, limit: int) -> int {
    if times.len() == 0 {
        0
    } else {
        spec_stop_from(times, limit, 1)
    }
}

/// The stop position is unaffected by skipping over positions where the
/// window stays open.
proof fn lemma_stop_from_advance(times: Seq<i64>, limit: int, a: int, b: int)
    requires
        1 <= a <= b <= times.len(),
        forall|l: int| a <= l < b ==> !spec_gap_at(times, limit, l),
    ensures
        spec_stop_from(times, limit, a) == spec_stop_from(times, limit, b),
    decreases b - a,
{
    if a < b {
        lemma_stop_from_advance(times, limit, a + 1, b);
    }
}

/// Folds [`spec_apply_record`] over `records[i..n]`.
pub open spec fn spec_apply_records_from(
    state: Seq<(String, ChampionView)>,
    records: Seq<MatchRecord>,
    i: int,
    n: int,
    target: Seq<char>,
    cap: u64,
) -> Seq<(String, ChampionView)>
    decreases n - i,
{
    if i < 0 || i >= n || i >= records.len() {
        state
    } else {
        spec_apply_records_from(
            spec_apply_record(state, records[i], target, cap),
            records,
            i + 1,
            n,
            target,
            cap,
        )
    }
}

/// Extending the fold by one more record applies that record last.
proof fn lemma_apply_records_snoc(
    state: Seq<(String, ChampionView)>,
    records: Seq<MatchRecord>,
    i: int,
    n: int,
    target: Seq<char>,
    cap: u64,
)
    requires
        0 <= i <= n < records.len(),
    ensures
        spec_apply_records_from(state, records, i, n + 1, target, cap) == spec_apply_record(
            spec_apply_records_from(state, records, i, n, target, cap),
            records[n],
            target,
            cap,
        ),
    decreases n - i,
{
    if i < n {
        lemma_apply_records_snoc(
            spec_apply_record(state, records[i], target, cap),
            records,
            i + 1,
            n,
            target,
            cap,
        );
    } else {
        let stepped = spec_apply_record(state, records[n], target, cap);
        assert(spec_apply_records_from(state, records, n, n + 1, target, cap)
            == spec_apply_records_from(stepped, records, n + 1, n + 1, target, cap));
        assert(spec_apply_records_from(stepped, records, n + 1, n + 1, target, cap) == stepped);
        assert(spec_apply_records_from(state, records, i, n, target, cap) == state);
    }
}

/// The whole analysis: starting from no profiles, the records within the
/// recency window are aggregated in order.
pub open spec fn spec_analysis(
    records: Seq<MatchRecord>,
    limit: int,
    target: Seq<char>,
    cap: u64,
) -> Seq<(String, ChampionView)> {
    spec_apply_records_from(
        Seq::empty(),
        records,
        0,
        spec_processed_count(creation_times(records), limit),
        target,
        cap,
    )
}

/// The indices `0, 1, ..., n - 1`.
pub open spec fn index_seq(n: int) -> Seq<usize> {
    Seq::new(n as nat, |i: int| i as usize)
}

/// Orders two positions of the champion map by descending match count.
pub open spec fn by_count_desc(s: Seq<(String, ChampionInfo)>) -> spec_fn(usize, usize) -> bool {
    |a: usize, b: usize| s[b as int].1.count_of_matches <= s[a as int].1.count_of_matches
}

/// The positions of the champion map, stably sorted so that the most-played
/// champion comes first.
pub open spec fn spec_sorted_champion_indices(s: Seq<(String, ChampionInfo)>) -> Seq<usize> {
    spec_sort(index_seq(s.len() as int), by_count_desc(s))
}

/// Ranking champions by descending match count is a total, transitive
/// relation, so the sorted index list is sorted and a permutation of the
/// positions.
pub proof fn lemma_sorted_champions_ranked(s: Seq<(String, ChampionInfo)>)
    ensures
        sorted_by(spec_sorted_champion_indices(s), by_count_desc(s)),
        spec_sorted_champion_indices(s).to_multiset() == index_seq(s.len() as int).to_multiset(),
        spec_sorted_champion_indices(s).len() == s.len(),
{
    let leq = by_count_desc(s);
    assert forall|a: usize, b: usize| #[trigger] leq(a, b) || #[trigger] leq(b, a) by {
        assert(s[b as int].1.count_of_matches <= s[a as int].1.count_of_matches || s[
            a as int
        ].1.count_of_matches <= s[b as int].1.count_of_matches);
    }
    assert forall|a: usize, b: usize, c: usize| #[trigger]
        leq(a, b) && #[trigger] leq(b, c) implies #[trigger] leq(a, c) by {}
    lemma_sort_sorted(index_seq(s.len() as int), leq);
    lemma_sort_multiset(index_seq(s.len() as int), leq);
}

/// Inserts position `x` into an index list sorted by descending match
/// count, scanning from the right, so champions with equal counts keep
/// their relative order.
fn insert_by_count(order: &mut Vec<usize>, champs: &Vec<(String, ChampionInfo)>, x: usize)
    requires
        forall|l: int| 0 <= l < old(order)@.len() ==> (#[trigger] old(order)@[l]) < champs@.len(),
        x < champs@.len(),
    ensures
        final(order)@ == spec_insert(old(order)@, x, by_count_desc(champs@)),
        forall|l: int| 0 <= l < final(order)@.len() ==> (#[trigger] final(order)@[l]) < champs@.len(),
{
    let ghost s = order@;
    let ghost leq = by_count_desc(champs@);
    let mut j: usize = order.len();
    loop
        invariant
            0 <= j <= order.len(),
            s == order@,
            leq == by_count_desc(champs@),
            x < champs@.len(),
            forall|l: int| 0 <= l < s.len() ==> (#[trigger] s[l]) < champs@.len(),
            forall|l: int| j <= l < s.len() ==> !leq(#[trigger] s[l], x),
        ensures
            s == order@,
            0 <= j <= s.len(),
            j > 0 ==> leq(s[j - 1], x),
            forall|l: int| j <= l < s.len() ==> !leq(#[trigger] s[l], x),
        decreases j,
    {
        if j == 0 {
            break ;
        }
        proof {
            assert(leq(s[j - 1], x) == (champs@[x as int].1.count_of_matches <= champs@[s[j
                - 1] as int].1.count_of_matches));
        }
        if champs[order[j - 1]].1.count_of_matches >= champs[x].1.count_of_matches {
            break ;
        }
        j = j - 1;
    }
    proof {
        lemma_insert_at(s, x, leq, j as int);
        lemma_insert_all(s, x, leq, |e: usize| (e as int) < champs@.len());
    }
    order.insert(j, x);
    proof {
        assert(order@ =~= spec_insert(s, x, leq));
    }
}

/// The text of the full champion summary: one block per champion in ranked
/// order, each holding the champion's name and its indented summary.
pub open spec fn spec_champion_lines(
    s: Seq<(String, ChampionInfo)>,
    order: Seq<usize>,
    i: int,
    threshold: u64,
    limit: int,
) -> Seq<char>
    decreases order.len() - i,
{
    if i < 0 || i >= order.len() {
        Seq::empty()
    } else {
        let p = s[order[i] as int];
        p.0@ + seq!['\n'] + spec_indent(spec_summary_text(p.1, threshold, limit)) + seq!['\n']
            + spec_champion_lines(s, order, i + 1, threshold, limit)
    }
}

/// The aggregation engine: owns the player filter, the recency window and
/// the champion map it builds from the record sequence.
pub struct Analyzer {
    /// Width of the recency window, in milliseconds of game-creation time.
    pub duration_limit: i64,
    /// The player identity whose matches are aggregated.
    pub summoner_id: String,
    /// One profile per champion the player piloted, keyed by champion name.
    pub champion_infos: Vec<(String, ChampionInfo)>,
}

impl Analyzer {
    pub fn new(summoner_id: String) -> (r: Analyzer)
        ensures
            r.duration_limit == 0,
            r.summoner_id == summoner_id,
            r.champion_infos@ == Seq::<(String, ChampionInfo)>::empty(),
            champs_wf(r.champion_infos@),
    {
        Analyzer { duration_limit: 0, summoner_id, champion_infos: Vec::new() }
    }

    /// Aggregates one match record: for the participant matching the target
    /// player (if any), the player's champion profile gains one match, one
    /// ally observation per teammate other than the player, and one enemy
    /// observation per opponent, all with that participant's outcome.
    pub fn add_match_history(&mut self, match_history: &MatchRecord, cap: u64)
        requires
            champs_wf(old(self).champion_infos@),
        ensures
            final(self).summoner_id == old(self).summoner_id,
            final(self).duration_limit == old(self).duration_limit,
            champs_wf(final(self).champion_infos@),
            champs_view(final(self).champion_infos@) == spec_apply_record(
                champs_view(old(self).champion_infos@),
                *match_history,
                old(self).summoner_id@,
                cap,
            ),
    {
        let ghost target = self.summoner_id@;
        let ghost parts = match_history.participants@;
        let ghost goal = spec_apply_participants(
            champs_view(self.champion_infos@),
            parts,
            0,
            target,
            cap,
        );
        let mut j: usize = 0;
        while j < match_history.participants.len()
            invariant
                0 <= j <= parts.len(),
                parts == match_history.participants@,
                self.summoner_id@ == target,
                self.summoner_id == old(self).summoner_id,
                self.duration_limit == old(self).duration_limit,
                champs_wf(self.champion_infos@),
                goal == spec_apply_participants(
                    champs_view(self.champion_infos@),
                    parts,
                    j as int,
                    target,
                    cap,
                ),
            decreases parts.len() - j,
        {
            let ghost cur = champs_view(self.champion_infos@);
            let ghost stepped = spec_apply_participant(cur, parts, j as int, target, cap);
            let p = &match_history.participants[j];
            if p.summoner_id == self.summoner_id {
                let my_champion = p.champion_name.clone();
                let team_id = p.team_id;
                let win = p.win;
                let allies = find_participants_by_team_id(
                    &match_history.participants,
                    team_id,
                    true,
                );
                let enemies = find_participants_by_team_id(
                    &match_history.participants,
                    team_id,
                    false,
                );
                proof {
                    lemma_team_indices_sound(parts, team_id, true, 0);
                    lemma_team_indices_sound(parts, team_id, false, 0);
                    lemma_find_key_view(self.champion_infos@, my_champion@, 0);
                }
                let ghost s_exec = self.champion_infos@;
                let ghost k = find_key(s_exec, my_champion@, 0);
                let ci = get_champion_info(&mut self.champion_infos, &my_champion);
                let ghost cv = (*ci)@;
                proof {
                    lemma_find_key_props(s_exec, my_champion@, 0);
                    if k == -1 {
                        assert(cv == spec_empty_champion());
                        assert(wrmap_wf(ci.win_rates_with_champions@));
                        assert(wrmap_wf(ci.win_rates_vs_champions@));
                    } else {
                        assert(0 <= k < s_exec.len());
                        assert(s_exec[k].1.wf());
                        assert(wrmap_wf(ci.win_rates_with_champions@));
                        assert(wrmap_wf(ci.win_rates_vs_champions@));
                    }
                }
                if ci.count_of_matches < u64::MAX {
                    ci.count_of_matches = ci.count_of_matches + 1;
                }
                let ghost count1 = ci.count_of_matches;
                proof {
                    assert(count1 == inc_sat(cv.count_of_matches));
                }
                let ghost with0 = ci.win_rates_with_champions@;
                let ghost vs0 = ci.win_rates_vs_champions@;
                let mut a: usize = 0;
                while a < allies.len()
                    invariant
                        0 <= a <= allies@.len(),
                        allies@ == team_indices(parts, team_id, true, 0),
                        parts == match_history.participants@,
                        forall|k2: int|
                            0 <= k2 < allies@.len() ==> (#[trigger] allies@[k2]) < parts.len(),
                        wrmap_wf(ci.win_rates_with_champions@),
                        ci.count_of_matches == count1,
                        ci.win_rates_vs_champions@ == vs0,
                        spec_record_matchups_from(with0, parts, allies@, 0, j as int, win, cap)
                            == spec_record_matchups_from(
                            ci.win_rates_with_champions@,
                            parts,
                            allies@,
                            a as int,
                            j as int,
                            win,
                            cap,
                        ),
                    decreases allies@.len() - a,
                {
                    let idx = allies[a];
                    if idx != j {
                        ci.record_with(&match_history.participants[idx].champion_name, win, cap);
                    }
                    a = a + 1;
                }
                let mut e: usize = 0;
                while e < enemies.len()
                    invariant
                        0 <= e <= enemies@.len(),
                        enemies@ == team_indices(parts, team_id, false, 0),
                        parts == match_history.participants@,
                        forall|k2: int|
                            0 <= k2 < enemies@.len() ==> (#[trigger] enemies@[k2]) < parts.len(),
                        wrmap_wf(ci.win_rates_vs_champions@),
                        ci.count_of_matches == count1,
                        ci.win_rates_with_champions@ == spec_record_matchups_from(
                            with0,
                            parts,
                            allies@,
                            0,
                            j as int,
                            win,
                            cap,
                        ),
                        allies@ == team_indices(parts, team_id, true, 0),
                        spec_record_matchups_from(vs0, parts, enemies@, 0, -1, win, cap)
                            == spec_record_matchups_from(
                            ci.win_rates_vs_champions@,
                            parts,
                            enemies@,
                            e as int,
                            -1,
                            win,
                            cap,
                        ),
                    decreases enemies@.len() - e,
                {
                    let idx = enemies[e];
                    ci.record_vs(&match_history.participants[idx].champion_name, win, cap);
                    e = e + 1;
                }
                proof {
                    assert(champs_view(self.champion_infos@) =~= stepped);
                }
            } else {
                proof {
                    assert(stepped == cur);
                }
            }
            j = j + 1;
        }
        proof {
            assert(goal == champs_view(self.champion_infos@));
        }
    }

    /// Runs the analysis over an ordered record sequence, most recent
    /// first: clears the champion map, then aggregates records until the
    /// recency window closes (see [`spec_processed_count`]) or the sequence
    /// ends. The result is exactly [`spec_analysis`] of the inputs.
    pub fn analyze_records(&mut self, records: &Vec<MatchRecord>, cap: u64)
        ensures
            final(self).summoner_id == old(self).summoner_id,
            final(self).duration_limit == old(self).duration_limit,
            champs_wf(final(self).champion_infos@),
            champs_view(final(self).champion_infos@) == spec_analysis(
                records@,
                old(self).duration_limit as int,
                old(self).summoner_id@,
                cap,
            ),
    {
        let ghost target = self.summoner_id@;
        let ghost limit = self.duration_limit as int;
        let ghost times = creation_times(records@);
        self.champion_infos.clear();
        proof {
            assert(champs_view(self.champion_infos@) =~= Seq::<(String, ChampionView)>::empty());
        }
        let mut latest_chronological: Option<i64> = None;
        let mut i: usize = 0;
        loop
            invariant
                0 <= i <= records@.len(),
                times == creation_times(records@),
                limit == self.duration_limit as int,
                self.summoner_id@ == target,
                self.summoner_id == old(self).summoner_id,
                self.duration_limit == old(self).duration_limit,
                champs_wf(self.champion_infos@),
                i == 0 ==> latest_chronological is None,
                i > 0 ==> latest_chronological == Some(times[0]),
                forall|l: int| 1 <= l < i ==> !spec_gap_at(times, limit, l),
                champs_view(self.champion_infos@) == spec_apply_records_from(
                    Seq::empty(),
                    records@,
                    0,
                    i as int,
                    target,
                    cap,
                ),
            ensures
                self.summoner_id == old(self).summoner_id,
                self.duration_limit == old(self).duration_limit,
                champs_wf(self.champion_infos@),
                champs_view(self.champion_infos@) == spec_apply_records_from(
                    Seq::empty(),
                    records@,
                    0,
                    spec_processed_count(times, limit),
                    target,
                    cap,
                ),
            decreases records@.len() - i,
        {
            if i >= records.len() {
                proof {
                    if times.len() > 0 {
                        lemma_stop_from_advance(times, limit, 1, times.len() as int);
                        assert(spec_processed_count(times, limit) == times.len() as int);
                    }
                    assert(times.len() == records@.len());
                }
                break ;
            }
            let rec = &records[i];
            proof {
                assert(times[i as int] == rec.game_creation);
            }
            match latest_chronological {
                Some(anchor) => {
                    if (anchor as i128) - (rec.game_creation as i128) > (
                    self.duration_limit as i128) {
                        proof {
                            assert(spec_gap_at(times, limit, i as int));
                            lemma_stop_from_advance(times, limit, 1, i as int);
                            assert(spec_stop_from(times, limit, i as int) == i as int);
                            assert(spec_processed_count(times, limit) == i as int);
                        }
                        break ;
                    }
                },
                None => {
                    latest_chronological = Some(rec.game_creation);
                },
            }
            let ghost before = champs_view(self.champion_infos@);
            self.add_match_history(rec, cap);
            proof {
                lemma_apply_records_snoc(
                    Seq::empty(),
                    records@,
                    0,
                    i as int,
                    target,
                    cap,
                );
            }
            i = i + 1;
        }
    }

    /// The positions of the champion map, most-played champion first; ties
    /// keep their insertion order (see [`spec_sorted_champion_indices`]).
    pub fn get_sorted_champions(&self) -> (r: Vec<usize>)
        ensures
            r@ == spec_sorted_champion_indices(self.champion_infos@),
            r@.len() == self.champion_infos@.len(),
            forall|l: int| 0 <= l < r@.len() ==> (#[trigger] r@[l]) < self.champion_infos@.len(),
    {
        let ghost s = self.champion_infos@;
        let ghost leq = by_count_desc(s);
        let mut order: Vec<usize> = Vec::new();
        proof {
            assert(index_seq(0) =~= Seq::<usize>::empty());
            assert(order@ =~= spec_sort(index_seq(0), leq));
        }
        let mut i: usize = 0;
        while i < self.champion_infos.len()
            invariant
                0 <= i <= s.len(),
                s == self.champion_infos@,
                leq == by_count_desc(s),
                order@ == spec_sort(index_seq(i as int), leq),
                forall|l: int| 0 <= l < order@.len() ==> (#[trigger] order@[l]) < s.len(),
            decreases self.champion_infos.len() - i,
        {
            insert_by_count(&mut order, &self.champion_infos, i);
            proof {
                assert(index_seq(i + 1).drop_last() =~= index_seq(i as int));
                assert(index_seq(i + 1).last() == i as usize);
            }
            i = i + 1;
        }
        proof {
            lemma_sorted_champions_ranked(s);
        }
        order
    }

    /// Renders the full report: each champion's summary in ranked order,
    /// most-played champion first.
    pub fn get_summary_text(&self, threshold: u64, limit: usize) -> (r: String)
        requires
            champs_wf(self.champion_infos@),
            1 <= threshold <= 0x8000_0000,
        ensures
            r@ == spec_champion_lines(
                self.champion_infos@,
                spec_sorted_champion_indices(self.champion_infos@),
                0,
                threshold,
                limit as int,
            ),
    {
        let ghost s = self.champion_infos@;
        let champions = self.get_sorted_champions();
        let ghost order = champions@;
        let ghost goal = spec_champion_lines(s, order, 0, threshold, limit as int);
        let mut text = String::new();
        proof {
            assert(text@ + spec_champion_lines(s, order, 0, threshold, limit as int) =~= goal);
        }
        let mut i: usize = 0;
        while i < champions.len()
            invariant
                0 <= i <= order.len(),
                s == self.champion_infos@,
                order == champions@,
                champs_wf(s),
                1 <= threshold <= 0x8000_0000,
                forall|l: int| 0 <= l < order.len() ==> (#[trigger] order[l]) < s.len(),
                goal == spec_champion_lines(s, order, 0, threshold, limit as int),
                text@ + spec_champion_lines(s, order, i as int, threshold, limit as int) == goal,
            decreases champions.len() - i,
        {
            let idx = champions[i];
            let entry = &self.champion_infos[idx];
            proof {
                assert(s[idx as int].1.wf());
            }
            let summary = entry.1.get_summary_text(threshold, limit);
            text.append(entry.0.as_str());
            string_push_char(&mut text, '\n');
            text.append(indent_string(summary.as_str()).as_str());
            string_push_char(&mut text, '\n');
            proof {
                assert(text@ + spec_champion_lines(s, order, i + 1, threshold, limit as int)
                    =~= goal);
            }
            i = i + 1;
        }
        proof {
            assert(spec_champion_lines(s, order, order.len() as int, threshold, limit as int)
                == Seq::<char>::empty());
            assert(text@ =~= goal);
        }
        text
    }
}

/// Whether some participant from position `j` on is the target player
/// piloting champion `name`.
pub open spec fn piloted_from(
    parts: Seq<Participant>,
    j: int,
    name: Seq<char>,
    target: Seq<char>,
) -> bool {
    exists|l: int|
        j <= l < parts.len() && (#[trigger] parts[l]).summoner_id@ == target
            && parts[l].champion_name@ == name
}

/// At most one participant of a record carries the target identity: the
/// single-player perspective of the data model.
pub open spec fn at_most_one_match(parts: Seq<Participant>, target: Seq<char>) -> bool {
    forall|i: int, j: int|
        0 <= i < j < parts.len() && (#[trigger] parts[i]).summoner_id@ == target ==> (
        #[trigger] parts[j]).summoner_id@ != target
}

/// The match count a champion map holds for `name`: zero when absent.
pub open spec fn champ_count(state: Seq<(String, ChampionView)>, name: Seq<char>) -> int {
    let k = find_key(state, name, 0);
    if k == -1 {
        0
    } else {
        state[k].1.count_of_matches as int
    }
}

/// How many of `records[i..n]` have the target piloting champion `name`.
pub open spec fn count_piloted(
    records: Seq<MatchRecord>,
    i: int,
    n: int,
    name: Seq<char>,
    target: Seq<char>,
) -> int
    decreases n - i,
{
    if i < 0 || i >= n || i >= records.len() {
        0
    } else {
        (if piloted_from(records[i].participants@, 0, name, target) {
            1int
        } else {
            0int
        }) + count_piloted(records, i + 1, n, name, target)
    }
}

/// Extending the tally by one more record counts that record last.
proof fn lemma_count_piloted_snoc(
    records: Seq<MatchRecord>,
    i: int,
    n: int,
    name: Seq<char>,
    target: Seq<char>,
)
    requires
        0 <= i <= n < records.len(),
    ensures
        count_piloted(records, i, n + 1, name, target) == count_piloted(records, i, n, name, target)
            + (if piloted_from(records[n].participants@, 0, name, target) {
            1int
        } else {
            0int
        }),
    decreases n - i,
{
    if i < n {
        lemma_count_piloted_snoc(records, i + 1, n, name, target);
    } else {
        assert(count_piloted(records, n + 1, n + 1, name, target) == 0);
        assert(count_piloted(records, i, n, name, target) == 0);
    }
}

/// Participants that are not the target player contribute nothing.
proof fn lemma_participants_identity(
    state: Seq<(String, ChampionView)>,
    parts: Seq<Participant>,
    j: int,
    target: Seq<char>,
    cap: u64,
)
    requires
        forall|l: int| j <= l < parts.len() ==> (#[trigger] parts[l]).summoner_id@ != target,
    ensures
        spec_apply_participants(state, parts, j, target, cap) == state,
    decreases parts.len() - j,
{
    if 0 <= j < parts.len() {
        assert(spec_apply_participant(state, parts, j, target, cap) == state);
        lemma_participants_identity(state, parts, j + 1, target, cap);
    }
}

/// What one participant step does to one champion's match count: nothing
/// unless the participant is the target player, and then one more match for
/// the champion the player piloted, no change for any other champion.
proof fn lemma_participant_step_count(
    state: Seq<(String, ChampionView)>,
    parts: Seq<Participant>,
    j: int,
    target: Seq<char>,
    cap: u64,
    name: Seq<char>,
)
    requires
        0 <= j < parts.len(),
        champ_count(state, name) < u64::MAX,
    ensures
        ({
            let step = spec_apply_participant(state, parts, j, target, cap);
            if parts[j].summoner_id@ == target {
                champ_count(step, name) == champ_count(state, name) + (
                if parts[j].champion_name@ == name {
                    1int
                } else {
                    0int
                })
            } else {
                champ_count(step, name) == champ_count(state, name)
            }
        }),
{
    if parts[j].summoner_id@ == target {
        let p = parts[j];
        let champ = p.champion_name;
        let k = find_key(state, champ@, 0);
        lemma_find_key_props(state, champ@, 0);
        lemma_find_key_props(state, name, 0);
        let step = spec_apply_participant(state, parts, j, target, cap);
        if k == -1 {
            let cv1 = step[state.len() as int].1;
            assert(step =~= state.push((champ, cv1)));
            lemma_find_key_push(state, name, 0, (champ, cv1));
            if champ@ == name {
                assert(find_key(state, name, 0) == -1);
                assert(find_key(step, name, 0) == state.len());
                assert(cv1.count_of_matches == 1);
            } else {
                let k2 = find_key(state, name, 0);
                if k2 != -1 {
                    assert(step[k2] == state[k2]);
                }
            }
        } else {
            let cv = state[k].1;
            let cv1 = step[k].1;
            assert(state[k].0@ == champ@);
            assert(step =~= state.update(k, (state[k].0, cv1)));
            lemma_find_key_update(state, name, 0, k, (state[k].0, cv1));
            if champ@ == name {
                assert(find_key(state, name, 0) == k);
                assert(cv1.count_of_matches == inc_sat(cv.count_of_matches));
            } else {
                let k2 = find_key(state, name, 0);
                if k2 != -1 {
                    assert(state[k2].0@ == name);
                    assert(k2 != k);
                    assert(step[k2] == state[k2]);
                }
            }
        }
    }
}

/// What one whole record does to one champion's match count, given the
/// single-player perspective: one more match exactly when the target player
/// piloted that champion in it.
proof fn lemma_participants_count(
    state: Seq<(String, ChampionView)>,
    parts: Seq<Participant>,
    j: int,
    target: Seq<char>,
    cap: u64,
    name: Seq<char>,
)
    requires
        0 <= j,
        at_most_one_match(parts, target),
        champ_count(state, name) < u64::MAX,
    ensures
        champ_count(spec_apply_participants(state, parts, j, target, cap), name) == champ_count(
            state,
            name,
        ) + (if piloted_from(parts, j, name, target) {
            1int
        } else {
            0int
        }),
    decreases parts.len() - j,
{
    if j >= parts.len() {
        assert(!piloted_from(parts, j, name, target));
    } else if parts[j].summoner_id@ != target {
        assert(spec_apply_participant(state, parts, j, target, cap) == state);
        lemma_participants_count(state, parts, j + 1, target, cap, name);
        assert(piloted_from(parts, j, name, target) == piloted_from(parts, j + 1, name, target))
            by {
            if piloted_from(parts, j, name, target) {
                let l = choose|l: int|
                    j <= l < parts.len() && (#[trigger] parts[l]).summoner_id@ == target
                        && parts[l].champion_name@ == name;
                assert(l != j);
                assert(piloted_from(parts, j + 1, name, target));
            }
        }
    } else {
        lemma_participant_step_count(state, parts, j, target, cap, name);
        let step = spec_apply_participant(state, parts, j, target, cap);
        assert(forall|l: int|
            j + 1 <= l < parts.len() ==> (#[trigger] parts[l]).summoner_id@ != target);
        lemma_participants_identity(step, parts, j + 1, target, cap);
        if parts[j].champion_name@ == name {
            assert(piloted_from(parts, j, name, target));
        } else {
            assert(!piloted_from(parts, j, name, target)) by {
                if piloted_from(parts, j, name, target) {
                    let l = choose|l: int|
                        j <= l < parts.len() && (#[trigger] parts[l]).summoner_id@ == target
                            && parts[l].champion_name@ == name;
                    assert(l != j);
                    assert(parts[l].summoner_id@ != target);
                }
            }
        }
    }
}

/// The profile invariant of the aggregation: after the first `n` records, a
/// champion's match count equals the number of those records in which the
/// target player piloted that champion — provided each record names the
/// target player at most once (the single-player perspective).
pub proof fn lemma_matches_played_counts_records(
    records: Seq<MatchRecord>,
    n: int,
    target: Seq<char>,
    cap: u64,
    name: Seq<char>,
)
    requires
        0 <= n <= records.len(),
        records.len() <= u64::MAX,
        forall|i: int|
            0 <= i < records.len() ==> at_most_one_match(
                (#[trigger] records[i]).participants@,
                target,
            ),
    ensures
        champ_count(spec_apply_records_from(Seq::empty(), records, 0, n, target, cap), name)
            == count_piloted(records, 0, n, name, target),
        0 <= count_piloted(records, 0, n, name, target) <= n,
    decreases n,
{
    if n == 0 {
        assert(find_key(Seq::<(String, ChampionView)>::empty(), name, 0) == -1);
    } else {
        lemma_matches_played_counts_records(records, n - 1, target, cap, name);
        lemma_apply_records_snoc(Seq::empty(), records, 0, n - 1, target, cap);
        lemma_count_piloted_snoc(records, 0, n - 1, name, target);
        let prev = spec_apply_records_from(Seq::empty(), records, 0, n - 1, target, cap);
        lemma_participants_count(prev, records[n - 1].participants@, 0, target, cap, name);
    }
}

/// The stop position always lies between the probe and the total length.
proof fn lemma_stop_from_bounds(times: Seq<i64>, limit: int, i: int)
    requires
        0 <= i <= times.len(),
    ensures
        i <= spec_stop_from(times, limit, i) <= times.len(),
    decreases times.len() - i,
{
    if i < times.len() && !spec_gap_at(times, limit, i) {
        lemma_stop_from_bounds(times, limit, i + 1);
    }
}

/// The profile invariant at the engine's own contract: after a run of the
/// analysis, each champion's match count equals the number of records
/// within the recency window in which the target player piloted it.
pub proof fn lemma_analysis_matches_played(
    records: Seq<MatchRecord>,
    limit: int,
    target: Seq<char>,
    cap: u64,
    name: Seq<char>,
)
    requires
        records.len() <= u64::MAX,
        forall|i: int|
            0 <= i < records.len() ==> at_most_one_match(
                (#[trigger] records[i]).participants@,
                target,
            ),
    ensures
        champ_count(spec_analysis(records, limit, target, cap), name) == count_piloted(
            records,
            0,
            spec_processed_count(creation_times(records), limit),
            name,
            target,
        ),
{
    let times = creation_times(records);
    let n = spec_processed_count(times, limit);
    if times.len() > 0 {
        lemma_stop_from_bounds(times, limit, 1);
    }
    assert(times.len() == records.len());
    lemma_matches_played_counts_records(records, n, target, cap, name);
}

/// Whether some name in the list reads `k`.
pub open spec fn name_in(list: Seq<String>, k: Seq<char>) -> bool {
    exists|l: int| 0 <= l < list.len() && (#[trigger] list[l])@ == k
}

/// Whether `list` holds a name that reads like `name`.
pub fn names_contain(list: &Vec<String>, name: &String) -> (r: bool)
    ensures
        r == name_in(list@, name@),
{
    let mut l: usize = 0;
    while l < list.len()
        invariant
            0 <= l <= list@.len(),
            forall|i: int| 0 <= i < l ==> (#[trigger] list@[i])@ != name@,
        decreases list@.len() - l,
    {
        if list[l] == *name {
            return true;
        }
        l = l + 1;
    }
    false
}

/// Adds a name to the universe unless an equal one is already there.
pub open spec fn spec_add_name(acc: Seq<String>, n: String) -> Seq<String> {
    if name_in(acc, n@) {
        acc
    } else {
        acc.push(n)
    }
}

/// Adds every key of a matchup map from position `i` on to the universe.
pub open spec fn spec_collect_keys<T>(acc: Seq<String>, entries: Seq<(String, T)>, i: int) -> Seq<
    String,
>
    decreases entries.len() - i,
{
    if i < 0 || i >= entries.len() {
        acc
    } else {
        spec_collect_keys(spec_add_name(acc, entries[i].0), entries, i + 1)
    }
}

/// Collects every champion name the state knows, from champion `i` on:
/// each piloted champion, then its enemy keys, then its ally keys.
pub open spec fn spec_collect_all(
    acc: Seq<String>,
    champs: Seq<(String, ChampionInfo)>,
    i: int,
) -> Seq<String>
    decreases champs.len() - i,
{
    if i < 0 || i >= champs.len() {
        acc
    } else {
        let a1 = spec_add_name(acc, champs[i].0);
        let a2 = spec_collect_keys(a1, champs[i].1.win_rates_vs_champions@, 0);
        let a3 = spec_collect_keys(a2, champs[i].1.win_rates_with_champions@, 0);
        spec_collect_all(a3, champs, i + 1)
    }
}

/// The universe of known champion names: every piloted champion and every
/// ally or enemy key of any profile, first occurrence first, no duplicates.
pub open spec fn spec_all_names(champs: Seq<(String, ChampionInfo)>) -> Seq<String> {
    spec_collect_all(Seq::empty(), champs, 0)
}

/// What `fuzzy_matcher`'s skim algorithm scores a choice against a pattern,
/// under its default configuration: `None` when the pattern does not match.
pub uninterp spec fn fuzzy_score(choice: Seq<char>, pattern: Seq<char>) -> Option<i64>;

/// Relies on `fuzzy_matcher::skim::SkimMatcherV2::fuzzy_match`, called on a
/// freshly built default matcher (`SkimMatcherV2::default`): the score is a
/// deterministic function of the two strings alone, and `None` exactly when
/// the pattern does not match the choice.
#[verifier::external_body]
fn fuzzy_match_score(choice: &str, pattern: &str) -> (r: Option<i64>)
    ensures
        r == fuzzy_score(choice@, pattern@),
{
    SkimMatcherV2::default().fuzzy_match(choice, pattern)
}

/// The similarity used for ranking matches: the fuzzy score where the
/// pattern matches, and zero — never better than the starting best — where
/// it does not.
pub open spec fn score_val(choice: Seq<char>, pattern: Seq<char>) -> int {
    match fuzzy_score(choice, pattern) {
        Some(s) => s as int,
        None => 0,
    }
}

/// The best-scoring known name from position `l` on, given the best score
/// `bs` and best candidate so far: a later name only displaces the best so
/// far with a strictly greater score, so the first of equals wins.
pub open spec fn spec_best_from(
    univ: Seq<String>,
    pattern: Seq<char>,
    l: int,
    bs: int,
    best: Option<String>,
) -> Option<String>
    decreases univ.len() - l,
{
    if l < 0 || l >= univ.len() {
        best
    } else {
        let sv = score_val(univ[l]@, pattern);
        if sv > bs {
            spec_best_from(univ, pattern, l + 1, sv, Some(univ[l]))
        } else {
            spec_best_from(univ, pattern, l + 1, bs, best)
        }
    }
}

/// The resolution of one candidate name: the best known name with a
/// positive similarity, or the candidate's own spelling when none has one.
pub open spec fn spec_guess(univ: Seq<String>, name: String) -> String {
    match spec_best_from(univ, name@, 0, 0, None) {
        Some(b) => b,
        None => name,
    }
}

/// Each candidate name resolved against the universe.
pub open spec fn spec_guess_all(univ: Seq<String>, names: Seq<String>) -> Seq<String> {
    names.map_values(|n: String| spec_guess(univ, n))
}

/// The indentation prefix of a breakdown line: `level` indentation units.
pub open spec fn spec_rep_indent(level: int) -> Seq<char>
    decreases level,
{
    if level <= 0 {
        Seq::empty()
    } else {
        spec_indentation() + spec_rep_indent(level - 1)
    }
}

/// One more level of indentation extends the prefix on either side alike.
proof fn lemma_rep_indent_snoc(level: int)
    requires
        level >= 0,
    ensures
        spec_rep_indent(level + 1) == spec_rep_indent(level) + spec_indentation(),
    decreases level,
{
    if level == 0 {
        assert(spec_rep_indent(1) =~= spec_rep_indent(0) + spec_indentation());
    } else {
        lemma_rep_indent_snoc(level - 1);
        assert(spec_rep_indent(level + 1) =~= spec_rep_indent(level) + spec_indentation());
    }
}

/// Appends `level` indentation units to `text`.
fn push_rep_indent(text: &mut String, level: u64)
    ensures
        final(text)@ == old(text)@ + spec_rep_indent(level as int),
{
    let mut k: u64 = 0;
    proof {
        assert(text@ =~= old(text)@ + spec_rep_indent(0));
    }
    while k < level
        invariant
            0 <= k <= level,
            text@ == old(text)@ + spec_rep_indent(k as int),
        decreases level - k,
    {
        string_push_char(text, ' ');
        string_push_char(text, ' ');
        proof {
            lemma_rep_indent_snoc(k as int);
            assert(text@ =~= old(text)@ + spec_rep_indent(k + 1));
        }
        k = k + 1;
    }
}

/// One category of the composition score for one champion, over the
/// matchup entries from `i` on: how many entries match a resolved candidate
/// name, the sum of their win chances in ten-thousandths, and one detail
/// line per matched entry (its name, raw ratio and match count).
pub open spec fn spec_chance_summary(
    map: Seq<(String, WinRateInfo)>,
    names: Seq<String>,
    i: int,
    threshold: u64,
    level: int,
) -> (int, int, Seq<char>)
    decreases map.len() - i,
{
    if i < 0 || i >= map.len() {
        (0, 0, Seq::empty())
    } else {
        let rest = spec_chance_summary(map, names, i + 1, threshold, level);
        if name_in(names, map[i].0@) {
            (
                rest.0 + 1,
                rest.1 + spec_chance(map[i].1, threshold as int).spec_permyriad(),
                spec_rep_indent(level) + map[i].0@ + " "@ + spec_format_ratio(
                    map[i].1.count_of_wins as int,
                    map[i].1.count_of_matches as int,
                ) + " of "@ + dec_digits(map[i].1.count_of_matches as int) + seq!['\n'] + rest.2,
            )
        } else {
            rest
        }
    }
}

/// A category's matched count and chance sum are bounded: at most one match
/// per entry, at most one whole chance (ten thousand ten-thousandths) per
/// match.
pub proof fn lemma_chance_summary_bounds(
    map: Seq<(String, WinRateInfo)>,
    names: Seq<String>,
    i: int,
    threshold: u64,
    level: int,
)
    requires
        0 <= i,
        forall|l: int| 0 <= l < map.len() ==> (#[trigger] map[l].1).wf(),
        1 <= threshold <= 0x8000_0000,
    ensures
        ({
            let r = spec_chance_summary(map, names, i, threshold, level);
            &&& 0 <= r.0 <= map.len() - i || (i >= map.len() && r.0 == 0)
            &&& 0 <= r.1 <= 10000 * r.0
        }),
    decreases map.len() - i,
{
    if i >= map.len() {
    } else {
        lemma_chance_summary_bounds(map, names, i + 1, threshold, level);
        if name_in(names, map[i].0@) {
            let info = map[i].1;
            crate::win_rate_info::lemma_chance_fits(
                info.count_of_wins,
                info.count_of_matches,
                threshold,
            );
            let c = spec_chance(info, threshold as int);
            crate::ratio::lemma_scaled_div_bound(c.num as int, c.den as int, 10000);
            let r = spec_chance_summary(map, names, i, threshold, level);
            let rest = spec_chance_summary(map, names, i + 1, threshold, level);
            assert(r.1 == rest.1 + c.spec_permyriad());
            assert(10000 * r.0 == 10000 * rest.0 + 10000) by (nonlinear_arith)
                requires
                    r.0 == rest.0 + 1,
            ;
        }
    }
}

/// One champion's score-line fragment: the average chance as a whole
/// percentage with the number of matchups behind it, or the unknown marker
/// `"[?]"` when no matchup matched.
pub open spec fn spec_format_chance(count: int, score_permyriad: int) -> Seq<char> {
    if count == 0 {
        "[?]"@
    } else {
        dec_digits(score_permyriad / (100 * count)).push('%') + " of "@ + dec_digits(count)
    }
}

/// Renders one score figure: the average of `combined_score` (a sum of win
/// chances in ten-thousandths) over `champion_count` matchups as a whole
/// percentage, or the explicit unknown marker when nothing matched.
pub fn format_chance(champion_count: u128, combined_score: u128) -> (r: String)
    requires
        combined_score <= 10000 * champion_count,
        champion_count <= 0x2_0000_0000_0000_0000,
    ensures
        r@ == spec_format_chance(champion_count as int, combined_score as int),
{
    if champion_count == 0 {
        let s = String::from_str("[?]");
        s
    } else {
        proof {
            assert((combined_score as int) / (100 * (champion_count as int)) <= 100)
                by (nonlinear_arith)
                requires
                    combined_score <= 10000 * champion_count,
                    champion_count >= 1,
            ;
        }
        let q: u128 = combined_score / (100 * champion_count);
        let mut text = u128_to_string(q);
        string_push_char(&mut text, '%');
        text.append(" of ");
        text.append(u128_to_string(champion_count).as_str());
        proof {
            assert(text@ =~= spec_format_chance(
                champion_count as int,
                combined_score as int,
            ));
        }
        text
    }
}

/// Walks one matchup map and gathers the composition-score inputs for one
/// category: how many entries match a resolved candidate name, the sum of
/// their win chances in ten-thousandths, and the breakdown text.
pub fn get_win_chance_summary(
    champion_infos: &Vec<(String, WinRateInfo)>,
    champions: &Vec<String>,
    indentation_level: u64,
    threshold: u64,
) -> (r: (u64, u128, String))
    requires
        forall|l: int| 0 <= l < champion_infos@.len() ==> (#[trigger] champion_infos@[l].1).wf(),
        1 <= threshold <= 0x8000_0000,
    ensures
        ({
            let s = spec_chance_summary(
                champion_infos@,
                champions@,
                0,
                threshold,
                indentation_level as int,
            );
            &&& r.0 == s.0
            &&& r.1 == s.1
            &&& r.2@ == s.2
        }),
{
    let ghost map = champion_infos@;
    let ghost names = champions@;
    let ghost level = indentation_level as int;
    let ghost goal = spec_chance_summary(map, names, 0, threshold, level);
    let mut matched_count: u64 = 0;
    let mut combined_score: u128 = 0;
    let mut breakdown = String::new();
    let mut i: usize = 0;
    proof {
        assert(breakdown@ + goal.2 =~= goal.2);
    }
    while i < champion_infos.len()
        invariant
            0 <= i <= map.len(),
            map == champion_infos@,
            names == champions@,
            level == indentation_level as int,
            forall|l: int| 0 <= l < map.len() ==> (#[trigger] map[l].1).wf(),
            1 <= threshold <= 0x8000_0000,
            goal == spec_chance_summary(map, names, 0, threshold, level),
            matched_count <= i,
            combined_score <= 10000 * (matched_count as int),
            ({
                let rest = spec_chance_summary(map, names, i as int, threshold, level);
                &&& goal.0 == matched_count + rest.0
                &&& goal.1 == combined_score + rest.1
                &&& goal.2 == breakdown@ + rest.2
            }),
        decreases map.len() - i,
    {
        let entry = &champion_infos[i];
        proof {
            lemma_chance_summary_bounds(map, names, i + 1, threshold, level);
        }
        if names_contain(champions, &entry.0) {
            proof {
                crate::win_rate_info::lemma_chance_fits(
                    entry.1.count_of_wins,
                    entry.1.count_of_matches,
                    threshold,
                );
            }
            let chance = entry.1.get_win_chance(threshold);
            proof {
                assert(chance == spec_chance(map[i as int].1, threshold as int));
                crate::ratio::lemma_scaled_div_bound(chance.num as int, chance.den as int, 10000);
            }
            matched_count = matched_count + 1;
            combined_score = combined_score + (chance.permyriad() as u128);
            push_rep_indent(&mut breakdown, indentation_level);
            breakdown.append(entry.0.as_str());
            breakdown.append(" ");
            breakdown.append(
                format_ratio(entry.1.count_of_wins, entry.1.count_of_matches).as_str(),
            );
            breakdown.append(" of ");
            breakdown.append(u64_to_string(entry.1.count_of_matches).as_str());
            string_push_char(&mut breakdown, '\n');
            proof {
                let rest = spec_chance_summary(map, names, i + 1, threshold, level);
                assert(goal.2 =~= breakdown@ + rest.2);
                assert(10000 * (matched_count as int) == 10000 * (matched_count - 1) + 10000)
                    by (nonlinear_arith);
            }
        }
        i = i + 1;
    }
    proof {
        assert(goal.2 =~= breakdown@ + Seq::<char>::empty());
        assert(goal.2 =~= breakdown@);
    }
    (matched_count, combined_score, breakdown)
}

/// One champion's block of the composition-score report: its three score
/// figures, then the matched-ally and matched-enemy breakdowns.
pub open spec fn spec_score_line(
    name: Seq<char>,
    ci: ChampionInfo,
    allies: Seq<String>,
    enemies: Seq<String>,
    threshold: u64,
) -> Seq<char> {
    let a = spec_chance_summary(ci.win_rates_with_champions@, allies, 0, threshold, 2);
    let e = spec_chance_summary(ci.win_rates_vs_champions@, enemies, 0, threshold, 2);
    name + ": ally strength "@ + spec_format_chance(a.0, a.1) + ", enemy weakness "@
        + spec_format_chance(e.0, e.1) + ", summary chance "@ + spec_format_chance(
        a.0 + e.0,
        a.1 + e.1,
    ) + seq!['\n'] + spec_indentation() + "Allies:\n"@ + a.2 + spec_indentation() + "Enemies:\n"@
        + e.2
}

/// The composition-score report from champion `i` of the ranked order on.
pub open spec fn spec_score_lines(
    s: Seq<(String, ChampionInfo)>,
    order: Seq<usize>,
    i: int,
    allies: Seq<String>,
    enemies: Seq<String>,
    threshold: u64,
) -> Seq<char>
    decreases order.len() - i,
{
    if i < 0 || i >= order.len() {
        Seq::empty()
    } else {
        let p = s[order[i] as int];
        spec_score_line(p.0@, p.1, allies, enemies, threshold) + spec_score_lines(
            s,
            order,
            i + 1,
            allies,
            enemies,
            threshold,
        )
    }
}

impl Analyzer {
    /// The universe of known champion names (see [`spec_all_names`]).
    pub fn get_all_champion_names(&self) -> (r: Vec<String>)
        ensures
            r@ == spec_all_names(self.champion_infos@),
    {
        let ghost champs = self.champion_infos@;
        let ghost goal = spec_collect_all(Seq::empty(), champs, 0);
        let mut names: Vec<String> = Vec::new();
        proof {
            assert(names@ =~= Seq::<String>::empty());
        }
        let mut i: usize = 0;
        while i < self.champion_infos.len()
            invariant
                0 <= i <= champs.len(),
                champs == self.champion_infos@,
                goal == spec_collect_all(Seq::empty(), champs, 0),
                goal == spec_collect_all(names@, champs, i as int),
            decreases champs.len() - i,
        {
            let entry = &self.champion_infos[i];
            let ghost acc0 = names@;
            if !names_contain(&names, &entry.0) {
                names.push(entry.0.clone());
            }
            proof {
                assert(names@ =~= spec_add_name(acc0, champs[i as int].0));
            }
            let ghost a1 = names@;
            let vs = entry.1.get_win_rates_vs_champions();
            let mut l: usize = 0;
            while l < vs.len()
                invariant
                    0 <= l <= vs@.len(),
                    vs@ == champs[i as int].1.win_rates_vs_champions@,
                    spec_collect_keys(a1, vs@, 0) == spec_collect_keys(names@, vs@, l as int),
                decreases vs@.len() - l,
            {
                let ghost accb = names@;
                if !names_contain(&names, &vs[l].0) {
                    names.push(vs[l].0.clone());
                }
                proof {
                    assert(names@ =~= spec_add_name(accb, vs@[l as int].0));
                }
                l = l + 1;
            }
            let ghost a2 = names@;
            proof {
                assert(a2 == spec_collect_keys(a1, vs@, 0));
            }
            let wt = entry.1.get_win_rates_with_champions();
            let mut w: usize = 0;
            while w < wt.len()
                invariant
                    0 <= w <= wt@.len(),
                    wt@ == champs[i as int].1.win_rates_with_champions@,
                    spec_collect_keys(a2, wt@, 0) == spec_collect_keys(names@, wt@, w as int),
                decreases wt@.len() - w,
            {
                let ghost accb = names@;
                if !names_contain(&names, &wt[w].0) {
                    names.push(wt[w].0.clone());
                }
                proof {
                    assert(names@ =~= spec_add_name(accb, wt@[w as int].0));
                }
                w = w + 1;
            }
            proof {
                assert(names@ == spec_collect_keys(a2, wt@, 0));
            }
            i = i + 1;
        }
        names
    }

    /// Resolves each candidate champion name against the universe of known
    /// names by fuzzy matching: the best positively-scoring known name wins,
    /// the first of equals first; a candidate nothing matches keeps its own
    /// spelling (see [`spec_guess`]).
    pub fn guess_champion_names(&self, names: &Vec<String>) -> (r: Vec<String>)
        ensures
            r@ == spec_guess_all(spec_all_names(self.champion_infos@), names@),
    {
        let champion_names = self.get_all_champion_names();
        let ghost univ = champion_names@;
        let mut corrected_names: Vec<String> = Vec::new();
        let mut i: usize = 0;
        while i < names.len()
            invariant
                0 <= i <= names@.len(),
                univ == spec_all_names(self.champion_infos@),
                univ == champion_names@,
                corrected_names@.len() == i,
                forall|l: int|
                    0 <= l < i ==> (#[trigger] corrected_names@[l]) == spec_guess(
                        univ,
                        names@[l],
                    ),
            decreases names@.len() - i,
        {
            let name = &names[i];
            let mut best_score: i64 = 0;
            let mut best: Option<usize> = None;
            let mut l: usize = 0;
            while l < champion_names.len()
                invariant
                    0 <= l <= univ.len(),
                    univ == champion_names@,
                    best_score >= 0,
                    match best {
                        Some(bi) => bi < univ.len() && spec_best_from(univ, name@, 0, 0, None)
                            == spec_best_from(
                            univ,
                            name@,
                            l as int,
                            best_score as int,
                            Some(univ[bi as int]),
                        ),
                        None => spec_best_from(univ, name@, 0, 0, None) == spec_best_from(
                            univ,
                            name@,
                            l as int,
                            best_score as int,
                            None,
                        ),
                    },
                decreases univ.len() - l,
            {
                match fuzzy_match_score(champion_names[l].as_str(), name.as_str()) {
                    Some(score) => {
                        if score > best_score {
                            best = Some(l);
                            best_score = score;
                        }
                    },
                    None => {},
                }
                l = l + 1;
            }
            match best {
                Some(bi) => {
                    corrected_names.push(champion_names[bi].clone());
                },
                None => {
                    corrected_names.push(name.clone());
                },
            }
            i = i + 1;
        }
        proof {
            assert(corrected_names@ =~= spec_guess_all(univ, names@));
        }
        corrected_names
    }

    /// Renders the composition-score report: candidate ally and enemy names
    /// are first resolved by fuzzy matching, then every champion the player
    /// piloted gets, in ranked order, its ally-strength, enemy-weakness and
    /// combined score with the matched-matchup breakdowns.
    #[verifier::rlimit(80)]
    pub fn get_score_summary_text(
        &self,
        allies: &Vec<String>,
        enemies: &Vec<String>,
        threshold: u64,
    ) -> (r: String)
        requires
            champs_wf(self.champion_infos@),
            1 <= threshold <= 0x8000_0000,
        ensures
            ({
                let s = self.champion_infos@;
                let univ = spec_all_names(s);
                r@ == spec_score_lines(
                    s,
                    spec_sorted_champion_indices(s),
                    0,
                    spec_guess_all(univ, allies@),
                    spec_guess_all(univ, enemies@),
                    threshold,
                )
            }),
    {
        let ghost s = self.champion_infos@;
        let resolved_allies = self.guess_champion_names(allies);
        let resolved_enemies = self.guess_champion_names(enemies);
        let champions = self.get_sorted_champions();
        let ghost order = champions@;
        let ghost ra = resolved_allies@;
        let ghost re = resolved_enemies@;
        let ghost goal = spec_score_lines(s, order, 0, ra, re, threshold);
        let mut text = String::new();
        proof {
            assert(text@ + goal =~= goal);
        }
        let mut i: usize = 0;
        while i < champions.len()
            invariant
                0 <= i <= order.len(),
                s == self.champion_infos@,
                order == champions@,
                ra == resolved_allies@,
                re == resolved_enemies@,
                champs_wf(s),
                1 <= threshold <= 0x8000_0000,
                forall|l: int| 0 <= l < order.len() ==> (#[trigger] order[l]) < s.len(),
                goal == spec_score_lines(s, order, 0, ra, re, threshold),
                text@ + spec_score_lines(s, order, i as int, ra, re, threshold) == goal,
            decreases champions.len() - i,
        {
            let idx = champions[i];
            let entry = &self.champion_infos[idx];
            proof {
                assert(s[idx as int].1.wf());
                lemma_chance_summary_bounds(
                    entry.1.win_rates_with_champions@,
                    ra,
                    0,
                    threshold,
                    2,
                );
                lemma_chance_summary_bounds(entry.1.win_rates_vs_champions@, re, 0, threshold, 2);
            }
            let (matched_ally_count, ally_score, ally_breakdown) = get_win_chance_summary(
                entry.1.get_win_rates_with_champions(),
                &resolved_allies,
                2,
                threshold,
            );
            let (matched_enemy_count, enemy_score, enemy_breakdown) = get_win_chance_summary(
                entry.1.get_win_rates_vs_champions(),
                &resolved_enemies,
                2,
                threshold,
            );
            text.append(entry.0.as_str());
            text.append(": ally strength ");
            text.append(format_chance(matched_ally_count as u128, ally_score).as_str());
            text.append(", enemy weakness ");
            text.append(format_chance(matched_enemy_count as u128, enemy_score).as_str());
            text.append(", summary chance ");
            text.append(
                format_chance(
                    (matched_ally_count as u128) + (matched_enemy_count as u128),
                    ally_score + enemy_score,
                ).as_str(),
            );
            string_push_char(&mut text, '\n');
            text.append("  ");
            text.append("Allies:\n");
            text.append(ally_breakdown.as_str());
            text.append("  ");
            text.append("Enemies:\n");
            text.append(enemy_breakdown.as_str());
            proof {
                reveal_strlit("  ");
                assert("  "@ =~= spec_indentation());
                assert(text@ + spec_score_lines(s, order, i + 1, ra, re, threshold) =~= goal);
            }
            i = i + 1;
        }
        proof {
            assert(spec_score_lines(s, order, order.len() as int, ra, re, threshold)
                == Seq::<char>::empty());
            assert(text@ =~= goal);
        }
        text
    }
}

} // verus!
