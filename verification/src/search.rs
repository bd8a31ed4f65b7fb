//! Ranking the history against a query.
//!
//! An entry matches a query when the fuzzy matcher aligns the query with its
//! command, or when the command holds the query as a substring, case ignored.
//! Matches are ranked by score; a command that begins with the query gets a
//! bonus that puts it above every command that does not.

use fuzzy_matcher::skim::SkimMatcherV2;
use fuzzy_matcher::FuzzyMatcher;
use vstd::prelude::*;
use crate::history::{models, EntryModel, HistoryEntry};
use crate::rank::{
    lemma_inserted, lemma_ranked_contains, lemma_ranked_descending, lemma_ranked_len, rank_keys,
    ranked, Key,
};
use crate::text::{chars_of, contains, is_prefix, is_substring, lowercase, starts_with, to_lowercase};

verus! {

/// What a fresh fuzzy matcher with the default scores, set to ignore case,
/// returns for a choice and a pattern: the score of the best alignment of the
/// pattern with the choice and the positions of the matched characters in the
/// choice, or `None` where the pattern cannot be aligned.
pub uninterp spec fn skim_alignment(choice: Seq<char>, pattern: Seq<char>) -> Option<
    (i64, Seq<usize>),
>;

/// The longest pattern, in characters, that the fuzzy matcher can take. It
/// computes its scores as `i32`, and a score gains at most 32 for each
/// character of the pattern: up to this length no score leaves that range.
pub const MAX_PATTERN: u64 = 0x3FF_FFFF;

/// The longest choice, in characters, that the fuzzy matcher can take. Its
/// scores start from -32,768 and lose at most 1 for each character of the
/// choice, and 4 more for a gap: up to this length no score leaves the range
/// of `i32`.
pub const MAX_CHOICE: u64 = 0x7FFF_0000;

/// The most bytes that a cell of the fuzzy matcher's table takes. The table
/// has a row for each character of the pattern and one more, and a column for
/// each character of the choice and one more; it can be made as long as its
/// size in bytes stays within `isize::MAX`.
pub const CELL_BYTES: u64 = 24;

/// The bonus of a command that begins with the query. It is larger than the
/// distance between any two scores of the fuzzy matcher.
pub const PREFIX_BONUS: i64 = 0x1_0000_0000;

/// A match: the entry, the positions in its command that the query was
/// aligned with, and the score by which it is ranked.
#[derive(Debug)]
pub struct SearchResult {
    pub entry: HistoryEntry,
    pub indices: Vec<usize>,
    pub score: i64,
}

/// What a match holds, as plain values.
pub struct ResultModel {
    pub entry: EntryModel,
    pub indices: Seq<usize>,
    pub score: int,
}

impl View for SearchResult {
    type V = ResultModel;

    open spec fn view(&self) -> ResultModel {
        ResultModel { entry: self.entry@, indices: self.indices@, score: self.score as int }
    }
}

impl Clone for SearchResult {
    fn clone(&self) -> (out: Self)
        ensures
            out@ == self@,
    {
        let mut indices: Vec<usize> = Vec::new();
        let mut i: usize = 0;
        while i < self.indices.len()
            invariant
                i <= self.indices.len(),
                indices@ == self.indices@.take(i as int),
            decreases self.indices.len() - i,
        {
            indices.push(self.indices[i]);
            assert(self.indices@.take(i + 1) =~= self.indices@.take(i as int).push(
                self.indices@[i as int],
            ));
            i += 1;
        }
        assert(self.indices@.take(self.indices.len() as int) =~= self.indices@);
        SearchResult { entry: self.entry.clone(), indices, score: self.score }
    }
}

/// The models of a list of matches.
pub open spec fn result_models(results: Seq<SearchResult>) -> Seq<ResultModel> {
    results.map_values(|r: SearchResult| r@)
}

/// The score of a match.
pub open spec fn result_score() -> spec_fn(ResultModel) -> int {
    |r: ResultModel| r.score
}

/// The fuzzy matcher can take a pattern of `pattern` characters and a choice
/// of `choice` characters: its scores stay in range, and its table can be
/// made.
pub open spec fn alignable(choice: nat, pattern: nat) -> bool {
    &&& pattern <= MAX_PATTERN
    &&& choice <= MAX_CHOICE
    &&& (choice + 1) * (pattern + 1) * CELL_BYTES <= isize::MAX
}

/// The positions are offsets into a text of `len` characters, in rising
/// order.
pub open spec fn rising_within(positions: Seq<usize>, len: nat) -> bool {
    &&& forall|i: int| 0 <= i < positions.len() ==> #[trigger] positions[i] < len
    &&& forall|i: int, j: int|
        0 <= i < j < positions.len() ==> #[trigger] positions[i] < #[trigger] positions[j]
}

/// An ASCII letter.
pub open spec fn is_ascii_letter(c: char) -> bool {
    'A' <= c <= 'Z' || 'a' <= c <= 'z'
}

/// Two characters are the same, the case of ASCII letters ignored.
pub open spec fn same_letter(a: char, b: char) -> bool {
    a == b || (is_ascii_letter(a) && is_ascii_letter(b) && (a as int - b as int == 32 || b as int
        - a as int == 32))
}

/// The characters of `pattern` stand in `choice` in their order, not
/// necessarily side by side, the case of ASCII letters ignored.
pub open spec fn is_subsequence(pattern: Seq<char>, choice: Seq<char>) -> bool
    decreases choice.len(),
{
    if pattern.len() == 0 {
        true
    } else if choice.len() == 0 {
        false
    } else if same_letter(choice[0], pattern[0]) {
        is_subsequence(pattern.drop_first(), choice.drop_first())
    } else {
        is_subsequence(pattern, choice.drop_first())
    }
}

/// A command is found by a query: the query can be aligned with it, as a
/// subsequence of it, or the command holds the query, case ignored.
pub open spec fn is_found(command: Seq<char>, query: Seq<char>) -> bool {
    (alignable(command.len(), query.len()) && is_subsequence(query, command)) || holds_query(
        command,
        query,
    )
}

/// The alignment of the query with a command, for every pair of texts that
/// the fuzzy matcher can take.
pub open spec fn alignment(command: Seq<char>, query: Seq<char>) -> Option<(i64, Seq<usize>)> {
    if alignable(command.len(), query.len()) {
        skim_alignment(command, query)
    } else {
        None
    }
}

/// The command holds the query, case ignored.
pub open spec fn holds_query(command: Seq<char>, query: Seq<char>) -> bool {
    is_substring(lowercase(query), lowercase(command))
}

/// The command begins with the query, case ignored.
pub open spec fn begins_with_query(command: Seq<char>, query: Seq<char>) -> bool {
    is_prefix(lowercase(query), lowercase(command))
}

/// A score with the bonus for a command that begins with the query, held at
/// the largest score there is.
pub open spec fn with_bonus(score: int, begins: bool) -> int {
    let sum = if begins {
        score + PREFIX_BONUS
    } else {
        score
    };
    if sum > i64::MAX {
        i64::MAX as int
    } else {
        sum
    }
}

/// The match of an entry, from what the matcher and the substring test found.
/// An entry matches where the query was aligned with its command or its
/// command holds the query. Its score and positions are those of the
/// alignment, or 0 and none where only the substring matched; a command that
/// begins with the query has `PREFIX_BONUS` added to its score.
pub open spec fn scored(
    entry: EntryModel,
    aligned: Option<(i64, Seq<usize>)>,
    holds: bool,
    begins: bool,
) -> Option<ResultModel> {
    match aligned {
        Some((score, indices)) => Some(
            ResultModel { entry, indices, score: with_bonus(score as int, begins) },
        ),
        None => if holds {
            Some(ResultModel { entry, indices: Seq::empty(), score: with_bonus(0, begins) })
        } else {
            None
        },
    }
}

/// The match of an entry with the query, if it matches.
pub open spec fn match_of(query: Seq<char>) -> spec_fn(EntryModel) -> Option<ResultModel> {
    |e: EntryModel|
        scored(
            e,
            alignment(e.command, query),
            holds_query(e.command, query),
            begins_with_query(e.command, query),
        )
}

/// An entry as the match of the empty query.
pub open spec fn unranked() -> spec_fn(EntryModel) -> ResultModel {
    |e: EntryModel| ResultModel { entry: e, indices: Seq::empty(), score: 0 }
}

/// The matches of a query, in the order of the entries.
pub open spec fn matches_of(entries: Seq<EntryModel>, query: Seq<char>) -> Seq<ResultModel> {
    entries.filter_map(match_of(query))
}

/// The results of a search. The empty query gives every entry, in order. Any
/// other query gives its matches by descending score, matches of equal score
/// in the order of the entries.
pub open spec fn search_results(entries: Seq<EntryModel>, query: Seq<char>) -> Seq<ResultModel> {
    if query.len() == 0 {
        entries.map_values(unranked())
    } else {
        ranked(matches_of(entries, query), result_score())
    }
}

/// Whether the fuzzy matcher can take a pattern of `pattern` characters and a
/// choice of `choice` characters.
pub fn can_align(choice: usize, pattern: usize) -> (can: bool)
    ensures
        can == alignable(choice as nat, pattern as nat),
{
    if pattern as u64 > MAX_PATTERN || choice as u64 > MAX_CHOICE {
        return false;
    }
    let rows: u128 = pattern as u128 + 1;
    let columns: u128 = choice as u128 + 1;
    assert(columns * rows <= 0x8000_0000 * 0x400_0000) by (nonlinear_arith)
        requires
            0 <= rows <= 0x400_0000,
            0 <= columns <= 0x8000_0000,
    ;
    assert(columns * rows * CELL_BYTES == (choice + 1) * (pattern + 1) * CELL_BYTES)
        by (nonlinear_arith)
        requires
            rows == pattern + 1,
            columns == choice + 1,
    ;
    columns * rows * (CELL_BYTES as u128) <= isize::MAX as u128
}

/// The match of `entry`, from what the matcher and the substring test found:
/// `aligned` is the alignment of the query with the command, `holds` says
/// whether the command holds the query, `begins` whether it begins with it.
pub fn score_match(
    entry: &HistoryEntry,
    aligned: Option<(i64, Vec<usize>)>,
    holds: bool,
    begins: bool,
) -> (out: Option<SearchResult>)
    ensures
        match out {
            Some(result) => scored(
                entry@,
                match aligned {
                    Some((score, indices)) => Some((score, indices@)),
                    None => None,
                },
                holds,
                begins,
            ) == Some(result@),
            None => aligned is None && !holds,
        },
{
    let bonus: i64 = if begins {
        PREFIX_BONUS
    } else {
        0
    };
    match aligned {
        Some((score, indices)) => {
            let total: i64 = if score > i64::MAX - bonus {
                i64::MAX
            } else {
                score + bonus
            };
            Some(SearchResult { entry: entry.clone(), indices, score: total })
        },
        None => {
            if holds {
                Some(SearchResult { entry: entry.clone(), indices: Vec::new(), score: bonus })
            } else {
                None
            }
        },
    }
}

/// `SkimMatcherV2::fuzzy_indices` on a matcher made for this one call by
/// `SkimMatcherV2::default` and `SkimMatcherV2::ignore_case`. The matcher
/// keeps the table of an alignment for the next one, so only a fresh matcher
/// gives a result that depends on the two texts alone. Its score is an `i32`.
/// It gathers the positions walking back through the choice, one column at a
/// step, and turns them round: they are offsets into the choice, in rising
/// order. It aligns the pattern exactly where the pattern is a subsequence of
/// the choice, the case of ASCII letters ignored. It is asked only for texts
/// that it can take.
#[verifier::external_body]
fn fuzzy_indices(choice: &str, pattern: &str) -> (out: Option<(i64, Vec<usize>)>)
    requires
        alignable(choice@.len(), pattern@.len()),
    ensures
        out is Some <==> is_subsequence(pattern@, choice@),
        match out {
            Some((score, indices)) => {
                &&& skim_alignment(choice@, pattern@) == Some((score, indices@))
                &&& i32::MIN <= score <= i32::MAX
                &&& rising_within(indices@, choice@.len())
            },
            None => skim_alignment(choice@, pattern@) is None,
        },
{
    SkimMatcherV2::default().ignore_case().fuzzy_indices(choice, pattern)
}

/// The search engine. It keeps nothing from one search to the next.
#[derive(Clone, Copy, Debug)]
pub struct SearchEngine;

impl SearchEngine {
    pub fn new() -> (engine: Self)
        ensures
            engine == SearchEngine,
    {
        SearchEngine
    }

    /// The match of `entry` with the query, if it matches. `query_chars` and
    /// `query_lower` are the query's characters and those of its lowercase.
    fn match_entry(
        &self,
        entry: &HistoryEntry,
        query: &str,
        query_chars: &Vec<char>,
        query_lower: &Vec<char>,
    ) -> (out: Option<SearchResult>)
        requires
            query_chars@ == query@,
            query_lower@ == lowercase(query@),
        ensures
            match out {
                Some(result) => match_of(query@)(entry@) == Some(result@) && well_found(
                    result,
                    query@,
                ),
                None => match_of(query@)(entry@) is None,
            },
            out is Some <==> is_found(entry@.command, query@),
    {
        let command_chars = chars_of(entry.command.as_str());
        let command_lower = chars_of(to_lowercase(entry.command.as_str()).as_str());
        let aligned = if can_align(command_chars.len(), query_chars.len()) {
            fuzzy_indices(entry.command.as_str(), query)
        } else {
            None
        };
        let holds = contains(&command_lower, query_lower);
        let begins = starts_with(&command_lower, query_lower);
        score_match(entry, aligned, holds, begins)
    }

    /// Ranks `entries` against `query`.
    ///
    /// The empty query returns every entry, in order. Any other query returns
    /// the entries that match it by descending score, matches of equal score
    /// in the order of `entries`; an entry matches exactly where the query is
    /// a subsequence of its command or its command holds the query; every
    /// result whose command begins with the query, case ignored, stands
    /// before every result whose command does not.
    /// The positions of a result are offsets into its command, in rising
    /// order.
    pub fn search(&self, entries: &[HistoryEntry], query: &str) -> (results: Vec<SearchResult>)
        ensures
            result_models(results@) == search_results(models(entries@), query@),
            query@.len() > 0 ==> forall|i: int|
                0 <= i < entries.len() ==> (match_of(query@)((#[trigger] entries[i])@) is Some
                    <==> is_found(entries[i]@.command, query@)),
            forall|i: int|
                0 <= i < results.len() ==> rising_within(
                    (#[trigger] results[i])@.indices,
                    results[i]@.entry.command.len(),
                ),
            query@.len() > 0 ==> forall|i: int, j: int|
                0 <= i < results.len() && 0 <= j < results.len() && begins_with_query(
                    (#[trigger] results[i])@.entry.command,
                    query@,
                ) && !begins_with_query((#[trigger] results[j])@.entry.command, query@) ==> i < j,
    {
        let ghost all = models(entries@);
        let query_chars = chars_of(query);
        if query_chars.len() == 0 {
            let mut results: Vec<SearchResult> = Vec::new();
            let mut i: usize = 0;
            while i < entries.len()
                invariant
                    i <= entries.len(),
                    results.len() == i,
                    all == models(entries@),
                    result_models(results@) == all.take(i as int).map_values(unranked()),
                    forall|n: int| 0 <= n < i ==> (#[trigger] results[n]).indices@.len() == 0,
                decreases entries.len() - i,
            {
                let result = SearchResult {
                    entry: entries[i].clone(),
                    indices: Vec::new(),
                    score: 0,
                };
                proof {
                    let before = result_models(results@);
                    let after = result_models(results@.push(result));
                    let wanted = all.take(i + 1).map_values(unranked());
                    assert(result@ == unranked()(all[i as int]));
                    assert forall|n: int| 0 <= n < after.len() implies after[n] == wanted[n] by {
                        if n < i {
                            assert(after[n] == before[n]);
                            assert(before[n] == all.take(i as int).map_values(unranked())[n]);
                        }
                    }
                    assert(after =~= wanted);
                }
                results.push(result);
                i += 1;
            }
            assert(all.take(entries.len() as int) =~= all);
            return results;
        }
        let query_lower = chars_of(to_lowercase(query).as_str());
        let mut found: Vec<SearchResult> = Vec::new();
        let mut keys: Vec<Key> = Vec::new();
        let mut i: usize = 0;
        proof {
            assert(all.take(0) =~= Seq::<EntryModel>::empty());
            assert(result_models(found@) =~= matches_of(all.take(0), query@));
        }
        while i < entries.len()
            invariant
                i <= entries.len(),
                all == models(entries@),
                query_chars@ == query@,
                query_lower@ == lowercase(query@),
                result_models(found@) == matches_of(all.take(i as int), query@),
                forall|k: int|
                    0 <= k < i ==> (match_of(query@)((#[trigger] entries[k])@) is Some <==> is_found(
                        entries[k]@.command,
                        query@,
                    )),
                keys.len() == found.len(),
                forall|k: int|
                    0 <= k < keys.len() ==> (#[trigger] keys[k]).0 == found[k].score && keys[k].1
                        == k,
                forall|k: int| 0 <= k < found.len() ==> well_found(#[trigger] found[k], query@),
            decreases entries.len() - i,
        {
            let ghost before = result_models(found@);
            proof {
                assert(all.take(i + 1).drop_last() =~= all.take(i as int));
                assert(all.take(i + 1).last() == entries[i as int]@);
            }
            match self.match_entry(&entries[i], query, &query_chars, &query_lower) {
                Some(result) => {
                    proof {
                        assert(before + seq![result@] =~= before.push(result@));
                        assert(result_models(found@.push(result)) =~= before.push(result@));
                    }
                    keys.push((result.score, found.len()));
                    found.push(result);
                },
                None => {},
            }
            i += 1;
        }
        assert(all.take(entries.len() as int) =~= all);
        let order = rank_keys(&keys);
        proof {
            lemma_ranked_keys(keys@, found@);
            lemma_ranked_descending(keys@, crate::rank::key_score());
        }
        let ghost hits = result_models(found@);
        let ghost target = ranked(hits, result_score());
        let mut results: Vec<SearchResult> = Vec::new();
        let mut k: usize = 0;
        while k < order.len()
            invariant
                k <= order.len(),
                results.len() == k,
                hits == result_models(found@),
                target == ranked(hits, result_score()),
                target == order@.map_values(picked(hits)),
                forall|n: int| 0 <= n < order.len() ==> 0 <= (#[trigger] order[n]).1 < found.len(),
                result_models(results@) == target.take(k as int),
                forall|n: int| 0 <= n < k ==> results[n].score == order[n].0,
                forall|n: int| 0 <= n < k ==> well_found(#[trigger] results[n], query@),
                forall|n: int| 0 <= n < found.len() ==> well_found(#[trigger] found[n], query@),
                forall|n: int|
                    0 <= n < order.len() ==> found[(#[trigger] order[n]).1 as int].score
                        == order[n].0,
            decreases order.len() - k,
        {
            let result = found[order[k].1].clone();
            proof {
                assert(result@ == target[k as int]);
                assert(result_models(results@.push(result)) =~= target.take(k + 1));
                assert(well_found(found[order[k as int].1 as int], query@));
            }
            results.push(result);
            k += 1;
        }
        proof {
            assert(target.take(order.len() as int) =~= target);
            assert forall|i: int, j: int|
                0 <= i < results.len() && 0 <= j < results.len() && begins_with_query(
                    (#[trigger] results[i])@.entry.command,
                    query@,
                ) && !begins_with_query(
                    (#[trigger] results[j])@.entry.command,
                    query@,
                ) implies i < j by {
                assert(well_found(results[i], query@));
                assert(well_found(results[j], query@));
                assert(results[i].score > results[j].score);
                if j < i {
                    assert(crate::rank::key_score()(order@[j]) >= crate::rank::key_score()(
                        order@[i],
                    ));
                }
            }
        }
        results
    }
}

impl Default for SearchEngine {
    fn default() -> (engine: Self)
        ensures
            engine == SearchEngine,
    {
        Self::new()
    }
}

/// Every result of a search stands for one of the entries. For a query that
/// is not empty the result is the match of that entry.
pub proof fn lemma_results_from_entries(entries: Seq<EntryModel>, query: Seq<char>, at: int)
    requires
        0 <= at < search_results(entries, query).len(),
    ensures
        entries.contains(search_results(entries, query)[at].entry),
        query.len() > 0 ==> match_of(query)(search_results(entries, query)[at].entry) == Some(
            search_results(entries, query)[at],
        ),
{
    let results = search_results(entries, query);
    let result = results[at];
    if query.len() == 0 {
        assert(result.entry == entries[at]);
    } else {
        assert(results.contains(result));
        lemma_ranked_contains(matches_of(entries, query), result_score(), result);
        entries.lemma_filter_map_contains(match_of(query), result);
        let entry = choose|entry: EntryModel| #[trigger]
            entries.contains(entry) && match_of(query)(entry) == Some(result);
        assert(result.entry == entry);
    }
}

/// A search gives no more results than there are entries, and for the empty
/// query as many.
pub proof fn lemma_results_count(entries: Seq<EntryModel>, query: Seq<char>)
    ensures
        search_results(entries, query).len() <= entries.len(),
        query.len() == 0 ==> search_results(entries, query).len() == entries.len(),
{
    if query.len() > 0 {
        lemma_matches_count(entries, query);
        lemma_ranked_len(matches_of(entries, query), result_score());
    }
}

/// There are no more matches than entries.
proof fn lemma_matches_count(entries: Seq<EntryModel>, query: Seq<char>)
    ensures
        matches_of(entries, query).len() <= entries.len(),
    decreases entries.len(),
{
    if entries.len() > 0 {
        lemma_matches_count(entries.drop_last(), query);
    }
}

/// The score of a match lies where the bonus puts it: at or above every score
/// without the bonus if the command begins with the query, below otherwise.
pub open spec fn well_scored(result: ResultModel, query: Seq<char>) -> bool {
    if begins_with_query(result.entry.command, query) {
        result.score >= PREFIX_BONUS + i32::MIN
    } else {
        result.score <= i32::MAX
    }
}

/// A match as the engine finds it: its score lies where the bonus puts it, and
/// its positions are offsets into its command, in rising order.
pub open spec fn well_found(result: SearchResult, query: Seq<char>) -> bool {
    &&& well_scored(result@, query)
    &&& rising_within(result@.indices, result@.entry.command.len())
}

/// The match that a key stands for.
pub open spec fn picked(hits: Seq<ResultModel>) -> spec_fn(Key) -> ResultModel {
    |key: Key| hits[key.1 as int]
}

/// Ranking matches is ranking their keys: where each key holds the score of a
/// match and its position, the ranked keys pick the ranked matches.
proof fn lemma_ranked_keys(keys: Seq<Key>, found: Seq<SearchResult>)
    requires
        keys.len() == found.len(),
        forall|k: int|
            0 <= k < keys.len() ==> (#[trigger] keys[k]).0 == found[k].score && keys[k].1 == k,
    ensures
        ranked(result_models(found), result_score()) == ranked(
            keys,
            crate::rank::key_score(),
        ).map_values(picked(result_models(found))),
        forall|n: int|
            0 <= n < keys.len() ==> {
                let key = #[trigger] ranked(keys, crate::rank::key_score())[n];
                0 <= key.1 < found.len() && found[key.1 as int].score == key.0
            },
        ranked(keys, crate::rank::key_score()).len() == keys.len(),
{
    let hits = result_models(found);
    lemma_ranked_picked(keys, hits, keys.len() as int);
    assert(keys.take(keys.len() as int) =~= keys);
    assert(hits.take(keys.len() as int) =~= hits);
}

/// The ranked keys of the first `n` matches pick the ranking of those matches.
proof fn lemma_ranked_picked(keys: Seq<Key>, hits: Seq<ResultModel>, n: int)
    requires
        keys.len() == hits.len(),
        0 <= n <= keys.len(),
        forall|k: int|
            0 <= k < keys.len() ==> (#[trigger] keys[k]).0 == hits[k].score && keys[k].1 == k,
    ensures
        ranked(hits.take(n), result_score()) == ranked(
            keys.take(n),
            crate::rank::key_score(),
        ).map_values(picked(hits)),
        ranked(keys.take(n), crate::rank::key_score()).len() == n,
        forall|m: int|
            0 <= m < n ==> {
                let key = #[trigger] ranked(keys.take(n), crate::rank::key_score())[m];
                0 <= key.1 < hits.len() && hits[key.1 as int].score == key.0
            },
    decreases n,
{
    let by_key = crate::rank::key_score();
    if n == 0 {
        assert(ranked(hits.take(0), result_score()) =~= ranked(keys.take(0), by_key).map_values(
            picked(hits),
        ));
    } else {
        lemma_ranked_picked(keys, hits, n - 1);
        let before = ranked(keys.take(n - 1), by_key);
        let key = keys[n - 1];
        let hit = hits[n - 1];
        assert(keys.take(n).drop_last() =~= keys.take(n - 1));
        assert(hits.take(n).drop_last() =~= hits.take(n - 1));
        assert(keys.take(n).last() == key);
        assert(hits.take(n).last() == hit);
        lemma_inserted_picked(before, key, hits);
        lemma_inserted(before, key, by_key);
        let after = ranked(keys.take(n), by_key);
        let at = crate::rank::slot(before, key, by_key);
        assert forall|m: int| 0 <= m < n implies {
            let found = #[trigger] after[m];
            0 <= found.1 < hits.len() && hits[found.1 as int].score == found.0
        } by {
            if m < at {
                assert(after[m] == before[m]);
            } else if m == at {
                assert(after[m] == key);
            } else {
                assert(after[m] == before[m - 1]);
            }
        }
    }
}

/// Inserting a key among keys that hold the scores of their matches is
/// inserting its match among theirs.
proof fn lemma_inserted_picked(before: Seq<Key>, key: Key, hits: Seq<ResultModel>)
    requires
        0 <= key.1 < hits.len() && hits[key.1 as int].score == key.0,
        forall|m: int|
            0 <= m < before.len() ==> {
                let other = #[trigger] before[m];
                0 <= other.1 < hits.len() && hits[other.1 as int].score == other.0
            },
    ensures
        inserted_matches(before.map_values(picked(hits)), hits[key.1 as int])
            == crate::rank::inserted(before, key, crate::rank::key_score()).map_values(
            picked(hits),
        ),
    decreases before.len(),
{
    let by_key = crate::rank::key_score();
    let mapped = before.map_values(picked(hits));
    let hit = hits[key.1 as int];
    if before.len() > 0 && by_key(before[0]) >= by_key(key) {
        let rest = before.drop_first();
        assert forall|m: int| 0 <= m < rest.len() implies {
            let other = #[trigger] rest[m];
            0 <= other.1 < hits.len() && hits[other.1 as int].score == other.0
        } by {
            assert(rest[m] == before[m + 1]);
        }
        lemma_inserted_picked(rest, key, hits);
        assert(mapped.drop_first() =~= rest.map_values(picked(hits)));
        assert(mapped[0] == hits[before[0].1 as int]);
        assert(inserted_matches(mapped, hit) =~= crate::rank::inserted(
            before,
            key,
            by_key,
        ).map_values(picked(hits)));
    } else {
        if before.len() > 0 {
            assert(mapped[0] == hits[before[0].1 as int]);
        }
        assert(inserted_matches(mapped, hit) =~= crate::rank::inserted(
            before,
            key,
            by_key,
        ).map_values(picked(hits)));
    }
}

/// A ranking of matches with one more match.
pub open spec fn inserted_matches(before: Seq<ResultModel>, hit: ResultModel) -> Seq<ResultModel> {
    crate::rank::inserted(before, hit, result_score())
}

} // verus!
