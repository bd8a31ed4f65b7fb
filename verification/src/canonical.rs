//! What holds of the canonical history.
//!
//! The canonical history of a log holds each command once, and holds it where
//! it was last used: the records that no later record repeats, most recent
//! first. Loading is a function of the log, the deletion log and the limit.

use vstd::prelude::*;
use crate::history::{
    canonical, distinct_commands, history_of, log_lines, other_than, promote, promoted,
    records_of, self_command, shown, truncated, EntryModel,
};

verus! {

/// No record after position `at` has the command of the record at `at`.
pub open spec fn is_last_occurrence(records: Seq<EntryModel>, at: int) -> bool {
    &&& 0 <= at < records.len()
    &&& forall|later: int|
        at < later < records.len() ==> (#[trigger] records[later]).command != records[at].command
}

/// The records before position `upto` that no later record repeats, in the
/// order of the log.
pub open spec fn last_occurrences(records: Seq<EntryModel>, upto: int) -> Seq<EntryModel>
    decreases upto,
{
    if upto <= 0 {
        Seq::empty()
    } else {
        let before = last_occurrences(records, upto - 1);
        if is_last_occurrence(records, upto - 1) {
            before.push(records[upto - 1])
        } else {
            before
        }
    }
}

/// Leaving entries out keeps the commands distinct.
pub proof fn lemma_filter_distinct(entries: Seq<EntryModel>, keep: spec_fn(EntryModel) -> bool)
    requires
        distinct_commands(entries),
    ensures
        distinct_commands(entries.filter(keep)),
    decreases entries.len(),
{
    reveal(Seq::filter);
    if entries.len() > 0 {
        let rest = entries.drop_last();
        assert(distinct_commands(rest)) by {
            assert forall|i: int, j: int| 0 <= i < j < rest.len() implies (#[trigger] rest[i]).command
                != (#[trigger] rest[j]).command by {
                assert(rest[i] == entries[i] && rest[j] == entries[j]);
            }
        }
        lemma_filter_distinct(rest, keep);
        let kept = rest.filter(keep);
        if keep(entries.last()) {
            let out = kept.push(entries.last());
            assert forall|i: int, j: int| 0 <= i < j < out.len() implies (#[trigger] out[i]).command
                != (#[trigger] out[j]).command by {
                if j < kept.len() {
                    assert(out[i] == kept[i] && out[j] == kept[j]);
                } else {
                    assert(out[i] == kept[i]);
                    assert(kept.contains(kept[i]));
                    rest.lemma_filter_contains_rev(keep, kept[i]);
                    let k = choose|k: int| 0 <= k < rest.len() && rest[k] == kept[i];
                    assert(entries[k] == rest[k]);
                    assert(entries[entries.len() - 1] == entries.last());
                }
            }
        }
    }
}

/// Taking a record into an order of distinct commands keeps them distinct.
pub proof fn lemma_promote_distinct(order: Seq<EntryModel>, record: EntryModel)
    requires
        distinct_commands(order),
    ensures
        distinct_commands(promote(order, record)),
{
    let keep = other_than(record.command);
    let kept = order.filter(keep);
    lemma_filter_distinct(order, keep);
    let out = kept.push(record);
    assert forall|i: int, j: int| 0 <= i < j < out.len() implies (#[trigger] out[i]).command != (
    #[trigger] out[j]).command by {
        if j < kept.len() {
            assert(out[i] == kept[i] && out[j] == kept[j]);
        } else {
            assert(out[i] == kept[i]);
            order.lemma_filter_pred(keep, i);
        }
    }
}

/// In the order of commands no command stands twice.
pub proof fn lemma_promoted_distinct(records: Seq<EntryModel>)
    ensures
        distinct_commands(promoted(records)),
    decreases records.len(),
{
    if records.len() > 0 {
        lemma_promoted_distinct(records.drop_last());
        lemma_promote_distinct(promoted(records.drop_last()), records.last());
    }
}

/// Reading an order backwards keeps the commands distinct.
pub proof fn lemma_reverse_distinct(entries: Seq<EntryModel>)
    requires
        distinct_commands(entries),
    ensures
        distinct_commands(entries.reverse()),
{
    let back = entries.reverse();
    assert forall|i: int, j: int| 0 <= i < j < back.len() implies (#[trigger] back[i]).command != (
    #[trigger] back[j]).command by {
        assert(back[i] == entries[entries.len() - 1 - i]);
        assert(back[j] == entries[entries.len() - 1 - j]);
    }
}

/// The canonical history has no two entries with the same command, whatever
/// the records.
pub proof fn lemma_canonical_distinct(records: Seq<EntryModel>)
    ensures
        distinct_commands(canonical(records)),
{
    lemma_promoted_distinct(records);
    lemma_reverse_distinct(promoted(records));
}

/// The history loaded from a log has no two entries with the same command,
/// whatever the log, the deletion log and the limit.
pub proof fn lemma_history_distinct(
    lines: Seq<Seq<char>>,
    is_zsh: bool,
    blocklist: Seq<Seq<char>>,
    limit: nat,
)
    ensures
        distinct_commands(history_of(lines, is_zsh, blocklist, limit)),
{
    let records = records_of(lines, is_zsh);
    lemma_canonical_distinct(records);
    let kept = canonical(records).filter(shown(blocklist));
    lemma_filter_distinct(canonical(records), shown(blocklist));
    let out = truncated(kept, limit);
    assert forall|i: int, j: int| 0 <= i < j < out.len() implies (#[trigger] out[i]).command != (
    #[trigger] out[j]).command by {
        assert(out[i] == kept[i] && out[j] == kept[j]);
    }
}

/// With one more record at the end, the last occurrences among the records
/// before it are those that were last occurrences already and have another
/// command.
proof fn lemma_last_occurrences_push(records: Seq<EntryModel>, record: EntryModel, upto: int)
    requires
        0 <= upto <= records.len(),
    ensures
        last_occurrences(records.push(record), upto) == last_occurrences(records, upto).filter(
            other_than(record.command),
        ),
    decreases upto,
{
    reveal(Seq::filter);
    let longer = records.push(record);
    let keep = other_than(record.command);
    if upto > 0 {
        lemma_last_occurrences_push(records, record, upto - 1);
        let at = upto - 1;
        let before = last_occurrences(records, at);
        assert(longer[at] == records[at]);
        if is_last_occurrence(records, at) {
            assert(before.push(records[at]).drop_last() =~= before);
            if records[at].command != record.command {
                assert(is_last_occurrence(longer, at)) by {
                    assert forall|later: int| at < later < longer.len() implies (
                    #[trigger] longer[later]).command != longer[at].command by {
                        if later < records.len() {
                            assert(longer[later] == records[later]);
                        }
                    }
                }
            } else {
                assert(longer[records.len() as int] == record);
                assert(!is_last_occurrence(longer, at));
            }
        } else {
            let later = choose|later: int|
                at < later < records.len() && (#[trigger] records[later]).command
                    == records[at].command;
            assert(longer[later] == records[later]);
            assert(!is_last_occurrence(longer, at));
        }
    }
}

/// The order of commands holds exactly the records that no later record
/// repeats, in the order of the log: each command stands where it was last
/// used, with the timestamp and the raw text of that use.
pub proof fn lemma_promoted_is_last_occurrences(records: Seq<EntryModel>)
    ensures
        promoted(records) == last_occurrences(records, records.len() as int),
    decreases records.len(),
{
    if records.len() > 0 {
        let before = records.drop_last();
        let record = records.last();
        assert(before.push(record) =~= records);
        lemma_promoted_is_last_occurrences(before);
        lemma_last_occurrences_push(before, record, before.len() as int);
        assert(is_last_occurrence(records, records.len() - 1));
    }
}

/// The last occurrences before a position stay where they are when the
/// position moves on.
proof fn lemma_last_occurrences_grow(records: Seq<EntryModel>, from: int, upto: int)
    requires
        0 <= from <= upto <= records.len(),
    ensures
        last_occurrences(records, from).len() <= last_occurrences(records, upto).len(),
        last_occurrences(records, from) == last_occurrences(records, upto).take(
            last_occurrences(records, from).len() as int,
        ),
    decreases upto - from,
{
    if from == upto {
        assert(last_occurrences(records, upto).take(last_occurrences(records, upto).len() as int)
            =~= last_occurrences(records, upto));
    } else {
        lemma_last_occurrences_grow(records, from, upto - 1);
        let shorter = last_occurrences(records, upto - 1);
        let longer = last_occurrences(records, upto);
        let part = last_occurrences(records, from);
        assert(longer.take(part.len() as int) =~= shorter.take(part.len() as int));
    }
}

/// Where a command was last used at position `at` of the log, the canonical
/// history holds that very record, and as many entries before it as there are
/// commands that were last used later.
pub proof fn lemma_promotion(records: Seq<EntryModel>, at: int)
    requires
        is_last_occurrence(records, at),
    ensures
        ({
            let all = last_occurrences(records, records.len() as int);
            let upto = last_occurrences(records, at + 1);
            &&& canonical(records).len() == all.len()
            &&& 1 <= upto.len() <= all.len()
            &&& canonical(records)[all.len() - upto.len()] == records[at]
        }),
{
    let all = last_occurrences(records, records.len() as int);
    let upto = last_occurrences(records, at + 1);
    lemma_promoted_is_last_occurrences(records);
    lemma_last_occurrences_grow(records, at + 1, records.len() as int);
    assert(upto.last() == records[at]);
    assert(all.take(upto.len() as int)[upto.len() - 1] == all[upto.len() - 1]);
}

/// The history loaded holds no invocation of the tool itself and no command
/// of the deletion log.
pub proof fn lemma_history_shown(
    lines: Seq<Seq<char>>,
    is_zsh: bool,
    blocklist: Seq<Seq<char>>,
    limit: nat,
    at: int,
)
    requires
        0 <= at < history_of(lines, is_zsh, blocklist, limit).len(),
    ensures
        !self_command(history_of(lines, is_zsh, blocklist, limit)[at].command),
        !blocklist.contains(history_of(lines, is_zsh, blocklist, limit)[at].command),
{
    let all = canonical(records_of(lines, is_zsh));
    let kept = all.filter(shown(blocklist));
    assert(history_of(lines, is_zsh, blocklist, limit)[at] == kept[at]);
    all.lemma_filter_pred(shown(blocklist), at);
}

/// Loading the same log twice with the same deletion log and the same limit
/// gives the same history.
pub proof fn lemma_load_repeatable(
    content: Seq<u8>,
    is_zsh: bool,
    blocklist: Seq<Seq<char>>,
    limit: nat,
    first: Seq<EntryModel>,
    second: Seq<EntryModel>,
)
    requires
        first == history_of(log_lines(content), is_zsh, blocklist, limit),
        second == history_of(log_lines(content), is_zsh, blocklist, limit),
    ensures
        first == second,
{
}

} // verus!
