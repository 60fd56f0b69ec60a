use vstd::prelude::*;
use crate::bytestore::{apply_save, plan_spec};
use crate::rows::{is_earliest, is_newest};
use crate::model::{opt_view, DbMessage, DbMessageWithoutData, MessageModel};
use crate::store::{
    answers_to, any_row, canonical, content_exists, has_process, in_window, is_first, is_latest, key_lt, keyed_by, latest,
    lemma_window_members, of_process, process_index, resolved, saved_row, shows_row, window_rows, TableModel,
};

verus! {

/// Of a content-bearing record and an assignment-only record for the same message, the
/// lookup by identifier yields the content-bearing one, which was submitted first, whatever
/// their insertion order.
pub proof fn lemma_content_record_is_canonical(rows: Seq<DbMessage>, tx: Seq<char>, i: int, j: int)
    requires
        0 <= i < rows.len(),
        0 <= j < rows.len(),
        i != j,
        rows[i].message.message_id@ == tx,
        rows[j].message.message_id@ == tx,
        rows[i].message.message is Some,
        rows[j].message.message is None,
        rows[i].message.timestamp < rows[j].message.timestamp,
        forall|k: int| 0 <= k < rows.len() && k != i && k != j ==> !answers_to(tx)(#[trigger] rows[k]),
    ensures
        any_row(rows, answers_to(tx)),
        canonical(rows, answers_to(tx)) == i,
        forall|k: int| #[trigger] is_earliest(rows, answers_to(tx), k) ==> k == i,
{
    assert forall|k: int| #[trigger] is_earliest(rows, answers_to(tx), k) implies k == i by {
        if k != i {
            assert(answers_to(tx)(rows[i]));
            assert(!key_lt(rows[i], rows[k]));
        }
    }
    assert(answers_to(tx)(rows[i]));
    assert(is_first(rows, answers_to(tx), i));
    let c = canonical(rows, answers_to(tx));
    if c != i {
        assert(key_lt(rows[i], rows[c]));
        assert(key_lt(rows[c], rows[i]));
    }
}

/// Once a content-bearing message has been saved under a fresh identifier, a second
/// content-bearing message for that identifier is refused.
pub proof fn lemma_second_content_refused(
    before: Seq<DbMessage>,
    after: Seq<DbMessage>,
    p: int,
    row: DbMessage,
    id: int,
    first: MessageModel,
    bundle: Seq<u8>,
    second: MessageModel,
)
    requires
        first.message == Some(first.message_id),
        !any_row(before, answers_to(first.message_id)),
        0 <= p <= before.len(),
        saved_row(row, id, first, bundle),
        after == before.insert(p, row),
        second.message == Some(first.message_id),
    ensures
        content_exists(after, second),
{
    let tx = first.message_id;
    assert(after[p] == row);
    assert(answers_to(tx)(after[p]));
    assert forall|k: int| 0 <= k < after.len() && k != p implies !answers_to(tx)(#[trigger] after[k]) by {
        if k < p {
            assert(after[k] == before[k]);
        } else {
            assert(after[k] == before[k - 1]);
        }
    }
    assert(is_first(after, answers_to(tx), p));
    let c = canonical(after, answers_to(tx));
    assert(is_first(after, answers_to(tx), c));
}

/// Saving a row stamped no earlier than the canonical record of an identifier leaves that
/// record canonical: the new row gets the largest row id, so it sorts after it.
pub proof fn lemma_later_row_keeps_canonical(
    before: Seq<DbMessage>,
    next: int,
    p: int,
    row: DbMessage,
    m: MessageModel,
    bundle: Seq<u8>,
    tx: Seq<char>,
)
    requires
        forall|i: int| 0 <= i < before.len() ==> (#[trigger] before[i]).row_id < next,
        any_row(before, answers_to(tx)),
        is_first(before, answers_to(tx), canonical(before, answers_to(tx))),
        0 <= p <= before.len(),
        saved_row(row, next, m, bundle),
        m.timestamp >= before[canonical(before, answers_to(tx))].message.timestamp,
    ensures
        ({
            let c = canonical(before, answers_to(tx));
            let after = before.insert(p, row);
            let d = if c < p { c } else { c + 1 };
            &&& any_row(after, answers_to(tx))
            &&& canonical(after, answers_to(tx)) == d
            &&& after[d] == before[c]
        }),
{
    let q = answers_to(tx);
    let c = canonical(before, q);
    let after = before.insert(p, row);
    let d = if c < p { c } else { c + 1 };
    assert(after[d] == before[c]);
    assert(q(after[d]));
    assert forall|j: int| 0 <= j < after.len() && j != d && #[trigger] q(after[j]) implies key_lt(after[d], after[j]) by {
        if j == p {
            assert(after[p] == row);
            assert(before[c].row_id < next);
        } else if j < p {
            assert(after[j] == before[j]);
        } else {
            assert(after[j] == before[j - 1]);
        }
    }
    assert(is_first(after, q, d));
    let e = canonical(after, q);
    assert(is_first(after, q, e));
    if e != d {
        assert(key_lt(after[d], after[e]));
        assert(key_lt(after[e], after[d]));
    }
}

/// A record that carries no content never counts as a duplicate.
pub proof fn lemma_assignment_only_passes(rows: Seq<DbMessage>, m: MessageModel)
    requires
        m.message is None,
    ensures
        !content_exists(rows, m),
{
}

/// The lower bound of a page is exclusive and the upper bound inclusive: with `from = t` a
/// row stamped `t` is left out and one stamped `t + 1` is in the window; with `to = t` a row
/// stamped `t` is in the window; and every row of a window lies within its bounds.
pub proof fn lemma_window_bounds(rows: Seq<DbMessage>, pid: Seq<char>, from: Option<i64>, to: Option<i64>)
    ensures
        forall|k: int| 0 <= k < window_rows(rows, pid, from, to).len() ==> {
            let r = rows[#[trigger] window_rows(rows, pid, from, to)[k]];
            &&& r.message.process_id@ == pid
            &&& (from matches Some(f) ==> r.message.timestamp > f)
            &&& (to matches Some(t) ==> r.message.timestamp <= t)
        },
        forall|i: int| 0 <= i < rows.len() && #[trigger] in_window(rows[i], pid, from, to)
            <==> window_rows(rows, pid, from, to).contains(i),
        forall|i: int, t: i64| 0 <= i < rows.len() && rows[i].message.timestamp == t ==> !#[trigger] in_window(
            rows[i],
            pid,
            Some(t),
            to,
        ),
        forall|i: int, t: i64|
            0 <= i < rows.len() && rows[i].message.process_id@ == pid && rows[i].message.timestamp == t + 1 && (
            to matches Some(u) ==> t + 1 <= u) ==> #[trigger] in_window(rows[i], pid, Some(t), to),
        forall|i: int, t: i64|
            0 <= i < rows.len() && rows[i].message.process_id@ == pid && rows[i].message.timestamp == t && (
            from matches Some(f) ==> f < t) ==> #[trigger] in_window(rows[i], pid, from, Some(t)),
{
    lemma_window_members(rows, pid, from, to, rows.len() as int);
}

/// The rows of a page window come in timestamp order, earlier insertion first among equal
/// timestamps.
pub proof fn lemma_window_in_timestamp_order(store: TableModel, pid: Seq<char>, from: Option<i64>, to: Option<i64>)
    requires
        store.wf(),
    ensures
        ({
            let rows = store.message_rows();
            let w = window_rows(rows, pid, from, to);
            forall|k: int, l: int| 0 <= k < l < w.len() ==> key_lt(rows[#[trigger] w[k]], rows[#[trigger] w[l]])
        }),
{
    let rows = store.message_rows();
    lemma_window_members(rows, pid, from, to, rows.len() as int);
}

/// A page row whose bundle is missing on disk resolves to its stored row, bundle included,
/// when no other row has the same message and assignment ids.
pub proof fn lemma_missing_bundle_falls_back(rows: Seq<DbMessage>, i: int, r: DbMessageWithoutData)
    requires
        0 <= i < rows.len(),
        shows_row(r, rows[i]),
        forall|k: int| 0 <= k < rows.len() && k != i ==> !keyed_by(r.message_id@, opt_view(r.assignment_id))(#[trigger] rows[k]),
    ensures
        resolved(rows, r, None) == Some(rows[i].message@),
{
    let q = keyed_by(r.message_id@, opt_view(r.assignment_id));
    assert(r.model_with(rows[i].message.bundle@) == rows[i].message@);
    assert(q(rows[i]));
    assert(is_first(rows, q, i));
    let c = canonical(rows, q);
    assert(is_first(rows, q, c));
}

/// Writing the same bundle file twice keeps the bytes that the first write found or wrote.
pub proof fn lemma_save_keeps_first(
    files: Map<Seq<char>, Seq<u8>>,
    path: Seq<char>,
    first: Seq<u8>,
    second: Seq<u8>,
    dir_exists: bool,
)
    ensures
        ({
            let once = apply_save(files, path, first, plan_spec(dir_exists, files.contains_key(path)));
            let twice = apply_save(once, path, second, plan_spec(true, once.contains_key(path)));
            &&& twice.contains_key(path)
            &&& twice[path] == once[path]
            &&& twice[path] == if files.contains_key(path) { files[path] } else { first }
        }),
{
}

/// After a message is saved, it is the latest message of its process.
pub proof fn lemma_latest_after_save(before: Seq<DbMessage>, next: int, p: int, row: DbMessage, m: MessageModel, bundle: Seq<u8>)
    requires
        forall|i: int| 0 <= i < before.len() ==> (#[trigger] before[i]).row_id < next,
        0 <= p <= before.len(),
        saved_row(row, next, m, bundle),
    ensures
        ({
            let after = before.insert(p, row);
            &&& any_row(after, of_process(m.process_id))
            &&& latest(after, m.process_id) == p
            &&& after[latest(after, m.process_id)].message@ == m.with_bundle(bundle)
            &&& forall|k: int| #[trigger] is_newest(after, m.process_id, k) ==> k == p
        }),
{
    let after = before.insert(p, row);
    assert(after[p] == row);
    assert(of_process(m.process_id)(after[p]));
    assert forall|j: int| 0 <= j < after.len() && j != p && (#[trigger] after[j]).message.process_id@ == m.process_id
        implies after[j].row_id < after[p].row_id by {
        if j < p {
            assert(after[j] == before[j]);
        } else {
            assert(after[j] == before[j - 1]);
        }
    }
    assert(is_latest(after, m.process_id, p));
    let l = latest(after, m.process_id);
    assert(is_latest(after, m.process_id, l));
    if l != p {
        assert(after[l].row_id < after[p].row_id);
        assert(after[p].row_id < after[l].row_id);
    }
    assert forall|k: int| #[trigger] is_newest(after, m.process_id, k) implies k == p by {
        if k != p {
            assert(after[k].row_id < after[p].row_id);
            assert(after[p].row_id <= after[k].row_id);
        }
    }
}

/// A message saved under message and assignment ids that no row had before is read back,
/// with its bundle, by those ids.
pub proof fn lemma_message_round_trip(before: Seq<DbMessage>, p: int, row: DbMessage, id: int, m: MessageModel, bundle: Seq<u8>)
    requires
        !any_row(before, keyed_by(m.message_id, m.assignment_id)),
        0 <= p <= before.len(),
        saved_row(row, id, m, bundle),
    ensures
        ({
            let after = before.insert(p, row);
            &&& any_row(after, keyed_by(m.message_id, m.assignment_id))
            &&& after[canonical(after, keyed_by(m.message_id, m.assignment_id))].message@ == m.with_bundle(bundle)
        }),
{
    let after = before.insert(p, row);
    let q = keyed_by(m.message_id, m.assignment_id);
    assert(after[p] == row);
    assert(q(after[p]));
    assert forall|k: int| 0 <= k < after.len() && k != p implies !q(#[trigger] after[k]) by {
        if k < p {
            assert(after[k] == before[k]);
        } else {
            assert(after[k] == before[k - 1]);
        }
    }
    assert(is_first(after, q, p));
    let c = canonical(after, q);
    assert(is_first(after, q, c));
}

/// A process saved under a fresh id is read back with the same id and data.
pub proof fn lemma_process_round_trip(before: TableModel, after: TableModel, pid: Seq<char>, data: Seq<char>)
    requires
        !has_process(before.process_rows(), pid),
        after.process_rows().drop_last() == before.process_rows(),
        after.process_rows().len() == before.process_rows().len() + 1,
        after.process_rows().last().process_id@ == pid,
        after.process_rows().last().process_data@ == data,
    ensures
        has_process(after.process_rows(), pid),
        after.process_rows()[process_index(after.process_rows(), pid)].process_id@ == pid,
        after.process_rows()[process_index(after.process_rows(), pid)].process_data@ == data,
{
    let rows = after.process_rows();
    let n = rows.len() - 1;
    assert(rows[n].process_id@ == pid);
    let k = process_index(rows, pid);
    if k != n {
        assert(rows[k] == before.process_rows()[k]);
    }
}

} // verus!
