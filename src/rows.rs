use vstd::prelude::*;
use dashmap::DashMap;
use crate::bytestore::{blob_contents, blob_lookup, key_view, BlobKey};
use crate::error::StoreErrorType;
use crate::model::{copy_bytes, copy_opt, DbMessage, DbMessageWithoutData, Message, MessageModel, MessagePage, PaginatedMessages};
use crate::store::{any_row, answers_to, found_in, key_lt, keyed_by, of_process, row_key};
use crate::strings::{same_text, text};

verus! {

/// Row `i` satisfies `p`, and no row that satisfies `p` comes before it in the canonical
/// order (earlier timestamp, then earlier insertion).
pub open spec fn is_earliest(rows: Seq<DbMessage>, p: spec_fn(DbMessage) -> bool, i: int) -> bool {
    &&& 0 <= i < rows.len()
    &&& p(rows[i])
    &&& forall|j: int| 0 <= j < rows.len() && #[trigger] p(rows[j]) ==> !key_lt(rows[j], rows[i])
}

/// Row `i` belongs to process `pid`, and no row of that process was inserted after it.
pub open spec fn is_newest(rows: Seq<DbMessage>, pid: Seq<char>, i: int) -> bool {
    &&& 0 <= i < rows.len()
    &&& rows[i].message.process_id@ == pid
    &&& forall|j: int| 0 <= j < rows.len() && (#[trigger] rows[j]).message.process_id@ == pid ==> rows[j].row_id <= rows[i].row_id
}

fn answers(r: &DbMessage, tx: &str) -> (b: bool)
    ensures
        b == answers_to(tx@)(*r),
{
    let hit = match &r.message.assignment_id {
        Some(a) => same_text(a.as_str(), tx),
        None => false,
    };
    same_text(r.message.message_id.as_str(), tx) || hit
}

fn keyed(r: &DbMessage, mid: &String, aid: &Option<String>) -> (b: bool)
    ensures
        b == keyed_by(mid@, crate::model::opt_view(*aid))(*r),
{
    let same_assignment = match aid {
        Some(a) => match &r.message.assignment_id {
            Some(b) => *a == *b,
            None => false,
        },
        None => true,
    };
    r.message.message_id == *mid && same_assignment
}

fn earlier(a: &DbMessage, b: &DbMessage) -> (r: bool)
    ensures
        r == key_lt(*a, *b),
{
    a.message.timestamp < b.message.timestamp || (a.message.timestamp == b.message.timestamp && a.row_id < b.row_id)
}

/// The canonical message among the rows that a lookup by identifier returned: of the rows
/// that answer to `tx_id` by message id or assignment id, the earliest.
pub fn canonical_message(rows: &Vec<DbMessage>, tx_id: &str) -> (r: Result<Message, StoreErrorType>)
    ensures
        match r {
            Ok(m) => exists|i: int| is_earliest(rows@, answers_to(tx_id@), i) && m@ == rows@[i].message@,
            Err(e) => !any_row(rows@, answers_to(tx_id@)) && e is NotFound,
        },
{
    let mut best: Option<usize> = None;
    let mut i: usize = 0;
    while i < rows.len()
        invariant
            i <= rows@.len(),
            match best {
                Some(b) => b < i && is_earliest(rows@.take(i as int), answers_to(tx_id@), b as int),
                None => forall|j: int| 0 <= j < i ==> !answers_to(tx_id@)(#[trigger] rows@[j]),
            },
        decreases rows@.len() - i,
    {
        if answers(&rows[i], tx_id) {
            let better = match best {
                Some(b) => earlier(&rows[i], &rows[b]),
                None => true,
            };
            if better {
                best = Some(i);
            }
        }
        proof {
            let t = rows@.take(i + 1);
            assert forall|j: int| 0 <= j < i implies t[j] == #[trigger] rows@.take(i as int)[j] by {}
        }
        i = i + 1;
    }
    match best {
        Some(b) => {
            assert(rows@.take(rows@.len() as int) =~= rows@);
            Ok(rows[b].message.duplicate())
        },
        None => Err(StoreErrorType::NotFound(text("Message not found"))),
    }
}

/// The canonical message among the rows that a lookup by message id (and, when given,
/// assignment id) returned: of the rows with those ids, the earliest.
pub fn keyed_message(rows: &Vec<DbMessage>, message_id: &String, assignment_id: &Option<String>) -> (r: Result<Message, StoreErrorType>)
    ensures
        match r {
            Ok(m) => exists|i: int|
                is_earliest(rows@, keyed_by(message_id@, crate::model::opt_view(*assignment_id)), i) && m@ == rows@[i].message@,
            Err(e) => !any_row(rows@, keyed_by(message_id@, crate::model::opt_view(*assignment_id))) && e is NotFound,
        },
{
    let ghost p = keyed_by(message_id@, crate::model::opt_view(*assignment_id));
    let mut best: Option<usize> = None;
    let mut i: usize = 0;
    while i < rows.len()
        invariant
            i <= rows@.len(),
            p == keyed_by(message_id@, crate::model::opt_view(*assignment_id)),
            match best {
                Some(b) => b < i && is_earliest(rows@.take(i as int), p, b as int),
                None => forall|j: int| 0 <= j < i ==> !p(#[trigger] rows@[j]),
            },
        decreases rows@.len() - i,
    {
        if keyed(&rows[i], message_id, assignment_id) {
            let better = match best {
                Some(b) => earlier(&rows[i], &rows[b]),
                None => true,
            };
            if better {
                best = Some(i);
            }
        }
        proof {
            let t = rows@.take(i + 1);
            assert forall|j: int| 0 <= j < i implies t[j] == #[trigger] rows@.take(i as int)[j] by {}
        }
        i = i + 1;
    }
    match best {
        Some(b) => {
            assert(rows@.take(rows@.len() as int) =~= rows@);
            Ok(rows[b].message.duplicate())
        },
        None => Err(StoreErrorType::NotFound(text("Message not found"))),
    }
}

/// The most recently inserted message of a process among the rows a lookup returned.
pub fn newest_message(rows: &Vec<DbMessage>, process_id: &str) -> (r: Option<Message>)
    ensures
        match r {
            Some(m) => exists|i: int| is_newest(rows@, process_id@, i) && m@ == rows@[i].message@,
            None => !any_row(rows@, of_process(process_id@)),
        },
{
    let mut best: Option<usize> = None;
    let mut i: usize = 0;
    while i < rows.len()
        invariant
            i <= rows@.len(),
            match best {
                Some(b) => b < i && is_newest(rows@.take(i as int), process_id@, b as int),
                None => forall|j: int| 0 <= j < i ==> !of_process(process_id@)(#[trigger] rows@[j]),
            },
        decreases rows@.len() - i,
    {
        if same_text(rows[i].message.process_id.as_str(), process_id) {
            let better = match best {
                Some(b) => rows[b].row_id < rows[i].row_id,
                None => true,
            };
            if better {
                best = Some(i);
            }
        }
        proof {
            let t = rows@.take(i + 1);
            assert forall|j: int| 0 <= j < i implies t[j] == #[trigger] rows@.take(i as int)[j] by {}
        }
        i = i + 1;
    }
    match best {
        Some(b) => {
            assert(rows@.take(rows@.len() as int) =~= rows@);
            Some(rows[b].message.duplicate())
        },
        None => None,
    }
}

/// A page from the rows of a page query that fetched up to `limit + 1` rows in timestamp
/// order: the first `limit` of them, flagged when the extra row came back.
pub fn page_from_rows(rows: &Vec<DbMessage>, limit: i32) -> (r: PaginatedMessages)
    requires
        limit >= 0,
    ensures
        r.has_next_page == (rows@.len() > limit),
        r.messages@.len() == if rows@.len() > limit { limit as int } else { rows@.len() as int },
        forall|k: int| 0 <= k < r.messages@.len() ==> (#[trigger] r.messages@[k])@ == rows@[k].message@,
{
    let mut out: Vec<Message> = Vec::new();
    let mut k: usize = 0;
    while k < rows.len() && k < limit as usize
        invariant
            k <= rows@.len(),
            k <= limit,
            out@.len() == k,
            forall|j: int| 0 <= j < k ==> (#[trigger] out@[j])@ == rows@[j].message@,
        decreases rows@.len() - k,
    {
        out.push(rows[k].message.duplicate());
        k = k + 1;
    }
    PaginatedMessages { messages: out, has_next_page: rows.len() > limit as usize }
}

/// The same as `page_from_rows`, for rows read without their bundles.
pub fn page_of_rows(rows: Vec<DbMessageWithoutData>, limit: i32) -> (r: MessagePage)
    requires
        limit >= 0,
    ensures
        r.has_next_page == (rows@.len() > limit),
        r.rows@ == rows@.take(if rows@.len() > limit { limit as int } else { rows@.len() as int }),
{
    let n = rows.len();
    let mut rows = rows;
    if n > limit as usize {
        rows.truncate(limit as usize);
    }
    MessagePage { rows, has_next_page: n > limit as usize }
}

/// Whether a message may be written, given what a lookup of the data item it carries
/// returned: a second content-bearing record is refused, an assignment-only one passes.
pub fn existing_decision(message: &Message, lookup: &Result<Message, StoreErrorType>) -> (r: Result<(), StoreErrorType>)
    ensures
        message.message is None ==> r is Ok,
        message.message is Some ==> match lookup {
            Ok(found) => if found.message is Some {
                r matches Err(StoreErrorType::MessageExists(_))
            } else {
                r is Ok
            },
            Err(StoreErrorType::NotFound(_)) => r is Ok,
            Err(_) => r matches Err(StoreErrorType::DatabaseError(_)),
        },
{
    match &message.message {
        Some(_) => match lookup {
            Ok(parsed) => match &parsed.message {
                Some(_) => Err(StoreErrorType::MessageExists(text("Message already exists"))),
                None => Ok(()),
            },
            Err(StoreErrorType::NotFound(_)) => Ok(()),
            Err(_) => Err(StoreErrorType::DatabaseError(text("Error checking message"))),
        },
        None => Ok(()),
    }
}

/// The result of a message insert by the number of rows it affected: none is a failure.
pub fn insert_outcome(row_count: usize) -> (r: Result<String, StoreErrorType>)
    ensures
        row_count == 0 ==> r matches Err(StoreErrorType::DatabaseError(_)),
        row_count > 0 ==> (r matches Ok(s) && s@ == "saved"@),
{
    if row_count == 0 {
        Err(StoreErrorType::DatabaseError(text("Error saving message")))
    } else {
        Ok(text("saved"))
    }
}

/// The bundles found on disk for the rows of a page, in page order.
pub fn lookup_bundles(page: &MessagePage, binaries: DashMap<BlobKey, Vec<u8>>) -> (r: Vec<Option<Vec<u8>>>)
    ensures
        r@.len() == page.rows@.len(),
        forall|k: int| 0 <= k < r@.len() ==> match #[trigger] r@[k] {
            Some(b) => found_in(blob_contents(binaries), row_key(page.rows@[k])) == Some(b@),
            None => found_in(blob_contents(binaries), row_key(page.rows@[k])) is None,
        },
{
    let mut out: Vec<Option<Vec<u8>>> = Vec::new();
    let mut k: usize = 0;
    while k < page.rows.len()
        invariant
            k <= page.rows@.len(),
            out@.len() == k,
            forall|j: int| 0 <= j < k ==> match #[trigger] out@[j] {
                Some(b) => found_in(blob_contents(binaries), row_key(page.rows@[j])) == Some(b@),
                None => found_in(blob_contents(binaries), row_key(page.rows@[j])) is None,
            },
        decreases page.rows@.len() - k,
    {
        let row = &page.rows[k];
        let key: BlobKey = (row.message_id.clone(), copy_opt(&row.assignment_id), row.process_id.clone());
        assert(key_view(key) == row_key(*row));
        out.push(blob_lookup(&binaries, &key));
        k = k + 1;
    }
    out
}

/// Completes a page: each row carries the bundle found on disk for it, or else is the
/// message that the fallback read of its ids returned.
pub fn assemble_page(page: &MessagePage, found: Vec<Option<Vec<u8>>>, fallback: Vec<Option<Message>>) -> (r: Result<PaginatedMessages, StoreErrorType>)
    requires
        found@.len() == page.rows@.len(),
        fallback@.len() == page.rows@.len(),
    ensures
        (forall|k: int| 0 <= k < found@.len() ==> #[trigger] found@[k] is Some || fallback@[k] is Some) ==> (r matches Ok(p)
            && p.has_next_page == page.has_next_page && p.messages@.len() == page.rows@.len() && forall|k: int|
            0 <= k < p.messages@.len() ==> (#[trigger] p.messages@[k])@ == match found@[k] {
                Some(b) => page.rows@[k].model_with(b@),
                None => fallback@[k].unwrap()@,
            }),
        (exists|k: int| 0 <= k < found@.len() && #[trigger] found@[k] is None && fallback@[k] is None) ==> r matches Err(
            StoreErrorType::NotFound(_),
        ),
{
    let mut out: Vec<Message> = Vec::new();
    let mut k: usize = 0;
    let n = page.rows.len();
    while k < n
        invariant
            n == page.rows@.len(),
            found@.len() == n,
            fallback@.len() == n,
            k <= n,
            out@.len() == k,
            forall|j: int| 0 <= j < k ==> #[trigger] found@[j] is Some || fallback@[j] is Some,
            forall|j: int| 0 <= j < k ==> (#[trigger] out@[j])@ == match found@[j] {
                Some(b) => page.rows@[j].model_with(b@),
                None => fallback@[j].unwrap()@,
            },
        decreases n - k,
    {
        match &found[k] {
            Some(b) => out.push(page.rows[k].into_message(copy_bytes(b.as_slice()))),
            None => match &fallback[k] {
                Some(m) => out.push(m.duplicate()),
                None => return Err(StoreErrorType::NotFound(text("Message not found"))),
            },
        }
        k = k + 1;
    }
    Ok(PaginatedMessages { messages: out, has_next_page: page.has_next_page })
}

} // verus!
