use vstd::prelude::*;
use dashmap::DashMap;
use crate::bytestore::{blob_contents, blob_lookup, key_view, BlobKey, BlobKeyModel, ByteStore};
use crate::cursor::{parse_i64_spec, parse_timestamp};
use crate::error::StoreErrorType;
use crate::strings::{same_text, text};
use crate::model::{
    copy_bytes, copy_opt, DbMessage, DbMessageWithoutData, DbProcess, DbProcessScheduler, DbScheduler, Message,
    MessageModel, MessagePage, opt_view, PaginatedMessages, Process, ProcessScheduler, Scheduler,
};

verus! {

/// The canonical order of message rows: earlier timestamp first, then earlier insertion.
pub open spec fn key_lt(a: DbMessage, b: DbMessage) -> bool {
    a.message.timestamp < b.message.timestamp || (a.message.timestamp == b.message.timestamp
        && a.row_id < b.row_id)
}

/// Row `i` is the earliest, in the canonical order, of the rows that satisfy `p`.
pub open spec fn is_first(rows: Seq<DbMessage>, p: spec_fn(DbMessage) -> bool, i: int) -> bool {
    &&& 0 <= i < rows.len()
    &&& p(rows[i])
    &&& forall|j: int| 0 <= j < rows.len() && j != i && #[trigger] p(rows[j]) ==> key_lt(rows[i], rows[j])
}

pub open spec fn any_row(rows: Seq<DbMessage>, p: spec_fn(DbMessage) -> bool) -> bool {
    exists|i: int| 0 <= i < rows.len() && #[trigger] p(rows[i])
}

/// The canonical record among the rows that satisfy `p`.
pub open spec fn canonical(rows: Seq<DbMessage>, p: spec_fn(DbMessage) -> bool) -> int {
    choose|i: int| is_first(rows, p, i)
}

/// A row answers to the identifier `tx` by its message id or its assignment id.
pub open spec fn answers_to(tx: Seq<char>) -> spec_fn(DbMessage) -> bool {
    |r: DbMessage| r.message.message_id@ == tx || opt_view(r.message.assignment_id) == Some(tx)
}

/// A row has the message id `mid` and, when `aid` is given, that assignment id.
pub open spec fn keyed_by(mid: Seq<char>, aid: Option<Seq<char>>) -> spec_fn(DbMessage) -> bool {
    |r: DbMessage|
        r.message.message_id@ == mid && (aid is Some ==> opt_view(r.message.assignment_id) == aid)
}

pub open spec fn of_process(pid: Seq<char>) -> spec_fn(DbMessage) -> bool {
    |r: DbMessage| r.message.process_id@ == pid
}

/// Row `i` is the most recently inserted row of process `pid`.
pub open spec fn is_latest(rows: Seq<DbMessage>, pid: Seq<char>, i: int) -> bool {
    &&& 0 <= i < rows.len()
    &&& rows[i].message.process_id@ == pid
    &&& forall|j: int|
        0 <= j < rows.len() && j != i && (#[trigger] rows[j]).message.process_id@ == pid
            ==> rows[j].row_id < rows[i].row_id
}

pub open spec fn latest(rows: Seq<DbMessage>, pid: Seq<char>) -> int {
    choose|i: int| is_latest(rows, pid, i)
}


/// The page size used when a request gives none.
pub const DEFAULT_LIMIT: i32 = 5000;

/// A row belongs to process `pid` and its timestamp lies after `from` and at or before `to`.
pub open spec fn in_window(r: DbMessage, pid: Seq<char>, from: Option<i64>, to: Option<i64>) -> bool {
    &&& r.message.process_id@ == pid
    &&& (from matches Some(f) ==> r.message.timestamp > f)
    &&& (to matches Some(t) ==> r.message.timestamp <= t)
}

/// The indices below `n` of the rows in the window, in table order.
pub open spec fn window(rows: Seq<DbMessage>, pid: Seq<char>, from: Option<i64>, to: Option<i64>, n: int) -> Seq<int>
    decreases n,
{
    if n <= 0 {
        Seq::empty()
    } else {
        let p = window(rows, pid, from, to, n - 1);
        if in_window(rows[n - 1], pid, from, to) {
            p.push(n - 1)
        } else {
            p
        }
    }
}

/// The indices of all rows in the window, in timestamp order.
pub open spec fn window_rows(rows: Seq<DbMessage>, pid: Seq<char>, from: Option<i64>, to: Option<i64>) -> Seq<int> {
    window(rows, pid, from, to, rows.len() as int)
}

pub proof fn lemma_window_prefix(rows: Seq<DbMessage>, pid: Seq<char>, from: Option<i64>, to: Option<i64>, m: int, n: int)
    requires
        0 <= m <= n <= rows.len(),
    ensures
        window(rows, pid, from, to, m).len() <= window(rows, pid, from, to, n).len(),
        forall|k: int| 0 <= k < window(rows, pid, from, to, m).len()
            ==> #[trigger] window(rows, pid, from, to, m)[k] == window(rows, pid, from, to, n)[k],
    decreases n - m,
{
    if m < n {
        lemma_window_prefix(rows, pid, from, to, m, n - 1);
    }
}

pub proof fn lemma_window_members(rows: Seq<DbMessage>, pid: Seq<char>, from: Option<i64>, to: Option<i64>, n: int)
    requires
        0 <= n <= rows.len(),
    ensures
        forall|k: int| 0 <= k < window(rows, pid, from, to, n).len() ==> {
            let i = #[trigger] window(rows, pid, from, to, n)[k];
            0 <= i < n && in_window(rows[i], pid, from, to)
        },
        forall|k: int, l: int| 0 <= k < l < window(rows, pid, from, to, n).len()
            ==> #[trigger] window(rows, pid, from, to, n)[k] < #[trigger] window(rows, pid, from, to, n)[l],
        forall|i: int| 0 <= i < n && in_window(rows[i], pid, from, to)
            ==> window(rows, pid, from, to, n).contains(i),
    decreases n,
{
    if n > 0 {
        lemma_window_members(rows, pid, from, to, n - 1);
        let p = window(rows, pid, from, to, n - 1);
        assert forall|i: int| 0 <= i < n && in_window(rows[i], pid, from, to)
            implies window(rows, pid, from, to, n).contains(i) by {
            if i < n - 1 {
                assert(p.contains(i));
                let k = choose|k: int| 0 <= k < p.len() && p[k] == i;
                lemma_window_prefix(rows, pid, from, to, n - 1, n);
                assert(window(rows, pid, from, to, n)[k] == i);
                assert(0 <= k < window(rows, pid, from, to, n).len());
            } else {
                assert(window(rows, pid, from, to, n).last() == i);
            }
        }
    }
}

/// `p` is the page of at most `limit` rows of the window, flagged when more rows follow.
pub open spec fn is_page(rows: Seq<DbMessage>, pid: Seq<char>, from: Option<i64>, to: Option<i64>, limit: int,
    p: PaginatedMessages) -> bool {
    let w = window_rows(rows, pid, from, to);
    &&& p.has_next_page == (w.len() > limit)
    &&& p.messages@.len() == if w.len() > limit { limit } else { w.len() as int }
    &&& forall|k: int| 0 <= k < p.messages@.len() ==> (#[trigger] p.messages@[k])@ == rows[w[k]].message@
}

/// A timestamp bound that is absent or reads as an `i64`.
pub open spec fn bound_ok(b: Option<String>) -> bool {
    b matches Some(s) ==> parse_i64_spec(s@) is Some
}

pub open spec fn bound_value(b: Option<String>) -> Option<i64> {
    match b {
        Some(s) => Some(parse_i64_spec(s@).unwrap() as i64),
        None => None,
    }
}

pub open spec fn limit_value(l: Option<i32>) -> int {
    match l {
        Some(v) => v as int,
        None => DEFAULT_LIMIT as int,
    }
}


/// A content-bearing record already answers to the data item that `m` carries.
pub open spec fn content_exists(rows: Seq<DbMessage>, m: MessageModel) -> bool {
    match m.message {
        Some(id) => any_row(rows, answers_to(id)) && rows[canonical(rows, answers_to(id))].message.message is Some,
        None => false,
    }
}

/// The row that saving `m` with bundle `b` adds under row id `id`.
pub open spec fn saved_row(r: DbMessage, id: int, m: MessageModel, b: Seq<u8>) -> bool {
    r.row_id == id && r.message@ == m.with_bundle(b)
}


pub open spec fn has_process(rows: Seq<DbProcess>, pid: Seq<char>) -> bool {
    exists|i: int| 0 <= i < rows.len() && (#[trigger] rows[i]).process_id@ == pid
}

pub open spec fn process_index(rows: Seq<DbProcess>, pid: Seq<char>) -> int {
    choose|i: int| 0 <= i < rows.len() && (#[trigger] rows[i]).process_id@ == pid
}

pub open spec fn has_url(rows: Seq<DbScheduler>, url: Seq<char>) -> bool {
    exists|i: int| 0 <= i < rows.len() && (#[trigger] rows[i]).url@ == url
}

pub open spec fn url_index(rows: Seq<DbScheduler>, url: Seq<char>) -> int {
    choose|i: int| 0 <= i < rows.len() && (#[trigger] rows[i]).url@ == url
}

pub open spec fn has_assignment(rows: Seq<DbProcessScheduler>, pid: Seq<char>) -> bool {
    exists|i: int| 0 <= i < rows.len() && (#[trigger] rows[i]).process_id@ == pid
}

pub open spec fn assignment_index(rows: Seq<DbProcessScheduler>, pid: Seq<char>) -> int {
    choose|i: int| 0 <= i < rows.len() && (#[trigger] rows[i]).process_id@ == pid
}

/// `s` shows the scheduler row `r`.
pub open spec fn shows_scheduler(s: Scheduler, r: DbScheduler) -> bool {
    s.row_id == Some(r.row_id) && s.url@ == r.url@ && s.process_count == r.process_count
}


/// `r` is the row `d` read without its bundle.
pub open spec fn shows_row(r: DbMessageWithoutData, d: DbMessage) -> bool {
    r.row_id == d.row_id && r.model_with(d.message.bundle@) == d.message@
}

/// The key under which the bundle of a row is stored.
pub open spec fn row_key(r: DbMessageWithoutData) -> BlobKeyModel {
    (r.message_id@, opt_view(r.assignment_id), r.process_id@)
}

pub open spec fn found_in(m: Map<BlobKeyModel, Seq<u8>>, k: BlobKeyModel) -> Option<Seq<u8>> {
    if m.contains_key(k) {
        Some(m[k])
    } else {
        None
    }
}

/// The message that a page row stands for: with the bundle found on disk, or else the
/// canonical record of the row's message and assignment ids, read with its bundle.
pub open spec fn resolved(rows: Seq<DbMessage>, r: DbMessageWithoutData, found: Option<Seq<u8>>) -> Option<MessageModel> {
    match found {
        Some(b) => Some(r.model_with(b)),
        None => {
            let p = keyed_by(r.message_id@, opt_view(r.assignment_id));
            if any_row(rows, p) {
                Some(rows[canonical(rows, p)].message@)
            } else {
                None
            }
        },
    }
}

/// A page request, with its bounds read.
pub struct PageQuery {
    pub from: Option<i64>,
    pub to: Option<i64>,
    pub limit: i32,
}

/// Reads the bounds and the limit of a page request: bounds are decimal timestamps, the
/// limit defaults to `DEFAULT_LIMIT` and may not be negative.
pub fn page_query(from: &Option<String>, to: &Option<String>, limit: &Option<i32>) -> (r: Result<PageQuery, StoreErrorType>)
    ensures
        !bound_ok(*from) || !bound_ok(*to) ==> r matches Err(StoreErrorType::IntError(_)),
        bound_ok(*from) && bound_ok(*to) && limit_value(*limit) < 0 ==> r matches Err(StoreErrorType::DatabaseError(_)),
        bound_ok(*from) && bound_ok(*to) && limit_value(*limit) >= 0 ==> (r matches Ok(q) && q.from == bound_value(*from)
            && q.to == bound_value(*to) && q.limit == limit_value(*limit)),
{
    let f = match from {
        Some(s) => match parse_timestamp(s.as_str()) {
            Ok(v) => Some(v),
            Err(e) => return Err(e),
        },
        None => None,
    };
    let t = match to {
        Some(s) => match parse_timestamp(s.as_str()) {
            Ok(v) => Some(v),
            Err(e) => return Err(e),
        },
        None => None,
    };
    let l = match limit {
        Some(v) => *v,
        None => DEFAULT_LIMIT,
    };
    if l < 0 {
        return Err(StoreErrorType::DatabaseError(text("LIMIT must not be negative")));
    }
    Ok(PageQuery { from: f, to: t, limit: l })
}

/// A reference model of the relational tables, held in memory: it states what each query
/// of the store returns, and serves tests. It keeps nothing durable; the service keeps its
/// tables in the database.
pub struct TableModel {
    messages: Vec<DbMessage>,
    next_message_row: i32,
    processes: Vec<DbProcess>,
    schedulers: Vec<DbScheduler>,
    process_schedulers: Vec<DbProcessScheduler>,
    use_disk: bool,
    bytestore: ByteStore,
}

impl TableModel {
    pub closed spec fn message_rows(&self) -> Seq<DbMessage> {
        self.messages@
    }

    pub closed spec fn next_row(&self) -> int {
        self.next_message_row as int
    }

    pub closed spec fn process_rows(&self) -> Seq<DbProcess> {
        self.processes@
    }

    pub closed spec fn scheduler_rows(&self) -> Seq<DbScheduler> {
        self.schedulers@
    }

    pub closed spec fn process_scheduler_rows(&self) -> Seq<DbProcessScheduler> {
        self.process_schedulers@
    }

    pub closed spec fn disk_enabled(&self) -> bool {
        self.use_disk
    }

    pub closed spec fn byte_store(&self) -> ByteStore {
        self.bytestore
    }

    /// The tables' invariant: message rows in canonical order with distinct row ids below
    /// the next one, and the other tables keyed uniquely with row ids that count from one.
    pub open spec fn wf(&self) -> bool {
        let rows = self.message_rows();
        &&& forall|i: int, j: int| 0 <= i < j < rows.len() ==> key_lt(#[trigger] rows[i], #[trigger] rows[j])
        &&& forall|i: int| 0 <= i < rows.len() ==> 1 <= (#[trigger] rows[i]).row_id < self.next_row()
        &&& forall|i: int, j: int|
            0 <= i < rows.len() && 0 <= j < rows.len() && i != j ==> #[trigger] rows[i].row_id
                != #[trigger] rows[j].row_id
        &&& self.next_row() == rows.len() + 1
        &&& forall|i: int| 0 <= i < self.process_rows().len() ==> (#[trigger] self.process_rows()[i]).row_id == i + 1
        &&& forall|i: int, j: int|
            0 <= i < self.process_rows().len() && 0 <= j < self.process_rows().len() && i != j
                ==> #[trigger] self.process_rows()[i].process_id@ != #[trigger] self.process_rows()[j].process_id@
        &&& forall|i: int| 0 <= i < self.scheduler_rows().len() ==> (#[trigger] self.scheduler_rows()[i]).row_id == i + 1
        &&& forall|i: int, j: int|
            0 <= i < self.scheduler_rows().len() && 0 <= j < self.scheduler_rows().len() && i != j
                ==> #[trigger] self.scheduler_rows()[i].url@ != #[trigger] self.scheduler_rows()[j].url@
        &&& forall|i: int| 0 <= i < self.process_scheduler_rows().len()
            ==> (#[trigger] self.process_scheduler_rows()[i]).row_id == i + 1
        &&& forall|i: int, j: int|
            0 <= i < self.process_scheduler_rows().len() && 0 <= j < self.process_scheduler_rows().len() && i != j
                ==> #[trigger] self.process_scheduler_rows()[i].process_id@
                != #[trigger] self.process_scheduler_rows()[j].process_id@
    }

    /// An empty store.
    pub fn new(use_disk: bool, bytestore: ByteStore) -> (r: TableModel)
        ensures
            r.wf(),
            r.message_rows().len() == 0,
            r.process_rows().len() == 0,
            r.scheduler_rows().len() == 0,
            r.process_scheduler_rows().len() == 0,
            r.disk_enabled() == use_disk,
            r.byte_store() == bytestore,
    {
        TableModel {
            messages: Vec::new(),
            next_message_row: 1,
            processes: Vec::new(),
            schedulers: Vec::new(),
            process_schedulers: Vec::new(),
            use_disk,
            bytestore,
        }
    }

    pub fn use_disk(&self) -> (r: bool)
        ensures
            r == self.disk_enabled(),
    {
        self.use_disk
    }

    pub fn bytestore(&self) -> (r: &ByteStore)
        ensures
            *r == self.byte_store(),
    {
        &self.bytestore
    }

    /// The number of stored messages.
    pub fn get_message_count(&self) -> (r: i64)
        requires
            self.wf(),
        ensures
            r == self.message_rows().len(),
    {
        self.messages.len() as i64
    }

    proof fn lemma_first_is_canonical(&self, p: spec_fn(DbMessage) -> bool, i: int)
        requires
            self.wf(),
            0 <= i < self.message_rows().len(),
            p(self.message_rows()[i]),
            forall|j: int| 0 <= j < i ==> !p(#[trigger] self.message_rows()[j]),
        ensures
            is_first(self.message_rows(), p, i),
            canonical(self.message_rows(), p) == i,
    {
        let rows = self.message_rows();
        assert forall|j: int| 0 <= j < rows.len() && j != i && #[trigger] p(rows[j]) implies key_lt(rows[i], rows[j]) by {
            if j < i {
                assert(!p(rows[j]));
            } else {
                assert(key_lt(rows[i], rows[j]));
            }
        }
        assert(is_first(rows, p, i));
        let k = canonical(rows, p);
        assert(is_first(rows, p, k));
        if k != i {
            assert(key_lt(rows[i], rows[k]));
            assert(key_lt(rows[k], rows[i]));
        }
    }

    /// Index of the first row that answers to `tx`.
    fn find_answering(&self, tx: &str) -> (r: Option<usize>)
        ensures
            match r {
                Some(i) => i < self.message_rows().len() && answers_to(tx@)(self.message_rows()[i as int])
                    && forall|j: int| 0 <= j < i ==> !answers_to(tx@)(#[trigger] self.message_rows()[j]),
                None => !any_row(self.message_rows(), answers_to(tx@)),
            },
    {
        let mut i: usize = 0;
        while i < self.messages.len()
            invariant
                i <= self.messages@.len(),
                forall|j: int| 0 <= j < i ==> !answers_to(tx@)(#[trigger] self.messages@[j]),
            decreases self.messages@.len() - i,
        {
            let m = &self.messages[i].message;
            let hit = match &m.assignment_id {
                Some(a) => same_text(a.as_str(), tx),
                None => false,
            };
            if same_text(m.message_id.as_str(), tx) || hit {
                return Some(i);
            }
            i = i + 1;
        }
        None
    }

    /// Index of the first row with message id `mid` and, when given, assignment id `aid`.
    fn find_keyed(&self, mid: &String, aid: &Option<String>) -> (r: Option<usize>)
        ensures
            match r {
                Some(i) => i < self.message_rows().len() && keyed_by(mid@, opt_view(*aid))(self.message_rows()[i as int])
                    && forall|j: int| 0 <= j < i ==> !keyed_by(mid@, opt_view(*aid))(#[trigger] self.message_rows()[j]),
                None => !any_row(self.message_rows(), keyed_by(mid@, opt_view(*aid))),
            },
    {
        let mut i: usize = 0;
        while i < self.messages.len()
            invariant
                i <= self.messages@.len(),
                forall|j: int| 0 <= j < i ==> !keyed_by(mid@, opt_view(*aid))(#[trigger] self.messages@[j]),
            decreases self.messages@.len() - i,
        {
            let m = &self.messages[i].message;
            let same_assignment = match aid {
                Some(a) => match &m.assignment_id {
                    Some(b) => *a == *b,
                    None => false,
                },
                None => true,
            };
            if m.message_id == *mid && same_assignment {
                return Some(i);
            }
            i = i + 1;
        }
        None
    }

    /// The canonical message that answers to `tx_id`, by message id or assignment id:
    /// of several matches, the one with the earliest timestamp.
    pub fn get_message(&self, tx_id: &str) -> (r: Result<Message, StoreErrorType>)
        requires
            self.wf(),
        ensures
            match r {
                Ok(m) => any_row(self.message_rows(), answers_to(tx_id@))
                    && m@ == self.message_rows()[canonical(self.message_rows(), answers_to(tx_id@))].message@,
                Err(e) => !any_row(self.message_rows(), answers_to(tx_id@)) && e is NotFound,
            },
    {
        match self.find_answering(tx_id) {
            Some(i) => {
                proof {
                    self.lemma_first_is_canonical(answers_to(tx_id@), i as int);
                }
                Ok(self.messages[i].message.duplicate())
            },
            None => Err(StoreErrorType::NotFound(text("Message not found"))),
        }
    }

    /// The canonical message with message id `message_id` and, when given, assignment id
    /// `assignment_id`.
    pub fn get_message_internal(&self, message_id: &String, assignment_id: &Option<String>) -> (r:
        Result<Message, StoreErrorType>)
        requires
            self.wf(),
        ensures
            match r {
                Ok(m) => any_row(self.message_rows(), keyed_by(message_id@, opt_view(*assignment_id)))
                    && m@ == self.message_rows()[canonical(
                    self.message_rows(),
                    keyed_by(message_id@, opt_view(*assignment_id)),
                )].message@,
                Err(e) => !any_row(self.message_rows(), keyed_by(message_id@, opt_view(*assignment_id)))
                    && e is NotFound,
            },
    {
        match self.find_keyed(message_id, assignment_id) {
            Some(i) => {
                proof {
                    self.lemma_first_is_canonical(keyed_by(message_id@, opt_view(*assignment_id)), i as int);
                }
                Ok(self.messages[i].message.duplicate())
            },
            None => Err(StoreErrorType::NotFound(text("Message not found"))),
        }
    }

    /// The most recently inserted message of a process, read from the primary tables.
    pub fn get_latest_message(&self, process_id: &str) -> (r: Result<Option<Message>, StoreErrorType>)
        requires
            self.wf(),
        ensures
            match r {
                Ok(Some(m)) => any_row(self.message_rows(), of_process(process_id@))
                    && m@ == self.message_rows()[latest(self.message_rows(), process_id@)].message@,
                Ok(None) => !any_row(self.message_rows(), of_process(process_id@)),
                Err(_) => false,
            },
    {
        let mut best: Option<usize> = None;
        let mut i: usize = 0;
        while i < self.messages.len()
            invariant
                self.wf(),
                i <= self.messages@.len(),
                match best {
                    Some(b) => b < i && is_latest(self.messages@.take(i as int), process_id@, b as int),
                    None => forall|j: int| 0 <= j < i ==> !of_process(process_id@)(#[trigger] self.messages@[j]),
                },
            decreases self.messages@.len() - i,
        {
            let ghost old_best = best;
            let row = &self.messages[i];
            if same_text(row.message.process_id.as_str(), process_id) {
                let better = match best {
                    Some(b) => self.messages[b].row_id < row.row_id,
                    None => true,
                };
                if better {
                    best = Some(i);
                }
            }
            proof {
                let rows = self.messages@;
                let t = rows.take(i + 1);
                let t0 = rows.take(i as int);
                match best {
                    Some(b) => {
                        assert forall|j: int| 0 <= j < t.len() && j != b && (#[trigger] t[j]).message.process_id@ == process_id@
                            implies t[j].row_id < t[b as int].row_id by {
                            assert(t[j] == rows[j]);
                            assert(t[b as int] == rows[b as int]);
                            assert(rows[j].row_id != rows[b as int].row_id);
                            if j < i {
                                assert(t0[j] == rows[j]);
                                match old_best {
                                    Some(ob) => {
                                        assert(t0[ob as int] == rows[ob as int]);
                                        if j != ob {
                                            assert(rows[j].row_id < rows[ob as int].row_id);
                                        }
                                    },
                                    None => {
                                        assert(!of_process(process_id@)(rows[j]));
                                    },
                                }
                            }
                        }
                        assert(is_latest(t, process_id@, b as int));
                    },
                    None => {},
                }
            }
            i = i + 1;
        }
        match best {
            Some(b) => {
                proof {
                    let rows = self.messages@;
                    assert(rows.take(rows.len() as int) =~= rows);
                    assert(is_latest(rows, process_id@, b as int));
                    assert(of_process(process_id@)(rows[b as int]));
                    let k = latest(rows, process_id@);
                    assert(is_latest(rows, process_id@, k));
                    if k != b {
                        assert(rows[k].row_id < rows[b as int].row_id);
                        assert(rows[b as int].row_id < rows[k].row_id);
                    }
                }
                Ok(Some(self.messages[b].message.duplicate()))
            },
            None => Ok(None),
        }
    }

    /// The indices of the first `limit` rows of the window, and whether more follow.
    fn select_page(&self, process_id: &str, from: Option<i64>, to: Option<i64>, limit: i32) -> (r: (Vec<usize>, bool))
        requires
            self.wf(),
            limit >= 0,
        ensures
            ({
                let w = window_rows(self.message_rows(), process_id@, from, to);
                &&& r.1 == (w.len() > limit)
                &&& r.0@.len() == if w.len() > limit { limit as int } else { w.len() as int }
                &&& forall|k: int| 0 <= k < r.0@.len() ==> #[trigger] r.0@[k] as int == w[k]
                &&& forall|k: int| 0 <= k < r.0@.len() ==> r.0@[k] < self.message_rows().len()
            }),
    {
        let ghost rows = self.messages@;
        let mut out: Vec<usize> = Vec::new();
        let mut more = false;
        let mut i: usize = 0;
        while i < self.messages.len() && !more
            invariant
                rows == self.messages@,
                i <= rows.len(),
                limit >= 0,
                !more ==> window(rows, process_id@, from, to, i as int).len() <= limit,
                !more ==> out@.len() == window(rows, process_id@, from, to, i as int).len(),
                more ==> window(rows, process_id@, from, to, i as int).len() == limit + 1,
                more ==> out@.len() == limit,
                forall|k: int| 0 <= k < out@.len() ==> #[trigger] out@[k] as int == window(rows, process_id@, from, to, i as int)[k],
            decreases rows.len() - i, if more { 0int } else { 1int },
        {
            let m = &self.messages[i].message;
            let inside = same_text(m.process_id.as_str(), process_id) && match from {
                Some(f) => m.timestamp > f,
                None => true,
            } && match to {
                Some(t) => m.timestamp <= t,
                None => true,
            };
            proof {
                lemma_window_prefix(rows, process_id@, from, to, i as int, i + 1);
            }
            if inside {
                if out.len() < limit as usize {
                    out.push(i);
                } else {
                    more = true;
                }
            }
            i = i + 1;
        }
        proof {
            lemma_window_prefix(rows, process_id@, from, to, i as int, rows.len() as int);
            lemma_window_members(rows, process_id@, from, to, i as int);
        }
        (out, more)
    }

    /// A page of a process's messages in timestamp order, with their bundles as stored in the
    /// tables: rows after `from` and up to `to`, at most `limit` of them (by default
    /// `DEFAULT_LIMIT`), and whether more rows follow.
    pub fn get_messages(&self, process_id: &str, from: &Option<String>, to: &Option<String>, limit: &Option<i32>) -> (r:
        Result<PaginatedMessages, StoreErrorType>)
        requires
            self.wf(),
        ensures
            !bound_ok(*from) || !bound_ok(*to) ==> r matches Err(StoreErrorType::IntError(_)),
            bound_ok(*from) && bound_ok(*to) && limit_value(*limit) < 0 ==> r matches Err(StoreErrorType::DatabaseError(_)),
            bound_ok(*from) && bound_ok(*to) && limit_value(*limit) >= 0 ==> (r matches Ok(p) && is_page(
                self.message_rows(),
                process_id@,
                bound_value(*from),
                bound_value(*to),
                limit_value(*limit),
                p,
            )),
    {
        let q = match page_query(from, to, limit) {
            Ok(q) => q,
            Err(e) => return Err(e),
        };
        let (idx, more) = self.select_page(process_id, q.from, q.to, q.limit);
        let ghost w = window_rows(self.message_rows(), process_id@, q.from, q.to);
        let mut out: Vec<Message> = Vec::new();
        let mut k: usize = 0;
        while k < idx.len()
            invariant
                k <= idx@.len(),
                out@.len() == k,
                forall|j: int| 0 <= j < idx@.len() ==> #[trigger] idx@[j] as int == w[j],
                forall|j: int| 0 <= j < idx@.len() ==> idx@[j] < self.message_rows().len(),
                forall|j: int| 0 <= j < k ==> (#[trigger] out@[j])@ == self.message_rows()[w[j]].message@,
            decreases idx@.len() - k,
        {
            let row = idx[k];
            assert(idx@[k as int] as int == w[k as int]);
            out.push(self.messages[row].message.duplicate());
            k = k + 1;
        }
        Ok(PaginatedMessages { messages: out, has_next_page: more })
    }

    /// Refuses a second content-bearing record for the data item that `message` carries;
    /// assignment-only records pass.
    pub fn check_existing_message(&self, message: &Message) -> (r: Result<(), StoreErrorType>)
        requires
            self.wf(),
        ensures
            content_exists(self.message_rows(), message@) ==> r matches Err(StoreErrorType::MessageExists(_)),
            !content_exists(self.message_rows(), message@) ==> r is Ok,
    {
        match &message.message {
            Some(id) => match self.get_message(id.as_str()) {
                Ok(parsed) => match parsed.message {
                    Some(_) => Err(StoreErrorType::MessageExists(text("Message already exists"))),
                    None => Ok(()),
                },
                Err(StoreErrorType::NotFound(_)) => Ok(()),
                Err(_) => Err(StoreErrorType::DatabaseError(text("Error checking message"))),
            },
            None => Ok(()),
        }
    }

    /// Index at which a row with timestamp `ts` goes: after every row whose timestamp is not later.
    fn insert_position(&self, ts: i64) -> (r: usize)
        requires
            self.wf(),
        ensures
            r <= self.message_rows().len(),
            forall|j: int| 0 <= j < r ==> (#[trigger] self.message_rows()[j]).message.timestamp <= ts,
            forall|j: int| r <= j < self.message_rows().len() ==> (#[trigger] self.message_rows()[j]).message.timestamp > ts,
    {
        let n = self.messages.len();
        let mut i: usize = n;
        while i > 0 && self.messages[i - 1].message.timestamp > ts
            invariant
                self.wf(),
                n == self.messages@.len(),
                i <= n,
                forall|j: int| i <= j < n ==> (#[trigger] self.messages@[j]).message.timestamp > ts,
            decreases i,
        {
            i = i - 1;
        }
        proof {
            let rows = self.messages@;
            assert forall|j: int| 0 <= j < i implies (#[trigger] rows[j]).message.timestamp <= ts by {
                if j < i - 1 {
                    assert(key_lt(rows[j], rows[i - 1]));
                }
            }
        }
        i
    }

    /// Records a message and its bundle. Fails with `MessageExists` when a content-bearing
    /// record already answers to the data item the message carries, and with `JsonError` when
    /// the message has no assignment id; otherwise adds exactly one row, under the next row id.
    pub fn save_message(&mut self, message: &Message, bundle: &[u8]) -> (r: Result<String, StoreErrorType>)
        requires
            old(self).wf(),
        ensures
            final(self).wf(),
            final(self).process_rows() == old(self).process_rows(),
            final(self).scheduler_rows() == old(self).scheduler_rows(),
            final(self).process_scheduler_rows() == old(self).process_scheduler_rows(),
            final(self).disk_enabled() == old(self).disk_enabled(),
            final(self).byte_store() == old(self).byte_store(),
            content_exists(old(self).message_rows(), message@) ==> r matches Err(StoreErrorType::MessageExists(_)),
            !content_exists(old(self).message_rows(), message@) && message.assignment_id is None ==> r matches Err(
                StoreErrorType::JsonError(_),
            ),
            !content_exists(old(self).message_rows(), message@) && message.assignment_id is Some && old(self).next_row()
                == i32::MAX ==> r matches Err(StoreErrorType::DatabaseError(_)),
            r is Err ==> final(self).message_rows() == old(self).message_rows() && final(self).next_row() == old(self).next_row(),
            !content_exists(old(self).message_rows(), message@) && message.assignment_id is Some && old(self).next_row()
                < i32::MAX ==> r is Ok,
            r is Ok ==> final(self).next_row() == old(self).next_row() + 1 && exists|p: int, row: DbMessage|
                0 <= p <= old(self).message_rows().len() && saved_row(row, old(self).next_row(), message@, bundle@)
                    && final(self).message_rows() == old(self).message_rows().insert(p, row),
            r matches Ok(v) ==> v@ == "saved"@,
    {
        match self.check_existing_message(message) {
            Ok(()) => {},
            Err(e) => return Err(e),
        }
        if message.assignment_id.is_none() {
            return Err(StoreErrorType::JsonError(text("data store json error: message has no assignment")));
        }
        if self.next_message_row == i32::MAX {
            return Err(StoreErrorType::DatabaseError(text("Error saving message")));
        }
        let id = self.next_message_row;
        let row = DbMessage { row_id: id, message: message.with_bundle(copy_bytes(bundle)) };
        let p = self.insert_position(message.timestamp);
        let ghost old_rows = self.messages@;
        self.messages.insert(p, row);
        self.next_message_row = id + 1;
        proof {
            let rows = self.messages@;
            assert(rows == old_rows.insert(p as int, row));
            assert forall|i: int, j: int| 0 <= i < j < rows.len() implies key_lt(#[trigger] rows[i], #[trigger] rows[j]) by {
                if j < p {
                } else if j == p {
                    assert(old_rows[i].row_id < id);
                } else if i < p {
                    assert(rows[j] == old_rows[j - 1]);
                    if i < j - 1 {
                        assert(key_lt(old_rows[i], old_rows[j - 1]));
                    }
                } else if i == p {
                    assert(rows[j] == old_rows[j - 1]);
                } else {
                    assert(key_lt(old_rows[i - 1], old_rows[j - 1]));
                }
            }
            assert forall|i: int| 0 <= i < rows.len() implies 1 <= (#[trigger] rows[i]).row_id < self.next_row() by {
                if i < p {
                    assert(rows[i] == old_rows[i]);
                } else if i > p {
                    assert(rows[i] == old_rows[i - 1]);
                }
            }
            assert forall|i: int, j: int| 0 <= i < rows.len() && 0 <= j < rows.len() && i != j
                implies #[trigger] rows[i].row_id != #[trigger] rows[j].row_id by {
                let oi = if i < p { i } else { i - 1 };
                let oj = if j < p { j } else { j - 1 };
                if i != p && j != p {
                    assert(rows[i] == old_rows[oi]);
                    assert(rows[j] == old_rows[oj]);
                } else if i == p {
                    assert(rows[j] == old_rows[oj]);
                } else {
                    assert(rows[i] == old_rows[oi]);
                }
            }
            assert(saved_row(row, old(self).next_row(), message@, bundle@));
            assert(self.next_row() == rows.len() + 1);
            assert(self.process_rows() == old(self).process_rows());
            assert(self.scheduler_rows() == old(self).scheduler_rows());
            assert(self.process_scheduler_rows() == old(self).process_scheduler_rows());
        }
        Ok(text("saved"))
    }

    /// Records a process unless one with the same id is already stored, in which case
    /// nothing changes and the call still succeeds.
    pub fn save_process(&mut self, process: &Process, bundle: &[u8]) -> (r: Result<String, StoreErrorType>)
        requires
            old(self).wf(),
        ensures
            final(self).wf(),
            final(self).message_rows() == old(self).message_rows(),
            final(self).next_row() == old(self).next_row(),
            final(self).scheduler_rows() == old(self).scheduler_rows(),
            final(self).process_scheduler_rows() == old(self).process_scheduler_rows(),
            final(self).disk_enabled() == old(self).disk_enabled(),
            final(self).byte_store() == old(self).byte_store(),
            has_process(old(self).process_rows(), process.process_id@) ==> r is Ok && final(self).process_rows()
                == old(self).process_rows(),
            !has_process(old(self).process_rows(), process.process_id@) && old(self).process_rows().len() < i32::MAX
                ==> r is Ok && final(self).process_rows().len() == old(self).process_rows().len() + 1
                && final(self).process_rows().drop_last() == old(self).process_rows() && ({
                let row = final(self).process_rows().last();
                &&& row.row_id == final(self).process_rows().len()
                &&& row.process_id@ == process.process_id@
                &&& row.process_data@ == process.process_data@
                &&& row.bundle@ == bundle@
            }),
            !has_process(old(self).process_rows(), process.process_id@) && old(self).process_rows().len() >= i32::MAX
                ==> (r matches Err(StoreErrorType::DatabaseError(_)) && final(self).process_rows() == old(self).process_rows()),
            r matches Ok(v) ==> v@ == "saved"@,
    {
        let mut i: usize = 0;
        while i < self.processes.len()
            invariant
                self.wf(),
                i <= self.processes@.len(),
                forall|j: int| 0 <= j < i ==> (#[trigger] self.processes@[j]).process_id@ != process.process_id@,
            decreases self.processes@.len() - i,
        {
            if self.processes[i].process_id == process.process_id {
                return Ok(text("saved"));
            }
            i = i + 1;
        }
        if self.processes.len() >= i32::MAX as usize {
            return Err(StoreErrorType::DatabaseError(text("Error saving process")));
        }
        let row = DbProcess {
            row_id: (self.processes.len() + 1) as i32,
            process_id: process.process_id.clone(),
            process_data: process.process_data.clone(),
            bundle: copy_bytes(bundle),
        };
        self.processes.push(row);
        proof {
            let rows = self.processes@;
            assert(rows.drop_last() =~= old(self).processes@);
            assert(self.scheduler_rows() == old(self).scheduler_rows());
            assert(self.process_scheduler_rows() == old(self).process_scheduler_rows());
            assert(self.message_rows() == old(self).message_rows());
            assert forall|a: int| 0 <= a < rows.len() implies (#[trigger] rows[a]).row_id == a + 1 by {
                if a < rows.len() - 1 {
                    assert(rows[a] == old(self).processes@[a]);
                }
            }
            assert forall|a: int, b: int| 0 <= a < rows.len() && 0 <= b < rows.len() && a != b
                implies #[trigger] rows[a].process_id@ != #[trigger] rows[b].process_id@ by {
                if a < rows.len() - 1 && b < rows.len() - 1 {
                    assert(rows[a] == old(self).processes@[a]);
                    assert(rows[b] == old(self).processes@[b]);
                }
            }
        }
        Ok(text("saved"))
    }

    /// The stored process with the given id.
    pub fn get_process(&self, process_id: &str) -> (r: Result<Process, StoreErrorType>)
        requires
            self.wf(),
        ensures
            match r {
                Ok(p) => has_process(self.process_rows(), process_id@) && ({
                    let row = self.process_rows()[process_index(self.process_rows(), process_id@)];
                    p.process_id@ == row.process_id@ && p.process_data@ == row.process_data@
                }),
                Err(e) => !has_process(self.process_rows(), process_id@) && e is NotFound,
            },
    {
        let mut i: usize = 0;
        while i < self.processes.len()
            invariant
                self.wf(),
                i <= self.processes@.len(),
                forall|j: int| 0 <= j < i ==> (#[trigger] self.processes@[j]).process_id@ != process_id@,
            decreases self.processes@.len() - i,
        {
            let row = &self.processes[i];
            if same_text(row.process_id.as_str(), process_id) {
                proof {
                    let rows = self.process_rows();
                    let k = process_index(rows, process_id@);
                    assert(rows[i as int].process_id@ == process_id@);
                    if k != i {
                        assert(rows[k].process_id@ != rows[i as int].process_id@);
                    }
                }
                return Ok(Process { process_id: row.process_id.clone(), process_data: row.process_data.clone() });
            }
            i = i + 1;
        }
        Err(StoreErrorType::NotFound(text("Process not found")))
    }

    /// Records a scheduler unless one with the same url is already stored, in which case
    /// nothing changes and the call still succeeds.
    pub fn save_scheduler(&mut self, scheduler: &Scheduler) -> (r: Result<String, StoreErrorType>)
        requires
            old(self).wf(),
        ensures
            final(self).wf(),
            final(self).message_rows() == old(self).message_rows(),
            final(self).next_row() == old(self).next_row(),
            final(self).process_rows() == old(self).process_rows(),
            final(self).process_scheduler_rows() == old(self).process_scheduler_rows(),
            final(self).disk_enabled() == old(self).disk_enabled(),
            final(self).byte_store() == old(self).byte_store(),
            has_url(old(self).scheduler_rows(), scheduler.url@) ==> r is Ok && final(self).scheduler_rows()
                == old(self).scheduler_rows(),
            !has_url(old(self).scheduler_rows(), scheduler.url@) && old(self).scheduler_rows().len() < i32::MAX
                ==> r is Ok && final(self).scheduler_rows().len() == old(self).scheduler_rows().len() + 1
                && final(self).scheduler_rows().drop_last() == old(self).scheduler_rows() && ({
                let row = final(self).scheduler_rows().last();
                &&& row.row_id == final(self).scheduler_rows().len()
                &&& row.url@ == scheduler.url@
                &&& row.process_count == scheduler.process_count
            }),
            !has_url(old(self).scheduler_rows(), scheduler.url@) && old(self).scheduler_rows().len() >= i32::MAX
                ==> (r matches Err(StoreErrorType::DatabaseError(_)) && final(self).scheduler_rows() == old(self).scheduler_rows()),
            r matches Ok(v) ==> v@ == "saved"@,
    {
        let mut i: usize = 0;
        while i < self.schedulers.len()
            invariant
                self.wf(),
                i <= self.schedulers@.len(),
                forall|j: int| 0 <= j < i ==> (#[trigger] self.schedulers@[j]).url@ != scheduler.url@,
            decreases self.schedulers@.len() - i,
        {
            if self.schedulers[i].url == scheduler.url {
                return Ok(text("saved"));
            }
            i = i + 1;
        }
        if self.schedulers.len() >= i32::MAX as usize {
            return Err(StoreErrorType::DatabaseError(text("Error saving scheduler")));
        }
        let row = DbScheduler {
            row_id: (self.schedulers.len() + 1) as i32,
            url: scheduler.url.clone(),
            process_count: scheduler.process_count,
        };
        self.schedulers.push(row);
        proof {
            let rows = self.schedulers@;
            assert(rows.drop_last() =~= old(self).schedulers@);
            assert(self.process_rows() == old(self).process_rows());
            assert(self.process_scheduler_rows() == old(self).process_scheduler_rows());
            assert(self.message_rows() == old(self).message_rows());
            assert forall|a: int| 0 <= a < rows.len() implies (#[trigger] rows[a]).row_id == a + 1 by {
                if a < rows.len() - 1 {
                    assert(rows[a] == old(self).schedulers@[a]);
                }
            }
            assert forall|a: int, b: int| 0 <= a < rows.len() && 0 <= b < rows.len() && a != b
                implies #[trigger] rows[a].url@ != #[trigger] rows[b].url@ by {
                if a < rows.len() - 1 && b < rows.len() - 1 {
                    assert(rows[a] == old(self).schedulers@[a]);
                    assert(rows[b] == old(self).schedulers@[b]);
                }
            }
        }
        Ok(text("saved"))
    }

    /// Sets the url and process count of the scheduler row that `scheduler.row_id` names.
    /// A row id that names no row changes nothing; a url that another row holds is refused.
    pub fn update_scheduler(&mut self, scheduler: &Scheduler) -> (r: Result<String, StoreErrorType>)
        requires
            old(self).wf(),
            scheduler.row_id is Some,
        ensures
            final(self).wf(),
            final(self).message_rows() == old(self).message_rows(),
            final(self).next_row() == old(self).next_row(),
            final(self).process_rows() == old(self).process_rows(),
            final(self).process_scheduler_rows() == old(self).process_scheduler_rows(),
            final(self).disk_enabled() == old(self).disk_enabled(),
            final(self).byte_store() == old(self).byte_store(),
            ({
                let rows = old(self).scheduler_rows();
                let id = scheduler.row_id.unwrap() as int;
                let named = 1 <= id <= rows.len();
                let clash = named && has_url(rows, scheduler.url@) && url_index(rows, scheduler.url@) != id - 1;
                &&& !named ==> r is Ok && final(self).scheduler_rows() == rows
                &&& clash ==> (r matches Err(StoreErrorType::DatabaseError(_)) && final(self).scheduler_rows() == rows)
                &&& named && !clash ==> r is Ok && final(self).scheduler_rows().len() == rows.len()
                    && (forall|j: int| 0 <= j < rows.len() && j != id - 1 ==> #[trigger] final(self).scheduler_rows()[j] == rows[j])
                    && final(self).scheduler_rows()[id - 1].row_id == id
                    && final(self).scheduler_rows()[id - 1].url@ == scheduler.url@
                    && final(self).scheduler_rows()[id - 1].process_count == scheduler.process_count
            }),
            r matches Ok(v) ==> v@ == "updated"@,
    {
        let id = match scheduler.row_id {
            Some(v) => v,
            None => 0,
        };
        if id < 1 || id as usize > self.schedulers.len() {
            return Ok(text("updated"));
        }
        let k = (id - 1) as usize;
        let mut i: usize = 0;
        while i < self.schedulers.len()
            invariant
                self.wf(),
                i <= self.schedulers@.len(),
                k < self.schedulers@.len(),
                k == id - 1,
                scheduler.row_id == Some(id),
                forall|j: int| 0 <= j < i && j != k ==> (#[trigger] self.schedulers@[j]).url@ != scheduler.url@,
            decreases self.schedulers@.len() - i,
        {
            if i != k && self.schedulers[i].url == scheduler.url {
                proof {
                    let rows = self.scheduler_rows();
                    assert(rows[i as int].url@ == scheduler.url@);
                    assert(has_url(rows, scheduler.url@));
                    let u = url_index(rows, scheduler.url@);
                    if u != i {
                        assert(rows[u].url@ != rows[i as int].url@);
                    }
                }
                return Err(StoreErrorType::DatabaseError(text("duplicate key value violates unique constraint")));
            }
            i = i + 1;
        }
        let ghost before = self.schedulers@;
        proof {
            if has_url(before, scheduler.url@) {
                let u = url_index(before, scheduler.url@);
                assert(u == k);
            }
        }
        self.schedulers.set(k, DbScheduler { row_id: id, url: scheduler.url.clone(), process_count: scheduler.process_count });
        proof {
            let rows = self.schedulers@;
            assert(self.process_rows() == old(self).process_rows());
            assert(self.process_scheduler_rows() == old(self).process_scheduler_rows());
            assert(self.message_rows() == old(self).message_rows());
            assert forall|a: int, b: int| 0 <= a < rows.len() && 0 <= b < rows.len() && a != b
                implies #[trigger] rows[a].url@ != #[trigger] rows[b].url@ by {
                if a != k && b != k {
                    assert(rows[a] == before[a]);
                    assert(rows[b] == before[b]);
                } else if a == k {
                    assert(rows[b] == before[b]);
                } else {
                    assert(rows[a] == before[a]);
                }
            }
            assert forall|a: int| 0 <= a < rows.len() implies (#[trigger] rows[a]).row_id == a + 1 by {
                if a != k {
                    assert(rows[a] == before[a]);
                }
            }
        }
        Ok(text("updated"))
    }

    /// The scheduler stored under a row id.
    pub fn get_scheduler(&self, row_id: &i32) -> (r: Result<Scheduler, StoreErrorType>)
        requires
            self.wf(),
        ensures
            match r {
                Ok(s) => 1 <= *row_id <= self.scheduler_rows().len() && shows_scheduler(s, self.scheduler_rows()[*row_id - 1]),
                Err(e) => !(1 <= *row_id <= self.scheduler_rows().len()) && e is NotFound,
            },
    {
        let id = *row_id;
        if id < 1 || id as usize > self.schedulers.len() {
            return Err(StoreErrorType::NotFound(text("Scheduler not found")));
        }
        let row = &self.schedulers[(id - 1) as usize];
        Ok(Scheduler { row_id: Some(row.row_id), url: row.url.clone(), process_count: row.process_count })
    }

    /// The scheduler stored under a url.
    pub fn get_scheduler_by_url(&self, url: &String) -> (r: Result<Scheduler, StoreErrorType>)
        requires
            self.wf(),
        ensures
            match r {
                Ok(s) => has_url(self.scheduler_rows(), url@) && shows_scheduler(
                    s,
                    self.scheduler_rows()[url_index(self.scheduler_rows(), url@)],
                ),
                Err(e) => !has_url(self.scheduler_rows(), url@) && e is NotFound,
            },
    {
        let mut i: usize = 0;
        while i < self.schedulers.len()
            invariant
                self.wf(),
                i <= self.schedulers@.len(),
                forall|j: int| 0 <= j < i ==> (#[trigger] self.schedulers@[j]).url@ != url@,
            decreases self.schedulers@.len() - i,
        {
            let row = &self.schedulers[i];
            if row.url == *url {
                proof {
                    let rows = self.scheduler_rows();
                    let k = url_index(rows, url@);
                    assert(rows[i as int].url@ == url@);
                    if k != i {
                        assert(rows[k].url@ != rows[i as int].url@);
                    }
                }
                return Ok(Scheduler { row_id: Some(row.row_id), url: row.url.clone(), process_count: row.process_count });
            }
            i = i + 1;
        }
        Err(StoreErrorType::NotFound(text("Scheduler not found")))
    }

    /// Every scheduler, in row id order.
    pub fn get_all_schedulers(&self) -> (r: Result<Vec<Scheduler>, StoreErrorType>)
        requires
            self.wf(),
        ensures
            r matches Ok(v) && v@.len() == self.scheduler_rows().len() && (forall|j: int|
                0 <= j < v@.len() ==> shows_scheduler(#[trigger] v@[j], self.scheduler_rows()[j])),
    {
        let mut out: Vec<Scheduler> = Vec::new();
        let mut i: usize = 0;
        while i < self.schedulers.len()
            invariant
                i <= self.schedulers@.len(),
                out@.len() == i,
                forall|j: int| 0 <= j < i ==> shows_scheduler(#[trigger] out@[j], self.schedulers@[j]),
            decreases self.schedulers@.len() - i,
        {
            let row = &self.schedulers[i];
            out.push(Scheduler { row_id: Some(row.row_id), url: row.url.clone(), process_count: row.process_count });
            i = i + 1;
        }
        Ok(out)
    }

    /// Records the scheduler responsible for a process unless the process already has one,
    /// in which case nothing changes and the call still succeeds.
    pub fn save_process_scheduler(&mut self, process_scheduler: &ProcessScheduler) -> (r: Result<String, StoreErrorType>)
        requires
            old(self).wf(),
        ensures
            final(self).wf(),
            final(self).message_rows() == old(self).message_rows(),
            final(self).next_row() == old(self).next_row(),
            final(self).process_rows() == old(self).process_rows(),
            final(self).scheduler_rows() == old(self).scheduler_rows(),
            final(self).disk_enabled() == old(self).disk_enabled(),
            final(self).byte_store() == old(self).byte_store(),
            has_assignment(old(self).process_scheduler_rows(), process_scheduler.process_id@) ==> r is Ok
                && final(self).process_scheduler_rows() == old(self).process_scheduler_rows(),
            !has_assignment(old(self).process_scheduler_rows(), process_scheduler.process_id@)
                && old(self).process_scheduler_rows().len() < i32::MAX ==> r is Ok
                && final(self).process_scheduler_rows().len() == old(self).process_scheduler_rows().len() + 1
                && final(self).process_scheduler_rows().drop_last() == old(self).process_scheduler_rows() && ({
                let row = final(self).process_scheduler_rows().last();
                &&& row.row_id == final(self).process_scheduler_rows().len()
                &&& row.process_id@ == process_scheduler.process_id@
                &&& row.scheduler_row_id == process_scheduler.scheduler_row_id
            }),
            !has_assignment(old(self).process_scheduler_rows(), process_scheduler.process_id@)
                && old(self).process_scheduler_rows().len() >= i32::MAX ==> (r matches Err(StoreErrorType::DatabaseError(_))
                && final(self).process_scheduler_rows() == old(self).process_scheduler_rows()),
            r matches Ok(v) ==> v@ == "saved"@,
    {
        let mut i: usize = 0;
        while i < self.process_schedulers.len()
            invariant
                self.wf(),
                i <= self.process_schedulers@.len(),
                forall|j: int| 0 <= j < i ==> (#[trigger] self.process_schedulers@[j]).process_id@ != process_scheduler.process_id@,
            decreases self.process_schedulers@.len() - i,
        {
            if self.process_schedulers[i].process_id == process_scheduler.process_id {
                return Ok(text("saved"));
            }
            i = i + 1;
        }
        if self.process_schedulers.len() >= i32::MAX as usize {
            return Err(StoreErrorType::DatabaseError(text("Error saving process scheduler")));
        }
        let row = DbProcessScheduler {
            row_id: (self.process_schedulers.len() + 1) as i32,
            process_id: process_scheduler.process_id.clone(),
            scheduler_row_id: process_scheduler.scheduler_row_id,
        };
        self.process_schedulers.push(row);
        proof {
            let rows = self.process_schedulers@;
            assert(rows.drop_last() =~= old(self).process_schedulers@);
            assert(self.process_rows() == old(self).process_rows());
            assert(self.scheduler_rows() == old(self).scheduler_rows());
            assert(self.message_rows() == old(self).message_rows());
            assert forall|a: int| 0 <= a < rows.len() implies (#[trigger] rows[a]).row_id == a + 1 by {
                if a < rows.len() - 1 {
                    assert(rows[a] == old(self).process_schedulers@[a]);
                }
            }
            assert forall|a: int, b: int| 0 <= a < rows.len() && 0 <= b < rows.len() && a != b
                implies #[trigger] rows[a].process_id@ != #[trigger] rows[b].process_id@ by {
                if a < rows.len() - 1 && b < rows.len() - 1 {
                    assert(rows[a] == old(self).process_schedulers@[a]);
                    assert(rows[b] == old(self).process_schedulers@[b]);
                }
            }
        }
        Ok(text("saved"))
    }

    /// The scheduler assignment of a process.
    pub fn get_process_scheduler(&self, process_id: &str) -> (r: Result<ProcessScheduler, StoreErrorType>)
        requires
            self.wf(),
        ensures
            match r {
                Ok(p) => has_assignment(self.process_scheduler_rows(), process_id@) && ({
                    let row = self.process_scheduler_rows()[assignment_index(self.process_scheduler_rows(), process_id@)];
                    p.row_id == Some(row.row_id) && p.process_id@ == row.process_id@ && p.scheduler_row_id
                        == row.scheduler_row_id
                }),
                Err(e) => !has_assignment(self.process_scheduler_rows(), process_id@) && e is NotFound,
            },
    {
        let mut i: usize = 0;
        while i < self.process_schedulers.len()
            invariant
                self.wf(),
                i <= self.process_schedulers@.len(),
                forall|j: int| 0 <= j < i ==> (#[trigger] self.process_schedulers@[j]).process_id@ != process_id@,
            decreases self.process_schedulers@.len() - i,
        {
            let row = &self.process_schedulers[i];
            if same_text(row.process_id.as_str(), process_id) {
                proof {
                    let rows = self.process_scheduler_rows();
                    let k = assignment_index(rows, process_id@);
                    assert(rows[i as int].process_id@ == process_id@);
                    if k != i {
                        assert(rows[k].process_id@ != rows[i as int].process_id@);
                    }
                }
                return Ok(ProcessScheduler {
                    row_id: Some(row.row_id),
                    process_id: row.process_id.clone(),
                    scheduler_row_id: row.scheduler_row_id,
                });
            }
            i = i + 1;
        }
        Err(StoreErrorType::NotFound(text("Process scheduler not found")))
    }

    /// The page that `get_messages` selects, read without bundles.
    pub fn get_message_rows(&self, process_id: &str, from: &Option<String>, to: &Option<String>, limit: &Option<i32>) -> (r:
        Result<MessagePage, StoreErrorType>)
        requires
            self.wf(),
        ensures
            !bound_ok(*from) || !bound_ok(*to) ==> r matches Err(StoreErrorType::IntError(_)),
            bound_ok(*from) && bound_ok(*to) && limit_value(*limit) < 0 ==> r matches Err(StoreErrorType::DatabaseError(_)),
            bound_ok(*from) && bound_ok(*to) && limit_value(*limit) >= 0 ==> (r matches Ok(p) && ({
                let w = window_rows(self.message_rows(), process_id@, bound_value(*from), bound_value(*to));
                let lim = limit_value(*limit);
                &&& p.has_next_page == (w.len() > lim)
                &&& p.rows@.len() == if w.len() > lim { lim } else { w.len() as int }
                &&& forall|k: int| 0 <= k < p.rows@.len() ==> shows_row(#[trigger] p.rows@[k], self.message_rows()[w[k]])
            })),
    {
        let q = match page_query(from, to, limit) {
            Ok(q) => q,
            Err(e) => return Err(e),
        };
        let (idx, more) = self.select_page(process_id, q.from, q.to, q.limit);
        let ghost w = window_rows(self.message_rows(), process_id@, q.from, q.to);
        let mut out: Vec<DbMessageWithoutData> = Vec::new();
        let mut k: usize = 0;
        while k < idx.len()
            invariant
                k <= idx@.len(),
                out@.len() == k,
                forall|j: int| 0 <= j < idx@.len() ==> #[trigger] idx@[j] as int == w[j],
                forall|j: int| 0 <= j < idx@.len() ==> idx@[j] < self.message_rows().len(),
                forall|j: int| 0 <= j < k ==> shows_row(#[trigger] out@[j], self.message_rows()[w[j]]),
            decreases idx@.len() - k,
        {
            let row = &self.messages[idx[k]];
            assert(idx@[k as int] as int == w[k as int]);
            out.push(DbMessageWithoutData::from_message(row.row_id, &row.message));
            k = k + 1;
        }
        Ok(MessagePage { rows: out, has_next_page: more })
    }

    /// The message a page row stands for, given the bundle found on disk for it, if any;
    /// without one, the canonical record of the row's ids is read with its stored bundle.
    pub fn resolve_bundle(&self, row: &DbMessageWithoutData, found: Option<Vec<u8>>) -> (r: Result<Message, StoreErrorType>)
        requires
            self.wf(),
        ensures
            match resolved(self.message_rows(), *row, match found { Some(b) => Some(b@), None => None }) {
                Some(m) => r matches Ok(x) && x@ == m,
                None => r matches Err(StoreErrorType::NotFound(_)),
            },
    {
        match found {
            Some(bytes) => Ok(row.into_message(bytes)),
            None => self.get_message_internal(&row.message_id, &row.assignment_id),
        }
    }

    /// Completes a page with bundles read from disk, keyed by message id, assignment id and
    /// process id; a row whose bundle is missing is read again from the tables.
    pub fn get_messages_with_bundles(&self, page: &MessagePage, binaries: DashMap<BlobKey, Vec<u8>>) -> (r: Result<
        PaginatedMessages,
        StoreErrorType,
    >)
        requires
            self.wf(),
        ensures
            (forall|k: int| 0 <= k < page.rows@.len() ==> (#[trigger] resolved(
                self.message_rows(),
                page.rows@[k],
                found_in(blob_contents(binaries), row_key(page.rows@[k])),
            )) is Some) ==> (r matches Ok(p) && p.has_next_page == page.has_next_page && p.messages@.len()
                == page.rows@.len() && forall|k: int| 0 <= k < page.rows@.len() ==> (#[trigger] p.messages@[k])@ == resolved(
                self.message_rows(),
                page.rows@[k],
                found_in(blob_contents(binaries), row_key(page.rows@[k])),
            ).unwrap()),
            (exists|k: int| 0 <= k < page.rows@.len() && (#[trigger] resolved(
                self.message_rows(),
                page.rows@[k],
                found_in(blob_contents(binaries), row_key(page.rows@[k])),
            )) is None) ==> r matches Err(StoreErrorType::NotFound(_)),
    {
        let ghost contents = blob_contents(binaries);
        let mut out: Vec<Message> = Vec::new();
        let mut k: usize = 0;
        while k < page.rows.len()
            invariant
                self.wf(),
                contents == blob_contents(binaries),
                k <= page.rows@.len(),
                out@.len() == k,
                forall|j: int| 0 <= j < k ==> (#[trigger] resolved(self.message_rows(), page.rows@[j], found_in(contents, row_key(page.rows@[j])))) is Some,
                forall|j: int| 0 <= j < k ==> (#[trigger] out@[j])@ == resolved(
                    self.message_rows(),
                    page.rows@[j],
                    found_in(contents, row_key(page.rows@[j])),
                ).unwrap(),
            decreases page.rows@.len() - k,
        {
            let row = &page.rows[k];
            let key: BlobKey = (row.message_id.clone(), copy_opt(&row.assignment_id), row.process_id.clone());
            assert(key_view(key) == row_key(*row));
            let found = blob_lookup(&binaries, &key);
            assert(match found { Some(b) => Some(b@), None => None::<Seq<u8>> } == found_in(contents, row_key(*row)));
            match self.resolve_bundle(row, found) {
                Ok(m) => out.push(m),
                Err(e) => {
                    return Err(e);
                },
            }
            k = k + 1;
        }
        Ok(PaginatedMessages { messages: out, has_next_page: page.has_next_page })
    }

    /// The keys under which the bundles of a page are stored, in page order.
    pub fn page_keys(page: &MessagePage) -> (r: Vec<BlobKey>)
        ensures
            r@.len() == page.rows@.len(),
            forall|k: int| 0 <= k < r@.len() ==> key_view(#[trigger] r@[k]) == row_key(page.rows@[k]),
    {
        let mut out: Vec<BlobKey> = Vec::new();
        let mut k: usize = 0;
        while k < page.rows.len()
            invariant
                k <= page.rows@.len(),
                out@.len() == k,
                forall|j: int| 0 <= j < k ==> key_view(#[trigger] out@[j]) == row_key(page.rows@[j]),
            decreases page.rows@.len() - k,
        {
            let row = &page.rows[k];
            out.push((row.message_id.clone(), copy_opt(&row.assignment_id), row.process_id.clone()));
            k = k + 1;
        }
        out
    }

    /// The messages at offsets `from` up to `to` (or to the end) of the table, in timestamp
    /// order, as (message id, assignment id, bundle, process id, body). Offsets and limits may
    /// not be negative.
    pub fn get_all_messages(&self, from: i64, to: Option<i64>) -> (r: Result<Vec<(String, Option<String>, Vec<u8>, String, String)>, StoreErrorType>)
        requires
            self.wf(),
        ensures
            from < 0 || (to matches Some(t) && t < from) ==> r matches Err(StoreErrorType::DatabaseError(_)),
            from >= 0 && (to matches Some(t) ==> t >= from) ==> (r matches Ok(v) && ({
                let n = self.message_rows().len() as int;
                let end = match to {
                    Some(t) => if t < n { t as int } else { n },
                    None => n,
                };
                let start = if from < n { from as int } else { n };
                &&& v@.len() == end - start
                &&& forall|k: int| 0 <= k < v@.len() ==> ({
                    let m = self.message_rows()[start + k].message;
                    &&& (#[trigger] v@[k]).0@ == m.message_id@
                    &&& opt_view(v@[k].1) == opt_view(m.assignment_id)
                    &&& v@[k].2@ == m.bundle@
                    &&& v@[k].3@ == m.process_id@
                    &&& v@[k].4@ == m.data@
                })
            })),
    {
        if from < 0 {
            return Err(StoreErrorType::DatabaseError(text("OFFSET must not be negative")));
        }
        let n = self.messages.len();
        let end: usize = match to {
            Some(t) => {
                if t < from {
                    return Err(StoreErrorType::DatabaseError(text("LIMIT must not be negative")));
                }
                if t < n as i64 { t as usize } else { n }
            },
            None => n,
        };
        let start: usize = if from < n as i64 { from as usize } else { n };
        let mut out: Vec<(String, Option<String>, Vec<u8>, String, String)> = Vec::new();
        let mut i: usize = start;
        while i < end
            invariant
                start <= i <= end <= n,
                n == self.message_rows().len(),
                out@.len() == i - start,
                forall|k: int| 0 <= k < out@.len() ==> ({
                    let m = self.message_rows()[start + k].message;
                    &&& (#[trigger] out@[k]).0@ == m.message_id@
                    &&& opt_view(out@[k].1) == opt_view(m.assignment_id)
                    &&& out@[k].2@ == m.bundle@
                    &&& out@[k].3@ == m.process_id@
                    &&& out@[k].4@ == m.data@
                }),
            decreases end - i,
        {
            let m = &self.messages[i].message;
            out.push((m.message_id.clone(), copy_opt(&m.assignment_id), copy_bytes(m.bundle.as_slice()), m.process_id.clone(), m.data.clone()));
            i = i + 1;
        }
        Ok(out)
    }
}

} // verus!
