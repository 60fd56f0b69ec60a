use vstd::prelude::*;

verus! {

/// A message of a process's log, with its bundle.
pub struct Message {
    pub process_id: String,
    pub message_id: String,
    /// Present when the record stands for a scheduler-issued assignment.
    pub assignment_id: Option<String>,
    /// The identifier of the carried data item; `None` for an assignment-only record.
    pub message: Option<String>,
    pub epoch: i32,
    pub nonce: i32,
    pub timestamp: i64,
    pub hash_chain: String,
    /// The JSON body of the message.
    pub data: String,
    pub bundle: Vec<u8>,
}

/// What a `Message` holds, as mathematical values.
pub struct MessageModel {
    pub process_id: Seq<char>,
    pub message_id: Seq<char>,
    pub assignment_id: Option<Seq<char>>,
    pub message: Option<Seq<char>>,
    pub epoch: i32,
    pub nonce: i32,
    pub timestamp: i64,
    pub hash_chain: Seq<char>,
    pub data: Seq<char>,
    pub bundle: Seq<u8>,
}

pub open spec fn opt_view(o: Option<String>) -> Option<Seq<char>> {
    match o {
        Some(s) => Some(s@),
        None => None,
    }
}

impl View for Message {
    type V = MessageModel;

    open spec fn view(&self) -> MessageModel {
        MessageModel {
            process_id: self.process_id@,
            message_id: self.message_id@,
            assignment_id: opt_view(self.assignment_id),
            message: opt_view(self.message),
            epoch: self.epoch,
            nonce: self.nonce,
            timestamp: self.timestamp,
            hash_chain: self.hash_chain@,
            data: self.data@,
            bundle: self.bundle@,
        }
    }
}

impl MessageModel {
    /// The model with another bundle.
    pub open spec fn with_bundle(self, b: Seq<u8>) -> MessageModel {
        MessageModel { bundle: b, ..self }
    }
}

pub fn copy_opt(o: &Option<String>) -> (r: Option<String>)
    ensures
        opt_view(r) == opt_view(*o),
{
    match o {
        Some(s) => Some(s.clone()),
        None => None,
    }
}

pub fn copy_bytes(b: &[u8]) -> (r: Vec<u8>)
    ensures
        r@ == b@,
{
    let mut out: Vec<u8> = Vec::new();
    let mut i: usize = 0;
    while i < b.len()
        invariant
            i <= b@.len(),
            out@ == b@.take(i as int),
        decreases b@.len() - i,
    {
        out.push(b[i]);
        i = i + 1;
        assert(out@ =~= b@.take(i as int));
    }
    assert(b@.take(b@.len() as int) =~= b@);
    out
}

impl Message {
    pub fn duplicate(&self) -> (r: Message)
        ensures
            r@ == self@,
    {
        Message {
            process_id: self.process_id.clone(),
            message_id: self.message_id.clone(),
            assignment_id: copy_opt(&self.assignment_id),
            message: copy_opt(&self.message),
            epoch: self.epoch,
            nonce: self.nonce,
            timestamp: self.timestamp,
            hash_chain: self.hash_chain.clone(),
            data: self.data.clone(),
            bundle: copy_bytes(self.bundle.as_slice()),
        }
    }

    /// The same message carrying another bundle.
    pub fn with_bundle(&self, bundle: Vec<u8>) -> (r: Message)
        ensures
            r@ == self@.with_bundle(bundle@),
    {
        let mut m = self.duplicate();
        m.bundle = bundle;
        m
    }
}

/// A process and its serialised state.
pub struct Process {
    pub process_id: String,
    /// The JSON form of the process.
    pub process_data: String,
}

/// A scheduler endpoint and the number of processes placed on it.
pub struct Scheduler {
    pub row_id: Option<i32>,
    pub url: String,
    pub process_count: i32,
}

/// The assignment of a process to the scheduler row responsible for it.
pub struct ProcessScheduler {
    pub row_id: Option<i32>,
    pub process_id: String,
    pub scheduler_row_id: i32,
}

/// A stored message row.
pub struct DbMessage {
    pub row_id: i32,
    pub message: Message,
}

/// A stored message row read without its bundle column.
pub struct DbMessageWithoutData {
    pub row_id: i32,
    pub process_id: String,
    pub message_id: String,
    pub assignment_id: Option<String>,
    pub message: Option<String>,
    pub epoch: i32,
    pub nonce: i32,
    pub timestamp: i64,
    pub hash_chain: String,
    pub data: String,
}

impl DbMessageWithoutData {
    /// The message this row describes, carrying bundle `b`.
    pub open spec fn model_with(self, b: Seq<u8>) -> MessageModel {
        MessageModel {
            process_id: self.process_id@,
            message_id: self.message_id@,
            assignment_id: opt_view(self.assignment_id),
            message: opt_view(self.message),
            epoch: self.epoch,
            nonce: self.nonce,
            timestamp: self.timestamp,
            hash_chain: self.hash_chain@,
            data: self.data@,
            bundle: b,
        }
    }

    /// The message this row describes, carrying `bundle`.
    pub fn into_message(&self, bundle: Vec<u8>) -> (r: Message)
        ensures
            r@ == self.model_with(bundle@),
    {
        Message {
            process_id: self.process_id.clone(),
            message_id: self.message_id.clone(),
            assignment_id: copy_opt(&self.assignment_id),
            message: copy_opt(&self.message),
            epoch: self.epoch,
            nonce: self.nonce,
            timestamp: self.timestamp,
            hash_chain: self.hash_chain.clone(),
            data: self.data.clone(),
            bundle,
        }
    }

    /// The row of `row_id` without its bundle.
    pub fn from_message(row_id: i32, m: &Message) -> (r: DbMessageWithoutData)
        ensures
            r.row_id == row_id,
            r.model_with(m.bundle@) == m@,
    {
        DbMessageWithoutData {
            row_id,
            process_id: m.process_id.clone(),
            message_id: m.message_id.clone(),
            assignment_id: copy_opt(&m.assignment_id),
            message: copy_opt(&m.message),
            epoch: m.epoch,
            nonce: m.nonce,
            timestamp: m.timestamp,
            hash_chain: m.hash_chain.clone(),
            data: m.data.clone(),
        }
    }
}

/// A page of message rows read without their bundles, and whether more rows follow.
pub struct MessagePage {
    pub rows: Vec<DbMessageWithoutData>,
    pub has_next_page: bool,
}

/// A stored process row.
pub struct DbProcess {
    pub row_id: i32,
    pub process_id: String,
    pub process_data: String,
    pub bundle: Vec<u8>,
}

/// A stored scheduler row.
pub struct DbScheduler {
    pub row_id: i32,
    pub url: String,
    pub process_count: i32,
}

/// A stored process-to-scheduler row.
pub struct DbProcessScheduler {
    pub row_id: i32,
    pub process_id: String,
    pub scheduler_row_id: i32,
}

/// One page of a process's messages, in timestamp order.
pub struct PaginatedMessages {
    pub messages: Vec<Message>,
    pub has_next_page: bool,
}

} // verus!
