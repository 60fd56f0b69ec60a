use vstd::prelude::*;
use dashmap::DashMap;
use crate::model::opt_view;

verus! {

#[verifier::external_type_specification]
#[verifier::external_body]
#[verifier::reject_recursive_types(K)]
#[verifier::reject_recursive_types(V)]
#[verifier::reject_recursive_types(S)]
pub struct ExDashMap<K, V, S>(DashMap<K, V, S>);

/// The key of a bundle: message id, assignment id and process id.
pub type BlobKey = (String, Option<String>, String);

/// The key of a bundle as mathematical values.
pub type BlobKeyModel = (Seq<char>, Option<Seq<char>>, Seq<char>);

pub open spec fn key_view(k: BlobKey) -> BlobKeyModel {
    (k.0@, opt_view(k.1), k.2@)
}

/// The bundles that a concurrent map holds, by key.
pub uninterp spec fn blob_contents(m: DashMap<BlobKey, Vec<u8>>) -> Map<BlobKeyModel, Seq<u8>>;

/// Relies on `DashMap::get`: it yields the entry stored under an equal key, if there is one;
/// the value is cloned out of the guard. Callers hold the map while no other task writes it,
/// so that its contents stay those of `blob_contents`.
#[verifier::external_body]
pub(crate) fn blob_lookup(m: &DashMap<BlobKey, Vec<u8>>, key: &BlobKey) -> (r: Option<Vec<u8>>)
    ensures
        match r {
            Some(v) => blob_contents(*m).contains_key(key_view(*key)) && v@ == blob_contents(*m)[key_view(*key)],
            None => !blob_contents(*m).contains_key(key_view(*key)),
        },
{
    match m.get(key) {
        Some(entry) => Some(entry.value().clone()),
        None => None,
    }
}

pub open spec fn process_dir_spec(root: Seq<char>, process_id: Seq<char>) -> Seq<char> {
    root + "/"@ + process_id
}

/// The file that holds a bundle: one directory per process, and a name made of the message
/// id and, when there is one, the assignment id.
pub open spec fn filepath_spec(root: Seq<char>, message_id: Seq<char>, assignment_id: Option<Seq<char>>, process_id: Seq<char>) -> Seq<char> {
    match assignment_id {
        Some(a) => process_dir_spec(root, process_id) + "/msg___"@ + message_id + "___assign___"@ + a,
        None => process_dir_spec(root, process_id) + "/msg___"@ + message_id,
    }
}

/// Where message bundles are kept on disk, and how many reads may run at once.
pub struct ByteStore {
    pub su_data_dir: String,
    pub max_read_tasks: usize,
}

/// What writing a bundle takes, given what is already on disk.
pub struct SavePlan {
    pub create_dir: bool,
    pub write_file: bool,
}

/// What a bundle write does, given what is already on disk.
pub open spec fn plan_spec(dir_exists: bool, file_exists: bool) -> SavePlan {
    SavePlan { create_dir: !dir_exists, write_file: !file_exists }
}

/// The files on disk after a bundle write that follows `plan`.
pub open spec fn apply_save(files: Map<Seq<char>, Seq<u8>>, path: Seq<char>, bytes: Seq<u8>, plan: SavePlan) -> Map<Seq<char>, Seq<u8>> {
    if plan.write_file {
        files.insert(path, bytes)
    } else {
        files
    }
}

impl ByteStore {
    pub fn new(su_data_dir: String, max_read_tasks: usize) -> (r: ByteStore)
        ensures
            r.su_data_dir@ == su_data_dir@,
            r.max_read_tasks == max_read_tasks,
    {
        ByteStore { su_data_dir, max_read_tasks }
    }

    /// The directory that holds a process's bundles.
    pub fn process_dir(&self, process_id: &str) -> (r: String)
        ensures
            r@ == process_dir_spec(self.su_data_dir@, process_id@),
    {
        let mut s = self.su_data_dir.clone();
        s.append("/");
        s.append(process_id);
        s
    }

    /// The file that holds the bundle of a message.
    pub fn create_filepath(&self, message_id: &str, assignment_id: &Option<String>, process_id: &str) -> (r: String)
        ensures
            r@ == filepath_spec(self.su_data_dir@, message_id@, opt_view(*assignment_id), process_id@),
    {
        let mut s = self.process_dir(process_id);
        s.append("/msg___");
        s.append(message_id);
        match assignment_id {
            Some(a) => {
                s.append("___assign___");
                s.append(a.as_str());
            },
            None => {},
        }
        s
    }

    /// Bundle writes never overwrite: the process directory is made when absent, and the
    /// file is written only when it does not exist yet.
    pub fn save_plan(dir_exists: bool, file_exists: bool) -> (r: SavePlan)
        ensures
            r == plan_spec(dir_exists, file_exists),
    {
        SavePlan { create_dir: !dir_exists, write_file: !file_exists }
    }
}

} // verus!
