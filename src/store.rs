//! The file store: a concurrent map from identifiers to shared records of
//! stored files.
use vstd::prelude::*;
use std::sync::Arc;
use crate::ids::{
    opt_text, upload_path, upload_path_of, uuid4, VARIANT_MASK, VARIANT_RFC4122, VERSION_4,
    VERSION_MASK,
};

verus! {

/// What a stored-file record holds: its identifier, the location of its
/// file, and the media type declared at upload.
pub type RecordView = (u128, Seq<char>, Option<Seq<char>>);

/// One stored file. Records are never changed in place: replacing the file
/// at an identifier stores a new record.
#[derive(Debug)]
pub struct StoredFile {
    pub id: u128,
    pub path: String,
    pub content_type: Option<String>,
}

impl View for StoredFile {
    type V = RecordView;

    open spec fn view(&self) -> RecordView {
        (
            self.id,
            self.path@,
            match self.content_type {
                Some(t) => Some(t@),
                None => None,
            },
        )
    }
}

#[verifier::external_type_specification]
#[verifier::external_body]
#[verifier::reject_recursive_types(K)]
#[verifier::reject_recursive_types(V)]
#[verifier::reject_recursive_types(S)]
pub struct ExDashMap<K, V, S>(dashmap::DashMap<K, V, S>);

/// The map under the store.
pub type FileMap = dashmap::DashMap<u128, Arc<StoredFile>>;

/// The records a map of the store holds, by identifier.
pub uninterp spec fn files_of(m: FileMap) -> Map<
    u128,
    RecordView,
>;

/// Relies on `dashmap::DashMap::new`: a map with no entries.
#[verifier::external_body]
fn map_new() -> (r: FileMap)
    ensures
        files_of(r).is_empty(),
{
    dashmap::DashMap::new()
}

/// Relies on `dashmap::DashMap::insert`: the key now maps to the value, and
/// the value it mapped to before, if any, is handed back.
#[verifier::external_body]
fn map_insert(m: &mut FileMap, k: u128, v: Arc<StoredFile>) -> (r: Option<Arc<StoredFile>>)
    ensures
        files_of(*final(m)) == files_of(*old(m)).insert(k, v@),
        r is Some <==> files_of(*old(m)).contains_key(k),
        r matches Some(o) ==> o@ == files_of(*old(m))[k],
{
    m.insert(k, v)
}

/// Relies on `dashmap::DashMap::remove`: the key's entry is taken out and
/// its value handed back; nothing changes where there is none.
#[verifier::external_body]
fn map_remove(m: &mut FileMap, k: u128) -> (r: Option<Arc<StoredFile>>)
    ensures
        files_of(*final(m)) == files_of(*old(m)).remove(k),
        r is Some <==> files_of(*old(m)).contains_key(k),
        r matches Some(o) ==> o@ == files_of(*old(m))[k],
{
    m.remove(&k).map(|e| e.1)
}

/// Relies on `dashmap::DashMap::get`: a shared handle to the key's value,
/// if there is one.
#[verifier::external_body]
fn map_get(m: &FileMap, k: u128) -> (r: Option<Arc<StoredFile>>)
    ensures
        r is Some <==> files_of(*m).contains_key(k),
        r matches Some(o) ==> o@ == files_of(*m)[k],
{
    m.get(&k).map(|e| e.value().clone())
}

/// Relies on `dashmap::DashMap::contains_key`.
#[verifier::external_body]
fn map_contains(m: &FileMap, k: u128) -> (r: bool)
    ensures
        r == files_of(*m).contains_key(k),
{
    m.contains_key(&k)
}

/// The view of an optional string.
pub open spec fn opt_string(o: Option<String>) -> Option<Seq<char>> {
    match o {
        Some(t) => Some(t@),
        None => None,
    }
}

/// The record of an upload for `id`, whose file lies in `dir`.
pub open spec fn upload_record(
    id: u128,
    dir: Seq<char>,
    extension: Option<Seq<char>>,
    content_type: Option<Seq<char>>,
) -> RecordView {
    (id, upload_path_of(dir, id, extension), content_type)
}

/// The record at `id` in `m`, if any.
pub open spec fn entry_at(m: Map<u128, RecordView>, id: u128) -> Option<RecordView> {
    if m.contains_key(id) {
        Some(m[id])
    } else {
        None
    }
}

/// The view of a record handle that an operation hands back.
pub open spec fn handle_view(r: Option<Arc<StoredFile>>) -> Option<RecordView> {
    match r {
        Some(a) => Some(a@),
        None => None,
    }
}

/// One operation on a single identifier of the store: storing a record,
/// removing, or reading.
pub ghost enum KeyOp {
    Put(RecordView),
    Remove,
    Get,
}

/// The store after `op` on `id`, and the record the operation takes out of
/// the store, which is then released by its last holder.
pub open spec fn apply_op(m: Map<u128, RecordView>, id: u128, op: KeyOp) -> (
    Map<u128, RecordView>,
    Option<RecordView>,
) {
    match op {
        KeyOp::Put(r) => (m.insert(id, r), entry_at(m, id)),
        KeyOp::Remove => (m.remove(id), entry_at(m, id)),
        KeyOp::Get => (m, None),
    }
}

pub open spec fn opt_seq(x: Option<RecordView>) -> Seq<RecordView> {
    match x {
        Some(r) => seq![r],
        None => Seq::empty(),
    }
}

/// The store after `ops` on `id`, and the records taken out, in order.
pub open spec fn run_ops(m: Map<u128, RecordView>, id: u128, ops: Seq<KeyOp>) -> (
    Map<u128, RecordView>,
    Seq<RecordView>,
)
    decreases ops.len(),
{
    if ops.len() == 0 {
        (m, Seq::empty())
    } else {
        let prev = run_ops(m, id, ops.drop_last());
        let step = apply_op(prev.0, id, ops.last());
        (step.0, prev.1 + opt_seq(step.1))
    }
}

/// The records that `ops` store, in order.
pub open spec fn puts(ops: Seq<KeyOp>) -> Seq<RecordView>
    decreases ops.len(),
{
    if ops.len() == 0 {
        Seq::empty()
    } else {
        puts(ops.drop_last()) + match ops.last() {
            KeyOp::Put(r) => seq![r],
            _ => Seq::empty(),
        }
    }
}

/// Every record ever stored at an identifier is taken out of the store
/// exactly once, in the order stored, or is still its current record: the
/// record there at first followed by those stored since is the sequence of
/// records taken out followed by the one there at the end. Reads take
/// nothing out.
pub proof fn lemma_each_record_released_once(m: Map<u128, RecordView>, id: u128, ops: Seq<KeyOp>)
    ensures
        opt_seq(entry_at(m, id)) + puts(ops) == run_ops(m, id, ops).1 + opt_seq(
            entry_at(run_ops(m, id, ops).0, id),
        ),
    decreases ops.len(),
{
    if ops.len() > 0 {
        let prev_ops = ops.drop_last();
        lemma_each_record_released_once(m, id, prev_ops);
        let prev = run_ops(m, id, prev_ops);
        let step = apply_op(prev.0, id, ops.last());
        match ops.last() {
            KeyOp::Put(r) => {
                assert(entry_at(step.0, id) == Some(r));
                assert(opt_seq(entry_at(m, id)) + puts(ops) =~= opt_seq(entry_at(m, id)) + puts(
                    prev_ops,
                ) + seq![r]);
                assert(run_ops(m, id, ops).1 + opt_seq(entry_at(step.0, id)) =~= prev.1 + opt_seq(
                    entry_at(prev.0, id),
                ) + seq![r]);
            },
            KeyOp::Remove => {
                assert(entry_at(step.0, id) == None::<RecordView>);
                assert(puts(ops) =~= puts(prev_ops));
                assert(run_ops(m, id, ops).1 + opt_seq(entry_at(step.0, id)) =~= prev.1 + opt_seq(
                    entry_at(prev.0, id),
                ));
            },
            KeyOp::Get => {
                assert(puts(ops) =~= puts(prev_ops));
                assert(run_ops(m, id, ops).1 =~= prev.1);
            },
        }
    }
}

/// Removing an identifier that holds no record takes nothing out and
/// leaves the store as it was.
pub proof fn lemma_remove_absent(m: Map<u128, RecordView>, id: u128)
    requires
        !m.contains_key(id),
    ensures
        apply_op(m, id, KeyOp::Remove) == (m, None::<RecordView>),
{
    assert(m.remove(id) =~= m);
}

/// The store of files, by identifier.
pub struct FileDatabase {
    files: FileMap,
}

impl FileDatabase {
    pub closed spec fn view(&self) -> Map<u128, RecordView> {
        files_of(self.files)
    }

    /// Every record is stored under its own identifier.
    pub open spec fn wf(&self) -> bool {
        forall|k: u128| #[trigger] self@.contains_key(k) ==> self@[k].0 == k
    }

    /// An empty store.
    pub fn new() -> (r: FileDatabase)
        ensures
            r@.is_empty(),
            r.wf(),
    {
        FileDatabase { files: map_new() }
    }

    /// Stores the file at `path` under `id`, replacing any record there. The
    /// replaced record is handed back: its file goes away once the last
    /// handle to it is dropped.
    pub fn create_stored_file(&mut self, id: u128, path: String, content_type: Option<String>) -> (r:
        Option<Arc<StoredFile>>)
        requires
            old(self).wf(),
        ensures
            final(self).wf(),
            final(self)@ == old(self)@.insert(
                id,
                (
                    id,
                    path@,
                    match content_type {
                        Some(t) => Some(t@),
                        None => None,
                    },
                ),
            ),
            handle_view(r) == entry_at(old(self)@, id),
    {
        let stored_file = StoredFile { id, path, content_type };
        map_insert(&mut self.files, id, Arc::new(stored_file))
    }

    /// Stores the upload for `id`: its record names the file derived from
    /// `id` and `extension` in `dir`, where the caller puts the staged file
    /// before it lets go of the store. Any record stored at `id` before is
    /// replaced and handed back.
    pub fn add_file_by_id(
        &mut self,
        id: u128,
        dir: &str,
        extension: Option<&str>,
        content_type: Option<String>,
    ) -> (r: Option<Arc<StoredFile>>)
        requires
            old(self).wf(),
        ensures
            final(self).wf(),
            final(self)@ == old(self)@.insert(
                id,
                upload_record(id, dir@, opt_text(extension), opt_string(content_type)),
            ),
            handle_view(r) == entry_at(old(self)@, id),
            (final(self)@, handle_view(r)) == apply_op(
                old(self)@,
                id,
                KeyOp::Put(upload_record(id, dir@, opt_text(extension), opt_string(content_type))),
            ),
    {
        let path = upload_path(dir, id, extension);
        self.create_stored_file(id, path, content_type)
    }

    /// Stores an upload under a fresh identifier, as `add_file_by_id` does,
    /// and returns that identifier, a version-4 UUID, with the record it
    /// replaced (none, but for a collision of random identifiers).
    pub fn add_file(&mut self, dir: &str, extension: Option<&str>, content_type: Option<String>) -> (r: (
        u128,
        Option<Arc<StoredFile>>,
    ))
        requires
            old(self).wf(),
        ensures
            final(self).wf(),
            r.0 & VERSION_MASK == VERSION_4,
            r.0 & VARIANT_MASK == VARIANT_RFC4122,
            final(self)@ == old(self)@.insert(
                r.0,
                upload_record(r.0, dir@, opt_text(extension), opt_string(content_type)),
            ),
            handle_view(r.1) == entry_at(old(self)@, r.0),
    {
        let id = uuid4();
        let replaced = self.add_file_by_id(id, dir, extension, content_type);
        (id, replaced)
    }

    /// A shared handle to the record at `key`, if there is one.
    pub fn get_file(&self, key: u128) -> (r: Option<Arc<StoredFile>>)
        ensures
            handle_view(r) == entry_at(self@, key),
    {
        map_get(&self.files, key)
    }

    /// Takes the record at `key` out of the store and hands it back; the
    /// store is unchanged where there is none.
    pub fn remove_file(&mut self, key: u128) -> (r: Option<Arc<StoredFile>>)
        requires
            old(self).wf(),
        ensures
            final(self).wf(),
            final(self)@ == old(self)@.remove(key),
            handle_view(r) == entry_at(old(self)@, key),
            !old(self)@.contains_key(key) ==> r is None && final(self)@ == old(self)@,
            (final(self)@, handle_view(r)) == apply_op(old(self)@, key, KeyOp::Remove),
    {
        let r = map_remove(&mut self.files, key);
        proof {
            if !old(self)@.contains_key(key) {
                assert(self@ =~= old(self)@);
            }
        }
        r
    }

    /// Whether a record is stored at `key`.
    pub fn file_exists(&self, key: u128) -> (r: bool)
        ensures
            r == self@.contains_key(key),
    {
        map_contains(&self.files, key)
    }
}

} // verus!
