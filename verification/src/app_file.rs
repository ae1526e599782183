//! The dedup-aware data model: content records, ownership records, and the
//! file views joining them.
//!
//! One physical payload is a content record; each user holding it has an
//! ownership record pointing at that content record, so identical content is
//! stored once however many users own it. A file view is the read-time join
//! of one content record and one ownership record; two views are equal
//! exactly when they point at the same content, whatever their ownership
//! metadata says.

use vstd::prelude::*;

verus! {

use vstd::string::StringExecFns;

use crate::dir_mime;
use crate::digits::dec_int;
use crate::digits::i64_to_string;

/// The content identity of a view: views compare equal exactly when their
/// content ids match.
pub open spec fn same_content(a: AppFile, b: AppFile) -> bool {
    a.id@ == b.id@
}

/// The storage key of a file: `"{unix seconds of file_created_at}-{id}"`.
pub open spec fn storage_key(file_created_at: int, id: Seq<char>) -> Seq<char> {
    dec_int(file_created_at) + seq!['-'] + id
}

/// One physical payload: the dedup unit, identified independently of any
/// user. `chunks` is the declared chunk count of the upload, `chunks_stored`
/// how many are persisted so far, and `file_id`, when present, marks these
/// bytes as an alias of another content record. A directory placeholder
/// carries the sentinel `"dir"` content type and has no chunks.
#[derive(Debug)]
pub struct ContentRecord {
    pub id: String,
    pub name_hash: String,
    pub mime: String,
    pub size: Option<i64>,
    pub chunks: Option<i32>,
    pub chunks_stored: Option<i32>,
    pub file_id: Option<String>,
    pub file_created_at: i64,
    pub created_at: i64,
    pub finished_upload_at: Option<i64>,
}

impl ContentRecord {
    /// Whether every declared chunk has been persisted.
    pub open spec fn upload_complete(self) -> bool {
        self.chunks is Some && self.chunks_stored == self.chunks
    }

    /// The record invariant: never more chunks stored than declared, the
    /// finish timestamp set exactly once the upload is complete, and no
    /// chunks on a directory placeholder.
    pub open spec fn wf(self) -> bool {
        &&& match (self.chunks, self.chunks_stored) {
            (Some(n), Some(m)) => 0 <= m <= n,
            (Some(n), None) => true,
            (None, Some(m)) => false,
            (None, None) => true,
        }
        &&& (self.finished_upload_at is Some <==> self.upload_complete())
        &&& (self.mime@ == dir_mime() ==> self.chunks is None && self.chunks_stored is None)
    }

    /// Whether every declared chunk has been persisted.
    pub fn is_upload_complete(&self) -> (r: bool)
        ensures
            r == self.upload_complete(),
    {
        match (self.chunks, self.chunks_stored) {
            (Some(n), Some(m)) => n == m,
            _ => false,
        }
    }
}

/// An upload that still misses chunks has no finish timestamp.
pub proof fn lemma_incomplete_upload_unfinished(r: ContentRecord)
    requires
        r.wf(),
        r.chunks matches Some(n) && (r.chunks_stored is None || (r.chunks_stored matches Some(m)
            && m < n)),
    ensures
        r.finished_upload_at is None,
{
}

/// One user's binding to a content record: the owner flag and the metadata
/// blob, encrypted client-side and never inspected here.
#[derive(Debug)]
pub struct OwnershipRecord {
    pub user_id: String,
    pub is_owner: bool,
    pub encrypted_metadata: String,
}

/// The read-time join of one content record and one ownership record.
#[derive(Debug)]
pub struct AppFile {
    pub id: String,
    pub user_id: String,
    pub is_owner: bool,
    pub encrypted_metadata: String,
    pub name_hash: String,
    pub mime: String,
    pub size: Option<i64>,
    pub chunks: Option<i32>,
    pub chunks_stored: Option<i32>,
    pub file_id: Option<String>,
    pub file_created_at: i64,
    pub created_at: i64,
    pub finished_upload_at: Option<i64>,
    pub is_new: bool,
    pub uploaded_chunks: Option<Vec<i32>>,
}

/// The view joining `content` and `ownership`: fresh flags cleared, the
/// uploaded-chunk list not yet queried.
pub open spec fn joined(content: ContentRecord, ownership: OwnershipRecord) -> AppFile {
    AppFile {
        id: content.id,
        user_id: ownership.user_id,
        is_owner: ownership.is_owner,
        encrypted_metadata: ownership.encrypted_metadata,
        name_hash: content.name_hash,
        mime: content.mime,
        size: content.size,
        chunks: content.chunks,
        chunks_stored: content.chunks_stored,
        file_id: content.file_id,
        file_created_at: content.file_created_at,
        created_at: content.created_at,
        finished_upload_at: content.finished_upload_at,
        is_new: false,
        uploaded_chunks: None,
    }
}

impl PartialEq for AppFile {
    /// Equality is content identity alone: two views of the same content
    /// record compare equal whatever their ownership side holds.
    fn eq(&self, other: &Self) -> (r: bool) {
        self.id == other.id
    }
}

impl vstd::std_specs::cmp::PartialEqSpecImpl for AppFile {
    open spec fn obeys_eq_spec() -> bool {
        true
    }

    open spec fn eq_spec(&self, other: &Self) -> bool {
        same_content(*self, *other)
    }
}

impl From<(ContentRecord, OwnershipRecord)> for AppFile {
    fn from(source: (ContentRecord, OwnershipRecord)) -> (r: AppFile) {
        let (content, ownership) = source;
        AppFile {
            id: content.id,
            user_id: ownership.user_id,
            is_owner: ownership.is_owner,
            encrypted_metadata: ownership.encrypted_metadata,
            name_hash: content.name_hash,
            mime: content.mime,
            size: content.size,
            chunks: content.chunks,
            chunks_stored: content.chunks_stored,
            file_id: content.file_id,
            file_created_at: content.file_created_at,
            created_at: content.created_at,
            finished_upload_at: content.finished_upload_at,
            is_new: false,
            uploaded_chunks: None,
        }
    }
}

impl vstd::std_specs::convert::FromSpecImpl<(ContentRecord, OwnershipRecord)> for AppFile {
    open spec fn obeys_from_spec() -> bool {
        true
    }

    open spec fn from_spec(source: (ContentRecord, OwnershipRecord)) -> AppFile {
        joined(source.0, source.1)
    }
}

/// Dedup equality law: views built from the same content record id compare
/// equal whatever their ownership records hold; views built from different
/// content record ids never compare equal, however alike their metadata.
pub proof fn lemma_view_equality_is_content_identity(
    c1: ContentRecord,
    o1: OwnershipRecord,
    c2: ContentRecord,
    o2: OwnershipRecord,
)
    ensures
        same_content(joined(c1, o1), joined(c2, o2)) <==> c1.id@ == c2.id@,
{
}

impl AppFile {
    /// Whether this view is a real file rather than a directory placeholder.
    pub fn is_file(&self) -> (r: bool)
        ensures
            r == (self.mime@ != dir_mime()),
    {
        !self.is_dir()
    }

    /// Whether this view is a directory placeholder.
    pub fn is_dir(&self) -> (r: bool)
        ensures
            r == (self.mime@ == dir_mime()),
    {
        self.mime == "dir".to_owned()
    }

    /// The storage key of a file's chunk set:
    /// `"{unix seconds of file_created_at}-{id}"`. A directory has none.
    pub fn get_filename(&self) -> (r: Option<String>)
        ensures
            self.mime@ == dir_mime() ==> r is None,
            self.mime@ != dir_mime() ==> (r matches Some(s) && s@ == storage_key(
                self.file_created_at as int,
                self.id@,
            )),
    {
        if self.is_file() {
            proof {
                reveal_strlit("-");
                assert("-"@ =~= seq!['-']);
            }
            let ts = i64_to_string(self.file_created_at);
            let key = ts.concat("-").concat(self.id.as_str());
            Some(key)
        } else {
            None
        }
    }

    /// Marks the view as freshly created (or not), for caller signalling.
    pub fn is_new(self, is_new: bool) -> (r: Self)
        ensures
            r == (AppFile { is_new, ..self }),
    {
        let mut file = self;
        file.is_new = is_new;
        file
    }
}

} // verus!
