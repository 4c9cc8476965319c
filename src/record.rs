//! Face records: an identity signature with its descriptive metadata.
//!
//! Real-valued fields are held as the bit patterns of single-precision
//! values, and times as whole seconds since the Unix epoch.

use vstd::prelude::*;

verus! {

/// Errors surfaced by the catalog.
#[derive(Debug, Clone, Copy, PartialEq, Eq, Structural)]
pub enum CatalogError {
    /// A malformed id, an out-of-range confidence or retention period.
    ValidationError,
    /// No record has the id.
    NotFound,
    /// A record with the id already exists.
    DuplicateId,
    /// The inference backend, database or filesystem failed.
    BackendFailure,
    /// The inference backend returned a vector of the wrong length.
    ShapeMismatch,
    /// The inference backend returned a vector of zero norm.
    DegenerateEmbedding,
    /// A row without its artifact, or an artifact without its row.
    InconsistentState,
}

/// Descriptive fields of a record.
pub struct FaceMetadata {
    pub name: Option<String>,
    pub tags: Vec<String>,
    /// Creation time, in seconds since the Unix epoch.
    pub timestamp: i64,
    pub source_image: String,
    /// Bit pattern of a single-precision value in the unit interval.
    pub confidence: u32,
}

/// A stored identity signature.
pub struct FaceEmbedding {
    /// Bit patterns of the single-precision components.
    pub embedding: Vec<u32>,
    pub face_id: String,
    pub metadata: FaceMetadata,
}

pub struct MetadataView {
    pub name: Option<Seq<char>>,
    pub tags: Seq<Seq<char>>,
    pub timestamp: i64,
    pub source_image: Seq<char>,
    pub confidence: u32,
}

pub struct RecordView {
    pub embedding: Seq<u32>,
    pub face_id: Seq<char>,
    pub metadata: MetadataView,
}

pub open spec fn name_view(n: Option<String>) -> Option<Seq<char>> {
    match n {
        Some(s) => Some(s@),
        None => None,
    }
}

pub open spec fn strings_view(v: Seq<String>) -> Seq<Seq<char>> {
    v.map_values(|s: String| s@)
}

impl View for FaceMetadata {
    type V = MetadataView;

    open spec fn view(&self) -> MetadataView {
        MetadataView {
            name: name_view(self.name),
            tags: strings_view(self.tags@),
            timestamp: self.timestamp,
            source_image: self.source_image@,
            confidence: self.confidence,
        }
    }
}

impl View for FaceEmbedding {
    type V = RecordView;

    open spec fn view(&self) -> RecordView {
        RecordView { embedding: self.embedding@, face_id: self.face_id@, metadata: self.metadata@ }
    }
}

/// A copy of a list of strings.
pub fn copy_strings(v: &Vec<String>) -> (r: Vec<String>)
    ensures
        strings_view(r@) == strings_view(v@),
{
    let mut out: Vec<String> = Vec::new();
    let mut i: usize = 0;
    while i < v.len()
        invariant
            i <= v@.len(),
            out@.len() == i,
            forall|k: int| 0 <= k < i ==> out@[k]@ == v@[k]@,
        decreases v@.len() - i,
    {
        out.push(v[i].clone());
        i = i + 1;
    }
    assert(strings_view(out@) =~= strings_view(v@));
    out
}

/// A copy of an optional string.
pub fn copy_name(n: &Option<String>) -> (r: Option<String>)
    ensures
        name_view(r) == name_view(*n),
{
    match n {
        Some(s) => Some(s.clone()),
        None => None,
    }
}

impl FaceMetadata {
    pub fn duplicate(&self) -> (r: FaceMetadata)
        ensures
            r@ == self@,
    {
        FaceMetadata {
            name: copy_name(&self.name),
            tags: copy_strings(&self.tags),
            timestamp: self.timestamp,
            source_image: self.source_image.clone(),
            confidence: self.confidence,
        }
    }
}

impl FaceEmbedding {
    pub fn duplicate(&self) -> (r: FaceEmbedding)
        ensures
            r@ == self@,
    {
        let mut emb: Vec<u32> = Vec::new();
        let mut i: usize = 0;
        while i < self.embedding.len()
            invariant
                i <= self.embedding@.len(),
                emb@ == self.embedding@.take(i as int),
            decreases self.embedding@.len() - i,
        {
            emb.push(self.embedding[i]);
            i = i + 1;
        }
        assert(self.embedding@.take(i as int) =~= self.embedding@);
        FaceEmbedding {
            embedding: emb,
            face_id: self.face_id.clone(),
            metadata: self.metadata.duplicate(),
        }
    }
}

} // verus!
