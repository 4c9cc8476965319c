//! The record table: one row per face id, each paired with an image
//! artifact whose name is derived from the id.
//!
//! The table decides what each operation does to the rows; writing and
//! removing the artifacts is left to the caller, which learns their paths
//! from `artifact_path`.

use vstd::prelude::*;
use crate::record::{CatalogError, FaceEmbedding, MetadataView, RecordView, name_view, strings_view};
use crate::score::{float_ge, ge_bits, is_unit_interval, unit_interval};

verus! {

/// Whether the text is a UUID in one of the forms that `uuid` accepts.
pub uninterp spec fn uuid_accepts(s: Seq<char>) -> bool;

/// Relies on `uuid::Uuid::parse_str`: whether it accepts the text as a UUID.
#[verifier::external_body]
fn parses_as_uuid(s: &str) -> (r: bool)
    ensures
        r == uuid_accepts(s@),
{
    uuid::Uuid::parse_str(s).is_ok()
}

/// Relies on `std::time::SystemTime::now` and `chrono::DateTime::from_timestamp`
/// with `DateTime::timestamp`: the current time in whole seconds since the
/// Unix epoch; none when the clock reads before the epoch or beyond the
/// range of `chrono`.
#[verifier::external_body]
fn now_seconds() -> (r: Option<i64>)
    ensures
        r.is_some() ==> r.unwrap() >= 0,
{
    let since = std::time::SystemTime::now().duration_since(std::time::UNIX_EPOCH).ok()?;
    let secs = i64::try_from(since.as_secs()).ok()?;
    chrono::DateTime::from_timestamp(secs, since.subsec_nanos()).map(|d| d.timestamp())
}

/// Where the table keeps its rows and artifacts.
pub struct DatabaseConfig {
    pub connection_string: String,
    pub max_connections: u32,
    pub image_storage_path: String,
}

impl Default for DatabaseConfig {
    fn default() -> (r: Self)
        ensures
            r.connection_string@ == "postgres://localhost/face_analyzer"@,
            r.max_connections == 5,
            r.image_storage_path@ == "data/faces"@,
    {
        DatabaseConfig {
            connection_string: String::from_str("postgres://localhost/face_analyzer"),
            max_connections: 5,
            image_storage_path: String::from_str("data/faces"),
        }
    }
}

/// Some row has the id.
pub open spec fn has_id(rows: Seq<RecordView>, id: Seq<char>) -> bool {
    exists|i: int| 0 <= i < rows.len() && rows[i].face_id == id
}

/// The position of the row with the id.
pub open spec fn index_of(rows: Seq<RecordView>, id: Seq<char>) -> int {
    choose|i: int| 0 <= i < rows.len() && rows[i].face_id == id
}

/// No two rows share an id.
pub open spec fn unique_ids(rows: Seq<RecordView>) -> bool {
    forall|i: int, j: int| 0 <= i < j < rows.len() ==> rows[i].face_id != rows[j].face_id
}

/// The row with the id, if there is one.
pub open spec fn lookup(rows: Seq<RecordView>, id: Seq<char>) -> Option<RecordView> {
    if has_id(rows, id) {
        Some(rows[index_of(rows, id)])
    } else {
        None
    }
}

/// The rows once the row with the id, if any, is gone.
pub open spec fn without(rows: Seq<RecordView>, id: Seq<char>) -> Seq<RecordView> {
    if has_id(rows, id) {
        rows.remove(index_of(rows, id))
    } else {
        rows
    }
}

/// A record that the table accepts: a UUID for an id and a confidence in
/// the unit interval.
pub open spec fn is_valid_record(r: RecordView) -> bool {
    uuid_accepts(r.face_id) && is_unit_interval(r.metadata.confidence)
}

/// Removing a row keeps the ids unique.
pub proof fn lemma_remove_keeps_unique(rows: Seq<RecordView>, i: int)
    requires
        unique_ids(rows),
        0 <= i < rows.len(),
    ensures
        unique_ids(rows.remove(i)),
{
    let s = rows.remove(i);
    assert forall|a: int, b: int| 0 <= a < b < s.len() implies s[a].face_id != s[b].face_id by {
        if a < i {
            if b >= i {
                assert(s[b] == rows[b + 1]);
            }
        } else {
            assert(s[a] == rows[a + 1]);
            assert(s[b] == rows[b + 1]);
        }
    }
}

/// Fields to overwrite; absent ones are left as they are.
pub struct FaceUpdates {
    pub name: Option<String>,
    pub tags: Option<Vec<String>>,
    /// Bit pattern of a single-precision value.
    pub confidence: Option<u32>,
}

pub struct UpdatesView {
    pub name: Option<Seq<char>>,
    pub tags: Option<Seq<Seq<char>>>,
    pub confidence: Option<u32>,
}

impl View for FaceUpdates {
    type V = UpdatesView;

    open spec fn view(&self) -> UpdatesView {
        UpdatesView {
            name: name_view(self.name),
            tags: match self.tags {
                Some(t) => Some(strings_view(t@)),
                None => None,
            },
            confidence: self.confidence,
        }
    }
}

/// The record with the supplied fields overwritten.
pub open spec fn apply_updates(r: RecordView, u: UpdatesView) -> RecordView {
    RecordView {
        metadata: MetadataView {
            name: if u.name.is_some() {
                u.name
            } else {
                r.metadata.name
            },
            tags: match u.tags {
                Some(t) => t,
                None => r.metadata.tags,
            },
            confidence: match u.confidence {
                Some(c) => c,
                None => r.metadata.confidence,
            },
            ..r.metadata
        },
        ..r
    }
}

/// The rows created at or after the cutoff.
pub open spec fn kept(rows: Seq<RecordView>, cutoff: int) -> Seq<RecordView> {
    rows.filter(|r: RecordView| r.metadata.timestamp >= cutoff)
}

/// The ids of the rows created before the cutoff, in table order.
pub open spec fn expired_ids(rows: Seq<RecordView>, cutoff: int) -> Seq<Seq<char>> {
    rows.filter(|r: RecordView| r.metadata.timestamp < cutoff).map_values(|r: RecordView| r.face_id)
}

/// The cutoff of a retention period of `days`, counted back from `now`.
pub open spec fn cutoff_for(now: i64, days: i64) -> int {
    now - days * 86400
}

/// Seconds in a day.
pub const SECONDS_PER_DAY: i64 = 86400;

/// The text in lower case, as `str::to_lowercase` gives it.
pub uninterp spec fn lower_of(s: Seq<char>) -> Seq<char>;

/// Relies on `str::to_lowercase`: the lower-case form, which depends on the
/// characters alone.
#[verifier::external_body]
fn lowercase(s: &str) -> (r: String)
    ensures
        r@ == lower_of(s@),
{
    s.to_lowercase()
}

/// `needle` occurs in `hay` as a contiguous run.
pub open spec fn contains_text(hay: Seq<char>, needle: Seq<char>) -> bool {
    exists|i: int|
        0 <= i && i + needle.len() <= hay.len() && #[trigger] hay.subrange(i, i + needle.len())
            == needle
}

/// The two lists have a string in common.
pub open spec fn shares_tag(a: Seq<Seq<char>>, b: Seq<Seq<char>>) -> bool {
    exists|i: int, j: int| 0 <= i < a.len() && 0 <= j < b.len() && a[i] == b[j]
}

/// Search filters; each present one must hold, absent ones impose nothing.
pub struct SearchQuery {
    /// A text that the name contains, compared in lower case.
    pub name: Option<String>,
    /// Tags of which the record must carry at least one.
    pub tags: Option<Vec<String>>,
    /// Earliest creation time, inclusive.
    pub start_date: Option<i64>,
    /// Latest creation time, inclusive.
    pub end_date: Option<i64>,
    /// Least confidence, as a single-precision bit pattern, compared as
    /// `>=` on single-precision values.
    pub min_confidence: Option<u32>,
}

pub struct QueryView {
    pub name: Option<Seq<char>>,
    pub tags: Option<Seq<Seq<char>>>,
    pub start_date: Option<i64>,
    pub end_date: Option<i64>,
    pub min_confidence: Option<u32>,
}

impl View for SearchQuery {
    type V = QueryView;

    open spec fn view(&self) -> QueryView {
        QueryView {
            name: name_view(self.name),
            tags: match self.tags {
                Some(t) => Some(strings_view(t@)),
                None => None,
            },
            start_date: self.start_date,
            end_date: self.end_date,
            min_confidence: self.min_confidence,
        }
    }
}

/// The record passes every filter of the query.
pub open spec fn admits(q: QueryView, r: RecordView) -> bool {
    &&& match q.name {
        Some(n) => match r.metadata.name {
            Some(rn) => contains_text(lower_of(rn), lower_of(n)),
            None => false,
        },
        None => true,
    }
    &&& match q.tags {
        Some(t) => shares_tag(r.metadata.tags, t),
        None => true,
    }
    &&& match q.start_date {
        Some(st) => r.metadata.timestamp >= st,
        None => true,
    }
    &&& match q.end_date {
        Some(e) => r.metadata.timestamp <= e,
        None => true,
    }
    &&& match q.min_confidence {
        Some(c) => ge_bits(r.metadata.confidence, c),
        None => true,
    }
}

/// Row `i` is listed before row `j`: newer first, table order among rows
/// of the same time.
pub open spec fn newer_first(rows: Seq<RecordView>, i: int, j: int) -> bool {
    rows[i].metadata.timestamp > rows[j].metadata.timestamp || (rows[i].metadata.timestamp
        == rows[j].metadata.timestamp && i < j)
}

/// `idx` lists the positions of the rows that the query admits, each once,
/// newest first and in table order among rows of the same time.
pub open spec fn is_timeline(rows: Seq<RecordView>, q: QueryView, idx: Seq<usize>) -> bool {
    &&& forall|k: int| 0 <= k < idx.len() ==> idx[k] < rows.len() && admits(q, rows[idx[k] as int])
    &&& forall|i: int|
        0 <= i < rows.len() && admits(q, rows[i]) ==> exists|k: int| 0 <= k < idx.len() && idx[k] == i
    &&& forall|a: int, b: int| 0 <= a < b < idx.len() ==> newer_first(rows, idx[a] as int, idx[b] as int)
}

/// The characters of a text.
fn chars_of(s: &str) -> (r: Vec<char>)
    ensures
        r@ == s@,
{
    let n = s.unicode_len();
    let mut out: Vec<char> = Vec::new();
    let mut i: usize = 0;
    while i < n
        invariant
            n == s@.len(),
            i <= n,
            out@ == s@.take(i as int),
        decreases n - i,
    {
        out.push(s.get_char(i));
        i = i + 1;
        assert(out@ =~= s@.take(i as int));
    }
    assert(s@.take(n as int) =~= s@);
    out
}

/// Whether `needle` occurs in `hay` as a contiguous run.
fn contains_chars(hay: &Vec<char>, needle: &Vec<char>) -> (r: bool)
    ensures
        r == contains_text(hay@, needle@),
{
    let h = hay.len();
    let m = needle.len();
    if m > h {
        return false;
    }
    let mut i: usize = 0;
    while i <= h - m
        invariant
            h == hay@.len(),
            m == needle@.len(),
            m <= h,
            i <= h - m + 1,
            forall|a: int| 0 <= a < i ==> #[trigger] hay@.subrange(a, a + m) != needle@,
        decreases h - m + 1 - i,
    {
        let mut j: usize = 0;
        let mut same = true;
        while j < m && same
            invariant
                h == hay@.len(),
                m == needle@.len(),
                i + m <= h,
                j <= m,
                same ==> forall|b: int| 0 <= b < j ==> hay@[i + b] == needle@[b],
                !same ==> j > 0 && hay@[i + j - 1] != needle@[j - 1],
            decreases m - j,
        {
            if hay[i + j] != needle[j] {
                same = false;
            }
            j = j + 1;
        }
        if same {
            assert(hay@.subrange(i as int, i + m) =~= needle@);
            return true;
        }
        assert(hay@.subrange(i as int, i + m)[j - 1] != needle@[j - 1]);
        i = i + 1;
    }
    assert forall|a: int| 0 <= a && a + m <= h implies #[trigger] hay@.subrange(a, a + m) != needle@ by {
        assert(a < i);
    }
    false
}

/// Whether the two lists have a string in common.
fn any_shared(a: &Vec<String>, b: &Vec<String>) -> (r: bool)
    ensures
        r == shares_tag(strings_view(a@), strings_view(b@)),
{
    let mut i: usize = 0;
    while i < a.len()
        invariant
            i <= a@.len(),
            forall|x: int, y: int| 0 <= x < i && 0 <= y < b@.len() ==> a@[x]@ != b@[y]@,
        decreases a@.len() - i,
    {
        let mut j: usize = 0;
        while j < b.len()
            invariant
                i < a@.len(),
                j <= b@.len(),
                forall|x: int, y: int| 0 <= x < i && 0 <= y < b@.len() ==> a@[x]@ != b@[y]@,
                forall|y: int| 0 <= y < j ==> a@[i as int]@ != b@[y]@,
            decreases b@.len() - j,
        {
            if a[i] == b[j] {
                assert(strings_view(a@)[i as int] == strings_view(b@)[j as int]);
                return true;
            }
            j = j + 1;
        }
        i = i + 1;
    }
    assert forall|x: int, y: int|
        0 <= x < a@.len() && 0 <= y < b@.len() implies strings_view(a@)[x] != strings_view(b@)[y] by {
        assert(a@[x]@ != b@[y]@);
    }
    false
}

/// Whether the query admits the record.
fn admits_record(q: &SearchQuery, r: &FaceEmbedding) -> (b: bool)
    ensures
        b == admits(q@, r@),
{
    match &q.name {
        Some(n) => match &r.metadata.name {
            Some(rn) => {
                let hay = chars_of(lowercase(rn.as_str()).as_str());
                let needle = chars_of(lowercase(n.as_str()).as_str());
                if !contains_chars(&hay, &needle) {
                    return false;
                }
            },
            None => {
                return false;
            },
        },
        None => {},
    }
    match &q.tags {
        Some(t) => {
            if !any_shared(&r.metadata.tags, t) {
                return false;
            }
        },
        None => {},
    }
    match q.start_date {
        Some(st) => {
            if r.metadata.timestamp < st {
                return false;
            }
        },
        None => {},
    }
    match q.end_date {
        Some(e) => {
            if r.metadata.timestamp > e {
                return false;
            }
        },
        None => {},
    }
    match q.min_confidence {
        Some(c) => {
            if !float_ge(r.metadata.confidence, c) {
                return false;
            }
        },
        None => {},
    }
    true
}

/// The face record table.
pub struct Database {
    records: Vec<FaceEmbedding>,
    config: DatabaseConfig,
}

impl View for Database {
    type V = Seq<RecordView>;

    closed spec fn view(&self) -> Seq<RecordView> {
        self.records@.map_values(|r: FaceEmbedding| r@)
    }
}

impl Database {
    /// Ids are unique.
    pub open spec fn wf(&self) -> bool {
        unique_ids(self@)
    }

    /// An empty table.
    pub fn new(config: DatabaseConfig) -> (r: Self)
        ensures
            r.wf(),
            r@ == Seq::<RecordView>::empty(),
            r.storage_root() == config.image_storage_path@,
    {
        let r = Database { records: Vec::new(), config };
        assert(r@ =~= Seq::<RecordView>::empty());
        r
    }

    /// The directory that holds the artifacts.
    pub closed spec fn storage_root(&self) -> Seq<char> {
        self.config.image_storage_path@
    }

    /// The path of the artifact paired with the id: `<root>/<id>.jpg`.
    pub fn artifact_path(&self, face_id: &str) -> (r: String)
        ensures
            r@ == self.storage_root() + "/"@ + face_id@ + ".jpg"@,
    {
        let mut p = self.config.image_storage_path.clone();
        p.append("/");
        p.append(face_id);
        p.append(".jpg");
        p
    }

    /// The ids of all rows, in table order, for reconciling the table with
    /// the artifacts on disk.
    pub fn face_ids(&self) -> (r: Vec<String>)
        ensures
            strings_view(r@) == self@.map_values(|f: RecordView| f.face_id),
    {
        let mut out: Vec<String> = Vec::new();
        let mut i: usize = 0;
        while i < self.records.len()
            invariant
                i <= self.records@.len(),
                self@.len() == self.records@.len(),
                out@.len() == i,
                forall|k: int| 0 <= k < i ==> #[trigger] out@[k]@ == self@[k].face_id,
            decreases self.records@.len() - i,
        {
            assert(self@[i as int] == self.records@[i as int]@);
            out.push(self.records[i].face_id.clone());
            i = i + 1;
        }
        assert(strings_view(out@) =~= self@.map_values(|f: RecordView| f.face_id));
        out
    }

    /// The position of the row with the id, if any.
    fn position(&self, face_id: &str) -> (r: Option<usize>)
        requires
            self.wf(),
        ensures
            r.is_some() == has_id(self@, face_id@),
            r.is_some() ==> r.unwrap() == index_of(self@, face_id@),
    {
        let key = String::from_str(face_id);
        let mut i: usize = 0;
        while i < self.records.len()
            invariant
                key@ == face_id@,
                self.wf(),
                i <= self@.len(),
                self@.len() == self.records@.len(),
                forall|k: int| 0 <= k < i ==> self@[k].face_id != face_id@,
            decreases self.records@.len() - i,
        {
            assert(self@[i as int] == self.records@[i as int]@);
            if self.records[i].face_id == key {
                assert(self@[i as int].face_id == face_id@);
                let ghost j = index_of(self@, face_id@);
                assert(has_id(self@, face_id@));
                assert(0 <= j < self@.len() && self@[j].face_id == face_id@);
                assert(j == i as int) by {
                    if j < i as int {
                        assert(self@[j].face_id != face_id@);
                    } else if j > i as int {
                        assert(self@[i as int].face_id != self@[j].face_id);
                    }
                }
                return Some(i);
            }
            i = i + 1;
        }
        None
    }

    /// Adds a record, whose artifact the caller has already written.
    pub fn store_face(&mut self, face: FaceEmbedding) -> (r: Result<(), CatalogError>)
        requires
            old(self).wf(),
        ensures
            final(self).wf(),
            final(self).storage_root() == old(self).storage_root(),
            !is_valid_record(face@) ==> r == Err::<(), CatalogError>(CatalogError::ValidationError)
                && final(self)@ == old(self)@,
            is_valid_record(face@) && has_id(old(self)@, face@.face_id) ==> r == Err::<(), CatalogError>(
                CatalogError::DuplicateId,
            ) && final(self)@ == old(self)@,
            is_valid_record(face@) && !has_id(old(self)@, face@.face_id) ==> r == Ok::<(), CatalogError>(())
                && final(self)@ == old(self)@.push(face@),
    {
        if !parses_as_uuid(face.face_id.as_str()) || !unit_interval(face.metadata.confidence) {
            return Err(CatalogError::ValidationError);
        }
        if self.position(face.face_id.as_str()).is_some() {
            return Err(CatalogError::DuplicateId);
        }
        let ghost before = self@;
        let ghost fv = face@;
        self.records.push(face);
        assert(self@ =~= before.push(fv));
        assert forall|i: int, j: int| 0 <= i < j < self@.len() implies self@[i].face_id != self@[j].face_id by {
            if j == before.len() {
                assert(self@[i] == before[i]);
            }
        }
        Ok(())
    }

    /// The record with the id, if there is one.
    pub fn get_face(&self, face_id: &str) -> (r: Result<Option<FaceEmbedding>, CatalogError>)
        requires
            self.wf(),
        ensures
            !uuid_accepts(face_id@) ==> r == Err::<Option<FaceEmbedding>, CatalogError>(
                CatalogError::ValidationError,
            ),
            uuid_accepts(face_id@) ==> r.is_ok() && match r.unwrap() {
                Some(f) => lookup(self@, face_id@) == Some(f@),
                None => lookup(self@, face_id@) == None::<RecordView>,
            },
    {
        if !parses_as_uuid(face_id) {
            return Err(CatalogError::ValidationError);
        }
        match self.position(face_id) {
            Some(i) => {
                let f = self.records[i].duplicate();
                assert(self@[i as int] == self.records@[i as int]@);
                Ok(Some(f))
            },
            None => Ok(None),
        }
    }

    /// Removes the row with the id, if there is one, and says whether one
    /// was removed. The caller then removes the artifact at
    /// `artifact_path`; a failure there leaves the row removed.
    pub fn delete_face(&mut self, face_id: &str) -> (r: Result<bool, CatalogError>)
        requires
            old(self).wf(),
        ensures
            final(self).wf(),
            final(self).storage_root() == old(self).storage_root(),
            !uuid_accepts(face_id@) ==> r == Err::<bool, CatalogError>(CatalogError::ValidationError)
                && final(self)@ == old(self)@,
            uuid_accepts(face_id@) ==> r == Ok::<bool, CatalogError>(has_id(old(self)@, face_id@))
                && final(self)@ == without(old(self)@, face_id@),
    {
        if !parses_as_uuid(face_id) {
            return Err(CatalogError::ValidationError);
        }
        match self.position(face_id) {
            Some(i) => {
                let ghost before = self@;
                let _gone = self.records.remove(i);
                assert(self@ =~= before.remove(i as int));
                assert forall|a: int, b: int| 0 <= a < b < self@.len() implies self@[a].face_id
                    != self@[b].face_id by {
                    if a < i {
                        if b < i {
                        } else {
                            assert(self@[b] == before[b + 1]);
                        }
                    } else {
                        assert(self@[a] == before[a + 1]);
                        assert(self@[b] == before[b + 1]);
                    }
                }
                Ok(true)
            },
            None => Ok(false),
        }
    }
}

impl Database {
    /// Overwrites the supplied fields of the record with the id.
    pub fn update_face(&mut self, face_id: &str, updates: FaceUpdates) -> (r: Result<(), CatalogError>)
        requires
            old(self).wf(),
        ensures
            final(self).wf(),
            final(self).storage_root() == old(self).storage_root(),
            r.is_err() ==> final(self)@ == old(self)@,
            !uuid_accepts(face_id@) || (updates@.confidence.is_some() && !is_unit_interval(
                updates@.confidence.unwrap(),
            )) ==> r == Err::<(), CatalogError>(CatalogError::ValidationError),
            uuid_accepts(face_id@) && !(updates@.confidence.is_some() && !is_unit_interval(
                updates@.confidence.unwrap(),
            )) ==> {
                &&& !has_id(old(self)@, face_id@) ==> r == Err::<(), CatalogError>(CatalogError::NotFound)
                &&& has_id(old(self)@, face_id@) ==> r == Ok::<(), CatalogError>(()) && final(self)@
                    == old(self)@.update(
                    index_of(old(self)@, face_id@),
                    apply_updates(old(self)@[index_of(old(self)@, face_id@)], updates@),
                )
            },
    {
        if !parses_as_uuid(face_id) {
            return Err(CatalogError::ValidationError);
        }
        match updates.confidence {
            Some(c) => {
                if !unit_interval(c) {
                    return Err(CatalogError::ValidationError);
                }
            },
            None => {},
        }
        let i = match self.position(face_id) {
            Some(i) => i,
            None => {
                return Err(CatalogError::NotFound);
            },
        };
        let ghost before = self@;
        let ghost uv = updates@;
        let mut rec = self.records.remove(i);
        assert(rec@ == before[i as int]);
        match updates.name {
            Some(n) => {
                rec.metadata.name = Some(n);
            },
            None => {},
        }
        match updates.tags {
            Some(t) => {
                rec.metadata.tags = t;
            },
            None => {},
        }
        match updates.confidence {
            Some(c) => {
                rec.metadata.confidence = c;
            },
            None => {},
        }
        assert(rec@ == apply_updates(before[i as int], uv));
        self.records.insert(i, rec);
        assert(self@ =~= before.update(i as int, apply_updates(before[i as int], uv)));
        assert forall|a: int, b: int| 0 <= a < b < self@.len() implies self@[a].face_id
            != self@[b].face_id by {
            assert(self@[a].face_id == before[a].face_id);
            assert(self@[b].face_id == before[b].face_id);
        }
        Ok(())
    }

    /// Removes every row created before the cutoff and returns their ids,
    /// in table order; the caller removes their artifacts.
    pub fn cleanup_before(&mut self, cutoff: i64) -> (r: Vec<String>)
        requires
            old(self).wf(),
        ensures
            final(self).wf(),
            final(self).storage_root() == old(self).storage_root(),
            final(self)@ == kept(old(self)@, cutoff as int),
            strings_view(r@) == expired_ids(old(self)@, cutoff as int),
    {
        let ghost orig = self@;
        let mut removed: Vec<String> = Vec::new();
        let mut i: usize = 0;
        let ghost mut p: int = 0;
        while i < self.records.len()
            invariant
                0 <= p <= orig.len(),
                self@ == kept(orig.take(p), cutoff as int) + orig.skip(p),
                i == kept(orig.take(p), cutoff as int).len(),
                self@.len() == self.records@.len(),
                strings_view(removed@) == expired_ids(orig.take(p), cutoff as int),
                unique_ids(self@),
                self.storage_root() == old(self).storage_root(),
            decreases self.records@.len() - i,
        {
            let ghost cur = self@;
            let ghost x = orig[p];
            assert(orig.take(p + 1).drop_last() =~= orig.take(p));
            assert(orig.take(p + 1).last() == x);
            reveal(Seq::filter);
            assert(cur[i as int] == x);
            assert(self.records@[i as int]@ == x);
            if self.records[i].metadata.timestamp >= cutoff {
                assert(kept(orig.take(p + 1), cutoff as int) == kept(orig.take(p), cutoff as int).push(x));
                assert(self@ =~= kept(orig.take(p + 1), cutoff as int) + orig.skip(p + 1));
                assert(expired_ids(orig.take(p + 1), cutoff as int) == expired_ids(orig.take(p), cutoff as int));
                i = i + 1;
            } else {
                let ghost ids0 = strings_view(removed@);
                let gone = self.records.remove(i);
                proof {
                    lemma_remove_keeps_unique(cur, i as int);
                }
                assert(self@ =~= cur.remove(i as int));
                assert(kept(orig.take(p + 1), cutoff as int) == kept(orig.take(p), cutoff as int));
                assert(self@ =~= kept(orig.take(p + 1), cutoff as int) + orig.skip(p + 1));
                removed.push(gone.face_id);
                let ghost ex = orig.take(p).filter(|r: RecordView| r.metadata.timestamp < cutoff);
                assert(orig.take(p + 1).filter(|r: RecordView| r.metadata.timestamp < cutoff) == ex.push(x));
                assert(expired_ids(orig.take(p + 1), cutoff as int) =~= ids0.push(x.face_id));
                assert(strings_view(removed@) =~= ids0.push(x.face_id));
            }
            proof {
                p = p + 1;
            }
        }
        assert(orig.take(p) =~= orig);
        assert(self@ =~= kept(orig, cutoff as int));
        removed
    }

    /// Removes every row older than the retention period, in days, counted
    /// back from `now`, and returns their ids. A period or cutoff that does
    /// not fit in the time range is a `ValidationError`.
    pub fn cleanup_at(&mut self, now: i64, days: i64) -> (r: Result<Vec<String>, CatalogError>)
        requires
            old(self).wf(),
        ensures
            final(self).wf(),
            final(self).storage_root() == old(self).storage_root(),
            !(i64::MIN <= days * SECONDS_PER_DAY <= i64::MAX && i64::MIN <= cutoff_for(now, days)
                <= i64::MAX) ==> r == Err::<Vec<String>, CatalogError>(CatalogError::ValidationError)
                && final(self)@ == old(self)@,
            i64::MIN <= days * SECONDS_PER_DAY <= i64::MAX && i64::MIN <= cutoff_for(now, days)
                <= i64::MAX ==> {
                &&& r.is_ok()
                &&& final(self)@ == kept(old(self)@, cutoff_for(now, days))
                &&& strings_view(r.unwrap()@) == expired_ids(old(self)@, cutoff_for(now, days))
            },
    {
        let span = match days.checked_mul(SECONDS_PER_DAY) {
            Some(v) => v,
            None => {
                return Err(CatalogError::ValidationError);
            },
        };
        let cutoff = match now.checked_sub(span) {
            Some(v) => v,
            None => {
                return Err(CatalogError::ValidationError);
            },
        };
        let ids = self.cleanup_before(cutoff);
        Ok(ids)
    }

    /// Removes every row older than the retention period, in days, counted
    /// back from the current time, and returns their ids. A negative
    /// period or one that does not fit in the time range is a
    /// `ValidationError`; a clock that cannot be read is a `BackendFailure`.
    pub fn cleanup_old_faces(&mut self, days: i64) -> (r: Result<Vec<String>, CatalogError>)
        requires
            old(self).wf(),
        ensures
            final(self).wf(),
            final(self).storage_root() == old(self).storage_root(),
            r.is_err() ==> final(self)@ == old(self)@,
            !(0 <= days && days * SECONDS_PER_DAY <= i64::MAX) ==> r == Err::<Vec<String>, CatalogError>(
                CatalogError::ValidationError,
            ),
            0 <= days && days * SECONDS_PER_DAY <= i64::MAX ==> r.is_ok() || r == Err::<
                Vec<String>,
                CatalogError,
            >(CatalogError::BackendFailure),
            r.is_ok() ==> exists|now: i64|
                {
                    &&& now >= 0
                    &&& final(self)@ == kept(old(self)@, #[trigger] cutoff_for(now, days))
                    &&& strings_view(r.unwrap()@) == expired_ids(old(self)@, cutoff_for(now, days))
                },
    {
        if days < 0 || days > i64::MAX / SECONDS_PER_DAY {
            return Err(CatalogError::ValidationError);
        }
        let now = match now_seconds() {
            Some(t) => t,
            None => {
                return Err(CatalogError::BackendFailure);
            },
        };
        self.cleanup_at(now, days)
    }
}

impl Database {
    /// The records that the query admits, newest first; records of the same
    /// time keep the table order.
    pub fn search_faces(&self, query: &SearchQuery) -> (r: Vec<FaceEmbedding>)
        requires
            self.wf(),
        ensures
            exists|idx: Seq<usize>|
                {
                    &&& is_timeline(self@, query@, idx)
                    &&& idx.len() == r@.len()
                    &&& forall|k: int| 0 <= k < idx.len() ==> #[trigger] r@[k]@ == self@[idx[k] as int]
                },
    {
        let ghost rows = self@;
        let ghost q = query@;
        let n = self.records.len();
        let mut out: Vec<usize> = Vec::new();
        let mut i: usize = 0;
        while i < n
            invariant
                rows == self@,
                q == query@,
                n == rows.len(),
                n == self.records@.len(),
                i <= n,
                forall|k: int| 0 <= k < out.len() ==> out[k] < i && admits(q, rows[out[k] as int]),
                forall|m: int|
                    0 <= m < i && admits(q, rows[m]) ==> exists|k: int| 0 <= k < out.len() && out[k] == m,
                forall|a: int, b: int|
                    0 <= a < b < out.len() ==> newer_first(rows, out[a] as int, out[b] as int),
            decreases n - i,
        {
            assert(rows[i as int] == self.records@[i as int]@);
            if admits_record(query, &self.records[i]) {
                let ti = self.records[i].metadata.timestamp;
                let mut p: usize = 0;
                while p < out.len() && self.records[out[p]].metadata.timestamp >= ti
                    invariant
                        rows == self@,
                        n == self.records@.len(),
                        n == rows.len(),
                        i < n,
                        0 <= p <= out.len(),
                        ti == rows[i as int].metadata.timestamp,
                        forall|k: int| 0 <= k < out.len() ==> out[k] < i,
                        forall|k: int| 0 <= k < p ==> rows[out[k] as int].metadata.timestamp >= ti,
                    decreases out.len() - p,
                {
                    assert(rows[out[p as int] as int] == self.records@[out[p as int] as int]@);
                    p = p + 1;
                }
                proof {
                    if p < out.len() {
                        assert(rows[out[p as int] as int] == self.records@[out[p as int] as int]@);
                        assert forall|k: int| p <= k < out.len() implies rows[out[k] as int].metadata.timestamp
                            < ti by {
                            if k > p {
                                assert(newer_first(rows, out[p as int] as int, out[k] as int));
                            }
                        }
                    }
                }
                let ghost before = out@;
                out.insert(p, i);
                assert forall|m: int| 0 <= m < i + 1 && admits(q, rows[m]) implies exists|k: int|
                    0 <= k < out.len() && out[k] == m by {
                    if m == i {
                        assert(out[p as int] == m);
                    } else {
                        let k = choose|k: int| 0 <= k < before.len() && before[k] == m;
                        if k < p {
                            assert(out[k] == m);
                        } else {
                            assert(out[k + 1] == m);
                        }
                    }
                }
            }
            i = i + 1;
        }
        let mut res: Vec<FaceEmbedding> = Vec::new();
        let mut k: usize = 0;
        while k < out.len()
            invariant
                rows == self@,
                n == self.records@.len(),
                n == rows.len(),
                forall|a: int| 0 <= a < out.len() ==> out[a] < n,
                k <= out@.len(),
                res@.len() == k,
                forall|a: int| 0 <= a < k ==> #[trigger] res@[a]@ == rows[out@[a] as int],
            decreases out@.len() - k,
        {
            let f = self.records[out[k]].duplicate();
            assert(rows[out@[k as int] as int] == self.records@[out@[k as int] as int]@);
            res.push(f);
            k = k + 1;
        }
        assert(is_timeline(rows, q, out@));
        res
    }
}

/// Storing a record and then reading its id gives the record back.
pub proof fn lemma_store_then_get(rows: Seq<RecordView>, r: RecordView)
    requires
        unique_ids(rows),
        !has_id(rows, r.face_id),
    ensures
        unique_ids(rows.push(r)),
        lookup(rows.push(r), r.face_id) == Some(r),
{
    let s = rows.push(r);
    assert(s[rows.len() as int].face_id == r.face_id);
    let j = index_of(s, r.face_id);
    if j < rows.len() {
        assert(rows[j].face_id == r.face_id);
    }
    assert forall|i: int, k: int| 0 <= i < k < s.len() implies s[i].face_id != s[k].face_id by {
        if k == rows.len() {
            assert(rows[i] == s[i]);
        }
    }
}

/// After the row with an id is removed, reading the id finds nothing.
pub proof fn lemma_delete_then_get(rows: Seq<RecordView>, id: Seq<char>)
    requires
        unique_ids(rows),
    ensures
        lookup(without(rows, id), id) == None::<RecordView>,
{
    if has_id(rows, id) {
        let j = index_of(rows, id);
        let s = rows.remove(j);
        if has_id(s, id) {
            let k = choose|k: int| 0 <= k < s.len() && s[k].face_id == id;
            if k < j {
                assert(rows[k].face_id == id);
            } else {
                assert(rows[k + 1].face_id == id);
            }
        }
    }
}

/// A search by least confidence returns only records whose confidence is
/// at least that value.
pub proof fn lemma_min_confidence_search(rows: Seq<RecordView>, q: QueryView, idx: Seq<usize>, x: u32)
    requires
        is_timeline(rows, q, idx),
        q.min_confidence == Some(x),
    ensures
        forall|k: int|
            0 <= k < idx.len() ==> ge_bits(#[trigger] rows[idx[k] as int].metadata.confidence, x),
{
    assert forall|k: int| 0 <= k < idx.len() implies ge_bits(
        #[trigger] rows[idx[k] as int].metadata.confidence,
        x,
    ) by {
        assert(admits(q, rows[idx[k] as int]));
    }
}

/// Cleanup keeps exactly the rows created at or after the cutoff, in
/// their order, and removes the others: the count of removed ids and kept
/// rows together is the count of rows before.
pub proof fn lemma_cleanup_exact(rows: Seq<RecordView>, cutoff: int)
    ensures
        forall|k: int|
            0 <= k < kept(rows, cutoff).len() ==> #[trigger] kept(rows, cutoff)[k].metadata.timestamp
                >= cutoff,
        forall|i: int|
            0 <= i < rows.len() && rows[i].metadata.timestamp >= cutoff ==> kept(rows, cutoff).contains(
                rows[i],
            ),
        forall|i: int|
            0 <= i < rows.len() && rows[i].metadata.timestamp < cutoff ==> expired_ids(
                rows,
                cutoff,
            ).contains(rows[i].face_id),
        kept(rows, cutoff).len() + expired_ids(rows, cutoff).len() == rows.len(),
    decreases rows.len(),
{
    let keep = |r: RecordView| r.metadata.timestamp >= cutoff;
    let gone = |r: RecordView| r.metadata.timestamp < cutoff;
    broadcast use vstd::seq_lib::group_filter_ensures;

    assert forall|i: int|
        0 <= i < rows.len() && rows[i].metadata.timestamp < cutoff implies expired_ids(
        rows,
        cutoff,
    ).contains(rows[i].face_id) by {
        let f = rows.filter(gone);
        assert(f.contains(rows[i]));
        let k = choose|k: int| 0 <= k < f.len() && f[k] == rows[i];
        assert(expired_ids(rows, cutoff)[k] == rows[i].face_id);
    }
    if rows.len() > 0 {
        lemma_cleanup_exact(rows.drop_last(), cutoff);
        reveal(Seq::filter);
    }
}

} // verus!
