use face_catalog::record::{CatalogError, FaceEmbedding, FaceMetadata};
use face_catalog::store::{Database, DatabaseConfig, FaceUpdates, SearchQuery};

const ID1: &str = "67e55044-10b1-426f-9247-bb680e5fe0c8";
const ID2: &str = "a1a2a3a4-b1b2-c1c2-d1d2-d3d4d5d6d7d8";
const ID3: &str = "936da01f9abd4d9d80c702af85c822a8";

fn record(id: &str, name: Option<&str>, tags: &[&str], timestamp: i64, confidence: f32) -> FaceEmbedding {
    FaceEmbedding {
        embedding: vec![0.6f32.to_bits(), 0.8f32.to_bits()],
        face_id: id.to_string(),
        metadata: FaceMetadata {
            name: name.map(|s| s.to_string()),
            tags: tags.iter().map(|s| s.to_string()).collect(),
            timestamp,
            source_image: format!("uploads/{}.jpg", id),
            confidence: confidence.to_bits(),
        },
    }
}

fn same(a: &FaceEmbedding, b: &FaceEmbedding) -> bool {
    a.face_id == b.face_id
        && a.embedding == b.embedding
        && a.metadata.name == b.metadata.name
        && a.metadata.tags == b.metadata.tags
        && a.metadata.timestamp == b.metadata.timestamp
        && a.metadata.source_image == b.metadata.source_image
        && a.metadata.confidence == b.metadata.confidence
}

fn db() -> Database {
    Database::new(DatabaseConfig::default())
}

fn empty_query() -> SearchQuery {
    SearchQuery { name: None, tags: None, start_date: None, end_date: None, min_confidence: None }
}

#[test]
fn default_database_config() {
    let c = DatabaseConfig::default();
    assert_eq!(c.connection_string, "postgres://localhost/face_analyzer");
    assert_eq!(c.max_connections, 5);
    assert_eq!(c.image_storage_path, "data/faces");
}

#[test]
fn store_then_get_round_trip() {
    let mut d = db();
    let r = record(ID1, Some("Alice"), &["staff", "vip"], 1_700_000_000, 0.75);
    assert_eq!(d.store_face(record(ID1, Some("Alice"), &["staff", "vip"], 1_700_000_000, 0.75)), Ok(()));
    let got = d.get_face(ID1).unwrap().unwrap();
    assert!(same(&got, &r));
}

#[test]
fn get_unknown_id_is_absent() {
    let d = db();
    assert!(d.get_face(ID2).unwrap().is_none());
}

#[test]
fn store_rejects_malformed_id() {
    let mut d = db();
    assert_eq!(d.store_face(record("not-a-uuid", None, &[], 0, 0.5)), Err(CatalogError::ValidationError));
    assert!(matches!(d.get_face("not-a-uuid"), Err(CatalogError::ValidationError)));
    assert!(d.search_faces(&empty_query()).is_empty());
}

#[test]
fn store_rejects_out_of_range_confidence() {
    let mut d = db();
    assert_eq!(d.store_face(record(ID1, None, &[], 0, 1.5)), Err(CatalogError::ValidationError));
    assert_eq!(d.store_face(record(ID1, None, &[], 0, -0.5)), Err(CatalogError::ValidationError));
    assert_eq!(d.store_face(record(ID1, None, &[], 0, 1.0)), Ok(()));
    assert_eq!(d.store_face(record(ID2, None, &[], 0, 0.0)), Ok(()));
}

#[test]
fn store_rejects_duplicate_id() {
    let mut d = db();
    assert_eq!(d.store_face(record(ID1, None, &[], 0, 0.5)), Ok(()));
    assert_eq!(d.store_face(record(ID1, Some("x"), &[], 5, 0.6)), Err(CatalogError::DuplicateId));
    assert_eq!(d.get_face(ID1).unwrap().unwrap().metadata.timestamp, 0);
}

#[test]
fn delete_then_get_is_absent() {
    let mut d = db();
    d.store_face(record(ID1, None, &[], 0, 0.5)).unwrap();
    d.store_face(record(ID2, None, &[], 0, 0.5)).unwrap();
    assert_eq!(d.delete_face(ID1), Ok(true));
    assert!(d.get_face(ID1).unwrap().is_none());
    assert!(d.get_face(ID2).unwrap().is_some());
    assert_eq!(d.delete_face(ID1), Ok(false));
    assert_eq!(d.delete_face("bogus"), Err(CatalogError::ValidationError));
}

#[test]
fn update_overwrites_supplied_fields_only() {
    let mut d = db();
    d.store_face(record(ID1, Some("Alice"), &["a"], 10, 0.5)).unwrap();
    let u = FaceUpdates { name: None, tags: Some(vec!["b".to_string()]), confidence: Some(0.9f32.to_bits()) };
    assert_eq!(d.update_face(ID1, u), Ok(()));
    let got = d.get_face(ID1).unwrap().unwrap();
    assert_eq!(got.metadata.name.as_deref(), Some("Alice"));
    assert_eq!(got.metadata.tags, vec!["b".to_string()]);
    assert_eq!(got.metadata.confidence, 0.9f32.to_bits());
    assert_eq!(got.metadata.timestamp, 10);
}

#[test]
fn update_errors() {
    let mut d = db();
    let none = || FaceUpdates { name: Some("n".to_string()), tags: None, confidence: None };
    assert_eq!(d.update_face(ID1, none()), Err(CatalogError::NotFound));
    assert_eq!(d.update_face("nope", none()), Err(CatalogError::ValidationError));
    d.store_face(record(ID1, None, &[], 0, 0.5)).unwrap();
    let bad = FaceUpdates { name: None, tags: None, confidence: Some(2.0f32.to_bits()) };
    assert_eq!(d.update_face(ID1, bad), Err(CatalogError::ValidationError));
    assert_eq!(d.get_face(ID1).unwrap().unwrap().metadata.confidence, 0.5f32.to_bits());
}

#[test]
fn search_by_min_confidence() {
    let mut d = db();
    d.store_face(record(ID1, None, &[], 1, 0.3)).unwrap();
    d.store_face(record(ID2, None, &[], 2, 0.8)).unwrap();
    d.store_face(record(ID3, None, &[], 3, 0.6)).unwrap();
    let q = SearchQuery { min_confidence: Some(0.6f32.to_bits()), ..empty_query() };
    let r = d.search_faces(&q);
    let got: Vec<&str> = r.iter().map(|f| f.face_id.as_str()).collect();
    assert_eq!(got, vec![ID3, ID2]);
    assert!(r.iter().all(|f| f32::from_bits(f.metadata.confidence) >= 0.6));
}

#[test]
fn search_orders_newest_first_and_combines_filters() {
    let mut d = db();
    d.store_face(record(ID1, Some("Alice Smith"), &["staff"], 100, 0.9)).unwrap();
    d.store_face(record(ID2, Some("bob"), &["guest", "vip"], 300, 0.9)).unwrap();
    d.store_face(record(ID3, Some("ALICIA"), &["vip"], 200, 0.9)).unwrap();
    let all: Vec<String> = d.search_faces(&empty_query()).into_iter().map(|f| f.face_id).collect();
    assert_eq!(all, vec![ID2, ID3, ID1]);
    let by_name = SearchQuery { name: Some("aLi".to_string()), ..empty_query() };
    let got: Vec<String> = d.search_faces(&by_name).into_iter().map(|f| f.face_id).collect();
    assert_eq!(got, vec![ID3, ID1]);
    let by_tag = SearchQuery { tags: Some(vec!["vip".to_string(), "x".to_string()]), ..empty_query() };
    let got: Vec<String> = d.search_faces(&by_tag).into_iter().map(|f| f.face_id).collect();
    assert_eq!(got, vec![ID2, ID3]);
    let window = SearchQuery { start_date: Some(150), end_date: Some(300), name: Some("ali".to_string()), ..empty_query() };
    let got: Vec<String> = d.search_faces(&window).into_iter().map(|f| f.face_id).collect();
    assert_eq!(got, vec![ID3]);
}

#[test]
fn search_keeps_table_order_for_equal_times() {
    let mut d = db();
    d.store_face(record(ID1, None, &[], 50, 0.5)).unwrap();
    d.store_face(record(ID2, None, &[], 50, 0.5)).unwrap();
    let got: Vec<String> = d.search_faces(&empty_query()).into_iter().map(|f| f.face_id).collect();
    assert_eq!(got, vec![ID1, ID2]);
}

#[test]
fn cleanup_removes_exactly_older_records() {
    let mut d = db();
    d.store_face(record(ID1, None, &[], 100, 0.5)).unwrap();
    d.store_face(record(ID2, None, &[], 200, 0.5)).unwrap();
    d.store_face(record(ID3, None, &[], 99, 0.5)).unwrap();
    let gone = d.cleanup_before(100);
    assert_eq!(gone, vec![ID3.to_string()]);
    assert!(d.get_face(ID1).unwrap().is_some());
    assert!(d.get_face(ID2).unwrap().is_some());
    assert!(d.get_face(ID3).unwrap().is_none());
}

#[test]
fn cleanup_by_days_uses_current_time() {
    let mut d = db();
    d.store_face(record(ID1, None, &[], 0, 0.5)).unwrap();
    d.store_face(record(ID2, None, &[], i64::MAX - 1, 0.5)).unwrap();
    let gone = d.cleanup_old_faces(30).unwrap();
    assert_eq!(gone, vec![ID1.to_string()]);
    assert_eq!(gone.len(), 1);
    assert!(d.get_face(ID2).unwrap().is_some());
    assert_eq!(d.cleanup_old_faces(i64::MAX), Err(CatalogError::ValidationError));
    assert_eq!(d.cleanup_old_faces(-1), Err(CatalogError::ValidationError));
    assert!(d.get_face(ID2).unwrap().is_some());
}

#[test]
fn cleanup_at_counts_back_from_the_given_time() {
    let mut d = db();
    let now = 10 * 86400;
    d.store_face(record(ID1, None, &[], now - 3 * 86400 - 1, 0.5)).unwrap();
    d.store_face(record(ID2, None, &[], now - 3 * 86400, 0.5)).unwrap();
    d.store_face(record(ID3, None, &[], now, 0.5)).unwrap();
    let gone = d.cleanup_at(now, 3).unwrap();
    assert_eq!(gone, vec![ID1.to_string()]);
    assert_eq!(d.face_ids(), vec![ID2.to_string(), ID3.to_string()]);
    assert_eq!(d.cleanup_at(i64::MIN, 1), Err(CatalogError::ValidationError));
    assert_eq!(d.cleanup_at(0, i64::MAX / 86400 + 1), Err(CatalogError::ValidationError));
    assert_eq!(d.face_ids().len(), 2);
}

#[test]
fn negative_zero_confidence_is_zero() {
    let mut d = db();
    assert_eq!(d.store_face(record(ID1, None, &[], 0, -0.0)), Ok(()));
    let q = SearchQuery { min_confidence: Some(0.0f32.to_bits()), ..empty_query() };
    assert_eq!(d.search_faces(&q).len(), 1);
    let nan = SearchQuery { min_confidence: Some(f32::NAN.to_bits()), ..empty_query() };
    assert!(d.search_faces(&nan).is_empty());
    let above = SearchQuery { min_confidence: Some(0.1f32.to_bits()), ..empty_query() };
    assert!(d.search_faces(&above).is_empty());
}

#[test]
fn face_ids_list_rows_in_table_order() {
    let mut d = db();
    d.store_face(record(ID2, None, &[], 0, 0.5)).unwrap();
    d.store_face(record(ID1, None, &[], 0, 0.5)).unwrap();
    assert_eq!(d.face_ids(), vec![ID2.to_string(), ID1.to_string()]);
}

#[test]
fn artifact_path_is_derived_from_id() {
    let d = db();
    assert_eq!(d.artifact_path(ID1), format!("data/faces/{}.jpg", ID1));
}
