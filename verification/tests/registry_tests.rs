use jepa::api::{clearing_scope, listing_scope, RegistryScope};
use jepa::registry::{GestureStore, ImportItem, ImportReport, StoredGesture, BUNDLE_VERSION};
use jepa::types::JepaError;

fn item(name: &str, model: &str, payload: u32) -> ImportItem<u32> {
    ImportItem {
        name: name.to_string(),
        model_name: model.to_string(),
        dimension: 3,
        prototype_len: 3,
        sample_lens: vec![3, 3],
        created_at: 1,
        payload,
    }
}

fn store() -> GestureStore<u32> {
    let mut s = GestureStore::new();
    s.insert("wave".to_string(), StoredGesture { model_name: "m1".to_string(), created_at: 0, payload: 1 });
    s.insert("fist".to_string(), StoredGesture { model_name: "m1".to_string(), created_at: 0, payload: 2 });
    s.insert("rest".to_string(), StoredGesture { model_name: "m2".to_string(), created_at: 0, payload: 3 });
    s
}

#[test]
fn import_merges_or_replaces_by_model() {
    let mut s = store();
    let report = s.import(vec![item("wave", "m1", 10), item("peace", "m1", 11)], BUNDLE_VERSION, false).unwrap();
    assert_eq!(report.imported, 2);
    assert_eq!(report.removed, 0);
    assert_eq!(report.models, vec!["m1".to_string()]);
    assert_eq!(s.len(), 4);
    assert_eq!(s.get("wave").unwrap().payload, 10);
    assert_eq!(s.get("fist").unwrap().payload, 2);

    let mut s = store();
    let report = s.import(vec![item("peace", "m1", 11), item("ok", "m3", 12)], BUNDLE_VERSION, true).unwrap();
    assert_eq!(report.removed, 2);
    assert_eq!(report.models, vec!["m1".to_string(), "m3".to_string()]);
    assert!(s.get("wave").is_none());
    assert!(s.get("fist").is_none());
    assert_eq!(s.get("rest").unwrap().payload, 3);
    assert_eq!(s.len(), 3);
}

#[test]
fn later_gestures_of_the_same_name_win() {
    let mut s: GestureStore<u32> = GestureStore::new();
    s.import(vec![item("a", "m", 1), item("a", "m", 2)], BUNDLE_VERSION, false).unwrap();
    assert_eq!(s.get("a").unwrap().payload, 2);
}

#[test]
fn bad_bundles_change_nothing() {
    let mut s = store();
    assert!(matches!(s.import(vec![item("x", "m", 1)], 2, false), Err(JepaError::InvalidPayload(m)) if m.contains("version 2")));
    assert!(s.import(vec![item(" ", "m", 1)], BUNDLE_VERSION, true).is_err());
    let mut bad = item("x", "m1", 1);
    bad.sample_lens = vec![3, 4];
    assert!(matches!(s.import(vec![bad], BUNDLE_VERSION, true), Err(JepaError::InvalidPayload(m)) if m.contains("inconsistent")));
    assert_eq!(s.len(), 3);
    assert_eq!(s.remove("wave").unwrap().payload, 1);
    assert!(s.remove("wave").is_none());
}

fn timed_store() -> GestureStore<u32> {
    let mut s = GestureStore::new();
    s.insert("wave".to_string(), StoredGesture { model_name: "m1".to_string(), created_at: 30, payload: 1 });
    s.insert("fist".to_string(), StoredGesture { model_name: "m1".to_string(), created_at: 10, payload: 2 });
    s.insert("rest".to_string(), StoredGesture { model_name: "m2".to_string(), created_at: 20, payload: 3 });
    s.insert("ok".to_string(), StoredGesture { model_name: "m1".to_string(), created_at: 10, payload: 4 });
    s
}

#[test]
fn for_model_lists_by_creation_time() {
    let s = timed_store();
    let names: Vec<&str> = s.for_model("m1").iter().map(|(n, _)| n.as_str()).collect();
    // Equal creation times keep name order.
    assert_eq!(names, vec!["fist", "ok", "wave"]);
    assert!(s.for_model("none").is_empty());
}

#[test]
fn export_takes_one_model_or_all() {
    let s = timed_store();
    let all = s.export(None, 99);
    assert_eq!(all.version, BUNDLE_VERSION);
    assert_eq!(all.exported_at, 99);
    let names: Vec<&str> = all.gestures.iter().map(|(n, _)| n.as_str()).collect();
    assert_eq!(names, vec!["fist", "ok", "rest", "wave"]);
    let m2 = s.export(Some("m2"), 5);
    assert_eq!(m2.gestures.len(), 1);
    assert_eq!(m2.gestures[0].1.payload, 3);
}

#[test]
fn get_mut_or_insert_keeps_same_model_and_restarts_other() {
    let mut s = timed_store();
    {
        let g = s.get_mut_or_insert("wave", "m1", 50, 0);
        assert_eq!((g.created_at, g.payload), (30, 1));
        g.payload = 7;
    }
    assert_eq!(s.get("wave").unwrap().payload, 7);
    {
        // Re-registering under another model starts afresh.
        let g = s.get_mut_or_insert("wave", "m2", 60, 0);
        assert_eq!((g.model_name.as_str(), g.created_at, g.payload), ("m2", 60, 0));
    }
    {
        let g = s.get_mut_or_insert("new", "m1", 70, 9);
        assert_eq!((g.created_at, g.payload), (70, 9));
    }
    assert_eq!(s.len(), 5);
    assert_eq!(s.get("new").unwrap().model_name, "m1");
}

/// What a registered gesture carries besides its model and creation time.
#[derive(Clone, Debug, PartialEq)]
struct Proto {
    is_neutral: bool,
    samples: Vec<Vec<f32>>,
}

fn add_sample(g: &mut StoredGesture<Proto>, sample: &[f32]) {
    g.payload.samples.push(sample.to_vec());
}

fn bundle_items(gestures: &[(&String, &StoredGesture<Proto>)]) -> Vec<ImportItem<Proto>> {
    gestures
        .iter()
        .map(|(name, g)| {
            let dimension = g.payload.samples[0].len();
            ImportItem {
                name: name.to_string(),
                model_name: g.model_name.clone(),
                dimension,
                prototype_len: dimension,
                sample_lens: g.payload.samples.iter().map(|s| s.len()).collect(),
                created_at: g.created_at,
                payload: g.payload.clone(),
            }
        })
        .collect()
}

#[test]
fn bundle_export_import_roundtrip_and_replace() {
    let fresh = || Proto { is_neutral: false, samples: Vec::new() };
    let mut a: GestureStore<Proto> = GestureStore::new();
    add_sample(a.get_mut_or_insert("open", "m1", 1, fresh()), &[1.0, 0.0]);
    add_sample(a.get_mut_or_insert("fist", "m1", 2, fresh()), &[0.0, 1.0]);
    add_sample(a.get_mut_or_insert("other", "m2", 3, fresh()), &[1.0]);

    let bundle = a.export(Some("m1"), 99);
    assert_eq!(bundle.version, BUNDLE_VERSION);
    assert_eq!(bundle.gestures.len(), 2);
    let items = bundle_items(&bundle.gestures);

    let mut b: GestureStore<Proto> = GestureStore::new();
    add_sample(b.get_mut_or_insert("stale", "m1", 0, fresh()), &[0.5, 0.5]);
    let report = b.import(items.clone(), bundle.version, true).unwrap();
    assert_eq!(report, ImportReport { imported: 2, removed: 1, models: vec!["m1".into()] });
    assert_eq!(b.for_model("m1").len(), 2);

    // Bad version and inconsistent dimensions are rejected.
    assert!(b.import(items.clone(), 42, false).is_err());
    let mut bad = items.clone();
    bad[0].dimension = 7;
    assert!(b.import(bad, bundle.version, false).is_err());
}

#[test]
fn listing_groups_by_model_then_creation() {
    let s = timed_store();
    let listed: Vec<(&str, &str)> =
        s.listing_by_model().iter().map(|(n, g)| (g.model_name.as_str(), n.as_str())).collect();
    assert_eq!(listed, vec![("m1", "fist"), ("m1", "ok"), ("m1", "wave"), ("m2", "rest")]);
}

#[test]
fn remove_model_drops_only_that_model() {
    let mut s = timed_store();
    assert_eq!(s.remove_model("m1"), 3);
    assert_eq!(s.len(), 1);
    assert!(s.get("rest").is_some());
    assert_eq!(s.remove_model("m1"), 0);
}

#[test]
fn clearing_follows_the_scope_of_the_request() {
    let m = || Some("m1".to_string());
    let a = || Some("active".to_string());
    assert_eq!(listing_scope(true, m(), a()), RegistryScope::Every);
    assert_eq!(listing_scope(false, m(), a()), RegistryScope::OfModel("m1".to_string()));
    assert_eq!(listing_scope(false, None, a()), RegistryScope::OfModel("active".to_string()));
    assert_eq!(listing_scope(false, None, None), RegistryScope::Nothing);
    assert_eq!(clearing_scope(true, None, None), RegistryScope::Every);
    assert_eq!(clearing_scope(false, None, a()), RegistryScope::OfModel("active".to_string()));
    // Nothing named and no active model: a clearing removes everything.
    assert_eq!(clearing_scope(false, None, None), RegistryScope::Every);

    let mut s = store();
    assert_eq!(s.remove_model("m1"), 2);
    assert_eq!(s.len(), 1);
    let mut s = store();
    assert_eq!(s.clear(), 3);
    assert_eq!(s.len(), 0);
    assert!(s.get("rest").is_none());
}
