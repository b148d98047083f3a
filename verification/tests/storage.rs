use s3_message_service::error::ServiceError;
use s3_message_service::storage::b2::{
    check_absent, classify_s3_error, max_keys_for, region_from_endpoint, validate_object_key,
    B2Config, B2Env,
};
use s3_message_service::storage::localfs::LocalFileStore;
use s3_message_service::storage::{
    effective_limit, select_page, ListedObject, PutOptions, StoreCapabilities,
};
use s3_message_service::time::UtcTime;

#[test]
fn infers_region_from_b2_endpoint() {
    assert_eq!(
        region_from_endpoint("https://s3.us-west-004.backblazeb2.com").expect("region"),
        "us-west-004"
    );
}

#[test]
fn validates_object_keys() {
    assert!(validate_object_key("a/b/c.json").is_ok());
    assert!(validate_object_key("").is_err());
    assert!(validate_object_key("../x").is_err());
    assert!(validate_object_key("a\\b").is_err());
}

#[test]
fn object_keys_with_parent_names_that_are_not_segments_are_fine() {
    assert!(validate_object_key("a/..b/c").is_ok());
    assert!(validate_object_key("/a/b").is_ok());
    assert!(validate_object_key("a/../b").is_err());
    assert!(validate_object_key("///").is_err());
}

#[test]
fn region_needs_a_b2_host() {
    assert!(region_from_endpoint("https://example.com").is_err());
}

#[test]
fn b2_config_reports_the_first_missing_variable() {
    let env = B2Env::default();
    match B2Config::from_env(&env) {
        Err(ServiceError::Configuration(m)) => assert_eq!(m, "B2_BUCKET_NAME is required"),
        other => panic!("unexpected {other:?}"),
    }
    let env = B2Env {
        bucket_name: Some(" bucket ".to_string()),
        application_key_id: Some("id".to_string()),
        ..Default::default()
    };
    match B2Config::from_env(&env) {
        Err(ServiceError::Configuration(m)) => assert_eq!(m, "B2_APPLICATION_KEY is required"),
        other => panic!("unexpected {other:?}"),
    }
    let env = B2Env {
        bucket_name: Some(" bucket ".to_string()),
        application_key_id: Some("id".to_string()),
        application_key: Some("key".to_string()),
        force_path_style: Some("false".to_string()),
        region: Some("  ".to_string()),
        ..Default::default()
    };
    let config = B2Config::from_env(&env).expect("config");
    assert_eq!(config.bucket_name, "bucket");
    assert_eq!(config.region, None);
    assert!(!config.force_path_style);
}

#[test]
fn s3_errors_map_to_service_errors() {
    assert_eq!(classify_s3_error("NoSuchKey: gone".to_string()), ServiceError::ObjectNotFound);
    assert_eq!(
        check_absent(Err(ServiceError::ObjectNotFound)),
        Ok(())
    );
    assert_eq!(check_absent(Ok(())), Err(ServiceError::ObjectAlreadyExists));
    assert_eq!(max_keys_for(0), 100);
    assert_eq!(max_keys_for(5000), 1000);
}

fn listed(key: &str) -> ListedObject {
    ListedObject {
        key: key.to_string(),
        size: 1,
        modified_at: UtcTime::epoch(),
    }
}

#[test]
fn select_page_sorts_filters_and_cuts() {
    let candidates = vec![
        listed("a/b/two.json"),
        listed("a/c/x.json"),
        listed("a/b/one.json"),
        listed("a/b/three.json"),
    ];
    let page = select_page(candidates.clone(), "a/b/", "", 2);
    let keys: Vec<&str> = page.objects.iter().map(|o| o.key.as_str()).collect();
    assert_eq!(keys, vec!["a/b/one.json", "a/b/three.json"]);
    assert!(page.has_more);
    assert_eq!(page.next_after_key, "a/b/three.json");

    let next = select_page(candidates, "a/b/", "a/b/three.json", 2);
    let keys: Vec<&str> = next.objects.iter().map(|o| o.key.as_str()).collect();
    assert_eq!(keys, vec!["a/b/two.json"]);
    assert!(!next.has_more);
}

#[test]
fn defaults_of_storage_options() {
    assert_eq!(effective_limit(0), 100);
    assert_eq!(effective_limit(7), 7);
    assert!(StoreCapabilities::default().create_if_absent_atomic);
    let options = PutOptions::default();
    assert!(!options.create_only);
}

#[test]
fn local_store_paths_stay_under_the_root() {
    let store = LocalFileStore::with_root("/data").expect("store");
    assert_eq!(store.path_for_key("/a/b.json").expect("path"), "/data/a/b.json");
    assert_eq!(store.path_for_key("../x"), Err(ServiceError::InvalidObjectKey));
    assert_eq!(store.path_for_key("./x"), Err(ServiceError::InvalidObjectKey));
    assert!(LocalFileStore::with_root("").is_err());
}
