use dockerops::compose::ComposeProcessor;
use serde_yaml::Value;

fn yaml(s: &str) -> Value {
    serde_yaml::from_str(s).unwrap()
}

fn service_volumes(doc: &Value, service: &str) -> Vec<String> {
    doc["services"][service]["volumes"]
        .as_sequence()
        .unwrap()
        .iter()
        .map(|v| v.as_str().unwrap().to_string())
        .collect()
}

use dockerops::models::{NfsConfig, VolumeDefinition, VolumeType};
use dockerops::secrets::SecretProcessor;

fn defs_web() -> Vec<VolumeDefinition> {
    vec![
        VolumeDefinition {
            id: "data".to_string(),
            kind: VolumeType::Binding,
            path: "/mnt/shared/site".to_string(),
        },
        VolumeDefinition {
            id: "cache".to_string(),
            kind: VolumeType::Volume,
            path: "cachevol".to_string(),
        },
    ]
}

#[test]
fn extract_images_collects_in_document_order_with_duplicates() {
    let manifest = "services:\n  web:\n    image: nginx:1.25\n  api:\n    build: .\n    image: app:2\n  worker:\n    image: app:2\n";
    let images = ComposeProcessor::extract_images(manifest).unwrap();
    assert_eq!(images, vec!["nginx:1.25", "app:2", "app:2"]);
}

#[test]
fn extract_images_finds_nested_occurrences() {
    let manifest = "top:\n  inner:\n    - image: a:1\n    - deeper:\n        image: b:2\n";
    let images = ComposeProcessor::extract_images(manifest).unwrap();
    assert_eq!(images, vec!["a:1", "b:2"]);
}

#[test]
fn extract_images_ignores_non_string_image_values_and_empty_strings() {
    let manifest = "services:\n  a:\n    image: 5\n  b:\n    image: ''\n  c:\n    image:\n      name: x\n  d:\n    image: real:1\n";
    let images = ComposeProcessor::extract_images(manifest).unwrap();
    assert_eq!(images, vec!["real:1"]);
}

#[test]
fn extract_images_rejects_malformed_text() {
    let err = ComposeProcessor::extract_images("a: [").unwrap_err();
    assert!(matches!(err, dockerops::errors::EngineError::Parse));
}

#[test]
fn process_volumes_rewrites_matching_entries() {
    let manifest =
        "services:\n  web:\n    image: nginx:1.25\n    volumes:\n      - data:/var/www:ro\n      - cache:/tmp/cache\n      - other:/keep\n";
    let nfs = NfsConfig { path: "/mnt/shared".to_string() };
    let out = ComposeProcessor::process_volumes(manifest, &defs_web(), &nfs).unwrap();
    let doc = yaml(&out);
    let vols = service_volumes(&doc, "web");
    assert_eq!(
        vols,
        vec!["/mnt/shared/site:/var/www:ro", "cachevol:/tmp/cache", "other:/keep"]
    );
    // the named volume is declared with a local driver; the binding is not
    assert_eq!(doc["volumes"]["cache"]["driver"].as_str(), Some("local"));
    assert!(doc["volumes"].get("data").is_none());
}

#[test]
fn process_volumes_is_idempotent_on_resolved_entries() {
    let manifest = "services:\n  web:\n    volumes:\n      - data:/var/www:ro\n      - cache:/tmp/cache\n";
    let nfs = NfsConfig { path: "/mnt/shared".to_string() };
    let once = ComposeProcessor::process_volumes(manifest, &defs_web(), &nfs).unwrap();
    let twice = ComposeProcessor::process_volumes(&once, &defs_web(), &nfs).unwrap();
    assert_eq!(once, twice);
}

#[test]
fn process_volumes_rejects_non_mapping_top_level() {
    let nfs = NfsConfig { path: "/mnt/shared".to_string() };
    let err = ComposeProcessor::process_volumes("- a\n- b\n", &defs_web(), &nfs).unwrap_err();
    assert!(matches!(err, dockerops::errors::EngineError::Parse));
}

#[test]
fn process_volumes_merges_existing_volumes_section() {
    let manifest = "services:\n  web:\n    volumes:\n      - cache:/c\nvolumes:\n  preexisting:\n    driver: local\n";
    let nfs = NfsConfig { path: "/mnt/shared".to_string() };
    let out = ComposeProcessor::process_volumes(manifest, &defs_web(), &nfs).unwrap();
    let doc = yaml(&out);
    assert_eq!(doc["volumes"]["preexisting"]["driver"].as_str(), Some("local"));
    assert_eq!(doc["volumes"]["cache"]["driver"].as_str(), Some("local"));
}

#[test]
fn process_secrets_injects_mount_and_entrypoint() {
    let defs = vec![dockerops::models::SecretDefinition {
        secret: "db_password".to_string(),
        env: "DB_PASSWORD".to_string(),
    }];
    let manifest = "services:\n  web:\n    image: nginx:1.25\n    entrypoint: /docker-entrypoint.sh\n  bare:\n    image: app:1\n";
    let mount = "./entrypoint-secrets.sh:/run/entrypoint-secrets.sh:ro";
    let out = ComposeProcessor::process_secrets(manifest, &defs, mount).unwrap();
    let doc = yaml(&out);
    let web_vols = service_volumes(&doc, "web");
    assert_eq!(web_vols, vec!["./entrypoint-secrets.sh:/run/entrypoint-secrets.sh:ro"]);
    // the original entrypoint trails the wrapper
    let ep: Vec<String> = doc["services"]["web"]["entrypoint"]
        .as_sequence()
        .unwrap()
        .iter()
        .map(|v| v.as_str().unwrap().to_string())
        .collect();
    assert_eq!(ep, vec!["/run/entrypoint-secrets.sh", "/docker-entrypoint.sh"]);
    // a service without an entrypoint gains the wrapper alone
    let ep2: Vec<String> = doc["services"]["bare"]["entrypoint"]
        .as_sequence()
        .unwrap()
        .iter()
        .map(|v| v.as_str().unwrap().to_string())
        .collect();
    assert_eq!(ep2, vec!["/run/entrypoint-secrets.sh"]);
}

#[test]
fn process_secrets_without_definitions_leaves_text_unchanged() {
    let manifest = "services:\n  web:\n    image: nginx:1.25\n";
    let out = ComposeProcessor::process_secrets(manifest, &Vec::new(), "m").unwrap();
    assert_eq!(out, manifest);
}

#[test]
fn secret_processor_generates_exact_wrapper_script() {
    let secrets_yaml = "- secret: db_password\n  env: DB_PASSWORD\n- id: api_key\n  env: API_KEY\n";
    let bundle = SecretProcessor::process_secrets(Some(secrets_yaml)).unwrap().unwrap();
    let expected = "#!/bin/sh\n\
        if [ -f /run/secrets/db_password ]; then export DB_PASSWORD=\"$(cat /run/secrets/db_password)\"; else export DB_PASSWORD=\"\"; fi\n\
        if [ -f /run/secrets/api_key ]; then export API_KEY=\"$(cat /run/secrets/api_key)\"; else export API_KEY=\"\"; fi\n\
        exec \"$@\"\n";
    assert_eq!(bundle.script, expected);
    assert_eq!(bundle.definitions.len(), 2);
    assert_eq!(bundle.definitions[1].secret, "api_key");
    assert_eq!(bundle.definitions[1].env, "API_KEY");
}

#[test]
fn secret_processor_yields_nothing_for_absent_or_empty_manifest() {
    assert!(SecretProcessor::process_secrets(None).unwrap().is_none());
    assert!(SecretProcessor::process_secrets(Some("[]")).unwrap().is_none());
}

#[test]
fn secret_processor_rejects_malformed_declarations() {
    let err = SecretProcessor::process_secrets(Some("- env: ONLY_ENV\n")).unwrap_err();
    assert!(matches!(err, dockerops::errors::EngineError::Parse));
}

#[test]
fn nfs_config_is_required_and_parsed() {
    let err = SecretProcessor::load_nfs_config(None).unwrap_err();
    assert!(matches!(err, dockerops::errors::EngineError::NfsConfigMissing));
    let cfg = SecretProcessor::load_nfs_config(Some("path: /mnt/shared\n")).unwrap();
    assert_eq!(cfg.path, "/mnt/shared");
    let err = SecretProcessor::load_nfs_config(Some("path: [not, a, string]\n")).unwrap_err();
    assert!(matches!(err, dockerops::errors::EngineError::Parse));
}
