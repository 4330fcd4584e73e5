use dockerops::engine::{Action, ComposeFile, DeployDecision, StackInput, StackOutcome,
    StackProcessor, compose_file_candidates, decide_deploy, pick_first_existing};
use dockerops::models::{NfsConfig, Stack, VolumeDefinition, VolumeType};
use dockerops::secrets::SecretProcessor;
use dockerops::store::Store;
use dockerops::volumes::VolumeProcessor;

const REPO: &str = "https://github.com/acme/stacks";

fn web_input(compose_text: &str) -> StackInput {
    StackInput {
        name: "web".to_string(),
        dir_exists: true,
        compose: Some(ComposeFile {
            file_name: "docker-compose.yml".to_string(),
            text: compose_text.to_string(),
        }),
        secrets_text: None,
    }
}

fn plan_of(outcome: StackOutcome) -> dockerops::engine::StackPlan {
    match outcome {
        StackOutcome::Processed(plan) => plan,
        StackOutcome::Skipped { warning } => panic!("unexpected skip: {}", warning),
    }
}

#[test]
fn decide_deploy_follows_the_decision_table() {
    let existing = Stack::new(
        "web".to_string(),
        REPO.to_string(),
        "web/docker-compose.yml".to_string(),
        "fp1".to_string(),
    );
    // no existing record: create and deploy
    assert_eq!(decide_deploy(None, "fp1", false, false), DeployDecision::CreateAndDeploy);
    // existing, same fingerprint, not forced: no-op
    assert_eq!(decide_deploy(Some(&existing), "fp1", false, true), DeployDecision::Skip);
    // existing, same fingerprint, forced: redeploy
    assert_eq!(
        decide_deploy(Some(&existing), "fp1", true, true),
        DeployDecision::Redeploy { stop_first: true }
    );
    // existing, different fingerprint: stop-if-reconcile + redeploy
    assert_eq!(
        decide_deploy(Some(&existing), "fp2", false, true),
        DeployDecision::Redeploy { stop_first: true }
    );
    assert_eq!(
        decide_deploy(Some(&existing), "fp2", false, false),
        DeployDecision::Redeploy { stop_first: false }
    );
}

#[test]
fn end_to_end_scenario_binding_volume_and_first_deploy() {
    // source tree: stacks [web]; web/docker-compose.yml with one service,
    // image nginx:1.25 and volume data:/var/www:ro; volumes.yaml declares
    // data as a binding with path site; nfs.yaml declares /mnt/shared.
    let stacks_yaml = "- name: web\n";
    let volumes_yaml = "- id: data\n  type: binding\n  path: site\n";
    let nfs_yaml = "path: /mnt/shared\n";
    let compose = "services:\n  web:\n    image: nginx:1.25\n    volumes:\n      - data:/var/www:ro\n";

    let defs = StackProcessor::load_stack_definitions(Some(stacks_yaml)).unwrap();
    assert_eq!(defs.len(), 1);
    assert_eq!(defs[0].name, "web");

    let mut volume_defs = VolumeProcessor::load_volumes_config(Some(volumes_yaml))
        .unwrap()
        .unwrap();
    let nfs = SecretProcessor::load_nfs_config(Some(nfs_yaml)).unwrap();

    // web/site exists on disk: the binding is staged into shared storage
    let tasks = VolumeProcessor::process_volumes(&mut volume_defs, Some(&nfs), &vec![true]);
    assert_eq!(tasks.len(), 1);
    assert_eq!(tasks[0].source, "site");
    assert_eq!(tasks[0].dest, "/mnt/shared/site");
    assert_eq!(volume_defs[0].path, "/mnt/shared/site");

    let mut processor = StackProcessor::new(Store::new());
    let outcome = processor
        .process_stack(REPO, &web_input(compose), Some(&volume_defs), Some(&nfs), false, false)
        .unwrap();
    let plan = plan_of(outcome);
    assert!(plan.transformed_text.contains("/mnt/shared/site:/var/www:ro"));
    assert_eq!(plan.images, vec!["nginx:1.25"]);
    assert_eq!(plan.compose_path, "web/docker-compose.yml");
    assert!(plan.deploys);
    // a fresh stack record is created, in status stopped until the deploy succeeds
    let record = processor.store.get_stack_by_name("web", REPO).unwrap();
    assert_eq!(record.status, "stopped");
    assert_eq!(record.hash, plan.fingerprint);

    processor.finish_stack(REPO, &plan);
    let record = processor.store.get_stack_by_name("web", REPO).unwrap();
    assert_eq!(record.status, "deployed");
    // image nginx:1.25 gets reference count 1
    let image = processor.store.get_image_by_name("nginx:1.25").unwrap();
    assert_eq!(image.reference_count, 1);
}

#[test]
fn reference_counts_reflect_occurrences_and_sweep_removes_stale_images() {
    // the store still holds an image from an earlier pass
    let mut store = Store::new();
    store.create_image(&dockerops::models::Image::new("old:1".to_string(), 3));
    let mut processor = StackProcessor::new(store);

    let compose_a = "services:\n  one:\n    image: a:1\n  two:\n    image: a:1\n  three:\n    image: b:1\n";
    let inputs = vec![web_input(compose_a)];
    let plan = processor
        .process_and_deploy_stacks(REPO, true, &inputs, None, None, false, false)
        .unwrap();
    assert_eq!(plan.outcomes.len(), 1);

    assert_eq!(processor.store.get_image_by_name("a:1").unwrap().reference_count, 2);
    assert_eq!(processor.store.get_image_by_name("b:1").unwrap().reference_count, 1);
    // the pre-existing image was reset to zero and is now unreferenced
    assert_eq!(processor.store.get_image_by_name("old:1").unwrap().reference_count, 0);

    let maintenance = processor.plan_image_maintenance();
    let mut removed = Vec::new();
    let mut pulled = Vec::new();
    for action in &maintenance {
        match action {
            Action::RemoveImage { name } => removed.push(name.clone()),
            Action::PullImage { name } => pulled.push(name.clone()),
            _ => panic!("unexpected maintenance action"),
        }
    }
    assert_eq!(removed, vec!["old:1"]);
    assert_eq!(pulled, vec!["a:1", "b:1"]);

    processor.store.delete_images_with_zero_count();
    assert!(processor.store.get_image_by_name("old:1").is_none());
    assert!(processor.store.get_image_by_name("a:1").is_some());
}

#[test]
fn fingerprints_are_stable_and_change_with_the_manifest() {
    let compose = "services:\n  web:\n    image: nginx:1.25\n";
    let mut p1 = StackProcessor::new(Store::new());
    let mut p2 = StackProcessor::new(Store::new());
    let plan1 = plan_of(p1.process_stack(REPO, &web_input(compose), None, None, false, false).unwrap());
    let plan2 = plan_of(p2.process_stack(REPO, &web_input(compose), None, None, false, false).unwrap());
    assert_eq!(plan1.fingerprint, plan2.fingerprint);
    assert_eq!(plan1.transformed_text, plan2.transformed_text);

    let changed = "services:\n  web:\n    image: nginx:1.26\n";
    let mut p3 = StackProcessor::new(Store::new());
    let plan3 = plan_of(p3.process_stack(REPO, &web_input(changed), None, None, false, false).unwrap());
    assert_ne!(plan1.fingerprint, plan3.fingerprint);
}

#[test]
fn unchanged_rerun_performs_no_orchestrator_calls_but_recounts_images() {
    let compose = "services:\n  web:\n    image: nginx:1.25\n";
    let mut processor = StackProcessor::new(Store::new());
    let inputs = vec![web_input(compose)];
    let first = processor
        .process_and_deploy_stacks(REPO, true, &inputs, None, None, false, false)
        .unwrap();
    let first_plan = match &first.outcomes[0] {
        StackOutcome::Processed(p) => p,
        _ => panic!("expected a processed stack"),
    };
    assert!(first_plan.deploys);

    // second pass: reconcile, no force, no source change
    let inputs2 = vec![web_input(compose)];
    let second = processor
        .process_and_deploy_stacks(REPO, true, &inputs2, None, None, true, false)
        .unwrap();
    let second_plan = match &second.outcomes[0] {
        StackOutcome::Processed(p) => p,
        _ => panic!("expected a processed stack"),
    };
    // zero deploy/stop calls
    assert!(!second_plan.deploys);
    assert!(second_plan.actions.is_empty());
    // but the image reference counts are re-incremented
    assert_eq!(processor.store.get_image_by_name("nginx:1.25").unwrap().reference_count, 1);
    // the record keeps its deployed status
    let record = processor.store.get_stack_by_name("web", REPO).unwrap();
    assert_eq!(record.status, "deployed");
}

#[test]
fn forced_rerun_redeploys_with_a_stop_on_reconcile() {
    let compose = "services:\n  web:\n    image: nginx:1.25\n";
    let mut processor = StackProcessor::new(Store::new());
    let inputs = vec![web_input(compose)];
    processor
        .process_and_deploy_stacks(REPO, true, &inputs, None, None, false, false)
        .unwrap();
    let inputs2 = vec![web_input(compose)];
    let second = processor
        .process_and_deploy_stacks(REPO, true, &inputs2, None, None, true, true)
        .unwrap();
    let plan = match &second.outcomes[0] {
        StackOutcome::Processed(p) => p,
        _ => panic!("expected a processed stack"),
    };
    assert!(plan.deploys);
    assert!(matches!(&plan.actions[0], Action::StopStack { name } if name == "web"));
    assert!(matches!(&plan.actions[1], Action::PullImage { name } if name == "nginx:1.25"));
    assert!(
        matches!(&plan.actions[2], Action::DeployStack { name, compose_path }
            if name == "web" && compose_path == "web/docker-compose.yml")
    );
    assert_eq!(plan.actions.len(), 3);
}

#[test]
fn missing_stack_directory_is_skipped_with_a_warning() {
    let mut processor = StackProcessor::new(Store::new());
    let input = StackInput {
        name: "ghost".to_string(),
        dir_exists: false,
        compose: None,
        secrets_text: None,
    };
    let outcome = processor.process_stack(REPO, &input, None, None, false, false).unwrap();
    match outcome {
        StackOutcome::Skipped { warning } => {
            assert_eq!(warning, "Warning: Stack directory 'ghost' not found");
        },
        _ => panic!("expected a skip"),
    }
    assert!(processor.store.get_stack_by_name("ghost", REPO).is_none());
}

#[test]
fn missing_compose_file_fails_that_stack() {
    let mut processor = StackProcessor::new(Store::new());
    let input = StackInput {
        name: "web".to_string(),
        dir_exists: true,
        compose: None,
        secrets_text: None,
    };
    let err = processor.process_stack(REPO, &input, None, None, false, false).unwrap_err();
    match err {
        dockerops::errors::EngineError::ComposeFileMissing { stack } => assert_eq!(stack, "web"),
        _ => panic!("expected a missing compose file error"),
    }
    assert_eq!(
        dockerops::errors::EngineError::ComposeFileMissing { stack: "web".to_string() }
            .describe(),
        "no compose manifest found in stack directory: web"
    );
}

#[test]
fn missing_stacks_manifest_fails_the_pass_after_the_reset() {
    let mut store = Store::new();
    store.create_image(&dockerops::models::Image::new("a:1".to_string(), 2));
    let mut processor = StackProcessor::new(store);
    let err = StackProcessor::load_stack_definitions(None).unwrap_err();
    assert!(matches!(err, dockerops::errors::EngineError::StacksManifestMissing));
    let err = processor
        .process_and_deploy_stacks(REPO, false, &Vec::new(), None, None, false, false)
        .unwrap_err();
    assert!(matches!(err, dockerops::errors::EngineError::StacksManifestMissing));
    // the reset precedes the check: the counts are already zero
    assert_eq!(processor.store.get_image_by_name("a:1").unwrap().reference_count, 0);
}

#[test]
fn malformed_stack_list_is_a_parse_failure() {
    let err = StackProcessor::load_stack_definitions(Some("- nameless: x\n")).unwrap_err();
    assert!(matches!(err, dockerops::errors::EngineError::Parse));
}

#[test]
fn compose_file_candidates_are_tried_in_conventional_order() {
    let names = compose_file_candidates();
    assert_eq!(
        names,
        vec!["docker-compose.yml", "docker-compose.yaml", "compose.yml", "compose.yaml"]
    );
    assert_eq!(pick_first_existing(&vec![false, true, true, false]), Some(1));
    assert_eq!(pick_first_existing(&vec![false, false, false, false]), None);
}

#[test]
fn volume_definitions_load_and_materialize_only_existing_bindings() {
    assert!(VolumeProcessor::load_volumes_config(None).unwrap().is_none());
    let text = "- id: data\n  type: binding\n  path: site\n- id: cache\n  type: volume\n  path: cachevol\n- id: gone\n  type: binding\n  path: missing\n";
    let mut defs = VolumeProcessor::load_volumes_config(Some(text)).unwrap().unwrap();
    assert_eq!(defs.len(), 3);
    assert_eq!(defs[1].kind, VolumeType::Volume);
    let nfs = NfsConfig { path: "/mnt/shared".to_string() };
    let tasks = VolumeProcessor::process_volumes(&mut defs, Some(&nfs), &vec![true, true, false]);
    // only the existing binding is staged; the named volume and the
    // absent source are untouched
    assert_eq!(tasks.len(), 1);
    assert_eq!(tasks[0].dest, "/mnt/shared/site");
    assert_eq!(defs[0].path, "/mnt/shared/site");
    assert_eq!(defs[1].path, "cachevol");
    assert_eq!(defs[2].path, "missing");

    let err = VolumeProcessor::load_volumes_config(Some("- id: x\n  type: weird\n  path: p\n"))
        .unwrap_err();
    assert!(matches!(err, dockerops::errors::EngineError::Parse));
}

#[test]
fn repository_cache_round_trip() {
    let mut store = Store::new();
    assert!(store.get_repository_from_cache(REPO).is_none());
    store.add_repository_to_cache(REPO, "2024-01-01T00:00:00Z");
    let cached = store.get_repository_from_cache(REPO).unwrap();
    assert_eq!(cached.url, REPO);
    assert_eq!(cached.last_watch, "2024-01-01T00:00:00Z");
    let all = store.get_all_repositories();
    assert_eq!(all.len(), 1);
    store.clear_repository_cache();
    assert!(store.get_repository_from_cache(REPO).is_none());
}

#[test]
fn teardown_clears_stacks_and_zeroed_images() {
    let mut store = Store::new();
    store.create_stack(&Stack::new(
        "web".to_string(),
        REPO.to_string(),
        "web/docker-compose.yml".to_string(),
        "fp".to_string(),
    ));
    store.create_image(&dockerops::models::Image::new("a:1".to_string(), 2));
    store.delete_all_stacks();
    assert!(store.get_all_stacks().is_empty());
    store.reset_image_reference_counts();
    store.delete_images_with_zero_count();
    assert!(store.get_all_images().is_empty());
}

#[test]
fn updating_an_absent_record_changes_nothing() {
    let mut store = Store::new();
    store.update_stack_hash("ghost", REPO, "fp");
    store.update_stack_status("ghost", REPO, "deployed");
    store.update_image_reference_count("ghost:1", 5);
    assert!(store.get_all_stacks().is_empty());
    assert!(store.get_all_images().is_empty());
}

#[test]
fn fresh_records_carry_their_fields() {
    let image = dockerops::models::Image::new("a:1".to_string(), 4);
    assert_eq!(image.id, 0);
    assert_eq!(image.name, "a:1");
    assert_eq!(image.reference_count, 4);
    let stack = Stack::new(
        "web".to_string(),
        REPO.to_string(),
        "web/docker-compose.yml".to_string(),
        "fp".to_string(),
    );
    assert_eq!(stack.id, 0);
    assert_eq!(stack.status, "stopped");
    assert_eq!(stack.hash, "fp");
}
