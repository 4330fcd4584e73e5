//! The reconciliation engine: per source tree, it transforms each
//! declared stack's manifest, diffs the fingerprint against the persisted
//! stack record, decides create / redeploy / skip, updates the store, and
//! plans the orchestrator actions (stop, pull, deploy, remove) that the
//! caller performs in order. Everything the engine decides is a function
//! of its inputs and the store; all I/O stays with the caller.

use vstd::prelude::*;
use crate::compose::ComposeProcessor;
use crate::compose::{images_of, transform_volumes_doc, inject_secrets_doc};
use crate::errors::EngineError;
use crate::fingerprint::{md5_hex, md5_hex_of};
use crate::manifests::{decode_stack_defs, decode_stack_definitions, decode_secret_defs};
use crate::models::{Image, ImageV, NfsConfig, SecretDefinitionV, Stack, StackDefinition, StackV,
    VolumeDefinition, VolumeDefinitionV};
use crate::secrets::{secret_script, SecretProcessor, secret_entrypoint_volume};
use crate::store::{find_image_index, find_stack, find_stack_index, Store};
use crate::yaml::{parse_yaml, yaml_doc_of, yaml_text_of};

verus! {

// ---------------------------------------------------------------------
// Actions and inputs
// ---------------------------------------------------------------------
/// One orchestrator operation the caller must perform.
#[derive(Debug)]
pub enum Action {
    /// Stop (remove) a deployed stack.
    StopStack { name: String },
    /// Pull an image according to the configured policy.
    PullImage { name: String },
    /// Deploy a stack from its manifest (path relative to the source
    /// tree).
    DeployStack { name: String, compose_path: String },
    /// Remove an unreferenced image.
    RemoveImage { name: String },
}

/// The mathematical shape of an [`Action`].
pub enum ActionV {
    StopStack { name: Seq<char> },
    PullImage { name: Seq<char> },
    DeployStack { name: Seq<char>, compose_path: Seq<char> },
    RemoveImage { name: Seq<char> },
}

impl View for Action {
    type V = ActionV;

    open spec fn view(&self) -> ActionV {
        match self {
            Action::StopStack { name } => ActionV::StopStack { name: name@ },
            Action::PullImage { name } => ActionV::PullImage { name: name@ },
            Action::DeployStack { name, compose_path } => ActionV::DeployStack {
                name: name@,
                compose_path: compose_path@,
            },
            Action::RemoveImage { name } => ActionV::RemoveImage { name: name@ },
        }
    }
}

impl DeepView for Action {
    type V = ActionV;

    open spec fn deep_view(&self) -> ActionV {
        self.view()
    }
}

/// A located manifest file: its conventional file name and its content.
#[derive(Debug)]
pub struct ComposeFile {
    pub file_name: String,
    pub text: String,
}

/// What the caller gathered for one declared stack, in declaration
/// order: whether its directory exists, the manifest file found (if
/// any), and the stack's secret manifest (if any).
#[derive(Debug)]
pub struct StackInput {
    /// The declared stack name.
    pub name: String,
    /// Whether the stack's subdirectory exists in the source tree.
    pub dir_exists: bool,
    /// The first manifest file found among the conventional names.
    pub compose: Option<ComposeFile>,
    /// The content of the stack's secret-declaration manifest.
    pub secrets_text: Option<String>,
}

/// The worked-out plan for one processed stack.
#[derive(Debug)]
pub struct StackPlan {
    /// The stack's name.
    pub name: String,
    /// The manifest path relative to the source tree; the transformed
    /// text must be written back there before the actions run.
    pub compose_path: String,
    /// The fully transformed manifest text.
    pub transformed_text: String,
    /// The content fingerprint of the transformed text.
    pub fingerprint: String,
    /// The secret wrapper script to write into the stack directory, when
    /// secrets are declared.
    pub wrapper_script: Option<String>,
    /// The image references of the transformed manifest, in document
    /// order.
    pub images: Vec<String>,
    /// The orchestrator actions to perform, in order.
    pub actions: Vec<Action>,
    /// Whether the plan deploys the stack (its status becomes
    /// `deployed` once the caller reports success).
    pub deploys: bool,
}

/// One declared stack's outcome: skipped with a warning, or processed
/// with a plan.
#[derive(Debug)]
pub enum StackOutcome {
    /// The stack's directory is missing; processing continued with the
    /// next stack.
    Skipped { warning: String },
    /// The stack was transformed and planned.
    Processed(StackPlan),
}

/// The whole pass over one source tree's declared stacks.
#[derive(Debug)]
pub struct ReconcilePlan {
    /// One outcome per declared stack, in declaration order.
    pub outcomes: Vec<StackOutcome>,
}

/// What the fingerprint diff decides for one stack.
#[derive(PartialEq, Eq, Structural, Clone, Copy, Debug)]
pub enum DeployDecision {
    /// No record exists: create one and deploy.
    CreateAndDeploy,
    /// A record exists and the fingerprint changed, or the run is
    /// forced: redeploy, stopping the running stack first on a
    /// reconcile pass.
    Redeploy { stop_first: bool },
    /// A record exists, the fingerprint is unchanged and the run is not
    /// forced: leave everything as it is.
    Skip,
}

/// The deploy decision table: no record means create and deploy; a
/// changed fingerprint or a forced run means redeploy, stopping first on
/// a reconcile pass; an unchanged fingerprint on an unforced run means no
/// work.
pub open spec fn spec_decide(
    existing: Option<StackV>,
    fingerprint: Seq<char>,
    force: bool,
    is_reconcile: bool,
) -> DeployDecision {
    match existing {
        Option::Some(s) => if s.hash != fingerprint || force {
            DeployDecision::Redeploy { stop_first: is_reconcile }
        } else {
            DeployDecision::Skip
        },
        Option::None => DeployDecision::CreateAndDeploy,
    }
}

// ---------------------------------------------------------------------
// The transformation pipeline, as one spec function
// ---------------------------------------------------------------------
/// The volume stage over manifest text.
pub open spec fn volumes_stage(t: Seq<char>, defs: Seq<VolumeDefinitionV>, root: Seq<char>) -> Option<
    Seq<char>,
> {
    match yaml_doc_of(t) {
        Option::Some(d) => match transform_volumes_doc(d, defs, root) {
            Option::Some(d2) => yaml_text_of(d2),
            Option::None => Option::None,
        },
        Option::None => Option::None,
    }
}

/// The secret-injection stage over manifest text.
pub open spec fn secrets_stage(t: Seq<char>, mount: Seq<char>) -> Option<Seq<char>> {
    match yaml_doc_of(t) {
        Option::Some(d) => match inject_secrets_doc(d, mount) {
            Option::Some(d2) => yaml_text_of(d2),
            Option::None => Option::None,
        },
        Option::None => Option::None,
    }
}

/// The secret declarations a stack's manifest yields: the outer `None`
/// is a malformed manifest; the inner `None` means no injection (no
/// manifest, or one declaring nothing).
pub open spec fn secrets_defs_of(secrets_text: Option<Seq<char>>) -> Option<
    Option<Seq<SecretDefinitionV>>,
> {
    match secrets_text {
        Option::None => Option::Some(Option::None),
        Option::Some(t) => match yaml_doc_of(t) {
            Option::Some(d) => match decode_secret_defs(d) {
                Option::Some(defs) => if defs.len() == 0 {
                    Option::Some(Option::None)
                } else {
                    Option::Some(Option::Some(defs))
                },
                Option::None => Option::None,
            },
            Option::None => Option::None,
        },
    }
}

/// The whole per-stack transformation: the volume stage when volume
/// definitions and a shared-storage root are configured, then the
/// secret stage when the stack declares secrets. `None` when any stage
/// fails.
pub open spec fn stack_transform(
    t0: Seq<char>,
    vols: Option<(Seq<VolumeDefinitionV>, Seq<char>)>,
    secrets_text: Option<Seq<char>>,
) -> Option<(Seq<char>, Option<Seq<SecretDefinitionV>>)> {
    let t1 = match vols {
        Option::Some(vr) => volumes_stage(t0, vr.0, vr.1),
        Option::None => Option::Some(t0),
    };
    match t1 {
        Option::Some(t1v) => match secrets_defs_of(secrets_text) {
            Option::Some(Option::None) => Option::Some((t1v, Option::None)),
            Option::Some(Option::Some(defs)) => match secrets_stage(
                t1v,
                "./entrypoint-secrets.sh:/run/entrypoint-secrets.sh:ro"@,
            ) {
                Option::Some(t2) => Option::Some((t2, Option::Some(defs))),
                Option::None => Option::None,
            },
            Option::None => Option::None,
        },
        Option::None => Option::None,
    }
}

/// The view of the optional volume configuration handed to the engine.
pub open spec fn vols_view(
    volumes: Option<&Vec<VolumeDefinition>>,
    nfs: Option<&NfsConfig>,
) -> Option<(Seq<VolumeDefinitionV>, Seq<char>)> {
    match (volumes, nfs) {
        (Option::Some(defs), Option::Some(c)) => Option::Some((defs.deep_view(), c@)),
        _ => Option::None,
    }
}

/// The view of an optional text.
pub open spec fn text_view(t: Option<String>) -> Option<Seq<char>> {
    match t {
        Option::Some(s) => Option::Some(s@),
        Option::None => Option::None,
    }
}

/// One pull action per image, in document order.
pub open spec fn pull_actions(images: Seq<Seq<char>>, i: int) -> Seq<ActionV>
    decreases images.len() - i,
{
    if 0 <= i < images.len() {
        seq![ActionV::PullImage { name: images[i] }] + pull_actions(images, i + 1)
    } else {
        Seq::empty()
    }
}

/// The orchestrator actions a decision induces: a stop first on a
/// forced or changed redeploy during reconciliation, then one pull per
/// image and the deploy itself; a skip does nothing.
pub open spec fn decision_actions(
    d: DeployDecision,
    name: Seq<char>,
    compose_path: Seq<char>,
    images: Seq<Seq<char>>,
) -> Seq<ActionV> {
    match d {
        DeployDecision::CreateAndDeploy => pull_actions(images, 0) + seq![
            ActionV::DeployStack { name: name, compose_path: compose_path },
        ],
        DeployDecision::Redeploy { stop_first } => (if stop_first {
            seq![ActionV::StopStack { name: name }]
        } else {
            Seq::empty()
        }) + pull_actions(images, 0) + seq![
            ActionV::DeployStack { name: name, compose_path: compose_path },
        ],
        DeployDecision::Skip => Seq::empty(),
    }
}

/// One image record's count bumped by an occurrence: an existing record
/// is incremented (saturating at the type's maximum), a missing one is
/// created with count 1.
pub open spec fn inc_image(s: Seq<ImageV>, name: Seq<char>) -> Seq<ImageV> {
    let k = find_image_index(s, name);
    if 0 <= k < s.len() {
        let c = s[k].reference_count;
        s.update(
            k,
            ImageV {
                id: s[k].id,
                name: s[k].name,
                reference_count: if c < i32::MAX as int {
                    c + 1
                } else {
                    c
                },
            },
        )
    } else {
        s.push(ImageV { id: 0, name: name, reference_count: 1 })
    }
}

/// The image records after counting every occurrence in
/// `images[i..]`, in order.
pub open spec fn inc_all(s: Seq<ImageV>, images: Seq<Seq<char>>, i: int) -> Seq<ImageV>
    decreases images.len() - i,
{
    if 0 <= i < images.len() {
        inc_all(inc_image(s, images[i]), images, i + 1)
    } else {
        s
    }
}

/// The maintenance action for the image records `s[i..]`: an
/// unreferenced image is removed, every other one is pulled according
/// to the configured policy.
pub open spec fn maintenance_actions(s: Seq<ImageV>, i: int) -> Seq<ActionV>
    decreases s.len() - i,
{
    if 0 <= i < s.len() {
        (if s[i].reference_count == 0 {
            seq![ActionV::RemoveImage { name: s[i].name }]
        } else {
            seq![ActionV::PullImage { name: s[i].name }]
        }) + maintenance_actions(s, i + 1)
    } else {
        Seq::empty()
    }
}

/// The image records with every count reset to zero: the state a
/// reconciliation scope opens with.
pub open spec fn zeroed_counts(s: Seq<ImageV>) -> Seq<ImageV> {
    Seq::new(s.len(), |i: int| ImageV { id: s[i].id, name: s[i].name, reference_count: 0 })
}

/// The image records after counting, in order, every occurrence of every
/// processed outcome in `outcomes[i..]`; skipped stacks count nothing.
pub open spec fn inc_outcomes(s: Seq<ImageV>, outcomes: Seq<StackOutcome>, i: int) -> Seq<ImageV>
    decreases outcomes.len() - i,
{
    if 0 <= i < outcomes.len() {
        let next = match outcomes[i] {
            StackOutcome::Processed(p) => inc_all(s, p.images.deep_view(), 0),
            StackOutcome::Skipped { .. } => s,
        };
        inc_outcomes(next, outcomes, i + 1)
    } else {
        s
    }
}

// Counting one more outcome extends the fold at its end.
proof fn lemma_inc_outcomes_push(s: Seq<ImageV>, os: Seq<StackOutcome>, o: StackOutcome, i: int)
    requires
        0 <= i <= os.len(),
    ensures
        inc_outcomes(s, os.push(o), i) == (match o {
            StackOutcome::Processed(p) => inc_all(inc_outcomes(s, os, i), p.images.deep_view(), 0),
            StackOutcome::Skipped { .. } => inc_outcomes(s, os, i),
        }),
    decreases os.len() - i,
{
    if i < os.len() {
        assert(os.push(o)[i] == os[i]);
        let next = match os[i] {
            StackOutcome::Processed(p) => inc_all(s, p.images.deep_view(), 0),
            StackOutcome::Skipped { .. } => s,
        };
        assert(inc_outcomes(s, os.push(o), i) == inc_outcomes(next, os.push(o), i + 1));
        assert(inc_outcomes(s, os, i) == inc_outcomes(next, os, i + 1));
        lemma_inc_outcomes_push(next, os, o, i + 1);
    } else {
        assert(os.push(o)[i] == o);
        let next = match o {
            StackOutcome::Processed(p) => inc_all(s, p.images.deep_view(), 0),
            StackOutcome::Skipped { .. } => s,
        };
        assert(inc_outcomes(next, os.push(o), i + 1) == next);
        assert(inc_outcomes(s, os.push(o), i) == next);
        assert(inc_outcomes(s, os, i) == s);
    }
}

// ---------------------------------------------------------------------
// The engine
// ---------------------------------------------------------------------
/// The conventional manifest file names, tried in this order inside a
/// stack's directory.
pub fn compose_file_candidates() -> (r: Vec<String>)
    ensures
        r.deep_view() =~= seq![
            "docker-compose.yml"@,
            "docker-compose.yaml"@,
            "compose.yml"@,
            "compose.yaml"@,
        ],
{
    let mut v: Vec<String> = Vec::new();
    v.push("docker-compose.yml".to_owned());
    v.push("docker-compose.yaml".to_owned());
    v.push("compose.yml".to_owned());
    v.push("compose.yaml".to_owned());
    v
}

/// The index of the first candidate that exists, in candidate order.
pub fn pick_first_existing(exists: &Vec<bool>) -> (r: Option<usize>)
    ensures
        match r {
            Some(k) => k < exists.len() && exists@[k as int] && forall|j: int|
                0 <= j < k ==> !exists@[j],
            None => forall|j: int| 0 <= j < exists.len() ==> !exists@[j],
        },
{
    let n = exists.len();
    let mut i: usize = 0;
    while i < n
        invariant
            0 <= i <= n,
            n == exists.len(),
            forall|j: int| 0 <= j < i ==> !exists@[j],
        decreases n - i,
    {
        if exists[i] {
            return Some(i);
        }
        i += 1;
    }
    None
}

/// Decides what the fingerprint diff requires for one stack: no record
/// means create and deploy; a changed fingerprint or a forced run means
/// redeploy (stopping first on a reconcile pass); an unchanged
/// fingerprint on an unforced run means no work at all.
pub fn decide_deploy(
    existing: Option<&Stack>,
    fingerprint: &str,
    force: bool,
    is_reconcile: bool,
) -> (d: DeployDecision)
    ensures
        d == spec_decide(
            match existing {
                Some(s) => Option::Some(s@),
                None => Option::None,
            },
            fingerprint@,
            force,
            is_reconcile,
        ),
        existing is None ==> d == DeployDecision::CreateAndDeploy,
        (existing matches Some(s) && (s@.hash != fingerprint@ || force)) ==> d == (
        DeployDecision::Redeploy { stop_first: is_reconcile }),
        (existing matches Some(s) && s@.hash == fingerprint@ && !force) ==> d
            == DeployDecision::Skip,
{
    match existing {
        None => DeployDecision::CreateAndDeploy,
        Some(s) => {
            let changed = !crate::strings::str_eq(s.hash.as_str(), fingerprint);
            if changed || force {
                DeployDecision::Redeploy { stop_first: is_reconcile }
            } else {
                DeployDecision::Skip
            }
        },
    }
}

/// The stack processor: it owns the store for the duration of a run and
/// turns declared stacks into plans.
pub struct StackProcessor {
    /// The persisted records the engine reconciles against.
    pub store: Store,
}

impl StackProcessor {
    /// A processor over the given store.
    pub fn new(store: Store) -> (r: Self)
        ensures
            r.store == store,
    {
        StackProcessor { store }
    }

    /// Loads the stack-declaration list. A source tree without one
    /// cannot be reconciled at all.
    pub fn load_stack_definitions(stacks_text: Option<&str>) -> (r: Result<
        Vec<StackDefinition>,
        EngineError,
    >)
        ensures
            match r {
                Ok(defs) => stacks_text is Some && yaml_doc_of(stacks_text->Some_0@) is Some
                    && decode_stack_defs(yaml_doc_of(stacks_text->Some_0@)->Some_0)
                    == Option::Some(defs.deep_view()),
                Err(e) => match e {
                    EngineError::StacksManifestMissing => stacks_text is None,
                    EngineError::Parse => stacks_text is Some && (yaml_doc_of(
                        stacks_text->Some_0@,
                    ) is None || decode_stack_defs(yaml_doc_of(stacks_text->Some_0@)->Some_0) is None),
                    _ => false,
                },
            },
    {
        let text = match stacks_text {
            Some(t) => t,
            None => {
                return Err(EngineError::StacksManifestMissing);
            },
        };
        let doc = match parse_yaml(text) {
            Ok(d) => d,
            Err(e) => {
                return Err(e);
            },
        };
        match decode_stack_definitions(&doc) {
            Some(defs) => Ok(defs),
            None => Err(EngineError::Parse),
        }
    }

    /// Opens a reconciliation scope over this source tree: resets every
    /// image reference count, then fails if the tree declares no stack
    /// list (the counts stay reset, as the reset precedes the check).
    pub fn begin_pass(&mut self, has_stacks_manifest: bool) -> (r: Result<(), EngineError>)
        requires
            old(self).store.wf(),
        ensures
            final(self).store.wf(),
            final(self).store.images_view().len() == old(self).store.images_view().len(),
            forall|i: int|
                0 <= i < old(self).store.images_view().len()
                    ==> #[trigger] final(self).store.images_view()[i] == (ImageV {
                    id: old(self).store.images_view()[i].id,
                    name: old(self).store.images_view()[i].name,
                    reference_count: 0,
                }),
            final(self).store.stacks_view() == old(self).store.stacks_view(),
            final(self).store.repos_view() == old(self).store.repos_view(),
            r is Ok <==> has_stacks_manifest,
            r is Err ==> r->Err_0 is StacksManifestMissing,
    {
        self.store.reset_image_reference_counts();
        if !has_stacks_manifest {
            return Err(EngineError::StacksManifestMissing);
        }
        Ok(())
    }

    /// Counts one image occurrence.
    pub fn update_image_reference(&mut self, image_name: &str)
        requires
            old(self).store.wf(),
        ensures
            final(self).store.wf(),
            final(self).store.images_view() == inc_image(old(self).store.images_view(), image_name@),
            final(self).store.stacks_view() == old(self).store.stacks_view(),
            final(self).store.repos_view() == old(self).store.repos_view(),
    {
        match self.store.get_image_by_name(image_name) {
            Some(existing) => {
                if existing.reference_count < i32::MAX {
                    self.store.update_image_reference_count(
                        image_name,
                        existing.reference_count + 1,
                    );
                } else {
                    proof {
                        assert(self.store.images_view() =~= inc_image(
                            old(self).store.images_view(),
                            image_name@,
                        ));
                    }
                }
            },
            None => {
                let fresh = Image::new(image_name.to_owned(), 1);
                self.store.create_image(&fresh);
                proof {
                    assert(self.store.images_view() =~= inc_image(
                        old(self).store.images_view(),
                        image_name@,
                    ));
                }
            },
        }
    }

    /// Counts every image occurrence of a processed manifest, in
    /// document order. This runs for every processed stack, deployed or
    /// not.
    #[verifier::loop_isolation(false)]
    pub fn record_images(&mut self, images: &Vec<String>)
        requires
            old(self).store.wf(),
        ensures
            final(self).store.wf(),
            final(self).store.images_view() == inc_all(
                old(self).store.images_view(),
                images.deep_view(),
                0,
            ),
            final(self).store.stacks_view() == old(self).store.stacks_view(),
            final(self).store.repos_view() == old(self).store.repos_view(),
    {
        let ghost dv = images.deep_view();
        let n = images.len();
        let mut i: usize = 0;
        while i < n
            invariant
                0 <= i <= n,
                self.store.wf(),
                inc_all(old(self).store.images_view(), dv, 0) == inc_all(
                    self.store.images_view(),
                    dv,
                    i as int,
                ),
                self.store.stacks_view() == old(self).store.stacks_view(),
                self.store.repos_view() == old(self).store.repos_view(),
            decreases n - i,
        {
            let ghost pre = self.store.images_view();
            self.update_image_reference(images[i].as_str());
            proof {
                assert(images@[i as int]@ == dv[i as int]);
                assert(inc_all(pre, dv, i as int) == inc_all(inc_image(pre, dv[i as int]), dv, i + 1));
            }
            i += 1;
        }
    }

    /// Transforms one declared stack and decides its deployment. The
    /// store's stack records change exactly as the decision requires:
    /// a new record (status `stopped`) for an unknown stack, a refreshed
    /// fingerprint for a redeploy, nothing for a skip. The caller then
    /// writes the plan's files, performs its actions in order, and on
    /// success completes the stack with [`Self::finish_stack`].
    #[verifier::loop_isolation(false)]
    pub fn process_stack(
        &mut self,
        repository_url: &str,
        input: &StackInput,
        volumes: Option<&Vec<VolumeDefinition>>,
        nfs: Option<&NfsConfig>,
        is_reconcile: bool,
        force: bool,
    ) -> (r: Result<StackOutcome, EngineError>)
        requires
            old(self).store.wf(),
        ensures
            final(self).store.wf(),
            final(self).store.images_view() == old(self).store.images_view(),
            final(self).store.repos_view() == old(self).store.repos_view(),
            match r {
                Ok(outcome) => match outcome {
                    StackOutcome::Skipped { warning } => !input.dir_exists
                        && final(self).store.stacks_view() == old(self).store.stacks_view()
                        && warning@ == "Warning: Stack directory '"@ + input.name@
                        + "' not found"@,
                    StackOutcome::Processed(plan) => input.dir_exists && input.compose is Some && {
                        let t0 = input.compose->Some_0.text@;
                        let tr = stack_transform(
                            t0,
                            vols_view(volumes, nfs),
                            text_view(input.secrets_text),
                        );
                        &&& plan.name@ == input.name@
                        &&& tr is Some
                        &&& plan.transformed_text@ == tr->Some_0.0
                        &&& (match tr->Some_0.1 {
                            Option::Some(defs) => plan.wrapper_script is Some
                                && plan.wrapper_script->Some_0@ == secret_script(defs),
                            Option::None => plan.wrapper_script is None,
                        })
                        &&& plan.fingerprint@ == md5_hex_of(plan.transformed_text@)
                        &&& plan.compose_path@ == input.name@ + seq!['/']
                            + input.compose->Some_0.file_name@
                        &&& yaml_doc_of(plan.transformed_text@) is Some
                        &&& plan.images.deep_view() == images_of(
                            yaml_doc_of(plan.transformed_text@)->Some_0,
                        )
                        &&& {
                            let existing = find_stack(
                                old(self).store.stacks_view(),
                                input.name@,
                                repository_url@,
                            );
                            let decision = spec_decide(
                                existing,
                                plan.fingerprint@,
                                force,
                                is_reconcile,
                            );
                            &&& plan.deploys == (decision != DeployDecision::Skip)
                            &&& plan.actions.deep_view() == decision_actions(
                                decision,
                                input.name@,
                                plan.compose_path@,
                                plan.images.deep_view(),
                            )
                            &&& (match decision {
                                DeployDecision::CreateAndDeploy => final(self).store.stacks_view()
                                    == old(self).store.stacks_view().push(
                                    StackV {
                                        id: 0,
                                        name: input.name@,
                                        repository_url: repository_url@,
                                        compose_path: plan.compose_path@,
                                        hash: plan.fingerprint@,
                                        status: "stopped"@,
                                    },
                                ),
                                DeployDecision::Redeploy { .. } => final(self).store.stacks_view()
                                    == old(self).store.stacks_view().update(
                                    find_stack_index(
                                        old(self).store.stacks_view(),
                                        input.name@,
                                        repository_url@,
                                    ),
                                    StackV {
                                        hash: plan.fingerprint@,
                                        ..old(self).store.stacks_view()[find_stack_index(
                                            old(self).store.stacks_view(),
                                            input.name@,
                                            repository_url@,
                                        )]
                                    },
                                ),
                                DeployDecision::Skip => final(self).store.stacks_view()
                                    == old(self).store.stacks_view(),
                            })
                        }
                    },
                },
                Err(e) => final(self).store.stacks_view() == old(self).store.stacks_view()
                    && input.dir_exists && match e {
                    EngineError::ComposeFileMissing { stack } => stack@ == input.name@
                        && input.compose is None,
                    EngineError::Parse => input.compose is Some && {
                        let tr = stack_transform(
                            input.compose->Some_0.text@,
                            vols_view(volumes, nfs),
                            text_view(input.secrets_text),
                        );
                        tr is None || yaml_doc_of(tr->Some_0.0) is None
                    },
                    EngineError::Emit => input.compose is Some && stack_transform(
                        input.compose->Some_0.text@,
                        vols_view(volumes, nfs),
                        text_view(input.secrets_text),
                    ) is None,
                    _ => false,
                },
            },
    {
        if !input.dir_exists {
            let mut warning = "Warning: Stack directory '".to_owned();
            warning.append(input.name.as_str());
            warning.append("' not found");
            proof {
                assert(warning@ =~= "Warning: Stack directory '"@ + input.name@
                    + "' not found"@);
            }
            return Ok(StackOutcome::Skipped { warning });
        }
        let compose = match &input.compose {
            Some(c) => c,
            None => {
                return Err(EngineError::ComposeFileMissing { stack: input.name.clone() });
            },
        };
        // The volume stage.
        let mut text: String = compose.text.clone();
        match (volumes, nfs) {
            (Some(defs), Some(nfs_config)) => {
                text = match ComposeProcessor::process_volumes(text.as_str(), defs, nfs_config) {
                    Ok(t) => t,
                    Err(e) => {
                        return Err(e);
                    },
                };
            },
            _ => {},
        }
        // The secret stage.
        let secrets_text: Option<&str> = match &input.secrets_text {
            Some(t) => Some(t.as_str()),
            None => None,
        };
        let bundle = match SecretProcessor::process_secrets(secrets_text) {
            Ok(b) => b,
            Err(e) => {
                return Err(e);
            },
        };
        let wrapper_script: Option<String> = match &bundle {
            Some(b) => {
                let mount = secret_entrypoint_volume();
                text = match ComposeProcessor::process_secrets(
                    text.as_str(),
                    &b.definitions,
                    mount.as_str(),
                ) {
                    Ok(t) => t,
                    Err(e) => {
                        return Err(e);
                    },
                };
                Some(b.script.clone())
            },
            None => None,
        };
        // Fingerprint, manifest path, images.
        let fingerprint = md5_hex(text.as_str());
        let mut compose_path = input.name.clone();
        compose_path.append("/");
        compose_path.append(compose.file_name.as_str());
        proof {
            reveal_strlit("/");
            assert("/"@ =~= seq!['/']);
            assert(compose_path@ =~= input.name@ + seq!['/'] + compose.file_name@);
        }
        let images = match ComposeProcessor::extract_images(text.as_str()) {
            Ok(imgs) => imgs,
            Err(e) => {
                return Err(e);
            },
        };
        // The deployment decision and the store change it requires.
        let existing = self.store.get_stack_by_name(input.name.as_str(), repository_url);
        let decision = decide_deploy(existing.as_ref(), fingerprint.as_str(), force, is_reconcile);
        let mut actions: Vec<Action> = Vec::new();
        match decision {
            DeployDecision::Skip => {},
            DeployDecision::Redeploy { stop_first } => {
                if stop_first {
                    actions.push(Action::StopStack { name: input.name.clone() });
                }
                self.store.update_stack_hash(
                    input.name.as_str(),
                    repository_url,
                    fingerprint.as_str(),
                );
            },
            DeployDecision::CreateAndDeploy => {
                let record = Stack::new(
                    input.name.clone(),
                    repository_url.to_owned(),
                    compose_path.clone(),
                    fingerprint.clone(),
                );
                self.store.create_stack(&record);
            },
        }
        let deploys = match decision {
            DeployDecision::Skip => false,
            _ => true,
        };
        if deploys {
            let ghost pre_actions = actions.deep_view();
            let ghost dv = images.deep_view();
            let n = images.len();
            let mut i: usize = 0;
            while i < n
                invariant
                    0 <= i <= n,
                    actions.deep_view() + pull_actions(dv, i as int) == pre_actions + pull_actions(
                        dv,
                        0,
                    ),
                decreases n - i,
            {
                let ghost step_pre = actions.deep_view();
                actions.push(Action::PullImage { name: images[i].clone() });
                proof {
                    assert(actions.deep_view() =~= step_pre.push(
                        ActionV::PullImage { name: dv[i as int] },
                    ));
                    assert(pull_actions(dv, i as int) == seq![
                        ActionV::PullImage { name: dv[i as int] },
                    ] + pull_actions(dv, i + 1));
                    assert(actions.deep_view() + pull_actions(dv, i + 1) =~= pre_actions
                        + pull_actions(dv, 0));
                }
                i += 1;
            }
            proof {
                assert(pull_actions(dv, n as int) == Seq::<ActionV>::empty());
                assert(actions.deep_view() =~= pre_actions + pull_actions(dv, 0));
            }
            let ghost after_pulls = actions.deep_view();
            actions.push(
                Action::DeployStack {
                    name: input.name.clone(),
                    compose_path: compose_path.clone(),
                },
            );
            proof {
                assert(actions.deep_view() =~= after_pulls.push(
                    ActionV::DeployStack { name: input.name@, compose_path: compose_path@ },
                ));
            }
        }
        proof {
            assert(actions.deep_view() =~= decision_actions(
                decision,
                input.name@,
                compose_path@,
                images.deep_view(),
            ));
        }
        Ok(
            StackOutcome::Processed(
                StackPlan {
                    name: input.name.clone(),
                    compose_path,
                    transformed_text: text,
                    fingerprint,
                    wrapper_script,
                    images,
                    actions,
                    deploys,
                },
            ),
        )
    }

    /// Completes one processed stack after its actions succeeded: a
    /// deployed stack's record turns `deployed`, and every image
    /// occurrence of its manifest is counted — deployed or not.
    pub fn finish_stack(&mut self, repository_url: &str, plan: &StackPlan)
        requires
            old(self).store.wf(),
        ensures
            final(self).store.wf(),
            final(self).store.repos_view() == old(self).store.repos_view(),
            final(self).store.images_view() == inc_all(
                old(self).store.images_view(),
                plan.images.deep_view(),
                0,
            ),
            plan.deploys ==> ({
                let k = find_stack_index(old(self).store.stacks_view(), plan.name@, repository_url@);
                if k >= 0 {
                    final(self).store.stacks_view() == old(self).store.stacks_view().update(
                        k,
                        StackV { status: "deployed"@, ..old(self).store.stacks_view()[k] },
                    )
                } else {
                    final(self).store.stacks_view() == old(self).store.stacks_view()
                }
            }),
            !plan.deploys ==> final(self).store.stacks_view() == old(self).store.stacks_view(),
    {
        if plan.deploys {
            self.store.update_stack_status(plan.name.as_str(), repository_url, "deployed");
        }
        self.record_images(&plan.images);
    }

    /// Processes and completes every declared stack of one source tree,
    /// in declaration order, after resetting the image reference counts:
    /// the whole pass as one call, for a caller that performs the
    /// returned plans' actions afterwards. A missing stack directory is
    /// skipped with a warning; any other per-stack failure aborts the
    /// pass with that stack's error.
    #[verifier::loop_isolation(false)]
    pub fn process_and_deploy_stacks(
        &mut self,
        repository_url: &str,
        has_stacks_manifest: bool,
        inputs: &Vec<StackInput>,
        volumes: Option<&Vec<VolumeDefinition>>,
        nfs: Option<&NfsConfig>,
        is_reconcile: bool,
        force: bool,
    ) -> (r: Result<ReconcilePlan, EngineError>)
        requires
            old(self).store.wf(),
        ensures
            final(self).store.wf(),
            final(self).store.repos_view() == old(self).store.repos_view(),
            !has_stacks_manifest ==> r is Err && r->Err_0 is StacksManifestMissing,
            match r {
                Ok(plan) => plan.outcomes.len() == inputs.len() && final(self).store.images_view()
                    == inc_outcomes(
                    zeroed_counts(old(self).store.images_view()),
                    plan.outcomes@,
                    0,
                ) && forall|i: int|
                    0 <= i < inputs.len() ==> outcome_transform_ok(
                        #[trigger] plan.outcomes@[i],
                        inputs@[i],
                        vols_view(volumes, nfs),
                    ),
                Err(e) => match e {
                    EngineError::StacksManifestMissing => !has_stacks_manifest,
                    EngineError::ComposeFileMissing { stack } => exists|i: int|
                        0 <= i < inputs.len() && (#[trigger] inputs@[i]).dir_exists
                            && inputs@[i].compose is None && stack@ == inputs@[i].name@,
                    EngineError::Parse => exists|i: int|
                        0 <= i < inputs.len() && (#[trigger] inputs@[i]).dir_exists
                            && inputs@[i].compose is Some && {
                            let tr = stack_transform(
                                inputs@[i].compose->Some_0.text@,
                                vols_view(volumes, nfs),
                                text_view(inputs@[i].secrets_text),
                            );
                            tr is None || yaml_doc_of(tr->Some_0.0) is None
                        },
                    EngineError::Emit => exists|i: int|
                        0 <= i < inputs.len() && (#[trigger] inputs@[i]).dir_exists
                            && inputs@[i].compose is Some && stack_transform(
                            inputs@[i].compose->Some_0.text@,
                            vols_view(volumes, nfs),
                            text_view(inputs@[i].secrets_text),
                        ) is None,
                    _ => false,
                },
            },
    {
        let ghost zeroed = zeroed_counts(old(self).store.images_view());
        match self.begin_pass(has_stacks_manifest) {
            Ok(()) => {},
            Err(e) => {
                return Err(e);
            },
        }
        proof {
            assert(self.store.images_view() =~= zeroed);
        }
        let n = inputs.len();
        let mut outcomes: Vec<StackOutcome> = Vec::new();
        let mut i: usize = 0;
        while i < n
            invariant
                0 <= i <= n,
                self.store.wf(),
                self.store.repos_view() == old(self).store.repos_view(),
                self.store.images_view() == inc_outcomes(zeroed, outcomes@, 0),
                outcomes.len() == i,
                forall|j: int|
                    0 <= j < i ==> outcome_transform_ok(
                        #[trigger] outcomes@[j],
                        inputs@[j],
                        vols_view(volumes, nfs),
                    ),
            decreases n - i,
        {
            let ghost pre_outcomes = outcomes@;
            let outcome = match self.process_stack(
                repository_url,
                &inputs[i],
                volumes,
                nfs,
                is_reconcile,
                force,
            ) {
                Ok(o) => o,
                Err(e) => {
                    return Err(e);
                },
            };
            match &outcome {
                StackOutcome::Processed(plan) => {
                    self.finish_stack(repository_url, plan);
                },
                StackOutcome::Skipped { .. } => {},
            }
            proof {
                lemma_inc_outcomes_push(zeroed, pre_outcomes, outcome, 0);
            }
            outcomes.push(outcome);
            i += 1;
        }
        Ok(ReconcilePlan { outcomes })
    }

    /// Plans the end-of-pass image maintenance over the store's records,
    /// in record order: every image whose reference count is zero is
    /// removed, every other one is pulled according to the configured
    /// policy. The caller performs the actions and then sweeps the
    /// zero-count records with the store's delete operation.
    #[verifier::loop_isolation(false)]
    pub fn plan_image_maintenance(&self) -> (actions: Vec<Action>)
        ensures
            actions.deep_view() == maintenance_actions(self.store.images_view(), 0),
    {
        let records = self.store.get_all_images();
        let ghost sv = self.store.images_view();
        let n = records.len();
        let mut actions: Vec<Action> = Vec::new();
        let mut i: usize = 0;
        proof {
            assert(actions.deep_view() =~= Seq::<ActionV>::empty());
        }
        while i < n
            invariant
                0 <= i <= n,
                n == records.len(),
                records.deep_view() == sv,
                actions.deep_view() + maintenance_actions(sv, i as int) == maintenance_actions(
                    sv,
                    0,
                ),
            decreases n - i,
        {
            let ghost pre = actions.deep_view();
            if records[i].reference_count == 0 {
                actions.push(Action::RemoveImage { name: records[i].name.clone() });
                proof {
                    assert(records@[i as int]@ == sv[i as int]);
                    assert(actions.deep_view() =~= pre.push(
                        ActionV::RemoveImage { name: sv[i as int].name },
                    ));
                    assert(actions.deep_view() + maintenance_actions(sv, i + 1)
                        =~= maintenance_actions(sv, 0));
                }
            } else {
                actions.push(Action::PullImage { name: records[i].name.clone() });
                proof {
                    assert(records@[i as int]@ == sv[i as int]);
                    assert(actions.deep_view() =~= pre.push(
                        ActionV::PullImage { name: sv[i as int].name },
                    ));
                    assert(actions.deep_view() + maintenance_actions(sv, i + 1)
                        =~= maintenance_actions(sv, 0));
                }
            }
            i += 1;
        }
        proof {
            assert(maintenance_actions(sv, n as int) == Seq::<ActionV>::empty());
            assert(actions.deep_view() =~= maintenance_actions(sv, 0));
        }
        actions
    }
}

/// Whether an outcome's plan is the exact transformation of its input:
/// the data half of [`StackProcessor::process_stack`]'s contract, stated
/// for every outcome of a whole pass.
pub open spec fn outcome_transform_ok(
    outcome: StackOutcome,
    input: StackInput,
    vols: Option<(Seq<VolumeDefinitionV>, Seq<char>)>,
) -> bool {
    match outcome {
        StackOutcome::Skipped { .. } => !input.dir_exists,
        StackOutcome::Processed(plan) => input.dir_exists && input.compose is Some && {
            let tr = stack_transform(
                input.compose->Some_0.text@,
                vols,
                text_view(input.secrets_text),
            );
            &&& plan.name@ == input.name@
            &&& tr is Some
            &&& plan.transformed_text@ == tr->Some_0.0
            &&& plan.fingerprint@ == md5_hex_of(plan.transformed_text@)
            &&& yaml_doc_of(plan.transformed_text@) is Some
            &&& plan.images.deep_view() == images_of(yaml_doc_of(plan.transformed_text@)->Some_0)
        },
    }
}

// `pull_actions` grows one action per image.
proof fn lemma_pull_actions_len(images: Seq<Seq<char>>, i: int)
    requires
        0 <= i <= images.len(),
    ensures
        pull_actions(images, i).len() == images.len() - i,
    decreases images.len() - i,
{
    if i < images.len() {
        lemma_pull_actions_len(images, i + 1);
    }
}

// A prefix of the pull actions, one image longer.
proof fn lemma_pull_actions_take(images: Seq<Seq<char>>, i: int)
    requires
        0 <= i < images.len(),
    ensures
        pull_actions(images, 0).take(i + 1) =~= pull_actions(images, 0).take(i).push(
            ActionV::PullImage { name: images[i] },
        ),
    decreases images.len(),
{
    lemma_pull_actions_len(images, 0);
    lemma_pull_actions_index(images, 0, i);
}

// Indexing into the pull actions.
proof fn lemma_pull_actions_index(images: Seq<Seq<char>>, base: int, k: int)
    requires
        0 <= base <= k < images.len(),
    ensures
        pull_actions(images, base).len() == images.len() - base,
        pull_actions(images, base)[k - base] == (ActionV::PullImage { name: images[k] }),
    decreases images.len() - base,
{
    lemma_pull_actions_len(images, base);
    if base < k {
        lemma_pull_actions_index(images, base + 1, k);
        lemma_pull_actions_len(images, base + 1);
    }
}

} // verus!
