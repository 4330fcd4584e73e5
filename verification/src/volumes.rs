//! The volume materializer's decisions: which binding volumes are staged
//! into shared storage, where each one lands, and how the in-memory
//! definitions are repointed at their destinations. The staging itself
//! (removing, copying, normalizing ownership) is filesystem work done by
//! the caller, one [`CopyTask`] at a time.

use vstd::prelude::*;
use crate::compose::join_path;
use crate::compose::join_path_exec;
use crate::errors::EngineError;
use crate::manifests::{decode_volume_defs, decode_volume_definitions};
use crate::models::{NfsConfig, VolumeDefinition, VolumeDefinitionV, VolumeType};
use crate::yaml::{parse_yaml, yaml_doc_of};

verus! {

/// One staging job: copy the source-tree path `source` to the absolute
/// shared-storage path `dest`, replacing whatever is there.
#[derive(Debug)]
pub struct CopyTask {
    /// Source path, relative to the source tree.
    pub source: String,
    /// Destination path under the shared-storage root.
    pub dest: String,
}

/// The mathematical shape of a [`CopyTask`].
pub struct CopyTaskV {
    pub source: Seq<char>,
    pub dest: Seq<char>,
}

impl View for CopyTask {
    type V = CopyTaskV;

    open spec fn view(&self) -> CopyTaskV {
        CopyTaskV { source: self.source@, dest: self.dest@ }
    }
}

impl DeepView for CopyTask {
    type V = CopyTaskV;

    open spec fn deep_view(&self) -> CopyTaskV {
        self.view()
    }
}

/// Whether definition `i` is materialized: it is a binding, a
/// shared-storage root is configured, and its source path exists.
pub open spec fn is_materialized(
    def: VolumeDefinitionV,
    root: Option<Seq<char>>,
    exists: bool,
) -> bool {
    root is Some && def.kind == VolumeType::Binding && exists
}

/// The definitions after materialization: each materialized binding's
/// path becomes its absolute destination; everything else is unchanged.
pub open spec fn materialize_defs(
    defs: Seq<VolumeDefinitionV>,
    root: Option<Seq<char>>,
    exists: Seq<bool>,
) -> Seq<VolumeDefinitionV> {
    Seq::new(
        defs.len(),
        |i: int|
            if is_materialized(defs[i], root, exists[i]) {
                VolumeDefinitionV {
                    id: defs[i].id,
                    kind: defs[i].kind,
                    path: join_path(root->Some_0, defs[i].path),
                }
            } else {
                defs[i]
            },
    )
}

/// The staging jobs for `defs[i..]`, in declaration order: one per
/// materialized binding, from its tree-relative source to its absolute
/// destination.
pub open spec fn copy_tasks_for(
    defs: Seq<VolumeDefinitionV>,
    root: Option<Seq<char>>,
    exists: Seq<bool>,
    i: int,
) -> Seq<CopyTaskV>
    decreases defs.len() - i,
{
    if 0 <= i < defs.len() {
        let rest = copy_tasks_for(defs, root, exists, i + 1);
        if is_materialized(defs[i], root, exists[i]) {
            seq![
                CopyTaskV { source: defs[i].path, dest: join_path(root->Some_0, defs[i].path) },
            ] + rest
        } else {
            rest
        }
    } else {
        Seq::empty()
    }
}

/// The view of an optional shared-storage configuration.
pub open spec fn root_view(nfs: Option<&NfsConfig>) -> Option<Seq<char>> {
    match nfs {
        Option::Some(c) => Option::Some(c@),
        Option::None => Option::None,
    }
}

/// Processor for volume materialization.
pub struct VolumeProcessor;

impl VolumeProcessor {
    /// Loads the volume-definition manifest. An absent manifest means no
    /// volumes are declared; a malformed one is a parse failure.
    pub fn load_volumes_config(volumes_text: Option<&str>) -> (r: Result<
        Option<Vec<VolumeDefinition>>,
        EngineError,
    >)
        ensures
            match r {
                Ok(opt) => match volumes_text {
                    Some(t) => opt is Some && yaml_doc_of(t@) is Some && decode_volume_defs(
                        yaml_doc_of(t@)->Some_0,
                    ) == Option::Some(opt->Some_0.deep_view()),
                    None => opt is None,
                },
                Err(e) => e is Parse && volumes_text is Some && (yaml_doc_of(
                    volumes_text->Some_0@,
                ) is None || decode_volume_defs(yaml_doc_of(volumes_text->Some_0@)->Some_0) is None),
            },
    {
        let text = match volumes_text {
            Some(t) => t,
            None => {
                return Ok(None);
            },
        };
        let doc = match parse_yaml(text) {
            Ok(d) => d,
            Err(e) => {
                return Err(e);
            },
        };
        match decode_volume_definitions(&doc) {
            Some(defs) => Ok(Some(defs)),
            None => Err(EngineError::Parse),
        }
    }

    /// Repoints every materialized binding definition at its absolute
    /// shared-storage destination and returns the staging jobs to
    /// perform, in declaration order. `source_exists[i]` says whether
    /// definition `i`'s source path exists in the source tree; named
    /// volumes and absent sources are left untouched, and nothing is
    /// staged without a shared-storage root.
    #[verifier::loop_isolation(false)]
    pub fn process_volumes(
        volumes_definitions: &mut Vec<VolumeDefinition>,
        nfs_config: Option<&NfsConfig>,
        source_exists: &Vec<bool>,
    ) -> (tasks: Vec<CopyTask>)
        requires
            old(volumes_definitions).len() == source_exists.len(),
        ensures
            final(volumes_definitions).deep_view() == materialize_defs(
                old(volumes_definitions).deep_view(),
                root_view(nfs_config),
                source_exists@,
            ),
            tasks.deep_view() == copy_tasks_for(
                old(volumes_definitions).deep_view(),
                root_view(nfs_config),
                source_exists@,
                0,
            ),
    {
        let ghost defs0 = old(volumes_definitions).deep_view();
        let ghost rv = root_view(nfs_config);
        let ghost exv = source_exists@;
        let mut tasks: Vec<CopyTask> = Vec::new();
        let n = volumes_definitions.len();
        let mut i: usize = 0;
        proof {
            assert(tasks.deep_view() =~= Seq::<CopyTaskV>::empty());
        }
        while i < n
            invariant
                0 <= i <= n,
                volumes_definitions.len() == n,
                forall|j: int|
                    i <= j < n ==> #[trigger] volumes_definitions@[j]@ == defs0[j],
                forall|j: int|
                    0 <= j < i ==> #[trigger] volumes_definitions@[j]@ == materialize_defs(
                        defs0,
                        rv,
                        exv,
                    )[j],
                tasks.deep_view() + copy_tasks_for(defs0, rv, exv, i as int) == copy_tasks_for(
                    defs0,
                    rv,
                    exv,
                    0,
                ),
            decreases n - i,
        {
            let is_binding = match volumes_definitions[i].kind {
                VolumeType::Binding => true,
                VolumeType::Volume => false,
            };
            match nfs_config {
                Some(nfs) => {
                    if is_binding && source_exists[i] {
                        proof {
                            assert(volumes_definitions@[i as int]@ == defs0[i as int]);
                            assert(is_materialized(defs0[i as int], rv, exv[i as int]));
                        }
                        let source = volumes_definitions[i].path.clone();
                        let dest = join_path_exec(nfs.path.as_str(), source.as_str());
                        let ghost pre = tasks.deep_view();
                        tasks.push(CopyTask { source, dest: dest.clone() });
                        let updated = VolumeDefinition {
                            id: volumes_definitions[i].id.clone(),
                            kind: volumes_definitions[i].kind,
                            path: dest,
                        };
                        volumes_definitions[i] = updated;
                        proof {
                            assert(tasks.deep_view() =~= pre.push(
                                CopyTaskV {
                                    source: defs0[i as int].path,
                                    dest: join_path(rv->Some_0, defs0[i as int].path),
                                },
                            ));
                            assert(tasks.deep_view() + copy_tasks_for(defs0, rv, exv, i + 1)
                                =~= copy_tasks_for(defs0, rv, exv, 0));
                        }
                    } else {
                        proof {
                            assert(volumes_definitions@[i as int]@ == defs0[i as int]);
                            assert(!is_materialized(defs0[i as int], rv, exv[i as int]));
                            assert(copy_tasks_for(defs0, rv, exv, i as int) == copy_tasks_for(
                                defs0,
                                rv,
                                exv,
                                i + 1,
                            ));
                        }
                    }
                },
                None => {
                    proof {
                        assert(copy_tasks_for(defs0, rv, exv, i as int) == copy_tasks_for(
                            defs0,
                            rv,
                            exv,
                            i + 1,
                        ));
                    }
                },
            }
            i += 1;
        }
        proof {
            assert(copy_tasks_for(defs0, rv, exv, n as int) == Seq::<CopyTaskV>::empty());
            assert(tasks.deep_view() =~= copy_tasks_for(defs0, rv, exv, 0));
            assert(volumes_definitions.deep_view() =~= materialize_defs(defs0, rv, exv));
        }
        tasks
    }
}

} // verus!
