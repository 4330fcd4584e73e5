//! The persisted records and the manifest-level declarations: stacks,
//! images, repository cache entries, volume/secret/NFS declarations.

use vstd::prelude::*;

verus! {

/// A tracked container image and its reference count across the current
/// reconciliation scope.
#[derive(Clone, Debug)]
pub struct Image {
    /// Store-assigned identifier; zero until the store sets it.
    pub id: i64,
    /// Image reference string (`repository[:tag]`).
    pub name: String,
    /// How many manifest occurrences referenced this image in the current
    /// reconciliation scope. Never negative.
    pub reference_count: i32,
}

/// The mathematical shape of an [`Image`].
pub struct ImageV {
    pub id: int,
    pub name: Seq<char>,
    pub reference_count: int,
}

impl View for Image {
    type V = ImageV;

    open spec fn view(&self) -> ImageV {
        ImageV { id: self.id as int, name: self.name@, reference_count: self.reference_count as int }
    }
}

impl DeepView for Image {
    type V = ImageV;

    open spec fn deep_view(&self) -> ImageV {
        self.view()
    }
}

impl Image {
    /// A fresh image record; the store assigns the identifier later.
    pub fn new(name: String, reference_count: i32) -> (r: Self)
        ensures
            r@.id == 0,
            r@.name == name@,
            r@.reference_count == reference_count as int,
    {
        Self { id: 0, name, reference_count }
    }
}

/// A deployed (or known) stack: one record per (name, repository URL).
#[derive(Clone, Debug)]
pub struct Stack {
    /// Store-assigned identifier; zero until the store sets it.
    pub id: i64,
    /// Stack name, as declared in the source tree's stack list.
    pub name: String,
    /// URL of the source repository the stack came from.
    pub repository_url: String,
    /// Path of the stack's manifest file, relative to the source tree.
    pub compose_path: String,
    /// Content fingerprint of the materialized manifest.
    pub hash: String,
    /// `"stopped"`, `"deployed"` or `"error"`.
    pub status: String,
}

/// The mathematical shape of a [`Stack`].
pub struct StackV {
    pub id: int,
    pub name: Seq<char>,
    pub repository_url: Seq<char>,
    pub compose_path: Seq<char>,
    pub hash: Seq<char>,
    pub status: Seq<char>,
}

impl View for Stack {
    type V = StackV;

    open spec fn view(&self) -> StackV {
        StackV {
            id: self.id as int,
            name: self.name@,
            repository_url: self.repository_url@,
            compose_path: self.compose_path@,
            hash: self.hash@,
            status: self.status@,
        }
    }
}

impl DeepView for Stack {
    type V = StackV;

    open spec fn deep_view(&self) -> StackV {
        self.view()
    }
}

impl Stack {
    /// A fresh stack record: it starts in status `"stopped"` until its
    /// first successful deploy.
    pub fn new(name: String, repository_url: String, compose_path: String, hash: String) -> (r:
        Self)
        ensures
            r@.id == 0,
            r@.name == name@,
            r@.repository_url == repository_url@,
            r@.compose_path == compose_path@,
            r@.hash == hash@,
            r@.status == "stopped"@,
    {
        Self { id: 0, name, repository_url, compose_path, hash, status: "stopped".to_owned() }
    }
}

/// A watched source repository, keyed by URL.
#[derive(Clone, Debug)]
pub struct RepositoryCache {
    /// Store-assigned identifier; zero until the store sets it.
    pub id: i64,
    /// Source repository URL; unique per record.
    pub url: String,
    /// Timestamp of the last watch, as ISO text.
    pub last_watch: String,
}

/// The mathematical shape of a [`RepositoryCache`].
pub struct RepositoryCacheV {
    pub id: int,
    pub url: Seq<char>,
    pub last_watch: Seq<char>,
}

impl View for RepositoryCache {
    type V = RepositoryCacheV;

    open spec fn view(&self) -> RepositoryCacheV {
        RepositoryCacheV { id: self.id as int, url: self.url@, last_watch: self.last_watch@ }
    }
}

impl DeepView for RepositoryCache {
    type V = RepositoryCacheV;

    open spec fn deep_view(&self) -> RepositoryCacheV {
        self.view()
    }
}

/// One entry of the source tree's top-level stack list: a name, naming a
/// subdirectory expected to hold a manifest file.
#[derive(Clone, Debug)]
pub struct StackDefinition {
    pub name: String,
}

impl View for StackDefinition {
    type V = Seq<char>;

    open spec fn view(&self) -> Seq<char> {
        self.name@
    }
}

impl DeepView for StackDefinition {
    type V = Seq<char>;

    open spec fn deep_view(&self) -> Seq<char> {
        self.view()
    }
}

/// How a declared volume is realized.
#[derive(Clone, Copy, Debug, PartialEq, Eq, Structural)]
pub enum VolumeType {
    /// An orchestrator-managed named volume.
    Volume,
    /// A path inside the source tree, materialized into shared storage.
    Binding,
}

/// A volume declared in the source tree's volumes manifest.
#[derive(Clone, Debug)]
pub struct VolumeDefinition {
    /// The id that manifest volume entries refer to.
    pub id: String,
    /// Named volume or binding.
    pub kind: VolumeType,
    /// For a named volume: the volume name. For a binding: a source-tree
    /// relative path, rewritten to the shared-storage destination once the
    /// binding is materialized.
    pub path: String,
}

/// The mathematical shape of a [`VolumeDefinition`].
pub struct VolumeDefinitionV {
    pub id: Seq<char>,
    pub kind: VolumeType,
    pub path: Seq<char>,
}

impl View for VolumeDefinition {
    type V = VolumeDefinitionV;

    open spec fn view(&self) -> VolumeDefinitionV {
        VolumeDefinitionV { id: self.id@, kind: self.kind, path: self.path@ }
    }
}

impl DeepView for VolumeDefinition {
    type V = VolumeDefinitionV;

    open spec fn deep_view(&self) -> VolumeDefinitionV {
        self.view()
    }
}

/// Shared-storage configuration: the root every binding volume is staged
/// under. Required whenever any binding volume is declared.
#[derive(Clone, Debug)]
pub struct NfsConfig {
    pub path: String,
}

impl View for NfsConfig {
    type V = Seq<char>;

    open spec fn view(&self) -> Seq<char> {
        self.path@
    }
}

impl DeepView for NfsConfig {
    type V = Seq<char>;

    open spec fn deep_view(&self) -> Seq<char> {
        self.view()
    }
}

/// Declaration of an orchestrator-managed secret and the environment
/// variable to expose its file content as.
#[derive(Clone, Debug)]
pub struct SecretDefinition {
    /// Orchestrator secret name.
    pub secret: String,
    /// Environment variable to set in the container from the secret file.
    pub env: String,
}

/// The mathematical shape of a [`SecretDefinition`].
pub struct SecretDefinitionV {
    pub secret: Seq<char>,
    pub env: Seq<char>,
}

impl View for SecretDefinition {
    type V = SecretDefinitionV;

    open spec fn view(&self) -> SecretDefinitionV {
        SecretDefinitionV { secret: self.secret@, env: self.env@ }
    }
}

impl DeepView for SecretDefinition {
    type V = SecretDefinitionV;

    open spec fn deep_view(&self) -> SecretDefinitionV {
        self.view()
    }
}

} // verus!
