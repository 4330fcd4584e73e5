//! The persisted store's query contract, as a verified in-memory
//! reference implementation: stack records keyed by (name, repository
//! URL), image records keyed by name with their reference counts, and the
//! repository cache keyed by URL. The engine owns every mutation; a
//! durable storage engine behind the same contract is outside the core.

use vstd::prelude::*;
use crate::models::{Image, ImageV, RepositoryCache, RepositoryCacheV, Stack, StackV};

verus! {

// ---------------------------------------------------------------------
// First-match lookups
// ---------------------------------------------------------------------
/// Index of the first image record named `name`, or -1.
pub open spec fn find_image_index(s: Seq<ImageV>, name: Seq<char>) -> int
    decreases s.len(),
{
    if s.len() == 0 {
        -1
    } else if s[0].name == name {
        0
    } else {
        let r = find_image_index(s.drop_first(), name);
        if r < 0 {
            -1
        } else {
            r + 1
        }
    }
}

/// The first image record named `name`.
pub open spec fn find_image(s: Seq<ImageV>, name: Seq<char>) -> Option<ImageV> {
    let i = find_image_index(s, name);
    if 0 <= i < s.len() {
        Option::Some(s[i])
    } else {
        Option::None
    }
}

/// The reference count recorded for `name`; an absent record counts as
/// zero.
pub open spec fn image_count(s: Seq<ImageV>, name: Seq<char>) -> int {
    match find_image(s, name) {
        Option::Some(im) => im.reference_count,
        Option::None => 0,
    }
}

/// A first match at `idx` settles `find_image_index`.
pub proof fn lemma_find_image_index_at(s: Seq<ImageV>, name: Seq<char>, idx: int)
    requires
        0 <= idx < s.len(),
        s[idx].name == name,
        forall|j: int| 0 <= j < idx ==> (#[trigger] s[j]).name != name,
    ensures
        find_image_index(s, name) == idx,
    decreases idx,
{
    if idx > 0 {
        assert(forall|j: int| 0 <= j < idx - 1 ==> #[trigger] s.drop_first()[j] == s[j + 1]);
        lemma_find_image_index_at(s.drop_first(), name, idx - 1);
    }
}

/// No match anywhere settles `find_image_index`.
pub proof fn lemma_find_image_index_none(s: Seq<ImageV>, name: Seq<char>)
    requires
        forall|j: int| 0 <= j < s.len() ==> (#[trigger] s[j]).name != name,
    ensures
        find_image_index(s, name) == -1,
    decreases s.len(),
{
    if s.len() > 0 {
        assert(forall|j: int| 0 <= j < s.len() - 1 ==> #[trigger] s.drop_first()[j] == s[j + 1]);
        lemma_find_image_index_none(s.drop_first(), name);
    }
}

/// `find_image_index` is itself a first match.
pub proof fn lemma_find_image_index(s: Seq<ImageV>, name: Seq<char>)
    ensures
        find_image_index(s, name) >= 0 ==> {
            &&& 0 <= find_image_index(s, name) < s.len()
            &&& s[find_image_index(s, name)].name == name
            &&& forall|j: int|
                0 <= j < find_image_index(s, name) ==> (#[trigger] s[j]).name != name
        },
        find_image_index(s, name) < 0 ==> forall|j: int|
            0 <= j < s.len() ==> (#[trigger] s[j]).name != name,
    decreases s.len(),
{
    if s.len() > 0 && s[0].name != name {
        lemma_find_image_index(s.drop_first(), name);
        let fi = find_image_index(s, name);
        if fi >= 0 {
            assert forall|j: int| 0 <= j < fi implies (#[trigger] s[j]).name != name by {
                if j >= 1 {
                    assert(s[j] == s.drop_first()[j - 1]);
                }
            }
        } else {
            assert forall|j: int| 0 <= j < s.len() implies (#[trigger] s[j]).name != name by {
                if j >= 1 {
                    assert(s[j] == s.drop_first()[j - 1]);
                }
            }
        }
    }
}

/// Index of the first stack record keyed (`name`, `url`), or -1.
pub open spec fn find_stack_index(s: Seq<StackV>, name: Seq<char>, url: Seq<char>) -> int
    decreases s.len(),
{
    if s.len() == 0 {
        -1
    } else if s[0].name == name && s[0].repository_url == url {
        0
    } else {
        let r = find_stack_index(s.drop_first(), name, url);
        if r < 0 {
            -1
        } else {
            r + 1
        }
    }
}

/// The first stack record keyed (`name`, `url`).
pub open spec fn find_stack(s: Seq<StackV>, name: Seq<char>, url: Seq<char>) -> Option<StackV> {
    let i = find_stack_index(s, name, url);
    if 0 <= i < s.len() {
        Option::Some(s[i])
    } else {
        Option::None
    }
}

/// A first match at `idx` settles `find_stack_index`.
pub proof fn lemma_find_stack_index_at(s: Seq<StackV>, name: Seq<char>, url: Seq<char>, idx: int)
    requires
        0 <= idx < s.len(),
        s[idx].name == name && s[idx].repository_url == url,
        forall|j: int|
            0 <= j < idx ==> !((#[trigger] s[j]).name == name && s[j].repository_url == url),
    ensures
        find_stack_index(s, name, url) == idx,
    decreases idx,
{
    if idx > 0 {
        assert(forall|j: int| 0 <= j < idx - 1 ==> #[trigger] s.drop_first()[j] == s[j + 1]);
        lemma_find_stack_index_at(s.drop_first(), name, url, idx - 1);
    }
}

/// No match anywhere settles `find_stack_index`.
pub proof fn lemma_find_stack_index_none(s: Seq<StackV>, name: Seq<char>, url: Seq<char>)
    requires
        forall|j: int|
            0 <= j < s.len() ==> !((#[trigger] s[j]).name == name && s[j].repository_url == url),
    ensures
        find_stack_index(s, name, url) == -1,
    decreases s.len(),
{
    if s.len() > 0 {
        assert(forall|j: int| 0 <= j < s.len() - 1 ==> #[trigger] s.drop_first()[j] == s[j + 1]);
        lemma_find_stack_index_none(s.drop_first(), name, url);
    }
}

/// Index of the first cache record for `url`, or -1.
pub open spec fn find_repo_index(s: Seq<RepositoryCacheV>, url: Seq<char>) -> int
    decreases s.len(),
{
    if s.len() == 0 {
        -1
    } else if s[0].url == url {
        0
    } else {
        let r = find_repo_index(s.drop_first(), url);
        if r < 0 {
            -1
        } else {
            r + 1
        }
    }
}

/// The first cache record for `url`.
pub open spec fn find_repo(s: Seq<RepositoryCacheV>, url: Seq<char>) -> Option<RepositoryCacheV> {
    let i = find_repo_index(s, url);
    if 0 <= i < s.len() {
        Option::Some(s[i])
    } else {
        Option::None
    }
}

/// A first match at `idx` settles `find_repo_index`.
pub proof fn lemma_find_repo_index_at(s: Seq<RepositoryCacheV>, url: Seq<char>, idx: int)
    requires
        0 <= idx < s.len(),
        s[idx].url == url,
        forall|j: int| 0 <= j < idx ==> (#[trigger] s[j]).url != url,
    ensures
        find_repo_index(s, url) == idx,
    decreases idx,
{
    if idx > 0 {
        assert(forall|j: int| 0 <= j < idx - 1 ==> #[trigger] s.drop_first()[j] == s[j + 1]);
        lemma_find_repo_index_at(s.drop_first(), url, idx - 1);
    }
}

/// No match anywhere settles `find_repo_index`.
pub proof fn lemma_find_repo_index_none(s: Seq<RepositoryCacheV>, url: Seq<char>)
    requires
        forall|j: int| 0 <= j < s.len() ==> (#[trigger] s[j]).url != url,
    ensures
        find_repo_index(s, url) == -1,
    decreases s.len(),
{
    if s.len() > 0 {
        assert(forall|j: int| 0 <= j < s.len() - 1 ==> #[trigger] s.drop_first()[j] == s[j + 1]);
        lemma_find_repo_index_none(s.drop_first(), url);
    }
}


/// At most one stack record per (name, repository URL).
pub open spec fn stacks_distinct(s: Seq<StackV>) -> bool {
    forall|i: int, j: int|
        0 <= i < j < s.len() ==> !((#[trigger] s[i]).name == (#[trigger] s[j]).name
            && s[i].repository_url == s[j].repository_url)
}

/// At most one image record per name.
pub open spec fn images_distinct(s: Seq<ImageV>) -> bool {
    forall|i: int, j: int|
        0 <= i < j < s.len() ==> (#[trigger] s[i]).name != (#[trigger] s[j]).name
}

/// At most one cache record per URL.
pub open spec fn repos_distinct(s: Seq<RepositoryCacheV>) -> bool {
    forall|i: int, j: int| 0 <= i < j < s.len() ==> (#[trigger] s[i]).url != (#[trigger] s[j]).url
}

/// No reference count is negative.
pub open spec fn counts_nonneg(s: Seq<ImageV>) -> bool {
    forall|i: int| 0 <= i < s.len() ==> (#[trigger] s[i]).reference_count >= 0
}

// ---------------------------------------------------------------------
// The store
// ---------------------------------------------------------------------
/// The in-memory store of records.
pub struct Store {
    stacks: Vec<Stack>,
    images: Vec<Image>,
    repositories: Vec<RepositoryCache>,
}

impl Store {
    /// The stack records, in insertion order.
    pub closed spec fn stacks_view(&self) -> Seq<StackV> {
        self.stacks.deep_view()
    }

    /// The image records, in insertion order.
    pub closed spec fn images_view(&self) -> Seq<ImageV> {
        self.images.deep_view()
    }

    /// The repository-cache records, in insertion order.
    pub closed spec fn repos_view(&self) -> Seq<RepositoryCacheV> {
        self.repositories.deep_view()
    }

    /// Well-formedness: records are unique per key and reference counts
    /// are never negative.
    pub open spec fn wf(&self) -> bool {
        &&& stacks_distinct(self.stacks_view())
        &&& images_distinct(self.images_view())
        &&& repos_distinct(self.repos_view())
        &&& counts_nonneg(self.images_view())
    }

    /// An empty store.
    pub fn new() -> (r: Store)
        ensures
            r.wf(),
            r.stacks_view() == Seq::<StackV>::empty(),
            r.images_view() == Seq::<ImageV>::empty(),
            r.repos_view() == Seq::<RepositoryCacheV>::empty(),
    {
        let r = Store { stacks: Vec::new(), images: Vec::new(), repositories: Vec::new() };
        proof {
            assert(r.stacks_view() =~= Seq::<StackV>::empty());
            assert(r.images_view() =~= Seq::<ImageV>::empty());
            assert(r.repos_view() =~= Seq::<RepositoryCacheV>::empty());
        }
        r
    }

    // -----------------------------------------------------------------
    // Image records
    // -----------------------------------------------------------------
    /// Sets every image record's reference count to zero: the start of a
    /// reconciliation scope.
    #[verifier::loop_isolation(false)]
    pub fn reset_image_reference_counts(&mut self)
        requires
            old(self).wf(),
        ensures
            final(self).wf(),
            final(self).images_view().len() == old(self).images_view().len(),
            forall|i: int|
                0 <= i < old(self).images_view().len() ==> #[trigger] final(self).images_view()[i]
                    == (ImageV {
                    id: old(self).images_view()[i].id,
                    name: old(self).images_view()[i].name,
                    reference_count: 0,
                }),
            final(self).stacks_view() == old(self).stacks_view(),
            final(self).repos_view() == old(self).repos_view(),
    {
        let n = self.images.len();
        let mut i: usize = 0;
        while i < n
            invariant
                0 <= i <= n,
                self.images.len() == n,
                self.stacks == old(self).stacks,
                self.repositories == old(self).repositories,
                forall|j: int|
                    i <= j < n ==> #[trigger] self.images@[j]@ == old(self).images_view()[j],
                forall|j: int|
                    0 <= j < i ==> #[trigger] self.images@[j]@ == (ImageV {
                        id: old(self).images_view()[j].id,
                        name: old(self).images_view()[j].name,
                        reference_count: 0,
                    }),
            decreases n - i,
        {
            proof {
                assert(self.images@[i as int]@ == old(self).images_view()[i as int]);
            }
            let updated = Image {
                id: self.images[i].id,
                name: self.images[i].name.clone(),
                reference_count: 0,
            };
            proof {
                assert(updated@.id == old(self).images_view()[i as int].id);
                assert(updated@.name == old(self).images_view()[i as int].name);
                assert(updated@.reference_count == 0);
            }
            self.images[i] = updated;
            proof {
                assert(self.images@[i as int]@ == (ImageV {
                    id: old(self).images_view()[i as int].id,
                    name: old(self).images_view()[i as int].name,
                    reference_count: 0,
                }));
            }
            i += 1;
        }
        proof {
            let v = self.images_view();
            assert forall|a: int, b: int| 0 <= a < b < v.len() implies (#[trigger] v[a]).name != (
            #[trigger] v[b]).name by {
                assert(v[a].name == old(self).images_view()[a].name);
                assert(v[b].name == old(self).images_view()[b].name);
            }
            assert(images_distinct(v));
            assert(counts_nonneg(v));
        }
    }

    /// The image record named `name`, if any.
    #[verifier::loop_isolation(false)]
    pub fn get_image_by_name(&self, name: &str) -> (r: Option<Image>)
        ensures
            match r {
                Some(img) => find_image(self.images_view(), name@) == Option::Some(img@),
                None => find_image(self.images_view(), name@) is None,
            },
    {
        let n = self.images.len();
        let mut i: usize = 0;
        while i < n
            invariant
                0 <= i <= n,
                forall|j: int| 0 <= j < i ==> (#[trigger] self.images_view()[j]).name != name@,
            decreases n - i,
        {
            if crate::strings::str_eq(self.images[i].name.as_str(), name) {
                proof {
                    lemma_find_image_index_at(self.images_view(), name@, i as int);
                }
                let img = &self.images[i];
                return Some(
                    Image {
                        id: img.id,
                        name: img.name.clone(),
                        reference_count: img.reference_count,
                    },
                );
            }
            i += 1;
        }
        proof {
            lemma_find_image_index_none(self.images_view(), name@);
        }
        None
    }

    /// Adds a record for an image not yet present.
    pub fn create_image(&mut self, image: &Image)
        requires
            old(self).wf(),
            find_image(old(self).images_view(), image@.name) is None,
            image@.reference_count >= 0,
        ensures
            final(self).wf(),
            final(self).images_view() == old(self).images_view().push(image@),
            final(self).stacks_view() == old(self).stacks_view(),
            final(self).repos_view() == old(self).repos_view(),
    {
        proof {
            lemma_find_image_index(old(self).images_view(), image@.name);
        }
        let copy = Image {
            id: image.id,
            name: image.name.clone(),
            reference_count: image.reference_count,
        };
        self.images.push(copy);
        proof {
            assert(self.images_view() =~= old(self).images_view().push(image@));
            let v = self.images_view();
            let o = old(self).images_view();
            assert forall|a: int, b: int| 0 <= a < b < v.len() implies (#[trigger] v[a]).name != (
            #[trigger] v[b]).name by {
                if b == v.len() - 1 {
                    assert(v[a] == o[a]);
                    assert(v[b] == image@);
                }
            }
        }
    }

    /// Sets the reference count of the image named `name`; without a
    /// record for it, nothing changes.
    #[verifier::loop_isolation(false)]
    pub fn update_image_reference_count(&mut self, name: &str, new_count: i32)
        requires
            old(self).wf(),
            new_count >= 0,
        ensures
            final(self).wf(),
            final(self).stacks_view() == old(self).stacks_view(),
            final(self).repos_view() == old(self).repos_view(),
            ({
                let k = find_image_index(old(self).images_view(), name@);
                if k >= 0 {
                    final(self).images_view() == old(self).images_view().update(
                        k,
                        ImageV {
                            id: old(self).images_view()[k].id,
                            name: old(self).images_view()[k].name,
                            reference_count: new_count as int,
                        },
                    )
                } else {
                    final(self).images_view() == old(self).images_view()
                }
            }),
    {
        let n = self.images.len();
        let mut i: usize = 0;
        while i < n
            invariant
                0 <= i <= n,
                self.images@ == old(self).images@,
                self.stacks@ == old(self).stacks@,
                self.repositories@ == old(self).repositories@,
                forall|j: int| 0 <= j < i ==> (#[trigger] self.images_view()[j]).name != name@,
            decreases n - i,
        {
            if crate::strings::str_eq(self.images[i].name.as_str(), name) {
                proof {
                    lemma_find_image_index_at(self.images_view(), name@, i as int);
                }
                let updated = Image {
                    id: self.images[i].id,
                    name: self.images[i].name.clone(),
                    reference_count: new_count,
                };
                self.images[i] = updated;
                proof {
                    assert(self.images_view() =~= old(self).images_view().update(
                        i as int,
                        ImageV {
                            id: old(self).images_view()[i as int].id,
                            name: old(self).images_view()[i as int].name,
                            reference_count: new_count as int,
                        },
                    ));
                    let v = self.images_view();
                    let o = old(self).images_view();
                    assert forall|a: int, b: int|
                        0 <= a < b < v.len() implies (#[trigger] v[a]).name != (
                    #[trigger] v[b]).name by {
                        assert(v[a].name == o[a].name);
                        assert(v[b].name == o[b].name);
                    }
                    assert forall|a: int| 0 <= a < v.len() implies (#[trigger] v[a]).reference_count
                        >= 0 by {
                        if a != i as int {
                            assert(v[a] == o[a]);
                        }
                    }
                }
                return ;
            }
            i += 1;
        }
        proof {
            lemma_find_image_index_none(self.images_view(), name@);
        }
    }

    /// All image records, in insertion order.
    #[verifier::loop_isolation(false)]
    pub fn get_all_images(&self) -> (r: Vec<Image>)
        ensures
            r.deep_view() == self.images_view(),
    {
        let n = self.images.len();
        let mut out: Vec<Image> = Vec::new();
        let mut i: usize = 0;
        while i < n
            invariant
                0 <= i <= n,
                out.len() == i,
                forall|j: int| 0 <= j < i ==> #[trigger] out@[j]@ == self.images_view()[j],
            decreases n - i,
        {
            let img = &self.images[i];
            out.push(
                Image { id: img.id, name: img.name.clone(), reference_count: img.reference_count },
            );
            i += 1;
        }
        proof {
            assert(out.deep_view() =~= self.images_view());
        }
        out
    }

    /// The image records kept by the zero-count sweep: those of
    /// `s[i..]` whose count is not zero, in order.
    pub open spec fn swept(s: Seq<ImageV>, i: int) -> Seq<ImageV>
        decreases s.len() - i,
    {
        if 0 <= i < s.len() {
            let rest = Self::swept(s, i + 1);
            if s[i].reference_count != 0 {
                seq![s[i]] + rest
            } else {
                rest
            }
        } else {
            Seq::empty()
        }
    }

    /// Deletes every image record whose reference count is zero.
    #[verifier::loop_isolation(false)]
    pub fn delete_images_with_zero_count(&mut self)
        requires
            old(self).wf(),
        ensures
            final(self).wf(),
            final(self).images_view() == Self::swept(old(self).images_view(), 0),
            final(self).stacks_view() == old(self).stacks_view(),
            final(self).repos_view() == old(self).repos_view(),
    {
        let ghost s0 = old(self).images_view();
        let n = self.images.len();
        let mut kept: Vec<Image> = Vec::new();
        let mut i: usize = 0;
        let ghost mut origin: Seq<int> = Seq::empty();
        proof {
            assert(kept.deep_view() =~= Seq::<ImageV>::empty());
        }
        while i < n
            invariant
                0 <= i <= n,
                self.images@ == old(self).images@,
                kept.deep_view() + Self::swept(s0, i as int) == Self::swept(s0, 0),
                origin.len() == kept.len(),
                forall|k: int|
                    0 <= k < kept.len() ==> 0 <= #[trigger] origin[k] < i && kept.deep_view()[k]
                        == s0[origin[k]],
                forall|a: int, b: int| 0 <= a < b < origin.len() ==> origin[a] < origin[b],
            decreases n - i,
        {
            if self.images[i].reference_count != 0 {
                let img = &self.images[i];
                let ghost pre = kept.deep_view();
                kept.push(
                    Image {
                        id: img.id,
                        name: img.name.clone(),
                        reference_count: img.reference_count,
                    },
                );
                proof {
                    origin = origin.push(i as int);
                    assert(kept.deep_view() =~= pre.push(s0[i as int]));
                    assert(kept.deep_view() + Self::swept(s0, i + 1) =~= Self::swept(s0, 0));
                }
            } else {
                proof {
                    assert(Self::swept(s0, i as int) == Self::swept(s0, i + 1));
                }
            }
            i += 1;
        }
        proof {
            assert(Self::swept(s0, n as int) == Seq::<ImageV>::empty());
            assert(kept.deep_view() =~= Self::swept(s0, 0));
        }
        self.images = kept;
        proof {
            assert forall|a: int, b: int|
                0 <= a < b < self.images_view().len() implies (#[trigger] self.images_view()[a]).name
                != (#[trigger] self.images_view()[b]).name by {
                assert(self.images_view()[a] == s0[origin[a]]);
                assert(self.images_view()[b] == s0[origin[b]]);
                assert(origin[a] < origin[b]);
            }
            assert forall|a: int|
                0 <= a < self.images_view().len() implies (#[trigger] self.images_view()[a]).reference_count
                >= 0 by {
                assert(self.images_view()[a] == s0[origin[a]]);
            }
        }
    }

    // -----------------------------------------------------------------
    // Stack records
    // -----------------------------------------------------------------
    /// The stack record keyed (`name`, `repository_url`), if any.
    #[verifier::loop_isolation(false)]
    pub fn get_stack_by_name(&self, name: &str, repository_url: &str) -> (r: Option<Stack>)
        ensures
            match r {
                Some(st) => find_stack(self.stacks_view(), name@, repository_url@) == Option::Some(
                    st@,
                ),
                None => find_stack(self.stacks_view(), name@, repository_url@) is None,
            },
    {
        let n = self.stacks.len();
        let mut i: usize = 0;
        while i < n
            invariant
                0 <= i <= n,
                forall|j: int|
                    0 <= j < i ==> !((#[trigger] self.stacks_view()[j]).name == name@
                        && self.stacks_view()[j].repository_url == repository_url@),
            decreases n - i,
        {
            if crate::strings::str_eq(self.stacks[i].name.as_str(), name) && crate::strings::str_eq(
                self.stacks[i].repository_url.as_str(),
                repository_url,
            ) {
                proof {
                    lemma_find_stack_index_at(
                        self.stacks_view(),
                        name@,
                        repository_url@,
                        i as int,
                    );
                }
                let st = &self.stacks[i];
                return Some(
                    Stack {
                        id: st.id,
                        name: st.name.clone(),
                        repository_url: st.repository_url.clone(),
                        compose_path: st.compose_path.clone(),
                        hash: st.hash.clone(),
                        status: st.status.clone(),
                    },
                );
            }
            i += 1;
        }
        proof {
            lemma_find_stack_index_none(self.stacks_view(), name@, repository_url@);
        }
        None
    }

    /// Adds a record for a stack not yet present.
    pub fn create_stack(&mut self, stack: &Stack)
        requires
            old(self).wf(),
            find_stack(old(self).stacks_view(), stack@.name, stack@.repository_url) is None,
        ensures
            final(self).wf(),
            final(self).stacks_view() == old(self).stacks_view().push(stack@),
            final(self).images_view() == old(self).images_view(),
            final(self).repos_view() == old(self).repos_view(),
    {
        proof {
            lemma_find_stack_index_characterize(
                old(self).stacks_view(),
                stack@.name,
                stack@.repository_url,
            );
        }
        let copy = Stack {
            id: stack.id,
            name: stack.name.clone(),
            repository_url: stack.repository_url.clone(),
            compose_path: stack.compose_path.clone(),
            hash: stack.hash.clone(),
            status: stack.status.clone(),
        };
        self.stacks.push(copy);
        proof {
            assert(self.stacks_view() =~= old(self).stacks_view().push(stack@));
            let v = self.stacks_view();
            let o = old(self).stacks_view();
            assert forall|a: int, b: int| 0 <= a < b < v.len() implies !((#[trigger] v[a]).name
                == (#[trigger] v[b]).name && v[a].repository_url == v[b].repository_url) by {
                if b == v.len() - 1 {
                    assert(v[a] == o[a]);
                    assert(v[b] == stack@);
                }
            }
        }
    }

    /// Sets the fingerprint of the stack keyed (`name`,
    /// `repository_url`); without a record, nothing changes.
    #[verifier::loop_isolation(false)]
    pub fn update_stack_hash(&mut self, name: &str, repository_url: &str, hash: &str)
        requires
            old(self).wf(),
        ensures
            final(self).wf(),
            final(self).images_view() == old(self).images_view(),
            final(self).repos_view() == old(self).repos_view(),
            ({
                let k = find_stack_index(old(self).stacks_view(), name@, repository_url@);
                if k >= 0 {
                    final(self).stacks_view() == old(self).stacks_view().update(
                        k,
                        StackV { hash: hash@, ..old(self).stacks_view()[k] },
                    )
                } else {
                    final(self).stacks_view() == old(self).stacks_view()
                }
            }),
    {
        let n = self.stacks.len();
        let mut i: usize = 0;
        while i < n
            invariant
                0 <= i <= n,
                self.stacks@ == old(self).stacks@,
                self.images@ == old(self).images@,
                self.repositories@ == old(self).repositories@,
                forall|j: int|
                    0 <= j < i ==> !((#[trigger] self.stacks_view()[j]).name == name@
                        && self.stacks_view()[j].repository_url == repository_url@),
            decreases n - i,
        {
            if crate::strings::str_eq(self.stacks[i].name.as_str(), name) && crate::strings::str_eq(
                self.stacks[i].repository_url.as_str(),
                repository_url,
            ) {
                proof {
                    lemma_find_stack_index_at(
                        self.stacks_view(),
                        name@,
                        repository_url@,
                        i as int,
                    );
                }
                let updated = Stack {
                    id: self.stacks[i].id,
                    name: self.stacks[i].name.clone(),
                    repository_url: self.stacks[i].repository_url.clone(),
                    compose_path: self.stacks[i].compose_path.clone(),
                    hash: hash.to_owned(),
                    status: self.stacks[i].status.clone(),
                };
                self.stacks[i] = updated;
                proof {
                    assert(self.stacks_view() =~= old(self).stacks_view().update(
                        i as int,
                        StackV { hash: hash@, ..old(self).stacks_view()[i as int] },
                    ));
                    let v = self.stacks_view();
                    let o = old(self).stacks_view();
                    assert forall|a: int, b: int|
                        0 <= a < b < v.len() implies !((#[trigger] v[a]).name == (
                    #[trigger] v[b]).name && v[a].repository_url == v[b].repository_url) by {
                        assert(v[a].name == o[a].name && v[a].repository_url == o[a].repository_url);
                        assert(v[b].name == o[b].name && v[b].repository_url == o[b].repository_url);
                    }
                }
                return ;
            }
            i += 1;
        }
        proof {
            lemma_find_stack_index_none(self.stacks_view(), name@, repository_url@);
        }
    }

    /// Sets the status of the stack keyed (`name`, `repository_url`);
    /// without a record, nothing changes.
    #[verifier::loop_isolation(false)]
    pub fn update_stack_status(&mut self, name: &str, repository_url: &str, status: &str)
        requires
            old(self).wf(),
        ensures
            final(self).wf(),
            final(self).images_view() == old(self).images_view(),
            final(self).repos_view() == old(self).repos_view(),
            ({
                let k = find_stack_index(old(self).stacks_view(), name@, repository_url@);
                if k >= 0 {
                    final(self).stacks_view() == old(self).stacks_view().update(
                        k,
                        StackV { status: status@, ..old(self).stacks_view()[k] },
                    )
                } else {
                    final(self).stacks_view() == old(self).stacks_view()
                }
            }),
    {
        let n = self.stacks.len();
        let mut i: usize = 0;
        while i < n
            invariant
                0 <= i <= n,
                self.stacks@ == old(self).stacks@,
                self.images@ == old(self).images@,
                self.repositories@ == old(self).repositories@,
                forall|j: int|
                    0 <= j < i ==> !((#[trigger] self.stacks_view()[j]).name == name@
                        && self.stacks_view()[j].repository_url == repository_url@),
            decreases n - i,
        {
            if crate::strings::str_eq(self.stacks[i].name.as_str(), name) && crate::strings::str_eq(
                self.stacks[i].repository_url.as_str(),
                repository_url,
            ) {
                proof {
                    lemma_find_stack_index_at(
                        self.stacks_view(),
                        name@,
                        repository_url@,
                        i as int,
                    );
                }
                let updated = Stack {
                    id: self.stacks[i].id,
                    name: self.stacks[i].name.clone(),
                    repository_url: self.stacks[i].repository_url.clone(),
                    compose_path: self.stacks[i].compose_path.clone(),
                    hash: self.stacks[i].hash.clone(),
                    status: status.to_owned(),
                };
                self.stacks[i] = updated;
                proof {
                    assert(self.stacks_view() =~= old(self).stacks_view().update(
                        i as int,
                        StackV { status: status@, ..old(self).stacks_view()[i as int] },
                    ));
                    let v = self.stacks_view();
                    let o = old(self).stacks_view();
                    assert forall|a: int, b: int|
                        0 <= a < b < v.len() implies !((#[trigger] v[a]).name == (
                    #[trigger] v[b]).name && v[a].repository_url == v[b].repository_url) by {
                        assert(v[a].name == o[a].name && v[a].repository_url == o[a].repository_url);
                        assert(v[b].name == o[b].name && v[b].repository_url == o[b].repository_url);
                    }
                }
                return ;
            }
            i += 1;
        }
        proof {
            lemma_find_stack_index_none(self.stacks_view(), name@, repository_url@);
        }
    }

    /// All stack records, in insertion order.
    #[verifier::loop_isolation(false)]
    pub fn get_all_stacks(&self) -> (r: Vec<Stack>)
        ensures
            r.deep_view() == self.stacks_view(),
    {
        let n = self.stacks.len();
        let mut out: Vec<Stack> = Vec::new();
        let mut i: usize = 0;
        while i < n
            invariant
                0 <= i <= n,
                out.len() == i,
                forall|j: int| 0 <= j < i ==> #[trigger] out@[j]@ == self.stacks_view()[j],
            decreases n - i,
        {
            let st = &self.stacks[i];
            out.push(
                Stack {
                    id: st.id,
                    name: st.name.clone(),
                    repository_url: st.repository_url.clone(),
                    compose_path: st.compose_path.clone(),
                    hash: st.hash.clone(),
                    status: st.status.clone(),
                },
            );
            i += 1;
        }
        proof {
            assert(out.deep_view() =~= self.stacks_view());
        }
        out
    }

    /// Deletes every stack record: full teardown.
    pub fn delete_all_stacks(&mut self)
        requires
            old(self).wf(),
        ensures
            final(self).wf(),
            final(self).stacks_view() == Seq::<StackV>::empty(),
            final(self).images_view() == old(self).images_view(),
            final(self).repos_view() == old(self).repos_view(),
    {
        self.stacks = Vec::new();
        proof {
            assert(self.stacks_view() =~= Seq::<StackV>::empty());
        }
    }

    // -----------------------------------------------------------------
    // Repository cache
    // -----------------------------------------------------------------
    /// The cache record for `url`, if any.
    #[verifier::loop_isolation(false)]
    pub fn get_repository_from_cache(&self, url: &str) -> (r: Option<RepositoryCache>)
        ensures
            match r {
                Some(c) => find_repo(self.repos_view(), url@) == Option::Some(c@),
                None => find_repo(self.repos_view(), url@) is None,
            },
    {
        let n = self.repositories.len();
        let mut i: usize = 0;
        while i < n
            invariant
                0 <= i <= n,
                forall|j: int| 0 <= j < i ==> (#[trigger] self.repos_view()[j]).url != url@,
            decreases n - i,
        {
            if crate::strings::str_eq(self.repositories[i].url.as_str(), url) {
                proof {
                    lemma_find_repo_index_at(self.repos_view(), url@, i as int);
                }
                let c = &self.repositories[i];
                return Some(
                    RepositoryCache { id: c.id, url: c.url.clone(), last_watch: c.last_watch.clone() },
                );
            }
            i += 1;
        }
        proof {
            lemma_find_repo_index_none(self.repos_view(), url@);
        }
        None
    }

    /// Caches a repository not yet watched, with the given timestamp.
    pub fn add_repository_to_cache(&mut self, url: &str, last_watch: &str)
        requires
            old(self).wf(),
            find_repo(old(self).repos_view(), url@) is None,
        ensures
            final(self).wf(),
            final(self).repos_view() == old(self).repos_view().push(
                RepositoryCacheV { id: 0, url: url@, last_watch: last_watch@ },
            ),
            final(self).stacks_view() == old(self).stacks_view(),
            final(self).images_view() == old(self).images_view(),
    {
        proof {
            lemma_find_repo_index_characterize(old(self).repos_view(), url@);
        }
        self.repositories.push(
            RepositoryCache { id: 0, url: url.to_owned(), last_watch: last_watch.to_owned() },
        );
        proof {
            assert(self.repos_view() =~= old(self).repos_view().push(
                RepositoryCacheV { id: 0, url: url@, last_watch: last_watch@ },
            ));
            let v = self.repos_view();
            let o = old(self).repos_view();
            assert forall|a: int, b: int| 0 <= a < b < v.len() implies (#[trigger] v[a]).url != (
            #[trigger] v[b]).url by {
                if b == v.len() - 1 {
                    assert(v[a] == o[a]);
                }
            }
        }
    }

    /// All cache records, in insertion order.
    #[verifier::loop_isolation(false)]
    pub fn get_all_repositories(&self) -> (r: Vec<RepositoryCache>)
        ensures
            r.deep_view() == self.repos_view(),
    {
        let n = self.repositories.len();
        let mut out: Vec<RepositoryCache> = Vec::new();
        let mut i: usize = 0;
        while i < n
            invariant
                0 <= i <= n,
                out.len() == i,
                forall|j: int| 0 <= j < i ==> #[trigger] out@[j]@ == self.repos_view()[j],
            decreases n - i,
        {
            let c = &self.repositories[i];
            out.push(
                RepositoryCache { id: c.id, url: c.url.clone(), last_watch: c.last_watch.clone() },
            );
            i += 1;
        }
        proof {
            assert(out.deep_view() =~= self.repos_view());
        }
        out
    }

    /// Empties the repository cache: full teardown.
    pub fn clear_repository_cache(&mut self)
        requires
            old(self).wf(),
        ensures
            final(self).wf(),
            final(self).repos_view() == Seq::<RepositoryCacheV>::empty(),
            final(self).stacks_view() == old(self).stacks_view(),
            final(self).images_view() == old(self).images_view(),
    {
        self.repositories = Vec::new();
        proof {
            assert(self.repos_view() =~= Seq::<RepositoryCacheV>::empty());
        }
    }
}

// The missing-key direction of the stack lookup, for creation.
proof fn lemma_find_stack_index_characterize(s: Seq<StackV>, name: Seq<char>, url: Seq<char>)
    requires
        find_stack(s, name, url) is None,
    ensures
        forall|j: int|
            0 <= j < s.len() ==> !((#[trigger] s[j]).name == name && s[j].repository_url == url),
    decreases s.len(),
{
    if s.len() > 0 {
        assert(!(s[0].name == name && s[0].repository_url == url));
        assert(find_stack(s.drop_first(), name, url) is None) by {
            lemma_find_stack_drop(s, name, url);
        }
        lemma_find_stack_index_characterize(s.drop_first(), name, url);
        assert forall|j: int|
            0 <= j < s.len() implies !((#[trigger] s[j]).name == name && s[j].repository_url
            == url) by {
            if j >= 1 {
                assert(s[j] == s.drop_first()[j - 1]);
            }
        }
    }
}

proof fn lemma_find_stack_drop(s: Seq<StackV>, name: Seq<char>, url: Seq<char>)
    requires
        s.len() > 0,
        !(s[0].name == name && s[0].repository_url == url),
    ensures
        find_stack(s, name, url) == find_stack(s.drop_first(), name, url),
{
}

// The missing-key direction of the cache lookup, for insertion.
proof fn lemma_find_repo_index_characterize(s: Seq<RepositoryCacheV>, url: Seq<char>)
    requires
        find_repo(s, url) is None,
    ensures
        forall|j: int| 0 <= j < s.len() ==> (#[trigger] s[j]).url != url,
    decreases s.len(),
{
    if s.len() > 0 {
        assert(s[0].url != url);
        lemma_find_repo_index_characterize(s.drop_first(), url);
        assert forall|j: int| 0 <= j < s.len() implies (#[trigger] s[j]).url != url by {
            if j >= 1 {
                assert(s[j] == s.drop_first()[j - 1]);
            }
        }
    }
}

} // verus!
