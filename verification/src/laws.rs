//! The engine's cross-function laws, stated and proved over the same
//! spec functions its contracts use.

use vstd::prelude::*;
use crate::engine::{decision_actions, inc_all, inc_image, outcome_transform_ok, spec_decide,
    ActionV, DeployDecision, StackInput, StackOutcome};
use crate::models::{ImageV, StackV, VolumeDefinitionV};
use crate::store::{find_image, find_image_index, image_count, images_distinct, counts_nonneg,
    lemma_find_image_index, lemma_find_image_index_at, Store};

verus! {

/// How many of `images[i..]` are `name`.
pub open spec fn count_occurrences(images: Seq<Seq<char>>, i: int, name: Seq<char>) -> int
    decreases images.len() - i,
{
    if 0 <= i < images.len() {
        (if images[i] == name {
            1int
        } else {
            0int
        }) + count_occurrences(images, i + 1, name)
    } else {
        0
    }
}

// Occurrence counts are never negative.
proof fn lemma_count_occurrences_nonneg(images: Seq<Seq<char>>, i: int, name: Seq<char>)
    ensures
        count_occurrences(images, i, name) >= 0,
    decreases images.len() - i,
{
    if 0 <= i < images.len() {
        lemma_count_occurrences_nonneg(images, i + 1, name);
    }
}

// Equal names at equal positions give equal lookup indices.
proof fn lemma_find_index_same_names(s1: Seq<ImageV>, s2: Seq<ImageV>, name: Seq<char>)
    requires
        s1.len() == s2.len(),
        forall|j: int| 0 <= j < s1.len() ==> (#[trigger] s1[j]).name == (#[trigger] s2[j]).name,
    ensures
        find_image_index(s1, name) == find_image_index(s2, name),
    decreases s1.len(),
{
    if s1.len() > 0 {
        if s1[0].name != name {
            assert(forall|j: int|
                0 <= j < s1.len() - 1 ==> #[trigger] s1.drop_first()[j] == s1[j + 1]);
            assert(forall|j: int|
                0 <= j < s2.len() - 1 ==> #[trigger] s2.drop_first()[j] == s2[j + 1]);
            lemma_find_index_same_names(s1.drop_first(), s2.drop_first(), name);
        }
    }
}

// Looking up in a sequence with one record appended.
proof fn lemma_find_index_push(s: Seq<ImageV>, x: ImageV, name: Seq<char>)
    ensures
        find_image_index(s, name) >= 0 ==> find_image_index(s.push(x), name) == find_image_index(
            s,
            name,
        ),
        find_image_index(s, name) < 0 && x.name == name ==> find_image_index(s.push(x), name)
            == s.len(),
        find_image_index(s, name) < 0 && x.name != name ==> find_image_index(s.push(x), name) < 0,
    decreases s.len(),
{
    if s.len() == 0 {
        assert(s.push(x)[0] == x);
        if x.name != name {
            assert(s.push(x).drop_first() =~= Seq::<ImageV>::empty());
            assert(find_image_index(Seq::<ImageV>::empty(), name) == -1);
            assert(find_image_index(s.push(x), name) == -1);
        }
    } else {
        assert(s.push(x)[0] == s[0]);
        if s[0].name != name {
            assert(s.push(x).drop_first() =~= s.drop_first().push(x));
            lemma_find_index_push(s.drop_first(), x, name);
            assert(find_image_index(s.push(x), name) == (if find_image_index(
                s.drop_first().push(x),
                name,
            ) < 0 {
                -1
            } else {
                find_image_index(s.drop_first().push(x), name) + 1
            }));
        }
    }
}

// One counted occurrence changes exactly the occurring image's count,
// by one (up to the counter's ceiling), and keeps the records well
// formed.
proof fn lemma_inc_image_count(s: Seq<ImageV>, m: Seq<char>, name: Seq<char>)
    requires
        images_distinct(s),
        counts_nonneg(s),
    ensures
        images_distinct(inc_image(s, m)),
        counts_nonneg(inc_image(s, m)),
        m == name ==> image_count(inc_image(s, m), name) == (if image_count(s, name)
            < i32::MAX as int {
            image_count(s, name) + 1
        } else {
            image_count(s, name)
        }),
        m != name ==> image_count(inc_image(s, m), name) == image_count(s, name),
{
    lemma_find_image_index(s, m);
    let k = find_image_index(s, m);
    if 0 <= k < s.len() {
        let s2 = inc_image(s, m);
        assert(s2.len() == s.len());
        assert(forall|j: int| 0 <= j < s.len() ==> (#[trigger] s2[j]).name == (#[trigger] s[j]).name);
        lemma_find_index_same_names(s, s2, name);
        lemma_find_index_same_names(s, s2, m);
        assert(images_distinct(s2));
        assert(counts_nonneg(s2)) by {
            assert(forall|j: int|
                0 <= j < s2.len() && j != k ==> (#[trigger] s2[j]).reference_count == s[
                    j
                ].reference_count);
        }
        if m == name {
            assert(image_count(s, m) == s[k].reference_count);
            assert(s2[k].reference_count == (if s[k].reference_count < i32::MAX as int {
                s[k].reference_count + 1
            } else {
                s[k].reference_count
            }));
        } else {
            lemma_find_image_index(s, name);
            let kn = find_image_index(s, name);
            if 0 <= kn < s.len() {
                assert(kn != k);
                assert(s2[kn] == s[kn]);
            }
        }
    } else {
        let x = ImageV { id: 0, name: m, reference_count: 1 };
        let s2 = s.push(x);
        lemma_find_index_push(s, x, name);
        lemma_find_index_push(s, x, m);
        assert(images_distinct(s2)) by {
            assert(forall|j: int| 0 <= j < s.len() ==> (#[trigger] s[j]).name != m);
            assert forall|a: int, b: int| 0 <= a < b < s2.len() implies (#[trigger] s2[a]).name
                != (#[trigger] s2[b]).name by {
                if b == s2.len() - 1 {
                    assert(s2[a] == s[a]);
                } else {
                    assert(s2[a] == s[a] && s2[b] == s[b]);
                }
            }
        }
        assert(counts_nonneg(s2)) by {
            assert(forall|j: int| 0 <= j < s.len() ==> #[trigger] s2[j] == s[j]);
            assert(s2[s.len() as int] == x);
        }
        if m == name {
            assert(image_count(s, name) == 0);
            assert(s2[s.len() as int] == x);
            assert(image_count(s2, name) == 1);
        } else {
            lemma_find_image_index(s, name);
            let kn = find_image_index(s, name);
            if 0 <= kn < s.len() {
                assert(s2[kn] == s[kn]);
            }
        }
    }
}

// Counting a batch of occurrences adds exactly the occurrence count, as
// long as the total stays below the counter's ceiling.
proof fn lemma_inc_all_count(s: Seq<ImageV>, images: Seq<Seq<char>>, i: int, name: Seq<char>)
    requires
        images_distinct(s),
        counts_nonneg(s),
        0 <= image_count(s, name),
        image_count(s, name) + count_occurrences(images, i, name) <= i32::MAX as int,
    ensures
        images_distinct(inc_all(s, images, i)),
        counts_nonneg(inc_all(s, images, i)),
        image_count(inc_all(s, images, i), name) == image_count(s, name) + count_occurrences(
            images,
            i,
            name,
        ),
    decreases images.len() - i,
{
    if 0 <= i < images.len() {
        let s2 = inc_image(s, images[i]);
        lemma_inc_image_count(s, images[i], name);
        lemma_count_occurrences_nonneg(images, i + 1, name);
        if images[i] == name {
            assert(image_count(s, name) < i32::MAX as int);
        }
        assert(0 <= image_count(s2, name)) by {
            lemma_find_image_index(s2, name);
            let kn = find_image_index(s2, name);
            if 0 <= kn < s2.len() {
                assert(s2[kn].reference_count >= 0);
            }
        }
        lemma_inc_all_count(s2, images, i + 1, name);
    }
}

/// Reference counting over a reconciliation scope: starting from reset
/// (all-zero) counts, counting every image occurrence of the scope's
/// manifests leaves each image's recorded count equal to its number of
/// occurrences — an image not referenced at all stays at zero. (Counts
/// beyond the counter type's maximum are excluded; the counter would
/// saturate there.)
pub proof fn lemma_reference_counts_after_pass(
    s: Seq<ImageV>,
    images: Seq<Seq<char>>,
    name: Seq<char>,
)
    requires
        images_distinct(s),
        forall|j: int| 0 <= j < s.len() ==> (#[trigger] s[j]).reference_count == 0,
        count_occurrences(images, 0, name) <= i32::MAX as int,
    ensures
        image_count(inc_all(s, images, 0), name) == count_occurrences(images, 0, name),
{
    assert(image_count(s, name) == 0) by {
        lemma_find_image_index(s, name);
        let kn = find_image_index(s, name);
        if 0 <= kn < s.len() {
            assert(s[kn].reference_count == 0);
        }
    }
    lemma_inc_all_count(s, images, 0, name);
}

/// The zero-count sweep removes every image whose recorded count is
/// zero — including one whose record predates the pass but was not
/// referenced by it.
pub proof fn lemma_sweep_removes_unreferenced(s: Seq<ImageV>, name: Seq<char>)
    requires
        images_distinct(s),
        image_count(s, name) == 0,
    ensures
        find_image(Store::swept(s, 0), name) is None,
{
    assert forall|j: int| 0 <= j < s.len() && (#[trigger] s[j]).name == name implies s[
        j
    ].reference_count == 0 by {
        lemma_find_image_index_at(s, name, j);
    }
    lemma_swept_zero(s, 0, name);
}

// Sweeping a suffix in which every record of this name has count zero
// leaves no record of the name.
proof fn lemma_swept_zero(s: Seq<ImageV>, i: int, name: Seq<char>)
    requires
        forall|j: int|
            i <= j < s.len() && (#[trigger] s[j]).name == name ==> s[j].reference_count == 0,
    ensures
        find_image(Store::swept(s, i), name) is None,
        find_image_index(Store::swept(s, i), name) < 0,
    decreases s.len() - i,
{
    if 0 <= i < s.len() {
        lemma_swept_zero(s, i + 1, name);
        if s[i].reference_count != 0 {
            let w = Store::swept(s, i);
            assert(w == seq![s[i]] + Store::swept(s, i + 1));
            assert(w[0] == s[i]);
            assert(s[i].name != name);
            assert(w.drop_first() =~= Store::swept(s, i + 1));
        }
    }
}

/// The zero-count sweep keeps every referenced image, with its count
/// untouched.
pub proof fn lemma_sweep_keeps_referenced(s: Seq<ImageV>, name: Seq<char>)
    requires
        images_distinct(s),
        image_count(s, name) != 0,
    ensures
        find_image(Store::swept(s, 0), name) == find_image(s, name),
        image_count(Store::swept(s, 0), name) == image_count(s, name),
{
    lemma_find_image_index(s, name);
    let k = find_image_index(s, name);
    assert(0 <= k < s.len());
    assert(s[k].reference_count != 0);
    lemma_swept_keeps(s, 0, name, k);
}

// The unique nonzero-count record of a name survives sweeping any prefix
// of the records before it.
proof fn lemma_swept_keeps(s: Seq<ImageV>, i: int, name: Seq<char>, j: int)
    requires
        images_distinct(s),
        0 <= i <= j < s.len(),
        s[j].name == name,
        s[j].reference_count != 0,
    ensures
        find_image(Store::swept(s, i), name) == Option::Some(s[j]),
    decreases s.len() - i,
{
    let w = Store::swept(s, i);
    if j == i {
        assert(w == seq![s[i]] + Store::swept(s, i + 1));
        assert(w[0] == s[i]);
        assert(find_image_index(w, name) == 0);
    } else {
        lemma_swept_keeps(s, i + 1, name, j);
        if s[i].reference_count != 0 {
            assert(w == seq![s[i]] + Store::swept(s, i + 1));
            assert(w[0] == s[i]);
            assert(s[i].name != name);
            assert(w.drop_first() =~= Store::swept(s, i + 1));
            let rest = Store::swept(s, i + 1);
            assert(find_image(rest, name) == Option::Some(s[j]));
            let ri = find_image_index(rest, name);
            assert(0 <= ri < rest.len());
            assert(find_image_index(w, name) == ri + 1);
            assert(w[ri + 1] == rest[ri]);
        }
    }
}

/// Fingerprint stability: two processed outcomes of the same raw
/// manifest, volume configuration and secret manifest carry the same
/// transformed text and the same fingerprint. (That different manifest
/// bytes give different fingerprints is a property of the hash and is
/// checked on concrete values, not proved.)
pub proof fn lemma_fingerprint_stable(
    o1: StackOutcome,
    o2: StackOutcome,
    input: StackInput,
    vols: Option<(Seq<VolumeDefinitionV>, Seq<char>)>,
)
    requires
        outcome_transform_ok(o1, input, vols),
        outcome_transform_ok(o2, input, vols),
        o1 is Processed,
        o2 is Processed,
    ensures
        o1->Processed_0.transformed_text@ == o2->Processed_0.transformed_text@,
        o1->Processed_0.fingerprint@ == o2->Processed_0.fingerprint@,
{
}

/// The deploy decision table, as one law: no record means create and
/// deploy; an unchanged fingerprint on an unforced run means no work; a
/// changed fingerprint or a forced run means redeploy, stopping the
/// running stack first exactly on a reconcile pass.
pub proof fn lemma_deploy_decision_table(
    existing: Option<StackV>,
    fingerprint: Seq<char>,
    force: bool,
    is_reconcile: bool,
)
    ensures
        existing is None ==> spec_decide(existing, fingerprint, force, is_reconcile)
            == DeployDecision::CreateAndDeploy,
        (existing matches Option::Some(s) && s.hash == fingerprint && !force) ==> spec_decide(
            existing,
            fingerprint,
            force,
            is_reconcile,
        ) == DeployDecision::Skip,
        (existing matches Option::Some(s) && (s.hash != fingerprint || force)) ==> spec_decide(
            existing,
            fingerprint,
            force,
            is_reconcile,
        ) == (DeployDecision::Redeploy { stop_first: is_reconcile }),
{
}

/// A reconciliation pass without force over an unchanged manifest is
/// quiet: the decision for a stack whose recorded fingerprint equals the
/// transformed manifest's fingerprint is a skip, and a skip performs no
/// orchestrator action at all — while the pass still counts every image
/// occurrence of the manifest (the counting of
/// [`crate::engine::StackProcessor::finish_stack`] is unconditional).
pub proof fn lemma_unchanged_unforced_pass_is_quiet(
    existing: StackV,
    fingerprint: Seq<char>,
    is_reconcile: bool,
    name: Seq<char>,
    compose_path: Seq<char>,
    images: Seq<Seq<char>>,
)
    requires
        existing.hash == fingerprint,
    ensures
        spec_decide(Option::Some(existing), fingerprint, false, is_reconcile)
            == DeployDecision::Skip,
        decision_actions(DeployDecision::Skip, name, compose_path, images) == Seq::<
            ActionV,
        >::empty(),
{
}

} // verus!
