//! The manifest transformer: image extraction, volume-entry rewriting and
//! secret-delivery injection over compose-style documents.

use vstd::prelude::*;
use crate::doc::{Doc, DocV, view_list, view_entries, lemma_view_list_props, lemma_view_entries_props};
use crate::errors::EngineError;
use crate::models::{VolumeDefinition, VolumeDefinitionV, VolumeType};
use crate::models::SecretDefinition;
use crate::strings::{split_at_char, split_str_at_char, str_eq, contains_char, lemma_split_pieces_free, lemma_split_single, lemma_split_prepend};
use crate::yaml::{parse_yaml, emit_yaml, yaml_doc_of, yaml_text_of};

verus! {

/// Processor for compose-style manifest documents.
pub struct ComposeProcessor;

// ---------------------------------------------------------------------
// Image extraction
// ---------------------------------------------------------------------
/// Every string value standing under a mapping key literally named
/// `image`, in document order. A non-string value under an `image` key
/// contributes nothing and is not descended into; keys are never
/// descended into.
pub open spec fn images_of(d: DocV) -> Seq<Seq<char>>
    decreases d, 2int,
{
    match d {
        DocV::List(items) => images_of_list(items, 0),
        DocV::Dict(entries) => images_of_entries(entries, 0),
        _ => Seq::empty(),
    }
}

/// The images of `items[i..]`, in order.
pub open spec fn images_of_list(items: Seq<DocV>, i: int) -> Seq<Seq<char>>
    decreases items, 3int, items.len() - i,
{
    if 0 <= i < items.len() {
        images_of(items[i]) + images_of_list(items, i + 1)
    } else {
        Seq::empty()
    }
}

/// The images of the entries `entries[i..]`, in order.
pub open spec fn images_of_entries(entries: Seq<(DocV, DocV)>, i: int) -> Seq<Seq<char>>
    decreases entries, 3int, entries.len() - i,
{
    if 0 <= i < entries.len() {
        images_of_entry(entries[i]) + images_of_entries(entries, i + 1)
    } else {
        Seq::empty()
    }
}

/// What one mapping entry contributes: under an `image` key, the value
/// when it is a non-empty string and nothing otherwise; under any other
/// key, the images of the value.
pub open spec fn images_of_entry(e: (DocV, DocV)) -> Seq<Seq<char>>
    decreases e, 3int,
{
    if e.0 == DocV::Str("image"@) {
        match e.1 {
            DocV::Str(s) => if s.len() > 0 {
                seq![s]
            } else {
                Seq::empty()
            },
            _ => Seq::empty(),
        }
    } else {
        images_of(e.1)
    }
}

/// Appends the images of `d` to `out`, in document order.
#[verifier::loop_isolation(false)]
fn collect_images(d: &Doc, out: &mut Vec<String>)
    ensures
        final(out).deep_view() == old(out).deep_view() + images_of(d@),
    decreases d,
{
    match d {
        Doc::List(items) => {
            let ghost vl = view_list(items@);
            proof {
                lemma_view_list_props(items@);
            }
            let n = items.len();
            let mut i: usize = 0;
            while i < n
                invariant
                    0 <= i <= n,
                    out.deep_view() + images_of_list(vl, i as int) == old(out).deep_view()
                        + images_of_list(vl, 0),
                decreases n - i,
            {
                proof {
                    assert(decreases_to!(*items => items@));
                    assert(decreases_to!(items@ => items@[i as int]));
                }
                collect_images(&items[i], out);
                proof {
                    assert(images_of_list(vl, i as int) == images_of(vl[i as int])
                        + images_of_list(vl, i + 1));
                    assert(out.deep_view() + images_of_list(vl, i + 1) =~= old(out).deep_view()
                        + images_of_list(vl, 0));
                }
                i += 1;
            }
            proof {
                assert(images_of_list(vl, n as int) == Seq::<Seq<char>>::empty());
                assert(out.deep_view() =~= old(out).deep_view() + images_of(d@));
            }
        },
        Doc::Dict(entries) => {
            let ghost ve = view_entries(entries@);
            proof {
                lemma_view_entries_props(entries@);
            }
            let n = entries.len();
            let mut i: usize = 0;
            while i < n
                invariant
                    0 <= i <= n,
                    out.deep_view() + images_of_entries(ve, i as int) == old(out).deep_view()
                        + images_of_entries(ve, 0),
                decreases n - i,
            {
                let ghost pre = out.deep_view();
                let key_is_image = entries[i].0.is_str("image");
                if key_is_image {
                    match &entries[i].1 {
                        Doc::Str(s) => {
                            if s.unicode_len() > 0 {
                                out.push(s.clone());
                                proof {
                                    assert(out.deep_view() =~= pre.push(s@));
                                }
                            }
                        },
                        _ => {},
                    }
                    proof {
                        assert(out.deep_view() =~= pre + images_of_entry(ve[i as int]));
                    }
                } else {
                    proof {
                        assert(decreases_to!(*entries => entries@));
                        assert(decreases_to!(entries@ => entries@[i as int]));
                        assert(decreases_to!(entries@[i as int] => entries@[i as int].1));
                    }
                    collect_images(&entries[i].1, out);
                    proof {
                        assert(ve[i as int].0 != DocV::Str("image"@));
                        assert(images_of_entry(ve[i as int]) == images_of(entries@[i as int].1@));
                    }
                }
                proof {
                    assert(images_of_entries(ve, i as int) == images_of_entry(ve[i as int])
                        + images_of_entries(ve, i + 1));
                    assert(out.deep_view() + images_of_entries(ve, i + 1) =~= old(out).deep_view()
                        + images_of_entries(ve, 0));
                }
                i += 1;
            }
            proof {
                assert(images_of_entries(ve, n as int) == Seq::<Seq<char>>::empty());
                assert(out.deep_view() =~= old(out).deep_view() + images_of(d@));
            }
        },
        _ => {
            proof {
                assert(out.deep_view() =~= old(out).deep_view() + images_of(d@));
            }
        },
    }
}

impl ComposeProcessor {
    /// Extracts every image reference from a manifest text: parses it and
    /// collects, in document order and with duplicates kept, each string
    /// value under a key literally named `image`. Fails exactly when the
    /// text is not well-formed.
    pub fn extract_images(content: &str) -> (r: Result<Vec<String>, EngineError>)
        ensures
            match r {
                Ok(images) => yaml_doc_of(content@) is Some && images.deep_view() == images_of(
                    yaml_doc_of(content@)->Some_0,
                ),
                Err(e) => yaml_doc_of(content@) is None && e is Parse,
            },
    {
        let doc = match parse_yaml(content) {
            Ok(d) => d,
            Err(e) => {
                return Err(e);
            },
        };
        let mut images: Vec<String> = Vec::new();
        collect_images(&doc, &mut images);
        proof {
            assert(images.deep_view() =~= images_of(doc@));
        }
        Ok(images)
    }
}

// ---------------------------------------------------------------------
// Volume rewriting
// ---------------------------------------------------------------------
/// The first volume definition whose id is `id`.
pub open spec fn find_def(defs: Seq<VolumeDefinitionV>, id: Seq<char>) -> Option<VolumeDefinitionV>
    decreases defs.len(),
{
    if defs.len() == 0 {
        Option::None
    } else if defs[0].id == id {
        Option::Some(defs[0])
    } else {
        find_def(defs.drop_first(), id)
    }
}

/// How `root` and `p` are joined as filesystem paths: an absolute `p`
/// stands alone; otherwise the two are separated by exactly one `/`.
pub open spec fn join_path(root: Seq<char>, p: Seq<char>) -> Seq<char> {
    if p.len() > 0 && p[0] == '/' {
        p
    } else if root.len() == 0 {
        p
    } else if root[root.len() - 1] == '/' {
        root + p
    } else {
        root + seq!['/'] + p
    }
}

/// What a matched volume entry's left-hand side is rewritten to: the
/// definition's path for a named volume, the shared-storage destination
/// for a binding.
pub open spec fn resolved_lhs(def: VolumeDefinitionV, root: Seq<char>) -> Seq<char> {
    match def.kind {
        VolumeType::Volume => def.path,
        VolumeType::Binding => join_path(root, def.path),
    }
}

/// One volume entry string, rewritten. An entry of the form
/// `id:containerPath[:options]` whose id matches a definition has its
/// left-hand side replaced by the resolved path; empty options are
/// dropped; everything else is left unchanged.
pub open spec fn rewrite_entry(s: Seq<char>, defs: Seq<VolumeDefinitionV>, root: Seq<char>) -> Seq<
    char,
> {
    let parts = split_at_char(s, ':');
    if 2 <= parts.len() <= 3 {
        match find_def(defs, parts[0]) {
            Option::Some(def) => {
                let lhs = resolved_lhs(def, root);
                if parts.len() == 3 && parts[2].len() > 0 {
                    lhs + seq![':'] + parts[1] + seq![':'] + parts[2]
                } else {
                    lhs + seq![':'] + parts[1]
                }
            },
            Option::None => s,
        }
    } else {
        s
    }
}

/// One item of a service's volume list: string entries are rewritten,
/// any other node is kept.
pub open spec fn rewrite_item(it: DocV, defs: Seq<VolumeDefinitionV>, root: Seq<char>) -> DocV {
    match it {
        DocV::Str(s) => DocV::Str(rewrite_entry(s, defs, root)),
        _ => it,
    }
}

/// A service's `volumes` value: each entry of a list is rewritten; a
/// non-list value is kept.
pub open spec fn rewrite_volumes_value(
    v: DocV,
    defs: Seq<VolumeDefinitionV>,
    root: Seq<char>,
) -> DocV {
    match v {
        DocV::List(items) => DocV::List(items.map_values(|it: DocV| rewrite_item(it, defs, root))),
        _ => v,
    }
}

/// One service: its `volumes` entries are rewritten, everything else is
/// kept; a non-mapping service is kept.
pub open spec fn rewrite_service(sv: DocV, defs: Seq<VolumeDefinitionV>, root: Seq<char>) -> DocV {
    match sv {
        DocV::Dict(es) => DocV::Dict(
            es.map_values(
                |e: (DocV, DocV)|
                    if e.0 == DocV::Str("volumes"@) {
                        (e.0, rewrite_volumes_value(e.1, defs, root))
                    } else {
                        e
                    },
            ),
        ),
        _ => sv,
    }
}

/// The `services` section: every service is rewritten; a non-mapping
/// section is kept.
pub open spec fn rewrite_services_value(
    v: DocV,
    defs: Seq<VolumeDefinitionV>,
    root: Seq<char>,
) -> DocV {
    match v {
        DocV::Dict(svcs) => DocV::Dict(
            svcs.map_values(|e: (DocV, DocV)| (e.0, rewrite_service(e.1, defs, root))),
        ),
        _ => v,
    }
}

/// The top-level entries with every `services` value rewritten.
pub open spec fn rewrite_top_entries(
    es: Seq<(DocV, DocV)>,
    defs: Seq<VolumeDefinitionV>,
    root: Seq<char>,
) -> Seq<(DocV, DocV)> {
    es.map_values(
        |e: (DocV, DocV)|
            if e.0 == DocV::Str("services"@) {
                (e.0, rewrite_services_value(e.1, defs, root))
            } else {
                e
            },
    )
}

/// The value of the first entry keyed `k`.
pub open spec fn dict_find(es: Seq<(DocV, DocV)>, k: DocV) -> Option<DocV>
    decreases es.len(),
{
    if es.len() == 0 {
        Option::None
    } else if es[0].0 == k {
        Option::Some(es[0].1)
    } else {
        dict_find(es.drop_first(), k)
    }
}

/// Sets key `k` to `v`: every entry already keyed `k` takes the value
/// `v` in place; a missing key is appended.
pub open spec fn dict_set(es: Seq<(DocV, DocV)>, k: DocV, v: DocV) -> Seq<(DocV, DocV)> {
    if dict_find(es, k) is Some {
        es.map_values(
            |e: (DocV, DocV)|
                if e.0 == k {
                    (e.0, v)
                } else {
                    e
                },
        )
    } else {
        es.push((k, v))
    }
}

/// The declaration a named volume gets in the top-level `volumes`
/// section.
pub open spec fn local_driver_decl() -> DocV {
    DocV::Dict(seq![(DocV::Str("driver"@), DocV::Str("local"@))])
}

/// The `volumes`-section entries after declaring `defs[i..]`: each named
/// volume definition is set to a local-driver declaration; bindings are
/// never declared.
pub open spec fn add_named_defs(
    es: Seq<(DocV, DocV)>,
    defs: Seq<VolumeDefinitionV>,
    i: int,
) -> Seq<(DocV, DocV)>
    decreases defs.len() - i,
{
    if 0 <= i < defs.len() {
        let next = if defs[i].kind == VolumeType::Volume {
            dict_set(es, DocV::Str(defs[i].id), local_driver_decl())
        } else {
            es
        };
        add_named_defs(next, defs, i + 1)
    } else {
        es
    }
}

/// The entries an existing `volumes` section contributes when merged
/// into: a mapping's own entries, nothing for a null section, and no
/// merge at all (the document is refused) for any other shape.
pub open spec fn volumes_section_base(v: DocV) -> Option<Seq<(DocV, DocV)>> {
    match v {
        DocV::Dict(es) => Option::Some(es),
        DocV::Null => Option::Some(Seq::empty()),
        _ => Option::None,
    }
}

/// The whole volume transformation of a manifest document: every
/// service's volume entries rewritten, then the top-level `volumes`
/// section added or merged. `None` when the document's top level is not
/// a mapping, or its `volumes` section is neither a mapping nor null.
pub open spec fn transform_volumes_doc(
    d: DocV,
    defs: Seq<VolumeDefinitionV>,
    root: Seq<char>,
) -> Option<DocV> {
    match d {
        DocV::Dict(es0) => {
            let es1 = rewrite_top_entries(es0, defs, root);
            match dict_find(es1, DocV::Str("volumes"@)) {
                Option::Some(v) => match volumes_section_base(v) {
                    Option::Some(base) => Option::Some(
                        DocV::Dict(
                            dict_set(
                                es1,
                                DocV::Str("volumes"@),
                                DocV::Dict(add_named_defs(base, defs, 0)),
                            ),
                        ),
                    ),
                    Option::None => Option::None,
                },
                Option::None => Option::Some(
                    DocV::Dict(
                        es1.push(
                            (
                                DocV::Str("volumes"@),
                                DocV::Dict(add_named_defs(Seq::empty(), defs, 0)),
                            ),
                        ),
                    ),
                ),
            }
        },
        _ => Option::None,
    }
}

// A first match at `idx` settles `dict_find`.
proof fn lemma_dict_find_at(es: Seq<(DocV, DocV)>, k: DocV, idx: int)
    requires
        0 <= idx < es.len(),
        es[idx].0 == k,
        forall|j: int| 0 <= j < idx ==> (#[trigger] es[j]).0 != k,
    ensures
        dict_find(es, k) == Option::Some(es[idx].1),
    decreases idx,
{
    if idx > 0 {
        assert(forall|j: int|
            0 <= j < idx - 1 ==> #[trigger] es.drop_first()[j] == es[j + 1]);
        lemma_dict_find_at(es.drop_first(), k, idx - 1);
    }
}

// No match anywhere settles `dict_find`.
proof fn lemma_dict_find_none(es: Seq<(DocV, DocV)>, k: DocV)
    requires
        forall|j: int| 0 <= j < es.len() ==> (#[trigger] es[j]).0 != k,
    ensures
        dict_find(es, k) is None,
    decreases es.len(),
{
    if es.len() > 0 {
        assert(forall|j: int|
            0 <= j < es.len() - 1 ==> #[trigger] es.drop_first()[j] == es[j + 1]);
        lemma_dict_find_none(es.drop_first(), k);
    }
}

// A first match at `idx` settles `find_def`.
proof fn lemma_find_def_at(defs: Seq<VolumeDefinitionV>, id: Seq<char>, idx: int)
    requires
        0 <= idx < defs.len(),
        defs[idx].id == id,
        forall|j: int| 0 <= j < idx ==> (#[trigger] defs[j]).id != id,
    ensures
        find_def(defs, id) == Option::Some(defs[idx]),
    decreases idx,
{
    if idx > 0 {
        assert(forall|j: int|
            0 <= j < idx - 1 ==> #[trigger] defs.drop_first()[j] == defs[j + 1]);
        lemma_find_def_at(defs.drop_first(), id, idx - 1);
    }
}

// No match anywhere settles `find_def`.
proof fn lemma_find_def_none(defs: Seq<VolumeDefinitionV>, id: Seq<char>)
    requires
        forall|j: int| 0 <= j < defs.len() ==> (#[trigger] defs[j]).id != id,
    ensures
        find_def(defs, id) is None,
    decreases defs.len(),
{
    if defs.len() > 0 {
        assert(forall|j: int|
            0 <= j < defs.len() - 1 ==> #[trigger] defs.drop_first()[j] == defs[j + 1]);
        lemma_find_def_none(defs.drop_first(), id);
    }
}

/// Index of the first volume definition whose id is `id`.
#[verifier::loop_isolation(false)]
fn find_def_index(defs: &Vec<VolumeDefinition>, id: &str) -> (r: Option<usize>)
    ensures
        match r {
            Some(k) => k < defs.len() && find_def(defs.deep_view(), id@) == Option::Some(
                defs.deep_view()[k as int],
            ),
            None => find_def(defs.deep_view(), id@) is None,
        },
{
    let n = defs.len();
    let mut i: usize = 0;
    while i < n
        invariant
            0 <= i <= n,
            forall|j: int| 0 <= j < i ==> (#[trigger] defs.deep_view()[j]).id != id@,
        decreases n - i,
    {
        if str_eq(defs[i].id.as_str(), id) {
            proof {
                assert(defs.deep_view()[i as int].id == id@);
                lemma_find_def_at(defs.deep_view(), id@, i as int);
            }
            return Some(i);
        }
        proof {
            assert(defs.deep_view()[i as int] == defs@[i as int]@);
        }
        i += 1;
    }
    proof {
        lemma_find_def_none(defs.deep_view(), id@);
    }
    None
}

/// Joins `root` and `p` as filesystem paths.
pub fn join_path_exec(root: &str, p: &str) -> (r: String)
    ensures
        r@ == join_path(root@, p@),
{
    proof {
        reveal_strlit("/");
    }
    let plen = p.unicode_len();
    if plen > 0 && p.get_char(0) == '/' {
        return p.to_owned();
    }
    let rlen = root.unicode_len();
    if rlen == 0 {
        return p.to_owned();
    }
    let mut out = root.to_owned();
    if root.get_char(rlen - 1) == '/' {
        out.append(p);
    } else {
        out.append("/");
        out.append(p);
        proof {
            assert("/"@ =~= seq!['/']);
        }
    }
    proof {
        assert(out@ =~= join_path(root@, p@));
    }
    out
}

/// The left-hand side a matched entry is rewritten to.
fn resolved_lhs_exec(def: &VolumeDefinition, root: &str) -> (r: String)
    ensures
        r@ == resolved_lhs(def@, root@),
{
    match def.kind {
        VolumeType::Volume => def.path.clone(),
        VolumeType::Binding => join_path_exec(root, def.path.as_str()),
    }
}

/// Rewrites one volume entry string.
fn rewrite_entry_exec(s: &str, defs: &Vec<VolumeDefinition>, root: &str) -> (r: String)
    ensures
        r@ == rewrite_entry(s@, defs.deep_view(), root@),
{
    proof {
        reveal_strlit(":");
        assert(":"@ =~= seq![':']);
    }
    let parts = split_str_at_char(s, ':');
    let ghost partsv = split_at_char(s@, ':');
    if parts.len() < 2 || parts.len() > 3 {
        return s.to_owned();
    }
    proof {
        assert(parts.deep_view()[0] == parts@[0]@);
        assert(partsv[0] == parts@[0]@);
    }
    match find_def_index(defs, parts[0].as_str()) {
        Some(k) => {
            let def = &defs[k];
            let lhs = resolved_lhs_exec(def, root);
            let mut out = lhs;
            out.append(":");
            out.append(parts[1].as_str());
            if parts.len() == 3 {
                if !parts[2].as_str().is_empty() {
                    out.append(":");
                    out.append(parts[2].as_str());
                }
            }
            proof {
                assert(parts.deep_view()[1] == parts@[1]@);
                if parts@.len() == 3 {
                    assert(parts.deep_view()[2] == parts@[2]@);
                }
                assert(out@ =~= rewrite_entry(s@, defs.deep_view(), root@));
            }
            out
        },
        None => s.to_owned(),
    }
}

/// Rewrites one item of a volume list.
fn rewrite_item_exec(it: &Doc, defs: &Vec<VolumeDefinition>, root: &str) -> (r: Doc)
    ensures
        r@ == rewrite_item(it@, defs.deep_view(), root@),
{
    match it {
        Doc::Str(s) => Doc::Str(rewrite_entry_exec(s.as_str(), defs, root)),
        _ => it.duplicate(),
    }
}

/// Rewrites a service's `volumes` value.
#[verifier::loop_isolation(false)]
fn rewrite_volumes_value_exec(v: &Doc, defs: &Vec<VolumeDefinition>, root: &str) -> (r: Doc)
    ensures
        r@ == rewrite_volumes_value(v@, defs.deep_view(), root@),
{
    match v {
        Doc::List(items) => {
            proof {
                lemma_view_list_props(items@);
            }
            let ghost target = view_list(items@).map_values(
                |it: DocV| rewrite_item(it, defs.deep_view(), root@),
            );
            let n = items.len();
            let mut out: Vec<Doc> = Vec::new();
            let mut i: usize = 0;
            while i < n
                invariant
                    0 <= i <= n,
                    out.len() == i,
                    forall|j: int| 0 <= j < i ==> #[trigger] out@[j]@ == target[j],
                decreases n - i,
            {
                let item = rewrite_item_exec(&items[i], defs, root);
                out.push(item);
                i += 1;
            }
            proof {
                lemma_view_list_props(out@);
                assert(view_list(out@) =~= target);
            }
            Doc::List(out)
        },
        _ => v.duplicate(),
    }
}

/// Rewrites one service.
#[verifier::loop_isolation(false)]
fn rewrite_service_exec(sv: &Doc, defs: &Vec<VolumeDefinition>, root: &str) -> (r: Doc)
    ensures
        r@ == rewrite_service(sv@, defs.deep_view(), root@),
{
    match sv {
        Doc::Dict(es) => {
            proof {
                lemma_view_entries_props(es@);
            }
            let ghost target = view_entries(es@).map_values(
                |e: (DocV, DocV)|
                    if e.0 == DocV::Str("volumes"@) {
                        (e.0, rewrite_volumes_value(e.1, defs.deep_view(), root@))
                    } else {
                        e
                    },
            );
            let n = es.len();
            let mut out: Vec<(Doc, Doc)> = Vec::new();
            let mut i: usize = 0;
            while i < n
                invariant
                    0 <= i <= n,
                    out.len() == i,
                    forall|j: int|
                        0 <= j < i ==> #[trigger] out@[j].0@ == target[j].0 && out@[j].1@
                            == target[j].1,
                decreases n - i,
            {
                let k = es[i].0.duplicate();
                let val = if es[i].0.is_str("volumes") {
                    rewrite_volumes_value_exec(&es[i].1, defs, root)
                } else {
                    es[i].1.duplicate()
                };
                out.push((k, val));
                i += 1;
            }
            proof {
                lemma_view_entries_props(out@);
                assert(view_entries(out@) =~= target);
            }
            Doc::Dict(out)
        },
        _ => sv.duplicate(),
    }
}

/// Rewrites every service of a `services` section.
#[verifier::loop_isolation(false)]
fn rewrite_services_value_exec(v: &Doc, defs: &Vec<VolumeDefinition>, root: &str) -> (r: Doc)
    ensures
        r@ == rewrite_services_value(v@, defs.deep_view(), root@),
{
    match v {
        Doc::Dict(svcs) => {
            proof {
                lemma_view_entries_props(svcs@);
            }
            let ghost target = view_entries(svcs@).map_values(
                |e: (DocV, DocV)| (e.0, rewrite_service(e.1, defs.deep_view(), root@)),
            );
            let n = svcs.len();
            let mut out: Vec<(Doc, Doc)> = Vec::new();
            let mut i: usize = 0;
            while i < n
                invariant
                    0 <= i <= n,
                    out.len() == i,
                    forall|j: int|
                        0 <= j < i ==> #[trigger] out@[j].0@ == target[j].0 && out@[j].1@
                            == target[j].1,
                decreases n - i,
            {
                let k = svcs[i].0.duplicate();
                let val = rewrite_service_exec(&svcs[i].1, defs, root);
                out.push((k, val));
                i += 1;
            }
            proof {
                lemma_view_entries_props(out@);
                assert(view_entries(out@) =~= target);
            }
            Doc::Dict(out)
        },
        _ => v.duplicate(),
    }
}

/// Index of the first entry whose key is the string `key`.
#[verifier::loop_isolation(false)]
pub(crate) fn dict_find_index(es: &Vec<(Doc, Doc)>, key: &str) -> (r: Option<usize>)
    ensures
        match r {
            Some(k) => k < es.len() && es@[k as int].0@ == DocV::Str(key@) && dict_find(
                view_entries(es@),
                DocV::Str(key@),
            ) == Option::Some(es@[k as int].1@),
            None => dict_find(view_entries(es@), DocV::Str(key@)) is None,
        },
{
    proof {
        lemma_view_entries_props(es@);
    }
    let n = es.len();
    let mut i: usize = 0;
    while i < n
        invariant
            0 <= i <= n,
            forall|j: int| 0 <= j < i ==> (#[trigger] view_entries(es@)[j]).0 != DocV::Str(key@),
        decreases n - i,
    {
        if es[i].0.is_str(key) {
            proof {
                lemma_dict_find_at(view_entries(es@), DocV::Str(key@), i as int);
            }
            return Some(i);
        }
        i += 1;
    }
    proof {
        lemma_dict_find_none(view_entries(es@), DocV::Str(key@));
    }
    None
}

/// Sets the string key `key` to `val`: every entry already keyed `key`
/// takes the value in place, a missing key is appended.
#[verifier::loop_isolation(false)]
fn dict_set_exec(es: &Vec<(Doc, Doc)>, key: &str, val: &Doc) -> (r: Vec<(Doc, Doc)>)
    ensures
        view_entries(r@) == dict_set(view_entries(es@), DocV::Str(key@), val@),
{
    proof {
        lemma_view_entries_props(es@);
    }
    let ghost k = DocV::Str(key@);
    let ghost ve = view_entries(es@);
    let n = es.len();
    let mut out: Vec<(Doc, Doc)> = Vec::new();
    let mut found = false;
    let mut i: usize = 0;
    while i < n
        invariant
            0 <= i <= n,
            out.len() == i,
            found == exists|j: int| 0 <= j < i && (#[trigger] ve[j]).0 == k,
            forall|j: int|
                0 <= j < i ==> #[trigger] out@[j].0@ == ve[j].0 && out@[j].1@ == (
                if ve[j].0 == k {
                    val@
                } else {
                    ve[j].1
                }),
        decreases n - i,
    {
        if es[i].0.is_str(key) {
            out.push((es[i].0.duplicate(), val.duplicate()));
            found = true;
            proof {
                assert(ve[i as int].0 == k);
            }
        } else {
            out.push((es[i].0.duplicate(), es[i].1.duplicate()));
        }
        i += 1;
    }
    if found {
        proof {
            lemma_view_entries_props(out@);
            let target = ve.map_values(
                |e: (DocV, DocV)|
                    if e.0 == k {
                        (e.0, val@)
                    } else {
                        e
                    },
            );
            let w = choose|j: int| 0 <= j < n && (#[trigger] ve[j]).0 == k;
            lemma_first_key_match(ve, k, w);
            assert(view_entries(out@) =~= target);
        }
        out
    } else {
        proof {
            lemma_dict_find_none(ve, k);
        }
        let mut out2 = out;
        out2.push((Doc::Str(key.to_owned()), val.duplicate()));
        proof {
            lemma_view_entries_props(out2@);
            assert(view_entries(out2@) =~= ve.push((k, val@)));
        }
        out2
    }
}

// Some entry keyed `k` exists, so a first one does, and `dict_find`
// returns its value.
proof fn lemma_first_key_match(es: Seq<(DocV, DocV)>, k: DocV, w: int)
    requires
        0 <= w < es.len(),
        es[w].0 == k,
    ensures
        dict_find(es, k) is Some,
    decreases w,
{
    if es[0].0 == k {
    } else {
        assert(w > 0);
        assert(es.drop_first()[w - 1] == es[w]);
        lemma_first_key_match(es.drop_first(), k, w - 1);
    }
}

/// Declares each named-volume definition in a `volumes` section.
#[verifier::loop_isolation(false)]
fn add_named_defs_exec(base: Vec<(Doc, Doc)>, defs: &Vec<VolumeDefinition>) -> (r: Vec<(Doc, Doc)>)
    ensures
        view_entries(r@) == add_named_defs(view_entries(base@), defs.deep_view(), 0),
{
    let ghost dv = defs.deep_view();
    let ghost base0 = view_entries(base@);
    let n = defs.len();
    let mut cur = base;
    let mut i: usize = 0;
    while i < n
        invariant
            0 <= i <= n,
            add_named_defs(base0, dv, 0) == add_named_defs(view_entries(cur@), dv, i as int),
        decreases n - i,
    {
        let is_named = match defs[i].kind {
            VolumeType::Volume => true,
            VolumeType::Binding => false,
        };
        if is_named {
            let mut driver_entries: Vec<(Doc, Doc)> = Vec::new();
            driver_entries.push((Doc::Str("driver".to_owned()), Doc::Str("local".to_owned())));
            proof {
                lemma_view_entries_props(driver_entries@);
                assert(view_entries(driver_entries@) =~= seq![
                    (DocV::Str("driver"@), DocV::Str("local"@)),
                ]);
            }
            let decl = Doc::Dict(driver_entries);
            proof {
                assert(decl@ == local_driver_decl());
            }
            let next = dict_set_exec(&cur, defs[i].id.as_str(), &decl);
            proof {
                assert(dv[i as int].kind == VolumeType::Volume);
                assert(view_entries(next@) == dict_set(
                    view_entries(cur@),
                    DocV::Str(dv[i as int].id),
                    local_driver_decl(),
                ));
            }
            cur = next;
        } else {
            proof {
                assert(dv[i as int].kind == VolumeType::Binding);
            }
        }
        i += 1;
    }
    cur
}

impl ComposeProcessor {
    /// Rewrites the volume entries of every service against the declared
    /// volume definitions and adds (or merges) the top-level `volumes`
    /// section, returning the transformed manifest text. Fails with a
    /// parse error when the text is malformed, its top level is not a
    /// mapping, or its `volumes` section is neither a mapping nor null.
    #[verifier::loop_isolation(false)]
    pub fn process_volumes(
        compose_content: &str,
        volumes_definitions: &Vec<VolumeDefinition>,
        nfs_config: &crate::models::NfsConfig,
    ) -> (r: Result<String, EngineError>)
        ensures
            match r {
                Ok(t) => yaml_doc_of(compose_content@) is Some && transform_volumes_doc(
                    yaml_doc_of(compose_content@)->Some_0,
                    volumes_definitions.deep_view(),
                    nfs_config@,
                ) is Some && yaml_text_of(
                    transform_volumes_doc(
                        yaml_doc_of(compose_content@)->Some_0,
                        volumes_definitions.deep_view(),
                        nfs_config@,
                    )->Some_0,
                ) == Some(t@),
                Err(e) => match e {
                    EngineError::Parse => yaml_doc_of(compose_content@) is None || (
                    yaml_doc_of(compose_content@) is Some && transform_volumes_doc(
                        yaml_doc_of(compose_content@)->Some_0,
                        volumes_definitions.deep_view(),
                        nfs_config@,
                    ) is None),
                    EngineError::Emit => yaml_doc_of(compose_content@) is Some
                        && transform_volumes_doc(
                        yaml_doc_of(compose_content@)->Some_0,
                        volumes_definitions.deep_view(),
                        nfs_config@,
                    ) is Some && yaml_text_of(
                        transform_volumes_doc(
                            yaml_doc_of(compose_content@)->Some_0,
                            volumes_definitions.deep_view(),
                            nfs_config@,
                        )->Some_0,
                    ) is None,
                    _ => false,
                },
            },
    {
        let ghost dv = volumes_definitions.deep_view();
        let root = nfs_config.path.as_str();
        let doc = match parse_yaml(compose_content) {
            Ok(d) => d,
            Err(e) => {
                return Err(e);
            },
        };
        let ghost d0 = doc@;
        let es0 = match doc {
            Doc::Dict(es) => es,
            Doc::Null => {
                return Err(EngineError::Parse);
            },
            Doc::Bool(_) => {
                return Err(EngineError::Parse);
            },
            Doc::Num(_) => {
                return Err(EngineError::Parse);
            },
            Doc::Str(_) => {
                return Err(EngineError::Parse);
            },
            Doc::List(_) => {
                return Err(EngineError::Parse);
            },
        };
        proof {
            lemma_view_entries_props(es0@);
        }
        // Rewrite every `services` value.
        let ghost target1 = rewrite_top_entries(view_entries(es0@), dv, root@);
        let n = es0.len();
        let mut es1: Vec<(Doc, Doc)> = Vec::new();
        let mut i: usize = 0;
        while i < n
            invariant
                0 <= i <= n,
                es1.len() == i,
                forall|j: int|
                    0 <= j < i ==> #[trigger] es1@[j].0@ == target1[j].0 && es1@[j].1@
                        == target1[j].1,
            decreases n - i,
        {
            let k = es0[i].0.duplicate();
            let val = if es0[i].0.is_str("services") {
                rewrite_services_value_exec(&es0[i].1, volumes_definitions, root)
            } else {
                es0[i].1.duplicate()
            };
            es1.push((k, val));
            i += 1;
        }
        proof {
            lemma_view_entries_props(es1@);
            assert(view_entries(es1@) =~= target1);
        }
        // Add or merge the top-level `volumes` section.
        let out_doc: Doc = match dict_find_index(&es1, "volumes") {
            Some(idx) => {
                let merged: Vec<(Doc, Doc)> = match &es1[idx].1 {
                    Doc::Dict(base) => {
                        let mut base_copy: Vec<(Doc, Doc)> = Vec::new();
                        let bn = base.len();
                        let mut b: usize = 0;
                        while b < bn
                            invariant
                                0 <= b <= bn,
                                base_copy.len() == b,
                                forall|j: int|
                                    0 <= j < b ==> #[trigger] base_copy@[j].0@ == base@[j].0@
                                        && base_copy@[j].1@ == base@[j].1@,
                            decreases bn - b,
                        {
                            base_copy.push((base[b].0.duplicate(), base[b].1.duplicate()));
                            b += 1;
                        }
                        proof {
                            lemma_view_entries_props(base_copy@);
                            lemma_view_entries_props(base@);
                            assert(view_entries(base_copy@) =~= view_entries(base@));
                        }
                        add_named_defs_exec(base_copy, volumes_definitions)
                    },
                    Doc::Null => {
                        proof {
                            assert(view_entries(Seq::<(Doc, Doc)>::empty()) =~= Seq::<(
                                DocV,
                                DocV,
                            )>::empty());
                        }
                        add_named_defs_exec(Vec::new(), volumes_definitions)
                    },
                    Doc::Bool(_) => {
                        return Err(EngineError::Parse);
                    },
                    Doc::Num(_) => {
                        return Err(EngineError::Parse);
                    },
                    Doc::Str(_) => {
                        return Err(EngineError::Parse);
                    },
                    Doc::List(_) => {
                        return Err(EngineError::Parse);
                    },
                };
                let section = Doc::Dict(merged);
                let new_es = dict_set_exec(&es1, "volumes", &section);
                Doc::Dict(new_es)
            },
            None => {
                let merged = add_named_defs_exec(Vec::new(), volumes_definitions);
                proof {
                    assert(view_entries(Seq::<(Doc, Doc)>::empty()) =~= Seq::<(
                        DocV,
                        DocV,
                    )>::empty());
                }
                let mut es2 = es1;
                es2.push((Doc::Str("volumes".to_owned()), Doc::Dict(merged)));
                proof {
                    lemma_view_entries_props(es2@);
                    assert(view_entries(es2@) =~= target1.push(
                        (DocV::Str("volumes"@), DocV::Dict(add_named_defs(Seq::empty(), dv, 0))),
                    ));
                }
                Doc::Dict(es2)
            },
        };
        proof {
            assert(Some(out_doc@) == transform_volumes_doc(
                yaml_doc_of(compose_content@)->Some_0,
                dv,
                nfs_config@,
            ));
        }
        match emit_yaml(&out_doc) {
            Ok(t) => Ok(t),
            Err(e) => Err(e),
        }
    }
}

// ---------------------------------------------------------------------
// Idempotence of volume rewriting
// ---------------------------------------------------------------------
/// The condition under which a second rewriting pass with the same
/// definitions can change nothing: no resolved left-hand side contains a
/// `:`, and none collides with any definition id. A rewritten entry's
/// left-hand side then matches no definition any more.
pub open spec fn defs_idempotent(defs: Seq<VolumeDefinitionV>, root: Seq<char>) -> bool {
    &&& forall|i: int|
        0 <= i < defs.len() ==> !contains_char(resolved_lhs(#[trigger] defs[i], root), ':')
    &&& forall|i: int, j: int|
        0 <= i < defs.len() && 0 <= j < defs.len() ==> (#[trigger] defs[j]).id != resolved_lhs(
            #[trigger] defs[i],
            root,
        )
}

// A found definition is one of the definitions.
proof fn lemma_find_def_mem(defs: Seq<VolumeDefinitionV>, id: Seq<char>)
    requires
        find_def(defs, id) is Some,
    ensures
        exists|i: int| 0 <= i < defs.len() && #[trigger] defs[i] == find_def(defs, id)->Some_0,
    decreases defs.len(),
{
    if defs.len() > 0 && defs[0].id != id {
        lemma_find_def_mem(defs.drop_first(), id);
        let w = choose|i: int|
            0 <= i < defs.drop_first().len() && #[trigger] defs.drop_first()[i] == find_def(
                defs.drop_first(),
                id,
            )->Some_0;
        assert(defs[w + 1] == defs.drop_first()[w]);
    }
}

/// Rewriting a volume entry twice is rewriting it once.
pub proof fn lemma_rewrite_entry_idempotent(
    s: Seq<char>,
    defs: Seq<VolumeDefinitionV>,
    root: Seq<char>,
)
    requires
        defs_idempotent(defs, root),
    ensures
        rewrite_entry(rewrite_entry(s, defs, root), defs, root) == rewrite_entry(s, defs, root),
{
    let parts = split_at_char(s, ':');
    if 2 <= parts.len() <= 3 && find_def(defs, parts[0]) is Some {
        let def = find_def(defs, parts[0])->Some_0;
        lemma_find_def_mem(defs, parts[0]);
        let w = choose|i: int| 0 <= i < defs.len() && #[trigger] defs[i] == def;
        let lhs = resolved_lhs(def, root);
        assert(!contains_char(lhs, ':'));
        lemma_split_pieces_free(s, ':');
        assert(!contains_char(parts[1], ':'));
        let r1 = rewrite_entry(s, defs, root);
        if parts.len() == 3 && parts[2].len() > 0 {
            assert(!contains_char(parts[2], ':'));
            let rest = parts[1] + seq![':'] + parts[2];
            assert(r1 =~= lhs + seq![':'] + rest);
            lemma_split_prepend(lhs, rest, ':');
            lemma_split_prepend(parts[1], parts[2], ':');
            lemma_split_single(parts[2], ':');
            assert(split_at_char(r1, ':') =~= seq![lhs, parts[1], parts[2]]);
        } else {
            assert(r1 =~= lhs + seq![':'] + parts[1]);
            lemma_split_prepend(lhs, parts[1], ':');
            lemma_split_single(parts[1], ':');
            assert(split_at_char(r1, ':') =~= seq![lhs, parts[1]]);
        }
        assert(forall|j: int| 0 <= j < defs.len() ==> (#[trigger] defs[j]).id != lhs);
        lemma_find_def_none(defs, lhs);
        assert(split_at_char(r1, ':')[0] == lhs);
        assert(rewrite_entry(r1, defs, root) == r1);
    }
}

// Lifting idempotence through the document structure.
proof fn lemma_rewrite_item_idempotent(it: DocV, defs: Seq<VolumeDefinitionV>, root: Seq<char>)
    requires
        defs_idempotent(defs, root),
    ensures
        rewrite_item(rewrite_item(it, defs, root), defs, root) == rewrite_item(it, defs, root),
{
    match it {
        DocV::Str(s) => {
            lemma_rewrite_entry_idempotent(s, defs, root);
        },
        _ => {},
    }
}

proof fn lemma_rewrite_volumes_value_idempotent(
    v: DocV,
    defs: Seq<VolumeDefinitionV>,
    root: Seq<char>,
)
    requires
        defs_idempotent(defs, root),
    ensures
        rewrite_volumes_value(rewrite_volumes_value(v, defs, root), defs, root)
            == rewrite_volumes_value(v, defs, root),
{
    match v {
        DocV::List(items) => {
            let f = |it: DocV| rewrite_item(it, defs, root);
            let once = items.map_values(f);
            assert forall|j: int| 0 <= j < once.len() implies #[trigger] f(once[j]) == once[j] by {
                lemma_rewrite_item_idempotent(items[j], defs, root);
            }
            assert(once.map_values(f) =~= once);
        },
        _ => {},
    }
}

proof fn lemma_rewrite_service_idempotent(sv: DocV, defs: Seq<VolumeDefinitionV>, root: Seq<char>)
    requires
        defs_idempotent(defs, root),
    ensures
        rewrite_service(rewrite_service(sv, defs, root), defs, root) == rewrite_service(
            sv,
            defs,
            root,
        ),
{
    match sv {
        DocV::Dict(es) => {
            let f = |e: (DocV, DocV)|
                if e.0 == DocV::Str("volumes"@) {
                    (e.0, rewrite_volumes_value(e.1, defs, root))
                } else {
                    e
                };
            let once = es.map_values(f);
            assert forall|j: int| 0 <= j < once.len() implies #[trigger] f(once[j]) == once[j] by {
                if es[j].0 == DocV::Str("volumes"@) {
                    lemma_rewrite_volumes_value_idempotent(es[j].1, defs, root);
                }
            }
            assert(once.map_values(f) =~= once);
        },
        _ => {},
    }
}

proof fn lemma_rewrite_services_value_idempotent(
    v: DocV,
    defs: Seq<VolumeDefinitionV>,
    root: Seq<char>,
)
    requires
        defs_idempotent(defs, root),
    ensures
        rewrite_services_value(rewrite_services_value(v, defs, root), defs, root)
            == rewrite_services_value(v, defs, root),
{
    match v {
        DocV::Dict(svcs) => {
            let f = |e: (DocV, DocV)| (e.0, rewrite_service(e.1, defs, root));
            let once = svcs.map_values(f);
            assert forall|j: int| 0 <= j < once.len() implies #[trigger] f(once[j]) == once[j] by {
                lemma_rewrite_service_idempotent(svcs[j].1, defs, root);
            }
            assert(once.map_values(f) =~= once);
        },
        _ => {},
    }
}

proof fn lemma_rewrite_top_idempotent(
    es: Seq<(DocV, DocV)>,
    defs: Seq<VolumeDefinitionV>,
    root: Seq<char>,
)
    requires
        defs_idempotent(defs, root),
    ensures
        rewrite_top_entries(rewrite_top_entries(es, defs, root), defs, root) == rewrite_top_entries(
            es,
            defs,
            root,
        ),
{
    let f = |e: (DocV, DocV)|
        if e.0 == DocV::Str("services"@) {
            (e.0, rewrite_services_value(e.1, defs, root))
        } else {
            e
        };
    let once = es.map_values(f);
    assert forall|j: int| 0 <= j < once.len() implies #[trigger] f(once[j]) == once[j] by {
        if es[j].0 == DocV::Str("services"@) {
            lemma_rewrite_services_value_idempotent(es[j].1, defs, root);
        }
    }
    assert(once.map_values(f) =~= once);
}

// Setting a key finds that key, valued as set.
proof fn lemma_dict_find_set(es: Seq<(DocV, DocV)>, k: DocV, v: DocV)
    ensures
        dict_find(dict_set(es, k, v), k) == Option::Some(v),
    decreases es.len(),
{
    let f = |e: (DocV, DocV)|
        if e.0 == k {
            (e.0, v)
        } else {
            e
        };
    if dict_find(es, k) is Some {
        assert(es.len() > 0);
        let mapped = es.map_values(f);
        assert(dict_set(es, k, v) == mapped);
        if es[0].0 == k {
            assert(mapped[0] == (k, v));
            assert(dict_find(mapped, k) == Option::Some(v));
        } else {
            assert(dict_find(es.drop_first(), k) is Some);
            lemma_dict_find_set(es.drop_first(), k, v);
            assert(es.drop_first().map_values(f) =~= mapped.drop_first());
            assert(dict_set(es.drop_first(), k, v) == mapped.drop_first());
            assert(mapped[0].0 != k);
            assert(dict_find(mapped, k) == dict_find(mapped.drop_first(), k));
        }
    } else {
        lemma_push_find(es, k, v);
    }
}

// Pushing a missing key finds it at the end.
proof fn lemma_push_find(es: Seq<(DocV, DocV)>, k: DocV, v: DocV)
    requires
        dict_find(es, k) is None,
    ensures
        dict_find(es.push((k, v)), k) == Option::Some(v),
    decreases es.len(),
{
    if es.len() == 0 {
        assert(es.push((k, v))[0] == (k, v));
    } else {
        assert(es[0].0 != k);
        lemma_push_find(es.drop_first(), k, v);
        assert(es.push((k, v)).drop_first() =~= es.drop_first().push((k, v)));
        assert(es.push((k, v))[0] == es[0]);
    }
}

/// Every entry keyed `k` carries the value `v`, and at least one does.
pub open spec fn key_all_set(es: Seq<(DocV, DocV)>, k: DocV, v: DocV) -> bool {
    &&& dict_find(es, k) is Some
    &&& forall|j: int| 0 <= j < es.len() && (#[trigger] es[j]).0 == k ==> es[j].1 == v
}

// Setting a key makes every entry of that key carry the value.
proof fn lemma_dict_set_establishes(es: Seq<(DocV, DocV)>, k: DocV, v: DocV)
    ensures
        key_all_set(dict_set(es, k, v), k, v),
{
    lemma_dict_find_set(es, k, v);
    let out = dict_set(es, k, v);
    if dict_find(es, k) is Some {
        assert(forall|j: int|
            0 <= j < out.len() && (#[trigger] out[j]).0 == k ==> out[j].1 == v);
    } else {
        lemma_dict_find_none_keys(es, k);
        assert(forall|j: int| 0 <= j < es.len() ==> #[trigger] out[j] == es[j]);
        assert(out[es.len() as int] == (k, v));
        assert(forall|j: int|
            0 <= j < out.len() && (#[trigger] out[j]).0 == k ==> out[j].1 == v);
    }
}

// Setting one key leaves another key's state alone.
proof fn lemma_dict_set_preserves(es: Seq<(DocV, DocV)>, k: DocV, v: DocV, k2: DocV, v2: DocV)
    requires
        key_all_set(es, k, v),
        k2 != k || v2 == v,
    ensures
        key_all_set(dict_set(es, k2, v2), k, v),
    decreases es.len(),
{
    let out = dict_set(es, k2, v2);
    if dict_find(es, k2) is Some {
        let f = |e: (DocV, DocV)|
            if e.0 == k2 {
                (e.0, v2)
            } else {
                e
            };
        assert(dict_set(es, k2, v2) == es.map_values(f));
        assert forall|j: int| 0 <= j < out.len() && (#[trigger] out[j]).0 == k implies out[j].1
            == v by {
            assert(out[j] == f(es[j]));
            if es[j].0 == k2 {
                assert(out[j] == (k2, v2));
            } else {
                assert(out[j] == es[j]);
            }
        }
        lemma_find_in_mapped(es, k, v, k2, v2);
    } else {
        assert(forall|j: int| 0 <= j < es.len() ==> #[trigger] es.push((k2, v2))[j] == es[j]);
        assert(es.push((k2, v2))[es.len() as int] == (k2, v2));
        lemma_find_prefix(es, (k2, v2), k);
        assert forall|j: int| 0 <= j < out.len() && (#[trigger] out[j]).0 == k implies out[j].1
            == v by {
            if j < es.len() {
                assert(out[j] == es[j]);
            } else {
                assert(out[j] == (k2, v2));
            }
        }
    }
}

// `dict_find` of a mapped sequence, where mapping keeps keys.
proof fn lemma_find_in_mapped(es: Seq<(DocV, DocV)>, k: DocV, v: DocV, k2: DocV, v2: DocV)
    requires
        dict_find(es, k) is Some,
        k2 != k || v2 == v,
        forall|j: int| 0 <= j < es.len() && (#[trigger] es[j]).0 == k ==> es[j].1 == v,
    ensures
        dict_find(
            es.map_values(
                |e: (DocV, DocV)|
                    if e.0 == k2 {
                        (e.0, v2)
                    } else {
                        e
                    },
            ),
            k,
        ) is Some,
    decreases es.len(),
{
    let f = |e: (DocV, DocV)|
        if e.0 == k2 {
            (e.0, v2)
        } else {
            e
        };
    let mapped = es.map_values(f);
    if es[0].0 == k {
        assert(mapped[0].0 == k);
    } else {
        assert(mapped[0].0 == es[0].0);
        lemma_find_in_mapped(es.drop_first(), k, v, k2, v2);
        assert(es.drop_first().map_values(f) =~= mapped.drop_first());
    }
}

// A key found in a prefix is found after a push.
proof fn lemma_find_prefix(es: Seq<(DocV, DocV)>, e2: (DocV, DocV), k: DocV)
    requires
        dict_find(es, k) is Some,
    ensures
        dict_find(es.push(e2), k) == dict_find(es, k),
    decreases es.len(),
{
    if es.len() > 0 && es[0].0 != k {
        lemma_find_prefix(es.drop_first(), e2, k);
        assert(es.push(e2).drop_first() =~= es.drop_first().push(e2));
        assert(es.push(e2)[0] == es[0]);
    } else if es.len() > 0 {
        assert(es.push(e2)[0] == es[0]);
    }
}

// Setting a key to the value every such entry already carries changes
// nothing.
proof fn lemma_dict_set_identity(es: Seq<(DocV, DocV)>, k: DocV, v: DocV)
    requires
        key_all_set(es, k, v),
    ensures
        dict_set(es, k, v) == es,
{
    let f = |e: (DocV, DocV)|
        if e.0 == k {
            (e.0, v)
        } else {
            e
        };
    assert(es.map_values(f) =~= es);
}

// After declaring the named definitions, every named definition's key is
// fully set to the local-driver declaration.
proof fn lemma_add_named_defs_sets(es: Seq<(DocV, DocV)>, defs: Seq<VolumeDefinitionV>, i: int)
    requires
        0 <= i,
    ensures
        forall|m: int|
            i <= m < defs.len() && (#[trigger] defs[m]).kind == VolumeType::Volume ==> key_all_set(
                add_named_defs(es, defs, i),
                DocV::Str(defs[m].id),
                local_driver_decl(),
            ),
    decreases defs.len() - i,
{
    if 0 <= i < defs.len() {
        let next = if defs[i].kind == VolumeType::Volume {
            dict_set(es, DocV::Str(defs[i].id), local_driver_decl())
        } else {
            es
        };
        assert(add_named_defs(es, defs, i) == add_named_defs(next, defs, i + 1));
        lemma_add_named_defs_sets(next, defs, i + 1);
        if defs[i].kind == VolumeType::Volume {
            lemma_dict_set_establishes(es, DocV::Str(defs[i].id), local_driver_decl());
            lemma_add_named_defs_keeps(next, defs, i + 1, DocV::Str(defs[i].id));
        }
        assert forall|m: int|
            i <= m < defs.len() && (#[trigger] defs[m]).kind
                == VolumeType::Volume implies key_all_set(
            add_named_defs(es, defs, i),
            DocV::Str(defs[m].id),
            local_driver_decl(),
        ) by {
            if m == i {
                assert(key_all_set(
                    add_named_defs(next, defs, i + 1),
                    DocV::Str(defs[i].id),
                    local_driver_decl(),
                ));
            } else {
                assert(key_all_set(
                    add_named_defs(next, defs, i + 1),
                    DocV::Str(defs[m].id),
                    local_driver_decl(),
                ));
            }
        }
    }
}

// Declaring definitions preserves a key that is already fully set to the
// local-driver declaration.
proof fn lemma_add_named_defs_keeps(
    es: Seq<(DocV, DocV)>,
    defs: Seq<VolumeDefinitionV>,
    i: int,
    k: DocV,
)
    requires
        key_all_set(es, k, local_driver_decl()),
    ensures
        key_all_set(add_named_defs(es, defs, i), k, local_driver_decl()),
    decreases defs.len() - i,
{
    if 0 <= i < defs.len() {
        if defs[i].kind == VolumeType::Volume {
            lemma_dict_set_preserves(
                es,
                k,
                local_driver_decl(),
                DocV::Str(defs[i].id),
                local_driver_decl(),
            );
            lemma_add_named_defs_keeps(
                dict_set(es, DocV::Str(defs[i].id), local_driver_decl()),
                defs,
                i + 1,
                k,
            );
        } else {
            lemma_add_named_defs_keeps(es, defs, i + 1, k);
        }
    }
}

// Declaring the named definitions a second time changes nothing.
proof fn lemma_add_named_defs_idempotent(es: Seq<(DocV, DocV)>, defs: Seq<VolumeDefinitionV>)
    ensures
        add_named_defs(add_named_defs(es, defs, 0), defs, 0) == add_named_defs(es, defs, 0),
{
    lemma_add_named_defs_sets(es, defs, 0);
    lemma_add_second_identity(add_named_defs(es, defs, 0), defs, 0);
}

// A second pass over definitions whose keys are already fully set is the
// identity.
proof fn lemma_add_second_identity(m: Seq<(DocV, DocV)>, defs: Seq<VolumeDefinitionV>, i: int)
    requires
        forall|j: int|
            0 <= j < defs.len() && (#[trigger] defs[j]).kind == VolumeType::Volume ==> key_all_set(
                m,
                DocV::Str(defs[j].id),
                local_driver_decl(),
            ),
    ensures
        add_named_defs(m, defs, i) == m,
    decreases defs.len() - i,
{
    if 0 <= i < defs.len() {
        if defs[i].kind == VolumeType::Volume {
            lemma_dict_set_identity(m, DocV::Str(defs[i].id), local_driver_decl());
        }
        lemma_add_second_identity(m, defs, i + 1);
    }
}

/// Volume rewriting is idempotent with respect to already-resolved ids:
/// transforming a document once, then transforming the result again with
/// the same definitions and shared-storage root, yields the same
/// document — provided no resolved left-hand side contains a `:` or
/// collides with a definition id (an id that equals a resolved path
/// would be re-resolved, so those inputs are excluded).
pub proof fn lemma_transform_volumes_idempotent(
    d: DocV,
    defs: Seq<VolumeDefinitionV>,
    root: Seq<char>,
)
    requires
        defs_idempotent(defs, root),
        transform_volumes_doc(d, defs, root) is Some,
    ensures
        transform_volumes_doc(transform_volumes_doc(d, defs, root)->Some_0, defs, root)
            == transform_volumes_doc(d, defs, root),
{
    reveal_strlit("services");
    reveal_strlit("volumes");
    assert("services"@.len() == 8);
    assert("volumes"@.len() == 7);
    let es0 = d->Dict_0;
    let es1 = rewrite_top_entries(es0, defs, root);
    let kv = DocV::Str("volumes"@);
    let f = |e: (DocV, DocV)|
        if e.0 == DocV::Str("services"@) {
            (e.0, rewrite_services_value(e.1, defs, root))
        } else {
            e
        };
    let merged = match dict_find(es1, kv) {
        Option::Some(v) => add_named_defs(volumes_section_base(v)->Some_0, defs, 0),
        Option::None => add_named_defs(Seq::empty(), defs, 0),
    };
    let es2 = match dict_find(es1, kv) {
        Option::Some(v) => dict_set(es1, kv, DocV::Dict(merged)),
        Option::None => es1.push((kv, DocV::Dict(merged))),
    };
    assert(transform_volumes_doc(d, defs, root) == Option::Some(DocV::Dict(es2)));
    // The second pass's services rewrite changes nothing.
    let es1b = rewrite_top_entries(es2, defs, root);
    assert(es1b =~= es2) by {
        match dict_find(es1, kv) {
            Option::Some(v) => {
                assert forall|j: int| 0 <= j < es2.len() implies #[trigger] f(es2[j]) == es2[j] by {
                    let g = |e: (DocV, DocV)|
                        if e.0 == kv {
                            (e.0, DocV::Dict(merged))
                        } else {
                            e
                        };
                    assert(es2[j] == g(es1[j]));
                    if es1[j].0 == DocV::Str("services"@) {
                        assert(es2[j] == es1[j]);
                        assert(es1[j] == f(es0[j]));
                        if es0[j].0 == DocV::Str("services"@) {
                            lemma_rewrite_services_value_idempotent(es0[j].1, defs, root);
                        }
                    }
                }
            },
            Option::None => {
                assert forall|j: int| 0 <= j < es2.len() implies #[trigger] f(es2[j]) == es2[j] by {
                    if j < es1.len() {
                        assert(es2[j] == es1[j]);
                        assert(es1[j] == f(es0[j]));
                        if es1[j].0 == DocV::Str("services"@) {
                            if es0[j].0 == DocV::Str("services"@) {
                                lemma_rewrite_services_value_idempotent(es0[j].1, defs, root);
                            }
                        }
                    } else {
                        assert(es2[j] == (kv, DocV::Dict(merged)));
                    }
                }
            },
        }
    }
    // The second pass finds the merged `volumes` section and leaves it
    // as it is.
    match dict_find(es1, kv) {
        Option::Some(v) => {
            lemma_dict_find_set(es1, kv, DocV::Dict(merged));
            assert(dict_find(es2, kv) == Option::Some(DocV::Dict(merged)));
        },
        Option::None => {
            lemma_push_find(es1, kv, DocV::Dict(merged));
            assert(dict_find(es2, kv) == Option::Some(DocV::Dict(merged)));
        },
    }
    assert(dict_find(es1b, kv) == Option::Some(DocV::Dict(merged)));
    lemma_add_named_defs_sets(
        match dict_find(es1, kv) {
            Option::Some(v) => volumes_section_base(v)->Some_0,
            Option::None => Seq::empty(),
        },
        defs,
        0,
    );
    lemma_add_second_identity(merged, defs, 0);
    assert(add_named_defs(merged, defs, 0) == merged);
    // Setting the section to its current value is the identity.
    assert(key_all_set(es2, kv, DocV::Dict(merged))) by {
        match dict_find(es1, kv) {
            Option::Some(v) => {
                lemma_dict_set_establishes(es1, kv, DocV::Dict(merged));
            },
            Option::None => {
                lemma_push_find(es1, kv, DocV::Dict(merged));
                assert(forall|j: int|
                    0 <= j < es1.len() ==> (#[trigger] es2[j]) == es1[j]);
                lemma_dict_find_none_keys(es1, kv);
            },
        }
    }
    lemma_dict_set_identity(es2, kv, DocV::Dict(merged));
    assert(transform_volumes_doc(DocV::Dict(es2), defs, root) == Option::Some(DocV::Dict(es2)));
}

// A key that `dict_find` misses matches no entry.
proof fn lemma_dict_find_none_keys(es: Seq<(DocV, DocV)>, k: DocV)
    requires
        dict_find(es, k) is None,
    ensures
        forall|j: int| 0 <= j < es.len() ==> (#[trigger] es[j]).0 != k,
    decreases es.len(),
{
    if es.len() > 0 {
        assert(es[0].0 != k);
        assert(dict_find(es.drop_first(), k) is None);
        lemma_dict_find_none_keys(es.drop_first(), k);
        assert forall|j: int| 0 <= j < es.len() implies (#[trigger] es[j]).0 != k by {
            if j >= 1 {
                assert(es[j] == es.drop_first()[j - 1]);
            }
        }
    }
}

// ---------------------------------------------------------------------
// Secret-delivery injection
// ---------------------------------------------------------------------
/// The path at which the entrypoint wrapper is visible inside the
/// container: the second field of the mount spec, or the whole spec when
/// it has no container field.
pub open spec fn wrapper_container_path(mount: Seq<char>) -> Seq<char> {
    let parts = split_at_char(mount, ':');
    if parts.len() >= 2 {
        parts[1]
    } else {
        mount
    }
}

/// A service's `volumes` value with the wrapper mount appended; a
/// non-list value is kept.
pub open spec fn append_mount(v: DocV, mount: Seq<char>) -> DocV {
    match v {
        DocV::List(items) => DocV::List(items.push(DocV::Str(mount))),
        _ => v,
    }
}

/// A service's `entrypoint` value rewritten to invoke the wrapper first:
/// the wrapper path is prepended, and an existing entrypoint (string or
/// list) trails it as arguments; any other shape is replaced by the
/// wrapper alone. The service's `command` is untouched, so the original
/// command still reaches the wrapper as trailing arguments.
pub open spec fn wrap_entrypoint(v: DocV, wrapper: Seq<char>) -> DocV {
    match v {
        DocV::List(items) => DocV::List(seq![DocV::Str(wrapper)] + items),
        DocV::Str(s) => DocV::List(seq![DocV::Str(wrapper), DocV::Str(s)]),
        _ => DocV::List(seq![DocV::Str(wrapper)]),
    }
}

/// One service with secret delivery injected: the wrapper mount joins its
/// volume list (which is created when absent), and its entrypoint is
/// rewritten to run the wrapper first. A non-mapping service is kept.
pub open spec fn inject_service(sv: DocV, mount: Seq<char>, wrapper: Seq<char>) -> DocV {
    match sv {
        DocV::Dict(es) => {
            let with_vol = if dict_find(es, DocV::Str("volumes"@)) is Some {
                es.map_values(
                    |e: (DocV, DocV)|
                        if e.0 == DocV::Str("volumes"@) {
                            (e.0, append_mount(e.1, mount))
                        } else {
                            e
                        },
                )
            } else {
                es.push((DocV::Str("volumes"@), DocV::List(seq![DocV::Str(mount)])))
            };
            let with_ep = if dict_find(with_vol, DocV::Str("entrypoint"@)) is Some {
                with_vol.map_values(
                    |e: (DocV, DocV)|
                        if e.0 == DocV::Str("entrypoint"@) {
                            (e.0, wrap_entrypoint(e.1, wrapper))
                        } else {
                            e
                        },
                )
            } else {
                with_vol.push((DocV::Str("entrypoint"@), DocV::List(seq![DocV::Str(wrapper)])))
            };
            DocV::Dict(with_ep)
        },
        _ => sv,
    }
}

/// The `services` section with every service injected; a non-mapping
/// section is kept.
pub open spec fn inject_services_value(v: DocV, mount: Seq<char>, wrapper: Seq<char>) -> DocV {
    match v {
        DocV::Dict(svcs) => DocV::Dict(
            svcs.map_values(|e: (DocV, DocV)| (e.0, inject_service(e.1, mount, wrapper))),
        ),
        _ => v,
    }
}

/// The whole secret injection of a manifest document. `None` when the
/// top level is not a mapping.
pub open spec fn inject_secrets_doc(d: DocV, mount: Seq<char>) -> Option<DocV> {
    match d {
        DocV::Dict(es) => Option::Some(
            DocV::Dict(
                es.map_values(
                    |e: (DocV, DocV)|
                        if e.0 == DocV::Str("services"@) {
                            (e.0, inject_services_value(e.1, mount, wrapper_container_path(mount)))
                        } else {
                            e
                        },
                ),
            ),
        ),
        _ => Option::None,
    }
}

/// Appends the wrapper mount to a volume list.
#[verifier::loop_isolation(false)]
fn append_mount_exec(v: &Doc, mount: &str) -> (r: Doc)
    ensures
        r@ == append_mount(v@, mount@),
{
    match v {
        Doc::List(items) => {
            let mut out: Vec<Doc> = Vec::new();
            let n = items.len();
            let mut i: usize = 0;
            while i < n
                invariant
                    0 <= i <= n,
                    out.len() == i,
                    forall|j: int| 0 <= j < i ==> #[trigger] out@[j]@ == items@[j]@,
                decreases n - i,
            {
                let copy = items[i].duplicate();
                out.push(copy);
                i += 1;
            }
            out.push(Doc::Str(mount.to_owned()));
            proof {
                lemma_view_list_props(out@);
                lemma_view_list_props(items@);
                assert(view_list(out@) =~= view_list(items@).push(DocV::Str(mount@)));
            }
            Doc::List(out)
        },
        _ => v.duplicate(),
    }
}

/// Rewrites an entrypoint to run the wrapper first.
#[verifier::loop_isolation(false)]
fn wrap_entrypoint_exec(v: &Doc, wrapper: &str) -> (r: Doc)
    ensures
        r@ == wrap_entrypoint(v@, wrapper@),
{
    match v {
        Doc::List(items) => {
            let mut out: Vec<Doc> = Vec::new();
            out.push(Doc::Str(wrapper.to_owned()));
            let n = items.len();
            let mut i: usize = 0;
            while i < n
                invariant
                    0 <= i <= n,
                    out.len() == i + 1,
                    out@[0]@ == DocV::Str(wrapper@),
                    forall|j: int| 1 <= j < i + 1 ==> #[trigger] out@[j]@ == items@[j - 1]@,
                decreases n - i,
            {
                let copy = items[i].duplicate();
                out.push(copy);
                i += 1;
            }
            proof {
                lemma_view_list_props(out@);
                lemma_view_list_props(items@);
                assert(view_list(out@) =~= seq![DocV::Str(wrapper@)] + view_list(items@));
            }
            Doc::List(out)
        },
        Doc::Str(s) => {
            let mut out: Vec<Doc> = Vec::new();
            out.push(Doc::Str(wrapper.to_owned()));
            out.push(Doc::Str(s.clone()));
            proof {
                lemma_view_list_props(out@);
                assert(view_list(out@) =~= seq![DocV::Str(wrapper@), DocV::Str(s@)]);
            }
            Doc::List(out)
        },
        _ => {
            let mut out: Vec<Doc> = Vec::new();
            out.push(Doc::Str(wrapper.to_owned()));
            proof {
                lemma_view_list_props(out@);
                assert(view_list(out@) =~= seq![DocV::Str(wrapper@)]);
            }
            Doc::List(out)
        },
    }
}

/// Injects the wrapper mount and entrypoint into one service.
#[verifier::loop_isolation(false)]
fn inject_service_exec(sv: &Doc, mount: &str, wrapper: &str) -> (r: Doc)
    ensures
        r@ == inject_service(sv@, mount@, wrapper@),
{
    match sv {
        Doc::Dict(es) => {
            proof {
                lemma_view_entries_props(es@);
            }
            let ghost ve = view_entries(es@);
            // The volume mount.
            let with_vol: Vec<(Doc, Doc)> = match dict_find_index(es, "volumes") {
                Some(_) => {
                    let ghost target = ve.map_values(
                        |e: (DocV, DocV)|
                            if e.0 == DocV::Str("volumes"@) {
                                (e.0, append_mount(e.1, mount@))
                            } else {
                                e
                            },
                    );
                    let n = es.len();
                    let mut out: Vec<(Doc, Doc)> = Vec::new();
                    let mut i: usize = 0;
                    while i < n
                        invariant
                            0 <= i <= n,
                            out.len() == i,
                            forall|j: int|
                                0 <= j < i ==> #[trigger] out@[j].0@ == target[j].0 && out@[j].1@
                                    == target[j].1,
                        decreases n - i,
                    {
                        let k = es[i].0.duplicate();
                        let val = if es[i].0.is_str("volumes") {
                            append_mount_exec(&es[i].1, mount)
                        } else {
                            es[i].1.duplicate()
                        };
                        out.push((k, val));
                        i += 1;
                    }
                    proof {
                        lemma_view_entries_props(out@);
                        assert(view_entries(out@) =~= target);
                    }
                    out
                },
                None => {
                    let n = es.len();
                    let mut out: Vec<(Doc, Doc)> = Vec::new();
                    let mut i: usize = 0;
                    while i < n
                        invariant
                            0 <= i <= n,
                            out.len() == i,
                            forall|j: int|
                                0 <= j < i ==> #[trigger] out@[j].0@ == ve[j].0 && out@[j].1@
                                    == ve[j].1,
                        decreases n - i,
                    {
                        out.push((es[i].0.duplicate(), es[i].1.duplicate()));
                        i += 1;
                    }
                    let mut single: Vec<Doc> = Vec::new();
                    single.push(Doc::Str(mount.to_owned()));
                    proof {
                        lemma_view_list_props(single@);
                        assert(view_list(single@) =~= seq![DocV::Str(mount@)]);
                    }
                    out.push((Doc::Str("volumes".to_owned()), Doc::List(single)));
                    proof {
                        lemma_view_entries_props(out@);
                        assert(view_entries(out@) =~= ve.push(
                            (DocV::Str("volumes"@), DocV::List(seq![DocV::Str(mount@)])),
                        ));
                    }
                    out
                },
            };
            let ghost vv = view_entries(with_vol@);
            // The entrypoint rewrite.
            let with_ep: Vec<(Doc, Doc)> = match dict_find_index(&with_vol, "entrypoint") {
                Some(_) => {
                    let ghost target = vv.map_values(
                        |e: (DocV, DocV)|
                            if e.0 == DocV::Str("entrypoint"@) {
                                (e.0, wrap_entrypoint(e.1, wrapper@))
                            } else {
                                e
                            },
                    );
                    proof {
                        lemma_view_entries_props(with_vol@);
                    }
                    let n = with_vol.len();
                    let mut out: Vec<(Doc, Doc)> = Vec::new();
                    let mut i: usize = 0;
                    while i < n
                        invariant
                            0 <= i <= n,
                            out.len() == i,
                            forall|j: int|
                                0 <= j < i ==> #[trigger] out@[j].0@ == target[j].0 && out@[j].1@
                                    == target[j].1,
                        decreases n - i,
                    {
                        let k = with_vol[i].0.duplicate();
                        let val = if with_vol[i].0.is_str("entrypoint") {
                            wrap_entrypoint_exec(&with_vol[i].1, wrapper)
                        } else {
                            with_vol[i].1.duplicate()
                        };
                        out.push((k, val));
                        i += 1;
                    }
                    proof {
                        lemma_view_entries_props(out@);
                        assert(view_entries(out@) =~= target);
                    }
                    out
                },
                None => {
                    let mut single: Vec<Doc> = Vec::new();
                    single.push(Doc::Str(wrapper.to_owned()));
                    proof {
                        lemma_view_list_props(single@);
                        assert(view_list(single@) =~= seq![DocV::Str(wrapper@)]);
                    }
                    let mut out = with_vol;
                    out.push((Doc::Str("entrypoint".to_owned()), Doc::List(single)));
                    proof {
                        lemma_view_entries_props(out@);
                        assert(view_entries(out@) =~= vv.push(
                            (DocV::Str("entrypoint"@), DocV::List(seq![DocV::Str(wrapper@)])),
                        ));
                    }
                    out
                },
            };
            proof {
                lemma_view_entries_props(with_ep@);
            }
            Doc::Dict(with_ep)
        },
        _ => sv.duplicate(),
    }
}

/// Injects secret delivery into every service of a `services` section.
#[verifier::loop_isolation(false)]
fn inject_services_value_exec(v: &Doc, mount: &str, wrapper: &str) -> (r: Doc)
    ensures
        r@ == inject_services_value(v@, mount@, wrapper@),
{
    match v {
        Doc::Dict(svcs) => {
            proof {
                lemma_view_entries_props(svcs@);
            }
            let ghost target = view_entries(svcs@).map_values(
                |e: (DocV, DocV)| (e.0, inject_service(e.1, mount@, wrapper@)),
            );
            let n = svcs.len();
            let mut out: Vec<(Doc, Doc)> = Vec::new();
            let mut i: usize = 0;
            while i < n
                invariant
                    0 <= i <= n,
                    out.len() == i,
                    forall|j: int|
                        0 <= j < i ==> #[trigger] out@[j].0@ == target[j].0 && out@[j].1@
                            == target[j].1,
                decreases n - i,
            {
                let k = svcs[i].0.duplicate();
                let val = inject_service_exec(&svcs[i].1, mount, wrapper);
                out.push((k, val));
                i += 1;
            }
            proof {
                lemma_view_entries_props(out@);
                assert(view_entries(out@) =~= target);
            }
            Doc::Dict(out)
        },
        _ => v.duplicate(),
    }
}

impl ComposeProcessor {
    /// Injects secret delivery into a manifest: when secret definitions
    /// exist, every service gains a read-only mount of the generated
    /// entrypoint wrapper and an entrypoint rewritten to invoke the
    /// wrapper before the original command. With no definitions the text
    /// is returned unchanged. Fails with a parse error when the text is
    /// malformed or its top level is not a mapping.
    #[verifier::loop_isolation(false)]
    pub fn process_secrets(
        compose_content: &str,
        secret_definitions: &Vec<SecretDefinition>,
        entrypoint_volume: &str,
    ) -> (r: Result<String, EngineError>)
        ensures
            match r {
                Ok(t) => if secret_definitions.len() == 0 {
                    t@ == compose_content@
                } else {
                    yaml_doc_of(compose_content@) is Some && inject_secrets_doc(
                        yaml_doc_of(compose_content@)->Some_0,
                        entrypoint_volume@,
                    ) is Some && yaml_text_of(
                        inject_secrets_doc(
                            yaml_doc_of(compose_content@)->Some_0,
                            entrypoint_volume@,
                        )->Some_0,
                    ) == Some(t@)
                },
                Err(e) => secret_definitions.len() > 0 && match e {
                    EngineError::Parse => yaml_doc_of(compose_content@) is None || (
                    yaml_doc_of(compose_content@) is Some && inject_secrets_doc(
                        yaml_doc_of(compose_content@)->Some_0,
                        entrypoint_volume@,
                    ) is None),
                    EngineError::Emit => yaml_doc_of(compose_content@) is Some
                        && inject_secrets_doc(
                        yaml_doc_of(compose_content@)->Some_0,
                        entrypoint_volume@,
                    ) is Some && yaml_text_of(
                        inject_secrets_doc(
                            yaml_doc_of(compose_content@)->Some_0,
                            entrypoint_volume@,
                        )->Some_0,
                    ) is None,
                    _ => false,
                },
            },
    {
        if secret_definitions.len() == 0 {
            return Ok(compose_content.to_owned());
        }
        let doc = match parse_yaml(compose_content) {
            Ok(d) => d,
            Err(e) => {
                return Err(e);
            },
        };
        let ghost d0 = doc@;
        let es = match doc {
            Doc::Dict(es) => es,
            Doc::Null => {
                return Err(EngineError::Parse);
            },
            Doc::Bool(_) => {
                return Err(EngineError::Parse);
            },
            Doc::Num(_) => {
                return Err(EngineError::Parse);
            },
            Doc::Str(_) => {
                return Err(EngineError::Parse);
            },
            Doc::List(_) => {
                return Err(EngineError::Parse);
            },
        };
        proof {
            lemma_view_entries_props(es@);
        }
        // The wrapper's path inside the container.
        let parts = split_str_at_char(entrypoint_volume, ':');
        let wrapper_owned: String = if parts.len() >= 2 {
            proof {
                assert(parts.deep_view()[1] == parts@[1]@);
            }
            parts[1].clone()
        } else {
            entrypoint_volume.to_owned()
        };
        let wrapper = wrapper_owned.as_str();
        proof {
            assert(wrapper@ == wrapper_container_path(entrypoint_volume@));
        }
        let ghost target = view_entries(es@).map_values(
            |e: (DocV, DocV)|
                if e.0 == DocV::Str("services"@) {
                    (e.0, inject_services_value(e.1, entrypoint_volume@, wrapper_container_path(entrypoint_volume@)))
                } else {
                    e
                },
        );
        let n = es.len();
        let mut out: Vec<(Doc, Doc)> = Vec::new();
        let mut i: usize = 0;
        while i < n
            invariant
                0 <= i <= n,
                out.len() == i,
                forall|j: int|
                    0 <= j < i ==> #[trigger] out@[j].0@ == target[j].0 && out@[j].1@
                        == target[j].1,
            decreases n - i,
        {
            let k = es[i].0.duplicate();
            let val = if es[i].0.is_str("services") {
                inject_services_value_exec(&es[i].1, entrypoint_volume, wrapper)
            } else {
                es[i].1.duplicate()
            };
            out.push((k, val));
            i += 1;
        }
        proof {
            lemma_view_entries_props(out@);
            assert(view_entries(out@) =~= target);
        }
        let out_doc = Doc::Dict(out);
        proof {
            assert(Some(out_doc@) == inject_secrets_doc(d0, entrypoint_volume@));
        }
        match emit_yaml(&out_doc) {
            Ok(t) => Ok(t),
            Err(e) => Err(e),
        }
    }
}

} // verus!

