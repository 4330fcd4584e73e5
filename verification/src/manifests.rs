//! Decoders from parsed documents to the declaration types: the stack
//! list, the volume definitions, the shared-storage configuration and the
//! secret declarations. Each decoder states exactly which document shapes
//! it accepts; everything else is a parse failure for the caller.

use vstd::prelude::*;
use crate::compose::{dict_find, dict_find_index};
use crate::doc::{Doc, DocV, view_entries, view_list, lemma_view_entries_props, lemma_view_list_props};
use crate::models::{NfsConfig, SecretDefinition, SecretDefinitionV, StackDefinition,
    VolumeDefinition, VolumeDefinitionV, VolumeType};
use crate::strings::str_eq;

verus! {

/// The string value of the first entry keyed `key`, if it is a string.
pub open spec fn str_field(es: Seq<(DocV, DocV)>, key: Seq<char>) -> Option<Seq<char>> {
    match dict_find(es, DocV::Str(key)) {
        Option::Some(v) => match v {
            DocV::Str(s) => Option::Some(s),
            _ => Option::None,
        },
        Option::None => Option::None,
    }
}

/// Reads a string field out of a mapping's entries.
fn doc_str_field(es: &Vec<(Doc, Doc)>, key: &str) -> (r: Option<String>)
    ensures
        match r {
            Some(s) => str_field(view_entries(es@), key@) == Option::Some(s@),
            None => str_field(view_entries(es@), key@) is None,
        },
{
    proof {
        lemma_view_entries_props(es@);
    }
    match dict_find_index(es, key) {
        Some(idx) => match &es[idx].1 {
            Doc::Str(s) => Some(s.clone()),
            _ => None,
        },
        None => None,
    }
}

// ---------------------------------------------------------------------
// Stack declarations
// ---------------------------------------------------------------------
/// One stack declaration: a mapping with a string `name`.
pub open spec fn decode_stack_def(d: DocV) -> Option<Seq<char>> {
    match d {
        DocV::Dict(es) => str_field(es, "name"@),
        _ => Option::None,
    }
}

/// The declarations of `items[i..]`; `None` as soon as one is malformed.
pub open spec fn decode_stack_list(items: Seq<DocV>, i: int) -> Option<Seq<Seq<char>>>
    decreases items.len() - i,
{
    if 0 <= i < items.len() {
        match decode_stack_def(items[i]) {
            Option::Some(name) => match decode_stack_list(items, i + 1) {
                Option::Some(rest) => Option::Some(seq![name] + rest),
                Option::None => Option::None,
            },
            Option::None => Option::None,
        }
    } else {
        Option::Some(Seq::empty())
    }
}

/// The stack-declaration manifest: a sequence of declarations.
pub open spec fn decode_stack_defs(d: DocV) -> Option<Seq<Seq<char>>> {
    match d {
        DocV::List(items) => decode_stack_list(items, 0),
        _ => Option::None,
    }
}

/// Decodes the stack-declaration manifest.
#[verifier::loop_isolation(false)]
pub fn decode_stack_definitions(doc: &Doc) -> (r: Option<Vec<StackDefinition>>)
    ensures
        match r {
            Some(v) => decode_stack_defs(doc@) == Option::Some(v.deep_view()),
            None => decode_stack_defs(doc@) is None,
        },
{
    let items = match doc {
        Doc::List(items) => items,
        _ => {
            return None;
        },
    };
    proof {
        lemma_view_list_props(items@);
    }
    let ghost iv = view_list(items@);
    let n = items.len();
    let mut acc: Vec<StackDefinition> = Vec::new();
    let mut i: usize = 0;
    proof {
        assert(acc.deep_view() =~= Seq::<Seq<char>>::empty());
    }
    while i < n
        invariant
            0 <= i <= n,
            match decode_stack_list(iv, i as int) {
                Option::Some(rest) => decode_stack_list(iv, 0) == Option::Some(
                    acc.deep_view() + rest,
                ),
                Option::None => decode_stack_list(iv, 0) is None,
            },
        decreases n - i,
    {
        let name: Option<String> = match &items[i] {
            Doc::Dict(es) => doc_str_field(es, "name"),
            _ => None,
        };
        match name {
            Some(name) => {
                let ghost pre = acc.deep_view();
                acc.push(StackDefinition { name });
                proof {
                    assert(acc.deep_view() =~= pre.push(decode_stack_def(iv[i as int])->Some_0));
                    if decode_stack_list(iv, i + 1) is Some {
                        assert(acc.deep_view() + decode_stack_list(iv, i + 1)->Some_0 =~= pre
                            + decode_stack_list(iv, i as int)->Some_0);
                    }
                }
            },
            None => {
                proof {
                    assert(decode_stack_def(iv[i as int]) is None);
                    assert(decode_stack_list(iv, i as int) is None);
                }
                return None;
            },
        }
        i += 1;
    }
    proof {
        assert(decode_stack_list(iv, n as int) == Option::Some(Seq::<Seq<char>>::empty()));
        assert(acc.deep_view() + Seq::<Seq<char>>::empty() =~= acc.deep_view());
    }
    Some(acc)
}

// ---------------------------------------------------------------------
// Volume definitions
// ---------------------------------------------------------------------
/// The volume kind named by `s`: `volume` or `binding`.
pub open spec fn decode_volume_kind(s: Seq<char>) -> Option<VolumeType> {
    if s == "volume"@ {
        Option::Some(VolumeType::Volume)
    } else if s == "binding"@ {
        Option::Some(VolumeType::Binding)
    } else {
        Option::None
    }
}

/// One volume definition: a mapping with string `id`, `type` (`volume`
/// or `binding`) and `path`.
pub open spec fn decode_volume_def(d: DocV) -> Option<VolumeDefinitionV> {
    match d {
        DocV::Dict(es) => match (str_field(es, "id"@), str_field(es, "type"@), str_field(
            es,
            "path"@,
        )) {
            (Option::Some(id), Option::Some(kind_name), Option::Some(path)) => match
                decode_volume_kind(kind_name) {
                Option::Some(kind) => Option::Some(VolumeDefinitionV { id, kind, path }),
                Option::None => Option::None,
            },
            _ => Option::None,
        },
        _ => Option::None,
    }
}

/// The definitions of `items[i..]`; `None` as soon as one is malformed.
pub open spec fn decode_volume_list(items: Seq<DocV>, i: int) -> Option<Seq<VolumeDefinitionV>>
    decreases items.len() - i,
{
    if 0 <= i < items.len() {
        match decode_volume_def(items[i]) {
            Option::Some(def) => match decode_volume_list(items, i + 1) {
                Option::Some(rest) => Option::Some(seq![def] + rest),
                Option::None => Option::None,
            },
            Option::None => Option::None,
        }
    } else {
        Option::Some(Seq::empty())
    }
}

/// The volume manifest: a sequence of definitions.
pub open spec fn decode_volume_defs(d: DocV) -> Option<Seq<VolumeDefinitionV>> {
    match d {
        DocV::List(items) => decode_volume_list(items, 0),
        _ => Option::None,
    }
}

/// Decodes one volume definition.
fn decode_volume_def_exec(d: &Doc) -> (r: Option<VolumeDefinition>)
    ensures
        match r {
            Some(def) => decode_volume_def(d@) == Option::Some(def@),
            None => decode_volume_def(d@) is None,
        },
{
    let es = match d {
        Doc::Dict(es) => es,
        _ => {
            return None;
        },
    };
    let id = match doc_str_field(es, "id") {
        Some(s) => s,
        None => {
            return None;
        },
    };
    let kind_name = match doc_str_field(es, "type") {
        Some(s) => s,
        None => {
            return None;
        },
    };
    let path = match doc_str_field(es, "path") {
        Some(s) => s,
        None => {
            return None;
        },
    };
    let kind: VolumeType = if str_eq(kind_name.as_str(), "volume") {
        VolumeType::Volume
    } else if str_eq(kind_name.as_str(), "binding") {
        VolumeType::Binding
    } else {
        return None;
    };
    Some(VolumeDefinition { id, kind, path })
}

/// Decodes the volume manifest.
#[verifier::loop_isolation(false)]
pub fn decode_volume_definitions(doc: &Doc) -> (r: Option<Vec<VolumeDefinition>>)
    ensures
        match r {
            Some(v) => decode_volume_defs(doc@) == Option::Some(v.deep_view()),
            None => decode_volume_defs(doc@) is None,
        },
{
    let items = match doc {
        Doc::List(items) => items,
        _ => {
            return None;
        },
    };
    proof {
        lemma_view_list_props(items@);
    }
    let ghost iv = view_list(items@);
    let n = items.len();
    let mut acc: Vec<VolumeDefinition> = Vec::new();
    let mut i: usize = 0;
    proof {
        assert(acc.deep_view() =~= Seq::<VolumeDefinitionV>::empty());
    }
    while i < n
        invariant
            0 <= i <= n,
            match decode_volume_list(iv, i as int) {
                Option::Some(rest) => decode_volume_list(iv, 0) == Option::Some(
                    acc.deep_view() + rest,
                ),
                Option::None => decode_volume_list(iv, 0) is None,
            },
        decreases n - i,
    {
        match decode_volume_def_exec(&items[i]) {
            Some(def) => {
                let ghost pre = acc.deep_view();
                acc.push(def);
                proof {
                    assert(acc.deep_view() =~= pre.push(decode_volume_def(iv[i as int])->Some_0));
                    if decode_volume_list(iv, i + 1) is Some {
                        assert(acc.deep_view() + decode_volume_list(iv, i + 1)->Some_0 =~= pre
                            + decode_volume_list(iv, i as int)->Some_0);
                    }
                }
            },
            None => {
                proof {
                    assert(decode_volume_list(iv, i as int) is None);
                }
                return None;
            },
        }
        i += 1;
    }
    proof {
        assert(decode_volume_list(iv, n as int) == Option::Some(Seq::<VolumeDefinitionV>::empty()));
        assert(acc.deep_view() + Seq::<VolumeDefinitionV>::empty() =~= acc.deep_view());
    }
    Some(acc)
}

// ---------------------------------------------------------------------
// Shared-storage configuration
// ---------------------------------------------------------------------
/// The shared-storage manifest: a mapping with a string `path`.
pub open spec fn decode_nfs(d: DocV) -> Option<Seq<char>> {
    match d {
        DocV::Dict(es) => str_field(es, "path"@),
        _ => Option::None,
    }
}

/// Decodes the shared-storage manifest.
pub fn decode_nfs_config(doc: &Doc) -> (r: Option<NfsConfig>)
    ensures
        match r {
            Some(c) => decode_nfs(doc@) == Option::Some(c@),
            None => decode_nfs(doc@) is None,
        },
{
    match doc {
        Doc::Dict(es) => match doc_str_field(es, "path") {
            Some(path) => Some(NfsConfig { path }),
            None => None,
        },
        _ => None,
    }
}

// ---------------------------------------------------------------------
// Secret declarations
// ---------------------------------------------------------------------
/// One secret declaration: a mapping with a string `env` and a string
/// `secret` (or `id`, accepted as an alias of `secret`).
pub open spec fn decode_secret_def(d: DocV) -> Option<SecretDefinitionV> {
    match d {
        DocV::Dict(es) => {
            let name = match str_field(es, "secret"@) {
                Option::Some(s) => Option::Some(s),
                Option::None => str_field(es, "id"@),
            };
            match (name, str_field(es, "env"@)) {
                (Option::Some(secret), Option::Some(env)) => Option::Some(
                    SecretDefinitionV { secret, env },
                ),
                _ => Option::None,
            }
        },
        _ => Option::None,
    }
}

/// The declarations of `items[i..]`; `None` as soon as one is malformed.
pub open spec fn decode_secret_list(items: Seq<DocV>, i: int) -> Option<Seq<SecretDefinitionV>>
    decreases items.len() - i,
{
    if 0 <= i < items.len() {
        match decode_secret_def(items[i]) {
            Option::Some(def) => match decode_secret_list(items, i + 1) {
                Option::Some(rest) => Option::Some(seq![def] + rest),
                Option::None => Option::None,
            },
            Option::None => Option::None,
        }
    } else {
        Option::Some(Seq::empty())
    }
}

/// The secret manifest: a sequence of declarations.
pub open spec fn decode_secret_defs(d: DocV) -> Option<Seq<SecretDefinitionV>> {
    match d {
        DocV::List(items) => decode_secret_list(items, 0),
        _ => Option::None,
    }
}

/// Decodes one secret declaration.
fn decode_secret_def_exec(d: &Doc) -> (r: Option<SecretDefinition>)
    ensures
        match r {
            Some(def) => decode_secret_def(d@) == Option::Some(def@),
            None => decode_secret_def(d@) is None,
        },
{
    let es = match d {
        Doc::Dict(es) => es,
        _ => {
            return None;
        },
    };
    let secret = match doc_str_field(es, "secret") {
        Some(s) => s,
        None => match doc_str_field(es, "id") {
            Some(s) => s,
            None => {
                return None;
            },
        },
    };
    let env = match doc_str_field(es, "env") {
        Some(s) => s,
        None => {
            return None;
        },
    };
    Some(SecretDefinition { secret, env })
}

/// Decodes the secret manifest.
#[verifier::loop_isolation(false)]
pub fn decode_secret_definitions(doc: &Doc) -> (r: Option<Vec<SecretDefinition>>)
    ensures
        match r {
            Some(v) => decode_secret_defs(doc@) == Option::Some(v.deep_view()),
            None => decode_secret_defs(doc@) is None,
        },
{
    let items = match doc {
        Doc::List(items) => items,
        _ => {
            return None;
        },
    };
    proof {
        lemma_view_list_props(items@);
    }
    let ghost iv = view_list(items@);
    let n = items.len();
    let mut acc: Vec<SecretDefinition> = Vec::new();
    let mut i: usize = 0;
    proof {
        assert(acc.deep_view() =~= Seq::<SecretDefinitionV>::empty());
    }
    while i < n
        invariant
            0 <= i <= n,
            match decode_secret_list(iv, i as int) {
                Option::Some(rest) => decode_secret_list(iv, 0) == Option::Some(
                    acc.deep_view() + rest,
                ),
                Option::None => decode_secret_list(iv, 0) is None,
            },
        decreases n - i,
    {
        match decode_secret_def_exec(&items[i]) {
            Some(def) => {
                let ghost pre = acc.deep_view();
                acc.push(def);
                proof {
                    assert(acc.deep_view() =~= pre.push(decode_secret_def(iv[i as int])->Some_0));
                    if decode_secret_list(iv, i + 1) is Some {
                        assert(acc.deep_view() + decode_secret_list(iv, i + 1)->Some_0 =~= pre
                            + decode_secret_list(iv, i as int)->Some_0);
                    }
                }
            },
            None => {
                proof {
                    assert(decode_secret_list(iv, i as int) is None);
                }
                return None;
            },
        }
        i += 1;
    }
    proof {
        assert(decode_secret_list(iv, n as int) == Option::Some(Seq::<SecretDefinitionV>::empty()));
        assert(acc.deep_view() + Seq::<SecretDefinitionV>::empty() =~= acc.deep_view());
    }
    Some(acc)
}

} // verus!
