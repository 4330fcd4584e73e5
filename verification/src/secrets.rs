//! The secret declarer: reads a stack's secret-declaration manifest and
//! generates the shell wrapper that exports each declared environment
//! variable from its orchestrator-provided secret file before handing
//! control to the original container command.

use vstd::prelude::*;
use crate::errors::EngineError;
use crate::manifests::{decode_nfs, decode_nfs_config, decode_secret_defs,
    decode_secret_definitions};
use crate::models::{NfsConfig, SecretDefinition, SecretDefinitionV};
use crate::yaml::{parse_yaml, yaml_doc_of};

verus! {

/// The export line of one declaration: the environment variable is set
/// from the secret file's content, or to the empty string when the file
/// is missing.
pub open spec fn secret_export_line(def: SecretDefinitionV) -> Seq<char> {
    "if [ -f /run/secrets/"@ + def.secret + " ]; then export "@ + def.env
        + "=\"$(cat /run/secrets/"@ + def.secret + ")\"; else export "@ + def.env + "=\"\"; fi\n"@
}

/// The export lines of `defs[i..]`, in declaration order.
pub open spec fn secret_export_lines(defs: Seq<SecretDefinitionV>, i: int) -> Seq<char>
    decreases defs.len() - i,
{
    if 0 <= i < defs.len() {
        secret_export_line(defs[i]) + secret_export_lines(defs, i + 1)
    } else {
        Seq::empty()
    }
}

/// The whole wrapper script: a fixed shell header, one export line per
/// declaration, and a trailing exec of the original command with its
/// arguments intact.
pub open spec fn secret_script(defs: Seq<SecretDefinitionV>) -> Seq<char> {
    "#!/bin/sh\n"@ + secret_export_lines(defs, 0) + "exec \"$@\"\n"@
}

/// The declarations a stack yields: nothing when the manifest is absent
/// or empty, otherwise the declarations and their wrapper script.
#[derive(Debug)]
pub struct SecretBundle {
    /// The declared secrets, in manifest order.
    pub definitions: Vec<SecretDefinition>,
    /// The generated wrapper script text.
    pub script: String,
}

/// The fixed file name, inside a stack's manifest directory, that the
/// wrapper script is written to and mounted from.
pub fn secret_wrapper_file_name() -> (r: String)
    ensures
        r@ == "entrypoint-secrets.sh"@,
{
    "entrypoint-secrets.sh".to_owned()
}

/// The fixed volume entry that exposes the wrapper script read-only
/// inside each container.
pub fn secret_entrypoint_volume() -> (r: String)
    ensures
        r@ == "./entrypoint-secrets.sh:/run/entrypoint-secrets.sh:ro"@,
{
    "./entrypoint-secrets.sh:/run/entrypoint-secrets.sh:ro".to_owned()
}

/// Builds one export line.
fn secret_export_line_exec(def: &SecretDefinition) -> (r: String)
    ensures
        r@ == secret_export_line(def@),
{
    let mut out = "if [ -f /run/secrets/".to_owned();
    out.append(def.secret.as_str());
    out.append(" ]; then export ");
    out.append(def.env.as_str());
    out.append("=\"$(cat /run/secrets/");
    out.append(def.secret.as_str());
    out.append(")\"; else export ");
    out.append(def.env.as_str());
    out.append("=\"\"; fi\n");
    proof {
        assert(out@ =~= secret_export_line(def@));
    }
    out
}

/// Builds the wrapper script for the given declarations.
#[verifier::loop_isolation(false)]
pub fn generate_secret_script(defs: &Vec<SecretDefinition>) -> (r: String)
    ensures
        r@ == secret_script(defs.deep_view()),
{
    let ghost dv = defs.deep_view();
    let mut out = "#!/bin/sh\n".to_owned();
    let n = defs.len();
    let mut i: usize = 0;
    while i < n
        invariant
            0 <= i <= n,
            out@ + secret_export_lines(dv, i as int) == "#!/bin/sh\n"@ + secret_export_lines(
                dv,
                0,
            ),
        decreases n - i,
    {
        let line = secret_export_line_exec(&defs[i]);
        out.append(line.as_str());
        proof {
            assert(secret_export_lines(dv, i as int) == secret_export_line(dv[i as int])
                + secret_export_lines(dv, i + 1));
            assert(out@ + secret_export_lines(dv, i + 1) =~= "#!/bin/sh\n"@ + secret_export_lines(
                dv,
                0,
            ));
        }
        i += 1;
    }
    proof {
        assert(secret_export_lines(dv, n as int) == Seq::<char>::empty());
    }
    out.append("exec \"$@\"\n");
    proof {
        assert(out@ =~= secret_script(dv));
    }
    out
}

/// Processor for secret declarations and the shared-storage
/// configuration manifest.
pub struct SecretProcessor;

impl SecretProcessor {
    /// Loads the shared-storage configuration. An absent manifest is a
    /// missing-resource failure (it is only consulted when volumes are
    /// declared, and is then required); a malformed one is a parse
    /// failure.
    pub fn load_nfs_config(nfs_text: Option<&str>) -> (r: Result<NfsConfig, EngineError>)
        ensures
            match r {
                Ok(c) => nfs_text is Some && yaml_doc_of(nfs_text->Some_0@) is Some && decode_nfs(
                    yaml_doc_of(nfs_text->Some_0@)->Some_0,
                ) == Option::Some(c@),
                Err(e) => match e {
                    EngineError::NfsConfigMissing => nfs_text is None,
                    EngineError::Parse => nfs_text is Some && (yaml_doc_of(
                        nfs_text->Some_0@,
                    ) is None || decode_nfs(yaml_doc_of(nfs_text->Some_0@)->Some_0) is None),
                    _ => false,
                },
            },
    {
        let text = match nfs_text {
            Some(t) => t,
            None => {
                return Err(EngineError::NfsConfigMissing);
            },
        };
        let doc = match parse_yaml(text) {
            Ok(d) => d,
            Err(e) => {
                return Err(e);
            },
        };
        match decode_nfs_config(&doc) {
            Some(c) => Ok(c),
            None => Err(EngineError::Parse),
        }
    }

    /// Reads a stack's secret-declaration manifest and generates the
    /// wrapper script. An absent manifest, or one declaring nothing,
    /// yields nothing — the stack then gets no entrypoint override. A
    /// malformed manifest is a parse failure.
    pub fn process_secrets(secrets_text: Option<&str>) -> (r: Result<
        Option<SecretBundle>,
        EngineError,
    >)
        ensures
            match r {
                Ok(opt) => match secrets_text {
                    Some(t) => yaml_doc_of(t@) is Some && decode_secret_defs(
                        yaml_doc_of(t@)->Some_0,
                    ) is Some && {
                        let defs = decode_secret_defs(yaml_doc_of(t@)->Some_0)->Some_0;
                        if defs.len() == 0 {
                            opt is None
                        } else {
                            opt is Some && opt->Some_0.definitions.deep_view() == defs
                                && opt->Some_0.script@ == secret_script(defs)
                        }
                    },
                    None => opt is None,
                },
                Err(e) => e is Parse && secrets_text is Some && (yaml_doc_of(
                    secrets_text->Some_0@,
                ) is None || decode_secret_defs(yaml_doc_of(secrets_text->Some_0@)->Some_0) is None),
            },
    {
        let text = match secrets_text {
            Some(t) => t,
            None => {
                return Ok(None);
            },
        };
        let doc = match parse_yaml(text) {
            Ok(d) => d,
            Err(e) => {
                return Err(e);
            },
        };
        let defs = match decode_secret_definitions(&doc) {
            Some(defs) => defs,
            None => {
                return Err(EngineError::Parse);
            },
        };
        if defs.len() == 0 {
            return Ok(None);
        }
        let script = generate_secret_script(&defs);
        Ok(Some(SecretBundle { definitions: defs, script }))
    }
}

} // verus!
