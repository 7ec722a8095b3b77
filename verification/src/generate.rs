//! Generators: lookup, local template selection, destination rules, list and run output.

use vstd::prelude::*;

use crate::config::{GeneratorDef, Workspace};
use crate::error::OdmError;
use crate::paths::{resolve_under_root, resolved_under_root};
use crate::text::{
    chars_of, concat3, concat_map, copy_opt, copy_string, decimal, lemma_concat_map_take,
    lemma_take_full, opt_view, owned, push_char, push_decimal, push_str, push_string, string_of,
    trim_chars, trim_spec,
};

verus! {

/// Result of a successful local generate.
#[derive(Debug, Clone)]
pub struct GenerateOutcome {
    /// Number of files (and symlinks) written.
    pub copied: u32,
    /// Absolute destination path under the Workspace root.
    pub dest: String,
}

/// Resolve a Generator by name; unknown → Usage.
pub fn generator<'a>(ws: &'a Workspace, name: &str) -> (r: Result<&'a GeneratorDef, OdmError>)
    ensures
        ws.generators.to_map().dom().contains(name@) ==> r is Ok && *r->Ok_0
            == ws.generators.to_map()[name@],
        !ws.generators.to_map().dom().contains(name@) ==> (r matches Err(OdmError::Usage(m))
            && m@ == "unknown generator '"@ + name@ + "'"@),
{
    match ws.generators.get(name) {
        Some(d) => Ok(d),
        None => Err(OdmError::Usage(concat3("unknown generator '", name, "'"))),
    }
}

/// The local template of a Generator: its trimmed `template`, when non-empty.
pub open spec fn local_template(d: GeneratorDef) -> Option<Seq<char>> {
    match d.template {
        Some(t) => if trim_spec(t@).len() > 0 {
            Some(trim_spec(t@))
        } else {
            None
        },
        None => None,
    }
}

/// The template of Generator `name`: (config-relative path, absolute path). Unknown
/// Generator or one without a local template → Usage; a template escaping the root →
/// Workspace.
pub fn generator_template(ws: &Workspace, name: &str) -> (r: Result<(String, String), OdmError>)
    ensures
        !ws.generators.to_map().dom().contains(name@) ==> (r matches Err(OdmError::Usage(m))
            && m@ == "unknown generator '"@ + name@ + "'"@),
        ws.generators.to_map().dom().contains(name@) ==> match local_template(
            ws.generators.to_map()[name@],
        ) {
            None => r matches Err(OdmError::Usage(m)) && m@ == "generator '"@ + name@
                + "' has no local template (remote generators deferred)"@,
            Some(t) => match resolved_under_root(ws.root@, t) {
                Some(abs) => r matches Ok((rel, a)) && rel@ == t && a@ == abs,
                None => r matches Err(OdmError::Workspace(m)) && m@ == crate::paths::under_root_error(t),
            },
        },
{
    let def = generator(ws, name)?;
    let t = match &def.template {
        Some(t) => trim_chars(chars_of(t.as_str()).as_slice()),
        None => Vec::new(),
    };
    if t.len() == 0 {
        return Err(
            OdmError::Usage(
                concat3("generator '", name, "' has no local template (remote generators deferred)"),
            ),
        );
    }
    let rel = string_of(t.as_slice());
    let abs = resolve_under_root(ws.root.as_str(), rel.as_str())?;
    Ok((rel, abs))
}

/// The template must exist and be a directory (Operation otherwise).
pub fn template_dir_check(name: &str, template_rel: &str, exists: bool, is_dir: bool) -> (r: Result<
    (),
    OdmError,
>)
    ensures
        !exists ==> (r matches Err(OdmError::Operation(m)) && m@ == "generator '"@ + name@
            + "' template does not exist: "@ + template_rel@),
        exists && !is_dir ==> (r matches Err(OdmError::Operation(m)) && m@ == "generator '"@ + name@
            + "' template is not a directory: "@ + template_rel@),
        r is Ok <==> exists && is_dir,
{
    if !exists {
        let mut m = concat3("generator '", name, "' template does not exist: ");
        push_str(&mut m, template_rel);
        return Err(OdmError::Operation(m));
    }
    if !is_dir {
        let mut m = concat3("generator '", name, "' template is not a directory: ");
        push_str(&mut m, template_rel);
        return Err(OdmError::Operation(m));
    }
    Ok(())
}

/// An existing destination must be a directory, and without `force` an empty one
/// (Operation otherwise); a missing one is created by the caller. `dir_empty` is read only
/// for an existing directory without `force`. `found` is whether the destination exists.
pub fn generate_dest_check(dest_rel: &str, found: bool, is_dir: bool, force: bool, dir_empty: bool) -> (r:
    Result<(), OdmError>)
    ensures
        found && !is_dir ==> (r matches Err(OdmError::Operation(m)) && m@
            == "destination exists and is not a directory: "@ + dest_rel@),
        found && is_dir && !force && !dir_empty ==> (r matches Err(OdmError::Operation(m)) && m@
            == "destination is not empty: "@ + dest_rel@ + " (use --force)"@),
        (r is Ok) == (!found || (is_dir && (force || dir_empty))),
{
    if found {
        if !is_dir {
            let mut m = owned("destination exists and is not a directory: ");
            push_str(&mut m, dest_rel);
            return Err(OdmError::Operation(m));
        }
        if !force && !dir_empty {
            return Err(OdmError::Operation(concat3("destination is not empty: ", dest_rel, " (use --force)")));
        }
    }
    Ok(())
}

/// `odm generate --json` (no name) envelope.
#[derive(Debug, Clone)]
pub struct GeneratorListDto {
    pub generators: Vec<GeneratorListItem>,
}

#[derive(Debug, Clone)]
pub struct GeneratorListItem {
    pub name: String,
    pub template: Option<String>,
    pub url: Option<String>,
}

/// `odm generate <name> --json` envelope.
#[derive(Debug, Clone)]
pub struct GenerateRunDto {
    pub generator: String,
    pub dest: String,
    pub copied: u32,
}

/// Configured Generators, one item each, in name order.
pub fn list_generators_dto(ws: &Workspace) -> (d: GeneratorListDto)
    ensures
        d.generators@.len() == ws.generators.keys().len(),
        forall|i: int|
            0 <= i < d.generators@.len() ==> {
                let it = #[trigger] d.generators@[i];
                &&& it.name@ == ws.generators.keys()[i]
                &&& opt_view(it.template) == opt_view(ws.generators.vals()[i].template)
                &&& opt_view(it.url) == opt_view(ws.generators.vals()[i].url)
            },
{
    let n = ws.generators.len();
    let mut out: Vec<GeneratorListItem> = Vec::new();
    let mut i: usize = 0;
    while i < n
        invariant
            n == ws.generators.keys().len(),
            n == ws.generators.vals().len(),
            i <= n,
            out@.len() == i,
            forall|j: int|
                0 <= j < i ==> {
                    let it = #[trigger] out@[j];
                    &&& it.name@ == ws.generators.keys()[j]
                    &&& opt_view(it.template) == opt_view(ws.generators.vals()[j].template)
                    &&& opt_view(it.url) == opt_view(ws.generators.vals()[j].url)
                },
        decreases n - i,
    {
        let d = ws.generators.value_at(i);
        out.push(
            GeneratorListItem {
                name: copy_string(ws.generators.key_at(i)),
                template: copy_opt(&d.template),
                url: copy_opt(&d.url),
            },
        );
        i += 1;
    }
    GeneratorListDto { generators: out }
}

/// One name per line; `(no generators)` when there are none.
pub open spec fn generator_list_human(d: GeneratorListDto) -> Seq<char> {
    if d.generators@.len() == 0 {
        "(no generators)\n"@
    } else {
        concat_map(d.generators@, |g: GeneratorListItem| g.name@.push('\n'))
    }
}

pub fn format_generator_list_human(dto: &GeneratorListDto) -> (out: String)
    ensures
        out@ == generator_list_human(*dto),
{
    if dto.generators.len() == 0 {
        return owned("(no generators)\n");
    }
    let mut out = String::new();
    let ghost f = |g: GeneratorListItem| g.name@.push('\n');
    let mut i: usize = 0;
    proof {
        assert(dto.generators@.take(0) =~= Seq::<GeneratorListItem>::empty());
        assert(out@ =~= concat_map(dto.generators@.take(0), f));
    }
    while i < dto.generators.len()
        invariant
            i <= dto.generators@.len(),
            f == (|g: GeneratorListItem| g.name@.push('\n')),
            out@ == concat_map(dto.generators@.take(i as int), f),
        decreases dto.generators.len() - i,
    {
        proof {
            lemma_concat_map_take(dto.generators@, f, i as int);
        }
        let ghost before = out@;
        push_string(&mut out, &dto.generators[i].name);
        push_char(&mut out, '\n');
        assert(out@ =~= before + f(dto.generators@[i as int]));
        i += 1;
    }
    proof {
        lemma_take_full(dto.generators@);
    }
    out
}

/// `generated <name> -> <dest> (<copied> files)\n`.
pub fn format_generate_run_human(name: &str, dest: &str, copied: u32) -> (out: String)
    ensures
        out@ == "generated "@ + name@ + " -> "@ + dest@ + " ("@ + decimal(copied as nat)
            + " files)\n"@,
{
    let mut out = concat3("generated ", name, " -> ");
    push_str(&mut out, dest);
    push_str(&mut out, " (");
    push_decimal(&mut out, copied as u64);
    push_str(&mut out, " files)\n");
    out
}

} // verus!
