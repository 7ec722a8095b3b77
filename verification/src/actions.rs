//! Actions and agent start: where commands run, what the shell is given, when a run
//! stops, and what is reported.

use vstd::prelude::*;

use crate::config::{ActionDef, ActionTask, Workspace};
use crate::error::OdmError;
use crate::paths::{join, path_join};
use crate::text::{
    concat3, copy_string, owned, push_str, push_string, strs_view,
};

verus! {

/// Options of `odm run`.
#[derive(Debug, Clone, Copy)]
pub struct RunOptions<'a> {
    pub project: Option<&'a str>,
    pub wt: Option<&'a str>,
    pub extra_args: &'a [String],
}

/// Configured Actions with their names, in name order.
pub fn list_actions<'a>(ws: &'a Workspace) -> (r: Vec<(&'a str, &'a ActionDef)>)
    ensures
        r@.len() == ws.actions.keys().len(),
        forall|i: int|
            0 <= i < r@.len() ==> (#[trigger] r@[i]).0@ == ws.actions.keys()[i] && *r@[i].1
                == ws.actions.vals()[i],
{
    let n = ws.actions.len();
    let mut out: Vec<(&'a str, &'a ActionDef)> = Vec::new();
    let mut i: usize = 0;
    while i < n
        invariant
            n == ws.actions.keys().len(),
            n == ws.actions.vals().len(),
            i <= n,
            out@.len() == i,
            forall|j: int|
                0 <= j < i ==> (#[trigger] out@[j]).0@ == ws.actions.keys()[j] && *out@[j].1
                    == ws.actions.vals()[j],
        decreases n - i,
    {
        out.push((ws.actions.key_at(i).as_str(), ws.actions.value_at(i)));
        i += 1;
    }
    out
}

/// Where a task runs: its `dir` under the root; else the worktree slot
/// `worktrees/<project>/<slot>` (a slot needs a project: Usage); else the project path
/// under the root; else the root itself.
pub open spec fn cwd_candidate_spec(
    root: Seq<char>,
    project_path: Option<Seq<char>>,
    wt_slot: Option<Seq<char>>,
    task_dir: Option<Seq<char>>,
) -> Option<Seq<char>> {
    match task_dir {
        Some(d) => Some(path_join(root, d)),
        None => match wt_slot {
            Some(slot) => match project_path {
                Some(p) => Some(path_join(path_join(path_join(root, "worktrees"@), p), slot)),
                None => None,
            },
            None => match project_path {
                Some(p) => Some(path_join(root, p)),
                None => Some(root),
            },
        },
    }
}

pub open spec fn ov(o: Option<&str>) -> Option<Seq<char>> {
    match o {
        Some(s) => Some(s@),
        None => None,
    }
}

/// Where a task runs, case by case: a task `dir` is joined under the root whatever else
/// is given; with a project and no slot the task runs in the project's checkout, the
/// project path joined under the root (so the directory ends with that path and, for a
/// relative path, lies under the root); with a project and a slot it runs in
/// `worktrees/<project>/<slot>` under the root; with neither it runs in the root; a slot
/// without a project gives no directory.
pub proof fn lemma_cwd_candidate_cases(
    root: Seq<char>,
    project_path: Option<Seq<char>>,
    wt_slot: Option<Seq<char>>,
    task_dir: Option<Seq<char>>,
)
    ensures
        task_dir is Some ==> cwd_candidate_spec(root, project_path, wt_slot, task_dir)
            == Some(path_join(root, task_dir->0)),
        task_dir is None && wt_slot is None ==> match project_path {
            Some(p) => cwd_candidate_spec(root, project_path, wt_slot, task_dir) == Some(
                path_join(root, p),
            ),
            None => cwd_candidate_spec(root, project_path, wt_slot, task_dir) == Some(root),
        },
        task_dir is None && wt_slot is None && project_path is Some ==> {
            let p = project_path->0;
            let c = cwd_candidate_spec(root, project_path, wt_slot, task_dir)->0;
            &&& c.len() >= p.len()
            &&& c.subrange(c.len() - p.len(), c.len() as int) == p
            &&& !(p.len() > 0 && p[0] == '/') ==> c.len() >= root.len() && c.subrange(
                0,
                root.len() as int,
            ) == root
            &&& !(p.len() > 0 && p[0] == '/') && root.len() > 0 && root.last() != '/' ==> c
                == root + seq!['/'] + p
        },
        task_dir is None && wt_slot is Some ==> match project_path {
            Some(p) => cwd_candidate_spec(root, project_path, wt_slot, task_dir) == Some(
                path_join(path_join(path_join(root, "worktrees"@), p), wt_slot->0),
            ),
            None => cwd_candidate_spec(root, project_path, wt_slot, task_dir) is None,
        },
{
    if let Some(p) = project_path {
        crate::paths::lemma_path_join_parts(root, p);
    }
}

/// The directory a task would run in (see `cwd_candidate_spec`); a slot without a
/// project is a usage error.
pub fn cwd_candidate(
    root: &str,
    project_path: Option<&str>,
    wt_slot: Option<&str>,
    task_dir: Option<&str>,
) -> (r: Result<String, OdmError>)
    ensures
        match cwd_candidate_spec(root@, ov(project_path), ov(wt_slot), ov(task_dir)) {
            Some(c) => r matches Ok(s) && s@ == c,
            None => r matches Err(OdmError::Usage(m)) && m@ == "--wt requires --project"@,
        },
{
    match task_dir {
        Some(d) => Ok(join(root, d)),
        None => match wt_slot {
            Some(slot) => match project_path {
                Some(p) => {
                    let w = join(root, "worktrees");
                    let wp = join(w.as_str(), p);
                    Ok(join(wp.as_str(), slot))
                },
                None => Err(OdmError::Usage(owned("--wt requires --project"))),
            },
            None => match project_path {
                Some(p) => Ok(join(root, p)),
                None => Ok(owned(root)),
            },
        },
    }
}

/// The usage message when the chosen directory does not exist (`None` for the root,
/// which is never checked).
pub open spec fn missing_cwd_message(
    project_path: Option<Seq<char>>,
    wt_slot: Option<Seq<char>>,
    task_dir: Option<Seq<char>>,
) -> Option<Seq<char>> {
    match task_dir {
        Some(d) => Some("action task dir does not exist: "@ + d),
        None => match wt_slot {
            Some(slot) => match project_path {
                Some(p) => Some("worktree path does not exist: worktrees/"@ + p + "/"@ + slot),
                None => None,
            },
            None => match project_path {
                Some(p) => Some("project path does not exist: "@ + p),
                None => None,
            },
        },
    }
}

/// Resolve the working directory of a task; `candidate_is_dir` is whether the
/// candidate (see `cwd_candidate`) is an existing directory.
pub fn resolve_cwd(
    root: &str,
    project_path: Option<&str>,
    wt_slot: Option<&str>,
    task_dir: Option<&str>,
    candidate_is_dir: bool,
) -> (r: Result<String, OdmError>)
    ensures
        match cwd_candidate_spec(root@, ov(project_path), ov(wt_slot), ov(task_dir)) {
            None => r matches Err(OdmError::Usage(m)) && m@ == "--wt requires --project"@,
            Some(c) => match missing_cwd_message(ov(project_path), ov(wt_slot), ov(task_dir)) {
                Some(m) => if candidate_is_dir {
                    r matches Ok(s) && s@ == c
                } else {
                    r matches Err(OdmError::Usage(u)) && u@ == m
                },
                None => r matches Ok(s) && s@ == c,
            },
        },
{
    let c = cwd_candidate(root, project_path, wt_slot, task_dir)?;
    if candidate_is_dir {
        return Ok(c);
    }
    match task_dir {
        Some(d) => {
            let mut m = owned("action task dir does not exist: ");
            push_str(&mut m, d);
            Err(OdmError::Usage(m))
        },
        None => match wt_slot {
            Some(slot) => match project_path {
                Some(p) => {
                    let mut m = owned("worktree path does not exist: worktrees/");
                    push_str(&mut m, p);
                    push_str(&mut m, "/");
                    push_str(&mut m, slot);
                    Err(OdmError::Usage(m))
                },
                None => Ok(c),
            },
            None => match project_path {
                Some(p) => {
                    let mut m = owned("project path does not exist: ");
                    push_str(&mut m, p);
                    Err(OdmError::Usage(m))
                },
                None => Ok(c),
            },
        },
    }
}

/// Checks of `odm run` before any task: the Action must exist; `--wt` needs
/// `--project`; the project must exist. Returns the Action and the project argument of
/// `resolve_cwd`: the project name with `--wt`, its path without.
pub fn run_action_plan<'a>(ws: &'a Workspace, action_name: &str, project: Option<&str>, wt: Option<&str>) -> (r:
    Result<(&'a ActionDef, Option<String>), OdmError>)
    ensures
        !ws.actions.to_map().dom().contains(action_name@) ==> (r matches Err(OdmError::Usage(m))
            && m@ == "unknown action '"@ + action_name@ + "'"@),
        ws.actions.to_map().dom().contains(action_name@) && wt is Some && project is None ==> (
        r matches Err(OdmError::Usage(m)) && m@ == "--wt requires --project"@),
        ws.actions.to_map().dom().contains(action_name@) && !(wt is Some && project is None) ==> match project {
            Some(p) => if ws.config.projects.to_map().dom().contains(p@) {
                r matches Ok((d, cp)) && *d == ws.actions.to_map()[action_name@] && cp is Some
                    && cp->0@ == (if wt is Some {
                    p@
                } else {
                    ws.config.projects.to_map()[p@].path@
                })
            } else {
                r matches Err(OdmError::Usage(m)) && m@ == "unknown project '"@ + p@ + "'"@
            },
            None => r matches Ok((d, cp)) && *d == ws.actions.to_map()[action_name@] && cp is None,
        },
{
    let def = match ws.actions.get(action_name) {
        Some(d) => d,
        None => return Err(OdmError::Usage(concat3("unknown action '", action_name, "'"))),
    };
    if wt.is_some() && project.is_none() {
        return Err(OdmError::Usage(owned("--wt requires --project")));
    }
    match project {
        Some(name) => match ws.config.projects.get(name) {
            Some(entry) => {
                if wt.is_some() {
                    Ok((def, Some(owned(name))))
                } else {
                    Ok((def, Some(copy_string(&entry.path))))
                }
            },
            None => Err(OdmError::Usage(concat3("unknown project '", name, "'"))),
        },
        None => Ok((def, None)),
    }
}

/// `sh` arguments for a task: `-c <run>`, or with extra arguments
/// `-c "<run> \"$@\"" _ <extra...>`.
pub open spec fn task_shell_args_spec(run: Seq<char>, extra: Seq<Seq<char>>) -> Seq<Seq<char>> {
    if extra.len() == 0 {
        seq!["-c"@, run]
    } else {
        seq!["-c"@, run + " \"$@\""@, "_"@] + extra
    }
}

/// The `sh` argument list of one task.
pub fn task_shell_args(task: &ActionTask, extra_args: &[String]) -> (r: Vec<String>)
    ensures
        strs_view(r@) == task_shell_args_spec(task.run@, extra_args@.map_values(|s: String| s@)),
{
    let mut out: Vec<String> = Vec::new();
    out.push(owned("-c"));
    if extra_args.len() == 0 {
        out.push(copy_string(&task.run));
        assert(strs_view(out@) =~= task_shell_args_spec(task.run@, extra_args@.map_values(|s: String| s@)));
        return out;
    }
    let mut script = copy_string(&task.run);
    push_str(&mut script, " \"$@\"");
    out.push(script);
    out.push(owned("_"));
    let ghost head = strs_view(out@);
    let mut i: usize = 0;
    while i < extra_args.len()
        invariant
            i <= extra_args@.len(),
            strs_view(out@) == head + extra_args@.map_values(|s: String| s@).take(i as int),
        decreases extra_args.len() - i,
    {
        let ghost before = out@;
        let ghost ev = extra_args@.map_values(|s: String| s@);
        out.push(copy_string(&extra_args[i]));
        assert(strs_view(out@) =~= strs_view(before).push(extra_args@[i as int]@));
        assert(ev.take(i as int + 1) =~= ev.take(i as int).push(ev[i as int]));
        assert(strs_view(out@) =~= head + extra_args@.map_values(|s: String| s@).take(i as int + 1));
        i += 1;
    }
    assert(extra_args@.map_values(|s: String| s@).take(extra_args@.len() as int) =~= extra_args@.map_values(|s: String| s@));
    assert(strs_view(out@) =~= task_shell_args_spec(task.run@, extra_args@.map_values(|s: String| s@)));
    out
}

/// Extra arguments go to the last task only.
pub fn task_gets_extra(i: usize, n: usize) -> (b: bool)
    requires
        i < n,
    ensures
        b == (i + 1 == n),
{
    i + 1 == n
}

/// After task `i` of `n` exits with `code`: the run ends with that code when it is
/// non-zero; it ends with 0 after the last task; otherwise it continues (`None`).
pub fn action_step(i: usize, n: usize, code: i32) -> (r: Option<i32>)
    requires
        i < n,
    ensures
        code != 0 ==> r == Some(code),
        code == 0 && i + 1 == n ==> r == Some(0i32),
        code == 0 && i + 1 < n ==> r is None,
{
    if code != 0 {
        Some(code)
    } else if i + 1 == n {
        Some(0)
    } else {
        None
    }
}

// ---------------------------------------------------------------------------
// Agent start
// ---------------------------------------------------------------------------

/// How the started program's standard streams are handled.
#[derive(Debug, Clone, Copy, PartialEq, Eq, Structural)]
pub enum StdioMode {
    Inherit,
    Capture,
}

/// Options for starting an agent program.
#[derive(Debug, Clone, Copy)]
pub struct StartOptions<'a> {
    /// Required project name.
    pub project: &'a str,
    /// Optional worktree slot under `worktrees/<project>/`.
    pub wt: Option<&'a str>,
    /// Program to exec.
    pub program: &'a str,
    pub args: &'a [String],
    pub stdio: StdioMode,
}

/// Outcome of a one-shot agent start; streams are `Some` only when captured.
#[derive(Debug, Clone)]
pub struct StartResult {
    pub exit_code: i32,
    pub cwd: String,
    pub stdout: Option<String>,
    pub stderr: Option<String>,
}

/// Where an agent starts: the project's path under the root, or its worktree slot.
/// Empty project, empty program, empty slot and unknown project are usage errors.
pub fn start_cwd(ws: &Workspace, project: &str, wt: Option<&str>, program: &str) -> (r: Result<
    String,
    OdmError,
>)
    ensures
        project@.len() == 0 ==> (r matches Err(OdmError::Usage(m)) && m@ == "project is required"@),
        project@.len() > 0 && program@.len() == 0 ==> (r matches Err(OdmError::Usage(m)) && m@
            == "program is required"@),
        project@.len() > 0 && program@.len() > 0 && (wt matches Some(s) && s@.len() == 0) ==> (
        r matches Err(OdmError::Usage(m)) && m@ == "worktree slot must not be empty"@),
        project@.len() > 0 && program@.len() > 0 && !(wt matches Some(s) && s@.len() == 0) ==> (
        if ws.config.projects.to_map().dom().contains(project@) {
            r matches Ok(c) && c@ == match wt {
                Some(s) => path_join(path_join(path_join(ws.root@, "worktrees"@), project@), s@),
                None => path_join(ws.root@, ws.config.projects.to_map()[project@].path@),
            }
        } else {
            r matches Err(OdmError::Usage(m)) && m@ == "unknown project '"@ + project@ + "'"@
        }),
{
    let pc = crate::text::chars_of(project);
    if pc.len() == 0 {
        return Err(OdmError::Usage(owned("project is required")));
    }
    let gc = crate::text::chars_of(program);
    if gc.len() == 0 {
        return Err(OdmError::Usage(owned("program is required")));
    }
    match wt {
        Some(slot) => {
            let sc = crate::text::chars_of(slot);
            if sc.len() == 0 {
                return Err(OdmError::Usage(owned("worktree slot must not be empty")));
            }
        },
        None => {},
    }
    let entry = match ws.config.projects.get(project) {
        Some(e) => e,
        None => return Err(OdmError::Usage(concat3("unknown project '", project, "'"))),
    };
    match wt {
        Some(slot) => {
            let w = join(ws.root.as_str(), "worktrees");
            let wp = join(w.as_str(), project);
            Ok(join(wp.as_str(), slot))
        },
        None => Ok(join(ws.root.as_str(), entry.path.as_str())),
    }
}

/// `odm agent start --json` envelope.
#[derive(Debug, Clone)]
pub struct AgentStartDto {
    pub cwd: String,
    pub program: String,
    pub args: Vec<String>,
    pub exit_code: i32,
    pub stdout: String,
    pub stderr: String,
}

/// Outcome of `odm agent start`.
#[derive(Debug, Clone)]
pub enum StartOutcome {
    /// JSON mode: print the DTO, then exit with the child's code.
    Json(AgentStartDto),
    /// Inherited stdio: the child already wrote; exit with its code.
    Inherit(i32),
}

pub open spec fn stream_text(o: Option<String>) -> Seq<char> {
    match o {
        Some(s) => s@,
        None => Seq::empty(),
    }
}

fn stream_or_empty(o: &Option<String>) -> (s: String)
    ensures
        s@ == stream_text(*o),
{
    match o {
        Some(x) => copy_string(x),
        None => String::new(),
    }
}

/// The start DTO: cwd, program, args, exit code, and the captured streams (empty when
/// not captured).
pub fn agent_start_dto(program: &str, args: &[String], result: &StartResult) -> (d: AgentStartDto)
    ensures
        d.cwd@ == result.cwd@,
        d.program@ == program@,
        strs_view(d.args@) == args@.map_values(|s: String| s@),
        d.exit_code == result.exit_code,
        d.stdout@ == stream_text(result.stdout),
        d.stderr@ == stream_text(result.stderr),
{
    let mut v: Vec<String> = Vec::new();
    let mut i: usize = 0;
    while i < args.len()
        invariant
            i <= args@.len(),
            strs_view(v@) == args@.map_values(|s: String| s@).take(i as int),
        decreases args.len() - i,
    {
        let ghost before = v@;
        let ghost av = args@.map_values(|s: String| s@);
        v.push(copy_string(&args[i]));
        assert(strs_view(v@) =~= strs_view(before).push(args@[i as int]@));
        assert(av.take(i as int + 1) =~= av.take(i as int).push(av[i as int]));
        assert(strs_view(v@) =~= args@.map_values(|s: String| s@).take(i as int + 1));
        i += 1;
    }
    assert(args@.map_values(|s: String| s@).take(args@.len() as int) =~= args@.map_values(|s: String| s@));
    AgentStartDto {
        cwd: copy_string(&result.cwd),
        program: owned(program),
        args: v,
        exit_code: result.exit_code,
        stdout: stream_or_empty(&result.stdout),
        stderr: stream_or_empty(&result.stderr),
    }
}

/// The exit code `odm agent start` finishes with.
pub fn start_exit_code(outcome: &StartOutcome) -> (c: i32)
    ensures
        c == match *outcome {
            StartOutcome::Json(d) => d.exit_code,
            StartOutcome::Inherit(code) => code,
        },
{
    match outcome {
        StartOutcome::Json(d) => d.exit_code,
        StartOutcome::Inherit(code) => *code,
    }
}

/// `odm agent start` arguments: a non-empty project is required, then a non-empty
/// program (the first argument); the rest are its arguments.
pub fn start_request(project: Option<&str>, program_args: &[String]) -> (r: Result<(String, Vec<String>), OdmError>)
    ensures
        !(project matches Some(p) && p@.len() > 0) ==> (r matches Err(OdmError::Usage(m)) && m@
            == "project is required"@),
        (project matches Some(p) && p@.len() > 0) && (program_args@.len() == 0 || program_args@[0]@.len()
            == 0) ==> (r matches Err(OdmError::Usage(m)) && m@ == "program is required"@),
        (project matches Some(p) && p@.len() > 0) && program_args@.len() > 0 && program_args@[0]@.len()
            > 0 ==> (r matches Ok((prog, args)) && prog@ == program_args@[0]@ && strs_view(args@)
            == program_args@.map_values(|s: String| s@).skip(1)),
{
    match project {
        Some(p) => {
            if crate::text::chars_of(p).len() == 0 {
                return Err(OdmError::Usage(owned("project is required")));
            }
        },
        None => return Err(OdmError::Usage(owned("project is required"))),
    }
    if program_args.len() == 0 || crate::text::chars_of(program_args[0].as_str()).len() == 0 {
        return Err(OdmError::Usage(owned("program is required")));
    }
    let mut rest: Vec<String> = Vec::new();
    let mut i: usize = 1;
    let ghost pv = program_args@.map_values(|s: String| s@);
    proof {
        assert(strs_view(rest@) =~= pv.subrange(1, 1));
    }
    while i < program_args.len()
        invariant
            1 <= i <= program_args@.len(),
            pv == program_args@.map_values(|s: String| s@),
            strs_view(rest@) == pv.subrange(1, i as int),
        decreases program_args.len() - i,
    {
        let ghost before = rest@;
        rest.push(copy_string(&program_args[i]));
        assert(strs_view(rest@) =~= strs_view(before).push(program_args@[i as int]@));
        assert(pv.subrange(1, i as int + 1) =~= pv.subrange(1, i as int).push(pv[i as int]));
        i += 1;
    }
    assert(pv.subrange(1, program_args@.len() as int) =~= pv.skip(1));
    Ok((copy_string(&program_args[0]), rest))
}

} // verus!
