//! The decisions of a migration run: which steps it takes, how it reads the
//! status of a remote operation, and what it writes when a step fails. The
//! caller performs each step and reports back.

use crate::ops::{
    add_resources, add_spec, apply_default_retention, default_spec, remove_resources, remove_spec,
    retain_resources, retain_spec,
};
use crate::rewrite::{rewrite, update_template_references, IdMapping};
use crate::text::name_set;
use crate::value::{Tree, Value};
use crate::text::{contains_text, decimal, push_char, str_eq, text_contains};
use crate::text::decimal_spec;
use crate::validate::Mode;
use vstd::prelude::*;

verus! {

/// One step of a run that the caller performs against the control plane.
#[derive(Debug, Clone, Copy, PartialEq, Eq, Structural)]
pub enum Step {
    /// Have every final template checked by the control plane.
    ValidateTemplates,
    /// Write the final templates to disk and stop (dry run).
    ExportTemplates,
    /// Update the source stack with its declarations retained.
    RetainInSource,
    /// Remove the moved declarations from the source stack.
    RemoveFromSource,
    /// Wait until the source stack has finished updating.
    WaitForSource,
    /// Create the import change set on the target stack.
    CreateImport,
    /// Wait until the import change set is created.
    WaitForImportCreated,
    /// Execute the import change set.
    ExecuteImport,
    /// Wait until the target stack has finished updating.
    WaitForTarget,
    /// Push the final merged template to the target stack.
    UpdateTarget,
    /// Submit the relocation request.
    CreateRefactor,
    /// Wait until the relocation request is created.
    WaitForRefactorCreated,
    /// Execute the relocation request.
    ExecuteRefactor,
    /// Wait until the relocation has run.
    WaitForRefactorExecuted,
}

/// The steps of a run. A dry run only exports. The refactor modes validate,
/// then submit, create and execute one relocation. The import mode validates,
/// retains the declarations in the source if that changes the source,
/// removes them from it, imports them into the target and pushes the final
/// target template, waiting after each update.
pub open spec fn plan_spec(mode: Mode, dry_run: bool, source_changed: bool) -> Seq<Step> {
    if dry_run {
        seq![Step::ExportTemplates]
    } else if mode == Mode::CrossScopeImport {
        seq![Step::ValidateTemplates] + (if source_changed {
            seq![Step::RetainInSource, Step::WaitForSource]
        } else {
            Seq::empty()
        }) + seq![
            Step::RemoveFromSource,
            Step::WaitForSource,
            Step::CreateImport,
            Step::WaitForImportCreated,
            Step::ExecuteImport,
            Step::WaitForTarget,
            Step::UpdateTarget,
            Step::WaitForTarget,
        ]
    } else {
        seq![
            Step::ValidateTemplates,
            Step::CreateRefactor,
            Step::WaitForRefactorCreated,
            Step::ExecuteRefactor,
            Step::WaitForRefactorExecuted,
        ]
    }
}

/// The steps of a run; `source_changed` says whether retaining the moved
/// declarations changes the source template.
pub fn plan(mode: Mode, dry_run: bool, source_changed: bool) -> (r: Vec<Step>)
    ensures
        r@ == plan_spec(mode, dry_run, source_changed),
{
    let mut v: Vec<Step> = Vec::new();
    if dry_run {
        v.push(Step::ExportTemplates);
    } else if mode == Mode::CrossScopeImport {
        v.push(Step::ValidateTemplates);
        if source_changed {
            v.push(Step::RetainInSource);
            v.push(Step::WaitForSource);
        }
        v.push(Step::RemoveFromSource);
        v.push(Step::WaitForSource);
        v.push(Step::CreateImport);
        v.push(Step::WaitForImportCreated);
        v.push(Step::ExecuteImport);
        v.push(Step::WaitForTarget);
        v.push(Step::UpdateTarget);
        v.push(Step::WaitForTarget);
    } else {
        v.push(Step::ValidateTemplates);
        v.push(Step::CreateRefactor);
        v.push(Step::WaitForRefactorCreated);
        v.push(Step::ExecuteRefactor);
        v.push(Step::WaitForRefactorExecuted);
    }
    assert(v@ =~= plan_spec(mode, dry_run, source_changed));
    v
}

pub open spec fn is_wait(step: Step) -> bool {
    step == Step::WaitForSource || step == Step::WaitForTarget || step == Step::WaitForImportCreated
        || step == Step::WaitForRefactorCreated || step == Step::WaitForRefactorExecuted
}

/// What a status reported by the control plane means for a wait.
#[derive(Debug, Clone, Copy, PartialEq, Eq, Structural)]
pub enum PollOutcome {
    /// Still running: ask again later.
    Pending,
    /// Finished well.
    Succeeded,
    /// Finished badly.
    Failed,
}

/// The statuses that a wait keeps waiting on, and those that end it well.
pub open spec fn pending_status(step: Step, s: Seq<char>) -> bool {
    match step {
        Step::WaitForSource | Step::WaitForTarget => s == "UPDATE_IN_PROGRESS"@ || s
            == "UPDATE_COMPLETE_CLEANUP_IN_PROGRESS"@ || s == "IMPORT_IN_PROGRESS"@,
        Step::WaitForImportCreated => s == "CREATE_IN_PROGRESS"@ || s == "CREATE_PENDING"@,
        Step::WaitForRefactorCreated => s == "CREATE_IN_PROGRESS"@,
        Step::WaitForRefactorExecuted => s == "AVAILABLE"@ || s == "EXECUTE_IN_PROGRESS"@ || s
            == "ROLLBACK_IN_PROGRESS"@,
        _ => false,
    }
}

pub open spec fn success_status(step: Step, s: Seq<char>) -> bool {
    match step {
        Step::WaitForSource | Step::WaitForTarget => s == "UPDATE_COMPLETE"@ || s
            == "IMPORT_COMPLETE"@,
        Step::WaitForImportCreated | Step::WaitForRefactorCreated => s == "CREATE_COMPLETE"@,
        Step::WaitForRefactorExecuted => s == "EXECUTE_COMPLETE"@,
        _ => false,
    }
}

/// Reads the status that a wait step got: pending statuses keep it waiting,
/// the success statuses end it well, and any other status ends it badly.
pub fn poll_outcome(step: Step, status: &str) -> (r: PollOutcome)
    ensures
        r == (if pending_status(step, status@) {
            PollOutcome::Pending
        } else if success_status(step, status@) {
            PollOutcome::Succeeded
        } else {
            PollOutcome::Failed
        }),
{
    match step {
        Step::WaitForSource | Step::WaitForTarget => {
            if str_eq(status, "UPDATE_IN_PROGRESS") || str_eq(
                status,
                "UPDATE_COMPLETE_CLEANUP_IN_PROGRESS",
            ) || str_eq(status, "IMPORT_IN_PROGRESS") {
                PollOutcome::Pending
            } else if str_eq(status, "UPDATE_COMPLETE") || str_eq(status, "IMPORT_COMPLETE") {
                PollOutcome::Succeeded
            } else {
                PollOutcome::Failed
            }
        },
        Step::WaitForImportCreated => {
            if str_eq(status, "CREATE_IN_PROGRESS") || str_eq(status, "CREATE_PENDING") {
                PollOutcome::Pending
            } else if str_eq(status, "CREATE_COMPLETE") {
                PollOutcome::Succeeded
            } else {
                PollOutcome::Failed
            }
        },
        Step::WaitForRefactorCreated => {
            if str_eq(status, "CREATE_IN_PROGRESS") {
                PollOutcome::Pending
            } else if str_eq(status, "CREATE_COMPLETE") {
                PollOutcome::Succeeded
            } else {
                PollOutcome::Failed
            }
        },
        Step::WaitForRefactorExecuted => {
            if str_eq(status, "AVAILABLE") || str_eq(status, "EXECUTE_IN_PROGRESS") || str_eq(
                status,
                "ROLLBACK_IN_PROGRESS",
            ) {
                PollOutcome::Pending
            } else if str_eq(status, "EXECUTE_COMPLETE") {
                PollOutcome::Succeeded
            } else {
                PollOutcome::Failed
            }
        },
        _ => PollOutcome::Failed,
    }
}

/// Seconds to sleep before asking again: short while a request is being
/// created, longer while a stack or a relocation is running.
pub open spec fn interval_spec(step: Step) -> u64 {
    if step == Step::WaitForImportCreated || step == Step::WaitForRefactorCreated {
        1
    } else {
        5
    }
}

pub fn poll_interval(step: Step) -> (r: u64)
    ensures
        r == interval_spec(step),
{
    if step == Step::WaitForImportCreated || step == Step::WaitForRefactorCreated {
        1
    } else {
        5
    }
}

/// What the caller reports after performing a step.
#[derive(Debug, Clone, Copy, PartialEq, Eq, Structural)]
pub enum Reply {
    /// The step went through (for a wait: the status is a success).
    Done,
    /// A wait got a pending status.
    Pending,
    /// The call failed, or a wait got a failure status.
    Error,
}

/// What the caller does next.
#[derive(Debug, Clone, Copy, PartialEq, Eq, Structural)]
pub enum Command {
    /// Perform the step at this position of the plan.
    Perform(usize),
    /// Sleep this many seconds, then perform the step at this position again.
    Retry(u64, usize),
    /// Write the computed templates and the error context to disk, then
    /// report the failure of this step.
    Recover(usize),
    /// Report the failure of this step; there is nothing to save.
    Abort(usize),
    /// The run is over and went well.
    Finish,
}

/// The next command, after the step at position `at` of `steps` got `reply`.
/// A step that fails once the templates are computed has them saved first,
/// unless it is the export itself, whose failure leaves nothing to save.
pub open spec fn advance_spec(steps: Seq<Step>, at: int, reply: Reply) -> Command {
    match reply {
        Reply::Done => if at + 1 < steps.len() {
            Command::Perform((at + 1) as usize)
        } else {
            Command::Finish
        },
        Reply::Pending => if is_wait(steps[at]) {
            Command::Retry(interval_spec(steps[at]), at as usize)
        } else {
            failure_spec(steps[at], at)
        },
        Reply::Error => failure_spec(steps[at], at),
    }
}

pub open spec fn failure_spec(step: Step, at: int) -> Command {
    if step == Step::ExportTemplates {
        Command::Abort(at as usize)
    } else {
        Command::Recover(at as usize)
    }
}

pub fn advance(steps: &Vec<Step>, at: usize, reply: Reply) -> (r: Command)
    requires
        at < steps@.len(),
    ensures
        r == advance_spec(steps@, at as int, reply),
{
    let s = steps[at];
    let waits = s == Step::WaitForSource || s == Step::WaitForTarget || s
        == Step::WaitForImportCreated || s == Step::WaitForRefactorCreated || s
        == Step::WaitForRefactorExecuted;
    let failed = if s == Step::ExportTemplates {
        Command::Abort(at)
    } else {
        Command::Recover(at)
    };
    assert(failed == failure_spec(steps@[at as int], at as int));
    match reply {
        Reply::Done => if at < steps.len() - 1 {
            Command::Perform(at + 1)
        } else {
            Command::Finish
        },
        Reply::Pending => if waits {
            Command::Retry(poll_interval(s), at)
        } else {
            failed
        },
        Reply::Error => failed,
    }
}

/// The name a step goes by in the error context.
pub open spec fn step_name(step: Step) -> Seq<char> {
    match step {
        Step::ValidateTemplates => "validate templates"@,
        Step::ExportTemplates => "export templates"@,
        Step::RetainInSource => "retain resources in source stack"@,
        Step::RemoveFromSource => "remove resources from source stack"@,
        Step::WaitForSource => "wait for source stack"@,
        Step::CreateImport => "create import change set"@,
        Step::WaitForImportCreated => "wait for import change set"@,
        Step::ExecuteImport => "execute import change set"@,
        Step::WaitForTarget => "wait for target stack"@,
        Step::UpdateTarget => "update target stack"@,
        Step::CreateRefactor => "create stack refactor"@,
        Step::WaitForRefactorCreated => "wait for stack refactor creation"@,
        Step::ExecuteRefactor => "execute stack refactor"@,
        Step::WaitForRefactorExecuted => "wait for stack refactor execution"@,
    }
}

pub fn step_label(step: Step) -> (r: &'static str)
    ensures
        r@ == step_name(step),
{
    match step {
        Step::ValidateTemplates => "validate templates",
        Step::ExportTemplates => "export templates",
        Step::RetainInSource => "retain resources in source stack",
        Step::RemoveFromSource => "remove resources from source stack",
        Step::WaitForSource => "wait for source stack",
        Step::CreateImport => "create import change set",
        Step::WaitForImportCreated => "wait for import change set",
        Step::ExecuteImport => "execute import change set",
        Step::WaitForTarget => "wait for target stack",
        Step::UpdateTarget => "update target stack",
        Step::CreateRefactor => "create stack refactor",
        Step::WaitForRefactorCreated => "wait for stack refactor creation",
        Step::ExecuteRefactor => "execute stack refactor",
        Step::WaitForRefactorExecuted => "wait for stack refactor execution",
    }
}

/// One line of the identifier list: `old -> new`, or `old (no rename)`.
pub open spec fn mapping_line(old_id: Seq<char>, new_id: Seq<char>) -> Seq<char> {
    if old_id == new_id {
        old_id + " (no rename)"@ + seq!['\n']
    } else {
        old_id + " -> "@ + new_id + seq!['\n']
    }
}

pub open spec fn mapping_lines(pairs: Seq<(String, String)>) -> Seq<char>
    decreases pairs.len(),
{
    if pairs.len() == 0 {
        Seq::empty()
    } else {
        mapping_lines(pairs.drop_last()) + mapping_line(pairs.last().0@, pairs.last().1@)
    }
}

/// The error context written when a run fails: the failing step, the source
/// and target stacks, and every pair of the mapping, one per line.
pub open spec fn error_context_spec(
    step: Step,
    source: Seq<char>,
    target: Seq<char>,
    pairs: Seq<(String, String)>,
) -> Seq<char> {
    "Failed operation: "@ + step_name(step) + seq!['\n'] + "Source stack: "@ + source + seq!['\n']
        + "Target stack: "@ + target + seq!['\n'] + "Resources:"@ + seq!['\n'] + mapping_lines(pairs)
}

pub fn error_context(step: Step, source: &str, target: &str, mapping: &IdMapping) -> (r: String)
    ensures
        r@ == error_context_spec(step, source@, target@, mapping.pairs@),
{
    let mut out = String::new();
    out.append("Failed operation: ");
    out.append(step_label(step));
    push_char(&mut out, '\n');
    out.append("Source stack: ");
    out.append(source);
    push_char(&mut out, '\n');
    out.append("Target stack: ");
    out.append(target);
    push_char(&mut out, '\n');
    out.append("Resources:");
    push_char(&mut out, '\n');
    let ghost head = out@;
    let pairs = &mapping.pairs;
    let mut i: usize = 0;
    assert(pairs@.take(0) =~= Seq::<(String, String)>::empty());
    assert(out@ =~= head + mapping_lines(pairs@.take(0)));
    while i < pairs.len()
        invariant
            i <= pairs@.len(),
            *pairs == mapping.pairs,
            out@ == head + mapping_lines(pairs@.take(i as int)),
        decreases pairs@.len() - i,
    {
        assert(pairs@.take(i + 1).drop_last() =~= pairs@.take(i as int));
        let ghost before = out@;
        let (o, n) = (&pairs[i].0, &pairs[i].1);
        out.append(o.as_str());
        if *o == *n {
            out.append(" (no rename)");
        } else {
            out.append(" -> ");
            out.append(n.as_str());
        }
        push_char(&mut out, '\n');
        assert(out@ =~= before + mapping_line(o@, n@));
        i = i + 1;
    }
    assert(pairs@.take(pairs@.len() as int) =~= pairs@);
    assert(out@ =~= error_context_spec(step, source@, target@, pairs@));
    out
}


/// Relies on uuid's `Uuid::new_v4` and on its `Display`, which writes the
/// hyphenated lowercase form: 36 characters, hyphens at positions 8, 13, 18
/// and 23, lowercase hexadecimal digits elsewhere.
#[verifier::external_body]
fn random_uuid_text() -> (r: String)
    ensures
        r@.len() == 36,
        forall|i: int|
            0 <= i < 36 ==> if i == 8 || i == 13 || i == 18 || i == 23 {
                r@[i] == '-'
            } else {
                ('0' <= #[trigger] r@[i] <= '9') || ('a' <= r@[i] <= 'f')
            },
{
    uuid::Uuid::new_v4().to_string()
}

/// A fresh name for an import change set of `stack_name`: the stack's name, a
/// dash and a random identifier of 36 characters.
pub fn changeset_name(stack_name: &str) -> (r: String)
    ensures
        exists|u: Seq<char>| u.len() == 36 && r@ == stack_name@ + seq!['-'] + u,
{
    let token = random_uuid_text();
    let mut name = stack_name.to_owned();
    push_char(&mut name, '-');
    name.append(token.as_str());
    assert(name@ == stack_name@ + seq!['-'] + token@);
    name
}

/// `<scope>-<operation>-<suffix>-<timestamp>`, the stem of an export file.
pub open spec fn export_stem(
    scope: Seq<char>,
    operation: Seq<char>,
    suffix: Seq<char>,
    timestamp: Seq<char>,
) -> Seq<char> {
    scope + seq!['-'] + operation + seq!['-'] + suffix + seq!['-'] + timestamp
}

/// The name of an export file: its stem and extension, with `.n` before the
/// extension for the `n`-th name tried after a collision (none for 0).
pub open spec fn export_name_spec(
    scope: Seq<char>,
    operation: Seq<char>,
    suffix: Seq<char>,
    timestamp: Seq<char>,
    extension: Seq<char>,
    attempt: nat,
) -> Seq<char> {
    export_stem(scope, operation, suffix, timestamp) + (if attempt == 0 {
        Seq::empty()
    } else {
        seq!['.'] + decimal_spec(attempt)
    }) + seq!['.'] + extension
}

pub fn export_file_name(
    scope: &str,
    operation: &str,
    suffix: &str,
    timestamp: &str,
    extension: &str,
    attempt: u64,
) -> (r: String)
    ensures
        r@ == export_name_spec(scope@, operation@, suffix@, timestamp@, extension@, attempt as nat),
{
    let mut name = scope.to_owned();
    push_char(&mut name, '-');
    name.append(operation);
    push_char(&mut name, '-');
    name.append(suffix);
    push_char(&mut name, '-');
    name.append(timestamp);
    let ghost stem = name@;
    if attempt > 0 {
        push_char(&mut name, '.');
        let d = decimal(attempt);
        name.append(d.as_str());
    }
    push_char(&mut name, '.');
    name.append(extension);
    assert(name@ =~= export_name_spec(scope@, operation@, suffix@, timestamp@, extension@, attempt as nat));
    name
}


/// Whether an error message of the control plane is about credentials.
pub open spec fn credential_message(m: Seq<char>) -> bool {
    text_contains(m, "credential"@) || text_contains(m, "Credential"@) || text_contains(
        m,
        "ExpiredToken"@,
    ) || text_contains(m, "InvalidClientTokenId"@) || text_contains(m, "security token"@)
}

/// Whether a failed call failed for want of valid credentials, which the
/// caller reports with advice on how to sign in again.
pub fn is_credential_error(message: &str) -> (r: bool)
    ensures
        r == credential_message(message@),
{
    contains_text(message, "credential") || contains_text(message, "Credential") || contains_text(
        message,
        "ExpiredToken",
    ) || contains_text(message, "InvalidClientTokenId") || contains_text(message, "security token")
}


/// What a computed template is for.
#[derive(Debug, Clone, Copy, PartialEq, Eq, Structural)]
pub enum TemplateRole {
    /// The source stack with the declarations renamed in place.
    Renamed,
    /// The source stack without the moved declarations.
    Source,
    /// The target stack with the moved declarations.
    Target,
    /// The source stack with the moved declarations retained.
    Retained,
    /// The source stack with the moved declarations removed.
    Removed,
    /// The target template that imports the moved declarations.
    Import,
    /// The target template pushed once the import is done.
    Final,
}

/// A template that a run computes, with the stack it belongs to.
#[derive(Debug, PartialEq)]
pub struct FinalTemplate {
    pub stack: String,
    pub role: TemplateRole,
    pub template: Value,
}

/// Whether a template of this role belongs to the source stack.
pub open spec fn on_source(role: TemplateRole) -> bool {
    role == TemplateRole::Renamed || role == TemplateRole::Source || role == TemplateRole::Retained
        || role == TemplateRole::Removed
}

/// The old identifiers of the pairs.
pub open spec fn first_names(s: Seq<(String, String)>) -> Set<Seq<char>> {
    Set::new(|n: Seq<char>| exists|q: int| 0 <= q < s.len() && #[trigger] s[q].0@ == n)
}

/// The new identifiers of the pairs.
pub open spec fn second_names(s: Seq<(String, String)>) -> Set<Seq<char>> {
    Set::new(|n: Seq<char>| exists|q: int| 0 <= q < s.len() && #[trigger] s[q].1@ == n)
}

/// The templates of a run, in order. A rename within one stack removes the
/// old declarations, copies them back under their new names and rewrites the
/// references. A refactor gives the source without the moved declarations
/// and the target with them, both with references rewritten. An import gives
/// the source with them retained, the source with them removed, the target
/// with them and default deletion policies on them, and the same target
/// without those defaults.
pub open spec fn final_templates(
    mode: Mode,
    source: Tree,
    target: Tree,
    pairs: Seq<(String, String)>,
    m: Map<Seq<char>, Seq<char>>,
) -> Seq<(TemplateRole, Tree)> {
    let olds = first_names(pairs);
    match mode {
        Mode::SameScopeRename => seq![
            (TemplateRole::Renamed, rewrite(add_spec(remove_spec(source, olds), source, pairs), m)),
        ],
        Mode::CrossScopeRefactor => seq![
            (TemplateRole::Source, rewrite(remove_spec(source, olds), m)),
            (TemplateRole::Target, rewrite(add_spec(target, source, pairs), m)),
        ],
        Mode::CrossScopeImport => {
            let fin = rewrite(add_spec(target, source, pairs), m);
            seq![
                (TemplateRole::Retained, retain_spec(source, olds)),
                (TemplateRole::Removed, remove_spec(source, olds)),
                (TemplateRole::Import, default_spec(fin, second_names(pairs))),
                (TemplateRole::Final, fin),
            ]
        },
    }
}

fn id_list(m: &IdMapping, new_side: bool) -> (r: Vec<String>)
    ensures
        name_set(r@) == if new_side {
            second_names(m.pairs@)
        } else {
            first_names(m.pairs@)
        },
{
    let pairs = &m.pairs;
    let mut out: Vec<String> = Vec::new();
    let mut i: usize = 0;
    while i < pairs.len()
        invariant
            i <= pairs@.len(),
            *pairs == m.pairs,
            out@.len() == i,
            forall|j: int|
                0 <= j < i ==> #[trigger] out@[j]@ == if new_side {
                    pairs@[j].1@
                } else {
                    pairs@[j].0@
                },
        decreases pairs@.len() - i,
    {
        if new_side {
            out.push(pairs[i].1.clone());
        } else {
            out.push(pairs[i].0.clone());
        }
        i = i + 1;
    }
    let ghost want = if new_side {
        second_names(pairs@)
    } else {
        first_names(pairs@)
    };
    assert forall|n: Seq<char>| name_set(out@).contains(n) implies want.contains(n) by {
        let j = choose|j: int| 0 <= j < out@.len() && out@[j]@ == n;
        if new_side {
            assert(pairs@[j].1@ == n);
        } else {
            assert(pairs@[j].0@ == n);
        }
    }
    assert forall|n: Seq<char>| want.contains(n) implies name_set(out@).contains(n) by {
        if new_side {
            let q = choose|q: int| 0 <= q < pairs@.len() && #[trigger] pairs@[q].1@ == n;
            assert(out@[q]@ == n);
        } else {
            let q = choose|q: int| 0 <= q < pairs@.len() && #[trigger] pairs@[q].0@ == n;
            assert(out@[q]@ == n);
        }
    }
    assert(name_set(out@) =~= want);
    out
}

/// Computes the templates of a run.
pub fn build_templates(
    mode: Mode,
    source_stack: &str,
    target_stack: &str,
    source: &Value,
    target: &Value,
    mapping: &IdMapping,
) -> (r: Vec<FinalTemplate>)
    ensures
        r@.len() == final_templates(mode, source@, target@, mapping.pairs@, mapping@).len(),
        forall|i: int|
            0 <= i < r@.len() ==> {
                let want = final_templates(mode, source@, target@, mapping.pairs@, mapping@)[i];
                &&& (#[trigger] r@[i]).role == want.0
                &&& r@[i].template@ == want.1
                &&& r@[i].stack@ == if on_source(want.0) {
                    source_stack@
                } else {
                    target_stack@
                }
            },
{
    let olds = id_list(mapping, false);
    let mut out: Vec<FinalTemplate> = Vec::new();
    match mode {
        Mode::SameScopeRename => {
            let without = remove_resources(source.copy(), &olds);
            let renamed = update_template_references(add_resources(without, source, mapping), mapping);
            out.push(FinalTemplate { stack: source_stack.to_owned(), role: TemplateRole::Renamed, template: renamed });
        },
        Mode::CrossScopeRefactor => {
            let source_final = update_template_references(remove_resources(source.copy(), &olds), mapping);
            let target_final = update_template_references(add_resources(target.copy(), source, mapping), mapping);
            out.push(FinalTemplate { stack: source_stack.to_owned(), role: TemplateRole::Source, template: source_final });
            out.push(FinalTemplate { stack: target_stack.to_owned(), role: TemplateRole::Target, template: target_final });
        },
        Mode::CrossScopeImport => {
            let news = id_list(mapping, true);
            let retained = retain_resources(source.copy(), &olds);
            let removed = remove_resources(source.copy(), &olds);
            let fin = update_template_references(add_resources(target.copy(), source, mapping), mapping);
            let import = apply_default_retention(fin.copy(), &news);
            out.push(FinalTemplate { stack: source_stack.to_owned(), role: TemplateRole::Retained, template: retained });
            out.push(FinalTemplate { stack: source_stack.to_owned(), role: TemplateRole::Removed, template: removed });
            out.push(FinalTemplate { stack: target_stack.to_owned(), role: TemplateRole::Import, template: import });
            out.push(FinalTemplate { stack: target_stack.to_owned(), role: TemplateRole::Final, template: fin });
        },
    }
    out
}

} // verus!
