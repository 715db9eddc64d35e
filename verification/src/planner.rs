//! Production plans: ordered steps with dependencies, checked off as the work is
//! done. Checking a step makes the steps that waited on it ready; unchecking one
//! resets every step that depends on it, directly or not.

use vstd::prelude::*;
use crate::dsl::string_views;
use crate::generate::contains_string;
use crate::refs::{AetherError, Ref, RefKind};
use crate::generate::copy_opt;
use crate::text::{
    first_index, has_substring, join_path, lemma_first_index, lemma_first_index_props, lemma_first_index_same, lemma_first_index_none, owned, path_join, push_str, str_contains,
    str_eq,
};
use crate::vault::{assets_view, copy_strings, links_view, new_uuid, v4_uuid_text, AssetView, LinkView, VaultAsset, VaultAssetKind, VaultLink};

verus! {

/// The state of a whole plan.
#[derive(Debug, Clone, Copy, PartialEq, Eq, Structural)]
pub enum PlanStatus {
    Pending,
    Running,
    NeedsRevision,
    Done,
}

/// The state of one step.
#[derive(Debug, Clone, Copy, PartialEq, Eq, Structural)]
pub enum PlanStepStatus {
    Pending,
    Ready,
    Done,
}

/// What shows that a step was done.
#[derive(Debug, Clone)]
pub struct PlanEvidence {
    pub step_id: String,
    pub evidence_ref: Option<Ref>,
    pub comment: Option<String>,
}

/// Evidence, as character sequences.
pub struct EvidenceView {
    pub step_id: Seq<char>,
    pub evidence_ref: Option<Ref>,
    pub comment: Option<Seq<char>>,
}

/// One step of a plan: the command it runs, what it creates, and the steps it waits on.
#[derive(Debug, Clone)]
pub struct AetherPlanStep {
    pub id: String,
    pub title: String,
    pub status: PlanStepStatus,
    pub command: String,
    pub creates: Vec<RefKind>,
    pub depends_on: Vec<String>,
    pub validation: String,
    pub evidence: Option<PlanEvidence>,
}

/// A step, as character sequences.
pub struct StepView {
    pub id: Seq<char>,
    pub title: Seq<char>,
    pub status: PlanStepStatus,
    pub command: Seq<char>,
    pub creates: Seq<RefKind>,
    pub deps: Seq<Seq<char>>,
    pub validation: Seq<char>,
    pub evidence: Option<EvidenceView>,
}

/// A production plan.
#[derive(Debug, Clone)]
pub struct AetherPlan {
    pub plan_id: String,
    pub objective: String,
    pub status: PlanStatus,
    pub assumptions: Vec<String>,
    pub required_capabilities: Vec<String>,
    pub steps: Vec<AetherPlanStep>,
    pub validation_plan: Vec<String>,
    pub risks: Vec<String>,
    pub created_at_ms: i64,
    pub updated_at_ms: i64,
}

/// A plan, as character sequences.
pub struct PlanView {
    pub plan_id: Seq<char>,
    pub objective: Seq<char>,
    pub status: PlanStatus,
    pub assumptions: Seq<Seq<char>>,
    pub required_capabilities: Seq<Seq<char>>,
    pub steps: Seq<StepView>,
    pub validation_plan: Seq<Seq<char>>,
    pub risks: Seq<Seq<char>>,
    pub created_at_ms: i64,
    pub updated_at_ms: i64,
}

impl View for PlanEvidence {
    type V = EvidenceView;

    open spec fn view(&self) -> EvidenceView {
        EvidenceView {
            step_id: self.step_id@,
            evidence_ref: self.evidence_ref,
            comment: match self.comment {
                Some(c) => Some(c@),
                None => None,
            },
        }
    }
}

impl View for AetherPlanStep {
    type V = StepView;

    open spec fn view(&self) -> StepView {
        StepView {
            id: self.id@,
            title: self.title@,
            status: self.status,
            command: self.command@,
            creates: self.creates@,
            deps: string_views(self.depends_on@),
            validation: self.validation@,
            evidence: match self.evidence {
                Some(e) => Some(e@),
                None => None,
            },
        }
    }
}

/// The views of a sequence of steps.
pub open spec fn steps_view(s: Seq<AetherPlanStep>) -> Seq<StepView> {
    s.map_values(|x: AetherPlanStep| x@)
}

impl View for AetherPlan {
    type V = PlanView;

    open spec fn view(&self) -> PlanView {
        PlanView {
            plan_id: self.plan_id@,
            objective: self.objective@,
            status: self.status,
            assumptions: string_views(self.assumptions@),
            required_capabilities: string_views(self.required_capabilities@),
            steps: steps_view(self.steps@),
            validation_plan: string_views(self.validation_plan@),
            risks: string_views(self.risks@),
            created_at_ms: self.created_at_ms,
            updated_at_ms: self.updated_at_ms,
        }
    }
}

// ---------------------------------------------------------------------------
// Dependencies
// ---------------------------------------------------------------------------

/// The position of the first step with id `id`.
pub open spec fn step_index(steps: Seq<StepView>, id: Seq<char>) -> Option<int> {
    first_index(steps, |s: StepView| s.id == id)
}

/// The dependency `d` names a step, and that step is done.
pub open spec fn dep_done(steps: Seq<StepView>, d: Seq<char>) -> bool {
    match step_index(steps, d) {
        Some(j) => steps[j].status == PlanStepStatus::Done,
        None => false,
    }
}

/// The dependency `d` names no step, or a step that is done.
pub open spec fn dep_done_or_missing(steps: Seq<StepView>, d: Seq<char>) -> bool {
    match step_index(steps, d) {
        Some(j) => steps[j].status == PlanStepStatus::Done,
        None => true,
    }
}

/// Every one of `deps` names a step that is done.
pub open spec fn deps_done(steps: Seq<StepView>, deps: Seq<Seq<char>>) -> bool {
    forall|k: int| 0 <= k < deps.len() ==> dep_done(steps, #[trigger] deps[k])
}

/// Every one of `deps` names no step or a step that is done.
pub open spec fn deps_done_or_missing(steps: Seq<StepView>, deps: Seq<Seq<char>>) -> bool {
    forall|k: int| 0 <= k < deps.len() ==> dep_done_or_missing(steps, #[trigger] deps[k])
}

/// Every dependency of `st` names a step that is done.
pub open spec fn all_deps_done(steps: Seq<StepView>, st: StepView) -> bool {
    deps_done(steps, st.deps)
}

/// Every dependency of `st` names no step or a step that is done.
pub open spec fn all_deps_done_or_missing(steps: Seq<StepView>, st: StepView) -> bool {
    deps_done_or_missing(steps, st.deps)
}

/// A step with another status.
pub open spec fn with_status(st: StepView, status: PlanStepStatus) -> StepView {
    StepView {
        id: st.id,
        title: st.title,
        status,
        command: st.command,
        creates: st.creates,
        deps: st.deps,
        validation: st.validation,
        evidence: st.evidence,
    }
}

/// A pending step may become ready: all its dependencies are done (when `lenient`,
/// a dependency naming no step counts as done).
pub open spec fn may_start(steps: Seq<StepView>, st: StepView, lenient: bool) -> bool {
    st.status == PlanStepStatus::Pending && if lenient {
        all_deps_done_or_missing(steps, st)
    } else {
        all_deps_done(steps, st)
    }
}

/// Every pending step that may start becomes ready.
pub open spec fn promote_with(steps: Seq<StepView>, lenient: bool) -> Seq<StepView> {
    Seq::new(
        steps.len(),
        |i: int|
            if may_start(steps, steps[i], lenient) {
                with_status(steps[i], PlanStepStatus::Ready)
            } else {
                steps[i]
            },
    )
}

/// Every pending step whose dependencies are all done becomes ready.
pub open spec fn promote(steps: Seq<StepView>) -> Seq<StepView> {
    promote_with(steps, false)
}

/// Every step is done.
pub open spec fn all_done(steps: Seq<StepView>) -> bool {
    forall|i: int| 0 <= i < steps.len() ==> (#[trigger] steps[i]).status == PlanStepStatus::Done
}

fn find_step(steps: &Vec<AetherPlanStep>, id: &str) -> (r: Option<usize>)
    ensures
        match r {
            Some(i) => step_index(steps_view(steps@), id@) == Some(i as int) && i < steps.len(),
            None => step_index(steps_view(steps@), id@) is None,
        },
{
    let ghost s = steps_view(steps@);
    let mut i: usize = 0;
    while i < steps.len()
        invariant
            i <= steps.len(),
            s == steps_view(steps@),
            forall|j: int| 0 <= j < i ==> (#[trigger] s[j]).id != id@,
        decreases steps.len() - i,
    {
        assert(s[i as int] == steps@[i as int]@);
        if str_eq(steps[i].id.as_str(), id) {
            proof {
                lemma_first_index(s, |x: StepView| x.id == id@, i as int);
            }
            return Some(i);
        }
        i = i + 1;
    }
    proof {
        lemma_first_index_none(s, |x: StepView| x.id == id@);
    }
    None
}

fn dep_is_done(steps: &Vec<AetherPlanStep>, d: &str, missing: bool) -> (r: bool)
    ensures
        r == (if missing { dep_done_or_missing(steps_view(steps@), d@) } else { dep_done(steps_view(steps@), d@) }),
{
    match find_step(steps, d) {
        Some(j) => {
            assert(steps_view(steps@)[j as int] == steps@[j as int]@);
            steps[j].status == PlanStepStatus::Done
        },
        None => missing,
    }
}

#[verifier::spinoff_prover]
fn deps_all_done(steps: &Vec<AetherPlanStep>, deps: &Vec<String>, missing: bool) -> (r: bool)
    ensures
        missing ==> r == deps_done_or_missing(steps_view(steps@), string_views(deps@)),
        !missing ==> r == deps_done(steps_view(steps@), string_views(deps@)),
{
    let ghost dv = string_views(deps@);
    let ghost sv = steps_view(steps@);
    let mut k: usize = 0;
    while k < deps.len()
        invariant
            k <= deps.len(),
            dv == string_views(deps@),
            sv == steps_view(steps@),
            missing ==> forall|j: int| 0 <= j < k ==> dep_done_or_missing(sv, #[trigger] dv[j]),
            !missing ==> forall|j: int| 0 <= j < k ==> dep_done(sv, #[trigger] dv[j]),
        decreases deps.len() - k,
    {
        assert(dv[k as int] == deps@[k as int]@);
        if !dep_is_done(steps, deps[k].as_str(), missing) {
            return false;
        }
        k = k + 1;
    }
    true
}

fn first_blocking(steps: &Vec<AetherPlanStep>, deps: &Vec<String>) -> (r: Option<usize>)
    ensures
        match r {
            Some(k) => k < deps.len() && first_index(
                string_views(deps@),
                |d: Seq<char>| !dep_done_or_missing(steps_view(steps@), d),
            ) == Some(k as int),
            None => first_index(string_views(deps@), |d: Seq<char>| !dep_done_or_missing(steps_view(steps@), d)) is None,
        },
{
    let ghost dv = string_views(deps@);
    let ghost sv = steps_view(steps@);
    let mut k: usize = 0;
    while k < deps.len()
        invariant
            k <= deps.len(),
            dv == string_views(deps@),
            sv == steps_view(steps@),
            forall|j: int| 0 <= j < k ==> dep_done_or_missing(sv, #[trigger] dv[j]),
        decreases deps.len() - k,
    {
        assert(dv[k as int] == deps@[k as int]@);
        if !dep_is_done(steps, deps[k].as_str(), true) {
            proof {
                lemma_first_index(dv, |d: Seq<char>| !dep_done_or_missing(sv, d), k as int);
            }
            return Some(k);
        }
        k = k + 1;
    }
    proof {
        lemma_first_index_none(dv, |d: Seq<char>| !dep_done_or_missing(sv, d));
    }
    None
}

/// A step with another status and evidence.
pub open spec fn with_status_evidence(st: StepView, status: PlanStepStatus, evidence: Option<EvidenceView>) -> StepView {
    StepView {
        id: st.id,
        title: st.title,
        status,
        command: st.command,
        creates: st.creates,
        deps: st.deps,
        validation: st.validation,
        evidence,
    }
}

/// The evidence recorded when a step is checked.
pub open spec fn evidence_of(step_id: Seq<char>, evidence_ref: Option<Ref>) -> EvidenceView {
    EvidenceView { step_id, evidence_ref, comment: Some("Completed via AETHER Planner CLI"@) }
}

/// The position in `st`'s dependencies of the first one naming a step that is not done.
pub open spec fn blocking_dep(steps: Seq<StepView>, st: StepView) -> Option<int> {
    first_index(st.deps, |d: Seq<char>| !dep_done_or_missing(steps, d))
}

pub open spec fn msg_step_not_found(id: Seq<char>) -> Seq<char> {
    "Step '"@ + id + "' not found in plan"@
}

pub open spec fn msg_dep_incomplete(id: Seq<char>, dep: Seq<char>) -> Seq<char> {
    "Cannot check step '"@ + id + "': Dependency '"@ + dep + "' is not complete"@
}

/// A plan with other steps, status and update time.
pub open spec fn with_steps(p: PlanView, steps: Seq<StepView>, status: PlanStatus, now: i64) -> PlanView {
    PlanView {
        plan_id: p.plan_id,
        objective: p.objective,
        status,
        assumptions: p.assumptions,
        required_capabilities: p.required_capabilities,
        steps,
        validation_plan: p.validation_plan,
        risks: p.risks,
        created_at_ms: p.created_at_ms,
        updated_at_ms: now,
    }
}

/// Checking step `step_id` of `p` at time `now`: the step must exist and no
/// dependency of it may name a step that is not done. The step becomes done with
/// its evidence, every pending step whose dependencies are now all done becomes
/// ready, and the plan is done when every step is, running otherwise.
pub open spec fn check_spec(p: PlanView, step_id: Seq<char>, evidence_ref: Option<Ref>, now: i64) -> Result<PlanView, Seq<char>> {
    match step_index(p.steps, step_id) {
        None => Err(msg_step_not_found(step_id)),
        Some(i) => match blocking_dep(p.steps, p.steps[i]) {
            Some(k) => Err(msg_dep_incomplete(step_id, p.steps[i].deps[k])),
            None => {
                let s1 = p.steps.update(
                    i,
                    with_status_evidence(p.steps[i], PlanStepStatus::Done, Some(evidence_of(step_id, evidence_ref))),
                );
                let s2 = promote(s1);
                Ok(with_steps(p, s2, if all_done(s2) { PlanStatus::Done } else { PlanStatus::Running }, now))
            },
        },
    }
}

/// The plan after an operation, or the message of the error refusing it.
pub open spec fn plan_outcome(r: Result<AetherPlan, AetherError>, expected: Result<PlanView, Seq<char>>) -> bool {
    match expected {
        Ok(v) => r matches Ok(q) && q@ == v,
        Err(m) => r matches Err(AetherError::OperationFailed(e)) && e@ == m,
    }
}

fn promote_flags(steps: &Vec<AetherPlanStep>, lenient: bool) -> (flags: Vec<bool>)
    ensures
        flags.len() == steps.len(),
        forall|j: int|
            0 <= j < steps.len() ==> flags[j] == may_start(steps_view(steps@), #[trigger] steps_view(steps@)[j], lenient),
{
    let ghost s = steps_view(steps@);
    let mut flags: Vec<bool> = Vec::new();
    let mut j: usize = 0;
    while j < steps.len()
        invariant
            j <= steps.len(),
            s == steps_view(steps@),
            flags.len() == j,
            forall|x: int| 0 <= x < j ==> flags[x] == may_start(s, #[trigger] s[x], lenient),
        decreases steps.len() - j,
    {
        assert(s[j as int] == steps@[j as int]@);
        let f = steps[j].status == PlanStepStatus::Pending && deps_all_done(steps, &steps[j].depends_on, lenient);
        flags.push(f);
        j = j + 1;
    }
    flags
}

fn set_step_status(steps: &mut Vec<AetherPlanStep>, i: usize, status: PlanStepStatus)
    requires
        i < old(steps).len(),
    ensures
        final(steps).len() == old(steps).len(),
        steps_view(final(steps)@) == steps_view(old(steps)@).update(i as int, with_status(steps_view(old(steps)@)[i as int], status)),
{
    let ghost before = steps_view(steps@);
    steps[i].status = status;
    assert(steps_view(steps@) =~= before.update(i as int, with_status(before[i as int], status)));
}

fn apply_promotion(steps: &mut Vec<AetherPlanStep>, lenient: bool)
    ensures
        steps_view(final(steps)@) == promote_with(steps_view(old(steps)@), lenient),
{
    let ghost s1 = steps_view(steps@);
    let flags = promote_flags(steps, lenient);
    let mut j: usize = 0;
    while j < flags.len()
        invariant
            j <= flags.len(),
            flags.len() == s1.len(),
            steps.len() == s1.len(),
            forall|x: int| 0 <= x < s1.len() ==> flags[x] == may_start(s1, #[trigger] s1[x], lenient),
            forall|x: int| 0 <= x < j ==> (#[trigger] steps_view(steps@)[x]) == promote_with(s1, lenient)[x],
            forall|x: int| j <= x < s1.len() ==> (#[trigger] steps_view(steps@)[x]) == s1[x],
        decreases flags.len() - j,
    {
        if flags[j] {
            set_step_status(steps, j, PlanStepStatus::Ready);
        }
        j = j + 1;
    }
    assert(steps_view(steps@) =~= promote_with(s1, lenient));
}

fn steps_all_done(steps: &Vec<AetherPlanStep>) -> (r: bool)
    ensures
        r == all_done(steps_view(steps@)),
{
    let ghost s = steps_view(steps@);
    let mut j: usize = 0;
    while j < steps.len()
        invariant
            j <= steps.len(),
            s == steps_view(steps@),
            forall|x: int| 0 <= x < j ==> (#[trigger] s[x]).status == PlanStepStatus::Done,
        decreases steps.len() - j,
    {
        assert(s[j as int] == steps@[j as int]@);
        if steps[j].status != PlanStepStatus::Done {
            return false;
        }
        j = j + 1;
    }
    true
}

// ---------------------------------------------------------------------------
// Unchecking: the steps to reset
// ---------------------------------------------------------------------------

/// A step with id `a` lists `b` among its dependencies.
pub open spec fn depends_edge(steps: Seq<StepView>, a: Seq<char>, b: Seq<char>) -> bool {
    exists|i: int| 0 <= i < steps.len() && steps[i].id == a && #[trigger] steps[i].deps.contains(b)
}

/// The `k`-th link of the chain `p`: its `k`-th id depends on the next one.
pub open spec fn chain_link(steps: Seq<StepView>, p: Seq<Seq<char>>, k: int) -> bool {
    depends_edge(steps, p[k], p[k + 1])
}

/// `p` is a chain of ids, each depending on the next.
pub open spec fn dep_chain(steps: Seq<StepView>, p: Seq<Seq<char>>) -> bool {
    p.len() >= 1 && forall|k: int| 0 <= k < p.len() - 1 ==> #[trigger] chain_link(steps, p, k)
}

/// The step id `x` is reset when `root` is unchecked: it is `root`, or it depends
/// on `root` through a chain of dependencies.
pub open spec fn in_reset(steps: Seq<StepView>, root: Seq<char>, x: Seq<char>) -> bool {
    exists|p: Seq<Seq<char>>| #[trigger] dep_chain(steps, p) && p[0] == x && p.last() == root
}

/// The number of the first `n` steps whose id is not in `set`.
pub open spec fn outside_count(steps: Seq<StepView>, set: Seq<Seq<char>>, n: int) -> nat
    decreases n,
{
    if n <= 0 {
        0
    } else {
        outside_count(steps, set, n - 1) + if set.contains(steps[n - 1].id) { 0nat } else { 1nat }
    }
}

proof fn lemma_outside_count_mono(steps: Seq<StepView>, a: Seq<Seq<char>>, b: Seq<Seq<char>>, n: int)
    requires
        0 <= n <= steps.len(),
        forall|x: Seq<char>| a.contains(x) ==> b.contains(x),
    ensures
        outside_count(steps, b, n) <= outside_count(steps, a, n),
        (exists|j: int| 0 <= j < n && b.contains(steps[j].id) && !a.contains(steps[j].id)) ==> outside_count(steps, b, n)
            < outside_count(steps, a, n),
    decreases n,
{
    if n > 0 {
        lemma_outside_count_mono(steps, a, b, n - 1);
        if exists|j: int| 0 <= j < n && b.contains(steps[j].id) && !a.contains(steps[j].id) {
            let j = choose|j: int| 0 <= j < n && b.contains(steps[j].id) && !a.contains(steps[j].id);
            if j < n - 1 {
                assert(exists|j: int| 0 <= j < n - 1 && b.contains(steps[j].id) && !a.contains(steps[j].id));
            }
        }
    }
}

proof fn lemma_chain_prepend(steps: Seq<StepView>, x: Seq<char>, q: Seq<Seq<char>>)
    requires
        dep_chain(steps, q),
        depends_edge(steps, x, q[0]),
    ensures
        dep_chain(steps, seq![x] + q),
        (seq![x] + q)[0] == x,
        (seq![x] + q).last() == q.last(),
{
    let p = seq![x] + q;
    assert forall|k: int| 0 <= k < p.len() - 1 implies #[trigger] chain_link(steps, p, k) by {
        if k == 0 {
            assert(p[0] == x && p[1] == q[0]);
        } else {
            assert(chain_link(steps, q, k - 1));
            assert(p[k] == q[k - 1] && p[k + 1] == q[k]);
        }
    }
}

/// A set of ids closed under dependency: a step not in it has no dependency in it.
pub open spec fn reset_closed(steps: Seq<StepView>, set: Seq<Seq<char>>) -> bool {
    forall|i: int, d: Seq<char>|
        0 <= i < steps.len() && !set.contains(steps[i].id) && #[trigger] steps[i].deps.contains(d) ==> !set.contains(d)
}

proof fn lemma_closed_complete(steps: Seq<StepView>, set: Seq<Seq<char>>, root: Seq<char>, p: Seq<Seq<char>>, k: int)
    requires
        reset_closed(steps, set),
        set.contains(root),
        dep_chain(steps, p),
        p.last() == root,
        0 <= k < p.len(),
    ensures
        set.contains(p[k]),
    decreases p.len() - k,
{
    if k < p.len() - 1 {
        lemma_closed_complete(steps, set, root, p, k + 1);
        assert(chain_link(steps, p, k));
        let i = choose|i: int| 0 <= i < steps.len() && steps[i].id == p[k] && #[trigger] steps[i].deps.contains(p[k + 1]);
        assert(steps[i].deps.contains(p[k + 1]));
    }
}

/// The ids reset when `root` is unchecked form the least set that holds `root`
/// and every step with a dependency in it: that set holds them, and so does every
/// such set.
pub proof fn law_reset_least_closed(steps: Seq<StepView>, root: Seq<char>, set: Seq<Seq<char>>)
    ensures
        in_reset(steps, root, root),
        forall|i: int, d: Seq<char>| 0 <= i < steps.len() && #[trigger] steps[i].deps.contains(d) && in_reset(steps, root, d)
            ==> in_reset(steps, root, steps[i].id),
        set.contains(root) && reset_closed(steps, set) ==> forall|x: Seq<char>| #[trigger] in_reset(steps, root, x) ==> set.contains(x),
{
    let c = seq![root];
    assert(dep_chain(steps, c));
    assert forall|i: int, d: Seq<char>| 0 <= i < steps.len() && #[trigger] steps[i].deps.contains(d) && in_reset(steps, root, d)
        implies in_reset(steps, root, steps[i].id) by {
        let q = choose|q: Seq<Seq<char>>| #[trigger] dep_chain(steps, q) && q[0] == d && q.last() == root;
        assert(depends_edge(steps, steps[i].id, q[0]));
        lemma_chain_prepend(steps, steps[i].id, q);
        assert(dep_chain(steps, seq![steps[i].id] + q));
    }
    if set.contains(root) && reset_closed(steps, set) {
        assert forall|x: Seq<char>| #[trigger] in_reset(steps, root, x) implies set.contains(x) by {
            let p = choose|p: Seq<Seq<char>>| #[trigger] dep_chain(steps, p) && p[0] == x && p.last() == root;
            lemma_closed_complete(steps, set, root, p, 0);
        }
    }
}

fn any_dep_in(deps: &Vec<String>, set: &Vec<String>) -> (r: Option<usize>)
    ensures
        match r {
            Some(k) => k < deps.len() && string_views(set@).contains(string_views(deps@)[k as int]),
            None => forall|d: Seq<char>| string_views(deps@).contains(d) ==> !string_views(set@).contains(d),
        },
{
    let ghost dv = string_views(deps@);
    let ghost sv = string_views(set@);
    let mut k: usize = 0;
    while k < deps.len()
        invariant
            k <= deps.len(),
            dv == string_views(deps@),
            sv == string_views(set@),
            forall|j: int| 0 <= j < k ==> !sv.contains(#[trigger] dv[j]),
        decreases deps.len() - k,
    {
        assert(dv[k as int] == deps@[k as int]@);
        if contains_string(set, deps[k].as_str()) {
            return Some(k);
        }
        k = k + 1;
    }
    assert forall|d: Seq<char>| dv.contains(d) implies !sv.contains(d) by {
        let j = choose|j: int| 0 <= j < dv.len() && dv[j] == d;
        assert(!sv.contains(dv[j]));
    }
    None
}

fn reset_set(steps: &Vec<AetherPlanStep>, root: &str) -> (r: Vec<String>)
    ensures
        forall|x: Seq<char>| string_views(r@).contains(x) <==> in_reset(steps_view(steps@), root@, x),
{
    let ghost sv = steps_view(steps@);
    let mut set: Vec<String> = Vec::new();
    set.push(owned(root));
    proof {
        broadcast use vstd::seq_lib::lemma_seq_contains_after_push;
        assert(string_views(set@) =~= Seq::<Seq<char>>::empty().push(root@));
        let p = seq![root@];
        assert(dep_chain(sv, p));
        assert(string_views(set@) =~= seq![root@]);
    }
    loop
        invariant
            sv == steps_view(steps@),
            string_views(set@).contains(root@),
            forall|x: Seq<char>| string_views(set@).contains(x) ==> in_reset(sv, root@, x),
        ensures
            forall|x: Seq<char>| in_reset(sv, root@, x) ==> string_views(set@).contains(x),
        decreases outside_count(sv, string_views(set@), sv.len() as int),
    {
        let ghost start = string_views(set@);
        let mut added = false;
        let mut i: usize = 0;
        while i < steps.len()
            invariant
                sv == steps_view(steps@),
                i <= steps.len(),
                string_views(set@).contains(root@),
                forall|x: Seq<char>| string_views(set@).contains(x) ==> in_reset(sv, root@, x),
                forall|x: Seq<char>| start.contains(x) ==> string_views(set@).contains(x),
                !added ==> string_views(set@) == start,
                added ==> exists|j: int| 0 <= j < sv.len() && string_views(set@).contains(sv[j].id) && !start.contains(sv[j].id),
                !added ==> forall|j: int, d: Seq<char>|
                    0 <= j < i && !start.contains(sv[j].id) && #[trigger] sv[j].deps.contains(d) ==> !start.contains(d),
            decreases steps.len() - i,
        {
            assert(sv[i as int] == steps@[i as int]@);
            if !contains_string(&set, steps[i].id.as_str()) {
                match any_dep_in(&steps[i].depends_on, &set) {
                    Some(k) => {
                        let ghost before = string_views(set@);
                        let ghost d = sv[i as int].deps[k as int];
                        proof {
                            assert(before.contains(d));
                            let q = choose|q: Seq<Seq<char>>| #[trigger] dep_chain(sv, q) && q[0] == d && q.last() == root@;
                            assert(sv[i as int].deps.contains(d));
                            assert(depends_edge(sv, sv[i as int].id, q[0]));
                            lemma_chain_prepend(sv, sv[i as int].id, q);
                            assert(in_reset(sv, root@, sv[i as int].id));
                        }
                        set.push(steps[i].id.clone());
                        proof {
                            broadcast use vstd::seq_lib::lemma_seq_contains_after_push;
                            assert(string_views(set@) =~= before.push(sv[i as int].id));
                        }
                        added = true;
                    },
                    None => {},
                }
            }
            i = i + 1;
        }
        if !added {
            proof {
                assert(reset_closed(sv, string_views(set@)));
                assert forall|x: Seq<char>| in_reset(sv, root@, x) implies string_views(set@).contains(x) by {
                    let p = choose|p: Seq<Seq<char>>| #[trigger] dep_chain(sv, p) && p[0] == x && p.last() == root@;
                    lemma_closed_complete(sv, string_views(set@), root@, p, 0);
                }
            }
            break;
        }
        proof {
            lemma_outside_count_mono(sv, start, string_views(set@), sv.len() as int);
        }
    }
    set
}

/// A step reset to pending, without evidence.
pub open spec fn reset_step(st: StepView) -> StepView {
    with_status_evidence(st, PlanStepStatus::Pending, None)
}

/// The steps after resetting every step whose id is reset when `root` is unchecked.
pub open spec fn reset_steps(steps: Seq<StepView>, root: Seq<char>) -> Seq<StepView> {
    Seq::new(steps.len(), |i: int| if in_reset(steps, root, steps[i].id) { reset_step(steps[i]) } else { steps[i] })
}

/// Unchecking step `step_id` of `p` at time `now`: the step and every step that
/// depends on it, directly or not, go back to pending without evidence; then every
/// pending step whose dependencies are all done (or name no step) becomes ready,
/// and the plan is running.
pub open spec fn uncheck_spec(p: PlanView, step_id: Seq<char>, now: i64) -> PlanView {
    with_steps(p, promote_with(reset_steps(p.steps, step_id), true), PlanStatus::Running, now)
}

// ---------------------------------------------------------------------------
// Revision, next step, paths
// ---------------------------------------------------------------------------

/// The steps with the first step `S1` given another command and validation.
pub open spec fn set_s1(steps: Seq<StepView>, command: Seq<char>, validation: Seq<char>) -> Seq<StepView> {
    match step_index(steps, "S1"@) {
        Some(i) => steps.update(
            i,
            StepView {
                id: steps[i].id,
                title: steps[i].title,
                status: steps[i].status,
                command,
                creates: steps[i].creates,
                deps: steps[i].deps,
                validation,
                evidence: steps[i].evidence,
            },
        ),
        None => steps,
    }
}

/// The instruction asks for 24 frames per second.
pub open spec fn asks_24fps(instr: Seq<char>) -> bool {
    has_substring(instr, "24fps"@) || has_substring(instr, "24 fps"@)
}

/// The instruction asks for a vertical frame.
pub open spec fn asks_vertical(instr: Seq<char>) -> bool {
    has_substring(instr, "vertical"@) || has_substring(instr, "9:16"@)
}

/// Revising `p` with `instr` at `now`: the instruction is recorded as an
/// assumption and the plan needs revision, unless the instruction asks for 24 fps
/// (checked first) or a vertical frame: then step `S1` initialises that canvas
/// and the plan runs again.
pub open spec fn revise_spec(p: PlanView, instr: Seq<char>, now: i64) -> PlanView {
    let steps = if asks_24fps(instr) {
        set_s1(p.steps, "init 24.0 1920x1080 srgb"@, "snapshot settings fps=24.0 width=1920 height=1080"@)
    } else if asks_vertical(instr) {
        set_s1(p.steps, "init 30.0 1080x1920 srgb"@, "snapshot settings fps=30.0 width=1080 height=1920"@)
    } else {
        p.steps
    };
    PlanView {
        plan_id: p.plan_id,
        objective: p.objective,
        status: if asks_24fps(instr) || asks_vertical(instr) { PlanStatus::Running } else { PlanStatus::NeedsRevision },
        assumptions: p.assumptions.push("Revision Instruction: "@ + instr),
        required_capabilities: p.required_capabilities,
        steps,
        validation_plan: p.validation_plan,
        risks: p.risks,
        created_at_ms: p.created_at_ms,
        updated_at_ms: now,
    }
}

fn copy_kinds(v: &Vec<RefKind>) -> (r: Vec<RefKind>)
    ensures
        r@ == v@,
{
    let mut r: Vec<RefKind> = Vec::new();
    let mut i: usize = 0;
    while i < v.len()
        invariant
            i <= v.len(),
            r@ == v@.subrange(0, i as int),
        decreases v.len() - i,
    {
        r.push(v[i]);
        i = i + 1;
    }
    assert(v@.subrange(0, i as int) =~= v@);
    r
}

impl AetherPlanStep {
    /// A copy with the same fields.
    pub fn duplicate(&self) -> (r: AetherPlanStep)
        ensures
            r@ == self@,
    {
        AetherPlanStep {
            id: self.id.clone(),
            title: self.title.clone(),
            status: self.status,
            command: self.command.clone(),
            creates: copy_kinds(&self.creates),
            depends_on: copy_strings(&self.depends_on),
            validation: self.validation.clone(),
            evidence: match &self.evidence {
                Some(e) => Some(PlanEvidence {
                    step_id: e.step_id.clone(),
                    evidence_ref: e.evidence_ref,
                    comment: copy_opt(&e.comment),
                }),
                None => None,
            },
        }
    }
}

fn set_s1_exec(steps: &mut Vec<AetherPlanStep>, command: &str, validation: &str)
    ensures
        steps_view(final(steps)@) == set_s1(steps_view(old(steps)@), command@, validation@),
{
    match find_step(steps, "S1") {
        Some(i) => {
            let ghost before = steps_view(steps@);
            steps[i].command = owned(command);
            steps[i].validation = owned(validation);
            assert(steps_view(steps@) =~= set_s1(before, command@, validation@));
        },
        None => {},
    }
}

/// The message when no project is active.
pub open spec fn msg_no_active_project() -> Seq<char> {
    "No active AETHER project found"@
}

/// The path of plan `plan_id` in project `dir`: `.aether/plans/<id>.json`.
pub open spec fn plan_path_spec(dir: Seq<char>, plan_id: Seq<char>) -> Seq<char> {
    join_path(join_path(join_path(dir, ".aether"@), "plans"@), plan_id + ".json"@)
}

// ---------------------------------------------------------------------------
// The plan template
// ---------------------------------------------------------------------------

/// A template step, pending unless it is the first.
pub open spec fn tstep(
    id: Seq<char>,
    title: Seq<char>,
    status: PlanStepStatus,
    command: Seq<char>,
    creates: Seq<RefKind>,
    deps: Seq<Seq<char>>,
    validation: Seq<char>,
) -> StepView {
    StepView { id, title, status, command, creates, deps, validation, evidence: None }
}

/// The six steps of the template plan for `objective`.
pub open spec fn template_steps(objective: Seq<char>) -> Seq<StepView> {
    seq![
        tstep("S1"@, "Initialize Project Canvas"@, PlanStepStatus::Ready, "init 30.0 1920x1080 srgb"@, seq![], seq![],
            "snapshot settings fps=30.0 width=1920 height=1080"@),
        tstep("S2"@, "Generate Storyboard Scratch"@, PlanStepStatus::Pending,
            "generate storyboard-scratch \"Commercial sequence for "@ + objective + "\""@, seq![RefKind::Generated],
            seq!["S1"@], "inspect @g1"@),
        tstep("S3"@, "Generate Campaign Voiceover"@, PlanStepStatus::Pending,
            "generate voice \"Voiceover for "@ + objective + "\""@, seq![RefKind::Audio], seq!["S2"@], "inspect @a1"@),
        tstep("S4"@, "Generate Cinematic Music"@, PlanStepStatus::Pending,
            "generate music \"Cinematic ambiance for "@ + objective + "\""@, seq![RefKind::Audio], seq!["S2"@],
            "inspect @a2"@),
        tstep("S5"@, "Compile Video from ingredients"@, PlanStepStatus::Pending,
            "generate video-ingredients @g1 @a1 @a2 --prompt \"Compile high resolution final cut\""@, seq![RefKind::Video],
            seq!["S3"@, "S4"@], "inspect @v1"@),
        tstep("S6"@, "Export Final Render"@, PlanStepStatus::Pending, "export @v1 mp4"@, seq![], seq!["S5"@],
            "export output file check"@),
    ]
}

/// The assumptions every template plan starts with.
pub open spec fn base_assumptions() -> Seq<Seq<char>> {
    seq!["Implicit sandbox isolation active"@, "Mock generators enabled by default"@]
}

/// The template plan for `objective`, with id `plan_id`, the vault notes added to
/// its assumptions, created at `now`.
pub open spec fn template_spec(objective: Seq<char>, plan_id: Seq<char>, notes: Seq<Seq<char>>, now: i64) -> PlanView {
    PlanView {
        plan_id,
        objective,
        status: PlanStatus::Pending,
        assumptions: base_assumptions() + notes,
        required_capabilities: seq!["init"@, "generate"@, "inspect"@, "export"@],
        steps: template_steps(objective),
        validation_plan: seq![
            "Verify S1 canvas configurations"@,
            "Inspect generated storyboard @g1"@,
            "Inspect compiled video @v1 prior to rendering"@,
        ],
        risks: seq!["Generation latency for video rendering"@],
        created_at_ms: now,
        updated_at_ms: now,
    }
}

fn strs(a: &str, b: &str, c: &str) -> (r: String)
    ensures
        r@ == a@ + b@ + c@,
{
    let mut r = owned(a);
    push_str(&mut r, b);
    push_str(&mut r, c);
    r
}

fn push_string(v: &mut Vec<String>, t: String)
    ensures
        string_views(final(v)@) == string_views(old(v)@).push(t@),
{
    let ghost before = v@;
    v.push(t);
    assert(string_views(v@) =~= string_views(before).push(t@));
}

fn one_string(a: &str) -> (r: Vec<String>)
    ensures
        string_views(r@) == seq![a@],
{
    let mut r: Vec<String> = Vec::new();
    push_string(&mut r, owned(a));
    assert(string_views(r@) =~= seq![a@]);
    r
}

fn make_step(
    id: &str,
    title: &str,
    status: PlanStepStatus,
    command: String,
    creates: Vec<RefKind>,
    deps: Vec<String>,
    validation: &str,
) -> (r: AetherPlanStep)
    ensures
        r@ == tstep(id@, title@, status, command@, creates@, string_views(deps@), validation@),
{
    AetherPlanStep {
        id: owned(id),
        title: owned(title),
        status,
        command,
        creates,
        depends_on: deps,
        validation: owned(validation),
        evidence: None,
    }
}

fn one_kind(k: RefKind) -> (r: Vec<RefKind>)
    ensures
        r@ == seq![k],
{
    let mut r: Vec<RefKind> = Vec::new();
    r.push(k);
    assert(r@ =~= seq![k]);
    r
}

fn push_step(steps: &mut Vec<AetherPlanStep>, st: AetherPlanStep)
    ensures
        steps_view(final(steps)@) == steps_view(old(steps)@).push(st@),
{
    let ghost before = steps@;
    steps.push(st);
    assert(steps_view(steps@) =~= steps_view(before).push(st@));
}

fn template_step_list(objective: &str) -> (r: Vec<AetherPlanStep>)
    ensures
        steps_view(r@) == template_steps(objective@),
{
    let ghost t = template_steps(objective@);
    let mut steps: Vec<AetherPlanStep> = Vec::new();
    let no_deps: Vec<String> = Vec::new();
    assert(string_views(no_deps@) =~= Seq::<Seq<char>>::empty());
    let no_kinds: Vec<RefKind> = Vec::new();
    assert(no_kinds@ =~= Seq::<RefKind>::empty());
    assert(steps_view(steps@) =~= t.subrange(0, 0));
    push_step(&mut steps, make_step("S1", "Initialize Project Canvas", PlanStepStatus::Ready, owned("init 30.0 1920x1080 srgb"),
        no_kinds, no_deps, "snapshot settings fps=30.0 width=1920 height=1080"));
    assert(steps_view(steps@) =~= t.subrange(0, 1));
    push_step(&mut steps, make_step("S2", "Generate Storyboard Scratch", PlanStepStatus::Pending,
        strs("generate storyboard-scratch \"Commercial sequence for ", objective, "\""), one_kind(RefKind::Generated),
        one_string("S1"), "inspect @g1"));
    assert(steps_view(steps@) =~= t.subrange(0, 2));
    push_step(&mut steps, make_step("S3", "Generate Campaign Voiceover", PlanStepStatus::Pending,
        strs("generate voice \"Voiceover for ", objective, "\""), one_kind(RefKind::Audio), one_string("S2"), "inspect @a1"));
    assert(steps_view(steps@) =~= t.subrange(0, 3));
    push_step(&mut steps, make_step("S4", "Generate Cinematic Music", PlanStepStatus::Pending,
        strs("generate music \"Cinematic ambiance for ", objective, "\""), one_kind(RefKind::Audio), one_string("S2"),
        "inspect @a2"));
    assert(steps_view(steps@) =~= t.subrange(0, 4));
    let mut deps5 = one_string("S3");
    push_string(&mut deps5, owned("S4"));
    assert(string_views(deps5@) =~= seq!["S3"@, "S4"@]);
    push_step(&mut steps, make_step("S5", "Compile Video from ingredients", PlanStepStatus::Pending,
        owned("generate video-ingredients @g1 @a1 @a2 --prompt \"Compile high resolution final cut\""),
        one_kind(RefKind::Video), deps5, "inspect @v1"));
    assert(steps_view(steps@) =~= t.subrange(0, 5));
    let no_kinds6: Vec<RefKind> = Vec::new();
    assert(no_kinds6@ =~= Seq::<RefKind>::empty());
    push_step(&mut steps, make_step("S6", "Export Final Render", PlanStepStatus::Pending, owned("export @v1 mp4"), no_kinds6,
        one_string("S5"), "export output file check"));
    assert(steps_view(steps@) =~= t);
    steps
}

/// The plan template, with the given id and vault notes, created at `now_ms`.
pub fn template_plan(objective: &str, plan_id: String, vault_notes: Vec<String>, now_ms: i64) -> (r: AetherPlan)
    ensures
        r@ == template_spec(objective@, plan_id@, string_views(vault_notes@), now_ms),
{
    let mut assumptions = one_string("Implicit sandbox isolation active");
    push_string(&mut assumptions, owned("Mock generators enabled by default"));
    let mut i: usize = 0;
    assert(string_views(assumptions@) =~= base_assumptions() + string_views(vault_notes@).subrange(0, 0));
    while i < vault_notes.len()
        invariant
            i <= vault_notes.len(),
            string_views(assumptions@) == base_assumptions() + string_views(vault_notes@).subrange(0, i as int),
        decreases vault_notes.len() - i,
    {
        push_string(&mut assumptions, vault_notes[i].clone());
        assert(string_views(assumptions@) =~= base_assumptions() + string_views(vault_notes@).subrange(0, i + 1));
        i = i + 1;
    }
    assert(string_views(vault_notes@).subrange(0, i as int) =~= string_views(vault_notes@));
    let mut caps = one_string("init");
    push_string(&mut caps, owned("generate"));
    push_string(&mut caps, owned("inspect"));
    push_string(&mut caps, owned("export"));
    let mut validation = one_string("Verify S1 canvas configurations");
    push_string(&mut validation, owned("Inspect generated storyboard @g1"));
    push_string(&mut validation, owned("Inspect compiled video @v1 prior to rendering"));
    let risks = one_string("Generation latency for video rendering");
    let r = AetherPlan {
        plan_id,
        objective: owned(objective),
        status: PlanStatus::Pending,
        assumptions,
        required_capabilities: caps,
        steps: template_step_list(objective),
        validation_plan: validation,
        risks,
        created_at_ms: now_ms,
        updated_at_ms: now_ms,
    };
    assert(r@.required_capabilities =~= seq!["init"@, "generate"@, "inspect"@, "export"@]);
    assert(r@.validation_plan =~= seq![
        "Verify S1 canvas configurations"@,
        "Inspect generated storyboard @g1"@,
        "Inspect compiled video @v1 prior to rendering"@,
    ]);
    r
}

// ---------------------------------------------------------------------------
// Notes from the attached vaults
// ---------------------------------------------------------------------------

/// An asset that is a design rule with a text.
pub open spec fn is_design_text(a: AssetView) -> bool {
    a.kind == VaultAssetKind::DesignRulebook && a.meta.text is Some
}

/// The notes one attached vault adds to a template plan: the link itself, then
/// each design rule with a text among its assets (when they could be loaded).
pub open spec fn link_notes(l: LinkView, assets: Option<Seq<AssetView>>) -> Seq<Seq<char>> {
    seq!["Attached Vault constraint: '"@ + l.vault_id + "' linked as '"@ + l.alias + "'"@] + match assets {
        Some(a) => a.filter(|x: AssetView| is_design_text(x)).map_values(
            |x: AssetView| "Design rule from vault ("@ + l.alias + "): "@ + x.meta.text->0,
        ),
        None => Seq::empty(),
    }
}

/// The notes of all attached vaults, in link order (`assets[i]` holds what was
/// loaded for the `i`-th link).
pub open spec fn vault_notes_spec(links: Seq<LinkView>, assets: Seq<Option<Seq<AssetView>>>) -> Seq<Seq<char>>
    decreases links.len(),
{
    if links.len() == 0 {
        Seq::empty()
    } else {
        vault_notes_spec(links.drop_last(), assets) + link_notes(
            links.last(),
            if links.len() - 1 < assets.len() { assets[links.len() - 1] } else { None },
        )
    }
}

/// The views of the loaded asset lists.
pub open spec fn loaded_view(s: Seq<Option<Vec<VaultAsset>>>) -> Seq<Option<Seq<AssetView>>> {
    s.map_values(|o: Option<Vec<VaultAsset>>| match o {
        Some(v) => Some(assets_view(v@)),
        None => None,
    })
}

/// The assumptions a template plan gets from the vaults attached by `links`;
/// `assets[i]` is the asset list loaded for the `i`-th link (`None` when it could
/// not be loaded).
pub fn plan_vault_notes(links: &Vec<VaultLink>, assets: &Vec<Option<Vec<VaultAsset>>>) -> (r: Vec<String>)
    ensures
        string_views(r@) == vault_notes_spec(links_view(links@), loaded_view(assets@)),
{
    let ghost lv = links_view(links@);
    let ghost av = loaded_view(assets@);
    let mut notes: Vec<String> = Vec::new();
    let mut i: usize = 0;
    assert(lv.subrange(0, 0) =~= Seq::<LinkView>::empty());
    assert(string_views(notes@) =~= Seq::<Seq<char>>::empty());
    while i < links.len()
        invariant
            i <= links.len(),
            lv == links_view(links@),
            av == loaded_view(assets@),
            string_views(notes@) == vault_notes_spec(lv.subrange(0, i as int), av),
        decreases links.len() - i,
    {
        let link = &links[i];
        let ghost start = string_views(notes@);
        let ghost loaded = if i < av.len() { av[i as int] } else { None };
        proof {
            assert(lv[i as int] == link@);
            assert(lv.subrange(0, i + 1).drop_last() =~= lv.subrange(0, i as int));
            assert(lv.subrange(0, i + 1).last() == link@);
        }
        let mut n = strs("Attached Vault constraint: '", link.vault_id.as_str(), "' linked as '");
        push_str(&mut n, link.alias.as_str());
        push_str(&mut n, "'");
        push_string(&mut notes, n);
        assert(string_views(notes@) =~= start + seq![
            "Attached Vault constraint: '"@ + link@.vault_id + "' linked as '"@ + link@.alias + "'"@,
        ]);
        let ghost mid = string_views(notes@);
        if i < assets.len() {
            match &assets[i] {
                Some(list) => {
                    let ghost s = assets_view(list@);
                    assert(loaded == Some(s));
                    let mut k: usize = 0;
                    assert(s.subrange(0, 0) =~= Seq::<AssetView>::empty());
                    assert(string_views(notes@) =~= mid + s.subrange(0, 0).filter(|x: AssetView| is_design_text(x)).map_values(
                        |x: AssetView| "Design rule from vault ("@ + link@.alias + "): "@ + x.meta.text->0,
                    ));
                    while k < list.len()
                        invariant
                            k <= list.len(),
                            s == assets_view(list@),
                            string_views(notes@) == mid + s.subrange(0, k as int).filter(|x: AssetView| is_design_text(x)).map_values(
                                |x: AssetView| "Design rule from vault ("@ + link@.alias + "): "@ + x.meta.text->0,
                            ),
                        decreases list.len() - k,
                    {
                        let a = &list[k];
                        let ghost f0 = s.subrange(0, k as int).filter(|x: AssetView| is_design_text(x));
                        proof {
                            assert(s[k as int] == a@);
                            assert(s.subrange(0, k + 1) =~= s.subrange(0, k as int).push(a@));
                            s.subrange(0, k as int).lemma_filter_push(a@, |x: AssetView| is_design_text(x));
                        }
                        if a.kind == VaultAssetKind::DesignRulebook {
                            match &a.metadata.text {
                                Some(t) => {
                                    let ghost before = string_views(notes@);
                                    let mut n = strs("Design rule from vault (", link.alias.as_str(), "): ");
                                    push_str(&mut n, t.as_str());
                                    push_string(&mut notes, n);
                                    assert(f0.push(a@).map_values(
                                        |x: AssetView| "Design rule from vault ("@ + link@.alias + "): "@ + x.meta.text->0,
                                    ) =~= f0.map_values(
                                        |x: AssetView| "Design rule from vault ("@ + link@.alias + "): "@ + x.meta.text->0,
                                    ).push("Design rule from vault ("@ + link@.alias + "): "@ + t@));
                                    assert(string_views(notes@) =~= mid + f0.push(a@).map_values(
                                        |x: AssetView| "Design rule from vault ("@ + link@.alias + "): "@ + x.meta.text->0,
                                    ));
                                },
                                None => {},
                            }
                        }
                        k = k + 1;
                    }
                    assert(s.subrange(0, k as int) =~= s);
                },
                None => {
                    assert(loaded is None);
                },
            }
        }
        assert(string_views(notes@) =~= start + link_notes(link@, loaded));
        i = i + 1;
    }
    assert(lv.subrange(0, i as int) =~= lv);
    notes
}

// ---------------------------------------------------------------------------
// Laws
// ---------------------------------------------------------------------------

proof fn lemma_same_ids_same_index(a: Seq<StepView>, b: Seq<StepView>, d: Seq<char>)
    requires
        a.len() == b.len(),
        forall|j: int| 0 <= j < a.len() ==> (#[trigger] a[j]).id == b[j].id,
    ensures
        step_index(a, d) == step_index(b, d),
{
    lemma_first_index_same(a, b, |s: StepView| s.id == d, |s: StepView| s.id == d);
}

/// Promotion changes no id, dependency list or evidence, and which steps are done.
proof fn lemma_promote_shape(s: Seq<StepView>, lenient: bool)
    ensures
        promote_with(s, lenient).len() == s.len(),
        forall|j: int|
            0 <= j < s.len() ==> (#[trigger] promote_with(s, lenient)[j]).id == s[j].id && promote_with(s, lenient)[j].deps
                == s[j].deps && promote_with(s, lenient)[j].evidence == s[j].evidence && (promote_with(s, lenient)[j].status
                == PlanStepStatus::Done) == (s[j].status == PlanStepStatus::Done),
{
}

/// So promotion changes no dependency's state.
proof fn lemma_promote_dep(s: Seq<StepView>, lenient: bool, d: Seq<char>)
    ensures
        dep_done(promote_with(s, lenient), d) == dep_done(s, d),
        dep_done_or_missing(promote_with(s, lenient), d) == dep_done_or_missing(s, d),
{
    let t = promote_with(s, lenient);
    lemma_promote_shape(s, lenient);
    lemma_same_ids_same_index(t, s, d);
    lemma_first_index_props(s, |x: StepView| x.id == d);
}

/// Checking a step settles the plan: the checked step is done, every step done
/// before stays done, no pending step is left whose dependencies are all done, and
/// the plan is done exactly when every step is.
pub proof fn law_check_step_settles(p: PlanView, step_id: Seq<char>, evidence_ref: Option<Ref>, now: i64)
    requires
        check_spec(p, step_id, evidence_ref, now) is Ok,
    ensures
        ({
            let q = check_spec(p, step_id, evidence_ref, now)->Ok_0;
            &&& q.steps.len() == p.steps.len()
            &&& step_index(p.steps, step_id) is Some
            &&& q.steps[step_index(p.steps, step_id)->0].status == PlanStepStatus::Done
            &&& forall|i: int| 0 <= i < p.steps.len() && p.steps[i].status == PlanStepStatus::Done
                ==> (#[trigger] q.steps[i]).status == PlanStepStatus::Done
            &&& forall|i: int| 0 <= i < q.steps.len() && (#[trigger] q.steps[i]).status == PlanStepStatus::Pending
                ==> !all_deps_done(q.steps, q.steps[i])
            &&& (q.status == PlanStatus::Done) == all_done(q.steps)
        }),
{
    let i = step_index(p.steps, step_id)->0;
    let s1 = p.steps.update(
        i,
        with_status_evidence(p.steps[i], PlanStepStatus::Done, Some(evidence_of(step_id, evidence_ref))),
    );
    let s2 = promote(s1);
    lemma_first_index_props(p.steps, |x: StepView| x.id == step_id);
    lemma_promote_shape(s1, false);
    assert forall|j: int| 0 <= j < s2.len() && (#[trigger] s2[j]).status == PlanStepStatus::Pending implies !all_deps_done(
        s2,
        s2[j],
    ) by {
        assert(!may_start(s1, s1[j], false));
        assert(s2[j].deps == s1[j].deps);
        if all_deps_done(s2, s2[j]) {
            assert forall|k: int| 0 <= k < s1[j].deps.len() implies dep_done(s1, #[trigger] s1[j].deps[k]) by {
                assert(dep_done(s2, s2[j].deps[k]));
                lemma_promote_dep(s1, false, s1[j].deps[k]);
            }
        }
    }
}

/// Checking a step is refused exactly when no step has its id, or one of its
/// dependencies names a step that is not done.
pub proof fn law_check_refused_iff(p: PlanView, step_id: Seq<char>, evidence_ref: Option<Ref>, now: i64)
    ensures
        check_spec(p, step_id, evidence_ref, now) is Err <==> (step_index(p.steps, step_id) is None
            || (step_index(p.steps, step_id) matches Some(i) && exists|k: int| 0 <= k < p.steps[i].deps.len()
                && !dep_done_or_missing(p.steps, #[trigger] p.steps[i].deps[k]))),
{
    if step_index(p.steps, step_id) is Some {
        let i = step_index(p.steps, step_id)->0;
        let deps = p.steps[i].deps;
        lemma_first_index_props(deps, |d: Seq<char>| !dep_done_or_missing(p.steps, d));
        if exists|k: int| 0 <= k < deps.len() && !dep_done_or_missing(p.steps, #[trigger] deps[k]) {
            let k = choose|k: int| 0 <= k < deps.len() && !dep_done_or_missing(p.steps, #[trigger] deps[k]);
            assert((|d: Seq<char>| !dep_done_or_missing(p.steps, d))(deps[k]));
        }
    }
}

/// Unchecking a step resets it and every step depending on it, directly or not:
/// none of them is done or keeps evidence afterwards. Every other step that was
/// done stays done, and no pending step is left whose dependencies are all done
/// or name no step.
pub proof fn law_uncheck_resets_dependents(p: PlanView, step_id: Seq<char>, now: i64)
    ensures
        ({
            let q = uncheck_spec(p, step_id, now);
            &&& q.steps.len() == p.steps.len()
            &&& q.status == PlanStatus::Running
            &&& forall|i: int| 0 <= i < p.steps.len() && in_reset(p.steps, step_id, p.steps[i].id)
                ==> (#[trigger] q.steps[i]).status != PlanStepStatus::Done && q.steps[i].evidence is None
            &&& forall|i: int| 0 <= i < p.steps.len() && !in_reset(p.steps, step_id, p.steps[i].id)
                && p.steps[i].status == PlanStepStatus::Done ==> (#[trigger] q.steps[i]) == p.steps[i]
            &&& forall|i: int| 0 <= i < q.steps.len() && (#[trigger] q.steps[i]).status == PlanStepStatus::Pending
                ==> !all_deps_done_or_missing(q.steps, q.steps[i])
        }),
{
    let s1 = reset_steps(p.steps, step_id);
    let s2 = promote_with(s1, true);
    lemma_promote_shape(s1, true);
    assert forall|j: int| 0 <= j < s2.len() && (#[trigger] s2[j]).status == PlanStepStatus::Pending implies !all_deps_done_or_missing(
        s2,
        s2[j],
    ) by {
        assert(!may_start(s1, s1[j], true));
        if all_deps_done_or_missing(s2, s2[j]) {
            assert forall|k: int| 0 <= k < s1[j].deps.len() implies dep_done_or_missing(s1, #[trigger] s1[j].deps[k]) by {
                assert(dep_done_or_missing(s2, s2[j].deps[k]));
                lemma_promote_dep(s1, true, s1[j].deps[k]);
            }
        }
    }
}

/// Unchecking a step that was just checked leaves it not done.
pub proof fn law_check_then_uncheck(p: PlanView, step_id: Seq<char>, evidence_ref: Option<Ref>, now1: i64, now2: i64)
    requires
        check_spec(p, step_id, evidence_ref, now1) is Ok,
    ensures
        ({
            let q = check_spec(p, step_id, evidence_ref, now1)->Ok_0;
            let u = uncheck_spec(q, step_id, now2);
            &&& step_index(p.steps, step_id) is Some
            &&& u.steps[step_index(p.steps, step_id)->0].status != PlanStepStatus::Done
        }),
{
    let q = check_spec(p, step_id, evidence_ref, now1)->Ok_0;
    let i = step_index(p.steps, step_id)->0;
    law_check_step_settles(p, step_id, evidence_ref, now1);
    lemma_first_index_props(p.steps, |s: StepView| s.id == step_id);
    let s1 = p.steps.update(
        i,
        with_status_evidence(p.steps[i], PlanStepStatus::Done, Some(evidence_of(step_id, evidence_ref))),
    );
    lemma_promote_shape(s1, false);
    assert(q.steps[i].id == step_id);
    let c = seq![step_id];
    assert(dep_chain(q.steps, c));
    assert(in_reset(q.steps, step_id, q.steps[i].id));
    law_uncheck_resets_dependents(q, step_id, now2);
}

/// No two steps share an id.
pub open spec fn ids_distinct(steps: Seq<StepView>) -> bool {
    forall|a: int, b: int| 0 <= a < steps.len() && 0 <= b < steps.len() && a != b ==> (#[trigger] steps[a]).id != (#[trigger] steps[b]).id
}

/// Every dependency names a step.
pub open spec fn deps_named(steps: Seq<StepView>) -> bool {
    forall|j: int, d: Seq<char>| 0 <= j < steps.len() && #[trigger] steps[j].deps.contains(d) ==> step_index(steps, d) is Some
}

/// The statuses agree with the dependencies: a ready step's dependencies are all
/// done, a pending step has one that is not, and only done steps carry evidence.
pub open spec fn statuses_settled(steps: Seq<StepView>) -> bool {
    forall|j: int| 0 <= j < steps.len() ==> {
        &&& (#[trigger] steps[j]).status == PlanStepStatus::Ready ==> all_deps_done(steps, steps[j])
        &&& steps[j].status == PlanStepStatus::Pending ==> !all_deps_done(steps, steps[j])
        &&& steps[j].evidence is Some ==> steps[j].status == PlanStepStatus::Done
    }
}

/// Steps with the same ids and dependencies reset the same ids.
proof fn lemma_same_links(a: Seq<StepView>, b: Seq<StepView>, root: Seq<char>)
    requires
        a.len() == b.len(),
        forall|j: int| 0 <= j < a.len() ==> (#[trigger] a[j]).id == b[j].id && a[j].deps == b[j].deps,
    ensures
        forall|x: Seq<char>| #[trigger] in_reset(a, root, x) == in_reset(b, root, x),
{
    assert forall|x: Seq<char>, y: Seq<char>| #[trigger] depends_edge(a, x, y) == depends_edge(b, x, y) by {
        if depends_edge(a, x, y) {
            let i = choose|i: int| 0 <= i < a.len() && a[i].id == x && #[trigger] a[i].deps.contains(y);
            assert(b[i].deps.contains(y));
        }
        if depends_edge(b, x, y) {
            let i = choose|i: int| 0 <= i < b.len() && b[i].id == x && #[trigger] b[i].deps.contains(y);
            assert(a[i].deps.contains(y));
        }
    }
    assert forall|p: Seq<Seq<char>>| #[trigger] dep_chain(a, p) == dep_chain(b, p) by {
        if dep_chain(a, p) {
            assert forall|k: int| 0 <= k < p.len() - 1 implies #[trigger] chain_link(b, p, k) by {
                assert(chain_link(a, p, k));
            }
        }
        if dep_chain(b, p) {
            assert forall|k: int| 0 <= k < p.len() - 1 implies #[trigger] chain_link(a, p, k) by {
                assert(chain_link(b, p, k));
            }
        }
    }
    assert forall|x: Seq<char>| #[trigger] in_reset(a, root, x) == in_reset(b, root, x) by {
        if in_reset(a, root, x) {
            let p = choose|p: Seq<Seq<char>>| #[trigger] dep_chain(a, p) && p[0] == x && p.last() == root;
            assert(dep_chain(b, p));
        }
        if in_reset(b, root, x) {
            let p = choose|p: Seq<Seq<char>>| #[trigger] dep_chain(b, p) && p[0] == x && p.last() == root;
            assert(dep_chain(a, p));
        }
    }
}

/// A step reset along with `root`, other than `root` itself, depends on another
/// step reset along with it.
proof fn lemma_reset_dep(steps: Seq<StepView>, root: Seq<char>, j: int)
    requires
        ids_distinct(steps),
        0 <= j < steps.len(),
        in_reset(steps, root, steps[j].id),
        steps[j].id != root,
    ensures
        exists|d: Seq<char>| #[trigger] steps[j].deps.contains(d) && in_reset(steps, root, d),
{
    let p = choose|p: Seq<Seq<char>>| #[trigger] dep_chain(steps, p) && p[0] == steps[j].id && p.last() == root;
    assert(p.len() >= 2);
    assert(chain_link(steps, p, 0));
    let a = choose|a: int| 0 <= a < steps.len() && steps[a].id == p[0] && #[trigger] steps[a].deps.contains(p[1]);
    assert(a == j);
    let q = p.skip(1);
    assert forall|k: int| 0 <= k < q.len() - 1 implies #[trigger] chain_link(steps, q, k) by {
        assert(chain_link(steps, p, k + 1));
        assert(q[k] == p[k + 1] && q[k + 1] == p[k + 2]);
    }
    assert(dep_chain(steps, q) && q[0] == p[1] && q.last() == root);
    assert(steps[j].deps.contains(p[1]) && in_reset(steps, root, p[1]));
}

/// What holds of the plan `ps` before the check, and of `s3`, its steps after the
/// check and the reset of the uncheck of step `i`, `step_id`.
spec fn undo_context(ps: Seq<StepView>, s3: Seq<StepView>, step_id: Seq<char>, i: int) -> bool {
    &&& ids_distinct(ps)
    &&& deps_named(ps)
    &&& statuses_settled(ps)
    &&& 0 <= i < ps.len()
    &&& ps[i].id == step_id
    &&& ps[i].status == PlanStepStatus::Ready
    &&& forall|j: int| 0 <= j < ps.len() && in_reset(ps, step_id, (#[trigger] ps[j]).id) ==> ps[j].status != PlanStepStatus::Done
    &&& s3.len() == ps.len()
    &&& forall|j: int| 0 <= j < ps.len() ==> (#[trigger] s3[j]).id == ps[j].id && s3[j].deps == ps[j].deps
    &&& forall|j: int| 0 <= j < ps.len() && in_reset(ps, step_id, ps[j].id) ==> (#[trigger] s3[j]).status == PlanStepStatus::Pending
        && s3[j].evidence is None
    &&& forall|j: int| 0 <= j < ps.len() && !in_reset(ps, step_id, ps[j].id) ==> #[trigger] s3[j] == ps[j]
}

/// The lenient promotion after the reset gives step `j` back its status and evidence.
proof fn lemma_undo_at(ps: Seq<StepView>, s3: Seq<StepView>, step_id: Seq<char>, i: int, j: int)
    requires
        undo_context(ps, s3, step_id, i),
        0 <= j < ps.len(),
    ensures
        promote_with(s3, true)[j].status == ps[j].status,
        promote_with(s3, true)[j].evidence == ps[j].evidence,
{
    let us = promote_with(s3, true);
    assert(statuses_settled(ps));
    assert(ps[j] == ps[j]);
    if in_reset(ps, step_id, ps[j].id) {
        assert(s3[j].status == PlanStepStatus::Pending && s3[j].evidence is None);
        if j == i {
            assert(all_deps_done(ps, ps[i]));
            assert forall|k: int| 0 <= k < s3[i].deps.len() implies dep_done_or_missing(s3, #[trigger] s3[i].deps[k]) by {
                let d = ps[i].deps[k];
                assert(dep_done(ps, d));
                let m = step_index(ps, d)->0;
                lemma_first_index_props(ps, |x: StepView| x.id == d);
                lemma_same_ids_same_index(s3, ps, d);
                if in_reset(ps, step_id, ps[m].id) {
                    assert(ps[m].status != PlanStepStatus::Done);
                }
                assert(s3[m] == ps[m]);
            }
            assert(may_start(s3, s3[i], true));
        } else {
            assert(ps[j].id != step_id) by {
                assert(ps[j].id != ps[i].id);
            }
            lemma_reset_dep(ps, step_id, j);
            let d = choose|d: Seq<char>| #[trigger] ps[j].deps.contains(d) && in_reset(ps, step_id, d);
            assert(step_index(ps, d) is Some);
            let m = step_index(ps, d)->0;
            lemma_first_index_props(ps, |x: StepView| x.id == d);
            lemma_same_ids_same_index(s3, ps, d);
            assert(in_reset(ps, step_id, ps[m].id));
            assert(s3[m].status == PlanStepStatus::Pending);
            assert(!dep_done_or_missing(s3, d));
            let kd = choose|k: int| 0 <= k < ps[j].deps.len() && ps[j].deps[k] == d;
            assert(s3[j].deps[kd] == d);
            assert(!may_start(s3, s3[j], true));
            if ps[j].status == PlanStepStatus::Ready {
                assert(dep_done(ps, ps[j].deps[kd]));
                assert(ps[m].status == PlanStepStatus::Done);
            }
        }
    } else {
        assert(s3[j] == ps[j]);
        if ps[j].status == PlanStepStatus::Pending {
            let k = choose|k: int| 0 <= k < ps[j].deps.len() && !dep_done(ps, #[trigger] ps[j].deps[k]);
            let d = ps[j].deps[k];
            assert(ps[j].deps.contains(d));
            assert(step_index(ps, d) is Some);
            lemma_same_ids_same_index(s3, ps, d);
            let m = step_index(ps, d)->0;
            lemma_first_index_props(ps, |x: StepView| x.id == d);
            if !in_reset(ps, step_id, ps[m].id) {
                assert(s3[m] == ps[m]);
            }
            assert(!dep_done_or_missing(s3, s3[j].deps[k]));
            assert(!may_start(s3, s3[j], true));
        }
    }
}

/// Unchecking a ready step right after checking it gives every step back the
/// status and evidence it had, in a plan whose ids are distinct, whose
/// dependencies all name steps, whose statuses agree with their dependencies, and
/// in which no done step depends on that step, directly or not.
pub proof fn law_uncheck_undoes_check(p: PlanView, step_id: Seq<char>, evidence_ref: Option<Ref>, now1: i64, now2: i64)
    requires
        ids_distinct(p.steps),
        deps_named(p.steps),
        statuses_settled(p.steps),
        step_index(p.steps, step_id) matches Some(i) && p.steps[i].status == PlanStepStatus::Ready,
        forall|j: int| 0 <= j < p.steps.len() && in_reset(p.steps, step_id, (#[trigger] p.steps[j]).id) ==> p.steps[j].status != PlanStepStatus::Done,
    ensures
        check_spec(p, step_id, evidence_ref, now1) is Ok,
        ({
            let u = uncheck_spec(check_spec(p, step_id, evidence_ref, now1)->Ok_0, step_id, now2);
            &&& u.steps.len() == p.steps.len()
            &&& forall|j: int| 0 <= j < p.steps.len() ==> (#[trigger] u.steps[j]).status == p.steps[j].status
                && u.steps[j].evidence == p.steps[j].evidence
        }),
{
    let ps = p.steps;
    let i = step_index(ps, step_id)->0;
    lemma_first_index_props(ps, |x: StepView| x.id == step_id);
    assert(ps[i].id == step_id);
    assert(statuses_settled(ps) && ps[i] == ps[i]);
    assert(all_deps_done(ps, ps[i]));
    assert(blocking_dep(ps, ps[i]) is None) by {
        lemma_first_index_props(ps[i].deps, |d: Seq<char>| !dep_done_or_missing(ps, d));
        if blocking_dep(ps, ps[i]) is Some {
            let k = blocking_dep(ps, ps[i])->0;
            assert(dep_done(ps, ps[i].deps[k]));
        }
    }
    let s1 = ps.update(i, with_status_evidence(ps[i], PlanStepStatus::Done, Some(evidence_of(step_id, evidence_ref))));
    let qs = promote(s1);
    let q = check_spec(p, step_id, evidence_ref, now1)->Ok_0;
    assert(q.steps == qs);
    lemma_promote_shape(s1, false);
    assert forall|j: int| 0 <= j < ps.len() implies (#[trigger] qs[j]).id == ps[j].id && qs[j].deps == ps[j].deps by {
        assert(s1[j].id == ps[j].id && s1[j].deps == ps[j].deps);
    }
    lemma_same_links(qs, ps, step_id);
    let s3 = reset_steps(qs, step_id);
    assert forall|j: int| 0 <= j < ps.len() && !in_reset(ps, step_id, ps[j].id) implies #[trigger] s3[j] == ps[j] by {
        assert(in_reset(qs, step_id, qs[j].id) == in_reset(ps, step_id, ps[j].id));
        assert(j != i) by {
            let c = seq![step_id];
            assert(dep_chain(ps, c));
        }
        assert(s1[j] == ps[j]);
        if may_start(s1, s1[j], false) {
            let k = choose|k: int| 0 <= k < ps[j].deps.len() && !dep_done(ps, #[trigger] ps[j].deps[k]);
            let d = ps[j].deps[k];
            assert(dep_done(s1, s1[j].deps[k]));
            lemma_same_ids_same_index(s1, ps, d);
            let m = step_index(ps, d)->0;
            lemma_first_index_props(ps, |x: StepView| x.id == d);
            assert(m == i);
            assert(ps[j].deps.contains(step_id));
            let c = seq![ps[j].id, step_id];
            assert(chain_link(ps, c, 0));
            assert(dep_chain(ps, c));
        }
    }
    assert forall|j: int| 0 <= j < ps.len() && in_reset(ps, step_id, ps[j].id) implies (#[trigger] s3[j]).status == PlanStepStatus::Pending
        && s3[j].evidence is None by {
        assert(in_reset(qs, step_id, qs[j].id) == in_reset(ps, step_id, ps[j].id));
    }
    assert forall|j: int| 0 <= j < ps.len() implies (#[trigger] s3[j]).id == ps[j].id && s3[j].deps == ps[j].deps by {
        assert(qs[j].id == ps[j].id);
    }
    assert(undo_context(ps, s3, step_id, i));
    lemma_promote_shape(s3, true);
    assert forall|j: int| 0 <= j < ps.len() implies (#[trigger] promote_with(s3, true)[j]).status == ps[j].status
        && promote_with(s3, true)[j].evidence == ps[j].evidence by {
        lemma_undo_at(ps, s3, step_id, i, j);
    }
}

/// Manages the plans of one project directory.
#[derive(Debug, Clone)]
pub struct PlannerManager {
    project_dir: String,
}

impl PlannerManager {
    /// The directory of the project whose plans this manager handles.
    pub closed spec fn dir(&self) -> Seq<char> {
        self.project_dir@
    }

    /// A manager for the plans of `project_dir`.
    pub fn new(project_dir: String) -> (r: PlannerManager)
        ensures
            r.dir() == project_dir@,
    {
        PlannerManager { project_dir }
    }

    /// Checks off step `step_id` of `plan` at time `now_ms` (milliseconds since the
    /// epoch), recording `evidence_ref`, and makes ready the steps that waited on it.
    #[verifier::spinoff_prover]
    #[verifier::rlimit(40)]
    pub fn check_step(&self, plan: AetherPlan, step_id: &str, evidence_ref: Option<Ref>, now_ms: i64) -> (r: Result<AetherPlan, AetherError>)
        ensures
            plan_outcome(r, check_spec(plan@, step_id@, evidence_ref, now_ms)),
    {
        let mut plan = plan;
        let ghost p0 = plan@;
        let i = match find_step(&plan.steps, step_id) {
            Some(i) => i,
            None => {
                let mut m = owned("Step '");
                push_str(&mut m, step_id);
                push_str(&mut m, "' not found in plan");
                return Err(AetherError::OperationFailed(m));
            },
        };
        let ghost s0 = p0.steps;
        assert(s0[i as int] == plan.steps@[i as int]@);
        match first_blocking(&plan.steps, &plan.steps[i].depends_on) {
            Some(k) => {
                let mut m = owned("Cannot check step '");
                push_str(&mut m, step_id);
                push_str(&mut m, "': Dependency '");
                push_str(&mut m, plan.steps[i].depends_on[k].as_str());
                push_str(&mut m, "' is not complete");
                assert(s0[i as int].deps[k as int] == plan.steps@[i as int].depends_on@[k as int]@);
                return Err(AetherError::OperationFailed(m));
            },
            None => {},
        }
        let ghost before = steps_view(plan.steps@);
        let evidence = PlanEvidence {
            step_id: owned(step_id),
            evidence_ref,
            comment: Some(owned("Completed via AETHER Planner CLI")),
        };
        plan.steps[i].status = PlanStepStatus::Done;
        plan.steps[i].evidence = Some(evidence);
        let ghost s1 = before.update(
            i as int,
            with_status_evidence(before[i as int], PlanStepStatus::Done, Some(evidence_of(step_id@, evidence_ref))),
        );
        assert(steps_view(plan.steps@) =~= s1);
        apply_promotion(&mut plan.steps, false);
        let all = steps_all_done(&plan.steps);
        plan.status = if all { PlanStatus::Done } else { PlanStatus::Running };
        plan.updated_at_ms = now_ms;
        Ok(plan)
    }

    /// Unchecks step `step_id` of `plan` at time `now_ms`, resetting every step
    /// that depends on it, directly or not.
    pub fn uncheck_step(&self, plan: AetherPlan, step_id: &str, now_ms: i64) -> (r: AetherPlan)
        ensures
            r@ == uncheck_spec(plan@, step_id@, now_ms),
    {
        let mut plan = plan;
        let ghost p0 = plan@;
        let ghost s0 = steps_view(plan.steps@);
        let to_reset = reset_set(&plan.steps, step_id);
        let mut j: usize = 0;
        while j < plan.steps.len()
            invariant
                j <= plan.steps.len(),
                plan.steps.len() == s0.len(),
                plan@ == with_steps(p0, steps_view(plan.steps@), p0.status, p0.updated_at_ms),
                forall|x: Seq<char>| string_views(to_reset@).contains(x) <==> in_reset(s0, step_id@, x),
                forall|x: int| 0 <= x < j ==> (#[trigger] steps_view(plan.steps@)[x]) == reset_steps(s0, step_id@)[x],
                forall|x: int| j <= x < s0.len() ==> (#[trigger] steps_view(plan.steps@)[x]) == s0[x],
            decreases plan.steps.len() - j,
        {
            let ghost before = steps_view(plan.steps@);
            assert(before[j as int] == plan.steps@[j as int]@);
            if contains_string(&to_reset, plan.steps[j].id.as_str()) {
                plan.steps[j].status = PlanStepStatus::Pending;
                plan.steps[j].evidence = None;
                assert(steps_view(plan.steps@) =~= before.update(j as int, reset_step(s0[j as int])));
            }
            j = j + 1;
        }
        assert(steps_view(plan.steps@) =~= reset_steps(s0, step_id@));
        apply_promotion(&mut plan.steps, true);
        plan.status = PlanStatus::Running;
        plan.updated_at_ms = now_ms;
        plan
    }

    /// A manager for the active project, given what resolving the active
    /// project's directory gave; any failure there means there is none.
    pub fn load_active(resolved: Result<String, AetherError>) -> (r: Result<PlannerManager, AetherError>)
        ensures
            match resolved {
                Ok(d) => r matches Ok(m) && m.dir() == d@,
                Err(_) => r matches Err(AetherError::OperationFailed(e)) && e@ == msg_no_active_project(),
            },
    {
        match resolved {
            Ok(d) => Ok(PlannerManager::new(d)),
            Err(_) => Err(AetherError::OperationFailed(owned("No active AETHER project found"))),
        }
    }

    /// The file holding plan `plan_id`: `.aether/plans/<plan_id>.json` in the project.
    pub fn plan_path(&self, plan_id: &str) -> (r: String)
        ensures
            r@ == plan_path_spec(self.dir(), plan_id@),
    {
        let a = path_join(self.project_dir.as_str(), ".aether");
        let b = path_join(a.as_str(), "plans");
        let mut f = owned(plan_id);
        push_str(&mut f, ".json");
        path_join(b.as_str(), f.as_str())
    }

    /// A new plan for `objective` at `now_ms`. `parsed` is what parsing the plan
    /// JSON the user supplied gave, if any: a parse error is refused, a parsed plan
    /// is taken as it is; without one, the six-step template is built, its
    /// assumptions completed with `vault_notes`. Either way the plan gets a fresh
    /// random id.
    pub fn create_plan(
        &self,
        objective: &str,
        parsed: Option<Result<AetherPlan, String>>,
        vault_notes: Vec<String>,
        now_ms: i64,
    ) -> (r: Result<AetherPlan, AetherError>)
        ensures
            match parsed {
                Some(Err(e)) => r matches Err(AetherError::OperationFailed(m)) && m@ == "Failed to parse plan JSON: "@ + e@,
                Some(Ok(p)) => r matches Ok(q) && v4_uuid_text(q.plan_id@) && q@ == (PlanView { plan_id: q.plan_id@, ..p@ }),
                None => r matches Ok(q) && v4_uuid_text(q.plan_id@) && q@ == template_spec(
                    objective@,
                    q.plan_id@,
                    string_views(vault_notes@),
                    now_ms,
                ),
            },
    {
        match parsed {
            Some(Err(e)) => {
                let mut m = owned("Failed to parse plan JSON: ");
                push_str(&mut m, e.as_str());
                Err(AetherError::OperationFailed(m))
            },
            Some(Ok(p)) => {
                let mut p = p;
                p.plan_id = new_uuid();
                Ok(p)
            },
            None => Ok(template_plan(objective, new_uuid(), vault_notes, now_ms)),
        }
    }

    /// Revises `plan` with `instruction` at `now_ms`.
    pub fn revise_plan(&self, plan: AetherPlan, instruction: &str, now_ms: i64) -> (r: AetherPlan)
        ensures
            r@ == revise_spec(plan@, instruction@, now_ms),
    {
        let mut plan = plan;
        let mut note = owned("Revision Instruction: ");
        push_str(&mut note, instruction);
        push_string(&mut plan.assumptions, note);
        plan.updated_at_ms = now_ms;
        plan.status = PlanStatus::NeedsRevision;
        let fps24 = str_contains(instruction, "24fps") || str_contains(instruction, "24 fps");
        let vertical = str_contains(instruction, "vertical") || str_contains(instruction, "9:16");
        if fps24 || vertical {
            let (command, validation) = if fps24 {
                ("init 24.0 1920x1080 srgb", "snapshot settings fps=24.0 width=1920 height=1080")
            } else {
                ("init 30.0 1080x1920 srgb", "snapshot settings fps=30.0 width=1080 height=1920")
            };
            set_s1_exec(&mut plan.steps, command, validation);
            plan.status = PlanStatus::Running;
        }
        plan
    }

    /// The first ready step of `plan`, if any.
    pub fn next_step(&self, plan: &AetherPlan) -> (r: Option<AetherPlanStep>)
        ensures
            match first_index(steps_view(plan.steps@), |s: StepView| s.status == PlanStepStatus::Ready) {
                Some(i) => r matches Some(st) && st@ == steps_view(plan.steps@)[i],
                None => r is None,
            },
    {
        let ghost s = steps_view(plan.steps@);
        let mut i: usize = 0;
        while i < plan.steps.len()
            invariant
                i <= plan.steps.len(),
                s == steps_view(plan.steps@),
                forall|j: int| 0 <= j < i ==> (#[trigger] s[j]).status != PlanStepStatus::Ready,
            decreases plan.steps.len() - i,
        {
            assert(s[i as int] == plan.steps@[i as int]@);
            if plan.steps[i].status == PlanStepStatus::Ready {
                proof {
                    lemma_first_index(s, |x: StepView| x.status == PlanStepStatus::Ready, i as int);
                }
                return Some(plan.steps[i].duplicate());
            }
            i = i + 1;
        }
        proof {
            lemma_first_index_none(s, |x: StepView| x.status == PlanStepStatus::Ready);
        }
        None
    }
}

} // verus!
