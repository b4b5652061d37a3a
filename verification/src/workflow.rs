//! The staged-workflow decision logic.
//!
//! Stages compose into a directed acyclic graph; the builder rejects
//! cycles. For one work item the engine keeps a state record per
//! (stage, subtask) pair; advancement picks the ready stages — those
//! whose dependencies are all complete and whose own state is neither
//! complete nor needs-review — in dependency order, and folds each
//! stage's outcome back into the records. Everything here is a pure
//! decision over those records; the surrounding program executes the
//! stages, persists the records, and loops.

use vstd::prelude::*;

use crate::error::Error;
use crate::text::str_eq;

verus! {

/// The status of one (stage, subtask) record.
#[derive(Debug, Clone, Copy, PartialEq, Eq, Structural)]
pub enum StageStatus {
    /// Not yet run.
    Pending,
    /// Currently executing; demoted to pending on resumption.
    Running,
    /// Finished; never re-executed.
    Complete,
    /// Paused for human review; never re-executed by advancement.
    NeedsReview,
    /// Failed; advancement for the item halts, a retry may re-enter.
    Failed,
}

/// The outcome a stage reports.
#[derive(Debug, PartialEq)]
pub enum StageOutcome {
    /// The stage finished.
    Complete,
    /// The stage spawned the named subtasks.
    FanOut(Vec<String>),
    /// The stage paused for human review.
    NeedsReview,
    /// The stage failed, with a message.
    Failed(String),
}

/// The mathematical value of a [`StageOutcome`].
#[verifier::ext_equal]
pub ghost enum OutcomeVal {
    /// The stage finished.
    Complete,
    /// The stage spawned the named subtasks.
    FanOut(Seq<Seq<char>>),
    /// The stage paused for human review.
    NeedsReview,
    /// The stage failed, with a message.
    Failed(Seq<char>),
}

impl View for StageOutcome {
    type V = OutcomeVal;

    open spec fn view(&self) -> OutcomeVal {
        match self {
            StageOutcome::Complete => OutcomeVal::Complete,
            StageOutcome::FanOut(subs) => OutcomeVal::FanOut(
                Seq::new(subs@.len(), |i: int| subs@[i]@),
            ),
            StageOutcome::NeedsReview => OutcomeVal::NeedsReview,
            StageOutcome::Failed(m) => OutcomeVal::Failed(m@),
        }
    }
}

/// One persisted state record for a work item: a stage, an optional
/// subtask, the status, the last error if any, and the update time.
#[derive(Debug, PartialEq)]
pub struct StageState {
    /// The stage's name.
    pub stage: String,
    /// The subtask's name, for fan-out subtask records.
    pub subtask: Option<String>,
    /// The record's status.
    pub status: StageStatus,
    /// The last error message, if the stage failed.
    pub last_error: Option<String>,
    /// The last update time, milliseconds since the epoch.
    pub updated_at: i64,
}

/// The mathematical value of a [`StageState`].
#[verifier::ext_equal]
pub ghost struct StateVal {
    /// The stage's name.
    pub stage: Seq<char>,
    /// The subtask's name, for fan-out subtask records.
    pub subtask: Option<Seq<char>>,
    /// The record's status.
    pub status: StageStatus,
    /// The last error message, if the stage failed.
    pub last_error: Option<Seq<char>>,
    /// The last update time.
    pub updated_at: int,
}

impl View for StageState {
    type V = StateVal;

    open spec fn view(&self) -> StateVal {
        StateVal {
            stage: self.stage@,
            subtask: crate::model::opt_view(self.subtask),
            status: self.status,
            last_error: crate::model::opt_view(self.last_error),
            updated_at: self.updated_at as int,
        }
    }
}

impl Clone for StageState {
    /// A copy with the same mathematical value.
    fn clone(&self) -> (r: Self)
        ensures
            r@ == self@,
    {
        StageState {
            stage: self.stage.clone(),
            subtask: crate::text::clone_opt_string(&self.subtask),
            status: self.status,
            last_error: crate::text::clone_opt_string(&self.last_error),
            updated_at: self.updated_at,
        }
    }
}

/// The views of a sequence of state records.
pub open spec fn states_view(v: Seq<StageState>) -> Seq<StateVal> {
    Seq::new(v.len(), |i: int| v[i]@)
}

/// The views of a sequence of strings.
pub open spec fn names_view(v: Seq<String>) -> Seq<Seq<char>> {
    Seq::new(v.len(), |i: int| v[i]@)
}

/// Whether the name occurs in the sequence.
pub open spec fn name_in(names: Seq<Seq<char>>, target: Seq<char>) -> bool {
    exists|x: int| 0 <= x < names.len() && names[x] == target
}

/// Some name before position `i` equals the target.
pub open spec fn name_before(names: Seq<Seq<char>>, i: int, target: Seq<char>) -> bool {
    exists|j: int| 0 <= j < i && names[j] == target
}

/// The edge's stage appears in the names, somewhere after its
/// dependency.
pub open spec fn edge_ordered(names: Seq<Seq<char>>, edge: (Seq<char>, Seq<char>)) -> bool {
    exists|i: int| 0 <= i < names.len() && (#[trigger] names[i]) == edge.0 && name_before(
        names,
        i,
        edge.1,
    )
}

/// The names are pairwise distinct.
pub open spec fn names_distinct(names: Seq<Seq<char>>) -> bool {
    forall|i: int, j: int|
        0 <= i < j < names.len() ==> (#[trigger] names[i]) != (#[trigger] names[j])
}

/// A stage list already in dependency order: distinct names, and every
/// edge's dependency placed before its dependent stage. Such a list is
/// always accepted by the builder.
pub open spec fn stage_list_ordered(
    names: Seq<Seq<char>>,
    deps: Seq<(Seq<char>, Seq<char>)>,
) -> bool {
    names_distinct(names) && forall|e: int|
        0 <= e < deps.len() ==> edge_ordered(names, #[trigger] deps[e])
}

/// A stage whose dependencies are all among the placed names.
pub open spec fn cand_ready(
    deps: Seq<(Seq<char>, Seq<char>)>,
    placed: Seq<Seq<char>>,
    name: Seq<char>,
) -> bool {
    forall|e: int|
        0 <= e < deps.len() && (#[trigger] deps[e]).0 == name ==> name_in(placed, deps[e].1)
}

/// The index of the record for (stage, subtask), if one exists; records
/// are keyed by that pair.
pub open spec fn record_index(
    states: Seq<StateVal>,
    stage: Seq<char>,
    subtask: Option<Seq<char>>,
) -> Option<int>
    decreases states.len(),
{
    if states.len() == 0 {
        None
    } else if states[0].stage == stage && states[0].subtask == subtask {
        Some(0)
    } else {
        match record_index(states.drop_first(), stage, subtask) {
            Some(i) => Some(i + 1),
            None => None,
        }
    }
}

/// The status of (stage, subtask): the first matching record's, or
/// pending when none exists.
pub open spec fn status_of(
    states: Seq<StateVal>,
    stage: Seq<char>,
    subtask: Option<Seq<char>>,
) -> StageStatus {
    match record_index(states, stage, subtask) {
        Some(i) => states[i].status,
        None => StageStatus::Pending,
    }
}

/// A stage is terminal for advancement when it is complete or paused for
/// review: advancement never re-invokes it.
pub open spec fn terminal_for_advancement(status: StageStatus) -> bool {
    status == StageStatus::Complete || status == StageStatus::NeedsReview
}

/// The dependencies of a stage in an edge list: every `dep` with
/// `(stage, dep)` in the list.
pub open spec fn depends_on(
    deps: Seq<(Seq<char>, Seq<char>)>,
    stage: Seq<char>,
    dep: Seq<char>,
) -> bool {
    exists|i: int| 0 <= i < deps.len() && #[trigger] deps[i] == (stage, dep)
}

/// A stage is ready when every dependency is complete and its own state
/// is not terminal for advancement.
pub open spec fn stage_ready(
    deps: Seq<(Seq<char>, Seq<char>)>,
    states: Seq<StateVal>,
    stage: Seq<char>,
) -> bool {
    &&& !terminal_for_advancement(status_of(states, stage, None))
    &&& forall|i: int|
        0 <= i < deps.len() && (#[trigger] deps[i]).0 == stage ==> status_of(
            states,
            deps[i].1,
            None,
        ) == StageStatus::Complete
}

/// A workflow definition: named stages in topological order, and the
/// dependency edges `(stage, depends_on)` among them.
#[derive(Debug, PartialEq)]
pub struct WorkflowDef {
    /// The stages, in an order where every dependency precedes its
    /// dependent.
    pub stages: Vec<String>,
    /// The dependency edges: `(stage, depends_on)`.
    pub dependencies: Vec<(String, String)>,
}

/// The views of dependency edges.
pub open spec fn deps_view(v: Seq<(String, String)>) -> Seq<(Seq<char>, Seq<char>)> {
    Seq::new(v.len(), |i: int| (v[i].0@, v[i].1@))
}

/// When a dependency-ordered stage list is split into a placed prefix
/// and a remaining suffix, the suffix's first stage has every dependency
/// among the placed names.
proof fn lemma_front_ready(
    nv: Seq<Seq<char>>,
    deps: Seq<(Seq<char>, Seq<char>)>,
    placed: Seq<Seq<char>>,
    rest: Seq<Seq<char>>,
    k: int,
)
    requires
        stage_list_ordered(nv, deps),
        0 <= k <= nv.len(),
        placed == nv.subrange(0, k),
        rest == nv.subrange(k, nv.len() as int),
        rest.len() > 0,
        placed.len() == k,
    ensures
        rest[0] == nv[k],
        cand_ready(deps, placed, rest[0]),
{
    assert(rest[0] == nv[k]);
    assert forall|e: int|
        0 <= e < deps.len() && (#[trigger] deps[e]).0 == rest[0] implies name_in(
        placed,
        deps[e].1,
    ) by {
        assert(edge_ordered(nv, deps[e]));
        let i = choose|i: int|
            0 <= i < nv.len() && (#[trigger] nv[i]) == deps[e].0 && name_before(
                nv,
                i,
                deps[e].1,
            );
        assert(i == k) by {
            if i < k {
                assert(nv[i] != nv[k]);
            } else if i > k {
                assert(nv[k] != nv[i]);
            }
        }
        let j = choose|j: int| 0 <= j < i && nv[j] == deps[e].1;
        assert(placed[j] == nv[j]);
        assert(name_in(placed, deps[e].1));
    }
}

/// Whether the name occurs among the strings.
fn name_listed(v: &Vec<String>, s: &str) -> (r: bool)
    ensures
        r == name_in(names_view(v@), s@),
{
    let mut i: usize = 0;
    while i < v.len()
        invariant
            i <= v@.len(),
            forall|x: int| 0 <= x < i ==> names_view(v@)[x] != s@,
        decreases v@.len() - i,
    {
        if str_eq(v[i].as_str(), s) {
            proof {
                assert(names_view(v@)[i as int] == s@);
                assert(name_in(names_view(v@), s@));
            }
            return true;
        }
        proof {
            assert(names_view(v@)[i as int] != s@);
        }
        i += 1;
    }
    proof {
        assert(!name_in(names_view(v@), s@));
    }
    false
}

impl WorkflowDef {
    /// The stage order respects every dependency: each edge's dependency
    /// appears before its dependent stage.
    pub open spec fn order_ok(self) -> bool {
        forall|e: int|
            0 <= e < deps_view(self.dependencies@).len() ==> edge_ordered(
                names_view(self.stages@),
                #[trigger] deps_view(self.dependencies@)[e],
            )
    }

    /// Build a workflow from registered stages and dependency edges.
    ///
    /// Succeeds exactly when the edges can be honoured by some ordering
    /// of the given stages: the stages are reordered so that every
    /// dependency precedes its dependent. A cycle, or an edge naming an
    /// unregistered stage, leaves nothing built and reports an invalid
    /// workflow.
    pub fn build(stages: Vec<String>, dependencies: Vec<(String, String)>) -> (r: Result<
        WorkflowDef,
        Error,
    >)
        ensures
            match r {
                Ok(def) => def.order_ok() && def.stages@.len() == stages@.len()
                    && deps_view(def.dependencies@) == deps_view(dependencies@),
                Err(e) => e is InvalidData && !stage_list_ordered(
                    names_view(stages@),
                    deps_view(dependencies@),
                ),
            },
    {
        let ghost depsv = deps_view(dependencies@);
        let ghost nv = names_view(stages@);
        let mut v: usize = 0;
        while v < dependencies.len()
            invariant
                depsv == deps_view(dependencies@),
                nv == names_view(stages@),
                v <= depsv.len(),
                forall|e: int|
                    0 <= e < v ==> name_in(names_view(stages@), (#[trigger] depsv[e]).0),
            decreases depsv.len() - v,
        {
            if !name_listed(&stages, dependencies[v].0.as_str()) {
                proof {
                    assert(!stage_list_ordered(nv, depsv)) by {
                        if stage_list_ordered(nv, depsv) {
                            assert(edge_ordered(nv, depsv[v as int]));
                            let i = choose|i: int|
                                0 <= i < nv.len() && (#[trigger] nv[i]) == depsv[v as int].0
                                    && name_before(nv, i, depsv[v as int].1);
                            assert(name_in(nv, depsv[v as int].0));
                        }
                    }
                }
                return Err(
                    Error::InvalidData(String::from_str("workflow dependency names no stage")),
                );
            }
            v += 1;
        }
        let mut ordered: Vec<String> = Vec::new();
        let mut remaining: Vec<String> = stages;
        proof {
            assert(names_view(remaining@) =~= names_view(stages@));
            assert(names_view(ordered@) =~= nv.subrange(0, 0));
            assert(names_view(remaining@) =~= nv.subrange(0, nv.len() as int));
        }
        while remaining.len() > 0
            invariant
                depsv == deps_view(dependencies@),
                nv == names_view(stages@),
                ordered@.len() + remaining@.len() == stages@.len(),
                stage_list_ordered(nv, depsv) ==> names_view(ordered@) == nv.subrange(
                    0,
                    names_view(ordered@).len() as int,
                ) && names_view(remaining@) == nv.subrange(
                    names_view(ordered@).len() as int,
                    nv.len() as int,
                ),
                forall|e: int|
                    0 <= e < depsv.len() ==> (name_in(names_view(remaining@), (
                    #[trigger] depsv[e]).0) || name_in(names_view(ordered@), depsv[e].0)),
                forall|e: int|
                    0 <= e < depsv.len() ==> (forall|i: int|
                        0 <= i < names_view(ordered@).len() && names_view(ordered@)[i] == (
                        #[trigger] depsv[e]).0 ==> name_before(
                            names_view(ordered@),
                            i,
                            depsv[e].1,
                        )),
            decreases remaining@.len(),
        {
            let mut picked: Option<usize> = None;
            let mut c: usize = 0;
            while c < remaining.len()
                invariant
                    depsv == deps_view(dependencies@),
                    c <= remaining@.len(),
                    match picked {
                        Some(p) => p < remaining@.len() && cand_ready(
                            depsv,
                            names_view(ordered@),
                            names_view(remaining@)[p as int],
                        ) && (forall|k2: int|
                            0 <= k2 < p ==> !cand_ready(
                                depsv,
                                names_view(ordered@),
                                #[trigger] names_view(remaining@)[k2],
                            )),
                        None => forall|k2: int|
                            0 <= k2 < c ==> !cand_ready(
                                depsv,
                                names_view(ordered@),
                                #[trigger] names_view(remaining@)[k2],
                            ),
                    },
                    picked is Some ==> c == remaining@.len(),
                decreases remaining@.len() - c,
            {
                let candidate = &remaining[c];
                let mut deps_met = true;
                let mut e: usize = 0;
                while e < dependencies.len()
                    invariant
                        depsv == deps_view(dependencies@),
                        c < remaining@.len(),
                        candidate == &remaining@[c as int],
                        e <= depsv.len(),
                        deps_met ==> forall|k: int|
                            0 <= k < e && (#[trigger] depsv[k]).0 == remaining@[c as int]@
                                ==> name_in(names_view(ordered@), depsv[k].1),
                        !deps_met ==> e == depsv.len() && !cand_ready(
                            depsv,
                            names_view(ordered@),
                            names_view(remaining@)[c as int],
                        ),
                    decreases depsv.len() - e,
                {
                    if str_eq(dependencies[e].0.as_str(), candidate.as_str()) {
                        let mut found = false;
                        let mut j: usize = 0;
                        while j < ordered.len()
                            invariant
                                depsv == deps_view(dependencies@),
                                e < depsv.len(),
                                j <= ordered@.len(),
                                found ==> name_in(names_view(ordered@), depsv[e as int].1),
                                found ==> j == ordered@.len(),
                                !found ==> forall|j2: int|
                                    0 <= j2 < j ==> (#[trigger] names_view(ordered@)[j2])
                                        != depsv[e as int].1,
                            decreases ordered@.len() - j,
                        {
                            if str_eq(ordered[j].as_str(), dependencies[e].1.as_str()) {
                                proof {
                                    assert(names_view(ordered@)[j as int] == depsv[e as int].1);
                                    assert(name_in(names_view(ordered@), depsv[e as int].1));
                                }
                                found = true;
                                j = ordered.len();
                            } else {
                                j += 1;
                            }
                        }
                        if !found {
                            proof {
                                assert(!name_in(names_view(ordered@), depsv[e as int].1));
                                assert(depsv[e as int].0 == names_view(remaining@)[c as int]);
                                assert(!cand_ready(
                                    depsv,
                                    names_view(ordered@),
                                    names_view(remaining@)[c as int],
                                ));
                            }
                            deps_met = false;
                            e = dependencies.len();
                        } else {
                            e += 1;
                        }
                    } else {
                        e += 1;
                    }
                }
                if deps_met {
                    proof {
                        assert(cand_ready(
                            depsv,
                            names_view(ordered@),
                            names_view(remaining@)[c as int],
                        ));
                    }
                    picked = Some(c);
                    c = remaining.len();
                } else {
                    c += 1;
                }
            }
            match picked {
                Some(p) => {
                    let ghost old_ordered = names_view(ordered@);
                    let ghost old_remaining = names_view(remaining@);
                    let ghost moved = remaining@[p as int]@;
                    let ghost pi = p as int;
                    let stage = remaining.remove(p);
                    ordered.push(stage);
                    proof {
                        assert(names_view(ordered@) =~= old_ordered.push(moved));
                        assert(names_view(remaining@) =~= old_remaining.remove(pi));
                        if stage_list_ordered(nv, depsv) {
                            let k = old_ordered.len() as int;
                            lemma_front_ready(nv, depsv, old_ordered, old_remaining, k);
                            assert(pi == 0) by {
                                if pi > 0 {
                                    assert(!cand_ready(depsv, old_ordered, old_remaining[0]));
                                }
                            }
                            assert(moved == nv[k]);
                            assert(names_view(ordered@) =~= nv.subrange(0, k + 1));
                            assert(names_view(remaining@) =~= nv.subrange(
                                k + 1,
                                nv.len() as int,
                            ));
                        }
                        assert forall|e2: int|
                            0 <= e2 < depsv.len() implies (name_in(names_view(remaining@), (
                        #[trigger] depsv[e2]).0) || name_in(names_view(ordered@), depsv[e2].0)) by {
                            if name_in(old_remaining, depsv[e2].0) {
                                let x = choose|x: int|
                                    0 <= x < old_remaining.len() && old_remaining[x]
                                        == depsv[e2].0;
                                if x == pi {
                                    assert(names_view(ordered@)[old_ordered.len() as int]
                                        == moved);
                                    assert(name_in(names_view(ordered@), depsv[e2].0));
                                } else if x < pi {
                                    assert(names_view(remaining@)[x] == old_remaining[x]);
                                    assert(name_in(names_view(remaining@), depsv[e2].0));
                                } else {
                                    assert(names_view(remaining@)[x - 1] == old_remaining[x]);
                                    assert(name_in(names_view(remaining@), depsv[e2].0));
                                }
                            } else {
                                assert(name_in(old_ordered, depsv[e2].0));
                                let i = choose|i: int|
                                    0 <= i < old_ordered.len() && old_ordered[i] == depsv[e2].0;
                                assert(names_view(ordered@)[i] == old_ordered[i]);
                                assert(name_in(names_view(ordered@), depsv[e2].0));
                            }
                        }
                        assert forall|e2: int|
                            0 <= e2 < depsv.len() implies (forall|i: int|
                            0 <= i < names_view(ordered@).len() && names_view(ordered@)[i] == (
                            #[trigger] depsv[e2]).0 ==> name_before(
                                names_view(ordered@),
                                i,
                                depsv[e2].1,
                            )) by {
                            assert forall|i: int|
                                0 <= i < names_view(ordered@).len() && names_view(ordered@)[i]
                                    == depsv[e2].0 implies name_before(
                                names_view(ordered@),
                                i,
                                depsv[e2].1,
                            ) by {
                                if i < old_ordered.len() {
                                    assert(names_view(ordered@)[i] == old_ordered[i]);
                                    assert(name_before(old_ordered, i, depsv[e2].1));
                                    let j = choose|j: int|
                                        0 <= j < i && old_ordered[j] == depsv[e2].1;
                                    assert(names_view(ordered@)[j] == old_ordered[j]);
                                    assert(name_before(names_view(ordered@), i, depsv[e2].1));
                                } else {
                                    assert(names_view(ordered@)[i] == moved);
                                    if depsv[e2].0 == moved {
                                        assert(name_in(old_ordered, depsv[e2].1));
                                        let j = choose|j: int|
                                            0 <= j < old_ordered.len() && old_ordered[j]
                                                == depsv[e2].1;
                                        assert(names_view(ordered@)[j] == old_ordered[j]);
                                        assert(name_before(
                                            names_view(ordered@),
                                            i,
                                            depsv[e2].1,
                                        ));
                                    }
                                }
                            }
                        }
                    }
                },
                None => {
                    proof {
                        assert(!stage_list_ordered(nv, depsv)) by {
                            if stage_list_ordered(nv, depsv) {
                                let k = names_view(ordered@).len() as int;
                                lemma_front_ready(
                                    nv,
                                    depsv,
                                    names_view(ordered@),
                                    names_view(remaining@),
                                    k,
                                );
                                assert(!cand_ready(
                                    depsv,
                                    names_view(ordered@),
                                    names_view(remaining@)[0],
                                ));
                            }
                        }
                    }
                    return Err(
                        Error::InvalidData(
                            String::from_str("workflow has a cycle or a missing stage"),
                        ),
                    );
                },
            }
        }
        let def = WorkflowDef { stages: ordered, dependencies };
        proof {
            assert(deps_view(def.dependencies@) =~= depsv);
            assert forall|e: int|
                0 <= e < deps_view(def.dependencies@).len() implies edge_ordered(
                names_view(def.stages@),
                #[trigger] deps_view(def.dependencies@)[e],
            ) by {
                assert(name_in(names_view(def.stages@), depsv[e].0));
                let i = choose|i: int|
                    0 <= i < names_view(def.stages@).len() && names_view(def.stages@)[i]
                        == depsv[e].0;
                assert(name_before(names_view(def.stages@), i, depsv[e].1));
                assert(deps_view(def.dependencies@)[e] == depsv[e]);
                assert(edge_ordered(names_view(def.stages@), deps_view(def.dependencies@)[e]));
            }
        }
        Ok(def)
    }

    /// The ready stages, in dependency order: those whose dependencies
    /// are all complete and whose own state is neither complete nor
    /// needs-review. A stage already complete, or paused for review, is
    /// never returned — advancement never re-invokes it.
    pub fn ready_stages(&self, states: &Vec<StageState>) -> (r: Vec<String>)
        ensures
            forall|k: int|
                0 <= k < names_view(r@).len() ==> stage_ready(
                    deps_view(self.dependencies@),
                    states_view(states@),
                    #[trigger] names_view(r@)[k],
                ),
            forall|k: int|
                0 <= k < names_view(r@).len() ==> !terminal_for_advancement(
                    status_of(states_view(states@), #[trigger] names_view(r@)[k], None),
                ),
            forall|k: int|
                0 <= k < names_view(self.stages@).len() && stage_ready(
                    deps_view(self.dependencies@),
                    states_view(states@),
                    #[trigger] names_view(self.stages@)[k],
                ) ==> name_in(names_view(r@), names_view(self.stages@)[k]),
    {
        let ghost depsv = deps_view(self.dependencies@);
        let ghost statesv = states_view(states@);
        let mut r: Vec<String> = Vec::new();
        let mut i: usize = 0;
        while i < self.stages.len()
            invariant
                depsv == deps_view(self.dependencies@),
                statesv == states_view(states@),
                i <= self.stages@.len(),
                forall|k: int|
                    0 <= k < names_view(r@).len() ==> stage_ready(
                        depsv,
                        statesv,
                        #[trigger] names_view(r@)[k],
                    ),
                forall|k: int|
                    0 <= k < i && stage_ready(
                        depsv,
                        statesv,
                        #[trigger] names_view(self.stages@)[k],
                    ) ==> name_in(names_view(r@), names_view(self.stages@)[k]),
            decreases self.stages@.len() - i,
        {
            let stage = &self.stages[i];
            let ghost stage_name = names_view(self.stages@)[i as int];
            let status = lookup_status(states, stage.as_str(), None);
            let terminal = match status {
                StageStatus::Complete => true,
                StageStatus::NeedsReview => true,
                _ => false,
            };
            if terminal {
                proof {
                    assert(terminal_for_advancement(status_of(statesv, stage_name, None)));
                    assert(!stage_ready(depsv, statesv, stage_name));
                }
            }
            if !terminal {
                let mut deps_ok = true;
                let mut e: usize = 0;
                while e < self.dependencies.len()
                    invariant
                        depsv == deps_view(self.dependencies@),
                        statesv == states_view(states@),
                        i < self.stages@.len(),
                        stage == &self.stages@[i as int],
                        e <= depsv.len(),
                        deps_ok ==> forall|k: int|
                            0 <= k < e && (#[trigger] depsv[k]).0 == self.stages@[i as int]@
                                ==> status_of(statesv, depsv[k].1, None) == StageStatus::Complete,
                        !deps_ok ==> e == depsv.len() && !stage_ready(
                            depsv,
                            statesv,
                            names_view(self.stages@)[i as int],
                        ),
                    decreases depsv.len() - e,
                {
                    if str_eq(self.dependencies[e].0.as_str(), stage.as_str()) {
                        let dep_status = lookup_status(
                            states,
                            self.dependencies[e].1.as_str(),
                            None,
                        );
                        let complete = match dep_status {
                            StageStatus::Complete => true,
                            _ => false,
                        };
                        if !complete {
                            proof {
                                assert(status_of(statesv, depsv[e as int].1, None)
                                    != StageStatus::Complete);
                                assert(!stage_ready(
                                    depsv,
                                    statesv,
                                    names_view(self.stages@)[i as int],
                                ));
                            }
                            deps_ok = false;
                            e = self.dependencies.len();
                        } else {
                            proof {
                                assert(status_of(statesv, depsv[e as int].1, None)
                                    == StageStatus::Complete);
                            }
                            e += 1;
                        }
                    } else {
                        e += 1;
                    }
                }
                if deps_ok {
                    let ghost old_names = names_view(r@);
                    r.push(stage.clone());
                    proof {
                        assert(names_view(r@) =~= old_names.push(self.stages@[i as int]@));
                        assert(stage_ready(depsv, statesv, self.stages@[i as int]@));
                        assert(names_view(r@)[old_names.len() as int] == stage_name);
                        assert(name_in(names_view(r@), stage_name));
                        assert forall|k: int|
                            0 <= k < i && stage_ready(
                                depsv,
                                statesv,
                                #[trigger] names_view(self.stages@)[k],
                            ) implies name_in(names_view(r@), names_view(self.stages@)[k]) by {
                            assert(name_in(old_names, names_view(self.stages@)[k]));
                            let w = choose|w: int|
                                0 <= w < old_names.len() && old_names[w] == names_view(
                                    self.stages@,
                                )[k];
                            assert(names_view(r@)[w] == old_names[w]);
                        }
                    }
                }
            }
            i += 1;
        }
        r
    }
}

/// Find the status of (stage, subtask) among the records: the first
/// matching record's status, or pending when none matches.
pub fn lookup_status(states: &Vec<StageState>, stage: &str, subtask: Option<&str>) -> (r:
    StageStatus)
    ensures
        r == status_of(
            states_view(states@),
            stage@,
            match subtask {
                Some(s) => Some(s@),
                None => None,
            },
        ),
{
    let ghost sv = states_view(states@);
    let ghost target: Option<Seq<char>> = match subtask {
        Some(s) => Some(s@),
        None => None,
    };
    let mut i: usize = 0;
    proof {
        assert(sv.subrange(0, sv.len() as int) =~= sv);
    }
    while i < states.len()
        invariant
            sv == states_view(states@),
            target == (match subtask {
                Some(s) => Some(s@),
                None => None,
            }),
            i <= sv.len(),
            record_index(sv, stage@, target) == (match record_index(
                sv.subrange(i as int, sv.len() as int),
                stage@,
                target,
            ) {
                Some(k) => Some(k + i),
                None => None,
            }),
            forall|k: int| 0 <= k < i ==> !((#[trigger] sv[k]).stage == stage@ && sv[k].subtask
                == target),
        decreases sv.len() - i,
    {
        proof {
            let tail = sv.subrange(i as int, sv.len() as int);
            assert(tail[0] == sv[i as int]);
            assert(tail.drop_first() =~= sv.subrange(i + 1, sv.len() as int));
        }
        let here = &states[i];
        let stage_hit = str_eq(here.stage.as_str(), stage);
        let subtask_hit = match (&here.subtask, &subtask) {
            (Some(a), Some(b)) => str_eq(a.as_str(), b),
            (None, None) => true,
            _ => false,
        };
        if stage_hit && subtask_hit {
            proof {
                assert(sv[i as int].stage == stage@ && sv[i as int].subtask == target);
                assert(record_index(sv, stage@, target) == Some(i as int));
            }
            return here.status;
        }
        i += 1;
    }
    proof {
        assert(sv.subrange(sv.len() as int, sv.len() as int).len() == 0);
        assert(record_index(sv, stage@, target) is None);
    }
    StageStatus::Pending
}

/// Record a status for (stage, subtask): a fresh record is placed at
/// the front, where keyed lookup finds it first; earlier records remain
/// as history.
pub fn record_status(
    states: &mut Vec<StageState>,
    stage: &str,
    subtask: Option<&str>,
    status: StageStatus,
    last_error: Option<&str>,
    updated_at: i64,
)
    ensures
        status_of(
            states_view(final(states)@),
            stage@,
            match subtask {
                Some(s) => Some(s@),
                None => None,
            },
        ) == status,
        states_view(final(states)@).len() == states_view(old(states)@).len() + 1,
        states_view(final(states)@).drop_first() == states_view(old(states)@),
{
    let record = StageState {
        stage: stage.to_owned(),
        subtask: match subtask {
            Some(s) => Some(s.to_owned()),
            None => None,
        },
        status,
        last_error: match last_error {
            Some(e) => Some(e.to_owned()),
            None => None,
        },
        updated_at,
    };
    let ghost pre = states_view(states@);
    let ghost rv = record@;
    states.insert(0, record);
    proof {
        let sv = states_view(states@);
        assert(sv =~= seq![rv] + pre);
        assert(sv[0].stage == stage@);
        assert(record_index(
            sv,
            stage@,
            match subtask {
                Some(s) => Some(s@),
                None => None,
            },
        ) == Some(0int));
        assert(sv.drop_first() =~= pre);
    }
}

/// The subtasks of a fan-out that still need to run: those whose record
/// is not complete. A subtask recorded complete is skipped on
/// resumption.
pub fn pending_subtasks(states: &Vec<StageState>, stage: &str, subtasks: &Vec<String>) -> (r: Vec<
    String,
>)
    ensures
        forall|k: int|
            0 <= k < names_view(r@).len() ==> status_of(
                states_view(states@),
                stage@,
                Some(#[trigger] names_view(r@)[k]),
            ) != StageStatus::Complete,
        forall|k: int|
            0 <= k < names_view(subtasks@).len() && status_of(
                states_view(states@),
                stage@,
                Some(#[trigger] names_view(subtasks@)[k]),
            ) != StageStatus::Complete ==> name_in(names_view(r@), names_view(subtasks@)[k]),
{
    let mut r: Vec<String> = Vec::new();
    let mut i: usize = 0;
    while i < subtasks.len()
        invariant
            i <= subtasks@.len(),
            forall|k: int|
                0 <= k < names_view(r@).len() ==> status_of(
                    states_view(states@),
                    stage@,
                    Some(#[trigger] names_view(r@)[k]),
                ) != StageStatus::Complete,
            forall|k: int|
                0 <= k < i && status_of(
                    states_view(states@),
                    stage@,
                    Some(#[trigger] names_view(subtasks@)[k]),
                ) != StageStatus::Complete ==> name_in(names_view(r@), names_view(subtasks@)[k]),
        decreases subtasks@.len() - i,
    {
        let status = lookup_status(states, stage, Some(subtasks[i].as_str()));
        let complete = match status {
            StageStatus::Complete => true,
            _ => false,
        };
        if !complete {
            let ghost old_names = names_view(r@);
            r.push(subtasks[i].clone());
            proof {
                assert(names_view(r@) =~= old_names.push(subtasks@[i as int]@));
                assert(names_view(r@)[old_names.len() as int] == names_view(subtasks@)[i as int]);
                assert(name_in(names_view(r@), names_view(subtasks@)[i as int]));
                assert forall|k: int|
                    0 <= k < i && status_of(
                        states_view(states@),
                        stage@,
                        Some(#[trigger] names_view(subtasks@)[k]),
                    ) != StageStatus::Complete implies name_in(
                    names_view(r@),
                    names_view(subtasks@)[k],
                ) by {
                    let w = choose|w: int|
                        0 <= w < old_names.len() && old_names[w] == names_view(subtasks@)[k];
                    assert(names_view(r@)[w] == old_names[w]);
                }
            }
        }
        i += 1;
    }
    r
}

/// Whether every named subtask of the stage is recorded complete; the
/// parent stage completes only then.
pub fn all_subtasks_complete(states: &Vec<StageState>, stage: &str, subtasks: &Vec<String>) -> (r:
    bool)
    ensures
        r == (forall|k: int|
            0 <= k < names_view(subtasks@).len() ==> status_of(
                states_view(states@),
                stage@,
                Some(#[trigger] names_view(subtasks@)[k]),
            ) == StageStatus::Complete),
{
    let mut i: usize = 0;
    while i < subtasks.len()
        invariant
            i <= subtasks@.len(),
            forall|k: int|
                0 <= k < i ==> status_of(
                    states_view(states@),
                    stage@,
                    Some(#[trigger] names_view(subtasks@)[k]),
                ) == StageStatus::Complete,
        decreases subtasks@.len() - i,
    {
        let status = lookup_status(states, stage, Some(subtasks[i].as_str()));
        let complete = match status {
            StageStatus::Complete => true,
            _ => false,
        };
        if !complete {
            proof {
                assert(status_of(states_view(states@), stage@, Some(names_view(subtasks@)[i as int]))
                    != StageStatus::Complete);
            }
            return false;
        }
        i += 1;
    }
    true
}

/// Demote running records to pending: on resumption after a crash, a
/// stage caught mid-run is re-tried, while complete, needs-review, and
/// failed records keep their status.
pub fn reconcile_running(states: &mut Vec<StageState>)
    ensures
        final(states)@.len() == old(states)@.len(),
        forall|k: int|
            0 <= k < final(states)@.len() ==> (#[trigger] states_view(final(states)@)[k])
                == (if states_view(old(states)@)[k].status == StageStatus::Running {
                StateVal { status: StageStatus::Pending, ..states_view(old(states)@)[k] }
            } else {
                states_view(old(states)@)[k]
            }),
{
    let mut i: usize = 0;
    while i < states.len()
        invariant
            states@.len() == old(states)@.len(),
            i <= states@.len(),
            forall|k: int|
                i <= k < states@.len() ==> (#[trigger] states_view(states@)[k]) == states_view(
                    old(states)@,
                )[k],
            forall|k: int|
                0 <= k < i ==> (#[trigger] states_view(states@)[k]) == (if states_view(
                    old(states)@,
                )[k].status == StageStatus::Running {
                    StateVal { status: StageStatus::Pending, ..states_view(old(states)@)[k] }
                } else {
                    states_view(old(states)@)[k]
                }),
        decreases states@.len() - i,
    {
        let ghost pre = states_view(states@);
        let running = match states[i].status {
            StageStatus::Running => true,
            _ => false,
        };
        if running {
            let mut rec = states[i].clone();
            rec.status = StageStatus::Pending;
            proof {
                assert(rec@ == (StateVal { status: StageStatus::Pending, ..pre[i as int] }));
            }
            states.set(i, rec);
            proof {
                assert forall|k: int| 0 <= k < states@.len() && k != i implies (
                #[trigger] states_view(states@)[k]) == pre[k] by {
                    assert(states@[k] == old(states)@[k] || true);
                    assert(states_view(states@)[k] == states@[k]@);
                }
                assert(states_view(states@)[i as int] == (StateVal {
                    status: StageStatus::Pending,
                    ..pre[i as int]
                }));
            }
        }
        i += 1;
    }
}

/// Advancement is idempotent over terminal stages: a stage whose state
/// is complete or needs-review is never among the ready stages, so
/// advancing a second time from the same records re-invokes nothing that
/// finished, and the decision is a pure function of the definition and
/// the records.
pub proof fn lemma_advancement_idempotent(
    deps: Seq<(Seq<char>, Seq<char>)>,
    states: Seq<StateVal>,
    stage: Seq<char>,
)
    requires
        terminal_for_advancement(status_of(states, stage, None)),
    ensures
        !stage_ready(deps, states, stage),
{
}

} // verus!
