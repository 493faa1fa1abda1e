//! Variable tree manager.
//!
//! Converts the forest of server-assigned container references into a
//! flattened, depth-annotated, independently expandable display list.
//! Children of a container are fetched lazily, on first expansion, and
//! cached; every resume of execution invalidates the whole cache, since
//! container references are only valid within one stopped state. A
//! generation counter, incremented on every stop, lets responses that
//! belong to a superseded stop be recognized and discarded.

use vstd::prelude::*;

use crate::protocol::{AdapterRequest, RequestModel};

verus! {

/// One scope of a stopped frame, as the adapter reports it.
pub struct Scope {
    pub name: String,
    pub container_ref: u64,
    pub expensive: bool,
}

/// Mathematical content of a [`Scope`].
#[verifier::ext_equal]
pub struct ScopeModel {
    pub name: Seq<char>,
    pub container_ref: u64,
    pub expensive: bool,
}

impl View for Scope {
    type V = ScopeModel;

    open spec fn view(&self) -> ScopeModel {
        ScopeModel { name: self.name@, container_ref: self.container_ref, expensive: self.expensive }
    }
}

impl DeepView for Scope {
    type V = ScopeModel;

    open spec fn deep_view(&self) -> ScopeModel {
        self.view()
    }
}

impl Scope {
    /// A field-for-field copy.
    pub fn duplicate(&self) -> (r: Scope)
        ensures
            r@ == self@,
    {
        Scope {
            name: self.name.clone(),
            container_ref: self.container_ref,
            expensive: self.expensive,
        }
    }
}

/// One variable row, as the adapter reports it. A `container_ref` of zero
/// marks a leaf; any other value names the fetchable set of children.
pub struct Variable {
    pub name: String,
    pub value: String,
    pub container_ref: u64,
}

/// Mathematical content of a [`Variable`].
#[verifier::ext_equal]
pub struct VariableModel {
    pub name: Seq<char>,
    pub value: Seq<char>,
    pub container_ref: u64,
}

impl View for Variable {
    type V = VariableModel;

    open spec fn view(&self) -> VariableModel {
        VariableModel { name: self.name@, value: self.value@, container_ref: self.container_ref }
    }
}

impl DeepView for Variable {
    type V = VariableModel;

    open spec fn deep_view(&self) -> VariableModel {
        self.view()
    }
}

impl Variable {
    /// A field-for-field copy.
    pub fn duplicate(&self) -> (r: Variable)
        ensures
            r@ == self@,
    {
        Variable {
            name: self.name.clone(),
            value: self.value.clone(),
            container_ref: self.container_ref,
        }
    }
}

/// Stable identity of one expandable row, independent of fetch timing:
/// the owning scope's container reference, the name path from the scope
/// down to the row, and the row's depth. Rows with the same key before
/// and after a re-stop count as the same row, so the user's chosen
/// expansion survives; the cached data beneath them does not.
pub struct ExpansionKey {
    pub scope_ref: u64,
    pub path: Vec<String>,
    pub depth: usize,
}

/// Mathematical content of an [`ExpansionKey`].
#[verifier::ext_equal]
pub struct KeyModel {
    pub scope_ref: u64,
    pub path: Seq<Seq<char>>,
    pub depth: nat,
}

impl View for ExpansionKey {
    type V = KeyModel;

    open spec fn view(&self) -> KeyModel {
        KeyModel { scope_ref: self.scope_ref, path: self.path.deep_view(), depth: self.depth as nat }
    }
}

impl DeepView for ExpansionKey {
    type V = KeyModel;

    open spec fn deep_view(&self) -> KeyModel {
        self.view()
    }
}

/// One flattened row of the display list: either a scope header or a
/// variable at some depth beneath its scope.
pub enum VariableTreeEntry {
    Scope(Scope),
    Variable {
        variable: Variable,
        container_ref_of_parent: u64,
        depth: usize,
        has_children: bool,
    },
}

/// Mathematical content of a [`VariableTreeEntry`].
#[verifier::ext_equal]
pub enum EntryModel {
    Scope(ScopeModel),
    Variable { variable: VariableModel, container_ref_of_parent: u64, depth: nat, has_children: bool },
}

impl View for VariableTreeEntry {
    type V = EntryModel;

    open spec fn view(&self) -> EntryModel {
        match self {
            VariableTreeEntry::Scope(s) => EntryModel::Scope(s@),
            VariableTreeEntry::Variable { variable, container_ref_of_parent, depth, has_children } => {
                EntryModel::Variable {
                    variable: variable@,
                    container_ref_of_parent: *container_ref_of_parent,
                    depth: *depth as nat,
                    has_children: *has_children,
                }
            },
        }
    }
}

impl DeepView for VariableTreeEntry {
    type V = EntryModel;

    open spec fn deep_view(&self) -> EntryModel {
        self.view()
    }
}

/// The fetched children of one container reference. `error` records that
/// the fetch failed: the row renders an inline error marker and an empty
/// child list instead of failing the whole tree.
struct CacheSlot {
    container_ref: u64,
    variables: Vec<Variable>,
    error: bool,
}

/// Mathematical content of one cache slot.
#[verifier::ext_equal]
pub struct CacheSlotModel {
    pub container_ref: u64,
    pub variables: Seq<VariableModel>,
    pub error: bool,
}

impl View for CacheSlot {
    type V = CacheSlotModel;

    closed spec fn view(&self) -> CacheSlotModel {
        CacheSlotModel {
            container_ref: self.container_ref,
            variables: self.variables.deep_view(),
            error: self.error,
        }
    }
}

impl DeepView for CacheSlot {
    type V = CacheSlotModel;

    open spec fn deep_view(&self) -> CacheSlotModel {
        self.view()
    }
}

/// The scope list of one loaded stack frame. `error` records that the
/// scopes fetch failed and the list stands empty for that reason.
struct FrameRecord {
    thread_id: u64,
    frame_id: u64,
    scopes: Vec<Scope>,
    error: bool,
}

/// Mathematical content of one loaded frame.
#[verifier::ext_equal]
pub struct FrameModel {
    pub thread_id: u64,
    pub frame_id: u64,
    pub scopes: Seq<ScopeModel>,
    pub error: bool,
}

impl View for FrameRecord {
    type V = FrameModel;

    closed spec fn view(&self) -> FrameModel {
        FrameModel {
            thread_id: self.thread_id,
            frame_id: self.frame_id,
            scopes: self.scopes.deep_view(),
            error: self.error,
        }
    }
}

impl DeepView for FrameRecord {
    type V = FrameModel;

    open spec fn deep_view(&self) -> FrameModel {
        self.view()
    }
}

/// One remembered expansion choice: the row's key and whether the row is
/// currently expanded. A collapsed row keeps its slot, so that collapsing
/// and re-expanding restores the state exactly.
struct ExpansionSlot {
    key: ExpansionKey,
    on: bool,
}

/// Mathematical content of one expansion choice.
#[verifier::ext_equal]
pub struct ExpansionSlotModel {
    pub key: KeyModel,
    pub on: bool,
}

impl View for ExpansionSlot {
    type V = ExpansionSlotModel;

    closed spec fn view(&self) -> ExpansionSlotModel {
        ExpansionSlotModel { key: self.key@, on: self.on }
    }
}

impl DeepView for ExpansionSlot {
    type V = ExpansionSlotModel;

    open spec fn deep_view(&self) -> ExpansionSlotModel {
        self.view()
    }
}

/// A failed adapter request, as the session layer reports it.
pub struct AdapterError {
    pub message: String,
}

/// The errors the manager reports. Neither aborts anything: a stale
/// response is discarded, an unresolved patch leaves the stale value in
/// place until the next full refresh.
#[derive(Clone, Copy, Debug, PartialEq, Eq, Structural)]
pub enum TreeError {
    /// The response belongs to a superseded stopped state.
    StaleContainerReference,
    /// No cached row matches the requested patch target.
    UnresolvedPatchTarget,
}

/// State of the manager: the generation counter, the loaded frames, the
/// remembered expansion choices, the cache of fetched children, and the
/// container references whose fetch is in flight.
#[verifier::ext_equal]
pub struct ManagerModel {
    pub generation: nat,
    pub frames: Seq<FrameModel>,
    pub expansions: Seq<ExpansionSlotModel>,
    pub cache: Seq<CacheSlotModel>,
    pub in_flight: Seq<u64>,
}

/// Index of the first cache slot for the container, or -1 when none is
/// cached.
pub open spec fn slot_index(cache: Seq<CacheSlotModel>, id: u64) -> int
    decreases cache.len(),
{
    if cache.len() == 0 {
        -1
    } else if cache[0].container_ref == id {
        0
    } else {
        let r = slot_index(cache.drop_first(), id);
        if r == -1 {
            -1
        } else {
            r + 1
        }
    }
}

/// Whether the container's children are cached.
pub open spec fn has_slot(cache: Seq<CacheSlotModel>, id: u64) -> bool {
    slot_index(cache, id) >= 0
}

pub proof fn lemma_slot_index(cache: Seq<CacheSlotModel>, id: u64)
    ensures
        slot_index(cache, id) >= -1,
        slot_index(cache, id) == -1 ==> forall|j: int|
            0 <= j < cache.len() ==> (#[trigger] cache[j].container_ref) != id,
        slot_index(cache, id) >= 0 ==> {
            let i = slot_index(cache, id);
            &&& 0 <= i < cache.len()
            &&& cache[i].container_ref == id
            &&& forall|j: int| 0 <= j < i ==> (#[trigger] cache[j].container_ref) != id
        },
    decreases cache.len(),
{
    if cache.len() == 0 {
    } else if cache[0].container_ref == id {
    } else {
        lemma_slot_index(cache.drop_first(), id);
        let rest = cache.drop_first();
        let r = slot_index(rest, id);
        if r >= 0 {
            assert forall|j: int| 0 <= j < r + 1 implies (#[trigger] cache[j].container_ref)
                != id by {
                if j > 0 {
                    assert(cache[j] == rest[j - 1]);
                    assert(rest[j - 1].container_ref != id);
                }
            }
            assert(cache[r + 1] == rest[r]);
        } else {
            assert forall|j: int| 0 <= j < cache.len() implies (#[trigger] cache[j].container_ref)
                != id by {
                if j > 0 {
                    assert(cache[j] == rest[j - 1]);
                    assert(rest[j - 1].container_ref != id);
                }
            }
        }
    }
}

/// The first match, with nothing matching before it, is what
/// `slot_index` returns.
pub proof fn lemma_slot_index_is(cache: Seq<CacheSlotModel>, id: u64, i: int)
    requires
        0 <= i < cache.len(),
        cache[i].container_ref == id,
        forall|j: int| 0 <= j < i ==> (#[trigger] cache[j].container_ref) != id,
    ensures
        slot_index(cache, id) == i,
    decreases cache.len(),
{
    if i == 0 {
    } else {
        let rest = cache.drop_first();
        assert(rest[i - 1] == cache[i]);
        assert forall|j: int| 0 <= j < i - 1 implies (#[trigger] rest[j].container_ref) != id by {
            assert(rest[j] == cache[j + 1]);
        }
        lemma_slot_index_is(rest, id, i - 1);
    }
}

/// Index of the first loaded frame for the thread and frame pair, or -1
/// when that frame is not loaded.
pub open spec fn frame_index(frames: Seq<FrameModel>, thread_id: u64, frame_id: u64) -> int
    decreases frames.len(),
{
    if frames.len() == 0 {
        -1
    } else if frames[0].thread_id == thread_id && frames[0].frame_id == frame_id {
        0
    } else {
        let r = frame_index(frames.drop_first(), thread_id, frame_id);
        if r == -1 {
            -1
        } else {
            r + 1
        }
    }
}

/// Whether the frame's scopes are loaded.
pub open spec fn has_frame(frames: Seq<FrameModel>, thread_id: u64, frame_id: u64) -> bool {
    frame_index(frames, thread_id, frame_id) >= 0
}

pub proof fn lemma_frame_index(frames: Seq<FrameModel>, thread_id: u64, frame_id: u64)
    ensures
        frame_index(frames, thread_id, frame_id) >= -1,
        frame_index(frames, thread_id, frame_id) == -1 ==> forall|j: int|
            0 <= j < frames.len() ==> !((#[trigger] frames[j].thread_id) == thread_id
                && frames[j].frame_id == frame_id),
        frame_index(frames, thread_id, frame_id) >= 0 ==> {
            let i = frame_index(frames, thread_id, frame_id);
            &&& 0 <= i < frames.len()
            &&& frames[i].thread_id == thread_id
            &&& frames[i].frame_id == frame_id
            &&& forall|j: int|
                0 <= j < i ==> !((#[trigger] frames[j].thread_id) == thread_id
                    && frames[j].frame_id == frame_id)
        },
    decreases frames.len(),
{
    if frames.len() == 0 {
    } else if frames[0].thread_id == thread_id && frames[0].frame_id == frame_id {
    } else {
        lemma_frame_index(frames.drop_first(), thread_id, frame_id);
        let rest = frames.drop_first();
        let r = frame_index(rest, thread_id, frame_id);
        if r >= 0 {
            assert forall|j: int|
                0 <= j < r + 1 implies !((#[trigger] frames[j].thread_id) == thread_id
                && frames[j].frame_id == frame_id) by {
                if j > 0 {
                    assert(frames[j] == rest[j - 1]);
                    assert(!(rest[j - 1].thread_id == thread_id && rest[j - 1].frame_id == frame_id));
                }
            }
            assert(frames[r + 1] == rest[r]);
        } else {
            assert forall|j: int|
                0 <= j < frames.len() implies !((#[trigger] frames[j].thread_id) == thread_id
                && frames[j].frame_id == frame_id) by {
                if j > 0 {
                    assert(frames[j] == rest[j - 1]);
                    assert(!(rest[j - 1].thread_id == thread_id && rest[j - 1].frame_id == frame_id));
                }
            }
        }
    }
}

pub proof fn lemma_frame_index_is(frames: Seq<FrameModel>, thread_id: u64, frame_id: u64, i: int)
    requires
        0 <= i < frames.len(),
        frames[i].thread_id == thread_id,
        frames[i].frame_id == frame_id,
        forall|j: int|
            0 <= j < i ==> !((#[trigger] frames[j].thread_id) == thread_id && frames[j].frame_id
                == frame_id),
    ensures
        frame_index(frames, thread_id, frame_id) == i,
    decreases frames.len(),
{
    if i == 0 {
    } else {
        let rest = frames.drop_first();
        assert(rest[i - 1] == frames[i]);
        assert forall|j: int|
            0 <= j < i - 1 implies !((#[trigger] rest[j].thread_id) == thread_id
            && rest[j].frame_id == frame_id) by {
            assert(rest[j] == frames[j + 1]);
        }
        lemma_frame_index_is(rest, thread_id, frame_id, i - 1);
    }
}

/// Index of the first remembered expansion choice for the key, or -1 when
/// the key was never toggled.
pub open spec fn expansion_index(exps: Seq<ExpansionSlotModel>, k: KeyModel) -> int
    decreases exps.len(),
{
    if exps.len() == 0 {
        -1
    } else if exps[0].key == k {
        0
    } else {
        let r = expansion_index(exps.drop_first(), k);
        if r == -1 {
            -1
        } else {
            r + 1
        }
    }
}

/// Whether the row with this key is currently expanded. A key never
/// toggled is collapsed.
pub open spec fn is_expanded(exps: Seq<ExpansionSlotModel>, k: KeyModel) -> bool {
    let i = expansion_index(exps, k);
    i >= 0 && exps[i].on
}

pub proof fn lemma_expansion_index(exps: Seq<ExpansionSlotModel>, k: KeyModel)
    ensures
        expansion_index(exps, k) >= -1,
        expansion_index(exps, k) == -1 ==> forall|j: int|
            0 <= j < exps.len() ==> (#[trigger] exps[j].key) != k,
        expansion_index(exps, k) >= 0 ==> {
            let i = expansion_index(exps, k);
            &&& 0 <= i < exps.len()
            &&& exps[i].key == k
            &&& forall|j: int| 0 <= j < i ==> (#[trigger] exps[j].key) != k
        },
    decreases exps.len(),
{
    if exps.len() == 0 {
    } else if exps[0].key == k {
    } else {
        lemma_expansion_index(exps.drop_first(), k);
        let rest = exps.drop_first();
        let r = expansion_index(rest, k);
        if r >= 0 {
            assert forall|j: int| 0 <= j < r + 1 implies (#[trigger] exps[j].key) != k by {
                if j > 0 {
                    assert(exps[j] == rest[j - 1]);
                    assert(rest[j - 1].key != k);
                }
            }
            assert(exps[r + 1] == rest[r]);
        } else {
            assert forall|j: int| 0 <= j < exps.len() implies (#[trigger] exps[j].key) != k by {
                if j > 0 {
                    assert(exps[j] == rest[j - 1]);
                    assert(rest[j - 1].key != k);
                }
            }
        }
    }
}

pub proof fn lemma_expansion_index_is(exps: Seq<ExpansionSlotModel>, k: KeyModel, i: int)
    requires
        0 <= i < exps.len(),
        exps[i].key == k,
        forall|j: int| 0 <= j < i ==> (#[trigger] exps[j].key) != k,
    ensures
        expansion_index(exps, k) == i,
    decreases exps.len(),
{
    if i == 0 {
    } else {
        let rest = exps.drop_first();
        assert(rest[i - 1] == exps[i]);
        assert forall|j: int| 0 <= j < i - 1 implies (#[trigger] rest[j].key) != k by {
            assert(rest[j] == exps[j + 1]);
        }
        lemma_expansion_index_is(rest, k, i - 1);
    }
}

/// Index of the first variable with the name, or -1 when none matches.
pub open spec fn var_index(vars: Seq<VariableModel>, name: Seq<char>) -> int
    decreases vars.len(),
{
    if vars.len() == 0 {
        -1
    } else if vars[0].name == name {
        0
    } else {
        let r = var_index(vars.drop_first(), name);
        if r == -1 {
            -1
        } else {
            r + 1
        }
    }
}

pub proof fn lemma_var_index(vars: Seq<VariableModel>, name: Seq<char>)
    ensures
        var_index(vars, name) >= -1,
        var_index(vars, name) == -1 ==> forall|j: int|
            0 <= j < vars.len() ==> (#[trigger] vars[j].name) != name,
        var_index(vars, name) >= 0 ==> {
            let i = var_index(vars, name);
            &&& 0 <= i < vars.len()
            &&& vars[i].name == name
            &&& forall|j: int| 0 <= j < i ==> (#[trigger] vars[j].name) != name
        },
    decreases vars.len(),
{
    if vars.len() == 0 {
    } else if vars[0].name == name {
    } else {
        lemma_var_index(vars.drop_first(), name);
        let rest = vars.drop_first();
        let r = var_index(rest, name);
        if r >= 0 {
            assert forall|j: int| 0 <= j < r + 1 implies (#[trigger] vars[j].name) != name by {
                if j > 0 {
                    assert(vars[j] == rest[j - 1]);
                    assert(rest[j - 1].name != name);
                }
            }
            assert(vars[r + 1] == rest[r]);
        } else {
            assert forall|j: int| 0 <= j < vars.len() implies (#[trigger] vars[j].name) != name by {
                if j > 0 {
                    assert(vars[j] == rest[j - 1]);
                    assert(rest[j - 1].name != name);
                }
            }
        }
    }
}

pub proof fn lemma_var_index_is(vars: Seq<VariableModel>, name: Seq<char>, i: int)
    requires
        0 <= i < vars.len(),
        vars[i].name == name,
        forall|j: int| 0 <= j < i ==> (#[trigger] vars[j].name) != name,
    ensures
        var_index(vars, name) == i,
    decreases vars.len(),
{
    if i == 0 {
    } else {
        let rest = vars.drop_first();
        assert(rest[i - 1] == vars[i]);
        assert forall|j: int| 0 <= j < i - 1 implies (#[trigger] rest[j].name) != name by {
            assert(rest[j] == vars[j + 1]);
        }
        lemma_var_index_is(rest, name, i - 1);
    }
}

/// Containers a newly loaded scope list needs fetched: the container of
/// each scope, in scope order, skipping leaves, containers already cached,
/// and containers already being fetched, each container at most once.
pub open spec fn fetch_plan(
    cache: Seq<CacheSlotModel>,
    in_flight: Seq<u64>,
    scopes: Seq<ScopeModel>,
) -> Seq<u64>
    decreases scopes.len(),
{
    if scopes.len() == 0 {
        Seq::empty()
    } else {
        let c = scopes[0].container_ref;
        if c != 0 && !has_slot(cache, c) && !in_flight.contains(c) {
            seq![c] + fetch_plan(cache, in_flight.push(c), scopes.drop_first())
        } else {
            fetch_plan(cache, in_flight, scopes.drop_first())
        }
    }
}

/// The requests that fetch the planned containers, in plan order.
pub open spec fn variables_requests(plan: Seq<u64>, generation: u64) -> Seq<RequestModel> {
    plan.map(|i: int, c: u64| RequestModel::Variables { container_ref: c, generation })
}

/// Keeps the frames of every thread but the transitioning one.
pub open spec fn keeps_thread(thread_id: u64) -> spec_fn(FrameModel) -> bool {
    |f: FrameModel| f.thread_id != thread_id
}

/// A resume or stop of one thread: every loaded frame of that thread is
/// discarded, and the whole cache and all pending fetches are discarded
/// for every thread, since the adapter owes no container reference any
/// validity across the transition. The generation advances, so responses
/// of the superseded generation can be recognized; expansion choices
/// survive.
pub open spec fn spec_invalidate_thread(m: ManagerModel, thread_id: u64) -> ManagerModel {
    ManagerModel {
        generation: m.generation + 1,
        frames: m.frames.filter(keeps_thread(thread_id)),
        expansions: m.expansions,
        cache: Seq::<CacheSlotModel>::empty(),
        in_flight: Seq::<u64>::empty(),
    }
}

/// A scopes response: stale generations and frames already loaded change
/// nothing; otherwise the frame is stored (an adapter failure as an empty,
/// error-flagged scope list) and a fetch is planned for every scope
/// container not yet cached or in flight.
pub open spec fn spec_scopes_response(
    m: ManagerModel,
    gen: nat,
    thread_id: u64,
    frame_id: u64,
    outcome: Option<Seq<ScopeModel>>,
) -> (ManagerModel, Seq<u64>) {
    if gen != m.generation || has_frame(m.frames, thread_id, frame_id) {
        (m, Seq::<u64>::empty())
    } else {
        let scopes = match outcome {
            Some(s) => s,
            None => Seq::<ScopeModel>::empty(),
        };
        let error = outcome is None;
        let plan = fetch_plan(m.cache, m.in_flight, scopes);
        (
            ManagerModel {
                generation: m.generation,
                frames: m.frames.push(FrameModel { thread_id, frame_id, scopes, error }),
                expansions: m.expansions,
                cache: m.cache,
                in_flight: m.in_flight + plan,
            },
            plan,
        )
    }
}

/// A variables response: a stale generation changes nothing; otherwise the
/// container is no longer in flight and its slot holds the result (an
/// adapter failure as an empty, error-flagged child list), replacing any
/// slot the container already had.
/// Keeps every pending fetch but the answered container's.
pub open spec fn other_container(container_ref: u64) -> spec_fn(u64) -> bool {
    |x: u64| x != container_ref
}

pub open spec fn spec_variables_response(
    m: ManagerModel,
    gen: nat,
    container_ref: u64,
    outcome: Option<Seq<VariableModel>>,
) -> ManagerModel {
    if gen != m.generation {
        m
    } else {
        let slot = CacheSlotModel {
            container_ref,
            variables: match outcome {
                Some(v) => v,
                None => Seq::<VariableModel>::empty(),
            },
            error: outcome is None,
        };
        let i = slot_index(m.cache, container_ref);
        ManagerModel {
            generation: m.generation,
            frames: m.frames,
            expansions: m.expansions,
            cache: if i >= 0 {
                m.cache.update(i, slot)
            } else {
                m.cache.push(slot)
            },
            in_flight: m.in_flight.filter(other_container(container_ref)),
        }
    }
}

/// A toggle: the row's remembered choice flips in place, or starts
/// expanded when the key was never toggled. A fetch is planned only for a
/// row that just became expanded whose children are neither cached nor
/// already being fetched; collapsing never fetches and never discards.
pub open spec fn spec_toggle(m: ManagerModel, k: KeyModel, container_ref: u64) -> (
    ManagerModel,
    Option<u64>,
) {
    let i = expansion_index(m.expansions, k);
    let now_on = if i >= 0 {
        !m.expansions[i].on
    } else {
        true
    };
    let expansions = if i >= 0 {
        m.expansions.update(i, ExpansionSlotModel { key: k, on: now_on })
    } else {
        m.expansions.push(ExpansionSlotModel { key: k, on: true })
    };
    let fetch = now_on && container_ref != 0 && !has_slot(m.cache, container_ref)
        && !m.in_flight.contains(container_ref);
    (
        ManagerModel {
            generation: m.generation,
            frames: m.frames,
            expansions,
            cache: m.cache,
            in_flight: if fetch {
                m.in_flight.push(container_ref)
            } else {
                m.in_flight
            },
        },
        if fetch {
            Some(container_ref)
        } else {
            None
        },
    )
}

/// A targeted patch: in the cached children of the container, the first
/// variable with the name takes the new value; everything else stands.
/// Nothing is fetched. With no cached slot or no matching name, nothing
/// changes and the second component is false.
pub open spec fn spec_patch(m: ManagerModel, container_ref: u64, name: Seq<char>, value: Seq<char>) -> (
    ManagerModel,
    bool,
) {
    let i = slot_index(m.cache, container_ref);
    if i < 0 {
        (m, false)
    } else {
        let slot = m.cache[i];
        let j = var_index(slot.variables, name);
        if j < 0 {
            (m, false)
        } else {
            let patched = VariableModel {
                name: slot.variables[j].name,
                value,
                container_ref: slot.variables[j].container_ref,
            };
            (
                ManagerModel {
                    generation: m.generation,
                    frames: m.frames,
                    expansions: m.expansions,
                    cache: m.cache.update(
                        i,
                        CacheSlotModel {
                            container_ref: slot.container_ref,
                            variables: slot.variables.update(j, patched),
                            error: slot.error,
                        },
                    ),
                    in_flight: m.in_flight,
                },
                true,
            )
        }
    }
}

/// The variable tree manager: the generation counter, the loaded frames,
/// the remembered expansion choices, the reference cache, and the
/// containers whose fetch is in flight.
pub struct VariableTreeManager {
    generation: u64,
    frames: Vec<FrameRecord>,
    expansions: Vec<ExpansionSlot>,
    cache: Vec<CacheSlot>,
    in_flight: Vec<u64>,
}

impl View for VariableTreeManager {
    type V = ManagerModel;

    closed spec fn view(&self) -> ManagerModel {
        ManagerModel {
            generation: self.generation as nat,
            frames: self.frames.deep_view(),
            expansions: self.expansions.deep_view(),
            cache: self.cache.deep_view(),
            in_flight: self.in_flight@,
        }
    }
}

fn vec_index_mut<T>(v: &mut Vec<T>, i: usize) -> (element: &mut T)
    requires
        i < old(v).len(),
    ensures
        *element == old(v)@[i as int],
        final(v)@ == old(v)@.update(i as int, *final(element)),
{
    &mut v[i]
}

/// A field-for-field copy of a scope list.
fn duplicate_scopes(v: &Vec<Scope>) -> (r: Vec<Scope>)
    ensures
        r.deep_view() == v.deep_view(),
{
    let mut r: Vec<Scope> = Vec::new();
    let n = v.len();
    let mut i: usize = 0;
    while i < n
        invariant
            n == v.len(),
            i <= n,
            r.deep_view() =~= v.deep_view().take(i as int),
        decreases n - i,
    {
        let e = v[i].duplicate();
        proof {
            assert(e.deep_view() == v.deep_view()[i as int]);
        }
        let ghost prev = r.deep_view();
        r.push(e);
        proof {
            assert(r.deep_view() =~= prev.push(e.deep_view()));
            v.deep_view().lemma_take_succ_push(i as int);
            assert(r.deep_view() =~= v.deep_view().take(i + 1));
        }
        i = i + 1;
    }
    proof {
        assert(v.deep_view().take(n as int) =~= v.deep_view());
    }
    r
}

impl VariableTreeManager {
    /// A manager with nothing loaded, nothing cached, nothing in flight,
    /// no expansion choices, and generation zero.
    pub fn new() -> (m: VariableTreeManager)
        ensures
            m@.generation == 0,
            m@.frames == Seq::<FrameModel>::empty(),
            m@.expansions == Seq::<ExpansionSlotModel>::empty(),
            m@.cache == Seq::<CacheSlotModel>::empty(),
            m@.in_flight == Seq::<u64>::empty(),
    {
        let m = VariableTreeManager {
            generation: 0,
            frames: Vec::new(),
            expansions: Vec::new(),
            cache: Vec::new(),
            in_flight: Vec::new(),
        };
        proof {
            assert(m@.frames =~= Seq::<FrameModel>::empty());
            assert(m@.expansions =~= Seq::<ExpansionSlotModel>::empty());
            assert(m@.cache =~= Seq::<CacheSlotModel>::empty());
        }
        m
    }

    /// The current generation; responses must echo the generation their
    /// request was made under.
    pub fn generation(&self) -> (g: u64)
        ensures
            g as nat == self@.generation,
    {
        self.generation
    }

    /// A thread stopped: discard, as [`spec_invalidate_thread`] says,
    /// everything its prior state could still reference; expansion
    /// choices survive, so re-fetched rows reopen as the user left them.
    /// The returned request fetches the stopped thread's stack.
    pub fn on_stopped(&mut self, thread_id: u64) -> (r: AdapterRequest)
        requires
            old(self)@.generation + 1 <= u64::MAX,
        ensures
            final(self)@ == spec_invalidate_thread(old(self)@, thread_id),
            r@ == (RequestModel::StackTrace { thread_id }),
    {
        self.invalidate_thread(thread_id);
        AdapterRequest::StackTrace { thread_id }
    }

    /// A thread resumed: the same invalidation a stop performs, with
    /// nothing to fetch until the next stop.
    pub fn on_continued(&mut self, thread_id: u64)
        requires
            old(self)@.generation + 1 <= u64::MAX,
        ensures
            final(self)@ == spec_invalidate_thread(old(self)@, thread_id),
    {
        self.invalidate_thread(thread_id);
    }

    fn invalidate_thread(&mut self, thread_id: u64)
        requires
            old(self)@.generation + 1 <= u64::MAX,
        ensures
            final(self)@ == spec_invalidate_thread(old(self)@, thread_id),
    {
        self.generation = self.generation + 1;
        self.cache = Vec::new();
        self.in_flight = Vec::new();
        let ghost pred = keeps_thread(thread_id);
        let ghost fs = self.frames.deep_view();
        let mut kept: Vec<FrameRecord> = Vec::new();
        proof {
            reveal(Seq::filter);
            assert(fs.take(0int) =~= Seq::<FrameModel>::empty());
            assert(kept.deep_view() =~= fs.take(0int).filter(pred));
        }
        let n = self.frames.len();
        let mut i: usize = 0;
        while i < n
            invariant
                n == self.frames.len(),
                i <= n,
                fs == self.frames.deep_view(),
                pred == keeps_thread(thread_id),
                kept.deep_view() =~= fs.take(i as int).filter(pred),
            decreases n - i,
        {
            proof {
                assert(fs[i as int] == self.frames@[i as int].deep_view());
                fs.lemma_take_succ_push(i as int);
                fs.take(i as int).lemma_filter_push(fs[i as int], pred);
            }
            if self.frames[i].thread_id != thread_id {
                let f = &self.frames[i];
                let rec = FrameRecord {
                    thread_id: f.thread_id,
                    frame_id: f.frame_id,
                    scopes: duplicate_scopes(&f.scopes),
                    error: f.error,
                };
                proof {
                    assert(rec.deep_view() =~= fs[i as int]);
                }
                let ghost prev = kept.deep_view();
                kept.push(rec);
                proof {
                    assert(pred(fs[i as int]));
                    assert(kept.deep_view() =~= prev.push(fs[i as int]));
                    assert(kept.deep_view() =~= fs.take(i + 1).filter(pred));
                }
            } else {
                proof {
                    assert(!pred(fs[i as int]));
                    assert(kept.deep_view() =~= fs.take(i + 1).filter(pred));
                }
            }
            i = i + 1;
        }
        proof {
            assert(fs.take(n as int) =~= fs);
        }
        self.frames = kept;
        proof {
            assert(self@.cache =~= Seq::<CacheSlotModel>::empty());
            assert(self@ =~= spec_invalidate_thread(old(self)@, thread_id));
        }
    }

    /// Selecting a frame for display: nothing changes, and a scopes fetch
    /// is asked for exactly when the frame is not loaded.
    pub fn select_frame(&self, thread_id: u64, frame_id: u64) -> (r: Option<AdapterRequest>)
        ensures
            r is None <==> has_frame(self@.frames, thread_id, frame_id),
            r matches Some(q) ==> q@ == (RequestModel::Scopes {
                thread_id,
                frame_id,
                generation: self@.generation as u64,
            }),
    {
        match self.find_frame(thread_id, frame_id) {
            Some(_) => None,
            None => Some(
                AdapterRequest::Scopes { thread_id, frame_id, generation: self.generation },
            ),
        }
    }

    /// First loaded frame for the pair, under `frame_index`.
    fn find_frame(&self, thread_id: u64, frame_id: u64) -> (r: Option<usize>)
        ensures
            match r {
                Some(i) => i < self@.frames.len() && frame_index(self@.frames, thread_id, frame_id)
                    == i as int,
                None => frame_index(self@.frames, thread_id, frame_id) == -1,
            },
    {
        let n = self.frames.len();
        let mut i: usize = 0;
        while i < n
            invariant
                n == self@.frames.len(),
                i <= n,
                forall|j: int|
                    0 <= j < i ==> !((#[trigger] self@.frames[j].thread_id) == thread_id
                        && self@.frames[j].frame_id == frame_id),
            decreases n - i,
        {
            if self.frames[i].thread_id == thread_id && self.frames[i].frame_id == frame_id {
                proof {
                    lemma_frame_index_is(self@.frames, thread_id, frame_id, i as int);
                }
                return Some(i);
            }
            i = i + 1;
        }
        proof {
            lemma_frame_index(self@.frames, thread_id, frame_id);
            if frame_index(self@.frames, thread_id, frame_id) >= 0 {
                assert(false);
            }
        }
        None
    }

    /// First cache slot for the container, under `slot_index`.
    fn find_slot(&self, container_ref: u64) -> (r: Option<usize>)
        ensures
            match r {
                Some(i) => i < self@.cache.len() && slot_index(self@.cache, container_ref)
                    == i as int,
                None => slot_index(self@.cache, container_ref) == -1,
            },
    {
        let n = self.cache.len();
        let mut i: usize = 0;
        while i < n
            invariant
                n == self@.cache.len(),
                i <= n,
                forall|j: int|
                    0 <= j < i ==> (#[trigger] self@.cache[j].container_ref) != container_ref,
            decreases n - i,
        {
            if self.cache[i].container_ref == container_ref {
                proof {
                    lemma_slot_index_is(self@.cache, container_ref, i as int);
                }
                return Some(i);
            }
            i = i + 1;
        }
        proof {
            lemma_slot_index(self@.cache, container_ref);
            if slot_index(self@.cache, container_ref) >= 0 {
                assert(false);
            }
        }
        None
    }

    /// Whether a fetch for the container is already in flight.
    fn fetch_in_flight(&self, container_ref: u64) -> (r: bool)
        ensures
            r == self@.in_flight.contains(container_ref),
    {
        let n = self.in_flight.len();
        let mut i: usize = 0;
        while i < n
            invariant
                n == self@.in_flight.len(),
                i <= n,
                forall|j: int| 0 <= j < i ==> (#[trigger] self@.in_flight[j]) != container_ref,
            decreases n - i,
        {
            if self.in_flight[i] == container_ref {
                return true;
            }
            i = i + 1;
        }
        false
    }
}

/// The plain content of a scopes result: the scope list, or nothing when
/// the request failed.
pub open spec fn scopes_outcome(result: Result<Vec<Scope>, AdapterError>) -> Option<
    Seq<ScopeModel>,
> {
    match result {
        Ok(v) => Some(v.deep_view()),
        Err(_) => None,
    }
}

/// The plain content of a variables result: the child list, or nothing
/// when the request failed.
pub open spec fn vars_outcome(result: Result<Vec<Variable>, AdapterError>) -> Option<
    Seq<VariableModel>,
> {
    match result {
        Ok(v) => Some(v.deep_view()),
        Err(_) => None,
    }
}

/// Equality of two expansion keys, decided field by field.
fn key_eq(a: &ExpansionKey, b: &ExpansionKey) -> (r: bool)
    ensures
        r == (a.deep_view() == b.deep_view()),
{
    if a.scope_ref != b.scope_ref {
        proof {
            assert(a.deep_view().scope_ref != b.deep_view().scope_ref);
        }
        return false;
    }
    if a.depth != b.depth {
        proof {
            assert(a.deep_view().depth != b.deep_view().depth);
        }
        return false;
    }
    if a.path.len() != b.path.len() {
        proof {
            assert(a.path.deep_view().len() == a.path@.len());
            assert(b.path.deep_view().len() == b.path@.len());
            assert(a.deep_view().path.len() != b.deep_view().path.len());
        }
        return false;
    }
    let n = a.path.len();
    let mut i: usize = 0;
    while i < n
        invariant
            n == a.path.len(),
            a.path.len() == b.path.len(),
            i <= n,
            a.scope_ref == b.scope_ref,
            a.depth == b.depth,
            forall|j: int|
                0 <= j < i ==> (#[trigger] a.path.deep_view()[j]) == b.path.deep_view()[j],
        decreases n - i,
    {
        if !a.path[i].eq(&b.path[i]) {
            proof {
                assert(a.path.deep_view()[i as int] != b.path.deep_view()[i as int]);
                assert(a.deep_view().path == a.path.deep_view());
                assert(b.deep_view().path == b.path.deep_view());
                assert(a.deep_view() != b.deep_view());
            }
            return false;
        }
        proof {
            assert(a.path.deep_view()[i as int] == b.path.deep_view()[i as int]);
        }
        i = i + 1;
    }
    proof {
        assert(a.path.deep_view() =~= b.path.deep_view());
        assert(a.deep_view() =~= b.deep_view());
    }
    true
}

/// First variable with the name, under `var_index`.
fn find_var(vars: &Vec<Variable>, name: &String) -> (r: Option<usize>)
    ensures
        match r {
            Some(j) => j < vars.deep_view().len() && var_index(vars.deep_view(), name@) == j as int,
            None => var_index(vars.deep_view(), name@) == -1,
        },
{
    let n = vars.len();
    let mut j: usize = 0;
    while j < n
        invariant
            n == vars.len(),
            j <= n,
            forall|l: int| 0 <= l < j ==> (#[trigger] vars.deep_view()[l].name) != name@,
        decreases n - j,
    {
        proof {
            assert(vars.deep_view()[j as int] == vars@[j as int].deep_view());
        }
        if vars[j].name.eq(name) {
            proof {
                lemma_var_index_is(vars.deep_view(), name@, j as int);
            }
            return Some(j);
        }
        j = j + 1;
    }
    proof {
        lemma_var_index(vars.deep_view(), name@);
        if var_index(vars.deep_view(), name@) >= 0 {
            assert(false);
        }
    }
    None
}

impl VariableTreeManager {
    /// First remembered choice for the key, under `expansion_index`.
    fn find_expansion(&self, key: &ExpansionKey) -> (r: Option<usize>)
        ensures
            match r {
                Some(i) => i < self@.expansions.len() && expansion_index(
                    self@.expansions,
                    key.deep_view(),
                ) == i as int,
                None => expansion_index(self@.expansions, key.deep_view()) == -1,
            },
    {
        let n = self.expansions.len();
        let mut i: usize = 0;
        while i < n
            invariant
                n == self@.expansions.len(),
                i <= n,
                forall|j: int|
                    0 <= j < i ==> (#[trigger] self@.expansions[j].key) != key.deep_view(),
            decreases n - i,
        {
            proof {
                assert(self@.expansions[i as int] == self.expansions@[i as int].deep_view());
            }
            if key_eq(&self.expansions[i].key, key) {
                proof {
                    lemma_expansion_index_is(self@.expansions, key.deep_view(), i as int);
                }
                return Some(i);
            }
            i = i + 1;
        }
        proof {
            lemma_expansion_index(self@.expansions, key.deep_view());
            if expansion_index(self@.expansions, key.deep_view()) >= 0 {
                assert(false);
            }
        }
        None
    }

    /// A scopes response. A stale generation, or a frame already loaded,
    /// changes nothing. Otherwise the frame's scope list is stored (a
    /// failure as an empty list with the error flag) and the returned
    /// requests fetch, in scope order, each scope container not yet
    /// cached or in flight, each at most once; those containers are
    /// marked in flight.
    pub fn on_scopes_response(
        &mut self,
        generation: u64,
        thread_id: u64,
        frame_id: u64,
        result: Result<Vec<Scope>, AdapterError>,
    ) -> (reqs: Vec<AdapterRequest>)
        ensures
            final(self)@ == spec_scopes_response(
                old(self)@,
                generation as nat,
                thread_id,
                frame_id,
                scopes_outcome(result),
            ).0,
            reqs.deep_view() == variables_requests(
                spec_scopes_response(
                    old(self)@,
                    generation as nat,
                    thread_id,
                    frame_id,
                    scopes_outcome(result),
                ).1,
                generation,
            ),
    {
        if generation != self.generation {
            let reqs: Vec<AdapterRequest> = Vec::new();
            proof {
                assert(reqs.deep_view() =~= variables_requests(Seq::<u64>::empty(), generation));
            }
            return reqs;
        }
        if self.find_frame(thread_id, frame_id).is_some() {
            let reqs: Vec<AdapterRequest> = Vec::new();
            proof {
                assert(reqs.deep_view() =~= variables_requests(Seq::<u64>::empty(), generation));
            }
            return reqs;
        }
        let (scopes, error) = match result {
            Ok(v) => (v, false),
            Err(_) => (Vec::new(), true),
        };
        let ghost sc = scopes.deep_view();
        proof {
            assert(sc =~= match scopes_outcome(result) {
                Some(s2) => s2,
                None => Seq::<ScopeModel>::empty(),
            });
        }
        let ghost cache0 = self@.cache;
        let ghost if0 = self@.in_flight;
        let ghost mut plan: Seq<u64> = Seq::empty();
        let mut reqs: Vec<AdapterRequest> = Vec::new();
        proof {
            assert(sc.skip(0int) =~= sc);
            assert(if0 + plan =~= if0);
            assert(reqs.deep_view() =~= variables_requests(plan, generation));
        }
        let sn = scopes.len();
        let mut i: usize = 0;
        while i < sn
            invariant
                sn == scopes.len(),
                i <= sn,
                sc == scopes.deep_view(),
                cache0 == self@.cache,
                self@.frames == old(self)@.frames,
                self@.expansions == old(self)@.expansions,
                self@.generation == old(self)@.generation,
                generation == self.generation,
                self@.in_flight == if0 + plan,
                fetch_plan(cache0, if0, sc) == plan + fetch_plan(cache0, self@.in_flight, sc.skip(i as int)),
                reqs.deep_view() == variables_requests(plan, generation),
            decreases sn - i,
        {
            proof {
                assert(sc[i as int] == scopes@[i as int].deep_view());
                assert(sc.skip(i as int).len() == sn - i);
                assert(sc.skip(i as int)[0] == sc[i as int]);
                assert(sc.skip(i as int).drop_first() =~= sc.skip(i + 1));
            }
            let c = scopes[i].container_ref;
            let wanted = c != 0 && self.find_slot(c).is_none() && !self.fetch_in_flight(c);
            if wanted {
                let ghost if_cur = self@.in_flight;
                let ghost rd0 = reqs.deep_view();
                self.in_flight.push(c);
                reqs.push(AdapterRequest::Variables { container_ref: c, generation });
                proof {
                    assert(fetch_plan(cache0, if_cur, sc.skip(i as int)) == seq![c] + fetch_plan(
                        cache0,
                        if_cur.push(c),
                        sc.skip(i + 1),
                    ));
                    assert(self@.in_flight == if_cur.push(c));
                    assert(if0 + plan.push(c) =~= (if0 + plan).push(c));
                    assert(plan + (seq![c] + fetch_plan(cache0, if_cur.push(c), sc.skip(i + 1)))
                        =~= plan.push(c) + fetch_plan(cache0, if_cur.push(c), sc.skip(i + 1)));
                    assert(reqs.deep_view() =~= rd0.push(
                        (RequestModel::Variables { container_ref: c, generation }),
                    ));
                    assert forall|k: int|
                        0 <= k < plan.push(c).len() implies reqs.deep_view()[k]
                        == variables_requests(plan.push(c), generation)[k] by {
                        if k < plan.len() {
                            assert(reqs.deep_view()[k] == variables_requests(plan, generation)[k]);
                        }
                    }
                    assert(reqs.deep_view() =~= variables_requests(plan.push(c), generation));
                    plan = plan.push(c);
                }
            } else {
                proof {
                    assert(fetch_plan(cache0, self@.in_flight, sc.skip(i as int)) == fetch_plan(
                        cache0,
                        self@.in_flight,
                        sc.skip(i + 1),
                    ));
                }
            }
            i = i + 1;
        }
        proof {
            assert(sc.skip(sn as int).len() == 0);
            assert(fetch_plan(cache0, self@.in_flight, sc.skip(sn as int)) =~= Seq::<u64>::empty());
            assert(plan + Seq::<u64>::empty() =~= plan);
            assert(fetch_plan(cache0, if0, sc) == plan);
        }
        let ghost frames0 = self@.frames;
        let rec = FrameRecord { thread_id, frame_id, scopes, error };
        proof {
            assert(rec.deep_view() =~= (FrameModel { thread_id, frame_id, scopes: sc, error }));
        }
        let ghost fvec0 = self.frames@;
        self.frames.push(rec);
        proof {
            assert(self.frames@ == fvec0.push(rec));
            assert forall|k: int|
                0 <= k < self@.frames.len() implies self@.frames[k] == frames0.push(
                (FrameModel { thread_id, frame_id, scopes: sc, error }),
            )[k] by {
                assert(self@.frames[k] == self.frames@[k].deep_view());
                if k < fvec0.len() {
                    assert(self.frames@[k] == fvec0[k]);
                    assert(frames0[k] == fvec0[k].deep_view());
                } else {
                    assert(self.frames@[k] == rec);
                }
            }
            assert(self@.frames =~= frames0.push(
                (FrameModel { thread_id, frame_id, scopes: sc, error }),
            ));
            assert(self@ =~= spec_scopes_response(
                old(self)@,
                generation as nat,
                thread_id,
                frame_id,
                scopes_outcome(result),
            ).0);
        }
        reqs
    }

    /// A variables response. A stale generation is discarded whole and
    /// reported as such. Otherwise the container's fetch is no longer in
    /// flight and its cache slot holds the result: the children on
    /// success, an empty list with the error flag on failure; a slot the
    /// container already had is replaced.
    pub fn on_variables_response(
        &mut self,
        generation: u64,
        container_ref: u64,
        result: Result<Vec<Variable>, AdapterError>,
    ) -> (r: Result<(), TreeError>)
        ensures
            final(self)@ == spec_variables_response(
                old(self)@,
                generation as nat,
                container_ref,
                vars_outcome(result),
            ),
            r is Ok <==> generation as nat == old(self)@.generation,
            r matches Err(e) ==> e == TreeError::StaleContainerReference,
    {
        if generation != self.generation {
            return Err(TreeError::StaleContainerReference);
        }
        let ghost pred = other_container(container_ref);
        let ghost if0 = self@.in_flight;
        let mut kept: Vec<u64> = Vec::new();
        proof {
            reveal(Seq::filter);
            assert(if0.take(0int) =~= Seq::<u64>::empty());
            assert(kept@ =~= if0.take(0int).filter(pred));
        }
        let n = self.in_flight.len();
        let mut i: usize = 0;
        while i < n
            invariant
                n == self.in_flight.len(),
                i <= n,
                if0 == self@.in_flight,
                pred == other_container(container_ref),
                kept@ =~= if0.take(i as int).filter(pred),
            decreases n - i,
        {
            proof {
                if0.lemma_take_succ_push(i as int);
                if0.take(i as int).lemma_filter_push(if0[i as int], pred);
            }
            if self.in_flight[i] != container_ref {
                kept.push(self.in_flight[i]);
            }
            proof {
                assert(kept@ =~= if0.take(i + 1).filter(pred));
            }
            i = i + 1;
        }
        proof {
            assert(if0.take(n as int) =~= if0);
        }
        self.in_flight = kept;
        let slot = match result {
            Ok(vars) => CacheSlot { container_ref, variables: vars, error: false },
            Err(_) => CacheSlot { container_ref, variables: Vec::new(), error: true },
        };
        let ghost slot_m = slot.deep_view();
        let ghost cache0 = self@.cache;
        proof {
            assert(slot_m =~= (CacheSlotModel {
                container_ref,
                variables: match vars_outcome(result) {
                    Some(v) => v,
                    None => Seq::<VariableModel>::empty(),
                },
                error: vars_outcome(result) is None,
            }));
            assert(spec_variables_response(
                old(self)@,
                generation as nat,
                container_ref,
                vars_outcome(result),
            ).cache == if slot_index(cache0, container_ref) >= 0 {
                cache0.update(slot_index(cache0, container_ref), slot_m)
            } else {
                cache0.push(slot_m)
            });
        }
        match self.find_slot(container_ref) {
            Some(i) => {
                let ghost cvec0 = self.cache@;
                let p = vec_index_mut(&mut self.cache, i);
                *p = slot;
                proof {
                    assert(self.cache@ == cvec0.update(i as int, slot));
                    assert forall|k: int|
                        0 <= k < self@.cache.len() implies self@.cache[k] == cache0.update(
                        i as int,
                        slot_m,
                    )[k] by {
                        assert(self@.cache[k] == self.cache@[k].deep_view());
                        if k != i {
                            assert(self.cache@[k] == cvec0[k]);
                            assert(cache0[k] == cvec0[k].deep_view());
                        }
                    }
                    assert(self@.cache =~= cache0.update(i as int, slot_m));
                    assert(self@ =~= spec_variables_response(
                        old(self)@,
                        generation as nat,
                        container_ref,
                        vars_outcome(result),
                    ));
                }
            },
            None => {
                let ghost cvec0 = self.cache@;
                self.cache.push(slot);
                proof {
                    assert(self.cache@ == cvec0.push(slot));
                    assert forall|k: int|
                        0 <= k < self@.cache.len() implies self@.cache[k] == cache0.push(slot_m)[k] by {
                        assert(self@.cache[k] == self.cache@[k].deep_view());
                        if k < cvec0.len() {
                            assert(self.cache@[k] == cvec0[k]);
                            assert(cache0[k] == cvec0[k].deep_view());
                        }
                    }
                    assert(self@.cache =~= cache0.push(slot_m));
                    assert(self@ =~= spec_variables_response(
                        old(self)@,
                        generation as nat,
                        container_ref,
                        vars_outcome(result),
                    ));
                }
            },
        }
        Ok(())
    }

    /// Flips whether the row with this key is expanded. A row toggled for
    /// the first time becomes expanded. A fetch is asked for only when
    /// the row just became expanded and its children are neither cached
    /// nor already being fetched; collapsing asks for nothing and
    /// discards nothing, so re-expanding an already fetched row is free.
    pub fn toggle_entry(&mut self, key: ExpansionKey, container_ref: u64) -> (r: Option<
        AdapterRequest,
    >)
        ensures
            final(self)@ == spec_toggle(old(self)@, key@, container_ref).0,
            r is Some <==> spec_toggle(old(self)@, key@, container_ref).1 is Some,
            r matches Some(q) ==> q@ == (RequestModel::Variables {
                container_ref,
                generation: old(self)@.generation as u64,
            }),
    {
        let ghost exps0 = self@.expansions;
        let now_on: bool;
        match self.find_expansion(&key) {
            Some(i) => {
                proof {
                    lemma_expansion_index(exps0, key@);
                    assert(exps0[i as int].key == key@);
                    assert(exps0[i as int].on == self.expansions@[i as int].deep_view().on);
                }
                let was_on = self.expansions[i].on;
                now_on = !was_on;
                let ghost evec0 = self.expansions@;
                let p = vec_index_mut(&mut self.expansions, i);
                p.on = now_on;
                proof {
                    assert(self.expansions@ == evec0.update(i as int, self.expansions@[i as int]));
                    assert(self.expansions@[i as int].key == evec0[i as int].key);
                    assert(self.expansions@[i as int].on == now_on);
                    assert(self.expansions@[i as int].deep_view() =~= (ExpansionSlotModel {
                        key: key@,
                        on: now_on,
                    }));
                    assert forall|k: int|
                        0 <= k < self@.expansions.len() implies self@.expansions[k] == exps0.update(
                        i as int,
                        (ExpansionSlotModel { key: key@, on: now_on }),
                    )[k] by {
                        assert(self@.expansions[k] == self.expansions@[k].deep_view());
                        if k != i {
                            assert(self.expansions@[k] == evec0[k]);
                            assert(exps0[k] == evec0[k].deep_view());
                        }
                    }
                    assert(self@.expansions =~= exps0.update(
                        i as int,
                        (ExpansionSlotModel { key: key@, on: now_on }),
                    ));
                }
            },
            None => {
                self.expansions.push(ExpansionSlot { key, on: true });
                now_on = true;
                proof {
                    assert(self.expansions@.last().deep_view() =~= (ExpansionSlotModel {
                        key: self.expansions@.last().key@,
                        on: true,
                    }));
                    assert(self@.expansions =~= exps0.push(
                        (ExpansionSlotModel { key: self.expansions@.last().key@, on: true }),
                    ));
                }
            },
        }
        if now_on && container_ref != 0 {
            let cached = self.find_slot(container_ref).is_some();
            let flying = self.fetch_in_flight(container_ref);
            if !cached && !flying {
                self.in_flight.push(container_ref);
                return Some(
                    AdapterRequest::Variables { container_ref, generation: self.generation },
                );
            }
        }
        None
    }

    /// Overwrites, in place and without any request, the value of the
    /// first cached variable with the name under the container. With no
    /// cached slot for the container, or no variable of that name in it,
    /// nothing changes and the target is reported unresolved; the stale
    /// value stands until the next full refresh.
    pub fn patch_variable(&mut self, container_ref: u64, name: &String, new_value: String) -> (r:
        Result<(), TreeError>)
        ensures
            final(self)@ == spec_patch(old(self)@, container_ref, name@, new_value@).0,
            r is Ok <==> spec_patch(old(self)@, container_ref, name@, new_value@).1,
            r matches Err(e) ==> e == TreeError::UnresolvedPatchTarget,
    {
        let si = match self.find_slot(container_ref) {
            Some(i) => i,
            None => {
                return Err(TreeError::UnresolvedPatchTarget);
            },
        };
        proof {
            assert(self@.cache[si as int] == self.cache@[si as int].deep_view());
        }
        let vj = match find_var(&self.cache[si].variables, name) {
            Some(j) => j,
            None => {
                return Err(TreeError::UnresolvedPatchTarget);
            },
        };
        let ghost cache0 = self@.cache;
        let ghost cvec0 = self.cache@;
        let ghost svars0 = self.cache@[si as int].variables@;
        proof {
            assert(cache0[si as int] == cvec0[si as int].deep_view());
            assert forall|l: int|
                0 <= l < svars0.len() implies cache0[si as int].variables[l] == (
            #[trigger] svars0[l]).deep_view() by {}
        }
        let ghost patched = (VariableModel {
            name: cache0[si as int].variables[vj as int].name,
            value: new_value@,
            container_ref: cache0[si as int].variables[vj as int].container_ref,
        });
        let slotp = vec_index_mut(&mut self.cache, si);
        let varp = vec_index_mut(&mut slotp.variables, vj);
        varp.value = new_value;
        proof {
            assert(varp@ == patched);
        }
        proof {
            assert(self.cache@ == cvec0.update(si as int, self.cache@[si as int]));
            assert(self.cache@[si as int].container_ref == cvec0[si as int].container_ref);
            assert(self.cache@[si as int].error == cvec0[si as int].error);
            assert(self.cache@[si as int].variables@ == svars0.update(
                vj as int,
                self.cache@[si as int].variables@[vj as int],
            ));
            assert(self.cache@[si as int].variables@[vj as int]@ == patched);
            let target = (CacheSlotModel {
                container_ref: cache0[si as int].container_ref,
                variables: cache0[si as int].variables.update(vj as int, patched),
                error: cache0[si as int].error,
            });
            let newslot = self.cache@[si as int];
            assert forall|l: int|
                0 <= l < newslot.variables.deep_view().len() implies newslot.variables.deep_view()[l]
                == target.variables[l] by {
                assert(newslot.variables.deep_view()[l] == newslot.variables@[l].deep_view());
                if l != vj {
                    assert(newslot.variables@[l] == svars0[l]);
                }
            }
            assert(newslot.deep_view() =~= target);
            assert forall|k: int|
                0 <= k < self@.cache.len() implies self@.cache[k] == cache0.update(
                si as int,
                target,
            )[k] by {
                assert(self@.cache[k] == self.cache@[k].deep_view());
                if k != si {
                    assert(self.cache@[k] == cvec0[k]);
                    assert(cache0[k] == cvec0[k].deep_view());
                }
            }
            assert(self@.cache =~= cache0.update(si as int, target));
            assert(self@ =~= spec_patch(old(self)@, container_ref, name@, new_value@).0);
        }
        Ok(())
    }
}

/// The display row of one variable: the parent container it was listed
/// under, its depth, and whether it can be expanded at all.
pub open spec fn var_entry(v: VariableModel, container: u64, depth: nat) -> EntryModel {
    EntryModel::Variable {
        variable: v,
        container_ref_of_parent: container,
        depth,
        has_children: v.container_ref != 0,
    }
}

/// The flattened rows beneath one container: nothing when its children
/// are not cached, else one row per cached child in order, each followed
/// by its own children where the child's key is expanded. The fuel falls
/// by one per level; it starts at the number of cached containers, which
/// no walk through distinct cached containers can exceed, so it only ever
/// cuts a cycle of container references short instead of recursing
/// forever. The depth bound keeps a row's depth a machine integer.
pub open spec fn flatten_container(
    cache: Seq<CacheSlotModel>,
    exps: Seq<ExpansionSlotModel>,
    scope_ref: u64,
    container: u64,
    path: Seq<Seq<char>>,
    depth: nat,
    fuel: nat,
) -> Seq<EntryModel>
    decreases fuel, 1int, 0int,
{
    let i = slot_index(cache, container);
    if i < 0 {
        Seq::empty()
    } else {
        flatten_vars(cache, exps, scope_ref, container, cache[i].variables, 0, path, depth, fuel)
    }
}

/// The flattened rows for the variables of one container from index `i`
/// on.
pub open spec fn flatten_vars(
    cache: Seq<CacheSlotModel>,
    exps: Seq<ExpansionSlotModel>,
    scope_ref: u64,
    container: u64,
    vars: Seq<VariableModel>,
    i: int,
    path: Seq<Seq<char>>,
    depth: nat,
    fuel: nat,
) -> Seq<EntryModel>
    decreases fuel, 0int, vars.len() - i,
{
    if i < 0 || i >= vars.len() {
        Seq::empty()
    } else {
        let v = vars[i];
        let kids = if v.container_ref != 0 && fuel > 0 && depth < usize::MAX as nat
            && is_expanded(exps, KeyModel { scope_ref, path: path.push(v.name), depth }) {
            flatten_container(
                cache,
                exps,
                scope_ref,
                v.container_ref,
                path.push(v.name),
                depth + 1,
                (fuel - 1) as nat,
            )
        } else {
            Seq::empty()
        };
        seq![var_entry(v, container, depth)] + kids + flatten_vars(
            cache,
            exps,
            scope_ref,
            container,
            vars,
            i + 1,
            path,
            depth,
            fuel,
        )
    }
}

/// The flattened rows of a scope list from index `i` on: each scope
/// header followed by its children at depth one. A scope is always open;
/// only variable rows consult the expansion choices.
pub open spec fn flatten_scopes(
    cache: Seq<CacheSlotModel>,
    exps: Seq<ExpansionSlotModel>,
    scopes: Seq<ScopeModel>,
    i: int,
) -> Seq<EntryModel>
    decreases scopes.len() - i,
{
    if i < 0 || i >= scopes.len() {
        Seq::empty()
    } else {
        let sp = scopes[i];
        seq![EntryModel::Scope(sp)] + flatten_container(
            cache,
            exps,
            sp.container_ref,
            sp.container_ref,
            Seq::empty(),
            1,
            cache.len(),
        ) + flatten_scopes(cache, exps, scopes, i + 1)
    }
}

/// The whole display list of one frame: empty while its scopes are not
/// loaded, else the flattened scope walk over whatever is cached so far.
pub open spec fn entries_spec(m: ManagerModel, thread_id: u64, frame_id: u64) -> Seq<EntryModel> {
    let fi = frame_index(m.frames, thread_id, frame_id);
    if fi < 0 {
        Seq::empty()
    } else {
        flatten_scopes(m.cache, m.expansions, m.frames[fi].scopes, 0)
    }
}

/// Whether two string lists hold the same texts in the same order.
fn string_vecs_equal(a: &Vec<String>, b: &Vec<String>) -> (r: bool)
    ensures
        r == (a.deep_view() == b.deep_view()),
{
    if a.len() != b.len() {
        proof {
            assert(a.deep_view().len() == a@.len());
            assert(b.deep_view().len() == b@.len());
        }
        return false;
    }
    let n = a.len();
    let mut i: usize = 0;
    while i < n
        invariant
            n == a.len(),
            a.len() == b.len(),
            i <= n,
            forall|j: int|
                0 <= j < i ==> (#[trigger] a.deep_view()[j]) == b.deep_view()[j],
        decreases n - i,
    {
        if !a[i].eq(&b[i]) {
            proof {
                assert(a.deep_view()[i as int] != b.deep_view()[i as int]);
            }
            return false;
        }
        proof {
            assert(a.deep_view()[i as int] == b.deep_view()[i as int]);
        }
        i = i + 1;
    }
    proof {
        assert(a.deep_view() =~= b.deep_view());
    }
    true
}

/// A text-for-text copy of a string list.
fn duplicate_strings(v: &Vec<String>) -> (r: Vec<String>)
    ensures
        r.deep_view() == v.deep_view(),
{
    let mut r: Vec<String> = Vec::new();
    let n = v.len();
    let mut i: usize = 0;
    while i < n
        invariant
            n == v.len(),
            i <= n,
            r.deep_view() =~= v.deep_view().take(i as int),
        decreases n - i,
    {
        let e = v[i].clone();
        proof {
            assert(e.deep_view() == v.deep_view()[i as int]);
        }
        let ghost prev = r.deep_view();
        r.push(e);
        proof {
            assert(r.deep_view() =~= prev.push(e.deep_view()));
            v.deep_view().lemma_take_succ_push(i as int);
            assert(r.deep_view() =~= v.deep_view().take(i + 1));
        }
        i = i + 1;
    }
    proof {
        assert(v.deep_view().take(n as int) =~= v.deep_view());
    }
    r
}

impl VariableTreeManager {
    /// Whether the row with this key, given by its parts, is expanded.
    fn expansion_state(&self, scope_ref: u64, path: &Vec<String>, depth: usize) -> (r: bool)
        ensures
            r == is_expanded(
                self@.expansions,
                (KeyModel { scope_ref, path: path.deep_view(), depth: depth as nat }),
            ),
    {
        let ghost km = (KeyModel { scope_ref, path: path.deep_view(), depth: depth as nat });
        let n = self.expansions.len();
        let mut i: usize = 0;
        while i < n
            invariant
                n == self@.expansions.len(),
                i <= n,
                km == (KeyModel { scope_ref, path: path.deep_view(), depth: depth as nat }),
                forall|j: int| 0 <= j < i ==> (#[trigger] self@.expansions[j].key) != km,
            decreases n - i,
        {
            proof {
                assert(self@.expansions[i as int] == self.expansions@[i as int].deep_view());
            }
            let k = &self.expansions[i].key;
            if k.scope_ref == scope_ref && k.depth == depth && string_vecs_equal(&k.path, path) {
                proof {
                    assert(self@.expansions[i as int].key =~= km);
                    lemma_expansion_index_is(self@.expansions, km, i as int);
                }
                return self.expansions[i].on;
            }
            proof {
                assert(self@.expansions[i as int].key != km);
            }
            i = i + 1;
        }
        proof {
            lemma_expansion_index(self@.expansions, km);
            if expansion_index(self@.expansions, km) >= 0 {
                assert(false);
            }
        }
        false
    }

    /// The flattened rows beneath one container, as `flatten_container`
    /// describes them.
    fn collect_children(
        &self,
        scope_ref: u64,
        container: u64,
        path: &Vec<String>,
        depth: usize,
        fuel: usize,
    ) -> (r: Vec<VariableTreeEntry>)
        ensures
            r.deep_view() == flatten_container(
                self@.cache,
                self@.expansions,
                scope_ref,
                container,
                path.deep_view(),
                depth as nat,
                fuel as nat,
            ),
        decreases fuel,
    {
        let mut out: Vec<VariableTreeEntry> = Vec::new();
        let si = match self.find_slot(container) {
            None => {
                proof {
                    assert(out.deep_view() =~= Seq::<EntryModel>::empty());
                }
                return out;
            },
            Some(si) => si,
        };
        proof {
            assert(self@.cache[si as int] == self.cache@[si as int].deep_view());
        }
        let vars = &self.cache[si].variables;
        let ghost vs = self@.cache[si as int].variables;
        proof {
            assert(vs == vars.deep_view());
        }
        let n = vars.len();
        let mut i: usize = 0;
        while i < n
            invariant
                n == vars.len(),
                i <= n,
                vs == vars.deep_view(),
                slot_index(self@.cache, container) == si as int,
                si < self@.cache.len(),
                self@.cache[si as int].variables == vs,
                flatten_vars(
                    self@.cache,
                    self@.expansions,
                    scope_ref,
                    container,
                    vs,
                    0,
                    path.deep_view(),
                    depth as nat,
                    fuel as nat,
                ) == out.deep_view() + flatten_vars(
                    self@.cache,
                    self@.expansions,
                    scope_ref,
                    container,
                    vs,
                    i as int,
                    path.deep_view(),
                    depth as nat,
                    fuel as nat,
                ),
            decreases n - i,
        {
            proof {
                assert(vs[i as int] == vars@[i as int].deep_view());
            }
            let v = &vars[i];
            let e = VariableTreeEntry::Variable {
                variable: v.duplicate(),
                container_ref_of_parent: container,
                depth,
                has_children: v.container_ref != 0,
            };
            let ghost outd0 = out.deep_view();
            out.push(e);
            proof {
                assert(e.deep_view() == var_entry(vs[i as int], container, depth as nat));
                assert(out.deep_view() =~= outd0.push(e.deep_view()));
            }
            let ghost mut kids_spec = Seq::<EntryModel>::empty();
            if v.container_ref != 0 && fuel > 0 && depth < usize::MAX {
                let mut child_path = duplicate_strings(path);
                child_path.push(v.name.clone());
                proof {
                    assert(child_path.deep_view() =~= path.deep_view().push(vs[i as int].name));
                }
                if self.expansion_state(scope_ref, &child_path, depth) {
                    let mut kids = self.collect_children(
                        scope_ref,
                        v.container_ref,
                        &child_path,
                        depth + 1,
                        fuel - 1,
                    );
                    let ghost outd1 = out.deep_view();
                    let ghost kd = kids.deep_view();
                    out.append(&mut kids);
                    proof {
                        assert(out.deep_view() =~= outd1 + kd);
                        kids_spec = kd;
                    }
                }
            }
            proof {
                let pd = path.deep_view();
                let cm = self@.cache;
                let em = self@.expansions;
                let rest = flatten_vars(
                    cm,
                    em,
                    scope_ref,
                    container,
                    vs,
                    i + 1,
                    pd,
                    depth as nat,
                    fuel as nat,
                );
                let head = seq![var_entry(vs[i as int], container, depth as nat)];
                assert(flatten_vars(cm, em, scope_ref, container, vs, i as int, pd, depth as nat, fuel as nat)
                    == head + kids_spec + rest);
                assert(out.deep_view() =~= (outd0 + (head + kids_spec)));
                assert((outd0 + (head + kids_spec)) + rest =~= outd0 + ((head + kids_spec) + rest));
            }
            i = i + 1;
        }
        proof {
            let pd = path.deep_view();
            let cm = self@.cache;
            let em = self@.expansions;
            assert(flatten_vars(cm, em, scope_ref, container, vs, n as int, pd, depth as nat, fuel as nat)
                =~= Seq::<EntryModel>::empty());
            assert(out.deep_view() + Seq::<EntryModel>::empty() =~= out.deep_view());
            assert(flatten_container(cm, em, scope_ref, container, pd, depth as nat, fuel as nat)
                == flatten_vars(cm, em, scope_ref, container, vs, 0, pd, depth as nat, fuel as nat));
        }
        out
    }

    /// The flattened display list of one frame, as the rendering surface
    /// iterates it: each scope header, then its rows depth first, rows of
    /// expanded keys recursing into whatever children are cached so far.
    /// A frame whose scopes are not loaded shows nothing; a row whose
    /// fetch is still in flight shows as expanded with no children yet.
    pub fn entries(&self, thread_id: u64, frame_id: u64) -> (r: Vec<VariableTreeEntry>)
        ensures
            r.deep_view() == entries_spec(self@, thread_id, frame_id),
    {
        let mut out: Vec<VariableTreeEntry> = Vec::new();
        let fi = match self.find_frame(thread_id, frame_id) {
            None => {
                proof {
                    assert(out.deep_view() =~= Seq::<EntryModel>::empty());
                }
                return out;
            },
            Some(fi) => fi,
        };
        proof {
            assert(self@.frames[fi as int] == self.frames@[fi as int].deep_view());
        }
        let scopes = &self.frames[fi].scopes;
        let ghost sc = self@.frames[fi as int].scopes;
        proof {
            assert(sc == scopes.deep_view());
        }
        let empty_path: Vec<String> = Vec::new();
        proof {
            assert(empty_path.deep_view() =~= Seq::<Seq<char>>::empty());
        }
        let n = scopes.len();
        let mut i: usize = 0;
        while i < n
            invariant
                n == scopes.len(),
                i <= n,
                sc == scopes.deep_view(),
                empty_path.deep_view() == Seq::<Seq<char>>::empty(),
                frame_index(self@.frames, thread_id, frame_id) == fi as int,
                fi < self@.frames.len(),
                self@.frames[fi as int].scopes == sc,
                flatten_scopes(self@.cache, self@.expansions, sc, 0) == out.deep_view()
                    + flatten_scopes(self@.cache, self@.expansions, sc, i as int),
            decreases n - i,
        {
            proof {
                assert(sc[i as int] == scopes@[i as int].deep_view());
            }
            let sp = &scopes[i];
            let ghost outd0 = out.deep_view();
            out.push(VariableTreeEntry::Scope(sp.duplicate()));
            proof {
                assert(out.deep_view() =~= outd0.push(EntryModel::Scope(sc[i as int])));
            }
            let fuel = self.cache.len();
            let mut kids = self.collect_children(
                sp.container_ref,
                sp.container_ref,
                &empty_path,
                1,
                fuel,
            );
            let ghost outd1 = out.deep_view();
            let ghost kd = kids.deep_view();
            out.append(&mut kids);
            proof {
                assert(out.deep_view() =~= outd1 + kd);
                let cm = self@.cache;
                let em = self@.expansions;
                assert(fuel as nat == cm.len());
                let head = seq![EntryModel::Scope(sc[i as int])];
                let rest = flatten_scopes(cm, em, sc, i + 1);
                assert(kd == flatten_container(
                    cm,
                    em,
                    sc[i as int].container_ref,
                    sc[i as int].container_ref,
                    Seq::empty(),
                    1,
                    cm.len(),
                ));
                assert(flatten_scopes(cm, em, sc, i as int) == head + kd + rest);
                assert(out.deep_view() =~= (outd0 + (head + kd)));
                assert((outd0 + (head + kd)) + rest =~= outd0 + ((head + kd) + rest));
            }
            i = i + 1;
        }
        proof {
            assert(flatten_scopes(self@.cache, self@.expansions, sc, n as int)
                =~= Seq::<EntryModel>::empty());
            assert(out.deep_view() + Seq::<EntryModel>::empty() =~= out.deep_view());
        }
        out
    }

    /// Whether the cached fetch for the container ended in failure; the
    /// rendering surface shows an inline error marker on such a row.
    pub fn container_error(&self, container_ref: u64) -> (r: bool)
        ensures
            r == {
                let i = slot_index(self@.cache, container_ref);
                i >= 0 && self@.cache[i].error
            },
    {
        match self.find_slot(container_ref) {
            Some(i) => {
                proof {
                    assert(self@.cache[i as int] == self.cache@[i as int].deep_view());
                }
                self.cache[i].error
            },
            None => false,
        }
    }
}

/// Collapsing an expanded row whose children are cached, then
/// re-expanding it, asks for no request either time and returns the
/// manager to exactly the state it had: the re-expanded row shows the
/// identical cached children, without a second fetch.
pub proof fn lemma_collapse_reexpand_is_free(m: ManagerModel, k: KeyModel, c: u64)
    requires
        is_expanded(m.expansions, k),
        has_slot(m.cache, c),
    ensures
        spec_toggle(m, k, c).1 is None,
        spec_toggle(spec_toggle(m, k, c).0, k, c).1 is None,
        spec_toggle(spec_toggle(m, k, c).0, k, c).0 == m,
        forall|t: u64, f: u64| #![auto]
            entries_spec(spec_toggle(spec_toggle(m, k, c).0, k, c).0, t, f) == entries_spec(
                m,
                t,
                f,
            ),
{
    let i = expansion_index(m.expansions, k);
    lemma_expansion_index(m.expansions, k);
    let m1 = spec_toggle(m, k, c).0;
    assert(m1.expansions[i].key == k);
    assert forall|j: int| 0 <= j < i implies (#[trigger] m1.expansions[j].key) != k by {
        assert(m1.expansions[j] == m.expansions[j]);
    }
    lemma_expansion_index_is(m1.expansions, k, i);
    let m2 = spec_toggle(m1, k, c).0;
    assert(m.expansions[i] =~= (ExpansionSlotModel { key: k, on: true }));
    assert(m2.expansions =~= m.expansions);
    assert(m2 =~= m);
}

/// Stopping the same or another thread a second time leaves no cache
/// entry of the first stop behind, and a variables response stamped with
/// the first stop's generation, however late it arrives, changes nothing.
pub proof fn lemma_second_stop_discards_first_generation(
    m: ManagerModel,
    t1: u64,
    t2: u64,
    c: u64,
    outcome: Option<Seq<VariableModel>>,
)
    ensures
        spec_invalidate_thread(m, t1).cache == Seq::<CacheSlotModel>::empty(),
        spec_invalidate_thread(spec_invalidate_thread(m, t1), t2).cache == Seq::<CacheSlotModel>::empty(),
        spec_variables_response(
            spec_invalidate_thread(spec_invalidate_thread(m, t1), t2),
            spec_invalidate_thread(m, t1).generation,
            c,
            outcome,
        ) == spec_invalidate_thread(spec_invalidate_thread(m, t1), t2),
{
    assert(spec_invalidate_thread(m, t1).generation != spec_invalidate_thread(spec_invalidate_thread(m, t1), t2).generation);
}

/// Whether the scope at index `i` has cached children that include a
/// variable with the name.
pub open spec fn scope_has_var(
    cache: Seq<CacheSlotModel>,
    scopes: Seq<ScopeModel>,
    i: int,
    name: Seq<char>,
) -> bool {
    let si = slot_index(cache, scopes[i].container_ref);
    si >= 0 && var_index(cache[si].variables, name) >= 0
}

/// Index of the topmost scope, from `i` on, whose cached children hold a
/// variable with the name; -1 when none does.
pub open spec fn first_scope_with_var(
    cache: Seq<CacheSlotModel>,
    scopes: Seq<ScopeModel>,
    i: int,
    name: Seq<char>,
) -> int
    decreases scopes.len() - i,
{
    if i < 0 || i >= scopes.len() {
        -1
    } else if scope_has_var(cache, scopes, i, name) {
        i
    } else {
        first_scope_with_var(cache, scopes, i + 1, name)
    }
}

proof fn lemma_first_scope_with_var_is(
    cache: Seq<CacheSlotModel>,
    scopes: Seq<ScopeModel>,
    start: int,
    i: int,
    name: Seq<char>,
)
    requires
        0 <= start <= i < scopes.len(),
        scope_has_var(cache, scopes, i, name),
        forall|j: int| start <= j < i ==> !scope_has_var(cache, scopes, j, name),
    ensures
        first_scope_with_var(cache, scopes, start, name) == i,
    decreases i - start,
{
    if start < i {
        lemma_first_scope_with_var_is(cache, scopes, start + 1, i, name);
    }
}

proof fn lemma_first_scope_with_var_none(
    cache: Seq<CacheSlotModel>,
    scopes: Seq<ScopeModel>,
    start: int,
    name: Seq<char>,
)
    requires
        0 <= start,
        forall|j: int| start <= j < scopes.len() ==> !scope_has_var(cache, scopes, j, name),
    ensures
        first_scope_with_var(cache, scopes, start, name) == -1,
    decreases scopes.len() - start,
{
    if start < scopes.len() {
        lemma_first_scope_with_var_none(cache, scopes, start + 1, name);
    }
}

/// An assignment's patch, addressed by name alone: in the frame's topmost
/// scope whose cached children hold the name, the first variable with the
/// name takes the value. With no loaded frame and no such scope, nothing
/// changes and the second component is false.
pub open spec fn spec_patch_topmost(
    m: ManagerModel,
    thread_id: u64,
    frame_id: u64,
    name: Seq<char>,
    value: Seq<char>,
) -> (ManagerModel, bool) {
    let fi = frame_index(m.frames, thread_id, frame_id);
    if fi < 0 {
        (m, false)
    } else {
        let s = first_scope_with_var(m.cache, m.frames[fi].scopes, 0, name);
        if s < 0 {
            (m, false)
        } else {
            spec_patch(m, m.frames[fi].scopes[s].container_ref, name, value)
        }
    }
}

impl VariableTreeManager {
    /// Patches the first cached variable with the name under the frame's
    /// topmost matching scope, as an assignment evaluation asks; first
    /// matching name wins. Reports the target unresolved when no loaded
    /// scope's cached children hold the name.
    pub fn patch_topmost_matching(
        &mut self,
        thread_id: u64,
        frame_id: u64,
        name: &String,
        new_value: String,
    ) -> (r: Result<(), TreeError>)
        ensures
            final(self)@ == spec_patch_topmost(old(self)@, thread_id, frame_id, name@, new_value@).0,
            r is Ok <==> spec_patch_topmost(old(self)@, thread_id, frame_id, name@, new_value@).1,
            r matches Err(e) ==> e == TreeError::UnresolvedPatchTarget,
    {
        let fi = match self.find_frame(thread_id, frame_id) {
            Some(i) => i,
            None => {
                return Err(TreeError::UnresolvedPatchTarget);
            },
        };
        proof {
            assert(self@.frames[fi as int] == self.frames@[fi as int].deep_view());
        }
        let ghost sc = self@.frames[fi as int].scopes;
        let mut target: Option<u64> = None;
        let ghost mut hit: int = -1;
        let n = self.frames[fi].scopes.len();
        let mut i: usize = 0;
        while i < n && target.is_none()
            invariant
                n == self.frames@[fi as int].scopes.len(),
                fi < self@.frames.len(),
                sc == self@.frames[fi as int].scopes,
                sc == self.frames@[fi as int].scopes.deep_view(),
                i <= n,
                sc.len() == n,
                forall|j: int| 0 <= j < i ==> !scope_has_var(self@.cache, sc, j, name@),
                match target {
                    Some(c) => {
                        &&& i < n
                        &&& hit == i as int
                        &&& c == sc[i as int].container_ref
                        &&& scope_has_var(self@.cache, sc, i as int, name@)
                    },
                    None => true,
                },
            decreases n - i, (match target {
                Option::None => 1int,
                Option::Some(_) => 0int,
            }),
        {
            proof {
                assert(sc[i as int] == self.frames@[fi as int].scopes@[i as int].deep_view());
            }
            let c = self.frames[fi].scopes[i].container_ref;
            match self.find_slot(c) {
                Some(si) => {
                    proof {
                        assert(self@.cache[si as int] == self.cache@[si as int].deep_view());
                    }
                    if find_var(&self.cache[si].variables, name).is_some() {
                        target = Some(c);
                        proof {
                            hit = i as int;
                            assert(scope_has_var(self@.cache, sc, i as int, name@));
                        }
                    } else {
                        proof {
                            assert(!scope_has_var(self@.cache, sc, i as int, name@));
                        }
                        i = i + 1;
                    }
                },
                None => {
                    proof {
                        assert(!scope_has_var(self@.cache, sc, i as int, name@));
                    }
                    i = i + 1;
                },
            }
        }
        match target {
            Some(c) => {
                proof {
                    lemma_first_scope_with_var_is(self@.cache, sc, 0, hit, name@);
                }
                let r = self.patch_variable(c, name, new_value);
                proof {
                    assert(spec_patch(old(self)@, c, name@, new_value@).1);
                }
                r
            },
            None => {
                proof {
                    lemma_first_scope_with_var_none(self@.cache, sc, 0, name@);
                }
                Err(TreeError::UnresolvedPatchTarget)
            },
        }
    }
}

} // verus!
