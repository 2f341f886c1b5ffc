//! Counters of what passes through the stages of a pipeline.
//!
//! A listener keeps three tables, each from stage handle to an [`IoMetric`]:
//! records received, records sent on, and records on which a stage failed.
//! The stages to watch are named in the listener's parameters:
//!
//! ```text
//! pipeline.steps.<step>.handle = <stage handle>
//! pipeline.steps.<step>.id     = <name shown with the stage's gauges>
//! ```
//!
//! A step gets its metrics under its handle. A step whose parameters give
//! no handle names no stage and gets none; a handle parameter whose value is
//! not a stage handle (zero is none) makes the parameters unreadable.
//!
//! The tables are read out as gauge readings; publishing them is not done
//! here.

use std::collections::HashMap;
use vstd::prelude::*;
use crate::params::{pairs_view, ParamMap};
use crate::record::RecordEnvelope;
use crate::stage::{
    step_report, step_report_text, ModuleInfo, ModuleKind, StageConfiguration,
    StageConfigurationView, StageHandle, StageKind, CURRENT_API_VERSION,
};
use crate::text;

verus! {

broadcast use vstd::std_specs::hash::group_hash_axioms;

/// Identifier of this module.
pub const MODULE_ID: &'static str = "prometheus";

/// Prefix of the listener's parameters that describe the stages to watch.
pub const STEPS_PREFIX: &'static str = "pipeline.steps.";

/// Address on which the gauges are offered when the parameters name none.
pub const DEFAULT_LISTEN_HOST: &'static str = "0.0.0.0";

/// Port on which the gauges are offered when the parameters name none.
pub const DEFAULT_LISTEN_PORT: &'static str = "9000";

/// Seconds between two read-outs of the tables.
pub const REFRESH_INTERVAL_SECS: u64 = 5;

/// What the module tells the host about itself.
pub fn torustiq_module_get_info() -> (info: ModuleInfo)
    ensures
        info.api_version == CURRENT_API_VERSION,
        info.id@ == MODULE_ID@,
        info.kind == ModuleKind::Listener,
        info.name@ == "Prometheus metrics"@,
{
    ModuleInfo {
        api_version: CURRENT_API_VERSION,
        id: MODULE_ID.to_owned(),
        kind: ModuleKind::Listener,
        name: "Prometheus metrics".to_owned(),
    }
}

/// The configuration of the listener.
pub fn configure(params: ParamMap) -> (config: StageConfiguration)
    ensures
        config@ == (StageConfigurationView {
            handle: 0,
            kind: StageKind::Listener,
            module: MODULE_ID@,
            exclusive: false,
            params: params@,
        }),
{
    StageConfiguration::new(StageKind::Listener, MODULE_ID.to_owned(), false, params)
}

/// Mathematical content of an [`IoMetric`].
pub struct IoMetricView {
    pub module_id: Seq<char>,
    pub num: nat,
    pub size_bytes: nat,
}

/// Count and volume of the records seen at one stage.
#[derive(Debug)]
pub struct IoMetric {
    /// Name shown with the stage's gauges.
    pub module_id: String,
    /// Number of records.
    pub num: usize,
    /// Total size of their payloads in bytes.
    pub size_bytes: usize,
}

impl View for IoMetric {
    type V = IoMetricView;

    open spec fn view(&self) -> IoMetricView {
        IoMetricView {
            module_id: self.module_id@,
            num: self.num as nat,
            size_bytes: self.size_bytes as nat,
        }
    }
}

/// `a + b`, held at the largest value of `usize`.
pub open spec fn capped_sum(a: nat, b: nat) -> nat {
    if a + b > usize::MAX {
        usize::MAX as nat
    } else {
        a + b
    }
}

/// The metric after one more record of `size` bytes.
pub open spec fn counted(metric: IoMetricView, size: nat) -> IoMetricView {
    IoMetricView {
        module_id: metric.module_id,
        num: capped_sum(metric.num, 1),
        size_bytes: capped_sum(metric.size_bytes, size),
    }
}

impl IoMetric {
    /// A metric that has seen nothing.
    pub fn new(module_id: String) -> (metric: IoMetric)
        ensures
            metric@ == (IoMetricView { module_id: module_id@, num: 0, size_bytes: 0 }),
    {
        IoMetric { module_id, num: 0, size_bytes: 0 }
    }

    /// Counts one more record of `size` bytes. Both counters stop at the
    /// largest value they can hold.
    pub fn count(&mut self, size: usize)
        ensures
            final(self)@ == counted(old(self)@, size as nat),
    {
        self.num = self.num.saturating_add(1);
        self.size_bytes = self.size_bytes.saturating_add(size);
    }
}

/// One of the three tables: from stage handle to metric. Zero names no
/// stage, and no table ever holds a metric under it.
pub struct GaugeContainer {
    metrics: HashMap<StageHandle, IoMetric>,
}

impl View for GaugeContainer {
    type V = Map<StageHandle, IoMetricView>;

    closed spec fn view(&self) -> Map<StageHandle, IoMetricView> {
        self.metrics@.map_values(|m: IoMetric| m@)
    }
}

impl GaugeContainer {
    #[verifier::type_invariant]
    spec fn well_formed(&self) -> bool {
        !self.metrics@.contains_key(0)
    }

    /// A table without stages.
    pub fn new() -> (container: GaugeContainer)
        ensures
            container@ == Map::<StageHandle, IoMetricView>::empty(),
    {
        let container = GaugeContainer { metrics: HashMap::new() };
        assert(container@ =~= Map::empty());
        container
    }

    /// Puts `metric` under `handle`, in place of what was there, and returns
    /// `true`. Zero is no stage handle: nothing is put under it, and the
    /// result is `false`.
    pub fn insert(&mut self, handle: StageHandle, metric: IoMetric) -> (stored: bool)
        ensures
            stored == (handle != 0),
            final(self)@ == if handle != 0 {
                old(self)@.insert(handle, metric@)
            } else {
                old(self)@
            },
            !final(self)@.contains_key(0),
    {
        proof {
            use_type_invariant(&*self);
        }
        if handle == 0 {
            return false;
        }
        let mut metrics: HashMap<StageHandle, IoMetric> = HashMap::new();
        std::mem::swap(&mut metrics, &mut self.metrics);
        metrics.insert(handle, metric);
        self.metrics = metrics;
        assert(self@ =~= old(self)@.insert(handle, metric@));
        true
    }

    /// The metric of `handle`. There is none under zero.
    pub fn get(&self, handle: StageHandle) -> (found: Option<&IoMetric>)
        ensures
            found is Some <==> self@.contains_key(handle),
            found matches Some(metric) ==> metric@ == self@[handle],
            !self@.contains_key(0),
    {
        proof {
            use_type_invariant(self);
        }
        self.metrics.get(&handle)
    }

    /// Counts one more record of `size` bytes for `handle`. A handle that
    /// is not in the table is not counted.
    pub fn count(&mut self, handle: StageHandle, size: usize) -> (known: bool)
        ensures
            known == old(self)@.contains_key(handle),
            final(self)@ == if old(self)@.contains_key(handle) {
                old(self)@.insert(handle, counted(old(self)@[handle], size as nat))
            } else {
                old(self)@
            },
            !final(self)@.contains_key(0),
    {
        proof {
            use_type_invariant(&*self);
        }
        let mut metrics: HashMap<StageHandle, IoMetric> = HashMap::new();
        std::mem::swap(&mut metrics, &mut self.metrics);
        let known = match metrics.remove(&handle) {
            Some(metric) => {
                let mut metric = metric;
                metric.count(size);
                metrics.insert(handle, metric);
                true
            },
            None => false,
        };
        self.metrics = metrics;
        proof {
            if known {
                assert(self@ =~= old(self)@.insert(handle, counted(old(self)@[handle], size as nat)));
            } else {
                assert(self@ =~= old(self)@);
            }
        }
        known
    }
}

/// The three tables of a listener.
pub struct Stats {
    /// Records received by each stage.
    pub msg_in: GaugeContainer,
    /// Records sent on by each stage.
    pub msg_out: GaugeContainer,
    /// Records on which each stage failed.
    pub errors_num: GaugeContainer,
}

/// Mathematical content of a [`Step`].
pub struct StepView {
    pub key: Seq<char>,
    pub handle: Option<StageHandle>,
    pub id: Seq<char>,
}

/// A stage to watch, as the listener's parameters describe it.
#[derive(Debug)]
pub struct Step {
    /// The `<step>` part of the parameter names.
    pub key: String,
    /// The stage's handle, if the parameters give one. It is never zero.
    pub handle: Option<StageHandle>,
    /// The name shown with the stage's gauges; empty if the parameters give
    /// none.
    pub id: String,
}

impl View for Step {
    type V = StepView;

    open spec fn view(&self) -> StepView {
        StepView { key: self.key@, handle: self.handle, id: self.id@ }
    }
}

/// Why the listener's parameters could not be read.
#[derive(Clone, Copy, Debug, PartialEq, Eq, Structural)]
pub enum InitError {
    /// The value of a `handle` parameter is not a stage handle: it is not a
    /// decimal number, it does not fit a handle, or it is zero.
    InvalidHandle,
}

/// Mathematical content of a list of steps.
pub open spec fn steps_view(steps: Seq<Step>) -> Seq<StepView> {
    steps.map_values(|s: Step| s@)
}

/// Whether a step with the key `key` is among `steps`.
pub open spec fn has_step(steps: Seq<StepView>, key: Seq<char>) -> bool {
    exists|i: int| 0 <= i < steps.len() && #[trigger] steps[i].key == key
}

/// Position of the step with the key `key` among `steps`.
pub open spec fn step_position(steps: Seq<StepView>, key: Seq<char>) -> int {
    choose|i: int| 0 <= i < steps.len() && #[trigger] steps[i].key == key
}

/// No key occurs twice in `steps`.
pub open spec fn distinct_steps(steps: Seq<StepView>) -> bool {
    forall|i: int, j: int|
        0 <= i < j < steps.len() ==> (#[trigger] steps[i]).key != (#[trigger] steps[j]).key
}

/// The stage handle that `value` denotes: a decimal number that fits a
/// handle and is not zero.
pub open spec fn spec_parse_handle(value: Seq<char>) -> Option<StageHandle> {
    match text::spec_parse_number(value, u32::MAX as nat) {
        Some(handle) => if handle == 0 {
            None
        } else {
            Some(handle as u32)
        },
        None => None,
    }
}

/// Every handle that `steps` give is a stage handle: none is zero.
pub open spec fn handles_are_valid(steps: Seq<StepView>) -> bool {
    forall|i: int| 0 <= i < steps.len() ==> (#[trigger] steps[i]).handle != Some(0u32)
}

/// `steps` with a step for `key`: as they are if they have one, else with
/// a new last step that has neither handle nor name.
pub open spec fn with_step(steps: Seq<StepView>, key: Seq<char>) -> Seq<StepView> {
    if has_step(steps, key) {
        steps
    } else {
        steps.push(StepView { key, handle: None, id: Seq::empty() })
    }
}

/// What one parameter below the steps prefix adds to `steps`. `name` is the
/// parameter's name without the prefix.
///
/// A name without a dot says nothing. Otherwise the part before the first
/// dot names a step. A name that ends in `.handle` gives that step's
/// handle, which must be a stage handle; a name that ends in `.id` gives
/// its shown name; any other name only makes the step known.
pub open spec fn apply_param(steps: Seq<StepView>, name: Seq<char>, value: Seq<char>) -> Result<
    Seq<StepView>,
    InitError,
> {
    match text::first_position(name, '.') {
        None => Ok(steps),
        Some(dot) => {
            let known = with_step(steps, name.take(dot));
            let at = step_position(known, name.take(dot));
            if ".handle"@.is_suffix_of(name) {
                match spec_parse_handle(value) {
                    Some(handle) => Ok(
                        known.update(at, StepView { handle: Some(handle), ..known[at] }),
                    ),
                    None => Err(InitError::InvalidHandle),
                }
            } else if ".id"@.is_suffix_of(name) {
                Ok(known.update(at, StepView { id: value, ..known[at] }))
            } else {
                Ok(known)
            }
        },
    }
}

/// The steps that `params` describe, read in entry order; parameters that
/// do not begin with the steps prefix are passed over.
pub open spec fn spec_parse_steps(params: Seq<(Seq<char>, Seq<char>)>) -> Result<Seq<StepView>, InitError>
    decreases params.len(),
{
    if params.len() == 0 {
        Ok(Seq::empty())
    } else {
        match spec_parse_steps(params.drop_last()) {
            Err(e) => Err(e),
            Ok(steps) => if STEPS_PREFIX@.is_prefix_of(params.last().0) {
                apply_param(steps, params.last().0.skip(STEPS_PREFIX@.len() as int), params.last().1)
            } else {
                Ok(steps)
            },
        }
    }
}

proof fn lemma_step_position(steps: Seq<StepView>, i: int)
    requires
        distinct_steps(steps),
        0 <= i < steps.len(),
    ensures
        has_step(steps, steps[i].key),
        step_position(steps, steps[i].key) == i,
{
    assert(steps[i].key == steps[i].key);
}

fn find_step(steps: &Vec<Step>, key: &String) -> (pos: Option<usize>)
    requires
        distinct_steps(steps_view(steps@)),
    ensures
        pos is Some <==> has_step(steps_view(steps@), key@),
        pos matches Some(i) ==> i < steps.len() && step_position(steps_view(steps@), key@) == i,
{
    let mut i: usize = 0;
    while i < steps.len()
        invariant
            i <= steps.len(),
            distinct_steps(steps_view(steps@)),
            forall|k: int| 0 <= k < i ==> (#[trigger] steps_view(steps@)[k]).key != key@,
        decreases steps.len() - i,
    {
        if steps[i].key == *key {
            proof {
                assert(steps_view(steps@)[i as int].key == key@);
                lemma_step_position(steps_view(steps@), i as int);
            }
            return Some(i);
        }
        i += 1;
    }
    None
}

fn apply(steps: &mut Vec<Step>, name: &str, value: &String) -> (outcome: Result<(), InitError>)
    requires
        distinct_steps(steps_view(old(steps)@)),
        handles_are_valid(steps_view(old(steps)@)),
    ensures
        match outcome {
            Ok(()) => apply_param(steps_view(old(steps)@), name@, value@) == Ok::<
                Seq<StepView>,
                InitError,
            >(steps_view(final(steps)@)) && distinct_steps(steps_view(final(steps)@))
                && handles_are_valid(steps_view(final(steps)@)),
            Err(e) => apply_param(steps_view(old(steps)@), name@, value@) == Err::<
                Seq<StepView>,
                InitError,
            >(e),
        },
{
    let dot = match text::find_char(name, '.') {
        Some(dot) => dot,
        None => {
            return Ok(());
        },
    };
    let key = text::prefix(name, dot);
    let ghost before = steps_view(steps@);
    let ghost known = with_step(before, key@);
    let is_handle = text::ends_with(name, ".handle");
    let is_id = text::ends_with(name, ".id");
    let handle = if is_handle {
        match text::parse_u32(value.as_str()) {
            Some(handle) => {
                if handle == 0 {
                    return Err(InitError::InvalidHandle);
                }
                Some(handle)
            },
            None => {
                return Err(InitError::InvalidHandle);
            },
        }
    } else {
        None
    };
    let at = match find_step(steps, &key) {
        Some(at) => at,
        None => {
            steps.push(Step { key, handle: None, id: String::new() });
            proof {
                assert(steps_view(steps@) =~= known);
                assert(distinct_steps(known)) by {
                    assert forall|i: int, j: int| 0 <= i < j < known.len() implies (
                    #[trigger] known[i]).key != (#[trigger] known[j]).key by {
                        if j == before.len() {
                            assert(before[i].key == known[i].key);
                        } else {
                            assert(before[i] == known[i] && before[j] == known[j]);
                        }
                    }
                }
                lemma_step_position(known, before.len() as int);
            }
            steps.len() - 1
        },
    };
    assert(steps_view(steps@) =~= known);
    assert(at == step_position(known, name@.take(dot as int)));
    if is_handle {
        match handle {
            Some(handle) => {
                steps[at].handle = Some(handle);
            },
            None => {},
        }
        assert(steps_view(steps@) =~= known.update(
            at as int,
            StepView { handle, ..known[at as int] },
        ));
    } else if is_id {
        steps[at].id = value.clone();
        assert(steps_view(steps@) =~= known.update(at as int, StepView { id: value@, ..known[at as int] }));
    }
    proof {
        let after = steps_view(steps@);
        assert forall|i: int, j: int| 0 <= i < j < after.len() implies (#[trigger] after[i]).key != (
        #[trigger] after[j]).key by {
            assert(after[i].key == known[i].key);
            assert(after[j].key == known[j].key);
        }
        assert forall|i: int| 0 <= i < after.len() implies (#[trigger] after[i]).handle != Some(
            0u32,
        ) by {
            if i < before.len() {
                assert(before[i].handle != Some(0u32));
            }
        }
    }
    Ok(())
}

proof fn lemma_fault_stays(params: Seq<(Seq<char>, Seq<char>)>, upto: int)
    requires
        0 <= upto <= params.len(),
        spec_parse_steps(params.take(upto)) is Err,
    ensures
        spec_parse_steps(params) == spec_parse_steps(params.take(upto)),
    decreases params.len() - upto,
{
    if upto < params.len() {
        assert(params.take(upto + 1).drop_last() =~= params.take(upto));
        lemma_fault_stays(params, upto + 1);
    } else {
        assert(params.take(upto) =~= params);
    }
}

/// Reads the stages to watch out of a listener's parameters.
pub fn parse_steps(params: &ParamMap) -> (outcome: Result<Vec<Step>, InitError>)
    ensures
        match outcome {
            Ok(steps) => spec_parse_steps(params.entries()) == Ok::<Seq<StepView>, InitError>(
                steps_view(steps@),
            ),
            Err(e) => spec_parse_steps(params.entries()) == Err::<Seq<StepView>, InitError>(e),
        },
{
    let pairs = params.pairs();
    let mut steps: Vec<Step> = Vec::new();
    let mut i: usize = 0;
    assert(pairs_view(pairs@).take(0) =~= Seq::empty());
    assert(steps_view(steps@) =~= Seq::empty());
    while i < pairs.len()
        invariant
            i <= pairs.len(),
            pairs_view(pairs@) == params.entries(),
            distinct_steps(steps_view(steps@)),
            handles_are_valid(steps_view(steps@)),
            spec_parse_steps(params.entries().take(i as int)) == Ok::<Seq<StepView>, InitError>(
                steps_view(steps@),
            ),
        decreases pairs.len() - i,
    {
        let ghost upto = params.entries().take(i as int + 1);
        proof {
            assert(upto.drop_last() =~= params.entries().take(i as int));
            assert(upto.last() == (pairs@[i as int].0@, pairs@[i as int].1@));
        }
        match text::strip_prefix(pairs[i].0.as_str(), STEPS_PREFIX) {
            Some(name) => {
                if let Err(e) = apply(&mut steps, name.as_str(), &pairs[i].1) {
                    proof {
                        lemma_fault_stays(params.entries(), i as int + 1);
                    }
                    return Err(e);
                }
            },
            None => {},
        }
        i += 1;
    }
    assert(params.entries().take(i as int) =~= params.entries());
    Ok(steps)
}

/// A metric that has seen nothing, shown under the name `id`.
pub open spec fn fresh_metric(id: Seq<char>) -> IoMetricView {
    IoMetricView { module_id: id, num: 0, size_bytes: 0 }
}

/// `table` after a fresh metric was put under the handle of each of
/// `steps` that has a handle, in order. A step without a handle names no
/// stage and gets no metric.
pub open spec fn insert_steps(table: Map<StageHandle, IoMetricView>, steps: Seq<StepView>) -> Map<
    StageHandle,
    IoMetricView,
>
    decreases steps.len(),
{
    if steps.len() == 0 {
        table
    } else {
        match steps.last().handle {
            Some(handle) => insert_steps(table, steps.drop_last()).insert(
                handle,
                fresh_metric(steps.last().id),
            ),
            None => insert_steps(table, steps.drop_last()),
        }
    }
}

/// The handles of those of `steps` that have one, in order.
pub open spec fn step_handles(steps: Seq<StepView>) -> Seq<StageHandle>
    decreases steps.len(),
{
    if steps.len() == 0 {
        Seq::empty()
    } else {
        match steps.last().handle {
            Some(handle) => step_handles(steps.drop_last()).push(handle),
            None => step_handles(steps.drop_last()),
        }
    }
}

/// One more parameter leaves every handle a stage handle.
pub proof fn lemma_apply_keeps_valid(steps: Seq<StepView>, name: Seq<char>, value: Seq<char>)
    requires
        handles_are_valid(steps),
    ensures
        apply_param(steps, name, value) matches Ok(after) ==> handles_are_valid(after),
{
    if text::first_position(name, '.') is Some && apply_param(steps, name, value) is Ok {
        let dot = text::first_position(name, '.').unwrap();
        let known = with_step(steps, name.take(dot));
        let after = apply_param(steps, name, value).unwrap();
        let at = step_position(known, name.take(dot));
        assert(has_step(known, name.take(dot))) by {
            if !has_step(steps, name.take(dot)) {
                assert(known[steps.len() as int].key == name.take(dot));
            }
        }
        assert(0 <= at < known.len());
        assert(after.len() == known.len());
        assert forall|i: int| 0 <= i < known.len() implies (#[trigger] known[i]).handle != Some(
            0u32,
        ) by {
            if i < steps.len() {
                assert(steps[i].handle != Some(0u32));
            }
        }
        assert forall|i: int| 0 <= i < after.len() implies (#[trigger] after[i]).handle != Some(
            0u32,
        ) by {
            assert(known[i].handle != Some(0u32));
            if i == at && ".handle"@.is_suffix_of(name) {
                assert(after[i].handle == spec_parse_handle(value));
            }
        }
    }
}

/// The steps that are read from parameters give stage handles only: none
/// gives zero.
pub proof fn lemma_parsed_handles_are_valid(params: Seq<(Seq<char>, Seq<char>)>)
    ensures
        spec_parse_steps(params) matches Ok(steps) ==> handles_are_valid(steps),
    decreases params.len(),
{
    if params.len() > 0 {
        lemma_parsed_handles_are_valid(params.drop_last());
        if spec_parse_steps(params.drop_last()) is Ok {
            let steps = spec_parse_steps(params.drop_last()).unwrap();
            lemma_apply_keeps_valid(
                steps,
                params.last().0.skip(STEPS_PREFIX@.len() as int),
                params.last().1,
            );
        }
    }
}

/// Putting metrics under stage handles puts none under zero.
pub proof fn lemma_insert_steps_keeps_zero_out(table: Map<StageHandle, IoMetricView>, steps: Seq<StepView>)
    requires
        handles_are_valid(steps),
        !table.contains_key(0),
    ensures
        !insert_steps(table, steps).contains_key(0),
    decreases steps.len(),
{
    if steps.len() > 0 {
        assert forall|i: int| 0 <= i < steps.drop_last().len() implies (
        #[trigger] steps.drop_last()[i]).handle != Some(0u32) by {
            assert(steps[i].handle != Some(0u32));
        }
        lemma_insert_steps_keeps_zero_out(table, steps.drop_last());
        assert(steps[steps.len() - 1].handle != Some(0u32));
    }
}

/// No metric is kept for a stage that does not exist: whatever the
/// listener's parameters say, setting the tables up puts nothing under the
/// handle zero, which names no stage.
pub proof fn law_no_metric_under_zero(table: Map<StageHandle, IoMetricView>, params: Seq<
    (Seq<char>, Seq<char>),
>)
    requires
        !table.contains_key(0),
        spec_parse_steps(params) is Ok,
    ensures
        !insert_steps(table, spec_parse_steps(params).unwrap()).contains_key(0),
{
    lemma_parsed_handles_are_valid(params);
    lemma_insert_steps_keeps_zero_out(table, spec_parse_steps(params).unwrap());
}

impl Stats {
    /// Three empty tables.
    pub fn new() -> (stats: Stats)
        ensures
            stats.msg_in@ == Map::<StageHandle, IoMetricView>::empty(),
            stats.msg_out@ == Map::<StageHandle, IoMetricView>::empty(),
            stats.errors_num@ == Map::<StageHandle, IoMetricView>::empty(),
    {
        Stats {
            msg_in: GaugeContainer::new(),
            msg_out: GaugeContainer::new(),
            errors_num: GaugeContainer::new(),
        }
    }
}

/// Sets the tables up for the stages that the listener's parameters name:
/// each step that has a handle gets a fresh metric under that handle in
/// each table; a step without a handle gets none. Returns the handles of
/// those stages in the order in which the parameters introduce them. If the
/// parameters cannot be read, the tables stay as they were. Nothing is ever
/// put under the handle zero.
pub fn init(stats: &mut Stats, params: &ParamMap) -> (outcome: Result<Vec<StageHandle>, InitError>)
    ensures
        match spec_parse_steps(params.entries()) {
            Ok(steps) => {
                &&& outcome matches Ok(handles)
                &&& handles@ == step_handles(steps)
                &&& final(stats).msg_in@ == insert_steps(old(stats).msg_in@, steps)
                &&& final(stats).msg_out@ == insert_steps(old(stats).msg_out@, steps)
                &&& final(stats).errors_num@ == insert_steps(old(stats).errors_num@, steps)
                &&& !handles@.contains(0)
            },
            Err(e) => {
                &&& outcome == Err::<Vec<StageHandle>, InitError>(e)
                &&& final(stats).msg_in@ == old(stats).msg_in@
                &&& final(stats).msg_out@ == old(stats).msg_out@
                &&& final(stats).errors_num@ == old(stats).errors_num@
            },
        },
        !final(stats).msg_in@.contains_key(0),
        !final(stats).msg_out@.contains_key(0),
        !final(stats).errors_num@.contains_key(0),
{
    proof {
        use_type_invariant(&stats.msg_in);
        use_type_invariant(&stats.msg_out);
        use_type_invariant(&stats.errors_num);
    }
    let steps = match parse_steps(params) {
        Ok(steps) => steps,
        Err(e) => {
            return Err(e);
        },
    };
    proof {
        lemma_parsed_handles_are_valid(params.entries());
        lemma_insert_steps_keeps_zero_out(old(stats).msg_in@, steps_view(steps@));
        lemma_insert_steps_keeps_zero_out(old(stats).msg_out@, steps_view(steps@));
        lemma_insert_steps_keeps_zero_out(old(stats).errors_num@, steps_view(steps@));
    }
    let mut handles: Vec<StageHandle> = Vec::new();
    let mut i: usize = 0;
    assert(steps_view(steps@).take(0) =~= Seq::empty());
    assert(handles@ =~= step_handles(steps_view(steps@).take(0)));
    while i < steps.len()
        invariant
            i <= steps.len(),
            handles_are_valid(steps_view(steps@)),
            !handles@.contains(0),
            handles@ == step_handles(steps_view(steps@).take(i as int)),
            stats.msg_in@ == insert_steps(old(stats).msg_in@, steps_view(steps@).take(i as int)),
            stats.msg_out@ == insert_steps(old(stats).msg_out@, steps_view(steps@).take(i as int)),
            stats.errors_num@ == insert_steps(old(stats).errors_num@, steps_view(steps@).take(i as int)),
        decreases steps.len() - i,
    {
        let ghost upto = steps_view(steps@).take(i as int + 1);
        proof {
            assert(upto.drop_last() =~= steps_view(steps@).take(i as int));
            assert(upto.last() == steps@[i as int]@);
        }
        if let Some(handle) = steps[i].handle {
            assert(steps_view(steps@)[i as int].handle != Some(0u32));
            let ghost before = handles@;
            stats.msg_in.insert(handle, IoMetric::new(steps[i].id.clone()));
            stats.msg_out.insert(handle, IoMetric::new(steps[i].id.clone()));
            stats.errors_num.insert(handle, IoMetric::new(steps[i].id.clone()));
            handles.push(handle);
            assert forall|k: int| 0 <= k < handles@.len() implies handles@[k] != 0 by {
                if k < before.len() {
                    assert(before.contains(before[k]));
                }
            }
        }
        assert(handles@ =~= step_handles(upto));
        i += 1;
    }
    assert(steps_view(steps@).take(i as int) =~= steps_view(steps@));
    Ok(handles)
}

/// What the listener `handle` reports when its parameters cannot be read: a
/// sentence that names the listener's handle and says what is wrong.
pub fn init_error_message(handle: StageHandle, error: InitError) -> (message: String)
    ensures
        message@ == step_report_text(
            handle,
            "the value of a 'handle' parameter is not a stage handle"@,
        ),
        text::spec_contains(message@, text::spec_decimal(handle as nat)),
{
    match error {
        InitError::InvalidHandle => step_report(
            handle,
            "the value of a 'handle' parameter is not a stage handle",
        ),
    }
}

/// `table` after one more record of `size` bytes was counted for `handle`;
/// a handle that is not in the table is not counted.
pub open spec fn count_in(table: Map<StageHandle, IoMetricView>, handle: StageHandle, size: nat) -> Map<
    StageHandle,
    IoMetricView,
> {
    if table.contains_key(handle) {
        table.insert(handle, counted(table[handle], size))
    } else {
        table
    }
}

/// Counts `record` as received by the stage `handle`.
pub fn inc_stats_msg_in(stats: &mut Stats, handle: StageHandle, record: &RecordEnvelope)
    ensures
        final(stats).msg_in@ == count_in(old(stats).msg_in@, handle, record@.payload.len()),
        final(stats).msg_out@ == old(stats).msg_out@,
        final(stats).errors_num@ == old(stats).errors_num@,
{
    stats.msg_in.count(handle, record.get_content_len());
}

/// Counts `record` as sent on by the stage `handle`.
pub fn inc_stats_msg_out(stats: &mut Stats, handle: StageHandle, record: &RecordEnvelope)
    ensures
        final(stats).msg_out@ == count_in(old(stats).msg_out@, handle, record@.payload.len()),
        final(stats).msg_in@ == old(stats).msg_in@,
        final(stats).errors_num@ == old(stats).errors_num@,
{
    stats.msg_out.count(handle, record.get_content_len());
}

/// Counts `record` as one on which the stage `handle` failed.
pub fn inc_stats_errors_num(stats: &mut Stats, handle: StageHandle, record: &RecordEnvelope)
    ensures
        final(stats).errors_num@ == count_in(old(stats).errors_num@, handle, record@.payload.len()),
        final(stats).msg_in@ == old(stats).msg_in@,
        final(stats).msg_out@ == old(stats).msg_out@,
{
    stats.errors_num.count(handle, record.get_content_len());
}

/// Mathematical content of a [`GaugeReading`].
pub struct GaugeReadingView {
    pub name: Seq<char>,
    pub step_id: Seq<char>,
    pub value: nat,
}

/// One value to publish: the gauge's name, the stage it belongs to, and the
/// value.
#[derive(Debug)]
pub struct GaugeReading {
    pub name: String,
    pub step_id: String,
    pub value: usize,
}

impl View for GaugeReading {
    type V = GaugeReadingView;

    open spec fn view(&self) -> GaugeReadingView {
        GaugeReadingView { name: self.name@, step_id: self.step_id@, value: self.value as nat }
    }
}

/// Name of the gauge that counts the records of the table `suffix`.
pub open spec fn count_gauge(suffix: Seq<char>) -> Seq<char> {
    "pipeline_steps_"@ + suffix + "_num"@
}

/// Name of the gauge that sums the payload sizes of the table `suffix`.
pub open spec fn size_gauge(suffix: Seq<char>) -> Seq<char> {
    "pipeline_steps_"@ + suffix + "_size_total_bytes"@
}

/// The two readings of the stage `handle` in the table that is published
/// under `metric_suffix`: the number of records, then the total size of
/// their payloads. A stage that is not in the table has none.
pub fn update_records_stats(container: &GaugeContainer, metric_suffix: &str, handle: StageHandle) -> (readings:
    Option<(GaugeReading, GaugeReading)>)
    ensures
        readings is Some <==> container@.contains_key(handle),
        readings matches Some((count, size)) ==> {
            &&& count@ == (GaugeReadingView {
                name: count_gauge(metric_suffix@),
                step_id: container@[handle].module_id,
                value: container@[handle].num,
            })
            &&& size@ == (GaugeReadingView {
                name: size_gauge(metric_suffix@),
                step_id: container@[handle].module_id,
                value: container@[handle].size_bytes,
            })
        },
{
    let metric = match container.get(handle) {
        Some(metric) => metric,
        None => {
            return None;
        },
    };
    let mut count_name = text::concat("pipeline_steps_", metric_suffix);
    text::push_text(&mut count_name, "_num");
    let mut size_name = text::concat("pipeline_steps_", metric_suffix);
    text::push_text(&mut size_name, "_size_total_bytes");
    Some(
        (
            GaugeReading { name: count_name, step_id: metric.module_id.clone(), value: metric.num },
            GaugeReading { name: size_name, step_id: metric.module_id.clone(), value: metric.size_bytes },
        ),
    )
}

/// The address on which the gauges are offered: host, colon, port, each
/// from the parameters or, where they name none, the default.
pub fn listen_address(params: &ParamMap) -> (address: String)
    ensures
        address@ == (if params@.contains_key("listen.host"@) {
            params@["listen.host"@]
        } else {
            DEFAULT_LISTEN_HOST@
        }) + ":"@ + (if params@.contains_key("port"@) {
            params@["port"@]
        } else {
            DEFAULT_LISTEN_PORT@
        }),
{
    let mut address = match params.get("listen.host") {
        Some(host) => host.clone(),
        None => DEFAULT_LISTEN_HOST.to_owned(),
    };
    text::push_text(&mut address, ":");
    match params.get("port") {
        Some(port) => text::push_text(&mut address, port.as_str()),
        None => text::push_text(&mut address, DEFAULT_LISTEN_PORT),
    }
    address
}

} // verus!
