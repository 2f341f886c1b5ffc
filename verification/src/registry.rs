//! The table of configured stages.
//!
//! A [`HandleRegistry`] maps each issued handle to the configuration that was
//! registered under it. Entries are added and read; none is ever removed or
//! changed. Its view is the sequence of configurations in the order in which
//! they were registered.
//!
//! Policy on instances: a configuration marked `exclusive` belongs to a
//! module that admits a single instance for the whole registry, whatever the
//! pipeline; registering it is refused as soon as any stage of the same
//! module is present.

use vstd::prelude::*;
use crate::stage::{StageConfiguration, StageConfigurationView, StageHandle};

verus! {

/// Why a registration was refused.
#[derive(Clone, Copy, Debug, PartialEq, Eq, Structural)]
pub enum RegistrationError {
    /// The caller supplied a handle that is in use.
    DuplicateRegistration(StageHandle),
    /// The module admits one instance, and the stage with this handle is it.
    MultipleInstancesNotSupported(StageHandle),
    /// No handle is left above the ones in use.
    HandlesExhausted,
}

/// Whether a stage with handle `handle` is among `stages`.
pub open spec fn has_handle(stages: Seq<StageConfigurationView>, handle: StageHandle) -> bool {
    exists|i: int| 0 <= i < stages.len() && #[trigger] stages[i].handle == handle
}

/// The configuration among `stages` that has the handle `handle`.
pub open spec fn entry_of(stages: Seq<StageConfigurationView>, handle: StageHandle) -> StageConfigurationView {
    stages[choose|i: int| 0 <= i < stages.len() && #[trigger] stages[i].handle == handle]
}

/// Handle of the earliest stage among `stages` that the module `module`
/// implements.
pub open spec fn first_of_module(stages: Seq<StageConfigurationView>, module: Seq<char>) -> Option<
    StageHandle,
>
    decreases stages.len(),
{
    if stages.len() == 0 {
        None
    } else if stages[0].module == module {
        Some(stages[0].handle)
    } else {
        first_of_module(stages.drop_first(), module)
    }
}

/// The largest handle among `stages`, zero if there is none.
pub open spec fn max_handle(stages: Seq<StageConfigurationView>) -> int
    decreases stages.len(),
{
    if stages.len() == 0 {
        0
    } else if stages.last().handle > max_handle(stages.drop_last()) {
        stages.last().handle as int
    } else {
        max_handle(stages.drop_last())
    }
}

/// Every handle is non-zero and names one stage.
pub open spec fn registry_wf(stages: Seq<StageConfigurationView>) -> bool {
    &&& forall|i: int| 0 <= i < stages.len() ==> (#[trigger] stages[i]).handle != 0
    &&& forall|i: int, j: int|
        0 <= i < j < stages.len() ==> (#[trigger] stages[i]).handle != (#[trigger] stages[j]).handle
}

/// What registering `config` does to `stages`: the outcome and the stages
/// afterwards.
///
/// A refusal leaves the stages as they were. The instance limit is tested
/// first, then the handle: a non-zero handle is the caller's and must be
/// free; a zero handle asks for a fresh one, which is the largest handle in
/// use plus one.
pub open spec fn spec_register(stages: Seq<StageConfigurationView>, config: StageConfigurationView) -> (
    Result<StageHandle, RegistrationError>,
    Seq<StageConfigurationView>,
) {
    if config.exclusive && first_of_module(stages, config.module) is Some {
        (
            Err(
                RegistrationError::MultipleInstancesNotSupported(
                    first_of_module(stages, config.module).unwrap(),
                ),
            ),
            stages,
        )
    } else if config.handle != 0 {
        if has_handle(stages, config.handle) {
            (Err(RegistrationError::DuplicateRegistration(config.handle)), stages)
        } else {
            (Ok(config.handle), stages.push(config))
        }
    } else if max_handle(stages) >= u32::MAX {
        (Err(RegistrationError::HandlesExhausted), stages)
    } else {
        let handle = (max_handle(stages) + 1) as u32;
        (Ok(handle), stages.push(StageConfigurationView { handle, ..config }))
    }
}

/// No handle lies above the largest.
pub proof fn lemma_max_handle_bounds(stages: Seq<StageConfigurationView>)
    ensures
        0 <= max_handle(stages) <= u32::MAX,
        forall|i: int| 0 <= i < stages.len() ==> (#[trigger] stages[i]).handle <= max_handle(stages),
    decreases stages.len(),
{
    if stages.len() > 0 {
        lemma_max_handle_bounds(stages.drop_last());
        assert forall|i: int| 0 <= i < stages.len() implies (#[trigger] stages[i]).handle <= max_handle(
            stages,
        ) by {
            if i < stages.len() - 1 {
                assert(stages.drop_last()[i] == stages[i]);
            }
        }
    }
}

/// A stage registered last is the earliest of its module only if the module
/// had none.
pub proof fn lemma_first_of_module_push(
    stages: Seq<StageConfigurationView>,
    added: StageConfigurationView,
    module: Seq<char>,
)
    ensures
        first_of_module(stages.push(added), module) == if first_of_module(stages, module) is Some {
            first_of_module(stages, module)
        } else if added.module == module {
            Some(added.handle)
        } else {
            None
        },
    decreases stages.len(),
{
    let after = stages.push(added);
    if stages.len() == 0 {
        assert(after.drop_first() =~= stages);
    } else {
        assert(after[0] == stages[0]);
        assert(after.drop_first() =~= stages.drop_first().push(added));
        lemma_first_of_module_push(stages.drop_first(), added, module);
    }
}

/// The earliest stage of a module is a registered stage of that module, and
/// a module without one has no stage at all.
pub proof fn lemma_first_of_module_is_member(stages: Seq<StageConfigurationView>, module: Seq<char>)
    ensures
        first_of_module(stages, module) matches Some(h) ==> exists|i: int|
            0 <= i < stages.len() && #[trigger] stages[i].handle == h && stages[i].module == module,
        first_of_module(stages, module) is None ==> forall|i: int|
            0 <= i < stages.len() ==> (#[trigger] stages[i]).module != module,
    decreases stages.len(),
{
    if stages.len() > 0 {
        let rest = stages.drop_first();
        lemma_first_of_module_is_member(rest, module);
        if stages[0].module == module {
            assert(stages[0].handle == first_of_module(stages, module).unwrap());
        } else {
            if first_of_module(rest, module) is Some {
                let h = first_of_module(rest, module).unwrap();
                let i = choose|i: int|
                    0 <= i < rest.len() && #[trigger] rest[i].handle == h && rest[i].module == module;
                assert(stages[i + 1].handle == h && stages[i + 1].module == module);
            } else {
                assert forall|i: int| 0 <= i < stages.len() implies (#[trigger] stages[i]).module
                    != module by {
                    if i > 0 {
                        assert(rest[i - 1] == stages[i]);
                    }
                }
            }
        }
    }
}

/// In a well-formed registry, the entry of a stage's handle is that stage.
pub proof fn lemma_entry_of(stages: Seq<StageConfigurationView>, i: int)
    requires
        registry_wf(stages),
        0 <= i < stages.len(),
    ensures
        has_handle(stages, stages[i].handle),
        entry_of(stages, stages[i].handle) == stages[i],
{
    assert(stages[i].handle == stages[i].handle);
    let c = choose|c: int| 0 <= c < stages.len() && #[trigger] stages[c].handle == stages[i].handle;
    assert(c == i);
}

/// Registering a stage leaves the entry of every other handle as it was.
pub proof fn lemma_entry_after_push(
    stages: Seq<StageConfigurationView>,
    added: StageConfigurationView,
    handle: StageHandle,
)
    requires
        registry_wf(stages.push(added)),
    ensures
        registry_wf(stages),
        has_handle(stages.push(added), handle) <==> (has_handle(stages, handle) || handle
            == added.handle),
        has_handle(stages, handle) ==> handle != added.handle && entry_of(stages.push(added), handle)
            == entry_of(stages, handle),
        handle == added.handle ==> entry_of(stages.push(added), handle) == added,
{
    let after = stages.push(added);
    assert forall|i: int| 0 <= i < stages.len() implies (#[trigger] stages[i]).handle != 0 by {
        assert(after[i] == stages[i]);
    }
    assert forall|i: int, j: int| 0 <= i < j < stages.len() implies (#[trigger] stages[i]).handle != (
    #[trigger] stages[j]).handle by {
        assert(after[i] == stages[i] && after[j] == stages[j]);
    }
    lemma_entry_of(after, stages.len() as int);
    if has_handle(stages, handle) {
        let i = choose|i: int| 0 <= i < stages.len() && #[trigger] stages[i].handle == handle;
        assert(after[i] == stages[i]);
        lemma_entry_of(after, i);
        lemma_entry_of(stages, i);
    }
    if has_handle(after, handle) && handle != added.handle {
        let i = choose|i: int| 0 <= i < after.len() && #[trigger] after[i].handle == handle;
        assert(stages[i].handle == handle);
    }
}

/// A handle that registration issues or accepts was not in use before.
pub proof fn lemma_registered_handle_is_new(
    stages: Seq<StageConfigurationView>,
    config: StageConfigurationView,
)
    requires
        spec_register(stages, config).0 is Ok,
    ensures
        !has_handle(stages, spec_register(stages, config).0.unwrap()),
        spec_register(stages, config).0.unwrap() != 0,
        spec_register(stages, config).1 == stages.push(
            StageConfigurationView { handle: spec_register(stages, config).0.unwrap(), ..config },
        ),
{
    lemma_max_handle_bounds(stages);
    if config.handle != 0 {
        assert((StageConfigurationView { handle: config.handle, ..config }) == config);
    }
}

/// Registering keeps every handle non-zero and unique.
pub proof fn lemma_register_keeps_wf(stages: Seq<StageConfigurationView>, config: StageConfigurationView)
    requires
        registry_wf(stages),
    ensures
        registry_wf(spec_register(stages, config).1),
{
    lemma_max_handle_bounds(stages);
}

/// An instance limit holds: once a stage of a module that admits one
/// instance is registered, registering that module again fails, and the
/// error names the handle under which the first stage was registered.
pub proof fn law_second_instance_refused(
    stages: Seq<StageConfigurationView>,
    first: StageConfigurationView,
    second: StageConfigurationView,
)
    requires
        first.exclusive,
        second.exclusive,
        first.module == second.module,
        spec_register(stages, first).0 is Ok,
    ensures
        spec_register(spec_register(stages, first).1, second) == (
            Err::<StageHandle, RegistrationError>(
                RegistrationError::MultipleInstancesNotSupported(spec_register(stages, first).0.unwrap()),
            ),
            spec_register(stages, first).1,
        ),
{
    let handle = spec_register(stages, first).0.unwrap();
    lemma_first_of_module_push(stages, StageConfigurationView { handle, ..first }, first.module);
    if first.handle != 0 {
        assert((StageConfigurationView { handle, ..first }) == first);
    }
}

/// The stage that an instance limit reports exists: the handle in the error
/// is the handle of a registered stage of the module that was refused.
pub proof fn law_reported_instance_is_registered(
    stages: Seq<StageConfigurationView>,
    config: StageConfigurationView,
)
    ensures
        spec_register(stages, config).0 matches Err(
            RegistrationError::MultipleInstancesNotSupported(h),
        ) ==> exists|i: int|
            0 <= i < stages.len() && #[trigger] stages[i].handle == h && stages[i].module == config.module,
{
    lemma_first_of_module_is_member(stages, config.module);
}

/// The stage that an instance limit reports never changes: whatever is
/// registered later, the earliest stage of a module stays the earliest.
pub proof fn law_first_instance_is_stable(
    stages: Seq<StageConfigurationView>,
    config: StageConfigurationView,
    module: Seq<char>,
)
    requires
        first_of_module(stages, module) is Some,
    ensures
        first_of_module(spec_register(stages, config).1, module) == first_of_module(stages, module),
{
    let after = spec_register(stages, config).1;
    if after != stages {
        let handle = spec_register(stages, config).0.unwrap();
        lemma_first_of_module_push(stages, StageConfigurationView { handle, ..config }, module);
        if config.handle != 0 {
            assert((StageConfigurationView { handle, ..config }) == config);
        }
    }
}

/// Mathematical content of a list of configurations.
pub open spec fn configs_view(stages: Seq<StageConfiguration>) -> Seq<StageConfigurationView> {
    stages.map_values(|c: StageConfiguration| c@)
}

/// The table from handle to stage configuration.
pub struct HandleRegistry {
    stages: Vec<StageConfiguration>,
}

impl View for HandleRegistry {
    type V = Seq<StageConfigurationView>;

    closed spec fn view(&self) -> Seq<StageConfigurationView> {
        configs_view(self.stages@)
    }
}

impl HandleRegistry {
    #[verifier::type_invariant]
    spec fn well_formed(&self) -> bool {
        registry_wf(configs_view(self.stages@))
    }

    /// A registry without stages.
    pub fn new() -> (registry: HandleRegistry)
        ensures
            registry@ == Seq::<StageConfigurationView>::empty(),
    {
        let registry = HandleRegistry { stages: Vec::new() };
        assert(configs_view(registry.stages@) =~= Seq::empty());
        registry
    }

    /// Number of registered stages.
    pub fn len(&self) -> (n: usize)
        ensures
            n == self@.len(),
            registry_wf(self@),
    {
        proof {
            use_type_invariant(self);
        }
        self.stages.len()
    }

    fn position(&self, handle: StageHandle) -> (pos: Option<usize>)
        ensures
            pos is Some <==> has_handle(self@, handle),
            pos matches Some(i) ==> i < self@.len() && self@[i as int].handle == handle && self@[i as int]
                == entry_of(self@, handle) && self@[i as int] == self.stages@[i as int]@,
            registry_wf(self@),
    {
        proof {
            use_type_invariant(self);
        }
        let mut i: usize = 0;
        while i < self.stages.len()
            invariant
                i <= self.stages.len(),
                registry_wf(self@),
                forall|k: int| 0 <= k < i ==> (#[trigger] self@[k]).handle != handle,
            decreases self.stages.len() - i,
        {
            if self.stages[i].handle == handle {
                proof {
                    assert(self@[i as int].handle == handle);
                    let c = choose|c: int| 0 <= c < self@.len() && #[trigger] self@[c].handle == handle;
                    assert(c == i);
                }
                return Some(i);
            }
            i += 1;
        }
        None
    }

    /// Whether a stage is registered under `handle`.
    pub fn contains(&self, handle: StageHandle) -> (b: bool)
        ensures
            b == has_handle(self@, handle),
    {
        self.position(handle).is_some()
    }

    /// The configuration registered under `handle`; `None` when no stage has
    /// that handle.
    pub fn lookup(&self, handle: StageHandle) -> (found: Option<&StageConfiguration>)
        ensures
            found is Some <==> has_handle(self@, handle),
            found matches Some(config) ==> config@ == entry_of(self@, handle) && config@.handle == handle,
    {
        match self.position(handle) {
            Some(i) => Some(&self.stages[i]),
            None => None,
        }
    }

    /// Handle of the earliest registered stage that the module `module`
    /// implements.
    pub fn first_instance_of(&self, module: &str) -> (found: Option<StageHandle>)
        ensures
            found == first_of_module(self@, module@),
    {
        let wanted = module.to_owned();
        let mut i: usize = 0;
        assert(self@.skip(0) =~= self@);
        while i < self.stages.len()
            invariant
                i <= self.stages.len(),
                wanted@ == module@,
                first_of_module(self@, module@) == first_of_module(self@.skip(i as int), module@),
            decreases self.stages.len() - i,
        {
            assert(self@.skip(i as int)[0] == self@[i as int]);
            assert(self@.skip(i as int).drop_first() =~= self@.skip(i as int + 1));
            if self.stages[i].module == wanted {
                return Some(self.stages[i].handle);
            }
            i += 1;
        }
        None
    }

    fn largest_handle(&self) -> (max: StageHandle)
        ensures
            max == max_handle(self@),
    {
        let mut max: StageHandle = 0;
        let mut i: usize = 0;
        assert(self@.take(0) =~= Seq::empty());
        while i < self.stages.len()
            invariant
                i <= self.stages.len(),
                max == max_handle(self@.take(i as int)),
            decreases self.stages.len() - i,
        {
            assert(self@.take(i as int + 1).drop_last() =~= self@.take(i as int));
            assert(self@.take(i as int + 1).last() == self@[i as int]);
            if self.stages[i].handle > max {
                max = self.stages[i].handle;
            }
            i += 1;
        }
        assert(self@.take(i as int) =~= self@);
        max
    }

    fn store(&mut self, config: StageConfiguration)
        requires
            registry_wf(old(self)@.push(config@)),
        ensures
            final(self)@ == old(self)@.push(config@),
    {
        let ghost before = self@;
        let mut stages: Vec<StageConfiguration> = Vec::new();
        assert(configs_view(stages@) =~= Seq::empty());
        std::mem::swap(&mut stages, &mut self.stages);
        stages.push(config);
        assert(configs_view(stages@) =~= before.push(config@));
        self.stages = stages;
    }

    /// Registers `config` and returns the handle under which it is stored.
    ///
    /// A configuration whose handle is zero is given a fresh handle; one with
    /// a non-zero handle is stored under that handle if it is free. The
    /// outcome and the registry afterwards are those of [`spec_register`].
    pub fn register(&mut self, config: StageConfiguration) -> (outcome: Result<
        StageHandle,
        RegistrationError,
    >)
        ensures
            outcome == spec_register(old(self)@, config@).0,
            final(self)@ == spec_register(old(self)@, config@).1,
    {
        proof {
            use_type_invariant(&*self);
            lemma_register_keeps_wf(self@, config@);
        }
        if config.exclusive {
            if let Some(existing) = self.first_instance_of(config.module.as_str()) {
                return Err(RegistrationError::MultipleInstancesNotSupported(existing));
            }
        }
        if config.handle != 0 {
            if self.contains(config.handle) {
                return Err(RegistrationError::DuplicateRegistration(config.handle));
            }
            let handle = config.handle;
            self.store(config);
            Ok(handle)
        } else {
            let max = self.largest_handle();
            if max == u32::MAX {
                return Err(RegistrationError::HandlesExhausted);
            }
            let handle = max + 1;
            let ghost wanted = StageConfigurationView { handle, ..config@ };
            let stored = config.with_handle(handle);
            assert(stored@ == wanted);
            self.store(stored);
            Ok(handle)
        }
    }
}

} // verus!
