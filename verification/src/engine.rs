//! The order in which the two inference sessions are built.
use crate::inference::{
    begin_registration, build_execution_providers, configure_execution_providers,
    InferenceProfiling, ProviderKind, Registration, RegistrationStep, ResolvedModels,
    FACE_EMBEDDING_DIM,
};
use crate::scrfd::DetectedFace;
use vstd::prelude::*;

verus! {

#[derive(Clone, Copy, Debug, PartialEq, Eq, Structural)]
pub enum SessionModel {
    Detector,
    Recognizer,
}

/// Where the models come from.
#[derive(Clone, Copy, Debug, PartialEq, Eq, Structural)]
pub enum ModelSource {
    /// The descriptors that were pinned at startup.
    Descriptors,
    /// Bytes that a parent has pinned in memory.
    Memory,
}

/// What a session needs while it is built.
#[derive(Clone, Copy, Debug, PartialEq, Eq, Structural)]
pub struct EngineSetup {
    pub source: ModelSource,
    /// A thread count was configured.
    pub threads: bool,
    pub profiled: bool,
}

#[derive(Clone, Copy, Debug, PartialEq, Eq, Structural)]
pub enum EngineError {
    ModelsRequired,
    Runtime(SessionModel),
    RequiredProvider(SessionModel, ProviderKind),
    NoProvider(SessionModel),
    Load(SessionModel),
}

/// The next call into the inference runtime.
#[derive(Clone, Copy, Debug, PartialEq, Eq, Structural)]
pub enum EngineStep {
    Create(SessionModel),
    Optimize(SessionModel),
    SetThreads(SessionModel),
    SetProfiling(SessionModel),
    Register(SessionModel, ProviderKind),
    Load(SessionModel, ModelSource),
    /// Both sessions are loaded; the first provider registered for each.
    Ready { detector: ProviderKind, recognizer: ProviderKind },
    Fail(EngineError),
}

/// Whether a step ends the building.
pub open spec fn is_over(step: EngineStep) -> bool {
    step is Ready || step is Fail
}

/// Where the building stands.
#[derive(Debug)]
pub struct EngineBuild {
    pub setup: EngineSetup,
    pub plan: Vec<ProviderKind>,
    pub registration: Registration,
    pub detector: Option<ProviderKind>,
    pub step: EngineStep,
}

/// The call that a registration asks for next.
pub open spec fn registering(
    model: SessionModel,
    source: ModelSource,
    next: RegistrationStep,
) -> EngineStep {
    match next {
        RegistrationStep::Register(kind) => EngineStep::Register(model, kind),
        RegistrationStep::Finished(_) => EngineStep::Load(model, source),
        RegistrationStep::RequiredFailed(kind) => EngineStep::Fail(
            EngineError::RequiredProvider(model, kind),
        ),
        RegistrationStep::NoneRegistered => EngineStep::Fail(EngineError::NoProvider(model)),
    }
}

fn register_next(model: SessionModel, source: ModelSource, next: RegistrationStep) -> (step:
    EngineStep)
    ensures
        step == registering(model, source, next),
{
    match next {
        RegistrationStep::Register(kind) => EngineStep::Register(model, kind),
        RegistrationStep::Finished(_) => EngineStep::Load(model, source),
        RegistrationStep::RequiredFailed(kind) => EngineStep::Fail(
            EngineError::RequiredProvider(model, kind),
        ),
        RegistrationStep::NoneRegistered => EngineStep::Fail(EngineError::NoProvider(model)),
    }
}

/// The registration as it is before the first provider of a plan.
pub open spec fn fresh() -> Registration {
    Registration { next: 0, preference: None }
}

/// The registration after one provider of a plan.
pub open spec fn registered_once(
    plan: Seq<ProviderKind>,
    state: Registration,
    registered: bool,
) -> Registration {
    Registration {
        next: (state.next + 1) as usize,
        preference: if registered && state.preference is None {
            Some(plan[state.next as int])
        } else {
            state.preference
        },
    }
}

/// The step that follows one that has succeeded or failed. Each session is
/// created, tuned, given its threads and its profile where there are any, gets
/// the providers of the plan, and is loaded; the detector's is complete before
/// the recognizer's begins.
pub open spec fn following_step(build: EngineBuild, succeeded: bool) -> EngineStep {
    let plan = build.plan@;
    let first = |model: SessionModel|
        registering(
            model,
            build.setup.source,
            crate::inference::registration_next(plan, fresh()),
        );
    match build.step {
        EngineStep::Create(model) => if succeeded {
            EngineStep::Optimize(model)
        } else {
            EngineStep::Fail(EngineError::Runtime(model))
        },
        EngineStep::Optimize(model) => if !succeeded {
            EngineStep::Fail(EngineError::Runtime(model))
        } else if build.setup.threads {
            EngineStep::SetThreads(model)
        } else if build.setup.profiled {
            EngineStep::SetProfiling(model)
        } else {
            first(model)
        },
        EngineStep::SetThreads(model) => if !succeeded {
            EngineStep::Fail(EngineError::Runtime(model))
        } else if build.setup.profiled {
            EngineStep::SetProfiling(model)
        } else {
            first(model)
        },
        EngineStep::SetProfiling(model) => if !succeeded {
            EngineStep::Fail(EngineError::Runtime(model))
        } else {
            first(model)
        },
        EngineStep::Register(model, kind) => if !succeeded && kind == ProviderKind::Cpu {
            EngineStep::Fail(EngineError::RequiredProvider(model, kind))
        } else {
            registering(
                model,
                build.setup.source,
                crate::inference::registration_next(
                    plan,
                    registered_once(plan, build.registration, succeeded),
                ),
            )
        },
        EngineStep::Load(model, _) => if !succeeded {
            EngineStep::Fail(EngineError::Load(model))
        } else {
            match (model, build.detector, build.registration.preference) {
                (SessionModel::Detector, _, _) => EngineStep::Create(SessionModel::Recognizer),
                (SessionModel::Recognizer, Some(detector), Some(recognizer)) => EngineStep::Ready {
                    detector,
                    recognizer,
                },
                _ => EngineStep::Fail(EngineError::NoProvider(model)),
            }
        },
        EngineStep::Ready { .. } => build.step,
        EngineStep::Fail(_) => build.step,
    }
}

/// Whether the step that follows is the first of a registration.
pub open spec fn begins_registration(build: EngineBuild, succeeded: bool) -> bool {
    succeeded && match build.step {
        EngineStep::Optimize(_) => !build.setup.threads && !build.setup.profiled,
        EngineStep::SetThreads(_) => !build.setup.profiled,
        EngineStep::SetProfiling(_) => true,
        _ => false,
    }
}

/// The registration after a step: each session starts afresh, a provider that was
/// tried is passed, and nothing else changes it.
pub open spec fn following_registration(build: EngineBuild, succeeded: bool) -> Registration {
    if build.step is Register {
        registered_once(build.plan@, build.registration, succeeded)
    } else if begins_registration(build, succeeded) {
        fresh()
    } else {
        build.registration
    }
}

/// The detector's provider after a step: its registration's, once it is loaded.
pub open spec fn following_detector(build: EngineBuild, succeeded: bool) -> Option<ProviderKind> {
    if succeeded && (build.step matches EngineStep::Load(SessionModel::Detector, _)) {
        build.registration.preference
    } else {
        build.detector
    }
}

impl EngineBuild {
    /// The invariant of a building: a registration points at the provider that
    /// is being registered, a load follows a registration that found one, and
    /// the recognizer's turn comes once the detector has its provider.
    pub open spec fn wf(&self) -> bool {
        &&& match self.step {
            EngineStep::Register(_, kind) => self.registration.next < self.plan@.len()
                && self.plan@[self.registration.next as int] == kind,
            EngineStep::Load(_, source) => self.registration.preference is Some && source
                == self.setup.source,
            _ => true,
        }
        &&& (self.model() == Some(SessionModel::Recognizer) ==> self.detector is Some)
    }

    /// The session that a step works on.
    pub open spec fn model(&self) -> Option<SessionModel> {
        match self.step {
            EngineStep::Create(model) => Some(model),
            EngineStep::Optimize(model) => Some(model),
            EngineStep::SetThreads(model) => Some(model),
            EngineStep::SetProfiling(model) => Some(model),
            EngineStep::Register(model, _) => Some(model),
            EngineStep::Load(model, _) => Some(model),
            EngineStep::Ready { .. } => None,
            EngineStep::Fail(_) => None,
        }
    }

    /// How far a building has come. Every step that is not the last adds to it.
    pub open spec fn progress(&self) -> (int, int) {
        let session: int = if self.model() == Some(SessionModel::Detector) {
            0
        } else if self.model() == Some(SessionModel::Recognizer) {
            1
        } else {
            2
        };
        let within: int = match self.step {
            EngineStep::Create(_) => 0,
            EngineStep::Optimize(_) => 1,
            EngineStep::SetThreads(_) => 2,
            EngineStep::SetProfiling(_) => 3,
            EngineStep::Register(_, _) => 4 + self.registration.next,
            EngineStep::Load(_, _) => 4int + self.plan@.len(),
            _ => 0,
        };
        (session, within)
    }

    /// Begins with the detector. Without descriptors and without bytes there is
    /// nothing to build from; the same plan serves both sessions.
    pub fn begin(
        provider: &str,
        register_cpu_fallback: bool,
        threads: usize,
        profiled: bool,
        has_model_bytes: bool,
        has_descriptors: bool,
    ) -> (build: Self)
        ensures
            build.wf(),
            build.plan@ == crate::inference::provider_plan(provider@, register_cpu_fallback),
            build.setup.threads == (threads > 0),
            build.setup.profiled == profiled,
            has_model_bytes ==> build.setup.source == ModelSource::Memory,
            !has_model_bytes ==> build.setup.source == ModelSource::Descriptors,
            build.registration == fresh(),
            build.detector is None,
            build.step == (if has_model_bytes || has_descriptors {
                EngineStep::Create(SessionModel::Detector)
            } else {
                EngineStep::Fail(EngineError::ModelsRequired)
            }),
    {
        let plan: Vec<ProviderKind> = match build_execution_providers(
            provider,
            register_cpu_fallback,
        ) {
            Ok(plan) => plan,
            Err(_) => Vec::new(),
        };
        let source = if has_model_bytes {
            ModelSource::Memory
        } else {
            ModelSource::Descriptors
        };
        let step = if has_model_bytes || has_descriptors {
            EngineStep::Create(SessionModel::Detector)
        } else {
            EngineStep::Fail(EngineError::ModelsRequired)
        };
        EngineBuild {
            setup: EngineSetup { source, threads: threads > 0, profiled },
            plan,
            registration: Registration { next: 0, preference: None },
            detector: None,
            step,
        }
    }

    fn first_provider(&mut self, model: SessionModel)
        ensures
            final(self).plan == old(self).plan,
            final(self).setup == old(self).setup,
            final(self).detector == old(self).detector,
            final(self).registration == fresh(),
            final(self).step == registering(
                model,
                old(self).setup.source,
                crate::inference::registration_next(old(self).plan@, fresh()),
            ),
    {
        let (registration, next) = begin_registration(&self.plan);
        self.registration = registration;
        self.step = register_next(model, self.setup.source, next);
    }

    /// Goes on after a call that succeeded or failed.
    pub fn after(&mut self, succeeded: bool)
        requires
            old(self).wf(),
        ensures
            final(self).wf(),
            final(self).plan == old(self).plan,
            final(self).setup == old(self).setup,
            final(self).step == following_step(*old(self), succeeded),
            final(self).detector == following_detector(*old(self), succeeded),
            final(self).registration == following_registration(*old(self), succeeded),
            !is_over(old(self).step) && !is_over(final(self).step) ==> old(self).progress().0
                < final(self).progress().0 || (old(self).progress().0 == final(self).progress().0
                && old(self).progress().1 < final(self).progress().1),
    {
        match self.step {
            EngineStep::Create(model) => {
                self.step = if succeeded {
                    EngineStep::Optimize(model)
                } else {
                    EngineStep::Fail(EngineError::Runtime(model))
                };
            },
            EngineStep::Optimize(model) => {
                if !succeeded {
                    self.step = EngineStep::Fail(EngineError::Runtime(model));
                } else if self.setup.threads {
                    self.step = EngineStep::SetThreads(model);
                } else if self.setup.profiled {
                    self.step = EngineStep::SetProfiling(model);
                } else {
                    self.first_provider(model);
                }
            },
            EngineStep::SetThreads(model) => {
                if !succeeded {
                    self.step = EngineStep::Fail(EngineError::Runtime(model));
                } else if self.setup.profiled {
                    self.step = EngineStep::SetProfiling(model);
                } else {
                    self.first_provider(model);
                }
            },
            EngineStep::SetProfiling(model) => {
                if !succeeded {
                    self.step = EngineStep::Fail(EngineError::Runtime(model));
                } else {
                    self.first_provider(model);
                }
            },
            EngineStep::Register(model, _) => {
                let count: usize = self.plan.len();
                assert(self.registration.next < count);
                let (registration, next) = configure_execution_providers(
                    &self.plan,
                    self.registration,
                    succeeded,
                );
                self.registration = registration;
                self.step = register_next(model, self.setup.source, next);
            },
            EngineStep::Load(model, _) => {
                if !succeeded {
                    self.step = EngineStep::Fail(EngineError::Load(model));
                } else {
                    match model {
                        SessionModel::Detector => {
                            self.detector = self.registration.preference;
                            self.step = EngineStep::Create(SessionModel::Recognizer);
                        },
                        SessionModel::Recognizer => {
                            self.step = match (self.detector, self.registration.preference) {
                                (Some(detector), Some(recognizer)) => EngineStep::Ready {
                                    detector,
                                    recognizer,
                                },
                                _ => EngineStep::Fail(EngineError::NoProvider(model)),
                            };
                        },
                    }
                }
            },
            EngineStep::Ready { .. } => {},
            EngineStep::Fail(_) => {},
        }
    }
}

/// An engine is ready only after the recognizer has been loaded, and the
/// recognizer is begun only after the detector has been; a load always follows
/// a provider that was registered.
pub proof fn engines_are_built_in_order(build: EngineBuild, succeeded: bool)
    requires
        build.wf(),
        !is_over(build.step),
    ensures
        following_step(build, succeeded) is Ready ==> succeeded && (build.step matches EngineStep::Load(
            SessionModel::Recognizer,
            _,
        )),
        following_step(build, succeeded) == EngineStep::Create(SessionModel::Recognizer)
            ==> succeeded && (build.step matches EngineStep::Load(SessionModel::Detector, _)),
        !succeeded && !(build.step is Register) ==> following_step(build, succeeded) is Fail,
        following_step(build, succeeded) matches EngineStep::Load(_, source) ==> source
            == build.setup.source && build.step !is Load,
{
}

/// A step that registers a provider for `model`.
pub open spec fn registers(step: EngineStep, model: SessionModel) -> bool {
    step matches EngineStep::Register(asked, _) && asked == model
}

/// `builds` are the states of one building, from its start, driven by whether
/// each call succeeded.
pub open spec fn is_building(builds: Seq<EngineBuild>, outcomes: Seq<bool>) -> bool {
    &&& builds.len() == outcomes.len() + 1
    &&& builds[0].wf()
    &&& builds[0].step == EngineStep::Create(SessionModel::Detector)
    &&& forall|i: int| 0 <= i < outcomes.len() ==> #[trigger] goes_on(builds, outcomes, i)
}

/// State `i` of a building is followed by what its outcome leads to.
pub open spec fn goes_on(builds: Seq<EngineBuild>, outcomes: Seq<bool>, i: int) -> bool {
    let before = builds[i];
    let after = builds[i + 1];
    &&& after.wf()
    &&& after.plan == before.plan
    &&& after.setup == before.setup
    &&& after.step == following_step(before, outcomes[i])
    &&& after.registration == following_registration(before, outcomes[i])
    &&& after.detector == following_detector(before, outcomes[i])
}

/// Provider `place` of the plan was tried for `model` before state `end`.
pub open spec fn was_tried(
    builds: Seq<EngineBuild>,
    model: SessionModel,
    place: int,
    end: int,
) -> bool {
    exists|j: int|
        0 <= j < end && registers((#[trigger] builds[j]).step, model) && builds[j].registration.next
            == place
}

/// At state `at`, `kind` is registered for `model`: it is the provider whose turn
/// it is in the plan, all providers before it were tried, and none succeeded.
pub open spec fn is_first_success(
    builds: Seq<EngineBuild>,
    outcomes: Seq<bool>,
    model: SessionModel,
    kind: ProviderKind,
    at: int,
) -> bool {
    let place = builds[at].registration.next as int;
    &&& builds[at].step == EngineStep::Register(model, kind)
    &&& outcomes[at]
    &&& place < builds[0].plan@.len() && builds[0].plan@[place] == kind
    &&& forall|earlier: int| 0 <= earlier < place ==> #[trigger] was_tried(builds, model, earlier, at)
    &&& forall|j: int| 0 <= j < at && registers((#[trigger] builds[j]).step, model) ==> !outcomes[j]
}

/// `kind` is the first provider of the plan that was registered for `model`.
pub open spec fn is_first_registered(
    builds: Seq<EngineBuild>,
    outcomes: Seq<bool>,
    model: SessionModel,
    kind: ProviderKind,
    end: int,
) -> bool {
    exists|at: int| 0 <= at < end && is_first_success(builds, outcomes, model, kind, at)
}

/// What holds of state `end` of a building.
spec fn is_tracked(builds: Seq<EngineBuild>, outcomes: Seq<bool>, end: int) -> bool {
    let build = builds[end];
    let none_yet = |model: SessionModel|
        forall|j: int| 0 <= j < end ==> !registers((#[trigger] builds[j]).step, model);
    let tried = |model: SessionModel|
        match build.registration.preference {
            Some(kind) => is_first_registered(builds, outcomes, model, kind, end),
            None => {
                &&& forall|place: int|
                    0 <= place < build.registration.next ==> #[trigger] was_tried(
                        builds,
                        model,
                        place,
                        end,
                    )
                &&& forall|j: int|
                    0 <= j < end && registers((#[trigger] builds[j]).step, model) ==> !outcomes[j]
            },
        };
    &&& build.plan == builds[0].plan
    &&& match build.step {
        EngineStep::Create(model) => none_yet(model),
        EngineStep::Optimize(model) => none_yet(model),
        EngineStep::SetThreads(model) => none_yet(model),
        EngineStep::SetProfiling(model) => none_yet(model),
        EngineStep::Register(model, _) => tried(model),
        EngineStep::Load(model, _) => tried(model),
        EngineStep::Ready { recognizer, .. } => is_first_registered(
            builds,
            outcomes,
            SessionModel::Recognizer,
            recognizer,
            end,
        ),
        EngineStep::Fail(_) => true,
    }
    &&& build.model() == Some(SessionModel::Detector) ==> none_yet(SessionModel::Recognizer)
    &&& build.model() == Some(SessionModel::Recognizer) ==> (build.detector matches Some(kind)
        && is_first_registered(builds, outcomes, SessionModel::Detector, kind, end))
    &&& build.step matches EngineStep::Ready { detector, .. } ==> is_first_registered(
        builds,
        outcomes,
        SessionModel::Detector,
        detector,
        end,
    )
}

proof fn first_registered_stays(
    builds: Seq<EngineBuild>,
    outcomes: Seq<bool>,
    model: SessionModel,
    kind: ProviderKind,
    end: int,
)
    requires
        is_first_registered(builds, outcomes, model, kind, end),
    ensures
        is_first_registered(builds, outcomes, model, kind, end + 1),
{
}

proof fn buildings_are_tracked(builds: Seq<EngineBuild>, outcomes: Seq<bool>, end: int)
    requires
        is_building(builds, outcomes),
        0 <= end < builds.len(),
    ensures
        is_tracked(builds, outcomes, end),
        builds[end].wf(),
    decreases end,
{
    if end > 0 {
        let at = end - 1;
        buildings_are_tracked(builds, outcomes, at);
        assert(goes_on(builds, outcomes, at));
        let before = builds[at];
        match before.detector {
            Some(kind) => if is_first_registered(
                builds,
                outcomes,
                SessionModel::Detector,
                kind,
                at,
            ) {
                first_registered_stays(builds, outcomes, SessionModel::Detector, kind, at);
            },
            None => {},
        }
        match before.step {
            EngineStep::Register(model, kind) => {
                match before.registration.preference {
                    Some(found) => {
                        first_registered_stays(builds, outcomes, model, found, at);
                    },
                    None => {
                        if outcomes[at] {
                            assert(is_first_success(builds, outcomes, model, kind, at));
                            assert(is_first_registered(builds, outcomes, model, kind, end));
                        } else {
                            assert forall|place: int|
                                0 <= place < builds[end].registration.next implies #[trigger] was_tried(
                                builds,
                                model,
                                place,
                                end,
                            ) by {
                                if place < before.registration.next {
                                    assert(was_tried(builds, model, place, at));
                                } else {
                                    assert(registers(builds[at].step, model));
                                }
                            }
                        }
                    },
                }
            },
            EngineStep::Load(model, _) => {
                match before.registration.preference {
                    Some(found) => {
                        first_registered_stays(builds, outcomes, model, found, at);
                    },
                    None => {},
                }
            },
            EngineStep::Ready { detector, recognizer } => {
                first_registered_stays(builds, outcomes, SessionModel::Detector, detector, at);
                first_registered_stays(builds, outcomes, SessionModel::Recognizer, recognizer, at);
            },
            _ => {},
        }
    }
}

/// An engine that is ready names, for each session, the first provider of the
/// plan whose registration succeeded: those before it in the plan were tried and
/// could not be registered.
pub proof fn ready_engines_name_their_first_providers(
    builds: Seq<EngineBuild>,
    outcomes: Seq<bool>,
)
    requires
        is_building(builds, outcomes),
    ensures
        builds.last().step matches EngineStep::Ready { detector, recognizer } ==> {
            &&& is_first_registered(
                builds,
                outcomes,
                SessionModel::Detector,
                detector,
                outcomes.len() as int,
            )
            &&& is_first_registered(
                builds,
                outcomes,
                SessionModel::Recognizer,
                recognizer,
                outcomes.len() as int,
            )
        },
{
    buildings_are_tracked(builds, outcomes, builds.len() - 1);
}

/// The names under which an engine's models are reported: where they were found,
/// or a mark that they came from memory.
pub fn engine_model_paths(models: Option<&ResolvedModels>, has_model_bytes: bool) -> (paths: Option<
    (Vec<u8>, Vec<u8>),
>)
    ensures
        match models {
            Some(resolved) => paths matches Some((detector, recognizer)) && detector@
                == resolved.detector_model.path@ && recognizer@
                == resolved.recognizer_model.path@,
            None => if has_model_bytes {
                paths matches Some((detector, recognizer)) && detector@
                    == vstd::utf8::encode_utf8("<pinned-detector-memory>"@) && recognizer@
                    == vstd::utf8::encode_utf8("<pinned-recognizer-memory>"@)
            } else {
                paths is None
            },
        },
{
    let mut detector: Vec<u8> = Vec::new();
    let mut recognizer: Vec<u8> = Vec::new();
    match models {
        Some(resolved) => {
            detector.extend_from_slice(resolved.detector_model.path.as_slice());
            recognizer.extend_from_slice(resolved.recognizer_model.path.as_slice());
            assert(detector@ =~= resolved.detector_model.path@);
            assert(recognizer@ =~= resolved.recognizer_model.path@);
        },
        None => {
            if !has_model_bytes {
                return None;
            }
            let detector_mark = "<pinned-detector-memory>";
            let recognizer_mark = "<pinned-recognizer-memory>";
            detector.extend_from_slice(detector_mark.as_bytes());
            recognizer.extend_from_slice(recognizer_mark.as_bytes());
            assert(detector@ =~= vstd::utf8::encode_utf8("<pinned-detector-memory>"@));
            assert(recognizer@ =~= vstd::utf8::encode_utf8("<pinned-recognizer-memory>"@));
        },
    }
    Some((detector, recognizer))
}

/// The faces of a frame, each with its embedding at the same place.
#[derive(Debug)]
pub struct Analysis {
    pub faces: Vec<DetectedFace>,
    pub embeddings: Vec<Vec<u32>>,
}

/// `detect` can give `found`.
pub open spec fn detects<E, D: FnOnce() -> Result<Vec<DetectedFace>, E>>(
    detect: D,
    found: Result<Vec<DetectedFace>, E>,
) -> bool {
    call_ensures(detect, (), found)
}

/// `detect` can find `face`.
pub open spec fn can_find<E, D: FnOnce() -> Result<Vec<DetectedFace>, E>>(
    detect: D,
    face: DetectedFace,
) -> bool {
    exists|faces: Vec<DetectedFace>| #[trigger]
        detects(detect, Ok::<Vec<DetectedFace>, E>(faces)) && faces@.contains(face)
}

/// `encode` can give `embedding` for `face`.
pub open spec fn encodes<E, G: Fn(&DetectedFace) -> Result<Vec<u32>, E>>(
    encode: G,
    face: DetectedFace,
    embedding: Result<Vec<u32>, E>,
) -> bool {
    call_ensures(encode, (&face,), embedding)
}

/// `encode` gives whole embeddings, or an error.
pub open spec fn encodes_whole<E, G: Fn(&DetectedFace) -> Result<Vec<u32>, E>>(encode: G) -> bool {
    forall|face: DetectedFace, embedding: Vec<u32>| #[trigger]
        encodes(encode, face, Ok::<Vec<u32>, E>(embedding)) ==> embedding@.len()
            == FACE_EMBEDDING_DIM
}

/// The first faces have been encoded, in order.
pub open spec fn are_encoded<E, G: Fn(&DetectedFace) -> Result<Vec<u32>, E>>(
    encode: G,
    faces: Seq<DetectedFace>,
    embeddings: Seq<Vec<u32>>,
) -> bool {
    embeddings.len() <= faces.len() && forall|i: int|
        0 <= i < embeddings.len() ==> encodes(encode, faces[i], Ok(#[trigger] embeddings[i]))
}

/// Encoding stopped at a face with `error`, after those before it were encoded.
pub open spec fn stopped_at<E, G: Fn(&DetectedFace) -> Result<Vec<u32>, E>>(
    encode: G,
    faces: Seq<DetectedFace>,
    embeddings: Seq<Vec<u32>>,
    error: E,
) -> bool {
    &&& are_encoded(encode, faces, embeddings)
    &&& embeddings.len() < faces.len()
    &&& encodes(encode, faces[embeddings.len() as int], Err(error))
}

/// Detects faces and computes their embeddings: all of them in order, or the first
/// error. Where each embedding is whole, all that come back are.
pub fn analyze<E, D, G>(detect: D, encode: &G) -> (analysis: Result<Analysis, E>) where
    D: FnOnce() -> Result<Vec<DetectedFace>, E>,
    G: Fn(&DetectedFace) -> Result<Vec<u32>, E>,

    requires
        call_requires(detect, ()),
        forall|face: DetectedFace| #[trigger]
            can_find::<E, D>(detect, face) ==> call_requires(*encode, (&face,)),
    ensures
        encodes_whole::<E, G>(*encode) ==> (analysis matches Ok(found) ==> forall|i: int|
            0 <= i < found.embeddings@.len() ==> (#[trigger] found.embeddings@[i])@.len()
                == FACE_EMBEDDING_DIM),
        match analysis {
            Ok(found) => detects(detect, Ok(found.faces)) && are_encoded(
                *encode,
                found.faces@,
                found.embeddings@,
            ) && found.embeddings@.len() == found.faces@.len(),
            Err(error) => detects(detect, Err(error)) || exists|
                faces: Vec<DetectedFace>,
                embeddings: Seq<Vec<u32>>,
            |
                #![trigger stopped_at(*encode, faces@, embeddings, error)]
                detects(detect, Ok(faces)) && stopped_at(*encode, faces@, embeddings, error),
        },
{
    let detected = detect();
    assert(detects(detect, detected));
    let faces = match detected {
        Ok(faces) => faces,
        Err(error) => {
            return Err(error);
        },
    };
    let mut embeddings: Vec<Vec<u32>> = Vec::new();
    while embeddings.len() < faces.len()
        invariant
            forall|face: DetectedFace| #[trigger]
                can_find::<E, D>(detect, face) ==> call_requires(*encode, (&face,)),
            detects(detect, Ok(faces)),
            are_encoded(*encode, faces@, embeddings@),
        decreases faces@.len() - embeddings@.len(),
    {
        let ghost before = embeddings@;
        let face = &faces[embeddings.len()];
        assert(faces@.contains(faces@[before.len() as int]));
        assert(can_find::<E, D>(detect, *face));
        let encoded = encode(face);
        assert(encodes(*encode, faces@[before.len() as int], encoded));
        match encoded {
            Ok(embedding) => {
                embeddings.push(embedding);
                assert forall|i: int| 0 <= i < embeddings@.len() implies encodes(
                    *encode,
                    faces@[i],
                    Ok(#[trigger] embeddings@[i]),
                ) by {
                    if i < before.len() {
                        assert(embeddings@[i] == before[i]);
                    }
                }
            },
            Err(error) => {
                assert(stopped_at(*encode, faces@, before, error));
                return Err(error);
            },
        }
    }
    Ok(Analysis { faces, embeddings })
}

/// Whether half precision is asked of the provider that can be asked.
pub fn migraphx_fp16(profiling: Option<&InferenceProfiling>) -> (fp16: bool)
    ensures
        fp16 == (profiling matches Some(options) && options.migraphx_fp16 == Some(true)),
{
    match profiling {
        Some(options) => match options.migraphx_fp16 {
            Some(fp16) => fp16,
            None => false,
        },
        None => false,
    }
}


/// Each session is set up in the same way: created, optimized, given threads where some
/// are configured, profiled where that is asked for, and then given every provider of
/// the plan in turn.
pub proof fn sessions_are_set_up_alike(build: EngineBuild, model: SessionModel)
    requires
        build.wf(),
        build.plan@.len() > 0,
    ensures
        build.step == EngineStep::Create(model) ==> following_step(build, true)
            == EngineStep::Optimize(model),
        build.step == EngineStep::Optimize(model) ==> following_step(build, true) == (
        if build.setup.threads {
            EngineStep::SetThreads(model)
        } else if build.setup.profiled {
            EngineStep::SetProfiling(model)
        } else {
            EngineStep::Register(model, build.plan@[0])
        }),
        build.step == EngineStep::SetThreads(model) ==> following_step(build, true) == (
        if build.setup.profiled {
            EngineStep::SetProfiling(model)
        } else {
            EngineStep::Register(model, build.plan@[0])
        }),
        build.step == EngineStep::SetProfiling(model) ==> following_step(build, true)
            == EngineStep::Register(model, build.plan@[0]),
        build.step == EngineStep::Create(model) || build.step == EngineStep::Optimize(model)
            || build.step == EngineStep::SetThreads(model) || build.step
            == EngineStep::SetProfiling(model) ==> following_step(build, false)
            == EngineStep::Fail(EngineError::Runtime(model)),
        build.step == EngineStep::Load(model, build.setup.source) ==> following_step(build, false)
            == EngineStep::Fail(EngineError::Load(model)),
{
}

/// Every provider of the plan is tried in turn, and after the last the model is loaded
/// where one was registered. A provider that cannot be registered is passed over, but
/// the processor's own must not fail.
pub proof fn providers_are_tried_in_turn(build: EngineBuild, model: SessionModel, succeeded: bool)
    requires
        build.wf(),
        build.step matches EngineStep::Register(asked, _) && asked == model,
        build.registration.next < usize::MAX,
    ensures
        ({
            let at = build.registration.next as int;
            let kind = build.plan@[at];
            let next = following_step(build, succeeded);
            let registered = build.registration.preference is Some || succeeded;
            &&& !succeeded && kind == ProviderKind::Cpu ==> next == EngineStep::Fail(
                EngineError::RequiredProvider(model, ProviderKind::Cpu),
            )
            &&& succeeded || kind != ProviderKind::Cpu ==> {
                &&& at + 1 < build.plan@.len() ==> next == EngineStep::Register(
                    model,
                    build.plan@[at + 1],
                )
                &&& at + 1 == build.plan@.len() && registered ==> next == EngineStep::Load(
                    model,
                    build.setup.source,
                )
                &&& at + 1 == build.plan@.len() && !registered ==> next == EngineStep::Fail(
                    EngineError::NoProvider(model),
                )
            }
            &&& following_registration(build, succeeded).next == at + 1
            &&& following_registration(build, succeeded).preference == (
            if build.registration.preference is None && succeeded {
                Some(kind)
            } else {
                build.registration.preference
            })
        }),
{
}

/// A loaded detector is followed by the recognizer, and a loaded recognizer makes the
/// engine ready, under the providers that both sessions prefer.
pub proof fn loaded_models_make_the_engine(build: EngineBuild)
    requires
        build.wf(),
    ensures
        build.step == EngineStep::Load(SessionModel::Detector, build.setup.source) ==> following_step(
            build,
            true,
        ) == EngineStep::Create(SessionModel::Recognizer) && following_detector(build, true)
            == build.registration.preference,
        build.step == EngineStep::Load(SessionModel::Recognizer, build.setup.source)
            ==> following_step(build, true) == (EngineStep::Ready {
            detector: build.detector->0,
            recognizer: build.registration.preference->0,
        }),
{
}


/// Every session begins its registrations anew, with the first provider and with none
/// registered; otherwise nothing is forgotten until the next session.
pub proof fn registrations_begin_anew(build: EngineBuild, succeeded: bool)
    requires
        build.wf(),
    ensures
        build.step !is Register && following_step(build, succeeded) is Register
            ==> following_registration(build, succeeded).next == 0 && following_registration(
            build,
            succeeded,
        ).preference is None,
        build.step is Load || build.step is Create || !succeeded && build.step !is Register
            ==> following_registration(build, succeeded) == build.registration,
        build.step !is Load ==> following_detector(build, succeeded) == build.detector,
{
}

} // verus!
