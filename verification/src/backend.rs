//! An assembled service: the modules, their shared context, the settings of the server and the
//! startup sequence, kept together so that every hook is called for the module whose turn it
//! is, with the one context.

use vstd::prelude::*;
use qwreey_utility_rs::ArcRwMap;
use crate::builder::ServerConfig;
use crate::context::share;
use crate::lifecycle::{
    after, failure_view, initial, lifted, liftoff_failures, module_of, outcome_view, phase_exit,
    same_phase, Lifecycle, LiftoffFailure, State, Step,
};

verus! {

/// An assembled service as a mathematical value.
pub struct Assembled<M> {
    /// The modules in registration order; a step of the sequence names one by its position.
    pub exports: Seq<M>,
    /// The context that every hook of every module receives.
    pub userdata: ArcRwMap,
    pub config: ServerConfig,
    /// The state of the startup sequence.
    pub state: State,
}

/// What a built builder hands over. The modules and the context can be read and are never
/// changed; the startup sequence goes on by reports and by running phases.
pub struct Backend<M> {
    exports: Vec<M>,
    userdata: ArcRwMap,
    config: ServerConfig,
    lifecycle: Lifecycle,
}

impl<M> View for Backend<M> {
    type V = Assembled<M>;

    closed spec fn view(&self) -> Assembled<M> {
        Assembled {
            exports: self.exports@,
            userdata: self.userdata,
            config: self.config,
            state: self.lifecycle@,
        }
    }
}

/// Whether `r` can come out of handing `server` through the hooks of the modules from position
/// `from` on, in registration order: each call is for one module, with the shared context and
/// with the server that the call before it returned, and the first error is the result,
/// whatever the hooks after it would return.
pub open spec fn threaded<M, S, H: Fn(&M, S, ArcRwMap) -> Result<S, String>>(
    hook: H,
    exports: Seq<M>,
    userdata: ArcRwMap,
    from: int,
    server: S,
    r: Result<S, String>,
) -> bool
    decreases exports.len() - from,
{
    if from < 0 || from >= exports.len() {
        r == Ok::<S, String>(server)
    } else {
        exists|outcome: Result<S, String>| #[trigger]
            call_ensures(hook, (&exports[from], server, userdata), outcome) && match outcome {
                Ok(next) => threaded(hook, exports, userdata, from + 1, next, r),
                Err(message) => r == Err::<S, String>(message),
            }
    }
}

/// Whether `r` can come out of handing `engine` through the template hooks of the modules from
/// position `from` on, in registration order: each call is for one module, with the shared
/// context and with the engine as the call before it left it.
pub open spec fn prepared<M, E, H: Fn(&M, E, ArcRwMap) -> E>(
    hook: H,
    exports: Seq<M>,
    userdata: ArcRwMap,
    from: int,
    engine: E,
    r: E,
) -> bool
    decreases exports.len() - from,
{
    if from < 0 || from >= exports.len() {
        r == engine
    } else {
        exists|next: E| #[trigger]
            call_ensures(hook, (&exports[from], engine, userdata), next) && prepared(
                hook,
                exports,
                userdata,
                from + 1,
                next,
                r,
            )
    }
}

/// Whether `outcomes` can come out of calling the hook once for every module, in registration
/// order, each time with the shared context.
pub open spec fn notified<M, H: Fn(&M, ArcRwMap) -> Result<(), String>>(
    hook: H,
    exports: Seq<M>,
    userdata: ArcRwMap,
    outcomes: Seq<Result<(), String>>,
) -> bool {
    &&& outcomes.len() == exports.len()
    &&& forall|module: int|
        0 <= module < outcomes.len() ==> call_ensures(
            hook,
            (&exports[module], userdata),
            #[trigger] outcomes[module],
        )
}

impl<M> Backend<M> {
    #[verifier::type_invariant]
    spec fn valid(&self) -> bool {
        self.lifecycle@.modules == self.exports@.len()
    }

    /// A service of these modules with nothing of its startup done yet.
    pub(crate) fn new(exports: Vec<M>, userdata: ArcRwMap, config: ServerConfig) -> (r: Self)
        ensures
            r@ == (Assembled {
                exports: exports@,
                userdata,
                config,
                state: initial(exports.len()),
            }),
    {
        let lifecycle = Lifecycle::new(exports.len());
        Backend { exports, userdata, config, lifecycle }
    }

    /// The modules in registration order, as many as the startup sequence visits.
    pub fn exports(&self) -> (r: &Vec<M>)
        ensures
            r@ == self@.exports,
            r@.len() == self@.state.modules,
    {
        proof {
            use_type_invariant(self);
        }
        &self.exports
    }

    /// A handle to the shared context.
    pub fn userdata(&self) -> (r: ArcRwMap)
        ensures
            r == self@.userdata,
    {
        share(&self.userdata)
    }

    /// What the configure step applies to the server.
    pub fn config(&self) -> (r: ServerConfig)
        ensures
            r == self@.config,
    {
        self.config
    }

    /// The startup sequence, for reading where it stands.
    pub fn lifecycle(&self) -> (r: &Lifecycle)
        ensures
            r@ == self@.state,
            self@.state.modules == self@.exports.len(),
    {
        proof {
            use_type_invariant(self);
        }
        &self.lifecycle
    }

    /// Reports how the pending step went; see [`Lifecycle::complete`].
    pub fn complete(&mut self, outcome: Result<(), String>)
        ensures
            final(self)@ == (Assembled {
                state: after(old(self)@.state, outcome_view(outcome)),
                ..old(self)@
            }),
    {
        proof {
            use_type_invariant(&*self);
        }
        self.lifecycle.complete(outcome);
    }

    /// Runs what is left of the phase of the pending step, for a phase that visits the
    /// modules: calls `hook` for one module after the other in registration order, hands each
    /// call the module, the server that the call before it returned and the shared context,
    /// and reports each outcome. The first error ends the sequence and is returned; no hook
    /// is called after it. Without an error the step after the phase is pending, and the
    /// server comes back as the last hook returned it. Where no step of such a phase is
    /// pending, nothing is called or changed.
    pub fn run_phase<S, H: Fn(&M, S, ArcRwMap) -> Result<S, String>>(
        &mut self,
        server: S,
        hook: H,
    ) -> (r: Result<S, String>)
        requires
            forall|export: &M, server: S, userdata: ArcRwMap|
                call_requires(hook, (export, server, userdata)),
        ensures
            match old(self)@.state.pending {
                Some(step) if module_of(step) is Some => {
                    &&& threaded(
                        hook,
                        old(self)@.exports,
                        old(self)@.userdata,
                        module_of(step)->0 as int,
                        server,
                        r,
                    )
                    &&& final(self)@ == (Assembled {
                        state: match r {
                            Ok(_) => (State {
                                pending: Some(phase_exit(step)),
                                ..old(self)@.state
                            }),
                            Err(message) => (State {
                                pending: None,
                                verdict: Some(Err(message@)),
                                ..old(self)@.state
                            }),
                        },
                        ..old(self)@
                    })
                },
                _ => r == Ok::<S, String>(server) && final(self)@ == old(self)@,
            },
    {
        proof {
            use_type_invariant(&*self);
        }
        let first = match self.lifecycle.pending() {
            Some(Step::Mount { module }) => module,
            Some(Step::Build { module }) => module,
            Some(Step::Ignite { module }) => module,
            _ => {
                return Ok(server);
            },
        };
        let ghost step = self@.state.pending->0;
        let modules = self.exports.len();
        let mut current = server;
        let mut i: usize = first;
        while i < modules
            invariant
                first <= i <= modules,
                modules == self.exports@.len(),
                modules == old(self)@.state.modules,
                old(self)@.state.pending == Some(step),
                module_of(step) == Some(first),
                forall|export: &M, server: S, userdata: ArcRwMap|
                    call_requires(hook, (export, server, userdata)),
                self@ == (Assembled {
                    state: State {
                        pending: Some(
                            if i < modules {
                                same_phase(step, i)
                            } else {
                                phase_exit(step)
                            },
                        ),
                        ..old(self)@.state
                    },
                    ..old(self)@
                }),
                forall|r: Result<S, String>|
                    threaded(hook, self@.exports, self@.userdata, i as int, current, r)
                        ==> threaded(
                        hook,
                        self@.exports,
                        self@.userdata,
                        first as int,
                        server,
                        r,
                    ),
            decreases modules - i,
        {
            let ghost before = current;
            let outcome = hook(&self.exports[i], current, share(&self.userdata));
            proof {
                assert(call_ensures(
                    hook,
                    (&self@.exports[i as int], before, self@.userdata),
                    outcome,
                ));
            }
            match outcome {
                Ok(next) => {
                    proof {
                        assert forall|r: Result<S, String>|
                            threaded(
                                hook,
                                self@.exports,
                                self@.userdata,
                                i + 1,
                                next,
                                r,
                            ) implies threaded(
                            hook,
                            self@.exports,
                            self@.userdata,
                            i as int,
                            before,
                            r,
                        ) by {
                            assert(call_ensures(
                                hook,
                                (&self@.exports[i as int], before, self@.userdata),
                                outcome,
                            ));
                        }
                    }
                    current = next;
                    self.lifecycle.complete(Ok(()));
                    i = i + 1;
                },
                Err(message) => {
                    proof {
                        assert(threaded(
                            hook,
                            self@.exports,
                            self@.userdata,
                            i as int,
                            before,
                            outcome,
                        ));
                    }
                    self.lifecycle.complete(Err(message.clone()));
                    return Err(message);
                },
            }
        }
        proof {
            assert(threaded(
                hook,
                self@.exports,
                self@.userdata,
                i as int,
                current,
                Ok::<S, String>(current),
            ));
        }
        Ok(current)
    }

    /// Sets up a template engine: first `builtins` registers the helpers that every service
    /// offers, then `hook` is called for one module after the other in registration order,
    /// each time with the module, the engine as the call before it left it and the shared
    /// context, and last `autoescape_off` switches autoescaping off for every template. So a
    /// module finds the built-in helpers registered, and nothing that a module does to the
    /// engine switches autoescaping on again.
    ///
    /// An engine keeps one function and one filter for each name, the one that was registered
    /// last: a module can replace a built-in helper, and of two modules that register one name
    /// the later module wins.
    pub fn run_template<E, B: Fn(E) -> E, H: Fn(&M, E, ArcRwMap) -> E, A: Fn(E) -> E>(
        &self,
        engine: E,
        builtins: B,
        hook: H,
        autoescape_off: A,
    ) -> (r: E)
        requires
            forall|engine: E| call_requires(builtins, (engine,)),
            forall|export: &M, engine: E, userdata: ArcRwMap|
                call_requires(hook, (export, engine, userdata)),
            forall|engine: E| call_requires(autoescape_off, (engine,)),
        ensures
            exists|registered: E, hooked: E|
                {
                    &&& #[trigger] call_ensures(builtins, (engine,), registered)
                    &&& prepared(hook, self@.exports, self@.userdata, 0, registered, hooked)
                    &&& #[trigger] call_ensures(autoescape_off, (hooked,), r)
                },
    {
        let registered = builtins(engine);
        let ghost start = registered;
        let mut current = registered;
        let mut i: usize = 0;
        while i < self.exports.len()
            invariant
                i <= self.exports@.len(),
                forall|export: &M, engine: E, userdata: ArcRwMap|
                    call_requires(hook, (export, engine, userdata)),
                forall|r: E|
                    prepared(hook, self@.exports, self@.userdata, i as int, current, r)
                        ==> prepared(hook, self@.exports, self@.userdata, 0, start, r),
            decreases self.exports@.len() - i,
        {
            let ghost before = current;
            let next = hook(&self.exports[i], current, share(&self.userdata));
            proof {
                assert forall|r: E|
                    prepared(hook, self@.exports, self@.userdata, i + 1, next, r) implies prepared(
                    hook,
                    self@.exports,
                    self@.userdata,
                    i as int,
                    before,
                    r,
                ) by {
                    assert(call_ensures(
                        hook,
                        (&self@.exports[i as int], before, self@.userdata),
                        next,
                    ));
                }
            }
            current = next;
            i = i + 1;
        }
        proof {
            assert(prepared(hook, self@.exports, self@.userdata, i as int, current, current));
        }
        let ghost hooked = current;
        let r = autoescape_off(current);
        proof {
            assert(call_ensures(builtins, (engine,), registered));
            assert(call_ensures(autoescape_off, (hooked,), r));
        }
        r
    }

    /// Runs the liftoff: takes note that the server is live, calls `hook` once for every
    /// module in registration order, each time with the module and the shared context, and
    /// returns the failures for reporting. Whatever the hooks return, the pending step and
    /// the verdict stay as they were.
    pub fn run_liftoff<H: Fn(&M, ArcRwMap) -> Result<(), String>>(&mut self, hook: H) -> (r: Vec<
        LiftoffFailure,
    >)
        requires
            forall|export: &M, userdata: ArcRwMap| call_requires(hook, (export, userdata)),
        ensures
            final(self)@ == (Assembled { state: lifted(old(self)@.state), ..old(self)@ }),
            exists|outcomes: Seq<Result<(), String>>|
                {
                    &&& notified(hook, old(self)@.exports, old(self)@.userdata, outcomes)
                    &&& r@.map_values(|f: LiftoffFailure| failure_view(f)) == liftoff_failures(
                        outcomes,
                    )
                },
    {
        proof {
            use_type_invariant(&*self);
        }
        self.lifecycle.go_live();
        let mut outcomes: Vec<Result<(), String>> = Vec::new();
        let mut i: usize = 0;
        while i < self.exports.len()
            invariant
                i <= self.exports@.len(),
                outcomes@.len() == i,
                forall|export: &M, userdata: ArcRwMap| call_requires(hook, (export, userdata)),
                forall|module: int|
                    0 <= module < outcomes@.len() ==> call_ensures(
                        hook,
                        (&self@.exports[module], self@.userdata),
                        #[trigger] outcomes@[module],
                    ),
            decreases self.exports@.len() - i,
        {
            let outcome = hook(&self.exports[i], share(&self.userdata));
            outcomes.push(outcome);
            i = i + 1;
        }
        let failures = Lifecycle::report(&outcomes);
        proof {
            assert(notified(hook, self@.exports, self@.userdata, outcomes@));
        }
        failures
    }
}

/// Behind the place where a module was put into the registry, the hooks are handed through
/// as before, one place later.
proof fn lemma_threaded_behind<M, S, H: Fn(&M, S, ArcRwMap) -> Result<S, String>>(
    hook: H,
    exports: Seq<M>,
    userdata: ArcRwMap,
    added: M,
    at: int,
    from: int,
    server: S,
    r: Result<S, String>,
)
    requires
        0 <= at <= from <= exports.len(),
    ensures
        threaded(hook, exports.insert(at, added), userdata, from + 1, server, r) == threaded(
            hook,
            exports,
            userdata,
            from,
            server,
            r,
        ),
    decreases exports.len() - from,
{
    let more = exports.insert(at, added);
    if from < exports.len() {
        assert(more[from + 1] == exports[from]);
        assert forall|outcome: Result<S, String>| #[trigger]
            call_ensures(hook, (&exports[from], server, userdata), outcome) implies (
        match outcome {
            Ok(next) => threaded(hook, more, userdata, from + 2, next, r),
            Err(message) => r == Err::<S, String>(message),
        }) == (match outcome {
            Ok(next) => threaded(hook, exports, userdata, from + 1, next, r),
            Err(message) => r == Err::<S, String>(message),
        }) by {
            if let Ok(next) = outcome {
                lemma_threaded_behind(hook, exports, userdata, added, at, from + 1, next, r);
            }
        }
    }
}

/// A module that implements nothing is not seen: where the hook of a module always returns
/// the server as it was handed in, putting that module into the registry, at any position,
/// changes nothing in what can come out of a phase.
pub proof fn lemma_idle_module_is_not_seen<M, S, H: Fn(&M, S, ArcRwMap) -> Result<S, String>>(
    hook: H,
    exports: Seq<M>,
    userdata: ArcRwMap,
    idle: M,
    at: int,
    from: int,
    server: S,
    r: Result<S, String>,
)
    requires
        0 <= from <= at <= exports.len(),
        forall|server: S, outcome: Result<S, String>| #[trigger]
            call_ensures(hook, (&idle, server, userdata), outcome) <==> outcome == Ok::<S, String>(
                server,
            ),
    ensures
        threaded(hook, exports.insert(at, idle), userdata, from, server, r) == threaded(
            hook,
            exports,
            userdata,
            from,
            server,
            r,
        ),
    decreases at - from,
{
    let more = exports.insert(at, idle);
    if from == at {
        assert(more[at] == idle);
        lemma_threaded_behind(hook, exports, userdata, idle, at, at, server, r);
        assert(call_ensures(hook, (&idle, server, userdata), Ok::<S, String>(server)));
    } else {
        assert(more[from] == exports[from]);
        assert forall|outcome: Result<S, String>| #[trigger]
            call_ensures(hook, (&exports[from], server, userdata), outcome) implies (
        match outcome {
            Ok(next) => threaded(hook, more, userdata, from + 1, next, r),
            Err(message) => r == Err::<S, String>(message),
        }) == (match outcome {
            Ok(next) => threaded(hook, exports, userdata, from + 1, next, r),
            Err(message) => r == Err::<S, String>(message),
        }) by {
            if let Ok(next) = outcome {
                lemma_idle_module_is_not_seen(
                    hook,
                    exports,
                    userdata,
                    idle,
                    at,
                    from + 1,
                    next,
                    r,
                );
            }
        }
    }
}

/// Behind the place where a module was put into the registry, the engine is handed through
/// the template hooks as before, one place later.
proof fn lemma_prepared_behind<M, E, H: Fn(&M, E, ArcRwMap) -> E>(
    hook: H,
    exports: Seq<M>,
    userdata: ArcRwMap,
    added: M,
    at: int,
    from: int,
    engine: E,
    r: E,
)
    requires
        0 <= at <= from <= exports.len(),
    ensures
        prepared(hook, exports.insert(at, added), userdata, from + 1, engine, r) == prepared(
            hook,
            exports,
            userdata,
            from,
            engine,
            r,
        ),
    decreases exports.len() - from,
{
    let more = exports.insert(at, added);
    if from < exports.len() {
        assert(more[from + 1] == exports[from]);
        assert forall|next: E| #[trigger]
            call_ensures(hook, (&exports[from], engine, userdata), next) implies prepared(
            hook,
            more,
            userdata,
            from + 2,
            next,
            r,
        ) == prepared(hook, exports, userdata, from + 1, next, r) by {
            lemma_prepared_behind(hook, exports, userdata, added, at, from + 1, next, r);
        }
    }
}

/// A module that implements nothing is not seen by the template engine: where the template
/// hook of a module always leaves the engine as it was handed in, putting that module into
/// the registry, at any position, changes nothing in how the engine can come out.
pub proof fn lemma_idle_module_leaves_engine<M, E, H: Fn(&M, E, ArcRwMap) -> E>(
    hook: H,
    exports: Seq<M>,
    userdata: ArcRwMap,
    idle: M,
    at: int,
    from: int,
    engine: E,
    r: E,
)
    requires
        0 <= from <= at <= exports.len(),
        forall|engine: E, next: E| #[trigger]
            call_ensures(hook, (&idle, engine, userdata), next) <==> next == engine,
    ensures
        prepared(hook, exports.insert(at, idle), userdata, from, engine, r) == prepared(
            hook,
            exports,
            userdata,
            from,
            engine,
            r,
        ),
    decreases at - from,
{
    let more = exports.insert(at, idle);
    if from == at {
        assert(more[at] == idle);
        lemma_prepared_behind(hook, exports, userdata, idle, at, at, engine, r);
        assert(call_ensures(hook, (&idle, engine, userdata), engine));
    } else {
        assert(more[from] == exports[from]);
        assert forall|next: E| #[trigger]
            call_ensures(hook, (&exports[from], engine, userdata), next) implies prepared(
            hook,
            more,
            userdata,
            from + 1,
            next,
            r,
        ) == prepared(hook, exports, userdata, from + 1, next, r) by {
            lemma_idle_module_leaves_engine(hook, exports, userdata, idle, at, from + 1, next, r);
        }
    }
}

} // verus!
