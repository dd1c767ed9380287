use crate::attempts::{
    attempt_of, failed, failures_after, failures_of, lemma_failures, lemma_registry_keys,
    registry_after, registry_of, report, succeeded, Attempt, DiagnosticView,
};
use crate::backend::{BackendError, Handle};
use crate::registry::Registry;
use std::sync::Arc;
use vstd::prelude::*;

verus! {

/// The part of a backend module that brings its backend up.
///
/// Construction talks to the native package system and may fail, for reasons
/// that are the module's own. `appstream_cache` and `locale` are the startup
/// context that the caller of the builder supplies; a module uses what it
/// needs of them and ignores the rest.
pub trait Constructor<C> {
    fn construct(&self, appstream_cache: &Arc<C>, locale: &str) -> Result<Handle, BackendError>;
}

/// One backend module of this build: the identifier under which its backend
/// is registered, and its constructor. The identifier is fixed for the kind
/// of backend and does not depend on whether construction succeeds.
#[verifier::reject_recursive_types(C)]
pub struct Module<C> {
    pub identifier: &'static str,
    pub constructor: Box<dyn Constructor<C>>,
}

/// The report of a backend that could not be constructed. It is meant for the
/// log; the registry's callers never see it.
#[derive(Clone, Debug)]
pub struct Diagnostic {
    pub identifier: &'static str,
    pub error: BackendError,
}

impl View for Diagnostic {
    type V = DiagnosticView;

    open spec fn view(&self) -> DiagnosticView {
        DiagnosticView { identifier: self.identifier@, cause: self.error@ }
    }
}

/// `attempts` holds one attempt for each module, in the modules' order and
/// under the modules' identifiers.
pub open spec fn attempts_cover<C>(attempts: Seq<Attempt>, modules: Seq<Module<C>>) -> bool {
    &&& attempts.len() == modules.len()
    &&& forall|i: int|
        0 <= i < modules.len() ==> (#[trigger] attempts[i]).identifier == modules[i].identifier@
}

/// The views of a list of diagnostics, in the same order.
pub open spec fn diagnostic_views(diagnostics: Seq<Diagnostic>) -> Seq<DiagnosticView> {
    Seq::new(diagnostics.len(), |i: int| diagnostics[i]@)
}

/// Some module bears the identifier `id`.
pub open spec fn names_module<C>(modules: Seq<Module<C>>, id: Seq<char>) -> bool {
    exists|i: int| 0 <= i < modules.len() && (#[trigger] modules[i]).identifier@ == id
}

/// Some diagnostic is about the identifier `id`.
pub open spec fn reported(diagnostics: Seq<Diagnostic>, id: Seq<char>) -> bool {
    exists|k: int| 0 <= k < diagnostics.len() && (#[trigger] diagnostics[k]).identifier@ == id
}

/// What a build leaves is accounted for by its modules: every key of the
/// registry and every diagnostic bears the identifier of a module, and every
/// module has left an entry under its identifier or a diagnostic about it.
pub proof fn lemma_build_accounts<C>(
    modules: Seq<Module<C>>,
    attempts: Seq<Attempt>,
    registry: Map<Seq<char>, Handle>,
    diagnostics: Seq<Diagnostic>,
)
    requires
        attempts_cover(attempts, modules),
        registry == registry_of(attempts),
        diagnostic_views(diagnostics) == failures_of(attempts),
    ensures
        forall|id: Seq<char>| registry.dom().contains(id) ==> names_module(modules, id),
        forall|k: int|
            0 <= k < diagnostics.len() ==> names_module(
                modules,
                (#[trigger] diagnostics[k]).identifier@,
            ),
        forall|i: int|
            0 <= i < modules.len() ==> registry.dom().contains((#[trigger] modules[i]).identifier@)
                || reported(diagnostics, modules[i].identifier@),
{
    lemma_registry_keys(attempts);
    lemma_failures(attempts);
    let reports = diagnostic_views(diagnostics);
    assert forall|id: Seq<char>| registry.dom().contains(id) implies names_module(modules, id) by {
        let i = choose|i: int| #[trigger] succeeded(attempts, i) && attempts[i].identifier == id;
        assert(modules[i].identifier@ == id);
    }
    assert forall|k: int| 0 <= k < diagnostics.len() implies names_module(
        modules,
        (#[trigger] diagnostics[k]).identifier@,
    ) by {
        assert(reports[k] == diagnostics[k]@);
        assert(reports.contains(reports[k]));
        let i = choose|i: int| #[trigger] failed(attempts, i) && report(attempts, i) == reports[k];
        assert(modules[i].identifier@ == diagnostics[k].identifier@);
    }
    assert forall|i: int| 0 <= i < modules.len() implies registry.dom().contains(
        (#[trigger] modules[i]).identifier@,
    ) || reported(diagnostics, modules[i].identifier@) by {
        assert(attempts[i].identifier == modules[i].identifier@);
        if succeeded(attempts, i) {
        } else {
            assert(failed(attempts, i));
            let k = choose|k: int| 0 <= k < reports.len() && reports[k] == report(attempts, i);
            assert(diagnostics[k]@ == reports[k]);
            assert(diagnostics[k].identifier@ == modules[i].identifier@);
        }
    }
}

impl Registry {
    /// Takes in the outcome of constructing the backend `identifier`.
    ///
    /// A handle is registered under the identifier. A failure leaves the
    /// registry unchanged and comes back as a diagnostic for the log.
    pub fn record(&mut self, identifier: &'static str, outcome: Result<Handle, BackendError>) -> (diagnostic:
        Option<Diagnostic>)
        ensures
            final(self)@ == registry_after(old(self)@, attempt_of(identifier@, outcome)),
            match outcome {
                Ok(_) => diagnostic is None,
                Err(error) => diagnostic matches Some(d) && d@ == (DiagnosticView {
                    identifier: identifier@,
                    cause: error@,
                }),
            },
    {
        match outcome {
            Ok(handle) => {
                self.insert(identifier, handle);
                None
            },
            Err(error) => Some(Diagnostic { identifier, error }),
        }
    }
}

/// Builds the registry from the backend modules of this build.
///
/// Each module's constructor is called once, in the order of `modules`, with
/// the startup context. A backend that comes up is registered under its
/// module's identifier. One that does not is left out and reported in the
/// second component; the build goes on with the next module. However many
/// constructors fail, a registry comes back, empty if none succeeded.
///
/// What the constructors return is theirs to decide, so the contract speaks
/// of some run of attempts, one per module: the registry and the diagnostics
/// are those that this run leaves. In particular every key and every
/// diagnostic bears the identifier of a module, and every module has left an
/// entry or a diagnostic.
pub fn backends<C>(modules: &[Module<C>], appstream_cache: &Arc<C>, locale: &str) -> (built: (
    Registry,
    Vec<Diagnostic>,
))
    ensures
        exists|attempts: Seq<Attempt>|
            {
                &&& attempts_cover(attempts, modules@)
                &&& built.0@ == registry_of(attempts)
                &&& diagnostic_views(built.1@) == #[trigger] failures_of(attempts)
            },
        forall|id: Seq<char>| built.0@.dom().contains(id) ==> names_module(modules@, id),
        forall|k: int|
            0 <= k < built.1@.len() ==> names_module(modules@, (#[trigger] built.1@[k]).identifier@),
        forall|i: int|
            0 <= i < modules@.len() ==> built.0@.dom().contains(
                (#[trigger] modules@[i]).identifier@,
            ) || reported(built.1@, modules@[i].identifier@),
{
    let mut registry = Registry::new();
    let mut diagnostics: Vec<Diagnostic> = Vec::new();
    let ghost mut attempts: Seq<Attempt> = Seq::empty();
    let mut at: usize = 0;
    while at < modules.len()
        invariant
            at <= modules@.len(),
            attempts_cover(attempts, modules@.take(at as int)),
            registry@ == registry_of(attempts),
            diagnostic_views(diagnostics@) == failures_of(attempts),
        decreases modules@.len() - at,
    {
        let module = &modules[at];
        let outcome = module.constructor.construct(appstream_cache, locale);
        let ghost attempt = attempt_of(module.identifier@, outcome);
        let ghost before = diagnostics@;
        let diagnostic = registry.record(module.identifier, outcome);
        match diagnostic {
            Some(d) => {
                diagnostics.push(d);
            },
            None => {},
        }
        proof {
            assert(attempts.push(attempt).drop_last() =~= attempts);
            assert(diagnostic_views(diagnostics@) =~= failures_after(
                diagnostic_views(before),
                attempt,
            ));
            attempts = attempts.push(attempt);
        }
        at += 1;
    }
    proof {
        assert(modules@.take(at as int) =~= modules@);
        lemma_build_accounts(modules@, attempts, registry@, diagnostics@);
    }
    (registry, diagnostics)
}

} // verus!
