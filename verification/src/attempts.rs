use crate::backend::{BackendError, Handle};
use vstd::prelude::*;

verus! {

/// What a [`Diagnostic`] holds, as mathematical values.
pub struct DiagnosticView {
    pub identifier: Seq<char>,
    pub cause: Seq<char>,
}

/// One attempt to construct a backend: the module's identifier and what came
/// of it, a handle or the cause of the failure.
pub struct Attempt {
    pub identifier: Seq<char>,
    pub outcome: Result<Handle, Seq<char>>,
}

/// The attempt that the outcome of a constructor stands for.
pub open spec fn attempt_of(identifier: Seq<char>, outcome: Result<Handle, BackendError>) -> Attempt {
    Attempt {
        identifier,
        outcome: match outcome {
            Ok(handle) => Ok(handle),
            Err(error) => Err(error@),
        },
    }
}

/// The registry after one more attempt: a handle is inserted under the
/// module's identifier, a failure leaves the registry as it was.
pub open spec fn registry_after(before: Map<Seq<char>, Handle>, attempt: Attempt) -> Map<
    Seq<char>,
    Handle,
> {
    match attempt.outcome {
        Ok(handle) => before.insert(attempt.identifier, handle),
        Err(_) => before,
    }
}

/// The diagnostics after one more attempt: a failure adds its report at the
/// end, a success adds nothing.
pub open spec fn failures_after(before: Seq<DiagnosticView>, attempt: Attempt) -> Seq<
    DiagnosticView,
> {
    match attempt.outcome {
        Ok(_) => before,
        Err(cause) => before.push(DiagnosticView { identifier: attempt.identifier, cause }),
    }
}

/// The registry that a run of attempts leaves, taken in their order from an
/// empty registry.
pub open spec fn registry_of(attempts: Seq<Attempt>) -> Map<Seq<char>, Handle>
    decreases attempts.len(),
{
    if attempts.len() == 0 {
        Map::empty()
    } else {
        registry_after(registry_of(attempts.drop_last()), attempts.last())
    }
}

/// The diagnostics that a run of attempts leaves, in the order of the
/// attempts.
pub open spec fn failures_of(attempts: Seq<Attempt>) -> Seq<DiagnosticView>
    decreases attempts.len(),
{
    if attempts.len() == 0 {
        Seq::empty()
    } else {
        failures_after(failures_of(attempts.drop_last()), attempts.last())
    }
}

/// The attempt at `i` gave a handle.
pub open spec fn succeeded(attempts: Seq<Attempt>, i: int) -> bool {
    0 <= i < attempts.len() && attempts[i].outcome is Ok
}

/// The attempt at `i` failed.
pub open spec fn failed(attempts: Seq<Attempt>, i: int) -> bool {
    0 <= i < attempts.len() && attempts[i].outcome is Err
}

/// No identifier is attempted twice.
pub open spec fn distinct_identifiers(attempts: Seq<Attempt>) -> bool {
    forall|i: int, j: int|
        0 <= i < j < attempts.len() ==> attempts[i].identifier != attempts[j].identifier
}

/// The report that the failed attempt at `i` leaves.
pub open spec fn report(attempts: Seq<Attempt>, i: int) -> DiagnosticView {
    DiagnosticView { identifier: attempts[i].identifier, cause: attempts[i].outcome->Err_0 }
}

/// The registry's keys are the identifiers of the attempts that succeeded,
/// and no others; there are finitely many.
pub proof fn lemma_registry_keys(attempts: Seq<Attempt>)
    ensures
        registry_of(attempts).dom().finite(),
        forall|id: Seq<char>|
            registry_of(attempts).dom().contains(id) <==> exists|i: int|
                #[trigger] succeeded(attempts, i) && attempts[i].identifier == id,
    decreases attempts.len(),
{
    if attempts.len() > 0 {
        let front = attempts.drop_last();
        let last = attempts.len() - 1;
        lemma_registry_keys(front);
        assert forall|id: Seq<char>| registry_of(attempts).dom().contains(id) implies exists|
            i: int,
        |
            #[trigger] succeeded(attempts, i) && attempts[i].identifier == id by {
            if succeeded(attempts, last) && attempts[last].identifier == id {
            } else {
                let i = choose|i: int| #[trigger] succeeded(front, i) && front[i].identifier == id;
                assert(succeeded(attempts, i));
            }
        }
        assert forall|id: Seq<char>|
            (exists|i: int| #[trigger] succeeded(attempts, i) && attempts[i].identifier == id)
            implies registry_of(attempts).dom().contains(id) by {
            let i = choose|i: int| #[trigger] succeeded(attempts, i) && attempts[i].identifier == id;
            if i < last {
                assert(succeeded(front, i));
            }
        }
    }
}

/// Under an identifier the registry holds the handle of the last attempt that
/// succeeded under it.
pub proof fn lemma_registry_handle(attempts: Seq<Attempt>, i: int)
    requires
        succeeded(attempts, i),
        forall|j: int|
            i < j && #[trigger] succeeded(attempts, j) ==> attempts[j].identifier
                != attempts[i].identifier,
    ensures
        registry_of(attempts).dom().contains(attempts[i].identifier),
        registry_of(attempts)[attempts[i].identifier] == attempts[i].outcome->Ok_0,
    decreases attempts.len(),
{
    let front = attempts.drop_last();
    let last = attempts.len() - 1;
    if i < last {
        assert(succeeded(front, i));
        assert forall|j: int| i < j && #[trigger] succeeded(front, j) implies front[j].identifier
            != front[i].identifier by {
            assert(succeeded(attempts, j));
        }
        lemma_registry_handle(front, i);
        if attempts[last].outcome is Ok {
            assert(succeeded(attempts, last));
        }
    }
}

/// Where no identifier is attempted twice, the registry holds exactly the
/// backends that were constructed, each under its module's identifier: every
/// success is found there with its handle, no failure has an entry, and each
/// attempt has left either an entry or a diagnostic.
pub proof fn lemma_registry_exact(attempts: Seq<Attempt>)
    requires
        distinct_identifiers(attempts),
    ensures
        forall|i: int| #[trigger]
            succeeded(attempts, i) ==> registry_of(attempts).dom().contains(
                attempts[i].identifier,
            ) && registry_of(attempts)[attempts[i].identifier] == attempts[i].outcome->Ok_0,
        forall|i: int| #[trigger]
            failed(attempts, i) ==> !registry_of(attempts).dom().contains(attempts[i].identifier),
        registry_of(attempts).len() + failures_of(attempts).len() == attempts.len(),
    decreases attempts.len(),
{
    lemma_registry_keys(attempts);
    assert forall|i: int| #[trigger] succeeded(attempts, i) implies registry_of(
        attempts,
    ).dom().contains(attempts[i].identifier) && registry_of(attempts)[attempts[i].identifier]
        == attempts[i].outcome->Ok_0 by {
        lemma_registry_handle(attempts, i);
    }
    assert forall|i: int| #[trigger] failed(attempts, i) implies !registry_of(
        attempts,
    ).dom().contains(attempts[i].identifier) by {
        if registry_of(attempts).dom().contains(attempts[i].identifier) {
            let j = choose|j: int| #[trigger]
                succeeded(attempts, j) && attempts[j].identifier == attempts[i].identifier;
            assert(i != j);
        }
    }
    if attempts.len() > 0 {
        let front = attempts.drop_last();
        let last = attempts.len() - 1;
        assert(distinct_identifiers(front)) by {
            assert forall|i: int, j: int| 0 <= i < j < front.len() implies front[i].identifier
                != front[j].identifier by {
                assert(attempts[i].identifier != attempts[j].identifier);
            }
        }
        lemma_registry_exact(front);
        lemma_registry_keys(front);
        if attempts[last].outcome is Ok {
            assert(!registry_of(front).dom().contains(attempts[last].identifier)) by {
                if registry_of(front).dom().contains(attempts[last].identifier) {
                    let j = choose|j: int| #[trigger]
                        succeeded(front, j) && front[j].identifier == attempts[last].identifier;
                    assert(attempts[j].identifier != attempts[last].identifier);
                }
            }
        }
    }
}

/// The registry is empty exactly where no attempt succeeded. An empty
/// registry is a result like any other, not a failure of the build.
pub proof fn lemma_registry_empty(attempts: Seq<Attempt>)
    ensures
        (forall|i: int| 0 <= i < attempts.len() ==> #[trigger] failed(attempts, i)) <==> registry_of(
            attempts,
        ) == Map::<Seq<char>, Handle>::empty(),
{
    lemma_registry_keys(attempts);
    if forall|i: int| 0 <= i < attempts.len() ==> #[trigger] failed(attempts, i) {
        assert forall|id: Seq<char>| !registry_of(attempts).dom().contains(id) by {
            if registry_of(attempts).dom().contains(id) {
                let i = choose|i: int| #[trigger] succeeded(attempts, i) && attempts[i].identifier == id;
                assert(failed(attempts, i));
            }
        }
        assert(registry_of(attempts) =~= Map::<Seq<char>, Handle>::empty());
    } else {
        let i = choose|i: int| 0 <= i < attempts.len() && !#[trigger] failed(attempts, i);
        assert(succeeded(attempts, i));
        assert(registry_of(attempts).dom().contains(attempts[i].identifier));
    }
}

/// The keys of the registry depend on the identifiers and on which attempts
/// succeeded, and on nothing else: two runs over the same identifiers in which
/// the same attempts succeed leave the same keys, whatever handles and causes
/// they produced.
pub proof fn lemma_keys_stable(first: Seq<Attempt>, second: Seq<Attempt>)
    requires
        first.len() == second.len(),
        forall|i: int| 0 <= i < first.len() ==> first[i].identifier == second[i].identifier,
        forall|i: int| 0 <= i < first.len() ==> (first[i].outcome is Ok <==> second[i].outcome is Ok),
    ensures
        registry_of(first).dom() == registry_of(second).dom(),
{
    lemma_registry_keys(first);
    lemma_registry_keys(second);
    assert forall|id: Seq<char>| registry_of(first).dom().contains(id) implies registry_of(
        second,
    ).dom().contains(id) by {
        let i = choose|i: int| #[trigger] succeeded(first, i) && first[i].identifier == id;
        assert(succeeded(second, i));
    }
    assert forall|id: Seq<char>| registry_of(second).dom().contains(id) implies registry_of(
        first,
    ).dom().contains(id) by {
        let i = choose|i: int| #[trigger] succeeded(second, i) && second[i].identifier == id;
        assert(succeeded(first, i));
    }
    assert(registry_of(first).dom() =~= registry_of(second).dom());
}

/// The diagnostics are the reports of the attempts that failed, and no
/// others.
pub proof fn lemma_failures(attempts: Seq<Attempt>)
    ensures
        forall|i: int| #[trigger]
            failed(attempts, i) ==> failures_of(attempts).contains(report(attempts, i)),
        forall|d: DiagnosticView|
            failures_of(attempts).contains(d) ==> exists|i: int|
                #[trigger] failed(attempts, i) && report(attempts, i) == d,
    decreases attempts.len(),
{
    if attempts.len() > 0 {
        let front = attempts.drop_last();
        let last = attempts.len() - 1;
        lemma_failures(front);
        let all = failures_of(attempts);
        let before = failures_of(front);
        assert forall|i: int| #[trigger] failed(attempts, i) implies all.contains(
            report(attempts, i),
        ) by {
            if i < last {
                assert(failed(front, i));
                let k = choose|k: int| 0 <= k < before.len() && before[k] == report(front, i);
                assert(all[k] == report(attempts, i));
            } else {
                assert(all[all.len() - 1] == report(attempts, i));
            }
        }
        assert forall|d: DiagnosticView| all.contains(d) implies exists|i: int|
            #[trigger] failed(attempts, i) && report(attempts, i) == d by {
            let k = choose|k: int| 0 <= k < all.len() && all[k] == d;
            if k < before.len() {
                assert(before[k] == d);
                assert(before.contains(d));
                let i = choose|i: int| #[trigger] failed(front, i) && report(front, i) == d;
                assert(failed(attempts, i) && report(attempts, i) == d);
            } else {
                assert(failed(attempts, last) && report(attempts, last) == d);
            }
        }
    }
}

} // verus!
