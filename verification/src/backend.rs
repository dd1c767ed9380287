use crate::package::Package;
use std::sync::Arc;
use vstd::prelude::*;

verus! {

/// The metadata collection of the `appstream` crate. A backend hands it out
/// and this library passes it on unread, so nothing is stated of its contents.
#[verifier::external_type_specification]
#[verifier::external_body]
pub struct ExCollection(appstream::Collection);

/// Why a backend could not be constructed or could not answer.
///
/// There is one kind of failure only: the causes differ from backend to
/// backend, and all a caller learns is that this backend has no answer now.
#[derive(Clone, Debug)]
pub struct BackendError {
    pub cause: String,
}

impl View for BackendError {
    type V = Seq<char>;

    open spec fn view(&self) -> Seq<char> {
        self.cause@
    }
}

/// What every package source offers.
///
/// Implementations answer from the native package system each time they are
/// asked, so nothing relates the results of two calls, and nothing is promised
/// of the order of the packages. An empty list says that nothing is installed;
/// a source that could not be asked returns an error instead.
///
/// A handle is shared between the registry and its callers, possibly on
/// several threads: both methods take `&self`, and an implementation has to
/// be `Send` and `Sync`.
pub trait Backend: Send + Sync {
    /// Lists the packages that the source considers installed.
    fn installed(&self) -> Result<Vec<Package>, BackendError>;

    /// Fetches the metadata collection of `package`.
    ///
    /// `package` is expected to come from `installed` of the same backend.
    /// For a package of another backend the answer is the implementation's
    /// own affair; it should be an error, since an `id` means nothing outside
    /// the backend that issued it.
    fn appstream(&self, package: &Package) -> Result<appstream::Collection, BackendError>;
}

/// A shared, reference-counted handle to a backend.
///
/// The registry keeps one and gives out references to it; a clone of
/// `backend` shares the same backend. Nobody holding a handle is the
/// backend's only user.
pub struct Handle {
    pub backend: Arc<dyn Backend>,
}

} // verus!
