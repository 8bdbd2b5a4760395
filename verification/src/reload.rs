//! The hot-reloadable current proxy list.
//!
//! A single process-wide cell holds the currently installed list as a
//! reference-counted snapshot. Every new connection takes its own
//! handle at admission time and keeps that exact list for its whole
//! lifetime. A reload only ever installs a whole new snapshot — an
//! installed list is never mutated — so a reader sees either the old
//! or the new list, never a torn one, and a reload never changes what
//! an already-admitted connection holds.

use vstd::prelude::*;
use std::sync::Arc;
use crate::error::LoadError;
use crate::list::Endpoint;

verus! {

/// The process-wide cell with the currently installed snapshot.
///
/// Holds an `arc_swap::ArcSwap` so that readers never block an
/// installation and vice versa.
#[verifier::external_body]
pub struct CurrentList {
    cell: arc_swap::ArcSwap<Vec<Endpoint>>,
}

/// The endpoints of the snapshot the cell currently holds.
pub uninterp spec fn installed(c: CurrentList) -> Seq<Endpoint>;

impl CurrentList {
    /// Relies on arc_swap::ArcSwap::from_pointee, which wraps the list
    /// in a fresh reference-counted snapshot and makes it current.
    #[verifier::external_body]
    pub fn new(initial: Vec<Endpoint>) -> (r: CurrentList)
        ensures
            installed(r) == initial@,
    {
        CurrentList { cell: arc_swap::ArcSwap::from_pointee(initial) }
    }

    /// Relies on arc_swap::ArcSwap::load_full, which returns one more
    /// reference-counted handle to the installed snapshot without
    /// blocking and without changing the cell.
    #[verifier::external_body]
    pub fn snapshot(&self) -> (r: Arc<Vec<Endpoint>>)
        ensures
            r@ == installed(*self),
    {
        self.cell.load_full()
    }

    /// Relies on arc_swap::ArcSwap::store, which atomically replaces
    /// the installed snapshot with the given one. Handles taken
    /// earlier are values of their own and are not touched.
    #[verifier::external_body]
    pub fn install(&mut self, list: Arc<Vec<Endpoint>>)
        ensures
            installed(*final(self)) == list@,
    {
        self.cell.store(list);
    }
}

/// Applies the outcome of a fresh list load to the cell: only a
/// successful load installs its list as the new snapshot; a failed one
/// leaves the installed snapshot untouched and reports the error.
pub fn apply_reload(cell: &mut CurrentList, loaded: Result<Vec<Endpoint>, LoadError>) -> (r:
    Result<(), LoadError>)
    ensures
        match loaded {
            Ok(eps) => r is Ok && installed(*final(cell)) == eps@,
            Err(e) => r == Err::<(), LoadError>(e) && *final(cell) == *old(cell),
        },
{
    match loaded {
        Ok(eps) => {
            cell.install(Arc::new(eps));
            Ok(())
        }
        Err(e) => Err(e),
    }
}

} // verus!
