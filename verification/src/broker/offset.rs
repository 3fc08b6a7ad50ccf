//! The focus-origin offset that connection threads share.

use std::sync::{Arc, Mutex};
use vstd::prelude::*;

verus! {

/// `std::sync::Mutex`, as an opaque type.
#[verifier::external_type_specification]
#[verifier::external_body]
#[verifier::reject_recursive_types(T)]
pub struct ExMutex<T: ?Sized>(Mutex<T>);

/// `Mutex::new`: an unlocked mutex that holds `value`. What it holds later is
/// up to every thread that shares it, so nothing is claimed of the result.
#[verifier::external_body]
fn new_cell(value: Option<(i32, i32)>) -> Mutex<Option<(i32, i32)>> {
    Mutex::new(value)
}

/// `Mutex::lock`, to store `value`. A poisoned mutex keeps what it holds.
/// Another thread may store again at any moment, so nothing is claimed.
#[verifier::external_body]
fn store(cell: &Mutex<Option<(i32, i32)>>, value: Option<(i32, i32)>) {
    if let Ok(mut guard) = cell.lock() {
        *guard = value;
    }
}

/// `Mutex::lock`, to copy what it holds; `None` for a poisoned mutex. The value
/// is the last one that some thread stored, so nothing is claimed of it.
#[verifier::external_body]
fn load(cell: &Mutex<Option<(i32, i32)>>) -> Option<(i32, i32)> {
    cell.lock().ok().and_then(|guard| *guard)
}

/// The origin of the focused surface on the host screen, shared by the threads
/// of all connections. `None` means that no surface is focused and caret
/// coordinates pass unchanged.
///
/// The value is behind a lock that every thread can take between two calls:
/// the calls themselves promise nothing about it.
#[derive(Clone, Debug)]
pub struct SharedOffset(Arc<Mutex<Option<(i32, i32)>>>);

impl SharedOffset {
    /// An offset that starts as `None`.
    pub fn new() -> SharedOffset {
        SharedOffset(Arc::new(new_cell(None)))
    }

    /// Stores an offset for every thread to read.
    pub fn set(&self, value: Option<(i32, i32)>) {
        store(&self.0, value);
    }

    /// The offset stored last.
    pub fn get(&self) -> Option<(i32, i32)> {
        load(&self.0)
    }
}

impl Default for SharedOffset {
    fn default() -> SharedOffset {
        SharedOffset::new()
    }
}

} // verus!
