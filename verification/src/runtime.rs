//! The task runtime that the server's futures are run on. The library runs
//! no task itself; it only says which runtime is meant.

use vstd::prelude::*;

verus! {

/// The runtimes that the server can be run on.
#[derive(Clone, Copy, Debug, PartialEq, Eq, Structural)]
pub enum AsyncRuntime {
    AsyncStd,
    Tokio,
}

/// The runtime that the tests run on: async-std, since that is what the
/// server they talk to is built on. The caller makes it the default runtime
/// before a test starts.
pub fn test_setup() -> (runtime: AsyncRuntime)
    ensures
        runtime == AsyncRuntime::AsyncStd,
{
    AsyncRuntime::AsyncStd
}

} // verus!
