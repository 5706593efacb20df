//! Process-wide editor state: the file being edited and the shutdown flag.

use vstd::prelude::*;

verus! {

/// Shared state of the whole editor session: which file is open and
/// whether the main loop should stop.
pub struct Global {
    current_file: String,
    shutdown: bool,
}

impl Global {
    /// The name of the file currently being edited.
    pub closed spec fn spec_current_file(&self) -> Seq<char> {
        self.current_file@
    }

    /// Whether shutdown has been requested.
    pub closed spec fn spec_shutdown(&self) -> bool {
        self.shutdown
    }

    /// A fresh session: no file, not shutting down.
    pub fn new() -> (g: Global)
        ensures
            g.spec_current_file() == Seq::<char>::empty(),
            !g.spec_shutdown(),
    {
        Global { current_file: String::new(), shutdown: false }
    }

    pub fn current_file(&self) -> (r: &str)
        ensures
            r@ == self.spec_current_file(),
    {
        self.current_file.as_str()
    }

    pub fn shutdown(&self) -> (r: bool)
        ensures
            r == self.spec_shutdown(),
    {
        self.shutdown
    }

    /// Request shutdown; the flag is never cleared again.
    pub fn set_shutdown(&mut self)
        ensures
            final(self).spec_shutdown(),
            final(self).spec_current_file() == old(self).spec_current_file(),
    {
        self.shutdown = true;
    }
}

} // verus!
