use crate::error::Warning;
use vstd::prelude::*;

verus! {

/// The embedder's sink for what a script makes visible: traced lines and
/// warnings.
pub trait Host {
    fn trace(&mut self, message: &Vec<char>);

    fn warn(&mut self, warning: &Warning);
}

/// A host that drops everything.
pub struct NoOpHost;

impl Host for NoOpHost {
    fn trace(&mut self, message: &Vec<char>) {
    }

    fn warn(&mut self, warning: &Warning) {
    }
}

/// A host that keeps every line, traces and warnings alike, in order.
pub struct LoggedHost {
    pub logs: Vec<Vec<char>>,
}

impl LoggedHost {
    pub fn new() -> (r: LoggedHost)
        ensures
            r.logs@.len() == 0,
    {
        LoggedHost { logs: Vec::new() }
    }

    /// Records a traced line.
    pub fn log_trace(&mut self, message: &Vec<char>)
        ensures
            final(self).logs@.len() == old(self).logs@.len() + 1,
            final(self).logs@.last()@ == message@,
            forall|i: int| 0 <= i < old(self).logs@.len() ==> #[trigger] final(self).logs@[i] == old(self).logs@[i],
    {
        self.logs.push(crate::object::copy_chars(message));
    }

    /// Records the line of a warning.
    pub fn log_warning(&mut self, warning: &Warning)
        ensures
            final(self).logs@.len() == old(self).logs@.len() + 1,
            final(self).logs@.last()@ == warning.text_spec(),
            forall|i: int| 0 <= i < old(self).logs@.len() ==> #[trigger] final(self).logs@[i] == old(self).logs@[i],
    {
        self.logs.push(warning.text());
    }
}

impl Host for LoggedHost {
    fn trace(&mut self, message: &Vec<char>) {
        self.log_trace(message);
    }

    fn warn(&mut self, warning: &Warning) {
        self.log_warning(warning);
    }
}

} // verus!
