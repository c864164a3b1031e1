use vstd::prelude::*;

verus! {

/// A last-modified time of the rules file, as seconds and nanoseconds since
/// the Unix epoch.
pub struct Stamp {
    pub secs: u64,
    pub nanos: u32,
}

/// Decides when the rules file is to be loaded again, from the
/// last-modified times that a poll of the file reports.
pub struct RulesWatcher {
    pub last_modified: Option<Stamp>,
}

impl RulesWatcher {
    pub fn new() -> (r: RulesWatcher)
        ensures
            r.last_modified is None,
    {
        RulesWatcher { last_modified: None }
    }

    /// Records the time that a poll reported. The first one is only
    /// recorded; after that the result says whether it differs from the one
    /// before, that is whether the rules are to be loaded again.
    pub fn observe(&mut self, modified: Stamp) -> (r: bool)
        ensures
            final(self).last_modified == Some(modified),
            r == (match old(self).last_modified {
                None => false,
                Some(prev) => prev != modified,
            }),
    {
        let changed = match &self.last_modified {
            None => false,
            Some(prev) => prev.secs != modified.secs || prev.nanos != modified.nanos,
        };
        self.last_modified = Some(modified);
        changed
    }
}

} // verus!
