use vstd::prelude::*;

verus! {

/// Counts kept while writing: rows made, values stored, and value arrays grown.
#[derive(Debug, Clone, Copy, PartialEq, Eq, Structural)]
pub struct Stats {
    pub keys: usize,
    pub oms: usize,
    pub resizes: usize,
}

impl Stats {
    /// All counts at zero.
    pub fn new() -> (r: Stats)
        ensures
            r == (Stats { keys: 0, oms: 0, resizes: 0 }),
    {
        Stats { keys: 0, oms: 0, resizes: 0 }
    }

    /// Counts one more row; a count stays at its maximum.
    pub fn inc_keys(&mut self)
        ensures
            *final(self) == (Stats {
                keys: if old(self).keys == usize::MAX {
                    usize::MAX
                } else {
                    (old(self).keys + 1) as usize
                },
                ..*old(self)
            }),
    {
        self.keys = self.keys.saturating_add(1);
    }

    /// Counts one more stored value; a count stays at its maximum.
    pub fn inc_oms(&mut self)
        ensures
            *final(self) == (Stats {
                oms: if old(self).oms == usize::MAX {
                    usize::MAX
                } else {
                    (old(self).oms + 1) as usize
                },
                ..*old(self)
            }),
    {
        self.oms = self.oms.saturating_add(1);
    }

    /// Counts one more growth of a value array; a count stays at its maximum.
    pub fn inc_resizes(&mut self)
        ensures
            *final(self) == (Stats {
                resizes: if old(self).resizes == usize::MAX {
                    usize::MAX
                } else {
                    (old(self).resizes + 1) as usize
                },
                ..*old(self)
            }),
    {
        self.resizes = self.resizes.saturating_add(1);
    }
}

/// Sets every count back to zero.
pub fn clear_stats(stats: &mut Stats)
    ensures
        *final(stats) == (Stats { keys: 0, oms: 0, resizes: 0 }),
{
    stats.keys = 0;
    stats.oms = 0;
    stats.resizes = 0;
}

} // verus!
