//! The rate-limited progress counter.
//!
//! Every event bumps a counter; a status line is produced only when
//! `count & mask == 0`.  The caller measures how much wall-clock time passed
//! between two status lines and calls `adjust`, which halves or grows the
//! mask so that output keeps a roughly fixed cadence.
use vstd::prelude::*;

use crate::render::{dec_u64, pad_left, push_char, spec_dec_nat, spec_pad_left};

verus! {

/// `n + 1` on `u64`, with wrap-around.
pub open spec fn winc64(n: u64) -> u64 {
    if n == u64::MAX {
        0u64
    } else {
        (n + 1) as u64
    }
}

/// The status line: both totals right-aligned to eight columns, then the path.
pub open spec fn spec_status_line(total: u64, errors: u64, path: Seq<char>) -> Seq<char> {
    spec_pad_left(spec_dec_nat(total as nat), 8) + seq![' '] + spec_pad_left(
        spec_dec_nat(errors as nat),
        8,
    ) + seq![' '] + path
}

/// The final summary line.
pub open spec fn spec_summary_line(total: u64, errors: u64) -> Seq<char> {
    "Total: "@ + spec_dec_nat(total as nat) + ", errors: "@ + spec_dec_nat(errors as nat)
}

/// Counts visited and failed paths and rations status output.
pub struct Counter {
    pub total: u64,
    pub errors: u64,
    pub count: u64,
    pub mask: u64,
}

impl Counter {
    pub fn new() -> (r: Self)
        ensures
            r == (Counter { total: 0u64, errors: 0u64, count: 0u64, mask: 1u64 }),
    {
        Counter { total: 0, errors: 0, count: 0, mask: 1 }
    }

    /// Bumps the event counter; when it lines up with the mask, the status
    /// line to print comes back.
    fn tick(&mut self, path: &str) -> (r: Option<String>)
        ensures
            final(self).total == old(self).total,
            final(self).errors == old(self).errors,
            final(self).mask == old(self).mask,
            final(self).count == winc64(old(self).count),
            match r {
                Some(line) => (final(self).count & final(self).mask) == 0 && line@
                    == spec_status_line(final(self).total, final(self).errors, path@),
                None => (final(self).count & final(self).mask) != 0,
            },
    {
        if self.count == u64::MAX {
            self.count = 0;
        } else {
            self.count = self.count + 1;
        }
        if self.count & self.mask == 0 {
            let t = dec_u64(self.total);
            let mut line = pad_left(t.as_str(), 8);
            push_char(&mut line, ' ');
            let e = dec_u64(self.errors);
            let ep = pad_left(e.as_str(), 8);
            line.append(ep.as_str());
            push_char(&mut line, ' ');
            line.append(path);
            proof {
                assert(line@ =~= spec_status_line(self.total, self.errors, path@));
            }
            Some(line)
        } else {
            None
        }
    }

    /// Counts one visited path.
    pub fn notify(&mut self, path: &str) -> (r: Option<String>)
        ensures
            final(self).total == winc64(old(self).total),
            final(self).errors == old(self).errors,
            final(self).mask == old(self).mask,
            final(self).count == winc64(old(self).count),
            match r {
                Some(line) => (final(self).count & final(self).mask) == 0 && line@
                    == spec_status_line(final(self).total, final(self).errors, path@),
                None => (final(self).count & final(self).mask) != 0,
            },
    {
        if self.total == u64::MAX {
            self.total = 0;
        } else {
            self.total = self.total + 1;
        }
        self.tick(path)
    }

    /// Counts one failed path.
    pub fn error(&mut self, path: &str) -> (r: Option<String>)
        ensures
            final(self).total == old(self).total,
            final(self).errors == winc64(old(self).errors),
            final(self).mask == old(self).mask,
            final(self).count == winc64(old(self).count),
            match r {
                Some(line) => (final(self).count & final(self).mask) == 0 && line@
                    == spec_status_line(final(self).total, final(self).errors, path@),
                None => (final(self).count & final(self).mask) != 0,
            },
    {
        if self.errors == u64::MAX {
            self.errors = 0;
        } else {
            self.errors = self.errors + 1;
        }
        self.tick(path)
    }

    /// Adapts the mask after a status line was printed: printing came too
    /// slowly, so halve the mask; or too quickly, so widen it.
    pub fn adjust(&mut self, too_slow: bool, too_fast: bool)
        ensures
            final(self).total == old(self).total,
            final(self).errors == old(self).errors,
            final(self).count == old(self).count,
            final(self).mask == (if too_slow {
                old(self).mask >> 1u64
            } else if too_fast {
                (old(self).mask << 1u64) | 1u64
            } else {
                old(self).mask
            }),
    {
        if too_slow {
            self.mask = self.mask >> 1u64;
        } else if too_fast {
            self.mask = (self.mask << 1u64) | 1u64;
        }
    }

    /// The final summary line with cumulative totals.
    pub fn summary(&self) -> (r: String)
        ensures
            r@ == spec_summary_line(self.total, self.errors),
    {
        let mut line = "Total: ".to_owned();
        let t = dec_u64(self.total);
        line.append(t.as_str());
        line.append(", errors: ");
        let e = dec_u64(self.errors);
        line.append(e.as_str());
        proof {
            assert(line@ =~= spec_summary_line(self.total, self.errors));
        }
        line
    }
}

} // verus!
