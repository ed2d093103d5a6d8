//! The Workspace's timers, in milliseconds on a clock that only goes forward: the delayed save of
//! the state, the periodic refresh of the listings, the end of a type-ahead search and of a
//! tile's pressed look.
use vstd::prelude::*;

verus! {

/// How often the listings and the Recycler are looked at again.
pub const REFRESH_MS: u64 = 5000;

pub struct Timers {
    /// When the state is to be saved, if a change waits for it.
    pub save_at: Option<u64>,
    pub refresh_at: u64,
    /// When the type-ahead search ends.
    pub type_until: Option<u64>,
    /// The Dock tile that looks pressed, and until when.
    pub pressed_until: Option<(usize, u64)>,
}

/// What is due at a tick.
#[derive(Clone, Copy, PartialEq, Eq, Debug, Structural)]
pub struct Due {
    pub save: bool,
    /// The listings and the Recycler are to be looked at again.
    pub refresh: bool,
    /// The type-ahead search is over: what was typed is forgotten.
    pub typeahead_over: bool,
    /// The pressed tile looks normal again.
    pub unpressed: bool,
}

pub open spec fn earlier(a: Option<u64>, b: u64) -> Option<u64> {
    match a {
        Some(x) => Some(if x <= b { x } else { b }),
        None => Some(b),
    }
}

/// How long after a change the state is saved.
pub const SAVE_DELAY_MS: u64 = 2000;

impl Timers {
    /// A change to the state: it is saved two seconds from `now`, however many changes follow.
    pub fn dirty(&mut self, now: u64)
        requires
            now <= u64::MAX - SAVE_DELAY_MS,
        ensures
            final(self).save_at == Some((now + SAVE_DELAY_MS) as u64),
            final(self).refresh_at == old(self).refresh_at,
            final(self).type_until == old(self).type_until,
            final(self).pressed_until == old(self).pressed_until,
    {
        self.save_at = Some(now + SAVE_DELAY_MS);
    }

    /// The earliest time something is due.
    pub open spec fn deadline_spec(&self) -> u64 {
        let a = match self.save_at { Some(s) => if s <= self.refresh_at { s } else { self.refresh_at }, None => self.refresh_at };
        let b = match self.type_until { Some(t) => if t <= a { t } else { a }, None => a };
        match self.pressed_until { Some((_, p)) => if p <= b { p } else { b }, None => b }
    }

    /// When the next tick is due: the earliest of the timers (the refresh is always set).
    pub fn next_deadline(&self) -> (t: Option<u64>)
        ensures
            t == Some(self.deadline_spec()),
            t->0 <= self.refresh_at,
            self.save_at matches Some(s) ==> t->0 <= s,
            self.type_until matches Some(s) ==> t->0 <= s,
            self.pressed_until matches Some((_, s)) ==> t->0 <= s,
    {
        let mut t = self.refresh_at;
        if let Some(s) = self.save_at {
            if s < t {
                t = s;
            }
        }
        if let Some(s) = self.type_until {
            if s < t {
                t = s;
            }
        }
        if let Some((_, s)) = self.pressed_until {
            if s < t {
                t = s;
            }
        }
        Some(t)
    }

    /// The clock reads `now`: says what is due, and sets the timers for what comes next. The
    /// refresh comes every five seconds, and only does its work while the Workspace has the focus
    /// and is not a demo.
    pub fn tick(&mut self, now: u64, focused: bool, demo: bool) -> (d: Due)
        requires
            now <= u64::MAX - REFRESH_MS,
        ensures
            d.save == (old(self).save_at matches Some(s) && now >= s),
            d.refresh == (now >= old(self).refresh_at && focused && !demo),
            final(self).refresh_at == (if now >= old(self).refresh_at { (now + REFRESH_MS) as u64 } else { old(self).refresh_at }),
            d.typeahead_over == (old(self).type_until matches Some(t) && now >= t),
            final(self).type_until == (if d.typeahead_over { None } else { old(self).type_until }),
            d.unpressed == (old(self).pressed_until matches Some((_, t)) && now >= t),
            final(self).pressed_until == (if d.unpressed { None } else { old(self).pressed_until }),
            final(self).save_at == (if d.save { None } else { old(self).save_at }),
    {
        let save = match self.save_at {
            Some(s) => now >= s,
            None => false,
        };
        if save {
            self.save_at = None;
        }
        let mut refresh = false;
        if now >= self.refresh_at {
            self.refresh_at = now + REFRESH_MS;
            refresh = focused && !demo;
        }
        let typeahead_over = match self.type_until {
            Some(t) => now >= t,
            None => false,
        };
        if typeahead_over {
            self.type_until = None;
        }
        let unpressed = match self.pressed_until {
            Some((_, t)) => now >= t,
            None => false,
        };
        if unpressed {
            self.pressed_until = None;
        }
        Due { save, refresh, typeahead_over, unpressed }
    }
}

} // verus!
