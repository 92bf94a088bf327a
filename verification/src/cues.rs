//! Fixture values, cues and cue lists.
//!
//! A `FixtureValues` is a partial assignment over the four parameters
//! {Intensity, R, G, B}: each field is either set or unset ("no opinion").
//! Cues record only deltas; tracking carries earlier values forward.

use vstd::prelude::*;

use crate::ordmap::OrderedMap;

verus! {

/// A partial assignment over the four fixture parameters.
/// `None` means "no opinion", never "zero": 0 is a legal value.
#[derive(Clone, Copy, Debug, PartialEq, Eq)]
pub struct FixtureValues {
    pub intensity: Option<u8>,
    pub r: Option<u8>,
    pub g: Option<u8>,
    pub b: Option<u8>,
}

/// The all-unset assignment.
pub open spec fn unset_values() -> FixtureValues {
    FixtureValues { intensity: None, r: None, g: None, b: None }
}

/// The tracking rule: fields set in `delta` overwrite, unset fields pass
/// the base value through.
pub open spec fn apply_values(base: FixtureValues, delta: FixtureValues) -> FixtureValues {
    FixtureValues {
        intensity: if delta.intensity is Some {
            delta.intensity
        } else {
            base.intensity
        },
        r: if delta.r is Some {
            delta.r
        } else {
            base.r
        },
        g: if delta.g is Some {
            delta.g
        } else {
            base.g
        },
        b: if delta.b is Some {
            delta.b
        } else {
            base.b
        },
    }
}

/// An unset field read as 0 (render-time convention).
pub open spec fn opt_or_zero(o: Option<u8>) -> u8 {
    match o {
        Some(v) => v,
        None => 0,
    }
}

/// Resolution: every unset field becomes an explicit 0.
pub open spec fn resolved_values(v: FixtureValues) -> FixtureValues {
    FixtureValues {
        intensity: Some(opt_or_zero(v.intensity)),
        r: Some(opt_or_zero(v.r)),
        g: Some(opt_or_zero(v.g)),
        b: Some(opt_or_zero(v.b)),
    }
}

/// All four fields carry an explicit value.
pub open spec fn all_fields_set(v: FixtureValues) -> bool {
    &&& v.intensity is Some
    &&& v.r is Some
    &&& v.g is Some
    &&& v.b is Some
}

impl FixtureValues {
    /// The all-unset assignment.
    pub fn unset() -> (v: Self)
        ensures
            v == unset_values(),
    {
        FixtureValues { intensity: None, r: None, g: None, b: None }
    }

    /// Tracking: only overwrite fields that are set in `delta`.
    pub fn apply_delta(&mut self, delta: &FixtureValues)
        ensures
            *final(self) == apply_values(*old(self), *delta),
    {
        if let Some(v) = delta.intensity {
            self.intensity = Some(v);
        }
        if let Some(v) = delta.r {
            self.r = Some(v);
        }
        if let Some(v) = delta.g {
            self.g = Some(v);
        }
        if let Some(v) = delta.b {
            self.b = Some(v);
        }
    }

    pub fn is_all_none(&self) -> (res: bool)
        ensures
            res == (*self == unset_values()),
    {
        self.intensity.is_none() && self.r.is_none() && self.g.is_none() && self.b.is_none()
    }

    /// Every unset field replaced by an explicit 0.
    pub fn resolve(&self) -> (v: FixtureValues)
        ensures
            v == resolved_values(*self),
            all_fields_set(v),
    {
        FixtureValues {
            intensity: Some(
                match self.intensity {
                    Some(x) => x,
                    None => 0,
                },
            ),
            r: Some(
                match self.r {
                    Some(x) => x,
                    None => 0,
                },
            ),
            g: Some(
                match self.g {
                    Some(x) => x,
                    None => 0,
                },
            ),
            b: Some(
                match self.b {
                    Some(x) => x,
                    None => 0,
                },
            ),
        }
    }
}

impl Default for FixtureValues {
    fn default() -> (v: Self)
        ensures
            v == unset_values(),
    {
        FixtureValues { intensity: None, r: None, g: None, b: None }
    }
}

/// Every key of a fixture-value map is a fixture id (fits in `u32`).
pub open spec fn keys_u32(m: Map<u64, FixtureValues>) -> bool {
    forall|k: u64| #[trigger] m.contains_key(k) ==> k <= u32::MAX
}

/// A recorded change set with optional timing. `changes` is keyed by
/// fixture id (as `u64`) and holds the cue's deltas, tracking style.
pub struct Cue {
    pub number: u32,
    pub label: String,
    pub block: bool,
    pub fade_ms: u32,
    pub delay_ms: u32,
    pub changes: OrderedMap<FixtureValues>,
}

impl Cue {
    pub open spec fn wf(&self) -> bool {
        &&& self.changes.wf()
        &&& keys_u32(self.changes@)
    }
}

/// Cues keyed by cue number; iteration is in ascending numeric order.
pub struct CueList {
    pub cues: OrderedMap<Cue>,
}

impl CueList {
    /// Keys are the cue numbers of the cues they hold, and every cue's
    /// change map is well-formed.
    pub open spec fn wf(&self) -> bool {
        &&& self.cues.wf()
        &&& forall|k: u64| #[trigger]
            self.cues@.contains_key(k) ==> k <= u32::MAX && self.cues@[k].number == k
                && self.cues@[k].wf()
    }

    /// An empty cue list.
    pub fn ensure() -> (cl: Self)
        ensures
            cl.wf(),
            cl.cues@ == Map::<u64, Cue>::empty(),
            cl.cues.key_seq() == Seq::<u64>::empty(),
    {
        CueList { cues: OrderedMap::new() }
    }

    pub fn get(&self, number: u32) -> (r: Option<&Cue>)
        requires
            self.wf(),
        ensures
            match r {
                Some(c) => self.cues@.contains_key(number as u64) && *c == self.cues@.index(
                    number as u64,
                ),
                None => !self.cues@.contains_key(number as u64),
            },
    {
        self.cues.get(number as u64)
    }

    /// Insert or overwrite the cue numbered `cue.number`.
    pub fn set_cue(&mut self, cue: Cue)
        requires
            old(self).wf(),
            cue.wf(),
        ensures
            final(self).wf(),
            final(self).cues@ == old(self).cues@.insert(cue.number as u64, cue),
    {
        let n = cue.number;
        self.cues.set(n as u64, cue);
    }

    /// Remove the cue numbered `number`, if present.
    pub fn remove_cue(&mut self, number: u32)
        requires
            old(self).wf(),
        ensures
            final(self).wf(),
            final(self).cues@ == old(self).cues@.remove(number as u64),
    {
        self.cues.remove(number as u64);
    }
}

} // verus!
