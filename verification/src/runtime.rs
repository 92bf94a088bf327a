//! The runtime orchestrator: two playbacks merged HTP/LTP per fixture,
//! projected to addresses, with the programmer overlaid on top.

use vstd::prelude::*;
use vstd::string::StringExecFns;

use crate::cues::{apply_values, keys_u32, opt_or_zero, resolved_values, FixtureValues};
use crate::engine::{
    fixture_addresses_ok, fixture_renderable, ids_renderable, programmer_points, value_points,
    LiveState, Programmer,
};
use crate::ordmap::{ascending_seq_of, OrderedMap};
use crate::playback::{
    map_or_unset, pb_defined, pb_output, pb_output_defined, render_fixture_values,
    rendered_points, state_at, ticked, Playback,
};
use crate::{ConsoleError, Show};

verus! {

/// HTP for intensity: unset only when both sides are unset, else the
/// larger value, an unset side reading as 0.
pub open spec fn htp_value(a: Option<u8>, b: Option<u8>) -> Option<u8> {
    if a is None && b is None {
        None
    } else if opt_or_zero(a) >= opt_or_zero(b) {
        Some(opt_or_zero(a))
    } else {
        Some(opt_or_zero(b))
    }
}

/// LTP for color: playback B wins whenever it has an opinion.
pub open spec fn ltp_value(a: Option<u8>, b: Option<u8>) -> Option<u8> {
    if b is Some {
        b
    } else {
        a
    }
}

/// Merge one fixture's values from the two playbacks: intensity by HTP,
/// the color channels by LTP with B winning.
pub open spec fn merge_values(a: FixtureValues, b: FixtureValues) -> FixtureValues {
    FixtureValues {
        intensity: htp_value(a.intensity, b.intensity),
        r: ltp_value(a.r, b.r),
        g: ltp_value(a.g, b.g),
        b: ltp_value(a.b, b.b),
    }
}

/// The merge over the union of both playbacks' fixtures.
pub open spec fn merge_of(a: Map<u64, FixtureValues>, b: Map<u64, FixtureValues>) -> Map<
    u64,
    FixtureValues,
> {
    Map::new(
        |k: u64| a.contains_key(k) || b.contains_key(k),
        |k: u64| merge_values(map_or_unset(a, k), map_or_unset(b, k)),
    )
}

/// HTP: highest takes precedence; unset counts as 0 unless both are unset.
pub fn htp(a: Option<u8>, b: Option<u8>) -> (r: Option<u8>)
    ensures
        r == htp_value(a, b),
{
    if a.is_none() && b.is_none() {
        None
    } else {
        let av = match a {
            Some(v) => v,
            None => 0,
        };
        let bv = match b {
            Some(v) => v,
            None => 0,
        };
        if av >= bv {
            Some(av)
        } else {
            Some(bv)
        }
    }
}

/// LTP with B winning: B's value when set, else A's.
pub fn ltp(a: Option<u8>, b: Option<u8>) -> (r: Option<u8>)
    ensures
        r == ltp_value(a, b),
{
    match b {
        Some(_) => b,
        None => a,
    }
}

/// Merge one fixture's values; a missing side reads as all-unset.
pub fn merge_fixture(a: Option<&FixtureValues>, b: Option<&FixtureValues>) -> (r: FixtureValues)
    ensures
        r == merge_values(
            match a {
                Some(v) => *v,
                None => crate::cues::unset_values(),
            },
            match b {
                Some(v) => *v,
                None => crate::cues::unset_values(),
            },
        ),
{
    let av = match a {
        Some(v) => *v,
        None => FixtureValues::unset(),
    };
    let bv = match b {
        Some(v) => *v,
        None => FixtureValues::unset(),
    };
    FixtureValues {
        intensity: htp(av.intensity, bv.intensity),
        r: ltp(av.r, bv.r),
        g: ltp(av.g, bv.g),
        b: ltp(av.b, bv.b),
    }
}

/// Merge two fixture-value maps over the union of their fixtures.
pub fn merge_maps(a: &OrderedMap<FixtureValues>, b: &OrderedMap<FixtureValues>) -> (r: OrderedMap<
    FixtureValues,
>)
    requires
        a.wf(),
        b.wf(),
    ensures
        r.wf(),
        r@ == merge_of(a@, b@),
        keys_u32(a@) && keys_u32(b@) ==> keys_u32(r@),
{
    let ghost goal = merge_of(a@, b@);
    let mut out: OrderedMap<FixtureValues> = OrderedMap::new();
    proof {
        a.lemma_key_seq();
        b.lemma_key_seq();
    }
    let n = a.len();
    let mut i: usize = 0;
    while i < n
        invariant
            a.wf(),
            b.wf(),
            out.wf(),
            n == a.key_seq().len(),
            i <= n,
            forall|k: u64| a@.contains_key(k) <==> a.key_seq().contains(k),
            forall|k: u64| #[trigger]
                out@.contains_key(k) <==> a.key_seq().take(i as int).contains(k),
            forall|k: u64| #[trigger]
                out@.contains_key(k) ==> out@[k] == merge_values(
                    map_or_unset(a@, k),
                    map_or_unset(b@, k),
                ),
        decreases n - i,
    {
        let k = a.key_at(i);
        proof {
            a.lemma_at(i as int);
            crate::ordmap::lemma_take_succ_contains_all(a.key_seq(), i as int);
        }
        let av = a.val_at(i);
        let bv = b.get(k);
        let nv = merge_fixture(Some(av), bv);
        out.set(k, nv);
        i += 1;
    }
    proof {
        assert(a.key_seq().take(n as int) =~= a.key_seq());
    }
    let m = b.len();
    let mut j: usize = 0;
    while j < m
        invariant
            a.wf(),
            b.wf(),
            out.wf(),
            m == b.key_seq().len(),
            j <= m,
            forall|k: u64| a@.contains_key(k) <==> a.key_seq().contains(k),
            forall|k: u64| b@.contains_key(k) <==> b.key_seq().contains(k),
            forall|k: u64| #[trigger]
                out@.contains_key(k) <==> (a@.contains_key(k) || b.key_seq().take(
                    j as int,
                ).contains(k)),
            forall|k: u64| #[trigger]
                out@.contains_key(k) ==> out@[k] == merge_values(
                    map_or_unset(a@, k),
                    map_or_unset(b@, k),
                ),
        decreases m - j,
    {
        let k = b.key_at(j);
        proof {
            b.lemma_at(j as int);
            crate::ordmap::lemma_take_succ_contains_all(b.key_seq(), j as int);
        }
        if !out.has_key(k) {
            let bv = b.val_at(j);
            let nv = merge_fixture(None, Some(bv));
            out.set(k, nv);
        }
        j += 1;
    }
    proof {
        assert(b.key_seq().take(m as int) =~= b.key_seq());
        assert(out@ =~= goal);
        if keys_u32(a@) && keys_u32(b@) {
            assert forall|k: u64| #[trigger] out@.contains_key(k) implies k <= u32::MAX by {}
        }
    }
    out
}

/// The per-fixture merge of the two playbacks' visible outputs.
pub open spec fn runtime_merged(show: Show, a: Playback, b: Playback) -> Map<u64, FixtureValues> {
    merge_of(pb_output(show, a), pb_output(show, b))
}

/// The operator session: the show, two playbacks over its cue lists,
/// and the programmer whose output overlays them.
pub struct Runtime {
    pub show: Show,
    pub playback_a: Playback,
    pub playback_b: Playback,
    pub programmer: Programmer,
}

impl Runtime {
    pub open spec fn wf(&self) -> bool {
        &&& self.show.wf()
        &&& self.playback_a.wf()
        &&& self.playback_b.wf()
        &&& self.programmer.wf()
    }

    /// A fresh session over `show`: both playbacks on "main", an empty
    /// programmer.
    pub fn new(show: Show) -> (rt: Self)
        requires
            show.wf(),
        ensures
            rt.wf(),
            rt.show == show,
            rt.playback_a.cuelist@ == "main"@,
            rt.playback_a.current is None,
            rt.playback_a.transition is None,
            rt.playback_b.cuelist@ == "main"@,
            rt.playback_b.current is None,
            rt.playback_b.transition is None,
            rt.programmer.selection() == Set::<u64>::empty(),
            rt.programmer.intensity is None,
            rt.programmer.r is None,
            rt.programmer.g is None,
            rt.programmer.b is None,
    {
        Runtime {
            show,
            playback_a: Playback::new("main"),
            playback_b: Playback::new("main"),
            programmer: Programmer::new(),
        }
    }

    /// Advance both playbacks' transitions.
    pub fn tick(&mut self, dt_ms: u32)
        requires
            old(self).wf(),
        ensures
            final(self).wf(),
            final(self).show == old(self).show,
            final(self).programmer == old(self).programmer,
            ticked(old(self).playback_a, final(self).playback_a, dt_ms),
            ticked(old(self).playback_b, final(self).playback_b, dt_ms),
    {
        self.playback_a.tick(dt_ms);
        self.playback_b.tick(dt_ms);
    }

    /// Delete a cue from a cue list. A playback sitting on that cue of
    /// that list loses its cursor and any running transition; other
    /// playbacks are untouched.
    pub fn delete_cue(&mut self, list: &str, number: u32) -> (r: Result<(), ConsoleError>)
        requires
            old(self).wf(),
        ensures
            final(self).wf(),
            final(self).programmer == old(self).programmer,
            final(self).show.patch == old(self).show.patch,
            final(self).show.palettes == old(self).show.palettes,
            final(self).show.groups == old(self).show.groups,
            r is Ok <==> old(self).show.cue_lists@.contains_key(list@),
            r is Ok ==> {
                &&& final(self).show.cue_lists@.dom() == old(self).show.cue_lists@.dom()
                &&& final(self).show.cue_lists@[list@].cues@
                    == old(self).show.cue_lists@[list@].cues@.remove(number as u64)
                &&& forall|n: Seq<char>|
                    n != list@ && #[trigger] old(self).show.cue_lists@.contains_key(n)
                        ==> final(self).show.cue_lists@[n] == old(self).show.cue_lists@[n]
            },
            r is Err ==> final(self).show.cue_lists@ == old(self).show.cue_lists@,
            final(self).playback_a.cuelist@ == old(self).playback_a.cuelist@,
            final(self).playback_a.mode == old(self).playback_a.mode,
            final(self).playback_b.cuelist@ == old(self).playback_b.cuelist@,
            final(self).playback_b.mode == old(self).playback_b.mode,
            (r is Ok && old(self).playback_a.cuelist@ == list@ && old(self).playback_a.current
                == Some(number)) ==> final(self).playback_a.current is None
                && final(self).playback_a.transition is None,
            !(r is Ok && old(self).playback_a.cuelist@ == list@ && old(self).playback_a.current
                == Some(number)) ==> final(self).playback_a.current
                == old(self).playback_a.current && final(self).playback_a.transition
                == old(self).playback_a.transition,
            (r is Ok && old(self).playback_b.cuelist@ == list@ && old(self).playback_b.current
                == Some(number)) ==> final(self).playback_b.current is None
                && final(self).playback_b.transition is None,
            !(r is Ok && old(self).playback_b.cuelist@ == list@ && old(self).playback_b.current
                == Some(number)) ==> final(self).playback_b.current
                == old(self).playback_b.current && final(self).playback_b.transition
                == old(self).playback_b.transition,
    {
        match self.show.remove_cue_in_list(list, number) {
            Ok(()) => {
                let key = String::from_str(list);
                if self.playback_a.cuelist == key {
                    self.playback_a.on_cue_deleted(number);
                }
                if self.playback_b.cuelist == key {
                    self.playback_b.on_cue_deleted(number);
                }
                Ok(())
            },
            Err(e) => Err(e),
        }
    }

    /// Render the final output: merge playback A and B per fixture
    /// (HTP intensity, LTP colors with B winning), project the merged
    /// values to addresses, then overlay the programmer, which wins on
    /// every address it writes.
    pub fn render(&self) -> (r: Result<LiveState, ConsoleError>)
        requires
            self.wf(),
        ensures
            r is Ok <==> {
                &&& pb_output_defined(self.show, self.playback_a)
                &&& pb_output_defined(self.show, self.playback_b)
                &&& ids_renderable(
                    self.show,
                    ascending_seq_of(
                        runtime_merged(self.show, self.playback_a, self.playback_b).dom(),
                    ),
                )
                &&& ids_renderable(self.show, self.programmer.selected.key_seq())
            },
            r matches Ok(live) ==> live.wf() && live.points@ == rendered_points(
                self.show,
                runtime_merged(self.show, self.playback_a, self.playback_b),
                ascending_seq_of(
                    runtime_merged(self.show, self.playback_a, self.playback_b).dom(),
                ),
            ).union_prefer_right(
                programmer_points(self.show, self.programmer, self.programmer.selected.key_seq()),
            ),
            r matches Ok(live) ==> forall|k: u64| #[trigger]
                programmer_points(
                    self.show,
                    self.programmer,
                    self.programmer.selected.key_seq(),
                ).contains_key(k) ==> live.points@[k] == programmer_points(
                    self.show,
                    self.programmer,
                    self.programmer.selected.key_seq(),
                )[k],
    {
        let a = match self.playback_a.output_state_map(&self.show) {
            Ok(m) => m,
            Err(e) => {
                return Err(e);
            },
        };
        let b = match self.playback_b.output_state_map(&self.show) {
            Ok(m) => m,
            Err(e) => {
                return Err(e);
            },
        };
        let merged = merge_maps(&a, &b);
        proof {
            merged.lemma_key_seq_ascending();
        }
        let ghost fids = merged.key_seq();
        let mut live = LiveState::new();
        let n = merged.len();
        let mut i: usize = 0;
        while i < n
            invariant
                self.wf(),
                merged.wf(),
                keys_u32(merged@),
                live.wf(),
                merged@ == runtime_merged(self.show, self.playback_a, self.playback_b),
                fids == merged.key_seq(),
                n == fids.len(),
                i <= n,
                ids_renderable(self.show, fids.take(i as int)),
                live.points@ == rendered_points(self.show, merged@, fids.take(i as int)),
            decreases n - i,
        {
            let fid = merged.key_at(i);
            proof {
                merged.lemma_at(i as int);
                assert(fids.take(i as int + 1).drop_last() =~= fids.take(i as int));
                assert(fids.take(i as int + 1).last() == fids[i as int]);
            }
            let vals = merged.val_at(i);
            match render_fixture_values(&self.show, fid as u32, vals, &mut live) {
                Ok(()) => {},
                Err(e) => {
                    proof {
                        merged.lemma_key_seq_ascending();
                        assert(fid <= u32::MAX);
                        assert((fid as u32) as u64 == fid);
                        assert(!fixture_renderable(self.show, fid));
                        if ids_renderable(self.show, fids) {
                            assert(fixture_renderable(self.show, fids[i as int]));
                            assert(false);
                        }
                    }
                    return Err(e);
                },
            }
            proof {
                assert forall|j: int| 0 <= j < i + 1 implies {
                    let id = #[trigger] fids.take(i as int + 1)[j];
                    &&& self.show.patch.fixtures@.contains_key(id)
                    &&& self.show.patch.fixture_types@.contains_key(
                        self.show.patch.fixtures@[id].fixture_type@,
                    )
                    &&& fixture_addresses_ok(
                        self.show.patch.fixtures@[id],
                        self.show.patch.fixture_types@[self.show.patch.fixtures@[id].fixture_type@],
                    )
                } by {
                    if j < i {
                        assert(fids.take(i as int)[j] == fids.take(i as int + 1)[j]);
                    }
                }
            }
            i += 1;
        }
        proof {
            assert(fids.take(n as int) =~= fids);
        }
        let prog = match self.programmer.render(&self.show) {
            Ok(p) => p,
            Err(e) => {
                return Err(e);
            },
        };
        live.overlay(&prog);
        Ok(live)
    }
}

/// The live look of one fixture: its state-map entry resolved to explicit
/// values, with the programmer's set fields overlaid.
pub open spec fn snapshot_of(
    show: Show,
    playback: Playback,
    programmer: Programmer,
    fixture_id: u32,
) -> FixtureValues {
    let m = match playback.current {
        Some(cur) => state_at(show, playback, cur),
        None => Map::<u64, FixtureValues>::empty(),
    };
    apply_values(
        resolved_values(map_or_unset(m, fixture_id as u64)),
        crate::engine::programmer_values(programmer),
    )
}

/// Snapshot the live look of one fixture: the playback's state with
/// unset fields read as 0, overlaid by the programmer's set fields.
pub fn snapshot_fixture_values(
    show: &Show,
    playback: &Playback,
    programmer: &Programmer,
    fixture_id: u32,
) -> (r: Result<FixtureValues, ConsoleError>)
    requires
        show.wf(),
    ensures
        r is Ok <==> (playback.current is None || pb_defined(*show, *playback)),
        r matches Ok(v) ==> v == snapshot_of(*show, *playback, *programmer, fixture_id)
            && crate::cues::all_fields_set(v),
        r matches Err(e) ==> e matches ConsoleError::UnknownCueList(t) && t@ == playback.cuelist@,
{
    let state = match playback.state_map(show) {
        Ok(m) => m,
        Err(e) => {
            return Err(e);
        },
    };
    let base = match state.get(fixture_id as u64) {
        Some(v) => *v,
        None => FixtureValues::unset(),
    };
    let mut out = base.resolve();
    let delta = FixtureValues {
        intensity: programmer.intensity,
        r: programmer.r,
        g: programmer.g,
        b: programmer.b,
    };
    out.apply_delta(&delta);
    Ok(out)
}

} // verus!
