//! Cue-list playback: tracking / cue-only state evaluation, timed
//! delay-plus-fade transitions, and rendering fixture values to addresses.

use vstd::prelude::*;
use vstd::arithmetic::div_mod::{
    lemma_div_by_multiple, lemma_div_is_ordered, lemma_div_multiples_vanish_fancy,
    lemma_fundamental_div_mod,
};
use vstd::string::StringExecFns;

use crate::cues::{
    all_fields_set, apply_values, keys_u32, opt_or_zero, resolved_values, unset_values, Cue,
    CueList, FixtureValues,
};
use crate::engine::{
    fixture_addresses_ok, fixture_renderable, kind_value, value_points, LiveState,
};
use crate::ordmap::OrderedMap;
use crate::{ChannelKind, ConsoleError, Show};

verus! {

/// Which state function a playback evaluates cues with.
#[derive(Clone, Copy, Debug, PartialEq, Eq)]
pub enum PlaybackMode {
    Tracking,
    CueOnly,
}

/// Integer linear interpolation from `a` to `b`, `t` of `dur` elapsed:
/// `a + (b - a) * t / dur`, truncating toward `a`; `dur == 0` yields `b`.
pub open spec fn lerp_byte(a: u8, b: u8, t: int, dur: int) -> u8 {
    if dur == 0 {
        b
    } else if b >= a {
        (a + ((b - a) * t) / dur) as u8
    } else {
        (a - ((a - b) * t) / dur) as u8
    }
}

/// An entry of a map, or the all-unset assignment when absent.
pub open spec fn map_or_unset(m: Map<u64, FixtureValues>, k: u64) -> FixtureValues {
    if m.contains_key(k) {
        m[k]
    } else {
        unset_values()
    }
}

/// Channel-wise interpolation of two assignments, unset fields read as 0.
pub open spec fn lerp_values(fv: FixtureValues, tv: FixtureValues, t: int, dur: int) -> FixtureValues {
    FixtureValues {
        intensity: Some(lerp_byte(opt_or_zero(fv.intensity), opt_or_zero(tv.intensity), t, dur)),
        r: Some(lerp_byte(opt_or_zero(fv.r), opt_or_zero(tv.r), t, dur)),
        g: Some(lerp_byte(opt_or_zero(fv.g), opt_or_zero(tv.g), t, dur)),
        b: Some(lerp_byte(opt_or_zero(fv.b), opt_or_zero(tv.b), t, dur)),
    }
}

/// Interpolation over the union of both maps' fixtures; a fixture missing
/// on one side reads as all-zero there.
pub open spec fn interp_maps(
    from: Map<u64, FixtureValues>,
    to: Map<u64, FixtureValues>,
    t: int,
    dur: int,
) -> Map<u64, FixtureValues> {
    Map::new(
        |k: u64| from.contains_key(k) || to.contains_key(k),
        |k: u64| lerp_values(map_or_unset(from, k), map_or_unset(to, k), t, dur),
    )
}

/// Every entry resolved: unset fields replaced by explicit 0.
pub open spec fn resolve_all(m: Map<u64, FixtureValues>) -> Map<u64, FixtureValues> {
    Map::new(|k: u64| m.contains_key(k), |k: u64| resolved_values(m[k]))
}

/// Every entry has all four fields set.
pub open spec fn map_resolved(m: Map<u64, FixtureValues>) -> bool {
    forall|k: u64| #[trigger] m.contains_key(k) ==> all_fields_set(m[k])
}

/// A block cue first erases the accumulated entry of every fixture it
/// touches, so nothing tracks through.
pub open spec fn apply_block_resets(m: Map<u64, FixtureValues>, keys: Seq<u64>) -> Map<
    u64,
    FixtureValues,
>
    decreases keys.len(),
{
    if keys.len() == 0 {
        m
    } else {
        apply_block_resets(m, keys.drop_last()).insert(keys.last(), unset_values())
    }
}

/// Apply a cue's deltas, in key order, onto the accumulated state.
pub open spec fn apply_changes(
    m: Map<u64, FixtureValues>,
    changes: Map<u64, FixtureValues>,
    keys: Seq<u64>,
) -> Map<u64, FixtureValues>
    decreases keys.len(),
{
    if keys.len() == 0 {
        m
    } else {
        let m1 = apply_changes(m, changes, keys.drop_last());
        let k = keys.last();
        m1.insert(k, apply_values(map_or_unset(m1, k), changes[k]))
    }
}

/// One cue folded onto the accumulated state so far.
pub open spec fn cue_step(m: Map<u64, FixtureValues>, cue: Cue) -> Map<u64, FixtureValues> {
    let base = if cue.block {
        apply_block_resets(m, cue.changes.key_seq())
    } else {
        m
    };
    apply_changes(base, cue.changes@, cue.changes.key_seq())
}

/// The state that tracking assigns: cues with number <= `upto`, folded in ascending
/// numeric order (`nums` enumerates the cue numbers in that order).
pub open spec fn tracked_map(cues: Map<u64, Cue>, nums: Seq<u64>, upto: u32) -> Map<
    u64,
    FixtureValues,
>
    decreases nums.len(),
{
    if nums.len() == 0 {
        Map::empty()
    } else {
        let prev = tracked_map(cues, nums.drop_last(), upto);
        if nums.last() <= upto as u64 {
            cue_step(prev, cues[nums.last()])
        } else {
            prev
        }
    }
}

/// The state that tracking assigns to a cue list at cue number `n`.
pub open spec fn tracked_state_of(cl: CueList, n: u32) -> Map<u64, FixtureValues> {
    tracked_map(cl.cues@, cl.cues.key_seq(), n)
}

/// The cue-only state at `n`: the cue's own changes, or empty if absent.
pub open spec fn cue_only_map(cl: CueList, n: u32) -> Map<u64, FixtureValues> {
    if cl.cues@.contains_key(n as u64) {
        cl.cues@[n as u64].changes@
    } else {
        Map::empty()
    }
}

/// Integer lerp between two bytes; `dur == 0` snaps to `b`.
pub fn lerp_u8(a: u8, b: u8, t: u32, dur: u32) -> (r: u8)
    requires
        t <= dur,
    ensures
        r == lerp_byte(a, b, t as int, dur as int),
{
    if dur == 0 {
        return b;
    }
    if b >= a {
        let d: u64 = (b - a) as u64;
        proof {
            assert(d * (t as u64) <= 255 * 0xffff_ffffu64) by (nonlinear_arith)
                requires
                    d <= 255,
                    t as u64 <= 0xffff_ffffu64,
            ;
        }
        let v: u64 = d * (t as u64) / (dur as u64);
        proof {
            assert(d * (t as u64) <= d * (dur as u64)) by (nonlinear_arith)
                requires
                    t <= dur,
                    0 <= d,
            ;
            lemma_div_is_ordered((d * (t as u64)) as int, (d * (dur as u64)) as int, dur as int);
            lemma_div_by_multiple(d as int, dur as int);
            assert(v <= d);
        }
        a + (v as u8)
    } else {
        let d: u64 = (a - b) as u64;
        proof {
            assert(d * (t as u64) <= 255 * 0xffff_ffffu64) by (nonlinear_arith)
                requires
                    d <= 255,
                    t as u64 <= 0xffff_ffffu64,
            ;
        }
        let v: u64 = d * (t as u64) / (dur as u64);
        proof {
            assert(d * (t as u64) <= d * (dur as u64)) by (nonlinear_arith)
                requires
                    t <= dur,
                    0 <= d,
            ;
            lemma_div_is_ordered((d * (t as u64)) as int, (d * (dur as u64)) as int, dur as int);
            lemma_div_by_multiple(d as int, dur as int);
            assert(v <= d);
        }
        a - (v as u8)
    }
}

/// An unset byte read as 0.
fn byte_or_zero(o: Option<u8>) -> (r: u8)
    ensures
        r == opt_or_zero(o),
{
    match o {
        Some(v) => v,
        None => 0,
    }
}

/// Channel-wise interpolation of two assignments.
fn lerp_fv(fv: &FixtureValues, tv: &FixtureValues, t: u32, dur: u32) -> (r: FixtureValues)
    requires
        t <= dur,
    ensures
        r == lerp_values(*fv, *tv, t as int, dur as int),
{
    FixtureValues {
        intensity: Some(lerp_u8(byte_or_zero(fv.intensity), byte_or_zero(tv.intensity), t, dur)),
        r: Some(lerp_u8(byte_or_zero(fv.r), byte_or_zero(tv.r), t, dur)),
        g: Some(lerp_u8(byte_or_zero(fv.g), byte_or_zero(tv.g), t, dur)),
        b: Some(lerp_u8(byte_or_zero(fv.b), byte_or_zero(tv.b), t, dur)),
    }
}

/// Interpolate two fully-resolved maps over the union of their fixtures.
pub fn interpolate_maps(
    from: &OrderedMap<FixtureValues>,
    to: &OrderedMap<FixtureValues>,
    t: u32,
    dur: u32,
) -> (r: OrderedMap<FixtureValues>)
    requires
        from.wf(),
        to.wf(),
        t <= dur,
    ensures
        r.wf(),
        r@ == interp_maps(from@, to@, t as int, dur as int),
{
    let ghost goal = interp_maps(from@, to@, t as int, dur as int);
    let mut out: OrderedMap<FixtureValues> = OrderedMap::new();
    proof {
        from.lemma_key_seq();
        to.lemma_key_seq();
    }
    let n = from.len();
    let mut i: usize = 0;
    while i < n
        invariant
            from.wf(),
            to.wf(),
            out.wf(),
            t <= dur,
            n == from.key_seq().len(),
            i <= n,
            forall|k: u64| from@.contains_key(k) <==> from.key_seq().contains(k),
            forall|k: u64| #[trigger]
                out@.contains_key(k) <==> from.key_seq().take(i as int).contains(k),
            forall|k: u64| #[trigger]
                out@.contains_key(k) ==> out@[k] == lerp_values(
                    map_or_unset(from@, k),
                    map_or_unset(to@, k),
                    t as int,
                    dur as int,
                ),
        decreases n - i,
    {
        let k = from.key_at(i);
        proof {
            from.lemma_at(i as int);
            crate::ordmap::lemma_take_succ_contains_all(from.key_seq(), i as int);
        }
        let fv = *from.val_at(i);
        let tv = match to.get(k) {
            Some(v) => *v,
            None => FixtureValues::unset(),
        };
        let nv = lerp_fv(&fv, &tv, t, dur);
        out.set(k, nv);
        i += 1;
    }
    proof {
        assert(from.key_seq().take(n as int) =~= from.key_seq());
    }
    let m = to.len();
    let mut j: usize = 0;
    while j < m
        invariant
            from.wf(),
            to.wf(),
            out.wf(),
            t <= dur,
            m == to.key_seq().len(),
            j <= m,
            forall|k: u64| from@.contains_key(k) <==> from.key_seq().contains(k),
            forall|k: u64| to@.contains_key(k) <==> to.key_seq().contains(k),
            forall|k: u64| #[trigger]
                out@.contains_key(k) <==> (from@.contains_key(k) || to.key_seq().take(
                    j as int,
                ).contains(k)),
            forall|k: u64| #[trigger]
                out@.contains_key(k) ==> out@[k] == lerp_values(
                    map_or_unset(from@, k),
                    map_or_unset(to@, k),
                    t as int,
                    dur as int,
                ),
        decreases m - j,
    {
        let k = to.key_at(j);
        proof {
            to.lemma_at(j as int);
            crate::ordmap::lemma_take_succ_contains_all(to.key_seq(), j as int);
        }
        if !out.has_key(k) {
            let tv = *to.val_at(j);
            let un = FixtureValues::unset();
            let nv = lerp_fv(&un, &tv, t, dur);
            out.set(k, nv);
        }
        j += 1;
    }
    proof {
        assert(from.key_seq().take(n as int) =~= from.key_seq());
        assert(to.key_seq().take(m as int) =~= to.key_seq());
        assert(out@ =~= goal);
    }
    out
}

/// Resolve every entry of a map: unset fields become explicit 0.
pub fn resolve_map(m: OrderedMap<FixtureValues>) -> (r: OrderedMap<FixtureValues>)
    requires
        m.wf(),
    ensures
        r.wf(),
        r@ == resolve_all(m@),
        map_resolved(r@),
{
    let mut out: OrderedMap<FixtureValues> = OrderedMap::new();
    proof {
        m.lemma_key_seq();
    }
    let n = m.len();
    let mut i: usize = 0;
    while i < n
        invariant
            m.wf(),
            out.wf(),
            n == m.key_seq().len(),
            i <= n,
            forall|k: u64| m@.contains_key(k) <==> m.key_seq().contains(k),
            forall|k: u64| #[trigger]
                out@.contains_key(k) <==> m.key_seq().take(i as int).contains(k),
            forall|k: u64| #[trigger]
                out@.contains_key(k) ==> out@[k] == resolved_values(m@[k]),
        decreases n - i,
    {
        let k = m.key_at(i);
        proof {
            m.lemma_at(i as int);
            crate::ordmap::lemma_take_succ_contains_all(m.key_seq(), i as int);
        }
        let v = m.val_at(i).resolve();
        out.set(k, v);
        i += 1;
    }
    proof {
        assert(m.key_seq().take(n as int) =~= m.key_seq());
        assert(out@ =~= resolve_all(m@));
    }
    out
}

/// Write one fixture's values into a live state: each channel whose kind
/// matches a set field emits that field's value at `address + index`.
pub fn render_fixture_values(
    show: &Show,
    fixture_id: u32,
    vals: &FixtureValues,
    live: &mut LiveState,
) -> (r: Result<(), ConsoleError>)
    requires
        show.wf(),
        old(live).wf(),
    ensures
        final(live).wf(),
        r is Ok <==> fixture_renderable(*show, fixture_id as u64),
        r is Ok ==> final(live).points@ == value_points(
            old(live).points@,
            show.patch.fixtures@[fixture_id as u64],
            show.patch.fixture_types@[show.patch.fixtures@[fixture_id as u64].fixture_type@],
            *vals,
            show.patch.fixture_types@[show.patch.fixtures@[fixture_id as u64].fixture_type@].channels@.len() as int,
        ),
        r matches Err(ConsoleError::UnknownFixture(id)) ==> id == fixture_id
            && !show.patch.fixtures@.contains_key(fixture_id as u64),
        r matches Err(ConsoleError::UnknownFixtureType(t)) ==> show.patch.fixtures@.contains_key(
            fixture_id as u64,
        ) && show.patch.fixtures@[fixture_id as u64].fixture_type@ == t@
            && !show.patch.fixture_types@.contains_key(t@),
        r matches Err(ConsoleError::AddressOutOfRange(id)) ==> id == fixture_id
            && show.patch.fixtures@.contains_key(fixture_id as u64)
            && !fixture_addresses_ok(
            show.patch.fixtures@[fixture_id as u64],
            show.patch.fixture_types@[show.patch.fixtures@[fixture_id as u64].fixture_type@],
        ),
        r matches Err(e) ==> (e matches ConsoleError::UnknownFixture(_) || e
            matches ConsoleError::UnknownFixtureType(_) || e
            matches ConsoleError::AddressOutOfRange(_)),
{
    let f = match show.patch.fixtures.get(fixture_id as u64) {
        Some(f) => f,
        None => {
            return Err(ConsoleError::UnknownFixture(fixture_id));
        },
    };
    let ft = match show.patch.fixture_types.get(f.fixture_type.as_str()) {
        Some(ft) => ft,
        None => {
            return Err(ConsoleError::UnknownFixtureType(String::from_str(f.fixture_type.as_str())));
        },
    };
    let ghost m0 = live.points@;
    let nch = ft.channels.len();
    let mut ci: usize = 0;
    while ci < nch
        invariant
            show.wf(),
            live.wf(),
            nch == ft.channels@.len(),
            ci <= nch,
            show.patch.fixtures@.contains_key(fixture_id as u64),
            *f == show.patch.fixtures@[fixture_id as u64],
            show.patch.fixture_types@.contains_key(f.fixture_type@),
            *ft == show.patch.fixture_types@[f.fixture_type@],
            ci > 0 ==> 1 <= f.address && f.address + ci <= 513,
            live.points@ == value_points(m0, *f, *ft, *vals, ci as int),
        decreases nch - ci,
    {
        if ci > 512 {
            proof {
                assert(!fixture_addresses_ok(*f, *ft));
            }
            return Err(ConsoleError::AddressOutOfRange(fixture_id));
        }
        let addr32: u32 = f.address as u32 + ci as u32;
        if addr32 < 1 || addr32 > 512 {
            proof {
                assert(!fixture_addresses_ok(*f, *ft));
            }
            return Err(ConsoleError::AddressOutOfRange(fixture_id));
        }
        let addr = addr32 as u16;
        let value_opt: Option<u8> = match ft.channels[ci].kind {
            ChannelKind::Intensity => vals.intensity,
            ChannelKind::ColorR => vals.r,
            ChannelKind::ColorG => vals.g,
            ChannelKind::ColorB => vals.b,
            _ => None,
        };
        if let Some(value) = value_opt {
            live.set(f.universe, addr, value);
        }
        ci += 1;
    }
    Ok(())
}

/// A running delay-plus-fade between two fully-resolved states.
pub struct Transition {
    pub from: OrderedMap<FixtureValues>,
    pub to: OrderedMap<FixtureValues>,
    pub elapsed_ms: u32,
    pub fade_ms: u32,
    pub delay_ms: u32,
}

/// A cursor into one cue list with an optional running transition.
pub struct Playback {
    pub cuelist: String,
    pub current: Option<u32>,
    pub mode: PlaybackMode,
    pub transition: Option<Transition>,
}

/// The playback's cue list name resolves in the show.
pub open spec fn pb_defined(show: Show, pb: Playback) -> bool {
    show.cue_lists@.contains_key(pb.cuelist@)
}

/// The state the playback's mode assigns to cue number `n`.
pub open spec fn state_at(show: Show, pb: Playback, n: u32) -> Map<u64, FixtureValues> {
    let cl = show.cue_lists@[pb.cuelist@];
    match pb.mode {
        PlaybackMode::Tracking => tracked_state_of(cl, n),
        PlaybackMode::CueOnly => cue_only_map(cl, n),
    }
}

/// The visible output map: held `from` during the delay, interpolation
/// during the fade, the resolved state when steady, empty when idle.
pub open spec fn pb_output(show: Show, pb: Playback) -> Map<u64, FixtureValues> {
    match pb.transition {
        Some(tr) => if tr.elapsed_ms < tr.delay_ms {
            tr.from@
        } else if tr.fade_ms == 0 {
            tr.to@
        } else {
            let t = if tr.elapsed_ms - tr.delay_ms >= tr.fade_ms {
                tr.fade_ms as int
            } else {
                tr.elapsed_ms - tr.delay_ms
            };
            interp_maps(tr.from@, tr.to@, t, tr.fade_ms as int)
        },
        None => match pb.current {
            Some(cur) => resolve_all(state_at(show, pb, cur)),
            None => Map::<u64, FixtureValues>::empty(),
        },
    }
}

/// Whether the visible output can be computed: a transition or an idle
/// playback needs no cue list lookup.
pub open spec fn pb_output_defined(show: Show, pb: Playback) -> bool {
    pb.transition is Some || pb.current is None || pb_defined(show, pb)
}

/// The first number after `cur`, in a sequence scanned front to back.
pub open spec fn first_after(nums: Seq<u64>, cur: u64) -> Option<u64>
    decreases nums.len(),
{
    if nums.len() == 0 {
        None
    } else if nums.first() > cur {
        Some(nums.first())
    } else {
        first_after(nums.drop_first(), cur)
    }
}

/// The cue `go` moves to: the first cue when idle, else the next greater
/// cue number, else the current cue itself (no wrap).
pub open spec fn go_target(cl: CueList, cur: Option<u32>) -> u32 {
    match cur {
        None => cl.cues.key_seq()[0] as u32,
        Some(c) => match first_after(cl.cues.key_seq(), c as u64) {
            Some(k) => k as u32,
            None => c,
        },
    }
}

/// How `activate` rewrites a playback: the new `from` is the output that
/// was visible at the moment of activation.
pub open spec fn activated(show: Show, pre: Playback, post: Playback, target: u32) -> bool {
    let cl = show.cue_lists@[pre.cuelist@];
    let fade = if cl.cues@.contains_key(target as u64) {
        cl.cues@[target as u64].fade_ms
    } else {
        0u32
    };
    let delay = if cl.cues@.contains_key(target as u64) {
        cl.cues@[target as u64].delay_ms
    } else {
        0u32
    };
    &&& post.cuelist@ == pre.cuelist@
    &&& post.mode == pre.mode
    &&& post.current == Some(target)
    &&& if fade == 0 && delay == 0 {
        post.transition is None
    } else {
        post.transition matches Some(tr) && tr.from@ == pb_output(show, pre) && tr.to@
            == resolve_all(state_at(show, pre, target)) && tr.elapsed_ms == 0 && tr.fade_ms == fade
            && tr.delay_ms == delay
    }
}

proof fn lemma_first_after_at(nums: Seq<u64>, i: int, cur: u64)
    requires
        0 <= i < nums.len(),
        forall|j: int| 0 <= j < i ==> nums[j] <= cur,
        nums[i] > cur,
    ensures
        first_after(nums, cur) == Some(nums[i]),
    decreases i,
{
    if i == 0 {
    } else {
        assert forall|j: int| 0 <= j < i - 1 implies nums.drop_first()[j] <= cur by {
            assert(nums[j + 1] <= cur);
        }
        assert(nums.drop_first()[i - 1] == nums[i]);
        lemma_first_after_at(nums.drop_first(), i - 1, cur);
    }
}

proof fn lemma_first_after_none(nums: Seq<u64>, cur: u64)
    requires
        forall|j: int| 0 <= j < nums.len() ==> nums[j] <= cur,
    ensures
        first_after(nums, cur) is None,
    decreases nums.len(),
{
    if nums.len() > 0 {
        assert forall|j: int| 0 <= j < nums.len() - 1 implies nums.drop_first()[j] <= cur by {
            assert(nums[j + 1] <= cur);
        }
        lemma_first_after_none(nums.drop_first(), cur);
    }
}

/// How `tick` rewrites a playback: elapsed time advances, saturating,
/// and the transition is dropped once it reaches delay + fade.
pub open spec fn ticked(pre: Playback, post: Playback, dt_ms: u32) -> bool {
    &&& post.cuelist@ == pre.cuelist@
    &&& post.mode == pre.mode
    &&& post.current == pre.current
    &&& match pre.transition {
        None => post.transition is None,
        Some(tr) => {
            let e2 = if tr.elapsed_ms + dt_ms > u32::MAX {
                u32::MAX
            } else {
                (tr.elapsed_ms + dt_ms) as u32
            };
            let done_at = if tr.delay_ms + tr.fade_ms > u32::MAX {
                u32::MAX
            } else {
                (tr.delay_ms + tr.fade_ms) as u32
            };
            if e2 >= done_at {
                post.transition is None
            } else {
                post.transition matches Some(tr2) && tr2.from == tr.from && tr2.to == tr.to
                    && tr2.elapsed_ms == e2 && tr2.fade_ms == tr.fade_ms && tr2.delay_ms
                    == tr.delay_ms
            }
        },
    }
}

impl Playback {
    /// Transition maps, when present, are well-formed, fully resolved,
    /// and keyed by fixture ids.
    pub open spec fn wf(&self) -> bool {
        match self.transition {
            Some(tr) => {
                &&& tr.from.wf()
                &&& tr.to.wf()
                &&& map_resolved(tr.from@)
                &&& map_resolved(tr.to@)
                &&& keys_u32(tr.from@)
                &&& keys_u32(tr.to@)
            },
            None => true,
        }
    }

    /// An idle playback over the named cue list, in tracking mode.
    pub fn new(cuelist: &str) -> (pb: Self)
        ensures
            pb.wf(),
            pb.cuelist@ == cuelist@,
            pb.current is None,
            pb.mode == PlaybackMode::Tracking,
            pb.transition is None,
    {
        Playback {
            cuelist: String::from_str(cuelist),
            current: None,
            mode: PlaybackMode::Tracking,
            transition: None,
        }
    }

    /// The state that tracking assigns at `cue_num`: cues folded in ascending numeric
    /// order while their number is <= `cue_num`.
    fn tracked_state_at(&self, show: &Show, cue_num: u32) -> (r: Result<
        OrderedMap<FixtureValues>,
        ConsoleError,
    >)
        requires
            show.wf(),
        ensures
            r is Ok <==> pb_defined(*show, *self),
            r matches Ok(m) ==> m.wf() && keys_u32(m@) && m@ == tracked_state_of(
                show.cue_lists@[self.cuelist@],
                cue_num,
            ),
            r matches Err(e) ==> e matches ConsoleError::UnknownCueList(t) && t@ == self.cuelist@,
    {
        let cl = match show.cue_list(self.cuelist.as_str()) {
            Some(cl) => cl,
            None => {
                return Err(ConsoleError::UnknownCueList(String::from_str(self.cuelist.as_str())));
            },
        };
        let mut accum: OrderedMap<FixtureValues> = OrderedMap::new();
        let ghost nums = cl.cues.key_seq();
        let n = cl.cues.len();
        let mut i: usize = 0;
        while i < n
            invariant
                show.wf(),
                cl.wf(),
                accum.wf(),
                keys_u32(accum@),
                *cl == show.cue_lists@[self.cuelist@],
                show.cue_lists@.contains_key(self.cuelist@),
                nums == cl.cues.key_seq(),
                n == nums.len(),
                i <= n,
                accum@ == tracked_map(cl.cues@, nums.take(i as int), cue_num),
            decreases n - i,
        {
            let num = cl.cues.key_at(i);
            let cue = cl.cues.val_at(i);
            proof {
                cl.cues.lemma_at(i as int);
                assert(nums.take(i as int + 1).drop_last() =~= nums.take(i as int));
                assert(nums.take(i as int + 1).last() == nums[i as int]);
            }
            if num <= cue_num as u64 {
                let ghost m_in = accum@;
                let ghost ckeys = cue.changes.key_seq();
                if cue.block {
                    let cn = cue.changes.len();
                    let mut j: usize = 0;
                    while j < cn
                        invariant
                            cue.wf(),
                            accum.wf(),
                            keys_u32(accum@),
                            ckeys == cue.changes.key_seq(),
                            cn == ckeys.len(),
                            j <= cn,
                            accum@ == apply_block_resets(m_in, ckeys.take(j as int)),
                        decreases cn - j,
                    {
                        let fid = cue.changes.key_at(j);
                        proof {
                            cue.changes.lemma_at(j as int);
                            assert(ckeys.take(j as int + 1).drop_last() =~= ckeys.take(j as int));
                            assert(ckeys.take(j as int + 1).last() == ckeys[j as int]);
                        }
                        accum.set(fid, FixtureValues::unset());
                        j += 1;
                    }
                    proof {
                        assert(ckeys.take(cn as int) =~= ckeys);
                    }
                }
                let ghost base = accum@;
                let cn = cue.changes.len();
                let mut j: usize = 0;
                while j < cn
                    invariant
                        cue.wf(),
                        accum.wf(),
                        keys_u32(accum@),
                        ckeys == cue.changes.key_seq(),
                        cn == ckeys.len(),
                        j <= cn,
                        accum@ == apply_changes(base, cue.changes@, ckeys.take(j as int)),
                    decreases cn - j,
                {
                    let fid = cue.changes.key_at(j);
                    let delta = *cue.changes.val_at(j);
                    proof {
                        cue.changes.lemma_at(j as int);
                        assert(ckeys.take(j as int + 1).drop_last() =~= ckeys.take(j as int));
                        assert(ckeys.take(j as int + 1).last() == ckeys[j as int]);
                    }
                    let mut cur = match accum.get(fid) {
                        Some(v) => *v,
                        None => FixtureValues::unset(),
                    };
                    cur.apply_delta(&delta);
                    accum.set(fid, cur);
                    j += 1;
                }
                proof {
                    assert(ckeys.take(cn as int) =~= ckeys);
                    assert(accum@ == cue_step(m_in, *cue));
                    assert(cl.cues@[nums[i as int]] == *cue);
                }
            }
            i += 1;
        }
        proof {
            assert(nums.take(n as int) =~= nums);
        }
        Ok(accum)
    }

    /// The cue-only state at `cue_num`: that cue's own changes.
    fn cue_only_state_at(&self, show: &Show, cue_num: u32) -> (r: Result<
        OrderedMap<FixtureValues>,
        ConsoleError,
    >)
        requires
            show.wf(),
        ensures
            r is Ok <==> pb_defined(*show, *self),
            r matches Ok(m) ==> m.wf() && keys_u32(m@) && m@ == cue_only_map(
                show.cue_lists@[self.cuelist@],
                cue_num,
            ),
            r matches Err(e) ==> e matches ConsoleError::UnknownCueList(t) && t@ == self.cuelist@,
    {
        let cl = match show.cue_list(self.cuelist.as_str()) {
            Some(cl) => cl,
            None => {
                return Err(ConsoleError::UnknownCueList(String::from_str(self.cuelist.as_str())));
            },
        };
        match cl.get(cue_num) {
            Some(c) => Ok(c.changes.duplicate()),
            None => Ok(OrderedMap::new()),
        }
    }

    /// The state the playback's mode assigns to `cue_num`.
    fn state_map_at(&self, show: &Show, cue_num: u32) -> (r: Result<
        OrderedMap<FixtureValues>,
        ConsoleError,
    >)
        requires
            show.wf(),
        ensures
            r is Ok <==> pb_defined(*show, *self),
            r matches Ok(m) ==> m.wf() && keys_u32(m@) && m@ == state_at(*show, *self, cue_num),
            r matches Err(e) ==> e matches ConsoleError::UnknownCueList(t) && t@ == self.cuelist@,
    {
        match self.mode {
            PlaybackMode::Tracking => self.tracked_state_at(show, cue_num),
            PlaybackMode::CueOnly => self.cue_only_state_at(show, cue_num),
        }
    }

    /// The momentary visible output: `from` during the delay, the
    /// interpolation during the fade, the resolved state when steady.
    pub fn output_state_map(&self, show: &Show) -> (r: Result<
        OrderedMap<FixtureValues>,
        ConsoleError,
    >)
        requires
            self.wf(),
            show.wf(),
        ensures
            r is Ok <==> pb_output_defined(*show, *self),
            r matches Ok(m) ==> m.wf() && keys_u32(m@) && map_resolved(m@) && m@ == pb_output(
                *show,
                *self,
            ),
            r matches Err(e) ==> e matches ConsoleError::UnknownCueList(t) && t@ == self.cuelist@,
    {
        match &self.transition {
            Some(tr) => {
                if tr.elapsed_ms < tr.delay_ms {
                    Ok(tr.from.duplicate())
                } else if tr.fade_ms == 0 {
                    Ok(tr.to.duplicate())
                } else {
                    let waited = tr.elapsed_ms - tr.delay_ms;
                    let t = if waited >= tr.fade_ms {
                        tr.fade_ms
                    } else {
                        waited
                    };
                    let m = interpolate_maps(&tr.from, &tr.to, t, tr.fade_ms);
                    Ok(m)
                }
            },
            None => {
                match self.current {
                    None => Ok(OrderedMap::new()),
                    Some(cur) => {
                        let raw = match self.state_map_at(show, cur) {
                            Ok(m) => m,
                            Err(e) => {
                                return Err(e);
                            },
                        };
                        Ok(resolve_map(raw))
                    },
                }
            },
        }
    }

    /// The mode's state at the current cue; empty when idle.
    pub fn state_map(&self, show: &Show) -> (r: Result<OrderedMap<FixtureValues>, ConsoleError>)
        requires
            show.wf(),
        ensures
            r is Ok <==> (self.current is None || pb_defined(*show, *self)),
            r matches Ok(m) ==> m.wf() && keys_u32(m@) && m@ == (match self.current {
                Some(cur) => state_at(*show, *self, cur),
                None => Map::<u64, FixtureValues>::empty(),
            }),
            r matches Err(e) ==> e matches ConsoleError::UnknownCueList(t) && t@ == self.cuelist@,
    {
        match self.current {
            None => Ok(OrderedMap::new()),
            Some(cur) => self.state_map_at(show, cur),
        }
    }

    /// The state that tracking assigns at the current cue; empty when idle.
    pub fn tracked_state(&self, show: &Show) -> (r: Result<
        OrderedMap<FixtureValues>,
        ConsoleError,
    >)
        requires
            show.wf(),
        ensures
            r is Ok <==> (self.current is None || pb_defined(*show, *self)),
            r matches Ok(m) ==> m.wf() && keys_u32(m@) && m@ == (match self.current {
                Some(cur) => tracked_state_of(show.cue_lists@[self.cuelist@], cur),
                None => Map::<u64, FixtureValues>::empty(),
            }),
            r matches Err(e) ==> e matches ConsoleError::UnknownCueList(t) && t@ == self.cuelist@,
    {
        match self.current {
            None => Ok(OrderedMap::new()),
            Some(cur) => self.tracked_state_at(show, cur),
        }
    }

    /// The cue-only state at the current cue; empty when idle.
    fn cue_only_state(&self, show: &Show) -> (r: Result<OrderedMap<FixtureValues>, ConsoleError>)
        requires
            show.wf(),
        ensures
            r is Ok <==> (self.current is None || pb_defined(*show, *self)),
            r matches Ok(m) ==> m.wf() && keys_u32(m@) && m@ == (match self.current {
                Some(cur) => cue_only_map(show.cue_lists@[self.cuelist@], cur),
                None => Map::<u64, FixtureValues>::empty(),
            }),
            r matches Err(e) ==> e matches ConsoleError::UnknownCueList(t) && t@ == self.cuelist@,
    {
        match self.current {
            None => Ok(OrderedMap::new()),
            Some(cur) => self.cue_only_state_at(show, cur),
        }
    }

    /// Jump to a cue number (it need not exist in the list).
    pub fn goto(&mut self, show: &Show, cue: u32) -> (r: Result<(), ConsoleError>)
        requires
            old(self).wf(),
            show.wf(),
        ensures
            final(self).wf(),
            final(self).cuelist@ == old(self).cuelist@,
            final(self).mode == old(self).mode,
            r is Ok <==> pb_defined(*show, *old(self)),
            r is Ok ==> activated(*show, *old(self), *final(self), cue),
            r is Err ==> final(self).current == old(self).current
                && final(self).transition == old(self).transition,
            r matches Err(e) ==> e matches ConsoleError::UnknownCueList(t)
                && t@ == old(self).cuelist@,
    {
        self.activate(show, cue)
    }

    /// Capture the momentary output as `from`, compute the target state,
    /// and either snap (zero timings) or start a transition.
    fn activate(&mut self, show: &Show, target: u32) -> (r: Result<(), ConsoleError>)
        requires
            old(self).wf(),
            show.wf(),
        ensures
            final(self).wf(),
            final(self).cuelist@ == old(self).cuelist@,
            final(self).mode == old(self).mode,
            r is Ok <==> pb_defined(*show, *old(self)),
            r is Ok ==> activated(*show, *old(self), *final(self), target),
            r is Err ==> final(self).current == old(self).current
                && final(self).transition == old(self).transition,
            r matches Err(e) ==> e matches ConsoleError::UnknownCueList(t)
                && t@ == old(self).cuelist@,
    {
        let from = match self.output_state_map(show) {
            Ok(m) => m,
            Err(e) => {
                return Err(e);
            },
        };
        let fade_ms: u32;
        let delay_ms: u32;
        {
            let cl = match show.cue_list(self.cuelist.as_str()) {
                Some(cl) => cl,
                None => {
                    return Err(
                        ConsoleError::UnknownCueList(String::from_str(self.cuelist.as_str())),
                    );
                },
            };
            match cl.get(target) {
                Some(cue) => {
                    fade_ms = cue.fade_ms;
                    delay_ms = cue.delay_ms;
                },
                None => {
                    fade_ms = 0;
                    delay_ms = 0;
                },
            }
        }
        let to_raw = match self.state_map_at(show, target) {
            Ok(m) => m,
            Err(e) => {
                return Err(e);
            },
        };
        let to = resolve_map(to_raw);
        self.current = Some(target);
        if fade_ms == 0 && delay_ms == 0 {
            self.transition = None;
            return Ok(());
        }
        self.transition = Some(Transition { from, to, elapsed_ms: 0, fade_ms, delay_ms });
        Ok(())
    }

    /// Go: the next cue after the current one, the first cue when idle,
    /// the current cue again on the last cue; idle when the list is empty.
    pub fn go(&mut self, show: &Show) -> (r: Result<Option<u32>, ConsoleError>)
        requires
            old(self).wf(),
            show.wf(),
        ensures
            final(self).wf(),
            final(self).cuelist@ == old(self).cuelist@,
            final(self).mode == old(self).mode,
            r is Ok <==> pb_defined(*show, *old(self)),
            r is Err ==> final(self).current == old(self).current
                && final(self).transition == old(self).transition,
            r matches Err(e) ==> e matches ConsoleError::UnknownCueList(t)
                && t@ == old(self).cuelist@,
            r is Ok ==> {
                let cl = show.cue_lists@[old(self).cuelist@];
                if cl.cues.key_seq().len() == 0 {
                    &&& r == Ok::<Option<u32>, ConsoleError>(None)
                    &&& final(self).current is None
                    &&& final(self).transition is None
                } else {
                    &&& r == Ok::<Option<u32>, ConsoleError>(
                        Some(go_target(cl, old(self).current)),
                    )
                    &&& activated(
                        *show,
                        *old(self),
                        *final(self),
                        go_target(cl, old(self).current),
                    )
                }
            },
    {
        let next: u32;
        {
            let cl = match show.cue_list(self.cuelist.as_str()) {
                Some(cl) => cl,
                None => {
                    return Err(
                        ConsoleError::UnknownCueList(String::from_str(self.cuelist.as_str())),
                    );
                },
            };
            let n = cl.cues.len();
            if n == 0 {
                self.current = None;
                self.transition = None;
                return Ok(None);
            }
            proof {
                cl.cues.lemma_at(0);
            }
            next = match self.current {
                None => cl.cues.key_at(0) as u32,
                Some(cur) => {
                    let mut i: usize = 0;
                    let mut found: Option<u32> = None;
                    while i < n
                        invariant_except_break
                            found is None,
                        invariant
                            cl.wf(),
                            n == cl.cues.key_seq().len(),
                            i <= n,
                            forall|j: int| 0 <= j < i ==> cl.cues.key_seq()[j] <= cur as u64,
                        ensures
                            match found {
                                Some(k) => first_after(cl.cues.key_seq(), cur as u64) == Some(
                                    k as u64,
                                ),
                                None => forall|j: int|
                                    0 <= j < cl.cues.key_seq().len() ==> cl.cues.key_seq()[j]
                                        <= cur as u64,
                            },
                        decreases n - i,
                    {
                        let k = cl.cues.key_at(i);
                        if k > cur as u64 {
                            proof {
                                cl.cues.lemma_at(i as int);
                                lemma_first_after_at(cl.cues.key_seq(), i as int, cur as u64);
                            }
                            found = Some(k as u32);
                            break ;
                        }
                        i += 1;
                    }
                    proof {
                        if found is None {
                            lemma_first_after_none(cl.cues.key_seq(), cur as u64);
                        }
                    }
                    match found {
                        Some(x) => x,
                        None => cur,
                    }
                },
            };
        }
        match self.activate(show, next) {
            Ok(()) => Ok(Some(next)),
            Err(e) => Err(e),
        }
    }

    /// Advance a running transition; it completes once the accumulated
    /// time reaches delay + fade. Time saturates rather than wrapping.
    pub fn tick(&mut self, dt_ms: u32)
        requires
            old(self).wf(),
        ensures
            final(self).wf(),
            ticked(*old(self), *final(self), dt_ms),
    {
        match self.transition.take() {
            None => {},
            Some(mut tr) => {
                tr.elapsed_ms = tr.elapsed_ms.saturating_add(dt_ms);
                let done_at = tr.delay_ms.saturating_add(tr.fade_ms);
                if tr.elapsed_ms < done_at {
                    self.transition = Some(tr);
                }
            },
        }
    }

    /// Deleting the cue a playback sits on clears its cursor and any
    /// running transition.
    pub fn on_cue_deleted(&mut self, number: u32)
        requires
            old(self).wf(),
        ensures
            final(self).wf(),
            final(self).cuelist@ == old(self).cuelist@,
            final(self).mode == old(self).mode,
            old(self).current == Some(number) ==> final(self).current is None
                && final(self).transition is None,
            old(self).current != Some(number) ==> final(self).current == old(self).current
                && final(self).transition == old(self).transition,
    {
        let clear = match self.current {
            Some(c) => c == number,
            None => false,
        };
        if clear {
            self.current = None;
            self.transition = None;
        }
    }

    /// The running transition's (elapsed, delay, fade), if any.
    pub fn transition_info(&self) -> (r: Option<(u32, u32, u32)>)
        ensures
            match self.transition {
                Some(tr) => r == Some((tr.elapsed_ms, tr.delay_ms, tr.fade_ms)),
                None => r is None,
            },
    {
        match &self.transition {
            Some(tr) => Some((tr.elapsed_ms, tr.delay_ms, tr.fade_ms)),
            None => None,
        }
    }
}

/// The live state obtained by rendering each fixture of `vals`, in the
/// order given by `fids`.
pub open spec fn rendered_points(show: Show, vals: Map<u64, FixtureValues>, fids: Seq<u64>) -> Map<
    u64,
    u8,
>
    decreases fids.len(),
{
    if fids.len() == 0 {
        Map::empty()
    } else {
        let m = rendered_points(show, vals, fids.drop_last());
        let f = show.patch.fixtures@[fids.last()];
        let ft = show.patch.fixture_types@[f.fixture_type@];
        value_points(m, f, ft, vals[fids.last()], ft.channels@.len() as int)
    }
}

proof fn lemma_apply_block_lookup(m: Map<u64, FixtureValues>, keys: Seq<u64>, fid: u64)
    ensures
        keys.contains(fid) ==> apply_block_resets(m, keys).contains_key(fid)
            && apply_block_resets(m, keys)[fid] == unset_values(),
        !keys.contains(fid) ==> (apply_block_resets(m, keys).contains_key(fid)
            <==> m.contains_key(fid)) && (m.contains_key(fid) ==> apply_block_resets(m, keys)[fid]
            == m[fid]),
    decreases keys.len(),
{
    if keys.len() > 0 {
        lemma_apply_block_lookup(m, keys.drop_last(), fid);
        if keys.contains(fid) && keys.last() != fid {
            let j = choose|j: int| 0 <= j < keys.len() && keys[j] == fid;
            assert(keys.drop_last()[j] == fid);
        }
        if keys.drop_last().contains(fid) {
            assert(keys.contains(fid)) by {
                let j = choose|j: int| 0 <= j < keys.len() - 1 && keys.drop_last()[j] == fid;
                assert(keys[j] == fid);
            }
        }
    }
}

proof fn lemma_apply_changes_lookup(
    m: Map<u64, FixtureValues>,
    changes: Map<u64, FixtureValues>,
    keys: Seq<u64>,
    fid: u64,
)
    requires
        forall|i: int, j: int| 0 <= i < j < keys.len() ==> keys[i] != keys[j],
    ensures
        keys.contains(fid) ==> apply_changes(m, changes, keys).contains_key(fid) && apply_changes(
            m,
            changes,
            keys,
        )[fid] == apply_values(map_or_unset(m, fid), changes[fid]),
        !keys.contains(fid) ==> (apply_changes(m, changes, keys).contains_key(fid)
            <==> m.contains_key(fid)) && (m.contains_key(fid) ==> apply_changes(m, changes, keys)[fid]
            == m[fid]),
    decreases keys.len(),
{
    if keys.len() > 0 {
        lemma_apply_changes_lookup(m, changes, keys.drop_last(), fid);
        let last = keys.last();
        if last == fid {
            assert(keys.contains(fid)) by {
                assert(keys[keys.len() - 1] == fid);
            }
            assert(!keys.drop_last().contains(fid)) by {
                if keys.drop_last().contains(fid) {
                    let j = choose|j: int| 0 <= j < keys.len() - 1 && keys.drop_last()[j] == fid;
                    assert(keys[j] == fid);
                }
            }
        } else {
            if keys.contains(fid) {
                let j = choose|j: int| 0 <= j < keys.len() && keys[j] == fid;
                assert(keys.drop_last()[j] == fid);
            }
            if keys.drop_last().contains(fid) {
                let j = choose|j: int| 0 <= j < keys.len() - 1 && keys.drop_last()[j] == fid;
                assert(keys[j] == fid);
            }
        }
    }
}

/// What one cue does to one fixture's accumulated entry: a listed
/// fixture gets the cue's delta applied (onto a blank when the cue
/// blocks), an unlisted fixture is untouched.
pub proof fn lemma_cue_step_lookup(m: Map<u64, FixtureValues>, cue: Cue, fid: u64)
    requires
        cue.wf(),
    ensures
        cue.changes@.contains_key(fid) ==> cue_step(m, cue).contains_key(fid) && cue_step(m, cue)[fid]
            == apply_values(
            if cue.block {
                unset_values()
            } else {
                map_or_unset(m, fid)
            },
            cue.changes@[fid],
        ),
        !cue.changes@.contains_key(fid) ==> (cue_step(m, cue).contains_key(fid)
            <==> m.contains_key(fid)) && (m.contains_key(fid) ==> cue_step(m, cue)[fid] == m[fid]),
{
    let keys = cue.changes.key_seq();
    cue.changes.lemma_key_seq();
    let base = if cue.block {
        apply_block_resets(m, keys)
    } else {
        m
    };
    lemma_apply_block_lookup(m, keys, fid);
    lemma_apply_changes_lookup(base, cue.changes@, keys, fid);
}

/// The fixture/channel a cue influences: it lists the fixture and either
/// blocks it or sets that channel.
pub open spec fn cue_touches(cue: Cue, fid: u64, ch: ChannelKind) -> bool {
    cue.changes@.contains_key(fid) && (cue.block || kind_value(cue.changes@[fid], ch) is Some)
}

/// Tracking transparency: once a cue sets a channel of a fixture, the
/// tracked state carries that value up to `upto`, as long as no later
/// applied cue sets the same channel or blocks the fixture.
pub proof fn lemma_tracking_transparency(
    cues: Map<u64, Cue>,
    nums: Seq<u64>,
    upto: u32,
    i: int,
    fid: u64,
    ch: ChannelKind,
)
    requires
        forall|j: int|
            0 <= j < nums.len() ==> cues.contains_key(#[trigger] nums[j]) && cues[nums[j]].wf(),
        0 <= i < nums.len(),
        nums[i] <= upto as u64,
        cues[nums[i]].changes@.contains_key(fid),
        kind_value(cues[nums[i]].changes@[fid], ch) is Some,
        forall|j: int|
            i < j < nums.len() && #[trigger] nums[j] <= upto as u64 ==> !cue_touches(
                cues[nums[j]],
                fid,
                ch,
            ),
    ensures
        tracked_map(cues, nums, upto).contains_key(fid),
        kind_value(tracked_map(cues, nums, upto)[fid], ch) == kind_value(
            cues[nums[i]].changes@[fid],
            ch,
        ),
    decreases nums.len(),
{
    let l = nums.len() - 1;
    let prev = tracked_map(cues, nums.drop_last(), upto);
    if i == l {
        lemma_cue_step_lookup(prev, cues[nums[i]], fid);
    } else {
        lemma_tracking_transparency(cues, nums.drop_last(), upto, i, fid, ch);
        if nums[l] <= upto as u64 {
            lemma_cue_step_lookup(prev, cues[nums[l]], fid);
            assert(!cue_touches(cues[nums[l]], fid, ch));
        }
    }
}

/// Block semantics: immediately after a block cue that lists a fixture,
/// the tracked entry of that fixture is exactly the cue's own delta —
/// no earlier contribution survives.
pub proof fn lemma_block_semantics(
    cues: Map<u64, Cue>,
    nums: Seq<u64>,
    upto: u32,
    i: int,
    fid: u64,
)
    requires
        forall|j: int|
            0 <= j < nums.len() ==> cues.contains_key(#[trigger] nums[j]) && cues[nums[j]].wf(),
        0 <= i < nums.len(),
        nums[i] <= upto as u64,
        cues[nums[i]].block,
        cues[nums[i]].changes@.contains_key(fid),
        forall|j: int| i < j < nums.len() ==> #[trigger] nums[j] > upto as u64,
    ensures
        tracked_map(cues, nums, upto).contains_key(fid),
        tracked_map(cues, nums, upto)[fid] == apply_values(
            unset_values(),
            cues[nums[i]].changes@[fid],
        ),
    decreases nums.len(),
{
    let l = nums.len() - 1;
    let prev = tracked_map(cues, nums.drop_last(), upto);
    if i == l {
        lemma_cue_step_lookup(prev, cues[nums[i]], fid);
    } else {
        lemma_block_semantics(cues, nums.drop_last(), upto, i, fid);
    }
}

/// Interpolation endpoints: over resolved maps of equal footprint, time
/// zero yields `from` and full time yields `to`.
pub proof fn lemma_interp_endpoints(
    from: Map<u64, FixtureValues>,
    to: Map<u64, FixtureValues>,
    dur: int,
)
    requires
        map_resolved(from),
        map_resolved(to),
        from.dom() == to.dom(),
        dur > 0,
    ensures
        interp_maps(from, to, 0, dur) == from,
        interp_maps(from, to, dur, dur) == to,
{
    assert forall|k: u64| #[trigger] from.contains_key(k) implies interp_maps(from, to, 0, dur)[k]
        == from[k] && interp_maps(from, to, dur, dur)[k] == to[k] by {
        assert(to.contains_key(k));
        let f = from[k];
        let t = to[k];
        assert forall|x: u8, y: u8| lerp_byte(x, y, 0, dur) == x && #[trigger] lerp_byte(
            x,
            y,
            dur,
            dur,
        ) == y by {
            if y >= x {
                assert(((y - x) * 0) / dur == 0);
                lemma_div_by_multiple((y - x) as int, dur);
                assert(((y - x) * dur) / dur == y - x);
            } else {
                assert(((x - y) * 0) / dur == 0);
                lemma_div_by_multiple((x - y) as int, dur);
                assert(((x - y) * dur) / dur == x - y);
            }
        }
        assert(lerp_values(f, t, 0, dur) == f);
        assert(lerp_values(f, t, dur, dur) == t);
    }
    assert(interp_maps(from, to, 0, dur) =~= from);
    assert(interp_maps(from, to, dur, dur) =~= to);
}

/// The halfway value of the integer lerp: `from + (to - from) / 2`,
/// division truncating toward `from`.
pub open spec fn mid_byte(x: u8, y: u8) -> u8 {
    if y >= x {
        (x + (y - x) / 2) as u8
    } else {
        (x - (x - y) / 2) as u8
    }
}

/// Interpolation midpoint: at half of an even fade, each channel sits at
/// `from + (to - from) / 2` (integer division, in range by construction).
pub proof fn lemma_lerp_midpoint(x: u8, y: u8, dur: int)
    requires
        dur > 0,
        dur % 2 == 0,
    ensures
        lerp_byte(x, y, dur / 2, dur) == mid_byte(x, y),
{
    let h = dur / 2;
    assert(dur == 2 * h);
    assert forall|d: int| 0 <= d <= 255 implies #[trigger] ((d * h) / (2 * h)) == d / 2 by {
        lemma_fundamental_div_mod(d, 2);
        let q = d / 2;
        let r = d % 2;
        assert(d * h == (2 * h) * q + r * h) by (nonlinear_arith)
            requires
                d == 2 * q + r,
        ;
        assert(0 <= r * h < 2 * h) by (nonlinear_arith)
            requires
                0 <= r < 2,
                h > 0,
        ;
        lemma_div_multiples_vanish_fancy(q, r * h, 2 * h);
    }
    if y >= x {
        assert(((y - x) * h) / (2 * h) == (y - x) / 2);
    } else {
        assert(((x - y) * h) / (2 * h) == (x - y) / 2);
    }
}

/// Transition endpoints, at the playback level: at time zero the output
/// is `from`, at or past delay + fade it is `to`, and halfway through an
/// even fade each channel is the integer midpoint.
pub proof fn lemma_transition_endpoints(show: Show, pb: Playback)
    requires
        pb.wf(),
        pb.transition is Some,
        (pb.transition->Some_0).from@.dom() == (pb.transition->Some_0).to@.dom(),
    ensures
        ({
            let tr = pb.transition->Some_0;
            &&& (tr.elapsed_ms == 0 && tr.delay_ms + tr.fade_ms > 0) ==> pb_output(show, pb)
                == tr.from@
            &&& tr.elapsed_ms >= tr.delay_ms + tr.fade_ms ==> pb_output(show, pb) == tr.to@
        }),
{
    let tr = pb.transition->Some_0;
    if tr.elapsed_ms == 0 && tr.delay_ms + tr.fade_ms > 0 {
        if tr.delay_ms == 0 {
            lemma_interp_endpoints(tr.from@, tr.to@, tr.fade_ms as int);
        }
    }
    if tr.elapsed_ms >= tr.delay_ms + tr.fade_ms && tr.fade_ms > 0 {
        lemma_interp_endpoints(tr.from@, tr.to@, tr.fade_ms as int);
    }
}

/// Transition midpoint, at the playback level: halfway through an even
/// fade, every fixture's channels are the integer midpoints.
pub proof fn lemma_transition_midpoint(show: Show, pb: Playback, k: u64)
    requires
        pb.wf(),
        pb.transition is Some,
        (pb.transition->Some_0).fade_ms > 0,
        (pb.transition->Some_0).fade_ms % 2 == 0,
        (pb.transition->Some_0).delay_ms + (pb.transition->Some_0).fade_ms / 2 <= u32::MAX,
        (pb.transition->Some_0).elapsed_ms == (pb.transition->Some_0).delay_ms + (
        pb.transition->Some_0).fade_ms / 2,
        (pb.transition->Some_0).from@.contains_key(k) || (pb.transition->Some_0).to@.contains_key(
            k,
        ),
    ensures
        ({
            let tr = pb.transition->Some_0;
            let f = map_or_unset(tr.from@, k);
            let t = map_or_unset(tr.to@, k);
            &&& pb_output(show, pb).contains_key(k)
            &&& pb_output(show, pb)[k] == FixtureValues {
                intensity: Some(mid_byte(opt_or_zero(f.intensity), opt_or_zero(t.intensity))),
                r: Some(mid_byte(opt_or_zero(f.r), opt_or_zero(t.r))),
                g: Some(mid_byte(opt_or_zero(f.g), opt_or_zero(t.g))),
                b: Some(mid_byte(opt_or_zero(f.b), opt_or_zero(t.b))),
            }
        }),
{
    let tr = pb.transition->Some_0;
    let f = map_or_unset(tr.from@, k);
    let t = map_or_unset(tr.to@, k);
    let half = tr.fade_ms as int / 2;
    assert(tr.elapsed_ms - tr.delay_ms == half);
    assert(half < tr.fade_ms as int);
    lemma_lerp_midpoint(opt_or_zero(f.intensity), opt_or_zero(t.intensity), tr.fade_ms as int);
    lemma_lerp_midpoint(opt_or_zero(f.r), opt_or_zero(t.r), tr.fade_ms as int);
    lemma_lerp_midpoint(opt_or_zero(f.g), opt_or_zero(t.g), tr.fade_ms as int);
    lemma_lerp_midpoint(opt_or_zero(f.b), opt_or_zero(t.b), tr.fade_ms as int);
}

/// Chained Go: starting a new transition while one is mid-way captures
/// the momentary interpolated output as the new `from`.
pub proof fn lemma_chained_go(show: Show, pre: Playback, post: Playback, target: u32)
    requires
        activated(show, pre, post, target),
        post.transition is Some,
    ensures
        (post.transition->Some_0).from@ == pb_output(show, pre),
{
}

impl Playback {
    /// Render the visible output of the cue list to addresses.
    pub fn render(&self, show: &Show) -> (r: Result<LiveState, ConsoleError>)
        requires
            self.wf(),
            show.wf(),
        ensures
            r is Ok <==> (pb_output_defined(*show, *self) && crate::engine::ids_renderable(
                *show,
                crate::ordmap::ascending_seq_of(pb_output(*show, *self).dom()),
            )),
            r matches Ok(live) ==> live.wf() && live.points@ == rendered_points(
                *show,
                pb_output(*show, *self),
                crate::ordmap::ascending_seq_of(pb_output(*show, *self).dom()),
            ),
            r matches Err(ConsoleError::UnknownCueList(t)) ==> t@ == self.cuelist@
                && !pb_defined(*show, *self),
    {
        let state = match self.output_state_map(show) {
            Ok(m) => m,
            Err(e) => {
                return Err(e);
            },
        };
        proof {
            state.lemma_key_seq_ascending();
        }
        let ghost fids = state.key_seq();
        let mut live = LiveState::new();
        let n = state.len();
        let mut i: usize = 0;
        while i < n
            invariant
                show.wf(),
                state.wf(),
                keys_u32(state@),
                live.wf(),
                state@ == pb_output(*show, *self),
                fids == state.key_seq(),
                n == fids.len(),
                i <= n,
                crate::engine::ids_renderable(*show, fids.take(i as int)),
                live.points@ == rendered_points(*show, state@, fids.take(i as int)),
            decreases n - i,
        {
            let fid = state.key_at(i);
            proof {
                state.lemma_at(i as int);
                assert(fids.take(i as int + 1).drop_last() =~= fids.take(i as int));
                assert(fids.take(i as int + 1).last() == fids[i as int]);
            }
            let vals = state.val_at(i);
            match render_fixture_values(show, fid as u32, vals, &mut live) {
                Ok(()) => {},
                Err(e) => {
                    proof {
                        state.lemma_key_seq_ascending();
                        assert(fid <= u32::MAX);
                        assert((fid as u32) as u64 == fid);
                        assert(!crate::engine::fixture_renderable(*show, fid));
                        if crate::engine::ids_renderable(*show, fids) {
                            assert(crate::engine::fixture_renderable(*show, fids[i as int]));
                            assert(false);
                        }
                    }
                    return Err(e);
                },
            }
            proof {
                assert forall|j: int| 0 <= j < i + 1 implies {
                    let id = #[trigger] fids.take(i as int + 1)[j];
                    &&& show.patch.fixtures@.contains_key(id)
                    &&& show.patch.fixture_types@.contains_key(
                        show.patch.fixtures@[id].fixture_type@,
                    )
                    &&& fixture_addresses_ok(
                        show.patch.fixtures@[id],
                        show.patch.fixture_types@[show.patch.fixtures@[id].fixture_type@],
                    )
                } by {
                    if j < i {
                        assert(fids.take(i as int)[j] == fids.take(i as int + 1)[j]);
                    }
                }
            }
            i += 1;
        }
        proof {
            assert(fids.take(n as int) =~= fids);
        }
        Ok(live)
    }
}

} // verus!
