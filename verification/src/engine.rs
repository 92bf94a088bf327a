//! The programmer (live edit buffer) and the sparse DMX output state.

use vstd::prelude::*;

use crate::cues::FixtureValues;
use crate::ordmap::OrderedMap;
use crate::palette::{Palette, PaletteKind, PaletteValues};
use crate::{ChannelKind, ConsoleError, FixtureInstance, FixtureType, Show};
use vstd::string::StringExecFns;

verus! {

/// A (universe, address) point packed into one ordered key: ascending key
/// order is ascending (universe, address) order.
pub open spec fn live_key(universe: u16, address: u16) -> u64 {
    (universe as u64 * 0x10000 + address as u64) as u64
}

/// The universe half of a packed point.
pub open spec fn key_universe(k: u64) -> u16 {
    (k / 0x10000) as u16
}

/// The address half of a packed point.
pub open spec fn key_address(k: u64) -> u16 {
    (k % 0x10000) as u16
}

pub broadcast proof fn lemma_live_key_unpack(universe: u16, address: u16)
    ensures
        key_universe(#[trigger] live_key(universe, address)) == universe,
        key_address(live_key(universe, address)) == address,
        live_key(universe, address) < 0x1_0000_0000u64,
{
    assert(key_universe(live_key(universe, address)) == universe
        && key_address(live_key(universe, address)) == address && live_key(universe, address)
        < 0x1_0000_0000u64) by (nonlinear_arith);
}

/// The nonzero points of a state, in key order, unpacked.
pub open spec fn nonzero_points(keys: Seq<u64>, m: Map<u64, u8>) -> Seq<(u16, u16, u8)>
    decreases keys.len(),
{
    if keys.len() == 0 {
        Seq::empty()
    } else {
        let rest = nonzero_points(keys.drop_last(), m);
        let k = keys.last();
        if m.contains_key(k) && m[k] != 0 {
            rest.push((key_universe(k), key_address(k), m[k]))
        } else {
            rest
        }
    }
}

/// The packed key of an output point.
pub open spec fn point_key(e: (u16, u16, u8)) -> u64 {
    live_key(e.0, e.1)
}

proof fn lemma_repack(k: u64)
    requires
        k < 0x1_0000_0000u64,
    ensures
        live_key(key_universe(k), key_address(k)) == k,
{
    assert(live_key(key_universe(k), key_address(k)) == k) by (nonlinear_arith)
        requires
            k < 0x1_0000_0000u64,
    ;
}

/// The nonzero enumeration ascends in packed-key order, and every entry
/// comes from one of the keys.
pub proof fn lemma_nonzero_points_ascending(keys: Seq<u64>, m: Map<u64, u8>)
    requires
        crate::ordmap::sorted_u64(keys),
        forall|i: int| 0 <= i < keys.len() ==> keys[i] < 0x1_0000_0000u64,
    ensures
        forall|i: int|
            0 <= i < nonzero_points(keys, m).len() ==> keys.contains(
                point_key(#[trigger] nonzero_points(keys, m)[i]),
            ),
        forall|i: int, j: int|
            0 <= i < j < nonzero_points(keys, m).len() ==> point_key(nonzero_points(keys, m)[i])
                < point_key(nonzero_points(keys, m)[j]),
    decreases keys.len(),
{
    if keys.len() > 0 {
        let pre = keys.drop_last();
        let nzp = nonzero_points(pre, m);
        let nz = nonzero_points(keys, m);
        lemma_nonzero_points_ascending(pre, m);
        assert forall|x: u64| pre.contains(x) implies keys.contains(x) && x < keys.last() by {
            let j = choose|j: int| 0 <= j < pre.len() && pre[j] == x;
            assert(keys[j] == x);
        }
        let k = keys.last();
        if m.contains_key(k) && m[k] != 0 {
            lemma_repack(k);
            assert(nz == nzp.push((key_universe(k), key_address(k), m[k])));
            assert(point_key(nz[nz.len() - 1]) == k);
            assert forall|i: int| 0 <= i < nz.len() implies keys.contains(
                point_key(#[trigger] nz[i]),
            ) by {
                if i < nz.len() - 1 {
                    assert(nz[i] == nzp[i]);
                } else {
                    assert(keys[keys.len() - 1] == k);
                }
            }
            assert forall|i: int, j: int| 0 <= i < j < nz.len() implies point_key(nz[i])
                < point_key(nz[j]) by {
                if j < nz.len() - 1 {
                    assert(nz[i] == nzp[i] && nz[j] == nzp[j]);
                } else {
                    assert(nz[i] == nzp[i]);
                    assert(pre.contains(point_key(nzp[i])));
                }
            }
        }
    }
}

/// Sparse DMX-like output: (universe, address) -> value.
/// Absent points read as 0 at render time.
pub struct LiveState {
    pub points: OrderedMap<u8>,
}

impl LiveState {
    /// Points are sorted and every key is a packed (universe, address).
    pub open spec fn wf(&self) -> bool {
        &&& self.points.wf()
        &&& forall|k: u64| #[trigger] self.points@.contains_key(k) ==> k < 0x1_0000_0000u64
    }

    pub fn new() -> (s: Self)
        ensures
            s.wf(),
            s.points@ == Map::<u64, u8>::empty(),
            s.points.key_seq() == Seq::<u64>::empty(),
    {
        LiveState { points: OrderedMap::new() }
    }

    /// Insert or overwrite one point.
    pub fn set(&mut self, universe: u16, address: u16, value: u8)
        requires
            old(self).wf(),
        ensures
            final(self).wf(),
            final(self).points@ == old(self).points@.insert(live_key(universe, address), value),
    {
        let key: u64 = (universe as u64) * 0x10000 + (address as u64);
        proof {
            lemma_live_key_unpack(universe, address);
        }
        self.points.set(key, value);
    }

    /// Overlay: every point of `top` overwrites the same point of `self`;
    /// points `top` does not address are preserved.
    pub fn overlay(&mut self, top: &LiveState)
        requires
            old(self).wf(),
            top.wf(),
        ensures
            final(self).wf(),
            final(self).points@ == old(self).points@.union_prefer_right(top.points@),
    {
        let n = top.points.len();
        let mut i: usize = 0;
        proof {
            top.points.lemma_key_seq();
        }
        while i < n
            invariant
                self.wf(),
                top.wf(),
                n == top.points.key_seq().len(),
                i <= n,
                forall|k: u64| #[trigger] top.points@.contains_key(k) ==> k < 0x1_0000_0000u64,
                forall|k: u64| top.points@.contains_key(k) <==> top.points.key_seq().contains(k),
                self.points@ == old(self).points@.union_prefer_right(
                    Map::new(
                        |k: u64|
                            top.points@.contains_key(k) && top.points.key_seq().take(
                                i as int,
                            ).contains(k),
                        |k: u64| top.points@[k],
                    ),
                ),
            decreases n - i,
        {
            let k = top.points.key_at(i);
            let v = *top.points.val_at(i);
            self.points.set(k, v);
            proof {
                let prev = Map::new(
                    |k: u64|
                        top.points@.contains_key(k) && top.points.key_seq().take(
                            i as int,
                        ).contains(k),
                    |k: u64| top.points@[k],
                );
                let next = Map::new(
                    |k: u64|
                        top.points@.contains_key(k) && top.points.key_seq().take(
                            i as int + 1,
                        ).contains(k),
                    |k: u64| top.points@[k],
                );
                assert(top.points.key_seq().take(i as int + 1).drop_last() =~= top.points.key_seq(
                ).take(i as int));
                assert forall|x: u64| #[trigger]
                    top.points.key_seq().take(i as int + 1).contains(x) implies x
                    == top.points.key_seq()[i as int] || top.points.key_seq().take(
                    i as int,
                ).contains(x) by {
                    let j = choose|j: int|
                        0 <= j < i + 1 && #[trigger] top.points.key_seq().take(i as int + 1)[j]
                            == x;
                    if j < i {
                        assert(top.points.key_seq().take(i as int)[j] == x);
                    }
                }
                assert(top.points.key_seq().take(i as int + 1).contains(
                    top.points.key_seq()[i as int],
                )) by {
                    assert(top.points.key_seq().take(i as int + 1)[i as int]
                        == top.points.key_seq()[i as int]);
                }
                assert(self.points@ =~= old(self).points@.union_prefer_right(next));
            }
            i += 1;
        }
        proof {
            let full = Map::new(
                |k: u64|
                    top.points@.contains_key(k) && top.points.key_seq().take(n as int).contains(k),
                |k: u64| top.points@[k],
            );
            assert(top.points.key_seq().take(n as int) =~= top.points.key_seq());
            assert(full =~= top.points@);
            assert(self.points@ =~= old(self).points@.union_prefer_right(top.points@));
        }
    }

    /// The nonzero enumeration of a well-formed state ascends strictly
    /// by (universe, address).
    pub proof fn lemma_nonzero_ascending(&self)
        requires
            self.wf(),
        ensures
            ({
                let nz = nonzero_points(self.points.key_seq(), self.points@);
                forall|i: int, j: int|
                    0 <= i < j < nz.len() ==> ((nz[i].0 < nz[j].0) || (nz[i].0 == nz[j].0
                        && nz[i].1 < nz[j].1))
            }),
    {
        let keys = self.points.key_seq();
        let nz = nonzero_points(keys, self.points@);
        self.points.lemma_key_seq();
        assert forall|i: int| 0 <= i < keys.len() implies keys[i] < 0x1_0000_0000u64 by {
            self.points.lemma_at(i);
        }
        lemma_nonzero_points_ascending(keys, self.points@);
        assert forall|i: int, j: int| 0 <= i < j < nz.len() implies ((nz[i].0 < nz[j].0) || (
        nz[i].0 == nz[j].0 && nz[i].1 < nz[j].1)) by {
            assert(point_key(nz[i]) < point_key(nz[j]));
            assert((nz[i].0 < nz[j].0) || (nz[i].0 == nz[j].0 && nz[i].1 < nz[j].1))
                by (nonlinear_arith)
                requires
                    point_key(nz[i]) < point_key(nz[j]),
                    point_key(nz[i]) == nz[i].0 as u64 * 0x10000 + nz[i].1 as u64,
                    point_key(nz[j]) == nz[j].0 as u64 * 0x10000 + nz[j].1 as u64,
                    nz[i].1 < 0x10000,
                    nz[j].1 < 0x10000,
            ;
        }
    }

    /// The nonzero points, ascending by (universe, address).
    pub fn nonzero(&self) -> (r: Vec<(u16, u16, u8)>)
        requires
            self.wf(),
        ensures
            r@ == nonzero_points(self.points.key_seq(), self.points@),
    {
        let n = self.points.len();
        let mut r: Vec<(u16, u16, u8)> = Vec::new();
        let mut i: usize = 0;
        while i < n
            invariant
                self.wf(),
                n == self.points.key_seq().len(),
                i <= n,
                r@ == nonzero_points(self.points.key_seq().take(i as int), self.points@),
            decreases n - i,
        {
            let k = self.points.key_at(i);
            let v = *self.points.val_at(i);
            proof {
                assert(self.points.key_seq().take(i as int + 1).drop_last() =~= self.points.key_seq(
                ).take(i as int));
                assert(self.points.key_seq().take(i as int + 1).last()
                    == self.points.key_seq()[i as int]);
            }
            if v != 0 {
                let u = (k / 0x10000) as u16;
                let a = (k % 0x10000) as u16;
                proof {
                    assert(k < 0x1_0000_0000u64);
                    assert(u == key_universe(k) && a == key_address(k));
                }
                r.push((u, a, v));
            }
            i += 1;
        }
        proof {
            assert(self.points.key_seq().take(n as int) =~= self.points.key_seq());
        }
        r
    }
}

/// The value field a channel kind reads, if any. Pan, tilt and other
/// channels have no matching field and emit nothing.
pub open spec fn kind_value(vals: FixtureValues, kind: ChannelKind) -> Option<u8> {
    match kind {
        ChannelKind::Intensity => vals.intensity,
        ChannelKind::ColorR => vals.r,
        ChannelKind::ColorG => vals.g,
        ChannelKind::ColorB => vals.b,
        _ => None,
    }
}

/// The programmer's partial values, read as one assignment.
pub open spec fn programmer_values(p: Programmer) -> FixtureValues {
    FixtureValues { intensity: p.intensity, r: p.r, g: p.g, b: p.b }
}

/// All channels of `ft` map inside DMX addresses 1..=512 when patched
/// at `f`: channel `i` sits at `address + i`. The bound is per fixture,
/// not a cap on the universe.
pub open spec fn fixture_addresses_ok(f: FixtureInstance, ft: FixtureType) -> bool {
    ft.channels@.len() == 0 || (1 <= f.address && f.address + ft.channels@.len() <= 513)
}

/// The points written on top of `m` for channels `[0, upto)` of one
/// fixture: each channel whose kind matches a set field of `vals` emits
/// that field's value at the channel's address.
pub open spec fn value_points(
    m: Map<u64, u8>,
    f: FixtureInstance,
    ft: FixtureType,
    vals: FixtureValues,
    upto: int,
) -> Map<u64, u8>
    decreases upto,
{
    if upto <= 0 {
        m
    } else {
        let m1 = value_points(m, f, ft, vals, upto - 1);
        match kind_value(vals, ft.channels@[upto - 1].kind) {
            Some(v) => m1.insert(live_key(f.universe, (f.address + upto - 1) as u16), v),
            None => m1,
        }
    }
}

/// The id resolves to a patched fixture with a known type whose channels
/// all map inside the DMX range.
pub open spec fn fixture_renderable(show: Show, id: u64) -> bool {
    &&& show.patch.fixtures@.contains_key(id)
    &&& show.patch.fixture_types@.contains_key(show.patch.fixtures@[id].fixture_type@)
    &&& fixture_addresses_ok(
        show.patch.fixtures@[id],
        show.patch.fixture_types@[show.patch.fixtures@[id].fixture_type@],
    )
}

/// Every id among `ids` is renderable.
pub open spec fn ids_renderable(show: Show, ids: Seq<u64>) -> bool {
    forall|j: int|
        0 <= j < ids.len() ==> {
            let id = #[trigger] ids[j];
            &&& show.patch.fixtures@.contains_key(id)
            &&& show.patch.fixture_types@.contains_key(show.patch.fixtures@[id].fixture_type@)
            &&& fixture_addresses_ok(
                show.patch.fixtures@[id],
                show.patch.fixture_types@[show.patch.fixtures@[id].fixture_type@],
            )
        }
}

/// The projection of the programmer over the selected ids, in order.
pub open spec fn programmer_points(show: Show, p: Programmer, ids: Seq<u64>) -> Map<u64, u8>
    decreases ids.len(),
{
    if ids.len() == 0 {
        Map::empty()
    } else {
        let m = programmer_points(show, p, ids.drop_last());
        let f = show.patch.fixtures@[ids.last()];
        let ft = show.patch.fixture_types@[f.fixture_type@];
        value_points(m, f, ft, programmer_values(p), ft.channels@.len() as int)
    }
}

/// Percent (clamped to 100) scaled to a byte with integer math.
pub open spec fn percent_to_byte(pct: u8) -> u8 {
    let q = if pct > 100 {
        100 as int
    } else {
        pct as int
    };
    ((q * 255) / 100) as u8
}

/// The programmer: the live edit buffer. A selection set plus a partial
/// value assignment; unset fields do not influence their channels.
pub struct Programmer {
    /// Selected fixture ids (values carry no information).
    pub selected: OrderedMap<()>,
    pub intensity: Option<u8>,
    pub r: Option<u8>,
    pub g: Option<u8>,
    pub b: Option<u8>,
}

impl Programmer {
    pub open spec fn wf(&self) -> bool {
        &&& self.selected.wf()
        &&& forall|k: u64| #[trigger] self.selected@.contains_key(k) ==> k <= u32::MAX
    }

    /// The selected fixture ids as a set.
    pub open spec fn selection(&self) -> Set<u64> {
        self.selected@.dom()
    }

    pub fn new() -> (p: Self)
        ensures
            p.wf(),
            p.selection() == Set::<u64>::empty(),
            p.intensity is None,
            p.r is None,
            p.g is None,
            p.b is None,
    {
        let p = Programmer {
            selected: OrderedMap::new(),
            intensity: None,
            r: None,
            g: None,
            b: None,
        };
        proof {
            assert(p.selection() =~= Set::<u64>::empty());
        }
        p
    }

    /// Clear both the selection and the values.
    pub fn clear_all(&mut self)
        ensures
            final(self).wf(),
            final(self).selection() == Set::<u64>::empty(),
            final(self).intensity is None,
            final(self).r is None,
            final(self).g is None,
            final(self).b is None,
    {
        self.selected = OrderedMap::new();
        self.intensity = None;
        self.r = None;
        self.g = None;
        self.b = None;
        proof {
            assert(self.selection() =~= Set::<u64>::empty());
        }
    }

    /// Clear the values, keeping the selection.
    pub fn clear_values(&mut self)
        ensures
            final(self).selected == old(self).selected,
            final(self).intensity is None,
            final(self).r is None,
            final(self).g is None,
            final(self).b is None,
    {
        self.intensity = None;
        self.r = None;
        self.g = None;
        self.b = None;
    }

    /// Add one fixture id to the selection.
    pub fn select_one(&mut self, id: u32)
        requires
            old(self).wf(),
        ensures
            final(self).wf(),
            final(self).selection() == old(self).selection().insert(id as u64),
            final(self).intensity == old(self).intensity,
            final(self).r == old(self).r,
            final(self).g == old(self).g,
            final(self).b == old(self).b,
    {
        self.selected.set(id as u64, ());
    }

    /// Add the inclusive range between `a` and `b` (either order) to the
    /// selection.
    pub fn select_range(&mut self, a: u32, b: u32)
        requires
            old(self).wf(),
        ensures
            final(self).wf(),
            forall|k: u64| #[trigger]
                final(self).selection().contains(k) <==> (old(self).selection().contains(k) || (
                vstd::math::min(a as int, b as int) <= k <= vstd::math::max(a as int, b as int))),
            final(self).intensity == old(self).intensity,
            final(self).r == old(self).r,
            final(self).g == old(self).g,
            final(self).b == old(self).b,
    {
        let (lo, hi) = if a <= b {
            (a, b)
        } else {
            (b, a)
        };
        let mut id = lo;
        loop
            invariant_except_break
                forall|k: u64| #[trigger]
                    self.selection().contains(k) <==> (old(self).selection().contains(k) || (
                    lo <= k < id)),
            invariant
                self.wf(),
                lo <= id <= hi,
                lo == vstd::math::min(a as int, b as int),
                hi == vstd::math::max(a as int, b as int),
                self.intensity == old(self).intensity,
                self.r == old(self).r,
                self.g == old(self).g,
                self.b == old(self).b,
            ensures
                self.wf(),
                self.intensity == old(self).intensity,
                self.r == old(self).r,
                self.g == old(self).g,
                self.b == old(self).b,
                forall|k: u64| #[trigger]
                    self.selection().contains(k) <==> (old(self).selection().contains(k) || (
                    lo <= k <= hi)),
            decreases hi - id,
        {
            let ghost prev = self.selection();
            self.selected.set(id as u64, ());
            proof {
                assert(self.selection() =~= prev.insert(id as u64));
            }
            if id == hi {
                break ;
            }
            id += 1;
        }
    }

    /// Set the intensity from a percentage, clamped to 100, scaled to
    /// 0..=255 with integer math.
    pub fn set_intensity_percent(&mut self, pct: u8)
        ensures
            final(self).selected == old(self).selected,
            final(self).intensity == Some(percent_to_byte(pct)),
            final(self).r == old(self).r,
            final(self).g == old(self).g,
            final(self).b == old(self).b,
    {
        let q: u16 = if pct > 100 {
            100
        } else {
            pct as u16
        };
        let value: u16 = (q * 255) / 100;
        assert(value <= 255);
        self.intensity = Some(value as u8);
    }

    /// Set all three color fields.
    pub fn set_rgb(&mut self, r: u8, g: u8, b: u8)
        ensures
            final(self).selected == old(self).selected,
            final(self).intensity == old(self).intensity,
            final(self).r == Some(r),
            final(self).g == Some(g),
            final(self).b == Some(b),
    {
        self.r = Some(r);
        self.g = Some(g);
        self.b = Some(b);
    }

    /// The current values as palette values.
    pub fn snapshot_values(&self) -> (v: PaletteValues)
        ensures
            v.intensity == self.intensity,
            v.r == self.r,
            v.g == self.g,
            v.b == self.b,
    {
        PaletteValues { intensity: self.intensity, r: self.r, g: self.g, b: self.b }
    }

    /// Apply a palette by kind. Fields the palette leaves unset are never
    /// cleared.
    pub fn apply_palette(&mut self, pal: &Palette)
        ensures
            final(self).selected == old(self).selected,
            pal.kind is Intensity ==> {
                &&& final(self).intensity == (if pal.values.intensity is Some {
                    pal.values.intensity
                } else {
                    old(self).intensity
                })
                &&& final(self).r == old(self).r
                &&& final(self).g == old(self).g
                &&& final(self).b == old(self).b
            },
            pal.kind is Color ==> {
                &&& final(self).intensity == old(self).intensity
                &&& final(self).r == (if pal.values.r is Some {
                    pal.values.r
                } else {
                    old(self).r
                })
                &&& final(self).g == (if pal.values.g is Some {
                    pal.values.g
                } else {
                    old(self).g
                })
                &&& final(self).b == (if pal.values.b is Some {
                    pal.values.b
                } else {
                    old(self).b
                })
            },
    {
        match pal.kind {
            PaletteKind::Intensity => {
                if let Some(v) = pal.values.intensity {
                    self.intensity = Some(v);
                }
            },
            PaletteKind::Color => {
                if let Some(v) = pal.values.r {
                    self.r = Some(v);
                }
                if let Some(v) = pal.values.g {
                    self.g = Some(v);
                }
                if let Some(v) = pal.values.b {
                    self.b = Some(v);
                }
            },
        }
    }

    /// Render only the programmer into a fresh live state: for each
    /// selected fixture, every channel whose kind matches a set field
    /// emits the value at the channel's address.
    pub fn render(&self, show: &Show) -> (r: Result<LiveState, ConsoleError>)
        requires
            self.wf(),
            show.wf(),
        ensures
            r is Ok <==> ids_renderable(*show, self.selected.key_seq()),
            r matches Ok(live) ==> live.wf() && live.points@ == programmer_points(
                *show,
                *self,
                self.selected.key_seq(),
            ),
            r matches Err(ConsoleError::UnknownFixture(id)) ==> self.selection().contains(
                id as u64,
            ) && !show.patch.fixtures@.contains_key(id as u64),
            r matches Err(ConsoleError::UnknownFixtureType(t)) ==> !show.patch.fixture_types@.contains_key(
                t@,
            ) && exists|id: u64| #[trigger]
                self.selection().contains(id) && show.patch.fixtures@.contains_key(id)
                    && show.patch.fixtures@[id].fixture_type@ == t@,
            r matches Err(ConsoleError::AddressOutOfRange(id)) ==> self.selection().contains(
                id as u64,
            ) && show.patch.fixtures@.contains_key(id as u64) && !fixture_addresses_ok(
                show.patch.fixtures@[id as u64],
                show.patch.fixture_types@[show.patch.fixtures@[id as u64].fixture_type@],
            ),
            r matches Err(e) ==> (e matches ConsoleError::UnknownFixture(_) || e
                matches ConsoleError::UnknownFixtureType(_) || e
                matches ConsoleError::AddressOutOfRange(_)),
    {
        let mut live = LiveState::new();
        let n = self.selected.len();
        let mut idx: usize = 0;
        while idx < n
            invariant
                self.wf(),
                show.wf(),
                live.wf(),
                n == self.selected.key_seq().len(),
                idx <= n,
                ids_renderable(*show, self.selected.key_seq().take(idx as int)),
                live.points@ == programmer_points(
                    *show,
                    *self,
                    self.selected.key_seq().take(idx as int),
                ),
            decreases n - idx,
        {
            let ghost ids = self.selected.key_seq();
            let id64 = self.selected.key_at(idx);
            proof {
                self.selected.lemma_at(idx as int);
            }
            let f = match show.patch.fixtures.get(id64) {
                Some(f) => f,
                None => {
                    proof {
                        if ids_renderable(*show, ids) {
                            assert(show.patch.fixtures@.contains_key(ids[idx as int]));
                        }
                    }
                    return Err(ConsoleError::UnknownFixture(id64 as u32));
                },
            };
            let ft = match show.patch.fixture_types.get(f.fixture_type.as_str()) {
                Some(ft) => ft,
                None => {
                    proof {
                        assert(self.selection().contains(id64));
                        assert(show.patch.fixtures@.contains_key(id64));
                        assert(show.patch.fixtures@[id64].fixture_type@ == f.fixture_type@);
                        if ids_renderable(*show, ids) {
                            assert(show.patch.fixtures@.contains_key(ids[idx as int]));
                        }
                    }
                    return Err(
                        ConsoleError::UnknownFixtureType(String::from_str(f.fixture_type.as_str())),
                    );
                },
            };
            let ghost m0 = live.points@;
            let nch = ft.channels.len();
            let mut ci: usize = 0;
            while ci < nch
                invariant
                    self.wf(),
                    show.wf(),
                    live.wf(),
                    nch == ft.channels@.len(),
                    ci <= nch,
                    ids == self.selected.key_seq(),
                    idx < ids.len(),
                    ids[idx as int] == id64,
                    show.patch.fixtures@.contains_key(id64),
                    *f == show.patch.fixtures@[id64],
                    show.patch.fixture_types@.contains_key(f.fixture_type@),
                    *ft == show.patch.fixture_types@[f.fixture_type@],
                    id64 <= u32::MAX,
                    self.selection().contains(id64),
                    ci > 0 ==> 1 <= f.address && f.address + ci <= 513,
                    live.points@ == value_points(m0, *f, *ft, programmer_values(*self), ci as int),
                decreases nch - ci,
            {
                if ci > 512 {
                    proof {
                        assert(!fixture_addresses_ok(*f, *ft));
                        if ids_renderable(*show, ids) {
                            assert(show.patch.fixtures@.contains_key(ids[idx as int]));
                            assert(false);
                        }
                    }
                    return Err(ConsoleError::AddressOutOfRange(id64 as u32));
                }
                let addr32: u32 = f.address as u32 + ci as u32;
                if addr32 < 1 || addr32 > 512 {
                    proof {
                        assert(!fixture_addresses_ok(*f, *ft));
                        if ids_renderable(*show, ids) {
                            assert(show.patch.fixtures@.contains_key(ids[idx as int]));
                            assert(false);
                        }
                    }
                    return Err(ConsoleError::AddressOutOfRange(id64 as u32));
                }
                let addr = addr32 as u16;
                let value_opt: Option<u8> = match ft.channels[ci].kind {
                    ChannelKind::Intensity => self.intensity,
                    ChannelKind::ColorR => self.r,
                    ChannelKind::ColorG => self.g,
                    ChannelKind::ColorB => self.b,
                    _ => None,
                };
                if let Some(value) = value_opt {
                    live.set(f.universe, addr, value);
                }
                ci += 1;
            }
            proof {
                assert(fixture_addresses_ok(*f, *ft));
                assert(ids.take(idx as int + 1).drop_last() =~= ids.take(idx as int));
                assert(ids.take(idx as int + 1).last() == ids[idx as int]);
                assert(live.points@ == programmer_points(*show, *self, ids.take(idx as int + 1)));
                assert forall|j: int| 0 <= j < idx + 1 implies {
                    let id = #[trigger] ids.take(idx as int + 1)[j];
                    &&& show.patch.fixtures@.contains_key(id)
                    &&& show.patch.fixture_types@.contains_key(
                        show.patch.fixtures@[id].fixture_type@,
                    )
                    &&& fixture_addresses_ok(
                        show.patch.fixtures@[id],
                        show.patch.fixture_types@[show.patch.fixtures@[id].fixture_type@],
                    )
                } by {
                    if j < idx {
                        assert(ids.take(idx as int)[j] == ids.take(idx as int + 1)[j]);
                    }
                }
            }
            idx += 1;
        }
        proof {
            assert(self.selected.key_seq().take(n as int) =~= self.selected.key_seq());
        }
        Ok(live)
    }

    /// Whether a fixture id is selected.
    pub fn selected_contains(&self, id: u32) -> (b: bool)
        requires
            self.wf(),
        ensures
            b == self.selection().contains(id as u64),
    {
        self.selected.has_key(id as u64)
    }
}

} // verus!
