//! Compute core of a small theatrical lighting console.
//!
//! The crate models a show (patch, palettes, cue lists, groups) and the
//! runtime that turns it into DMX channel values: a programmer edit buffer,
//! cue-list playbacks with tracking semantics and timed transitions, an
//! HTP/LTP merger, and the projection of fixture values onto addresses.

#![allow(unused_imports)]

use vstd::prelude::*;
use vstd::string::StringExecFns;

pub mod cues;
pub mod engine;
pub mod namedmap;
pub mod ordmap;
pub mod palette;
pub mod playback;
pub mod progcmd;
pub mod runtime;

pub use cues::{Cue, CueList, FixtureValues};
pub use engine::{LiveState, Programmer};
pub use palette::{Palette, PaletteKind, PaletteValues};
pub use playback::{Playback, PlaybackMode};
pub use progcmd::{try_apply_programmer_line, ApplyStatus, ProgWord};
pub use runtime::Runtime;

use crate::namedmap::NamedMap;
use crate::ordmap::OrderedMap;

verus! {

/// The library's version string.
pub fn version() -> (v: &'static str)
    ensures
        v@ == "0.1.0"@,
{
    "0.1.0"
}

/// What an operation can fail with: reference errors (an id or name that
/// resolves to nothing), patch errors, and render-time range errors.
#[derive(Debug, PartialEq, Eq)]
pub enum ConsoleError {
    /// A fixture id not present in the patch.
    UnknownFixture(u32),
    /// A fixture type id not present in the type library.
    UnknownFixtureType(String),
    /// A cue list name not present in the show.
    UnknownCueList(String),
    /// A cue number not present in the cue list.
    UnknownCue(u32),
    /// An attempt to patch a fixture id that already exists.
    DuplicateFixture(u32),
    /// A channel of this fixture falls outside DMX addresses 1..=512.
    AddressOutOfRange(u32),
}

/// Very simplified channel categories. Only the four parameters
/// {Intensity, R, G, B} emit output; the rest exist in the data model only.
#[derive(Clone, Copy, Debug, PartialEq, Eq)]
pub enum ChannelKind {
    Intensity,
    Pan,
    Tilt,
    ColorR,
    ColorG,
    ColorB,
    Other,
}

/// One channel definition in a fixture type. The position within the
/// type's channel list is the channel's DMX offset.
pub struct ChannelDef {
    pub name: String,
    pub kind: ChannelKind,
}

/// Describes a fixture model in a simplified way.
pub struct FixtureType {
    pub type_id: String,
    pub manufacturer: String,
    pub model: String,
    pub channels: Vec<ChannelDef>,
}

/// A single fixture as patched into a universe/address (1-based DMX).
pub struct FixtureInstance {
    pub fixture_id: u32,
    pub name: String,
    pub fixture_type: String,
    pub universe: u16,
    pub address: u16,
}

impl FixtureInstance {
    pub fn new(fixture_id: u32, name: &str, fixture_type: &str, universe: u16, address: u16) -> (f:
        Self)
        ensures
            f.fixture_id == fixture_id,
            f.name@ == name@,
            f.fixture_type@ == fixture_type@,
            f.universe == universe,
            f.address == address,
    {
        FixtureInstance {
            fixture_id,
            name: String::from_str(name),
            fixture_type: String::from_str(fixture_type),
            universe,
            address,
        }
    }
}

/// The patch: the show's fixture type library plus the patched fixtures.
pub struct Patch {
    /// Fixture types known in this show, keyed by type id.
    pub fixture_types: NamedMap<FixtureType>,
    /// Patched fixtures, keyed by fixture id.
    pub fixtures: OrderedMap<FixtureInstance>,
}

impl Patch {
    /// Both maps are well-formed and each entry is keyed by its own id.
    pub open spec fn wf(&self) -> bool {
        &&& self.fixture_types.wf()
        &&& self.fixtures.wf()
        &&& forall|n: Seq<char>| #[trigger]
            self.fixture_types@.contains_key(n) ==> self.fixture_types@[n].type_id@ == n
        &&& forall|k: u64| #[trigger]
            self.fixtures@.contains_key(k) ==> k <= u32::MAX && self.fixtures@[k].fixture_id == k
    }

    pub fn new() -> (p: Self)
        ensures
            p.wf(),
            p.fixture_types@ == Map::<Seq<char>, FixtureType>::empty(),
            p.fixtures@ == Map::<u64, FixtureInstance>::empty(),
            p.fixtures.key_seq() == Seq::<u64>::empty(),
    {
        Patch { fixture_types: NamedMap::new(), fixtures: OrderedMap::new() }
    }

    /// Register (or replace) a fixture type under its type id.
    pub fn add_fixture_type(&mut self, fixture_type: FixtureType)
        requires
            old(self).wf(),
        ensures
            final(self).wf(),
            final(self).fixture_types@ == old(self).fixture_types@.insert(
                fixture_type.type_id@,
                fixture_type,
            ),
            final(self).fixtures == old(self).fixtures,
    {
        let key = String::from_str(fixture_type.type_id.as_str());
        self.fixture_types.set(key, fixture_type);
    }

    /// Patch a fixture. Fails if the fixture id already exists or the
    /// fixture type is not registered; the patch is then unchanged.
    pub fn add_fixture(&mut self, fixture: FixtureInstance) -> (r: Result<(), ConsoleError>)
        requires
            old(self).wf(),
        ensures
            final(self).wf(),
            final(self).fixture_types@ == old(self).fixture_types@,
            old(self).fixtures@.contains_key(fixture.fixture_id as u64) ==> {
                &&& r matches Err(ConsoleError::DuplicateFixture(id)) && id == fixture.fixture_id
                &&& final(self).fixtures@ == old(self).fixtures@
            },
            !old(self).fixtures@.contains_key(fixture.fixture_id as u64)
                && !old(self).fixture_types@.contains_key(fixture.fixture_type@) ==> {
                &&& r matches Err(ConsoleError::UnknownFixtureType(t)) && t@
                    == fixture.fixture_type@
                &&& final(self).fixtures@ == old(self).fixtures@
            },
            !old(self).fixtures@.contains_key(fixture.fixture_id as u64)
                && old(self).fixture_types@.contains_key(fixture.fixture_type@) ==> {
                &&& r is Ok
                &&& final(self).fixtures@ == old(self).fixtures@.insert(
                    fixture.fixture_id as u64,
                    fixture,
                )
            },
    {
        if self.fixtures.has_key(fixture.fixture_id as u64) {
            return Err(ConsoleError::DuplicateFixture(fixture.fixture_id));
        }
        if !self.fixture_types.has(fixture.fixture_type.as_str()) {
            let t = String::from_str(fixture.fixture_type.as_str());
            return Err(ConsoleError::UnknownFixtureType(t));
        }
        let id = fixture.fixture_id;
        self.fixtures.set(id as u64, fixture);
        Ok(())
    }

    /// All patched fixtures, in ascending fixture id order.
    pub fn list_fixtures(&self) -> (r: Vec<&FixtureInstance>)
        requires
            self.wf(),
        ensures
            r@.len() == self.fixtures.key_seq().len(),
            forall|i: int|
                0 <= i < r@.len() ==> *(#[trigger] r@[i]) == self.fixtures@[self.fixtures.key_seq()[i]],
    {
        let n = self.fixtures.len();
        let mut r: Vec<&FixtureInstance> = Vec::new();
        let mut i: usize = 0;
        while i < n
            invariant
                self.wf(),
                n == self.fixtures.key_seq().len(),
                i <= n,
                r@.len() == i,
                forall|j: int|
                    0 <= j < i ==> *(#[trigger] r@[j]) == self.fixtures@[self.fixtures.key_seq()[j]],
            decreases n - i,
        {
            r.push(self.fixtures.val_at(i));
            i += 1;
        }
        r
    }
}

impl Default for Patch {
    fn default() -> (p: Self)
        ensures
            p.wf(),
            p.fixture_types@ == Map::<Seq<char>, FixtureType>::empty(),
            p.fixtures@ == Map::<u64, FixtureInstance>::empty(),
    {
        Patch::new()
    }
}

/// A tiny default fixture type library seeded into new shows:
/// a three-channel RGB PAR and a one-channel dimmer.
pub fn default_fixture_types() -> (r: Vec<FixtureType>)
    ensures
        r@.len() == 2,
        r@[0].type_id@ == "rgb_par_3ch"@,
        r@[0].channels@.len() == 3,
        r@[0].channels@[0].kind == ChannelKind::ColorR,
        r@[0].channels@[0].name@ == "Red"@,
        r@[0].channels@[1].kind == ChannelKind::ColorG,
        r@[0].channels@[1].name@ == "Green"@,
        r@[0].channels@[2].kind == ChannelKind::ColorB,
        r@[0].channels@[2].name@ == "Blue"@,
        r@[1].type_id@ == "dimmer_1ch"@,
        r@[1].channels@.len() == 1,
        r@[1].channels@[0].kind == ChannelKind::Intensity,
        r@[1].channels@[0].name@ == "Intensity"@,
{
    let mut rgb_channels: Vec<ChannelDef> = Vec::new();
    rgb_channels.push(ChannelDef { name: String::from_str("Red"), kind: ChannelKind::ColorR });
    rgb_channels.push(ChannelDef { name: String::from_str("Green"), kind: ChannelKind::ColorG });
    rgb_channels.push(ChannelDef { name: String::from_str("Blue"), kind: ChannelKind::ColorB });
    let rgb_par = FixtureType {
        type_id: String::from_str("rgb_par_3ch"),
        manufacturer: String::from_str("Generic"),
        model: String::from_str("RGB PAR (3ch)"),
        channels: rgb_channels,
    };
    let mut dim_channels: Vec<ChannelDef> = Vec::new();
    dim_channels.push(
        ChannelDef { name: String::from_str("Intensity"), kind: ChannelKind::Intensity },
    );
    let dimmer = FixtureType {
        type_id: String::from_str("dimmer_1ch"),
        manufacturer: String::from_str("Generic"),
        model: String::from_str("Dimmer (1ch)"),
        channels: dim_channels,
    };
    let mut r: Vec<FixtureType> = Vec::new();
    r.push(rgb_par);
    r.push(dimmer);
    r
}

/// A show: the top-level document. A cue list named "main" always exists.
pub struct Show {
    pub name: String,
    pub patch: Patch,
    pub palettes: NamedMap<Palette>,
    pub cue_lists: NamedMap<CueList>,
    pub groups: NamedMap<Vec<u32>>,
}

impl Show {
    pub open spec fn wf(&self) -> bool {
        &&& self.patch.wf()
        &&& self.palettes.wf()
        &&& self.cue_lists.wf()
        &&& self.groups.wf()
        &&& forall|n: Seq<char>| #[trigger]
            self.cue_lists@.contains_key(n) ==> self.cue_lists@[n].wf()
    }

    /// A fresh show holding only the empty cue list "main".
    pub fn new(name: &str) -> (s: Self)
        ensures
            s.wf(),
            s.name@ == name@,
            s.patch.fixture_types@ == Map::<Seq<char>, FixtureType>::empty(),
            s.patch.fixtures@ == Map::<u64, FixtureInstance>::empty(),
            s.palettes@ == Map::<Seq<char>, Palette>::empty(),
            s.groups@ == Map::<Seq<char>, Vec<u32>>::empty(),
            s.cue_lists@.dom() == Set::<Seq<char>>::empty().insert("main"@),
            s.cue_lists@.contains_key("main"@),
            s.cue_lists@["main"@].cues@ == Map::<u64, Cue>::empty(),
    {
        let mut cue_lists: NamedMap<CueList> = NamedMap::new();
        cue_lists.set(String::from_str("main"), CueList::ensure());
        let s = Show {
            name: String::from_str(name),
            patch: Patch::new(),
            palettes: NamedMap::new(),
            cue_lists,
            groups: NamedMap::new(),
        };
        proof {
            assert(s.cue_lists@.dom() =~= Set::<Seq<char>>::empty().insert("main"@));
        }
        s
    }

    /// The cue list of that name, if any.
    pub fn cue_list(&self, name: &str) -> (r: Option<&CueList>)
        requires
            self.wf(),
        ensures
            match r {
                Some(cl) => self.cue_lists@.contains_key(name@) && *cl == self.cue_lists@[name@],
                None => !self.cue_lists@.contains_key(name@),
            },
    {
        self.cue_lists.get(name)
    }

    /// Insert or replace a whole cue list under `name`.
    pub fn set_cue_list(&mut self, name: &str, list: CueList)
        requires
            old(self).wf(),
            list.wf(),
        ensures
            final(self).wf(),
            final(self).cue_lists@ == old(self).cue_lists@.insert(name@, list),
            final(self).patch == old(self).patch,
            final(self).palettes == old(self).palettes,
            final(self).groups == old(self).groups,
    {
        self.cue_lists.set(String::from_str(name), list);
    }

    /// Record, update or overwrite a cue in the named cue list.
    /// Fails if the cue list does not exist.
    pub fn set_cue_in_list(&mut self, list: &str, cue: Cue) -> (r: Result<(), ConsoleError>)
        requires
            old(self).wf(),
            cue.wf(),
        ensures
            final(self).wf(),
            final(self).patch == old(self).patch,
            final(self).palettes == old(self).palettes,
            final(self).groups == old(self).groups,
            old(self).cue_lists@.contains_key(list@) ==> {
                &&& r is Ok
                &&& final(self).cue_lists@.dom() == old(self).cue_lists@.dom()
                &&& final(self).cue_lists@[list@].cues@ == old(self).cue_lists@[list@].cues@.insert(
                    cue.number as u64,
                    cue,
                )
                &&& forall|n: Seq<char>|
                    n != list@ && #[trigger] old(self).cue_lists@.contains_key(n)
                        ==> final(self).cue_lists@[n] == old(self).cue_lists@[n]
            },
            !old(self).cue_lists@.contains_key(list@) ==> {
                &&& r matches Err(ConsoleError::UnknownCueList(t)) && t@ == list@
                &&& final(self).cue_lists@ == old(self).cue_lists@
            },
    {
        match self.cue_lists.take(list) {
            Some(mut cl) => {
                cl.set_cue(cue);
                self.cue_lists.set(String::from_str(list), cl);
                proof {
                    assert(final(self).cue_lists@.dom() =~= old(self).cue_lists@.dom());
                }
                Ok(())
            },
            None => Err(ConsoleError::UnknownCueList(String::from_str(list))),
        }
    }

    /// Delete a cue from the named cue list. Fails if the cue list does
    /// not exist; deleting an absent cue number is a no-op.
    pub fn remove_cue_in_list(&mut self, list: &str, number: u32) -> (r: Result<
        (),
        ConsoleError,
    >)
        requires
            old(self).wf(),
        ensures
            final(self).wf(),
            final(self).patch == old(self).patch,
            final(self).palettes == old(self).palettes,
            final(self).groups == old(self).groups,
            old(self).cue_lists@.contains_key(list@) ==> {
                &&& r is Ok
                &&& final(self).cue_lists@.dom() == old(self).cue_lists@.dom()
                &&& final(self).cue_lists@[list@].cues@ == old(self).cue_lists@[list@].cues@.remove(
                    number as u64,
                )
                &&& forall|n: Seq<char>|
                    n != list@ && #[trigger] old(self).cue_lists@.contains_key(n)
                        ==> final(self).cue_lists@[n] == old(self).cue_lists@[n]
            },
            !old(self).cue_lists@.contains_key(list@) ==> {
                &&& r matches Err(ConsoleError::UnknownCueList(t)) && t@ == list@
                &&& final(self).cue_lists@ == old(self).cue_lists@
            },
    {
        match self.cue_lists.take(list) {
            Some(mut cl) => {
                cl.remove_cue(number);
                self.cue_lists.set(String::from_str(list), cl);
                proof {
                    assert(final(self).cue_lists@.dom() =~= old(self).cue_lists@.dom());
                }
                Ok(())
            },
            None => Err(ConsoleError::UnknownCueList(String::from_str(list))),
        }
    }

    /// Set or clear the block flag of one cue, leaving the rest of the
    /// cue untouched. Fails if the cue list or the cue does not exist.
    pub fn set_cue_block(&mut self, list: &str, number: u32, block: bool) -> (r: Result<
        (),
        ConsoleError,
    >)
        requires
            old(self).wf(),
        ensures
            final(self).wf(),
            final(self).patch == old(self).patch,
            final(self).palettes == old(self).palettes,
            final(self).groups == old(self).groups,
            !old(self).cue_lists@.contains_key(list@) ==> {
                &&& r matches Err(ConsoleError::UnknownCueList(t)) && t@ == list@
                &&& final(self).cue_lists@ == old(self).cue_lists@
            },
            old(self).cue_lists@.contains_key(list@) && !old(self).cue_lists@[list@].cues@.contains_key(
                number as u64,
            ) ==> {
                &&& r == Err::<(), ConsoleError>(ConsoleError::UnknownCue(number))
                &&& final(self).cue_lists@ == old(self).cue_lists@
            },
            old(self).cue_lists@.contains_key(list@) && old(self).cue_lists@[list@].cues@.contains_key(
                number as u64,
            ) ==> {
                let c0 = old(self).cue_lists@[list@].cues@[number as u64];
                let c1 = final(self).cue_lists@[list@].cues@[number as u64];
                &&& r is Ok
                &&& final(self).cue_lists@.dom() == old(self).cue_lists@.dom()
                &&& final(self).cue_lists@[list@].cues@.dom()
                    == old(self).cue_lists@[list@].cues@.dom()
                &&& c1.number == c0.number
                &&& c1.label@ == c0.label@
                &&& c1.block == block
                &&& c1.fade_ms == c0.fade_ms
                &&& c1.delay_ms == c0.delay_ms
                &&& c1.changes@ == c0.changes@
                &&& forall|m: u64|
                    m != number as u64 && #[trigger] old(self).cue_lists@[list@].cues@.contains_key(
                        m,
                    ) ==> final(self).cue_lists@[list@].cues@[m]
                        == old(self).cue_lists@[list@].cues@[m]
                &&& forall|n: Seq<char>|
                    n != list@ && #[trigger] old(self).cue_lists@.contains_key(n)
                        ==> final(self).cue_lists@[n] == old(self).cue_lists@[n]
            },
    {
        match self.cue_lists.take(list) {
            Some(mut cl) => {
                let found = match cl.get(number) {
                    Some(cue) => {
                        let label = cue.label.clone();
                        let fade_ms = cue.fade_ms;
                        let delay_ms = cue.delay_ms;
                        let changes = cue.changes.duplicate();
                        Some(Cue { number, label, block, fade_ms, delay_ms, changes })
                    },
                    None => None,
                };
                match found {
                    Some(cue) => {
                        cl.set_cue(cue);
                        self.cue_lists.set(String::from_str(list), cl);
                        proof {
                            assert(final(self).cue_lists@.dom() =~= old(self).cue_lists@.dom());
                            assert(final(self).cue_lists@[list@].cues@.dom()
                                =~= old(self).cue_lists@[list@].cues@.dom());
                        }
                        Ok(())
                    },
                    None => {
                        self.cue_lists.set(String::from_str(list), cl);
                        proof {
                            assert(final(self).cue_lists@ =~= old(self).cue_lists@);
                        }
                        Err(ConsoleError::UnknownCue(number))
                    },
                }
            },
            None => Err(ConsoleError::UnknownCueList(String::from_str(list))),
        }
    }

    /// Store a palette under `name`.
    pub fn set_palette(&mut self, name: &str, palette: Palette)
        requires
            old(self).wf(),
        ensures
            final(self).wf(),
            final(self).palettes@ == old(self).palettes@.insert(name@, palette),
    {
        self.palettes.set(String::from_str(name), palette);
    }

    /// The palette of that name, if any.
    pub fn palette(&self, name: &str) -> (r: Option<&Palette>)
        requires
            self.wf(),
        ensures
            match r {
                Some(p) => self.palettes@.contains_key(name@) && *p == self.palettes@[name@],
                None => !self.palettes@.contains_key(name@),
            },
    {
        self.palettes.get(name)
    }

    /// Store a group under `name`.
    pub fn set_group(&mut self, name: &str, members: Vec<u32>)
        requires
            old(self).wf(),
        ensures
            final(self).wf(),
            final(self).groups@ == old(self).groups@.insert(name@, members),
    {
        self.groups.set(String::from_str(name), members);
    }

    /// The group of that name, if any.
    pub fn group(&self, name: &str) -> (r: Option<&Vec<u32>>)
        requires
            self.wf(),
        ensures
            match r {
                Some(g) => self.groups@.contains_key(name@) && *g == self.groups@[name@],
                None => !self.groups@.contains_key(name@),
            },
    {
        self.groups.get(name)
    }
}

} // verus!
