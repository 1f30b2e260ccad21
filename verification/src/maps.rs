//! Map configuration: the team list (name, color, capacity, roster) and the
//! tile/marker geometry a lobby is bound to.
//!
//! Player identities are plain `u64` handles issued by the registries; colors
//! and tile heights are carried as integers. The geometry is data the engine
//! hands through to its callers; only the team rosters carry invariants.

use vstd::prelude::*;
use vstd::string::{StrSliceExecFns, StringExecFns};

use crate::util::{lemma_filter_take_step, ne_pred};

verus! {

/// An RGB color attached to a team by the map author.
#[derive(Clone, Copy, PartialEq, Eq, Structural, Debug)]
pub struct TeamColor {
    pub r: u8,
    pub g: u8,
    pub b: u8,
}

/// A single cell position on the map grid.
#[derive(Clone, Copy, PartialEq, Eq, Structural, Debug)]
pub struct TileDefinition {
    pub x: usize,
    pub y: usize,
}

/// The terrain kinds a layer can be made of.
#[derive(Clone, Copy, PartialEq, Eq, Structural, Debug)]
pub enum LayerType {
    Forest,
}

/// A set of cells sharing a terrain kind; the cost modifier is carried in
/// per-mille so the engine stays on integers.
#[derive(Clone)]
pub struct LayerDefinition {
    pub kind: LayerType,
    pub cost_modifier_permille: i64,
    pub tiles: Vec<TileDefinition>,
}

/// The kinds of point markers a map can place.
#[derive(Clone, Copy, PartialEq, Eq, Structural, Debug)]
pub enum MarkerType {
    Spawn { spawn_number: usize },
    Flag,
}

impl Default for MarkerType {
    /// A marker defaults to the first spawn point.
    fn default() -> (r: Self)
        ensures
            r == (MarkerType::Spawn { spawn_number: 0usize }),
    {
        MarkerType::Spawn { spawn_number: 0 }
    }
}

/// A marker on a tile, owned by a group such as a team.
#[derive(Clone)]
pub struct MarkerDefinition {
    pub tile: TileDefinition,
    pub group: String,
    pub kind: MarkerType,
}

/// The grid geometry of a map: per-cell heights (in thousandths of a world
/// unit), terrain layers and point markers.
#[derive(Clone)]
pub struct MapDefinition {
    pub width: usize,
    pub height: usize,
    pub tiles: Vec<Vec<i64>>,
    pub layers: Vec<LayerDefinition>,
    pub markers: Vec<MarkerDefinition>,
}

/// A team as the map defines it, together with the roster the lobby fills in.
#[derive(Clone)]
pub struct TeamConfig {
    pub color: TeamColor,
    pub max_players: usize,
    pub players: Vec<u64>,
}

/// The resolved configuration of a map: its named teams and its geometry.
#[derive(Clone)]
pub struct MapConfig {
    pub teams: Vec<(String, TeamConfig)>,
    pub map: MapDefinition,
}

impl MapConfig {
    /// Team names are unique, so a name denotes at most one roster.
    pub open spec fn wf(self) -> bool {
        forall|i: int, j: int|
            0 <= i < j < self.teams@.len() ==> self.teams@[i].0@ != self.teams@[j].0@
    }

    pub open spec fn has_team(self, name: Seq<char>) -> bool {
        exists|i: int| 0 <= i < self.teams@.len() && self.teams@[i].0@ == name
    }

    pub open spec fn team_index(self, name: Seq<char>) -> int {
        choose|i: int| 0 <= i < self.teams@.len() && self.teams@[i].0@ == name
    }

    /// Whether the team at index `i` lists `player` in its roster.
    pub open spec fn team_at_has_player(self, i: int, player: u64) -> bool {
        self.teams@[i].1.players@.contains(player)
    }

    /// Whether any team lists `player` in its roster.
    pub open spec fn some_team_has_player(self, player: u64) -> bool {
        exists|i: int| 0 <= i < self.teams@.len() && self.team_at_has_player(i, player)
    }

    /// Index of the team holding `name`, or `None` when no team does.
    fn find_team_index(&self, team_name: &String) -> (r: Option<usize>)
        ensures
            match r {
                Some(i) => i < self.teams@.len() && self.teams@[i as int].0@ == team_name@,
                None => !self.has_team(team_name@),
            },
    {
        let n = self.teams.len();
        let mut i: usize = 0;
        while i < n
            invariant
                i <= n,
                n == self.teams@.len(),
                forall|k: int| 0 <= k < i ==> self.teams@[k].0@ != team_name@,
            decreases n - i,
        {
            if self.teams[i].0 == *team_name {
                return Some(i);
            }
            i = i + 1;
        }
        None
    }

    /// Append `player` to the roster of the named team; reports `false`,
    /// touching nothing, when the map knows no team of that name.
    pub fn insert_player_into_team(&mut self, team_name: &String, player: u64) -> (r: bool)
        requires
            old(self).wf(),
        ensures
            final(self).wf(),
            r == old(self).has_team(team_name@),
            r ==> {
                let i = old(self).team_index(team_name@);
                &&& final(self).teams@.len() == old(self).teams@.len()
                &&& forall|k: int|
                    0 <= k < old(self).teams@.len() && k != i ==> final(self).teams@[k] == old(
                        self,
                    ).teams@[k]
                &&& final(self).teams@[i].0 == old(self).teams@[i].0
                &&& final(self).teams@[i].1.color == old(self).teams@[i].1.color
                &&& final(self).teams@[i].1.max_players == old(self).teams@[i].1.max_players
                &&& final(self).teams@[i].1.players@ == old(self).teams@[i].1.players@.push(player)
            },
            !r ==> *final(self) == *old(self),
            final(self).map == old(self).map,
    {
        match self.find_team_index(team_name) {
            Some(i) => {
                proof {
                    assert(old(self).has_team(team_name@));
                    // uniqueness pins the chosen index to the found one
                    assert(old(self).team_index(team_name@) == i as int);
                }
                let (name, mut team) = self.teams.remove(i);
                team.players.push(player);
                self.teams.insert(i, (name, team));
                true
            },
            None => false,
        }
    }

    /// Strike `player` from every team roster, keeping each roster's order.
    pub fn remove_player_from_team(&mut self, player: u64)
        requires
            old(self).wf(),
        ensures
            final(self).wf(),
            final(self).teams@.len() == old(self).teams@.len(),
            forall|i: int|
                0 <= i < old(self).teams@.len() ==> {
                    &&& (#[trigger] final(self).teams@[i]).0 == old(self).teams@[i].0
                    &&& final(self).teams@[i].1.color == old(self).teams@[i].1.color
                    &&& final(self).teams@[i].1.max_players == old(self).teams@[i].1.max_players
                    &&& final(self).teams@[i].1.players@ == old(self).teams@[i].1.players@.filter(ne_pred(player))
                },
            !final(self).some_team_has_player(player),
            final(self).map == old(self).map,
    {
        let n = self.teams.len();
        let mut i: usize = 0;
        while i < n
            invariant
                i <= n,
                n == self.teams@.len(),
                n == old(self).teams@.len(),
                self.map == old(self).map,
                old(self).wf(),
                forall|k: int| i <= k < n ==> #[trigger] self.teams@[k] == old(self).teams@[k],
                forall|k: int|
                    0 <= k < i ==> {
                        &&& (#[trigger] self.teams@[k]).0 == old(self).teams@[k].0
                        &&& self.teams@[k].1.color == old(self).teams@[k].1.color
                        &&& self.teams@[k].1.max_players == old(self).teams@[k].1.max_players
                        &&& self.teams@[k].1.players@ == old(self).teams@[k].1.players@.filter(ne_pred(player))
                    },
            decreases n - i,
        {
            let (name, mut team) = self.teams.remove(i);
            let filtered = remove_all_u64(&team.players, player);
            team.players = filtered;
            self.teams.insert(i, (name, team));
            i = i + 1;
        }
        proof {
            assert(final(self).wf());
            assert forall|i: int|
                0 <= i < final(self).teams@.len() implies !final(self).team_at_has_player(
                i,
                player,
            ) by {
                let s = final(self).teams@[i].1.players@;
                if s.contains(player) {
                    let j = choose|j: int| 0 <= j < s.len() && s[j] == player;
                    old(self).teams@[i].1.players@.lemma_filter_pred(ne_pred(player), j);
                }
            }
        }
    }

    /// The roster and color of the named team, when the map has it.
    pub fn get_team(&self, team_name: &String) -> (r: Option<&TeamConfig>)
        ensures
            match r {
                Some(t) => self.has_team(team_name@) && exists|i: int|
                    0 <= i < self.teams@.len() && self.teams@[i].0@ == team_name@ && *t
                        == self.teams@[i].1,
                None => !self.has_team(team_name@),
            },
    {
        match self.find_team_index(team_name) {
            Some(i) => Some(&self.teams[i].1),
            None => None,
        }
    }

    /// The first team listing `player`, with its name, or `None` when no
    /// team does.
    pub fn get_team_of_player(&self, player: u64) -> (r: Option<(&String, &TeamConfig)>)
        ensures
            match r {
                Some(p) => self.some_team_has_player(player) && exists|i: int|
                    0 <= i < self.teams@.len() && *p.0 == self.teams@[i].0 && *p.1
                        == self.teams@[i].1 && self.team_at_has_player(i, player),
                None => !self.some_team_has_player(player),
            },
    {
        let n = self.teams.len();
        let mut i: usize = 0;
        while i < n
            invariant
                i <= n,
                n == self.teams@.len(),
                forall|k: int| 0 <= k < i ==> !self.team_at_has_player(k, player),
            decreases n - i,
        {
            if contains_u64(&self.teams[i].1.players, player) {
                let name_ref = &self.teams[i].0;
                let team_ref = &self.teams[i].1;
                proof {
                    let idx = i as int;
                    assert(*name_ref == self.teams@[idx].0 && *team_ref == self.teams@[idx].1
                        && self.team_at_has_player(idx, player));
                }
                return Some((name_ref, team_ref));
            }
            i = i + 1;
        }
        None
    }
}

/// Whether the name ends in the `.map` file suffix.
pub open spec fn spec_has_map_suffix(s: Seq<char>) -> bool {
    s.len() >= 4 && s.subrange(s.len() - 4, s.len() as int) == ".map"@
}

/// The name under which a map is filed: the name itself when it already
/// carries the `.map` suffix, else the name with the suffix appended.
pub open spec fn spec_map_key(s: Seq<char>) -> Seq<char> {
    if spec_has_map_suffix(s) {
        s
    } else {
        s + ".map"@
    }
}

/// The map name a filed key stands for: the key with its suffix stripped.
pub open spec fn spec_map_stem(s: Seq<char>) -> Seq<char> {
    if spec_has_map_suffix(s) {
        s.subrange(0, s.len() - 4)
    } else {
        s
    }
}

/// Whether the string ends in `.map`.
fn has_map_suffix(s: &String) -> (r: bool)
    ensures
        r == spec_has_map_suffix(s@),
{
    let st = s.as_str();
    let n = st.unicode_len();
    if n < 4 {
        return false;
    }
    let c0 = st.get_char(n - 4);
    let c1 = st.get_char(n - 3);
    let c2 = st.get_char(n - 2);
    let c3 = st.get_char(n - 1);
    let r = c0 == '.' && c1 == 'm' && c2 == 'a' && c3 == 'p';
    proof {
        reveal_strlit(".map");
        let tail = s@.subrange(s@.len() - 4, s@.len() as int);
        if r {
            assert(tail =~= ".map"@);
        } else {
            if tail == ".map"@ {
                assert(tail[0] == '.' && tail[1] == 'm' && tail[2] == 'a' && tail[3] == 'p');
                assert(false);
            }
        }
    }
    r
}

/// The loaded map assets: each map configuration filed under its file
/// stem, which carries the `.map` suffix.
#[derive(Clone)]
pub struct AllMapsAsset {
    pub maps: Vec<(String, MapConfig)>,
}

/// Read access to the loaded maps, by name or listed wholesale.
pub struct MapConfigSystemParam {
    pub maps_asset: AllMapsAsset,
}

impl MapConfigSystemParam {
    /// File stems are unique, so a name denotes at most one map.
    pub open spec fn wf(self) -> bool {
        forall|i: int, j: int|
            0 <= i < j < self.maps_asset.maps@.len() ==> self.maps_asset.maps@[i].0@
                != self.maps_asset.maps@[j].0@
    }

    pub open spec fn has_map_key(self, key: Seq<char>) -> bool {
        exists|i: int|
            0 <= i < self.maps_asset.maps@.len() && (#[trigger] self.maps_asset.maps@[i]).0@ == key
    }

    pub open spec fn map_key_index(self, key: Seq<char>) -> int {
        choose|i: int|
            0 <= i < self.maps_asset.maps@.len() && (#[trigger] self.maps_asset.maps@[i]).0@ == key
    }

    /// The configuration filed under the name, accepting it with or
    /// without the `.map` suffix.
    pub fn get_map_config_from_name(&self, map_name: &String) -> (r: Option<&MapConfig>)
        ensures
            match r {
                Some(c) => self.has_map_key(spec_map_key(map_name@)) && exists|i: int|
                    0 <= i < self.maps_asset.maps@.len() && (#[trigger] self.maps_asset.maps@[
                        i
                    ]).0@ == spec_map_key(map_name@) && *c == self.maps_asset.maps@[i].1,
                None => !self.has_map_key(spec_map_key(map_name@)),
            },
    {
        let wanted: String = if has_map_suffix(map_name) {
            map_name.clone()
        } else {
            map_name.clone().concat(".map")
        };
        let n = self.maps_asset.maps.len();
        let mut i: usize = 0;
        while i < n
            invariant
                i <= n,
                n == self.maps_asset.maps@.len(),
                wanted@ == spec_map_key(map_name@),
                forall|k: int|
                    0 <= k < i ==> (#[trigger] self.maps_asset.maps@[k]).0@ != wanted@,
            decreases n - i,
        {
            if self.maps_asset.maps[i].0 == wanted {
                return Some(&self.maps_asset.maps[i].1);
            }
            i = i + 1;
        }
        None
    }

    /// Every loaded map's name, with the `.map` suffix stripped.
    pub fn list_map_names(&self) -> (r: Vec<String>)
        ensures
            r@.len() == self.maps_asset.maps@.len(),
            forall|i: int|
                0 <= i < r@.len() ==> (#[trigger] r@[i])@ == spec_map_stem(
                    self.maps_asset.maps@[i].0@,
                ),
    {
        let n = self.maps_asset.maps.len();
        let mut out: Vec<String> = Vec::new();
        let mut i: usize = 0;
        while i < n
            invariant
                i <= n,
                n == self.maps_asset.maps@.len(),
                out@.len() == i,
                forall|k: int|
                    0 <= k < i ==> (#[trigger] out@[k])@ == spec_map_stem(
                        self.maps_asset.maps@[k].0@,
                    ),
            decreases n - i,
        {
            let key = &self.maps_asset.maps[i].0;
            let stem: String = if has_map_suffix(key) {
                let st = key.as_str();
                let len = st.unicode_len();
                String::from_str(st.substring_char(0, len - 4))
            } else {
                key.clone()
            };
            out.push(stem);
            i = i + 1;
        }
        out
    }
}

/// Whether the slice of player handles holds `x`.
pub fn contains_u64(v: &Vec<u64>, x: u64) -> (r: bool)
    ensures
        r == v@.contains(x),
{
    let n = v.len();
    let mut i: usize = 0;
    while i < n
        invariant
            i <= n,
            n == v@.len(),
            forall|k: int| 0 <= k < i ==> v@[k] != x,
        decreases n - i,
    {
        if v[i] == x {
            return true;
        }
        i = i + 1;
    }
    false
}

/// A copy of `v` with every occurrence of `x` struck, order kept.
pub fn remove_all_u64(v: &Vec<u64>, x: u64) -> (r: Vec<u64>)
    ensures
        r@ == v@.filter(ne_pred(x)),
{
    let n = v.len();
    let mut out: Vec<u64> = Vec::new();
    let mut i: usize = 0;
    proof {
        assert(v@.take(0int).filter(ne_pred(x)) =~= Seq::<u64>::empty());
    }
    while i < n
        invariant
            i <= n,
            n == v@.len(),
            out@ == v@.take(i as int).filter(ne_pred(x)),
        decreases n - i,
    {
        proof {
            lemma_filter_take_step(v@, ne_pred(x), i as int);
        }
        if v[i] != x {
            out.push(v[i]);
        }
        i = i + 1;
    }
    proof {
        assert(v@.take(n as int) =~= v@);
    }
    out
}

} // verus!
