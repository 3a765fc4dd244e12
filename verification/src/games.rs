//! The games the client knows, their CurseForge ids and slugs, and where
//! each game keeps its mods.
use vstd::prelude::*;
use vstd::utf8::encode_utf8;
use vstd::string::StringSliceAdditionalSpecFns;
use crate::ascii::{lower_seq, lowercase, upper_seq};
use crate::asar::path_view;
use crate::paths::{joined, join1, join3, instances_dir, document_dir_or_empty};
use crate::search::bytes_equal;

verus! {

/// A game supported by the client.
#[derive(Debug, Clone, Copy, PartialEq, Eq, Hash)]
pub enum Game {
    Minecraft,
    WowRetail,
    WowClassic,
    Sims4,
    ArkSurvivalEvolved,
    Other(u64),
}

/// The CurseForge id of a game.
pub open spec fn game_id(g: Game) -> u64 {
    match g {
        Game::Minecraft => 432,
        Game::WowRetail => 1,
        Game::WowClassic => 1,
        Game::Sims4 => 78,
        Game::ArkSurvivalEvolved => 0,
        Game::Other(x) => x,
    }
}

/// The game a CurseForge id stands for.
pub open spec fn game_of_id(id: u64) -> Game {
    if id == 432 {
        Game::Minecraft
    } else if id == 1 {
        Game::WowRetail
    } else if id == 78 {
        Game::Sims4
    } else {
        Game::Other(id)
    }
}

/// The game that a slug, already in lower case, names.
pub open spec fn game_of_slug(s: Seq<u8>) -> Option<Game> {
    if s == encode_utf8("minecraft"@) || s == encode_utf8("mc"@) {
        Some(Game::Minecraft)
    } else if s == encode_utf8("wow"@) || s == encode_utf8("world-of-warcraft"@) {
        Some(Game::WowRetail)
    } else if s == encode_utf8("wow-classic"@) {
        Some(Game::WowClassic)
    } else if s == encode_utf8("sims4"@) || s == encode_utf8("the-sims-4"@) {
        Some(Game::Sims4)
    } else if s == encode_utf8("ark"@) || s == encode_utf8("ark-survival-evolved"@) {
        Some(Game::ArkSurvivalEvolved)
    } else {
        None
    }
}

impl Game {
    /// The CurseForge id of the game.
    pub fn id(self) -> (r: u64)
        ensures
            r == game_id(self),
    {
        match self {
            Game::Minecraft => 432,
            Game::WowRetail => 1,
            Game::WowClassic => 1,
            Game::Sims4 => 78,
            Game::ArkSurvivalEvolved => 0,
            Game::Other(x) => x,
        }
    }

    /// The game a CurseForge id stands for; unknown ids are `Other`.
    pub fn from_id(id: u64) -> (r: Game)
        ensures
            r == game_of_id(id),
    {
        if id == 432 {
            Game::Minecraft
        } else if id == 1 {
            Game::WowRetail
        } else if id == 78 {
            Game::Sims4
        } else {
            Game::Other(id)
        }
    }

    /// The game a slug names, ignoring ASCII case.
    pub fn from_slug(s: &str) -> (r: Option<Game>)
        ensures
            r == game_of_slug(lower_seq(s.spec_bytes())),
    {
        let l = lowercase(s.as_bytes());
        let b = l.as_slice();
        if bytes_equal(b, "minecraft".as_bytes()) || bytes_equal(b, "mc".as_bytes()) {
            Some(Game::Minecraft)
        } else if bytes_equal(b, "wow".as_bytes()) || bytes_equal(b, "world-of-warcraft".as_bytes()) {
            Some(Game::WowRetail)
        } else if bytes_equal(b, "wow-classic".as_bytes()) {
            Some(Game::WowClassic)
        } else if bytes_equal(b, "sims4".as_bytes()) || bytes_equal(b, "the-sims-4".as_bytes()) {
            Some(Game::Sims4)
        } else if bytes_equal(b, "ark".as_bytes()) || bytes_equal(b, "ark-survival-evolved".as_bytes()) {
            Some(Game::ArkSurvivalEvolved)
        } else {
            None
        }
    }
}

/// Law: a slug names the same game whatever the case of its ASCII letters
/// (`from_slug` reads the lower-cased bytes, and lower-casing the
/// lower-cased or the upper-cased bytes gives the lower-cased bytes back),
/// and a slug never names an unknown game.
pub proof fn law_slug_ignores_case(b: Seq<u8>)
    ensures
        game_of_slug(lower_seq(lower_seq(b))) == game_of_slug(lower_seq(b)),
        game_of_slug(lower_seq(upper_seq(b))) == game_of_slug(lower_seq(b)),
        !(game_of_slug(lower_seq(b)) matches Some(Game::Other(_))),
{
    assert(lower_seq(lower_seq(b)) =~= lower_seq(b));
    assert(lower_seq(upper_seq(b)) =~= lower_seq(b));
}

/// Law: the id of the game an id stands for is that id.
pub proof fn law_id_of_from_id(id: u64)
    ensures
        game_id(game_of_id(id)) == id,
{
}

/// Law: a game comes back from its id exactly when no other game shares
/// that id and it is not an `Other` that hides a known id.
pub proof fn law_from_id_of_id(g: Game)
    ensures
        game_of_id(game_id(g)) == g <==> (g is Minecraft || g is WowRetail || g is Sims4 || (
        g matches Game::Other(x) && x != 432 && x != 1 && x != 78)),
{
}

/// How the client installs mods for one game.
pub trait GameAdapter {
    /// The game this adapter serves.
    fn game(&self) -> Game;

    /// The directory, as names from the root, that mods for `instance` go to.
    fn install_dir(&self, instance: &str) -> Vec<String>;

    /// Whether a mod loader must be installed before mods; by default it
    /// need not be.
    fn loader_required(&self) -> (r: bool)
        default_ensures
            !r,
    {
        false
    }
}

/// Minecraft: mods go to `instances/<instance>/mods` in the data directory.
pub struct MinecraftAdapter;

/// World of Warcraft: AddOns of the retail or the classic client.
pub struct WowAdapter {
    pub retail: bool,
    pub wow_root: Vec<String>,
}

/// The Sims 4: `Electronic Arts/The Sims 4/Mods` in the documents directory.
pub struct Sims4Adapter;

/// ARK: Survival Evolved: `ShooterGame/Content/Mods` under the game root.
pub struct ArkAdapter {
    pub ark_root: Vec<String>,
}

impl GameAdapter for MinecraftAdapter {
    fn game(&self) -> (r: Game)
        ensures
            r == Game::Minecraft,
    {
        Game::Minecraft
    }

    fn install_dir(&self, instance: &str) -> (r: Vec<String>)
        ensures
            path_view(r@).len() >= 4,
            path_view(r@).subrange(path_view(r@).len() - 3, path_view(r@).len() as int) == seq![
                "instances"@,
                instance@,
                "mods"@,
            ],
    {
        minecraft_install_dir(instance)
    }

    fn loader_required(&self) -> (r: bool)
        ensures
            r,
    {
        true
    }
}

/// Where Minecraft mods for `instance` go: `<instance>/mods` in the
/// instances directory.
pub fn minecraft_install_dir(instance: &str) -> (r: Vec<String>)
    ensures
        path_view(r@).len() >= 4,
        path_view(r@).subrange(path_view(r@).len() - 3, path_view(r@).len() as int) == seq![
            "instances"@,
            instance@,
            "mods"@,
        ],
{
    let base = instances_dir();
    let a = join1(&base, instance);
    let b = join1(&a, "mods");
    assert(path_view(b@).subrange(path_view(b@).len() - 3, path_view(b@).len() as int) =~= seq![
        "instances"@,
        instance@,
        "mods"@,
    ]);
    b
}

impl GameAdapter for WowAdapter {
    fn game(&self) -> (r: Game)
        ensures
            r == if self.retail { Game::WowRetail } else { Game::WowClassic },
    {
        if self.retail {
            Game::WowRetail
        } else {
            Game::WowClassic
        }
    }

    fn install_dir(&self, instance: &str) -> (r: Vec<String>)
        ensures
            path_view(r@) == joined(
                self.wow_root@,
                seq![if self.retail { "_retail_"@ } else { "_classic_"@ }, "Interface"@, "AddOns"@],
            ),
    {
        wow_install_dir(self, instance)
    }
}

/// Where World of Warcraft AddOns go: `_retail_` or `_classic_`, then
/// `Interface/AddOns`, under the game root.
pub fn wow_install_dir(adapter: &WowAdapter, instance: &str) -> (r: Vec<String>)
    ensures
        path_view(r@) == joined(
            adapter.wow_root@,
            seq![if adapter.retail { "_retail_"@ } else { "_classic_"@ }, "Interface"@, "AddOns"@],
        ),
{
    let branch = if adapter.retail {
        "_retail_"
    } else {
        "_classic_"
    };
    join3(&adapter.wow_root, branch, "Interface", "AddOns")
}

impl GameAdapter for Sims4Adapter {
    fn game(&self) -> (r: Game)
        ensures
            r == Game::Sims4,
    {
        Game::Sims4
    }

    fn install_dir(&self, instance: &str) -> (r: Vec<String>)
        ensures
            path_view(r@).len() >= 3,
            path_view(r@).subrange(path_view(r@).len() - 3, path_view(r@).len() as int) == seq![
                "Electronic Arts"@,
                "The Sims 4"@,
                "Mods"@,
            ],
    {
        let r = sims4_install_dir(&document_dir_or_empty());
        assert(path_view(r@).subrange(path_view(r@).len() - 3, path_view(r@).len() as int) =~= seq![
            "Electronic Arts"@,
            "The Sims 4"@,
            "Mods"@,
        ]);
        r
    }
}

/// Where The Sims 4 mods go, given the documents directory.
pub fn sims4_install_dir(documents: &Vec<String>) -> (r: Vec<String>)
    ensures
        path_view(r@) == joined(documents@, seq!["Electronic Arts"@, "The Sims 4"@, "Mods"@]),
{
    join3(documents, "Electronic Arts", "The Sims 4", "Mods")
}

impl GameAdapter for ArkAdapter {
    fn game(&self) -> (r: Game)
        ensures
            r == Game::ArkSurvivalEvolved,
    {
        Game::ArkSurvivalEvolved
    }

    fn install_dir(&self, instance: &str) -> (r: Vec<String>)
        ensures
            path_view(r@) == joined(self.ark_root@, seq!["ShooterGame"@, "Content"@, "Mods"@]),
    {
        ark_install_dir(self)
    }
}

/// Where ARK mods go: `ShooterGame/Content/Mods` under the game root.
pub fn ark_install_dir(adapter: &ArkAdapter) -> (r: Vec<String>)
    ensures
        path_view(r@) == joined(adapter.ark_root@, seq!["ShooterGame"@, "Content"@, "Mods"@]),
{
    join3(&adapter.ark_root, "ShooterGame", "Content", "Mods")
}

} // verus!
