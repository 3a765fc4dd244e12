//! The decisions of the mod client's command line: where `install` puts a
//! file for a game, and where `download` writes it.
use vstd::prelude::*;
use vstd::string::StringSliceAdditionalSpecFns;
use crate::ascii::lower_seq;
use crate::asar::path_view;
use crate::games::{Game, GameAdapter, MinecraftAdapter, Sims4Adapter, WowAdapter, game_of_slug};
use crate::paths::{join1, joined};
use crate::text::string_of;

verus! {

/// Why `install` refused.
#[derive(Debug, PartialEq, Eq)]
pub enum InstallError {
    /// A World of Warcraft install needs the game's root directory.
    MissingWowRoot,
    /// An ARK install needs the game's root directory.
    MissingArkRoot,
    /// ARK mods go into per-mod directories, which the client does not route yet.
    ArkNotImplemented,
    /// The slug names no supported game (the slug is given).
    UnsupportedGame(String),
}

/// Where `install` puts a mod file for the game named by `game`, or why it
/// refused: Minecraft mods go under the instance, World of Warcraft AddOns
/// and ARK need the game's root, and The Sims 4 mods go under the documents
/// directory.
pub fn install_dir_for(
    game: &str,
    instance: &str,
    wow_root: Option<Vec<String>>,
    ark_root: Option<Vec<String>>,
) -> (r: Result<Vec<String>, InstallError>)
    ensures
        match game_of_slug(lower_seq(game.spec_bytes())) {
            Some(Game::Minecraft) => r matches Ok(p) && path_view(p@).len() >= 4 && path_view(p@).subrange(
                path_view(p@).len() - 3,
                path_view(p@).len() as int,
            ) == seq!["instances"@, instance@, "mods"@],
            Some(Game::WowRetail) => match wow_root {
                Some(w) => r matches Ok(p) && path_view(p@) == joined(
                    w@,
                    seq!["_retail_"@, "Interface"@, "AddOns"@],
                ),
                None => r == Err::<Vec<String>, InstallError>(InstallError::MissingWowRoot),
            },
            Some(Game::WowClassic) => match wow_root {
                Some(w) => r matches Ok(p) && path_view(p@) == joined(
                    w@,
                    seq!["_classic_"@, "Interface"@, "AddOns"@],
                ),
                None => r == Err::<Vec<String>, InstallError>(InstallError::MissingWowRoot),
            },
            Some(Game::Sims4) => r matches Ok(p) && path_view(p@).len() >= 3 && path_view(p@).subrange(
                path_view(p@).len() - 3,
                path_view(p@).len() as int,
            ) == seq!["Electronic Arts"@, "The Sims 4"@, "Mods"@],
            Some(Game::ArkSurvivalEvolved) => match ark_root {
                Some(_) => r == Err::<Vec<String>, InstallError>(InstallError::ArkNotImplemented),
                None => r == Err::<Vec<String>, InstallError>(InstallError::MissingArkRoot),
            },
            _ => r matches Err(InstallError::UnsupportedGame(s)) && s@ == game@,
        },
{
    match Game::from_slug(game) {
        Some(Game::Minecraft) => {
            let a = MinecraftAdapter;
            Ok(a.install_dir(instance))
        },
        Some(Game::WowRetail) => match wow_root {
            Some(w) => {
                let a = WowAdapter { retail: true, wow_root: w };
                Ok(a.install_dir(instance))
            },
            None => Err(InstallError::MissingWowRoot),
        },
        Some(Game::WowClassic) => match wow_root {
            Some(w) => {
                let a = WowAdapter { retail: false, wow_root: w };
                Ok(a.install_dir(instance))
            },
            None => Err(InstallError::MissingWowRoot),
        },
        Some(Game::Sims4) => {
            let a = Sims4Adapter;
            Ok(a.install_dir(instance))
        },
        Some(Game::ArkSurvivalEvolved) => match ark_root {
            Some(_) => Err(InstallError::ArkNotImplemented),
            None => Err(InstallError::MissingArkRoot),
        },
        _ => Err(InstallError::UnsupportedGame(string_of(game))),
    }
}

/// Where `download` writes a file named `file_name` when told `target`: into
/// `target` when it is a directory or does not exist yet (which must then be
/// made), else to `target` itself. The flag says whether to make the
/// directory first.
pub fn download_target(target: Vec<String>, is_dir: bool, exists: bool, file_name: &str) -> (r: (
    Vec<String>,
    bool,
))
    ensures
        is_dir || !exists ==> path_view(r.0@) == joined(target@, seq![file_name@]) && r.1 == !exists,
        !is_dir && exists ==> r.0 == target && !r.1,
{
    if is_dir || !exists {
        (join1(&target, file_name), !exists)
    } else {
        (target, false)
    }
}

} // verus!
