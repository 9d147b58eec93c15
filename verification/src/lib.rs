//! LemiCraft launcher core: the decisions, parsers and formatters behind the launcher's
//! commands, each stated as a contract and proved.
use vstd::prelude::*;

pub mod auth;
pub mod auth_ely;
pub mod config;
pub mod content;
pub mod game;
pub mod mods;
pub mod net;
pub mod news;
pub mod server_list;
pub mod server_status;
pub mod settings;
pub mod skin;
pub mod skin_elyby;
pub mod update;
pub mod text;

verus! {

} // verus!
