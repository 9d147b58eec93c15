//! The game's multiplayer server list (`servers.dat`): every launch makes sure it holds a
//! visible entry named LemiCraft for the server, and leaves a file it cannot read alone.
use vstd::prelude::*;

use crate::mods::{join_path, path_in, path_view};
use crate::net::opt_text;

verus! {

/// An entry of the server list.
#[derive(Debug, Clone)]
pub struct ServerEntry {
    pub ip: String,
    pub name: String,
    pub icon: Option<String>,
    pub accept_textures: Option<i8>,
    pub hidden: Option<i8>,
    pub accepted_code_of_conduct: Option<i32>,
}

/// The value of a `ServerEntry`.
pub struct EntryView {
    pub ip: Seq<char>,
    pub name: Seq<char>,
    pub icon: Option<Seq<char>>,
    pub accept_textures: Option<i8>,
    pub hidden: Option<i8>,
    pub accepted_code_of_conduct: Option<i32>,
}

impl View for ServerEntry {
    type V = EntryView;

    open spec fn view(&self) -> EntryView {
        EntryView {
            ip: self.ip@,
            name: self.name@,
            icon: opt_text(self.icon),
            accept_textures: self.accept_textures,
            hidden: self.hidden,
            accepted_code_of_conduct: self.accepted_code_of_conduct,
        }
    }
}

/// The contents of `servers.dat`.
#[derive(Debug, Clone)]
pub struct ServersDat {
    pub servers: Vec<ServerEntry>,
}

impl Default for ServersDat {
    fn default() -> (d: Self)
        ensures
            d.servers@.len() == 0,
    {
        ServersDat { servers: Vec::new() }
    }
}

pub open spec fn entries(v: Seq<ServerEntry>) -> Seq<EntryView> {
    v.map_values(|e: ServerEntry| e@)
}

/// What reading `servers.dat` gave.
#[derive(Debug)]
pub enum LoadResult {
    /// There is no file yet: start from an empty list.
    Empty,
    Parsed(ServersDat),
    /// The file is there but is not a server list this launcher understands. It must not be
    /// taken for an empty one, or writing our entry would replace the player's list.
    ParseFailed,
}

/// Where the game keeps its server list.
pub fn servers_dat_path(minecraft_dir: &str) -> (p: Vec<String>)
    ensures
        path_view(p@) == path_in(minecraft_dir@, "servers.dat"@),
{
    join_path(minecraft_dir, "servers.dat")
}

/// The address the entry points at: the bare domain, whose SRV record the game resolves
/// itself.
pub fn lemicraft_ip() -> (s: String)
    ensures
        s@ == crate::config::SERVER_SRV_DOMAIN@,
{
    crate::config::SERVER_SRV_DOMAIN.to_owned()
}

pub const SERVER_NAME: &'static str = "LemiCraft";

/// The index of the first entry for `ip`.
pub open spec fn entry_index(list: Seq<EntryView>, ip: Seq<char>) -> Option<int>
    decreases list.len(),
{
    if list.len() == 0 {
        None
    } else if list.last().ip == ip && !(entry_index(list.drop_last(), ip) is Some) {
        Some(list.len() - 1)
    } else {
        entry_index(list.drop_last(), ip)
    }
}

/// The entry added when the list has none for the server.
pub open spec fn new_entry() -> EntryView {
    EntryView {
        ip: crate::config::SERVER_SRV_DOMAIN@,
        name: SERVER_NAME@,
        icon: None,
        accept_textures: Some(1i8),
        hidden: None,
        accepted_code_of_conduct: None,
    }
}

/// An entry for the server that needs fixing: hidden, or not named LemiCraft.
pub open spec fn needs_fix(e: EntryView) -> bool {
    e.hidden == Some(1i8) || e.name != SERVER_NAME@
}

/// The entry shown again and renamed, everything else kept.
pub open spec fn fixed(e: EntryView) -> EntryView {
    EntryView {
        hidden: if e.hidden == Some(1i8) {
            None
        } else {
            e.hidden
        },
        name: SERVER_NAME@,
        ..e
    }
}

/// The list to write, or `None` when it is already right: without an entry for the server one
/// is put first; a hidden or misnamed first entry for it is fixed; anything else is kept.
pub open spec fn ensured_list(list: Seq<EntryView>) -> Option<Seq<EntryView>> {
    match entry_index(list, crate::config::SERVER_SRV_DOMAIN@) {
        None => Some(seq![new_entry()] + list),
        Some(i) => if needs_fix(list[i]) {
            Some(list.update(i, fixed(list[i])))
        } else {
            None
        },
    }
}

proof fn lemma_entry_index(list: Seq<EntryView>, ip: Seq<char>)
    ensures
        match entry_index(list, ip) {
            Some(i) => 0 <= i < list.len() && list[i].ip == ip && forall|j: int|
                0 <= j < i ==> (#[trigger] list[j]).ip != ip,
            None => forall|j: int| 0 <= j < list.len() ==> (#[trigger] list[j]).ip != ip,
        },
    decreases list.len(),
{
    if list.len() > 0 {
        lemma_entry_index(list.drop_last(), ip);
        assert forall|j: int| 0 <= j < list.len() - 1 implies list.drop_last()[j] == list[j] by {}
    }
}

/// `entry_index` is the first matching index.
proof fn lemma_entry_index_first(list: Seq<EntryView>, ip: Seq<char>, i: int)
    requires
        0 <= i < list.len(),
        list[i].ip == ip,
        forall|j: int| 0 <= j < i ==> (#[trigger] list[j]).ip != ip,
    ensures
        entry_index(list, ip) == Some(i),
    decreases list.len(),
{
    lemma_entry_index(list, ip);
    match entry_index(list, ip) {
        Some(k) => {
            if k < i {
                assert(list[k].ip != ip);
            }
            if k > i {
                assert(list[i].ip != ip);
            }
        },
        None => {
            assert(list[i].ip != ip);
        },
    }
}

/// The server list as it stands after a launch: the one written, or the one left as it was.
pub open spec fn list_after_launch(list: Seq<EntryView>) -> Seq<EntryView> {
    match ensured_list(list) {
        Some(l) => l,
        None => list,
    }
}

/// After the list is brought in order, it holds a visible entry named LemiCraft for the server
/// as its first entry for the server's address: that entry is not hidden (`hidden` is not 1) and
/// is named `LemiCraft`, and no entry before it is for the server.
pub proof fn ensured_list_has_entry(list: Seq<EntryView>)
    ensures
        entry_index(list_after_launch(list), crate::config::SERVER_SRV_DOMAIN@) matches Some(i)
            && !needs_fix(list_after_launch(list)[i]),
        exists|i: int|
            0 <= i < list_after_launch(list).len() && (#[trigger] list_after_launch(list)[i]).ip
                == crate::config::SERVER_SRV_DOMAIN@ && list_after_launch(list)[i].hidden != Some(1i8)
                && list_after_launch(list)[i].name == SERVER_NAME@ && forall|j: int|
                0 <= j < i ==> (#[trigger] list_after_launch(list)[j]).ip
                    != crate::config::SERVER_SRV_DOMAIN@,
{
    let ip = crate::config::SERVER_SRV_DOMAIN@;
    let out = list_after_launch(list);
    lemma_entry_index(list, ip);
    match entry_index(list, ip) {
        None => {
            let out = seq![new_entry()] + list;
            lemma_entry_index_first(out, ip, 0);
        },
        Some(i) => {
            if needs_fix(list[i]) {
                let out = list.update(i, fixed(list[i]));
                assert forall|j: int| 0 <= j < i implies (#[trigger] out[j]).ip != ip by {
                    assert(out[j] == list[j]);
                }
                lemma_entry_index_first(out, ip, i);
            }
        },
    }
    assert(entry_index(out, ip) matches Some(i) && !needs_fix(out[i]));
    lemma_entry_index(out, ip);
    let i = entry_index(out, ip)->0;
    assert(out[i].ip == ip);
    assert(out[i].hidden != Some(1i8) && out[i].name == SERVER_NAME@);
    assert(forall|j: int| 0 <= j < i ==> (#[trigger] out[j]).ip != ip);
}

/// Bringing the list in order twice changes nothing the second time: each launch re-adds the
/// entry only when it has gone missing.
pub proof fn ensured_list_is_idempotent(list: Seq<EntryView>)
    ensures
        ensured_list(list) matches Some(out) ==> ensured_list(out) is None,
{
    ensured_list_has_entry(list);
}

/// Brings a server list in order (see `ensured_list`); `None` when it already was.
pub fn ensure_entry(doc: ServersDat) -> (r: Option<ServersDat>)
    ensures
        match r {
            Some(d) => ensured_list(entries(doc.servers@)) == Some(entries(d.servers@)),
            None => ensured_list(entries(doc.servers@)) is None,
        },
{
    let ghost list = entries(doc.servers@);
    let ip = lemicraft_ip();
    let mut servers = doc.servers;
    let mut i: usize = 0;
    while i < servers.len()
        invariant
            i <= servers.len(),
            list == entries(servers@),
            list == entries(doc.servers@),
            ip@ == crate::config::SERVER_SRV_DOMAIN@,
            forall|j: int| 0 <= j < i ==> (#[trigger] list[j]).ip != ip@,
        decreases servers.len() - i,
    {
        if crate::text::str_eq(servers[i].ip.as_str(), ip.as_str()) {
            proof {
                assert(list[i as int] == servers@[i as int]@);
                lemma_entry_index_first(list, ip@, i as int);
            }
            let e = &servers[i];
            let hidden_fix = match e.hidden {
                Some(h) => h == 1,
                None => false,
            };
            let name_fix = !crate::text::str_eq(e.name.as_str(), SERVER_NAME);
            if !hidden_fix && !name_fix {
                return None;
            }
            let entry = ServerEntry {
                ip: e.ip.clone(),
                name: SERVER_NAME.to_owned(),
                icon: e.icon.clone(),
                accept_textures: e.accept_textures,
                hidden: if hidden_fix {
                    None
                } else {
                    e.hidden
                },
                accepted_code_of_conduct: e.accepted_code_of_conduct,
            };
            assert(entry@ == fixed(list[i as int]));
            servers.set(i, entry);
            assert(entries(servers@) =~= list.update(i as int, fixed(list[i as int])));
            return Some(ServersDat { servers });
        }
        assert(list[i as int] == servers@[i as int]@);
        i = i + 1;
    }
    proof {
        lemma_entry_index(list, ip@);
        if entry_index(list, ip@) is Some {
            let k = entry_index(list, ip@)->0;
            assert(list[k].ip != ip@);
        }
    }
    let entry = ServerEntry {
        ip,
        name: SERVER_NAME.to_owned(),
        icon: None,
        accept_textures: Some(1),
        hidden: None,
        accepted_code_of_conduct: None,
    };
    servers.insert(0, entry);
    assert(entries(servers@) =~= seq![new_entry()] + list);
    Some(ServersDat { servers })
}

/// The server list to write after a launch, or `None` when nothing is to be written: the file
/// could not be read, or it already holds the right entry.
pub fn ensure_lemicraft_server_entry(load: LoadResult) -> (r: Option<ServersDat>)
    ensures
        match load {
            LoadResult::ParseFailed => r is None,
            LoadResult::Empty => r matches Some(d) && ensured_list(Seq::<EntryView>::empty())
                == Some(entries(d.servers@)),
            LoadResult::Parsed(doc) => match r {
                Some(d) => ensured_list(entries(doc.servers@)) == Some(entries(d.servers@)),
                None => ensured_list(entries(doc.servers@)) is None,
            },
        },
{
    match load {
        LoadResult::ParseFailed => None,
        LoadResult::Empty => {
            let d = ServersDat::default();
            assert(entries(d.servers@) =~= Seq::<EntryView>::empty());
            ensure_entry(d)
        },
        LoadResult::Parsed(doc) => ensure_entry(doc),
    }
}

} // verus!
