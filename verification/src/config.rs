//! The proxy's configuration: where it listens, how many players it admits and
//! which servers it knows.
use vstd::prelude::*;
use vstd::string::StringExecFns;

verus! {

/// A server the proxy can send players to.
#[derive(Debug)]
pub struct Server {
    /// The key the server is listed under, once the configuration is hydrated.
    pub name: Option<String>,
    /// Host and port of the Minetest server.
    pub address: String,
}

/// The proxy's configuration. `servers` lists each server under its key, as the
/// map in `config.toml` gives them; a map holds no key twice, which
/// `keys_distinct` states and `hydrate_config` keeps.
#[derive(Debug)]
pub struct Config {
    pub host: String,
    pub player_limit: i32,
    pub servers: Vec<(String, Server)>,
}

/// Abstract value of a `Server`.
pub struct ServerView {
    pub name: Option<Seq<char>>,
    pub address: Seq<char>,
}

impl View for Server {
    type V = ServerView;

    open spec fn view(&self) -> ServerView {
        ServerView {
            name: match self.name {
                Some(n) => Some(n@),
                None => None,
            },
            address: self.address@,
        }
    }
}

/// A list entry as key and server values.
pub open spec fn entry_view(e: (String, Server)) -> (Seq<char>, ServerView) {
    (e.0@, e.1@)
}

impl Config {
    /// The server list as key and server values.
    pub open spec fn servers_view(&self) -> Seq<(Seq<char>, ServerView)> {
        self.servers@.map_values(|e: (String, Server)| entry_view(e))
    }

    /// No key is listed twice.
    pub open spec fn keys_distinct(&self) -> bool {
        forall|i: int, j: int|
            0 <= i < j < self.servers@.len() ==> #[trigger] self.servers@[i].0@
                != #[trigger] self.servers@[j].0@
    }

    /// Whether some server is listed under `key`.
    pub open spec fn has_server(&self, key: Seq<char>) -> bool {
        exists|i: int| 0 <= i < self.servers@.len() && #[trigger] self.servers@[i].0@ == key
    }
}

/// The `config.toml` written where none exists: the proxy listens on all
/// addresses at port 30001, admits any number of players, and sends them to a
/// lobby server at 127.0.0.1:30000.
pub const DEFAULT_CONFIG_TOML: &'static str = "# knot config.toml
host = \"0.0.0.0:30001\"
player_limit = -1

[servers]
  [servers.lobby]
    address = \"127.0.0.1:30000\"
";

/// The key of the server players are sent to first.
pub open spec fn lobby_key() -> Seq<char> {
    seq!['l', 'o', 'b', 'b', 'y']
}

/// Gives every server the name it is listed under; keys and addresses stay.
pub fn hydrate_config(config: &mut Config)
    ensures
        final(config).host == old(config).host,
        final(config).player_limit == old(config).player_limit,
        final(config).servers@.len() == old(config).servers@.len(),
        final(config).keys_distinct() == old(config).keys_distinct(),
        forall|i: int|
            0 <= i < old(config).servers@.len() ==> {
                let (key, server) = #[trigger] final(config).servers_view()[i];
                &&& key == old(config).servers_view()[i].0
                &&& server.address == old(config).servers_view()[i].1.address
                &&& server.name == Some(key)
            },
{
    let ghost listed = old(config).servers_view();
    let mut pending: Vec<(String, Server)> = Vec::new();
    std::mem::swap(&mut pending, &mut config.servers);
    let mut hydrated: Vec<(String, Server)> = Vec::new();
    while pending.len() > 0
        invariant
            hydrated@.len() + pending@.len() == listed.len(),
            forall|i: int|
                0 <= i < pending@.len() ==> #[trigger] entry_view(pending@[i])
                    == listed[hydrated@.len() + i],
            forall|i: int|
                0 <= i < hydrated@.len() ==> {
                    let (key, server) = #[trigger] entry_view(hydrated@[i]);
                    &&& key == listed[i].0
                    &&& server.address == listed[i].1.address
                    &&& server.name == Some(key)
                },
        decreases pending@.len(),
    {
        let ghost before = pending@;
        let (key, server) = pending.remove(0);
        assert(entry_view(before[0]) == listed[hydrated@.len() as int]);
        assert forall|i: int| 0 <= i < pending@.len() implies #[trigger] entry_view(pending@[i])
            == listed[hydrated@.len() + 1 + i] by {
            assert(pending@[i] == before[i + 1]);
        }
        let name = key.clone();
        hydrated.push((key, Server { name: Some(name), address: server.address }));
    }
    config.servers = hydrated;
    assert(config.servers_view().len() == listed.len());
    assert forall|i: int| 0 <= i < config.servers@.len() implies #[trigger] config.servers@[i].0@
        == old(config).servers@[i].0@ by {
        assert(entry_view(config.servers@[i]).0 == listed[i].0);
        assert(listed[i] == entry_view(old(config).servers@[i]));
    }
    assert(config.keys_distinct() == old(config).keys_distinct()) by {
        if old(config).keys_distinct() {
            assert forall|i: int, j: int| 0 <= i < j < config.servers@.len() implies #[trigger] config.servers@[i].0@
                != #[trigger] config.servers@[j].0@ by {
                assert(old(config).servers@[i].0@ != old(config).servers@[j].0@);
            }
        }
        if config.keys_distinct() {
            assert forall|i: int, j: int| 0 <= i < j < old(config).servers@.len() implies #[trigger] old(config).servers@[i].0@
                != #[trigger] old(config).servers@[j].0@ by {
                assert(config.servers@[i].0@ != config.servers@[j].0@);
            }
        }
    }
}

impl Config {
    /// Accepts a configuration that lists a lobby server, the one players are
    /// sent to; refuses any other with a message saying so.
    pub fn validate(&self) -> (r: Result<(), String>)
        ensures
            r is Ok <==> self.has_server(lobby_key()),
            r matches Err(msg) ==> msg@ == "config.toml does not define [servers.lobby]"@,
    {
        let lobby = String::from_str("lobby");
        proof {
            reveal_strlit("lobby");
            assert(lobby@ =~= lobby_key());
        }
        let mut i: usize = 0;
        while i < self.servers.len()
            invariant
                i <= self.servers@.len(),
                lobby@ == lobby_key(),
                forall|j: int| 0 <= j < i ==> #[trigger] self.servers@[j].0@ != lobby_key(),
            decreases self.servers@.len() - i,
        {
            if self.servers[i].0 == lobby {
                return Ok(());
            }
            i = i + 1;
        }
        let msg = String::from_str("config.toml does not define [servers.lobby]");
        Err(msg)
    }

    /// The address of the lobby server, if one is listed (the first one, should
    /// the key be listed twice).
    pub fn lobby_address(&self) -> (r: Option<String>)
        ensures
            r is Some <==> self.has_server(lobby_key()),
            r matches Some(a) ==> exists|i: int|
                0 <= i < self.servers@.len() && #[trigger] self.servers@[i].0@ == lobby_key()
                    && a@ == self.servers@[i].1.address@ && forall|j: int|
                    0 <= j < i ==> #[trigger] self.servers@[j].0@ != lobby_key(),
    {
        let lobby = String::from_str("lobby");
        proof {
            reveal_strlit("lobby");
            assert(lobby@ =~= lobby_key());
        }
        let mut i: usize = 0;
        while i < self.servers.len()
            invariant
                i <= self.servers@.len(),
                lobby@ == lobby_key(),
                forall|j: int| 0 <= j < i ==> #[trigger] self.servers@[j].0@ != lobby_key(),
            decreases self.servers@.len() - i,
        {
            if self.servers[i].0 == lobby {
                return Some(self.servers[i].1.address.clone());
            }
            i = i + 1;
        }
        None
    }
}

} // verus!
