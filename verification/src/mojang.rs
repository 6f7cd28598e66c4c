//! The heartbeat that announces the server to the Mojang server list.

use crate::text::{decimal, decimal_string, truth_string, truth_word};
use vstd::prelude::*;

verus! {

/// What the Mojang list is told of the server.
pub struct Heartbeat {
    url: String,
    ip: String,
    port: u16,
    name: String,
    public: bool,
    max_users: u16,
    online: bool,
    protocol: u16,
    salt: String,
    users: u16,
    request: Vec<(String, String)>,
}

/// What a heartbeat holds.
pub struct HeartbeatView {
    pub url: Seq<char>,
    pub ip: Seq<char>,
    pub port: u16,
    pub name: Seq<char>,
    pub public: bool,
    pub max_users: u16,
    pub online: bool,
    pub protocol: u16,
    pub salt: Seq<char>,
    pub users: u16,
    pub request: Seq<(Seq<char>, Seq<char>)>,
}

/// The pairs of a list, each with its two strings as characters.
pub open spec fn pair_views(pairs: Seq<(String, String)>) -> Seq<(Seq<char>, Seq<char>)> {
    Seq::new(pairs.len(), |i: int| (pairs[i].0@, pairs[i].1@))
}

impl HeartbeatView {
    /// The form fields of the request: the address of the server, the
    /// number of players and the most that there can be, the name, whether
    /// the server is listed, the protocol version and the salt.
    pub open spec fn query(&self) -> Seq<(Seq<char>, Seq<char>)> {
        seq![
            ("ip"@, self.ip),
            ("port"@, decimal(self.port as nat)),
            ("users"@, decimal(self.users as nat)),
            ("max"@, decimal(self.max_users as nat)),
            ("name"@, self.name),
            ("public"@, truth_word(self.public)),
            ("version"@, decimal(self.protocol as nat)),
            ("salt"@, self.salt),
        ]
    }
}

impl View for Heartbeat {
    type V = HeartbeatView;

    closed spec fn view(&self) -> HeartbeatView {
        HeartbeatView {
            url: self.url@,
            ip: self.ip@,
            port: self.port,
            name: self.name@,
            public: self.public,
            max_users: self.max_users,
            online: self.online,
            protocol: self.protocol,
            salt: self.salt@,
            users: self.users,
            request: pair_views(self.request@),
        }
    }
}

fn copy_pairs(pairs: &Vec<(String, String)>) -> (copy: Vec<(String, String)>)
    ensures
        pair_views(copy@) == pair_views(pairs@),
{
    let mut copy: Vec<(String, String)> = Vec::new();
    let mut i: usize = 0;
    while i < pairs.len()
        invariant
            i <= pairs.len(),
            copy@.len() == i,
            forall|k: int|
                0 <= k < i ==> (#[trigger] copy@[k]).0@ == pairs@[k].0@ && copy@[k].1@
                    == pairs@[k].1@,
        decreases pairs.len() - i,
    {
        let pair = &pairs[i];
        copy.push((pair.0.clone(), pair.1.clone()));
        i += 1;
    }
    assert(pair_views(copy@) =~= pair_views(pairs@));
    copy
}

impl Heartbeat {
    /// Create a heartbeat: no players yet, and no request built.
    pub fn new(
        url: &str,
        ip: &str,
        port: u16,
        name: &str,
        public: bool,
        max_players: u16,
        online: bool,
        salt: &str,
        protocol: u16,
    ) -> (heartbeat: Self)
        ensures
            heartbeat@ == (HeartbeatView {
                url: url@,
                ip: ip@,
                port,
                name: name@,
                public,
                max_users: max_players,
                online,
                protocol,
                salt: salt@,
                users: 0,
                request: Seq::empty(),
            }),
    {
        let heartbeat = Self {
            url: url.to_owned(),
            ip: ip.to_owned(),
            port,
            name: name.to_owned(),
            public,
            max_users: max_players,
            online,
            protocol,
            salt: salt.to_owned(),
            users: 0,
            request: Vec::new(),
        };
        assert(pair_views(heartbeat.request@) =~= Seq::empty());
        heartbeat
    }

    /// Update the number of users currently connected to the server in the
    /// heartbeat.
    pub fn update_users(&mut self, user_count: u16)
        ensures
            final(self)@ == (HeartbeatView { users: user_count, ..old(self)@ }),
    {
        self.users = user_count;
    }

    /// Builds the request data from the heartbeat, and keeps it.
    pub fn build_request(&mut self) -> (query: Vec<(String, String)>)
        ensures
            pair_views(query@) == old(self)@.query(),
            final(self)@ == (HeartbeatView { request: old(self)@.query(), ..old(self)@ }),
    {
        let mut query: Vec<(String, String)> = Vec::new();
        query.push(("ip".to_owned(), self.ip.clone()));
        query.push(("port".to_owned(), decimal_string(self.port)));
        query.push(("users".to_owned(), decimal_string(self.users)));
        query.push(("max".to_owned(), decimal_string(self.max_users)));
        query.push(("name".to_owned(), self.name.clone()));
        query.push(("public".to_owned(), truth_string(self.public)));
        query.push(("version".to_owned(), decimal_string(self.protocol)));
        query.push(("salt".to_owned(), self.salt.clone()));
        assert(pair_views(query@) =~= self@.query());
        self.request = copy_pairs(&query);
        query
    }

    /// The number of users that the heartbeat reports.
    pub fn get_user_count(&self) -> (users: u16)
        ensures
            users == self@.users,
    {
        self.users
    }

    /// The request that was built last; empty before the first one.
    pub fn get_request(&self) -> (query: Vec<(String, String)>)
        ensures
            pair_views(query@) == self@.request,
    {
        copy_pairs(&self.request)
    }

    /// The address that the request goes to.
    pub fn get_url(&self) -> (url: &str)
        ensures
            url@ == self@.url,
    {
        self.url.as_str()
    }
}

} // verus!
