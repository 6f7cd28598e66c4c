//! The heartbeat that announces the server to the MineOnline server list.
//!
//! The request is a JSON object; the `json` crate writes it out.

use crate::text::{copy_strings, decimal, decimal_string, string_views};
use vstd::prelude::*;

verus! {

/// A value of a JSON object, of one of the kinds that a request holds.
pub enum Field {
    Text(String),
    Number(u16),
    Flag(bool),
    TextList(Vec<String>),
}

/// A value of a JSON object, with its text as characters.
pub enum FieldView {
    Text(Seq<char>),
    Number(u16),
    Flag(bool),
    TextList(Seq<Seq<char>>),
}

impl View for Field {
    type V = FieldView;

    open spec fn view(&self) -> FieldView {
        match *self {
            Field::Text(text) => FieldView::Text(text@),
            Field::Number(n) => FieldView::Number(n),
            Field::Flag(b) => FieldView::Flag(b),
            Field::TextList(list) => FieldView::TextList(string_views(list@)),
        }
    }
}

/// The entries of an object, each with its key and its value as
/// characters.
pub open spec fn entry_views(entries: Seq<(String, Field)>) -> Seq<(Seq<char>, FieldView)> {
    Seq::new(entries.len(), |i: int| (entries[i].0@, entries[i].1@))
}

/// The text that the `json` crate writes for the object with the given
/// entries, put in in their order.
pub uninterp spec fn json_object_text(entries: Seq<(Seq<char>, FieldView)>) -> Seq<char>;

/// Puts the entries, in their order, into a `json::object::Object` by
/// `insert`, each value as the `json::JsonValue` of its kind (`String`,
/// `Number`, `Boolean`, or `Array` of `String`), and has `json::stringify`
/// write the object out.
#[verifier::external_body]
fn stringify_object(entries: &Vec<(String, Field)>) -> (text: String)
    ensures
        text@ == json_object_text(entry_views(entries@)),
{
    let mut object = json::object::Object::new();
    for (key, value) in entries.iter() {
        let value = match value {
            Field::Text(text) => json::JsonValue::String(text.clone()),
            Field::Number(n) => json::JsonValue::Number(json::number::Number::from(*n)),
            Field::Flag(b) => json::JsonValue::Boolean(*b),
            Field::TextList(list) => json::JsonValue::Array(
                list.iter().map(|text| json::JsonValue::String(text.clone())).collect(),
            ),
        };
        object.insert(key, value);
    }
    json::stringify(object)
}

/// What the MineOnline list is told of the server.
pub struct Heartbeat {
    uuid: String,
    url: String,
    ip: String,
    port: u16,
    name: String,
    public: bool,
    max_users: u16,
    online: bool,
    client_hash: String,
    users: u16,
    players_list: Vec<String>,
    whitelisted: bool,
    request: String,
}

/// What a heartbeat holds.
pub struct HeartbeatView {
    pub uuid: Seq<char>,
    pub url: Seq<char>,
    pub ip: Seq<char>,
    pub port: u16,
    pub name: Seq<char>,
    pub public: bool,
    pub max_users: u16,
    pub online: bool,
    pub client_hash: Seq<char>,
    pub users: u16,
    pub players: Seq<Seq<char>>,
    pub whitelisted: bool,
    pub request: Seq<char>,
}

impl HeartbeatView {
    /// The entries of the request: the address of the server, the number
    /// of players, their names, the most players that there can be, the name
    /// of the server, whether players have to log in, the hash of the client
    /// that fits the server, and whether the server has a whitelist.
    pub open spec fn entries(&self) -> Seq<(Seq<char>, FieldView)> {
        seq![
            ("ip"@, FieldView::Text(self.ip)),
            ("port"@, FieldView::Text(decimal(self.port as nat))),
            ("users"@, FieldView::Number(self.users)),
            ("players"@, FieldView::TextList(self.players)),
            ("max"@, FieldView::Number(self.max_users)),
            ("name"@, FieldView::Text(self.name)),
            ("onlinemode"@, FieldView::Flag(self.online)),
            ("md5"@, FieldView::Text(self.client_hash)),
            ("whitelisted"@, FieldView::Flag(self.whitelisted)),
        ]
    }
}

impl View for Heartbeat {
    type V = HeartbeatView;

    closed spec fn view(&self) -> HeartbeatView {
        HeartbeatView {
            uuid: self.uuid@,
            url: self.url@,
            ip: self.ip@,
            port: self.port,
            name: self.name@,
            public: self.public,
            max_users: self.max_users,
            online: self.online,
            client_hash: self.client_hash@,
            users: self.users,
            players: string_views(self.players_list@),
            whitelisted: self.whitelisted,
            request: self.request@,
        }
    }
}

impl Heartbeat {
    /// Create a heartbeat: no players yet, no request built, and no
    /// identifier from the list.
    pub fn new(
        url: &str,
        ip: &str,
        port: u16,
        name: &str,
        public: bool,
        max_players: u16,
        online: bool,
        client_hash: &str,
        whitelisted: bool,
    ) -> (heartbeat: Self)
        ensures
            heartbeat@ == (HeartbeatView {
                uuid: Seq::empty(),
                url: url@,
                ip: ip@,
                port,
                name: name@,
                public,
                max_users: max_players,
                online,
                client_hash: client_hash@,
                users: 0,
                players: Seq::empty(),
                whitelisted,
                request: Seq::empty(),
            }),
    {
        let heartbeat = Self {
            uuid: String::new(),
            url: url.to_owned(),
            ip: ip.to_owned(),
            port,
            name: name.to_owned(),
            public,
            max_users: max_players,
            online,
            client_hash: client_hash.to_owned(),
            users: 0,
            players_list: Vec::new(),
            whitelisted,
            request: String::new(),
        };
        assert(string_views(heartbeat.players_list@) =~= Seq::empty());
        heartbeat
    }

    /// Update the number of users currently connected to the server in the
    /// heartbeat.
    pub fn update_users(&mut self, user_count: u16)
        ensures
            final(self)@ == (HeartbeatView { users: user_count, ..old(self)@ }),
    {
        self.users = user_count;
    }

    /// Update the usernames of users currently connected to the server in
    /// the heartbeat.
    pub fn update_player_names(&mut self, user_names: &Vec<String>)
        ensures
            final(self)@ == (HeartbeatView { players: string_views(user_names@), ..old(self)@ }),
    {
        self.players_list = copy_strings(user_names);
    }

    /// Keeps the identifier that the list gave to the server.
    pub fn set_uuid(&mut self, uuid: String)
        ensures
            final(self)@ == (HeartbeatView { uuid: uuid@, ..old(self)@ }),
    {
        self.uuid = uuid;
    }

    /// Builds the request data from the heartbeat, and keeps it.
    pub fn build_request(&mut self) -> (text: String)
        ensures
            text@ == json_object_text(old(self)@.entries()),
            final(self)@ == (HeartbeatView { request: text@, ..old(self)@ }),
    {
        let mut entries: Vec<(String, Field)> = Vec::new();
        entries.push(("ip".to_owned(), Field::Text(self.ip.clone())));
        entries.push(("port".to_owned(), Field::Text(decimal_string(self.port))));
        entries.push(("users".to_owned(), Field::Number(self.users)));
        entries.push(("players".to_owned(), Field::TextList(copy_strings(&self.players_list))));
        entries.push(("max".to_owned(), Field::Number(self.max_users)));
        entries.push(("name".to_owned(), Field::Text(self.name.clone())));
        entries.push(("onlinemode".to_owned(), Field::Flag(self.online)));
        entries.push(("md5".to_owned(), Field::Text(self.client_hash.clone())));
        entries.push(("whitelisted".to_owned(), Field::Flag(self.whitelisted)));
        assert(entry_views(entries@) =~= self@.entries());
        let text = stringify_object(&entries);
        self.request = text.clone();
        text
    }

    /// The number of users that the heartbeat reports.
    pub fn get_user_count(&self) -> (users: u16)
        ensures
            users == self@.users,
    {
        self.users
    }

    /// The request that was built last; empty before the first one.
    pub fn get_request(&self) -> (request: &str)
        ensures
            request@ == self@.request,
    {
        self.request.as_str()
    }

    /// The identifier that the list gave to the server; empty before the
    /// first answer.
    pub fn get_uuid(&self) -> (uuid: &str)
        ensures
            uuid@ == self@.uuid,
    {
        self.uuid.as_str()
    }

    /// The address of the list.
    pub fn get_url(&self) -> (url: &str)
        ensures
            url@ == self@.url,
    {
        self.url.as_str()
    }
}

/// The status of an answer that accepts a request.
pub const STATUS_OK: u16 = 200;

/// The most requests that are made for one heartbeat.
pub const MAX_TRIES: u8 = 5;

/// The seconds between two requests for one heartbeat.
pub const RETRY_DELAY: u64 = 2;

/// Where the requests of a heartbeat go, below the address of the list.
pub const SERVERS_PATH: &'static str = "/api/servers";

/// What is done after an answer to a request.
#[derive(Debug, Clone, Copy, PartialEq, Eq, Structural)]
pub enum NextStep {
    /// The request was accepted: the identifier in the answer is kept.
    Accepted,
    /// The request is made again after a pause.
    Retry,
    /// The heartbeat has failed.
    Failed,
}

/// What is done after an answer with the given status, when `failed`
/// requests for this heartbeat have failed before.
pub open spec fn next_step(failed: u8, status: u16) -> NextStep {
    if status == STATUS_OK {
        NextStep::Accepted
    } else if failed + 1 < MAX_TRIES {
        NextStep::Retry
    } else {
        NextStep::Failed
    }
}

/// Decides what is done after an answer with the given status, when
/// `failed` requests for this heartbeat have failed before.
pub fn after_answer(failed: u8, status: u16) -> (step: NextStep)
    ensures
        step == next_step(failed, status),
{
    if status == STATUS_OK {
        NextStep::Accepted
    } else if failed < MAX_TRIES - 1 {
        NextStep::Retry
    } else {
        NextStep::Failed
    }
}

/// The path of the entry of a server in the list, below the address of the
/// list.
pub fn entry_path(uuid: &str) -> (path: String)
    ensures
        path@ == "/api/servers/"@ + uuid@,
{
    let path = "/api/servers/".to_owned();
    vstd::string::StringExecFns::concat(path, uuid)
}

} // verus!
