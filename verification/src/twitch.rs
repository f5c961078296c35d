//! Requests to the Twitch Helix API, and the records it answers with. Sending a request
//! and reading its JSON answer is the caller's part; this module says what to send.

use vstd::prelude::*;

verus! {

/// A client of the Helix API, identified by its client id.
pub struct TwitchClient {
    client_id: String,
}

/// A `GET` request to the Helix API: its URL, its query pairs in order, its headers, and
/// the connect and read timeouts in milliseconds.
pub struct HelixRequest {
    pub url: String,
    pub query: Vec<(String, String)>,
    pub headers: Vec<(String, String)>,
    pub timeout_connect_ms: u64,
    pub timeout_read_ms: u64,
}

/// The text of a sequence of string pairs.
pub open spec fn pair_views(v: Seq<(String, String)>) -> Seq<(Seq<char>, Seq<char>)> {
    v.map_values(|p: (String, String)| (p.0@, p.1@))
}

/// The query that repeats `key` with each of `values`.
pub open spec fn query_spec(key: Seq<char>, values: Seq<&str>) -> Seq<(Seq<char>, Seq<char>)> {
    values.map_values(|v: &str| (key, v@))
}

/// The Helix request for endpoint `ep` with the query `key=value` for each of `values`,
/// sent with the client id `client_id`.
pub open spec fn helix_spec(
    r: HelixRequest,
    client_id: Seq<char>,
    ep: Seq<char>,
    key: Seq<char>,
    values: Seq<&str>,
) -> bool {
    &&& r.url@ == "https://api.twitch.tv/helix/"@ + ep
    &&& pair_views(r.query@) == query_spec(key, values)
    &&& pair_views(r.headers@) == seq![
        ("Client-ID"@, client_id),
        ("Accept"@, "application/vnd.twitchtv.v5+json"@),
    ]
    &&& r.timeout_connect_ms == 5000
    &&& r.timeout_read_ms == 5000
}

impl TwitchClient {
    /// The client id the requests carry.
    pub closed spec fn id(&self) -> Seq<char> {
        self.client_id@
    }

    /// A client with the id `client_id`.
    pub fn new(client_id: &str) -> (r: Self)
        ensures
            r.id() == client_id@,
    {
        TwitchClient { client_id: String::from_str(client_id) }
    }

    /// The request for endpoint `ep`, with `key=value` for each of `values`.
    fn get_response(&self, ep: &str, key: &str, values: &[&str]) -> (r: HelixRequest)
        ensures
            helix_spec(r, self.id(), ep@, key@, values@),
    {
        let mut url = String::from_str("https://api.twitch.tv/helix/");
        url.append(ep);
        let mut query: Vec<(String, String)> = Vec::new();
        let mut i: usize = 0;
        while i < values.len()
            invariant
                i <= values@.len(),
                pair_views(query@) == query_spec(key@, values@.subrange(0, i as int)),
            decreases values@.len() - i,
        {
            let ghost before = query@;
            query.push((String::from_str(key), String::from_str(values[i])));
            assert(pair_views(query@) =~= pair_views(before).push((key@, values@[i as int]@)));
            assert(query_spec(key@, values@.subrange(0, i + 1)) =~= query_spec(
                key@,
                values@.subrange(0, i as int),
            ).push((key@, values@[i as int]@)));
            i += 1;
        }
        assert(values@.subrange(0, i as int) =~= values@);
        let mut headers: Vec<(String, String)> = Vec::new();
        headers.push((String::from_str("Client-ID"), self.client_id.clone()));
        headers.push(
            (String::from_str("Accept"), String::from_str("application/vnd.twitchtv.v5+json")),
        );
        assert(pair_views(headers@) =~= seq![
            ("Client-ID"@, self.id()),
            ("Accept"@, "application/vnd.twitchtv.v5+json"@),
        ]);
        HelixRequest { url, query, headers, timeout_connect_ms: 5000, timeout_read_ms: 5000 }
    }

    /// The request for the streams of the users with the logins `user_logins`.
    pub fn get_streams(&self, user_logins: &[&str]) -> (r: HelixRequest)
        ensures
            helix_spec(r, self.id(), "streams"@, "user_login"@, user_logins@),
    {
        self.get_response("streams", "user_login", user_logins)
    }

    /// The request for the streams of the users with the ids `ids` (the query key is
    /// `"user_id "`, with its trailing space).
    pub fn get_streams_from_ids(&self, ids: &[&str]) -> (r: HelixRequest)
        ensures
            helix_spec(r, self.id(), "streams"@, "user_id "@, ids@),
    {
        self.get_response("streams", "user_id ", ids)
    }

    /// The request for the users with the logins `user_logins`.
    pub fn get_users(&self, user_logins: &[&str]) -> (r: HelixRequest)
        ensures
            helix_spec(r, self.id(), "users"@, "login"@, user_logins@),
    {
        self.get_response("users", "login", user_logins)
    }

    /// The request for the users with the ids `ids`.
    pub fn get_users_from_ids(&self, ids: &[&str]) -> (r: HelixRequest)
        ensures
            helix_spec(r, self.id(), "users"@, "id"@, ids@),
    {
        self.get_response("users", "id", ids)
    }

    /// The URL that lists who is chatting in the channel `ch`.
    pub fn get_names_for(ch: &str) -> (r: String)
        ensures
            r@ == "https://tmi.twitch.tv/group/user/"@ + ch@ + "/chatters"@,
    {
        let mut url = String::from_str("https://tmi.twitch.tv/group/user/");
        url.append(ch);
        url.append("/chatters");
        url
    }
}

/// A Twitch user.
pub struct User {
    pub id: String,
    pub login: String,
    pub display_name: String,
    pub role: String,
    pub description: String,
}

/// A live stream.
pub struct Stream {
    pub id: String,
    pub user_id: String,
    pub game_id: String,
    pub live: String,
    pub title: String,
    pub viewer_count: usize,
    pub started_at: String,
}

/// Who is in a chat, by role.
pub struct Chatters {
    pub moderators: Vec<String>,
    pub staff: Vec<String>,
    pub admins: Vec<String>,
    pub global_mods: Vec<String>,
    pub viewers: Vec<String>,
}

/// How many are in a chat, and who.
pub struct Names {
    pub chatter_count: usize,
    pub chatters: Chatters,
}

} // verus!
