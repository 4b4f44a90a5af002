//! Server configuration.

use vstd::prelude::*;
use vstd::string::*;

use crate::net::{socket_addr, IpAddr, SocketAddr};
use crate::random::random_16;
use crate::text::{split_at_colon, split_pair};

verus! {

/// Server configuration.
#[derive(Debug, Clone)]
pub struct Config {
    /// UDP port to listen on
    pub port: u16,
    /// Public IP address, handed out as the relay address of every allocation
    pub external_ip: IpAddr,
    /// TURN realm for authentication
    pub realm: String,
    /// Static credentials (username, password)
    pub credentials: Vec<(String, String)>,
    /// Maximum allocations per IP address (0 = unlimited)
    pub max_allocations_per_ip: u32,
    /// Maximum allocation requests per IP address and minute (0 = unlimited)
    pub rate_limit_per_minute: u32,
    /// Nonce validity period in seconds
    pub nonce_lifetime_secs: u64,
    /// What nonces are signed with
    pub nonce_secret: [u8; 16],
    /// Whether the server may run without credentials, as an open relay
    pub allow_anonymous: bool,
    /// Maximum number of peer permissions per allocation
    pub max_permissions_per_alloc: usize,
    /// Maximum number of bound channels per allocation
    pub max_channels_per_alloc: usize,
}

/// Usernames and passwords as text.
pub open spec fn credential_texts(c: Seq<(String, String)>) -> Seq<(Seq<char>, Seq<char>)> {
    c.map_values(|p: (String, String)| (p.0@, p.1@))
}

/// The password in the first credential of the user.
pub open spec fn password_in(c: Seq<(Seq<char>, Seq<char>)>, username: Seq<char>) -> Option<Seq<char>>
    decreases c.len(),
{
    if c.len() == 0 {
        None
    } else if c[0].0 == username {
        Some(c[0].1)
    } else {
        password_in(c.drop_first(), username)
    }
}

/// The credentials in a list of "user:password" texts, in order. A text
/// without a colon holds none.
pub open spec fn credentials_in(users: Seq<Seq<char>>) -> Seq<(Seq<char>, Seq<char>)>
    decreases users.len(),
{
    if users.len() == 0 {
        Seq::empty()
    } else {
        match split_at_colon(users.last()) {
            Some(p) => credentials_in(users.drop_last()).push(p),
            None => credentials_in(users.drop_last()),
        }
    }
}

/// Reads "user:password" texts, leaving out those without a colon.
pub fn parse_credentials(users: &Vec<String>) -> (r: Vec<(String, String)>)
    ensures
        credential_texts(r@) == credentials_in(users@.map_values(|u: String| u@)),
{
    let ghost texts = users@.map_values(|u: String| u@);
    let n: usize = users.len();
    let mut out: Vec<(String, String)> = Vec::new();
    let mut i: usize = 0;
    assert(credential_texts(out@) =~= credentials_in(texts.subrange(0, 0)));
    while i < n
        invariant
            i <= n,
            n == users@.len(),
            texts == users@.map_values(|u: String| u@),
            credential_texts(out@) == credentials_in(texts.subrange(0, i as int)),
        decreases n - i,
    {
        let ghost next = texts.subrange(0, i + 1);
        let ghost before = out@;
        assert(next.drop_last() =~= texts.subrange(0, i as int));
        assert(next.last() == users@[i as int]@);
        if let Some(p) = split_pair(users[i].as_str()) {
            let ghost pair = (p.0@, p.1@);
            out.push(p);
            assert(credential_texts(out@) =~= credential_texts(before).push(pair));
        }
        i = i + 1;
    }
    assert(texts.subrange(0, n as int) =~= texts);
    out
}

impl Config {
    /// The address every allocation is relayed through.
    pub open spec fn spec_relay_addr(&self) -> SocketAddr {
        socket_addr(self.external_ip, self.port)
    }

    pub open spec fn spec_password(&self, username: Seq<char>) -> Option<Seq<char>> {
        password_in(credential_texts(self.credentials@), username)
    }

    /// A configuration with minimal settings and a random nonce secret.
    pub fn new(external_ip: IpAddr) -> (c: Self)
        ensures
            c.port == 3478,
            c.external_ip == external_ip,
            c.realm@ == "uturn"@,
            c.credentials@ == Seq::<(String, String)>::empty(),
            c.max_allocations_per_ip == 200,
            c.rate_limit_per_minute == 30,
            c.nonce_lifetime_secs == 3600,
            !c.allow_anonymous,
            c.max_permissions_per_alloc == 64,
            c.max_channels_per_alloc == 128,
    {
        Self {
            port: 3478,
            external_ip,
            realm: "uturn".to_string(),
            credentials: Vec::new(),
            max_allocations_per_ip: 200,
            rate_limit_per_minute: 30,
            nonce_lifetime_secs: 3600,
            nonce_secret: random_16(),
            allow_anonymous: false,
            max_permissions_per_alloc: 64,
            max_channels_per_alloc: 128,
        }
    }

    /// Sets the listen port.
    pub fn with_port(self, port: u16) -> (c: Self)
        ensures
            c == (Config { port, ..self }),
    {
        let mut c = self;
        c.port = port;
        c
    }

    /// Sets the realm.
    pub fn with_realm(self, realm: &str) -> (c: Self)
        ensures
            c.realm@ == realm@,
            c == (Config { realm: c.realm, ..self }),
    {
        let mut c = self;
        c.realm = realm.to_string();
        c
    }

    /// Adds a credential.
    pub fn with_credential(self, username: &str, password: &str) -> (c: Self)
        ensures
            credential_texts(c.credentials@) == credential_texts(self.credentials@).push(
                (username@, password@),
            ),
            c == (Config { credentials: c.credentials, ..self }),
    {
        let mut c = self;
        let ghost before = c.credentials@;
        c.credentials.push((username.to_string(), password.to_string()));
        assert(credential_texts(c.credentials@) =~= credential_texts(before).push(
            (username@, password@),
        ));
        c
    }

    /// The password of a user, if there is such a user.
    pub fn get_password(&self, username: &str) -> (r: Option<&str>)
        ensures
            match r {
                Some(p) => self.spec_password(username@) == Some(p@),
                None => self.spec_password(username@) is None,
            },
    {
        let ghost all = credential_texts(self.credentials@);
        let wanted = username.to_string();
        let n: usize = self.credentials.len();
        let mut i: usize = 0;
        assert(all.subrange(0, n as int) =~= all);
        while i < n
            invariant
                i <= n,
                n == self.credentials@.len(),
                all == credential_texts(self.credentials@),
                wanted@ == username@,
                password_in(all, username@) == password_in(
                    all.subrange(i as int, n as int),
                    username@,
                ),
            decreases n - i,
        {
            assert(all.subrange(i as int, n as int).drop_first() =~= all.subrange(
                i + 1,
                n as int,
            ));
            if self.credentials[i].0 == wanted {
                return Some(self.credentials[i].1.as_str());
            }
            i = i + 1;
        }
        None
    }

    /// The address every allocation is relayed through.
    pub fn relay_addr(&self) -> (addr: SocketAddr)
        ensures
            addr == self.spec_relay_addr(),
    {
        SocketAddr::new(self.external_ip, self.port)
    }

    /// Whether the server may start: it has credentials, or is meant to be an
    /// open relay.
    pub fn can_start(&self) -> (r: bool)
        ensures
            r == (self.credentials@.len() > 0 || self.allow_anonymous),
    {
        self.credentials.len() > 0 || self.allow_anonymous
    }
}

/// A user who was added to a configuration that did not know them has the
/// password they were added with; one it knew already keeps theirs.
pub proof fn first_credential_counts(
    c: Seq<(Seq<char>, Seq<char>)>,
    username: Seq<char>,
    password: Seq<char>,
    other: Seq<char>,
)
    ensures
        password_in(c.push((username, password)), other) == match password_in(c, other) {
            Some(p) => Some(p),
            None => if other == username {
                Some(password)
            } else {
                None
            },
        },
    decreases c.len(),
{
    let longer = c.push((username, password));
    if c.len() == 0 {
        assert(longer.drop_first() =~= Seq::<(Seq<char>, Seq<char>)>::empty());
        reveal_with_fuel(password_in, 2);
    } else {
        assert(longer.drop_first() =~= c.drop_first().push((username, password)));
        first_credential_counts(c.drop_first(), username, password, other);
    }
}

} // verus!
