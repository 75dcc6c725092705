//! Configuration consumed by the protocol core. Loading and validating a
//! configuration file is a caller's concern; the core only reads these
//! fields.

use vstd::prelude::*;

verus! {

/// How the connection reaches the server.
#[derive(Debug, Clone, Copy, PartialEq, Eq, Structural)]
pub enum ProxyType {
    /// Connect directly.
    Direct,
    /// Tunnel through a SOCKS5 proxy.
    Socks5,
}

/// The options the protocol core reads.
#[derive(Debug, Clone)]
pub struct Config {
    pub owners: Vec<String>,
    pub nickname: String,
    pub alt_nicks: Vec<String>,
    pub username: String,
    pub realname: String,
    pub server_password: String,
    pub nick_password: String,
    pub server: String,
    pub port: u16,
    pub use_tls: bool,
    pub encoding: String,
    pub channels: Vec<String>,
    pub channel_keys: Vec<(String, String)>,
    pub umodes: String,
    pub burst_window_length: u32,
    pub max_messages_in_burst: u32,
    pub ping_time: u32,
    pub ping_timeout: u32,
    pub use_mock_connection: bool,
    pub mock_initial_value: String,
    pub proxy_type: ProxyType,
    pub proxy_server: String,
    pub proxy_port: u16,
    pub proxy_username: String,
    pub proxy_password: String,
    pub cert_path: Option<String>,
    pub client_cert_path: Option<String>,
    pub client_cert_pass: String,
    pub dangerously_accept_invalid_certs: bool,
}

/// The key configured for a channel, if any: first match wins.
pub open spec fn key_lookup(keys: Seq<(Seq<char>, Seq<char>)>, chan: Seq<char>) -> Option<
    Seq<char>,
>
    decreases keys.len(),
{
    if keys.len() == 0 {
        None
    } else if keys[0].0 == chan {
        Some(keys[0].1)
    } else {
        key_lookup(keys.skip(1), chan)
    }
}

impl Config {
    /// The channel keys, viewed mathematically.
    pub open spec fn spec_keys(&self) -> Seq<(Seq<char>, Seq<char>)> {
        Seq::new(self.channel_keys@.len(), |i: int| (self.channel_keys@[i].0@, self.channel_keys@[i].1@))
    }

    /// Look up the configured key for a channel.
    pub fn key_for(&self, chan: &str) -> (r: Option<&String>)
        ensures
            match r {
                Some(k) => key_lookup(self.spec_keys(), chan@) == Some(k@),
                None => key_lookup(self.spec_keys(), chan@) is None,
            },
    {
        let n: usize = self.channel_keys.len();
        let mut i: usize = 0;
        proof {
            assert(self.spec_keys().skip(0) =~= self.spec_keys());
        }
        while i < n
            invariant
                0 <= i <= n,
                n == self.channel_keys@.len(),
                n == self.spec_keys().len(),
                key_lookup(self.spec_keys(), chan@) == key_lookup(
                    self.spec_keys().skip(i as int),
                    chan@,
                ),
            decreases n - i,
        {
            proof {
                assert(self.spec_keys().skip(i as int)[0] == self.spec_keys()[i as int]);
                assert(self.spec_keys().skip(i as int).skip(1) =~= self.spec_keys().skip(i + 1));
            }
            if crate::util::str_eq(self.channel_keys[i].0.as_str(), chan) {
                return Some(&self.channel_keys[i].1);
            }
            i = i + 1;
        }
        None
    }
}

impl Default for Config {
    /// The documented defaults: UTF-8 text, a burst window of 8 seconds
    /// holding at most 15 messages, pings every 180 seconds answered
    /// within 10, and a direct, unencrypted connection.
    fn default() -> (c: Config)
        ensures
            c.owners@.len() == 0,
            c.nickname@.len() == 0,
            c.alt_nicks@.len() == 0,
            c.username@.len() == 0,
            c.realname@.len() == 0,
            c.server_password@.len() == 0,
            c.nick_password@.len() == 0,
            c.server@.len() == 0,
            c.port == 6667u16,
            c.use_tls == false,
            c.encoding@ == "utf-8"@,
            c.channels@.len() == 0,
            c.channel_keys@.len() == 0,
            c.umodes@.len() == 0,
            c.burst_window_length == 8u32,
            c.max_messages_in_burst == 15u32,
            c.ping_time == 180u32,
            c.ping_timeout == 10u32,
            c.use_mock_connection == false,
            c.mock_initial_value@.len() == 0,
            c.proxy_type == ProxyType::Direct,
            c.proxy_server@.len() == 0,
            c.proxy_port == 1080u16,
            c.proxy_username@.len() == 0,
            c.proxy_password@.len() == 0,
            c.cert_path is None,
            c.client_cert_path is None,
            c.client_cert_pass@.len() == 0,
            c.dangerously_accept_invalid_certs == false,
    {
        Config {
            owners: Vec::new(),
            nickname: String::new(),
            alt_nicks: Vec::new(),
            username: String::new(),
            realname: String::new(),
            server_password: String::new(),
            nick_password: String::new(),
            server: String::new(),
            port: 6667,
            use_tls: false,
            encoding: String::from_str("utf-8"),
            channels: Vec::new(),
            channel_keys: Vec::new(),
            umodes: String::new(),
            burst_window_length: 8,
            max_messages_in_burst: 15,
            ping_time: 180,
            ping_timeout: 10,
            use_mock_connection: false,
            mock_initial_value: String::new(),
            proxy_type: ProxyType::Direct,
            proxy_server: String::new(),
            proxy_port: 1080,
            proxy_username: String::new(),
            proxy_password: String::new(),
            cert_path: None,
            client_cert_path: None,
            client_cert_pass: String::new(),
            dangerously_accept_invalid_certs: false,
        }
    }
}

} // verus!
