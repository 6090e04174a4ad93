//! The server's settings.
use vstd::prelude::*;
use vstd::string::*;

use crate::text::{chars_of, parse_unsigned, push_decimal};
use crate::text::{
    ascii_digit, decimal, decimal_has_its_value, decimal_is_read_back, unsigned_value,
};

verus! {

/// The port that the server listens on unless it is told another.
pub const DEFAULT_PORT: u16 = 8080;

/// Server configuration. Host and port can be overridden via environment
/// variables `SERVER_HOST` and `SERVER_PORT`.
#[derive(Debug)]
pub struct Config {
    pub host: String,
    pub port: u16,
}

impl Clone for Config {
    fn clone(&self) -> (r: Self)
        ensures
            r == *self,
    {
        Config { host: self.host.clone(), port: self.port }
    }
}

/// The port that the variable `var` asks for; one that is unset, or is not a
/// number of 16 bits, leaves the default.
pub open spec fn port_of(var: Option<Seq<char>>) -> u16 {
    match var {
        Some(text) => match unsigned_value(text, u16::MAX as nat) {
            Some(port) => port as u16,
            None => DEFAULT_PORT,
        },
        None => DEFAULT_PORT,
    }
}

/// The host that the variable `var` asks for; unset, it leaves the default.
pub open spec fn host_of(var: Option<Seq<char>>) -> Seq<char> {
    match var {
        Some(text) => text,
        None => "127.0.0.1"@,
    }
}

/// The address of a host and a port.
pub open spec fn addr_of(host: Seq<char>, port: u16) -> Seq<char> {
    host + ":"@ + decimal(port as nat)
}

impl Config {
    /// Build a `Config` from the values of the environment variables `SERVER_HOST`
    /// and `SERVER_PORT`, falling back to defaults.
    pub fn from_vars(host: Option<String>, port: Option<String>) -> (r: Self)
        ensures
            r.host@ == host_of(host.deep_view()),
            r.port == port_of(port.deep_view()),
    {
        let host = match host {
            Some(host) => host,
            None => "127.0.0.1".to_string(),
        };
        let port: u16 = match port {
            Some(text) => {
                let cs = chars_of(text.as_str());
                assert(cs@.subrange(0, cs@.len() as int) =~= text@);
                match parse_unsigned(&cs, 0, cs.len(), 65535) {
                    Some(port) => port as u16,
                    None => DEFAULT_PORT,
                }
            },
            None => DEFAULT_PORT,
        };
        Config { host, port }
    }

    /// Convenience: resolve the bind address string.
    pub fn addr(&self) -> (r: String)
        ensures
            r@ == addr_of(self.host@, self.port),
    {
        let mut out = String::new();
        out.append(self.host.as_str());
        out.append(":");
        push_decimal(&mut out, self.port as usize);
        assert(out@ =~= addr_of(self.host@, self.port));
        out
    }
}

impl Default for Config {
    fn default() -> (r: Self)
        ensures
            r.host@ == "127.0.0.1"@,
            r.port == DEFAULT_PORT,
    {
        Config { host: "127.0.0.1".to_string(), port: DEFAULT_PORT }
    }
}

/// With both variables unset, the settings are the default ones.
pub proof fn unset_variables_leave_the_defaults(unset: Config, default: Config)
    requires
        call_ensures(Config::from_vars, (None, None), unset),
        call_ensures(Config::default, (), default),
    ensures
        unset.host@ == default.host@,
        unset.port == default.port,
{
}

/// Every port can be asked for, by its decimal notation.
pub proof fn every_port_can_be_asked_for(port: u16)
    ensures
        port_of(Some(decimal(port as nat))) == port,
{
    decimal_is_read_back(port as nat, u16::MAX as nat);
}

/// An address tells its host and its port.
pub proof fn an_address_tells_host_and_port(h1: Seq<char>, p1: u16, h2: Seq<char>, p2: u16)
    requires
        addr_of(h1, p1) == addr_of(h2, p2),
    ensures
        h1 == h2,
        p1 == p2,
{
    reveal_strlit(":");
    let (d1, d2) = (decimal(p1 as nat), decimal(p2 as nat));
    let a = addr_of(h1, p1);
    decimal_has_its_value(p1 as nat);
    decimal_has_its_value(p2 as nat);
    if d1.len() < d2.len() {
        assert(a[a.len() - d1.len() - 1] == ':');
        assert(ascii_digit(d2[d2.len() - d1.len() - 1]));
    }
    if d2.len() < d1.len() {
        assert(a[a.len() - d2.len() - 1] == ':');
        assert(ascii_digit(d1[d1.len() - d2.len() - 1]));
    }
    assert(d1 =~= a.skip(a.len() - d1.len()));
    assert(d2 =~= a.skip(a.len() - d2.len()));
    assert(h1 =~= a.take(h1.len() as int));
    assert(h2 =~= a.take(h2.len() as int));
}

} // verus!
