//! The server's configuration, fixed at start.

use vstd::prelude::*;
use vstd::string::*;

verus! {

/// How nicknames are compared without regard to case.
#[derive(Debug, Clone, Copy, PartialEq, Eq, Structural)]
pub enum CaseMap {
    Ascii,
    Rfc1459,
    Rfc1459Strict,
    Rfc7613,
}

impl CaseMap {
    /// The token that the server advertises for this mapping.
    pub open spec fn token(self) -> Seq<char> {
        match self {
            CaseMap::Ascii => "ascii"@,
            CaseMap::Rfc1459 => "rfc1459"@,
            CaseMap::Rfc1459Strict => "rfc1459-strict"@,
            CaseMap::Rfc7613 => "rfc7613"@,
        }
    }

    pub fn to_string(&self) -> (r: String)
        ensures
            r@ == self.token(),
    {
        match self {
            CaseMap::Ascii => "ascii",
            CaseMap::Rfc1459 => "rfc1459",
            CaseMap::Rfc1459Strict => "rfc1459-strict",
            CaseMap::Rfc7613 => "rfc7613",
        }.to_owned()
    }
}

#[derive(Debug, Clone, PartialEq, Eq)]
pub struct ServerConfig {
    pub name: String,
    pub host: String,
    pub port: u16,
    pub motd: String,
    pub feat_awaylen: u32,
    pub feat_casemap: CaseMap,
}

pub struct ServerConfigView {
    pub name: Seq<char>,
    pub host: Seq<char>,
    pub port: u16,
    pub motd: Seq<char>,
    pub feat_awaylen: u32,
    pub feat_casemap: CaseMap,
}

impl View for ServerConfig {
    type V = ServerConfigView;

    open spec fn view(&self) -> ServerConfigView {
        ServerConfigView {
            name: self.name@,
            host: self.host@,
            port: self.port,
            motd: self.motd@,
            feat_awaylen: self.feat_awaylen,
            feat_casemap: self.feat_casemap,
        }
    }
}

impl ServerConfigView {
    /// A configuration that the server can run with: the host, which
    /// prefixes every error reply, is not empty.
    pub open spec fn wf(self) -> bool {
        self.host.len() > 0
    }
}

impl ServerConfig {
    pub fn default_feat_awaylen() -> (r: u32)
        ensures
            r == 255,
    {
        255
    }

    pub fn default_feat_casemap() -> (r: CaseMap)
        ensures
            r == CaseMap::Ascii,
    {
        CaseMap::Ascii
    }

    /// Get the (host, port) pair.
    pub fn addr(&self) -> (r: (&str, u16))
        ensures
            r.0@ == self@.host,
            r.1 == self@.port,
    {
        (self.host.as_str(), self.port)
    }

    /// Whether the server can run with this configuration.
    pub fn is_valid(&self) -> (r: bool)
        ensures
            r == self@.wf(),
    {
        !self.host.as_str().is_empty()
    }
}

impl Default for ServerConfig {
    fn default() -> (r: Self)
        ensures
            r@ == (ServerConfigView {
                name: "Myriad Devnet"@,
                host: "127.0.0.1"@,
                port: 6667,
                motd: "Don't worry, it only seems kinky the first time."@,
                feat_awaylen: 255,
                feat_casemap: CaseMap::Ascii,
            }),
            r@.wf(),
    {
        proof {
            reveal_strlit("127.0.0.1");
        }
        Self {
            name: "Myriad Devnet".to_owned(),
            host: "127.0.0.1".to_owned(),
            port: 6667,
            motd: "Don't worry, it only seems kinky the first time.".to_owned(),
            feat_awaylen: ServerConfig::default_feat_awaylen(),
            feat_casemap: ServerConfig::default_feat_casemap(),
        }
    }
}

} // verus!
