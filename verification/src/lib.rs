//! Protocol engine of a small HTTP/1.x file server: the request grammar,
//! the response framing and the state machine of one connection. The engine
//! reads and writes nothing itself; it is driven with the bytes that were
//! read and answers with the bytes to send.

use vstd::prelude::*;
use vstd::string::StringExecFns;
use crate::octets::{ascii, ascii_bytes, same, LF, SP};

pub mod connection;
pub mod headers;
pub mod line;
pub mod octets;
pub mod request;
pub mod resolve;
pub mod response;

verus! {

/// Request methods the server answers.
#[derive(Debug, Clone, Copy, PartialEq, Eq, Structural)]
pub enum HttpMethod {
    GET,
    HEAD,
}

/// Protocol versions the server speaks.
#[derive(Debug, Clone, Copy, PartialEq, Eq, Structural)]
pub enum HttpVersion {
    OneOh,
    OneOne,
}

impl HttpMethod {
    /// The method as it stands in a request line.
    pub open spec fn token(self) -> Seq<u8> {
        match self {
            HttpMethod::GET => ascii("GET"@),
            HttpMethod::HEAD => ascii("HEAD"@),
        }
    }

    /// The method that a token of a request line names, if it is one the
    /// server answers. Methods are case-sensitive.
    pub open spec fn named_by(token: Seq<u8>) -> Option<HttpMethod> {
        if token == HttpMethod::GET.token() {
            Some(HttpMethod::GET)
        } else if token == HttpMethod::HEAD.token() {
            Some(HttpMethod::HEAD)
        } else {
            None
        }
    }

    /// The method as it stands in a request line.
    pub fn as_bytes(&self) -> (r: &'static [u8])
        ensures
            r@ == self.token(),
    {
        proof {
            reveal_strlit("GET");
            reveal_strlit("HEAD");
        }
        match self {
            HttpMethod::GET => ascii_bytes("GET"),
            HttpMethod::HEAD => ascii_bytes("HEAD"),
        }
    }

    /// The method that `token` names, if it is one the server answers.
    pub fn from_token(token: &[u8]) -> (r: Option<HttpMethod>)
        ensures
            r == HttpMethod::named_by(token@),
    {
        if same(token, HttpMethod::GET.as_bytes()) {
            Some(HttpMethod::GET)
        } else if same(token, HttpMethod::HEAD.as_bytes()) {
            Some(HttpMethod::HEAD)
        } else {
            None
        }
    }
}

impl HttpVersion {
    /// The version as it stands in a request line and in a status line.
    pub open spec fn token(self) -> Seq<u8> {
        match self {
            HttpVersion::OneOh => ascii("HTTP/1.0"@),
            HttpVersion::OneOne => ascii("HTTP/1.1"@),
        }
    }

    /// The version that a token of a request line names, if the server
    /// speaks it.
    pub open spec fn named_by(token: Seq<u8>) -> Option<HttpVersion> {
        if token == HttpVersion::OneOh.token() {
            Some(HttpVersion::OneOh)
        } else if token == HttpVersion::OneOne.token() {
            Some(HttpVersion::OneOne)
        } else {
            None
        }
    }

    /// The version as it stands in a request line and in a status line.
    pub fn as_bytes(&self) -> (r: &'static [u8])
        ensures
            r@ == self.token(),
    {
        proof {
            reveal_strlit("HTTP/1.0");
            reveal_strlit("HTTP/1.1");
        }
        match self {
            HttpVersion::OneOh => ascii_bytes("HTTP/1.0"),
            HttpVersion::OneOne => ascii_bytes("HTTP/1.1"),
        }
    }

    /// The version that `token` names, if the server speaks it.
    pub fn from_token(token: &[u8]) -> (r: Option<HttpVersion>)
        ensures
            r == HttpVersion::named_by(token@),
    {
        if same(token, HttpVersion::OneOh.as_bytes()) {
            Some(HttpVersion::OneOh)
        } else if same(token, HttpVersion::OneOne.as_bytes()) {
            Some(HttpVersion::OneOne)
        } else {
            None
        }
    }
}

/// What the server is configured with. It is built once and only read
/// afterwards.
#[derive(Debug)]
pub struct Config {
    /// The directory that documents are served from.
    pub web_root: String,
    /// The prefix of the targets that the server answers.
    pub base_uri: String,
    /// The names that are tried, in this order, for a target that is a
    /// directory.
    pub directory_index: Vec<String>,
}

impl Clone for Config {
    fn clone(&self) -> (c: Config)
        ensures
            c.web_root@ == self.web_root@,
            c.base_uri@ == self.base_uri@,
            c.directory_index.deep_view() == self.directory_index.deep_view(),
    {
        let mut directory_index: Vec<String> = Vec::new();
        let mut i: usize = 0;
        while i < self.directory_index.len()
            invariant
                i <= self.directory_index@.len(),
                directory_index@.len() == i,
                forall|j: int| 0 <= j < i ==> directory_index@[j]@ == self.directory_index@[j]@,
            decreases self.directory_index@.len() - i,
        {
            directory_index.push(self.directory_index[i].clone());
            i = i + 1;
        }
        Config {
            web_root: self.web_root.clone(),
            base_uri: self.base_uri.clone(),
            directory_index,
        }
    }
}

/// The pieces of a text that `str::split_whitespace` yields, in their
/// order.
pub uninterp spec fn whitespace_fields(text: Seq<char>) -> Seq<Seq<char>>;

/// Calls `str::split_whitespace` and copies each piece. The standard
/// library splits at runs of characters with the Unicode property
/// `White_Space`; the contract only names what it yields.
#[verifier::external_body]
fn split_whitespace(text: &str) -> (fields: Vec<String>)
    ensures
        fields.deep_view() == whitespace_fields(text@),
{
    let mut fields = Vec::new();
    for piece in text.split_whitespace() {
        fields.push(piece.to_string());
    }
    fields
}

impl Config {
    /// The web root of a server that is told none: the working directory.
    pub open spec fn default_web_root() -> Seq<char> {
        "."@
    }

    /// The base URI of a server that is told none.
    pub open spec fn default_base_uri() -> Seq<char> {
        "/"@
    }

    /// The index names of a server that is told none.
    pub open spec fn default_directory_index() -> Seq<Seq<char>> {
        seq!["index.htm"@, "index.html"@]
    }

    /// A configuration made of its three parts.
    pub fn new(web_root: String, base_uri: String, directory_index: Vec<String>) -> (c: Config)
        ensures
            c.web_root == web_root,
            c.base_uri == base_uri,
            c.directory_index == directory_index,
    {
        Config { web_root, base_uri, directory_index }
    }

    /// The configuration for the settings that the environment gave, each
    /// absent or present. An absent setting takes its default; the index
    /// names are the pieces of their setting between whitespace.
    pub fn build(
        web_root: Option<String>,
        base_uri: Option<String>,
        directory_index: Option<String>,
    ) -> (c: Config)
        ensures
            c.web_root@ == match web_root {
                Some(s) => s@,
                None => Config::default_web_root(),
            },
            c.base_uri@ == match base_uri {
                Some(s) => s@,
                None => Config::default_base_uri(),
            },
            c.directory_index.deep_view() == match directory_index {
                Some(s) => whitespace_fields(s@),
                None => Config::default_directory_index(),
            },
    {
        let web_root = match web_root {
            Some(s) => s,
            None => String::from_str("."),
        };
        let base_uri = match base_uri {
            Some(s) => s,
            None => String::from_str("/"),
        };
        let directory_index = match directory_index {
            Some(s) => split_whitespace(s.as_str()),
            None => {
                let mut names: Vec<String> = Vec::new();
                names.push(String::from_str("index.htm"));
                names.push(String::from_str("index.html"));
                names
            },
        };
        Config::new(web_root, base_uri, directory_index)
    }
}

/// A token names the method it is the token of, and the two methods have
/// different tokens; the same holds of the versions. No token is empty or
/// holds a space or a line feed.
pub proof fn lemma_tokens_name_themselves(m: HttpMethod, v: HttpVersion)
    ensures
        HttpMethod::named_by(m.token()) == Some(m),
        HttpVersion::named_by(v.token()) == Some(v),
        !m.token().contains(SP),
        !v.token().contains(SP),
        !m.token().contains(LF),
        !v.token().contains(LF),
        m.token().len() > 0,
        v.token().len() > 0,
{
    reveal_strlit("GET");
    reveal_strlit("HEAD");
    reveal_strlit("HTTP/1.0");
    reveal_strlit("HTTP/1.1");
    assert(HttpMethod::GET.token().len() == 3);
    assert(HttpVersion::OneOh.token()[7] == 0x30);
}

} // verus!
