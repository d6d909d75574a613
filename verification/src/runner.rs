//! The pure side of request execution: the network error taxonomy, the
//! rendering of an execution outcome into the raw text shown to the user
//! (the serialized response, or a clearly labeled error message in the same
//! channel), and the splitting of an `http://` URL into host, port and path
//! for the transport. The network round trip itself is I/O and lives with
//! the surrounding application, which hands its outcome back to these
//! functions.

use vstd::prelude::*;
use crate::digits::{all_digits, num_val, parse_bounded};
use crate::http::{ser_response_spec, serialize_response, StructuredResponse};
use crate::text::{find_char, find_char_in, str_eq};

verus! {

/// Why a network round trip failed; each kind is reported apart, never
/// merged.
#[derive(Debug)]
pub enum NetworkError {
    ConnectionFailed(String),
    Timeout(String),
    Cancelled(String),
    TlsError(String),
    ProtocolError(String),
}

/// The text a network error is reported as.
pub open spec fn network_error_text(e: NetworkError) -> Seq<char> {
    match e {
        NetworkError::ConnectionFailed(d) => "NetworkError: ConnectionFailed: "@ + d@,
        NetworkError::Timeout(d) => "NetworkError: Timeout: "@ + d@,
        NetworkError::Cancelled(d) => "NetworkError: Cancelled: "@ + d@,
        NetworkError::TlsError(d) => "NetworkError: TlsError: "@ + d@,
        NetworkError::ProtocolError(d) => "NetworkError: ProtocolError: "@ + d@,
    }
}

impl NetworkError {
    /// The error as one line of labeled text.
    pub fn message(&self) -> (r: String)
        ensures
            r@ == network_error_text(*self),
    {
        match self {
            NetworkError::ConnectionFailed(d) => {
                let mut s = "NetworkError: ConnectionFailed: ".to_owned();
                s.append(d.as_str());
                s
            },
            NetworkError::Timeout(d) => {
                let mut s = "NetworkError: Timeout: ".to_owned();
                s.append(d.as_str());
                s
            },
            NetworkError::Cancelled(d) => {
                let mut s = "NetworkError: Cancelled: ".to_owned();
                s.append(d.as_str());
                s
            },
            NetworkError::TlsError(d) => {
                let mut s = "NetworkError: TlsError: ".to_owned();
                s.append(d.as_str());
                s
            },
            NetworkError::ProtocolError(d) => {
                let mut s = "NetworkError: ProtocolError: ".to_owned();
                s.append(d.as_str());
                s
            },
        }
    }
}

/// The raw text an execution outcome is displayed and logged as: the
/// serialized response on success, the labeled error message on failure —
/// one uniform channel, and nothing here ever terminates the process.
pub fn execution_text(outcome: &Result<StructuredResponse, NetworkError>) -> (r: String)
    ensures
        match outcome {
            Ok(resp) => r@ == ser_response_spec(resp@),
            Err(e) => r@ == network_error_text(*e),
        },
{
    match outcome {
        Ok(resp) => serialize_response(resp),
        Err(e) => e.message(),
    }
}

/// Where a plain-web URL points: host, port and path.
#[derive(Debug)]
pub struct UrlParts {
    pub host: String,
    pub port: u16,
    pub path: String,
}

/// The host, port and path an `http://` URL names: the text after the
/// scheme up to the first slash is `host` or `host:port` (the port defaults
/// to 80), the rest is the path (defaulting to `/`). Anything else — another
/// scheme, an empty host, a port that is not a number up to 65535 — is
/// nothing.
pub open spec fn url_parts_spec(u: Seq<char>) -> Option<(Seq<char>, int, Seq<char>)> {
    if !(u.len() >= 7 && u.take(7) == "http://"@) {
        None
    } else {
        let rest = u.skip(7);
        let hostport = match find_char(rest, '/') {
            Some(i) => if 0 <= i <= rest.len() {
                rest.take(i)
            } else {
                rest
            },
            None => rest,
        };
        let path = match find_char(rest, '/') {
            Some(i) => if 0 <= i <= rest.len() {
                rest.skip(i)
            } else {
                "/"@
            },
            None => "/"@,
        };
        match find_char(hostport, ':') {
            None => if hostport.len() > 0 {
                Some((hostport, 80int, path))
            } else {
                None
            },
            Some(k) => if 0 <= k < hostport.len() {
                let host = hostport.take(k);
                let ptok = hostport.skip(k + 1);
                if host.len() > 0 && ptok.len() > 0 && all_digits(ptok) && num_val(ptok) <= 65535 {
                    Some((host, num_val(ptok), path))
                } else {
                    None
                }
            } else {
                None
            },
        }
    }
}

/// Splits an `http://` URL into host, port and path, exactly as
/// `url_parts_spec` states.
pub fn url_parts(url: &str) -> (r: Option<UrlParts>)
    ensures
        match r {
            Some(p) => url_parts_spec(url@) == Some((p.host@, p.port as int, p.path@)),
            None => url_parts_spec(url@) is None,
        },
{
    let n: usize = url.unicode_len();
    if n < 7 {
        return None;
    }
    let scheme = url.substring_char(0, 7);
    if !str_eq(scheme, "http://") {
        return None;
    }
    proof {
        assert(url@.subrange(0, 7) =~= url@.take(7));
    }
    let rest = url.substring_char(7, n);
    proof {
        assert(url@.subrange(7, n as int) =~= url@.skip(7));
    }
    let rn: usize = rest.unicode_len();
    let hp_path: (String, String) = match find_char_in(rest, '/') {
        Some(i) => {
            proof {
                crate::text::lemma_find_char_spec(rest@, '/');
            }
            let hp = rest.substring_char(0, i).to_owned();
            let pa = rest.substring_char(i, rn).to_owned();
            proof {
                assert(rest@.subrange(0, i as int) =~= rest@.take(i as int));
                assert(rest@.subrange(i as int, rn as int) =~= rest@.skip(i as int));
            }
            (hp, pa)
        },
        None => (rest.to_owned(), "/".to_owned()),
    };
    let hostport = hp_path.0;
    let path = hp_path.1;
    let hn: usize = hostport.as_str().unicode_len();
    match find_char_in(hostport.as_str(), ':') {
        None => {
            if hn > 0 {
                Some(UrlParts { host: hostport, port: 80, path })
            } else {
                None
            }
        },
        Some(k) => {
            proof {
                crate::text::lemma_find_char_spec(hostport@, ':');
            }
            let host = hostport.as_str().substring_char(0, k).to_owned();
            let ptok = hostport.as_str().substring_char(k + 1, hn);
            proof {
                assert(hostport@.subrange(0, k as int) =~= hostport@.take(k as int));
                assert(hostport@.subrange(k + 1, hn as int) =~= hostport@.skip(k + 1));
            }
            if host.as_str().unicode_len() == 0 {
                return None;
            }
            match parse_bounded(ptok, 65535) {
                None => None,
                Some(port) => Some(UrlParts { host, port: port as u16, path }),
            }
        },
    }
}

} // verus!
