//! The error taxonomy shared by the tracker, the backend and the client.
use vstd::prelude::*;
use crate::bytes::{ascii_bytes, is_named, str_bytes, copy_bytes, opt_view};

verus! {

/// Every error that can cross the wire, each with one canonical kind.
#[derive(Debug, Clone, PartialEq, Eq)]
pub enum MogError {
    /// The operation is not recognised; `None` when the line had no operation.
    UnknownCommand(Option<Vec<u8>>),
    UnknownKey(Vec<u8>),
    KeyExists(Vec<u8>),
    DomainExists(Vec<u8>),
    NoDomain,
    NoKey,
    UnregDomain(Vec<u8>),
    NoContent(Vec<u8>),
    NoPath,
    NoTrackers,
    StorageError(Option<Vec<u8>>),
    BadResponse,
    Io(Vec<u8>),
    Utf8,
    /// The first token of a response was neither `OK` nor `ERR`.
    UnknownResponse(Vec<u8>),
    Other(Vec<u8>),
}

pub type MogResult<T> = Result<T, MogError>;

/// The lowercase token that names the kind of an error on the wire.
pub open spec fn kind_name(e: MogError) -> Seq<char> {
    match e {
        MogError::UnknownCommand(_) => "unknown_command"@,
        MogError::UnknownKey(_) => "unknown_key"@,
        MogError::KeyExists(_) => "key_exists"@,
        MogError::DomainExists(_) => "domain_exists"@,
        MogError::NoDomain => "no_domain"@,
        MogError::NoKey => "no_key"@,
        MogError::UnregDomain(_) => "unreg_domain"@,
        MogError::NoContent(_) => "no_content"@,
        MogError::NoPath => "no_path"@,
        MogError::NoTrackers => "no_trackers"@,
        MogError::StorageError(_) => "storage_error"@,
        MogError::BadResponse => "bad_response"@,
        MogError::Io(_) => "io"@,
        MogError::Utf8 => "utf8"@,
        MogError::UnknownResponse(_) => "unknown_response"@,
        MogError::Other(_) => "other"@,
    }
}

pub open spec fn opt_bytes(o: Option<Vec<u8>>) -> Seq<u8> {
    match o {
        Some(v) => v@,
        None => Seq::empty(),
    }
}

/// The human-readable description of an error, before encoding.
pub open spec fn description(e: MogError) -> Seq<u8> {
    match e {
        MogError::UnknownCommand(o) => opt_bytes(o),
        MogError::UnknownKey(k) => k@,
        MogError::KeyExists(k) => k@,
        MogError::DomainExists(d) => d@,
        MogError::NoDomain => ascii_bytes("No domain provided"@),
        MogError::NoKey => ascii_bytes("No key provided"@),
        MogError::UnregDomain(d) => d@,
        MogError::NoContent(k) => k@,
        MogError::NoPath => ascii_bytes("No paths available"@),
        MogError::NoTrackers => ascii_bytes("No trackers available"@),
        MogError::StorageError(o) => opt_bytes(o),
        MogError::BadResponse => ascii_bytes("Unexpected response"@),
        MogError::Io(m) => m@,
        MogError::Utf8 => ascii_bytes("Invalid UTF-8"@),
        MogError::UnknownResponse(t) => t@,
        MogError::Other(m) => m@,
    }
}

/// An optional description: absent when empty.
pub open spec fn opt_of(d: Seq<u8>) -> Option<Seq<u8>> {
    if d.len() == 0 {
        None
    } else {
        Some(d)
    }
}

/// The error that a kind token and a decoded description stand for; a kind
/// that is not known here becomes `Other`.
pub open spec fn error_matches_wire(e: MogError, k: Seq<u8>, d: Seq<u8>) -> bool {
    if k == ascii_bytes("unknown_command"@) {
        e matches MogError::UnknownCommand(o) && opt_view(o) == opt_of(d)
    } else if k == ascii_bytes("unknown_key"@) {
        e matches MogError::UnknownKey(v) && v@ == d
    } else if k == ascii_bytes("key_exists"@) {
        e matches MogError::KeyExists(v) && v@ == d
    } else if k == ascii_bytes("domain_exists"@) {
        e matches MogError::DomainExists(v) && v@ == d
    } else if k == ascii_bytes("no_domain"@) {
        e matches MogError::NoDomain
    } else if k == ascii_bytes("no_key"@) {
        e matches MogError::NoKey
    } else if k == ascii_bytes("unreg_domain"@) {
        e matches MogError::UnregDomain(v) && v@ == d
    } else if k == ascii_bytes("no_content"@) {
        e matches MogError::NoContent(v) && v@ == d
    } else if k == ascii_bytes("no_path"@) {
        e matches MogError::NoPath
    } else if k == ascii_bytes("no_trackers"@) {
        e matches MogError::NoTrackers
    } else if k == ascii_bytes("storage_error"@) {
        e matches MogError::StorageError(o) && opt_view(o) == opt_of(d)
    } else if k == ascii_bytes("bad_response"@) {
        e matches MogError::BadResponse
    } else if k == ascii_bytes("io"@) {
        e matches MogError::Io(v) && v@ == d
    } else if k == ascii_bytes("utf8"@) {
        e matches MogError::Utf8
    } else if k == ascii_bytes("unknown_response"@) {
        e matches MogError::UnknownResponse(v) && v@ == d
    } else {
        e matches MogError::Other(v) && v@ == d
    }
}

/// Two errors that say the same thing; an empty optional description says
/// what an absent one does.
pub open spec fn same_error(a: MogError, b: MogError) -> bool {
    match (a, b) {
        (MogError::UnknownCommand(x), MogError::UnknownCommand(y)) => opt_bytes(x) == opt_bytes(y),
        (MogError::UnknownKey(x), MogError::UnknownKey(y)) => x@ == y@,
        (MogError::KeyExists(x), MogError::KeyExists(y)) => x@ == y@,
        (MogError::DomainExists(x), MogError::DomainExists(y)) => x@ == y@,
        (MogError::NoDomain, MogError::NoDomain) => true,
        (MogError::NoKey, MogError::NoKey) => true,
        (MogError::UnregDomain(x), MogError::UnregDomain(y)) => x@ == y@,
        (MogError::NoContent(x), MogError::NoContent(y)) => x@ == y@,
        (MogError::NoPath, MogError::NoPath) => true,
        (MogError::NoTrackers, MogError::NoTrackers) => true,
        (MogError::StorageError(x), MogError::StorageError(y)) => opt_bytes(x) == opt_bytes(y),
        (MogError::BadResponse, MogError::BadResponse) => true,
        (MogError::Io(x), MogError::Io(y)) => x@ == y@,
        (MogError::Utf8, MogError::Utf8) => true,
        (MogError::UnknownResponse(x), MogError::UnknownResponse(y)) => x@ == y@,
        (MogError::Other(x), MogError::Other(y)) => x@ == y@,
        _ => false,
    }
}


fn copy_opt(o: &Option<Vec<u8>>) -> (r: Option<Vec<u8>>)
    ensures
        opt_view(r) == opt_view(*o),
        opt_bytes(r) == opt_bytes(*o),
{
    match o {
        Some(v) => Some(copy_bytes(v.as_slice())),
        None => None,
    }
}

impl MogError {
    /// The wire token of this error's kind.
    pub fn error_kind(&self) -> (r: &'static str)
        ensures
            r@ == kind_name(*self),
            r.is_ascii(),
    {
        match self {
            MogError::UnknownCommand(_) => {
                proof { reveal_strlit("unknown_command"); }
                "unknown_command"
            },
            MogError::UnknownKey(_) => {
                proof { reveal_strlit("unknown_key"); }
                "unknown_key"
            },
            MogError::KeyExists(_) => {
                proof { reveal_strlit("key_exists"); }
                "key_exists"
            },
            MogError::DomainExists(_) => {
                proof { reveal_strlit("domain_exists"); }
                "domain_exists"
            },
            MogError::NoDomain => {
                proof { reveal_strlit("no_domain"); }
                "no_domain"
            },
            MogError::NoKey => {
                proof { reveal_strlit("no_key"); }
                "no_key"
            },
            MogError::UnregDomain(_) => {
                proof { reveal_strlit("unreg_domain"); }
                "unreg_domain"
            },
            MogError::NoContent(_) => {
                proof { reveal_strlit("no_content"); }
                "no_content"
            },
            MogError::NoPath => {
                proof { reveal_strlit("no_path"); }
                "no_path"
            },
            MogError::NoTrackers => {
                proof { reveal_strlit("no_trackers"); }
                "no_trackers"
            },
            MogError::StorageError(_) => {
                proof { reveal_strlit("storage_error"); }
                "storage_error"
            },
            MogError::BadResponse => {
                proof { reveal_strlit("bad_response"); }
                "bad_response"
            },
            MogError::Io(_) => {
                proof { reveal_strlit("io"); }
                "io"
            },
            MogError::Utf8 => {
                proof { reveal_strlit("utf8"); }
                "utf8"
            },
            MogError::UnknownResponse(_) => {
                proof { reveal_strlit("unknown_response"); }
                "unknown_response"
            },
            MogError::Other(_) => {
                proof { reveal_strlit("other"); }
                "other"
            },
        }
    }

    /// The description of this error, before encoding.
    pub fn description(&self) -> (r: Vec<u8>)
        ensures
            r@ == description(*self),
    {
        match self {
            MogError::UnknownCommand(o) => copy_opt(o).unwrap_or(Vec::new()),
            MogError::UnknownKey(k) => copy_bytes(k.as_slice()),
            MogError::KeyExists(k) => copy_bytes(k.as_slice()),
            MogError::DomainExists(d) => copy_bytes(d.as_slice()),
            MogError::NoDomain => {
                proof { reveal_strlit("No domain provided"); }
                str_bytes("No domain provided")
            },
            MogError::NoKey => {
                proof { reveal_strlit("No key provided"); }
                str_bytes("No key provided")
            },
            MogError::UnregDomain(d) => copy_bytes(d.as_slice()),
            MogError::NoContent(k) => copy_bytes(k.as_slice()),
            MogError::NoPath => {
                proof { reveal_strlit("No paths available"); }
                str_bytes("No paths available")
            },
            MogError::NoTrackers => {
                proof { reveal_strlit("No trackers available"); }
                str_bytes("No trackers available")
            },
            MogError::StorageError(o) => copy_opt(o).unwrap_or(Vec::new()),
            MogError::BadResponse => {
                proof { reveal_strlit("Unexpected response"); }
                str_bytes("Unexpected response")
            },
            MogError::Io(m) => copy_bytes(m.as_slice()),
            MogError::Utf8 => {
                proof { reveal_strlit("Invalid UTF-8"); }
                str_bytes("Invalid UTF-8")
            },
            MogError::UnknownResponse(t) => copy_bytes(t.as_slice()),
            MogError::Other(m) => copy_bytes(m.as_slice()),
        }
    }

    /// The error named by a kind token and a decoded description.
    pub fn from_wire(kind: &[u8], desc: &[u8]) -> (r: MogError)
        ensures
            error_matches_wire(r, kind@, desc@),
    {
        let d = copy_bytes(desc);
        let o = if desc.len() == 0 { None } else { Some(copy_bytes(desc)) };
        proof {
            reveal_strlit("unknown_command");
            reveal_strlit("unknown_key");
            reveal_strlit("key_exists");
            reveal_strlit("domain_exists");
            reveal_strlit("no_domain");
            reveal_strlit("no_key");
            reveal_strlit("unreg_domain");
            reveal_strlit("no_content");
            reveal_strlit("no_path");
            reveal_strlit("no_trackers");
            reveal_strlit("storage_error");
            reveal_strlit("bad_response");
            reveal_strlit("io");
            reveal_strlit("utf8");
            reveal_strlit("unknown_response");
        }
        if is_named(kind, "unknown_command") {
            MogError::UnknownCommand(o)
        } else if is_named(kind, "unknown_key") {
            MogError::UnknownKey(d)
        } else if is_named(kind, "key_exists") {
            MogError::KeyExists(d)
        } else if is_named(kind, "domain_exists") {
            MogError::DomainExists(d)
        } else if is_named(kind, "no_domain") {
            MogError::NoDomain
        } else if is_named(kind, "no_key") {
            MogError::NoKey
        } else if is_named(kind, "unreg_domain") {
            MogError::UnregDomain(d)
        } else if is_named(kind, "no_content") {
            MogError::NoContent(d)
        } else if is_named(kind, "no_path") {
            MogError::NoPath
        } else if is_named(kind, "no_trackers") {
            MogError::NoTrackers
        } else if is_named(kind, "storage_error") {
            MogError::StorageError(o)
        } else if is_named(kind, "bad_response") {
            MogError::BadResponse
        } else if is_named(kind, "io") {
            MogError::Io(d)
        } else if is_named(kind, "utf8") {
            MogError::Utf8
        } else if is_named(kind, "unknown_response") {
            MogError::UnknownResponse(d)
        } else {
            MogError::Other(d)
        }
    }
}

proof fn lemma_opt_of(o: Option<Vec<u8>>, d: Seq<u8>)
    requires
        opt_view(o) == opt_of(d),
    ensures
        opt_bytes(o) == d,
{
}

proof fn lemma_ascii_head(s: Seq<char>)
    ensures
        ascii_bytes(s).len() == s.len(),
        s.len() > 0 ==> ascii_bytes(s)[0] == s[0] as u8,
{
}

/// What the wire carries of an error is enough to rebuild it: the error
/// read back from its kind token and description says the same thing.
pub proof fn lemma_error_wire_round_trip(e: MogError, r: MogError)
    requires
        error_matches_wire(r, ascii_bytes(kind_name(e)), description(e)),
    ensures
        same_error(r, e),
{
    reveal_strlit("unknown_command");
    reveal_strlit("unknown_key");
    reveal_strlit("key_exists");
    reveal_strlit("domain_exists");
    reveal_strlit("no_domain");
    reveal_strlit("no_key");
    reveal_strlit("unreg_domain");
    reveal_strlit("no_content");
    reveal_strlit("no_path");
    reveal_strlit("no_trackers");
    reveal_strlit("storage_error");
    reveal_strlit("bad_response");
    reveal_strlit("io");
    reveal_strlit("utf8");
    reveal_strlit("unknown_response");
    reveal_strlit("other");
    lemma_ascii_head("unknown_command"@);
    lemma_ascii_head("unknown_key"@);
    lemma_ascii_head("key_exists"@);
    lemma_ascii_head("domain_exists"@);
    lemma_ascii_head("no_domain"@);
    lemma_ascii_head("no_key"@);
    lemma_ascii_head("unreg_domain"@);
    lemma_ascii_head("no_content"@);
    lemma_ascii_head("no_path"@);
    lemma_ascii_head("no_trackers"@);
    lemma_ascii_head("storage_error"@);
    lemma_ascii_head("bad_response"@);
    lemma_ascii_head("io"@);
    lemma_ascii_head("utf8"@);
    lemma_ascii_head("unknown_response"@);
    lemma_ascii_head("other"@);
    match r {
        MogError::UnknownCommand(o) => lemma_opt_of(o, description(e)),
        MogError::StorageError(o) => lemma_opt_of(o, description(e)),
        _ => {},
    }
}

/// Each kind token is a non-empty word without spaces.
pub proof fn lemma_kind_name_word(e: MogError)
    ensures
        kind_name(e).len() > 0,
        forall|i: int| 0 <= i < kind_name(e).len() ==> #[trigger] ascii_bytes(kind_name(e))[i] != 0x20u8,
{
    reveal_strlit("unknown_command");
    reveal_strlit("unknown_key");
    reveal_strlit("key_exists");
    reveal_strlit("domain_exists");
    reveal_strlit("no_domain");
    reveal_strlit("no_key");
    reveal_strlit("unreg_domain");
    reveal_strlit("no_content");
    reveal_strlit("no_path");
    reveal_strlit("no_trackers");
    reveal_strlit("storage_error");
    reveal_strlit("bad_response");
    reveal_strlit("io");
    reveal_strlit("utf8");
    reveal_strlit("unknown_response");
    reveal_strlit("other");
}

} // verus!
