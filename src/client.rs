//! The client's decisions: the connection state machine, the retry policy
//! over trackers, and the two-phase upload. The caller performs the socket
//! and HTTP work each action names and reports what happened.
use vstd::prelude::*;
use crate::error::{MogError, MogResult};
use crate::form::pairs_view;
use crate::bytes::{append_bytes, copy_bytes, str_bytes, ascii_bytes};
use crate::decimal::{decimal, to_decimal};
use crate::message::{Command, Request, Response, response_read};
use crate::requests::{
    choose_destination, create_open_answer_ok, dest_at, dest_view, number_of, pair_of, CreateClose,
    CreateOpen, CreateOpenResponse,
};

verus! {

/// The most attempts one request makes.
pub const MAX_ATTEMPTS: u32 = 3;

/// Relies on `rand::Rng::gen_range` over `thread_rng`: a value in `0..n`,
/// which needs `n > 0`.
#[verifier::external_body]
fn random_below(n: usize) -> (r: usize)
    requires
        n > 0,
    ensures
        r < n,
{
    rand::Rng::gen_range(&mut rand::thread_rng(), 0..n)
}

/// Picks one of `n` trackers uniformly at random.
pub fn random_tracker_index(n: usize) -> (r: MogResult<usize>)
    ensures
        n == 0 ==> r matches Err(MogError::NoTrackers),
        n > 0 ==> (r matches Ok(i) && i < n),
{
    if n == 0 {
        Err(MogError::NoTrackers)
    } else {
        Ok(random_below(n))
    }
}

/// The connection to a tracker: none, live, or failed with an I/O error
/// that has not been collected yet.
#[derive(Debug)]
pub enum ConnectionState {
    NoConnection,
    Connected,
    Error(Vec<u8>),
}

impl ConnectionState {
    pub fn new() -> (r: ConnectionState)
        ensures
            r is NoConnection,
    {
        ConnectionState::NoConnection
    }

    pub fn is_connected(&self) -> (r: bool)
        ensures
            r == (*self is Connected),
    {
        match self {
            ConnectionState::Connected => true,
            _ => false,
        }
    }

    /// Collects a stored error, which leaves no connection.
    pub fn take_err(self) -> (r: (ConnectionState, Option<Vec<u8>>))
        ensures
            match self {
                ConnectionState::Error(m) => (r.1 matches Some(x) && x@ == m@ && r.0 is NoConnection),
                ConnectionState::Connected => r.0 is Connected && r.1 is None,
                ConnectionState::NoConnection => r.0 is NoConnection && r.1 is None,
            },
    {
        match self {
            ConnectionState::Error(m) => (ConnectionState::NoConnection, Some(m)),
            other => (other, None),
        }
    }

    /// The state after an attempt to connect: a live connection is kept;
    /// otherwise the outcome decides.
    pub fn connect(self, outcome: Result<(), Vec<u8>>) -> (r: ConnectionState)
        ensures
            self is Connected ==> r is Connected,
            !(self is Connected) ==> match outcome {
                Ok(()) => r is Connected,
                Err(m) => r matches ConnectionState::Error(x) && x@ == m@,
            },
    {
        match self {
            ConnectionState::Connected => ConnectionState::Connected,
            _ => match outcome {
                Ok(()) => ConnectionState::Connected,
                Err(m) => ConnectionState::Error(m),
            },
        }
    }

    /// The state after writing or reading on the connection: only a live
    /// connection does I/O, and an I/O error replaces it.
    pub fn after_io(self, outcome: Result<(), Vec<u8>>) -> (r: ConnectionState)
        ensures
            !(self is Connected) ==> r == self,
            self is Connected ==> match outcome {
                Ok(()) => r is Connected,
                Err(m) => r matches ConnectionState::Error(x) && x@ == m@,
            },
    {
        match self {
            ConnectionState::Connected => match outcome {
                Ok(()) => ConnectionState::Connected,
                Err(m) => ConnectionState::Error(m),
            },
            other => other,
        }
    }
}

/// What a response line says, as the client sees it: the argument pairs, or
/// the error.
pub fn response_from_bytes(bytes: &[u8]) -> (r: MogResult<Vec<(Vec<u8>, Vec<u8>)>>)
    ensures
        response_read(bytes@, Response(r)),
{
    Response::from_bytes(bytes).0
}

/// What the caller does next for a request.
#[derive(Debug)]
pub enum Action {
    /// Open a connection to the tracker at this index.
    Connect(usize),
    /// Write the request line and flush.
    Write,
    /// Read the response line, up to CRLF.
    Read,
    /// The request is over, with this outcome.
    Done(MogResult<Vec<(Vec<u8>, Vec<u8>)>>),
}

/// What happened when the caller did the last action.
#[derive(Debug)]
pub enum Event {
    Connected(Result<(), Vec<u8>>),
    Written(Result<(), Vec<u8>>),
    /// The line read, or the I/O error.
    LineRead(Result<Vec<u8>, Vec<u8>>),
}

/// An attempt failed with I/O error `m`: while attempts remain, the error is
/// held and the request retries on a freshly picked tracker; otherwise it
/// ends with that error and no connection.
pub open spec fn attempt_failed(s: RequestLoop, m: Seq<u8>, r: (RequestLoop, Action)) -> bool {
    &&& r.0.tries == s.tries + 1
    &&& s.tries + 1 >= MAX_ATTEMPTS ==> (r.1 matches Action::Done(Err(MogError::Io(x))) && x@ == m
        && r.0.conn is NoConnection)
    &&& s.tries + 1 < MAX_ATTEMPTS ==> (r.0.conn matches ConnectionState::Error(x) && x@ == m)
    &&& s.tries + 1 < MAX_ATTEMPTS && s.hosts > 0 ==> (r.1 matches Action::Connect(i) && i < s.hosts)
    &&& s.tries + 1 < MAX_ATTEMPTS && s.hosts == 0 ==> (r.1 matches Action::Done(Err(MogError::NoTrackers)))
}

/// One request's progress over up to three attempts, each on the live
/// connection or a freshly picked tracker.
#[derive(Debug)]
pub struct RequestLoop {
    pub conn: ConnectionState,
    pub tries: u32,
    pub hosts: usize,
    pub line: Vec<u8>,
}

impl RequestLoop {
    pub open spec fn inv(&self) -> bool {
        self.tries <= MAX_ATTEMPTS
    }

    /// Starts a request on the connection that the client holds.
    pub fn start(conn: ConnectionState, hosts: usize) -> (r: (RequestLoop, Action))
        ensures
            r.0.inv(),
            r.0.tries == 0,
            r.0.hosts == hosts,
            conn is Connected ==> r.1 is Write && r.0.conn is Connected,
            !(conn is Connected) ==> r.0.conn == conn,
            !(conn is Connected) && hosts == 0 ==> r.1 matches Action::Done(Err(MogError::NoTrackers)),
            !(conn is Connected) && hosts > 0 ==> (r.1 matches Action::Connect(i) && i < hosts),
    {
        let s = RequestLoop { conn, tries: 0, hosts, line: Vec::new() };
        s.begin_attempt()
    }

    fn begin_attempt(self) -> (r: (RequestLoop, Action))
        requires
            self.inv(),
            self.tries < MAX_ATTEMPTS,
        ensures
            r.0.inv(),
            r.0.tries == self.tries,
            r.0.hosts == self.hosts,
            r.0.conn == self.conn,
            r.1 matches Action::Connect(i) ==> i < self.hosts,
            self.conn is Connected ==> r.1 is Write && r.0.conn is Connected,
            !(self.conn is Connected) && self.hosts == 0 ==> r.1 matches Action::Done(Err(MogError::NoTrackers)),
            !(self.conn is Connected) && self.hosts > 0 ==> (r.1 matches Action::Connect(i) && i < self.hosts),
    {
        if self.conn.is_connected() {
            (self, Action::Write)
        } else {
            match random_tracker_index(self.hosts) {
                Ok(i) => (self, Action::Connect(i)),
                Err(e) => (self, Action::Done(Err(e))),
            }
        }
    }

    /// Ends an attempt: stops when connected or out of attempts, and then
    /// collects the stored error or reads the response line.
    fn end_attempt(self) -> (r: (RequestLoop, Action))
        requires
            self.inv(),
            self.tries < MAX_ATTEMPTS,
        ensures
            r.0.inv(),
            r.0.hosts == self.hosts,
            r.0.tries == self.tries + 1,
            !(self.conn is Connected) && self.tries + 1 < MAX_ATTEMPTS ==> r.0.conn == self.conn,
            r.1 matches Action::Connect(i) ==> i < self.hosts,
            !(r.1 is Done) ==> r.0.tries < MAX_ATTEMPTS,
            !(self.conn is Connected) && self.tries + 1 < MAX_ATTEMPTS && self.hosts > 0 ==> (r.1 matches Action::Connect(i)
                && i < self.hosts),
            !(self.conn is Connected) && self.tries + 1 < MAX_ATTEMPTS && self.hosts == 0 ==> (r.1 matches Action::Done(
                Err(MogError::NoTrackers))),
            self.conn is Connected ==> (r.1 matches Action::Done(res) && response_read(self.line@, Response(res))
                && r.0.conn is Connected),
            match self.conn {
                ConnectionState::Error(m) => self.tries + 1 >= MAX_ATTEMPTS ==> (r.1 matches Action::Done(
                    Err(MogError::Io(x)),
                ) && x@ == m@ && r.0.conn is NoConnection),
                _ => true,
            },
    {
        let tries = self.tries + 1;
        let connected = self.conn.is_connected();
        let s = RequestLoop { conn: self.conn, tries, hosts: self.hosts, line: self.line };
        if connected || tries >= MAX_ATTEMPTS {
            let (conn, err) = s.conn.take_err();
            let done = match err {
                Some(m) => Err(MogError::Io(m)),
                None => response_from_bytes(s.line.as_slice()),
            };
            (RequestLoop { conn, tries, hosts: s.hosts, line: s.line }, Action::Done(done))
        } else {
            s.begin_attempt()
        }
    }

    /// The next action, given what happened.
    pub fn step(self, event: Event) -> (r: (RequestLoop, Action))
        requires
            self.inv(),
            self.tries < MAX_ATTEMPTS,
        ensures
            r.0.inv(),
            r.0.hosts == self.hosts,
            self.tries <= r.0.tries <= self.tries + 1,
            r.1 matches Action::Connect(i) ==> i < self.hosts,
            !(r.1 is Done) ==> r.0.tries < MAX_ATTEMPTS,
            match event {
                Event::Connected(o) => !(self.conn is Connected) ==> match o {
                    Ok(()) => r.1 is Write && r.0.conn is Connected && r.0.tries == self.tries,
                    Err(m) => attempt_failed(self, m@, r),
                },
                Event::Written(o) => self.conn is Connected ==> match o {
                    Ok(()) => r.1 is Read && r.0.conn is Connected && r.0.tries == self.tries,
                    Err(m) => attempt_failed(self, m@, r),
                },
                Event::LineRead(o) => self.conn is Connected ==> match o {
                    Ok(l) => (r.1 matches Action::Done(res) && response_read(l@, Response(res)) && r.0.conn is Connected),
                    Err(m) => attempt_failed(self, m@, r),
                },
            },
    {
        match event {
            Event::Connected(outcome) => {
                let conn = self.conn.connect(outcome);
                let connected = conn.is_connected();
                let s = RequestLoop { conn, tries: self.tries, hosts: self.hosts, line: self.line };
                if connected {
                    (s, Action::Write)
                } else {
                    s.end_attempt()
                }
            },
            Event::Written(outcome) => {
                let conn = self.conn.after_io(outcome);
                let connected = conn.is_connected();
                let s = RequestLoop { conn, tries: self.tries, hosts: self.hosts, line: self.line };
                if connected {
                    (s, Action::Read)
                } else {
                    s.end_attempt()
                }
            },
            Event::LineRead(outcome) => {
                let (io, line) = match outcome {
                    Ok(l) => (Ok(()), l),
                    Err(m) => (Err(m), Vec::new()),
                };
                let conn = self.conn.after_io(io);
                let s = RequestLoop { conn, tries: self.tries, hosts: self.hosts, line };
                s.end_attempt()
            },
        }
    }
}

/// Whether a storage server's HTTP status accepts an upload: `200 OK` or
/// `201 Created`.
pub fn upload_accepted(status: u16) -> (r: bool)
    ensures
        r == (status == 200 || status == 201),
{
    status == 200 || status == 201
}


/// Where a two-phase upload stands.
#[derive(Debug)]
pub enum UploadStage {
    /// `create_open` was sent.
    Opening,
    /// The bytes are being written to `path`, destination `devid` of file `fid`.
    Storing { fid: u64, devid: u64, path: Vec<u8> },
    /// `create_close` was sent.
    Closing,
}

/// What the caller does next for an upload.
#[derive(Debug)]
pub enum UploadAction {
    /// Send this request to a tracker and report the answer.
    Send(Request),
    /// PUT the bytes to this URL and report the HTTP status, or the error.
    Put(Vec<u8>),
    /// The upload is over, with this outcome.
    Done(MogResult<Vec<(Vec<u8>, Vec<u8>)>>),
}

/// A two-phase upload: `create_open`, a PUT to one of the destinations
/// named, then `create_close`.
#[derive(Debug)]
pub struct Upload {
    pub domain: Vec<u8>,
    pub key: Vec<u8>,
    pub stage: UploadStage,
}

impl Upload {
    /// Starts an upload of `key` in `domain`.
    pub fn start(domain: Vec<u8>, class: Option<Vec<u8>>, key: Vec<u8>) -> (r: (Upload, UploadAction))
        ensures
            r.0.stage is Opening,
            r.0.domain@ == domain@,
            r.0.key@ == key@,
            r.1 matches UploadAction::Send(req) && req.op == Command::CreateOpen && pairs_view(req.args@)
                == seq![pair_of("domain"@, domain@), pair_of("key"@, key@)] + (match class {
                Some(c) => seq![pair_of("class"@, c@)],
                None => Seq::empty(),
            }) + seq![pair_of("multi_dest"@, ascii_bytes("1"@))],
    {
        let open = CreateOpen {
            domain: copy_bytes(domain.as_slice()),
            class,
            key: copy_bytes(key.as_slice()),
            multi_dest: true,
            size: None,
        };
        let args = open.to_args();
        (Upload { domain, key, stage: UploadStage::Opening }, UploadAction::Send(Request { op: Command::CreateOpen, args }))
    }

    /// After the answer to `create_open`: a failed or malformed answer ends
    /// the upload; otherwise the bytes go to one of its destinations, picked
    /// at random.
    pub fn opened(self, answer: MogResult<Vec<(Vec<u8>, Vec<u8>)>>) -> (r: (Upload, UploadAction))
        requires
            self.stage is Opening,
        ensures
            r.0.domain == self.domain,
            r.0.key == self.key,
            match answer {
                Err(_) => r.1 matches UploadAction::Done(res) && res == answer,
                Ok(a) => {
                    let v = pairs_view(a@);
                    &&& !create_open_answer_ok(v) ==> (r.1 matches UploadAction::Done(Err(MogError::BadResponse)))
                    &&& create_open_answer_ok(v) && number_of(v, "dev_count"@) == Some(0u64) ==> (r.1 matches UploadAction::Done(
                        Err(MogError::NoPath),
                    ))
                    &&& create_open_answer_ok(v) && number_of(v, "dev_count"@) != Some(0u64) ==> (r.1 matches UploadAction::Put(url)
                        && r.0.stage matches UploadStage::Storing { fid, devid, path } && path@ == url@
                        && Some(fid) == number_of(v, "fid"@) && exists|j: nat|
                        1 <= j <= number_of(v, "dev_count"@).unwrap() && #[trigger] dest_at(v, j) == Some((devid, url@)))
                },
            },
    {
        let args = match answer {
            Err(e) => return (self, UploadAction::Done(Err(e))),
            Ok(a) => a,
        };
        let resp = match CreateOpenResponse::from_args(&args) {
            Err(e) => return (self, UploadAction::Done(Err(e))),
            Ok(resp) => resp,
        };
        match choose_destination(&resp) {
            Err(e) => (self, UploadAction::Done(Err(e))),
            Ok((devid, path)) => {
                proof {
                    let j = choose|j: int| 0 <= j < resp.paths@.len() && #[trigger] dest_view(resp.paths@)[j] == (devid, path@);
                    assert(dest_at(pairs_view(args@), (j + 1) as nat) == Some((devid, path@)));
                }
                let url = copy_bytes(path.as_slice());
                (
                    Upload { domain: self.domain, key: self.key, stage: UploadStage::Storing { fid: resp.fid, devid, path } },
                    UploadAction::Put(url),
                )
            },
        }
    }

    /// After the PUT: a failure, or a status other than `200` or `201`, ends
    /// the upload with a storage error and no `create_close`; otherwise
    /// `create_close` reports where the bytes went.
    pub fn stored(self, outcome: Result<u16, Vec<u8>>) -> (r: (Upload, UploadAction))
        requires
            self.stage is Storing,
        ensures
            outcome matches Err(m) ==> (r.1 matches UploadAction::Done(Err(MogError::StorageError(Some(x)))) && x@ == m@),
            outcome matches Ok(st) && !(st == 200 || st == 201) ==> r.1 matches UploadAction::Done(
                Err(MogError::StorageError(Some(_))),
            ),
            outcome matches Ok(st) && (st == 200 || st == 201) ==> (r.0.stage is Closing && match self.stage {
                UploadStage::Storing { fid, devid, path } => r.1 matches UploadAction::Send(req) && req.op
                    == Command::CreateClose && pairs_view(req.args@) == seq![
                    pair_of("domain"@, self.domain@),
                    pair_of("key"@, self.key@),
                    pair_of("fid"@, decimal(fid as nat)),
                    pair_of("devid"@, decimal(devid as nat)),
                    pair_of("path"@, path@),
                ],
                _ => false,
            }),
    {
        let status = match outcome {
            Err(m) => return (self, UploadAction::Done(Err(MogError::StorageError(Some(m))))),
            Ok(st) => st,
        };
        if !upload_accepted(status) {
            proof {
                reveal_strlit("storage server answered ");
            }
            let mut m = str_bytes("storage server answered ");
            let code = to_decimal(status as u64);
            append_bytes(&mut m, code.as_slice());
            return (self, UploadAction::Done(Err(MogError::StorageError(Some(m)))));
        }
        match self.stage {
            UploadStage::Storing { fid, devid, path } => {
                let close = CreateClose {
                    domain: copy_bytes(self.domain.as_slice()),
                    key: copy_bytes(self.key.as_slice()),
                    fid,
                    devid,
                    path,
                    checksum: None,
                };
                let args = close.to_args();
                (
                    Upload { domain: self.domain, key: self.key, stage: UploadStage::Closing },
                    UploadAction::Send(Request { op: Command::CreateClose, args }),
                )
            },
            _ => (self, UploadAction::Done(Err(MogError::BadResponse))),
        }
    }

    /// After the answer to `create_close`: the upload's outcome.
    pub fn closed(self, answer: MogResult<Vec<(Vec<u8>, Vec<u8>)>>) -> (r: UploadAction)
        requires
            self.stage is Closing,
        ensures
            r matches UploadAction::Done(res) && res == answer,
    {
        UploadAction::Done(answer)
    }
}

} // verus!
