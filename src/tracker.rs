//! The tracker: decodes a request line, runs the operation on the backend
//! and encodes the answer.
use vstd::prelude::*;
use crate::backend::{
    MemBackend, files_of, after_create_open, after_delete, after_rename, effective_limit,
};
use crate::bytes::ascii_bytes;
use crate::error::MogError;
use crate::form::{pairs_view, parse};
use crate::message::{
    Command, Request, Response, command_named, command_read, head_token, response_line,
    strip_crlf, tail_after_space,
};
use crate::model::listed;
use crate::requests::{
    Pairs, arg_of, create_open_args, domain_arg, file_info_args, from_key_arg, get_paths_args,
    key_arg, limit_of, list_keys_args, to_key_arg, CreateClose, CreateDomain, CreateOpen, Delete,
    FileInfo, GetPaths, ListKeys, Rename, UpdateClass,
};

verus! {

/// The backend did not change.
pub open spec fn unchanged(b0: &MemBackend, b1: &MemBackend) -> bool {
    &&& b1@ == b0@
    &&& b1.next_fid_spec() == b0.next_fid_spec()
    &&& b1.same_base(b0)
}

pub open spec fn ok_with(r: Response, args: Pairs) -> bool {
    r.0 matches Ok(a) && pairs_view(a@) == args
}

/// The operation named by a line's first token.
pub open spec fn line_command(line: Seq<u8>) -> Option<Command> {
    let head = head_token(strip_crlf(line));
    if head.len() == 0 {
        None
    } else {
        command_named(head)
    }
}

/// The arguments of a request line.
pub open spec fn line_args(line: Seq<u8>) -> Pairs {
    parse(tail_after_space(strip_crlf(line)))
}

/// The answer to an operation on a domain and a key, before the backend is
/// asked: the missing argument, if any.
pub open spec fn missing_domain_or_key(r: Response, b0: &MemBackend, b1: &MemBackend, args: Pairs) -> bool {
    &&& domain_arg(args) is None ==> (r.0 matches Err(MogError::NoDomain) && unchanged(b0, b1))
    &&& domain_arg(args) is Some && key_arg(args) is None ==> (r.0 matches Err(MogError::NoKey) && unchanged(b0, b1))
}

/// How the tracker answers `line` with backend `b0`, leaving `b1`.
pub open spec fn handled(b0: &MemBackend, line: Seq<u8>, b1: &MemBackend, r: Response) -> bool {
    match line_command(line) {
        None => r.0 matches Err(e) && command_read(Some(head_token(strip_crlf(line))), Err(e)) && unchanged(b0, b1),
        Some(c) => handled_op(b0, c, line_args(line), b1, r),
    }
}

/// The operations that only read the backend.
pub open spec fn is_query(c: Command) -> bool {
    c is Noop || c is GetPaths || c is FileInfo || c is ListKeys
}

/// How the tracker answers operation `c` with arguments `args`.
pub open spec fn handled_op(b0: &MemBackend, c: Command, args: Pairs, b1: &MemBackend, r: Response) -> bool {
    let d = domain_arg(args).unwrap();
    let k = key_arg(args).unwrap();
    let both = domain_arg(args) is Some && key_arg(args) is Some;
    let fs = files_of(b0@, d);
    match c {
        Command::Noop => ok_with(r, Seq::empty()) && unchanged(b0, b1),
        Command::CreateDomain => {
            &&& domain_arg(args) is None ==> (r.0 matches Err(MogError::NoDomain) && unchanged(b0, b1))
            &&& domain_arg(args) is Some && b0@.contains_key(d) ==> (r.0 matches Err(MogError::DomainExists(x))
                && x@ == d && unchanged(b0, b1))
            &&& domain_arg(args) is Some && !b0@.contains_key(d) ==> (ok_with(r, seq![(ascii_bytes("domain"@), d)])
                && b1@ == b0@.insert(d, Map::empty()) && b1.next_fid_spec() == b0.next_fid_spec() && b1.same_base(b0))
        },
        Command::CreateOpen => {
            &&& missing_domain_or_key(r, b0, b1, args)
            &&& both && b0.next_fid_spec() == u64::MAX ==> (r.0 matches Err(MogError::Other(_)) && unchanged(b0, b1))
            &&& both && b0.next_fid_spec() < u64::MAX ==> (ok_with(
                r,
                create_open_args(b0.next_fid_spec(), seq![(1u64, b0.url_of(d, k))]),
            ) && b1@ == after_create_open(b0@, d, k, b0.next_fid_spec())
                && b1.next_fid_spec() == b0.next_fid_spec() + 1 && b1.same_base(b0))
        },
        Command::CreateClose => {
            &&& missing_domain_or_key(r, b0, b1, args)
            &&& both ==> (ok_with(r, Seq::empty()) && unchanged(b0, b1))
        },
        Command::UpdateClass => {
            &&& missing_domain_or_key(r, b0, b1, args)
            &&& both ==> (ok_with(r, Seq::empty()) && unchanged(b0, b1))
        },
        Command::GetPaths => {
            &&& missing_domain_or_key(r, b0, b1, args)
            &&& both && fs.contains_key(k) ==> (ok_with(r, get_paths_args(seq![b0.url_of(d, k)])) && unchanged(b0, b1))
            &&& both && !fs.contains_key(k) ==> (r.0 matches Err(MogError::UnknownKey(x)) && x@ == k && unchanged(b0, b1))
        },
        Command::FileInfo => {
            &&& missing_domain_or_key(r, b0, b1, args)
            &&& both && !fs.contains_key(k) ==> (r.0 matches Err(MogError::UnknownKey(x)) && x@ == k && unchanged(b0, b1))
            &&& both && fs.contains_key(k) && (fs[k].size is None || fs[k].mtime is None) ==> (r.0 matches Err(
                MogError::NoContent(x)) && x@ == k && unchanged(b0, b1))
            &&& both && fs.contains_key(k) && fs[k].size is Some && fs[k].mtime is Some ==> (ok_with(
                r,
                file_info_args(d, k, fs[k].size.unwrap(), fs[k].fid, 1, ascii_bytes("default"@)),
            ) && unchanged(b0, b1))
        },
        Command::Delete => {
            &&& missing_domain_or_key(r, b0, b1, args)
            &&& both && fs.contains_key(k) ==> (ok_with(r, Seq::empty()) && b1@ == after_delete(b0@, d, k)
                && b1.next_fid_spec() == b0.next_fid_spec() && b1.same_base(b0))
            &&& both && !fs.contains_key(k) ==> (r.0 matches Err(MogError::UnknownKey(x)) && x@ == k && unchanged(b0, b1))
        },
        Command::Rename => {
            let a = from_key_arg(args).unwrap();
            let t = to_key_arg(args).unwrap();
            let keys = from_key_arg(args) is Some && to_key_arg(args) is Some;
            &&& domain_arg(args) is None ==> (r.0 matches Err(MogError::NoDomain) && unchanged(b0, b1))
            &&& domain_arg(args) is Some && !keys ==> (r.0 matches Err(MogError::NoKey) && unchanged(b0, b1))
            &&& domain_arg(args) is Some && keys && fs.contains_key(t) ==> (r.0 matches Err(MogError::KeyExists(x))
                && x@ == t && unchanged(b0, b1))
            &&& domain_arg(args) is Some && keys && !fs.contains_key(t) && !fs.contains_key(a) ==> (r.0 matches Err(
                MogError::UnknownKey(x)) && x@ == a && unchanged(b0, b1))
            &&& domain_arg(args) is Some && keys && !fs.contains_key(t) && fs.contains_key(a) ==> (ok_with(r, Seq::empty())
                && b1@ == after_rename(b0@, d, a, t) && b1.next_fid_spec() == b0.next_fid_spec() && b1.same_base(b0))
        },
        Command::ListKeys => {
            &&& domain_arg(args) is None ==> (r.0 matches Err(MogError::NoDomain) && unchanged(b0, b1))
            &&& domain_arg(args) is Some ==> (unchanged(b0, b1) && exists|ks: Seq<Seq<u8>>| listed(
                fs.dom(),
                match arg_of(args, "prefix"@) {
                    Some(p) => p,
                    None => Seq::empty(),
                },
                arg_of(args, "after"@),
                effective_limit(limit_of(args)),
                ks,
            ) && ok_with(r, #[trigger] list_keys_args(ks)))
        },
    }
}

/// The tracker: one backend, owned.
pub struct Tracker {
    backend: MemBackend,
}

impl Tracker {
    pub closed spec fn backend_spec(&self) -> &MemBackend {
        &self.backend
    }

    pub closed spec fn wf(&self) -> bool {
        self.backend.wf()
    }

    pub fn new(backend: MemBackend) -> (r: Tracker)
        requires
            backend.wf(),
        ensures
            r.wf(),
            *r.backend_spec() == backend,
    {
        Tracker { backend }
    }

    /// The backend, to read.
    pub fn backend(&self) -> (r: &MemBackend)
        ensures
            r == self.backend_spec(),
    {
        &self.backend
    }

    /// The backend, to change through its own operations.
    pub fn backend_mut(&mut self) -> (r: &mut MemBackend)
        ensures
            *r == *old(self).backend_spec(),
            *final(self).backend_spec() == *final(r),
    {
        &mut self.backend
    }

    /// Answers a read-only operation.
    fn query(&self, req: &Request) -> (r: Response)
        requires
            self.wf(),
            is_query(req.op),
        ensures
            handled_op(self.backend_spec(), req.op, pairs_view(req.args@), self.backend_spec(), r),
    {
        proof {
            reveal_strlit("prefix");
            reveal_strlit("after");
        }
        let ghost args = pairs_view(req.args@);
        match req.op {
            Command::GetPaths => match GetPaths::from_args(&req.args) {
                Err(e) => Response(Err(e)),
                Ok(c) => match self.backend.get_paths(&c) {
                    Ok(paths) => {
                        assert(paths.0@.map_values(|p: Vec<u8>| p@) =~= seq![self.backend.url_of(c.domain@, c.key@)]);
                        Response(Ok(paths.to_args()))
                    },
                    Err(e) => Response(Err(e)),
                },
            },
            Command::FileInfo => match FileInfo::from_args(&req.args) {
                Err(e) => Response(Err(e)),
                Ok(c) => match self.backend.file_info(&c) {
                    Ok(info) => Response(Ok(info.to_args())),
                    Err(e) => Response(Err(e)),
                },
            },
            Command::ListKeys => match ListKeys::from_args(&req.args) {
                Err(e) => Response(Err(e)),
                Ok(c) => match self.backend.list_keys(&c) {
                    Ok(keys) => {
                        let ghost ks = keys.0@.map_values(|k: Vec<u8>| k@);
                        assert(ks.len() <= 1000);
                        let a = keys.to_args();
                        assert(listed(
                            files_of(self.backend_spec()@, c.domain@).dom(),
                            match arg_of(args, "prefix"@) {
                                Some(p) => p,
                                None => Seq::empty(),
                            },
                            arg_of(args, "after"@),
                            effective_limit(limit_of(args)),
                            ks,
                        ));
                        Response(Ok(a))
                    },
                    Err(e) => Response(Err(e)),
                },
            },
            _ => {
                let a: Vec<(Vec<u8>, Vec<u8>)> = Vec::new();
                assert(pairs_view(a@) =~= Seq::empty());
                Response(Ok(a))
            },
        }
    }

    /// Answers one request line when it asks for no change: a read-only
    /// operation, or a line that names no operation. Lines that ask for a
    /// change get `None` and go to `handle`.
    pub fn handle_query(&self, line: &[u8]) -> (r: Option<Response>)
        requires
            self.wf(),
        ensures
            match r {
                Some(resp) => handled(self.backend_spec(), line@, self.backend_spec(), resp),
                None => line_command(line@) matches Some(c) && !is_query(c),
            },
    {
        let req = match Request::from_bytes(line) {
            Ok(req) => req,
            Err(e) => {
                return Some(Response(Err(e)));
            },
        };
        assert(pairs_view(req.args@) == line_args(line@));
        match req.op {
            Command::Noop | Command::GetPaths | Command::FileInfo | Command::ListKeys => Some(self.query(&req)),
            _ => None,
        }
    }

    /// Answers one request line.
    pub fn handle(&mut self, line: &[u8]) -> (r: Response)
        requires
            old(self).wf(),
        ensures
            final(self).wf(),
            handled(old(self).backend_spec(), line@, final(self).backend_spec(), r),
    {
        let req = match Request::from_bytes(line) {
            Ok(req) => req,
            Err(e) => {
                return Response(Err(e));
            },
        };
        let ghost args = pairs_view(req.args@);
        assert(args == line_args(line@));
        match req.op {
            Command::CreateDomain => match CreateDomain::from_args(&req.args) {
                Err(e) => Response(Err(e)),
                Ok(c) => match self.backend.create_domain(&c) {
                    Ok(done) => Response(Ok(done.to_args())),
                    Err(e) => Response(Err(e)),
                },
            },
            Command::CreateOpen => match CreateOpen::from_args(&req.args) {
                Err(e) => Response(Err(e)),
                Ok(c) => match self.backend.create_open(&c) {
                    Ok(opened) => {
                        assert(crate::requests::dest_view(opened.paths@) =~= seq![(1u64, old(self).backend_spec().url_of(c.domain@, c.key@))]);
                        Response(Ok(opened.to_args()))
                    },
                    Err(e) => Response(Err(e)),
                },
            },
            Command::CreateClose => match CreateClose::from_args(&req.args) {
                Err(e) => Response(Err(e)),
                Ok(c) => match self.backend.create_close(&c) {
                    Ok(()) => {
                        let a: Vec<(Vec<u8>, Vec<u8>)> = Vec::new();
                        assert(pairs_view(a@) =~= Seq::empty());
                        Response(Ok(a))
                    },
                    Err(e) => Response(Err(e)),
                },
            },
            Command::UpdateClass => match UpdateClass::from_args(&req.args) {
                Err(e) => Response(Err(e)),
                Ok(c) => match self.backend.update_class(&c) {
                    Ok(()) => {
                        let a: Vec<(Vec<u8>, Vec<u8>)> = Vec::new();
                        assert(pairs_view(a@) =~= Seq::empty());
                        Response(Ok(a))
                    },
                    Err(e) => Response(Err(e)),
                },
            },
            Command::Delete => match Delete::from_args(&req.args) {
                Err(e) => Response(Err(e)),
                Ok(c) => match self.backend.delete(&c) {
                    Ok(()) => {
                        let a: Vec<(Vec<u8>, Vec<u8>)> = Vec::new();
                        assert(pairs_view(a@) =~= Seq::empty());
                        Response(Ok(a))
                    },
                    Err(e) => Response(Err(e)),
                },
            },
            Command::Rename => match Rename::from_args(&req.args) {
                Err(e) => Response(Err(e)),
                Ok(c) => match self.backend.rename(&c) {
                    Ok(()) => {
                        let a: Vec<(Vec<u8>, Vec<u8>)> = Vec::new();
                        assert(pairs_view(a@) =~= Seq::empty());
                        Response(Ok(a))
                    },
                    Err(e) => Response(Err(e)),
                },
            },
            Command::Noop | Command::GetPaths | Command::FileInfo | Command::ListKeys => self.query(&req),
        }
    }

    /// Answers one request line with the bytes of the response line.
    pub fn handle_bytes(&mut self, line: &[u8]) -> (r: Vec<u8>)
        requires
            old(self).wf(),
        ensures
            final(self).wf(),
            exists|resp: Response| handled(old(self).backend_spec(), line@, final(self).backend_spec(), resp)
                && r@ == response_line(resp),
    {
        let resp = self.handle(line);
        resp.render()
    }
}

} // verus!
