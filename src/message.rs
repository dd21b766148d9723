//! Request and response lines: framing, the operation token, argument
//! bodies and error lines.
use vstd::prelude::*;
use crate::bytes::{ascii_bytes, append_bytes, copy_bytes, is_named, bytes_eq};
use crate::error::{
    MogError, MogResult, kind_name, description, error_matches_wire, same_error,
    lemma_error_wire_round_trip, lemma_kind_name_word,
};
use crate::form::{
    SPACE, decode, encode, serialize, serialize_pair, parse, pairs_view, first_index,
    lemma_first_index_at, lemma_first_index_none, encode_into, decode_bytes, serialize_pairs,
    parse_pairs, all_encoded, is_encoded_byte, lemma_encode_all_encoded, lemma_parse_serialize,
    lemma_decode_encode,
};

verus! {

pub const CR: u8 = 0x0D;
pub const LF: u8 = 0x0A;

pub open spec fn crlf() -> Seq<u8> {
    seq![CR, LF]
}

/// A line without its trailing CRLF, if it has one.
pub open spec fn strip_crlf(s: Seq<u8>) -> Seq<u8> {
    if s.len() >= 2 && s[s.len() - 2] == CR && s[s.len() - 1] == LF {
        s.take(s.len() - 2)
    } else {
        s
    }
}

/// The bytes before the first space, or all of them.
pub open spec fn head_token(s: Seq<u8>) -> Seq<u8> {
    let i = first_index(s, SPACE);
    if i < 0 {
        s
    } else {
        s.take(i)
    }
}

/// The bytes after the first space, or none.
pub open spec fn tail_after_space(s: Seq<u8>) -> Seq<u8> {
    let i = first_index(s, SPACE);
    if i < 0 {
        Seq::empty()
    } else {
        s.skip(i + 1)
    }
}

/// The operations that the tracker implements.
#[derive(Debug, Clone, Copy, PartialEq, Eq, Structural)]
pub enum Command {
    Noop,
    CreateDomain,
    CreateOpen,
    CreateClose,
    GetPaths,
    FileInfo,
    Rename,
    UpdateClass,
    Delete,
    ListKeys,
}

/// The wire token of an operation.
pub open spec fn op_name(c: Command) -> Seq<char> {
    match c {
        Command::Noop => "noop"@,
        Command::CreateDomain => "create_domain"@,
        Command::CreateOpen => "create_open"@,
        Command::CreateClose => "create_close"@,
        Command::GetPaths => "get_paths"@,
        Command::FileInfo => "file_info"@,
        Command::Rename => "rename"@,
        Command::UpdateClass => "updateclass"@,
        Command::Delete => "delete"@,
        Command::ListKeys => "list_keys"@,
    }
}

/// The operation that a token names, if any.
pub open spec fn command_named(b: Seq<u8>) -> Option<Command> {
    if b == ascii_bytes("noop"@) {
        Some(Command::Noop)
    } else if b == ascii_bytes("create_domain"@) {
        Some(Command::CreateDomain)
    } else if b == ascii_bytes("create_open"@) {
        Some(Command::CreateOpen)
    } else if b == ascii_bytes("create_close"@) {
        Some(Command::CreateClose)
    } else if b == ascii_bytes("get_paths"@) {
        Some(Command::GetPaths)
    } else if b == ascii_bytes("file_info"@) {
        Some(Command::FileInfo)
    } else if b == ascii_bytes("rename"@) {
        Some(Command::Rename)
    } else if b == ascii_bytes("updateclass"@) {
        Some(Command::UpdateClass)
    } else if b == ascii_bytes("delete"@) {
        Some(Command::Delete)
    } else if b == ascii_bytes("list_keys"@) {
        Some(Command::ListKeys)
    } else {
        None
    }
}

/// What reading an operation token gives: the operation it names; an
/// unknown command (without payload when the token is absent or empty); or
/// a UTF-8 error.
pub open spec fn command_read(b: Option<Seq<u8>>, r: MogResult<Command>) -> bool {
    match b {
        None => r matches Err(MogError::UnknownCommand(None)),
        Some(t) => if t.len() == 0 {
            r matches Err(MogError::UnknownCommand(None))
        } else if command_named(t) is Some {
            r == Ok::<Command, MogError>(command_named(t).unwrap())
        } else if vstd::utf8::valid_utf8(t) {
            r matches Err(MogError::UnknownCommand(Some(v))) && v@ == t
        } else {
            r matches Err(MogError::Utf8)
        },
    }
}

/// Relies on `std::str::from_utf8`, which succeeds exactly on well-formed
/// UTF-8.
#[verifier::external_body]
fn is_utf8(b: &[u8]) -> (r: bool)
    ensures
        r == vstd::utf8::valid_utf8(b@),
{
    std::str::from_utf8(b).is_ok()
}

proof fn lemma_ascii_shape(s: Seq<char>)
    ensures
        ascii_bytes(s).len() == s.len(),
        s.len() > 0 ==> ascii_bytes(s)[0] == s[0] as u8,
        s.len() > 1 ==> ascii_bytes(s)[1] == s[1] as u8,
        s.len() > 7 ==> ascii_bytes(s)[7] == s[7] as u8,
{
}

/// Each operation's token names it, and holds no space.
pub proof fn lemma_op_name_round_trip(c: Command)
    ensures
        command_named(ascii_bytes(op_name(c))) == Some(c),
        forall|i: int| 0 <= i < op_name(c).len() ==> #[trigger] ascii_bytes(op_name(c))[i] != SPACE,
        op_name(c).len() > 0,
{
    reveal_strlit("noop");
    reveal_strlit("create_domain");
    reveal_strlit("create_open");
    reveal_strlit("create_close");
    reveal_strlit("get_paths");
    reveal_strlit("file_info");
    reveal_strlit("rename");
    reveal_strlit("updateclass");
    reveal_strlit("delete");
    reveal_strlit("list_keys");
    lemma_ascii_shape("noop"@);
    lemma_ascii_shape("create_domain"@);
    lemma_ascii_shape("create_open"@);
    lemma_ascii_shape("create_close"@);
    lemma_ascii_shape("get_paths"@);
    lemma_ascii_shape("file_info"@);
    lemma_ascii_shape("rename"@);
    lemma_ascii_shape("updateclass"@);
    lemma_ascii_shape("delete"@);
    lemma_ascii_shape("list_keys"@);
}

impl Command {
    /// Reads an operation token.
    pub fn from_optional_bytes(bytes: Option<&[u8]>) -> (r: MogResult<Command>)
        ensures
            command_read(
                match bytes {
                    Some(b) => Some(b@),
                    None => None,
                },
                r,
            ),
    {
        match bytes {
            None => Err(MogError::UnknownCommand(None)),
            Some(b) => {
                proof {
                    reveal_strlit("noop");
                    reveal_strlit("create_domain");
                    reveal_strlit("create_open");
                    reveal_strlit("create_close");
                    reveal_strlit("get_paths");
                    reveal_strlit("file_info");
                    reveal_strlit("rename");
                    reveal_strlit("updateclass");
                    reveal_strlit("delete");
                    reveal_strlit("list_keys");
                }
                if b.len() == 0 {
                    Err(MogError::UnknownCommand(None))
                } else if is_named(b, "noop") {
                    Ok(Command::Noop)
                } else if is_named(b, "create_domain") {
                    Ok(Command::CreateDomain)
                } else if is_named(b, "create_open") {
                    Ok(Command::CreateOpen)
                } else if is_named(b, "create_close") {
                    Ok(Command::CreateClose)
                } else if is_named(b, "get_paths") {
                    Ok(Command::GetPaths)
                } else if is_named(b, "file_info") {
                    Ok(Command::FileInfo)
                } else if is_named(b, "rename") {
                    Ok(Command::Rename)
                } else if is_named(b, "updateclass") {
                    Ok(Command::UpdateClass)
                } else if is_named(b, "delete") {
                    Ok(Command::Delete)
                } else if is_named(b, "list_keys") {
                    Ok(Command::ListKeys)
                } else if is_utf8(b) {
                    Err(MogError::UnknownCommand(Some(copy_bytes(b))))
                } else {
                    Err(MogError::Utf8)
                }
            },
        }
    }

    /// The wire token of this operation.
    pub fn name(&self) -> (r: &'static str)
        ensures
            r@ == op_name(*self),
            r.is_ascii(),
    {
        match self {
            Command::Noop => {
                proof { reveal_strlit("noop"); }
                "noop"
            },
            Command::CreateDomain => {
                proof { reveal_strlit("create_domain"); }
                "create_domain"
            },
            Command::CreateOpen => {
                proof { reveal_strlit("create_open"); }
                "create_open"
            },
            Command::CreateClose => {
                proof { reveal_strlit("create_close"); }
                "create_close"
            },
            Command::GetPaths => {
                proof { reveal_strlit("get_paths"); }
                "get_paths"
            },
            Command::FileInfo => {
                proof { reveal_strlit("file_info"); }
                "file_info"
            },
            Command::Rename => {
                proof { reveal_strlit("rename"); }
                "rename"
            },
            Command::UpdateClass => {
                proof { reveal_strlit("updateclass"); }
                "updateclass"
            },
            Command::Delete => {
                proof { reveal_strlit("delete"); }
                "delete"
            },
            Command::ListKeys => {
                proof { reveal_strlit("list_keys"); }
                "list_keys"
            },
        }
    }
}


/// Index of the first `b` in `s`, if any.
pub fn find_byte(s: &[u8], b: u8) -> (r: Option<usize>)
    ensures
        match r {
            Some(i) => i < s@.len() && first_index(s@, b) == i,
            None => first_index(s@, b) == -1,
        },
{
    let mut i: usize = 0;
    while i < s.len()
        invariant
            i <= s@.len(),
            forall|j: int| 0 <= j < i ==> s@[j] != b,
        decreases s@.len() - i,
    {
        if s[i] == b {
            proof {
                lemma_first_index_at(s@, b, i as int);
            }
            return Some(i);
        }
        i = i + 1;
    }
    proof {
        lemma_first_index_none(s@, b);
    }
    None
}

/// The line without its trailing CRLF.
pub fn strip_line_end(s: &[u8]) -> (r: &[u8])
    ensures
        r@ == strip_crlf(s@),
{
    let n = s.len();
    if n >= 2 && s[n - 2] == CR && s[n - 1] == LF {
        let r = &s[0..n - 2];
        assert(r@ =~= s@.take(n - 2));
        r
    } else {
        s
    }
}

/// Splits at the first space: the token before it and what follows it.
pub fn split_first_space(s: &[u8]) -> (r: (&[u8], &[u8]))
    ensures
        r.0@ == head_token(s@),
        r.1@ == tail_after_space(s@),
{
    match find_byte(s, SPACE) {
        Some(i) => {
            let n = s.len();
            assert(i < n);
            let a = &s[0..i];
            let b = &s[i + 1..n];
            assert(a@ =~= s@.take(i as int));
            assert(b@ =~= s@.skip(i as int + 1));
            (a, b)
        },
        None => {
            let e = &s[0..0];
            assert(e@ =~= Seq::<u8>::empty());
            (s, e)
        },
    }
}

/// A request to the tracker: an operation and its arguments in order.
#[derive(Debug)]
pub struct Request {
    pub op: Command,
    pub args: Vec<(Vec<u8>, Vec<u8>)>,
}

/// The line that carries a request.
pub open spec fn request_line(op: Command, args: Seq<(Seq<u8>, Seq<u8>)>) -> Seq<u8> {
    ascii_bytes(op_name(op)) + seq![SPACE] + serialize(args) + crlf()
}

/// What reading a request line gives: the operation named by the first
/// token, and the pairs of the form body after the first space.
pub open spec fn request_read(line: Seq<u8>, r: MogResult<Request>) -> bool {
    let body = strip_crlf(line);
    let head = head_token(body);
    match r {
        Ok(req) => command_read(Some(head), Ok(req.op)) && pairs_view(req.args@) == parse(
            tail_after_space(body),
        ),
        Err(e) => command_read(Some(head), Err(e)),
    }
}

/// The last value given for `k`, if any.
pub open spec fn lookup(args: Seq<(Seq<u8>, Seq<u8>)>, k: Seq<u8>) -> Option<Seq<u8>>
    decreases args.len(),
{
    if args.len() == 0 {
        None
    } else if args.last().0 == k {
        Some(args.last().1)
    } else {
        lookup(args.drop_last(), k)
    }
}

/// The first value held for `k`, if any.
pub open spec fn find_first(args: Seq<(Seq<u8>, Seq<u8>)>, k: Seq<u8>) -> Option<Seq<u8>>
    decreases args.len(),
{
    if args.len() == 0 {
        None
    } else {
        match find_first(args.drop_last(), k) {
            Some(v) => Some(v),
            None => if args.last().0 == k {
                Some(args.last().1)
            } else {
                None
            },
        }
    }
}

pub proof fn lemma_find_first_some(args: Seq<(Seq<u8>, Seq<u8>)>, k: Seq<u8>)
    ensures
        find_first(args, k) is Some <==> exists|j: int| 0 <= j < args.len() && #[trigger] args[j].0 == k,
    decreases args.len(),
{
    if args.len() > 0 {
        lemma_find_first_some(args.drop_last(), k);
        if find_first(args.drop_last(), k) is Some {
            let j = choose|j: int| 0 <= j < args.drop_last().len() && #[trigger] args.drop_last()[j].0 == k;
            assert(args[j].0 == k);
        }
        if exists|j: int| 0 <= j < args.len() && #[trigger] args[j].0 == k {
            let j = choose|j: int| 0 <= j < args.len() && #[trigger] args[j].0 == k;
            if j < args.len() - 1 {
                assert(args.drop_last()[j].0 == k);
            }
        }
    }
}

/// Whether some pair holds key `k`.
fn has_key(v: &Vec<(Vec<u8>, Vec<u8>)>, k: &[u8]) -> (r: bool)
    ensures
        r == (find_first(pairs_view(v@), k@) is Some),
{
    proof {
        lemma_find_first_some(pairs_view(v@), k@);
    }
    let mut j: usize = 0;
    while j < v.len()
        invariant
            j <= v@.len(),
            forall|i: int| 0 <= i < j ==> #[trigger] v@[i].0@ != k@,
        decreases v@.len() - j,
    {
        if bytes_eq(v[j].0.as_slice(), k) {
            assert(v@[j as int].0@ == k@);
            assert(pairs_view(v@)[j as int].0 == k@);
            proof {
                lemma_find_first_some(pairs_view(v@), k@);
            }
            return true;
        }
        j = j + 1;
    }
    assert forall|i: int| 0 <= i < pairs_view(v@).len() implies #[trigger] pairs_view(v@)[i].0 != k@ by {
        assert(v@[i].0@ != k@);
    }
    false
}

impl Request {
    /// Reads a request line; a trailing CRLF is ignored.
    pub fn from_bytes(bytes: &[u8]) -> (r: MogResult<Request>)
        ensures
            request_read(bytes@, r),
    {
        let body = strip_line_end(bytes);
        let (op, rest) = split_first_space(body);
        let command = Command::from_optional_bytes(Some(op));
        match command {
            Ok(c) => Ok(Request { op: c, args: parse_pairs(rest) }),
            Err(e) => Err(e),
        }
    }

    /// The line that carries this request.
    pub fn render(&self) -> (r: Vec<u8>)
        ensures
            r@ == request_line(self.op, pairs_view(self.args@)),
    {
        let mut out = crate::bytes::str_bytes(self.op.name());
        out.push(SPACE);
        let body = serialize_pairs(&self.args);
        append_bytes(&mut out, body.as_slice());
        out.push(CR);
        out.push(LF);
        assert(out@ =~= request_line(self.op, pairs_view(self.args@)));
        out
    }

    /// The arguments with one pair per key, holding the last value given.
    pub fn args_hash(&self) -> (r: Vec<(Vec<u8>, Vec<u8>)>)
        ensures
            forall|k: Seq<u8>| #[trigger] find_first(pairs_view(r@), k) == lookup(pairs_view(self.args@), k),
            forall|i: int, j: int| 0 <= i < j < r@.len() ==> r@[i].0@ != r@[j].0@,
    {
        let ghost a = pairs_view(self.args@);
        let mut out: Vec<(Vec<u8>, Vec<u8>)> = Vec::new();
        let mut i: usize = self.args.len();
        assert(a.take(i as int) =~= a);
        while i > 0
            invariant
                i <= self.args@.len(),
                a == pairs_view(self.args@),
                forall|k: Seq<u8>| {
                    let f = #[trigger] find_first(pairs_view(out@), k);
                    &&& f is Some ==> f == lookup(a, k)
                    &&& f is None ==> lookup(a, k) == lookup(a.take(i as int), k)
                },
                forall|x: int, y: int| 0 <= x < y < out@.len() ==> out@[x].0@ != out@[y].0@,
            decreases i,
        {
            i = i - 1;
            let ghost p = a[i as int];
            assert(a.take(i as int + 1).drop_last() =~= a.take(i as int));
            assert(a.take(i as int + 1).last() == p);
            let ghost before = pairs_view(out@);
            let ghost old_out = out@;
            assert(self.args@[i as int].0@ == p.0);
            if !has_key(&out, self.args[i].0.as_slice()) {
                let k = copy_bytes(self.args[i].0.as_slice());
                let v = copy_bytes(self.args[i].1.as_slice());
                out.push((k, v));
                proof {
                    assert(pairs_view(out@) =~= before.push(p));
                    assert(pairs_view(out@).drop_last() =~= before);
                    lemma_find_first_some(before, p.0);
                    assert forall|x: int, y: int| 0 <= x < y < out@.len() implies out@[x].0@ != out@[y].0@ by {
                        if y == out@.len() - 1 {
                            assert(out@[y].0@ == p.0);
                            assert(before[x].0 == old_out[x].0@);
                        } else {
                            assert(out@[x] == old_out[x]);
                            assert(out@[y] == old_out[y]);
                        }
                    }
                }
            }
            proof {
                assert forall|k: Seq<u8>| {
                    let f = #[trigger] find_first(pairs_view(out@), k);
                    &&& f is Some ==> f == lookup(a, k)
                    &&& f is None ==> lookup(a, k) == lookup(a.take(i as int), k)
                } by {
                    let f0 = find_first(before, k);
                    assert(lookup(a.take(i as int + 1), k) == if p.0 == k {
                        Some(p.1)
                    } else {
                        lookup(a.take(i as int), k)
                    });
                }
            }
        }
        assert forall|k: Seq<u8>| #[trigger] find_first(pairs_view(out@), k) == lookup(a, k) by {
            assert(lookup(a.take(0), k) is None);
        }
        out
    }
}

/// The response from the tracker: argument pairs, or an error.
#[derive(Debug)]
pub struct Response(pub MogResult<Vec<(Vec<u8>, Vec<u8>)>>);

/// The line that carries a response.
pub open spec fn response_line(r: Response) -> Seq<u8> {
    match r.0 {
        Ok(args) => ascii_bytes("OK"@) + seq![SPACE] + serialize(pairs_view(args@)) + crlf(),
        Err(e) => ascii_bytes("ERR"@) + seq![SPACE] + ascii_bytes(kind_name(e)) + seq![SPACE] + encode(
            description(e),
        ) + crlf(),
    }
}

/// What reading a response line gives: the pairs after `OK`; the error
/// named after `ERR` with its decoded description; otherwise an unknown
/// response carrying the decoded first token.
pub open spec fn response_read(line: Seq<u8>, r: Response) -> bool {
    let body = strip_crlf(line);
    let head = head_token(body);
    let rest = tail_after_space(body);
    if head == ascii_bytes("OK"@) {
        r.0 matches Ok(args) && pairs_view(args@) == parse(rest)
    } else if head == ascii_bytes("ERR"@) {
        r.0 matches Err(e) && error_matches_wire(e, head_token(rest), decode(tail_after_space(rest)))
    } else {
        r.0 matches Err(MogError::UnknownResponse(t)) && t@ == decode(head)
    }
}

impl From<MogResult<Response>> for Response {
    /// An error in place of a response becomes an error response.
    fn from(result: MogResult<Response>) -> (r: Response) {
        match result {
            Ok(response) => response,
            Err(err) => Response(Err(err)),
        }
    }
}

impl vstd::std_specs::convert::FromSpecImpl<MogResult<Response>> for Response {
    open spec fn obeys_from_spec() -> bool {
        true
    }

    open spec fn from_spec(result: MogResult<Response>) -> Response {
        match result {
            Ok(response) => response,
            Err(err) => Response(Err(err)),
        }
    }
}

/// Two responses that say the same thing.
pub open spec fn same_response(a: Response, b: Response) -> bool {
    match (a.0, b.0) {
        (Ok(x), Ok(y)) => pairs_view(x@) == pairs_view(y@),
        (Err(x), Err(y)) => same_error(x, y),
        _ => false,
    }
}

impl Response {
    /// The line that carries this response.
    pub fn render(&self) -> (r: Vec<u8>)
        ensures
            r@ == response_line(*self),
    {
        proof {
            reveal_strlit("OK");
            reveal_strlit("ERR");
        }
        match &self.0 {
            Ok(args) => {
                let mut out = crate::bytes::str_bytes("OK");
                out.push(SPACE);
                let body = serialize_pairs(args);
                append_bytes(&mut out, body.as_slice());
                out.push(CR);
                out.push(LF);
                assert(out@ =~= response_line(*self));
                out
            },
            Err(e) => {
                let mut out = crate::bytes::str_bytes("ERR");
                out.push(SPACE);
                let kind = crate::bytes::str_bytes(e.error_kind());
                append_bytes(&mut out, kind.as_slice());
                out.push(SPACE);
                let d = e.description();
                encode_into(&mut out, d.as_slice());
                out.push(CR);
                out.push(LF);
                assert(out@ =~= response_line(*self));
                out
            },
        }
    }

    /// Reads a response line; a trailing CRLF is ignored.
    pub fn from_bytes(bytes: &[u8]) -> (r: Response)
        ensures
            response_read(bytes@, r),
    {
        proof {
            reveal_strlit("OK");
            reveal_strlit("ERR");
        }
        let body = strip_line_end(bytes);
        let (head, rest) = split_first_space(body);
        if is_named(head, "OK") {
            Response(Ok(parse_pairs(rest)))
        } else if is_named(head, "ERR") {
            let (kind, desc) = split_first_space(rest);
            let d = decode_bytes(desc);
            Response(Err(MogError::from_wire(kind, d.as_slice())))
        } else {
            Response(Err(MogError::UnknownResponse(decode_bytes(head))))
        }
    }
}


pub proof fn lemma_serialize_no_space(args: Seq<(Seq<u8>, Seq<u8>)>)
    ensures
        forall|i: int| 0 <= i < serialize(args).len() ==> #[trigger] serialize(args)[i] != SPACE,
    decreases args.len(),
{
    if args.len() > 0 {
        let p = args[0];
        let sp = serialize_pair(p);
        lemma_encode_all_encoded(p.0);
        lemma_encode_all_encoded(p.1);
        assert forall|i: int| 0 <= i < sp.len() implies #[trigger] sp[i] != SPACE by {
            let k = encode(p.0);
            if i < k.len() {
                assert(sp[i] == k[i]);
                assert(is_encoded_byte(k[i]));
            } else if i > k.len() {
                assert(sp[i] == encode(p.1)[i - k.len() - 1]);
                assert(is_encoded_byte(encode(p.1)[i - k.len() - 1]));
            }
        }
        if args.len() > 1 {
            lemma_serialize_no_space(args.drop_first());
            let r = serialize(args.drop_first());
            assert forall|i: int| 0 <= i < serialize(args).len() implies #[trigger] serialize(args)[i] != SPACE by {
                if i < sp.len() {
                    assert(serialize(args)[i] == sp[i]);
                } else if i > sp.len() {
                    assert(serialize(args)[i] == r[i - sp.len() - 1]);
                }
            }
        }
    }
}

pub proof fn lemma_strip_crlf(x: Seq<u8>)
    ensures
        strip_crlf(x + crlf()) == x,
{
    assert((x + crlf()).take(x.len() as int) =~= x);
}

/// Splitting `a`, a word without spaces, followed by a space and `b`,
/// gives back `a` and `b`.
pub proof fn lemma_split_word(a: Seq<u8>, b: Seq<u8>)
    requires
        forall|i: int| 0 <= i < a.len() ==> #[trigger] a[i] != SPACE,
    ensures
        head_token(a + seq![SPACE] + b) == a,
        tail_after_space(a + seq![SPACE] + b) == b,
{
    let s = a + seq![SPACE] + b;
    assert forall|j: int| 0 <= j < a.len() implies s[j] != SPACE by {
        assert(s[j] == a[j]);
    }
    lemma_first_index_at(s, SPACE, a.len() as int);
    assert(s.take(a.len() as int) =~= a);
    assert(s.skip(a.len() as int + 1) =~= b);
}

/// A request read back from its own line is the request: the same
/// operation and the same arguments in the same order.
pub proof fn lemma_request_round_trip(req: Request, back: MogResult<Request>)
    requires
        request_read(request_line(req.op, pairs_view(req.args@)), back),
    ensures
        back matches Ok(b) && b.op == req.op && pairs_view(b.args@) == pairs_view(req.args@),
{
    let n = ascii_bytes(op_name(req.op));
    let body = serialize(pairs_view(req.args@));
    lemma_strip_crlf(n + seq![SPACE] + body);
    lemma_op_name_round_trip(req.op);
    lemma_split_word(n, body);
    lemma_parse_serialize(pairs_view(req.args@));
}

/// A response read back from its own line says the same thing.
pub proof fn lemma_response_round_trip(resp: Response, back: Response)
    requires
        response_read(response_line(resp), back),
    ensures
        same_response(back, resp),
{
    reveal_strlit("OK");
    reveal_strlit("ERR");
    let ok = ascii_bytes("OK"@);
    let err = ascii_bytes("ERR"@);
    assert(ok.len() == 2);
    assert(err.len() == 3);
    assert(forall|i: int| 0 <= i < ok.len() ==> #[trigger] ok[i] != SPACE);
    assert(forall|i: int| 0 <= i < err.len() ==> #[trigger] err[i] != SPACE);
    match resp.0 {
        Ok(args) => {
            let body = serialize(pairs_view(args@));
            lemma_strip_crlf(ok + seq![SPACE] + body);
            lemma_split_word(ok, body);
            lemma_parse_serialize(pairs_view(args@));
        },
        Err(e) => {
            let k = ascii_bytes(kind_name(e));
            let d = encode(description(e));
            lemma_kind_name_word(e);
            let rest = k + seq![SPACE] + d;
            assert(err + seq![SPACE] + k + seq![SPACE] + d =~= err + seq![SPACE] + rest);
            lemma_strip_crlf(err + seq![SPACE] + rest);
            lemma_split_word(err, rest);
            lemma_split_word(k, d);
            lemma_decode_encode(description(e));
            assert(err != ok);
            match back.0 {
                Err(b) => {
                    lemma_error_wire_round_trip(e, b);
                },
                Ok(_) => {},
            }
        },
    }
}

} // verus!
