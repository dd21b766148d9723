use mogilefs::backend::MemBackend;
use mogilefs::client::{
    response_from_bytes, upload_accepted, Action, ConnectionState, Event, RequestLoop, Upload, UploadAction, UploadStage,
};
use mogilefs::decimal::{parse_decimal, to_decimal};
use mogilefs::error::MogError;
use mogilefs::form::{decode_bytes, encode_bytes, parse_pairs, serialize_pairs};
use mogilefs::location::BaseUrl;
use mogilefs::message::{Command, Request, Response};
use mogilefs::requests::{choose_destination, CreateClose, CreateOpen, CreateOpenResponse};
use mogilefs::tracker::Tracker;

fn b(s: &str) -> Vec<u8> {
    s.as_bytes().to_vec()
}

fn pair(k: &str, v: &str) -> (Vec<u8>, Vec<u8>) {
    (b(k), b(v))
}

fn tracker() -> Tracker {
    Tracker::new(MemBackend::new(BaseUrl::new(b("http://host"), vec![b("base")])))
}

fn ok_args(line: &[u8]) -> Vec<(Vec<u8>, Vec<u8>)> {
    match Response::from_bytes(line).0 {
        Ok(args) => args,
        Err(e) => panic!("expected OK, got {:?} from {:?}", e, String::from_utf8_lossy(line)),
    }
}

fn value<'a>(args: &'a [(Vec<u8>, Vec<u8>)], k: &str) -> &'a [u8] {
    &args.iter().rev().find(|(n, _)| n == k.as_bytes()).unwrap().1
}

#[test]
fn noop_round_trip() {
    let mut t = tracker();
    assert_eq!(b"OK \r\n".to_vec(), t.handle_bytes(b"noop\r\n"));
}

#[test]
fn create_then_open() {
    let mut t = tracker();
    assert_eq!(b"OK domain=td\r\n".to_vec(), t.handle_bytes(b"create_domain domain=td\r\n"));
    let line = t.handle_bytes(b"create_open domain=td&key=a/b\r\n");
    let args = ok_args(&line);
    assert_eq!(b"1", value(&args, "fid"));
    assert_eq!(b"1", value(&args, "dev_count"));
    assert_eq!(b"1", value(&args, "devid_1"));
    assert_eq!(b"http://host/base/d/td/k/a/b", value(&args, "path_1"));
    assert_eq!(
        b"OK fid=1&dev_count=1&devid_1=1&path_1=http%3A%2F%2Fhost%2Fbase%2Fd%2Ftd%2Fk%2Fa%2Fb\r\n".to_vec(),
        line);
}

#[test]
fn list_pagination() {
    let mut t = tracker();
    for i in 1..=100 {
        t.handle_bytes(format!("create_open domain=td2&key=p/key/{}\r\n", i).as_bytes());
    }
    let first = ok_args(&t.handle_bytes(b"list_keys domain=td2&limit=10\r\n"));
    assert_eq!(b"10", value(&first, "key_count"));
    let mut all: Vec<Vec<u8>> = (1..=100).map(|i| format!("p/key/{}", i).into_bytes()).collect();
    all.sort();
    let first_keys: Vec<Vec<u8>> = (1..=10).map(|i| value(&first, &format!("key_{}", i)).to_vec()).collect();
    assert_eq!(all[0..10].to_vec(), first_keys);
    let last = value(&first, "next_after").to_vec();
    assert_eq!(first_keys[9], last);

    let mut req = b"list_keys domain=td2&limit=10&after=".to_vec();
    req.extend(encode_bytes(&last));
    req.extend(b"\r\n");
    let second = ok_args(&t.handle_bytes(&req));
    let second_keys: Vec<Vec<u8>> = (1..=10).map(|i| value(&second, &format!("key_{}", i)).to_vec()).collect();
    assert_eq!(all[10..20].to_vec(), second_keys);
    assert!(second_keys.iter().all(|k| *k > last));
}

#[test]
fn rename_collision() {
    let mut t = tracker();
    t.handle_bytes(b"create_open domain=td&key=a\r\n");
    t.handle_bytes(b"create_open domain=td&key=b\r\n");
    let line = t.handle_bytes(b"rename domain=td&from_key=a&to_key=b\r\n");
    assert!(line.starts_with(b"ERR key_exists "));
    assert!(line.ends_with(b"\r\n"));
    assert!(t.handle_bytes(b"get_paths domain=td&key=a\r\n").starts_with(b"OK "));
    assert!(t.handle_bytes(b"get_paths domain=td&key=b\r\n").starts_with(b"OK "));
}

#[test]
fn unknown_key() {
    let mut t = tracker();
    assert_eq!(b"ERR unknown_key missing\r\n".to_vec(), t.handle_bytes(b"get_paths domain=td&key=missing\r\n"));
}

#[test]
fn rename_then_paths() {
    let mut t = tracker();
    t.handle_bytes(b"create_open domain=td&key=a\r\n");
    assert_eq!(b"OK \r\n".to_vec(), t.handle_bytes(b"rename domain=td&from_key=a&to_key=c\r\n"));
    let args = ok_args(&t.handle_bytes(b"get_paths domain=td&key=c\r\n"));
    assert_eq!(b"1", value(&args, "paths"));
    assert_eq!(b"http://host/base/d/td/k/c", value(&args, "path1"));
    assert_eq!(b"ERR unknown_key a\r\n".to_vec(), t.handle_bytes(b"get_paths domain=td&key=a\r\n"));
}

#[test]
fn delete_twice() {
    let mut t = tracker();
    t.handle_bytes(b"create_open domain=td&key=x\r\n");
    assert_eq!(b"OK \r\n".to_vec(), t.handle_bytes(b"delete domain=td&key=x\r\n"));
    assert_eq!(b"ERR unknown_key x\r\n".to_vec(), t.handle_bytes(b"get_paths domain=td&key=x\r\n"));
    assert_eq!(b"ERR unknown_key x\r\n".to_vec(), t.handle_bytes(b"delete domain=td&key=x\r\n"));
}

#[test]
fn dispatcher_errors() {
    let mut t = tracker();
    assert_eq!(b"ERR unknown_command \r\n".to_vec(), t.handle_bytes(b"\r\n"));
    assert_eq!(b"ERR unknown_command frobnicate\r\n".to_vec(), t.handle_bytes(b"frobnicate x=1\r\n"));
    assert!(t.handle_bytes(b"\xff\xfe\r\n").starts_with(b"ERR utf8 "));
    assert!(t.handle_bytes(b"get_paths key=a\r\n").starts_with(b"ERR no_domain "));
    assert!(t.handle_bytes(b"get_paths domain=d\r\n").starts_with(b"ERR no_key "));
    assert!(t.handle_bytes(b"create_domain domain=\r\n").starts_with(b"ERR no_domain "));
    t.handle_bytes(b"create_domain domain=td\r\n");
    assert_eq!(b"ERR domain_exists td\r\n".to_vec(), t.handle_bytes(b"create_domain domain=td\r\n"));
    assert_eq!(b"OK \r\n".to_vec(), t.handle_bytes(b"updateclass domain=td&key=a&class=x\r\n"));
    assert_eq!(b"OK \r\n".to_vec(), t.handle_bytes(b"create_close domain=td&key=a&fid=1&devid=1&path=x\r\n"));
}

#[test]
fn file_info_over_the_wire() {
    let mut t = tracker();
    t.handle_bytes(b"create_open domain=td&key=f\r\n");
    assert_eq!(b"ERR no_content f\r\n".to_vec(), t.handle_bytes(b"file_info domain=td&key=f\r\n"));
}

#[test]
fn list_keys_with_prefix_over_the_wire() {
    let mut t = tracker();
    t.handle_bytes(b"create_open domain=td&key=a/1\r\n");
    t.handle_bytes(b"create_open domain=td&key=b/1\r\n");
    t.handle_bytes(b"create_open domain=td&key=a/2\r\n");
    assert_eq!(
        b"OK key_count=2&key_1=a%2F1&key_2=a%2F2&next_after=a%2F2\r\n".to_vec(),
        t.handle_bytes(b"list_keys domain=td&prefix=a/\r\n"));
    assert_eq!(b"OK key_count=0\r\n".to_vec(), t.handle_bytes(b"list_keys domain=none\r\n"));
}

#[test]
fn form_encoding_values() {
    assert_eq!(b("a+b%26c%3D%2F*-._%7E"), encode_bytes(b"a b&c=/*-._~"));
    assert_eq!(b("a b&c=/"), decode_bytes(b"a+b%26c%3d%2F"));
    assert_eq!(b("%zz%4"), decode_bytes(b"%zz%4"));
    let args = vec![pair("k 1", "v&1"), pair("", ""), pair("k", "a=b")];
    let body = serialize_pairs(&args);
    assert_eq!(b("k+1=v%261&=&k=a%3Db"), body);
    assert_eq!(args, parse_pairs(&body));
    assert_eq!(vec![pair("a", ""), pair("b", "c=d")], parse_pairs(b"&&a&b=c=d&"));
}

#[test]
fn request_round_trip() {
    let req = Request { op: Command::CreateOpen, args: vec![pair("domain", "d d"), pair("key", "a/b&c")] };
    let line = req.render();
    assert_eq!(b("create_open domain=d+d&key=a%2Fb%26c\r\n"), line);
    let back = Request::from_bytes(&line).unwrap();
    assert!(matches!(back.op, Command::CreateOpen));
    assert_eq!(req.args, back.args);
    assert_eq!(b("noop \r\n"), Request { op: Command::Noop, args: vec![] }.render());
}

#[test]
fn response_round_trip() {
    let ok = Response(Ok(vec![pair("paths", "1"), pair("path1", "http://x/y")]));
    let line = ok.render();
    assert_eq!(b("OK paths=1&path1=http%3A%2F%2Fx%2Fy\r\n"), line);
    assert_eq!(ok.0.clone().unwrap(), Response::from_bytes(&line).0.unwrap());
    let err = Response(Err(MogError::KeyExists(b("some key"))));
    let line = err.render();
    assert_eq!(b("ERR key_exists some+key\r\n"), line);
    assert_eq!(Err(MogError::KeyExists(b("some key"))), Response::from_bytes(&line).0);
    assert_eq!(Err(MogError::NoDomain), Response::from_bytes(&Response(Err(MogError::NoDomain)).render()).0);
    assert_eq!(Err(MogError::UnknownCommand(None)), Response::from_bytes(&Response(Err(MogError::UnknownCommand(None))).render()).0);
}

#[test]
fn unknown_response_token() {
    assert_eq!(Err(MogError::UnknownResponse(b("WH AT"))), response_from_bytes(b"WH+AT x=1\r\n"));
    assert_eq!(Err(MogError::Other(b("odd thing"))), response_from_bytes(b"ERR strange odd+thing\r\n"));
}

#[test]
fn command_tokens() {
    assert!(matches!(Command::from_optional_bytes(None), Err(MogError::UnknownCommand(None))));
    assert!(matches!(Command::from_optional_bytes(Some(b"")), Err(MogError::UnknownCommand(None))));
    assert!(matches!(Command::from_optional_bytes(Some(b"noop")), Ok(Command::Noop)));
    assert!(matches!(Command::from_optional_bytes(Some(b"list_keys")), Ok(Command::ListKeys)));
    assert!(matches!(Command::from_optional_bytes(Some(b"nope")), Err(MogError::UnknownCommand(Some(ref s))) if s == b"nope"));
    assert!(matches!(Command::from_optional_bytes(Some(b"\xc3\x28")), Err(MogError::Utf8)));
    assert_eq!("updateclass", Command::UpdateClass.name());
}

#[test]
fn args_hash_last_value_wins() {
    let req = Request { op: Command::Noop, args: vec![pair("a", "1"), pair("b", "2"), pair("a", "3")] };
    let mut h = req.args_hash();
    h.sort();
    assert_eq!(vec![pair("a", "3"), pair("b", "2")], h);
}

#[test]
fn decimal_numbers() {
    assert_eq!(b("0"), to_decimal(0));
    assert_eq!(b("18446744073709551615"), to_decimal(u64::MAX));
    assert_eq!(Some(1234), parse_decimal(b"1234"));
    assert_eq!(Some(u64::MAX), parse_decimal(b"18446744073709551615"));
    assert_eq!(None, parse_decimal(b"18446744073709551616"));
    assert_eq!(None, parse_decimal(b""));
    assert_eq!(None, parse_decimal(b"12a"));
}

#[test]
fn error_kinds_and_descriptions() {
    assert_eq!("unknown_key", MogError::UnknownKey(b("k")).error_kind());
    assert_eq!("no_trackers", MogError::NoTrackers.error_kind());
    assert_eq!(b("k"), MogError::UnknownKey(b("k")).description());
    assert_eq!(MogError::StorageError(None), MogError::from_wire(b"storage_error", b""));
    assert_eq!(MogError::Io(b("boom")), MogError::from_wire(b"io", b"boom"));
}

#[test]
fn connection_state_machine() {
    let c = ConnectionState::new();
    assert!(!c.is_connected());
    let c = c.connect(Err(b("refused")));
    assert!(matches!(c, ConnectionState::Error(ref m) if m == b"refused"));
    let c = c.after_io(Ok(()));
    assert!(matches!(c, ConnectionState::Error(_)));
    let (c, err) = c.take_err();
    assert!(matches!(c, ConnectionState::NoConnection));
    assert_eq!(Some(b("refused")), err);
    let c = c.connect(Ok(()));
    assert!(c.is_connected());
    let c = c.after_io(Err(b("reset")));
    assert!(matches!(c, ConnectionState::Error(ref m) if m == b"reset"));
}

/// Runs one request against trackers where only the one at `good` accepts;
/// returns the outcome and the index of the tracker it was answered by.
fn run(hosts: usize, good: usize) -> (Result<Vec<(Vec<u8>, Vec<u8>)>, MogError>, Option<usize>, u32) {
    let (mut s, mut action) = RequestLoop::start(ConnectionState::new(), hosts);
    let mut peer = None;
    let mut connects = 0;
    loop {
        let event = match action {
            Action::Done(res) => return (res, peer, connects),
            Action::Connect(i) => {
                connects += 1;
                if i == good {
                    peer = Some(i);
                    Event::Connected(Ok(()))
                } else {
                    Event::Connected(Err(b("connection refused")))
                }
            },
            Action::Write => Event::Written(Ok(())),
            Action::Read => Event::LineRead(Ok(b("OK \r\n"))),
        };
        let (next, a) = s.step(event);
        s = next;
        action = a;
    }
}

#[test]
fn client_failover() {
    let mut succeeded = false;
    for _ in 0..40 {
        let (res, peer, connects) = run(2, 1);
        assert!(connects <= 3);
        match res {
            Ok(args) => {
                assert!(args.is_empty());
                assert_eq!(Some(1), peer);
                succeeded = true;
            },
            Err(MogError::Io(m)) => {
                assert_eq!(b("connection refused"), m);
                assert_eq!(3, connects);
            },
            Err(e) => panic!("unexpected {:?}", e),
        }
    }
    assert!(succeeded);
}

#[test]
fn client_gives_up_after_three_attempts() {
    let (res, _, connects) = run(2, 99);
    assert_eq!(3, connects);
    assert_eq!(Err(MogError::Io(b("connection refused"))), res);
}

#[test]
fn client_without_trackers() {
    let (res, _, connects) = run(0, 0);
    assert_eq!(0, connects);
    assert_eq!(Err(MogError::NoTrackers), res);
}

#[test]
fn client_reuses_live_connection() {
    let (s, a) = RequestLoop::start(ConnectionState::Connected, 1);
    assert!(matches!(a, Action::Write));
    let (s, a) = s.step(Event::Written(Ok(())));
    assert!(matches!(a, Action::Read));
    let (s, a) = s.step(Event::LineRead(Ok(b("ERR unknown_key k\r\n"))));
    assert!(matches!(a, Action::Done(Err(MogError::UnknownKey(ref k))) if k == b"k"));
    assert!(s.conn.is_connected());
}

#[test]
fn upload_statuses() {
    assert!(upload_accepted(200));
    assert!(upload_accepted(201));
    assert!(!upload_accepted(204));
    assert!(!upload_accepted(500));
}

#[test]
fn upload_plan() {
    let open = CreateOpen { domain: b("d"), class: None, key: b("k"), multi_dest: true, size: None };
    assert_eq!(b("create_open domain=d&key=k&multi_dest=1\r\n"), Request { op: Command::CreateOpen, args: open.to_args() }.render());
    let answer = parse_pairs(b"fid=7&dev_count=2&devid_1=3&path_1=http%3A%2F%2Fa&devid_2=4&path_2=http%3A%2F%2Fb");
    let resp = CreateOpenResponse::from_args(&answer).unwrap();
    assert_eq!(7, resp.fid);
    assert_eq!(vec![(3, b("http://a")), (4, b("http://b"))], resp.paths);
    let (devid, path) = choose_destination(&resp).unwrap();
    assert!(resp.paths.contains(&(devid, path.clone())));
    let close = CreateClose { domain: b("d"), key: b("k"), fid: resp.fid, devid, path, checksum: None };
    let line = Request { op: Command::CreateClose, args: close.to_args() }.render();
    assert!(line.starts_with(b"create_close domain=d&key=k&fid=7&devid="));
    assert!(matches!(CreateOpenResponse::from_args(&parse_pairs(b"fid=7&dev_count=2&devid_1=3&path_1=x")), Err(MogError::BadResponse)));
    let empty = CreateOpenResponse { fid: 1, paths: vec![] };
    assert!(matches!(choose_destination(&empty), Err(MogError::NoPath)));
}

#[test]
fn response_from_result() {
    let inner = Response(Ok(vec![pair("a", "b")]));
    let r: Response = Response::from(Ok(inner));
    assert_eq!(Ok(vec![pair("a", "b")]), r.0);
    let r: Response = Response::from(Err(MogError::NoPath));
    assert_eq!(Err(MogError::NoPath), r.0);
}

#[test]
fn backend_shared_with_storage_side() {
    let mut t = tracker();
    t.handle_bytes(b"create_open domain=td&key=k\r\n");
    t.backend_mut().store_bytes_content(b"td", b"k", b"12345").unwrap();
    let args = ok_args(&t.handle_bytes(b"file_info domain=td&key=k\r\n"));
    assert_eq!(b"5", value(&args, "length"));
    assert_eq!(b"1", value(&args, "fid"));
    assert_eq!(b"default", value(&args, "class"));
    assert_eq!(b"k", value(&args, "key"));
    assert_eq!(b"td", value(&args, "domain"));
    assert_eq!(b"12345".to_vec(), t.backend().get_content(b"td", b"k").unwrap());
}

#[test]
fn read_only_lines_need_no_change() {
    let mut t = tracker();
    t.handle_bytes(b"create_open domain=td&key=a\r\n");
    let r = t.handle_query(b"get_paths domain=td&key=a\r\n").unwrap();
    assert_eq!(b("OK paths=1&path1=http%3A%2F%2Fhost%2Fbase%2Fd%2Ftd%2Fk%2Fa\r\n"), r.render());
    assert_eq!(b("OK \r\n"), t.handle_query(b"noop\r\n").unwrap().render());
    assert!(t.handle_query(b"bogus\r\n").unwrap().0.is_err());
    assert!(t.handle_query(b"delete domain=td&key=a\r\n").is_none());
    assert!(t.handle_query(b"create_domain domain=x\r\n").is_none());
}

#[test]
fn client_ends_disconnected_after_failures() {
    let (s, a) = RequestLoop::start(ConnectionState::Connected, 1);
    assert!(matches!(a, Action::Write));
    let (s, a) = s.step(Event::Written(Err(b("broken pipe"))));
    assert!(matches!(a, Action::Connect(0)));
    let (s, a) = s.step(Event::Connected(Err(b("refused"))));
    assert!(matches!(a, Action::Connect(0)));
    let (s, a) = s.step(Event::Connected(Err(b("refused again"))));
    assert_eq!(3, s.tries);
    assert!(matches!(a, Action::Done(Err(MogError::Io(ref m))) if m == b"refused again"));
    assert!(matches!(s.conn, ConnectionState::NoConnection));
}

#[test]
fn upload_steps() {
    let (u, a) = Upload::start(b("d"), None, b("k"));
    match a {
        UploadAction::Send(req) => assert_eq!(b("create_open domain=d&key=k&multi_dest=1\r\n"), req.render()),
        other => panic!("unexpected {:?}", other),
    }
    let answer = parse_pairs(b"fid=7&dev_count=1&devid_1=3&path_1=http%3A%2F%2Fa%2Fx");
    let (u, a) = u.opened(Ok(answer));
    assert!(matches!(a, UploadAction::Put(ref url) if url == b"http://a/x"));
    assert!(matches!(u.stage, UploadStage::Storing { fid: 7, devid: 3, .. }));
    let (u, a) = u.stored(Ok(201));
    match a {
        UploadAction::Send(req) => assert_eq!(b("create_close domain=d&key=k&fid=7&devid=3&path=http%3A%2F%2Fa%2Fx\r\n"), req.render()),
        other => panic!("unexpected {:?}", other),
    }
    assert!(matches!(u.closed(Ok(vec![])), UploadAction::Done(Ok(ref v)) if v.is_empty()));
}

#[test]
fn upload_stops_after_failed_put() {
    let answer = parse_pairs(b"fid=7&dev_count=1&devid_1=3&path_1=u");
    let (u, _) = Upload::start(b("d"), Some(b("c")), b("k"));
    let (u, _) = u.opened(Ok(answer.clone()));
    let (_, a) = u.stored(Ok(500));
    assert!(matches!(a, UploadAction::Done(Err(MogError::StorageError(Some(ref m)))) if m == b"storage server answered 500"));
    let (u, _) = Upload::start(b("d"), None, b("k"));
    let (u, _) = u.opened(Ok(answer));
    let (_, a) = u.stored(Err(b("connection reset")));
    assert!(matches!(a, UploadAction::Done(Err(MogError::StorageError(Some(ref m)))) if m == b"connection reset"));
    let (u, _) = Upload::start(b("d"), None, b("k"));
    let (_, a) = u.opened(Ok(parse_pairs(b"fid=7&dev_count=0")));
    assert!(matches!(a, UploadAction::Done(Err(MogError::NoPath))));
    let (u, _) = Upload::start(b("d"), None, b("k"));
    let (_, a) = u.opened(Err(MogError::UnknownKey(b("k"))));
    assert!(matches!(a, UploadAction::Done(Err(MogError::UnknownKey(_)))));
}

#[test]
fn client_recovers_after_refused_connect() {
    let (s, a) = RequestLoop::start(ConnectionState::new(), 2);
    assert!(matches!(a, Action::Connect(i) if i < 2));
    let (s, a) = s.step(Event::Connected(Err(b("refused"))));
    assert!(matches!(s.conn, ConnectionState::Error(ref m) if m == b"refused"));
    assert!(matches!(a, Action::Connect(i) if i < 2));
    let (s, a) = s.step(Event::Connected(Ok(())));
    assert!(matches!(a, Action::Write));
    let (s, a) = s.step(Event::Written(Ok(())));
    assert!(matches!(a, Action::Read));
    let (s, a) = s.step(Event::LineRead(Ok(b("OK \r\n"))));
    assert!(matches!(a, Action::Done(Ok(ref v)) if v.is_empty()));
    assert!(s.conn.is_connected());
    assert_eq!(2, s.tries);
}

#[test]
fn empty_optional_description_reads_back_absent() {
    let line = Response(Err(MogError::StorageError(Some(vec![])))).render();
    assert_eq!(b("ERR storage_error \r\n"), line);
    assert_eq!(Err(MogError::StorageError(None)), Response::from_bytes(&line).0);
}
