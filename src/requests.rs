//! The typed operations and their results.
use vstd::prelude::*;
use crate::bytes::{ascii_bytes, is_named, copy_bytes, str_bytes, append_bytes, opt_view};
use crate::decimal::{decimal, decimal_value, parse_decimal, to_decimal};
use crate::error::{MogError, MogResult};
use crate::form::pairs_view;
use crate::message::lookup;

verus! {

pub type Pairs = Seq<(Seq<u8>, Seq<u8>)>;

/// The value of argument `name`; the last one given wins.
pub open spec fn arg_of(args: Pairs, name: Seq<char>) -> Option<Seq<u8>> {
    lookup(args, ascii_bytes(name))
}

/// The value of argument `name` when it is given and not empty.
pub open spec fn required(args: Pairs, name: Seq<char>) -> Option<Seq<u8>> {
    match arg_of(args, name) {
        Some(v) => if v.len() > 0 {
            Some(v)
        } else {
            None
        },
        None => None,
    }
}

/// A numeric argument: its value when it is given and reads as a number.
pub open spec fn number_of(args: Pairs, name: Seq<char>) -> Option<u64> {
    match arg_of(args, name) {
        Some(v) => decimal_value(v),
        None => None,
    }
}

/// The value of argument `name`, if given.
pub fn arg(args: &Vec<(Vec<u8>, Vec<u8>)>, name: &str) -> (r: Option<Vec<u8>>)
    requires
        name.is_ascii(),
    ensures
        opt_view(r) == arg_of(pairs_view(args@), name@),
{
    let ghost a = pairs_view(args@);
    let ghost k = ascii_bytes(name@);
    let mut i: usize = args.len();
    assert(a.take(i as int) =~= a);
    while i > 0
        invariant
            i <= args@.len(),
            a == pairs_view(args@),
            k == ascii_bytes(name@),
            name.is_ascii(),
            lookup(a, k) == lookup(a.take(i as int), k),
        decreases i,
    {
        i = i - 1;
        let ghost t = a.take(i as int + 1);
        assert(t.drop_last() =~= a.take(i as int));
        assert(t.last() == a[i as int]);
        if is_named(args[i].0.as_slice(), name) {
            return Some(copy_bytes(args[i].1.as_slice()));
        }
    }
    None
}

/// The value of a required argument, or `missing`.
fn required_arg(args: &Vec<(Vec<u8>, Vec<u8>)>, name: &str, missing: MogError) -> (r: MogResult<Vec<u8>>)
    requires
        name.is_ascii(),
    ensures
        match required(pairs_view(args@), name@) {
            Some(v) => r matches Ok(x) && x@ == v,
            None => r == Err::<Vec<u8>, MogError>(missing),
        },
{
    match arg(args, name) {
        Some(v) => if v.len() > 0 {
            Ok(v)
        } else {
            Err(missing)
        },
        None => Err(missing),
    }
}

fn number_arg(args: &Vec<(Vec<u8>, Vec<u8>)>, name: &str) -> (r: Option<u64>)
    requires
        name.is_ascii(),
    ensures
        r == number_of(pairs_view(args@), name@),
{
    match arg(args, name) {
        Some(v) => parse_decimal(v.as_slice()),
        None => None,
    }
}

/// A pair whose name and value are given as ASCII and bytes.
pub open spec fn pair_of(name: Seq<char>, v: Seq<u8>) -> (Seq<u8>, Seq<u8>) {
    (ascii_bytes(name), v)
}

fn named_pair(name: &str, v: Vec<u8>) -> (r: (Vec<u8>, Vec<u8>))
    requires
        name.is_ascii(),
    ensures
        (r.0@, r.1@) == pair_of(name@, v@),
{
    (str_bytes(name), v)
}

/// `stem` followed by the decimal of `i`.
pub open spec fn numbered(stem: Seq<char>, i: nat) -> Seq<u8> {
    ascii_bytes(stem) + decimal(i)
}

fn numbered_name(stem: &str, i: u64) -> (r: Vec<u8>)
    requires
        stem.is_ascii(),
    ensures
        r@ == numbered(stem@, i as nat),
{
    let mut n = str_bytes(stem);
    let d = to_decimal(i);
    append_bytes(&mut n, d.as_slice());
    n
}

#[derive(Debug)]
pub struct CreateDomain {
    pub domain: Vec<u8>,
}

#[derive(Debug)]
pub struct CreateOpen {
    pub domain: Vec<u8>,
    pub class: Option<Vec<u8>>,
    pub key: Vec<u8>,
    pub multi_dest: bool,
    pub size: Option<u64>,
}

#[derive(Debug)]
pub struct CreateClose {
    pub domain: Vec<u8>,
    pub key: Vec<u8>,
    pub fid: u64,
    pub devid: u64,
    pub path: Vec<u8>,
    pub checksum: Option<Vec<u8>>,
}

#[derive(Debug)]
pub struct GetPaths {
    pub domain: Vec<u8>,
    pub key: Vec<u8>,
}

#[derive(Debug)]
pub struct FileInfo {
    pub domain: Vec<u8>,
    pub key: Vec<u8>,
}

#[derive(Debug)]
pub struct Rename {
    pub domain: Vec<u8>,
    pub from_key: Vec<u8>,
    pub to_key: Vec<u8>,
}

#[derive(Debug)]
pub struct UpdateClass {
    pub domain: Vec<u8>,
    pub key: Vec<u8>,
    pub class: Vec<u8>,
}

#[derive(Debug)]
pub struct Delete {
    pub domain: Vec<u8>,
    pub key: Vec<u8>,
}

#[derive(Debug)]
pub struct ListKeys {
    pub domain: Vec<u8>,
    pub prefix: Option<Vec<u8>>,
    pub after: Option<Vec<u8>>,
    pub limit: Option<u32>,
}

#[derive(Debug)]
pub struct CreateClass {
    pub domain: Vec<u8>,
    pub class: Vec<u8>,
    pub mindevcount: u64,
}

#[derive(Debug)]
pub struct CreateClassResponse {
    pub domain: Vec<u8>,
    pub class: Vec<u8>,
    pub mindevcount: u64,
}

/// Where to write a reserved file: its fid and its destinations, each a
/// device id and a URL.
#[derive(Debug)]
pub struct CreateOpenResponse {
    pub fid: u64,
    pub paths: Vec<(u64, Vec<u8>)>,
}

#[derive(Debug)]
pub struct GetPathsResponse(pub Vec<Vec<u8>>);

#[derive(Debug)]
pub struct FileInfoResponse {
    pub fid: u64,
    pub devcount: u64,
    pub length: u64,
    pub domain: Vec<u8>,
    pub class: Vec<u8>,
    pub key: Vec<u8>,
}

#[derive(Debug)]
pub struct ListKeysResponse(pub Vec<Vec<u8>>);

/// The domain argument, required.
pub open spec fn domain_arg(args: Pairs) -> Option<Seq<u8>> {
    required(args, "domain"@)
}

/// The key argument, required.
pub open spec fn key_arg(args: Pairs) -> Option<Seq<u8>> {
    required(args, "key"@)
}

/// Reads the domain and key that most operations take.
fn domain_and_key(args: &Vec<(Vec<u8>, Vec<u8>)>) -> (r: MogResult<(Vec<u8>, Vec<u8>)>)
    ensures
        domain_arg(pairs_view(args@)) is None ==> r matches Err(MogError::NoDomain),
        domain_arg(pairs_view(args@)) is Some && key_arg(pairs_view(args@)) is None ==> r matches Err(MogError::NoKey),
        domain_arg(pairs_view(args@)) is Some && key_arg(pairs_view(args@)) is Some ==> (r matches Ok(p)
            && Some(p.0@) == domain_arg(pairs_view(args@)) && Some(p.1@) == key_arg(pairs_view(args@))),
{
    proof {
        reveal_strlit("domain");
        reveal_strlit("key");
    }
    let d = required_arg(args, "domain", MogError::NoDomain)?;
    let k = required_arg(args, "key", MogError::NoKey)?;
    Ok((d, k))
}

impl CreateDomain {
    pub fn from_args(args: &Vec<(Vec<u8>, Vec<u8>)>) -> (r: MogResult<CreateDomain>)
        ensures
            match domain_arg(pairs_view(args@)) {
                Some(d) => r matches Ok(c) && c.domain@ == d,
                None => r matches Err(MogError::NoDomain),
            },
    {
        proof {
            reveal_strlit("domain");
        }
        let d = required_arg(args, "domain", MogError::NoDomain)?;
        Ok(CreateDomain { domain: d })
    }

    /// `domain`, echoed.
    pub fn to_args(&self) -> (r: Vec<(Vec<u8>, Vec<u8>)>)
        ensures
            pairs_view(r@) == seq![pair_of("domain"@, self.domain@)],
    {
        proof {
            reveal_strlit("domain");
        }
        let mut r: Vec<(Vec<u8>, Vec<u8>)> = Vec::new();
        r.push(named_pair("domain", copy_bytes(self.domain.as_slice())));
        assert(pairs_view(r@) =~= seq![pair_of("domain"@, self.domain@)]);
        r
    }
}

impl CreateOpen {
    pub fn from_args(args: &Vec<(Vec<u8>, Vec<u8>)>) -> (r: MogResult<CreateOpen>)
        ensures
            domain_arg(pairs_view(args@)) is None ==> r matches Err(MogError::NoDomain),
            domain_arg(pairs_view(args@)) is Some && key_arg(pairs_view(args@)) is None ==> r matches Err(MogError::NoKey),
            domain_arg(pairs_view(args@)) is Some && key_arg(pairs_view(args@)) is Some ==> (r matches Ok(c)
                && Some(c.domain@) == domain_arg(pairs_view(args@)) && Some(c.key@) == key_arg(pairs_view(args@))
                && opt_view(c.class) == arg_of(pairs_view(args@), "class"@)
                && c.size == number_of(pairs_view(args@), "size"@)
                && c.multi_dest == (arg_of(pairs_view(args@), "multi_dest"@) == Some(ascii_bytes("1"@)))),
    {
        let (domain, key) = domain_and_key(args)?;
        proof {
            reveal_strlit("class");
            reveal_strlit("size");
            reveal_strlit("multi_dest");
            reveal_strlit("1");
        }
        let multi_dest = match arg(args, "multi_dest") {
            Some(v) => is_named(v.as_slice(), "1"),
            None => false,
        };
        Ok(CreateOpen { domain, class: arg(args, "class"), key, multi_dest, size: number_arg(args, "size") })
    }
}

impl CreateClose {
    /// Reads a close; a device id or fid that is absent or not a number
    /// reads as 0.
    pub fn from_args(args: &Vec<(Vec<u8>, Vec<u8>)>) -> (r: MogResult<CreateClose>)
        ensures
            domain_arg(pairs_view(args@)) is None ==> r matches Err(MogError::NoDomain),
            domain_arg(pairs_view(args@)) is Some && key_arg(pairs_view(args@)) is None ==> r matches Err(MogError::NoKey),
            domain_arg(pairs_view(args@)) is Some && key_arg(pairs_view(args@)) is Some ==> (r matches Ok(c)
                && Some(c.domain@) == domain_arg(pairs_view(args@)) && Some(c.key@) == key_arg(pairs_view(args@))),
    {
        let (domain, key) = domain_and_key(args)?;
        proof {
            reveal_strlit("fid");
            reveal_strlit("devid");
            reveal_strlit("path");
            reveal_strlit("checksum");
        }
        let fid = match number_arg(args, "fid") {
            Some(n) => n,
            None => 0,
        };
        let devid = match number_arg(args, "devid") {
            Some(n) => n,
            None => 0,
        };
        let path = match arg(args, "path") {
            Some(p) => p,
            None => Vec::new(),
        };
        Ok(CreateClose { domain, key, fid, devid, path, checksum: arg(args, "checksum") })
    }
}

impl GetPaths {
    pub fn from_args(args: &Vec<(Vec<u8>, Vec<u8>)>) -> (r: MogResult<GetPaths>)
        ensures
            domain_arg(pairs_view(args@)) is None ==> r matches Err(MogError::NoDomain),
            domain_arg(pairs_view(args@)) is Some && key_arg(pairs_view(args@)) is None ==> r matches Err(MogError::NoKey),
            domain_arg(pairs_view(args@)) is Some && key_arg(pairs_view(args@)) is Some ==> (r matches Ok(c)
                && Some(c.domain@) == domain_arg(pairs_view(args@)) && Some(c.key@) == key_arg(pairs_view(args@))),
    {
        let (domain, key) = domain_and_key(args)?;
        Ok(GetPaths { domain, key })
    }
}

impl FileInfo {
    pub fn from_args(args: &Vec<(Vec<u8>, Vec<u8>)>) -> (r: MogResult<FileInfo>)
        ensures
            domain_arg(pairs_view(args@)) is None ==> r matches Err(MogError::NoDomain),
            domain_arg(pairs_view(args@)) is Some && key_arg(pairs_view(args@)) is None ==> r matches Err(MogError::NoKey),
            domain_arg(pairs_view(args@)) is Some && key_arg(pairs_view(args@)) is Some ==> (r matches Ok(c)
                && Some(c.domain@) == domain_arg(pairs_view(args@)) && Some(c.key@) == key_arg(pairs_view(args@))),
    {
        let (domain, key) = domain_and_key(args)?;
        Ok(FileInfo { domain, key })
    }
}

impl Delete {
    pub fn from_args(args: &Vec<(Vec<u8>, Vec<u8>)>) -> (r: MogResult<Delete>)
        ensures
            domain_arg(pairs_view(args@)) is None ==> r matches Err(MogError::NoDomain),
            domain_arg(pairs_view(args@)) is Some && key_arg(pairs_view(args@)) is None ==> r matches Err(MogError::NoKey),
            domain_arg(pairs_view(args@)) is Some && key_arg(pairs_view(args@)) is Some ==> (r matches Ok(c)
                && Some(c.domain@) == domain_arg(pairs_view(args@)) && Some(c.key@) == key_arg(pairs_view(args@))),
    {
        let (domain, key) = domain_and_key(args)?;
        Ok(Delete { domain, key })
    }
}

impl UpdateClass {
    pub fn from_args(args: &Vec<(Vec<u8>, Vec<u8>)>) -> (r: MogResult<UpdateClass>)
        ensures
            domain_arg(pairs_view(args@)) is None ==> r matches Err(MogError::NoDomain),
            domain_arg(pairs_view(args@)) is Some && key_arg(pairs_view(args@)) is None ==> r matches Err(MogError::NoKey),
            domain_arg(pairs_view(args@)) is Some && key_arg(pairs_view(args@)) is Some ==> r is Ok,
    {
        let (domain, key) = domain_and_key(args)?;
        proof {
            reveal_strlit("class");
        }
        let class = match arg(args, "class") {
            Some(c) => c,
            None => Vec::new(),
        };
        Ok(UpdateClass { domain, key, class })
    }
}

/// The keys of a rename, each required.
pub open spec fn from_key_arg(args: Pairs) -> Option<Seq<u8>> {
    required(args, "from_key"@)
}

pub open spec fn to_key_arg(args: Pairs) -> Option<Seq<u8>> {
    required(args, "to_key"@)
}

impl Rename {
    pub fn from_args(args: &Vec<(Vec<u8>, Vec<u8>)>) -> (r: MogResult<Rename>)
        ensures
            domain_arg(pairs_view(args@)) is None ==> r matches Err(MogError::NoDomain),
            domain_arg(pairs_view(args@)) is Some && (from_key_arg(pairs_view(args@)) is None
                || to_key_arg(pairs_view(args@)) is None) ==> r matches Err(MogError::NoKey),
            domain_arg(pairs_view(args@)) is Some && from_key_arg(pairs_view(args@)) is Some
                && to_key_arg(pairs_view(args@)) is Some ==> (r matches Ok(c)
                && Some(c.domain@) == domain_arg(pairs_view(args@))
                && Some(c.from_key@) == from_key_arg(pairs_view(args@))
                && Some(c.to_key@) == to_key_arg(pairs_view(args@))),
    {
        proof {
            reveal_strlit("domain");
            reveal_strlit("from_key");
            reveal_strlit("to_key");
        }
        let domain = required_arg(args, "domain", MogError::NoDomain)?;
        let from_key = required_arg(args, "from_key", MogError::NoKey)?;
        let to_key = required_arg(args, "to_key", MogError::NoKey)?;
        Ok(Rename { domain, from_key, to_key })
    }
}

/// A limit that reads as a number and fits in 32 bits.
pub open spec fn limit_of(args: Pairs) -> Option<u32> {
    match number_of(args, "limit"@) {
        Some(n) => if n <= u32::MAX { Some(n as u32) } else { None },
        None => None,
    }
}

impl ListKeys {
    /// Reads a listing; a limit that is not a number is taken as absent.
    pub fn from_args(args: &Vec<(Vec<u8>, Vec<u8>)>) -> (r: MogResult<ListKeys>)
        ensures
            match domain_arg(pairs_view(args@)) {
                None => r matches Err(MogError::NoDomain),
                Some(d) => r matches Ok(c) && c.domain@ == d
                    && opt_view(c.prefix) == arg_of(pairs_view(args@), "prefix"@)
                    && opt_view(c.after) == arg_of(pairs_view(args@), "after"@)
                    && c.limit == limit_of(pairs_view(args@)),
            },
    {
        proof {
            reveal_strlit("domain");
            reveal_strlit("prefix");
            reveal_strlit("after");
            reveal_strlit("limit");
        }
        let domain = required_arg(args, "domain", MogError::NoDomain)?;
        let limit = match number_arg(args, "limit") {
            Some(n) => if n <= u32::MAX as u64 {
                Some(n as u32)
            } else {
                None
            },
            None => None,
        };
        Ok(ListKeys { domain, prefix: arg(args, "prefix"), after: arg(args, "after"), limit })
    }
}

/// The arguments of a `create_open` answer: the fid, the number of
/// destinations, then each destination's device id and URL, numbered from 1.
pub open spec fn create_open_args(fid: u64, paths: Seq<(u64, Seq<u8>)>) -> Pairs {
    seq![pair_of("fid"@, decimal(fid as nat)), pair_of("dev_count"@, decimal(paths.len()))]
        + Seq::new(2 * paths.len(), |j: int| if j % 2 == 0 {
            (numbered("devid_"@, (j / 2 + 1) as nat), decimal(paths[j / 2].0 as nat))
        } else {
            (numbered("path_"@, (j / 2 + 1) as nat), paths[j / 2].1)
        })
}

pub open spec fn dest_view(paths: Seq<(u64, Vec<u8>)>) -> Seq<(u64, Seq<u8>)> {
    paths.map_values(|p: (u64, Vec<u8>)| (p.0, p.1@))
}

impl CreateOpenResponse {
    pub fn to_args(&self) -> (r: Vec<(Vec<u8>, Vec<u8>)>)
        requires
            self.paths@.len() < u64::MAX,
        ensures
            pairs_view(r@) == create_open_args(self.fid, dest_view(self.paths@)),
    {
        proof {
            reveal_strlit("fid");
            reveal_strlit("dev_count");
            reveal_strlit("devid_");
            reveal_strlit("path_");
        }
        let ghost target = create_open_args(self.fid, dest_view(self.paths@));
        let mut r: Vec<(Vec<u8>, Vec<u8>)> = Vec::new();
        r.push(named_pair("fid", to_decimal(self.fid)));
        r.push(named_pair("dev_count", to_decimal(self.paths.len() as u64)));
        let mut i: usize = 0;
        assert(pairs_view(r@) =~= target.take(2));
        while i < self.paths.len()
            invariant
                i <= self.paths@.len(),
                self.paths@.len() < u64::MAX,
                target == create_open_args(self.fid, dest_view(self.paths@)),
                target.len() == 2 + 2 * self.paths@.len(),
                pairs_view(r@) == target.take(2 + 2 * i),
            decreases self.paths@.len() - i,
        {
            proof {
                reveal_strlit("devid_");
                reveal_strlit("path_");
            }
            let devid = numbered_name("devid_", (i + 1) as u64);
            let dv = to_decimal(self.paths[i].0);
            let path = numbered_name("path_", (i + 1) as u64);
            let pv = copy_bytes(self.paths[i].1.as_slice());
            let ghost before = r@;
            let ghost e1 = (devid@, dv@);
            let ghost e2 = (path@, pv@);
            proof {
                let j = 2 * i as int;
                assert(j / 2 == i as int);
                assert((j + 1) / 2 == i as int);
                assert(j % 2 == 0);
                assert((j + 1) % 2 == 1);
                assert(target[2 + j] == e1);
                assert(target[3 + j] == e2);
                assert(target.take(4 + j) =~= target.take(2 + j).push(e1).push(e2));
            }
            r.push((devid, dv));
            r.push((path, pv));
            assert(pairs_view(r@) =~= pairs_view(before).push(e1).push(e2));
            i = i + 1;
            assert(pairs_view(r@) =~= target.take(2 + 2 * i));
        }
        assert(target.take(2 + 2 * i) =~= target);
        r
    }
}

/// The arguments of a `get_paths` answer: the count, then `path1` onwards.
pub open spec fn get_paths_args(paths: Seq<Seq<u8>>) -> Pairs {
    seq![pair_of("paths"@, decimal(paths.len()))] + Seq::new(paths.len(), |i: int| (numbered("path"@, (i + 1) as nat), paths[i]))
}

impl GetPathsResponse {
    pub fn to_args(&self) -> (r: Vec<(Vec<u8>, Vec<u8>)>)
        requires
            self.0@.len() < u64::MAX,
        ensures
            pairs_view(r@) == get_paths_args(self.0@.map_values(|p: Vec<u8>| p@)),
    {
        proof {
            reveal_strlit("paths");
            reveal_strlit("path");
        }
        let ghost target = get_paths_args(self.0@.map_values(|p: Vec<u8>| p@));
        let mut r: Vec<(Vec<u8>, Vec<u8>)> = Vec::new();
        r.push(named_pair("paths", to_decimal(self.0.len() as u64)));
        let mut i: usize = 0;
        assert(pairs_view(r@) =~= target.take(1));
        while i < self.0.len()
            invariant
                i <= self.0@.len(),
                self.0@.len() < u64::MAX,
                target == get_paths_args(self.0@.map_values(|p: Vec<u8>| p@)),
                target.len() == 1 + self.0@.len(),
                pairs_view(r@) == target.take(1 + i),
            decreases self.0@.len() - i,
        {
            proof {
                reveal_strlit("path");
            }
            let name = numbered_name("path", (i + 1) as u64);
            let v = copy_bytes(self.0[i].as_slice());
            assert(target[1 + i as int] == (name@, v@));
            let ghost before = r@;
            let ghost pv = (name@, v@);
            r.push((name, v));
            assert(pairs_view(r@) =~= pairs_view(before).push(pv));
            assert(target.take(2 + i as int) =~= target.take(1 + i as int).push(target[1 + i as int]));
            i = i + 1;
            assert(pairs_view(r@) =~= target.take(1 + i));
        }
        assert(target.take(1 + i) =~= target);
        r
    }
}

/// The arguments of a `file_info` answer.
pub open spec fn file_info_args(
    domain: Seq<u8>,
    key: Seq<u8>,
    length: u64,
    fid: u64,
    devcount: u64,
    class: Seq<u8>,
) -> Pairs {
    seq![
        pair_of("domain"@, domain),
        pair_of("key"@, key),
        pair_of("length"@, decimal(length as nat)),
        pair_of("fid"@, decimal(fid as nat)),
        pair_of("devcount"@, decimal(devcount as nat)),
        pair_of("class"@, class),
    ]
}

impl FileInfoResponse {
    pub fn to_args(&self) -> (r: Vec<(Vec<u8>, Vec<u8>)>)
        ensures
            pairs_view(r@) == file_info_args(self.domain@, self.key@, self.length, self.fid, self.devcount, self.class@),
    {
        proof {
            reveal_strlit("domain");
            reveal_strlit("key");
            reveal_strlit("length");
            reveal_strlit("fid");
            reveal_strlit("devcount");
            reveal_strlit("class");
        }
        let mut r: Vec<(Vec<u8>, Vec<u8>)> = Vec::new();
        r.push(named_pair("domain", copy_bytes(self.domain.as_slice())));
        r.push(named_pair("key", copy_bytes(self.key.as_slice())));
        r.push(named_pair("length", to_decimal(self.length)));
        r.push(named_pair("fid", to_decimal(self.fid)));
        r.push(named_pair("devcount", to_decimal(self.devcount)));
        r.push(named_pair("class", copy_bytes(self.class.as_slice())));
        assert(pairs_view(r@) =~= file_info_args(self.domain@, self.key@, self.length, self.fid, self.devcount, self.class@));
        r
    }
}

/// The arguments of a `list_keys` answer: the count, `key_1` onwards, and
/// the last key as `next_after` when there is one.
pub open spec fn list_keys_args(keys: Seq<Seq<u8>>) -> Pairs {
    seq![pair_of("key_count"@, decimal(keys.len()))] + Seq::new(keys.len(), |i: int| (numbered("key_"@, (i + 1) as nat), keys[i]))
        + if keys.len() > 0 {
        seq![pair_of("next_after"@, keys.last())]
    } else {
        Seq::empty()
    }
}

impl ListKeysResponse {
    pub fn to_args(&self) -> (r: Vec<(Vec<u8>, Vec<u8>)>)
        requires
            self.0@.len() < u64::MAX,
        ensures
            pairs_view(r@) == list_keys_args(self.0@.map_values(|k: Vec<u8>| k@)),
    {
        proof {
            reveal_strlit("key_count");
            reveal_strlit("key_");
            reveal_strlit("next_after");
        }
        let ghost keys = self.0@.map_values(|k: Vec<u8>| k@);
        let ghost body = seq![pair_of("key_count"@, decimal(keys.len()))] + Seq::new(keys.len(), |i: int| (numbered("key_"@, (i + 1) as nat), keys[i]));
        let mut r: Vec<(Vec<u8>, Vec<u8>)> = Vec::new();
        r.push(named_pair("key_count", to_decimal(self.0.len() as u64)));
        let mut i: usize = 0;
        assert(pairs_view(r@) =~= body.take(1));
        while i < self.0.len()
            invariant
                i <= self.0@.len(),
                self.0@.len() < u64::MAX,
                keys == self.0@.map_values(|k: Vec<u8>| k@),
                body == seq![pair_of("key_count"@, decimal(keys.len()))] + Seq::new(keys.len(), |i: int| (numbered("key_"@, (i + 1) as nat), keys[i])),
                pairs_view(r@) == body.take(1 + i),
            decreases self.0@.len() - i,
        {
            proof {
                reveal_strlit("key_");
            }
            let name = numbered_name("key_", (i + 1) as u64);
            let v = copy_bytes(self.0[i].as_slice());
            assert(body[1 + i as int] == (name@, v@));
            let ghost before = r@;
            let ghost pv = (name@, v@);
            r.push((name, v));
            assert(pairs_view(r@) =~= pairs_view(before).push(pv));
            assert(body.take(2 + i as int) =~= body.take(1 + i as int).push(body[1 + i as int]));
            i = i + 1;
            assert(pairs_view(r@) =~= body.take(1 + i));
        }
        assert(body.take(1 + i) =~= body);
        if self.0.len() > 0 {
            let last = self.0.len() - 1;
            r.push(named_pair("next_after", copy_bytes(self.0[last].as_slice())));
        }
        assert(pairs_view(r@) =~= list_keys_args(keys));
        r
    }
}

/// Destination `i` (counting from 1) of a `create_open` answer, when both
/// its device id and its URL are there.
pub open spec fn dest_at(args: Pairs, i: nat) -> Option<(u64, Seq<u8>)> {
    match (lookup(args, numbered("devid_"@, i)), lookup(args, numbered("path_"@, i))) {
        (Some(d), Some(p)) => match decimal_value(d) {
            Some(n) => Some((n, p)),
            None => None,
        },
        _ => None,
    }
}

/// The answer is well formed: a fid, a count, and every destination up to
/// the count.
pub open spec fn create_open_answer_ok(args: Pairs) -> bool {
    &&& number_of(args, "fid"@) is Some
    &&& number_of(args, "dev_count"@) is Some
    &&& forall|i: nat| 1 <= i <= number_of(args, "dev_count"@).unwrap() ==> (#[trigger] dest_at(args, i)) is Some
}

fn lookup_bytes(args: &Vec<(Vec<u8>, Vec<u8>)>, name: &[u8]) -> (r: Option<Vec<u8>>)
    ensures
        opt_view(r) == lookup(pairs_view(args@), name@),
{
    let ghost a = pairs_view(args@);
    let mut i: usize = args.len();
    assert(a.take(i as int) =~= a);
    while i > 0
        invariant
            i <= args@.len(),
            a == pairs_view(args@),
            lookup(a, name@) == lookup(a.take(i as int), name@),
        decreases i,
    {
        i = i - 1;
        let ghost t = a.take(i as int + 1);
        assert(t.drop_last() =~= a.take(i as int));
        assert(t.last() == a[i as int]);
        if crate::bytes::bytes_eq(args[i].0.as_slice(), name) {
            return Some(copy_bytes(args[i].1.as_slice()));
        }
    }
    None
}

impl CreateOpenResponse {
    /// Reads a `create_open` answer; a malformed one is a bad response.
    pub fn from_args(args: &Vec<(Vec<u8>, Vec<u8>)>) -> (r: MogResult<CreateOpenResponse>)
        ensures
            create_open_answer_ok(pairs_view(args@)) ==> (r matches Ok(c)
                && Some(c.fid) == number_of(pairs_view(args@), "fid"@)
                && c.paths@.len() == number_of(pairs_view(args@), "dev_count"@).unwrap()
                && forall|j: int| 0 <= j < c.paths@.len() ==> Some(#[trigger] dest_view(c.paths@)[j]) == dest_at(pairs_view(args@), (j + 1) as nat)),
            !create_open_answer_ok(pairs_view(args@)) ==> r matches Err(MogError::BadResponse),
    {
        proof {
            reveal_strlit("fid");
            reveal_strlit("dev_count");
        }
        let ghost a = pairs_view(args@);
        let fid = match number_arg(args, "fid") {
            Some(f) => f,
            None => return Err(MogError::BadResponse),
        };
        let count = match number_arg(args, "dev_count") {
            Some(n) => n,
            None => return Err(MogError::BadResponse),
        };
        let mut paths: Vec<(u64, Vec<u8>)> = Vec::new();
        let mut i: u64 = 0;
        while i < count
            invariant
                i <= count,
                a == pairs_view(args@),
                count == number_of(a, "dev_count"@).unwrap(),
                paths@.len() == i,
                forall|j: int| 0 <= j < i ==> Some(#[trigger] dest_view(paths@)[j]) == dest_at(a, (j + 1) as nat),
                forall|j: nat| 1 <= j <= i ==> (#[trigger] dest_at(a, j)) is Some,
            decreases count - i,
        {
            proof {
                reveal_strlit("devid_");
                reveal_strlit("path_");
            }
            let dn = numbered_name("devid_", i + 1);
            let pn = numbered_name("path_", i + 1);
            let d = lookup_bytes(args, dn.as_slice());
            let p = lookup_bytes(args, pn.as_slice());
            match (d, p) {
                (Some(d), Some(p)) => match parse_decimal(d.as_slice()) {
                    Some(devid) => {
                        let ghost before = paths@;
                        paths.push((devid, p));
                        assert(dest_view(paths@) =~= dest_view(before).push(dest_view(paths@).last()));
                        i = i + 1;
                    },
                    None => {
                        assert(dest_at(a, (i + 1) as nat) is None);
                        return Err(MogError::BadResponse);
                    },
                },
                _ => {
                    assert(dest_at(a, (i + 1) as nat) is None);
                    return Err(MogError::BadResponse);
                },
            }
        }
        Ok(CreateOpenResponse { fid, paths })
    }
}

/// Picks one of the answer's destinations uniformly at random.
pub fn choose_destination(resp: &CreateOpenResponse) -> (r: MogResult<(u64, Vec<u8>)>)
    ensures
        resp.paths@.len() == 0 ==> r matches Err(MogError::NoPath),
        resp.paths@.len() > 0 ==> (r matches Ok(p) && exists|j: int| 0 <= j < resp.paths@.len()
            && #[trigger] dest_view(resp.paths@)[j] == (p.0, p.1@)),
{
    match crate::client::random_tracker_index(resp.paths.len()) {
        Err(_) => Err(MogError::NoPath),
        Ok(j) => {
            let p = (resp.paths[j].0, copy_bytes(resp.paths[j].1.as_slice()));
            assert(dest_view(resp.paths@)[j as int] == (p.0, p.1@));
            Ok(p)
        },
    }
}

impl CreateOpen {
    /// The arguments of the request: domain and key, the class when given,
    /// and `multi_dest=1` when several destinations are welcome.
    pub fn to_args(&self) -> (r: Vec<(Vec<u8>, Vec<u8>)>)
        ensures
            pairs_view(r@) == seq![pair_of("domain"@, self.domain@), pair_of("key"@, self.key@)]
                + (match self.class {
                Some(c) => seq![pair_of("class"@, c@)],
                None => Seq::empty(),
            }) + (if self.multi_dest {
                seq![pair_of("multi_dest"@, ascii_bytes("1"@))]
            } else {
                Seq::empty()
            }),
    {
        proof {
            reveal_strlit("domain");
            reveal_strlit("key");
            reveal_strlit("class");
            reveal_strlit("multi_dest");
            reveal_strlit("1");
        }
        let mut r: Vec<(Vec<u8>, Vec<u8>)> = Vec::new();
        r.push(named_pair("domain", copy_bytes(self.domain.as_slice())));
        r.push(named_pair("key", copy_bytes(self.key.as_slice())));
        let ghost base = pairs_view(r@);
        match &self.class {
            Some(c) => {
                r.push(named_pair("class", copy_bytes(c.as_slice())));
            },
            None => {},
        }
        let ghost with_class = pairs_view(r@);
        if self.multi_dest {
            r.push(named_pair("multi_dest", str_bytes("1")));
        }
        assert(pairs_view(r@) =~= seq![pair_of("domain"@, self.domain@), pair_of("key"@, self.key@)]
            + (match self.class {
            Some(c) => seq![pair_of("class"@, c@)],
            None => Seq::empty(),
        }) + (if self.multi_dest {
            seq![pair_of("multi_dest"@, ascii_bytes("1"@))]
        } else {
            Seq::empty()
        }));
        r
    }
}

impl CreateClose {
    /// The arguments of the request: domain, key, fid, device id and path.
    pub fn to_args(&self) -> (r: Vec<(Vec<u8>, Vec<u8>)>)
        ensures
            pairs_view(r@) == seq![
                pair_of("domain"@, self.domain@),
                pair_of("key"@, self.key@),
                pair_of("fid"@, decimal(self.fid as nat)),
                pair_of("devid"@, decimal(self.devid as nat)),
                pair_of("path"@, self.path@),
            ],
    {
        proof {
            reveal_strlit("domain");
            reveal_strlit("key");
            reveal_strlit("fid");
            reveal_strlit("devid");
            reveal_strlit("path");
        }
        let mut r: Vec<(Vec<u8>, Vec<u8>)> = Vec::new();
        r.push(named_pair("domain", copy_bytes(self.domain.as_slice())));
        r.push(named_pair("key", copy_bytes(self.key.as_slice())));
        r.push(named_pair("fid", to_decimal(self.fid)));
        r.push(named_pair("devid", to_decimal(self.devid)));
        r.push(named_pair("path", copy_bytes(self.path.as_slice())));
        assert(pairs_view(r@) =~= seq![
            pair_of("domain"@, self.domain@),
            pair_of("key"@, self.key@),
            pair_of("fid"@, decimal(self.fid as nat)),
            pair_of("devid"@, decimal(self.devid as nat)),
            pair_of("path"@, self.path@),
        ]);
        r
    }
}

/// What the storage side reports of a materialised file.
#[derive(Debug)]
pub struct StorageMetadata {
    pub size: u64,
    /// Seconds since the Unix epoch, UTC.
    pub mtime: i64,
}

} // verus!
