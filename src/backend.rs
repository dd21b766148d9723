//! The in-memory reference backend: domains of files, the storage base URL
//! and the fid counter.
use vstd::prelude::*;
use crate::bytes::{bytes_eq, copy_bytes, ascii_bytes, str_bytes, opt_view};
use crate::error::{MogError, MogResult};
use crate::location::{BaseUrl, key_url, segs_view};
use crate::model::{FileState, MemDomain, MemFileInfo, listed};
use crate::requests::{
    CreateClass, CreateClassResponse, CreateClose, CreateDomain, CreateOpen, CreateOpenResponse, Delete, FileInfo, FileInfoResponse,
    GetPaths, GetPathsResponse, ListKeys, ListKeysResponse, Rename, StorageMetadata, UpdateClass,
};

verus! {

pub type Files = Map<Seq<u8>, FileState>;

/// The most keys that one listing returns.
pub const MAX_LIST_LIMIT: u32 = 1000;

/// Domains by name.
pub open spec fn domain_map(ds: Seq<(Seq<u8>, Files)>) -> Map<Seq<u8>, Files> {
    Map::new(
        |n: Seq<u8>| exists|i: int| 0 <= i < ds.len() && #[trigger] ds[i].0 == n,
        |n: Seq<u8>| ds[choose|i: int| 0 <= i < ds.len() && #[trigger] ds[i].0 == n].1,
    )
}

pub open spec fn names_unique(ds: Seq<(Seq<u8>, Files)>) -> bool {
    forall|i: int, j: int| 0 <= i < ds.len() && 0 <= j < ds.len() && i != j ==> #[trigger] ds[i].0 != #[trigger] ds[j].0
}

/// The files of a domain; a domain that was never created holds none.
pub open spec fn files_of(v: Map<Seq<u8>, Files>, d: Seq<u8>) -> Files {
    if v.contains_key(d) {
        v[d]
    } else {
        Map::empty()
    }
}

/// The limit that a listing applies: the one asked for, or the default, and
/// never above the maximum.
pub open spec fn effective_limit(limit: Option<u32>) -> nat {
    match limit {
        Some(l) => if l <= MAX_LIST_LIMIT { l as nat } else { MAX_LIST_LIMIT as nat },
        None => MAX_LIST_LIMIT as nat,
    }
}

/// The domains after `create_domain(d)`.
pub open spec fn after_create_domain(v: Map<Seq<u8>, Files>, d: Seq<u8>) -> Map<Seq<u8>, Files> {
    if d.len() == 0 || v.contains_key(d) {
        v
    } else {
        v.insert(d, Map::empty())
    }
}

/// The domains after `delete(d, k)`.
pub open spec fn after_delete(v: Map<Seq<u8>, Files>, d: Seq<u8>, k: Seq<u8>) -> Map<Seq<u8>, Files> {
    if files_of(v, d).contains_key(k) {
        v.insert(d, files_of(v, d).remove(k))
    } else {
        v
    }
}

/// The domains after `rename(d, a, b)`.
pub open spec fn after_rename(v: Map<Seq<u8>, Files>, d: Seq<u8>, a: Seq<u8>, b: Seq<u8>) -> Map<Seq<u8>, Files> {
    let fs = files_of(v, d);
    if !fs.contains_key(b) && fs.contains_key(a) {
        v.insert(d, fs.remove(a).insert(b, FileState { key: b, ..fs[a] }))
    } else {
        v
    }
}

/// The domains after a storage write of `content` at `mtime` to `k`.
pub open spec fn after_store(v: Map<Seq<u8>, Files>, d: Seq<u8>, k: Seq<u8>, content: Seq<u8>, mtime: i64) -> Map<Seq<u8>, Files> {
    let fs = files_of(v, d);
    if fs.contains_key(k) {
        v.insert(d, fs.insert(k, FileState {
            content: Some(content),
            size: Some(content.len() as u64),
            mtime: Some(mtime),
            ..fs[k]
        }))
    } else {
        v
    }
}

/// The domains after `create_open(d, k)` reserved `k` with `fid`.
pub open spec fn after_create_open(v: Map<Seq<u8>, Files>, d: Seq<u8>, k: Seq<u8>, fid: u64) -> Map<Seq<u8>, Files> {
    v.insert(d, files_of(v, d).insert(k, MemFileInfo::reserved(fid, k)))
}

/// Creating a domain twice leaves the backend as creating it once, and the
/// second call finds it there.
pub proof fn lemma_create_domain_idempotent(v: Map<Seq<u8>, Files>, d: Seq<u8>)
    ensures
        after_create_domain(after_create_domain(v, d), d) == after_create_domain(v, d),
        d.len() > 0 ==> after_create_domain(v, d).contains_key(d),
{
}

/// After a delete the key is gone: looking it up, or deleting it again,
/// finds nothing, and the second delete changes nothing.
pub proof fn lemma_delete_forgets(v: Map<Seq<u8>, Files>, d: Seq<u8>, k: Seq<u8>)
    ensures
        !files_of(after_delete(v, d, k), d).contains_key(k),
        after_delete(after_delete(v, d, k), d, k) == after_delete(v, d, k),
{
}

/// A rename keeps the record: the file under the new key has the old fid,
/// content, size and time; the new key is found and the old one is not.
pub proof fn lemma_rename_keeps_record(v: Map<Seq<u8>, Files>, d: Seq<u8>, a: Seq<u8>, b: Seq<u8>)
    requires
        files_of(v, d).contains_key(a),
        !files_of(v, d).contains_key(b),
    ensures
        ({
            let before = files_of(v, d)[a];
            let fs = files_of(after_rename(v, d, a, b), d);
            &&& fs.contains_key(b)
            &&& !fs.contains_key(a)
            &&& fs[b].fid == before.fid
            &&& fs[b].content == before.content
            &&& fs[b].size == before.size
            &&& fs[b].mtime == before.mtime
            &&& fs[b].key == b
        }),
{
}

/// A reserved key that then receives a storage write holds exactly those
/// bytes, with their length as its size and a modification time.
pub proof fn lemma_store_then_read(
    v: Map<Seq<u8>, Files>,
    d: Seq<u8>,
    k: Seq<u8>,
    fid: u64,
    content: Seq<u8>,
    mtime: i64,
)
    ensures
        ({
            let fs = files_of(after_store(after_create_open(v, d, k, fid), d, k, content, mtime), d);
            &&& fs.contains_key(k)
            &&& fs[k].content == Some(content)
            &&& fs[k].size == Some(content.len() as u64)
            &&& fs[k].mtime is Some
            &&& fs[k].fid == fid
        }),
{
}

pub proof fn lemma_domain_map_at(ds: Seq<(Seq<u8>, Files)>, i: int)
    requires
        names_unique(ds),
        0 <= i < ds.len(),
    ensures
        domain_map(ds).contains_key(ds[i].0),
        domain_map(ds)[ds[i].0] == ds[i].1,
{
    assert(domain_map(ds).contains_key(ds[i].0));
}

pub proof fn lemma_domain_map_update(ds: Seq<(Seq<u8>, Files)>, i: int, x: (Seq<u8>, Files))
    requires
        names_unique(ds),
        0 <= i < ds.len(),
        x.0 == ds[i].0,
    ensures
        names_unique(ds.update(i, x)),
        domain_map(ds.update(i, x)) == domain_map(ds).insert(x.0, x.1),
{
    let t = ds.update(i, x);
    assert forall|a: int, b: int| 0 <= a < t.len() && 0 <= b < t.len() && a != b implies #[trigger] t[a].0 != #[trigger] t[b].0 by {
        assert(t[a].0 == ds[a].0);
        assert(t[b].0 == ds[b].0);
    }
    let m = domain_map(ds).insert(x.0, x.1);
    assert forall|n: Seq<u8>| #[trigger] domain_map(t).contains_key(n) <==> m.contains_key(n) by {
        if domain_map(t).contains_key(n) {
            let j = choose|j: int| 0 <= j < t.len() && #[trigger] t[j].0 == n;
            assert(ds[j].0 == n);
        }
        if domain_map(ds).contains_key(n) {
            let j = choose|j: int| 0 <= j < ds.len() && #[trigger] ds[j].0 == n;
            assert(t[j].0 == n);
        }
        assert(t[i].0 == x.0);
    }
    assert forall|n: Seq<u8>| #[trigger] domain_map(t).contains_key(n) implies domain_map(t)[n] == m[n] by {
        let j = choose|j: int| 0 <= j < t.len() && #[trigger] t[j].0 == n;
        lemma_domain_map_at(t, j);
        if j != i {
            lemma_domain_map_at(ds, j);
        }
    }
    assert(domain_map(t) =~= m);
}

pub proof fn lemma_domain_map_push(ds: Seq<(Seq<u8>, Files)>, x: (Seq<u8>, Files))
    requires
        names_unique(ds),
        !domain_map(ds).contains_key(x.0),
    ensures
        names_unique(ds.push(x)),
        domain_map(ds.push(x)) == domain_map(ds).insert(x.0, x.1),
{
    let t = ds.push(x);
    assert forall|a: int, b: int| 0 <= a < t.len() && 0 <= b < t.len() && a != b implies #[trigger] t[a].0 != #[trigger] t[b].0 by {
        if a == ds.len() {
            assert(domain_map(ds).contains_key(ds[b].0));
        } else if b == ds.len() {
            assert(domain_map(ds).contains_key(ds[a].0));
        }
    }
    let m = domain_map(ds).insert(x.0, x.1);
    assert forall|n: Seq<u8>| #[trigger] domain_map(t).contains_key(n) <==> m.contains_key(n) by {
        if domain_map(t).contains_key(n) {
            let j = choose|j: int| 0 <= j < t.len() && #[trigger] t[j].0 == n;
            if j < ds.len() {
                assert(ds[j].0 == n);
            }
        }
        if domain_map(ds).contains_key(n) {
            let j = choose|j: int| 0 <= j < ds.len() && #[trigger] ds[j].0 == n;
            assert(t[j].0 == n);
        }
        assert(t[ds.len() as int].0 == x.0);
    }
    assert forall|n: Seq<u8>| #[trigger] domain_map(t).contains_key(n) implies domain_map(t)[n] == m[n] by {
        let j = choose|j: int| 0 <= j < t.len() && #[trigger] t[j].0 == n;
        lemma_domain_map_at(t, j);
        if j < ds.len() {
            lemma_domain_map_at(ds, j);
        }
    }
    assert(domain_map(t) =~= m);
}

/// Domains by name and contents.
pub open spec fn dseq_of(v: Seq<MemDomain>) -> Seq<(Seq<u8>, Files)> {
    v.map_values(|d: MemDomain| (d.name_spec(), d@))
}

/// Whatever well-formed domain of the same name ends up at index `i`, the
/// domains stay well formed and change at that name only.
pub proof fn lemma_domain_replaced(v: Seq<MemDomain>, i: int)
    requires
        names_unique(dseq_of(v)),
        forall|j: int| 0 <= j < v.len() ==> (#[trigger] v[j]).wf(),
        0 <= i < v.len(),
    ensures
        forall|d: MemDomain| #![trigger v.update(i, d)]
            d.wf() && d.name_spec() == v[i].name_spec() ==> names_unique(dseq_of(v.update(i, d)))
                && (forall|j: int| 0 <= j < v.len() ==> (#[trigger] v.update(i, d)[j]).wf())
                && domain_map(dseq_of(v.update(i, d))) == domain_map(dseq_of(v)).insert(d.name_spec(), d@),
{
    assert forall|d: MemDomain| #![trigger v.update(i, d)]
        d.wf() && d.name_spec() == v[i].name_spec() implies names_unique(dseq_of(v.update(i, d)))
            && (forall|j: int| 0 <= j < v.len() ==> (#[trigger] v.update(i, d)[j]).wf())
            && domain_map(dseq_of(v.update(i, d))) == domain_map(dseq_of(v)).insert(d.name_spec(), d@) by {
        let x = (d.name_spec(), d@);
        assert(dseq_of(v.update(i, d)) =~= dseq_of(v).update(i, x));
        lemma_domain_map_update(dseq_of(v), i, x);
        assert forall|j: int| 0 <= j < v.len() implies (#[trigger] v.update(i, d)[j]).wf() by {
            if j != i {
                assert(v.update(i, d)[j] == v[j]);
            }
        }
    }
}

/// Relies on `time::now_utc`: the current UTC time, read from the clock;
/// nothing is promised of it.
#[verifier::external_body]
fn now_utc_seconds() -> (r: i64) {
    time::now_utc().to_timespec().sec
}

/// The location of `key` in `domain` under `base_url`.
pub fn url_for_key(base_url: &BaseUrl, domain: &[u8], key: &[u8]) -> (r: Vec<u8>)
    ensures
        r@ == key_url(base_url.origin@, segs_view(base_url.segments@), domain@, key@),
{
    base_url.url_for_key(domain, key)
}

/// The in-memory backend: the tracker's and the storage side's operations
/// over one set of domains.
#[derive(Debug)]
pub struct MemBackend {
    domains: Vec<MemDomain>,
    pub base_url: BaseUrl,
    next_fid: u64,
}

impl View for MemBackend {
    type V = Map<Seq<u8>, Files>;

    closed spec fn view(&self) -> Map<Seq<u8>, Files> {
        domain_map(self.dseq())
    }
}

impl MemBackend {
    pub closed spec fn dseq(&self) -> Seq<(Seq<u8>, Files)> {
        dseq_of(self.domains@)
    }

    pub closed spec fn wf(&self) -> bool {
        &&& names_unique(self.dseq())
        &&& forall|i: int| 0 <= i < self.domains@.len() ==> (#[trigger] self.domains@[i]).wf()
    }

    /// The fid that the next `create_open` assigns.
    pub closed spec fn next_fid_spec(&self) -> u64 {
        self.next_fid
    }

    /// The storage base URL: its origin and path segments.
    pub closed spec fn base_spec(&self) -> (Seq<u8>, Seq<Seq<u8>>) {
        (self.base_url.origin@, segs_view(self.base_url.segments@))
    }

    /// The location of a key.
    pub open spec fn url_of(&self, d: Seq<u8>, k: Seq<u8>) -> Seq<u8> {
        key_url(self.base_spec().0, self.base_spec().1, d, k)
    }

    pub open spec fn same_base(&self, other: &MemBackend) -> bool {
        self.base_spec() == other.base_spec()
    }

    /// A backend with no domains whose first fid is 1.
    pub fn new(storage_base_url: BaseUrl) -> (r: MemBackend)
        ensures
            r.wf(),
            r@ == Map::<Seq<u8>, Files>::empty(),
            r.next_fid_spec() == 1,
            r.base_spec() == (storage_base_url.origin@, segs_view(storage_base_url.segments@)),
    {
        let r = MemBackend { domains: Vec::new(), base_url: storage_base_url, next_fid: 1 };
        assert(r@ =~= Map::<Seq<u8>, Files>::empty());
        r
    }

    fn find_domain(&self, name: &[u8]) -> (r: Option<usize>)
        requires
            self.wf(),
        ensures
            match r {
                Some(i) => i < self.domains@.len() && self.domains@[i as int].name_spec() == name@
                    && self@.contains_key(name@) && self@[name@] == self.domains@[i as int]@,
                None => !self@.contains_key(name@),
            },
    {
        let ghost ds = self.dseq();
        let mut i: usize = 0;
        while i < self.domains.len()
            invariant
                ds == self.dseq(),
                names_unique(ds),
                i <= self.domains@.len(),
                forall|j: int| 0 <= j < i ==> (#[trigger] ds[j]).0 != name@,
            decreases self.domains@.len() - i,
        {
            if bytes_eq(self.domains[i].name(), name) {
                proof {
                    lemma_domain_map_at(ds, i as int);
                }
                return Some(i);
            }
            i = i + 1;
        }
        proof {
            if self@.contains_key(name@) {
                let j = choose|j: int| 0 <= j < ds.len() && #[trigger] ds[j].0 == name@;
            }
        }
        None
    }

    /// Puts back a domain taken out at index `i`.
    proof fn lemma_put_back(&self, old_self: &MemBackend, i: int, dom: MemDomain)
        requires
            old_self.wf(),
            0 <= i < old_self.domains@.len(),
            dom.wf(),
            dom.name_spec() == old_self.domains@[i].name_spec(),
            self.domains@ == old_self.domains@.update(i, dom),
        ensures
            self.wf(),
            self@ == old_self@.insert(dom.name_spec(), dom@),
    {
        let x = (dom.name_spec(), dom@);
        assert(self.dseq() =~= old_self.dseq().update(i, x));
        lemma_domain_map_update(old_self.dseq(), i, x);
        assert forall|j: int| 0 <= j < self.domains@.len() implies (#[trigger] self.domains@[j]).wf() by {
            if j != i {
                assert(self.domains@[j] == old_self.domains@[j]);
            }
        }
    }

    /// Index of the domain named `name`, created empty if it is absent.
    fn domain_index_or_create(&mut self, name: &[u8]) -> (i: usize)
        requires
            old(self).wf(),
        ensures
            final(self).wf(),
            final(self).next_fid_spec() == old(self).next_fid_spec(),
            final(self).same_base(old(self)),
            final(self)@ == old(self)@.insert(name@, files_of(old(self)@, name@)),
            i < final(self).domains@.len(),
            final(self).domains@[i as int].name_spec() == name@,
            final(self)@[name@] == final(self).domains@[i as int]@,
    {
        match self.find_domain(name) {
            Some(i) => {
                assert(self@ =~= old(self)@.insert(name@, files_of(old(self)@, name@)));
                i
            },
            None => {
                let dom = MemDomain::new(name);
                let ghost x = (dom.name_spec(), dom@);
                let ghost ds = self.dseq();
                self.domains.push(dom);
                proof {
                    assert(self.dseq() =~= ds.push(x));
                    lemma_domain_map_push(ds, x);
                    lemma_domain_map_at(self.dseq(), ds.len() as int);
                    assert forall|j: int| 0 <= j < self.domains@.len() implies (#[trigger] self.domains@[j]).wf() by {
                        if j < ds.len() {
                            assert(self.domains@[j] == old(self).domains@[j]);
                        }
                    }
                }
                self.domains.len() - 1
            },
        }
    }

    // Tracker operations.

    /// Registers a domain.
    pub fn create_domain(&mut self, req: &CreateDomain) -> (r: MogResult<CreateDomain>)
        requires
            old(self).wf(),
        ensures
            final(self).wf(),
            final(self).next_fid_spec() == old(self).next_fid_spec(),
            final(self).same_base(old(self)),
            req.domain@.len() == 0 ==> (r matches Err(MogError::NoDomain) && final(self)@ == old(self)@),
            req.domain@.len() > 0 && old(self)@.contains_key(req.domain@) ==> (r matches Err(
                MogError::DomainExists(d)) && d@ == req.domain@ && final(self)@ == old(self)@),
            req.domain@.len() > 0 && !old(self)@.contains_key(req.domain@) ==> (r matches Ok(c)
                && c.domain@ == req.domain@ && final(self)@ == old(self)@.insert(req.domain@, Map::empty())),
            final(self)@ == after_create_domain(old(self)@, req.domain@),
    {
        if req.domain.len() == 0 {
            return Err(MogError::NoDomain);
        }
        if self.find_domain(req.domain.as_slice()).is_some() {
            return Err(MogError::DomainExists(copy_bytes(req.domain.as_slice())));
        }
        let dom = MemDomain::new(req.domain.as_slice());
        let ghost x = (dom.name_spec(), dom@);
        let ghost ds = self.dseq();
        self.domains.push(dom);
        proof {
            assert(self.dseq() =~= ds.push(x));
            lemma_domain_map_push(ds, x);
            assert forall|j: int| 0 <= j < self.domains@.len() implies (#[trigger] self.domains@[j]).wf() by {
                if j < ds.len() {
                    assert(self.domains@[j] == old(self).domains@[j]);
                }
            }
        }
        Ok(CreateDomain { domain: copy_bytes(req.domain.as_slice()) })
    }

    /// Reserves `key` in `domain`, creating the domain if it is absent, and
    /// names one destination for its bytes. A file already held under the
    /// key is replaced. Fails on an empty domain or key, and when the fid
    /// counter is spent.
    pub fn create_open(&mut self, req: &CreateOpen) -> (r: MogResult<CreateOpenResponse>)
        requires
            old(self).wf(),
        ensures
            final(self).wf(),
            final(self).same_base(old(self)),
            req.domain@.len() == 0 ==> (r matches Err(MogError::NoDomain) && final(self)@ == old(self)@
                && final(self).next_fid_spec() == old(self).next_fid_spec()),
            req.domain@.len() > 0 && req.key@.len() == 0 ==> (r matches Err(MogError::NoKey)
                && final(self)@ == old(self)@ && final(self).next_fid_spec() == old(self).next_fid_spec()),
            req.domain@.len() > 0 && req.key@.len() > 0 && old(self).next_fid_spec() == u64::MAX ==> (r matches Err(
                MogError::Other(_)) && final(self)@ == old(self)@ && final(self).next_fid_spec() == u64::MAX),
            req.domain@.len() > 0 && req.key@.len() > 0 && old(self).next_fid_spec() < u64::MAX ==> (r matches Ok(resp)
                && resp.fid == old(self).next_fid_spec()
                && resp.paths@.len() == 1
                && resp.paths@[0].0 == 1
                && resp.paths@[0].1@ == old(self).url_of(req.domain@, req.key@)
                && final(self).next_fid_spec() == old(self).next_fid_spec() + 1
                && final(self)@ == after_create_open(old(self)@, req.domain@, req.key@, resp.fid)),
    {
        if req.domain.len() == 0 {
            return Err(MogError::NoDomain);
        }
        if req.key.len() == 0 {
            return Err(MogError::NoKey);
        }
        if self.next_fid == u64::MAX {
            proof {
                reveal_strlit("fid counter exhausted");
            }
            return Err(MogError::Other(str_bytes("fid counter exhausted")));
        }
        let fid = self.next_fid;
        let url = self.base_url.url_for_key(req.domain.as_slice(), req.key.as_slice());
        let d = req.domain.as_slice();
        let k = req.key.as_slice();
        let i = self.domain_index_or_create(d);
        let ghost mid = *self;
        let mut dom = self.domains.remove(i);
        let stored = dom.add_file(k, MemFileInfo::new(fid, k));
        let ghost dv = dom;
        self.domains.insert(i, dom);
        assert(self.domains@ =~= mid.domains@.update(i as int, dv));
        self.next_fid = fid + 1;
        proof {
            self.lemma_put_back(&mid, i as int, dv);
        }
        let mut paths: Vec<(u64, Vec<u8>)> = Vec::new();
        paths.push((1, url));
        Ok(CreateOpenResponse { fid, paths })
    }
    /// The file under `key` in `domain`; a domain that was never created
    /// holds no files.
    pub fn file(&self, domain: &[u8], key: &[u8]) -> (r: MogResult<Option<&MemFileInfo>>)
        requires
            self.wf(),
        ensures
            r matches Ok(o) && match o {
                Some(f) => files_of(self@, domain@).contains_key(key@) && f@ == files_of(self@, domain@)[key@],
                None => !files_of(self@, domain@).contains_key(key@),
            },
    {
        match self.find_domain(domain) {
            Some(i) => {
                assert(self.domains@[i as int].wf());
                Ok(self.domains[i].file(key))
            },
            None => Ok(None),
        }
    }

    /// The file under `key` in `domain`, to change in place.
    pub fn file_mut(&mut self, domain: &[u8], key: &[u8]) -> (r: MogResult<Option<&mut MemFileInfo>>)
        requires
            old(self).wf(),
        ensures
            final(self).wf(),
            final(self).next_fid_spec() == old(self).next_fid_spec(),
            final(self).same_base(old(self)),
            files_of(old(self)@, domain@).contains_key(key@) ==> (r matches Ok(Some(f))
                && f@ == files_of(old(self)@, domain@)[key@]
                && final(self)@ == old(self)@.insert(domain@, files_of(old(self)@, domain@).insert(key@, final(f)@))),
            !files_of(old(self)@, domain@).contains_key(key@) ==> (r matches Ok(None) && final(self)@ == old(self)@),
    {
        match self.find_domain(domain) {
            Some(i) => {
                proof {
                    lemma_domain_replaced(self.domains@, i as int);
                }
                assert(self.domains@[i as int].wf());
                Ok(self.domains[i].file_mut(key))
            },
            None => Ok(None),
        }
    }

    /// The locations of a stored key.
    pub fn get_paths(&self, req: &GetPaths) -> (r: MogResult<GetPathsResponse>)
        requires
            self.wf(),
        ensures
            files_of(self@, req.domain@).contains_key(req.key@) ==> (r matches Ok(p)
                && p.0@.len() == 1 && p.0@[0]@ == self.url_of(req.domain@, req.key@)),
            !files_of(self@, req.domain@).contains_key(req.key@) ==> (r matches Err(MogError::UnknownKey(k))
                && k@ == req.key@),
    {
        match self.file(req.domain.as_slice(), req.key.as_slice()) {
            Ok(Some(_)) => {
                let mut paths: Vec<Vec<u8>> = Vec::new();
                paths.push(self.base_url.url_for_key(req.domain.as_slice(), req.key.as_slice()));
                Ok(GetPathsResponse(paths))
            },
            _ => Err(MogError::UnknownKey(copy_bytes(req.key.as_slice()))),
        }
    }

    /// What the tracker knows of a materialised file.
    pub fn file_info(&self, req: &FileInfo) -> (r: MogResult<FileInfoResponse>)
        requires
            self.wf(),
        ensures
            ({
                let fs = files_of(self@, req.domain@);
                &&& !fs.contains_key(req.key@) ==> (r matches Err(MogError::UnknownKey(k)) && k@ == req.key@)
                &&& fs.contains_key(req.key@) && (fs[req.key@].size is None || fs[req.key@].mtime is None)
                    ==> (r matches Err(MogError::NoContent(k)) && k@ == req.key@)
                &&& fs.contains_key(req.key@) && fs[req.key@].size is Some && fs[req.key@].mtime is Some
                    ==> (r matches Ok(i) && i.fid == fs[req.key@].fid && i.devcount == 1
                    && Some(i.length) == fs[req.key@].size && i.domain@ == req.domain@
                    && i.class@ == ascii_bytes("default"@) && i.key@ == req.key@)
            }),
    {
        match self.file(req.domain.as_slice(), req.key.as_slice()) {
            Ok(Some(f)) => match (f.size(), f.mtime()) {
                (Some(size), Some(_)) => {
                    proof {
                        reveal_strlit("default");
                    }
                    Ok(FileInfoResponse {
                        fid: f.fid(),
                        devcount: 1,
                        length: size,
                        domain: copy_bytes(req.domain.as_slice()),
                        class: str_bytes("default"),
                        key: copy_bytes(req.key.as_slice()),
                    })
                },
                _ => Err(MogError::NoContent(copy_bytes(req.key.as_slice()))),
            },
            _ => Err(MogError::UnknownKey(copy_bytes(req.key.as_slice()))),
        }
    }

    /// Removes a key.
    pub fn delete(&mut self, req: &Delete) -> (r: MogResult<()>)
        requires
            old(self).wf(),
        ensures
            final(self).wf(),
            final(self).next_fid_spec() == old(self).next_fid_spec(),
            final(self).same_base(old(self)),
            files_of(old(self)@, req.domain@).contains_key(req.key@) ==> (r is Ok
                && final(self)@ == old(self)@.insert(req.domain@, files_of(old(self)@, req.domain@).remove(req.key@))),
            !files_of(old(self)@, req.domain@).contains_key(req.key@) ==> (r matches Err(MogError::UnknownKey(k))
                && k@ == req.key@ && final(self)@ == old(self)@),
            final(self)@ == after_delete(old(self)@, req.domain@, req.key@),
    {
        match self.find_domain(req.domain.as_slice()) {
            None => Err(MogError::UnknownKey(copy_bytes(req.key.as_slice()))),
            Some(i) => {
                let ghost mid = *self;
                assert(self.domains@[i as int].wf());
                let mut dom = self.domains.remove(i);
                let removed = dom.remove_file(req.key.as_slice());
                let ghost dv = dom;
                self.domains.insert(i, dom);
                assert(self.domains@ =~= mid.domains@.update(i as int, dv));
                proof {
                    self.lemma_put_back(&mid, i as int, dv);
                }
                match removed {
                    Some(_) => Ok(()),
                    None => {
                        assert(dv@ =~= mid.domains@[i as int]@);
                        assert(self@ =~= old(self)@);
                        Err(MogError::UnknownKey(copy_bytes(req.key.as_slice())))
                    },
                }
            },
        }
    }

    /// Moves a file to another key of its domain.
    pub fn rename(&mut self, req: &Rename) -> (r: MogResult<()>)
        requires
            old(self).wf(),
        ensures
            final(self).wf(),
            final(self).next_fid_spec() == old(self).next_fid_spec(),
            final(self).same_base(old(self)),
            ({
                let fs = files_of(old(self)@, req.domain@);
                &&& fs.contains_key(req.to_key@) ==> (r matches Err(MogError::KeyExists(k))
                    && k@ == req.to_key@ && final(self)@ == old(self)@)
                &&& !fs.contains_key(req.to_key@) && !fs.contains_key(req.from_key@) ==> (r matches Err(
                    MogError::UnknownKey(k)) && k@ == req.from_key@ && final(self)@ == old(self)@)
                &&& !fs.contains_key(req.to_key@) && fs.contains_key(req.from_key@) ==> (r is Ok
                    && final(self)@ == old(self)@.insert(
                        req.domain@,
                        fs.remove(req.from_key@).insert(req.to_key@, FileState { key: req.to_key@, ..fs[req.from_key@] }),
                    ))
            }),
            final(self)@ == after_rename(old(self)@, req.domain@, req.from_key@, req.to_key@),
    {
        match self.find_domain(req.domain.as_slice()) {
            None => Err(MogError::UnknownKey(copy_bytes(req.from_key.as_slice()))),
            Some(i) => {
                let ghost mid = *self;
                assert(self.domains@[i as int].wf());
                let mut dom = self.domains.remove(i);
                let r = dom.rename(req.from_key.as_slice(), req.to_key.as_slice());
                let ghost dv = dom;
                self.domains.insert(i, dom);
                assert(self.domains@ =~= mid.domains@.update(i as int, dv));
                proof {
                    self.lemma_put_back(&mid, i as int, dv);
                    if r is Err {
                        assert(dv@ =~= mid.domains@[i as int]@);
                        assert(self@ =~= old(self)@);
                    }
                }
                r
            },
        }
    }

    /// The keys of a domain in ascending order, filtered and cut as the
    /// request asks.
    pub fn list_keys(&self, req: &ListKeys) -> (r: MogResult<ListKeysResponse>)
        requires
            self.wf(),
        ensures
            r matches Ok(l) && listed(
                files_of(self@, req.domain@).dom(),
                match req.prefix {
                    Some(p) => p@,
                    None => Seq::empty(),
                },
                opt_view(req.after),
                effective_limit(req.limit),
                l.0@.map_values(|k: Vec<u8>| k@),
            ),
    {
        let limit: u32 = match req.limit {
            Some(l) => if l <= MAX_LIST_LIMIT { l } else { MAX_LIST_LIMIT },
            None => MAX_LIST_LIMIT,
        };
        let empty: Vec<u8> = Vec::new();
        let prefix = match &req.prefix {
            Some(p) => p.as_slice(),
            None => empty.as_slice(),
        };
        let after = match &req.after {
            Some(a) => Some(a.as_slice()),
            None => None,
        };
        match self.find_domain(req.domain.as_slice()) {
            Some(i) => {
                assert(self.domains@[i as int].wf());
                Ok(ListKeysResponse(self.domains[i].list_keys(prefix, after, limit as usize)))
            },
            None => {
                let r: Vec<Vec<u8>> = Vec::new();
                assert(files_of(self@, req.domain@).dom() =~= Set::empty());
                assert(r@.map_values(|k: Vec<u8>| k@) =~= Seq::empty());
                Ok(ListKeysResponse(r))
            },
        }
    }

    /// Accepts the close of an upload: the storage write already recorded
    /// the file, so nothing changes.
    pub fn create_close(&self, req: &CreateClose) -> (r: MogResult<()>)
        ensures
            r is Ok,
    {
        Ok(())
    }

    /// Storage classes are not kept: the class is accepted and echoed.
    pub fn create_class(&self, req: &CreateClass) -> (r: MogResult<CreateClassResponse>)
        ensures
            r matches Ok(c) && c.domain@ == req.domain@ && c.class@ == req.class@
                && c.mindevcount == req.mindevcount,
    {
        Ok(CreateClassResponse {
            domain: copy_bytes(req.domain.as_slice()),
            class: copy_bytes(req.class.as_slice()),
            mindevcount: req.mindevcount,
        })
    }

    /// The domain named `name`, if it was created.
    pub fn domain(&self, name: &[u8]) -> (r: Option<&MemDomain>)
        requires
            self.wf(),
        ensures
            match r {
                Some(d) => self@.contains_key(name@) && d@ == self@[name@] && d.wf() && d.name_spec() == name@,
                None => !self@.contains_key(name@),
            },
    {
        match self.find_domain(name) {
            Some(i) => {
                assert(self.domains@[i as int].wf());
                Some(&self.domains[i])
            },
            None => None,
        }
    }

    /// Storage classes are not kept: the request is accepted as it is.
    pub fn update_class(&self, req: &UpdateClass) -> (r: MogResult<()>)
        ensures
            r is Ok,
    {
        Ok(())
    }

    // Storage operations.

    /// The location of `key` in `domain`.
    pub fn url_for_key(&self, domain: &[u8], key: &[u8]) -> (r: Vec<u8>)
        ensures
            r@ == self.url_of(domain@, key@),
    {
        self.base_url.url_for_key(domain, key)
    }

    /// The size and modification time of a materialised file.
    pub fn file_metadata(&self, domain: &[u8], key: &[u8]) -> (r: MogResult<StorageMetadata>)
        requires
            self.wf(),
        ensures
            ({
                let fs = files_of(self@, domain@);
                &&& !fs.contains_key(key@) ==> (r matches Err(MogError::UnknownKey(k)) && k@ == key@)
                &&& fs.contains_key(key@) && (fs[key@].size is None || fs[key@].mtime is None)
                    ==> (r matches Err(MogError::NoContent(k)) && k@ == key@)
                &&& fs.contains_key(key@) && fs[key@].size is Some && fs[key@].mtime is Some
                    ==> (r matches Ok(m) && Some(m.size) == fs[key@].size && Some(m.mtime) == fs[key@].mtime)
            }),
    {
        match self.file(domain, key) {
            Ok(Some(f)) => match (f.size(), f.mtime()) {
                (Some(size), Some(mtime)) => Ok(StorageMetadata { size, mtime }),
                _ => Err(MogError::NoContent(copy_bytes(key))),
            },
            _ => Err(MogError::UnknownKey(copy_bytes(key))),
        }
    }

    /// Records the bytes of a reserved or stored file, written at `mtime`.
    pub fn store_bytes_content_at(&mut self, domain: &[u8], key: &[u8], content: &[u8], mtime: i64) -> (r: MogResult<()>)
        requires
            old(self).wf(),
        ensures
            final(self).wf(),
            final(self)@ == after_store(old(self)@, domain@, key@, content@, mtime),
            final(self).next_fid_spec() == old(self).next_fid_spec(),
            final(self).same_base(old(self)),
            ({
                let fs = files_of(old(self)@, domain@);
                &&& !fs.contains_key(key@) ==> (r matches Err(MogError::UnknownKey(k)) && k@ == key@
                    && final(self)@ == old(self)@)
                &&& fs.contains_key(key@) ==> (r is Ok && final(self)@ == old(self)@.insert(
                    domain@,
                    fs.insert(key@, FileState {
                        content: Some(content@),
                        size: Some(content@.len() as u64),
                        mtime: Some(mtime),
                        ..fs[key@]
                    }),
                ))
            }),
    {
        match self.find_domain(domain) {
            None => Err(MogError::UnknownKey(copy_bytes(key))),
            Some(i) => {
                let ghost mid = *self;
                assert(self.domains@[i as int].wf());
                let mut dom = self.domains.remove(i);
                let r = dom.materialise(key, content, mtime);
                let ghost dv = dom;
                self.domains.insert(i, dom);
                assert(self.domains@ =~= mid.domains@.update(i as int, dv));
                proof {
                    self.lemma_put_back(&mid, i as int, dv);
                    if r is Err {
                        assert(dv@ =~= mid.domains@[i as int]@);
                        assert(self@ =~= old(self)@);
                    }
                }
                r
            },
        }
    }

    /// Records the bytes of a reserved or stored file, written now.
    pub fn store_bytes_content(&mut self, domain: &[u8], key: &[u8], content: &[u8]) -> (r: MogResult<()>)
        requires
            old(self).wf(),
        ensures
            final(self).wf(),
            files_of(old(self)@, domain@).contains_key(key@) ==> final(self)@ == after_store(
                old(self)@,
                domain@,
                key@,
                content@,
                final(self)@[domain@][key@].mtime.unwrap(),
            ),
            final(self).next_fid_spec() == old(self).next_fid_spec(),
            final(self).same_base(old(self)),
            ({
                let fs = files_of(old(self)@, domain@);
                &&& !fs.contains_key(key@) ==> (r matches Err(MogError::UnknownKey(k)) && k@ == key@
                    && final(self)@ == old(self)@)
                &&& fs.contains_key(key@) ==> (r is Ok && final(self)@[domain@][key@].mtime is Some
                    && final(self)@ == old(self)@.insert(
                    domain@,
                    fs.insert(key@, FileState {
                        content: Some(content@),
                        size: Some(content@.len() as u64),
                        mtime: final(self)@[domain@][key@].mtime,
                        ..fs[key@]
                    }),
                ))
            }),
    {
        let now = now_utc_seconds();
        self.store_bytes_content_at(domain, key, content, now)
    }

    /// The stored bytes of a file.
    pub fn get_content(&self, domain: &[u8], key: &[u8]) -> (r: MogResult<Vec<u8>>)
        requires
            self.wf(),
        ensures
            ({
                let fs = files_of(self@, domain@);
                &&& !fs.contains_key(key@) ==> (r matches Err(MogError::UnknownKey(k)) && k@ == key@)
                &&& fs.contains_key(key@) && fs[key@].content is None ==> (r matches Err(MogError::NoContent(k))
                    && k@ == key@)
                &&& fs.contains_key(key@) && fs[key@].content is Some ==> (r matches Ok(c)
                    && Some(c@) == fs[key@].content)
            }),
    {
        match self.file(domain, key) {
            Ok(Some(f)) => match f.content() {
                Some(c) => Ok(copy_bytes(c.as_slice())),
                None => Err(MogError::NoContent(copy_bytes(key))),
            },
            _ => Err(MogError::UnknownKey(copy_bytes(key))),
        }
    }
}

} // verus!
