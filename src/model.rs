//! Files and domains of the in-memory backend.
use vstd::prelude::*;
use crate::bytes::{lex_lt, is_prefix, copy_bytes, bytes_eq, less_than, starts_with, opt_view,
    lemma_lex_irreflexive, lemma_lex_transitive, lemma_lex_total};
use crate::error::{MogError, MogResult};

verus! {

/// What a stored file holds.
pub struct FileState {
    pub fid: u64,
    pub key: Seq<u8>,
    pub content: Option<Seq<u8>>,
    pub size: Option<u64>,
    pub mtime: Option<i64>,
}

/// A stored object: reserved when `content`, `size` and `mtime` are absent,
/// materialised once a storage write filled them.
#[derive(Debug)]
pub struct MemFileInfo {
    fid: u64,
    key: Vec<u8>,
    pub content: Option<Vec<u8>>,
    pub size: Option<u64>,
    /// Seconds since the Unix epoch, UTC.
    pub mtime: Option<i64>,
}

impl View for MemFileInfo {
    type V = FileState;

    closed spec fn view(&self) -> FileState {
        FileState {
            fid: self.fid,
            key: self.key@,
            content: opt_view(self.content),
            size: self.size,
            mtime: self.mtime,
        }
    }
}

impl MemFileInfo {
    pub open spec fn reserved(fid: u64, key: Seq<u8>) -> FileState {
        FileState { fid: fid, key: key, content: None, size: None, mtime: None }
    }

    /// A reserved file.
    pub fn new(fid: u64, key: &[u8]) -> (r: MemFileInfo)
        ensures
            r@ == Self::reserved(fid, key@),
    {
        MemFileInfo { fid: fid, key: copy_bytes(key), content: None, size: None, mtime: None }
    }

    pub fn fid(&self) -> (r: u64)
        ensures
            r == self@.fid,
    {
        self.fid
    }

    pub fn key(&self) -> (r: &[u8])
        ensures
            r@ == self@.key,
    {
        self.key.as_slice()
    }

    pub fn size(&self) -> (r: Option<u64>)
        ensures
            r == self@.size,
    {
        self.size
    }

    pub fn mtime(&self) -> (r: Option<i64>)
        ensures
            r == self@.mtime,
    {
        self.mtime
    }

    /// The stored bytes, if any.
    pub fn content(&self) -> (r: Option<&Vec<u8>>)
        ensures
            match r {
                Some(v) => self@.content == Some(v@),
                None => self@.content is None,
            },
    {
        match &self.content {
            Some(v) => Some(v),
            None => None,
        }
    }

    /// Records a storage write: the bytes, their length and the time.
    pub fn materialise(&mut self, content: &[u8], mtime: i64)
        ensures
            final(self)@ == (FileState {
                content: Some(content@),
                size: Some(content@.len() as u64),
                mtime: Some(mtime),
                ..old(self)@
            }),
    {
        self.size = Some(content.len() as u64);
        self.content = Some(copy_bytes(content));
        self.mtime = Some(mtime);
    }

    fn with_key(self, key: &[u8]) -> (r: MemFileInfo)
        ensures
            r@ == (FileState { key: key@, ..self@ }),
    {
        MemFileInfo { key: copy_bytes(key), ..self }
    }
}

/// A key and the file stored under it.
pub type Entry = (Seq<u8>, FileState);

/// The files of a sequence of entries, by key.
pub open spec fn file_map(s: Seq<Entry>) -> Map<Seq<u8>, FileState> {
    Map::new(
        |k: Seq<u8>| exists|i: int| 0 <= i < s.len() && #[trigger] s[i].0 == k,
        |k: Seq<u8>| stored_under(s, k),
    )
}

/// The file of an entry whose key is `k`.
pub open spec fn stored_under(s: Seq<Entry>, k: Seq<u8>) -> FileState {
    s[choose|x: int| 0 <= x < s.len() && #[trigger] s[x].0 == k].1
}

/// Keys strictly ascending in bytewise order.
pub open spec fn keys_ascending(s: Seq<Entry>) -> bool {
    forall|i: int, j: int| 0 <= i < j < s.len() ==> lex_lt(#[trigger] s[i].0, #[trigger] s[j].0)
}

pub proof fn lemma_file_map_at(s: Seq<Entry>, i: int)
    requires
        keys_ascending(s),
        0 <= i < s.len(),
    ensures
        file_map(s).contains_key(s[i].0),
        file_map(s)[s[i].0] == s[i].1,
{
    lemma_lex_irreflexive(s[i].0);
    assert(file_map(s).contains_key(s[i].0));
    assert(file_map(s)[s[i].0] == stored_under(s, s[i].0));
    let c = choose|x: int| 0 <= x < s.len() && #[trigger] s[x].0 == s[i].0;
    assert(0 <= c < s.len() && s[c].0 == s[i].0);
    if c < i {
        assert(lex_lt(s[c].0, s[i].0));
    } else if c > i {
        assert(lex_lt(s[i].0, s[c].0));
    }
    assert(stored_under(s, s[i].0) == s[c].1);
}

pub proof fn lemma_file_map_insert(s: Seq<Entry>, i: int, f: Entry)
    requires
        keys_ascending(s),
        0 <= i <= s.len(),
        keys_ascending(s.insert(i, f)),
    ensures
        file_map(s.insert(i, f)) == file_map(s).insert(f.0, f.1),
{
    let t = s.insert(i, f);
    let m = file_map(s).insert(f.0, f.1);
    assert forall|k: Seq<u8>| #[trigger] file_map(t).contains_key(k) <==> m.contains_key(k) by {
        if file_map(t).contains_key(k) {
            let j = choose|j: int| 0 <= j < t.len() && #[trigger] t[j].0 == k;
            if j < i {
                assert(s[j].0 == k);
            } else if j > i {
                assert(s[j - 1].0 == k);
            }
        }
        if file_map(s).contains_key(k) {
            let j = choose|j: int| 0 <= j < s.len() && #[trigger] s[j].0 == k;
            if j < i {
                assert(t[j].0 == k);
            } else {
                assert(t[j + 1].0 == k);
            }
        }
        if k == f.0 {
            assert(t[i].0 == k);
        }
    }
    assert forall|k: Seq<u8>| #[trigger] file_map(t).contains_key(k) implies file_map(t)[k] == m[k] by {
        let j = choose|j: int| 0 <= j < t.len() && #[trigger] t[j].0 == k;
        lemma_file_map_at(t, j);
        if j < i {
            lemma_file_map_at(s, j);
            lemma_file_map_at(t, i);
            assert(lex_lt(t[j].0, t[i].0));
            if k == f.0 {
                lemma_lex_irreflexive(k);
            }
        } else if j > i {
            lemma_file_map_at(s, j - 1);
            assert(lex_lt(t[i].0, t[j].0));
            if k == f.0 {
                lemma_lex_irreflexive(k);
            }
        }
    }
    assert(file_map(t) =~= m);
}

pub proof fn lemma_file_map_remove(s: Seq<Entry>, i: int)
    requires
        keys_ascending(s),
        0 <= i < s.len(),
    ensures
        keys_ascending(s.remove(i)),
        file_map(s.remove(i)) == file_map(s).remove(s[i].0),
{
    let t = s.remove(i);
    let m = file_map(s).remove(s[i].0);
    assert forall|x: int, y: int| 0 <= x < y < t.len() implies lex_lt(#[trigger] t[x].0, #[trigger] t[y].0) by {
        let x0 = if x < i { x } else { x + 1 };
        let y0 = if y < i { y } else { y + 1 };
        assert(t[x] == s[x0]);
        assert(t[y] == s[y0]);
    }
    assert forall|k: Seq<u8>| #[trigger] file_map(t).contains_key(k) <==> m.contains_key(k) by {
        if file_map(t).contains_key(k) {
            let j = choose|j: int| 0 <= j < t.len() && #[trigger] t[j].0 == k;
            let j0 = if j < i { j } else { j + 1 };
            assert(s[j0].0 == k);
            assert(lex_lt(s[i].0, s[j0].0) || lex_lt(s[j0].0, s[i].0));
            if k == s[i].0 {
                lemma_lex_irreflexive(k);
            }
        }
        if m.contains_key(k) {
            let j = choose|j: int| 0 <= j < s.len() && #[trigger] s[j].0 == k;
            if j < i {
                assert(t[j].0 == k);
            } else {
                assert(t[j - 1].0 == k);
            }
        }
    }
    assert forall|k: Seq<u8>| #[trigger] file_map(t).contains_key(k) implies file_map(t)[k] == m[k] by {
        let j = choose|j: int| 0 <= j < t.len() && #[trigger] t[j].0 == k;
        lemma_file_map_at(t, j);
        let j0 = if j < i { j } else { j + 1 };
        lemma_file_map_at(s, j0);
    }
    assert(file_map(t) =~= m);
}

pub proof fn lemma_file_map_update(s: Seq<Entry>, i: int, f: Entry)
    requires
        keys_ascending(s),
        0 <= i < s.len(),
        s[i].0 == f.0,
    ensures
        keys_ascending(s.update(i, f)),
        file_map(s.update(i, f)) == file_map(s).insert(f.0, f.1),
{
    let t = s.update(i, f);
    assert forall|x: int, y: int| 0 <= x < y < t.len() implies lex_lt(#[trigger] t[x].0, #[trigger] t[y].0) by {
        assert(t[x].0 == s[x].0);
        assert(t[y].0 == s[y].0);
    }
    lemma_file_map_remove(s, i);
    lemma_file_map_remove(t, i);
    assert(s.remove(i) =~= t.remove(i));
    assert(t.remove(i).insert(i, f) =~= t);
    lemma_file_map_insert(t.remove(i), i, f);
    assert(file_map(t) =~= file_map(s).insert(f.0, f.1));
}

/// Keys that a listing may show: those starting with `prefix` and, when
/// `after` is given, strictly above it.
pub open spec fn qualifies(k: Seq<u8>, prefix: Seq<u8>, after: Option<Seq<u8>>) -> bool {
    &&& is_prefix(prefix, k)
    &&& match after {
        Some(a) => lex_lt(a, k),
        None => true,
    }
}

pub open spec fn ascending(r: Seq<Seq<u8>>) -> bool {
    forall|i: int, j: int| 0 <= i < j < r.len() ==> lex_lt(#[trigger] r[i], #[trigger] r[j])
}

/// `r` is the listing of `keys`: the qualifying keys in ascending order,
/// cut after `limit` of them.
pub open spec fn listed(
    keys: Set<Seq<u8>>,
    prefix: Seq<u8>,
    after: Option<Seq<u8>>,
    limit: nat,
    r: Seq<Seq<u8>>,
) -> bool {
    &&& ascending(r)
    &&& r.len() <= limit
    &&& forall|i: int| 0 <= i < r.len() ==> keys.contains(#[trigger] r[i]) && qualifies(r[i], prefix, after)
    &&& forall|k: Seq<u8>|
        keys.contains(k) && qualifies(k, prefix, after) && !r.contains(k) ==> r.len() == limit && (r.len()
            == 0 || lex_lt(r.last(), k))
}

/// A listing shorter than its limit is complete: it holds exactly the
/// qualifying keys, in ascending order.
pub proof fn lemma_short_listing_complete(
    keys: Set<Seq<u8>>,
    prefix: Seq<u8>,
    after: Option<Seq<u8>>,
    limit: nat,
    r: Seq<Seq<u8>>,
)
    requires
        listed(keys, prefix, after, limit, r),
        r.len() < limit,
    ensures
        ascending(r),
        forall|k: Seq<u8>| keys.contains(k) && qualifies(k, prefix, after) <==> #[trigger] r.contains(k),
{
    assert forall|k: Seq<u8>| keys.contains(k) && qualifies(k, prefix, after) <==> #[trigger] r.contains(k) by {
        if r.contains(k) {
            let i = choose|i: int| 0 <= i < r.len() && r[i] == k;
            assert(keys.contains(r[i]));
        }
    }
}

/// Paging through a listing: a page, followed by the page that starts after
/// its last key, is the listing with both limits together. By induction,
/// pages read this way concatenate to the ascending run of all qualifying
/// keys, and a page shorter than its limit ends it.
pub proof fn lemma_next_page(
    keys: Set<Seq<u8>>,
    prefix: Seq<u8>,
    after: Option<Seq<u8>>,
    l1: nat,
    p1: Seq<Seq<u8>>,
    l2: nat,
    p2: Seq<Seq<u8>>,
)
    requires
        listed(keys, prefix, after, l1, p1),
        p1.len() > 0,
        listed(keys, prefix, Some(p1.last()), l2, p2),
    ensures
        listed(keys, prefix, after, l1 + l2, p1 + p2),
{
    let r = p1 + p2;
    let last = p1.last();
    assert(qualifies(last, prefix, after));
    assert forall|x: int, y: int| 0 <= x < y < r.len() implies lex_lt(#[trigger] r[x], #[trigger] r[y]) by {
        if y < p1.len() {
        } else if x >= p1.len() {
            assert(r[x] == p2[x - p1.len()]);
            assert(r[y] == p2[y - p1.len()]);
        } else {
            assert(r[y] == p2[y - p1.len()]);
            assert(qualifies(p2[y - p1.len()], prefix, Some(last)));
            if x < p1.len() - 1 {
                lemma_lex_transitive(p1[x], last, r[y]);
            }
        }
    }
    assert forall|i: int| 0 <= i < r.len() implies keys.contains(#[trigger] r[i]) && qualifies(r[i], prefix, after) by {
        if i >= p1.len() {
            assert(r[i] == p2[i - p1.len()]);
            assert(qualifies(p2[i - p1.len()], prefix, Some(last)));
            if let Some(a) = after {
                lemma_lex_transitive(a, last, r[i]);
            }
        }
    }
    assert forall|k: Seq<u8>| keys.contains(k) && qualifies(k, prefix, after) && !r.contains(k) implies r.len() == l1 + l2 && (r.len() == 0 || lex_lt(r.last(), k)) by {
        if p1.contains(k) {
            let x = choose|x: int| 0 <= x < p1.len() && p1[x] == k;
            assert(r[x] == k);
        }
        if p2.contains(k) {
            let x = choose|x: int| 0 <= x < p2.len() && p2[x] == k;
            assert(r[x + p1.len()] == k);
        }
        assert(qualifies(k, prefix, Some(last)));
        if p2.len() > 0 {
            assert(r.last() == p2.last());
        }
    }
}

pub open spec fn entries_view(fs: Seq<(Vec<u8>, MemFileInfo)>) -> Seq<Entry> {
    fs.map_values(|e: (Vec<u8>, MemFileInfo)| (e.0@, e.1@))
}

/// Whatever file ends up in entry `i`, the order holds and the map changes
/// at that key only.
pub proof fn lemma_entry_replaced(fs: Seq<(Vec<u8>, MemFileInfo)>, i: int)
    requires
        keys_ascending(entries_view(fs)),
        0 <= i < fs.len(),
    ensures
        forall|x: MemFileInfo| #![trigger fs.update(i, (fs[i].0, x))]
            keys_ascending(entries_view(fs.update(i, (fs[i].0, x))))
            && file_map(entries_view(fs.update(i, (fs[i].0, x)))) == file_map(entries_view(fs)).insert(fs[i].0@, x@),
{
    assert forall|x: MemFileInfo| #![trigger fs.update(i, (fs[i].0, x))]
        keys_ascending(entries_view(fs.update(i, (fs[i].0, x))))
        && file_map(entries_view(fs.update(i, (fs[i].0, x)))) == file_map(entries_view(fs)).insert(fs[i].0@, x@) by {
        assert(entries_view(fs.update(i, (fs[i].0, x))) =~= entries_view(fs).update(i, (fs[i].0@, x@)));
        lemma_file_map_update(entries_view(fs), i, (fs[i].0@, x@));
    }
}

/// Pages joined in order.
pub open spec fn concat_pages(pages: Seq<Seq<Seq<u8>>>) -> Seq<Seq<u8>>
    decreases pages.len(),
{
    if pages.len() == 0 {
        Seq::empty()
    } else {
        concat_pages(pages.drop_last()) + pages.last()
    }
}

/// Paging from `after` with one limit: when each page but the last is not
/// empty and the next page starts after its last key, the pages joined are
/// the listing from `after` with `n` times the limit. They are strictly
/// ascending, the first qualifying keys in order, and all of them when the
/// last page is shorter than the limit.
pub proof fn lemma_pages(
    keys: Set<Seq<u8>>,
    prefix: Seq<u8>,
    after: Option<Seq<u8>>,
    limit: nat,
    pages: Seq<Seq<Seq<u8>>>,
)
    requires
        pages.len() > 0,
        listed(keys, prefix, after, limit, pages[0]),
        forall|i: int| 0 <= i < pages.len() - 1 ==> (#[trigger] pages[i]).len() > 0 && listed(
            keys,
            prefix,
            Some(pages[i].last()),
            limit,
            pages[i + 1],
        ),
    ensures
        listed(keys, prefix, after, limit * pages.len(), concat_pages(pages)),
    decreases pages.len(),
{
    if pages.len() == 1 {
        assert(concat_pages(pages.drop_last()) =~= Seq::<Seq<u8>>::empty());
        assert(concat_pages(pages) =~= pages[0]);
    } else {
        let init = pages.drop_last();
        assert forall|i: int| 0 <= i < init.len() - 1 implies (#[trigger] init[i]).len() > 0 && listed(
            keys,
            prefix,
            Some(init[i].last()),
            limit,
            init[i + 1],
        ) by {
            assert(init[i] == pages[i]);
            assert(init[i + 1] == pages[i + 1]);
        }
        lemma_pages(keys, prefix, after, limit, init);
        let c = concat_pages(init);
        let n = pages.len() - 2;
        assert(pages[n].len() > 0);
        assert(init.last() == pages[n]);
        assert(c == concat_pages(init.drop_last()) + init.last());
        assert(c.len() > 0 && c.last() == pages[n].last());
        lemma_next_page(keys, prefix, after, limit * init.len(), c, limit, pages.last());
        assert(limit * init.len() + limit == limit * pages.len()) by (nonlinear_arith)
            requires
                init.len() + 1 == pages.len(),
        ;
    }
}

/// A domain: a named namespace of files kept in ascending key order.
#[derive(Debug)]
pub struct MemDomain {
    name: Vec<u8>,
    files: Vec<(Vec<u8>, MemFileInfo)>,
}

impl View for MemDomain {
    type V = Map<Seq<u8>, FileState>;

    closed spec fn view(&self) -> Map<Seq<u8>, FileState> {
        file_map(self.file_seq())
    }
}

impl MemDomain {
    /// The files in ascending key order.
    pub closed spec fn file_seq(&self) -> Seq<Entry> {
        entries_view(self.files@)
    }

    pub closed spec fn name_spec(&self) -> Seq<u8> {
        self.name@
    }

    pub closed spec fn wf(&self) -> bool {
        keys_ascending(self.file_seq())
    }

    pub fn new(name: &[u8]) -> (r: MemDomain)
        ensures
            r.wf(),
            r@ == Map::<Seq<u8>, FileState>::empty(),
            r.name_spec() == name@,
    {
        let r = MemDomain { name: copy_bytes(name), files: Vec::new() };
        assert(r@ =~= Map::<Seq<u8>, FileState>::empty());
        r
    }

    pub fn name(&self) -> (r: &[u8])
        ensures
            r@ == self.name_spec(),
    {
        self.name.as_slice()
    }

    /// Index of the first file whose key is not below `key`.
    fn position(&self, key: &[u8]) -> (r: usize)
        requires
            self.wf(),
        ensures
            r <= self.file_seq().len(),
            forall|j: int| 0 <= j < r ==> lex_lt(#[trigger] self.file_seq()[j].0, key@),
            r < self.file_seq().len() ==> !lex_lt(self.file_seq()[r as int].0, key@),
    {
        let ghost s = self.file_seq();
        let mut i: usize = 0;
        while i < self.files.len()
            invariant
                s == self.file_seq(),
                i <= s.len(),
                s.len() == self.files@.len(),
                forall|j: int| 0 <= j < i ==> lex_lt(#[trigger] s[j].0, key@),
            decreases s.len() - i,
        {
            if !less_than(self.files[i].0.as_slice(), key) {
                return i;
            }
            i = i + 1;
        }
        i
    }

    /// Index of the file stored under `key`, if any.
    fn index_of(&self, key: &[u8]) -> (r: Option<usize>)
        requires
            self.wf(),
        ensures
            match r {
                Some(i) => i < self.file_seq().len() && self.file_seq()[i as int].0 == key@,
                None => !self@.contains_key(key@),
            },
    {
        let ghost s = self.file_seq();
        let i = self.position(key);
        if i < self.files.len() && bytes_eq(self.files[i].0.as_slice(), key) {
            Some(i)
        } else {
            proof {
                if self@.contains_key(key@) {
                    let j = choose|j: int| 0 <= j < s.len() && #[trigger] s[j].0 == key@;
                    if j < i {
                        lemma_lex_irreflexive(key@);
                    } else if j > i {
                        assert(lex_lt(s[i as int].0, s[j].0));
                        lemma_lex_total(s[i as int].0, key@);
                    }
                }
            }
            None
        }
    }

    /// The file stored under `key`.
    pub fn file(&self, key: &[u8]) -> (r: Option<&MemFileInfo>)
        requires
            self.wf(),
        ensures
            match r {
                Some(f) => self@.contains_key(key@) && f@ == self@[key@],
                None => !self@.contains_key(key@),
            },
    {
        match self.index_of(key) {
            Some(i) => {
                proof {
                    lemma_file_map_at(self.file_seq(), i as int);
                }
                Some(&self.files[i].1)
            },
            None => None,
        }
    }

    /// Stores `info` under `key`, replacing any file held there.
    pub fn add_file(&mut self, key: &[u8], info: MemFileInfo) -> (r: MogResult<()>)
        requires
            old(self).wf(),
        ensures
            final(self).wf(),
            r is Ok,
            final(self)@ == old(self)@.insert(key@, info@),
            final(self).name_spec() == old(self).name_spec(),
    {
        let ghost s = self.file_seq();
        let ghost f = (key@, info@);
        let i = self.position(key);
        let entry = (copy_bytes(key), info);
        if i < self.files.len() && bytes_eq(self.files[i].0.as_slice(), key) {
            self.files.remove(i);
            self.files.insert(i, entry);
            proof {
                assert(self.file_seq() =~= s.update(i as int, f));
                lemma_file_map_update(s, i as int, f);
            }
        } else {
            self.files.insert(i, entry);
            proof {
                let t = s.insert(i as int, f);
                assert(self.file_seq() =~= t);
                if i < s.len() {
                    lemma_lex_total(s[i as int].0, key@);
                }
                assert forall|x: int, y: int| 0 <= x < y < t.len() implies lex_lt(#[trigger] t[x].0, #[trigger] t[y].0) by {
                    if y == i {
                    } else if x == i {
                        assert(t[y] == s[y - 1]);
                        if y - 1 > i {
                            lemma_lex_transitive(key@, s[i as int].0, s[y - 1].0);
                        }
                    } else {
                        let x0 = if x < i { x } else { x - 1 };
                        let y0 = if y < i { y } else { y - 1 };
                        assert(t[x] == s[x0]);
                        assert(t[y] == s[y0]);
                    }
                }
                lemma_file_map_insert(s, i as int, f);
            }
        }
        Ok(())
    }

    /// Removes the file stored under `key` and hands it back.
    pub fn remove_file(&mut self, key: &[u8]) -> (r: Option<MemFileInfo>)
        requires
            old(self).wf(),
        ensures
            final(self).wf(),
            final(self).name_spec() == old(self).name_spec(),
            final(self)@ == old(self)@.remove(key@),
            match r {
                Some(f) => old(self)@.contains_key(key@) && f@ == old(self)@[key@],
                None => !old(self)@.contains_key(key@),
            },
    {
        let ghost s = self.file_seq();
        match self.index_of(key) {
            Some(i) => {
                proof {
                    lemma_file_map_at(s, i as int);
                    lemma_file_map_remove(s, i as int);
                }
                let (_, f) = self.files.remove(i);
                assert(self.file_seq() =~= s.remove(i as int));
                Some(f)
            },
            None => {
                assert(self@ =~= old(self)@.remove(key@));
                None
            },
        }
    }

    /// Moves the file under `from` to `to`, rewriting its key; fails when
    /// `to` is taken or `from` is absent.
    pub fn rename(&mut self, from: &[u8], to: &[u8]) -> (r: MogResult<()>)
        requires
            old(self).wf(),
        ensures
            final(self).wf(),
            final(self).name_spec() == old(self).name_spec(),
            old(self)@.contains_key(to@) ==> (r matches Err(MogError::KeyExists(k))
                && k@ == to@ && final(self)@ == old(self)@),
            !old(self)@.contains_key(to@) && !old(self)@.contains_key(from@) ==> (r matches Err(MogError::UnknownKey(k))
                && k@ == from@ && final(self)@ == old(self)@),
            !old(self)@.contains_key(to@) && old(self)@.contains_key(from@) ==> r is Ok
                && final(self)@ == old(self)@.remove(from@).insert(to@, FileState { key: to@, ..old(self)@[from@] }),
    {
        if self.index_of(to).is_some() {
            return Err(MogError::KeyExists(copy_bytes(to)));
        }
        match self.remove_file(from) {
            None => Err(MogError::UnknownKey(copy_bytes(from))),
            Some(f) => self.add_file(to, f.with_key(to)),
        }
    }

    /// Records a storage write to the file under `key`.
    pub fn materialise(&mut self, key: &[u8], content: &[u8], mtime: i64) -> (r: MogResult<()>)
        requires
            old(self).wf(),
        ensures
            final(self).wf(),
            final(self).name_spec() == old(self).name_spec(),
            old(self)@.contains_key(key@) ==> r is Ok && final(self)@ == old(self)@.insert(
                key@,
                FileState {
                    content: Some(content@),
                    size: Some(content@.len() as u64),
                    mtime: Some(mtime),
                    ..old(self)@[key@]
                },
            ),
            !old(self)@.contains_key(key@) ==> (r matches Err(MogError::UnknownKey(k))
                && k@ == key@ && final(self)@ == old(self)@),
    {
        let ghost s = self.file_seq();
        match self.index_of(key) {
            Some(i) => {
                proof {
                    lemma_file_map_at(s, i as int);
                }
                let (k, mut f) = self.files.remove(i);
                f.materialise(content, mtime);
                let ghost g = (k@, f@);
                self.files.insert(i, (k, f));
                proof {
                    assert(self.file_seq() =~= s.update(i as int, g));
                    lemma_file_map_update(s, i as int, g);
                }
                Ok(())
            },
            None => Err(MogError::UnknownKey(copy_bytes(key))),
        }
    }

    /// The keys starting with `prefix` and above `after`, ascending, at most
    /// `limit` of them.
    pub fn list_keys(&self, prefix: &[u8], after: Option<&[u8]>, limit: usize) -> (r: Vec<Vec<u8>>)
        requires
            self.wf(),
        ensures
            listed(
                self@.dom(),
                prefix@,
                match after {
                    Some(a) => Some(a@),
                    None => None,
                },
                limit as nat,
                r@.map_values(|k: Vec<u8>| k@),
            ),
    {
        let ghost s = self.file_seq();
        let ghost aft = match after {
            Some(a) => Some(a@),
            None => None,
        };
        let mut r: Vec<Vec<u8>> = Vec::new();
        let ghost mut rk: Seq<Seq<u8>> = Seq::empty();
        let mut i: usize = 0;
        assert(r@.map_values(|k: Vec<u8>| k@) =~= rk);
        while i < self.files.len() && r.len() < limit
            invariant
                s == self.file_seq(),
                keys_ascending(s),
                s.len() == self.files@.len(),
                aft == match after {
                    Some(a) => Some(a@),
                    None => None,
                },
                i <= s.len(),
                rk == r@.map_values(|k: Vec<u8>| k@),
                rk.len() <= limit,
                ascending(rk),
                forall|x: int| 0 <= x < rk.len() ==> self@.dom().contains(#[trigger] rk[x]) && qualifies(rk[x], prefix@, aft),
                forall|j: int| 0 <= j < i && qualifies(#[trigger] s[j].0, prefix@, aft) ==> rk.contains(s[j].0),
                forall|x: int, j: int| 0 <= x < rk.len() && i <= j < s.len() ==> lex_lt(#[trigger] rk[x], #[trigger] s[j].0),
            decreases s.len() - i,
        {
            let key = self.files[i].0.as_slice();
            let keep = starts_with(key, prefix) && match after {
                Some(a) => less_than(a, key),
                None => true,
            };
            let ghost k = s[i as int].0;
            assert(key@ == k);
            if keep {
                let ghost old_rk = rk;
                r.push(copy_bytes(key));
                proof {
                    rk = rk.push(k);
                    assert(r@.map_values(|k: Vec<u8>| k@) =~= rk);
                    lemma_file_map_at(s, i as int);
                    assert forall|x: int, j: int| 0 <= x < rk.len() && i + 1 <= j < s.len() implies lex_lt(#[trigger] rk[x], #[trigger] s[j].0) by {
                        if x == rk.len() - 1 {
                            assert(lex_lt(s[i as int].0, s[j].0));
                        } else {
                            assert(rk[x] == old_rk[x]);
                        }
                    }
                    assert forall|j: int| 0 <= j < i + 1 && qualifies(#[trigger] s[j].0, prefix@, aft) implies rk.contains(s[j].0) by {
                        if j == i {
                            assert(rk[rk.len() - 1] == s[j].0);
                        } else {
                            let x = choose|x: int| 0 <= x < old_rk.len() && old_rk[x] == s[j].0;
                            assert(rk[x] == old_rk[x]);
                        }
                    }
                }
            }
            i = i + 1;
        }
        proof {
            assert forall|kk: Seq<u8>| self@.dom().contains(kk) && qualifies(kk, prefix@, aft) && !rk.contains(kk) implies rk.len() == limit && (rk.len() == 0 || lex_lt(rk.last(), kk)) by {
                let j = choose|j: int| 0 <= j < s.len() && #[trigger] s[j].0 == kk;
                assert(s[j].0 == kk);
            }
        }
        r
    }

    /// The file stored under `key`, to change in place; the key it is
    /// stored under stays.
    pub fn file_mut(&mut self, key: &[u8]) -> (r: Option<&mut MemFileInfo>)
        requires
            old(self).wf(),
        ensures
            final(self).wf(),
            final(self).name_spec() == old(self).name_spec(),
            old(self)@.contains_key(key@) ==> (r matches Some(f) && f@ == old(self)@[key@]
                && final(self)@ == old(self)@.insert(key@, final(f)@)),
            !old(self)@.contains_key(key@) ==> r is None && final(self)@ == old(self)@,
    {
        let ghost s = self.file_seq();
        match self.index_of(key) {
            Some(i) => {
                proof {
                    lemma_file_map_at(s, i as int);
                    lemma_entry_replaced(self.files@, i as int);
                }
                Some(&mut self.files[i].1)
            },
            None => None,
        }
    }

    /// The files in ascending key order, each with its key.
    pub fn files(&self) -> (r: &[(Vec<u8>, MemFileInfo)])
        requires
            self.wf(),
        ensures
            r@.map_values(|e: (Vec<u8>, MemFileInfo)| (e.0@, e.1@)) == self.file_seq(),
            keys_ascending(self.file_seq()),
            file_map(self.file_seq()) == self@,
    {
        self.files.as_slice()
    }
}

} // verus!
