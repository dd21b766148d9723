//! Storage locations: the URL at which a key's bytes are written and read.
use vstd::prelude::*;
use crate::bytes::{copy_bytes, append_bytes};

verus! {

pub const SLASH: u8 = 0x2F;

/// The segments of `s` between slashes, empty ones included; `cur` is the
/// segment read so far.
pub open spec fn split_from(s: Seq<u8>, cur: Seq<u8>) -> Seq<Seq<u8>>
    decreases s.len(),
{
    if s.len() == 0 {
        seq![cur]
    } else if s[0] == SLASH {
        seq![cur] + split_from(s.drop_first(), Seq::empty())
    } else {
        split_from(s.drop_first(), cur.push(s[0]))
    }
}

pub open spec fn split_slash(s: Seq<u8>) -> Seq<Seq<u8>> {
    split_from(s, Seq::empty())
}

/// Segments joined by slashes.
pub open spec fn join_slash(segs: Seq<Seq<u8>>) -> Seq<u8>
    decreases segs.len(),
{
    if segs.len() == 0 {
        Seq::empty()
    } else if segs.len() == 1 {
        segs[0]
    } else {
        join_slash(segs.drop_last()) + seq![SLASH] + segs.last()
    }
}

/// The segments from the first non-empty one on.
pub open spec fn trim_leading_empty(segs: Seq<Seq<u8>>) -> Seq<Seq<u8>>
    decreases segs.len(),
{
    if segs.len() > 0 && segs[0].len() == 0 {
        trim_leading_empty(segs.drop_first())
    } else {
        segs
    }
}

/// A storage base URL: scheme and authority (`http://host:port`), and the
/// segments of its path.
#[derive(Debug)]
pub struct BaseUrl {
    pub origin: Vec<u8>,
    pub segments: Vec<Vec<u8>>,
}

pub open spec fn segs_view(v: Seq<Vec<u8>>) -> Seq<Seq<u8>> {
    v.map_values(|x: Vec<u8>| x@)
}

/// The path segments of a key's location: the base path, then `d`, the
/// domain, `k`, and the key split on `/`, leading empty segments dropped.
pub open spec fn key_segments(base: Seq<Seq<u8>>, domain: Seq<u8>, key: Seq<u8>) -> Seq<Seq<u8>> {
    trim_leading_empty(base + seq![seq![0x64u8], domain, seq![0x6Bu8]] + split_slash(key))
}

/// The path that an `http` URL holds after its path is set to `path`, with
/// invalid UTF-8 replaced: percent-encoded as URLs write paths, starting
/// with `/`.
pub uninterp spec fn url_path(path: Seq<u8>) -> Seq<u8>;

/// Relies on `url::Url::set_path` and `url::Url::path`: the path an `http`
/// URL serialises after it is set to `path`, read as UTF-8 with invalid
/// sequences replaced (`String::from_utf8_lossy`).
#[verifier::external_body]
fn encoded_path(path: &[u8]) -> (r: Vec<u8>)
    ensures
        r@ == url_path(path@),
{
    let mut url = url::Url::parse("http://localhost/").unwrap();
    url.set_path(&String::from_utf8_lossy(path));
    url.path().as_bytes().to_vec()
}

/// The URL of a key: the base's origin, then the segments joined by `/` as
/// a URL path.
pub open spec fn key_url(origin: Seq<u8>, base: Seq<Seq<u8>>, domain: Seq<u8>, key: Seq<u8>) -> Seq<u8> {
    origin + url_path(join_slash(key_segments(base, domain, key)))
}

pub proof fn lemma_trim_skip(segs: Seq<Seq<u8>>, i: int)
    requires
        0 <= i <= segs.len(),
        forall|j: int| 0 <= j < i ==> (#[trigger] segs[j]).len() == 0,
        i < segs.len() ==> segs[i].len() > 0,
    ensures
        trim_leading_empty(segs) == segs.skip(i),
    decreases i,
{
    if i == 0 {
        assert(segs.skip(0) =~= segs);
    } else {
        assert(segs[0].len() == 0);
        assert(segs.drop_first().skip(i - 1) =~= segs.skip(i));
        lemma_trim_skip(segs.drop_first(), i - 1);
    }
}

/// The segments of `s` between slashes.
pub fn split_on_slash(s: &[u8]) -> (r: Vec<Vec<u8>>)
    ensures
        segs_view(r@) == split_slash(s@),
{
    let mut r: Vec<Vec<u8>> = Vec::new();
    let mut start: usize = 0;
    let mut i: usize = 0;
    assert(s@.skip(0) =~= s@);
    assert(s@.subrange(0, 0) =~= Seq::<u8>::empty());
    assert(segs_view(r@) =~= Seq::<Seq<u8>>::empty());
    while i < s.len()
        invariant
            start <= i <= s@.len(),
            split_slash(s@) == segs_view(r@) + split_from(s@.skip(i as int), s@.subrange(start as int, i as int)),
        decreases s@.len() - i,
    {
        let ghost rest = s@.skip(i as int);
        let ghost cur = s@.subrange(start as int, i as int);
        assert(rest.drop_first() =~= s@.skip(i as int + 1));
        if s[i] == SLASH {
            let ghost before = segs_view(r@);
            r.push(copy_bytes(&s[start..i]));
            assert(segs_view(r@) =~= before + seq![cur]);
            i = i + 1;
            start = i;
            assert(s@.subrange(start as int, i as int) =~= Seq::<u8>::empty());
        } else {
            assert(cur.push(s@[i as int]) =~= s@.subrange(start as int, i as int + 1));
            i = i + 1;
        }
        assert(split_slash(s@) =~= segs_view(r@) + split_from(s@.skip(i as int), s@.subrange(start as int, i as int)));
    }
    let ghost before = segs_view(r@);
    let ghost cur = s@.subrange(start as int, i as int);
    assert(s@.skip(i as int) =~= Seq::<u8>::empty());
    r.push(copy_bytes(&s[start..i]));
    assert(segs_view(r@) =~= before + seq![cur]);
    r
}

/// Appends the segments from index `from` on, joined by slashes.
fn join_into(out: &mut Vec<u8>, segs: &Vec<Vec<u8>>, from: usize)
    requires
        from <= segs@.len(),
    ensures
        final(out)@ == old(out)@ + join_slash(segs_view(segs@).skip(from as int)),
{
    let ghost start = out@;
    let ghost v = segs_view(segs@).skip(from as int);
    let mut i: usize = from;
    assert(v.take(0) =~= Seq::<Seq<u8>>::empty());
    assert(start + join_slash(v.take(0)) =~= start);
    while i < segs.len()
        invariant
            from <= i <= segs@.len(),
            v == segs_view(segs@).skip(from as int),
            out@ == start + join_slash(v.take(i - from)),
        decreases segs@.len() - i,
    {
        if i > from {
            out.push(SLASH);
        }
        append_bytes(out, segs[i].as_slice());
        proof {
            let t = v.take(i - from + 1);
            assert(t.drop_last() =~= v.take(i - from));
            assert(t.last() == segs@[i as int]@);
            if i == from {
                assert(v.take(i - from) =~= Seq::<Seq<u8>>::empty());
            }
        }
        i = i + 1;
        assert(out@ =~= start + join_slash(v.take(i - from)));
    }
    assert(v.take(segs@.len() - from) =~= v);
}

impl BaseUrl {
    pub fn new(origin: Vec<u8>, segments: Vec<Vec<u8>>) -> (r: BaseUrl)
        ensures
            r.origin@ == origin@,
            segs_view(r.segments@) == segs_view(segments@),
    {
        BaseUrl { origin, segments }
    }

    /// The location of `key` in `domain`.
    pub fn url_for_key(&self, domain: &[u8], key: &[u8]) -> (r: Vec<u8>)
        ensures
            r@ == key_url(self.origin@, segs_view(self.segments@), domain@, key@),
    {
        let mut all: Vec<Vec<u8>> = Vec::new();
        let mut i: usize = 0;
        while i < self.segments.len()
            invariant
                i <= self.segments@.len(),
                segs_view(all@) == segs_view(self.segments@).take(i as int),
            decreases self.segments@.len() - i,
        {
            let ghost before = all@;
            let c = copy_bytes(self.segments[i].as_slice());
            assert(c@ == self.segments@[i as int]@);
            all.push(c);
            assert(all@ == before.push(c));
            assert(segs_view(all@) =~= segs_view(before).push(c@));
            assert(segs_view(all@) =~= segs_view(self.segments@).take(i as int + 1));
            i = i + 1;
        }
        assert(segs_view(self.segments@).take(i as int) =~= segs_view(self.segments@));
        let ghost b = segs_view(all@);
        let mut d: Vec<u8> = Vec::new();
        d.push(0x64);
        let mut k: Vec<u8> = Vec::new();
        k.push(0x6B);
        all.push(d);
        all.push(copy_bytes(domain));
        all.push(k);
        let parts = split_on_slash(key);
        let ghost mid = segs_view(all@);
        assert(mid =~= b + seq![seq![0x64u8], domain@, seq![0x6Bu8]]);
        let mut j: usize = 0;
        while j < parts.len()
            invariant
                j <= parts@.len(),
                segs_view(all@) == mid + segs_view(parts@).take(j as int),
            decreases parts@.len() - j,
        {
            let ghost before = all@;
            let c = copy_bytes(parts[j].as_slice());
            assert(c@ == parts@[j as int]@);
            all.push(c);
            assert(all@ == before.push(c));
            assert(segs_view(all@) =~= segs_view(before).push(c@));
            assert(segs_view(all@) =~= mid + segs_view(parts@).take(j as int + 1));
            j = j + 1;
        }
        assert(segs_view(parts@).take(j as int) =~= segs_view(parts@));
        let ghost whole = segs_view(all@);
        let mut first: usize = 0;
        while first < all.len() && all[first].len() == 0
            invariant
                first <= all@.len(),
                whole == segs_view(all@),
                forall|x: int| 0 <= x < first ==> (#[trigger] whole[x]).len() == 0,
            decreases all@.len() - first,
        {
            first = first + 1;
        }
        proof {
            lemma_trim_skip(whole, first as int);
        }
        let mut path: Vec<u8> = Vec::new();
        join_into(&mut path, &all, first);
        assert(Seq::<u8>::empty() + join_slash(segs_view(all@).skip(first as int)) =~= join_slash(
            segs_view(all@).skip(first as int),
        ));
        let encoded = encoded_path(path.as_slice());
        let mut out = copy_bytes(self.origin.as_slice());
        append_bytes(&mut out, encoded.as_slice());
        out
    }
}

} // verus!
