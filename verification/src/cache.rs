//! The content-addressed download cache: blobs keyed by the hash of their
//! bytes, and aliases keyed by the hash of a URL, each pointing at one blob.
//! An alias is trusted only if the blob it points at still hashes to the
//! blob's own address; anything else counts as a miss and the alias is
//! discarded. The caller performs the network fetch on a miss and hands the
//! bytes back in.

use vstd::prelude::*;
use vstd::utf8::encode_utf8;
use crate::hashing::{content_hash, hash_of};
use crate::compile::copy_bytes;

verus! {

broadcast use vstd::seq::group_seq_axioms, vstd::std_specs::vec::group_vec_axioms;

/// Whether a lookup was answered from the cache, and the content hash either
/// way; a miss also reports how many bytes were fetched.
#[derive(Debug, Clone, Copy, PartialEq, Eq, Structural)]
pub enum CacheState {
    Hit { hash: u128 },
    Miss { bytes_downloaded: usize, hash: u128 },
}

/// The cache: content blobs addressed by the hash of their bytes, and
/// aliases from URL hashes to content addresses.
pub struct CacheStore {
    pub blobs: Vec<(u128, Vec<u8>)>,
    pub aliases: Vec<(u128, u128)>,
}

/// The mathematical value of [`CacheStore`].
pub struct CacheStoreV {
    pub blobs: Seq<(u128, Seq<u8>)>,
    pub aliases: Seq<(u128, u128)>,
}

impl View for CacheStore {
    type V = CacheStoreV;

    open spec fn view(&self) -> CacheStoreV {
        CacheStoreV {
            blobs: self.blobs@.map_values(|p: (u128, Vec<u8>)| (p.0, p.1@)),
            aliases: self.aliases@,
        }
    }
}

/// The URL hash under which an alias for this URL is filed.
pub open spec fn url_key(url: Seq<char>) -> u128 {
    hash_of(encode_utf8(url))
}

/// First-match blob lookup by content address.
pub open spec fn blob_lookup(blobs: Seq<(u128, Seq<u8>)>, addr: u128) -> Option<Seq<u8>>
    decreases blobs.len(),
{
    if blobs.len() == 0 {
        None
    } else if blobs[0].0 == addr {
        Some(blobs[0].1)
    } else {
        blob_lookup(blobs.drop_first(), addr)
    }
}

/// First-match alias lookup by URL hash.
pub open spec fn alias_lookup(aliases: Seq<(u128, u128)>, key: u128) -> Option<u128>
    decreases aliases.len(),
{
    if aliases.len() == 0 {
        None
    } else if aliases[0].0 == key {
        Some(aliases[0].1)
    } else {
        alias_lookup(aliases.drop_first(), key)
    }
}

/// The aliases with every entry for one URL hash removed, order kept.
pub open spec fn without_alias(aliases: Seq<(u128, u128)>, key: u128) -> Seq<(u128, u128)>
    decreases aliases.len(),
{
    if aliases.len() == 0 {
        Seq::empty()
    } else if aliases[0].0 == key {
        without_alias(aliases.drop_first(), key)
    } else {
        seq![aliases[0]] + without_alias(aliases.drop_first(), key)
    }
}

/// What a cache lookup finds: the blob's bytes and address, but only when
/// the alias is present, the blob is present, and the blob's bytes still
/// hash to its address.
pub open spec fn lookup_spec(s: CacheStoreV, url: Seq<char>) -> Option<(Seq<u8>, u128)> {
    match alias_lookup(s.aliases, url_key(url)) {
        Some(addr) => match blob_lookup(s.blobs, addr) {
            Some(data) => if hash_of(data) == addr {
                Some((data, addr))
            } else {
                None
            },
            None => None,
        },
        None => None,
    }
}

/// The store after a lookup: untouched on a hit; on a miss the alias for the
/// URL, stale or absent, is discarded.
pub open spec fn after_lookup(s: CacheStoreV, url: Seq<char>) -> CacheStoreV {
    if lookup_spec(s, url) is Some {
        s
    } else {
        CacheStoreV { aliases: without_alias(s.aliases, url_key(url)), ..s }
    }
}

/// The blobs with every entry at one address removed, order kept.
pub open spec fn without_blob(blobs: Seq<(u128, Seq<u8>)>, addr: u128) -> Seq<(u128, Seq<u8>)>
    decreases blobs.len(),
{
    if blobs.len() == 0 {
        Seq::empty()
    } else if blobs[0].0 == addr {
        without_blob(blobs.drop_first(), addr)
    } else {
        seq![blobs[0]] + without_blob(blobs.drop_first(), addr)
    }
}

/// The store after freshly produced bytes are inserted for a URL: the blob
/// under the hash of the bytes is written, the last writer winning over
/// whatever sat at that address; an alias is added unless one is already
/// present.
pub open spec fn insert_spec(s: CacheStoreV, url: Seq<char>, data: Seq<u8>) -> CacheStoreV {
    let addr = hash_of(data);
    let key = url_key(url);
    CacheStoreV {
        blobs: without_blob(s.blobs, addr).push((addr, data)),
        aliases: if alias_lookup(s.aliases, key) is Some {
            s.aliases
        } else {
            s.aliases.push((key, addr))
        },
    }
}

proof fn lemma_blob_lookup_without(blobs: Seq<(u128, Seq<u8>)>, addr: u128)
    ensures
        blob_lookup(without_blob(blobs, addr), addr) is None,
    decreases blobs.len(),
{
    reveal_with_fuel(blob_lookup, 2);
    if blobs.len() > 0 {
        lemma_blob_lookup_without(blobs.drop_first(), addr);
        if blobs[0].0 != addr {
            let rest = without_blob(blobs.drop_first(), addr);
            assert((seq![blobs[0]] + rest)[0] == blobs[0]);
            assert((seq![blobs[0]] + rest).drop_first() =~= rest);
        }
    }
}

proof fn lemma_without_blob_push(blobs: Seq<(u128, Seq<u8>)>, addr: u128, p: (u128, Seq<u8>))
    ensures
        without_blob(blobs.push(p), addr) == if p.0 == addr {
            without_blob(blobs, addr)
        } else {
            without_blob(blobs, addr).push(p)
        },
    decreases blobs.len(),
{
    reveal_with_fuel(without_blob, 3);
    if blobs.len() == 0 {
        assert(blobs.push(p).drop_first() =~= Seq::<(u128, Seq<u8>)>::empty());
        assert(blobs.push(p)[0] == p);
        if p.0 != addr {
            assert(without_blob(blobs.push(p), addr) =~= without_blob(blobs, addr).push(p));
        }
    } else {
        lemma_without_blob_push(blobs.drop_first(), addr, p);
        assert(blobs.push(p).drop_first() =~= blobs.drop_first().push(p));
        assert(blobs.push(p)[0] == blobs[0]);
        if p.0 == addr {
            assert(without_blob(blobs.push(p), addr) =~= without_blob(blobs, addr));
        } else {
            assert(without_blob(blobs.push(p), addr) =~= without_blob(blobs, addr).push(p));
        }
    }
}

proof fn lemma_alias_lookup_without(aliases: Seq<(u128, u128)>, key: u128)
    ensures
        alias_lookup(without_alias(aliases, key), key) is None,
    decreases aliases.len(),
{
    reveal_with_fuel(alias_lookup, 2);
    if aliases.len() > 0 {
        lemma_alias_lookup_without(aliases.drop_first(), key);
        if aliases[0].0 != key {
            let rest = without_alias(aliases.drop_first(), key);
            assert((seq![aliases[0]] + rest)[0] == aliases[0]);
            assert((seq![aliases[0]] + rest).drop_first() =~= rest);
        }
    }
}

proof fn lemma_without_alias_push(aliases: Seq<(u128, u128)>, key: u128, p: (u128, u128))
    ensures
        without_alias(aliases.push(p), key) == if p.0 == key {
            without_alias(aliases, key)
        } else {
            without_alias(aliases, key).push(p)
        },
    decreases aliases.len(),
{
    reveal_with_fuel(without_alias, 3);
    if aliases.len() == 0 {
        assert(aliases.push(p).drop_first() =~= Seq::<(u128, u128)>::empty());
        assert(aliases.push(p)[0] == p);
        if p.0 != key {
            assert(without_alias(aliases.push(p), key) =~= without_alias(aliases, key).push(p));
        }
    } else {
        lemma_without_alias_push(aliases.drop_first(), key, p);
        assert(aliases.push(p).drop_first() =~= aliases.drop_first().push(p));
        assert(aliases.push(p)[0] == aliases[0]);
        if p.0 == key {
            assert(without_alias(aliases.push(p), key) =~= without_alias(aliases, key));
        } else {
            assert(without_alias(aliases.push(p), key) =~= without_alias(aliases, key).push(p));
        }
    }
}

proof fn lemma_alias_lookup_push(aliases: Seq<(u128, u128)>, key: u128, addr: u128)
    requires
        alias_lookup(aliases, key) is None,
    ensures
        alias_lookup(aliases.push((key, addr)), key) == Some(addr),
    decreases aliases.len(),
{
    reveal_with_fuel(alias_lookup, 3);
    if aliases.len() == 0 {
        assert(aliases.push((key, addr))[0] == (key, addr));
    } else {
        lemma_alias_lookup_push(aliases.drop_first(), key, addr);
        assert(aliases.push((key, addr)).drop_first() =~= aliases.drop_first().push((key, addr)));
        assert(aliases.push((key, addr))[0] == aliases[0]);
    }
}

proof fn lemma_blob_lookup_push(blobs: Seq<(u128, Seq<u8>)>, addr: u128, data: Seq<u8>)
    requires
        blob_lookup(blobs, addr) is None,
    ensures
        blob_lookup(blobs.push((addr, data)), addr) == Some(data),
    decreases blobs.len(),
{
    reveal_with_fuel(blob_lookup, 3);
    if blobs.len() == 0 {
        assert(blobs.push((addr, data))[0] == (addr, data));
    } else {
        lemma_blob_lookup_push(blobs.drop_first(), addr, data);
        assert(blobs.push((addr, data)).drop_first() =~= blobs.drop_first().push((addr, data)));
        assert(blobs.push((addr, data))[0] == blobs[0]);
    }
}

/// One whole fetch through the cache: a hit returns the cached bytes and
/// leaves the store alone; a miss discards the alias, takes the produced
/// bytes, and files blob and alias. Returns (hit, bytes, store after).
pub open spec fn fetch_spec(s: CacheStoreV, url: Seq<char>, produced: Seq<u8>) -> (
    bool,
    Seq<u8>,
    CacheStoreV,
) {
    match lookup_spec(s, url) {
        Some(found) => (true, found.0, s),
        None => (false, produced, insert_spec(after_lookup(s, url), url, produced)),
    }
}

/// After an insert under a URL whose alias is absent, the URL hits with the
/// inserted bytes.
proof fn lemma_insert_then_hit(s: CacheStoreV, url: Seq<char>, data: Seq<u8>)
    requires
        alias_lookup(s.aliases, url_key(url)) is None,
    ensures
        lookup_spec(insert_spec(s, url, data), url) == Some((data, hash_of(data))),
{
    let addr = hash_of(data);
    let key = url_key(url);
    let s2 = insert_spec(s, url, data);
    lemma_alias_lookup_push(s.aliases, key, addr);
    assert(alias_lookup(s2.aliases, key) == Some(addr));
    lemma_blob_lookup_without(s.blobs, addr);
    lemma_blob_lookup_push(without_blob(s.blobs, addr), addr, data);
    assert(lookup_spec(s2, url) == Some((data, addr)));
}

/// Caching bytes under a URL twice in succession yields a hit on the second
/// fetch, with the bytes the first fetch returned.
pub proof fn lemma_cache_round_trip(s: CacheStoreV, url: Seq<char>, data: Seq<u8>)
    ensures
        ({
            let first = fetch_spec(s, url, data);
            let second = fetch_spec(first.2, url, data);
            second.0 == true && second.1 == first.1
        }),
{
    let key = url_key(url);
    if lookup_spec(s, url) is Some {
        // first fetch hits and leaves the store alone, so the second one
        // finds the very same answer
    } else {
        let s1 = after_lookup(s, url);
        assert(s1.blobs == s.blobs);
        lemma_alias_lookup_without(s.aliases, key);
        lemma_insert_then_hit(s1, url, data);
    }
}

proof fn lemma_blob_lookup_prefix(blobs: Seq<(u128, Seq<u8>)>, addr: u128, extra: (u128, Seq<u8>))
    requires
        extra.0 != addr,
    ensures
        blob_lookup(blobs.push(extra), addr) == blob_lookup(blobs, addr),
    decreases blobs.len(),
{
    reveal_with_fuel(blob_lookup, 3);
    if blobs.len() == 0 {
        assert(blobs.push(extra)[0] == extra);
        assert(blobs.push(extra).drop_first() =~= Seq::<(u128, Seq<u8>)>::empty());
    } else {
        lemma_blob_lookup_prefix(blobs.drop_first(), addr, extra);
        assert(blobs.push(extra).drop_first() =~= blobs.drop_first().push(extra));
        assert(blobs.push(extra)[0] == blobs[0]);
    }
}

/// A stale alias is never trusted: when the blob an alias points at no
/// longer hashes to the alias's address (or is gone), the fetch is a miss
/// that takes the freshly produced bytes, and it writes a fresh blob and
/// alias pair under which the URL then hits.
pub proof fn lemma_corrupted_blob_misses(s: CacheStoreV, url: Seq<char>, data: Seq<u8>)
    requires
        alias_lookup(s.aliases, url_key(url)) is Some,
        ({
            let addr = alias_lookup(s.aliases, url_key(url))->0;
            match blob_lookup(s.blobs, addr) {
                Some(blob) => hash_of(blob) != addr,
                None => true,
            }
        }),
    ensures
        lookup_spec(s, url) is None,
        ({
            let first = fetch_spec(s, url, data);
            first.0 == false && first.1 == data && lookup_spec(first.2, url) == Some(
                (data, hash_of(data)),
            )
        }),
{
    let key = url_key(url);
    let s1 = after_lookup(s, url);
    lemma_alias_lookup_without(s.aliases, key);
    lemma_insert_then_hit(s1, url, data);
}

impl CacheStore {
    /// An empty cache.
    pub fn new() -> (r: CacheStore)
        ensures
            r@.blobs == Seq::<(u128, Seq<u8>)>::empty(),
            r@.aliases == Seq::<(u128, u128)>::empty(),
    {
        let r = CacheStore { blobs: Vec::new(), aliases: Vec::new() };
        proof {
            assert(r@.blobs =~= Seq::<(u128, Seq<u8>)>::empty());
            assert(r@.aliases =~= Seq::<(u128, u128)>::empty());
        }
        r
    }

    /// Removes every alias filed under one URL hash.
    fn remove_alias(&mut self, key: u128)
        ensures
            final(self)@.aliases == without_alias(old(self)@.aliases, key),
            final(self)@.blobs == old(self)@.blobs,
    {
        let mut kept: Vec<(u128, u128)> = Vec::new();
        let mut i: usize = 0;
        proof {
            assert(kept@ =~= without_alias(self@.aliases.take(0), key)) by {
                assert(self@.aliases.take(0) =~= Seq::<(u128, u128)>::empty());
            }
        }
        while i < self.aliases.len()
            invariant
                i <= self.aliases@.len(),
                kept@ == without_alias(self.aliases@.take(i as int), key),
            decreases self.aliases@.len() - i,
        {
            let p = self.aliases[i];
            if p.0 != key {
                kept.push(p);
            }
            i = i + 1;
            proof {
                let pre = self.aliases@.take(i - 1);
                assert(self.aliases@.take(i as int) =~= pre.push(self.aliases@[i - 1]));
                lemma_without_alias_push(pre, key, self.aliases@[i - 1]);
            }
        }
        proof {
            assert(self.aliases@.take(self.aliases@.len() as int) =~= self.aliases@);
        }
        self.aliases = kept;
        proof {
            assert(final(self)@.blobs =~= old(self)@.blobs);
        }
    }

    /// Removes every blob filed under one content address.
    fn remove_blob(&mut self, addr: u128)
        ensures
            final(self)@.blobs == without_blob(old(self)@.blobs, addr),
            final(self)@.aliases == old(self)@.aliases,
    {
        let mut kept: Vec<(u128, Vec<u8>)> = Vec::new();
        let mut i: usize = 0;
        proof {
            assert(kept@.map_values(|p: (u128, Vec<u8>)| (p.0, p.1@)) =~= without_blob(
                self@.blobs.take(0),
                addr,
            )) by {
                assert(self@.blobs.take(0) =~= Seq::<(u128, Seq<u8>)>::empty());
            }
        }
        while i < self.blobs.len()
            invariant
                i <= self.blobs@.len(),
                self@.blobs.len() == self.blobs@.len(),
                forall|j: int| 0 <= j < self@.blobs.len() ==> #[trigger] self@.blobs[j] == (
                    self.blobs@[j].0,
                    self.blobs@[j].1@,
                ),
                kept@.map_values(|p: (u128, Vec<u8>)| (p.0, p.1@)) == without_blob(
                    self@.blobs.take(i as int),
                    addr,
                ),
            decreases self.blobs@.len() - i,
        {
            let ghost keptpre = kept@;
            if self.blobs[i].0 != addr {
                let d = copy_bytes(&self.blobs[i].1);
                kept.push((self.blobs[i].0, d));
                proof {
                    assert(kept@.map_values(|p: (u128, Vec<u8>)| (p.0, p.1@)) =~= keptpre
                        .map_values(|p: (u128, Vec<u8>)| (p.0, p.1@)).push(
                        self@.blobs[i as int],
                    ));
                }
            }
            i = i + 1;
            proof {
                let pre = self@.blobs.take(i - 1);
                assert(self@.blobs.take(i as int) =~= pre.push(self@.blobs[i - 1]));
                lemma_without_blob_push(pre, addr, self@.blobs[i - 1]);
            }
        }
        proof {
            assert(self@.blobs.take(self@.blobs.len() as int) =~= self@.blobs);
        }
        self.blobs = kept;
        proof {
            assert(final(self)@.aliases =~= old(self)@.aliases);
        }
    }

    /// Looks a URL up. A hit returns the cached bytes with their content
    /// address; a miss discards any alias for the URL and returns nothing,
    /// and the caller is expected to produce the bytes and call
    /// [`CacheStore::insert`].
    pub fn lookup(&mut self, url: &str) -> (r: Option<(Vec<u8>, u128)>)
        ensures
            match r {
                Some(found) => lookup_spec(old(self)@, url@) == Some((found.0@, found.1)),
                None => lookup_spec(old(self)@, url@) is None,
            },
            final(self)@ == after_lookup(old(self)@, url@),
    {
        let key = content_hash(url.as_bytes());
        let addr = match self.find_alias(key) {
            Some(a) => a,
            None => {
                self.remove_alias(key);
                proof {
                    assert(final(self)@ == after_lookup(old(self)@, url@));
                }
                return None;
            },
        };
        let data = match self.find_blob(addr) {
            Some(d) => d,
            None => {
                self.remove_alias(key);
                proof {
                    assert(final(self)@ == after_lookup(old(self)@, url@));
                }
                return None;
            },
        };
        let rehash = content_hash(data.as_slice());
        if rehash == addr {
            Some((data, addr))
        } else {
            self.remove_alias(key);
            proof {
                assert(final(self)@ == after_lookup(old(self)@, url@));
            }
            None
        }
    }

    /// First-match alias search.
    fn find_alias(&self, key: u128) -> (r: Option<u128>)
        ensures
            r == alias_lookup(self@.aliases, key),
    {
        let mut i: usize = 0;
        proof {
            assert(self@.aliases.skip(0) =~= self@.aliases);
        }
        while i < self.aliases.len()
            invariant
                i <= self.aliases@.len(),
                alias_lookup(self@.aliases, key) == alias_lookup(
                    self@.aliases.skip(i as int),
                    key,
                ),
            decreases self.aliases@.len() - i,
        {
            let ghost tail = self@.aliases.skip(i as int);
            if self.aliases[i].0 == key {
                proof {
                    assert(tail[0] == self@.aliases[i as int]);
                }
                return Some(self.aliases[i].1);
            }
            i = i + 1;
            proof {
                assert(tail[0] == self@.aliases[i - 1]);
                assert(tail.drop_first() =~= self@.aliases.skip(i as int));
            }
        }
        proof {
            assert(self@.aliases.skip(self@.aliases.len() as int) =~= Seq::<
                (u128, u128),
            >::empty());
        }
        None
    }

    /// First-match blob search, returning a copy of the bytes.
    fn find_blob(&self, addr: u128) -> (r: Option<Vec<u8>>)
        ensures
            match r {
                Some(d) => blob_lookup(self@.blobs, addr) == Some(d@),
                None => blob_lookup(self@.blobs, addr) is None,
            },
    {
        let mut i: usize = 0;
        proof {
            assert(self@.blobs.skip(0) =~= self@.blobs);
        }
        while i < self.blobs.len()
            invariant
                i <= self.blobs@.len(),
                self@.blobs.len() == self.blobs@.len(),
                forall|j: int| 0 <= j < self@.blobs.len() ==> #[trigger] self@.blobs[j] == (
                    self.blobs@[j].0,
                    self.blobs@[j].1@,
                ),
                blob_lookup(self@.blobs, addr) == blob_lookup(self@.blobs.skip(i as int), addr),
            decreases self.blobs@.len() - i,
        {
            let ghost tail = self@.blobs.skip(i as int);
            if self.blobs[i].0 == addr {
                proof {
                    assert(tail[0] == self@.blobs[i as int]);
                }
                return Some(copy_bytes(&self.blobs[i].1));
            }
            i = i + 1;
            proof {
                assert(tail[0] == self@.blobs[i - 1]);
                assert(tail.drop_first() =~= self@.blobs.skip(i as int));
            }
        }
        proof {
            assert(self@.blobs.skip(self@.blobs.len() as int) =~= Seq::<(u128, Seq<u8>)>::empty());
        }
        None
    }

    /// Inserts freshly produced bytes for a URL (see [`insert_spec`]) and
    /// returns their content hash.
    pub fn insert(&mut self, url: &str, data: &Vec<u8>) -> (h: u128)
        ensures
            h == hash_of(data@),
            final(self)@ == insert_spec(old(self)@, url@, data@),
    {
        let key = content_hash(url.as_bytes());
        let addr = content_hash(data.as_slice());
        self.remove_blob(addr);
        let ghost blobspre = self@.blobs;
        let stored = copy_bytes(data);
        self.blobs.push((addr, stored));
        proof {
            assert(self@.blobs =~= blobspre.push((addr, data@)));
        }
        let has_alias = match self.find_alias(key) {
            Some(_) => true,
            None => false,
        };
        if !has_alias {
            self.aliases.push((key, addr));
        }
        proof {
            assert(final(self)@ == insert_spec(old(self)@, url@, data@));
        }
        addr
    }
}

} // verus!
