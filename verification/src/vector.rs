//! The vector side of execution memory: the least-recently-used cache of
//! embeddings keyed by text hash, the local n-gram embedding provider's
//! configuration and feature buckets, and index pass accounting.

use std::hash::{Hash, Hasher};
use vstd::prelude::*;
use crate::chars::slice_chars;
use crate::memory::{default_hash, hash_text};
use crate::text::{chars_of, count_of, distinct_texts, string_of, strings_view, tally_texts};
use crate::memory::{lowercase, to_lowercase};

verus! {

/// Position of the entry with key `k`, or -1.
pub open spec fn key_index<V>(s: Seq<(u64, V)>, k: u64) -> int
    decreases s.len(),
{
    if s.len() == 0 {
        -1
    } else if s.last().0 == k {
        s.len() - 1
    } else {
        key_index(s.drop_last(), k)
    }
}

/// No key occurs twice.
pub open spec fn distinct_keys<V>(s: Seq<(u64, V)>) -> bool {
    forall|i: int, j: int| 0 <= i < j < s.len() ==> #[trigger] s[i].0 != #[trigger] s[j].0
}

/// `s` with its entry at `i` moved to the most recently used end.
pub open spec fn touched<V>(s: Seq<(u64, V)>, i: int) -> Seq<(u64, V)> {
    s.remove(i).push(s[i])
}

/// The entries after storing `(k, v)` in a cache of `capacity` entries: an
/// entry for `k` is replaced and becomes the most recently used; otherwise,
/// when the cache is full, the least recently used entry is evicted first.
pub open spec fn stored<V>(s: Seq<(u64, V)>, capacity: nat, k: u64, v: V) -> Seq<(u64, V)> {
    let i = key_index(s, k);
    if capacity == 0 {
        s
    } else if i >= 0 {
        s.remove(i).push((k, v))
    } else if s.len() >= capacity && s.len() > 0 {
        s.drop_first().push((k, v))
    } else {
        s.push((k, v))
    }
}

/// What `key_index` finds: a position holding the key, or none at all.
pub proof fn lemma_key_index<V>(s: Seq<(u64, V)>, k: u64)
    ensures
        -1 <= key_index(s, k) < s.len(),
        key_index(s, k) >= 0 ==> s[key_index(s, k)].0 == k,
        key_index(s, k) < 0 ==> forall|j: int| 0 <= j < s.len() ==> #[trigger] s[j].0 != k,
    decreases s.len(),
{
    if s.len() > 0 && s.last().0 != k {
        lemma_key_index(s.drop_last(), k);
        assert forall|j: int| key_index(s, k) < 0 && 0 <= j < s.len() implies #[trigger] s[j].0 != k by {
            if j < s.len() - 1 {
                assert(s.drop_last()[j] == s[j]);
            }
        }
    }
}

/// With distinct keys, the position of a key is the one holding it.
pub proof fn lemma_key_index_distinct<V>(s: Seq<(u64, V)>, i: int)
    requires
        distinct_keys(s),
        0 <= i < s.len(),
    ensures
        key_index(s, s[i].0) == i,
    decreases s.len(),
{
    if i < s.len() - 1 {
        assert(s.last().0 != s[i].0);
        assert(distinct_keys(s.drop_last()));
        assert(s.drop_last()[i] == s[i]);
        lemma_key_index_distinct(s.drop_last(), i);
    }
}

/// The mathematical value of an [`EmbeddingCache`].
pub struct CacheView<V> {
    pub capacity: nat,
    /// Entries from least to most recently used.
    pub entries: Seq<(u64, V)>,
    pub hits: u64,
    pub misses: u64,
}

/// Least-recently-used cache of embeddings, keyed by the stable hash of
/// their text, with hit and miss counters. A capacity of zero disables it.
pub struct EmbeddingCache<V> {
    capacity: usize,
    entries: Vec<(u64, V)>,
    hits: u64,
    misses: u64,
}

/// Statistics of a cache.
#[derive(Clone, Copy)]
pub struct CacheStats {
    pub size: usize,
    pub capacity: usize,
    pub hits: u64,
    pub misses: u64,
}

impl<V> View for EmbeddingCache<V> {
    type V = CacheView<V>;

    closed spec fn view(&self) -> CacheView<V> {
        CacheView { capacity: self.capacity as nat, entries: self.entries@, hits: self.hits, misses: self.misses }
    }
}

/// `n + 1`, wrapping at the top of `u64`.
pub open spec fn bump(n: u64) -> u64 {
    if n == u64::MAX {
        0
    } else {
        (n + 1) as u64
    }
}

impl<V> EmbeddingCache<V> {
    #[verifier::type_invariant]
    spec fn well_formed(self) -> bool {
        &&& distinct_keys(self.entries@)
        &&& self.entries@.len() <= self.capacity
    }

    /// An empty cache of the given capacity (0 disables it).
    pub fn new(capacity: usize) -> (r: Self)
        ensures
            r@.capacity == capacity,
            r@.entries.len() == 0,
            r@.hits == 0,
            r@.misses == 0,
    {
        EmbeddingCache { capacity, entries: Vec::new(), hits: 0, misses: 0 }
    }

    /// Position of the entry with key `k`.
    fn find(&self, k: u64) -> (r: Option<usize>)
        ensures
            match r {
                None => key_index(self.entries@, k) == -1,
                Some(i) => i as int == key_index(self.entries@, k) && i < self.entries@.len(),
            },
    {
        proof {
            lemma_key_index(self.entries@, k);
        }
        let mut i = self.entries.len();
        assert(self.entries@.take(i as int) =~= self.entries@);
        while i > 0
            invariant
                i <= self.entries@.len(),
                key_index(self.entries@, k) == key_index(self.entries@.take(i as int), k),
            decreases i,
        {
            proof {
                assert(self.entries@.take(i as int).drop_last() =~= self.entries@.take(i - 1));
                assert(self.entries@.take(i as int).last() == self.entries@[i - 1]);
            }
            if self.entries[i - 1].0 == k {
                return Some(i - 1);
            }
            i = i - 1;
        }
        None
    }

    /// Looks up the embedding of a text, counting a hit or a miss; a hit
    /// makes the entry the most recently used.
    pub fn get(&mut self, text: &str) -> (r: Option<V>) where V: Clone
        ensures
            final(self)@.capacity == old(self)@.capacity,
            ({
                let k = default_hash(text@);
                let i = key_index(old(self)@.entries, k);
                if old(self)@.capacity == 0 || i < 0 {
                    &&& r is None
                    &&& final(self)@.entries == old(self)@.entries
                    &&& final(self)@.misses == bump(old(self)@.misses)
                    &&& final(self)@.hits == old(self)@.hits
                } else {
                    &&& r matches Some(v) && cloned(old(self)@.entries[i].1, v)
                    &&& final(self)@.entries == touched(old(self)@.entries, i)
                    &&& final(self)@.hits == bump(old(self)@.hits)
                    &&& final(self)@.misses == old(self)@.misses
                }
            }),
    {
        proof {
            use_type_invariant(&*self);
        }
        if self.capacity == 0 {
            self.misses = self.misses.wrapping_add(1);
            return None;
        }
        let k = hash_text(text);
        match self.find(k) {
            None => {
                self.misses = self.misses.wrapping_add(1);
                None
            },
            Some(i) => {
                let v = self.entries[i].1.clone();
                let mut entries: Vec<(u64, V)> = Vec::new();
                std::mem::swap(&mut entries, &mut self.entries);
                let ghost before = entries@;
                let entry = entries.remove(i);
                entries.push(entry);
                proof {
                    assert(entries@ =~= touched(before, i as int));
                    assert forall|a: int, b: int| 0 <= a < b < entries@.len() implies #[trigger] entries@[a].0
                        != #[trigger] entries@[b].0 by {
                        let pa = if a < i { a } else { a + 1 };
                        let pb = if b == entries@.len() - 1 { i as int } else if b < i { b } else { b + 1 };
                        assert(pa != pb);
                        if pa < pb {
                            assert(before[pa].0 != before[pb].0);
                        } else {
                            assert(before[pb].0 != before[pa].0);
                        }
                    }
                }
                self.entries = entries;
                self.hits = self.hits.wrapping_add(1);
                Some(v)
            },
        }
    }

    /// Stores the embedding of a text (see [`stored`]); a disabled cache
    /// keeps nothing.
    pub fn put(&mut self, text: String, value: V)
        ensures
            final(self)@.capacity == old(self)@.capacity,
            final(self)@.entries == stored(old(self)@.entries, old(self)@.capacity, default_hash(text@), value),
            final(self)@.hits == old(self)@.hits,
            final(self)@.misses == old(self)@.misses,
            final(self)@.entries.len() <= final(self)@.capacity,
            distinct_keys(final(self)@.entries),
    {
        proof {
            use_type_invariant(&*self);
        }
        if self.capacity == 0 {
            return;
        }
        let k = hash_text(text.as_str());
        let found = self.find(k);
        let mut entries: Vec<(u64, V)> = Vec::new();
        std::mem::swap(&mut entries, &mut self.entries);
        let ghost before = entries@;
        proof {
            lemma_key_index(before, k);
        }
        match found {
            Some(i) => {
                entries.remove(i);
                entries.push((k, value));
                proof {
                    assert(entries@ =~= before.remove(i as int).push((k, value)));
                    assert forall|a: int, b: int| 0 <= a < b < entries@.len() implies #[trigger] entries@[a].0
                        != #[trigger] entries@[b].0 by {
                        let pa = if a < i { a } else { a + 1 };
                        if b == entries@.len() - 1 {
                            assert(before[pa].0 != before[i as int].0);
                        } else {
                            let pb = if b < i { b } else { b + 1 };
                            assert(before[pa].0 != before[pb].0);
                        }
                    }
                }
            },
            None => {
                if entries.len() >= self.capacity && entries.len() > 0 {
                    entries.remove(0);
                    proof {
                        assert(entries@ =~= before.drop_first());
                    }
                }
                let ghost mid = entries@;
                entries.push((k, value));
                proof {
                    assert forall|j: int| 0 <= j < mid.len() implies #[trigger] mid[j].0 != k by {
                        if before.len() >= self.capacity && before.len() > 0 {
                            assert(mid[j] == before[j + 1]);
                        } else {
                            assert(mid[j] == before[j]);
                        }
                    }
                    assert forall|a: int, b: int| 0 <= a < b < entries@.len() implies #[trigger] entries@[a].0
                        != #[trigger] entries@[b].0 by {
                        if b < mid.len() {
                            if before.len() >= self.capacity && before.len() > 0 {
                                assert(mid[a] == before[a + 1] && mid[b] == before[b + 1]);
                            } else {
                                assert(mid[a] == before[a] && mid[b] == before[b]);
                            }
                        } else {
                            assert(entries@[a] == mid[a]);
                        }
                    }
                }
            },
        }
        self.entries = entries;
        proof {
            use_type_invariant(&*self);
        }
    }

    /// Removes every entry and resets the counters.
    pub fn clear(&mut self)
        ensures
            final(self)@.capacity == old(self)@.capacity,
            final(self)@.entries.len() == 0,
            final(self)@.hits == 0,
            final(self)@.misses == 0,
    {
        self.entries = Vec::new();
        self.hits = 0;
        self.misses = 0;
    }

    /// The current statistics.
    pub fn stats(&self) -> (r: CacheStats)
        ensures
            r.size == self@.entries.len(),
            r.capacity == self@.capacity,
            r.hits == self@.hits,
            r.misses == self@.misses,
    {
        CacheStats { size: self.entries.len(), capacity: self.capacity, hits: self.hits, misses: self.misses }
    }
}

/// Outcome of an index pass.
#[derive(Clone, Copy)]
pub struct IndexResult {
    /// Records examined by the pass.
    pub requested: usize,
    /// Records embedded and indexed.
    pub indexed: usize,
    /// Records whose embedding failed.
    pub failed: usize,
    /// Records skipped.
    pub skipped: usize,
}

impl Default for IndexResult {
    fn default() -> (r: Self)
        ensures
            r.requested == 0 && r.indexed == 0 && r.failed == 0 && r.skipped == 0,
    {
        IndexResult { requested: 0, indexed: 0, failed: 0, skipped: 0 }
    }
}

/// Local n-gram hashing embedding provider (its configuration).
#[derive(Clone, Copy)]
pub struct LocalVectorProvider {
    dimensions: usize,
}

impl LocalVectorProvider {
    /// A provider of the given dimensionality.
    pub fn new(dimensions: usize) -> (r: Self)
        ensures
            r.spec_dimensions() == dimensions,
    {
        LocalVectorProvider { dimensions }
    }

    /// The provider's dimensionality.
    pub closed spec fn spec_dimensions(self) -> usize {
        self.dimensions
    }

    /// The embedding dimensionality.
    pub fn dimensions(&self) -> (r: usize)
        ensures
            r == self.spec_dimensions(),
    {
        self.dimensions
    }

    /// The provider's name.
    pub fn name(&self) -> (r: &'static str)
        ensures
            r@ == "local-ngram"@,
    {
        "local-ngram"
    }
}

impl Default for LocalVectorProvider {
    fn default() -> (r: Self)
        ensures
            r.spec_dimensions() == 384,
    {
        LocalVectorProvider::new(384)
    }
}

/// Hashes a feature with a seed: a fresh `DefaultHasher` (fixed keys) fed
/// the seed (`u64::hash`, in the machine's byte order) and then the feature
/// (`str::hash`), finished. Nothing is claimed of the value: it may differ
/// from one platform to another.
#[verifier::external_body]
pub(crate) fn hash_seeded(feature: &str, seed: u64) -> (r: u64) {
    let mut hasher = std::collections::hash_map::DefaultHasher::new();
    seed.hash(&mut hasher);
    feature.hash(&mut hasher);
    hasher.finish()
}

/// The bucket and the sign that two feature hashes give in an embedding of
/// `dimensions` entries: the first hash modulo the dimensionality, and
/// whether the second is even.
pub fn bucket_of_hashes(first: u64, second: u64, dimensions: usize) -> (r: (usize, bool))
    requires
        dimensions > 0,
    ensures
        r.0 == first % (dimensions as u64),
        r.0 < dimensions,
        r.1 == (second % 2 == 0),
{
    let bucket = (first % (dimensions as u64)) as usize;
    (bucket, second % 2 == 0)
}

/// The bucket a feature adds to in an embedding of `dimensions` entries,
/// and whether it adds positively: [`bucket_of_hashes`] of the feature's
/// seed-0 and seed-1 hashes. The hashes are not stated, so neither is
/// the bucket beyond its range.
pub fn feature_bucket(feature: &str, dimensions: usize) -> (r: (usize, bool))
    requires
        dimensions > 0,
    ensures
        r.0 < dimensions,
{
    let first = hash_seeded(feature, 0);
    let second = hash_seeded(feature, 1);
    bucket_of_hashes(first, second, dimensions)
}

/// In an enabled cache, a stored value is found again under its key, as
/// the most recently used entry; the cache never grows past its capacity.
pub proof fn lemma_stored_then_found<V>(s: Seq<(u64, V)>, capacity: nat, k: u64, v: V)
    requires
        capacity > 0,
        s.len() <= capacity,
    ensures
        key_index(stored(s, capacity, k, v), k) == stored(s, capacity, k, v).len() - 1,
        stored(s, capacity, k, v).last() == (k, v),
        stored(s, capacity, k, v).len() <= capacity,
{
    lemma_key_index(s, k);
}

/// Shortest character n-gram taken from a word.
pub const MIN_NGRAM: usize = 3;

/// Longest character n-gram taken from a word.
pub const MAX_NGRAM: usize = 5;

/// The character n-grams of `w` of length `size`, by starting position.
pub open spec fn grams(w: Seq<char>, size: nat) -> Seq<Seq<char>> {
    Seq::new((w.len() + 1 - size) as nat, |s: int| w.subrange(s, s + size))
}

/// The n-grams of `w` of every length from [`MIN_NGRAM`] to `size`,
/// shorter ones first.
pub open spec fn grams_upto(w: Seq<char>, size: nat) -> Seq<Seq<char>>
    decreases size,
{
    if size < MIN_NGRAM {
        Seq::empty()
    } else {
        grams_upto(w, (size - 1) as nat) + grams(w, size)
    }
}

/// The features of a word for the embedding: the word itself and, for a
/// word longer than [`MIN_NGRAM`] characters, its n-grams of
/// [`MIN_NGRAM`] to [`MAX_NGRAM`] characters.
pub open spec fn word_features(w: Seq<char>) -> Seq<Seq<char>> {
    seq![w] + if w.len() > MIN_NGRAM {
        grams_upto(w, if w.len() < MAX_NGRAM { w.len() } else { MAX_NGRAM as nat })
    } else {
        Seq::empty()
    }
}

/// The features of a word (see [`word_features`]).
pub fn features_of_word(word: &str) -> (r: Vec<String>)
    ensures
        strings_view(r@) == word_features(word@),
{
    let chars = chars_of(word);
    let n = chars.len();
    let mut out: Vec<String> = Vec::new();
    out.push(String::from_str(word));
    proof {
        assert(strings_view(out@) =~= seq![word@]);
    }
    if n > MIN_NGRAM {
        let top: usize = if n < MAX_NGRAM {
            n
        } else {
            MAX_NGRAM
        };
        let mut size: usize = MIN_NGRAM;
        proof {
            assert(grams_upto(word@, (MIN_NGRAM - 1) as nat) =~= Seq::<Seq<char>>::empty());
            assert(strings_view(out@) =~= seq![word@] + grams_upto(word@, (MIN_NGRAM - 1) as nat));
        }
        while size <= top
            invariant
                chars@ == word@,
                n == chars@.len(),
                MIN_NGRAM <= size <= top + 1,
                top <= n,
                top <= MAX_NGRAM,
                strings_view(out@) == seq![word@] + grams_upto(word@, (size - 1) as nat),
            decreases top + 1 - size,
        {
            let ghost before = strings_view(out@);
            let mut start: usize = 0;
            while start <= n - size
                invariant
                    chars@ == word@,
                    n == chars@.len(),
                    MIN_NGRAM <= size <= n,
                    start <= n + 1 - size,
                    strings_view(out@) == before + grams(word@, size as nat).take(start as int),
                decreases n + 1 - size - start,
            {
                let piece = slice_chars(&chars, start, start + size);
                let ghost prev = out@;
                out.push(string_of(piece.as_slice()));
                proof {
                    assert(grams(word@, size as nat)[start as int] == word@.subrange(start as int, start + size));
                    assert(grams(word@, size as nat).take(start + 1) =~= grams(word@, size as nat).take(
                        start as int,
                    ).push(word@.subrange(start as int, start + size)));
                    assert(strings_view(out@) =~= strings_view(prev).push(piece@));
                }
                start = start + 1;
            }
            proof {
                assert(grams(word@, size as nat).take(start as int) =~= grams(word@, size as nat));
                assert(grams_upto(word@, size as nat) == grams_upto(word@, (size - 1) as nat) + grams(
                    word@,
                    size as nat,
                ));
            }
            size = size + 1;
        }
    } else {
        proof {
            assert(strings_view(out@) =~= word_features(word@));
        }
    }
    out
}

/// Whether a character is alphanumeric (`char::is_alphanumeric`).
pub uninterp spec fn alphanumeric(c: char) -> bool;

/// Tests a character: `char::is_alphanumeric`. The answer is named
/// [`alphanumeric`] of the character; the Unicode tables behind it are not
/// restated.
#[verifier::external_body]
fn is_alphanumeric(c: char) -> (r: bool)
    ensures
        r == alphanumeric(c),
{
    c.is_alphanumeric()
}

/// The pieces of `text` between its characters that are not
/// alphanumeric, in order, empty ones included (as `str::split` cuts a
/// text at each separator).
pub open spec fn pieces(text: Seq<char>) -> Seq<Seq<char>>
    decreases text.len(),
{
    if text.len() == 0 {
        seq![Seq::empty()]
    } else {
        let rest = pieces(text.drop_last());
        if alphanumeric(text.last()) {
            rest.update(rest.len() - 1, rest.last().push(text.last()))
        } else {
            rest.push(Seq::empty())
        }
    }
}

/// A text cut into pieces has at least one piece.
proof fn lemma_pieces_len(text: Seq<char>)
    ensures
        pieces(text).len() >= 1,
    decreases text.len(),
{
    if text.len() > 0 {
        lemma_pieces_len(text.drop_last());
    }
}

/// The lower-cased pieces that are not empty, in order.
pub open spec fn tokens_of(ps: Seq<Seq<char>>) -> Seq<Seq<char>>
    decreases ps.len(),
{
    if ps.len() == 0 {
        Seq::empty()
    } else {
        tokens_of(ps.drop_last()) + if lowercase(ps.last()).len() > 0 {
            seq![lowercase(ps.last())]
        } else {
            Seq::empty()
        }
    }
}

/// The words of a text for the embedding: its pieces between
/// non-alphanumeric characters, lower-cased, the empty ones dropped.
pub open spec fn words(text: Seq<char>) -> Seq<Seq<char>> {
    tokens_of(pieces(text))
}

/// The features of every word, word by word.
pub open spec fn all_features(ws: Seq<Seq<char>>) -> Seq<Seq<char>>
    decreases ws.len(),
{
    if ws.len() == 0 {
        Seq::empty()
    } else {
        all_features(ws.drop_last()) + word_features(ws.last())
    }
}

/// Appends the lower-cased piece `piece` to `out` unless it is empty.
fn push_token(out: &mut Vec<String>, piece: &Vec<char>)
    ensures
        strings_view(final(out)@) == strings_view(old(out)@) + if lowercase(piece@).len() > 0 {
            seq![lowercase(piece@)]
        } else {
            Seq::<Seq<char>>::empty()
        },
{
    let text = string_of(piece.as_slice());
    let word = to_lowercase(text.as_str());
    let ghost before = strings_view(out@);
    if word.unicode_len() > 0 {
        out.push(word);
        proof {
            assert(strings_view(out@) =~= before + seq![lowercase(piece@)]);
        }
    } else {
        proof {
            assert(strings_view(out@) =~= before + Seq::<Seq<char>>::empty());
        }
    }
}

/// The words of a text (see [`words`]).
pub fn words_of(text: &str) -> (r: Vec<String>)
    ensures
        strings_view(r@) == words(text@),
{
    let n = text.unicode_len();
    let mut out: Vec<String> = Vec::new();
    let mut piece: Vec<char> = Vec::new();
    let mut i: usize = 0;
    proof {
        assert(text@.take(0) =~= Seq::<char>::empty());
        assert(pieces(Seq::<char>::empty()).drop_last() =~= Seq::<Seq<char>>::empty());
        assert(strings_view(out@) =~= Seq::<Seq<char>>::empty());
    }
    while i < n
        invariant
            n == text@.len(),
            i <= n,
            pieces(text@.take(i as int)).len() >= 1,
            strings_view(out@) == tokens_of(pieces(text@.take(i as int)).drop_last()),
            piece@ == pieces(text@.take(i as int)).last(),
        decreases n - i,
    {
        let c = text.get_char(i);
        let ghost prefix = text@.take(i as int);
        let ghost ps = pieces(prefix);
        proof {
            assert(text@.take(i + 1).drop_last() =~= prefix);
            assert(text@.take(i + 1).last() == c);
            lemma_pieces_len(prefix);
        }
        if is_alphanumeric(c) {
            piece.push(c);
            proof {
                let next = ps.update(ps.len() - 1, ps.last().push(c));
                assert(pieces(text@.take(i + 1)) == next);
                assert(next.drop_last() =~= ps.drop_last());
            }
        } else {
            push_token(&mut out, &piece);
            piece = Vec::new();
            proof {
                let next = ps.push(Seq::<char>::empty());
                assert(pieces(text@.take(i + 1)) == next);
                assert(next.drop_last() =~= ps);
                assert(ps.drop_last().push(ps.last()) =~= ps);
                assert(piece@ =~= Seq::<char>::empty());
            }
        }
        i = i + 1;
    }
    let ghost ps = pieces(text@);
    proof {
        assert(text@.take(n as int) =~= text@);
        lemma_pieces_len(text@);
        assert(ps.drop_last().push(ps.last()) =~= ps);
        assert(ps.drop_last() == ps.subrange(0, ps.len() - 1));
    }
    push_token(&mut out, &piece);
    proof {
        let q = ps.drop_last().push(ps.last());
        assert(q.drop_last() =~= ps.drop_last());
        assert(q.last() == ps.last());
    }
    out
}

/// The features of a text's words with how often each occurs, each feature
/// once, in the order it first occurs.
pub fn feature_counts(text: &str) -> (r: (Vec<String>, Vec<usize>))
    ensures
        strings_view(r.0@) == distinct_texts(all_features(words(text@))),
        r.1@.len() == r.0@.len(),
        forall|j: int| 0 <= j < r.1@.len() ==> #[trigger] r.1@[j] == count_of(all_features(words(text@)), r.0@[j]@),
{
    let ws = words_of(text);
    let mut features: Vec<String> = Vec::new();
    let mut i: usize = 0;
    while i < ws.len()
        invariant
            i <= ws@.len(),
            strings_view(features@) == all_features(strings_view(ws@).take(i as int)),
        decreases ws@.len() - i,
    {
        let fs = features_of_word(ws[i].as_str());
        let ghost before = strings_view(features@);
        let mut k: usize = 0;
        while k < fs.len()
            invariant
                k <= fs@.len(),
                strings_view(features@) == before + strings_view(fs@).take(k as int),
            decreases fs@.len() - k,
        {
            let ghost mid = features@;
            let f = fs[k].clone();
            features.push(f);
            proof {
                assert(f@ == fs@[k as int]@);
                assert(strings_view(features@) =~= strings_view(mid).push(f@));
                assert(strings_view(fs@).take(k + 1) =~= strings_view(fs@).take(k as int).push(fs@[k as int]@));
                assert(strings_view(features@) =~= before + strings_view(fs@).take(k + 1));
            }
            k = k + 1;
        }
        proof {
            assert(strings_view(fs@).take(fs@.len() as int) =~= strings_view(fs@));
            let w = strings_view(ws@);
            assert(w.take(i + 1).drop_last() =~= w.take(i as int));
            assert(w.take(i + 1).last() == ws@[i as int]@);
        }
        i = i + 1;
    }
    proof {
        assert(strings_view(ws@).take(ws@.len() as int) =~= strings_view(ws@));
    }
    tally_texts(&features)
}

} // verus!
