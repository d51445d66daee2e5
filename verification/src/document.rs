//! Output records: documents with open-ended metadata.
//!
//! A document carries one original sentence as its content and a
//! key-to-value metadata mapping; the assembler binds the key
//! `"embedding"` to the vector computed for the sentence's window.

use vstd::prelude::*;

verus! {

/// The failure an embedding backend reports.  A batch fails as a
/// unit; the message describes the cause.
#[derive(Debug)]
pub struct BackendError {
    pub message: String,
}

/// Open-ended metadata: string keys bound to values.  A later
/// binding of a key replaces an earlier one.
pub struct Metadata<V> {
    entries: Vec<(String, V)>,
}

/// The mapping denoted by a sequence of key/value pairs, where the
/// latest pair for a key wins.
pub open spec fn map_of<V>(pairs: Seq<(Seq<char>, V)>) -> Map<Seq<char>, V>
    decreases pairs.len(),
{
    if pairs.len() == 0 {
        Map::empty()
    } else {
        map_of(pairs.drop_last()).insert(pairs.last().0, pairs.last().1)
    }
}

/// A key is bound exactly when some pair carries it.
proof fn lemma_map_of_contains<V>(pairs: Seq<(Seq<char>, V)>, k: Seq<char>)
    ensures
        map_of(pairs).dom().contains(k) <==> exists|j: int|
            0 <= j < pairs.len() && (#[trigger] pairs[j]).0 == k,
    decreases pairs.len(),
{
    if pairs.len() > 0 {
        let prev = pairs.drop_last();
        lemma_map_of_contains(prev, k);
        assert(forall|j: int| 0 <= j < prev.len() ==> #[trigger] prev[j] == pairs[j]);
        if pairs.last().0 == k {
            assert((pairs[pairs.len() - 1]).0 == k);
        } else {
            if map_of(pairs).dom().contains(k) {
                let j = choose|j: int| 0 <= j < prev.len() && (#[trigger] prev[j]).0 == k;
                assert((pairs[j]).0 == k);
            }
            if exists|j: int| 0 <= j < pairs.len() && (#[trigger] pairs[j]).0 == k {
                let j = choose|j: int| 0 <= j < pairs.len() && (#[trigger] pairs[j]).0 == k;
                assert(j < prev.len());
                assert((prev[j]).0 == k);
            }
        }
    }
}

/// The value bound to a key is the one of the latest pair that
/// carries the key.
proof fn lemma_map_of_latest<V>(pairs: Seq<(Seq<char>, V)>, k: Seq<char>, j: int)
    requires
        0 <= j < pairs.len(),
        (pairs[j]).0 == k,
        forall|l: int| j < l < pairs.len() ==> (#[trigger] pairs[l]).0 != k,
    ensures
        map_of(pairs).dom().contains(k),
        map_of(pairs)[k] == (pairs[j]).1,
    decreases pairs.len(),
{
    if j == pairs.len() - 1 {
    } else {
        let prev = pairs.drop_last();
        assert(forall|l: int| 0 <= l < prev.len() ==> #[trigger] prev[l] == pairs[l]);
        lemma_map_of_latest(prev, k, j);
        assert((pairs[pairs.len() - 1]).0 != k);
    }
}

impl<V> Metadata<V> {
    /// The key/value pairs held, keys as character sequences.
    pub closed spec fn pairs(self) -> Seq<(Seq<char>, V)> {
        self.entries@.map_values(|p: (String, V)| (p.0@, p.1))
    }

    /// An empty mapping.
    pub fn new() -> (r: Self)
        ensures
            r@ == Map::<Seq<char>, V>::empty(),
    {
        let r = Metadata { entries: Vec::new() };
        proof {
            assert(r.pairs() =~= Seq::<(Seq<char>, V)>::empty());
        }
        r
    }

    /// Bind `key` to `value`, replacing any earlier binding.
    pub fn insert(&mut self, key: String, value: V)
        ensures
            final (self)@ == old(self)@.insert(key@, value),
    {
        let ghost prev = self.pairs();
        self.entries.push((key, value));
        proof {
            assert(self.pairs() =~= prev.push((key@, value)));
            assert(self.pairs().drop_last() =~= prev);
            assert(self.pairs().last() == (key@, value));
        }
    }

    /// Whether `key` is bound.
    pub fn contains_key(&self, key: &str) -> (r: bool)
        ensures
            r == self@.dom().contains(key@),
    {
        let k = key.to_owned();
        let n = self.entries.len();
        let mut i: usize = 0;
        while i < n
            invariant
                0 <= i <= n,
                n == self.entries@.len(),
                k@ == key@,
                forall|j: int| 0 <= j < i ==> (#[trigger] self.pairs()[j]).0 != key@,
            decreases n - i,
        {
            let p = &self.entries[i];
            if p.0 == k {
                proof {
                    assert((self.pairs()[i as int]).0 == key@);
                    lemma_map_of_contains(self.pairs(), key@);
                }
                return true;
            }
            proof {
                assert((self.pairs()[i as int]).0 == self.entries@[i as int].0@);
            }
            i = i + 1;
        }
        proof {
            lemma_map_of_contains(self.pairs(), key@);
        }
        false
    }

    /// The value bound to `key`, when there is one.
    pub fn get(&self, key: &str) -> (r: Option<&V>)
        ensures
            match r {
                Some(v) => self@.dom().contains(key@) && *v == self@[key@],
                None => !self@.dom().contains(key@),
            },
    {
        let k = key.to_owned();
        let n = self.entries.len();
        let mut i: usize = n;
        while i > 0
            invariant
                0 <= i <= n,
                n == self.entries@.len(),
                k@ == key@,
                forall|j: int| i <= j < n ==> (#[trigger] self.pairs()[j]).0 != key@,
            decreases i,
        {
            i = i - 1;
            let p = &self.entries[i];
            if p.0 == k {
                proof {
                    assert((self.pairs()[i as int]).0 == key@);
                    assert((self.pairs()[i as int]).1 == self.entries@[i as int].1);
                    lemma_map_of_latest(self.pairs(), key@, i as int);
                }
                return Some(&p.1);
            }
            proof {
                assert((self.pairs()[i as int]).0 == self.entries@[i as int].0@);
            }
        }
        proof {
            lemma_map_of_contains(self.pairs(), key@);
        }
        None
    }
}

impl<V> View for Metadata<V> {
    type V = Map<Seq<char>, V>;

    open spec fn view(&self) -> Map<Seq<char>, V> {
        map_of(self.pairs())
    }
}

/// One output record: an original sentence as `content`, and the
/// embedding of that sentence's window bound to `"embedding"` in the
/// metadata.
pub struct Document<V> {
    pub content: String,
    pub metadata: Metadata<V>,
}

/// Pair each sentence with the embedding of its window, in order:
/// document `i` carries sentence `i` as content — never the windowed
/// text — and exactly one metadata binding, `"embedding"` to
/// embedding `i`.  Assembly stops at the shorter of the two
/// sequences.
pub fn assemble_documents<V>(sentences: Vec<String>, embeddings: Vec<V>) -> (r: Vec<Document<V>>)
    ensures
        r@.len() == vstd::math::min(sentences@.len() as int, embeddings@.len() as int),
        forall|i: int|
            0 <= i < r@.len() ==> (#[trigger] r@[i]).content@ == sentences@[i]@
                && r@[i].metadata@ == Map::<Seq<char>, V>::empty().insert(
                "embedding"@,
                embeddings@[i],
            ),
{
    let ghost s0 = sentences@;
    let ghost e0 = embeddings@;
    let mut sentences = sentences;
    let mut embeddings = embeddings;
    let mut docs: Vec<Document<V>> = Vec::new();
    while sentences.len() > 0 && embeddings.len() > 0
        invariant
            docs@.len() <= s0.len(),
            docs@.len() <= e0.len(),
            sentences@ == s0.subrange(docs@.len() as int, s0.len() as int),
            embeddings@ == e0.subrange(docs@.len() as int, e0.len() as int),
            forall|i: int|
                0 <= i < docs@.len() ==> (#[trigger] docs@[i]).content@ == s0[i]@
                    && docs@[i].metadata@ == Map::<Seq<char>, V>::empty().insert(
                    "embedding"@,
                    e0[i],
                ),
        decreases sentences@.len(),
    {
        let ghost d = docs@.len() as int;
        let s = sentences.remove(0);
        let e = embeddings.remove(0);
        let mut m = Metadata::new();
        m.insert(String::from_str("embedding"), e);
        docs.push(Document { content: s, metadata: m });
        proof {
            assert(s == s0[d]);
            assert(sentences@ =~= s0.subrange(d + 1, s0.len() as int));
            assert(embeddings@ =~= e0.subrange(d + 1, e0.len() as int));
        }
    }
    docs
}

} // verus!
