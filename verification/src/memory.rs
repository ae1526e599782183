//! An in-memory storage provider: the verified reference implementation of
//! the storage provider contract.
//!
//! Its state is modelled as a map from `(filename, chunk)` keys to the chunk
//! bytes; every operation states its exact effect on that map, so the laws of
//! the contract — push/pull round trip, purge emptying a file, existence
//! tracking — are proved here once and hold of every sequence of calls.

use vstd::prelude::*;

verus! {

broadcast use {
    vstd::seq_lib::lemma_seq_contains_after_push,
    vstd::seq_lib::group_to_multiset_ensures,
    vstd::prelude::Seq::lemma_filter_push,
};

use vstd::slice::slice_to_vec;

use crate::error::Error;
use crate::order::sort_i32;
use crate::order::sorted_ascending;
use crate::order::strictly_ascending;
use crate::streamer::Streamer;

/// One stored chunk.
struct ChunkEntry {
    filename: String,
    chunk: i32,
    data: Vec<u8>,
}

impl ChunkEntry {
    /// The key this entry stores under.
    spec fn key(self) -> (Seq<char>, int) {
        (self.filename@, self.chunk as int)
    }
}

/// The store described by a sequence of entries; a later entry for the same
/// key overwrites an earlier one.
spec fn store_of(entries: Seq<ChunkEntry>) -> Map<(Seq<char>, int), Seq<u8>>
    decreases entries.len(),
{
    if entries.len() == 0 {
        Map::empty()
    } else {
        store_of(entries.drop_last()).insert(entries.last().key(), entries.last().data@)
    }
}

/// What `push(filename, chunk, data)` does to a store: the chunk is created
/// or overwritten with exactly the given bytes.
pub open spec fn push_effect(
    store: Map<(Seq<char>, int), Seq<u8>>,
    filename: Seq<char>,
    chunk: int,
    data: Seq<u8>,
) -> Map<(Seq<char>, int), Seq<u8>> {
    store.insert((filename, chunk), data)
}

/// What `purge(filename)` does to a store: every chunk of `filename` is
/// gone, every other chunk is untouched.
pub open spec fn purge_effect(store: Map<(Seq<char>, int), Seq<u8>>, filename: Seq<char>) -> Map<
    (Seq<char>, int),
    Seq<u8>,
> {
    Map::new(
        |k: (Seq<char>, int)| store.contains_key(k) && k.0 != filename,
        |k: (Seq<char>, int)| store[k],
    )
}

/// Round-trip law: pulling a chunk right after pushing it yields exactly the
/// pushed bytes, whatever the store held before.
pub proof fn lemma_push_pull_round_trip(
    store: Map<(Seq<char>, int), Seq<u8>>,
    filename: Seq<char>,
    chunk: int,
    data: Seq<u8>,
)
    ensures
        push_effect(store, filename, chunk, data).contains_key((filename, chunk)),
        push_effect(store, filename, chunk, data)[(filename, chunk)] == data,
{
}

/// Purge law: after a purge no chunk of that filename exists any more, and
/// the chunks of every other filename are exactly as before.
pub proof fn lemma_purge_removes_file(store: Map<(Seq<char>, int), Seq<u8>>, filename: Seq<char>)
    ensures
        forall|c: int| !purge_effect(store, filename).contains_key((filename, c)),
        forall|k: (Seq<char>, int)|
            k.0 != filename ==> (purge_effect(store, filename).contains_key(k)
                <==> store.contains_key(k)),
        forall|k: (Seq<char>, int)|
            #[trigger] purge_effect(store, filename).contains_key(k) ==> purge_effect(
                store,
                filename,
            )[k] == store[k],
{
}

/// Existence law: a chunk does not exist before any push of it, and exists
/// immediately after one.
pub proof fn lemma_exists_after_push(
    store: Map<(Seq<char>, int), Seq<u8>>,
    filename: Seq<char>,
    chunk: int,
    data: Seq<u8>,
)
    ensures
        !Map::<(Seq<char>, int), Seq<u8>>::empty().contains_key((filename, chunk)),
        push_effect(store, filename, chunk, data).contains_key((filename, chunk)),
{
}

/// A store contains a key exactly when some entry carries it.
proof fn lemma_store_of_contains(s: Seq<ChunkEntry>, k: (Seq<char>, int))
    ensures
        store_of(s).contains_key(k) <==> exists|i: int|
            0 <= i < s.len() && (#[trigger] s[i]).key() == k,
    decreases s.len(),
{
    if s.len() > 0 {
        lemma_store_of_contains(s.drop_last(), k);
        if store_of(s).contains_key(k) {
            if s.last().key() == k {
                assert(s[s.len() - 1].key() == k);
            } else {
                let i = choose|i: int| 0 <= i < s.len() - 1 && (#[trigger] s.drop_last()[i]).key()
                    == k;
                assert(s[i].key() == k);
            }
        }
        if exists|i: int| 0 <= i < s.len() && (#[trigger] s[i]).key() == k {
            let i = choose|i: int| 0 <= i < s.len() && (#[trigger] s[i]).key() == k;
            if i < s.len() - 1 {
                assert(s.drop_last()[i].key() == k);
            }
        }
    }
}

/// The entries that survive a purge of `filename`.
spec fn keeps(filename: Seq<char>) -> spec_fn(ChunkEntry) -> bool {
    |e: ChunkEntry| e.filename@ != filename
}

/// Filtering a filename's entries out of the store purges exactly that
/// filename from the modelled map.
proof fn lemma_store_of_filter(s: Seq<ChunkEntry>, filename: Seq<char>)
    ensures
        store_of(s.filter(keeps(filename))) =~= purge_effect(store_of(s), filename),
    decreases s.len(),
{
    let pred = keeps(filename);
    if s.len() == 0 {
        assert(s.filter(pred) =~= Seq::<ChunkEntry>::empty());
    } else {
        let s0 = s.drop_last();
        let e = s.last();
        lemma_store_of_filter(s0, filename);
        assert(s =~= s0.push(e));
        assert(s0.push(e).filter(pred) == if pred(e) {
            s0.filter(pred).push(e)
        } else {
            s0.filter(pred)
        });
        if pred(e) {
            assert(s0.filter(pred).push(e).drop_last() =~= s0.filter(pred));
            assert(store_of(s.filter(pred)) =~= store_of(s0.filter(pred)).insert(
                e.key(),
                e.data@,
            ));
        }
        assert(store_of(s.filter(pred)) =~= purge_effect(store_of(s), filename));
    }
}

/// The in-memory storage provider.
pub struct MemoryProvider {
    entries: Vec<ChunkEntry>,
}

impl MemoryProvider {
    /// The stored chunks: bytes keyed by `(filename, chunk index)`.
    pub closed spec fn store(&self) -> Map<(Seq<char>, int), Seq<u8>> {
        store_of(self.entries@)
    }

    /// An empty store.
    pub fn new() -> (r: Self)
        ensures
            r.store() == Map::<(Seq<char>, int), Seq<u8>>::empty(),
    {
        MemoryProvider { entries: Vec::new() }
    }

    /// The index of the entry that currently holds `(filename, chunk)`.
    fn find_entry(&self, filename: &str, chunk: i32) -> (r: Option<usize>)
        ensures
            r matches Some(idx) ==> self.store().contains_key((filename@, chunk as int)) && idx
                < self.entries@.len() && self.entries@[idx as int].data@ == self.store()[
                (filename@, chunk as int)
            ],
            r is None ==> !self.store().contains_key((filename@, chunk as int)),
    {
        let fname: String = filename.to_owned();
        let ghost k = (filename@, chunk as int);
        let mut i: usize = self.entries.len();
        proof {
            assert(self.entries@.take(i as int) =~= self.entries@);
        }
        while i > 0
            invariant
                i <= self.entries@.len(),
                fname@ == filename@,
                k == (filename@, chunk as int),
                store_of(self.entries@).contains_key(k) == store_of(
                    self.entries@.take(i as int),
                ).contains_key(k),
                store_of(self.entries@.take(i as int)).contains_key(k) ==> store_of(
                    self.entries@,
                )[k] == store_of(self.entries@.take(i as int))[k],
            decreases i,
        {
            let idx = i - 1;
            proof {
                assert(self.entries@.take(i as int).drop_last() =~= self.entries@.take(
                    idx as int,
                ));
                assert(self.entries@.take(i as int).last() == self.entries@[idx as int]);
            }
            if self.entries[idx].filename == fname && self.entries[idx].chunk == chunk {
                proof {
                    assert(self.entries@[idx as int].key() == k);
                    assert(store_of(self.entries@.take(i as int)) == store_of(
                        self.entries@.take(idx as int),
                    ).insert(k, self.entries@[idx as int].data@));
                }
                return Some(idx);
            }
            proof {
                assert(self.entries@[idx as int].key() != k);
                assert(store_of(self.entries@.take(i as int)) == store_of(
                    self.entries@.take(idx as int),
                ).insert(
                    self.entries@[idx as int].key(),
                    self.entries@[idx as int].data@,
                ));
            }
            i = idx;
        }
        proof {
            assert(self.entries@.take(0) =~= Seq::<ChunkEntry>::empty());
        }
        None
    }

    /// Whether that exact chunk is present; a plain existence check.
    pub fn chunk_exists(&self, filename: &str, chunk: i32) -> (r: bool)
        ensures
            r == self.store().contains_key((filename@, chunk as int)),
    {
        match self.find_entry(filename, chunk) {
            Some(_) => true,
            None => false,
        }
    }

    /// Creates or overwrites the chunk with the whole payload.
    pub fn push(&mut self, filename: &str, chunk: i32, data: &[u8])
        ensures
            final(self).store() == push_effect(
                old(self).store(),
                filename@,
                chunk as int,
                data@,
            ),
    {
        let entry = ChunkEntry { filename: filename.to_owned(), chunk, data: slice_to_vec(data) };
        self.entries.push(entry);
        proof {
            assert(self.entries@.drop_last() =~= old(self).entries@);
        }
    }

    /// Reads one chunk fully; fails with `NotFound` exactly when the chunk
    /// is absent.
    pub fn pull(&self, filename: &str, chunk: i32) -> (r: Result<Vec<u8>, Error>)
        ensures
            self.store().contains_key((filename@, chunk as int)) ==> (r matches Ok(d) && d@
                == self.store()[(filename@, chunk as int)]),
            !self.store().contains_key((filename@, chunk as int)) ==> r == Err::<
                Vec<u8>,
                Error,
            >(Error::NotFound),
    {
        match self.find_entry(filename, chunk) {
            Some(idx) => Ok(slice_to_vec(self.entries[idx].data.as_slice())),
            None => Err(Error::NotFound),
        }
    }

    /// Deletes every chunk of `filename`; chunks of other filenames stay.
    pub fn purge(&mut self, filename: &str)
        ensures
            final(self).store() == purge_effect(old(self).store(), filename@),
    {
        let fname: String = filename.to_owned();
        let ghost orig = self.entries@;
        let ghost pred = keeps(filename@);
        let mut kept: Vec<ChunkEntry> = Vec::new();
        while self.entries.len() > 0
            invariant
                fname@ == filename@,
                self.entries@.len() <= orig.len(),
                self.entries@ =~= orig.skip(orig.len() - self.entries@.len()),
                kept@ =~= orig.take(orig.len() - self.entries@.len()).filter(pred),
                pred == keeps(filename@),
            decreases self.entries@.len(),
        {
            let ghost n = orig.len() - self.entries@.len();
            let ghost pre = self.entries@;
            let e = self.entries.remove(0);
            proof {
                assert(pre == orig.skip(n));
                assert(e == pre[0]);
                assert(e == orig[n]);
                assert(self.entries@ =~= orig.skip(n + 1));
                assert(orig.take(n + 1) =~= orig.take(n).push(orig[n]));
            }
            if e.filename == fname {
                // dropped: this chunk belongs to the purged filename
                proof {
                    assert(!pred(e));
                }
            } else {
                kept.push(e);
            }
        }
        proof {
            assert(orig.take(orig.len() - self.entries@.len()) =~= orig);
        }
        self.entries = kept;
        proof {
            lemma_store_of_filter(orig, filename@);
        }
    }

    /// Enumerates the chunk indices stored for `filename`, sorted ascending,
    /// without duplicates: exactly the indices whose chunks exist.
    pub fn get_uploaded_chunks(&self, filename: &str) -> (r: Vec<i32>)
        ensures
            strictly_ascending(r@),
            forall|c: i32| #![auto]
                r@.contains(c) <==> self.store().contains_key((filename@, c as int)),
    {
        let fname: String = filename.to_owned();
        let mut cands: Vec<i32> = Vec::new();
        let mut i: usize = 0;
        while i < self.entries.len()
            invariant
                i <= self.entries@.len(),
                fname@ == filename@,
                forall|c: i32| #![auto]
                    cands@.contains(c) <==> exists|j: int|
                        0 <= j < i && (#[trigger] self.entries@[j]).key() == (filename@, c as int),
            decreases self.entries@.len() - i,
        {
            if self.entries[i].filename == fname {
                cands.push(self.entries[i].chunk);
                proof {
                    assert(self.entries@[i as int].key() == (filename@, self.entries@[
                        i as int
                    ].chunk as int));
                }
            }
            i = i + 1;
        }
        let sorted = sort_i32(&cands);
        proof {
            assert forall|c: i32| #![auto] sorted@.contains(c) == cands@.contains(c) by {
                assert(sorted@.to_multiset().contains(c) == cands@.to_multiset().contains(c));
            }
        }
        let mut out: Vec<i32> = Vec::new();
        let mut j: usize = 0;
        while j < sorted.len()
            invariant
                j <= sorted@.len(),
                sorted_ascending(sorted@),
                strictly_ascending(out@),
                forall|c: i32| #![auto] out@.contains(c) <==> sorted@.take(j as int).contains(c),
                out@.len() > 0 ==> j > 0 && out@.last() == sorted@[j - 1],
            decreases sorted@.len() - j,
        {
            let cur = sorted[j];
            proof {
                assert(sorted@.take(j + 1) =~= sorted@.take(j as int).push(sorted@[j as int]));
            }
            if out.len() == 0 {
                out.push(cur);
            } else {
                let last = out[out.len() - 1];
                if last < cur {
                    proof {
                        assert(forall|k: int|
                            0 <= k < out@.len() ==> #[trigger] out@[k] <= out@.last());
                    }
                    out.push(cur);
                } else {
                    proof {
                        assert(last == cur);
                        assert(sorted@.take(j as int)[j - 1] == cur);
                        assert(sorted@.take(j as int).contains(cur));
                    }
                }
            }
            j = j + 1;
        }
        proof {
            assert(sorted@.take(sorted@.len() as int) =~= sorted@);
            lemma_store_of_contains(self.entries@, (filename@, 0));
            assert forall|c: i32| #![auto]
                out@.contains(c) == self.store().contains_key((filename@, c as int)) by {
                lemma_store_of_contains(self.entries@, (filename@, c as int));
            }
        }
        out
    }

    /// Serves a download: the bytes of one chunk when `chunk` is given, else
    /// the bytes of every stored chunk of `filename`, one block per chunk,
    /// in ascending chunk-index order — index 0 first, never reversed.
    pub fn stream(&self, filename: &str, chunk: Option<i32>) -> (r: Result<Vec<Vec<u8>>, Error>)
        ensures
            (match chunk {
                Some(c) => {
                    if self.store().contains_key((filename@, c as int)) {
                        r matches Ok(blocks) && blocks@.len() == 1 && blocks@[0]@ == self.store()[
                            (filename@, c as int)
                        ]
                    } else {
                        r == Err::<Vec<Vec<u8>>, Error>(Error::NotFound)
                    }
                },
                None => r matches Ok(blocks) && exists|cs: Seq<i32>| #![auto]
                    strictly_ascending(cs) && (forall|c: i32| #![auto]
                        cs.contains(c) <==> self.store().contains_key((filename@, c as int)))
                        && blocks@.len() == cs.len() && (forall|i: int|
                        0 <= i < cs.len() ==> blocks@[i]@ == self.store()[
                            (filename@, cs[i] as int)
                        ]),
            }),
    {
        match chunk {
            Some(c) => {
                let data = self.pull(filename, c)?;
                let mut blocks: Vec<Vec<u8>> = Vec::new();
                blocks.push(data);
                Ok(blocks)
            },
            None => {
                let cs = self.get_uploaded_chunks(filename);
                let ghost cs_view = cs@;
                let mut streamer = Streamer::new(cs);
                let mut blocks: Vec<Vec<u8>> = Vec::new();
                let mut more = true;
                while more
                    invariant
                        blocks@.len() <= cs_view.len(),
                        more ==> streamer.remaining() == cs_view.skip(blocks@.len() as int),
                        !more ==> blocks@.len() == cs_view.len(),
                        strictly_ascending(cs_view),
                        forall|c: i32| #![auto]
                            cs_view.contains(c) <==> self.store().contains_key(
                                (filename@, c as int),
                            ),
                        forall|i: int|
                            0 <= i < blocks@.len() ==> blocks@[i]@ == self.store()[
                                (filename@, cs_view[i] as int)
                            ],
                    decreases cs_view.len() - blocks@.len() + (if more {
                        1int
                    } else {
                        0int
                    }),
                {
                    match streamer.next_chunk() {
                        Some(c) => {
                            proof {
                                assert(c == cs_view[blocks@.len() as int]);
                                assert(cs_view.contains(c));
                            }
                            match self.pull(filename, c) {
                                Ok(data) => {
                                    blocks.push(data);
                                    proof {
                                        assert(streamer.remaining() =~= cs_view.skip(
                                            blocks@.len() as int,
                                        ));
                                    }
                                },
                                Err(e) => {
                                    proof {
                                        assert(false);
                                    }
                                    return Err(e);
                                },
                            }
                        },
                        None => {
                            proof {
                                assert(cs_view.skip(blocks@.len() as int).len() == 0);
                            }
                            more = false;
                        },
                    }
                }
                proof {
                    assert(strictly_ascending(cs_view) && (forall|c: i32| #![auto]
                        cs_view.contains(c) <==> self.store().contains_key((filename@, c as int)))
                        && blocks@.len() == cs_view.len() && (forall|i: int|
                        0 <= i < cs_view.len() ==> blocks@[i]@ == self.store()[
                            (filename@, cs_view[i] as int)
                        ]));
                }
                Ok(blocks)
            },
        }
    }
}

} // verus!
