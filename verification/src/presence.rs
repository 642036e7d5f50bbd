//! Which tokens hold a WebSocket right now, and how many each.
use vstd::prelude::*;

use crate::split;
use crate::text;

verus! {

/// How many WebSockets each token holds. A token that holds none has no entry.
pub struct WsPresence {
    entries: Vec<(String, u32)>,
}

spec fn entry_at(entries: Seq<(String, u32)>, jti: Seq<char>, i: int) -> bool {
    0 <= i < entries.len() && entries[i].0@ == jti
}

impl View for WsPresence {
    type V = Map<Seq<char>, u32>;

    closed spec fn view(&self) -> Map<Seq<char>, u32> {
        Map::new(
            |jti: Seq<char>| exists|i: int| entry_at(self.entries@, jti, i),
            |jti: Seq<char>| self.entries@[choose|i: int| entry_at(self.entries@, jti, i)].1,
        )
    }
}

/// The number of WebSockets that a token holds.
pub open spec fn sessions(held: Map<Seq<char>, u32>, jti: Seq<char>) -> u32 {
    if held.contains_key(jti) {
        held[jti]
    } else {
        0
    }
}

/// Every token that has an entry holds a WebSocket.
pub open spec fn all_held(held: Map<Seq<char>, u32>) -> bool {
    forall|jti: Seq<char>| #[trigger] held.contains_key(jti) ==> held[jti] > 0
}

/// After a token has opened one more WebSocket.
pub open spec fn entered(held: Map<Seq<char>, u32>, jti: Seq<char>) -> Map<Seq<char>, u32> {
    held.insert(jti, (sessions(held, jti) + 1) as u32)
}

/// After a token has closed one of its WebSockets.
pub open spec fn left(held: Map<Seq<char>, u32>, jti: Seq<char>) -> Map<Seq<char>, u32> {
    if sessions(held, jti) > 1 {
        held.insert(jti, (sessions(held, jti) - 1) as u32)
    } else {
        held.remove(jti)
    }
}

impl WsPresence {
    #[verifier::type_invariant]
    spec fn well_formed(self) -> bool {
        &&& forall|i: int, j: int|
            0 <= i < j < self.entries@.len() ==> (#[trigger] self.entries@[i]).0@ != (
            #[trigger] self.entries@[j]).0@
        &&& forall|i: int| 0 <= i < self.entries@.len() ==> (#[trigger] self.entries@[i]).1 > 0
    }

    proof fn lemma_entry(self, i: int)
        requires
            self.well_formed(),
            0 <= i < self.entries@.len(),
        ensures
            self@.contains_key(self.entries@[i].0@),
            self@[self.entries@[i].0@] == self.entries@[i].1,
    {
        let jti = self.entries@[i].0@;
        assert(entry_at(self.entries@, jti, i));
        let k = choose|k: int| entry_at(self.entries@, jti, k);
        assert(k == i);
    }

    proof fn lemma_all_held(self)
        requires
            self.well_formed(),
        ensures
            all_held(self@),
    {
        assert forall|jti: Seq<char>| #[trigger] self@.contains_key(jti) implies self@[jti] > 0 by {
            let i = choose|i: int| entry_at(self.entries@, jti, i);
            self.lemma_entry(i);
        }
    }

    proof fn lemma_no_entry(self, jti: Seq<char>)
        requires
            forall|i: int| 0 <= i < self.entries@.len() ==> (#[trigger] self.entries@[i]).0@ != jti,
        ensures
            !self@.contains_key(jti),
    {
    }

    pub fn new() -> (out: WsPresence)
        ensures
            out@ == Map::<Seq<char>, u32>::empty(),
            all_held(out@),
    {
        let out = WsPresence { entries: Vec::new() };
        assert(out@ =~= Map::<Seq<char>, u32>::empty());
        out
    }

    fn index(&self, jti: &str) -> (n: usize)
        ensures
            n <= self.entries@.len(),
            n < self.entries@.len() ==> self.entries@[n as int].0@ == jti@,
            n == self.entries@.len() ==> forall|i: int|
                0 <= i < n ==> (#[trigger] self.entries@[i]).0@ != jti@,
    {
        let mut n: usize = 0;
        while n < self.entries.len() && !text::same(self.entries[n].0.as_str(), jti)
            invariant
                n <= self.entries.len(),
                forall|i: int| 0 <= i < n ==> (#[trigger] self.entries@[i]).0@ != jti@,
            decreases self.entries.len() - n,
        {
            n += 1;
        }
        n
    }

    /// How many WebSockets a token holds.
    pub fn count(&self, jti: &str) -> (n: u32)
        ensures
            n == sessions(self@, jti@),
            all_held(self@),
    {
        proof {
            use_type_invariant(&*self);
            self.lemma_all_held();
        }
        let i = self.index(jti);
        if i < self.entries.len() {
            proof {
                self.lemma_entry(i as int);
            }
            self.entries[i].1
        } else {
            proof {
                self.lemma_no_entry(jti@);
            }
            0
        }
    }

    /// Counts a WebSocket that a token has opened.
    pub fn enter(&mut self, jti: &str)
        requires
            sessions(old(self)@, jti@) < u32::MAX,
        ensures
            final(self)@ == entered(old(self)@, jti@),
            all_held(old(self)@),
            all_held(final(self)@),
    {
        proof {
            use_type_invariant(&*self);
            self.lemma_all_held();
            law_counts_stay_positive(self@, jti@);
        }
        let ghost pre = *self;
        let n = self.index(jti);
        let mut entries: Vec<(String, u32)> = Vec::new();
        std::mem::swap(&mut entries, &mut self.entries);
        if n < entries.len() {
            proof {
                pre.lemma_entry(n as int);
            }
            let held: u32 = entries[n].1;
            entries.set(n, (jti.to_owned(), held + 1));
        } else {
            proof {
                pre.lemma_no_entry(jti@);
            }
            entries.push((jti.to_owned(), 1));
        }
        let ghost post = WsPresence { entries };
        proof {
            assert(post.well_formed()) by {
                assert forall|i: int, j: int| 0 <= i < j < entries@.len() implies (
                #[trigger] entries@[i]).0@ != (#[trigger] entries@[j]).0@ by {
                    if i < pre.entries@.len() {
                        assert(entries@[i].0@ == pre.entries@[i].0@ || i == n);
                    }
                    if j < pre.entries@.len() {
                        assert(entries@[j].0@ == pre.entries@[j].0@ || j == n);
                    }
                }
            }
            assert forall|k: Seq<char>| #[trigger] post@.contains_key(k) == entered(
                pre@,
                jti@,
            ).contains_key(k) && (post@.contains_key(k) ==> post@[k] == entered(pre@, jti@)[k]) by {
                if k == jti@ {
                    post.lemma_entry(n as int);
                } else {
                    assert forall|i: int|
                        0 <= i < pre.entries@.len() && (#[trigger] pre.entries@[i]).0@
                            == k implies exists|j: int|
                        entry_at(entries@, k, j) && entries@[j].1 == pre.entries@[i].1 by {
                        assert(entry_at(entries@, k, i));
                    }
                    assert forall|j: int|
                        0 <= j < entries@.len() && (#[trigger] entries@[j]).0@
                            == k implies exists|i: int|
                        entry_at(pre.entries@, k, i) && entries@[j].1 == pre.entries@[i].1 by {
                        assert(entry_at(pre.entries@, k, j));
                    }
                    pre.lemma_same_entries(post, k);
                }
            }
            assert(post@ =~= entered(pre@, jti@));
        }
        self.entries = entries;
    }

    /// Where two lists agree on the entries of a token, so do the counts.
    proof fn lemma_same_entries(self, other: WsPresence, k: Seq<char>)
        requires
            self.well_formed(),
            other.well_formed(),
            forall|i: int|
                0 <= i < self.entries@.len() && (#[trigger] self.entries@[i]).0@ == k
                    ==> exists|j: int|
                    entry_at(other.entries@, k, j) && other.entries@[j].1 == self.entries@[i].1,
            forall|j: int|
                0 <= j < other.entries@.len() && (#[trigger] other.entries@[j]).0@ == k
                    ==> exists|i: int|
                    entry_at(self.entries@, k, i) && other.entries@[j].1 == self.entries@[i].1,
        ensures
            self@.contains_key(k) == other@.contains_key(k),
            self@.contains_key(k) ==> self@[k] == other@[k],
    {
        if self@.contains_key(k) {
            let i = choose|i: int| entry_at(self.entries@, k, i);
            self.lemma_entry(i);
            let j = choose|j: int|
                entry_at(other.entries@, k, j) && other.entries@[j].1 == self.entries@[i].1;
            other.lemma_entry(j);
        }
        if other@.contains_key(k) {
            let j = choose|j: int| entry_at(other.entries@, k, j);
            assert(other.entries@[j].0@ == k);
            let i = choose|i: int|
                entry_at(self.entries@, k, i) && other.entries@[j].1 == self.entries@[i].1;
            self.lemma_entry(i);
        }
    }

    /// Counts a WebSocket that a token has closed.
    pub fn leave(&mut self, jti: &str)
        ensures
            final(self)@ == left(old(self)@, jti@),
            all_held(old(self)@),
            all_held(final(self)@),
    {
        proof {
            use_type_invariant(&*self);
            self.lemma_all_held();
            law_counts_stay_positive(self@, jti@);
        }
        let ghost pre = *self;
        let n = self.index(jti);
        if n == self.entries.len() {
            proof {
                pre.lemma_no_entry(jti@);
                assert(left(pre@, jti@) =~= pre@);
            }
            return ;
        }
        proof {
            pre.lemma_entry(n as int);
        }
        let mut entries: Vec<(String, u32)> = Vec::new();
        std::mem::swap(&mut entries, &mut self.entries);
        let held: u32 = entries[n].1;
        if held > 1 {
            entries.set(n, (jti.to_owned(), held - 1));
        } else {
            entries.remove(n);
        }
        let ghost post = WsPresence { entries };
        proof {
            assert(post.well_formed()) by {
                assert forall|i: int, j: int| 0 <= i < j < entries@.len() implies (
                #[trigger] entries@[i]).0@ != (#[trigger] entries@[j]).0@ by {
                    if held > 1 {
                        assert(entries@[i].0@ == pre.entries@[i].0@ || i == n);
                        assert(entries@[j].0@ == pre.entries@[j].0@ || j == n);
                    } else {
                        let a = if i < n {
                            i
                        } else {
                            i + 1
                        };
                        let b = if j < n {
                            j
                        } else {
                            j + 1
                        };
                        assert(entries@[i] == pre.entries@[a] && entries@[j] == pre.entries@[b]);
                    }
                }
                assert forall|i: int| 0 <= i < entries@.len() implies (
                #[trigger] entries@[i]).1 > 0 by {
                    if held > 1 {
                        assert(entries@[i] == pre.entries@[i] || i == n);
                    } else {
                        let a = if i < n {
                            i
                        } else {
                            i + 1
                        };
                        assert(entries@[i] == pre.entries@[a]);
                    }
                }
            }
            assert forall|k: Seq<char>| #[trigger] post@.contains_key(k) == left(
                pre@,
                jti@,
            ).contains_key(k) && (post@.contains_key(k) ==> post@[k] == left(pre@, jti@)[k]) by {
                if k == jti@ {
                    if held > 1 {
                        post.lemma_entry(n as int);
                    } else {
                        assert forall|i: int| 0 <= i < entries@.len() implies (
                        #[trigger] entries@[i]).0@ != jti@ by {
                            let a = if i < n {
                                i
                            } else {
                                i + 1
                            };
                            assert(entries@[i] == pre.entries@[a]);
                        }
                        post.lemma_no_entry(jti@);
                    }
                } else {
                    assert forall|i: int|
                        0 <= i < pre.entries@.len() && (#[trigger] pre.entries@[i]).0@
                            == k implies exists|j: int|
                        entry_at(entries@, k, j) && entries@[j].1 == pre.entries@[i].1 by {
                        let j = if held > 1 || i < n {
                            i
                        } else {
                            i - 1
                        };
                        assert(entry_at(entries@, k, j));
                    }
                    assert forall|j: int|
                        0 <= j < entries@.len() && (#[trigger] entries@[j]).0@
                            == k implies exists|i: int|
                        entry_at(pre.entries@, k, i) && entries@[j].1 == pre.entries@[i].1 by {
                        let i = if held > 1 || j < n {
                            j
                        } else {
                            j + 1
                        };
                        assert(entry_at(pre.entries@, k, i));
                    }
                    pre.lemma_same_entries(post, k);
                }
            }
            assert(post@ =~= left(pre@, jti@));
        }
        self.entries = entries;
    }

    /// The tokens that hold a WebSocket, each once.
    pub fn ws_online(&self) -> (out: Vec<String>)
        ensures
            split::views(out@).no_duplicates(),
            split::views(out@).to_set() == self@.dom(),
            all_held(self@),
    {
        proof {
            use_type_invariant(&*self);
            self.lemma_all_held();
        }
        let mut out: Vec<String> = Vec::new();
        for i in 0..self.entries.len()
            invariant
                out.len() == i,
                forall|j: int| 0 <= j < i ==> (#[trigger] out@[j])@ == self.entries@[j].0@,
        {
            out.push(self.entries[i].0.clone());
        }
        proof {
            let v = split::views(out@);
            assert forall|i: int, j: int| 0 <= i < v.len() && 0 <= j < v.len() && i != j implies v[i]
                != v[j] by {
                assert(out@[i]@ == self.entries@[i].0@ && out@[j]@ == self.entries@[j].0@);
            }
            assert forall|k: Seq<char>| v.to_set().contains(k) == #[trigger] self@.dom().contains(
                k,
            ) by {
                if self@.dom().contains(k) {
                    let i = choose|i: int| entry_at(self.entries@, k, i);
                    assert(v[i] == out@[i]@);
                }
                if v.contains(k) {
                    let i = choose|i: int| 0 <= i < v.len() && v[i] == k;
                    assert(v[i] == out@[i]@);
                    self.lemma_entry(i);
                }
            }
            assert(v.to_set() =~= self@.dom());
        }
        out
    }
}

impl Default for WsPresence {
    fn default() -> (out: Self)
        ensures
            out@ == Map::<Seq<char>, u32>::empty(),
    {
        WsPresence::new()
    }
}

/// Opening and closing keep every count positive; so does the start, when no
/// token holds any.
pub proof fn law_counts_stay_positive(held: Map<Seq<char>, u32>, jti: Seq<char>)
    requires
        all_held(held),
    ensures
        all_held(Map::<Seq<char>, u32>::empty()),
        sessions(held, jti) < u32::MAX ==> all_held(entered(held, jti)),
        all_held(left(held, jti)),
{
}

/// A WebSocket that is opened and closed leaves no trace, and a token is
/// counted as online from the first one opened to the last one closed.
pub proof fn law_closing_undoes_opening(held: Map<Seq<char>, u32>, jti: Seq<char>)
    requires
        sessions(held, jti) < u32::MAX,
        all_held(held),
    ensures
        left(entered(held, jti), jti) == held,
        entered(held, jti).contains_key(jti),
        left(held, jti).contains_key(jti) == (sessions(held, jti) > 1),
{
    assert(left(entered(held, jti), jti) =~= held);
}

/// Opening and closing the WebSockets of one token does not touch another.
pub proof fn law_presence_is_per_token(
    held: Map<Seq<char>, u32>,
    jti: Seq<char>,
    other: Seq<char>,
)
    requires
        jti != other,
    ensures
        sessions(entered(held, jti), other) == sessions(held, other),
        sessions(left(held, jti), other) == sessions(held, other),
{
}

/// Each WebSocket that is opened counts one, each that is closed one less, and
/// closing one that was never opened counts nothing.
pub proof fn law_each_websocket_counts_one(held: Map<Seq<char>, u32>, jti: Seq<char>)
    requires
        sessions(held, jti) < u32::MAX,
    ensures
        sessions(entered(held, jti), jti) == sessions(held, jti) + 1,
        sessions(left(held, jti), jti) == (if sessions(held, jti) == 0 {
            0
        } else {
            sessions(held, jti) - 1
        }),
        !left(held, jti).contains_key(jti) <==> sessions(held, jti) <= 1,
{
}

} // verus!
