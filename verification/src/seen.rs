//! What a scan remembers: the byte sequences it has classified, each with
//! the label that produced it first, and the labels that its sweep has
//! already been through.

use vstd::prelude::*;

verus! {

/// What became of one byte sequence that a scan looked up.
pub enum Outcome {
    /// The sequence was new: it was handed to the detector chain.
    Classified,
    /// The sequence had been seen before, first under the given label.
    Duplicate(Seq<char>),
}

/// One lookup of a scan, in the order in which they happened.
pub struct Lookup {
    /// Label under which the sequence was produced.
    pub label: Seq<char>,
    /// The sequence.
    pub data: Seq<u8>,
    /// Whether it came out of the sweep over configurations.
    pub sweep: bool,
    pub outcome: Outcome,
}

/// The label of the first lookup in `history` that had the data `data`.
pub open spec fn first_label(history: Seq<Lookup>, data: Seq<u8>) -> Option<Seq<char>>
    decreases history.len(),
{
    if history.len() == 0 {
        None
    } else {
        match first_label(history.drop_last(), data) {
            Some(l) => Some(l),
            None => if history.last().data == data {
                Some(history.last().label)
            } else {
                None
            },
        }
    }
}

/// The outcome that is due to a lookup of `data` behind the lookups
/// `before`.
pub open spec fn due_outcome(before: Seq<Lookup>, data: Seq<u8>) -> Outcome {
    match first_label(before, data) {
        Some(l) => Outcome::Duplicate(l),
        None => Outcome::Classified,
    }
}

/// Every lookup of the history had the outcome that was due to it.
pub open spec fn faithful(history: Seq<Lookup>) -> bool {
    forall|t: int|
        0 <= t < history.len() ==> (#[trigger] history[t]).outcome == due_outcome(
            history.take(t),
            history[t].data,
        )
}

/// No two lookups of the sweep had the same label.
pub open spec fn sweep_labels_distinct(history: Seq<Lookup>) -> bool {
    forall|i: int, j: int|
        0 <= i < j < history.len() && (#[trigger] history[i]).sweep && (#[trigger] history[j]).sweep
            ==> history[i].label != history[j].label
}

/// Some lookup of the sweep had the label `label`.
pub open spec fn used_label(history: Seq<Lookup>, label: Seq<char>) -> bool {
    exists|t: int| 0 <= t < history.len() && (#[trigger] history[t]).sweep && history[t].label == label
}

/// A byte sequence with the label that produced it first.
pub struct CacheEntry {
    pub data: Vec<u8>,
    pub label: String,
}

/// The label that the cache holds for `data`.
pub open spec fn cached_label(cache: Seq<CacheEntry>, data: Seq<u8>) -> Option<Seq<char>>
    decreases cache.len(),
{
    if cache.len() == 0 {
        None
    } else {
        match cached_label(cache.drop_last(), data) {
            Some(l) => Some(l),
            None => if cache.last().data@ == data {
                Some(cache.last().label@)
            } else {
                None
            },
        }
    }
}

/// Whether `label` is among the labels.
pub open spec fn holds_label(labels: Seq<String>, label: Seq<char>) -> bool {
    exists|i: int| 0 <= i < labels.len() && (#[trigger] labels[i])@ == label
}

/// The memory of one scan.
pub struct Seen {
    cache: Vec<CacheEntry>,
    labels: Vec<String>,
    history: Ghost<Seq<Lookup>>,
}

proof fn lemma_cached_prefix(cache: Seq<CacheEntry>, k: int, data: Seq<u8>)
    requires
        0 <= k <= cache.len(),
        cached_label(cache.take(k), data) is Some,
    ensures
        cached_label(cache, data) == cached_label(cache.take(k), data),
    decreases cache.len() - k,
{
    if k < cache.len() {
        assert(cache.take(k + 1).drop_last() =~= cache.take(k));
        lemma_cached_prefix(cache, k + 1, data);
    } else {
        assert(cache.take(k) =~= cache);
    }
}

/// What `first_label` finds is the label of the earliest lookup of the
/// data, and it finds nothing only if there is none.
pub proof fn lemma_first_label(history: Seq<Lookup>, data: Seq<u8>)
    ensures
        first_label(history, data) is None <==> (forall|i: int|
            0 <= i < history.len() ==> (#[trigger] history[i]).data != data),
        first_label(history, data) matches Some(l) ==> exists|i: int|
            0 <= i < history.len() && (#[trigger] history[i]).data == data && history[i].label
                == l && (forall|k: int| 0 <= k < i ==> (#[trigger] history[k]).data != data),
    decreases history.len(),
{
    if history.len() > 0 {
        let before = history.drop_last();
        lemma_first_label(before, data);
        assert forall|i: int| 0 <= i < before.len() implies before[i] == history[i] by {}
        match first_label(before, data) {
            Some(l) => {
                let i = choose|i: int|
                    0 <= i < before.len() && (#[trigger] before[i]).data == data
                        && before[i].label == l && (forall|k: int|
                        0 <= k < i ==> (#[trigger] before[k]).data != data);
                assert(history[i].data == data);
                assert forall|k: int| 0 <= k < i implies (#[trigger] history[k]).data != data by {
                    assert(before[k].data != data);
                }
            },
            None => {
                if history.last().data == data {
                    let i = history.len() - 1;
                    assert(history[i].data == data);
                    assert forall|k: int| 0 <= k < i implies (#[trigger] history[k]).data
                        != data by {
                        assert(before[k].data != data);
                    }
                } else {
                    assert forall|i: int| 0 <= i < history.len() implies (
                    #[trigger] history[i]).data != data by {
                        if i < before.len() {
                            assert(before[i].data != data);
                        }
                    }
                }
            },
        }
    }
}

/// Of all lookups of one byte sequence, the first was classified and no
/// other; each later one was recorded as a duplicate of the first, under the
/// first one's label.
pub proof fn lemma_first_wins(history: Seq<Lookup>)
    requires
        faithful(history),
    ensures
        forall|t: int|
            0 <= t < history.len() ==> ((#[trigger] history[t]).outcome is Classified <==> (
            forall|s: int| 0 <= s < t ==> (#[trigger] history[s]).data != history[t].data)),
        forall|s: int, t: int|
            0 <= s < t < history.len() && (#[trigger] history[s]).data == (
            #[trigger] history[t]).data && history[s].outcome is Classified
                ==> history[t].outcome == Outcome::Duplicate(history[s].label),
{
    assert forall|t: int| 0 <= t < history.len() implies ((#[trigger] history[t]).outcome
        is Classified <==> (forall|s: int|
        0 <= s < t ==> (#[trigger] history[s]).data != history[t].data)) by {
        let before = history.take(t);
        let d = history[t].data;
        lemma_first_label(before, d);
        if first_label(before, d) is None {
            assert forall|s: int| 0 <= s < t implies (#[trigger] history[s]).data != d by {
                assert(before[s].data != d);
            }
        } else {
            let i = choose|i: int| 0 <= i < before.len() && (#[trigger] before[i]).data == d;
            assert(history[i].data == d);
        }
    }
    assert forall|s: int, t: int|
        0 <= s < t < history.len() && (#[trigger] history[s]).data == (
        #[trigger] history[t]).data && history[s].outcome is Classified implies history[t].outcome
        == Outcome::Duplicate(history[s].label) by {
        let before = history.take(t);
        let d = history[t].data;
        lemma_first_label(before, d);
        assert(before[s].data == d);
        let l = first_label(before, d)->0;
        let i = choose|i: int|
            0 <= i < before.len() && (#[trigger] before[i]).data == d && before[i].label == l && (
            forall|k: int| 0 <= k < i ==> (#[trigger] before[k]).data != d);
        // The classified lookup `s` has none of its data before it, and `i` has none before it.
        assert(history[i].data == d);
        if i < s {
            assert(history[i].data != history[s].data);
        }
        if s < i {
            assert(before[s].data != d);
        }
        assert(i == s);
    }
}

/// One more lookup with the outcome that is due to it, and, if it is one of
/// the sweep, with a label that the sweep has not used, leaves the history
/// faithful and the sweep's labels distinct.
pub proof fn lemma_one_more_lookup(history: Seq<Lookup>, entry: Lookup)
    requires
        faithful(history),
        sweep_labels_distinct(history),
        entry.outcome == due_outcome(history, entry.data),
        entry.sweep ==> !used_label(history, entry.label),
    ensures
        faithful(history.push(entry)),
        sweep_labels_distinct(history.push(entry)),
{
    let next = history.push(entry);
    assert forall|t: int| 0 <= t < next.len() implies (#[trigger] next[t]).outcome == due_outcome(
        next.take(t),
        next[t].data,
    ) by {
        if t < history.len() {
            assert(next.take(t) =~= history.take(t));
            assert(next[t] == history[t]);
        } else {
            assert(next.take(t) =~= history);
        }
    }
    assert forall|i: int, j: int|
        0 <= i < j < next.len() && (#[trigger] next[i]).sweep && (
        #[trigger] next[j]).sweep implies next[i].label != next[j].label by {
        assert(next[i] == history[i]);
        if j < history.len() {
            assert(next[j] == history[j]);
        }
    }
}

fn bytes_equal(a: &[u8], b: &[u8]) -> (r: bool)
    ensures
        r == (a@ == b@),
{
    if a.len() != b.len() {
        return false;
    }
    let mut i: usize = 0;
    while i < a.len()
        invariant
            i <= a.len(),
            a.len() == b.len(),
            forall|k: int| 0 <= k < i ==> a@[k] == b@[k],
        decreases a.len() - i,
    {
        if a[i] != b[i] {
            return false;
        }
        i = i + 1;
    }
    assert(a@ =~= b@);
    true
}

impl Seen {
    /// The lookups so far.
    pub closed spec fn history(&self) -> Seq<Lookup> {
        self.history@
    }

    /// The label that the cache holds for `data`.
    pub closed spec fn lookup(&self, data: Seq<u8>) -> Option<Seq<char>> {
        cached_label(self.cache@, data)
    }

    /// The cache answers as the history says, every lookup had the outcome
    /// that was due, the sweep's lookups have distinct labels, and the
    /// labels that the memory holds are theirs.
    pub closed spec fn wf(&self) -> bool {
        &&& faithful(self.history@)
        &&& sweep_labels_distinct(self.history@)
        &&& forall|d: Seq<u8>| #[trigger]
            cached_label(self.cache@, d) == first_label(self.history@, d)
        &&& forall|t: int|
            0 <= t < self.history@.len() && (#[trigger] self.history@[t]).sweep ==> holds_label(
                self.labels@,
                self.history@[t].label,
            )
        &&& forall|i: int|
            0 <= i < self.labels@.len() ==> used_label(self.history@, (#[trigger] self.labels@[i])@)
    }

    /// A memory with nothing in it.
    pub fn new() -> (s: Self)
        ensures
            s.wf(),
            s.history() == Seq::<Lookup>::empty(),
    {
        Seen { cache: Vec::new(), labels: Vec::new(), history: Ghost(Seq::empty()) }
    }

    /// What the invariant says of the lookups: each had the outcome that was
    /// due to it, the cache answers with the label of the first lookup of a
    /// sequence, and no two lookups of the sweep have the same label.
    pub proof fn lemma_history(&self)
        requires
            self.wf(),
        ensures
            faithful(self.history()),
            sweep_labels_distinct(self.history()),
            forall|d: Seq<u8>| #[trigger] self.lookup(d) == first_label(self.history(), d),
    {
    }

    /// Whether the sweep has been through `label`.
    #[verifier::loop_isolation(false)]
    pub fn knows(&self, label: &String) -> (known: bool)
        requires
            self.wf(),
        ensures
            known == used_label(self.history(), label@),
    {
        let mut i: usize = 0;
        while i < self.labels.len()
            invariant
                i <= self.labels.len(),
                forall|k: int| 0 <= k < i ==> (#[trigger] self.labels@[k])@ != label@,
            decreases self.labels.len() - i,
        {
            if self.labels[i] == *label {
                return true;
            }
            i = i + 1;
        }
        proof {
            if used_label(self.history@, label@) {
                let t = choose|t: int|
                    0 <= t < self.history@.len() && (#[trigger] self.history@[t]).sweep
                        && self.history@[t].label == label@;
                assert(holds_label(self.labels@, self.history@[t].label));
            }
        }
        false
    }

    /// Looks `data` up and records the lookup. A sequence that has been seen
    /// before gives the label that produced it first. A new one gives
    /// nothing, and is entered under `label`.
    #[verifier::loop_isolation(false)]
    pub fn record(&mut self, data: &Vec<u8>, label: &String, sweep: bool) -> (first: Option<
        String,
    >)
        requires
            old(self).wf(),
            sweep ==> !used_label(old(self).history(), label@),
        ensures
            final(self).wf(),
            crate::result::opt_text(first) == old(self).lookup(data@),
            crate::result::opt_text(first) == first_label(old(self).history(), data@),
            final(self).history() == old(self).history().push(
                Lookup {
                    label: label@,
                    data: data@,
                    sweep,
                    outcome: due_outcome(old(self).history(), data@),
                },
            ),
    {
        let ghost history = self.history@;
        let ghost cache = self.cache@;
        let ghost old_labels = self.labels@;
        let ghost entry = Lookup {
            label: label@,
            data: data@,
            sweep,
            outcome: due_outcome(history, data@),
        };
        let ghost next = history.push(entry);
        if sweep {
            self.labels.push(label.clone());
        }
        let ghost labels = self.labels@;
        proof {
            assert(next.drop_last() =~= history);
            lemma_one_more_lookup(history, entry);
            assert forall|t: int| 0 <= t < next.len() && (#[trigger] next[t]).sweep implies holds_label(
                labels,
                next[t].label,
            ) by {
                if t < history.len() {
                    assert(next[t] == history[t]);
                    let k = choose|k: int|
                        0 <= k < old_labels.len() && (#[trigger] old_labels[k])@ == history[t].label;
                    assert(labels[k]@ == next[t].label);
                } else {
                    assert(labels[old_labels.len() as int]@ == label@);
                }
            }
            assert forall|i: int| 0 <= i < labels.len() implies used_label(
                next,
                (#[trigger] labels[i])@,
            ) by {
                if i < old_labels.len() {
                    assert(labels[i] == old_labels[i]);
                    let t = choose|t: int|
                        0 <= t < history.len() && (#[trigger] history[t]).sweep && history[t].label
                            == old_labels[i]@;
                    assert(next[t] == history[t]);
                } else {
                    assert(next[history.len() as int].sweep);
                }
            }
        }
        let mut i: usize = 0;
        assert(cache.take(0) =~= Seq::<CacheEntry>::empty());
        while i < self.cache.len()
            invariant
                i <= self.cache.len(),
                self.cache@ == cache,
                self.history@ == history,
                self.labels@ == labels,
                cached_label(cache.take(i as int), data@) is None,
            decreases self.cache.len() - i,
        {
            proof {
                assert(cache.take(i + 1).drop_last() =~= cache.take(i as int));
            }
            if bytes_equal(self.cache[i].data.as_slice(), data.as_slice()) {
                let first = self.cache[i].label.clone();
                proof {
                    lemma_cached_prefix(cache, i + 1, data@);
                    assert(cached_label(cache, data@) == first_label(history, data@));
                    assert forall|d: Seq<u8>| #[trigger]
                        cached_label(cache, d) == first_label(next, d) by {
                        assert(cached_label(cache, d) == first_label(history, d));
                    }
                }
                self.history = Ghost(next);
                return Some(first);
            }
            i = i + 1;
        }
        proof {
            assert(cache.take(cache.len() as int) =~= cache);
            assert(cached_label(cache, data@) == first_label(history, data@));
        }
        let mut copy: Vec<u8> = Vec::new();
        let mut k: usize = 0;
        while k < data.len()
            invariant
                k <= data.len(),
                copy@ == data@.take(k as int),
            decreases data.len() - k,
        {
            copy.push(data[k]);
            assert(copy@ =~= data@.take(k + 1));
            k = k + 1;
        }
        assert(data@.take(data.len() as int) =~= data@);
        self.cache.push(CacheEntry { data: copy, label: label.clone() });
        self.history = Ghost(next);
        proof {
            assert(self.cache@.drop_last() =~= cache);
            assert forall|d: Seq<u8>| #[trigger]
                cached_label(self.cache@, d) == first_label(next, d) by {
                assert(cached_label(cache, d) == first_label(history, d));
            }
        }
        None
    }
}

} // verus!
