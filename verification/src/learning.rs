//! The learning cache: conversions the user chose, scored by how often they
//! were chosen, so that learned candidates come first in later conversions.
use vstd::prelude::*;
use vstd::string::StringExecFns;

verus! {

/// One learned conversion: the reading, the chosen text and its score.
pub struct LearningEntry {
    pub reading: String,
    pub surface: String,
    pub score: u64,
}

/// The abstract form of a learned conversion.
pub struct EntryView {
    pub reading: Seq<char>,
    pub surface: Seq<char>,
    pub score: int,
}

pub open spec fn entry_view(e: LearningEntry) -> EntryView {
    EntryView { reading: e.reading@, surface: e.surface@, score: e.score as int }
}

pub open spec fn entries_view(v: Seq<LearningEntry>) -> Seq<EntryView> {
    v.map_values(|e: LearningEntry| entry_view(e))
}

/// Learned conversions, oldest first, holding at most `max_entries` of them.
pub struct LearningCache {
    entries: Vec<LearningEntry>,
    max_entries: usize,
}

/// The abstract state of a [`LearningCache`].
pub struct LearningCacheView {
    pub entries: Seq<EntryView>,
    pub max_entries: int,
}

/// How the user adjusts a learned candidate.
#[derive(Debug, Clone, Copy, PartialEq, Eq)]
pub enum LearningAdjustment {
    /// Rank the candidate first among those of its reading.
    Promote,
    /// Lower the candidate's score by one.
    Demote,
    /// Forget the candidate.
    Delete,
}

/// Index of the entry for `reading` and `surface`, if there is one.
pub open spec fn find_entry(entries: Seq<EntryView>, reading: Seq<char>, surface: Seq<char>) -> Option<int>
    decreases entries.len(),
{
    if entries.len() == 0 {
        None
    } else if entries.last().reading == reading && entries.last().surface == surface {
        Some(entries.len() - 1)
    } else {
        find_entry(entries.drop_last(), reading, surface)
    }
}

/// `sorted` with `x` inserted after every entry whose score is at least
/// `x`'s score.
pub open spec fn insert_by_score(sorted: Seq<(Seq<char>, int)>, x: (Seq<char>, int)) -> Seq<(Seq<char>, int)>
    decreases sorted.len(),
{
    if sorted.len() == 0 {
        seq![x]
    } else if sorted.last().1 >= x.1 {
        sorted.push(x)
    } else {
        insert_by_score(sorted.drop_last(), x).push(sorted.last())
    }
}

/// The texts and scores learned for `reading`, highest score first; among
/// equal scores, the earlier learned first.
pub open spec fn lookup_spec(entries: Seq<EntryView>, reading: Seq<char>) -> Seq<(Seq<char>, int)>
    decreases entries.len(),
{
    if entries.len() == 0 {
        seq![]
    } else {
        let rest = lookup_spec(entries.drop_last(), reading);
        if entries.last().reading == reading {
            insert_by_score(rest, (entries.last().surface, entries.last().score))
        } else {
            rest
        }
    }
}

/// Highest score learned for `reading` (0 when there is none).
pub open spec fn max_score(entries: Seq<EntryView>, reading: Seq<char>) -> int
    decreases entries.len(),
{
    if entries.len() == 0 {
        0
    } else {
        let rest = max_score(entries.drop_last(), reading);
        if entries.last().reading == reading && entries.last().score > rest {
            entries.last().score
        } else {
            rest
        }
    }
}

pub open spec fn saturating_inc(score: int) -> int {
    if score < u64::MAX { score + 1 } else { score }
}

impl LearningCacheView {
    /// No conversion is learned twice, and the capacity is respected.
    pub open spec fn wf(self) -> bool {
        &&& self.entries.len() <= self.max_entries
        &&& forall|i: int, j: int|
            0 <= i < j < self.entries.len() ==> !(#[trigger] self.entries[i].reading == #[trigger] self.entries[j].reading
                && self.entries[i].surface == self.entries[j].surface)
        &&& forall|i: int| 0 <= i < self.entries.len() ==> 0 <= #[trigger] self.entries[i].score <= u64::MAX
    }

    /// State after learning that `surface` was chosen for `reading`: a known
    /// conversion gains a point; a new one is learned with score 1, the
    /// oldest entry making room for it when the cache is full.
    pub open spec fn recorded(self, reading: Seq<char>, surface: Seq<char>) -> LearningCacheView {
        match find_entry(self.entries, reading, surface) {
            Some(i) => LearningCacheView {
                entries: self.entries.update(
                    i,
                    EntryView { score: saturating_inc(self.entries[i].score), ..self.entries[i] },
                ),
                max_entries: self.max_entries,
            },
            None => {
                let grown = self.entries.push(EntryView { reading, surface, score: 1 });
                LearningCacheView {
                    entries: if grown.len() > self.max_entries { grown.drop_first() } else { grown },
                    max_entries: self.max_entries,
                }
            },
        }
    }

    /// State after an adjustment of the learned conversion `surface` of
    /// `reading` (unchanged when it is not learned).
    pub open spec fn adjusted(self, reading: Seq<char>, surface: Seq<char>, adjustment: LearningAdjustment) -> LearningCacheView {
        match find_entry(self.entries, reading, surface) {
            Some(i) => LearningCacheView {
                entries: match adjustment {
                    LearningAdjustment::Promote => self.entries.update(
                        i,
                        EntryView { score: saturating_inc(max_score(self.entries, reading)), ..self.entries[i] },
                    ),
                    LearningAdjustment::Demote => self.entries.update(
                        i,
                        EntryView {
                            score: if self.entries[i].score > 0 { self.entries[i].score - 1 } else { 0 },
                            ..self.entries[i]
                        },
                    ),
                    LearningAdjustment::Delete => self.entries.remove(i),
                },
                max_entries: self.max_entries,
            },
            None => self,
        }
    }
}

impl View for LearningCache {
    type V = LearningCacheView;

    closed spec fn view(&self) -> LearningCacheView {
        LearningCacheView { entries: entries_view(self.entries@), max_entries: self.max_entries as int }
    }
}

proof fn lemma_find_entry(entries: Seq<EntryView>, reading: Seq<char>, surface: Seq<char>)
    ensures
        match find_entry(entries, reading, surface) {
            Some(i) => 0 <= i < entries.len() && entries[i].reading == reading && entries[i].surface == surface,
            None => forall|k: int|
                0 <= k < entries.len() ==> !(#[trigger] entries[k].reading == reading && entries[k].surface == surface),
        },
    decreases entries.len(),
{
    if entries.len() > 0 {
        lemma_find_entry(entries.drop_last(), reading, surface);
        if find_entry(entries, reading, surface) is None {
            assert forall|k: int| 0 <= k < entries.len() implies !(#[trigger] entries[k].reading == reading
                && entries[k].surface == surface) by {
                if k < entries.len() - 1 {
                    assert(entries.drop_last()[k] == entries[k]);
                }
            }
        }
    }
}

proof fn lemma_find_entry_unique(entries: Seq<EntryView>, reading: Seq<char>, surface: Seq<char>, k: int)
    requires
        0 <= k < entries.len(),
        entries[k].reading == reading,
        entries[k].surface == surface,
        forall|i: int, j: int|
            0 <= i < j < entries.len() ==> !(#[trigger] entries[i].reading == #[trigger] entries[j].reading
                && entries[i].surface == entries[j].surface),
    ensures
        find_entry(entries, reading, surface) == Some(k),
    decreases entries.len(),
{
    if k < entries.len() - 1 {
        assert(!(entries[k].reading == entries[entries.len() - 1].reading && entries[k].surface == entries[entries.len()
            - 1].surface));
        lemma_find_entry_unique(entries.drop_last(), reading, surface, k);
    }
}

impl LearningCache {
    #[verifier::type_invariant]
    closed spec fn inv(self) -> bool {
        self@.wf()
    }

    /// An empty cache holding at most `max_entries` conversions.
    pub fn new(max_entries: usize) -> (c: LearningCache)
        ensures
            c@.entries.len() == 0,
            c@.max_entries == max_entries,
            c@.wf(),
    {
        let c = LearningCache { entries: Vec::new(), max_entries };
        assert(entries_view(c.entries@) =~= seq![]);
        c
    }

    /// Number of learned conversions.
    pub fn entry_count(&self) -> (r: usize)
        ensures
            r == self@.entries.len(),
    {
        self.entries.len()
    }

    fn find(&self, reading: &str, surface: &str) -> (r: Option<usize>)
        ensures
            match find_entry(self@.entries, reading@, surface@) {
                Some(i) => r == Some(i as usize),
                None => r is None,
            },
    {
        let mut i: usize = self.entries.len();
        assert(self@.entries.take(i as int) =~= self@.entries);
        while i > 0
            invariant
                i <= self.entries@.len(),
                find_entry(self@.entries, reading@, surface@) == find_entry(self@.entries.take(i as int), reading@, surface@),
            decreases i,
        {
            let e = &self.entries[i - 1];
            let ghost prefix = self@.entries.take(i as int);
            assert(prefix.last() == entry_view(self.entries@[i - 1]));
            assert(prefix.drop_last() =~= self@.entries.take(i - 1));
            if crate::text::str_eq(e.reading.as_str(), reading) && crate::text::str_eq(e.surface.as_str(), surface) {
                return Some(i - 1);
            }
            i = i - 1;
        }
        None
    }

    /// Learns that `surface` was chosen for `reading`; see
    /// [`LearningCacheView::recorded`].
    pub fn record(&mut self, reading: &str, surface: &str)
        ensures
            final(self)@ == old(self)@.recorded(reading@, surface@),
            final(self)@.wf(),
    {
        proof {
            use_type_invariant(&*self);
            lemma_find_entry(self@.entries, reading@, surface@);
        }
        match self.find(reading, surface) {
            Some(i) => {
                let ghost before = self@.entries;
                let score = self.entries[i].score;
                let new_score = if score < u64::MAX { score + 1 } else { score };
                let mut entries: Vec<LearningEntry> = Vec::new();
                std::mem::swap(&mut entries, &mut self.entries);
                let old_entry = entries.remove(i);
                entries.insert(i, LearningEntry { reading: old_entry.reading, surface: old_entry.surface, score: new_score });
                assert(entries_view(entries@) =~= before.update(
                    i as int,
                    EntryView { score: saturating_inc(before[i as int].score), ..before[i as int] },
                ));
                self.entries = entries;
            },
            None => {
                let ghost before = self@.entries;
                let mut entries: Vec<LearningEntry> = Vec::new();
                std::mem::swap(&mut entries, &mut self.entries);
                entries.push(LearningEntry { reading: String::from_str(reading), surface: String::from_str(surface), score: 1 });
                let ghost grown = before.push(EntryView { reading: reading@, surface: surface@, score: 1 });
                assert(entries_view(entries@) =~= grown);
                if entries.len() > self.max_entries {
                    entries.remove(0);
                    assert(entries_view(entries@) =~= grown.drop_first());
                }
                self.entries = entries;
            },
        }
    }

    /// The texts and scores learned for `reading`; see [`lookup_spec`].
    pub fn lookup(&self, reading: &str) -> (r: Vec<(String, u64)>)
        ensures
            r@.map_values(|p: (String, u64)| (p.0@, p.1 as int)) == lookup_spec(self@.entries, reading@),
    {
        let mut out: Vec<(String, u64)> = Vec::new();
        let mut i: usize = 0;
        assert(self@.entries.take(0) =~= Seq::<EntryView>::empty());
        while i < self.entries.len()
            invariant
                i <= self.entries@.len(),
                out@.map_values(|p: (String, u64)| (p.0@, p.1 as int)) == lookup_spec(self@.entries.take(i as int), reading@),
            decreases self.entries.len() - i,
        {
            let e = &self.entries[i];
            let ghost prefix = self@.entries.take(i + 1);
            assert(prefix.drop_last() =~= self@.entries.take(i as int));
            assert(prefix.last() == entry_view(self.entries@[i as int]));
            if crate::text::str_eq(e.reading.as_str(), reading) {
                insert_sorted(&mut out, (e.surface.clone(), e.score));
            }
            i = i + 1;
        }
        assert(self@.entries.take(i as int) =~= self@.entries);
        out
    }

    /// Adjusts the learned conversion `surface` of `reading`; see
    /// [`LearningCacheView::adjusted`]. Returns whether it was learned.
    pub fn adjust(&mut self, reading: &str, surface: &str, adjustment: LearningAdjustment) -> (found: bool)
        ensures
            final(self)@ == old(self)@.adjusted(reading@, surface@, adjustment),
            final(self)@.wf(),
            found == (find_entry(old(self)@.entries, reading@, surface@) is Some),
    {
        proof {
            use_type_invariant(&*self);
            lemma_find_entry(self@.entries, reading@, surface@);
        }
        let index = self.find(reading, surface);
        let i = match index {
            Some(i) => i,
            None => return false,
        };
        let ghost before = self@.entries;
        match adjustment {
            LearningAdjustment::Promote => {
                let top = self.max_score_of(reading);
                let new_score = if top < u64::MAX { top + 1 } else { top };
                let mut entries: Vec<LearningEntry> = Vec::new();
                std::mem::swap(&mut entries, &mut self.entries);
                let old_entry = entries.remove(i);
                entries.insert(i, LearningEntry { reading: old_entry.reading, surface: old_entry.surface, score: new_score });
                assert(entries_view(entries@) =~= before.update(
                    i as int,
                    EntryView { score: saturating_inc(max_score(before, reading@)), ..before[i as int] },
                ));
                self.entries = entries;
            },
            LearningAdjustment::Demote => {
                let score = self.entries[i].score;
                let new_score = if score > 0 { score - 1 } else { 0 };
                let mut entries: Vec<LearningEntry> = Vec::new();
                std::mem::swap(&mut entries, &mut self.entries);
                let old_entry = entries.remove(i);
                entries.insert(i, LearningEntry { reading: old_entry.reading, surface: old_entry.surface, score: new_score });
                assert(entries_view(entries@) =~= before.update(
                    i as int,
                    EntryView {
                        score: if before[i as int].score > 0 { before[i as int].score - 1 } else { 0 },
                        ..before[i as int]
                    },
                ));
                self.entries = entries;
            },
            LearningAdjustment::Delete => {
                let mut entries: Vec<LearningEntry> = Vec::new();
                std::mem::swap(&mut entries, &mut self.entries);
                entries.remove(i);
                assert(entries_view(entries@) =~= before.remove(i as int));
                self.entries = entries;
            },
        }
        true
    }

    fn max_score_of(&self, reading: &str) -> (r: u64)
        ensures
            r == max_score(self@.entries, reading@),
    {
        let mut best: u64 = 0;
        let mut i: usize = 0;
        assert(self@.entries.take(0) =~= Seq::<EntryView>::empty());
        while i < self.entries.len()
            invariant
                i <= self.entries@.len(),
                best == max_score(self@.entries.take(i as int), reading@),
            decreases self.entries.len() - i,
        {
            let e = &self.entries[i];
            let ghost prefix = self@.entries.take(i + 1);
            assert(prefix.drop_last() =~= self@.entries.take(i as int));
            assert(prefix.last() == entry_view(self.entries@[i as int]));
            if crate::text::str_eq(e.reading.as_str(), reading) && e.score > best {
                best = e.score;
            }
            i = i + 1;
        }
        assert(self@.entries.take(i as int) =~= self@.entries);
        best
    }
}

/// Inserts `x` after every element whose score is at least `x`'s.
fn insert_sorted(out: &mut Vec<(String, u64)>, x: (String, u64))
    ensures
        final(out)@.map_values(|p: (String, u64)| (p.0@, p.1 as int)) == insert_by_score(
            old(out)@.map_values(|p: (String, u64)| (p.0@, p.1 as int)),
            (x.0@, x.1 as int),
        ),
    decreases old(out)@.len(),
{
    let ghost before = out@.map_values(|p: (String, u64)| (p.0@, p.1 as int));
    let n = out.len();
    if n == 0 || out[n - 1].1 >= x.1 {
        out.push(x);
        assert(out@.map_values(|p: (String, u64)| (p.0@, p.1 as int)) =~= if n == 0 { seq![(x.0@, x.1 as int)] } else { before.push((x.0@, x.1 as int)) });
    } else {
        let last = out.pop().unwrap();
        assert(out@.map_values(|p: (String, u64)| (p.0@, p.1 as int)) =~= before.drop_last());
        insert_sorted(out, x);
        let ghost middle = out@.map_values(|p: (String, u64)| (p.0@, p.1 as int));
        out.push(last);
        assert(out@.map_values(|p: (String, u64)| (p.0@, p.1 as int)) =~= middle.push(before.last()));
    }
}


/// Scores never increase along `s`.
pub open spec fn score_ordered(s: Seq<(Seq<char>, int)>) -> bool {
    forall|i: int, j: int| 0 <= i < j < s.len() ==> (#[trigger] s[i]).1 >= (#[trigger] s[j]).1
}

/// The text and score of a learned conversion.
pub open spec fn entry_pair(e: EntryView) -> (Seq<char>, int) {
    (e.surface, e.score)
}

/// The texts of a lookup result.
pub open spec fn lookup_texts(s: Seq<(Seq<char>, int)>) -> Seq<Seq<char>> {
    s.map_values(|p: (Seq<char>, int)| p.0)
}

proof fn lemma_insert_by_score(sorted: Seq<(Seq<char>, int)>, x: (Seq<char>, int))
    ensures
        insert_by_score(sorted, x).len() == sorted.len() + 1,
        forall|y: (Seq<char>, int)| #[trigger]
            insert_by_score(sorted, x).contains(y) <==> (sorted.contains(y) || y == x),
        score_ordered(sorted) ==> score_ordered(insert_by_score(sorted, x)),
    decreases sorted.len(),
{
    let r = insert_by_score(sorted, x);
    if sorted.len() == 0 {
        assert forall|y: (Seq<char>, int)| #[trigger] r.contains(y) <==> (sorted.contains(y) || y == x) by {
            if r.contains(y) {
                let k = choose|k: int| 0 <= k < r.len() && r[k] == y;
                assert(k == 0);
            }
            if y == x {
                assert(r[0] == x);
            }
        }
    } else if sorted.last().1 >= x.1 {
        assert forall|y: (Seq<char>, int)| #[trigger] r.contains(y) <==> (sorted.contains(y) || y == x) by {
            if r.contains(y) {
                let k = choose|k: int| 0 <= k < r.len() && r[k] == y;
                if k < sorted.len() {
                    assert(sorted[k] == y);
                }
            }
            if sorted.contains(y) {
                let k = choose|k: int| 0 <= k < sorted.len() && sorted[k] == y;
                assert(r[k] == y);
            }
            if y == x {
                assert(r[sorted.len() as int] == x);
            }
        }
        if score_ordered(sorted) {
            assert forall|i: int, j: int| 0 <= i < j < r.len() implies (#[trigger] r[i]).1 >= (#[trigger] r[j]).1 by {
                if j == sorted.len() {
                    if i < sorted.len() - 1 {
                        assert(sorted[i].1 >= sorted[sorted.len() - 1].1);
                    }
                }
            }
        }
    } else {
        let rest = sorted.drop_last();
        let inner = insert_by_score(rest, x);
        lemma_insert_by_score(rest, x);
        assert forall|y: (Seq<char>, int)| #[trigger] r.contains(y) <==> (sorted.contains(y) || y == x) by {
            if r.contains(y) {
                let k = choose|k: int| 0 <= k < r.len() && r[k] == y;
                if k < inner.len() {
                    assert(inner[k] == y);
                    assert(inner.contains(y));
                    if rest.contains(y) {
                        let m = choose|m: int| 0 <= m < rest.len() && rest[m] == y;
                        assert(sorted[m] == y);
                    }
                } else {
                    assert(y == sorted.last());
                    assert(sorted[sorted.len() - 1] == y);
                }
            }
            if sorted.contains(y) {
                let k = choose|k: int| 0 <= k < sorted.len() && sorted[k] == y;
                if k < sorted.len() - 1 {
                    assert(rest[k] == y);
                    assert(rest.contains(y));
                    assert(inner.contains(y));
                    let m = choose|m: int| 0 <= m < inner.len() && inner[m] == y;
                    assert(r[m] == y);
                } else {
                    assert(r[inner.len() as int] == y);
                }
            }
            if y == x {
                assert(inner.contains(y));
                let m = choose|m: int| 0 <= m < inner.len() && inner[m] == y;
                assert(r[m] == y);
            }
        }
        if score_ordered(sorted) {
            assert(score_ordered(rest)) by {
                assert forall|i: int, j: int| 0 <= i < j < rest.len() implies (#[trigger] rest[i]).1 >= (
                #[trigger] rest[j]).1 by {
                    assert(sorted[i] == rest[i] && sorted[j] == rest[j]);
                }
            }
            assert forall|i: int, j: int| 0 <= i < j < r.len() implies (#[trigger] r[i]).1 >= (#[trigger] r[j]).1 by {
                if j == inner.len() {
                    let y = inner[i];
                    assert(inner.contains(y));
                    if rest.contains(y) {
                        let m = choose|m: int| 0 <= m < rest.len() && rest[m] == y;
                        assert(sorted[m] == y);
                        assert(sorted[m].1 >= sorted[sorted.len() - 1].1);
                    }
                } else {
                    assert(r[i] == inner[i] && r[j] == inner[j]);
                }
            }
        }
    }
}

proof fn lemma_lookup(entries: Seq<EntryView>, reading: Seq<char>)
    ensures
        score_ordered(lookup_spec(entries, reading)),
        forall|y: (Seq<char>, int)| #[trigger]
            lookup_spec(entries, reading).contains(y) <==> exists|k: int|
                0 <= k < entries.len() && (#[trigger] entries[k]).reading == reading && y == entry_pair(entries[k]),
    decreases entries.len(),
{
    if entries.len() > 0 {
        let prior = entries.drop_last();
        let rest = lookup_spec(prior, reading);
        let last = entries.last();
        let n = entries.len() - 1;
        lemma_lookup(prior, reading);
        lemma_insert_by_score(rest, entry_pair(last));
        let r = lookup_spec(entries, reading);
        assert forall|y: (Seq<char>, int)| #[trigger] r.contains(y) <==> exists|k: int|
            0 <= k < entries.len() && (#[trigger] entries[k]).reading == reading && y == entry_pair(entries[k]) by {
            if r.contains(y) {
                if rest.contains(y) {
                    let k = choose|k: int|
                        0 <= k < prior.len() && (#[trigger] prior[k]).reading == reading && y == entry_pair(prior[k]);
                    assert(entries[k] == prior[k]);
                } else {
                    assert(entries[n] == last);
                }
            }
            if exists|k: int| 0 <= k < entries.len() && (#[trigger] entries[k]).reading == reading && y == entry_pair(entries[k]) {
                let k = choose|k: int|
                    0 <= k < entries.len() && (#[trigger] entries[k]).reading == reading && y == entry_pair(entries[k]);
                if k < n {
                    assert(prior[k] == entries[k]);
                    assert(rest.contains(y));
                }
            }
        }
    }
}

proof fn lemma_score_at_most_max(entries: Seq<EntryView>, reading: Seq<char>, k: int)
    requires
        0 <= k < entries.len(),
        entries[k].reading == reading,
    ensures
        entries[k].score <= max_score(entries, reading),
    decreases entries.len(),
{
    if k < entries.len() - 1 {
        lemma_score_at_most_max(entries.drop_last(), reading, k);
    }
}

/// A conversion just learned is among the learned texts of its reading.
pub proof fn lemma_recorded_is_learned(c: LearningCacheView, reading: Seq<char>, surface: Seq<char>)
    requires
        c.wf(),
        c.max_entries >= 1,
    ensures
        lookup_texts(lookup_spec(c.recorded(reading, surface).entries, reading)).contains(surface),
{
    lemma_find_entry(c.entries, reading, surface);
    let after = c.recorded(reading, surface).entries;
    let k: int = match find_entry(c.entries, reading, surface) {
        Some(i) => i,
        None => after.len() - 1,
    };
    assert(0 <= k < after.len() && after[k].reading == reading && after[k].surface == surface);
    lemma_lookup(after, reading);
    let found = lookup_spec(after, reading);
    assert(found.contains(entry_pair(after[k])));
    let m = choose|m: int| 0 <= m < found.len() && found[m] == entry_pair(after[k]);
    assert(lookup_texts(found)[m] == surface);
}

/// A deleted conversion is no longer among the learned texts of its reading.
pub proof fn lemma_deleted_is_forgotten(c: LearningCacheView, reading: Seq<char>, surface: Seq<char>)
    requires
        c.wf(),
    ensures
        !lookup_texts(lookup_spec(c.adjusted(reading, surface, LearningAdjustment::Delete).entries, reading)).contains(
            surface,
        ),
{
    lemma_find_entry(c.entries, reading, surface);
    let after = c.adjusted(reading, surface, LearningAdjustment::Delete).entries;
    let found = lookup_spec(after, reading);
    lemma_lookup(after, reading);
    if lookup_texts(found).contains(surface) {
        let m = choose|m: int| 0 <= m < found.len() && lookup_texts(found)[m] == surface;
        assert(found.contains(found[m]));
        let k = choose|k: int|
            0 <= k < after.len() && (#[trigger] after[k]).reading == reading && found[m] == entry_pair(after[k]);
        let i = find_entry(c.entries, reading, surface).unwrap();
        if k < i {
            assert(after[k] == c.entries[k]);
        } else {
            assert(after[k] == c.entries[k + 1]);
        }
    }
}

/// A promoted conversion comes first among the learned texts of its
/// reading (while its new score fits in a `u64`).
pub proof fn lemma_promoted_comes_first(c: LearningCacheView, reading: Seq<char>, surface: Seq<char>)
    requires
        c.wf(),
        find_entry(c.entries, reading, surface) is Some,
        max_score(c.entries, reading) < u64::MAX,
    ensures
        lookup_spec(c.adjusted(reading, surface, LearningAdjustment::Promote).entries, reading).len() > 0,
        lookup_spec(c.adjusted(reading, surface, LearningAdjustment::Promote).entries, reading)[0].0 == surface,
{
    lemma_find_entry(c.entries, reading, surface);
    let i = find_entry(c.entries, reading, surface).unwrap();
    let top = max_score(c.entries, reading) + 1;
    let after = c.adjusted(reading, surface, LearningAdjustment::Promote).entries;
    let found = lookup_spec(after, reading);
    lemma_lookup(after, reading);
    assert(after[i].score == top);
    assert(found.contains(entry_pair(after[i])));
    let j = choose|j: int| 0 <= j < found.len() && found[j] == entry_pair(after[i]);
    assert(found.contains(found[0]));
    let k = choose|k: int| 0 <= k < after.len() && (#[trigger] after[k]).reading == reading && found[0] == entry_pair(after[k]);
    if j > 0 {
        assert(found[0].1 >= found[j].1);
    }
    if k != i {
        assert(after[k] == c.entries[k]);
        lemma_score_at_most_max(c.entries, reading, k);
    }
}

/// Demoting a learned conversion lowers its score by one (not below 0) and
/// keeps it learned.
pub proof fn lemma_demoted_score(c: LearningCacheView, reading: Seq<char>, surface: Seq<char>)
    requires
        c.wf(),
        find_entry(c.entries, reading, surface) is Some,
    ensures
        ({
            let i = find_entry(c.entries, reading, surface).unwrap();
            let after = c.adjusted(reading, surface, LearningAdjustment::Demote).entries;
            &&& after.len() == c.entries.len()
            &&& after[i].reading == reading && after[i].surface == surface
            &&& after[i].score == if c.entries[i].score > 0 { c.entries[i].score - 1 } else { 0 }
        }),
{
    lemma_find_entry(c.entries, reading, surface);
}

} // verus!
