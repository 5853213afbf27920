//! Candidate list management: a list of conversion candidates with an
//! optional highlighted row and fixed-size pages.
use vstd::prelude::*;
use vstd::string::StringExecFns;

verus! {

/// A single conversion candidate.
///
/// `source_label` names the subsystem that produced the candidate (shown in
/// the aux text); `description` is the per-candidate comment shown beside it.
#[derive(Debug, PartialEq, Eq)]
pub struct Candidate {
    /// The converted text
    pub text: String,
    /// The reading it was converted from (hiragana)
    pub reading: Option<String>,
    /// Source label for the aux text slot
    pub source_label: Option<String>,
    /// Per-candidate description shown as the right-side comment
    pub description: Option<String>,
}

impl Candidate {
    /// A candidate with the given text and no reading or annotations.
    pub fn new(text: &str) -> (c: Candidate)
        ensures
            c.text@ == text@,
            c.reading is None,
            c.source_label is None,
            c.description is None,
    {
        Candidate { text: String::from_str(text), reading: None, source_label: None, description: None }
    }

    /// A candidate with the given text and reading, and no annotations.
    pub fn with_reading(text: &str, reading: &str) -> (c: Candidate)
        ensures
            c.text@ == text@,
            c.reading matches Some(r) && r@ == reading@,
            c.source_label is None,
            c.description is None,
    {
        Candidate {
            text: String::from_str(text),
            reading: Some(String::from_str(reading)),
            source_label: None,
            description: None,
        }
    }
}

fn clone_text(o: &Option<String>) -> (r: Option<String>)
    ensures
        r == *o,
{
    match o {
        Some(s) => Some(s.clone()),
        None => None,
    }
}

impl Clone for Candidate {
    fn clone(&self) -> (c: Candidate)
        ensures
            c == *self,
    {
        Candidate {
            text: self.text.clone(),
            reading: clone_text(&self.reading),
            source_label: clone_text(&self.source_label),
            description: clone_text(&self.description),
        }
    }
}

impl From<String> for Candidate {
    /// A candidate with the given text; see [`Candidate::new`].
    fn from(text: String) -> (c: Candidate) {
        Candidate { text, reading: None, source_label: None, description: None }
    }
}

impl vstd::std_specs::convert::FromSpecImpl<String> for Candidate {
    open spec fn obeys_from_spec() -> bool {
        true
    }

    open spec fn from_spec(text: String) -> Candidate {
        Candidate { text, reading: None, source_label: None, description: None }
    }
}

impl<'a> From<&'a str> for Candidate {
    /// A candidate with the given text; see [`Candidate::new`].
    fn from(text: &'a str) -> (c: Candidate)
        ensures
            c.text@ == text@,
            c.reading is None,
            c.source_label is None,
            c.description is None,
    {
        Candidate::new(text)
    }
}

impl<'a> vstd::std_specs::convert::FromSpecImpl<&'a str> for Candidate {
    /// No spec function builds a `String`, so the result of this conversion
    /// is stated in the `ensures` of `from` instead.
    open spec fn obeys_from_spec() -> bool {
        false
    }

    open spec fn from_spec(text: &'a str) -> Candidate {
        vstd::pervasive::arbitrary()
    }
}

/// The abstract state of a [`CandidateList`]: its candidates, the highlighted
/// row (if any) and the number of rows per page.
pub struct CandidateListView {
    pub items: Seq<Candidate>,
    pub cursor: Option<usize>,
    pub page_size: usize,
}

/// Rows shown per page.
pub const DEFAULT_PAGE_SIZE: usize = 9;

impl CandidateListView {
    /// Every reachable list: the page size is the default one, the
    /// candidates fit in memory, and a cursor
    /// points at a candidate, or is the initial `0` of an empty list.
    pub open spec fn wf(self) -> bool {
        &&& self.page_size == DEFAULT_PAGE_SIZE
        &&& self.items.len() <= usize::MAX
        &&& (self.cursor matches Some(c) ==> c < self.items.len() || c == 0)
    }

    pub open spec fn len(self) -> int {
        self.items.len() as int
    }

    pub open spec fn with_cursor(self, cursor: Option<usize>) -> CandidateListView {
        CandidateListView { items: self.items, cursor, page_size: self.page_size }
    }

    /// Page (0-based) that holds the cursor; page 0 without a cursor.
    pub open spec fn current_page(self) -> int {
        match self.cursor {
            Some(c) => c as int / self.page_size as int,
            None => 0,
        }
    }

    pub open spec fn page_start(self) -> int {
        self.current_page() * self.page_size
    }

    /// Number of pages needed to show every candidate.
    pub open spec fn total_pages(self) -> int {
        if self.page_size == 0 || self.len() == 0 {
            0
        } else {
            (self.len() + self.page_size - 1) / self.page_size as int
        }
    }

    /// End (exclusive) of the current page.
    pub open spec fn page_end(self) -> int {
        if self.page_start() + self.page_size <= self.len() {
            self.page_start() + self.page_size
        } else {
            self.len()
        }
    }

    pub open spec fn selected(self) -> Option<Candidate> {
        match self.cursor {
            Some(c) => if c < self.len() { Some(self.items[c as int]) } else { None },
            None => None,
        }
    }

    /// State after moving to the next candidate (wrapping to the first).
    pub open spec fn moved_next(self) -> CandidateListView {
        match self.cursor {
            None => if self.len() == 0 { self } else { self.with_cursor(Some(0)) },
            Some(c) => if c + 1 < self.len() {
                self.with_cursor(Some((c + 1) as usize))
            } else if self.len() > 0 {
                self.with_cursor(Some(0))
            } else {
                self
            },
        }
    }

    /// State after moving to the previous candidate (wrapping to the last).
    pub open spec fn moved_prev(self) -> CandidateListView {
        match self.cursor {
            None => if self.len() == 0 { self } else { self.with_cursor(Some((self.len() - 1) as usize)) },
            Some(c) => if c > 0 {
                self.with_cursor(Some((c - 1) as usize))
            } else if self.len() > 0 {
                self.with_cursor(Some((self.len() - 1) as usize))
            } else {
                self
            },
        }
    }

    /// State after moving to the first row of the next page (wrapping to the first page).
    pub open spec fn moved_next_page(self) -> CandidateListView {
        if self.len() == 0 {
            self
        } else if self.page_start() + self.page_size < self.len() {
            self.with_cursor(Some((self.page_start() + self.page_size) as usize))
        } else {
            self.with_cursor(Some(0))
        }
    }

    /// State after moving to the first row of the previous page (wrapping to the last page).
    pub open spec fn moved_prev_page(self) -> CandidateListView {
        if self.len() == 0 {
            self
        } else if self.current_page() > 0 {
            self.with_cursor(Some(((self.current_page() - 1) * self.page_size) as usize))
        } else {
            self.with_cursor(Some(((self.total_pages() - 1) * self.page_size) as usize))
        }
    }

    /// Absolute index of the 1-based row `page_index` of the current page,
    /// when that row exists.
    pub open spec fn page_row(self, page_index: int) -> Option<int> {
        if page_index == 0 || page_index > self.page_size {
            None
        } else if self.page_start() + page_index - 1 < self.len() {
            Some(self.page_start() + page_index - 1)
        } else {
            None
        }
    }
}

/// A list of candidates with pagination and selection support
#[derive(Debug)]
pub struct CandidateList {
    candidates: Vec<Candidate>,
    cursor: Option<usize>,
    page_size: usize,
}

impl View for CandidateList {
    type V = CandidateListView;

    closed spec fn view(&self) -> CandidateListView {
        CandidateListView { items: self.candidates@, cursor: self.cursor, page_size: self.page_size }
    }
}

proof fn lemma_page_start_le_cursor(c: int, ps: int)
    requires
        0 <= c,
        0 < ps,
    ensures
        0 <= (c / ps) * ps <= c,
        c - (c / ps) * ps < ps,
{
    assert(0 <= (c / ps) * ps <= c && c - (c / ps) * ps < ps) by (nonlinear_arith)
        requires
            0 <= c,
            0 < ps,
    ;
}

proof fn lemma_prev_page_start(p: int, ps: int)
    requires
        0 < p,
        0 < ps,
    ensures
        0 <= (p - 1) * ps < p * ps,
{
    assert(0 <= (p - 1) * ps < p * ps) by (nonlinear_arith)
        requires
            0 < p,
            0 < ps,
    ;
}

proof fn lemma_last_page_start(len: int, ps: int)
    requires
        0 < len,
        0 < ps,
    ensures
        (len + ps - 1) / ps >= 1,
        0 <= ((len + ps - 1) / ps - 1) * ps < len,
{
    assert((len + ps - 1) / ps >= 1 && 0 <= ((len + ps - 1) / ps - 1) * ps < len) by (nonlinear_arith)
        requires
            0 < len,
            0 < ps,
    ;
}

/// Moving to the previous candidate undoes moving to the next one, and the
/// other way round, on a list with a selected row.
pub proof fn lemma_move_prev_undoes_move_next(v: CandidateListView)
    requires
        v.wf(),
        v.cursor is Some,
    ensures
        v.moved_next().moved_prev() == v,
        v.moved_prev().moved_next() == v,
{
}

/// On a non-empty list, every navigation leaves a candidate selected.
pub proof fn lemma_navigation_selects(v: CandidateListView)
    requires
        v.wf(),
        v.len() > 0,
    ensures
        v.moved_next().selected() is Some,
        v.moved_prev().selected() is Some,
        v.moved_next_page().selected() is Some,
        v.moved_prev_page().selected() is Some,
{
    if let Some(c) = v.cursor {
        lemma_page_start_le_cursor(c as int, v.page_size as int);
        if v.current_page() > 0 {
            lemma_prev_page_start(v.current_page(), v.page_size as int);
        }
    }
    lemma_last_page_start(v.len(), v.page_size as int);
}

/// Page moves on a non-empty list land on the first row of a page.
pub proof fn lemma_page_moves_land_on_page_start(v: CandidateListView)
    requires
        v.wf(),
        v.len() > 0,
    ensures
        v.moved_next_page().cursor matches Some(c) && c % v.page_size == 0,
        v.moved_prev_page().cursor matches Some(c) && c % v.page_size == 0,
{
    let ps = v.page_size as int;
    let p = v.current_page();
    assert(p >= 0) by (nonlinear_arith)
        requires
            p == (match v.cursor { Some(c) => c as int / ps, None => 0 }),
            ps > 0,
    ;
    assert((p * ps + ps) % ps == 0) by (nonlinear_arith)
        requires
            ps > 0,
    ;
    assert(((p - 1) * ps) % ps == 0) by (nonlinear_arith)
        requires
            ps > 0,
    ;
    assert(((v.total_pages() - 1) * ps) % ps == 0) by (nonlinear_arith)
        requires
            ps > 0,
    ;
    if let Some(c) = v.cursor {
        lemma_page_start_le_cursor(c as int, ps);
        if p > 0 {
            lemma_prev_page_start(p, ps);
        }
    }
    lemma_last_page_start(v.len(), ps);
}

/// Moving to the next page and back, or to the previous page and back,
/// returns to the first row of the current page (page 0 without a
/// selection), unless the list is empty and has no selection.
pub proof fn lemma_page_moves_undo(v: CandidateListView)
    requires
        v.wf(),
        v.len() > 0 || v.cursor is Some,
    ensures
        v.moved_next_page().moved_prev_page().cursor == Some(v.page_start() as usize),
        v.moved_prev_page().moved_next_page().cursor == Some(v.page_start() as usize),
{
    if v.len() > 0 {
        let ps = v.page_size as int;
        let c = match v.cursor {
            Some(c) => c as int,
            None => 0,
        };
        let n = v.len();
        let p = c / ps;
        let t = v.total_pages();
        lemma_page_start_le_cursor(c, ps);
        lemma_last_page_start(n, ps);
        assert(t == (n + ps - 1) / ps);
        // the page after p starts at (p + 1) * ps and is page p + 1
        assert((p * ps + ps) / ps == p + 1) by (nonlinear_arith)
            requires
                ps > 0,
        ;
        // a page start k * ps is on page k
        assert(((p - 1) * ps) / ps == p - 1) by (nonlinear_arith)
            requires
                ps > 0,
        ;
        assert(((t - 1) * ps) / ps == t - 1) by (nonlinear_arith)
            requires
                ps > 0,
        ;
        // the cursor is on the last page exactly when the next page start is past the end
        assert(p * ps + ps >= n ==> t == p + 1) by (nonlinear_arith)
            requires
                ps > 0,
                0 <= p * ps <= c,
                c - p * ps < ps,
                c < n,
                t == (n + ps - 1) / ps,
        ;
        assert(p == t - 1 ==> (t - 1) * ps + ps >= n) by (nonlinear_arith)
            requires
                ps > 0,
                n > 0,
                t == (n + ps - 1) / ps,
        ;
        assert(p < t) by (nonlinear_arith)
            requires
                ps > 0,
                0 <= p * ps <= c,
                c < n,
                t == (n + ps - 1) / ps,
        ;
        if p > 0 {
            lemma_prev_page_start(p, ps);
        }
    }
}

impl CandidateList {
    #[verifier::type_invariant]
    closed spec fn inv(self) -> bool {
        self@.wf()
    }

    /// Default page size for candidate display
    pub const DEFAULT_PAGE_SIZE: usize = DEFAULT_PAGE_SIZE;

    /// Create a new candidate list with the first row selected.
    pub fn new(candidates: Vec<Candidate>) -> (l: CandidateList)
        ensures
            l@.wf(),
            l@.items == candidates@,
            l@.cursor == Some(0usize),
            l@.page_size == DEFAULT_PAGE_SIZE,
    {
        let count: usize = candidates.len();
        assert(candidates@.len() == count);
        CandidateList { candidates, cursor: Some(0), page_size: DEFAULT_PAGE_SIZE }
    }

    /// Create a candidate list with no selected row.
    pub fn new_unselected(candidates: Vec<Candidate>) -> (l: CandidateList)
        ensures
            l@.wf(),
            l@.items == candidates@,
            l@.cursor is None,
            l@.page_size == DEFAULT_PAGE_SIZE,
    {
        let count: usize = candidates.len();
        assert(candidates@.len() == count);
        CandidateList { candidates, cursor: None, page_size: DEFAULT_PAGE_SIZE }
    }

    /// Create a candidate list from strings, the first row selected.
    pub fn from_strings(strings: Vec<String>) -> (l: CandidateList)
        ensures
            l@.wf(),
            l@.items.len() == strings@.len(),
            forall|i: int|
                0 <= i < strings@.len() ==> {
                    &&& (#[trigger] l@.items[i]).text@ == strings@[i]@
                    &&& l@.items[i].reading is None
                    &&& l@.items[i].source_label is None
                    &&& l@.items[i].description is None
                },
            l@.cursor == Some(0usize),
    {
        let mut candidates: Vec<Candidate> = Vec::new();
        for s in it: strings
            invariant
                candidates@.len() == it.index(),
                it.seq() == strings@,
                forall|i: int|
                    0 <= i < candidates@.len() ==> {
                        &&& (#[trigger] candidates@[i]).text@ == strings@[i]@
                        &&& candidates@[i].reading is None
                        &&& candidates@[i].source_label is None
                        &&& candidates@[i].description is None
                    },
        {
            candidates.push(Candidate { text: s, reading: None, source_label: None, description: None });
        }
        Self::new(candidates)
    }

    /// Create a candidate list from strings, attaching the same reading to
    /// every candidate.
    pub fn from_strings_with_reading(strings: Vec<String>, reading: &str) -> (l: CandidateList)
        ensures
            l@.wf(),
            l@.items.len() == strings@.len(),
            forall|i: int|
                0 <= i < strings@.len() ==> {
                    &&& (#[trigger] l@.items[i]).text@ == strings@[i]@
                    &&& l@.items[i].reading matches Some(r) && r@ == reading@
                    &&& l@.items[i].source_label is None
                    &&& l@.items[i].description is None
                },
            l@.cursor == Some(0usize),
    {
        let mut candidates: Vec<Candidate> = Vec::new();
        for s in it: strings
            invariant
                candidates@.len() == it.index(),
                it.seq() == strings@,
                forall|i: int|
                    0 <= i < candidates@.len() ==> {
                        &&& (#[trigger] candidates@[i]).text@ == strings@[i]@
                        &&& candidates@[i].reading matches Some(r) && r@ == reading@
                        &&& candidates@[i].source_label is None
                        &&& candidates@[i].description is None
                    },
        {
            candidates.push(
                Candidate {
                    text: s,
                    reading: Some(String::from_str(reading)),
                    source_label: None,
                    description: None,
                },
            );
        }
        Self::new(candidates)
    }

    /// Get all candidates
    pub fn candidates(&self) -> (r: &[Candidate])
        ensures
            r@ == self@.items,
    {
        self.candidates.as_slice()
    }

    /// Get the number of candidates
    pub fn len(&self) -> (r: usize)
        ensures
            r == self@.len(),
    {
        self.candidates.len()
    }

    /// Check if empty
    pub fn is_empty(&self) -> (r: bool)
        ensures
            r == (self@.len() == 0),
    {
        self.candidates.len() == 0
    }

    /// Get the current cursor position
    pub fn cursor(&self) -> (r: Option<usize>)
        ensures
            r == self@.cursor,
    {
        self.cursor
    }

    /// Get the page size
    pub fn page_size(&self) -> (r: usize)
        ensures
            r == self@.page_size,
            r == DEFAULT_PAGE_SIZE,
    {
        proof {
            use_type_invariant(self);
        }
        self.page_size
    }

    /// Get the current page number (0-indexed)
    pub fn current_page(&self) -> (r: usize)
        ensures
            r == self@.current_page(),
    {
        proof {
            use_type_invariant(self);
        }
        match self.cursor {
            Some(cursor) => cursor / self.page_size,
            None => 0,
        }
    }

    /// Get the total number of pages
    pub fn total_pages(&self) -> (r: usize)
        ensures
            r == self@.total_pages(),
    {
        proof {
            use_type_invariant(self);
        }
        let len = self.candidates.len();
        if self.page_size == 0 || len == 0 {
            0
        } else {
            let q = len / self.page_size;
            let r = if len % self.page_size == 0 { q } else { q + 1 };
            proof {
                let ps = self.page_size as int;
                let n = len as int;
                assert(r == (n + ps - 1) / ps) by (nonlinear_arith)
                    requires
                        ps > 0,
                        n >= 0,
                        q == n / ps,
                        r == if n % ps == 0 { q as int } else { q + 1 },
                ;
            }
            r
        }
    }

    /// Get the start index of the current page
    pub fn page_start(&self) -> (r: usize)
        ensures
            r == self@.page_start(),
            r <= self@.len(),
            r as int <= match self@.cursor { Some(c) => c as int, None => 0 },
    {
        proof {
            use_type_invariant(self);
            if let Some(c) = self.cursor {
                lemma_page_start_le_cursor(c as int, self.page_size as int);
            }
        }
        let page = self.current_page();
        page * self.page_size
    }

    /// Get the candidates for the current page
    pub fn page_candidates(&self) -> (r: &[Candidate])
        ensures
            r@ == self@.items.subrange(self@.page_start(), self@.page_end()),
    {
        proof {
            use_type_invariant(self);
        }
        let start = self.page_start();
        let len = self.candidates.len();
        let end = if len - start < self.page_size { len } else { start + self.page_size };
        let all = self.candidates.as_slice();
        &all[start..end]
    }

    /// Get the cursor position within the current page (0-indexed)
    pub fn page_cursor(&self) -> (r: Option<usize>)
        ensures
            r == match self@.cursor {
                Some(c) => Some((c - self@.page_start()) as usize),
                None => None::<usize>,
            },
    {
        match self.cursor {
            Some(cursor) => {
                let start = self.page_start();
                Some(cursor - start)
            },
            None => None,
        }
    }

    /// Get the currently selected candidate
    pub fn selected(&self) -> (r: Option<&Candidate>)
        ensures
            r == match self@.selected() { Some(c) => Some(&c), None => None::<&Candidate> },
    {
        match self.cursor {
            Some(cursor) => if cursor < self.candidates.len() {
                Some(&self.candidates[cursor])
            } else {
                None
            },
            None => None,
        }
    }

    /// Get the currently selected text
    pub fn selected_text(&self) -> (r: Option<&str>)
        ensures
            match self@.selected() {
                Some(c) => r matches Some(t) && t@ == c.text@,
                None => r is None,
            },
    {
        match self.selected() {
            Some(c) => Some(c.text.as_str()),
            None => None,
        }
    }

    /// Move to the next candidate, wrapping from the last to the first.
    /// Returns whether there was a candidate to move to.
    pub fn move_next(&mut self) -> (moved: bool)
        ensures
            final(self)@ == old(self)@.moved_next(),
            final(self)@.wf(),
            moved == (old(self)@.len() > 0),
    {
        proof {
            use_type_invariant(&*self);
        }
        let len = self.candidates.len();
        match self.cursor {
            None => {
                if len == 0 {
                    return false;
                }
                self.cursor = Some(0);
                true
            },
            Some(cursor) => {
                if cursor < len && cursor + 1 < len {
                    self.cursor = Some(cursor + 1);
                    true
                } else if len != 0 {
                    self.cursor = Some(0);
                    true
                } else {
                    false
                }
            },
        }
    }

    /// Move to the previous candidate, wrapping from the first to the last.
    /// Returns whether there was a candidate to move to.
    pub fn move_prev(&mut self) -> (moved: bool)
        ensures
            final(self)@ == old(self)@.moved_prev(),
            final(self)@.wf(),
            moved == (old(self)@.len() > 0),
    {
        proof {
            use_type_invariant(&*self);
        }
        let len = self.candidates.len();
        match self.cursor {
            None => {
                if len == 0 {
                    return false;
                }
                self.cursor = Some(len - 1);
                true
            },
            Some(cursor) => {
                if cursor > 0 {
                    self.cursor = Some(cursor - 1);
                    true
                } else if len != 0 {
                    self.cursor = Some(len - 1);
                    true
                } else {
                    false
                }
            },
        }
    }

    /// Move to the first row of the next page, wrapping to the first page.
    pub fn next_page(&mut self) -> (moved: bool)
        ensures
            final(self)@ == old(self)@.moved_next_page(),
            final(self)@.wf(),
            moved == (old(self)@.len() > 0),
    {
        proof {
            use_type_invariant(&*self);
        }
        let len = self.candidates.len();
        if len == 0 {
            return false;
        }
        let start = self.page_start();
        if self.page_size < len - start {
            self.cursor = Some(start + self.page_size);
            true
        } else {
            self.cursor = Some(0);
            true
        }
    }

    /// Move to the first row of the previous page, wrapping to the last page.
    pub fn prev_page(&mut self) -> (moved: bool)
        ensures
            final(self)@ == old(self)@.moved_prev_page(),
            final(self)@.wf(),
            moved == (old(self)@.len() > 0),
    {
        proof {
            use_type_invariant(&*self);
        }
        if self.candidates.len() == 0 {
            return false;
        }
        let current_page = self.current_page();
        if current_page > 0 {
            proof {
                let c = self.cursor.unwrap() as int;
                let ps = self.page_size as int;
                lemma_page_start_le_cursor(c, ps);
                lemma_prev_page_start(current_page as int, ps);
            }
            self.cursor = Some((current_page - 1) * self.page_size);
            true
        } else {
            let total = self.total_pages();
            proof {
                lemma_last_page_start(self.candidates.len() as int, self.page_size as int);
            }
            let last_page = total - 1;
            self.cursor = Some(last_page * self.page_size);
            true
        }
    }

    /// Select the 1-based row `page_index` of the current page.
    pub fn select_on_page(&mut self, page_index: usize) -> (r: Option<&Candidate>)
        ensures
            match old(self)@.page_row(page_index as int) {
                Some(i) => {
                    &&& final(self)@ == old(self)@.with_cursor(Some(i as usize))
                    &&& r == Some(&old(self)@.items[i])
                },
                None => final(self)@ == old(self)@ && r is None,
            },
            final(self)@.wf(),
    {
        proof {
            use_type_invariant(&*self);
        }
        if page_index == 0 || page_index > self.page_size {
            return None;
        }
        let start = self.page_start();
        let len = self.candidates.len();
        if page_index - 1 < len - start {
            let absolute_index = start + page_index - 1;
            self.cursor = Some(absolute_index);
            Some(&self.candidates[absolute_index])
        } else {
            None
        }
    }

    /// Select a candidate by absolute index
    pub fn select(&mut self, index: usize) -> (r: Option<&Candidate>)
        ensures
            if index < old(self)@.len() {
                &&& final(self)@ == old(self)@.with_cursor(Some(index))
                &&& r == Some(&old(self)@.items[index as int])
            } else {
                final(self)@ == old(self)@ && r is None
            },
            final(self)@.wf(),
    {
        proof {
            use_type_invariant(&*self);
        }
        if index < self.candidates.len() {
            self.cursor = Some(index);
            Some(&self.candidates[index])
        } else {
            None
        }
    }

    /// Reset cursor to beginning
    pub fn reset(&mut self)
        ensures
            final(self)@ == old(self)@.with_cursor(Some(0usize)),
            final(self)@.wf(),
    {
        proof {
            use_type_invariant(&*self);
        }
        self.cursor = Some(0);
    }

    /// Clear selection while keeping the candidates visible.
    pub fn clear_selection(&mut self)
        ensures
            final(self)@ == old(self)@.with_cursor(None),
            final(self)@.wf(),
    {
        proof {
            use_type_invariant(&*self);
        }
        self.cursor = None;
    }

    /// Replace the candidates and select the first row.
    pub fn update(&mut self, candidates: Vec<Candidate>)
        ensures
            final(self)@.items == candidates@,
            final(self)@.cursor == Some(0usize),
            final(self)@.page_size == old(self)@.page_size,
            final(self)@.wf(),
    {
        proof {
            use_type_invariant(&*self);
        }
        let count: usize = candidates.len();
        assert(candidates@.len() == count);
        self.cursor = Some(0);
        self.candidates = candidates;
    }
}

impl Clone for CandidateList {
    fn clone(&self) -> (l: CandidateList)
        ensures
            l@ == self@,
    {
        proof {
            use_type_invariant(self);
        }
        let candidates = self.candidates.clone();
        assert(candidates@ =~= self.candidates@);
        CandidateList { candidates, cursor: self.cursor, page_size: self.page_size }
    }
}

impl Default for CandidateList {
    fn default() -> (l: CandidateList)
        ensures
            l@.wf(),
            l@.items.len() == 0,
            l@.cursor == Some(0usize),
    {
        CandidateList::new(Vec::new())
    }
}

} // verus!
