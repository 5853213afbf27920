//! The input method engine's conversion resources (conversion models,
//! dictionaries, learning cache), how they are initialized, and the learned
//! candidates it offers.
use vstd::prelude::*;
use vstd::string::StringExecFns;

use crate::candidate::Candidate;
use crate::learning::{find_entry, lookup_spec, LearningAdjustment, LearningCache, LearningCacheView};
use crate::text::{chars_of, push_decimal, push_str, signed_decimal, str_eq, string_of};

verus! {

/// A kana-kanji conversion model loaded into a slot: the model variant and
/// the number of inference threads it was created with (0: the backend's
/// default).
pub struct ConverterInfo {
    pub variant_id: String,
    pub n_threads: u32,
}

/// The conversion model slots: the main model and the light model used for
/// beam search.
pub struct Converters {
    pub kanji: Option<ConverterInfo>,
    pub light_kanji: Option<ConverterInfo>,
}

/// A loaded dictionary: the files it was read from, in priority order.
pub struct DictionaryInfo {
    pub paths: Vec<String>,
}

/// The dictionary slots, and when the user dictionary directory was last
/// scanned (nanoseconds since the Unix epoch) with the newest modification
/// time found there.
pub struct Dictionaries {
    pub system: Option<DictionaryInfo>,
    pub user: Option<DictionaryInfo>,
    pub user_dict_last_checked: Option<i128>,
    pub user_dict_max_mtime: Option<i128>,
}

/// What the engine answers to a key or command.
pub struct EngineResult {
    pub consumed: bool,
}

/// The input method engine's conversion resources.
pub struct InputMethodEngine {
    pub converters: Converters,
    pub dicts: Dictionaries,
    pub learning: Option<LearningCache>,
}

/// Minimum time between two scans of the user dictionary directory, in
/// nanoseconds (30 seconds).
pub const USER_DICT_CHECK_INTERVAL: i128 = 30_000_000_000;

/// Source label of learned candidates.
pub open spec fn learning_label() -> Seq<char> {
    "📝 学習"@
}

/// Learned candidates of `reading`: the texts learned for it, highest score first.
pub open spec fn learned_texts(cache: Option<LearningCacheView>, reading: Seq<char>) -> Seq<Seq<char>> {
    match cache {
        Some(c) => lookup_spec(c.entries, reading).map_values(|p: (Seq<char>, int)| p.0),
        None => seq![],
    }
}

/// Candidate texts offered for `reading` by the learning cache and the
/// fallback: the learned texts (unless `skip_learning`), then the reading
/// itself when it is not among them, at most `limit` of them.
pub open spec fn conversion_texts(cache: Option<LearningCacheView>, reading: Seq<char>, limit: int, skip_learning: bool) -> Seq<
    Seq<char>,
> {
    let learned = if skip_learning { seq![] } else { learned_texts(cache, reading) };
    let all = if learned.contains(reading) { learned } else { learned.push(reading) };
    if all.len() > limit { all.take(limit) } else { all }
}

/// A candidate of `reading` labelled as learned.
pub open spec fn is_learned_candidate(c: Candidate, reading: Seq<char>) -> bool {
    &&& c.reading matches Some(x) && x@ == reading
    &&& c.source_label matches Some(l) && l@ == learning_label()
}

pub open spec fn candidate_texts(v: Seq<Candidate>) -> Seq<Seq<char>> {
    v.map_values(|c: Candidate| c.text@)
}

/// Conversion that skips learning (Tab) offers the reading alone.
pub proof fn lemma_skipped_learning_offers_reading(
    cache: Option<LearningCacheView>,
    reading: Seq<char>,
    limit: int,
)
    requires
        limit >= 1,
    ensures
        conversion_texts(cache, reading, limit, true) == seq![reading],
{
    let all = seq![].push(reading);
    assert(all =~= seq![reading]);
}

/// Conversion that keeps learning (Space) offers every learned text that
/// ranks within the limit, and always the reading itself when the limit
/// leaves room after the learned texts.
pub proof fn lemma_kept_learning_offers_learned(
    cache: Option<LearningCacheView>,
    reading: Seq<char>,
    limit: int,
    j: int,
)
    requires
        0 <= j < limit,
        j < learned_texts(cache, reading).len(),
    ensures
        conversion_texts(cache, reading, limit, false).contains(learned_texts(cache, reading)[j]),
        learned_texts(cache, reading).len() < limit ==> conversion_texts(cache, reading, limit, false).contains(reading),
{
    let learned = learned_texts(cache, reading);
    let all = if learned.contains(reading) { learned } else { learned.push(reading) };
    let r = conversion_texts(cache, reading, limit, false);
    assert(r[j] == learned[j]);
    if learned.len() < limit {
        if learned.contains(reading) {
            let k = choose|k: int| 0 <= k < learned.len() && learned[k] == reading;
            assert(r[k] == reading);
        } else {
            assert(r[learned.len() as int] == reading);
        }
    }
}

/// Text of the thread count for diagnostics: the number, or `default` for 0.
pub open spec fn threads_text(n_threads: int) -> Seq<char> {
    if n_threads > 0 { signed_decimal(n_threads) } else { "default"@ }
}

/// Format the thread count for diagnostics; see [`threads_text`].
pub fn threads_label(n_threads: u32) -> (r: String)
    ensures
        r@ == threads_text(n_threads as int),
{
    if n_threads > 0 {
        let mut v: Vec<char> = Vec::new();
        push_decimal(&mut v, n_threads as i64);
        string_of(&v)
    } else {
        String::from_str("default")
    }
}

/// Whether a scan of the user dictionary directory is due at `now`: when
/// forced, never scanned, the clock went back, or the interval has passed.
pub open spec fn user_dict_scan_due(last_checked: Option<i128>, now: i128, force: bool) -> bool {
    force || match last_checked {
        None => true,
        Some(checked) => now < checked || now - checked >= USER_DICT_CHECK_INTERVAL,
    }
}

/// Newest of the known modification times.
pub open spec fn latest_mtime(mtimes: Seq<Option<i128>>) -> Option<i128>
    decreases mtimes.len(),
{
    if mtimes.len() == 0 {
        None
    } else {
        let rest = latest_mtime(mtimes.drop_last());
        match mtimes.last() {
            Some(m) => match rest {
                Some(r) => Some(if m > r { m } else { r }),
                None => Some(m),
            },
            None => rest,
        }
    }
}

/// Character order of two texts (as byte order of their UTF-8 encodings).
pub open spec fn text_le(a: Seq<char>, b: Seq<char>) -> bool
    decreases a.len(),
{
    if a.len() == 0 {
        true
    } else if b.len() == 0 {
        false
    } else if a[0] != b[0] {
        a[0] < b[0]
    } else {
        text_le(a.drop_first(), b.drop_first())
    }
}

pub open spec fn is_sorted_texts(s: Seq<Seq<char>>) -> bool {
    forall|i: int, j: int| 0 <= i < j < s.len() ==> text_le(#[trigger] s[i], #[trigger] s[j])
}

/// A file found in the user dictionary directory, with its modification time.
pub struct DirEntryInfo {
    pub path: String,
    pub mtime: Option<i128>,
}

/// What a scan of the user dictionary directory found.
pub struct DirListing {
    pub dir_exists: bool,
    pub files: Vec<DirEntryInfo>,
}

impl InputMethodEngine {
    /// An engine with no models, dictionaries or learning cache.
    pub fn new() -> (e: InputMethodEngine)
        ensures
            e.converters.kanji is None,
            e.converters.light_kanji is None,
            e.dicts.system is None,
            e.dicts.user is None,
            e.dicts.user_dict_last_checked is None,
            e.dicts.user_dict_max_mtime is None,
            e.learning is None,
    {
        InputMethodEngine {
            converters: Converters { kanji: None, light_kanji: None },
            dicts: Dictionaries { system: None, user: None, user_dict_last_checked: None, user_dict_max_mtime: None },
            learning: None,
        }
    }

    pub open spec fn learning_view(&self) -> Option<LearningCacheView> {
        match self.learning {
            Some(c) => Some(c@),
            None => None,
        }
    }

    /// Learns that `surface` was chosen for `reading` (when learning is on).
    pub fn record_learning(&mut self, reading: &str, surface: &str)
        ensures
            final(self).converters == old(self).converters,
            final(self).dicts == old(self).dicts,
            match old(self).learning_view() {
                Some(c) => final(self).learning_view() == Some(c.recorded(reading@, surface@)),
                None => final(self).learning is None,
            },
    {
        match &mut self.learning {
            Some(cache) => cache.record(reading, surface),
            None => {},
        }
    }

    /// Learned candidates of `reading`, highest score first, each carrying
    /// the reading and the learning source label.
    pub fn lookup_learning_candidates(&self, reading: &str) -> (r: Vec<Candidate>)
        ensures
            candidate_texts(r@) == learned_texts(self.learning_view(), reading@),
            forall|i: int| 0 <= i < r@.len() ==> is_learned_candidate(#[trigger] r@[i], reading@),
    {
        let mut out: Vec<Candidate> = Vec::new();
        match &self.learning {
            Some(cache) => {
                let learned = cache.lookup(reading);
                let ghost spec_learned = lookup_spec(cache@.entries, reading@);
                let mut i: usize = 0;
                while i < learned.len()
                    invariant
                        i <= learned@.len(),
                        learned@.map_values(|p: (String, u64)| (p.0@, p.1 as int)) == spec_learned,
                        out@.len() == i,
                        forall|k: int|
                            0 <= k < i ==> (#[trigger] out@[k]).text@ == spec_learned[k].0 && is_learned_candidate(
                                out@[k],
                                reading@,
                            ),
                    decreases learned.len() - i,
                {
                    assert(learned@[i as int].0@ == spec_learned[i as int].0);
                    let mut c = Candidate::with_reading(learned[i].0.as_str(), reading);
                    c.source_label = Some(String::from_str("📝 学習"));
                    out.push(c);
                    i = i + 1;
                }
                assert(candidate_texts(out@) =~= spec_learned.map_values(|p: (Seq<char>, int)| p.0));
            },
            None => {
                assert(candidate_texts(out@) =~= seq![]);
            },
        }
        out
    }

    /// Candidates for converting `reading`; see [`conversion_texts`]. Tab
    /// conversion skips the learned candidates, Space conversion keeps them.
    pub fn build_conversion_candidates(&self, reading: &str, num_candidates: usize, skip_learning: bool) -> (r: Vec<
        Candidate,
    >)
        ensures
            candidate_texts(r@) == conversion_texts(self.learning_view(), reading@, num_candidates as int, skip_learning),
    {
        let mut out: Vec<Candidate> = if skip_learning {
            Vec::new()
        } else {
            self.lookup_learning_candidates(reading)
        };
        let ghost learned = if skip_learning { seq![] } else { learned_texts(self.learning_view(), reading@) };
        assert(candidate_texts(out@) =~= learned);
        let mut present = false;
        let mut i: usize = 0;
        while i < out.len()
            invariant
                i <= out@.len(),
                candidate_texts(out@) == learned,
                present == candidate_texts(out@).take(i as int).contains(reading@),
            decreases out.len() - i,
        {
            let ghost before = candidate_texts(out@).take(i as int);
            if str_eq(out[i].text.as_str(), reading) {
                present = true;
            }
            i = i + 1;
            proof {
                let now = candidate_texts(out@).take(i as int);
                assert(now =~= before.push(out@[i - 1].text@));
                if present {
                    if before.contains(reading@) {
                        let k = choose|k: int| 0 <= k < before.len() && before[k] == reading@;
                        assert(now[k] == reading@);
                    } else {
                        assert(now[i - 1] == reading@);
                    }
                } else {
                    if now.contains(reading@) {
                        let k = choose|k: int| 0 <= k < now.len() && now[k] == reading@;
                        if k < i - 1 {
                            assert(before[k] == reading@);
                        }
                    }
                }
            }
        }
        assert(candidate_texts(out@).take(i as int) =~= candidate_texts(out@));
        if !present {
            out.push(Candidate::new(reading));
            assert(candidate_texts(out@) =~= learned.push(reading@));
        }
        if out.len() > num_candidates {
            out.truncate(num_candidates);
            assert(candidate_texts(out@) =~= (if learned.contains(reading@) { learned } else { learned.push(reading@) }).take(
                num_candidates as int,
            ));
        }
        out
    }

    /// Applies an adjustment to the learned conversion `surface` of
    /// `reading`; consumed when it was learned.
    pub fn adjust_learning_candidate(&mut self, reading: &str, surface: &str, adjustment: LearningAdjustment) -> (r:
        EngineResult)
        ensures
            final(self).converters == old(self).converters,
            final(self).dicts == old(self).dicts,
            match old(self).learning_view() {
                Some(c) => {
                    &&& final(self).learning_view() == Some(c.adjusted(reading@, surface@, adjustment))
                    &&& r.consumed == (find_entry(c.entries, reading@, surface@) is Some)
                },
                None => final(self).learning is None && !r.consumed,
            },
    {
        match &mut self.learning {
            Some(cache) => {
                let found = cache.adjust(reading, surface, adjustment);
                EngineResult { consumed: found }
            },
            None => EngineResult { consumed: false },
        }
    }
}

/// `file` inside the directory `dir`, as `Path::join` gives it.
pub open spec fn join_path(dir: Seq<char>, file: Seq<char>) -> Seq<char> {
    if dir.len() == 0 {
        file
    } else if dir.last() == '/' {
        dir + file
    } else {
        dir + "/"@ + file
    }
}

/// Where the system dictionary is read from: the configured path, or
/// `dict.bin` in the data directory.
pub open spec fn system_dictionary_path(dict_path: Option<Seq<char>>, data_dir: Option<Seq<char>>) -> Option<Seq<char>> {
    match dict_path {
        Some(p) => Some(p),
        None => match data_dir {
            Some(d) => Some(join_path(d, "dict.bin"@)),
            None => None,
        },
    }
}

pub open spec fn str_option(o: Option<&str>) -> Option<Seq<char>> {
    match o {
        Some(s) => Some(s@),
        None => None,
    }
}

/// Which model settings failed during initialization.
pub enum InitError<E> {
    /// The light model setting names no known model.
    InvalidLightModel(E),
    /// The light model could not be loaded into the main slot.
    LightModelFailed(E),
    /// The model setting names no known model.
    InvalidModel(E),
    /// The main model could not be loaded.
    MainModelFailed(E),
    /// The default model of the adaptive strategy could not be loaded.
    DefaultModelFailed(E),
}

/// What an initialization error says failed.
pub open spec fn init_error_context<E>(e: InitError<E>) -> Seq<char> {
    match e {
        InitError::InvalidLightModel(_) => "invalid light_model settings"@,
        InitError::LightModelFailed(_) => "failed to initialize light model"@,
        InitError::InvalidModel(_) => "invalid model settings"@,
        InitError::MainModelFailed(_) => "failed to initialize main model"@,
        InitError::DefaultModelFailed(_) => "failed to initialize default model"@,
    }
}

impl<E> InitError<E> {
    /// What failed, in words.
    pub fn context(&self) -> (r: &'static str)
        ensures
            r@ == init_error_context(*self),
    {
        match self {
            InitError::InvalidLightModel(_) => "invalid light_model settings",
            InitError::LightModelFailed(_) => "failed to initialize light model",
            InitError::InvalidModel(_) => "invalid model settings",
            InitError::MainModelFailed(_) => "failed to initialize main model",
            InitError::DefaultModelFailed(_) => "failed to initialize default model",
        }
    }
}

/// Which conversion models the engine loads.
#[derive(Debug, Clone, Copy, PartialEq, Eq)]
pub enum StrategyMode {
    /// The light model alone, in the main slot.
    Light,
    /// The main model alone.
    Main,
    /// The main model, and the light model for beam search when it loads.
    Adaptive,
}

fn text_le_exec(a: &String, b: &String) -> (r: bool)
    ensures
        r == text_le(a@, b@),
{
    let x = chars_of(a.as_str());
    let y = chars_of(b.as_str());
    let mut i: usize = 0;
    assert(x@.skip(0) =~= x@);
    assert(y@.skip(0) =~= y@);
    while i < x.len() && i < y.len() && x[i] == y[i]
        invariant
            i <= x@.len(),
            i <= y@.len(),
            text_le(x@, y@) == text_le(x@.skip(i as int), y@.skip(i as int)),
        decreases x.len() - i,
    {
        assert(x@.skip(i as int).drop_first() =~= x@.skip(i + 1));
        assert(y@.skip(i as int).drop_first() =~= y@.skip(i + 1));
        i = i + 1;
    }
    if i == x.len() {
        true
    } else if i == y.len() {
        false
    } else {
        x[i] < y[i]
    }
}

pub proof fn lemma_text_le_total(a: Seq<char>, b: Seq<char>)
    ensures
        text_le(a, b) || text_le(b, a),
    decreases a.len(),
{
    if a.len() > 0 && b.len() > 0 && a[0] == b[0] {
        lemma_text_le_total(a.drop_first(), b.drop_first());
    }
}

pub proof fn lemma_text_le_transitive(a: Seq<char>, b: Seq<char>, c: Seq<char>)
    requires
        text_le(a, b),
        text_le(b, c),
    ensures
        text_le(a, c),
    decreases a.len(),
{
    if a.len() > 0 && b.len() > 0 && c.len() > 0 && a[0] == b[0] && b[0] == c[0] {
        lemma_text_le_transitive(a.drop_first(), b.drop_first(), c.drop_first());
    }
}

/// `paths` in character order.
pub fn sort_paths(paths: Vec<String>) -> (r: Vec<String>)
    ensures
        is_sorted_texts(crate::text::views(r@)),
        crate::text::views(r@).to_multiset() == crate::text::views(paths@).to_multiset(),
{
    let mut out: Vec<String> = Vec::new();
    let ghost all = crate::text::views(paths@);
    let mut i: usize = 0;
    proof {
        broadcast use vstd::seq_lib::group_to_multiset_ensures;

        assert(all.take(0) =~= Seq::<Seq<char>>::empty());
        assert(crate::text::views(out@) =~= Seq::<Seq<char>>::empty());
    }
    while i < paths.len()
        invariant
            i <= paths@.len(),
            all == crate::text::views(paths@),
            is_sorted_texts(crate::text::views(out@)),
            crate::text::views(out@).to_multiset() == all.take(i as int).to_multiset(),
        decreases paths.len() - i,
    {
        let x = paths[i].clone();
        let ghost before = crate::text::views(out@);
        let mut k: usize = 0;
        while k < out.len() && text_le_exec(&out[k], &x)
            invariant
                k <= out@.len(),
                crate::text::views(out@) == before,
                forall|m: int| 0 <= m < k ==> text_le(#[trigger] before[m], x@),
            decreases out.len() - k,
        {
            k = k + 1;
        }
        proof {
            if k < out@.len() {
                assert(!text_le(before[k as int], x@));
                lemma_text_le_total(before[k as int], x@);
            }
        }
        out.insert(k, x);
        proof {
            let now = crate::text::views(out@);
            assert(now =~= before.insert(k as int, x@));
            assert forall|a: int, b: int| 0 <= a < b < now.len() implies text_le(#[trigger] now[a], #[trigger] now[b]) by {
                if a < k && b == k {
                } else if a == k && b > k {
                    // x is below before[k], which is below the later ones
                    if b - 1 > k {
                        lemma_text_le_transitive(x@, before[k as int], before[b - 1]);
                    }
                } else if a < k && b > k {
                } else {
                }
            }
            assert(x@ == all[i as int]);
            assert(all.take(i + 1) =~= all.take(i as int).insert(i as int, x@));
            vstd::seq_lib::to_multiset_insert(all.take(i as int), i as int, x@);
            vstd::seq_lib::to_multiset_insert(before, k as int, x@);
        }
        i = i + 1;
    }
    assert(all.take(i as int) =~= all);
    out
}

impl InputMethodEngine {
    /// Loads the main conversion model for `variant_id` (with `n_threads`
    /// inference threads, 0 for the default) unless one is loaded; `create`
    /// does the loading.
    pub fn init_kanji_converter_with_model<F, E>(&mut self, variant_id: &str, n_threads: u32, create: F) -> (r: Result<(), E>) where
        F: FnOnce(&str, u32) -> Result<(), E>,

        requires
            create.requires((variant_id, n_threads)),
        ensures
            final(self).converters.light_kanji == old(self).converters.light_kanji,
            final(self).dicts == old(self).dicts,
            final(self).learning == old(self).learning,
            old(self).converters.kanji is Some ==> r is Ok && final(self).converters.kanji == old(self).converters.kanji,
            old(self).converters.kanji is None ==> {
                &&& create.ensures((variant_id, n_threads), r)
                &&& match r {
                    Ok(_) => final(self).converters.kanji matches Some(c) && c.variant_id@ == variant_id@ && c.n_threads
                        == n_threads,
                    Err(_) => final(self).converters.kanji is None,
                }
            },
            kanji_loaded(old(self).converters, final(self).converters, variant_id@, n_threads, create, r),
    {
        if self.converters.kanji.is_none() {
            let result = create(variant_id, n_threads);
            if result.is_ok() {
                self.converters.kanji = Some(ConverterInfo { variant_id: String::from_str(variant_id), n_threads });
            }
            result
        } else {
            Ok(())
        }
    }

    /// Loads the default conversion model (with the default thread count)
    /// unless a model is loaded: the same as
    /// [`InputMethodEngine::init_kanji_converter_with_model`] with
    /// `default_variant_id` and 0 threads.
    pub fn init_kanji_converter<F, E>(&mut self, default_variant_id: &str, create: F) -> (r: Result<(), E>) where
        F: FnOnce(&str, u32) -> Result<(), E>,

        requires
            create.requires((default_variant_id, 0u32)),
        ensures
            final(self).converters.light_kanji == old(self).converters.light_kanji,
            final(self).dicts == old(self).dicts,
            final(self).learning == old(self).learning,
            old(self).converters.kanji is Some ==> r is Ok && final(self).converters.kanji == old(self).converters.kanji,
            old(self).converters.kanji is None ==> {
                &&& create.ensures((default_variant_id, 0u32), r)
                &&& match r {
                    Ok(_) => final(self).converters.kanji matches Some(c) && c.variant_id@ == default_variant_id@
                        && c.n_threads == 0,
                    Err(_) => final(self).converters.kanji is None,
                }
            },
            kanji_loaded(old(self).converters, final(self).converters, default_variant_id@, 0u32, create, r),
    {
        self.init_kanji_converter_with_model(default_variant_id, 0, create)
    }

    /// Loads the light conversion model used for beam search unless one is
    /// loaded; `create` does the loading.
    pub fn init_light_kanji_converter<F, E>(&mut self, variant_id: &str, n_threads: u32, create: F) -> (r: Result<(), E>) where
        F: FnOnce(&str, u32) -> Result<(), E>,

        requires
            create.requires((variant_id, n_threads)),
        ensures
            final(self).converters.kanji == old(self).converters.kanji,
            final(self).dicts == old(self).dicts,
            final(self).learning == old(self).learning,
            old(self).converters.light_kanji is Some ==> r is Ok && final(self).converters.light_kanji
                == old(self).converters.light_kanji,
            old(self).converters.light_kanji is None ==> {
                &&& create.ensures((variant_id, n_threads), r)
                &&& match r {
                    Ok(_) => final(self).converters.light_kanji matches Some(c) && c.variant_id@ == variant_id@
                        && c.n_threads == n_threads,
                    Err(_) => final(self).converters.light_kanji is None,
                }
            },
    {
        if self.converters.light_kanji.is_none() {
            let result = create(variant_id, n_threads);
            if result.is_ok() {
                self.converters.light_kanji = Some(
                    ConverterInfo { variant_id: String::from_str(variant_id), n_threads },
                );
            }
            result
        } else {
            Ok(())
        }
    }

    /// Loads the system dictionary unless one is loaded, from the configured
    /// path or `dict.bin` in the data directory; without either, or when
    /// `load` finds no usable dictionary there, the engine goes on without
    /// one.
    pub fn init_system_dictionary<F>(&mut self, dict_path: Option<&str>, data_dir: Option<&str>, load: F) where
        F: FnOnce(&str) -> Option<DictionaryInfo>,

        requires
            forall|p: &str| load.requires((p,)),
        ensures
            final(self).converters == old(self).converters,
            final(self).learning == old(self).learning,
            final(self).dicts.user == old(self).dicts.user,
            final(self).dicts.user_dict_last_checked == old(self).dicts.user_dict_last_checked,
            final(self).dicts.user_dict_max_mtime == old(self).dicts.user_dict_max_mtime,
            ({
                let path = system_dictionary_path(str_option(dict_path), str_option(data_dir));
                if old(self).dicts.system is Some || path is None {
                    final(self).dicts.system == old(self).dicts.system
                } else {
                    exists|p: &str, d: Option<DictionaryInfo>|
                        p@ == path.unwrap() && load.ensures((p,), d) && final(self).dicts.system == d
                }
            }),
    {
        if self.dicts.system.is_some() {
            return;
        }
        let path: String = match dict_path {
            Some(p) => String::from_str(p),
            None => match data_dir {
                Some(dir) => {
                    let mut v = chars_of(dir);
                    let n = v.len();
                    if n > 0 && v[n - 1] != '/' {
                        v.push('/');
                    }
                    push_str(&mut v, "dict.bin");
                    proof {
                        if n > 0 && dir@.last() != '/' {
                            assert(v@ =~= dir@ + "/"@ + "dict.bin"@) by {
                                reveal_strlit("/");
                            }
                        }
                    }
                    string_of(&v)
                },
                None => return ,
            },
        };
        let loaded = load(path.as_str());
        self.dicts.system = loaded;
    }

    /// Sets up the learning cache when learning is enabled and no cache is
    /// set: the cache in `learning_file` if `load` can read it, an empty one
    /// holding at most `max_entries` conversions otherwise.
    pub fn init_learning_cache<F>(&mut self, enabled: bool, max_entries: usize, learning_file: Option<&str>, load: F) where
        F: FnOnce(&str, usize) -> Option<LearningCache>,

        requires
            forall|p: &str| load.requires((p, max_entries)),
        ensures
            final(self).converters == old(self).converters,
            final(self).dicts == old(self).dicts,
            !enabled || old(self).learning is Some ==> final(self).learning == old(self).learning,
            enabled && old(self).learning is None ==> match learning_file {
                None => final(self).learning_view() matches Some(c) && c.entries.len() == 0 && c.max_entries
                    == max_entries,
                Some(path) => exists|loaded: Option<LearningCache>|
                    load.ensures((path, max_entries), loaded) && match loaded {
                        Some(c) => final(self).learning == Some(c),
                        None => final(self).learning_view() matches Some(c) && c.entries.len() == 0 && c.max_entries
                            == max_entries,
                    },
            },
    {
        if !enabled || self.learning.is_some() {
            return;
        }
        match learning_file {
            None => {
                self.learning = Some(LearningCache::new(max_entries));
            },
            Some(path) => {
                let loaded = load(path, max_entries);
                match loaded {
                    Some(cache) => {
                        self.learning = Some(cache);
                    },
                    None => {
                        self.learning = Some(LearningCache::new(max_entries));
                    },
                }
            },
        }
    }
}

/// Modification times of the files of a listing.
pub open spec fn listing_mtimes(files: Seq<DirEntryInfo>) -> Seq<Option<i128>> {
    files.map_values(|f: DirEntryInfo| f.mtime)
}

/// Paths of the files of a listing.
pub open spec fn listing_paths(files: Seq<DirEntryInfo>) -> Seq<Seq<char>> {
    files.map_values(|f: DirEntryInfo| f.path@)
}

fn newest_mtime(files: &Vec<DirEntryInfo>) -> (r: Option<i128>)
    ensures
        r == latest_mtime(listing_mtimes(files@)),
{
    let mut newest: Option<i128> = None;
    let mut i: usize = 0;
    assert(listing_mtimes(files@).take(0) =~= Seq::<Option<i128>>::empty());
    while i < files.len()
        invariant
            i <= files@.len(),
            newest == latest_mtime(listing_mtimes(files@).take(i as int)),
        decreases files.len() - i,
    {
        let ghost prefix = listing_mtimes(files@).take(i + 1);
        assert(prefix.drop_last() =~= listing_mtimes(files@).take(i as int));
        assert(prefix.last() == files@[i as int].mtime);
        match files[i].mtime {
            Some(m) => {
                newest = match newest {
                    Some(r) => Some(if m > r { m } else { r }),
                    None => Some(m),
                };
            },
            None => {},
        }
        i = i + 1;
    }
    assert(listing_mtimes(files@).take(i as int) =~= listing_mtimes(files@));
    newest
}

fn paths_of(files: &Vec<DirEntryInfo>) -> (r: Vec<String>)
    ensures
        crate::text::views(r@) == listing_paths(files@),
{
    let mut out: Vec<String> = Vec::new();
    let mut i: usize = 0;
    while i < files.len()
        invariant
            i <= files@.len(),
            out@.len() == i,
            forall|k: int| 0 <= k < i ==> (#[trigger] out@[k])@ == files@[k].path@,
        decreases files.len() - i,
    {
        out.push(files[i].path.clone());
        i = i + 1;
    }
    assert(crate::text::views(out@) =~= listing_paths(files@));
    out
}

/// The user dictionary directory: the given one, else the default one.
pub open spec fn user_dict_dir(dir: Option<Seq<char>>, default_dir: Option<Seq<char>>) -> Option<Seq<char>> {
    match dir {
        Some(d) => Some(d),
        None => default_dir,
    }
}

/// The dictionary slots after a refresh of the user dictionaries from the
/// directory `dir` at `now` (see
/// [`InputMethodEngine::refresh_user_dictionaries`]), `read_dir` and `load`
/// being what lists the directory and loads the files.
pub open spec fn user_dicts_refreshed<F, G>(
    before: Dictionaries,
    after: Dictionaries,
    dir: Option<Seq<char>>,
    force: bool,
    now: i128,
    read_dir: F,
    load: G,
) -> bool where F: FnOnce(&str) -> Option<DirListing>, G: FnOnce(&Vec<String>) -> Option<DictionaryInfo> {
    if dir is None || !user_dict_scan_due(before.user_dict_last_checked, now, force) {
        after == before
    } else {
        &&& after.system == before.system
        &&& after.user_dict_last_checked == Some(now)
        &&& exists|p: &str, listing: Option<DirListing>|
            #![trigger read_dir.ensures((p,), listing)]
            p@ == dir.unwrap() && read_dir.ensures((p,), listing) && match listing {
                None => after.user == before.user && after.user_dict_max_mtime == before.user_dict_max_mtime,
                Some(l) => {
                    let latest = latest_mtime(listing_mtimes(l.files@));
                    if !l.dir_exists || l.files@.len() == 0 {
                        after.user is None && after.user_dict_max_mtime is None
                    } else if !force && before.user is Some && before.user_dict_max_mtime == latest {
                        after.user == before.user && after.user_dict_max_mtime == before.user_dict_max_mtime
                    } else {
                        exists|sorted: &Vec<String>, merged: Option<DictionaryInfo>|
                            #![trigger load.ensures((sorted,), merged)]
                            is_sorted_texts(crate::text::views(sorted@)) && crate::text::views(sorted@).to_multiset()
                                == listing_paths(l.files@).to_multiset() && load.ensures((sorted,), merged)
                                && after.user == merged && after.user_dict_max_mtime == latest
                    }
                },
            }
    }
}

impl InputMethodEngine {
    /// Rescans the user dictionary directory (`dir`, else `default_dir`)
    /// when forced or when the last scan is older than the check interval,
    /// and reloads the user dictionaries when its files changed: with no
    /// directory or no files there are none; otherwise the files are loaded
    /// by `load` in character order of their paths, unless (when not forced)
    /// dictionaries are loaded and the newest modification time is the same
    /// as at the last load. `read_dir` lists the directory's files (`None`
    /// when it cannot be read).
    pub fn refresh_user_dictionaries<F, G>(
        &mut self,
        dir: Option<&str>,
        default_dir: Option<&str>,
        force: bool,
        now: i128,
        read_dir: F,
        load: G,
    ) where F: FnOnce(&str) -> Option<DirListing>, G: FnOnce(&Vec<String>) -> Option<DictionaryInfo>,

        requires
            forall|p: &str| read_dir.requires((p,)),
            forall|paths: &Vec<String>| load.requires((paths,)),
        ensures
            final(self).converters == old(self).converters,
            final(self).learning == old(self).learning,
            final(self).dicts.system == old(self).dicts.system,
            user_dicts_refreshed(
                old(self).dicts,
                final(self).dicts,
                user_dict_dir(str_option(dir), str_option(default_dir)),
                force,
                now,
                read_dir,
                load,
            ),
    {
        let d: &str = match dir {
            Some(d) => d,
            None => match default_dir {
                Some(d) => d,
                None => return ,
            },
        };
        if !force {
            let due = match self.dicts.user_dict_last_checked {
                None => true,
                Some(checked) => now < checked || match now.checked_sub(checked) {
                    Some(elapsed) => elapsed >= USER_DICT_CHECK_INTERVAL,
                    None => true,
                },
            };
            if !due {
                return;
            }
        }
        self.dicts.user_dict_last_checked = Some(now);
        let listing = read_dir(d);
        let l = match listing {
            Some(l) => l,
            None => return ,
        };
        let latest = newest_mtime(&l.files);
        if !l.dir_exists || l.files.len() == 0 {
            self.dicts.user = None;
            self.dicts.user_dict_max_mtime = None;
            return;
        }
        if !force && self.dicts.user.is_some() && self.dicts.user_dict_max_mtime == latest {
            return;
        }
        let sorted = sort_paths(paths_of(&l.files));
        let merged = load(&sorted);
        self.dicts.user = merged;
        self.dicts.user_dict_max_mtime = latest;
    }

    /// Loads the user dictionaries from `default_dir` when a scan is due;
    /// see [`InputMethodEngine::refresh_user_dictionaries`].
    pub fn init_user_dictionaries<F, G>(&mut self, default_dir: Option<&str>, now: i128, read_dir: F, load: G) where
        F: FnOnce(&str) -> Option<DirListing>,
        G: FnOnce(&Vec<String>) -> Option<DictionaryInfo>,

        requires
            forall|p: &str| read_dir.requires((p,)),
            forall|paths: &Vec<String>| load.requires((paths,)),
        ensures
            final(self).converters == old(self).converters,
            final(self).learning == old(self).learning,
            final(self).dicts.system == old(self).dicts.system,
            user_dicts_refreshed(old(self).dicts, final(self).dicts, str_option(default_dir), false, now, read_dir, load),
    {
        self.refresh_user_dictionaries(None, default_dir, false, now, read_dir, load)
    }

    /// Loads the conversion models of `strategy`: the light model alone
    /// into the main slot (`Light`), the main model alone (`Main`), or the
    /// main model and, when it can be loaded, the light model for beam
    /// search (`Adaptive`; the default model stands in for an unknown light
    /// model, and a light model that fails to load is left out). `model` and
    /// `light_model` are the model settings resolved to variant ids.
    pub fn init_conversion_models<F, E>(
        &mut self,
        strategy: StrategyMode,
        model: Result<String, E>,
        light_model: Result<String, E>,
        default_model: &str,
        n_threads: u32,
        create: F,
    ) -> (r: Result<(), InitError<E>>) where F: Fn(&str, u32) -> Result<(), E>,

        requires
            forall|v: &str, n: u32| create.requires((v, n)),
        ensures
            final(self).dicts == old(self).dicts,
            final(self).learning == old(self).learning,
            models_loaded(
                strategy,
                model,
                light_model,
                default_model@,
                n_threads,
                create,
                old(self).converters,
                final(self).converters,
                r,
            ),
    {
        let ghost before = self.converters;
        let (variant, light_setting): (String, Option<Result<String, E>>) = match strategy {
            StrategyMode::Light => match light_model {
                Ok(v) => (v, None),
                Err(e) => return Err(InitError::InvalidLightModel(e)),
            },
            _ => match model {
                Ok(v) => (v, Some(light_model)),
                Err(e) => return Err(InitError::InvalidModel(e)),
            },
        };
        let main = variant.as_str();
        let loaded = self.init_kanji_converter_with_model(main, n_threads, |v: &str, n: u32| -> (res: Result<(), E>)
                    requires
                        create.requires((v, n)),
                    ensures
                        create.ensures((v, n), res),
                    { create(v, n) });
        proof {
            assert(kanji_loaded(before, self.converters, variant@, n_threads, create, loaded));
        }
        match strategy {
            StrategyMode::Light => match loaded {
                Ok(()) => Ok(()),
                Err(e) => Err(InitError::LightModelFailed(e)),
            },
            StrategyMode::Main => match loaded {
                Ok(()) => Ok(()),
                Err(e) => Err(InitError::MainModelFailed(e)),
            },
            StrategyMode::Adaptive => {
                match loaded {
                    Ok(()) => {},
                    Err(e) => return Err(InitError::DefaultModelFailed(e)),
                }
                let light: String = match light_setting {
                    Some(Ok(l)) => l,
                    _ => String::from_str(default_model),
                };
                let ghost middle = self.converters;
                let light_str = light.as_str();
                let light_loaded = self.init_light_kanji_converter(light_str, n_threads, |v: &str, n: u32| -> (res: Result<(), E>)
                    requires
                        create.requires((v, n)),
                    ensures
                        create.ensures((v, n), res),
                    { create(v, n) });
                proof {
                    assert(light@ == light_variant(light_model, default_model@));
                    assert(slot_loaded(
                        middle.light_kanji,
                        self.converters.light_kanji,
                        light@,
                        n_threads,
                        create,
                        light_loaded,
                    ));
                }
                Ok(())
            },
        }
    }
}

/// Conversion settings: strategy, model names (`None`: the default), system
/// dictionary path, and inference threads (0: the backend's default).
pub struct ConversionSettings {
    pub strategy: StrategyMode,
    pub model: Option<String>,
    pub light_model: Option<String>,
    pub dict_path: Option<String>,
    pub n_threads: u32,
}

/// Learning settings.
pub struct LearningSettings {
    pub enabled: bool,
    pub max_entries: usize,
}

/// User settings read by engine initialization.
pub struct Settings {
    pub conversion: ConversionSettings,
    pub learning: LearningSettings,
}

/// Where the engine's data lives on this machine: the data directory, the
/// user dictionary directory and the learning cache file (`None` where it
/// cannot be determined).
pub struct DataPaths {
    pub data_dir: Option<String>,
    pub user_dict_dir: Option<String>,
    pub learning_file: Option<String>,
}

pub open spec fn string_option(o: Option<String>) -> Option<Seq<char>> {
    match o {
        Some(s) => Some(s@),
        None => None,
    }
}

fn as_str_option(o: &Option<String>) -> (r: Option<&str>)
    ensures
        str_option(r) == string_option(*o),
{
    match o {
        Some(s) => Some(s.as_str()),
        None => None,
    }
}

impl InputMethodEngine {
    /// Full initialization from the user settings: the system dictionary,
    /// the user dictionaries (scanned at `now`), the learning cache, then the
    /// conversion models of the configured strategy. `resolve` turns a model
    /// setting into a variant id; in the adaptive strategy a light model that
    /// fails is left out.
    pub fn init_from_settings<E, R, C, S, D, U, L>(
        &mut self,
        settings: &Settings,
        paths: &DataPaths,
        default_model: &str,
        now: i128,
        resolve: R,
        create: C,
        load_system: S,
        read_dir: D,
        load_user: U,
        load_learning: L,
    ) -> (r: Result<(), InitError<E>>) where
        R: Fn(&Option<String>) -> Result<String, E>,
        C: Fn(&str, u32) -> Result<(), E>,
        S: FnOnce(&str) -> Option<DictionaryInfo>,
        D: FnOnce(&str) -> Option<DirListing>,
        U: FnOnce(&Vec<String>) -> Option<DictionaryInfo>,
        L: FnOnce(&str, usize) -> Option<LearningCache>,

        requires
            forall|m: &Option<String>| resolve.requires((m,)),
            forall|v: &str, n: u32| create.requires((v, n)),
            forall|p: &str| load_system.requires((p,)),
            forall|p: &str| read_dir.requires((p,)),
            forall|ps: &Vec<String>| load_user.requires((ps,)),
            forall|p: &str| load_learning.requires((p, settings.learning.max_entries)),
        ensures
            ({
                let path = system_dictionary_path(
                    string_option(settings.conversion.dict_path),
                    string_option(paths.data_dir),
                );
                if old(self).dicts.system is Some || path is None {
                    final(self).dicts.system == old(self).dicts.system
                } else {
                    exists|p: &str, d: Option<DictionaryInfo>|
                        p@ == path.unwrap() && load_system.ensures((p,), d) && final(self).dicts.system == d
                }
            }),
            exists|before: Dictionaries|
                #![trigger user_dicts_refreshed(before, final(self).dicts, string_option(paths.user_dict_dir), false, now, read_dir, load_user)]
                before.user == old(self).dicts.user && before.user_dict_last_checked == old(
                    self).dicts.user_dict_last_checked && before.user_dict_max_mtime == old(self).dicts.user_dict_max_mtime
                    && user_dicts_refreshed(
                    before,
                    final(self).dicts,
                    string_option(paths.user_dict_dir),
                    false,
                    now,
                    read_dir,
                    load_user,
                ),
            !settings.learning.enabled || old(self).learning is Some ==> final(self).learning == old(self).learning,
            settings.learning.enabled && old(self).learning is None ==> match paths.learning_file {
                None => final(self).learning_view() matches Some(c) && c.entries.len() == 0 && c.max_entries
                    == settings.learning.max_entries,
                Some(path) => exists|p: &str, loaded: Option<LearningCache>|
                    p@ == path@ && load_learning.ensures((p, settings.learning.max_entries), loaded) && match loaded {
                        Some(c) => final(self).learning == Some(c),
                        None => final(self).learning_view() matches Some(c) && c.entries.len() == 0
                            && c.max_entries == settings.learning.max_entries,
                    },
            },
            exists|model: Result<String, E>, light_model: Result<String, E>|
                #![trigger resolve.ensures((&settings.conversion.model,), model), resolve.ensures((&settings.conversion.light_model,), light_model)]
                resolve.ensures((&settings.conversion.model,), model) && resolve.ensures(
                    (&settings.conversion.light_model,),
                    light_model,
                ) && models_loaded(
                    settings.conversion.strategy,
                    model,
                    light_model,
                    default_model@,
                    settings.conversion.n_threads,
                    create,
                    old(self).converters,
                    final(self).converters,
                    r,
                ),
    {
        self.init_system_dictionary(
            as_str_option(&settings.conversion.dict_path),
            as_str_option(&paths.data_dir),
            load_system,
        );
        self.init_user_dictionaries(as_str_option(&paths.user_dict_dir), now, read_dir, load_user);
        self.init_learning_cache(
            settings.learning.enabled,
            settings.learning.max_entries,
            as_str_option(&paths.learning_file),
            load_learning,
        );
        let model = resolve(&settings.conversion.model);
        let light_model = resolve(&settings.conversion.light_model);
        self.init_conversion_models(
            settings.conversion.strategy,
            model,
            light_model,
            default_model,
            settings.conversion.n_threads,
            create,
        )
    }
}

/// The model slots after loading the models of `strategy` (see
/// [`InputMethodEngine::init_conversion_models`]), with `r` its outcome:
/// for an unresolved setting the matching error and no change; otherwise
/// the main slot loaded by `create` with the resolved variant, `r` being
/// `Ok` exactly when that load succeeded and otherwise carrying its error;
/// in the adaptive strategy, after a successful main load, the light slot
/// loaded by `create` with [`light_variant`], whatever that load answered.
pub open spec fn models_loaded<C, E>(
    strategy: StrategyMode,
    model: Result<String, E>,
    light_model: Result<String, E>,
    default_model: Seq<char>,
    n_threads: u32,
    create: C,
    before: Converters,
    after: Converters,
    r: Result<(), InitError<E>>,
) -> bool where C: Fn(&str, u32) -> Result<(), E> {
    match strategy {
        StrategyMode::Light => match light_model {
            Err(e) => r == Err::<(), InitError<E>>(InitError::InvalidLightModel(e)) && after == before,
            Ok(v) => exists|cr: Result<(), E>|
                #[trigger] kanji_loaded(before, after, v@, n_threads, create, cr) && r == match cr {
                    Ok(_) => Ok::<(), InitError<E>>(()),
                    Err(e) => Err(InitError::LightModelFailed(e)),
                },
        },
        StrategyMode::Main => match model {
            Err(e) => r == Err::<(), InitError<E>>(InitError::InvalidModel(e)) && after == before,
            Ok(v) => exists|cr: Result<(), E>|
                #[trigger] kanji_loaded(before, after, v@, n_threads, create, cr) && r == match cr {
                    Ok(_) => Ok::<(), InitError<E>>(()),
                    Err(e) => Err(InitError::MainModelFailed(e)),
                },
        },
        StrategyMode::Adaptive => match model {
            Err(e) => r == Err::<(), InitError<E>>(InitError::InvalidModel(e)) && after == before,
            Ok(v) => exists|cr: Result<(), E>|
                #[trigger] slot_loaded(before.kanji, after.kanji, v@, n_threads, create, cr) && match cr {
                    Ok(_) => r == Ok::<(), InitError<E>>(()) && exists|lr: Result<(), E>|
                        #[trigger] slot_loaded(
                            before.light_kanji,
                            after.light_kanji,
                            light_variant(light_model, default_model),
                            n_threads,
                            create,
                            lr,
                        ),
                    Err(e) => r == Err::<(), InitError<E>>(InitError::DefaultModelFailed(e))
                        && after.light_kanji == before.light_kanji,
                },
        },
    }
}

/// A model slot after loading `variant` with `n_threads` threads, `outcome`
/// being what loading answered: a loaded model stays and loading succeeds;
/// for an empty slot `create` was called with `variant` and `n_threads`,
/// answered `outcome`, and the slot holds the model exactly when that
/// succeeded.
pub open spec fn slot_loaded<C, E>(
    before: Option<ConverterInfo>,
    after: Option<ConverterInfo>,
    variant: Seq<char>,
    n_threads: u32,
    create: C,
    outcome: Result<(), E>,
) -> bool where C: FnOnce(&str, u32) -> Result<(), E> {
    if before is Some {
        outcome is Ok && after == before
    } else {
        &&& exists|p: &str| p@ == variant && #[trigger] create.ensures((p, n_threads), outcome)
        &&& match outcome {
            Ok(_) => after matches Some(c) && c.variant_id@ == variant && c.n_threads == n_threads,
            Err(_) => after is None,
        }
    }
}

/// The model slots after loading the main model `variant`: the light slot is
/// untouched and the main slot is [`slot_loaded`] with the answer `r`.
pub open spec fn kanji_loaded<C, E>(
    before: Converters,
    after: Converters,
    variant: Seq<char>,
    n_threads: u32,
    create: C,
    r: Result<(), E>,
) -> bool where C: FnOnce(&str, u32) -> Result<(), E> {
    after.light_kanji == before.light_kanji && slot_loaded(before.kanji, after.kanji, variant, n_threads, create, r)
}

/// The light model variant of the adaptive strategy: the resolved setting,
/// else the default model.
pub open spec fn light_variant<E>(light_model: Result<String, E>, default_model: Seq<char>) -> Seq<char> {
    match light_model {
        Ok(l) => l@,
        Err(_) => default_model,
    }
}

} // verus!
