//! The processing core shared by all concurrency strategies: per-page
//! processing with its rejection outcomes, the statistics accumulator, the
//! reorder buffer that restores sequence order for the channel pipeline,
//! and the sequential driver with its output limit.

use vstd::prelude::*;

use crate::config::{has_special_prefix_spec, ExtractConfig};
use crate::entry::{entries_view, parse_page_spec, Entry, EntryV};
use crate::scan::{has_redirect, ns_spec, text_spec, title_spec, RawPage};
use crate::script::{classify_case_spec, is_englishlike_spec, CaseForm};
use crate::sections::find_eng;
use crate::text::{chars_of, contains_from, contains_lit};

verus! {

/// Processing strategy for a run.
#[derive(Debug, Clone, Copy, PartialEq, Eq)]
pub enum Strategy {
    /// Single thread, strict order, supports an exact output limit.
    Sequential,
    /// Fixed-size batches fanned out over a thread pool, written per batch.
    BatchParallel,
    /// Producer, worker pool and consumer connected by bounded queues.
    ChannelPipeline,
    /// Read everything first, then process in parallel.
    TwoPhase,
}

/// Configuration for the parallel strategies.
pub struct ParallelConfig {
    /// Number of threads to use.
    pub num_threads: usize,
    /// Batch size for batch-parallel processing.
    pub batch_size: usize,
    /// Queue capacity for pipeline processing.
    pub channel_buffer: usize,
    /// Number of worker threads for the pipeline.
    pub num_workers: usize,
}

impl ParallelConfig {
    /// Baseline configuration; the caller may widen it to the machine's
    /// parallelism.
    pub fn new() -> (r: Self)
        ensures
            r.num_threads == 4,
            r.batch_size == 1000,
            r.channel_buffer == 10000,
            r.num_workers == 3,
    {
        ParallelConfig { num_threads: 4, batch_size: 1000, channel_buffer: 10000, num_workers: 3 }
    }
}

impl Default for ParallelConfig {
    fn default() -> (r: Self)
        ensures
            r.num_threads == 4,
            r.batch_size == 1000,
            r.channel_buffer == 10000,
            r.num_workers == 3,
    {
        ParallelConfig::new()
    }
}

/// Aggregate run statistics: pages seen, pages and senses written, one
/// counter per rejection reason, and the case distribution of kept words.
pub struct Stats {
    pub pages_processed: usize,
    pub words_written: usize,
    pub senses_written: usize,
    pub special: usize,
    pub redirects: usize,
    pub dict_only: usize,
    pub non_english: usize,
    pub non_latin: usize,
    pub skipped: usize,
    pub case_lower: usize,
    pub case_title: usize,
    pub case_upper: usize,
    pub case_mixed: usize,
}

impl Stats {
    pub fn new() -> (r: Self)
        ensures
            r == zero_stats(),
    {
        Stats {
            pages_processed: 0,
            words_written: 0,
            senses_written: 0,
            special: 0,
            redirects: 0,
            dict_only: 0,
            non_english: 0,
            non_latin: 0,
            skipped: 0,
            case_lower: 0,
            case_title: 0,
            case_upper: 0,
            case_mixed: 0,
        }
    }
}

impl Default for Stats {
    fn default() -> (r: Self)
        ensures
            r == zero_stats(),
    {
        Stats::new()
    }
}

pub open spec fn zero_stats() -> Stats {
    Stats {
        pages_processed: 0,
        words_written: 0,
        senses_written: 0,
        special: 0,
        redirects: 0,
        dict_only: 0,
        non_english: 0,
        non_latin: 0,
        skipped: 0,
        case_lower: 0,
        case_title: 0,
        case_upper: 0,
        case_mixed: 0,
    }
}

/// Increment that stops at the counter's ceiling.
pub open spec fn sat1(c: usize) -> usize {
    if c < usize::MAX {
        (c + 1) as usize
    } else {
        c
    }
}

fn bump(c: usize) -> (r: usize)
    ensures
        r == sat1(c),
{
    if c < usize::MAX {
        c + 1
    } else {
        c
    }
}

/// Result of processing one raw page: the page's entries when it was kept,
/// or the flag saying why it was not.
pub struct ProcessedPage {
    pub entries: Vec<Entry>,
    pub title: String,
    pub page_id: usize,
    pub was_english: bool,
    pub was_redirect: bool,
    pub was_special: bool,
    pub was_non_latin: bool,
    pub was_dict_only: bool,
}

/// The processing outcome of a page that already passed the fragment
/// filters.
pub enum PageOutcomeV {
    Redirect,
    NonEnglish,
    DictOnly,
    NonLatin,
    Entries(Seq<EntryV>),
}

/// Processing order: redirect marker, target-language marker, the
/// dictionary-exclusion marker, the script predicate on the title, then
/// full extraction.
pub open spec fn page_outcome(cfg: ExtractConfig, title: Seq<char>, text: Seq<char>) -> PageOutcomeV {
    if has_redirect(text, 0) {
        PageOutcomeV::Redirect
    } else if find_eng(text, 0) is None {
        PageOutcomeV::NonEnglish
    } else if contains_from(true, text, "{{no entry|en"@, 0) {
        PageOutcomeV::DictOnly
    } else if !is_englishlike_spec(title) {
        PageOutcomeV::NonLatin
    } else {
        PageOutcomeV::Entries(parse_page_spec(cfg, title, text))
    }
}

/// Process a raw page into entries, recording the rejection reason when it
/// is dropped.
pub fn process_raw_page(cfg: &ExtractConfig, raw: RawPage) -> (r: ProcessedPage)
    ensures
        r.title@ == raw.title@,
        r.page_id == raw.page_id,
        !r.was_special,
        ({
            let o = page_outcome(*cfg, raw.title@, raw.text@);
            match o {
                PageOutcomeV::Redirect => r.was_redirect && !r.was_english && !r.was_dict_only
                    && !r.was_non_latin && r.entries@.len() == 0,
                PageOutcomeV::NonEnglish => !r.was_redirect && !r.was_english && !r.was_dict_only
                    && !r.was_non_latin && r.entries@.len() == 0,
                PageOutcomeV::DictOnly => !r.was_redirect && r.was_english && r.was_dict_only
                    && !r.was_non_latin && r.entries@.len() == 0,
                PageOutcomeV::NonLatin => !r.was_redirect && r.was_english && !r.was_dict_only
                    && r.was_non_latin && r.entries@.len() == 0,
                PageOutcomeV::Entries(es) => !r.was_redirect && r.was_english && !r.was_dict_only
                    && !r.was_non_latin && entries_view(r.entries@) == es,
            }
        }),
{
    let title = raw.title;
    let text = raw.text;
    let page_id = raw.page_id;
    if crate::scan::is_redirect(text.as_str()) {
        return ProcessedPage {
            entries: Vec::new(),
            title,
            page_id,
            was_english: false,
            was_redirect: true,
            was_special: false,
            was_non_latin: false,
            was_dict_only: false,
        };
    }
    if crate::sections::extract_english_section(text.as_str()).is_none() {
        proof {
            assert(crate::sections::english_section_spec(text@) is None ==> find_eng(
                text@,
                0,
            ) is None);
            assert(find_eng(text@, 0) is Some ==> crate::sections::english_section_spec(
                text@,
            ) is Some);
        }
        return ProcessedPage {
            entries: Vec::new(),
            title,
            page_id,
            was_english: false,
            was_redirect: false,
            was_special: false,
            was_non_latin: false,
            was_dict_only: false,
        };
    }
    let textc = chars_of(text.as_str());
    if contains_lit(true, textc.as_slice(), "{{no entry|en") {
        return ProcessedPage {
            entries: Vec::new(),
            title,
            page_id,
            was_english: true,
            was_redirect: false,
            was_special: false,
            was_non_latin: false,
            was_dict_only: true,
        };
    }
    if !crate::script::is_englishlike(title.as_str()) {
        return ProcessedPage {
            entries: Vec::new(),
            title,
            page_id,
            was_english: true,
            was_redirect: false,
            was_special: false,
            was_non_latin: true,
            was_dict_only: false,
        };
    }
    let entries = crate::entry::parse_page(cfg, title.as_str(), text.as_str());
    ProcessedPage {
        entries,
        title,
        page_id,
        was_english: true,
        was_redirect: false,
        was_special: false,
        was_non_latin: false,
        was_dict_only: false,
    }
}

/// The statistics after folding in one processed page's outcome.
pub open spec fn stats_after(st: Stats, p: ProcessedPage) -> Stats {
    if p.was_redirect {
        Stats { redirects: sat1(st.redirects), ..st }
    } else if p.was_special {
        Stats { special: sat1(st.special), ..st }
    } else if !p.was_english {
        Stats { non_english: sat1(st.non_english), ..st }
    } else if p.was_dict_only {
        Stats { dict_only: sat1(st.dict_only), ..st }
    } else if p.was_non_latin {
        Stats { non_latin: sat1(st.non_latin), ..st }
    } else if p.entries@.len() == 0 {
        Stats { skipped: sat1(st.skipped), ..st }
    } else {
        let st1 = Stats { words_written: sat1(st.words_written), ..st };
        match classify_case_spec(p.title@) {
            CaseForm::Lower => Stats { case_lower: sat1(st1.case_lower), ..st1 },
            CaseForm::Title => Stats { case_title: sat1(st1.case_title), ..st1 },
            CaseForm::Upper => Stats { case_upper: sat1(st1.case_upper), ..st1 },
            CaseForm::Mixed => Stats { case_mixed: sat1(st1.case_mixed), ..st1 },
        }
    }
}

/// Fold one processed page's outcome into the statistics.
pub fn update_stats_from_result(stats: &mut Stats, result: &ProcessedPage)
    ensures
        *final(stats) == stats_after(*old(stats), *result),
{
    if result.was_redirect {
        stats.redirects = bump(stats.redirects);
    } else if result.was_special {
        stats.special = bump(stats.special);
    } else if !result.was_english {
        stats.non_english = bump(stats.non_english);
    } else if result.was_dict_only {
        stats.dict_only = bump(stats.dict_only);
    } else if result.was_non_latin {
        stats.non_latin = bump(stats.non_latin);
    } else if result.entries.len() == 0 {
        stats.skipped = bump(stats.skipped);
    } else {
        stats.words_written = bump(stats.words_written);
        match crate::script::classify_case(result.title.as_str()) {
            CaseForm::Lower => {
                stats.case_lower = bump(stats.case_lower);
            },
            CaseForm::Title => {
                stats.case_title = bump(stats.case_title);
            },
            CaseForm::Upper => {
                stats.case_upper = bump(stats.case_upper);
            },
            CaseForm::Mixed => {
                stats.case_mixed = bump(stats.case_mixed);
            },
        }
    }
}

// ── reorder buffer ───────────────────────────────────────────────

/// Holds results that arrived ahead of their turn, keyed by sequence id,
/// and the next id owed to the output.  The consumer accepts results in any
/// order and receives back, at each step, exactly the run of results that
/// has become ready, in sequence order.
pub struct ReorderBuffer<T> {
    next: usize,
    pending: Vec<(usize, T)>,
}

impl<T> ReorderBuffer<T> {
    /// The next sequence id owed to the output.
    pub closed spec fn next_v(&self) -> int {
        self.next as int
    }

    /// The buffered results, in increasing id order.
    pub closed spec fn pend(&self) -> Seq<(usize, T)> {
        self.pending@
    }

    /// Buffered ids are distinct, increasing, above `next`, and below the
    /// id ceiling.
    pub open spec fn wf(&self) -> bool {
        &&& forall|k: int|
            0 <= k < self.pend().len() ==> (#[trigger] self.pend()[k]).0 > self.next_v()
        &&& forall|k: int|
            0 <= k && k + 1 < self.pend().len() ==> (#[trigger] self.pend()[k]).0 < self.pend()[
                k + 1].0
        &&& forall|k: int|
            0 <= k < self.pend().len() ==> (#[trigger] self.pend()[k]).0 < usize::MAX
    }

    pub fn new() -> (r: Self)
        ensures
            r.wf(),
            r.next_v() == 0,
            r.pend() == Seq::<(usize, T)>::empty(),
    {
        let r = ReorderBuffer { next: 0, pending: Vec::new() };
        proof {
            assert(r.pend() =~= Seq::<(usize, T)>::empty());
        }
        r
    }

    /// Accept the result with sequence id `id`.  A result that arrives
    /// ahead of its turn is buffered and nothing comes out; the result
    /// whose turn it is comes out followed by the buffered run it unblocks,
    /// in strictly increasing id order.
    pub fn accept(&mut self, id: usize, item: T) -> (out: Vec<(usize, T)>)
        requires
            old(self).wf(),
            id >= old(self).next_v(),
            id < usize::MAX,
            forall|k: int| 0 <= k < old(self).pend().len() ==> (#[trigger] old(self).pend()[k]).0
                != id,
        ensures
            final(self).wf(),
            final(self).next_v() == old(self).next_v() + out@.len(),
            forall|k: int|
                0 <= k < out@.len() ==> (#[trigger] out@[k]).0 as int == old(self).next_v() + k,
            id > old(self).next_v() ==> out@.len() == 0 && (exists|p: int|
                0 <= p <= old(self).pend().len() && final(self).pend() == old(
                    self,
                ).pend().insert(p, (id, item))),
            id == old(self).next_v() ==> out@.len() >= 1 && out@[0] == (id, item) && (exists|
                m: int,
            |
                0 <= m <= old(self).pend().len() && out@ == seq![(id, item)] + old(
                    self,
                ).pend().take(m) && final(self).pend() == old(self).pend().skip(m)),
    {
        if id > self.next {
            self.stash(id, item);
            Vec::new()
        } else {
            self.drain_run(id, item)
        }
    }

    #[verifier::rlimit(60)]
    fn stash(&mut self, id: usize, item: T) -> (r: ())
        requires
            old(self).wf(),
            id > old(self).next_v(),
            id < usize::MAX,
            forall|k: int| 0 <= k < old(self).pend().len() ==> (#[trigger] old(self).pend()[k]).0
                != id,
        ensures
            final(self).wf(),
            final(self).next_v() == old(self).next_v(),
            exists|p: int|
                0 <= p <= old(self).pend().len() && final(self).pend() == old(
                    self,
                ).pend().insert(p, (id, item)),
    {
        let ghost dv = self.pend();
        let mut p: usize = 0;
        while p < self.pending.len() && self.pending[p].0 < id
            invariant
                0 <= p <= self.pending@.len(),
                dv == self.pending@,
                forall|j: int| 0 <= j < p ==> (#[trigger] dv[j]).0 < id,
            decreases self.pending@.len() - p,
        {
            p = p + 1;
        }
        proof {
            if p < dv.len() {
                assert(dv[p as int].0 != id);
                assert(dv[p as int].0 > id);
            }
        }
        self.pending.insert(p, (id, item));
        proof {
            lemma_insert_wf(dv, p as int, id, item, self.next_v());
            assert(self.pend() == dv.insert(p as int, (id, item)));
            assert(0 <= p <= dv.len() && self.pend() == dv.insert(p as int, (id, item)));
        }
    }

    #[verifier::rlimit(100)]
    #[verifier::spinoff_prover]
    fn drain_run(&mut self, id: usize, item: T) -> (out: Vec<(usize, T)>)
        requires
            old(self).wf(),
            id == old(self).next_v(),
            id < usize::MAX,
            forall|k: int| 0 <= k < old(self).pend().len() ==> (#[trigger] old(self).pend()[k]).0
                != id,
        ensures
            final(self).wf(),
            final(self).next_v() == old(self).next_v() + out@.len(),
            forall|k: int|
                0 <= k < out@.len() ==> (#[trigger] out@[k]).0 as int == old(self).next_v() + k,
            out@.len() >= 1 && out@[0] == (id, item),
            exists|m: int|
                0 <= m <= old(self).pend().len() && out@ == seq![(id, item)] + old(
                    self,
                ).pend().take(m) && final(self).pend() == old(self).pend().skip(m),
    {
        let ghost dv = self.pend();
        let ghost n0 = self.next_v();
        // measure the run of consecutive ids that is now ready
        let mut m: usize = 0;
        while m < self.pending.len() && self.pending[m].0 - id == m + 1
            invariant
                0 <= m <= dv.len(),
                dv == self.pending@,
                id as int == n0,
                id < usize::MAX,
                forall|k: int| 0 <= k < dv.len() ==> (#[trigger] dv[k]).0 > n0,
                forall|k: int| 0 <= k && k + 1 < dv.len() ==> (#[trigger] dv[k]).0 < dv[k + 1].0,
                forall|k: int| 0 <= k < dv.len() ==> (#[trigger] dv[k]).0 < usize::MAX,
                forall|k: int| 0 <= k < m ==> (#[trigger] dv[k]).0 == n0 + 1 + k,
            decreases dv.len() - m,
        {
            m = m + 1;
        }
        let mut tail = self.pending.split_off(m);
        core::mem::swap(&mut self.pending, &mut tail);
        proof {
            assert(self.pending@ =~= dv.skip(m as int));
            assert(tail@ =~= dv.take(m as int));
        }
        let mut out: Vec<(usize, T)> = Vec::new();
        out.push((id, item));
        out.append(&mut tail);
        proof {
            assert(out@ =~= seq![(id, item)] + dv.take(m as int));
            if m > 0 {
                assert(dv[m - 1].0 == n0 + m);
            }
        }
        self.next = id + 1 + m;
        proof {
            assert(self.next_v() == n0 + out@.len());
            assert forall|k: int|
                0 <= k < out@.len() implies (#[trigger] out@[k]).0 as int == n0 + k by {
                if k >= 1 {
                    assert(out@[k] == dv.take(m as int)[k - 1]);
                    assert(dv.take(m as int)[k - 1] == dv[k - 1]);
                }
            }
            lemma_drain_post(dv, m as int, n0);
            assert(self.pend() == dv.skip(m as int));
            assert(0 <= m <= dv.len() && out@ == seq![(id, item)] + dv.take(m as int)
                && self.pend() == dv.skip(m as int));
        }
        out
    }
}

/// The element-by-element content of an insertion.
proof fn lemma_insert_elems<T>(dv: Seq<(usize, T)>, p: int, x: (usize, T))
    requires
        0 <= p <= dv.len(),
    ensures
        dv.insert(p, x).len() == dv.len() + 1,
        forall|k: int| 0 <= k < p ==> #[trigger] dv.insert(p, x)[k] == dv[k],
        dv.insert(p, x)[p] == x,
        forall|k: int| p < k < dv.len() + 1 ==> #[trigger] dv.insert(p, x)[k] == dv[k - 1],
{
    let nv = dv.insert(p, x);
    assert(nv == dv.subrange(0, p).push(x) + dv.subrange(p, dv.len() as int));
    assert(nv.len() == dv.len() + 1);
    assert forall|k: int| 0 <= k < p implies #[trigger] nv[k] == dv[k] by {
        assert(nv[k] == dv.subrange(0, p).push(x)[k]);
        assert(dv.subrange(0, p).push(x)[k] == dv.subrange(0, p)[k]);
        assert(dv.subrange(0, p)[k] == dv[k]);
    }
    assert(nv[p] == dv.subrange(0, p).push(x)[p]);
    assert forall|k: int| p < k < dv.len() + 1 implies #[trigger] nv[k] == dv[k - 1] by {
        assert(nv[k] == dv.subrange(p, dv.len() as int)[k - p - 1]);
        assert(dv.subrange(p, dv.len() as int)[k - p - 1] == dv[k - 1]);
    }
}

/// Inserting an unseen id at its sorted position keeps the buffer well
/// formed.
proof fn lemma_insert_wf<T>(dv: Seq<(usize, T)>, p: int, id: usize, item: T, nxt: int)
    requires
        0 <= p <= dv.len(),
        id > nxt,
        id < usize::MAX,
        forall|k: int| 0 <= k < dv.len() ==> (#[trigger] dv[k]).0 > nxt,
        forall|k: int| 0 <= k && k + 1 < dv.len() ==> (#[trigger] dv[k]).0 < dv[k + 1].0,
        forall|k: int| 0 <= k < dv.len() ==> (#[trigger] dv[k]).0 < usize::MAX,
        forall|j: int| 0 <= j < p ==> (#[trigger] dv[j]).0 < id,
        p < dv.len() ==> dv[p].0 > id,
    ensures
        ({
            let nv = dv.insert(p, (id, item));
            &&& forall|k: int| 0 <= k < nv.len() ==> (#[trigger] nv[k]).0 > nxt
            &&& forall|k: int| 0 <= k && k + 1 < nv.len() ==> (#[trigger] nv[k]).0 < nv[k + 1].0
            &&& forall|k: int| 0 <= k < nv.len() ==> (#[trigger] nv[k]).0 < usize::MAX
        }),
{
    lemma_insert_elems(dv, p, (id, item));
    let nv = dv.insert(p, (id, item));
    assert forall|k: int| 0 <= k < nv.len() implies (#[trigger] nv[k]).0 > nxt by {
        if k < p {
            assert(nv[k] == dv[k]);
        } else if k == p {
            assert(nv[k] == (id, item));
        } else {
            assert(nv[k] == dv[k - 1]);
        }
    }
    assert forall|k: int| 0 <= k && k + 1 < nv.len() implies (#[trigger] nv[k]).0 < nv[k + 1].0 by {
        if k + 1 < p {
            assert(nv[k] == dv[k]);
            assert(nv[k + 1] == dv[k + 1]);
        } else if k + 1 == p {
            assert(nv[k] == dv[k]);
            assert(nv[k + 1] == (id, item));
            assert(dv[k].0 < id);
        } else if k == p {
            assert(nv[k] == (id, item));
            assert(nv[k + 1] == dv[k]);
            assert(dv[k].0 > id);
        } else {
            assert(nv[k] == dv[k - 1]);
            assert(nv[k + 1] == dv[k]);
        }
    }
    assert forall|k: int| 0 <= k < nv.len() implies (#[trigger] nv[k]).0 < usize::MAX by {
        if k < p {
            assert(nv[k] == dv[k]);
        } else if k == p {
            assert(nv[k] == (id, item));
        } else {
            assert(nv[k] == dv[k - 1]);
        }
    }
}

/// After draining the consecutive run `dv[..m]`, the remaining buffer is
/// still well formed with respect to the advanced next id.
proof fn lemma_drain_post<T>(dv: Seq<(usize, T)>, m: int, n0: int)
    requires
        0 <= m <= dv.len(),
        forall|k: int| 0 <= k < dv.len() ==> (#[trigger] dv[k]).0 > n0,
        forall|k: int| 0 <= k && k + 1 < dv.len() ==> (#[trigger] dv[k]).0 < dv[k + 1].0,
        forall|k: int| 0 <= k < dv.len() ==> (#[trigger] dv[k]).0 < usize::MAX,
        forall|k: int| 0 <= k < m ==> (#[trigger] dv[k]).0 == n0 + 1 + k,
        m < dv.len() ==> dv[m].0 != n0 + m + 1,
    ensures
        forall|k: int|
            0 <= k < dv.skip(m).len() ==> (#[trigger] dv.skip(m)[k]).0 > n0 + m + 1,
        forall|k: int|
            0 <= k && k + 1 < dv.skip(m).len() ==> (#[trigger] dv.skip(m)[k]).0 < dv.skip(m)[
                k + 1].0,
        forall|k: int| 0 <= k < dv.skip(m).len() ==> (#[trigger] dv.skip(m)[k]).0 < usize::MAX,
{
    let sk = dv.skip(m);
    assert(sk =~= dv.subrange(m, dv.len() as int));
    assert(sk.len() == dv.len() - m);
    assert forall|k: int| 0 <= k < sk.len() implies #[trigger] sk[k] == dv[m + k] by {
        assert(sk[k] == dv.subrange(m, dv.len() as int)[k]);
    }
    if m < dv.len() {
        if m > 0 {
            assert(dv[m - 1].0 == n0 + m);
            assert(dv[m - 1].0 < dv[m].0);
        }
        assert(dv[m].0 > n0 + m);
        assert(dv[m].0 > n0 + m + 1);
        assert forall|k: int|
            0 <= k < sk.len() implies (#[trigger] dv.skip(m)[k]).0 > n0 + m + 1 by {
            assert(dv.skip(m)[k] == dv[m + k]);
            lemma_sorted_gap(dv, m, m + k);
            assert(dv[m + k].0 >= dv[m].0 + k);
        }
    }
    assert forall|k: int|
        0 <= k && k + 1 < sk.len() implies (#[trigger] dv.skip(m)[k]).0 < dv.skip(m)[k + 1].0 by {
        assert(dv.skip(m)[k] == dv[m + k]);
        assert(dv.skip(m)[k + 1] == dv[m + k + 1]);
        assert(dv[m + k].0 < dv[m + k + 1].0);
    }
    assert forall|k: int|
        0 <= k < sk.len() implies (#[trigger] dv.skip(m)[k]).0 < usize::MAX by {
        assert(dv.skip(m)[k] == dv[m + k]);
    }
}

/// In a list with strictly increasing ids, later ids grow at least
/// linearly with the index.
proof fn lemma_sorted_gap<T>(dv: Seq<(usize, T)>, i: int, j: int)
    requires
        0 <= i <= j < dv.len(),
        forall|k: int| 0 <= k && k + 1 < dv.len() ==> (#[trigger] dv[k]).0 < dv[k + 1].0,
    ensures
        dv[j].0 >= dv[i].0 + (j - i),
    decreases j - i,
{
    if i < j {
        lemma_sorted_gap(dv, i, j - 1);
        assert(dv[j - 1].0 < dv[j].0);
    }
}

/// Reorder-buffer law: the identifiers a single accept emits are
/// consecutive from the id owed before the call, and everything a later
/// accept emits exceeds everything an earlier one emitted; so the
/// concatenated output of any run of accepts carries strictly increasing
/// sequence ids, whatever order results arrive in.
pub proof fn lemma_reorder_emissions_ordered(
    n0: int,
    out1: Seq<int>,
    n1: int,
    out2: Seq<int>,
)
    requires
        forall|k: int| 0 <= k < out1.len() ==> #[trigger] out1[k] == n0 + k,
        n1 == n0 + out1.len(),
        forall|k: int| 0 <= k < out2.len() ==> #[trigger] out2[k] == n1 + k,
    ensures
        forall|i: int, j: int|
            0 <= i < j < out1.len() ==> #[trigger] out1[i] < #[trigger] out1[j],
        forall|i: int, j: int|
            0 <= i < out1.len() && 0 <= j < out2.len() ==> #[trigger] out1[i]
                < #[trigger] out2[j],
{
}


// ── sequential driver ────────────────────────────────────────────

/// The entries one page fragment contributes after the whole filter chain:
/// title extraction, namespace and reserved-prefix checks, redirect marker,
/// body extraction, language and exclusion markers, the script predicate,
/// and extraction proper.
pub open spec fn page_entries(cfg: ExtractConfig, xml: Seq<char>) -> Seq<EntryV> {
    match title_spec(xml) {
        None => Seq::empty(),
        Some(title) => {
            let ns_bad = match ns_spec(xml) {
                Some(d) => d != seq!['0'],
                None => false,
            };
            if ns_bad {
                Seq::empty()
            } else if has_special_prefix_spec(cfg.prefixes_v(), title) {
                Seq::empty()
            } else if has_redirect(xml, 0) {
                Seq::empty()
            } else {
                match text_spec(xml) {
                    None => Seq::empty(),
                    Some(text) => {
                        if find_eng(text, 0) is None {
                            Seq::empty()
                        } else if contains_from(true, text, "{{no entry|en"@, 0) {
                            Seq::empty()
                        } else if !is_englishlike_spec(title) {
                            Seq::empty()
                        } else {
                            parse_page_spec(cfg, title, text)
                        }
                    },
                }
            }
        },
    }
}

/// The full entry stream of a page sequence, in input order.
pub open spec fn all_entries(cfg: ExtractConfig, pages: Seq<Seq<char>>, i: int) -> Seq<EntryV>
    decreases pages.len() - i,
{
    if i < 0 || i >= pages.len() {
        Seq::empty()
    } else {
        page_entries(cfg, pages[i]) + all_entries(cfg, pages, i + 1)
    }
}

/// Process pages in input order on one thread.  Without a limit the output
/// is the full entry stream.  With a limit it is the stream cut after the
/// first entry whose count reaches the limit (a limit of zero still lets
/// one entry through before the cut is noticed), and the flag reports that
/// the limit was reached; a limit beyond the stream changes nothing.
#[verifier::rlimit(100)]
#[verifier::spinoff_prover]
pub fn process_pages_sequential(
    cfg: &ExtractConfig,
    pages: &Vec<String>,
    limit: Option<usize>,
) -> (r: (Vec<Entry>, Stats, bool))
    ensures
        ({
            let full = all_entries(*cfg, pages.deep_view(), 0);
            &&& match limit {
                None => entries_view(r.0@) == full && !r.2,
                Some(l) => {
                    let el: int = if l == 0 {
                        1
                    } else {
                        l as int
                    };
                    if full.len() >= el {
                        entries_view(r.0@) == full.take(el) && r.2
                    } else {
                        entries_view(r.0@) == full && !r.2
                    }
                },
            }
            &&& r.1.senses_written == r.0@.len()
        }),
{
    let ghost pv = pages.deep_view();
    let ghost full = all_entries(*cfg, pv, 0);
    let mut out: Vec<Entry> = Vec::new();
    let mut stats = Stats::new();
    let mut i: usize = 0;
    proof {
        assert(entries_view(out@) + all_entries(*cfg, pv, 0) =~= full);
    }
    while i < pages.len()
        invariant
            0 <= i <= pages.len(),
            pv == pages.deep_view(),
            full == all_entries(*cfg, pv, 0),
            entries_view(out@) + all_entries(*cfg, pv, i as int) =~= full,
            match limit {
                Some(l) => out@.len() < (if l == 0 {
                    1int
                } else {
                    l as int
                }),
                None => true,
            },
        decreases pages.len() - i,
    {
        proof {
            assert(pv[i as int] == pages@[i as int]@);
        }
        let xml = &pages[i];
        let ghost xmlv = pv[i as int];
        stats.pages_processed = bump(stats.pages_processed);
        let mut es: Vec<Entry> = Vec::new();
        let mut kept = false;
        match crate::scan::extract_title(xml.as_str()) {
            None => {
                stats.skipped = bump(stats.skipped);
            },
            Some(title) => {
                let ns_bad = match crate::scan::extract_ns(xml.as_str()) {
                    Some(d) => {
                        let dc = chars_of(d.as_str());
                        let ok = dc.len() == 1 && dc[0] == '0';
                        proof {
                            if ok {
                                assert(d@ =~= seq!['0']);
                            } else {
                                assert(d@ != seq!['0']);
                            }
                        }
                        !ok
                    },
                    None => false,
                };
                if ns_bad {
                    stats.special = bump(stats.special);
                } else if crate::config::has_special_prefix(
                    &cfg.special_prefixes,
                    title.as_str(),
                ) {
                    stats.special = bump(stats.special);
                } else if crate::scan::is_redirect(xml.as_str()) {
                    stats.redirects = bump(stats.redirects);
                } else {
                    match crate::scan::extract_text(xml.as_str()) {
                        None => {
                            stats.skipped = bump(stats.skipped);
                        },
                        Some(text) => {
                            let eng = crate::sections::extract_english_section(text.as_str());
                            if eng.is_none() {
                                proof {
                                    assert(find_eng(text@, 0) is Some
                                        ==> crate::sections::english_section_spec(
                                        text@,
                                    ) is Some);
                                }
                                stats.non_english = bump(stats.non_english);
                            } else {
                                let textc = chars_of(text.as_str());
                                if contains_lit(true, textc.as_slice(), "{{no entry|en") {
                                    stats.dict_only = bump(stats.dict_only);
                                } else if !crate::script::is_englishlike(title.as_str()) {
                                    stats.non_latin = bump(stats.non_latin);
                                } else {
                                    proof {
                                        assert(crate::sections::english_section_spec(text@)
                                            is None ==> find_eng(text@, 0) is None);
                                    }
                                    es = crate::entry::parse_page(
                                        cfg,
                                        title.as_str(),
                                        text.as_str(),
                                    );
                                    if es.len() == 0 {
                                        stats.skipped = bump(stats.skipped);
                                    } else {
                                        kept = true;
                                        stats.words_written = bump(stats.words_written);
                                        match crate::script::classify_case(title.as_str()) {
                                            CaseForm::Lower => {
                                                stats.case_lower = bump(stats.case_lower);
                                            },
                                            CaseForm::Title => {
                                                stats.case_title = bump(stats.case_title);
                                            },
                                            CaseForm::Upper => {
                                                stats.case_upper = bump(stats.case_upper);
                                            },
                                            CaseForm::Mixed => {
                                                stats.case_mixed = bump(stats.case_mixed);
                                            },
                                        }
                                    }
                                    proof {
                                        assert(page_entries(*cfg, xmlv) == entries_view(es@));
                                    }
                                }
                            }
                        },
                    }
                }
            },
        }
        proof {
            if !kept {
                assert(page_entries(*cfg, xmlv).len() == 0);
            }
            assert(all_entries(*cfg, pv, i as int) =~= page_entries(*cfg, xmlv) + all_entries(
                *cfg,
                pv,
                i + 1,
            ));
        }
        if kept {
            let ghost prev = entries_view(out@);
            let ghost esv = entries_view(es@);
            match limit {
                Some(l) => {
                    let el: usize = if l == 0 {
                        1
                    } else {
                        l
                    };
                    let remaining = el - out.len();
                    if es.len() >= remaining {
                        let mut cut = es;
                        cut.truncate(remaining);
                        let ghost cutv = entries_view(cut@);
                        proof {
                            assert(cutv =~= esv.take(remaining as int));
                        }
                        let mut cut2 = cut;
                        out.append(&mut cut2);
                        stats.senses_written = out.len();
                        proof {
                            assert(entries_view(out@) =~= prev + esv.take(remaining as int));
                            assert(full =~= prev + (esv + all_entries(*cfg, pv, i + 1)));
                            assert(full.len() >= prev.len() + remaining);
                            assert(full.take(prev.len() + remaining as int) =~= prev
                                + esv.take(remaining as int));
                            assert(entries_view(out@) =~= full.take(el as int));
                        }
                        return (out, stats, true);
                    } else {
                        let mut es2 = es;
                        out.append(&mut es2);
                        proof {
                            assert(entries_view(out@) =~= prev + esv);
                        }
                    }
                },
                None => {
                    let mut es2 = es;
                    out.append(&mut es2);
                    proof {
                        assert(entries_view(out@) =~= prev + esv);
                    }
                },
            }
        } else {
            proof {
                assert(entries_view(out@) + all_entries(*cfg, pv, i + 1) =~= full);
            }
        }
        i = i + 1;
    }
    proof {
        assert(all_entries(*cfg, pv, pages@.len() as int) =~= Seq::<EntryV>::empty());
        assert(entries_view(out@) =~= full);
    }
    stats.senses_written = out.len();
    (out, stats, false)
}


/// Output-limit law: under a limit the sequential driver emits exactly as
/// many entries as the limit allows whenever that many are available, and
/// the whole stream otherwise; the flag reports reaching the limit
/// precisely when it was reachable.
pub proof fn lemma_sequential_limit_count(
    cfg: ExtractConfig,
    pages: Seq<Seq<char>>,
    l: usize,
    out: Seq<EntryV>,
    reached: bool,
)
    requires
        ({
            let full = all_entries(cfg, pages, 0);
            let el: int = if l == 0 {
                1
            } else {
                l as int
            };
            if full.len() >= el {
                out == full.take(el) && reached
            } else {
                out == full && !reached
            }
        }),
    ensures
        ({
            let full = all_entries(cfg, pages, 0);
            let el: int = if l == 0 {
                1
            } else {
                l as int
            };
            &&& out.len() == (if full.len() >= el {
                el
            } else {
                full.len() as int
            })
            &&& (reached <==> full.len() >= el)
        }),
{
}

} // verus!