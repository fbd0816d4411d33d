//! The scan driver: goes through the work of a scan job by job, looks every
//! byte sequence up in its memory, and hands what is new to the detector
//! chain. The one thing it cannot do itself is to run the file-type
//! classifier: where the chain needs it, the driver stops and asks.

use vstd::prelude::*;
use vstd::slice::slice_to_vec;
use vstd::string::StringExecFns;
use crate::detect::{classify_head, classify_tail, spec_head, wants_wbstego};
use crate::extractor::extract_with;
use crate::file_cmd::{opt_slice, FileCmd};
use crate::hexdump::dump;
use crate::imageio::Image;
use crate::opts::Options;
use crate::plan::{combos_view, sweep, Combination, CombinationView};
use crate::report::{Output, OutputView, Reporter};
use crate::result::{DetectResult, DetectResultView};
use crate::scan::{
    closing, extra_opening, findings_after, found_after, fresh_outputs, history_after, idat,
    job_active, job_cached, job_classified, job_data, job_duplicate, job_found, job_outputs,
    job_shown, job_title, job_valid, jobs_view, kept, need_cr_after, next_findings,
    outputs_after, shown_fresh, spec_check, spec_check_output, spec_jobs, Job, JobView,
};
use crate::seen::{
    faithful, first_label, lemma_first_wins, sweep_labels_distinct, used_label, Lookup, Outcome,
    Seen,
};
use crate::text::{push_decimal, utf8_string};

verus! {

// ---------------------------------------------------------------------------
// The state of a scan
// ---------------------------------------------------------------------------
/// What the driver wants of its caller.
#[derive(Debug, Clone, Copy, PartialEq, Eq, Structural)]
pub enum Step {
    /// The file-type classifier is to be run on the data in question, and
    /// its output handed to the next step.
    AskFile,
    /// The scan is over.
    Done,
}

/// A job that has been looked up and is not yet classified, by its label
/// and its data.
struct Underway {
    title: Seq<char>,
    data: Seq<u8>,
}

/// An attempt that waits for the file-type classifier.
struct Pending {
    title: String,
    data: Vec<u8>,
}

/// The state of one scan.
pub struct CheckState {
    seen: Seen,
    report: Reporter,
    found_anything: bool,
    need_cr: bool,
    file_cmd: Option<FileCmd>,
    jobs: Vec<Job>,
    next: usize,
    pending: Option<Pending>,
    finished: bool,
    answers: Ghost<Seq<Option<Seq<u8>>>>,
}

/// A scan of one image under one set of options.
pub struct Checker<'a> {
    pub image: &'a Image,
    pub options: &'a Options,
}

impl CheckState {
    /// The jobs of the scan.
    pub closed spec fn jobs(&self) -> Seq<JobView> {
        jobs_view(self.jobs@)
    }

    /// Number of jobs that are done.
    pub closed spec fn position(&self) -> nat {
        self.next as nat
    }

    /// Whether an attempt waits for the file-type classifier.
    pub closed spec fn is_waiting(&self) -> bool {
        self.pending is Some
    }

    /// The data that the file-type classifier is asked about.
    pub closed spec fn question(&self) -> Seq<u8> {
        self.pending->0.data@
    }

    /// Whether the scan is over.
    pub closed spec fn is_finished(&self) -> bool {
        self.finished
    }

    /// The lookups so far.
    pub closed spec fn history(&self) -> Seq<Lookup> {
        self.seen.history()
    }

    /// The findings so far.
    pub closed spec fn findings(&self) -> Seq<DetectResultView> {
        self.report.findings()
    }

    /// The output that has gathered.
    pub closed spec fn output(&self) -> Seq<OutputView> {
        self.report.output()
    }

    /// Whether anything worth reporting has turned up.
    pub closed spec fn found_anything(&self) -> bool {
        self.found_anything
    }

    /// Whether the line with the last label is still to be cleared.
    pub closed spec fn need_cr(&self) -> bool {
        self.need_cr
    }

    /// What the file-type classifier answered about each of the jobs that
    /// are done; `None` for a job that it was not asked about.
    pub closed spec fn answers(&self) -> Seq<Option<Seq<u8>>> {
        self.answers@
    }

    /// Number of steps that the scan can still take at most.
    pub closed spec fn remaining(&self) -> nat {
        (2 * (self.jobs@.len() - self.next) + (if self.finished {
            0int
        } else {
            1int
        }) - (if self.pending is Some {
            1int
        } else {
            0int
        })) as nat
    }

    /// What holds of the state of a scan of `image` under `options` while
    /// the job `under_way`, given by its label and its data, has been looked
    /// up but not yet classified, or while none is.
    spec fn holds(
        &self,
        image: Image,
        options: Options,
        under_way: Option<Underway>,
    ) -> bool {
        let jobs = jobs_view(self.jobs@);
        &&& self.seen.wf()
        &&& self.next <= self.jobs@.len()
        &&& jobs == spec_jobs(image, options)
        &&& (self.finished ==> self.next == self.jobs@.len() && under_way is None)
        &&& (self.file_cmd is Some <==> options.file_cmd)
        &&& (self.file_cmd matches Some(f) ==> f.is_enabled())
        &&& (under_way matches Some(p) ==> {
            &&& self.next < self.jobs@.len()
            &&& p.title == job_title(image, jobs[self.next as int])
            &&& p.data == job_data(image, options, jobs[self.next as int])
            &&& job_classified(
                image,
                options,
                history_after(image, options, jobs, self.next as nat),
                jobs[self.next as int],
            )
        })
        &&& self.seen.history() == history_after(
            image,
            options,
            jobs,
            (self.next + (if under_way is Some {
                1int
            } else {
                0int
            })) as nat,
        )
        &&& self.answers@.len() == self.next
        &&& self.report.findings() == findings_after(
            image,
            options,
            jobs,
            self.answers@,
            self.next as nat,
        )
        &&& self.found_anything == found_after(
            image,
            options,
            jobs,
            self.answers@,
            self.next as nat,
        )
        &&& self.need_cr == need_cr_after(image, options, jobs, self.answers@, self.next as nat)
        &&& self.report.output() == outputs_after(
            image,
            options,
            jobs,
            self.answers@,
            self.next as nat,
        ) + (if under_way is Some && jobs[self.next as int] is Extra {
            extra_opening(options.verbose, under_way->0.title, under_way->0.data)
        } else {
            Seq::empty()
        }) + (if self.finished {
            closing(self.found_anything, self.need_cr)
        } else {
            Seq::empty()
        })
    }

    /// The job that waits, by its label and its data.
    spec fn waiting(&self) -> Option<Underway> {
        match self.pending {
            Some(p) => Some(Underway { title: p.title@, data: p.data@ }),
            None => None,
        }
    }

    /// The state is one that a scan of `image` under `options` can be in:
    /// its jobs are the scan's; its memory is in order and holds the lookups
    /// of the jobs that are done or waiting; its findings and its output are
    /// those of the jobs that are done, under the answers that were given;
    /// and the job that waits is the next one, new to the memory and not
    /// settled by the rules that come before the file-type classifier.
    pub closed spec fn wf(&self, image: Image, options: Options) -> bool {
        &&& self.holds(image, options, self.waiting())
        &&& (self.pending matches Some(p) ==> spec_head(
            p.data@,
            wants_wbstego(options),
            options.min_str_len as nat,
        ) is None)
    }

    /// The data that the file-type classifier is asked about, if the scan
    /// waits for it.
    pub fn asked(&self) -> (q: Option<&Vec<u8>>)
        ensures
            q is Some <==> self.is_waiting(),
            q matches Some(d) ==> d@ == self.question(),
    {
        match &self.pending {
            Some(p) => Some(&p.data),
            None => None,
        }
    }

    /// Whether the scan is over.
    pub fn finished(&self) -> (r: bool)
        ensures
            r == self.is_finished(),
    {
        self.finished
    }

    /// The findings so far.
    pub fn results(&self) -> (r: &Vec<DetectResult>)
        ensures
            crate::report::findings_view(r@) == self.findings(),
    {
        self.report.results()
    }

    /// The output so far.
    pub fn printed(&self) -> (out: &Vec<Output>)
        ensures
            crate::report::outputs_view(out@) == self.output(),
    {
        self.report.printed()
    }

    /// The findings and the output, for good.
    pub fn into_parts(self) -> (r: (Vec<DetectResult>, Vec<Output>))
        ensures
            crate::report::findings_view(r.0@) == self.findings(),
            crate::report::outputs_view(r.1@) == self.output(),
    {
        self.report.into_parts()
    }

    /// What the invariant says of the findings: they are those of the jobs
    /// that are done, under the answers that were given.
    pub proof fn lemma_findings(&self, image: Image, options: Options)
        requires
            self.wf(image, options),
        ensures
            self.jobs() == spec_jobs(image, options),
            self.answers().len() == self.position(),
            self.position() <= self.jobs().len(),
            self.findings() == findings_after(
                image,
                options,
                self.jobs(),
                self.answers(),
                self.position(),
            ),
            self.found_anything() == found_after(
                image,
                options,
                self.jobs(),
                self.answers(),
                self.position(),
            ),
            self.need_cr() == need_cr_after(
                image,
                options,
                self.jobs(),
                self.answers(),
                self.position(),
            ),
            self.is_finished() ==> self.output() == outputs_after(
                image,
                options,
                self.jobs(),
                self.answers(),
                self.position(),
            ) + closing(self.found_anything(), self.need_cr()),
            !self.is_finished() && !self.is_waiting() ==> self.output() == outputs_after(
                image,
                options,
                self.jobs(),
                self.answers(),
                self.position(),
            ),
    {
        let base = outputs_after(
            image,
            options,
            self.jobs(),
            self.answers(),
            self.position(),
        );
        assert(base + Seq::<OutputView>::empty() =~= base);
        assert(base + Seq::<OutputView>::empty() + closing(self.found_anything(), self.need_cr())
            =~= base + closing(self.found_anything(), self.need_cr()));
    }

    /// What the invariant says of the lookups: they are those of the jobs
    /// that are done or waiting; each had the outcome that was due to it;
    /// of all lookups of one byte sequence the first was classified and
    /// every later one recorded as a duplicate under the first one's label;
    /// and no two lookups of the sweep have the same label.
    pub proof fn lemma_memory(&self, image: Image, options: Options)
        requires
            self.wf(image, options),
        ensures
            self.history() == history_after(
                image,
                options,
                self.jobs(),
                self.position() + (if self.is_waiting() {
                    1nat
                } else {
                    0nat
                }),
            ),
            faithful(self.history()),
            sweep_labels_distinct(self.history()),
            forall|t: int|
                0 <= t < self.history().len() ==> ((#[trigger] self.history()[t]).outcome
                    is Classified <==> (forall|s: int|
                    0 <= s < t ==> (#[trigger] self.history()[s]).data != self.history()[t].data)),
            forall|s: int, t: int|
                0 <= s < t < self.history().len() && (#[trigger] self.history()[s]).data == (
                #[trigger] self.history()[t]).data && self.history()[s].outcome is Classified
                    ==> self.history()[t].outcome == Outcome::Duplicate(self.history()[s].label),
    {
        self.seen.lemma_history();
        lemma_first_wins(self.seen.history());
    }
}

// ---------------------------------------------------------------------------
// The driver
// ---------------------------------------------------------------------------
fn chunk_type(ty: &[u8; 4]) -> (r: (Vec<u8>, bool))
    ensures
        r.0@ == ty@,
        r.1 == (ty@ == idat()),
{
    let bytes = vec![ty[0], ty[1], ty[2], ty[3]];
    assert(bytes@ =~= ty@);
    let is_idat = ty[0] == 0x49 && ty[1] == 0x44 && ty[2] == 0x41 && ty[3] == 0x54;
    proof {
        if is_idat {
            assert(ty@ =~= idat());
        } else {
            assert(idat()[0] == 0x49u8 && idat()[1] == 0x44u8 && idat()[2] == 0x41u8 && idat()[3]
                == 0x54u8);
        }
    }
    (bytes, is_idat)
}

fn copy_bytes(v: &Vec<u8>) -> (r: Vec<u8>)
    ensures
        r@ == v@,
{
    slice_to_vec(v.as_slice())
}

impl<'a> Checker<'a> {
    /// A scan of `image` under `options`.
    pub fn new(image: &'a Image, options: &'a Options) -> (c: Self)
        ensures
            c.image == image,
            c.options == options,
    {
        Checker { image, options }
    }

    /// Lays out the jobs of the scan.
    pub fn plan(&self) -> (jobs: Vec<Job>)
        ensures
            jobs_view(jobs@) == spec_jobs(*self.image, *self.options),
    {
        let image = self.image;
        let ghost metas = Seq::new(image.metadata@.len(), |i: int| JobView::Meta(i as nat));
        let ghost extras = Seq::new(image.extradata@.len(), |i: int| JobView::Extra(i as nat));
        let ghost chunks = Seq::new(image.chunks@.len(), |i: int| JobView::Chunk(i as nat));
        let mut jobs: Vec<Job> = Vec::new();
        let mut i: usize = 0;
        while i < image.metadata.len()
            invariant
                i <= image.metadata@.len(),
                jobs_view(jobs@) == Seq::new(i as nat, |k: int| JobView::Meta(k as nat)),
            decreases image.metadata@.len() - i,
        {
            let ghost before = jobs@;
            jobs.push(Job::Meta(i));
            assert(jobs_view(jobs@) =~= jobs_view(before).push(JobView::Meta(i as nat)));
            i = i + 1;
            assert(jobs_view(jobs@) =~= Seq::new(i as nat, |k: int| JobView::Meta(k as nat)));
        }
        let ghost before = jobs@;
        jobs.push(Job::ImageData);
        assert(jobs_view(jobs@) =~= jobs_view(before).push(JobView::ImageData));
        assert(image.metadata@.len() == i);
        assert(jobs_view(jobs@) =~= metas + seq![JobView::ImageData]);
        let mut i: usize = 0;
        while i < image.extradata.len()
            invariant
                i <= image.extradata@.len(),
                jobs_view(jobs@) == metas + seq![JobView::ImageData] + Seq::new(
                    i as nat,
                    |k: int| JobView::Extra(k as nat),
                ),
            decreases image.extradata@.len() - i,
        {
            let ghost before = jobs@;
            jobs.push(Job::Extra(i));
            assert(jobs_view(jobs@) =~= jobs_view(before).push(JobView::Extra(i as nat)));
            i = i + 1;
            assert(jobs_view(jobs@) =~= metas + seq![JobView::ImageData] + Seq::new(
                i as nat,
                |k: int| JobView::Extra(k as nat),
            ));
        }
        let mut i: usize = 0;
        while i < image.chunks.len()
            invariant
                i <= image.chunks@.len(),
                jobs_view(jobs@) == metas + seq![JobView::ImageData] + extras + Seq::new(
                    i as nat,
                    |k: int| JobView::Chunk(k as nat),
                ),
            decreases image.chunks@.len() - i,
        {
            let ghost before = jobs@;
            jobs.push(Job::Chunk(i));
            assert(jobs_view(jobs@) =~= jobs_view(before).push(JobView::Chunk(i as nat)));
            i = i + 1;
            assert(jobs_view(jobs@) =~= metas + seq![JobView::ImageData] + extras + Seq::new(
                i as nat,
                |k: int| JobView::Chunk(k as nat),
            ));
        }
        let ghost head = jobs_view(jobs@);
        let mut combos = sweep(self.image, self.options);
        let ghost all = combos_view(combos@);
        // The combinations are moved over by way of a stack, which turns
        // them round twice.
        let mut stack: Vec<Combination> = Vec::new();
        while combos.len() > 0
            invariant
                combos_view(combos@) + combos_view(stack@).reverse() == all,
            decreases combos.len(),
        {
            let ghost c0 = combos@;
            let ghost s0 = stack@;
            match combos.pop() {
                Some(c) => {
                    stack.push(c);
                    assert(combos_view(combos@) + combos_view(stack@).reverse() =~= combos_view(
                        c0,
                    ) + combos_view(s0).reverse());
                },
                None => {},
            }
        }
        assert(combos_view(stack@).reverse() =~= all);
        while stack.len() > 0
            invariant
                jobs_view(jobs@) + combos_view(stack@).reverse().map_values(
                    |c: CombinationView| JobView::Sweep(c),
                ) == head + all.map_values(|c: CombinationView| JobView::Sweep(c)),
            decreases stack.len(),
        {
            let ghost j0 = jobs@;
            let ghost s0 = stack@;
            match stack.pop() {
                Some(c) => {
                    jobs.push(Job::Sweep(c));
                    assert(jobs_view(jobs@) + combos_view(stack@).reverse().map_values(
                        |c: CombinationView| JobView::Sweep(c),
                    ) =~= jobs_view(j0) + combos_view(s0).reverse().map_values(
                        |c: CombinationView| JobView::Sweep(c),
                    ));
                },
                None => {},
            }
        }
        assert(jobs_view(jobs@) =~= head + all.map_values(|c: CombinationView| JobView::Sweep(c)));
        jobs
    }

    /// The state in which the scan starts.
    pub fn begin(&self) -> (st: CheckState)
        ensures
            st.wf(*self.image, *self.options),
            st.jobs() == spec_jobs(*self.image, *self.options),
            st.position() == 0,
            st.answers() == Seq::<Option<Seq<u8>>>::empty(),
            !st.is_waiting(),
            !st.is_finished(),
            !st.found_anything(),
            st.history() == Seq::<Lookup>::empty(),
            st.findings() == Seq::<DetectResultView>::empty(),
            st.output() == Seq::<OutputView>::empty(),
    {
        CheckState {
            seen: Seen::new(),
            report: Reporter::new(),
            found_anything: false,
            need_cr: false,
            file_cmd: FileCmd::new(self.options.file_cmd),
            jobs: self.plan(),
            next: 0,
            pending: None,
            finished: false,
            answers: Ghost(Seq::empty()),
        }
    }

    /// The label and the data of a job; nothing for a job that is passed
    /// over.
    pub fn prepare(&self, job: &Job) -> (r: Option<(String, Vec<u8>)>)
        requires
            self.image.wf(),
            job_valid(*self.image, job@),
        ensures
            r is Some <==> job_active(*self.image, job@),
            r matches Some(input) ==> input.0@ == job_title(*self.image, job@) && input.1@
                == job_data(*self.image, *self.options, job@),
    {
        match job {
            Job::Meta(i) => {
                let mut title = String::from_str("meta ");
                title.append(self.image.metadata[*i].0.as_str());
                let data = slice_to_vec(self.image.metadata[*i].1.as_str().as_bytes());
                Some((title, data))
            },
            Job::ImageData => {
                Some((String::from_str("imagedata"), copy_bytes(&self.image.imagedata)))
            },
            Job::Extra(i) => {
                if self.image.extradata[*i].len() == 0 {
                    return None;
                }
                let mut title = String::from_str("extradata:");
                push_decimal(&mut title, *i as u64);
                Some((title, copy_bytes(&self.image.extradata[*i])))
            },
            Job::Chunk(i) => {
                let (ty, is_idat) = chunk_type(&self.image.chunks[*i].ty);
                if self.image.chunks[*i].data.len() < 5 || is_idat {
                    return None;
                }
                let mut title = String::from_str("chunk:");
                push_decimal(&mut title, *i as u64);
                title.append(":");
                match utf8_string(ty.as_slice()) {
                    Some(t) => title.append(t.as_str()),
                    None => title.append("????"),
                }
                Some((title, copy_bytes(&self.image.chunks[*i].data)))
            },
            Job::Sweep(c) => {
                let cfg = c.config(self.options);
                Some((c.title(), extract_with(self.image, &cfg)))
            },
        }
    }
}

/// The kind of a job.
#[derive(Clone, Copy, PartialEq, Eq, Structural)]
enum Pass {
    Meta,
    ImageData,
    Extra,
    Chunk,
    Sweep,
}

fn pass_of(job: &Job) -> (p: Pass)
    ensures
        p == Pass::Meta <==> job@ is Meta,
        p == Pass::ImageData <==> job@ is ImageData,
        p == Pass::Extra <==> job@ is Extra,
        p == Pass::Chunk <==> job@ is Chunk,
        p == Pass::Sweep <==> job@ is Sweep,
{
    match job {
        Job::Meta(_) => Pass::Meta,
        Job::ImageData => Pass::ImageData,
        Job::Extra(_) => Pass::Extra,
        Job::Chunk(_) => Pass::Chunk,
        Job::Sweep(_) => Pass::Sweep,
    }
}

proof fn lemma_jobs_valid(image: Image, options: Options, k: int)
    requires
        0 <= k < spec_jobs(image, options).len(),
    ensures
        job_valid(image, spec_jobs(image, options)[k]),
{
}

/// The file-type classifier has given no answer.
pub open spec fn no_answers(answers: Seq<Option<Seq<u8>>>) -> bool {
    forall|i: int| 0 <= i < answers.len() ==> (#[trigger] answers[i]) is None
}

/// Answers that were all none and have grown by none are all none.
proof fn lemma_no_answers(
    before: Seq<Option<Seq<u8>>>,
    after: Seq<Option<Seq<u8>>>,
    waiting: bool,
)
    requires
        no_answers(before),
        before.is_prefix_of(after),
        waiting ==> before.len() < after.len() && after[before.len() as int] is None,
        forall|i: int|
            before.len() + (if waiting {
                1int
            } else {
                0int
            }) <= i < after.len() ==> (#[trigger] after[i]) is None,
    ensures
        no_answers(after),
{
    assert forall|i: int| 0 <= i < after.len() implies (#[trigger] after[i]) is None by {
        if i < before.len() {
            assert(before[i] is None);
            assert(after[i] == before[i]);
        }
    }
}

/// The answers of the jobs that are done do not depend on what is said of
/// the jobs that are not.
proof fn lemma_answers_extend(
    image: Image,
    options: Options,
    jobs: Seq<JobView>,
    a: Seq<Option<Seq<u8>>>,
    b: Seq<Option<Seq<u8>>>,
    k: nat,
)
    requires
        k <= a.len(),
        k <= b.len(),
        forall|i: int| 0 <= i < k ==> a[i] == b[i],
    ensures
        findings_after(image, options, jobs, a, k) == findings_after(image, options, jobs, b, k),
        found_after(image, options, jobs, a, k) == found_after(image, options, jobs, b, k),
        outputs_after(image, options, jobs, a, k) == outputs_after(image, options, jobs, b, k),
        need_cr_after(image, options, jobs, a, k) == need_cr_after(image, options, jobs, b, k),
    decreases k,
{
    if k > 0 {
        lemma_answers_extend(image, options, jobs, a, b, (k - 1) as nat);
    }
}

/// What one more job adds, under the answer `answer`.
proof fn lemma_next_job(
    image: Image,
    options: Options,
    jobs: Seq<JobView>,
    before: Seq<Option<Seq<u8>>>,
    answer: Option<Seq<u8>>,
    k: nat,
)
    requires
        before.len() == k,
    ensures
        ({
            let after = before.push(answer);
            let h = history_after(image, options, jobs, k);
            let f = findings_after(image, options, jobs, before, k);
            &&& findings_after(image, options, jobs, after, k + 1) == next_findings(
                image,
                options,
                h,
                f,
                jobs[k as int],
                answer,
            )
            &&& found_after(image, options, jobs, after, k + 1) == (found_after(
                image,
                options,
                jobs,
                before,
                k,
            ) || job_shown(image, options, h, jobs[k as int], answer))
            &&& outputs_after(image, options, jobs, after, k + 1) == outputs_after(
                image,
                options,
                jobs,
                before,
                k,
            ) + job_outputs(image, options, h, f.len(), jobs[k as int], answer)
            &&& need_cr_after(image, options, jobs, after, k + 1) == (if (jobs[k as int] is Chunk
                || jobs[k as int] is Sweep) && (job_classified(image, options, h, jobs[k as int])
                || job_duplicate(image, options, h, jobs[k as int])) {
                !job_shown(image, options, h, jobs[k as int], answer)
            } else {
                need_cr_after(image, options, jobs, before, k)
            })
        }),
{
    lemma_answers_extend(image, options, jobs, before, before.push(answer), k);
}

impl CheckState {
    /// The state stands before a job that is not under way.
    spec fn idle(&self) -> bool {
        &&& self.next < self.jobs@.len()
        &&& !self.finished
        &&& self.pending is None
    }

    /// Takes note of whether an attempt of the given kind was shown.
    fn settle(&mut self, pass: Pass, shown: bool)
        requires
            pass != Pass::ImageData,
            pass != Pass::Extra,
        ensures
            final(self).found_anything == (old(self).found_anything || shown),
            final(self).need_cr == (if pass == Pass::Meta {
                old(self).need_cr
            } else {
                !shown
            }),
            final(self).seen == old(self).seen,
            final(self).report == old(self).report,
            final(self).jobs == old(self).jobs,
            final(self).next == old(self).next,
            final(self).pending == old(self).pending,
            final(self).finished == old(self).finished,
            final(self).file_cmd == old(self).file_cmd,
            final(self).answers == old(self).answers,
    {
        match pass {
            Pass::Meta => {
                if shown {
                    self.found_anything = true;
                }
            },
            _ => {
                self.need_cr = !shown;
                if shown {
                    self.found_anything = true;
                }
            },
        }
    }

    /// Reports what the chain made of the job under way.
    fn finish(
        &mut self,
        options: &Options,
        title: String,
        data: Vec<u8>,
        found: Option<DetectResult>,
    )
        requires
            old(self).next < old(self).jobs@.len(),
        ensures
            final(self).report.findings() == (if kept(
                options.verbose,
                old(self).jobs@[old(self).next as int]@,
                crate::result::opt_view(found),
            ) {
                old(self).report.findings().push(found->0@)
            } else {
                old(self).report.findings()
            }),
            final(self).found_anything == (old(self).found_anything || shown_fresh(
                options.verbose,
                old(self).jobs@[old(self).next as int]@,
                crate::result::opt_view(found),
            )),
            final(self).need_cr == (if old(self).jobs@[old(self).next as int]@ is Chunk || old(
                self,
            ).jobs@[old(self).next as int]@ is Sweep {
                !shown_fresh(
                    options.verbose,
                    old(self).jobs@[old(self).next as int]@,
                    crate::result::opt_view(found),
                )
            } else {
                old(self).need_cr
            }),
            final(self).report.output() == old(self).report.output() + fresh_outputs(
                *options,
                old(self).jobs@[old(self).next as int]@,
                title@,
                data@,
                old(self).report.findings().len(),
                crate::result::opt_view(found),
            ),
            final(self).seen == old(self).seen,
            final(self).jobs == old(self).jobs,
            final(self).next == old(self).next,
            final(self).pending == old(self).pending,
            final(self).finished == old(self).finished,
            final(self).file_cmd == old(self).file_cmd,
            final(self).answers == old(self).answers,
    {
        let ghost out0 = self.report.output();
        let ghost index = self.report.findings().len();
        let pass = pass_of(&self.jobs[self.next]);
        let interesting = match &found {
            Some(r) => !r.is_one_char(),
            None => false,
        };
        match pass {
            Pass::ImageData => {
                if interesting {
                    self.report.emit(Output::Title(title));
                    match found {
                        Some(r) => {
                            self.report.keep(r);
                        },
                        None => {},
                    }
                    self.found_anything = true;
                    assert(self.report.output() =~= out0 + seq![
                        OutputView::Title(title@),
                        OutputView::Finding(index),
                    ]);
                } else {
                    assert(self.report.output() =~= out0 + Seq::<OutputView>::empty());
                }
            },
            Pass::Extra => {
                if interesting {
                    match found {
                        Some(r) => {
                            self.report.keep(r);
                        },
                        None => {},
                    }
                    assert(self.report.output() =~= out0 + seq![OutputView::Finding(index)]);
                } else {
                    assert(self.report.output() =~= out0 + Seq::<OutputView>::empty());
                }
                self.found_anything = true;
            },
            _ => {
                let always = match pass {
                    Pass::Sweep => false,
                    _ => true,
                };
                let shown = self.report.conclude(
                    options.verbose,
                    options.limit,
                    title,
                    &data,
                    always,
                    found,
                );
                self.settle(pass, shown);
            },
        }
    }

    /// Moves on to the next job; `answer` is what the file-type classifier
    /// said of the one that is done.
    fn step_over(&mut self, Ghost(answer): Ghost<Option<Seq<u8>>>)
        requires
            old(self).next < old(self).jobs@.len(),
        ensures
            final(self).next == old(self).next + 1,
            final(self).answers@ == old(self).answers@.push(answer),
            final(self).seen == old(self).seen,
            final(self).report == old(self).report,
            final(self).found_anything == old(self).found_anything,
            final(self).need_cr == old(self).need_cr,
            final(self).jobs == old(self).jobs,
            final(self).pending == old(self).pending,
            final(self).finished == old(self).finished,
            final(self).file_cmd == old(self).file_cmd,
    {
        // The position is below the number of jobs, so it can be advanced.
        let count = self.jobs.len();
        assert(self.next < count);
        self.next = self.next + 1;
        self.answers = Ghost(self.answers@.push(answer));
    }
}

impl<'a> Checker<'a> {
    /// Leaves out a job that is passed over, or a combination whose label
    /// the sweep has been through.
    fn pass_over(&self, st: &mut CheckState)
        requires
            old(st).holds(*self.image, *self.options, None),
            old(st).idle(),
            ({
                let job = old(st).jobs@[old(st).next as int]@;
                !job_active(*self.image, job) || (job is Sweep && used_label(
                    old(st).seen.history(),
                    job_title(*self.image, job),
                ))
            }),
        ensures
            final(st).wf(*self.image, *self.options),
            final(st).jobs@ == old(st).jobs@,
            !final(st).finished,
            final(st).pending is None,
            final(st).next == old(st).next + 1,
            final(st).answers@ == old(st).answers@.push(None),
    {
        let ghost jobs = jobs_view(st.jobs@);
        let ghost k = st.next as nat;
        let ghost shown = st.report.output();
        proof {
            assert(jobs[k as int] == st.jobs@[k as int]@);
            lemma_next_job(*self.image, *self.options, jobs, st.answers@, None, k);
        }
        st.step_over(Ghost(None));
        proof {
            let base = outputs_after(*self.image, *self.options, jobs, old(st).answers@, k);
            let empty = Seq::<OutputView>::empty();
            assert(shown =~= base);
            assert(base + empty + empty + empty =~= base);
        }
    }

    /// Reports the job under way as what the memory has seen before.
    fn repeat(&self, st: &mut CheckState, title: String, first: String)
        requires
            old(st).idle(),
            ({
                let image = *self.image;
                let options = *self.options;
                let jobs = jobs_view(old(st).jobs@);
                let k = old(st).next as nat;
                let h = history_after(image, options, jobs, k);
                &&& old(st).seen.wf()
                &&& jobs == spec_jobs(image, options)
                &&& (old(st).file_cmd is Some <==> options.file_cmd)
                &&& (old(st).file_cmd matches Some(f) ==> f.is_enabled())
                &&& job_duplicate(image, options, h, jobs[k as int])
                &&& title@ == job_title(image, jobs[k as int])
                &&& Some(first@) == first_label(h, job_data(image, options, jobs[k as int]))
                &&& old(st).seen.history() == history_after(image, options, jobs, k + 1)
                &&& old(st).answers@.len() == k
                &&& old(st).report.findings() == findings_after(
                    image,
                    options,
                    jobs,
                    old(st).answers@,
                    k,
                )
                &&& old(st).found_anything == found_after(image, options, jobs, old(st).answers@, k)
                &&& old(st).need_cr == need_cr_after(image, options, jobs, old(st).answers@, k)
                &&& old(st).report.output() == outputs_after(
                    image,
                    options,
                    jobs,
                    old(st).answers@,
                    k,
                )
            }),
        ensures
            final(st).wf(*self.image, *self.options),
            final(st).jobs@ == old(st).jobs@,
            !final(st).finished,
            final(st).pending is None,
            final(st).next == old(st).next + 1,
            final(st).answers@ == old(st).answers@.push(None),
    {
        let ghost jobs = jobs_view(st.jobs@);
        let ghost k = st.next as nat;
        proof {
            assert(jobs[k as int] == st.jobs@[k as int]@);
            lemma_next_job(*self.image, *self.options, jobs, st.answers@, None, k);
        }
        let pass = pass_of(&st.jobs[st.next]);
        let shown = st.report.duplicate(self.options.verbose, title, first);
        st.settle(pass, shown);
        st.step_over(Ghost(None));
        proof {
            let empty = Seq::<OutputView>::empty();
            assert(st.report.output() + empty + empty =~= st.report.output());
        }
    }

    /// Reports what the chain made of the job under way, and moves on.
    fn complete(
        &self,
        st: &mut CheckState,
        title: String,
        data: Vec<u8>,
        found: Option<DetectResult>,
        Ghost(answer): Ghost<Option<Seq<u8>>>,
    )
        requires
            old(st).holds(*self.image, *self.options, Some(Underway { title: title@, data: data@ })),
            old(st).idle(),
            crate::result::opt_view(found) == job_found(
                *self.image,
                *self.options,
                old(st).jobs@[old(st).next as int]@,
                answer,
            ),
        ensures
            final(st).wf(*self.image, *self.options),
            final(st).jobs@ == old(st).jobs@,
            !final(st).finished,
            final(st).pending is None,
            final(st).next == old(st).next + 1,
            final(st).answers@ == old(st).answers@.push(answer),
    {
        let ghost image = *self.image;
        let ghost options = *self.options;
        let ghost jobs = jobs_view(st.jobs@);
        let ghost k = st.next as nat;
        let ghost empty = Seq::<OutputView>::empty();
        let ghost base = outputs_after(image, options, jobs, st.answers@, k);
        let ghost opening = if jobs[k as int] is Extra {
            extra_opening(options.verbose, title@, data@)
        } else {
            empty
        };
        let ghost fresh = fresh_outputs(
            options,
            jobs[k as int],
            title@,
            data@,
            st.report.findings().len(),
            crate::result::opt_view(found),
        );
        proof {
            assert(jobs[k as int] == st.jobs@[k as int]@);
            lemma_next_job(image, options, jobs, st.answers@, answer, k);
            assert(st.report.output() =~= base + opening);
        }
        st.finish(self.options, title, data, found);
        st.step_over(Ghost(answer));
        proof {
            assert(base + opening + fresh =~= base + (opening + fresh));
            assert(st.report.output() + empty + empty =~= st.report.output());
        }
    }

    /// Runs the job under way through the rules that come before the
    /// file-type classifier, and through the rest of the chain unless the
    /// classifier is to be asked. Returns whether it is.
    fn classify(&self, st: &mut CheckState, title: String, data: Vec<u8>) -> (asked: bool)
        requires
            old(st).holds(*self.image, *self.options, Some(Underway { title: title@, data: data@ })),
            old(st).idle(),
        ensures
            final(st).wf(*self.image, *self.options),
            final(st).jobs@ == old(st).jobs@,
            !final(st).finished,
            asked == (final(st).pending is Some),
            asked ==> final(st).next == old(st).next && final(st).answers@ == old(st).answers@,
            !asked ==> final(st).next == old(st).next + 1 && final(st).answers@ == old(
                st,
            ).answers@.push(None),
    {
        proof {
            assert(jobs_view(st.jobs@)[st.next as int] == st.jobs@[st.next as int]@);
        }
        let head = classify_head(data.as_slice(), self.options);
        let ask = head.is_none() && match &st.file_cmd {
            Some(fc) => fc.wants(data.as_slice()),
            None => false,
        };
        if ask {
            st.pending = Some(Pending { title, data });
            return true;
        }
        let found = if head.is_some() {
            head
        } else {
            classify_tail(data.as_slice(), self.options)
        };
        self.complete(st, title, data, found, Ghost(None));
        false
    }

    /// Takes up a job whose data is looked up in the memory.
    fn start_cached(&self, st: &mut CheckState, title: String, data: Vec<u8>) -> (asked: bool)
        requires
            old(st).holds(*self.image, *self.options, None),
            old(st).idle(),
            ({
                let job = old(st).jobs@[old(st).next as int]@;
                &&& job_cached(job)
                &&& job_active(*self.image, job)
                &&& title@ == job_title(*self.image, job)
                &&& data@ == job_data(*self.image, *self.options, job)
            }),
        ensures
            final(st).wf(*self.image, *self.options),
            final(st).jobs@ == old(st).jobs@,
            !final(st).finished,
            asked == (final(st).pending is Some),
            asked ==> final(st).next == old(st).next && final(st).answers@ == old(st).answers@,
            !asked ==> final(st).next == old(st).next + 1 && final(st).answers@ == old(
                st,
            ).answers@.push(None),
    {
        let ghost empty = Seq::<OutputView>::empty();
        let ghost shown = st.report.output();
        proof {
            assert(jobs_view(st.jobs@)[st.next as int] == st.jobs@[st.next as int]@);
            assert(shown =~= outputs_after(
                *self.image,
                *self.options,
                jobs_view(st.jobs@),
                st.answers@,
                st.next as nat,
            ));
        }
        let sweep = match pass_of(&st.jobs[st.next]) {
            Pass::Sweep => true,
            _ => false,
        };
        if sweep && st.seen.knows(&title) {
            self.pass_over(st);
            return false;
        }
        match st.seen.record(&data, &title, sweep) {
            Some(first) => {
                self.repeat(st, title, first);
                false
            },
            None => {
                assert(shown + empty + empty =~= shown);
                self.classify(st, title, data)
            },
        }
    }

    /// Takes up a trailing segment: shows it, then has it classified.
    fn start_extra(&self, st: &mut CheckState, title: String, data: Vec<u8>) -> (asked: bool)
        requires
            old(st).holds(*self.image, *self.options, None),
            old(st).idle(),
            ({
                let job = old(st).jobs@[old(st).next as int]@;
                &&& job is Extra
                &&& job_active(*self.image, job)
                &&& title@ == job_title(*self.image, job)
                &&& data@ == job_data(*self.image, *self.options, job)
            }),
        ensures
            final(st).wf(*self.image, *self.options),
            final(st).jobs@ == old(st).jobs@,
            !final(st).finished,
            asked == (final(st).pending is Some),
            asked ==> final(st).next == old(st).next && final(st).answers@ == old(st).answers@,
            !asked ==> final(st).next == old(st).next + 1 && final(st).answers@ == old(
                st,
            ).answers@.push(None),
    {
        let ghost empty = Seq::<OutputView>::empty();
        let ghost shown = st.report.output();
        proof {
            assert(jobs_view(st.jobs@)[st.next as int] == st.jobs@[st.next as int]@);
            assert(shown =~= outputs_after(
                *self.image,
                *self.options,
                jobs_view(st.jobs@),
                st.answers@,
                st.next as nat,
            ));
        }
        if self.options.verbose >= 0 {
            st.report.emit(Output::ExtraNotice(data.len()));
        }
        st.report.emit(Output::Title(title.clone()));
        st.report.emit(Output::ExtraDump(dump(4, data.as_slice(), 0)));
        proof {
            let opening = extra_opening(self.options.verbose, title@, data@);
            assert(st.report.output() =~= shown + opening);
            assert(shown + opening + empty =~= shown + opening);
        }
        self.classify(st, title, data)
    }

    /// Takes up the next job. Returns whether the job now waits for the
    /// file-type classifier; if not, it is done.
    fn start(&self, st: &mut CheckState) -> (asked: bool)
        requires
            self.image.wf(),
            old(st).wf(*self.image, *self.options),
            old(st).idle(),
        ensures
            final(st).wf(*self.image, *self.options),
            final(st).jobs@ == old(st).jobs@,
            !final(st).finished,
            asked == (final(st).pending is Some),
            asked ==> final(st).next == old(st).next && final(st).answers@ == old(st).answers@,
            !asked ==> final(st).next == old(st).next + 1 && final(st).answers@ == old(
                st,
            ).answers@.push(None),
    {
        let ghost empty = Seq::<OutputView>::empty();
        let ghost shown = st.report.output();
        proof {
            lemma_jobs_valid(*self.image, *self.options, st.next as int);
            assert(jobs_view(st.jobs@)[st.next as int] == st.jobs@[st.next as int]@);
            assert(shown =~= outputs_after(
                *self.image,
                *self.options,
                jobs_view(st.jobs@),
                st.answers@,
                st.next as nat,
            ));
            assert(shown + empty + empty =~= shown);
        }
        let pass = pass_of(&st.jobs[st.next]);
        match self.prepare(&st.jobs[st.next]) {
            None => {
                self.pass_over(st);
                false
            },
            Some((title, data)) => {
                match pass {
                    Pass::Extra => self.start_extra(st, title, data),
                    Pass::ImageData => self.classify(st, title, data),
                    _ => self.start_cached(st, title, data),
                }
            },
        }
    }

    /// Settles the job that waits for the file-type classifier with the
    /// classifier's answer.
    fn resume(&self, st: &mut CheckState, answer: Option<&[u8]>)
        requires
            self.image.wf(),
            old(st).wf(*self.image, *self.options),
            old(st).pending is Some,
        ensures
            final(st).wf(*self.image, *self.options),
            final(st).jobs@ == old(st).jobs@,
            final(st).pending is None,
            !final(st).finished,
            final(st).next == old(st).next + 1,
            final(st).answers@ == old(st).answers@.push(opt_slice(answer)),
    {
        proof {
            assert(jobs_view(st.jobs@)[st.next as int] == st.jobs@[st.next as int]@);
        }
        match st.pending.take() {
            Some(p) => {
                let file = match &st.file_cmd {
                    Some(fc) => fc.data2result(p.data.as_slice(), answer),
                    None => None,
                };
                let found = if file.is_some() {
                    file
                } else {
                    classify_tail(p.data.as_slice(), self.options)
                };
                self.complete(st, p.title, p.data, found, Ghost(opt_slice(answer)));
            },
            None => {},
        }
    }

    /// Takes the scan one step further: up to the next byte sequence that
    /// the file-type classifier has to be asked about, or to its end.
    /// `answer` is what the classifier wrote about the sequence that the
    /// step before asked about; `None` if it was not asked, could not be
    /// run or failed.
    pub fn advance(&self, st: &mut CheckState, answer: Option<&[u8]>) -> (step: Step)
        requires
            self.image.wf(),
            old(st).wf(*self.image, *self.options),
        ensures
            final(st).wf(*self.image, *self.options),
            final(st).jobs() == old(st).jobs(),
            step == Step::Done <==> final(st).is_finished(),
            step == Step::AskFile <==> final(st).is_waiting(),
            step == Step::Done ==> final(st).position() == final(st).jobs().len(),
            old(st).position() <= final(st).position(),
            old(st).answers().is_prefix_of(final(st).answers()),
            old(st).is_waiting() ==> final(st).answers()[old(st).position() as int] == opt_slice(
                answer,
            ),
            forall|i: int|
                old(st).position() + (if old(st).is_waiting() {
                    1int
                } else {
                    0int
                }) <= i < final(st).position() ==> (#[trigger] final(st).answers()[i]) is None,
            !old(st).is_finished() ==> final(st).remaining() < old(st).remaining(),
            old(st).is_finished() ==> final(st).findings() == old(st).findings(),
            old(st).is_finished() ==> final(st).history() == old(st).history(),
            final(st).answers().len() == final(st).position(),
            final(st).findings() == findings_after(
                *self.image,
                *self.options,
                final(st).jobs(),
                final(st).answers(),
                final(st).position(),
            ),
            final(st).found_anything() == found_after(
                *self.image,
                *self.options,
                final(st).jobs(),
                final(st).answers(),
                final(st).position(),
            ),
            final(st).history() == history_after(
                *self.image,
                *self.options,
                final(st).jobs(),
                final(st).position() + (if final(st).is_waiting() {
                    1nat
                } else {
                    0nat
                }),
            ),
            final(st).need_cr() == need_cr_after(
                *self.image,
                *self.options,
                final(st).jobs(),
                final(st).answers(),
                final(st).position(),
            ),
            final(st).output() == outputs_after(
                *self.image,
                *self.options,
                final(st).jobs(),
                final(st).answers(),
                final(st).position(),
            ) + (if final(st).is_waiting() && final(st).jobs()[final(st).position() as int]
                is Extra {
                extra_opening(
                    self.options.verbose,
                    job_title(*self.image, final(st).jobs()[final(st).position() as int]),
                    final(st).question(),
                )
            } else {
                Seq::empty()
            }) + (if step == Step::Done {
                closing(final(st).found_anything(), final(st).need_cr())
            } else {
                Seq::empty()
            }),
    {
        if st.finished {
            return Step::Done;
        }
        if st.pending.is_some() {
            self.resume(st, answer);
        }
        while st.next < st.jobs.len()
            invariant
                self.image.wf(),
                st.wf(*self.image, *self.options),
                st.jobs@ == old(st).jobs@,
                st.pending is None,
                !st.finished,
                !old(st).finished,
                old(st).pending is None ==> old(st).next <= st.next,
                old(st).pending is Some ==> old(st).next < st.next,
                old(st).answers@.is_prefix_of(st.answers@),
                st.answers@.len() == st.next,
                old(st).pending is Some ==> st.answers@[old(st).next as int] == opt_slice(answer),
                forall|i: int|
                    old(st).next + (if old(st).pending is Some {
                        1int
                    } else {
                        0int
                    }) <= i < st.next ==> (#[trigger] st.answers@[i]) is None,
            decreases st.jobs@.len() - st.next,
        {
            let asked = self.start(st);
            if asked {
                return Step::AskFile;
            }
        }
        let ghost shown = st.report.output();
        if st.found_anything {
            if st.need_cr {
                st.report.emit(Output::ClearLine);
            }
        } else {
            st.report.emit(Output::Nothing);
        }
        st.finished = true;
        proof {
            let base = outputs_after(
                *self.image,
                *self.options,
                jobs_view(st.jobs@),
                st.answers@,
                st.next as nat,
            );
            let end = closing(st.found_anything, st.need_cr);
            assert(shown =~= base);
            assert(st.report.output() =~= base + Seq::<OutputView>::empty() + end);
        }
        Step::Done
    }

    /// Takes the scan one step further without an answer.
    fn advance_unanswered(&self, st: &mut CheckState) -> (step: Step)
        requires
            self.image.wf(),
            old(st).wf(*self.image, *self.options),
            no_answers(old(st).answers()),
        ensures
            final(st).wf(*self.image, *self.options),
            no_answers(final(st).answers()),
            step == Step::Done <==> final(st).is_finished(),
            step == Step::Done ==> final(st).position() == final(st).jobs().len(),
            !old(st).is_finished() ==> final(st).remaining() < old(st).remaining(),
    {
        let ghost before = st.answers();
        let ghost waiting = st.is_waiting();
        proof {
            st.lemma_findings(*self.image, *self.options);
        }
        let step = self.advance(st, None);
        proof {
            st.lemma_findings(*self.image, *self.options);
            lemma_no_answers(before, st.answers(), waiting);
        }
        step
    }

    /// Runs the scan from start to end without a file-type classifier at
    /// hand: where the chain would ask it, it goes without an answer.
    /// Returns the findings, and what there is to print.
    pub fn check(&self) -> (r: (Vec<DetectResult>, Vec<Output>))
        requires
            self.image.wf(),
        ensures
            crate::report::findings_view(r.0@) == spec_check(*self.image, *self.options),
            crate::report::outputs_view(r.1@) == spec_check_output(*self.image, *self.options),
    {
        let mut st = self.begin();
        proof {
            st.lemma_findings(*self.image, *self.options);
        }
        let mut step = self.advance_unanswered(&mut st);
        while step == Step::AskFile
            invariant
                self.image.wf(),
                st.wf(*self.image, *self.options),
                no_answers(st.answers()),
                step == Step::Done <==> st.is_finished(),
                step == Step::Done ==> st.position() == st.jobs().len(),
            decreases st.remaining(),
        {
            step = self.advance_unanswered(&mut st);
        }
        proof {
            st.lemma_findings(*self.image, *self.options);
            let jobs = spec_jobs(*self.image, *self.options);
            assert(st.answers() =~= Seq::new(jobs.len(), |i: int| None::<Seq<u8>>));
        }
        st.into_parts()
    }
}

} // verus!
