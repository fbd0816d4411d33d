//! A scan as mathematics: the jobs it is made of, and what each of them
//! adds to the lookups, the findings and the output.

use vstd::prelude::*;
use crate::detect::{spec_classify, wants_wbstego};
use crate::extractor::spec_extract;
use crate::file_cmd::spec_file_result;
use crate::imageio::Image;
use crate::opts::Options;
use crate::plan::{
    spec_combination_config, spec_combination_title, spec_sweep, Combination, CombinationView,
};
use crate::report::{dump_text, is_interesting, spec_verdict, verdict_outputs, OutputView};
use crate::result::DetectResultView;
use crate::seen::{
    due_outcome, faithful, first_label, lemma_first_wins, lemma_one_more_lookup,
    sweep_labels_distinct, used_label, Lookup, Outcome,
};
use crate::text::{decimal, utf8_text};

verus! {

// ---------------------------------------------------------------------------
// Jobs
// ---------------------------------------------------------------------------
/// One piece of work of a scan.
#[derive(Debug, Clone, PartialEq, Eq)]
pub enum Job {
    /// The value of the metadata entry with this index.
    Meta(usize),
    /// The raw byte stream as a whole.
    ImageData,
    /// The trailing data segment with this index.
    Extra(usize),
    /// The payload of the chunk with this index.
    Chunk(usize),
    /// One combination of the sweep.
    Sweep(Combination),
}

/// Mathematical counterpart of [`Job`].
pub enum JobView {
    Meta(nat),
    ImageData,
    Extra(nat),
    Chunk(nat),
    Sweep(CombinationView),
}

impl View for Job {
    type V = JobView;

    open spec fn view(&self) -> JobView {
        match self {
            Job::Meta(i) => JobView::Meta(*i as nat),
            Job::ImageData => JobView::ImageData,
            Job::Extra(i) => JobView::Extra(*i as nat),
            Job::Chunk(i) => JobView::Chunk(*i as nat),
            Job::Sweep(c) => JobView::Sweep(c@),
        }
    }
}

/// The views of a list of jobs.
pub open spec fn jobs_view(s: Seq<Job>) -> Seq<JobView> {
    s.map_values(|j: Job| j@)
}

/// The jobs of a scan in their order: every metadata value, the raw byte
/// stream, every trailing segment, every chunk, then the sweep.
pub open spec fn spec_jobs(image: Image, options: Options) -> Seq<JobView> {
    Seq::new(image.metadata@.len(), |i: int| JobView::Meta(i as nat)) + seq![JobView::ImageData]
        + Seq::new(image.extradata@.len(), |i: int| JobView::Extra(i as nat)) + Seq::new(
        image.chunks@.len(),
        |i: int| JobView::Chunk(i as nat),
    ) + spec_sweep(image, options).map_values(|c: CombinationView| JobView::Sweep(c))
}

/// The job speaks of something that the image has.
pub open spec fn job_valid(image: Image, job: JobView) -> bool {
    match job {
        JobView::Meta(i) => i < image.metadata@.len(),
        JobView::Extra(i) => i < image.extradata@.len(),
        JobView::Chunk(i) => i < image.chunks@.len(),
        _ => true,
    }
}

/// The type `IDAT` of the chunks that hold the pixel data.
pub open spec fn idat() -> Seq<u8> {
    seq![0x49u8, 0x44u8, 0x41u8, 0x54u8]
}

/// Whether the job is done at all: an empty trailing segment is passed
/// over, and so is a chunk of fewer than 5 bytes or of pixel data.
pub open spec fn job_active(image: Image, job: JobView) -> bool {
    match job {
        JobView::Extra(i) => image.extradata@[i as int]@.len() > 0,
        JobView::Chunk(i) => image.chunks@[i as int].data@.len() >= 5 && image.chunks@[i as int].ty@
            != idat(),
        _ => true,
    }
}

/// Whether the job's data is looked up in the memory: metadata, chunks and
/// the sweep are; the raw byte stream and trailing data are not.
pub open spec fn job_cached(job: JobView) -> bool {
    job is Meta || job is Chunk || job is Sweep
}

/// The type of a chunk as text; `????` where it is no text.
pub open spec fn chunk_type_text(ty: Seq<u8>) -> Seq<char> {
    match utf8_text(ty) {
        Some(t) => t,
        None => "????"@,
    }
}

/// The label of a job.
pub open spec fn job_title(image: Image, job: JobView) -> Seq<char> {
    match job {
        JobView::Meta(i) => "meta "@ + image.metadata@[i as int].0@,
        JobView::ImageData => "imagedata"@,
        JobView::Extra(i) => "extradata:"@ + decimal(i),
        JobView::Chunk(i) => "chunk:"@ + decimal(i) + ":"@ + chunk_type_text(
            image.chunks@[i as int].ty@,
        ),
        JobView::Sweep(c) => spec_combination_title(c),
    }
}

/// The byte sequence that a job classifies. For a combination of the sweep
/// it is what the extraction yields.
pub open spec fn job_data(image: Image, options: Options, job: JobView) -> Seq<u8> {
    match job {
        JobView::Meta(i) => vstd::utf8::encode_utf8(image.metadata@[i as int].1@),
        JobView::ImageData => image.imagedata@,
        JobView::Extra(i) => image.extradata@[i as int]@,
        JobView::Chunk(i) => image.chunks@[i as int].data@,
        JobView::Sweep(c) => spec_extract(image, spec_combination_config(options, c)),
    }
}

/// The lookups behind one more job. A job that is passed over or not
/// looked up adds none, and neither does a combination whose label the
/// sweep has been through. Every other job adds one lookup with the outcome
/// that is due.
pub open spec fn next_history(image: Image, options: Options, h: Seq<Lookup>, job: JobView) -> Seq<
    Lookup,
> {
    if !job_cached(job) || !job_active(image, job) {
        h
    } else if job is Sweep && used_label(h, job_title(image, job)) {
        h
    } else {
        h.push(
            Lookup {
                label: job_title(image, job),
                data: job_data(image, options, job),
                sweep: job is Sweep,
                outcome: due_outcome(h, job_data(image, options, job)),
            },
        )
    }
}

/// The lookups behind the first `k` jobs.
pub open spec fn history_after(image: Image, options: Options, jobs: Seq<JobView>, k: nat) -> Seq<
    Lookup,
>
    decreases k,
{
    if k == 0 {
        Seq::empty()
    } else {
        next_history(
            image,
            options,
            history_after(image, options, jobs, (k - 1) as nat),
            jobs[k - 1],
        )
    }
}

/// In every scan, whatever the image, the options and the jobs: each
/// lookup has the outcome that is due to it, so that of all lookups of one
/// byte sequence the first is classified and every later one is recorded as
/// a duplicate under the first one's label; and no two lookups of the sweep
/// have the same label.
pub proof fn lemma_scan_memory(image: Image, options: Options, jobs: Seq<JobView>, k: nat)
    ensures
        faithful(history_after(image, options, jobs, k)),
        sweep_labels_distinct(history_after(image, options, jobs, k)),
        forall|t: int|
            0 <= t < history_after(image, options, jobs, k).len() ==> ((
            #[trigger] history_after(image, options, jobs, k)[t]).outcome is Classified <==> (
            forall|s: int|
                0 <= s < t ==> (#[trigger] history_after(image, options, jobs, k)[s]).data
                    != history_after(image, options, jobs, k)[t].data)),
        forall|s: int, t: int|
            0 <= s < t < history_after(image, options, jobs, k).len() && (
            #[trigger] history_after(image, options, jobs, k)[s]).data == (
            #[trigger] history_after(image, options, jobs, k)[t]).data && history_after(
                image,
                options,
                jobs,
                k,
            )[s].outcome is Classified ==> history_after(image, options, jobs, k)[t].outcome
                == Outcome::Duplicate(history_after(image, options, jobs, k)[s].label),
    decreases k,
{
    if k > 0 {
        lemma_scan_memory(image, options, jobs, (k - 1) as nat);
        let h = history_after(image, options, jobs, (k - 1) as nat);
        let job = jobs[k - 1];
        if history_after(image, options, jobs, k) != h {
            lemma_one_more_lookup(
                h,
                Lookup {
                    label: job_title(image, job),
                    data: job_data(image, options, job),
                    sweep: job is Sweep,
                    outcome: due_outcome(h, job_data(image, options, job)),
                },
            );
        }
    }
    lemma_first_wins(history_after(image, options, jobs, k));
}

/// Whether the label of a job is shown also where nothing is found, at
/// raised verbosity: for the special passes it is, for the sweep it is not.
pub open spec fn shows_title_always(job: JobView) -> bool {
    !(job is Sweep)
}

/// What the detector chain makes of a job's data. `answer` is what the
/// file-type classifier wrote about it, if it was asked and did answer.
pub open spec fn job_found(
    image: Image,
    options: Options,
    job: JobView,
    answer: Option<Seq<u8>>,
) -> Option<DetectResultView> {
    let data = job_data(image, options, job);
    spec_classify(
        data,
        wants_wbstego(options),
        options.min_str_len as nat,
        spec_file_result(options.file_cmd, data, answer),
    )
}

/// Whether what the chain found is kept as a finding: in the passes over
/// the raw byte stream and trailing data anything of interest, elsewhere
/// what the verbosity has shown.
pub open spec fn kept(verbose: i32, job: JobView, found: Option<DetectResultView>) -> bool {
    if job_cached(job) {
        spec_verdict(verbose, shows_title_always(job), found).keep
    } else {
        is_interesting(found)
    }
}

/// Whether a job whose data was new counts as having shown something:
/// trailing data always does, the raw byte stream with a finding of
/// interest, the others as the verbosity has it.
pub open spec fn shown_fresh(verbose: i32, job: JobView, found: Option<DetectResultView>) -> bool {
    if job is Extra {
        true
    } else if job is ImageData {
        is_interesting(found)
    } else {
        spec_verdict(verbose, shows_title_always(job), found).shown
    }
}

/// Whether a job gets as far as the detector chain, with the lookups `h`
/// before it: it must not be passed over, and if its data is looked up, its
/// label and its data must be new.
pub open spec fn job_classified(image: Image, options: Options, h: Seq<Lookup>, job: JobView) -> bool {
    &&& job_active(image, job)
    &&& job_cached(job) ==> {
        &&& !(job is Sweep && used_label(h, job_title(image, job)))
        &&& first_label(h, job_data(image, options, job)) is None
    }
}

/// The findings behind one more job.
pub open spec fn next_findings(
    image: Image,
    options: Options,
    h: Seq<Lookup>,
    findings: Seq<DetectResultView>,
    job: JobView,
    answer: Option<Seq<u8>>,
) -> Seq<DetectResultView> {
    let found = job_found(image, options, job, answer);
    if job_classified(image, options, h, job) && kept(options.verbose, job, found) {
        findings.push(found->0)
    } else {
        findings
    }
}

/// Whether one more job shows something: a job that gets as far as the
/// chain as `shown_fresh` says, a duplicate only at the highest verbosity,
/// a job that is passed over never.
pub open spec fn job_shown(
    image: Image,
    options: Options,
    h: Seq<Lookup>,
    job: JobView,
    answer: Option<Seq<u8>>,
) -> bool {
    if job_classified(image, options, h, job) {
        shown_fresh(options.verbose, job, job_found(image, options, job, answer))
    } else {
        &&& job_active(image, job)
        &&& !(job is Sweep && used_label(h, job_title(image, job)))
        &&& options.verbose > 1
    }
}

/// The findings behind the first `k` jobs, `answers[i]` being the file-type
/// classifier's answer about job `i`.
pub open spec fn findings_after(
    image: Image,
    options: Options,
    jobs: Seq<JobView>,
    answers: Seq<Option<Seq<u8>>>,
    k: nat,
) -> Seq<DetectResultView>
    decreases k,
{
    if k == 0 {
        Seq::empty()
    } else {
        next_findings(
            image,
            options,
            history_after(image, options, jobs, (k - 1) as nat),
            findings_after(image, options, jobs, answers, (k - 1) as nat),
            jobs[k - 1],
            answers[k - 1],
        )
    }
}

/// Whether one of the first `k` jobs has shown something.
pub open spec fn found_after(
    image: Image,
    options: Options,
    jobs: Seq<JobView>,
    answers: Seq<Option<Seq<u8>>>,
    k: nat,
) -> bool
    decreases k,
{
    if k == 0 {
        false
    } else {
        found_after(image, options, jobs, answers, (k - 1) as nat) || job_shown(
            image,
            options,
            history_after(image, options, jobs, (k - 1) as nat),
            jobs[k - 1],
            answers[k - 1],
        )
    }
}

/// What a pass over trailing data shows before anything else: a notice
/// unless the scan is quiet, the label, and a dump of all of the data.
pub open spec fn extra_opening(verbose: i32, title: Seq<char>, data: Seq<u8>) -> Seq<OutputView> {
    (if verbose >= 0 {
        seq![OutputView::ExtraNotice(data.len())]
    } else {
        Seq::empty()
    }) + seq![OutputView::Title(title), OutputView::ExtraDump(dump_text(data, 0))]
}

/// What is shown of what the chain made of a job: for the raw byte stream
/// the label and the finding, if it is of interest; for trailing data the
/// finding, if it is of interest; for the others what the verbosity asks
/// for. `index` is the place that the finding takes among the findings.
pub open spec fn fresh_outputs(
    options: Options,
    job: JobView,
    title: Seq<char>,
    data: Seq<u8>,
    index: nat,
    found: Option<DetectResultView>,
) -> Seq<OutputView> {
    if job is ImageData {
        if is_interesting(found) {
            seq![OutputView::Title(title), OutputView::Finding(index)]
        } else {
            Seq::empty()
        }
    } else if job is Extra {
        if is_interesting(found) {
            seq![OutputView::Finding(index)]
        } else {
            Seq::empty()
        }
    } else {
        verdict_outputs(
            spec_verdict(options.verbose, shows_title_always(job), found),
            title,
            index,
            dump_text(data, options.limit as nat),
        )
    }
}

/// Whether a job's data was seen before under another label: the job is
/// not passed over, its label is new, but its data is in the memory.
pub open spec fn job_duplicate(image: Image, options: Options, h: Seq<Lookup>, job: JobView) -> bool {
    &&& job_active(image, job)
    &&& job_cached(job)
    &&& !(job is Sweep && used_label(h, job_title(image, job)))
    &&& first_label(h, job_data(image, options, job)) is Some
}

/// What one more job shows. A duplicate is shown only at the highest
/// verbosity, as its label and the label that had the data first.
pub open spec fn job_outputs(
    image: Image,
    options: Options,
    h: Seq<Lookup>,
    index: nat,
    job: JobView,
    answer: Option<Seq<u8>>,
) -> Seq<OutputView> {
    let title = job_title(image, job);
    let data = job_data(image, options, job);
    if job_classified(image, options, h, job) {
        (if job is Extra {
            extra_opening(options.verbose, title, data)
        } else {
            Seq::empty()
        }) + fresh_outputs(
            options,
            job,
            title,
            data,
            index,
            job_found(image, options, job, answer),
        )
    } else if job_duplicate(image, options, h, job) && options.verbose > 1 {
        seq![OutputView::Title(title), OutputView::SameAs(first_label(h, data)->0)]
    } else {
        Seq::empty()
    }
}

/// What the first `k` jobs show.
pub open spec fn outputs_after(
    image: Image,
    options: Options,
    jobs: Seq<JobView>,
    answers: Seq<Option<Seq<u8>>>,
    k: nat,
) -> Seq<OutputView>
    decreases k,
{
    if k == 0 {
        Seq::empty()
    } else {
        outputs_after(image, options, jobs, answers, (k - 1) as nat) + job_outputs(
            image,
            options,
            history_after(image, options, jobs, (k - 1) as nat),
            findings_after(image, options, jobs, answers, (k - 1) as nat).len(),
            jobs[k - 1],
            answers[k - 1],
        )
    }
}

/// Whether the line with the last label is still to be cleared behind the
/// first `k` jobs: the last chunk or combination that was looked up showed
/// nothing.
pub open spec fn need_cr_after(
    image: Image,
    options: Options,
    jobs: Seq<JobView>,
    answers: Seq<Option<Seq<u8>>>,
    k: nat,
) -> bool
    decreases k,
{
    if k == 0 {
        false
    } else {
        let h = history_after(image, options, jobs, (k - 1) as nat);
        let job = jobs[k - 1];
        if (job is Chunk || job is Sweep) && (job_classified(image, options, h, job)
            || job_duplicate(image, options, h, job)) {
            !job_shown(image, options, h, job, answers[k - 1])
        } else {
            need_cr_after(image, options, jobs, answers, (k - 1) as nat)
        }
    }
}

/// What the scan shows at its end: nothing more if something was shown
/// last, a cleared line if something was found but the last label stands
/// alone, and the news that there is nothing if nothing was found.
pub open spec fn closing(found: bool, need_cr: bool) -> Seq<OutputView> {
    if found {
        if need_cr {
            seq![OutputView::ClearLine]
        } else {
            Seq::empty()
        }
    } else {
        seq![OutputView::Nothing]
    }
}

/// The findings of a whole scan that never gets an answer from the
/// file-type classifier.
pub open spec fn spec_check(image: Image, options: Options) -> Seq<DetectResultView> {
    let jobs = spec_jobs(image, options);
    findings_after(
        image,
        options,
        jobs,
        Seq::new(jobs.len(), |i: int| None::<Seq<u8>>),
        jobs.len(),
    )
}

/// What a whole scan shows that never gets an answer from the file-type
/// classifier.
pub open spec fn spec_check_output(image: Image, options: Options) -> Seq<OutputView> {
    let jobs = spec_jobs(image, options);
    let answers = Seq::new(jobs.len(), |i: int| None::<Seq<u8>>);
    outputs_after(image, options, jobs, answers, jobs.len()) + closing(
        found_after(image, options, jobs, answers, jobs.len()),
        need_cr_after(image, options, jobs, answers, jobs.len()),
    )
}

} // verus!
