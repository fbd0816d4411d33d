//! What a scan has to say: the findings it keeps, and the lines that its
//! caller is to print.

use vstd::prelude::*;
use crate::hexdump::{dump, dump_bytes};
use crate::result::{DetectResult, DetectResultView};
use crate::text::ascii_chars;

verus! {

/// One thing for the caller to print.
#[derive(Debug, Clone)]
pub enum Output {
    /// The label of the attempt that the following output belongs to.
    Title(String),
    /// The finding with the given index in the list of findings.
    Finding(usize),
    /// The data is the same as that of an earlier attempt with this label.
    SameAs(String),
    /// A hex dump of the data, behind an empty line.
    Dump(String),
    /// A hex dump of trailing data, between two empty lines.
    ExtraDump(String),
    /// Notice that so many bytes follow the end of the image.
    ExtraNotice(usize),
    /// The end of the scan: something was found, and the line with the last
    /// label is to be cleared.
    ClearLine,
    /// The end of the scan: nothing was found.
    Nothing,
}

/// Mathematical counterpart of [`Output`].
pub enum OutputView {
    Title(Seq<char>),
    Finding(nat),
    SameAs(Seq<char>),
    Dump(Seq<char>),
    ExtraDump(Seq<char>),
    ExtraNotice(nat),
    ClearLine,
    Nothing,
}

impl View for Output {
    type V = OutputView;

    open spec fn view(&self) -> OutputView {
        match self {
            Output::Title(t) => OutputView::Title(t@),
            Output::Finding(i) => OutputView::Finding(*i as nat),
            Output::SameAs(t) => OutputView::SameAs(t@),
            Output::Dump(t) => OutputView::Dump(t@),
            Output::ExtraDump(t) => OutputView::ExtraDump(t@),
            Output::ExtraNotice(n) => OutputView::ExtraNotice(*n as nat),
            Output::ClearLine => OutputView::ClearLine,
            Output::Nothing => OutputView::Nothing,
        }
    }
}

/// The views of a list of outputs.
pub open spec fn outputs_view(s: Seq<Output>) -> Seq<OutputView> {
    s.map_values(|o: Output| o@)
}

/// The views of a list of findings.
pub open spec fn findings_view(s: Seq<DetectResult>) -> Seq<DetectResultView> {
    s.map_values(|r: DetectResult| r@)
}

/// What is done about the outcome of one attempt.
pub struct Verdict {
    /// The label is shown.
    pub title: bool,
    /// The finding is shown and kept.
    pub keep: bool,
    /// A hex dump of the data is shown.
    pub dump: bool,
    /// The attempt counts as shown.
    pub shown: bool,
}

/// A finding that is worth reporting at any verbosity: any but a repeated
/// single byte.
pub open spec fn is_interesting(found: Option<DetectResultView>) -> bool {
    found matches Some(r) && !(r is OneChar)
}

/// What the verbosity makes of an attempt. At normal verbosity and below,
/// only an interesting finding is shown, without a dump. Above, every
/// finding is shown with a dump, the label also without a finding if
/// `always` is set, and at the highest verbosity the dump also without a
/// finding.
pub open spec fn spec_verdict(verbose: i32, always: bool, found: Option<DetectResultView>) -> Verdict {
    if verbose <= 0 {
        let hit = is_interesting(found);
        Verdict { title: hit, keep: hit, dump: false, shown: hit }
    } else {
        Verdict {
            title: always || found is Some,
            keep: found is Some,
            dump: found is Some || verbose > 1,
            shown: found is Some || verbose > 1,
        }
    }
}

/// The outputs that a verdict gives rise to; `index` is the place that the
/// finding takes in the list of findings.
pub open spec fn verdict_outputs(v: Verdict, title: Seq<char>, index: nat, dumped: Seq<char>) -> Seq<
    OutputView,
> {
    (if v.title {
        seq![OutputView::Title(title)]
    } else {
        Seq::empty()
    }) + (if v.keep {
        seq![OutputView::Finding(index)]
    } else {
        Seq::empty()
    }) + (if v.dump {
        seq![OutputView::Dump(dumped)]
    } else {
        Seq::empty()
    })
}

/// The hex dump that goes with an attempt.
pub open spec fn dump_text(data: Seq<u8>, limit: nat) -> Seq<char> {
    ascii_chars(dump_bytes(4, data, limit))
}

/// The findings and the output of a scan.
pub struct Reporter {
    findings: Vec<DetectResult>,
    output: Vec<Output>,
}

impl Reporter {
    /// The findings so far.
    pub closed spec fn findings(&self) -> Seq<DetectResultView> {
        findings_view(self.findings@)
    }

    /// The output so far.
    pub closed spec fn output(&self) -> Seq<OutputView> {
        outputs_view(self.output@)
    }

    /// A reporter with nothing to report.
    pub fn new() -> (r: Self)
        ensures
            r.findings() == Seq::<DetectResultView>::empty(),
            r.output() == Seq::<OutputView>::empty(),
    {
        let r = Reporter { findings: Vec::new(), output: Vec::new() };
        assert(r.findings() =~= Seq::<DetectResultView>::empty());
        assert(r.output() =~= Seq::<OutputView>::empty());
        r
    }

    /// Number of findings.
    pub fn count(&self) -> (n: usize)
        ensures
            n == self.findings().len(),
    {
        self.findings.len()
    }

    /// Adds one output.
    pub fn emit(&mut self, o: Output)
        ensures
            final(self).findings() == old(self).findings(),
            final(self).output() == old(self).output().push(o@),
    {
        let ghost before = self.output@;
        self.output.push(o);
        assert(outputs_view(self.output@) =~= outputs_view(before).push(o@));
    }

    /// Keeps a finding, and has it shown.
    pub fn keep(&mut self, found: DetectResult)
        ensures
            final(self).findings() == old(self).findings().push(found@),
            final(self).output() == old(self).output().push(
                OutputView::Finding(old(self).findings().len()),
            ),
    {
        let ghost before = self.findings@;
        let index = self.findings.len();
        self.findings.push(found);
        assert(findings_view(self.findings@) =~= findings_view(before).push(found@));
        self.emit(Output::Finding(index));
    }

    /// Reports the outcome of one attempt as the verbosity asks for it.
    /// Returns whether the attempt counts as shown.
    pub fn conclude(
        &mut self,
        verbose: i32,
        limit: usize,
        title: String,
        data: &Vec<u8>,
        always: bool,
        found: Option<DetectResult>,
    ) -> (shown: bool)
        ensures
            shown == spec_verdict(verbose, always, crate::result::opt_view(found)).shown,
            final(self).findings() == (if spec_verdict(
                verbose,
                always,
                crate::result::opt_view(found),
            ).keep {
                old(self).findings().push(found->0@)
            } else {
                old(self).findings()
            }),
            final(self).output() == old(self).output() + verdict_outputs(
                spec_verdict(verbose, always, crate::result::opt_view(found)),
                title@,
                old(self).findings().len(),
                dump_text(data@, limit as nat),
            ),
    {
        let ghost v = spec_verdict(verbose, always, crate::result::opt_view(found));
        let ghost out0 = self.output();
        let ghost index = self.findings().len();
        let ghost dumped = dump_text(data@, limit as nat);
        let interesting = match &found {
            Some(r) => !r.is_one_char(),
            None => false,
        };
        let has = found.is_some();
        let show_title = if verbose <= 0 {
            interesting
        } else {
            always || has
        };
        let keep = if verbose <= 0 {
            interesting
        } else {
            has
        };
        let with_dump = verbose > 0 && (has || verbose > 1);
        assert(show_title == v.title && keep == v.keep && with_dump == v.dump);
        if show_title {
            self.emit(Output::Title(title));
        }
        if keep {
            match found {
                Some(r) => {
                    self.keep(r);
                },
                None => {},
            }
        }
        if with_dump {
            self.emit(Output::Dump(dump(4, data.as_slice(), limit)));
        }
        assert(self.output() =~= out0 + verdict_outputs(v, title@, index, dumped));
        if verbose <= 0 {
            interesting
        } else {
            has || verbose > 1
        }
    }

    /// Reports that the data of an attempt has been seen before, first
    /// under the label `first`: at the highest verbosity with the label and
    /// a reference, else not at all. Returns whether the attempt counts as
    /// shown.
    pub fn duplicate(&mut self, verbose: i32, title: String, first: String) -> (shown: bool)
        ensures
            shown == (verbose > 1),
            final(self).findings() == old(self).findings(),
            final(self).output() == old(self).output() + (if verbose > 1 {
                seq![OutputView::Title(title@), OutputView::SameAs(first@)]
            } else {
                Seq::empty()
            }),
    {
        let ghost out0 = self.output();
        if verbose > 1 {
            self.emit(Output::Title(title));
            self.emit(Output::SameAs(first));
            assert(self.output() =~= out0 + seq![
                OutputView::Title(title@),
                OutputView::SameAs(first@),
            ]);
            true
        } else {
            assert(self.output() =~= out0 + Seq::<OutputView>::empty());
            false
        }
    }

    /// The output so far.
    pub fn printed(&self) -> (out: &Vec<Output>)
        ensures
            outputs_view(out@) == self.output(),
    {
        &self.output
    }

    /// The findings.
    pub fn results(&self) -> (r: &Vec<DetectResult>)
        ensures
            findings_view(r@) == self.findings(),
    {
        &self.findings
    }

    /// The findings and the output, for good.
    pub fn into_parts(self) -> (r: (Vec<DetectResult>, Vec<Output>))
        ensures
            findings_view(r.0@) == self.findings(),
            outputs_view(r.1@) == self.output(),
    {
        (self.findings, self.output)
    }
}

} // verus!
