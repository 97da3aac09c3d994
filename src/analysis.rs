//! Analyses run over every record of a reference genome.

pub mod ndetect;
pub mod par;

use vstd::prelude::*;

use self::ndetect::{masked_runs, names_of, region_is, NRegionDetectionAnalysis};
use self::par::{captured, describes_scan, scan_succeeds, PseudoAutosomalRegionAnalysis};
use crate::sequence::Record;

verus! {

/// Which sex chromosome an error speaks of.
#[derive(Clone, Copy, Debug, PartialEq, Eq, Structural)]
pub enum Chromosome {
    /// Chromosome X, the record named `chrX`.
    X,
    /// Chromosome Y, the record named `chrY`.
    Y,
}

/// The ways an analysis fails.
#[derive(Clone, Copy, Debug, PartialEq, Eq, Structural)]
pub enum AnalysisError {
    /// A position of zero, or outside a sequence, was used to address it.
    InvalidPosition,
    /// A scan walked off either end of a sequence.
    OutOfRange,
    /// A chromosome that an analysis needs never appeared in the input.
    MissingChromosome(Chromosome),
}

/// An analysis over the records of a genome. Each record is handed to
/// `process` once, in file order; `postprocess` is then called once to
/// aggregate what was gathered; once it has succeeded, the analysis holds
/// finished results that a report can show.
pub trait Analysis: Sized {
    /// The display label of the analysis.
    spec fn label(&self) -> Seq<char>;

    /// What processing `record` makes of `old`, with the outcome `r`.
    spec fn process_step(old: Self, new: Self, record: Record, r: Result<(), AnalysisError>) -> bool;

    /// What postprocessing makes of `old`, with the outcome `r`.
    spec fn postprocess_step(old: Self, new: Self, r: Result<(), AnalysisError>) -> bool;

    /// Whether the analysis holds the finished results of postprocessing.
    spec fn reportable(&self) -> bool;

    /// Display label of the analysis.
    fn name(&self) -> (r: &'static str)
        ensures
            r@ == self.label(),
    ;

    /// Takes one record into the analysis.
    fn process(&mut self, record: &Record) -> (r: Result<(), AnalysisError>)
        ensures
            Self::process_step(*old(self), *final(self), *record, r),
    ;

    /// Aggregates the results once every record has been processed.
    fn postprocess(&mut self) -> (r: Result<(), AnalysisError>)
        ensures
            Self::postprocess_step(*old(self), *final(self), r),
            r is Ok ==> final(self).reportable(),
    ;
}

/// One of the analyses this library offers.
#[derive(Debug)]
pub enum AnyAnalysis {
    /// Pseudoautosomal region scanning of chromosomes X and Y.
    PseudoAutosomalRegion(PseudoAutosomalRegionAnalysis),
    /// Detection of N-masked regions.
    NRegionDetection(NRegionDetectionAnalysis),
}

impl AnyAnalysis {
    /// What processing `record` makes of `old`.
    pub open spec fn processed(old: Self, new: Self, record: Record) -> bool {
        match (old, new) {
            (AnyAnalysis::PseudoAutosomalRegion(o), AnyAnalysis::PseudoAutosomalRegion(n)) => {
                PseudoAutosomalRegionAnalysis::processed(o, n, record)
            },
            (AnyAnalysis::NRegionDetection(o), AnyAnalysis::NRegionDetection(n)) => {
                NRegionDetectionAnalysis::processed(o, n, record)
            },
            _ => false,
        }
    }

    /// What postprocessing makes of `old`, with its outcome `r`.
    pub open spec fn postprocessed(old: Self, new: Self, r: Result<(), AnalysisError>) -> bool {
        match (old, new) {
            (AnyAnalysis::PseudoAutosomalRegion(o), AnyAnalysis::PseudoAutosomalRegion(n)) => {
                PseudoAutosomalRegionAnalysis::postprocessed(o, n, r)
            },
            (AnyAnalysis::NRegionDetection(o), AnyAnalysis::NRegionDetection(n)) => {
                r is Ok && NRegionDetectionAnalysis::postprocessed(o, n)
            },
            _ => false,
        }
    }

    /// Takes one record into the analysis.
    pub fn process(&mut self, record: &Record) -> (r: Result<(), AnalysisError>)
        ensures
            r is Ok,
            Self::processed(*old(self), *final(self), *record),
    {
        match self {
            AnyAnalysis::PseudoAutosomalRegion(a) => a.process(record),
            AnyAnalysis::NRegionDetection(a) => a.process(record),
        }
    }

    /// Aggregates the results of the analysis.
    pub fn postprocess(&mut self) -> (r: Result<(), AnalysisError>)
        ensures
            Self::postprocessed(*old(self), *final(self), r),
    {
        match self {
            AnyAnalysis::PseudoAutosomalRegion(a) => a.postprocess(),
            AnyAnalysis::NRegionDetection(a) => a.postprocess(),
        }
    }
}

impl Analysis for AnyAnalysis {
    open spec fn label(&self) -> Seq<char> {
        match self {
            AnyAnalysis::PseudoAutosomalRegion(a) => a.label(),
            AnyAnalysis::NRegionDetection(a) => a.label(),
        }
    }

    open spec fn process_step(
        old: Self,
        new: Self,
        record: Record,
        r: Result<(), AnalysisError>,
    ) -> bool {
        r is Ok && AnyAnalysis::processed(old, new, record)
    }

    open spec fn postprocess_step(old: Self, new: Self, r: Result<(), AnalysisError>) -> bool {
        AnyAnalysis::postprocessed(old, new, r)
    }

    open spec fn reportable(&self) -> bool {
        match self {
            AnyAnalysis::PseudoAutosomalRegion(a) => a.reportable(),
            AnyAnalysis::NRegionDetection(a) => a.reportable(),
        }
    }

    fn name(&self) -> (r: &'static str) {
        match self {
            AnyAnalysis::PseudoAutosomalRegion(a) => a.name(),
            AnyAnalysis::NRegionDetection(a) => a.name(),
        }
    }

    fn process(&mut self, record: &Record) -> Result<(), AnalysisError> {
        AnyAnalysis::process(self, record)
    }

    fn postprocess(&mut self) -> Result<(), AnalysisError> {
        AnyAnalysis::postprocess(self)
    }
}

/// Whether `a` is a pseudoautosomal region analysis that has seen nothing.
pub open spec fn is_fresh_par(a: AnyAnalysis) -> bool {
    match a {
        AnyAnalysis::PseudoAutosomalRegion(p) => p.chr_x is None && p.chr_y is None
            && p.forward_results is None && p.reverse_results is None,
        _ => false,
    }
}

/// Whether `a` is an N-region detection analysis that has seen nothing.
pub open spec fn is_fresh_ndetect(a: AnyAnalysis) -> bool {
    match a {
        AnyAnalysis::NRegionDetection(n) => n.regions@.len() == 0 && n.sequence_names@.len()
            == 0 && n.total_ns is None,
        _ => false,
    }
}

/// Every analysis this library offers, fresh: pseudoautosomal region
/// scanning, then N-region detection.
pub fn get_analyses() -> (r: Vec<AnyAnalysis>)
    ensures
        r@.len() == 2,
        r@[0].label() == "Pseudoautosomal Region Analysis"@,
        r@[1].label() == "N Region Detection"@,
        is_fresh_par(r@[0]),
        is_fresh_ndetect(r@[1]),
{
    let mut analyses: Vec<AnyAnalysis> = Vec::new();
    analyses.push(AnyAnalysis::PseudoAutosomalRegion(PseudoAutosomalRegionAnalysis::default()));
    analyses.push(AnyAnalysis::NRegionDetection(NRegionDetectionAnalysis::default()));
    analyses
}

/// Hands one record to every analysis, in order.
pub fn process_record(analyses: &mut Vec<AnyAnalysis>, record: &Record) -> (r: Result<
    (),
    AnalysisError,
>)
    ensures
        r is Ok,
        final(analyses)@.len() == old(analyses)@.len(),
        forall|i: int|
            0 <= i < old(analyses)@.len() ==> AnyAnalysis::processed(
                #[trigger] old(analyses)@[i],
                final(analyses)@[i],
                *record,
            ),
{
    let ghost start = analyses@;
    let mut i: usize = 0;
    while i < analyses.len()
        invariant
            i <= analyses@.len(),
            analyses@.len() == start.len(),
            start == old(analyses)@,
            forall|j: int|
                0 <= j < i ==> AnyAnalysis::processed(#[trigger] start[j], analyses@[j], *record),
            forall|j: int| i <= j < start.len() ==> #[trigger] analyses@[j] == start[j],
        decreases start.len() - i,
    {
        let ghost before = analyses@;
        let mut analysis = analyses.remove(i);
        let outcome = analysis.process(record);
        analyses.insert(i, analysis);
        assert forall|j: int| 0 <= j < i + 1 implies AnyAnalysis::processed(
            #[trigger] start[j],
            analyses@[j],
            *record,
        ) by {
            if j < i {
                assert(analyses@[j] == before[j]);
            }
        }
        assert forall|j: int| i + 1 <= j < start.len() implies #[trigger] analyses@[j]
            == start[j] by {
            assert(analyses@[j] == before[j]);
        }
        if outcome.is_err() {
            return outcome;
        }
        i = i + 1;
    }
    Ok(())
}

/// Aggregates every analysis, in order, stopping at the first that fails.
/// The analyses after a failing one are left as they were.
pub fn postprocess_all(analyses: &mut Vec<AnyAnalysis>) -> (r: Result<(), AnalysisError>)
    ensures
        final(analyses)@.len() == old(analyses)@.len(),
        r is Ok ==> forall|i: int|
            0 <= i < old(analyses)@.len() ==> AnyAnalysis::postprocessed(
                #[trigger] old(analyses)@[i],
                final(analyses)@[i],
                Ok(()),
            ),
        r is Err ==> exists|i: int|
            0 <= i < old(analyses)@.len() && AnyAnalysis::postprocessed(
                #[trigger] old(analyses)@[i],
                final(analyses)@[i],
                r,
            ) && (forall|j: int|
                0 <= j < i ==> AnyAnalysis::postprocessed(
                    #[trigger] old(analyses)@[j],
                    final(analyses)@[j],
                    Ok(()),
                )) && (forall|j: int|
                i < j < old(analyses)@.len() ==> #[trigger] final(analyses)@[j] == old(
                    analyses,
                )@[j]),
{
    let ghost start = analyses@;
    let mut i: usize = 0;
    while i < analyses.len()
        invariant
            i <= analyses@.len(),
            analyses@.len() == start.len(),
            start == old(analyses)@,
            forall|j: int|
                0 <= j < i ==> AnyAnalysis::postprocessed(
                    #[trigger] start[j],
                    analyses@[j],
                    Ok(()),
                ),
            forall|j: int| i <= j < start.len() ==> #[trigger] analyses@[j] == start[j],
        decreases start.len() - i,
    {
        let ghost before = analyses@;
        let mut analysis = analyses.remove(i);
        let outcome = analysis.postprocess();
        analyses.insert(i, analysis);
        assert forall|j: int| 0 <= j < i implies AnyAnalysis::postprocessed(
            #[trigger] start[j],
            analyses@[j],
            Ok(()),
        ) by {
            assert(analyses@[j] == before[j]);
        }
        assert forall|j: int| i + 1 <= j < start.len() implies #[trigger] analyses@[j]
            == start[j] by {
            assert(analyses@[j] == before[j]);
        }
        if outcome.is_err() {
            assert(analyses@.len() == start.len());
            assert(AnyAnalysis::postprocessed(start[i as int], analyses@[i as int], outcome));
            return outcome;
        }
        i = i + 1;
    }
    Ok(())
}

/// The bases of the last record named `name`, if any.
pub open spec fn last_named(records: Seq<Record>, name: Seq<char>) -> Option<Seq<u8>>
    decreases records.len(),
{
    if records.len() == 0 {
        None
    } else if records.last().name() == name {
        Some(records.last().bases())
    } else {
        last_named(records.drop_last(), name)
    }
}

/// The masked runs of every record, in record order, each with the name of
/// its record.
pub open spec fn detected_runs(records: Seq<Record>) -> Seq<(Seq<char>, (int, int))>
    decreases records.len(),
{
    if records.len() == 0 {
        seq![]
    } else {
        detected_runs(records.drop_last()) + masked_runs(records.last().bases()).map_values(
            |run: (int, int)| (records.last().name(), run),
        )
    }
}

/// The names of the records, each once, in the order first seen.
pub open spec fn logged_names(records: Seq<Record>) -> Seq<Seq<char>>
    decreases records.len(),
{
    if records.len() == 0 {
        seq![]
    } else {
        let earlier = logged_names(records.drop_last());
        if earlier.contains(records.last().name()) {
            earlier
        } else {
            earlier.push(records.last().name())
        }
    }
}

/// Whether `n` holds the regions and the name log that processing
/// `records` gives.
pub open spec fn regions_found(n: NRegionDetectionAnalysis, records: Seq<Record>) -> bool {
    let runs = detected_runs(records);
    &&& n.regions@.len() == runs.len()
    &&& forall|k: int|
        0 <= k < runs.len() ==> region_is(#[trigger] n.regions@[k], runs[k].0, runs[k].1)
    &&& names_of(n.sequence_names@) == logged_names(records)
}

/// Whether `a` is the pseudoautosomal region analysis after processing
/// `records`, not yet postprocessed.
pub open spec fn par_after(a: AnyAnalysis, records: Seq<Record>) -> bool {
    match a {
        AnyAnalysis::PseudoAutosomalRegion(p) => {
            &&& captured(p.chr_x) == last_named(records, "chrX"@)
            &&& captured(p.chr_y) == last_named(records, "chrY"@)
            &&& p.forward_results is None
            &&& p.reverse_results is None
        },
        _ => false,
    }
}

/// Whether `a` is the N-region detection analysis after processing
/// `records`, not yet postprocessed.
pub open spec fn ndetect_after(a: AnyAnalysis, records: Seq<Record>) -> bool {
    match a {
        AnyAnalysis::NRegionDetection(n) => regions_found(n, records) && n.total_ns is None,
        _ => false,
    }
}

/// Whether `analyses` is what a successful run over `records` leaves: the
/// last `chrX` and `chrY` captured and scanned both ways, and every masked
/// run recorded and totalled.
pub open spec fn pipeline_done(analyses: Seq<AnyAnalysis>, records: Seq<Record>) -> bool {
    let x = last_named(records, "chrX"@);
    let y = last_named(records, "chrY"@);
    &&& analyses.len() == 2
    &&& x is Some && y is Some
    &&& match analyses[0] {
        AnyAnalysis::PseudoAutosomalRegion(p) => {
            &&& captured(p.chr_x) == x
            &&& captured(p.chr_y) == y
            &&& p.forward_results is Some
            &&& describes_scan(p.forward_results->Some_0, x->Some_0, y->Some_0, true)
            &&& p.reverse_results is Some
            &&& describes_scan(p.reverse_results->Some_0, x->Some_0, y->Some_0, false)
        },
        _ => false,
    }
    &&& match analyses[1] {
        AnyAnalysis::NRegionDetection(n) => regions_found(n, records) && n.totals_hold(),
        _ => false,
    }
}

/// With no record named `chrY`, no chromosome Y is captured.
pub proof fn lemma_no_chr_y_record(records: Seq<Record>)
    requires
        forall|i: int| 0 <= i < records.len() ==> records[i].name() != "chrY"@,
    ensures
        last_named(records, "chrY"@) is None,
    decreases records.len(),
{
    if records.len() > 0 {
        let earlier = records.drop_last();
        assert forall|i: int| 0 <= i < earlier.len() implies earlier[i].name() != "chrY"@ by {
            assert(earlier[i] == records[i]);
        }
        lemma_no_chr_y_record(earlier);
    }
}

proof fn lemma_ndetect_step(
    old_n: NRegionDetectionAnalysis,
    new_n: NRegionDetectionAnalysis,
    records: Seq<Record>,
    i: int,
)
    requires
        0 <= i < records.len(),
        regions_found(old_n, records.take(i)),
        NRegionDetectionAnalysis::processed(old_n, new_n, records[i]),
    ensures
        regions_found(new_n, records.take(i + 1)),
{
    let prefix = records.take(i + 1);
    let record = records[i];
    assert(prefix.drop_last() =~= records.take(i));
    assert(prefix.last() == record);
    let runs = detected_runs(prefix);
    let earlier = detected_runs(records.take(i));
    let mine = masked_runs(record.bases());
    let n = old_n.regions@.len();
    assert(runs == earlier + mine.map_values(|run: (int, int)| (record.name(), run)));
    assert forall|k: int| 0 <= k < runs.len() implies region_is(
        #[trigger] new_n.regions@[k],
        runs[k].0,
        runs[k].1,
    ) by {
        if k < n {
            assert(new_n.regions@[k] == new_n.regions@.take(n as int)[k]);
            assert(region_is(old_n.regions@[k], earlier[k].0, earlier[k].1));
        } else {
            assert(region_is(new_n.regions@[n + (k - n)], record.name(), mine[k - n]));
        }
    }
}

/// Runs every analysis over `records`: each record is processed by each
/// analysis in turn, then each analysis is postprocessed. Fails when
/// chromosome X or Y is missing, or when a scan leaves its sequence; the
/// analyses, and with them anything to report, are then dropped. Without a
/// record named `chrY`, the run fails with a missing chromosome.
pub fn run_pipeline(records: &Vec<Record>) -> (r: Result<Vec<AnyAnalysis>, AnalysisError>)
    ensures
        ({
            let x = last_named(records@, "chrX"@);
            let y = last_named(records@, "chrY"@);
            &&& x is None ==> r == Err::<Vec<AnyAnalysis>, AnalysisError>(
                AnalysisError::MissingChromosome(Chromosome::X),
            )
            &&& x is Some && y is None ==> r == Err::<Vec<AnyAnalysis>, AnalysisError>(
                AnalysisError::MissingChromosome(Chromosome::Y),
            )
            &&& x is Some && y is Some ==> (r is Ok <==> scan_succeeds(
                x->Some_0,
                y->Some_0,
                true,
            ) && scan_succeeds(x->Some_0, y->Some_0, false))
            &&& x is Some && y is Some && r is Err ==> r->Err_0 == AnalysisError::OutOfRange
        }),
        r is Ok ==> pipeline_done(r->Ok_0@, records@),
        (forall|i: int| 0 <= i < records@.len() ==> records@[i].name() != "chrY"@) ==> (r is Err
            && r->Err_0 is MissingChromosome),
{
    let mut analyses = get_analyses();
    let mut i: usize = 0;
    proof {
        let fresh = analyses@[1]->NRegionDetection_0;
        assert(names_of(fresh.sequence_names@) =~= logged_names(records@.take(0)));
    }
    while i < records.len()
        invariant
            i <= records@.len(),
            analyses@.len() == 2,
            par_after(analyses@[0], records@.take(i as int)),
            ndetect_after(analyses@[1], records@.take(i as int)),
        decreases records@.len() - i,
    {
        let ghost before = analyses@;
        let outcome = process_record(&mut analyses, &records[i]);
        if let Err(e) = outcome {
            return Err(e);
        }
        proof {
            let prefix = records@.take(i + 1);
            assert(prefix.drop_last() =~= records@.take(i as int));
            assert(prefix.last() == records@[i as int]);
            assert(AnyAnalysis::processed(before[0], analyses@[0], records@[i as int]));
            assert(AnyAnalysis::processed(before[1], analyses@[1], records@[i as int]));
            lemma_ndetect_step(
                before[1]->NRegionDetection_0,
                analyses@[1]->NRegionDetection_0,
                records@,
                i as int,
            );
        }
        i = i + 1;
    }
    assert(records@.take(i as int) =~= records@);
    let ghost ready = analyses@;
    let outcome = postprocess_all(&mut analyses);
    proof {
        if forall|i: int| 0 <= i < records@.len() ==> records@[i].name() != "chrY"@ {
            lemma_no_chr_y_record(records@);
        }
        if outcome is Err {
            let k = choose|k: int|
                0 <= k < ready.len() && AnyAnalysis::postprocessed(
                    #[trigger] ready[k],
                    analyses@[k],
                    outcome,
                ) && (forall|j: int|
                    0 <= j < k ==> AnyAnalysis::postprocessed(
                        #[trigger] ready[j],
                        analyses@[j],
                        Ok(()),
                    )) && (forall|j: int|
                    k < j < ready.len() ==> #[trigger] analyses@[j] == ready[j]);
            assert(k == 0);
        } else {
            assert(AnyAnalysis::postprocessed(ready[0], analyses@[0], Ok(())));
            assert(AnyAnalysis::postprocessed(ready[1], analyses@[1], Ok(())));
        }
    }
    match outcome {
        Ok(()) => Ok(analyses),
        Err(e) => Err(e),
    }
}

} // verus!
