use rge::analysis::ndetect::{NRegion, NRegionDetectionAnalysis};
use rge::analysis::par::{
    skip_masked, walk_lockstep, PseudoAutosomalRegionAnalysis, PseudoAutosomalScanResult,
    ScanDirection,
};
use rge::analysis::{
    get_analyses, postprocess_all, process_record, run_pipeline, Analysis, AnalysisError,
    AnyAnalysis, Chromosome,
};
use rge::position::Position;
use rge::sequence::{base_is_masked, Record, Sequence};

fn record(name: &str, bases: &str) -> Record {
    Record::new(String::from(name), Sequence::new(bases.as_bytes().to_vec()))
}

fn seq(bases: &str) -> Sequence {
    Sequence::new(bases.as_bytes().to_vec())
}

fn par_with(x: &str, y: &str) -> PseudoAutosomalRegionAnalysis {
    let mut par = PseudoAutosomalRegionAnalysis::default();
    par.process(&record("chrX", x)).unwrap();
    par.process(&record("chrY", y)).unwrap();
    par
}

fn pos(r: &Option<Position>) -> usize {
    r.as_ref().unwrap().get()
}

fn check_result(
    r: &PseudoAutosomalScanResult,
    start: usize,
    ns: usize,
    same: usize,
    start_to_ns: i64,
    ns_to_same: i64,
) {
    assert_eq!(pos(&r.start_position), start);
    assert_eq!(pos(&r.ns_until_position), ns);
    assert_eq!(pos(&r.same_until_position), same);
    assert_eq!(r.start_to_ns_len, Some(start_to_ns));
    assert_eq!(r.ns_to_same_len, Some(ns_to_same));
}

fn totals(n: &NRegionDetectionAnalysis) -> Vec<(String, u128)> {
    n.total_ns.as_ref().unwrap().clone()
}

#[test]
fn position_zero_is_invalid() {
    assert_eq!(Position::new(0).unwrap_err(), AnalysisError::InvalidPosition);
    assert_eq!(Position::new(5).unwrap().get(), 5);
}

#[test]
fn sequence_is_addressed_from_one() {
    let s = seq("ACGT");
    assert_eq!(s.len(), 4);
    assert_eq!(s.get(Position::new(1).unwrap()), Some(b'A'));
    assert_eq!(s.get(Position::new(4).unwrap()), Some(b'T'));
    assert_eq!(s.get(Position::new(5).unwrap()), None);
}

#[test]
fn masking_is_case_insensitive() {
    assert!(base_is_masked(b'N'));
    assert!(base_is_masked(b'n'));
    assert!(!base_is_masked(b'A'));
    assert!(!base_is_masked(b'X'));
}

#[test]
fn unmasked_sequence_has_no_regions() {
    let mut n = NRegionDetectionAnalysis::default();
    n.process(&record("chr1", "ACGTACGTTTGA")).unwrap();
    assert!(n.regions.is_empty());
    n.postprocess().unwrap();
    assert!(totals(&n).is_empty());
    assert_eq!(n.total_for(&String::from("chr1")), 0);
}

#[test]
fn single_run_length_is_one_less_than_its_size() {
    let mut n = NRegionDetectionAnalysis::default();
    n.process(&record("chr2", "ACNNNGT")).unwrap();
    assert_eq!(n.regions.len(), 1);
    let r = &n.regions[0];
    assert_eq!(r.sequence_name, "chr2");
    assert_eq!(r.start.get(), 3);
    assert_eq!(r.end.get(), 5);
    assert_eq!(r.dist, 2);
    n.postprocess().unwrap();
    assert_eq!(totals(&n), vec![(String::from("chr2"), 2)]);
}

#[test]
fn single_masked_base_has_length_zero() {
    let mut n = NRegionDetectionAnalysis::default();
    n.process(&record("c", "ANA")).unwrap();
    assert_eq!(n.regions.len(), 1);
    assert_eq!(n.regions[0].start.get(), 2);
    assert_eq!(n.regions[0].end.get(), 2);
    assert_eq!(n.regions[0].dist, 0);
}

#[test]
fn run_closed_by_last_base_is_recorded() {
    let mut n = NRegionDetectionAnalysis::default();
    n.process(&record("c", "ANNA")).unwrap();
    assert_eq!(n.regions.len(), 1);
    assert_eq!(n.regions[0].start.get(), 2);
    assert_eq!(n.regions[0].end.get(), 3);
    assert_eq!(n.regions[0].dist, 1);
}

#[test]
fn trailing_run_is_not_recorded() {
    let mut n = NRegionDetectionAnalysis::default();
    n.process(&record("c", "ACGTNN")).unwrap();
    assert!(n.regions.is_empty());
    n.process(&record("d", "NNACnn")).unwrap();
    assert_eq!(n.regions.len(), 1);
    assert_eq!(n.regions[0].sequence_name, "d");
    assert_eq!(n.regions[0].start.get(), 1);
    assert_eq!(n.regions[0].end.get(), 2);
    assert_eq!(n.regions[0].dist, 1);
    n.process(&record("e", "NNNN")).unwrap();
    assert_eq!(n.regions.len(), 1);
}

#[test]
fn regions_are_totalled_per_name_in_order_seen() {
    let mut n = NRegionDetectionAnalysis::default();
    n.process(&record("b", "ANNNNAnnA")).unwrap();
    n.process(&record("a", "ACGT")).unwrap();
    n.process(&record("b", "NNNA")).unwrap();
    assert_eq!(n.sequence_names, vec![String::from("b"), String::from("a")]);
    assert_eq!(n.regions.len(), 3);
    assert_eq!(n.regions[1].start.get(), 7);
    assert_eq!(n.regions[1].end.get(), 8);
    n.postprocess().unwrap();
    assert_eq!(totals(&n), vec![(String::from("b"), 3 + 1 + 2)]);
    assert_eq!(n.total_for(&String::from("b")), 6);
    assert_eq!(n.total_for(&String::from("a")), 0);
}

#[test]
fn empty_sequence_is_logged_without_regions() {
    let mut n = NRegionDetectionAnalysis::default();
    n.process(&record("empty", "")).unwrap();
    assert!(n.regions.is_empty());
    n.postprocess().unwrap();
    assert!(totals(&n).is_empty());
    assert_eq!(n.total_for(&String::from("empty")), 0);
}

#[test]
fn identical_chromosomes_walk_off_the_end() {
    let par = par_with("ACGTACGT", "ACGTACGT");
    assert_eq!(
        par.scan_for_pseudoautosomal_region(ScanDirection::Forward).unwrap_err(),
        AnalysisError::OutOfRange
    );
    assert_eq!(
        par.scan_for_pseudoautosomal_region(ScanDirection::Reverse).unwrap_err(),
        AnalysisError::OutOfRange
    );
    let mut par = par;
    assert_eq!(par.postprocess(), Err(AnalysisError::OutOfRange));
    assert!(par.forward_results.is_none());
}

#[test]
fn n_skip_is_independent_per_chromosome() {
    let x = seq("NNNNACGT");
    let y = seq("NNACGTAA");
    assert_eq!(skip_masked(&x, 1, true), Some(5));
    assert_eq!(skip_masked(&y, 1, true), Some(3));
    // X runs out at its last base while its bases still match those of Y.
    assert_eq!(walk_lockstep(&x, &y, 5, 3, true), None);
    let par = par_with("NNNNACGT", "NNACGTAA");
    assert_eq!(
        par.scan_for_pseudoautosomal_region(ScanDirection::Forward).unwrap_err(),
        AnalysisError::OutOfRange
    );
    let reverse = par.scan_for_pseudoautosomal_region(ScanDirection::Reverse).unwrap();
    check_result(&reverse.chr_x, 8, 8, 8, 0, 0);
    check_result(&reverse.chr_y, 8, 8, 8, 0, 0);
}

#[test]
fn n_skip_and_mismatch_are_recorded() {
    let par = par_with("NNNNACGTT", "NNACGAAA");
    let forward = par.scan_for_pseudoautosomal_region(ScanDirection::Forward).unwrap();
    check_result(&forward.chr_x, 1, 5, 8, 4, 3);
    check_result(&forward.chr_y, 1, 3, 6, 2, 3);
}

#[test]
fn forward_and_reverse_scans_are_consistent() {
    let x = "NNACGTTTGCAANN";
    let y = "NACGTATTGCAAN";
    let mut par = par_with(x, y);
    par.postprocess().unwrap();
    let forward = par.forward_results.as_ref().unwrap();
    check_result(&forward.chr_x, 1, 3, 7, 2, 4);
    check_result(&forward.chr_y, 1, 2, 6, 1, 4);
    let reverse = par.reverse_results.as_ref().unwrap();
    check_result(&reverse.chr_x, 14, 12, 6, 2, 6);
    check_result(&reverse.chr_y, 13, 12, 6, 1, 6);
    for r in [&forward.chr_x, &reverse.chr_x] {
        assert!(r.ns_to_same_len.unwrap() >= 0);
        assert!(pos(&r.same_until_position) >= 1 && pos(&r.same_until_position) <= x.len());
    }
    for r in [&forward.chr_y, &reverse.chr_y] {
        assert!(r.ns_to_same_len.unwrap() >= 0);
        assert!(pos(&r.same_until_position) >= 1 && pos(&r.same_until_position) <= y.len());
    }
}

#[test]
fn comparison_is_case_sensitive() {
    let par = par_with("acgt", "ACGT");
    let forward = par.scan_for_pseudoautosomal_region(ScanDirection::Forward).unwrap();
    check_result(&forward.chr_x, 1, 1, 1, 0, 0);
    check_result(&forward.chr_y, 1, 1, 1, 0, 0);
}

#[test]
fn lower_case_n_is_skipped() {
    let par = par_with("nnAC", "NAG");
    let forward = par.scan_for_pseudoautosomal_region(ScanDirection::Forward).unwrap();
    check_result(&forward.chr_x, 1, 3, 4, 2, 1);
    check_result(&forward.chr_y, 1, 2, 3, 1, 1);
}

#[test]
fn fully_masked_or_empty_chromosome_is_out_of_range() {
    let par = par_with("NNNN", "ACGT");
    assert_eq!(
        par.scan_for_pseudoautosomal_region(ScanDirection::Forward).unwrap_err(),
        AnalysisError::OutOfRange
    );
    assert_eq!(
        par.scan_for_pseudoautosomal_region(ScanDirection::Reverse).unwrap_err(),
        AnalysisError::OutOfRange
    );
    let par = par_with("ACGT", "");
    assert_eq!(
        par.scan_for_pseudoautosomal_region(ScanDirection::Forward).unwrap_err(),
        AnalysisError::OutOfRange
    );
    assert_eq!(
        par.scan_for_pseudoautosomal_region(ScanDirection::Reverse).unwrap_err(),
        AnalysisError::OutOfRange
    );
}

#[test]
fn later_chromosome_record_replaces_earlier() {
    let mut par = PseudoAutosomalRegionAnalysis::default();
    par.process(&record("chrX", "AAAA")).unwrap();
    par.process(&record("chrx", "CCCC")).unwrap();
    par.process(&record("chrX", "ACGT")).unwrap();
    par.process(&record("chrY", "ACCA")).unwrap();
    assert_eq!(par.chr_x.as_ref().unwrap().len(), 4);
    assert_eq!(par.chr_x.as_ref().unwrap().get(Position::new(2).unwrap()), Some(b'C'));
    par.postprocess().unwrap();
    let forward = par.forward_results.as_ref().unwrap();
    check_result(&forward.chr_x, 1, 1, 3, 0, 2);
}

#[test]
fn missing_chromosome_fails_postprocess() {
    let mut par = PseudoAutosomalRegionAnalysis::default();
    assert_eq!(par.postprocess(), Err(AnalysisError::MissingChromosome(Chromosome::X)));
    par.process(&record("chrX", "ACGT")).unwrap();
    assert_eq!(par.postprocess(), Err(AnalysisError::MissingChromosome(Chromosome::Y)));
}

#[test]
fn pipeline_without_chr_y_fails_before_any_report() {
    let records = vec![record("chr1", "ANNA"), record("chrX", "NNACGT")];
    assert_eq!(
        run_pipeline(&records).unwrap_err(),
        AnalysisError::MissingChromosome(Chromosome::Y)
    );
    let records = vec![record("chrY", "NNACGT")];
    assert_eq!(
        run_pipeline(&records).unwrap_err(),
        AnalysisError::MissingChromosome(Chromosome::X)
    );

    let mut analyses = get_analyses();
    for r in &records {
        process_record(&mut analyses, r).unwrap();
    }
    assert_eq!(
        postprocess_all(&mut analyses),
        Err(AnalysisError::MissingChromosome(Chromosome::X))
    );
    match &analyses[1] {
        AnyAnalysis::NRegionDetection(n) => assert!(n.total_ns.is_none()),
        _ => panic!("the second analysis detects N regions"),
    }
}

#[test]
fn pipeline_runs_every_analysis() {
    let records = vec![
        record("chr1", "ANNA"),
        record("chrX", "NNACGTT"),
        record("chrY", "NACGAA"),
    ];
    let analyses = run_pipeline(&records).unwrap();
    assert_eq!(analyses.len(), 2);
    assert_eq!(analyses[0].name(), "Pseudoautosomal Region Analysis");
    assert_eq!(analyses[1].name(), "N Region Detection");
    match &analyses[0] {
        AnyAnalysis::PseudoAutosomalRegion(p) => {
            let forward = p.forward_results.as_ref().unwrap();
            check_result(&forward.chr_x, 1, 3, 6, 2, 3);
            check_result(&forward.chr_y, 1, 2, 5, 1, 3);
            let reverse = p.reverse_results.as_ref().unwrap();
            check_result(&reverse.chr_x, 7, 7, 7, 0, 0);
            check_result(&reverse.chr_y, 6, 6, 6, 0, 0);
        }
        _ => panic!("the first analysis scans for pseudoautosomal regions"),
    }
    match &analyses[1] {
        AnyAnalysis::NRegionDetection(n) => {
            assert_eq!(n.regions.len(), 3);
            assert_eq!(n.regions[0].sequence_name, "chr1");
            assert_eq!(n.regions[1].sequence_name, "chrX");
            assert_eq!(n.regions[2].sequence_name, "chrY");
            assert_eq!(n.regions[2].dist, 0);
            assert_eq!(
                n.total_ns.as_ref().unwrap().clone(),
                vec![
                    (String::from("chr1"), 1),
                    (String::from("chrX"), 1),
                    (String::from("chrY"), 0)
                ]
            );
        }
        _ => panic!("the second analysis detects N regions"),
    }
}

#[test]
fn analyses_carry_their_names() {
    let analyses = get_analyses();
    assert_eq!(analyses[0].name(), "Pseudoautosomal Region Analysis");
    assert_eq!(analyses[1].name(), "N Region Detection");
    assert_eq!(
        NRegionDetectionAnalysis::default().name(),
        "N Region Detection"
    );
}

#[test]
fn every_region_name_gets_a_total() {
    let mut n = NRegionDetectionAnalysis::default();
    n.regions.push(NRegion {
        sequence_name: String::from("a"),
        start: Position::new(2).unwrap(),
        end: Position::new(5).unwrap(),
        dist: 3,
    });
    n.postprocess().unwrap();
    assert_eq!(totals(&n), vec![(String::from("a"), 3)]);
}

#[test]
fn totals_are_keyed_by_region_names() {
    let mut n = NRegionDetectionAnalysis::default();
    n.sequence_names = vec![String::from("b"), String::from("a"), String::from("b")];
    n.regions.push(NRegion {
        sequence_name: String::from("c"),
        start: Position::new(1).unwrap(),
        end: Position::new(2).unwrap(),
        dist: 1,
    });
    n.regions.push(NRegion {
        sequence_name: String::from("b"),
        start: Position::new(4).unwrap(),
        end: Position::new(6).unwrap(),
        dist: 2,
    });
    n.regions.push(NRegion {
        sequence_name: String::from("c"),
        start: Position::new(9).unwrap(),
        end: Position::new(11).unwrap(),
        dist: 2,
    });
    n.regions.push(NRegion {
        sequence_name: String::from("b"),
        start: Position::new(14).unwrap(),
        end: Position::new(16).unwrap(),
        dist: 2,
    });
    n.postprocess().unwrap();
    assert_eq!(
        totals(&n),
        vec![(String::from("c"), 3), (String::from("b"), 4)]
    );
    assert_eq!(n.total_for(&String::from("a")), 0);
}
