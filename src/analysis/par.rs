//! Pseudoautosomal region detection.
//!
//! Chromosomes X and Y are scanned from their start and from their end: each
//! one first skips its own cap of N-masked bases, then both walk in lockstep
//! for as long as their bases agree. The stretch they agree on is the
//! estimated pseudoautosomal region at that end.

use vstd::prelude::*;

use crate::analysis::{Analysis, AnalysisError, Chromosome};
use crate::position::Position;
use crate::sequence::{base_is_masked, is_masked, Record, Sequence};

verus! {

//=====================//
// Model of a scan     //
//=====================//

/// Whether `p` is a valid one-based position of `s`.
pub open spec fn in_range(s: Seq<u8>, p: int) -> bool {
    1 <= p <= s.len()
}

/// The next position in the direction of the scan.
pub open spec fn step(p: int, forward: bool) -> int {
    if forward {
        p + 1
    } else {
        p - 1
    }
}

/// How many positions are left before a scan from `p` leaves `s`.
pub open spec fn steps_left(s: Seq<u8>, p: int, forward: bool) -> nat {
    if forward {
        if p <= s.len() {
            (s.len() + 1 - p) as nat
        } else {
            0
        }
    } else {
        if p >= 0 {
            p as nat
        } else {
            0
        }
    }
}

/// Where the N-skip from `p` stops: the first position, walking in the
/// direction of the scan, whose base is not masked; when every base up to the
/// end is masked, the position just past that end.
pub open spec fn ns_until(s: Seq<u8>, p: int, forward: bool) -> int
    decreases steps_left(s, p, forward),
{
    if in_range(s, p) && is_masked(s[p - 1]) {
        ns_until(s, step(p, forward), forward)
    } else {
        p
    }
}

/// Where the lockstep walk of `x` from `px` and of `y` from `py` stops: the
/// first pair of positions whose bases differ, or the first pair with a
/// position past the end of its sequence.
pub open spec fn same_until(x: Seq<u8>, y: Seq<u8>, px: int, py: int, forward: bool) -> (int, int)
    decreases steps_left(x, px, forward),
{
    if in_range(x, px) && in_range(y, py) && x[px - 1] == y[py - 1] {
        same_until(x, y, step(px, forward), step(py, forward), forward)
    } else {
        (px, py)
    }
}

/// Where a scan of `s` starts: its first position, or its last one.
pub open spec fn scan_start(s: Seq<u8>, forward: bool) -> int {
    if forward {
        1
    } else {
        s.len() as int
    }
}

/// Where the N-skip of a scan of `s` stops.
pub open spec fn scan_ns(s: Seq<u8>, forward: bool) -> int {
    ns_until(s, scan_start(s, forward), forward)
}

/// Where the lockstep walk of a scan of `x` and `y` stops.
pub open spec fn scan_same(x: Seq<u8>, y: Seq<u8>, forward: bool) -> (int, int) {
    same_until(x, y, scan_ns(x, forward), scan_ns(y, forward), forward)
}

/// A scan succeeds when no pointer leaves its sequence: each sequence has an
/// unmasked base and the two diverge before either end is passed.
pub open spec fn scan_succeeds(x: Seq<u8>, y: Seq<u8>, forward: bool) -> bool {
    &&& in_range(x, scan_ns(x, forward))
    &&& in_range(y, scan_ns(y, forward))
    &&& in_range(x, scan_same(x, y, forward).0)
    &&& in_range(y, scan_same(x, y, forward).1)
}

/// The distance between two positions.
pub open spec fn distance(a: int, b: int) -> int {
    if a >= b {
        a - b
    } else {
        b - a
    }
}

/// Whether `p` holds a position whose value is `v`.
pub open spec fn at(p: Option<Position>, v: int) -> bool {
    p is Some && p->Some_0@ == v
}

/// Whether `r` records a scan that started at `start`, ended its N-skip at
/// `ns` and its lockstep walk at `same`.
pub open spec fn describes(r: PseudoAutosomalScanResult, start: int, ns: int, same: int) -> bool {
    &&& at(r.start_position, start)
    &&& at(r.ns_until_position, ns)
    &&& at(r.same_until_position, same)
    &&& r.start_to_ns_len == Some(distance(start, ns) as i64)
    &&& r.ns_to_same_len == Some(distance(ns, same) as i64)
}

/// Whether `r` records the scan of `x` and `y` in the given direction.
pub open spec fn describes_scan(
    r: PairedPseudoAutosomalScanResult,
    x: Seq<u8>,
    y: Seq<u8>,
    forward: bool,
) -> bool {
    &&& describes(r.chr_x, scan_start(x, forward), scan_ns(x, forward), scan_same(x, y, forward).0)
    &&& describes(r.chr_y, scan_start(y, forward), scan_ns(y, forward), scan_same(x, y, forward).1)
}

/// The bases a captured chromosome holds, if any.
pub open spec fn captured(s: Option<Sequence>) -> Option<Seq<u8>> {
    match s {
        Some(s) => Some(s@),
        None => None,
    }
}

/// A lockstep walk of a sequence against itself never finds a difference.
proof fn lemma_same_walk_never_diverges(s: Seq<u8>, p: int, forward: bool)
    ensures
        !in_range(s, same_until(s, s, p, p, forward).0),
    decreases steps_left(s, p, forward),
{
    if in_range(s, p) {
        lemma_same_walk_never_diverges(s, step(p, forward), forward);
    }
}

/// Two identical chromosomes never diverge, so a scan of them, in either
/// direction, walks off the end of the sequences and does not succeed.
pub proof fn lemma_identical_chromosomes_never_diverge(s: Seq<u8>, forward: bool)
    ensures
        !scan_succeeds(s, s, forward),
{
    lemma_same_walk_never_diverges(s, scan_ns(s, forward), forward);
}

/// The results of a successful scan are consistent: every recorded position
/// lies within its sequence, the N-skip ends where the lockstep walk begins,
/// and both recorded lengths are non-negative.
pub proof fn lemma_scan_results_consistent(
    r: PairedPseudoAutosomalScanResult,
    x: Seq<u8>,
    y: Seq<u8>,
    forward: bool,
)
    requires
        x.len() <= i64::MAX,
        y.len() <= i64::MAX,
        scan_succeeds(x, y, forward),
        describes_scan(r, x, y, forward),
    ensures
        r.chr_x.ns_to_same_len->Some_0 >= 0,
        r.chr_y.ns_to_same_len->Some_0 >= 0,
        r.chr_x.start_to_ns_len->Some_0 >= 0,
        r.chr_y.start_to_ns_len->Some_0 >= 0,
        in_range(x, r.chr_x.start_position->Some_0@ as int),
        in_range(y, r.chr_y.start_position->Some_0@ as int),
        in_range(x, r.chr_x.ns_until_position->Some_0@ as int),
        in_range(y, r.chr_y.ns_until_position->Some_0@ as int),
        in_range(x, r.chr_x.same_until_position->Some_0@ as int),
        in_range(y, r.chr_y.same_until_position->Some_0@ as int),
{
}

//=========================//
// Utility results structs //
//=========================//

/// Result of scanning one chromosome in one direction for a pseudoautosomal
/// region. A field stays `None` until its phase of the scan has completed.
#[derive(Debug)]
pub struct PseudoAutosomalScanResult {
    /// Where the scan started: the first or the last position.
    pub start_position: Option<Position>,
    /// The first base that is not N-masked.
    pub ns_until_position: Option<Position>,
    /// Where chromosomes X and Y fall out of sync: the first base past the
    /// pseudoautosomal region.
    pub same_until_position: Option<Position>,
    /// How many N-masked bases the scan skipped.
    pub start_to_ns_len: Option<i64>,
    /// How long the pseudoautosomal region is.
    pub ns_to_same_len: Option<i64>,
}

impl Default for PseudoAutosomalScanResult {
    fn default() -> (r: Self)
        ensures
            r.start_position is None,
            r.ns_until_position is None,
            r.same_until_position is None,
            r.start_to_ns_len is None,
            r.ns_to_same_len is None,
    {
        PseudoAutosomalScanResult {
            start_position: None,
            ns_until_position: None,
            same_until_position: None,
            start_to_ns_len: None,
            ns_to_same_len: None,
        }
    }
}

/// The results of one directional scan, for chromosome X and for chromosome
/// Y, which are scanned in tandem.
#[derive(Debug)]
pub struct PairedPseudoAutosomalScanResult {
    /// The scanned results for chromosome X.
    pub chr_x: PseudoAutosomalScanResult,
    /// The scanned results for chromosome Y.
    pub chr_y: PseudoAutosomalScanResult,
}

impl Default for PairedPseudoAutosomalScanResult {
    fn default() -> (r: Self)
        ensures
            r.chr_x.start_position is None,
            r.chr_x.ns_until_position is None,
            r.chr_x.same_until_position is None,
            r.chr_x.start_to_ns_len is None,
            r.chr_x.ns_to_same_len is None,
            r.chr_y.start_position is None,
            r.chr_y.ns_until_position is None,
            r.chr_y.same_until_position is None,
            r.chr_y.start_to_ns_len is None,
            r.chr_y.ns_to_same_len is None,
    {
        PairedPseudoAutosomalScanResult {
            chr_x: PseudoAutosomalScanResult::default(),
            chr_y: PseudoAutosomalScanResult::default(),
        }
    }
}

//================//
// Scan direction //
//================//

/// The directions in which chromosomes X and Y can be scanned.
#[derive(Clone, Copy, Debug, PartialEq, Eq, Structural)]
pub enum ScanDirection {
    /// From the first position towards the last.
    Forward,
    /// From the last position towards the first.
    Reverse,
}

impl ScanDirection {
    /// Whether the direction is forward.
    pub open spec fn is_forward(self) -> bool {
        self == ScanDirection::Forward
    }
}

//===========//
// Scanning  //
//===========//

/// The position with the given non-zero value.
fn position_at(p: usize) -> (r: Position)
    requires
        p >= 1,
    ensures
        r@ == p,
{
    Position::new(p).unwrap()
}

/// Walks `s` from `start` past its masked bases. Returns the position of the
/// first unmasked base, or `None` when the walk leaves the sequence.
pub fn skip_masked(s: &Sequence, start: usize, forward: bool) -> (r: Option<usize>)
    requires
        in_range(s@, start as int),
    ensures
        r is Some <==> in_range(s@, ns_until(s@, start as int, forward)),
        r is Some ==> r->Some_0 == ns_until(s@, start as int, forward),
{
    let len = s.len();
    let mut p = start;
    loop
        invariant
            in_range(s@, p as int),
            len == s@.len(),
            ns_until(s@, p as int, forward) == ns_until(s@, start as int, forward),
        decreases steps_left(s@, p as int, forward),
    {
        let base = match s.get(position_at(p)) {
            Some(b) => b,
            None => {
                return None;
            },
        };
        if !base_is_masked(base) {
            return Some(p);
        }
        if forward {
            if p == len {
                assert(ns_until(s@, p + 1, forward) == p + 1);
                return None;
            }
            p = p + 1;
        } else {
            if p == 1 {
                assert(ns_until(s@, 0, forward) == 0);
                return None;
            }
            p = p - 1;
        }
    }
}

/// Walks `x` from `px` and `y` from `py` in lockstep while their bases agree.
/// Returns the first pair of positions whose bases differ, or `None` when a
/// walk leaves its sequence first.
pub fn walk_lockstep(x: &Sequence, y: &Sequence, px: usize, py: usize, forward: bool) -> (r: Option<(usize, usize)>)
    requires
        in_range(x@, px as int),
        in_range(y@, py as int),
    ensures
        r is Some <==> ({
            let (sx, sy) = same_until(x@, y@, px as int, py as int, forward);
            in_range(x@, sx) && in_range(y@, sy)
        }),
        r is Some ==> r->Some_0.0 == same_until(x@, y@, px as int, py as int, forward).0
            && r->Some_0.1 == same_until(x@, y@, px as int, py as int, forward).1,
{
    let x_len = x.len();
    let y_len = y.len();
    let mut p = px;
    let mut q = py;
    loop
        invariant
            in_range(x@, p as int),
            in_range(y@, q as int),
            x_len == x@.len(),
            y_len == y@.len(),
            same_until(x@, y@, p as int, q as int, forward) == same_until(
                x@,
                y@,
                px as int,
                py as int,
                forward,
            ),
        decreases steps_left(x@, p as int, forward),
    {
        let x_base = x.get(position_at(p));
        let y_base = y.get(position_at(q));
        if x_base != y_base {
            return Some((p, q));
        }
        if forward {
            if p == x_len || q == y_len {
                assert(same_until(x@, y@, p + 1, q + 1, forward) == (p + 1, q + 1));
                return None;
            }
            p = p + 1;
            q = q + 1;
        } else {
            if p == 1 || q == 1 {
                assert(same_until(x@, y@, p - 1, q - 1, forward) == (p - 1, q - 1));
                return None;
            }
            p = p - 1;
            q = q - 1;
        }
    }
}

/// The distance between two positions, in signed 64-bit arithmetic.
fn position_distance(a: usize, b: usize) -> (r: i64)
    requires
        a <= i64::MAX,
        b <= i64::MAX,
    ensures
        r == distance(a as int, b as int),
{
    let d: i64 = a as i64 - b as i64;
    if d < 0 {
        -d
    } else {
        d
    }
}

/// Scans `x` and `y` in one direction.
fn scan_pair(x: &Sequence, y: &Sequence, forward: bool) -> (r: Result<PairedPseudoAutosomalScanResult, AnalysisError>)
    ensures
        r is Ok <==> scan_succeeds(x@, y@, forward),
        r is Ok ==> describes_scan(r->Ok_0, x@, y@, forward),
        r is Err ==> r->Err_0 == AnalysisError::OutOfRange,
{
    let x_len = x.len();
    let y_len = y.len();
    // (1) Each scan starts at the first position, or at the sequence's last.
    let (x_start, y_start) = if forward {
        (1, 1)
    } else {
        (x_len, y_len)
    };
    if x_start == 0 || x_start > x_len {
        assert(ns_until(x@, x_start as int, forward) == x_start);
        return Err(AnalysisError::OutOfRange);
    }
    if y_start == 0 || y_start > y_len {
        assert(ns_until(y@, y_start as int, forward) == y_start);
        return Err(AnalysisError::OutOfRange);
    }
    // (2) Each chromosome skips its own masked bases, independently.
    let x_ns = match skip_masked(x, x_start, forward) {
        Some(p) => p,
        None => {
            return Err(AnalysisError::OutOfRange);
        },
    };
    let y_ns = match skip_masked(y, y_start, forward) {
        Some(p) => p,
        None => {
            return Err(AnalysisError::OutOfRange);
        },
    };
    // (3) Both walk together until their bases differ.
    let (x_same, y_same) = match walk_lockstep(x, y, x_ns, y_ns, forward) {
        Some(pair) => pair,
        None => {
            return Err(AnalysisError::OutOfRange);
        },
    };
    let chr_x = PseudoAutosomalScanResult {
        start_position: Some(position_at(x_start)),
        ns_until_position: Some(position_at(x_ns)),
        same_until_position: Some(position_at(x_same)),
        start_to_ns_len: Some(position_distance(x_start, x_ns)),
        ns_to_same_len: Some(position_distance(x_ns, x_same)),
    };
    let chr_y = PseudoAutosomalScanResult {
        start_position: Some(position_at(y_start)),
        ns_until_position: Some(position_at(y_ns)),
        same_until_position: Some(position_at(y_same)),
        start_to_ns_len: Some(position_distance(y_start, y_ns)),
        ns_to_same_len: Some(position_distance(y_ns, y_same)),
    };
    Ok(PairedPseudoAutosomalScanResult { chr_x, chr_y })
}

//===============//
// Main analysis //
//===============//

/// The pseudoautosomal region scanning analysis.
#[derive(Debug)]
pub struct PseudoAutosomalRegionAnalysis {
    /// Chromosome X, once a record named `chrX` has been processed.
    pub chr_x: Option<Sequence>,
    /// Chromosome Y, once a record named `chrY` has been processed.
    pub chr_y: Option<Sequence>,
    /// The results of the forward scan, once it has run.
    pub forward_results: Option<PairedPseudoAutosomalScanResult>,
    /// The results of the reverse scan, once it has run.
    pub reverse_results: Option<PairedPseudoAutosomalScanResult>,
}

impl Default for PseudoAutosomalRegionAnalysis {
    fn default() -> (r: Self)
        ensures
            r.chr_x is None,
            r.chr_y is None,
            r.forward_results is None,
            r.reverse_results is None,
    {
        PseudoAutosomalRegionAnalysis {
            chr_x: None,
            chr_y: None,
            forward_results: None,
            reverse_results: None,
        }
    }
}

impl PseudoAutosomalRegionAnalysis {
    /// What processing `record` makes of `old`: a record named exactly `chrX`
    /// or `chrY` replaces the captured chromosome of that name; nothing else
    /// changes.
    pub open spec fn processed(old: Self, new: Self, record: Record) -> bool {
        &&& captured(new.chr_x) == if record.name() == "chrX"@ {
            Some(record.bases())
        } else {
            captured(old.chr_x)
        }
        &&& captured(new.chr_y) == if record.name() == "chrY"@ {
            Some(record.bases())
        } else {
            captured(old.chr_y)
        }
        &&& new.forward_results == old.forward_results
        &&& new.reverse_results == old.reverse_results
    }

    /// What postprocessing makes of `old`, and when it fails.
    pub open spec fn postprocessed(old: Self, new: Self, r: Result<(), AnalysisError>) -> bool {
        &&& old.chr_x is None ==> r == Err::<(), AnalysisError>(
            AnalysisError::MissingChromosome(Chromosome::X),
        )
        &&& old.chr_x is Some && old.chr_y is None ==> r == Err::<(), AnalysisError>(
            AnalysisError::MissingChromosome(Chromosome::Y),
        )
        &&& old.chr_x is Some && old.chr_y is Some ==> {
            let x = old.chr_x->Some_0@;
            let y = old.chr_y->Some_0@;
            &&& r is Ok <==> scan_succeeds(x, y, true) && scan_succeeds(x, y, false)
            &&& r is Err ==> r->Err_0 == AnalysisError::OutOfRange
            &&& r is Ok ==> new.forward_results is Some && describes_scan(
                new.forward_results->Some_0,
                x,
                y,
                true,
            ) && new.reverse_results is Some && describes_scan(
                new.reverse_results->Some_0,
                x,
                y,
                false,
            )
        }
        &&& captured(new.chr_x) == captured(old.chr_x)
        &&& captured(new.chr_y) == captured(old.chr_y)
        &&& r is Err ==> new.forward_results == old.forward_results && new.reverse_results
            == old.reverse_results
    }

    /// Scans chromosomes X and Y for a pseudoautosomal region in one
    /// direction. Fails with `OutOfRange` when a pointer would leave its
    /// sequence: a sequence with no unmasked base, or two chromosomes that
    /// never diverge.
    pub fn scan_for_pseudoautosomal_region(&self, direction: ScanDirection) -> (r: Result<
        PairedPseudoAutosomalScanResult,
        AnalysisError,
    >)
        requires
            self.chr_x is Some,
            self.chr_y is Some,
        ensures
            r is Ok <==> scan_succeeds(
                self.chr_x->Some_0@,
                self.chr_y->Some_0@,
                direction.is_forward(),
            ),
            r is Ok ==> describes_scan(
                r->Ok_0,
                self.chr_x->Some_0@,
                self.chr_y->Some_0@,
                direction.is_forward(),
            ),
            r is Err ==> r->Err_0 == AnalysisError::OutOfRange,
    {
        let chr_x = self.chr_x.as_ref().unwrap();
        let chr_y = self.chr_y.as_ref().unwrap();
        let forward = match direction {
            ScanDirection::Forward => true,
            ScanDirection::Reverse => false,
        };
        scan_pair(chr_x, chr_y, forward)
    }

    /// Captures the sequence of a record named `chrX` or `chrY`; a later
    /// record of the same name replaces an earlier one.
    pub fn process(&mut self, record: &Record) -> (r: Result<(), AnalysisError>)
        ensures
            r is Ok,
            Self::processed(*old(self), *final(self), *record),
    {
        let chr_x_name = String::from_str("chrX");
        let chr_y_name = String::from_str("chrY");
        proof {
            reveal_strlit("chrX");
            reveal_strlit("chrY");
            assert("chrX"@[3] != "chrY"@[3]);
        }
        if *record.name_str() == chr_x_name {
            self.chr_x = Some(record.sequence().duplicate());
        } else if *record.name_str() == chr_y_name {
            self.chr_y = Some(record.sequence().duplicate());
        }
        Ok(())
    }

    /// Checks that both chromosomes were seen, then scans them forward and in
    /// reverse.
    pub fn postprocess(&mut self) -> (r: Result<(), AnalysisError>)
        ensures
            Self::postprocessed(*old(self), *final(self), r),
    {
        // (1) Both chromosomes must have been seen.
        if self.chr_x.is_none() {
            return Err(AnalysisError::MissingChromosome(Chromosome::X));
        }
        if self.chr_y.is_none() {
            return Err(AnalysisError::MissingChromosome(Chromosome::Y));
        }
        // (2) Scan from the front and from the back of both chromosomes.
        let forward = match self.scan_for_pseudoautosomal_region(ScanDirection::Forward) {
            Ok(result) => result,
            Err(e) => {
                return Err(e);
            },
        };
        let reverse = match self.scan_for_pseudoautosomal_region(ScanDirection::Reverse) {
            Ok(result) => result,
            Err(e) => {
                return Err(e);
            },
        };
        self.forward_results = Some(forward);
        self.reverse_results = Some(reverse);
        Ok(())
    }
}

impl Analysis for PseudoAutosomalRegionAnalysis {
    open spec fn label(&self) -> Seq<char> {
        "Pseudoautosomal Region Analysis"@
    }

    open spec fn process_step(
        old: Self,
        new: Self,
        record: Record,
        r: Result<(), AnalysisError>,
    ) -> bool {
        r is Ok && Self::processed(old, new, record)
    }

    open spec fn postprocess_step(old: Self, new: Self, r: Result<(), AnalysisError>) -> bool {
        Self::postprocessed(old, new, r)
    }

    open spec fn reportable(&self) -> bool {
        self.forward_results is Some && self.reverse_results is Some
    }

    fn name(&self) -> (r: &'static str) {
        "Pseudoautosomal Region Analysis"
    }

    fn process(&mut self, record: &Record) -> Result<(), AnalysisError> {
        PseudoAutosomalRegionAnalysis::process(self, record)
    }

    fn postprocess(&mut self) -> Result<(), AnalysisError> {
        PseudoAutosomalRegionAnalysis::postprocess(self)
    }
}

} // verus!
