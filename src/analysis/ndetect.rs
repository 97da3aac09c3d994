//! Detection of N-masked regions within the genome.

use vstd::prelude::*;

use crate::analysis::{Analysis, AnalysisError};
use crate::position::Position;
use crate::sequence::{base_is_masked, is_masked, Record, Sequence};

verus! {

//==================//
// Model of a scan  //
//==================//

/// The first position of the masked run that holds the masked position `p`.
pub open spec fn run_start(s: Seq<u8>, p: int) -> int
    decreases p,
{
    if p > 1 && is_masked(s[p - 2]) {
        run_start(s, p - 1)
    } else {
        p
    }
}

/// The masked runs of `s` that an unmasked base at a position up to `n`
/// closes, as `(start, end)` pairs of one-based positions, in order.
pub open spec fn closed_runs(s: Seq<u8>, n: int) -> Seq<(int, int)>
    decreases n,
{
    if n <= 1 {
        seq![]
    } else if !is_masked(s[n - 1]) && is_masked(s[n - 2]) {
        closed_runs(s, n - 1).push((run_start(s, n - 1), n - 1))
    } else {
        closed_runs(s, n - 1)
    }
}

/// The masked runs that a scan of `s` records: every maximal run of masked
/// bases that an unmasked base follows. A run that reaches the last base is
/// not closed, so not recorded.
pub open spec fn masked_runs(s: Seq<u8>) -> Seq<(int, int)> {
    closed_runs(s, s.len() as int)
}

/// Whether `r` is the region of the run `run` on the sequence named `name`.
/// Its length is the distance from start to end.
pub open spec fn region_is(r: NRegion, name: Seq<char>, run: (int, int)) -> bool {
    &&& r.sequence_name@ == name
    &&& r.start@ == run.0
    &&& r.end@ == run.1
    &&& r.dist == run.1 - run.0
}

/// The sum of the lengths of the regions on the sequence named `name`.
pub open spec fn total_named(regions: Seq<NRegion>, name: Seq<char>) -> nat
    decreases regions.len(),
{
    if regions.len() == 0 {
        0
    } else {
        total_named(regions.drop_last(), name) + if regions.last().sequence_name@ == name {
            regions.last().dist as nat
        } else {
            0
        }
    }
}

/// The names in a log of sequence names, as characters.
pub open spec fn names_of(names: Seq<String>) -> Seq<Seq<char>> {
    names.map_values(|n: String| n@)
}

proof fn lemma_run_start_bounds(s: Seq<u8>, p: int)
    requires
        p >= 1,
    ensures
        1 <= run_start(s, p) <= p,
    decreases p,
{
    if p > 1 && is_masked(s[p - 2]) {
        lemma_run_start_bounds(s, p - 1);
    }
}

proof fn lemma_total_named_bound(regions: Seq<NRegion>, name: Seq<char>)
    ensures
        total_named(regions, name) <= regions.len() * usize::MAX,
    decreases regions.len(),
{
    if regions.len() > 0 {
        lemma_total_named_bound(regions.drop_last(), name);
        assert((regions.len() - 1) * usize::MAX + usize::MAX == regions.len() * usize::MAX)
            by (nonlinear_arith);
    }
}

/// Each recorded run lies inside the sequence and is closed by the unmasked
/// base just after its end. In particular a masked run that reaches the last
/// position of a sequence is never recorded.
pub proof fn lemma_recorded_runs_are_closed(s: Seq<u8>)
    ensures
        forall|k: int|
            0 <= k < masked_runs(s).len() ==> {
                let (start, end) = #[trigger] masked_runs(s)[k];
                &&& 1 <= start <= end
                &&& end < s.len()
                &&& !is_masked(s[end])
            },
{
    lemma_closed_runs_closed(s, s.len() as int);
}

proof fn lemma_closed_runs_closed(s: Seq<u8>, n: int)
    requires
        n <= s.len(),
    ensures
        forall|k: int|
            0 <= k < closed_runs(s, n).len() ==> {
                let (start, end) = #[trigger] closed_runs(s, n)[k];
                &&& 1 <= start <= end
                &&& end < n
                &&& !is_masked(s[end])
            },
    decreases n,
{
    if n > 1 {
        lemma_closed_runs_closed(s, n - 1);
        if !is_masked(s[n - 1]) && is_masked(s[n - 2]) {
            lemma_run_start_bounds(s, n - 1);
            let runs = closed_runs(s, n);
            assert forall|k: int| 0 <= k < runs.len() - 1 implies runs[k] == closed_runs(
                s,
                n - 1,
            )[k] by {}
        }
    }
}

/// `keys` followed by each name of `names` that is not already there, in
/// the order of `names`, each once.
pub open spec fn add_new_names(keys: Seq<Seq<char>>, names: Seq<Seq<char>>) -> Seq<Seq<char>>
    decreases names.len(),
{
    if names.len() == 0 {
        keys
    } else {
        let earlier = add_new_names(keys, names.drop_last());
        if earlier.contains(names.last()) {
            earlier
        } else {
            earlier.push(names.last())
        }
    }
}

/// The sequence names of the regions, in order.
pub open spec fn region_names(regions: Seq<NRegion>) -> Seq<Seq<char>> {
    regions.map_values(|r: NRegion| r.sequence_name@)
}

/// The names that receive a total: those the regions carry, each once, in
/// the order first carried.
pub open spec fn total_keys(regions: Seq<NRegion>) -> Seq<Seq<char>> {
    add_new_names(seq![], region_names(regions))
}

/// The names of a set of totals, in order.
pub open spec fn keys_of(totals: Seq<(String, u128)>) -> Seq<Seq<char>> {
    totals.map_values(|t: (String, u128)| t.0@)
}

/// Adding new names keeps the keys free of repeats, and holds exactly the
/// names of `keys` and of `names`.
pub proof fn lemma_add_new_names(keys: Seq<Seq<char>>, names: Seq<Seq<char>>)
    requires
        keys.no_duplicates(),
    ensures
        add_new_names(keys, names).no_duplicates(),
        forall|x: Seq<char>|
            #[trigger] add_new_names(keys, names).contains(x) <==> keys.contains(x)
                || names.contains(x),
    decreases names.len(),
{
    if names.len() > 0 {
        let earlier = add_new_names(keys, names.drop_last());
        lemma_add_new_names(keys, names.drop_last());
        let r = add_new_names(keys, names);
        assert forall|x: Seq<char>| names.contains(x) <==> names.drop_last().contains(x) || x
            == names.last() by {
            if names.contains(x) {
                let i = choose|i: int| 0 <= i < names.len() && names[i] == x;
                if i < names.len() - 1 {
                    assert(names.drop_last()[i] == x);
                }
            }
            if names.drop_last().contains(x) {
                let i = choose|i: int|
                    0 <= i < names.drop_last().len() && names.drop_last()[i] == x;
                assert(names[i] == x);
            }
        }
        if !earlier.contains(names.last()) {
            assert forall|x: Seq<char>| r.contains(x) <==> earlier.contains(x) || x
                == names.last() by {
                if r.contains(x) {
                    let i = choose|i: int| 0 <= i < r.len() && r[i] == x;
                    if i < earlier.len() {
                        assert(earlier[i] == x);
                    }
                }
                if earlier.contains(x) {
                    let i = choose|i: int| 0 <= i < earlier.len() && earlier[i] == x;
                    assert(r[i] == x);
                }
                if x == names.last() {
                    assert(r[r.len() - 1] == x);
                }
            }
            assert forall|i: int, j: int|
                0 <= i < r.len() && 0 <= j < r.len() && i != j implies r[i] != r[j] by {
                if i == r.len() - 1 {
                    assert(earlier.contains(r[j]));
                } else if j == r.len() - 1 {
                    assert(earlier.contains(r[i]));
                } else {
                    assert(r[i] == earlier[i] && r[j] == earlier[j]);
                }
            }
        }
    }
}

/// The totals name each name that a region carries, exactly once.
pub proof fn lemma_total_keys(regions: Seq<NRegion>)
    ensures
        total_keys(regions).no_duplicates(),
        forall|x: Seq<char>|
            #[trigger] total_keys(regions).contains(x) <==> region_names(regions).contains(x),
{
    let empty = Seq::<Seq<char>>::empty();
    lemma_add_new_names(empty, region_names(regions));
    assert forall|x: Seq<char>| !empty.contains(x) by {}
}

/// A name that no region carries totals zero.
proof fn lemma_total_named_absent(regions: Seq<NRegion>, name: Seq<char>)
    requires
        !region_names(regions).contains(name),
    ensures
        total_named(regions, name) == 0,
    decreases regions.len(),
{
    if regions.len() > 0 {
        let earlier = regions.drop_last();
        assert(region_names(regions)[regions.len() - 1] == regions.last().sequence_name@);
        assert forall|i: int| 0 <= i < earlier.len() implies region_names(earlier)[i]
            != name by {
            assert(region_names(earlier)[i] == region_names(regions)[i]);
        }
        lemma_total_named_absent(earlier, name);
    }
}

/// Adds `name` to `keys` unless it is already there.
fn add_name(keys: &mut Vec<String>, name: &String)
    ensures
        names_of(final(keys)@) == if names_of(old(keys)@).contains(name@) {
            names_of(old(keys)@)
        } else {
            names_of(old(keys)@).push(name@)
        },
{
    match find_name(keys, name) {
        Some(k) => {
            assert(names_of(keys@)[k as int] == name@);
        },
        None => {
            keys.push(name.clone());
            assert(names_of(keys@) =~= names_of(old(keys)@).push(name@));
        },
    }
}

/// A sequence without masked bases gives no region: processing it into an
/// analysis that holds none leaves it holding none, and after
/// postprocessing its name has no entry among the totals and totals zero.
pub proof fn lemma_unmasked_sequence_totals_zero(
    before: NRegionDetectionAnalysis,
    processed: NRegionDetectionAnalysis,
    done: NRegionDetectionAnalysis,
    record: Record,
)
    requires
        forall|i: int| 0 <= i < record.bases().len() ==> !is_masked(record.bases()[i]),
        before.regions@.len() == 0,
        NRegionDetectionAnalysis::processed(before, processed, record),
        NRegionDetectionAnalysis::postprocessed(processed, done),
    ensures
        done.regions@.len() == 0,
        !keys_of(done.total_ns->Some_0@).contains(record.name()),
        total_named(done.regions@, record.name()) == 0,
{
    let s = record.bases();
    lemma_no_masked_no_runs(s, s.len() as int);
    assert(region_names(done.regions@) =~= seq![]);
}

proof fn lemma_no_masked_no_runs(s: Seq<u8>, n: int)
    requires
        n <= s.len(),
        forall|i: int| 0 <= i < s.len() ==> !is_masked(s[i]),
    ensures
        closed_runs(s, n).len() == 0,
    decreases n,
{
    if n > 1 {
        lemma_no_masked_no_runs(s, n - 1);
    }
}

/// A sequence whose only masked bases are one run of `k` bases, at
/// positions `a` to `a + k - 1`, followed by an unmasked base, gives exactly
/// one region: from `a` to `a + k - 1`, of length `k - 1`.
pub proof fn lemma_single_run_gives_one_region(
    before: NRegionDetectionAnalysis,
    after: NRegionDetectionAnalysis,
    record: Record,
    a: int,
    k: int,
)
    requires
        k >= 1,
        a >= 1,
        a + k <= record.bases().len(),
        forall|p: int|
            1 <= p <= record.bases().len() ==> (is_masked(#[trigger] record.bases()[p - 1]) <==> a
                <= p < a + k),
        before.regions@.len() == 0,
        NRegionDetectionAnalysis::processed(before, after, record),
    ensures
        after.regions@.len() == 1,
        after.regions@[0].sequence_name@ == record.name(),
        after.regions@[0].start@ == a,
        after.regions@[0].end@ == a + k - 1,
        after.regions@[0].dist == k - 1,
{
    let s = record.bases();
    lemma_single_run(s, a, k, s.len() as int);
    let first: int = 0;
    assert(region_is(after.regions@[first + first], record.name(), masked_runs(s)[first]));
}

proof fn lemma_run_start_in_run(s: Seq<u8>, a: int, k: int, p: int)
    requires
        a >= 1,
        a <= p < a + k <= s.len(),
        forall|q: int| 1 <= q <= s.len() ==> (is_masked(#[trigger] s[q - 1]) <==> a <= q < a + k),
    ensures
        run_start(s, p) == a,
    decreases p,
{
    if p > a {
        assert(is_masked(s[(p - 1) - 1]));
        lemma_run_start_in_run(s, a, k, p - 1);
    } else if p > 1 {
        assert(!is_masked(s[(p - 1) - 1]));
    }
}

proof fn lemma_single_run(s: Seq<u8>, a: int, k: int, n: int)
    requires
        k >= 1,
        a >= 1,
        a + k <= s.len(),
        n <= s.len(),
        forall|p: int| 1 <= p <= s.len() ==> (is_masked(#[trigger] s[p - 1]) <==> a <= p < a + k),
    ensures
        closed_runs(s, n) == if n < a + k {
            Seq::<(int, int)>::empty()
        } else {
            seq![(a, a + k - 1)]
        },
    decreases n,
{
    if n > 1 {
        lemma_single_run(s, a, k, n - 1);
        let closes = !is_masked(s[n - 1]) && is_masked(s[n - 2]);
        if n == a + k {
            assert(!is_masked(s[n - 1]));
            assert(is_masked(s[(n - 1) - 1]));
            lemma_run_start_in_run(s, a, k, n - 1);
            assert(closed_runs(s, n - 1) =~= Seq::<(int, int)>::empty());
            assert(closed_runs(s, n) =~= seq![(a, a + k - 1)]);
        } else {
            if closes {
                assert(is_masked(s[(n - 1) - 1]));
                assert(!is_masked(s[n - 1]));
            }
        }
    }
}

//==========//
// Regions  //
//==========//

/// A region of the genome whose bases are all N-masked, from `start` to
/// `end` inclusive.
#[derive(Debug)]
pub struct NRegion {
    /// Name of the sequence the region sits on.
    pub sequence_name: String,
    /// First position of the region (inclusive).
    pub start: Position,
    /// Last position of the region (inclusive).
    pub end: Position,
    /// Size of the region, counted as `end - start`.
    pub dist: usize,
}

/// The N-region detection analysis.
#[derive(Debug)]
pub struct NRegionDetectionAnalysis {
    /// The regions detected, in the order they were found.
    pub regions: Vec<NRegion>,
    /// Sequence names in the order they were first seen, each once.
    pub sequence_names: Vec<String>,
    /// For each name of `sequence_names`, in its order, the total length of
    /// its regions, once postprocessing has run.
    pub total_ns: Option<Vec<(String, u128)>>,
}

impl Default for NRegionDetectionAnalysis {
    fn default() -> (r: Self)
        ensures
            r.regions@.len() == 0,
            r.sequence_names@.len() == 0,
            r.total_ns is None,
    {
        NRegionDetectionAnalysis { regions: Vec::new(), sequence_names: Vec::new(), total_ns: None }
    }
}

/// Where `name` stands in `names`, if it does.
fn find_name(names: &Vec<String>, name: &String) -> (r: Option<usize>)
    ensures
        r is Some ==> r->Some_0 < names@.len() && names@[r->Some_0 as int]@ == name@,
        r is None ==> !names_of(names@).contains(name@),
{
    let mut i: usize = 0;
    while i < names.len()
        invariant
            i <= names@.len(),
            forall|j: int| 0 <= j < i ==> names@[j]@ != name@,
        decreases names@.len() - i,
    {
        if names[i] == *name {
            return Some(i);
        }
        i = i + 1;
    }
    proof {
        if names_of(names@).contains(name@) {
            let j = choose|j: int| 0 <= j < names_of(names@).len() && names_of(names@)[j] == name@;
            assert(names@[j]@ == name@);
        }
    }
    None
}

/// The sum of the lengths of the regions on the sequence named `name`.
fn sum_named(regions: &Vec<NRegion>, name: &String) -> (r: u128)
    ensures
        r == total_named(regions@, name@),
{
    let mut total: u128 = 0;
    let mut j: usize = 0;
    while j < regions.len()
        invariant
            j <= regions@.len(),
            total == total_named(regions@.take(j as int), name@),
        decreases regions@.len() - j,
    {
        proof {
            lemma_total_named_bound(regions@.take(j as int), name@);
            assert(j * usize::MAX + usize::MAX <= usize::MAX * usize::MAX + usize::MAX)
                by (nonlinear_arith)
                requires
                    j < usize::MAX,
            ;
            assert(regions@.take(j + 1).drop_last() =~= regions@.take(j as int));
        }
        if regions[j].sequence_name == *name {
            total = total + regions[j].dist as u128;
        }
        j = j + 1;
    }
    assert(regions@.take(j as int) =~= regions@);
    total
}

impl NRegionDetectionAnalysis {
    /// What processing `record` makes of `old`: the masked runs of its
    /// sequence are appended as regions, and its name is logged unless it
    /// already was.
    pub open spec fn processed(old: Self, new: Self, record: Record) -> bool {
        let runs = masked_runs(record.bases());
        let n = old.regions@.len();
        &&& new.regions@.len() == n + runs.len()
        &&& new.regions@.take(n as int) == old.regions@
        &&& forall|k: int|
            0 <= k < runs.len() ==> #[trigger] region_is(
                new.regions@[n + k],
                record.name(),
                runs[k],
            )
        &&& names_of(new.sequence_names@) == if names_of(old.sequence_names@).contains(
            record.name(),
        ) {
            names_of(old.sequence_names@)
        } else {
            names_of(old.sequence_names@).push(record.name())
        }
        &&& new.total_ns == old.total_ns
    }

    /// What postprocessing makes of `old`: the totals of its regions, by
    /// sequence name.
    pub open spec fn postprocessed(old: Self, new: Self) -> bool {
        &&& new.regions == old.regions
        &&& new.sequence_names == old.sequence_names
        &&& new.totals_hold()
    }

    /// Whether the totals are computed: one entry for each name that a
    /// region carries, in the order first carried, no name twice, each the
    /// total length of that name's regions.
    pub open spec fn totals_hold(self) -> bool {
        let keys = keys_of(self.total_ns->Some_0@);
        &&& self.total_ns is Some
        &&& keys == total_keys(self.regions@)
        &&& keys.no_duplicates()
        &&& forall|x: Seq<char>| #[trigger] keys.contains(x) <==> region_names(self.regions@).contains(x)
        &&& forall|i: int|
            0 <= i < keys.len() ==> (#[trigger] self.total_ns->Some_0@[i]).1 == total_named(
                self.regions@,
                keys[i],
            )
    }

    /// Scans a record for maximal runs of masked bases and records each one
    /// that an unmasked base closes.
    pub fn process(&mut self, record: &Record) -> (r: Result<(), AnalysisError>)
        ensures
            r is Ok,
            Self::processed(*old(self), *final(self), *record),
    {
        let sequence: &Sequence = record.sequence();
        let sequence_name: &String = record.name_str();
        let ghost s = sequence@;
        let ghost n = old(self).regions@.len();
        let len = sequence.len();
        let mut region_start: Option<Position> = None;
        let mut i: usize = 0;
        while i < len
            invariant
                len == s.len(),
                s == sequence@,
                i <= len,
                self.regions@.len() == n + closed_runs(s, i as int).len(),
                self.regions@.take(n as int) == old(self).regions@,
                forall|k: int|
                    0 <= k < closed_runs(s, i as int).len() ==> #[trigger] region_is(
                        self.regions@[n + k],
                        sequence_name@,
                        closed_runs(s, i as int)[k],
                    ),
                i >= 1 && is_masked(s[i - 1]) ==> region_start is Some
                    && region_start->Some_0@ == run_start(s, i as int),
                !(i >= 1 && is_masked(s[i - 1])) ==> region_start is None,
                self.sequence_names == old(self).sequence_names,
                self.total_ns == old(self).total_ns,
            decreases len - i,
        {
            let ghost before = self.regions@;
            let ptr = i + 1;
            let ptr_position = match Position::new(ptr) {
                Ok(p) => p,
                Err(e) => {
                    return Err(e);
                },
            };
            let base = match sequence.get(ptr_position) {
                Some(b) => b,
                None => {
                    return Err(AnalysisError::InvalidPosition);
                },
            };
            if base_is_masked(base) {
                if region_start.is_none() {
                    region_start = Some(ptr_position);
                }
                assert(closed_runs(s, ptr as int) == closed_runs(s, i as int));
            } else if let Some(start) = region_start {
                proof {
                    lemma_run_start_bounds(s, i as int);
                }
                let end = match Position::new(i) {
                    Ok(p) => p,
                    Err(e) => {
                        return Err(e);
                    },
                };
                let dist = end.get() - start.get();
                let region = NRegion { sequence_name: sequence_name.clone(), start, end, dist };
                self.regions.push(region);
                region_start = None;
                proof {
                    let runs = closed_runs(s, ptr as int);
                    assert(runs == closed_runs(s, i as int).push((run_start(s, i as int), i as int)));
                    assert(self.regions@.take(n as int) =~= before.take(n as int));
                    assert forall|k: int| 0 <= k < runs.len() implies #[trigger] region_is(
                        self.regions@[n + k],
                        sequence_name@,
                        runs[k],
                    ) by {
                        if k < runs.len() - 1 {
                            assert(region_is(
                                before[n + k],
                                sequence_name@,
                                closed_runs(s, i as int)[k],
                            ));
                        }
                    }
                }
            } else {
                assert(closed_runs(s, ptr as int) == closed_runs(s, i as int));
            }
            i = ptr;
        }
        add_name(&mut self.sequence_names, sequence_name);
        Ok(())
    }

    /// Totals the lengths of the regions by the name of their sequence.
    pub fn postprocess(&mut self) -> (r: Result<(), AnalysisError>)
        ensures
            r is Ok,
            Self::postprocessed(*old(self), *final(self)),
    {
        let ghost carried = region_names(self.regions@);
        // (1) The names to total: those the regions carry.
        let mut keys: Vec<String> = Vec::new();
        let mut j: usize = 0;
        assert(carried.take(0) =~= seq![]);
        assert(names_of(keys@) =~= seq![]);
        while j < self.regions.len()
            invariant
                j <= self.regions@.len(),
                carried == region_names(self.regions@),
                names_of(keys@) == add_new_names(seq![], carried.take(j as int)),
            decreases self.regions@.len() - j,
        {
            add_name(&mut keys, &self.regions[j].sequence_name);
            assert(carried.take(j + 1).drop_last() =~= carried.take(j as int));
            j = j + 1;
        }
        assert(carried.take(j as int) =~= carried);
        // (2) The total of each name.
        let mut totals: Vec<(String, u128)> = Vec::new();
        let mut k: usize = 0;
        while k < keys.len()
            invariant
                k <= keys@.len(),
                totals@.len() == k,
                forall|m: int|
                    0 <= m < k ==> {
                        &&& (#[trigger] totals@[m]).0@ == keys@[m]@
                        &&& totals@[m].1 == total_named(self.regions@, keys@[m]@)
                    },
            decreases keys@.len() - k,
        {
            let total = sum_named(&self.regions, &keys[k]);
            totals.push((keys[k].clone(), total));
            k = k + 1;
        }
        proof {
            assert(keys_of(totals@) =~= names_of(keys@));
            lemma_total_keys(self.regions@);
        }
        self.total_ns = Some(totals);
        Ok(())
    }

    /// The total length of the regions named `name`, as reported: its entry
    /// in the totals, or zero for a name that no region carries.
    pub fn total_for(&self, name: &String) -> (r: u128)
        requires
            self.total_ns is Some,
        ensures
            keys_of(self.total_ns->Some_0@).contains(name@) ==> exists|i: int|
                0 <= i < self.total_ns->Some_0@.len() && (#[trigger] self.total_ns->Some_0@[i]).0@
                    == name@ && r == self.total_ns->Some_0@[i].1,
            !keys_of(self.total_ns->Some_0@).contains(name@) ==> r == 0,
            self.totals_hold() ==> r == total_named(self.regions@, name@),
    {
        let totals = self.total_ns.as_ref().unwrap();
        let mut i: usize = 0;
        while i < totals.len()
            invariant
                totals@ == self.total_ns->Some_0@,
                i <= totals@.len(),
                forall|j: int| 0 <= j < i ==> (#[trigger] totals@[j]).0@ != name@,
            decreases totals@.len() - i,
        {
            if totals[i].0 == *name {
                assert(keys_of(totals@)[i as int] == name@);
                return totals[i].1;
            }
            i = i + 1;
        }
        proof {
            if keys_of(totals@).contains(name@) {
                let j = choose|j: int| 0 <= j < totals@.len() && keys_of(totals@)[j] == name@;
                assert(totals@[j].0@ == name@);
            }
            if self.totals_hold() {
                lemma_total_named_absent(self.regions@, name@);
            }
        }
        0
    }
}

impl Analysis for NRegionDetectionAnalysis {
    open spec fn label(&self) -> Seq<char> {
        "N Region Detection"@
    }

    open spec fn process_step(
        old: Self,
        new: Self,
        record: Record,
        r: Result<(), AnalysisError>,
    ) -> bool {
        r is Ok && Self::processed(old, new, record)
    }

    open spec fn postprocess_step(old: Self, new: Self, r: Result<(), AnalysisError>) -> bool {
        r is Ok && Self::postprocessed(old, new)
    }

    open spec fn reportable(&self) -> bool {
        self.totals_hold()
    }

    fn name(&self) -> (r: &'static str) {
        "N Region Detection"
    }

    fn process(&mut self, record: &Record) -> Result<(), AnalysisError> {
        NRegionDetectionAnalysis::process(self, record)
    }

    fn postprocess(&mut self) -> Result<(), AnalysisError> {
        NRegionDetectionAnalysis::postprocess(self)
    }
}

} // verus!
