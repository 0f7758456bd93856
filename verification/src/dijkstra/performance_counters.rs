use vstd::prelude::*;

verus! {

/// The larger of two sizes.
pub open spec fn larger(a: usize, b: usize) -> usize {
    if a >= b {
        a
    } else {
        b
    }
}

/// The larger of two sizes.
fn max_size(a: usize, b: usize) -> (r: usize)
    ensures
        r == larger(a, b),
{
    if a >= b {
        a
    } else {
        b
    }
}

/// A simple performance counter for Dijkstra's algorithm, keeping all supported counts.
///
/// The counts are kept modulo the range of their types.
#[derive(Debug, Clone, Copy, PartialEq, Eq, Structural)]
pub struct DijkstraPerformanceCounter {
    /// The number of iterations of the main loop of Dijkstra's algorithm.
    pub iterations: u64,
    /// The number of unnecessary heap elements.
    pub unnecessary_heap_elements: u64,
    max_heap_size: usize,
    max_distance_array_size: usize,
    max_max_heap_size: usize,
    max_max_distance_array_size: usize,
    sum_max_heap_size: u128,
    sum_max_distance_array_size: u128,
    total_invocations: u64,
}

/// A performance counter for Dijkstra's algorithm that ignores all counts.
#[derive(Debug, Clone, Copy, PartialEq, Eq, Structural)]
pub struct NoopDijkstraPerformanceCounter;

/// What a performance counter has recorded.
pub struct PerformanceRecord {
    /// The number of iterations of the main loop, modulo 2^64.
    pub iterations: u64,
    /// The number of unnecessary heap elements, modulo 2^64.
    pub unnecessary_heap_elements: u64,
    /// The largest heap size recorded since the last finished invocation.
    pub max_heap_size: usize,
    /// The largest distance array size recorded since the last finished invocation.
    pub max_distance_array_size: usize,
    /// The largest heap size of all finished invocations.
    pub max_max_heap_size: usize,
    /// The largest distance array size of all finished invocations.
    pub max_max_distance_array_size: usize,
    /// The sum of the largest heap sizes of the finished invocations, modulo 2^128.
    pub sum_max_heap_size: u128,
    /// The sum of the largest distance array sizes of the finished invocations, modulo 2^128.
    pub sum_max_distance_array_size: u128,
    /// The number of finished invocations, modulo 2^64.
    pub total_invocations: u64,
}

/// The sum of two records: counts and sums are added, maxima are the larger
/// of the two.
pub open spec fn record_sum(a: PerformanceRecord, b: PerformanceRecord) -> PerformanceRecord {
    PerformanceRecord {
        iterations: a.iterations.wrapping_add(b.iterations),
        unnecessary_heap_elements: a.unnecessary_heap_elements.wrapping_add(
            b.unnecessary_heap_elements,
        ),
        max_heap_size: larger(a.max_heap_size, b.max_heap_size),
        max_distance_array_size: larger(a.max_distance_array_size, b.max_distance_array_size),
        max_max_heap_size: larger(a.max_max_heap_size, b.max_max_heap_size),
        max_max_distance_array_size: larger(
            a.max_max_distance_array_size,
            b.max_max_distance_array_size,
        ),
        sum_max_heap_size: a.sum_max_heap_size.wrapping_add(b.sum_max_heap_size),
        sum_max_distance_array_size: a.sum_max_distance_array_size.wrapping_add(
            b.sum_max_distance_array_size,
        ),
        total_invocations: a.total_invocations.wrapping_add(b.total_invocations),
    }
}

impl View for DijkstraPerformanceCounter {
    type V = PerformanceRecord;

    closed spec fn view(&self) -> PerformanceRecord {
        PerformanceRecord {
            iterations: self.iterations,
            unnecessary_heap_elements: self.unnecessary_heap_elements,
            max_heap_size: self.max_heap_size,
            max_distance_array_size: self.max_distance_array_size,
            max_max_heap_size: self.max_max_heap_size,
            max_max_distance_array_size: self.max_max_distance_array_size,
            sum_max_heap_size: self.sum_max_heap_size,
            sum_max_distance_array_size: self.sum_max_distance_array_size,
            total_invocations: self.total_invocations,
        }
    }
}

impl core::ops::Add for DijkstraPerformanceCounter {
    type Output = Self;

    fn add(self, rhs: Self) -> (r: Self)
        ensures
            r@ == record_sum(self@, rhs@),
    {
        Self {
            iterations: self.iterations.wrapping_add(rhs.iterations),
            unnecessary_heap_elements: self.unnecessary_heap_elements.wrapping_add(
                rhs.unnecessary_heap_elements,
            ),
            max_heap_size: max_size(self.max_heap_size, rhs.max_heap_size),
            max_distance_array_size: max_size(
                self.max_distance_array_size,
                rhs.max_distance_array_size,
            ),
            max_max_heap_size: max_size(self.max_max_heap_size, rhs.max_max_heap_size),
            max_max_distance_array_size: max_size(
                self.max_max_distance_array_size,
                rhs.max_max_distance_array_size,
            ),
            sum_max_heap_size: self.sum_max_heap_size.wrapping_add(rhs.sum_max_heap_size),
            sum_max_distance_array_size: self.sum_max_distance_array_size.wrapping_add(
                rhs.sum_max_distance_array_size,
            ),
            total_invocations: self.total_invocations.wrapping_add(rhs.total_invocations),
        }
    }
}

impl vstd::std_specs::ops::AddSpecImpl for DijkstraPerformanceCounter {
    open spec fn obeys_add_spec() -> bool {
        true
    }

    open spec fn add_req(self, rhs: Self) -> bool {
        true
    }

    closed spec fn add_spec(self, rhs: Self) -> Self {
        DijkstraPerformanceCounter {
            iterations: self.iterations.wrapping_add(rhs.iterations),
            unnecessary_heap_elements: self.unnecessary_heap_elements.wrapping_add(
                rhs.unnecessary_heap_elements,
            ),
            max_heap_size: larger(self.max_heap_size, rhs.max_heap_size),
            max_distance_array_size: larger(
                self.max_distance_array_size,
                rhs.max_distance_array_size,
            ),
            max_max_heap_size: larger(self.max_max_heap_size, rhs.max_max_heap_size),
            max_max_distance_array_size: larger(
                self.max_max_distance_array_size,
                rhs.max_max_distance_array_size,
            ),
            sum_max_heap_size: self.sum_max_heap_size.wrapping_add(rhs.sum_max_heap_size),
            sum_max_distance_array_size: self.sum_max_distance_array_size.wrapping_add(
                rhs.sum_max_distance_array_size,
            ),
            total_invocations: self.total_invocations.wrapping_add(rhs.total_invocations),
        }
    }
}

impl vstd::std_specs::ops::AddSpecImpl for NoopDijkstraPerformanceCounter {
    open spec fn obeys_add_spec() -> bool {
        true
    }

    open spec fn add_req(self, rhs: Self) -> bool {
        true
    }

    open spec fn add_spec(self, rhs: Self) -> Self {
        NoopDijkstraPerformanceCounter
    }
}

impl core::ops::Add for NoopDijkstraPerformanceCounter {
    type Output = Self;

    fn add(self, _rhs: Self) -> (r: Self) {
        Self
    }
}

/// The record after one more iteration of the main loop.
pub open spec fn with_iteration(record: PerformanceRecord) -> PerformanceRecord {
    PerformanceRecord { iterations: record.iterations.wrapping_add(1), ..record }
}

/// The record after one more unnecessary heap element.
pub open spec fn with_unnecessary_heap_element(record: PerformanceRecord) -> PerformanceRecord {
    PerformanceRecord {
        unnecessary_heap_elements: record.unnecessary_heap_elements.wrapping_add(1),
        ..record
    }
}

/// The record after a heap size was recorded.
pub open spec fn with_heap_size(record: PerformanceRecord, heap_size: usize) -> PerformanceRecord {
    PerformanceRecord { max_heap_size: larger(record.max_heap_size, heap_size), ..record }
}

/// The record after a distance array size was recorded.
pub open spec fn with_distance_array_size(
    record: PerformanceRecord,
    distance_array_size: usize,
) -> PerformanceRecord {
    PerformanceRecord {
        max_distance_array_size: larger(record.max_distance_array_size, distance_array_size),
        ..record
    }
}

/// The record after an invocation was finished: its largest sizes enter the
/// maxima and the sums of all invocations, and start again at zero.
pub open spec fn finished(record: PerformanceRecord) -> PerformanceRecord {
    PerformanceRecord {
        iterations: record.iterations,
        unnecessary_heap_elements: record.unnecessary_heap_elements,
        max_heap_size: 0,
        max_distance_array_size: 0,
        max_max_heap_size: larger(record.max_max_heap_size, record.max_heap_size),
        max_max_distance_array_size: larger(
            record.max_max_distance_array_size,
            record.max_distance_array_size,
        ),
        sum_max_heap_size: record.sum_max_heap_size.wrapping_add(record.max_heap_size as u128),
        sum_max_distance_array_size: record.sum_max_distance_array_size.wrapping_add(
            record.max_distance_array_size as u128,
        ),
        total_invocations: record.total_invocations.wrapping_add(1),
    }
}

/// The given change made to a record, if there is one.
pub open spec fn changed(
    record: Option<PerformanceRecord>,
    change: spec_fn(PerformanceRecord) -> PerformanceRecord,
) -> Option<PerformanceRecord> {
    match record {
        Some(record) => Some(change(record)),
        None => None,
    }
}

/// The record after `iterations` more iterations of the main loop, of which
/// `unnecessary` found an unnecessary heap element.
pub open spec fn with_iterations(
    record: PerformanceRecord,
    iterations: nat,
    unnecessary: nat,
) -> PerformanceRecord {
    PerformanceRecord {
        iterations: ((record.iterations + iterations) % 0x1_0000_0000_0000_0000) as u64,
        unnecessary_heap_elements: ((record.unnecessary_heap_elements + unnecessary)
            % 0x1_0000_0000_0000_0000) as u64,
        ..record
    }
}

/// What is recorded after `iterations` more iterations of the main loop, of
/// which `unnecessary` found an unnecessary heap element, if anything is.
pub open spec fn after_iterations(
    record: Option<PerformanceRecord>,
    iterations: nat,
    unnecessary: nat,
) -> Option<PerformanceRecord> {
    match record {
        Some(record) => Some(with_iterations(record, iterations, unnecessary)),
        None => None,
    }
}

/// One more iteration after some is as many iterations and one.
pub proof fn lemma_one_more_iteration(record: PerformanceRecord, iterations: nat, unnecessary: nat)
    ensures
        with_iterations(record, 0, 0) == record,
        with_iteration(with_iterations(record, iterations, unnecessary)) == with_iterations(
            record,
            iterations + 1,
            unnecessary,
        ),
        with_unnecessary_heap_element(with_iterations(record, iterations, unnecessary))
            == with_iterations(record, iterations, unnecessary + 1),
{
}

/// One more iteration after some is as many iterations and one, where
/// anything is recorded.
pub proof fn lemma_after_one_more(record: Option<PerformanceRecord>, iterations: nat, unnecessary: nat)
    ensures
        after_iterations(record, 0, 0) == record,
        changed(
            after_iterations(record, iterations, unnecessary),
            |r: PerformanceRecord| with_iteration(r),
        ) == after_iterations(record, iterations + 1, unnecessary),
        changed(
            after_iterations(record, iterations, unnecessary),
            |r: PerformanceRecord| with_unnecessary_heap_element(r),
        ) == after_iterations(record, iterations, unnecessary + 1),
{
    if record.is_some() {
        lemma_one_more_iteration(record.unwrap(), iterations, unnecessary);
    }
}

/// Performance data collected by Dijkstra's algorithm.
/// This trait allows to collect the performance data optionally,
/// by providing a type that either collects it, or ignores it.
///
/// The model is the [`record`](DijkstraPerformanceData::record) of what was
/// collected, which a type that ignores the data does not have.
pub trait DijkstraPerformanceData {
    /// What was recorded, if anything is.
    spec fn record(&self) -> Option<PerformanceRecord>;

    /// Increment the number of iterations of the main loop of Dijkstra's algorithm.
    fn add_iteration(&mut self)
        ensures
            final(self).record() == changed(old(self).record(), |r: PerformanceRecord| with_iteration(r)),
    ;

    /// Increment the number of heap elements that already have a lower weight than what was stored in the heap.
    /// These are wasted cycles because our heap does not support the `decrease_key` operation.
    fn add_unnecessary_heap_element(&mut self)
        ensures
            final(self).record() == changed(
                old(self).record(),
                |r: PerformanceRecord| with_unnecessary_heap_element(r),
            ),
    ;

    /// Record the current heap size of Dijkstra's algorithm.
    fn record_heap_size(&mut self, heap_size: usize)
        ensures
            final(self).record() == changed(
                old(self).record(),
                |r: PerformanceRecord| with_heap_size(r, heap_size),
            ),
    ;

    /// Record the current distance array size of Dijkstra's algorithm.
    fn record_distance_array_size(&mut self, distance_array_size: usize)
        ensures
            final(self).record() == changed(
                old(self).record(),
                |r: PerformanceRecord| with_distance_array_size(r, distance_array_size),
            ),
    ;

    /// Finish an invocation of Dijkstra's algorithm.
    /// Performs finalisation of recorded metrics that are local to single Dijkstra invocations.
    fn finish_dijkstra(&mut self)
        ensures
            final(self).record() == changed(old(self).record(), |r: PerformanceRecord| finished(r)),
    ;

    /// Get the number of iterations of the main loop of Dijkstra's algorithm.
    fn iterations(&self) -> (r: Option<u64>)
        ensures
            r == match self.record() {
                Some(record) => Some(record.iterations),
                None => None,
            },
    ;

    /// Get the number of unnecessary heap elements that were inserted during Dijkstra's algorithm.
    fn unnecessary_heap_elements(&self) -> (r: Option<u64>)
        ensures
            r == match self.record() {
                Some(record) => Some(record.unnecessary_heap_elements),
                None => None,
            },
    ;

    /// Get the maximum heap size encountered at any point during execution.
    fn max_max_heap_size(&self) -> (r: Option<usize>)
        ensures
            r == match self.record() {
                Some(record) => Some(record.max_max_heap_size),
                None => None,
            },
    ;

    /// Get the maximum distance array size encountered at any point during execution.
    fn max_max_distance_array_size(&self) -> (r: Option<usize>)
        ensures
            r == match self.record() {
                Some(record) => Some(record.max_max_distance_array_size),
                None => None,
            },
    ;

    /// Get the sum of the maximum heap sizes of all invocations of Dijkstra's
    /// algorithm and the number of these invocations. The first divided by the
    /// second is the maximum heap size as average over all invocations.
    fn average_max_heap_size_parts(&self) -> (r: Option<(u128, u64)>)
        ensures
            r == match self.record() {
                Some(record) => Some((record.sum_max_heap_size, record.total_invocations)),
                None => None,
            },
    ;

    /// Get the sum of the maximum distance array sizes of all invocations of
    /// Dijkstra's algorithm and the number of these invocations. The first
    /// divided by the second is the maximum distance array size as average over
    /// all invocations.
    fn average_max_distance_array_size_parts(&self) -> (r: Option<(u128, u64)>)
        ensures
            r == match self.record() {
                Some(record) => Some((record.sum_max_distance_array_size, record.total_invocations)),
                None => None,
            },
    ;
}

/// The record of a counter that has recorded nothing.
pub open spec fn empty_record() -> PerformanceRecord {
    PerformanceRecord {
        iterations: 0,
        unnecessary_heap_elements: 0,
        max_heap_size: 0,
        max_distance_array_size: 0,
        max_max_heap_size: 0,
        max_max_distance_array_size: 0,
        sum_max_heap_size: 0,
        sum_max_distance_array_size: 0,
        total_invocations: 0,
    }
}

impl Default for DijkstraPerformanceCounter {
    fn default() -> (r: Self)
        ensures
            r@ == empty_record(),
    {
        Self::new()
    }
}

impl Default for NoopDijkstraPerformanceCounter {
    fn default() -> (r: Self)
        ensures
            r == NoopDijkstraPerformanceCounter,
    {
        NoopDijkstraPerformanceCounter
    }
}

impl DijkstraPerformanceCounter {
    /// A counter that has recorded nothing.
    pub fn new() -> (r: Self)
        ensures
            r@ == empty_record(),
    {
        Self {
            iterations: 0,
            unnecessary_heap_elements: 0,
            max_heap_size: 0,
            max_distance_array_size: 0,
            max_max_heap_size: 0,
            max_max_distance_array_size: 0,
            sum_max_heap_size: 0,
            sum_max_distance_array_size: 0,
            total_invocations: 0,
        }
    }

    /// Adds what another counter has recorded to this one.
    pub fn add_assign(&mut self, rhs: Self)
        ensures
            final(self)@ == record_sum(old(self)@, rhs@),
    {
        *self = *self + rhs;
    }
}

impl DijkstraPerformanceData for DijkstraPerformanceCounter {
    open spec fn record(&self) -> Option<PerformanceRecord> {
        Some(self@)
    }

    fn add_iteration(&mut self) {
        self.iterations = self.iterations.wrapping_add(1);
    }

    fn add_unnecessary_heap_element(&mut self) {
        self.unnecessary_heap_elements = self.unnecessary_heap_elements.wrapping_add(1);
    }

    fn record_heap_size(&mut self, heap_size: usize) {
        self.max_heap_size = max_size(self.max_heap_size, heap_size);
    }

    fn record_distance_array_size(&mut self, distance_array_size: usize) {
        self.max_distance_array_size = max_size(self.max_distance_array_size, distance_array_size);
    }

    fn finish_dijkstra(&mut self) {
        self.max_max_heap_size = max_size(self.max_max_heap_size, self.max_heap_size);
        self.max_max_distance_array_size = max_size(
            self.max_max_distance_array_size,
            self.max_distance_array_size,
        );
        self.sum_max_heap_size = self.sum_max_heap_size.wrapping_add(self.max_heap_size as u128);
        self.sum_max_distance_array_size = self.sum_max_distance_array_size.wrapping_add(
            self.max_distance_array_size as u128,
        );

        self.max_heap_size = 0;
        self.max_distance_array_size = 0;
        self.total_invocations = self.total_invocations.wrapping_add(1);
    }

    fn iterations(&self) -> (r: Option<u64>) {
        Some(self.iterations)
    }

    fn unnecessary_heap_elements(&self) -> (r: Option<u64>) {
        Some(self.unnecessary_heap_elements)
    }

    fn max_max_heap_size(&self) -> (r: Option<usize>) {
        Some(self.max_max_heap_size)
    }

    fn max_max_distance_array_size(&self) -> (r: Option<usize>) {
        Some(self.max_max_distance_array_size)
    }

    fn average_max_heap_size_parts(&self) -> (r: Option<(u128, u64)>) {
        Some((self.sum_max_heap_size, self.total_invocations))
    }

    fn average_max_distance_array_size_parts(&self) -> (r: Option<(u128, u64)>) {
        Some((self.sum_max_distance_array_size, self.total_invocations))
    }
}

impl NoopDijkstraPerformanceCounter {
    /// Ignores what another counter has recorded.
    pub fn add_assign(&mut self, _rhs: Self)
        ensures
            *final(self) == *old(self),
    {
    }
}

impl DijkstraPerformanceData for NoopDijkstraPerformanceCounter {
    open spec fn record(&self) -> Option<PerformanceRecord> {
        None
    }

    fn add_iteration(&mut self) {
    }

    fn add_unnecessary_heap_element(&mut self) {
    }

    fn record_heap_size(&mut self, _heap_size: usize) {
    }

    fn record_distance_array_size(&mut self, _distance_array_size: usize) {
    }

    fn finish_dijkstra(&mut self) {
    }

    fn iterations(&self) -> (r: Option<u64>) {
        None
    }

    fn unnecessary_heap_elements(&self) -> (r: Option<u64>) {
        None
    }

    fn max_max_heap_size(&self) -> (r: Option<usize>) {
        None
    }

    fn max_max_distance_array_size(&self) -> (r: Option<usize>) {
        None
    }

    fn average_max_heap_size_parts(&self) -> (r: Option<(u128, u64)>) {
        None
    }

    fn average_max_distance_array_size_parts(&self) -> (r: Option<(u128, u64)>) {
        None
    }
}

/// Adding counters is associative: it does not matter in which order the
/// counters of several runs are combined.
pub proof fn lemma_record_sum_associative(
    a: PerformanceRecord,
    b: PerformanceRecord,
    c: PerformanceRecord,
)
    ensures
        record_sum(record_sum(a, b), c) == record_sum(a, record_sum(b, c)),
{
    lemma_wrapping_add_u64_associative(a.iterations, b.iterations, c.iterations);
    lemma_wrapping_add_u64_associative(
        a.unnecessary_heap_elements,
        b.unnecessary_heap_elements,
        c.unnecessary_heap_elements,
    );
    lemma_wrapping_add_u64_associative(
        a.total_invocations,
        b.total_invocations,
        c.total_invocations,
    );
    lemma_wrapping_add_u128_associative(
        a.sum_max_heap_size,
        b.sum_max_heap_size,
        c.sum_max_heap_size,
    );
    lemma_wrapping_add_u128_associative(
        a.sum_max_distance_array_size,
        b.sum_max_distance_array_size,
        c.sum_max_distance_array_size,
    );
}

/// Adding counters is commutative.
pub proof fn lemma_record_sum_commutative(a: PerformanceRecord, b: PerformanceRecord)
    ensures
        record_sum(a, b) == record_sum(b, a),
{
}

/// Addition modulo 2^64 is associative.
pub proof fn lemma_wrapping_add_u64_associative(a: u64, b: u64, c: u64)
    ensures
        a.wrapping_add(b).wrapping_add(c) == a.wrapping_add(b.wrapping_add(c)),
{
}

/// Addition modulo 2^128 is associative.
pub proof fn lemma_wrapping_add_u128_associative(a: u128, b: u128, c: u128)
    ensures
        a.wrapping_add(b).wrapping_add(c) == a.wrapping_add(b.wrapping_add(c)),
{
}

} // verus!
