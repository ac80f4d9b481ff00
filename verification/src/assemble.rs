//! The assembly of a raster from results that arrive one by one, in any
//! order: each arrival is written at its own coordinate, the arrivals are
//! counted, and the count decides when the raster is complete and which
//! progress is worth a report.

use vstd::prelude::*;
use crate::convolve::{Sample, samples};
use crate::kernel::Matrix;
use crate::plan::{job_count, lemma_planned_covers};
use crate::raster::{Raster, RasterView, Color, blank_pixels};
use crate::sequential::{blends_to, blurred_from};

verus! {

/// The result of one job: a coordinate and its new colour.
#[derive(Clone, Copy, Debug, PartialEq, Eq)]
pub struct Arrival {
    pub x: u32,
    pub y: u32,
    pub color: Color,
}

/// What became of an arrival.
#[derive(Clone, Copy, Debug, PartialEq, Eq)]
pub enum Progress {
    /// Its coordinate lies outside the raster, or every expected result had
    /// arrived before: nothing changed.
    Rejected,
    /// It was written, and there is nothing to report.
    Stored,
    /// It was written, and with it the share of results that have arrived
    /// crossed a multiple of ten percent for the first time: this is the
    /// highest multiple that the share has reached.
    Milestone(u8),
    /// It was written, and it was the last one expected.
    Complete,
}

/// The pixels after the arrivals of `history` were written over `start`,
/// first to last.
pub open spec fn assembled(start: Map<(int, int), Color>, history: Seq<Arrival>) -> Map<
    (int, int),
    Color,
>
    decreases history.len(),
{
    if history.len() == 0 {
        start
    } else {
        assembled(start, history.drop_last()).insert(
            (history.last().x as int, history.last().y as int),
            history.last().color,
        )
    }
}

/// The share of `received` in `expected`, in percent, rounded down.
pub open spec fn percent(received: int, expected: int) -> int {
    received * 100 / expected
}

/// The highest multiple of ten that the share of `received` in `expected`
/// has reached, in percent.
pub open spec fn tenth(received: int, expected: int) -> int {
    percent(received, expected) / 10 * 10
}

/// What the arrival that brings the count to `received` means: the raster
/// is complete, or the share has crossed a multiple of ten that the count
/// before had not reached, or there is nothing to report.
pub open spec fn progress_at(received: int, expected: int) -> Progress {
    if received == expected {
        Progress::Complete
    } else if tenth(received, expected) > tenth(received - 1, expected) {
        Progress::Milestone(tenth(received, expected) as u8)
    } else {
        Progress::Stored
    }
}

/// What a collector is: the raster so far, the counts, the highest multiple
/// of ten percent reported, and the arrivals that were written, first to
/// last.
pub struct CollectorView {
    pub output: RasterView,
    pub received: nat,
    pub expected: nat,
    pub reported: nat,
    pub history: Seq<Arrival>,
}

impl CollectorView {
    /// The collector for a raster of the given dimensions before anything
    /// arrived: all black, with one result expected for each pixel.
    pub open spec fn fresh(width: nat, height: nat) -> CollectorView {
        CollectorView {
            output: RasterView { width, height, pixels: blank_pixels(width, height) },
            received: 0,
            expected: width * height,
            reported: 0,
            history: Seq::empty(),
        }
    }

    /// Whether `arrival` will be written: its coordinate lies inside the
    /// raster and results are still expected.
    pub open spec fn admits(self, arrival: Arrival) -> bool {
        self.received < self.expected && self.output.contains(arrival.x as int, arrival.y as int)
    }

    /// What becomes of `arrival`.
    pub open spec fn progress_of(self, arrival: Arrival) -> Progress {
        if self.admits(arrival) {
            progress_at(self.received as int + 1, self.expected as int)
        } else {
            Progress::Rejected
        }
    }

    /// The collector after `arrival` came: one that it admits is written at
    /// its coordinate and counted, and a multiple of ten that was crossed is
    /// noted as reported; any other changes nothing.
    pub open spec fn after_accept(self, arrival: Arrival) -> CollectorView {
        if self.admits(arrival) {
            CollectorView {
                output: RasterView {
                    pixels: self.output.pixels.insert(
                        (arrival.x as int, arrival.y as int),
                        arrival.color,
                    ),
                    ..self.output
                },
                received: self.received + 1,
                expected: self.expected,
                reported: match self.progress_of(arrival) {
                    Progress::Milestone(p) => p as nat,
                    _ => self.reported,
                },
                history: self.history.push(arrival),
            }
        } else {
            self
        }
    }

    /// The state of a collector that counts in step with what it wrote.
    pub open spec fn well_formed(self) -> bool {
        &&& self.output.well_formed()
        &&& self.expected == self.output.width * self.output.height
        &&& self.received == self.history.len()
        &&& self.received <= self.expected
        &&& forall|i: int|
            0 <= i < self.history.len() ==> self.output.contains(
                (#[trigger] self.history[i]).x as int,
                self.history[i].y as int,
            )
        &&& self.output.pixels == assembled(
            blank_pixels(self.output.width, self.output.height),
            self.history,
        )
        &&& self.reported % 10 == 0
        &&& self.reported < 100
        &&& self.received < self.expected ==> self.reported == tenth(
            self.received as int,
            self.expected as int,
        )
    }
}

/// Collects the results of the jobs of one raster.
pub struct Collector {
    output: Raster,
    received: u64,
    expected: u64,
    reported: u8,
    history: Ghost<Seq<Arrival>>,
}

impl View for Collector {
    type V = CollectorView;

    closed spec fn view(&self) -> CollectorView {
        CollectorView {
            output: self.output@,
            received: self.received as nat,
            expected: self.expected as nat,
            reported: self.reported as nat,
            history: self.history@,
        }
    }
}

/// Percentages do not fall as results arrive, and stay below a hundred
/// until the last one; so do the multiples of ten that they have reached.
pub proof fn lemma_percent_monotonic(earlier: int, later: int, expected: int)
    requires
        0 <= earlier <= later,
        0 < expected,
    ensures
        0 <= percent(earlier, expected) <= percent(later, expected),
        later < expected ==> percent(later, expected) < 100,
        later == expected ==> percent(later, expected) == 100,
        0 <= tenth(earlier, expected) <= tenth(later, expected),
        tenth(later, expected) % 10 == 0,
        tenth(later, expected) <= percent(later, expected),
{
    assert(0 <= earlier * 100 <= later * 100);
    vstd::arithmetic::div_mod::lemma_div_is_ordered(earlier * 100, later * 100, expected);
    vstd::arithmetic::div_mod::lemma_div_pos_is_pos(earlier * 100, expected);
    if later < expected {
        assert(later * 100 < 100 * expected);
        vstd::arithmetic::div_mod::lemma_multiply_divide_lt(later * 100, expected, 100);
    }
    if later == expected {
        assert(later * 100 == 100 * expected);
        vstd::arithmetic::div_mod::lemma_div_multiples_vanish(100, expected);
        assert(100 * expected == expected * 100) by (nonlinear_arith);
    }
}

/// A collector stays well formed whatever arrives, and keeps the dimensions
/// of its raster and the number of results that it expects.
pub proof fn lemma_accept_keeps_well_formed(c: CollectorView, arrival: Arrival)
    requires
        c.well_formed(),
    ensures
        c.after_accept(arrival).well_formed(),
        c.after_accept(arrival).output.width == c.output.width,
        c.after_accept(arrival).output.height == c.output.height,
        c.after_accept(arrival).expected == c.expected,
{
    if c.admits(arrival) {
        let after = c.after_accept(arrival);
        assert(after.history.drop_last() =~= c.history);
        lemma_percent_monotonic(c.received as int, c.received as int + 1, c.expected as int);
        assert(after.output.pixels.dom() =~= c.output.pixels.dom());
    }
}

/// A multiple of ten is reported once: each one reported is higher than the
/// last, below a hundred, and crossed by the very arrival that reports it.
pub proof fn lemma_milestones_rise(c: CollectorView, arrival: Arrival, p: u8)
    requires
        c.well_formed(),
        c.progress_of(arrival) == Progress::Milestone(p),
    ensures
        c.reported < p < 100,
        p % 10 == 0,
        c.after_accept(arrival).reported == p,
        percent(c.received as int, c.expected as int) < p <= percent(
            c.received as int + 1,
            c.expected as int,
        ),
{
    lemma_percent_monotonic(c.received as int, c.received as int + 1, c.expected as int);
}

impl Collector {
    /// A collector for a raster with the dimensions of `shape`: all black,
    /// with one result expected for each pixel and none arrived.
    pub fn new(shape: &Raster) -> (c: Collector)
        ensures
            c@.well_formed(),
            c@ == CollectorView::fresh(shape@.width, shape@.height),
    {
        let output = Raster::blank_like(shape);
        let width = shape.width();
        let height = shape.height();
        assert(0 <= width * height <= 0xffff_ffff * 0xffff_ffff) by (nonlinear_arith)
            requires
                0 <= width <= 0xffff_ffff,
                0 <= height <= 0xffff_ffff,
        ;
        let expected: u64 = (width as u64) * (height as u64);
        proof {
            if expected > 0 {
                lemma_percent_monotonic(0, 0, expected as int);
            }
        }
        Collector { output, received: 0, expected, reported: 0, history: Ghost(Seq::empty()) }
    }

    /// Takes one arrival. One that the collector admits is written at its
    /// coordinate and counted; any other changes nothing. The progress says
    /// which, and whether the count completed the raster or crossed a
    /// multiple of ten percent.
    pub fn accept(&mut self, arrival: Arrival) -> (progress: Progress)
        requires
            old(self)@.well_formed(),
        ensures
            final(self)@.well_formed(),
            progress == old(self)@.progress_of(arrival),
            final(self)@ == old(self)@.after_accept(arrival),
    {
        proof {
            lemma_accept_keeps_well_formed(self@, arrival);
        }
        let width = self.output.width();
        let height = self.output.height();
        if self.received == self.expected || arrival.x >= width || arrival.y >= height {
            return Progress::Rejected;
        }
        self.output.put_pixel(arrival.x, arrival.y, arrival.color);
        self.received = self.received + 1;
        proof {
            self.history@ = self.history@.push(arrival);
            lemma_percent_monotonic(
                old(self)@.received as int,
                self.received as int,
                self.expected as int,
            );
        }
        if self.received == self.expected {
            return Progress::Complete;
        }
        let share: u128 = (self.received as u128) * 100 / (self.expected as u128);
        let reached: u128 = share / 10 * 10;
        if reached > self.reported as u128 {
            self.reported = reached as u8;
            Progress::Milestone(reached as u8)
        } else {
            Progress::Stored
        }
    }

    /// Whether every expected result has arrived.
    pub fn is_complete(&self) -> (done: bool)
        ensures
            done == (self@.received == self@.expected),
    {
        self.received == self.expected
    }

    /// The number of results that were written.
    pub fn received(&self) -> (n: u64)
        ensures
            n == self@.received,
    {
        self.received
    }

    /// The number of results that the raster needs: one for each pixel.
    pub fn expected(&self) -> (n: u64)
        ensures
            n == self@.expected,
    {
        self.expected
    }

    /// Gives up the raster as it stands.
    pub fn into_raster(self) -> (r: Raster)
        ensures
            r@ == self@.output,
    {
        self.output
    }
}

/// Whether no two arrivals of `history` have the same coordinate.
pub open spec fn distinct_coordinates(history: Seq<Arrival>) -> bool {
    forall|i: int, j: int|
        0 <= i < j < history.len() ==> !((#[trigger] history[i]).x == (#[trigger] history[j]).x
            && history[i].y == history[j].y)
}

/// Whether some arrival of `history` has the coordinate `(x, y)`.
pub open spec fn arrived_at(history: Seq<Arrival>, x: int, y: int) -> bool {
    exists|i: int| 0 <= i < history.len() && (#[trigger] history[i]).x == x && history[i].y == y
}

/// Whether two histories hold the same arrivals, in whatever order.
pub open spec fn same_arrivals(first: Seq<Arrival>, second: Seq<Arrival>) -> bool {
    forall|a: Arrival| first.contains(a) <==> second.contains(a)
}

/// A coordinate at which nothing arrived keeps what it had at the start.
pub proof fn lemma_assembled_elsewhere(
    start: Map<(int, int), Color>,
    history: Seq<Arrival>,
    x: int,
    y: int,
)
    requires
        !arrived_at(history, x, y),
    ensures
        assembled(start, history).dom().contains((x, y)) <==> start.dom().contains((x, y)),
        assembled(start, history)[(x, y)] == start[(x, y)],
    decreases history.len(),
{
    if history.len() > 0 {
        let rest = history.drop_last();
        assert(!arrived_at(rest, x, y)) by {
            if arrived_at(rest, x, y) {
                let i = choose|i: int|
                    0 <= i < rest.len() && (#[trigger] rest[i]).x == x && rest[i].y == y;
                assert(history[i].x == x && history[i].y == y);
            }
        }
        lemma_assembled_elsewhere(start, rest, x, y);
        assert(!(history.last().x == x && history.last().y == y)) by {
            let n = history.len() - 1;
            if history[n].x == x && history[n].y == y {
                assert(arrived_at(history, x, y));
            }
        }
    }
}

/// Where no coordinate arrives twice, each arrival's colour stands at its
/// coordinate once all were written, whenever it came.
pub proof fn lemma_assembled_at(start: Map<(int, int), Color>, history: Seq<Arrival>, i: int)
    requires
        distinct_coordinates(history),
        0 <= i < history.len(),
    ensures
        assembled(start, history).dom().contains((history[i].x as int, history[i].y as int)),
        assembled(start, history)[(history[i].x as int, history[i].y as int)] == history[i].color,
    decreases history.len(),
{
    let rest = history.drop_last();
    let n = history.len() - 1;
    if i < n {
        assert(distinct_coordinates(rest)) by {
            assert forall|a: int, b: int| 0 <= a < b < rest.len() implies !((#[trigger] rest[a]).x
                == (#[trigger] rest[b]).x && rest[a].y == rest[b].y) by {
                assert(rest[a] == history[a] && rest[b] == history[b]);
            }
        }
        assert(rest[i] == history[i]);
        lemma_assembled_at(start, rest, i);
        assert(!(history[i].x == history[n].x && history[i].y == history[n].y));
    }
}

/// The order of arrival does not matter: two histories that hold the same
/// arrivals, none of them with a coordinate twice, assemble the same pixels.
pub proof fn lemma_order_is_irrelevant(
    start: Map<(int, int), Color>,
    first: Seq<Arrival>,
    second: Seq<Arrival>,
)
    requires
        distinct_coordinates(first),
        distinct_coordinates(second),
        same_arrivals(first, second),
    ensures
        assembled(start, first) == assembled(start, second),
{
    let a = assembled(start, first);
    let b = assembled(start, second);
    assert forall|c: (int, int)|
        (#[trigger] a.dom().contains(c) <==> b.dom().contains(c)) && (a.dom().contains(c) ==> a[c]
            == b[c]) by {
        if arrived_at(first, c.0, c.1) {
            let i = choose|i: int|
                0 <= i < first.len() && (#[trigger] first[i]).x == c.0 && first[i].y == c.1;
            assert(first.contains(first[i]));
            assert(second.contains(first[i]));
            let j = choose|j: int| 0 <= j < second.len() && second[j] == first[i];
            lemma_assembled_at(start, first, i);
            lemma_assembled_at(start, second, j);
        } else {
            assert(!arrived_at(second, c.0, c.1)) by {
                if arrived_at(second, c.0, c.1) {
                    let j = choose|j: int|
                        0 <= j < second.len() && (#[trigger] second[j]).x == c.0 && second[j].y
                            == c.1;
                    assert(second.contains(second[j]));
                    assert(first.contains(second[j]));
                    let i = choose|i: int| 0 <= i < first.len() && first[i] == second[j];
                    assert(first[i].x == c.0 && first[i].y == c.1);
                }
            }
            lemma_assembled_elsewhere(start, first, c.0, c.1);
            lemma_assembled_elsewhere(start, second, c.0, c.1);
        }
    }
    assert(a.dom() =~= b.dom());
    assert(a =~= b);
}

/// Whether `blend` returns one colour only for any given samples.
pub open spec fn deterministic<F: Fn(Vec<Sample>) -> Color>(blend: F) -> bool {
    forall|s: Seq<Sample>, first: Color, second: Color|
        #![trigger blends_to(blend, s, first), blends_to(blend, s, second)]
        blends_to(blend, s, first) && blends_to(blend, s, second) ==> first == second
}

/// Whether every arrival of `history` has a coordinate inside `img` and the
/// colour that `blend` gives to the samples of that coordinate.
pub open spec fn blended_arrivals<F: Fn(Vec<Sample>) -> Color>(
    history: Seq<Arrival>,
    blend: F,
    m: Matrix,
    img: RasterView,
) -> bool {
    forall|i: int|
        0 <= i < history.len() ==> {
            &&& img.contains((#[trigger] history[i]).x as int, history[i].y as int)
            &&& blends_to(
                blend,
                samples(m, img, history[i].x as int, history[i].y as int),
                history[i].color,
            )
        }
}

/// Whether something arrived at every coordinate of a raster.
pub open spec fn covers(history: Seq<Arrival>, width: nat, height: nat) -> bool {
    forall|x: int, y: int|
        0 <= x < width && 0 <= y < height ==> #[trigger] arrived_at(history, x, y)
}

/// The numbers of the jobs whose results are in `history`: the result for
/// the pixel `(x, y)` has the number `y * width + x`.
pub open spec fn job_numbers(history: Seq<Arrival>, width: nat) -> Seq<int> {
    Seq::new(history.len(), |i: int| history[i].y * width + history[i].x)
}

/// Whether every arrival of `history` has a coordinate inside a raster of
/// the given dimensions.
pub open spec fn all_inside(history: Seq<Arrival>, width: nat, height: nat) -> bool {
    forall|i: int|
        0 <= i < history.len() ==> (#[trigger] history[i]).x < width && history[i].y < height
}

/// As many arrivals as the raster has pixels, all inside the raster and no
/// two at the same coordinate, leave no pixel out.
pub proof fn lemma_full_count_covers(history: Seq<Arrival>, width: nat, height: nat)
    requires
        all_inside(history, width, height),
        distinct_coordinates(history),
        history.len() == job_count(width, height),
    ensures
        covers(history, width, height),
{
    let numbers = job_numbers(history, width);
    let all = vstd::set_lib::set_int_range(0, job_count(width, height) as int);
    assert forall|i: int| 0 <= i < numbers.len() implies all.contains(#[trigger] numbers[i]) by {
        lemma_planned_covers(width, height, history[i].x as int, history[i].y as int);
    }
    assert forall|i: int, j: int| 0 <= i < j < numbers.len() implies numbers[i] != numbers[j] by {
        lemma_planned_covers(width, height, history[i].x as int, history[i].y as int);
        lemma_planned_covers(width, height, history[j].x as int, history[j].y as int);
    }
    assert(numbers.no_duplicates());
    numbers.unique_seq_to_set();
    vstd::seq_lib::seq_to_set_is_finite(numbers);
    vstd::set_lib::lemma_int_range(0, job_count(width, height) as int);
    assert(numbers.to_set().subset_of(all)) by {
        assert forall|n: int| numbers.to_set().contains(n) implies all.contains(n) by {
            let i = choose|i: int| 0 <= i < numbers.len() && numbers[i] == n;
            assert(all.contains(numbers[i]));
        }
    }
    vstd::set_lib::lemma_subset_equality(numbers.to_set(), all);
    assert forall|x: int, y: int| 0 <= x < width && 0 <= y < height implies #[trigger] arrived_at(
        history,
        x,
        y,
    ) by {
        lemma_planned_covers(width, height, x, y);
        let n = y * width + x;
        assert(all.contains(n));
        assert(numbers.to_set().contains(n));
        let i = choose|i: int| 0 <= i < numbers.len() && numbers[i] == n;
        lemma_planned_covers(width, height, history[i].x as int, history[i].y as int);
        assert(history[i].x == x && history[i].y == y);
    }
}

/// The raster assembled from the results of the jobs equals the raster of
/// the sequential pass, pixel for pixel, in whatever order the results
/// arrive: provided the blend is a function of the samples, each job blends
/// the samples of its own coordinate, and every coordinate has exactly one
/// job.
pub proof fn lemma_assembly_equals_sequential<F: Fn(Vec<Sample>) -> Color>(
    blend: F,
    m: Matrix,
    img: RasterView,
    sequential: RasterView,
    history: Seq<Arrival>,
)
    requires
        deterministic(blend),
        sequential.width == img.width,
        sequential.height == img.height,
        sequential.well_formed(),
        blurred_from(sequential, blend, m, img),
        distinct_coordinates(history),
        covers(history, img.width, img.height),
        blended_arrivals(history, blend, m, img),
    ensures
        assembled(blank_pixels(img.width, img.height), history) == sequential.pixels,
{
    let start = blank_pixels(img.width, img.height);
    let a = assembled(start, history);
    let b = sequential.pixels;
    assert forall|c: (int, int)|
        (#[trigger] a.dom().contains(c) <==> b.dom().contains(c)) && (a.dom().contains(c) ==> a[c]
            == b[c]) by {
        if img.contains(c.0, c.1) {
            assert(arrived_at(history, c.0, c.1));
            let i = choose|i: int|
                0 <= i < history.len() && (#[trigger] history[i]).x == c.0 && history[i].y == c.1;
            lemma_assembled_at(start, history, i);
            assert(blends_to(blend, samples(m, img, c.0, c.1), history[i].color));
            assert(blends_to(blend, samples(m, img, c.0, c.1), b[(c.0, c.1)]));
        } else {
            assert(!arrived_at(history, c.0, c.1)) by {
                if arrived_at(history, c.0, c.1) {
                    let i = choose|i: int|
                        0 <= i < history.len() && (#[trigger] history[i]).x == c.0 && history[i].y
                            == c.1;
                    assert(img.contains(history[i].x as int, history[i].y as int));
                }
            }
            lemma_assembled_elsewhere(start, history, c.0, c.1);
        }
    }
    assert(a.dom() =~= b.dom());
    assert(a =~= b);
}

/// The raster of a collector that is complete equals the raster of the
/// sequential pass, whatever the number of workers and the order in which
/// their results came: provided the blend is a function of the samples,
/// each result is the blend of the samples of its own coordinate, and no
/// coordinate came twice.
pub proof fn lemma_collected_equals_sequential<F: Fn(Vec<Sample>) -> Color>(
    blend: F,
    m: Matrix,
    img: RasterView,
    sequential: RasterView,
    collected: CollectorView,
)
    requires
        deterministic(blend),
        sequential.width == img.width,
        sequential.height == img.height,
        sequential.well_formed(),
        blurred_from(sequential, blend, m, img),
        collected.well_formed(),
        collected.output.width == img.width,
        collected.output.height == img.height,
        collected.received == collected.expected,
        distinct_coordinates(collected.history),
        blended_arrivals(collected.history, blend, m, img),
    ensures
        collected.output == sequential,
{
    lemma_full_count_covers(collected.history, img.width, img.height);
    lemma_assembly_equals_sequential(blend, m, img, sequential, collected.history);
}

} // verus!
