//! The jobs of one raster: one for each pixel, handed out row by row.

use vstd::prelude::*;
use vstd::arithmetic::div_mod::{
    lemma_fundamental_div_mod,
    lemma_fundamental_div_mod_converse,
    lemma_mod_bound,
    lemma_div_pos_is_pos,
    lemma_multiply_divide_lt,
};
use crate::raster::Raster;

verus! {

/// The coordinate of the job with the number `n`, counting from zero: the
/// jobs follow the rows, and within a row the columns.
pub open spec fn planned(width: nat, n: int) -> (int, int) {
    (n % (width as int), n / (width as int))
}

/// The number of jobs of a raster: one for each pixel.
pub open spec fn job_count(width: nat, height: nat) -> nat {
    width * height
}

/// The number of kernel cells that a blur visits: those of one kernel, for
/// every pixel.
pub open spec fn operations(width: nat, height: nat, radius: nat) -> nat {
    width * height * ((2 * radius + 1) * (2 * radius + 1))
}

/// Counts the kernel cells that a blur of a raster of the given dimensions
/// visits.
pub fn operation_count(width: u32, height: u32, radius: u8) -> (n: u128)
    ensures
        n == operations(width as nat, height as nat, radius as nat),
{
    let side: u128 = 2 * (radius as u128) + 1;
    assert(0 <= width * height <= 0xffff_ffff * 0xffff_ffff) by (nonlinear_arith)
        requires
            0 <= width <= 0xffff_ffff,
            0 <= height <= 0xffff_ffff,
    ;
    assert(0 <= side * side <= 511 * 511) by (nonlinear_arith)
        requires
            0 <= side <= 511,
    ;
    let pixels: u128 = (width as u128) * (height as u128);
    let cells: u128 = side * side;
    assert(0 <= pixels * cells <= 0xffff_ffff * 0xffff_ffff * (511 * 511)) by (nonlinear_arith)
        requires
            0 <= pixels <= 0xffff_ffff * 0xffff_ffff,
            0 <= cells <= 511 * 511,
    ;
    pixels * cells
}

/// Every job has a coordinate inside the raster.
pub proof fn lemma_planned_inside(width: nat, height: nat, n: int)
    requires
        0 <= n < job_count(width, height),
    ensures
        0 <= planned(width, n).0 < width,
        0 <= planned(width, n).1 < height,
{
    assert(width > 0) by (nonlinear_arith)
        requires
            0 <= n < width * height,
    ;
    lemma_mod_bound(n, width as int);
    lemma_div_pos_is_pos(n, width as int);
    assert(n < height * width) by (nonlinear_arith)
        requires
            n < width * height,
    ;
    lemma_multiply_divide_lt(n, width as int, height as int);
}

/// No two jobs have the same coordinate.
pub proof fn lemma_planned_distinct(width: nat, height: nat, n: int, k: int)
    requires
        0 <= n < job_count(width, height),
        0 <= k < job_count(width, height),
        n != k,
    ensures
        planned(width, n) != planned(width, k),
{
    assert(width > 0) by (nonlinear_arith)
        requires
            0 <= n < width * height,
    ;
    lemma_fundamental_div_mod(n, width as int);
    lemma_fundamental_div_mod(k, width as int);
}

/// Every pixel has a job: the pixel `(x, y)` that with the number
/// `y * width + x`.
pub proof fn lemma_planned_covers(width: nat, height: nat, x: int, y: int)
    requires
        0 <= x < width,
        0 <= y < height,
    ensures
        0 <= y * width + x < job_count(width, height),
        planned(width, y * width + x) == (x, y),
{
    assert(0 <= y * width && y * width + x < width * height) by (nonlinear_arith)
        requires
            0 <= x < width,
            0 <= y < height,
    ;
    assert(y * width + x == width * y + x) by (nonlinear_arith);
    lemma_fundamental_div_mod_converse(y * width + x, width as int, y, x);
}

/// What a plan is: the dimensions of its raster and the number of jobs that
/// were handed out.
pub struct JobPlanView {
    pub width: nat,
    pub height: nat,
    pub issued: nat,
}

impl JobPlanView {
    /// A plan hands out no more jobs than its raster has pixels.
    pub open spec fn well_formed(self) -> bool {
        self.issued <= job_count(self.width, self.height)
    }
}

/// Hands out the jobs of one raster, each once.
pub struct JobPlan {
    width: u32,
    height: u32,
    issued: u64,
}

impl View for JobPlan {
    type V = JobPlanView;

    closed spec fn view(&self) -> JobPlanView {
        JobPlanView {
            width: self.width as nat,
            height: self.height as nat,
            issued: self.issued as nat,
        }
    }
}

impl JobPlan {
    /// The plan for a raster with the dimensions of `shape`, with no job
    /// handed out yet.
    pub fn new(shape: &Raster) -> (plan: JobPlan)
        ensures
            plan@.well_formed(),
            plan@.width == shape@.width,
            plan@.height == shape@.height,
            plan@.issued == 0,
    {
        let width = shape.width();
        let height = shape.height();
        assert(0 <= width * height) by (nonlinear_arith)
            requires
                0 <= width,
                0 <= height,
        ;
        JobPlan { width, height, issued: 0 }
    }

    /// Hands out the coordinate of the next job, or nothing when every
    /// pixel has had its job.
    pub fn next(&mut self) -> (job: Option<(u32, u32)>)
        requires
            old(self)@.well_formed(),
        ensures
            final(self)@.well_formed(),
            final(self)@.width == old(self)@.width,
            final(self)@.height == old(self)@.height,
            old(self)@.issued < job_count(old(self)@.width, old(self)@.height) ==> {
                &&& job matches Some(c)
                &&& (c.0 as int, c.1 as int) == planned(old(self)@.width, old(self)@.issued as int)
                &&& final(self)@.issued == old(self)@.issued + 1
            },
            old(self)@.issued == job_count(old(self)@.width, old(self)@.height) ==> job.is_none()
                && final(self)@ == old(self)@,
    {
        assert(0 <= self.width * self.height <= 0xffff_ffff * 0xffff_ffff) by (nonlinear_arith)
            requires
                0 <= self.width <= 0xffff_ffff,
                0 <= self.height <= 0xffff_ffff,
        ;
        let total: u64 = (self.width as u64) * (self.height as u64);
        if self.issued == total {
            return None;
        }
        proof {
            lemma_planned_inside(self@.width, self@.height, self.issued as int);
        }
        let x: u64 = self.issued % (self.width as u64);
        let y: u64 = self.issued / (self.width as u64);
        self.issued = self.issued + 1;
        Some((x as u32, y as u32))
    }

    /// The number of jobs that are still to be handed out.
    pub fn remaining(&self) -> (n: u64)
        requires
            self@.well_formed(),
        ensures
            n == job_count(self@.width, self@.height) - self@.issued,
    {
        assert(0 <= self.width * self.height <= 0xffff_ffff * 0xffff_ffff) by (nonlinear_arith)
            requires
                0 <= self.width <= 0xffff_ffff,
                0 <= self.height <= 0xffff_ffff,
        ;
        (self.width as u64) * (self.height as u64) - self.issued
    }
}

} // verus!
