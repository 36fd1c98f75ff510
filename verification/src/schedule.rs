//! Stepped load schedules: ramping the offered rate across trials.
//!
//! A sweep runs one trial per load step, strictly in sequence.  The ramp
//! formula is the engine's historical one: step `i` offers
//! `start_req_per_sec * i + increment` messages per second, where the
//! increment is the rate span divided by the step count.  Note the
//! formula does not interpolate to the stop rate the way its field names
//! suggest; it is preserved as the engine has always computed it.
//!
//! The increment may be fractional.  A step's `message_count` is the
//! exact ramp rate times the step's duration, rounded down once, at the
//! end; the `rate_msgs_per_sec` field reports the rate rounded down to
//! whole messages per second.

use crate::ConfigError;
use vstd::arithmetic::div_mod::lemma_div_is_ordered;
use vstd::arithmetic::div_mod::lemma_div_pos_is_pos;
use vstd::arithmetic::div_mod::lemma_fundamental_div_mod;
use vstd::arithmetic::div_mod::lemma_mod_bound;
use vstd::arithmetic::mul::lemma_mul_inequality;
use vstd::arithmetic::mul::lemma_mul_nonnegative;
use vstd::prelude::*;

verus! {

/// One load level of a ramp: the rate, the whole number of messages that
/// rate yields over the step's duration, and the payload size.  Each step
/// is consumed by exactly one trial.
#[derive(Debug, Clone, Copy, PartialEq, Eq, Structural)]
pub struct LoadStep {
    /// The offered rate, rounded down to whole messages per second.  The
    /// exact ramp rate may be fractional; `message_count` comes from the
    /// exact one.
    pub rate_msgs_per_sec: u64,
    /// How many messages the step sends in all: the exact ramp rate times
    /// the duration, rounded down.
    pub message_count: u64,
    /// How long the step is sustained, in seconds.
    pub duration_secs: u64,
    /// The size, in bytes, of each payload.
    pub message_size: usize,
}

/// The ramp of a benchmark sweep: from a start rate towards a stop rate
/// in a fixed number of discrete levels, each sustained for a fixed
/// number of seconds.
#[derive(Debug, Clone, Copy, PartialEq, Eq, Structural)]
pub struct ScheduleConfig {
    /// The rate the ramp starts from, in messages per second.
    pub start_req_per_sec: u64,
    /// The rate the ramp aims at, in messages per second.
    pub stop_req_per_sec: u64,
    /// How many discrete load levels the ramp has.
    pub steps: usize,
    /// How long each level is sustained, in seconds.
    pub secs_per_step: u64,
}

impl ScheduleConfig {
    /// The per-step rate increment, rounded down to whole messages per
    /// second.  The exact increment is the rate span over the step count.
    pub open spec fn spec_increment(&self) -> int {
        (self.stop_req_per_sec - self.start_req_per_sec) / self.steps as int
    }

    /// The rate of step `i` as the ramp formula has it, rounded down:
    /// the start rate times the step number, plus one increment.
    pub open spec fn spec_rate(&self, i: int) -> int {
        self.start_req_per_sec * i + self.spec_increment()
    }

    /// The message count of step `i`: the exact (possibly fractional)
    /// ramp rate times the step's duration, rounded down once.  Written
    /// over the common denominator `steps`, so no intermediate rounding
    /// creeps in.
    pub open spec fn spec_count(&self, i: int) -> int {
        ((self.start_req_per_sec * i * self.steps + (self.stop_req_per_sec
            - self.start_req_per_sec)) * self.secs_per_step) / (self.steps as int)
    }

    /// A schedule the engine can lay out: at least one step, an ascending
    /// ramp, and every step's rate and message count within the counters.
    /// The last step has the largest rate and count, so bounding those
    /// bounds them all.
    pub open spec fn wf(&self) -> bool {
        &&& self.steps >= 1
        &&& self.start_req_per_sec <= self.stop_req_per_sec
        &&& self.spec_rate(self.steps - 1) <= u64::MAX
        &&& self.spec_count(self.steps - 1) <= u64::MAX
    }

    /// Lays the ramp out: one step per level, each sustained for
    /// `secs_per_step` seconds, sending payloads of `message_size` bytes.
    pub fn steps(&self, message_size: usize) -> (r: Vec<LoadStep>)
        requires
            self.wf(),
        ensures
            r@.len() == self.steps,
            forall|i: int|
                0 <= i < self.steps ==> {
                    &&& #[trigger] r@[i].rate_msgs_per_sec == self.spec_rate(i)
                    &&& r@[i].message_count == self.spec_count(i)
                    &&& r@[i].duration_secs == self.secs_per_step
                    &&& r@[i].message_size == message_size
                },
    {
        let span: u64 = self.stop_req_per_sec - self.start_req_per_sec;
        let increment: u64 = span / (self.steps as u64);
        let mut out: Vec<LoadStep> = Vec::new();
        let mut i: usize = 0;
        while i < self.steps
            invariant
                self.wf(),
                span == self.stop_req_per_sec - self.start_req_per_sec,
                increment == self.spec_increment(),
                i <= self.steps,
                out@.len() == i,
                forall|j: int|
                    0 <= j < i ==> {
                        &&& #[trigger] out@[j].rate_msgs_per_sec == self.spec_rate(j)
                        &&& out@[j].message_count == self.spec_count(j)
                        &&& out@[j].duration_secs == self.secs_per_step
                        &&& out@[j].message_size == message_size
                    },
            decreases self.steps - i,
        {
            proof {
                lemma_mul_nonnegative(self.start_req_per_sec as int, i as int);
                lemma_mul_inequality(i as int, self.steps - 1, self.start_req_per_sec as int);
                assert(self.start_req_per_sec * (i as int) <= self.start_req_per_sec * (self.steps
                    - 1)) by (nonlinear_arith)
                    requires
                        (i as int) * (self.start_req_per_sec as int) <= (self.steps - 1) * (
                        self.start_req_per_sec as int),
                ;
            }
            let base: u64 = self.start_req_per_sec * (i as u64);
            let rate: u64 = base + increment;
            proof {
                let st = self.steps as int;
                let se = self.secs_per_step as int;
                let base_last = self.start_req_per_sec * (self.steps - 1);
                assert((base as int) * st + span < 0x100000000000000000000000000000000)
                    by (nonlinear_arith)
                    requires
                        0 <= base as int <= 0xFFFF_FFFF_FFFF_FFFF,
                        0 <= st <= 0xFFFF_FFFF_FFFF_FFFF,
                        0 <= span <= 0xFFFF_FFFF_FFFF_FFFF,
                ;
                lemma_mul_inequality(base as int, base_last, st);
                lemma_mul_inequality(
                    base * st + span,
                    base_last * st + span,
                    se,
                );
                self.lemma_last_numerator_fits();
                lemma_mul_nonnegative(base * st + span, se);
                lemma_div_is_ordered(
                    (base * st + span) * se,
                    (base_last * st + span) * se,
                    st,
                );
            }
            let scaled: u128 = (base as u128) * (self.steps as u128);
            let numerator: u128 = (scaled + span as u128) * (self.secs_per_step as u128);
            let count128: u128 = numerator / (self.steps as u128);
            proof {
                assert(base as int == self.start_req_per_sec * (i as int));
                assert(numerator as int == (self.start_req_per_sec * (i as int) * (
                self.steps as int) + span) * (self.secs_per_step as int));
                assert(count128 as int == self.spec_count(i as int));
                assert(count128 <= 0xFFFF_FFFF_FFFF_FFFF);
            }
            let count: u64 = count128 as u64;
            out.push(
                LoadStep {
                    rate_msgs_per_sec: rate,
                    message_count: count,
                    duration_secs: self.secs_per_step,
                    message_size,
                },
            );
            i = i + 1;
        }
        out
    }

    /// A well-formed schedule's last numerator — the largest — stays
    /// inside 128-bit arithmetic: it is the last count, which fits the
    /// counter, times the step count, plus a remainder below it.
    proof fn lemma_last_numerator_fits(&self)
        requires
            self.wf(),
        ensures
            0 <= (self.start_req_per_sec * (self.steps - 1) * self.steps + (self.stop_req_per_sec
                - self.start_req_per_sec)) * self.secs_per_step
                < 0x100000000000000000000000000000000,
    {
        let st = self.steps as int;
        let base_last = self.start_req_per_sec * (self.steps - 1);
        lemma_mul_nonnegative(self.start_req_per_sec as int, self.steps - 1);
        lemma_mul_nonnegative(base_last, st);
        let numerator = (base_last * st + (self.stop_req_per_sec - self.start_req_per_sec))
            * self.secs_per_step;
        lemma_mul_nonnegative(
            base_last * st + (self.stop_req_per_sec - self.start_req_per_sec),
            self.secs_per_step as int,
        );
        lemma_fundamental_div_mod(numerator, st);
        lemma_mod_bound(numerator, st);
        assert(numerator == st * self.spec_count(self.steps - 1) + numerator % st);
        lemma_mul_inequality(self.spec_count(self.steps - 1), u64::MAX as int, st);
        assert(st * self.spec_count(self.steps - 1) == self.spec_count(self.steps - 1) * st)
            by (nonlinear_arith);
        assert((u64::MAX as int) * st + st <= 0x100000000000000000000000000000000)
            by (nonlinear_arith)
            requires
                0 < st <= u64::MAX as int,
        ;
    }

    /// Checked layout: rejects, before any trial starts, a schedule no
    /// sweep may run with — no steps, a descending ramp, rates or counts
    /// beyond the counters, or a payload too small for its index.
    pub fn validated_steps(&self, message_size: usize) -> (r: Result<Vec<LoadStep>, ConfigError>)
        ensures
            r is Ok <==> (self.wf() && message_size > 8),
            r is Ok ==> r->Ok_0@.len() == self.steps,
            r is Ok ==> forall|i: int|
                0 <= i < self.steps ==> {
                    &&& #[trigger] r->Ok_0@[i].rate_msgs_per_sec == self.spec_rate(i)
                    &&& r->Ok_0@[i].message_count == self.spec_count(i)
                    &&& r->Ok_0@[i].duration_secs == self.secs_per_step
                    &&& r->Ok_0@[i].message_size == message_size
                },
            r is Err ==> r->Err_0 == (if self.steps == 0 {
                ConfigError::NoSteps
            } else if message_size <= 8 {
                ConfigError::MessageSizeTooSmall
            } else if self.stop_req_per_sec < self.start_req_per_sec {
                ConfigError::RampNotAscending
            } else {
                ConfigError::RateOverflow
            }),
    {
        if self.steps == 0 {
            return Err(ConfigError::NoSteps);
        }
        if message_size <= 8 {
            return Err(ConfigError::MessageSizeTooSmall);
        }
        if self.stop_req_per_sec < self.start_req_per_sec {
            return Err(ConfigError::RampNotAscending);
        }
        let span: u64 = self.stop_req_per_sec - self.start_req_per_sec;
        let increment: u64 = span / (self.steps as u64);
        proof {
            lemma_div_pos_is_pos(span as int, self.steps as int);
            lemma_mul_nonnegative(self.start_req_per_sec as int, self.steps - 1);
        }
        let base_last: u64 = match self.start_req_per_sec.checked_mul((self.steps - 1) as u64) {
            Some(b) => b,
            None => {
                return Err(ConfigError::RateOverflow);
            },
        };
        if base_last.checked_add(increment).is_none() {
            return Err(ConfigError::RateOverflow);
        }
        proof {
            lemma_mul_nonnegative(base_last as int, self.steps as int);
            assert((base_last as int) * (self.steps as int) + span
                < 0x100000000000000000000000000000000) by (nonlinear_arith)
                requires
                    0 <= base_last as int <= 0xFFFF_FFFF_FFFF_FFFF,
                    0 <= self.steps as int <= 0xFFFF_FFFF_FFFF_FFFF,
                    0 <= span <= 0xFFFF_FFFF_FFFF_FFFF,
            ;
        }
        let scaled_last: u128 = (base_last as u128) * (self.steps as u128);
        let with_span: u128 = scaled_last + span as u128;
        let numerator_last: u128 = match with_span.checked_mul(self.secs_per_step as u128) {
            Some(n) => n,
            None => {
                proof {
                    self.lemma_count_overflow(with_span as int * self.secs_per_step as int);
                }
                return Err(ConfigError::RateOverflow);
            },
        };
        let count_last: u128 = numerator_last / (self.steps as u128);
        if count_last > 0xFFFF_FFFF_FFFF_FFFF {
            return Err(ConfigError::RateOverflow);
        }
        Ok(self.steps(message_size))
    }

    /// A last numerator past 128-bit arithmetic means the last count is
    /// past the counter, so the schedule is not well-formed.
    proof fn lemma_count_overflow(&self, numerator: int)
        requires
            1 <= self.steps,
            self.start_req_per_sec <= self.stop_req_per_sec,
            numerator == (self.start_req_per_sec * (self.steps - 1) * self.steps + (
            self.stop_req_per_sec - self.start_req_per_sec)) * self.secs_per_step,
            numerator > u128::MAX,
        ensures
            self.spec_count(self.steps - 1) > u64::MAX,
    {
        let st = self.steps as int;
        if self.spec_count(self.steps - 1) <= u64::MAX {
            lemma_mul_nonnegative(self.start_req_per_sec as int, self.steps - 1);
            lemma_mul_nonnegative(self.start_req_per_sec * (self.steps - 1), st);
            lemma_mul_nonnegative(
                self.start_req_per_sec * (self.steps - 1) * st + (self.stop_req_per_sec
                    - self.start_req_per_sec),
                self.secs_per_step as int,
            );
            lemma_fundamental_div_mod(numerator, st);
            lemma_mod_bound(numerator, st);
            lemma_mul_inequality(self.spec_count(self.steps - 1), u64::MAX as int, st);
            assert(st * self.spec_count(self.steps - 1) == self.spec_count(self.steps - 1) * st)
                by (nonlinear_arith);
            assert((u64::MAX as int) * st + st <= 0x100000000000000000000000000000000)
                by (nonlinear_arith)
                requires
                    0 < st <= u64::MAX as int,
            ;
            assert(false);
        }
    }
}

} // verus!
