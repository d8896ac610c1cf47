//! The latency baseline: the mean response time over warm-up samples that agree on
//! their status code.

use vstd::prelude::*;

use crate::utils::is_alphanumeric_text;
use crate::utils::random_length_string;

verus! {

/// One warm-up observation.
#[derive(Debug, Clone, Copy, PartialEq, Eq, Structural)]
pub struct Sample {
    /// Status code of the response.
    pub status: u16,
    /// Time the response took, in milliseconds.
    pub elapsed_ms: u64,
}

/// Why no baseline can be had.
#[derive(Debug, Clone, Copy, PartialEq, Eq, Structural)]
pub enum CalibrationError {
    /// A sample came back with another status code than the first one.
    StatusMismatch { expected: u16, received: u16 },
}

/// Sum of the elapsed times of the samples.
pub open spec fn total_elapsed(samples: Seq<Sample>) -> nat
    decreases samples.len(),
{
    if samples.len() == 0 {
        0
    } else {
        total_elapsed(samples.drop_last()) + samples.last().elapsed_ms as nat
    }
}

/// Index of the first sample whose status is not `status`; the number of samples where
/// all have it.
pub open spec fn first_other_status(samples: Seq<Sample>, status: u16) -> int
    decreases samples.len(),
{
    if samples.len() == 0 || samples[0].status != status {
        0
    } else {
        1 + first_other_status(samples.drop_first(), status)
    }
}

/// The baseline that the samples give: zero without samples; the mean elapsed time,
/// rounded down, where all samples have the status of the first; else the mismatch of
/// the first sample that differs.
pub open spec fn baseline(samples: Seq<Sample>) -> Result<nat, CalibrationError> {
    if samples.len() == 0 {
        Ok(0)
    } else {
        let at = first_other_status(samples, samples[0].status);
        if at < samples.len() {
            Err(
                CalibrationError::StatusMismatch {
                    expected: samples[0].status,
                    received: samples[at].status,
                },
            )
        } else {
            Ok((total_elapsed(samples) / samples.len()) as nat)
        }
    }
}

/// Whether all samples have the status of the first.
pub open spec fn consistent(samples: Seq<Sample>) -> bool {
    forall|i: int| 0 <= i < samples.len() ==> (#[trigger] samples[i]).status == samples[0].status
}

/// Where no sample before `at` has another status than `status`, and the one at `at`
/// has or `at` is the number of samples, `at` is the first index of another status.
pub(crate) proof fn lemma_first_other_status_is(samples: Seq<Sample>, status: u16, at: int)
    requires
        0 <= at <= samples.len(),
        forall|i: int| 0 <= i < at ==> (#[trigger] samples[i]).status == status,
        at == samples.len() || samples[at].status != status,
    ensures
        first_other_status(samples, status) == at,
    decreases samples.len(),
{
    if samples.len() == 0 || samples[0].status != status {
    } else {
        let rest = samples.drop_first();
        assert forall|i: int| 0 <= i < at - 1 implies (#[trigger] rest[i]).status == status by {
            assert(rest[i] == samples[i + 1]);
        }
        lemma_first_other_status_is(rest, status, at - 1);
    }
}

/// A baseline exists exactly for consistent samples, and a mismatch names two different
/// status codes.
pub proof fn lemma_baseline_consistent(samples: Seq<Sample>)
    ensures
        baseline(samples) is Ok <==> consistent(samples),
        baseline(samples) matches Err(CalibrationError::StatusMismatch { expected, received })
            ==> expected != received,
    decreases samples.len(),
{
    if samples.len() > 0 {
        lemma_first_other_status(samples, samples[0].status);
    }
}

/// What the first index of another status is: within bounds, of another status, and
/// with none before it.
pub proof fn lemma_first_other_status(samples: Seq<Sample>, status: u16)
    ensures
        0 <= first_other_status(samples, status) <= samples.len(),
        first_other_status(samples, status) < samples.len() ==> samples[first_other_status(
            samples,
            status,
        )].status != status,
        forall|i: int|
            0 <= i < first_other_status(samples, status) ==> (#[trigger] samples[i]).status
                == status,
    decreases samples.len(),
{
    if samples.len() == 0 || samples[0].status != status {
    } else {
        let rest = samples.drop_first();
        lemma_first_other_status(rest, status);
        assert forall|i: int| 0 <= i < first_other_status(samples, status) implies (
        #[trigger] samples[i]).status == status by {
            if i > 0 {
                assert(rest[i - 1] == samples[i]);
            }
        }
    }
}

/// The sum of `n` elapsed times fits in 128 bits, whatever the times are.
pub(crate) proof fn lemma_total_elapsed_bound(samples: Seq<Sample>)
    ensures
        total_elapsed(samples) <= samples.len() * 0xFFFF_FFFF_FFFF_FFFF,
    decreases samples.len(),
{
    if samples.len() > 0 {
        lemma_total_elapsed_bound(samples.drop_last());
        assert((samples.len() - 1) * 0xFFFF_FFFF_FFFF_FFFF + 0xFFFF_FFFF_FFFF_FFFF
            == samples.len() * 0xFFFF_FFFF_FFFF_FFFF) by (nonlinear_arith);
    }
}

/// Shortest random payload of a warm-up request, in characters.
pub const PROBE_MIN_LEN: usize = 4;

/// Bound that the length of a random payload of a warm-up request stays below.
pub const PROBE_MAX_LEN: usize = 10;

/// The payload of one warm-up request: 4 to 9 random letters and digits.
pub fn probe_payload() -> (payload: String)
    ensures
        PROBE_MIN_LEN <= payload@.len() < PROBE_MAX_LEN,
        is_alphanumeric_text(payload@),
{
    random_length_string(PROBE_MIN_LEN, PROBE_MAX_LEN)
}

/// A calibration in progress: it says whether another sample is wanted, takes the
/// samples one by one, and gives the baseline of those it has taken.
pub struct Calibration {
    wanted: u64,
    tally: Tally,
}

/// What a calibration has seen so far.
struct Tally {
    taken: u64,
    total: u128,
    expected: u16,
    mismatch: Option<u16>,
    samples: Ghost<Seq<Sample>>,
}

impl Calibration {
    #[verifier::type_invariant]
    spec fn inv(self) -> bool {
        let samples = self.tally.samples@;
        &&& self.tally.taken == samples.len()
        &&& self.tally.taken <= self.wanted
        &&& self.tally.total == total_elapsed(samples)
        &&& samples.len() > 0 ==> self.tally.expected == samples[0].status
        &&& match self.tally.mismatch {
            None => first_other_status(samples, self.tally.expected) == samples.len(),
            Some(received) => {
                &&& samples.len() > 0
                &&& first_other_status(samples, self.tally.expected) == samples.len() - 1
                &&& samples.last().status == received
            },
        }
    }

    /// Number of samples that the calibration is to take.
    pub closed spec fn wanted(&self) -> nat {
        self.wanted as nat
    }

    /// The samples taken so far, in order.
    pub closed spec fn samples(&self) -> Seq<Sample> {
        self.tally.samples@
    }

    /// Whether another sample is wanted: fewer were taken than asked for, and those
    /// taken agree on their status.
    pub open spec fn is_pending(&self) -> bool {
        baseline(self.samples()) is Ok && self.samples().len() < self.wanted()
    }

    /// Starts a calibration over `wanted` samples.
    pub fn new(wanted: u64) -> (calibration: Calibration)
        ensures
            calibration.wanted() == wanted,
            calibration.samples() == Seq::<Sample>::empty(),
    {
        Calibration {
            wanted,
            tally: Tally {
                taken: 0,
                total: 0,
                expected: 0,
                mismatch: None,
                samples: Ghost(Seq::empty()),
            },
        }
    }

    /// Whether another sample is wanted.
    pub fn pending(&self) -> (pending: bool)
        ensures
            pending == self.is_pending(),
    {
        proof {
            use_type_invariant(self);
        }
        self.tally.mismatch.is_none() && self.tally.taken < self.wanted
    }

    /// Takes one sample and says whether the samples still agree. A calibration that
    /// wants no sample ignores it.
    pub fn record(&mut self, sample: Sample) -> (r: Result<(), CalibrationError>)
        ensures
            final(self).wanted() == old(self).wanted(),
            old(self).is_pending() ==> final(self).samples() == old(self).samples().push(sample),
            !old(self).is_pending() ==> final(self).samples() == old(self).samples(),
            match r {
                Ok(_) => baseline(final(self).samples()) is Ok,
                Err(e) => baseline(final(self).samples()) == Err::<nat, CalibrationError>(e),
            },
    {
        proof {
            use_type_invariant(&*self);
        }
        let ghost before = self.tally.samples@;
        if let Some(received) = self.tally.mismatch {
            return Err(
                CalibrationError::StatusMismatch { expected: self.tally.expected, received },
            );
        }
        if self.tally.taken >= self.wanted {
            return Ok(());
        }
        let expected = if self.tally.taken == 0 {
            sample.status
        } else {
            self.tally.expected
        };
        let mismatch = if sample.status != expected {
            Some(sample.status)
        } else {
            None
        };
        proof {
            let after = before.push(sample);
            assert(after.drop_last() =~= before);
            lemma_total_elapsed_bound(after);
            assert(after.len() * 0xFFFF_FFFF_FFFF_FFFF <= u128::MAX) by (nonlinear_arith)
                requires
                    after.len() <= 0xFFFF_FFFF_FFFF_FFFF,
            ;
            lemma_first_other_status(before, expected);
            if mismatch is None {
                lemma_first_other_status_is(after, expected, after.len() as int);
            } else {
                lemma_first_other_status_is(after, expected, after.len() - 1);
            }
        }
        self.tally = Tally {
            taken: self.tally.taken + 1,
            total: self.tally.total + sample.elapsed_ms as u128,
            expected,
            mismatch,
            samples: Ghost(before.push(sample)),
        };
        match mismatch {
            Some(received) => Err(CalibrationError::StatusMismatch { expected, received }),
            None => Ok(()),
        }
    }

    /// The baseline of the samples taken so far.
    pub fn offset(&self) -> (r: Result<u128, CalibrationError>)
        ensures
            match r {
                Ok(offset) => baseline(self.samples()) == Ok::<nat, CalibrationError>(
                    offset as nat,
                ),
                Err(e) => baseline(self.samples()) == Err::<nat, CalibrationError>(e),
            },
    {
        proof {
            use_type_invariant(self);
        }
        match self.tally.mismatch {
            Some(received) => Err(
                CalibrationError::StatusMismatch { expected: self.tally.expected, received },
            ),
            None => if self.tally.taken == 0 {
                Ok(0)
            } else {
                Ok(self.tally.total / (self.tally.taken as u128))
            },
        }
    }
}

} // verus!
