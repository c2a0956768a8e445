//! Epoch coverage of a record: which spline piece, if any, answers a query.
//!
//! A record's coverage is the union of its pieces' validity windows, in the
//! record's own time unit relative to its reference epoch, plus the exact
//! final window endpoint.  A query outside that union is an error, never an
//! extrapolation.
use vstd::prelude::*;
use crate::epoch::Epoch;
use crate::errors::AniseError;
use crate::records::Ephemeris;
use crate::records::SegmentModel;
use crate::records::SplinePiece;
use crate::records::nanoseconds_per_time_unit;
use crate::records::spec_nanoseconds_per_time_unit;
use crate::records::validated;

verus! {

/// The query offset in nanoseconds: how far the epoch lies from the
/// record's reference epoch, measured in the record's direction.
pub open spec fn query_offset_nanos(m: SegmentModel, e: Epoch) -> int {
    if m.backward {
        m.ref_epoch.total_nanos() - e.total_nanos()
    } else {
        e.total_nanos() - m.ref_epoch.total_nanos()
    }
}

/// Whether piece `k` of the record answers the epoch: its window, scaled
/// to nanoseconds, contains the query offset.
pub open spec fn window_contains(m: SegmentModel, k: int, e: Epoch) -> bool {
    let npu = spec_nanoseconds_per_time_unit(m.time_unit) as int;
    m.pieces[k].window_start * npu <= query_offset_nanos(m, e) < m.pieces[k].window_end * npu
}

/// Whether the record covers the epoch: some piece's window contains it,
/// or it falls exactly on the final window endpoint, which is inclusive.
pub open spec fn covers(m: SegmentModel, e: Epoch) -> bool {
    ||| exists|k: int| 0 <= k < m.pieces.len() && window_contains(m, k, e)
    ||| m.pieces.len() > 0 && query_offset_nanos(m, e) == m.pieces.last().window_end
        * spec_nanoseconds_per_time_unit(m.time_unit)
}

/// A window bound scaled to nanoseconds, exactly.
fn scale_window_bound(w: i64, npu: u64) -> (x: i128)
    requires
        npu <= 86_400_000_000_000,
    ensures
        x == w * npu,
{
    proof {
        let wi = w as int;
        let ni = npu as int;
        assert((-0x8000_0000_0000_0000) * 86_400_000_000_000 <= wi * ni <= 0x8000_0000_0000_0000
            * 86_400_000_000_000) by (nonlinear_arith)
            requires
                -0x8000_0000_0000_0000 <= wi <= 0x7FFF_FFFF_FFFF_FFFF,
                0 <= ni <= 86_400_000_000_000,
        ;
    }
    (w as i128) * (npu as i128)
}

impl Ephemeris {
    /// The index of the spline piece that answers the epoch.
    ///
    /// Succeeds iff the record covers the epoch: the piece whose window
    /// contains the query offset, or the final piece when the offset falls
    /// exactly on its inclusive end.  Fails with the out-of-coverage error
    /// otherwise; coverage is never extrapolated.
    pub fn piece_for_epoch(&self, epoch: &Epoch) -> (r: Result<usize, AniseError>)
        requires
            validated(self@),
        ensures
            match r {
                Ok(k) => covers(self@, *epoch) && k < self@.pieces.len() && (window_contains(
                    self@,
                    k as int,
                    *epoch,
                ) || (k == self@.pieces.len() - 1 && query_offset_nanos(self@, *epoch)
                    == self@.pieces.last().window_end * spec_nanoseconds_per_time_unit(
                    self@.time_unit,
                ))),
                Err(er) => !covers(self@, *epoch) && er == AniseError::OutOfCoverage(*epoch),
            },
    {
        let npu = nanoseconds_per_time_unit(self.time_unit);
        let off: i128 = if self.backward {
            self.ref_epoch.nanos_since(epoch)
        } else {
            epoch.nanos_since(&self.ref_epoch)
        };
        proof {
            assert(off == query_offset_nanos(self@, *epoch));
        }
        let n = self.splines.pieces.len();
        let mut k: usize = 0;
        while k < n
            invariant
                k <= n,
                n == self@.pieces.len(),
                npu == spec_nanoseconds_per_time_unit(self@.time_unit),
                npu <= 86_400_000_000_000,
                off == query_offset_nanos(self@, *epoch),
                self@.pieces == self.splines.pieces@.map_values(|p: SplinePiece| p@),
                forall|j: int| 0 <= j < k ==> !window_contains(self@, j, *epoch),
                n > 0 && k == n ==> query_offset_nanos(self@, *epoch) != self@.pieces.last().window_end
                    * spec_nanoseconds_per_time_unit(self@.time_unit),
            decreases n - k,
        {
            let p = &self.splines.pieces[k];
            proof {
                assert(self@.pieces[k as int] == self.splines.pieces@[k as int]@);
            }
            let lo = scale_window_bound(p.window_start, npu);
            let hi = scale_window_bound(p.window_end, npu);
            if lo <= off && off < hi {
                proof {
                    assert(window_contains(self@, k as int, *epoch));
                    assert(covers(self@, *epoch));
                }
                return Ok(k);
            }
            if k + 1 == n && off == hi {
                proof {
                    assert(query_offset_nanos(self@, *epoch) == self@.pieces.last().window_end
                        * spec_nanoseconds_per_time_unit(self@.time_unit));
                    assert(covers(self@, *epoch));
                }
                return Ok(k);
            }
            proof {
                assert(!window_contains(self@, k as int, *epoch));
                if k + 1 == n {
                    assert(off != self@.pieces.last().window_end
                        * spec_nanoseconds_per_time_unit(self@.time_unit));
                }
            }
            k = k + 1;
        }
        proof {
            assert(!covers(self@, *epoch));
        }
        Err(AniseError::OutOfCoverage(*epoch))
    }
}

} // verus!
