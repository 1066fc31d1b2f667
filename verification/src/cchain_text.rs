//! The figures of a chain aggregate as text, for reports.
//!
//! Durations are written in milliseconds, with four digits behind the
//! decimal mark. A figure of no sightings is written `NaN`; a rate that does
//! not exist is written as nothing.

use crate::cchain_stats::CChainStatsValue;
use crate::format::{cell_text, format_cell};
use crate::metrics::{
    avg_millis, avg_rate, fraction, fraction_of, max_millis, millis_avg, millis_max, millis_min,
    min_millis, rate_of,
};
use vstd::prelude::*;

verus! {

impl CChainStatsValue {
    /// The least duration, in milliseconds.
    pub fn get_min_millis_str(&self, comma_float: bool) -> (r: String)
        ensures
            r@ == cell_text(millis_min(self.duration_micros@), comma_float, "NaN"@),
    {
        format_cell(min_millis(&self.duration_micros), comma_float, "NaN")
    }

    /// The mean duration, in milliseconds.
    pub fn get_avg_millis_str(&self, comma_float: bool) -> (r: String)
        ensures
            r@ == cell_text(millis_avg(self.duration_micros@), comma_float, "NaN"@),
    {
        let n = self.duration_micros.len();
        let avg = avg_millis(&self.duration_micros);
        assert(avg matches Some(q) ==> q.den == 1000 * n);
        format_cell(avg, comma_float, "NaN")
    }

    /// The greatest duration, in milliseconds.
    pub fn get_max_millis_str(&self, comma_float: bool) -> (r: String)
        ensures
            r@ == cell_text(millis_max(self.duration_micros@), comma_float, "NaN"@),
    {
        format_cell(max_millis(&self.duration_micros), comma_float, "NaN")
    }

    /// The rate of the sightings, per second and per file.
    pub fn get_avg_rate_str(&self, num_files: i32, comma_float: bool) -> (r: String)
        ensures
            r@ == cell_text(
                rate_of(self.start_dt_micros@, num_files as int),
                comma_float,
                Seq::<char>::empty(),
            ),
    {
        let rate = avg_rate(&self.start_dt_micros, num_files);
        proof {
            if rate is Some {
                crate::metrics::lemma_sorted_ends(self.start_dt_micros@);
                assert(0 < rate->0.den <= 0x1_0000_0000_0000_0000 * 0x8000_0000) by {
                    let t = crate::metrics::sorted_micros(self.start_dt_micros@);
                    let s = t.last() - t[0];
                    assert(0 < s * (num_files as int) <= 0x1_0000_0000_0000_0000 * 0x8000_0000)
                        by (nonlinear_arith)
                        requires
                            0 < s <= 0x1_0000_0000_0000_0000,
                            0 < num_files <= 0x8000_0000,
                    ;
                }
            }
        }
        let r = format_cell(rate, comma_float, "");
        proof {
            reveal_strlit("");
            assert(""@ =~= Seq::<char>::empty());
        }
        r
    }

    /// The fraction of the sightings with a failed HTTP call.
    pub fn get_frac_not_http_ok_str(&self, comma_float: bool) -> (r: String)
        ensures
            r@ == cell_text(
                fraction_of(self.cc_not_http_ok as nat, self.count as nat),
                comma_float,
                "NaN"@,
            ),
    {
        format_cell(fraction(self.cc_not_http_ok, self.count), comma_float, "NaN")
    }

    /// The fraction of the sightings with an error log line.
    pub fn get_frac_error_log_str(&self, comma_float: bool) -> (r: String)
        ensures
            r@ == cell_text(
                fraction_of(self.cc_with_error_log as nat, self.count as nat),
                comma_float,
                "NaN"@,
            ),
    {
        format_cell(fraction(self.cc_with_error_log, self.count), comma_float, "NaN")
    }
}

} // verus!
