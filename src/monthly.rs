//! Monthly totals of departures, in calendar order, and month offsets for a forecast.
use vstd::prelude::*;
use crate::records::FlightRecord;

verus! {

/// The departures of one calendar month.
#[derive(Clone, Copy, Debug, PartialEq, Eq)]
pub struct MonthlyAggregate {
    pub year: u16,
    pub month: u8,
    pub total_flights: u64,
}

/// A number that orders months as (year, month) pairs.
pub open spec fn month_key(year: u16, month: u8) -> int {
    year as int * 256 + month as int
}

pub open spec fn record_key(r: FlightRecord) -> int {
    month_key(r.year, r.month)
}

pub open spec fn agg_key(a: MonthlyAggregate) -> int {
    month_key(a.year, a.month)
}

/// The sum of the totals of the records of month `key`.
pub open spec fn month_total(s: Seq<FlightRecord>, key: int) -> int
    decreases s.len(),
{
    if s.len() == 0 {
        0
    } else {
        month_total(s.drop_last(), key) + if record_key(s.last()) == key {
            s.last().total as int
        } else {
            0
        }
    }
}

/// Whether some record falls in month `key`.
pub open spec fn has_month(s: Seq<FlightRecord>, key: int) -> bool {
    exists|i: int| 0 <= i < s.len() && record_key(#[trigger] s[i]) == key
}

/// `a` lists each month of `s` once, in increasing order, with its total.
pub open spec fn is_monthly_series(s: Seq<FlightRecord>, a: Seq<MonthlyAggregate>) -> bool {
    &&& forall|i: int, j: int| 0 <= i < j < a.len() ==> agg_key(#[trigger] a[i]) < agg_key(#[trigger] a[j])
    &&& forall|i: int| 0 <= i < a.len() ==> has_month(s, agg_key(#[trigger] a[i]))
    &&& forall|i: int| 0 <= i < a.len() ==> (#[trigger] a[i]).total_flights == month_total(s, agg_key(a[i]))
    &&& forall|k: int| 0 <= k < s.len() ==> exists|i: int| 0 <= i < a.len() && agg_key(#[trigger] a[i]) == record_key(#[trigger] s[k])
}

proof fn lemma_month_total_step(s: Seq<FlightRecord>, i: int, key: int)
    requires
        0 <= i < s.len(),
    ensures
        month_total(s.subrange(0, i + 1), key) == month_total(s.subrange(0, i), key) + if record_key(s[i]) == key {
            s[i].total as int
        } else {
            0
        },
{
    assert(s.subrange(0, i + 1).drop_last() =~= s.subrange(0, i));
}

proof fn lemma_month_total_absent(s: Seq<FlightRecord>, key: int)
    requires
        !has_month(s, key),
    ensures
        month_total(s, key) == 0,
    decreases s.len(),
{
    if s.len() > 0 {
        assert(!has_month(s.drop_last(), key)) by {
            if has_month(s.drop_last(), key) {
                let i = choose|i: int| 0 <= i < s.drop_last().len() && record_key(#[trigger] s.drop_last()[i]) == key;
                assert(s[i] == s.drop_last()[i]);
            }
        }
        lemma_month_total_absent(s.drop_last(), key);
        assert(s[s.len() - 1] == s.last());
    }
}

proof fn lemma_month_total_bound(s: Seq<FlightRecord>, key: int)
    ensures
        0 <= month_total(s, key) <= s.len() * 4294967295,
    decreases s.len(),
{
    if s.len() > 0 {
        lemma_month_total_bound(s.drop_last(), key);
    }
}

/// Sums the totals of the records per calendar month, listing the months
/// that occur in increasing (year, month) order.
pub fn aggregate_by_month(records: &Vec<FlightRecord>) -> (r: Vec<MonthlyAggregate>)
    requires
        records@.len() <= 4294967295,
    ensures
        is_monthly_series(records@, r@),
{
    let mut out: Vec<MonthlyAggregate> = Vec::new();
    let mut i: usize = 0;
    while i < records.len()
        invariant
            i <= records@.len() <= 4294967295,
            is_monthly_series(records@.subrange(0, i as int), out@),
        decreases records@.len() - i,
    {
        let ghost s0 = records@.subrange(0, i as int);
        let ghost s1 = records@.subrange(0, i + 1);
        let ghost old_out = out@;
        let rec = &records[i];
        let key: u32 = rec.year as u32 * 256 + rec.month as u32;
        let mut j: usize = 0;
        while j < out.len() && (out[j].year as u32 * 256 + out[j].month as u32) < key
            invariant
                out@ == old_out,
                j <= out@.len(),
                key == record_key(records@[i as int]),
                forall|l: int| 0 <= l < j ==> agg_key(#[trigger] out@[l]) < key,
            decreases out@.len() - j,
        {
            j = j + 1;
        }
        proof {
            assert forall|k: int| 0 <= k < s1.len() implies (#[trigger] s1[k]) == records@[k] by {}
            assert forall|kk: int| #![trigger month_total(s1, kk)]
                month_total(s1, kk) == month_total(s0, kk) + if record_key(records@[i as int]) == kk {
                    records@[i as int].total as int
                } else {
                    0
                } by {
                lemma_month_total_step(records@, i as int, kk);
            }
            lemma_month_total_bound(s0, key as int);
        }
        if j < out.len() && (out[j].year as u32 * 256 + out[j].month as u32) == key {
            let cur = out[j];
            let updated = MonthlyAggregate {
                year: cur.year,
                month: cur.month,
                total_flights: cur.total_flights + rec.total as u64,
            };
            out.set(j, updated);
            proof {
                assert forall|l: int| 0 <= l < out@.len() implies has_month(s1, agg_key(#[trigger] out@[l])) by {
                    let w = choose|w: int| 0 <= w < s0.len() && record_key(#[trigger] s0[w]) == agg_key(old_out[l]);
                    assert(s1[w] == s0[w]);
                }
                assert forall|k: int| 0 <= k < s1.len() implies exists|l: int|
                    0 <= l < out@.len() && agg_key(#[trigger] out@[l]) == record_key(#[trigger] s1[k]) by {
                    if k < i {
                        assert(s1[k] == s0[k]);
                        let l = choose|l: int| 0 <= l < old_out.len() && agg_key(#[trigger] old_out[l]) == record_key(#[trigger] s0[k]);
                        assert(agg_key(out@[l]) == agg_key(old_out[l]));
                    } else {
                        assert(agg_key(out@[j as int]) == record_key(s1[k]));
                    }
                }
            }
        } else {
            let ghost absent = !has_month(s0, key as int);
            proof {
                if has_month(s0, key as int) {
                    let w = choose|w: int| 0 <= w < s0.len() && record_key(#[trigger] s0[w]) == key;
                    let l = choose|l: int| 0 <= l < old_out.len() && agg_key(#[trigger] old_out[l]) == record_key(#[trigger] s0[w]);
                    if l < j {
                    } else if l == j {
                    } else {
                        assert(agg_key(old_out[j as int]) < agg_key(old_out[l]));
                    }
                }
                lemma_month_total_absent(s0, key as int);
            }
            out.insert(j, MonthlyAggregate { year: rec.year, month: rec.month, total_flights: rec.total as u64 });
            proof {
                assert forall|l: int| 0 <= l < out@.len() implies (#[trigger] out@[l]) == (if l < j {
                    old_out[l]
                } else if l == j {
                    out@[j as int]
                } else {
                    old_out[l - 1]
                }) by {}
                assert forall|l: int| 0 <= l < out@.len() implies has_month(s1, agg_key(#[trigger] out@[l])) by {
                    if l == j {
                        assert(record_key(s1[i as int]) == key);
                    } else {
                        let ol = if l < j { l } else { l - 1 };
                        let w = choose|w: int| 0 <= w < s0.len() && record_key(#[trigger] s0[w]) == agg_key(old_out[ol]);
                        assert(s1[w] == s0[w]);
                    }
                }
                assert forall|k: int| 0 <= k < s1.len() implies exists|l: int|
                    0 <= l < out@.len() && agg_key(#[trigger] out@[l]) == record_key(#[trigger] s1[k]) by {
                    if k < i {
                        assert(s1[k] == s0[k]);
                        let l = choose|l: int| 0 <= l < old_out.len() && agg_key(#[trigger] old_out[l]) == record_key(#[trigger] s0[k]);
                        if l < j {
                            assert(agg_key(out@[l]) == agg_key(old_out[l]));
                        } else {
                            assert(agg_key(out@[l + 1]) == agg_key(old_out[l]));
                        }
                    } else {
                        assert(agg_key(out@[j as int]) == record_key(s1[k]));
                    }
                }
            }
        }
        i = i + 1;
    }
    assert(records@.subrange(0, records@.len() as int) =~= records@);
    out
}

/// Months elapsed from `first` to `a`.
pub open spec fn months_between(first: MonthlyAggregate, a: MonthlyAggregate) -> int {
    (a.year as int - first.year as int) * 12 + (a.month as int - first.month as int)
}

/// The position of each month of the series on a month axis that starts at
/// its first entry.
pub fn month_offsets(series: &Vec<MonthlyAggregate>) -> (r: Vec<i64>)
    ensures
        r@.len() == series@.len(),
        forall|i: int| 0 <= i < r@.len() ==> r@[i] as int == months_between(series@[0], #[trigger] series@[i]),
{
    let mut r: Vec<i64> = Vec::new();
    if series.len() == 0 {
        return r;
    }
    let y0 = series[0].year as i64;
    let m0 = series[0].month as i64;
    let mut i: usize = 0;
    while i < series.len()
        invariant
            series@.len() > 0,
            y0 == series@[0].year,
            m0 == series@[0].month,
            i <= series@.len(),
            r@.len() == i,
            forall|k: int| 0 <= k < i ==> r@[k] as int == months_between(series@[0], #[trigger] series@[k]),
        decreases series@.len() - i,
    {
        let a = series[i];
        r.push((a.year as i64 - y0) * 12 + (a.month as i64 - m0));
        i = i + 1;
    }
    r
}

} // verus!
