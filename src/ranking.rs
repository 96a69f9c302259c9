//! Per-airport totals of the foreign end of each departure, and their ranking.
use vstd::prelude::*;
use crate::records::FlightRecord;

verus! {

/// The departures towards one foreign airport.
#[derive(Clone, Debug)]
pub struct AirportTotal {
    pub name: String,
    pub total: u64,
}

/// The sum of the totals of the records whose foreign airport is `name`.
pub open spec fn foreign_total(s: Seq<FlightRecord>, name: Seq<char>) -> int
    decreases s.len(),
{
    if s.len() == 0 {
        0
    } else {
        foreign_total(s.drop_last(), name) + if s.last().fg_apt@ == name {
            s.last().total as int
        } else {
            0
        }
    }
}

/// Whether some record has `name` as its foreign airport.
pub open spec fn has_foreign(s: Seq<FlightRecord>, name: Seq<char>) -> bool {
    exists|i: int| 0 <= i < s.len() && (#[trigger] s[i]).fg_apt@ == name
}

/// `a` lists each foreign airport of `s` once, with its total.
pub open spec fn is_foreign_totals(s: Seq<FlightRecord>, a: Seq<AirportTotal>) -> bool {
    &&& forall|i: int, j: int| 0 <= i < j < a.len() ==> (#[trigger] a[i]).name@ != (#[trigger] a[j]).name@
    &&& forall|i: int| 0 <= i < a.len() ==> has_foreign(s, (#[trigger] a[i]).name@)
    &&& forall|i: int| 0 <= i < a.len() ==> (#[trigger] a[i]).total == foreign_total(s, a[i].name@)
    &&& forall|k: int| 0 <= k < s.len() ==> exists|i: int| 0 <= i < a.len() && (#[trigger] a[i]).name@ == (#[trigger] s[k]).fg_apt@
}

proof fn lemma_foreign_total_step(s: Seq<FlightRecord>, i: int, name: Seq<char>)
    requires
        0 <= i < s.len(),
    ensures
        foreign_total(s.subrange(0, i + 1), name) == foreign_total(s.subrange(0, i), name) + if s[i].fg_apt@ == name {
            s[i].total as int
        } else {
            0
        },
{
    assert(s.subrange(0, i + 1).drop_last() =~= s.subrange(0, i));
}

proof fn lemma_foreign_total_absent(s: Seq<FlightRecord>, name: Seq<char>)
    requires
        !has_foreign(s, name),
    ensures
        foreign_total(s, name) == 0,
    decreases s.len(),
{
    if s.len() > 0 {
        assert(!has_foreign(s.drop_last(), name)) by {
            if has_foreign(s.drop_last(), name) {
                let i = choose|i: int| 0 <= i < s.drop_last().len() && (#[trigger] s.drop_last()[i]).fg_apt@ == name;
                assert(s[i] == s.drop_last()[i]);
            }
        }
        lemma_foreign_total_absent(s.drop_last(), name);
        assert(s[s.len() - 1] == s.last());
    }
}

proof fn lemma_foreign_total_bound(s: Seq<FlightRecord>, name: Seq<char>)
    ensures
        0 <= foreign_total(s, name) <= s.len() * 4294967295,
    decreases s.len(),
{
    if s.len() > 0 {
        lemma_foreign_total_bound(s.drop_last(), name);
    }
}

/// Sums the totals of the records per foreign airport, each airport listed
/// once, in the order of its first record.
pub fn foreign_airport_totals(records: &Vec<FlightRecord>) -> (r: Vec<AirportTotal>)
    requires
        records@.len() <= 4294967295,
    ensures
        is_foreign_totals(records@, r@),
{
    let mut out: Vec<AirportTotal> = Vec::new();
    let mut i: usize = 0;
    while i < records.len()
        invariant
            i <= records@.len() <= 4294967295,
            is_foreign_totals(records@.subrange(0, i as int), out@),
        decreases records@.len() - i,
    {
        let ghost s0 = records@.subrange(0, i as int);
        let ghost s1 = records@.subrange(0, i + 1);
        let ghost old_out = out@;
        let rec = &records[i];
        let mut j: usize = 0;
        while j < out.len() && !(out[j].name == rec.fg_apt)
            invariant
                out@ == old_out,
                i < records@.len(),
                *rec == records@[i as int],
                j <= out@.len(),
                forall|l: int| 0 <= l < j ==> (#[trigger] out@[l]).name@ != records@[i as int].fg_apt@,
            decreases out@.len() - j,
        {
            j = j + 1;
        }
        proof {
            assert forall|k: int| 0 <= k < s1.len() implies (#[trigger] s1[k]) == records@[k] by {}
            assert forall|nm: Seq<char>| #![trigger foreign_total(s1, nm)]
                foreign_total(s1, nm) == foreign_total(s0, nm) + if records@[i as int].fg_apt@ == nm {
                    records@[i as int].total as int
                } else {
                    0
                } by {
                lemma_foreign_total_step(records@, i as int, nm);
            }
            lemma_foreign_total_bound(s0, rec.fg_apt@);
        }
        if j < out.len() {
            let updated = AirportTotal { name: out[j].name.clone(), total: out[j].total + rec.total as u64 };
            out.set(j, updated);
            proof {
                assert forall|l: int| 0 <= l < out@.len() implies has_foreign(s1, (#[trigger] out@[l]).name@) by {
                    let w = choose|w: int| 0 <= w < s0.len() && (#[trigger] s0[w]).fg_apt@ == old_out[l].name@;
                    assert(s1[w] == s0[w]);
                }
                assert forall|k: int| 0 <= k < s1.len() implies exists|l: int|
                    0 <= l < out@.len() && (#[trigger] out@[l]).name@ == (#[trigger] s1[k]).fg_apt@ by {
                    if k < i {
                        assert(s1[k] == s0[k]);
                        let l = choose|l: int| 0 <= l < old_out.len() && (#[trigger] old_out[l]).name@ == (#[trigger] s0[k]).fg_apt@;
                        assert(out@[l].name@ == old_out[l].name@);
                    } else {
                        assert(out@[j as int].name@ == s1[k].fg_apt@);
                    }
                }
            }
        } else {
            proof {
                if has_foreign(s0, rec.fg_apt@) {
                    let w = choose|w: int| 0 <= w < s0.len() && (#[trigger] s0[w]).fg_apt@ == rec.fg_apt@;
                    let l = choose|l: int| 0 <= l < old_out.len() && (#[trigger] old_out[l]).name@ == (#[trigger] s0[w]).fg_apt@;
                }
                lemma_foreign_total_absent(s0, rec.fg_apt@);
            }
            out.push(AirportTotal { name: rec.fg_apt.clone(), total: rec.total as u64 });
            proof {
                assert forall|l: int| 0 <= l < out@.len() implies has_foreign(s1, (#[trigger] out@[l]).name@) by {
                    if l == old_out.len() {
                        assert(s1[i as int].fg_apt@ == out@[l].name@);
                    } else {
                        let w = choose|w: int| 0 <= w < s0.len() && (#[trigger] s0[w]).fg_apt@ == old_out[l].name@;
                        assert(s1[w] == s0[w]);
                    }
                }
                assert forall|k: int| 0 <= k < s1.len() implies exists|l: int|
                    0 <= l < out@.len() && (#[trigger] out@[l]).name@ == (#[trigger] s1[k]).fg_apt@ by {
                    if k < i {
                        assert(s1[k] == s0[k]);
                        let l = choose|l: int| 0 <= l < old_out.len() && (#[trigger] old_out[l]).name@ == (#[trigger] s0[k]).fg_apt@;
                        assert(out@[l] == old_out[l]);
                    } else {
                        assert(out@[old_out.len() as int].name@ == s1[k].fg_apt@);
                    }
                }
            }
        }
        i = i + 1;
    }
    assert(records@.subrange(0, records@.len() as int) =~= records@);
    out
}

/// `r` picks, by index, the `n` largest totals of `t` (all of them when
/// there are fewer), each once, from largest to smallest.
pub open spec fn is_ranking(t: Seq<AirportTotal>, n: int, r: Seq<usize>) -> bool {
    &&& r.len() == if n < t.len() { n } else { t.len() as int }
    &&& forall|i: int| 0 <= i < r.len() ==> (#[trigger] r[i]) < t.len()
    &&& forall|i: int, j: int| 0 <= i < j < r.len() ==> (#[trigger] r[i]) != (#[trigger] r[j])
    &&& forall|i: int, j: int| 0 <= i < j < r.len() ==> t[(#[trigger] r[i]) as int].total >= t[(#[trigger] r[j]) as int].total
    &&& r.len() < n ==> forall|k: int| 0 <= k < t.len() ==> #[trigger] r.contains(k as usize)
    &&& forall|k: int, i: int| 0 <= k < t.len() && !r.contains(k as usize) && 0 <= i < r.len() ==> (#[trigger] t[k]).total <= t[(#[trigger] r[i]) as int].total
}

/// Selects the indices of the `n` largest totals, largest first; among
/// equal totals the earlier entry comes first.
pub fn rank_totals(t: &Vec<AirportTotal>, n: usize) -> (r: Vec<usize>)
    ensures
        is_ranking(t@, n as int, r@),
{
    let m = t.len();
    let mut rest: Vec<usize> = Vec::new();
    let mut k: usize = 0;
    while k < m
        invariant
            m == t@.len(),
            k <= m,
            rest@.len() == k,
            forall|l: int| 0 <= l < k ==> (#[trigger] rest@[l]) == l,
        decreases m - k,
    {
        rest.push(k);
        k = k + 1;
    }
    let mut r: Vec<usize> = Vec::new();
    assert forall|x: int| 0 <= x < m implies (#[trigger] rest@.contains(x as usize)) by {
        assert(rest@[x] == x);
    }
    while r.len() < n && rest.len() > 0
        invariant
            m == t@.len(),
            r@.len() <= n,
            rest@.len() + r@.len() == m,
            forall|i: int| 0 <= i < rest@.len() ==> (#[trigger] rest@[i]) < m,
            forall|i: int| 0 <= i < r@.len() ==> (#[trigger] r@[i]) < m,
            forall|i: int, j: int| 0 <= i < j < r@.len() ==> (#[trigger] r@[i]) != (#[trigger] r@[j]),
            forall|i: int, j: int| 0 <= i < j < rest@.len() ==> (#[trigger] rest@[i]) != (#[trigger] rest@[j]),
            forall|i: int, j: int| 0 <= i < rest@.len() && 0 <= j < r@.len() ==> (#[trigger] rest@[i]) != (#[trigger] r@[j]),
            forall|x: int| 0 <= x < m ==> (#[trigger] rest@.contains(x as usize)) || r@.contains(x as usize),
            forall|i: int, j: int| 0 <= i < j < r@.len() ==> t@[(#[trigger] r@[i]) as int].total >= t@[(#[trigger] r@[j]) as int].total,
            forall|i: int, j: int| 0 <= i < rest@.len() && 0 <= j < r@.len() ==> t@[(#[trigger] rest@[i]) as int].total <= t@[(#[trigger] r@[j]) as int].total,
        decreases rest@.len(),
    {
        let mut p: usize = 0;
        let mut q: usize = 1;
        while q < rest.len()
            invariant
                m == t@.len(),
                forall|i: int| 0 <= i < rest@.len() ==> (#[trigger] rest@[i]) < m,
                p < q <= rest@.len(),
                forall|l: int| 0 <= l < q ==> t@[(#[trigger] rest@[l]) as int].total <= t@[rest@[p as int] as int].total,
            decreases rest@.len() - q,
        {
            if t[rest[q]].total > t[rest[p]].total {
                p = q;
            }
            q = q + 1;
        }
        let ghost old_rest = rest@;
        let ghost old_r = r@;
        let b = rest.remove(p);
        r.push(b);
        proof {
            assert forall|l: int| 0 <= l < rest@.len() implies (#[trigger] rest@[l]) == (if l < p {
                old_rest[l]
            } else {
                old_rest[l + 1]
            }) by {}
            assert(r@[old_r.len() as int] == b);
            assert forall|i: int| 0 <= i < old_r.len() implies (#[trigger] r@[i]) == old_r[i] by {}
            assert forall|x: int| 0 <= x < m implies (#[trigger] rest@.contains(x as usize)) || r@.contains(x as usize) by {
                if old_rest.contains(x as usize) {
                    let w = choose|w: int| 0 <= w < old_rest.len() && old_rest[w] == x as usize;
                    if w < p {
                        assert(rest@[w] == x);
                    } else if w == p {
                        assert(r@[old_r.len() as int] == x);
                    } else {
                        assert(rest@[w - 1] == x);
                    }
                } else {
                    let w = choose|w: int| 0 <= w < old_r.len() && old_r[w] == x as usize;
                    assert(r@[w] == x);
                }
            }
        }
    }
    proof {
        assert forall|x: int, i: int| 0 <= x < t@.len() && !r@.contains(x as usize) && 0 <= i < r@.len() implies (#[trigger] t@[x]).total <= t@[(#[trigger] r@[i]) as int].total by {
            assert(rest@.contains(x as usize));
            let w = choose|w: int| 0 <= w < rest@.len() && rest@[w] == x as usize;
            assert(t@[rest@[w] as int].total <= t@[r@[i] as int].total);
        }
        if r@.len() < n {
            assert forall|x: int| 0 <= x < t@.len() implies #[trigger] r@.contains(x as usize) by {
                if rest@.contains(x as usize) {
                    let w = choose|w: int| 0 <= w < rest@.len() && rest@[w] == x as usize;
                }
            }
        }
    }
    r
}

/// Whether `name` is the name of an entry of `r`.
pub open spec fn lists_name(r: Seq<AirportTotal>, name: Seq<char>) -> bool {
    exists|i: int| 0 <= i < r.len() && (#[trigger] r[i]).name@ == name
}

/// `r` holds the `n` foreign airports of `s` with the largest totals (all of
/// them when there are fewer), each once with its total, largest first.
pub open spec fn is_top_foreign(s: Seq<FlightRecord>, n: int, r: Seq<AirportTotal>) -> bool {
    &&& r.len() <= n
    &&& forall|i: int, j: int| 0 <= i < j < r.len() ==> (#[trigger] r[i]).name@ != (#[trigger] r[j]).name@
    &&& forall|i: int| 0 <= i < r.len() ==> has_foreign(s, (#[trigger] r[i]).name@)
    &&& forall|i: int| 0 <= i < r.len() ==> (#[trigger] r[i]).total == foreign_total(s, r[i].name@)
    &&& forall|i: int, j: int| 0 <= i < j < r.len() ==> (#[trigger] r[i]).total >= (#[trigger] r[j]).total
    &&& r.len() < n ==> forall|k: int| 0 <= k < s.len() ==> lists_name(r, (#[trigger] s[k]).fg_apt@)
    &&& forall|k: int, i: int|
        0 <= k < s.len() && 0 <= i < r.len() && !lists_name(r, s[k].fg_apt@)
            ==> foreign_total(s, (#[trigger] s[k]).fg_apt@) <= (#[trigger] r[i]).total
}

proof fn lemma_top_foreign(s: Seq<FlightRecord>, t: Seq<AirportTotal>, n: int, idx: Seq<usize>, out: Seq<AirportTotal>)
    requires
        is_foreign_totals(s, t),
        is_ranking(t, n, idx),
        t.len() <= usize::MAX,
        out.len() == idx.len(),
        forall|l: int| 0 <= l < idx.len() ==> (#[trigger] out[l]) == t[idx[l] as int],
    ensures
        is_top_foreign(s, n, out),
{
    assert forall|a: int, b: int| 0 <= a < b < out.len() implies (#[trigger] out[a]).name@ != (#[trigger] out[b]).name@ by {
        assert(idx[a] != idx[b]);
        if idx[a] < idx[b] {
            assert(t[idx[a] as int].name@ != t[idx[b] as int].name@);
        } else {
            assert(t[idx[b] as int].name@ != t[idx[a] as int].name@);
        }
    }
    assert forall|a: int, b: int| 0 <= a < b < out.len() implies (#[trigger] out[a]).total >= (#[trigger] out[b]).total by {
        assert(t[idx[a] as int].total >= t[idx[b] as int].total);
    }
    assert forall|a: int| 0 <= a < out.len() implies has_foreign(s, (#[trigger] out[a]).name@) && out[a].total == foreign_total(s, out[a].name@) by {
        assert(out[a] == t[idx[a] as int]);
    }
    if out.len() < n {
        assert(idx.len() < n);
        assert forall|k: int| 0 <= k < s.len() implies lists_name(out, (#[trigger] s[k]).fg_apt@) by {
            let x = choose|x: int| 0 <= x < t.len() && (#[trigger] t[x]).name@ == s[k].fg_apt@;
            assert(idx.contains(x as usize));
            let a = choose|a: int| 0 <= a < idx.len() && idx[a] == x as usize;
            assert(idx[a] as int == x);
            assert(out[a].name@ == s[k].fg_apt@);
        }
    }
    assert forall|k: int, a: int|
        0 <= k < s.len() && 0 <= a < out.len() && !lists_name(out, s[k].fg_apt@)
        implies foreign_total(s, (#[trigger] s[k]).fg_apt@) <= (#[trigger] out[a]).total by {
        let x = choose|x: int| 0 <= x < t.len() && (#[trigger] t[x]).name@ == s[k].fg_apt@;
        if idx.contains(x as usize) {
            let c = choose|c: int| 0 <= c < idx.len() && idx[c] == x as usize;
            assert(idx[c] as int == x);
            assert(out[c].name@ == s[k].fg_apt@);
        }
        assert(t[x].total <= t[idx[a] as int].total);
    }
    assert(out.len() <= n);
}

/// The `top_n` foreign airports with the most departures, largest first.
pub fn find_top_foreign_airports(records: &Vec<FlightRecord>, top_n: usize) -> (r: Vec<AirportTotal>)
    requires
        records@.len() <= 4294967295,
    ensures
        is_top_foreign(records@, top_n as int, r@),
{
    let totals = foreign_airport_totals(records);
    let idx = rank_totals(&totals, top_n);
    let m = totals.len();
    let mut out: Vec<AirportTotal> = Vec::new();
    let mut i: usize = 0;
    while i < idx.len()
        invariant
            is_foreign_totals(records@, totals@),
            m == totals@.len(),
            is_ranking(totals@, top_n as int, idx@),
            i <= idx@.len(),
            out@.len() == i,
            forall|l: int| 0 <= l < i ==> (#[trigger] out@[l]) == totals@[idx@[l] as int],
        decreases idx@.len() - i,
    {
        let e = &totals[idx[i]];
        out.push(AirportTotal { name: e.name.clone(), total: e.total });
        i = i + 1;
    }
    proof {
        lemma_top_foreign(records@, totals@, top_n as int, idx@, out@);
    }
    out
}

} // verus!
