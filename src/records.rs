//! Flight-departure records and the computations a query runs over them.
use vstd::prelude::*;
use crate::codes::CodeKind;

verus! {

/// One row of the departures dataset.
#[derive(Clone, Debug)]
pub struct FlightRecord {
    pub date_str: String,
    pub year: u16,
    pub month: u8,
    pub usg_apt_id: u32,
    pub usg_apt: String,
    pub usg_wac: u16,
    pub fg_apt_id: u32,
    pub fg_apt: String,
    pub fg_wac: u16,
    pub airline_id: u32,
    pub carrier: String,
    pub carriergroup: u8,
    pub flight_type: String,
    pub scheduled: u32,
    pub charter: u32,
    pub total: u32,
}

impl FlightRecord {
    /// A field-by-field copy.
    pub fn duplicate(&self) -> (r: FlightRecord)
        ensures
            r == *self,
    {
        FlightRecord {
            date_str: self.date_str.clone(),
            year: self.year,
            month: self.month,
            usg_apt_id: self.usg_apt_id,
            usg_apt: self.usg_apt.clone(),
            usg_wac: self.usg_wac,
            fg_apt_id: self.fg_apt_id,
            fg_apt: self.fg_apt.clone(),
            fg_wac: self.fg_wac,
            airline_id: self.airline_id,
            carrier: self.carrier.clone(),
            carriergroup: self.carriergroup,
            flight_type: self.flight_type.clone(),
            scheduled: self.scheduled,
            charter: self.charter,
            total: self.total,
        }
    }
}

/// A record whose scheduled and charter counts add up to its total.
pub open spec fn is_consistent(r: FlightRecord) -> bool {
    r.scheduled as int + r.charter as int == r.total as int
}

proof fn lemma_filter_step<A>(s: Seq<A>, i: int, pred: spec_fn(A) -> bool)
    requires
        0 <= i < s.len(),
    ensures
        s.subrange(0, i + 1).filter(pred) == (if pred(s[i]) {
            s.subrange(0, i).filter(pred).push(s[i])
        } else {
            s.subrange(0, i).filter(pred)
        }),
{
    reveal(Seq::filter);
    assert(s.subrange(0, i + 1).drop_last() =~= s.subrange(0, i));
}

/// Keeps, in order, the records whose scheduled and charter counts sum to the total.
pub fn clean_data(records: Vec<FlightRecord>) -> (r: Vec<FlightRecord>)
    ensures
        r@ == records@.filter(|x: FlightRecord| is_consistent(x)),
{
    let ghost pred = |x: FlightRecord| is_consistent(x);
    let mut out: Vec<FlightRecord> = Vec::new();
    let mut i: usize = 0;
    while i < records.len()
        invariant
            i <= records@.len(),
            pred == (|x: FlightRecord| is_consistent(x)),
            out@ == records@.subrange(0, i as int).filter(pred),
        decreases records@.len() - i,
    {
        let r = &records[i];
        proof {
            lemma_filter_step(records@, i as int, pred);
        }
        assert(pred(records@[i as int]) == is_consistent(records@[i as int]));
        if r.scheduled as u64 + r.charter as u64 == r.total as u64 {
            out.push(r.duplicate());
        }
        i = i + 1;
    }
    assert(records@.subrange(0, records@.len() as int) =~= records@);
    out
}

/// A character folded to lower case in the ASCII range, as a code point.
pub open spec fn ascii_fold(c: char) -> u32 {
    if 'A' <= c <= 'Z' {
        (c as u32 + 32) as u32
    } else {
        c as u32
    }
}

/// Equality of two texts up to ASCII case.
pub open spec fn same_ignoring_ascii_case(a: Seq<char>, b: Seq<char>) -> bool {
    a.len() == b.len() && forall|i: int| 0 <= i < a.len() ==> ascii_fold(#[trigger] a[i]) == ascii_fold(b[i])
}

fn fold_char(c: char) -> (r: u32)
    ensures
        r == ascii_fold(c),
{
    if 'A' <= c && c <= 'Z' {
        c as u32 + 32
    } else {
        c as u32
    }
}

/// Compares two texts, treating ASCII upper- and lower-case letters as equal.
pub fn eq_ignore_ascii_case(a: &str, b: &str) -> (r: bool)
    ensures
        r == same_ignoring_ascii_case(a@, b@),
{
    let n = a.unicode_len();
    if n != b.unicode_len() {
        return false;
    }
    let mut i: usize = 0;
    while i < n
        invariant
            n == a@.len(),
            n == b@.len(),
            i <= n,
            forall|j: int| 0 <= j < i ==> ascii_fold(#[trigger] a@[j]) == ascii_fold(b@[j]),
        decreases n - i,
    {
        if fold_char(a.get_char(i)) != fold_char(b.get_char(i)) {
            return false;
        }
        i = i + 1;
    }
    true
}

/// The field of a record that a code of the given kind is matched against.
pub open spec fn code_field(kind: CodeKind, r: FlightRecord) -> Seq<char> {
    match kind {
        CodeKind::Airport => r.usg_apt@,
        CodeKind::Carrier => r.carrier@,
    }
}

/// Whether the record's airport or carrier, by `kind`, is `code` up to ASCII case.
pub open spec fn matches_code(kind: CodeKind, code: Seq<char>, r: FlightRecord) -> bool {
    same_ignoring_ascii_case(code_field(kind, r), code)
}

/// The records, in order, whose US airport (for `Airport`) or carrier (for
/// `Carrier`) equals `code` up to ASCII case.
pub fn filter_records(records: &Vec<FlightRecord>, kind: CodeKind, code: &str) -> (r: Vec<FlightRecord>)
    ensures
        r@ == records@.filter(|x: FlightRecord| matches_code(kind, code@, x)),
{
    let ghost pred = |x: FlightRecord| matches_code(kind, code@, x);
    let mut out: Vec<FlightRecord> = Vec::new();
    let mut i: usize = 0;
    while i < records.len()
        invariant
            i <= records@.len(),
            pred == (|x: FlightRecord| matches_code(kind, code@, x)),
            out@ == records@.subrange(0, i as int).filter(pred),
        decreases records@.len() - i,
    {
        let r = &records[i];
        proof {
            lemma_filter_step(records@, i as int, pred);
        }
        let hit = match kind {
            CodeKind::Airport => eq_ignore_ascii_case(r.usg_apt.as_str(), code),
            CodeKind::Carrier => eq_ignore_ascii_case(r.carrier.as_str(), code),
        };
        assert(pred(records@[i as int]) == matches_code(kind, code@, records@[i as int]));
        assert(hit == matches_code(kind, code@, records@[i as int]));
        if hit {
            out.push(r.duplicate());
        }
        i = i + 1;
    }
    assert(records@.subrange(0, records@.len() as int) =~= records@);
    out
}

} // verus!
