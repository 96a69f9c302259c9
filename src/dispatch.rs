//! What to do for a recognized query: which records to show, rank or forecast.
use vstd::prelude::*;
use crate::codes::CodeKind;
use crate::intent::{classify, recognize_intent, Intent, IntentModel};
use crate::monthly::{aggregate_by_month, is_monthly_series, MonthlyAggregate};
use crate::ranking::{find_top_foreign_airports, is_top_foreign, AirportTotal};
use crate::records::{filter_records, matches_code, FlightRecord};
use crate::text::tokens_of;

verus! {

/// How many foreign airports an analysis ranks.
pub const TOP_FOREIGN: usize = 5;

/// The work a query asks for, with the figures it needs.
pub enum QueryPlan {
    /// The query was not understood.
    NotUnderstood,
    /// The code is well-formed but no record carries it.
    NoData { kind: CodeKind, code: String },
    /// Monthly totals and the busiest foreign airports for an airport or a carrier.
    Analysis {
        kind: CodeKind,
        code: String,
        monthly: Vec<MonthlyAggregate>,
        top_foreign: Vec<AirportTotal>,
    },
    /// The monthly totals of a carrier, from which to forecast.
    Forecast { code: String, monthly: Vec<MonthlyAggregate> },
}

/// The records whose field of the given kind is `code`, up to ASCII case.
pub open spec fn matching(s: Seq<FlightRecord>, kind: CodeKind, code: Seq<char>) -> Seq<FlightRecord> {
    s.filter(|x: FlightRecord| matches_code(kind, code, x))
}

/// What an analysis of `code` over `s` must produce.
pub open spec fn analysis_plan(s: Seq<FlightRecord>, kind: CodeKind, code: Seq<char>, r: QueryPlan) -> bool {
    let f = matching(s, kind, code);
    if f.len() == 0 {
        r == (QueryPlan::NoData { kind: kind, code: r->NoData_code }) && r->NoData_code@ == code
    } else {
        &&& r is Analysis
        &&& r->Analysis_kind == kind
        &&& r->Analysis_code@ == code
        &&& is_monthly_series(f, r->Analysis_monthly@)
        &&& is_top_foreign(f, TOP_FOREIGN as int, r->Analysis_top_foreign@)
    }
}

/// The plan owed to an intent over the records `s`.
pub open spec fn plan_for(i: IntentModel, s: Seq<FlightRecord>, r: QueryPlan) -> bool {
    match i {
        IntentModel::Unknown => r is NotUnderstood,
        IntentModel::AnalysisAirport(c) => analysis_plan(s, CodeKind::Airport, c, r),
        IntentModel::AnalysisCarrier(c) => analysis_plan(s, CodeKind::Carrier, c, r),
        IntentModel::PredictFuture(c) => {
            &&& r is Forecast
            &&& r->Forecast_code@ == c
            &&& is_monthly_series(matching(s, CodeKind::Carrier, c), r->Forecast_monthly@)
        },
    }
}

fn plan_analysis(records: &Vec<FlightRecord>, kind: CodeKind, code: String) -> (r: QueryPlan)
    requires
        records@.len() <= 4294967295,
    ensures
        analysis_plan(records@, kind, code@, r),
{
    let filtered = filter_records(records, kind, code.as_str());
    proof {
        broadcast use vstd::seq_lib::group_filter_ensures;
    }
    if filtered.len() == 0 {
        return QueryPlan::NoData { kind, code };
    }
    let monthly = aggregate_by_month(&filtered);
    let top_foreign = find_top_foreign_airports(&filtered, TOP_FOREIGN);
    QueryPlan::Analysis { kind, code, monthly, top_foreign }
}

/// Decides the work for an intent: the matching records' monthly totals and
/// foreign-airport ranking for an analysis, or a carrier's monthly series for
/// a forecast.
pub fn plan_intent(intent: Intent, records: &Vec<FlightRecord>) -> (r: QueryPlan)
    requires
        records@.len() <= 4294967295,
    ensures
        plan_for(intent@, records@, r),
{
    match intent {
        Intent::AnalysisAirport(code) => plan_analysis(records, CodeKind::Airport, code),
        Intent::AnalysisCarrier(code) => plan_analysis(records, CodeKind::Carrier, code),
        Intent::PredictFuture(code) => {
            let filtered = filter_records(records, CodeKind::Carrier, code.as_str());
            proof {
                broadcast use vstd::seq_lib::group_filter_ensures;
            }
            let monthly = aggregate_by_month(&filtered);
            QueryPlan::Forecast { code, monthly }
        },
        Intent::Unknown => QueryPlan::NotUnderstood,
    }
}

/// Recognizes a query line and decides the work it asks for.
pub fn handle_query(query: &str, records: &Vec<FlightRecord>) -> (r: QueryPlan)
    requires
        records@.len() <= 4294967295,
    ensures
        plan_for(classify(tokens_of(query@)), records@, r),
{
    let intent = recognize_intent(query);
    plan_intent(intent, records)
}

} // verus!
