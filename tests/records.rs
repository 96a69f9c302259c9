use flight_query::codes::CodeKind;
use flight_query::dispatch::{handle_query, plan_intent, QueryPlan};
use flight_query::intent::Intent;
use flight_query::monthly::{aggregate_by_month, month_offsets, MonthlyAggregate};
use flight_query::ranking::{find_top_foreign_airports, foreign_airport_totals, rank_totals, AirportTotal};
use flight_query::records::{clean_data, eq_ignore_ascii_case, filter_records, FlightRecord};

fn rec(year: u16, month: u8, usg: &str, fg: &str, carrier: &str, scheduled: u32, charter: u32, total: u32) -> FlightRecord {
    FlightRecord {
        date_str: format!("{:02}/01/{}", month, year),
        year,
        month,
        usg_apt_id: 1,
        usg_apt: usg.to_string(),
        usg_wac: 2,
        fg_apt_id: 3,
        fg_apt: fg.to_string(),
        fg_wac: 4,
        airline_id: 5,
        carrier: carrier.to_string(),
        carriergroup: 1,
        flight_type: "Departures".to_string(),
        scheduled,
        charter,
        total,
    }
}

fn sample() -> Vec<FlightRecord> {
    vec![
        rec(2020, 3, "JFK", "LHR", "AA", 10, 0, 10),
        rec(2019, 12, "JFK", "CDG", "DL", 4, 1, 5),
        rec(2020, 3, "LAX", "LHR", "AA", 7, 0, 7),
        rec(2020, 1, "jfk", "NRT", "aa", 2, 0, 2),
        rec(2019, 12, "JFK", "LHR", "UA", 1, 1, 2),
    ]
}

fn monthly(list: &[(u16, u8, u64)]) -> Vec<MonthlyAggregate> {
    list.iter()
        .map(|&(year, month, total_flights)| MonthlyAggregate { year, month, total_flights })
        .collect()
}

fn named(list: &[AirportTotal]) -> Vec<(String, u64)> {
    list.iter().map(|a| (a.name.clone(), a.total)).collect()
}

#[test]
fn clean_data_keeps_consistent_records_in_order() {
    let records = vec![
        rec(2020, 1, "JFK", "LHR", "AA", 3, 2, 5),
        rec(2020, 1, "JFK", "LHR", "AA", 3, 2, 6),
        rec(2020, 2, "JFK", "LHR", "AA", 0, 0, 0),
        rec(2020, 3, "JFK", "LHR", "AA", u32::MAX, 1, 0),
    ];
    let cleaned = clean_data(records);
    assert_eq!(cleaned.len(), 2);
    assert_eq!(cleaned[0].total, 5);
    assert_eq!(cleaned[1].month, 2);
}

#[test]
fn ascii_case_insensitive_comparison() {
    assert!(eq_ignore_ascii_case("jFk", "JFK"));
    assert!(!eq_ignore_ascii_case("JFK", "JFKX"));
    assert!(!eq_ignore_ascii_case("JFK", "LAX"));
    assert!(eq_ignore_ascii_case("", ""));
}

#[test]
fn filter_by_airport_and_carrier_ignores_ascii_case() {
    let records = sample();
    let by_airport = filter_records(&records, CodeKind::Airport, "JFK");
    assert_eq!(by_airport.len(), 4);
    let by_carrier = filter_records(&records, CodeKind::Carrier, "AA");
    assert_eq!(by_carrier.iter().map(|r| r.total).collect::<Vec<u32>>(), vec![10, 7, 2]);
    assert!(filter_records(&records, CodeKind::Carrier, "ZZ").is_empty());
}

#[test]
fn aggregate_by_month_sums_and_orders() {
    let series = aggregate_by_month(&sample());
    assert_eq!(series, monthly(&[(2019, 12, 7), (2020, 1, 2), (2020, 3, 17)]));
    assert!(aggregate_by_month(&Vec::new()).is_empty());
}

#[test]
fn aggregate_by_month_sums_beyond_u32() {
    let records = vec![
        rec(2021, 5, "JFK", "LHR", "AA", u32::MAX, 0, u32::MAX),
        rec(2021, 5, "JFK", "LHR", "AA", u32::MAX, 0, u32::MAX),
    ];
    let series = aggregate_by_month(&records);
    assert_eq!(series, monthly(&[(2021, 5, 2 * u32::MAX as u64)]));
}

#[test]
fn month_offsets_count_from_first_month() {
    let series = monthly(&[(2019, 11, 1), (2019, 12, 1), (2020, 2, 1), (2021, 1, 1)]);
    assert_eq!(month_offsets(&series), vec![0, 1, 3, 14]);
    assert!(month_offsets(&Vec::new()).is_empty());
}

#[test]
fn foreign_totals_in_first_seen_order() {
    let totals = foreign_airport_totals(&sample());
    assert_eq!(
        named(&totals),
        vec![("LHR".to_string(), 19), ("CDG".to_string(), 5), ("NRT".to_string(), 2)]
    );
}

#[test]
fn ranking_is_descending_and_stable() {
    let totals = vec![
        AirportTotal { name: "A".to_string(), total: 3 },
        AirportTotal { name: "B".to_string(), total: 9 },
        AirportTotal { name: "C".to_string(), total: 3 },
        AirportTotal { name: "D".to_string(), total: 5 },
    ];
    assert_eq!(rank_totals(&totals, 3), vec![1, 3, 0]);
    assert_eq!(rank_totals(&totals, 10), vec![1, 3, 0, 2]);
    assert!(rank_totals(&totals, 0).is_empty());
}

#[test]
fn top_foreign_airports_limits_to_n() {
    let top = find_top_foreign_airports(&sample(), 2);
    assert_eq!(named(&top), vec![("LHR".to_string(), 19), ("CDG".to_string(), 5)]);
    let all = find_top_foreign_airports(&sample(), 5);
    assert_eq!(all.len(), 3);
}

#[test]
fn plan_for_airport_analysis() {
    match handle_query("analysis for jfk airport", &sample()) {
        QueryPlan::Analysis { kind, code, monthly: m, top_foreign } => {
            assert_eq!(kind, CodeKind::Airport);
            assert_eq!(code, "JFK");
            assert_eq!(m, monthly(&[(2019, 12, 7), (2020, 1, 2), (2020, 3, 10)]));
            assert_eq!(
                named(&top_foreign),
                vec![("LHR".to_string(), 12), ("CDG".to_string(), 5), ("NRT".to_string(), 2)]
            );
        }
        _ => panic!("expected an analysis plan"),
    }
}

#[test]
fn plan_reports_missing_data() {
    match handle_query("report of airline ZZ", &sample()) {
        QueryPlan::NoData { kind, code } => {
            assert_eq!(kind, CodeKind::Carrier);
            assert_eq!(code, "ZZ");
        }
        _ => panic!("expected a no-data plan"),
    }
}

#[test]
fn plan_for_forecast_and_unknown() {
    match plan_intent(Intent::PredictFuture("AA".to_string()), &sample()) {
        QueryPlan::Forecast { code, monthly: m } => {
            assert_eq!(code, "AA");
            assert_eq!(m, monthly(&[(2020, 1, 2), (2020, 3, 17)]));
        }
        _ => panic!("expected a forecast plan"),
    }
    assert!(matches!(handle_query("hello", &sample()), QueryPlan::NotUnderstood));
}
