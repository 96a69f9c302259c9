use flight_query::codes::{is_airport_code, is_carrier_code, CodeKind};
use flight_query::intent::{
    classify_tokens, contains_synonym, extract_code, find_first_code, find_following_carrier,
    recognize_intent, synonym_contains, Intent, SynonymSet,
};
use flight_query::text::{split_words, tokenize, trim_word_exec};

fn chars(s: &str) -> Vec<char> {
    s.chars().collect()
}

fn words(list: &[&str]) -> Vec<Vec<char>> {
    list.iter().map(|w| chars(w)).collect()
}

#[test]
fn test_recognize_intent_analysis_airport_after_synonym() {
    let query = "I want to see analysis for JFK airport";
    let intent = recognize_intent(query);
    assert_eq!(intent, Intent::AnalysisAirport("JFK".to_string()));
}

#[test]
fn test_recognize_intent_analysis_airport_before_synonym() {
    let query = "Show me the report of LAX apt";
    let intent = recognize_intent(query);
    assert_eq!(intent, Intent::AnalysisAirport("LAX".to_string()));
}

#[test]
fn test_recognize_intent_analysis_carrier_before_synonym() {
    let query = "Report of airline DL";
    let intent = recognize_intent(query);
    assert_eq!(intent, Intent::AnalysisCarrier("DL".to_string()));
}

#[test]
fn test_recognize_intent_analysis_carrier_after_synonym() {
    let query = "Show me a report of carrier AA";
    let intent = recognize_intent(query);
    assert_eq!(intent, Intent::AnalysisCarrier("AA".to_string()));
}

#[test]
fn test_recognize_intent_airport_code_with_non_alpha() {
    let query = "Provide statistics for JFK1 airport";
    let intent = recognize_intent(query);
    assert_eq!(intent, Intent::Unknown);
}

#[test]
fn test_recognize_intent_lowercase_input() {
    let query = "analysis for jfk airport";
    let intent = recognize_intent(query);
    assert_eq!(intent, Intent::AnalysisAirport("JFK".to_string()));
}

#[test]
fn test_recognize_intent_predict_future_standard() {
    let query = "I want to see airline AA future prediction";
    let intent = recognize_intent(query);
    assert_eq!(intent, Intent::PredictFuture("AA".to_string()));
}

#[test]
fn test_recognize_intent_predict_future_missing_airline_code() {
    let query = "I want to see future prediction";
    let intent = recognize_intent(query);
    assert_eq!(intent, Intent::Unknown);
}

#[test]
fn tokenize_lowercases_and_trims_punctuation() {
    let t = tokenize("Show ,AA  JFK1! ok-go");
    assert_eq!(t, words(&["show", "aa", "jfk1", "ok-go"]));
}

#[test]
fn tokenize_empty_and_blank_input() {
    assert!(tokenize("").is_empty());
    assert!(tokenize("   \t ").is_empty());
}

#[test]
fn tokenize_drops_fragments_that_trim_to_nothing() {
    let t = tokenize("JFK , airport");
    assert_eq!(t, words(&["jfk", "airport"]));
}

#[test]
fn split_words_keeps_case_and_order() {
    let t = split_words(&chars("  Ab  c,d "));
    assert_eq!(t, words(&["Ab", "c,d"]));
}

#[test]
fn trim_word_strips_both_ends_only() {
    assert_eq!(trim_word_exec(&chars("(--a.b!)")), chars("--a.b"));
    assert_eq!(trim_word_exec(&chars("?!")), chars(""));
}

#[test]
fn airport_code_validation() {
    assert!(is_airport_code(&chars("jfk")));
    assert!(!is_airport_code(&chars("jfk1")));
    assert!(!is_airport_code(&chars("jf")));
    assert!(!is_airport_code(&chars("jf1")));
}

#[test]
fn carrier_code_validation() {
    assert!(is_carrier_code(&chars("aa")));
    assert!(is_carrier_code(&chars("b6")));
    assert!(is_carrier_code(&chars("dal")));
    assert!(!is_carrier_code(&chars("a")));
    assert!(!is_carrier_code(&chars("delta")));
    assert!(!is_carrier_code(&chars("a-")));
}

#[test]
fn synonym_membership() {
    assert!(synonym_contains(SynonymSet::Analysis, &chars("stats")));
    assert!(synonym_contains(SynonymSet::Airport, &chars("airfield")));
    assert!(synonym_contains(SynonymSet::Carrier, &chars("airlines")));
    assert!(synonym_contains(SynonymSet::Prediction, &chars("projection")));
    assert!(!synonym_contains(SynonymSet::Airport, &chars("airports")));
    assert!(!synonym_contains(SynonymSet::Analysis, &chars("Report")));
    assert!(contains_synonym(&words(&["a", "forecast"]), SynonymSet::Prediction));
    assert!(!contains_synonym(&words(&["a", "forecast"]), SynonymSet::Analysis));
}

#[test]
fn extract_code_prefers_the_following_token() {
    let t = words(&["lax", "airport", "jfk"]);
    assert_eq!(extract_code(&t, 1, CodeKind::Airport), Some("JFK".to_string()));
    let t = words(&["lax", "airport", "jfk1"]);
    assert_eq!(extract_code(&t, 1, CodeKind::Airport), Some("LAX".to_string()));
    let t = words(&["airport"]);
    assert_eq!(extract_code(&t, 0, CodeKind::Airport), None);
}

#[test]
fn find_first_code_takes_first_successful_occurrence() {
    let t = words(&["airport", "jfk1", "and", "apt", "12", "airfield", "lax"]);
    assert_eq!(find_first_code(&t, SynonymSet::Airport, CodeKind::Airport), Some("AND".to_string()));
    let t = words(&["airport", "12", "x", "apt", "sfo"]);
    assert_eq!(find_first_code(&t, SynonymSet::Airport, CodeKind::Airport), Some("SFO".to_string()));
}

#[test]
fn invalid_airport_neighbours_give_no_airport() {
    let t = words(&["analysis", "jfk1", "airport", "j2k"]);
    assert_eq!(find_first_code(&t, SynonymSet::Airport, CodeKind::Airport), None);
    assert_eq!(classify_tokens(&t), Intent::Unknown);
    let t = words(&["analysis", "ab", "airport", "carrier", "ua"]);
    assert_eq!(classify_tokens(&t), Intent::AnalysisCarrier("UA".to_string()));
}

#[test]
fn following_carrier_only_looks_after_the_synonym() {
    let t = words(&["aa", "airline", "future"]);
    assert_eq!(find_following_carrier(&t), None);
    let t = words(&["airline", "b6", "future"]);
    assert_eq!(find_following_carrier(&t), Some("B6".to_string()));
}

#[test]
fn airport_code_around_airport_word_in_both_orders() {
    assert_eq!(
        recognize_intent("insight please SEA airfield today"),
        Intent::AnalysisAirport("SEA".to_string())
    );
    assert_eq!(
        recognize_intent("insight please airfield SEA today"),
        Intent::AnalysisAirport("SEA".to_string())
    );
}

#[test]
fn upper_and_lower_case_queries_agree() {
    let q = "Report of airline DL and statistics for ORD airport";
    assert_eq!(recognize_intent(&q.to_uppercase()), recognize_intent(&q.to_lowercase()));
    assert_eq!(recognize_intent(&q.to_uppercase()), Intent::AnalysisAirport("ORD".to_string()));
}

#[test]
fn airport_wins_over_carrier() {
    let intent = recognize_intent("analysis of carrier AA at JFK airport");
    assert_eq!(intent, Intent::AnalysisAirport("JFK".to_string()));
}

#[test]
fn prediction_wins_over_analysis() {
    let intent = recognize_intent("analysis for JFK airport and airline UA forecast");
    assert_eq!(intent, Intent::PredictFuture("UA".to_string()));
}

#[test]
fn prediction_without_code_and_without_analysis_word_is_unknown() {
    assert_eq!(recognize_intent("future of JFK airport"), Intent::Unknown);
}

#[test]
fn prediction_without_code_falls_back_to_analysis() {
    assert_eq!(
        recognize_intent("future report of JFK airport"),
        Intent::AnalysisAirport("JFK".to_string())
    );
}

#[test]
fn no_trigger_word_is_unknown() {
    assert_eq!(recognize_intent("JFK airport"), Intent::Unknown);
    assert_eq!(recognize_intent(""), Intent::Unknown);
}
