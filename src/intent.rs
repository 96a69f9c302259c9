//! Synonym sets, slot extraction and intent classification.
use vstd::prelude::*;
use crate::codes::{is_valid_code, valid_code, CodeKind};
use crate::text::{lower_of, tokenize, tokens_of, upper_of, uppercase, words_view};

verus! {

/// The categories of trigger words a query may contain.
#[derive(Clone, Copy, Debug, PartialEq, Eq)]
pub enum SynonymSet {
    Analysis,
    Airport,
    Carrier,
    Prediction,
}

/// The trigger words of each category.
pub open spec fn synonym_words(set: SynonymSet) -> Set<Seq<char>> {
    match set {
        SynonymSet::Analysis => set!["analysis"@, "stats"@, "statistics"@, "insight"@, "report"@],
        SynonymSet::Airport => set!["airport"@, "apt"@, "airfield"@],
        SynonymSet::Carrier => set!["carrier"@, "airline"@, "airlines"@],
        SynonymSet::Prediction => set!["prediction"@, "future"@, "forecast"@, "projection"@],
    }
}

/// Whether `w` is a trigger word of `set`.
pub open spec fn is_synonym(set: SynonymSet, w: Seq<char>) -> bool {
    synonym_words(set).contains(w)
}

/// A request decided from one query line.
#[derive(Clone, Debug, PartialEq, Eq)]
pub enum Intent {
    AnalysisAirport(String),
    AnalysisCarrier(String),
    PredictFuture(String),
    Unknown,
}

/// The abstract value of an `Intent`: its variant and the characters of its code.
pub enum IntentModel {
    AnalysisAirport(Seq<char>),
    AnalysisCarrier(Seq<char>),
    PredictFuture(Seq<char>),
    Unknown,
}

impl View for Intent {
    type V = IntentModel;

    open spec fn view(&self) -> IntentModel {
        match self {
            Intent::AnalysisAirport(c) => IntentModel::AnalysisAirport(c@),
            Intent::AnalysisCarrier(c) => IntentModel::AnalysisCarrier(c@),
            Intent::PredictFuture(c) => IntentModel::PredictFuture(c@),
            Intent::Unknown => IntentModel::Unknown,
        }
    }
}

/// The abstract value of an optional code.
pub open spec fn opt_view(o: Option<String>) -> Option<Seq<char>> {
    match o {
        Some(s) => Some(s@),
        None => None,
    }
}

/// An optional token, upper-cased.
pub open spec fn upper_opt(o: Option<Seq<char>>) -> Option<Seq<char>> {
    match o {
        Some(w) => Some(upper_of(w)),
        None => None,
    }
}

/// Whether some token of `t` belongs to `set`.
pub open spec fn has_synonym(t: Seq<Seq<char>>, set: SynonymSet) -> bool {
    exists|i: int| 0 <= i < t.len() && is_synonym(set, #[trigger] t[i])
}

/// The code next to position `i`: the token after it if valid, else the token before it.
pub open spec fn neighbor_code(t: Seq<Seq<char>>, i: int, kind: CodeKind) -> Option<Seq<char>> {
    if 0 <= i && i + 1 < t.len() && valid_code(kind, t[i + 1]) {
        Some(t[i + 1])
    } else if 1 <= i && i - 1 < t.len() && valid_code(kind, t[i - 1]) {
        Some(t[i - 1])
    } else {
        None
    }
}

/// The first code found next to a synonym of `set` at position `i` or later.
pub open spec fn slot_from(t: Seq<Seq<char>>, set: SynonymSet, kind: CodeKind, i: int) -> Option<Seq<char>>
    decreases t.len() - i,
{
    if 0 <= i < t.len() {
        if is_synonym(set, t[i]) && neighbor_code(t, i, kind) is Some {
            neighbor_code(t, i, kind)
        } else {
            slot_from(t, set, kind, i + 1)
        }
    } else {
        None
    }
}

/// The code found next to the first synonym occurrence of `set` that has a valid neighbour.
pub open spec fn slot(t: Seq<Seq<char>>, set: SynonymSet, kind: CodeKind) -> Option<Seq<char>> {
    slot_from(t, set, kind, 0)
}

/// The first valid carrier code that directly follows a carrier synonym, from position `i` on.
pub open spec fn following_carrier_from(t: Seq<Seq<char>>, i: int) -> Option<Seq<char>>
    decreases t.len() - i,
{
    if 0 <= i < t.len() {
        if is_synonym(SynonymSet::Carrier, t[i]) && i + 1 < t.len() && valid_code(
            CodeKind::Carrier,
            t[i + 1],
        ) {
            Some(t[i + 1])
        } else {
            following_carrier_from(t, i + 1)
        }
    } else {
        None
    }
}

/// The first valid carrier code that directly follows a carrier synonym.
pub open spec fn following_carrier(t: Seq<Seq<char>>) -> Option<Seq<char>> {
    following_carrier_from(t, 0)
}

/// The analysis decision: an airport code wins over a carrier code.
pub open spec fn classify_analysis(t: Seq<Seq<char>>) -> IntentModel {
    match slot(t, SynonymSet::Airport, CodeKind::Airport) {
        Some(a) => IntentModel::AnalysisAirport(upper_of(a)),
        None => match slot(t, SynonymSet::Carrier, CodeKind::Carrier) {
            Some(c) => IntentModel::AnalysisCarrier(upper_of(c)),
            None => IntentModel::Unknown,
        },
    }
}

/// The intent of a token sequence: a prediction with a following carrier code
/// first, then analysis when an analysis word is present, else unknown.
pub open spec fn classify(t: Seq<Seq<char>>) -> IntentModel {
    if has_synonym(t, SynonymSet::Prediction) && following_carrier(t) is Some {
        IntentModel::PredictFuture(upper_of(following_carrier(t)->Some_0))
    } else if has_synonym(t, SynonymSet::Analysis) {
        classify_analysis(t)
    } else {
        IntentModel::Unknown
    }
}

/// Whether the characters of `w` are those of `lit`.
fn same_word(w: &Vec<char>, lit: &str) -> (r: bool)
    ensures
        r == (w@ == lit@),
{
    let n = lit.unicode_len();
    if w.len() != n {
        return false;
    }
    let mut i: usize = 0;
    while i < n
        invariant
            n == lit@.len(),
            n == w@.len(),
            i <= n,
            forall|j: int| 0 <= j < i ==> w@[j] == lit@[j],
        decreases n - i,
    {
        if w[i] != lit.get_char(i) {
            return false;
        }
        i = i + 1;
    }
    assert(w@ =~= lit@);
    true
}

/// Membership of a token in a synonym set.
pub fn synonym_contains(set: SynonymSet, w: &Vec<char>) -> (r: bool)
    ensures
        r == is_synonym(set, w@),
{
    match set {
        SynonymSet::Analysis => same_word(w, "analysis") || same_word(w, "stats") || same_word(
            w,
            "statistics",
        ) || same_word(w, "insight") || same_word(w, "report"),
        SynonymSet::Airport => same_word(w, "airport") || same_word(w, "apt") || same_word(
            w,
            "airfield",
        ),
        SynonymSet::Carrier => same_word(w, "carrier") || same_word(w, "airline") || same_word(
            w,
            "airlines",
        ),
        SynonymSet::Prediction => same_word(w, "prediction") || same_word(w, "future")
            || same_word(w, "forecast") || same_word(w, "projection"),
    }
}

/// Whether any token belongs to `set`.
pub fn contains_synonym(tokens: &Vec<Vec<char>>, set: SynonymSet) -> (r: bool)
    ensures
        r == has_synonym(words_view(tokens@), set),
{
    let ghost t = words_view(tokens@);
    let mut i: usize = 0;
    while i < tokens.len()
        invariant
            t == words_view(tokens@),
            i <= tokens@.len(),
            forall|j: int| 0 <= j < i ==> !is_synonym(set, #[trigger] t[j]),
        decreases tokens@.len() - i,
    {
        if synonym_contains(set, &tokens[i]) {
            assert(is_synonym(set, t[i as int]));
            return true;
        }
        i = i + 1;
    }
    false
}

/// The upper-cased code next to the synonym at `synonym_index`: the token
/// after it if it validates, else the token before it.
pub fn extract_code(tokens: &Vec<Vec<char>>, synonym_index: usize, kind: CodeKind) -> (r: Option<String>)
    requires
        synonym_index < tokens@.len(),
    ensures
        opt_view(r) == upper_opt(neighbor_code(words_view(tokens@), synonym_index as int, kind)),
{
    let ghost t = words_view(tokens@);
    if tokens.len() - synonym_index > 1 {
        let potential = &tokens[synonym_index + 1];
        if is_valid_code(kind, potential) {
            return Some(uppercase(potential));
        }
    }
    if synonym_index >= 1 {
        let potential = &tokens[synonym_index - 1];
        if is_valid_code(kind, potential) {
            return Some(uppercase(potential));
        }
    }
    None
}

/// Scans left to right for a synonym of `synonyms` with a valid neighbouring
/// code, and returns the first such code, upper-cased.
pub fn find_first_code(tokens: &Vec<Vec<char>>, synonyms: SynonymSet, kind: CodeKind) -> (r: Option<String>)
    ensures
        opt_view(r) == upper_opt(slot(words_view(tokens@), synonyms, kind)),
{
    let ghost t = words_view(tokens@);
    let mut i: usize = 0;
    while i < tokens.len()
        invariant
            t == words_view(tokens@),
            i <= tokens@.len(),
            slot(t, synonyms, kind) == slot_from(t, synonyms, kind, i as int),
        decreases tokens@.len() - i,
    {
        if synonym_contains(synonyms, &tokens[i]) {
            let code = extract_code(tokens, i, kind);
            if code.is_some() {
                return code;
            }
        }
        i = i + 1;
    }
    None
}

/// The upper-cased first valid carrier code that directly follows a carrier synonym.
pub fn find_following_carrier(tokens: &Vec<Vec<char>>) -> (r: Option<String>)
    ensures
        opt_view(r) == upper_opt(following_carrier(words_view(tokens@))),
{
    let ghost t = words_view(tokens@);
    let mut i: usize = 0;
    while i < tokens.len()
        invariant
            t == words_view(tokens@),
            i <= tokens@.len(),
            following_carrier(t) == following_carrier_from(t, i as int),
        decreases tokens@.len() - i,
    {
        if synonym_contains(SynonymSet::Carrier, &tokens[i]) && tokens.len() - i > 1
            && is_valid_code(CodeKind::Carrier, &tokens[i + 1]) {
            return Some(uppercase(&tokens[i + 1]));
        }
        i = i + 1;
    }
    None
}

/// Classifies a token sequence.
pub fn classify_tokens(tokens: &Vec<Vec<char>>) -> (r: Intent)
    ensures
        r@ == classify(words_view(tokens@)),
{
    let has_analysis = contains_synonym(tokens, SynonymSet::Analysis);
    let has_prediction = contains_synonym(tokens, SynonymSet::Prediction);
    if has_prediction {
        if let Some(code) = find_following_carrier(tokens) {
            return Intent::PredictFuture(code);
        }
    }
    if !has_analysis {
        return Intent::Unknown;
    }
    if let Some(code) = find_first_code(tokens, SynonymSet::Airport, CodeKind::Airport) {
        return Intent::AnalysisAirport(code);
    }
    if let Some(code) = find_first_code(tokens, SynonymSet::Carrier, CodeKind::Carrier) {
        return Intent::AnalysisCarrier(code);
    }
    Intent::Unknown
}

/// Decides the intent of one raw query line.
pub fn recognize_intent(query: &str) -> (r: Intent)
    ensures
        r@ == classify(tokens_of(query@)),
{
    let tokens = tokenize(query);
    classify_tokens(&tokens)
}

/// Whether `w` is a trigger word of any category.
pub open spec fn is_any_synonym(w: Seq<char>) -> bool {
    is_synonym(SynonymSet::Analysis, w) || is_synonym(SynonymSet::Airport, w) || is_synonym(
        SynonymSet::Carrier,
        w,
    ) || is_synonym(SynonymSet::Prediction, w)
}

/// No token of `s` is a trigger word.
pub open spec fn free_of_synonyms(s: Seq<Seq<char>>) -> bool {
    forall|i: int| 0 <= i < s.len() ==> !is_any_synonym(#[trigger] s[i])
}

/// No analysis word and no airport word is a prediction word, and no
/// analysis word is an airport word.
pub proof fn lemma_categories_disjoint(w: Seq<char>)
    ensures
        is_synonym(SynonymSet::Analysis, w) ==> !is_synonym(SynonymSet::Prediction, w),
        is_synonym(SynonymSet::Analysis, w) ==> !is_synonym(SynonymSet::Airport, w),
        is_synonym(SynonymSet::Airport, w) ==> !is_synonym(SynonymSet::Prediction, w),
{
    reveal_strlit("analysis");
    reveal_strlit("stats");
    reveal_strlit("statistics");
    reveal_strlit("insight");
    reveal_strlit("report");
    reveal_strlit("airport");
    reveal_strlit("apt");
    reveal_strlit("airfield");
    reveal_strlit("prediction");
    reveal_strlit("future");
    reveal_strlit("forecast");
    reveal_strlit("projection");
    assert("analysis"@[1] != "airfield"@[1]);
    assert("analysis"@[0] != "forecast"@[0]);
    assert("report"@[0] != "future"@[0]);
    assert("insight"@[0] != "airport"@[0]);
    assert("statistics"@[0] != "prediction"@[0]);
    assert("statistics"@[0] != "projection"@[0]);
    assert(!is_synonym(SynonymSet::Airport, "analysis"@));
    assert(!is_synonym(SynonymSet::Prediction, "analysis"@));
    assert("stats"@[0] != "apt"@[0] && "stats"@[0] != "airport"@[0] && "stats"@[0] != "airfield"@[0]);
    assert(!is_synonym(SynonymSet::Airport, "stats"@));
    assert(!is_synonym(SynonymSet::Prediction, "stats"@));
    assert(!is_synonym(SynonymSet::Airport, "statistics"@));
    assert(!is_synonym(SynonymSet::Prediction, "statistics"@));
    assert(!is_synonym(SynonymSet::Airport, "insight"@));
    assert(!is_synonym(SynonymSet::Prediction, "insight"@));
    assert(!is_synonym(SynonymSet::Airport, "report"@));
    assert(!is_synonym(SynonymSet::Prediction, "report"@));
    assert(!is_synonym(SynonymSet::Prediction, "airport"@));
    assert(!is_synonym(SynonymSet::Prediction, "apt"@));
    assert(!is_synonym(SynonymSet::Prediction, "airfield"@));
}

/// Positions without a synonym of `set` are passed over by the scan.
proof fn lemma_slot_skip(t: Seq<Seq<char>>, set: SynonymSet, kind: CodeKind, i: int, k: int)
    requires
        0 <= i <= k <= t.len(),
        forall|j: int| i <= j < k ==> !is_synonym(set, #[trigger] t[j]),
    ensures
        slot_from(t, set, kind, i) == slot_from(t, set, kind, k),
    decreases k - i,
{
    if i < k {
        lemma_slot_skip(t, set, kind, i + 1, k);
    }
}

/// The scan finds nothing where no synonym of `set` has a valid neighbour.
proof fn lemma_slot_none(t: Seq<Seq<char>>, set: SynonymSet, kind: CodeKind, i: int)
    requires
        0 <= i,
        forall|j: int| 0 <= j < t.len() && is_synonym(set, #[trigger] t[j]) ==> neighbor_code(t, j, kind) is None,
    ensures
        slot_from(t, set, kind, i) is None,
    decreases t.len() - i,
{
    if i < t.len() {
        lemma_slot_none(t, set, kind, i + 1);
    }
}

/// With an analysis word, an airport word and an airport code written just
/// before it, the query asks for that airport's analysis, provided no other
/// trigger word occurs and the token after the airport word is no airport code.
pub proof fn lemma_code_before_airport_word(
    pre: Seq<Seq<char>>,
    w: Seq<char>,
    mid: Seq<Seq<char>>,
    c: Seq<char>,
    a: Seq<char>,
    post: Seq<Seq<char>>,
)
    requires
        is_synonym(SynonymSet::Analysis, w),
        is_synonym(SynonymSet::Airport, a),
        valid_code(CodeKind::Airport, c),
        !is_any_synonym(c),
        free_of_synonyms(pre),
        free_of_synonyms(mid),
        free_of_synonyms(post),
        post.len() == 0 || !valid_code(CodeKind::Airport, post[0]),
    ensures
        classify(pre + seq![w] + mid + seq![c, a] + post) == IntentModel::AnalysisAirport(upper_of(c)),
{
    let t = pre + seq![w] + mid + seq![c, a] + post;
    let p = pre.len() as int;
    let k = p + 1 + mid.len() + 1;
    lemma_categories_disjoint(w);
    lemma_categories_disjoint(a);
    assert(t[p] == w);
    assert(t[k - 1] == c);
    assert(t[k] == a);
    assert forall|j: int| 0 <= j < t.len() implies !is_synonym(SynonymSet::Prediction, #[trigger] t[j]) by {
        if j < p {
            assert(t[j] == pre[j]);
        } else if p < j < k - 1 {
            assert(t[j] == mid[j - p - 1]);
        } else if j > k {
            assert(t[j] == post[j - k - 1]);
        }
    }
    assert(has_synonym(t, SynonymSet::Analysis));
    assert forall|j: int| 0 <= j < k implies !is_synonym(SynonymSet::Airport, #[trigger] t[j]) by {
        if j < p {
            assert(t[j] == pre[j]);
        } else if p < j < k - 1 {
            assert(t[j] == mid[j - p - 1]);
        }
    }
    lemma_slot_skip(t, SynonymSet::Airport, CodeKind::Airport, 0, k);
    if k + 1 < t.len() {
        assert(t[k + 1] == post[0]);
    }
    assert(neighbor_code(t, k, CodeKind::Airport) == Some(c));
}

/// With an analysis word and an airport code written just after an airport
/// word, the query asks for that airport's analysis, provided no other
/// trigger word occurs.
pub proof fn lemma_code_after_airport_word(
    pre: Seq<Seq<char>>,
    w: Seq<char>,
    mid: Seq<Seq<char>>,
    a: Seq<char>,
    c: Seq<char>,
    post: Seq<Seq<char>>,
)
    requires
        is_synonym(SynonymSet::Analysis, w),
        is_synonym(SynonymSet::Airport, a),
        valid_code(CodeKind::Airport, c),
        !is_any_synonym(c),
        free_of_synonyms(pre),
        free_of_synonyms(mid),
        free_of_synonyms(post),
    ensures
        classify(pre + seq![w] + mid + seq![a, c] + post) == IntentModel::AnalysisAirport(upper_of(c)),
{
    let t = pre + seq![w] + mid + seq![a, c] + post;
    let p = pre.len() as int;
    let k = p + 1 + mid.len();
    lemma_categories_disjoint(w);
    lemma_categories_disjoint(a);
    assert(t[p] == w);
    assert(t[k] == a);
    assert(t[k + 1] == c);
    assert forall|j: int| 0 <= j < t.len() implies !is_synonym(SynonymSet::Prediction, #[trigger] t[j]) by {
        if j < p {
            assert(t[j] == pre[j]);
        } else if p < j < k {
            assert(t[j] == mid[j - p - 1]);
        } else if j > k + 1 {
            assert(t[j] == post[j - k - 2]);
        }
    }
    assert(has_synonym(t, SynonymSet::Analysis));
    assert forall|j: int| 0 <= j < k implies !is_synonym(SynonymSet::Airport, #[trigger] t[j]) by {
        if j < p {
            assert(t[j] == pre[j]);
        } else if p < j < k {
            assert(t[j] == mid[j - p - 1]);
        }
    }
    lemma_slot_skip(t, SynonymSet::Airport, CodeKind::Airport, 0, k);
    assert(neighbor_code(t, k, CodeKind::Airport) == Some(c));
}

/// Where no token next to an airport word is a valid airport code, no
/// airport is extracted and the query never asks for an airport's analysis.
pub proof fn lemma_invalid_neighbours_give_no_airport(t: Seq<Seq<char>>)
    requires
        forall|i: int, j: int|
            0 <= i < t.len() && 0 <= j < t.len() && (j == i + 1 || j + 1 == i) && is_synonym(
                SynonymSet::Airport,
                #[trigger] t[i],
            ) ==> !valid_code(CodeKind::Airport, #[trigger] t[j]),
    ensures
        slot(t, SynonymSet::Airport, CodeKind::Airport) is None,
        !(classify(t) is AnalysisAirport),
{
    assert forall|j: int|
        0 <= j < t.len() && is_synonym(SynonymSet::Airport, #[trigger] t[j]) implies neighbor_code(
        t,
        j,
        CodeKind::Airport,
    ) is None by {
        if j + 1 < t.len() {
            assert(!valid_code(CodeKind::Airport, t[j + 1]));
        }
        if j >= 1 {
            assert(!valid_code(CodeKind::Airport, t[j - 1]));
        }
    }
    lemma_slot_none(t, SynonymSet::Airport, CodeKind::Airport, 0);
}

/// When both an airport code and a carrier code can be extracted from an
/// analysis query without a prediction match, the airport is chosen.
pub proof fn lemma_airport_before_carrier(t: Seq<Seq<char>>)
    requires
        has_synonym(t, SynonymSet::Analysis),
        slot(t, SynonymSet::Airport, CodeKind::Airport) is Some,
        slot(t, SynonymSet::Carrier, CodeKind::Carrier) is Some,
        !(has_synonym(t, SynonymSet::Prediction) && following_carrier(t) is Some),
    ensures
        classify(t) == IntentModel::AnalysisAirport(
            upper_of(slot(t, SynonymSet::Airport, CodeKind::Airport)->Some_0),
        ),
{
}

/// A prediction word together with a valid carrier code right after a
/// carrier word always asks for a forecast, whatever analysis words occur.
pub proof fn lemma_prediction_first(t: Seq<Seq<char>>)
    requires
        has_synonym(t, SynonymSet::Prediction),
        following_carrier(t) is Some,
    ensures
        classify(t) == IntentModel::PredictFuture(upper_of(following_carrier(t)->Some_0)),
{
}

/// Whether `code` is the upper-cased form of a token of `t` that is a valid
/// code of the given kind.
pub open spec fn from_valid_token(t: Seq<Seq<char>>, kind: CodeKind, code: Seq<char>) -> bool {
    exists|i: int| 0 <= i < t.len() && valid_code(kind, #[trigger] t[i]) && code == upper_of(t[i])
}

proof fn lemma_slot_from_valid(t: Seq<Seq<char>>, set: SynonymSet, kind: CodeKind, i: int)
    requires
        slot_from(t, set, kind, i) is Some,
    ensures
        from_valid_token(t, kind, upper_of(slot_from(t, set, kind, i)->Some_0)),
    decreases t.len() - i,
{
    if 0 <= i < t.len() {
        if is_synonym(set, t[i]) && neighbor_code(t, i, kind) is Some {
            if i + 1 < t.len() && valid_code(kind, t[i + 1]) {
                assert(valid_code(kind, t[i + 1]));
            } else {
                assert(valid_code(kind, t[i - 1]));
            }
        } else {
            lemma_slot_from_valid(t, set, kind, i + 1);
        }
    }
}

proof fn lemma_following_carrier_valid(t: Seq<Seq<char>>, i: int)
    requires
        following_carrier_from(t, i) is Some,
    ensures
        from_valid_token(t, CodeKind::Carrier, upper_of(following_carrier_from(t, i)->Some_0)),
    decreases t.len() - i,
{
    if 0 <= i < t.len() {
        if is_synonym(SynonymSet::Carrier, t[i]) && i + 1 < t.len() && valid_code(CodeKind::Carrier, t[i + 1]) {
            assert(valid_code(CodeKind::Carrier, t[i + 1]));
        } else {
            lemma_following_carrier_valid(t, i + 1);
        }
    }
}

/// Every code an intent carries is the upper-cased form of a token of the
/// query that passes the validator of its kind.
pub proof fn lemma_intent_codes_are_valid_tokens(t: Seq<Seq<char>>)
    ensures
        classify(t) is AnalysisAirport ==> from_valid_token(t, CodeKind::Airport, classify(t)->AnalysisAirport_0),
        classify(t) is AnalysisCarrier ==> from_valid_token(t, CodeKind::Carrier, classify(t)->AnalysisCarrier_0),
        classify(t) is PredictFuture ==> from_valid_token(t, CodeKind::Carrier, classify(t)->PredictFuture_0),
{
    if following_carrier(t) is Some {
        lemma_following_carrier_valid(t, 0);
    }
    if slot(t, SynonymSet::Airport, CodeKind::Airport) is Some {
        lemma_slot_from_valid(t, SynonymSet::Airport, CodeKind::Airport, 0);
    }
    if slot(t, SynonymSet::Carrier, CodeKind::Carrier) is Some {
        lemma_slot_from_valid(t, SynonymSet::Carrier, CodeKind::Carrier, 0);
    }
}

/// Two spellings of a query that lower-case to the same text (as the
/// upper-cased and lower-cased forms of an ASCII query do) are classified alike.
pub proof fn lemma_case_insensitive(upper: Seq<char>, lower: Seq<char>)
    requires
        lower_of(upper) == lower_of(lower),
    ensures
        classify(tokens_of(upper)) == classify(tokens_of(lower)),
{
}

} // verus!
