//! Heuristic extraction of a structured vehicle hint from a path string.
//!
//! All matching is done against the ASCII-lower-cased path, directory
//! components included. Four independent signals contribute to an additive
//! confidence score, counted in tenths of a point: a model-year token and a
//! known make or model token are worth three tenths each, a VIN-shaped
//! token five tenths. A hint is returned only when at least one signal was
//! found; the score is deliberately left unclamped.

use vstd::prelude::*;
use crate::text::{lower_seq, lower_char, contains_seq, contains_str, to_chars, lower_chars, chars_eq_str};

verus! {

/// A word character, as token boundaries for year tokens see it: letters,
/// digits and the underscore.
pub open spec fn is_word_char(c: char) -> bool {
    ||| 'a' <= c && c <= 'z'
    ||| 'A' <= c && c <= 'Z'
    ||| '0' <= c && c <= '9'
    ||| c == '_'
}

/// A decimal digit.
pub open spec fn is_digit(c: char) -> bool {
    '0' <= c && c <= '9'
}

/// A letter or digit; VIN tokens are delimited by anything else, so an
/// underscore separates a VIN from its surroundings.
pub open spec fn is_alnum(c: char) -> bool {
    ||| 'a' <= c && c <= 'z'
    ||| 'A' <= c && c <= 'Z'
    ||| '0' <= c && c <= '9'
}

/// A four-digit model year 1900-2039 stands at position `i` of `s`, with a
/// non-word character (or an end of the string) on either side.
pub open spec fn is_year_at(s: Seq<char>, i: int) -> bool {
    &&& 0 <= i
    &&& i + 4 <= s.len()
    &&& {
        ||| (s[i] == '1' && s[i + 1] == '9' && is_digit(s[i + 2]) && is_digit(s[i + 3]))
        ||| (s[i] == '2' && s[i + 1] == '0' && '0' <= s[i + 2] && s[i + 2] <= '3' && is_digit(
            s[i + 3],
        ))
    }
    &&& (i == 0 || !is_word_char(s[i - 1]))
    &&& (i + 4 == s.len() || !is_word_char(s[i + 4]))
}

/// The first position at or after `i` where a year token stands.
pub open spec fn first_year_from(s: Seq<char>, i: int) -> Option<int>
    decreases s.len() - i,
{
    if i + 4 > s.len() {
        None
    } else if is_year_at(s, i) {
        Some(i)
    } else {
        first_year_from(s, i + 1)
    }
}

/// The first year token of `s`, if any.
pub open spec fn spec_first_year(s: Seq<char>) -> Option<int> {
    first_year_from(s, 0)
}

/// A character a VIN may contain: a digit, or a lower-case letter other
/// than `i`, `o` and `q` (the path has been lower-cased before matching).
pub open spec fn is_vin_char(c: char) -> bool {
    ||| is_digit(c)
    ||| ('a' <= c && c <= 'z' && c != 'i' && c != 'o' && c != 'q')
}

/// A 17-character VIN-shaped token stands at position `i` of `s`, with a
/// non-alphanumeric character (or an end of the string) on either side.
pub open spec fn is_vin_at(s: Seq<char>, i: int) -> bool {
    &&& 0 <= i
    &&& i + 17 <= s.len()
    &&& (forall|j: int| 0 <= j < 17 ==> #[trigger] is_vin_char(s[i + j]))
    &&& (i == 0 || !is_alnum(s[i - 1]))
    &&& (i + 17 == s.len() || !is_alnum(s[i + 17]))
}

/// The first position at or after `i` where a VIN-shaped token stands.
pub open spec fn first_vin_from(s: Seq<char>, i: int) -> Option<int>
    decreases s.len() - i,
{
    if i + 17 > s.len() {
        None
    } else if is_vin_at(s, i) {
        Some(i)
    } else {
        first_vin_from(s, i + 1)
    }
}

/// The first VIN-shaped token of `s`, if any.
pub open spec fn spec_first_vin(s: Seq<char>) -> Option<int> {
    first_vin_from(s, 0)
}

/// Whether a year token stands at position `i`.
fn year_at(low: &Vec<char>, i: usize) -> (b: bool)
    requires
        i + 4 <= low@.len(),
    ensures
        b == is_year_at(low@, i as int),
{
    let n = low.len();
    let c0 = low[i];
    let c1 = low[i + 1];
    let c2 = low[i + 2];
    let c3 = low[i + 3];
    let digits = (c0 == '1' && c1 == '9' && ('0' <= c2 && c2 <= '9') && ('0' <= c3 && c3 <= '9'))
        || (c0 == '2' && c1 == '0' && ('0' <= c2 && c2 <= '3') && ('0' <= c3 && c3 <= '9'));
    let left = i == 0 || !word_char(low[i - 1]);
    let right = i + 4 == n || !word_char(low[i + 4]);
    digits && left && right
}

/// Whether `c` is a word character.
fn word_char(c: char) -> (b: bool)
    ensures
        b == is_word_char(c),
{
    ('a' <= c && c <= 'z') || ('A' <= c && c <= 'Z') || ('0' <= c && c <= '9') || c == '_'
}

/// Whether `c` is a letter or digit.
fn alnum(c: char) -> (b: bool)
    ensures
        b == is_alnum(c),
{
    ('a' <= c && c <= 'z') || ('A' <= c && c <= 'Z') || ('0' <= c && c <= '9')
}

/// Whether `c` may stand in a VIN.
fn vin_char(c: char) -> (b: bool)
    ensures
        b == is_vin_char(c),
{
    ('0' <= c && c <= '9') || ('a' <= c && c <= 'z' && c != 'i' && c != 'o' && c != 'q')
}

/// Position of the first year token of `low`, if any.
fn find_year(low: &Vec<char>) -> (r: Option<usize>)
    ensures
        match r {
            Some(i) => spec_first_year(low@) == Some(i as int),
            None => spec_first_year(low@) is None,
        },
{
    let n = low.len();
    if n < 4 {
        return None;
    }
    let mut i: usize = 0;
    while i <= n - 4
        invariant
            n == low@.len(),
            4 <= n,
            i <= n - 3,
            first_year_from(low@, 0) == first_year_from(low@, i as int),
        decreases n - i,
    {
        if year_at(low, i) {
            return Some(i);
        }
        i = i + 1;
    }
    None
}

/// Whether a VIN-shaped token stands at position `i`.
fn vin_at(low: &Vec<char>, i: usize) -> (b: bool)
    requires
        i + 17 <= low@.len(),
    ensures
        b == is_vin_at(low@, i as int),
{
    let n = low.len();
    let mut j: usize = 0;
    while j < 17
        invariant
            i + 17 <= n,
            n == low@.len(),
            j <= 17,
            forall|l: int| 0 <= l < j ==> #[trigger] is_vin_char(low@[i + l]),
        decreases 17 - j,
    {
        if !vin_char(low[i + j]) {
            return false;
        }
        j = j + 1;
    }
    let left = i == 0 || !alnum(low[i - 1]);
    let right = i + 17 == n || !alnum(low[i + 17]);
    left && right
}

/// Position of the first VIN-shaped token of `low`, if any.
fn find_vin(low: &Vec<char>) -> (r: Option<usize>)
    ensures
        match r {
            Some(i) => spec_first_vin(low@) == Some(i as int),
            None => spec_first_vin(low@) is None,
        },
{
    let n = low.len();
    if n < 17 {
        return None;
    }
    let mut i: usize = 0;
    while i <= n - 17
        invariant
            n == low@.len(),
            17 <= n,
            i <= n - 16,
            first_vin_from(low@, 0) == first_vin_from(low@, i as int),
        decreases n - i,
    {
        if vin_at(low, i) {
            return Some(i);
        }
        i = i + 1;
    }
    None
}

/// The make read out of a lower-cased path: the fixed ordered token list,
/// first match wins, each token normalized to its canonical display form.
pub open spec fn spec_make_of(low: Seq<char>) -> Option<Seq<char>> {
    if contains_seq(low, "chevrolet"@) {
        Some("Chevrolet"@)
    } else if contains_seq(low, "chevy"@) {
        Some("Chevrolet"@)
    } else if contains_seq(low, "ford"@) {
        Some("Ford"@)
    } else if contains_seq(low, "dodge"@) {
        Some("Dodge"@)
    } else if contains_seq(low, "gmc"@) {
        Some("Gmc"@)
    } else if contains_seq(low, "toyota"@) {
        Some("Toyota"@)
    } else if contains_seq(low, "honda"@) {
        Some("Honda"@)
    } else if contains_seq(low, "bmw"@) {
        Some("Bmw"@)
    } else if contains_seq(low, "mercedes"@) {
        Some("Mercedes"@)
    } else if contains_seq(low, "porsche"@) {
        Some("Porsche"@)
    } else if contains_seq(low, "ferrari"@) {
        Some("Ferrari"@)
    } else if contains_seq(low, "lamborghini"@) {
        Some("Lamborghini"@)
    } else if contains_seq(low, "audi"@) {
        Some("Audi"@)
    } else if contains_seq(low, "volkswagen"@) {
        Some("Volkswagen"@)
    } else if contains_seq(low, "vw"@) {
        Some("Volkswagen"@)
    } else if contains_seq(low, "jeep"@) {
        Some("Jeep"@)
    } else if contains_seq(low, "ram"@) {
        Some("Ram"@)
    } else if contains_seq(low, "nissan"@) {
        Some("Nissan"@)
    } else if contains_seq(low, "mazda"@) {
        Some("Mazda"@)
    } else if contains_seq(low, "subaru"@) {
        Some("Subaru"@)
    } else {
        None
    }
}

/// The model read out of a lower-cased path: the fixed ordered token list,
/// first match wins, upper-cased.
pub open spec fn spec_model_of(low: Seq<char>) -> Option<Seq<char>> {
    if contains_seq(low, "c10"@) {
        Some("C10"@)
    } else if contains_seq(low, "c20"@) {
        Some("C20"@)
    } else if contains_seq(low, "k10"@) {
        Some("K10"@)
    } else if contains_seq(low, "k20"@) {
        Some("K20"@)
    } else if contains_seq(low, "k5"@) {
        Some("K5"@)
    } else if contains_seq(low, "blazer"@) {
        Some("BLAZER"@)
    } else if contains_seq(low, "suburban"@) {
        Some("SUBURBAN"@)
    } else if contains_seq(low, "silverado"@) {
        Some("SILVERADO"@)
    } else if contains_seq(low, "mustang"@) {
        Some("MUSTANG"@)
    } else if contains_seq(low, "f150"@) {
        Some("F150"@)
    } else if contains_seq(low, "f-150"@) {
        Some("F-150"@)
    } else if contains_seq(low, "camaro"@) {
        Some("CAMARO"@)
    } else if contains_seq(low, "corvette"@) {
        Some("CORVETTE"@)
    } else if contains_seq(low, "challenger"@) {
        Some("CHALLENGER"@)
    } else if contains_seq(low, "charger"@) {
        Some("CHARGER"@)
    } else if contains_seq(low, "911"@) {
        Some("911"@)
    } else if contains_seq(low, "944"@) {
        Some("944"@)
    } else if contains_seq(low, "carrera"@) {
        Some("CARRERA"@)
    } else if contains_seq(low, "civic"@) {
        Some("CIVIC"@)
    } else if contains_seq(low, "accord"@) {
        Some("ACCORD"@)
    } else if contains_seq(low, "tacoma"@) {
        Some("TACOMA"@)
    } else if contains_seq(low, "4runner"@) {
        Some("4RUNNER"@)
    } else if contains_seq(low, "wrangler"@) {
        Some("WRANGLER"@)
    } else if contains_seq(low, "bronco"@) {
        Some("BRONCO"@)
    } else {
        None
    }
}

/// First matching make token of the table, in canonical display form.
fn find_make(low: &Vec<char>) -> (r: Option<String>)
    ensures
        match r {
            Some(s) => spec_make_of(low@) == Some(s@),
            None => spec_make_of(low@) is None,
        },
{
    if contains_str(low, "chevrolet") {
        Some(String::from_str("Chevrolet"))
    } else if contains_str(low, "chevy") {
        Some(String::from_str("Chevrolet"))
    } else if contains_str(low, "ford") {
        Some(String::from_str("Ford"))
    } else if contains_str(low, "dodge") {
        Some(String::from_str("Dodge"))
    } else if contains_str(low, "gmc") {
        Some(String::from_str("Gmc"))
    } else if contains_str(low, "toyota") {
        Some(String::from_str("Toyota"))
    } else if contains_str(low, "honda") {
        Some(String::from_str("Honda"))
    } else if contains_str(low, "bmw") {
        Some(String::from_str("Bmw"))
    } else if contains_str(low, "mercedes") {
        Some(String::from_str("Mercedes"))
    } else if contains_str(low, "porsche") {
        Some(String::from_str("Porsche"))
    } else if contains_str(low, "ferrari") {
        Some(String::from_str("Ferrari"))
    } else if contains_str(low, "lamborghini") {
        Some(String::from_str("Lamborghini"))
    } else if contains_str(low, "audi") {
        Some(String::from_str("Audi"))
    } else if contains_str(low, "volkswagen") {
        Some(String::from_str("Volkswagen"))
    } else if contains_str(low, "vw") {
        Some(String::from_str("Volkswagen"))
    } else if contains_str(low, "jeep") {
        Some(String::from_str("Jeep"))
    } else if contains_str(low, "ram") {
        Some(String::from_str("Ram"))
    } else if contains_str(low, "nissan") {
        Some(String::from_str("Nissan"))
    } else if contains_str(low, "mazda") {
        Some(String::from_str("Mazda"))
    } else if contains_str(low, "subaru") {
        Some(String::from_str("Subaru"))
    } else {
        None
    }
}

/// First matching model token of the table, upper-cased.
fn find_model(low: &Vec<char>) -> (r: Option<String>)
    ensures
        match r {
            Some(s) => spec_model_of(low@) == Some(s@),
            None => spec_model_of(low@) is None,
        },
{
    if contains_str(low, "c10") {
        Some(String::from_str("C10"))
    } else if contains_str(low, "c20") {
        Some(String::from_str("C20"))
    } else if contains_str(low, "k10") {
        Some(String::from_str("K10"))
    } else if contains_str(low, "k20") {
        Some(String::from_str("K20"))
    } else if contains_str(low, "k5") {
        Some(String::from_str("K5"))
    } else if contains_str(low, "blazer") {
        Some(String::from_str("BLAZER"))
    } else if contains_str(low, "suburban") {
        Some(String::from_str("SUBURBAN"))
    } else if contains_str(low, "silverado") {
        Some(String::from_str("SILVERADO"))
    } else if contains_str(low, "mustang") {
        Some(String::from_str("MUSTANG"))
    } else if contains_str(low, "f150") {
        Some(String::from_str("F150"))
    } else if contains_str(low, "f-150") {
        Some(String::from_str("F-150"))
    } else if contains_str(low, "camaro") {
        Some(String::from_str("CAMARO"))
    } else if contains_str(low, "corvette") {
        Some(String::from_str("CORVETTE"))
    } else if contains_str(low, "challenger") {
        Some(String::from_str("CHALLENGER"))
    } else if contains_str(low, "charger") {
        Some(String::from_str("CHARGER"))
    } else if contains_str(low, "911") {
        Some(String::from_str("911"))
    } else if contains_str(low, "944") {
        Some(String::from_str("944"))
    } else if contains_str(low, "carrera") {
        Some(String::from_str("CARRERA"))
    } else if contains_str(low, "civic") {
        Some(String::from_str("CIVIC"))
    } else if contains_str(low, "accord") {
        Some(String::from_str("ACCORD"))
    } else if contains_str(low, "tacoma") {
        Some(String::from_str("TACOMA"))
    } else if contains_str(low, "4runner") {
        Some(String::from_str("4RUNNER"))
    } else if contains_str(low, "wrangler") {
        Some(String::from_str("WRANGLER"))
    } else if contains_str(low, "bronco") {
        Some(String::from_str("BRONCO"))
    } else {
        None
    }
}

/// A best-effort structured guess at a vehicle's identity, read from a
/// file path. `confidence` counts tenths of a point and is the sum of the
/// weights of the signals that were found.
pub struct VehicleHint {
    pub year: Option<String>,
    pub make: Option<String>,
    pub model: Option<String>,
    pub vin: Option<String>,
    pub confidence: u32,
    pub source: String,
}

/// The mathematical shape of a vehicle hint.
#[verifier::ext_equal]
pub struct HintModel {
    pub year: Option<Seq<char>>,
    pub make: Option<Seq<char>>,
    pub model: Option<Seq<char>>,
    pub vin: Option<Seq<char>>,
    pub confidence: int,
    pub source: Seq<char>,
}

impl View for VehicleHint {
    type V = HintModel;

    open spec fn view(&self) -> HintModel {
        HintModel {
            year: match self.year {
                Some(s) => Some(s@),
                None => None,
            },
            make: match self.make {
                Some(s) => Some(s@),
                None => None,
            },
            model: match self.model {
                Some(s) => Some(s@),
                None => None,
            },
            vin: match self.vin {
                Some(s) => Some(s@),
                None => None,
            },
            confidence: self.confidence as int,
            source: self.source@,
        }
    }
}

/// Weight, in tenths, of a found year token.
pub open spec fn year_weight() -> int {
    3
}

/// Weight, in tenths, of a found make token.
pub open spec fn make_weight() -> int {
    3
}

/// Weight, in tenths, of a found model token.
pub open spec fn model_weight() -> int {
    3
}

/// Weight, in tenths, of a found VIN-shaped token.
pub open spec fn vin_weight() -> int {
    5
}

/// The hint read from a path: every signal is matched against the
/// ASCII-lower-cased path; the year is taken from the lower-cased text,
/// the VIN keeps the casing it has in the path; the confidence adds the
/// weights of the signals found, and a hint exists exactly when that sum
/// is positive.
pub open spec fn spec_extract(path: Seq<char>) -> Option<HintModel> {
    let low = lower_seq(path);
    let year = match spec_first_year(low) {
        Some(i) => Some(low.subrange(i, i + 4)),
        None => None,
    };
    let make = spec_make_of(low);
    let model = spec_model_of(low);
    let vin = match spec_first_vin(low) {
        Some(i) => Some(path.subrange(i, i + 17)),
        None => None,
    };
    let confidence = (if year is Some {
        year_weight()
    } else {
        0
    }) + (if make is Some {
        make_weight()
    } else {
        0
    }) + (if model is Some {
        model_weight()
    } else {
        0
    }) + (if vin is Some {
        vin_weight()
    } else {
        0
    });
    if confidence > 0 {
        Some(
            HintModel {
                year,
                make,
                model,
                vin,
                confidence,
                source: "filename"@,
            },
        )
    } else {
        None
    }
}

/// A year match starts where a year token stands.
proof fn lemma_first_year_is_match(s: Seq<char>, i: int, j: int)
    requires
        first_year_from(s, i) == Some(j),
    ensures
        is_year_at(s, j),
        i <= j,
    decreases s.len() - i,
{
    if i + 4 <= s.len() && !is_year_at(s, i) {
        lemma_first_year_is_match(s, i + 1, j);
    }
}

/// A VIN match starts where a VIN-shaped token stands.
proof fn lemma_first_vin_is_match(s: Seq<char>, i: int, j: int)
    requires
        first_vin_from(s, i) == Some(j),
    ensures
        is_vin_at(s, j),
        i <= j,
    decreases s.len() - i,
{
    if i + 17 <= s.len() && !is_vin_at(s, i) {
        lemma_first_vin_is_match(s, i + 1, j);
    }
}

/// Lower-casing cannot produce a digit out of a non-digit.
proof fn lemma_digit_lower(c: char)
    requires
        is_digit(lower_char(c)),
    ensures
        lower_char(c) == c,
{
}

/// Read a hint from a path string. The result is a function of the path
/// text alone: the same path always yields the same hint, or none.
pub fn extract_vehicle_hints(path: &str) -> (r: Option<VehicleHint>)
    ensures
        match (r, spec_extract(path@)) {
            (Some(h), Some(g)) => h@ == g,
            (None, None) => true,
            _ => false,
        },
{
    let chars = to_chars(path);
    let low = lower_chars(&chars);
    let n = path.unicode_len();
    assert(low@.len() == n);

    let mut year: Option<String> = None;
    let mut make: Option<String> = None;
    let mut model: Option<String> = None;
    let mut vin: Option<String> = None;
    let mut confidence: u32 = 0;

    match find_year(&low) {
        Some(i) => {
            proof {
                lemma_first_year_is_match(low@, 0, i as int);
                assert forall|j: int| 0 <= j < 4 implies path@[i + j] == #[trigger] low@[i + j] by {
                    assert(low@[i + j] == lower_char(path@[i + j]));
                    assert(is_digit(low@[i + j]));
                    lemma_digit_lower(path@[i + j]);
                }
                assert(path@.subrange(i as int, i + 4) =~= low@.subrange(i as int, i + 4));
            }
            year = Some(path.substring_char(i, i + 4).to_owned());
            confidence = confidence + 3;
        },
        None => {},
    }

    match find_make(&low) {
        Some(s) => {
            make = Some(s);
            confidence = confidence + 3;
        },
        None => {},
    }

    match find_model(&low) {
        Some(s) => {
            model = Some(s);
            confidence = confidence + 3;
        },
        None => {},
    }

    match find_vin(&low) {
        Some(i) => {
            proof {
                lemma_first_vin_is_match(low@, 0, i as int);
            }
            vin = Some(path.substring_char(i, i + 17).to_owned());
            confidence = confidence + 5;
        },
        None => {},
    }

    if confidence > 0 {
        let h = VehicleHint {
            year,
            make,
            model,
            vin,
            confidence,
            source: String::from_str("filename"),
        };
        assert(h@ =~= spec_extract(path@).unwrap());
        Some(h)
    } else {
        None
    }
}

/// ASCII upper-casing of one character; other characters are unchanged.
pub open spec fn upper_char(c: char) -> char {
    if 'a' <= c && c <= 'z' {
        ((c as u8) - 32) as char
    } else {
        c
    }
}

/// A word with its first character ASCII-upper-cased.
pub open spec fn capitalize_ascii(s: Seq<char>) -> Seq<char> {
    if s.len() == 0 {
        s
    } else {
        seq![upper_char(s[0])].add(s.drop_first())
    }
}

/// The canonical display form of a make token: two special cases, else
/// the token with its first letter upper-cased.
pub open spec fn spec_normalize_make(s: Seq<char>) -> Seq<char> {
    if s == "chevy"@ {
        "Chevrolet"@
    } else if s == "vw"@ {
        "Volkswagen"@
    } else {
        capitalize_ascii(s)
    }
}

/// The one-character string holding the ASCII upper-case form of `c`.
fn upper_str(c: char) -> (r: &'static str)
    requires
        'a' <= c && c <= 'z',
    ensures
        r@ == seq![upper_char(c)],
{
    if c == 'a' {
        proof { reveal_strlit("A"); } "A"
    } else if c == 'b' {
        proof { reveal_strlit("B"); } "B"
    } else if c == 'c' {
        proof { reveal_strlit("C"); } "C"
    } else if c == 'd' {
        proof { reveal_strlit("D"); } "D"
    } else if c == 'e' {
        proof { reveal_strlit("E"); } "E"
    } else if c == 'f' {
        proof { reveal_strlit("F"); } "F"
    } else if c == 'g' {
        proof { reveal_strlit("G"); } "G"
    } else if c == 'h' {
        proof { reveal_strlit("H"); } "H"
    } else if c == 'i' {
        proof { reveal_strlit("I"); } "I"
    } else if c == 'j' {
        proof { reveal_strlit("J"); } "J"
    } else if c == 'k' {
        proof { reveal_strlit("K"); } "K"
    } else if c == 'l' {
        proof { reveal_strlit("L"); } "L"
    } else if c == 'm' {
        proof { reveal_strlit("M"); } "M"
    } else if c == 'n' {
        proof { reveal_strlit("N"); } "N"
    } else if c == 'o' {
        proof { reveal_strlit("O"); } "O"
    } else if c == 'p' {
        proof { reveal_strlit("P"); } "P"
    } else if c == 'q' {
        proof { reveal_strlit("Q"); } "Q"
    } else if c == 'r' {
        proof { reveal_strlit("R"); } "R"
    } else if c == 's' {
        proof { reveal_strlit("S"); } "S"
    } else if c == 't' {
        proof { reveal_strlit("T"); } "T"
    } else if c == 'u' {
        proof { reveal_strlit("U"); } "U"
    } else if c == 'v' {
        proof { reveal_strlit("V"); } "V"
    } else if c == 'w' {
        proof { reveal_strlit("W"); } "W"
    } else if c == 'x' {
        proof { reveal_strlit("X"); } "X"
    } else if c == 'y' {
        proof { reveal_strlit("Y"); } "Y"
    } else {
        proof { reveal_strlit("Z"); } "Z"
    }
}

/// Canonical display form of a make token.
pub fn normalize_make(make: &str) -> (r: String)
    ensures
        r@ == spec_normalize_make(make@),
{
    let chars = to_chars(make);
    if chars_eq_str(&chars, "chevy") {
        return String::from_str("Chevrolet");
    }
    if chars_eq_str(&chars, "vw") {
        return String::from_str("Volkswagen");
    }
    let n = make.unicode_len();
    if n == 0 {
        let r = String::new();
        assert(r@ =~= spec_normalize_make(make@));
        return r;
    }
    let c0 = make.get_char(0);
    if 'a' <= c0 && c0 <= 'z' {
        let head = upper_str(c0);
        let tail = make.substring_char(1, n);
        let r = String::from_str(head).concat(tail);
        assert(r@ =~= spec_normalize_make(make@));
        r
    } else {
        let r = make.to_owned();
        assert(r@ =~= spec_normalize_make(make@));
        r
    }
}

/// A matched VIN-shaped token never contains the letters `i`, `o` or `q`,
/// in either case: the hint's VIN is free of them wherever a hint carries
/// one.
pub proof fn lemma_vin_excludes_ioq(path: Seq<char>)
    ensures
        match spec_extract(path) {
            Some(h) => match h.vin {
                Some(v) => forall|j: int|
                    0 <= j < v.len() ==> #[trigger] v[j] != 'i' && v[j] != 'o' && v[j] != 'q'
                        && v[j] != 'I' && v[j] != 'O' && v[j] != 'Q',
                None => true,
            },
            None => true,
        },
{
    let low = lower_seq(path);
    match spec_extract(path) {
        Some(h) => match h.vin {
            Some(v) => {
                let i = spec_first_vin(low).unwrap();
                lemma_first_vin_is_match(low, 0, i);
                assert forall|j: int|
                    0 <= j < v.len() implies #[trigger] v[j] != 'i' && v[j] != 'o' && v[j] != 'q'
                    && v[j] != 'I' && v[j] != 'O' && v[j] != 'Q' by {
                    assert(is_vin_char(low[i + j]));
                    assert(low[i + j] == lower_char(path[i + j]));
                    assert(v[j] == path[i + j]);
                }
            },
            None => {},
        },
        None => {},
    }
}

} // verus!
