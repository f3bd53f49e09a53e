//! The token vocabulary of the arrival-time model and the tokenizers that map
//! trip features onto it.
//!
//! Vocabulary:
//! 0-30: time_delta -15m to +15m;
//! 31: start of sequence; 32: end of sequence; 33: padding;
//! 34-47: route (route id and direction);
//! 48-149: stop name;
//! 150-156: weekday; 157-180: hour of day;
//! 181: skip, marking the values to predict at inference.

use vstd::prelude::*;
use crate::text::{chars_of, position_of, strs_view, is_first_index, first_index_of, lemma_first_index_unique};
use crate::time::{DateTime, MIN_TIMESTAMP, MAX_TIMESTAMP, weekday, hour, weekday_spec, hour_spec};

verus! {

/// A token in the vocabulary.
#[derive(Debug)]
pub struct Token(pub u64);

/// A complete sequence, used for training of the model:
/// sos route_token weekday hour_of_day stop_name time_delta ... stop_name time_delta eos pad pad ...
///
/// The longest trip in the schedule has 35 stops, so sequences are padded to
/// 4 + 35*2 + 1 = 75 tokens.
#[derive(Debug)]
pub struct TrainingSequence(pub Vec<Token>);

/// The token values of a sequence.
pub open spec fn token_values(s: Seq<Token>) -> Seq<u64> {
    s.map_values(|t: Token| t.0)
}

pub const START_TOKEN: u64 = 31;
pub const END_TOKEN: u64 = 32;
pub const PAD_TOKEN: u64 = 33;
pub const SKIP_TOKEN: u64 = 181;
/// The length to which sequences are padded.
pub const SEQUENCE_LEN: usize = 75;

/// Integer division of `d` by 60, rounding toward zero as Rust's `/` does.
pub open spec fn minutes_toward_zero(d: int) -> int {
    if d >= 0 {
        d / 60
    } else {
        -((-d) / 60)
    }
}

/// The token of a time difference of `delta` seconds: whole minutes (rounded
/// toward zero), clamped to -15..=15, shifted to 0..=30.
pub open spec fn time_delta_token(delta: int) -> u64 {
    let m = minutes_toward_zero(delta);
    if m < -15 {
        0
    } else if m > 15 {
        30
    } else {
        (m + 15) as u64
    }
}

/// Tokenizes a time difference given in seconds.
pub fn tokenize_time_delta(delta: i64) -> (t: Token)
    ensures
        t.0 == time_delta_token(delta as int),
        t.0 <= 30,
{
    if delta <= -900 {
        Token(0)
    } else if delta >= 900 {
        Token(30)
    } else {
        let m: i64 = if delta >= 0 { delta / 60 } else { -((-delta) / 60) };
        Token((m + 15) as u64)
    }
}

/// The metro routes the model knows, by GTFS route id.
pub open spec fn route_ids_spec() -> Seq<Seq<char>> {
    seq![
        "9011001001000000"@, "9011001001100000"@, "9011001001300000"@, "9011001001400000"@,
        "9011001001700000"@, "9011001001800000"@, "9011001001900000"@,
    ]
}

fn route_ids() -> (v: Vec<&'static str>)
    ensures
        strs_view(v@) == route_ids_spec(),
{
    let v = vec![
        "9011001001000000", "9011001001100000", "9011001001300000", "9011001001400000",
        "9011001001700000", "9011001001800000", "9011001001900000",
    ];
    assert(strs_view(v@) =~= route_ids_spec());
    v
}

/// Whether a route id is one the model knows.
pub fn is_known_route(id: &str) -> (r: bool)
    ensures
        r == route_ids_spec().contains(id@),
{
    let routes = route_ids();
    let key = chars_of(id);
    match position_of(&routes, &key) {
        Some(i) => {
            assert(route_ids_spec()[i as int] == id@);
            true
        },
        None => {
            proof {
                if route_ids_spec().contains(id@) {
                    let j = choose|j: int| 0 <= j < route_ids_spec().len() && route_ids_spec()[j] == id@;
                    assert(strs_view(routes@)[j] == key@);
                }
            }
            false
        },
    }
}

/// The route token of a known route id, as a value.
pub open spec fn route_token_spec(id: Seq<char>, direction_id: u8) -> int {
    34 + 7 * direction_id + first_index_of(route_ids_spec(), id)
}

/// The route token of a known route id: 34, plus 7 for each step of the
/// direction id, plus the route's position in the route list.
pub open spec fn route_token(id: Seq<char>, direction_id: u8, t: u64) -> bool {
    is_first_index(route_ids_spec(), id, t - 34 - 7 * direction_id)
}

/// Tokenizes a route. The route id must be one the model knows.
pub fn tokenize_route(id: &str, direction_id: u8) -> (t: Token)
    requires
        route_ids_spec().contains(id@),
    ensures
        route_token(id@, direction_id, t.0),
        t.0 == route_token_spec(id@, direction_id),
{
    let routes = route_ids();
    let key = chars_of(id);
    let pos = position_of(&routes, &key);
    match pos {
        Some(i) => {
            proof {
                lemma_first_index_unique(route_ids_spec(), id@, i as int);
            }
            Token(34 + 7 * direction_id as u64 + i as u64)
        },
        None => {
            proof {
                let j = choose|j: int| 0 <= j < route_ids_spec().len() && route_ids_spec()[j] == id@;
                assert(strs_view(routes@)[j] == key@);
            }
            Token(0)
        },
    }
}


/// The metro stops the model knows, by name.
pub open spec fn stop_names_spec() -> Seq<Seq<char>> {
    seq![
        "Kungsträdgården"@, "T-Centralen"@, "Rådhuset"@, "Fridhemsplan"@,
        "Stadshagen"@, "Västra skogen"@, "Huvudsta"@, "Solna strand"@,
        "Sundbybergs centrum"@, "Duvbo"@, "Rissne"@, "Rinkeby"@,
        "Tensta"@, "Hjulsta"@, "Solna centrum"@, "Näckrosen"@,
        "Hallonbergen"@, "Kymlinge norrut"@, "Kista"@, "Husby"@,
        "Akalla"@, "Kymlinge söderut"@, "Norsborg"@, "Hallunda"@,
        "Alby"@, "Fittja"@, "Masmo"@, "Vårby gård"@,
        "Vårberg"@, "Skärholmen"@, "Sätra"@, "Bredäng"@,
        "Mälarhöjden"@, "Axelsberg"@, "Örnsberg"@, "Aspudden"@,
        "Liljeholmen"@, "Hornstull"@, "Zinkensdamm"@, "Mariatorget"@,
        "Slussen"@, "Gamla stan"@, "Östermalmstorg"@, "Karlaplan"@,
        "Gärdet"@, "Ropsten"@, "Mörby centrum"@, "Danderyds sjukhus"@,
        "Bergshamra"@, "Universitetet"@, "Tekniska högskolan"@, "Stadion"@,
        "Fruängen"@, "Västertorp"@, "Hägerstensåsen"@, "Telefonplan"@,
        "Midsommarkransen"@, "Skarpnäck"@, "Bagarmossen"@, "Kärrtorp"@,
        "Björkhagen"@, "Hammarbyhöjden"@, "Skärmarbrink"@, "Gullmarsplan"@,
        "Skanstull"@, "Medborgarplatsen"@, "Hötorget"@, "Rådmansgatan"@,
        "Odenplan"@, "S:t Eriksplan"@, "Thorildsplan"@, "Kristineberg"@,
        "Alvik"@, "Stora mossen"@, "Abrahamsberg"@, "Brommaplan"@,
        "Åkeshov"@, "Ängbyplan"@, "Islandstorget"@, "Blackeberg"@,
        "Råcksta"@, "Vällingby"@, "Johannelund"@, "Hässelby gård"@,
        "Hässelby strand"@, "Farsta strand"@, "Farsta"@, "Hökarängen"@,
        "Gubbängen"@, "Tallkrogen"@, "Skogskyrkogården"@, "Sandsborg"@,
        "Blåsut"@, "Hagsätra"@, "Rågsved"@, "Högdalen"@,
        "Bandhagen"@, "Stureby"@, "Svedmyra"@, "Sockenplan"@,
        "Enskede gård"@, "Globen"@,
    ]
}

fn stop_names() -> (v: Vec<&'static str>)
    ensures
        strs_view(v@) == stop_names_spec(),
{
    let v = vec![
        "Kungsträdgården", "T-Centralen", "Rådhuset", "Fridhemsplan",
        "Stadshagen", "Västra skogen", "Huvudsta", "Solna strand",
        "Sundbybergs centrum", "Duvbo", "Rissne", "Rinkeby",
        "Tensta", "Hjulsta", "Solna centrum", "Näckrosen",
        "Hallonbergen", "Kymlinge norrut", "Kista", "Husby",
        "Akalla", "Kymlinge söderut", "Norsborg", "Hallunda",
        "Alby", "Fittja", "Masmo", "Vårby gård",
        "Vårberg", "Skärholmen", "Sätra", "Bredäng",
        "Mälarhöjden", "Axelsberg", "Örnsberg", "Aspudden",
        "Liljeholmen", "Hornstull", "Zinkensdamm", "Mariatorget",
        "Slussen", "Gamla stan", "Östermalmstorg", "Karlaplan",
        "Gärdet", "Ropsten", "Mörby centrum", "Danderyds sjukhus",
        "Bergshamra", "Universitetet", "Tekniska högskolan", "Stadion",
        "Fruängen", "Västertorp", "Hägerstensåsen", "Telefonplan",
        "Midsommarkransen", "Skarpnäck", "Bagarmossen", "Kärrtorp",
        "Björkhagen", "Hammarbyhöjden", "Skärmarbrink", "Gullmarsplan",
        "Skanstull", "Medborgarplatsen", "Hötorget", "Rådmansgatan",
        "Odenplan", "S:t Eriksplan", "Thorildsplan", "Kristineberg",
        "Alvik", "Stora mossen", "Abrahamsberg", "Brommaplan",
        "Åkeshov", "Ängbyplan", "Islandstorget", "Blackeberg",
        "Råcksta", "Vällingby", "Johannelund", "Hässelby gård",
        "Hässelby strand", "Farsta strand", "Farsta", "Hökarängen",
        "Gubbängen", "Tallkrogen", "Skogskyrkogården", "Sandsborg",
        "Blåsut", "Hagsätra", "Rågsved", "Högdalen",
        "Bandhagen", "Stureby", "Svedmyra", "Sockenplan",
        "Enskede gård", "Globen",
    ];
    assert(strs_view(v@) =~= stop_names_spec());
    v
}

/// Whether a stop name is one the model knows.
pub fn is_known_stop(name: &str) -> (r: bool)
    ensures
        r == stop_names_spec().contains(name@),
{
    let stops = stop_names();
    let key = chars_of(name);
    match position_of(&stops, &key) {
        Some(i) => {
            assert(stop_names_spec()[i as int] == name@);
            true
        },
        None => {
            proof {
                if stop_names_spec().contains(name@) {
                    let j = choose|j: int| 0 <= j < stop_names_spec().len() && stop_names_spec()[j] == name@;
                    assert(strs_view(stops@)[j] == key@);
                }
            }
            false
        },
    }
}

/// The stop-name token of a known stop, as a value.
pub open spec fn stop_name_token_spec(name: Seq<char>) -> int {
    48 + first_index_of(stop_names_spec(), name)
}

/// The stop-name token of a known stop: 48 plus the stop's position in the
/// stop list.
pub open spec fn stop_name_token(name: Seq<char>, t: u64) -> bool {
    is_first_index(stop_names_spec(), name, t - 48)
}

/// Tokenizes a stop name. The name must be one the model knows.
pub fn tokenize_stop_name(name: &str) -> (t: Token)
    requires
        stop_names_spec().contains(name@),
    ensures
        stop_name_token(name@, t.0),
        t.0 == stop_name_token_spec(name@),
        48 <= t.0 < 150,
{
    let stops = stop_names();
    let key = chars_of(name);
    let pos = position_of(&stops, &key);
    match pos {
        Some(i) => {
            proof {
                lemma_first_index_unique(stop_names_spec(), name@, i as int);
            }
            Token(48 + i as u64)
        },
        None => {
            proof {
                let j = choose|j: int| 0 <= j < stop_names_spec().len() && stop_names_spec()[j] == name@;
                assert(strs_view(stops@)[j] == key@);
            }
            Token(0)
        },
    }
}


/// The weekday token (150 + day of week from Monday) and the hour token
/// (157 + hour of day) of a date-time.
pub fn tokenize_time(ts: DateTime) -> (r: (Token, Token))
    requires
        MIN_TIMESTAMP <= ts.seconds <= MAX_TIMESTAMP,
    ensures
        r.0.0 == 150 + weekday_spec(ts),
        r.1.0 == 157 + hour_spec(ts),
{
    (Token(150 + weekday(ts)), Token(157 + hour(ts)))
}

proof fn lemma_first_index_exists(list: Seq<Seq<char>>, x: Seq<char>, j: int)
    requires
        0 <= j < list.len(),
        list[j] == x,
    ensures
        is_first_index(list, x, first_index_of(list, x)),
    decreases j,
{
    if exists|k: int| 0 <= k < j && list[k] == x {
        let k = choose|k: int| 0 <= k < j && list[k] == x;
        lemma_first_index_exists(list, x, k);
    } else {
        assert(is_first_index(list, x, j));
    }
}

/// Route tokens of known routes in direction 0 or 1 lie in 34..=47, and two
/// of them are equal exactly where route and direction are.
pub proof fn lemma_route_tokens_distinct(id1: Seq<char>, d1: u8, id2: Seq<char>, d2: u8)
    requires
        route_ids_spec().contains(id1),
        route_ids_spec().contains(id2),
        d1 <= 1,
        d2 <= 1,
    ensures
        34 <= route_token_spec(id1, d1) <= 47,
        (route_token_spec(id1, d1) == route_token_spec(id2, d2)) <==> (id1 == id2 && d1 == d2),
{
    let l = route_ids_spec();
    let j1 = choose|j: int| 0 <= j < l.len() && l[j] == id1;
    let j2 = choose|j: int| 0 <= j < l.len() && l[j] == id2;
    lemma_first_index_exists(l, id1, j1);
    lemma_first_index_exists(l, id2, j2);
    let i1 = first_index_of(l, id1);
    let i2 = first_index_of(l, id2);
    assert(0 <= i1 < 7 && 0 <= i2 < 7);
    if route_token_spec(id1, d1) == route_token_spec(id2, d2) {
        assert(7 * d1 + i1 == 7 * d2 + i2);
        assert(d1 == d2 && i1 == i2);
        assert(l[i1] == id1 && l[i2] == id2);
    }
}

} // verus!
