//! Lookup results: how a GeoLite2 City record becomes the JSON-shaped result
//! of a lookup, and how a lookup's outcome becomes a response.

use vstd::prelude::*;

use crate::error::AppError;

verus! {

/// A place with an optional ISO code and an optional English name.
#[derive(Debug, Clone)]
pub struct NamedCode {
    pub iso_code: Option<String>,
    pub name: Option<String>,
}

/// A place with an optional English name.
#[derive(Debug, Clone)]
pub struct NamedValue {
    pub name: Option<String>,
}

/// Where an address is.  Latitude and longitude are carried as the bit
/// patterns of the `f64` values the database holds (`f64::to_bits`); the
/// library never computes with them.
#[derive(Debug, Clone)]
pub struct Location {
    pub latitude_bits: Option<u64>,
    pub longitude_bits: Option<u64>,
    pub time_zone: Option<String>,
}

/// The result of looking up one address.
#[derive(Debug, Clone)]
pub struct LookupResult {
    pub ip: String,
    pub country: Option<NamedCode>,
    pub city: Option<NamedValue>,
    pub location: Option<Location>,
    pub subdivisions: Vec<NamedCode>,
}

/// A country or subdivision as the database records it: an ISO code and
/// names keyed by language.
#[derive(Debug, Clone)]
pub struct PlaceRecord {
    pub iso_code: Option<String>,
    pub names: Option<Vec<(String, String)>>,
}

/// A city as the database records it: names keyed by language.
#[derive(Debug, Clone)]
pub struct CityNameRecord {
    pub names: Option<Vec<(String, String)>>,
}

/// The parts of a GeoLite2 City record that a lookup reads.
#[derive(Debug, Clone)]
pub struct CityRecord {
    pub country: Option<PlaceRecord>,
    pub city: Option<CityNameRecord>,
    pub location: Option<Location>,
    pub subdivisions: Option<Vec<PlaceRecord>>,
}

/// Why the database gave no record for an address.
#[derive(Debug, Clone)]
pub enum LookupFailure {
    /// The database holds no record for the address.
    AddressNotFound,
    /// Reading the record failed; the detail says why.
    Other(String),
}

/// The name recorded under `key`: the first pair with that key.
pub open spec fn name_for(names: Seq<(String, String)>, key: Seq<char>) -> Option<String>
    decreases names.len(),
{
    if names.len() == 0 {
        None
    } else if names[0].0@ == key {
        Some(names[0].1)
    } else {
        name_for(names.drop_first(), key)
    }
}

/// The English name among optional names.
pub open spec fn english_name_of(names: Option<Vec<(String, String)>>) -> Option<String> {
    match names {
        Some(v) => name_for(v@, "en"@),
        None => None,
    }
}

/// A recorded place as a result shows it: its code and English name.
pub open spec fn named_code_of(place: PlaceRecord) -> NamedCode {
    NamedCode { iso_code: place.iso_code, name: english_name_of(place.names) }
}

/// The places of a list of recorded subdivisions.
pub open spec fn subdivisions_of(subdivisions: Option<Vec<PlaceRecord>>) -> Seq<NamedCode> {
    match subdivisions {
        Some(v) => v@.map_values(|p: PlaceRecord| named_code_of(p)),
        None => Seq::empty(),
    }
}

/// The city of a result: present when the record has a city with an English
/// name.
pub open spec fn city_of(city: Option<CityNameRecord>) -> Option<NamedValue> {
    match city {
        Some(c) => match english_name_of(c.names) {
            Some(name) => Some(NamedValue { name: Some(name) }),
            None => None,
        },
        None => None,
    }
}

/// `result` is what the record `city` shows for the address `ip`.
pub open spec fn is_result_of(result: LookupResult, ip: String, city: CityRecord) -> bool {
    &&& result.ip == ip
    &&& result.country == match city.country {
        Some(c) => Some(named_code_of(c)),
        None => None,
    }
    &&& result.city == city_of(city.city)
    &&& result.location == city.location
    &&& result.subdivisions@ == subdivisions_of(city.subdivisions)
}

/// Whether a name key is `en`.
fn is_english_key(key: &String) -> (r: bool)
    ensures
        r == (key@ == "en"@),
{
    proof {
        reveal_strlit("en");
    }
    let k = key.as_str();
    let r = k.unicode_len() == 2 && k.get_char(0) == 'e' && k.get_char(1) == 'n';
    assert(r ==> key@ =~= "en"@);
    r
}

/// The English name among optional names, if there is one.
pub fn english_name(names: &Option<Vec<(String, String)>>) -> (r: Option<String>)
    ensures
        r == english_name_of(*names),
{
    match names {
        None => None,
        Some(pairs) => {
            let n = pairs.len();
            let mut i: usize = 0;
            assert(pairs@.subrange(0, n as int) =~= pairs@);
            while i < n
                invariant
                    i <= n,
                    n == pairs@.len(),
                    english_name_of(*names) == name_for(pairs@, "en"@),
                    name_for(pairs@, "en"@) == name_for(pairs@.subrange(i as int, n as int), "en"@),
                decreases n - i,
            {
                let ghost rest = pairs@.subrange(i as int, n as int);
                assert(rest[0] == pairs@[i as int]);
                if is_english_key(&pairs[i].0) {
                    assert(name_for(rest, "en"@) == Some(rest[0].1));
                    return Some(pairs[i].1.clone());
                }
                assert(rest.drop_first() =~= pairs@.subrange(i + 1, n as int));
                i = i + 1;
            }
            None
        },
    }
}

/// A recorded place as a result shows it.
pub fn named_code(place: &PlaceRecord) -> (r: NamedCode)
    ensures
        r == named_code_of(*place),
{
    let iso_code = match &place.iso_code {
        Some(code) => Some(code.clone()),
        None => None,
    };
    NamedCode { iso_code, name: english_name(&place.names) }
}

/// The result that a database record shows for an address: the country's
/// code and English name, the city's English name, the location as recorded,
/// and each subdivision's code and English name, in the record's order.
pub fn city_to_result(ip: String, city: CityRecord) -> (r: LookupResult)
    ensures
        is_result_of(r, ip, city),
{
    let country = match &city.country {
        Some(c) => Some(named_code(c)),
        None => None,
    };
    let city_name = match &city.city {
        Some(c) => match english_name(&c.names) {
            Some(name) => Some(NamedValue { name: Some(name) }),
            None => None,
        },
        None => None,
    };
    let mut subdivisions: Vec<NamedCode> = Vec::new();
    match &city.subdivisions {
        Some(subs) => {
            let n = subs.len();
            let mut i: usize = 0;
            while i < n
                invariant
                    i <= n,
                    n == subs@.len(),
                    subdivisions@ == subs@.subrange(0, i as int).map_values(
                        |p: PlaceRecord| named_code_of(p),
                    ),
                decreases n - i,
            {
                subdivisions.push(named_code(&subs[i]));
                assert(subs@.subrange(0, i + 1).map_values(|p: PlaceRecord| named_code_of(p))
                    =~= subs@.subrange(0, i as int).map_values(|p: PlaceRecord| named_code_of(p)).push(
                    named_code_of(subs@[i as int]),
                ));
                i = i + 1;
            }
            assert(subs@.subrange(0, n as int) =~= subs@);
        },
        None => {},
    }
    let CityRecord { country: _, city: _, location, subdivisions: _ } = city;
    LookupResult { ip, country, city: city_name, location, subdivisions }
}

/// The error a failed database read is reported as.
pub open spec fn failure_error(failure: LookupFailure) -> AppError {
    match failure {
        LookupFailure::AddressNotFound => AppError::NotFound,
        LookupFailure::Other(detail) => AppError::Internal(detail),
    }
}

/// The response to a lookup of the address whose text is `ip`: no database
/// means the database is unavailable, a missing record means not found, a
/// failed read is an internal error, and a record becomes its result.
/// `outcome` is `None` when no database is loaded, else what the database
/// gave for the address.
pub fn lookup_response(ip: String, outcome: Option<Result<CityRecord, LookupFailure>>) -> (r:
    Result<LookupResult, AppError>)
    ensures
        match outcome {
            None => r == Err::<LookupResult, AppError>(AppError::DatabaseUnavailable),
            Some(Ok(city)) => r matches Ok(result) && is_result_of(result, ip, city),
            Some(Err(failure)) => r == Err::<LookupResult, AppError>(failure_error(failure)),
        },
{
    match outcome {
        None => Err(AppError::DatabaseUnavailable),
        Some(Ok(city)) => Ok(city_to_result(ip, city)),
        Some(Err(LookupFailure::AddressNotFound)) => Err(AppError::NotFound),
        Some(Err(LookupFailure::Other(detail))) => Err(AppError::Internal(detail)),
    }
}

/// `key` stands at position `k` of `names` and at no earlier position.
pub open spec fn first_key_at(names: Seq<(String, String)>, key: Seq<char>, k: int) -> bool {
    &&& 0 <= k < names.len()
    &&& names[k].0@ == key
    &&& forall|j: int| 0 <= j < k ==> names[j].0@ != key
}

/// The name recorded under a key is the one of the first pair with that key,
/// wherever that pair stands.
pub proof fn lemma_name_for_first_key(names: Seq<(String, String)>, key: Seq<char>, k: int)
    requires
        first_key_at(names, key, k),
    ensures
        name_for(names, key) == Some(names[k].1),
    decreases k,
{
    if k > 0 {
        let rest = names.drop_first();
        assert forall|j: int| 0 <= j < k - 1 implies rest[j].0@ != key by {
            assert(rest[j] == names[j + 1]);
        }
        assert(rest[k - 1] == names[k]);
        lemma_name_for_first_key(rest, key, k - 1);
    }
}

/// No name is recorded under a key that no pair has.
pub proof fn lemma_name_for_absent_key(names: Seq<(String, String)>, key: Seq<char>)
    requires
        forall|j: int| 0 <= j < names.len() ==> names[j].0@ != key,
    ensures
        name_for(names, key) is None,
    decreases names.len(),
{
    if names.len() > 0 {
        let rest = names.drop_first();
        assert forall|j: int| 0 <= j < rest.len() implies rest[j].0@ != key by {
            assert(rest[j] == names[j + 1]);
        }
        lemma_name_for_absent_key(rest, key);
    }
}

/// `english_name` gives the name of the first `en` pair, wherever it
/// stands, and nothing when no pair has the key `en`.
pub proof fn lemma_english_name_is_first_en_pair(
    names: Option<Vec<(String, String)>>,
    r: Option<String>,
    k: int,
)
    requires
        r == english_name_of(names),
    ensures
        match names {
            Some(v) => (first_key_at(v@, "en"@, k) ==> r == Some(v@[k].1)) && ((forall|j: int|
                0 <= j < v@.len() ==> v@[j].0@ != "en"@) ==> r is None),
            None => r is None,
        },
{
    if let Some(v) = names {
        if first_key_at(v@, "en"@, k) {
            lemma_name_for_first_key(v@, "en"@, k);
        }
        if forall|j: int| 0 <= j < v@.len() ==> v@[j].0@ != "en"@ {
            lemma_name_for_absent_key(v@, "en"@);
        }
    }
}

/// A result shows the city under the name of its first `en` pair, wherever
/// that pair stands among the city's names.
pub proof fn lemma_result_city_is_english_name(
    result: LookupResult,
    ip: String,
    city: CityRecord,
    names: Vec<(String, String)>,
    k: int,
)
    requires
        is_result_of(result, ip, city),
        city.city == Some(CityNameRecord { names: Some(names) }),
        first_key_at(names@, "en"@, k),
    ensures
        result.city == Some(NamedValue { name: Some(names@[k].1) }),
{
    lemma_name_for_first_key(names@, "en"@, k);
}

/// A result shows no city when the record has no city or the city has no
/// `en` name.
pub proof fn lemma_result_city_absent(result: LookupResult, ip: String, city: CityRecord)
    requires
        is_result_of(result, ip, city),
        match city.city {
            None => true,
            Some(c) => match c.names {
                None => true,
                Some(v) => forall|j: int| 0 <= j < v@.len() ==> v@[j].0@ != "en"@,
            },
        },
    ensures
        result.city is None,
{
    if let Some(c) = city.city {
        if let Some(v) = c.names {
            lemma_name_for_absent_key(v@, "en"@);
        }
    }
}

/// A result shows the country with the record's ISO code and the name of the
/// first `en` pair of its names, wherever that pair stands.
pub proof fn lemma_result_country(
    result: LookupResult,
    ip: String,
    city: CityRecord,
    country: PlaceRecord,
    names: Vec<(String, String)>,
    k: int,
)
    requires
        is_result_of(result, ip, city),
        city.country == Some(country),
        country.names == Some(names),
        first_key_at(names@, "en"@, k),
    ensures
        result.country == Some(NamedCode { iso_code: country.iso_code, name: Some(names@[k].1) }),
{
    lemma_name_for_first_key(names@, "en"@, k);
}

/// A result shows no country when the record has none, and a country
/// without a name when its names have no `en` pair.
pub proof fn lemma_result_country_without_english_name(
    result: LookupResult,
    ip: String,
    city: CityRecord,
)
    requires
        is_result_of(result, ip, city),
    ensures
        match city.country {
            None => result.country is None,
            Some(c) => (match c.names {
                None => true,
                Some(v) => forall|j: int| 0 <= j < v@.len() ==> v@[j].0@ != "en"@,
            }) ==> result.country == Some(NamedCode { iso_code: c.iso_code, name: None }),
        },
{
    if let Some(c) = city.country {
        if let Some(v) = c.names {
            if forall|j: int| 0 <= j < v@.len() ==> v@[j].0@ != "en"@ {
                lemma_name_for_absent_key(v@, "en"@);
            }
        }
    }
}

/// A result has one subdivision per recorded subdivision, in the record's
/// order, each with the recorded ISO code; a record without subdivisions
/// gives none.
pub proof fn lemma_result_subdivisions_follow_record(
    result: LookupResult,
    ip: String,
    city: CityRecord,
)
    requires
        is_result_of(result, ip, city),
    ensures
        match city.subdivisions {
            None => result.subdivisions@.len() == 0,
            Some(subs) => result.subdivisions@.len() == subs@.len() && forall|i: int|
                0 <= i < subs@.len() ==> #[trigger] result.subdivisions@[i].iso_code
                    == subs@[i].iso_code,
        },
{
}

/// Subdivision `i` of a result is named by the first `en` pair of the
/// recorded subdivision's names, wherever that pair stands.
pub proof fn lemma_result_subdivision_is_english_name(
    result: LookupResult,
    ip: String,
    city: CityRecord,
    subs: Vec<PlaceRecord>,
    i: int,
    names: Vec<(String, String)>,
    k: int,
)
    requires
        is_result_of(result, ip, city),
        city.subdivisions == Some(subs),
        0 <= i < subs@.len(),
        subs@[i].names == Some(names),
        first_key_at(names@, "en"@, k),
    ensures
        result.subdivisions@[i] == (NamedCode {
            iso_code: subs@[i].iso_code,
            name: Some(names@[k].1),
        }),
{
    lemma_name_for_first_key(names@, "en"@, k);
}

/// Subdivision `i` of a result has no name when the recorded subdivision has
/// no `en` name.
pub proof fn lemma_result_subdivision_without_english_name(
    result: LookupResult,
    ip: String,
    city: CityRecord,
    subs: Vec<PlaceRecord>,
    i: int,
)
    requires
        is_result_of(result, ip, city),
        city.subdivisions == Some(subs),
        0 <= i < subs@.len(),
        match subs@[i].names {
            None => true,
            Some(v) => forall|j: int| 0 <= j < v@.len() ==> v@[j].0@ != "en"@,
        },
    ensures
        result.subdivisions@[i].name is None,
{
    if let Some(v) = subs@[i].names {
        lemma_name_for_absent_key(v@, "en"@);
    }
}

} // verus!
