use geoip::error::AppError;
use geoip::geoip::{
    city_to_result, english_name, lookup_response, CityNameRecord, CityRecord, Location,
    LookupFailure, PlaceRecord,
};

fn names(pairs: &[(&str, &str)]) -> Option<Vec<(String, String)>> {
    Some(
        pairs
            .iter()
            .map(|(k, v)| (k.to_string(), v.to_string()))
            .collect(),
    )
}

fn sample_record() -> CityRecord {
    CityRecord {
        country: Some(PlaceRecord {
            iso_code: Some("US".to_string()),
            names: names(&[("de", "USA"), ("en", "United States")]),
        }),
        city: Some(CityNameRecord {
            names: names(&[("en", "Mountain View"), ("fr", "Mountain View")]),
        }),
        location: Some(Location {
            latitude_bits: Some(37.386f64.to_bits()),
            longitude_bits: Some((-122.0838f64).to_bits()),
            time_zone: Some("America/Los_Angeles".to_string()),
        }),
        subdivisions: Some(vec![
            PlaceRecord {
                iso_code: Some("CA".to_string()),
                names: names(&[("en", "California")]),
            },
            PlaceRecord {
                iso_code: None,
                names: names(&[("ja", "x")]),
            },
        ]),
    }
}

#[test]
fn unloaded_service_reports_database_unavailable() {
    let err = lookup_response("8.8.8.8".to_string(), None).expect_err("database should be missing");

    assert!(matches!(err, AppError::DatabaseUnavailable));
}

#[test]
fn missing_record_is_not_found_and_read_failure_is_internal() {
    let not_found = lookup_response(
        "10.0.0.1".to_string(),
        Some(Err(LookupFailure::AddressNotFound)),
    );
    assert!(matches!(not_found, Err(AppError::NotFound)));

    let internal = lookup_response(
        "10.0.0.1".to_string(),
        Some(Err(LookupFailure::Other("decoding failed".to_string()))),
    );
    match internal {
        Err(AppError::Internal(detail)) => assert_eq!(detail, "decoding failed"),
        _ => panic!("expected an internal error"),
    }
}

#[test]
fn record_becomes_lookup_result() {
    let result = lookup_response("8.8.8.8".to_string(), Some(Ok(sample_record()))).unwrap();

    assert_eq!(result.ip, "8.8.8.8");
    let country = result.country.unwrap();
    assert_eq!(country.iso_code.as_deref(), Some("US"));
    assert_eq!(country.name.as_deref(), Some("United States"));
    assert_eq!(
        result.city.unwrap().name.as_deref(),
        Some("Mountain View")
    );
    let location = result.location.unwrap();
    assert_eq!(location.latitude_bits.map(f64::from_bits), Some(37.386));
    assert_eq!(location.longitude_bits.map(f64::from_bits), Some(-122.0838));
    assert_eq!(location.time_zone.as_deref(), Some("America/Los_Angeles"));
    assert_eq!(result.subdivisions.len(), 2);
    assert_eq!(result.subdivisions[0].iso_code.as_deref(), Some("CA"));
    assert_eq!(result.subdivisions[0].name.as_deref(), Some("California"));
    assert_eq!(result.subdivisions[1].iso_code, None);
    assert_eq!(result.subdivisions[1].name, None);
}

#[test]
fn city_without_english_name_is_left_out() {
    let mut record = sample_record();
    record.city = Some(CityNameRecord {
        names: names(&[("fr", "Paris")]),
    });
    record.subdivisions = None;
    record.country = None;
    record.location = None;

    let result = city_to_result("1.1.1.1".to_string(), record);

    assert!(result.city.is_none());
    assert!(result.country.is_none());
    assert!(result.location.is_none());
    assert!(result.subdivisions.is_empty());
}

#[test]
fn english_name_picks_the_en_entry() {
    assert_eq!(
        english_name(&names(&[("de", "Deutschland"), ("en", "Germany"), ("es", "Alemania")])),
        Some("Germany".to_string())
    );
    assert_eq!(english_name(&names(&[("eng", "x"), ("e", "y")])), None);
    assert_eq!(english_name(&None), None);
}
