use std::io::{Cursor, Write};
use std::path::Path;

use flate2::{write::GzEncoder, Compression};
use geoip::download::{
    check_download_status, download_url, extract_database, human_bytes, is_database_path,
    MaxMindCredentials,
};
use geoip::error::AppError;
use tar::{Builder, Header};

fn credentials(account_id: &str, license_key: &str) -> MaxMindCredentials {
    MaxMindCredentials::new(Some(account_id.to_string()), Some(license_key.to_string()))
        .unwrap()
        .unwrap()
}

#[test]
fn builds_geolite2_city_download_url() {
    let credentials = credentials("123", "secret");

    let url = download_url(&credentials);

    assert!(url.contains("GeoLite2-City"));
    assert!(url.contains("suffix=tar.gz"));
}

#[test]
fn download_url_does_not_carry_the_secrets() {
    let url = download_url(&credentials("123", "secret"));

    assert_eq!(
        url,
        "https://download.maxmind.com/geoip/databases/GeoLite2-City/download?suffix=tar.gz"
    );
    assert!(!url.contains("secret"));
}

#[test]
fn rejects_incomplete_credentials() {
    let result = MaxMindCredentials::new(Some("123".to_string()), None);

    assert!(matches!(result, Err(AppError::MissingCredentials)));
}

#[test]
fn credentials_debug_redacts_license_key() {
    let credentials = credentials("123", "secret");

    let debug = credentials.debug_text();

    assert!(debug.contains("<redacted>"));
    assert!(!debug.contains("123"));
    assert!(!debug.contains("secret"));
}

#[test]
fn treats_blank_credentials_as_missing() {
    let absent = MaxMindCredentials::new(Some("  ".to_string()), Some("\t".to_string()));
    let partial = MaxMindCredentials::new(Some("123".to_string()), Some(" ".to_string()));
    let trimmed = MaxMindCredentials::new(Some(" 123 ".to_string()), Some(" secret ".to_string()))
        .expect("trimmed credentials should be valid")
        .expect("trimmed credentials should be present");

    assert!(absent.expect("both blank should be absent").is_none());
    assert!(matches!(partial, Err(AppError::MissingCredentials)));
    assert_eq!(trimmed.account_id(), "123");
    assert_eq!(trimmed.license_key(), "secret");
}

#[test]
fn credentials_absent_when_neither_is_given() {
    assert!(MaxMindCredentials::new(None, None).unwrap().is_none());
    assert!(matches!(
        MaxMindCredentials::new(None, Some("secret".to_string())),
        Err(AppError::MissingCredentials)
    ));
}

#[test]
fn credentials_trim_unicode_whitespace() {
    let trimmed = MaxMindCredentials::new(
        Some("\u{3000}\u{a0}123\u{2029}\n".to_string()),
        Some("\u{85}se cret\u{200a}".to_string()),
    )
    .unwrap()
    .unwrap();

    assert_eq!(trimmed.account_id(), "123");
    assert_eq!(trimmed.license_key(), "se cret");
    assert_eq!(
        trimmed.account_id(),
        "\u{3000}\u{a0}123\u{2029}\n".trim(),
        "trimming agrees with str::trim"
    );
}

#[test]
fn required_credentials_reject_absent_values() {
    assert!(matches!(
        MaxMindCredentials::required(None, Some("   ".to_string())),
        Err(AppError::MissingCredentials)
    ));
    let credentials =
        MaxMindCredentials::required(Some("1".to_string()), Some("k".to_string())).unwrap();
    assert_eq!(credentials.account_id(), "1");
    assert_eq!(credentials.license_key(), "k");
    let copy = credentials.clone();
    assert_eq!(copy.account_id(), "1");
    assert_eq!(copy.license_key(), "k");
}

#[test]
fn formats_download_progress_byte_counts() {
    assert_eq!(human_bytes(0), "0 B");
    assert_eq!(human_bytes(512), "512 B");
    assert_eq!(human_bytes(1536), "1.5 KiB");
    assert_eq!(human_bytes(2 * 1024 * 1024), "2.0 MiB");
}

/// The progress text as the floating-point formula writes it.
fn float_human_bytes(bytes: u64) -> String {
    let units = ["B", "KiB", "MiB", "GiB"];
    let mut value = bytes as f64;
    let mut unit = units[0];
    for next_unit in units.iter().skip(1) {
        if value < 1024.0 {
            break;
        }
        value /= 1024.0;
        unit = next_unit;
    }
    if unit == "B" {
        format!("{bytes} B")
    } else {
        format!("{value:.1} {unit}")
    }
}

#[test]
fn human_bytes_agrees_with_the_float_formula() {
    let mut samples: Vec<u64> = vec![
        1023,
        1024,
        1075,
        1126,
        1177,
        1178,
        1280,
        1331,
        1382,
        1433,
        1484,
        1485,
        10188,
        1048524,
        1048575,
        1048576,
        1073741823,
        1073741824,
        1288490188,
        (1 << 53) - 1,
        1 << 53,
        (1 << 53) + 1,
        (1 << 53) + 3,
        (1 << 54) - 1,
        u64::MAX,
        u64::MAX - 1024,
        u64::MAX / 3,
        123_456_789_012_345_678,
    ];
    for shift in 0..64u32 {
        let p = 1u64 << shift;
        samples.push(p);
        samples.push(p.wrapping_sub(1));
        samples.push(p.wrapping_add(p / 2));
        samples.push(p.wrapping_add(p / 20));
        samples.push(p.wrapping_add(p / 20 * 3));
    }
    let mut x: u64 = 0x9e37_79b9_7f4a_7c15;
    for _ in 0..20000 {
        x ^= x << 13;
        x ^= x >> 7;
        x ^= x << 17;
        samples.push(x >> (x % 64));
    }
    for k in 1..40u64 {
        // Exact ties between two tenths in each unit.
        samples.push(1024 * k + 51);
        samples.push(1024 * k + 512 + 256);
        samples.push(1024 * 1024 * k + 1024 * 1024 / 4);
        samples.push(1024 * 1024 * 1024 * k + 1024 * 1024 * 1024 / 4 * 3);
    }
    for bytes in samples {
        assert_eq!(human_bytes(bytes), float_human_bytes(bytes), "bytes = {bytes}");
    }
}

#[test]
fn database_path_is_decided_by_the_file_extension() {
    let cases: [(&str, bool); 16] = [
        ("GeoLite2-City_20260616/GeoLite2-City.mmdb", true),
        ("GeoLite2-City_20260616/README.txt", false),
        ("GeoLite2-City.mmdb", true),
        (".mmdb", false),
        ("dir/.mmdb", false),
        ("a.b.mmdb", true),
        ("a/b.mmdb/", true),
        ("a/b.mmdb/.", true),
        ("a/b.mmdb/..", false),
        ("mmdb", false),
        ("x.MMDB", false),
        ("x.mmdb.gz", false),
        ("", false),
        ("/", false),
        ("./", false),
        ("..mmdb", true),
    ];
    for (path, expected) in cases {
        assert_eq!(is_database_path(path.as_bytes()), expected, "path = {path:?}");
        let by_std = Path::new(path)
            .extension()
            .is_some_and(|extension| extension == "mmdb");
        assert_eq!(by_std, expected, "std agrees on {path:?}");
    }
}

fn tar_with_entries(entries: &[(&str, &[u8])]) -> Vec<u8> {
    let mut builder = Builder::new(Vec::new());

    for (path, contents) in entries {
        let mut header = Header::new_gnu();
        header.set_size(contents.len() as u64);
        header.set_cksum();
        builder
            .append_data(&mut header, path, Cursor::new(*contents))
            .unwrap();
    }

    builder.into_inner().unwrap()
}

fn gzip(bytes: &[u8]) -> Vec<u8> {
    let mut encoder = GzEncoder::new(Vec::new(), Compression::default());
    encoder.write_all(bytes).unwrap();
    encoder.finish().unwrap()
}

fn archive_with_entries(entries: &[(&str, &[u8])]) -> Vec<u8> {
    gzip(&tar_with_entries(entries))
}

/// An archive whose second entry has a corrupt header.
fn archive_with_corrupt_second_entry(first: (&str, &[u8])) -> Vec<u8> {
    let mut tar = tar_with_entries(&[first, ("GeoLite2-City_20260616/LICENSE.txt", b"license")]);
    // Headers are 512 bytes and the first entry's data fits in one block.
    tar[1024 + 100] ^= 0x01;
    gzip(&tar)
}

#[test]
fn archive_with_mmdb_yields_database_bytes() {
    let archive = archive_with_entries(&[("GeoLite2-City_20260616/GeoLite2-City.mmdb", b"mmdb")]);

    assert_eq!(extract_database(&archive).unwrap(), b"mmdb");
}

#[test]
fn first_database_entry_is_extracted() {
    let archive = archive_with_entries(&[
        ("GeoLite2-City_20260616/README.txt", b"readme"),
        ("GeoLite2-City_20260616/COPYRIGHT.txt", b"copyright"),
        ("GeoLite2-City_20260616/GeoLite2-City.mmdb", b"first"),
        ("GeoLite2-City_20260616/Other.mmdb", b"second"),
    ]);

    assert_eq!(extract_database(&archive).unwrap(), b"first");
}

#[test]
fn archive_without_mmdb_is_an_update_failure() {
    let archive = archive_with_entries(&[("GeoLite2-City_20260616/README.txt", b"readme")]);

    match extract_database(&archive) {
        Err(AppError::DatabaseUpdateFailed(detail)) => {
            assert_eq!(detail, "download archive did not contain an mmdb database")
        }
        _ => panic!("expected a database update failure"),
    }
}

#[test]
fn corrupt_archive_is_an_update_failure() {
    let result = extract_database(b"not a gzip archive");

    match result {
        Err(AppError::DatabaseUpdateFailed(detail)) => {
            assert_ne!(detail, "download archive did not contain an mmdb database")
        }
        _ => panic!("expected a database update failure"),
    }
}

#[test]
fn unreadable_entry_after_the_database_does_not_matter() {
    let archive =
        archive_with_corrupt_second_entry(("GeoLite2-City_20260616/GeoLite2-City.mmdb", b"db"));

    assert_eq!(extract_database(&archive).unwrap(), b"db");
}

#[test]
fn unreadable_entry_before_any_database_fails_with_its_reason() {
    let archive = archive_with_corrupt_second_entry(("GeoLite2-City_20260616/README.txt", b"r"));

    match extract_database(&archive) {
        Err(AppError::DatabaseUpdateFailed(detail)) => {
            assert_ne!(detail, "download archive did not contain an mmdb database")
        }
        _ => panic!("expected a database update failure"),
    }
}

#[test]
fn download_status_outside_2xx_is_a_download_failure() {
    assert!(check_download_status(200, "200 OK").is_ok());
    assert!(check_download_status(299, "299 <unknown status code>").is_ok());
    match check_download_status(401, "401 Unauthorized") {
        Err(AppError::DownloadFailed(detail)) => {
            assert_eq!(detail, "MaxMind download returned status 401 Unauthorized")
        }
        _ => panic!("expected a download failure"),
    }
    assert!(check_download_status(199, "199 <unknown status code>").is_err());
    assert!(check_download_status(300, "300 Multiple Choices").is_err());
}
