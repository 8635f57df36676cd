use rspaced::mirror::{artifact_url, latest_of, latest_version, listed_versions, major_minor, mirror_arch, series_url};
use rspaced::sumfile::{sumfile_entry, verify_against_sumfile, SumfileError};

#[test]
fn mirror_paths() {
    assert_eq!(mirror_arch("x86_64"), "amd64");
    assert_eq!(mirror_arch("aarch64"), "arm64");
    assert_eq!(mirror_arch("ppc64le"), "ppc64le");
    assert_eq!(major_minor("4.18.30"), "4.18");
    assert_eq!(major_minor("4"), "4");
    assert_eq!(
        series_url("4.18", "x86_64"),
        "https://mirror.openshift.com/pub/openshift-v4/amd64/dependencies/rhcos/4.18/"
    );
    assert_eq!(
        artifact_url("4.18.30", "aarch64", "sha256sum.txt"),
        "https://mirror.openshift.com/pub/openshift-v4/arm64/dependencies/rhcos/4.18/4.18.30/sha256sum.txt"
    );
}

#[test]
fn latest_is_the_numerically_highest_version() {
    let listing = r#"<a href="4.18.9/">4.18.9/</a> <a href="4.18.30/">4.18.30/</a>
        <a href="4.18.10/">x</a> <a href="latest/">latest</a> <a href="4.18.x/">bad</a>"#;
    assert_eq!(latest_version(listing), Some("4.18.30".to_string()));
    assert_eq!(latest_version("no links here"), None);
}

#[test]
fn sumfile_lookup_and_verification() {
    let body = "abc123  somefile\nDEF456  other.iso\n";
    assert_eq!(sumfile_entry(body, "other.iso"), Some("DEF456".to_string()));
    assert_eq!(sumfile_entry(body, "missing"), None);
    assert!(verify_against_sumfile("other.iso", body, "def456").is_ok());
    match verify_against_sumfile("other.iso", body, "0000") {
        Err(SumfileError::Mismatch { name, expected, actual }) => {
            assert_eq!((name.as_str(), expected.as_str(), actual.as_str()), ("other.iso", "DEF456", "0000"));
        }
        other => panic!("unexpected result: {other:?}"),
    }
    assert!(matches!(verify_against_sumfile("nope", body, "x"), Err(SumfileError::NoEntry { .. })));
}

#[test]
fn listing_links_are_read_in_order() {
    let listing = r#"<a href="4.18.9/">a</a> href="4.18/" <a href="4.18.x/">b</a>
        <a href="10.0.1/">c</a> href="1.2.3" <a href="07.1.22/">d</a>"#;
    assert_eq!(
        listed_versions(listing),
        vec!["4.18.9".to_string(), "10.0.1".to_string(), "07.1.22".to_string()]
    );
    assert!(listed_versions("").is_empty());
}

#[test]
fn latest_of_compares_numerically_then_by_text() {
    let v = |xs: &[&str]| xs.iter().map(|x| x.to_string()).collect::<Vec<String>>();
    assert_eq!(latest_of(&v(&["4.9.1", "4.10.0", "4.2.99"])), Some("4.10.0".to_string()));
    assert_eq!(latest_of(&v(&["4.10.0", "04.10.0"])), Some("4.10.0".to_string()));
    assert_eq!(latest_of(&v(&["99999999999999999999.1.1", "1.x.2"])), None);
    assert_eq!(latest_of(&v(&[])), None);
}
