use magpkg::error::{signed_decimal, MagError};

fn all() -> Vec<(MagError, &'static str)> {
    let s = |t: &str| t.to_string();
    vec![
        (MagError::DependencyCycle, "dependency cycle detected"),
        (
            MagError::Evaluation { context: s("$.name"), message: s("expected a string, got Num") },
            "$.name: expected a string, got Num",
        ),
        (MagError::Io { message: s("disk full") }, "io error: disk full"),
        (MagError::Network { message: s("timed out") }, "network error: timed out"),
        (MagError::HashMismatch { filename: s("x.tgz") }, "SHA mismatch for x.tgz"),
        (MagError::NoUrls { filename: s("x.tgz") }, "no URLs provided for fetch x.tgz"),
        (MagError::UnsupportedScheme { scheme: s("ftp") }, "unsupported fetch URL scheme: ftp"),
        (
            MagError::CommandFailure { context: s("build script for a-1"), status: 3 },
            "build script for a-1 failed with status 3",
        ),
        (MagError::Generic(s("anything")), "anything"),
    ]
}

#[test]
fn every_error_has_its_line() {
    for (error, line) in all() {
        assert_eq!(error.message(), line);
    }
}

#[test]
fn a_copy_of_an_error_reads_the_same() {
    for (error, line) in all() {
        assert_eq!(error.duplicate().message(), line);
    }
}

#[test]
fn signed_numerals() {
    assert_eq!(signed_decimal(0), "0");
    assert_eq!(signed_decimal(42), "42");
    assert_eq!(signed_decimal(-1), "-1");
    assert_eq!(signed_decimal(i32::MAX), i32::MAX.to_string());
    assert_eq!(signed_decimal(i32::MIN), i32::MIN.to_string());
}
