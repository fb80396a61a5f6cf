use zerker_reason::policy::PolicyError;
use zerker_reason::sources::{admit_source, check_path_unchanged, check_reads_agree, check_source_size, SourceStamp};

fn access_message<T>(r: Result<T, PolicyError>) -> (String, String) {
    match r {
        Err(PolicyError::SourceAccess { path, message }) => (path, message),
        _ => panic!("expected a source access error"),
    }
}

fn stamp(size: u64) -> SourceStamp {
    SourceStamp {
        device: 7,
        inode: 42,
        size,
        modified_seconds: 100,
        modified_nanoseconds: 5,
        changed_seconds: 100,
        changed_nanoseconds: 5,
    }
}

#[test]
fn a_source_of_exactly_the_limit_is_read_and_one_byte_more_is_refused() {
    assert!(check_source_size("a.md", 1048576).is_ok());
    let (path, message) = access_message(check_source_size("a.md", 1048577));
    assert_eq!(path, "a.md");
    assert_eq!(message, "source exceeds the 1048576-byte limit");
}

#[test]
fn a_second_path_to_the_same_file_is_refused() {
    let mut identities = Vec::new();
    assert_eq!(admit_source(&mut identities, 0, (7, 42), 10, "a.md").unwrap(), 10);
    assert_eq!(admit_source(&mut identities, 10, (7, 43), 5, "b.md").unwrap(), 15);
    let (path, message) = access_message(admit_source(&mut identities, 15, (7, 42), 10, "c.md"));
    assert_eq!(path, "c.md");
    assert_eq!(message, "duplicates another source file identity (hard link or filesystem alias)");
    assert_eq!(identities, vec![(7, 42), (7, 43)]);
}

#[test]
fn sources_together_stay_within_the_aggregate_limit() {
    let mut identities = Vec::new();
    assert_eq!(admit_source(&mut identities, 16777000, (1, 1), 216, "a.md").unwrap(), 16777216);
    let (_, message) = access_message(admit_source(&mut identities, 16777216, (1, 2), 1, "b.md"));
    assert_eq!(message, "aggregate source bytes exceed the 16777216-byte limit");
    let (_, overflow) = access_message(admit_source(&mut identities, u64::MAX, (1, 3), 1, "c.md"));
    assert_eq!(overflow, "aggregate source byte count overflowed");
}

#[test]
fn a_rewrite_between_the_two_reads_is_detected() {
    assert!(check_reads_agree("s.md", b"original", b"original", &stamp(8), &stamp(8)).is_ok());
    let (path, message) = access_message(check_reads_agree("s.md", b"original", b"rewrite!", &stamp(8), &stamp(8)));
    assert_eq!(path, "s.md");
    assert_eq!(message, "source changed while it was being read");
    let mut later = stamp(8);
    later.changed_nanoseconds = 6;
    assert!(check_reads_agree("s.md", b"original", b"original", &stamp(8), &later).is_err());
    assert!(check_reads_agree("s.md", b"original", b"original", &stamp(9), &stamp(9)).is_err());
}

#[test]
fn a_replaced_directory_on_the_path_is_detected() {
    let parents = vec![(7, 1), (7, 2)];
    assert!(check_path_unchanged("d/s.md", &parents, &parents.clone(), &stamp(8), &stamp(8)).is_ok());
    let (_, message) = access_message(check_path_unchanged("d/s.md", &parents, &vec![(7, 1), (7, 3)], &stamp(8), &stamp(8)));
    assert_eq!(message, "source path or metadata changed while it was being read");
    assert!(check_path_unchanged("d/s.md", &parents, &parents.clone(), &stamp(9), &stamp(8)).is_err());
}
