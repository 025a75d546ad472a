use windmill_variables::error::{Error, ErrorKind};
use windmill_variables::utils::{
    bucket_of_hash, calculate_hash, critical_alert_acknowledgement, generate_lock_id,
    lock_id_of_checksum, map_string_to_number, not_found_if_none, paginate,
    paginate_without_limits, rd_string, require_admin, Mode, Pagination, StripPath,
};

#[test]
fn to_path_strips_one_leading_slash() {
    assert_eq!(StripPath("/u/a/b".to_string()).to_path(), "u/a/b");
    assert_eq!(StripPath("u/a/b".to_string()).to_path(), "u/a/b");
    assert_eq!(StripPath("//x".to_string()).to_path(), "/x");
    assert_eq!(StripPath("".to_string()).to_path(), "");
}

#[test]
fn require_admin_rejects_non_admins() {
    assert!(require_admin(true, "bob").is_ok());
    match require_admin(false, "bob") {
        Err(Error::RequireAdmin(u)) => assert_eq!(u, "bob"),
        _ => panic!("expected RequireAdmin"),
    }
}

#[test]
fn paginate_bounds_page_size() {
    assert_eq!(paginate(Pagination { page: None, per_page: None }), (1000, 0));
    assert_eq!(paginate(Pagination { page: Some(3), per_page: Some(20) }), (20, 40));
    assert_eq!(paginate(Pagination { page: Some(0), per_page: Some(0) }), (1, 0));
    assert_eq!(paginate(Pagination { page: Some(2), per_page: Some(50000) }), (10000, 10000));
}

#[test]
fn paginate_without_limits_keeps_page_size() {
    assert_eq!(paginate_without_limits(Pagination { page: None, per_page: None }), (10000, 0));
    assert_eq!(paginate_without_limits(Pagination { page: Some(2), per_page: Some(50000) }), (50000, 50000));
}

#[test]
fn not_found_if_none_names_what_is_missing() {
    assert_eq!(not_found_if_none(Some(4), "Variable", "a/b").unwrap(), 4);
    let e = not_found_if_none::<u8>(None, "Variable", "a/b").unwrap_err();
    assert_eq!(e.kind(), ErrorKind::NotFound);
    assert_eq!(e.message(), "Variable not found at name a/b");
}

#[test]
fn map_string_to_number_stays_in_range() {
    for s in ["", "a", "worker-1", "some longer string"] {
        assert!(map_string_to_number(s, 7) <= 7);
        assert_eq!(map_string_to_number(s, 7), map_string_to_number(s, 7));
    }
    assert_eq!(map_string_to_number("x", 0), 0);
    assert_eq!(bucket_of_hash(17, 4), 2);
}

#[test]
fn calculate_hash_is_sha256_hex() {
    assert_eq!(calculate_hash(""), "e3b0c44298fc1c149afbf4c8996fb92427ae41e4649b934ca495991b7852b855");
    assert_eq!(calculate_hash("abc"), "ba7816bf8f01cfea414140de5dae2223b00361a396177a9cb410ff61f20015ad");
}

#[test]
fn lock_id_is_checksum_times_factor() {
    assert_eq!(generate_lock_id(""), 0);
    assert_eq!(generate_lock_id("123456789"), 0x3d32ad9e_i64 * 0xCBF43926_i64);
    assert_eq!(lock_id_of_checksum(2), 2 * 0x3d32ad9e);
}

#[test]
fn rd_string_has_alphanumeric_chars() {
    let s = rd_string(12);
    assert_eq!(s.chars().count(), 12);
    assert!(s.chars().all(|c| c.is_ascii_alphanumeric()));
    assert_eq!(rd_string(0), "");
}

#[test]
fn mode_names() {
    assert_eq!(Mode::Worker.to_string(), "worker");
    assert_eq!(Mode::Agent.to_string(), "agent");
    assert_eq!(Mode::Server.to_string(), "server");
    assert_eq!(Mode::Standalone.to_string(), "standalone");
    assert_eq!(Mode::Indexer.to_string(), "indexer");
}

#[test]
fn critical_alert_acknowledgement_rules() {
    assert_eq!(critical_alert_acknowledgement(false, false, false, false), (false, false));
    assert_eq!(critical_alert_acknowledgement(true, false, true, false), (true, false));
    assert_eq!(critical_alert_acknowledgement(false, true, true, false), (true, true));
    assert_eq!(critical_alert_acknowledgement(false, false, true, true), (true, false));
    assert_eq!(critical_alert_acknowledgement(false, false, false, true), (false, false));
}
