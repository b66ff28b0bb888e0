use sandbox_shell_mcp::ident::{id_from_millis, id_millis, new_session_id, rand_id, session_id};

#[test]
fn identifiers_are_hexadecimal() {
    assert_eq!(id_from_millis(0), "0");
    assert_eq!(id_from_millis(9), "9");
    assert_eq!(id_from_millis(15), "f");
    assert_eq!(id_from_millis(16), "10");
    assert_eq!(id_from_millis(0x1234_5678), "12345678");
    assert_eq!(id_from_millis(0x9abc_def0), "9abcdef0");
    assert_eq!(id_from_millis(0xFFFF_FFFF), "ffffffff");
}

#[test]
fn identifiers_wrap_around() {
    assert_eq!(id_from_millis(0x1_0000_0000), "0");
    assert_eq!(id_from_millis(0x18F_ABCD_0123), id_from_millis(0xABCD_0123));
    assert_eq!(id_from_millis(u128::MAX), "ffffffff");
}

#[test]
fn identifiers_agree_with_the_standard_formatter() {
    for millis in [1u128, 255, 256, 4096, 0x0F00_0000, 1_763_000_000_000] {
        assert_eq!(id_from_millis(millis), format!("{:x}", millis & 0xFFFF_FFFF));
    }
}

#[test]
fn clock_before_the_epoch_counts_as_zero() {
    assert_eq!(id_millis(None), 0);
    assert_eq!(id_millis(Some(7)), 7);
}

#[test]
fn session_identifiers_carry_a_prefix() {
    assert_eq!(session_id("1a2b"), "pty-1a2b");
    let id = new_session_id();
    assert!(id.starts_with("pty-"));
    assert!(id.len() > 4 && id.len() <= 12);
}

#[test]
fn random_identifiers_follow_the_clock() {
    let before = std::time::UNIX_EPOCH.elapsed().unwrap().as_millis();
    let id = rand_id();
    let after = std::time::UNIX_EPOCH.elapsed().unwrap().as_millis();
    assert!((before..=after).any(|millis| id_from_millis(millis) == id));
}

#[test]
fn identifiers_have_one_to_eight_digits_and_no_leading_zero() {
    for millis in [0u128, 1, 0x10, 0xFF_FFFF, 0x1_0000_0001, 0xFFFF_FFFF_FFFF] {
        let id = id_from_millis(millis);
        assert!((1..=8).contains(&id.len()));
        assert!(id.chars().all(|c| c.is_ascii_digit() || ('a'..='f').contains(&c)));
        assert!(id == "0" || !id.starts_with('0'));
    }
}
