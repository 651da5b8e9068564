use lib::vfs::boot_count::{next_boot_count, parse_u32_text};

#[test]
fn boot_counter_counts_up_from_what_it_reads() {
    let (v, n, s) = next_boot_count(b"");
    assert_eq!((v, n, s.as_str()), (0, 1, "1"));
    let (v, n, s) = next_boot_count(b" 41\n");
    assert_eq!((v, n, s.as_str()), (41, 42, "42"));
    let (v, n, s) = next_boot_count(b"+7");
    assert_eq!((v, n, s.as_str()), (7, 8, "8"));
    let (v, n, s) = next_boot_count(b"-1");
    assert_eq!((v, n, s.as_str()), (0, 1, "1"));
    let (v, n, s) = next_boot_count(b"4294967295");
    assert_eq!((v, n, s.as_str()), (u32::MAX, u32::MAX, "4294967295"));
    let (v, n, _) = next_boot_count(b"4294967296");
    assert_eq!((v, n), (0, 1));
    let (v, n, _) = next_boot_count(&[0xFF, 0x31]);
    assert_eq!((v, n), (0, 1));
}

#[test]
fn counter_text_parses_like_from_str() {
    for t in ["", "+", "-0", "12a", " 1", "99999999999", "+-1"] {
        assert_eq!(parse_u32_text(t), t.parse::<u32>().ok(), "{t:?}");
    }
    for t in ["0", "+0", "007", "4294967295", "+123"] {
        assert_eq!(parse_u32_text(t), t.parse::<u32>().ok(), "{t:?}");
    }
}
