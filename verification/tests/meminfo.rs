use palworld_server::meminfo::{parse_meminfo, MemInfo};
use palworld_server::remote::{CommandResult, PalworldConnection};
use palworld_server::RconError;

#[test]
fn parses_the_three_mem_lines() {
    let text = "MemTotal:  16384000 kB\nMemFree:  2048000 kB\nMemAvailable: 8192000 kB";
    let m = parse_meminfo(text).unwrap();
    assert_eq!(m.mem_total, 16384000);
    assert_eq!(m.mem_free, 2048000);
    assert_eq!(m.mem_available, 8192000);
    assert_eq!(m.buffers, 0);
    assert_eq!(m.cached, 0);
    assert_eq!(m.used(), Some(8192000));
    let ratio = m.used().unwrap() as f64 / m.mem_total as f64;
    assert_eq!(ratio, 0.5);
}

#[test]
fn parses_buffers_and_cached() {
    let text = "Buffers:   1024 kB\nCached:   4096 kB";
    let m = parse_meminfo(text).unwrap();
    assert_eq!(m.buffers, 1024);
    assert_eq!(m.cached, 4096);
}

#[test]
fn swapcached_does_not_set_cached() {
    let m = parse_meminfo("SwapCached:   123 kB").unwrap();
    assert_eq!(m.cached, 0);
    assert_eq!(m, MemInfo::default());
}

#[test]
fn keys_match_case_insensitively() {
    let m = parse_meminfo("MEMTOTAL: 5 kB\nmemfree: 3 kB").unwrap();
    assert_eq!(m.mem_total, 5);
    assert_eq!(m.mem_free, 3);
}

#[test]
fn lines_without_the_count_pattern_are_ignored() {
    let text = "MemTotal: 5 MB\nMemFree: kB\nMemAvailable 7 kB tail\nHugePagesize: 2048 kB";
    let m = parse_meminfo(text).unwrap();
    assert_eq!(m, MemInfo::default());
}

#[test]
fn unknown_keys_are_ignored() {
    let m = parse_meminfo("Slab: 300 kB\nShmem: 200 kB").unwrap();
    assert_eq!(m, MemInfo::default());
}

#[test]
fn later_lines_overwrite_earlier_ones() {
    let m = parse_meminfo("MemFree: 1 kB\nMemFree: 2 kB").unwrap();
    assert_eq!(m.mem_free, 2);
}

#[test]
fn empty_input_is_the_zero_record() {
    assert_eq!(parse_meminfo("").unwrap(), MemInfo::default());
}

#[test]
fn matched_count_beyond_64_bits_is_an_error() {
    match parse_meminfo("MemTotal: 99999999999999999999999999 kB") {
        Err(RconError::Parse) => {}
        other => panic!("expected ParseError, got {:?}", other),
    }
    // the same digits under an unknown key are ignored, not an error
    assert!(parse_meminfo("Slab: 99999999999999999999999999 kB").is_ok());
}

#[test]
fn count_at_the_64_bit_boundary_parses() {
    let m = parse_meminfo("MemTotal: 18446744073709551615 kB").unwrap();
    assert_eq!(m.mem_total, u64::MAX);
    assert!(parse_meminfo("MemTotal: 18446744073709551616 kB").is_err());
}

#[test]
fn used_is_total_minus_available() {
    let m = MemInfo {
        mem_total: 100,
        mem_free: 0,
        mem_available: 30,
        buffers: 0,
        cached: 0,
    };
    assert_eq!(m.used(), Some(70));
}

#[test]
fn used_is_absent_when_available_exceeds_total() {
    let m = MemInfo {
        mem_total: 10,
        mem_free: 0,
        mem_available: 30,
        buffers: 0,
        cached: 0,
    };
    assert_eq!(m.used(), None);
}

#[test]
fn remote_endpoint_holds_coordinates() {
    let c = PalworldConnection::new("localhost:22", "root", "pw");
    assert_eq!(c.hostname, "localhost:22");
    assert_eq!(c.username, "root");
    assert_eq!(c.password, "pw");
}

#[test]
fn command_result_carries_output_and_status() {
    let r = CommandResult::new(String::from("out"), 3);
    assert_eq!(r.output, "out");
    assert_eq!(r.exit_status, 3);
}
