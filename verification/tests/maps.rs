use super_safe_glibc_wrappers::maps::{get_ptr_info, MapsError, PageInfo};

const SAMPLE: &str = "\
55d0c0a00000-55d0c0a02000 r--p 00000000 08:01 1048602                    /usr/bin/cat
55d0c0a02000-55d0c0a07000 r-xp 00002000 08:01 1048602                    /usr/bin/cat
55d0c1f3e000-55d0c1f5f000 rw-p 00000000 00:00 0                          [heap]
7f1e2c000000-7f1e2c021000 rw-p 00000000 00:00 0
7ffd4b6a8000-7ffd4b6c9000 rw-p 00000000 00:00 0                          [stack]
";

fn lookup(text: &str, ptr: usize, rsp: usize) -> (Result<Option<PageInfo>, MapsError>, String) {
    let mut maps = text.to_string();
    let r = get_ptr_info(&mut maps, ptr, rsp);
    (r, maps)
}

/// A memory map as a process sees it in `/proc/self/maps`: its program
/// (constants in the read-only segment), its heap and its stack.
const PROCESS: &str = "\
5603a1a00000-5603a1a1c000 r--p 00000000 08:01 2621451                    /usr/bin/test
5603a1a1c000-5603a1a9e000 r-xp 0001c000 08:01 2621451                    /usr/bin/test
5603a1a9e000-5603a1ab9000 r--p 0009e000 08:01 2621451                    /usr/bin/test
5603a1ab9000-5603a1aba000 rw-p 000b8000 08:01 2621451                    /usr/bin/test
5603a2c4f000-5603a2c70000 rw-p 00000000 00:00 0                          [heap]
7ffc1d3e4000-7ffc1d405000 rw-p 00000000 00:00 0                          [stack]
7ffc1d5a4000-7ffc1d5a8000 r--p 00000000 00:00 0                          [vvar]
7ffc1d5a8000-7ffc1d5aa000 r-xp 00000000 00:00 0                          [vdso]
ffffffffff600000-ffffffffff601000 --xp 00000000 00:00 0                  [vsyscall]
";

#[test]
fn test_get_ptr_info_invalid() {
    let (r, _) = lookup(PROCESS, 1, 0x7ffc1d404000);
    assert!(r.unwrap().is_none());
}

#[test]
fn test_get_ptr_info_const() {
    // a constant of the program, in its read-only segment
    let (r, _) = lookup(PROCESS, 0x5603a1aa0010, 0x7ffc1d404000);
    let page_info = r.unwrap().unwrap();
    assert_eq!(page_info.read, true);
    assert_eq!(page_info.write, false);
    assert_eq!(page_info.execute, false);
}

#[test]
fn test_get_ptr_info_stack() {
    // the stack pointer itself
    let (r, _) = lookup(PROCESS, 0x7ffc1d403f00, 0x7ffc1d403e00);
    let page_info = r.unwrap().unwrap();
    assert_eq!(page_info.read, true);
    assert_eq!(page_info.write, true);
    assert_eq!(page_info.execute, false);
}

#[test]
fn test_get_ptr_info_dynamic() {
    // a value on the heap
    let (r, _) = lookup(PROCESS, 0x5603a2c502a0, 0x7ffc1d403e00);
    let page_info = r.unwrap().unwrap();
    assert_eq!(page_info.read, true);
    assert_eq!(page_info.write, true);
    assert_eq!(page_info.execute, false);
}

#[test]
fn maps_finds_file_and_permissions() {
    let (r, _) = lookup(SAMPLE, 0x55d0c0a03000, 0);
    let p = r.unwrap().unwrap();
    assert!(p.read && !p.write && p.execute);
    assert_eq!(p.file.as_deref(), Some("/usr/bin/cat"));
}

#[test]
fn maps_upper_bound_is_excluded() {
    let (r, _) = lookup(SAMPLE, 0x55d0c1f5efff, 0);
    let p = r.unwrap().unwrap();
    assert_eq!(p.file.as_deref(), Some("[heap]"));
    assert!(p.read && p.write && !p.execute);
    // the first address past the heap lies in no mapping
    let (r, _) = lookup(SAMPLE, 0x55d0c1f5f000, 0);
    assert!(r.unwrap().is_none());
    // where two mappings touch, the address belongs to the second
    let (r, _) = lookup(SAMPLE, 0x55d0c0a02000, 0);
    assert!(r.unwrap().unwrap().execute);
}

#[test]
fn maps_row_without_file() {
    let (r, _) = lookup(SAMPLE, 0x7f1e2c000010, 0);
    let p = r.unwrap().unwrap();
    assert!(p.file.is_none());
}

#[test]
fn maps_unmapped_pointer_gives_none_and_zeroizes() {
    let (r, rest) = lookup(SAMPLE, 0x10, 0);
    assert!(r.unwrap().is_none());
    assert_eq!(rest, "");
}

#[test]
fn maps_last_matching_row_wins() {
    let text = "1000-2000 r--p 0 0 0 first\n1000-2000 rw-p 0 0 0 second\n";
    let (r, _) = lookup(text, 0x1800, 0);
    let p = r.unwrap().unwrap();
    assert_eq!(p.file.as_deref(), Some("second"));
    assert!(p.write);
}

#[test]
fn maps_dangling_stack_pointer() {
    let (r, rest) = lookup(SAMPLE, 0x7ffd4b6a9000, 0x7ffd4b6b0000);
    assert_eq!(r.err(), Some(MapsError::DanglingStackPointer));
    assert_eq!(rest, SAMPLE);
    let (r, _) = lookup(SAMPLE, 0x7ffd4b6b0000, 0x7ffd4b6a9000);
    assert_eq!(r.unwrap().unwrap().file.as_deref(), Some("[stack]"));
}

#[test]
fn maps_malformed_row_fails() {
    assert_eq!(lookup("zz-2000 r--p 0 0 0\n", 5, 0).0.err(), Some(MapsError::Malformed));
    assert_eq!(lookup("1000 r--p 0 0 0\n", 5, 0).0.err(), Some(MapsError::Malformed));
    assert_eq!(lookup("1000-2000 r--p 0 0 0\n\n", 5, 0).0.err(), Some(MapsError::Malformed));
    // a matching row needs five columns and three permission letters
    assert_eq!(lookup("1000-2000 r--p 0 0\n", 0x1000, 0).0.err(), Some(MapsError::Malformed));
    assert_eq!(lookup("1000-2000 r- 0 0 0\n", 0x1000, 0).0.err(), Some(MapsError::Malformed));
    // a row that does not hold the pointer needs only its bounds
    assert!(lookup("1000-2000 x\n", 0x5000, 0).0.unwrap().is_none());
}

#[test]
fn maps_hex_bounds_like_from_str_radix() {
    assert!(lookup("+A-+ff r--p 0 0 0\n", 0xb, 0).0.unwrap().is_some());
    assert_eq!(lookup("-1-ff r--p 0 0 0\n", 0xb, 0).0.err(), Some(MapsError::Malformed));
    assert_eq!(lookup("+-ff r--p 0 0 0\n", 0xb, 0).0.err(), Some(MapsError::Malformed));
    let too_big = "0-1ffffffffffffffff r--p 0 0 0\n";
    assert_eq!(lookup(too_big, 0xb, 0).0.err(), Some(MapsError::Malformed));
    assert!(lookup("0-ffffffffffffffff r--p 0 0 0\n", usize::MAX - 1, 0).0.unwrap().is_some());
    assert!(lookup("0-ffffffffffffffff r--p 0 0 0\n", usize::MAX, 0).0.unwrap().is_none());
}

#[test]
fn maps_crlf_and_unicode_whitespace() {
    let (r, _) = lookup("1000-2000\u{3000}rw-p 0 0 0 name\r\n", 0x1000, 0);
    let p = r.unwrap().unwrap();
    assert_eq!(p.file.as_deref(), Some("name"));
    let (r, _) = lookup("1000-2000 rw-p 0 0 0 name", 0x1fff, 0);
    assert_eq!(r.unwrap().unwrap().file.as_deref(), Some("name"));
}

#[test]
fn maps_first_failure_stops_reading() {
    let text = "1000-2000 rw-p 0 0 0 [stack]\nbad\n";
    assert_eq!(lookup(text, 0x1000, 0x1800).0.err(), Some(MapsError::DanglingStackPointer));
    assert_eq!(lookup(text, 0x1800, 0x1000).0.err(), Some(MapsError::Malformed));
}

#[test]
fn maps_error_messages() {
    assert_eq!(MapsError::Malformed.message(), "failed to parse maps");
    assert_eq!(MapsError::DanglingStackPointer.message(), "dangling stack pointer");
}
