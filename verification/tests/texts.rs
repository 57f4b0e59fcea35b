use triskelion::bytes::{
    bits_of_i32, bits_of_i64, copy_clipped, copy_range, i32_from_bits, push_i32, push_i64, push_u16,
    push_u32, push_u64, put_bytes, read_u16, read_u32, read_u64,
};
use triskelion::parallax::{command_words, get_child_command};
use triskelion::paths::{beside, extension_of, join_path, same_path, to_nt_path};
use triskelion::settings::{parse_env_config, resolve_winedebug, split, trim, DeployCache};
use triskelion::text::{
    bytes_of_units, contains_text, ends_with_text, join, parse_u64, push_decimal, push_hex,
    push_hex_fixed, replace_char, same, starts_with_text, tail_after, units_of, utf16le_to_string,
    vararg_to_u16, wire_of,
};
use triskelion::wire::{
    extract_objattr_name, extract_open_name, max_reply_vararg, reply_fixed, reply_four, reply_handle,
    reply_status, reply_two, reply_vararg, vararg, Reply,
};

fn bytes_of(r: &Reply) -> Vec<u8> {
    match r {
        Reply::Fixed { buf, len } => buf[..*len].to_vec(),
        Reply::Vararg(v) => v.clone(),
    }
}

fn texts(v: &[&str]) -> Vec<String> {
    v.iter().map(|s| s.to_string()).collect()
}

/// A request with the bytes of a variable part behind its block.
fn request(vararg: &[u8]) -> Vec<u8> {
    let mut b = vec![0u8; 64];
    b.extend_from_slice(vararg);
    b
}

/// The attributes of an object with a name.
fn attributes(sd: &[u8], name: &str) -> Vec<u8> {
    let n: Vec<u8> = name.encode_utf16().flat_map(|u| u.to_le_bytes()).collect();
    let mut v = vec![0u8; 8];
    v.extend_from_slice(&(sd.len() as u32).to_le_bytes());
    v.extend_from_slice(&(n.len() as u32).to_le_bytes());
    v.extend_from_slice(sd);
    v.extend_from_slice(&n);
    v
}

#[test]
fn numbers_are_little_endian() {
    let mut v = Vec::new();
    push_u16(&mut v, 0x1234);
    push_u32(&mut v, 0xA1B2_C3D4);
    push_u64(&mut v, 0x0102_0304_0506_0708);
    push_i32(&mut v, -2);
    push_i64(&mut v, -3);
    assert_eq!(v[..2], [0x34, 0x12]);
    assert_eq!(v[2..6], [0xD4, 0xC3, 0xB2, 0xA1]);
    assert_eq!(v[6..14], [8, 7, 6, 5, 4, 3, 2, 1]);
    assert_eq!(v[14..18], (-2i32).to_le_bytes());
    assert_eq!(v[18..26], (-3i64).to_le_bytes());
    assert_eq!(read_u16(&v, 0), 0x1234);
    assert_eq!(read_u32(&v, 2), 0xA1B2_C3D4);
    assert_eq!(read_u64(&v, 6), 0x0102_0304_0506_0708);
}

#[test]
fn bits_of_signed_numbers() {
    for x in [0, 1, -1, i32::MAX, i32::MIN] {
        assert_eq!(bits_of_i32(x), x as u32);
        assert_eq!(i32_from_bits(x as u32), x);
    }
    for x in [0, 1, -1, i64::MAX, i64::MIN] {
        assert_eq!(bits_of_i64(x), x as u64);
    }
}

#[test]
fn ranges_of_bytes() {
    let b = [1u8, 2, 3, 4];
    assert_eq!(copy_range(&b, 1, 3), vec![2, 3]);
    assert_eq!(copy_clipped(&b, 2), vec![1, 2]);
    assert_eq!(copy_clipped(&b, 9), vec![1, 2, 3, 4]);
    let mut d = vec![0u8; 5];
    put_bytes(&mut d, 2, &b[..2]);
    assert_eq!(d, vec![0, 0, 1, 2, 0]);
}

#[test]
fn units_survive_a_round_trip() {
    let u: Vec<u16> = vec![0, 0x41, 0xD83D, 0xDE00, 0xFFFF];
    assert_eq!(vararg_to_u16(&bytes_of_units(&u)), u);
    assert_eq!(vararg_to_u16(&[0x41, 0, 0x42]), vec![0x41]);
    assert_eq!(units_of("A\u{1F600}"), vec![0x41, 0xD83D, 0xDE00]);
    assert_eq!(wire_of("Ab"), vec![0x41, 0, 0x62, 0]);
}

#[test]
fn lone_surrogates_read_as_replacement() {
    assert_eq!(utf16le_to_string(&[0x41, 0, 0x3D, 0xD8, 0x00, 0xDE, 0x42, 0]), "A\u{1F600}B");
    assert_eq!(utf16le_to_string(&[0x3D, 0xD8, 0x42, 0]), "\u{FFFD}B");
    assert_eq!(utf16le_to_string(&[0x00, 0xDE]), "\u{FFFD}");
    assert_eq!(utf16le_to_string(&[]), "");
}

#[test]
fn text_pieces() {
    assert_eq!(tail_after("a\\b\\c", '\\'), "c");
    assert_eq!(tail_after("abc", '\\'), "abc");
    assert_eq!(tail_after("a\\", '\\'), "");
    assert_eq!(replace_char("a/b/c", '/', '\\'), "a\\b\\c");
    assert!(same("ab", "ab") && !same("ab", "abc"));
    assert!(contains_text("xnvapi64", "nvapi") && !contains_text("nvap", "nvapi") && contains_text("a", ""));
    assert!(starts_with_text("abc", "ab") && !starts_with_text("abc", "bc"));
    assert!(ends_with_text("abc", "bc") && !ends_with_text("abc", "ab"));
    assert_eq!(join(&texts(&["a", "b", "c"]), ";"), "a;b;c");
    assert_eq!(join(&texts(&[]), ";"), "");
}

#[test]
fn numbers_as_text() {
    let mut s = String::new();
    push_decimal(&mut s, 0);
    push_decimal(&mut s, 90210);
    push_hex(&mut s, 0xBEEF);
    push_hex_fixed(&mut s, 0xA, 4);
    assert_eq!(s, "090210beef000a");
    assert_eq!(parse_u64("18446744073709551615"), Some(u64::MAX));
    assert_eq!(parse_u64("18446744073709551616"), None);
    assert_eq!(parse_u64("+7"), Some(7));
    assert_eq!(parse_u64("-7"), None);
    assert_eq!(parse_u64(""), None);
    assert_eq!(parse_u64("+"), None);
    assert_eq!(parse_u64("1 "), None);
}

#[test]
fn replies_fill_a_block() {
    let r = bytes_of(&reply_status(0xC000_0008));
    assert_eq!(r.len(), 64);
    assert_eq!(r[..8], [8, 0, 0, 0xC0, 0, 0, 0, 0]);
    assert!(r[8..].iter().all(|b| *b == 0));
    let r = bytes_of(&reply_handle(0, 0x44));
    assert_eq!(r[..12], [0, 0, 0, 0, 0, 0, 0, 0, 0x44, 0, 0, 0]);
    let r = bytes_of(&reply_two(1, 2, 3));
    assert_eq!(r[..16], [1, 0, 0, 0, 0, 0, 0, 0, 2, 0, 0, 0, 3, 0, 0, 0]);
    let r = bytes_of(&reply_four(0, 1, 2, 3, 4));
    assert_eq!(r[8..24], [1, 0, 0, 0, 2, 0, 0, 0, 3, 0, 0, 0, 4, 0, 0, 0]);
    assert_eq!(bytes_of(&reply_fixed(&[9; 64])), vec![9; 64]);
}

#[test]
fn the_variable_part_follows_the_block() {
    let mut head = Vec::new();
    push_u32(&mut head, 0);
    push_u32(&mut head, 3);
    let r = bytes_of(&reply_vararg(&head, &[7, 8, 9]));
    assert_eq!(r.len(), 67);
    assert_eq!(read_u32(&r, 4) as usize, r.len() - 64);
    assert_eq!(r[64..], [7, 8, 9]);
}

#[test]
fn parts_of_a_request() {
    let mut b = request(&[5, 6]);
    b[8] = 200;
    assert_eq!(max_reply_vararg(&b), 200);
    assert_eq!(max_reply_vararg(&b[..11]), 0);
    assert_eq!(vararg(&b), vec![5, 6]);
    assert_eq!(vararg(&b[..64]), Vec::<u8>::new());
}

#[test]
fn object_names_lose_their_path_and_case() {
    let b = request(&attributes(&[1, 2, 3], "\\Sessions\\1\\BaseNamedObjects\\MyEvent"));
    assert_eq!(extract_objattr_name(&b), Some("myevent".to_string()));
    let b = request(&attributes(&[], "STRA\u{DF}E\u{130}"));
    assert_eq!(extract_objattr_name(&b), Some("STRA\u{DF}E\u{130}".to_lowercase()));
    assert_eq!(extract_objattr_name(&request(&attributes(&[], ""))), None);
    assert_eq!(extract_objattr_name(&request(&attributes(&[], "a\\"))), None);
    let mut cut = request(&attributes(&[], "abc"));
    cut.pop();
    assert_eq!(extract_objattr_name(&cut), None);
    assert_eq!(extract_objattr_name(&[0; 79]), None);
}

#[test]
fn opened_names_stand_in_the_variable_part() {
    let name: Vec<u8> = "\\BaseNamedObjects\\Foo".encode_utf16().flat_map(|u| u.to_le_bytes()).collect();
    assert_eq!(extract_open_name(&request(&name)), Some("foo".to_string()));
    assert_eq!(extract_open_name(&request(&[])), None);
}

#[test]
fn deploy_cache_is_read_back() {
    let c = DeployCache { wine_hash: 1, dxvk_hash: 2, vkd3d_hash: u64::MAX, steam_hash: 0, scan_hash: 5 };
    let text = c.save();
    let d = DeployCache::load(&text).unwrap();
    assert_eq!(
        (d.wine_hash, d.dxvk_hash, d.vkd3d_hash, d.steam_hash, d.scan_hash),
        (1, 2, u64::MAX, 0, 5)
    );
    assert!(DeployCache::load("").is_none());
    assert!(DeployCache::load("1 2 3").is_none());
}

#[test]
fn variables_are_read_line_by_line() {
    let v = parse_env_config("# comment\n\n A = b = c \nNOVALUE\n=x\nE=\r\n");
    let want: Vec<(String, String)> = vec![
        ("A".to_string(), "b = c".to_string()),
        ("E".to_string(), "".to_string()),
    ];
    assert_eq!(v, want);
}

#[test]
fn debug_channels_by_tier() {
    assert_eq!(resolve_winedebug(Some("+all".to_string()), true, true), "+all");
    assert_eq!(resolve_winedebug(None, false, true), "+module,+loaddll,+process,err");
    assert_eq!(resolve_winedebug(None, false, false), "-all");
}

#[test]
fn white_space_and_separators() {
    assert_eq!(trim(" \t a b\u{3000}\n"), "a b");
    assert_eq!(split("a:b::", ':'), texts(&["a", "b", "", ""]));
    assert_eq!(split("", ':'), texts(&[""]));
}

#[test]
fn paths_are_joined_and_compared() {
    assert_eq!(join_path("/a", "b/c"), "/a/b/c");
    assert_eq!(join_path("/a/", "b"), "/a/b");
    assert_eq!(join_path("/a", "/b"), "/b");
    assert_eq!(join_path("", "b"), "b");
    assert_eq!(to_nt_path("/usr/lib"), "\\??\\Z:\\usr\\lib");
    assert!(same_path("/a//b/./c/", "/a/b/c"));
    assert!(!same_path("/a/b", "a/b"));
    assert!(!same_path("./a", "a"));
    assert_eq!(extension_of("a.tar.gz"), Some("gz".to_string()));
    assert_eq!(extension_of(".bashrc"), None);
    assert_eq!(extension_of("a."), Some("".to_string()));
    assert_eq!(beside("/opt/quark/quark", "triskelion"), "/opt/quark/triskelion");
    assert_eq!(beside("/quark", "triskelion"), "/triskelion");
    assert_eq!(beside("quark", "triskelion"), "triskelion");
}

#[test]
fn child_command_stands_behind_the_dashes() {
    let cmd = |v: &[&str], c: Option<&str>| get_child_command(&texts(v), c.map(|s| s.to_string()));
    assert_eq!(cmd(&["parallax", "--", "kwin_wayland", "--x"], None), Some("kwin_wayland --x".to_string()));
    assert_eq!(cmd(&["parallax", "--", "a", "--", "b"], None), Some("a -- b".to_string()));
    assert_eq!(cmd(&["parallax", "--"], Some("sway")), Some("sway".to_string()));
    assert_eq!(cmd(&["parallax"], None), None);
    assert_eq!(command_words("  sway  -c x\t"), texts(&["sway", "-c", "x"]));
    assert_eq!(command_words(" "), Vec::<String>::new());
}
