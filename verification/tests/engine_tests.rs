use lalalm::engine::{aria2_args, at_least_one, auth_header_line, new_secret, rpc_token, target_triple};

#[test]
fn engine_command_line() {
    let a = aria2_args(6800, "s3cret", "/dl", 4, 8, 8, "4M", Some("  http://p:1 "), 42);
    assert_eq!(a.len(), 20);
    assert_eq!(a[2], "--rpc-listen-port=6800");
    assert_eq!(a[3], "--rpc-secret=s3cret");
    assert_eq!(a[4], "--dir=/dl");
    assert_eq!(a[13], "--min-split-size=4M");
    assert_eq!(a[18], "--stop-with-process=42");
    assert_eq!(a[19], "--all-proxy=http://p:1");
    assert_eq!(aria2_args(1, "", "", 1, 1, 1, "", Some("   "), 1).len(), 19);
    assert_eq!(aria2_args(1, "", "", 1, 1, 1, "", None, 1).len(), 19);
}

#[test]
fn secrets_and_headers() {
    let s = new_secret();
    assert_eq!(s.len(), 24);
    assert!(s.chars().all(|c| c.is_ascii_alphanumeric()));
    assert_ne!(s, new_secret());
    assert_eq!(rpc_token("abc"), "token:abc");
    assert_eq!(auth_header_line("Bearer t"), "Authorization: Bearer t");
}

#[test]
fn triples() {
    assert_eq!(target_triple("aarch64", "macos"), "aarch64-apple-darwin");
    assert_eq!(target_triple("x86_64", "windows"), "x86_64-pc-windows-msvc");
    assert_eq!(target_triple("x86_64", "linux"), "x86_64-unknown-linux-gnu");
    assert_eq!(target_triple("riscv64", "freebsd"), "riscv64-freebsd");
}

#[test]
fn engine_counts_at_least_one() {
    assert_eq!(at_least_one(0), 1);
    assert_eq!(at_least_one(1), 1);
    assert_eq!(at_least_one(8), 8);
}
