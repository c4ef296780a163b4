//! The aria2 download engine's command line and access secret.
use vstd::prelude::*;
use crate::text::{chars_of, string_from, trim, trimmed, decimal, decimal_exec};
use crate::config::{opt_str, str_views};
use crate::downloads::thread_rng;
use crate::unicode::is_ascii_alnum;

verus! {

/// Draws one sample of `rand::distributions::Alphanumeric` (an ASCII letter
/// or digit, as its source picks from that set) as a `char`. Which one is
/// left open.
#[verifier::external_body]
fn alnum_char(rng: &mut rand::rngs::ThreadRng) -> (r: char)
    ensures
        is_ascii_alnum(r),
{
    char::from(rand::Rng::sample(rng, rand::distributions::Alphanumeric))
}

/// A random RPC secret: 24 ASCII letters and digits.
pub fn new_secret() -> (r: String)
    ensures
        r@.len() == 24,
        forall|i: int| 0 <= i < 24 ==> is_ascii_alnum(#[trigger] r@[i]),
{
    let mut rng = thread_rng();
    let mut v: Vec<char> = Vec::new();
    let mut i: usize = 0;
    while i < 24
        invariant
            i <= 24,
            v@.len() == i,
            forall|k: int| 0 <= k < i ==> is_ascii_alnum(#[trigger] v@[k]),
        decreases 24 - i,
    {
        let c = alnum_char(&mut rng);
        v.push(c);
        i += 1;
    }
    string_from(v.as_slice())
}

/// The command line of the engine's RPC server: RPC on `port` with
/// `secret`, files under `dir`, resuming partial files and never renaming,
/// the given concurrency options, quiet console, stopping with process
/// `pid`; `--all-proxy` when a non-empty (trimmed) proxy is given.
pub open spec fn engine_args(
    port: u16,
    secret: Seq<char>,
    dir: Seq<char>,
    max_concurrent: u32,
    max_conn: u32,
    split: u32,
    min_split: Seq<char>,
    proxy: Option<Seq<char>>,
    pid: u32,
) -> Seq<Seq<char>> {
    let base = seq![
        "--enable-rpc=true"@,
        "--rpc-listen-all=false"@,
        "--rpc-listen-port="@ + decimal(port as nat),
        "--rpc-secret="@ + secret,
        "--dir="@ + dir,
        "--continue=true"@,
        "--file-allocation=none"@,
        "--auto-file-renaming=false"@,
        "--allow-overwrite=true"@,
        "--always-resume=true"@,
        "--max-concurrent-downloads="@ + decimal(max_concurrent as nat),
        "--max-connection-per-server="@ + decimal(max_conn as nat),
        "--split="@ + decimal(split as nat),
        "--min-split-size="@ + min_split,
        "--summary-interval=0"@,
        "--enable-color=false"@,
        "--console-log-level=warn"@,
        "--user-agent=LalaLM/0.1"@,
        "--stop-with-process="@ + decimal(pid as nat),
    ];
    match proxy {
        Some(p) => if trim(p).len() > 0 {
            base.push("--all-proxy="@ + trim(p))
        } else {
            base
        },
        None => base,
    }
}

fn arg(prefix: &str, value: &[char]) -> (r: String)
    ensures
        r@ == prefix@ + value@,
{
    let mut s = String::from_str(prefix);
    let v = string_from(value);
    s.append(v.as_str());
    s
}

fn num_arg(prefix: &str, n: u64) -> (r: String)
    ensures
        r@ == prefix@ + decimal(n as nat),
{
    let d = decimal_exec(n);
    arg(prefix, d.as_slice())
}

pub fn aria2_args(
    port: u16,
    secret: &str,
    dir: &str,
    max_concurrent: u32,
    max_conn: u32,
    split: u32,
    min_split: &str,
    proxy: Option<&str>,
    pid: u32,
) -> (r: Vec<String>)
    ensures
        str_views(r@) == engine_args(port, secret@, dir@, max_concurrent, max_conn, split, min_split@, match proxy {
            Some(p) => Some(p@),
            None => None,
        }, pid),
{
    let secret_c = chars_of(secret);
    let dir_c = chars_of(dir);
    let min_c = chars_of(min_split);
    let mut v: Vec<String> = Vec::new();
    v.push(String::from_str("--enable-rpc=true"));
    v.push(String::from_str("--rpc-listen-all=false"));
    v.push(num_arg("--rpc-listen-port=", port as u64));
    v.push(arg("--rpc-secret=", secret_c.as_slice()));
    v.push(arg("--dir=", dir_c.as_slice()));
    v.push(String::from_str("--continue=true"));
    v.push(String::from_str("--file-allocation=none"));
    v.push(String::from_str("--auto-file-renaming=false"));
    v.push(String::from_str("--allow-overwrite=true"));
    v.push(String::from_str("--always-resume=true"));
    v.push(num_arg("--max-concurrent-downloads=", max_concurrent as u64));
    v.push(num_arg("--max-connection-per-server=", max_conn as u64));
    v.push(num_arg("--split=", split as u64));
    v.push(arg("--min-split-size=", min_c.as_slice()));
    v.push(String::from_str("--summary-interval=0"));
    v.push(String::from_str("--enable-color=false"));
    v.push(String::from_str("--console-log-level=warn"));
    v.push(String::from_str("--user-agent=LalaLM/0.1"));
    v.push(num_arg("--stop-with-process=", pid as u64));
    let ghost base = str_views(v@);
    match proxy {
        Some(p) => {
            let pc = chars_of(p);
            let t = trimmed(pc.as_slice());
            if t.len() > 0 {
                v.push(arg("--all-proxy=", t.as_slice()));
                assert(str_views(v@) =~= base.push("--all-proxy="@ + trim(p@)));
            }
        },
        None => {},
    }
    proof {
        let want = engine_args(port, secret@, dir@, max_concurrent, max_conn, split, min_split@, match proxy {
            Some(p) => Some(p@),
            None => None,
        }, pid);
        assert(base.len() == 19);
        assert(str_views(v@) =~= want);
    }
    v
}

/// The RPC token parameter: `token:` and the secret.
/// An engine count setting as used: at least one.
pub fn at_least_one(n: u32) -> (r: u32)
    ensures
        r == if n < 1 { 1 } else { n },
{
    if n < 1 {
        1
    } else {
        n
    }
}

pub fn rpc_token(secret: &str) -> (r: String)
    ensures
        r@ == "token:"@ + secret@,
{
    let mut s = String::from_str("token:");
    s.append(secret);
    s
}

/// The header the engine sends for an authorization value.
pub fn auth_header_line(auth: &str) -> (r: String)
    ensures
        r@ == "Authorization: "@ + auth@,
{
    let mut s = String::from_str("Authorization: ");
    s.append(auth);
    s
}

/// The bundled engine's file name suffix for a platform: the target triple
/// of `arch` and `os` (`aarch64`/`x86_64` kept, any other architecture as
/// given).
pub open spec fn triple_of(arch: Seq<char>, os: Seq<char>) -> Seq<char> {
    if os == "macos"@ {
        arch + "-apple-darwin"@
    } else if os == "windows"@ {
        arch + "-pc-windows-msvc"@
    } else if os == "linux"@ {
        arch + "-unknown-linux-gnu"@
    } else {
        arch + "-"@ + os
    }
}

pub fn target_triple(arch: &str, os: &str) -> (r: String)
    ensures
        r@ == triple_of(arch@, os@),
{
    let o = chars_of(os);
    let mut s = String::from_str(arch);
    if crate::text::seq_eq(o.as_slice(), chars_of("macos").as_slice()) {
        s.append("-apple-darwin");
    } else if crate::text::seq_eq(o.as_slice(), chars_of("windows").as_slice()) {
        s.append("-pc-windows-msvc");
    } else if crate::text::seq_eq(o.as_slice(), chars_of("linux").as_slice()) {
        s.append("-unknown-linux-gnu");
    } else {
        s.append("-");
        s.append(os);
    }
    s
}

/// Every setting reaches its own option of the engine's command line:
/// the RPC port, the secret, the download directory, the number of
/// concurrent downloads, the connections per server, the split count and
/// minimum split size, the process to stop with; a non-blank proxy is
/// passed trimmed, and without one no proxy option is given.
pub proof fn lemma_engine_options(
    port: u16,
    secret: Seq<char>,
    dir: Seq<char>,
    max_concurrent: u32,
    max_conn: u32,
    split: u32,
    min_split: Seq<char>,
    proxy: Option<Seq<char>>,
    pid: u32,
)
    ensures
        ({
            let a = engine_args(port, secret, dir, max_concurrent, max_conn, split, min_split, proxy, pid);
            &&& a.contains("--rpc-listen-port="@ + decimal(port as nat))
            &&& a.contains("--rpc-secret="@ + secret)
            &&& a.contains("--dir="@ + dir)
            &&& a.contains("--max-concurrent-downloads="@ + decimal(max_concurrent as nat))
            &&& a.contains("--max-connection-per-server="@ + decimal(max_conn as nat))
            &&& a.contains("--split="@ + decimal(split as nat))
            &&& a.contains("--min-split-size="@ + min_split)
            &&& a.contains("--stop-with-process="@ + decimal(pid as nat))
            &&& (proxy is Some && trim(proxy->0).len() > 0 ==> a.contains("--all-proxy="@ + trim(proxy->0)))
            &&& (proxy is None ==> a.len() == 19)
        }),
{
    let a = engine_args(port, secret, dir, max_concurrent, max_conn, split, min_split, proxy, pid);
    assert(a[2] == "--rpc-listen-port="@ + decimal(port as nat));
    assert(a[3] == "--rpc-secret="@ + secret);
    assert(a[4] == "--dir="@ + dir);
    assert(a[10] == "--max-concurrent-downloads="@ + decimal(max_concurrent as nat));
    assert(a[11] == "--max-connection-per-server="@ + decimal(max_conn as nat));
    assert(a[12] == "--split="@ + decimal(split as nat));
    assert(a[13] == "--min-split-size="@ + min_split);
    assert(a[18] == "--stop-with-process="@ + decimal(pid as nat));
    if proxy is Some && trim(proxy->0).len() > 0 {
        assert(a[19] == "--all-proxy="@ + trim(proxy->0));
    }
}

} // verus!
