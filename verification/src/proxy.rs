//! Proxy settings: reading the system's proxy reports, and the proxy the
//! settings ask for.
use vstd::prelude::*;
use crate::text::{
    chars_of, string_from, trim, trimmed, trim_end_char, trim_end_char_vec, split_once,
    split_once_char, lines, split_lines, words, split_words, pieces, split_on, vviews,
    parse_unsigned, parse_unsigned_exec, decimal, decimal_exec, seq_eq, starts_with, has_prefix,
    slice_vec, contains, contains_seq,
};
use crate::config::{Config, ProxyMode, opt_str};

verus! {

// ------------------------------------------------------------------ macOS

/// The `key : value` pair of one line of `scutil --proxy` output: the line
/// trimmed, `;` stripped from its end, split at its first `:`, both sides
/// trimmed.
pub open spec fn scutil_entry(line: Seq<char>) -> Option<(Seq<char>, Seq<char>)> {
    match split_once(trim(trim_end_char(trim(line), ';')), ':') {
        Some((k, v)) => Some((trim(k), trim(v))),
        None => None,
    }
}

/// The pairs of all lines, in order.
pub open spec fn scutil_pairs(ls: Seq<Seq<char>>) -> Seq<(Seq<char>, Seq<char>)>
    decreases ls.len(),
{
    if ls.len() == 0 {
        Seq::empty()
    } else {
        match scutil_entry(ls.last()) {
            Some(p) => scutil_pairs(ls.drop_last()).push(p),
            None => scutil_pairs(ls.drop_last()),
        }
    }
}

/// The value of `key`: the last pair with that key wins, as in a map filled
/// line by line.
pub open spec fn lookup(pairs: Seq<(Seq<char>, Seq<char>)>, key: Seq<char>) -> Option<Seq<char>>
    decreases pairs.len(),
{
    if pairs.len() == 0 {
        None
    } else if pairs.last().0 == key {
        Some(pairs.last().1)
    } else {
        lookup(pairs.drop_last(), key)
    }
}

/// `<scheme><host>:<port>` for a trimmed host that is neither empty nor
/// `(null)` and a port that parses as a non-zero `u16`.
pub open spec fn proxy_url(scheme: Seq<char>, host: Option<Seq<char>>, port: Option<Seq<char>>) -> Option<Seq<char>> {
    match host {
        None => None,
        Some(h) => {
            let h2 = trim(h);
            if h2.len() == 0 || h2 == "(null)"@ {
                None
            } else {
                let p = match port {
                    Some(p) => p,
                    None => Seq::empty(),
                };
                match parse_unsigned(p, 65535) {
                    Some(n) => if n == 0 {
                        None
                    } else {
                        Some(scheme + h2 + ":"@ + decimal(n))
                    },
                    None => None,
                }
            }
        },
    }
}

/// The proxy that `scutil --proxy` output reports: HTTPS, then HTTP, then
/// SOCKS, each only when enabled (`1`) and complete.
pub open spec fn scutil_proxy(output: Seq<char>) -> Option<Seq<char>> {
    let m = scutil_pairs(lines(output));
    let https = proxy_url("http://"@, lookup(m, "HTTPSProxy"@), lookup(m, "HTTPSPort"@));
    let http = proxy_url("http://"@, lookup(m, "HTTPProxy"@), lookup(m, "HTTPPort"@));
    let socks = proxy_url("socks5://"@, lookup(m, "SOCKSProxy"@), lookup(m, "SOCKSPort"@));
    if lookup(m, "HTTPSEnable"@) == Some("1"@) && https is Some {
        https
    } else if lookup(m, "HTTPEnable"@) == Some("1"@) && http is Some {
        http
    } else if lookup(m, "SOCKSEnable"@) == Some("1"@) && socks is Some {
        socks
    } else {
        None
    }
}

fn scutil_entry_exec(line: &[char]) -> (r: Option<(Vec<char>, Vec<char>)>)
    ensures
        match r {
            Some((k, v)) => scutil_entry(line@) == Some((k@, v@)),
            None => scutil_entry(line@) is None,
        },
{
    let a = trimmed(line);
    let b = trim_end_char_vec(a.as_slice(), ';');
    let c = trimmed(b.as_slice());
    match split_once_char(c.as_slice(), ':') {
        Some((k, v)) => Some((trimmed(k.as_slice()), trimmed(v.as_slice()))),
        None => None,
    }
}

pub open spec fn kv_views(v: Seq<(Vec<char>, Vec<char>)>) -> Seq<(Seq<char>, Seq<char>)> {
    Seq::new(v.len(), |i: int| (v[i].0@, v[i].1@))
}

fn lookup_exec(pairs: &Vec<(Vec<char>, Vec<char>)>, key: &str) -> (r: Option<String>)
    ensures
        opt_str(r) == lookup(kv_views(pairs@), key@),
{
    let k = chars_of(key);
    let mut i = pairs.len();
    proof {
        assert(kv_views(pairs@).take(i as int) =~= kv_views(pairs@));
    }
    while i > 0
        invariant
            i <= pairs@.len(),
            k@ == key@,
            lookup(kv_views(pairs@), key@) == lookup(kv_views(pairs@).take(i as int), key@),
        decreases i,
    {
        let ghost pre = kv_views(pairs@).take(i as int);
        assert(pre.drop_last() =~= kv_views(pairs@).take(i - 1));
        assert(pre.last() == (pairs@[i - 1].0@, pairs@[i - 1].1@));
        if seq_eq(pairs[i - 1].0.as_slice(), k.as_slice()) {
            return Some(string_from(pairs[i - 1].1.as_slice()));
        }
        i -= 1;
    }
    None
}

/// Joins the URL text of `proxy_url`, given the parsed pieces.
fn url_of(scheme: &str, host: &[char], port: u64) -> (r: String)
    ensures
        r@ == scheme@ + host@ + ":"@ + decimal(port as nat),
{
    let mut s = String::from_str(scheme);
    let h = string_from(host);
    s.append(h.as_str());
    s.append(":");
    let d = decimal_exec(port);
    let ds = string_from(d.as_slice());
    s.append(ds.as_str());
    s
}

fn assemble_url(scheme: &str, host: &Option<String>, port: &Option<String>) -> (r: Option<String>)
    ensures
        opt_str(r) == proxy_url(scheme@, opt_str(*host), opt_str(*port)),
{
    let h = match host {
        Some(h) => chars_of(h.as_str()),
        None => {
            return None;
        },
    };
    let h2 = trimmed(h.as_slice());
    let null = chars_of("(null)");
    if h2.len() == 0 || seq_eq(h2.as_slice(), null.as_slice()) {
        return None;
    }
    let p = match port {
        Some(p) => chars_of(p.as_str()),
        None => Vec::new(),
    };
    match parse_unsigned_exec(p.as_slice(), 65535) {
        Some(n) => if n == 0 {
            None
        } else {
            Some(url_of(scheme, h2.as_slice(), n))
        },
        None => None,
    }
}

/// `http://host:port` from the reported host and port, when both are usable.
pub fn assemble_http_url(host: &Option<String>, port: &Option<String>) -> (r: Option<String>)
    ensures
        opt_str(r) == proxy_url("http://"@, opt_str(*host), opt_str(*port)),
{
    assemble_url("http://", host, port)
}

/// `socks5://host:port` from the reported host and port, when both are usable.
pub fn assemble_socks_url(host: &Option<String>, port: &Option<String>) -> (r: Option<String>)
    ensures
        opt_str(r) == proxy_url("socks5://"@, opt_str(*host), opt_str(*port)),
{
    assemble_url("socks5://", host, port)
}

fn is_one(v: &Option<String>) -> (r: bool)
    ensures
        r == (opt_str(*v) == Some("1"@)),
{
    match v {
        Some(s) => {
            let c = chars_of(s.as_str());
            let one = chars_of("1");
            seq_eq(c.as_slice(), one.as_slice())
        },
        None => false,
    }
}

/// Parse the output of `scutil --proxy` and return a proxy URL if enabled.
pub fn parse_scutil_proxy(output: &str) -> (r: Option<String>)
    ensures
        opt_str(r) == scutil_proxy(output@),
{
    let text = chars_of(output);
    let ls = split_lines(text.as_slice());
    let mut pairs: Vec<(Vec<char>, Vec<char>)> = Vec::new();
    let mut i: usize = 0;
    while i < ls.len()
        invariant
            i <= ls@.len(),
            vviews(ls@) == lines(output@),
            kv_views(pairs@) == scutil_pairs(vviews(ls@).take(i as int)),
        decreases ls.len() - i,
    {
        assert(vviews(ls@).take(i + 1).drop_last() =~= vviews(ls@).take(i as int));
        assert(vviews(ls@).take(i + 1).last() == ls@[i as int]@);
        match scutil_entry_exec(ls[i].as_slice()) {
            Some(kv) => {
                let ghost before = kv_views(pairs@);
                let ghost kvv = (kv.0@, kv.1@);
                pairs.push(kv);
                assert(kv_views(pairs@) =~= before.push(kvv));
            },
            None => {},
        }
        i += 1;
    }
    assert(vviews(ls@).take(ls.len() as int) =~= vviews(ls@));
    let https_on = lookup_exec(&pairs, "HTTPSEnable");
    if is_one(&https_on) {
        let u = assemble_http_url(&lookup_exec(&pairs, "HTTPSProxy"), &lookup_exec(&pairs, "HTTPSPort"));
        if u.is_some() {
            return u;
        }
    }
    let http_on = lookup_exec(&pairs, "HTTPEnable");
    if is_one(&http_on) {
        let u = assemble_http_url(&lookup_exec(&pairs, "HTTPProxy"), &lookup_exec(&pairs, "HTTPPort"));
        if u.is_some() {
            return u;
        }
    }
    let socks_on = lookup_exec(&pairs, "SOCKSEnable");
    if is_one(&socks_on) {
        let u = assemble_socks_url(&lookup_exec(&pairs, "SOCKSProxy"), &lookup_exec(&pairs, "SOCKSPort"));
        if u.is_some() {
            return u;
        }
    }
    None
}

// ---------------------------------------------------------------- Windows

/// State after the lines read so far of a registry query: whether
/// `ProxyEnable` last read `0x1`, and the last `ProxyServer` value.
pub open spec fn reg_scan(ls: Seq<Seq<char>>) -> (bool, Option<Seq<char>>)
    decreases ls.len(),
{
    if ls.len() == 0 {
        (false, None)
    } else {
        let (en, server) = reg_scan(ls.drop_last());
        let line = trim(ls.last());
        if starts_with(line, "ProxyEnable"@) {
            let ws = words(line.skip("ProxyEnable"@.len() as int));
            (ws.len() > 0 && ws.last() == "0x1"@, server)
        } else if starts_with(line, "ProxyServer"@) {
            let ws = words(line.skip("ProxyServer"@.len() as int));
            if ws.len() >= 2 {
                (en, Some(ws[1]))
            } else {
                (en, server)
            }
        } else {
            (en, server)
        }
    }
}

/// The first piece of `parts` that, trimmed, starts with `key` and has a
/// non-empty rest: that rest.
pub open spec fn first_with_key(parts: Seq<Seq<char>>, key: Seq<char>) -> Option<Seq<char>>
    decreases parts.len(),
{
    if parts.len() == 0 {
        None
    } else {
        let p = trim(parts[0]);
        if starts_with(p, key) && p.len() > key.len() {
            Some(p.skip(key.len() as int))
        } else {
            first_with_key(parts.drop_first(), key)
        }
    }
}

/// The proxy that a `reg query` of the Internet settings reports: none
/// unless enabled; a protocol map (`http=…;https=…;socks=…`) yields the
/// https, else http, else socks entry; a plain `host:port` is HTTP.
pub open spec fn reg_proxy(text: Seq<char>) -> Option<Seq<char>> {
    let (enabled, server) = reg_scan(lines(text));
    if !enabled {
        None
    } else {
        match server {
            None => None,
            Some(raw) => if contains(raw, "="@) {
                let parts = pieces(raw, ';');
                match first_with_key(parts, "https="@) {
                    Some(v) => Some("https://"@ + v),
                    None => match first_with_key(parts, "http="@) {
                        Some(v) => Some("http://"@ + v),
                        None => match first_with_key(parts, "socks="@) {
                            Some(v) => Some("socks://"@ + v),
                            None => None,
                        },
                    },
                }
            } else if raw.len() > 0 {
                Some("http://"@ + raw)
            } else {
                None
            },
        }
    }
}

fn first_with_key_exec(parts: &Vec<Vec<char>>, key: &str) -> (r: Option<Vec<char>>)
    ensures
        match r {
            Some(v) => first_with_key(vviews(parts@), key@) == Some(v@),
            None => first_with_key(vviews(parts@), key@) is None,
        },
{
    let k = chars_of(key);
    let mut i: usize = 0;
    assert(vviews(parts@).skip(0) =~= vviews(parts@));
    while i < parts.len()
        invariant
            i <= parts@.len(),
            k@ == key@,
            first_with_key(vviews(parts@), key@) == first_with_key(vviews(parts@).skip(i as int), key@),
        decreases parts.len() - i,
    {
        let ghost rest = vviews(parts@).skip(i as int);
        assert(rest[0] == parts@[i as int]@);
        assert(rest.drop_first() =~= vviews(parts@).skip(i + 1));
        let p = trimmed(parts[i].as_slice());
        if has_prefix(p.as_slice(), k.as_slice()) && p.len() > k.len() {
            return Some(slice_vec(p.as_slice(), k.len(), p.len()));
        }
        i += 1;
    }
    None
}

fn prefixed(prefix: &str, v: &[char]) -> (r: String)
    ensures
        r@ == prefix@ + v@,
{
    let mut s = String::from_str(prefix);
    let t = string_from(v);
    s.append(t.as_str());
    s
}

/// Parse `reg query "HKCU\...\Internet Settings"` output for the proxy.
/// `ProxyServer` is either `host:port` or a map `http=…;https=…;socks=…`.
pub fn parse_windows_reg_proxy(text: &str) -> (r: Option<String>)
    ensures
        opt_str(r) == reg_proxy(text@),
{
    let t = chars_of(text);
    let ls = split_lines(t.as_slice());
    let enable_key = chars_of("ProxyEnable");
    let server_key = chars_of("ProxyServer");
    let one = chars_of("0x1");
    let mut enabled = false;
    let mut server: Option<Vec<char>> = None;
    let mut i: usize = 0;
    while i < ls.len()
        invariant
            i <= ls@.len(),
            vviews(ls@) == lines(text@),
            enable_key@ == "ProxyEnable"@,
            server_key@ == "ProxyServer"@,
            one@ == "0x1"@,
            reg_scan(vviews(ls@).take(i as int)) == (enabled, match server {
                Some(s) => Some(s@),
                None => None,
            }),
        decreases ls.len() - i,
    {
        assert(vviews(ls@).take(i + 1).drop_last() =~= vviews(ls@).take(i as int));
        assert(vviews(ls@).take(i + 1).last() == ls@[i as int]@);
        let line = trimmed(ls[i].as_slice());
        if has_prefix(line.as_slice(), enable_key.as_slice()) {
            let rest = slice_vec(line.as_slice(), enable_key.len(), line.len());
            assert(rest@ =~= line@.skip("ProxyEnable"@.len() as int));
            let ws = split_words(rest.as_slice());
            enabled = ws.len() > 0 && seq_eq(ws[ws.len() - 1].as_slice(), one.as_slice());
            proof {
                if ws@.len() > 0 {
                    assert(vviews(ws@).last() == ws@[ws@.len() - 1]@);
                }
            }
        } else if has_prefix(line.as_slice(), server_key.as_slice()) {
            let rest = slice_vec(line.as_slice(), server_key.len(), line.len());
            assert(rest@ =~= line@.skip("ProxyServer"@.len() as int));
            let ws = split_words(rest.as_slice());
            if ws.len() >= 2 {
                assert(vviews(ws@)[1] == ws@[1]@);
                server = Some(slice_vec(ws[1].as_slice(), 0, ws[1].len()));
                assert(ws@[1]@.subrange(0, ws@[1]@.len() as int) =~= ws@[1]@);
            }
        }
        i += 1;
    }
    assert(vviews(ls@).take(ls.len() as int) =~= vviews(ls@));
    if !enabled {
        return None;
    }
    let raw = match server {
        Some(r) => r,
        None => {
            return None;
        },
    };
    let eq = chars_of("=");
    if contains_seq(raw.as_slice(), eq.as_slice()) {
        let parts = split_on(raw.as_slice(), ';');
        match first_with_key_exec(&parts, "https=") {
            Some(v) => Some(prefixed("https://", v.as_slice())),
            None => match first_with_key_exec(&parts, "http=") {
                Some(v) => Some(prefixed("http://", v.as_slice())),
                None => match first_with_key_exec(&parts, "socks=") {
                    Some(v) => Some(prefixed("socks://", v.as_slice())),
                    None => None,
                },
            },
        }
    } else if raw.len() > 0 {
        Some(prefixed("http://", raw.as_slice()))
    } else {
        None
    }
}

// -------------------------------------------------------------- settings

/// The proxy the settings ask for: none for direct connections, the trimmed
/// manual URL (none when empty), or what the system reports (`system`,
/// as detected on this machine).
pub open spec fn chosen_proxy(mode: ProxyMode, manual: Seq<char>, system: Option<Seq<char>>) -> Option<Seq<char>> {
    match mode {
        ProxyMode::Direct => None,
        ProxyMode::Manual => if trim(manual).len() == 0 {
            None
        } else {
            Some(trim(manual))
        },
        ProxyMode::System => system,
    }
}

/// Resolve the effective proxy URL for the settings (none = direct);
/// `system` is the system proxy detected on this machine.
pub fn effective_proxy(cfg: &Config, system: Option<String>) -> (r: Option<String>)
    ensures
        opt_str(r) == chosen_proxy(cfg.proxy_mode, cfg.proxy_url@, opt_str(system)),
{
    match cfg.proxy_mode {
        ProxyMode::Direct => None,
        ProxyMode::Manual => {
            let u = chars_of(cfg.proxy_url.as_str());
            let t = trimmed(u.as_slice());
            if t.len() == 0 {
                None
            } else {
                Some(string_from(t.as_slice()))
            }
        },
        ProxyMode::System => system,
    }
}

/// The first usable proxy among environment variable values, in the order
/// they were looked up: the first one that is non-empty once trimmed.
pub open spec fn env_proxy(values: Seq<Option<Seq<char>>>) -> Option<Seq<char>>
    decreases values.len(),
{
    if values.len() == 0 {
        None
    } else {
        match values[0] {
            Some(v) => if trim(v).len() > 0 {
                Some(trim(v))
            } else {
                env_proxy(values.drop_first())
            },
            None => env_proxy(values.drop_first()),
        }
    }
}

pub open spec fn opt_views(v: Seq<Option<String>>) -> Seq<Option<Seq<char>>> {
    Seq::new(v.len(), |i: int| opt_str(v[i]))
}

/// The proxy of the conventional environment variables, given their values
/// in lookup order (`https_proxy`, `HTTPS_PROXY`, `all_proxy`, `ALL_PROXY`,
/// `http_proxy`, `HTTP_PROXY`).
pub fn proxy_from_env(values: &Vec<Option<String>>) -> (r: Option<String>)
    ensures
        opt_str(r) == env_proxy(opt_views(values@)),
{
    let mut i: usize = 0;
    assert(opt_views(values@).skip(0) =~= opt_views(values@));
    while i < values.len()
        invariant
            i <= values@.len(),
            env_proxy(opt_views(values@)) == env_proxy(opt_views(values@).skip(i as int)),
        decreases values.len() - i,
    {
        let ghost rest = opt_views(values@).skip(i as int);
        assert(rest[0] == opt_str(values@[i as int]));
        assert(rest.drop_first() =~= opt_views(values@).skip(i + 1));
        match &values[i] {
            Some(v) => {
                let c = chars_of(v.as_str());
                let t = trimmed(c.as_slice());
                if t.len() > 0 {
                    return Some(string_from(t.as_slice()));
                }
            },
            None => {},
        }
        i += 1;
    }
    None
}

} // verus!
