//! The decisions behind the front end's commands: settings changes, the
//! recent-search list, cache locations, batch downloads, log tails.
use vstd::prelude::*;
use crate::text::{chars_of, string_from, seq_eq, starts_with, has_prefix, contains, contains_seq, lines, split_lines, vviews, decimal, decimal_exec};
use crate::config::{Config, Aria2Config, DownloadDestination, ProxyMode, opt_str, str_views};

verus! {

/// The settings as saved: saving LM Studio as the destination turns on
/// scanning its directory.
pub fn normalize_config(config: Config) -> (r: Config)
    ensures
        r.scan_lm_studio == (config.scan_lm_studio || config.download_destination == DownloadDestination::LmStudio),
        r.download_destination == config.download_destination,
        r.download_dir == config.download_dir,
        r.proxy_mode == config.proxy_mode,
        r.proxy_url == config.proxy_url,
        r.aria2 == config.aria2,
        r.source == config.source,
        r.hf_token == config.hf_token,
        r.modelscope_token == config.modelscope_token,
        r.search_paths == config.search_paths,
        r.scan_hf_cache == config.scan_hf_cache,
        r.scan_modelscope_cache == config.scan_modelscope_cache,
        r.recent_searches == config.recent_searches,
        r.suggest_queries == config.suggest_queries,
        r.theme == config.theme,
{
    let mut c = config;
    if c.download_destination == DownloadDestination::LmStudio {
        c.scan_lm_studio = true;
    }
    c
}

pub open spec fn same_engine(a: Aria2Config, b: Aria2Config) -> bool {
    a.enabled == b.enabled && a.max_connection_per_server == b.max_connection_per_server && a.split == b.split
        && a.min_split_size@ == b.min_split_size@ && a.max_concurrent_downloads == b.max_concurrent_downloads
}

/// The running download engine must restart when its options, the library
/// directory, the proxy or the destination change.
pub open spec fn engine_affected(old: Config, new: Config) -> bool {
    !same_engine(old.aria2, new.aria2) || old.download_dir@ != new.download_dir@ || old.proxy_mode
        != new.proxy_mode || old.proxy_url@ != new.proxy_url@ || old.download_destination != new.download_destination
}

/// The HTTP client must be rebuilt when the proxy settings change.
pub open spec fn proxy_affected(old: Config, new: Config) -> bool {
    old.proxy_mode != new.proxy_mode || old.proxy_url@ != new.proxy_url@
}

fn text_eq(a: &String, b: &String) -> (r: bool)
    ensures
        r == (a@ == b@),
{
    let x = chars_of(a.as_str());
    let y = chars_of(b.as_str());
    seq_eq(x.as_slice(), y.as_slice())
}

/// What a settings change affects: (the engine must restart, the HTTP
/// client must be rebuilt).
pub fn config_changes(old: &Config, new: &Config) -> (r: (bool, bool))
    ensures
        r.0 == engine_affected(*old, *new),
        r.1 == proxy_affected(*old, *new),
{
    let a = &old.aria2;
    let b = &new.aria2;
    let same = a.enabled == b.enabled && a.max_connection_per_server == b.max_connection_per_server
        && a.split == b.split && text_eq(&a.min_split_size, &b.min_split_size)
        && a.max_concurrent_downloads == b.max_concurrent_downloads;
    let proxy = old.proxy_mode != new.proxy_mode || !text_eq(&old.proxy_url, &new.proxy_url);
    let engine = !same || !text_eq(&old.download_dir, &new.download_dir) || proxy
        || old.download_destination != new.download_destination;
    (engine, proxy)
}

// ---------------------------------------------------------------- searches

/// How many results a search asks for: 30 by default, at most 50.
pub fn search_limit(limit: Option<u32>) -> (r: u32)
    ensures
        r == match limit {
            Some(n) => if n < 50 { n } else { 50 },
            None => 30,
        },
{
    let n = match limit {
        Some(n) => n,
        None => 30,
    };
    if n < 50 {
        n
    } else {
        50
    }
}

/// Every search but `q`.
pub open spec fn other_than(q: Seq<char>) -> spec_fn(Seq<char>) -> bool {
    |s: Seq<char>| s != q
}

/// The recent searches after searching `q`: `q` first, the earlier ones
/// without `q` after it, eight at most.
pub open spec fn after_search(recent: Seq<Seq<char>>, q: Seq<char>) -> Seq<Seq<char>> {
    let kept = recent.filter(other_than(q));
    let all = seq![q] + kept;
    if all.len() > 8 {
        all.take(8)
    } else {
        all
    }
}

/// Record the successful search `q` as the most recent one.
pub fn record_search(recent: &mut Vec<String>, q: &String)
    ensures
        str_views(final(recent)@) == after_search(str_views(old(recent)@), q@),
{
    let ghost orig = str_views(recent@);
    let mut kept: Vec<String> = Vec::new();
    kept.push(q.clone());
    let mut i: usize = 0;
    while i < recent.len()
        invariant
            i <= recent@.len(),
            orig == str_views(recent@),
            str_views(kept@) == seq![q@] + orig.take(i as int).filter(other_than(q@)),
        decreases recent.len() - i,
    {
        assert(orig.take(i + 1).drop_last() =~= orig.take(i as int));
        assert(orig.take(i + 1).last() == recent@[i as int]@);
        proof {
            orig.take(i as int).lemma_filter_push(recent@[i as int]@, other_than(q@));
            assert(orig.take(i as int).push(recent@[i as int]@) =~= orig.take(i + 1));
        }
        if !text_eq(&recent[i], q) {
            let ghost before = str_views(kept@);
            kept.push(recent[i].clone());
            assert(str_views(kept@) =~= before.push(recent@[i as int]@));
        }
        i += 1;
    }
    assert(orig.take(recent.len() as int) =~= orig);
    if kept.len() > 8 {
        kept.truncate(8);
    }
    proof {
        let want = after_search(orig, q@);
        assert(str_views(kept@) =~= want);
    }
    *recent = kept;
}

/// Note the search `q` that found `found` models: only a non-empty search
/// that found something becomes the most recent one.
pub fn note_search(recent: &mut Vec<String>, q: &String, found: usize)
    ensures
        str_views(final(recent)@) == if found > 0 && q@.len() > 0 {
            after_search(str_views(old(recent)@), q@)
        } else {
            str_views(old(recent)@)
        },
{
    if found > 0 && !q.as_str().is_empty() {
        record_search(recent, q);
    }
}

/// After a search it is the most recent one and is listed once; at most
/// eight searches are kept, all of them earlier searches or this one.
pub proof fn lemma_recent_search(recent: Seq<Seq<char>>, q: Seq<char>)
    ensures
        after_search(recent, q).len() >= 1,
        after_search(recent, q).len() <= 8,
        after_search(recent, q)[0] == q,
        forall|i: int| 1 <= i < after_search(recent, q).len() ==> #[trigger] after_search(recent, q)[i] != q,
        forall|i: int| 0 <= i < after_search(recent, q).len() ==> #[trigger] after_search(recent, q)[i] == q || recent.contains(after_search(recent, q)[i]),
{
    let pred = other_than(q);
    let kept = recent.filter(pred);
    let all = seq![q] + kept;
    assert forall|i: int| 0 <= i < kept.len() implies #[trigger] kept[i] != q && recent.contains(kept[i]) by {
        assert(kept.contains(kept[i]));
        recent.lemma_filter_contains_rev(pred, kept[i]);
        recent.lemma_filter_pred(pred, i);
    }
    let r = after_search(recent, q);
    assert forall|i: int| 1 <= i < r.len() implies #[trigger] r[i] != q && recent.contains(r[i]) by {
        assert(r[i] == all[i]);
        assert(all[i] == kept[i - 1]);
    }
    assert(r[0] == all[0]);
}

// ----------------------------------------------------------- cache places

/// One model location for the settings page.
#[derive(Debug)]
pub struct CachePathInfo {
    pub label: String,
    pub path: String,
    pub exists: bool,
    pub scanned: bool,
}

/// Whether the location with this label is scanned for models.
pub open spec fn label_scanned(label: Seq<char>, cfg: Config) -> bool {
    if label == "LalaLM Library"@ {
        true
    } else if label == "Hugging Face Cache"@ {
        cfg.scan_hf_cache
    } else if label == "LM Studio Models"@ || label == "LM Studio (legacy)"@ {
        cfg.scan_lm_studio
    } else if label == "ModelScope Cache"@ {
        cfg.scan_modelscope_cache
    } else if label == "Custom Path"@ {
        true
    } else {
        false
    }
}

fn is_label(label: &String, lit: &str) -> (r: bool)
    ensures
        r == (label@ == lit@),
{
    let a = chars_of(label.as_str());
    let b = chars_of(lit);
    seq_eq(a.as_slice(), b.as_slice())
}

pub fn scanned_for(label: &String, cfg: &Config) -> (r: bool)
    ensures
        r == label_scanned(label@, *cfg),
{
    if is_label(label, "LalaLM Library") {
        true
    } else if is_label(label, "Hugging Face Cache") {
        cfg.scan_hf_cache
    } else if is_label(label, "LM Studio Models") || is_label(label, "LM Studio (legacy)") {
        cfg.scan_lm_studio
    } else if is_label(label, "ModelScope Cache") {
        cfg.scan_modelscope_cache
    } else if is_label(label, "Custom Path") {
        true
    } else {
        false
    }
}

/// The settings page's locations: each known location with whether it
/// exists (`exists[i]`, as the file system says) and whether it is scanned.
pub fn cache_path_infos(places: Vec<(String, String)>, exists: &Vec<bool>, cfg: &Config) -> (r: Vec<CachePathInfo>)
    requires
        exists@.len() == places@.len(),
    ensures
        r@.len() == places@.len(),
        forall|i: int| 0 <= i < places@.len() ==> {
            &&& (#[trigger] r@[i]).label@ == places@[i].0@
            &&& r@[i].path@ == places@[i].1@
            &&& r@[i].exists == exists@[i]
            &&& r@[i].scanned == label_scanned(places@[i].0@, *cfg)
        },
{
    let ghost ps = places@;
    let n = exists.len();
    let mut rest = places;
    let mut out: Vec<CachePathInfo> = Vec::new();
    let mut i: usize = 0;
    while rest.len() > 0
        invariant
            i + rest@.len() == ps.len(),
            exists@.len() == ps.len(),
            n == exists@.len(),
            rest@ == ps.subrange(i as int, ps.len() as int),
            out@.len() == i,
            forall|k: int| 0 <= k < i ==> {
                &&& (#[trigger] out@[k]).label@ == ps[k].0@
                &&& out@[k].path@ == ps[k].1@
                &&& out@[k].exists == exists@[k]
                &&& out@[k].scanned == label_scanned(ps[k].0@, *cfg)
            },
        decreases rest.len(),
    {
        let (label, path) = rest.remove(0);
        let scanned = scanned_for(&label, cfg);
        out.push(CachePathInfo { label, path, exists: exists[i], scanned });
        i += 1;
    }
    out
}

/// One entry of the curated list of recommended models.
#[derive(Debug)]
pub struct RecommendedItem {
    pub source: crate::config::Source,
    pub repo: String,
    pub category: String,
    pub note: String,
    pub tags: Vec<String>,
    /// Restricts the entry to a platform, e.g. `macos` (MLX entries).
    pub platform: Option<String>,
}

// --------------------------------------------------------- batch downloads

/// Message of an empty batch.
pub open spec fn empty_batch_message() -> Seq<char> {
    "没有可下载的文件"@
}

/// Marker of a refusal because the file is already downloading.
pub open spec fn duplicate_marker() -> Seq<char> {
    "已有进行中的下载任务"@
}

pub open spec fn res_view(r: Result<(), String>) -> Result<(), Seq<char>> {
    match r {
        Ok(_) => Ok(()),
        Err(e) => Err(e@),
    }
}

/// How many of the starts succeeded.
pub open spec fn started_count(rs: Seq<Result<(), Seq<char>>>) -> nat
    decreases rs.len(),
{
    if rs.len() == 0 {
        0
    } else {
        started_count(rs.drop_last()) + if rs.last() is Ok { 1nat } else { 0nat }
    }
}

/// The first failure that is not a duplicate, as `path: error`.
pub open spec fn first_failure(paths: Seq<Seq<char>>, rs: Seq<Result<(), Seq<char>>>, i: int) -> Option<Seq<char>>
    decreases rs.len() - i,
{
    if i < 0 || i >= rs.len() {
        None
    } else {
        match rs[i] {
            Err(e) => if !contains(e, duplicate_marker()) {
                Some(paths[i] + ": "@ + e)
            } else {
                first_failure(paths, rs, i + 1)
            },
            Ok(_) => first_failure(paths, rs, i + 1),
        }
    }
}

/// The answer to a batch of downloads, `results[i]` being how starting
/// `paths[i]` went: the number started; an error when the batch is empty,
/// or when nothing started (the first failure that is not a duplicate, else
/// a generic failure).
pub fn batch_outcome(paths: &Vec<String>, results: &Vec<Result<(), String>>) -> (r: Result<usize, String>)
    requires
        results@.len() == paths@.len(),
    ensures
        ({
            let rs = Seq::new(results@.len(), |i: int| res_view(results@[i]));
            if paths@.len() == 0 {
                r matches Err(e) && e@ == empty_batch_message()
            } else if started_count(rs) == 0 {
                r matches Err(e) && e@ == match first_failure(str_views(paths@), rs, 0) {
                    Some(m) => m,
                    None => "下载失败"@,
                }
            } else {
                r matches Ok(n) && n == started_count(rs)
            }
        }),
{
    let ghost rs = Seq::new(results@.len(), |i: int| res_view(results@[i]));
    if paths.len() == 0 {
        return Err(String::from_str("没有可下载的文件"));
    }
    let marker = chars_of("已有进行中的下载任务");
    let mut started: usize = 0;
    let mut i: usize = 0;
    while i < results.len()
        invariant
            i <= results@.len(),
            rs == Seq::new(results@.len(), |i: int| res_view(results@[i])),
            started == started_count(rs.take(i as int)),
            started <= i,
        decreases results.len() - i,
    {
        assert(rs.take(i + 1).drop_last() =~= rs.take(i as int));
        assert(rs.take(i + 1).last() == res_view(results@[i as int]));
        if results[i].is_ok() {
            started += 1;
        }
        i += 1;
    }
    assert(rs.take(results.len() as int) =~= rs);
    if started > 0 {
        return Ok(started);
    }
    let mut k: usize = 0;
    while k < results.len()
        invariant
            k <= results@.len(),
            results@.len() == paths@.len(),
            marker@ == duplicate_marker(),
            paths@.len() > 0,
            started_count(rs) == 0,
            rs == Seq::new(results@.len(), |i: int| res_view(results@[i])),
            first_failure(str_views(paths@), rs, 0) == first_failure(str_views(paths@), rs, k as int),
        decreases results.len() - k,
    {
        assert(rs[k as int] == res_view(results@[k as int]));
        match &results[k] {
            Err(e) => {
                let ec = chars_of(e.as_str());
                if !contains_seq(ec.as_slice(), marker.as_slice()) {
                    assert(str_views(paths@)[k as int] == paths@[k as int]@);
                    let mut m = paths[k].clone();
                    m.append(": ");
                    m.append(e.as_str());
                    return Err(m);
                }
            },
            Ok(_) => {},
        }
        k += 1;
    }
    Err(String::from_str("下载失败"))
}

// ------------------------------------------------------------------- misc

/// Only web links may be opened.
pub open spec fn is_web_link(url: Seq<char>) -> bool {
    starts_with(url, "http://"@) || starts_with(url, "https://"@)
}

pub fn is_http_url(url: &str) -> (r: bool)
    ensures
        r == is_web_link(url@),
{
    let u = chars_of(url);
    let a = chars_of("http://");
    let b = chars_of("https://");
    has_prefix(u.as_slice(), a.as_slice()) || has_prefix(u.as_slice(), b.as_slice())
}

/// Lines joined by `\n`.
pub open spec fn joined_lines(ls: Seq<Seq<char>>) -> Seq<char>
    decreases ls.len(),
{
    if ls.len() == 0 {
        Seq::empty()
    } else if ls.len() == 1 {
        ls[0]
    } else {
        joined_lines(ls.drop_last()) + "\n"@ + ls.last()
    }
}

/// The last `n` lines of a log (200 by default, at least 1) under a header
/// that counts all lines and the lines shown.
pub open spec fn log_view(text: Seq<char>, n: Option<u32>) -> Seq<char> {
    let want = match n {
        Some(k) => if k < 1 { 1 } else { k as int },
        None => 200,
    };
    let ls = lines(text);
    let total = ls.len() as int;
    let start = if total > want { total - want } else { 0 };
    "-- 共 "@ + decimal(total as nat) + " 行，显示最后 "@ + decimal((total - start) as nat) + " 行 --\n"@
        + joined_lines(ls.skip(start))
}

pub fn log_tail(text: &str, n: Option<u32>) -> (r: String)
    ensures
        r@ == log_view(text@, n),
{
    let want: usize = match n {
        Some(k) => if k < 1 {
            1
        } else {
            k as usize
        },
        None => 200,
    };
    let t = chars_of(text);
    let ls = split_lines(t.as_slice());
    let total = ls.len();
    let start = if total > want {
        total - want
    } else {
        0
    };
    let ghost tail = vviews(ls@).skip(start as int);
    let mut body: Vec<char> = Vec::new();
    let mut i = start;
    proof {
        reveal_strlit("\n");
    }
    while i < total
        invariant
            start <= i <= total,
            total == ls@.len(),
            tail == vviews(ls@).skip(start as int),
            body@ == joined_lines(tail.take(i - start)),
        decreases total - i,
    {
        let ghost prev = body@;
        assert(tail.take(i - start + 1).drop_last() =~= tail.take(i - start));
        assert(tail.take(i - start + 1).last() == ls@[i as int]@);
        if i > start {
            body.push('\n');
        }
        let l = &ls[i];
        let ghost mid = body@;
        let mut j: usize = 0;
        while j < l.len()
            invariant
                j <= l@.len(),
                body@ == mid + l@.take(j as int),
            decreases l.len() - j,
        {
            body.push(l[j]);
            assert(body@ =~= mid + l@.take(j + 1));
            j += 1;
        }
        proof {
            assert(l@.take(l@.len() as int) =~= l@);
            if i == start {
                assert(mid =~= Seq::<char>::empty());
                assert(body@ =~= tail.take(1)[0]);
            } else {
                reveal_strlit("\n");
                assert(mid =~= prev + "\n"@);
                assert(body@ =~= joined_lines(tail.take(i - start)) + "\n"@ + l@);
            }
        }
        i += 1;
    }
    assert(tail.take(total - start) =~= tail);
    let mut out = String::from_str("-- 共 ");
    let d1 = decimal_exec(total as u64);
    out.append(string_from(d1.as_slice()).as_str());
    out.append(" 行，显示最后 ");
    let d2 = decimal_exec((total - start) as u64);
    out.append(string_from(d2.as_slice()).as_str());
    out.append(" 行 --\n");
    out.append(string_from(body.as_slice()).as_str());
    out
}

} // verus!
