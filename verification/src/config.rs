//! Application settings: model sources, proxy and destination choices,
//! download-engine options, and what is read from LM Studio's own settings.
use vstd::prelude::*;
use vstd::utf8::{encode_utf8, valid_utf8, decode_utf8};
use crate::text::{push_char, hex_upper, hex_upper_exec, trim, trimmed, is_ws, is_ws_char, has_at, match_at, chars_of, string_from, starts_with};

verus! {

/// A model hub.
#[derive(Debug, Clone, Copy, PartialEq, Eq, Structural)]
pub enum Source {
    HuggingFace,
    HfMirror,
    ModelScope,
}

impl Default for Source {
    fn default() -> (r: Source)
        ensures
            r == Source::HuggingFace,
    {
        Source::HuggingFace
    }
}

/// UI appearance: follow the OS, or force dark / light.
#[derive(Debug, Clone, Copy, PartialEq, Eq, Structural)]
pub enum ThemeMode {
    System,
    Dark,
    Light,
}

impl Default for ThemeMode {
    fn default() -> (r: ThemeMode)
        ensures
            r == ThemeMode::System,
    {
        ThemeMode::System
    }
}

/// Proxy behavior: follow the system proxy (default), connect directly, or
/// use a manually given proxy URL.
#[derive(Debug, Clone, Copy, PartialEq, Eq, Structural)]
pub enum ProxyMode {
    System,
    Direct,
    Manual,
}

impl Default for ProxyMode {
    fn default() -> (r: ProxyMode)
        ensures
            r == ProxyMode::System,
    {
        ProxyMode::System
    }
}

/// Where new downloads land: the LalaLM library, or straight into the
/// LM Studio models directory (same publisher/model/file layout).
#[derive(Debug, Clone, Copy, PartialEq, Eq, Structural)]
pub enum DownloadDestination {
    Library,
    LmStudio,
}

impl Default for DownloadDestination {
    fn default() -> (r: DownloadDestination)
        ensures
            r == DownloadDestination::Library,
    {
        DownloadDestination::Library
    }
}

pub open spec fn source_label(s: Source) -> Seq<char> {
    match s {
        Source::HuggingFace => "Hugging Face"@,
        Source::HfMirror => "hf-mirror"@,
        Source::ModelScope => "ModelScope"@,
    }
}

pub open spec fn source_api_base(s: Source) -> Seq<char> {
    match s {
        Source::HuggingFace => "https://huggingface.co"@,
        Source::HfMirror => "https://hf-mirror.com"@,
        Source::ModelScope => "https://modelscope.cn"@,
    }
}

/// Direct download URL of `path` in `repo`.
pub open spec fn source_file_url(s: Source, repo: Seq<char>, path_bytes: Seq<u8>) -> Seq<char> {
    match s {
        Source::ModelScope => "https://modelscope.cn/models/"@ + repo + "/resolve/master/"@
            + encoded_path(path_bytes),
        _ => source_api_base(s) + "/"@ + repo + "/resolve/main/"@ + encoded_path(path_bytes),
    }
}

/// `Bearer <token>` for the trimmed token of the hub, none when it is empty.
pub open spec fn source_auth(s: Source, hf_token: Seq<char>, ms_token: Seq<char>) -> Option<Seq<char>> {
    let t = match s {
        Source::ModelScope => trim(ms_token),
        _ => trim(hf_token),
    };
    if t.len() == 0 {
        None
    } else {
        Some("Bearer "@ + t)
    }
}

impl Source {
    pub fn label(&self) -> (r: &'static str)
        ensures
            r@ == source_label(*self),
    {
        match self {
            Source::HuggingFace => "Hugging Face",
            Source::HfMirror => "hf-mirror",
            Source::ModelScope => "ModelScope",
        }
    }

    /// Base URL of the hub's REST API and raw files.
    pub fn api_base(&self) -> (r: &'static str)
        ensures
            r@ == source_api_base(*self),
    {
        match self {
            Source::HuggingFace => "https://huggingface.co",
            Source::HfMirror => "https://hf-mirror.com",
            Source::ModelScope => "https://modelscope.cn",
        }
    }

    /// Direct download URL for a single file inside a repository.
    pub fn file_url(&self, repo: &str, path: &str) -> (r: String)
        ensures
            r@ == source_file_url(*self, repo@, encode_utf8(path@)),
    {
        let enc = encode_path(path);
        match self {
            Source::ModelScope => {
                let mut s = String::from_str("https://modelscope.cn/models/");
                s.append(repo);
                s.append("/resolve/master/");
                s.append(enc.as_str());
                s
            },
            _ => {
                let mut s = String::from_str(self.api_base());
                s.append("/");
                s.append(repo);
                s.append("/resolve/main/");
                s.append(enc.as_str());
                s
            },
        }
    }

    /// The `Authorization` header value for this hub, from the settings'
    /// token; none without a token.
    pub fn auth_header(&self, cfg: &Config) -> (r: Option<String>)
        ensures
            opt_str(r) == source_auth(*self, cfg.hf_token@, cfg.modelscope_token@),
    {
        let tok = match self {
            Source::ModelScope => chars_of(cfg.modelscope_token.as_str()),
            _ => chars_of(cfg.hf_token.as_str()),
        };
        let t = trimmed(tok.as_slice());
        if t.len() == 0 {
            None
        } else {
            let mut s = String::from_str("Bearer ");
            let ts = string_from(t.as_slice());
            s.append(ts.as_str());
            Some(s)
        }
    }
}

pub open spec fn opt_str(o: Option<String>) -> Option<Seq<char>> {
    match o {
        Some(s) => Some(s@),
        None => None,
    }
}

// ------------------------------------------------------------ URL encoding

/// Bytes kept as they are in URLs: `A-Z a-z 0-9 - _ . ~`.
pub open spec fn unreserved(b: u8) -> bool {
    (0x41 <= b <= 0x5a) || (0x61 <= b <= 0x7a) || (0x30 <= b <= 0x39) || b == 0x2d || b == 0x5f
        || b == 0x2e || b == 0x7e
}

/// `%XX` with upper-case hex digits.
pub open spec fn pct(b: u8) -> Seq<char> {
    seq!['%', hex_upper((b / 16) as nat), hex_upper((b % 16) as nat)]
}

/// Percent-encoding of a path: unreserved bytes and `/` kept, others `%XX`.
pub open spec fn encoded_path(bytes: Seq<u8>) -> Seq<char>
    decreases bytes.len(),
{
    if bytes.len() == 0 {
        Seq::empty()
    } else {
        let b = bytes.last();
        encoded_path(bytes.drop_last()) + if unreserved(b) || b == 0x2f {
            seq![b as char]
        } else {
            pct(b)
        }
    }
}

/// Form encoding of a value: unreserved bytes kept, space as `+`, others
/// `%XX`.
pub open spec fn form_encoded(bytes: Seq<u8>) -> Seq<char>
    decreases bytes.len(),
{
    if bytes.len() == 0 {
        Seq::empty()
    } else {
        let b = bytes.last();
        form_encoded(bytes.drop_last()) + if unreserved(b) {
            seq![b as char]
        } else if b == 0x20 {
            seq!['+']
        } else {
            pct(b)
        }
    }
}

fn push_pct(s: &mut String, b: u8)
    ensures
        final(s)@ == old(s)@ + pct(b),
{
    push_char(s, '%');
    push_char(s, hex_upper_exec(b / 16));
    push_char(s, hex_upper_exec(b % 16));
    assert(final(s)@ =~= old(s)@ + pct(b));
}

/// Percent-encode a URL path, keeping `/` separators.
pub fn encode_path(p: &str) -> (r: String)
    ensures
        r@ == encoded_path(encode_utf8(p@)),
{
    let bytes = p.as_bytes();
    let mut out = String::new();
    let mut i: usize = 0;
    while i < bytes.len()
        invariant
            i <= bytes@.len(),
            bytes@ == encode_utf8(p@),
            out@ == encoded_path(bytes@.take(i as int)),
        decreases bytes.len() - i,
    {
        let b = bytes[i];
        assert(bytes@.take(i + 1).drop_last() =~= bytes@.take(i as int));
        if unreserved_byte(b) || b == 0x2f {
            let ghost before = out@;
            push_char(&mut out, b as char);
            assert(out@ =~= before + seq![b as char]);
        } else {
            push_pct(&mut out, b);
        }
        i += 1;
    }
    assert(bytes@.take(bytes.len() as int) =~= bytes@);
    out
}

/// Form-encode a value (`application/x-www-form-urlencoded`).
pub fn urlencode(s: &str) -> (r: String)
    ensures
        r@ == form_encoded(encode_utf8(s@)),
{
    let bytes = s.as_bytes();
    let mut out = String::new();
    let mut i: usize = 0;
    while i < bytes.len()
        invariant
            i <= bytes@.len(),
            bytes@ == encode_utf8(s@),
            out@ == form_encoded(bytes@.take(i as int)),
        decreases bytes.len() - i,
    {
        let b = bytes[i];
        assert(bytes@.take(i + 1).drop_last() =~= bytes@.take(i as int));
        let ghost before = out@;
        if unreserved_byte(b) {
            push_char(&mut out, b as char);
            assert(out@ =~= before + seq![b as char]);
        } else if b == 0x20 {
            push_char(&mut out, '+');
            assert(out@ =~= before + seq!['+']);
        } else {
            push_pct(&mut out, b);
        }
        i += 1;
    }
    assert(bytes@.take(bytes.len() as int) =~= bytes@);
    out
}

/// One `key=value` pair of a form query, both sides form-encoded.
pub open spec fn form_pair(k: Seq<char>, v: Seq<char>) -> Seq<char> {
    form_encoded(encode_utf8(k)) + "="@ + form_encoded(encode_utf8(v))
}

/// The pairs joined by `&`.
pub open spec fn form_query(ps: Seq<(Seq<char>, Seq<char>)>) -> Seq<char>
    decreases ps.len(),
{
    if ps.len() == 0 {
        Seq::empty()
    } else if ps.len() == 1 {
        form_pair(ps[0].0, ps[0].1)
    } else {
        form_query(ps.drop_last()) + "&"@ + form_pair(ps.last().0, ps.last().1)
    }
}

pub open spec fn param_views(ps: Seq<(&str, String)>) -> Seq<(Seq<char>, Seq<char>)> {
    Seq::new(ps.len(), |i: int| (ps[i].0@, ps[i].1@))
}

/// A tiny `application/x-www-form-urlencoded` serializer.
pub fn serde_urlencoded(params: &[(&str, String)]) -> (r: String)
    ensures
        r@ == form_query(param_views(params@)),
{
    let mut out = String::new();
    let mut i: usize = 0;
    while i < params.len()
        invariant
            i <= params@.len(),
            out@ == form_query(param_views(params@).take(i as int)),
        decreases params.len() - i,
    {
        let ghost pv = param_views(params@);
        assert(pv.take(i + 1).drop_last() =~= pv.take(i as int));
        assert(pv.take(i + 1).last() == (params@[i as int].0@, params@[i as int].1@));
        if i > 0 {
            out.append("&");
        }
        let k = urlencode(params[i].0);
        let v = urlencode(params[i].1.as_str());
        out.append(k.as_str());
        out.append("=");
        out.append(v.as_str());
        proof {
            if i == 0 {
                assert(pv.take(0) =~= Seq::<(Seq<char>, Seq<char>)>::empty());
                assert(pv.take(1)[0] == pv[0]);
            }
        }
        i += 1;
    }
    assert(param_views(params@).take(params.len() as int) =~= param_views(params@));
    out
}

fn unreserved_byte(b: u8) -> (r: bool)
    ensures
        r == unreserved(b),
{
    (0x41 <= b && b <= 0x5a) || (0x61 <= b && b <= 0x7a) || (0x30 <= b && b <= 0x39) || b == 0x2d
        || b == 0x5f || b == 0x2e || b == 0x7e
}

// ----------------------------------------------------------------- config

/// Options of the aria2 download engine.
#[derive(Debug, Clone, PartialEq)]
pub struct Aria2Config {
    /// When false the app falls back to its internal single-stream downloader.
    pub enabled: bool,
    pub max_connection_per_server: u32,
    pub split: u32,
    pub min_split_size: String,
    pub max_concurrent_downloads: u32,
}

impl Default for Aria2Config {
    fn default() -> (r: Aria2Config)
        ensures
            r.enabled,
            r.max_connection_per_server == 8,
            r.split == 8,
            r.min_split_size@ == "4M"@,
            r.max_concurrent_downloads == 4,
    {
        Aria2Config {
            enabled: true,
            max_connection_per_server: 8,
            split: 8,
            min_split_size: String::from_str("4M"),
            max_concurrent_downloads: 4,
        }
    }
}

/// The application settings. Paths are kept as text.
#[derive(Debug, Clone)]
pub struct Config {
    pub source: Source,
    pub hf_token: String,
    pub modelscope_token: String,
    pub download_dir: String,
    pub search_paths: Vec<String>,
    pub scan_hf_cache: bool,
    pub scan_lm_studio: bool,
    pub scan_modelscope_cache: bool,
    pub recent_searches: Vec<String>,
    pub suggest_queries: Vec<String>,
    pub aria2: Aria2Config,
    pub proxy_mode: ProxyMode,
    pub proxy_url: String,
    pub download_destination: DownloadDestination,
    pub theme: ThemeMode,
}

pub open spec fn str_views(v: Seq<String>) -> Seq<Seq<char>> {
    Seq::new(v.len(), |i: int| v[i]@)
}

/// The search suggestions offered before the user has searched.
pub open spec fn suggestions() -> Seq<Seq<char>> {
    seq![
        "llama 3 gguf"@,
        "qwen2.5 gguf"@,
        "deepseek-r1 gguf"@,
        "phi-4 gguf"@,
        "gemma 2 gguf"@,
        "mistral gguf"@,
        "embedding bge gguf"@,
    ]
}

pub fn default_suggestions() -> (r: Vec<String>)
    ensures
        str_views(r@) == suggestions(),
{
    let r = vec![
        String::from_str("llama 3 gguf"),
        String::from_str("qwen2.5 gguf"),
        String::from_str("deepseek-r1 gguf"),
        String::from_str("phi-4 gguf"),
        String::from_str("gemma 2 gguf"),
        String::from_str("mistral gguf"),
        String::from_str("embedding bge gguf"),
    ];
    assert(str_views(r@) =~= suggestions());
    r
}

/// What `Path::join` gives for these two paths, as text. Named: it follows
/// the platform's separator and absolute-path rules.
pub uninterp spec fn joined(base: Seq<char>, part: Seq<char>) -> Seq<char>;

/// Calls `Path::join` on the two paths and reads the result back as text
/// (`to_string_lossy`, exact for the UTF-8 text given here). The result is
/// named, not described.
#[verifier::external_body]
pub(crate) fn path_join(base: &str, part: &str) -> (r: String)
    ensures
        r@ == joined(base@, part@),
{
    std::path::Path::new(base).join(part).to_string_lossy().into_owned()
}

impl Config {
    /// The default settings for a user whose home directory is `home`:
    /// library under `<home>/.lalalm/models`, every cache scanned, the
    /// standard suggestions, default engine options.
    pub fn default(home: &str) -> (r: Config)
        ensures
            r.source == Source::HuggingFace,
            r.hf_token@ == Seq::<char>::empty(),
            r.modelscope_token@ == Seq::<char>::empty(),
            r.download_dir@ == joined(joined(home@, ".lalalm"@), "models"@),
            r.search_paths@.len() == 0,
            r.scan_hf_cache && r.scan_lm_studio && r.scan_modelscope_cache,
            r.recent_searches@.len() == 0,
            str_views(r.suggest_queries@) == suggestions(),
            r.aria2.enabled && r.aria2.max_connection_per_server == 8 && r.aria2.split == 8
                && r.aria2.min_split_size@ == "4M"@ && r.aria2.max_concurrent_downloads == 4,
            r.proxy_mode == ProxyMode::System,
            r.proxy_url@ == Seq::<char>::empty(),
            r.download_destination == DownloadDestination::Library,
            r.theme == ThemeMode::System,
    {
        let lib = path_join(home, ".lalalm");
        let dir = path_join(lib.as_str(), "models");
        Config {
            source: Source::default(),
            hf_token: String::new(),
            modelscope_token: String::new(),
            download_dir: dir,
            search_paths: Vec::new(),
            scan_hf_cache: true,
            scan_lm_studio: true,
            scan_modelscope_cache: true,
            recent_searches: Vec::new(),
            suggest_queries: default_suggestions(),
            aria2: Aria2Config::default(),
            proxy_mode: ProxyMode::default(),
            proxy_url: String::new(),
            download_destination: DownloadDestination::default(),
            theme: ThemeMode::default(),
        }
    }
}

/// Where the settings are kept in the application's data directory.
pub fn config_path(app_data: &str) -> (r: String)
    ensures
        r@ == joined(app_data@, "config.json"@),
{
    path_join(app_data, "config.json")
}

/// The base directory downloads go to: the library directory, or the
/// LM Studio models directory (`lm_studio_dir`, resolved on this machine).
pub fn effective_download_root(cfg: &Config, lm_studio_dir: &str) -> (r: String)
    ensures
        r@ == match cfg.download_destination {
            DownloadDestination::Library => cfg.download_dir@,
            DownloadDestination::LmStudio => lm_studio_dir@,
        },
{
    match cfg.download_destination {
        DownloadDestination::Library => cfg.download_dir.clone(),
        DownloadDestination::LmStudio => String::from_str(lm_studio_dir),
    }
}

/// Where LM Studio's models directory may be, in order of preference: the
/// `LM_STUDIO_MODELS_DIR` override (`env`, trimmed), the `downloadsFolder`
/// of LM Studio's settings (`found`), the default `<home>/.lmstudio/models`,
/// the legacy `<home>/.cache/lm-studio/models`.
pub open spec fn lm_studio_places(home: Seq<char>, env: Option<Seq<char>>, found: Option<Seq<char>>) -> Seq<Seq<char>> {
    let a = match env {
        Some(v) => seq![trim(v)],
        None => Seq::empty(),
    };
    let b = match found {
        Some(f) => seq![f],
        None => Seq::empty(),
    };
    a + b + seq![joined(joined(home, ".lmstudio"@), "models"@), joined(home, ".cache/lm-studio/models"@)]
}

pub fn lm_studio_candidates(home: &str, env: Option<&str>, found: Option<String>) -> (r: Vec<String>)
    ensures
        str_views(r@) == lm_studio_places(home@, match env {
            Some(v) => Some(v@),
            None => None,
        }, opt_str(found)),
{
    let mut v: Vec<String> = Vec::new();
    match env {
        Some(e) => {
            let c = chars_of(e);
            let t = trimmed(c.as_slice());
            v.push(string_from(t.as_slice()));
        },
        None => {},
    }
    match found {
        Some(f) => v.push(f),
        None => {},
    }
    let lib = path_join(home, ".lmstudio");
    v.push(path_join(lib.as_str(), "models"));
    v.push(path_join(home, ".cache/lm-studio/models"));
    proof {
        let want = lm_studio_places(home@, match env {
            Some(x) => Some(x@),
            None => None,
        }, opt_str(found));
        assert(str_views(v@) =~= want);
    }
    v
}

/// Index of the first of `places` (but the last) that is a directory
/// (`is_dir`), else the last one.
pub open spec fn first_dir_index(is_dir: Seq<bool>, n: int, i: int) -> int
    decreases n - i,
{
    if i >= n - 1 {
        n - 1
    } else if is_dir[i] {
        i
    } else {
        first_dir_index(is_dir, n, i + 1)
    }
}

/// LM Studio's models directory on this machine: the first of the places
/// (`lm_studio_candidates`) that is a directory (`is_dir[i]`, as the file
/// system says), the last place when none of the others is.
pub fn choose_lm_studio_dir(places: &Vec<String>, is_dir: &Vec<bool>) -> (r: String)
    requires
        places@.len() > 0,
        is_dir@.len() == places@.len(),
    ensures
        r@ == places@[first_dir_index(is_dir@, places@.len() as int, 0)]@,
{
    let n = places.len();
    let mut i: usize = 0;
    while i + 1 < n && !is_dir[i]
        invariant
            n == places@.len(),
            is_dir@.len() == n,
            n > 0,
            i < n,
            first_dir_index(is_dir@, n as int, 0) == first_dir_index(is_dir@, n as int, i as int),
        decreases n - i,
    {
        i += 1;
    }
    places[i].clone()
}

pub open spec fn pair_views(v: Seq<(String, String)>) -> Seq<(Seq<char>, Seq<char>)> {
    Seq::new(v.len(), |i: int| (v[i].0@, v[i].1@))
}

/// The well-known model locations, with their display names: the library,
/// the Hugging Face cache, LM Studio's directory and its legacy place, the
/// ModelScope cache, llama.cpp's models, then every custom search path.
pub open spec fn cache_locations(cfg: Config, home: Seq<char>, lm_studio_dir: Seq<char>) -> Seq<(Seq<char>, Seq<char>)> {
    seq![
        ("LalaLM Library"@, cfg.download_dir@),
        ("Hugging Face Cache"@, joined(home, ".cache/huggingface/hub"@)),
        ("LM Studio Models"@, lm_studio_dir),
        ("LM Studio (legacy)"@, joined(home, ".cache/lm-studio/models"@)),
        ("ModelScope Cache"@, joined(home, ".cache/modelscope/hub"@)),
        ("llama.cpp (custom)"@, joined(home, ".llama.cpp/models"@)),
    ] + Seq::new(cfg.search_paths@.len(), |i: int| ("Custom Path"@, cfg.search_paths@[i]@))
}

/// Well-known model cache locations on this machine; `home` is the home
/// directory and `lm_studio_dir` LM Studio's resolved models directory.
pub fn known_cache_paths(cfg: &Config, home: &str, lm_studio_dir: &str) -> (r: Vec<(String, String)>)
    ensures
        pair_views(r@) == cache_locations(*cfg, home@, lm_studio_dir@),
{
    let mut v: Vec<(String, String)> = Vec::new();
    v.push((String::from_str("LalaLM Library"), cfg.download_dir.clone()));
    v.push((String::from_str("Hugging Face Cache"), path_join(home, ".cache/huggingface/hub")));
    v.push((String::from_str("LM Studio Models"), String::from_str(lm_studio_dir)));
    v.push((String::from_str("LM Studio (legacy)"), path_join(home, ".cache/lm-studio/models")));
    v.push((String::from_str("ModelScope Cache"), path_join(home, ".cache/modelscope/hub")));
    v.push((String::from_str("llama.cpp (custom)"), path_join(home, ".llama.cpp/models")));
    let ghost fixed = pair_views(v@);
    assert(fixed =~= cache_locations(*cfg, home@, lm_studio_dir@).take(6));
    let mut i: usize = 0;
    while i < cfg.search_paths.len()
        invariant
            i <= cfg.search_paths@.len(),
            v@.len() == 6 + i,
            fixed == cache_locations(*cfg, home@, lm_studio_dir@).take(6),
            forall|k: int| 0 <= k < 6 ==> #[trigger] pair_views(v@)[k] == fixed[k],
            forall|k: int| 0 <= k < i ==> #[trigger] pair_views(v@)[6 + k] == ("Custom Path"@, cfg.search_paths@[k]@),
        decreases cfg.search_paths.len() - i,
    {
        let ghost before = v@;
        v.push((String::from_str("Custom Path"), cfg.search_paths[i].clone()));
        assert forall|k: int| 0 <= k < 6 implies #[trigger] pair_views(v@)[k] == fixed[k] by {
            assert(v@[k] == before[k]);
            assert(pair_views(before)[k] == fixed[k]);
        }
        assert forall|k: int| 0 <= k < i + 1 implies #[trigger] pair_views(v@)[6 + k] == ("Custom Path"@, cfg.search_paths@[k]@) by {
            if k < i {
                assert(v@[6 + k] == before[6 + k]);
                assert(pair_views(before)[6 + k] == ("Custom Path"@, cfg.search_paths@[k]@));
            }
        }
        i += 1;
    }
    let ghost want = cache_locations(*cfg, home@, lm_studio_dir@);
    assert forall|k: int| 0 <= k < want.len() implies #[trigger] pair_views(v@)[k] == want[k] by {
        if k < 6 {
            assert(pair_views(v@)[k] == fixed[k]);
        } else {
            assert(pair_views(v@)[6 + (k - 6)] == ("Custom Path"@, cfg.search_paths@[k - 6]@));
        }
    }
    assert(pair_views(v@) =~= want);
    v
}

// ------------------------------------------------- LM Studio's settings

pub open spec fn folder_key() -> Seq<char> {
    "\"downloadsFolder\""@
}

/// First index at or after `j` that is not whitespace.
pub open spec fn skip_ws(t: Seq<char>, j: int) -> int
    decreases t.len() - j,
{
    if 0 <= j < t.len() && is_ws(t[j]) {
        skip_ws(t, j + 1)
    } else {
        j
    }
}

/// Index of the quote that closes a JSON string body starting at `k`
/// (escapes `\x` skipped, `x` not a line feed), -1 when it is not closed.
pub open spec fn body_end(t: Seq<char>, k: int) -> int
    decreases t.len() - k,
{
    if k < 0 || k >= t.len() {
        -1
    } else if t[k] == '"' {
        k
    } else if t[k] == '\\' {
        if k + 1 < t.len() && t[k + 1] != '\n' {
            body_end(t, k + 2)
        } else {
            -1
        }
    } else {
        body_end(t, k + 1)
    }
}

/// The raw string value of `"downloadsFolder"` when the key, optional
/// whitespace, `:`, optional whitespace and a closed string start at `i`.
pub open spec fn folder_value_at(t: Seq<char>, i: int) -> Option<Seq<char>> {
    if has_at(t, folder_key(), i) {
        let j1 = skip_ws(t, i + folder_key().len());
        if j1 < t.len() && t[j1] == ':' {
            let j2 = skip_ws(t, j1 + 1);
            if j2 < t.len() && t[j2] == '"' && body_end(t, j2 + 1) >= 0 {
                Some(t.subrange(j2 + 1, body_end(t, j2 + 1)))
            } else {
                None
            }
        } else {
            None
        }
    } else {
        None
    }
}

/// The leftmost such value at or after `i`.
pub open spec fn first_folder_value(t: Seq<char>, i: int) -> Option<Seq<char>>
    decreases t.len() - i,
{
    if i < 0 || i >= t.len() {
        None
    } else {
        match folder_value_at(t, i) {
            Some(v) => Some(v),
            None => first_folder_value(t, i + 1),
        }
    }
}

/// Every `\\` pair read as one `\`, left to right (`str::replace`).
pub open spec fn unescape_backslashes(s: Seq<char>) -> Seq<char>
    decreases s.len(),
{
    if s.len() == 0 {
        s
    } else if s.len() >= 2 && s[0] == '\\' && s[1] == '\\' {
        seq!['\\'] + unescape_backslashes(s.skip(2))
    } else {
        seq![s[0]] + unescape_backslashes(s.skip(1))
    }
}

/// The `downloadsFolder` setting in LM Studio's settings text: the first
/// value, doubled backslashes collapsed, trimmed; none when empty.
pub open spec fn downloads_folder(text: Seq<char>) -> Option<Seq<char>> {
    match first_folder_value(text, 0) {
        Some(raw) => {
            let v = trim(unescape_backslashes(raw));
            if v.len() == 0 {
                None
            } else {
                Some(v)
            }
        },
        None => None,
    }
}

fn skip_ws_exec(t: &[char], j: usize) -> (r: usize)
    requires
        j <= t.len(),
    ensures
        r == skip_ws(t@, j as int),
        j <= r <= t.len(),
{
    let mut k = j;
    while k < t.len() && is_ws_char(t[k])
        invariant
            j <= k <= t.len(),
            skip_ws(t@, j as int) == skip_ws(t@, k as int),
        decreases t.len() - k,
    {
        k += 1;
    }
    k
}

fn body_end_exec(t: &[char], k: usize) -> (r: Option<usize>)
    requires
        k <= t.len(),
    ensures
        match r {
            Some(e) => body_end(t@, k as int) == e && k <= e < t.len(),
            None => body_end(t@, k as int) == -1,
        },
{
    let mut p = k;
    loop
        invariant
            k <= p <= t.len() + 1,
            body_end(t@, k as int) == body_end(t@, p as int),
            p <= t.len() || body_end(t@, p as int) == -1,
        decreases t.len() + 1 - p,
    {
        if p >= t.len() {
            return None;
        }
        if t[p] == '"' {
            return Some(p);
        } else if t[p] == '\\' {
            if p + 1 < t.len() && t[p + 1] != '\n' {
                p = p + 2;
            } else {
                return None;
            }
        } else {
            p = p + 1;
        }
    }
}

fn folder_value_exec(t: &[char], key: &[char], i: usize) -> (r: Option<(usize, usize)>)
    requires
        key@ == folder_key(),
        i <= t.len(),
    ensures
        match r {
            Some((a, b)) => a <= b <= t.len() && folder_value_at(t@, i as int) == Some(t@.subrange(a as int, b as int)),
            None => folder_value_at(t@, i as int) is None,
        },
{
    if !match_at(t, key, i) {
        return None;
    }
    let j1 = skip_ws_exec(t, i + key.len());
    if !(j1 < t.len() && t[j1] == ':') {
        return None;
    }
    let j2 = skip_ws_exec(t, j1 + 1);
    if !(j2 < t.len() && t[j2] == '"') {
        return None;
    }
    match body_end_exec(t, j2 + 1) {
        Some(e) => Some((j2 + 1, e)),
        None => None,
    }
}

fn unescape_exec(s: &[char]) -> (r: Vec<char>)
    ensures
        r@ == unescape_backslashes(s@),
{
    let mut out: Vec<char> = Vec::new();
    let mut i: usize = 0;
    assert(s@.skip(0) =~= s@);
    assert(out@ + unescape_backslashes(s@) =~= unescape_backslashes(s@));
    while i < s.len()
        invariant
            i <= s.len(),
            out@ + unescape_backslashes(s@.skip(i as int)) == unescape_backslashes(s@),
        decreases s.len() - i,
    {
        let ghost rest = s@.skip(i as int);
        if i + 1 < s.len() && s[i] == '\\' && s[i + 1] == '\\' {
            assert(rest.skip(2) =~= s@.skip(i + 2));
            out.push('\\');
            assert(out@ + unescape_backslashes(s@.skip(i + 2)) =~= out@.drop_last() + (seq!['\\']
                + unescape_backslashes(rest.skip(2))));
            i += 2;
        } else {
            assert(rest.skip(1) =~= s@.skip(i + 1));
            out.push(s[i]);
            assert(out@ + unescape_backslashes(s@.skip(i + 1)) =~= out@.drop_last() + (seq![s@[i as int]]
                + unescape_backslashes(rest.skip(1))));
            i += 1;
        }
    }
    assert(s@.skip(s.len() as int) =~= Seq::<char>::empty());
    assert(out@ + Seq::<char>::empty() =~= out@);
    out
}

/// Extract `downloadsFolder` from LM Studio settings text. Tolerates nested
/// layouts and escaped Windows separators.
pub fn extract_downloads_folder(text: &str) -> (r: Option<String>)
    ensures
        opt_str(r) == downloads_folder(text@),
{
    let t = chars_of(text);
    let key = chars_of("\"downloadsFolder\"");
    proof {
        reveal_strlit("\"downloadsFolder\"");
    }
    let mut i: usize = 0;
    while i < t.len()
        invariant
            i <= t.len(),
            key@ == folder_key(),
            t@ == text@,
            first_folder_value(t@, 0) == first_folder_value(t@, i as int),
        decreases t.len() - i,
    {
        match folder_value_exec(t.as_slice(), key.as_slice(), i) {
            Some((a, b)) => {
                assert(first_folder_value(t@, i as int) == Some(t@.subrange(a as int, b as int)));
                let raw = crate::text::slice_vec(t.as_slice(), a, b);
                let un = unescape_exec(raw.as_slice());
                let v = trimmed(un.as_slice());
                if v.len() == 0 {
                    return None;
                } else {
                    return Some(string_from(v.as_slice()));
                }
            },
            None => {
                i += 1;
            },
        }
    }
    None
}

/// A high (leading) surrogate code unit.
pub open spec fn high_surrogate(u: u16) -> bool {
    0xD800 <= u && u <= 0xDBFF
}

/// A low (trailing) surrogate code unit.
pub open spec fn low_surrogate(u: u16) -> bool {
    0xDC00 <= u && u <= 0xDFFF
}

/// UTF-16 decoding of code units, each unpaired surrogate replaced by
/// U+FFFD: a high surrogate followed by a low one makes one character of
/// the supplementary planes, any other surrogate one replacement
/// character, every other unit the character of that value.
pub open spec fn utf16_lossy_text(units: Seq<u16>) -> Seq<char>
    decreases units.len(),
{
    if units.len() == 0 {
        Seq::empty()
    } else {
        let a = units[0];
        if high_surrogate(a) && units.len() >= 2 && low_surrogate(units[1]) {
            seq![(0x10000 + (a - 0xD800) * 0x400 + (units[1] - 0xDC00)) as char]
                + utf16_lossy_text(units.skip(2))
        } else if high_surrogate(a) || low_surrogate(a) {
            seq!['\u{FFFD}'] + utf16_lossy_text(units.skip(1))
        } else {
            seq![a as char] + utf16_lossy_text(units.skip(1))
        }
    }
}

/// What `String::from_utf8_lossy` decodes from these bytes. Named: the
/// standard library's UTF-8 decoder, invalid sequences replaced.
pub uninterp spec fn utf8_lossy_text(bytes: Seq<u8>) -> Seq<char>;

/// Calls `String::from_utf16_lossy`, which decodes the units as
/// `char::decode_utf16` does and replaces each unpaired surrogate by
/// U+FFFD (`utf16_lossy_text`).
#[verifier::external_body]
fn from_utf16_lossy(units: &[u16]) -> (r: String)
    ensures
        r@ == utf16_lossy_text(units@),
{
    String::from_utf16_lossy(units)
}

/// Calls `String::from_utf8_lossy`; the text is named, and for valid UTF-8
/// it is the decoded text, as the documentation states.
#[verifier::external_body]
fn from_utf8_lossy(bytes: &[u8]) -> (r: String)
    ensures
        r@ == utf8_lossy_text(bytes@),
        valid_utf8(bytes@) ==> r@ == decode_utf8(bytes@),
{
    String::from_utf8_lossy(bytes).into_owned()
}

/// Little-endian 16-bit units of `b` (a trailing odd byte dropped).
pub open spec fn le_units(b: Seq<u8>) -> Seq<u16> {
    Seq::new(b.len() / 2, |i: int| (b[2 * i] + 256 * b[2 * i + 1]) as u16)
}

/// Big-endian 16-bit units of `b` (a trailing odd byte dropped).
pub open spec fn be_units(b: Seq<u8>) -> Seq<u16> {
    Seq::new(b.len() / 2, |i: int| (256 * b[2 * i] + b[2 * i + 1]) as u16)
}

/// Settings bytes as text: UTF-16 after a byte-order mark (`FF FE` little-,
/// `FE FF` big-endian), else UTF-8, invalid data replaced.
pub open spec fn decoded_config(bytes: Seq<u8>) -> Seq<char> {
    if bytes.len() >= 2 && bytes[0] == 0xff && bytes[1] == 0xfe {
        utf16_lossy_text(le_units(bytes.skip(2)))
    } else if bytes.len() >= 2 && bytes[0] == 0xfe && bytes[1] == 0xff {
        utf16_lossy_text(be_units(bytes.skip(2)))
    } else {
        utf8_lossy_text(bytes)
    }
}

fn units_of(b: &[u8], start: usize, little: bool) -> (r: Vec<u16>)
    requires
        start <= b.len(),
    ensures
        r@ == if little {
            le_units(b@.skip(start as int))
        } else {
            be_units(b@.skip(start as int))
        },
{
    let ghost s = b@.skip(start as int);
    let n = (b.len() - start) / 2;
    let mut r: Vec<u16> = Vec::new();
    let mut i: usize = 0;
    while i < n
        invariant
            i <= n,
            n == s.len() / 2,
            s == b@.skip(start as int),
            start <= b.len(),
            r@.len() == i,
            forall|k: int| 0 <= k < i ==> r@[k] == if little {
                (s[2 * k] + 256 * s[2 * k + 1]) as u16
            } else {
                (256 * s[2 * k] + s[2 * k + 1]) as u16
            },
        decreases n - i,
    {
        let lo = b[start + 2 * i];
        let hi = b[start + 2 * i + 1];
        assert(s[2 * i] == lo && s[2 * i + 1] == hi);
        let u: u16 = if little {
            (hi as u16) * 256 + (lo as u16)
        } else {
            (lo as u16) * 256 + (hi as u16)
        };
        r.push(u);
        i += 1;
    }
    proof {
        if little {
            assert(r@ =~= le_units(s));
        } else {
            assert(r@ =~= be_units(s));
        }
    }
    r
}

/// Decode possibly-UTF-16 (with a byte-order mark) or UTF-8 settings bytes
/// into text, replacing invalid data.
pub fn decode_config_bytes(bytes: &[u8]) -> (r: String)
    ensures
        r@ == decoded_config(bytes@),
{
    if bytes.len() >= 2 && bytes[0] == 0xff && bytes[1] == 0xfe {
        let units = units_of(bytes, 2, true);
        from_utf16_lossy(units.as_slice())
    } else if bytes.len() >= 2 && bytes[0] == 0xfe && bytes[1] == 0xff {
        let units = units_of(bytes, 2, false);
        from_utf16_lossy(units.as_slice())
    } else {
        from_utf8_lossy(bytes)
    }
}

/// Settings files worth reading: a JSON object or a UTF-16 byte-order mark
/// at the start.
pub open spec fn looks_like_settings(bytes: Seq<u8>) -> bool {
    (bytes.len() >= 1 && bytes[0] == 0x7b) || (bytes.len() >= 2 && ((bytes[0] == 0xff && bytes[1]
        == 0xfe) || (bytes[0] == 0xfe && bytes[1] == 0xff)))
}

/// The `downloadsFolder` of one settings file's bytes, none for a file that
/// does not look like settings.
pub fn downloads_folder_in(bytes: &[u8]) -> (r: Option<String>)
    ensures
        opt_str(r) == if looks_like_settings(bytes@) {
            downloads_folder(decoded_config(bytes@))
        } else {
            None
        },
{
    let looks = (bytes.len() >= 1 && bytes[0] == 0x7b) || (bytes.len() >= 2 && ((bytes[0] == 0xff
        && bytes[1] == 0xfe) || (bytes[0] == 0xfe && bytes[1] == 0xff)));
    if !looks {
        return None;
    }
    let text = decode_config_bytes(bytes);
    extract_downloads_folder(text.as_str())
}

// ------------------------------------------------------------------- laws

/// A download URL goes to the chosen hub: it starts with that hub's own
/// address, and on Hugging Face and its mirror it is the repository's
/// `resolve/main` path there. The hubs' addresses are Hugging Face's, the
/// hf-mirror's and ModelScope's, so the same file gets a different URL on
/// Hugging Face and on the mirror.
pub proof fn lemma_file_url_host(s: Source, repo: Seq<char>, path_bytes: Seq<u8>)
    ensures
        starts_with(source_file_url(s, repo, path_bytes), source_api_base(s) + "/"@),
        s != Source::ModelScope ==> source_file_url(s, repo, path_bytes) == source_api_base(s) + "/"@ + repo
            + "/resolve/main/"@ + encoded_path(path_bytes),
        source_api_base(Source::HuggingFace) == "https://huggingface.co"@,
        source_api_base(Source::HfMirror) == "https://hf-mirror.com"@,
        source_api_base(Source::ModelScope) == "https://modelscope.cn"@,
        source_file_url(Source::HuggingFace, repo, path_bytes) != source_file_url(Source::HfMirror, repo, path_bytes),
{
    reveal_strlit("https://huggingface.co");
    reveal_strlit("https://hf-mirror.com");
    reveal_strlit("https://modelscope.cn");
    reveal_strlit("https://modelscope.cn/models/");
    reveal_strlit("/");
    let u = source_file_url(s, repo, path_bytes);
    let b = source_api_base(s) + "/"@;
    match s {
        Source::ModelScope => {
            assert(u.subrange(0, b.len() as int) =~= b);
        },
        _ => {
            assert(u.subrange(0, b.len() as int) =~= b);
        },
    }
    let h = source_file_url(Source::HuggingFace, repo, path_bytes);
    let m = source_file_url(Source::HfMirror, repo, path_bytes);
    assert(h[9] == 'u');
    assert(m[9] == 'f');
}

} // verus!
