//! What the hubs list about a model: summaries for the search grid, the
//! repository file list, and the assembled model detail.
use vstd::prelude::*;
use vstd::utf8::{encode_utf8, is_char_boundary};
use crate::text::{
    chars_of, string_from, split_once, split_once_char, contains, contains_seq, decimal, seq_eq,
    decimal_exec, push_char,
};
use crate::unicode::{lower_text, eq_ignore_ascii_case, eq_ignore_ascii_case_exec, to_lowercase};
use crate::config::{Source, opt_str, str_views};
use crate::hub::{
    ModelFile, ModelFormat, Variant, FileView, file_views, detect_format, format_of,
    build_gguf_variants, build_tensor_variants, total_size, variant_views, gguf_layout, tensor_layout,
    marked, gguf_pick, new_file, string_views,
};
use crate::sort::{StrictWeakOrder, stable_sort, stable_sorted, lt_of, lemma_sorted_map, lex_lt, lex_less, lemma_lex_asym, lemma_lex_neg_trans, lemma_lex_total, lemma_lex_trans, lemma_lex_irrefl};

verus! {

/// One model as a search result or detail header.
#[derive(Debug)]
pub struct ModelSummary {
    pub repo: String,
    pub author: String,
    pub name: String,
    pub source: Source,
    pub downloads: u64,
    pub likes: u64,
    pub last_modified: String,
    pub tags: Vec<String>,
    pub pipeline_tag: Option<String>,
    pub gguf: bool,
    pub params: Option<String>,
    pub avatar: Option<String>,
}

// ------------------------------------------------------------------ dates

/// A JSON time field as ModelScope sends it: text, a whole number of unix
/// seconds, or anything else.
pub enum TimeValue {
    Text(String),
    Seconds(i64),
    Other,
}

/// Civil (proleptic Gregorian) date of a day count since 1970-01-01.
pub open spec fn civil_from_days(days: int) -> (int, int, int) {
    let z = days + 719468;
    let era = z / 146097;
    let doe = z % 146097;
    let yoe = (doe - doe / 1460 + doe / 36524 - doe / 146096) / 365;
    let y = yoe + era * 400;
    let doy = doe - (365 * yoe + yoe / 4 - yoe / 100);
    let mp = (5 * doy + 2) / 153;
    let d = doy - (153 * mp + 2) / 5 + 1;
    let m = if mp < 10 { mp + 3 } else { mp - 9 };
    (if m <= 2 { y + 1 } else { y }, m, d)
}

/// `n` zeros.
pub open spec fn zeros(n: int) -> Seq<char>
    decreases n,
{
    if n <= 0 {
        Seq::empty()
    } else {
        zeros(n - 1).push('0')
    }
}

/// Decimal of `n` zero-padded to `width` characters, the sign counted in
/// the width (`format!("{n:0width$}")`).
pub open spec fn padded(n: int, width: int) -> Seq<char> {
    if n >= 0 {
        zeros(width - decimal(n as nat).len()) + decimal(n as nat)
    } else {
        seq!['-'] + zeros(width - 1 - decimal((-n) as nat).len()) + decimal((-n) as nat)
    }
}

/// `YYYY-MM-DD` of the day holding unix second `secs`.
pub open spec fn ymd(secs: int) -> Seq<char> {
    let (y, m, d) = civil_from_days(secs / 86400);
    padded(y, 4) + "-"@ + padded(m, 2) + "-"@ + padded(d, 2)
}

/// A ModelScope time as text: text as it is, seconds as `YYYY-MM-DD`,
/// anything else empty.
pub open spec fn time_text(v: TimeValue) -> Seq<char> {
    match v {
        TimeValue::Text(s) => s@,
        TimeValue::Seconds(secs) => ymd(secs as int),
        TimeValue::Other => Seq::empty(),
    }
}

/// Floor division by a positive divisor.
fn floor_div(a: i128, b: i128) -> (r: i128)
    requires
        b > 0,
        -0x1_0000_0000_0000_0000_0000 <= a <= 0x1_0000_0000_0000_0000_0000,
        b <= 0x1_0000_0000,
    ensures
        r == a / b,
        a >= 0 ==> 0 <= r <= a,
        a < 0 ==> a <= r < 0,
{
    if a >= 0 {
        assert(0 <= a / b <= a) by (nonlinear_arith)
            requires
                a >= 0,
                b > 0,
        {
        }
        a / b
    } else {
        let q = (-a + b - 1) / b;
        proof {
            let na: int = -(a as int);
            let bi: int = b as int;
            assert(q == (na + bi - 1) / bi);
            assert(-q == (a as int) / bi) by (nonlinear_arith)
                requires
                    bi > 0,
                    na > 0,
                    a == -na,
                    q == (na + bi - 1) / bi,
            {
                let q0 = (na + bi - 1) / bi;
                let r0 = (na + bi - 1) % bi;
                assert(na + bi - 1 == q0 * bi + r0);
                assert(0 <= r0 < bi);
                assert(a == -q0 * bi + (bi - 1 - r0));
                assert(0 <= bi - 1 - r0 < bi);
            }
            assert(1 <= q <= na) by (nonlinear_arith)
                requires
                    bi > 0,
                    na > 0,
                    q == (na + bi - 1) / bi,
            {
            }
        }
        -q
    }
}

fn push_padded(s: &mut String, n: i128, width: usize)
    requires
        -0x1_0000_0000_0000_0000 < n < 0x1_0000_0000_0000_0000,
        width <= 4,
    ensures
        final(s)@ == old(s)@ + padded(n as int, width as int),
{
    let neg = n < 0;
    let a: u64 = if neg {
        (-n) as u64
    } else {
        n as u64
    };
    let digits = decimal_exec(a);
    let lead: usize = if neg {
        1
    } else {
        0
    };
    let ghost start = s@;
    if neg {
        push_char(s, '-');
    }
    let mut k: usize = 0;
    let fill: usize = if width <= lead || digits.len() >= width - lead {
        0
    } else {
        width - lead - digits.len()
    };
    while k < fill
        invariant
            k <= fill,
            s@ == start + (if neg { seq!['-'] } else { Seq::<char>::empty() }) + zeros(k as int),
        decreases fill - k,
    {
        push_char(s, '0');
        k += 1;
    }
    let ds = string_from(digits.as_slice());
    s.append(ds.as_str());
    proof {
        if neg {
            assert(padded(n as int, width as int) =~= seq!['-'] + zeros(fill as int) + decimal(a as nat));
        } else {
            assert(padded(n as int, width as int) =~= zeros(fill as int) + decimal(a as nat));
        }
        assert(s@ =~= start + padded(n as int, width as int));
    }
}

fn civil_exec(days: i128) -> (r: (i128, i128, i128))
    requires
        -0x1_0000_0000_0000_0000 <= days <= 0x1_0000_0000_0000_0000,
    ensures
        (r.0 as int, r.1 as int, r.2 as int) == civil_from_days(days as int),
        -0x1_0000_0000_0000_0000 < r.0 < 0x1_0000_0000_0000_0000,
        -0x1_0000_0000_0000_0000 < r.1 < 0x1_0000_0000_0000_0000,
        -0x1_0000_0000_0000_0000 < r.2 < 0x1_0000_0000_0000_0000,
{
    let z = days + 719468;
    let era = floor_div(z, 146097);
    let doe = z - era * 146097;
    assert(doe == z % 146097 && 0 <= doe < 146097) by (nonlinear_arith)
        requires
            era == z / 146097,
            doe == z - era * 146097,
    {
    }
    let t = doe - floor_div(doe, 1460) + floor_div(doe, 36524) - floor_div(doe, 146096);
    let yoe = floor_div(t, 365);
    let y = yoe + era * 400;
    let doy = doe - (365 * yoe + floor_div(yoe, 4) - floor_div(yoe, 100));
    let mp = floor_div(5 * doy + 2, 153);
    let d = doy - floor_div(153 * mp + 2, 5) + 1;
    let m = if mp < 10 {
        mp + 3
    } else {
        mp - 9
    };
    let yy = if m <= 2 {
        y + 1
    } else {
        y
    };
    (yy, m, d)
}

/// ModelScope returns times as unix seconds or as text; normalize to
/// `YYYY-MM-DD` so the front end shows a real date.
pub fn ms_time_to_string(v: &TimeValue) -> (r: String)
    ensures
        r@ == time_text(*v),
{
    match v {
        TimeValue::Text(s) => s.clone(),
        TimeValue::Seconds(secs) => {
            let days = floor_div(*secs as i128, 86400);
            let (yy, m, d) = civil_exec(days);
            let mut out = String::new();
            push_padded(&mut out, yy, 4);
            out.append("-");
            push_padded(&mut out, m, 2);
            out.append("-");
            push_padded(&mut out, d, 2);
            out
        },
        TimeValue::Other => String::new(),
    }
}

// -------------------------------------------------------------- summaries

/// The text items of a JSON list (other items dropped), in order.
pub open spec fn text_items(v: Seq<Option<String>>) -> Seq<Seq<char>>
    decreases v.len(),
{
    if v.len() == 0 {
        Seq::empty()
    } else {
        match v.last() {
            Some(s) => text_items(v.drop_last()).push(s@),
            None => text_items(v.drop_last()),
        }
    }
}

/// The text items of an optional list; none without a list.
pub open spec fn list_items(v: Option<Vec<Option<String>>>) -> Seq<Seq<char>> {
    match v {
        Some(l) => text_items(l@),
        None => Seq::empty(),
    }
}

fn items_of(v: &Option<Vec<Option<String>>>) -> (r: Vec<String>)
    ensures
        str_views(r@) == list_items(*v),
{
    let mut r: Vec<String> = Vec::new();
    match v {
        Some(l) => {
            let mut i: usize = 0;
            while i < l.len()
                invariant
                    i <= l@.len(),
                    str_views(r@) == text_items(l@.take(i as int)),
                decreases l.len() - i,
            {
                assert(l@.take(i + 1).drop_last() =~= l@.take(i as int));
                match &l[i] {
                    Some(s) => {
                        let ghost before = str_views(r@);
                        r.push(s.clone());
                        assert(str_views(r@) =~= before.push(s@));
                    },
                    None => {},
                }
                i += 1;
            }
            assert(l@.take(l.len() as int) =~= l@);
        },
        None => {
            assert(str_views(r@) =~= Seq::<Seq<char>>::empty());
        },
    }
    r
}

fn dup_str(o: &Option<String>) -> (r: Option<String>)
    ensures
        opt_str(r) == opt_str(*o),
{
    match o {
        Some(s) => Some(s.clone()),
        None => None,
    }
}

/// Author and name of a repository id `author/name` (no author without a
/// `/`).
pub open spec fn id_parts(id: Seq<char>) -> (Seq<char>, Seq<char>) {
    match split_once(id, '/') {
        Some((a, n)) => (a, n),
        None => (Seq::empty(), id),
    }
}

fn id_parts_exec(id: &str) -> (r: (String, String))
    ensures
        (r.0@, r.1@) == id_parts(id@),
{
    let c = chars_of(id);
    match split_once_char(c.as_slice(), '/') {
        Some((a, n)) => (string_from(a.as_slice()), string_from(n.as_slice())),
        None => (String::new(), String::from_str(id)),
    }
}

/// The model name of a repository id: what follows the first `/`, or the
/// whole id.
pub fn repo_name(id: &str) -> (r: String)
    ensures
        r@ == id_parts(id@).1,
{
    let (_, n) = id_parts_exec(id);
    n
}

/// Some tag equals `word`, ignoring ASCII case.
pub open spec fn has_tag(tags: Seq<Seq<char>>, word: Seq<char>) -> bool {
    exists|i: int| 0 <= i < tags.len() && eq_ignore_ascii_case(#[trigger] tags[i], word)
}

fn has_tag_exec(tags: &Vec<String>, word: &str) -> (r: bool)
    ensures
        r == has_tag(str_views(tags@), word@),
{
    let w = chars_of(word);
    let mut i: usize = 0;
    while i < tags.len()
        invariant
            i <= tags@.len(),
            w@ == word@,
            forall|k: int| 0 <= k < i ==> !eq_ignore_ascii_case(#[trigger] str_views(tags@)[k], word@),
        decreases tags.len() - i,
    {
        let t = chars_of(tags[i].as_str());
        if eq_ignore_ascii_case_exec(t.as_slice(), w.as_slice()) {
            assert(str_views(tags@)[i as int] == t@);
            return true;
        }
        i += 1;
    }
    false
}

/// What a Hugging Face model listing holds, as read from its JSON.
pub struct HfModelInfo {
    pub id: Option<String>,
    pub tags: Option<Vec<Option<String>>>,
    pub pipeline_tag: Option<String>,
    pub downloads: Option<u64>,
    pub likes: Option<u64>,
    pub last_modified: Option<String>,
    pub created_at: Option<String>,
}

pub open spec fn or_zero(v: Option<u64>) -> u64 {
    match v {
        Some(n) => n,
        None => 0,
    }
}

pub open spec fn or_empty(v: Option<Seq<char>>) -> Seq<char> {
    match v {
        Some(s) => s,
        None => Seq::empty(),
    }
}

/// The summary of a Hugging Face model listing: none without an id;
/// author and name from the id, `gguf` when tagged so (any ASCII case),
/// counts 0 when missing, last change else creation time else empty.
/// `params` is the parameter-count label of the name, which the caller
/// computes.
pub fn hf_summary(info: &HfModelInfo, src: Source, params: Option<String>) -> (r: Option<ModelSummary>)
    ensures
        r is Some <==> info.id is Some,
        r matches Some(s) ==> {
            let id = info.id->0@;
            &&& s.repo@ == id
            &&& (s.author@, s.name@) == id_parts(id)
            &&& s.source == src
            &&& s.downloads == or_zero(info.downloads)
            &&& s.likes == or_zero(info.likes)
            &&& s.last_modified@ == or_empty(match opt_str(info.last_modified) {
                Some(t) => Some(t),
                None => opt_str(info.created_at),
            })
            &&& str_views(s.tags@) == list_items(info.tags)
            &&& opt_str(s.pipeline_tag) == opt_str(info.pipeline_tag)
            &&& s.gguf == has_tag(list_items(info.tags), "gguf"@)
            &&& opt_str(s.params) == opt_str(params)
            &&& s.avatar is None
        },
{
    let id = match &info.id {
        Some(i) => i.clone(),
        None => {
            return None;
        },
    };
    let (author, name) = id_parts_exec(id.as_str());
    let tags = items_of(&info.tags);
    let gguf = has_tag_exec(&tags, "gguf");
    let last_modified = match &info.last_modified {
        Some(t) => t.clone(),
        None => match &info.created_at {
            Some(t) => t.clone(),
            None => String::new(),
        },
    };
    Some(ModelSummary {
        repo: id,
        author,
        name,
        source: src,
        downloads: match info.downloads {
            Some(n) => n,
            None => 0,
        },
        likes: match info.likes {
            Some(n) => n,
            None => 0,
        },
        last_modified,
        tags,
        pipeline_tag: dup_str(&info.pipeline_tag),
        gguf,
        params,
        avatar: None,
    })
}

/// What a ModelScope model listing holds, as read from its JSON.
pub struct MsModelInfo {
    pub path: Option<String>,
    pub name: Option<String>,
    pub tags: Option<Vec<Option<String>>>,
    pub downloads: Option<u64>,
    pub likes: Option<u64>,
    pub stars: Option<u64>,
    pub last_updated: TimeValue,
    pub update_time: TimeValue,
    pub created_at: TimeValue,
    pub tasks: Option<Vec<Option<String>>>,
}

/// The first of the given times that is not empty (the last one else).
pub open spec fn first_time(a: Seq<char>, b: Seq<char>) -> Seq<char> {
    if a.len() == 0 {
        b
    } else {
        a
    }
}

/// Some tag, lower-cased, contains `gguf`.
pub open spec fn mentions_gguf(tags: Seq<Seq<char>>) -> bool {
    exists|i: int| 0 <= i < tags.len() && contains(lower_text(#[trigger] tags[i]), "gguf"@)
}

fn mentions_gguf_exec(tags: &Vec<String>) -> (r: bool)
    ensures
        r == mentions_gguf(str_views(tags@)),
{
    let g = chars_of("gguf");
    let mut i: usize = 0;
    while i < tags.len()
        invariant
            i <= tags@.len(),
            g@ == "gguf"@,
            forall|k: int| 0 <= k < i ==> !contains(lower_text(#[trigger] str_views(tags@)[k]), "gguf"@),
        decreases tags.len() - i,
    {
        let low = to_lowercase(tags[i].as_str());
        let lc = chars_of(low.as_str());
        if contains_seq(lc.as_slice(), g.as_slice()) {
            assert(str_views(tags@)[i as int] == tags@[i as int]@);
            return true;
        }
        i += 1;
    }
    false
}

/// The first task of a ModelScope listing when it is text.
pub open spec fn first_task(tasks: Option<Vec<Option<String>>>) -> Option<Seq<char>> {
    match tasks {
        Some(l) => if l@.len() > 0 {
            opt_str(l@[0])
        } else {
            None
        },
        None => None,
    }
}

/// The summary of a ModelScope model listing: none without a name; the
/// repository is `path/name` (just the name without a path), likes fall
/// back to stars, the time is the first non-empty of last update, update
/// and creation time; `gguf` when a tag or the name mentions it.
/// `params` is the parameter-count label of the name, which the caller
/// computes.
pub fn ms_summary(info: &MsModelInfo, params: Option<String>) -> (r: Option<ModelSummary>)
    ensures
        r is Some <==> info.name is Some,
        r matches Some(s) ==> {
            let name = info.name->0@;
            let path = or_empty(opt_str(info.path));
            &&& s.repo@ == if path.len() == 0 { name } else { path + "/"@ + name }
            &&& s.author@ == path
            &&& s.name@ == name
            &&& s.source == Source::ModelScope
            &&& s.avatar is None
            &&& s.downloads == or_zero(info.downloads)
            &&& s.likes == (match info.likes {
                Some(n) => n,
                None => or_zero(info.stars),
            })
            &&& s.last_modified@ == first_time(time_text(info.last_updated), first_time(time_text(info.update_time), time_text(info.created_at)))
            &&& opt_str(s.pipeline_tag) == first_task(info.tasks)
            &&& str_views(s.tags@) == list_items(info.tags)
            &&& s.gguf == (mentions_gguf(list_items(info.tags)) || contains(lower_text(name), "gguf"@))
            &&& opt_str(s.params) == opt_str(params)
        },
{
    let name = match &info.name {
        Some(n) => n.clone(),
        None => {
            return None;
        },
    };
    let path = match &info.path {
        Some(p) => p.clone(),
        None => String::new(),
    };
    let repo = if path.as_str().is_empty() {
        name.clone()
    } else {
        let mut r = path.clone();
        r.append("/");
        r.append(name.as_str());
        r
    };
    let tags = items_of(&info.tags);
    let low = to_lowercase(name.as_str());
    let lc = chars_of(low.as_str());
    let g = chars_of("gguf");
    let gguf = mentions_gguf_exec(&tags) || contains_seq(lc.as_slice(), g.as_slice());
    let t1 = ms_time_to_string(&info.last_updated);
    let last_modified = if !t1.as_str().is_empty() {
        t1
    } else {
        let t2 = ms_time_to_string(&info.update_time);
        if !t2.as_str().is_empty() {
            t2
        } else {
            ms_time_to_string(&info.created_at)
        }
    };
    let pipeline_tag = match &info.tasks {
        Some(l) => if l.len() > 0 {
            dup_str(&l[0])
        } else {
            None
        },
        None => None,
    };
    Some(ModelSummary {
        repo,
        author: path,
        name,
        source: Source::ModelScope,
        downloads: match info.downloads {
            Some(n) => n,
            None => 0,
        },
        likes: match info.likes {
            Some(n) => n,
            None => match info.stars {
                Some(n) => n,
                None => 0,
            },
        },
        last_modified,
        tags,
        pipeline_tag,
        gguf,
        params,
        avatar: None,
    })
}

// ------------------------------------------------------- repository files

/// One entry of a repository file listing, as read from its JSON.
pub struct RepoEntry {
    pub kind: Option<String>,
    pub path: Option<String>,
    /// The LFS size, which Hugging Face reports for large files.
    pub lfs_size: Option<u64>,
    pub size: Option<u64>,
}

/// The file an entry describes: Hugging Face lists files as `file`,
/// ModelScope as `blob` or `file`; entries without a path are skipped; the
/// size is the LFS size, else the size, else 0.
pub open spec fn entry_file(e: RepoEntry, ms: bool) -> Option<FileView> {
    let kind = opt_str(e.kind);
    let kind_ok = if ms {
        kind == Some("blob"@) || kind == Some("file"@)
    } else {
        kind == Some("file"@)
    };
    let path = or_empty(opt_str(e.path));
    if kind_ok && path.len() > 0 {
        Some(new_file(path, match e.lfs_size {
            Some(n) => n,
            None => or_zero(e.size),
        }))
    } else {
        None
    }
}

/// The files of a listing, in listing order.
pub open spec fn entry_files(es: Seq<RepoEntry>, ms: bool) -> Seq<FileView>
    decreases es.len(),
{
    if es.len() == 0 {
        Seq::empty()
    } else {
        match entry_file(es.last(), ms) {
            Some(f) => entry_files(es.drop_last(), ms).push(f),
            None => entry_files(es.drop_last(), ms),
        }
    }
}

/// Files by size, the largest first, then by path.
pub open spec fn size_desc_order() -> spec_fn(FileView, FileView) -> bool {
    |a: FileView, b: FileView| a.size > b.size || (a.size == b.size && lex_lt(a.path, b.path))
}

/// A file wrapped for sorting by size, largest first, then by path.
pub struct BySizeDesc {
    pub file: ModelFile,
}

impl StrictWeakOrder for BySizeDesc {
    open spec fn lt(a: Self, b: Self) -> bool {
        size_desc_order()(a.file@, b.file@)
    }

    fn exec_lt(&self, other: &Self) -> (r: bool) {
        if self.file.size != other.file.size {
            self.file.size > other.file.size
        } else {
            let a = chars_of(self.file.path.as_str());
            let b = chars_of(other.file.path.as_str());
            lex_less(a.as_slice(), b.as_slice())
        }
    }

    proof fn lemma_asym(a: Self, b: Self) {
        lemma_lex_asym(a.file.path@, b.file.path@);
    }

    proof fn lemma_neg_trans(a: Self, b: Self, c: Self) {
        lemma_lex_neg_trans(a.file.path@, b.file.path@, c.file.path@);
    }
}

fn sort_by_size_desc(v: Vec<ModelFile>) -> (r: Vec<ModelFile>)
    ensures
        stable_sorted(file_views(r@), file_views(v@), size_desc_order()),
{
    let ghost orig = v@;
    let mut src = v;
    let mut w: Vec<BySizeDesc> = Vec::new();
    let mut i: usize = 0;
    let n = src.len();
    while src.len() > 0
        invariant
            i + src@.len() == orig.len(),
            orig.len() == n,
            src@ == orig.subrange(i as int, orig.len() as int),
            w@.len() == i,
            forall|k: int| 0 <= k < i ==> (#[trigger] w@[k]).file@ == orig[k]@,
        decreases src.len(),
    {
        let f = src.remove(0);
        w.push(BySizeDesc { file: f });
        i += 1;
    }
    let ghost wv = w@;
    let sorted = stable_sort(w);
    let mut out: Vec<ModelFile> = Vec::new();
    let mut rest = sorted;
    let ghost sv = rest@;
    let mut j: usize = 0;
    let m = rest.len();
    while rest.len() > 0
        invariant
            j + rest@.len() == sv.len(),
            sv.len() == m,
            rest@ == sv.subrange(j as int, sv.len() as int),
            out@.len() == j,
            forall|k: int| 0 <= k < j ==> (#[trigger] out@[k])@ == sv[k].file@,
        decreases rest.len(),
    {
        let b = rest.remove(0);
        out.push(b.file);
        j += 1;
    }
    proof {
        let f = |x: BySizeDesc| x.file@;
        assert forall|a: BySizeDesc, b: BySizeDesc| #[trigger] lt_of::<BySizeDesc>()(a, b) == size_desc_order()(f(a), f(b)) by {}
        lemma_sorted_map(sv, wv, lt_of::<BySizeDesc>(), size_desc_order(), f);
        assert(sv.map_values(f) =~= file_views(out@));
        assert(wv.map_values(f) =~= file_views(orig));
    }
    out
}

fn is_text(o: &Option<String>, lit: &str) -> (r: bool)
    ensures
        r == (opt_str(*o) == Some(lit@)),
{
    match o {
        Some(s) => {
            let a = chars_of(s.as_str());
            let b = chars_of(lit);
            crate::text::seq_eq(a.as_slice(), b.as_slice())
        },
        None => false,
    }
}

fn repo_files(entries: &[RepoEntry], ms: bool) -> (r: Vec<ModelFile>)
    ensures
        stable_sorted(file_views(r@), entry_files(entries@, ms), size_desc_order()),
{
    let mut files: Vec<ModelFile> = Vec::new();
    let mut i: usize = 0;
    while i < entries.len()
        invariant
            i <= entries@.len(),
            file_views(files@) == entry_files(entries@.take(i as int), ms),
        decreases entries.len() - i,
    {
        assert(entries@.take(i + 1).drop_last() =~= entries@.take(i as int));
        let e = &entries[i];
        let kind_ok = if ms {
            is_text(&e.kind, "blob") || is_text(&e.kind, "file")
        } else {
            is_text(&e.kind, "file")
        };
        let path = match &e.path {
            Some(p) => p.clone(),
            None => String::new(),
        };
        if kind_ok && !path.as_str().is_empty() {
            let size = match e.lfs_size {
                Some(n) => n,
                None => match e.size {
                    Some(n) => n,
                    None => 0,
                },
            };
            let f = ModelFile::new(path, size);
            let ghost before = file_views(files@);
            let ghost fv = f@;
            files.push(f);
            assert(file_views(files@) =~= before.push(fv));
        }
        i += 1;
    }
    assert(entries@.take(entries.len() as int) =~= entries@);
    sort_by_size_desc(files)
}

/// The files of a Hugging Face tree listing, largest first, then by path.
pub fn hf_repo_files(entries: &[RepoEntry]) -> (r: Vec<ModelFile>)
    ensures
        stable_sorted(file_views(r@), entry_files(entries@, false), size_desc_order()),
{
    repo_files(entries, false)
}

/// The files of a ModelScope file listing, largest first, then by path.
pub fn ms_repo_files(entries: &[RepoEntry]) -> (r: Vec<ModelFile>)
    ensures
        stable_sorted(file_views(r@), entry_files(entries@, true), size_desc_order()),
{
    repo_files(entries, true)
}

/// What ModelScope's model information holds, as read from its JSON.
pub struct MsDetailInfo {
    pub downloads: Option<u64>,
    pub likes: Option<u64>,
    pub stars: Option<u64>,
    pub last_updated: TimeValue,
    pub create_time: TimeValue,
    pub tags: Option<Vec<Option<String>>>,
}

/// The detail header of a ModelScope repository `org/name`: `gguf` when a
/// file is GGUF; counts, time and tags from the model information when it
/// could be read (likes falling back to stars, the last update time to the
/// creation time), else zero and empty. `params` is the parameter-count
/// label of the name, which the caller computes.
pub fn ms_detail_summary(repo: &str, files: &[ModelFile], info: &Option<MsDetailInfo>, params: Option<String>) -> (r: ModelSummary)
    ensures
        r.repo@ == repo@,
        (r.author@, r.name@) == id_parts(repo@),
        r.source == Source::ModelScope,
        r.gguf == crate::hub::any_gguf(file_views(files@)),
        opt_str(r.params) == opt_str(params),
        r.pipeline_tag is None,
        r.avatar is None,
        match info {
            Some(d) => {
                &&& r.downloads == or_zero(d.downloads)
                &&& r.likes == (match d.likes {
                    Some(n) => n,
                    None => or_zero(d.stars),
                })
                &&& r.last_modified@ == first_time(time_text(d.last_updated), time_text(d.create_time))
                &&& str_views(r.tags@) == list_items(d.tags)
            },
            None => {
                &&& r.downloads == 0
                &&& r.likes == 0
                &&& r.last_modified@.len() == 0
                &&& r.tags@.len() == 0
            },
        },
{
    let (author, name) = id_parts_exec(repo);
    let mut gguf = false;
    let mut i: usize = 0;
    while i < files.len()
        invariant
            i <= files@.len(),
            gguf == exists|k: int| 0 <= k < i && #[trigger] file_views(files@)[k].is_gguf,
        decreases files.len() - i,
    {
        assert(file_views(files@)[i as int] == files@[i as int]@);
        if files[i].is_gguf {
            gguf = true;
            assert(file_views(files@)[i as int].is_gguf);
        } else {
            assert forall|k: int| 0 <= k < i + 1 && #[trigger] file_views(files@)[k].is_gguf implies k < i by {}
        }
        i += 1;
    }
    let mut s = ModelSummary {
        repo: String::from_str(repo),
        author,
        name,
        source: Source::ModelScope,
        downloads: 0,
        likes: 0,
        last_modified: String::new(),
        tags: Vec::new(),
        pipeline_tag: None,
        gguf,
        params,
        avatar: None,
    };
    match info {
        Some(d) => {
            s.downloads = match d.downloads {
                Some(n) => n,
                None => 0,
            };
            s.likes = match d.likes {
                Some(n) => n,
                None => match d.stars {
                    Some(n) => n,
                    None => 0,
                },
            };
            let t = ms_time_to_string(&d.last_updated);
            s.last_modified = if t.as_str().is_empty() {
                ms_time_to_string(&d.create_time)
            } else {
                t
            };
            s.tags = items_of(&d.tags);
        },
        None => {},
    }
    s
}

/// The repository path in URLs: `org/name` with both parts percent-encoded
/// (a repository without `/` has an empty org).
pub fn ms_encoded_repo(repo: &str) -> (r: String)
    ensures
        r@ == crate::config::encoded_path(encode_utf8(id_parts(repo@).0)) + "/"@
            + crate::config::encoded_path(encode_utf8(id_parts(repo@).1)),
{
    let (org, name) = id_parts_exec(repo);
    let mut s = crate::config::encode_path(org.as_str());
    s.append("/");
    let n = crate::config::encode_path(name.as_str());
    s.append(n.as_str());
    s
}

/// A ModelScope repository can be looked up when both its org and its name
/// are non-empty.
pub fn ms_repo_checkable(repo: &str) -> (r: bool)
    ensures
        r == (id_parts(repo@).0.len() > 0 && id_parts(repo@).1.len() > 0),
{
    let (org, name) = id_parts_exec(repo);
    !org.as_str().is_empty() && !name.as_str().is_empty()
}

// ------------------------------------------------------------------ detail

/// Everything the detail page shows about one repository.
pub struct ModelDetail {
    pub summary: ModelSummary,
    pub format: ModelFormat,
    pub variants: Vec<Variant>,
    pub files: Vec<ModelFile>,
    pub readme_md: Option<String>,
    pub gguf_total_size: u64,
    pub all_total_size: u64,
}

/// The GGUF files, in order.
pub open spec fn gguf_files(fs: Seq<FileView>) -> Seq<FileView>
    decreases fs.len(),
{
    if fs.len() == 0 {
        Seq::empty()
    } else if fs.last().is_gguf {
        gguf_files(fs.drop_last()).push(fs.last())
    } else {
        gguf_files(fs.drop_last())
    }
}

pub open spec fn readme_limit() -> nat {
    600000
}

pub open spec fn truncation_mark() -> Seq<char> {
    "\n\n<!-- truncated -->"@
}

/// The README as shown: none when missing or empty; a README over the byte
/// limit is cut at the limit and marked as truncated.
pub open spec fn shown_readme(orig: Option<Seq<char>>, out: Option<Seq<char>>) -> bool {
    match orig {
        None => out is None,
        Some(t) => if t.len() == 0 {
            out is None
        } else if encode_utf8(t).len() <= readme_limit() {
            out == Some(t)
        } else {
            out matches Some(o) && encode_utf8(o) == encode_utf8(t).take(readme_limit() as int)
                + encode_utf8(truncation_mark())
        },
    }
}

/// UTF-8 encoding distributes over concatenation.
pub proof fn lemma_encode_concat(a: Seq<char>, b: Seq<char>)
    ensures
        encode_utf8(a + b) == encode_utf8(a) + encode_utf8(b),
    decreases a.len(),
{
    if a.len() == 0 {
        assert(a + b =~= b);
        assert(encode_utf8(a) =~= Seq::<u8>::empty());
        assert(encode_utf8(a) + encode_utf8(b) =~= encode_utf8(b));
    } else {
        assert((a + b).drop_first() =~= a.drop_first() + b);
        assert((a + b)[0] == a[0]);
        lemma_encode_concat(a.drop_first(), b);
        assert(encode_utf8(a + b) =~= encode_scalar_of(a[0]) + (encode_utf8(a.drop_first()) + encode_utf8(b)));
    }
}

pub open spec fn encode_scalar_of(c: char) -> Seq<u8> {
    vstd::utf8::encode_scalar(c as u32)
}

proof fn lemma_gguf_total_le(fs: Seq<FileView>)
    ensures
        total_size(gguf_files(fs)) <= total_size(fs),
    decreases fs.len(),
{
    if fs.len() > 0 {
        lemma_gguf_total_le(fs.drop_last());
        let rest = gguf_files(fs.drop_last());
        assert(rest.push(fs.last()).drop_last() =~= rest);
    }
}

fn gguf_total(files: &[ModelFile]) -> (r: u64)
    requires
        total_size(file_views(files@)) <= u64::MAX,
    ensures
        r == total_size(gguf_files(file_views(files@))),
{
    let ghost fs = file_views(files@);
    let mut t: u64 = 0;
    let mut i: usize = 0;
    while i < files.len()
        invariant
            i <= files@.len(),
            fs == file_views(files@),
            t == total_size(gguf_files(fs.take(i as int))),
            total_size(fs) <= u64::MAX,
        decreases files.len() - i,
    {
        let ghost pre = fs.take(i as int);
        assert(fs.take(i + 1).drop_last() =~= pre);
        assert(fs.take(i + 1).last() == files@[i as int]@);
        proof {
            lemma_gguf_total_le(fs.take(i + 1));
            crate::hub::lemma_total_size_prefix(fs, i + 1);
        }
        if files[i].is_gguf {
            let ghost g = gguf_files(pre);
            assert(g.push(files@[i as int]@).drop_last() =~= g);
            t = t + files[i].size;
        }
        i += 1;
    }
    assert(fs.take(files.len() as int) =~= fs);
    t
}

fn total_of(files: &[ModelFile]) -> (r: u64)
    requires
        total_size(file_views(files@)) <= u64::MAX,
    ensures
        r == total_size(file_views(files@)),
{
    let ghost fs = file_views(files@);
    let mut t: u64 = 0;
    let mut i: usize = 0;
    while i < files.len()
        invariant
            i <= files@.len(),
            fs == file_views(files@),
            t == total_size(fs.take(i as int)),
            total_size(fs) <= u64::MAX,
        decreases files.len() - i,
    {
        assert(fs.take(i + 1).drop_last() =~= fs.take(i as int));
        assert(fs.take(i + 1).last() == files@[i as int]@);
        proof {
            crate::hub::lemma_total_size_prefix(fs, i + 1);
        }
        t = t + files[i].size;
        i += 1;
    }
    assert(fs.take(files.len() as int) =~= fs);
    t
}

/// Assemble the detail page: totals of the GGUF files and of all files,
/// the repository format and its variants, and the README (none when
/// empty, cut at the byte limit when longer).
pub fn finalize_detail(summary: ModelSummary, files: Vec<ModelFile>, readme_md: Option<String>) -> (r: ModelDetail)
    requires
        total_size(file_views(files@)) <= u64::MAX,
        readme_md matches Some(t) ==> (encode_utf8(t@).len() > readme_limit() ==> is_char_boundary(encode_utf8(t@), readme_limit() as int)),
        readme_md matches Some(t) ==> encode_utf8(t@).len() <= usize::MAX,
    ensures
        r.summary == summary,
        file_views(r.files@) == file_views(files@),
        r.gguf_total_size == total_size(gguf_files(file_views(files@))),
        r.all_total_size == total_size(file_views(files@)),
        r.format == format_of(file_views(files@), string_views(summary.tags@)),
        crate::hub::variants_of(file_views(files@), r.format, variant_views(r.variants@)),
        shown_readme(opt_str(readme_md), opt_str(r.readme_md)),
{
    let gguf_total_size = gguf_total(files.as_slice());
    let all_total_size = total_of(files.as_slice());
    let format = detect_format(files.as_slice(), summary.tags.as_slice());
    let variants = crate::hub::build_variants(format, files.as_slice());
    let shown = match readme_md {
        None => None,
        Some(text) => {
            if text.as_str().is_empty() {
                assert(text@.len() == 0);
                None
            } else if text.as_str().len() > 600000 {
                let (head, _) = text.as_str().split_at(600000);
                let mut s = String::from_str(head);
                s.append("\n\n<!-- truncated -->");
                proof {
                    lemma_encode_concat(head@, truncation_mark());
                    assert(encode_utf8(head@) =~= encode_utf8(text@).take(600000));
                    assert(s@ == head@ + truncation_mark());
                    assert(encode_utf8(s@) == encode_utf8(text@).take(readme_limit() as int) + encode_utf8(truncation_mark()));
                    assert(encode_utf8(text@).len() > readme_limit());
                }
                Some(s)
            } else {
                assert(encode_utf8(text@).len() <= readme_limit());
                assert(text@.len() != 0);
                Some(text)
            }
        },
    };
    assert(shown_readme(opt_str(readme_md), opt_str(shown)));
    ModelDetail {
        summary,
        format,
        variants,
        files,
        readme_md: shown,
        gguf_total_size,
        all_total_size,
    }
}

// ----------------------------------------------------------------- search

/// The query of a Hugging Face model search: limit, sort key, descending;
/// the trimmed search text when there is one; the GGUF filter when asked.
pub open spec fn hf_search_params(query: Seq<char>, sort_key: Seq<char>, gguf_only: bool, limit: u32) -> Seq<(Seq<char>, Seq<char>)> {
    let base = seq![("limit"@, decimal(limit as nat)), ("sort"@, sort_key), ("direction"@, "-1"@)];
    let with_q = if crate::text::trim(query).len() > 0 {
        base.push(("search"@, crate::text::trim(query)))
    } else {
        base
    };
    if gguf_only {
        with_q.push(("filter"@, "gguf"@))
    } else {
        with_q
    }
}

/// The URL of a Hugging Face model search on `src`.
pub fn hf_search_url(src: Source, query: &str, sort_key: &str, gguf_only: bool, limit: u32) -> (r: String)
    ensures
        r@ == crate::config::source_api_base(src) + "/api/models?"@ + crate::config::form_query(hf_search_params(query@, sort_key@, gguf_only, limit)),
{
    let mut params: Vec<(&str, String)> = Vec::new();
    let d = decimal_exec(limit as u64);
    params.push(("limit", string_from(d.as_slice())));
    params.push(("sort", String::from_str(sort_key)));
    params.push(("direction", String::from_str("-1")));
    let q = chars_of(query);
    let t = crate::text::trimmed(q.as_slice());
    if t.len() > 0 {
        params.push(("search", string_from(t.as_slice())));
    }
    if gguf_only {
        params.push(("filter", String::from_str("gguf")));
    }
    proof {
        let want = hf_search_params(query@, sort_key@, gguf_only, limit);
        assert(crate::config::param_views(params@) =~= want);
    }
    let enc = crate::config::serde_urlencoded(params.as_slice());
    let mut s = String::from_str(src.api_base());
    s.append("/api/models?");
    s.append(enc.as_str());
    s
}

/// What a Hugging Face search does after one request: answer with the
/// models found, answer with an empty list, answer with the request's
/// error, or try again sorted by downloads.
#[derive(PartialEq, Eq, Structural, Debug)]
pub enum AttemptStep {
    Found,
    Nothing,
    Failed,
    Retry,
}

/// The step after a request sorted by `sort_key`: `listed` is how many
/// entries the API listed (`None` when the request failed), `found` how
/// many of them could be read as models. A failed request is retried unless
/// it was already sorted by downloads; a listing of which nothing could be
/// read is retried too.
pub open spec fn attempt_step(sort_key: Seq<char>, listed: Option<usize>, found: usize) -> AttemptStep {
    match listed {
        Some(n) => if found > 0 {
            AttemptStep::Found
        } else if n == 0 {
            AttemptStep::Nothing
        } else {
            AttemptStep::Retry
        },
        None => if sort_key == "downloads"@ {
            AttemptStep::Failed
        } else {
            AttemptStep::Retry
        },
    }
}

pub fn after_attempt(sort_key: &str, listed: Option<usize>, found: usize) -> (r: AttemptStep)
    ensures
        r == attempt_step(sort_key@, listed, found),
{
    match listed {
        Some(n) => if found > 0 {
            AttemptStep::Found
        } else if n == 0 {
            AttemptStep::Nothing
        } else {
            AttemptStep::Retry
        },
        None => {
            let k = chars_of(sort_key);
            let d = chars_of("downloads");
            if crate::text::seq_eq(k.as_slice(), d.as_slice()) {
                AttemptStep::Failed
            } else {
                AttemptStep::Retry
            }
        },
    }
}

/// The name filter of a ModelScope search: the trimmed query; with the GGUF
/// filter on, `gguf` is added unless the query mentions it (any case).
pub open spec fn ms_name_filter(query: Seq<char>, gguf_only: bool) -> Seq<char> {
    let q = crate::text::trim(query);
    if !gguf_only {
        q
    } else if contains(lower_text(q), "gguf"@) {
        q
    } else if q.len() == 0 {
        "gguf"@
    } else {
        q + " gguf"@
    }
}

pub fn ms_name_query(query: &str, gguf_only: bool) -> (r: String)
    ensures
        r@ == ms_name_filter(query@, gguf_only),
{
    let c = chars_of(query);
    let t = crate::text::trimmed(c.as_slice());
    let q = string_from(t.as_slice());
    if !gguf_only {
        return q;
    }
    let low = to_lowercase(q.as_str());
    let lc = chars_of(low.as_str());
    let g = chars_of("gguf");
    if contains_seq(lc.as_slice(), g.as_slice()) {
        q
    } else if t.len() == 0 {
        String::from_str("gguf")
    } else {
        let mut s = q;
        s.append(" gguf");
        s
    }
}

// ---------------------------------------------------------------- avatars

/// Where organization avatars are looked up for a hub: ModelScope
/// publishers are looked up on the Hugging Face mirror.
pub open spec fn avatar_host(src: Source) -> Source {
    match src {
        Source::ModelScope => Source::HfMirror,
        _ => src,
    }
}

pub fn avatar_base(src: Source) -> (r: &'static str)
    ensures
        r@ == crate::config::source_api_base(avatar_host(src)),
{
    match src {
        Source::ModelScope => Source::HfMirror.api_base(),
        _ => src.api_base(),
    }
}

/// Drop each element equal to the one before it (`Vec::dedup`).
pub open spec fn dedup(s: Seq<Seq<char>>) -> Seq<Seq<char>>
    decreases s.len(),
{
    if s.len() == 0 {
        s
    } else {
        let d = dedup(s.drop_last());
        if s.len() >= 2 && s[s.len() - 2] == s.last() {
            d
        } else {
            d.push(s.last())
        }
    }
}

/// The avatar endpoints tried for an author, in order: the organizations
/// and the users endpoint on `base`, then on huggingface.co (repeats next
/// to each other dropped); the author is percent-encoded.
pub open spec fn avatar_endpoints(base: Seq<char>, author: Seq<char>) -> Seq<Seq<char>> {
    let enc = crate::config::encoded_path(encode_utf8(author));
    let hf = "https://huggingface.co"@;
    dedup(seq![
        base + "/api/organizations/"@ + enc + "/avatar"@,
        base + "/api/users/"@ + enc + "/avatar"@,
        hf + "/api/organizations/"@ + enc + "/avatar"@,
        hf + "/api/users/"@ + enc + "/avatar"@,
    ])
}

fn endpoint(base: &str, kind: &str, enc: &String) -> (r: String)
    ensures
        r@ == base@ + kind@ + enc@ + "/avatar"@,
{
    let mut s = String::from_str(base);
    s.append(kind);
    s.append(enc.as_str());
    s.append("/avatar");
    s
}

pub fn avatar_urls(base: &str, author: &str) -> (r: Vec<String>)
    ensures
        str_views(r@) == avatar_endpoints(base@, author@),
{
    let enc = crate::config::encode_path(author);
    let all: Vec<String> = vec![
        endpoint(base, "/api/organizations/", &enc),
        endpoint(base, "/api/users/", &enc),
        endpoint("https://huggingface.co", "/api/organizations/", &enc),
        endpoint("https://huggingface.co", "/api/users/", &enc),
    ];
    let ghost av = str_views(all@);
    let mut out: Vec<String> = Vec::new();
    let mut i: usize = 0;
    while i < all.len()
        invariant
            i <= all@.len(),
            av == str_views(all@),
            str_views(out@) == dedup(av.take(i as int)),
        decreases all.len() - i,
    {
        assert(av.take(i + 1).drop_last() =~= av.take(i as int));
        assert(av.take(i + 1).last() == all@[i as int]@);
        let dup = i > 0 && {
            let a = chars_of(all[i - 1].as_str());
            let b = chars_of(all[i].as_str());
            seq_eq(a.as_slice(), b.as_slice())
        };
        proof {
            if i > 0 {
                assert(av.take(i + 1)[i - 1] == all@[i - 1]@);
            }
        }
        if !dup {
            let ghost before = str_views(out@);
            out.push(all[i].clone());
            assert(str_views(out@) =~= before.push(all@[i as int]@));
        }
        i += 1;
    }
    assert(av.take(all.len() as int) =~= av);
    assert(av =~= seq![
        base@ + "/api/organizations/"@ + crate::config::encoded_path(encode_utf8(author@)) + "/avatar"@,
        base@ + "/api/users/"@ + crate::config::encoded_path(encode_utf8(author@)) + "/avatar"@,
        "https://huggingface.co"@ + "/api/organizations/"@ + crate::config::encoded_path(encode_utf8(author@)) + "/avatar"@,
        "https://huggingface.co"@ + "/api/users/"@ + crate::config::encoded_path(encode_utf8(author@)) + "/avatar"@,
    ]);
    out
}

/// Authors can have an avatar looked up: non-empty, without `/`.
pub open spec fn avatar_author(author: Seq<char>) -> bool {
    author.len() > 0 && !contains(author, "/"@)
}

pub fn is_avatar_author(author: &str) -> (r: bool)
    ensures
        r == avatar_author(author@),
{
    let a = chars_of(author);
    let slash = chars_of("/");
    a.len() > 0 && !contains_seq(a.as_slice(), slash.as_slice())
}

/// The authors whose avatars a result list still needs, in list order,
/// each once, 48 at most: results without an avatar whose author can be
/// looked up and is not cached yet (`cached[i]`).
pub open spec fn avatar_needs(ss: Seq<ModelSummary>, cached: Seq<bool>, n: int) -> Seq<Seq<char>>
    decreases n,
{
    if n <= 0 {
        Seq::empty()
    } else {
        let todo = avatar_needs(ss, cached, n - 1);
        let s = ss[n - 1];
        if todo.len() >= 48 || s.avatar is Some || !avatar_author(s.author@) || cached[n - 1]
            || todo.contains(s.author@) {
            todo
        } else {
            todo.push(s.author@)
        }
    }
}

pub fn avatar_todo(list: &Vec<ModelSummary>, cached: &Vec<bool>) -> (r: Vec<String>)
    requires
        cached@.len() == list@.len(),
    ensures
        str_views(r@) == avatar_needs(list@, cached@, list@.len() as int),
{
    let mut todo: Vec<String> = Vec::new();
    let mut i: usize = 0;
    while i < list.len()
        invariant
            i <= list@.len(),
            cached@.len() == list@.len(),
            str_views(todo@) == avatar_needs(list@, cached@, i as int),
            todo@.len() <= 48,
        decreases list.len() - i,
    {
        let a = chars_of(list[i].author.as_str());
        let lookable = is_avatar_author(list[i].author.as_str());
        if todo.len() < 48 && list[i].avatar.is_none() && lookable && !cached[i] {
            let mut seen = false;
            let mut k: usize = 0;
            while k < todo.len()
                invariant
                    k <= todo@.len(),
                    i < list@.len(),
                    a@ == list@[i as int].author@,
                    seen == exists|j: int| 0 <= j < k && str_views(todo@)[j] == list@[i as int].author@,
                decreases todo.len() - k,
            {
                let t = chars_of(todo[k].as_str());
                if seq_eq(t.as_slice(), a.as_slice()) {
                    seen = true;
                    assert(str_views(todo@)[k as int] == list@[i as int].author@);
                } else {
                    assert(str_views(todo@)[k as int] != list@[i as int].author@);
                    assert forall|j: int| 0 <= j < k + 1 && str_views(todo@)[j] == list@[i as int].author@ implies j < k by {}
                }
                k += 1;
            }
            proof {
                if seen {
                    let j = choose|j: int| 0 <= j < todo@.len() && str_views(todo@)[j] == list@[i as int].author@;
                    assert(str_views(todo@).contains(list@[i as int].author@));
                } else {
                    assert(!str_views(todo@).contains(list@[i as int].author@));
                }
            }
            if !seen {
                let ghost before = str_views(todo@);
                todo.push(list[i].author.clone());
                assert(str_views(todo@) =~= before.push(list@[i as int].author@));
            }
        }
        i += 1;
    }
    todo
}

} // verus!
