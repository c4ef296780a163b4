//! Local models: what the scanned cache and library files become, their
//! ids, names and order, and the results of moving or deleting them.
use vstd::prelude::*;
use std::collections::hash_map::DefaultHasher;
use std::hash::Hasher;
use vstd::std_specs::hash::DefaultHasherAdditionalSpecFns;
use vstd::utf8::encode_utf8;
use crate::text::{chars_of, string_from, seq_eq, starts_with, has_prefix, slice_vec, hex_char, hex_char_exec, decimal, decimal_exec};
use crate::config::{opt_str, str_views};
use crate::gguf::{GgufMeta, MetaModel};
use crate::hub::{after_last_slash, after_last_slash_exec, has_lit_suffix, lower_chars, name_quant};
use crate::unicode::lower_text;
use crate::text::ends_with;
use crate::sort::{StrictWeakOrder, stable_sort, stable_sorted, lt_of, lemma_sorted_map, lex_lt, lex_less, lemma_lex_asym, lemma_lex_neg_trans};

verus! {

pub const ORIGIN_LIBRARY: &'static str = "lalalm-library";
pub const ORIGIN_HF: &'static str = "huggingface-cache";
pub const ORIGIN_LMS: &'static str = "lm-studio";
pub const ORIGIN_MS: &'static str = "modelscope-cache";
pub const ORIGIN_CUSTOM: &'static str = "custom";

/// The most GGUF headers one scan reads.
pub const MAX_META_READS: usize = 400;

// -------------------------------------------------------------- model ids

/// `n`'s last `k` hex digits, lower case, most significant first.
pub open spec fn hex_digits(n: nat, k: nat) -> Seq<char>
    decreases k,
{
    if k == 0 {
        Seq::empty()
    } else {
        hex_digits(n / 16, (k - 1) as nat).push(hex_char(n % 16))
    }
}

fn hex_digits_exec(n: u64, k: usize) -> (r: Vec<char>)
    ensures
        r@ == hex_digits(n as nat, k as nat),
    decreases k,
{
    if k == 0 {
        Vec::new()
    } else {
        let mut v = hex_digits_exec(n / 16, k - 1);
        v.push(hex_char_exec(n % 16));
        v
    }
}

/// What `DefaultHasher` yields for a string hashed as `Hash for str` does:
/// its UTF-8 bytes, then the byte `0xff`.
pub open spec fn str_hash(s: Seq<char>) -> u64 {
    DefaultHasher::spec_finish(seq![encode_utf8(s), seq![0xffu8]])
}

/// A stable id for a path: its `DefaultHasher` hash as 16 hex digits.
pub fn hash_id(s: &str) -> (r: String)
    ensures
        r@ == hex_digits(str_hash(s@) as nat, 16),
{
    let mut h = DefaultHasher::new();
    let b = s.as_bytes();
    assert(b@ == encode_utf8(s@));
    h.write(b);
    let end: [u8; 1] = [0xff];
    let es = end.as_slice();
    assert(es@ =~= seq![0xffu8]);
    h.write(es);
    assert(h@ =~= seq![encode_utf8(s@), seq![0xffu8]]);
    let x = h.finish();
    let d = hex_digits_exec(x, 16);
    string_from(d.as_slice())
}

// ------------------------------------------------------------ file kinds

/// Model file kind by its lower-cased name.
pub open spec fn kind_spec(name: Seq<char>) -> Option<Seq<char>> {
    if ends_with(lower_text(name), ".gguf"@) {
        Some("gguf"@)
    } else if ends_with(lower_text(name), ".safetensors"@) {
        Some("safetensors"@)
    } else {
        None
    }
}

pub fn kind_of(name: &str) -> (r: Option<&'static str>)
    ensures
        match r {
            Some(k) => kind_spec(name@) == Some(k@),
            None => kind_spec(name@) is None,
        },
{
    let low = lower_chars(name);
    if has_lit_suffix(low.as_slice(), ".gguf") {
        Some("gguf")
    } else if has_lit_suffix(low.as_slice(), ".safetensors") {
        Some("safetensors")
    } else {
        None
    }
}

// ------------------------------------------------------ repository names

/// `models--org--name` → `org/name`: after the `models--` prefix, the org
/// before the first `--` and the name after it, both non-empty.
pub open spec fn hf_repo_of(dir: Seq<char>) -> Option<Seq<char>> {
    if !starts_with(dir, "models--"@) {
        None
    } else {
        let rest = dir.skip(8);
        if exists|i: int| #[trigger] crate::text::has_at(rest, "--"@, i) {
            let i = first_dash2(rest, 0);
            let org = rest.take(i);
            let name = rest.skip(i + 2);
            if org.len() == 0 || name.len() == 0 {
                None
            } else {
                Some(org + "/"@ + name)
            }
        } else {
            None
        }
    }
}

/// First position at or after `i` where `--` starts (`s.len()` if none).
pub open spec fn first_dash2(s: Seq<char>, i: int) -> int
    decreases s.len() - i,
{
    if i < 0 || i + 1 >= s.len() {
        s.len() as int
    } else if s[i] == '-' && s[i + 1] == '-' {
        i
    } else {
        first_dash2(s, i + 1)
    }
}

proof fn lemma_first_dash2(s: Seq<char>, i: int)
    requires
        0 <= i <= s.len(),
    ensures
        first_dash2(s, i) == s.len() <==> forall|k: int| i <= k < s.len() - 1 ==> !(#[trigger] s[k] == '-' && s[k + 1] == '-'),
        first_dash2(s, i) < s.len() ==> i <= first_dash2(s, i) && first_dash2(s, i) + 1 < s.len()
            && s[first_dash2(s, i)] == '-' && s[first_dash2(s, i) + 1] == '-',
        forall|k: int| i <= k < first_dash2(s, i) && k + 1 < s.len() ==> !(#[trigger] s[k] == '-' && s[k + 1] == '-'),
    decreases s.len() - i,
{
    if i + 1 < s.len() && !(s[i] == '-' && s[i + 1] == '-') {
        lemma_first_dash2(s, i + 1);
    }
}

/// The repository of a Hugging Face cache directory name
/// (`models--meta-llama--Llama-2-7b-hf` → `meta-llama/Llama-2-7b-hf`).
pub fn decode_hf_repo(dir_name: &str) -> (r: Option<String>)
    ensures
        opt_str(r) == hf_repo_of(dir_name@),
{
    let d = chars_of(dir_name);
    let pre = chars_of("models--");
    proof {
        reveal_strlit("models--");
        reveal_strlit("--");
    }
    if !has_prefix(d.as_slice(), pre.as_slice()) {
        return None;
    }
    let rest = slice_vec(d.as_slice(), 8, d.len());
    assert(rest@ =~= dir_name@.skip(8));
    let mut i: usize = 0;
    proof {
        lemma_first_dash2(rest@, 0);
    }
    while i < rest.len() && i + 1 < rest.len() && !(rest[i] == '-' && rest[i + 1] == '-')
        invariant
            i <= rest@.len(),
            first_dash2(rest@, 0) == first_dash2(rest@, i as int),
        decreases rest.len() - i,
    {
        i += 1;
    }
    proof {
        lemma_first_dash2(rest@, 0);
        if i + 1 < rest@.len() {
            assert(crate::text::has_at(rest@, "--"@, i as int)) by {
                assert(rest@.subrange(i as int, i + 2) =~= "--"@);
            }
        } else {
            assert(first_dash2(rest@, i as int) == rest@.len());
            assert forall|k: int| !crate::text::has_at(rest@, "--"@, k) by {
                if crate::text::has_at(rest@, "--"@, k) {
                    assert(rest@.subrange(k, k + 2)[0] == '-');
                    assert(rest@.subrange(k, k + 2)[1] == '-');
                }
            }
        }
    }
    if i + 1 >= rest.len() {
        return None;
    }
    let org = slice_vec(rest.as_slice(), 0, i);
    let name = slice_vec(rest.as_slice(), i + 2, rest.len());
    if org.len() == 0 || name.len() == 0 {
        return None;
    }
    let mut s = string_from(org.as_slice());
    s.append("/");
    let n = string_from(name.as_slice());
    s.append(n.as_str());
    Some(s)
}

/// The repository of a path below a library or LM Studio root, given the
/// components of its directory relative to the root: the components joined
/// by `/`, when that holds at least one `/`.
pub open spec fn joined_components(parts: Seq<Seq<char>>) -> Seq<char>
    decreases parts.len(),
{
    if parts.len() == 0 {
        Seq::empty()
    } else if parts.len() == 1 {
        parts[0]
    } else {
        joined_components(parts.drop_last()) + "/"@ + parts.last()
    }
}

pub open spec fn count_slashes(s: Seq<char>) -> nat
    decreases s.len(),
{
    if s.len() == 0 {
        0
    } else {
        count_slashes(s.drop_last()) + if s.last() == '/' { 1nat } else { 0nat }
    }
}

pub open spec fn library_repo(parts: Seq<Seq<char>>) -> Option<Seq<char>> {
    if count_slashes(joined_components(parts)) >= 1 {
        Some(joined_components(parts))
    } else {
        None
    }
}

fn join_parts(parts: &Vec<String>) -> (r: Vec<char>)
    ensures
        r@ == joined_components(str_views(parts@)),
{
    let mut out: Vec<char> = Vec::new();
    let mut i: usize = 0;
    while i < parts.len()
        invariant
            i <= parts@.len(),
            out@ == joined_components(str_views(parts@).take(i as int)),
        decreases parts.len() - i,
    {
        let ghost pv = str_views(parts@).take(i + 1);
        assert(pv.drop_last() =~= str_views(parts@).take(i as int));
        assert(pv.last() == parts@[i as int]@);
        let p = chars_of(parts[i].as_str());
        let ghost prev = out@;
        if i > 0 {
            out.push('/');
        }
        let ghost before = out@;
        let mut j: usize = 0;
        while j < p.len()
            invariant
                j <= p@.len(),
                out@ == before + p@.take(j as int),
            decreases p.len() - j,
        {
            out.push(p[j]);
            assert(out@ =~= before + p@.take(j + 1));
            j += 1;
        }
        proof {
            assert(p@.take(p@.len() as int) =~= p@);
            if i == 0 {
                assert(before =~= Seq::<char>::empty());
                assert(out@ =~= pv[0]);
            } else {
                reveal_strlit("/");
                assert(before =~= prev + "/"@);
                assert(out@ =~= joined_components(str_views(parts@).take(i as int)) + "/"@ + p@);
            }
        }
        i += 1;
    }
    assert(str_views(parts@).take(parts.len() as int) =~= str_views(parts@));
    out
}

fn count_slashes_exec(s: &[char]) -> (r: usize)
    ensures
        r == count_slashes(s@),
{
    let mut n: usize = 0;
    let mut i: usize = 0;
    while i < s.len()
        invariant
            i <= s.len(),
            n == count_slashes(s@.take(i as int)),
            n <= i,
        decreases s.len() - i,
    {
        assert(s@.take(i + 1).drop_last() =~= s@.take(i as int));
        if s[i] == '/' {
            n += 1;
        }
        i += 1;
    }
    assert(s@.take(s.len() as int) =~= s@);
    n
}

/// The repository a library file belongs to, from the components of its
/// directory below the root: at least two components make `org/name/…`.
pub fn repo_from_components(parts: &Vec<String>) -> (r: Option<String>)
    ensures
        opt_str(r) == library_repo(str_views(parts@)),
{
    let j = join_parts(parts);
    if count_slashes_exec(j.as_slice()) >= 1 {
        Some(string_from(j.as_slice()))
    } else {
        None
    }
}

/// The repository of a ModelScope cache file, from the components of its
/// directory below the cache: `org/name` of the first two, after a leading
/// `models` component.
pub open spec fn ms_cache_repo(parts: Seq<Seq<char>>) -> Option<Seq<char>> {
    let p = if parts.len() > 0 && parts[0] == "models"@ {
        parts.skip(1)
    } else {
        parts
    };
    if p.len() >= 2 {
        Some(p[0] + "/"@ + p[1])
    } else {
        None
    }
}

pub fn ms_repo_from_components(parts: &Vec<String>) -> (r: Option<String>)
    ensures
        opt_str(r) == ms_cache_repo(str_views(parts@)),
{
    let skip: usize = if parts.len() > 0 && {
        let a = chars_of(parts[0].as_str());
        let b = chars_of("models");
        seq_eq(a.as_slice(), b.as_slice())
    } {
        1
    } else {
        0
    };
    proof {
        if parts@.len() > 0 {
            assert(str_views(parts@)[0] == parts@[0]@);
        }
    }
    if parts.len() >= skip + 2 {
        let mut s = parts[skip].clone();
        s.append("/");
        s.append(parts[skip + 1].as_str());
        proof {
            let p = if skip == 1 { str_views(parts@).skip(1) } else { str_views(parts@) };
            assert(p[0] == parts@[skip as int]@);
            assert(p[1] == parts@[skip + 1]@);
        }
        Some(s)
    } else {
        None
    }
}

/// The display name of a local model: the last segment of its repository,
/// else of its family.
pub open spec fn display_name(repo: Option<Seq<char>>, family: Seq<char>) -> Seq<char> {
    match repo {
        Some(r) => after_last_slash(r),
        None => after_last_slash(family),
    }
}

/// The family of a Hugging Face cache file: the model name of its
/// repository (what follows its last `/`).
pub fn hf_family(repo: &str) -> (r: String)
    ensures
        r@ == after_last_slash(repo@),
{
    let c = chars_of(repo);
    let n = after_last_slash_exec(c.as_slice());
    string_from(n.as_slice())
}

// ------------------------------------------------------------ local models

/// One model file found on this machine.
#[derive(Debug)]
pub struct LocalModel {
    pub id: String,
    pub name: String,
    pub repo: Option<String>,
    pub family: String,
    pub quant: Option<String>,
    pub file_path: String,
    pub file_name: String,
    pub size: u64,
    pub modified: u64,
    pub origin: String,
    pub kind: String,
    pub meta: Option<GgufMeta>,
}

pub struct LocalView {
    pub id: Seq<char>,
    pub name: Seq<char>,
    pub repo: Option<Seq<char>>,
    pub family: Seq<char>,
    pub quant: Option<Seq<char>>,
    pub file_path: Seq<char>,
    pub file_name: Seq<char>,
    pub size: u64,
    pub modified: u64,
    pub origin: Seq<char>,
    pub kind: Seq<char>,
    pub meta: Option<MetaModel>,
}

pub open spec fn meta_view(m: Option<GgufMeta>) -> Option<MetaModel> {
    match m {
        Some(x) => Some(x@),
        None => None,
    }
}

impl View for LocalModel {
    type V = LocalView;

    open spec fn view(&self) -> LocalView {
        LocalView {
            id: self.id@,
            name: self.name@,
            repo: opt_str(self.repo),
            family: self.family@,
            quant: opt_str(self.quant),
            file_path: self.file_path@,
            file_name: self.file_name@,
            size: self.size,
            modified: self.modified,
            origin: self.origin@,
            kind: self.kind@,
            meta: meta_view(self.meta),
        }
    }
}

pub open spec fn local_views(v: Seq<LocalModel>) -> Seq<LocalView> {
    Seq::new(v.len(), |i: int| v[i]@)
}

/// A model file found by a scan, with what the file system told of it.
pub struct ScanEntry {
    /// The path as text.
    pub path: String,
    /// The canonical path (the path itself when it cannot be resolved).
    pub canonical: String,
    /// The file name, when it is valid Unicode.
    pub file_name: Option<String>,
    pub origin: String,
    pub repo: Option<String>,
    pub family: String,
    /// Size and modification time (unix seconds, 0 when unknown), when the
    /// file's metadata could be read.
    pub metadata: Option<(u64, u64)>,
}

/// No earlier entry has the same canonical path.
pub open spec fn first_seen(es: Seq<ScanEntry>, i: int) -> bool {
    forall|j: int| 0 <= j < i ==> (#[trigger] es[j]).canonical@ != es[i].canonical@
}

/// Entry `i` becomes a model: first of its canonical path, a model file by
/// name, with readable metadata.
pub open spec fn kept(es: Seq<ScanEntry>, i: int) -> bool {
    &&& first_seen(es, i)
    &&& es[i].file_name is Some
    &&& kind_spec(es[i].file_name->0@) is Some
    &&& es[i].metadata is Some
}

/// Which of the first `n` entries get their GGUF header read: kept GGUF
/// files, the first `MAX_META_READS` of them.
pub open spec fn meta_flags(es: Seq<ScanEntry>, n: nat) -> Seq<bool>
    decreases n,
{
    if n == 0 {
        Seq::empty()
    } else {
        let f = meta_flags(es, (n - 1) as nat);
        let i = n - 1;
        f.push(kept(es, i) && kind_spec(es[i].file_name->0@) == Some("gguf"@) && count_true(f) < 400)
    }
}

pub open spec fn count_true(f: Seq<bool>) -> nat
    decreases f.len(),
{
    if f.len() == 0 {
        0
    } else {
        count_true(f.drop_last()) + if f.last() { 1nat } else { 0nat }
    }
}

/// The model entry `i` yields, `meta` being its header when it was read.
pub open spec fn model_of(e: ScanEntry, meta: Option<MetaModel>) -> LocalView {
    let file_name = e.file_name->0@;
    let (size, modified) = match e.metadata {
        Some(m) => m,
        None => (0u64, 0u64),
    };
    LocalView {
        id: hex_digits(str_hash(e.path@) as nat, 16),
        name: display_name(opt_str(e.repo), e.family@),
        repo: opt_str(e.repo),
        family: e.family@,
        quant: match meta {
            Some(m) => match m.quant {
                Some(q) => Some(q),
                None => name_quant(file_name),
            },
            None => name_quant(file_name),
        },
        file_path: e.path@,
        file_name,
        size,
        modified,
        origin: e.origin@,
        kind: kind_spec(file_name)->0,
        meta,
    }
}

/// The models of the first `n` entries, in scan order; `metas[i]` is the
/// header read for entry `i`, used where `meta_flags` says it was read.
pub open spec fn scanned_models(es: Seq<ScanEntry>, metas: Seq<Option<MetaModel>>, n: nat) -> Seq<LocalView>
    decreases n,
{
    if n == 0 {
        Seq::empty()
    } else {
        let i = n - 1;
        let rest = scanned_models(es, metas, (n - 1) as nat);
        if kept(es, i) {
            rest.push(model_of(es[i], if meta_flags(es, n)[i] { metas[i] } else { None }))
        } else {
            rest
        }
    }
}

/// Local models by family, then the larger first, then by file name.
pub open spec fn local_order() -> spec_fn(LocalView, LocalView) -> bool {
    |a: LocalView, b: LocalView| lex_lt(a.family, b.family) || (a.family == b.family && (a.size > b.size
        || (a.size == b.size && lex_lt(a.file_name, b.file_name))))
}

proof fn lemma_flags_prefix(es: Seq<ScanEntry>, m: nat, n: nat)
    requires
        m <= n,
    ensures
        meta_flags(es, n).len() == n,
        meta_flags(es, n).take(m as int) == meta_flags(es, m),
    decreases n,
{
    if n > 0 {
        lemma_flags_prefix(es, if m == n { (n - 1) as nat } else { m }, (n - 1) as nat);
        if m < n {
            assert(meta_flags(es, n).take(m as int) =~= meta_flags(es, (n - 1) as nat).take(m as int));
        } else {
            assert(meta_flags(es, n).take(m as int) =~= meta_flags(es, n));
        }
    }
}

fn canonical_chars(entries: &Vec<ScanEntry>) -> (r: Vec<Vec<char>>)
    ensures
        r@.len() == entries@.len(),
        forall|i: int| 0 <= i < entries@.len() ==> (#[trigger] r@[i])@ == entries@[i].canonical@,
{
    let mut r: Vec<Vec<char>> = Vec::new();
    let mut i: usize = 0;
    while i < entries.len()
        invariant
            i <= entries@.len(),
            r@.len() == i,
            forall|k: int| 0 <= k < i ==> (#[trigger] r@[k])@ == entries@[k].canonical@,
        decreases entries.len() - i,
    {
        r.push(chars_of(entries[i].canonical.as_str()));
        i += 1;
    }
    r
}

fn is_kept(entries: &Vec<ScanEntry>, canon: &Vec<Vec<char>>, i: usize) -> (r: bool)
    requires
        i < entries@.len(),
        canon@.len() == entries@.len(),
        forall|k: int| 0 <= k < entries@.len() ==> (#[trigger] canon@[k])@ == entries@[k].canonical@,
    ensures
        r == kept(entries@, i as int),
{
    let mut j: usize = 0;
    while j < i
        invariant
            j <= i < entries@.len(),
            canon@.len() == entries@.len(),
            forall|k: int| 0 <= k < entries@.len() ==> (#[trigger] canon@[k])@ == entries@[k].canonical@,
            forall|k: int| 0 <= k < j ==> (#[trigger] entries@[k]).canonical@ != entries@[i as int].canonical@,
        decreases i - j,
    {
        if seq_eq(canon[j].as_slice(), canon[i].as_slice()) {
            assert(!first_seen(entries@, i as int)) by {
                assert(entries@[j as int].canonical@ == entries@[i as int].canonical@);
            }
            return false;
        }
        j += 1;
    }
    match &entries[i].file_name {
        Some(n) => kind_of(n.as_str()).is_some() && entries[i].metadata.is_some(),
        None => false,
    }
}

/// Which entries get their GGUF header read (`meta_flags`): the first
/// `MAX_META_READS` GGUF files that become models.
pub fn meta_wanted(entries: &Vec<ScanEntry>) -> (r: Vec<bool>)
    ensures
        r@ == meta_flags(entries@, entries@.len()),
{
    let canon = canonical_chars(entries);
    let mut flags: Vec<bool> = Vec::new();
    let mut reads: usize = 0;
    let mut i: usize = 0;
    while i < entries.len()
        invariant
            i <= entries@.len(),
            canon@.len() == entries@.len(),
            forall|k: int| 0 <= k < entries@.len() ==> (#[trigger] canon@[k])@ == entries@[k].canonical@,
            flags@ == meta_flags(entries@, i as nat),
            reads == count_true(flags@),
            reads <= i,
        decreases entries.len() - i,
    {
        let k = is_kept(entries, &canon, i);
        let gguf = match &entries[i].file_name {
            Some(n) => match kind_of(n.as_str()) {
                Some(kd) => {
                    let a = chars_of(kd);
                    let b = chars_of("gguf");
                    seq_eq(a.as_slice(), b.as_slice())
                },
                None => false,
            },
            None => false,
        };
        let f = k && gguf && reads < 400;
        let ghost before = flags@;
        flags.push(f);
        assert(flags@.drop_last() =~= before);
        if f {
            reads += 1;
        }
        i += 1;
    }
    flags
}

pub open spec fn meta_views(v: Seq<Option<GgufMeta>>) -> Seq<Option<MetaModel>> {
    Seq::new(v.len(), |i: int| meta_view(v[i]))
}

fn dup_opt(o: &Option<String>) -> (r: Option<String>)
    ensures
        opt_str(r) == opt_str(*o),
{
    match o {
        Some(s) => Some(s.clone()),
        None => None,
    }
}

fn build_model(e: &ScanEntry, meta: Option<GgufMeta>) -> (r: LocalModel)
    requires
        e.file_name is Some,
        kind_spec(e.file_name->0@) is Some,
    ensures
        r@ == model_of(*e, meta_view(meta)),
{
    let file_name = match &e.file_name {
        Some(n) => n.clone(),
        None => String::new(),
    };
    let kind = match kind_of(file_name.as_str()) {
        Some(k) => String::from_str(k),
        None => String::new(),
    };
    let quant = match &meta {
        Some(m) => match &m.quant {
            Some(q) => Some(q.clone()),
            None => crate::gguf::quant_from_filename(file_name.as_str()),
        },
        None => crate::gguf::quant_from_filename(file_name.as_str()),
    };
    let name = match &e.repo {
        Some(r) => {
            let c = chars_of(r.as_str());
            string_from(after_last_slash_exec(c.as_slice()).as_slice())
        },
        None => {
            let c = chars_of(e.family.as_str());
            string_from(after_last_slash_exec(c.as_slice()).as_slice())
        },
    };
    let (size, modified) = match e.metadata {
        Some(m) => m,
        None => (0, 0),
    };
    LocalModel {
        id: hash_id(e.path.as_str()),
        name,
        repo: dup_opt(&e.repo),
        family: e.family.clone(),
        quant,
        file_path: e.path.clone(),
        file_name,
        size,
        modified,
        origin: e.origin.clone(),
        kind,
        meta,
    }
}

/// A local model wrapped for sorting by `local_order`.
pub struct ByFamily {
    pub model: LocalModel,
}

impl StrictWeakOrder for ByFamily {
    open spec fn lt(a: Self, b: Self) -> bool {
        local_order()(a.model@, b.model@)
    }

    fn exec_lt(&self, other: &Self) -> (r: bool) {
        let fa = chars_of(self.model.family.as_str());
        let fb = chars_of(other.model.family.as_str());
        if lex_less(fa.as_slice(), fb.as_slice()) {
            return true;
        }
        if !seq_eq(fa.as_slice(), fb.as_slice()) {
            return false;
        }
        if self.model.size != other.model.size {
            return self.model.size > other.model.size;
        }
        let na = chars_of(self.model.file_name.as_str());
        let nb = chars_of(other.model.file_name.as_str());
        lex_less(na.as_slice(), nb.as_slice())
    }

    proof fn lemma_asym(a: Self, b: Self) {
        crate::sort::lemma_lex_asym(a.model.family@, b.model.family@);
        crate::sort::lemma_lex_asym(a.model.file_name@, b.model.file_name@);
        crate::sort::lemma_lex_irrefl(a.model.family@);
    }

    proof fn lemma_neg_trans(a: Self, b: Self, c: Self) {
        let (fa, fb, fc) = (a.model.family@, b.model.family@, c.model.family@);
        let (na, nb, nc) = (a.model.file_name@, b.model.file_name@, c.model.file_name@);
        crate::sort::lemma_lex_total(fa, fc);
        crate::sort::lemma_lex_total(fc, fb);
        crate::sort::lemma_lex_trans(fa, fc, fb);
        crate::sort::lemma_lex_trans(fc, fa, fb);
        crate::sort::lemma_lex_trans(fa, fb, fc);
        crate::sort::lemma_lex_irrefl(fa);
        crate::sort::lemma_lex_neg_trans(na, nb, nc);
        crate::sort::lemma_lex_asym(fa, fb);
        crate::sort::lemma_lex_asym(fc, fb);
        crate::sort::lemma_lex_asym(fa, fc);
    }
}

fn sort_local(v: Vec<LocalModel>) -> (r: Vec<LocalModel>)
    ensures
        stable_sorted(local_views(r@), local_views(v@), local_order()),
{
    let ghost orig = v@;
    let mut src = v;
    let mut w: Vec<ByFamily> = Vec::new();
    let mut i: usize = 0;
    let n = src.len();
    while src.len() > 0
        invariant
            i + src@.len() == orig.len(),
            orig.len() == n,
            src@ == orig.subrange(i as int, orig.len() as int),
            w@.len() == i,
            forall|k: int| 0 <= k < i ==> (#[trigger] w@[k]).model@ == orig[k]@,
        decreases src.len(),
    {
        let f = src.remove(0);
        w.push(ByFamily { model: f });
        i += 1;
    }
    let ghost wv = w@;
    let sorted = stable_sort(w);
    let mut out: Vec<LocalModel> = Vec::new();
    let mut rest = sorted;
    let ghost sv = rest@;
    let mut j: usize = 0;
    let m = rest.len();
    while rest.len() > 0
        invariant
            j + rest@.len() == sv.len(),
            sv.len() == m,
            rest@ == sv.subrange(j as int, sv.len() as int),
            out@.len() == j,
            forall|k: int| 0 <= k < j ==> (#[trigger] out@[k])@ == sv[k].model@,
        decreases rest.len(),
    {
        let b = rest.remove(0);
        out.push(b.model);
        j += 1;
    }
    proof {
        let f = |x: ByFamily| x.model@;
        assert forall|a: ByFamily, b: ByFamily| #[trigger] lt_of::<ByFamily>()(a, b) == local_order()(f(a), f(b)) by {}
        lemma_sorted_map(sv, wv, lt_of::<ByFamily>(), local_order(), f);
        assert(sv.map_values(f) =~= local_views(out@));
        assert(wv.map_values(f) =~= local_views(orig));
    }
    out
}

/// The local models of a scan: one per canonical path (the first entry
/// wins), model files with readable metadata only; `metas[i]` is the header
/// read for entry `i` where `meta_wanted` asked for it. Ordered by family,
/// then the larger first, then by file name.
pub fn local_models(entries: &Vec<ScanEntry>, metas: Vec<Option<GgufMeta>>) -> (r: Vec<LocalModel>)
    requires
        metas@.len() == entries@.len(),
    ensures
        stable_sorted(local_views(r@), scanned_models(entries@, meta_views(metas@), entries@.len()), local_order()),
{
    let ghost es = entries@;
    let ghost mv = meta_views(metas@);
    let flags = meta_wanted(entries);
    let canon = canonical_chars(entries);
    let mut rest = metas;
    let mut models: Vec<LocalModel> = Vec::new();
    let mut i: usize = 0;
    while i < entries.len()
        invariant
            i <= entries@.len(),
            es == entries@,
            flags@ == meta_flags(es, es.len()),
            canon@.len() == entries@.len(),
            forall|k: int| 0 <= k < entries@.len() ==> (#[trigger] canon@[k])@ == entries@[k].canonical@,
            rest@.len() == es.len() - i,
            forall|k: int| 0 <= k < rest@.len() ==> meta_view(#[trigger] rest@[k]) == mv[i + k],
            mv.len() == es.len(),
            local_views(models@) == scanned_models(es, mv, i as nat),
        decreases entries.len() - i,
    {
        let ghost r0 = rest@;
        let meta = rest.remove(0);
        assert(meta_view(meta) == mv[i as int]) by {
            assert(meta_view(r0[0]) == mv[i + 0]);
        }
        assert forall|k: int| 0 <= k < rest@.len() implies meta_view(#[trigger] rest@[k]) == mv[(i + 1) + k] by {
            assert(rest@[k] == r0[k + 1]);
            assert(meta_view(r0[k + 1]) == mv[i + (k + 1)]);
        }
        proof {
            lemma_flags_prefix(es, (i + 1) as nat, es.len());
            assert(flags@[i as int] == meta_flags(es, (i + 1) as nat)[i as int]) by {
                assert(meta_flags(es, es.len()).take(i + 1)[i as int] == meta_flags(es, es.len())[i as int]);
            }
        }
        if is_kept(entries, &canon, i) {
            let m = if flags[i] {
                meta
            } else {
                None
            };
            let ghost mm = if meta_flags(es, (i + 1) as nat)[i as int] { mv[i as int] } else { None };
            assert(meta_view(m) == mm);
            let model = build_model(&entries[i], m);
            let ghost before = local_views(models@);
            models.push(model);
            assert(local_views(models@) =~= before.push(model_of(es[i as int], mm)));
        }
        i += 1;
    }
    sort_local(models)
}

// ------------------------------------------------------------- operations

/// What moving or deleting one path came to.
#[derive(Debug)]
pub struct OpResult {
    pub path: String,
    pub to: Option<String>,
    pub ok: bool,
    pub error: Option<String>,
}

/// Message of a destination that could not be created.
pub open spec fn dest_failure() -> Seq<char> {
    "目标目录不可创建"@
}

pub open spec fn op_views(v: Seq<OpResult>) -> Seq<(Seq<char>, Option<Seq<char>>, bool, Option<Seq<char>>)> {
    Seq::new(v.len(), |i: int| (v[i].path@, opt_str(v[i].to), v[i].ok, opt_str(v[i].error)))
}

/// Every path failed because the destination could not be created.
pub fn dest_failed(paths: &Vec<String>) -> (r: Vec<OpResult>)
    ensures
        op_views(r@) == Seq::new(paths@.len(), |i: int| (paths@[i]@, None::<Seq<char>>, false, Some(dest_failure()))),
{
    let mut r: Vec<OpResult> = Vec::new();
    let mut i: usize = 0;
    while i < paths.len()
        invariant
            i <= paths@.len(),
            r@.len() == i,
            op_views(r@) == Seq::new(i as nat, |k: int| (paths@[k]@, None::<Seq<char>>, false, Some(dest_failure()))),
        decreases paths.len() - i,
    {
        let ghost before = op_views(r@);
        let ghost r0 = r@;
        r.push(OpResult {
            path: paths[i].clone(),
            to: None,
            ok: false,
            error: Some(String::from_str("目标目录不可创建")),
        });
        let ghost want = Seq::new((i + 1) as nat, |k: int| (paths@[k]@, None::<Seq<char>>, false, Some(dest_failure())));
        assert forall|k: int| 0 <= k < i + 1 implies #[trigger] op_views(r@)[k] == want[k] by {
            if k < i {
                assert(r@[k] == r0[k]);
                assert(before[k] == want[k]);
            }
        }
        assert(op_views(r@) =~= want);
        i += 1;
    }
    r
}

/// The name a moved file takes when its own name is taken in the
/// destination: `stem (n).ext` (no extension: `stem (n)`).
pub open spec fn numbered_name(stem: Seq<char>, ext: Option<Seq<char>>, n: nat) -> Seq<char> {
    stem + " ("@ + decimal(n) + ")"@ + match ext {
        Some(e) => "."@ + e,
        None => Seq::empty(),
    }
}

pub fn candidate_name(stem: &str, ext: Option<&str>, n: u64) -> (r: String)
    ensures
        r@ == numbered_name(stem@, match ext {
            Some(e) => Some(e@),
            None => None,
        }, n as nat),
{
    let mut s = String::from_str(stem);
    s.append(" (");
    let d = decimal_exec(n);
    let ds = string_from(d.as_slice());
    s.append(ds.as_str());
    s.append(")");
    match ext {
        Some(e) => {
            s.append(".");
            s.append(e);
        },
        None => {},
    }
    s
}

/// The result of moving `path` to `to`, or of failing with `err`.
pub fn move_result(path: &String, outcome: Result<String, String>) -> (r: OpResult)
    ensures
        r.path@ == path@,
        match outcome {
            Ok(to) => opt_str(r.to) == Some(to@) && r.ok && r.error is None,
            Err(e) => r.to is None && !r.ok && opt_str(r.error) == Some(e@),
        },
{
    match outcome {
        Ok(to) => OpResult { path: path.clone(), to: Some(to), ok: true, error: None },
        Err(e) => OpResult { path: path.clone(), to: None, ok: false, error: Some(e) },
    }
}

/// The results of deleting `paths`, `outcomes[i]` being what removing
/// `paths[i]` came to.
pub fn delete_models(paths: &Vec<String>, outcomes: Vec<Result<(), String>>) -> (r: Vec<OpResult>)
    requires
        outcomes@.len() == paths@.len(),
    ensures
        r@.len() == paths@.len(),
        forall|i: int| 0 <= i < paths@.len() ==> {
            &&& (#[trigger] r@[i]).path@ == paths@[i]@
            &&& r@[i].to is None
            &&& match outcomes@[i] {
                Ok(_) => r@[i].ok && r@[i].error is None,
                Err(e) => !r@[i].ok && opt_str(r@[i].error) == Some(e@),
            }
        },
{
    let ghost oc = outcomes@;
    let mut rest = outcomes;
    let mut r: Vec<OpResult> = Vec::new();
    let mut i: usize = 0;
    while i < paths.len()
        invariant
            i <= paths@.len(),
            oc.len() == paths@.len(),
            rest@ == oc.subrange(i as int, oc.len() as int),
            r@.len() == i,
            forall|k: int| 0 <= k < i ==> {
                &&& (#[trigger] r@[k]).path@ == paths@[k]@
                &&& r@[k].to is None
                &&& match oc[k] {
                    Ok(_) => r@[k].ok && r@[k].error is None,
                    Err(e) => !r@[k].ok && opt_str(r@[k].error) == Some(e@),
                }
            },
        decreases paths.len() - i,
    {
        let o = rest.remove(0);
        assert(o == oc[i as int]);
        let res = match o {
            Ok(_) => OpResult { path: paths[i].clone(), to: None, ok: true, error: None },
            Err(e) => OpResult { path: paths[i].clone(), to: None, ok: false, error: Some(e) },
        };
        r.push(res);
        i += 1;
    }
    r
}

// ------------------------------------------------------------------- laws

/// Ids are exactly `k` lower-case hex digits.
pub proof fn lemma_hex_digits_shape(n: nat, k: nat)
    ensures
        hex_digits(n, k).len() == k,
        forall|i: int| 0 <= i < k ==> crate::downloads::is_hex_digit(#[trigger] hex_digits(n, k)[i]),
    decreases k,
{
    if k > 0 {
        lemma_hex_digits_shape(n / 16, (k - 1) as nat);
        let d = hex_digits(n / 16, (k - 1) as nat);
        assert forall|i: int| 0 <= i < k implies crate::downloads::is_hex_digit(#[trigger] hex_digits(n, k)[i]) by {
            if i < k - 1 {
                assert(hex_digits(n, k)[i] == d[i]);
            } else {
                let r = n % 16;
                assert(r < 16);
                if r < 10 {
                    assert(hex_char(r) == ((r + ('0' as u32)) as char));
                } else {
                    assert(hex_char(r) == ((r - 10 + ('a' as u32)) as char));
                }
            }
        }
    }
}

/// Decoding a cache directory name gives back the repository it encodes,
/// for an org that holds no `--` and does not end with `-`.
pub proof fn lemma_hf_repo_roundtrip(org: Seq<char>, name: Seq<char>)
    requires
        org.len() > 0,
        name.len() > 0,
        org.last() != '-',
        forall|k: int| 0 <= k < org.len() - 1 ==> !(#[trigger] org[k] == '-' && org[k + 1] == '-'),
    ensures
        hf_repo_of("models--"@ + org + "--"@ + name) == Some(org + "/"@ + name),
{
    reveal_strlit("models--");
    reveal_strlit("--");
    let dir = "models--"@ + org + "--"@ + name;
    let rest = dir.skip(8);
    assert(rest =~= org + "--"@ + name);
    assert(dir.subrange(0, 8) =~= "models--"@);
    assert(starts_with(dir, "models--"@));
    let j = org.len() as int;
    assert(rest[j] == '-' && rest[j + 1] == '-');
    assert(crate::text::has_at(rest, "--"@, j)) by {
        assert(rest.subrange(j, j + 2) =~= "--"@);
    }
    lemma_first_dash2(rest, 0);
    assert forall|k: int| 0 <= k < j implies !(#[trigger] rest[k] == '-' && rest[k + 1] == '-') by {
        if k < j - 1 {
            assert(rest[k] == org[k] && rest[k + 1] == org[k + 1]);
        } else {
            assert(rest[k] == org.last());
        }
    }
    assert(first_dash2(rest, 0) == j) by {
        if first_dash2(rest, 0) < j {
            let m = first_dash2(rest, 0);
            assert(rest[m] == '-' && rest[m + 1] == '-');
        } else if first_dash2(rest, 0) > j {
            assert(rest[j] == '-' && rest[j + 1] == '-');
        }
    }
    assert(rest.take(j) =~= org);
    assert(rest.skip(j + 2) =~= name);
}

} // verus!
