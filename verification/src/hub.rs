//! Repository files and the downloadable variants built from them.
use vstd::prelude::*;
use crate::text::{chars_of, string_from, slice_vec, seq_eq, contains, contains_seq, ends_with, has_suffix, starts_with, has_prefix};
use crate::unicode::{lower_text, upper_text, to_lowercase, eq_ignore_ascii_case, eq_ignore_ascii_case_exec};
use crate::gguf::{quant_in_name, quant_from_filename, rank_of_upper, quant_rank, opt_view};
pub use crate::listing::{ModelSummary, ModelDetail};
use crate::sort::{StrictWeakOrder, stable_sort, stable_sorted, lt_of, lemma_sorted_map, lex_lt, lex_less, lemma_lex_asym, lemma_lex_neg_trans, lemma_lex_total, lemma_lex_trans, lemma_lex_irrefl};

verus! {

/// What a repository file is for.
#[derive(Debug, Clone, Copy, PartialEq, Eq, Structural)]
pub enum FileRole {
    Weights,
    Mmproj,
    Config,
    Tokenizer,
    Other,
}

/// What a repository distributes: llama.cpp GGUF weights, Apple MLX
/// weights, or plain transformers tensors (safetensors/bin).
#[derive(Debug, Clone, Copy, PartialEq, Eq, Structural)]
pub enum ModelFormat {
    Gguf,
    Mlx,
    Tensor,
}

/// One file of a repository.
#[derive(Debug)]
pub struct ModelFile {
    pub path: String,
    pub size: u64,
    pub quant: Option<String>,
    pub is_gguf: bool,
    pub role: FileRole,
}

pub struct FileView {
    pub path: Seq<char>,
    pub size: u64,
    pub quant: Option<Seq<char>>,
    pub is_gguf: bool,
    pub role: FileRole,
}

impl View for ModelFile {
    type V = FileView;

    open spec fn view(&self) -> FileView {
        FileView {
            path: self.path@,
            size: self.size,
            quant: opt_view(self.quant),
            is_gguf: self.is_gguf,
            role: self.role,
        }
    }
}

pub open spec fn file_views(v: Seq<ModelFile>) -> Seq<FileView> {
    Seq::new(v.len(), |i: int| v[i]@)
}

fn dup_opt(o: &Option<String>) -> (r: Option<String>)
    ensures
        opt_view(r) == opt_view(*o),
{
    match o {
        Some(s) => Some(s.clone()),
        None => None,
    }
}

impl ModelFile {
    /// A copy with the same contents.
    pub fn duplicate(&self) -> (r: ModelFile)
        ensures
            r@ == self@,
    {
        ModelFile {
            path: self.path.clone(),
            size: self.size,
            quant: dup_opt(&self.quant),
            is_gguf: self.is_gguf,
            role: self.role,
        }
    }
}

fn dup_files(v: &Vec<ModelFile>) -> (r: Vec<ModelFile>)
    ensures
        file_views(r@) == file_views(v@),
{
    let mut r: Vec<ModelFile> = Vec::new();
    let mut i: usize = 0;
    while i < v.len()
        invariant
            i <= v.len(),
            file_views(r@) == file_views(v@).take(i as int),
        decreases v.len() - i,
    {
        let ghost before = file_views(r@);
        r.push(v[i].duplicate());
        assert(file_views(r@) =~= before.push(v@[i as int]@));
        assert(file_views(v@).take(i + 1) =~= file_views(v@).take(i as int).push(v@[i as int]@));
        i += 1;
    }
    assert(file_views(v@).take(v.len() as int) =~= file_views(v@));
    r
}

// ------------------------------------------------------------- file roles

/// Index of the last `'/'` in `s`, -1 when there is none.
pub open spec fn last_slash(s: Seq<char>) -> int
    decreases s.len(),
{
    if s.len() == 0 {
        -1
    } else if s.last() == '/' {
        s.len() - 1
    } else {
        last_slash(s.drop_last())
    }
}

proof fn lemma_last_slash(s: Seq<char>)
    ensures
        -1 <= last_slash(s) < s.len(),
    decreases s.len(),
{
    if s.len() > 0 && s.last() != '/' {
        lemma_last_slash(s.drop_last());
    }
}

/// The part after the last `'/'` (`s.rsplit('/').next()`).
pub open spec fn after_last_slash(s: Seq<char>) -> Seq<char> {
    s.subrange(last_slash(s) + 1, s.len() as int)
}

/// The part before the last `'/'`, empty when there is none.
pub open spec fn before_last_slash(s: Seq<char>) -> Seq<char> {
    if last_slash(s) < 0 {
        Seq::empty()
    } else {
        s.subrange(0, last_slash(s))
    }
}

fn last_slash_exec(s: &[char]) -> (r: Option<usize>)
    ensures
        match r {
            Some(i) => last_slash(s@) == i as int && i < s.len(),
            None => last_slash(s@) == -1,
        },
{
    let mut j = s.len();
    proof {
        assert(s@.subrange(0, s.len() as int) =~= s@);
    }
    while j > 0 && s[j - 1] != '/'
        invariant
            j <= s.len(),
            last_slash(s@) == last_slash(s@.subrange(0, j as int)),
        decreases j,
    {
        assert(s@.subrange(0, j as int).drop_last() =~= s@.subrange(0, j - 1));
        j -= 1;
    }
    if j == 0 {
        None
    } else {
        Some(j - 1)
    }
}

pub(crate) fn after_last_slash_exec(s: &[char]) -> (r: Vec<char>)
    ensures
        r@ == after_last_slash(s@),
{
    proof {
        lemma_last_slash(s@);
    }
    match last_slash_exec(s) {
        Some(i) => slice_vec(s, i + 1, s.len()),
        None => slice_vec(s, 0, s.len()),
    }
}

pub(crate) fn before_last_slash_exec(s: &[char]) -> (r: Vec<char>)
    ensures
        r@ == before_last_slash(s@),
{
    proof {
        lemma_last_slash(s@);
    }
    match last_slash_exec(s) {
        Some(i) => slice_vec(s, 0, i),
        None => Vec::new(),
    }
}

/// Role of a file by its lower-cased name.
pub open spec fn role_of_name(name: Seq<char>) -> FileRole {
    if contains(name, "mmproj"@) && ends_with(name, ".gguf"@) {
        FileRole::Mmproj
    } else if name == "config.json"@ || name == "generation_config.json"@ || name == "params.json"@
        || name == "configuration.json"@ {
        FileRole::Config
    } else if name == "tokenizer.json"@ || name == "tokenizer.model"@ || name
        == "tokenizer_config.json"@ || name == "special_tokens_map.json"@ || name == "vocab.json"@
        || name == "merges.txt"@ || name == "sentencepiece.bpe.model"@ || name
        == "chat_template.jinja"@ || name == "chat_template.json"@ || name
        == "preprocessor_config.json"@ || name == "processor_config.json"@ {
        FileRole::Tokenizer
    } else if starts_with(name, "configuration"@) && ends_with(name, ".json"@) {
        FileRole::Config
    } else {
        FileRole::Other
    }
}

/// Role of the file at `path`, judged by its lower-cased file name.
pub open spec fn role_of(path: Seq<char>) -> FileRole {
    role_of_name(after_last_slash(lower_text(path)))
}

pub(crate) fn is_lit(s: &[char], lit: &str) -> (r: bool)
    ensures
        r == (s@ == lit@),
{
    let l = chars_of(lit);
    seq_eq(s, l.as_slice())
}

pub(crate) fn has_lit_suffix(s: &[char], lit: &str) -> (r: bool)
    ensures
        r == ends_with(s@, lit@),
{
    let l = chars_of(lit);
    has_suffix(s, l.as_slice())
}

pub(crate) fn has_lit_prefix(s: &[char], lit: &str) -> (r: bool)
    ensures
        r == starts_with(s@, lit@),
{
    let l = chars_of(lit);
    has_prefix(s, l.as_slice())
}

pub(crate) fn has_lit(s: &[char], lit: &str) -> (r: bool)
    ensures
        r == contains(s@, lit@),
{
    let l = chars_of(lit);
    contains_seq(s, l.as_slice())
}

pub(crate) fn lower_chars(s: &str) -> (r: Vec<char>)
    ensures
        r@ == lower_text(s@),
{
    let low = to_lowercase(s);
    chars_of(low.as_str())
}

/// Classify a repository file by its name.
pub fn classify_role(path: &str) -> (r: FileRole)
    ensures
        r == role_of(path@),
{
    let low = lower_chars(path);
    let name = after_last_slash_exec(low.as_slice());
    let n = name.as_slice();
    if has_lit(n, "mmproj") && has_lit_suffix(n, ".gguf") {
        return FileRole::Mmproj;
    }
    if is_lit(n, "config.json") || is_lit(n, "generation_config.json") || is_lit(n, "params.json")
        || is_lit(n, "configuration.json") {
        FileRole::Config
    } else if is_lit(n, "tokenizer.json") || is_lit(n, "tokenizer.model") || is_lit(
        n,
        "tokenizer_config.json",
    ) || is_lit(n, "special_tokens_map.json") || is_lit(n, "vocab.json") || is_lit(
        n,
        "merges.txt",
    ) || is_lit(n, "sentencepiece.bpe.model") || is_lit(n, "chat_template.jinja") || is_lit(
        n,
        "chat_template.json",
    ) || is_lit(n, "preprocessor_config.json") || is_lit(n, "processor_config.json") {
        FileRole::Tokenizer
    } else if has_lit_prefix(n, "configuration") && has_lit_suffix(n, ".json") {
        FileRole::Config
    } else {
        FileRole::Other
    }
}

/// The quant label a file name yields, upper-cased.
pub open spec fn name_quant(name: Seq<char>) -> Option<Seq<char>> {
    match quant_in_name(name) {
        Some(q) => Some(upper_text(q)),
        None => None,
    }
}

/// The file record built for a repository path and size.
pub open spec fn new_file(path: Seq<char>, size: u64) -> FileView {
    let is_gguf = ends_with(lower_text(path), ".gguf"@);
    FileView {
        path,
        size,
        quant: if is_gguf {
            name_quant(path)
        } else {
            None
        },
        is_gguf,
        role: role_of(path),
    }
}

impl ModelFile {
    /// The record for a repository file: GGUF flag by extension, quant from
    /// the file name for GGUF files, role by name.
    pub fn new(path: String, size: u64) -> (r: ModelFile)
        ensures
            r@ == new_file(path@, size),
    {
        let low = lower_chars(path.as_str());
        let is_gguf = has_lit_suffix(low.as_slice(), ".gguf");
        let quant = if is_gguf {
            quant_from_filename(path.as_str())
        } else {
            None
        };
        let role = classify_role(path.as_str());
        ModelFile { role, is_gguf, quant, path, size }
    }
}

// ----------------------------------------------------------------- format

pub open spec fn any_gguf(files: Seq<FileView>) -> bool {
    exists|i: int| 0 <= i < files.len() && #[trigger] files[i].is_gguf
}

pub open spec fn any_mlx_tag(tags: Seq<Seq<char>>) -> bool {
    exists|i: int| 0 <= i < tags.len() && eq_ignore_ascii_case(#[trigger] tags[i], "mlx"@)
}

pub open spec fn format_of(files: Seq<FileView>, tags: Seq<Seq<char>>) -> ModelFormat {
    if any_gguf(files) {
        ModelFormat::Gguf
    } else if any_mlx_tag(tags) {
        ModelFormat::Mlx
    } else {
        ModelFormat::Tensor
    }
}

pub open spec fn string_views(v: Seq<String>) -> Seq<Seq<char>> {
    Seq::new(v.len(), |i: int| v[i]@)
}

/// GGUF when any file is GGUF, else MLX when tagged `mlx` (any case), else
/// plain tensors.
pub fn detect_format(files: &[ModelFile], tags: &[String]) -> (r: ModelFormat)
    ensures
        r == format_of(file_views(files@), string_views(tags@)),
{
    let mut i: usize = 0;
    while i < files.len()
        invariant
            i <= files.len(),
            forall|k: int| 0 <= k < i ==> !(#[trigger] files@[k]).is_gguf,
        decreases files.len() - i,
    {
        if files[i].is_gguf {
            assert(file_views(files@)[i as int].is_gguf);
            return ModelFormat::Gguf;
        }
        i += 1;
    }
    assert(!any_gguf(file_views(files@))) by {
        assert forall|k: int| 0 <= k < files@.len() implies !(#[trigger] file_views(files@)[k]).is_gguf by {
            assert(!files@[k].is_gguf);
        }
    }
    let mlx = chars_of("mlx");
    let mut j: usize = 0;
    while j < tags.len()
        invariant
            j <= tags.len(),
            mlx@ == "mlx"@,
            !any_gguf(file_views(files@)),
            forall|k: int| 0 <= k < j ==> !eq_ignore_ascii_case(#[trigger] string_views(tags@)[k], "mlx"@),
        decreases tags.len() - j,
    {
        let t = chars_of(tags[j].as_str());
        if eq_ignore_ascii_case_exec(t.as_slice(), mlx.as_slice()) {
            assert(string_views(tags@)[j as int] == t@);
            assert(eq_ignore_ascii_case(string_views(tags@)[j as int], "mlx"@));
            assert(any_mlx_tag(string_views(tags@)));
            return ModelFormat::Mlx;
        }
        assert(string_views(tags@)[j as int] == t@);
        j += 1;
    }
    ModelFormat::Tensor
}


// ------------------------------------------------------------- companions

/// Preference of a vision projector file: f16 first, then bf16, q8, q6/q5,
/// f32, anything else. A name mentioning `bf16` is a bf16 projector,
/// though `bf16` contains `f16`.
pub open spec fn mmproj_rank(path: Seq<char>) -> u8 {
    let name = after_last_slash(lower_text(path));
    if contains(name, "bf16"@) {
        4
    } else if contains(name, "f16"@) {
        5
    } else if contains(name, "q8"@) {
        3
    } else if contains(name, "q6"@) || contains(name, "q5"@) {
        2
    } else if contains(name, "f32"@) {
        1
    } else {
        0
    }
}

fn mmproj_rank_exec(path: &str) -> (r: u8)
    ensures
        r == mmproj_rank(path@),
{
    let low = lower_chars(path);
    let name = after_last_slash_exec(low.as_slice());
    let n = name.as_slice();
    if has_lit(n, "bf16") {
        4
    } else if has_lit(n, "f16") {
        5
    } else if has_lit(n, "q8") {
        3
    } else if has_lit(n, "q6") || has_lit(n, "q5") {
        2
    } else if has_lit(n, "f32") {
        1
    } else {
        0
    }
}

/// `f` is at least as good a projector as `b`: higher rank, or the same
/// rank and no larger.
pub open spec fn mmproj_at_least(f: FileView, b: FileView) -> bool {
    mmproj_rank(f.path) > mmproj_rank(b.path) || (mmproj_rank(f.path) == mmproj_rank(b.path)
        && f.size <= b.size)
}

/// The best projector: the last one among those of maximal
/// `(rank, smaller size)`, as `max_by_key` picks.
pub open spec fn best_mmproj(c: Seq<FileView>) -> Option<FileView>
    decreases c.len(),
{
    if c.len() == 0 {
        None
    } else {
        let f = c.last();
        match best_mmproj(c.drop_last()) {
            Some(b) => if mmproj_at_least(f, b) {
                Some(f)
            } else {
                Some(b)
            },
            None => Some(f),
        }
    }
}

/// Repos may ship several vision projectors (mmproj-f16 / bf16 / f32 …);
/// only one is worth downloading: prefer f16, then bf16 / quantized
/// variants, tie-breaking on the smaller file.
pub fn pick_best_mmproj(candidates: &[ModelFile]) -> (r: Option<ModelFile>)
    ensures
        match best_mmproj(file_views(candidates@)) {
            Some(b) => r matches Some(x) && x@ == b,
            None => r is None,
        },
{
    let mut best: Option<usize> = None;
    let mut best_rank: u8 = 0;
    let mut i: usize = 0;
    while i < candidates.len()
        invariant
            i <= candidates.len(),
            match best_mmproj(file_views(candidates@).take(i as int)) {
                Some(b) => best matches Some(k) && k < i && candidates@[k as int]@ == b
                    && best_rank == mmproj_rank(b.path),
                None => best is None,
            },
        decreases candidates.len() - i,
    {
        assert(file_views(candidates@).take(i + 1).drop_last() =~= file_views(candidates@).take(
            i as int,
        ));
        assert(file_views(candidates@).take(i + 1).last() == candidates@[i as int]@);
        let r = mmproj_rank_exec(candidates[i].path.as_str());
        match best {
            None => {
                best = Some(i);
                best_rank = r;
            },
            Some(k) => {
                if r > best_rank || (r == best_rank && candidates[i].size <= candidates[k].size) {
                    best = Some(i);
                    best_rank = r;
                }
            },
        }
        i += 1;
    }
    assert(file_views(candidates@).take(candidates.len() as int) =~= file_views(candidates@));
    match best {
        Some(k) => Some(candidates[k].duplicate()),
        None => None,
    }
}

/// Config and tokenizer files, in repository order.
pub open spec fn base_companions(fs: Seq<FileView>) -> Seq<FileView>
    decreases fs.len(),
{
    if fs.len() == 0 {
        Seq::empty()
    } else {
        let rest = base_companions(fs.drop_last());
        let f = fs.last();
        if role_of(f.path) == FileRole::Config || role_of(f.path) == FileRole::Tokenizer {
            rest.push(f)
        } else {
            rest
        }
    }
}

/// Vision projector files, in repository order.
pub open spec fn mmprojs(fs: Seq<FileView>) -> Seq<FileView>
    decreases fs.len(),
{
    if fs.len() == 0 {
        Seq::empty()
    } else {
        let rest = mmprojs(fs.drop_last());
        let f = fs.last();
        if role_of(f.path) == FileRole::Mmproj {
            rest.push(f)
        } else {
            rest
        }
    }
}

/// Companion files offered with every variant: configs and tokenizers,
/// plus the single best vision projector.
pub open spec fn companions_of(fs: Seq<FileView>) -> Seq<FileView> {
    match best_mmproj(mmprojs(fs)) {
        Some(b) => base_companions(fs).push(b),
        None => base_companions(fs),
    }
}

/// Sum of file sizes.
pub open spec fn total_size(fs: Seq<FileView>) -> nat
    decreases fs.len(),
{
    if fs.len() == 0 {
        0
    } else {
        total_size(fs.drop_last()) + fs.last().size as nat
    }
}

fn companions(files: &[ModelFile]) -> (r: Vec<ModelFile>)
    ensures
        file_views(r@) == companions_of(file_views(files@)),
{
    let mut base: Vec<ModelFile> = Vec::new();
    let mut mm: Vec<ModelFile> = Vec::new();
    let mut i: usize = 0;
    while i < files.len()
        invariant
            i <= files.len(),
            file_views(base@) == base_companions(file_views(files@).take(i as int)),
            file_views(mm@) == mmprojs(file_views(files@).take(i as int)),
        decreases files.len() - i,
    {
        let ghost fv = file_views(files@).take(i + 1);
        assert(fv.drop_last() =~= file_views(files@).take(i as int));
        assert(fv.last() == files@[i as int]@);
        let role = classify_role(files[i].path.as_str());
        if role == FileRole::Config || role == FileRole::Tokenizer {
            let ghost before = file_views(base@);
            base.push(files[i].duplicate());
            assert(file_views(base@) =~= before.push(files@[i as int]@));
        } else if role == FileRole::Mmproj {
            let ghost before = file_views(mm@);
            mm.push(files[i].duplicate());
            assert(file_views(mm@) =~= before.push(files@[i as int]@));
        }
        i += 1;
    }
    assert(file_views(files@).take(files.len() as int) =~= file_views(files@));
    match pick_best_mmproj(mm.as_slice()) {
        Some(b) => {
            let ghost before = file_views(base@);
            base.push(b);
            assert(file_views(base@) =~= before.push(b@));
        },
        None => {},
    }
    base
}

fn sum_sizes(v: &[ModelFile]) -> (r: u64)
    requires
        total_size(file_views(v@)) <= u64::MAX,
    ensures
        r == total_size(file_views(v@)),
{
    let mut t: u64 = 0;
    let mut i: usize = 0;
    while i < v.len()
        invariant
            i <= v.len(),
            t == total_size(file_views(v@).take(i as int)),
            total_size(file_views(v@)) <= u64::MAX,
        decreases v.len() - i,
    {
        let ghost fv = file_views(v@).take(i + 1);
        assert(fv.drop_last() =~= file_views(v@).take(i as int));
        proof {
            lemma_total_size_prefix(file_views(v@), i + 1);
        }
        t = t + v[i].size;
        i += 1;
    }
    assert(file_views(v@).take(v.len() as int) =~= file_views(v@));
    t
}

/// A prefix never weighs more than the whole.
pub proof fn lemma_total_size_prefix(fs: Seq<FileView>, k: int)
    requires
        0 <= k <= fs.len(),
    ensures
        total_size(fs.take(k)) <= total_size(fs),
    decreases fs.len() - k,
{
    if k < fs.len() {
        lemma_total_size_prefix(fs, k + 1);
        assert(fs.take(k + 1).drop_last() =~= fs.take(k));
    } else {
        assert(fs.take(k) =~= fs);
    }
}


// --------------------------------------------------------------- variants

/// One user-facing downloadable unit: a quantization (GGUF) or weight set
/// (MLX / safetensors), plus optional companion files.
#[derive(Debug)]
pub struct Variant {
    pub id: String,
    pub label: String,
    pub quant: Option<String>,
    pub files: Vec<ModelFile>,
    pub total_size: u64,
    pub companions: Vec<ModelFile>,
    pub companions_size: u64,
    pub recommended: bool,
}

pub struct VariantView {
    pub id: Seq<char>,
    pub label: Seq<char>,
    pub quant: Option<Seq<char>>,
    pub files: Seq<FileView>,
    pub total_size: u64,
    pub companions: Seq<FileView>,
    pub companions_size: u64,
    pub recommended: bool,
}

impl View for Variant {
    type V = VariantView;

    open spec fn view(&self) -> VariantView {
        VariantView {
            id: self.id@,
            label: self.label@,
            quant: opt_view(self.quant),
            files: file_views(self.files@),
            total_size: self.total_size,
            companions: file_views(self.companions@),
            companions_size: self.companions_size,
            recommended: self.recommended,
        }
    }
}

pub open spec fn variant_views(v: Seq<Variant>) -> Seq<VariantView> {
    Seq::new(v.len(), |i: int| v[i]@)
}

/// Files in path order.
pub open spec fn path_order() -> spec_fn(FileView, FileView) -> bool {
    |a: FileView, b: FileView| lex_lt(a.path, b.path)
}

/// A file wrapped for sorting by path.
pub struct ByPath {
    pub file: ModelFile,
}

impl StrictWeakOrder for ByPath {
    open spec fn lt(a: Self, b: Self) -> bool {
        lex_lt(a.file.path@, b.file.path@)
    }

    fn exec_lt(&self, other: &Self) -> (r: bool) {
        let a = chars_of(self.file.path.as_str());
        let b = chars_of(other.file.path.as_str());
        lex_less(a.as_slice(), b.as_slice())
    }

    proof fn lemma_asym(a: Self, b: Self) {
        lemma_lex_asym(a.file.path@, b.file.path@);
    }

    proof fn lemma_neg_trans(a: Self, b: Self, c: Self) {
        lemma_lex_neg_trans(a.file.path@, b.file.path@, c.file.path@);
    }
}

/// Stable sort of files by path.
pub fn sort_by_path(v: Vec<ModelFile>) -> (r: Vec<ModelFile>)
    ensures
        stable_sorted(file_views(r@), file_views(v@), path_order()),
{
    let ghost orig = v@;
    let mut src = v;
    let mut w: Vec<ByPath> = Vec::new();
    let mut i: usize = 0;
    let n = src.len();
    while src.len() > 0
        invariant
            i + src@.len() == orig.len(),
            orig.len() == n,
            src@ == orig.subrange(i as int, orig.len() as int),
            w@.len() == i,
            forall|k: int| 0 <= k < i ==> (#[trigger] w@[k]).file@ == orig[k]@,
        decreases src.len(),
    {
        let f = src.remove(0);
        w.push(ByPath { file: f });
        i += 1;
    }
    let ghost wv = w@;
    let sorted = stable_sort(w);
    let mut out: Vec<ModelFile> = Vec::new();
    let mut rest = sorted;
    let ghost sv = rest@;
    let mut j: usize = 0;
    let m = rest.len();
    while rest.len() > 0
        invariant
            j + rest@.len() == sv.len(),
            sv.len() == m,
            rest@ == sv.subrange(j as int, sv.len() as int),
            out@.len() == j,
            forall|k: int| 0 <= k < j ==> (#[trigger] out@[k])@ == sv[k].file@,
        decreases rest.len(),
    {
        let b = rest.remove(0);
        out.push(b.file);
        j += 1;
    }
    proof {
        let f = |x: ByPath| x.file@;
        assert forall|a: ByPath, b: ByPath| #[trigger] lt_of::<ByPath>()(a, b) == path_order()(f(a), f(b)) by {}
        lemma_sorted_map(sv, wv, lt_of::<ByPath>(), path_order(), f);
        assert(sv.map_values(f) =~= file_views(out@));
        assert(wv.map_values(f) =~= file_views(orig));
    }
    out
}

/// What the `regex` crate's `\d` matches (Unicode mode): a character of
/// the Unicode general category Nd, a decimal digit. Named: it follows the
/// crate's Unicode tables.
pub uninterp spec fn regex_digit(c: char) -> bool;

/// Five digits (as `digit` classifies them) in `s` from `at` on.
pub open spec fn five_digits(s: Seq<char>, at: int, digit: spec_fn(char) -> bool) -> bool {
    forall|k: int| 0 <= k < 5 ==> digit(#[trigger] s[at + k])
}

/// `p` ends with a multi-shard suffix `-NNNNN-of-NNNNN.gguf` (20
/// characters), `N` being what `digit` accepts.
pub open spec fn has_shard_suffix(p: Seq<char>, digit: spec_fn(char) -> bool) -> bool {
    p.len() >= 20 && {
        let b = p.len() - 20;
        &&& p[b] == '-'
        &&& five_digits(p, b + 1, digit)
        &&& p.subrange(b + 6, b + 10) == "-of-"@
        &&& five_digits(p, b + 10, digit)
        &&& p.subrange(b + 15, b + 20) == ".gguf"@
    }
}

/// A multi-shard suffix at the end of `path` replaced by `.gguf`; any
/// other path as it is.
pub open spec fn shard_base_by(path: Seq<char>, digit: spec_fn(char) -> bool) -> Seq<char> {
    if has_shard_suffix(path, digit) {
        path.take(path.len() - 20) + ".gguf"@
    } else {
        path
    }
}

/// The shard-normalized path, the digits being the ASCII ones and the
/// others `\d` matches.
pub open spec fn shard_base(path: Seq<char>) -> Seq<char> {
    shard_base_by(path, |c: char| ('0' <= c && c <= '9') || regex_digit(c))
}

/// What `Regex::replace` gives for this pattern, text and replacement: the
/// first match of the pattern in the text replaced, `$` references in the
/// replacement expanded. Named: it is the regex crate's matching.
pub uninterp spec fn regex_replaced(pattern: Seq<char>, text: Seq<char>, rep: Seq<char>) -> Seq<char>;

/// The multi-shard suffix as a regular expression: `-`, five digits,
/// `-of-`, five digits, `.gguf`, at the end of the text.
pub open spec fn shard_pattern() -> Seq<char> {
    "-\\d{5}-of-\\d{5}\\.gguf$"@
}

/// Compiles `pattern` (`Regex::new`) and replaces its first match in `text`
/// by `rep` (`Regex::replace`); none when the pattern does not compile. The
/// result is named. For the shard pattern and the replacement `.gguf` the
/// crate's documented semantics give it in a few lines: the pattern
/// compiles; every match has 20 characters and ends at the end of the text
/// (`$` without multi-line mode), so the only possible match is a
/// multi-shard suffix there, which is replaced by the literal `.gguf` (it
/// holds no `$`); `\d` matches the ASCII digits and the other Unicode
/// decimal digits (named `regex_digit`).
#[verifier::external_body]
fn regex_replace(pattern: &str, text: &str, rep: &str) -> (r: Option<String>)
    ensures
        r matches Some(x) ==> x@ == regex_replaced(pattern@, text@, rep@),
        (pattern@ == shard_pattern() && rep@ == ".gguf"@) ==> (r is Some && r->0@ == shard_base_by(text@, |c: char| ('0' <= c && c <= '9') || regex_digit(c))),
{
    match regex::Regex::new(pattern) {
        Ok(re) => Some(re.replace(text, rep).into_owned()),
        Err(_) => None,
    }
}

/// The shard-normalized path of a file: the multi-shard suffix
/// `-NNNNN-of-NNNNN.gguf` replaced by `.gguf`.
fn shard_normalize(path: &str) -> (r: String)
    ensures
        r@ == shard_base(path@),
        r@ == regex_replaced(shard_pattern(), path@, ".gguf"@),
{
    match regex_replace("-\\d{5}-of-\\d{5}\\.gguf$", path, ".gguf") {
        Some(s) => s,
        None => String::from_str(path),
    }
}

/// The name of shard `part` of `total` of a model file `stem.gguf`:
/// `stem-PPPPP-of-TTTTT.gguf`.
pub open spec fn shard_name(stem: Seq<char>, part: Seq<char>, total: Seq<char>) -> Seq<char> {
    stem + "-"@ + part + "-of-"@ + total + ".gguf"@
}

/// Five ASCII digits.
pub open spec fn ascii_number5(s: Seq<char>) -> bool {
    s.len() == 5 && forall|k: int| 0 <= k < 5 ==> '0' <= #[trigger] s[k] && s[k] <= '9'
}

/// All shards of one multi-shard GGUF file normalize to the same path,
/// `stem.gguf`, so they land in one variant group.
pub proof fn lemma_shards_share_base(stem: Seq<char>, part: Seq<char>, total: Seq<char>)
    requires
        ascii_number5(part),
        ascii_number5(total),
    ensures
        shard_base(shard_name(stem, part, total)) == stem + ".gguf"@,
{
    reveal_strlit("-");
    reveal_strlit("-of-");
    reveal_strlit(".gguf");
    let p = shard_name(stem, part, total);
    let d = |c: char| ('0' <= c && c <= '9') || regex_digit(c);
    let b = stem.len() as int;
    assert(p.len() == stem.len() + 20);
    assert(p[b] == '-');
    assert forall|k: int| 0 <= k < 5 implies d(#[trigger] p[b + 1 + k]) by {
        assert(p[b + 1 + k] == part[k]);
    }
    assert forall|k: int| 0 <= k < 5 implies d(#[trigger] p[b + 10 + k]) by {
        assert(p[b + 10 + k] == total[k]);
    }
    assert(five_digits(p, b + 1, d));
    assert(five_digits(p, b + 10, d));
    assert(p.subrange(b + 6, b + 10) =~= "-of-"@);
    assert(p.subrange(b + 15, b + 20) =~= ".gguf"@);
    assert(has_shard_suffix(p, d));
    assert(p.take(b) =~= stem);
}

/// A GGUF weight file: GGUF and not a vision projector.
pub open spec fn gguf_weight(f: FileView) -> bool {
    f.is_gguf && role_of(f.path) != FileRole::Mmproj
}

/// Group key of a file among GGUF weights: its shard-normalized path.
pub open spec fn gguf_key() -> spec_fn(FileView) -> Option<Seq<char>> {
    |f: FileView| if gguf_weight(f) { Some(shard_base(f.path)) } else { None }
}

/// The files of `fs` whose key under `kf` is `key`, in repository order.
pub open spec fn keyed_group(fs: Seq<FileView>, kf: spec_fn(FileView) -> Option<Seq<char>>, key: Seq<char>) -> Seq<FileView>
    decreases fs.len(),
{
    if fs.len() == 0 {
        Seq::empty()
    } else {
        let rest = keyed_group(fs.drop_last(), kf, key);
        let f = fs.last();
        if kf(f) == Some(key) {
            rest.push(f)
        } else {
            rest
        }
    }
}

/// `keys` lists every key that `kf` gives a file of `fs` once, in increasing
/// order (the order of a `BTreeMap` keyed by `String`).
pub open spec fn group_keys(fs: Seq<FileView>, kf: spec_fn(FileView) -> Option<Seq<char>>, keys: Seq<Seq<char>>) -> bool {
    &&& forall|a: int, b: int| 0 <= a < b < keys.len() ==> lex_lt(#[trigger] keys[a], #[trigger] keys[b])
    &&& forall|k: int| 0 <= k < keys.len() ==> (#[trigger] keyed_group(fs, kf, keys[k])).len() > 0
    &&& forall|j: int| 0 <= j < fs.len() && (#[trigger] kf(fs[j])) is Some ==> keys.contains(kf(fs[j])->0)
}

pub open spec fn group_views(g: Seq<Vec<ModelFile>>) -> Seq<Seq<FileView>> {
    Seq::new(g.len(), |i: int| file_views(g[i]@))
}

pub open spec fn opt_key_views(v: Seq<Option<Vec<char>>>) -> Seq<Option<Seq<char>>> {
    Seq::new(v.len(), |i: int| match v[i] {
        Some(k) => Some(k@),
        None => None,
    })
}

proof fn lemma_keyed_group_step(fs: Seq<FileView>, kf: spec_fn(FileView) -> Option<Seq<char>>, i: int, key: Seq<char>)
    requires
        0 <= i < fs.len(),
    ensures
        keyed_group(fs.take(i + 1), kf, key) == if kf(fs[i]) == Some(key) {
            keyed_group(fs.take(i), kf, key).push(fs[i])
        } else {
            keyed_group(fs.take(i), kf, key)
        },
{
    assert(fs.take(i + 1).drop_last() =~= fs.take(i));
}

/// Group files by their keys (`fkeys[i]` is the key of `files[i]`, `None`
/// leaves it out): keys in increasing order, files of a group in
/// repository order.
fn group_files(files: &[ModelFile], fkeys: &[Option<Vec<char>>], Ghost(kf): Ghost<spec_fn(FileView) -> Option<Seq<char>>>) -> (r: (Vec<Vec<char>>, Vec<Vec<ModelFile>>))
    requires
        fkeys.len() == files.len(),
        forall|j: int| 0 <= j < files.len() ==> #[trigger] opt_key_views(fkeys@)[j] == kf(files@[j]@),
    ensures
        r.0@.len() == r.1@.len(),
        group_keys(file_views(files@), kf, crate::text::vviews(r.0@)),
        forall|k: int| 0 <= k < r.1@.len() ==> #[trigger] group_views(r.1@)[k] == keyed_group(file_views(files@), kf, crate::text::vviews(r.0@)[k]),
{
    let ghost fs = file_views(files@);
    let mut keys: Vec<Vec<char>> = Vec::new();
    let mut groups: Vec<Vec<ModelFile>> = Vec::new();
    let mut i: usize = 0;
    while i < files.len()
        invariant
            i <= files.len(),
            fs == file_views(files@),
            fkeys.len() == files.len(),
            forall|j: int| 0 <= j < files.len() ==> #[trigger] opt_key_views(fkeys@)[j] == kf(files@[j]@),
            keys@.len() == groups@.len(),
            group_keys(fs.take(i as int), kf, crate::text::vviews(keys@)),
            forall|k: int| 0 <= k < groups@.len() ==> #[trigger] group_views(groups@)[k] == keyed_group(fs.take(i as int), kf, crate::text::vviews(keys@)[k]),
        decreases files.len() - i,
    {
        let ghost ks = crate::text::vviews(keys@);
        let ghost gs = group_views(groups@);
        let ghost fi = fs[i as int];
        assert(fi == files@[i as int]@);
        assert(opt_key_views(fkeys@)[i as int] == kf(fi));
        assert forall|k: int| 0 <= k < ks.len() implies keyed_group(fs.take(i + 1), kf, #[trigger] ks[k]) == if kf(fi) == Some(ks[k]) {
            keyed_group(fs.take(i as int), kf, ks[k]).push(fi)
        } else {
            keyed_group(fs.take(i as int), kf, ks[k])
        } by {
            lemma_keyed_group_step(fs, kf, i as int, ks[k]);
        }
        match &fkeys[i] {
            Some(kk) => {
                let key = slice_vec(kk.as_slice(), 0, kk.len());
                assert(kf(fi) == Some(key@));
                let mut pos: usize = 0;
                while pos < keys.len() && lex_less(keys[pos].as_slice(), key.as_slice())
                    invariant
                        pos <= keys@.len(),
                        ks == crate::text::vviews(keys@),
                        forall|k: int| 0 <= k < pos ==> lex_lt(#[trigger] ks[k], key@),
                    decreases keys.len() - pos,
                {
                    pos += 1;
                }
                let found = pos < keys.len() && seq_eq(keys[pos].as_slice(), key.as_slice());
                if found {
                    let mut g = groups.remove(pos);
                    let ghost gb = file_views(g@);
                    g.push(files[i].duplicate());
                    assert(file_views(g@) =~= gb.push(fi));
                    let ghost gnew = file_views(g@);
                    groups.insert(pos, g);
                    proof {
                        let gs2 = group_views(groups@);
                        assert forall|k: int| 0 <= k < groups@.len() implies #[trigger] group_views(groups@)[k] == keyed_group(fs.take(i + 1), kf, crate::text::vviews(keys@)[k]) by {
                            if k != pos {
                                assert(gs2[k] == gs[k]);
                                assert(lex_lt(ks[k], ks[pos as int]) || lex_lt(ks[pos as int], ks[k]));
                                lemma_lex_irrefl(ks[k]);
                            } else {
                                assert(gs2[k] == gnew);
                                assert(ks[k] == key@);
                                assert(gb == gs[k]);
                            }
                        }
                        let fs2 = fs.take(i + 1);
                        assert forall|k: int| 0 <= k < ks.len() implies (#[trigger] keyed_group(fs2, kf, ks[k])).len() > 0 by {
                            assert(keyed_group(fs.take(i as int), kf, ks[k]).len() > 0);
                        }
                        assert forall|j: int| 0 <= j < fs2.len() && (#[trigger] kf(fs2[j])) is Some implies ks.contains(kf(fs2[j])->0) by {
                            if j < i {
                                assert(fs2[j] == fs.take(i as int)[j]);
                            } else {
                                assert(ks[pos as int] == key@);
                            }
                        }
                    }
                } else {
                    let ghost kv = key@;
                    proof {
                        if pos < keys@.len() {
                            lemma_lex_total(ks[pos as int], kv);
                        }
                    }
                    keys.insert(pos, key);
                    let mut g: Vec<ModelFile> = Vec::new();
                    g.push(files[i].duplicate());
                    assert(file_views(g@) =~= seq![fi]);
                    groups.insert(pos, g);
                    proof {
                        let ks2 = crate::text::vviews(keys@);
                        let gs2 = group_views(groups@);
                        assert(ks2 =~= ks.insert(pos as int, kv));
                        assert(gs2 =~= gs.insert(pos as int, seq![fi]));
                        assert forall|k: int| 0 <= k < ks.len() implies #[trigger] ks[k] != kv by {
                            if k < pos {
                                lemma_lex_irrefl(kv);
                            } else {
                                lemma_lex_trans(kv, ks[pos as int], ks[k]);
                                lemma_lex_irrefl(kv);
                            }
                        }
                        assert forall|a: int, b: int| 0 <= a < b < ks2.len() implies lex_lt(#[trigger] ks2[a], #[trigger] ks2[b]) by {
                            if a < pos && b == pos {
                            } else if a == pos {
                                if pos < ks.len() {
                                    lemma_lex_trans(kv, ks[pos as int], ks[b - 1]);
                                }
                            } else if a < pos && b > pos {
                                assert(ks2[b] == ks[b - 1]);
                            } else if a > pos {
                                assert(ks2[a] == ks[a - 1]);
                                assert(ks2[b] == ks[b - 1]);
                            }
                        }
                        assert(keyed_group(fs.take(i as int), kf, kv).len() == 0) by {
                            lemma_group_absent(fs.take(i as int), kf, ks, kv);
                        }
                        assert forall|k: int| 0 <= k < groups@.len() implies #[trigger] group_views(groups@)[k] == keyed_group(fs.take(i + 1), kf, ks2[k]) by {
                            if k < pos {
                                assert(ks2[k] == ks[k]);
                                assert(gs2[k] == gs[k]);
                            } else if k > pos {
                                assert(ks2[k] == ks[k - 1]);
                                assert(gs2[k] == gs[k - 1]);
                            } else {
                                lemma_keyed_group_step(fs, kf, i as int, kv);
                                assert(keyed_group(fs.take(i as int), kf, kv) =~= Seq::<FileView>::empty());
                                assert(seq![fi] =~= Seq::<FileView>::empty().push(fi));
                            }
                        }
                        let fs2 = fs.take(i + 1);
                        assert forall|k: int| 0 <= k < ks2.len() implies (#[trigger] keyed_group(fs2, kf, ks2[k])).len() > 0 by {
                            if k < pos {
                                assert(ks2[k] == ks[k]);
                                lemma_keyed_group_step(fs, kf, i as int, ks[k]);
                            } else if k > pos {
                                assert(ks2[k] == ks[k - 1]);
                                lemma_keyed_group_step(fs, kf, i as int, ks[k - 1]);
                            } else {
                                lemma_keyed_group_step(fs, kf, i as int, kv);
                            }
                        }
                        assert forall|j: int| 0 <= j < fs2.len() && (#[trigger] kf(fs2[j])) is Some implies ks2.contains(kf(fs2[j])->0) by {
                            if j < i {
                                assert(fs2[j] == fs.take(i as int)[j]);
                                assert(ks.contains(kf(fs2[j])->0));
                                let k = choose|k: int| 0 <= k < ks.len() && ks[k] == kf(fs2[j])->0;
                                if k < pos {
                                    assert(ks2[k] == ks[k]);
                                } else {
                                    assert(ks2[k + 1] == ks[k]);
                                }
                            } else {
                                assert(ks2[pos as int] == kv);
                            }
                        }
                    }
                }
            },
            None => {
                proof {
                    assert forall|k: int| 0 <= k < groups@.len() implies #[trigger] group_views(groups@)[k] == keyed_group(fs.take(i + 1), kf, crate::text::vviews(keys@)[k]) by {}
                    let fs2 = fs.take(i + 1);
                    assert forall|k: int| 0 <= k < ks.len() implies (#[trigger] keyed_group(fs2, kf, ks[k])).len() > 0 by {
                        assert(keyed_group(fs.take(i as int), kf, ks[k]).len() > 0);
                    }
                    assert forall|j: int| 0 <= j < fs2.len() && (#[trigger] kf(fs2[j])) is Some implies ks.contains(kf(fs2[j])->0) by {
                        if j < i {
                            assert(fs2[j] == fs.take(i as int)[j]);
                        }
                    }
                }
            },
        }
        i += 1;
    }
    assert(fs.take(files.len() as int) =~= fs);
    (keys, groups)
}

/// A key missing from the keys of a prefix has no files there.
proof fn lemma_group_absent(fs: Seq<FileView>, kf: spec_fn(FileView) -> Option<Seq<char>>, ks: Seq<Seq<char>>, key: Seq<char>)
    requires
        forall|j: int| 0 <= j < fs.len() && (#[trigger] kf(fs[j])) is Some ==> ks.contains(kf(fs[j])->0),
        !ks.contains(key),
    ensures
        keyed_group(fs, kf, key).len() == 0,
    decreases fs.len(),
{
    if fs.len() > 0 {
        let f = fs.last();
        assert forall|j: int| 0 <= j < fs.drop_last().len() && (#[trigger] kf(fs.drop_last()[j])) is Some implies ks.contains(kf(fs.drop_last()[j])->0) by {
            assert(fs.drop_last()[j] == fs[j]);
        }
        lemma_group_absent(fs.drop_last(), kf, ks, key);
        assert(fs[fs.len() - 1] == f);
    }
}

/// Keys of the GGUF weight files: their shard-normalized paths.
fn gguf_file_keys(files: &[ModelFile]) -> (r: Vec<Option<Vec<char>>>)
    ensures
        r@.len() == files@.len(),
        forall|j: int| 0 <= j < files.len() ==> #[trigger] opt_key_views(r@)[j] == gguf_key()(files@[j]@),
{
    let mut r: Vec<Option<Vec<char>>> = Vec::new();
    let mut i: usize = 0;
    while i < files.len()
        invariant
            i <= files.len(),
            r@.len() == i,
            forall|j: int| 0 <= j < i ==> #[trigger] opt_key_views(r@)[j] == gguf_key()(files@[j]@),
        decreases files.len() - i,
    {
        let ghost prev = r@;
        let role = classify_role(files[i].path.as_str());
        if files[i].is_gguf && role != FileRole::Mmproj {
            let base_s = shard_normalize(files[i].path.as_str());
            r.push(Some(chars_of(base_s.as_str())));
        } else {
            r.push(None);
        }
        assert(opt_key_views(r@)[i as int] == gguf_key()(files@[i as int]@));
        assert forall|j: int| 0 <= j < i implies #[trigger] opt_key_views(r@)[j] == gguf_key()(files@[j]@) by {
            assert(r@[j] == prev[j]);
            assert(opt_key_views(prev)[j] == gguf_key()(files@[j]@));
        }
        i += 1;
    }
    r
}

/// Sorting rank of a variant: its quant's rank, 500 without a quant.
pub open spec fn variant_rank(v: VariantView) -> u32 {
    match v.quant {
        Some(q) => rank_of_upper(upper_text(q)),
        None => 500,
    }
}

/// GGUF variants: better quant rank first, the larger first on equal rank.
pub open spec fn variant_order() -> spec_fn(VariantView, VariantView) -> bool {
    |a: VariantView, b: VariantView| variant_rank(a) < variant_rank(b) || (variant_rank(a)
        == variant_rank(b) && a.total_size > b.total_size)
}

/// A variant with its sorting rank.
pub struct RankedVariant {
    rank: u32,
    variant: Variant,
}

impl RankedVariant {
    #[verifier::type_invariant]
    spec fn rank_matches(self) -> bool {
        self.rank == variant_rank(self.variant@)
    }

    pub closed spec fn inner(self) -> Variant {
        self.variant
    }

    fn new(v: Variant) -> (r: Self)
        ensures
            r.inner() == v,
    {
        let rank = match &v.quant {
            Some(q) => quant_rank(q.as_str()),
            None => 500,
        };
        RankedVariant { rank, variant: v }
    }

    fn take(self) -> (r: Variant)
        ensures
            r == self.inner(),
    {
        self.variant
    }
}

impl StrictWeakOrder for RankedVariant {
    open spec fn lt(a: Self, b: Self) -> bool {
        variant_order()(a.inner()@, b.inner()@)
    }

    fn exec_lt(&self, other: &Self) -> (r: bool) {
        proof {
            use_type_invariant(self);
            use_type_invariant(other);
        }
        self.rank < other.rank || (self.rank == other.rank && self.variant.total_size
            > other.variant.total_size)
    }

    proof fn lemma_asym(a: Self, b: Self) {
    }

    proof fn lemma_neg_trans(a: Self, b: Self, c: Self) {
    }
}

/// Stable sort of GGUF variants by `variant_order`.
fn sort_variants(v: Vec<Variant>) -> (r: Vec<Variant>)
    ensures
        stable_sorted(variant_views(r@), variant_views(v@), variant_order()),
{
    let ghost orig = v@;
    let mut src = v;
    let mut w: Vec<RankedVariant> = Vec::new();
    let mut i: usize = 0;
    let n = src.len();
    while src.len() > 0
        invariant
            i + src@.len() == orig.len(),
            orig.len() == n,
            src@ == orig.subrange(i as int, orig.len() as int),
            w@.len() == i,
            forall|k: int| 0 <= k < i ==> (#[trigger] w@[k]).inner()@ == orig[k]@,
        decreases src.len(),
    {
        let f = src.remove(0);
        w.push(RankedVariant::new(f));
        i += 1;
    }
    let ghost wv = w@;
    let sorted = stable_sort(w);
    let mut out: Vec<Variant> = Vec::new();
    let mut rest = sorted;
    let ghost sv = rest@;
    let mut j: usize = 0;
    let m = rest.len();
    while rest.len() > 0
        invariant
            j + rest@.len() == sv.len(),
            sv.len() == m,
            rest@ == sv.subrange(j as int, sv.len() as int),
            out@.len() == j,
            forall|k: int| 0 <= k < j ==> (#[trigger] out@[k])@ == sv[k].inner()@,
        decreases rest.len(),
    {
        let b = rest.remove(0);
        out.push(b.take());
        j += 1;
    }
    proof {
        let f = |x: RankedVariant| x.inner()@;
        assert forall|a: RankedVariant, b: RankedVariant| #[trigger] lt_of::<RankedVariant>()(a, b) == variant_order()(f(a), f(b)) by {}
        lemma_sorted_map(sv, wv, lt_of::<RankedVariant>(), variant_order(), f);
        assert(sv.map_values(f) =~= variant_views(out@));
        assert(wv.map_values(f) =~= variant_views(orig));
    }
    out
}

/// The GGUF variant of group `key`, with its files in path order.
pub open spec fn gguf_variant(fs: Seq<FileView>, key: Seq<char>, files: Seq<FileView>) -> VariantView {
    let name_only = after_last_slash(key);
    let q = name_quant(name_only);
    VariantView {
        id: key,
        label: match q {
            Some(x) => x,
            None => name_only,
        },
        quant: q,
        files,
        total_size: total_size(keyed_group(fs, gguf_key(), key)) as u64,
        companions: companions_of(fs),
        companions_size: total_size(companions_of(fs)) as u64,
        recommended: false,
    }
}

/// Whether a variant's quant ranks as `Q4_K_M` does.
pub open spec fn q4_like(v: VariantView) -> bool {
    match v.quant {
        Some(q) => rank_of_upper(upper_text(q)) == rank_of_upper(upper_text("Q4_K_M"@)),
        None => false,
    }
}

pub open spec fn first_q4_from(vs: Seq<VariantView>, i: int) -> int
    decreases vs.len() - i,
{
    if i < 0 || i >= vs.len() {
        -1
    } else if q4_like(vs[i]) {
        i
    } else {
        first_q4_from(vs, i + 1)
    }
}

/// The variant to recommend: the first ranked like `Q4_K_M`, else the first.
pub open spec fn gguf_pick(vs: Seq<VariantView>) -> int {
    if first_q4_from(vs, 0) >= 0 {
        first_q4_from(vs, 0)
    } else {
        0
    }
}

/// `vs` with exactly the variant at `idx` recommended.
pub open spec fn marked(vs: Seq<VariantView>, idx: int) -> Seq<VariantView> {
    Seq::new(vs.len(), |i: int| VariantView { recommended: i == idx, ..vs[i] })
}

/// How the GGUF variants of `fs` are laid out before marking: groups by
/// key (`group_keys`), files of each group sorted by path, variants sorted by
/// `variant_order`.
pub open spec fn gguf_layout(
    fs: Seq<FileView>,
    keys: Seq<Seq<char>>,
    groups: Seq<Seq<FileView>>,
    sorted: Seq<VariantView>,
) -> bool {
    &&& group_keys(fs, gguf_key(), keys)
    &&& groups.len() == keys.len()
    &&& forall|k: int| 0 <= k < keys.len() ==> stable_sorted(#[trigger] groups[k], keyed_group(fs, gguf_key(), keys[k]), path_order())
    &&& stable_sorted(sorted, Seq::new(keys.len() as nat, |k: int| gguf_variant(fs, keys[k], groups[k])), variant_order())
}

/// Sets `recommended` on the variant at `idx` (all were unset).
fn mark_at(v: &mut Vec<Variant>, idx: usize)
    requires
        idx < old(v)@.len(),
        forall|i: int| 0 <= i < old(v)@.len() ==> !(#[trigger] old(v)@[i]).recommended,
    ensures
        variant_views(final(v)@) == marked(variant_views(old(v)@), idx as int),
{
    let ghost before = variant_views(v@);
    let mut x = v.remove(idx);
    x.recommended = true;
    v.insert(idx, x);
    assert(variant_views(v@) =~= marked(before, idx as int));
}

fn is_q4_like(v: &Variant) -> (r: bool)
    ensures
        r == q4_like(v@),
{
    match &v.quant {
        Some(q) => quant_rank(q.as_str()) == quant_rank("Q4_K_M"),
        None => false,
    }
}

proof fn lemma_total_group_le(fs: Seq<FileView>, kf: spec_fn(FileView) -> Option<Seq<char>>, key: Seq<char>)
    ensures
        total_size(keyed_group(fs, kf, key)) <= total_size(fs),
    decreases fs.len(),
{
    if fs.len() > 0 {
        lemma_total_group_le(fs.drop_last(), kf, key);
        let rest = keyed_group(fs.drop_last(), kf, key);
        assert(rest.push(fs.last()).drop_last() =~= rest);
    }
}

proof fn lemma_best_mmproj_in(c: Seq<FileView>)
    ensures
        best_mmproj(c) matches Some(b) ==> b.size <= total_size(c),
    decreases c.len(),
{
    if c.len() > 0 {
        lemma_best_mmproj_in(c.drop_last());
    }
}

proof fn lemma_companions_le(fs: Seq<FileView>)
    ensures
        total_size(base_companions(fs)) + total_size(mmprojs(fs)) <= total_size(fs),
    decreases fs.len(),
{
    if fs.len() > 0 {
        lemma_companions_le(fs.drop_last());
        let b = base_companions(fs.drop_last());
        let m = mmprojs(fs.drop_last());
        assert(b.push(fs.last()).drop_last() =~= b);
        assert(m.push(fs.last()).drop_last() =~= m);
    }
}

proof fn lemma_companions_total(fs: Seq<FileView>)
    ensures
        total_size(companions_of(fs)) <= total_size(fs),
{
    lemma_companions_le(fs);
    lemma_best_mmproj_in(mmprojs(fs));
    if let Some(b) = best_mmproj(mmprojs(fs)) {
        let c = base_companions(fs).push(b);
        assert(c.drop_last() =~= base_companions(fs));
    }
}

fn sum_group(v: &Vec<ModelFile>, Ghost(fs): Ghost<Seq<FileView>>, Ghost(kf): Ghost<spec_fn(FileView) -> Option<Seq<char>>>, Ghost(key): Ghost<Seq<char>>) -> (r: u64)
    requires
        file_views(v@) == keyed_group(fs, kf, key),
        total_size(fs) <= u64::MAX,
    ensures
        r == total_size(keyed_group(fs, kf, key)),
{
    proof {
        lemma_total_group_le(fs, kf, key);
    }
    sum_sizes(v.as_slice())
}

/// Group repository GGUF files into quantization variants: one per
/// shard-normalized file name (multi-shard quants stay together), files in
/// path order, with config/tokenizer companions and the best vision
/// projector; ordered by quant preference, the `Q4_K_M`-ranked one (else
/// the first) recommended.
pub fn build_gguf_variants(files: &[ModelFile]) -> (r: Vec<Variant>)
    requires
        total_size(file_views(files@)) <= u64::MAX,
    ensures
        exists|keys: Seq<Seq<char>>, groups: Seq<Seq<FileView>>, sorted: Seq<VariantView>|
            #[trigger] gguf_layout(file_views(files@), keys, groups, sorted) && variant_views(r@)
                == marked(sorted, gguf_pick(sorted)),
{
    let ghost fs = file_views(files@);
    let fkeys = gguf_file_keys(files);
    let (keys, groups) = group_files(files, fkeys.as_slice(), Ghost(gguf_key()));
    let comps = companions(files);
    proof {
        lemma_companions_total(fs);
    }
    let csize = sum_sizes(comps.as_slice());
    let ghost ks = crate::text::vviews(keys@);
    let ghost gv = group_views(groups@);
    let mut pre: Vec<Variant> = Vec::new();
    let ghost mut sorted_groups: Seq<Seq<FileView>> = Seq::empty();
    let mut key_rest = keys;
    let mut group_rest = groups;
    let mut k: usize = 0;
    let nk = key_rest.len();
    while key_rest.len() > 0
        invariant
            k + key_rest@.len() == ks.len(),
            ks.len() == nk,
            key_rest@.len() == group_rest@.len(),
            crate::text::vviews(key_rest@) == ks.subrange(k as int, ks.len() as int),
            group_views(group_rest@) == gv.subrange(k as int, gv.len() as int),
            gv.len() == ks.len(),
            forall|j: int| 0 <= j < gv.len() ==> #[trigger] gv[j] == keyed_group(fs, gguf_key(), ks[j]),
            total_size(fs) <= u64::MAX,
            file_views(comps@) == companions_of(fs),
            csize == total_size(companions_of(fs)),
            sorted_groups.len() == k,
            pre@.len() == k,
            forall|j: int| 0 <= j < k ==> stable_sorted(#[trigger] sorted_groups[j], keyed_group(fs, gguf_key(), ks[j]), path_order()),
            forall|j: int| 0 <= j < k ==> (#[trigger] pre@[j])@ == gguf_variant(fs, ks[j], sorted_groups[j]),
        decreases key_rest.len(),
    {
        let ghost kr0 = key_rest@;
        let ghost gr0 = group_rest@;
        proof {
            assert(crate::text::vviews(kr0)[0] == ks[k as int]);
            assert(group_views(gr0)[0] == gv[k as int]);
        }
        let key = key_rest.remove(0);
        let g = group_rest.remove(0);
        proof {
            assert forall|j: int| 0 <= j < key_rest@.len() implies #[trigger] crate::text::vviews(key_rest@)[j] == ks[k + 1 + j] by {
                assert(key_rest@[j] == kr0[j + 1]);
                assert(crate::text::vviews(kr0)[j + 1] == ks[k + 1 + j]);
            }
            assert forall|j: int| 0 <= j < group_rest@.len() implies #[trigger] group_views(group_rest@)[j] == gv[k + 1 + j] by {
                assert(group_rest@[j] == gr0[j + 1]);
                assert(group_views(gr0)[j + 1] == gv[k + 1 + j]);
            }
        }
        let total = sum_group(&g, Ghost(fs), Ghost(gguf_key()), Ghost(key@));
        let sg = sort_by_path(g);
        let name_only = after_last_slash_exec(key.as_slice());
        let name_s = string_from(name_only.as_slice());
        let quant = quant_from_filename(name_s.as_str());
        let label = match &quant {
            Some(q) => q.clone(),
            None => string_from(name_only.as_slice()),
        };
        let v = Variant {
            id: string_from(key.as_slice()),
            label,
            quant,
            files: sg,
            total_size: total,
            companions: dup_files(&comps),
            companions_size: csize,
            recommended: false,
        };
        proof {
            sorted_groups = sorted_groups.push(file_views(v.files@));
            assert(crate::text::vviews(key_rest@) =~= ks.subrange(k + 1, ks.len() as int));
            assert(group_views(group_rest@) =~= gv.subrange(k + 1, gv.len() as int));
        }
        assert(v@ == gguf_variant(fs, ks[k as int], sorted_groups[k as int]));
        pre.push(v);
        k += 1;
    }
    let ghost pre_v = variant_views(pre@);
    assert(pre_v =~= Seq::new(ks.len() as nat, |j: int| gguf_variant(fs, ks[j], sorted_groups[j])));
    let mut out = sort_variants(pre);
    let ghost sorted = variant_views(out@);
    proof {
        let p = choose|p: Seq<int>| crate::sort::sort_witness(sorted, pre_v, variant_order(), p);
        assert forall|i: int| 0 <= i < out@.len() implies !(#[trigger] out@[i]).recommended by {
            assert(sorted[i] == pre_v[p[i]]);
        }
    }
    let mut idx: usize = 0;
    while idx < out.len() && !is_q4_like(&out[idx])
        invariant
            idx <= out@.len(),
            sorted == variant_views(out@),
            first_q4_from(sorted, 0) == first_q4_from(sorted, idx as int),
        decreases out.len() - idx,
    {
        assert(variant_views(out@)[idx as int] == out@[idx as int]@);
        idx += 1;
    }
    if idx < out.len() {
        assert(variant_views(out@)[idx as int] == out@[idx as int]@);
        mark_at(&mut out, idx);
    } else if out.len() > 0 {
        mark_at(&mut out, 0);
    }
    assert(gguf_layout(fs, ks, sorted_groups, sorted));
    out
}

/// A tensor weight file: `.safetensors`, `.bin` or `.npz` by its lower-cased
/// name, and not a vision projector.
pub open spec fn tensor_weight(f: FileView) -> bool {
    let name = after_last_slash(lower_text(f.path));
    (ends_with(name, ".safetensors"@) || ends_with(name, ".bin"@) || ends_with(name, ".npz"@))
        && role_of(f.path) != FileRole::Mmproj
}

/// Group key of a file among tensor weights: its directory.
pub open spec fn tensor_key() -> spec_fn(FileView) -> Option<Seq<char>> {
    |f: FileView| if tensor_weight(f) { Some(before_last_slash(f.path)) } else { None }
}

/// The weight-set variant of directory `dir`, with its files in path order.
pub open spec fn tensor_variant(fs: Seq<FileView>, dir: Seq<char>, files: Seq<FileView>) -> VariantView {
    VariantView {
        id: if dir.len() == 0 { "root"@ } else { dir },
        label: if dir.len() == 0 { "全量权重"@ } else { after_last_slash(dir) },
        quant: None,
        files,
        total_size: total_size(keyed_group(fs, tensor_key(), dir)) as u64,
        companions: companions_of(fs),
        companions_size: total_size(companions_of(fs)) as u64,
        recommended: false,
    }
}

/// Weight sets: the lighter first.
pub open spec fn size_order() -> spec_fn(VariantView, VariantView) -> bool {
    |a: VariantView, b: VariantView| a.total_size < b.total_size
}

/// How the weight-set variants of `fs` are laid out before marking: one
/// group per weight directory (`group_keys`), or a single empty root group
/// when a non-empty repository has no weight file; files of each group
/// sorted by path; variants sorted by `size_order`.
pub open spec fn tensor_layout(
    fs: Seq<FileView>,
    keys: Seq<Seq<char>>,
    groups: Seq<Seq<FileView>>,
    sorted: Seq<VariantView>,
) -> bool {
    &&& if fs.len() > 0 && forall|j: int| 0 <= j < fs.len() ==> !tensor_weight(#[trigger] fs[j]) {
        keys == seq![Seq::<char>::empty()]
    } else {
        group_keys(fs, tensor_key(), keys)
    }
    &&& groups.len() == keys.len()
    &&& forall|k: int| 0 <= k < keys.len() ==> stable_sorted(#[trigger] groups[k], keyed_group(fs, tensor_key(), keys[k]), path_order())
    &&& stable_sorted(sorted, Seq::new(keys.len() as nat, |k: int| tensor_variant(fs, keys[k], groups[k])), size_order())
}

/// A variant ordered by total size.
pub struct BySize {
    pub variant: Variant,
}

impl StrictWeakOrder for BySize {
    open spec fn lt(a: Self, b: Self) -> bool {
        a.variant.total_size < b.variant.total_size
    }

    fn exec_lt(&self, other: &Self) -> (r: bool) {
        self.variant.total_size < other.variant.total_size
    }

    proof fn lemma_asym(a: Self, b: Self) {
    }

    proof fn lemma_neg_trans(a: Self, b: Self, c: Self) {
    }
}

/// Stable sort of variants by total size, the lighter first.
fn sort_by_size(v: Vec<Variant>) -> (r: Vec<Variant>)
    ensures
        stable_sorted(variant_views(r@), variant_views(v@), size_order()),
{
    let ghost orig = v@;
    let mut src = v;
    let mut w: Vec<BySize> = Vec::new();
    let mut i: usize = 0;
    let n = src.len();
    while src.len() > 0
        invariant
            i + src@.len() == orig.len(),
            orig.len() == n,
            src@ == orig.subrange(i as int, orig.len() as int),
            w@.len() == i,
            forall|k: int| 0 <= k < i ==> (#[trigger] w@[k]).variant@ == orig[k]@,
        decreases src.len(),
    {
        let f = src.remove(0);
        w.push(BySize { variant: f });
        i += 1;
    }
    let ghost wv = w@;
    let sorted = stable_sort(w);
    let mut out: Vec<Variant> = Vec::new();
    let mut rest = sorted;
    let ghost sv = rest@;
    let mut j: usize = 0;
    let m = rest.len();
    while rest.len() > 0
        invariant
            j + rest@.len() == sv.len(),
            sv.len() == m,
            rest@ == sv.subrange(j as int, sv.len() as int),
            out@.len() == j,
            forall|k: int| 0 <= k < j ==> (#[trigger] out@[k])@ == sv[k].variant@,
        decreases rest.len(),
    {
        let b = rest.remove(0);
        out.push(b.variant);
        j += 1;
    }
    proof {
        let f = |x: BySize| x.variant@;
        assert forall|a: BySize, b: BySize| #[trigger] lt_of::<BySize>()(a, b) == size_order()(f(a), f(b)) by {}
        lemma_sorted_map(sv, wv, lt_of::<BySize>(), size_order(), f);
        assert(sv.map_values(f) =~= variant_views(out@));
        assert(wv.map_values(f) =~= variant_views(orig));
    }
    out
}

fn is_tensor_weight(f: &ModelFile) -> (r: bool)
    ensures
        r == tensor_weight(f@),
{
    let low = lower_chars(f.path.as_str());
    let name = after_last_slash_exec(low.as_slice());
    let n = name.as_slice();
    (has_lit_suffix(n, ".safetensors") || has_lit_suffix(n, ".bin") || has_lit_suffix(n, ".npz"))
        && classify_role(f.path.as_str()) != FileRole::Mmproj
}

/// Keys of the tensor weight files: their directories.
fn tensor_file_keys(files: &[ModelFile]) -> (r: Vec<Option<Vec<char>>>)
    ensures
        r@.len() == files@.len(),
        forall|j: int| 0 <= j < files.len() ==> #[trigger] opt_key_views(r@)[j] == tensor_key()(files@[j]@),
{
    let mut r: Vec<Option<Vec<char>>> = Vec::new();
    let mut i: usize = 0;
    while i < files.len()
        invariant
            i <= files.len(),
            r@.len() == i,
            forall|j: int| 0 <= j < i ==> #[trigger] opt_key_views(r@)[j] == tensor_key()(files@[j]@),
        decreases files.len() - i,
    {
        let ghost prev = r@;
        if is_tensor_weight(&files[i]) {
            let p = chars_of(files[i].path.as_str());
            r.push(Some(before_last_slash_exec(p.as_slice())));
        } else {
            r.push(None);
        }
        assert(opt_key_views(r@)[i as int] == tensor_key()(files@[i as int]@));
        assert forall|j: int| 0 <= j < i implies #[trigger] opt_key_views(r@)[j] == tensor_key()(files@[j]@) by {
            assert(r@[j] == prev[j]);
            assert(opt_key_views(prev)[j] == tensor_key()(files@[j]@));
        }
        i += 1;
    }
    r
}

/// Group repository weight files into weight-set variants, one per
/// directory (MLX repositories ship quantizations as sub-folders): files in
/// path order, with config/tokenizer companions and the best vision
/// projector; a repository with files but no weight file still gets one
/// empty root variant. Ordered by total size, the lightest recommended.
pub fn build_tensor_variants(files: &[ModelFile]) -> (r: Vec<Variant>)
    requires
        total_size(file_views(files@)) <= u64::MAX,
    ensures
        exists|keys: Seq<Seq<char>>, groups: Seq<Seq<FileView>>, sorted: Seq<VariantView>|
            #[trigger] tensor_layout(file_views(files@), keys, groups, sorted) && variant_views(r@)
                == marked(sorted, 0),
{
    let ghost fs = file_views(files@);
    let fkeys = tensor_file_keys(files);
    let (keys0, groups0) = group_files(files, fkeys.as_slice(), Ghost(tensor_key()));
    let mut keys = keys0;
    let mut groups = groups0;
    let ghost no_weights = fs.len() > 0 && forall|j: int| 0 <= j < fs.len() ==> !tensor_weight(#[trigger] fs[j]);
    if keys.len() == 0 && files.len() > 0 {
        proof {
            assert forall|j: int| 0 <= j < fs.len() implies !tensor_weight(#[trigger] fs[j]) by {
                if tensor_weight(fs[j]) {
                    assert(tensor_key()(fs[j]) is Some);
                }
            }
            assert(keyed_group(fs, tensor_key(), Seq::<char>::empty()).len() == 0) by {
                lemma_group_absent(fs, tensor_key(), Seq::empty(), Seq::empty());
            }
            assert(keyed_group(fs, tensor_key(), Seq::<char>::empty()) =~= Seq::<FileView>::empty());
        }
        keys.push(Vec::new());
        groups.push(Vec::new());
        proof {
            assert(crate::text::vviews(keys@) =~= seq![Seq::<char>::empty()]);
            assert(group_views(groups@)[0] =~= Seq::<FileView>::empty());
        }
    } else {
        proof {
            if no_weights {
                let k0 = crate::text::vviews(keys@);
                assert(k0.len() > 0);
                assert(keyed_group(fs, tensor_key(), k0[0]).len() == 0) by {
                    lemma_group_absent(fs, tensor_key(), Seq::empty(), k0[0]);
                }
            }
        }
    }
    let comps = companions(files);
    proof {
        lemma_companions_total(fs);
    }
    let csize = sum_sizes(comps.as_slice());
    let ghost ks = crate::text::vviews(keys@);
    let ghost gv = group_views(groups@);
    let mut pre: Vec<Variant> = Vec::new();
    let ghost mut sorted_groups: Seq<Seq<FileView>> = Seq::empty();
    let mut key_rest = keys;
    let mut group_rest = groups;
    let mut k: usize = 0;
    let nk = key_rest.len();
    while key_rest.len() > 0
        invariant
            k + key_rest@.len() == ks.len(),
            ks.len() == nk,
            key_rest@.len() == group_rest@.len(),
            crate::text::vviews(key_rest@) == ks.subrange(k as int, ks.len() as int),
            group_views(group_rest@) == gv.subrange(k as int, gv.len() as int),
            gv.len() == ks.len(),
            forall|j: int| 0 <= j < gv.len() ==> #[trigger] gv[j] == keyed_group(fs, tensor_key(), ks[j]),
            total_size(fs) <= u64::MAX,
            file_views(comps@) == companions_of(fs),
            csize == total_size(companions_of(fs)),
            sorted_groups.len() == k,
            pre@.len() == k,
            forall|j: int| 0 <= j < k ==> stable_sorted(#[trigger] sorted_groups[j], keyed_group(fs, tensor_key(), ks[j]), path_order()),
            forall|j: int| 0 <= j < k ==> (#[trigger] pre@[j])@ == tensor_variant(fs, ks[j], sorted_groups[j]),
        decreases key_rest.len(),
    {
        let ghost kr0 = key_rest@;
        let ghost gr0 = group_rest@;
        proof {
            assert(crate::text::vviews(kr0)[0] == ks[k as int]);
            assert(group_views(gr0)[0] == gv[k as int]);
        }
        let dir = key_rest.remove(0);
        let g = group_rest.remove(0);
        proof {
            assert forall|j: int| 0 <= j < key_rest@.len() implies #[trigger] crate::text::vviews(key_rest@)[j] == ks[k + 1 + j] by {
                assert(key_rest@[j] == kr0[j + 1]);
                assert(crate::text::vviews(kr0)[j + 1] == ks[k + 1 + j]);
            }
            assert forall|j: int| 0 <= j < group_rest@.len() implies #[trigger] group_views(group_rest@)[j] == gv[k + 1 + j] by {
                assert(group_rest@[j] == gr0[j + 1]);
                assert(group_views(gr0)[j + 1] == gv[k + 1 + j]);
            }
        }
        let total = sum_group(&g, Ghost(fs), Ghost(tensor_key()), Ghost(dir@));
        let sg = sort_by_path(g);
        let (id, label) = if dir.len() == 0 {
            (String::from_str("root"), String::from_str("全量权重"))
        } else {
            let last = after_last_slash_exec(dir.as_slice());
            (string_from(dir.as_slice()), string_from(last.as_slice()))
        };
        let v = Variant {
            id,
            label,
            quant: None,
            files: sg,
            total_size: total,
            companions: dup_files(&comps),
            companions_size: csize,
            recommended: false,
        };
        proof {
            sorted_groups = sorted_groups.push(file_views(v.files@));
            assert(crate::text::vviews(key_rest@) =~= ks.subrange(k + 1, ks.len() as int));
            assert(group_views(group_rest@) =~= gv.subrange(k + 1, gv.len() as int));
            reveal_strlit("root");
            reveal_strlit("全量权重");
        }
        assert(v@ == tensor_variant(fs, ks[k as int], sorted_groups[k as int]));
        pre.push(v);
        k += 1;
    }
    let ghost pre_v = variant_views(pre@);
    assert(pre_v =~= Seq::new(ks.len() as nat, |j: int| tensor_variant(fs, ks[j], sorted_groups[j])));
    let mut out = sort_by_size(pre);
    let ghost sorted = variant_views(out@);
    proof {
        let p = choose|p: Seq<int>| crate::sort::sort_witness(sorted, pre_v, size_order(), p);
        assert forall|i: int| 0 <= i < out@.len() implies !(#[trigger] out@[i]).recommended by {
            assert(sorted[i] == pre_v[p[i]]);
        }
    }
    if out.len() > 0 {
        mark_at(&mut out, 0);
    }
    assert(tensor_layout(fs, ks, sorted_groups, sorted));
    out
}

/// The variants of the files `fs` for a repository of `format`: GGUF
/// quantizations for GGUF repositories, weight sets otherwise.
pub open spec fn variants_of(fs: Seq<FileView>, format: ModelFormat, vs: Seq<VariantView>) -> bool {
    match format {
        ModelFormat::Gguf => exists|keys: Seq<Seq<char>>, groups: Seq<Seq<FileView>>, sorted: Seq<VariantView>|
            #[trigger] gguf_layout(fs, keys, groups, sorted) && vs == marked(sorted, gguf_pick(sorted)),
        _ => exists|keys: Seq<Seq<char>>, groups: Seq<Seq<FileView>>, sorted: Seq<VariantView>|
            #[trigger] tensor_layout(fs, keys, groups, sorted) && vs == marked(sorted, 0),
    }
}

/// Group repository files into user-facing variants.
pub fn build_variants(format: ModelFormat, files: &[ModelFile]) -> (r: Vec<Variant>)
    requires
        total_size(file_views(files@)) <= u64::MAX,
    ensures
        variants_of(file_views(files@), format, variant_views(r@)),
{
    match format {
        ModelFormat::Gguf => build_gguf_variants(files),
        _ => build_tensor_variants(files),
    }
}

/// Exactly one variant is recommended: the one marked.
pub proof fn lemma_one_recommended(vs: Seq<VariantView>, idx: int)
    requires
        0 <= idx < vs.len(),
    ensures
        marked(vs, idx).len() == vs.len(),
        forall|i: int| 0 <= i < vs.len() ==> (#[trigger] marked(vs, idx)[i]).recommended == (i == idx),
        forall|i: int| 0 <= i < vs.len() ==> #[trigger] marked(vs, idx)[i] == (VariantView { recommended: i == idx, ..vs[i] }),
{
}

proof fn lemma_first_q4(vs: Seq<VariantView>, i: int)
    requires
        0 <= i <= vs.len(),
    ensures
        first_q4_from(vs, i) == -1 || (i <= first_q4_from(vs, i) < vs.len() && q4_like(vs[first_q4_from(vs, i)])),
        first_q4_from(vs, i) == -1 ==> forall|k: int| i <= k < vs.len() ==> !q4_like(#[trigger] vs[k]),
        first_q4_from(vs, i) >= 0 ==> forall|k: int| i <= k < first_q4_from(vs, i) ==> !q4_like(#[trigger] vs[k]),
    decreases vs.len() - i,
{
    if i < vs.len() && !q4_like(vs[i]) {
        lemma_first_q4(vs, i + 1);
    }
}

/// Among GGUF variants the first one ranked like `Q4_K_M` is recommended
/// whenever there is one; otherwise the first variant.
pub proof fn lemma_gguf_pick(vs: Seq<VariantView>)
    requires
        vs.len() > 0,
    ensures
        0 <= gguf_pick(vs) < vs.len(),
        (exists|i: int| 0 <= i < vs.len() && q4_like(#[trigger] vs[i])) ==> q4_like(vs[gguf_pick(vs)])
            && forall|k: int| 0 <= k < gguf_pick(vs) ==> !q4_like(#[trigger] vs[k]),
        !(exists|i: int| 0 <= i < vs.len() && q4_like(#[trigger] vs[i])) ==> gguf_pick(vs) == 0,
{
    lemma_first_q4(vs, 0);
}

} // verus!
