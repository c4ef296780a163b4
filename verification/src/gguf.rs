//! GGUF header reader: architecture, quantization and size figures from the
//! metadata key/value section, without touching tensor data.
use vstd::prelude::*;
use vstd::utf8::*;
use crate::text::{decimal, decimal_exec, chars_of, seq_eq, split_once, split_once_char, string_from, slice_vec, is_digit, ends_with, has_suffix, starts_with, has_prefix};
use crate::unicode::{upper_text, to_uppercase, ascii_upper, is_ascii_text};

verus! {

/// Header fields of a GGUF file.
#[derive(Debug)]
pub struct GgufMeta {
    pub architecture: Option<String>,
    pub name: Option<String>,
    pub size_label: Option<String>,
    pub quant: Option<String>,
    pub context_length: Option<u64>,
    pub block_count: Option<u64>,
    pub embedding_length: Option<u64>,
    pub head_count: Option<u64>,
    pub file_version: Option<u32>,
}

/// The fields of `GgufMeta` with strings as character sequences.
pub struct MetaModel {
    pub architecture: Option<Seq<char>>,
    pub name: Option<Seq<char>>,
    pub size_label: Option<Seq<char>>,
    pub quant: Option<Seq<char>>,
    pub context_length: Option<u64>,
    pub block_count: Option<u64>,
    pub embedding_length: Option<u64>,
    pub head_count: Option<u64>,
    pub file_version: Option<u32>,
}

pub open spec fn opt_view(o: Option<String>) -> Option<Seq<char>> {
    match o {
        Some(s) => Some(s@),
        None => None,
    }
}

impl View for GgufMeta {
    type V = MetaModel;

    open spec fn view(&self) -> MetaModel {
        MetaModel {
            architecture: opt_view(self.architecture),
            name: opt_view(self.name),
            size_label: opt_view(self.size_label),
            quant: opt_view(self.quant),
            context_length: self.context_length,
            block_count: self.block_count,
            embedding_length: self.embedding_length,
            head_count: self.head_count,
            file_version: self.file_version,
        }
    }
}

/// "GGUF" read as a little-endian `u32`.
pub const MAGIC: u32 = 0x46554747;

// ------------------------------------------------------------ byte reading

/// Outcome of reading one item at a byte position: the item and the
/// position after it, the end of the data, or malformed data.
pub enum Step<T> {
    Done(T, int),
    Eof,
    Bad,
}

/// Why an exec read failed.
#[derive(Clone, Copy, PartialEq, Eq, Debug)]
pub enum ReadErr {
    /// The data ended before the item did.
    Eof,
    /// The data is not a well-formed item.
    Invalid,
}

pub open spec fn le_value(b: Seq<u8>, p: int, n: nat) -> nat
    decreases n,
{
    if n == 0 {
        0
    } else {
        le_value(b, p + 1, (n - 1) as nat) * 256 + b[p] as nat
    }
}

pub open spec fn read_le(b: Seq<u8>, p: int, n: nat) -> Step<nat> {
    if 0 <= p && p + n <= b.len() {
        Step::Done(le_value(b, p, n), p + n)
    } else {
        Step::Eof
    }
}

pub open spec fn read_bytes(b: Seq<u8>, p: int, n: nat) -> Step<Seq<u8>> {
    if 0 <= p && p + n <= b.len() {
        Step::Done(b.subrange(p, p + n), p + n)
    } else {
        Step::Eof
    }
}

/// A length-prefixed UTF-8 string: `u64` length (at most 2^20), then bytes.
pub open spec fn read_string(b: Seq<u8>, p: int) -> Step<Seq<char>> {
    match read_le(b, p, 8) {
        Step::Done(len, q) => if len > 0x100000 {
            Step::Bad
        } else {
            match read_bytes(b, q, len) {
                Step::Done(bytes, r) => if valid_utf8(bytes) {
                    Step::Done(decode_utf8(bytes), r)
                } else {
                    Step::Bad
                },
                _ => Step::Eof,
            }
        },
        _ => Step::Eof,
    }
}

/// Width in bytes of a scalar GGUF value type (0 for strings, arrays and
/// unknown types).
pub open spec fn scalar_width(ty: u32) -> nat {
    if ty == 0 || ty == 1 || ty == 7 {
        1
    } else if ty == 2 || ty == 3 {
        2
    } else if ty == 4 || ty == 5 || ty == 6 {
        4
    } else if ty == 10 || ty == 11 || ty == 12 {
        8
    } else {
        0
    }
}

/// Skipping one value of type `ty` at `p`; arrays are skipped element by
/// element, at most 50 000 000 of them.
pub open spec fn skip_value(b: Seq<u8>, p: int, ty: u32) -> Step<()>
    decreases b.len() - p, 0nat,
{
    if scalar_width(ty) > 0 {
        match read_le(b, p, scalar_width(ty)) {
            Step::Done(_, q) => Step::Done((), q),
            _ => Step::Eof,
        }
    } else if ty == 8 {
        match read_string(b, p) {
            Step::Done(_, q) => Step::Done((), q),
            Step::Eof => Step::Eof,
            Step::Bad => Step::Bad,
        }
    } else if ty == 9 {
        match read_le(b, p, 4) {
            Step::Done(elem, q) => match read_le(b, q, 8) {
                Step::Done(count, r) => if count > 50_000_000 {
                    Step::Bad
                } else {
                    skip_many(b, r, elem as u32, count)
                },
                _ => Step::Eof,
            },
            _ => Step::Eof,
        }
    } else {
        Step::Bad
    }
}

/// Skipping `count` values of type `elem` from `p`.
pub open spec fn skip_many(b: Seq<u8>, p: int, elem: u32, count: nat) -> Step<()>
    decreases b.len() - p, 1nat, count,
{
    if count == 0 {
        Step::Done((), p)
    } else if p > b.len() {
        Step::Eof
    } else {
        match skip_value(b, p, elem) {
            Step::Done(_, q) => if q <= p || q > b.len() {
                Step::Bad
            } else {
                skip_many(b, q, elem, (count - 1) as nat)
            },
            Step::Eof => Step::Eof,
            Step::Bad => Step::Bad,
        }
    }
}

/// A successful skip moves forward and stays inside the data.
pub proof fn lemma_skip_value_advances(b: Seq<u8>, p: int, ty: u32)
    ensures
        skip_value(b, p, ty) matches Step::Done(_, q) ==> p < q <= b.len(),
    decreases b.len() - p, 0nat,
{
    if ty == 9 {
        if let Step::Done(elem, q) = read_le(b, p, 4) {
            if let Step::Done(count, r) = read_le(b, q, 8) {
                if count <= 50_000_000 {
                    lemma_skip_many_advances(b, r, elem as u32, count);
                }
            }
        }
    }
}

pub proof fn lemma_skip_many_advances(b: Seq<u8>, p: int, elem: u32, count: nat)
    requires
        0 <= p <= b.len(),
    ensures
        skip_many(b, p, elem, count) matches Step::Done(_, q) ==> p <= q <= b.len(),
    decreases b.len() - p, 1nat, count,
{
    if count > 0 {
        lemma_skip_value_advances(b, p, elem);
        if let Step::Done(_, q) = skip_value(b, p, elem) {
            if p < q <= b.len() {
                lemma_skip_many_advances(b, q, elem, (count - 1) as nat);
            }
        }
    }
}

/// A cursor over header bytes.
pub struct Reader<'a> {
    pub data: &'a [u8],
    pub pos: usize,
}

impl<'a> Reader<'a> {
    pub fn new(data: &'a [u8]) -> (r: Self)
        ensures
            r.data@ == data@,
            r.pos == 0,
    {
        Reader { data, pos: 0 }
    }

    /// The next `n` bytes.
    pub fn bytes(&mut self, n: u64) -> (r: Result<Vec<u8>, ReadErr>)
        ensures
            final(self).data == old(self).data,
            match read_bytes(old(self).data@, old(self).pos as int, n as nat) {
                Step::Done(v, q) => r matches Ok(x) && x@ == v && final(self).pos == q,
                _ => r == Err::<Vec<u8>, ReadErr>(ReadErr::Eof),
            },
    {
        if self.pos > self.data.len() || n > (self.data.len() - self.pos) as u64 {
            return Err(ReadErr::Eof);
        }
        let end = self.pos + n as usize;
        let mut v: Vec<u8> = Vec::new();
        let mut i = self.pos;
        while i < end
            invariant
                self.pos <= i <= end,
                end <= self.data.len(),
                v@ == self.data@.subrange(self.pos as int, i as int),
            decreases end - i,
        {
            v.push(self.data[i]);
            assert(self.data@.subrange(self.pos as int, i + 1) =~= self.data@.subrange(
                self.pos as int,
                i as int,
            ).push(self.data@[i as int]));
            i += 1;
        }
        self.pos = end;
        Ok(v)
    }

    /// A little-endian unsigned value of `n <= 8` bytes.
    fn le(&mut self, n: usize) -> (r: Result<u64, ReadErr>)
        requires
            1 <= n <= 8,
        ensures
            final(self).data == old(self).data,
            match read_le(old(self).data@, old(self).pos as int, n as nat) {
                Step::Done(v, q) => r == Ok::<u64, ReadErr>(v as u64) && final(self).pos == q && v
                    < pow256(n as nat),
                _ => r == Err::<u64, ReadErr>(ReadErr::Eof),
            },
    {
        if self.pos > self.data.len() || n > self.data.len() - self.pos {
            return Err(ReadErr::Eof);
        }
        let ghost b = self.data@;
        let ghost p = self.pos as int;
        let mut v: u64 = 0;
        let mut k: usize = n;
        while k > 0
            invariant
                k <= n <= 8,
                self.pos + n <= self.data.len(),
                b == self.data@,
                p == self.pos,
                v as nat == le_value(b, p + k, (n - k) as nat),
                v < pow256((n - k) as nat),
            decreases k,
        {
            let byte = self.data[self.pos + k - 1];
            proof {
                lemma_pow256_step((n - k) as nat);
            }
            assert(v * 256 + byte < pow256((n - k + 1) as nat)) by (nonlinear_arith)
                requires
                    v < pow256((n - k) as nat),
                    byte < 256,
                    pow256((n - k + 1) as nat) == pow256((n - k) as nat) * 256,
            ;
            proof {
                lemma_pow256_bound((n - k + 1) as nat);
            }
            v = v * 256 + byte as u64;
            k -= 1;
        }
        self.pos = self.pos + n;
        Ok(v)
    }

    pub fn u8v(&mut self) -> (r: Result<u8, ReadErr>)
        ensures
            final(self).data == old(self).data,
            match read_le(old(self).data@, old(self).pos as int, 1) {
                Step::Done(v, q) => r == Ok::<u8, ReadErr>(v as u8) && final(self).pos == q,
                _ => r == Err::<u8, ReadErr>(ReadErr::Eof),
            },
    {
        proof {
            lemma_pow256_values();
        }
        let v = self.le(1)?;
        Ok(v as u8)
    }

    pub fn u16v(&mut self) -> (r: Result<u16, ReadErr>)
        ensures
            final(self).data == old(self).data,
            match read_le(old(self).data@, old(self).pos as int, 2) {
                Step::Done(v, q) => r == Ok::<u16, ReadErr>(v as u16) && final(self).pos == q,
                _ => r == Err::<u16, ReadErr>(ReadErr::Eof),
            },
    {
        proof {
            lemma_pow256_values();
        }
        let v = self.le(2)?;
        Ok(v as u16)
    }

    pub fn u32v(&mut self) -> (r: Result<u32, ReadErr>)
        ensures
            final(self).data == old(self).data,
            match read_le(old(self).data@, old(self).pos as int, 4) {
                Step::Done(v, q) => r == Ok::<u32, ReadErr>(v as u32) && final(self).pos == q && v
                    <= u32::MAX,
                _ => r == Err::<u32, ReadErr>(ReadErr::Eof),
            },
    {
        proof {
            lemma_pow256_values();
        }
        let v = self.le(4)?;
        Ok(v as u32)
    }

    pub fn u64v(&mut self) -> (r: Result<u64, ReadErr>)
        ensures
            final(self).data == old(self).data,
            match read_le(old(self).data@, old(self).pos as int, 8) {
                Step::Done(v, q) => r == Ok::<u64, ReadErr>(v as u64) && final(self).pos == q && v
                    <= u64::MAX,
                _ => r == Err::<u64, ReadErr>(ReadErr::Eof),
            },
    {
        proof {
            lemma_pow256_values();
        }
        self.le(8)
    }

    /// A length-prefixed UTF-8 string.
    pub fn string(&mut self) -> (r: Result<String, ReadErr>)
        ensures
            final(self).data == old(self).data,
            match read_string(old(self).data@, old(self).pos as int) {
                Step::Done(s, q) => r matches Ok(x) && x@ == s && final(self).pos == q,
                Step::Eof => r == Err::<String, ReadErr>(ReadErr::Eof),
                Step::Bad => r == Err::<String, ReadErr>(ReadErr::Invalid),
            },
    {
        let len = self.u64v()?;
        if len > 0x100000 {
            return Err(ReadErr::Invalid);
        }
        let b = self.bytes(len)?;
        match utf8_string(b) {
            Some(s) => Ok(s),
            None => Err(ReadErr::Invalid),
        }
    }

    /// Skip one value of the given GGUF metadata type (arrays included).
    pub fn skip_value(&mut self, ty: u32) -> (r: Result<(), ReadErr>)
        ensures
            final(self).data == old(self).data,
            match skip_value(old(self).data@, old(self).pos as int, ty) {
                Step::Done(_, q) => r is Ok && final(self).pos == q,
                Step::Eof => r == Err::<(), ReadErr>(ReadErr::Eof),
                Step::Bad => r == Err::<(), ReadErr>(ReadErr::Invalid),
            },
        decreases old(self).data@.len() - old(self).pos, 0nat,
    {
        let ghost b = self.data@;
        let ghost p0 = self.pos as int;
        if ty == 0 || ty == 1 || ty == 7 {
            self.u8v()?;
            Ok(())
        } else if ty == 2 || ty == 3 {
            self.u16v()?;
            Ok(())
        } else if ty == 4 || ty == 5 || ty == 6 {
            self.u32v()?;
            Ok(())
        } else if ty == 10 || ty == 11 || ty == 12 {
            self.u64v()?;
            Ok(())
        } else if ty == 8 {
            self.string()?;
            Ok(())
        } else if ty == 9 {
            let elem = self.u32v()?;
            let count = self.u64v()?;
            if count > 50_000_000 {
                return Err(ReadErr::Invalid);
            }
            let ghost start = self.pos as int;
            let mut i: u64 = 0;
            while i < count
                invariant
                    self.data@ == b,
                    self.data == old(self).data,
                    b == old(self).data@,
                    p0 == old(self).pos,
                    p0 + 12 == start,
                    start <= self.pos <= b.len(),
                    i <= count,
                    skip_value(b, p0, ty) == skip_many(b, self.pos as int, elem, (count - i) as nat),
                decreases count - i,
            {
                proof {
                    lemma_skip_value_advances(b, self.pos as int, elem);
                }
                self.skip_value(elem)?;
                i += 1;
            }
            Ok(())
        } else {
            Err(ReadErr::Invalid)
        }
    }
}

pub open spec fn pow256(n: nat) -> nat
    decreases n,
{
    if n == 0 {
        1
    } else {
        pow256((n - 1) as nat) * 256
    }
}

proof fn lemma_pow256_values()
    ensures
        pow256(1) == 0x100,
        pow256(2) == 0x1_0000,
        pow256(4) == 0x1_0000_0000,
        pow256(8) == 0x1_0000_0000_0000_0000,
{
    reveal_with_fuel(pow256, 9);
}

proof fn lemma_pow256_step(n: nat)
    ensures
        pow256(n + 1) == pow256(n) * 256,
{
}

proof fn lemma_pow256_bound(n: nat)
    requires
        n <= 8,
    ensures
        pow256(n) <= 0x1_0000_0000_0000_0000,
{
    reveal_with_fuel(pow256, 9);
}

/// Builds a `String` from bytes (`String::from_utf8`), which succeeds exactly
/// for valid UTF-8; the characters are the UTF-8 decoding of the bytes.
#[verifier::external_body]
fn utf8_string(b: Vec<u8>) -> (r: Option<String>)
    ensures
        r is Some <==> valid_utf8(b@),
        r matches Some(s) ==> s@ == decode_utf8(b@),
{
    String::from_utf8(b).ok()
}


// ------------------------------------------------------------ quant labels

/// llama.cpp `general.file_type` code → quantization label.
pub open spec fn quant_label(t: u64) -> Option<Seq<char>> {
    if t == 0 { Some("F32"@) }
    else if t == 1 { Some("F16"@) }
    else if t == 2 { Some("Q4_0"@) }
    else if t == 3 { Some("Q4_1"@) }
    else if t == 7 { Some("Q8_0"@) }
    else if t == 8 { Some("Q5_0"@) }
    else if t == 9 { Some("Q5_1"@) }
    else if t == 10 { Some("Q2_K"@) }
    else if t == 11 { Some("Q3_K_S"@) }
    else if t == 12 { Some("Q3_K_M"@) }
    else if t == 13 { Some("Q3_K_L"@) }
    else if t == 14 { Some("Q4_K_S"@) }
    else if t == 15 { Some("Q4_K_M"@) }
    else if t == 16 { Some("Q5_K_S"@) }
    else if t == 17 { Some("Q5_K_M"@) }
    else if t == 18 { Some("Q6_K"@) }
    else if t == 19 { Some("IQ2_XXS"@) }
    else if t == 20 { Some("IQ2_XS"@) }
    else if t == 21 { Some("Q2_K_S"@) }
    else if t == 22 { Some("IQ3_XS"@) }
    else if t == 23 { Some("IQ3_XXS"@) }
    else if t == 24 { Some("IQ1_S"@) }
    else if t == 25 { Some("IQ4_NL"@) }
    else if t == 26 { Some("IQ3_S"@) }
    else if t == 27 { Some("IQ3_M"@) }
    else if t == 28 { Some("IQ4_XS"@) }
    else if t == 29 { Some("IQ1_M"@) }
    else if t == 30 { Some("BF16"@) }
    else { None }
}

/// llama.cpp `general.file_type` → human readable quant label.
pub fn quant_from_file_type(t: u64) -> (r: Option<&'static str>)
    ensures
        match r {
            Some(s) => quant_label(t) == Some(s@),
            None => quant_label(t) is None,
        },
{
    if t == 0 { Some("F32") }
    else if t == 1 { Some("F16") }
    else if t == 2 { Some("Q4_0") }
    else if t == 3 { Some("Q4_1") }
    else if t == 7 { Some("Q8_0") }
    else if t == 8 { Some("Q5_0") }
    else if t == 9 { Some("Q5_1") }
    else if t == 10 { Some("Q2_K") }
    else if t == 11 { Some("Q3_K_S") }
    else if t == 12 { Some("Q3_K_M") }
    else if t == 13 { Some("Q3_K_L") }
    else if t == 14 { Some("Q4_K_S") }
    else if t == 15 { Some("Q4_K_M") }
    else if t == 16 { Some("Q5_K_S") }
    else if t == 17 { Some("Q5_K_M") }
    else if t == 18 { Some("Q6_K") }
    else if t == 19 { Some("IQ2_XXS") }
    else if t == 20 { Some("IQ2_XS") }
    else if t == 21 { Some("Q2_K_S") }
    else if t == 22 { Some("IQ3_XS") }
    else if t == 23 { Some("IQ3_XXS") }
    else if t == 24 { Some("IQ1_S") }
    else if t == 25 { Some("IQ4_NL") }
    else if t == 26 { Some("IQ3_S") }
    else if t == 27 { Some("IQ3_M") }
    else if t == 28 { Some("IQ4_XS") }
    else if t == 29 { Some("IQ1_M") }
    else if t == 30 { Some("BF16") }
    else { None }
}

fn quant_string(t: u64) -> (r: Option<String>)
    ensures
        opt_view(r) == quant_label(t),
{
    match quant_from_file_type(t) {
        Some(s) => Some(s.to_owned()),
        None => None,
    }
}

// ------------------------------------------------------- metadata section

/// `i8` read as a byte, sign-extended to 64 bits.
pub open spec fn sign_extend_i8(v: u8) -> u64 {
    if v < 128 {
        v as u64
    } else {
        (v as int + 0xFFFF_FFFF_FFFF_FF00) as u64
    }
}

/// The header fields before any key/value pair was read.
pub open spec fn initial_meta(version: u32) -> MetaModel {
    MetaModel {
        architecture: None,
        name: None,
        size_label: None,
        quant: None,
        context_length: None,
        block_count: None,
        embedding_length: None,
        head_count: None,
        file_version: Some(version),
    }
}

/// Effect of an integer-valued key: `general.file_type` sets the quant,
/// `<arch>.context_length` and friends set the size figures.
pub open spec fn note_int(m: MetaModel, key: Seq<char>, v: u64) -> MetaModel {
    if key == "general.file_type"@ {
        MetaModel { quant: quant_label(v), ..m }
    } else {
        match split_once(key, '.') {
            Some((_, rest)) => if rest == "context_length"@ {
                MetaModel { context_length: Some(v), ..m }
            } else if rest == "block_count"@ {
                MetaModel { block_count: Some(v), ..m }
            } else if rest == "embedding_length"@ {
                MetaModel { embedding_length: Some(v), ..m }
            } else if rest == "attention.head_count"@ {
                MetaModel { head_count: Some(v), ..m }
            } else {
                m
            },
            None => m,
        }
    }
}

/// Effect of a string-valued key.
pub open spec fn note_str(m: MetaModel, key: Seq<char>, v: Seq<char>) -> MetaModel {
    if key == "general.architecture"@ {
        MetaModel { architecture: Some(v), ..m }
    } else if key == "general.name"@ {
        MetaModel { name: Some(v), ..m }
    } else if key == "general.size_label"@ {
        MetaModel { size_label: Some(v), ..m }
    } else {
        m
    }
}

/// The value of one key/value pair, of type `ty`, read at `p`.
pub open spec fn kv_value(b: Seq<u8>, p: int, ty: u32, key: Seq<char>, m: MetaModel) -> Step<MetaModel> {
    if ty == 1 {
        match read_le(b, p, 1) {
            Step::Done(v, q) => if key == "general.file_type"@ {
                Step::Done(MetaModel { quant: quant_label(sign_extend_i8(v as u8)), ..m }, q)
            } else {
                Step::Done(m, q)
            },
            _ => Step::Eof,
        }
    } else if ty == 4 || ty == 6 {
        match read_le(b, p, 4) {
            Step::Done(v, q) => Step::Done(note_int(m, key, v as u64), q),
            _ => Step::Eof,
        }
    } else if ty == 10 || ty == 11 {
        match read_le(b, p, 8) {
            Step::Done(v, q) => Step::Done(note_int(m, key, v as u64), q),
            _ => Step::Eof,
        }
    } else if ty == 8 {
        match read_string(b, p) {
            Step::Done(v, q) => Step::Done(note_str(m, key, v), q),
            Step::Eof => Step::Eof,
            Step::Bad => Step::Bad,
        }
    } else if ty == 9 {
        match skip_value(b, p, 9) {
            Step::Done(_, q) => Step::Done(m, q),
            Step::Eof => Step::Eof,
            Step::Bad => Step::Bad,
        }
    } else if scalar_width(ty) > 0 {
        match read_le(b, p, scalar_width(ty)) {
            Step::Done(_, q) => Step::Done(m, q),
            _ => Step::Eof,
        }
    } else {
        Step::Bad
    }
}

/// One key/value pair: key string, `u32` type, value.
pub open spec fn read_kv(b: Seq<u8>, p: int, m: MetaModel) -> Step<MetaModel> {
    match read_string(b, p) {
        Step::Done(key, q) => match read_le(b, q, 4) {
            Step::Done(ty, r) => kv_value(b, r, ty as u32, key, m),
            _ => Step::Eof,
        },
        Step::Eof => Step::Eof,
        Step::Bad => Step::Bad,
    }
}

/// `n` key/value pairs from `p`.
pub open spec fn read_kvs(b: Seq<u8>, p: int, n: nat, m: MetaModel) -> Step<MetaModel>
    decreases n,
{
    if n == 0 {
        Step::Done(m, p)
    } else {
        match read_kv(b, p, m) {
            Step::Done(m2, q) => read_kvs(b, q, (n - 1) as nat, m2),
            Step::Eof => Step::Eof,
            Step::Bad => Step::Bad,
        }
    }
}

/// The GGUF header: magic, version 1 to 3, tensor count, at most 100 000
/// key/value pairs.
pub open spec fn header(b: Seq<u8>) -> Step<MetaModel> {
    match read_le(b, 0, 4) {
        Step::Done(magic, _) => if magic != MAGIC as nat {
            Step::Bad
        } else {
            match read_le(b, 4, 4) {
                Step::Done(version, _) => if version < 1 || version > 3 {
                    Step::Bad
                } else {
                    match read_le(b, 8, 8) {
                        Step::Done(_, _) => match read_le(b, 16, 8) {
                            Step::Done(kv, _) => if kv > 100_000 {
                                Step::Bad
                            } else {
                                read_kvs(b, 24, kv, initial_meta(version as u32))
                            },
                            _ => Step::Eof,
                        },
                        _ => Step::Eof,
                    }
                },
                _ => Step::Eof,
            }
        },
        _ => Step::Eof,
    }
}

/// What the header read from `b` gives.
pub enum HeaderParse {
    /// The header was read in full.
    Parsed(GgufMeta),
    /// The bytes ended inside the header.
    Truncated,
    /// Not a GGUF file, or a malformed header.
    Invalid,
}

fn failed(e: ReadErr) -> (r: HeaderParse)
    ensures
        e == ReadErr::Eof ==> r is Truncated,
        e == ReadErr::Invalid ==> r is Invalid,
{
    match e {
        ReadErr::Eof => HeaderParse::Truncated,
        ReadErr::Invalid => HeaderParse::Invalid,
    }
}

fn lit_eq(s: &[char], lit: &str) -> (r: bool)
    ensures
        r == (s@ == lit@),
{
    let l = chars_of(lit);
    seq_eq(s, l.as_slice())
}

fn set_int(meta: &mut GgufMeta, key: &[char], v: u64)
    ensures
        final(meta)@ == note_int(old(meta)@, key@, v),
{
    if lit_eq(key, "general.file_type") {
        meta.quant = quant_string(v);
        return;
    }
    match split_once_char(key, '.') {
        Some((_, rest)) => {
            if lit_eq(rest.as_slice(), "context_length") {
                meta.context_length = Some(v);
            } else if lit_eq(rest.as_slice(), "block_count") {
                meta.block_count = Some(v);
            } else if lit_eq(rest.as_slice(), "embedding_length") {
                meta.embedding_length = Some(v);
            } else if lit_eq(rest.as_slice(), "attention.head_count") {
                meta.head_count = Some(v);
            }
        },
        None => {},
    }
}

fn set_str(meta: &mut GgufMeta, key: &[char], v: String)
    ensures
        final(meta)@ == note_str(old(meta)@, key@, v@),
{
    if lit_eq(key, "general.architecture") {
        meta.architecture = Some(v);
    } else if lit_eq(key, "general.name") {
        meta.name = Some(v);
    } else if lit_eq(key, "general.size_label") {
        meta.size_label = Some(v);
    }
}

fn read_kv_exec(rd: &mut Reader, meta: &mut GgufMeta) -> (r: Result<(), ReadErr>)
    ensures
        final(rd).data == old(rd).data,
        match read_kv(old(rd).data@, old(rd).pos as int, old(meta)@) {
            Step::Done(m, q) => r is Ok && final(meta)@ == m && final(rd).pos == q,
            Step::Eof => r == Err::<(), ReadErr>(ReadErr::Eof),
            Step::Bad => r == Err::<(), ReadErr>(ReadErr::Invalid),
        },
{
    let key_s = rd.string()?;
    let key = chars_of(key_s.as_str());
    let ty = rd.u32v()?;
    if ty == 1 {
        let v = rd.u8v()?;
        if lit_eq(key.as_slice(), "general.file_type") {
            let x: u64 = if v < 128 {
                v as u64
            } else {
                v as u64 + 0xFFFF_FFFF_FFFF_FF00
            };
            meta.quant = quant_string(x);
        }
        Ok(())
    } else if ty == 4 || ty == 6 {
        let v = rd.u32v()?;
        set_int(meta, key.as_slice(), v as u64);
        Ok(())
    } else if ty == 10 || ty == 11 {
        let v = rd.u64v()?;
        set_int(meta, key.as_slice(), v);
        Ok(())
    } else if ty == 8 {
        let v = rd.string()?;
        set_str(meta, key.as_slice(), v);
        Ok(())
    } else if ty == 9 {
        rd.skip_value(9)
    } else if ty == 0 || ty == 7 {
        rd.u8v()?;
        Ok(())
    } else if ty == 2 || ty == 3 {
        rd.u16v()?;
        Ok(())
    } else if ty == 5 {
        rd.u32v()?;
        Ok(())
    } else if ty == 12 {
        rd.u64v()?;
        Ok(())
    } else {
        Err(ReadErr::Invalid)
    }
}

/// Reads the GGUF header at the start of `data`. Run on a prefix of a file,
/// `Truncated` means the header continues past the prefix.
pub fn read_header(data: &[u8]) -> (r: HeaderParse)
    ensures
        match header(data@) {
            Step::Done(m, _) => r matches HeaderParse::Parsed(x) && x@ == m,
            Step::Eof => r is Truncated,
            Step::Bad => r is Invalid,
        },
{
    let mut rd = Reader::new(data);
    let magic = match rd.u32v() {
        Ok(v) => v,
        Err(e) => return failed(e),
    };
    if magic != MAGIC {
        return HeaderParse::Invalid;
    }
    let version = match rd.u32v() {
        Ok(v) => v,
        Err(e) => return failed(e),
    };
    if version < 1 || version > 3 {
        return HeaderParse::Invalid;
    }
    match rd.u64v() {
        Ok(_) => {},
        Err(e) => return failed(e),
    }
    let kv_count = match rd.u64v() {
        Ok(v) => v,
        Err(e) => return failed(e),
    };
    if kv_count > 100_000 {
        return HeaderParse::Invalid;
    }
    let mut meta = GgufMeta {
        architecture: None,
        name: None,
        size_label: None,
        quant: None,
        context_length: None,
        block_count: None,
        embedding_length: None,
        head_count: None,
        file_version: Some(version),
    };
    let ghost b = data@;
    let mut i: u64 = 0;
    while i < kv_count
        invariant
            rd.data@ == b,
            b == data@,
            i <= kv_count,
            header(b) == read_kvs(b, rd.pos as int, (kv_count - i) as nat, meta@),
        decreases kv_count - i,
    {
        match read_kv_exec(&mut rd, &mut meta) {
            Ok(()) => {},
            Err(e) => return failed(e),
        }
        i += 1;
    }
    HeaderParse::Parsed(meta)
}


// ------------------------------------------------ quant label in file names

/// Removes `pat` from the end of `s` as often as it occurs there
/// (`str::trim_end_matches` with a string pattern).
pub open spec fn trim_suffix_all(s: Seq<char>, pat: Seq<char>) -> Seq<char>
    decreases s.len(),
{
    if pat.len() > 0 && ends_with(s, pat) {
        trim_suffix_all(s.subrange(0, s.len() - pat.len()), pat)
    } else {
        s
    }
}

pub fn trim_suffix_all_exec(s: &[char], pat: &[char]) -> (r: Vec<char>)
    ensures
        r@ == trim_suffix_all(s@, pat@),
{
    let mut cur = slice_vec(s, 0, s.len());
    assert(s@.subrange(0, s.len() as int) =~= s@);
    while pat.len() > 0 && has_suffix(cur.as_slice(), pat)
        invariant
            trim_suffix_all(s@, pat@) == trim_suffix_all(cur@, pat@),
        decreases cur.len(),
    {
        let n = cur.len() - pat.len();
        cur = slice_vec(cur.as_slice(), 0, n);
    }
    cur
}

/// A character equal to the pattern character `l` under case-insensitive
/// matching (`l` is an ASCII lower-case letter or a digit).
pub open spec fn folds_to(c: char, l: char) -> bool {
    if 'a' <= l && l <= 'z' {
        c == l || c as u32 == (l as u32) - 32
    } else {
        c == l
    }
}

fn folds_to_exec(c: char, l: char) -> (r: bool)
    ensures
        r == folds_to(c, l),
{
    if 'a' <= l && l <= 'z' {
        c == l || c as u32 == (l as u32) - 32
    } else {
        c == l
    }
}

/// `s[i..]` starts with `lit` under case-insensitive matching.
pub open spec fn folded_at(s: Seq<char>, i: int, lit: Seq<char>) -> bool {
    0 <= i && i + lit.len() <= s.len() && forall|k: int|
        0 <= k < lit.len() ==> folds_to(#[trigger] s[i + k], lit[k])
}

fn folded_at_exec(s: &[char], i: usize, lit: &str) -> (r: bool)
    ensures
        r == folded_at(s@, i as int, lit@),
{
    let l = chars_of(lit);
    if i > s.len() || l.len() > s.len() - i {
        return false;
    }
    let mut k: usize = 0;
    while k < l.len()
        invariant
            i + l.len() <= s.len(),
            l@ == lit@,
            k <= l.len(),
            forall|j: int| 0 <= j < k ==> folds_to(#[trigger] s@[i + j], l@[j]),
        decreases l.len() - k,
    {
        if !folds_to_exec(s[i + k], l[k]) {
            return false;
        }
        k += 1;
    }
    true
}

/// The class `[a-z0-9]` under case-insensitive matching: ASCII letters and
/// digits, and U+017F / U+212A, which fold to `s` / `k`.
pub open spec fn is_word_char(c: char) -> bool {
    ('a' <= c && c <= 'z') || ('A' <= c && c <= 'Z') || ('0' <= c && c <= '9') || c as u32
        == 0x17F || c as u32 == 0x212A
}

fn is_word_char_exec(c: char) -> (r: bool)
    ensures
        r == is_word_char(c),
{
    ('a' <= c && c <= 'z') || ('A' <= c && c <= 'Z') || ('0' <= c && c <= '9') || c as u32
        == 0x17F || c as u32 == 0x212A
}

/// End of the run of ASCII digits starting at `i`.
pub open spec fn digits_end(s: Seq<char>, i: int) -> int
    decreases s.len() - i,
{
    if 0 <= i < s.len() && is_digit(s[i]) {
        digits_end(s, i + 1)
    } else {
        i
    }
}

/// End of the run of `[a-z0-9]` characters starting at `i`.
pub open spec fn word_end(s: Seq<char>, i: int) -> int
    decreases s.len() - i,
{
    if 0 <= i < s.len() && is_word_char(s[i]) {
        word_end(s, i + 1)
    } else {
        i
    }
}

proof fn lemma_word_end(s: Seq<char>, i: int)
    ensures
        word_end(s, i) >= i,
        0 <= i < s.len() && is_word_char(s[i]) ==> word_end(s, i) > i,
        0 <= i ==> word_end(s, i) <= s.len() || word_end(s, i) == i,
    decreases s.len() - i,
{
    if 0 <= i < s.len() && is_word_char(s[i]) {
        lemma_word_end(s, i + 1);
    }
}

proof fn lemma_digits_end(s: Seq<char>, i: int)
    ensures
        digits_end(s, i) >= i,
        0 <= i <= s.len() ==> digits_end(s, i) <= s.len(),
    decreases s.len() - i,
{
    if 0 <= i < s.len() && is_digit(s[i]) {
        lemma_digits_end(s, i + 1);
    }
}

/// End of the repetition `(?:_[a-z0-9]+)*` starting at `i`, taken greedily.
pub open spec fn groups_end(s: Seq<char>, i: int) -> int
    decreases s.len() - i
    via groups_end_decreases
{
    if 0 <= i && i + 1 < s.len() && s[i] == '_' && is_word_char(s[i + 1]) {
        groups_end(s, word_end(s, i + 1))
    } else {
        i
    }
}

#[via_fn]
proof fn groups_end_decreases(s: Seq<char>, i: int) {
    if 0 <= i && i + 1 < s.len() && s[i] == '_' && is_word_char(s[i + 1]) {
        lemma_word_end(s, i + 1);
        lemma_word_end(s, i + 2);
    }
}

proof fn lemma_groups_end(s: Seq<char>, i: int)
    requires
        0 <= i <= s.len(),
    ensures
        i <= groups_end(s, i) <= s.len(),
    decreases s.len() - i,
{
    if 0 <= i && i + 1 < s.len() && s[i] == '_' && is_word_char(s[i + 1]) {
        lemma_word_end(s, i + 1);
        lemma_word_end(s, i + 2);
        lemma_word_end_le(s, i + 1);
        lemma_groups_end(s, word_end(s, i + 1));
    }
}

proof fn lemma_word_end_le(s: Seq<char>, i: int)
    requires
        0 <= i <= s.len(),
    ensures
        word_end(s, i) <= s.len(),
    decreases s.len() - i,
{
    if 0 <= i < s.len() && is_word_char(s[i]) {
        lemma_word_end_le(s, i + 1);
    }
}

/// Length of the match of
/// `(?i)(iq[0-9]+(?:_[a-z0-9]+)*|q[0-9]+(?:_[a-z0-9]+)*|bf16|fp16|f16|fp32|f32)`
/// starting at `i` under leftmost-first semantics, or 0 when none starts there.
pub open spec fn quant_match_len(s: Seq<char>, i: int) -> int {
    if folded_at(s, i, "iq"@) && i + 2 < s.len() && is_digit(s[i + 2]) {
        groups_end(s, digits_end(s, i + 2)) - i
    } else if folded_at(s, i, "q"@) && i + 1 < s.len() && is_digit(s[i + 1]) {
        groups_end(s, digits_end(s, i + 1)) - i
    } else if folded_at(s, i, "bf16"@) || folded_at(s, i, "fp16"@) || folded_at(s, i, "fp32"@) {
        4
    } else if folded_at(s, i, "f16"@) || folded_at(s, i, "f32"@) {
        3
    } else {
        0
    }
}

/// The non-overlapping matches from `pos` onwards, left to right, as
/// `(start, end)` character positions (`Regex::find_iter`).
pub open spec fn quant_spans(s: Seq<char>, pos: int) -> Seq<(int, int)>
    decreases s.len() - pos
    via quant_spans_decreases
{
    if pos < 0 || pos >= s.len() {
        Seq::empty()
    } else {
        let n = quant_match_len(s, pos);
        if n > 0 {
            seq![(pos, pos + n)].add(quant_spans(s, pos + n))
        } else {
            quant_spans(s, pos + 1)
        }
    }
}

#[via_fn]
proof fn quant_spans_decreases(s: Seq<char>, pos: int) {
    if 0 <= pos < s.len() {
        lemma_quant_match_len(s, pos);
    }
}

proof fn lemma_quant_match_len(s: Seq<char>, i: int)
    requires
        0 <= i < s.len(),
    ensures
        0 <= quant_match_len(s, i) <= s.len() - i,
{
    reveal_strlit("bf16");
    reveal_strlit("fp16");
    reveal_strlit("fp32");
    reveal_strlit("f16");
    reveal_strlit("f32");
    if folded_at(s, i, "iq"@) && i + 2 < s.len() && is_digit(s[i + 2]) {
        lemma_digits_end(s, i + 2);
        lemma_groups_end(s, digits_end(s, i + 2));
    } else if folded_at(s, i, "q"@) && i + 1 < s.len() && is_digit(s[i + 1]) {
        lemma_digits_end(s, i + 1);
        lemma_groups_end(s, digits_end(s, i + 1));
    }
}

/// UTF-8 width of a character.
pub open spec fn char_width(c: char) -> nat {
    let u = c as u32;
    if u < 0x80 {
        1
    } else if u < 0x800 {
        2
    } else if u < 0x10000 {
        3
    } else {
        4
    }
}

/// UTF-8 length in bytes (`str::len`).
pub open spec fn byte_len(s: Seq<char>) -> nat
    decreases s.len(),
{
    if s.len() == 0 {
        0
    } else {
        byte_len(s.drop_last()) + char_width(s.last())
    }
}

fn byte_len_exec(s: &[char]) -> (r: u128)
    ensures
        r == byte_len(s@),
{
    let mut n: u128 = 0;
    let mut i: usize = 0;
    while i < s.len()
        invariant
            i <= s.len(),
            n == byte_len(s@.take(i as int)),
            n <= 4 * i,
        decreases s.len() - i,
    {
        assert(s@.take(i + 1).drop_last() =~= s@.take(i as int));
        let u = s[i] as u32;
        let w: u128 = if u < 0x80 {
            1
        } else if u < 0x800 {
            2
        } else if u < 0x10000 {
            3
        } else {
            4
        };
        n = n + w;
        i += 1;
    }
    assert(s@.take(s.len() as int) =~= s@);
    n
}

/// The longest match, the later one among equally long ones.
pub open spec fn longest(ms: Seq<Seq<char>>) -> Option<Seq<char>>
    decreases ms.len(),
{
    if ms.len() == 0 {
        None
    } else {
        let m = ms.last();
        match longest(ms.drop_last()) {
            Some(b) => if byte_len(m) >= byte_len(b) {
                Some(m)
            } else {
                Some(b)
            },
            None => Some(m),
        }
    }
}

pub open spec fn span_texts(s: Seq<char>, spans: Seq<(int, int)>) -> Seq<Seq<char>> {
    Seq::new(spans.len(), |k: int| s.subrange(spans[k].0, spans[k].1))
}

/// The name with `.gguf`, then `.GGUF`, trimmed off its end.
pub open spec fn file_stem_of(name: Seq<char>) -> Seq<char> {
    trim_suffix_all(trim_suffix_all(name, ".gguf"@), ".GGUF"@)
}

/// The quantization label `quant_from_filename` finds in `name`, before
/// upper-casing.
pub open spec fn quant_in_name(name: Seq<char>) -> Option<Seq<char>> {
    let stem = file_stem_of(name);
    longest(span_texts(stem, quant_spans(stem, 0)))
}

fn digits_end_exec(s: &[char], i: usize) -> (r: usize)
    requires
        i <= s.len(),
    ensures
        r == digits_end(s@, i as int),
        i <= r <= s.len(),
{
    let mut j = i;
    while j < s.len() && '0' <= s[j] && s[j] <= '9'
        invariant
            i <= j <= s.len(),
            digits_end(s@, i as int) == digits_end(s@, j as int),
        decreases s.len() - j,
    {
        j += 1;
    }
    j
}

fn word_end_exec(s: &[char], i: usize) -> (r: usize)
    requires
        i <= s.len(),
    ensures
        r == word_end(s@, i as int),
        i <= r <= s.len(),
{
    let mut j = i;
    while j < s.len() && is_word_char_exec(s[j])
        invariant
            i <= j <= s.len(),
            word_end(s@, i as int) == word_end(s@, j as int),
        decreases s.len() - j,
    {
        j += 1;
    }
    j
}

fn groups_end_exec(s: &[char], i: usize) -> (r: usize)
    requires
        i <= s.len(),
    ensures
        r == groups_end(s@, i as int),
        i <= r <= s.len(),
{
    let mut j = i;
    while j < s.len() && s[j] == '_' && j + 1 < s.len() && is_word_char_exec(s[j + 1])
        invariant
            i <= j <= s.len(),
            groups_end(s@, i as int) == groups_end(s@, j as int),
        decreases s.len() - j,
    {
        proof {
            lemma_word_end(s@, j + 1);
            lemma_word_end(s@, j + 2);
        }
        j = word_end_exec(s, j + 1);
    }
    j
}

fn quant_match_len_exec(s: &[char], i: usize) -> (r: usize)
    requires
        i < s.len(),
    ensures
        r == quant_match_len(s@, i as int),
        i + r <= s.len(),
{
    proof {
        reveal_strlit("bf16");
        reveal_strlit("fp16");
        reveal_strlit("fp32");
        reveal_strlit("f16");
        reveal_strlit("f32");
    }
    if folded_at_exec(s, i, "iq") && i + 1 < s.len() && i + 2 < s.len() && '0' <= s[i + 2] && s[i + 2] <= '9' {
        let d = digits_end_exec(s, i + 2);
        groups_end_exec(s, d) - i
    } else if folded_at_exec(s, i, "q") && i + 1 < s.len() && '0' <= s[i + 1] && s[i + 1] <= '9' {
        let d = digits_end_exec(s, i + 1);
        groups_end_exec(s, d) - i
    } else if folded_at_exec(s, i, "bf16") || folded_at_exec(s, i, "fp16") || folded_at_exec(
        s,
        i,
        "fp32",
    ) {
        4
    } else if folded_at_exec(s, i, "f16") || folded_at_exec(s, i, "f32") {
        3
    } else {
        0
    }
}

/// Guess quantization from a file name like `Model-7B-Q4_K_M.gguf`: the
/// longest match of the quant pattern in the name (the later one on ties),
/// upper-cased.
pub fn quant_from_filename(name: &str) -> (r: Option<String>)
    ensures
        match quant_in_name(name@) {
            Some(q) => r matches Some(x) && x@ == upper_text(q),
            None => r is None,
        },
{
    let n = chars_of(name);
    let g1 = chars_of(".gguf");
    let g2 = chars_of(".GGUF");
    let t1 = trim_suffix_all_exec(n.as_slice(), g1.as_slice());
    let stem = trim_suffix_all_exec(t1.as_slice(), g2.as_slice());
    let ghost st = stem@;
    let mut best: Option<Vec<char>> = None;
    let mut best_len: u128 = 0;
    let ghost mut seen: Seq<(int, int)> = Seq::empty();
    let mut pos: usize = 0;
    while pos < stem.len()
        invariant
            st == stem@,
            st == file_stem_of(name@),
            pos <= stem.len(),
            quant_spans(st, 0) == seen + quant_spans(st, pos as int),
            match longest(span_texts(st, seen)) {
                Some(b) => best matches Some(x) && x@ == b && best_len == byte_len(b),
                None => best is None,
            },
        decreases stem.len() - pos,
    {
        let len = quant_match_len_exec(stem.as_slice(), pos);
        if len > 0 {
            let m = slice_vec(stem.as_slice(), pos, pos + len);
            let ml = byte_len_exec(m.as_slice());
            let ghost old_seen = seen;
            proof {
                seen = seen.push((pos as int, pos + len));
                assert(quant_spans(st, pos as int) == seq![(pos as int, pos + len)].add(
                    quant_spans(st, pos + len),
                ));
                assert(old_seen + quant_spans(st, pos as int) =~= seen + quant_spans(
                    st,
                    pos + len,
                ));
                assert(span_texts(st, seen).drop_last() =~= span_texts(st, old_seen));
                assert(span_texts(st, seen).last() == m@);
            }
            let take = match &best {
                None => true,
                Some(_) => ml >= best_len,
            };
            if take {
                best = Some(m);
                best_len = ml;
            }
            pos = pos + len;
        } else {
            pos = pos + 1;
        }
    }
    assert(quant_spans(st, pos as int) =~= Seq::<(int, int)>::empty());
    assert(seen + Seq::<(int, int)>::empty() =~= seen);
    match best {
        Some(b) => {
            let s = string_from(b.as_slice());
            Some(to_uppercase(s.as_str()))
        },
        None => None,
    }
}

// ------------------------------------------------------------ quant ranking

/// The preference list behind `quant_rank` (best first).
pub open spec fn rank_entry(i: int) -> Seq<char> {
    if i == 0 { "F32"@ }
    else if i == 1 { "BF16"@ }
    else if i == 2 { "F16"@ }
    else if i == 3 { "Q8_0"@ }
    else if i == 4 { "Q6_K"@ }
    else if i == 5 { "Q5_K_M"@ }
    else if i == 6 { "Q5_K_S"@ }
    else if i == 7 { "Q5_0"@ }
    else if i == 8 { "Q5_1"@ }
    else if i == 9 { "Q4_K_M"@ }
    else if i == 10 { "Q4_K_S"@ }
    else if i == 11 { "IQ4_XS"@ }
    else if i == 12 { "IQ4_NL"@ }
    else if i == 13 { "Q4_0"@ }
    else if i == 14 { "Q4_1"@ }
    else if i == 15 { "Q3_K_L"@ }
    else if i == 16 { "Q3_K_M"@ }
    else if i == 17 { "Q3_K_S"@ }
    else if i == 18 { "IQ3_M"@ }
    else if i == 19 { "IQ3_S"@ }
    else if i == 20 { "IQ3_XS"@ }
    else if i == 21 { "IQ3_XXS"@ }
    else if i == 22 { "Q2_K"@ }
    else if i == 23 { "Q2_K_S"@ }
    else if i == 24 { "IQ2"@ }
    else { "IQ1"@ }
}

fn rank_entry_exec(i: usize) -> (r: &'static str)
    requires
        i < 26,
    ensures
        r@ == rank_entry(i as int),
{
    if i == 0 { "F32" }
    else if i == 1 { "BF16" }
    else if i == 2 { "F16" }
    else if i == 3 { "Q8_0" }
    else if i == 4 { "Q6_K" }
    else if i == 5 { "Q5_K_M" }
    else if i == 6 { "Q5_K_S" }
    else if i == 7 { "Q5_0" }
    else if i == 8 { "Q5_1" }
    else if i == 9 { "Q4_K_M" }
    else if i == 10 { "Q4_K_S" }
    else if i == 11 { "IQ4_XS" }
    else if i == 12 { "IQ4_NL" }
    else if i == 13 { "Q4_0" }
    else if i == 14 { "Q4_1" }
    else if i == 15 { "Q3_K_L" }
    else if i == 16 { "Q3_K_M" }
    else if i == 17 { "Q3_K_S" }
    else if i == 18 { "IQ3_M" }
    else if i == 19 { "IQ3_S" }
    else if i == 20 { "IQ3_XS" }
    else if i == 21 { "IQ3_XXS" }
    else if i == 22 { "Q2_K" }
    else if i == 23 { "Q2_K_S" }
    else if i == 24 { "IQ2" }
    else { "IQ1" }
}

/// Rank of the first list entry at or after `i` that `up` starts with.
pub open spec fn rank_from(up: Seq<char>, i: int) -> u32
    decreases 26 - i,
{
    if i >= 26 || i < 0 {
        500
    } else if starts_with(up, rank_entry(i)) {
        i as u32
    } else {
        rank_from(up, i + 1)
    }
}

/// Rank of an upper-cased label: position of the first preference-list
/// entry it starts with, 500 when none.
pub open spec fn rank_of_upper(up: Seq<char>) -> u32 {
    rank_from(up, 0)
}

/// Rank quantization labels by practical quality preference (lower = better
/// starting point for a "recommended" pick).
pub fn quant_rank(q: &str) -> (r: u32)
    ensures
        r == rank_of_upper(upper_text(q@)),
{
    let up_s = to_uppercase(q);
    let up = chars_of(up_s.as_str());
    let mut i: usize = 0;
    while i < 26
        invariant
            i <= 26,
            up@ == upper_text(q@),
            rank_of_upper(up@) == rank_from(up@, i as int),
        decreases 26 - i,
    {
        let k = chars_of(rank_entry_exec(i));
        if has_prefix(up.as_slice(), k.as_slice()) {
            return i as u32;
        }
        i += 1;
    }
    500
}


// ---------------------------------------------------------- whole header

/// The header fields, with the quant taken from the file name when the
/// header names none.
pub open spec fn with_name_quant(m: MetaModel, file_name: Option<Seq<char>>) -> MetaModel {
    if m.quant is None && file_name is Some {
        MetaModel {
            quant: match quant_in_name(file_name->0) {
                Some(q) => Some(upper_text(q)),
                None => None,
            },
            ..m
        }
    } else {
        m
    }
}

pub open spec fn opt_str_view(o: Option<&str>) -> Option<Seq<char>> {
    match o {
        Some(s) => Some(s@),
        None => None,
    }
}

/// Parse the GGUF header at the start of `data` (the first bytes of a file
/// named `file_name`). When the header names no quantization, it is guessed
/// from the file name.
pub fn read_meta(data: &[u8], file_name: Option<&str>) -> (r: HeaderParse)
    ensures
        match header(data@) {
            Step::Done(m, _) => r matches HeaderParse::Parsed(x) && x@ == with_name_quant(
                m,
                opt_str_view(file_name),
            ),
            Step::Eof => r is Truncated,
            Step::Bad => r is Invalid,
        },
{
    match read_header(data) {
        HeaderParse::Parsed(mut meta) => {
            if meta.quant.is_none() {
                if let Some(name) = file_name {
                    meta.quant = quant_from_filename(name);
                }
            }
            HeaderParse::Parsed(meta)
        },
        other => other,
    }
}

// -------------------------------------------------------- prefix stability

proof fn lemma_le_value_prefix(b: Seq<u8>, e: Seq<u8>, p: int, n: nat)
    requires
        0 <= p,
        p + n <= b.len(),
    ensures
        le_value(b + e, p, n) == le_value(b, p, n),
    decreases n,
{
    if n > 0 {
        lemma_le_value_prefix(b, e, p + 1, (n - 1) as nat);
        assert((b + e)[p] == b[p]);
    }
}

proof fn lemma_read_le_prefix(b: Seq<u8>, e: Seq<u8>, p: int, n: nat)
    ensures
        read_le(b, p, n) is Done ==> read_le(b + e, p, n) == read_le(b, p, n),
{
    if read_le(b, p, n) is Done {
        lemma_le_value_prefix(b, e, p, n);
    }
}

proof fn lemma_read_string_prefix(b: Seq<u8>, e: Seq<u8>, p: int)
    ensures
        !(read_string(b, p) is Eof) ==> read_string(b + e, p) == read_string(b, p),
{
    lemma_read_le_prefix(b, e, p, 8);
    if let Step::Done(len, q) = read_le(b, p, 8) {
        if len <= 0x100000 && read_bytes(b, q, len) is Done {
            assert((b + e).subrange(q, q + len) =~= b.subrange(q, q + len));
        }
    }
}

proof fn lemma_skip_value_prefix(b: Seq<u8>, e: Seq<u8>, p: int, ty: u32)
    ensures
        !(skip_value(b, p, ty) is Eof) ==> skip_value(b + e, p, ty) == skip_value(b, p, ty),
    decreases b.len() - p, 0nat,
{
    lemma_read_le_prefix(b, e, p, scalar_width(ty));
    lemma_read_string_prefix(b, e, p);
    lemma_read_le_prefix(b, e, p, 4);
    if scalar_width(ty) == 0 && ty == 9 {
        if let Step::Done(elem, q) = read_le(b, p, 4) {
            lemma_read_le_prefix(b, e, q, 8);
            if let Step::Done(count, r) = read_le(b, q, 8) {
                if count <= 50_000_000 {
                    lemma_skip_many_prefix(b, e, r, elem as u32, count);
                }
            }
        }
    }
}

proof fn lemma_skip_many_prefix(b: Seq<u8>, e: Seq<u8>, p: int, elem: u32, count: nat)
    requires
        0 <= p <= b.len(),
    ensures
        !(skip_many(b, p, elem, count) is Eof) ==> skip_many(b + e, p, elem, count) == skip_many(
            b,
            p,
            elem,
            count,
        ),
    decreases b.len() - p, 1nat, count,
{
    if count > 0 {
        lemma_skip_value_prefix(b, e, p, elem);
        lemma_skip_value_advances(b, p, elem);
        lemma_skip_value_advances(b + e, p, elem);
        if let Step::Done(_, q) = skip_value(b, p, elem) {
            lemma_skip_many_prefix(b, e, q, elem, (count - 1) as nat);
        }
    }
}

proof fn lemma_kv_value_prefix(b: Seq<u8>, e: Seq<u8>, p: int, ty: u32, key: Seq<char>, m: MetaModel)
    ensures
        !(kv_value(b, p, ty, key, m) is Eof) ==> kv_value(b + e, p, ty, key, m) == kv_value(
            b,
            p,
            ty,
            key,
            m,
        ),
{
    lemma_read_le_prefix(b, e, p, 1);
    lemma_read_le_prefix(b, e, p, 4);
    lemma_read_le_prefix(b, e, p, 8);
    lemma_read_le_prefix(b, e, p, scalar_width(ty));
    lemma_read_string_prefix(b, e, p);
    lemma_skip_value_prefix(b, e, p, 9);
}

proof fn lemma_read_kv_prefix(b: Seq<u8>, e: Seq<u8>, p: int, m: MetaModel)
    ensures
        !(read_kv(b, p, m) is Eof) ==> read_kv(b + e, p, m) == read_kv(b, p, m),
{
    lemma_read_string_prefix(b, e, p);
    if let Step::Done(key, q) = read_string(b, p) {
        lemma_read_le_prefix(b, e, q, 4);
        if let Step::Done(ty, r) = read_le(b, q, 4) {
            lemma_kv_value_prefix(b, e, r, ty as u32, key, m);
        }
    }
}

proof fn lemma_read_kvs_prefix(b: Seq<u8>, e: Seq<u8>, p: int, n: nat, m: MetaModel)
    ensures
        !(read_kvs(b, p, n, m) is Eof) ==> read_kvs(b + e, p, n, m) == read_kvs(b, p, n, m),
    decreases n,
{
    if n > 0 {
        lemma_read_kv_prefix(b, e, p, m);
        if let Step::Done(m2, q) = read_kv(b, p, m) {
            lemma_read_kvs_prefix(b, e, q, (n - 1) as nat, m2);
        }
    }
}

/// A header that reads in full, or is rejected, from the first bytes of a
/// file reads the same way from any longer run of the file's bytes: only
/// running out of bytes can change with more data.
pub proof fn lemma_header_prefix_stable(b: Seq<u8>, extra: Seq<u8>)
    requires
        !(header(b) is Eof),
    ensures
        header(b + extra) == header(b),
{
    lemma_read_le_prefix(b, extra, 0, 4);
    lemma_read_le_prefix(b, extra, 4, 4);
    lemma_read_le_prefix(b, extra, 8, 8);
    lemma_read_le_prefix(b, extra, 16, 8);
    if let Step::Done(version, _) = read_le(b, 4, 4) {
        if let Step::Done(kv, _) = read_le(b, 16, 8) {
            lemma_read_kvs_prefix(b, extra, 24, kv, initial_meta(version as u32));
        }
    }
}


// ---------------------------------------------------------------- summary

/// The character sequences of a list of string pairs.
pub open spec fn pair_views(v: Seq<(String, String)>) -> Seq<(Seq<char>, Seq<char>)> {
    Seq::new(v.len(), |i: int| (v[i].0@, v[i].1@))
}

pub open spec fn text_entry(key: Seq<char>, v: Option<Seq<char>>) -> Seq<(Seq<char>, Seq<char>)> {
    match v {
        Some(x) => seq![(key, x)],
        None => Seq::empty(),
    }
}

pub open spec fn number_entry(key: Seq<char>, v: Option<u64>) -> Seq<(Seq<char>, Seq<char>)> {
    match v {
        Some(x) => seq![(key, decimal(x as nat))],
        None => Seq::empty(),
    }
}

/// The display entries of a header, in this order; absent fields are left out.
pub open spec fn summary_entries(m: MetaModel) -> Seq<(Seq<char>, Seq<char>)> {
    text_entry("architecture"@, m.architecture) + text_entry("name"@, m.name) + text_entry(
        "sizeLabel"@,
        m.size_label,
    ) + number_entry("contextLength"@, m.context_length) + number_entry("blocks"@, m.block_count)
        + number_entry("embedding"@, m.embedding_length) + text_entry("quant"@, m.quant)
}

fn push_text(out: &mut Vec<(String, String)>, key: &str, v: &Option<String>)
    ensures
        pair_views(final(out)@) == pair_views(old(out)@) + text_entry(key@, opt_view(*v)),
{
    let ghost before = pair_views(out@);
    match v {
        Some(x) => {
            out.push((key.to_owned(), x.clone()));
            assert(pair_views(out@) =~= before + text_entry(key@, opt_view(*v)));
        },
        None => {
            assert(before + text_entry(key@, opt_view(*v)) =~= before);
        },
    }
}

fn push_number(out: &mut Vec<(String, String)>, key: &str, v: Option<u64>)
    ensures
        pair_views(final(out)@) == pair_views(old(out)@) + number_entry(key@, v),
{
    let ghost before = pair_views(out@);
    match v {
        Some(x) => {
            let d = decimal_exec(x);
            out.push((key.to_owned(), string_from(d.as_slice())));
            assert(pair_views(out@) =~= before + number_entry(key@, v));
        },
        None => {
            assert(before + number_entry(key@, v) =~= before);
        },
    }
}

/// Display entries of the header fields (keys are distinct).
pub fn summarize(meta: &GgufMeta) -> (r: Vec<(String, String)>)
    ensures
        pair_views(r@) == summary_entries(meta@),
{
    let mut m: Vec<(String, String)> = Vec::new();
    assert(pair_views(m@) =~= Seq::<(Seq<char>, Seq<char>)>::empty());
    push_text(&mut m, "architecture", &meta.architecture);
    push_text(&mut m, "name", &meta.name);
    push_text(&mut m, "sizeLabel", &meta.size_label);
    push_number(&mut m, "contextLength", meta.context_length);
    push_number(&mut m, "blocks", meta.block_count);
    push_number(&mut m, "embedding", meta.embedding_length);
    push_text(&mut m, "quant", &meta.quant);
    assert(pair_views(m@) =~= summary_entries(meta@));
    m
}

/// The llama.cpp `general.file_type` codes and their quantization labels,
/// as llama.cpp's `llama_ftype` enum names them (codes 4 to 6 are retired
/// and, like codes past 30, have no label).
pub proof fn lemma_file_type_table()
    ensures
        quant_label(0) == Some("F32"@),
        quant_label(1) == Some("F16"@),
        quant_label(2) == Some("Q4_0"@),
        quant_label(3) == Some("Q4_1"@),
        quant_label(7) == Some("Q8_0"@),
        quant_label(8) == Some("Q5_0"@),
        quant_label(9) == Some("Q5_1"@),
        quant_label(10) == Some("Q2_K"@),
        quant_label(11) == Some("Q3_K_S"@),
        quant_label(12) == Some("Q3_K_M"@),
        quant_label(13) == Some("Q3_K_L"@),
        quant_label(14) == Some("Q4_K_S"@),
        quant_label(15) == Some("Q4_K_M"@),
        quant_label(16) == Some("Q5_K_S"@),
        quant_label(17) == Some("Q5_K_M"@),
        quant_label(18) == Some("Q6_K"@),
        quant_label(19) == Some("IQ2_XXS"@),
        quant_label(20) == Some("IQ2_XS"@),
        quant_label(21) == Some("Q2_K_S"@),
        quant_label(22) == Some("IQ3_XS"@),
        quant_label(23) == Some("IQ3_XXS"@),
        quant_label(24) == Some("IQ1_S"@),
        quant_label(25) == Some("IQ4_NL"@),
        quant_label(26) == Some("IQ3_S"@),
        quant_label(27) == Some("IQ3_M"@),
        quant_label(28) == Some("IQ4_XS"@),
        quant_label(29) == Some("IQ1_M"@),
        quant_label(30) == Some("BF16"@),
        quant_label(4) is None && quant_label(5) is None && quant_label(6) is None,
        forall|t: u64| t > 30 ==> (#[trigger] quant_label(t)) is None,
{
}

// ------------------------------------------------- file-type label law

/// The name of a model file carrying a quantization label: `Model-<label>.gguf`.
pub open spec fn labelled_name(label: Seq<char>) -> Seq<char> {
    "Model-"@ + label + ".gguf"@
}

/// Characters of a label as llama.cpp writes them: capitals, digits, `_`.
pub open spec fn label_chars(s: Seq<char>) -> bool
    decreases s.len(),
{
    if s.len() == 0 {
        true
    } else {
        let c = s.last();
        (('A' <= c && c <= 'Z') || ('0' <= c && c <= '9') || c == '_') && label_chars(s.drop_last())
    }
}

proof fn lemma_label_chars(s: Seq<char>)
    requires
        label_chars(s),
    ensures
        forall|i: int| 0 <= i < s.len() ==> {
            let c = #[trigger] s[i];
            ('A' <= c && c <= 'Z') || ('0' <= c && c <= '9') || c == '_'
        },
    decreases s.len(),
{
    if s.len() > 0 {
        lemma_label_chars(s.drop_last());
        assert forall|i: int| 0 <= i < s.len() implies {
            let c = #[trigger] s[i];
            ('A' <= c && c <= 'Z') || ('0' <= c && c <= '9') || c == '_'
        } by {
            if i < s.len() - 1 {
                assert(s[i] == s.drop_last()[i]);
            }
        }
    }
}

proof fn lemma_spans_skip(s: Seq<char>, pos: int, end: int)
    requires
        0 <= pos <= end <= s.len(),
        forall|k: int| pos <= k < end ==> quant_match_len(s, k) == 0,
    ensures
        quant_spans(s, pos) == quant_spans(s, end),
    decreases end - pos,
{
    if pos < end {
        lemma_spans_skip(s, pos + 1, end);
    }
}

proof fn lemma_rank_below(up: Seq<char>, j: int, i: int)
    requires
        0 <= j <= i < 26,
        starts_with(up, rank_entry(i)),
    ensures
        rank_from(up, j) <= i,
    decreases i - j,
{
    if j < i && !starts_with(up, rank_entry(j)) {
        lemma_rank_below(up, j + 1, i);
    }
}

/// What one label needs for the law: its characters, that the name's
/// prefix holds no match, the match at the label, the preference entry it
/// starts with.
proof fn lemma_label_law(s: Seq<char>, entry: int)
    requires
        s.len() > 0,
        s.last() != 'F',
        label_chars(s),
        quant_match_len("Model-"@ + s, 6) == s.len(),
        0 <= entry < 26,
        starts_with(s, rank_entry(entry)),
    ensures
        is_ascii_text(s),
        upper_text(s) == s,
        quant_in_name(labelled_name(s)) == Some(s),
        rank_of_upper(s) < 500,
{
    reveal_strlit("Model-");
    reveal_strlit(".gguf");
    reveal_strlit(".GGUF");
    reveal_strlit("iq");
    reveal_strlit("q");
    reveal_strlit("bf16");
    reveal_strlit("fp16");
    reveal_strlit("fp32");
    reveal_strlit("f16");
    reveal_strlit("f32");
    lemma_label_chars(s);
    assert(s.map_values(|c: char| ascii_upper(c)) =~= s);
    let st = "Model-"@ + s;
    let name = labelled_name(s);
    // The stem: `.gguf` trimmed once; the label ends in no `f`.
    assert(name.subrange(0, name.len() - 5) =~= st);
    assert(ends_with(name, ".gguf"@)) by {
        assert(name.subrange(name.len() - 5, name.len() as int) =~= ".gguf"@);
    }
    assert(!ends_with(st, ".gguf"@)) by {
        assert(st[st.len() - 1] == s[s.len() - 1]);
        if ends_with(st, ".gguf"@) {
            assert(st.subrange(st.len() - 5, st.len() as int)[4] == 'f');
        }
    }
    assert(!ends_with(st, ".GGUF"@)) by {
        assert(st[st.len() - 1] == s[s.len() - 1]);
        if ends_with(st, ".GGUF"@) {
            assert(st.subrange(st.len() - 5, st.len() as int)[4] == 'F');
            assert(s.last() == 'F');
        }
    }
    assert(trim_suffix_all(st, ".gguf"@) == st);
    assert(trim_suffix_all(name, ".gguf"@) == st);
    assert(file_stem_of(name) == st);
    // No match in `Model-`.
    assert forall|k: int| 0 <= k < 6 implies quant_match_len(st, k) == 0 by {
        assert(st[k] == "Model-"@[k]);
        assert(!folds_to(st[k], 'i') && !folds_to(st[k], 'q') && !folds_to(st[k], 'b') && !folds_to(st[k], 'f'));
        assert(!folded_at(st, k, "iq"@)) by { if folded_at(st, k, "iq"@) { assert(folds_to(st[k + 0], "iq"@[0])); } }
        assert(!folded_at(st, k, "q"@)) by { if folded_at(st, k, "q"@) { assert(folds_to(st[k + 0], "q"@[0])); } }
        assert(!folded_at(st, k, "bf16"@)) by { if folded_at(st, k, "bf16"@) { assert(folds_to(st[k + 0], "bf16"@[0])); } }
        assert(!folded_at(st, k, "fp16"@)) by { if folded_at(st, k, "fp16"@) { assert(folds_to(st[k + 0], "fp16"@[0])); } }
        assert(!folded_at(st, k, "fp32"@)) by { if folded_at(st, k, "fp32"@) { assert(folds_to(st[k + 0], "fp32"@[0])); } }
        assert(!folded_at(st, k, "f16"@)) by { if folded_at(st, k, "f16"@) { assert(folds_to(st[k + 0], "f16"@[0])); } }
        assert(!folded_at(st, k, "f32"@)) by { if folded_at(st, k, "f32"@) { assert(folds_to(st[k + 0], "f32"@[0])); } }
    }
    lemma_spans_skip(st, 0, 6);
    assert(quant_spans(st, st.len() as int) == Seq::<(int, int)>::empty());
    assert(quant_spans(st, 6) == seq![(6int, st.len() as int)].add(quant_spans(st, st.len() as int)));
    let spans = quant_spans(st, 0);
    assert(spans =~= seq![(6int, st.len() as int)]);
    let texts = span_texts(st, spans);
    assert(texts.len() == 1);
    assert(texts[0] =~= s);
    assert(texts.last() == s);
    assert(texts.drop_last() =~= Seq::<Seq<char>>::empty());
    assert(longest(texts.drop_last()) is None);
    assert(longest(texts) == Some(s));
    lemma_rank_below(s, 0, entry);
}

#[verifier::rlimit(40)]
proof fn lemma_labels_0(t: u64)
    requires
        t == 0 || t == 1 || t == 2 || t == 3,
    ensures
        ({
            let s = quant_label(t)->0;
            &&& is_ascii_text(s)
            &&& upper_text(s) == s
            &&& quant_in_name(labelled_name(s)) == Some(s)
            &&& rank_of_upper(s) < 500
        }),
{
    reveal_strlit("Model-");
    reveal_strlit("iq");
    reveal_strlit("q");
    reveal_strlit("bf16");
    reveal_strlit("fp16");
    reveal_strlit("fp32");
    reveal_strlit("f16");
    reveal_strlit("f32");
    reveal_with_fuel(label_chars, 8);
    reveal_with_fuel(digits_end, 3);
    reveal_with_fuel(word_end, 4);
    reveal_with_fuel(groups_end, 4);
    if t == 0 {
        reveal_strlit("F32");
        reveal_strlit("F32");
        let s = "F32"@;
        assert(("Model-"@ + s).subrange(6, 6 + s.len() as int) =~= s);
        assert(s.subrange(0, 3) =~= "F32"@);
        lemma_label_law(s, 0);
    }
    if t == 1 {
        reveal_strlit("F16");
        reveal_strlit("F16");
        let s = "F16"@;
        assert(("Model-"@ + s).subrange(6, 6 + s.len() as int) =~= s);
        assert(s.subrange(0, 3) =~= "F16"@);
        lemma_label_law(s, 2);
    }
    if t == 2 {
        reveal_strlit("Q4_0");
        reveal_strlit("Q4_0");
        let s = "Q4_0"@;
        assert(("Model-"@ + s).subrange(6, 6 + s.len() as int) =~= s);
        assert(s.subrange(0, 4) =~= "Q4_0"@);
        lemma_label_law(s, 13);
    }
    if t == 3 {
        reveal_strlit("Q4_1");
        reveal_strlit("Q4_1");
        let s = "Q4_1"@;
        assert(("Model-"@ + s).subrange(6, 6 + s.len() as int) =~= s);
        assert(s.subrange(0, 4) =~= "Q4_1"@);
        lemma_label_law(s, 14);
    }
}

#[verifier::rlimit(40)]
proof fn lemma_labels_1(t: u64)
    requires
        t == 7 || t == 8 || t == 9 || t == 10,
    ensures
        ({
            let s = quant_label(t)->0;
            &&& is_ascii_text(s)
            &&& upper_text(s) == s
            &&& quant_in_name(labelled_name(s)) == Some(s)
            &&& rank_of_upper(s) < 500
        }),
{
    reveal_strlit("Model-");
    reveal_strlit("iq");
    reveal_strlit("q");
    reveal_strlit("bf16");
    reveal_strlit("fp16");
    reveal_strlit("fp32");
    reveal_strlit("f16");
    reveal_strlit("f32");
    reveal_with_fuel(label_chars, 8);
    reveal_with_fuel(digits_end, 3);
    reveal_with_fuel(word_end, 4);
    reveal_with_fuel(groups_end, 4);
    if t == 7 {
        reveal_strlit("Q8_0");
        reveal_strlit("Q8_0");
        let s = "Q8_0"@;
        assert(("Model-"@ + s).subrange(6, 6 + s.len() as int) =~= s);
        assert(s.subrange(0, 4) =~= "Q8_0"@);
        lemma_label_law(s, 3);
    }
    if t == 8 {
        reveal_strlit("Q5_0");
        reveal_strlit("Q5_0");
        let s = "Q5_0"@;
        assert(("Model-"@ + s).subrange(6, 6 + s.len() as int) =~= s);
        assert(s.subrange(0, 4) =~= "Q5_0"@);
        lemma_label_law(s, 7);
    }
    if t == 9 {
        reveal_strlit("Q5_1");
        reveal_strlit("Q5_1");
        let s = "Q5_1"@;
        assert(("Model-"@ + s).subrange(6, 6 + s.len() as int) =~= s);
        assert(s.subrange(0, 4) =~= "Q5_1"@);
        lemma_label_law(s, 8);
    }
    if t == 10 {
        reveal_strlit("Q2_K");
        reveal_strlit("Q2_K");
        let s = "Q2_K"@;
        assert(("Model-"@ + s).subrange(6, 6 + s.len() as int) =~= s);
        assert(s.subrange(0, 4) =~= "Q2_K"@);
        lemma_label_law(s, 22);
    }
}

#[verifier::rlimit(40)]
proof fn lemma_labels_2(t: u64)
    requires
        t == 11 || t == 12 || t == 13 || t == 14,
    ensures
        ({
            let s = quant_label(t)->0;
            &&& is_ascii_text(s)
            &&& upper_text(s) == s
            &&& quant_in_name(labelled_name(s)) == Some(s)
            &&& rank_of_upper(s) < 500
        }),
{
    reveal_strlit("Model-");
    reveal_strlit("iq");
    reveal_strlit("q");
    reveal_strlit("bf16");
    reveal_strlit("fp16");
    reveal_strlit("fp32");
    reveal_strlit("f16");
    reveal_strlit("f32");
    reveal_with_fuel(label_chars, 8);
    reveal_with_fuel(digits_end, 3);
    reveal_with_fuel(word_end, 4);
    reveal_with_fuel(groups_end, 4);
    if t == 11 {
        reveal_strlit("Q3_K_S");
        reveal_strlit("Q3_K_S");
        let s = "Q3_K_S"@;
        assert(("Model-"@ + s).subrange(6, 6 + s.len() as int) =~= s);
        assert(s.subrange(0, 6) =~= "Q3_K_S"@);
        lemma_label_law(s, 17);
    }
    if t == 12 {
        reveal_strlit("Q3_K_M");
        reveal_strlit("Q3_K_M");
        let s = "Q3_K_M"@;
        assert(("Model-"@ + s).subrange(6, 6 + s.len() as int) =~= s);
        assert(s.subrange(0, 6) =~= "Q3_K_M"@);
        lemma_label_law(s, 16);
    }
    if t == 13 {
        reveal_strlit("Q3_K_L");
        reveal_strlit("Q3_K_L");
        let s = "Q3_K_L"@;
        assert(("Model-"@ + s).subrange(6, 6 + s.len() as int) =~= s);
        assert(s.subrange(0, 6) =~= "Q3_K_L"@);
        lemma_label_law(s, 15);
    }
    if t == 14 {
        reveal_strlit("Q4_K_S");
        reveal_strlit("Q4_K_S");
        let s = "Q4_K_S"@;
        assert(("Model-"@ + s).subrange(6, 6 + s.len() as int) =~= s);
        assert(s.subrange(0, 6) =~= "Q4_K_S"@);
        lemma_label_law(s, 10);
    }
}

#[verifier::rlimit(40)]
proof fn lemma_labels_3(t: u64)
    requires
        t == 15 || t == 16 || t == 17 || t == 18,
    ensures
        ({
            let s = quant_label(t)->0;
            &&& is_ascii_text(s)
            &&& upper_text(s) == s
            &&& quant_in_name(labelled_name(s)) == Some(s)
            &&& rank_of_upper(s) < 500
        }),
{
    reveal_strlit("Model-");
    reveal_strlit("iq");
    reveal_strlit("q");
    reveal_strlit("bf16");
    reveal_strlit("fp16");
    reveal_strlit("fp32");
    reveal_strlit("f16");
    reveal_strlit("f32");
    reveal_with_fuel(label_chars, 8);
    reveal_with_fuel(digits_end, 3);
    reveal_with_fuel(word_end, 4);
    reveal_with_fuel(groups_end, 4);
    if t == 15 {
        reveal_strlit("Q4_K_M");
        reveal_strlit("Q4_K_M");
        let s = "Q4_K_M"@;
        assert(("Model-"@ + s).subrange(6, 6 + s.len() as int) =~= s);
        assert(s.subrange(0, 6) =~= "Q4_K_M"@);
        lemma_label_law(s, 9);
    }
    if t == 16 {
        reveal_strlit("Q5_K_S");
        reveal_strlit("Q5_K_S");
        let s = "Q5_K_S"@;
        assert(("Model-"@ + s).subrange(6, 6 + s.len() as int) =~= s);
        assert(s.subrange(0, 6) =~= "Q5_K_S"@);
        lemma_label_law(s, 6);
    }
    if t == 17 {
        reveal_strlit("Q5_K_M");
        reveal_strlit("Q5_K_M");
        let s = "Q5_K_M"@;
        assert(("Model-"@ + s).subrange(6, 6 + s.len() as int) =~= s);
        assert(s.subrange(0, 6) =~= "Q5_K_M"@);
        lemma_label_law(s, 5);
    }
    if t == 18 {
        reveal_strlit("Q6_K");
        reveal_strlit("Q6_K");
        let s = "Q6_K"@;
        assert(("Model-"@ + s).subrange(6, 6 + s.len() as int) =~= s);
        assert(s.subrange(0, 4) =~= "Q6_K"@);
        lemma_label_law(s, 4);
    }
}

#[verifier::rlimit(40)]
proof fn lemma_labels_4(t: u64)
    requires
        t == 19 || t == 20 || t == 21 || t == 22,
    ensures
        ({
            let s = quant_label(t)->0;
            &&& is_ascii_text(s)
            &&& upper_text(s) == s
            &&& quant_in_name(labelled_name(s)) == Some(s)
            &&& rank_of_upper(s) < 500
        }),
{
    reveal_strlit("Model-");
    reveal_strlit("iq");
    reveal_strlit("q");
    reveal_strlit("bf16");
    reveal_strlit("fp16");
    reveal_strlit("fp32");
    reveal_strlit("f16");
    reveal_strlit("f32");
    reveal_with_fuel(label_chars, 8);
    reveal_with_fuel(digits_end, 3);
    reveal_with_fuel(word_end, 4);
    reveal_with_fuel(groups_end, 4);
    if t == 19 {
        reveal_strlit("IQ2_XXS");
        reveal_strlit("IQ2");
        let s = "IQ2_XXS"@;
        assert(("Model-"@ + s).subrange(6, 6 + s.len() as int) =~= s);
        assert(s.subrange(0, 3) =~= "IQ2"@);
        lemma_label_law(s, 24);
    }
    if t == 20 {
        reveal_strlit("IQ2_XS");
        reveal_strlit("IQ2");
        let s = "IQ2_XS"@;
        assert(("Model-"@ + s).subrange(6, 6 + s.len() as int) =~= s);
        assert(s.subrange(0, 3) =~= "IQ2"@);
        lemma_label_law(s, 24);
    }
    if t == 21 {
        reveal_strlit("Q2_K_S");
        reveal_strlit("Q2_K");
        let s = "Q2_K_S"@;
        assert(("Model-"@ + s).subrange(6, 6 + s.len() as int) =~= s);
        assert(s.subrange(0, 4) =~= "Q2_K"@);
        lemma_label_law(s, 22);
    }
    if t == 22 {
        reveal_strlit("IQ3_XS");
        reveal_strlit("IQ3_XS");
        let s = "IQ3_XS"@;
        assert(("Model-"@ + s).subrange(6, 6 + s.len() as int) =~= s);
        assert(s.subrange(0, 6) =~= "IQ3_XS"@);
        lemma_label_law(s, 20);
    }
}

#[verifier::rlimit(40)]
proof fn lemma_labels_5(t: u64)
    requires
        t == 23 || t == 24 || t == 25 || t == 26,
    ensures
        ({
            let s = quant_label(t)->0;
            &&& is_ascii_text(s)
            &&& upper_text(s) == s
            &&& quant_in_name(labelled_name(s)) == Some(s)
            &&& rank_of_upper(s) < 500
        }),
{
    reveal_strlit("Model-");
    reveal_strlit("iq");
    reveal_strlit("q");
    reveal_strlit("bf16");
    reveal_strlit("fp16");
    reveal_strlit("fp32");
    reveal_strlit("f16");
    reveal_strlit("f32");
    reveal_with_fuel(label_chars, 8);
    reveal_with_fuel(digits_end, 3);
    reveal_with_fuel(word_end, 4);
    reveal_with_fuel(groups_end, 4);
    if t == 23 {
        reveal_strlit("IQ3_XXS");
        reveal_strlit("IQ3_XXS");
        let s = "IQ3_XXS"@;
        assert(("Model-"@ + s).subrange(6, 6 + s.len() as int) =~= s);
        assert(s.subrange(0, 7) =~= "IQ3_XXS"@);
        lemma_label_law(s, 21);
    }
    if t == 24 {
        reveal_strlit("IQ1_S");
        reveal_strlit("IQ1");
        let s = "IQ1_S"@;
        assert(("Model-"@ + s).subrange(6, 6 + s.len() as int) =~= s);
        assert(s.subrange(0, 3) =~= "IQ1"@);
        lemma_label_law(s, 25);
    }
    if t == 25 {
        reveal_strlit("IQ4_NL");
        reveal_strlit("IQ4_NL");
        let s = "IQ4_NL"@;
        assert(("Model-"@ + s).subrange(6, 6 + s.len() as int) =~= s);
        assert(s.subrange(0, 6) =~= "IQ4_NL"@);
        lemma_label_law(s, 12);
    }
    if t == 26 {
        reveal_strlit("IQ3_S");
        reveal_strlit("IQ3_S");
        let s = "IQ3_S"@;
        assert(("Model-"@ + s).subrange(6, 6 + s.len() as int) =~= s);
        assert(s.subrange(0, 5) =~= "IQ3_S"@);
        lemma_label_law(s, 19);
    }
}

#[verifier::rlimit(40)]
proof fn lemma_labels_6(t: u64)
    requires
        t == 27 || t == 28 || t == 29 || t == 30,
    ensures
        ({
            let s = quant_label(t)->0;
            &&& is_ascii_text(s)
            &&& upper_text(s) == s
            &&& quant_in_name(labelled_name(s)) == Some(s)
            &&& rank_of_upper(s) < 500
        }),
{
    reveal_strlit("Model-");
    reveal_strlit("iq");
    reveal_strlit("q");
    reveal_strlit("bf16");
    reveal_strlit("fp16");
    reveal_strlit("fp32");
    reveal_strlit("f16");
    reveal_strlit("f32");
    reveal_with_fuel(label_chars, 8);
    reveal_with_fuel(digits_end, 3);
    reveal_with_fuel(word_end, 4);
    reveal_with_fuel(groups_end, 4);
    if t == 27 {
        reveal_strlit("IQ3_M");
        reveal_strlit("IQ3_M");
        let s = "IQ3_M"@;
        assert(("Model-"@ + s).subrange(6, 6 + s.len() as int) =~= s);
        assert(s.subrange(0, 5) =~= "IQ3_M"@);
        lemma_label_law(s, 18);
    }
    if t == 28 {
        reveal_strlit("IQ4_XS");
        reveal_strlit("IQ4_XS");
        let s = "IQ4_XS"@;
        assert(("Model-"@ + s).subrange(6, 6 + s.len() as int) =~= s);
        assert(s.subrange(0, 6) =~= "IQ4_XS"@);
        lemma_label_law(s, 11);
    }
    if t == 29 {
        reveal_strlit("IQ1_M");
        reveal_strlit("IQ1");
        let s = "IQ1_M"@;
        assert(("Model-"@ + s).subrange(6, 6 + s.len() as int) =~= s);
        assert(s.subrange(0, 3) =~= "IQ1"@);
        lemma_label_law(s, 25);
    }
    if t == 30 {
        reveal_strlit("BF16");
        reveal_strlit("BF16");
        let s = "BF16"@;
        assert(("Model-"@ + s).subrange(6, 6 + s.len() as int) =~= s);
        assert(s.subrange(0, 4) =~= "BF16"@);
        lemma_label_law(s, 1);
    }
}

/// Every quantization label of a llama.cpp file type is found again by
/// the file-name guess in `Model-<label>.gguf`, upper-casing leaves it as
/// it is (it is ASCII capitals, digits and `_`), and it ranks among the
/// preferred labels (below 500).
pub proof fn lemma_file_type_label(t: u64)
    requires
        quant_label(t) is Some,
    ensures
        ({
            let s = quant_label(t)->0;
            &&& is_ascii_text(s)
            &&& upper_text(s) == s
            &&& quant_in_name(labelled_name(s)) == Some(s)
            &&& rank_of_upper(s) < 500
        }),
{
    if t == 0 || t == 1 || t == 2 || t == 3 {
        lemma_labels_0(t);
    }
    if t == 7 || t == 8 || t == 9 || t == 10 {
        lemma_labels_1(t);
    }
    if t == 11 || t == 12 || t == 13 || t == 14 {
        lemma_labels_2(t);
    }
    if t == 15 || t == 16 || t == 17 || t == 18 {
        lemma_labels_3(t);
    }
    if t == 19 || t == 20 || t == 21 || t == 22 {
        lemma_labels_4(t);
    }
    if t == 23 || t == 24 || t == 25 || t == 26 {
        lemma_labels_5(t);
    }
    if t == 27 || t == 28 || t == 29 || t == 30 {
        lemma_labels_6(t);
    }
}

proof fn lemma_rank_from_at(up: Seq<char>, j: int, i: int)
    requires
        0 <= j <= i < 26,
        starts_with(up, rank_entry(i)),
        forall|k: int| j <= k < i ==> !starts_with(up, #[trigger] rank_entry(k)),
    ensures
        rank_from(up, j) == i,
    decreases i - j,
{
    if j < i {
        assert(!starts_with(up, rank_entry(j)));
        lemma_rank_from_at(up, j + 1, i);
    }
}

proof fn lemma_not_prefix(a: Seq<char>, e: Seq<char>, k: int)
    requires
        0 <= k < e.len(),
        k < a.len(),
        a[k] != e[k],
    ensures
        !starts_with(a, e),
{
    if starts_with(a, e) {
        assert(a.subrange(0, e.len() as int)[k] == e[k]);
    }
}

proof fn lemma_upper_fixed(a: Seq<char>)
    requires
        label_chars(a),
    ensures
        upper_text(a) == a,
{
    lemma_label_chars(a);
    assert(a.map_values(|c: char| ascii_upper(c)) =~= a);
}

proof fn lemma_rank_0()
    ensures
        rank_of_upper(upper_text("F32"@)) == 0,
{
    reveal_strlit("F32");
    let a = "F32"@;

    assert(a.subrange(0, 3) =~= rank_entry(0));
    assert forall|k: int| 0 <= k < 0 implies !starts_with(a, #[trigger] rank_entry(k)) by {

    }
    lemma_rank_from_at(a, 0, 0);
    reveal_with_fuel(label_chars, 8);
    lemma_upper_fixed(a);
}

proof fn lemma_rank_1()
    ensures
        rank_of_upper(upper_text("BF16"@)) == 1,
{
    reveal_strlit("BF16");
    reveal_strlit("F32");
    let a = "BF16"@;
    lemma_not_prefix(a, rank_entry(0), 0);
    assert(a.subrange(0, 4) =~= rank_entry(1));
    assert forall|k: int| 0 <= k < 1 implies !starts_with(a, #[trigger] rank_entry(k)) by {
        if k == 0 {}
    }
    lemma_rank_from_at(a, 0, 1);
    reveal_with_fuel(label_chars, 8);
    lemma_upper_fixed(a);
}

proof fn lemma_rank_2()
    ensures
        rank_of_upper(upper_text("F16"@)) == 2,
{
    reveal_strlit("F16");
    reveal_strlit("F32");
    reveal_strlit("BF16");
    let a = "F16"@;
    lemma_not_prefix(a, rank_entry(0), 1);
    assert(!starts_with(a, rank_entry(1))) by { assert(rank_entry(1).len() > a.len()); }
    assert(a.subrange(0, 3) =~= rank_entry(2));
    assert forall|k: int| 0 <= k < 2 implies !starts_with(a, #[trigger] rank_entry(k)) by {
        if k == 0 {}
        if k == 1 {}
    }
    lemma_rank_from_at(a, 0, 2);
    reveal_with_fuel(label_chars, 8);
    lemma_upper_fixed(a);
}

proof fn lemma_rank_3()
    ensures
        rank_of_upper(upper_text("Q8_0"@)) == 3,
{
    reveal_strlit("Q8_0");
    reveal_strlit("F32");
    reveal_strlit("BF16");
    reveal_strlit("F16");
    let a = "Q8_0"@;
    lemma_not_prefix(a, rank_entry(0), 0);
    lemma_not_prefix(a, rank_entry(1), 0);
    lemma_not_prefix(a, rank_entry(2), 0);
    assert(a.subrange(0, 4) =~= rank_entry(3));
    assert forall|k: int| 0 <= k < 3 implies !starts_with(a, #[trigger] rank_entry(k)) by {
        if k == 0 {}
        if k == 1 {}
        if k == 2 {}
    }
    lemma_rank_from_at(a, 0, 3);
    reveal_with_fuel(label_chars, 8);
    lemma_upper_fixed(a);
}

proof fn lemma_rank_4()
    ensures
        rank_of_upper(upper_text("Q6_K"@)) == 4,
{
    reveal_strlit("Q6_K");
    reveal_strlit("F32");
    reveal_strlit("BF16");
    reveal_strlit("F16");
    reveal_strlit("Q8_0");
    let a = "Q6_K"@;
    lemma_not_prefix(a, rank_entry(0), 0);
    lemma_not_prefix(a, rank_entry(1), 0);
    lemma_not_prefix(a, rank_entry(2), 0);
    lemma_not_prefix(a, rank_entry(3), 1);
    assert(a.subrange(0, 4) =~= rank_entry(4));
    assert forall|k: int| 0 <= k < 4 implies !starts_with(a, #[trigger] rank_entry(k)) by {
        if k == 0 {}
        if k == 1 {}
        if k == 2 {}
        if k == 3 {}
    }
    lemma_rank_from_at(a, 0, 4);
    reveal_with_fuel(label_chars, 8);
    lemma_upper_fixed(a);
}

proof fn lemma_rank_5()
    ensures
        rank_of_upper(upper_text("Q5_K_M"@)) == 5,
{
    reveal_strlit("Q5_K_M");
    reveal_strlit("F32");
    reveal_strlit("BF16");
    reveal_strlit("F16");
    reveal_strlit("Q8_0");
    reveal_strlit("Q6_K");
    let a = "Q5_K_M"@;
    lemma_not_prefix(a, rank_entry(0), 0);
    lemma_not_prefix(a, rank_entry(1), 0);
    lemma_not_prefix(a, rank_entry(2), 0);
    lemma_not_prefix(a, rank_entry(3), 1);
    lemma_not_prefix(a, rank_entry(4), 1);
    assert(a.subrange(0, 6) =~= rank_entry(5));
    assert forall|k: int| 0 <= k < 5 implies !starts_with(a, #[trigger] rank_entry(k)) by {
        if k == 0 {}
        if k == 1 {}
        if k == 2 {}
        if k == 3 {}
        if k == 4 {}
    }
    lemma_rank_from_at(a, 0, 5);
    reveal_with_fuel(label_chars, 8);
    lemma_upper_fixed(a);
}

proof fn lemma_rank_6()
    ensures
        rank_of_upper(upper_text("Q5_K_S"@)) == 6,
{
    reveal_strlit("Q5_K_S");
    reveal_strlit("F32");
    reveal_strlit("BF16");
    reveal_strlit("F16");
    reveal_strlit("Q8_0");
    reveal_strlit("Q6_K");
    reveal_strlit("Q5_K_M");
    let a = "Q5_K_S"@;
    lemma_not_prefix(a, rank_entry(0), 0);
    lemma_not_prefix(a, rank_entry(1), 0);
    lemma_not_prefix(a, rank_entry(2), 0);
    lemma_not_prefix(a, rank_entry(3), 1);
    lemma_not_prefix(a, rank_entry(4), 1);
    lemma_not_prefix(a, rank_entry(5), 5);
    assert(a.subrange(0, 6) =~= rank_entry(6));
    assert forall|k: int| 0 <= k < 6 implies !starts_with(a, #[trigger] rank_entry(k)) by {
        if k == 0 {}
        if k == 1 {}
        if k == 2 {}
        if k == 3 {}
        if k == 4 {}
        if k == 5 {}
    }
    lemma_rank_from_at(a, 0, 6);
    reveal_with_fuel(label_chars, 8);
    lemma_upper_fixed(a);
}

proof fn lemma_rank_7()
    ensures
        rank_of_upper(upper_text("Q5_0"@)) == 7,
{
    reveal_strlit("Q5_0");
    reveal_strlit("F32");
    reveal_strlit("BF16");
    reveal_strlit("F16");
    reveal_strlit("Q8_0");
    reveal_strlit("Q6_K");
    reveal_strlit("Q5_K_M");
    reveal_strlit("Q5_K_S");
    let a = "Q5_0"@;
    lemma_not_prefix(a, rank_entry(0), 0);
    lemma_not_prefix(a, rank_entry(1), 0);
    lemma_not_prefix(a, rank_entry(2), 0);
    lemma_not_prefix(a, rank_entry(3), 1);
    lemma_not_prefix(a, rank_entry(4), 1);
    assert(!starts_with(a, rank_entry(5))) by { assert(rank_entry(5).len() > a.len()); }
    assert(!starts_with(a, rank_entry(6))) by { assert(rank_entry(6).len() > a.len()); }
    assert(a.subrange(0, 4) =~= rank_entry(7));
    assert forall|k: int| 0 <= k < 7 implies !starts_with(a, #[trigger] rank_entry(k)) by {
        if k == 0 {}
        if k == 1 {}
        if k == 2 {}
        if k == 3 {}
        if k == 4 {}
        if k == 5 {}
        if k == 6 {}
    }
    lemma_rank_from_at(a, 0, 7);
    reveal_with_fuel(label_chars, 8);
    lemma_upper_fixed(a);
}

proof fn lemma_rank_8()
    ensures
        rank_of_upper(upper_text("Q5_1"@)) == 8,
{
    reveal_strlit("Q5_1");
    reveal_strlit("F32");
    reveal_strlit("BF16");
    reveal_strlit("F16");
    reveal_strlit("Q8_0");
    reveal_strlit("Q6_K");
    reveal_strlit("Q5_K_M");
    reveal_strlit("Q5_K_S");
    reveal_strlit("Q5_0");
    let a = "Q5_1"@;
    lemma_not_prefix(a, rank_entry(0), 0);
    lemma_not_prefix(a, rank_entry(1), 0);
    lemma_not_prefix(a, rank_entry(2), 0);
    lemma_not_prefix(a, rank_entry(3), 1);
    lemma_not_prefix(a, rank_entry(4), 1);
    assert(!starts_with(a, rank_entry(5))) by { assert(rank_entry(5).len() > a.len()); }
    assert(!starts_with(a, rank_entry(6))) by { assert(rank_entry(6).len() > a.len()); }
    lemma_not_prefix(a, rank_entry(7), 3);
    assert(a.subrange(0, 4) =~= rank_entry(8));
    assert forall|k: int| 0 <= k < 8 implies !starts_with(a, #[trigger] rank_entry(k)) by {
        if k == 0 {}
        if k == 1 {}
        if k == 2 {}
        if k == 3 {}
        if k == 4 {}
        if k == 5 {}
        if k == 6 {}
        if k == 7 {}
    }
    lemma_rank_from_at(a, 0, 8);
    reveal_with_fuel(label_chars, 8);
    lemma_upper_fixed(a);
}

proof fn lemma_rank_9()
    ensures
        rank_of_upper(upper_text("Q4_K_M"@)) == 9,
{
    reveal_strlit("Q4_K_M");
    reveal_strlit("F32");
    reveal_strlit("BF16");
    reveal_strlit("F16");
    reveal_strlit("Q8_0");
    reveal_strlit("Q6_K");
    reveal_strlit("Q5_K_M");
    reveal_strlit("Q5_K_S");
    reveal_strlit("Q5_0");
    reveal_strlit("Q5_1");
    let a = "Q4_K_M"@;
    lemma_not_prefix(a, rank_entry(0), 0);
    lemma_not_prefix(a, rank_entry(1), 0);
    lemma_not_prefix(a, rank_entry(2), 0);
    lemma_not_prefix(a, rank_entry(3), 1);
    lemma_not_prefix(a, rank_entry(4), 1);
    lemma_not_prefix(a, rank_entry(5), 1);
    lemma_not_prefix(a, rank_entry(6), 1);
    lemma_not_prefix(a, rank_entry(7), 1);
    lemma_not_prefix(a, rank_entry(8), 1);
    assert(a.subrange(0, 6) =~= rank_entry(9));
    assert forall|k: int| 0 <= k < 9 implies !starts_with(a, #[trigger] rank_entry(k)) by {
        if k == 0 {}
        if k == 1 {}
        if k == 2 {}
        if k == 3 {}
        if k == 4 {}
        if k == 5 {}
        if k == 6 {}
        if k == 7 {}
        if k == 8 {}
    }
    lemma_rank_from_at(a, 0, 9);
    reveal_with_fuel(label_chars, 8);
    lemma_upper_fixed(a);
}

proof fn lemma_rank_10()
    ensures
        rank_of_upper(upper_text("Q4_K_S"@)) == 10,
{
    reveal_strlit("Q4_K_S");
    reveal_strlit("F32");
    reveal_strlit("BF16");
    reveal_strlit("F16");
    reveal_strlit("Q8_0");
    reveal_strlit("Q6_K");
    reveal_strlit("Q5_K_M");
    reveal_strlit("Q5_K_S");
    reveal_strlit("Q5_0");
    reveal_strlit("Q5_1");
    reveal_strlit("Q4_K_M");
    let a = "Q4_K_S"@;
    lemma_not_prefix(a, rank_entry(0), 0);
    lemma_not_prefix(a, rank_entry(1), 0);
    lemma_not_prefix(a, rank_entry(2), 0);
    lemma_not_prefix(a, rank_entry(3), 1);
    lemma_not_prefix(a, rank_entry(4), 1);
    lemma_not_prefix(a, rank_entry(5), 1);
    lemma_not_prefix(a, rank_entry(6), 1);
    lemma_not_prefix(a, rank_entry(7), 1);
    lemma_not_prefix(a, rank_entry(8), 1);
    lemma_not_prefix(a, rank_entry(9), 5);
    assert(a.subrange(0, 6) =~= rank_entry(10));
    assert forall|k: int| 0 <= k < 10 implies !starts_with(a, #[trigger] rank_entry(k)) by {
        if k == 0 {}
        if k == 1 {}
        if k == 2 {}
        if k == 3 {}
        if k == 4 {}
        if k == 5 {}
        if k == 6 {}
        if k == 7 {}
        if k == 8 {}
        if k == 9 {}
    }
    lemma_rank_from_at(a, 0, 10);
    reveal_with_fuel(label_chars, 8);
    lemma_upper_fixed(a);
}

proof fn lemma_rank_11()
    ensures
        rank_of_upper(upper_text("IQ4_XS"@)) == 11,
{
    reveal_strlit("IQ4_XS");
    reveal_strlit("F32");
    reveal_strlit("BF16");
    reveal_strlit("F16");
    reveal_strlit("Q8_0");
    reveal_strlit("Q6_K");
    reveal_strlit("Q5_K_M");
    reveal_strlit("Q5_K_S");
    reveal_strlit("Q5_0");
    reveal_strlit("Q5_1");
    reveal_strlit("Q4_K_M");
    reveal_strlit("Q4_K_S");
    let a = "IQ4_XS"@;
    lemma_not_prefix(a, rank_entry(0), 0);
    lemma_not_prefix(a, rank_entry(1), 0);
    lemma_not_prefix(a, rank_entry(2), 0);
    lemma_not_prefix(a, rank_entry(3), 0);
    lemma_not_prefix(a, rank_entry(4), 0);
    lemma_not_prefix(a, rank_entry(5), 0);
    lemma_not_prefix(a, rank_entry(6), 0);
    lemma_not_prefix(a, rank_entry(7), 0);
    lemma_not_prefix(a, rank_entry(8), 0);
    lemma_not_prefix(a, rank_entry(9), 0);
    lemma_not_prefix(a, rank_entry(10), 0);
    assert(a.subrange(0, 6) =~= rank_entry(11));
    assert forall|k: int| 0 <= k < 11 implies !starts_with(a, #[trigger] rank_entry(k)) by {
        if k == 0 {}
        if k == 1 {}
        if k == 2 {}
        if k == 3 {}
        if k == 4 {}
        if k == 5 {}
        if k == 6 {}
        if k == 7 {}
        if k == 8 {}
        if k == 9 {}
        if k == 10 {}
    }
    lemma_rank_from_at(a, 0, 11);
    reveal_with_fuel(label_chars, 8);
    lemma_upper_fixed(a);
}

proof fn lemma_rank_12()
    ensures
        rank_of_upper(upper_text("IQ4_NL"@)) == 12,
{
    reveal_strlit("IQ4_NL");
    reveal_strlit("F32");
    reveal_strlit("BF16");
    reveal_strlit("F16");
    reveal_strlit("Q8_0");
    reveal_strlit("Q6_K");
    reveal_strlit("Q5_K_M");
    reveal_strlit("Q5_K_S");
    reveal_strlit("Q5_0");
    reveal_strlit("Q5_1");
    reveal_strlit("Q4_K_M");
    reveal_strlit("Q4_K_S");
    reveal_strlit("IQ4_XS");
    let a = "IQ4_NL"@;
    lemma_not_prefix(a, rank_entry(0), 0);
    lemma_not_prefix(a, rank_entry(1), 0);
    lemma_not_prefix(a, rank_entry(2), 0);
    lemma_not_prefix(a, rank_entry(3), 0);
    lemma_not_prefix(a, rank_entry(4), 0);
    lemma_not_prefix(a, rank_entry(5), 0);
    lemma_not_prefix(a, rank_entry(6), 0);
    lemma_not_prefix(a, rank_entry(7), 0);
    lemma_not_prefix(a, rank_entry(8), 0);
    lemma_not_prefix(a, rank_entry(9), 0);
    lemma_not_prefix(a, rank_entry(10), 0);
    lemma_not_prefix(a, rank_entry(11), 4);
    assert(a.subrange(0, 6) =~= rank_entry(12));
    assert forall|k: int| 0 <= k < 12 implies !starts_with(a, #[trigger] rank_entry(k)) by {
        if k == 0 {}
        if k == 1 {}
        if k == 2 {}
        if k == 3 {}
        if k == 4 {}
        if k == 5 {}
        if k == 6 {}
        if k == 7 {}
        if k == 8 {}
        if k == 9 {}
        if k == 10 {}
        if k == 11 {}
    }
    lemma_rank_from_at(a, 0, 12);
    reveal_with_fuel(label_chars, 8);
    lemma_upper_fixed(a);
}

proof fn lemma_rank_13()
    ensures
        rank_of_upper(upper_text("Q4_0"@)) == 13,
{
    reveal_strlit("Q4_0");
    reveal_strlit("F32");
    reveal_strlit("BF16");
    reveal_strlit("F16");
    reveal_strlit("Q8_0");
    reveal_strlit("Q6_K");
    reveal_strlit("Q5_K_M");
    reveal_strlit("Q5_K_S");
    reveal_strlit("Q5_0");
    reveal_strlit("Q5_1");
    reveal_strlit("Q4_K_M");
    reveal_strlit("Q4_K_S");
    reveal_strlit("IQ4_XS");
    reveal_strlit("IQ4_NL");
    let a = "Q4_0"@;
    lemma_not_prefix(a, rank_entry(0), 0);
    lemma_not_prefix(a, rank_entry(1), 0);
    lemma_not_prefix(a, rank_entry(2), 0);
    lemma_not_prefix(a, rank_entry(3), 1);
    lemma_not_prefix(a, rank_entry(4), 1);
    assert(!starts_with(a, rank_entry(5))) by { assert(rank_entry(5).len() > a.len()); }
    assert(!starts_with(a, rank_entry(6))) by { assert(rank_entry(6).len() > a.len()); }
    lemma_not_prefix(a, rank_entry(7), 1);
    lemma_not_prefix(a, rank_entry(8), 1);
    assert(!starts_with(a, rank_entry(9))) by { assert(rank_entry(9).len() > a.len()); }
    assert(!starts_with(a, rank_entry(10))) by { assert(rank_entry(10).len() > a.len()); }
    assert(!starts_with(a, rank_entry(11))) by { assert(rank_entry(11).len() > a.len()); }
    assert(!starts_with(a, rank_entry(12))) by { assert(rank_entry(12).len() > a.len()); }
    assert(a.subrange(0, 4) =~= rank_entry(13));
    assert forall|k: int| 0 <= k < 13 implies !starts_with(a, #[trigger] rank_entry(k)) by {
        if k == 0 {}
        if k == 1 {}
        if k == 2 {}
        if k == 3 {}
        if k == 4 {}
        if k == 5 {}
        if k == 6 {}
        if k == 7 {}
        if k == 8 {}
        if k == 9 {}
        if k == 10 {}
        if k == 11 {}
        if k == 12 {}
    }
    lemma_rank_from_at(a, 0, 13);
    reveal_with_fuel(label_chars, 8);
    lemma_upper_fixed(a);
}

proof fn lemma_rank_14()
    ensures
        rank_of_upper(upper_text("Q4_1"@)) == 14,
{
    reveal_strlit("Q4_1");
    reveal_strlit("F32");
    reveal_strlit("BF16");
    reveal_strlit("F16");
    reveal_strlit("Q8_0");
    reveal_strlit("Q6_K");
    reveal_strlit("Q5_K_M");
    reveal_strlit("Q5_K_S");
    reveal_strlit("Q5_0");
    reveal_strlit("Q5_1");
    reveal_strlit("Q4_K_M");
    reveal_strlit("Q4_K_S");
    reveal_strlit("IQ4_XS");
    reveal_strlit("IQ4_NL");
    reveal_strlit("Q4_0");
    let a = "Q4_1"@;
    lemma_not_prefix(a, rank_entry(0), 0);
    lemma_not_prefix(a, rank_entry(1), 0);
    lemma_not_prefix(a, rank_entry(2), 0);
    lemma_not_prefix(a, rank_entry(3), 1);
    lemma_not_prefix(a, rank_entry(4), 1);
    assert(!starts_with(a, rank_entry(5))) by { assert(rank_entry(5).len() > a.len()); }
    assert(!starts_with(a, rank_entry(6))) by { assert(rank_entry(6).len() > a.len()); }
    lemma_not_prefix(a, rank_entry(7), 1);
    lemma_not_prefix(a, rank_entry(8), 1);
    assert(!starts_with(a, rank_entry(9))) by { assert(rank_entry(9).len() > a.len()); }
    assert(!starts_with(a, rank_entry(10))) by { assert(rank_entry(10).len() > a.len()); }
    assert(!starts_with(a, rank_entry(11))) by { assert(rank_entry(11).len() > a.len()); }
    assert(!starts_with(a, rank_entry(12))) by { assert(rank_entry(12).len() > a.len()); }
    lemma_not_prefix(a, rank_entry(13), 3);
    assert(a.subrange(0, 4) =~= rank_entry(14));
    assert forall|k: int| 0 <= k < 14 implies !starts_with(a, #[trigger] rank_entry(k)) by {
        if k == 0 {}
        if k == 1 {}
        if k == 2 {}
        if k == 3 {}
        if k == 4 {}
        if k == 5 {}
        if k == 6 {}
        if k == 7 {}
        if k == 8 {}
        if k == 9 {}
        if k == 10 {}
        if k == 11 {}
        if k == 12 {}
        if k == 13 {}
    }
    lemma_rank_from_at(a, 0, 14);
    reveal_with_fuel(label_chars, 8);
    lemma_upper_fixed(a);
}

proof fn lemma_rank_15()
    ensures
        rank_of_upper(upper_text("Q3_K_L"@)) == 15,
{
    reveal_strlit("Q3_K_L");
    reveal_strlit("F32");
    reveal_strlit("BF16");
    reveal_strlit("F16");
    reveal_strlit("Q8_0");
    reveal_strlit("Q6_K");
    reveal_strlit("Q5_K_M");
    reveal_strlit("Q5_K_S");
    reveal_strlit("Q5_0");
    reveal_strlit("Q5_1");
    reveal_strlit("Q4_K_M");
    reveal_strlit("Q4_K_S");
    reveal_strlit("IQ4_XS");
    reveal_strlit("IQ4_NL");
    reveal_strlit("Q4_0");
    reveal_strlit("Q4_1");
    let a = "Q3_K_L"@;
    lemma_not_prefix(a, rank_entry(0), 0);
    lemma_not_prefix(a, rank_entry(1), 0);
    lemma_not_prefix(a, rank_entry(2), 0);
    lemma_not_prefix(a, rank_entry(3), 1);
    lemma_not_prefix(a, rank_entry(4), 1);
    lemma_not_prefix(a, rank_entry(5), 1);
    lemma_not_prefix(a, rank_entry(6), 1);
    lemma_not_prefix(a, rank_entry(7), 1);
    lemma_not_prefix(a, rank_entry(8), 1);
    lemma_not_prefix(a, rank_entry(9), 1);
    lemma_not_prefix(a, rank_entry(10), 1);
    lemma_not_prefix(a, rank_entry(11), 0);
    lemma_not_prefix(a, rank_entry(12), 0);
    lemma_not_prefix(a, rank_entry(13), 1);
    lemma_not_prefix(a, rank_entry(14), 1);
    assert(a.subrange(0, 6) =~= rank_entry(15));
    assert forall|k: int| 0 <= k < 15 implies !starts_with(a, #[trigger] rank_entry(k)) by {
        if k == 0 {}
        if k == 1 {}
        if k == 2 {}
        if k == 3 {}
        if k == 4 {}
        if k == 5 {}
        if k == 6 {}
        if k == 7 {}
        if k == 8 {}
        if k == 9 {}
        if k == 10 {}
        if k == 11 {}
        if k == 12 {}
        if k == 13 {}
        if k == 14 {}
    }
    lemma_rank_from_at(a, 0, 15);
    reveal_with_fuel(label_chars, 8);
    lemma_upper_fixed(a);
}

proof fn lemma_rank_16()
    ensures
        rank_of_upper(upper_text("Q3_K_M"@)) == 16,
{
    reveal_strlit("Q3_K_M");
    reveal_strlit("F32");
    reveal_strlit("BF16");
    reveal_strlit("F16");
    reveal_strlit("Q8_0");
    reveal_strlit("Q6_K");
    reveal_strlit("Q5_K_M");
    reveal_strlit("Q5_K_S");
    reveal_strlit("Q5_0");
    reveal_strlit("Q5_1");
    reveal_strlit("Q4_K_M");
    reveal_strlit("Q4_K_S");
    reveal_strlit("IQ4_XS");
    reveal_strlit("IQ4_NL");
    reveal_strlit("Q4_0");
    reveal_strlit("Q4_1");
    reveal_strlit("Q3_K_L");
    let a = "Q3_K_M"@;
    lemma_not_prefix(a, rank_entry(0), 0);
    lemma_not_prefix(a, rank_entry(1), 0);
    lemma_not_prefix(a, rank_entry(2), 0);
    lemma_not_prefix(a, rank_entry(3), 1);
    lemma_not_prefix(a, rank_entry(4), 1);
    lemma_not_prefix(a, rank_entry(5), 1);
    lemma_not_prefix(a, rank_entry(6), 1);
    lemma_not_prefix(a, rank_entry(7), 1);
    lemma_not_prefix(a, rank_entry(8), 1);
    lemma_not_prefix(a, rank_entry(9), 1);
    lemma_not_prefix(a, rank_entry(10), 1);
    lemma_not_prefix(a, rank_entry(11), 0);
    lemma_not_prefix(a, rank_entry(12), 0);
    lemma_not_prefix(a, rank_entry(13), 1);
    lemma_not_prefix(a, rank_entry(14), 1);
    lemma_not_prefix(a, rank_entry(15), 5);
    assert(a.subrange(0, 6) =~= rank_entry(16));
    assert forall|k: int| 0 <= k < 16 implies !starts_with(a, #[trigger] rank_entry(k)) by {
        if k == 0 {}
        if k == 1 {}
        if k == 2 {}
        if k == 3 {}
        if k == 4 {}
        if k == 5 {}
        if k == 6 {}
        if k == 7 {}
        if k == 8 {}
        if k == 9 {}
        if k == 10 {}
        if k == 11 {}
        if k == 12 {}
        if k == 13 {}
        if k == 14 {}
        if k == 15 {}
    }
    lemma_rank_from_at(a, 0, 16);
    reveal_with_fuel(label_chars, 8);
    lemma_upper_fixed(a);
}

proof fn lemma_rank_17()
    ensures
        rank_of_upper(upper_text("Q3_K_S"@)) == 17,
{
    reveal_strlit("Q3_K_S");
    reveal_strlit("F32");
    reveal_strlit("BF16");
    reveal_strlit("F16");
    reveal_strlit("Q8_0");
    reveal_strlit("Q6_K");
    reveal_strlit("Q5_K_M");
    reveal_strlit("Q5_K_S");
    reveal_strlit("Q5_0");
    reveal_strlit("Q5_1");
    reveal_strlit("Q4_K_M");
    reveal_strlit("Q4_K_S");
    reveal_strlit("IQ4_XS");
    reveal_strlit("IQ4_NL");
    reveal_strlit("Q4_0");
    reveal_strlit("Q4_1");
    reveal_strlit("Q3_K_L");
    reveal_strlit("Q3_K_M");
    let a = "Q3_K_S"@;
    lemma_not_prefix(a, rank_entry(0), 0);
    lemma_not_prefix(a, rank_entry(1), 0);
    lemma_not_prefix(a, rank_entry(2), 0);
    lemma_not_prefix(a, rank_entry(3), 1);
    lemma_not_prefix(a, rank_entry(4), 1);
    lemma_not_prefix(a, rank_entry(5), 1);
    lemma_not_prefix(a, rank_entry(6), 1);
    lemma_not_prefix(a, rank_entry(7), 1);
    lemma_not_prefix(a, rank_entry(8), 1);
    lemma_not_prefix(a, rank_entry(9), 1);
    lemma_not_prefix(a, rank_entry(10), 1);
    lemma_not_prefix(a, rank_entry(11), 0);
    lemma_not_prefix(a, rank_entry(12), 0);
    lemma_not_prefix(a, rank_entry(13), 1);
    lemma_not_prefix(a, rank_entry(14), 1);
    lemma_not_prefix(a, rank_entry(15), 5);
    lemma_not_prefix(a, rank_entry(16), 5);
    assert(a.subrange(0, 6) =~= rank_entry(17));
    assert forall|k: int| 0 <= k < 17 implies !starts_with(a, #[trigger] rank_entry(k)) by {
        if k == 0 {}
        if k == 1 {}
        if k == 2 {}
        if k == 3 {}
        if k == 4 {}
        if k == 5 {}
        if k == 6 {}
        if k == 7 {}
        if k == 8 {}
        if k == 9 {}
        if k == 10 {}
        if k == 11 {}
        if k == 12 {}
        if k == 13 {}
        if k == 14 {}
        if k == 15 {}
        if k == 16 {}
    }
    lemma_rank_from_at(a, 0, 17);
    reveal_with_fuel(label_chars, 8);
    lemma_upper_fixed(a);
}

proof fn lemma_rank_18()
    ensures
        rank_of_upper(upper_text("IQ3_M"@)) == 18,
{
    reveal_strlit("IQ3_M");
    reveal_strlit("F32");
    reveal_strlit("BF16");
    reveal_strlit("F16");
    reveal_strlit("Q8_0");
    reveal_strlit("Q6_K");
    reveal_strlit("Q5_K_M");
    reveal_strlit("Q5_K_S");
    reveal_strlit("Q5_0");
    reveal_strlit("Q5_1");
    reveal_strlit("Q4_K_M");
    reveal_strlit("Q4_K_S");
    reveal_strlit("IQ4_XS");
    reveal_strlit("IQ4_NL");
    reveal_strlit("Q4_0");
    reveal_strlit("Q4_1");
    reveal_strlit("Q3_K_L");
    reveal_strlit("Q3_K_M");
    reveal_strlit("Q3_K_S");
    let a = "IQ3_M"@;
    lemma_not_prefix(a, rank_entry(0), 0);
    lemma_not_prefix(a, rank_entry(1), 0);
    lemma_not_prefix(a, rank_entry(2), 0);
    lemma_not_prefix(a, rank_entry(3), 0);
    lemma_not_prefix(a, rank_entry(4), 0);
    assert(!starts_with(a, rank_entry(5))) by { assert(rank_entry(5).len() > a.len()); }
    assert(!starts_with(a, rank_entry(6))) by { assert(rank_entry(6).len() > a.len()); }
    lemma_not_prefix(a, rank_entry(7), 0);
    lemma_not_prefix(a, rank_entry(8), 0);
    assert(!starts_with(a, rank_entry(9))) by { assert(rank_entry(9).len() > a.len()); }
    assert(!starts_with(a, rank_entry(10))) by { assert(rank_entry(10).len() > a.len()); }
    assert(!starts_with(a, rank_entry(11))) by { assert(rank_entry(11).len() > a.len()); }
    assert(!starts_with(a, rank_entry(12))) by { assert(rank_entry(12).len() > a.len()); }
    lemma_not_prefix(a, rank_entry(13), 0);
    lemma_not_prefix(a, rank_entry(14), 0);
    assert(!starts_with(a, rank_entry(15))) by { assert(rank_entry(15).len() > a.len()); }
    assert(!starts_with(a, rank_entry(16))) by { assert(rank_entry(16).len() > a.len()); }
    assert(!starts_with(a, rank_entry(17))) by { assert(rank_entry(17).len() > a.len()); }
    assert(a.subrange(0, 5) =~= rank_entry(18));
    assert forall|k: int| 0 <= k < 18 implies !starts_with(a, #[trigger] rank_entry(k)) by {
        if k == 0 {}
        if k == 1 {}
        if k == 2 {}
        if k == 3 {}
        if k == 4 {}
        if k == 5 {}
        if k == 6 {}
        if k == 7 {}
        if k == 8 {}
        if k == 9 {}
        if k == 10 {}
        if k == 11 {}
        if k == 12 {}
        if k == 13 {}
        if k == 14 {}
        if k == 15 {}
        if k == 16 {}
        if k == 17 {}
    }
    lemma_rank_from_at(a, 0, 18);
    reveal_with_fuel(label_chars, 8);
    lemma_upper_fixed(a);
}

proof fn lemma_rank_19()
    ensures
        rank_of_upper(upper_text("IQ3_S"@)) == 19,
{
    reveal_strlit("IQ3_S");
    reveal_strlit("F32");
    reveal_strlit("BF16");
    reveal_strlit("F16");
    reveal_strlit("Q8_0");
    reveal_strlit("Q6_K");
    reveal_strlit("Q5_K_M");
    reveal_strlit("Q5_K_S");
    reveal_strlit("Q5_0");
    reveal_strlit("Q5_1");
    reveal_strlit("Q4_K_M");
    reveal_strlit("Q4_K_S");
    reveal_strlit("IQ4_XS");
    reveal_strlit("IQ4_NL");
    reveal_strlit("Q4_0");
    reveal_strlit("Q4_1");
    reveal_strlit("Q3_K_L");
    reveal_strlit("Q3_K_M");
    reveal_strlit("Q3_K_S");
    reveal_strlit("IQ3_M");
    let a = "IQ3_S"@;
    lemma_not_prefix(a, rank_entry(0), 0);
    lemma_not_prefix(a, rank_entry(1), 0);
    lemma_not_prefix(a, rank_entry(2), 0);
    lemma_not_prefix(a, rank_entry(3), 0);
    lemma_not_prefix(a, rank_entry(4), 0);
    assert(!starts_with(a, rank_entry(5))) by { assert(rank_entry(5).len() > a.len()); }
    assert(!starts_with(a, rank_entry(6))) by { assert(rank_entry(6).len() > a.len()); }
    lemma_not_prefix(a, rank_entry(7), 0);
    lemma_not_prefix(a, rank_entry(8), 0);
    assert(!starts_with(a, rank_entry(9))) by { assert(rank_entry(9).len() > a.len()); }
    assert(!starts_with(a, rank_entry(10))) by { assert(rank_entry(10).len() > a.len()); }
    assert(!starts_with(a, rank_entry(11))) by { assert(rank_entry(11).len() > a.len()); }
    assert(!starts_with(a, rank_entry(12))) by { assert(rank_entry(12).len() > a.len()); }
    lemma_not_prefix(a, rank_entry(13), 0);
    lemma_not_prefix(a, rank_entry(14), 0);
    assert(!starts_with(a, rank_entry(15))) by { assert(rank_entry(15).len() > a.len()); }
    assert(!starts_with(a, rank_entry(16))) by { assert(rank_entry(16).len() > a.len()); }
    assert(!starts_with(a, rank_entry(17))) by { assert(rank_entry(17).len() > a.len()); }
    lemma_not_prefix(a, rank_entry(18), 4);
    assert(a.subrange(0, 5) =~= rank_entry(19));
    assert forall|k: int| 0 <= k < 19 implies !starts_with(a, #[trigger] rank_entry(k)) by {
        if k == 0 {}
        if k == 1 {}
        if k == 2 {}
        if k == 3 {}
        if k == 4 {}
        if k == 5 {}
        if k == 6 {}
        if k == 7 {}
        if k == 8 {}
        if k == 9 {}
        if k == 10 {}
        if k == 11 {}
        if k == 12 {}
        if k == 13 {}
        if k == 14 {}
        if k == 15 {}
        if k == 16 {}
        if k == 17 {}
        if k == 18 {}
    }
    lemma_rank_from_at(a, 0, 19);
    reveal_with_fuel(label_chars, 8);
    lemma_upper_fixed(a);
}

proof fn lemma_rank_20()
    ensures
        rank_of_upper(upper_text("IQ3_XS"@)) == 20,
{
    reveal_strlit("IQ3_XS");
    reveal_strlit("F32");
    reveal_strlit("BF16");
    reveal_strlit("F16");
    reveal_strlit("Q8_0");
    reveal_strlit("Q6_K");
    reveal_strlit("Q5_K_M");
    reveal_strlit("Q5_K_S");
    reveal_strlit("Q5_0");
    reveal_strlit("Q5_1");
    reveal_strlit("Q4_K_M");
    reveal_strlit("Q4_K_S");
    reveal_strlit("IQ4_XS");
    reveal_strlit("IQ4_NL");
    reveal_strlit("Q4_0");
    reveal_strlit("Q4_1");
    reveal_strlit("Q3_K_L");
    reveal_strlit("Q3_K_M");
    reveal_strlit("Q3_K_S");
    reveal_strlit("IQ3_M");
    reveal_strlit("IQ3_S");
    let a = "IQ3_XS"@;
    lemma_not_prefix(a, rank_entry(0), 0);
    lemma_not_prefix(a, rank_entry(1), 0);
    lemma_not_prefix(a, rank_entry(2), 0);
    lemma_not_prefix(a, rank_entry(3), 0);
    lemma_not_prefix(a, rank_entry(4), 0);
    lemma_not_prefix(a, rank_entry(5), 0);
    lemma_not_prefix(a, rank_entry(6), 0);
    lemma_not_prefix(a, rank_entry(7), 0);
    lemma_not_prefix(a, rank_entry(8), 0);
    lemma_not_prefix(a, rank_entry(9), 0);
    lemma_not_prefix(a, rank_entry(10), 0);
    lemma_not_prefix(a, rank_entry(11), 2);
    lemma_not_prefix(a, rank_entry(12), 2);
    lemma_not_prefix(a, rank_entry(13), 0);
    lemma_not_prefix(a, rank_entry(14), 0);
    lemma_not_prefix(a, rank_entry(15), 0);
    lemma_not_prefix(a, rank_entry(16), 0);
    lemma_not_prefix(a, rank_entry(17), 0);
    lemma_not_prefix(a, rank_entry(18), 4);
    lemma_not_prefix(a, rank_entry(19), 4);
    assert(a.subrange(0, 6) =~= rank_entry(20));
    assert forall|k: int| 0 <= k < 20 implies !starts_with(a, #[trigger] rank_entry(k)) by {
        if k == 0 {}
        if k == 1 {}
        if k == 2 {}
        if k == 3 {}
        if k == 4 {}
        if k == 5 {}
        if k == 6 {}
        if k == 7 {}
        if k == 8 {}
        if k == 9 {}
        if k == 10 {}
        if k == 11 {}
        if k == 12 {}
        if k == 13 {}
        if k == 14 {}
        if k == 15 {}
        if k == 16 {}
        if k == 17 {}
        if k == 18 {}
        if k == 19 {}
    }
    lemma_rank_from_at(a, 0, 20);
    reveal_with_fuel(label_chars, 8);
    lemma_upper_fixed(a);
}

proof fn lemma_rank_21()
    ensures
        rank_of_upper(upper_text("IQ3_XXS"@)) == 21,
{
    reveal_strlit("IQ3_XXS");
    reveal_strlit("F32");
    reveal_strlit("BF16");
    reveal_strlit("F16");
    reveal_strlit("Q8_0");
    reveal_strlit("Q6_K");
    reveal_strlit("Q5_K_M");
    reveal_strlit("Q5_K_S");
    reveal_strlit("Q5_0");
    reveal_strlit("Q5_1");
    reveal_strlit("Q4_K_M");
    reveal_strlit("Q4_K_S");
    reveal_strlit("IQ4_XS");
    reveal_strlit("IQ4_NL");
    reveal_strlit("Q4_0");
    reveal_strlit("Q4_1");
    reveal_strlit("Q3_K_L");
    reveal_strlit("Q3_K_M");
    reveal_strlit("Q3_K_S");
    reveal_strlit("IQ3_M");
    reveal_strlit("IQ3_S");
    reveal_strlit("IQ3_XS");
    let a = "IQ3_XXS"@;
    lemma_not_prefix(a, rank_entry(0), 0);
    lemma_not_prefix(a, rank_entry(1), 0);
    lemma_not_prefix(a, rank_entry(2), 0);
    lemma_not_prefix(a, rank_entry(3), 0);
    lemma_not_prefix(a, rank_entry(4), 0);
    lemma_not_prefix(a, rank_entry(5), 0);
    lemma_not_prefix(a, rank_entry(6), 0);
    lemma_not_prefix(a, rank_entry(7), 0);
    lemma_not_prefix(a, rank_entry(8), 0);
    lemma_not_prefix(a, rank_entry(9), 0);
    lemma_not_prefix(a, rank_entry(10), 0);
    lemma_not_prefix(a, rank_entry(11), 2);
    lemma_not_prefix(a, rank_entry(12), 2);
    lemma_not_prefix(a, rank_entry(13), 0);
    lemma_not_prefix(a, rank_entry(14), 0);
    lemma_not_prefix(a, rank_entry(15), 0);
    lemma_not_prefix(a, rank_entry(16), 0);
    lemma_not_prefix(a, rank_entry(17), 0);
    lemma_not_prefix(a, rank_entry(18), 4);
    lemma_not_prefix(a, rank_entry(19), 4);
    lemma_not_prefix(a, rank_entry(20), 5);
    assert(a.subrange(0, 7) =~= rank_entry(21));
    assert forall|k: int| 0 <= k < 21 implies !starts_with(a, #[trigger] rank_entry(k)) by {
        if k == 0 {}
        if k == 1 {}
        if k == 2 {}
        if k == 3 {}
        if k == 4 {}
        if k == 5 {}
        if k == 6 {}
        if k == 7 {}
        if k == 8 {}
        if k == 9 {}
        if k == 10 {}
        if k == 11 {}
        if k == 12 {}
        if k == 13 {}
        if k == 14 {}
        if k == 15 {}
        if k == 16 {}
        if k == 17 {}
        if k == 18 {}
        if k == 19 {}
        if k == 20 {}
    }
    lemma_rank_from_at(a, 0, 21);
    reveal_with_fuel(label_chars, 8);
    lemma_upper_fixed(a);
}

proof fn lemma_rank_22()
    ensures
        rank_of_upper(upper_text("Q2_K"@)) == 22,
{
    reveal_strlit("Q2_K");
    reveal_strlit("F32");
    reveal_strlit("BF16");
    reveal_strlit("F16");
    reveal_strlit("Q8_0");
    reveal_strlit("Q6_K");
    reveal_strlit("Q5_K_M");
    reveal_strlit("Q5_K_S");
    reveal_strlit("Q5_0");
    reveal_strlit("Q5_1");
    reveal_strlit("Q4_K_M");
    reveal_strlit("Q4_K_S");
    reveal_strlit("IQ4_XS");
    reveal_strlit("IQ4_NL");
    reveal_strlit("Q4_0");
    reveal_strlit("Q4_1");
    reveal_strlit("Q3_K_L");
    reveal_strlit("Q3_K_M");
    reveal_strlit("Q3_K_S");
    reveal_strlit("IQ3_M");
    reveal_strlit("IQ3_S");
    reveal_strlit("IQ3_XS");
    reveal_strlit("IQ3_XXS");
    let a = "Q2_K"@;
    lemma_not_prefix(a, rank_entry(0), 0);
    lemma_not_prefix(a, rank_entry(1), 0);
    lemma_not_prefix(a, rank_entry(2), 0);
    lemma_not_prefix(a, rank_entry(3), 1);
    lemma_not_prefix(a, rank_entry(4), 1);
    assert(!starts_with(a, rank_entry(5))) by { assert(rank_entry(5).len() > a.len()); }
    assert(!starts_with(a, rank_entry(6))) by { assert(rank_entry(6).len() > a.len()); }
    lemma_not_prefix(a, rank_entry(7), 1);
    lemma_not_prefix(a, rank_entry(8), 1);
    assert(!starts_with(a, rank_entry(9))) by { assert(rank_entry(9).len() > a.len()); }
    assert(!starts_with(a, rank_entry(10))) by { assert(rank_entry(10).len() > a.len()); }
    assert(!starts_with(a, rank_entry(11))) by { assert(rank_entry(11).len() > a.len()); }
    assert(!starts_with(a, rank_entry(12))) by { assert(rank_entry(12).len() > a.len()); }
    lemma_not_prefix(a, rank_entry(13), 1);
    lemma_not_prefix(a, rank_entry(14), 1);
    assert(!starts_with(a, rank_entry(15))) by { assert(rank_entry(15).len() > a.len()); }
    assert(!starts_with(a, rank_entry(16))) by { assert(rank_entry(16).len() > a.len()); }
    assert(!starts_with(a, rank_entry(17))) by { assert(rank_entry(17).len() > a.len()); }
    assert(!starts_with(a, rank_entry(18))) by { assert(rank_entry(18).len() > a.len()); }
    assert(!starts_with(a, rank_entry(19))) by { assert(rank_entry(19).len() > a.len()); }
    assert(!starts_with(a, rank_entry(20))) by { assert(rank_entry(20).len() > a.len()); }
    assert(!starts_with(a, rank_entry(21))) by { assert(rank_entry(21).len() > a.len()); }
    assert(a.subrange(0, 4) =~= rank_entry(22));
    assert forall|k: int| 0 <= k < 22 implies !starts_with(a, #[trigger] rank_entry(k)) by {
        if k == 0 {}
        if k == 1 {}
        if k == 2 {}
        if k == 3 {}
        if k == 4 {}
        if k == 5 {}
        if k == 6 {}
        if k == 7 {}
        if k == 8 {}
        if k == 9 {}
        if k == 10 {}
        if k == 11 {}
        if k == 12 {}
        if k == 13 {}
        if k == 14 {}
        if k == 15 {}
        if k == 16 {}
        if k == 17 {}
        if k == 18 {}
        if k == 19 {}
        if k == 20 {}
        if k == 21 {}
    }
    lemma_rank_from_at(a, 0, 22);
    reveal_with_fuel(label_chars, 8);
    lemma_upper_fixed(a);
}

proof fn lemma_rank_23()
    ensures
        rank_of_upper(upper_text("Q2_K_S"@)) == 22,
{
    reveal_strlit("Q2_K_S");
    reveal_strlit("Q2_K");
    reveal_strlit("F32");
    reveal_strlit("BF16");
    reveal_strlit("F16");
    reveal_strlit("Q8_0");
    reveal_strlit("Q6_K");
    reveal_strlit("Q5_K_M");
    reveal_strlit("Q5_K_S");
    reveal_strlit("Q5_0");
    reveal_strlit("Q5_1");
    reveal_strlit("Q4_K_M");
    reveal_strlit("Q4_K_S");
    reveal_strlit("IQ4_XS");
    reveal_strlit("IQ4_NL");
    reveal_strlit("Q4_0");
    reveal_strlit("Q4_1");
    reveal_strlit("Q3_K_L");
    reveal_strlit("Q3_K_M");
    reveal_strlit("Q3_K_S");
    reveal_strlit("IQ3_M");
    reveal_strlit("IQ3_S");
    reveal_strlit("IQ3_XS");
    reveal_strlit("IQ3_XXS");
    let a = "Q2_K_S"@;
    lemma_not_prefix(a, rank_entry(0), 0);
    lemma_not_prefix(a, rank_entry(1), 0);
    lemma_not_prefix(a, rank_entry(2), 0);
    lemma_not_prefix(a, rank_entry(3), 1);
    lemma_not_prefix(a, rank_entry(4), 1);
    lemma_not_prefix(a, rank_entry(5), 1);
    lemma_not_prefix(a, rank_entry(6), 1);
    lemma_not_prefix(a, rank_entry(7), 1);
    lemma_not_prefix(a, rank_entry(8), 1);
    lemma_not_prefix(a, rank_entry(9), 1);
    lemma_not_prefix(a, rank_entry(10), 1);
    lemma_not_prefix(a, rank_entry(11), 0);
    lemma_not_prefix(a, rank_entry(12), 0);
    lemma_not_prefix(a, rank_entry(13), 1);
    lemma_not_prefix(a, rank_entry(14), 1);
    lemma_not_prefix(a, rank_entry(15), 1);
    lemma_not_prefix(a, rank_entry(16), 1);
    lemma_not_prefix(a, rank_entry(17), 1);
    lemma_not_prefix(a, rank_entry(18), 0);
    lemma_not_prefix(a, rank_entry(19), 0);
    lemma_not_prefix(a, rank_entry(20), 0);
    assert(!starts_with(a, rank_entry(21))) by { assert(rank_entry(21).len() > a.len()); }
    assert(a.subrange(0, 4) =~= rank_entry(22));
    assert forall|k: int| 0 <= k < 22 implies !starts_with(a, #[trigger] rank_entry(k)) by {
        if k == 0 {}
        if k == 1 {}
        if k == 2 {}
        if k == 3 {}
        if k == 4 {}
        if k == 5 {}
        if k == 6 {}
        if k == 7 {}
        if k == 8 {}
        if k == 9 {}
        if k == 10 {}
        if k == 11 {}
        if k == 12 {}
        if k == 13 {}
        if k == 14 {}
        if k == 15 {}
        if k == 16 {}
        if k == 17 {}
        if k == 18 {}
        if k == 19 {}
        if k == 20 {}
        if k == 21 {}
    }
    lemma_rank_from_at(a, 0, 22);
    reveal_with_fuel(label_chars, 8);
    lemma_upper_fixed(a);
}

proof fn lemma_rank_24()
    ensures
        rank_of_upper(upper_text("IQ2"@)) == 24,
{
    reveal_strlit("IQ2");
    reveal_strlit("F32");
    reveal_strlit("BF16");
    reveal_strlit("F16");
    reveal_strlit("Q8_0");
    reveal_strlit("Q6_K");
    reveal_strlit("Q5_K_M");
    reveal_strlit("Q5_K_S");
    reveal_strlit("Q5_0");
    reveal_strlit("Q5_1");
    reveal_strlit("Q4_K_M");
    reveal_strlit("Q4_K_S");
    reveal_strlit("IQ4_XS");
    reveal_strlit("IQ4_NL");
    reveal_strlit("Q4_0");
    reveal_strlit("Q4_1");
    reveal_strlit("Q3_K_L");
    reveal_strlit("Q3_K_M");
    reveal_strlit("Q3_K_S");
    reveal_strlit("IQ3_M");
    reveal_strlit("IQ3_S");
    reveal_strlit("IQ3_XS");
    reveal_strlit("IQ3_XXS");
    reveal_strlit("Q2_K");
    reveal_strlit("Q2_K_S");
    let a = "IQ2"@;
    lemma_not_prefix(a, rank_entry(0), 0);
    assert(!starts_with(a, rank_entry(1))) by { assert(rank_entry(1).len() > a.len()); }
    lemma_not_prefix(a, rank_entry(2), 0);
    assert(!starts_with(a, rank_entry(3))) by { assert(rank_entry(3).len() > a.len()); }
    assert(!starts_with(a, rank_entry(4))) by { assert(rank_entry(4).len() > a.len()); }
    assert(!starts_with(a, rank_entry(5))) by { assert(rank_entry(5).len() > a.len()); }
    assert(!starts_with(a, rank_entry(6))) by { assert(rank_entry(6).len() > a.len()); }
    assert(!starts_with(a, rank_entry(7))) by { assert(rank_entry(7).len() > a.len()); }
    assert(!starts_with(a, rank_entry(8))) by { assert(rank_entry(8).len() > a.len()); }
    assert(!starts_with(a, rank_entry(9))) by { assert(rank_entry(9).len() > a.len()); }
    assert(!starts_with(a, rank_entry(10))) by { assert(rank_entry(10).len() > a.len()); }
    assert(!starts_with(a, rank_entry(11))) by { assert(rank_entry(11).len() > a.len()); }
    assert(!starts_with(a, rank_entry(12))) by { assert(rank_entry(12).len() > a.len()); }
    assert(!starts_with(a, rank_entry(13))) by { assert(rank_entry(13).len() > a.len()); }
    assert(!starts_with(a, rank_entry(14))) by { assert(rank_entry(14).len() > a.len()); }
    assert(!starts_with(a, rank_entry(15))) by { assert(rank_entry(15).len() > a.len()); }
    assert(!starts_with(a, rank_entry(16))) by { assert(rank_entry(16).len() > a.len()); }
    assert(!starts_with(a, rank_entry(17))) by { assert(rank_entry(17).len() > a.len()); }
    assert(!starts_with(a, rank_entry(18))) by { assert(rank_entry(18).len() > a.len()); }
    assert(!starts_with(a, rank_entry(19))) by { assert(rank_entry(19).len() > a.len()); }
    assert(!starts_with(a, rank_entry(20))) by { assert(rank_entry(20).len() > a.len()); }
    assert(!starts_with(a, rank_entry(21))) by { assert(rank_entry(21).len() > a.len()); }
    assert(!starts_with(a, rank_entry(22))) by { assert(rank_entry(22).len() > a.len()); }
    assert(!starts_with(a, rank_entry(23))) by { assert(rank_entry(23).len() > a.len()); }
    assert(a.subrange(0, 3) =~= rank_entry(24));
    assert forall|k: int| 0 <= k < 24 implies !starts_with(a, #[trigger] rank_entry(k)) by {
        if k == 0 {}
        if k == 1 {}
        if k == 2 {}
        if k == 3 {}
        if k == 4 {}
        if k == 5 {}
        if k == 6 {}
        if k == 7 {}
        if k == 8 {}
        if k == 9 {}
        if k == 10 {}
        if k == 11 {}
        if k == 12 {}
        if k == 13 {}
        if k == 14 {}
        if k == 15 {}
        if k == 16 {}
        if k == 17 {}
        if k == 18 {}
        if k == 19 {}
        if k == 20 {}
        if k == 21 {}
        if k == 22 {}
        if k == 23 {}
    }
    lemma_rank_from_at(a, 0, 24);
    reveal_with_fuel(label_chars, 8);
    lemma_upper_fixed(a);
}

proof fn lemma_rank_25()
    ensures
        rank_of_upper(upper_text("IQ1"@)) == 25,
{
    reveal_strlit("IQ1");
    reveal_strlit("F32");
    reveal_strlit("BF16");
    reveal_strlit("F16");
    reveal_strlit("Q8_0");
    reveal_strlit("Q6_K");
    reveal_strlit("Q5_K_M");
    reveal_strlit("Q5_K_S");
    reveal_strlit("Q5_0");
    reveal_strlit("Q5_1");
    reveal_strlit("Q4_K_M");
    reveal_strlit("Q4_K_S");
    reveal_strlit("IQ4_XS");
    reveal_strlit("IQ4_NL");
    reveal_strlit("Q4_0");
    reveal_strlit("Q4_1");
    reveal_strlit("Q3_K_L");
    reveal_strlit("Q3_K_M");
    reveal_strlit("Q3_K_S");
    reveal_strlit("IQ3_M");
    reveal_strlit("IQ3_S");
    reveal_strlit("IQ3_XS");
    reveal_strlit("IQ3_XXS");
    reveal_strlit("Q2_K");
    reveal_strlit("Q2_K_S");
    reveal_strlit("IQ2");
    let a = "IQ1"@;
    lemma_not_prefix(a, rank_entry(0), 0);
    assert(!starts_with(a, rank_entry(1))) by { assert(rank_entry(1).len() > a.len()); }
    lemma_not_prefix(a, rank_entry(2), 0);
    assert(!starts_with(a, rank_entry(3))) by { assert(rank_entry(3).len() > a.len()); }
    assert(!starts_with(a, rank_entry(4))) by { assert(rank_entry(4).len() > a.len()); }
    assert(!starts_with(a, rank_entry(5))) by { assert(rank_entry(5).len() > a.len()); }
    assert(!starts_with(a, rank_entry(6))) by { assert(rank_entry(6).len() > a.len()); }
    assert(!starts_with(a, rank_entry(7))) by { assert(rank_entry(7).len() > a.len()); }
    assert(!starts_with(a, rank_entry(8))) by { assert(rank_entry(8).len() > a.len()); }
    assert(!starts_with(a, rank_entry(9))) by { assert(rank_entry(9).len() > a.len()); }
    assert(!starts_with(a, rank_entry(10))) by { assert(rank_entry(10).len() > a.len()); }
    assert(!starts_with(a, rank_entry(11))) by { assert(rank_entry(11).len() > a.len()); }
    assert(!starts_with(a, rank_entry(12))) by { assert(rank_entry(12).len() > a.len()); }
    assert(!starts_with(a, rank_entry(13))) by { assert(rank_entry(13).len() > a.len()); }
    assert(!starts_with(a, rank_entry(14))) by { assert(rank_entry(14).len() > a.len()); }
    assert(!starts_with(a, rank_entry(15))) by { assert(rank_entry(15).len() > a.len()); }
    assert(!starts_with(a, rank_entry(16))) by { assert(rank_entry(16).len() > a.len()); }
    assert(!starts_with(a, rank_entry(17))) by { assert(rank_entry(17).len() > a.len()); }
    assert(!starts_with(a, rank_entry(18))) by { assert(rank_entry(18).len() > a.len()); }
    assert(!starts_with(a, rank_entry(19))) by { assert(rank_entry(19).len() > a.len()); }
    assert(!starts_with(a, rank_entry(20))) by { assert(rank_entry(20).len() > a.len()); }
    assert(!starts_with(a, rank_entry(21))) by { assert(rank_entry(21).len() > a.len()); }
    assert(!starts_with(a, rank_entry(22))) by { assert(rank_entry(22).len() > a.len()); }
    assert(!starts_with(a, rank_entry(23))) by { assert(rank_entry(23).len() > a.len()); }
    lemma_not_prefix(a, rank_entry(24), 2);
    assert(a.subrange(0, 3) =~= rank_entry(25));
    assert forall|k: int| 0 <= k < 25 implies !starts_with(a, #[trigger] rank_entry(k)) by {
        if k == 0 {}
        if k == 1 {}
        if k == 2 {}
        if k == 3 {}
        if k == 4 {}
        if k == 5 {}
        if k == 6 {}
        if k == 7 {}
        if k == 8 {}
        if k == 9 {}
        if k == 10 {}
        if k == 11 {}
        if k == 12 {}
        if k == 13 {}
        if k == 14 {}
        if k == 15 {}
        if k == 16 {}
        if k == 17 {}
        if k == 18 {}
        if k == 19 {}
        if k == 20 {}
        if k == 21 {}
        if k == 22 {}
        if k == 23 {}
        if k == 24 {}
    }
    lemma_rank_from_at(a, 0, 25);
    reveal_with_fuel(label_chars, 8);
    lemma_upper_fixed(a);
}

/// The preference order of quantization labels, best first: F32, BF16,
/// F16, Q8_0, Q6_K, Q5_K_M, Q5_K_S, Q5_0, Q5_1, Q4_K_M, Q4_K_S, IQ4_XS,
/// IQ4_NL, Q4_0, Q4_1, Q3_K_L, Q3_K_M, Q3_K_S, IQ3_M, IQ3_S, IQ3_XS,
/// IQ3_XXS, Q2_K, Q2_K_S, IQ2, IQ1. Each ranks before the next, but Q2_K_S,
/// which begins with Q2_K, ranks with it; every one ranks before an unknown
/// label (500). Of the K-quants of one size the medium one (file types 12,
/// 15, 17) ranks before the small one (11, 14, 16).
pub proof fn lemma_quant_order()
    ensures
        rank_of_upper(upper_text("F32"@)) < rank_of_upper(upper_text("BF16"@)),
        rank_of_upper(upper_text("BF16"@)) < rank_of_upper(upper_text("F16"@)),
        rank_of_upper(upper_text("F16"@)) < rank_of_upper(upper_text("Q8_0"@)),
        rank_of_upper(upper_text("Q8_0"@)) < rank_of_upper(upper_text("Q6_K"@)),
        rank_of_upper(upper_text("Q6_K"@)) < rank_of_upper(upper_text("Q5_K_M"@)),
        rank_of_upper(upper_text("Q5_K_M"@)) < rank_of_upper(upper_text("Q5_K_S"@)),
        rank_of_upper(upper_text("Q5_K_S"@)) < rank_of_upper(upper_text("Q5_0"@)),
        rank_of_upper(upper_text("Q5_0"@)) < rank_of_upper(upper_text("Q5_1"@)),
        rank_of_upper(upper_text("Q5_1"@)) < rank_of_upper(upper_text("Q4_K_M"@)),
        rank_of_upper(upper_text("Q4_K_M"@)) < rank_of_upper(upper_text("Q4_K_S"@)),
        rank_of_upper(upper_text("Q4_K_S"@)) < rank_of_upper(upper_text("IQ4_XS"@)),
        rank_of_upper(upper_text("IQ4_XS"@)) < rank_of_upper(upper_text("IQ4_NL"@)),
        rank_of_upper(upper_text("IQ4_NL"@)) < rank_of_upper(upper_text("Q4_0"@)),
        rank_of_upper(upper_text("Q4_0"@)) < rank_of_upper(upper_text("Q4_1"@)),
        rank_of_upper(upper_text("Q4_1"@)) < rank_of_upper(upper_text("Q3_K_L"@)),
        rank_of_upper(upper_text("Q3_K_L"@)) < rank_of_upper(upper_text("Q3_K_M"@)),
        rank_of_upper(upper_text("Q3_K_M"@)) < rank_of_upper(upper_text("Q3_K_S"@)),
        rank_of_upper(upper_text("Q3_K_S"@)) < rank_of_upper(upper_text("IQ3_M"@)),
        rank_of_upper(upper_text("IQ3_M"@)) < rank_of_upper(upper_text("IQ3_S"@)),
        rank_of_upper(upper_text("IQ3_S"@)) < rank_of_upper(upper_text("IQ3_XS"@)),
        rank_of_upper(upper_text("IQ3_XS"@)) < rank_of_upper(upper_text("IQ3_XXS"@)),
        rank_of_upper(upper_text("IQ3_XXS"@)) < rank_of_upper(upper_text("Q2_K"@)),
        rank_of_upper(upper_text("Q2_K"@)) == rank_of_upper(upper_text("Q2_K_S"@)),
        rank_of_upper(upper_text("Q2_K_S"@)) < rank_of_upper(upper_text("IQ2"@)),
        rank_of_upper(upper_text("IQ2"@)) < rank_of_upper(upper_text("IQ1"@)),
        rank_of_upper(upper_text("IQ1"@)) < 500,
        rank_of_upper(upper_text(quant_label(12)->0)) < rank_of_upper(upper_text(quant_label(11)->0)),
        rank_of_upper(upper_text(quant_label(15)->0)) < rank_of_upper(upper_text(quant_label(14)->0)),
        rank_of_upper(upper_text(quant_label(17)->0)) < rank_of_upper(upper_text(quant_label(16)->0)),
{
    lemma_rank_0();
    lemma_rank_1();
    lemma_rank_2();
    lemma_rank_3();
    lemma_rank_4();
    lemma_rank_5();
    lemma_rank_6();
    lemma_rank_7();
    lemma_rank_8();
    lemma_rank_9();
    lemma_rank_10();
    lemma_rank_11();
    lemma_rank_12();
    lemma_rank_13();
    lemma_rank_14();
    lemma_rank_15();
    lemma_rank_16();
    lemma_rank_17();
    lemma_rank_18();
    lemma_rank_19();
    lemma_rank_20();
    lemma_rank_21();
    lemma_rank_22();
    lemma_rank_23();
    lemma_rank_24();
    lemma_rank_25();
}

} // verus!
