//! Graphics adapter and disk facts for the system monitor: which adapter
//! is the real GPU, read from what the system tools print.
use vstd::prelude::*;
use crate::text::{
    chars_of, string_from, trim, trimmed, contains, contains_seq, lines, split_lines, words,
    split_words, vviews, starts_with, has_prefix, parse_unsigned, parse_unsigned_exec, split_once,
    split_once_char, slice_vec, seq_eq,
};
use crate::unicode::{lower_text, to_lowercase};
use crate::config::opt_str;

verus! {

/// What is known of the graphics adapter.
#[derive(Debug)]
pub struct GpuInfo {
    pub name: Option<String>,
    pub vram_total: Option<u64>,
    pub unified: bool,
}

/// Adapter names of virtual, software or helper display devices.
pub open spec fn virtual_markers() -> Seq<Seq<char>> {
    seq![
        "virtual"@,
        "dummy"@,
        "indirect"@,
        "basic display"@,
        "basicrender"@,
        "基本显示"@,
        "vmware"@,
        "virtualbox"@,
        "vbox"@,
        "hyper-v"@,
        "qxl"@,
        "parsec"@,
    ]
}

/// The lower-cased name contains one of the markers.
pub open spec fn is_virtual_name(name: Seq<char>) -> bool {
    exists|i: int| 0 <= i < virtual_markers().len() && contains(lower_text(name), #[trigger] virtual_markers()[i])
}

/// Heuristic: does this adapter name belong to a virtual / software /
/// helper display device rather than a physical GPU?
pub fn gpu_name_is_virtual(name: &str) -> (r: bool)
    ensures
        r == is_virtual_name(name@),
{
    let markers: [&str; 12] = [
        "virtual",
        "dummy",
        "indirect",
        "basic display",
        "basicrender",
        "基本显示",
        "vmware",
        "virtualbox",
        "vbox",
        "hyper-v",
        "qxl",
        "parsec",
    ];
    let low = to_lowercase(name);
    let l = chars_of(low.as_str());
    let mut i: usize = 0;
    assert(markers@.len() == 12);
    while i < 12
        invariant
            i <= 12,
            l@ == lower_text(name@),
            markers@.len() == 12,
            forall|k: int| 0 <= k < 12 ==> (#[trigger] markers@[k])@ == virtual_markers()[k],
            forall|k: int| 0 <= k < i ==> !contains(l@, #[trigger] virtual_markers()[k]),
        decreases 12 - i,
    {
        let m = chars_of(markers[i]);
        if contains_seq(l.as_slice(), m.as_slice()) {
            return true;
        }
        i += 1;
    }
    false
}

// ---------------------------------------------------------------- nvidia

/// The best adapter of `nvidia-smi --query-gpu=name,memory.total` CSV
/// output: per line, the name before the last `,` and the MiB after it
/// (unparsable as 0); physical adapters with memory only; the first with
/// the most memory.
pub open spec fn smi_best(ls: Seq<Seq<char>>) -> Option<(Seq<char>, u64)>
    decreases ls.len(),
{
    if ls.len() == 0 {
        None
    } else {
        let best = smi_best(ls.drop_last());
        match smi_line(ls.last()) {
            Some((name, mib)) => if !is_virtual_name(name) && mib > 0 && (match best {
                Some((_, b)) => mib > b,
                None => true,
            }) {
                Some((name, mib))
            } else {
                best
            },
            None => best,
        }
    }
}

/// Last position of `c` in `s`, -1 when absent.
pub open spec fn last_index(s: Seq<char>, c: char) -> int
    decreases s.len(),
{
    if s.len() == 0 {
        -1
    } else if s.last() == c {
        s.len() - 1
    } else {
        last_index(s.drop_last(), c)
    }
}

/// The name and MiB of one CSV line (`rsplit_once(',')`, both trimmed, the
/// number 0 when it does not parse).
pub open spec fn smi_line(line: Seq<char>) -> Option<(Seq<char>, u64)> {
    let l = trim(line);
    let j = last_index(l, ',');
    if j < 0 {
        None
    } else {
        let name = trim(l.take(j));
        let mib = match parse_unsigned(trim(l.skip(j + 1)), u64::MAX as nat) {
            Some(n) => n as u64,
            None => 0,
        };
        Some((name, mib))
    }
}

fn last_index_exec(s: &[char], c: char) -> (r: Option<usize>)
    ensures
        match r {
            Some(j) => j < s.len() && last_index(s@, c) == j,
            None => last_index(s@, c) == -1,
        },
{
    let mut j = s.len();
    assert(s@.take(j as int) =~= s@);
    while j > 0 && s[j - 1] != c
        invariant
            j <= s.len(),
            last_index(s@, c) == last_index(s@.take(j as int), c),
        decreases j,
    {
        assert(s@.take(j as int).drop_last() =~= s@.take(j - 1));
        j -= 1;
    }
    if j == 0 {
        None
    } else {
        Some(j - 1)
    }
}

fn smi_line_exec(line: &[char]) -> (r: Option<(Vec<char>, u64)>)
    ensures
        match r {
            Some((n, m)) => smi_line(line@) == Some((n@, m)),
            None => smi_line(line@) is None,
        },
{
    let l = trimmed(line);
    match last_index_exec(l.as_slice(), ',') {
        None => None,
        Some(j) => {
            let head = slice_vec(l.as_slice(), 0, j);
            let tail = slice_vec(l.as_slice(), j + 1, l.len());
            assert(head@ =~= l@.take(j as int));
            assert(tail@ =~= l@.skip(j + 1));
            let name = trimmed(head.as_slice());
            let num = trimmed(tail.as_slice());
            let mib = match parse_unsigned_exec(num.as_slice(), u64::MAX) {
                Some(n) => n,
                None => 0,
            };
            Some((name, mib))
        },
    }
}

/// The physical adapter with the most memory that `nvidia-smi` lists: its
/// name and MiB.
pub fn best_smi_gpu(text: &str) -> (r: Option<(String, u64)>)
    ensures
        match r {
            Some((n, m)) => smi_best(lines(text@)) == Some((n@, m)),
            None => smi_best(lines(text@)) is None,
        },
{
    let t = chars_of(text);
    let ls = split_lines(t.as_slice());
    let mut best: Option<(Vec<char>, u64)> = None;
    let mut i: usize = 0;
    while i < ls.len()
        invariant
            i <= ls@.len(),
            vviews(ls@) == lines(text@),
            smi_best(vviews(ls@).take(i as int)) == match best {
                Some((n, m)) => Some((n@, m)),
                None => None,
            },
        decreases ls.len() - i,
    {
        assert(vviews(ls@).take(i + 1).drop_last() =~= vviews(ls@).take(i as int));
        assert(vviews(ls@).take(i + 1).last() == ls@[i as int]@);
        match smi_line_exec(ls[i].as_slice()) {
            Some((name, mib)) => {
                let ns = string_from(name.as_slice());
                let better = match &best {
                    Some((_, b)) => mib > *b,
                    None => true,
                };
                if !gpu_name_is_virtual(ns.as_str()) && mib > 0 && better {
                    best = Some((name, mib));
                }
            },
            None => {},
        }
        i += 1;
    }
    assert(vviews(ls@).take(ls.len() as int) =~= vviews(ls@));
    match best {
        Some((n, m)) => Some((string_from(n.as_slice()), m)),
        None => None,
    }
}

/// The adapter `nvidia-smi` reported, its MiB given in bytes.
pub fn smi_gpu_info(name: String, mib: u64) -> (r: GpuInfo)
    requires
        mib * 1048576 <= u64::MAX,
    ensures
        opt_str(r.name) == Some(name@),
        r.vram_total == Some((mib * 1048576) as u64),
        !r.unified,
{
    GpuInfo { name: Some(name), vram_total: Some(mib * 1024 * 1024), unified: false }
}

// -------------------------------------------------------------- registry

/// Adapter sub-keys of a `reg query` listing of the display class: the last
/// word of each line, when it is four ASCII digits.
pub open spec fn subkey_of(line: Seq<char>) -> Option<Seq<char>> {
    let ws = words(line);
    if ws.len() > 0 && ws.last().len() == 4 && (forall|k: int| 0 <= k < 4 ==> '0' <= #[trigger] ws.last()[k] <= '9') {
        Some(ws.last())
    } else {
        None
    }
}

pub open spec fn subkeys(ls: Seq<Seq<char>>) -> Seq<Seq<char>>
    decreases ls.len(),
{
    if ls.len() == 0 {
        Seq::empty()
    } else {
        match subkey_of(ls.last()) {
            Some(k) => subkeys(ls.drop_last()).push(k),
            None => subkeys(ls.drop_last()),
        }
    }
}

pub fn adapter_subkeys(listing: &str) -> (r: Vec<String>)
    ensures
        crate::config::str_views(r@) == subkeys(lines(listing@)),
{
    let t = chars_of(listing);
    let ls = split_lines(t.as_slice());
    let mut out: Vec<String> = Vec::new();
    let mut i: usize = 0;
    while i < ls.len()
        invariant
            i <= ls@.len(),
            vviews(ls@) == lines(listing@),
            crate::config::str_views(out@) == subkeys(vviews(ls@).take(i as int)),
        decreases ls.len() - i,
    {
        assert(vviews(ls@).take(i + 1).drop_last() =~= vviews(ls@).take(i as int));
        assert(vviews(ls@).take(i + 1).last() == ls@[i as int]@);
        let ws = split_words(ls[i].as_slice());
        if ws.len() > 0 {
            let last = &ws[ws.len() - 1];
            assert(vviews(ws@).last() == last@);
            let mut ok = last.len() == 4;
            let mut k: usize = 0;
            while ok && k < 4
                invariant
                    k <= 4,
                    ok ==> last@.len() == 4,
                    ok ==> forall|j: int| 0 <= j < k ==> '0' <= #[trigger] last@[j] <= '9',
                    !ok ==> !(last@.len() == 4 && (forall|j: int| 0 <= j < 4 ==> '0' <= #[trigger] last@[j] <= '9')),
                decreases 4 - k + if ok { 1int } else { 0 },
            {
                if !('0' <= last[k] && last[k] <= '9') {
                    ok = false;
                } else {
                    k += 1;
                }
            }
            if ok {
                let ghost before = crate::config::str_views(out@);
                out.push(string_from(last.as_slice()));
                assert(crate::config::str_views(out@) =~= before.push(last@));
            }
        }
        i += 1;
    }
    assert(vviews(ls@).take(ls.len() as int) =~= vviews(ls@));
    out
}

/// The data of registry value `value` in `reg query … /v value` output: on
/// the first line that starts (after leading spaces) with the value's name,
/// the words after the name and the type, joined by single spaces; none
/// when there are none.
pub open spec fn reg_value(text: Seq<char>, value: Seq<char>) -> Option<Seq<char>> {
    let ls = lines(text);
    let i = first_line_with(ls, value, 0);
    if i >= ls.len() {
        None
    } else {
        let ws = words(ls[i]);
        if ws.len() <= 2 {
            None
        } else {
            Some(joined_words(ws.skip(2)))
        }
    }
}

/// Index of the first line at or after `i` that starts, after leading
/// whitespace, with `p` (`ls.len()` when none does).
pub open spec fn first_line_with(ls: Seq<Seq<char>>, p: Seq<char>, i: int) -> int
    decreases ls.len() - i,
{
    if i < 0 || i >= ls.len() {
        ls.len() as int
    } else if starts_with(crate::text::trim_start(ls[i]), p) {
        i
    } else {
        first_line_with(ls, p, i + 1)
    }
}

/// Words joined by single spaces.
pub open spec fn joined_words(ws: Seq<Seq<char>>) -> Seq<char>
    decreases ws.len(),
{
    if ws.len() == 0 {
        Seq::empty()
    } else if ws.len() == 1 {
        ws[0]
    } else {
        joined_words(ws.drop_last()) + " "@ + ws.last()
    }
}

/// The data of registry value `value` in `reg query` output.
pub fn reg_query_value(text: &str, value: &str) -> (r: Option<String>)
    ensures
        opt_str(r) == reg_value(text@, value@),
{
    let t = chars_of(text);
    let ls = split_lines(t.as_slice());
    let p = chars_of(value);
    let mut i: usize = 0;
    while i < ls.len()
        invariant
            i <= ls@.len(),
            vviews(ls@) == lines(text@),
            p@ == value@,
            first_line_with(vviews(ls@), value@, 0) == first_line_with(vviews(ls@), value@, i as int),
        decreases ls.len() - i,
    {
        assert(vviews(ls@)[i as int] == ls@[i as int]@);
        let ts = crate::text::trim_start_vec(ls[i].as_slice());
        if has_prefix(ts.as_slice(), p.as_slice()) {
            let ws = split_words(ls[i].as_slice());
            if ws.len() <= 2 {
                return None;
            }
            let mut out: Vec<char> = Vec::new();
            let mut k: usize = 2;
            let ghost rest = vviews(ws@).skip(2);
            while k < ws.len()
                invariant
                    2 <= k <= ws@.len(),
                    rest == vviews(ws@).skip(2),
                    out@ == joined_words(rest.take(k - 2)),
                decreases ws.len() - k,
            {
                let ghost prev = out@;
                assert(rest.take(k - 1).drop_last() =~= rest.take(k - 2));
                assert(rest.take(k - 1).last() == ws@[k as int]@);
                if k > 2 {
                    out.push(' ');
                }
                let w = &ws[k];
                let mut j: usize = 0;
                let ghost mid = out@;
                while j < w.len()
                    invariant
                        j <= w@.len(),
                        out@ == mid + w@.take(j as int),
                    decreases w.len() - j,
                {
                    out.push(w[j]);
                    assert(out@ =~= mid + w@.take(j + 1));
                    j += 1;
                }
                proof {
                    assert(w@.take(w@.len() as int) =~= w@);
                    if k == 2 {
                        assert(mid =~= Seq::<char>::empty());
                        assert(out@ =~= rest.take(1)[0]);
                    } else {
                        reveal_strlit(" ");
                        assert(mid =~= prev + " "@);
                        assert(out@ =~= joined_words(rest.take(k - 2)) + " "@ + w@);
                    }
                }
                k += 1;
            }
            assert(rest.take(ws@.len() - 2) =~= rest);
            return Some(string_from(out.as_slice()));
        }
        i += 1;
    }
    None
}

/// `s` with every leading `0x` removed (`trim_start_matches("0x")`).
pub open spec fn strip_hex_prefix(s: Seq<char>) -> Seq<char>
    decreases s.len(),
{
    if s.len() >= 2 && s[0] == '0' && s[1] == 'x' {
        strip_hex_prefix(s.skip(2))
    } else {
        s
    }
}

pub open spec fn hex_value(c: char) -> int {
    if '0' <= c <= '9' {
        c as int - '0' as int
    } else if 'a' <= c <= 'f' {
        c as int - 'a' as int + 10
    } else if 'A' <= c <= 'F' {
        c as int - 'A' as int + 10
    } else {
        -1
    }
}

/// Value of hex digits.
pub open spec fn hex_digits_value(s: Seq<char>) -> nat
    decreases s.len(),
{
    if s.len() == 0 {
        0
    } else {
        hex_digits_value(s.drop_last()) * 16 + hex_value(s.last()) as nat
    }
}

/// `u64::from_str_radix(s, 16)`: an optional `+`, then at least one hex
/// digit, the value fitting a `u64`.
pub open spec fn all_hex(d: Seq<char>) -> bool {
    forall|i: int| 0 <= i < d.len() ==> hex_value(#[trigger] d[i]) >= 0
}

pub open spec fn parse_hex(s: Seq<char>) -> Option<u64> {
    let d = if s.len() > 0 && s[0] == '+' { s.drop_first() } else { s };
    if d.len() == 0 || !all_hex(d) || hex_digits_value(d) > u64::MAX {
        None
    } else {
        Some(hex_digits_value(d) as u64)
    }
}

proof fn lemma_hex_mono(d: Seq<char>, k: int)
    requires
        0 <= k <= d.len(),
        all_hex(d),
    ensures
        hex_digits_value(d.take(k)) <= hex_digits_value(d),
    decreases d.len() - k,
{
    if k < d.len() {
        lemma_hex_mono(d, k + 1);
        assert(d.take(k + 1).drop_last() =~= d.take(k));
        assert(hex_value(d[k]) >= 0);
    } else {
        assert(d.take(k) =~= d);
    }
}

fn hex_value_exec(c: char) -> (r: i32)
    ensures
        r == hex_value(c),
{
    if '0' <= c && c <= '9' {
        (c as u32 - '0' as u32) as i32
    } else if 'a' <= c && c <= 'f' {
        (c as u32 - 'a' as u32 + 10) as i32
    } else if 'A' <= c && c <= 'F' {
        (c as u32 - 'A' as u32 + 10) as i32
    } else {
        -1
    }
}

fn parse_hex_exec(s: &[char]) -> (r: Option<u64>)
    ensures
        r == parse_hex(s@),
{
    let start: usize = if s.len() > 0 && s[0] == '+' { 1 } else { 0 };
    let ghost d = if s@.len() > 0 && s@[0] == '+' { s@.drop_first() } else { s@ };
    assert(d =~= s@.subrange(start as int, s.len() as int));
    if start >= s.len() {
        return None;
    }
    let mut v: u64 = 0;
    let mut i = start;
    while i < s.len()
        invariant
            start <= i <= s.len(),
            d == s@.subrange(start as int, s.len() as int),
            d == (if s@.len() > 0 && s@[0] == '+' { s@.drop_first() } else { s@ }),
            forall|k: int| start <= k < i ==> hex_value(#[trigger] s@[k]) >= 0,
            v as nat == hex_digits_value(s@.subrange(start as int, i as int)),
        decreases s.len() - i,
    {
        let h = hex_value_exec(s[i]);
        let ghost pre = s@.subrange(start as int, i as int);
        let ghost nxt = s@.subrange(start as int, i + 1);
        assert(nxt.drop_last() =~= pre);
        if h < 0 {
            assert(d[i - start] == s@[i as int]);
            assert(hex_value(d[i - start]) < 0);
            assert(!all_hex(d));
            return None;
        }
        let nv: u128 = v as u128 * 16 + h as u128;
        assert(nv as nat == hex_digits_value(nxt));
        if nv > u64::MAX as u128 {
            proof {
                if all_hex(d) {
                    assert(nxt =~= d.take(i - start + 1));
                    lemma_hex_mono(d, i - start + 1);
                }
            }
            return None;
        }
        v = nv as u64;
        i += 1;
    }
    assert(s@.subrange(start as int, s.len() as int) == d);
    assert forall|k: int| 0 <= k < d.len() implies hex_value(#[trigger] d[k]) >= 0 by {
        assert(d[k] == s@[start + k]);
    }
    assert(all_hex(d));
    Some(v)
}

/// Adapter memory from `HardwareInformation.qpMemorySize` data: hex after
/// its `0x` prefixes, when it parses and is not zero.
pub open spec fn qp_memory(data: Option<Seq<char>>) -> Option<u64> {
    match data {
        Some(v) => match parse_hex(strip_hex_prefix(v)) {
            Some(n) => if n > 0 {
                Some(n)
            } else {
                None
            },
            None => None,
        },
        None => None,
    }
}

pub fn qp_memory_size(data: &Option<String>) -> (r: Option<u64>)
    ensures
        r == qp_memory(opt_str(*data)),
{
    match data {
        None => None,
        Some(v) => {
            let c = chars_of(v.as_str());
            let mut k: usize = 0;
            assert(c@.skip(0) =~= c@);
            while k < c.len() && k + 1 < c.len() && c[k] == '0' && c[k + 1] == 'x'
                invariant
                    k <= c@.len(),
                    strip_hex_prefix(c@) == strip_hex_prefix(c@.skip(k as int)),
                decreases c.len() - k,
            {
                assert(c@.skip(k as int).skip(2) =~= c@.skip(k + 2));
                k += 2;
            }
            let rest = slice_vec(c.as_slice(), k, c.len());
            assert(rest@ =~= c@.skip(k as int));
            match parse_hex_exec(rest.as_slice()) {
                Some(n) => if n > 0 {
                    Some(n)
                } else {
                    None
                },
                None => None,
            }
        },
    }
}

/// One display adapter as the registry describes it.
pub struct Adapter {
    pub name: Option<String>,
    pub vram: Option<u64>,
}

/// A physical adapter: named, and not by a virtual name.
pub open spec fn physical(a: Adapter) -> bool {
    match opt_str(a.name) {
        Some(n) => !is_virtual_name(n),
        None => false,
    }
}

pub open spec fn vram_or_zero(a: Adapter) -> u64 {
    match a.vram {
        Some(v) => v,
        None => 0,
    }
}

/// Index of the adapter with the most memory among those in `pool` (the
/// last one on ties, as `max_by_key` picks), -1 when the pool is empty.
pub open spec fn max_in(adapters: Seq<Adapter>, pool: spec_fn(Adapter) -> bool, n: int) -> int
    decreases n,
{
    if n <= 0 {
        -1
    } else {
        let m = max_in(adapters, pool, n - 1);
        if pool(adapters[n - 1]) && (m < 0 || vram_or_zero(adapters[n - 1]) >= vram_or_zero(adapters[m])) {
            n - 1
        } else {
            m
        }
    }
}

/// The real GPU among the registry's adapters: the physical ones when any
/// (virtual and helper adapters would shadow it), else all; the one with
/// the most memory. None without adapters.
pub open spec fn chosen_adapter(adapters: Seq<Adapter>) -> int {
    if exists|i: int| 0 <= i < adapters.len() && physical(#[trigger] adapters[i]) {
        max_in(adapters, |a: Adapter| physical(a), adapters.len() as int)
    } else {
        max_in(adapters, |a: Adapter| true, adapters.len() as int)
    }
}

fn is_physical(a: &Adapter) -> (r: bool)
    ensures
        r == physical(*a),
{
    match &a.name {
        Some(n) => !gpu_name_is_virtual(n.as_str()),
        None => false,
    }
}

fn max_index(adapters: &Vec<Adapter>, only_physical: bool) -> (r: Option<usize>)
    ensures
        ({
            let m = if only_physical {
                max_in(adapters@, |a: Adapter| physical(a), adapters@.len() as int)
            } else {
                max_in(adapters@, |a: Adapter| true, adapters@.len() as int)
            };
            match r {
                Some(i) => i == m && i < adapters@.len(),
                None => m == -1,
            }
        }),
{
    let ghost pool = if only_physical { |a: Adapter| physical(a) } else { |a: Adapter| true };
    let mut best: Option<usize> = None;
    let mut best_v: u64 = 0;
    let mut i: usize = 0;
    while i < adapters.len()
        invariant
            i <= adapters@.len(),
            pool == (if only_physical { |a: Adapter| physical(a) } else { |a: Adapter| true }),
            match best {
                Some(b) => b < i && max_in(adapters@, pool, i as int) == b && best_v == vram_or_zero(adapters@[b as int]),
                None => max_in(adapters@, pool, i as int) == -1,
            },
        decreases adapters.len() - i,
    {
        let ok = if only_physical { is_physical(&adapters[i]) } else { true };
        let v = match adapters[i].vram {
            Some(x) => x,
            None => 0,
        };
        assert(ok == pool(adapters@[i as int]));
        if ok && (best.is_none() || v >= best_v) {
            best = Some(i);
            best_v = v;
        }
        i += 1;
    }
    best
}

fn copy_info(a: &Adapter) -> (r: GpuInfo)
    ensures
        opt_str(r.name) == opt_str(a.name),
        r.vram_total == a.vram,
        !r.unified,
{
    GpuInfo {
        name: match &a.name {
            Some(n) => Some(n.clone()),
            None => None,
        },
        vram_total: a.vram,
        unified: false,
    }
}

/// The GPU of the registry's adapters (see `chosen_adapter`), none without
/// adapters.
pub fn pick_adapter(adapters: &Vec<Adapter>) -> (r: Option<GpuInfo>)
    ensures
        ({
            let c = chosen_adapter(adapters@);
            match r {
                Some(g) => 0 <= c < adapters@.len() && opt_str(g.name) == opt_str(adapters@[c].name)
                    && g.vram_total == adapters@[c].vram && !g.unified,
                None => c == -1,
            }
        }),
{
    let mut any_physical = false;
    let mut i: usize = 0;
    while i < adapters.len()
        invariant
            i <= adapters@.len(),
            any_physical == exists|k: int| 0 <= k < i && physical(#[trigger] adapters@[k]),
        decreases adapters.len() - i,
    {
        if is_physical(&adapters[i]) {
            any_physical = true;
        } else {
            assert forall|k: int| 0 <= k < i + 1 && physical(#[trigger] adapters@[k]) implies k < i by {}
        }
        i += 1;
    }
    match max_index(adapters, any_physical) {
        Some(k) => Some(copy_info(&adapters[k])),
        None => None,
    }
}

// ------------------------------------------------------------------- CIM

/// The best adapter of `Get-CimInstance Win32_VideoController` lines
/// `name|AdapterRAM`: physical names only, RAM 0 when it does not parse,
/// the first with the most RAM.
pub open spec fn cim_best(ls: Seq<Seq<char>>) -> Option<(Seq<char>, u64)>
    decreases ls.len(),
{
    if ls.len() == 0 {
        None
    } else {
        let best = cim_best(ls.drop_last());
        match split_once(trim(ls.last()), '|') {
            Some((n, r)) => if is_virtual_name(n) {
                best
            } else {
                let vram = match parse_unsigned(trim(r), u64::MAX as nat) {
                    Some(v) => v as u64,
                    None => 0,
                };
                if match best {
                    Some((_, b)) => vram > b,
                    None => true,
                } {
                    Some((trim(n), vram))
                } else {
                    best
                }
            },
            None => best,
        }
    }
}

/// The GPU of the CIM listing: the best adapter with its RAM when not 0;
/// nothing known without one.
pub fn cim_gpu(text: &str) -> (r: GpuInfo)
    ensures
        !r.unified,
        match cim_best(lines(text@)) {
            Some((n, v)) => opt_str(r.name) == Some(n) && r.vram_total == if v > 0 { Some(v) } else { None },
            None => r.name is None && r.vram_total is None,
        },
{
    let t = chars_of(text);
    let ls = split_lines(t.as_slice());
    let mut best: Option<(Vec<char>, u64)> = None;
    let mut i: usize = 0;
    while i < ls.len()
        invariant
            i <= ls@.len(),
            vviews(ls@) == lines(text@),
            cim_best(vviews(ls@).take(i as int)) == match best {
                Some((n, m)) => Some((n@, m)),
                None => None,
            },
        decreases ls.len() - i,
    {
        assert(vviews(ls@).take(i + 1).drop_last() =~= vviews(ls@).take(i as int));
        assert(vviews(ls@).take(i + 1).last() == ls@[i as int]@);
        let l = trimmed(ls[i].as_slice());
        match split_once_char(l.as_slice(), '|') {
            Some((n, r)) => {
                let ns = string_from(n.as_slice());
                if !gpu_name_is_virtual(ns.as_str()) {
                    let rt = trimmed(r.as_slice());
                    let vram = match parse_unsigned_exec(rt.as_slice(), u64::MAX) {
                        Some(v) => v,
                        None => 0,
                    };
                    let better = match &best {
                        Some((_, b)) => vram > *b,
                        None => true,
                    };
                    if better {
                        best = Some((trimmed(n.as_slice()), vram));
                    }
                }
            },
            None => {},
        }
        i += 1;
    }
    assert(vviews(ls@).take(ls.len() as int) =~= vviews(ls@));
    match best {
        Some((n, v)) => GpuInfo {
            name: Some(string_from(n.as_slice())),
            vram_total: if v > 0 {
                Some(v)
            } else {
                None
            },
            unified: false,
        },
        None => GpuInfo { name: None, vram_total: None, unified: false },
    }
}

// ------------------------------------------------------------------ disks

/// One mounted disk, with what the file system says of it and the models
/// directory.
pub struct DiskInfo {
    /// Byte length of the mount point path.
    pub mount_len: usize,
    /// The models directory lies below this mount point.
    pub holds_dir: bool,
    /// The mount point is `/`.
    pub is_root: bool,
    pub available: u64,
    pub total: u64,
}

/// Index of the first disk with the longest mount point holding the models
/// directory, -1 when none holds it.
pub open spec fn deepest(ds: Seq<DiskInfo>, n: int) -> int
    decreases n,
{
    if n <= 0 {
        -1
    } else {
        let m = deepest(ds, n - 1);
        if ds[n - 1].holds_dir && (m < 0 || ds[n - 1].mount_len > ds[m].mount_len) {
            n - 1
        } else {
            m
        }
    }
}

/// Index of the first root disk, -1 when none is.
pub open spec fn first_root(ds: Seq<DiskInfo>, n: int) -> int
    decreases n,
{
    if n <= 0 {
        -1
    } else if first_root(ds, n - 1) >= 0 {
        first_root(ds, n - 1)
    } else if ds[n - 1].is_root {
        n - 1
    } else {
        -1
    }
}

/// Free and total bytes of the disk holding the models directory: the one
/// with the longest mount point, else the root disk, else nothing known.
pub open spec fn disk_space(ds: Seq<DiskInfo>) -> (u64, u64) {
    let d = deepest(ds, ds.len() as int);
    let r = first_root(ds, ds.len() as int);
    if 0 <= d < ds.len() {
        (ds[d].available, ds[d].total)
    } else if 0 <= r < ds.len() {
        (ds[r].available, ds[r].total)
    } else {
        (0, 0)
    }
}

pub fn disk_for(disks: &Vec<DiskInfo>) -> (r: (u64, u64))
    ensures
        r == disk_space(disks@),
{
    let mut best: Option<usize> = None;
    let mut root: Option<usize> = None;
    let mut i: usize = 0;
    while i < disks.len()
        invariant
            i <= disks@.len(),
            match best {
                Some(b) => b < i && deepest(disks@, i as int) == b,
                None => deepest(disks@, i as int) == -1,
            },
            match root {
                Some(b) => b < i && first_root(disks@, i as int) == b,
                None => first_root(disks@, i as int) == -1,
            },
        decreases disks.len() - i,
    {
        let better = match best {
            Some(b) => disks[i].mount_len > disks[b].mount_len,
            None => true,
        };
        if disks[i].holds_dir && better {
            best = Some(i);
        }
        if root.is_none() && disks[i].is_root {
            root = Some(i);
        }
        i += 1;
    }
    match best {
        Some(b) => (disks[b].available, disks[b].total),
        None => match root {
            Some(k) => (disks[k].available, disks[k].total),
            None => (0, 0),
        },
    }
}

} // verus!
