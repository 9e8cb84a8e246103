//! Reading the machine's capabilities from the reports of `nvidia-smi` and
//! the operating system, and the compatibility verdict drawn from them.
use vstd::prelude::*;
use crate::text::{
    chars_eq, chars_of, has_text, has_text_exec, join_chars, join_with, lines, lines_exec,
    split_chars, split_on, strip_end, strip_end_exec, strip_start, strip_start_exec, string_of,
    sub_chars, trim, trim_exec, views, is_space, is_space_char,
};

verus! {

/// The text `m` occurs in `t` at index `i`.
pub open spec fn occurs_at(t: Seq<char>, m: Seq<char>, i: int) -> bool {
    0 <= i && i + m.len() <= t.len() && t.subrange(i, i + m.len()) == m
}

/// The first index at or after `i` where `m` occurs in `t`.
pub open spec fn find_from(t: Seq<char>, m: Seq<char>, i: int) -> Option<int>
    decreases t.len() + 1 - i,
{
    if i < 0 || i + m.len() > t.len() {
        None
    } else if occurs_at(t, m, i) {
        Some(i)
    } else {
        find_from(t, m, i + 1)
    }
}

/// `str::find`: the first index where `m` occurs in `t`.
pub open spec fn find(t: Seq<char>, m: Seq<char>) -> Option<int> {
    find_from(t, m, 0)
}

fn occurs_at_exec(t: &[char], m: &[char], i: usize) -> (r: bool)
    requires
        i + m@.len() <= t@.len(),
    ensures
        r == occurs_at(t@, m@, i as int),
{
    for k in 0..m.len()
        invariant
            i + m@.len() <= t@.len(),
            forall|j: int| 0 <= j < k ==> t@[i + j] == m@[j],
    {
        assert(i + k < t@.len());
        assert(t@.len() == t.len());
        if t[i + k] != m[k] {
            assert(t@.subrange(i as int, i + m@.len())[k as int] == t@[i + k]);
            return false;
        }
    }
    assert(t@.subrange(i as int, i + m@.len()) =~= m@);
    true
}

/// The first index where `m` occurs in `t` (see `find`).
pub fn find_exec(t: &[char], m: &[char]) -> (r: Option<usize>)
    ensures
        match r {
            Some(i) => find(t@, m@) == Some(i as int),
            None => find(t@, m@) is None,
        },
{
    if m.len() == 0 {
        assert(t@.subrange(0, 0) =~= m@);
        return Some(0);
    }
    for i in 0..t.len()
        invariant
            m@.len() > 0,
            find(t@, m@) == find_from(t@, m@, i as int),
    {
        if t.len() - i < m.len() {
            assert(find_from(t@, m@, i as int) is None);
            return None;
        }
        if occurs_at_exec(t, m, i) {
            return Some(i);
        }
    }
    None
}

/// Index of the first character at or after `i` that is not white space.
pub open spec fn skip_space(s: Seq<char>, i: int) -> int
    decreases s.len() - i,
{
    if 0 <= i < s.len() && is_space(s[i]) {
        skip_space(s, i + 1)
    } else {
        i
    }
}

/// Index just past the run of non-white-space characters starting at `i`.
pub open spec fn word_end(s: Seq<char>, i: int) -> int
    decreases s.len() - i,
{
    if 0 <= i < s.len() && !is_space(s[i]) {
        word_end(s, i + 1)
    } else {
        i
    }
}

/// The first item of `str::split_whitespace`.
pub open spec fn first_word(s: Seq<char>) -> Option<Seq<char>> {
    let a = skip_space(s, 0);
    if a >= s.len() {
        None
    } else {
        Some(s.subrange(a, word_end(s, a)))
    }
}

fn first_word_exec(s: &[char]) -> (r: Option<Vec<char>>)
    ensures
        match r {
            Some(w) => first_word(s@) == Some(w@),
            None => first_word(s@) is None,
        },
{
    let mut a: usize = 0;
    while a < s.len() && is_space_char(s[a])
        invariant
            a <= s@.len(),
            skip_space(s@, 0) == skip_space(s@, a as int),
        decreases s.len() - a,
    {
        a += 1;
    }
    if a >= s.len() {
        return None;
    }
    let mut b = a;
    while b < s.len() && !is_space_char(s[b])
        invariant
            a <= b <= s@.len(),
            word_end(s@, a as int) == word_end(s@, b as int),
        decreases s.len() - b,
    {
        b += 1;
    }
    Some(sub_chars(s, a, b))
}

/// The CUDA version that an `nvidia-smi` report announces: the word after
/// the first `CUDA UMD Version:` marker, or else after `CUDA Version:`,
/// with `|` trimmed from both ends; none when absent, empty or `N/A`.
pub open spec fn cuda_version_in(text: Seq<char>) -> Option<Seq<char>> {
    let m1 = "CUDA UMD Version:"@;
    let m2 = "CUDA Version:"@;
    let marker = if find(text, m1) is Some {
        Some(m1)
    } else if find(text, m2) is Some {
        Some(m2)
    } else {
        None
    };
    match marker {
        None => None,
        Some(m) => match first_word(text.skip(find(text, m)->0 + m.len())) {
            None => None,
            Some(w) => {
                let v = strip_end(strip_start(w, '|'), '|');
                if v.len() > 0 && v != "N/A"@ {
                    Some(v)
                } else {
                    None
                }
            },
        },
    }
}

/// Reads the CUDA version from the text of `nvidia-smi`'s default report.
pub fn detect_cuda_version(report: &str) -> (r: Option<String>)
    ensures
        match r {
            Some(v) => cuda_version_in(report@) == Some(v@),
            None => cuda_version_in(report@) is None,
        },
{
    let text = chars_of(report);
    let m1 = chars_of("CUDA UMD Version:");
    let m2 = chars_of("CUDA Version:");
    let (marker, start) = match find_exec(&text, &m1) {
        Some(i) => (m1, i),
        None => match find_exec(&text, &m2) {
            Some(i) => (m2, i),
            None => {
                return None;
            },
        },
    };
    assert(find(text@, marker@) == Some(start as int));
    proof {
        lemma_find_in_range(text@, marker@, 0);
    }
    assert(start + marker@.len() <= text@.len());
    let tl = text.len();
    let ml = marker.len();
    assert(start + ml <= tl);
    let rest = sub_chars(&text, start + marker.len(), text.len());
    assert(rest@ =~= text@.skip(start + marker@.len()));
    let word = match first_word_exec(&rest) {
        Some(w) => w,
        None => {
            return None;
        },
    };
    let v = strip_end_exec(&strip_start_exec(&word, '|'), '|');
    let na = chars_of("N/A");
    if v.len() > 0 && !chars_eq(&v, &na) {
        Some(string_of(&v))
    } else {
        None
    }
}

/// A found occurrence lies inside the text.
pub proof fn lemma_find_in_range(t: Seq<char>, m: Seq<char>, i: int)
    requires
        find_from(t, m, i) is Some,
    ensures
        i <= find_from(t, m, i)->0,
        find_from(t, m, i)->0 + m.len() <= t.len(),
    decreases t.len() + 1 - i,
{
    if !(i < 0 || i + m.len() > t.len()) && !occurs_at(t, m, i) {
        lemma_find_in_range(t, m, i + 1);
    }
}

/// Whether the GPU-name query of `nvidia-smi` succeeded and named something:
/// its output holds a character that is not white space.
pub fn cuda_driver_available(gpu_name_query: Option<&str>) -> (r: bool)
    ensures
        r == match gpu_name_query {
            Some(t) => has_text(t@),
            None => false,
        },
{
    match gpu_name_query {
        Some(t) => has_text_exec(&chars_of(t)),
        None => false,
    }
}

/// The refusal of a download on a machine without a usable GPU.
pub open spec fn no_driver_error() -> Seq<char> {
    "Downloads are disabled because no CUDA-capable NVIDIA GPU with a working NVIDIA driver was detected"@
}

/// Downloads are allowed only when the GPU-name query of `nvidia-smi`
/// named a GPU (see `cuda_driver_available`).
pub fn check_downloads_allowed(gpu_name_query: Option<&str>) -> (r: Result<(), String>)
    ensures
        r is Ok <==> match gpu_name_query {
            Some(t) => has_text(t@),
            None => false,
        },
        r matches Err(e) ==> e@ == no_driver_error(),
{
    if !cuda_driver_available(gpu_name_query) {
        return Err(
            "Downloads are disabled because no CUDA-capable NVIDIA GPU with a working NVIDIA driver was detected".to_owned(),
        );
    }
    Ok(())
}

/// The value of a text of decimal digits.
pub open spec fn decimal(d: Seq<char>) -> nat
    decreases d.len(),
{
    if d.len() == 0 {
        0
    } else {
        decimal(d.drop_last()) * 10 + ((d.last() as u32) - 48) as nat
    }
}

/// Every character is an ASCII decimal digit.
pub open spec fn all_digits(d: Seq<char>) -> bool {
    forall|i: int| 0 <= i < d.len() ==> '0' <= #[trigger] d[i] <= '9'
}

/// `u64::from_str`: an optional `+`, then one or more decimal digits whose
/// value fits in 64 bits.
pub open spec fn parse_u64(s: Seq<char>) -> Option<u64> {
    let d = if s.len() > 1 && s[0] == '+' {
        s.drop_first()
    } else {
        s
    };
    if d.len() > 0 && all_digits(d) && decimal(d) <= u64::MAX {
        Some(decimal(d) as u64)
    } else {
        None
    }
}

proof fn lemma_decimal_prefix(d: Seq<char>, i: int)
    requires
        0 <= i <= d.len(),
        all_digits(d),
    ensures
        decimal(d.take(i)) <= decimal(d),
    decreases d.len(),
{
    if i < d.len() {
        assert(d.drop_last().take(i) =~= d.take(i));
        lemma_decimal_prefix(d.drop_last(), i);
    } else {
        assert(d.take(i) =~= d);
    }
}

/// Reads an unsigned 64-bit number as `u64::from_str` does.
pub fn parse_u64_exec(s: &[char]) -> (r: Option<u64>)
    ensures
        r == parse_u64(s@),
{
    let start: usize = if s.len() > 1 && s[0] == '+' {
        1
    } else {
        0
    };
    let d = sub_chars(s, start, s.len());
    assert(d@ =~= (if s@.len() > 1 && s@[0] == '+' {
        s@.drop_first()
    } else {
        s@
    }));
    let ghost dd = d@;
    assert(parse_u64(s@) == (if dd.len() > 0 && all_digits(dd) && decimal(dd) <= u64::MAX {
        Some(decimal(dd) as u64)
    } else {
        None
    }));
    if d.len() == 0 {
        return None;
    }
    let mut v: u64 = 0;
    for i in 0..d.len()
        invariant
            dd == d@,
            dd.len() > 0,
            parse_u64(s@) == (if dd.len() > 0 && all_digits(dd) && decimal(dd) <= u64::MAX {
                Some(decimal(dd) as u64)
            } else {
                None
            }),
            v == decimal(d@.take(i as int)),
            forall|j: int| 0 <= j < i ==> '0' <= #[trigger] d@[j] <= '9',
    {
        let c = d[i];
        if !('0' <= c && c <= '9') {
            assert(!all_digits(d@));
            return None;
        }
        assert(d@.take(i + 1).drop_last() =~= d@.take(i as int));
        let digit = (c as u32 - 48) as u64;
        let next = match v.checked_mul(10) {
            Some(x) => x.checked_add(digit),
            None => None,
        };
        match next {
            Some(x) => {
                v = x;
            },
            None => {
                proof {
                    // The digits seen so far already exceed 64 bits; the
                    // remaining ones are checked below only for validity.
                    assert(decimal(d@.take(i + 1)) > u64::MAX);
                }
                let mut k = i + 1;
                while k < d.len()
                    invariant
                        dd == d@,
                        decimal(d@.take(i + 1)) > u64::MAX,
                        parse_u64(s@) == (if dd.len() > 0 && all_digits(dd) && decimal(dd)
                            <= u64::MAX {
                            Some(decimal(dd) as u64)
                        } else {
                            None
                        }),
                        i < k <= d@.len(),
                        forall|j: int| 0 <= j < k ==> '0' <= #[trigger] d@[j] <= '9',
                    decreases d.len() - k,
                {
                    if !('0' <= d[k] && d[k] <= '9') {
                        assert(!all_digits(d@));
                        return None;
                    }
                    k += 1;
                }
                proof {
                    assert(all_digits(d@));
                    lemma_decimal_prefix(d@, i + 1);
                    assert(decimal(d@) > u64::MAX);
                }
                return None;
            },
        }
    }
    assert(d@.take(d@.len() as int) =~= d@);
    Some(v)
}

/// One GPU as `nvidia-smi` lists it.
pub struct GpuInfo {
    pub name: String,
    pub memory_mib: u64,
    pub driver_version: String,
}

#[verifier::ext_equal]
pub struct GpuView {
    pub name: Seq<char>,
    pub memory_mib: u64,
    pub driver_version: Seq<char>,
}

impl View for GpuInfo {
    type V = GpuView;

    open spec fn view(&self) -> GpuView {
        GpuView { name: self.name@, memory_mib: self.memory_mib, driver_version: self.driver_version@ }
    }
}

/// GPU records as plain values.
pub open spec fn gpu_views(v: Seq<GpuInfo>) -> Seq<GpuView> {
    Seq::new(v.len(), |i: int| v[i]@)
}

/// The comma-separated fields of a CSV row, each trimmed.
pub open spec fn row_fields(line: Seq<char>) -> Seq<Seq<char>> {
    let p = split_on(line, ',');
    Seq::new(p.len(), |i: int| trim(p[i]))
}

/// The GPU a row of `name, memory.total, driver_version` describes; rows
/// with fewer than three fields or no name describe none, and an unreadable
/// memory size counts as 0.
pub open spec fn gpu_of_row(line: Seq<char>) -> Option<GpuView> {
    let f = row_fields(line);
    if f.len() < 3 || f[0].len() == 0 {
        None
    } else {
        Some(
            GpuView {
                name: f[0],
                memory_mib: match parse_u64(f[1]) {
                    Some(m) => m,
                    None => 0,
                },
                driver_version: f[2],
            },
        )
    }
}

/// The GPUs described by the rows, in order.
pub open spec fn gpus_of_rows(ls: Seq<Seq<char>>) -> Seq<GpuView>
    decreases ls.len(),
{
    if ls.len() == 0 {
        Seq::empty()
    } else {
        let init = gpus_of_rows(ls.drop_last());
        match gpu_of_row(ls.last()) {
            Some(g) => init.push(g),
            None => init,
        }
    }
}

/// The GPUs listed by `nvidia-smi --query-gpu=name,memory.total,driver_version
/// --format=csv,noheader,nounits`, one per line.
pub open spec fn gpus_in(text: Seq<char>) -> Seq<GpuView> {
    gpus_of_rows(lines(text))
}

fn gpu_of_row_exec(line: &[char]) -> (r: Option<GpuInfo>)
    ensures
        match r {
            Some(g) => gpu_of_row(line@) == Some(g@),
            None => gpu_of_row(line@) is None,
        },
{
    let parts = split_chars(line, ',');
    if parts.len() < 3 {
        return None;
    }
    let name = trim_exec(&parts[0]);
    let memory = trim_exec(&parts[1]);
    let driver = trim_exec(&parts[2]);
    proof {
        let f = row_fields(line@);
        assert(f[0] == trim(parts@[0]@));
        assert(f[1] == trim(parts@[1]@));
        assert(f[2] == trim(parts@[2]@));
    }
    if name.len() == 0 {
        return None;
    }
    let memory_mib = match parse_u64_exec(&memory) {
        Some(m) => m,
        None => 0,
    };
    Some(GpuInfo { name: string_of(&name), memory_mib, driver_version: string_of(&driver) })
}

/// Reads the GPU list from the output of the GPU query of `nvidia-smi`.
pub fn parse_gpu_rows(text: &str) -> (r: Vec<GpuInfo>)
    ensures
        gpu_views(r@) == gpus_in(text@),
{
    let ls = lines_exec(&chars_of(text));
    let ghost lv = views(ls@);
    let mut r: Vec<GpuInfo> = Vec::new();
    for i in 0..ls.len()
        invariant
            lv == views(ls@),
            gpu_views(r@) == gpus_of_rows(lv.take(i as int)),
    {
        assert(lv.take(i + 1).drop_last() =~= lv.take(i as int));
        assert(lv.take(i + 1).last() == ls@[i as int]@);
        let ghost before = gpu_views(r@);
        match gpu_of_row_exec(&ls[i]) {
            Some(g) => {
                r.push(g);
                assert(gpu_views(r@) =~= before.push(r@.last()@));
            },
            None => {},
        }
    }
    assert(lv.take(ls.len() as int) =~= lv);
    r
}

/// The largest memory size among the GPUs, 0 when there are none.
pub open spec fn max_memory(g: Seq<GpuView>) -> u64
    decreases g.len(),
{
    if g.len() == 0 {
        0
    } else {
        let m = max_memory(g.drop_last());
        if g.last().memory_mib > m {
            g.last().memory_mib
        } else {
            m
        }
    }
}

/// The caution when no usable GPU was found.
pub open spec fn no_gpu_caution() -> Seq<char> {
    "No CUDA-capable NVIDIA GPU with a working NVIDIA driver was detected. Resource downloads are disabled because FLUX cannot run on this PC."@
}

/// The caution on little GPU memory.
pub open spec fn vram_caution() -> Seq<char> {
    "Less than 6 GB of GPU memory was detected. FLUX may run out of memory at larger working resolutions."@
}

/// The caution on little system memory.
pub open spec fn ram_caution() -> Seq<char> {
    "Less than 16 GB of system memory was detected. Processing may be unstable or very slow."@
}

/// The caution on little free disk space.
pub open spec fn disk_caution() -> Seq<char> {
    "Less than 30 GB is free on the app drive. The complete runtime and models may not fit."@
}

/// `n` gibibytes in bytes.
pub open spec fn gib(n: nat) -> nat {
    n * 1024 * 1024 * 1024
}

/// The cautions a scan reports: no usable GPU; or, with one, too little GPU
/// memory (under 6144 MiB on the largest), system memory (under 16 GiB)
/// or free disk (under 30 GiB), where the last two are known.
pub open spec fn cautions(g: Seq<GpuView>, memory: Option<u64>, disk: Option<u64>) -> Seq<
    Seq<char>,
> {
    if g.len() == 0 {
        seq![no_gpu_caution()]
    } else {
        let a = if max_memory(g) < 6144 {
            seq![vram_caution()]
        } else {
            Seq::empty()
        };
        let b = if memory matches Some(m) && m < gib(16) {
            seq![ram_caution()]
        } else {
            Seq::empty()
        };
        let c = if disk matches Some(d) && d < gib(30) {
            seq![disk_caution()]
        } else {
            Seq::empty()
        };
        a + b + c
    }
}

/// A reported name, trimmed, or the fallback when it is missing or blank.
pub open spec fn name_or(o: Option<String>, fallback: Seq<char>) -> Seq<char> {
    match o {
        Some(s) => if has_text(s@) {
            trim(s@)
        } else {
            fallback
        },
        None => fallback,
    }
}

/// The result of a system scan.
pub struct SystemScan {
    pub compatible: bool,
    pub nvidia_detected: bool,
    pub cuda_available: bool,
    pub cuda_version: Option<String>,
    pub gpus: Vec<GpuInfo>,
    pub cpu_name: String,
    pub logical_cores: usize,
    pub memory_bytes: Option<u64>,
    pub free_disk_bytes: Option<u64>,
    pub os_name: String,
    pub warning: Option<String>,
}

/// An optional text as a plain value.
pub open spec fn opt_view(o: Option<String>) -> Option<Seq<char>> {
    match o {
        Some(s) => Some(s@),
        None => None,
    }
}

fn max_memory_exec(g: &Vec<GpuInfo>) -> (m: u64)
    ensures
        m == max_memory(gpu_views(g@)),
{
    let mut m: u64 = 0;
    for i in 0..g.len()
        invariant
            m == max_memory(gpu_views(g@).take(i as int)),
    {
        assert(gpu_views(g@).take(i + 1).drop_last() =~= gpu_views(g@).take(i as int));
        if g[i].memory_mib > m {
            m = g[i].memory_mib;
        }
    }
    assert(gpu_views(g@).take(g@.len() as int) =~= gpu_views(g@));
    m
}

fn name_or_exec(o: Option<String>, fallback: &str) -> (r: String)
    ensures
        r@ == name_or(o, fallback@),
{
    match o {
        Some(s) => {
            let c = chars_of(s.as_str());
            if has_text_exec(&c) {
                string_of(&trim_exec(&c))
            } else {
                fallback.to_owned()
            }
        },
        None => fallback.to_owned(),
    }
}

fn push_text(v: &mut Vec<Vec<char>>, s: &str)
    ensures
        views(final(v)@) == views(old(v)@).push(s@),
{
    let ghost before = views(v@);
    v.push(chars_of(s));
    assert(views(v@) =~= before.push(s@));
}

/// Assembles a system scan from the GPUs found, the `nvidia-smi` report
/// (read only when a GPU was found) and what the operating system reported.
/// Downloads are allowed exactly when a GPU was found.
pub fn system_scan(
    gpus: Vec<GpuInfo>,
    cuda_report: Option<&str>,
    cpu: Option<String>,
    memory_bytes: Option<u64>,
    free_disk_bytes: Option<u64>,
    os: Option<String>,
    logical_cores: usize,
) -> (r: SystemScan)
    ensures
        r.nvidia_detected == (gpus@.len() > 0),
        r.cuda_available == r.nvidia_detected,
        r.compatible == r.nvidia_detected,
        opt_view(r.cuda_version) == (if gpus@.len() > 0 {
            match cuda_report {
                Some(t) => cuda_version_in(t@),
                None => None,
            }
        } else {
            None
        }),
        gpu_views(r.gpus@) == gpu_views(gpus@),
        r.cpu_name@ == name_or(cpu, "Unknown processor"@),
        r.os_name@ == name_or(os, "Windows"@),
        r.logical_cores == logical_cores,
        r.memory_bytes == memory_bytes,
        r.free_disk_bytes == free_disk_bytes,
        opt_view(r.warning) == (if cautions(gpu_views(gpus@), memory_bytes, free_disk_bytes).len()
            == 0 {
            None
        } else {
            Some(join_with(cautions(gpu_views(gpus@), memory_bytes, free_disk_bytes), ' '))
        }),
{
    let detected = gpus.len() > 0;
    let cuda_version = if detected {
        match cuda_report {
            Some(t) => detect_cuda_version(t),
            None => None,
        }
    } else {
        None
    };
    let mut list: Vec<Vec<char>> = Vec::new();
    let ghost g = gpu_views(gpus@);
    if !detected {
        push_text(&mut list, "No CUDA-capable NVIDIA GPU with a working NVIDIA driver was detected. Resource downloads are disabled because FLUX cannot run on this PC.");
        assert(views(list@) =~= cautions(g, memory_bytes, free_disk_bytes));
    } else {
        let gib: u64 = 1024 * 1024 * 1024;
        if max_memory_exec(&gpus) < 6144 {
            push_text(&mut list, "Less than 6 GB of GPU memory was detected. FLUX may run out of memory at larger working resolutions.");
        }
        let ghost after_a = views(list@);
        match memory_bytes {
            Some(m) => {
                if m < 16 * gib {
                    push_text(&mut list, "Less than 16 GB of system memory was detected. Processing may be unstable or very slow.");
                }
            },
            None => {},
        }
        let ghost after_b = views(list@);
        match free_disk_bytes {
            Some(d) => {
                if d < 30 * gib {
                    push_text(&mut list, "Less than 30 GB is free on the app drive. The complete runtime and models may not fit.");
                }
            },
            None => {},
        }
        assert(views(list@) =~= cautions(g, memory_bytes, free_disk_bytes));
    }
    let warning = if list.len() == 0 {
        None
    } else {
        Some(string_of(&join_chars(&list, ' ')))
    };
    SystemScan {
        compatible: detected,
        nvidia_detected: detected,
        cuda_available: detected,
        cuda_version,
        gpus,
        cpu_name: name_or_exec(cpu, "Unknown processor"),
        logical_cores,
        memory_bytes,
        free_disk_bytes,
        os_name: name_or_exec(os, "Windows"),
        warning,
    }
}

} // verus!
