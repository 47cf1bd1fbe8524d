use vstd::prelude::*;
use crate::orchestrator_config::OrchestratorConfig;
use crate::text::{chars_of, decimal, decimal_chars, push_chars, push_str, string_of};
use crate::csv::strings;

verus! {

/// Machine resources at one moment. Load averages are `f64` bit patterns (`f64::to_bits`).
#[derive(Debug)]
pub struct ResourceSnapshot {
    pub free_ram_mb: u64,
    pub load_1m_bits: u64,
    pub load_5m_bits: u64,
    pub chrome_processes: usize,
    pub healthy: bool,
}

impl ResourceSnapshot {
    /// The snapshot used where none can be taken: 4096 MB free, no load, no browsers, healthy.
    pub fn default_snapshot() -> (s: Self)
        ensures
            s.free_ram_mb == 4096,
            s.load_1m_bits == 0,
            s.load_5m_bits == 0,
            s.chrome_processes == 0,
            s.healthy,
    {
        ResourceSnapshot { free_ram_mb: 4096, load_1m_bits: 0, load_5m_bits: 0, chrome_processes: 0, healthy: true }
    }

    /// An exact copy.
    pub fn duplicate(&self) -> (s: Self)
        ensures
            s == *self,
    {
        ResourceSnapshot {
            free_ram_mb: self.free_ram_mb,
            load_1m_bits: self.load_1m_bits,
            load_5m_bits: self.load_5m_bits,
            chrome_processes: self.chrome_processes,
            healthy: self.healthy,
        }
    }
}

impl Default for ResourceSnapshot {
    fn default() -> (s: Self)
        ensures
            s.free_ram_mb == 4096,
            s.load_1m_bits == 0,
            s.load_5m_bits == 0,
            s.chrome_processes == 0,
            s.healthy,
    {
        Self::default_snapshot()
    }
}

/// Whether resources allow opening another profile, and why not.
#[derive(Debug)]
pub struct ResourceStatus {
    pub exhausted: bool,
    pub reasons: Vec<String>,
    pub snapshot: ResourceSnapshot,
}

/// `st` is the verdict on `snap` under `conf`: its reasons are `fail_reasons_spec`'s, it is
/// exhausted exactly when there is one, and it carries the snapshot.
pub open spec fn is_verdict(
    conf: OrchestratorConfig,
    snap: ResourceSnapshot,
    load_reason: Option<Seq<char>>,
    st: ResourceStatus,
) -> bool {
    &&& strings(st.reasons@) == fail_reasons_spec(conf, snap, load_reason)
    &&& st.exhausted == (st.reasons@.len() > 0)
    &&& st.snapshot == snap
}

/// Checks machine resources against the configured limits.
#[derive(Debug)]
pub struct ResourceMonitor {
    pub conf: OrchestratorConfig,
}

/// `"free_ram {free}MB < threshold {min}MB"`.
pub open spec fn ram_reason(free: u64, min: u64) -> Seq<char> {
    "free_ram "@ + decimal(free as nat) + "MB < threshold "@ + decimal(min as nat) + "MB"@
}

/// `"chrome_procs {count} > threshold {max}"`.
pub open spec fn chrome_reason(count: usize, max: usize) -> Seq<char> {
    "chrome_procs "@ + decimal(count as nat) + " > threshold "@ + decimal(max as nat)
}

/// The reasons for refusing to open a profile, in order: too little memory, the load
/// reason `load_reason` (present when the load is over its threshold), too many browsers.
pub open spec fn fail_reasons_spec(
    conf: OrchestratorConfig,
    snap: ResourceSnapshot,
    load_reason: Option<Seq<char>>,
) -> Seq<Seq<char>> {
    let a: Seq<Seq<char>> = if snap.free_ram_mb < conf.min_free_ram_mb {
        seq![ram_reason(snap.free_ram_mb, conf.min_free_ram_mb)]
    } else {
        Seq::empty()
    };
    let b: Seq<Seq<char>> = match load_reason {
        Some(r) => seq![r],
        None => Seq::empty(),
    };
    let c: Seq<Seq<char>> = if snap.chrome_processes > conf.max_chrome_procs {
        seq![chrome_reason(snap.chrome_processes, conf.max_chrome_procs)]
    } else {
        Seq::empty()
    };
    a + b + c
}

impl ResourceMonitor {
    pub fn new(conf: OrchestratorConfig) -> (m: Self)
        ensures
            m.conf == conf,
    {
        ResourceMonitor { conf }
    }

    /// Whether free memory, load and browser count are all within limits; `load_within` says
    /// whether the one-minute load is at most the load threshold.
    pub fn check_thresholds_inner(&self, free_ram_mb: u64, load_within: bool, chrome_count: usize) -> (b: bool)
        ensures
            b == (free_ram_mb >= self.conf.min_free_ram_mb && load_within && chrome_count
                <= self.conf.max_chrome_procs),
    {
        free_ram_mb >= self.conf.min_free_ram_mb && load_within && chrome_count <= self.conf.max_chrome_procs
    }

    /// A snapshot from what was read of the machine: free memory (twice the minimum when it
    /// could not be read), load averages, whether the one-minute load is within its threshold,
    /// and the browser count.
    pub fn snapshot(
        &self,
        free_ram_read: Option<u64>,
        load_1m_bits: u64,
        load_5m_bits: u64,
        load_within: bool,
        chrome_count: usize,
    ) -> (s: ResourceSnapshot)
        requires
            free_ram_read is None ==> self.conf.min_free_ram_mb * 2 <= u64::MAX,
        ensures
            s.free_ram_mb == match free_ram_read {
                Some(f) => f,
                None => (self.conf.min_free_ram_mb * 2) as u64,
            },
            s.load_1m_bits == load_1m_bits,
            s.load_5m_bits == load_5m_bits,
            s.chrome_processes == chrome_count,
            s.healthy == (s.free_ram_mb >= self.conf.min_free_ram_mb && load_within && chrome_count
                <= self.conf.max_chrome_procs),
    {
        let free_ram = match free_ram_read {
            Some(f) => f,
            None => self.conf.min_free_ram_mb * 2,
        };
        ResourceSnapshot {
            free_ram_mb: free_ram,
            load_1m_bits,
            load_5m_bits,
            chrome_processes: chrome_count,
            healthy: self.check_thresholds_inner(free_ram, load_within, chrome_count),
        }
    }

    /// The reasons for refusing to open a profile: memory, then `load_reason`, then browsers.
    pub fn fail_reasons(&self, snap: &ResourceSnapshot, load_reason: Option<String>) -> (r: Vec<String>)
        ensures
            strings(r@) == fail_reasons_spec(self.conf, *snap, match load_reason {
                Some(x) => Some(x@),
                None => None::<Seq<char>>,
            }),
    {
        let mut reasons: Vec<String> = Vec::new();
        if snap.free_ram_mb < self.conf.min_free_ram_mb {
            let mut v: Vec<char> = Vec::new();
            push_str(&mut v, "free_ram ");
            push_chars(&mut v, &decimal_chars(snap.free_ram_mb));
            push_str(&mut v, "MB < threshold ");
            push_chars(&mut v, &decimal_chars(self.conf.min_free_ram_mb));
            push_str(&mut v, "MB");
            reasons.push(string_of(&v));
        }
        let ghost a = strings(reasons@);
        if let Some(l) = load_reason {
            reasons.push(l);
        }
        let ghost b = strings(reasons@);
        if snap.chrome_processes > self.conf.max_chrome_procs {
            let mut v: Vec<char> = Vec::new();
            push_str(&mut v, "chrome_procs ");
            push_chars(&mut v, &decimal_chars(snap.chrome_processes as u64));
            push_str(&mut v, " > threshold ");
            push_chars(&mut v, &decimal_chars(self.conf.max_chrome_procs as u64));
            reasons.push(string_of(&v));
        }
        assert(strings(reasons@) =~= fail_reasons_spec(self.conf, *snap, match load_reason {
            Some(x) => Some(x@),
            None => None::<Seq<char>>,
        }));
        reasons
    }

    /// The verdict on a snapshot: exhausted exactly when there is a reason to refuse.
    pub fn check_thresholds(&self, snap: ResourceSnapshot, load_reason: Option<String>) -> (st: ResourceStatus)
        ensures
            is_verdict(self.conf, snap, match load_reason {
                Some(x) => Some(x@),
                None => None::<Seq<char>>,
            }, st),
            strings(st.reasons@) == fail_reasons_spec(self.conf, snap, match load_reason {
                Some(x) => Some(x@),
                None => None::<Seq<char>>,
            }),
            st.exhausted == (st.reasons@.len() > 0),
            st.snapshot == snap,
    {
        let reasons = self.fail_reasons(&snap, load_reason);
        assert(strings(reasons@).len() == reasons@.len());
        ResourceStatus { exhausted: reasons.len() > 0, reasons, snapshot: snap }
    }
}

} // verus!

verus! {

/// The words of `s` as `str::split_whitespace` yields them: the longest runs without whitespace.
pub open spec fn words(s: Seq<char>) -> Seq<Seq<char>>
    decreases s.len(),
{
    if s.len() == 0 {
        Seq::empty()
    } else {
        let r = words(s.drop_last());
        let c = s.last();
        if crate::text::is_ws(c) {
            r
        } else if s.len() >= 2 && !crate::text::is_ws(s[s.len() - 2]) {
            r.update(r.len() - 1, r.last().push(c))
        } else {
            r.push(seq![c])
        }
    }
}

/// The number an all-digit text writes in decimal.
pub open spec fn digits_value(s: Seq<char>) -> nat
    decreases s.len(),
{
    if s.len() == 0 {
        0
    } else {
        digits_value(s.drop_last()) * 10 + (s.last() as int - '0' as int) as nat
    }
}

/// Every character is an ASCII digit.
pub open spec fn all_digits(s: Seq<char>) -> bool {
    forall|i: int| 0 <= i < s.len() ==> '0' <= #[trigger] s[i] && s[i] <= '9'
}

/// `str::parse::<u64>`: an optional `+`, then one or more ASCII digits whose value fits.
pub open spec fn parsed_u64(s: Seq<char>) -> Option<u64> {
    let d = if s.len() > 0 && s[0] == '+' { s.drop_first() } else { s };
    if d.len() > 0 && all_digits(d) && digits_value(d) <= u64::MAX {
        Some(digits_value(d) as u64)
    } else {
        None
    }
}

proof fn lemma_digits_value_grows(s: Seq<char>, i: int)
    requires
        0 <= i <= s.len(),
        all_digits(s),
    ensures
        digits_value(s.take(i)) <= digits_value(s),
    decreases s.len() - i,
{
    if i < s.len() {
        lemma_digits_value_grows(s, i + 1);
        let t = s.take(i + 1);
        assert(t.drop_last() == s.take(i));
        assert('0' <= t.last() && t.last() <= '9');
    } else {
        assert(s.take(i) == s);
    }
}

/// `str::parse::<u64>` of a text.
pub fn parse_u64(s: &Vec<char>) -> (r: Option<u64>)
    ensures
        r == parsed_u64(s@),
{
    let start: usize = if s.len() > 0 && s[0] == '+' { 1 } else { 0 };
    let ghost d = if s@.len() > 0 && s@[0] == '+' { s@.drop_first() } else { s@ };
    assert(d == s@.subrange(start as int, s@.len() as int));
    if start >= s.len() {
        return None;
    }
    let mut i: usize = start;
    while i < s.len()
        invariant
            start <= i <= s@.len(),
            d == s@.subrange(start as int, s@.len() as int),
            d == (if s@.len() > 0 && s@[0] == '+' { s@.drop_first() } else { s@ }),
            d.len() > 0,
            forall|k: int| start <= k < i ==> '0' <= #[trigger] s@[k] && s@[k] <= '9',
        decreases s.len() - i,
    {
        if s[i] < '0' || s[i] > '9' {
            assert(d[i - start] == s@[i as int]);
            return None;
        }
        i = i + 1;
    }
    assert(all_digits(d)) by {
        assert forall|k: int| 0 <= k < d.len() implies '0' <= #[trigger] d[k] && d[k] <= '9' by {
            assert(d[k] == s@[start + k]);
        }
    }
    let mut value: u64 = 0;
    let mut j: usize = start;
    while j < s.len()
        invariant
            start <= j <= s@.len(),
            d == s@.subrange(start as int, s@.len() as int),
            d == (if s@.len() > 0 && s@[0] == '+' { s@.drop_first() } else { s@ }),
            d.len() > 0,
            all_digits(d),
            value == digits_value(d.take(j - start)),
        decreases s.len() - j,
    {
        let ghost t = d.take(j - start + 1);
        proof {
            assert(t.drop_last() == d.take(j - start));
            assert(t.last() == s@[j as int]);
            assert('0' <= d[j - start] && d[j - start] <= '9');
        }
        let digit: u64 = (s[j] as u32 - '0' as u32) as u64;
        assert(digit == (t.last() as int - '0' as int));
        match value.checked_mul(10) {
            None => {
                proof {
                    lemma_digits_value_grows(d, j - start + 1);
                }
                return None;
            },
            Some(v10) => match v10.checked_add(digit) {
                None => {
                    proof {
                        lemma_digits_value_grows(d, j - start + 1);
                    }
                    return None;
                },
                Some(v) => {
                    value = v;
                },
            },
        }
        j = j + 1;
    }
    assert(d.take(d.len() as int) == d);
    Some(value)
}

/// `s` begins with `p`.
pub open spec fn starts_with(s: Seq<char>, p: Seq<char>) -> bool {
    s.len() >= p.len() && s.take(p.len() as int) == p
}

/// The free memory, in MB, that a `MemAvailable:` line of `/proc/meminfo` gives: its second word
/// read as kB; `None` where that word is missing or no number.
pub open spec fn available_mb(line: Seq<char>) -> Option<u64> {
    let w = words(line);
    if w.len() >= 2 {
        match parsed_u64(w[1]) {
            Some(kb) => Some(kb / 1024),
            None => None,
        }
    } else {
        None
    }
}

/// What the first line of `lines` starting with `MemAvailable:` says of free memory.
pub open spec fn meminfo_available(lines: Seq<Seq<char>>) -> Option<u64>
    decreases lines.len(),
{
    if lines.len() == 0 {
        None
    } else if starts_with(lines[0], "MemAvailable:"@) {
        available_mb(lines[0])
    } else {
        meminfo_available(lines.drop_first())
    }
}

proof fn lemma_meminfo_skip(lines: Seq<Seq<char>>, i: int)
    requires
        0 <= i <= lines.len(),
        forall|k: int| 0 <= k < i ==> !starts_with(#[trigger] lines[k], "MemAvailable:"@),
    ensures
        meminfo_available(lines) == meminfo_available(lines.subrange(i, lines.len() as int)),
    decreases i,
{
    if i > 0 {
        let d = lines.drop_first();
        assert forall|k: int| 0 <= k < i - 1 implies !starts_with(#[trigger] d[k], "MemAvailable:"@) by {
            assert(d[k] == lines[k + 1]);
        }
        lemma_meminfo_skip(d, i - 1);
        assert(d.subrange(i - 1, d.len() as int) == lines.subrange(i, lines.len() as int));
    } else {
        assert(lines.subrange(0, lines.len() as int) == lines);
    }
}

/// The words of a text.
fn split_words(s: &Vec<char>) -> (r: Vec<Vec<char>>)
    ensures
        crate::text::char_vecs(r@) == words(s@),
{
    let mut done: Vec<Vec<char>> = Vec::new();
    let mut cur: Vec<char> = Vec::new();
    let mut i: usize = 0;
    while i < s.len()
        invariant
            0 <= i <= s@.len(),
            cur@.len() > 0 <==> (i > 0 && !crate::text::is_ws(s@[i - 1])),
            (if cur@.len() > 0 {
                crate::text::char_vecs(done@).push(cur@)
            } else {
                crate::text::char_vecs(done@)
            }) == words(s@.take(i as int)),
        decreases s.len() - i,
    {
        let ghost before = words(s@.take(i as int));
        proof {
            let t = s@.take(i + 1);
            assert(t.drop_last() == s@.take(i as int));
            assert(t.last() == s@[i as int]);
            if i > 0 {
                assert(t[t.len() - 2] == s@[i - 1]);
            }
        }
        let c = s[i];
        if crate::text::is_whitespace(c) {
            if cur.len() > 0 {
                done.push(cur);
                cur = Vec::new();
            }
        } else {
            let ghost dv = crate::text::char_vecs(done@);
            let was_empty = cur.len() == 0;
            cur.push(c);
            if !was_empty {
                assert(dv.push(cur@) =~= before.update(before.len() - 1, before.last().push(c)));
            } else {
                assert(dv == before);
                assert(cur@ =~= seq![c]);
            }
        }
        i = i + 1;
    }
    assert(s@.take(s@.len() as int) == s@);
    if cur.len() > 0 {
        done.push(cur);
    }
    done
}

/// What a `MemAvailable:` line says of free memory.
fn line_available_mb(line: &Vec<char>) -> (r: Option<u64>)
    ensures
        r == available_mb(line@),
{
    let w = split_words(line);
    if w.len() >= 2 {
        match parse_u64(&w[1]) {
            Some(kb) => Some(kb / 1024),
            None => None,
        }
    } else {
        None
    }
}

/// The free memory in MB that `/proc/meminfo` gives on its `MemAvailable:` line (kB divided by
/// 1024); `None` where there is no such line or it holds no number.
pub fn parse_meminfo(content: &str) -> (r: Option<u64>)
    ensures
        r == meminfo_available(crate::text::text_lines(content@)),
{
    let pieces = crate::text::line_chars(content);
    let ghost lines = crate::text::char_vecs(pieces@);
    let prefix = chars_of("MemAvailable:");
    let mut i: usize = 0;
    while i < pieces.len()
        invariant
            0 <= i <= pieces@.len(),
            lines == crate::text::char_vecs(pieces@),
            lines == crate::text::text_lines(content@),
            prefix@ == "MemAvailable:"@,
            forall|k: int| 0 <= k < i ==> !starts_with(#[trigger] lines[k], "MemAvailable:"@),
        decreases pieces.len() - i,
    {
        let line = &pieces[i];
        let mut hit = false;
        if line.len() >= prefix.len() {
            let head = crate::text::slice_chars(line, 0, prefix.len());
            hit = crate::text::eq_chars(&head, &prefix);
        }
        if hit {
            proof {
                lemma_meminfo_skip(lines, i as int);
                assert(lines[i as int] == line@);
                assert(line@.take(prefix@.len() as int) =~= line@.subrange(0, prefix@.len() as int));
                assert(starts_with(lines[i as int], "MemAvailable:"@));
                assert(lines.subrange(i as int, lines.len() as int)[0] == lines[i as int]);
            }
            return line_available_mb(line);
        }
        i = i + 1;
    }
    proof {
        lemma_meminfo_skip(lines, lines.len() as int);
    }
    None
}

/// Whether a process name (`/proc/<pid>/comm`) is a Chrome or Chromium browser's.
pub fn is_chrome_comm(comm: &str) -> (b: bool)
    ensures
        b == (crate::text::contains_seq(comm@, "chrome"@) || crate::text::contains_seq(comm@, "chromium"@)),
{
    let cs = chars_of(comm);
    let a = chars_of("chrome");
    let c = chars_of("chromium");
    crate::text::contains(&cs, &a) || crate::text::contains(&cs, &c)
}

} // verus!
