//! Memory and swap.

use crate::cpu;
use crate::number;
use crate::text;
use vstd::prelude::*;

verus! {

/// A fraction, `part / whole`; 0 when `whole` is.
#[derive(Clone, Copy, Debug, PartialEq, Eq, Structural)]
pub struct Ratio {
    pub part: u64,
    pub whole: u64,
}

/// What all zram devices hold together, in bytes.
#[derive(Clone, Copy, Debug, PartialEq, Eq, Structural)]
pub struct ZramStats {
    /// The memory that the compressed data takes.
    pub mem_used_bytes: u64,
    /// The compressed size of the stored data.
    pub compr_data_bytes: u64,
    /// The uncompressed size of the stored data.
    pub orig_data_bytes: u64,
    /// The size of the devices: the swap that they offer.
    pub disk_size_bytes: u64,
}

#[derive(Clone, Copy, Debug, PartialEq, Eq, Structural)]
pub struct MemoryState {
    pub used_bytes: u64,
    pub total_bytes: u64,
    /// 0 to 1.
    pub usage: Ratio,
    pub swap_used_bytes: u64,
    pub swap_total_bytes: u64,
    /// 0 to 1.
    pub swap_usage: Ratio,
    /// The memory that zswap's compressed pool takes; nothing when the kernel has no zswap.
    pub zswap_bytes: Option<u64>,
    /// The uncompressed size of the pages in zswap.
    pub zswapped_bytes: Option<u64>,
    /// Nothing when there is no zram device.
    pub zram: Option<ZramStats>,
}

/// The name and the number on a line of `/proc/meminfo`.
pub open spec fn entry_of(line: Seq<char>) -> Option<(Seq<char>, u64)> {
    match text::split_once_of(line, ":"@) {
        Some((name, rest)) => {
            let w = text::words_of(rest);
            if w.len() == 0 {
                None
            } else {
                match number::u64_of(w[0]) {
                    Some(v) => Some((text::trimmed(name), v)),
                    None => None,
                }
            }
        },
        None => None,
    }
}

/// The number under a name: on the last line that has one.
pub open spec fn value_of(lines: Seq<Seq<char>>, name: Seq<char>) -> Option<u64>
    decreases lines.len(),
{
    if lines.len() == 0 {
        None
    } else {
        match entry_of(lines.last()) {
            Some((n, v)) if n == name => Some(v),
            _ => value_of(lines.drop_last(), name),
        }
    }
}

/// Whether a number of KiB can be said in bytes.
pub open spec fn kib_fits(v: Option<u64>) -> bool {
    v matches Some(kib) ==> kib * 1024 <= u64::MAX
}

pub open spec fn or_zero(v: Option<u64>) -> u64 {
    match v {
        Some(x) => x,
        None => 0,
    }
}

pub open spec fn kib_bytes(v: Option<u64>) -> Option<u64> {
    match v {
        Some(kib) => Some((kib * 1024) as u64),
        None => None,
    }
}

/// Whether the numbers that `/proc/meminfo` gives can be said in bytes, as far as they are
/// needed.
pub open spec fn meminfo_fits(content: Seq<char>) -> bool {
    let lines = text::lines_of(content);
    value_of(lines, "MemTotal"@) is Some && value_of(lines, "MemAvailable"@) is Some ==> {
        &&& kib_fits(value_of(lines, "MemTotal"@))
        &&& kib_fits(value_of(lines, "MemAvailable"@))
        &&& kib_fits(value_of(lines, "SwapTotal"@))
        &&& kib_fits(value_of(lines, "SwapFree"@))
        &&& kib_fits(value_of(lines, "Zswap"@))
        &&& kib_fits(value_of(lines, "Zswapped"@))
    }
}

/// How much of a total is not free, in bytes, from KiB.
pub open spec fn used_bytes(total: u64, free: u64) -> int {
    cpu::advance(free * 1024, total * 1024)
}

/// What `/proc/meminfo` says, zram aside; nothing without the total and the available
/// memory.
pub open spec fn state_of(content: Seq<char>) -> Option<MemoryState> {
    let lines = text::lines_of(content);
    match (value_of(lines, "MemTotal"@), value_of(lines, "MemAvailable"@)) {
        (Some(total), Some(available)) => {
            let swap_total = or_zero(value_of(lines, "SwapTotal"@));
            let swap_free = or_zero(value_of(lines, "SwapFree"@));
            let used = used_bytes(total, available) as u64;
            let swap_used = used_bytes(swap_total, swap_free) as u64;
            Some(
                MemoryState {
                    used_bytes: used,
                    total_bytes: (total * 1024) as u64,
                    usage: Ratio { part: used, whole: (total * 1024) as u64 },
                    swap_used_bytes: swap_used,
                    swap_total_bytes: (swap_total * 1024) as u64,
                    swap_usage: Ratio { part: swap_used, whole: (swap_total * 1024) as u64 },
                    zswap_bytes: kib_bytes(value_of(lines, "Zswap"@)),
                    zswapped_bytes: kib_bytes(value_of(lines, "Zswapped"@)),
                    zram: None,
                },
            )
        },
        _ => None,
    }
}

fn read_entry<'a>(line: &'a [char]) -> (r: Option<(&'a [char], u64)>)
    ensures
        match r {
            Some((name, v)) => entry_of(line@) == Some((name@, v)),
            None => entry_of(line@) is None,
        },
{
    match text::split_once(line, ":") {
        Some(p) => {
            let w = text::words(p.1);
            assert(text::texts(w@).len() == w@.len());
            if w.len() == 0 {
                return None;
            }
            assert(text::texts(w@)[0] == w@[0]@);
            match number::parse_u64(w[0]) {
                Some(v) => Some((text::trim(p.0), v)),
                None => None,
            }
        },
        None => None,
    }
}

fn find_value(lines: &Vec<&[char]>, name: &str) -> (r: Option<u64>)
    ensures
        r == value_of(text::texts(lines@), name@),
{
    let ghost all = text::texts(lines@);
    let mut found: Option<u64> = None;
    assert(all.take(0) =~= Seq::<Seq<char>>::empty());
    for i in 0..lines.len()
        invariant
            all == text::texts(lines@),
            found == value_of(all.take(i as int), name@),
    {
        proof {
            assert(all.take(i + 1).drop_last() =~= all.take(i as int));
            assert(all.take(i + 1).last() == lines@[i as int]@);
        }
        if let Some((n, v)) = read_entry(lines[i]) {
            if text::is_text(n, name) {
                found = Some(v);
            }
        }
    }
    assert(all.take(all.len() as int) =~= all);
    found
}

fn fits(v: Option<u64>) -> (r: bool)
    ensures
        r == kib_fits(v),
{
    match v {
        Some(kib) => kib <= 0x3f_ffff_ffff_ffff,
        None => true,
    }
}

/// Whether the numbers that `/proc/meminfo` gives can be said in bytes.
pub fn meminfo_readable(content: &str) -> (r: bool)
    ensures
        r == meminfo_fits(content@),
{
    let chars = text::chars_of(content);
    let lines = text::lines(chars.as_slice());
    let total = find_value(&lines, "MemTotal");
    let available = find_value(&lines, "MemAvailable");
    if total.is_none() || available.is_none() {
        return true;
    }
    fits(total) && fits(available) && fits(find_value(&lines, "SwapTotal")) && fits(
        find_value(&lines, "SwapFree"),
    ) && fits(find_value(&lines, "Zswap")) && fits(find_value(&lines, "Zswapped"))
}

fn to_bytes(v: Option<u64>) -> (r: Option<u64>)
    requires
        kib_fits(v),
    ensures
        r == kib_bytes(v),
{
    match v {
        Some(kib) => Some(kib * 1024),
        None => None,
    }
}

fn not_free(total: u64, free: u64) -> (r: u64)
    requires
        total * 1024 <= u64::MAX,
        free * 1024 <= u64::MAX,
    ensures
        r == used_bytes(total, free),
{
    if total >= free {
        total * 1024 - free * 1024
    } else {
        0
    }
}

/// Reads `/proc/meminfo`.
pub fn parse_meminfo(content: &str) -> (r: Option<MemoryState>)
    requires
        meminfo_fits(content@),
    ensures
        r == state_of(content@),
{
    let chars = text::chars_of(content);
    let lines = text::lines(chars.as_slice());
    let (total, available) = match (
        find_value(&lines, "MemTotal"),
        find_value(&lines, "MemAvailable"),
    ) {
        (Some(total), Some(available)) => (total, available),
        _ => {
            return None;
        },
    };
    let swap_total = match find_value(&lines, "SwapTotal") {
        Some(v) => v,
        None => 0,
    };
    let swap_free = match find_value(&lines, "SwapFree") {
        Some(v) => v,
        None => 0,
    };
    let used = not_free(total, available);
    let swap_used = not_free(swap_total, swap_free);
    Some(
        MemoryState {
            used_bytes: used,
            total_bytes: total * 1024,
            usage: Ratio { part: used, whole: total * 1024 },
            swap_used_bytes: swap_used,
            swap_total_bytes: swap_total * 1024,
            swap_usage: Ratio { part: swap_used, whole: swap_total * 1024 },
            zswap_bytes: to_bytes(find_value(&lines, "Zswap")),
            zswapped_bytes: to_bytes(find_value(&lines, "Zswapped")),
            zram: None,
        },
    )
}

/// A directory under `/sys/block`: its name, and what was read of its `mm_stat` and its
/// `disksize`.
#[derive(Debug)]
pub struct BlockDevice {
    pub name: String,
    pub mm_stat: Option<String>,
    pub disksize: Option<String>,
}

/// Whether a block device is a zram device: `zram` and a number.
pub open spec fn is_zram(name: Seq<char>) -> bool {
    text::after_prefix(name, "zram"@) matches Some(n) && n.len() > 0 && text::all_digits(n)
}

/// The number in a column; 0 when there is none.
pub open spec fn column(words: Seq<Seq<char>>, i: int) -> int {
    if i < words.len() {
        or_zero(number::u64_of(words[i])) as int
    } else {
        0
    }
}

/// Amounts that add up without bounds.
pub struct Totals {
    pub mem_used: int,
    pub compr_data: int,
    pub orig_data: int,
    pub disk_size: int,
}

pub open spec fn total_sum(a: Totals, b: Totals) -> Totals {
    Totals {
        mem_used: a.mem_used + b.mem_used,
        compr_data: a.compr_data + b.compr_data,
        orig_data: a.orig_data + b.orig_data,
        disk_size: a.disk_size + b.disk_size,
    }
}

/// What a zram device holds; nothing for other devices and those without `mm_stat`. The
/// first three columns of `mm_stat` are the original size, the compressed size and the
/// memory used.
pub open spec fn zram_of(d: BlockDevice) -> Option<Totals> {
    match text::maybe(d.mm_stat) {
        Some(stat) if is_zram(d.name@) => {
            let w = text::words_of(text::trimmed(stat));
            Some(
                Totals {
                    orig_data: column(w, 0),
                    compr_data: column(w, 1),
                    mem_used: column(w, 2),
                    disk_size: match text::maybe(d.disksize) {
                        Some(s) => or_zero(number::u64_of(text::trimmed(s))) as int,
                        None => 0,
                    },
                },
            )
        },
        _ => None,
    }
}

/// What all zram devices hold together; nothing when there is none.
pub open spec fn zram_totals(devices: Seq<BlockDevice>) -> Option<Totals>
    decreases devices.len(),
{
    if devices.len() == 0 {
        None
    } else {
        let rest = zram_totals(devices.drop_last());
        match zram_of(devices.last()) {
            Some(t) => Some(
                match rest {
                    Some(s) => total_sum(s, t),
                    None => t,
                },
            ),
            None => rest,
        }
    }
}

/// Whether all amounts fit 64 bits.
pub open spec fn totals_fit(t: Totals) -> bool {
    &&& t.mem_used <= u64::MAX
    &&& t.compr_data <= u64::MAX
    &&& t.orig_data <= u64::MAX
    &&& t.disk_size <= u64::MAX
}

pub open spec fn stats_of(t: Totals) -> ZramStats {
    ZramStats {
        mem_used_bytes: t.mem_used as u64,
        compr_data_bytes: t.compr_data as u64,
        orig_data_bytes: t.orig_data as u64,
        disk_size_bytes: t.disk_size as u64,
    }
}

/// Whether what the zram devices hold together can be said in 64 bits.
pub open spec fn zram_fits(devices: Option<Seq<BlockDevice>>) -> bool {
    devices matches Some(v) ==> (zram_totals(v) matches Some(t) ==> totals_fit(t))
}

fn zram_name(name: &str) -> (r: bool)
    ensures
        r == is_zram(name@),
{
    let chars = text::chars_of(name);
    match text::strip_prefix(chars.as_slice(), "zram") {
        Some(n) => n.len() > 0 && text::digits_only(n),
        None => false,
    }
}

fn read_column(words: &Vec<&[char]>, i: usize) -> (r: u64)
    ensures
        r == column(text::texts(words@), i as int),
{
    assert(text::texts(words@).len() == words@.len());
    if i < words.len() {
        assert(text::texts(words@)[i as int] == words@[i as int]@);
        match number::parse_u64(words[i]) {
            Some(v) => v,
            None => 0,
        }
    } else {
        0
    }
}

fn read_device(d: &BlockDevice) -> (r: Option<ZramStats>)
    ensures
        match r {
            Some(s) => zram_of(*d) matches Some(t) && totals_fit(t) && s == stats_of(t),
            None => zram_of(*d) is None,
        },
{
    if !zram_name(d.name.as_str()) {
        return None;
    }
    match &d.mm_stat {
        Some(stat) => {
            let chars = text::chars_of(stat.as_str());
            let w = text::words(text::trim(chars.as_slice()));
            let disk_size_bytes = match &d.disksize {
                Some(s) => {
                    let chars = text::chars_of(s.as_str());
                    match number::parse_u64(text::trim(chars.as_slice())) {
                        Some(v) => v,
                        None => 0,
                    }
                },
                None => 0,
            };
            Some(
                ZramStats {
                    orig_data_bytes: read_column(&w, 0),
                    compr_data_bytes: read_column(&w, 1),
                    mem_used_bytes: read_column(&w, 2),
                    disk_size_bytes,
                },
            )
        },
        None => None,
    }
}

/// Amounts are not negative, and more devices hold no less.
proof fn lemma_totals_grow(devices: Seq<BlockDevice>, n: int)
    requires
        0 <= n <= devices.len(),
    ensures
        zram_totals(devices.take(n)) matches Some(a) ==> {
            &&& a.mem_used >= 0
            &&& a.compr_data >= 0
            &&& a.orig_data >= 0
            &&& a.disk_size >= 0
            &&& zram_totals(devices) matches Some(b) && a.mem_used <= b.mem_used && a.compr_data
                <= b.compr_data && a.orig_data <= b.orig_data && a.disk_size <= b.disk_size
        },
    decreases devices.len(),
{
    if n == devices.len() {
        assert(devices.take(n) =~= devices);
        if n > 0 {
            lemma_totals_grow(devices.drop_last(), n - 1);
            assert(devices.drop_last().take(n - 1) =~= devices.drop_last());
        }
    } else {
        lemma_totals_grow(devices.drop_last(), n);
        assert(devices.drop_last().take(n) =~= devices.take(n));
    }
}

fn plus(a: u64, b: u64) -> (r: Option<u64>)
    ensures
        r == (if a + b <= u64::MAX {
            Some((a + b) as u64)
        } else {
            None
        }),
{
    if b <= 0xffff_ffff_ffff_ffff - a {
        Some(a + b)
    } else {
        None
    }
}

/// What the zram devices hold together, as far as 64 bits can say it.
fn sum_zram(devices: &Vec<BlockDevice>) -> (r: Result<Option<ZramStats>, ()>)
    ensures
        match r {
            Ok(found) => {
                &&& zram_fits(Some(devices@))
                &&& found == (match zram_totals(devices@) {
                    Some(t) => Some(stats_of(t)),
                    None => None,
                })
            },
            Err(_) => !zram_fits(Some(devices@)),
        },
{
    let mut found: Option<ZramStats> = None;
    assert(devices@.take(0) =~= Seq::<BlockDevice>::empty());
    for i in 0..devices.len()
        invariant
            match zram_totals(devices@.take(i as int)) {
                Some(t) => totals_fit(t) && found == Some(stats_of(t)),
                None => found is None,
            },
    {
        proof {
            assert(devices@.take(i + 1).drop_last() =~= devices@.take(i as int));
            assert(devices@.take(i + 1).last() == devices@[i as int]);
            lemma_totals_grow(devices@, i as int);
            lemma_totals_grow(devices@, i + 1);
        }
        if let Some(s) = read_device(&devices[i]) {
            let sum = match found {
                Some(f) => {
                    match (
                        plus(f.mem_used_bytes, s.mem_used_bytes),
                        plus(f.compr_data_bytes, s.compr_data_bytes),
                        plus(f.orig_data_bytes, s.orig_data_bytes),
                        plus(f.disk_size_bytes, s.disk_size_bytes),
                    ) {
                        (
                            Some(mem_used_bytes),
                            Some(compr_data_bytes),
                            Some(orig_data_bytes),
                            Some(disk_size_bytes),
                        ) => ZramStats {
                            mem_used_bytes,
                            compr_data_bytes,
                            orig_data_bytes,
                            disk_size_bytes,
                        },
                        _ => {
                            return Err(());
                        },
                    }
                },
                None => s,
            };
            found = Some(sum);
        }
    }
    assert(devices@.take(devices@.len() as int) =~= devices@);
    Ok(found)
}

/// Whether what the zram devices hold together can be said in 64 bits.
pub fn zram_readable(devices: Option<&Vec<BlockDevice>>) -> (r: bool)
    ensures
        r == zram_fits(text::given(devices)),
{
    match devices {
        Some(v) => sum_zram(v).is_ok(),
        None => true,
    }
}

/// What all zram devices hold together; nothing when there is none, or the directories
/// could not be listed.
pub open spec fn zram_state(devices: Option<Seq<BlockDevice>>) -> Option<ZramStats> {
    match devices {
        Some(v) => match zram_totals(v) {
            Some(t) => Some(stats_of(t)),
            None => None,
        },
        None => None,
    }
}

/// What all zram devices hold together, given the directories under `/sys/block`; nothing
/// when there is none, or the directories could not be listed.
pub fn read_zram(devices: Option<&Vec<BlockDevice>>) -> (r: Option<ZramStats>)
    requires
        zram_fits(text::given(devices)),
    ensures
        r == zram_state(text::given(devices)),
{
    match devices {
        Some(v) => match sum_zram(v) {
            Ok(found) => found,
            Err(_) => None,
        },
        None => None,
    }
}

/// What `/proc/meminfo` and the zram devices say.
pub open spec fn full_state(
    content: Option<Seq<char>>,
    devices: Option<Seq<BlockDevice>>,
) -> Option<MemoryState> {
    match content {
        Some(c) => match state_of(c) {
            Some(s) => Some(MemoryState { zram: zram_state(devices), ..s }),
            None => None,
        },
        None => None,
    }
}

/// What `/proc/meminfo` and the zram devices say; nothing when the former could not be
/// read or lacks what is needed.
pub fn read_meminfo(content: Option<&str>, devices: Option<&Vec<BlockDevice>>) -> (r: Option<
    MemoryState,
>)
    requires
        content matches Some(c) ==> meminfo_fits(c@) && (state_of(c@) is Some ==> zram_fits(
            text::given(devices),
        )),
    ensures
        r == full_state(text::given(content), text::given(devices)),
{
    match content {
        Some(c) => match parse_meminfo(c) {
            Some(s) => {
                let mut state = s;
                state.zram = read_zram(devices);
                Some(state)
            },
            None => None,
        },
        None => None,
    }
}

/// No more is used than there is, of memory and of swap, so both fractions lie between 0
/// and 1; and without swap none is used.
pub proof fn law_used_within_total(content: Seq<char>)
    requires
        meminfo_fits(content),
    ensures
        state_of(content) matches Some(s) ==> {
            &&& s.used_bytes <= s.total_bytes
            &&& s.swap_used_bytes <= s.swap_total_bytes
            &&& s.usage == (Ratio { part: s.used_bytes, whole: s.total_bytes })
            &&& s.swap_usage == (Ratio { part: s.swap_used_bytes, whole: s.swap_total_bytes })
            &&& value_of(text::lines_of(content), "SwapTotal"@) is None ==> s.swap_usage == (Ratio {
                part: 0,
                whole: 0,
            })
        },
{
}

/// zswap is reported if and only if the kernel exposes it.
pub proof fn law_zswap_as_exposed(content: Seq<char>)
    ensures
        state_of(content) matches Some(s) ==> {
            &&& (s.zswap_bytes is Some <==> value_of(text::lines_of(content), "Zswap"@) is Some)
            &&& (s.zswapped_bytes is Some <==> value_of(
                text::lines_of(content),
                "Zswapped"@,
            ) is Some)
        },
{
}

/// zram is reported if and only if some zram device can be read.
pub proof fn law_zram_as_present(devices: Seq<BlockDevice>)
    ensures
        zram_totals(devices) is Some <==> exists|i: int|
            0 <= i < devices.len() && zram_of(#[trigger] devices[i]) is Some,
    decreases devices.len(),
{
    if devices.len() > 0 {
        let rest = devices.drop_last();
        law_zram_as_present(rest);
        assert forall|i: int| 0 <= i < rest.len() implies #[trigger] devices[i] == rest[i] by {}
        if zram_totals(rest) is Some {
            let i = choose|i: int| 0 <= i < rest.len() && zram_of(#[trigger] rest[i]) is Some;
            assert(zram_of(devices[i]) is Some);
        }
        assert(devices[devices.len() - 1] == devices.last());
    }
}

/// Two lists of devices hold together what each of them holds.
pub proof fn law_zram_adds_up(a: Seq<BlockDevice>, b: Seq<BlockDevice>)
    ensures
        zram_totals(a + b) == (match (zram_totals(a), zram_totals(b)) {
            (Some(x), Some(y)) => Some(total_sum(x, y)),
            (Some(x), None) => Some(x),
            (None, y) => y,
        }),
    decreases b.len(),
{
    if b.len() == 0 {
        assert(a + b =~= a);
    } else {
        law_zram_adds_up(a, b.drop_last());
        assert((a + b).drop_last() =~= a + b.drop_last());
        assert((a + b).last() == b.last());
    }
}

} // verus!
