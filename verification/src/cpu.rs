//! CPU load, model names and clock speeds.

use crate::binary64::Binary64;
use crate::json;
use crate::json::Json;
use crate::json::JsonTree;
use crate::number;
use crate::text;
use std::collections::HashMap;
use vstd::prelude::*;

verus! {

/// A logical CPU's marketing model name. Kept per core because one machine can hold
/// cores of more than one model.
#[derive(Debug, PartialEq)]
pub struct CoreModel {
    pub cpu: u32,
    pub model: String,
}

/// The content of a core's model name.
pub struct Core {
    pub cpu: u32,
    pub model: Seq<char>,
}

impl View for CoreModel {
    type V = Core;

    open spec fn view(&self) -> Core {
        Core { cpu: self.cpu, model: self.model@ }
    }
}

pub open spec fn cores(v: Seq<CoreModel>) -> Seq<Core> {
    v.map_values(|m: CoreModel| m@)
}

/// The jiffies that `/proc/stat` counts, by what they were spent on.
#[derive(Clone, Copy, Debug)]
pub struct CpuTimes {
    pub user: u64,
    pub nice: u64,
    pub system: u64,
    pub idle: u64,
    pub iowait: u64,
    pub irq: u64,
    pub softirq: u64,
    pub steal: u64,
}

impl Default for CpuTimes {
    fn default() -> (r: CpuTimes)
        ensures
            r == no_times(),
    {
        CpuTimes { user: 0, nice: 0, system: 0, idle: 0, iowait: 0, irq: 0, softirq: 0, steal: 0 }
    }
}

pub open spec fn no_times() -> CpuTimes {
    CpuTimes { user: 0, nice: 0, system: 0, idle: 0, iowait: 0, irq: 0, softirq: 0, steal: 0 }
}

/// What passed between two samples. The load in percent is
/// `(1 - idle / total) * 100`, brought into 0 to 100; 0 when nothing passed.
#[derive(Clone, Copy, Debug, PartialEq, Eq, Structural)]
pub struct CpuUsage {
    pub idle: u64,
    pub total: u64,
}

#[derive(Debug)]
pub struct CpuState {
    /// Per-core model names, resolved once since they never change.
    pub models: Vec<CoreModel>,
    pub usage: CpuUsage,
}

impl CpuTimes {
    /// All that was counted.
    pub open spec fn sum(self) -> int {
        self.user + self.nice + self.system + self.idle + self.iowait + self.irq + self.softirq
            + self.steal
    }

    pub fn total(&self) -> (r: u64)
        requires
            self.sum() <= u64::MAX,
        ensures
            r == self.sum(),
    {
        self.user + self.nice + self.system + self.idle + self.iowait + self.irq + self.softirq
            + self.steal
    }

    /// Whether the sum of all counters can be formed.
    pub fn total_fits(&self) -> (r: bool)
        ensures
            r == (self.sum() <= u64::MAX),
    {
        let sum: u128 = self.user as u128 + self.nice as u128 + self.system as u128
            + self.idle as u128 + self.iowait as u128 + self.irq as u128 + self.softirq as u128
            + self.steal as u128;
        sum <= 0xffff_ffff_ffff_ffff
    }
}

/// How far a counter went up; nothing when it went down.
pub open spec fn advance(prev: int, curr: int) -> int {
    if curr >= prev {
        curr - prev
    } else {
        0
    }
}

/// What passed from one sample to the next.
pub open spec fn usage_between(prev: CpuTimes, curr: CpuTimes) -> CpuUsage {
    CpuUsage {
        idle: advance(prev.idle as int, curr.idle as int) as u64,
        total: advance(prev.sum(), curr.sum()) as u64,
    }
}

/// The counters on the first line of `/proc/stat`: eight numbers after the label.
pub open spec fn times_of(content: Seq<char>) -> Option<CpuTimes> {
    let lines = text::lines_of(content);
    if lines.len() == 0 {
        None
    } else {
        let w = text::words_of(lines[0]);
        if w.len() >= 9 && forall|i: int| 1 <= i <= 8 ==> number::u64_of(#[trigger] w[i]) is Some {
            Some(
                CpuTimes {
                    user: number::u64_of(w[1])->0,
                    nice: number::u64_of(w[2])->0,
                    system: number::u64_of(w[3])->0,
                    idle: number::u64_of(w[4])->0,
                    iowait: number::u64_of(w[5])->0,
                    irq: number::u64_of(w[6])->0,
                    softirq: number::u64_of(w[7])->0,
                    steal: number::u64_of(w[8])->0,
                },
            )
        } else {
            None
        }
    }
}

/// Reads the counters on the first line of `/proc/stat`.
pub fn parse_stat(content: &str) -> (r: Option<CpuTimes>)
    ensures
        r == times_of(content@),
{
    let chars = text::chars_of(content);
    let lines = text::lines(chars.as_slice());
    assert(text::texts(lines@).len() == lines@.len());
    if lines.len() == 0 {
        return None;
    }
    let words = text::words(lines[0]);
    let ghost w = text::words_of(text::lines_of(content@)[0]);
    assert(text::texts(words@) == w);
    if words.len() < 9 {
        return None;
    }
    let mut nums: Vec<u64> = Vec::new();
    for i in 1usize..9
        invariant
            words@.len() >= 9,
            text::texts(words@) == w,
            nums@.len() == i - 1,
            w == text::words_of(text::lines_of(content@)[0]),
            text::lines_of(content@).len() > 0,
            forall|j: int| 1 <= j < i ==> number::u64_of(#[trigger] w[j]) == Some(nums@[j - 1]),
    {
        assert(w[i as int] == words@[i as int]@);
        match number::parse_u64(words[i]) {
            Some(v) => nums.push(v),
            None => {
                return None;
            },
        }
    }
    assert(number::u64_of(w[1]) is Some && number::u64_of(w[2]) is Some && number::u64_of(
        w[3],
    ) is Some && number::u64_of(w[4]) is Some && number::u64_of(w[5]) is Some && number::u64_of(
        w[6],
    ) is Some && number::u64_of(w[7]) is Some && number::u64_of(w[8]) is Some);
    Some(
        CpuTimes {
            user: nums[0],
            nice: nums[1],
            system: nums[2],
            idle: nums[3],
            iowait: nums[4],
            irq: nums[5],
            softirq: nums[6],
            steal: nums[7],
        },
    )
}

fn went_up(prev: u64, curr: u64) -> (r: u64)
    ensures
        r == advance(prev as int, curr as int),
{
    if curr >= prev {
        curr - prev
    } else {
        0
    }
}

/// What passed from one sample to the next.
pub fn usage_deltas(prev: &CpuTimes, curr: &CpuTimes) -> (r: CpuUsage)
    requires
        prev.sum() <= u64::MAX,
        curr.sum() <= u64::MAX,
    ensures
        r == usage_between(*prev, *curr),
{
    CpuUsage { idle: went_up(prev.idle, curr.idle), total: went_up(prev.total(), curr.total()) }
}

/// Watches the load from sample to sample.
pub struct CpuMonitor {
    pub models: Vec<CoreModel>,
    pub prev: CpuTimes,
}

fn copy_models(models: &Vec<CoreModel>) -> (r: Vec<CoreModel>)
    ensures
        cores(r@) == cores(models@),
{
    let mut out: Vec<CoreModel> = Vec::new();
    for i in 0..models.len()
        invariant
            cores(out@) =~= cores(models@).take(i as int),
    {
        let ghost before = cores(out@);
        let copy = CoreModel {
            cpu: models[i].cpu,
            model: text::owned(models[i].model.as_str()),
        };
        out.push(copy);
        proof {
            assert(cores(out@) =~= before.push(copy@));
            assert(copy@ == cores(models@)[i as int]);
        }
    }
    assert(cores(models@).take(models@.len() as int) =~= cores(models@));
    out
}

impl CpuMonitor {
    /// Starts from a first sample, or from nothing when there is none.
    pub fn new(models: Vec<CoreModel>, first: Option<CpuTimes>) -> (r: CpuMonitor)
        ensures
            r.models == models,
            r.prev == (match first {
                Some(t) => t,
                None => no_times(),
            }),
    {
        let prev = match first {
            Some(t) => t,
            None => CpuTimes::default(),
        };
        CpuMonitor { models, prev }
    }

    /// Takes in a sample. A failed one changes nothing and gives no state.
    pub fn observe(&mut self, sample: Option<CpuTimes>) -> (r: Option<CpuState>)
        requires
            sample matches Some(curr) ==> curr.sum() <= u64::MAX && old(self).prev.sum()
                <= u64::MAX,
        ensures
            final(self).models == old(self).models,
            match sample {
                Some(curr) => {
                    &&& final(self).prev == curr
                    &&& r matches Some(state) && state.usage == usage_between(old(self).prev, curr)
                        && cores(state.models@) == cores(old(self).models@)
                },
                None => r is None && final(self).prev == old(self).prev,
            },
    {
        match sample {
            Some(curr) => {
                let usage = usage_deltas(&self.prev, &curr);
                self.prev = curr;
                Some(CpuState { models: copy_models(&self.models), usage })
            },
            None => None,
        }
    }
}

/// Between two samples of counters that only went up, no more idle time passed than
/// time, so the load lies between 0 and 100 percent.
pub proof fn law_usage_in_range(prev: CpuTimes, curr: CpuTimes)
    requires
        prev.sum() <= u64::MAX,
        curr.sum() <= u64::MAX,
        prev.user <= curr.user,
        prev.nice <= curr.nice,
        prev.system <= curr.system,
        prev.idle <= curr.idle,
        prev.iowait <= curr.iowait,
        prev.irq <= curr.irq,
        prev.softirq <= curr.softirq,
        prev.steal <= curr.steal,
    ensures
        usage_between(prev, curr).idle <= usage_between(prev, curr).total,
        usage_between(prev, curr).total == curr.sum() - prev.sum(),
{
}

/// A sample against itself: nothing passed.
pub proof fn law_no_time_no_usage(t: CpuTimes)
    ensures
        usage_between(t, t) == (CpuUsage { idle: 0, total: 0 }),
{
}

/// What precedes the first occurrence of `pat`, or all of `s`.
pub open spec fn cut_at(s: Seq<char>, pat: Seq<char>) -> Seq<char> {
    match text::find_of(s, pat) {
        Some(n) => s.take(n),
        None => s,
    }
}

/// A word like `12-Core`.
pub open spec fn counts_cores(word: Seq<char>) -> bool {
    match text::before_suffix(word, "-Core"@) {
        Some(n) => n.len() > 0 && text::all_digits(n),
        None => false,
    }
}

/// The words of a model name without a core count in front of a final `Processor`.
pub open spec fn without_core_count(words: Seq<Seq<char>>) -> Seq<Seq<char>> {
    if words.len() >= 2 && words.last() == "Processor"@ && counts_cores(words[words.len() - 2]) {
        words.take(words.len() - 2)
    } else {
        words
    }
}

/// A model name without the noise around it.
pub open spec fn clean_name(raw: Seq<char>) -> Seq<char> {
    let name = cut_at(cut_at(text::trimmed(raw), " with Radeon"@), " CPU @"@);
    let bare = text::without_text(text::without_text(name, "(R)"@), "(TM)"@);
    text::spaced(without_core_count(text::words_of(bare)))
}

fn cut<'a>(s: &'a [char], pat: &str) -> (r: &'a [char])
    ensures
        r@ == cut_at(s@, pat@),
{
    assert(s@.skip(0) =~= s@);
    match text::find(s, 0, pat) {
        Some(n) => &s[0..n],
        None => s,
    }
}

/// Whether a word is a bare digit count followed by `-Core`.
pub fn is_core_count(word: &str) -> (r: bool)
    ensures
        r == counts_cores(word@),
{
    let chars = text::chars_of(word);
    word_counts_cores(chars.as_slice())
}

fn word_counts_cores(word: &[char]) -> (r: bool)
    ensures
        r == counts_cores(word@),
{
    match text::strip_suffix(word, "-Core") {
        Some(n) => n.len() > 0 && text::digits_only(n),
        None => false,
    }
}

/// Strips from a model name the trademark markers, Intel's trailing clock speed, the
/// integrated GPU that AMD advertises, and AMD's trailing core count.
pub fn clean_model_name(raw: &str) -> (r: String)
    ensures
        r@ == clean_name(raw@),
{
    let chars = text::chars_of(raw);
    let cleaned = clean(chars.as_slice());
    text::string_of(cleaned.as_slice())
}

fn clean(raw: &[char]) -> (r: Vec<char>)
    ensures
        r@ == clean_name(raw@),
{
    let name = cut(cut(text::trim(raw), " with Radeon"), " CPU @");
    proof {
        reveal_strlit("(R)");
        reveal_strlit("(TM)");
    }
    let bare = text::remove_text(name, "(R)");
    let bare = text::remove_text(bare.as_slice(), "(TM)");
    let mut words = text::words(bare.as_slice());
    let ghost all = text::texts(words@);
    let n = words.len();
    if n >= 2 && text::is_text(words[n - 1], "Processor") && word_counts_cores(words[n - 2]) {
        assert(all.last() == words@[n - 1]@ && all[n - 2] == words@[n - 2]@);
        words.truncate(n - 2);
        assert(text::texts(words@) =~= all.take(n - 2));
    } else if n >= 2 {
        assert(all.last() == words@[n - 1]@ && all[n - 2] == words@[n - 2]@);
    }
    text::join_spaced(&words)
}

/// The core that a block of `/proc/cpuinfo` describes: it needs an index and a model
/// name, the last of each that it gives.
pub open spec fn core_of(block: Seq<Seq<char>>) -> Option<Core> {
    match (text::last_field(block, "processor"@), text::last_field(block, "model name"@)) {
        (Some(index), Some(model)) => match number::u32_of(index) {
            Some(cpu) => Some(Core { cpu, model: clean_name(model) }),
            None => None,
        },
        _ => None,
    }
}

/// The cores that blocks of `/proc/cpuinfo` describe.
pub open spec fn cores_of(blocks: Seq<Seq<Seq<char>>>) -> Seq<Core>
    decreases blocks.len(),
{
    if blocks.len() == 0 {
        Seq::empty()
    } else {
        let rest = cores_of(blocks.drop_last());
        match core_of(blocks.last()) {
            Some(core) => rest.push(core),
            None => rest,
        }
    }
}

/// The cores that `/proc/cpuinfo` describes with a model name.
pub open spec fn cpuinfo_models(content: Seq<char>) -> Seq<Core> {
    cores_of(text::paragraphs_of(text::lines_of(content)))
}

/// An index as the lines of a block give it so far.
pub open spec fn block_index(block: Seq<Seq<char>>) -> Option<u32> {
    match text::last_field(block, "processor"@) {
        Some(index) => number::u32_of(index),
        None => None,
    }
}

fn finish_core(cores_so_far: &mut Vec<CoreModel>, cpu: Option<u32>, model: Option<&[char]>)
    ensures
        cores(final(cores_so_far)@) == (match (cpu, model) {
            (Some(cpu), Some(model)) => cores(old(cores_so_far)@).push(
                Core { cpu, model: clean_name(model@) },
            ),
            _ => cores(old(cores_so_far)@),
        }),
{
    let ghost before = cores(cores_so_far@);
    if let (Some(cpu), Some(model)) = (cpu, model) {
        let cleaned = clean(model);
        let core = CoreModel { cpu, model: text::string_of(cleaned.as_slice()) };
        cores_so_far.push(core);
        assert(cores(cores_so_far@) =~= before.push(core@));
    }
}

/// Reads the model names in `/proc/cpuinfo`, which holds one block of lines per
/// logical CPU.
pub fn parse_cpuinfo_models(content: &str) -> (r: Vec<CoreModel>)
    ensures
        cores(r@) == cpuinfo_models(content@),
{
    let chars = text::chars_of(content);
    let lines = text::lines(chars.as_slice());
    let ghost all = text::lines_of(content@);
    let mut out: Vec<CoreModel> = Vec::new();
    let mut cpu: Option<u32> = None;
    let mut model: Option<&[char]> = None;
    proof {
        assert(all.take(0) =~= Seq::<Seq<char>>::empty());
        assert(cores(out@) =~= Seq::<Core>::empty());
    }
    for i in 0..lines.len()
        invariant
            all == text::texts(lines@),
            text::paragraphs_of(all.take(i as int)).len() > 0,
            cores(out@) == cores_of(text::paragraphs_of(all.take(i as int)).drop_last()),
            cpu == block_index(text::paragraphs_of(all.take(i as int)).last()),
            match model {
                Some(m) => text::last_field(
                    text::paragraphs_of(all.take(i as int)).last(),
                    "model name"@,
                ) == Some(m@),
                None => text::last_field(
                    text::paragraphs_of(all.take(i as int)).last(),
                    "model name"@,
                ) is None,
            },
    {
        let ghost before = text::paragraphs_of(all.take(i as int));
        let ghost after = text::paragraphs_of(all.take(i + 1));
        let line = lines[i];
        proof {
            assert(all.take(i + 1).drop_last() =~= all.take(i as int));
            assert(all.take(i + 1).last() == line@);
        }
        if line.len() == 0 {
            finish_core(&mut out, cpu, model);
            cpu = None;
            model = None;
            assert(after.drop_last() =~= before);
        } else {
            proof {
                assert(after.drop_last() =~= before.drop_last());
                assert(after.last().drop_last() =~= before.last());
                assert("processor"@ != "model name"@) by {
                    reveal_strlit("processor");
                    reveal_strlit("model name");
                    assert("processor"@.len() != "model name"@.len());
                }
            }
            if let Some(f) = text::field(line) {
                if text::is_text(f.0, "processor") {
                    cpu = number::parse_u32(f.1);
                } else if text::is_text(f.0, "model name") {
                    model = Some(f.1);
                }
            }
        }
    }
    finish_core(&mut out, cpu, model);
    assert(all.take(all.len() as int) =~= all);
    out
}

/// The cores whose model names `/proc/cpuinfo` gives; none when it could not be read.
pub open spec fn models_from_cpuinfo(content: Option<Seq<char>>) -> Seq<Core> {
    match content {
        Some(c) => cpuinfo_models(c),
        None => Seq::empty(),
    }
}

/// The model names in `/proc/cpuinfo`, given what was read of it.
pub fn read_models_from_cpuinfo(content: Option<&str>) -> (r: Vec<CoreModel>)
    ensures
        cores(r@) == models_from_cpuinfo(text::given(content)),
{
    match content {
        Some(c) => parse_cpuinfo_models(c),
        None => {
            let none: Vec<CoreModel> = Vec::new();
            assert(cores(none@) =~= Seq::<Core>::empty());
            none
        },
    }
}

/// The core that an entry of `lscpu`'s per-CPU listing describes. An index beyond 32
/// bits keeps its low ones.
pub open spec fn lscpu_core(entry: JsonTree) -> Option<Core> {
    match (entry.member("cpu"@), entry.member_text("modelname"@)) {
        (Some(index), Some(model)) => match index.unsigned() {
            Some(n) => Some(Core { cpu: (n % 0x1_0000_0000) as u32, model: clean_name(model) }),
            None => None,
        },
        _ => None,
    }
}

/// The cores that entries of `lscpu`'s listing describe.
pub open spec fn lscpu_cores(entries: Seq<JsonTree>) -> Seq<Core>
    decreases entries.len(),
{
    if entries.len() == 0 {
        Seq::empty()
    } else {
        let rest = lscpu_cores(entries.drop_last());
        match lscpu_core(entries.last()) {
            Some(core) => rest.push(core),
            None => rest,
        }
    }
}

/// The cores that `lscpu`'s listing describes under `cpus`.
pub open spec fn lscpu_models(listing: JsonTree) -> Seq<Core> {
    match listing.member("cpus"@) {
        Some(JsonTree::Array(entries)) => lscpu_cores(entries),
        _ => Seq::empty(),
    }
}

fn core_from_lscpu(entry: &Json) -> (r: Option<CoreModel>)
    ensures
        match r {
            Some(core) => lscpu_core(entry@) == Some(core@),
            None => lscpu_core(entry@) is None,
        },
{
    match (entry.get("cpu"), entry.get_str("modelname")) {
        (Some(index), Some(model)) => match index.as_u64() {
            Some(n) => Some(
                CoreModel { cpu: (n % 0x1_0000_0000) as u32, model: clean_model_name(model) },
            ),
            None => None,
        },
        _ => None,
    }
}

/// Reads the model names in `lscpu`'s per-CPU listing.
pub fn parse_lscpu_extended_models(json: &Json) -> (r: Vec<CoreModel>)
    ensures
        cores(r@) == lscpu_models(json@),
{
    let mut out: Vec<CoreModel> = Vec::new();
    assert(cores(out@) =~= Seq::<Core>::empty());
    let list = match json.get("cpus") {
        Some(v) => v.as_array(),
        None => None,
    };
    if let Some(entries) = list {
        let ghost all = json::trees(entries@);
        assert(all.take(0) =~= Seq::<JsonTree>::empty());
        for i in 0..entries.len()
            invariant
                all == json::trees(entries@),
                cores(out@) == lscpu_cores(all.take(i as int)),
        {
            let ghost before = cores(out@);
            proof {
                assert(all.take(i + 1).drop_last() =~= all.take(i as int));
                assert(all.take(i + 1).last() == entries@[i as int]@);
            }
            if let Some(core) = core_from_lscpu(&entries[i]) {
                out.push(core);
                assert(cores(out@) =~= before.push(core@));
            }
        }
        assert(all.take(all.len() as int) =~= all);
    }
    out
}

/// The cores that the output of `lscpu` describes; none when it did not run or what it
/// printed is no JSON.
pub open spec fn models_from_lscpu(output: Option<Seq<u8>>) -> Seq<Core> {
    match output {
        Some(bytes) => match json::document(bytes) {
            Some(listing) => lscpu_models(listing),
            None => Seq::empty(),
        },
        None => Seq::empty(),
    }
}

/// The model names that `lscpu -e=cpu,MODELNAME --json` printed.
pub fn read_models_from_lscpu(output: Option<&[u8]>) -> (r: Vec<CoreModel>)
    ensures
        cores(r@) == models_from_lscpu(text::given(output)),
{
    if let Some(bytes) = output {
        if let Some(listing) = json::parse(bytes) {
            return parse_lscpu_extended_models(&listing);
        }
    }
    let none: Vec<CoreModel> = Vec::new();
    assert(cores(none@) =~= Seq::<Core>::empty());
    none
}

/// The cores with their model names: from `/proc/cpuinfo` where it gives any, else from
/// `lscpu`.
pub open spec fn resolved_models(cpuinfo: Option<Seq<char>>, lscpu: Option<Seq<u8>>) -> Seq<Core> {
    let first = models_from_cpuinfo(cpuinfo);
    if first.len() > 0 {
        first
    } else {
        models_from_lscpu(lscpu)
    }
}

/// The per-core model names: from `/proc/cpuinfo` where it gives any, else from `lscpu`.
pub fn resolve_models(cpuinfo: Option<&str>, lscpu: Option<&[u8]>) -> (r: Vec<CoreModel>)
    ensures
        cores(r@) == resolved_models(text::given(cpuinfo), text::given(lscpu)),
{
    let first = read_models_from_cpuinfo(cpuinfo);
    assert(cores(first@).len() == first@.len());
    if first.len() > 0 {
        return first;
    }
    read_models_from_lscpu(lscpu)
}

/// A core's clock speed as `/proc/cpuinfo` writes it, in MHz.
#[derive(Debug)]
pub struct SpeedText {
    pub cpu: u32,
    pub mhz: String,
}

impl View for SpeedText {
    type V = (u32, Seq<char>);

    open spec fn view(&self) -> (u32, Seq<char>) {
        (self.cpu, self.mhz@)
    }
}

pub open spec fn speed_views(v: Seq<SpeedText>) -> Seq<(u32, Seq<char>)> {
    v.map_values(|t: SpeedText| t@)
}

/// The speed that a block of `/proc/cpuinfo` gives, with the index of its core.
pub open spec fn speed_of(block: Seq<Seq<char>>) -> Option<(u32, Seq<char>)> {
    match (block_index(block), text::last_field(block, "cpu MHz"@)) {
        (Some(cpu), Some(mhz)) => Some((cpu, mhz)),
        _ => None,
    }
}

/// The speeds that blocks of `/proc/cpuinfo` give.
pub open spec fn speeds_of(blocks: Seq<Seq<Seq<char>>>) -> Seq<(u32, Seq<char>)>
    decreases blocks.len(),
{
    if blocks.len() == 0 {
        Seq::empty()
    } else {
        let rest = speeds_of(blocks.drop_last());
        match speed_of(blocks.last()) {
            Some(speed) => rest.push(speed),
            None => rest,
        }
    }
}

/// The speeds that `/proc/cpuinfo` gives, as it writes them.
pub open spec fn speed_texts(content: Seq<char>) -> Seq<(u32, Seq<char>)> {
    speeds_of(text::paragraphs_of(text::lines_of(content)))
}

fn finish_speed(speeds: &mut Vec<SpeedText>, cpu: Option<u32>, mhz: Option<&[char]>)
    ensures
        speed_views(final(speeds)@) == (match (cpu, mhz) {
            (Some(cpu), Some(mhz)) => speed_views(old(speeds)@).push((cpu, mhz@)),
            _ => speed_views(old(speeds)@),
        }),
{
    let ghost before = speed_views(speeds@);
    if let (Some(cpu), Some(mhz)) = (cpu, mhz) {
        let speed = SpeedText { cpu, mhz: text::string_of(mhz) };
        speeds.push(speed);
        assert(speed_views(speeds@) =~= before.push(speed@));
    }
}

/// Reads the clock speeds in `/proc/cpuinfo`, as it writes them: one for each block that
/// names both its core and a speed.
pub fn cpuinfo_speed_texts(content: &str) -> (r: Vec<SpeedText>)
    ensures
        speed_views(r@) == speed_texts(content@),
{
    let chars = text::chars_of(content);
    let lines = text::lines(chars.as_slice());
    let ghost all = text::lines_of(content@);
    let mut out: Vec<SpeedText> = Vec::new();
    let mut cpu: Option<u32> = None;
    let mut mhz: Option<&[char]> = None;
    proof {
        assert(all.take(0) =~= Seq::<Seq<char>>::empty());
        assert(speed_views(out@) =~= Seq::<(u32, Seq<char>)>::empty());
    }
    for i in 0..lines.len()
        invariant
            all == text::texts(lines@),
            text::paragraphs_of(all.take(i as int)).len() > 0,
            speed_views(out@) == speeds_of(text::paragraphs_of(all.take(i as int)).drop_last()),
            cpu == block_index(text::paragraphs_of(all.take(i as int)).last()),
            text::given(mhz) == text::last_field(
                text::paragraphs_of(all.take(i as int)).last(),
                "cpu MHz"@,
            ),
    {
        let ghost before = text::paragraphs_of(all.take(i as int));
        let ghost after = text::paragraphs_of(all.take(i + 1));
        let line = lines[i];
        proof {
            assert(all.take(i + 1).drop_last() =~= all.take(i as int));
            assert(all.take(i + 1).last() == line@);
        }
        if line.len() == 0 {
            finish_speed(&mut out, cpu, mhz);
            cpu = None;
            mhz = None;
            assert(after.drop_last() =~= before);
        } else {
            proof {
                assert(after.drop_last() =~= before.drop_last());
                assert(after.last().drop_last() =~= before.last());
                assert("processor"@ != "cpu MHz"@) by {
                    reveal_strlit("processor");
                    reveal_strlit("cpu MHz");
                    assert("processor"@.len() != "cpu MHz"@.len());
                }
            }
            if let Some(f) = text::field(line) {
                if text::is_text(f.0, "processor") {
                    cpu = number::parse_u32(f.1);
                } else if text::is_text(f.0, "cpu MHz") {
                    mhz = Some(f.1);
                }
            }
        }
    }
    finish_speed(&mut out, cpu, mhz);
    assert(all.take(all.len() as int) =~= all);
    out
}

/// The speeds in MHz, rounded, by core: `parsed` holds the number that each text stands
/// for, where it is one. The last speed of a core counts.
pub open spec fn rounded_speeds(
    texts: Seq<(u32, Seq<char>)>,
    parsed: Seq<Option<Binary64>>,
) -> Map<u32, u32>
    decreases texts.len(),
{
    if texts.len() == 0 {
        Map::empty()
    } else {
        let rest = rounded_speeds(texts.drop_last(), parsed);
        match parsed[texts.len() - 1] {
            Some(mhz) => rest.insert(texts.last().0, mhz.nearest_u32() as u32),
            None => rest,
        }
    }
}

/// Reads the clock speeds in `/proc/cpuinfo`, in MHz, by core. `mhz` holds, for each of
/// the texts of `cpuinfo_speed_texts`, the number that it stands for.
pub fn parse_cpuinfo_speeds(content: &str, mhz: &Vec<Option<Binary64>>) -> (r: HashMap<u32, u32>)
    requires
        mhz@.len() == speed_texts(content@).len(),
    ensures
        r@ == rounded_speeds(speed_texts(content@), mhz@),
{
    broadcast use vstd::std_specs::hash::group_hash_axioms;

    let texts = cpuinfo_speed_texts(content);
    let ghost all = speed_texts(content@);
    let mut out: HashMap<u32, u32> = HashMap::new();
    assert(all.take(0) =~= Seq::<(u32, Seq<char>)>::empty());
    for i in 0..texts.len()
        invariant
            all == speed_views(texts@),
            mhz@.len() == all.len(),
            out@ == rounded_speeds(all.take(i as int), mhz@),
    {
        proof {
            assert(all.take(i + 1).drop_last() =~= all.take(i as int));
            assert(all.take(i + 1).last() == texts@[i as int]@);
        }
        if let Some(v) = mhz[i] {
            out.insert(texts[i].cpu, v.round_u32());
        }
    }
    assert(all.take(all.len() as int) =~= all);
    out
}

/// A directory under `/sys/devices/system/cpu`: its name, where that is text, and what
/// its `cpufreq/scaling_cur_freq` holds, where that can be read.
#[derive(Debug)]
pub struct CpuDir {
    pub name: Option<String>,
    pub frequency: Option<String>,
}

/// The content of a CPU directory.
pub struct Dir {
    pub name: Option<Seq<char>>,
    pub frequency: Option<Seq<char>>,
}

impl View for CpuDir {
    type V = Dir;

    open spec fn view(&self) -> Dir {
        Dir { name: text::maybe(self.name), frequency: text::maybe(self.frequency) }
    }
}

pub open spec fn dirs(v: Seq<CpuDir>) -> Seq<Dir> {
    v.map_values(|d: CpuDir| d@)
}

/// The core that a directory named `cpu` and an index stands for, with its speed in kHz.
pub open spec fn frequency_of(dir: Dir) -> Option<(u32, u64)> {
    match (dir.name, dir.frequency) {
        (Some(name), Some(khz)) => match text::after_prefix(name, "cpu"@) {
            Some(index) => match (number::u32_of(index), number::u64_of(text::trimmed(khz))) {
                (Some(cpu), Some(khz)) => Some((cpu, khz)),
                _ => None,
            },
            None => None,
        },
        _ => None,
    }
}

/// Kilohertz in megahertz, to the nearest, in 32 bits.
pub open spec fn megahertz(khz: int) -> int {
    ((khz + 500) / 1000) % 0x1_0000_0000
}

/// The speeds in MHz that CPU directories give. The last speed of a core counts.
pub open spec fn sysfs_speeds(all: Seq<Dir>) -> Map<u32, u32>
    decreases all.len(),
{
    if all.len() == 0 {
        Map::empty()
    } else {
        let rest = sysfs_speeds(all.drop_last());
        match frequency_of(all.last()) {
            Some((cpu, khz)) => rest.insert(cpu, megahertz(khz as int) as u32),
            None => rest,
        }
    }
}

/// Whether every speed leaves room for rounding.
pub open spec fn frequencies_fit(all: Seq<Dir>) -> bool {
    forall|i: int|
        0 <= i < all.len() ==> (frequency_of(#[trigger] all[i]) matches Some((_, khz)) ==> khz
            <= u64::MAX - 500)
}

/// Kilohertz in megahertz, to the nearest.
pub fn khz_to_mhz(khz: u64) -> (r: u32)
    requires
        khz <= u64::MAX - 500,
    ensures
        r == megahertz(khz as int),
{
    (((khz + 500) / 1000) % 0x1_0000_0000) as u32
}

fn read_frequency(dir: &CpuDir) -> (r: Option<(u32, u64)>)
    ensures
        r == frequency_of(dir@),
{
    match (&dir.name, &dir.frequency) {
        (Some(name), Some(khz)) => {
            let name = text::chars_of(name.as_str());
            let khz = text::chars_of(khz.as_str());
            match text::strip_prefix(name.as_slice(), "cpu") {
                Some(index) => match (
                    number::parse_u32(index),
                    number::parse_u64(text::trim(khz.as_slice())),
                ) {
                    (Some(cpu), Some(khz)) => Some((cpu, khz)),
                    _ => None,
                },
                None => None,
            }
        },
        _ => None,
    }
}

/// Whether every speed leaves room for rounding.
pub fn speeds_fit(all: &Vec<CpuDir>) -> (r: bool)
    ensures
        r == frequencies_fit(dirs(all@)),
{
    for i in 0..all.len()
        invariant
            frequencies_fit(dirs(all@).take(i as int)),
    {
        let ghost d = dirs(all@);
        assert(d[i as int] == all@[i as int]@);
        if let Some((_, khz)) = read_frequency(&all[i]) {
            if khz > 0xffff_ffff_ffff_ffff - 500 {
                return false;
            }
        }
        assert forall|j: int| 0 <= j < i + 1 implies (frequency_of(
            #[trigger] d.take(i + 1)[j],
        ) matches Some((_, khz)) ==> khz <= u64::MAX - 500) by {
            if j < i {
                assert(d.take(i + 1)[j] == d.take(i as int)[j]);
            }
        }
    }
    assert(dirs(all@).take(all@.len() as int) =~= dirs(all@));
    true
}

/// The clock speeds in MHz, by core, that the directories under
/// `/sys/devices/system/cpu` give; none when they could not be listed.
pub fn read_sysfs_speeds(all: Option<&Vec<CpuDir>>) -> (r: HashMap<u32, u32>)
    requires
        all matches Some(v) ==> frequencies_fit(dirs(v@)),
    ensures
        r@ == (match all {
            Some(v) => sysfs_speeds(dirs(v@)),
            None => Map::empty(),
        }),
{
    broadcast use vstd::std_specs::hash::group_hash_axioms;

    let mut out: HashMap<u32, u32> = HashMap::new();
    if let Some(v) = all {
        let ghost d = dirs(v@);
        assert(d.take(0) =~= Seq::<Dir>::empty());
        for i in 0..v.len()
            invariant
                d == dirs(v@),
                frequencies_fit(d),
                out@ == sysfs_speeds(d.take(i as int)),
        {
            proof {
                assert(d.take(i + 1).drop_last() =~= d.take(i as int));
                assert(d[i as int] == v@[i as int]@);
            }
            if let Some((cpu, khz)) = read_frequency(&v[i]) {
                out.insert(cpu, khz_to_mhz(khz));
            }
        }
        assert(d.take(d.len() as int) =~= d);
    }
    out
}

/// The speeds in MHz that `/proc/cpuinfo` gives; none when it could not be read.
pub open spec fn cpuinfo_speeds(
    content: Option<Seq<char>>,
    mhz: Seq<Option<Binary64>>,
) -> Map<u32, u32> {
    match content {
        Some(c) => rounded_speeds(speed_texts(c), mhz),
        None => Map::empty(),
    }
}

/// The speeds in `/proc/cpuinfo`, given what was read of it and the numbers that its
/// speeds stand for.
pub fn read_cpuinfo_speeds(content: Option<&str>, mhz: &Vec<Option<Binary64>>) -> (r: HashMap<
    u32,
    u32,
>)
    requires
        content matches Some(c) ==> mhz@.len() == speed_texts(c@).len(),
    ensures
        r@ == cpuinfo_speeds(text::given(content), mhz@),
{
    broadcast use vstd::std_specs::hash::group_hash_axioms;

    match content {
        Some(c) => parse_cpuinfo_speeds(c, mhz),
        None => HashMap::new(),
    }
}

/// The speeds in MHz by core: from `/proc/cpuinfo` where it gives any, else from the CPU
/// directories.
pub open spec fn current_speeds(
    cpuinfo: Option<Seq<char>>,
    mhz: Seq<Option<Binary64>>,
    all: Option<Seq<Dir>>,
) -> Map<u32, u32> {
    if !cpuinfo_speeds(cpuinfo, mhz).is_empty() {
        cpuinfo_speeds(cpuinfo, mhz)
    } else {
        match all {
            Some(v) => sysfs_speeds(v),
            None => Map::empty(),
        }
    }
}

/// The current clock speed of each core in MHz: from `/proc/cpuinfo` where it gives any,
/// else from the directories under `/sys/devices/system/cpu`. `mhz` holds, for each of
/// the texts of `cpuinfo_speed_texts`, the number that it stands for.
pub fn read_speeds(
    cpuinfo: Option<&str>,
    mhz: &Vec<Option<Binary64>>,
    all: Option<&Vec<CpuDir>>,
) -> (r: HashMap<u32, u32>)
    requires
        cpuinfo matches Some(c) ==> mhz@.len() == speed_texts(c@).len(),
        cpuinfo_speeds(text::given(cpuinfo), mhz@).is_empty() ==> (all matches Some(v)
            ==> frequencies_fit(dirs(v@))),
    ensures
        r@ == current_speeds(
            text::given(cpuinfo),
            mhz@,
            match all {
                Some(v) => Some(dirs(v@)),
                None => None,
            },
        ),
{
    let first = read_cpuinfo_speeds(cpuinfo, mhz);
    if !first.is_empty() {
        return first;
    }
    read_sysfs_speeds(all)
}

/// A speed in MHz is the nearest to its kHz, as long as it fits 32 bits.
pub proof fn law_megahertz_nearest(khz: int)
    requires
        0 <= khz <= 4_294_967_295_499,
    ensures
        -500 < 1000 * megahertz(khz) - khz <= 500,
{
}

/// What a machine's blocks say of its cores does not depend on the blocks of other cores:
/// models that differ stay apart.
pub proof fn law_models_stay_apart(a: Seq<Seq<Seq<char>>>, b: Seq<Seq<Seq<char>>>)
    ensures
        cores_of(a + b) == cores_of(a) + cores_of(b),
    decreases b.len(),
{
    if b.len() == 0 {
        assert(a + b =~= a);
        assert(cores_of(a) + cores_of(b) =~= cores_of(a));
    } else {
        law_models_stay_apart(a, b.drop_last());
        assert((a + b).drop_last() =~= a + b.drop_last());
        assert((a + b).last() == b.last());
        assert(cores_of(a + b) =~= cores_of(a) + cores_of(b));
    }
}

/// The same holds of `lscpu`'s listing.
pub proof fn law_listed_models_stay_apart(a: Seq<JsonTree>, b: Seq<JsonTree>)
    ensures
        lscpu_cores(a + b) == lscpu_cores(a) + lscpu_cores(b),
    decreases b.len(),
{
    if b.len() == 0 {
        assert(a + b =~= a);
        assert(lscpu_cores(a) + lscpu_cores(b) =~= lscpu_cores(a));
    } else {
        law_listed_models_stay_apart(a, b.drop_last());
        assert((a + b).drop_last() =~= a + b.drop_last());
        assert((a + b).last() == b.last());
        assert(lscpu_cores(a + b) =~= lscpu_cores(a) + lscpu_cores(b));
    }
}

/// A model name without noise is left as it is.
pub proof fn law_plain_name_untouched(name: Seq<char>)
    requires
        text::spaced(text::words_of(name)) == name,
        text::find_of(name, " with Radeon"@) is None,
        text::find_of(name, " CPU @"@) is None,
        text::find_of(name, "(R)"@) is None,
        text::find_of(name, "(TM)"@) is None,
        without_core_count(text::words_of(name)) == text::words_of(name),
    ensures
        clean_name(name) == name,
{
    let words = text::words_of(name);
    text::lemma_words(name);
    if words.len() > 0 {
        text::lemma_spaced_ends(words);
        let last = words.len() - 1;
        assert(!text::is_white(words[0][0]));
        assert(!text::is_white(words[last][words[last].len() - 1]));
    }
    assert(text::trimmed(name) == name);
}

/// Whatever noise stands behind the marketing name, what is reported has no white space
/// around it and single spaces within.
pub proof fn law_clean_name_spaced(raw: Seq<char>)
    ensures
        exists|words: Seq<Seq<char>>|
            {
                &&& clean_name(raw) == #[trigger] text::spaced(words)
                &&& forall|i: int, j: int|
                    #![trigger words[i][j]]
                    0 <= i < words.len() && 0 <= j < words[i].len() ==> !text::is_white(words[i][j])
                &&& forall|i: int| 0 <= i < words.len() ==> (#[trigger] words[i]).len() > 0
            },
{
    let name = cut_at(cut_at(text::trimmed(raw), " with Radeon"@), " CPU @"@);
    let bare = text::without_text(text::without_text(name, "(R)"@), "(TM)"@);
    let all = text::words_of(bare);
    text::lemma_words(bare);
    let words = without_core_count(all);
    assert(clean_name(raw) == text::spaced(words));
    assert forall|i: int| 0 <= i < words.len() implies #[trigger] words[i] == all[i] by {}
}

/// A text with nothing to trim neither begins nor ends with white space.
proof fn lemma_trimmed_ends(s: Seq<char>)
    requires
        s.len() > 0,
        text::trimmed(s) == s,
    ensures
        !text::is_white(s[0]),
        !text::is_white(s.last()),
{
    text::lemma_skip_white(s);
    lemma_dropped(text::skip_white(s));
}

proof fn lemma_dropped(s: Seq<char>)
    ensures
        text::drop_white(s).len() <= s.len(),
        text::drop_white(s).len() == s.len() ==> text::drop_white(s) == s,
        text::drop_white(s).len() > 0 ==> !text::is_white(text::drop_white(s).last()),
        text::drop_white(s) == s.take(text::drop_white(s).len() as int),
    decreases s.len(),
{
    if s.len() > 0 && text::is_white(s.last()) {
        lemma_dropped(s.drop_last());
        let n = text::drop_white(s).len() as int;
        assert(s.drop_last().take(n) =~= s.take(n));
    } else {
        assert(s.take(s.len() as int) =~= s);
    }
}

/// A name that noise follows does not hold the noise itself.
proof fn lemma_no_noise_before(name: Seq<char>, noise: Seq<char>, tail: Seq<char>)
    requires
        noise.len() > 0,
        text::find_of(name + noise + tail, noise) == Some(name.len() as int),
    ensures
        text::find_of(name, noise) is None,
{
    let whole = name + noise + tail;
    text::lemma_find(whole, noise);
    text::lemma_find(name, noise);
    if let Some(n) = text::find_of(name, noise) {
        assert(noise =~= whole.skip(n).subrange(0, noise.len() as int)) by {
            assert(name.skip(n).subrange(0, noise.len() as int) =~= whole.skip(n).subrange(
                0,
                noise.len() as int,
            ));
        }
        assert(noise.is_prefix_of(whole.skip(n)));
    }
}

/// What a name with noise behind it is cut down to.
proof fn lemma_cut_noise(name: Seq<char>, noise: Seq<char>, tail: Seq<char>)
    requires
        name.len() > 0,
        text::trimmed(name) == name,
        noise.len() > 0,
        !text::is_white(noise.last()),
        text::find_of(name + noise + tail, noise) == Some(name.len() as int),
    ensures
        text::trimmed(name + noise + tail) == name + noise + text::drop_white(tail),
        cut_at(text::trimmed(name + noise + tail), noise) == name,
        cut_at(name, noise) == name,
{
    lemma_trimmed_ends(name);
    lemma_no_noise_before(name, noise, tail);
    let head = name + noise;
    assert(head[0] == name[0] && head.last() == noise.last());
    text::lemma_trimmed_tail(head, tail);
    text::lemma_find_behind(name, noise, tail, text::drop_white(tail));
    assert((name + noise + text::drop_white(tail)).take(name.len() as int) =~= name);
}

/// The integrated GPU that a name advertises is dropped, with all that follows.
pub proof fn law_radeon_dropped(name: Seq<char>, tail: Seq<char>)
    requires
        name.len() > 0,
        text::trimmed(name) == name,
        text::find_of(name + " with Radeon"@ + tail, " with Radeon"@) == Some(name.len() as int),
    ensures
        clean_name(name + " with Radeon"@ + tail) == clean_name(name),
{
    reveal_strlit(" with Radeon");
    lemma_cut_noise(name, " with Radeon"@, tail);
}

/// The clock speed behind a name is dropped, with all that follows.
pub proof fn law_clock_speed_dropped(name: Seq<char>, tail: Seq<char>)
    requires
        name.len() > 0,
        text::trimmed(name) == name,
        text::find_of(name + " CPU @"@ + tail, " with Radeon"@) is None,
        text::find_of(name + " CPU @"@ + tail, " CPU @"@) == Some(name.len() as int),
    ensures
        clean_name(name + " CPU @"@ + tail) == clean_name(name),
{
    reveal_strlit(" CPU @");
    let whole = name + " CPU @"@ + tail;
    let kept = text::drop_white(tail);
    lemma_cut_noise(name, " CPU @"@, tail);
    lemma_dropped(tail);
    let n = name.len() + " CPU @"@.len() + kept.len();
    assert(name + " CPU @"@ + kept =~= whole.subrange(0, n as int));
    text::lemma_find_in_piece(whole, " with Radeon"@, 0, n as int);
    assert(name =~= whole.subrange(0, name.len() as int));
    text::lemma_find_in_piece(whole, " with Radeon"@, 0, name.len() as int);
}

proof fn lemma_remove_once(a: Seq<char>, pat: Seq<char>, b: Seq<char>)
    requires
        pat.len() > 0,
        text::find_of(a + pat + b, pat) == Some(a.len() as int),
        text::find_of(b, pat) is None,
    ensures
        text::without_text(a + pat + b, pat) == a + b,
{
    let s = a + pat + b;
    assert(s.take(a.len() as int) =~= a);
    assert(s.skip(a.len() as int + pat.len()) =~= b);
    assert(text::without_text(b, pat) == b);
    assert(text::without_text(s, pat) == s.take(a.len() as int) + text::without_text(
        s.skip(a.len() as int + pat.len()),
        pat,
    ));
}

/// A registered trademark's marker is dropped, where taking it out leaves no noise.
pub proof fn law_registered_mark_dropped(a: Seq<char>, b: Seq<char>)
    requires
        text::trimmed(a + "(R)"@ + b) == a + "(R)"@ + b,
        text::find_of(a + "(R)"@ + b, " with Radeon"@) is None,
        text::find_of(a + "(R)"@ + b, " CPU @"@) is None,
        text::find_of(a + "(R)"@ + b, "(R)"@) == Some(a.len() as int),
        text::find_of(a + b, "(R)"@) is None,
        text::find_of(a + b, "(TM)"@) is None,
    ensures
        clean_name(a + "(R)"@ + b) == text::spaced(without_core_count(text::words_of(a + b))),
{
    reveal_strlit("(R)");
    assert(b =~= (a + b).subrange(a.len() as int, (a + b).len() as int));
    text::lemma_find_in_piece(a + b, "(R)"@, a.len() as int, (a + b).len() as int);
    lemma_remove_once(a, "(R)"@, b);
}

/// A trademark's marker is dropped, where taking it out leaves no noise.
pub proof fn law_trademark_dropped(a: Seq<char>, b: Seq<char>)
    requires
        text::trimmed(a + "(TM)"@ + b) == a + "(TM)"@ + b,
        text::find_of(a + "(TM)"@ + b, " with Radeon"@) is None,
        text::find_of(a + "(TM)"@ + b, " CPU @"@) is None,
        text::find_of(a + "(TM)"@ + b, "(R)"@) is None,
        text::find_of(a + "(TM)"@ + b, "(TM)"@) == Some(a.len() as int),
        text::find_of(a + b, "(TM)"@) is None,
    ensures
        clean_name(a + "(TM)"@ + b) == text::spaced(without_core_count(text::words_of(a + b))),
{
    reveal_strlit("(TM)");
    assert(b =~= (a + b).subrange(a.len() as int, (a + b).len() as int));
    text::lemma_find_in_piece(a + b, "(TM)"@, a.len() as int, (a + b).len() as int);
    lemma_remove_once(a, "(TM)"@, b);
}

/// A core count in front of a final `Processor` is dropped with it.
pub proof fn law_core_count_dropped(name: Seq<char>, count: Seq<char>)
    requires
        counts_cores(count),
        text::find_of(name + seq![' '] + count + " Processor"@, " with Radeon"@) is None,
        text::find_of(name + seq![' '] + count + " Processor"@, " CPU @"@) is None,
        text::find_of(name + seq![' '] + count + " Processor"@, "(R)"@) is None,
        text::find_of(name + seq![' '] + count + " Processor"@, "(TM)"@) is None,
    ensures
        clean_name(name + seq![' '] + count + " Processor"@) == text::spaced(text::words_of(name)),
{
    reveal_strlit("Processor");
    reveal_strlit(" Processor");
    reveal_strlit("-Core");
    let whole = name + seq![' '] + count + " Processor"@;
    let t = text::trimmed(whole);
    let start = text::skip_white(whole);
    lemma_skipped(whole);
    lemma_dropped(start);
    let from = whole.len() - start.len();
    assert(t =~= whole.subrange(from, from + t.len()));
    text::lemma_find_in_piece(whole, " with Radeon"@, from, from + t.len());
    text::lemma_find_in_piece(whole, " CPU @"@, from, from + t.len());
    text::lemma_find_in_piece(whole, "(R)"@, from, from + t.len());
    text::lemma_find_in_piece(whole, "(TM)"@, from, from + t.len());
    text::lemma_words_of_trimmed(whole);
    let front = name + seq![' '] + count;
    assert(whole =~= front + seq![' '] + "Processor"@);
    text::lemma_words_apart(front, ' ', "Processor"@);
    text::lemma_words_apart(name, ' ', count);
    assert forall|i: int| 0 <= i < count.len() implies !text::is_white(#[trigger] count[i]) by {
        let n = text::before_suffix(count, "-Core"@)->0;
        if i < n.len() {
            assert(n[i] == count[i]);
        } else {
            assert(count.subrange(n.len() as int, count.len() as int)[i - n.len()] == count[i]);
        }
    }
    text::lemma_one_word(count);
    text::lemma_one_word("Processor"@);
    let words = text::words_of(name);
    let all = words + seq![count] + seq!["Processor"@];
    assert(text::words_of(whole) =~= all);
    assert(all.take(all.len() - 2) =~= words);
}

proof fn lemma_skipped(s: Seq<char>)
    ensures
        text::skip_white(s).len() <= s.len(),
        text::skip_white(s) == s.skip(s.len() - text::skip_white(s).len()),
    decreases s.len(),
{
    if s.len() > 0 && text::is_white(s[0]) {
        lemma_skipped(s.skip(1));
        let n = s.len() - text::skip_white(s).len();
        assert(s.skip(1).skip(n - 1) =~= s.skip(n));
    } else {
        assert(s.skip(0) =~= s);
    }
}

/// Lines in front of an empty one and lines behind it make paragraphs of their own.
proof fn lemma_paragraphs_apart(a: Seq<Seq<char>>, b: Seq<Seq<char>>)
    ensures
        text::paragraphs_of(a + seq![Seq::<char>::empty()] + b) == text::paragraphs_of(a)
            + text::paragraphs_of(b),
        text::paragraphs_of(b).len() > 0,
    decreases b.len(),
{
    let empty = seq![Seq::<char>::empty()];
    let all = a + empty + b;
    let first = text::paragraphs_of(a);
    if b.len() == 0 {
        assert(all.drop_last() =~= a);
        assert(all.last() == Seq::<char>::empty());
        assert(text::paragraphs_of(all) =~= first + text::paragraphs_of(b));
    } else {
        let rest = text::paragraphs_of(b.drop_last());
        lemma_paragraphs_apart(a, b.drop_last());
        assert(all.drop_last() =~= a + empty + b.drop_last());
        assert(all.last() == b.last());
        assert((first + rest).last() == rest.last());
        assert((first + rest).drop_last() =~= first + rest.drop_last());
        assert(text::paragraphs_of(all) =~= first + text::paragraphs_of(b));
    }
}

/// Two texts of `/proc/cpuinfo`, the first of whole lines, joined by a blank line give the
/// models of both.
pub proof fn law_joined_models(a: Seq<char>, b: Seq<char>)
    requires
        a.len() > 0 ==> a.last() == '\n',
    ensures
        cpuinfo_models(a + seq!['\n'] + b) == cpuinfo_models(a) + cpuinfo_models(b),
{
    let lines = text::lines_of(a);
    let rest = seq!['\n'] + b;
    text::lemma_lines_apart(a, rest);
    assert(a + seq!['\n'] + b =~= a + rest);
    assert(text::index_of(rest, '\n') == 0);
    assert(rest.take(0) =~= Seq::<char>::empty());
    assert(rest.skip(1) =~= b);
    let empty = seq![Seq::<char>::empty()];
    assert(text::lines_of(rest) =~= empty + text::lines_of(b));
    assert(text::lines_of(a + rest) =~= lines + empty + text::lines_of(b));
    lemma_paragraphs_apart(lines, text::lines_of(b));
    law_models_stay_apart(text::paragraphs_of(lines), text::paragraphs_of(text::lines_of(b)));
}

} // verus!
