//! Laws of CPU load, model names and clock speeds.

use crate::binary64::Binary64;
use crate::cpu;
use crate::cpu::Core;
use crate::cpu::CoreModel;
use crate::cpu::CpuDir;
use crate::cpu::CpuTimes;
use crate::cpu::Dir;
use crate::cpu::SpeedText;
use crate::json;
use crate::json::JsonTree;
use crate::laws;
use crate::number;
use crate::text;
use vstd::prelude::*;

verus! {

/// The first line of `/proc/stat` is a label and eight counters, in the kernel's order:
/// user, nice, system, idle, iowait, irq, softirq, steal. What follows does not matter.
pub proof fn law_counters(content: Seq<char>, n: Seq<u64>)
    requires
        text::lines_of(content).len() > 0,
        n.len() == 8,
        text::words_of(text::lines_of(content)[0]).len() >= 9,
        forall|i: int|
            0 <= i < 8 ==> number::u64_of(text::words_of(text::lines_of(content)[0])[i + 1])
                == Some(#[trigger] n[i]),
    ensures
        cpu::times_of(content) matches Some(t) && t.user == n[0] && t.nice == n[1] && t.system
            == n[2] && t.idle == n[3] && t.iowait == n[4] && t.irq == n[5] && t.softirq == n[6]
            && t.steal == n[7],
{
    let w = text::words_of(text::lines_of(content)[0]);
    assert forall|i: int| 1 <= i <= 8 implies number::u64_of(#[trigger] w[i]) is Some by {
        assert(number::u64_of(w[(i - 1) + 1]) == Some(n[i - 1]));
    }
    assert(number::u64_of(w[1]) == Some(n[0]));
    assert(number::u64_of(w[2]) == Some(n[1]));
    assert(number::u64_of(w[3]) == Some(n[2]));
    assert(number::u64_of(w[4]) == Some(n[3]));
    assert(number::u64_of(w[5]) == Some(n[4]));
    assert(number::u64_of(w[6]) == Some(n[5]));
    assert(number::u64_of(w[7]) == Some(n[6]));
    assert(number::u64_of(w[8]) == Some(n[7]));
}

/// With fewer counters, or one that is no number, there are none.
pub proof fn law_counters_complete(content: Seq<char>)
    ensures
        cpu::times_of(content) is Some ==> text::lines_of(content).len() > 0 && text::words_of(
            text::lines_of(content)[0],
        ).len() >= 9 && forall|i: int|
            1 <= i <= 8 ==> number::u64_of(
                #[trigger] text::words_of(text::lines_of(content)[0])[i],
            ) is Some,
{
}

/// What is counted in one place adds to the sum as much, whichever it is.
pub proof fn law_sum(t: CpuTimes, k: u64)
    requires
        t.user + k <= u64::MAX,
        t.nice + k <= u64::MAX,
        t.system + k <= u64::MAX,
        t.idle + k <= u64::MAX,
        t.iowait + k <= u64::MAX,
        t.irq + k <= u64::MAX,
        t.softirq + k <= u64::MAX,
        t.steal + k <= u64::MAX,
    ensures
        (CpuTimes { user: (t.user + k) as u64, ..t }).sum() == t.sum() + k,
        (CpuTimes { nice: (t.nice + k) as u64, ..t }).sum() == t.sum() + k,
        (CpuTimes { system: (t.system + k) as u64, ..t }).sum() == t.sum() + k,
        (CpuTimes { idle: (t.idle + k) as u64, ..t }).sum() == t.sum() + k,
        (CpuTimes { iowait: (t.iowait + k) as u64, ..t }).sum() == t.sum() + k,
        (CpuTimes { irq: (t.irq + k) as u64, ..t }).sum() == t.sum() + k,
        (CpuTimes { softirq: (t.softirq + k) as u64, ..t }).sum() == t.sum() + k,
        (CpuTimes { steal: (t.steal + k) as u64, ..t }).sum() == t.sum() + k,
        cpu::no_times().sum() == 0,
        cpu::no_times().user == 0 && cpu::no_times().idle == 0,
{
}

/// What passed, added to the first sample, makes the second; a counter that went down
/// counts for nothing.
pub proof fn law_what_passed(prev: CpuTimes, curr: CpuTimes)
    requires
        prev.sum() <= u64::MAX,
        curr.sum() <= u64::MAX,
    ensures
        ({
            let u = cpu::usage_between(prev, curr);
            &&& prev.idle <= curr.idle ==> prev.idle + u.idle == curr.idle
            &&& prev.idle > curr.idle ==> u.idle == 0
            &&& prev.sum() <= curr.sum() ==> prev.sum() + u.total == curr.sum()
            &&& prev.sum() > curr.sum() ==> u.total == 0
        }),
{
}

/// A core count is digits and `-Core`.
pub proof fn law_core_count(word: Seq<char>, digits: Seq<char>)
    ensures
        digits.len() > 0 && text::all_digits(digits) && word == digits + "-Core"@
            ==> cpu::counts_cores(word),
        cpu::counts_cores(word) ==> exists|d: Seq<char>|
            word == #[trigger] (d + "-Core"@) && d.len() > 0 && text::all_digits(d),
{
    laws::text::law_suffix(word, "-Core"@, digits);
    if cpu::counts_cores(word) {
        let d = text::before_suffix(word, "-Core"@)->0;
        laws::text::law_suffix(word, "-Core"@, d);
        assert(word == d + "-Core"@);
    }
}

/// A block of `/proc/cpuinfo` gives its core if and only if it holds an index and a model
/// name; the last of each counts.
pub proof fn law_core_of_block(content: Seq<char>)
    requires
        forall|i: int|
            0 <= i < text::lines_of(content).len() ==> (#[trigger] text::lines_of(content)[i]).len()
                > 0,
    ensures
        ({
            let lines = text::lines_of(content);
            let models = cpu::cpuinfo_models(content);
            match (
                text::last_field(lines, "processor"@),
                text::last_field(lines, "model name"@),
            ) {
                (Some(index), Some(model)) if number::u32_of(index) is Some => models.len() == 1
                    && models[0].cpu == number::u32_of(index)->0 && models[0].model
                    == cpu::clean_name(model),
                _ => models.len() == 0,
            }
        }),
{
    let lines = text::lines_of(content);
    laws::text::law_paragraphs(lines, lines);
    reveal_with_fuel(cpu::cores_of, 2);
    assert(seq![lines].drop_last() =~= Seq::<Seq<Seq<char>>>::empty());
}

/// The models in `/proc/cpuinfo` count where there are any, and those of `lscpu` only
/// where there are none. What could not be read gives none.
pub proof fn law_cpuinfo_before_lscpu(
    cpuinfo: Option<Seq<char>>,
    lscpu: Option<Seq<u8>>,
    content: Seq<char>,
    bytes: Seq<u8>,
)
    ensures
        cpu::models_from_cpuinfo(Some(content)) == cpu::cpuinfo_models(content),
        cpu::models_from_cpuinfo(None).len() == 0,
        cpu::models_from_lscpu(None).len() == 0,
        json::document(bytes) is None ==> cpu::models_from_lscpu(Some(bytes)).len() == 0,
        json::document(bytes) matches Some(listing) ==> cpu::models_from_lscpu(Some(bytes))
            == cpu::lscpu_models(listing),
        cpu::models_from_cpuinfo(cpuinfo).len() > 0 ==> cpu::resolved_models(cpuinfo, lscpu)
            == cpu::models_from_cpuinfo(cpuinfo),
        cpu::models_from_cpuinfo(cpuinfo).len() == 0 ==> cpu::resolved_models(cpuinfo, lscpu)
            == cpu::models_from_lscpu(lscpu),
{
}

/// An entry of `lscpu`'s listing gives its core if and only if it holds an index and a
/// model name.
pub proof fn law_core_of_entry(entry: JsonTree)
    ensures
        ({
            let models = cpu::lscpu_cores(seq![entry]);
            match (entry.member("cpu"@), entry.member("modelname"@)) {
                (Some(JsonTree::Number(n)), Some(JsonTree::Text(model))) if n.unsigned is Some => {
                    &&& models.len() == 1
                    &&& n.unsigned->0 <= u32::MAX ==> models[0].cpu == n.unsigned->0
                    &&& models[0].cpu == n.unsigned->0 % 0x1_0000_0000
                    &&& models[0].model == cpu::clean_name(model)
                },
                _ => models.len() == 0,
            }
        }),
{
    reveal_with_fuel(cpu::lscpu_cores, 2);
    assert(seq![entry].drop_last() =~= Seq::<JsonTree>::empty());
}

/// The listing is the array under `cpus`.
pub proof fn law_listing(listing: JsonTree, entries: Seq<JsonTree>)
    ensures
        listing.member("cpus"@) == Some(JsonTree::Array(entries)) ==> cpu::lscpu_models(listing)
            == cpu::lscpu_cores(entries),
        !(listing.member("cpus"@) matches Some(JsonTree::Array(_))) ==> cpu::lscpu_models(
            listing,
        ).len() == 0,
{
}

/// A block of `/proc/cpuinfo` gives a speed if and only if it holds an index and a speed;
/// the last of each counts.
pub proof fn law_speed_of_block(content: Seq<char>)
    requires
        forall|i: int|
            0 <= i < text::lines_of(content).len() ==> (#[trigger] text::lines_of(content)[i]).len()
                > 0,
    ensures
        ({
            let lines = text::lines_of(content);
            let speeds = cpu::speed_texts(content);
            match (text::last_field(lines, "processor"@), text::last_field(lines, "cpu MHz"@)) {
                (Some(index), Some(mhz)) if number::u32_of(index) is Some => speeds.len() == 1
                    && speeds[0] == (number::u32_of(index)->0, mhz),
                _ => speeds.len() == 0,
            }
        }),
{
    let lines = text::lines_of(content);
    laws::text::law_paragraphs(lines, lines);
    reveal_with_fuel(cpu::speeds_of, 2);
    assert(seq![lines].drop_last() =~= Seq::<Seq<Seq<char>>>::empty());
}

proof fn lemma_speeds_apart(a: Seq<Seq<Seq<char>>>, b: Seq<Seq<Seq<char>>>)
    ensures
        cpu::speeds_of(a + b) == cpu::speeds_of(a) + cpu::speeds_of(b),
    decreases b.len(),
{
    if b.len() == 0 {
        assert(a + b =~= a);
    } else {
        lemma_speeds_apart(a, b.drop_last());
        assert((a + b).drop_last() =~= a + b.drop_last());
        assert((a + b).last() == b.last());
    }
    assert(cpu::speeds_of(a + b) =~= cpu::speeds_of(a) + cpu::speeds_of(b));
}

/// Two texts of `/proc/cpuinfo`, the first of whole lines, joined by a blank line give the
/// speeds of both.
pub proof fn law_joined_speeds(a: Seq<char>, b: Seq<char>)
    requires
        a.len() > 0 ==> a.last() == '\n',
    ensures
        cpu::speed_texts(a + seq!['\n'] + b) == cpu::speed_texts(a) + cpu::speed_texts(b),
{
    let empty = Seq::<char>::empty();
    let rest = seq!['\n'] + b;
    laws::text::law_lines_follow(a, rest);
    laws::text::law_lines_follow(seq!['\n'], b);
    laws::text::law_one_line(empty);
    assert(empty + seq!['\n'] =~= seq!['\n']);
    assert(a + seq!['\n'] + b =~= a + rest);
    let la = text::lines_of(a);
    let lb = text::lines_of(b);
    assert(text::lines_of(a + rest) =~= la + seq![empty] + lb);
    laws::text::law_paragraphs(la, lb);
    lemma_speeds_apart(text::paragraphs_of(la), text::paragraphs_of(lb));
}

/// One more speed: a number counts for its core, rounded, in place of an earlier one; what
/// is no number changes nothing.
pub proof fn law_one_more_speed(
    texts: Seq<(u32, Seq<char>)>,
    parsed: Seq<Option<Binary64>>,
    t: (u32, Seq<char>),
    x: Option<Binary64>,
)
    requires
        parsed.len() == texts.len(),
    ensures
        x is None ==> cpu::rounded_speeds(texts.push(t), parsed.push(x)) == cpu::rounded_speeds(
            texts,
            parsed,
        ),
        x matches Some(mhz) ==> cpu::rounded_speeds(texts.push(t), parsed.push(x))
            == cpu::rounded_speeds(texts, parsed).insert(t.0, mhz.nearest_u32() as u32),
        cpu::rounded_speeds(Seq::empty(), Seq::empty()) == Map::<u32, u32>::empty(),
{
    assert(texts.push(t).drop_last() =~= texts);
    lemma_rounded_prefix(texts, parsed, parsed.push(x));
}

proof fn lemma_rounded_prefix(
    texts: Seq<(u32, Seq<char>)>,
    a: Seq<Option<Binary64>>,
    b: Seq<Option<Binary64>>,
)
    requires
        a.len() >= texts.len(),
        b.len() >= texts.len(),
        forall|i: int| 0 <= i < texts.len() ==> #[trigger] a[i] == b[i],
    ensures
        cpu::rounded_speeds(texts, a) == cpu::rounded_speeds(texts, b),
    decreases texts.len(),
{
    if texts.len() > 0 {
        lemma_rounded_prefix(texts.drop_last(), a, b);
        assert(a[texts.len() - 1] == b[texts.len() - 1]);
    }
}

/// One more CPU directory: `cpu` and an index with a frequency counts for that core, in
/// place of an earlier one, in MHz; any other changes nothing.
pub proof fn law_one_more_directory(all: Seq<Dir>, d: Dir, index: Seq<char>)
    ensures
        cpu::sysfs_speeds(Seq::empty()) == Map::<u32, u32>::empty(),
        d.name == Some("cpu"@ + index) && number::u32_of(index) is Some && d.frequency is Some
            && number::u64_of(text::trimmed(d.frequency->0)) is Some ==> cpu::sysfs_speeds(
            all.push(d),
        ) == cpu::sysfs_speeds(all).insert(
            number::u32_of(index)->0,
            cpu::megahertz(number::u64_of(text::trimmed(d.frequency->0))->0 as int) as u32,
        ),
        d.name is None || d.frequency is None || !"cpu"@.is_prefix_of(d.name->0) || number::u64_of(
            text::trimmed(d.frequency->0),
        ) is None || (d.name == Some("cpu"@ + index) && number::u32_of(index) is None)
            ==> cpu::sysfs_speeds(all.push(d)) == cpu::sysfs_speeds(all),
{
    assert(all.push(d).drop_last() =~= all);
    if d.name is Some {
        laws::text::law_prefix(d.name->0, "cpu"@, index);
    }
}

/// The speeds in `/proc/cpuinfo` count where there are any, and those of the directories
/// only where there are none. What could not be read gives none.
pub proof fn law_cpuinfo_before_directories(
    content: Seq<char>,
    mhz: Seq<Option<Binary64>>,
    all: Seq<Dir>,
)
    ensures
        ({
            let first = cpu::rounded_speeds(cpu::speed_texts(content), mhz);
            &&& (exists|c: u32| first.dom().contains(c)) ==> cpu::current_speeds(
                Some(content),
                mhz,
                Some(all),
            ) == first && cpu::current_speeds(Some(content), mhz, None) == first
            &&& (forall|c: u32| !first.dom().contains(c)) ==> cpu::current_speeds(
                Some(content),
                mhz,
                Some(all),
            ) == cpu::sysfs_speeds(all)
        }),
        cpu::current_speeds(None, mhz, Some(all)) == cpu::sysfs_speeds(all),
        cpu::current_speeds(None, mhz, None) == Map::<u32, u32>::empty(),
{
    let first = cpu::rounded_speeds(cpu::speed_texts(content), mhz);
    if exists|c: u32| first.dom().contains(c) {
        let c = choose|c: u32| first.dom().contains(c);
        assert(!first.dom().is_empty()) by {
            assert(first.dom().contains(c));
            assert(!Set::<u32>::empty().contains(c));
        }
    } else {
        assert(first.dom() =~= Set::<u32>::empty());
    }
    assert(Map::<u32, u32>::empty().dom() =~= Set::<u32>::empty());
}

/// What was read is held as it is.
pub proof fn law_contents(
    m: CoreModel,
    ms: Seq<CoreModel>,
    t: SpeedText,
    ts: Seq<SpeedText>,
    d: CpuDir,
    ds: Seq<CpuDir>,
)
    ensures
        m@.cpu == m.cpu && m@.model == m.model@,
        cpu::cores(ms).len() == ms.len(),
        forall|i: int| 0 <= i < ms.len() ==> #[trigger] cpu::cores(ms)[i] == ms[i]@,
        t@ == (t.cpu, t.mhz@),
        cpu::speed_views(ts).len() == ts.len(),
        forall|i: int| 0 <= i < ts.len() ==> #[trigger] cpu::speed_views(ts)[i] == ts[i]@,
        d@.name == text::maybe(d.name) && d@.frequency == text::maybe(d.frequency),
        cpu::dirs(ds).len() == ds.len(),
        forall|i: int| 0 <= i < ds.len() ==> #[trigger] cpu::dirs(ds)[i] == ds[i]@,
{
}

/// A name in single-spaced words that holds none of the noise is left as it is: neither a
/// final `Processor` alone nor any other word goes.
pub proof fn law_nothing_else_dropped(words: Seq<Seq<char>>)
    requires
        forall|i: int, j: int|
            #![trigger words[i][j]]
            0 <= i < words.len() && 0 <= j < words[i].len() ==> !text::is_white(words[i][j]),
        forall|i: int| 0 <= i < words.len() ==> (#[trigger] words[i]).len() > 0,
        text::find_of(text::spaced(words), " with Radeon"@) is None,
        text::find_of(text::spaced(words), " CPU @"@) is None,
        text::find_of(text::spaced(words), "(R)"@) is None,
        text::find_of(text::spaced(words), "(TM)"@) is None,
        words.len() >= 2 && words.last() == "Processor"@ ==> forall|d: Seq<char>|
            words[words.len() - 2] == #[trigger] (d + "-Core"@) ==> d.len() == 0
                || !text::all_digits(d),
    ensures
        cpu::clean_name(text::spaced(words)) == text::spaced(words),
{
    laws::text::law_words_read_back(words);
    if words.len() >= 2 {
        law_core_count(words[words.len() - 2], Seq::empty());
    }
    cpu::law_plain_name_untouched(text::spaced(words));
}

/// What is left of a name is its words, one space apart, whatever white space there was.
pub proof fn law_white_space_in_names(words: Seq<Seq<char>>, raw: Seq<char>)
    requires
        text::words_of(raw) == words,
        text::trimmed(raw) == raw,
        text::find_of(raw, " with Radeon"@) is None,
        text::find_of(raw, " CPU @"@) is None,
        text::find_of(raw, "(R)"@) is None,
        text::find_of(raw, "(TM)"@) is None,
        words.len() < 2 || words.last() != "Processor"@,
    ensures
        cpu::clean_name(raw) == text::spaced(words),
{
}

/// One more CPU directory leaves room for rounding unless it gives a core a frequency of
/// which half a MHz more is beyond 64 bits.
pub proof fn law_room_for_rounding(all: Seq<Dir>, d: Dir, index: Seq<char>)
    ensures
        cpu::frequencies_fit(Seq::empty()),
        d.name == Some("cpu"@ + index) && number::u32_of(index) is Some && d.frequency is Some
            && number::u64_of(text::trimmed(d.frequency->0)) is Some ==> cpu::frequencies_fit(
            all.push(d),
        ) == (cpu::frequencies_fit(all) && number::u64_of(text::trimmed(d.frequency->0))->0 + 500
            < 0x1_0000_0000_0000_0000),
        d.name is None || d.frequency is None || !"cpu"@.is_prefix_of(d.name->0) || number::u64_of(
            text::trimmed(d.frequency->0),
        ) is None || (d.name == Some("cpu"@ + index) && number::u32_of(index) is None)
            ==> cpu::frequencies_fit(all.push(d)) == cpu::frequencies_fit(all),
{
    let more = all.push(d);
    if d.name is Some {
        laws::text::law_prefix(d.name->0, "cpu"@, index);
    }
    assert(more[all.len() as int] == d);
    if cpu::frequencies_fit(more) {
        assert forall|i: int| 0 <= i < all.len() implies (cpu::frequency_of(
            #[trigger] all[i],
        ) matches Some((_, khz)) ==> khz <= u64::MAX - 500) by {
            assert(more[i] == all[i]);
        }
    } else {
        let i = choose|i: int|
            0 <= i < more.len() && !(cpu::frequency_of(#[trigger] more[i]) matches Some((_, khz))
                ==> khz <= u64::MAX - 500);
        if i < all.len() {
            assert(more[i] == all[i]);
        }
    }
}

} // verus!
