//! Laws of memory and swap.

use crate::laws;
use crate::memory;
use crate::memory::BlockDevice;
use crate::memory::Totals;
use crate::number;
use crate::text;
use vstd::prelude::*;

verus! {

/// Whether a line of `/proc/meminfo` gives this number of KiB under this name: the name,
/// a colon, and the number as the first word behind it.
pub open spec fn gives(line: Seq<char>, name: Seq<char>, kib: u64) -> bool {
    exists|front: Seq<char>, rest: Seq<char>|
        {
            &&& line == #[trigger] (front + seq![':'] + rest)
            &&& forall|i: int| 0 <= i < front.len() ==> #[trigger] front[i] != ':'
            &&& text::trimmed(front) == name
            &&& text::words_of(rest).len() > 0
            &&& number::u64_of(text::words_of(rest)[0]) == Some(kib)
        }
}

/// Whether a line gives any number under this name.
pub open spec fn gives_some(line: Seq<char>, name: Seq<char>) -> bool {
    exists|kib: u64| #[trigger] gives(line, name, kib)
}

/// Whether `/proc/meminfo` gives this number of KiB under a name: on some line, and no
/// later line gives another.
pub open spec fn reports(content: Seq<char>, name: Seq<char>, kib: u64) -> bool {
    let lines = text::lines_of(content);
    exists|i: int|
        {
            &&& 0 <= i < lines.len()
            &&& gives(#[trigger] lines[i], name, kib)
            &&& forall|j: int| i < j < lines.len() ==> !gives_some(#[trigger] lines[j], name)
        }
}

/// Whether no line of `/proc/meminfo` gives a number under a name.
pub open spec fn lacks(content: Seq<char>, name: Seq<char>) -> bool {
    forall|i: int|
        0 <= i < text::lines_of(content).len() ==> !gives_some(
            #[trigger] text::lines_of(content)[i],
            name,
        )
}

proof fn lemma_entry(line: Seq<char>, name: Seq<char>, kib: u64)
    ensures
        memory::entry_of(line) == Some((name, kib)) <==> gives(line, name, kib),
{
    reveal_strlit(":");
    assert(":"@ =~= seq![':']);
    if memory::entry_of(line) == Some((name, kib)) {
        laws::text::law_split_once(line, seq![':']);
        let p = text::split_once_of(line, seq![':'])->0;
        let front = p.0;
        assert(line == front + seq![':'] + p.1);
        assert forall|i: int| 0 <= i < front.len() implies #[trigger] front[i] != ':' by {
            if front[i] == ':' {
                assert(line[i] == front[i]);
                assert(seq![':'] =~= line.skip(i).subrange(0, 1));
                assert(seq![':'].is_prefix_of(line.skip(i)));
            }
        }
    }
    if gives(line, name, kib) {
        let (front, rest) = choose|front: Seq<char>, rest: Seq<char>|
            {
                &&& line == #[trigger] (front + seq![':'] + rest)
                &&& forall|i: int| 0 <= i < front.len() ==> #[trigger] front[i] != ':'
                &&& text::trimmed(front) == name
                &&& text::words_of(rest).len() > 0
                &&& number::u64_of(text::words_of(rest)[0]) == Some(kib)
            };
        laws::text::law_split_once_at(front, ':', rest);
    }
}

proof fn lemma_value(lines: Seq<Seq<char>>, name: Seq<char>)
    ensures
        match memory::value_of(lines, name) {
            Some(kib) => exists|i: int|
                {
                    &&& 0 <= i < lines.len()
                    &&& gives(#[trigger] lines[i], name, kib)
                    &&& forall|j: int| i < j < lines.len() ==> !gives_some(#[trigger] lines[j], name)
                },
            None => forall|i: int| 0 <= i < lines.len() ==> !gives_some(#[trigger] lines[i], name),
        },
    decreases lines.len(),
{
    if lines.len() > 0 {
        let front = lines.drop_last();
        let last = lines[lines.len() - 1];
        lemma_value(front, name);
        assert forall|i: int| 0 <= i < front.len() implies #[trigger] lines[i] == front[i] by {}
        assert forall|kib: u64| #[trigger] gives(last, name, kib) implies memory::entry_of(last)
            == Some((name, kib)) by {
            lemma_entry(last, name, kib);
        }
        if let Some(e) = memory::entry_of(last) {
            lemma_entry(last, e.0, e.1);
            if e.0 == name {
                assert(gives(lines[lines.len() - 1], name, e.1));
            }
        }
        if !gives_some(last, name) {
            if let Some(kib) = memory::value_of(front, name) {
                let i = choose|i: int|
                    {
                        &&& 0 <= i < front.len()
                        &&& gives(#[trigger] front[i], name, kib)
                        &&& forall|j: int|
                            i < j < front.len() ==> !gives_some(#[trigger] front[j], name)
                    };
                assert(gives(lines[i], name, kib));
                assert forall|j: int| i < j < lines.len() implies !gives_some(
                    #[trigger] lines[j],
                    name,
                ) by {
                    if j < front.len() {
                        assert(lines[j] == front[j]);
                    }
                }
            }
        }
    }
}

proof fn lemma_gives_one(line: Seq<char>, name: Seq<char>, a: u64, b: u64)
    requires
        gives(line, name, a),
        gives(line, name, b),
    ensures
        a == b,
{
    lemma_entry(line, name, a);
    lemma_entry(line, name, b);
}

/// The number under a name is the one that is reported.
proof fn lemma_reported(content: Seq<char>, name: Seq<char>)
    ensures
        forall|kib: u64| #[trigger]
            reports(content, name, kib) <==> memory::value_of(text::lines_of(content), name)
                == Some(kib),
        lacks(content, name) <==> memory::value_of(text::lines_of(content), name) is None,
{
    let lines = text::lines_of(content);
    lemma_value(lines, name);
    assert forall|kib: u64| #[trigger] reports(content, name, kib) implies memory::value_of(
        lines,
        name,
    ) == Some(kib) by {
        let i = choose|i: int|
            {
                &&& 0 <= i < lines.len()
                &&& gives(#[trigger] lines[i], name, kib)
                &&& forall|j: int| i < j < lines.len() ==> !gives_some(#[trigger] lines[j], name)
            };
        assert(gives_some(lines[i], name));
        let v = memory::value_of(lines, name)->0;
        let k = choose|k: int|
            {
                &&& 0 <= k < lines.len()
                &&& gives(#[trigger] lines[k], name, v)
                &&& forall|j: int| k < j < lines.len() ==> !gives_some(#[trigger] lines[j], name)
            };
        assert(gives_some(lines[k], name));
        assert(i == k);
        lemma_gives_one(lines[i], name, kib, v);
    }
    if memory::value_of(lines, name) is Some {
        let v = memory::value_of(lines, name)->0;
        let k = choose|k: int|
            {
                &&& 0 <= k < lines.len()
                &&& gives(#[trigger] lines[k], name, v)
                &&& forall|j: int| k < j < lines.len() ==> !gives_some(#[trigger] lines[j], name)
            };
        assert(gives_some(lines[k], name));
    }
}

/// What is used and what is available make up the total, whatever other lines there are;
/// more available than there is means that nothing is used.
pub proof fn law_used_and_available_make_up_total(
    content: Seq<char>,
    total: u64,
    available: u64,
)
    requires
        memory::meminfo_fits(content),
        reports(content, "MemTotal"@, total),
        reports(content, "MemAvailable"@, available),
    ensures
        memory::state_of(content) matches Some(s) && {
            &&& s.total_bytes == 1024 * total
            &&& available <= total ==> s.used_bytes + 1024 * available == s.total_bytes
            &&& available > total ==> s.used_bytes == 0
            &&& s.usage.part == s.used_bytes
            &&& s.usage.whole == s.total_bytes
            &&& s.zram is None
        },
{
    lemma_reported(content, "MemTotal"@);
    lemma_reported(content, "MemAvailable"@);
}

/// Used and free swap make up the total; without a line, either counts as 0.
pub proof fn law_used_and_free_make_up_swap(content: Seq<char>, total: u64, free: u64)
    requires
        memory::meminfo_fits(content),
        reports(content, "SwapTotal"@, total) || (lacks(content, "SwapTotal"@) && total == 0),
        reports(content, "SwapFree"@, free) || (lacks(content, "SwapFree"@) && free == 0),
    ensures
        memory::state_of(content) matches Some(s) ==> {
            &&& s.swap_total_bytes == 1024 * total
            &&& free <= total ==> s.swap_used_bytes + 1024 * free == s.swap_total_bytes
            &&& free > total ==> s.swap_used_bytes == 0
            &&& s.swap_usage.part == s.swap_used_bytes
            &&& s.swap_usage.whole == s.swap_total_bytes
        },
{
    lemma_reported(content, "SwapTotal"@);
    lemma_reported(content, "SwapFree"@);
}

/// A state is given if and only if both the total and the available memory are reported.
pub proof fn law_state_needs_total_and_available(content: Seq<char>)
    ensures
        memory::state_of(content) is None <==> lacks(content, "MemTotal"@) || lacks(
            content,
            "MemAvailable"@,
        ),
{
    lemma_reported(content, "MemTotal"@);
    lemma_reported(content, "MemAvailable"@);
}

/// zswap is reported in bytes where the kernel reports it, and not otherwise.
pub proof fn law_zswap_in_bytes(content: Seq<char>, kib: u64)
    requires
        memory::meminfo_fits(content),
    ensures
        memory::state_of(content) matches Some(s) ==> {
            &&& reports(content, "Zswap"@, kib) ==> (s.zswap_bytes matches Some(b) && b == 1024
                * kib)
            &&& lacks(content, "Zswap"@) ==> s.zswap_bytes is None
            &&& reports(content, "Zswapped"@, kib) ==> (s.zswapped_bytes matches Some(b) && b
                == 1024 * kib)
            &&& lacks(content, "Zswapped"@) ==> s.zswapped_bytes is None
        },
{
    lemma_reported(content, "Zswap"@);
    lemma_reported(content, "Zswapped"@);
}

/// Numbers are read wherever they can be said in bytes.
pub proof fn law_readable_where_bytes_fit(content: Seq<char>)
    ensures
        (forall|name: Seq<char>, kib: u64| #[trigger]
            reports(content, name, kib) ==> kib * 1024 <= u64::MAX) ==> memory::meminfo_fits(content),
        lacks(content, "MemTotal"@) || lacks(content, "MemAvailable"@) ==> memory::meminfo_fits(
            content,
        ),
{
    lemma_reported(content, "MemTotal"@);
    lemma_reported(content, "MemAvailable"@);
    lemma_reported(content, "SwapTotal"@);
    lemma_reported(content, "SwapFree"@);
    lemma_reported(content, "Zswap"@);
    lemma_reported(content, "Zswapped"@);
    let lines = text::lines_of(content);
    if forall|name: Seq<char>, kib: u64| #[trigger]
        reports(content, name, kib) ==> kib * 1024 <= u64::MAX {
        assert forall|name: Seq<char>| memory::kib_fits(#[trigger] memory::value_of(lines, name)) by {
            lemma_reported(content, name);
            if let Some(kib) = memory::value_of(lines, name) {
                assert(reports(content, name, kib));
            }
        }
    }
}

/// The number in a text, 0 when it is none.
pub open spec fn number_or_zero(s: Seq<char>) -> int {
    match number::u64_of(s) {
        Some(v) => v as int,
        None => 0,
    }
}

/// A device counts if and only if its name is `zram` and a number and its `mm_stat` can be
/// read; the columns of that are the uncompressed size, the compressed size and the memory
/// taken, and what is missing counts as 0.
pub proof fn law_zram_device(d: BlockDevice, digits: Seq<char>)
    ensures
        d.name@ == "zram"@ + digits && digits.len() > 0 && text::all_digits(digits)
            && d.mm_stat is Some ==> memory::zram_of(d) is Some && ({
            let t = memory::zram_of(d)->0;
            let w = text::words_of(text::trimmed(d.mm_stat->0@));
            &&& t.orig_data == if w.len() > 0 {
                number_or_zero(w[0])
            } else {
                0
            }
            &&& t.compr_data == if w.len() > 1 {
                number_or_zero(w[1])
            } else {
                0
            }
            &&& t.mem_used == if w.len() > 2 {
                number_or_zero(w[2])
            } else {
                0
            }
            &&& t.disk_size == match d.disksize {
                Some(s) => number_or_zero(text::trimmed(s@)),
                None => 0,
            }
        }),
        memory::zram_of(d) is Some ==> d.mm_stat is Some && exists|digits: Seq<char>|
            d.name@ == #[trigger] ("zram"@ + digits) && digits.len() > 0 && text::all_digits(digits),
{
    laws::text::law_prefix(d.name@, "zram"@, digits);
    if memory::zram_of(d) is Some {
        let n = text::after_prefix(d.name@, "zram"@)->0;
        laws::text::law_prefix(d.name@, "zram"@, n);
        assert(d.name@ == "zram"@ + n);
    }
}

/// A single device gives what it holds, figure by figure; figures of two lists of devices
/// add up.
pub proof fn law_zram_sums(d: BlockDevice, a: Seq<BlockDevice>, b: Seq<BlockDevice>, t: Totals)
    ensures
        memory::zram_totals(seq![d]) == memory::zram_of(d),
        memory::zram_totals(Seq::empty()) is None,
        memory::zram_totals(a) matches Some(x) ==> (memory::zram_totals(b) matches Some(y) ==> (
        memory::zram_totals(a + b) matches Some(z) && z.mem_used == x.mem_used + y.mem_used
            && z.compr_data == x.compr_data + y.compr_data && z.orig_data == x.orig_data
            + y.orig_data && z.disk_size == x.disk_size + y.disk_size)),
        memory::zram_totals(a) is None ==> memory::zram_totals(a + b) == memory::zram_totals(b),
        memory::zram_totals(b) is None ==> memory::zram_totals(a + b) == memory::zram_totals(a),
        memory::totals_fit(t) && t.mem_used >= 0 && t.compr_data >= 0 && t.orig_data >= 0
            && t.disk_size >= 0 ==> ({
            let s = memory::stats_of(t);
            &&& s.mem_used_bytes == t.mem_used
            &&& s.compr_data_bytes == t.compr_data
            &&& s.orig_data_bytes == t.orig_data
            &&& s.disk_size_bytes == t.disk_size
        }),
        memory::totals_fit(t) <==> t.mem_used <= u64::MAX && t.compr_data <= u64::MAX && t.orig_data
            <= u64::MAX && t.disk_size <= u64::MAX,
{
    reveal_with_fuel(memory::zram_totals, 2);
    assert(seq![d].drop_last() =~= Seq::<BlockDevice>::empty());
    memory::law_zram_adds_up(a, b);
}

/// The state holds what `/proc/meminfo` and the zram devices say, and zram changes none of
/// the rest.
pub proof fn law_state_holds_both(content: Seq<char>, devices: Option<Seq<BlockDevice>>)
    ensures
        memory::full_state(None, devices) is None,
        memory::full_state(Some(content), devices) is Some <==> memory::state_of(content) is Some,
        memory::full_state(Some(content), devices) matches Some(s) ==> {
            let m = memory::state_of(content)->0;
            &&& s.total_bytes == m.total_bytes && s.used_bytes == m.used_bytes && s.usage == m.usage
            &&& s.swap_total_bytes == m.swap_total_bytes && s.swap_used_bytes == m.swap_used_bytes
                && s.swap_usage == m.swap_usage
            &&& s.zswap_bytes == m.zswap_bytes && s.zswapped_bytes == m.zswapped_bytes
            &&& s.zram is Some <==> devices is Some && memory::zram_totals(devices->0) is Some
            &&& s.zram matches Some(z) ==> z == memory::stats_of(
                memory::zram_totals(devices->0)->0,
            )
        },
        memory::zram_state(devices) == (match memory::full_state(Some(content), devices) {
            Some(s) => s.zram,
            None => memory::zram_state(devices),
        }),
{
}

/// zram devices can be read if and only if each of their four sums fits 64 bits; without
/// any, or where they could not be listed, nothing stands in the way.
pub proof fn law_zram_readable(devices: Seq<BlockDevice>)
    ensures
        memory::zram_fits(None),
        memory::zram_totals(devices) is None ==> memory::zram_fits(Some(devices)),
        memory::zram_totals(devices) matches Some(t) ==> memory::zram_fits(Some(devices)) == (
        t.mem_used < 0x1_0000_0000_0000_0000 && t.compr_data < 0x1_0000_0000_0000_0000
            && t.orig_data < 0x1_0000_0000_0000_0000 && t.disk_size < 0x1_0000_0000_0000_0000),
{
}

} // verus!
