//! Laws of NVIDIA cards.

use crate::gpu;
use crate::gpu::nvidia;
use crate::gpu::Amount;
use crate::gpu::Config;
use crate::gpu::GpuProvider;
use crate::number;
use crate::text;
use vstd::prelude::*;

verus! {

/// What rows say is what the first of them say and then what the others say: no row
/// takes away or changes what another says.
pub proof fn law_rows_follow(
    a: Seq<Seq<char>>,
    b: Seq<Seq<char>>,
    configs: Seq<Config>,
    ids: Seq<Seq<char>>,
    names: Map<Seq<char>, Seq<char>>,
)
    ensures
        nvidia::infos_of(a + b, configs, ids, names) == nvidia::infos_of(a, configs, ids, names)
            + nvidia::infos_of(b, configs, ids, names),
    decreases b.len(),
{
    let first = nvidia::infos_of(a, configs, ids, names);
    if b.len() == 0 {
        assert(a + b =~= a);
        assert(first + nvidia::infos_of(b, configs, ids, names) =~= first);
    } else {
        law_rows_follow(a, b.drop_last(), configs, ids, names);
        assert((a + b).drop_last() =~= a + b.drop_last());
        assert(nvidia::infos_of(a + b, configs, ids, names) =~= first + nvidia::infos_of(
            b,
            configs,
            ids,
            names,
        ));
    }
}

/// A single row that is about a configured card gives exactly what it says of that card;
/// a single other row gives nothing.
pub proof fn law_single_row(
    row: Seq<char>,
    configs: Seq<Config>,
    ids: Seq<Seq<char>>,
    names: Map<Seq<char>, Seq<char>>,
)
    ensures
        nvidia::infos_of(Seq::empty(), configs, ids, names).len() == 0,
        match nvidia::info_of(row, configs, ids, names) {
            Some(info) => nvidia::infos_of(seq![row], configs, ids, names) == seq![info],
            None => nvidia::infos_of(seq![row], configs, ids, names).len() == 0,
        },
{
    assert(seq![row].drop_last() =~= Seq::<Seq<char>>::empty());
    reveal_with_fuel(nvidia::infos_of, 2);
    if let Some(info) = nvidia::info_of(row, configs, ids, names) {
        assert(nvidia::infos_of(seq![row], configs, ids, names) =~= seq![info]);
    }
}

/// Whether a row is about the card at a place: it has six columns or more, and the card's
/// address, in upper case, is the first that ends the address in the row.
pub open spec fn is_about(row: Seq<char>, ids: Seq<Seq<char>>, i: int) -> bool {
    let parts = text::split_text_of(row, ", "@);
    let address = text::trimmed(parts[0]);
    &&& parts.len() >= 6
    &&& 0 <= i < ids.len()
    &&& ids[i].is_suffix_of(address)
    &&& forall|j: int| 0 <= j < i ==> !(#[trigger] ids[j]).is_suffix_of(address)
}

/// A column in MiB is this many bytes: 1048576 for each, none where it holds no number.
pub open spec fn says_bytes(column: Seq<char>, bytes: int) -> bool {
    match number::u64_of(text::trimmed(column)) {
        Some(v) => bytes == v * 1048576,
        None => bytes == 0,
    }
}

/// Whether a column in MiB can be said in bytes of 64 bits.
pub open spec fn bytes_fit(column: Seq<char>) -> bool {
    number::u64_of(text::trimmed(column)) matches Some(v) ==> v * 1048576 < 0x1_0000_0000_0000_0000
}

/// A row that is about a configured card gives that card, each figure from its own column:
/// usage, memory used, memory in all, temperature, power.
pub proof fn law_row_of_card(
    row: Seq<char>,
    configs: Seq<Config>,
    ids: Seq<Seq<char>>,
    names: Map<Seq<char>, Seq<char>>,
    i: int,
)
    requires
        is_about(row, ids, i),
        bytes_fit(text::split_text_of(row, ", "@)[2]),
        bytes_fit(text::split_text_of(row, ", "@)[3]),
    ensures
        ({
            let parts = text::split_text_of(row, ", "@);
            match nvidia::info_of(row, configs, ids, names) {
                Some(info) => {
                    &&& info.id == configs[i].id
                    &&& info.label == "dGPU"@
                    &&& info.model == gpu::shown_name(names, configs[i].id)
                    &&& info.provider == GpuProvider::Nvidia
                    &&& info.gpu_usage == Amount::Text(text::trimmed(parts[1]))
                    &&& says_bytes(parts[2], info.mem_used as int)
                    &&& says_bytes(parts[3], info.mem_total as int)
                    &&& info.gtt_used == 0
                    &&& info.gtt_total == 0
                    &&& info.temperature == Amount::Text(text::trimmed(parts[4]))
                    &&& info.power_watts == Amount::Text(text::trimmed(parts[5]))
                    &&& info.in_bar == configs[i].bar
                },
                None => false,
            }
        }),
{
    let parts = text::split_text_of(row, ", "@);
    lemma_first(text::trimmed(parts[0]), ids, i);
}

proof fn lemma_first(s: Seq<char>, endings: Seq<Seq<char>>, i: int)
    requires
        0 <= i < endings.len(),
        endings[i].is_suffix_of(s),
        forall|j: int| 0 <= j < i ==> !(#[trigger] endings[j]).is_suffix_of(s),
    ensures
        nvidia::first_ending(s, endings) == i,
    decreases endings.len(),
{
    if i > 0 {
        let rest = endings.skip(1);
        assert(!endings[0].is_suffix_of(s));
        assert forall|j: int| 0 <= j < i - 1 implies !(#[trigger] rest[j]).is_suffix_of(s) by {
            assert(rest[j] == endings[j + 1]);
        }
        lemma_first(s, rest, i - 1);
    }
}

proof fn lemma_none(s: Seq<char>, endings: Seq<Seq<char>>)
    requires
        forall|j: int| 0 <= j < endings.len() ==> !(#[trigger] endings[j]).is_suffix_of(s),
    ensures
        nvidia::first_ending(s, endings) == endings.len(),
    decreases endings.len(),
{
    if endings.len() > 0 {
        let rest = endings.skip(1);
        assert(!endings[0].is_suffix_of(s));
        assert forall|j: int| 0 <= j < rest.len() implies !(#[trigger] rest[j]).is_suffix_of(s) by {
            assert(rest[j] == endings[j + 1]);
        }
        lemma_none(s, rest);
    }
}

/// A row with fewer than six columns, or whose address no configured one ends, gives
/// nothing, whatever memory it names.
pub proof fn law_other_rows(
    row: Seq<char>,
    configs: Seq<Config>,
    ids: Seq<Seq<char>>,
    names: Map<Seq<char>, Seq<char>>,
)
    requires
        text::split_text_of(row, ", "@).len() < 6 || forall|j: int|
            0 <= j < ids.len() ==> !(#[trigger] ids[j]).is_suffix_of(
                text::trimmed(text::split_text_of(row, ", "@)[0]),
            ),
    ensures
        nvidia::info_of(row, configs, ids, names) is None,
        nvidia::row_fits(row, ids),
{
    let parts = text::split_text_of(row, ", "@);
    if parts.len() >= 6 {
        lemma_none(text::trimmed(parts[0]), ids);
    }
}

/// A row about a configured card can be read if and only if its two figures for memory can
/// be said in bytes; rows can if each can.
pub proof fn law_readable_rows(row: Seq<char>, rows: Seq<Seq<char>>, ids: Seq<Seq<char>>, i: int)
    ensures
        is_about(row, ids, i) ==> nvidia::row_fits(row, ids) == (bytes_fit(
            text::split_text_of(row, ", "@)[2],
        ) && bytes_fit(text::split_text_of(row, ", "@)[3])),
        nvidia::rows_fit(rows.push(row), ids) == (nvidia::rows_fit(rows, ids) && nvidia::row_fits(
            row,
            ids,
        )),
        nvidia::rows_fit(Seq::empty(), ids),
{
    if is_about(row, ids, i) {
        lemma_first(text::trimmed(text::split_text_of(row, ", "@)[0]), ids, i);
    }
    let all = rows.push(row);
    assert(all[rows.len() as int] == row);
    if nvidia::rows_fit(all, ids) {
        assert forall|j: int| 0 <= j < rows.len() implies nvidia::row_fits(#[trigger] rows[j], ids) by {
            assert(all[j] == rows[j]);
        }
    } else {
        let j = choose|j: int| 0 <= j < all.len() && !nvidia::row_fits(#[trigger] all[j], ids);
        if j < rows.len() {
            assert(all[j] == rows[j]);
        }
    }
}

/// The addresses that are looked for are those of the configured cards, each in upper
/// case: of ASCII text, the letters from a to z become those from A to Z, and nothing else
/// changes.
pub proof fn law_addresses(configs: Seq<Config>, k: int, c: char)
    requires
        0 <= k < 26,
    ensures
        nvidia::upper_ids(configs).len() == configs.len(),
        forall|i: int|
            0 <= i < configs.len() ==> #[trigger] nvidia::upper_ids(configs)[i]
                == nvidia::uppercase(configs[i].id),
        nvidia::ascii_ids(configs).len() == configs.len(),
        forall|i: int, j: int|
            0 <= i < configs.len() && 0 <= j < configs[i].id.len()
                ==> #[trigger] nvidia::ascii_ids(configs)[i][j] == nvidia::upper_ascii(
                configs[i].id[j],
            ),
        forall|i: int|
            0 <= i < configs.len() ==> (#[trigger] nvidia::ascii_ids(configs)[i]).len()
                == configs[i].id.len(),
        nvidia::upper_ascii(('a' as int + k) as char) == ('A' as int + k) as char,
        !('a' <= c <= 'z') ==> nvidia::upper_ascii(c) == c,
        nvidia::plain_ids(configs) == forall|i: int, j: int|
            0 <= i < configs.len() && 0 <= j < configs[i].id.len() ==> '\0' <= (
            #[trigger] configs[i].id[j]) <= '\u{7f}',
{
    if forall|i: int, j: int|
        0 <= i < configs.len() && 0 <= j < configs[i].id.len() ==> '\0' <= (
        #[trigger] configs[i].id[j]) <= '\u{7f}' {
        assert forall|i: int| 0 <= i < configs.len() implies vstd::utf8::is_ascii_chars(
            (#[trigger] configs[i]).id,
        ) by {
            let id = configs[i].id;
            assert forall|j: int| 0 <= j < id.len() implies '\0' <= #[trigger] id[j] <= '\u{7f}' by {
                assert('\0' <= configs[i].id[j] <= '\u{7f}');
            }
        }
    }
    if nvidia::plain_ids(configs) {
        assert forall|i: int, j: int|
            0 <= i < configs.len() && 0 <= j < configs[i].id.len() implies '\0' <= (
        #[trigger] configs[i].id[j]) <= '\u{7f}' by {
            assert(vstd::utf8::is_ascii_chars(configs[i].id));
        }
    }
}

} // verus!
