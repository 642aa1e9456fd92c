//! Laws of Intel cards.

use crate::binary64::Binary64;
use crate::gpu;
use crate::gpu::intel;
use crate::gpu::intel::GpuClients;
use crate::gpu::intel::ProcDir;
use crate::gpu::intel::Sample;
use crate::gpu::Amount;
use crate::gpu::Config;
use crate::gpu::GpuProvider;
use crate::laws;
use crate::number;
use crate::table;
use crate::text;
use vstd::prelude::*;

verus! {

/// A time is a number, a space and `ns`; anything else is none.
pub proof fn law_nanoseconds(s: Seq<char>, n: Seq<char>)
    ensures
        text::trimmed(s) == n + " ns"@ ==> intel::nanoseconds(s) == number::u64_of(n),
        intel::nanoseconds(s) is Some ==> exists|m: Seq<char>|
            text::trimmed(s) == #[trigger] (m + " ns"@) && number::u64_of(m)
                == intel::nanoseconds(s),
{
    laws::text::law_suffix(text::trimmed(s), " ns"@, n);
    if intel::nanoseconds(s) is Some {
        let m = text::before_suffix(text::trimmed(s), " ns"@)->0;
        laws::text::law_suffix(text::trimmed(s), " ns"@, m);
        assert(text::trimmed(s) == m + " ns"@);
    }
}

/// A file of the driver `i915` describes a client if and only if it names a card, an id
/// that is a number and the render engine's time; each is what the last line of its name
/// says. A file of another driver describes none.
pub proof fn law_client(content: Seq<char>)
    ensures
        ({
            let lines = text::lines_of(content);
            let driver = text::last_after(lines, "drm-driver:\t"@);
            let card = text::last_after(lines, "drm-pdev:\t"@);
            let id = text::last_after(lines, "drm-client-id:\t"@);
            let time = text::last_after(lines, "drm-engine-render:\t"@);
            match intel::client_of(content) {
                Some(c) => {
                    &&& driver == Some("i915"@)
                    &&& card == Some(c.gpu)
                    &&& id is Some && number::u64_of(text::trimmed(id->0)) == Some(c.id)
                    &&& time is Some && intel::nanoseconds(time->0) == Some(c.busy)
                },
                None => {
                    ||| driver != Some("i915"@)
                    ||| card is None
                    ||| id is None || number::u64_of(text::trimmed(id->0)) is None
                    ||| time is None || intel::nanoseconds(time->0) is None
                },
            }
        }),
{
}

/// A process has a directory whose name is made of digits; the files of any other
/// directory are passed over.
pub proof fn law_processes(d: ProcDir)
    ensures
        intel::is_process(d) <==> (d.name matches Some(n) && n@.len() > 0 && text::all_digits(n@)),
        !intel::is_process(d) ==> intel::files_of(d).len() == 0,
        d.fdinfo is None ==> intel::files_of(d).len() == 0,
        intel::is_process(d) ==> (d.fdinfo matches Some(v) ==> intel::files_of(d)
            == intel::readable(v@)),
{
}

/// One more file: it counts where it could be read.
pub proof fn law_one_more_readable(files: Seq<Option<String>>, f: Option<String>)
    ensures
        intel::readable(files.push(f)) == (match f {
            Some(s) => intel::readable(files).push(s@),
            None => intel::readable(files),
        }),
        intel::readable(Seq::empty()).len() == 0,
{
    assert(files.push(f).drop_last() =~= files);
}

/// The files of directories are those of the first of them and then those of the others.
pub proof fn law_one_more_directory(procs: Seq<ProcDir>, d: ProcDir)
    ensures
        intel::all_files(procs.push(d)) == intel::all_files(procs) + intel::files_of(d),
        intel::all_files(Seq::empty()).len() == 0,
{
    assert(procs.push(d).drop_last() =~= procs);
}

/// The counter of a client of a card.
pub open spec fn counter(sample: Sample, card: Seq<char>, id: u64) -> Option<u64> {
    match table::value_at(sample, card) {
        Some(clients) => table::value_at(clients, id),
        None => None,
    }
}

/// One more file that describes a client sets the counter of that client of that card, and
/// no other; one that describes none changes nothing.
pub proof fn law_one_more_file(
    contents: Seq<Seq<char>>,
    content: Seq<char>,
    card: Seq<char>,
    id: u64,
)
    ensures
        counter(intel::sample_from(Seq::empty()), card, id) is None,
        match intel::client_of(content) {
            Some(c) => counter(intel::sample_from(contents.push(content)), card, id) == (if c.gpu
                == card && c.id == id {
                Some(c.busy)
            } else {
                counter(intel::sample_from(contents), card, id)
            }),
            None => intel::sample_from(contents.push(content)) == intel::sample_from(contents),
        },
{
    assert(contents.push(content).drop_last() =~= contents);
    if let Some(c) = intel::client_of(content) {
        let before = intel::sample_from(contents);
        let clients = intel::clients_at(before, c.gpu);
        table::lemma_put(clients, c.id, c.busy);
        table::lemma_put(before, c.gpu, table::put(clients, c.id, c.busy));
    }
}

/// The clients of a card are those that stand by it; one that does not occur has none.
pub proof fn law_clients_of_card(sample: Sample, card: Seq<char>)
    ensures
        match table::value_at(sample, card) {
            Some(clients) => intel::clients_at(sample, card) == clients,
            None => intel::clients_at(sample, card).len() == 0,
        },
{
}

/// One more client adds what its counter went up since the last poll: nothing where it was
/// not known then or its counter went down.
pub proof fn law_one_more_client(
    current: Seq<(u64, u64)>,
    prev: Seq<(u64, u64)>,
    id: u64,
    now: u64,
)
    ensures
        ({
            let before = intel::busy_time(current, prev);
            let after = intel::busy_time(current.push((id, now)), prev);
            match table::value_at(prev, id) {
                Some(then) => if now >= then {
                    after == before + (now - then)
                } else {
                    after == before
                },
                None => after == before,
            }
        }),
        intel::busy_time(Seq::empty(), prev) == 0,
{
    assert(current.push((id, now)).drop_last() =~= current);
}

/// The load of a card is its busy time over the time that passed, at least a nanosecond;
/// nothing else of it is known but its name.
pub proof fn law_card(
    config: Config,
    busy: u64,
    elapsed: u128,
    names: Map<Seq<char>, Seq<char>>,
)
    ensures
        ({
            let info = intel::card_info(config, busy as int, elapsed, names);
            let none = Amount::Scaled { value: (Binary64 { bits: 0 }), divisor: 1 };
            &&& info.id == config.id
            &&& info.label == "iGPU"@
            &&& info.model == gpu::shown_name(names, config.id)
            &&& info.provider == GpuProvider::Intel
            &&& info.in_bar == config.bar
            &&& elapsed > 0 ==> info.gpu_usage == (Amount::Share { part: busy, whole: elapsed })
            &&& elapsed == 0 ==> info.gpu_usage == (Amount::Share { part: busy, whole: 1 })
            &&& info.mem_used == 0 && info.mem_total == 0 && info.gtt_used == 0
                && info.gtt_total == 0
            &&& info.temperature == none && info.power_watts == none
        }),
{
}

/// A card that is configured once shows the share of its own clients: what is sampled of
/// other cards makes no difference.
pub proof fn law_cards_apart(
    configs: Seq<Config>,
    a: Sample,
    b: Sample,
    prev: Sample,
    elapsed: u128,
    names: Map<Seq<char>, Seq<char>>,
    i: int,
)
    requires
        0 <= i < configs.len(),
        intel::well_formed(a),
        intel::well_formed(b),
        intel::clients_at(a, configs[i].id) == intel::clients_at(b, configs[i].id),
    ensures
        ({
            let n = configs.len() as int;
            intel::card_infos(configs, n, a, prev, elapsed, names)[i] == intel::card_infos(
                configs,
                n,
                b,
                prev,
                elapsed,
                names,
            )[i]
        }),
{
    let n = configs.len() as int;
    intel::law_load_of_card(configs, n, a, prev, elapsed, names);
    intel::law_load_of_card(configs, n, b, prev, elapsed, names);
}

/// A card that is not configured is remembered as it was.
pub proof fn law_others_remembered(
    configs: Seq<Config>,
    n: int,
    sample: Sample,
    prev: Sample,
    card: Seq<char>,
)
    requires
        0 <= n <= configs.len(),
        forall|j: int| 0 <= j < n ==> (#[trigger] configs[j]).id != card,
    ensures
        table::value_at(intel::remembered(configs, n, sample, prev), card) == table::value_at(
            prev,
            card,
        ),
    decreases n,
{
    if n > 0 {
        let before = intel::remembered(configs, n - 1, sample, prev);
        let id = configs[n - 1].id;
        law_others_remembered(configs, n - 1, sample, prev, card);
        table::lemma_put(before, id, intel::clients_at(sample, id));
        assert(id != card);
    }
}

/// A poll can be made if and only if the busy time of each configured card fits 64 bits.
pub proof fn law_times_fit(configs: Seq<Config>, c: Config, sample: Sample, prev: Sample)
    ensures
        intel::times_fit(Seq::empty(), sample, prev),
        intel::times_fit(configs.push(c), sample, prev) == (intel::times_fit(configs, sample, prev)
            && intel::busy_time(
            intel::clients_at(sample, c.id),
            intel::clients_at(prev, c.id),
        ) < 0x1_0000_0000_0000_0000),
{
    let all = configs.push(c);
    assert(all[configs.len() as int] == c);
    if intel::times_fit(all, sample, prev) {
        assert forall|i: int| 0 <= i < configs.len() implies intel::busy_time(
            intel::clients_at(sample, (#[trigger] configs[i]).id),
            intel::clients_at(prev, configs[i].id),
        ) <= u64::MAX by {
            assert(all[i] == configs[i]);
        }
    } else {
        let i = choose|i: int|
            0 <= i < all.len() && intel::busy_time(
                intel::clients_at(sample, (#[trigger] all[i]).id),
                intel::clients_at(prev, all[i].id),
            ) > u64::MAX;
        if i < configs.len() {
            assert(all[i] == configs[i]);
        }
    }
}

/// Samples hold each card with its clients, in its place; one is well-formed if no card and
/// no client of a card occurs twice.
pub proof fn law_contents(g: GpuClients, v: Seq<GpuClients>)
    ensures
        g@ == (g.gpu@, g.clients@),
        intel::sample_of(v).len() == v.len(),
        forall|i: int| 0 <= i < v.len() ==> #[trigger] intel::sample_of(v)[i] == v[i]@,
        intel::well_formed(Seq::empty()),
{
}

/// Directories that could not be listed hold no client.
pub proof fn law_directories_listed(procs: Seq<ProcDir>)
    ensures
        intel::sample_read(Some(procs)) == intel::sample_from(intel::all_files(procs)),
        intel::sample_read(None).len() == 0,
{
}

} // verus!
