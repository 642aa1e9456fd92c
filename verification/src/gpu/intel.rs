//! Intel cards, by the DRM `fdinfo` of their clients.
//!
//! The driver counts, for each client, the nanoseconds that the render engine was busy for
//! it. What the counters of the known clients gained from one poll to the next, over the
//! time that passed, is the load. The driver exposes no memory, temperature or power.

use crate::cpu;
use crate::gpu;
use crate::gpu::Amount;
use crate::gpu::Config;
use crate::gpu::GpuConfig;
use crate::gpu::GpuInfo;
use crate::gpu::GpuProvider;
use crate::gpu::GpuState;
use crate::gpu::Info;
use crate::gpu::Measure;
use crate::gpu::ModelNames;
use crate::number;
use crate::table;
use crate::text;
use vstd::prelude::*;

verus! {

/// A DRM client of the Intel driver: its card, its id, and for how many nanoseconds the
/// render engine was busy for it so far.
pub struct Client {
    pub gpu: Seq<char>,
    pub id: u64,
    pub busy: u64,
}

/// A number of nanoseconds with its unit.
pub open spec fn nanoseconds(s: Seq<char>) -> Option<u64> {
    match text::before_suffix(text::trimmed(s), " ns"@) {
        Some(n) => number::u64_of(n),
        None => None,
    }
}

pub open spec fn client_id_in(lines: Seq<Seq<char>>) -> Option<u64> {
    match text::last_after(lines, "drm-client-id:\t"@) {
        Some(v) => number::u64_of(text::trimmed(v)),
        None => None,
    }
}

pub open spec fn render_time_in(lines: Seq<Seq<char>>) -> Option<u64> {
    match text::last_after(lines, "drm-engine-render:\t"@) {
        Some(v) => nanoseconds(v),
        None => None,
    }
}

/// The client of the Intel driver that a `fdinfo` describes. Of each line the last counts.
pub open spec fn client_of(content: Seq<char>) -> Option<Client> {
    let lines = text::lines_of(content);
    if text::last_after(lines, "drm-driver:\t"@) != Some("i915"@) {
        None
    } else {
        match (
            text::last_after(lines, "drm-pdev:\t"@),
            client_id_in(lines),
            render_time_in(lines),
        ) {
            (Some(gpu), Some(id), Some(busy)) => Some(Client { gpu, id, busy }),
            _ => None,
        }
    }
}

fn parse_nanoseconds(s: &[char]) -> (r: Option<u64>)
    ensures
        r == nanoseconds(s@),
{
    match text::strip_suffix(text::trim(s), " ns") {
        Some(n) => number::parse_u64(n),
        None => None,
    }
}

/// A line begins with at most one of the four names.
proof fn lemma_names_differ(line: Seq<char>)
    ensures
        "drm-driver:\t"@.is_prefix_of(line) ==> !"drm-pdev:\t"@.is_prefix_of(line)
            && !"drm-client-id:\t"@.is_prefix_of(line) && !"drm-engine-render:\t"@.is_prefix_of(line),
        "drm-pdev:\t"@.is_prefix_of(line) ==> !"drm-client-id:\t"@.is_prefix_of(line)
            && !"drm-engine-render:\t"@.is_prefix_of(line),
        "drm-client-id:\t"@.is_prefix_of(line) ==> !"drm-engine-render:\t"@.is_prefix_of(line),
{
    reveal_strlit("drm-driver:\t");
    reveal_strlit("drm-pdev:\t");
    reveal_strlit("drm-client-id:\t");
    reveal_strlit("drm-engine-render:\t");
    assert("drm-driver:\t"@.is_prefix_of(line) ==> line[4] == "drm-driver:\t"@[4]);
    assert("drm-pdev:\t"@.is_prefix_of(line) ==> line[4] == "drm-pdev:\t"@[4]);
    assert("drm-client-id:\t"@.is_prefix_of(line) ==> line[4] == "drm-client-id:\t"@[4]);
    assert("drm-engine-render:\t"@.is_prefix_of(line) ==> line[4] == "drm-engine-render:\t"@[4]);
}

/// Reads a `fdinfo`: the card's PCI address, the client's id, and the nanoseconds that the
/// render engine was busy. Gives nothing for other drivers.
pub fn parse_i915_fdinfo(content: &str) -> (r: Option<(String, u64, u64)>)
    ensures
        match r {
            Some((gpu, id, busy)) => client_of(content@) == Some(Client { gpu: gpu@, id, busy }),
            None => client_of(content@) is None,
        },
{
    let chars = text::chars_of(content);
    let lines = text::lines(chars.as_slice());
    let ghost all = text::lines_of(content@);
    let mut driver: Option<&[char]> = None;
    let mut gpu: Option<&[char]> = None;
    let mut id: Option<u64> = None;
    let mut busy: Option<u64> = None;
    assert(all.take(0) =~= Seq::<Seq<char>>::empty());
    for i in 0..lines.len()
        invariant
            all == text::texts(lines@),
            text::given(driver) == text::last_after(all.take(i as int), "drm-driver:\t"@),
            text::given(gpu) == text::last_after(all.take(i as int), "drm-pdev:\t"@),
            id == client_id_in(all.take(i as int)),
            busy == render_time_in(all.take(i as int)),
    {
        let line = lines[i];
        proof {
            assert(all.take(i + 1).drop_last() =~= all.take(i as int));
            assert(all.take(i + 1).last() == line@);
            lemma_names_differ(line@);
        }
        if let Some(v) = text::strip_prefix(line, "drm-driver:\t") {
            driver = Some(v);
        } else if let Some(v) = text::strip_prefix(line, "drm-pdev:\t") {
            gpu = Some(v);
        } else if let Some(v) = text::strip_prefix(line, "drm-client-id:\t") {
            id = number::parse_u64(text::trim(v));
        } else if let Some(v) = text::strip_prefix(line, "drm-engine-render:\t") {
            busy = parse_nanoseconds(v);
        }
    }
    assert(all.take(all.len() as int) =~= all);
    match driver {
        Some(d) => {
            if !text::is_text(d, "i915") {
                return None;
            }
        },
        None => {
            return None;
        },
    }
    match (gpu, id, busy) {
        (Some(gpu), Some(id), Some(busy)) => Some((text::string_of(gpu), id, busy)),
        _ => None,
    }
}

/// The clients of a card: ids with busy nanoseconds.
#[derive(Debug)]
pub struct GpuClients {
    pub gpu: String,
    pub clients: Vec<(u64, u64)>,
}

impl View for GpuClients {
    type V = (Seq<char>, Seq<(u64, u64)>);

    open spec fn view(&self) -> (Seq<char>, Seq<(u64, u64)>) {
        (self.gpu@, self.clients@)
    }
}

/// Clients by card.
pub type Sample = Seq<(Seq<char>, Seq<(u64, u64)>)>;

pub open spec fn sample_of(v: Seq<GpuClients>) -> Sample {
    v.map_values(|g: GpuClients| g@)
}

/// The clients of a card, none when it is not listed.
pub open spec fn clients_at(sample: Sample, gpu: Seq<char>) -> Seq<(u64, u64)> {
    match table::value_at(sample, gpu) {
        Some(clients) => clients,
        None => Seq::empty(),
    }
}

/// The sample with one more client. One that is known already, by another file of the same
/// process or a shared one, is replaced.
pub open spec fn record(sample: Sample, c: Client) -> Sample {
    table::put(sample, c.gpu, table::put(clients_at(sample, c.gpu), c.id, c.busy))
}

/// Whether no card, and no client of a card, is listed twice.
pub open spec fn well_formed(sample: Sample) -> bool {
    &&& table::distinct(sample)
    &&& forall|i: int| 0 <= i < sample.len() ==> table::distinct((#[trigger] sample[i]).1)
}

/// The clients that the contents of `fdinfo` files describe.
pub open spec fn sample_from(contents: Seq<Seq<char>>) -> Sample
    decreases contents.len(),
{
    if contents.len() == 0 {
        Seq::empty()
    } else {
        let rest = sample_from(contents.drop_last());
        match client_of(contents.last()) {
            Some(c) => record(rest, c),
            None => rest,
        }
    }
}

/// A directory under `/proc`: its name, where that is text, and what was read of each file
/// in its `fdinfo`, where that can be listed.
#[derive(Debug)]
pub struct ProcDir {
    pub name: Option<String>,
    pub fdinfo: Option<Vec<Option<String>>>,
}

/// Whether a directory is that of a process: its name is a number.
pub open spec fn is_process(d: ProcDir) -> bool {
    text::maybe(d.name) matches Some(n) && n.len() > 0 && text::all_digits(n)
}

/// The contents of the files that could be read.
pub open spec fn readable(files: Seq<Option<String>>) -> Seq<Seq<char>>
    decreases files.len(),
{
    if files.len() == 0 {
        Seq::empty()
    } else {
        match text::maybe(files.last()) {
            Some(c) => readable(files.drop_last()).push(c),
            None => readable(files.drop_last()),
        }
    }
}

/// The files of a process.
pub open spec fn files_of(d: ProcDir) -> Seq<Seq<char>> {
    match d.fdinfo {
        Some(v) if is_process(d) => readable(v@),
        _ => Seq::empty(),
    }
}

/// The files of all processes.
pub open spec fn all_files(procs: Seq<ProcDir>) -> Seq<Seq<char>>
    decreases procs.len(),
{
    if procs.len() == 0 {
        Seq::empty()
    } else {
        all_files(procs.drop_last()) + files_of(procs.last())
    }
}

/// The clients in the listed directories; none when they could not be listed.
pub open spec fn sample_read(procs: Option<Seq<ProcDir>>) -> Sample {
    match procs {
        Some(v) => sample_from(all_files(v)),
        None => Seq::empty(),
    }
}

fn put_client(clients: &mut Vec<(u64, u64)>, id: u64, busy: u64)
    ensures
        final(clients)@ == table::put(old(clients)@, id, busy),
{
    let ghost all = clients@;
    assert(all.skip(0) =~= all);
    assert(all.take(0) + table::put(all.skip(0), id, busy) =~= table::put(all, id, busy));
    let n = clients.len();
    for i in 0..n
        invariant
            n == clients@.len(),
            *clients == *old(clients),
            all == clients@,
            all.take(i as int) + table::put(all.skip(i as int), id, busy) == table::put(
                all,
                id,
                busy,
            ),
    {
        let ghost rest = all.skip(i as int);
        if clients[i].0 == id {
            clients.set(i, (id, busy));
            assert(clients@ =~= all.take(i as int) + table::put(rest, id, busy));
            return;
        }
        assert(rest.skip(1) =~= all.skip(i + 1));
        assert(all.take(i as int) + table::put(rest, id, busy) =~= all.take(i + 1) + table::put(
            all.skip(i + 1),
            id,
            busy,
        ));
    }
    clients.push((id, busy));
    assert(all.skip(n as int) =~= Seq::<(u64, u64)>::empty());
    assert(clients@ =~= all.take(n as int) + table::put(all.skip(n as int), id, busy));
}

fn place(sample: &Vec<GpuClients>, gpu: &str) -> (r: Option<usize>)
    ensures
        match r {
            Some(i) => {
                &&& i < sample@.len()
                &&& sample@[i as int]@.0 == gpu@
                &&& clients_at(sample_of(sample@), gpu@) == sample@[i as int].clients@
                &&& forall|v: Seq<(u64, u64)>| #[trigger]
                    table::put(sample_of(sample@), gpu@, v) == sample_of(sample@).update(
                        i as int,
                        (gpu@, v),
                    )
            },
            None => {
                &&& clients_at(sample_of(sample@), gpu@) == Seq::<(u64, u64)>::empty()
                &&& forall|v: Seq<(u64, u64)>| #[trigger]
                    table::put(sample_of(sample@), gpu@, v) == sample_of(sample@).push((gpu@, v))
            },
        },
{
    let ghost all = sample_of(sample@);
    assert(all.skip(0) =~= all);
    assert forall|v: Seq<(u64, u64)>| #[trigger] table::put(all, gpu@, v) == all.take(0)
        + table::put(all.skip(0), gpu@, v) by {
        assert(table::put(all, gpu@, v) =~= all.take(0) + table::put(all.skip(0), gpu@, v));
    }
    for i in 0..sample.len()
        invariant
            all == sample_of(sample@),
            table::value_at(all, gpu@) == table::value_at(all.skip(i as int), gpu@),
            forall|v: Seq<(u64, u64)>| #[trigger]
                table::put(all, gpu@, v) == all.take(i as int) + table::put(
                    all.skip(i as int),
                    gpu@,
                    v,
                ),
    {
        let ghost rest = all.skip(i as int);
        assert(rest[0] == sample@[i as int]@);
        if text::same_text(sample[i].gpu.as_str(), gpu) {
            assert forall|v: Seq<(u64, u64)>| #[trigger]
                table::put(all, gpu@, v) == all.update(i as int, (gpu@, v)) by {
                assert(table::put(all, gpu@, v) =~= all.update(i as int, (gpu@, v)));
            }
            return Some(i);
        }
        assert(rest.skip(1) =~= all.skip(i + 1));
        assert forall|v: Seq<(u64, u64)>| #[trigger] table::put(all, gpu@, v) == all.take(i + 1)
            + table::put(all.skip(i + 1), gpu@, v) by {
            assert(table::put(all, gpu@, v) =~= all.take(i + 1) + table::put(
                all.skip(i + 1),
                gpu@,
                v,
            ));
        }
    }
    proof {
        assert(all.skip(all.len() as int) =~= Seq::<(Seq<char>, Seq<(u64, u64)>)>::empty());
        assert forall|v: Seq<(u64, u64)>| #[trigger] table::put(all, gpu@, v) == all.push(
            (gpu@, v),
        ) by {
            assert(table::put(all, gpu@, v) =~= all.push((gpu@, v)));
        }
    }
    None
}

fn record_client(sample: &mut Vec<GpuClients>, gpu: String, id: u64, busy: u64)
    ensures
        sample_of(final(sample)@) == record(
            sample_of(old(sample)@),
            (Client { gpu: gpu@, id, busy }),
        ),
{
    let ghost all = sample_of(sample@);
    match place(sample, gpu.as_str()) {
        Some(i) => {
            put_client(&mut sample[i].clients, id, busy);
            assert(sample_of(sample@) =~= all.update(
                i as int,
                (gpu@, table::put(clients_at(all, gpu@), id, busy)),
            ));
        },
        None => {
            let mut clients: Vec<(u64, u64)> = Vec::new();
            assert(clients@ =~= clients_at(all, gpu@));
            put_client(&mut clients, id, busy);
            let entry = GpuClients { gpu, clients };
            sample.push(entry);
            assert(sample_of(sample@) =~= all.push(entry@));
        },
    }
}

/// Recording a client keeps cards and clients apart.
proof fn lemma_record(sample: Sample, c: Client)
    requires
        well_formed(sample),
    ensures
        well_formed(record(sample, c)),
{
    let old_clients = clients_at(sample, c.gpu);
    let clients = table::put(old_clients, c.id, c.busy);
    let all = record(sample, c);
    table::lemma_value_at(sample, c.gpu);
    assert(table::distinct(old_clients));
    table::lemma_put(old_clients, c.id, c.busy);
    table::lemma_put(sample, c.gpu, clients);
    assert forall|i: int| 0 <= i < all.len() implies table::distinct((#[trigger] all[i]).1) by {
        if all[i].0 == c.gpu {
            table::lemma_value_at(all, c.gpu);
            let j = choose|j: int| 0 <= j < all.len() && #[trigger] all[j] == (c.gpu, clients);
            assert(all[i].0 == all[j].0);
        } else {
            let j = choose|j: int| 0 <= j < sample.len() && #[trigger] sample[j] == all[i];
            assert(table::distinct(sample[j].1));
        }
    }
}

/// The clients of the Intel driver, by card, given the directories under `/proc`; none
/// when they could not be listed.
pub fn scan_fdinfo(procs: Option<&Vec<ProcDir>>) -> (r: Vec<GpuClients>)
    ensures
        sample_of(r@) == sample_read(text::given(procs)),
        well_formed(sample_of(r@)),
{
    let mut out: Vec<GpuClients> = Vec::new();
    assert(sample_of(out@) =~= Seq::<(Seq<char>, Seq<(u64, u64)>)>::empty());
    if let Some(v) = procs {
        assert(v@.take(0) =~= Seq::<ProcDir>::empty());
        for i in 0..v.len()
            invariant
                sample_of(out@) == sample_from(all_files(v@.take(i as int))),
                well_formed(sample_of(out@)),
        {
            let d = &v[i];
            let ghost before = all_files(v@.take(i as int));
            proof {
                assert(v@.take(i + 1).drop_last() =~= v@.take(i as int));
                assert(v@.take(i + 1).last() == v@[i as int]);
            }
            let process = match &d.name {
                Some(name) => {
                    let chars = text::chars_of(name.as_str());
                    chars.len() > 0 && text::digits_only(chars.as_slice())
                },
                None => false,
            };
            if process {
                if let Some(files) = &d.fdinfo {
                    assert(files@.take(0) =~= Seq::<Option<String>>::empty());
                    assert(before + readable(files@.take(0)) =~= before);
                    for k in 0..files.len()
                        invariant
                            sample_of(out@) == sample_from(before + readable(files@.take(k as int))),
                            well_formed(sample_of(out@)),
                    {
                        let ghost so_far = before + readable(files@.take(k as int));
                        let ghost next = before + readable(files@.take(k + 1));
                        proof {
                            assert(files@.take(k + 1).drop_last() =~= files@.take(k as int));
                            assert(files@.take(k + 1).last() == files@[k as int]);
                        }
                        if let Some(content) = &files[k] {
                            proof {
                                assert(next =~= so_far.push(content@));
                                assert(next.drop_last() =~= so_far);
                                assert(next.last() == content@);
                            }
                            if let Some((gpu, id, busy)) = parse_i915_fdinfo(content.as_str()) {
                                proof {
                                    lemma_record(
                                        sample_of(out@),
                                        Client { gpu: gpu@, id, busy },
                                    );
                                }
                                record_client(&mut out, gpu, id, busy);
                            }
                        }
                    }
                    assert(files@.take(files@.len() as int) =~= files@);
                }
            }
            assert(!(is_process(*d) && d.fdinfo is Some) ==> before + files_of(*d) =~= before);
        }
        assert(v@.take(v@.len() as int) =~= v@);
    }
    out
}

/// For how long the render engine was busy since the last poll: what the counters of the
/// clients that were known then have gained. A client seen for the first time counts for
/// nothing, since its counter covers its whole life; one whose counter went down does too.
pub open spec fn busy_time(current: Seq<(u64, u64)>, prev: Seq<(u64, u64)>) -> int
    decreases current.len(),
{
    if current.len() == 0 {
        0
    } else {
        busy_time(current.drop_last(), prev) + match table::value_at(prev, current.last().0) {
            Some(before) => cpu::advance(before as int, current.last().1 as int),
            None => 0,
        }
    }
}

/// Whether the busy time of every configured card can be said in 64 bits.
pub open spec fn times_fit(configs: Seq<Config>, sample: Sample, prev: Sample) -> bool {
    forall|i: int|
        0 <= i < configs.len() ==> busy_time(
            clients_at(sample, (#[trigger] configs[i]).id),
            clients_at(prev, configs[i].id),
        ) <= u64::MAX
}

/// What is known of a card that was busy for some of the time.
pub open spec fn card_info(
    config: Config,
    busy: int,
    elapsed: u128,
    names: Map<Seq<char>, Seq<char>>,
) -> Info {
    Info {
        id: config.id,
        label: "iGPU"@,
        model: gpu::shown_name(names, config.id),
        provider: GpuProvider::Intel,
        gpu_usage: Amount::Share {
            part: busy as u64,
            whole: if elapsed < 1 {
                1
            } else {
                elapsed
            },
        },
        mem_used: 0,
        mem_total: 0,
        gtt_used: 0,
        gtt_total: 0,
        temperature: gpu::no_amount(),
        power_watts: gpu::no_amount(),
        in_bar: config.bar,
    }
}

/// The counters that the next poll starts from, once the first `n` cards have been looked
/// at.
pub open spec fn remembered(configs: Seq<Config>, n: int, sample: Sample, prev: Sample) -> Sample
    decreases n,
{
    if n <= 0 {
        prev
    } else {
        table::put(
            remembered(configs, n - 1, sample, prev),
            configs[n - 1].id,
            clients_at(sample, configs[n - 1].id),
        )
    }
}

/// What a poll says of the first `n` cards.
pub open spec fn card_infos(
    configs: Seq<Config>,
    n: int,
    sample: Sample,
    prev: Sample,
    elapsed: u128,
    names: Map<Seq<char>, Seq<char>>,
) -> Seq<Info>
    decreases n,
{
    if n <= 0 {
        Seq::empty()
    } else {
        let id = configs[n - 1].id;
        let busy = busy_time(
            clients_at(sample, id),
            clients_at(remembered(configs, n - 1, sample, prev), id),
        );
        card_infos(configs, n - 1, sample, prev, elapsed, names).push(
            card_info(configs[n - 1], busy, elapsed, names),
        )
    }
}

/// The busy time does not shrink as more clients are counted.
proof fn lemma_busy_grows(current: Seq<(u64, u64)>, prev: Seq<(u64, u64)>, n: int)
    requires
        0 <= n <= current.len(),
    ensures
        0 <= busy_time(current.take(n), prev) <= busy_time(current, prev),
    decreases current.len(),
{
    if n == current.len() {
        assert(current.take(n) =~= current);
        if n > 0 {
            lemma_busy_grows(current.drop_last(), prev, n - 1);
        }
    } else {
        lemma_busy_grows(current.drop_last(), prev, n);
        assert(current.drop_last().take(n) =~= current.take(n));
    }
}

proof fn lemma_no_gain(current: Seq<(u64, u64)>, prev: Seq<(u64, u64)>)
    requires
        forall|i: int|
            0 <= i < current.len() ==> (table::value_at(prev, (#[trigger] current[i]).0) matches Some(
                before,
            ) ==> before >= current[i].1),
    ensures
        busy_time(current, prev) == 0,
    decreases current.len(),
{
    if current.len() > 0 {
        let rest = current.drop_last();
        assert forall|i: int| 0 <= i < rest.len() implies (table::value_at(
            prev,
            (#[trigger] rest[i]).0,
        ) matches Some(before) ==> before >= rest[i].1) by {
            assert(current[i] == rest[i]);
        }
        lemma_no_gain(rest, prev);
        assert(current[current.len() - 1] == current.last());
    }
}

proof fn lemma_distinct_value(clients: Seq<(u64, u64)>, i: int)
    requires
        table::distinct(clients),
        0 <= i < clients.len(),
    ensures
        table::value_at(clients, clients[i].0) == Some(clients[i].1),
{
    table::lemma_value_at(clients, clients[i].0);
    if let Some(v) = table::value_at(clients, clients[i].0) {
        let j = choose|j: int|
            0 <= j < clients.len() && #[trigger] clients[j] == (clients[i].0, v);
        assert(clients[i].0 == clients[j].0);
    }
}

/// When no counter has moved, a card was not busy.
pub proof fn law_same_counters_no_load(clients: Seq<(u64, u64)>)
    requires
        table::distinct(clients),
    ensures
        busy_time(clients, clients) == 0,
{
    assert forall|i: int| 0 <= i < clients.len() implies (table::value_at(
        clients,
        (#[trigger] clients[i]).0,
    ) matches Some(before) ==> before >= clients[i].1) by {
        lemma_distinct_value(clients, i);
    }
    lemma_no_gain(clients, clients);
}

/// Clients that were not known before count for nothing, however long they were busy.
pub proof fn law_new_clients_count_for_nothing(
    current: Seq<(u64, u64)>,
    prev: Seq<(u64, u64)>,
)
    requires
        forall|i: int|
            0 <= i < current.len() ==> table::value_at(prev, (#[trigger] current[i]).0) is None,
    ensures
        busy_time(current, prev) == 0,
{
    lemma_no_gain(current, prev);
}

proof fn lemma_clients_distinct(sample: Sample, gpu: Seq<char>)
    requires
        well_formed(sample),
    ensures
        table::distinct(clients_at(sample, gpu)),
{
    table::lemma_value_at(sample, gpu);
}

/// What is remembered of a card is its sample once it has been looked at, and what was
/// remembered before until then.
proof fn lemma_remembered(configs: Seq<Config>, n: int, sample: Sample, prev: Sample)
    requires
        0 <= n <= configs.len(),
    ensures
        forall|gpu: Seq<char>| #[trigger]
            clients_at(remembered(configs, n, sample, prev), gpu) == clients_at(sample, gpu)
                || clients_at(remembered(configs, n, sample, prev), gpu) == clients_at(prev, gpu),
        forall|i: int|
            0 <= i < n ==> clients_at(
                remembered(configs, n, sample, prev),
                (#[trigger] configs[i]).id,
            ) == clients_at(sample, configs[i].id),
    decreases n,
{
    if n > 0 {
        let before = remembered(configs, n - 1, sample, prev);
        lemma_remembered(configs, n - 1, sample, prev);
        table::lemma_put(before, configs[n - 1].id, clients_at(sample, configs[n - 1].id));
        assert forall|gpu: Seq<char>| #[trigger]
            clients_at(remembered(configs, n, sample, prev), gpu) == clients_at(sample, gpu)
                || clients_at(remembered(configs, n, sample, prev), gpu) == clients_at(
                prev,
                gpu,
            ) by {
            if gpu != configs[n - 1].id {
                assert(clients_at(before, gpu) == clients_at(sample, gpu) || clients_at(before, gpu)
                    == clients_at(prev, gpu));
            }
        }
    }
}

/// After a poll, each configured card is remembered with the counters of this poll.
pub proof fn law_poll_remembers(configs: Seq<Config>, sample: Sample, prev: Sample)
    ensures
        forall|i: int|
            0 <= i < configs.len() ==> clients_at(
                remembered(configs, configs.len() as int, sample, prev),
                (#[trigger] configs[i]).id,
            ) == clients_at(sample, configs[i].id),
{
    lemma_remembered(configs, configs.len() as int, sample, prev);
}

fn find_client(clients: &Vec<(u64, u64)>, id: u64) -> (r: Option<u64>)
    ensures
        r == table::value_at(clients@, id),
{
    let ghost all = clients@;
    assert(all.skip(0) =~= all);
    for i in 0..clients.len()
        invariant
            all == clients@,
            table::value_at(all, id) == table::value_at(all.skip(i as int), id),
    {
        if clients[i].0 == id {
            return Some(clients[i].1);
        }
        assert(all.skip(i as int).skip(1) =~= all.skip(i + 1));
    }
    None
}

/// The busy time since the last poll; nothing when it does not fit 64 bits.
pub fn busy_since(current: &Vec<(u64, u64)>, prev: &Vec<(u64, u64)>) -> (r: Option<u64>)
    ensures
        match r {
            Some(t) => busy_time(current@, prev@) == t,
            None => busy_time(current@, prev@) > u64::MAX,
        },
{
    let mut sum: u64 = 0;
    assert(current@.take(0) =~= Seq::<(u64, u64)>::empty());
    for i in 0..current.len()
        invariant
            sum == busy_time(current@.take(i as int), prev@),
    {
        proof {
            assert(current@.take(i + 1).drop_last() =~= current@.take(i as int));
            assert(current@.take(i + 1).last() == current@[i as int]);
            lemma_busy_grows(current@, prev@, i + 1);
        }
        let gain: u64 = match find_client(prev, current[i].0) {
            Some(before) => if current[i].1 >= before {
                current[i].1 - before
            } else {
                0
            },
            None => 0,
        };
        if gain > 0xffff_ffff_ffff_ffff - sum {
            return None;
        }
        sum += gain;
    }
    assert(current@.take(current@.len() as int) =~= current@);
    Some(sum)
}

fn copy_clients(clients: &Vec<(u64, u64)>) -> (r: Vec<(u64, u64)>)
    ensures
        r@ == clients@,
{
    let mut out: Vec<(u64, u64)> = Vec::new();
    for i in 0..clients.len()
        invariant
            out@ =~= clients@.take(i as int),
    {
        out.push(clients[i]);
    }
    assert(clients@.take(clients@.len() as int) =~= clients@);
    out
}

fn clients_of(sample: &Vec<GpuClients>, gpu: &str) -> (r: Vec<(u64, u64)>)
    ensures
        r@ == clients_at(sample_of(sample@), gpu@),
{
    match place(sample, gpu) {
        Some(i) => copy_clients(&sample[i].clients),
        None => Vec::new(),
    }
}

/// Remembers the counters of the last poll.
#[derive(Debug)]
pub struct IntelMonitor {
    pub prev: Vec<GpuClients>,
}

impl IntelMonitor {
    /// Before the first poll, no client is known.
    pub fn new() -> (r: IntelMonitor)
        ensures
            sample_of(r.prev@) == Seq::<(Seq<char>, Seq<(u64, u64)>)>::empty(),
    {
        let r = IntelMonitor { prev: Vec::new() };
        assert(sample_of(r.prev@) =~= Seq::<(Seq<char>, Seq<(u64, u64)>)>::empty());
        r
    }

    /// Whether the busy time of every configured card can be said in 64 bits.
    pub fn can_poll(&self, configs: &Vec<GpuConfig>, sample: &Vec<GpuClients>) -> (r: bool)
        ensures
            r == times_fit(
                gpu::configs_of(configs@),
                sample_of(sample@),
                sample_of(self.prev@),
            ),
    {
        let ghost all = gpu::configs_of(configs@);
        for i in 0..configs.len()
            invariant
                all == gpu::configs_of(configs@),
                forall|j: int|
                    0 <= j < i ==> busy_time(
                        clients_at(sample_of(sample@), (#[trigger] all[j]).id),
                        clients_at(sample_of(self.prev@), all[j].id),
                    ) <= u64::MAX,
        {
            let id = configs[i].id.as_str();
            assert(all[i as int].id == id@);
            let current = clients_of(sample, id);
            let before = clients_of(&self.prev, id);
            if busy_since(&current, &before).is_none() {
                return false;
            }
        }
        true
    }

    /// The state of the configured cards, given their clients and the nanoseconds since
    /// the last poll.
    pub fn poll(
        &mut self,
        configs: &Vec<GpuConfig>,
        sample: &Vec<GpuClients>,
        elapsed: u128,
        models: &ModelNames,
    ) -> (r: GpuState)
        requires
            well_formed(sample_of(sample@)),
            times_fit(gpu::configs_of(configs@), sample_of(sample@), sample_of(old(self).prev@)),
        ensures
            gpu::infos(r.gpus@) == card_infos(
                gpu::configs_of(configs@),
                configs@.len() as int,
                sample_of(sample@),
                sample_of(old(self).prev@),
                elapsed,
                models@,
            ),
            sample_of(final(self).prev@) == remembered(
                gpu::configs_of(configs@),
                configs@.len() as int,
                sample_of(sample@),
                sample_of(old(self).prev@),
            ),
    {
        let ghost all = gpu::configs_of(configs@);
        let ghost now = sample_of(sample@);
        let ghost first = sample_of(self.prev@);
        let whole: u128 = if elapsed < 1 {
            1
        } else {
            elapsed
        };
        let mut gpus: Vec<GpuInfo> = Vec::new();
        assert(gpu::infos(gpus@) =~= Seq::<Info>::empty());
        for i in 0..configs.len()
            invariant
                all == gpu::configs_of(configs@),
                now == sample_of(sample@),
                first == sample_of(old(self).prev@),
                well_formed(now),
                times_fit(all, now, first),
                whole == (if elapsed < 1 {
                    1
                } else {
                    elapsed
                }),
                gpu::infos(gpus@) == card_infos(all, i as int, now, first, elapsed, models@),
                sample_of(self.prev@) == remembered(all, i as int, now, first),
        {
            let ghost before = gpu::infos(gpus@);
            let ghost known = sample_of(self.prev@);
            let config = &configs[i];
            let id = config.id.as_str();
            assert(all[i as int] == config@);
            let current = clients_of(sample, id);
            let prev = clients_of(&self.prev, id);
            proof {
                lemma_remembered(all, i as int, now, first);
                lemma_clients_distinct(now, id@);
                law_same_counters_no_load(current@);
                assert(clients_at(known, id@) == clients_at(now, id@) || clients_at(known, id@)
                    == clients_at(first, id@));
                assert(busy_time(current@, prev@) <= u64::MAX);
            }
            let busy: u64 = match busy_since(&current, &prev) {
                Some(t) => t,
                None => 0,
            };
            self.remember(id, current);
            let info = GpuInfo {
                id: text::owned(id),
                label: text::owned("iGPU"),
                model: models.shown(id),
                provider: GpuProvider::Intel,
                gpu_usage: Measure::Share { part: busy, whole },
                mem_used: 0,
                mem_total: 0,
                gtt_used: 0,
                gtt_total: 0,
                temperature: gpu::measure(None, 1),
                power_watts: gpu::measure(None, 1),
                in_bar: config.bar,
            };
            gpus.push(info);
            proof {
                assert(gpu::infos(gpus@) =~= before.push(info@));
                assert(info@ == card_info(config@, busy as int, elapsed, models@));
            }
        }
        GpuState { gpus }
    }

    fn remember(&mut self, gpu: &str, clients: Vec<(u64, u64)>)
        ensures
            sample_of(final(self).prev@) == table::put(
                sample_of(old(self).prev@),
                gpu@,
                clients@,
            ),
    {
        let ghost all = sample_of(self.prev@);
        let entry = GpuClients { gpu: text::owned(gpu), clients };
        match place(&self.prev, gpu) {
            Some(i) => {
                self.prev.set(i, entry);
                assert(sample_of(self.prev@) =~= all.update(i as int, entry@));
            },
            None => {
                self.prev.push(entry);
                assert(sample_of(self.prev@) =~= all.push(entry@));
            },
        }
    }
}

/// On the first poll nothing is known, so every card shows no load.
pub proof fn law_first_poll_shows_no_load(
    configs: Seq<Config>,
    n: int,
    sample: Sample,
    elapsed: u128,
    names: Map<Seq<char>, Seq<char>>,
)
    requires
        0 <= n <= configs.len(),
        well_formed(sample),
    ensures
        card_infos(configs, n, sample, Seq::empty(), elapsed, names).len() == n,
        forall|i: int|
            0 <= i < n ==> (#[trigger] card_infos(
                configs,
                n,
                sample,
                Seq::empty(),
                elapsed,
                names,
            )[i]) == card_info(configs[i], 0, elapsed, names),
    decreases n,
{
    if n > 0 {
        law_first_poll_shows_no_load(configs, n - 1, sample, elapsed, names);
        let id = configs[n - 1].id;
        let known = remembered(configs, n - 1, sample, Seq::empty());
        lemma_remembered(configs, n - 1, sample, Seq::empty());
        lemma_clients_distinct(sample, id);
        assert(clients_at(known, id) == clients_at(sample, id) || clients_at(known, id)
            == clients_at(Seq::empty(), id));
        if clients_at(known, id) == clients_at(sample, id) {
            law_same_counters_no_load(clients_at(sample, id));
        } else {
            law_new_clients_count_for_nothing(clients_at(sample, id), clients_at(known, id));
        }
        let rest = card_infos(configs, n - 1, sample, Seq::empty(), elapsed, names);
        assert forall|i: int| 0 <= i < n - 1 implies card_infos(
            configs,
            n,
            sample,
            Seq::empty(),
            elapsed,
            names,
        )[i] == #[trigger] rest[i] by {}
    }
}

/// The driver exposes no memory, temperature or power: whatever was read, they are 0.
pub proof fn law_only_load_is_known(
    config: Config,
    busy: int,
    elapsed: u128,
    names: Map<Seq<char>, Seq<char>>,
)
    ensures
        ({
            let info = card_info(config, busy, elapsed, names);
            &&& info.mem_used == 0 && info.mem_total == 0
            &&& info.gtt_used == 0 && info.gtt_total == 0
            &&& info.temperature == gpu::no_amount()
            &&& info.power_watts == gpu::no_amount()
        }),
{
}

/// Whether a card is configured before place `i` already.
pub open spec fn seen_before(configs: Seq<Config>, i: int) -> bool {
    exists|j: int| 0 <= j < i && (#[trigger] configs[j]).id == configs[i].id
}

proof fn lemma_not_seen(configs: Seq<Config>, n: int, sample: Sample, prev: Sample, gpu: Seq<char>)
    requires
        0 <= n <= configs.len(),
        forall|j: int| 0 <= j < n ==> (#[trigger] configs[j]).id != gpu,
    ensures
        clients_at(remembered(configs, n, sample, prev), gpu) == clients_at(prev, gpu),
    decreases n,
{
    if n > 0 {
        let before = remembered(configs, n - 1, sample, prev);
        lemma_not_seen(configs, n - 1, sample, prev, gpu);
        table::lemma_put(before, configs[n - 1].id, clients_at(sample, configs[n - 1].id));
        assert(configs[n - 1].id != gpu);
    }
}

/// The load of a card is the busy time from its last sample to this one. A card that is
/// configured again shows none in the later places.
pub proof fn law_load_of_card(
    configs: Seq<Config>,
    n: int,
    sample: Sample,
    prev: Sample,
    elapsed: u128,
    names: Map<Seq<char>, Seq<char>>,
)
    requires
        0 <= n <= configs.len(),
        well_formed(sample),
    ensures
        card_infos(configs, n, sample, prev, elapsed, names).len() == n,
        forall|i: int|
            0 <= i < n ==> (#[trigger] card_infos(configs, n, sample, prev, elapsed, names)[i])
                == card_info(
                configs[i],
                if seen_before(configs, i) {
                    0
                } else {
                    busy_time(clients_at(sample, configs[i].id), clients_at(prev, configs[i].id))
                },
                elapsed,
                names,
            ),
    decreases n,
{
    if n > 0 {
        law_load_of_card(configs, n - 1, sample, prev, elapsed, names);
        let id = configs[n - 1].id;
        if seen_before(configs, n - 1) {
            let j = choose|j: int| 0 <= j < n - 1 && (#[trigger] configs[j]).id == id;
            lemma_remembered(configs, n - 1, sample, prev);
            lemma_clients_distinct(sample, id);
            law_same_counters_no_load(clients_at(sample, id));
            assert(configs[j].id == id);
        } else {
            lemma_not_seen(configs, n - 1, sample, prev, id);
        }
        let rest = card_infos(configs, n - 1, sample, prev, elapsed, names);
        assert forall|i: int| 0 <= i < n - 1 implies card_infos(
            configs,
            n,
            sample,
            prev,
            elapsed,
            names,
        )[i] == #[trigger] rest[i] by {}
    }
}

} // verus!
