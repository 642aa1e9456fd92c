//! NVIDIA cards, as `nvidia-smi` reports them.

use crate::gpu;
use crate::gpu::Amount;
use crate::gpu::Config;
use crate::gpu::GpuConfig;
use crate::gpu::GpuInfo;
use crate::gpu::GpuProvider;
use crate::gpu::GpuState;
use crate::gpu::Info;
use crate::gpu::Measure;
use crate::gpu::ModelNames;
use crate::number;
use crate::sensors;
use crate::text;
use vstd::prelude::*;

verus! {

/// What `str::to_uppercase` makes of a text.
pub uninterp spec fn uppercase(s: Seq<char>) -> Seq<char>;

/// An ASCII letter in upper case; any other character as it is.
pub open spec fn upper_ascii(c: char) -> char {
    if 'a' <= c <= 'z' {
        (c as u32 - 32) as char
    } else {
        c
    }
}

/// `str::to_uppercase` puts a text into upper case by Unicode's rules, which has a name
/// only. Of ASCII text it changes the letters `a` to `z` and nothing else.
#[verifier::external_body]
fn to_uppercase(s: &str) -> (r: String)
    ensures
        r@ == uppercase(s@),
        vstd::utf8::is_ascii_chars(s@) ==> r@ == upper_text(s@),
{
    s.to_uppercase()
}

/// The PCI addresses of cards, in upper case.
pub open spec fn upper_ids(configs: Seq<Config>) -> Seq<Seq<char>> {
    configs.map_values(|c: Config| uppercase(c.id))
}

/// An ASCII text in upper case.
pub open spec fn upper_text(s: Seq<char>) -> Seq<char> {
    s.map_values(|c: char| upper_ascii(c))
}

/// The PCI addresses of cards, in upper case, as far as they are ASCII.
pub open spec fn ascii_ids(configs: Seq<Config>) -> Seq<Seq<char>> {
    configs.map_values(|c: Config| upper_text(c.id))
}

/// Whether all PCI addresses are ASCII, as they are in practice.
pub open spec fn plain_ids(configs: Seq<Config>) -> bool {
    forall|i: int| 0 <= i < configs.len() ==> vstd::utf8::is_ascii_chars((#[trigger] configs[i]).id)
}

/// The place of the first of some endings that a text ends with, or their number.
pub open spec fn first_ending(s: Seq<char>, endings: Seq<Seq<char>>) -> int
    decreases endings.len(),
{
    if endings.len() == 0 || endings[0].is_suffix_of(s) {
        0
    } else {
        1 + first_ending(s, endings.skip(1))
    }
}

/// The columns of a row; fewer than six are none.
pub open spec fn columns(row: Seq<char>) -> Option<Seq<Seq<char>>> {
    let parts = text::split_text_of(row, ", "@);
    if parts.len() < 6 {
        None
    } else {
        Some(parts)
    }
}

/// The card that a row is about, by its place among the configured ones: the first whose
/// PCI address in upper case ends the address in the row.
pub open spec fn card_of(row: Seq<char>, ids: Seq<Seq<char>>) -> Option<int> {
    match columns(row) {
        Some(parts) => {
            let i = first_ending(text::trimmed(parts[0]), ids);
            if i < ids.len() {
                Some(i)
            } else {
                None
            }
        },
        None => None,
    }
}

/// A number of MiB; 0 when the text is none.
pub open spec fn mebibytes(s: Seq<char>) -> u64 {
    match number::u64_of(text::trimmed(s)) {
        Some(v) => v,
        None => 0,
    }
}

/// Whether the memory on a row, if it is about a configured card, can be said in bytes.
pub open spec fn row_fits(row: Seq<char>, ids: Seq<Seq<char>>) -> bool {
    card_of(row, ids) is Some ==> {
        let parts = columns(row)->0;
        mebibytes(parts[2]) * 0x10_0000 <= u64::MAX && mebibytes(parts[3]) * 0x10_0000 <= u64::MAX
    }
}

/// What a row says of a configured card.
pub open spec fn info_of(
    row: Seq<char>,
    configs: Seq<Config>,
    ids: Seq<Seq<char>>,
    names: Map<Seq<char>, Seq<char>>,
) -> Option<Info> {
    match card_of(row, ids) {
        Some(i) => {
            let parts = columns(row)->0;
            Some(
                Info {
                    id: configs[i].id,
                    label: "dGPU"@,
                    model: gpu::shown_name(names, configs[i].id),
                    provider: GpuProvider::Nvidia,
                    gpu_usage: Amount::Text(text::trimmed(parts[1])),
                    mem_used: (mebibytes(parts[2]) * 0x10_0000) as u64,
                    mem_total: (mebibytes(parts[3]) * 0x10_0000) as u64,
                    gtt_used: 0,
                    gtt_total: 0,
                    temperature: Amount::Text(text::trimmed(parts[4])),
                    power_watts: Amount::Text(text::trimmed(parts[5])),
                    in_bar: configs[i].bar,
                },
            )
        },
        None => None,
    }
}

/// What rows say of the configured cards.
pub open spec fn infos_of(
    rows: Seq<Seq<char>>,
    configs: Seq<Config>,
    ids: Seq<Seq<char>>,
    names: Map<Seq<char>, Seq<char>>,
) -> Seq<Info>
    decreases rows.len(),
{
    if rows.len() == 0 {
        Seq::empty()
    } else {
        let rest = infos_of(rows.drop_last(), configs, ids, names);
        match info_of(rows.last(), configs, ids, names) {
            Some(info) => rest.push(info),
            None => rest,
        }
    }
}

/// Whether the memory on every row that is about a configured card can be said in bytes.
pub open spec fn rows_fit(rows: Seq<Seq<char>>, ids: Seq<Seq<char>>) -> bool {
    forall|i: int| 0 <= i < rows.len() ==> row_fits(#[trigger] rows[i], ids)
}

fn trimmed_string(s: &[char]) -> (r: String)
    ensures
        r@ == text::trimmed(s@),
{
    text::string_of(text::trim(s))
}

fn parse_mebibytes(s: &[char]) -> (r: u64)
    ensures
        r == mebibytes(s@),
{
    match number::parse_u64(text::trim(s)) {
        Some(v) => v,
        None => 0,
    }
}

fn row_columns<'a>(row: &'a [char]) -> (r: Option<Vec<&'a [char]>>)
    ensures
        match r {
            Some(parts) => columns(row@) == Some(text::texts(parts@)) && parts@.len() >= 6,
            None => columns(row@) is None,
        },
{
    proof {
        reveal_strlit(", ");
    }
    let parts = text::split_text(row, ", ");
    assert(text::texts(parts@).len() == parts@.len());
    if parts.len() < 6 {
        None
    } else {
        Some(parts)
    }
}

fn place(bdf: &[char], ids: &Vec<String>) -> (r: usize)
    ensures
        r <= ids@.len(),
        r == first_ending(bdf@, sensors::strings(ids@)),
{
    let ghost all = sensors::strings(ids@);
    assert(all.skip(0) =~= all);
    let mut i: usize = 0;
    while i < ids.len()
        invariant
            i <= ids@.len(),
            all == sensors::strings(ids@),
            first_ending(bdf@, all) == i + first_ending(bdf@, all.skip(i as int)),
        decreases ids@.len() - i,
    {
        let id = text::chars_of(ids[i].as_str());
        assert(all.skip(i as int)[0] == id@);
        if text::ends_with(bdf, id.as_slice()) {
            return i;
        }
        assert(all.skip(i as int).skip(1) =~= all.skip(i + 1));
        i += 1;
    }
    i
}

/// Whether the memory on a row, if it is about a configured card, can be said in bytes.
/// `ids` holds the configured addresses in upper case.
pub fn row_readable(line: &str, ids: &Vec<String>) -> (r: bool)
    ensures
        r == row_fits(line@, sensors::strings(ids@)),
{
    let chars = text::chars_of(line);
    if let Some(parts) = row_columns(chars.as_slice()) {
        let ghost all = text::texts(parts@);
        assert(all[0] == parts@[0]@ && all[2] == parts@[2]@ && all[3] == parts@[3]@);
        if place(text::trim(parts[0]), ids) < ids.len() {
            let used = parse_mebibytes(parts[2]);
            let total = parse_mebibytes(parts[3]);
            return used <= 0xfff_ffff_ffff && total <= 0xfff_ffff_ffff;
        }
    }
    true
}

/// What a row says of a configured card. `ids` holds the configured addresses in upper
/// case.
pub fn info_from_row(
    line: &str,
    configs: &Vec<GpuConfig>,
    ids: &Vec<String>,
    models: &ModelNames,
) -> (r: Option<GpuInfo>)
    requires
        ids@.len() == configs@.len(),
        row_fits(line@, sensors::strings(ids@)),
    ensures
        match r {
            Some(info) => info_of(
                line@,
                gpu::configs_of(configs@),
                sensors::strings(ids@),
                models@,
            ) == Some(info@),
            None => info_of(
                line@,
                gpu::configs_of(configs@),
                sensors::strings(ids@),
                models@,
            ) is None,
        },
{
    let chars = text::chars_of(line);
    let parts = match row_columns(chars.as_slice()) {
        Some(parts) => parts,
        None => {
            return None;
        },
    };
    let ghost all = text::texts(parts@);
    assert(all[0] == parts@[0]@ && all[1] == parts@[1]@ && all[2] == parts@[2]@ && all[3]
        == parts@[3]@ && all[4] == parts@[4]@ && all[5] == parts@[5]@);
    let i = place(text::trim(parts[0]), ids);
    if i == ids.len() {
        return None;
    }
    let config = &configs[i];
    assert(gpu::configs_of(configs@)[i as int] == config@);
    Some(
        GpuInfo {
            id: text::owned(config.id.as_str()),
            label: text::owned("dGPU"),
            model: models.shown(config.id.as_str()),
            provider: GpuProvider::Nvidia,
            gpu_usage: Measure::Text(trimmed_string(parts[1])),
            mem_used: parse_mebibytes(parts[2]) * 0x10_0000,
            mem_total: parse_mebibytes(parts[3]) * 0x10_0000,
            gtt_used: 0,
            gtt_total: 0,
            temperature: Measure::Text(trimmed_string(parts[4])),
            power_watts: Measure::Text(trimmed_string(parts[5])),
            in_bar: config.bar,
        },
    )
}

fn uppercase_ids(configs: &Vec<GpuConfig>) -> (r: Vec<String>)
    ensures
        sensors::strings(r@) == upper_ids(gpu::configs_of(configs@)),
        r@.len() == configs@.len(),
        plain_ids(gpu::configs_of(configs@)) ==> sensors::strings(r@) == ascii_ids(
            gpu::configs_of(configs@),
        ),
{
    let mut out: Vec<String> = Vec::new();
    let ghost all = upper_ids(gpu::configs_of(configs@));
    for i in 0..configs.len()
        invariant
            all == upper_ids(gpu::configs_of(configs@)),
            sensors::strings(out@) =~= all.take(i as int),
            out@.len() == i,
            plain_ids(gpu::configs_of(configs@)) ==> sensors::strings(out@) =~= ascii_ids(
                gpu::configs_of(configs@),
            ).take(i as int),
    {
        let ghost before = sensors::strings(out@);
        let id = to_uppercase(configs[i].id.as_str());
        assert(all[i as int] == id@);
        assert(gpu::configs_of(configs@)[i as int] == configs@[i as int]@);
        out.push(id);
        assert(sensors::strings(out@) =~= before.push(id@));
    }
    assert(all.take(all.len() as int) =~= all);
    out
}

/// Reads a row of `nvidia-smi`'s CSV and matches it to a configured card by PCI address,
/// whose hexadecimal digits may be of either case. A malformed row, or one about a card
/// that is not configured, gives nothing.
pub fn parse_gpu_line(line: &str, configs: &Vec<GpuConfig>, models: &ModelNames) -> (r: Option<
    GpuInfo,
>)
    requires
        row_fits(line@, upper_ids(gpu::configs_of(configs@))),
    ensures
        ({
            let config_views = gpu::configs_of(configs@);
            match r {
                Some(info) => info_of(line@, config_views, upper_ids(config_views), models@)
                    == Some(info@),
                None => info_of(line@, config_views, upper_ids(config_views), models@) is None,
            }
        }),
        plain_ids(gpu::configs_of(configs@)) ==> upper_ids(gpu::configs_of(configs@)) == ascii_ids(
            gpu::configs_of(configs@),
        ),
{
    let ids = uppercase_ids(configs);
    info_from_row(line, configs, &ids, models)
}

/// Why `nvidia-smi` gave no state.
#[derive(Clone, Copy, Debug, PartialEq, Eq, Structural)]
pub enum NvidiaError {
    /// It could not be run.
    NotRun,
    /// A card reports more memory than 64 bits can count in bytes.
    TooMuchMemory,
}

/// What the rows of `nvidia-smi` say of the configured cards.
pub fn parse_rows(output: &str, configs: &Vec<GpuConfig>, models: &ModelNames) -> (r: Result<
    GpuState,
    NvidiaError,
>)
    ensures
        ({
            let rows = text::lines_of(output@);
            let config_views = gpu::configs_of(configs@);
            let ids = upper_ids(config_views);
            match r {
                Ok(state) => rows_fit(rows, ids) && gpu::infos(state.gpus@) == infos_of(
                    rows,
                    config_views,
                    ids,
                    models@,
                ),
                Err(e) => e == NvidiaError::TooMuchMemory && !rows_fit(rows, ids),
            }
        }),
        plain_ids(gpu::configs_of(configs@)) ==> upper_ids(gpu::configs_of(configs@)) == ascii_ids(
            gpu::configs_of(configs@),
        ),
{
    let chars = text::chars_of(output);
    let lines = text::lines(chars.as_slice());
    let ids = uppercase_ids(configs);
    let ghost rows = text::lines_of(output@);
    let ghost config_views = gpu::configs_of(configs@);
    let ghost id_views = upper_ids(config_views);
    let mut gpus: Vec<GpuInfo> = Vec::new();
    proof {
        assert(rows.take(0) =~= Seq::<Seq<char>>::empty());
        assert(gpu::infos(gpus@) =~= Seq::<Info>::empty());
    }
    for i in 0..lines.len()
        invariant
            rows == text::texts(lines@),
            rows == text::lines_of(output@),
            config_views == gpu::configs_of(configs@),
            id_views == upper_ids(config_views),
            id_views == sensors::strings(ids@),
            plain_ids(config_views) ==> id_views == ascii_ids(config_views),
            forall|j: int| 0 <= j < i ==> row_fits(#[trigger] rows[j], id_views),
            gpu::infos(gpus@) == infos_of(rows.take(i as int), config_views, id_views, models@),
    {
        let ghost before = gpu::infos(gpus@);
        let line = text::string_of(lines[i]);
        proof {
            assert(rows[i as int] == line@);
            assert(rows.take(i + 1).drop_last() =~= rows.take(i as int));
            assert(rows.take(i + 1).last() == line@);
        }
        if !row_readable(line.as_str(), &ids) {
            return Err(NvidiaError::TooMuchMemory);
        }
        if let Some(info) = parse_gpu_line(line.as_str(), configs, models) {
            gpus.push(info);
            assert(gpu::infos(gpus@) =~= before.push(info@));
        }
    }
    assert(rows.take(rows.len() as int) =~= rows);
    Ok(GpuState { gpus })
}

/// The state of the configured cards, given what `nvidia-smi` printed.
pub fn poll_nvidia(stdout: Option<&[u8]>, configs: &Vec<GpuConfig>, models: &ModelNames) -> (r: Result<
    GpuState,
    NvidiaError,
>)
    ensures
        ({
            let config_views = gpu::configs_of(configs@);
            let ids = upper_ids(config_views);
            match (stdout, r) {
                (Some(bytes), Ok(state)) => {
                    let rows = text::lines_of(text::lossy(bytes@));
                    rows_fit(rows, ids) && gpu::infos(state.gpus@) == infos_of(
                        rows,
                        config_views,
                        ids,
                        models@,
                    )
                },
                (Some(bytes), Err(e)) => e == NvidiaError::TooMuchMemory && !rows_fit(
                    text::lines_of(text::lossy(bytes@)),
                    ids,
                ),
                (None, r) => r == Err::<GpuState, NvidiaError>(NvidiaError::NotRun),
            }
        }),
        stdout is Some && plain_ids(gpu::configs_of(configs@)) ==> upper_ids(
            gpu::configs_of(configs@),
        ) == ascii_ids(gpu::configs_of(configs@)),
{
    match stdout {
        Some(bytes) => {
            let output = text::from_utf8_lossy(bytes);
            parse_rows(output.as_str(), configs, models)
        },
        None => Err(NvidiaError::NotRun),
    }
}

proof fn lemma_first_ending(s: Seq<char>, endings: Seq<Seq<char>>)
    ensures
        0 <= first_ending(s, endings) <= endings.len(),
        first_ending(s, endings) < endings.len() ==> endings[first_ending(s, endings)].is_suffix_of(
            s,
        ),
        forall|i: int|
            0 <= i < first_ending(s, endings) ==> !(#[trigger] endings[i]).is_suffix_of(s),
    decreases endings.len(),
{
    if endings.len() > 0 && !endings[0].is_suffix_of(s) {
        let rest = endings.skip(1);
        lemma_first_ending(s, rest);
        assert forall|i: int| 0 < i < endings.len() implies #[trigger] endings[i] == rest[i - 1] by {}
    }
}

/// A row gives a card if and only if it is well-formed and its address ends with a
/// configured one; the card is then the first such. Rows about other cards are skipped.
pub proof fn law_row_matches_first_configured(row: Seq<char>, ids: Seq<Seq<char>>)
    ensures
        match card_of(row, ids) {
            Some(i) => {
                &&& columns(row) is Some
                &&& 0 <= i < ids.len()
                &&& ids[i].is_suffix_of(text::trimmed((columns(row)->0)[0]))
                &&& forall|j: int|
                    0 <= j < i ==> !(#[trigger] ids[j]).is_suffix_of(
                        text::trimmed((columns(row)->0)[0]),
                    )
            },
            None => columns(row) matches Some(parts) ==> forall|j: int|
                0 <= j < ids.len() ==> !(#[trigger] ids[j]).is_suffix_of(text::trimmed(parts[0])),
        },
{
    if let Some(parts) = columns(row) {
        lemma_first_ending(text::trimmed(parts[0]), ids);
    }
}

/// The case of the letters in a configured address makes no difference.
pub proof fn law_case_of_address_ignored(row: Seq<char>, a: Seq<Config>, b: Seq<Config>)
    requires
        a.len() == b.len(),
        forall|i: int|
            0 <= i < a.len() ==> upper_text((#[trigger] a[i]).id) == upper_text(
                (#[trigger] b[i]).id,
            ),
    ensures
        card_of(row, ascii_ids(a)) == card_of(row, ascii_ids(b)),
{
    assert forall|i: int| 0 <= i < a.len() implies ascii_ids(a)[i] == ascii_ids(b)[i] by {
        assert(upper_text(a[i].id) == upper_text(b[i].id));
    }
    assert(ascii_ids(a) =~= ascii_ids(b));
}

/// A card of NVIDIA has no GTT.
pub proof fn law_no_gtt(
    row: Seq<char>,
    configs: Seq<Config>,
    ids: Seq<Seq<char>>,
    names: Map<Seq<char>, Seq<char>>,
)
    ensures
        info_of(row, configs, ids, names) matches Some(info) ==> info.gtt_used == 0
            && info.gtt_total == 0,
{
}

} // verus!
