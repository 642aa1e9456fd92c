//! Marketing names of graphics cards, from the PCI databases on disk.
//!
//! AMD cards share device ids: only device id and revision together tell a 7700 XT from a
//! 7800 XT, as libdrm's `amdgpu.ids` lists them. Everything else goes by the device name in
//! `pci.ids`, then by the PCI address.

use crate::gpu::GpuProvider;
use crate::gpu::ModelNames;
use crate::number;
use crate::text;
use crate::util;
use vstd::prelude::*;

verus! {

/// `s` without any `pat` in front.
pub open spec fn without_leading(s: Seq<char>, pat: Seq<char>) -> Seq<char>
    decreases s.len(),
{
    if pat.len() > 0 && pat.is_prefix_of(s) {
        without_leading(s.skip(pat.len() as int), pat)
    } else {
        s
    }
}

/// The hexadecimal number in a sysfs file, behind a `0x` or none.
pub open spec fn hex_file(content: Option<Seq<char>>) -> Option<u32> {
    match content {
        Some(c) => number::hex_of(without_leading(text::trimmed(c), "0x"@)),
        None => None,
    }
}

fn skip_leading<'a>(s: &'a [char], pat: &str) -> (r: &'a [char])
    requires
        pat@.len() > 0,
    ensures
        r@ == without_leading(s@, pat@),
{
    let mut rest = s;
    loop
        invariant
            pat@.len() > 0,
            without_leading(rest@, pat@) == without_leading(s@, pat@),
        decreases rest@.len(),
    {
        match text::strip_prefix(rest, pat) {
            Some(r) => {
                rest = r;
            },
            None => {
                return rest;
            },
        }
    }
}

/// Reads the hexadecimal number in a sysfs file such as `vendor` or `device`, given what
/// was read of it.
pub fn read_hex(content: Option<&str>) -> (r: Option<u32>)
    ensures
        r == hex_file(text::given(content)),
{
    match util::read_trimmed(content) {
        Some(raw) => {
            let chars = text::chars_of(raw.as_str());
            proof {
                reveal_strlit("0x");
            }
            number::parse_hex(skip_leading(chars.as_slice(), "0x"))
        },
        None => None,
    }
}

/// An entry of `amdgpu.ids`.
pub struct AmdEntry {
    pub device: Seq<char>,
    pub revision: Seq<char>,
    pub name: Seq<char>,
}

/// The entry on a line `device, revision, name`; comments, the version line and empty
/// lines hold none.
pub open spec fn amd_entry(line: Seq<char>) -> Option<AmdEntry> {
    let t = text::trimmed(line);
    if t.len() == 0 || t[0] == '#' {
        None
    } else {
        match text::split_once_of(t, ","@) {
            Some((device, rest)) => match text::split_once_of(rest, ","@) {
                Some((revision, name)) => Some(
                    AmdEntry {
                        device: text::trimmed(device),
                        revision: text::trimmed(revision),
                        name: text::trimmed(name),
                    },
                ),
                None => None,
            },
            None => None,
        }
    }
}

/// A product name without the vendor in front.
pub open spec fn without_vendor(name: Seq<char>) -> Seq<char> {
    match text::after_prefix(name, "AMD "@) {
        Some(rest) => rest,
        None => name,
    }
}

/// The name on a line of `amdgpu.ids`, when it is about this device and revision.
pub open spec fn amd_name_on(line: Seq<char>, device: u32, revision: u32) -> Option<Seq<char>> {
    match amd_entry(line) {
        Some(e) if number::hex_of(e.device) == Some(device) && number::hex_of(e.revision) == Some(
            revision,
        ) => Some(without_vendor(e.name)),
        _ => None,
    }
}

/// The name on the first line of `amdgpu.ids` about this device and revision.
pub open spec fn amd_name(lines: Seq<Seq<char>>, device: u32, revision: u32) -> Option<Seq<char>>
    decreases lines.len(),
{
    if lines.len() == 0 {
        None
    } else {
        match amd_name_on(lines[0], device, revision) {
            Some(name) => Some(name),
            None => amd_name(lines.skip(1), device, revision),
        }
    }
}

fn read_amd_line(line: &[char], device: u32, revision: u32) -> (r: Option<String>)
    ensures
        text::maybe(r) == amd_name_on(line@, device, revision),
{
    let t = text::trim(line);
    if t.len() == 0 || t[0] == '#' {
        return None;
    }
    if let Some(first) = text::split_once(t, ",") {
        if let Some(second) = text::split_once(first.1, ",") {
            let dev = number::parse_hex(text::trim(first.0));
            let rev = number::parse_hex(text::trim(second.0));
            if dev == Some(device) && rev == Some(revision) {
                let name = text::trim(second.1);
                return match text::strip_prefix(name, "AMD ") {
                    Some(rest) => Some(text::string_of(rest)),
                    None => Some(text::string_of(name)),
                };
            }
        }
    }
    None
}

/// Looks up a marketing name in `amdgpu.ids` by device id and revision.
pub fn parse_amdgpu_ids(content: &str, device_id: u32, revision: u32) -> (r: Option<String>)
    ensures
        text::maybe(r) == amd_name(text::lines_of(content@), device_id, revision),
{
    let chars = text::chars_of(content);
    let lines = text::lines(chars.as_slice());
    let ghost all = text::lines_of(content@);
    assert(all.skip(0) =~= all);
    for i in 0..lines.len()
        invariant
            all == text::texts(lines@),
            all == text::lines_of(content@),
            amd_name(all, device_id, revision) == amd_name(
                all.skip(i as int),
                device_id,
                revision,
            ),
    {
        assert(all.skip(i as int)[0] == lines@[i as int]@);
        let found = read_amd_line(lines[i], device_id, revision);
        if found.is_some() {
            return found;
        }
        assert(all.skip(i as int).skip(1) =~= all.skip(i + 1));
    }
    None
}

/// A line of `pci.ids` that says nothing.
pub open spec fn is_blank(line: Seq<char>) -> bool {
    (line.len() > 0 && line[0] == '#') || text::trimmed(line).len() == 0
}

/// A line at column 0, which begins a vendor and ends the one before.
pub open spec fn is_heading(line: Seq<char>) -> bool {
    !is_blank(line) && !(line.len() > 0 && line[0] == '\t')
}

/// The id and the name on a line, two spaces between them.
pub open spec fn heads(line: Seq<char>, id: Seq<char>) -> bool {
    match text::split_once_of(line, "  "@) {
        Some((first, _)) => first == id,
        None => false,
    }
}

/// The name on a line that is indented one tab and about this device.
pub open spec fn device_name_on(line: Seq<char>, device: Seq<char>) -> Option<Seq<char>> {
    if is_blank(line) || is_heading(line) || (line.len() > 1 && line[1] == '\t') {
        None
    } else {
        match text::split_once_of(line.skip(1), "  "@) {
            Some((id, name)) if id == device => Some(text::trimmed(name)),
            _ => None,
        }
    }
}

/// The name of a device among the lines up to the next heading.
pub open spec fn device_name(lines: Seq<Seq<char>>, device: Seq<char>) -> Option<Seq<char>>
    decreases lines.len(),
{
    if lines.len() == 0 || is_heading(lines[0]) {
        None
    } else {
        match device_name_on(lines[0], device) {
            Some(name) => Some(name),
            None => device_name(lines.skip(1), device),
        }
    }
}

/// The name of a device of a vendor: among the lines under the vendor's first heading.
pub open spec fn vendor_device_name(
    lines: Seq<Seq<char>>,
    vendor: Seq<char>,
    device: Seq<char>,
) -> Option<Seq<char>>
    decreases lines.len(),
{
    if lines.len() == 0 {
        None
    } else if is_heading(lines[0]) && heads(lines[0], vendor) {
        device_name(lines.skip(1), device)
    } else {
        vendor_device_name(lines.skip(1), vendor, device)
    }
}

/// An id as `pci.ids` writes it: at least four lower case hexadecimal digits.
pub open spec fn pci_hex(id: u32) -> Seq<char> {
    number::hex_text(id as nat, 4)
}

/// The name of a device of a vendor in `pci.ids`.
pub open spec fn pci_name(content: Seq<char>, vendor: u32, device: u32) -> Option<Seq<char>> {
    vendor_device_name(text::lines_of(content), pci_hex(vendor), pci_hex(device))
}

fn same(a: &[char], b: &[char]) -> (r: bool)
    ensures
        r == (a@ == b@),
{
    let r = a.len() == b.len() && text::ends_with(a, b);
    proof {
        if r {
            assert(a@ =~= b@);
        } else if a@ == b@ {
            assert(b@ =~= a@.subrange(0, a@.len() as int));
        }
    }
    r
}

fn read_device_line(line: &[char], device: &[char]) -> (r: Option<String>)
    requires
        !is_blank(line@),
        !is_heading(line@),
    ensures
        text::maybe(r) == device_name_on(line@, device@),
{
    if line.len() > 1 && line[1] == '\t' {
        return None;
    }
    let rest = &line[1..line.len()];
    assert(rest@ =~= line@.skip(1));
    if let Some(p) = text::split_once(rest, "  ") {
        if same(p.0, device) {
            return Some(text::string_of(text::trim(p.1)));
        }
    }
    None
}

/// Looks up a device name in `pci.ids`. Device ids are unique within a vendor only, so
/// the device is searched under its vendor's heading.
pub fn parse_pci_ids(content: &str, vendor_id: u32, device_id: u32) -> (r: Option<String>)
    ensures
        text::maybe(r) == pci_name(content@, vendor_id, device_id),
{
    let vendor = number::to_hex(vendor_id, 4);
    let device = number::to_hex(device_id, 4);
    let chars = text::chars_of(content);
    let lines = text::lines(chars.as_slice());
    let ghost all = text::lines_of(content@);
    let mut in_vendor = false;
    assert(all.skip(0) =~= all);
    for i in 0..lines.len()
        invariant
            all == text::texts(lines@),
            vendor@ == pci_hex(vendor_id),
            device@ == pci_hex(device_id),
            pci_name(content@, vendor_id, device_id) == if in_vendor {
                device_name(all.skip(i as int), device@)
            } else {
                vendor_device_name(all.skip(i as int), vendor@, device@)
            },
    {
        let line = lines[i];
        proof {
            assert(all.skip(i as int)[0] == line@);
            assert(all.skip(i as int).skip(1) =~= all.skip(i + 1));
        }
        let blank = (line.len() > 0 && line[0] == '#') || text::trim(line).len() == 0;
        if !blank && !(line.len() > 0 && line[0] == '\t') {
            if in_vendor {
                return None;
            }
            in_vendor = match text::split_once(line, "  ") {
                Some(p) => same(p.0, vendor.as_slice()),
                None => false,
            };
        } else if !blank && in_vendor {
            let found = read_device_line(line, device.as_slice());
            if found.is_some() {
                return found;
            }
        }
    }
    assert(all.skip(all.len() as int) =~= Seq::<Seq<char>>::empty());
    None
}

/// What was read of a card's files under `/sys/bus/pci/devices`.
#[derive(Debug)]
pub struct PciFiles {
    pub device: Option<String>,
    pub revision: Option<String>,
    pub vendor: Option<String>,
}

/// What was read of the databases of names.
#[derive(Debug)]
pub struct Databases {
    /// libdrm's `amdgpu.ids`.
    pub amdgpu_ids: Option<String>,
    /// `pci.ids`.
    pub pci_ids: Option<String>,
}

/// The content of a card's files.
pub struct Ids {
    pub device: Option<u32>,
    pub revision: Option<u32>,
    pub vendor: Option<u32>,
}

impl View for PciFiles {
    type V = Ids;

    open spec fn view(&self) -> Ids {
        Ids {
            device: hex_file(text::maybe(self.device)),
            revision: hex_file(text::maybe(self.revision)),
            vendor: hex_file(text::maybe(self.vendor)),
        }
    }
}

/// The content of the databases.
pub struct Names {
    pub amdgpu_ids: Option<Seq<char>>,
    pub pci_ids: Option<Seq<char>>,
}

impl View for Databases {
    type V = Names;

    open spec fn view(&self) -> Names {
        Names {
            amdgpu_ids: text::maybe(self.amdgpu_ids),
            pci_ids: text::maybe(self.pci_ids),
        }
    }
}

/// The name that `amdgpu.ids` has for a card of AMD.
pub open spec fn amd_lookup(ids: Ids, names: Names, provider: GpuProvider) -> Option<Seq<char>> {
    match (ids.device, ids.revision, names.amdgpu_ids) {
        (Some(device), Some(revision), Some(content)) if provider == GpuProvider::Amd => amd_name(
            text::lines_of(content),
            device,
            revision,
        ),
        _ => None,
    }
}

/// The name that `pci.ids` has for a card.
pub open spec fn pci_lookup(ids: Ids, names: Names) -> Option<Seq<char>> {
    match (ids.device, ids.vendor, names.pci_ids) {
        (Some(device), Some(vendor), Some(content)) => pci_name(content, vendor, device),
        _ => None,
    }
}

/// The name that the databases have for a card.
pub open spec fn name_of(ids: Ids, names: Names, provider: GpuProvider) -> Option<Seq<char>> {
    match amd_lookup(ids, names, provider) {
        Some(name) => Some(name),
        None => pci_lookup(ids, names),
    }
}

/// The name that is shown for a card: its PCI address when the databases have none, or an
/// empty one.
pub open spec fn resolved_name(
    pci_id: Seq<char>,
    provider: GpuProvider,
    ids: Ids,
    names: Names,
) -> Seq<char> {
    match name_of(ids, names, provider) {
        Some(name) if name.len() > 0 => name,
        _ => pci_id,
    }
}

fn content_of(s: &Option<String>) -> (r: Option<&str>)
    ensures
        text::given(r) == text::maybe(*s),
{
    match s {
        Some(t) => Some(t.as_str()),
        None => None,
    }
}

/// The name that the databases have for a card: for AMD by device and revision, else by
/// vendor and device.
pub fn lookup(provider: GpuProvider, files: &PciFiles, databases: &Databases) -> (r: Option<String>)
    ensures
        text::maybe(r) == name_of(files@, databases@, provider),
{
    let device = match read_hex(content_of(&files.device)) {
        Some(device) => device,
        None => {
            return None;
        },
    };
    if provider == GpuProvider::Amd {
        if let Some(revision) = read_hex(content_of(&files.revision)) {
            if let Some(content) = &databases.amdgpu_ids {
                let name = parse_amdgpu_ids(content.as_str(), device, revision);
                if name.is_some() {
                    return name;
                }
            }
        }
    }
    let vendor = match read_hex(content_of(&files.vendor)) {
        Some(vendor) => vendor,
        None => {
            return None;
        },
    };
    match &databases.pci_ids {
        Some(content) => parse_pci_ids(content.as_str(), vendor, device),
        None => None,
    }
}

/// The name to show for the card at `pci_id`, a PCI address such as `0000:03:00.0`. Never
/// empty: falls back to `pci_id`.
pub fn resolve(
    pci_id: &str,
    provider: GpuProvider,
    files: &PciFiles,
    databases: &Databases,
) -> (r: String)
    ensures
        r@ == resolved_name(pci_id@, provider, files@, databases@),
{
    match lookup(provider, files, databases) {
        Some(name) => {
            if name.as_str().is_empty() {
                text::owned(pci_id)
            } else {
                name
            }
        },
        None => text::owned(pci_id),
    }
}

/// A card of which the name is wanted.
#[derive(Debug)]
pub struct Card {
    pub id: String,
    pub provider: GpuProvider,
    pub files: PciFiles,
}

/// The names of cards by PCI address. Of two cards with one address the last counts.
pub open spec fn resolved_names(cards: Seq<Card>, names: Names) -> Map<Seq<char>, Seq<char>>
    decreases cards.len(),
{
    if cards.len() == 0 {
        Map::empty()
    } else {
        let c = cards.last();
        resolved_names(cards.drop_last(), names).insert(
            c.id@,
            resolved_name(c.id@, c.provider, c.files@, names),
        )
    }
}

/// Resolves the names of all cards up front: they never change.
pub fn resolve_all(cards: &Vec<Card>, databases: &Databases) -> (r: ModelNames)
    ensures
        r@ == resolved_names(cards@, databases@),
{
    let mut out = ModelNames::new();
    assert(cards@.take(0) =~= Seq::<Card>::empty());
    for i in 0..cards.len()
        invariant
            out@ == resolved_names(cards@.take(i as int), databases@),
    {
        let c = &cards[i];
        let name = resolve(c.id.as_str(), c.provider, &c.files, databases);
        out.insert(text::owned(c.id.as_str()), name);
        proof {
            assert(cards@.take(i + 1).drop_last() =~= cards@.take(i as int));
            assert(cards@.take(i + 1).last() == cards@[i as int]);
        }
    }
    assert(cards@.take(cards@.len() as int) =~= cards@);
    out
}

/// The name that is shown is never empty.
pub proof fn law_resolved_name_not_empty(
    pci_id: Seq<char>,
    provider: GpuProvider,
    ids: Ids,
    names: Names,
)
    requires
        pci_id.len() > 0,
    ensures
        resolved_name(pci_id, provider, ids, names).len() > 0,
{
}

/// Every card that was asked for gets a name.
pub proof fn law_every_card_named(cards: Seq<Card>, names: Names)
    ensures
        forall|i: int|
            0 <= i < cards.len() ==> resolved_names(cards, names).dom().contains(
                (#[trigger] cards[i]).id@,
            ),
    decreases cards.len(),
{
    if cards.len() > 0 {
        law_every_card_named(cards.drop_last(), names);
        assert forall|i: int| 0 <= i < cards.len() implies resolved_names(
            cards,
            names,
        ).dom().contains((#[trigger] cards[i]).id@) by {
            if i < cards.len() - 1 {
                assert(cards.drop_last()[i] == cards[i]);
            }
        }
    }
}

/// A name in `amdgpu.ids` is that of the first line about this device and this revision:
/// a device under other revisions only has none.
pub proof fn law_revision_decides(lines: Seq<Seq<char>>, device: u32, revision: u32)
    ensures
        match amd_name(lines, device, revision) {
            Some(name) => exists|i: int|
                {
                    &&& 0 <= i < lines.len()
                    &&& amd_name_on(#[trigger] lines[i], device, revision) == Some(name)
                    &&& forall|j: int|
                        0 <= j < i ==> amd_name_on(#[trigger] lines[j], device, revision) is None
                },
            None => forall|i: int|
                0 <= i < lines.len() ==> amd_name_on(#[trigger] lines[i], device, revision) is None,
        },
    decreases lines.len(),
{
    if lines.len() > 0 && amd_name_on(lines[0], device, revision) is None {
        let rest = lines.skip(1);
        law_revision_decides(rest, device, revision);
        assert forall|i: int| 0 < i < lines.len() implies #[trigger] lines[i] == rest[i - 1] by {}
        if let Some(name) = amd_name(rest, device, revision) {
            let i = choose|i: int|
                {
                    &&& 0 <= i < rest.len()
                    &&& amd_name_on(#[trigger] rest[i], device, revision) == Some(name)
                    &&& forall|j: int|
                        0 <= j < i ==> amd_name_on(#[trigger] rest[j], device, revision) is None
                };
            assert(lines[i + 1] == rest[i]);
            assert forall|j: int| 0 <= j < i + 1 implies amd_name_on(
                #[trigger] lines[j],
                device,
                revision,
            ) is None by {
                if j > 0 {
                    assert(lines[j] == rest[j - 1]);
                }
            }
        }
    } else if lines.len() > 0 {
        assert(amd_name_on(lines[0], device, revision) is Some);
    }
}

/// A comment, an empty line or a version line in `amdgpu.ids` changes nothing.
pub proof fn law_amd_comments_ignored(
    before: Seq<Seq<char>>,
    line: Seq<char>,
    after: Seq<Seq<char>>,
    device: u32,
    revision: u32,
)
    requires
        amd_entry(line) is None,
    ensures
        amd_name(before + seq![line] + after, device, revision) == amd_name(
            before + after,
            device,
            revision,
        ),
    decreases before.len(),
{
    let all = before + seq![line] + after;
    if before.len() == 0 {
        assert(all[0] == line);
        assert(all.skip(1) =~= after);
        assert(before + after =~= after);
    } else {
        law_amd_comments_ignored(before.skip(1), line, after, device, revision);
        assert(all[0] == before[0]);
        assert((before + after)[0] == before[0]);
        assert(all.skip(1) =~= before.skip(1) + seq![line] + after);
        assert((before + after).skip(1) =~= before.skip(1) + after);
    }
}

proof fn lemma_device_in_block(lines: Seq<Seq<char>>, device: Seq<char>)
    ensures
        device_name(lines, device) matches Some(name) ==> exists|d: int|
            {
                &&& 0 <= d < lines.len()
                &&& device_name_on(#[trigger] lines[d], device) == Some(name)
                &&& forall|k: int| 0 <= k < d ==> !is_heading(#[trigger] lines[k])
            },
    decreases lines.len(),
{
    if lines.len() > 0 && !is_heading(lines[0]) {
        if device_name_on(lines[0], device) is None {
            let rest = lines.skip(1);
            lemma_device_in_block(rest, device);
            if let Some(name) = device_name(rest, device) {
                let d = choose|d: int|
                    {
                        &&& 0 <= d < rest.len()
                        &&& device_name_on(#[trigger] rest[d], device) == Some(name)
                        &&& forall|k: int| 0 <= k < d ==> !is_heading(#[trigger] rest[k])
                    };
                assert(lines[d + 1] == rest[d]);
                assert forall|k: int| 0 <= k < d + 1 implies !is_heading(#[trigger] lines[k]) by {
                    if k > 0 {
                        assert(lines[k] == rest[k - 1]);
                    }
                }
            }
        } else {
            assert(device_name_on(lines[0], device) is Some);
        }
    }
}

/// A name in `pci.ids` is scoped to its vendor: it stands under a heading of the vendor,
/// with no other heading between.
pub proof fn law_device_scoped_to_vendor(
    lines: Seq<Seq<char>>,
    vendor: Seq<char>,
    device: Seq<char>,
)
    ensures
        vendor_device_name(lines, vendor, device) matches Some(name) ==> exists|h: int, d: int|
            {
                &&& 0 <= h < d < lines.len()
                &&& is_heading(#[trigger] lines[h])
                &&& heads(lines[h], vendor)
                &&& device_name_on(#[trigger] lines[d], device) == Some(name)
                &&& forall|k: int| h < k < d ==> !is_heading(#[trigger] lines[k])
            },
    decreases lines.len(),
{
    if lines.len() > 0 {
        let rest = lines.skip(1);
        if is_heading(lines[0]) && heads(lines[0], vendor) {
            lemma_device_in_block(rest, device);
            if let Some(name) = device_name(rest, device) {
                let d = choose|d: int|
                    {
                        &&& 0 <= d < rest.len()
                        &&& device_name_on(#[trigger] rest[d], device) == Some(name)
                        &&& forall|k: int| 0 <= k < d ==> !is_heading(#[trigger] rest[k])
                    };
                assert(lines[d + 1] == rest[d]);
                assert forall|k: int| 0 < k < d + 1 implies !is_heading(#[trigger] lines[k]) by {
                    assert(lines[k] == rest[k - 1]);
                }
                assert(is_heading(lines[0]) && device_name_on(lines[d + 1], device) == Some(name));
            }
        } else {
            law_device_scoped_to_vendor(rest, vendor, device);
            if let Some(name) = vendor_device_name(rest, vendor, device) {
                let (h, d) = choose|h: int, d: int|
                    {
                        &&& 0 <= h < d < rest.len()
                        &&& is_heading(#[trigger] rest[h])
                        &&& heads(rest[h], vendor)
                        &&& device_name_on(#[trigger] rest[d], device) == Some(name)
                        &&& forall|k: int| h < k < d ==> !is_heading(#[trigger] rest[k])
                    };
                assert(lines[h + 1] == rest[h]);
                assert(lines[d + 1] == rest[d]);
                assert forall|k: int| h + 1 < k < d + 1 implies !is_heading(
                    #[trigger] lines[k],
                ) by {
                    assert(lines[k] == rest[k - 1]);
                }
                assert(is_heading(lines[h + 1]) && device_name_on(lines[d + 1], device) == Some(
                    name,
                ));
            }
        }
    }
}

/// A comment, an empty line or a subsystem line (two tabs) in `pci.ids` changes nothing.
pub proof fn law_pci_comments_ignored(
    before: Seq<Seq<char>>,
    line: Seq<char>,
    after: Seq<Seq<char>>,
    vendor: Seq<char>,
    device: Seq<char>,
)
    requires
        is_blank(line) || (line.len() > 1 && line[0] == '\t' && line[1] == '\t'),
    ensures
        vendor_device_name(before + seq![line] + after, vendor, device) == vendor_device_name(
            before + after,
            vendor,
            device,
        ),
        device_name(before + seq![line] + after, device) == device_name(before + after, device),
    decreases before.len(),
{
    let all = before + seq![line] + after;
    if before.len() == 0 {
        assert(all[0] == line);
        assert(all.skip(1) =~= after);
        assert(before + after =~= after);
    } else {
        law_pci_comments_ignored(before.skip(1), line, after, vendor, device);
        assert(all[0] == before[0]);
        assert((before + after)[0] == before[0]);
        assert(all.skip(1) =~= before.skip(1) + seq![line] + after);
        assert((before + after).skip(1) =~= before.skip(1) + after);
    }
}

} // verus!
