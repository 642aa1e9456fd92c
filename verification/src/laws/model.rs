//! Laws of the names of cards.

use crate::gpu::model;
use crate::gpu::model::Card;
use crate::gpu::model::Databases;
use crate::gpu::model::Ids;
use crate::gpu::model::Names;
use crate::gpu::model::PciFiles;
use crate::gpu::GpuProvider;
use crate::laws;
use crate::number;
use crate::text;
use vstd::prelude::*;

verus! {

/// Every `pat` in front of a text goes, and nothing else.
pub proof fn law_leading(s: Seq<char>, pat: Seq<char>)
    requires
        pat.len() > 0,
    ensures
        model::without_leading(pat + s, pat) == model::without_leading(s, pat),
        !pat.is_prefix_of(s) ==> model::without_leading(s, pat) == s,
{
    assert(pat.is_prefix_of(pat + s)) by {
        assert((pat + s).subrange(0, pat.len() as int) =~= pat);
    }
    assert((pat + s).skip(pat.len() as int) =~= s);
}

/// A sysfs file holds a hexadecimal number, with or without `0x` in front; the white space
/// around it does not count.
pub proof fn law_hex_file(content: Seq<char>, digits: Seq<char>)
    requires
        !"0x"@.is_prefix_of(digits),
    ensures
        text::trimmed(content) == digits || text::trimmed(content) == "0x"@ + digits
            ==> model::hex_file(Some(content)) == number::hex_of(digits),
        model::hex_file(None) is None,
{
    reveal_strlit("0x");
    law_leading(digits, "0x"@);
}

/// A line of `amdgpu.ids` is device, revision and name, parted by commas, each with white
/// space around it.
pub proof fn law_amd_entry(
    line: Seq<char>,
    device: Seq<char>,
    revision: Seq<char>,
    name: Seq<char>,
)
    requires
        text::trimmed(line) == device + seq![','] + (revision + seq![','] + name),
        device.len() == 0 || device[0] != '#',
        forall|i: int| 0 <= i < device.len() ==> #[trigger] device[i] != ',',
        forall|i: int| 0 <= i < revision.len() ==> #[trigger] revision[i] != ',',
    ensures
        match model::amd_entry(line) {
            Some(e) => e.device == text::trimmed(device) && e.revision == text::trimmed(revision)
                && e.name == text::trimmed(name),
            None => false,
        },
{
    reveal_strlit(",");
    assert(","@ =~= seq![',']);
    laws::text::law_split_once_at(device, ',', revision + seq![','] + name);
    laws::text::law_split_once_at(revision, ',', name);
    let t = text::trimmed(line);
    assert(t[0] == if device.len() == 0 {
        ','
    } else {
        device[0]
    });
}

/// Comments, empty lines and lines with fewer than two commas hold no entry.
pub proof fn law_no_amd_entry(line: Seq<char>, a: Seq<char>, b: Seq<char>)
    requires
        forall|i: int| 0 <= i < a.len() ==> #[trigger] a[i] != ',',
        forall|i: int| 0 <= i < b.len() ==> #[trigger] b[i] != ',',
    ensures
        text::trimmed(line).len() == 0 ==> model::amd_entry(line) is None,
        text::trimmed(line).len() > 0 && text::trimmed(line)[0] == '#' ==> model::amd_entry(
            line,
        ) is None,
        text::trimmed(line) == a || text::trimmed(line) == a + seq![','] + b ==> model::amd_entry(
            line,
        ) is None,
{
    reveal_strlit(",");
    assert(","@ =~= seq![',']);
    laws::text::law_split_once_at(a, ',', b);
    laws::text::law_split_once_at(b, ',', b);
}

/// `AMD ` in front of a name goes, once, and nothing else.
pub proof fn law_vendor_in_name(name: Seq<char>)
    ensures
        model::without_vendor("AMD "@ + name) == name,
        !"AMD "@.is_prefix_of(name) ==> model::without_vendor(name) == name,
{
    laws::text::law_prefix("AMD "@ + name, "AMD "@, name);
    if let Some(rest) = text::after_prefix(name, "AMD "@) {
        laws::text::law_prefix(name, "AMD "@, rest);
        assert(name.subrange(0, "AMD "@.len() as int) =~= "AMD "@);
    }
}

/// A line gives its name if and only if both its ids are the wanted ones; of several lines
/// the first such counts.
pub proof fn law_amd_name(
    line: Seq<char>,
    rest: Seq<Seq<char>>,
    device: u32,
    revision: u32,
)
    ensures
        match model::amd_entry(line) {
            Some(e) => model::amd_name(seq![line] + rest, device, revision) == (
            if number::hex_of(e.device) == Some(device) && number::hex_of(e.revision) == Some(
                revision,
            ) {
                Some(model::without_vendor(e.name))
            } else {
                model::amd_name(rest, device, revision)
            }),
            None => model::amd_name(seq![line] + rest, device, revision) == model::amd_name(
                rest,
                device,
                revision,
            ),
        },
        model::amd_name(Seq::empty(), device, revision) is None,
{
    assert((seq![line] + rest).skip(1) =~= rest);
}

/// In `pci.ids`, lines with nothing in them and those that begin with `#` say nothing. Of
/// the others, those that begin with a tab stand under a vendor, and the rest are headings.
pub proof fn law_kinds_of_lines(line: Seq<char>)
    ensures
        model::is_blank(line) <==> text::trimmed(line).len() == 0 || line[0] == '#',
        model::is_heading(line) <==> text::trimmed(line).len() > 0 && line[0] != '#' && line[0]
            != '\t',
{
    laws::text::law_trimming(line);
    if line.len() == 0 {
        let (from, to) = choose|from: int, to: int|
            {
                &&& 0 <= from <= to <= line.len()
                &&& text::trimmed(line) == #[trigger] line.subrange(from, to)
                &&& forall|i: int| 0 <= i < from || to <= i < line.len() ==> text::is_white(
                    #[trigger] line[i],
                )
            };
        assert(text::trimmed(line).len() == 0);
    }
}

/// An id without a space ends at the first two spaces.
proof fn lemma_id(id: Seq<char>, name: Seq<char>)
    requires
        forall|i: int| 0 <= i < id.len() ==> #[trigger] id[i] != ' ',
    ensures
        text::split_once_of(id + "  "@ + name, "  "@) == Some((id, name)),
{
    reveal_strlit("  ");
    let s = id + "  "@ + name;
    laws::text::law_split_once(s, "  "@);
    assert(s.skip(id.len() as int).subrange(0, 2) =~= "  "@);
    assert("  "@.is_prefix_of(s.skip(id.len() as int)));
    match text::split_once_of(s, "  "@) {
        Some((a, b)) => {
            if a.len() < id.len() {
                assert(s[a.len() as int] == (a + "  "@ + b)[a.len() as int]);
                assert(id[a.len() as int] == ' ');
            }
            if a.len() > id.len() {
                assert(!"  "@.is_prefix_of(s.skip(id.len() as int)));
            }
            assert(a.len() == id.len());
            assert(a =~= s.take(id.len() as int));
            assert(id =~= s.take(id.len() as int));
            assert((a + "  "@ + b).skip(id.len() as int + 2) =~= b);
            assert(s.skip(id.len() as int + 2) =~= name);
        },
        None => {},
    }
}

/// A heading is of a vendor if and only if what stands before its first two spaces is the
/// vendor's id.
pub proof fn law_heading_of_vendor(id: Seq<char>, name: Seq<char>, vendor: Seq<char>)
    requires
        forall|i: int| 0 <= i < id.len() ==> #[trigger] id[i] != ' ',
    ensures
        model::heads(id + "  "@ + name, vendor) == (id == vendor),
        !model::heads(id, vendor),
{
    lemma_id(id, name);
    reveal_strlit("  ");
    laws::text::law_split_once(id, "  "@);
    if let Some((a, b)) = text::split_once_of(id, "  "@) {
        assert(id[a.len() as int] == (a + "  "@ + b)[a.len() as int]);
        assert(id[a.len() as int] == ' ');
    }
}

proof fn lemma_not_empty(line: Seq<char>, k: int)
    requires
        0 <= k < line.len(),
        !text::is_white(line[k]),
    ensures
        text::trimmed(line).len() > 0,
{
    laws::text::law_trimming(line);
    let (from, to) = choose|from: int, to: int|
        {
            &&& 0 <= from <= to <= line.len()
            &&& text::trimmed(line) == #[trigger] line.subrange(from, to)
            &&& forall|i: int| 0 <= i < from || to <= i < line.len() ==> text::is_white(
                #[trigger] line[i],
            )
        };
    assert(from <= k < to);
}

/// A line of a tab, a device's id, two spaces and a name gives that name for that device,
/// without the white space around it, and nothing for another.
pub proof fn law_device_line(id: Seq<char>, name: Seq<char>, device: Seq<char>)
    requires
        id.len() > 0,
        forall|i: int| 0 <= i < id.len() ==> #[trigger] id[i] != ' ',
        id[0] != '\t',
        !text::is_white(id[0]),
    ensures
        model::device_name_on(seq!['\t'] + (id + "  "@ + name), device) == (if id == device {
            Some(text::trimmed(name))
        } else {
            None
        }),
        !model::is_heading(seq!['\t'] + (id + "  "@ + name)),
{
    let rest = id + "  "@ + name;
    let line = seq!['\t'] + rest;
    assert(text::split_once_of(rest, "  "@) == Some((id, name))) by {
        lemma_id(id, name);
    }
    assert(line.skip(1) =~= rest);
    assert(line[0] == '\t' && line[1] == id[0]);
    assert(text::trimmed(line).len() > 0) by {
        lemma_not_empty(line, 1);
    }
}

/// A line that begins with two tabs names no device.
pub proof fn law_subsystem_line(rest: Seq<char>, device: Seq<char>)
    ensures
        model::device_name_on(seq!['\t', '\t'] + rest, device) is None,
        !model::is_heading(seq!['\t', '\t'] + rest),
{
    let line = seq!['\t', '\t'] + rest;
    assert(line[0] == '\t' && line[1] == '\t');
}

/// Line by line under a vendor: a heading ends the search, a line with the device's name
/// settles it, and any other is passed over.
pub proof fn law_under_vendor(line: Seq<char>, rest: Seq<Seq<char>>, device: Seq<char>)
    ensures
        model::is_heading(line) ==> model::device_name(seq![line] + rest, device) is None,
        !model::is_heading(line) ==> model::device_name(seq![line] + rest, device) == (
        match model::device_name_on(line, device) {
            Some(name) => Some(name),
            None => model::device_name(rest, device),
        }),
        model::device_name(Seq::empty(), device) is None,
{
    assert((seq![line] + rest).skip(1) =~= rest);
}

/// Lines are passed over up to the vendor's heading; the device is looked for behind it.
pub proof fn law_vendor_first(
    line: Seq<char>,
    rest: Seq<Seq<char>>,
    vendor: Seq<char>,
    device: Seq<char>,
)
    ensures
        model::vendor_device_name(seq![line] + rest, vendor, device) == (if model::is_heading(line)
            && model::heads(line, vendor) {
            model::device_name(rest, device)
        } else {
            model::vendor_device_name(rest, vendor, device)
        }),
        model::vendor_device_name(Seq::empty(), vendor, device) is None,
{
    assert((seq![line] + rest).skip(1) =~= rest);
}

proof fn lemma_to_device(block: Seq<Seq<char>>, rest: Seq<Seq<char>>, device: Seq<char>)
    requires
        forall|i: int|
            0 <= i < block.len() ==> !model::is_heading(#[trigger] block[i])
                && model::device_name_on(block[i], device) is None,
    ensures
        model::device_name(block + rest, device) == model::device_name(rest, device),
    decreases block.len(),
{
    if block.len() == 0 {
        assert(block + rest =~= rest);
    } else {
        let tail = block.skip(1);
        assert forall|i: int| 0 <= i < tail.len() implies !model::is_heading(#[trigger] tail[i])
            && model::device_name_on(tail[i], device) is None by {
            assert(tail[i] == block[i + 1]);
        }
        lemma_to_device(tail, rest, device);
        assert(!model::is_heading(block[0]));
        assert((block + rest)[0] == block[0]);
        assert((block + rest).skip(1) =~= tail + rest);
    }
}

/// A name that `pci.ids` has is found: behind lines that are no heading of the vendor
/// stands one, and behind it, with no heading between, the first line for the device.
pub proof fn law_device_found(
    before: Seq<Seq<char>>,
    heading: Seq<char>,
    block: Seq<Seq<char>>,
    line: Seq<char>,
    after: Seq<Seq<char>>,
    vendor: Seq<char>,
    device: Seq<char>,
)
    requires
        forall|i: int|
            0 <= i < before.len() ==> !(model::is_heading(#[trigger] before[i]) && model::heads(
                before[i],
                vendor,
            )),
        model::is_heading(heading) && model::heads(heading, vendor),
        forall|i: int|
            0 <= i < block.len() ==> !model::is_heading(#[trigger] block[i])
                && model::device_name_on(block[i], device) is None,
        !model::is_heading(line),
        model::device_name_on(line, device) is Some,
    ensures
        model::vendor_device_name(
            before + (seq![heading] + (block + (seq![line] + after))),
            vendor,
            device,
        ) == model::device_name_on(line, device),
    decreases before.len(),
{
    let tail = seq![heading] + (block + (seq![line] + after));
    if before.len() == 0 {
        assert(before + tail =~= tail);
        law_vendor_first(heading, block + (seq![line] + after), vendor, device);
        lemma_to_device(block, seq![line] + after, device);
        law_under_vendor(line, after, device);
    } else {
        let rest = before.skip(1);
        assert forall|i: int| 0 <= i < rest.len() implies !(model::is_heading(#[trigger] rest[i])
            && model::heads(rest[i], vendor)) by {
            assert(rest[i] == before[i + 1]);
        }
        law_device_found(rest, heading, block, line, after, vendor, device);
        assert(!(model::is_heading(before[0]) && model::heads(before[0], vendor)));
        assert(before + tail =~= seq![before[0]] + (rest + tail));
        law_vendor_first(before[0], rest + tail, vendor, device);
    }
}

/// Ids are looked for as four lower case hexadecimal digits or more, vendor and device each
/// in its own role.
pub proof fn law_pci_name(content: Seq<char>, vendor: u32, device: u32)
    ensures
        model::pci_name(content, vendor, device) == model::vendor_device_name(
            text::lines_of(content),
            number::hex_text(vendor as nat, 4),
            number::hex_text(device as nat, 4),
        ),
{
}

/// `amdgpu.ids` is asked first, of cards of AMD only, by device and revision; `pci.ids` is
/// asked where it has no name, by vendor and device.
pub proof fn law_lookup(
    device: u32,
    revision: u32,
    vendor: u32,
    amdgpu_ids: Seq<char>,
    pci_ids: Seq<char>,
)
    ensures
        ({
            let ids = Ids { device: Some(device), revision: Some(revision), vendor: Some(vendor) };
            let names = Names { amdgpu_ids: Some(amdgpu_ids), pci_ids: Some(pci_ids) };
            let by_revision = model::amd_name(text::lines_of(amdgpu_ids), device, revision);
            let by_vendor = model::pci_name(pci_ids, vendor, device);
            &&& by_revision is Some ==> model::name_of(ids, names, GpuProvider::Amd) == by_revision
            &&& by_revision is None ==> model::name_of(ids, names, GpuProvider::Amd) == by_vendor
            &&& model::name_of(ids, names, GpuProvider::Nvidia) == by_vendor
            &&& model::name_of(ids, names, GpuProvider::Intel) == by_vendor
        }),
{
}

/// What is missing serves no lookup: without the device's id there is no name, without the
/// revision or `amdgpu.ids` only `pci.ids` is asked, and without the vendor or `pci.ids`
/// only `amdgpu.ids` is.
pub proof fn law_lookup_needs(ids: Ids, names: Names, provider: GpuProvider)
    ensures
        ids.device is None ==> model::name_of(ids, names, provider) is None,
        ids.revision is None || names.amdgpu_ids is None || provider != GpuProvider::Amd
            ==> model::name_of(ids, names, provider) == model::pci_lookup(ids, names),
        ids.vendor is None || names.pci_ids is None ==> model::name_of(ids, names, provider)
            == model::amd_lookup(ids, names, provider),
        ids.device is Some && ids.revision is Some && names.amdgpu_ids is Some && provider
            == GpuProvider::Amd ==> model::amd_lookup(ids, names, provider) == model::amd_name(
            text::lines_of(names.amdgpu_ids->0),
            ids.device->0,
            ids.revision->0,
        ),
        ids.device is Some && ids.vendor is Some && names.pci_ids is Some ==> model::pci_lookup(
            ids,
            names,
        ) == model::pci_name(names.pci_ids->0, ids.vendor->0, ids.device->0),
{
}

/// A name that is not empty is shown; the address is where there is none.
pub proof fn law_resolved(pci_id: Seq<char>, provider: GpuProvider, ids: Ids, names: Names)
    ensures
        match model::name_of(ids, names, provider) {
            Some(name) => {
                &&& name.len() > 0 ==> model::resolved_name(pci_id, provider, ids, names) == name
                &&& name.len() == 0 ==> model::resolved_name(pci_id, provider, ids, names)
                    == pci_id
            },
            None => model::resolved_name(pci_id, provider, ids, names) == pci_id,
        },
{
}

/// Each card has the name that its own files give, and one more card changes the name of no
/// other.
pub proof fn law_one_more_name(cards: Seq<Card>, c: Card, names: Names, other: Seq<char>)
    ensures
        ({
            let all = model::resolved_names(cards.push(c), names);
            let before = model::resolved_names(cards, names);
            &&& all.dom().contains(c.id@)
            &&& all[c.id@] == model::resolved_name(c.id@, c.provider, c.files@, names)
            &&& other != c.id@ ==> all.dom().contains(other) == before.dom().contains(other)
            &&& other != c.id@ ==> all[other] == before[other]
        }),
        !model::resolved_names(Seq::empty(), names).dom().contains(other),
{
    assert(cards.push(c).drop_last() =~= cards);
}

/// Files and databases hold what was read of each.
pub proof fn law_contents(f: PciFiles, d: Databases)
    ensures
        match f.device {
            Some(s) => f@.device == model::hex_file(Some(s@)),
            None => f@.device is None,
        },
        match f.revision {
            Some(s) => f@.revision == model::hex_file(Some(s@)),
            None => f@.revision is None,
        },
        match f.vendor {
            Some(s) => f@.vendor == model::hex_file(Some(s@)),
            None => f@.vendor is None,
        },
        match d.amdgpu_ids {
            Some(s) => d@.amdgpu_ids == Some(s@),
            None => d@.amdgpu_ids is None,
        },
        match d.pci_ids {
            Some(s) => d@.pci_ids == Some(s@),
            None => d@.pci_ids is None,
        },
{
}

} // verus!
