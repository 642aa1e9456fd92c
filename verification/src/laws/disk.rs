//! Laws of mounted volumes.

use crate::disk;
use crate::disk::Mount;
use crate::disk::Subvolume;
use crate::disk::Vol;
use crate::disk::Volume;
use crate::number;
use crate::text;
use crate::util::CommandOutput;
use vstd::prelude::*;

verus! {

/// The words of a line of `/proc/mounts`.
pub open spec fn fields(content: Seq<char>, i: int) -> Seq<Seq<char>> {
    text::words_of(text::lines_of(content)[i])
}

/// Whether a line of `/proc/mounts` mounts something under `/dev/`: it has at least four
/// words, of which the first begins so.
pub open spec fn mounts_device(content: Seq<char>, i: int) -> bool {
    &&& 0 <= i < text::lines_of(content).len()
    &&& fields(content, i).len() >= 4
    &&& "/dev/"@.is_prefix_of(fields(content, i)[0])
}

/// Whether a line of `/proc/mounts` mounts this device.
pub open spec fn mounts_source(content: Seq<char>, i: int, source: Seq<char>) -> bool {
    mounts_device(content, i) && fields(content, i)[0] == source
}

/// The mount of a line is made of its first four words.
pub open spec fn is_mount(w: Seq<Seq<char>>, m: Mount) -> bool {
    &&& m.source == w[0]
    &&& m.mountpoint == disk::unescaped(w[1])
    &&& m.fstype == w[2]
    &&& m.options == w[3]
}

proof fn lemma_mount(line: Seq<char>)
    ensures
        ({
            let w = text::words_of(line);
            match disk::mount_of(line) {
                Some(m) => w.len() >= 4 && "/dev/"@.is_prefix_of(w[0]) && is_mount(w, m),
                None => w.len() < 4 || !"/dev/"@.is_prefix_of(w[0]),
            }
        }),
{
}

/// The line that a mount comes from.
proof fn lemma_line_of(lines: Seq<Seq<char>>, k: int) -> (i: int)
    requires
        0 <= k < disk::mounts_of(lines).len(),
    ensures
        0 <= i < lines.len(),
        disk::mount_of(lines[i]) == Some(disk::mounts_of(lines)[k]),
    decreases lines.len(),
{
    let some = disk::mounts_of(lines.drop_last());
    if k < some.len() {
        lemma_line_of(lines.drop_last(), k)
    } else {
        lines.len() - 1
    }
}

/// The mount that a line gives.
proof fn lemma_mount_from(lines: Seq<Seq<char>>, i: int) -> (k: int)
    requires
        0 <= i < lines.len(),
        disk::mount_of(lines[i]) is Some,
    ensures
        0 <= k < disk::mounts_of(lines).len(),
        disk::mounts_of(lines)[k] == disk::mount_of(lines[i])->0,
    decreases lines.len(),
{
    if i < lines.len() - 1 {
        lemma_mount_from(lines.drop_last(), i)
    } else {
        disk::mounts_of(lines).len() - 1
    }
}

/// Whether some volume is of this device.
pub open spec fn has_volume(vols: Seq<Vol>, source: Seq<char>) -> bool {
    exists|k: int| 0 <= k < vols.len() && (#[trigger] vols[k]).source == source
}

/// Whether some line of `/proc/mounts` mounts this device.
pub open spec fn is_mounted(content: Seq<char>, source: Seq<char>) -> bool {
    exists|i: int| #[trigger] mounts_source(content, i, source)
}

/// Every mount of a device is seen: its device is the source of some volume. And every
/// volume is of a device that some line mounts.
pub proof fn law_every_device_has_a_volume(content: Seq<char>)
    ensures
        forall|i: int| #[trigger]
            mounts_device(content, i) ==> has_volume(
                disk::mounted_volumes(content),
                fields(content, i)[0],
            ),
        forall|k: int|
            0 <= k < disk::mounted_volumes(content).len() ==> is_mounted(
                content,
                (#[trigger] disk::mounted_volumes(content)[k]).source,
            ),
{
    let lines = text::lines_of(content);
    let mounts = disk::mounts_of(lines);
    let vols = disk::mounted_volumes(content);
    disk::law_one_volume_per_device(mounts);
    assert forall|i: int| #[trigger] mounts_device(content, i) implies has_volume(
        vols,
        fields(content, i)[0],
    ) by {
        lemma_mount(lines[i]);
        let m = disk::mount_of(lines[i])->0;
        let j = lemma_mount_from(lines, i);
        disk::law_volume_of_device(mounts, m.source);
        assert(mounts[j].source == m.source);
        assert(disk::volume_from(mounts, m.source) is Some);
    }
    assert forall|k: int| 0 <= k < vols.len() implies is_mounted(
        content,
        (#[trigger] vols[k]).source,
    ) by {
        lemma_volume(content, k);
    }
}

/// Whether a volume shows what the lines of its device say: a mountpoint that one of them
/// names and none shorter in bytes, a filesystem that one of them names, and no space as
/// yet.
pub open spec fn made_of_lines(content: Seq<char>, v: Vol) -> bool {
    &&& v.total == 0 && v.used == 0 && v.avail == 0
    &&& exists|i: int| #[trigger]
        mounts_source(content, i, v.source) && v.mountpoint == disk::unescaped(
            fields(content, i)[1],
        )
    &&& forall|i: int| #[trigger]
        mounts_source(content, i, v.source) ==> vstd::utf8::encode_utf8(v.mountpoint).len()
            <= vstd::utf8::encode_utf8(disk::unescaped(fields(content, i)[1])).len()
    &&& exists|i: int| #[trigger]
        mounts_source(content, i, v.source) && v.fstype == fields(content, i)[2]
}

proof fn lemma_volume(content: Seq<char>, k: int)
    requires
        0 <= k < disk::mounted_volumes(content).len(),
    ensures
        made_of_lines(content, disk::mounted_volumes(content)[k]),
{
    let lines = text::lines_of(content);
    let mounts = disk::mounts_of(lines);
    let v = disk::mounted_volumes(content)[k];
    let source = v.source;
    assert(disk::volume_from(mounts, source) == Some(v)) by {
        disk::law_one_volume_per_device(mounts);
    }
    lemma_no_space(mounts, source);
    disk::law_volume_of_device(mounts, source);
    let j = choose|j: int|
        0 <= j < mounts.len() && (#[trigger] mounts[j]).source == source && mounts[j].mountpoint
            == v.mountpoint;
    let i = lemma_line_of(lines, j);
    lemma_mount(lines[i]);
    assert(mounts_source(content, i, source));
    let g = choose|g: int|
        {
            &&& 0 <= g < mounts.len()
            &&& (#[trigger] mounts[g]).source == source
            &&& mounts[g].fstype == v.fstype
            &&& forall|h: int| 0 <= h < g ==> (#[trigger] mounts[h]).source != source
        };
    let f = lemma_line_of(lines, g);
    lemma_mount(lines[f]);
    assert(mounts_source(content, f, source));
    assert forall|i: int| #[trigger] mounts_source(content, i, source) implies
        vstd::utf8::encode_utf8(v.mountpoint).len() <= vstd::utf8::encode_utf8(
        disk::unescaped(fields(content, i)[1]),
    ).len() by {
        lemma_mount(lines[i]);
        let j = lemma_mount_from(lines, i);
        assert(mounts[j].source == source);
        assert(disk::byte_len(v.mountpoint) <= disk::byte_len(mounts[j].mountpoint));
    }
}

/// No device has two volumes. A volume shows a mountpoint of its device, none of which is
/// shorter in bytes; a filesystem that one of its lines names; and no space as yet.
pub proof fn law_volume_from_lines(content: Seq<char>)
    ensures
        forall|a: int, b: int|
            0 <= a < b < disk::mounted_volumes(content).len() ==> (
            #[trigger] disk::mounted_volumes(content)[a]).source != (
            #[trigger] disk::mounted_volumes(content)[b]).source,
        forall|k: int|
            0 <= k < disk::mounted_volumes(content).len() ==> made_of_lines(
                content,
                #[trigger] disk::mounted_volumes(content)[k],
            ),
{
    let vols = disk::mounted_volumes(content);
    disk::law_one_volume_per_device(disk::mounts_of(text::lines_of(content)));
    assert forall|k: int| 0 <= k < vols.len() implies made_of_lines(content, #[trigger] vols[k]) by {
        lemma_volume(content, k);
    }
}

/// What lines mount is what the first of them mount and then what the others mount.
pub proof fn law_mounts_follow(a: Seq<Seq<char>>, b: Seq<Seq<char>>)
    ensures
        disk::mounts_of(a + b) == disk::mounts_of(a) + disk::mounts_of(b),
    decreases b.len(),
{
    if b.len() == 0 {
        assert(a + b =~= a);
        assert(disk::mounts_of(a) + disk::mounts_of(b) =~= disk::mounts_of(a));
    } else {
        law_mounts_follow(a, b.drop_last());
        assert((a + b).drop_last() =~= a + b.drop_last());
        assert(disk::mounts_of(a + b) =~= disk::mounts_of(a) + disk::mounts_of(b));
    }
}

/// A line gives one mount if it has at least four words of which the first begins with
/// `/dev/`, made of its first four words, and otherwise none.
pub proof fn law_mount_of_line(line: Seq<char>)
    ensures
        ({
            let w = text::words_of(line);
            let mounts = disk::mounts_of(seq![line]);
            if w.len() >= 4 && "/dev/"@.is_prefix_of(w[0]) {
                mounts.len() == 1 && is_mount(w, mounts[0])
            } else {
                mounts.len() == 0
            }
        }),
{
    assert(seq![line].drop_last() =~= Seq::<Seq<char>>::empty());
    reveal_with_fuel(disk::mounts_of, 2);
}

proof fn lemma_no_space(mounts: Seq<Mount>, source: Seq<char>)
    ensures
        disk::volume_from(mounts, source) matches Some(v) ==> v.total == 0 && v.used == 0 && v.avail
            == 0,
    decreases mounts.len(),
{
    if mounts.len() > 0 {
        lemma_no_space(mounts.drop_last(), source);
    }
}

/// The filesystem of a device is that of its first line, and more lines behind change
/// neither the order of the volumes nor their filesystems.
pub proof fn law_first_line_decides(a: Seq<Mount>, m: Mount)
    ensures
        ({
            let before = disk::volumes_of(a);
            let after = disk::volumes_of(a.push(m));
            &&& before.len() <= after.len() <= before.len() + 1
            &&& forall|i: int|
                0 <= i < before.len() ==> (#[trigger] after[i]).source == before[i].source
                    && after[i].fstype == before[i].fstype
            &&& after.len() > before.len() ==> after[before.len() as int].source == m.source
                && after[before.len() as int].fstype == m.fstype
        }),
        disk::volumes_of(Seq::empty()).len() == 0,
{
    assert(a.push(m).drop_last() =~= a);
    disk::law_one_volume_per_device(a);
    disk::law_one_volume_per_device(a.push(m));
    let before = disk::volumes_of(a);
    lemma_place(before, m.source);
}

proof fn lemma_place(volumes: Seq<Vol>, source: Seq<char>)
    ensures
        0 <= disk::place_of(volumes, source) <= volumes.len(),
    decreases volumes.len(),
{
    if volumes.len() > 0 && volumes[0].source != source {
        lemma_place(volumes.skip(1), source);
    }
}

/// The subvolumes that a list of mounts names for a device: one for each btrfs mount of it
/// whose options name one, in order.
pub proof fn law_subvolumes(a: Seq<Mount>, m: Mount, source: Seq<char>)
    ensures
        disk::subvolumes_from(Seq::empty(), source).len() == 0,
        m.source != source || m.fstype != "btrfs"@ || disk::subvolume_of(
            m.options,
            m.mountpoint,
        ) is None ==> disk::subvolumes_from(a.push(m), source) == disk::subvolumes_from(a, source),
        m.source == source && m.fstype == "btrfs"@ ==> (disk::subvolume_of(
            m.options,
            m.mountpoint,
        ) matches Some(sub) ==> disk::subvolumes_from(a.push(m), source) == disk::subvolumes_from(
            a,
            source,
        ).push(sub)),
{
    assert(a.push(m).drop_last() =~= a);
}

/// Options name a subvolume if and only if they hold an id that is a number and a path: the
/// last `subvolid=` and the last `subvol=` among what the commas part.
pub proof fn law_subvolume_of_options(options: Seq<char>, mountpoint: Seq<char>)
    ensures
        ({
            let all = text::split_of(options, ',');
            let id = text::last_after(all, "subvolid="@);
            let path = text::last_after(all, "subvol="@);
            match disk::subvolume_of(options, mountpoint) {
                Some(s) => id is Some && number::u64_of(id->0) == Some(s.id) && path == Some(s.path)
                    && s.mountpoint == mountpoint,
                None => id is None || path is None || number::u64_of(id->0) is None,
            }
        }),
{
}

/// A backslash and three octal digits of a value below 256 stand for the character of that
/// value; any other character stands for itself, and so does any other backslash.
pub proof fn law_escapes(a: int, b: int, c: int, rest: Seq<char>, x: char)
    requires
        0 <= a < 4,
        0 <= b < 8,
        0 <= c < 8,
    ensures
        disk::unescaped(
            seq![
                '\\',
                ('0' as int + a) as char,
                ('0' as int + b) as char,
                ('0' as int + c) as char,
            ] + rest,
        ) == seq![(64 * a + 8 * b + c) as char] + disk::unescaped(rest),
        x != '\\' ==> disk::unescaped(seq![x] + rest) == seq![x] + disk::unescaped(rest),
        rest.len() < 3 || !(('0' <= rest[0] <= '3') && ('0' <= rest[1] <= '7') && ('0' <= rest[2]
            <= '7')) ==> disk::unescaped(seq!['\\'] + rest) == seq!['\\'] + disk::unescaped(rest),
        disk::unescaped(Seq::empty()) == Seq::<char>::empty(),
{
    let s = seq![
        '\\',
        ('0' as int + a) as char,
        ('0' as int + b) as char,
        ('0' as int + c) as char,
    ] + rest;
    assert(s.skip(4) =~= rest);
    assert((seq![x] + rest).skip(1) =~= rest);
    let t = seq!['\\'] + rest;
    assert(t.skip(1) =~= rest);
    if rest.len() >= 3 {
        assert(t[1] == rest[0] && t[2] == rest[1] && t[3] == rest[2]);
    }
}

/// `df` prints a heading and the size, the used and the available bytes, in that order.
pub proof fn law_space_printed(output: Seq<char>, total: u64, used: u64, avail: u64)
    ensures
        ({
            let lines = text::lines_of(output);
            let w = text::words_of(lines[1]);
            let good = lines.len() >= 2 && w.len() >= 3;
            &&& good && number::u64_of(w[0]) == Some(total) && number::u64_of(w[1]) == Some(used)
                && number::u64_of(w[2]) == Some(avail) ==> disk::space_of(output) == Some(
                (total, used, avail),
            )
            &&& disk::space_of(output) is Some ==> good && number::u64_of(w[0]) is Some
                && number::u64_of(w[1]) is Some && number::u64_of(w[2]) is Some
        }),
{
}

/// Only a run of `df` that succeeded reports space.
pub proof fn law_space_needs_success(o: CommandOutput)
    ensures
        disk::space_reported(None) is None,
        !o.success ==> disk::space_reported(Some(o)) is None,
        o.success ==> disk::space_reported(Some(o)) == disk::space_of(text::lossy(o.stdout@)),
{
}

/// The space of a volume is what is reported for it, and nothing else of it changes.
pub proof fn law_space_filled_in(
    vols: Seq<Vol>,
    spaces: Seq<Option<(u64, u64, u64)>>,
    k: int,
)
    requires
        spaces.len() == vols.len(),
        0 <= k < vols.len(),
    ensures
        disk::with_spaces(vols, spaces).len() == vols.len(),
        ({
            let v = disk::with_spaces(vols, spaces)[k];
            &&& v.source == vols[k].source && v.fstype == vols[k].fstype && v.mountpoint
                == vols[k].mountpoint && v.subvolumes == vols[k].subvolumes
            &&& spaces[k] matches Some(s) ==> v.total == s.0 && v.used == s.1 && v.avail == s.2
            &&& spaces[k] is None ==> v == vols[k]
        }),
{
}

/// What could not be read of `/proc/mounts` counts as nothing mounted; each run of `df` is
/// for the volume in its place.
pub proof fn law_inputs(content: Seq<char>, outputs: Seq<Option<CommandOutput>>)
    ensures
        disk::mounts_text(Some(content)) == content,
        disk::mounts_text(None).len() == 0,
        disk::mounted_volumes(disk::mounts_text(None)).len() == 0,
        disk::all_reported(outputs).len() == outputs.len(),
        forall|i: int|
            0 <= i < outputs.len() ==> #[trigger] disk::all_reported(outputs)[i]
                == disk::space_reported(outputs[i]),
{
    assert(text::lines_of(Seq::<char>::empty()).len() == 0);
    assert(disk::mounts_of(text::lines_of(Seq::<char>::empty())).len() == 0);
}

/// Volumes and lists of them hold what they are made of.
pub proof fn law_contents(v: Volume, s: Subvolume, vs: Seq<Volume>, ss: Seq<Subvolume>)
    ensures
        v@.source == v.source@ && v@.fstype == v.fstype@ && v@.mountpoint == v.mountpoint@
            && v@.total == v.total_bytes && v@.used == v.used_bytes && v@.avail == v.avail_bytes
            && v@.subvolumes == disk::subs(v.subvolumes@),
        s@.id == s.id && s@.path == s.path@ && s@.mountpoint == s.mountpoint@,
        disk::vols(vs).len() == vs.len(),
        forall|i: int| 0 <= i < vs.len() ==> #[trigger] disk::vols(vs)[i] == vs[i]@,
        disk::subs(ss).len() == ss.len(),
        forall|i: int| 0 <= i < ss.len() ==> #[trigger] disk::subs(ss)[i] == ss[i]@,
{
}

} // verus!
