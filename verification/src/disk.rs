//! Mounted volumes and their space.

use crate::number;
use crate::text;
use crate::util::CommandOutput;
use vstd::prelude::*;

verus! {

/// A snapshot of the mounted volumes.
///
/// Subvolumes of btrfs that share a device get no numbers of their own: space is reported
/// once per device. Only subvolumes that are mounted somewhere show up, as their mount
/// options name them.
#[derive(Debug)]
pub struct DiskState {
    pub volumes: Vec<Volume>,
}

#[derive(Debug)]
pub struct Volume {
    /// The block device, such as `/dev/mapper/root`. Several mountpoints of one device
    /// make one volume.
    pub source: String,
    pub fstype: String,
    /// The shortest mountpoint of the device, for display and for `df`.
    pub mountpoint: String,
    pub total_bytes: u64,
    pub used_bytes: u64,
    pub avail_bytes: u64,
    /// The subvolumes that the device's mounts name. Empty for volumes other than btrfs.
    pub subvolumes: Vec<Subvolume>,
}

#[derive(Debug)]
pub struct Subvolume {
    pub id: u64,
    /// The path within the filesystem, such as `/@home`.
    pub path: String,
    pub mountpoint: String,
}

/// The content of a volume.
#[verifier::ext_equal]
pub struct Vol {
    pub source: Seq<char>,
    pub fstype: Seq<char>,
    pub mountpoint: Seq<char>,
    pub total: u64,
    pub used: u64,
    pub avail: u64,
    pub subvolumes: Seq<Sub>,
}

/// The content of a subvolume.
pub struct Sub {
    pub id: u64,
    pub path: Seq<char>,
    pub mountpoint: Seq<char>,
}

impl View for Subvolume {
    type V = Sub;

    open spec fn view(&self) -> Sub {
        Sub { id: self.id, path: self.path@, mountpoint: self.mountpoint@ }
    }
}

pub open spec fn subs(v: Seq<Subvolume>) -> Seq<Sub> {
    v.map_values(|s: Subvolume| s@)
}

impl View for Volume {
    type V = Vol;

    open spec fn view(&self) -> Vol {
        Vol {
            source: self.source@,
            fstype: self.fstype@,
            mountpoint: self.mountpoint@,
            total: self.total_bytes,
            used: self.used_bytes,
            avail: self.avail_bytes,
            subvolumes: subs(self.subvolumes@),
        }
    }
}

pub open spec fn vols(v: Seq<Volume>) -> Seq<Vol> {
    v.map_values(|x: Volume| x@)
}

/// The character that three octal digits behind a backslash stand for, of a value of at
/// most 255.
pub open spec fn escape_code(a: char, b: char, c: char) -> Option<char> {
    if '0' <= a <= '3' && '0' <= b <= '7' && '0' <= c <= '7' {
        Some(
            ((a as int - '0' as int) * 64 + (b as int - '0' as int) * 8 + (c as int
                - '0' as int)) as char,
        )
    } else {
        None
    }
}

/// A field of `/proc/mounts` with its octal escapes resolved. Every character outside an
/// escape stays.
pub open spec fn unescaped(field: Seq<char>) -> Seq<char>
    decreases field.len(),
{
    if field.len() == 0 {
        Seq::empty()
    } else if field[0] == '\\' && field.len() > 3 && escape_code(
        field[1],
        field[2],
        field[3],
    ) is Some {
        seq![escape_code(field[1], field[2], field[3])->0] + unescaped(field.skip(4))
    } else {
        seq![field[0]] + unescaped(field.skip(1))
    }
}

fn decode_escape(a: char, b: char, c: char) -> (r: Option<char>)
    ensures
        r == escape_code(a, b, c),
{
    if '0' <= a && a <= '3' && '0' <= b && b <= '7' && '0' <= c && c <= '7' {
        let code = (a as u32 - 0x30) * 64 + (b as u32 - 0x30) * 8 + (c as u32 - 0x30);
        Some(code as u8 as char)
    } else {
        None
    }
}

/// Resolves the octal escapes that `/proc/mounts` writes for space, tab, newline and
/// backslash in paths.
pub fn unescape_mount_field(field: &str) -> (r: String)
    ensures
        r@ == unescaped(field@),
        (forall|i: int| 0 <= i < field@.len() ==> #[trigger] field@[i] != '\\') ==> r@ == field@,
{
    let chars = text::chars_of(field);
    let len = chars.len();
    let mut out = String::new();
    let mut i: usize = 0;
    assert(chars@.skip(0) =~= chars@);
    assert(out@ + unescaped(chars@.skip(0)) =~= unescaped(chars@));
    while i < len
        invariant
            i <= len == chars@.len(),
            len <= usize::MAX,
            out@ + unescaped(chars@.skip(i as int)) == unescaped(chars@),
        decreases len - i,
    {
        let ghost rest = chars@.skip(i as int);
        let ghost before = out@;
        if chars[i] == '\\' && len - i > 3 {
            if let Some(c) = decode_escape(chars[i + 1], chars[i + 2], chars[i + 3]) {
                out.push(c);
                proof {
                    assert(rest.skip(4) =~= chars@.skip(i + 4));
                    assert(out@ + unescaped(rest.skip(4)) =~= before + unescaped(rest));
                }
                i += 4;
                continue;
            }
        }
        out.push(chars[i]);
        proof {
            assert(rest.skip(1) =~= chars@.skip(i + 1));
            assert(out@ + unescaped(rest.skip(1)) =~= before + unescaped(rest));
        }
        i += 1;
    }
    proof {
        assert(chars@.skip(i as int) =~= Seq::<char>::empty());
        assert(out@ =~= unescaped(chars@));
        if forall|i: int| 0 <= i < field@.len() ==> #[trigger] field@[i] != '\\' {
            law_plain_field_untouched(field@);
        }
    }
    out
}

/// The subvolume that the options of a btrfs mount name: they need an id, a number, and a
/// path, the last of each that they give.
pub open spec fn subvolume_of(options: Seq<char>, mountpoint: Seq<char>) -> Option<Sub> {
    let all = text::split_of(options, ',');
    match (text::last_after(all, "subvolid="@), text::last_after(all, "subvol="@)) {
        (Some(id), Some(path)) => match number::u64_of(id) {
            Some(id) => Some(Sub { id, path, mountpoint }),
            None => None,
        },
        _ => None,
    }
}

/// An id as the options give it.
pub open spec fn option_id(options: Seq<Seq<char>>) -> Option<u64> {
    match text::last_after(options, "subvolid="@) {
        Some(id) => number::u64_of(id),
        None => None,
    }
}

fn find_subvolume(options: &[char], mountpoint: &str) -> (r: Option<Subvolume>)
    ensures
        match r {
            Some(sub) => subvolume_of(options@, mountpoint@) == Some(sub@),
            None => subvolume_of(options@, mountpoint@) is None,
        },
{
    let list = text::split(options, ',');
    let ghost all = text::split_of(options@, ',');
    let mut id: Option<u64> = None;
    let mut path: Option<&[char]> = None;
    assert(all.take(0) =~= Seq::<Seq<char>>::empty());
    for i in 0..list.len()
        invariant
            all == text::texts(list@),
            id == option_id(all.take(i as int)),
            text::given(path) == text::last_after(all.take(i as int), "subvol="@),
    {
        let option = list[i];
        proof {
            assert(all.take(i + 1).drop_last() =~= all.take(i as int));
            assert(all.take(i + 1).last() == option@);
            reveal_strlit("subvolid=");
            reveal_strlit("subvol=");
            assert("subvolid="@.is_prefix_of(option@) ==> option@[6] == "subvolid="@[6]);
            assert("subvol="@.is_prefix_of(option@) ==> option@[6] == "subvol="@[6]);
        }
        if let Some(value) = text::strip_prefix(option, "subvolid=") {
            id = number::parse_u64(value);
        } else if let Some(value) = text::strip_prefix(option, "subvol=") {
            path = Some(value);
        }
    }
    assert(all.take(all.len() as int) =~= all);
    match (id, path) {
        (Some(id), Some(path)) => Some(
            Subvolume { id, path: text::string_of(path), mountpoint: text::owned(mountpoint) },
        ),
        _ => None,
    }
}

/// Reads `subvolid=` and `subvol=` out of the options of a btrfs mount.
pub fn parse_btrfs_subvol(options: &str, mountpoint: &str) -> (r: Option<Subvolume>)
    ensures
        match r {
            Some(sub) => subvolume_of(options@, mountpoint@) == Some(sub@),
            None => subvolume_of(options@, mountpoint@) is None,
        },
{
    let chars = text::chars_of(options);
    find_subvolume(chars.as_slice(), mountpoint)
}

/// A mount of a block device.
pub struct Mount {
    pub source: Seq<char>,
    pub mountpoint: Seq<char>,
    pub fstype: Seq<char>,
    pub options: Seq<char>,
}

/// Whether a line of `/proc/mounts` is a mount of something under `/dev/`.
pub open spec fn of_device(line: Seq<char>) -> bool {
    let w = text::words_of(line);
    w.len() >= 4 && "/dev/"@.is_prefix_of(w[0])
}

/// The mount that a line of `/proc/mounts` describes.
pub open spec fn mount_of(line: Seq<char>) -> Option<Mount> {
    let w = text::words_of(line);
    if of_device(line) {
        Some(
            Mount {
                source: w[0],
                mountpoint: unescaped(w[1]),
                fstype: w[2],
                options: w[3],
            },
        )
    } else {
        None
    }
}

/// The mounts that lines of `/proc/mounts` describe.
pub open spec fn mounts_of(lines: Seq<Seq<char>>) -> Seq<Mount>
    decreases lines.len(),
{
    if lines.len() == 0 {
        Seq::empty()
    } else {
        let rest = mounts_of(lines.drop_last());
        match mount_of(lines.last()) {
            Some(m) => rest.push(m),
            None => rest,
        }
    }
}

/// The place of a device among the volumes, or their number.
pub open spec fn place_of(volumes: Seq<Vol>, source: Seq<char>) -> int
    decreases volumes.len(),
{
    if volumes.len() == 0 || volumes[0].source == source {
        0
    } else {
        1 + place_of(volumes.skip(1), source)
    }
}

/// A volume of which nothing is known but its first mount.
pub open spec fn fresh_volume(m: Mount) -> Vol {
    Vol {
        source: m.source,
        fstype: m.fstype,
        mountpoint: m.mountpoint,
        total: 0,
        used: 0,
        avail: 0,
        subvolumes: Seq::empty(),
    }
}

/// The length of a text in bytes.
pub open spec fn byte_len(s: Seq<char>) -> int {
    vstd::utf8::encode_utf8(s).len() as int
}

/// A volume after one of its mounts has been seen.
pub open spec fn with_mount(v: Vol, m: Mount) -> Vol {
    Vol {
        mountpoint: if byte_len(m.mountpoint) < byte_len(v.mountpoint) {
            m.mountpoint
        } else {
            v.mountpoint
        },
        subvolumes: match subvolume_of(m.options, m.mountpoint) {
            Some(sub) if v.fstype == "btrfs"@ && m.fstype == "btrfs"@ => v.subvolumes.push(sub),
            _ => v.subvolumes,
        },
        ..v
    }
}

/// The volumes after one more mount has been seen.
pub open spec fn add_mount(volumes: Seq<Vol>, m: Mount) -> Seq<Vol> {
    let i = place_of(volumes, m.source);
    if i < volumes.len() {
        volumes.update(i, with_mount(volumes[i], m))
    } else {
        volumes.push(with_mount(fresh_volume(m), m))
    }
}

/// The volumes that mounts make: one for each device, in the order in which the devices
/// come up.
pub open spec fn volumes_of(mounts: Seq<Mount>) -> Seq<Vol>
    decreases mounts.len(),
{
    if mounts.len() == 0 {
        Seq::empty()
    } else {
        add_mount(volumes_of(mounts.drop_last()), mounts.last())
    }
}

/// The volumes that `/proc/mounts` describes.
pub open spec fn mounted_volumes(content: Seq<char>) -> Seq<Vol> {
    volumes_of(mounts_of(text::lines_of(content)))
}

fn device_fields<'a>(line: &'a [char]) -> (r: Option<Vec<&'a [char]>>)
    ensures
        match r {
            Some(w) => of_device(line@) && text::texts(w@) == text::words_of(line@) && w@.len()
                >= 4,
            None => !of_device(line@),
        },
{
    let w = text::words(line);
    assert(text::texts(w@).len() == w@.len());
    if w.len() < 4 {
        return None;
    }
    assert(text::texts(w@)[0] == w@[0]@);
    if text::starts_with(w[0], "/dev/") {
        Some(w)
    } else {
        None
    }
}

fn place(volumes: &Vec<Volume>, source: &[char]) -> (r: usize)
    ensures
        r <= volumes@.len(),
        r == place_of(vols(volumes@), source@),
{
    let ghost all = vols(volumes@);
    assert(all.skip(0) =~= all);
    let mut i: usize = 0;
    while i < volumes.len()
        invariant
            i <= volumes@.len(),
            all == vols(volumes@),
            place_of(all, source@) == i + place_of(all.skip(i as int), source@),
        decreases volumes@.len() - i,
    {
        assert(all[i as int] == volumes@[i as int]@);
        if text::is_text(source, volumes[i].source.as_str()) {
            return i;
        }
        assert(all.skip(i as int).skip(1) =~= all.skip(i + 1));
        i += 1;
    }
    i
}

fn see_mount(v: &mut Volume, mountpoint: &str, fstype: &[char], options: &[char])
    ensures
        final(v)@ == with_mount(
            old(v)@,
            (Mount {
                source: old(v)@.source,
                mountpoint: mountpoint@,
                fstype: fstype@,
                options: options@,
            }),
        ),
{
    let ghost before = v@;
    if mountpoint.as_bytes().len() < v.mountpoint.as_str().as_bytes().len() {
        v.mountpoint = text::owned(mountpoint);
    }
    if text::same_text(v.fstype.as_str(), "btrfs") && text::is_text(fstype, "btrfs") {
        if let Some(sub) = find_subvolume(options, mountpoint) {
            v.subvolumes.push(sub);
            assert(subs(v.subvolumes@) =~= before.subvolumes.push(sub@));
        }
    }
}

/// Reads the volumes in `/proc/mounts`: one for each block device. What is mounted from
/// elsewhere (tmpfs, proc, overlays) is left out.
pub fn parse_mounts(content: &str) -> (r: Vec<Volume>)
    ensures
        vols(r@) == mounted_volumes(content@),
{
    let chars = text::chars_of(content);
    let lines = text::lines(chars.as_slice());
    let ghost all = text::lines_of(content@);
    let mut volumes: Vec<Volume> = Vec::new();
    proof {
        assert(all.take(0) =~= Seq::<Seq<char>>::empty());
        assert(vols(volumes@) =~= Seq::<Vol>::empty());
    }
    for i in 0..lines.len()
        invariant
            all == text::texts(lines@),
            vols(volumes@) == volumes_of(mounts_of(all.take(i as int))),
    {
        let ghost before = vols(volumes@);
        proof {
            assert(all.take(i + 1).drop_last() =~= all.take(i as int));
            assert(all.take(i + 1).last() == lines@[i as int]@);
            assert(all[i as int] == lines@[i as int]@);
        }
        if let Some(w) = device_fields(lines[i]) {
            let ghost words = text::texts(w@);
            let ghost m = mount_of(lines@[i as int]@)->0;
            proof {
                assert(words[0] == w@[0]@ && words[1] == w@[1]@ && words[2] == w@[2]@ && words[3]
                    == w@[3]@);
                assert(mounts_of(all.take(i + 1)).drop_last() =~= mounts_of(all.take(i as int)));
                assert(mounts_of(all.take(i + 1)).last() == m);
            }
            let field = text::string_of(w[1]);
            let mountpoint = unescape_mount_field(field.as_str());
            let k = place(&volumes, w[0]);
            if k == volumes.len() {
                let mut v = Volume {
                    source: text::string_of(w[0]),
                    fstype: text::string_of(w[2]),
                    mountpoint: text::owned(mountpoint.as_str()),
                    total_bytes: 0,
                    used_bytes: 0,
                    avail_bytes: 0,
                    subvolumes: Vec::new(),
                };
                assert(subs(v.subvolumes@) =~= Seq::<Sub>::empty());
                assert(v@ == fresh_volume(m));
                see_mount(&mut v, mountpoint.as_str(), w[2], w[3]);
                volumes.push(v);
                assert(vols(volumes@) =~= before.push(with_mount(fresh_volume(m), m)));
            } else {
                assert(before[k as int] == volumes@[k as int]@);
                see_mount(&mut volumes[k], mountpoint.as_str(), w[2], w[3]);
                assert(vols(volumes@) =~= before.update(
                    k as int,
                    with_mount(before[k as int], m),
                ));
            }
        }
    }
    assert(all.take(all.len() as int) =~= all);
    volumes
}

/// The space that `df -B1 --output=size,used,avail` prints: the first three numbers of the
/// second line.
pub open spec fn space_of(output: Seq<char>) -> Option<(u64, u64, u64)> {
    let lines = text::lines_of(output);
    if lines.len() < 2 {
        None
    } else {
        let w = text::words_of(lines[1]);
        if w.len() < 3 {
            None
        } else {
            match (number::u64_of(w[0]), number::u64_of(w[1]), number::u64_of(w[2])) {
                (Some(total), Some(used), Some(avail)) => Some((total, used, avail)),
                _ => None,
            }
        }
    }
}

/// Reads the space that `df` printed: total, used and available bytes.
pub fn parse_df(output: &str) -> (r: Option<(u64, u64, u64)>)
    ensures
        r == space_of(output@),
{
    let chars = text::chars_of(output);
    let lines = text::lines(chars.as_slice());
    assert(text::texts(lines@).len() == lines@.len());
    if lines.len() < 2 {
        return None;
    }
    assert(text::texts(lines@)[1] == lines@[1]@);
    let w = text::words(lines[1]);
    let ghost words = text::texts(w@);
    assert(words.len() == w@.len());
    if w.len() < 3 {
        return None;
    }
    assert(words[0] == w@[0]@ && words[1] == w@[1]@ && words[2] == w@[2]@);
    match (number::parse_u64(w[0]), number::parse_u64(w[1]), number::parse_u64(w[2])) {
        (Some(total), Some(used), Some(avail)) => Some((total, used, avail)),
        _ => None,
    }
}

/// The space that a run of `df` reports; none when it did not start or failed.
pub open spec fn space_reported(output: Option<CommandOutput>) -> Option<(u64, u64, u64)> {
    match output {
        Some(o) if o.success => space_of(text::lossy(o.stdout@)),
        _ => None,
    }
}

/// The total, used and available bytes that a run of `df` reports.
pub fn df_bytes(output: &Option<CommandOutput>) -> (r: Option<(u64, u64, u64)>)
    ensures
        r == space_reported(*output),
{
    match output {
        Some(o) => {
            if !o.success {
                return None;
            }
            let printed = text::from_utf8_lossy(o.stdout.as_slice());
            parse_df(printed.as_str())
        },
        None => None,
    }
}

/// A volume with the space that `df` reports for it, if it does.
pub open spec fn with_space(v: Vol, space: Option<(u64, u64, u64)>) -> Vol {
    match space {
        Some((total, used, avail)) => Vol { total, used, avail, ..v },
        None => v,
    }
}

/// The volumes with the space that is reported for each.
pub open spec fn with_spaces(v: Seq<Vol>, spaces: Seq<Option<(u64, u64, u64)>>) -> Seq<Vol> {
    Seq::new(v.len(), |i: int| with_space(v[i], spaces[i]))
}

/// Fills in the space of each volume where it is known.
pub fn fill_space(volumes: &mut Vec<Volume>, spaces: &Vec<Option<(u64, u64, u64)>>)
    requires
        spaces@.len() == old(volumes)@.len(),
    ensures
        vols(final(volumes)@) == with_spaces(vols(old(volumes)@), spaces@),
{
    let ghost before = vols(volumes@);
    let n = volumes.len();
    for i in 0..n
        invariant
            n == volumes@.len(),
            before.len() == volumes@.len() == spaces@.len(),
            before == vols(old(volumes)@),
            forall|j: int|
                0 <= j < i ==> (#[trigger] volumes@[j])@ == with_space(before[j], spaces@[j]),
            forall|j: int| i <= j < volumes@.len() ==> (#[trigger] volumes@[j])@ == before[j],
    {
        if let Some((total, used, avail)) = spaces[i] {
            let v = &mut volumes[i];
            v.total_bytes = total;
            v.used_bytes = used;
            v.avail_bytes = avail;
        }
    }
    assert(vols(volumes@) =~= with_spaces(before, spaces@));
}

/// The text of `/proc/mounts`, empty when it could not be read.
pub open spec fn mounts_text(content: Option<Seq<char>>) -> Seq<char> {
    match content {
        Some(c) => c,
        None => Seq::empty(),
    }
}

pub open spec fn all_reported(outputs: Seq<Option<CommandOutput>>) -> Seq<Option<(u64, u64, u64)>> {
    outputs.map_values(|o: Option<CommandOutput>| space_reported(o))
}

/// The mounted volumes with their space, given what was read of `/proc/mounts` and what a
/// run of `df` on the mountpoint of each volume left.
pub fn compute(mounts: Option<&str>, outputs: &Vec<Option<CommandOutput>>) -> (r: DiskState)
    requires
        outputs@.len() == mounted_volumes(mounts_text(text::given(mounts))).len(),
    ensures
        vols(r.volumes@) == with_spaces(
            mounted_volumes(mounts_text(text::given(mounts))),
            all_reported(outputs@),
        ),
{
    let content = match mounts {
        Some(c) => c,
        None => "",
    };
    proof {
        reveal_strlit("");
        assert(content@ =~= mounts_text(text::given(mounts)));
    }
    let mut volumes = parse_mounts(content);
    assert(vols(volumes@).len() == volumes@.len());
    let mut spaces: Vec<Option<(u64, u64, u64)>> = Vec::new();
    for i in 0..outputs.len()
        invariant
            spaces@ =~= all_reported(outputs@).take(i as int),
    {
        spaces.push(df_bytes(&outputs[i]));
    }
    assert(spaces@ =~= all_reported(outputs@));
    fill_space(&mut volumes, &spaces);
    DiskState { volumes }
}

/// The volume that a device's own mounts make.
pub open spec fn volume_from(mounts: Seq<Mount>, source: Seq<char>) -> Option<Vol>
    decreases mounts.len(),
{
    if mounts.len() == 0 {
        None
    } else {
        let rest = volume_from(mounts.drop_last(), source);
        let m = mounts.last();
        if m.source != source {
            rest
        } else {
            match rest {
                Some(v) => Some(with_mount(v, m)),
                None => Some(with_mount(fresh_volume(m), m)),
            }
        }
    }
}

/// The subvolumes that a device's btrfs mounts name, in their order.
pub open spec fn subvolumes_from(mounts: Seq<Mount>, source: Seq<char>) -> Seq<Sub>
    decreases mounts.len(),
{
    if mounts.len() == 0 {
        Seq::empty()
    } else {
        let rest = subvolumes_from(mounts.drop_last(), source);
        let m = mounts.last();
        match subvolume_of(m.options, m.mountpoint) {
            Some(sub) if m.source == source && m.fstype == "btrfs"@ => rest.push(sub),
            _ => rest,
        }
    }
}

pub open spec fn distinct_sources(v: Seq<Vol>) -> bool {
    forall|i: int, j: int| 0 <= i < j < v.len() ==> (#[trigger] v[i]).source != (#[trigger] v[j]).source
}

proof fn lemma_place(volumes: Seq<Vol>, source: Seq<char>)
    ensures
        0 <= place_of(volumes, source) <= volumes.len(),
        place_of(volumes, source) < volumes.len() ==> volumes[place_of(volumes, source)].source
            == source,
        forall|i: int|
            0 <= i < place_of(volumes, source) ==> (#[trigger] volumes[i]).source != source,
    decreases volumes.len(),
{
    if volumes.len() > 0 && volumes[0].source != source {
        let rest = volumes.skip(1);
        lemma_place(rest, source);
        assert forall|i: int| 0 < i < volumes.len() implies #[trigger] volumes[i] == rest[i - 1] by {}
    }
}

/// No device has two volumes, each device that is mounted has one, and what its volume
/// says depends on the mounts of that device alone.
pub proof fn law_one_volume_per_device(mounts: Seq<Mount>)
    ensures
        distinct_sources(volumes_of(mounts)),
        forall|i: int|
            0 <= i < volumes_of(mounts).len() ==> volume_from(
                mounts,
                (#[trigger] volumes_of(mounts)[i]).source,
            ) == Some(volumes_of(mounts)[i]),
        forall|source: Seq<char>| #[trigger]
            volume_from(mounts, source) is Some ==> exists|i: int|
                0 <= i < volumes_of(mounts).len() && (#[trigger] volumes_of(mounts)[i]).source
                    == source,
    decreases mounts.len(),
{
    if mounts.len() > 0 {
        let prev = volumes_of(mounts.drop_last());
        let all = volumes_of(mounts);
        let m = mounts.last();
        law_one_volume_per_device(mounts.drop_last());
        lemma_place(prev, m.source);
        let k = place_of(prev, m.source);
        assert forall|i: int| 0 <= i < all.len() implies volume_from(
            mounts,
            (#[trigger] all[i]).source,
        ) == Some(all[i]) by {
            if i < prev.len() {
                assert(volume_from(mounts.drop_last(), prev[i].source) == Some(prev[i]));
                if i != k {
                    assert(all[i] == prev[i]);
                    assert(prev[i].source != m.source);
                } else {
                    assert(all[i] == with_mount(prev[i], m));
                }
            } else {
                assert(all[i] == with_mount(fresh_volume(m), m));
                assert(volume_from(mounts.drop_last(), m.source) is None);
            }
        }
        assert forall|source: Seq<char>| #[trigger]
            volume_from(mounts, source) is Some implies exists|i: int|
            0 <= i < all.len() && (#[trigger] all[i]).source == source by {
            if source == m.source {
                assert(all[k].source == source);
            } else {
                assert(volume_from(mounts.drop_last(), source) is Some);
                let i = choose|i: int| 0 <= i < prev.len() && (#[trigger] prev[i]).source == source;
                assert(all[i].source == source);
            }
        }
        assert forall|i: int, j: int| 0 <= i < j < all.len() implies (#[trigger] all[i]).source
            != (#[trigger] all[j]).source by {
            if j < prev.len() {
                assert(prev[i].source != prev[j].source);
            } else {
                assert(prev[i].source != m.source);
            }
        }
    }
}

/// Of a device, the mountpoint that is shown is one of its mountpoints, and none of them
/// is shorter. Its filesystem is that of its first mount. If that is btrfs, its
/// subvolumes are those that its btrfs mounts name; otherwise it has none.
pub proof fn law_volume_of_device(mounts: Seq<Mount>, source: Seq<char>)
    ensures
        match volume_from(mounts, source) {
            Some(v) => {
                &&& v.source == source
                &&& exists|i: int|
                    0 <= i < mounts.len() && (#[trigger] mounts[i]).source == source
                        && mounts[i].mountpoint == v.mountpoint
                &&& forall|i: int|
                    0 <= i < mounts.len() && (#[trigger] mounts[i]).source == source ==> byte_len(
                        v.mountpoint,
                    ) <= byte_len(mounts[i].mountpoint)
                &&& exists|i: int|
                    {
                        &&& 0 <= i < mounts.len()
                        &&& (#[trigger] mounts[i]).source == source
                        &&& mounts[i].fstype == v.fstype
                        &&& forall|j: int| 0 <= j < i ==> (#[trigger] mounts[j]).source != source
                    }
                &&& v.subvolumes == if v.fstype == "btrfs"@ {
                    subvolumes_from(mounts, source)
                } else {
                    Seq::empty()
                }
            },
            None => {
                &&& forall|i: int|
                    0 <= i < mounts.len() ==> (#[trigger] mounts[i]).source != source
                &&& subvolumes_from(mounts, source) == Seq::<Sub>::empty()
            },
        },
    decreases mounts.len(),
{
    if mounts.len() > 0 {
        let rest = mounts.drop_last();
        let n = mounts.len() - 1;
        law_volume_of_device(rest, source);
        assert forall|i: int| 0 <= i < n implies #[trigger] mounts[i] == rest[i] by {}
        assert(mounts[n] == mounts.last());
        if let Some(v) = volume_from(rest, source) {
            let p = choose|i: int|
                0 <= i < rest.len() && (#[trigger] rest[i]).source == source && rest[i].mountpoint
                    == v.mountpoint;
            let f = choose|i: int|
                {
                    &&& 0 <= i < rest.len()
                    &&& (#[trigger] rest[i]).source == source
                    &&& rest[i].fstype == v.fstype
                    &&& forall|j: int| 0 <= j < i ==> (#[trigger] rest[j]).source != source
                };
            assert(mounts[p] == rest[p]);
            assert(mounts[f] == rest[f]);
        }
    }
}

/// Every volume is of a device: what is mounted from elsewhere is left out.
pub proof fn law_only_devices(lines: Seq<Seq<char>>)
    ensures
        forall|i: int|
            0 <= i < mounts_of(lines).len() ==> "/dev/"@.is_prefix_of(
                (#[trigger] mounts_of(lines)[i]).source,
            ),
        forall|i: int|
            0 <= i < volumes_of(mounts_of(lines)).len() ==> "/dev/"@.is_prefix_of(
                (#[trigger] volumes_of(mounts_of(lines))[i]).source,
            ),
    decreases lines.len(),
{
    let mounts = mounts_of(lines);
    if lines.len() > 0 {
        law_only_devices(lines.drop_last());
        let rest = mounts_of(lines.drop_last());
        assert forall|i: int| 0 <= i < mounts.len() implies "/dev/"@.is_prefix_of(
            (#[trigger] mounts[i]).source,
        ) by {
            if i < rest.len() {
                assert(mounts[i] == rest[i]);
            }
        }
    }
    law_one_volume_per_device(mounts);
    assert forall|i: int| 0 <= i < volumes_of(mounts).len() implies "/dev/"@.is_prefix_of(
        (#[trigger] volumes_of(mounts)[i]).source,
    ) by {
        law_volume_of_device(mounts, volumes_of(mounts)[i].source);
        assert(volume_from(mounts, volumes_of(mounts)[i].source) == Some(volumes_of(mounts)[i]));
    }
}

/// A character of a path as `/proc/mounts` writes it: space, tab, newline and backslash
/// as three octal digits behind a backslash.
pub open spec fn escaped_char(c: char) -> Seq<char> {
    if c == ' ' {
        seq!['\\', '0', '4', '0']
    } else if c == '\t' {
        seq!['\\', '0', '1', '1']
    } else if c == '\n' {
        seq!['\\', '0', '1', '2']
    } else if c == '\\' {
        seq!['\\', '1', '3', '4']
    } else {
        seq![c]
    }
}

/// A path as `/proc/mounts` writes it.
pub open spec fn escaped(path: Seq<char>) -> Seq<char>
    decreases path.len(),
{
    if path.len() == 0 {
        Seq::empty()
    } else {
        escaped_char(path[0]) + escaped(path.skip(1))
    }
}

/// A path that `/proc/mounts` escaped comes out as it was.
pub proof fn law_unescape_gives_back(path: Seq<char>)
    ensures
        unescaped(escaped(path)) == path,
    decreases path.len(),
{
    if path.len() > 0 {
        let c = path[0];
        let rest = path.skip(1);
        let field = escaped(path);
        law_unescape_gives_back(rest);
        if c == ' ' || c == '\t' || c == '\n' || c == '\\' {
            assert(field.skip(4) =~= escaped(rest));
        } else {
            assert(field.skip(1) =~= escaped(rest));
        }
        assert(unescaped(field) =~= seq![c] + rest);
        assert(seq![c] + rest =~= path);
    }
}

/// A field without a backslash is left as it is.
pub proof fn law_plain_field_untouched(field: Seq<char>)
    requires
        forall|i: int| 0 <= i < field.len() ==> #[trigger] field[i] != '\\',
    ensures
        unescaped(field) == field,
    decreases field.len(),
{
    if field.len() > 0 {
        let rest = field.skip(1);
        assert forall|i: int| 0 <= i < rest.len() implies #[trigger] rest[i] != '\\' by {
            assert(rest[i] == field[i + 1]);
        }
        law_plain_field_untouched(rest);
        assert(seq![field[0]] + rest =~= field);
    }
}

} // verus!
