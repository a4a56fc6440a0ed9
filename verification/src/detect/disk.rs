//! Block devices behind the mounted filesystems.
use vstd::prelude::*;
use crate::probe::Probe;
use crate::text::{
    all_ascii_digits, all_digits, chars_of, contains_lit, contains_seq, eq_chars, lex_less,
    lex_lt, last_index_of, lemma_lex_irreflexive, lemma_lex_total,
    lemma_lex_transitive, lines, lines_of, lit_cat, cat, parse_u64, parse_u64_of, parse_u8,
    parse_u8_of, rfind, seqs_of, slice_of, split, split_of, starts_with_lit, string_of,
    strip_all_prefix, trim_end_by, trim_end_of, trim_of, trim_start_matches, words, words_of, CharClass,
    decimal_of, join, join_of, push_chars, push_decimal, push_str,
};
use super::{active_choice, active_choice_of};

verus! {

/// A mounted filesystem and the block device under it.
#[derive(Debug, Clone)]
pub struct DiskInfo {
    pub name: String,
    pub kind: DiskKind,
    pub filesystem: String,
    pub mount_point: String,
    pub scheduler: String,
    pub mount_options: Vec<String>,
    pub size_gb: u64,
}

/// The kind of a block device.
#[derive(Debug, Clone, Copy, PartialEq, Eq, Structural)]
pub enum DiskKind {
    Nvme,
    Ssd,
    Hdd,
    Unknown,
}

/// The mathematical value of a `DiskInfo`.
pub struct DiskInfoView {
    pub name: Seq<char>,
    pub kind: DiskKind,
    pub filesystem: Seq<char>,
    pub mount_point: Seq<char>,
    pub scheduler: Seq<char>,
    pub mount_options: Seq<Seq<char>>,
    pub size_gb: u64,
}

impl DeepView for DiskInfo {
    type V = DiskInfoView;

    open spec fn deep_view(&self) -> DiskInfoView {
        DiskInfoView {
            name: self.name@,
            kind: self.kind,
            filesystem: self.filesystem@,
            mount_point: self.mount_point@,
            scheduler: self.scheduler@,
            mount_options: self.mount_options.deep_view(),
            size_gb: self.size_gb,
        }
    }
}

// ---------------------------------------------------------------------------
// The block device behind a device path
// ---------------------------------------------------------------------------

/// The device path without its `/dev/` and `mapper/` prefixes.
pub open spec fn device_stem_of(device: Seq<char>) -> Seq<char> {
    strip_all_prefix(strip_all_prefix(device, "/dev/"@), "mapper/"@)
}

/// The base device of an NVMe partition (`nvme0n1p1` to `nvme0n1`): the
/// text before the last `p` when only digits follow it.
pub open spec fn nvme_base_of(dev: Seq<char>) -> Option<Seq<char>> {
    if contains_seq(dev, "nvme"@) {
        match last_index_of(dev, 'p') {
            Some(pos) => if all_digits(dev.skip(pos + 1)) {
                Some(dev.take(pos))
            } else {
                None
            },
            None => None,
        }
    } else {
        None
    }
}

/// The block device of a partition: NVMe partitions lose their `pN`
/// suffix, device-mapper devices (`dm-0`) stay as they are, other names lose
/// their trailing digits (`sda1` to `sda`).
pub open spec fn block_device_of(device: Seq<char>) -> Seq<char> {
    let dev = device_stem_of(device);
    match nvme_base_of(dev) {
        Some(b) => b,
        None => if "dm-"@.is_prefix_of(dev) {
            dev
        } else {
            trim_end_of(dev, CharClass::Digits)
        },
    }
}

/// Derives the block device from a device path (`/dev/nvme0n1p2` to
/// `nvme0n1`, `/dev/sda1` to `sda`, `/dev/dm-0` stays `dm-0`).
pub fn extract_block_device(device: &str) -> (r: String)
    ensures
        r@ == block_device_of(device@),
{
    string_of(&block_device(&chars_of(device)))
}

fn block_device(device: &Vec<char>) -> (r: Vec<char>)
    ensures
        r@ == block_device_of(device@),
{
    let dev = trim_start_matches(&trim_start_matches(device, &chars_of("/dev/")), &chars_of("mapper/"));
    if contains_lit(&dev, "nvme") {
        match rfind(&dev, 'p') {
            Some(pos) => {
                let n = dev.len();
                let rest = slice_of(&dev, pos + 1, n);
                assert(rest@ == dev@.skip(pos + 1));
                if all_ascii_digits(&rest) {
                    let base = slice_of(&dev, 0, pos);
                    assert(base@ == dev@.take(pos as int));
                    return base;
                }
            },
            None => {},
        }
    }
    if starts_with_lit(&dev, "dm-") {
        return dev;
    }
    trim_end_by(&dev, CharClass::Digits)
}

/// `/sys/block/<name>/<leaf>`.
pub open spec fn block_path_of(name: Seq<char>, leaf: Seq<char>) -> Seq<char> {
    "/sys/block/"@ + name + leaf
}

fn block_path(name: &Vec<char>, leaf: &str) -> (r: Vec<char>)
    ensures
        r@ == block_path_of(name@, leaf@),
{
    let p = cat(&lit_cat("/sys/block/", name), &chars_of(leaf));
    assert(p@ =~= block_path_of(name@, leaf@));
    p
}

/// NVMe by name; otherwise SSD or HDD as the `rotational` flag reads 0 or 1.
pub open spec fn disk_kind_of(probe: Probe, name: Seq<char>) -> DiskKind {
    if "nvme"@.is_prefix_of(name) {
        DiskKind::Nvme
    } else {
        match probe.file_trimmed(block_path_of(name, "/queue/rotational"@)) {
            Some(s) => match parse_u8_of(s) {
                Some(v) => if v == 0 {
                    DiskKind::Ssd
                } else if v == 1 {
                    DiskKind::Hdd
                } else {
                    DiskKind::Unknown
                },
                None => DiskKind::Unknown,
            },
            None => DiskKind::Unknown,
        }
    }
}

/// The active I/O scheduler of a device, `unknown` when unreadable.
pub open spec fn io_scheduler_of(probe: Probe, name: Seq<char>) -> Seq<char> {
    match probe.file(block_path_of(name, "/queue/scheduler"@)) {
        Some(s) => active_choice_of(s),
        None => "unknown"@,
    }
}

/// The size in GiB from the sector count (512-byte sectors, the product
/// taken modulo 2^64), 0 when unreadable.
pub open spec fn disk_size_of(probe: Probe, name: Seq<char>) -> u64 {
    match probe.file_trimmed(block_path_of(name, "/size"@)) {
        Some(s) => match parse_u64_of(s) {
            Some(sectors) => (sectors.wrapping_mul(512) / 1024 / 1024 / 1024) as u64,
            None => 0,
        },
        None => 0,
    }
}

/// Classifies a device.
pub fn detect_disk_kind(probe: &Probe, name: &Vec<char>) -> (r: DiskKind)
    ensures
        r == disk_kind_of(*probe, name@),
{
    if starts_with_lit(name, "nvme") {
        return DiskKind::Nvme;
    }
    match probe.read_trimmed(&block_path(name, "/queue/rotational")) {
        Some(s) => match parse_u8(&s) {
            Some(v) => if v == 0 {
                DiskKind::Ssd
            } else if v == 1 {
                DiskKind::Hdd
            } else {
                DiskKind::Unknown
            },
            None => DiskKind::Unknown,
        },
        None => DiskKind::Unknown,
    }
}

/// Reads the active I/O scheduler of a device.
pub fn detect_io_scheduler(probe: &Probe, name: &Vec<char>) -> (r: Vec<char>)
    ensures
        r@ == io_scheduler_of(*probe, name@),
{
    match probe.read(&block_path(name, "/queue/scheduler")) {
        Some(s) => active_choice(&s),
        None => chars_of("unknown"),
    }
}

/// Reads the size of a device in GiB.
pub fn detect_disk_size(probe: &Probe, name: &Vec<char>) -> (r: u64)
    ensures
        r == disk_size_of(*probe, name@),
{
    match probe.read_trimmed(&block_path(name, "/size")) {
        Some(s) => match parse_u64(&s) {
            Some(sectors) => sectors.wrapping_mul(512) / 1024 / 1024 / 1024,
            None => 0,
        },
        None => 0,
    }
}

// ---------------------------------------------------------------------------
// Mount table
// ---------------------------------------------------------------------------

/// The disk described by a line of `/proc/mounts`, when the line has four
/// fields and names a real block device (under `/dev/`, not a loop or snap
/// device).
pub open spec fn mount_entry_of(probe: Probe, line: Seq<char>) -> Option<DiskInfoView> {
    let parts = words_of(line);
    if parts.len() < 4 {
        None
    } else if !"/dev/"@.is_prefix_of(parts[0]) {
        None
    } else if contains_seq(parts[0], "loop"@) || contains_seq(parts[0], "snap"@) {
        None
    } else {
        let name = block_device_of(parts[0]);
        Some(
            DiskInfoView {
                name,
                kind: disk_kind_of(probe, name),
                filesystem: parts[2],
                mount_point: parts[1],
                scheduler: io_scheduler_of(probe, name),
                mount_options: split_of(parts[3], ','),
                size_gb: disk_size_of(probe, name),
            },
        )
    }
}

/// A line of `/proc/mounts` gives a disk exactly when it has at least four
/// whitespace-separated fields and its device lies under `/dev/` and names
/// no loop or snap device. The disk is mounted at the second field, holds
/// the filesystem of the third, carries the comma-separated options of the
/// fourth, and is named by the block device of the first. An NVMe device is
/// NVMe; another is an SSD or an HDD as its trimmed `queue/rotational` reads
/// `0` or `1`. Its size is the trimmed `size` sector count times 512 bytes
/// in whole GiB (where the product fits in 64 bits), and its scheduler is
/// `unknown` where `queue/scheduler` is unreadable.
pub proof fn lemma_mount_line_fields(probe: Probe, line: Seq<char>)
    ensures
        mount_entry_of(probe, line) is Some <==> {
            let w = words_of(line);
            &&& w.len() >= 4
            &&& "/dev/"@.is_prefix_of(w[0])
            &&& !contains_seq(w[0], "loop"@)
            &&& !contains_seq(w[0], "snap"@)
        },
        mount_entry_of(probe, line) matches Some(d) ==> {
            let w = words_of(line);
            let sys = "/sys/block/"@ + d.name;
            &&& d.name == block_device_of(w[0])
            &&& d.mount_point == w[1]
            &&& d.filesystem == w[2]
            &&& d.mount_options == split_of(w[3], ',')
            &&& "nvme"@.is_prefix_of(d.name) ==> d.kind == DiskKind::Nvme
            &&& !"nvme"@.is_prefix_of(d.name) ==> (probe.file(sys + "/queue/rotational"@) matches Some(r)
                ==> (parse_u8_of(trim_of(r)) == Some(0u8) ==> d.kind == DiskKind::Ssd))
            &&& !"nvme"@.is_prefix_of(d.name) ==> (probe.file(sys + "/queue/rotational"@) matches Some(r)
                ==> (parse_u8_of(trim_of(r)) == Some(1u8) ==> d.kind == DiskKind::Hdd))
            &&& (!"nvme"@.is_prefix_of(d.name) && probe.file(sys + "/queue/rotational"@) is None)
                ==> d.kind == DiskKind::Unknown
            &&& probe.file(sys + "/size"@) matches Some(z) ==> (parse_u64_of(trim_of(z)) matches Some(n)
                ==> (n * 512 <= u64::MAX ==> d.size_gb == n * 512 / 1073741824))
            &&& probe.file(sys + "/size"@) is None ==> d.size_gb == 0
            &&& probe.file(sys + "/queue/scheduler"@) is None ==> d.scheduler == "unknown"@
        },
{
    if let Some(d) = mount_entry_of(probe, line) {
        let sys = "/sys/block/"@ + d.name;
        assert(block_path_of(d.name, "/queue/rotational"@) == sys + "/queue/rotational"@);
        assert(block_path_of(d.name, "/size"@) == sys + "/size"@);
        assert(block_path_of(d.name, "/queue/scheduler"@) == sys + "/queue/scheduler"@);
        if let Some(z) = probe.file(sys + "/size"@) {
            if let Some(n) = parse_u64_of(trim_of(z)) {
                if n * 512 <= u64::MAX {
                    assert(n.wrapping_mul(512) == n * 512);
                }
            }
        }
    }
}

/// The disks of the mount table lines, in order, before deduplication.
pub open spec fn mount_candidates(probe: Probe, ls: Seq<Seq<char>>) -> Seq<DiskInfoView>
    decreases ls.len(),
{
    if ls.len() == 0 {
        seq![]
    } else {
        let rest = mount_candidates(probe, ls.drop_last());
        match mount_entry_of(probe, ls.last()) {
            Some(d) => rest.push(d),
            None => rest,
        }
    }
}

/// The strings of `v`.
fn strings_of(v: Vec<Vec<char>>) -> (r: Vec<String>)
    ensures
        r.deep_view() == seqs_of(v@),
{
    let mut r: Vec<String> = Vec::new();
    let mut i: usize = 0;
    while i < v.len()
        invariant
            i <= v@.len(),
            r.deep_view() == seqs_of(v@).take(i as int),
        decreases v@.len() - i,
    {
        let s = string_of(&v[i]);
        proof {
            assert(r.deep_view().push(s@) =~= seqs_of(v@).take(i + 1));
        }
        r.push(s);
        proof {
            assert(r.deep_view() =~= seqs_of(v@).take(i + 1));
        }
        i += 1;
    }
    proof {
        assert(seqs_of(v@).take(v@.len() as int) =~= seqs_of(v@));
    }
    r
}

/// Reads a line of the mount table.
pub fn mount_entry(probe: &Probe, line: &Vec<char>) -> (r: Option<DiskInfo>)
    ensures
        r.deep_view() == mount_entry_of(*probe, line@),
{
    let parts = words(line);
    if parts.len() < 4 {
        return None;
    }
    let ghost ps = seqs_of(parts@);
    assert(ps[0] == parts@[0]@ && ps[1] == parts@[1]@ && ps[2] == parts@[2]@ && ps[3]
        == parts@[3]@);
    if !starts_with_lit(&parts[0], "/dev/") {
        return None;
    }
    if contains_lit(&parts[0], "loop") || contains_lit(&parts[0], "snap") {
        return None;
    }
    let name = block_device(&parts[0]);
    let kind = detect_disk_kind(probe, &name);
    let scheduler = detect_io_scheduler(probe, &name);
    let size_gb = detect_disk_size(probe, &name);
    let options = strings_of(split(&parts[3], ','));
    Some(
        DiskInfo {
            name: string_of(&name),
            kind,
            filesystem: string_of(&parts[2]),
            mount_point: string_of(&parts[1]),
            scheduler: string_of(&scheduler),
            mount_options: options,
            size_gb,
        },
    )
}

// ---------------------------------------------------------------------------
// Deduplication by mount point
// ---------------------------------------------------------------------------

/// The number of leading entries of `r` whose mount point is below `m`:
/// where an entry with mount point `m` belongs in a sorted `r`.
pub open spec fn insert_pos(r: Seq<DiskInfoView>, m: Seq<char>) -> int
    decreases r.len(),
{
    if r.len() == 0 {
        0
    } else if lex_lt(r[0].mount_point, m) {
        1 + insert_pos(r.drop_first(), m)
    } else {
        0
    }
}

/// `r` with `d` added in mount-point order, unless its mount point is
/// already there.
pub open spec fn insert_unique(r: Seq<DiskInfoView>, d: DiskInfoView) -> Seq<DiskInfoView> {
    let p = insert_pos(r, d.mount_point);
    if p < r.len() && r[p].mount_point == d.mount_point {
        r
    } else {
        r.insert(p, d)
    }
}

/// The entries of `c` sorted by mount point, keeping the first entry of
/// each mount point (a stable sort followed by removal of later duplicates).
pub open spec fn dedup_sorted(c: Seq<DiskInfoView>) -> Seq<DiskInfoView>
    decreases c.len(),
{
    if c.len() == 0 {
        seq![]
    } else {
        insert_unique(dedup_sorted(c.drop_last()), c.last())
    }
}

/// The disks of the host: the mount table's real block devices, sorted by
/// mount point, one per mount point (the first listed); `None` when
/// `/proc/mounts` is unreadable.
pub open spec fn disks_of(probe: Probe) -> Option<Seq<DiskInfoView>> {
    match probe.file("/proc/mounts"@) {
        Some(m) => Some(dedup_sorted(mount_candidates(probe, lines_of(m)))),
        None => None,
    }
}

/// The first entry of `c` with mount point `m`.
pub open spec fn first_mount_entry(c: Seq<DiskInfoView>, m: Seq<char>) -> Option<DiskInfoView>
    decreases c.len(),
{
    if c.len() == 0 {
        None
    } else if c[0].mount_point == m {
        Some(c[0])
    } else {
        first_mount_entry(c.drop_first(), m)
    }
}

/// Mount points strictly ascending.
pub open spec fn sorted_by_mount(r: Seq<DiskInfoView>) -> bool {
    forall|i: int, j: int|
        0 <= i < j < r.len() ==> lex_lt(#[trigger] r[i].mount_point, #[trigger] r[j].mount_point)
}

proof fn lemma_first_push(c: Seq<DiskInfoView>, d: DiskInfoView, m: Seq<char>)
    ensures
        first_mount_entry(c.push(d), m) == (if first_mount_entry(c, m) is Some {
            first_mount_entry(c, m)
        } else if d.mount_point == m {
            Some(d)
        } else {
            None
        }),
    decreases c.len(),
{
    if c.len() > 0 {
        assert(c.push(d).drop_first() =~= c.drop_first().push(d));
        assert(c.push(d)[0] == c[0]);
        lemma_first_push(c.drop_first(), d, m);
    } else {
        assert(c.push(d).drop_first() =~= Seq::<DiskInfoView>::empty());
        assert(c.push(d)[0] == d);
        assert(first_mount_entry(Seq::<DiskInfoView>::empty(), m) is None);
        assert(first_mount_entry(c, m) is None);
    }
}

proof fn lemma_first_found(c: Seq<DiskInfoView>, m: Seq<char>)
    ensures
        first_mount_entry(c, m) matches Some(e) ==> exists|k: int|
            0 <= k < c.len() && #[trigger] c[k] == e && e.mount_point == m,
        forall|k: int| 0 <= k < c.len() && #[trigger] c[k].mount_point == m ==> first_mount_entry(c, m) is Some,
    decreases c.len(),
{
    if c.len() > 0 {
        lemma_first_found(c.drop_first(), m);
        if c[0].mount_point != m {
            if let Some(e) = first_mount_entry(c, m) {
                let k = choose|k: int| 0 <= k < c.drop_first().len() && #[trigger] c.drop_first()[k] == e
                    && e.mount_point == m;
                assert(c[k + 1] == e);
            }
            assert forall|k: int| 0 <= k < c.len() && #[trigger] c[k].mount_point == m implies first_mount_entry(c, m) is Some by {
                assert(k > 0);
                assert(c.drop_first()[k - 1] == c[k]);
            }
        }
    }
}

proof fn lemma_insert_pos(r: Seq<DiskInfoView>, m: Seq<char>)
    ensures
        0 <= insert_pos(r, m) <= r.len(),
        forall|j: int| 0 <= j < insert_pos(r, m) ==> lex_lt(#[trigger] r[j].mount_point, m),
        insert_pos(r, m) < r.len() ==> !lex_lt(r[insert_pos(r, m)].mount_point, m),
    decreases r.len(),
{
    if r.len() > 0 && lex_lt(r[0].mount_point, m) {
        lemma_insert_pos(r.drop_first(), m);
        assert forall|j: int| 0 <= j < insert_pos(r, m) implies lex_lt(#[trigger] r[j].mount_point, m) by {
            if j > 0 {
                assert(r[j] == r.drop_first()[j - 1]);
            }
        }
    }
}

/// What `dedup_sorted` promises of its result.
pub open spec fn dedup_sorted_laws(r: Seq<DiskInfoView>, c: Seq<DiskInfoView>) -> bool {
    &&& sorted_by_mount(r)
    &&& forall|i: int| 0 <= i < r.len() ==> first_mount_entry(c, #[trigger] r[i].mount_point) == Some(r[i])
    &&& forall|k: int| 0 <= k < c.len() ==> exists|i: int| 0 <= i < r.len()
        && #[trigger] r[i].mount_point == (#[trigger] c[k]).mount_point
}

#[verifier::rlimit(40)]
proof fn lemma_insert_unique_laws(r0: Seq<DiskInfoView>, c0: Seq<DiskInfoView>, d: DiskInfoView)
    requires
        dedup_sorted_laws(r0, c0),
    ensures
        dedup_sorted_laws(insert_unique(r0, d), c0.push(d)),
{
    let c = c0.push(d);
    let m = d.mount_point;
    let p = insert_pos(r0, m);
    lemma_insert_pos(r0, m);
    assert forall|mm: Seq<char>| first_mount_entry(c0, mm) is Some implies first_mount_entry(c, mm)
        == first_mount_entry(c0, mm) by {
        lemma_first_push(c0, d, mm);
    }
    if p < r0.len() && r0[p].mount_point == m {
        assert forall|k: int| 0 <= k < c.len() implies exists|i: int| 0 <= i < r0.len()
            && #[trigger] r0[i].mount_point == (#[trigger] c[k]).mount_point by {
            if k < c0.len() {
                assert(c[k] == c0[k]);
            } else {
                assert(r0[p].mount_point == c[k].mount_point);
            }
        }
        assert forall|i: int| 0 <= i < r0.len() implies first_mount_entry(c, #[trigger] r0[i].mount_point) == Some(r0[i]) by {
            assert(first_mount_entry(c0, r0[i].mount_point) == Some(r0[i]));
        }
    } else {
        let r = r0.insert(p, d);
        assert forall|j: int| p <= j < r0.len() implies lex_lt(m, #[trigger] r0[j].mount_point) by {
            lemma_lex_total(r0[p].mount_point, m);
            if j > p {
                lemma_lex_transitive(m, r0[p].mount_point, r0[j].mount_point);
            }
        }
        assert forall|j: int| 0 <= j < r0.len() implies #[trigger] r0[j].mount_point != m by {
            lemma_lex_irreflexive(m);
        }
        // `m` is new to `c0`.
        lemma_first_found(c0, m);
        if first_mount_entry(c0, m) is Some {
            let k = choose|k: int| 0 <= k < c0.len() && #[trigger] c0[k] == first_mount_entry(c0, m)->0
                && first_mount_entry(c0, m)->0.mount_point == m;
            let i = choose|i: int| 0 <= i < r0.len() && #[trigger] r0[i].mount_point == (#[trigger] c0[k]).mount_point;
            assert(r0[i].mount_point != m);
        }
        lemma_first_push(c0, d, m);
        assert(first_mount_entry(c, m) == Some(d));
        assert forall|i: int, j: int| 0 <= i < j < r.len() implies lex_lt(
            #[trigger] r[i].mount_point,
            #[trigger] r[j].mount_point,
        ) by {
            if j < p {
                assert(r[i] == r0[i] && r[j] == r0[j]);
            } else if j == p {
                assert(r[i] == r0[i]);
            } else if i < p {
                assert(r[i] == r0[i] && r[j] == r0[j - 1]);
                lemma_lex_transitive(r0[i].mount_point, m, r0[j - 1].mount_point);
            } else if i == p {
                assert(r[j] == r0[j - 1]);
            } else {
                assert(r[i] == r0[i - 1] && r[j] == r0[j - 1]);
            }
        }
        assert forall|i: int| 0 <= i < r.len() implies first_mount_entry(c, #[trigger] r[i].mount_point) == Some(r[i]) by {
            if i < p {
                assert(r[i] == r0[i]);
                assert(first_mount_entry(c0, r0[i].mount_point) == Some(r0[i]));
            } else if i > p {
                assert(r[i] == r0[i - 1]);
                assert(first_mount_entry(c0, r0[i - 1].mount_point) == Some(r0[i - 1]));
            }
        }
        assert forall|k: int| 0 <= k < c.len() implies exists|i: int| 0 <= i < r.len()
            && #[trigger] r[i].mount_point == (#[trigger] c[k]).mount_point by {
            if k < c0.len() {
                assert(c[k] == c0[k]);
                let i = choose|i: int| 0 <= i < r0.len() && #[trigger] r0[i].mount_point == (#[trigger] c0[k]).mount_point;
                if i < p {
                    assert(r[i] == r0[i]);
                } else {
                    assert(r[i + 1] == r0[i]);
                }
            } else {
                assert(r[p] == d);
            }
        }
    }
}

/// Deduplication sorts by mount point, keeps for each mount point the first
/// entry listed, and loses no mount point.
pub proof fn lemma_dedup_sorted(c: Seq<DiskInfoView>)
    ensures
        dedup_sorted_laws(dedup_sorted(c), c),
    decreases c.len(),
{
    if c.len() > 0 {
        lemma_dedup_sorted(c.drop_last());
        lemma_insert_unique_laws(dedup_sorted(c.drop_last()), c.drop_last(), c.last());
        assert(c.drop_last().push(c.last()) =~= c);
    }
}

/// Inserts `d` into `res` in mount-point order unless its mount point is
/// already present.
fn insert_by_mount(res: &mut Vec<DiskInfo>, d: DiskInfo)
    ensures
        final(res).deep_view() == insert_unique(old(res).deep_view(), d.deep_view()),
{
    let ghost old_v = res.deep_view();
    let ghost dv = d.deep_view();
    let mp = chars_of(d.mount_point.as_str());
    let mut p: usize = 0;
    proof {
        assert(old_v.skip(0) =~= old_v);
    }
    while p < res.len() && lex_less(&chars_of(res[p].mount_point.as_str()), &mp)
        invariant
            p <= res@.len(),
            res.deep_view() == old_v,
            mp@ == dv.mount_point,
            insert_pos(old_v, dv.mount_point) == p + insert_pos(old_v.skip(p as int), dv.mount_point),
        decreases res@.len() - p,
    {
        assert(old_v[p as int] == res@[p as int].deep_view());
        assert(old_v.skip(p as int).drop_first() =~= old_v.skip(p + 1));
        p += 1;
    }
    if p < res.len() {
        assert(old_v[p as int] == res@[p as int].deep_view());
    }
    if p < res.len() && eq_chars(&chars_of(res[p].mount_point.as_str()), &mp) {
        return;
    }
    res.insert(p, d);
    assert(res.deep_view() =~= old_v.insert(p as int, dv));
}

/// Detects the disks from the mount table; `None` when `/proc/mounts` is
/// unreadable.
pub fn detect(probe: &Probe) -> (r: Option<Vec<DiskInfo>>)
    ensures
        r.deep_view() == disks_of(*probe),
{
    let mounts = match probe.read(&chars_of("/proc/mounts")) {
        Some(m) => m,
        None => {
            return None;
        },
    };
    let ls = lines(&mounts);
    let ghost lss = seqs_of(ls@);
    let mut disks: Vec<DiskInfo> = Vec::new();
    let mut i: usize = 0;
    proof {
        assert(lss.take(0) =~= Seq::<Seq<char>>::empty());
        assert(disks.deep_view() =~= Seq::<DiskInfoView>::empty());
    }
    while i < ls.len()
        invariant
            i <= ls@.len(),
            lss == seqs_of(ls@),
            disks.deep_view() == dedup_sorted(mount_candidates(*probe, lss.take(i as int))),
        decreases ls@.len() - i,
    {
        proof {
            assert(lss.take(i + 1).drop_last() =~= lss.take(i as int));
            assert(lss.take(i + 1).last() == ls@[i as int]@);
        }
        let ghost cands = mount_candidates(*probe, lss.take(i as int));
        match mount_entry(probe, &ls[i]) {
            Some(d) => {
                proof {
                    assert(mount_candidates(*probe, lss.take(i + 1)) == cands.push(d.deep_view()));
                    assert(cands.push(d.deep_view()).drop_last() =~= cands);
                }
                insert_by_mount(&mut disks, d);
            },
            None => {
                assert(mount_candidates(*probe, lss.take(i + 1)) == cands);
            },
        }
        i += 1;
    }
    proof {
        assert(lss.take(ls@.len() as int) =~= lss);
    }
    Some(disks)
}


/// The name a disk kind is shown by.
pub open spec fn kind_name_of(k: DiskKind) -> Seq<char> {
    match k {
        DiskKind::Nvme => "NVMe"@,
        DiskKind::Ssd => "SSD"@,
        DiskKind::Hdd => "HDD"@,
        DiskKind::Unknown => "Unknown"@,
    }
}

impl DiskKind {
    /// The name the kind is shown by.
    pub fn to_string(&self) -> (r: String)
        ensures
            r@ == kind_name_of(*self),
    {
        let s = match self {
            DiskKind::Nvme => "NVMe",
            DiskKind::Ssd => "SSD",
            DiskKind::Hdd => "HDD",
            DiskKind::Unknown => "Unknown",
        };
        string_of(&chars_of(s))
    }
}

/// How a disk is shown in a scan report.
pub open spec fn disk_text_of(d: DiskInfoView) -> Seq<char> {
    "Disk: "@ + d.name + " ("@ + kind_name_of(d.kind) + ", "@ + decimal_of(d.size_gb as nat)
        + " GB, "@ + d.filesystem + ")\n  Mount: "@ + d.mount_point + " ["@ + d.scheduler
        + "]\n  Options: "@ + join_of(d.mount_options, ","@)
}

impl DiskInfo {
    /// The disk as a scan report shows it.
    pub fn to_string(&self) -> (r: String)
        ensures
            r@ == disk_text_of(self.deep_view()),
    {
        let mut v: Vec<char> = Vec::new();
        push_str(&mut v, "Disk: ");
        push_str(&mut v, self.name.as_str());
        push_str(&mut v, " (");
        push_str(&mut v, self.kind.to_string().as_str());
        push_str(&mut v, ", ");
        push_decimal(&mut v, self.size_gb);
        push_str(&mut v, " GB, ");
        push_str(&mut v, self.filesystem.as_str());
        push_str(&mut v, ")\n  Mount: ");
        push_str(&mut v, self.mount_point.as_str());
        push_str(&mut v, " [");
        push_str(&mut v, self.scheduler.as_str());
        push_str(&mut v, "]\n  Options: ");
        push_chars(&mut v, &join(&self.mount_options, ","));
        assert(v@ =~= disk_text_of(self.deep_view()));
        string_of(&v)
    }
}

} // verus!
