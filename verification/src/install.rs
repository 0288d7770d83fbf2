//! What the installer reads from its tools: the disks `lsblk` lists, the
//! images of an ESD that `wimlib-imagex info` describes, the Windows entries
//! `efibootmgr` shows; and the device names of a disk's partitions.

use vstd::prelude::*;
use crate::text::{
    ascii_lower, ascii_lower_exec, chars_of, contains, decimal, lines, lines_of, parse_unsigned,
    parse_unsigned_range, push_chars, push_decimal, push_str, splitn, splitn_ranges, starts_with_at,
    str_contains, string_of_range, strip_prefix, trim, trim_range, Sep,
};

verus! {

/// A block device `lsblk` lists.
#[derive(Debug, Clone)]
pub struct DiskInfo {
    pub name: String,
    pub size: String,
    pub model: String,
}

/// An installable image inside an ESD.
#[derive(Debug, Clone)]
pub struct ImageInfo {
    pub index: u32,
    pub name: String,
}

/// Mathematical value of a [`DiskInfo`].
pub struct DiskInfoView {
    pub name: Seq<char>,
    pub size: Seq<char>,
    pub model: Seq<char>,
}

/// Mathematical value of an [`ImageInfo`].
pub struct ImageInfoView {
    pub index: u32,
    pub name: Seq<char>,
}

impl View for DiskInfo {
    type V = DiskInfoView;

    open spec fn view(&self) -> DiskInfoView {
        DiskInfoView { name: self.name@, size: self.size@, model: self.model@ }
    }
}

impl View for ImageInfo {
    type V = ImageInfoView;

    open spec fn view(&self) -> ImageInfoView {
        ImageInfoView { index: self.index, name: self.name@ }
    }
}

/// How a disk is shown: `/dev/<name>  <size>  <model>`.
pub open spec fn spec_disk_label(d: DiskInfoView) -> Seq<char> {
    "/dev/"@ + d.name + "  "@ + d.size + "  "@ + d.model
}

/// How an image is shown: `[<index>]  <name>`.
pub open spec fn spec_image_label(i: ImageInfoView) -> Seq<char> {
    "["@ + decimal(i.index as nat) + "]  "@ + i.name
}

impl DiskInfo {
    /// The text a menu shows for this disk.
    pub fn label(&self) -> (s: String)
        ensures
            s@ == spec_disk_label(self@),
    {
        let mut s = String::new();
        push_str(&mut s, "/dev/");
        push_str(&mut s, self.name.as_str());
        push_str(&mut s, "  ");
        push_str(&mut s, self.size.as_str());
        push_str(&mut s, "  ");
        push_str(&mut s, self.model.as_str());
        s
    }
}

impl ImageInfo {
    /// The text a menu shows for this image.
    pub fn label(&self) -> (s: String)
        ensures
            s@ == spec_image_label(self@),
    {
        let mut s = String::new();
        push_str(&mut s, "[");
        push_decimal(&mut s, self.index as u64);
        push_str(&mut s, "]  ");
        push_str(&mut s, self.name.as_str());
        s
    }
}

// ---------------------------------------------------------------------------
// lsblk
// ---------------------------------------------------------------------------

/// The non-empty pieces among `ps`, in order.
pub open spec fn nonempty_pieces(ps: Seq<Seq<char>>) -> Seq<Seq<char>>
    decreases ps.len(),
{
    if ps.len() == 0 {
        Seq::empty()
    } else {
        nonempty_pieces(ps.drop_last()) + (if ps.last().len() > 0 {
            seq![ps.last()]
        } else {
            Seq::empty()
        })
    }
}

/// The disk one line of `lsblk -d -o NAME,SIZE,MODEL --noheadings` shows:
/// the line is cut at its first two whitespace characters into at most
/// three pieces, empty pieces are dropped, and the remaining ones are the
/// name, the size (`?` when missing) and the model (trimmed, empty when
/// missing). A line with no non-empty piece shows no disk.
pub open spec fn disk_of_line(line: Seq<char>) -> Seq<DiskInfoView> {
    let cols = nonempty_pieces(splitn(line, 3, Sep::Whitespace));
    if cols.len() == 0 {
        Seq::empty()
    } else {
        seq![
            DiskInfoView {
                name: cols[0],
                size: if cols.len() > 1 {
                    cols[1]
                } else {
                    "?"@
                },
                model: if cols.len() > 2 {
                    trim(cols[2])
                } else {
                    Seq::empty()
                },
            },
        ]
    }
}

/// The disks of the first `k` lines.
pub open spec fn disks_upto(ls: Seq<Seq<char>>, k: int) -> Seq<DiskInfoView>
    decreases k,
{
    if k <= 0 {
        Seq::empty()
    } else {
        disks_upto(ls, k - 1) + disk_of_line(ls[k - 1])
    }
}

/// The disks an `lsblk` listing shows, one per line that has a name.
pub open spec fn spec_parse_disks(text: Seq<char>) -> Seq<DiskInfoView> {
    disks_upto(lines(text), lines(text).len() as int)
}

/// The disk one line shows, if any.
fn disk_from_line(line: &[char]) -> (r: Option<DiskInfo>)
    ensures
        match r {
            Some(d) => disk_of_line(line@) == seq![d@],
            None => disk_of_line(line@) == Seq::<DiskInfoView>::empty(),
        },
{
    let n = line.len();
    let ghost ps = splitn(line@, 3, Sep::Whitespace);
    assert(line@.subrange(0, n as int) =~= line@);
    let pieces = splitn_ranges(line, 0, n, 3, Sep::Whitespace);
    let mut cols: Vec<(usize, usize)> = Vec::new();
    let mut j: usize = 0;
    while j < pieces.len()
        invariant
            n == line@.len(),
            ps == splitn(line@, 3, Sep::Whitespace),
            pieces@.len() == ps.len(),
            forall|k: int|
                0 <= k < pieces@.len() ==> 0 <= (#[trigger] pieces@[k]).0 <= pieces@[k].1 <= n
                    && line@.subrange(pieces@[k].0 as int, pieces@[k].1 as int) == ps[k],
            j <= pieces@.len(),
            cols@.len() == nonempty_pieces(ps.take(j as int)).len(),
            forall|k: int|
                0 <= k < cols@.len() ==> 0 <= (#[trigger] cols@[k]).0 <= cols@[k].1 <= n
                    && line@.subrange(cols@[k].0 as int, cols@[k].1 as int) == nonempty_pieces(
                    ps.take(j as int),
                )[k],
        decreases pieces@.len() - j,
    {
        let (a, b) = pieces[j];
        assert(ps.take(j + 1).drop_last() =~= ps.take(j as int));
        assert(ps.take(j + 1).last() == ps[j as int]);
        if a < b {
            cols.push((a, b));
        }
        j = j + 1;
    }
    assert(ps.take(pieces@.len() as int) =~= ps);
    let ghost cv = nonempty_pieces(ps);
    if cols.len() == 0 {
        return None;
    }
    let name = string_of_range(line, cols[0].0, cols[0].1);
    let size = if cols.len() > 1 {
        string_of_range(line, cols[1].0, cols[1].1)
    } else {
        "?".to_owned()
    };
    let model = if cols.len() > 2 {
        let (x, y) = trim_range(line, cols[2].0, cols[2].1);
        string_of_range(line, x, y)
    } else {
        String::new()
    };
    let d = DiskInfo { name, size, model };
    assert(disk_of_line(line@) =~= seq![d@]);
    Some(d)
}

/// The disks an `lsblk` listing shows (see [`spec_parse_disks`]).
pub fn parse_disks(text: &str) -> (r: Vec<DiskInfo>)
    ensures
        r@.map_values(|d: DiskInfo| d@) == spec_parse_disks(text@),
{
    let cs = chars_of(text);
    let ls = lines_of(cs.as_slice());
    let ghost lv = lines(text@);
    let mut r: Vec<DiskInfo> = Vec::new();
    let mut k: usize = 0;
    while k < ls.len()
        invariant
            ls.deep_view() == lv,
            lv == lines(text@),
            k <= ls@.len(),
            r@.map_values(|d: DiskInfo| d@) == disks_upto(lv, k as int),
        decreases ls@.len() - k,
    {
        assert(ls@[k as int]@ == lv[k as int]);
        let ghost old_r = r@;
        match disk_from_line(ls[k].as_slice()) {
            Some(d) => {
                r.push(d);
                assert(r@.map_values(|d: DiskInfo| d@) =~= old_r.map_values(|d: DiskInfo| d@).push(
                    r@[r@.len() - 1]@,
                ));
            },
            None => {},
        }
        assert(r@.map_values(|d: DiskInfo| d@) =~= disks_upto(lv, k + 1));
        k = k + 1;
    }
    r
}

} // verus!

verus! {

// ---------------------------------------------------------------------------
// wimlib-imagex info
// ---------------------------------------------------------------------------

/// Progress through the lines of `wimlib-imagex info`: the images completed
/// so far, and the index and name read since the last completed one.
pub struct ImageScan {
    pub done: Seq<ImageInfoView>,
    pub index: Option<u32>,
    pub name: Option<Seq<char>>,
}

/// The scan after one more line. An `Index:` line completes the pending
/// image when both its index and name are known (an index without a name is
/// dropped; a name without an index is kept for the next index), then starts
/// a new one with the trimmed number after the colon (`None` when it is not
/// a `u32`). A `Name:` line sets the pending name to the trimmed text after
/// the colon. Other lines change nothing.
pub open spec fn image_step(st: ImageScan, line: Seq<char>) -> ImageScan {
    match strip_prefix(line, "Index:"@) {
        Some(rest) => ImageScan {
            done: match (st.index, st.name) {
                (Some(i), Some(n)) => st.done.push(ImageInfoView { index: i, name: n }),
                _ => st.done,
            },
            index: match parse_unsigned(trim(rest), 10, 0xFFFF_FFFF) {
                Ok(v) => Some(v as u32),
                Err(_) => None,
            },
            name: if st.index is Some {
                None
            } else {
                st.name
            },
        },
        None => match strip_prefix(line, "Name:"@) {
            Some(rest) => ImageScan { done: st.done, index: st.index, name: Some(trim(rest)) },
            None => st,
        },
    }
}

/// The scan after the first `k` lines.
pub open spec fn image_scan(ls: Seq<Seq<char>>, k: int) -> ImageScan
    decreases k,
{
    if k <= 0 {
        ImageScan { done: Seq::empty(), index: None, name: None }
    } else {
        image_step(image_scan(ls, k - 1), ls[k - 1])
    }
}

/// An image worth offering: not Windows PE or Setup.
pub open spec fn installable(name: Seq<char>) -> bool {
    !contains(name, "Windows PE"@) && !contains(name, "Windows Setup"@) && !contains(
        name,
        "Setup Media"@,
    )
}

/// The installable images among `s`, in order.
pub open spec fn installable_images(s: Seq<ImageInfoView>) -> Seq<ImageInfoView>
    decreases s.len(),
{
    if s.len() == 0 {
        Seq::empty()
    } else {
        installable_images(s.drop_last()) + (if installable(s.last().name) {
            seq![s.last()]
        } else {
            Seq::empty()
        })
    }
}

/// The images a `wimlib-imagex info` listing describes: the scan of all
/// its lines, its pending image completed when index and name are known,
/// keeping the installable ones.
pub open spec fn spec_parse_images(text: Seq<char>) -> Seq<ImageInfoView> {
    let ls = lines(text);
    let st = image_scan(ls, ls.len() as int);
    installable_images(
        match (st.index, st.name) {
            (Some(i), Some(n)) => st.done.push(ImageInfoView { index: i, name: n }),
            _ => st.done,
        },
    )
}

/// The view of an optional text.
pub open spec fn opt_view(o: Option<String>) -> Option<Seq<char>> {
    match o {
        Some(s) => Some(s@),
        None => None,
    }
}

/// Whether `name` is installable.
fn installable_exec(name: &String) -> (b: bool)
    ensures
        b == installable(name@),
{
    let cs = chars_of(name.as_str());
    !str_contains(cs.as_slice(), "Windows PE") && !str_contains(cs.as_slice(), "Windows Setup")
        && !str_contains(cs.as_slice(), "Setup Media")
}

/// The images a `wimlib-imagex info` listing describes (see
/// [`spec_parse_images`]).
pub fn parse_images(text: &str) -> (r: Vec<ImageInfo>)
    ensures
        r@.map_values(|i: ImageInfo| i@) == spec_parse_images(text@),
{
    let cs = chars_of(text);
    let ls = lines_of(cs.as_slice());
    let ghost lv = lines(text@);
    let index_p = chars_of("Index:");
    let name_p = chars_of("Name:");
    let mut images: Vec<ImageInfo> = Vec::new();
    let mut cur_index: Option<u32> = None;
    let mut cur_name: Option<String> = None;
    let mut k: usize = 0;
    while k < ls.len()
        invariant
            ls.deep_view() == lv,
            lv == lines(text@),
            index_p@ == "Index:"@,
            name_p@ == "Name:"@,
            k <= ls@.len(),
            images@.map_values(|i: ImageInfo| i@) == image_scan(lv, k as int).done,
            cur_index == image_scan(lv, k as int).index,
            opt_view(cur_name) == image_scan(lv, k as int).name,
        decreases ls@.len() - k,
    {
        let line = ls[k].as_slice();
        let n = line.len();
        assert(line@ == lv[k as int]);
        assert(line@.subrange(0, n as int) =~= line@);
        if starts_with_at(line, 0, n, index_p.as_slice()) {
            let pl = index_p.len();
            assert(line@.skip(pl as int) =~= line@.subrange(pl as int, n as int));
            let ghost old_images = images@;
            match cur_index {
                Some(i) => {
                    match cur_name {
                        Some(nm) => {
                            images.push(ImageInfo { index: i, name: nm });
                            assert(images@.map_values(|i: ImageInfo| i@) =~= old_images.map_values(
                                |i: ImageInfo| i@,
                            ).push(images@[images@.len() - 1]@));
                        },
                        None => {},
                    }
                    cur_name = None;
                },
                None => {},
            }
            let (x, y) = trim_range(line, pl, n);
            proof {
                crate::text::lemma_scan_bound_parse(line@.subrange(x as int, y as int), 10, 0xFFFF_FFFF);
            }
            cur_index = match parse_unsigned_range(line, x, y, 10, 0xFFFF_FFFF) {
                Ok(v) => Some(v as u32),
                Err(_) => None,
            };
        } else if starts_with_at(line, 0, n, name_p.as_slice()) {
            let pl = name_p.len();
            assert(line@.skip(pl as int) =~= line@.subrange(pl as int, n as int));
            let (x, y) = trim_range(line, pl, n);
            cur_name = Some(string_of_range(line, x, y));
        }
        k = k + 1;
    }
    let ghost st = image_scan(lv, lv.len() as int);
    match (cur_index, cur_name) {
        (Some(i), Some(nm)) => {
            let ghost old_images = images@;
            images.push(ImageInfo { index: i, name: nm });
            assert(images@.map_values(|i: ImageInfo| i@) =~= old_images.map_values(
                |i: ImageInfo| i@,
            ).push(images@[images@.len() - 1]@));
        },
        _ => {},
    }
    let ghost all = images@.map_values(|i: ImageInfo| i@);
    let mut r: Vec<ImageInfo> = Vec::new();
    let mut j: usize = 0;
    while j < images.len()
        invariant
            all == images@.map_values(|i: ImageInfo| i@),
            j <= images@.len(),
            r@.map_values(|i: ImageInfo| i@) == installable_images(all.take(j as int)),
        decreases images@.len() - j,
    {
        assert(all.take(j + 1).drop_last() =~= all.take(j as int));
        assert(all.take(j + 1).last() == images@[j as int]@);
        let ghost old_r = r@;
        if installable_exec(&images[j].name) {
            r.push(ImageInfo { index: images[j].index, name: images[j].name.clone() });
            assert(r@.map_values(|i: ImageInfo| i@) =~= old_r.map_values(|i: ImageInfo| i@).push(
                r@[r@.len() - 1]@,
            ));
        }
        j = j + 1;
    }
    assert(all.take(images@.len() as int) =~= all);
    r
}

} // verus!

verus! {

// ---------------------------------------------------------------------------
// Partitions
// ---------------------------------------------------------------------------

/// `c` is an ASCII decimal digit.
pub open spec fn is_ascii_digit(c: char) -> bool {
    '0' <= c && c <= '9'
}

/// The device node of partition `n` of disk `disk`: `/dev/<disk><n>`, with
/// a `p` before the number when the disk name ends in a digit (as
/// `nvme0n1p1` or `mmcblk0p1`).
pub open spec fn spec_part(disk: Seq<char>, n: u8) -> Seq<char> {
    "/dev/"@ + disk + (if disk.len() > 0 && is_ascii_digit(disk.last()) {
        "p"@
    } else {
        Seq::empty()
    }) + decimal(n as nat)
}

/// The device node of partition `n` of disk `disk`.
pub fn part(disk: &str, n: u8) -> (p: String)
    ensures
        p@ == spec_part(disk@, n),
{
    let cs = chars_of(disk);
    let mut s = String::new();
    push_str(&mut s, "/dev/");
    push_chars(&mut s, cs.as_slice());
    if cs.len() > 0 && '0' <= cs[cs.len() - 1] && cs[cs.len() - 1] <= '9' {
        push_str(&mut s, "p");
    } else {
        assert(s@ =~= s@ + Seq::<char>::empty());
    }
    push_decimal(&mut s, n as u64);
    s
}

// ---------------------------------------------------------------------------
// efibootmgr
// ---------------------------------------------------------------------------

/// `pat` occurs in `s` at `i` when ASCII case is ignored.
pub open spec fn occurs_ci_at(s: Seq<char>, pat: Seq<char>, i: int) -> bool {
    0 <= i && i + pat.len() <= s.len() && forall|j: int|
        0 <= j < pat.len() ==> ascii_lower(#[trigger] s[i + j]) == ascii_lower(pat[j])
}

/// `pat` occurs in `s` when ASCII case is ignored.
pub open spec fn contains_ci(s: Seq<char>, pat: Seq<char>) -> bool {
    exists|i: int| occurs_ci_at(s, pat, i)
}

/// Whether `pat` occurs in `s` ignoring ASCII case.
pub fn contains_ci_exec(s: &[char], pat: &[char]) -> (b: bool)
    ensures
        b == contains_ci(s@, pat@),
{
    if pat.len() > s.len() {
        return false;
    }
    let n = s.len();
    let last = n - pat.len();
    let mut i: usize = 0;
    while i <= last
        invariant
            n == s@.len(),
            last + pat@.len() == s@.len(),
            i <= last + 1,
            forall|k: int| 0 <= k < i ==> !occurs_ci_at(s@, pat@, k),
        decreases last + 1 - i,
    {
        let mut j: usize = 0;
        let mut ok = true;
        while j < pat.len()
            invariant
                n == s@.len(),
                last + pat@.len() == s@.len(),
                i <= last,
                j <= pat@.len(),
                ok ==> forall|m: int| 0 <= m < j ==> ascii_lower(#[trigger] s@[i + m]) == ascii_lower(
                    pat@[m],
                ),
                !ok ==> !occurs_ci_at(s@, pat@, i as int),
            decreases pat@.len() - j,
        {
            if ok && ascii_lower_exec(s[i + j]) != ascii_lower_exec(pat[j]) {
                ok = false;
                assert(ascii_lower(s@[i + j]) != ascii_lower(pat@[j as int]));
            }
            j = j + 1;
        }
        if ok {
            assert(occurs_ci_at(s@, pat@, i as int));
            return true;
        }
        if i == last {
            assert forall|k: int| !occurs_ci_at(s@, pat@, k) by {
                if 0 <= k && k < i {
                } else if k == i {
                } else {
                }
            }
            return false;
        }
        i = i + 1;
    }
    false
}

/// `c` is an ASCII hexadecimal digit.
pub open spec fn is_ascii_hexdigit(c: char) -> bool {
    ('0' <= c && c <= '9') || ('a' <= c && c <= 'f') || ('A' <= c && c <= 'F')
}

/// The leading hexadecimal digits of `s`.
pub open spec fn hex_prefix(s: Seq<char>) -> Seq<char>
    decreases s.len(),
{
    if s.len() > 0 && is_ascii_hexdigit(s[0]) {
        seq![s[0]] + hex_prefix(s.drop_first())
    } else {
        Seq::empty()
    }
}

/// The boot entry number one `efibootmgr` line names, if the line mentions
/// Windows (in any ASCII case) and starts with `Boot`: the hexadecimal
/// digits right after `Boot` (possibly none).
pub open spec fn boot_entry_of_line(line: Seq<char>) -> Seq<Seq<char>> {
    if contains_ci(line, "windows"@) {
        match strip_prefix(line, "Boot"@) {
            Some(rest) => seq![hex_prefix(rest)],
            None => Seq::empty(),
        }
    } else {
        Seq::empty()
    }
}

/// The boot entries of the first `k` lines.
pub open spec fn boot_entries_upto(ls: Seq<Seq<char>>, k: int) -> Seq<Seq<char>>
    decreases k,
{
    if k <= 0 {
        Seq::empty()
    } else {
        boot_entries_upto(ls, k - 1) + boot_entry_of_line(ls[k - 1])
    }
}

/// The numbers of the existing Windows boot entries an `efibootmgr`
/// listing shows, in order.
pub open spec fn spec_windows_boot_entries(text: Seq<char>) -> Seq<Seq<char>> {
    boot_entries_upto(lines(text), lines(text).len() as int)
}

/// The leading hex digits of `cs[lo..hi]`, as the bound where they end.
fn hex_prefix_end(cs: &[char], lo: usize, hi: usize) -> (e: usize)
    requires
        lo <= hi <= cs@.len(),
    ensures
        lo <= e <= hi,
        cs@.subrange(lo as int, e as int) == hex_prefix(cs@.subrange(lo as int, hi as int)),
{
    let mut e = lo;
    while e < hi && (('0' <= cs[e] && cs[e] <= '9') || ('a' <= cs[e] && cs[e] <= 'f') || ('A'
        <= cs[e] && cs[e] <= 'F'))
        invariant
            lo <= e <= hi <= cs@.len(),
            hex_prefix(cs@.subrange(lo as int, hi as int)) == cs@.subrange(lo as int, e as int)
                + hex_prefix(cs@.subrange(e as int, hi as int)),
        decreases hi - e,
    {
        assert(cs@.subrange(e as int, hi as int).drop_first() =~= cs@.subrange(e + 1, hi as int));
        assert(cs@.subrange(lo as int, e + 1) =~= cs@.subrange(lo as int, e as int) + seq![
            cs@[e as int],
        ]);
        e = e + 1;
    }
    assert(hex_prefix(cs@.subrange(e as int, hi as int)) =~= Seq::<char>::empty());
    assert(cs@.subrange(lo as int, e as int) + Seq::<char>::empty() =~= cs@.subrange(
        lo as int,
        e as int,
    ));
    e
}

/// The numbers of the existing Windows boot entries an `efibootmgr`
/// listing shows (see [`spec_windows_boot_entries`]); each is deleted
/// before the new entry is created.
pub fn windows_boot_entries(text: &str) -> (r: Vec<String>)
    ensures
        r@.map_values(|s: String| s@) == spec_windows_boot_entries(text@),
{
    let cs = chars_of(text);
    let ls = lines_of(cs.as_slice());
    let ghost lv = lines(text@);
    let windows = chars_of("windows");
    let boot = chars_of("Boot");
    let mut r: Vec<String> = Vec::new();
    let mut k: usize = 0;
    while k < ls.len()
        invariant
            ls.deep_view() == lv,
            lv == lines(text@),
            windows@ == "windows"@,
            boot@ == "Boot"@,
            k <= ls@.len(),
            r@.map_values(|s: String| s@) == boot_entries_upto(lv, k as int),
        decreases ls@.len() - k,
    {
        let line = ls[k].as_slice();
        let n = line.len();
        assert(line@ == lv[k as int]);
        assert(line@.subrange(0, n as int) =~= line@);
        let ghost old_r = r@;
        if contains_ci_exec(line, windows.as_slice()) && starts_with_at(line, 0, n, boot.as_slice()) {
            let pl = boot.len();
            assert(line@.skip(pl as int) =~= line@.subrange(pl as int, n as int));
            let e = hex_prefix_end(line, pl, n);
            r.push(string_of_range(line, pl, e));
            assert(r@.map_values(|s: String| s@) =~= old_r.map_values(|s: String| s@).push(
                r@[r@.len() - 1]@,
            ));
        }
        assert(r@.map_values(|s: String| s@) =~= boot_entries_upto(lv, k + 1));
        k = k + 1;
    }
    r
}

} // verus!

verus! {

// ---------------------------------------------------------------------------
// The installation procedure
// ---------------------------------------------------------------------------

/// Where the Windows partition is mounted while boot files are staged.
pub const MOUNT_POINT: &'static str = "/mnt/windows";

/// The partition table `sfdisk` writes: a 2 MiB EFI system partition for
/// the UEFI:NTFS bridge, 16 MiB Microsoft reserved, and the rest for
/// Windows.
pub const PARTITION_TABLE: &'static str = "name=\"UEFI:NTFS\",          size=2MiB,  type=C12A7328-F81F-11D2-BA4B-00A0C93EC93B\nname=\"Microsoft Reserved\",  size=16MiB, type=E3C9E316-0B5C-4DB8-817D-F92DF00215AE\nname=\"Windows\",                         type=EBD0A0A2-B9E5-4433-87C0-68B6B72699C7\n";

/// The device nodes an installation on one disk uses.
#[derive(Debug, Clone)]
pub struct InstallLayout {
    /// The whole disk.
    pub disk_dev: String,
    /// Partition 1: the UEFI:NTFS bridge.
    pub bridge_part: String,
    /// Partition 2: Microsoft reserved.
    pub reserved_part: String,
    /// Partition 3: Windows, its boot files and its BCD.
    pub windows_part: String,
}

/// The device nodes of an installation on disk `name`.
pub fn install_layout(name: &str) -> (l: InstallLayout)
    ensures
        l.disk_dev@ == "/dev/"@ + name@,
        l.bridge_part@ == spec_part(name@, 1),
        l.reserved_part@ == spec_part(name@, 2),
        l.windows_part@ == spec_part(name@, 3),
{
    let mut disk_dev = String::new();
    push_str(&mut disk_dev, "/dev/");
    push_str(&mut disk_dev, name);
    InstallLayout {
        disk_dev,
        bridge_part: part(name, 1),
        reserved_part: part(name, 2),
        windows_part: part(name, 3),
    }
}

/// Which partition's device node is awaited.
#[derive(Clone, Copy, Debug, PartialEq, Eq, Structural)]
pub enum NodeRole {
    /// The UEFI:NTFS bridge partition.
    Bridge,
    /// The Windows partition.
    Windows,
}

/// The NTFS drivers tried for mounting, in order.
#[derive(Clone, Copy, Debug, PartialEq, Eq, Structural)]
pub enum NtfsDriver {
    /// The kernel's `ntfs3`.
    Ntfs3,
    /// FUSE `ntfs-3g`.
    Ntfs3g,
}

/// One step of an installation. Each is performed by the caller, which
/// reports one boolean about it: for a command, whether it succeeded; for a
/// check, whether what it looks for is there.
#[derive(Clone, Copy, Debug, PartialEq, Eq, Structural)]
pub enum InstallStep {
    /// Probe for the Perl module `Win::Hivex`; report whether it is there.
    ProbeHivex,
    /// Report whether a UEFI:NTFS image is bundled.
    CheckImage,
    /// Unmount, release and swap off the disk and its partitions.
    ClearMounts,
    /// Write the partition table with `sfdisk`.
    Partition,
    /// Run `partprobe` on the disk.
    ProbePartitions,
    /// Let `udevadm` settle after probing.
    SettleAfterProbe,
    /// Report whether the device node of `role` exists; `retries` checks
    /// remain after this one.
    CheckNode { role: NodeRole, retries: u8 },
    /// Wait a second before checking the node of `role` again.
    WaitForNode { role: NodeRole, retries: u8 },
    /// Write the UEFI:NTFS image to the bridge partition.
    WriteBridge,
    /// Format the Windows partition as NTFS.
    FormatWindows,
    /// Let `udevadm` settle after formatting.
    SettleAfterFormat,
    /// Apply the chosen image to the Windows partition.
    ApplyImage,
    /// Create the mount point.
    MakeMountPoint,
    /// Mount the Windows partition with a driver.
    Mount(NtfsDriver),
    /// Report whether `Windows/Boot/EFI` exists on the partition.
    CheckBootSource,
    /// Report whether something other than a directory stands at `EFI`.
    CheckStaleEfi,
    /// Remove what stands at `EFI`.
    RemoveStaleEfi,
    /// Create `EFI/Boot` and `EFI/Microsoft/Boot`.
    MakeEfiDirs,
    /// Report whether `Windows/Boot/EFI/bootmgfw.efi` exists.
    CheckBootManager,
    /// Copy the boot manager to the UEFI fallback path.
    CopyFallbackLoader,
    /// Copy the boot manager to `EFI/Microsoft/Boot`.
    CopyBootManager,
    /// Copy the boot fonts and resources that exist.
    CopyBootResources,
    /// Create the BCD store.
    CreateBcd,
    /// Delete the firmware's boot entries for Windows.
    RemoveOldBootEntries,
    /// Create the firmware boot entry for the bridge.
    CreateBootEntry,
    /// Flush and unmount.
    FlushAndUnmount,
}

/// Why an installation stopped.
#[derive(Clone, Copy, Debug, PartialEq, Eq, Structural)]
pub enum InstallFailure {
    /// `Win::Hivex` is missing.
    HivexMissing,
    /// No UEFI:NTFS image is bundled.
    ImageMissing,
    /// `sfdisk` failed.
    PartitionFailed,
    /// `partprobe` failed.
    ProbeFailed,
    /// A partition's device node never appeared.
    NodeMissing(NodeRole),
    /// Writing the UEFI:NTFS image failed.
    BridgeWriteFailed,
    /// `mkntfs` failed.
    FormatFailed,
    /// Applying the image failed.
    ApplyFailed,
    /// The mount point could not be created.
    MountPointFailed,
    /// No driver could mount the Windows partition.
    MountFailed,
    /// `Windows/Boot/EFI` is missing from the applied image.
    BootSourceMissing,
    /// A stale `EFI` file could not be removed.
    StaleEfiNotRemoved,
    /// The EFI directories could not be created.
    EfiDirsFailed,
    /// `bootmgfw.efi` is missing from the applied image.
    BootManagerMissing,
    /// Copying the boot manager failed.
    CopyFailed,
    /// Creating the BCD store failed.
    BcdFailed,
}

/// Where an installation stands.
#[derive(Clone, Copy, Debug, PartialEq, Eq, Structural)]
pub enum InstallPhase {
    /// The step under way.
    Running(InstallStep),
    /// Every step is done.
    Done,
    /// The installation stopped.
    Failed(InstallFailure),
}

/// The number of times a device node is checked once it was found missing.
pub const NODE_RETRIES: u8 = 15;

/// The first phase of an installation.
pub open spec fn install_start() -> InstallPhase {
    InstallPhase::Running(InstallStep::ProbeHivex)
}

/// Goes on with `next` when `ok`, else stops with `f`.
pub open spec fn or_fail(ok: bool, next: InstallStep, f: InstallFailure) -> InstallPhase {
    if ok {
        InstallPhase::Running(next)
    } else {
        InstallPhase::Failed(f)
    }
}

/// The phase after `step` reported `ok`. Required steps stop the
/// installation when they fail; clearing mounts, settling, copying fonts,
/// replacing boot entries and the final unmount go on whatever happens; a
/// missing device node is checked again after a second, up to
/// [`NODE_RETRIES`] times; `ntfs-3g` is tried when `ntfs3` fails.
pub open spec fn spec_after(step: InstallStep, ok: bool) -> InstallPhase {
    match step {
        InstallStep::ProbeHivex => or_fail(ok, InstallStep::CheckImage, InstallFailure::HivexMissing),
        InstallStep::CheckImage => or_fail(ok, InstallStep::ClearMounts, InstallFailure::ImageMissing),
        InstallStep::ClearMounts => InstallPhase::Running(InstallStep::Partition),
        InstallStep::Partition => or_fail(
            ok,
            InstallStep::ProbePartitions,
            InstallFailure::PartitionFailed,
        ),
        InstallStep::ProbePartitions => or_fail(
            ok,
            InstallStep::SettleAfterProbe,
            InstallFailure::ProbeFailed,
        ),
        InstallStep::SettleAfterProbe => InstallPhase::Running(
            InstallStep::CheckNode { role: NodeRole::Bridge, retries: NODE_RETRIES },
        ),
        InstallStep::CheckNode { role, retries } => if ok {
            match role {
                NodeRole::Bridge => InstallPhase::Running(
                    InstallStep::CheckNode { role: NodeRole::Windows, retries: NODE_RETRIES },
                ),
                NodeRole::Windows => InstallPhase::Running(InstallStep::WriteBridge),
            }
        } else if retries > 0 {
            InstallPhase::Running(InstallStep::WaitForNode { role, retries: (retries - 1) as u8 })
        } else {
            InstallPhase::Failed(InstallFailure::NodeMissing(role))
        },
        InstallStep::WaitForNode { role, retries } => InstallPhase::Running(
            InstallStep::CheckNode { role, retries },
        ),
        InstallStep::WriteBridge => or_fail(
            ok,
            InstallStep::FormatWindows,
            InstallFailure::BridgeWriteFailed,
        ),
        InstallStep::FormatWindows => or_fail(
            ok,
            InstallStep::SettleAfterFormat,
            InstallFailure::FormatFailed,
        ),
        InstallStep::SettleAfterFormat => InstallPhase::Running(InstallStep::ApplyImage),
        InstallStep::ApplyImage => or_fail(ok, InstallStep::MakeMountPoint, InstallFailure::ApplyFailed),
        InstallStep::MakeMountPoint => or_fail(
            ok,
            InstallStep::Mount(NtfsDriver::Ntfs3),
            InstallFailure::MountPointFailed,
        ),
        InstallStep::Mount(NtfsDriver::Ntfs3) => if ok {
            InstallPhase::Running(InstallStep::CheckBootSource)
        } else {
            InstallPhase::Running(InstallStep::Mount(NtfsDriver::Ntfs3g))
        },
        InstallStep::Mount(NtfsDriver::Ntfs3g) => or_fail(
            ok,
            InstallStep::CheckBootSource,
            InstallFailure::MountFailed,
        ),
        InstallStep::CheckBootSource => or_fail(
            ok,
            InstallStep::CheckStaleEfi,
            InstallFailure::BootSourceMissing,
        ),
        InstallStep::CheckStaleEfi => if ok {
            InstallPhase::Running(InstallStep::RemoveStaleEfi)
        } else {
            InstallPhase::Running(InstallStep::MakeEfiDirs)
        },
        InstallStep::RemoveStaleEfi => or_fail(
            ok,
            InstallStep::MakeEfiDirs,
            InstallFailure::StaleEfiNotRemoved,
        ),
        InstallStep::MakeEfiDirs => or_fail(
            ok,
            InstallStep::CheckBootManager,
            InstallFailure::EfiDirsFailed,
        ),
        InstallStep::CheckBootManager => or_fail(
            ok,
            InstallStep::CopyFallbackLoader,
            InstallFailure::BootManagerMissing,
        ),
        InstallStep::CopyFallbackLoader => or_fail(
            ok,
            InstallStep::CopyBootManager,
            InstallFailure::CopyFailed,
        ),
        InstallStep::CopyBootManager => or_fail(
            ok,
            InstallStep::CopyBootResources,
            InstallFailure::CopyFailed,
        ),
        InstallStep::CopyBootResources => InstallPhase::Running(InstallStep::CreateBcd),
        InstallStep::CreateBcd => or_fail(
            ok,
            InstallStep::RemoveOldBootEntries,
            InstallFailure::BcdFailed,
        ),
        InstallStep::RemoveOldBootEntries => InstallPhase::Running(InstallStep::CreateBootEntry),
        InstallStep::CreateBootEntry => InstallPhase::Running(InstallStep::FlushAndUnmount),
        InstallStep::FlushAndUnmount => InstallPhase::Done,
    }
}

/// The phase after an outcome: a running step moves on (see
/// [`spec_after`]); a finished or stopped installation stays as it is.
pub open spec fn spec_install_step(phase: InstallPhase, ok: bool) -> InstallPhase {
    match phase {
        InstallPhase::Running(step) => spec_after(step, ok),
        _ => phase,
    }
}

/// The first phase of an installation.
pub fn install_begin() -> (p: InstallPhase)
    ensures
        p == install_start(),
{
    InstallPhase::Running(InstallStep::ProbeHivex)
}

/// Goes on with `next` when `ok`, else stops with `f`.
fn or_fail_exec(ok: bool, next: InstallStep, f: InstallFailure) -> (p: InstallPhase)
    ensures
        p == or_fail(ok, next, f),
{
    if ok {
        InstallPhase::Running(next)
    } else {
        InstallPhase::Failed(f)
    }
}

/// The phase after the current step reported `ok` (see
/// [`spec_install_step`]).
pub fn install_step(phase: InstallPhase, ok: bool) -> (p: InstallPhase)
    ensures
        p == spec_install_step(phase, ok),
{
    let step = match phase {
        InstallPhase::Running(step) => step,
        _ => {
            return phase;
        },
    };
    match step {
        InstallStep::ProbeHivex => or_fail_exec(ok, InstallStep::CheckImage, InstallFailure::HivexMissing),
        InstallStep::CheckImage => or_fail_exec(ok, InstallStep::ClearMounts, InstallFailure::ImageMissing),
        InstallStep::ClearMounts => InstallPhase::Running(InstallStep::Partition),
        InstallStep::Partition => or_fail_exec(
            ok,
            InstallStep::ProbePartitions,
            InstallFailure::PartitionFailed,
        ),
        InstallStep::ProbePartitions => or_fail_exec(
            ok,
            InstallStep::SettleAfterProbe,
            InstallFailure::ProbeFailed,
        ),
        InstallStep::SettleAfterProbe => InstallPhase::Running(
            InstallStep::CheckNode { role: NodeRole::Bridge, retries: NODE_RETRIES },
        ),
        InstallStep::CheckNode { role, retries } => if ok {
            match role {
                NodeRole::Bridge => InstallPhase::Running(
                    InstallStep::CheckNode { role: NodeRole::Windows, retries: NODE_RETRIES },
                ),
                NodeRole::Windows => InstallPhase::Running(InstallStep::WriteBridge),
            }
        } else if retries > 0 {
            InstallPhase::Running(InstallStep::WaitForNode { role, retries: retries - 1 })
        } else {
            InstallPhase::Failed(InstallFailure::NodeMissing(role))
        },
        InstallStep::WaitForNode { role, retries } => InstallPhase::Running(
            InstallStep::CheckNode { role, retries },
        ),
        InstallStep::WriteBridge => or_fail_exec(
            ok,
            InstallStep::FormatWindows,
            InstallFailure::BridgeWriteFailed,
        ),
        InstallStep::FormatWindows => or_fail_exec(
            ok,
            InstallStep::SettleAfterFormat,
            InstallFailure::FormatFailed,
        ),
        InstallStep::SettleAfterFormat => InstallPhase::Running(InstallStep::ApplyImage),
        InstallStep::ApplyImage => or_fail_exec(
            ok,
            InstallStep::MakeMountPoint,
            InstallFailure::ApplyFailed,
        ),
        InstallStep::MakeMountPoint => or_fail_exec(
            ok,
            InstallStep::Mount(NtfsDriver::Ntfs3),
            InstallFailure::MountPointFailed,
        ),
        InstallStep::Mount(NtfsDriver::Ntfs3) => if ok {
            InstallPhase::Running(InstallStep::CheckBootSource)
        } else {
            InstallPhase::Running(InstallStep::Mount(NtfsDriver::Ntfs3g))
        },
        InstallStep::Mount(NtfsDriver::Ntfs3g) => or_fail_exec(
            ok,
            InstallStep::CheckBootSource,
            InstallFailure::MountFailed,
        ),
        InstallStep::CheckBootSource => or_fail_exec(
            ok,
            InstallStep::CheckStaleEfi,
            InstallFailure::BootSourceMissing,
        ),
        InstallStep::CheckStaleEfi => if ok {
            InstallPhase::Running(InstallStep::RemoveStaleEfi)
        } else {
            InstallPhase::Running(InstallStep::MakeEfiDirs)
        },
        InstallStep::RemoveStaleEfi => or_fail_exec(
            ok,
            InstallStep::MakeEfiDirs,
            InstallFailure::StaleEfiNotRemoved,
        ),
        InstallStep::MakeEfiDirs => or_fail_exec(
            ok,
            InstallStep::CheckBootManager,
            InstallFailure::EfiDirsFailed,
        ),
        InstallStep::CheckBootManager => or_fail_exec(
            ok,
            InstallStep::CopyFallbackLoader,
            InstallFailure::BootManagerMissing,
        ),
        InstallStep::CopyFallbackLoader => or_fail_exec(
            ok,
            InstallStep::CopyBootManager,
            InstallFailure::CopyFailed,
        ),
        InstallStep::CopyBootManager => or_fail_exec(
            ok,
            InstallStep::CopyBootResources,
            InstallFailure::CopyFailed,
        ),
        InstallStep::CopyBootResources => InstallPhase::Running(InstallStep::CreateBcd),
        InstallStep::CreateBcd => or_fail_exec(
            ok,
            InstallStep::RemoveOldBootEntries,
            InstallFailure::BcdFailed,
        ),
        InstallStep::RemoveOldBootEntries => InstallPhase::Running(InstallStep::CreateBootEntry),
        InstallStep::CreateBootEntry => InstallPhase::Running(InstallStep::FlushAndUnmount),
        InstallStep::FlushAndUnmount => InstallPhase::Done,
    }
}

} // verus!

verus! {

/// The phase after the outcomes `outs`, one per step, starting from
/// `phase`.
pub open spec fn install_run(phase: InstallPhase, outs: Seq<bool>) -> InstallPhase
    decreases outs.len(),
{
    if outs.len() == 0 {
        phase
    } else {
        install_run(spec_install_step(phase, outs[0]), outs.drop_first())
    }
}

/// How many steps at most remain after `step`, counting `step`.
pub open spec fn step_rank(step: InstallStep) -> nat {
    match step {
        InstallStep::ProbeHivex => 1065,
        InstallStep::CheckImage => 1064,
        InstallStep::ClearMounts => 1063,
        InstallStep::Partition => 1062,
        InstallStep::ProbePartitions => 1061,
        InstallStep::SettleAfterProbe => 1060,
        InstallStep::CheckNode { role, retries } => node_base(role) + 2 * (retries as nat) + 1,
        InstallStep::WaitForNode { role, retries } => node_base(role) + 2 * (retries as nat) + 2,
        InstallStep::WriteBridge => 19,
        InstallStep::FormatWindows => 18,
        InstallStep::SettleAfterFormat => 17,
        InstallStep::ApplyImage => 16,
        InstallStep::MakeMountPoint => 15,
        InstallStep::Mount(NtfsDriver::Ntfs3) => 14,
        InstallStep::Mount(NtfsDriver::Ntfs3g) => 13,
        InstallStep::CheckBootSource => 12,
        InstallStep::CheckStaleEfi => 11,
        InstallStep::RemoveStaleEfi => 10,
        InstallStep::MakeEfiDirs => 9,
        InstallStep::CheckBootManager => 8,
        InstallStep::CopyFallbackLoader => 7,
        InstallStep::CopyBootManager => 6,
        InstallStep::CopyBootResources => 5,
        InstallStep::CreateBcd => 4,
        InstallStep::RemoveOldBootEntries => 3,
        InstallStep::CreateBootEntry => 2,
        InstallStep::FlushAndUnmount => 1,
    }
}

/// Where the ranks of the node checks of `role` start.
pub open spec fn node_base(role: NodeRole) -> nat {
    match role {
        NodeRole::Bridge => 540,
        NodeRole::Windows => 20,
    }
}

/// A finished or stopped installation stays finished or stopped, whatever
/// is reported afterwards.
pub proof fn law_install_stops_for_good(phase: InstallPhase, outs: Seq<bool>)
    requires
        !(phase is Running),
    ensures
        install_run(phase, outs) == phase,
    decreases outs.len(),
{
    if outs.len() > 0 {
        law_install_stops_for_good(phase, outs.drop_first());
    }
}

/// Every step leads to a step with fewer steps left, so an installation
/// never goes round in circles (the device-node retries included).
pub proof fn law_install_moves_forward(step: InstallStep, ok: bool)
    ensures
        spec_after(step, ok) matches InstallPhase::Running(next) ==> step_rank(next) < step_rank(
            step,
        ),
{
}

/// An installation ends, finished or stopped, once it has had as many
/// outcomes as its first step's rank.
pub proof fn law_install_ends(outs: Seq<bool>)
    requires
        outs.len() >= step_rank(InstallStep::ProbeHivex),
    ensures
        !(install_run(install_start(), outs) is Running),
{
    lemma_run_ends(InstallStep::ProbeHivex, outs);
}

proof fn lemma_run_ends(step: InstallStep, outs: Seq<bool>)
    requires
        outs.len() >= step_rank(step),
    ensures
        !(install_run(InstallPhase::Running(step), outs) is Running),
    decreases outs.len(),
{
    let next = spec_after(step, outs[0]);
    law_install_moves_forward(step, outs[0]);
    match next {
        InstallPhase::Running(s) => lemma_run_ends(s, outs.drop_first()),
        _ => law_install_stops_for_good(next, outs.drop_first()),
    }
}

/// The disk is written only after the checks: a run reaches partitioning
/// only when the `Win::Hivex` probe found the module and a UEFI:NTFS image
/// is bundled (its first two outcomes), after exactly three steps.
pub proof fn law_partition_only_after_checks(outs: Seq<bool>)
    ensures
        install_run(install_start(), outs) == InstallPhase::Running(InstallStep::Partition)
            ==> outs.len() == 3 && outs[0] && outs[1],
{
    lemma_checks_first(outs);
}

/// An installation finishes only when both checks passed.
pub proof fn law_done_only_after_checks(outs: Seq<bool>)
    ensures
        install_run(install_start(), outs) == InstallPhase::Done ==> outs[0] && outs[1],
{
    lemma_checks_first(outs);
}

proof fn lemma_checks_first(outs: Seq<bool>)
    ensures
        (install_run(install_start(), outs) == InstallPhase::Running(InstallStep::Partition)
            ==> outs.len() == 3 && outs[0] && outs[1]),
        (install_run(install_start(), outs) == InstallPhase::Done ==> outs.len() >= 2 && outs[0]
            && outs[1]),
{
    if outs.len() > 0 {
        let o1 = outs.drop_first();
        assert(install_run(install_start(), outs) == install_run(
            spec_after(InstallStep::ProbeHivex, outs[0]),
            o1,
        ));
        if !outs[0] {
            law_install_stops_for_good(InstallPhase::Failed(InstallFailure::HivexMissing), o1);
        } else if o1.len() > 0 {
            let o2 = o1.drop_first();
            assert(install_run(InstallPhase::Running(InstallStep::CheckImage), o1) == install_run(
                spec_after(InstallStep::CheckImage, o1[0]),
                o2,
            ));
            assert(outs[1] == o1[0]);
            if !o1[0] {
                law_install_stops_for_good(InstallPhase::Failed(InstallFailure::ImageMissing), o2);
            } else if o2.len() > 0 {
                let o3 = o2.drop_first();
                assert(install_run(InstallPhase::Running(InstallStep::ClearMounts), o2)
                    == install_run(InstallPhase::Running(InstallStep::Partition), o3));
                lemma_not_back_to_partition(InstallStep::Partition, o3);
            }
        }
    }
}

/// Once partitioning is under way, a run never comes back to it.
proof fn lemma_not_back_to_partition(step: InstallStep, outs: Seq<bool>)
    requires
        step_rank(step) <= step_rank(InstallStep::Partition),
    ensures
        outs.len() > 0 ==> install_run(InstallPhase::Running(step), outs) != InstallPhase::Running(
            InstallStep::Partition,
        ),
    decreases outs.len(),
{
    if outs.len() > 0 {
        let next = spec_after(step, outs[0]);
        law_install_moves_forward(step, outs[0]);
        match next {
            InstallPhase::Running(s) => {
                if outs.len() > 1 {
                    lemma_not_back_to_partition(s, outs.drop_first());
                }
            },
            _ => law_install_stops_for_good(next, outs.drop_first()),
        }
    }
}

} // verus!

verus! {

// ---------------------------------------------------------------------------
// What every listing satisfies
// ---------------------------------------------------------------------------

proof fn lemma_nonempty_pieces(ps: Seq<Seq<char>>)
    ensures
        forall|i: int|
            0 <= i < nonempty_pieces(ps).len() ==> (#[trigger] nonempty_pieces(ps)[i]).len() > 0,
    decreases ps.len(),
{
    if ps.len() > 0 {
        lemma_nonempty_pieces(ps.drop_last());
        let prev = nonempty_pieces(ps.drop_last());
        let all = nonempty_pieces(ps);
        assert forall|i: int| 0 <= i < all.len() implies (#[trigger] all[i]).len() > 0 by {
            if i < prev.len() {
                assert(all[i] == prev[i]);
            }
        }
    }
}

proof fn lemma_disks_named(ls: Seq<Seq<char>>, k: int)
    ensures
        forall|i: int|
            0 <= i < disks_upto(ls, k).len() ==> (#[trigger] disks_upto(ls, k)[i]).name.len() > 0,
    decreases k,
{
    if k > 0 {
        lemma_disks_named(ls, k - 1);
        lemma_nonempty_pieces(splitn(ls[k - 1], 3, Sep::Whitespace));
        let prev = disks_upto(ls, k - 1);
        let all = disks_upto(ls, k);
        assert forall|i: int| 0 <= i < all.len() implies (#[trigger] all[i]).name.len() > 0 by {
            if i < prev.len() {
                assert(all[i] == prev[i]);
            }
        }
    }
}

/// Every disk an `lsblk` listing shows has a name.
pub proof fn law_disks_are_named(text: Seq<char>)
    ensures
        forall|i: int|
            0 <= i < spec_parse_disks(text).len() ==> (#[trigger] spec_parse_disks(text)[i]).name.len()
                > 0,
{
    lemma_disks_named(lines(text), lines(text).len() as int);
}

proof fn lemma_installable_images(s: Seq<ImageInfoView>)
    ensures
        forall|i: int|
            0 <= i < installable_images(s).len() ==> installable(
                (#[trigger] installable_images(s)[i]).name,
            ),
    decreases s.len(),
{
    if s.len() > 0 {
        lemma_installable_images(s.drop_last());
        let prev = installable_images(s.drop_last());
        let all = installable_images(s);
        assert forall|i: int| 0 <= i < all.len() implies installable((#[trigger] all[i]).name) by {
            if i < prev.len() {
                assert(all[i] == prev[i]);
            }
        }
    }
}

/// No image offered for installation is Windows PE or Setup.
pub proof fn law_images_are_installable(text: Seq<char>)
    ensures
        forall|i: int|
            0 <= i < spec_parse_images(text).len() ==> installable(
                (#[trigger] spec_parse_images(text)[i]).name,
            ),
{
    let ls = lines(text);
    let st = image_scan(ls, ls.len() as int);
    lemma_installable_images(
        match (st.index, st.name) {
            (Some(i), Some(n)) => st.done.push(ImageInfoView { index: i, name: n }),
            _ => st.done,
        },
    );
}

} // verus!

verus! {

// ---------------------------------------------------------------------------
// The commands of the installation
// ---------------------------------------------------------------------------

/// A program the installation runs on the disk, its partitions or the
/// mounted Windows partition.
#[derive(Clone, Copy, Debug, PartialEq, Eq, Structural)]
pub enum Program {
    Fuser,
    Umount,
    Swapoff,
    Sfdisk,
    Partprobe,
    Udevadm,
    Dd,
    Mkntfs,
    Wimlib,
    Mount,
    Efibootmgr,
    Sync,
}

/// One run of a program with its arguments, and the text written to its
/// standard input, if any.
#[derive(Debug, Clone)]
pub struct ToolRun {
    pub program: Program,
    pub args: Vec<String>,
    pub input: Option<String>,
}

/// Mathematical value of a [`ToolRun`].
pub struct ToolRunView {
    pub program: Program,
    pub args: Seq<Seq<char>>,
    pub input: Option<Seq<char>>,
}

impl View for ToolRun {
    type V = ToolRunView;

    open spec fn view(&self) -> ToolRunView {
        ToolRunView {
            program: self.program,
            args: self.args@.map_values(|a: String| a@),
            input: match self.input {
                Some(t) => Some(t@),
                None => None,
            },
        }
    }
}

/// Mathematical value of an [`InstallLayout`].
pub struct InstallLayoutView {
    pub disk_dev: Seq<char>,
    pub bridge_part: Seq<char>,
    pub reserved_part: Seq<char>,
    pub windows_part: Seq<char>,
}

impl View for InstallLayout {
    type V = InstallLayoutView;

    open spec fn view(&self) -> InstallLayoutView {
        InstallLayoutView {
            disk_dev: self.disk_dev@,
            bridge_part: self.bridge_part@,
            reserved_part: self.reserved_part@,
            windows_part: self.windows_part@,
        }
    }
}

/// The layout [`install_layout`] gives disk `name`.
pub open spec fn layout_of(name: Seq<char>) -> InstallLayoutView {
    InstallLayoutView {
        disk_dev: "/dev/"@ + name,
        bridge_part: spec_part(name, 1),
        reserved_part: spec_part(name, 2),
        windows_part: spec_part(name, 3),
    }
}

/// A run of `program` with `args` and nothing written to its input.
pub open spec fn run_of(program: Program, args: Seq<Seq<char>>) -> ToolRunView {
    ToolRunView { program, args, input: None }
}

/// Releasing device `d`: kill its users, unmount it, stop swapping on it.
pub open spec fn release_runs(d: Seq<char>) -> Seq<ToolRunView> {
    seq![
        run_of(Program::Fuser, seq!["-km"@, d]),
        run_of(Program::Umount, seq!["-Rl"@, d]),
        run_of(Program::Swapoff, seq![d]),
    ]
}

/// The programs `step` runs, in order, for layout `l`: `esd` is the ESD
/// file, `image_index` the image to apply, `image_file` the file the
/// UEFI:NTFS image was written to, `loader` the fallback loader's name.
/// Steps that only check or copy files run none of these programs.
pub open spec fn spec_step_runs(
    step: InstallStep,
    l: InstallLayoutView,
    esd: Seq<char>,
    image_index: u32,
    image_file: Seq<char>,
    loader: Seq<char>,
) -> Seq<ToolRunView> {
    match step {
        InstallStep::ClearMounts => seq![run_of(Program::Umount, seq!["-Rl"@, MOUNT_POINT@])]
            + release_runs(l.disk_dev) + release_runs(l.bridge_part) + release_runs(
            l.reserved_part,
        ) + release_runs(l.windows_part),
        InstallStep::Partition => seq![
            ToolRunView {
                program: Program::Sfdisk,
                args: seq![
                    "--label"@,
                    "gpt"@,
                    "--wipe"@,
                    "always"@,
                    "--wipe-partitions"@,
                    "always"@,
                    l.disk_dev,
                ],
                input: Some(PARTITION_TABLE@),
            },
        ],
        InstallStep::ProbePartitions => seq![run_of(Program::Partprobe, seq![l.disk_dev])],
        InstallStep::SettleAfterProbe => seq![
            run_of(Program::Udevadm, seq!["settle"@, "--timeout=15"@]),
        ],
        InstallStep::WriteBridge => seq![
            run_of(
                Program::Dd,
                seq![
                    "if="@ + image_file,
                    "of="@ + l.bridge_part,
                    "bs=4M"@,
                    "conv=fdatasync"@,
                    "status=none"@,
                ],
            ),
        ],
        InstallStep::FormatWindows => seq![
            run_of(Program::Mkntfs, seq!["-f"@, "-L"@, "Windows"@, l.windows_part]),
        ],
        InstallStep::SettleAfterFormat => seq![
            run_of(Program::Udevadm, seq!["settle"@, "--timeout=10"@]),
        ],
        InstallStep::ApplyImage => seq![
            run_of(
                Program::Wimlib,
                seq!["apply"@, esd, decimal(image_index as nat), l.windows_part],
            ),
        ],
        InstallStep::Mount(driver) => seq![
            run_of(
                Program::Mount,
                seq![
                    "-t"@,
                    match driver {
                        NtfsDriver::Ntfs3 => "ntfs3"@,
                        NtfsDriver::Ntfs3g => "ntfs-3g"@,
                    },
                    l.windows_part,
                    MOUNT_POINT@,
                ],
            ),
        ],
        InstallStep::CreateBootEntry => seq![
            run_of(
                Program::Efibootmgr,
                seq![
                    "--create"@,
                    "--disk"@,
                    l.disk_dev,
                    "--part"@,
                    "1"@,
                    "--label"@,
                    "Windows (UEFI:NTFS)"@,
                    "--loader"@,
                    "\\EFI\\Boot\\"@ + loader,
                ],
            ),
        ],
        InstallStep::FlushAndUnmount => seq![
            run_of(Program::Sync, Seq::empty()),
            run_of(Program::Fuser, seq!["-km"@, MOUNT_POINT@]),
            run_of(Program::Umount, seq!["-R"@, MOUNT_POINT@]),
            run_of(Program::Umount, seq!["-Rl"@, MOUNT_POINT@]),
        ],
        _ => Seq::empty(),
    }
}

/// A `String` holding `x`.
fn text(x: &str) -> (s: String)
    ensures
        s@ == x@,
{
    x.to_owned()
}

/// `x` followed by `y`.
fn joined(x: &str, y: &str) -> (s: String)
    ensures
        s@ == x@ + y@,
{
    let mut s = String::new();
    push_str(&mut s, x);
    push_str(&mut s, y);
    assert(s@ =~= x@ + y@);
    s
}

/// A run of `program` with `args`.
fn mk_run(program: Program, args: Vec<String>) -> (r: ToolRun)
    ensures
        r@ == run_of(program, args@.map_values(|a: String| a@)),
{
    ToolRun { program, args, input: None }
}

/// The runs releasing device `d`.
fn release(d: &str, r: &mut Vec<ToolRun>)
    ensures
        final(r)@.map_values(|x: ToolRun| x@) == old(r)@.map_values(|x: ToolRun| x@) + release_runs(
            d@,
        ),
{
    let a = vec![text("-km"), text(d)];
    assert(a@.map_values(|s: String| s@) =~= seq!["-km"@, d@]);
    let b = vec![text("-Rl"), text(d)];
    assert(b@.map_values(|s: String| s@) =~= seq!["-Rl"@, d@]);
    let c = vec![text(d)];
    assert(c@.map_values(|s: String| s@) =~= seq![d@]);
    r.push(mk_run(Program::Fuser, a));
    r.push(mk_run(Program::Umount, b));
    r.push(mk_run(Program::Swapoff, c));
    assert(r@.map_values(|x: ToolRun| x@) =~= old(r)@.map_values(|x: ToolRun| x@) + release_runs(
        d@,
    ));
}

/// The programs `step` runs, in order (see [`spec_step_runs`]).
pub fn step_runs(
    step: InstallStep,
    l: &InstallLayout,
    esd: &str,
    image_index: u32,
    image_file: &str,
    loader: &str,
) -> (r: Vec<ToolRun>)
    ensures
        r@.map_values(|x: ToolRun| x@) == spec_step_runs(
            step,
            l@,
            esd@,
            image_index,
            image_file@,
            loader@,
        ),
{
    let ghost want = spec_step_runs(step, l@, esd@, image_index, image_file@, loader@);
    let mut r: Vec<ToolRun> = Vec::new();
    match step {
        InstallStep::ClearMounts => {
            let a = vec![text("-Rl"), text(MOUNT_POINT)];
            assert(a@.map_values(|s: String| s@) =~= seq!["-Rl"@, MOUNT_POINT@]);
            r.push(mk_run(Program::Umount, a));
            release(l.disk_dev.as_str(), &mut r);
            release(l.bridge_part.as_str(), &mut r);
            release(l.reserved_part.as_str(), &mut r);
            release(l.windows_part.as_str(), &mut r);
        },
        InstallStep::Partition => {
            let a = vec![
                text("--label"),
                text("gpt"),
                text("--wipe"),
                text("always"),
                text("--wipe-partitions"),
                text("always"),
                text(l.disk_dev.as_str()),
            ];
            assert(a@.map_values(|s: String| s@) =~= seq![
                "--label"@,
                "gpt"@,
                "--wipe"@,
                "always"@,
                "--wipe-partitions"@,
                "always"@,
                l.disk_dev@,
            ]);
            r.push(ToolRun { program: Program::Sfdisk, args: a, input: Some(text(PARTITION_TABLE)) });
        },
        InstallStep::ProbePartitions => {
            let a = vec![text(l.disk_dev.as_str())];
            assert(a@.map_values(|s: String| s@) =~= seq![l.disk_dev@]);
            r.push(mk_run(Program::Partprobe, a));
        },
        InstallStep::SettleAfterProbe => {
            let a = vec![text("settle"), text("--timeout=15")];
            assert(a@.map_values(|s: String| s@) =~= seq!["settle"@, "--timeout=15"@]);
            r.push(mk_run(Program::Udevadm, a));
        },
        InstallStep::WriteBridge => {
            let a = vec![
                joined("if=", image_file),
                joined("of=", l.bridge_part.as_str()),
                text("bs=4M"),
                text("conv=fdatasync"),
                text("status=none"),
            ];
            assert(a@.map_values(|s: String| s@) =~= seq![
                "if="@ + image_file@,
                "of="@ + l.bridge_part@,
                "bs=4M"@,
                "conv=fdatasync"@,
                "status=none"@,
            ]);
            r.push(mk_run(Program::Dd, a));
        },
        InstallStep::FormatWindows => {
            let a = vec![text("-f"), text("-L"), text("Windows"), text(l.windows_part.as_str())];
            assert(a@.map_values(|s: String| s@) =~= seq!["-f"@, "-L"@, "Windows"@, l.windows_part@]);
            r.push(mk_run(Program::Mkntfs, a));
        },
        InstallStep::SettleAfterFormat => {
            let a = vec![text("settle"), text("--timeout=10")];
            assert(a@.map_values(|s: String| s@) =~= seq!["settle"@, "--timeout=10"@]);
            r.push(mk_run(Program::Udevadm, a));
        },
        InstallStep::ApplyImage => {
            let mut idx = String::new();
            push_decimal(&mut idx, image_index as u64);
            assert(idx@ =~= decimal(image_index as nat));
            let a = vec![text("apply"), text(esd), idx, text(l.windows_part.as_str())];
            assert(a@.map_values(|s: String| s@) =~= seq![
                "apply"@,
                esd@,
                decimal(image_index as nat),
                l.windows_part@,
            ]);
            r.push(mk_run(Program::Wimlib, a));
        },
        InstallStep::Mount(driver) => {
            let kind = match driver {
                NtfsDriver::Ntfs3 => text("ntfs3"),
                NtfsDriver::Ntfs3g => text("ntfs-3g"),
            };
            let ghost k = match driver {
                NtfsDriver::Ntfs3 => "ntfs3"@,
                NtfsDriver::Ntfs3g => "ntfs-3g"@,
            };
            let a = vec![text("-t"), kind, text(l.windows_part.as_str()), text(MOUNT_POINT)];
            assert(a@.map_values(|s: String| s@) =~= seq!["-t"@, k, l.windows_part@, MOUNT_POINT@]);
            r.push(mk_run(Program::Mount, a));
        },
        InstallStep::CreateBootEntry => {
            let a = vec![
                text("--create"),
                text("--disk"),
                text(l.disk_dev.as_str()),
                text("--part"),
                text("1"),
                text("--label"),
                text("Windows (UEFI:NTFS)"),
                text("--loader"),
                joined("\\EFI\\Boot\\", loader),
            ];
            assert(a@.map_values(|s: String| s@) =~= seq![
                "--create"@,
                "--disk"@,
                l.disk_dev@,
                "--part"@,
                "1"@,
                "--label"@,
                "Windows (UEFI:NTFS)"@,
                "--loader"@,
                "\\EFI\\Boot\\"@ + loader@,
            ]);
            r.push(mk_run(Program::Efibootmgr, a));
        },
        InstallStep::FlushAndUnmount => {
            let none: Vec<String> = Vec::new();
            assert(none@.map_values(|s: String| s@) =~= Seq::<Seq<char>>::empty());
            r.push(mk_run(Program::Sync, none));
            let a = vec![text("-km"), text(MOUNT_POINT)];
            assert(a@.map_values(|s: String| s@) =~= seq!["-km"@, MOUNT_POINT@]);
            r.push(mk_run(Program::Fuser, a));
            let b = vec![text("-R"), text(MOUNT_POINT)];
            assert(b@.map_values(|s: String| s@) =~= seq!["-R"@, MOUNT_POINT@]);
            r.push(mk_run(Program::Umount, b));
            let c = vec![text("-Rl"), text(MOUNT_POINT)];
            assert(c@.map_values(|s: String| s@) =~= seq!["-Rl"@, MOUNT_POINT@]);
            r.push(mk_run(Program::Umount, c));
        },
        _ => {},
    }
    assert(r@.map_values(|x: ToolRun| x@) =~~= want);
    r
}

/// The run deleting firmware boot entry `num`.
pub fn remove_entry_run(num: &str) -> (r: ToolRun)
    ensures
        r@ == run_of(Program::Efibootmgr, seq!["-b"@, num@, "-B"@]),
{
    let a = vec![text("-b"), text(num), text("-B")];
    assert(a@.map_values(|s: String| s@) =~= seq!["-b"@, num@, "-B"@]);
    mk_run(Program::Efibootmgr, a)
}

/// `a` starts with `p`.
pub open spec fn starts_with(a: Seq<char>, p: Seq<char>) -> bool {
    strip_prefix(a, p) is Some
}

/// The argument `a` names no device but disk `name` and its three
/// partitions: if it starts with `/dev/` it is one of them, and if it is a
/// `dd` output `of=/dev/…` it is the bridge partition.
pub open spec fn names_only_disk(a: Seq<char>, name: Seq<char>) -> bool {
    &&& starts_with(a, "/dev/"@) ==> (a == "/dev/"@ + name || a == spec_part(name, 1) || a
        == spec_part(name, 2) || a == spec_part(name, 3))
    &&& starts_with(a, "of=/dev/"@) ==> a == "of="@ + spec_part(name, 1)
}

/// An argument whose first character is neither `/` nor `o` names no
/// device.
proof fn lemma_plain_arg(a: Seq<char>, name: Seq<char>)
    requires
        a.len() > 0,
        a[0] != '/',
        a[0] != 'o',
    ensures
        names_only_disk(a, name),
{
    reveal_strlit("/dev/");
    reveal_strlit("of=/dev/");
    if starts_with(a, "/dev/"@) {
        assert(a.take(5)[0] == a[0]);
    }
    if starts_with(a, "of=/dev/"@) {
        assert(a.take(8)[0] == a[0]);
    }
}

/// An argument starting with `/` but not with `/d` names no device.
proof fn lemma_rooted_arg(a: Seq<char>, name: Seq<char>)
    requires
        a.len() > 1,
        a[0] == '/',
        a[1] != 'd',
    ensures
        names_only_disk(a, name),
{
    reveal_strlit("/dev/");
    reveal_strlit("of=/dev/");
    if starts_with(a, "/dev/"@) {
        assert(a.take(5)[1] == a[1]);
    }
    if starts_with(a, "of=/dev/"@) {
        assert(a.take(8)[0] == a[0]);
    }
}

/// The disk and its partitions are names the layout allows.
proof fn lemma_layout_args(name: Seq<char>)
    ensures
        names_only_disk(layout_of(name).disk_dev, name),
        names_only_disk(layout_of(name).bridge_part, name),
        names_only_disk(layout_of(name).reserved_part, name),
        names_only_disk(layout_of(name).windows_part, name),
        names_only_disk("of="@ + spec_part(name, 1), name),
{
    reveal_strlit("/dev/");
    reveal_strlit("of=/dev/");
    reveal_strlit("of=");
    let l = layout_of(name);
    assert(l.disk_dev[0] == '/');
    assert(l.bridge_part[0] == '/');
    assert(l.reserved_part[0] == '/');
    assert(l.windows_part[0] == '/');
    if starts_with(l.disk_dev, "of=/dev/"@) {
        assert(l.disk_dev.take(8)[0] == l.disk_dev[0]);
    }
    if starts_with(l.bridge_part, "of=/dev/"@) {
        assert(l.bridge_part.take(8)[0] == l.bridge_part[0]);
    }
    if starts_with(l.reserved_part, "of=/dev/"@) {
        assert(l.reserved_part.take(8)[0] == l.reserved_part[0]);
    }
    if starts_with(l.windows_part, "of=/dev/"@) {
        assert(l.windows_part.take(8)[0] == l.windows_part[0]);
    }
    let o = "of="@ + spec_part(name, 1);
    assert(o[0] == 'o');
    if starts_with(o, "/dev/"@) {
        assert(o.take(5)[0] == o[0]);
    }
}

/// Decimal numbers start with a digit.
proof fn lemma_decimal_first(n: nat)
    ensures
        decimal(n).len() > 0,
        '0' <= decimal(n)[0] <= '9',
    decreases n,
{
    if n >= 10 {
        lemma_decimal_first(n / 10);
        assert(decimal(n)[0] == decimal(n / 10)[0]);
    }
}

/// Every argument of every run of `rs` names no device but disk `name`
/// and its partitions.
pub open spec fn runs_name_only_disk(rs: Seq<ToolRunView>, name: Seq<char>) -> bool {
    forall|i: int, j: int|
        0 <= i < rs.len() && 0 <= j < rs[i].args.len() ==> names_only_disk(
            #[trigger] rs[i].args[j],
            name,
        )
}

/// The destructive commands reach only the chosen disk: whatever the step,
/// every argument of every program the installation runs that names a
/// device (`/dev/…`, or `dd`'s `of=/dev/…`) names disk `name` or one of
/// its three partitions, the `dd` output only the bridge partition. This
/// holds for any ESD path that itself names no device.
pub proof fn law_commands_name_only_the_disk(
    step: InstallStep,
    name: Seq<char>,
    esd: Seq<char>,
    image_index: u32,
    image_file: Seq<char>,
    loader: Seq<char>,
)
    requires
        !starts_with(esd, "/dev/"@),
        !starts_with(esd, "of=/dev/"@),
    ensures
        runs_name_only_disk(
            spec_step_runs(step, layout_of(name), esd, image_index, image_file, loader),
            name,
        ),
{
    let l = layout_of(name);
    let rs = spec_step_runs(step, l, esd, image_index, image_file, loader);
    lemma_layout_args(name);
    reveal_strlit("-km");
    reveal_strlit("-Rl");
    reveal_strlit("-R");
    reveal_strlit("/mnt/windows");
    reveal_strlit("--label");
    reveal_strlit("gpt");
    reveal_strlit("--wipe");
    reveal_strlit("always");
    reveal_strlit("--wipe-partitions");
    reveal_strlit("settle");
    reveal_strlit("--timeout=15");
    reveal_strlit("--timeout=10");
    reveal_strlit("if=");
    reveal_strlit("bs=4M");
    reveal_strlit("conv=fdatasync");
    reveal_strlit("status=none");
    reveal_strlit("-f");
    reveal_strlit("-L");
    reveal_strlit("Windows");
    reveal_strlit("apply");
    reveal_strlit("-t");
    reveal_strlit("ntfs3");
    reveal_strlit("ntfs-3g");
    reveal_strlit("--create");
    reveal_strlit("--disk");
    reveal_strlit("--part");
    reveal_strlit("1");
    reveal_strlit("Windows (UEFI:NTFS)");
    reveal_strlit("--loader");
    reveal_strlit("\\EFI\\Boot\\");
    lemma_plain_arg("-km"@, name);
    lemma_plain_arg("-Rl"@, name);
    lemma_plain_arg("-R"@, name);
    lemma_rooted_arg(MOUNT_POINT@, name);
    lemma_plain_arg("--label"@, name);
    lemma_plain_arg("gpt"@, name);
    lemma_plain_arg("--wipe"@, name);
    lemma_plain_arg("always"@, name);
    lemma_plain_arg("--wipe-partitions"@, name);
    lemma_plain_arg("settle"@, name);
    lemma_plain_arg("--timeout=15"@, name);
    lemma_plain_arg("--timeout=10"@, name);
    lemma_plain_arg("if="@ + image_file, name);
    lemma_plain_arg("bs=4M"@, name);
    lemma_plain_arg("conv=fdatasync"@, name);
    lemma_plain_arg("status=none"@, name);
    lemma_plain_arg("-f"@, name);
    lemma_plain_arg("-L"@, name);
    lemma_plain_arg("Windows"@, name);
    lemma_plain_arg("apply"@, name);
    lemma_decimal_first(image_index as nat);
    lemma_plain_arg(decimal(image_index as nat), name);
    lemma_plain_arg("-t"@, name);
    lemma_plain_arg("ntfs3"@, name);
    lemma_plain_arg("ntfs-3g"@, name);
    lemma_plain_arg("--create"@, name);
    lemma_plain_arg("--disk"@, name);
    lemma_plain_arg("--part"@, name);
    lemma_plain_arg("1"@, name);
    lemma_plain_arg("Windows (UEFI:NTFS)"@, name);
    lemma_plain_arg("--loader"@, name);
    lemma_plain_arg("\\EFI\\Boot\\"@ + loader, name);
    assert(names_only_disk(esd, name));
    assert forall|i: int, j: int| 0 <= i < rs.len() && 0 <= j < rs[i].args.len() implies names_only_disk(
        #[trigger] rs[i].args[j],
        name,
    ) by {
        match step {
            InstallStep::ClearMounts => {
                let rel = |d: Seq<char>| release_runs(d);
                assert(rs == seq![run_of(Program::Umount, seq!["-Rl"@, MOUNT_POINT@])] + rel(
                    l.disk_dev,
                ) + rel(l.bridge_part) + rel(l.reserved_part) + rel(l.windows_part));
                if i == 0 {
                } else {
                    let k = (i - 1) % 3;
                    let d = if i <= 3 {
                        l.disk_dev
                    } else if i <= 6 {
                        l.bridge_part
                    } else if i <= 9 {
                        l.reserved_part
                    } else {
                        l.windows_part
                    };
                    assert(rs[i] == release_runs(d)[k]);
                }
            },
            _ => {},
        }
    }
}

} // verus!

verus! {

// ---------------------------------------------------------------------------
// What the procedure and its listings promise
// ---------------------------------------------------------------------------

/// No image offered for installation has `Windows Setup`, `Windows PE` or
/// `Setup Media` in its name.
pub proof fn law_no_setup_or_pe_image(text: Seq<char>)
    ensures
        forall|i: int|
            0 <= i < spec_parse_images(text).len() ==> {
                let n = (#[trigger] spec_parse_images(text)[i]).name;
                &&& !contains(n, "Windows Setup"@)
                &&& !contains(n, "Windows PE"@)
                &&& !contains(n, "Setup Media"@)
            },
{
    law_images_are_installable(text);
}

/// Mounting stops at the first driver that succeeds: whichever driver
/// mounted the partition, the boot files are checked next; `ntfs-3g` is
/// tried only when `ntfs3` failed.
pub proof fn law_mount_stops_at_first_success(d: NtfsDriver)
    ensures
        spec_after(InstallStep::Mount(d), true) == InstallPhase::Running(
            InstallStep::CheckBootSource,
        ),
        spec_after(InstallStep::Mount(NtfsDriver::Ntfs3), false) == InstallPhase::Running(
            InstallStep::Mount(NtfsDriver::Ntfs3g),
        ),
{
}

/// The kernel is asked to reread the partition table of the whole disk:
/// the probe step runs `partprobe` on `/dev/<name>` and nothing else.
pub proof fn law_probe_names_whole_disk(
    name: Seq<char>,
    esd: Seq<char>,
    image_index: u32,
    image_file: Seq<char>,
    loader: Seq<char>,
)
    ensures
        spec_step_runs(
            InstallStep::ProbePartitions,
            layout_of(name),
            esd,
            image_index,
            image_file,
            loader,
        ) == seq![
            ToolRunView { program: Program::Partprobe, args: seq!["/dev/"@ + name], input: None },
        ],
{
}

/// The steps whose failure stops the installation.
pub open spec fn is_required(step: InstallStep) -> bool {
    match step {
        InstallStep::ProbeHivex | InstallStep::CheckImage | InstallStep::Partition
        | InstallStep::ProbePartitions | InstallStep::WriteBridge | InstallStep::FormatWindows
        | InstallStep::ApplyImage | InstallStep::MakeMountPoint | InstallStep::CheckBootSource
        | InstallStep::RemoveStaleEfi | InstallStep::MakeEfiDirs | InstallStep::CheckBootManager
        | InstallStep::CopyFallbackLoader | InstallStep::CopyBootManager | InstallStep::CreateBcd => true,
        InstallStep::Mount(NtfsDriver::Ntfs3g) => true,
        _ => false,
    }
}

/// Running the outcomes in two parts is running them at once.
proof fn lemma_install_run_split(p: InstallPhase, outs: Seq<bool>, k: int)
    requires
        0 <= k <= outs.len(),
    ensures
        install_run(p, outs) == install_run(install_run(p, outs.take(k)), outs.skip(k)),
    decreases k,
{
    if k == 0 {
        assert(outs.take(0) =~= Seq::<bool>::empty());
        assert(outs.skip(0) =~= outs);
    } else {
        let d = outs.drop_first();
        lemma_install_run_split(spec_install_step(p, outs[0]), d, k - 1);
        assert(outs.take(k).drop_first() =~= d.take(k - 1));
        assert(outs.take(k)[0] == outs[0]);
        assert(d.skip(k - 1) =~= outs.skip(k));
    }
}

/// An installation finishes only when every required step it went through
/// succeeded: if after the first `k` outcomes a required step (the BCD
/// store's creation among them) is under way, and the run ends `Done`, the
/// outcome reported for that step was a success.
pub proof fn law_done_needs_every_required_step(outs: Seq<bool>, k: int, step: InstallStep)
    requires
        0 <= k < outs.len(),
        install_run(install_start(), outs.take(k)) == InstallPhase::Running(step),
        is_required(step),
        install_run(install_start(), outs) == InstallPhase::Done,
    ensures
        outs[k],
{
    if !outs[k] {
        lemma_install_run_split(install_start(), outs, k);
        let rest = outs.skip(k);
        assert(rest[0] == outs[k]);
        let failed = spec_after(step, false);
        assert(failed is Failed);
        assert(install_run(InstallPhase::Running(step), rest) == install_run(failed, rest.drop_first()));
        law_install_stops_for_good(failed, rest.drop_first());
    }
}

} // verus!
