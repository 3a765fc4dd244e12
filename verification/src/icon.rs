//! Icons: the frames of an ICO container, the numbering of the icon
//! resources of an executable, and the group-icon resource that lists them.
use vstd::prelude::*;
use vstd::set_lib::{lemma_int_range, lemma_len_subset, set_int_range};

verus! {

/// The square sizes of the frames of a generated ICO container.
pub fn ico_sizes() -> (r: Vec<u32>)
    ensures
        r@ == seq![16u32, 20, 24, 32, 40, 48, 64, 96, 128, 256],
{
    vec![16, 20, 24, 32, 40, 48, 64, 96, 128, 256]
}

/// The PNG images of the app that are replaced by the 256-pixel icon, with
/// their size.
pub fn png_square_sizes() -> (r: Vec<(u32, &'static str)>)
    ensures
        r@.len() == 3,
        r@[0].0 == 256 && r@[0].1@ == "assets/images/icon.png"@,
        r@[1].0 == 256 && r@[1].1@ == "assets/images/icon_gray.png"@,
        r@[2].0 == 256 && r@[2].1@ == "assets/images/taskbar_icon.png"@,
{
    vec![
        (256, "assets/images/icon.png"),
        (256, "assets/images/icon_gray.png"),
        (256, "assets/images/taskbar_icon.png"),
    ]
}

/// An icon made from a source picture: the ICO container and a 256-pixel PNG.
pub struct PreparedIcon {
    pub ico_bytes: Vec<u8>,
    pub png_256: Vec<u8>,
}

/// Why an icon could not be made from a source picture.
#[derive(Debug, PartialEq, Eq)]
pub enum PrepareError {
    /// The source is not a PNG the `image` crate decodes, or the frame of
    /// this size could not be encoded.
    Frame { size: u32 },
    /// The `ico` crate could not build the container from the frames.
    Container,
}

/// `image`: decodes `png` as a PNG (`load_from_memory_with_format`),
/// resamples it to `size` by `size` pixels with the Lanczos3 filter
/// (`imageops::resize`) and encodes the result as a PNG
/// (`DynamicImage::write_to`); `None` where decoding or encoding fails.
/// The resampling runs in floating point, whose results may differ from
/// machine to machine, so nothing is stated of the bytes.
#[verifier::external_body]
fn resize_png(png: &[u8], size: u32) -> (r: Option<Vec<u8>>)
    requires
        0 < size <= 256,
{
    let img = image::load_from_memory_with_format(png, image::ImageFormat::Png).ok()?;
    let resized = image::imageops::resize(&img.to_rgba8(), size, size, image::imageops::FilterType::Lanczos3);
    let mut out: Vec<u8> = Vec::new();
    image::DynamicImage::ImageRgba8(resized).write_to(&mut std::io::Cursor::new(&mut out), image::ImageFormat::Png).ok()?;
    Some(out)
}

/// The icon container that the `ico` crate builds from PNG frames, in
/// order, or `None` where it cannot.
pub uninterp spec fn ico_container(frames: Seq<Seq<u8>>) -> Option<Seq<u8>>;

/// The plain values of a list of frames.
pub open spec fn frames_view(frames: Seq<Vec<u8>>) -> Seq<Seq<u8>> {
    frames.map_values(|f: Vec<u8>| f@)
}

/// `ico`: reads each frame back as a PNG image (`IconImage::read_png`),
/// encodes it as an entry (`IconDirEntry::encode`), adds the entries in
/// order to an icon directory and writes it (`IconDir::write`); `None`
/// where any of these fails. The bytes depend on the frames alone (the
/// crate orders palettes by colour).
#[verifier::external_body]
fn write_ico(frames: &Vec<Vec<u8>>) -> (r: Option<Vec<u8>>)
    ensures
        match r {
            Some(v) => ico_container(frames_view(frames@)) == Some(v@),
            None => ico_container(frames_view(frames@)) is None,
        },
{
    let mut dir = ico::IconDir::new(ico::ResourceType::Icon);
    for f in frames {
        let img = ico::IconImage::read_png(std::io::Cursor::new(f)).ok()?;
        dir.add_entry(ico::IconDirEntry::encode(&img).ok()?);
    }
    let mut out: Vec<u8> = Vec::new();
    dir.write(&mut out).ok()?;
    Some(out)
}

/// The icon made from its frames, the sizes of `ico_sizes` in order: the
/// container of all of them and, as the 256-pixel picture, the last one.
pub fn icon_from_frames(frames: Vec<Vec<u8>>) -> (r: Result<PreparedIcon, PrepareError>)
    requires
        frames@.len() > 0,
    ensures
        match ico_container(frames_view(frames@)) {
            Some(c) => r matches Ok(p) && p.ico_bytes@ == c && p.png_256@ == frames@.last()@,
            None => r == Err::<PreparedIcon, PrepareError>(PrepareError::Container),
        },
{
    match write_ico(&frames) {
        None => Err(PrepareError::Container),
        Some(ico_bytes) => {
            let last = frames.len() - 1;
            let png_256 = crate::text::copy_bytes(frames[last].as_slice());
            Ok(PreparedIcon { ico_bytes, png_256 })
        },
    }
}

/// Makes the icon from a source PNG: the picture resampled to each size of
/// `ico_sizes`, in order, put into an icon container, and the 256-pixel
/// frame as the PNG; fails naming the first size whose frame could not be
/// made, or where the container could not be built.
pub fn prepare_icon(png: &[u8]) -> (r: Result<PreparedIcon, PrepareError>)
    ensures
        r matches Ok(p) ==> exists|fs: Seq<Seq<u8>>|
            fs.len() == 10 && #[trigger] ico_container(fs) == Some(p.ico_bytes@) && p.png_256@ == fs[9],
        r matches Err(PrepareError::Frame { size }) ==> seq![16u32, 20, 24, 32, 40, 48, 64, 96, 128, 256].contains(
            size,
        ),
        r matches Err(PrepareError::Container) ==> exists|fs: Seq<Seq<u8>>|
            fs.len() == 10 && #[trigger] ico_container(fs) is None,
{
    let sizes = ico_sizes();
    let mut frames: Vec<Vec<u8>> = Vec::new();
    let mut k: usize = 0;
    while k < sizes.len()
        invariant
            sizes@ == seq![16u32, 20, 24, 32, 40, 48, 64, 96, 128, 256],
            k <= sizes@.len(),
            frames@.len() == k,
        decreases sizes@.len() - k,
    {
        let size = sizes[k];
        match resize_png(png, size) {
            None => {
                assert(sizes@[k as int] == size);
                return Err(PrepareError::Frame { size });
            },
            Some(f) => frames.push(f),
        }
        k = k + 1;
    }
    let ghost fs = frames_view(frames@);
    let r = icon_from_frames(frames);
    proof {
        assert(fs.len() == 10);
        assert(fs[9] == frames@[9]@);
    }
    r
}

/// One frame of an ICO container: its directory entry and its image data.
pub struct IconEntry {
    pub width: u8,
    pub height: u8,
    pub colors: u8,
    pub reserved: u8,
    pub planes: u16,
    pub bitcount: u16,
    pub size: u32,
    pub offset: u32,
    pub data: Vec<u8>,
}

/// Why an ICO container was refused.
#[derive(Debug, PartialEq, Eq)]
pub enum IconError {
    /// The container ends before its directory or a frame's data does.
    Truncated,
    /// The first four bytes are not those of an icon container.
    BadHeader,
    /// The container lists no frame.
    NoFrames,
}

/// The little-endian 16-bit number in `b` at `at`.
pub open spec fn le16_at(b: Seq<u8>, at: int) -> nat {
    (b[at] + 256 * b[at + 1]) as nat
}

/// The little-endian 32-bit number in `b` at `at`.
pub open spec fn le32_at(b: Seq<u8>, at: int) -> nat {
    (b[at] + 256 * b[at + 1] + 65536 * b[at + 2] + 16777216 * b[at + 3]) as nat
}

/// The little-endian bytes of a 16-bit number.
pub open spec fn le16(v: nat) -> Seq<u8> {
    seq![(v % 256) as u8, ((v / 256) % 256) as u8]
}

/// The little-endian bytes of a 32-bit number.
pub open spec fn le32(v: nat) -> Seq<u8> {
    seq![(v % 256) as u8, ((v / 256) % 256) as u8, ((v / 65536) % 256) as u8, ((v / 16777216) % 256) as u8]
}

/// The number of frames an ICO container announces.
pub open spec fn ico_count(b: Seq<u8>) -> nat {
    le16_at(b, 4)
}

/// Where the directory entry of frame `k` starts.
pub open spec fn ico_entry_at(k: int) -> int {
    6 + 16 * k
}

/// The data offset the directory entry of frame `k` gives.
pub open spec fn ico_data_offset(b: Seq<u8>, k: int) -> nat {
    le32_at(b, ico_entry_at(k) + 12)
}

/// The data size the directory entry of frame `k` gives.
pub open spec fn ico_data_size(b: Seq<u8>, k: int) -> nat {
    le32_at(b, ico_entry_at(k) + 8)
}

/// Whether `b` holds a whole ICO container, and else why not: the six-byte
/// header, a directory of as many sixteen-byte entries as it announces, and
/// each frame's data where its entry says.
pub open spec fn ico_check(b: Seq<u8>) -> Result<(), IconError> {
    if b.len() < 6 {
        Err(IconError::Truncated)
    } else if b[0] != 0 || b[1] != 0 || b[2] != 1 || b[3] != 0 {
        Err(IconError::BadHeader)
    } else if ico_count(b) == 0 {
        Err(IconError::NoFrames)
    } else if b.len() < 6 + 16 * ico_count(b) {
        Err(IconError::Truncated)
    } else if exists|k: int|
        0 <= k < ico_count(b) && #[trigger] ico_data_offset(b, k) + ico_data_size(b, k) > b.len() {
        Err(IconError::Truncated)
    } else {
        Ok(())
    }
}

/// `e` is frame `k` of the container `b`.
pub open spec fn is_frame(b: Seq<u8>, k: int, e: IconEntry) -> bool {
    let at = ico_entry_at(k);
    &&& e.width == b[at]
    &&& e.height == b[at + 1]
    &&& e.colors == b[at + 2]
    &&& e.reserved == b[at + 3]
    &&& e.planes == le16_at(b, at + 4)
    &&& e.bitcount == le16_at(b, at + 6)
    &&& e.size == ico_data_size(b, k)
    &&& e.offset == ico_data_offset(b, k)
    &&& e.data@ == b.subrange(ico_data_offset(b, k) as int, (ico_data_offset(b, k) + ico_data_size(b, k)) as int)
}

fn read_le16(b: &[u8], at: usize) -> (r: u16)
    requires
        at + 2 <= b@.len(),
    ensures
        r == le16_at(b@, at as int),
{
    (b[at] as u16) + 256 * (b[at + 1] as u16)
}

fn read_le32(b: &[u8], at: usize) -> (r: u32)
    requires
        at + 4 <= b@.len(),
    ensures
        r == le32_at(b@, at as int),
{
    (b[at] as u32) + 256 * (b[at + 1] as u32) + 65536 * (b[at + 2] as u32) + 16777216 * (b[at + 3] as u32)
}

/// The frames of an ICO container, in the order of its directory, or why
/// it was refused.
pub fn parse_ico(b: &[u8]) -> (r: Result<Vec<IconEntry>, IconError>)
    ensures
        match ico_check(b@) {
            Err(e) => r matches Err(e2) && e2 == e,
            Ok(()) => r matches Ok(v) && v@.len() == ico_count(b@) && forall|k: int|
                0 <= k < v@.len() ==> is_frame(b@, k, #[trigger] v@[k]),
        },
{
    if b.len() < 6 {
        return Err(IconError::Truncated);
    }
    if b[0] != 0 || b[1] != 0 || b[2] != 1 || b[3] != 0 {
        return Err(IconError::BadHeader);
    }
    let count = read_le16(b, 4) as usize;
    if count == 0 {
        return Err(IconError::NoFrames);
    }
    if b.len() < 6 + 16 * count {
        return Err(IconError::Truncated);
    }
    let mut out: Vec<IconEntry> = Vec::new();
    let mut k: usize = 0;
    while k < count
        invariant
            count == ico_count(b@),
            count > 0,
            b@.len() >= 6,
            b@[0] == 0 && b@[1] == 0 && b@[2] == 1 && b@[3] == 0,
            6 + 16 * count <= b@.len(),
            k <= count,
            out@.len() == k,
            forall|j: int| 0 <= j < k ==> is_frame(b@, j, #[trigger] out@[j]),
            forall|j: int| 0 <= j < k ==> #[trigger] ico_data_offset(b@, j) + ico_data_size(b@, j) <= b@.len(),
        decreases count - k,
    {
        let at = 6 + 16 * k;
        let size = read_le32(b, at + 8);
        let offset = read_le32(b, at + 12);
        if (offset as usize) > b.len() || (size as usize) > b.len() - (offset as usize) {
            proof {
                assert(ico_data_offset(b@, k as int) + ico_data_size(b@, k as int) > b@.len());
            }
            return Err(IconError::Truncated);
        }
        let mut data: Vec<u8> = Vec::new();
        let start = offset as usize;
        let end = start + size as usize;
        let mut p = start;
        while p < end
            invariant
                start <= p <= end,
                end <= b@.len(),
                data@ == b@.subrange(start as int, p as int),
            decreases end - p,
        {
            data.push(b[p]);
            p = p + 1;
            assert(data@ =~= b@.subrange(start as int, p as int));
        }
        let e = IconEntry {
            width: b[at],
            height: b[at + 1],
            colors: b[at + 2],
            reserved: b[at + 3],
            planes: read_le16(b, at + 4),
            bitcount: read_le16(b, at + 6),
            size,
            offset,
            data,
        };
        out.push(e);
        k = k + 1;
    }
    proof {
        assert forall|j: int| 0 <= j < ico_count(b@) implies !(#[trigger] ico_data_offset(b@, j)
            + ico_data_size(b@, j) > b@.len()) by {}
    }
    Ok(out)
}

/// `acc` with `id` added at the end unless it is there already.
pub open spec fn add_unique(acc: Seq<u32>, id: u32) -> Seq<u32> {
    if acc.contains(id) {
        acc
    } else {
        acc.push(id)
    }
}

/// `acc` with each of `ids` added in turn unless it is there already.
pub open spec fn add_all_unique(acc: Seq<u32>, ids: Seq<u32>) -> Seq<u32>
    decreases ids.len(),
{
    if ids.len() == 0 {
        acc
    } else {
        add_unique(add_all_unique(acc, ids.drop_last()), ids.last())
    }
}

/// How many of the entries a group-icon resource announces are wholly in it.
pub open spec fn group_entry_count(res: Seq<u8>) -> nat {
    if res.len() < 6 {
        0
    } else {
        let n = le16_at(res, 4);
        let fit = ((res.len() - 6) / 14) as nat;
        if n < fit {
            n
        } else {
            fit
        }
    }
}

/// The icon ids a group-icon resource lists, in order: the last two bytes
/// of each fourteen-byte entry after the six-byte header, as far as the
/// entries announced are wholly in the resource.
pub open spec fn group_ids(res: Seq<u8>) -> Seq<u32> {
    Seq::new(group_entry_count(res), |i: int| le16_at(res, 6 + 14 * i + 12) as u32)
}

/// Adds to `ids` each icon id that the group-icon resource `res` lists and
/// `ids` does not hold yet, in order; a resource shorter than its header
/// adds nothing.
pub fn collect_group_ids(res: &[u8], ids: &mut Vec<u32>)
    ensures
        final(ids)@ == add_all_unique(old(ids)@, group_ids(res@)),
{
    if res.len() < 6 {
        assert(group_ids(res@) =~= Seq::<u32>::empty());
        return;
    }
    let n = read_le16(res, 4) as usize;
    let ghost all = group_ids(res@);
    let mut i: usize = 0;
    while i < n
        invariant
            res@.len() >= 6,
            n == le16_at(res@, 4),
            all == group_ids(res@),
            i <= n,
            i <= group_entry_count(res@),
            i < n ==> (i < group_entry_count(res@) <==> 6 + i * 14 + 14 <= res@.len()),
            ids@ == add_all_unique(old(ids)@, all.take(i as int)),
        ensures
            i == group_entry_count(res@),
            ids@ == add_all_unique(old(ids)@, all.take(i as int)),
        decreases n - i,
    {
        let off = 6 + i * 14;
        if off + 14 > res.len() {
            assert(i == group_entry_count(res@));
            break;
        }
        let id = read_le16(res, off + 12) as u32;
        assert(all[i as int] == id);
        assert(all.take(i + 1).drop_last() =~= all.take(i as int));
        if !vec_contains(ids, id) {
            ids.push(id);
        }
        i = i + 1;
        proof {
            if i < n {
                assert(i <= group_entry_count(res@));
            }
        }
    }
    assert(all.take(i as int) =~= all);
}

fn vec_contains(v: &Vec<u32>, x: u32) -> (r: bool)
    ensures
        r == v@.contains(x),
{
    let mut i: usize = 0;
    while i < v.len()
        invariant
            i <= v@.len(),
            forall|j: int| 0 <= j < i ==> v@[j] != x,
        decreases v@.len() - i,
    {
        if v[i] == x {
            return true;
        }
        i = i + 1;
    }
    false
}

/// The ids of the icon resources to write for `count` frames: the existing
/// ids first, in their order, then the smallest positive ids that are not
/// among the existing ones, in increasing order.
pub open spec fn ids_assigned(existing: Seq<u32>, count: nat, r: Seq<u32>) -> bool {
    &&& r.len() == count
    &&& forall|i: int| 0 <= i < count && i < existing.len() ==> #[trigger] r[i] == existing[i]
    &&& forall|i: int|
        existing.len() <= i < count ==> #[trigger] r[i] >= 1 && !existing.contains(r[i])
    &&& forall|i: int, j: int| existing.len() <= i < j < count ==> #[trigger] r[i] < #[trigger] r[j]
    &&& forall|i: int, v: u32|
        #![trigger r[i], existing.contains(v)]
        existing.len() <= i < count && 1 <= v < r[i] && !existing.contains(v) ==> exists|j: int|
            existing.len() <= j < i && #[trigger] r[j] == v
}

proof fn lemma_pigeonhole(a: Seq<u32>, b: Seq<u32>, hi: int)
    requires
        1 <= hi <= u32::MAX + 1,
        forall|v: u32| #![trigger a.contains(v)] #![trigger b.contains(v)] 1 <= v < hi ==> a.contains(v) || b.contains(v),
    ensures
        hi - 1 <= a.len() + b.len(),
{
    let s = (a + b).map_values(|x: u32| x as int);
    assert forall|v: int| set_int_range(1, hi).contains(v) implies s.to_set().contains(v) by {
        let w = v as u32;
        assert(w as int == v);
        assert(a.contains(w) || b.contains(w));
        if a.contains(w) {
            let k = choose|k: int| 0 <= k < a.len() && a[k] == w;
            assert(s[k] == v);
        } else {
            let k = choose|k: int| 0 <= k < b.len() && b[k] == w;
            assert(s[a.len() + k] == v);
        }
    }
    lemma_int_range(1, hi);
    s.lemma_cardinality_of_set();
    vstd::seq_lib::seq_to_set_is_finite(s);
    lemma_len_subset(set_int_range(1, hi), s.to_set());
}

/// The ids of the icon resources to write for `count` frames, given the ids
/// the executable's group icons already use: see `ids_assigned`.
pub fn assign_icon_ids(existing: &Vec<u32>, count: usize) -> (r: Vec<u32>)
    requires
        existing@.len() + count < u32::MAX,
    ensures
        ids_assigned(existing@, count as nat, r@),
{
    let ghost e = existing@;
    let mut out: Vec<u32> = Vec::new();
    let mut next: u32 = 1;
    let mut i: usize = 0;
    while i < count
        invariant
            e == existing@,
            e.len() + count < u32::MAX,
            i <= count,
            out@.len() == i,
            1 <= next,
            forall|v: u32| #![trigger e.contains(v)] #![trigger out@.contains(v)] 1 <= v < next ==> e.contains(v) || out@.contains(v),
            forall|k: int| e.len() <= k < i ==> #[trigger] out@[k] < next,
            ids_assigned(e, i as nat, out@),
        decreases count - i,
    {
        if i < existing.len() {
            let id = existing[i];
            out.push(id);
            proof {
                assert forall|v: u32| #![trigger e.contains(v)] #![trigger out@.contains(v)] 1 <= v < next implies e.contains(v) || out@.contains(v) by {
                    if out@.drop_last().contains(v) {
                        let k = choose|k: int| 0 <= k < out@.len() - 1 && out@.drop_last()[k] == v;
                        assert(out@[k] == v);
                    }
                }
                assert(ids_assigned(e, (i + 1) as nat, out@)) by {
                    assert forall|k: int, v: u32|
                        #![trigger out@[k], e.contains(v)]
                        e.len() <= k < i + 1 && 1 <= v < out@[k] && !e.contains(v) implies exists|j: int|
                        e.len() <= j < k && #[trigger] out@[j] == v by {
                        assert(k < i);
                    }
                }
            }
        } else {
            let ghost old_out = out@;
            let ghost start = next as int;
            while vec_contains(existing, next) || vec_contains(&out, next)
                invariant
                    e == existing@,
                    e.len() + count < u32::MAX,
                    i < count,
                    out@ == old_out,
                    out@.len() == i,
                    start <= next,
                    forall|v: u32| #![trigger e.contains(v)] #![trigger out@.contains(v)] 1 <= v < next ==> e.contains(v) || out@.contains(v),
                decreases u32::MAX - next,
            {
                proof {
                    lemma_pigeonhole(e, out@, next + 1);
                }
                next = next + 1;
            }
            proof {
                lemma_pigeonhole(e, out@, next as int);
            }
            out.push(next);
            proof {
                assert(out@[i as int] == next);
                assert forall|v: u32| #![trigger e.contains(v)] #![trigger out@.contains(v)] 1 <= v < next + 1 implies e.contains(v) || out@.contains(v) by {
                    if v < next {
                        if old_out.contains(v) {
                            let k = choose|k: int| 0 <= k < old_out.len() && old_out[k] == v;
                            assert(out@[k] == v);
                        }
                    } else {
                        assert(out@[i as int] == v);
                    }
                }
                assert forall|k: int, v: u32|
                    #![trigger out@[k], e.contains(v)]
                    e.len() <= k < i + 1 && 1 <= v < out@[k] && !e.contains(v) implies exists|j: int|
                    e.len() <= j < k && #[trigger] out@[j] == v by {
                    if k < i {
                        assert(out@[k] == old_out[k]);
                    } else {
                        assert(old_out.contains(v));
                        let j = choose|j: int| 0 <= j < old_out.len() && old_out[j] == v;
                        assert(out@[j] == v);
                        if j < e.len() {
                            assert(old_out[j] == e[j]);
                            assert(e.contains(v));
                        }
                    }
                }
                assert forall|k: int| 0 <= k < i + 1 && k < e.len() implies #[trigger] out@[k] == e[k] by {
                    assert(k < i);
                }
            }
            next = next + 1;
        }
        i = i + 1;
    }
    out
}

/// The group-icon resource that lists `entries` under the resource ids
/// `ids`: the header (reserved 0, type 1, the number of entries), then per
/// entry its size, colours, planes, bit count and data size as in the ICO
/// directory, and its id. The entry count and the ids are written in 16 bits.
pub open spec fn group_resource(entries: Seq<IconEntry>, ids: Seq<u32>) -> Seq<u8>
    decreases entries.len(),
{
    if entries.len() == 0 {
        le16(0) + le16(1) + le16((ids.len() % 65536) as nat)
    } else {
        let k = entries.len() - 1;
        let e = entries[k];
        group_resource(entries.drop_last(), ids) + seq![e.width, e.height, e.colors, e.reserved] + le16(
            e.planes as nat,
        ) + le16(e.bitcount as nat) + le32(e.size as nat) + le16((ids[k] % 65536) as nat)
    }
}

fn push_le16(out: &mut Vec<u8>, v: u16)
    ensures
        final(out)@ == old(out)@ + le16(v as nat),
{
    out.push((v % 256) as u8);
    out.push((v / 256) as u8);
    assert(final(out)@ =~= old(out)@ + le16(v as nat));
}

fn push_le32(out: &mut Vec<u8>, v: u32)
    ensures
        final(out)@ == old(out)@ + le32(v as nat),
{
    out.push((v % 256) as u8);
    out.push(((v / 256) % 256) as u8);
    out.push(((v / 65536) % 256) as u8);
    out.push((v / 16777216) as u8);
    assert(final(out)@ =~= old(out)@ + le32(v as nat));
}

/// The group-icon resource for `entries` under `ids` (see `group_resource`).
pub fn group_icon_resource(entries: &Vec<IconEntry>, ids: &Vec<u32>) -> (r: Vec<u8>)
    requires
        ids@.len() == entries@.len(),
    ensures
        r@ == group_resource(entries@, ids@),
{
    let mut out: Vec<u8> = Vec::new();
    push_le16(&mut out, 0);
    push_le16(&mut out, 1);
    push_le16(&mut out, (entries.len() % 65536) as u16);
    proof {
        assert(group_resource(entries@.take(0), ids@) == le16(0) + le16(1) + le16(
            (ids@.len() % 65536) as nat,
        ));
        assert(out@ =~= group_resource(entries@.take(0), ids@));
    }
    let mut i: usize = 0;
    while i < entries.len()
        invariant
            ids@.len() == entries@.len(),
            i <= entries@.len(),
            out@ == group_resource(entries@.take(i as int), ids@),
        decreases entries@.len() - i,
    {
        let e = &entries[i];
        out.push(e.width);
        out.push(e.height);
        out.push(e.colors);
        out.push(e.reserved);
        push_le16(&mut out, e.planes);
        push_le16(&mut out, e.bitcount);
        push_le32(&mut out, e.size);
        push_le16(&mut out, (ids[i] % 65536) as u16);
        proof {
            assert(entries@.take(i + 1).drop_last() =~= entries@.take(i as int));
            assert(out@ =~= group_resource(entries@.take(i + 1), ids@));
        }
        i = i + 1;
    }
    assert(entries@.take(entries@.len() as int) =~= entries@);
    out
}

/// Law: a group-icon resource is its six-byte header and a fourteen-byte
/// entry per frame.
pub proof fn law_group_resource_len(entries: Seq<IconEntry>, ids: Seq<u32>)
    ensures
        group_resource(entries, ids).len() == 6 + 14 * entries.len(),
    decreases entries.len(),
{
    if entries.len() > 0 {
        law_group_resource_len(entries.drop_last(), ids);
    }
}

/// The id under which the group icon is written: the smallest id of the
/// executable's group icons, or 1 where it has none.
pub fn group_icon_id(existing_groups: &Vec<u32>) -> (r: u32)
    ensures
        existing_groups@.len() == 0 ==> r == 1,
        existing_groups@.len() > 0 ==> existing_groups@.contains(r) && forall|k: int|
            0 <= k < existing_groups@.len() ==> r <= #[trigger] existing_groups@[k],
{
    if existing_groups.len() == 0 {
        return 1;
    }
    let mut best = existing_groups[0];
    let mut i: usize = 1;
    while i < existing_groups.len()
        invariant
            1 <= i <= existing_groups@.len(),
            existing_groups@.contains(best),
            forall|k: int| 0 <= k < i ==> best <= #[trigger] existing_groups@[k],
        decreases existing_groups@.len() - i,
    {
        if existing_groups[i] < best {
            best = existing_groups[i];
        }
        i = i + 1;
    }
    best
}

} // verus!
