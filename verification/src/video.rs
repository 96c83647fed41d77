//! Uploaded videos: their details files and the names of their frame images.

use vstd::prelude::*;

use crate::query_params::VideoFrameQuery;
use crate::strings::{split_on, split_string, str_equals, views};
use vstd::utf8::{encode_scalar, encode_utf8};

verus! {

/// The details of an uploaded video: its id, name and description.
pub struct VideoUploadDetails {
    pub guid: String,
    pub name: String,
    pub description: String,
}

fn string_of(lit: &str) -> (s: String)
    ensures
        s@ == lit@,
{
    lit.to_owned()
}

impl VideoUploadDetails {
    /// Details of a video with the given id and no name or description yet.
    pub fn new(guid: String) -> (d: Self)
        ensures
            d.guid == guid,
            d.name@ == Seq::<char>::empty(),
            d.description@ == Seq::<char>::empty(),
    {
        VideoUploadDetails { guid: guid, name: String::new(), description: String::new() }
    }

    /// The file the details are saved to: `./files/videos/ready/<guid>.txt`.
    pub fn details_path(&self) -> (p: String)
        ensures
            p@ == "./files/videos/ready/"@ + self.guid@ + ".txt"@,
    {
        let mut p = string_of("./files/videos/ready/");
        p.append(self.guid.as_str());
        p.append(".txt");
        p
    }

    /// The text saved for the details: the name, a newline, the description.
    pub fn details_content(&self) -> (c: String)
        ensures
            c@ == self.name@ + "\n"@ + self.description@,
    {
        let mut c = self.name.clone();
        c.append("\n");
        c.append(self.description.as_str());
        c
    }
}

/// Saved details read back: when neither the name nor the description holds
/// a line break, the lines of the text that `details_content` saves are the
/// name and then the description.
pub proof fn lemma_details_round_trip(d: VideoUploadDetails)
    requires
        !d.name@.contains('\n'),
        !d.description@.contains('\n'),
    ensures
        split_on(d.name@ + "\n"@ + d.description@, '\n') == seq![d.name@, d.description@],
{
    reveal_strlit("\n");
    let a = d.name@;
    let b = d.description@;
    crate::strings::lemma_split_without_sep(a, '\n');
    let p = a + "\n"@;
    assert(p.drop_last() =~= a);
    assert(p.last() == '\n');
    assert(split_on(p, '\n') =~= seq![a, Seq::<char>::empty()]);
    crate::strings::lemma_split_extend(p, b, '\n');
    assert(Seq::<char>::empty() + b =~= b);
    assert(split_on(p + b, '\n') =~= seq![a, b]);
}

/// The parts of an upload form that are read.
#[derive(Clone, Copy, PartialEq, Eq, Debug, Structural)]
pub enum UploadField {
    File,
    Name,
    Description,
    Other,
}

/// Which part of the upload form a part's name stands for.
pub open spec fn spec_upload_field(name: Seq<char>) -> UploadField {
    if name == "file"@ {
        UploadField::File
    } else if name == "name"@ {
        UploadField::Name
    } else if name == "description"@ {
        UploadField::Description
    } else {
        UploadField::Other
    }
}

/// Which part of the upload form a part's name stands for: the video file,
/// its name, its description, or something that is ignored.
pub fn upload_field(name: &str) -> (f: UploadField)
    ensures
        f == spec_upload_field(name@),
{
    if str_equals(name, "file") {
        UploadField::File
    } else if str_equals(name, "name") {
        UploadField::Name
    } else if str_equals(name, "description") {
        UploadField::Description
    } else {
        UploadField::Other
    }
}

/// The file ending of an uploaded video from its content type: only
/// `video/mp4` videos are taken, as `mp4` files.
pub fn upload_file_ending(content_type: &str) -> (r: Option<String>)
    ensures
        r matches Some(e) ==> e@ == "mp4"@,
        r is Some <==> content_type@ == "video/mp4"@,
{
    if str_equals(content_type, "video/mp4") {
        Some(string_of("mp4"))
    } else {
        None
    }
}

/// The file an uploaded video is written to:
/// `./files/videos/ready/<guid>.<ending>`.
pub fn upload_file_path(guid: &String, ending: &String) -> (p: String)
    ensures
        p@ == "./files/videos/ready/"@ + guid@ + "."@ + ending@,
{
    let mut p = string_of("./files/videos/ready/");
    p.append(guid.as_str());
    p.append(".");
    p.append(ending.as_str());
    p
}

/// The path components that name something: neither empty nor `.`.
pub open spec fn named_components(parts: Seq<Seq<char>>) -> Seq<Seq<char>> {
    parts.filter(|c: Seq<char>| c.len() != 0 && c != "."@)
}

/// The last component of a path, as `Path::file_name` gives it: none for a
/// path that ends in `..` or names nothing.
pub open spec fn file_name_of(path: Seq<char>) -> Option<Seq<char>> {
    let parts = named_components(split_on(path, '/'));
    if parts.len() == 0 || parts.last() == ".."@ {
        None
    } else {
        Some(parts.last())
    }
}

/// What follows the last `.` of a file name, as `Path::extension` gives it:
/// none when there is no `.`, or when the only `.` starts the name.
pub open spec fn name_extension(name: Seq<char>) -> Option<Seq<char>> {
    let pieces = split_on(name, '.');
    if pieces.len() < 2 || (pieces.len() == 2 && pieces[0].len() == 0) {
        None
    } else {
        Some(pieces.last())
    }
}

/// The extension of a path's file name.
pub open spec fn path_extension(path: Seq<char>) -> Option<Seq<char>> {
    match file_name_of(path) {
        Some(n) => name_extension(n),
        None => None,
    }
}

fn is_named_component(c: &String) -> (b: bool)
    ensures
        b == (c@.len() != 0 && c@ != "."@),
{
    c.as_str().unicode_len() != 0 && !str_equals(c.as_str(), ".")
}

/// The file name of a path.
pub fn file_name(path: &str) -> (r: Option<String>)
    ensures
        match r {
            Some(n) => file_name_of(path@) == Some(n@),
            None => file_name_of(path@) is None,
        },
{
    let parts = split_string(path, '/');
    let ghost pred = |c: Seq<char>| c.len() != 0 && c != "."@;
    let mut kept: Vec<String> = Vec::new();
    let n = parts.len();
    let mut i: usize = 0;
    while i < n
        invariant
            n == parts@.len(),
            i <= n,
            pred == (|c: Seq<char>| c.len() != 0 && c != "."@),
            views(kept@) == views(parts@).take(i as int).filter(pred),
        decreases n - i,
    {
        reveal_with_fuel(Seq::<_>::filter, 1);
        assert(views(parts@).take(i + 1).drop_last() =~= views(parts@).take(i as int));
        if is_named_component(&parts[i]) {
            kept.push(parts[i].clone());
            assert(views(kept@) =~= views(parts@).take(i as int).filter(pred).push(parts@[i as int]@));
        }
        i = i + 1;
    }
    assert(views(parts@).take(n as int) =~= views(parts@));
    let k = kept.len();
    if k == 0 {
        return None;
    }
    assert(views(kept@).last() == kept@[k - 1]@);
    if str_equals(kept[k - 1].as_str(), "..") {
        None
    } else {
        Some(kept[k - 1].clone())
    }
}

/// The extension of a path's file name.
pub fn extension(path: &str) -> (r: Option<String>)
    ensures
        match r {
            Some(e) => path_extension(path@) == Some(e@),
            None => path_extension(path@) is None,
        },
{
    match file_name(path) {
        Some(name) => {
            let pieces = split_string(name.as_str(), '.');
            let k = pieces.len();
            proof {
                crate::strings::lemma_split_nonempty(name@, '.');
            }
            assert(views(pieces@)[0] == pieces@[0]@);
            if k < 2 || (k == 2 && pieces[0].as_str().unicode_len() == 0) {
                None
            } else {
                assert(views(pieces@).last() == pieces@[k - 1]@);
                Some(pieces[k - 1].clone())
            }
        },
        None => None,
    }
}

/// The number of names whose extension is `png`.
pub open spec fn png_count(names: Seq<Seq<char>>) -> nat
    decreases names.len(),
{
    if names.len() == 0 {
        0
    } else {
        png_count(names.drop_last()) + if path_extension(names.last()) == Some("png"@) {
            1nat
        } else {
            0nat
        }
    }
}

/// Counts the frame images (files with extension `png`) among the entries
/// of a video's folder.
pub fn count_png_files(names: &Vec<String>) -> (c: usize)
    ensures
        c == png_count(views(names@)),
{
    let n = names.len();
    let mut count: usize = 0;
    let mut i: usize = 0;
    while i < n
        invariant
            n == names@.len(),
            i <= n,
            count == png_count(views(names@).take(i as int)),
            count <= i,
        decreases n - i,
    {
        assert(views(names@).take(i + 1).drop_last() =~= views(names@).take(i as int));
        assert(views(names@).take(i + 1).last() == names@[i as int]@);
        match extension(names[i].as_str()) {
            Some(e) => {
                if str_equals(e.as_str(), "png") {
                    count = count + 1;
                }
            },
            None => {},
        }
        i = i + 1;
    }
    assert(views(names@).take(n as int) =~= views(names@));
    count
}

/// The number of bytes in the UTF-8 form of the characters of `s` from
/// index `k` on.
pub open spec fn tail_bytes(s: Seq<char>, k: int) -> nat {
    encode_utf8(s.skip(k)).len()
}

/// A name is passed over when it has an extension other than `mp4`.
pub open spec fn skipped_by_processing(name: Seq<char>) -> bool {
    path_extension(name) matches Some(e) && e != "mp4"@
}

/// The last four bytes of `name` are whole characters.
pub open spec fn last_four_bytes_split(name: Seq<char>) -> bool {
    exists|k: int| 0 <= k <= name.len() && tail_bytes(name, k) == 4
}

proof fn lemma_tail_step(s: Seq<char>, k: int)
    requires
        0 <= k < s.len(),
    ensures
        tail_bytes(s, k) == encode_scalar(s[k] as u32).len() + tail_bytes(s, k + 1),
{
    assert(s.skip(k)[0] == s[k]);
    assert(s.skip(k).drop_first() =~= s.skip(k + 1));
}

proof fn lemma_tail_monotone(s: Seq<char>, k1: int, k2: int)
    requires
        0 <= k1 <= k2 <= s.len(),
    ensures
        tail_bytes(s, k1) >= tail_bytes(s, k2) + (k2 - k1),
    decreases k2 - k1,
{
    if k1 < k2 {
        lemma_tail_step(s, k1);
        lemma_tail_monotone(s, k1 + 1, k2);
    }
}

fn char_width(c: char) -> (w: usize)
    ensures
        w == encode_scalar(c as u32).len(),
        1 <= w <= 4,
{
    let v = c as u32;
    if v <= 0x7f {
        1
    } else if v <= 0x7ff {
        2
    } else if v <= 0xffff {
        3
    } else {
        4
    }
}

/// The character index at which the last four bytes of `name` start, if
/// they are whole characters.
fn last_four_bytes_start(name: &str) -> (r: Option<usize>)
    ensures
        match r {
            Some(k) => k <= name@.len() && tail_bytes(name@, k as int) == 4,
            None => !last_four_bytes_split(name@),
        },
{
    let n = name.unicode_len();
    let mut k: usize = n;
    let mut acc: usize = 0;
    assert(name@.skip(n as int) =~= Seq::<char>::empty());
    while k > 0 && acc < 4
        invariant
            n == name@.len(),
            k <= n,
            acc == tail_bytes(name@, k as int),
            acc <= 7,
            k < n ==> acc >= 1,
            k < n ==> tail_bytes(name@, k + 1) < 4,
        decreases k,
    {
        k = k - 1;
        proof {
            lemma_tail_step(name@, k as int);
        }
        acc = acc + char_width(name.get_char(k));
    }
    if acc == 4 {
        Some(k)
    } else {
        proof {
            if last_four_bytes_split(name@) {
                let j = choose|j: int| 0 <= j <= name@.len() && tail_bytes(name@, j) == 4;
                if j <= k {
                    lemma_tail_monotone(name@, j, k as int);
                } else {
                    lemma_tail_monotone(name@, k + 1, j);
                }
            }
        }
        None
    }
}

fn is_skipped(name: &String) -> (b: bool)
    ensures
        b == skipped_by_processing(name@),
{
    match extension(name.as_str()) {
        Some(e) => !str_equals(e.as_str(), "mp4"),
        None => false,
    }
}

/// Whether `pending_video_guid` can take `name`: it is passed over, or its
/// last four bytes are whole characters.
pub fn pending_name_readable(name: &String) -> (ok: bool)
    ensures
        ok == (!skipped_by_processing(name@) ==> last_four_bytes_split(name@)),
{
    is_skipped(name) || last_four_bytes_start(name.as_str()).is_some()
}

/// The id of a video waiting in the upload folder, from the name of its
/// file: names with an extension other than `mp4` are passed over; any other
/// name loses its last four bytes (`.mp4`).
pub fn pending_video_guid(name: &String) -> (r: Option<String>)
    requires
        !skipped_by_processing(name@) ==> last_four_bytes_split(name@),
    ensures
        r is None <==> skipped_by_processing(name@),
        r matches Some(g) ==> exists|k: int|
            0 <= k <= name@.len() && tail_bytes(name@, k) == 4 && g@ == name@.take(k),
{
    if is_skipped(name) {
        return None;
    }
    let s = name.as_str();
    let k = last_four_bytes_start(s).unwrap();
    Some(s.substring_char(0, k).to_owned())
}

/// The decimal digits of a number, without leading zeros (`0` for zero).
pub open spec fn decimal_digits(n: nat) -> Seq<char>
    decreases n,
{
    if n < 10 {
        seq![((n + 48) as u8) as char]
    } else {
        decimal_digits(n / 10).push((((n % 10) + 48) as u8) as char)
    }
}

/// How an `i32` is displayed: a minus sign for negative numbers, then the
/// digits of its magnitude.
pub open spec fn i32_display(v: int) -> Seq<char> {
    if v < 0 {
        seq!['-'] + decimal_digits((-v) as nat)
    } else {
        decimal_digits(v as nat)
    }
}

/// `s` padded on the left with `0` to at least `width` characters.
pub open spec fn zero_pad(s: Seq<char>, width: nat) -> Seq<char> {
    if s.len() < width {
        Seq::new((width - s.len()) as nat, |i: int| '0') + s
    } else {
        s
    }
}

/// The image file of frame `frame` of a processed video: four-digit,
/// zero-padded frame numbers, as the frames are named when the video is
/// cut up.
pub open spec fn spec_frame_path(guid: Seq<char>, frame: int) -> Seq<char> {
    "./files/videos/processed/"@ + guid + "/img"@ + zero_pad(i32_display(frame), 4) + ".png"@
}

fn push_decimal(s: &mut String, n: u64)
    ensures
        final(s)@ == old(s)@ + decimal_digits(n as nat),
    decreases n,
{
    if n >= 10 {
        push_decimal(s, n / 10);
    }
    crate::strings::push_char(s, ((n % 10) as u8 + 48) as char);
    assert(n < 10 ==> n % 10 == n);
}

/// The path of the image of one frame of a processed video.
pub fn video_frame_path(guid: &String, frame: i32) -> (p: String)
    ensures
        p@ == spec_frame_path(guid@, frame as int),
{
    let mut digits = String::new();
    if frame < 0 {
        crate::strings::push_char(&mut digits, '-');
        let magnitude: u64 = (-(frame as i64)) as u64;
        push_decimal(&mut digits, magnitude);
    } else {
        push_decimal(&mut digits, frame as u64);
    }
    assert(digits@ =~= i32_display(frame as int));
    let len = digits.as_str().unicode_len();
    let mut p = string_of("./files/videos/processed/");
    p.append(guid.as_str());
    p.append("/img");
    let ghost before_pad = p@;
    let mut k: usize = len;
    while k < 4
        invariant
            len == digits@.len(),
            len <= k <= 4 || k == len,
            p@ == before_pad + Seq::new((k - len) as nat, |i: int| '0'),
        decreases 4 - k,
    {
        crate::strings::push_char(&mut p, '0');
        assert(p@ =~= before_pad + Seq::new((k + 1 - len) as nat, |i: int| '0'));
        k = k + 1;
    }
    p.append(digits.as_str());
    p.append(".png");
    assert(p@ =~= spec_frame_path(guid@, frame as int));
    p
}


/// The most frames that one request for frame indexes returns.
pub const MAX_FRAME_LIMIT: usize = 50;

/// The frame limit of a request: the frames asked for, at most
/// `MAX_FRAME_LIMIT`.
pub open spec fn frame_limit(max_frames: usize) -> usize {
    if max_frames > MAX_FRAME_LIMIT {
        MAX_FRAME_LIMIT
    } else {
        max_frames
    }
}

/// The indexes `a, a + 1, ..., b - 1` (none when `b <= a`).
pub open spec fn index_range(a: int, b: int) -> Seq<usize> {
    Seq::new(if b > a { (b - a) as nat } else { 0 }, |i: int| (a + i) as usize)
}

/// Which frames of a video to show for a window: listed one by one, or
/// sampled evenly from `start` up to `end` so that about `max_frames` of
/// the `diff` frames are shown.
pub enum FramePlan {
    Frames(Vec<usize>),
    Sampled { start: usize, end: usize, diff: usize, max_frames: usize },
}

fn collect_indexes(a: usize, b: usize) -> (v: Vec<usize>)
    ensures
        v@ == index_range(a as int, b as int),
{
    let mut v: Vec<usize> = Vec::new();
    let mut i: usize = a;
    while i < b
        invariant
            a <= i,
            i <= b || i == a,
            v@ == index_range(a as int, i as int),
        decreases b - i,
    {
        v.push(i);
        assert(v@ =~= index_range(a as int, i + 1));
        i = i + 1;
    }
    assert(v@ =~= index_range(a as int, b as int));
    v
}

/// Which frames of a video with `frame_count` frames to show for a window,
/// with at most `max_frames` (and never more than `MAX_FRAME_LIMIT`) asked
/// for: a window short enough is listed whole; when the limit reaches past
/// the last frame, the frames from the start to the last are listed; a
/// longer window of a video with frames is sampled; otherwise none.
pub fn plan_frame_indexes(query: &VideoFrameQuery, frame_count: usize, max_frames: usize) -> (p: FramePlan)
    requires
        !(query.diff != 0 && query.diff <= frame_limit(max_frames)) ==> query.start + frame_limit(
            max_frames,
        ) <= usize::MAX,
    ensures
        ({
            let limit = frame_limit(max_frames);
            if query.diff != 0 && query.diff <= limit {
                p matches FramePlan::Frames(v) && v@ == index_range(query.start as int, query.end as int)
            } else if query.start + limit >= frame_count {
                p matches FramePlan::Frames(v) && v@ == index_range(query.start as int, frame_count as int)
            } else if frame_count > 0 && query.diff > limit {
                p matches FramePlan::Sampled { start, end, diff, max_frames: m } && start == query.start
                    && end == query.end && diff == query.diff && m == limit
            } else {
                p matches FramePlan::Frames(v) && v@.len() == 0
            }
        }),
{
    let limit = if max_frames > MAX_FRAME_LIMIT {
        MAX_FRAME_LIMIT
    } else {
        max_frames
    };
    if query.diff != 0 && query.diff <= limit {
        FramePlan::Frames(collect_indexes(query.start, query.end))
    } else if limit + query.start >= frame_count {
        FramePlan::Frames(collect_indexes(query.start, frame_count))
    } else if frame_count > 0 && query.diff > limit {
        FramePlan::Sampled { start: query.start, end: query.end, diff: query.diff, max_frames: limit }
    } else {
        FramePlan::Frames(Vec::new())
    }
}

} // verus!
