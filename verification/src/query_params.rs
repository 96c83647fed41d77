//! Query parameters of the render and video routes.

use vstd::prelude::*;

use crate::color_subs::{spec_color_subs, ColorSubs};
use crate::strings::{split_on, split_string, str_equals, views};

verus! {

/// What `p.to_lowercase()` gives for an ASCII letter; other characters
/// are left alone.
pub open spec fn ascii_lower(c: char) -> char {
    if 'A' <= c <= 'Z' {
        ((c as u32) + 32) as char
    } else {
        c
    }
}

/// `s` equals the lower-case word `word` once upper-case ASCII letters are
/// lowered.  For the words compared here (`start`, `end`) this is exactly
/// `s.to_lowercase() == word`: no other character lowers into their letters.
pub open spec fn eq_ignore_ascii_case(s: Seq<char>, word: Seq<char>) -> bool {
    &&& s.len() == word.len()
    &&& forall|i: int| 0 <= i < s.len() ==> ascii_lower(#[trigger] s[i]) == word[i]
}

/// Whether `c` is a decimal digit.
pub open spec fn is_digit(c: char) -> bool {
    '0' <= c <= '9'
}

/// The number that a string of decimal digits denotes.
pub open spec fn decimal_value(d: Seq<char>) -> nat
    decreases d.len(),
{
    if d.len() == 0 {
        0
    } else {
        10 * decimal_value(d.drop_last()) + ((d.last() as u32) - 48) as nat
    }
}

/// The digits of a number literal, after an optional leading `+`.
pub open spec fn number_digits(s: Seq<char>) -> Seq<char> {
    if s.len() > 0 && s[0] == '+' {
        s.drop_first()
    } else {
        s
    }
}

/// What `s.parse::<usize>()` succeeds with: an optional `+` followed by at
/// least one decimal digit, denoting a value that fits in a `usize`.
pub open spec fn parse_usize(s: Seq<char>) -> Option<usize> {
    let d = number_digits(s);
    if d.len() == 0 || !(forall|i: int| 0 <= i < d.len() ==> is_digit(#[trigger] d[i])) {
        None
    } else if decimal_value(d) > usize::MAX {
        None
    } else {
        Some(decimal_value(d) as usize)
    }
}

proof fn lemma_decimal_prefix_le(d: Seq<char>, k: int)
    requires
        0 <= k <= d.len(),
        forall|i: int| 0 <= i < d.len() ==> is_digit(#[trigger] d[i]),
    ensures
        decimal_value(d.take(k)) <= decimal_value(d),
    decreases d.len(),
{
    if k < d.len() {
        assert(d.drop_last().take(k) =~= d.take(k));
        assert forall|i: int| 0 <= i < d.drop_last().len() implies is_digit(
            #[trigger] d.drop_last()[i],
        ) by {
            assert(d.drop_last()[i] == d[i]);
        }
        lemma_decimal_prefix_le(d.drop_last(), k);
    } else {
        assert(d.take(k) =~= d);
    }
}

/// Parses a decimal `usize` as `str::parse` does.
pub fn parse_usize_exec(s: &str) -> (r: Option<usize>)
    ensures
        r == parse_usize(s@),
{
    let n = s.unicode_len();
    let mut start: usize = 0;
    if n > 0 && s.get_char(0) == '+' {
        start = 1;
    }
    let ghost d = number_digits(s@);
    assert(d =~= s@.skip(start as int));
    if start == n {
        return None;
    }
    let mut i: usize = start;
    while i < n
        invariant
            n == s@.len(),
            start <= i <= n,
            d =~= s@.skip(start as int),
            d == number_digits(s@),
            forall|j: int| 0 <= j < i - start ==> is_digit(#[trigger] d[j]),
        decreases n - i,
    {
        let c = s.get_char(i);
        assert(d[i - start] == c);
        if !('0' <= c && c <= '9') {
            assert(!is_digit(d[i - start]));
            return None;
        }
        i = i + 1;
    }
    let mut value: usize = 0;
    i = start;
    assert(d.take(0) =~= Seq::<char>::empty());
    while i < n
        invariant
            n == s@.len(),
            start <= i <= n,
            d =~= s@.skip(start as int),
            d == number_digits(s@),
            forall|j: int| 0 <= j < d.len() ==> is_digit(#[trigger] d[j]),
            value == decimal_value(d.take(i - start)),
        decreases n - i,
    {
        let c = s.get_char(i);
        assert(d[i - start] == c);
        assert(is_digit(d[i - start]));
        let digit = (c as u32 - 48) as usize;
        let ghost prefix = d.take(i - start + 1);
        assert(prefix.drop_last() =~= d.take(i - start));
        assert(prefix.last() == c);
        assert(decimal_value(prefix) == 10 * value + digit);
        proof {
            lemma_decimal_prefix_le(d, i - start + 1);
        }
        match value.checked_mul(10) {
            Some(t) => match t.checked_add(digit) {
                Some(v) => {
                    value = v;
                },
                None => {
                    return None;
                },
            },
            None => {
                return None;
            },
        }
        i = i + 1;
    }
    assert(d.take(n - start) =~= d);
    Some(value)
}

/// The query of a sprite-sheet render: an optional string of colour
/// substitutions.
pub struct RenderQuery {
    pub query: Option<String>,
}

/// The view of an optional string.
pub open spec fn opt_view(q: Option<String>) -> Option<Seq<char>> {
    match q {
        Some(s) => Some(s@),
        None => None,
    }
}

/// The colour substitutions of an optional query string.
pub fn color_subs_of(query: Option<String>) -> (subs: ColorSubs)
    ensures
        subs@ == spec_color_subs(opt_view(query)),
{
    match query {
        Some(search) => ColorSubs::from_query(&search),
        None => ColorSubs::new(),
    }
}

impl RenderQuery {
    /// The colour substitutions that the query string asks for.
    pub fn get_color_subs(self) -> (subs: ColorSubs)
        ensures
            subs@ == spec_color_subs(opt_view(self.query)),
    {
        color_subs_of(self.query)
    }
}

/// The order in which the frames of an animated GIF are played.
#[derive(Clone, Copy, PartialEq, Eq, Debug, Structural)]
pub enum GifRenderType {
    Forward,
    Backward,
    Both,
}

/// The query of a GIF render: colour substitutions and a play order.
pub struct GifRenderQuery {
    pub query: Option<String>,
    render_type: GifRenderType,
}

/// The play order that a `render_type` value names; unknown names mean
/// forward.
pub open spec fn render_type_for(v: Seq<char>) -> GifRenderType {
    if v == "backward"@ || v == "backwards"@ || v == "bwd"@ || v == "b"@ {
        GifRenderType::Backward
    } else if v == "both"@ || v == "bth"@ {
        GifRenderType::Both
    } else {
        GifRenderType::Forward
    }
}

/// The play order that a list of `&`-separated pieces sets: the last
/// `render_type=...` piece decides, and forward is the default.
pub open spec fn render_type_from(pairs: Seq<Seq<char>>) -> GifRenderType
    decreases pairs.len(),
{
    if pairs.len() == 0 {
        GifRenderType::Forward
    } else {
        let kv = split_on(pairs.last(), '=');
        if kv[0] == "render_type"@ {
            render_type_for(kv[1])
        } else {
            render_type_from(pairs.drop_last())
        }
    }
}

/// Every `render_type` piece carries a value (a piece that is just
/// `render_type` has none to read).
pub open spec fn render_type_pieces_have_values(pairs: Seq<Seq<char>>) -> bool {
    forall|i: int|
        0 <= i < pairs.len() ==> (#[trigger] split_on(pairs[i], '='))[0] == "render_type"@
            ==> split_on(pairs[i], '=').len() >= 2
}

/// Naming a play order in a query: a query that is, or ends in, the piece
/// `render_type=<name>` plays backward for the names `backward`,
/// `backwards`, `bwd` and `b`, back and forth for `both` and `bth`, and
/// forward for any other name, whatever pieces come before it.
pub proof fn lemma_render_type_named(prefix: Seq<char>, name: Seq<char>)
    requires
        !name.contains('&'),
        !name.contains('='),
    ensures
        render_type_from(split_on(prefix + "&render_type="@ + name, '&')) == render_type_from(
            split_on("render_type="@ + name, '&'),
        ),
        (name == "backward"@ || name == "backwards"@ || name == "bwd"@ || name == "b"@)
            ==> render_type_from(split_on("render_type="@ + name, '&')) == GifRenderType::Backward,
        (name == "both"@ || name == "bth"@) ==> render_type_from(split_on("render_type="@ + name, '&'))
            == GifRenderType::Both,
        !(name == "backward"@ || name == "backwards"@ || name == "bwd"@ || name == "b"@ || name
            == "both"@ || name == "bth"@) ==> render_type_from(split_on("render_type="@ + name, '&'))
            == GifRenderType::Forward,
{
    reveal_strlit("render_type");
    reveal_strlit("render_type=");
    reveal_strlit("&render_type=");
    reveal_strlit("backward");
    reveal_strlit("backwards");
    reveal_strlit("bwd");
    reveal_strlit("b");
    reveal_strlit("both");
    reveal_strlit("bth");
    let key = "render_type"@;
    assert(!key.contains('=')) by {
        if key.contains('=') {
            let i = choose|i: int| 0 <= i < key.len() && key[i] == '=';
            assert(key[i] != '=');
        }
    }
    assert(!key.contains('&')) by {
        if key.contains('&') {
            let i = choose|i: int| 0 <= i < key.len() && key[i] == '&';
            assert(key[i] != '&');
        }
    }
    let piece = "render_type="@ + name;
    assert("render_type="@ =~= key + seq!['=']);
    assert(piece =~= key + seq!['='] + name);
    crate::strings::lemma_split_without_sep(key, '=');
    crate::strings::lemma_split_join(key, name, '=');
    let kv = split_on(piece, '=');
    assert(kv =~= seq![key, name]);
    assert(!seq!['='].contains('&')) by {
        if seq!['='].contains('&') {
            assert(seq!['='][0] == '=');
        }
    }
    crate::strings::lemma_no_sep_concat(key, seq!['='], '&');
    crate::strings::lemma_no_sep_concat(key + seq!['='], name, '&');
    assert(!piece.contains('&'));
    crate::strings::lemma_split_without_sep(piece, '&');
    let alone = split_on(piece, '&');
    assert(alone.last() == piece);
    assert(render_type_from(alone) == render_type_for(name));
    assert("&render_type="@ =~= seq!['&'] + "render_type="@);
    assert(prefix + "&render_type="@ + name =~= prefix + seq!['&'] + piece);
    crate::strings::lemma_split_join(prefix, piece, '&');
    let joined = split_on(prefix + seq!['&'] + piece, '&');
    assert(joined.last() == piece);
    assert(render_type_from(joined) == render_type_for(name));
}

fn render_type_for_exec(v: &str) -> (t: GifRenderType)
    ensures
        t == render_type_for(v@),
{
    if str_equals(v, "backward") || str_equals(v, "backwards") || str_equals(v, "bwd")
        || str_equals(v, "b") {
        GifRenderType::Backward
    } else if str_equals(v, "both") || str_equals(v, "bth") {
        GifRenderType::Both
    } else {
        GifRenderType::Forward
    }
}

impl GifRenderQuery {
    /// Whether every `render_type` piece of a query string has a value.
    pub fn query_readable(query_string: &String) -> (ok: bool)
        ensures
            ok == render_type_pieces_have_values(split_on(query_string@, '&')),
    {
        let pairs = split_string(query_string.as_str(), '&');
        let ghost all = views(pairs@);
        let n = pairs.len();
        let mut i: usize = 0;
        while i < n
            invariant
                n == pairs@.len(),
                i <= n,
                all == views(pairs@),
                all == split_on(query_string@, '&'),
                forall|j: int|
                    0 <= j < i ==> (#[trigger] split_on(all[j], '='))[0] == "render_type"@
                        ==> split_on(all[j], '=').len() >= 2,
            decreases n - i,
        {
            assert(all[i as int] == pairs@[i as int]@);
            let kv = split_string(pairs[i].as_str(), '=');
            proof {
                crate::strings::lemma_split_nonempty(pairs@[i as int]@, '=');
            }
            assert(views(kv@)[0] == kv@[0]@);
            assert(split_on(all[i as int], '=') == views(kv@));
            if str_equals(kv[0].as_str(), "render_type") && kv.len() < 2 {
                return false;
            }
            i = i + 1;
        }
        true
    }

    /// No colour substitutions, played forward.
    pub fn _default() -> (q: Self)
        ensures
            q.spec_query() is None,
            q.spec_render_type() == GifRenderType::Forward,
    {
        GifRenderQuery { query: None, render_type: GifRenderType::Forward }
    }

    /// The query string, if any.
    pub closed spec fn spec_query(&self) -> Option<Seq<char>> {
        opt_view(self.query)
    }

    /// The play order this query asks for.
    pub closed spec fn spec_render_type(&self) -> GifRenderType {
        self.render_type
    }

    /// Reads the play order from a raw query string, keeping the string for
    /// the colour substitutions.
    pub fn new(query_string: String) -> (q: Self)
        requires
            render_type_pieces_have_values(split_on(query_string@, '&')),
        ensures
            q.spec_query() == Some(query_string@),
            q.spec_render_type() == render_type_from(split_on(query_string@, '&')),
    {
        let pairs = split_string(query_string.as_str(), '&');
        let ghost all = views(pairs@);
        let mut render_type = GifRenderType::Forward;
        let n = pairs.len();
        let mut i: usize = 0;
        while i < n
            invariant
                n == pairs@.len(),
                i <= n,
                all == views(pairs@),
                render_type_pieces_have_values(all),
                render_type == render_type_from(all.take(i as int)),
            decreases n - i,
        {
            let ghost taken = all.take(i + 1);
            assert(taken.drop_last() =~= all.take(i as int));
            assert(taken.last() == pairs@[i as int]@);
            let kv = split_string(pairs[i].as_str(), '=');
            proof {
                crate::strings::lemma_split_nonempty(pairs@[i as int]@, '=');
            }
            assert(views(kv@)[0] == kv@[0]@);
            if str_equals(kv[0].as_str(), "render_type") {
                assert(split_on(all[i as int], '=').len() >= 2);
                assert(views(kv@)[1] == kv@[1]@);
                render_type = render_type_for_exec(kv[1].as_str());
            }
            i = i + 1;
        }
        assert(all.take(n as int) =~= all);
        GifRenderQuery { query: Some(query_string), render_type }
    }

    /// The play order.
    pub fn get_render_type(&self) -> (t: GifRenderType)
        ensures
            t == self.spec_render_type(),
    {
        self.render_type
    }

    /// The colour substitutions that the query string asks for.
    pub fn get_color_subs(self) -> (subs: ColorSubs)
        ensures
            subs@ == spec_color_subs(self.spec_query()),
    {
        color_subs_of(self.query)
    }
}

/// A window of video frames to show: `start..end`, `diff` frames long.
pub struct VideoFrameQuery {
    pub start: usize,
    pub end: usize,
    pub diff: usize,
}

/// The start and end frames that a list of `&`-separated pieces sets before
/// clamping: the last `start=` and `end=` pieces (keys compared without
/// regard to ASCII case) decide; the defaults are 1 and `max_frame`.
pub open spec fn frame_bounds_from(pairs: Seq<Seq<char>>, max_frame: usize) -> (usize, usize)
    decreases pairs.len(),
{
    if pairs.len() == 0 {
        (1, max_frame)
    } else {
        let prev = frame_bounds_from(pairs.drop_last(), max_frame);
        let kv = split_on(pairs.last(), '=');
        let start = if eq_ignore_ascii_case(kv[0], "start"@) {
            parse_usize(kv[1])->0
        } else {
            prev.0
        };
        let end = if eq_ignore_ascii_case(kv[0], "end"@) {
            parse_usize(kv[1])->0
        } else {
            prev.1
        };
        (start, end)
    }
}

/// Every `start` or `end` piece carries a value that reads as a `usize`.
pub open spec fn frame_pieces_valid(pairs: Seq<Seq<char>>) -> bool {
    forall|i: int|
        0 <= i < pairs.len() ==> {
            let kv = #[trigger] split_on(pairs[i], '=');
            (eq_ignore_ascii_case(kv[0], "start"@) || eq_ignore_ascii_case(kv[0], "end"@)) ==> (
            kv.len() >= 2 && parse_usize(kv[1]) is Some)
        }
}

/// A window never ends before it starts, and never starts past the last
/// frame: a start beyond the end moves the end up, and a start beyond
/// `max_frame` moves both to `max_frame`.
pub open spec fn clamp_frame_range(start: usize, end: usize, max_frame: usize) -> (usize, usize) {
    let end = if start > end {
        start
    } else {
        end
    };
    if start > max_frame {
        (max_frame, max_frame)
    } else {
        (start, end)
    }
}

/// Clamping a window: a start within the video stays, and the window ends at
/// the later of that start and the end asked for, so an end before the
/// start leaves the window empty at the start; a start past the last frame
/// gives the empty window at the last frame.
pub proof fn lemma_clamp_frame_range(start: usize, end: usize, max_frame: usize)
    ensures
        start <= max_frame ==> clamp_frame_range(start, end, max_frame).0 == start,
        start <= max_frame ==> clamp_frame_range(start, end, max_frame).1 >= start
            && clamp_frame_range(start, end, max_frame).1 >= end && (clamp_frame_range(
            start,
            end,
            max_frame,
        ).1 == start || clamp_frame_range(start, end, max_frame).1 == end),
        start <= max_frame && start > end ==> clamp_frame_range(start, end, max_frame).1 == start,
        start > max_frame ==> clamp_frame_range(start, end, max_frame) == (max_frame, max_frame),
{
}

/// The window that a query string asks for.
pub open spec fn spec_frame_window(query: Seq<char>, max_frame: usize) -> (usize, usize) {
    let b = frame_bounds_from(split_on(query, '&'), max_frame);
    clamp_frame_range(b.0, b.1, max_frame)
}

fn eq_ignore_ascii_case_exec(s: &str, word: &str) -> (r: bool)
    ensures
        r == eq_ignore_ascii_case(s@, word@),
{
    let n = s.unicode_len();
    if n != word.unicode_len() {
        return false;
    }
    let mut i: usize = 0;
    while i < n
        invariant
            n == s@.len(),
            n == word@.len(),
            i <= n,
            forall|j: int| 0 <= j < i ==> ascii_lower(#[trigger] s@[j]) == word@[j],
        decreases n - i,
    {
        let c = s.get_char(i);
        let lower = if 'A' <= c && c <= 'Z' {
            ((c as u8) + 32) as char
        } else {
            c
        };
        if lower != word.get_char(i) {
            return false;
        }
        i = i + 1;
    }
    true
}

impl VideoFrameQuery {
    /// Whether every `start` and `end` piece of a query string carries a
    /// value that reads as a `usize`.
    pub fn query_readable(query: &String) -> (ok: bool)
        ensures
            ok == frame_pieces_valid(split_on(query@, '&')),
    {
        let pairs = split_string(query.as_str(), '&');
        let ghost all = views(pairs@);
        let n = pairs.len();
        let mut i: usize = 0;
        while i < n
            invariant
                n == pairs@.len(),
                i <= n,
                all == views(pairs@),
                all == split_on(query@, '&'),
                forall|j: int|
                    0 <= j < i ==> {
                        let kv = #[trigger] split_on(all[j], '=');
                        (eq_ignore_ascii_case(kv[0], "start"@) || eq_ignore_ascii_case(kv[0], "end"@))
                            ==> (kv.len() >= 2 && parse_usize(kv[1]) is Some)
                    },
            decreases n - i,
        {
            assert(all[i as int] == pairs@[i as int]@);
            let kv = split_string(pairs[i].as_str(), '=');
            proof {
                crate::strings::lemma_split_nonempty(pairs@[i as int]@, '=');
            }
            assert(views(kv@)[0] == kv@[0]@);
            assert(split_on(all[i as int], '=') == views(kv@));
            if eq_ignore_ascii_case_exec(kv[0].as_str(), "start") || eq_ignore_ascii_case_exec(
                kv[0].as_str(),
                "end",
            ) {
                if kv.len() < 2 {
                    return false;
                }
                assert(views(kv@)[1] == kv@[1]@);
                if parse_usize_exec(kv[1].as_str()).is_none() {
                    return false;
                }
            }
            i = i + 1;
        }
        true
    }

    /// Reads `start=` and `end=` from a query string and clamps them to the
    /// `max_frame` frames of a video.
    pub fn from_query(max_frame: usize, query: String) -> (q: Self)
        requires
            frame_pieces_valid(split_on(query@, '&')),
        ensures
            (q.start, q.end) == spec_frame_window(query@, max_frame),
            q.start <= q.end,
            q.start <= max_frame,
            q.diff == q.end - q.start,
    {
        let pairs = split_string(query.as_str(), '&');
        let ghost all = views(pairs@);
        let mut start: usize = 1;
        let mut end: usize = max_frame;
        let n = pairs.len();
        let mut i: usize = 0;
        while i < n
            invariant
                n == pairs@.len(),
                i <= n,
                all == views(pairs@),
                frame_pieces_valid(all),
                (start, end) == frame_bounds_from(all.take(i as int), max_frame),
            decreases n - i,
        {
            let ghost taken = all.take(i + 1);
            assert(taken.drop_last() =~= all.take(i as int));
            assert(taken.last() == pairs@[i as int]@);
            let kv = split_string(pairs[i].as_str(), '=');
            proof {
                crate::strings::lemma_split_nonempty(pairs@[i as int]@, '=');
            }
            assert(views(kv@)[0] == kv@[0]@);
            assert(split_on(all[i as int], '=') == views(kv@));
            if eq_ignore_ascii_case_exec(kv[0].as_str(), "start") {
                assert(views(kv@)[1] == kv@[1]@);
                start = parse_usize_exec(kv[1].as_str()).unwrap();
            }
            if eq_ignore_ascii_case_exec(kv[0].as_str(), "end") {
                assert(views(kv@)[1] == kv@[1]@);
                end = parse_usize_exec(kv[1].as_str()).unwrap();
            }
            i = i + 1;
        }
        assert(all.take(n as int) =~= all);
        if start > end {
            end = start;
        }
        if start > max_frame {
            start = max_frame;
            end = max_frame;
        }
        VideoFrameQuery { start: start, end: end, diff: end - start }
    }

    /// The empty window at frame 0.
    pub fn default() -> (q: Self)
        ensures
            q.start == 0,
            q.end == 0,
            q.diff == 0,
    {
        VideoFrameQuery { start: 0, end: 0, diff: 0 }
    }
}

} // verus!
