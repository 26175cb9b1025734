//! Stream candidates and quality selection.
use vstd::prelude::*;
use crate::text::{
    chars_of, chars_eq, parse_digits, parse_u32, trim, trim_bounds, all_ascii_digits,
    digits_value,
};

verus! {

/// One playable stream.
#[derive(Clone, Debug)]
pub struct Stream {
    /// Vertical resolution; 0 when unknown.
    pub height: u32,
    pub url: String,
    pub referer: String,
    pub provider: String,
    /// Default subtitle track from the embed, if any.
    pub subtitle: Option<String>,
}

/// The mathematical content of a [`Stream`].
pub struct StreamInfo {
    pub height: u32,
    pub url: Seq<char>,
    pub referer: Seq<char>,
    pub provider: Seq<char>,
    pub subtitle: Option<Seq<char>>,
}

/// The view of an optional string.
pub open spec fn opt_string(o: Option<String>) -> Option<Seq<char>> {
    match o {
        Some(s) => Some(s@),
        None => None,
    }
}

impl View for Stream {
    type V = StreamInfo;

    open spec fn view(&self) -> StreamInfo {
        StreamInfo {
            height: self.height,
            url: self.url@,
            referer: self.referer@,
            provider: self.provider@,
            subtitle: opt_string(self.subtitle),
        }
    }
}

/// The views of a list of streams.
pub open spec fn streams_view(v: Seq<Stream>) -> Seq<StreamInfo> {
    v.map_values(|s: Stream| s@)
}

/// The heights of a list of streams.
pub open spec fn heights(v: Seq<Stream>) -> Seq<u32> {
    v.map_values(|s: Stream| s.height)
}

/// The height a quality string asks for: `"720"`, `"720p"` or `" 1080P "`; a
/// trailing `p` is the unit. Zero is no height.
pub open spec fn quality_height(q: Seq<char>) -> Option<u32> {
    let t = trim(q);
    let u = if t.len() > 0 && (t.last() == 'p' || t.last() == 'P') {
        trim(t.drop_last())
    } else {
        t
    };
    match parse_u32(u) {
        Some(n) => if n > 0 {
            Some(n)
        } else {
            None
        },
        None => None,
    }
}

/// `"720"`, `"720p"`, `"1080P"` → height. ani-cli documents `-q 720p`; a
/// trailing p is the unit, not part of the number.
pub fn parse_quality_height(quality: &str) -> (r: Option<u32>)
    ensures
        r == quality_height(quality@),
{
    let q = chars_of(quality);
    let (a, b) = trim_bounds(&q);
    let t = crate::text::slice_vec(&q, a, b);
    let u = if t.len() > 0 && (t[t.len() - 1] == 'p' || t[t.len() - 1] == 'P') {
        let head = crate::text::slice_vec(&t, 0, t.len() - 1);
        assert(head@ == t@.drop_last());
        crate::text::trim_exec(&head)
    } else {
        t
    };
    let (from, plus) = if u.len() > 0 && u[0] == '+' {
        (1usize, true)
    } else {
        (0usize, false)
    };
    let ghost d = if u@.len() > 0 && u@[0] == '+' {
        u@.subrange(1, u@.len() as int)
    } else {
        u@
    };
    assert(d == u@.subrange(from as int, u@.len() as int));
    match parse_digits(&u, from, u.len(), 0xffff_ffff) {
        Some(v) => {
            if v > 0 {
                Some(v as u32)
            } else {
                None
            }
        },
        None => None,
    }
}

/// `i` is the first of the tallest streams.
pub open spec fn is_first_max(hs: Seq<u32>, i: int) -> bool {
    &&& 0 <= i < hs.len()
    &&& forall|j: int| 0 <= j < hs.len() ==> hs[j] <= hs[i]
    &&& forall|j: int| 0 <= j < i ==> hs[j] < hs[i]
}

/// `i` is the last of the shortest streams of known height.
pub open spec fn is_last_min_known(hs: Seq<u32>, i: int) -> bool {
    &&& 0 <= i < hs.len()
    &&& hs[i] > 0
    &&& forall|j: int| 0 <= j < hs.len() && hs[j] > 0 ==> hs[i] <= hs[j]
    &&& forall|j: int| i < j < hs.len() && hs[j] > 0 ==> hs[i] < hs[j]
}

/// `i` is the first stream of height `want`.
pub open spec fn is_first_eq(hs: Seq<u32>, want: u32, i: int) -> bool {
    &&& 0 <= i < hs.len()
    &&& hs[i] == want
    &&& forall|j: int| 0 <= j < i ==> hs[j] != want
}

/// `i` is the first of the tallest streams of known height at most `want`.
pub open spec fn is_first_max_below(hs: Seq<u32>, want: u32, i: int) -> bool {
    &&& 0 <= i < hs.len()
    &&& 0 < hs[i] <= want
    &&& forall|j: int| 0 <= j < hs.len() && 0 < hs[j] <= want ==> hs[j] <= hs[i]
    &&& forall|j: int| 0 <= j < i && 0 < hs[j] <= want ==> hs[j] < hs[i]
}

/// Which stream the quality string `q` selects, as an index into `hs`. The
/// streams are ranked tallest first, ties kept in their input order:
/// `"best"` takes the first of that ranking, `"worst"` the last of known
/// height (the very last when no height is known), and a height the first
/// exact match, else the tallest below it, else the best.
pub open spec fn quality_pick(hs: Seq<u32>, q: Seq<char>, r: Option<int>) -> bool {
    if hs.len() == 0 {
        r is None
    } else if q == "best"@ {
        r matches Some(i) && is_first_max(hs, i)
    } else if q == "worst"@ {
        if exists|j: int| 0 <= j < hs.len() && hs[j] > 0 {
            r matches Some(i) && is_last_min_known(hs, i)
        } else {
            r == Some(hs.len() - 1)
        }
    } else {
        match quality_height(q) {
            Some(want) => if exists|j: int| 0 <= j < hs.len() && hs[j] == want {
                r matches Some(i) && is_first_eq(hs, want, i)
            } else if exists|j: int| 0 <= j < hs.len() && 0 < #[trigger] hs[j] <= want {
                r matches Some(i) && is_first_max_below(hs, want, i)
            } else {
                r matches Some(i) && is_first_max(hs, i)
            },
            None => r matches Some(i) && is_first_max(hs, i),
        }
    }
}

/// The requested height is present neither exactly nor below: the selection
/// falls back to the best stream (the caller warns about it).
pub open spec fn quality_missing_spec(hs: Seq<u32>, q: Seq<char>) -> bool {
    &&& hs.len() > 0
    &&& q != "best"@
    &&& q != "worst"@
    &&& quality_height(q) matches Some(want) && !(exists|j: int|
        0 <= j < hs.len() && hs[j] == want) && !(exists|j: int|
        0 <= j < hs.len() && 0 < #[trigger] hs[j] <= want)
}

fn first_max(streams: &[Stream]) -> (i: usize)
    requires
        streams@.len() > 0,
    ensures
        is_first_max(heights(streams@), i as int),
{
    let ghost hs = heights(streams@);
    let mut best: usize = 0;
    let mut j: usize = 1;
    while j < streams.len()
        invariant
            hs == heights(streams@),
            1 <= j <= streams@.len(),
            best < j,
            forall|t: int| 0 <= t < j ==> hs[t] <= hs[best as int],
            forall|t: int| 0 <= t < best ==> hs[t] < hs[best as int],
        decreases streams.len() - j,
    {
        if streams[j].height > streams[best].height {
            best = j;
        }
        j = j + 1;
    }
    best
}

fn last_min_known(streams: &[Stream]) -> (r: Option<usize>)
    ensures
        match r {
            Some(i) => is_last_min_known(heights(streams@), i as int),
            None => forall|j: int| 0 <= j < streams@.len() ==> heights(streams@)[j] == 0,
        },
{
    let ghost hs = heights(streams@);
    let mut best: Option<usize> = None;
    let mut j: usize = 0;
    while j < streams.len()
        invariant
            hs == heights(streams@),
            j <= streams@.len(),
            match best {
                Some(b) => b < j && hs[b as int] > 0 && (forall|t: int|
                    0 <= t < j && hs[t] > 0 ==> hs[b as int] <= hs[t]) && (forall|t: int|
                    b < t < j && hs[t] > 0 ==> hs[b as int] < hs[t]),
                None => forall|t: int| 0 <= t < j ==> hs[t] == 0,
            },
        decreases streams.len() - j,
    {
        let h = streams[j].height;
        if h > 0 {
            match best {
                None => {
                    best = Some(j);
                },
                Some(b) => {
                    if h <= streams[b].height {
                        best = Some(j);
                    }
                },
            }
        }
        j = j + 1;
    }
    best
}

fn first_eq(streams: &[Stream], want: u32) -> (r: Option<usize>)
    ensures
        match r {
            Some(i) => is_first_eq(heights(streams@), want, i as int),
            None => forall|j: int| 0 <= j < streams@.len() ==> heights(streams@)[j] != want,
        },
{
    let ghost hs = heights(streams@);
    let mut j: usize = 0;
    while j < streams.len()
        invariant
            hs == heights(streams@),
            j <= streams@.len(),
            forall|t: int| 0 <= t < j ==> hs[t] != want,
        decreases streams.len() - j,
    {
        if streams[j].height == want {
            return Some(j);
        }
        j = j + 1;
    }
    None
}

fn first_max_below(streams: &[Stream], want: u32) -> (r: Option<usize>)
    ensures
        match r {
            Some(i) => is_first_max_below(heights(streams@), want, i as int),
            None => forall|j: int|
                0 <= j < streams@.len() ==> !(0 < #[trigger] heights(streams@)[j] <= want),
        },
{
    let ghost hs = heights(streams@);
    let mut best: Option<usize> = None;
    let mut j: usize = 0;
    while j < streams.len()
        invariant
            hs == heights(streams@),
            j <= streams@.len(),
            match best {
                Some(b) => b < j && 0 < hs[b as int] <= want && (forall|t: int|
                    0 <= t < j && 0 < hs[t] <= want ==> hs[t] <= hs[b as int]) && (forall|t: int|
                    0 <= t < b && 0 < hs[t] <= want ==> hs[t] < hs[b as int]),
                None => forall|t: int| 0 <= t < j ==> !(0 < #[trigger] hs[t] <= want),
            },
        decreases streams.len() - j,
    {
        let h = streams[j].height;
        if 0 < h && h <= want {
            match best {
                None => {
                    best = Some(j);
                },
                Some(b) => {
                    if h > streams[b].height {
                        best = Some(j);
                    }
                },
            }
        }
        j = j + 1;
    }
    best
}

/// Index of the stream for the requested quality (`"best"`, `"worst"` or a
/// height), or `None` when there are no streams.
pub fn select_quality_index(streams: &[Stream], quality: &str) -> (r: Option<usize>)
    ensures
        quality_pick(heights(streams@), quality@, match r {
            Some(i) => Some(i as int),
            None => None,
        }),
{
    if streams.len() == 0 {
        return None;
    }
    let q = chars_of(quality);
    let best_lit = chars_of("best");
    let worst_lit = chars_of("worst");
    if chars_eq(&q, &best_lit) {
        return Some(first_max(streams));
    }
    if chars_eq(&q, &worst_lit) {
        return match last_min_known(streams) {
            Some(i) => Some(i),
            None => Some(streams.len() - 1),
        };
    }
    match parse_quality_height(quality) {
        Some(want) => {
            match first_eq(streams, want) {
                Some(i) => Some(i),
                None => match first_max_below(streams, want) {
                    Some(i) => Some(i),
                    None => Some(first_max(streams)),
                },
            }
        },
        None => Some(first_max(streams)),
    }
}

/// Pick a stream for the requested quality ("best", "worst", or a height).
pub fn select_quality<'a>(streams: &'a [Stream], quality: &str) -> (r: Option<&'a Stream>)
    ensures
        exists|k: Option<int>|
            quality_pick(heights(streams@), quality@, k) && match k {
                Some(i) => r == Some(&streams@[i]),
                None => r is None,
            },
{
    match select_quality_index(streams, quality) {
        Some(i) => {
            assert(quality_pick(heights(streams@), quality@, Some(i as int)));
            Some(&streams[i])
        },
        None => {
            assert(quality_pick(heights(streams@), quality@, None::<int>));
            None
        },
    }
}

/// Whether the selection for `quality` falls back to the best stream because
/// the requested height is missing (the caller warns on stderr then).
pub fn quality_missing(streams: &[Stream], quality: &str) -> (b: bool)
    ensures
        b == quality_missing_spec(heights(streams@), quality@),
{
    if streams.len() == 0 {
        return false;
    }
    let q = chars_of(quality);
    let best_lit = chars_of("best");
    let worst_lit = chars_of("worst");
    if chars_eq(&q, &best_lit) || chars_eq(&q, &worst_lit) {
        return false;
    }
    match parse_quality_height(quality) {
        Some(want) => {
            let a = first_eq(streams, want);
            let b = first_max_below(streams, want);
            proof {
                let hs = heights(streams@);
                if let Some(i) = a {
                    assert(hs[i as int] == want);
                }
                if let Some(i) = b {
                    assert(0 < hs[i as int] <= want);
                }
            }
            a.is_none() && b.is_none()
        },
        None => false,
    }
}

/// A source URL a minter resolves an episode to.
pub struct SourceUrl {
    pub source_name: String,
    pub source_url: String,
}

} // verus!
