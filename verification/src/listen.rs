use vstd::prelude::*;
use vstd::string::*;
use crate::recall::{contains_text, has_text};
use crate::sink::opt_text;
use crate::detector::sat_add;

verus! {

/// What `str::to_lowercase` makes of a text (Unicode lowercase mapping).
pub uninterp spec fn lowercase(s: Seq<char>) -> Seq<char>;

/// Whether every character of a text is ASCII.
pub open spec fn is_ascii_text(s: Seq<char>) -> bool {
    forall|i: int| 0 <= i < s.len() ==> (#[trigger] s[i] as u32) < 128
}

/// The ASCII lowercase of a character: `A`-`Z` become `a`-`z`, every other
/// character stays.
pub open spec fn ascii_lower(c: char) -> char {
    if 65 <= (c as u32) && (c as u32) <= 90 {
        ((c as u32) + 32) as char
    } else {
        c
    }
}

/// A text lowercased character by character in ASCII.
pub open spec fn ascii_lowered(s: Seq<char>) -> Seq<char> {
    s.map_values(|c: char| ascii_lower(c))
}

/// Calls `str::to_lowercase`; the result is the text named by `lowercase`.
/// On an ASCII text it lowercases each character in ASCII and keeps the
/// length (std documents that ASCII letters map to their ASCII lowercase and
/// every other character of an ASCII text is its own lowercase).
#[verifier::external_body]
fn to_lowercase(s: &str) -> (r: String)
    ensures
        r@ == lowercase(s@),
        is_ascii_text(s@) ==> r@ == ascii_lowered(s@),
{
    s.to_lowercase()
}

/// Whether a device name, already lowercased, contains the lowercased request.
/// A device whose name could not be read (`None`) matches nothing.
pub open spec fn lowered_matches(name: Option<String>, want: Seq<char>) -> bool {
    match name {
        Some(n) => has_text(n@, want),
        None => false,
    }
}

/// The index of the first name containing `want`; names and `want` are
/// already lowercased.
pub fn first_containing(names: &[Option<String>], want: &str) -> (r: Option<usize>)
    ensures
        match r {
            Some(i) => i < names@.len() && lowered_matches(names@[i as int], want@)
                && forall|j: int| 0 <= j < i ==> !lowered_matches(#[trigger] names@[j], want@),
            None => forall|j: int| 0 <= j < names@.len() ==> !lowered_matches(#[trigger] names@[j], want@),
        },
{
    let mut i: usize = 0;
    while i < names.len()
        invariant
            i <= names@.len(),
            forall|j: int| 0 <= j < i ==> !lowered_matches(#[trigger] names@[j], want@),
        decreases names@.len() - i,
    {
        match &names[i] {
            Some(n) => {
                if contains_text(n.as_str(), want) {
                    return Some(i);
                }
            },
            None => {},
        }
        i = i + 1;
    }
    None
}

/// The lowercased form of an optional name.
pub open spec fn lowered(name: Option<String>) -> Option<Seq<char>> {
    match name {
        Some(n) => Some(lowercase(n@)),
        None => None,
    }
}

/// Whether a device name contains `want`, ignoring case (both sides
/// lowercased by `str::to_lowercase`); an unreadable name matches nothing.
pub open spec fn device_matches(name: Option<String>, want: Seq<char>) -> bool {
    lowered(name) matches Some(n) && has_text(n, lowercase(want))
}

/// Whether a device name, if readable, is ASCII text.
pub open spec fn ascii_name(name: Option<String>) -> bool {
    match name {
        Some(n) => is_ascii_text(n@),
        None => true,
    }
}

/// Whether a readable device name contains `want`, both lowercased in ASCII.
pub open spec fn ascii_matches(name: Option<String>, want: Seq<char>) -> bool {
    match name {
        Some(n) => has_text(ascii_lowered(n@), ascii_lowered(want)),
        None => false,
    }
}

/// What `lowercase` is known to make of an ASCII device name.
spec fn lowered_known(name: Option<String>) -> bool {
    match name {
        Some(n) => is_ascii_text(n@) ==> lowercase(n@) == ascii_lowered(n@),
        None => true,
    }
}

/// The index of the first device whose name contains `want`, ignoring case
/// (both sides lowercased by `str::to_lowercase`). A device whose name could
/// not be read (`None`) matches nothing.
pub fn select_device(names: &[Option<String>], want: &str) -> (r: Option<usize>)
    ensures
        match r {
            Some(i) => i < names@.len() && device_matches(names@[i as int], want@)
                && forall|j: int| 0 <= j < i ==> !#[trigger] device_matches(names@[j], want@),
            None => forall|j: int| 0 <= j < names@.len() ==> !#[trigger] device_matches(names@[j], want@),
        },
        is_ascii_text(want@) && (forall|j: int| 0 <= j < names@.len() ==> #[trigger] ascii_name(names@[j])) ==> match r {
            Some(i) => i < names@.len() && ascii_matches(names@[i as int], want@)
                && forall|j: int| 0 <= j < i ==> !#[trigger] ascii_matches(names@[j], want@),
            None => forall|j: int| 0 <= j < names@.len() ==> !#[trigger] ascii_matches(names@[j], want@),
        },
{
    let want_lower = to_lowercase(want);
    let mut lower: Vec<Option<String>> = Vec::new();
    let mut i: usize = 0;
    while i < names.len()
        invariant
            i <= names@.len(),
            lower@.len() == i,
            forall|j: int| 0 <= j < i ==> opt_text(#[trigger] lower@[j]) == lowered(names@[j]),
            forall|j: int| 0 <= j < i ==> #[trigger] lowered_known(names@[j]),
        decreases names@.len() - i,
    {
        let l = match &names[i] {
            Some(n) => Some(to_lowercase(n.as_str())),
            None => None,
        };
        lower.push(l);
        i = i + 1;
    }
    let r = first_containing(lower.as_slice(), want_lower.as_str());
    proof {
        assert forall|j: int| #![trigger lower@[j]] #![trigger device_matches(names@[j], want@)] 0 <= j < names@.len() implies
            lowered_matches(lower@[j], want_lower@) == device_matches(names@[j], want@) by {
            assert(opt_text(lower@[j]) == lowered(names@[j]));
        }
        if is_ascii_text(want@) && (forall|j: int| 0 <= j < names@.len() ==> #[trigger] ascii_name(names@[j])) {
            assert forall|j: int|
                #![trigger device_matches(names@[j], want@)]
                #![trigger ascii_matches(names@[j], want@)]
                0 <= j < names@.len() implies device_matches(names@[j], want@) == ascii_matches(names@[j], want@) by {
                assert(lowered_known(names@[j]));
                assert(ascii_name(names@[j]));
            }
        }
    }
    r
}

/// Paces the live debug readout: one report per half second of input audio.
pub struct MeterClock {
    pub interval: usize,
    pub acc: usize,
}

impl MeterClock {
    /// A clock reporting every `max(sample_rate / 2, 1)` input samples.
    pub fn new(sample_rate: u32) -> (c: Self)
        ensures
            c.interval == if sample_rate / 2 == 0 { 1 } else { sample_rate as int / 2 },
            c.acc == 0,
    {
        let half = sample_rate / 2;
        MeterClock { interval: if half == 0 { 1 } else { half as usize }, acc: 0 }
    }

    /// Counts `n` more input samples; returns whether a report is due, in
    /// which case the count starts again from zero.
    pub fn tick(&mut self, n: usize) -> (due: bool)
        ensures
            final(self).interval == old(self).interval,
            due == (sat_add(old(self).acc as nat, n as nat) >= old(self).interval),
            final(self).acc == if due { 0 } else { sat_add(old(self).acc as nat, n as nat) },
    {
        self.acc = self.acc.saturating_add(n);
        if self.acc >= self.interval {
            self.acc = 0;
            true
        } else {
            false
        }
    }
}

} // verus!
