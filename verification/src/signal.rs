//! The names under which window functions and filters are requested, and
//! the trimming of fixed-point numerals used when exporting samples.
use vstd::prelude::*;
use crate::text::{chars_of, push_str, str_eq, string_of};

verus! {

/// `str::to_lowercase`: the full Unicode lower-case mapping of `s`.
pub uninterp spec fn lowercase(s: Seq<char>) -> Seq<char>;

/// `str::to_lowercase` (full Unicode case mapping).
#[verifier::external_body]
fn to_lowercase(s: &str) -> (r: String)
    ensures
        r@ == lowercase(s@),
{
    s.to_lowercase()
}

/// A window function.
#[derive(Debug, Clone, Copy, PartialEq, Eq)]
pub enum WindowKind {
    Hann,
    Hamming,
    Blackman,
    FlatTop,
    /// No windowing (every weight 1).
    Rectangular,
}

/// The window a lower-cased name requests.
pub open spec fn window_of(l: Seq<char>) -> Option<WindowKind> {
    if l == "hann"@ || l == "hanning"@ {
        Some(WindowKind::Hann)
    } else if l == "hamming"@ {
        Some(WindowKind::Hamming)
    } else if l == "blackman"@ {
        Some(WindowKind::Blackman)
    } else if l == "flat_top"@ {
        Some(WindowKind::FlatTop)
    } else if l == "none"@ || l == "rectangular"@ {
        Some(WindowKind::Rectangular)
    } else {
        None
    }
}

impl WindowKind {
    /// The window a lower-case name requests (`hann`/`hanning`, `hamming`,
    /// `blackman`, `flat_top`, `none`/`rectangular`).
    pub fn from_lowercase(l: &str) -> (r: Option<WindowKind>)
        ensures
            r == window_of(l@),
    {
        if str_eq(l, "hann") || str_eq(l, "hanning") {
            Some(WindowKind::Hann)
        } else if str_eq(l, "hamming") {
            Some(WindowKind::Hamming)
        } else if str_eq(l, "blackman") {
            Some(WindowKind::Blackman)
        } else if str_eq(l, "flat_top") {
            Some(WindowKind::FlatTop)
        } else if str_eq(l, "none") || str_eq(l, "rectangular") {
            Some(WindowKind::Rectangular)
        } else {
            None
        }
    }

    /// The window named `name`, in any case.
    pub fn resolve(name: &str) -> (r: Result<WindowKind, String>)
        ensures
            match window_of(lowercase(name@)) {
                Some(k) => r == Ok::<WindowKind, String>(k),
                None => r matches Err(m) && m@ == "unknown window type: "@ + name@,
            },
    {
        let l = to_lowercase(name);
        match WindowKind::from_lowercase(l.as_str()) {
            Some(k) => Ok(k),
            None => {
                let mut m = String::new();
                push_str(&mut m, "unknown window type: ");
                push_str(&mut m, name);
                Err(m)
            },
        }
    }
}

/// A first-order IIR filter stage.
#[derive(Debug, Clone, Copy, PartialEq, Eq)]
pub enum FilterKind {
    Lowpass,
    Highpass,
}

/// The filter a lower-cased type name requests.
pub open spec fn filter_of(l: Seq<char>) -> Option<FilterKind> {
    if l == "lowpass"@ {
        Some(FilterKind::Lowpass)
    } else if l == "highpass"@ {
        Some(FilterKind::Highpass)
    } else {
        None
    }
}

impl FilterKind {
    /// The filter a lower-case type name requests (`lowpass`, `highpass`).
    pub fn from_lowercase(l: &str) -> (r: Option<FilterKind>)
        ensures
            r == filter_of(l@),
    {
        if str_eq(l, "lowpass") {
            Some(FilterKind::Lowpass)
        } else if str_eq(l, "highpass") {
            Some(FilterKind::Highpass)
        } else {
            None
        }
    }

    /// The filter named `name`, in any case.
    pub fn resolve(name: &str) -> (r: Result<FilterKind, String>)
        ensures
            match filter_of(lowercase(name@)) {
                Some(k) => r == Ok::<FilterKind, String>(k),
                None => r matches Err(m) && m@ == "unknown filter type: "@ + name@,
            },
    {
        let l = to_lowercase(name);
        if let Some(k) = FilterKind::from_lowercase(l.as_str()) {
            Ok(k)
        } else {
            let mut m = String::new();
            push_str(&mut m, "unknown filter type: ");
            push_str(&mut m, name);
            Err(m)
        }
    }

    /// The filter `name` applied `order` times: the order must lie in
    /// `1..=8`, which is checked before the name.
    pub fn with_order(name: &str, order: u32) -> (r: Result<FilterKind, String>)
        ensures
            !(1 <= order <= 8) ==> (r matches Err(m) && m@ == "filter order must be 1..=8"@),
            1 <= order <= 8 ==> match filter_of(lowercase(name@)) {
                Some(k) => r == Ok::<FilterKind, String>(k),
                None => r matches Err(m) && m@ == "unknown filter type: "@ + name@,
            },
    {
        if order == 0 || order > 8 {
            let mut m = String::new();
            push_str(&mut m, "filter order must be 1..=8");
            Err(m)
        } else {
            FilterKind::resolve(name)
        }
    }
}

/// `s` without trailing `c` characters, as `str::trim_end_matches(c)`.
pub open spec fn trim_end_char(s: Seq<char>, c: char) -> Seq<char>
    decreases s.len(),
{
    if s.len() > 0 && s.last() == c {
        trim_end_char(s.drop_last(), c)
    } else {
        s
    }
}

/// A fixed-point numeral without the zeros ending its fraction, and without
/// the point when no fraction digit is left (`1.2500` gives `1.25`, `3.000`
/// gives `3`).
pub open spec fn trimmed_numeral(s: Seq<char>) -> Seq<char> {
    trim_end_char(trim_end_char(s, '0'), '.')
}

fn trim_end_bound(v: &Vec<char>, end: usize, c: char) -> (r: usize)
    requires
        end <= v@.len(),
    ensures
        r <= end,
        v@.subrange(0, r as int) == trim_end_char(v@.subrange(0, end as int), c),
{
    let mut b = end;
    while b > 0 && v[b - 1] == c
        invariant
            b <= end <= v@.len(),
            trim_end_char(v@.subrange(0, end as int), c) == trim_end_char(
                v@.subrange(0, b as int),
                c,
            ),
        decreases b,
    {
        assert(v@.subrange(0, b as int).drop_last() =~= v@.subrange(0, b - 1));
        b = b - 1;
    }
    b
}

/// Drops the zeros ending the fraction of a fixed-point numeral, then a
/// point left at the end.
pub fn trim_numeral(s: &str) -> (r: String)
    ensures
        r@ == trimmed_numeral(s@),
{
    let v = chars_of(s);
    let n = v.len();
    assert(v@.subrange(0, n as int) =~= v@);
    let a = trim_end_bound(&v, n, '0');
    let b = trim_end_bound(&v, a, '.');
    string_of(&v, 0, b)
}

} // verus!
