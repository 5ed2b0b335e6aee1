//! Brand-independent oscilloscope control: each brand's SCPI commands come
//! from a library of templates with `{name}` placeholders, and the generic
//! settings, gettings and channel bookkeeping are resolved against it. The
//! socket I/O itself is done by the caller with the commands computed here.
use vstd::prelude::*;
use crate::channel_mask::ChannelMask;
use crate::dispatch::{find_in, gettings, gettings_spec, settings, settings_spec};
use crate::order::{lemma_permutation_no_duplicates, sort_strings, sorted, string_views};
use crate::text::{
    decimal, lemma_decimal_reads_back, digit_char, digit_to_char, chars_eq, chars_eq_ignore_ascii_case, chars_of, contains, eq_ignore_ascii_case, find,
    find_chars, is_digit, is_digit_exec, join, lemma_find_from_bounds, occurs_at, lemma_lookup_skip, lookup,
    lemma_lookup, parse_u8, parse_unsigned, push_char, push_joined, push_str, str_eq, string_of, trim,
    trim_string, trimmed_chars,
};

verus! {

/// Errors of oscilloscope control.
#[derive(Debug)]
pub enum ScopeError {
    Connection(String),
    Acquisition(String),
    Config(String),
    Io(String),
}

/// One brand's entry in the command library.
pub struct ScopeSpec {
    pub description: String,
    pub default_ip: String,
    pub idn_pattern: String,
    pub endian: String,
    pub quirks: String,
    /// Command name and SCPI template, such as
    /// `("set_v_scale", ":CHANnel{ch}:SCALe {val}")`.
    pub cmds: Vec<(String, String)>,
}

/// The command library: an optional port shared by all brands and one entry
/// per brand.
pub struct ScopeLibrary {
    pub port: Option<u16>,
    pub scopes: Vec<(String, ScopeSpec)>,
}

/// Key/value string pairs as character sequences.
pub open spec fn string_pairs(v: Seq<(String, String)>) -> Seq<(Seq<char>, Seq<char>)> {
    v.map_values(|p: (String, String)| (p.0@, p.1@))
}

/// Substitution arguments as character sequences.
pub open spec fn str_pairs(v: Seq<(&str, &str)>) -> Seq<(Seq<char>, Seq<char>)> {
    v.map_values(|p: (&str, &str)| (p.0@, p.1@))
}

/// The keys of a list of pairs.
pub open spec fn keys_of<V>(v: Seq<(Seq<char>, V)>) -> Seq<Seq<char>> {
    v.map_values(|p: (Seq<char>, V)| p.0)
}

impl ScopeSpec {
    /// The command templates by name.
    pub open spec fn templates(&self) -> Seq<(Seq<char>, Seq<char>)> {
        string_pairs(self.cmds@)
    }

    /// Each command is named once, as in a map from names to templates.
    pub open spec fn wf(&self) -> bool {
        keys_of(self.templates()).no_duplicates()
    }

    /// Both entries hold the same strings and command list.
    pub open spec fn same_as(&self, other: &ScopeSpec) -> bool {
        &&& self.description == other.description
        &&& self.default_ip == other.default_ip
        &&& self.idn_pattern == other.idn_pattern
        &&& self.endian == other.endian
        &&& self.quirks == other.quirks
        &&& self.cmds@ == other.cmds@
    }

    /// A copy of this entry.
    pub fn duplicate(&self) -> (r: Self)
        ensures
            r.same_as(self),
    {
        let mut cmds: Vec<(String, String)> = Vec::new();
        let mut i: usize = 0;
        while i < self.cmds.len()
            invariant
                i <= self.cmds@.len(),
                cmds@ == self.cmds@.subrange(0, i as int),
            decreases self.cmds@.len() - i,
        {
            let (k, v) = &self.cmds[i];
            cmds.push((k.clone(), v.clone()));
            i = i + 1;
            assert(cmds@ =~= self.cmds@.subrange(0, i as int));
        }
        assert(cmds@ =~= self.cmds@);
        ScopeSpec {
            description: self.description.clone(),
            default_ip: self.default_ip.clone(),
            idn_pattern: self.idn_pattern.clone(),
            endian: self.endian.clone(),
            quirks: self.quirks.clone(),
            cmds,
        }
    }
}

impl ScopeLibrary {
    /// The brand entries by name.
    pub open spec fn entries(&self) -> Seq<(Seq<char>, ScopeSpec)> {
        self.scopes@.map_values(|p: (String, ScopeSpec)| (p.0@, p.1))
    }

    /// Each brand is named once, and each brand names each of its commands
    /// once, as in a map from brand names to entries.
    pub open spec fn wf(&self) -> bool {
        &&& keys_of(self.entries()).no_duplicates()
        &&& forall|i: int| 0 <= i < self.scopes@.len() ==> (#[trigger] self.scopes@[i]).1.wf()
    }

    /// The entry found for a brand in a well-formed library is well-formed.
    pub proof fn lemma_lookup_wf(&self, brand: Seq<char>)
        requires
            self.wf(),
        ensures
            lookup(self.entries(), brand) matches Some(s) ==> s.wf(),
    {
        lemma_lookup(self.entries(), brand);
        if lookup(self.entries(), brand) is Some {
            let i = choose|i: int|
                0 <= i < self.entries().len() && (#[trigger] self.entries()[i]).0 == brand
                    && self.entries()[i].1 == lookup(self.entries(), brand).unwrap();
            assert(self.entries()[i].1 == self.scopes@[i].1);
        }
    }

    /// The entry of `brand`, if the library has one.
    pub fn get(&self, brand: &str) -> (r: Option<&ScopeSpec>)
        ensures
            match r {
                Some(s) => lookup(self.entries(), brand@) == Some(*s),
                None => lookup(self.entries(), brand@) is None,
            },
    {
        let ghost entries = self.entries();
        assert(entries.subrange(0, entries.len() as int) =~= entries);
        let mut i: usize = 0;
        while i < self.scopes.len()
            invariant
                i <= self.scopes@.len(),
                entries == self.entries(),
                lookup(entries, brand@) == lookup(
                    entries.subrange(i as int, entries.len() as int),
                    brand@,
                ),
            decreases self.scopes@.len() - i,
        {
            if str_eq(self.scopes[i].0.as_str(), brand) {
                return Some(&self.scopes[i].1);
            }
            proof {
                lemma_lookup_skip(entries, brand@, i as int);
            }
            i = i + 1;
        }
        None
    }

    /// The brand names, in library order.
    pub fn brand_names(&self) -> (r: Vec<String>)
        ensures
            string_views(r@) == keys_of(self.entries()),
    {
        let mut r: Vec<String> = Vec::new();
        let mut i: usize = 0;
        while i < self.scopes.len()
            invariant
                i <= self.scopes@.len(),
                string_views(r@) == keys_of(self.entries()).subrange(0, i as int),
            decreases self.scopes@.len() - i,
        {
            let ghost before = string_views(r@);
            r.push(self.scopes[i].0.clone());
            proof {
                assert(string_views(r@) =~= before.push(self.scopes@[i as int].0@));
                assert(keys_of(self.entries())[i as int] == self.scopes@[i as int].0@);
            }
            i = i + 1;
            assert(string_views(r@) =~= keys_of(self.entries()).subrange(0, i as int));
        }
        assert(keys_of(self.entries()).subrange(0, i as int) =~= keys_of(self.entries()));
        r
    }
}

// ── Template substitution ───────────────────────────────────

/// The placeholder `{k}`.
pub open spec fn placeholder(k: Seq<char>) -> Seq<char> {
    seq!['{'] + k + seq!['}']
}

/// `s` with the first `{k}` replaced by `v`; unchanged when there is none.
pub open spec fn substitute_first(s: Seq<char>, k: Seq<char>, v: Seq<char>) -> Seq<char> {
    match find(s, placeholder(k)) {
        Some(i) => s.subrange(0, i) + v + s.subrange(i + placeholder(k).len(), s.len() as int),
        None => s,
    }
}

/// `s` with the substitutions applied one after the other, in order.
pub open spec fn substitute_all(s: Seq<char>, subs: Seq<(Seq<char>, Seq<char>)>) -> Seq<char>
    decreases subs.len(),
{
    if subs.len() == 0 {
        s
    } else {
        substitute_first(substitute_all(s, subs.drop_last()), subs.last().0, subs.last().1)
    }
}

/// The command `name` of a brand with the substitutions applied, or `None`
/// when the brand has no such command.
pub open spec fn expand_command(
    templates: Seq<(Seq<char>, Seq<char>)>,
    name: Seq<char>,
    subs: Seq<(Seq<char>, Seq<char>)>,
) -> Option<Seq<char>> {
    match lookup(templates, name) {
        Some(t) => Some(substitute_all(t, subs)),
        None => None,
    }
}

/// The message of a missing command.
pub open spec fn missing_command_message(name: Seq<char>, brand: Seq<char>) -> Seq<char> {
    "command '"@ + name + "' not found for '"@ + brand + "'"@
}

fn substitute_first_chars(s: &Vec<char>, k: &str, v: &str) -> (r: Vec<char>)
    ensures
        r@ == substitute_first(s@, k@, v@),
{
    let kc = chars_of(k);
    let mut pat: Vec<char> = Vec::new();
    pat.push('{');
    let mut j: usize = 0;
    while j < kc.len()
        invariant
            j <= kc@.len(),
            pat@ == seq!['{'] + kc@.subrange(0, j as int),
        decreases kc@.len() - j,
    {
        pat.push(kc[j]);
        j = j + 1;
        assert(pat@ =~= seq!['{'] + kc@.subrange(0, j as int));
    }
    pat.push('}');
    assert(pat@ =~= placeholder(k@));
    let sl = s.len();
    match find_chars(s, &pat, 0) {
        None => {
            let mut r: Vec<char> = Vec::new();
            let mut i: usize = 0;
            while i < sl
                invariant
                    sl == s@.len(),
                    i <= sl,
                    r@ == s@.subrange(0, i as int),
                decreases sl - i,
            {
                r.push(s[i]);
                i = i + 1;
                assert(r@ =~= s@.subrange(0, i as int));
            }
            assert(r@ =~= s@);
            r
        },
        Some(at) => {
            proof {
                lemma_find_from_bounds(s@, pat@, 0);
            }
            let vc = chars_of(v);
            let end = at + pat.len();
            let mut r: Vec<char> = Vec::new();
            let mut i: usize = 0;
            while i < at
                invariant
                    at <= sl,
                    sl == s@.len(),
                    i <= at,
                    r@ == s@.subrange(0, i as int),
                decreases at - i,
            {
                r.push(s[i]);
                i = i + 1;
                assert(r@ =~= s@.subrange(0, i as int));
            }
            let mut i: usize = 0;
            while i < vc.len()
                invariant
                    i <= vc@.len(),
                    r@ == s@.subrange(0, at as int) + vc@.subrange(0, i as int),
                decreases vc@.len() - i,
            {
                r.push(vc[i]);
                i = i + 1;
                assert(r@ =~= s@.subrange(0, at as int) + vc@.subrange(0, i as int));
            }
            let mut i: usize = end;
            while i < sl
                invariant
                    end <= i <= sl,
                    sl == s@.len(),
                    r@ == s@.subrange(0, at as int) + vc@ + s@.subrange(end as int, i as int),
                decreases sl - i,
            {
                r.push(s[i]);
                i = i + 1;
                assert(r@ =~= s@.subrange(0, at as int) + vc@ + s@.subrange(end as int, i as int));
            }
            assert(vc@.subrange(0, vc@.len() as int) =~= vc@);
            r
        },
    }
}

/// Applies all substitutions to a template.
pub fn substitute(template: &str, subs: &[(&str, &str)]) -> (r: String)
    ensures
        r@ == substitute_all(template@, str_pairs(subs@)),
{
    let mut s = chars_of(template);
    let mut i: usize = 0;
    assert(str_pairs(subs@).subrange(0, 0) =~= Seq::<(Seq<char>, Seq<char>)>::empty());
    while i < subs.len()
        invariant
            i <= subs@.len(),
            s@ == substitute_all(template@, str_pairs(subs@).subrange(0, i as int)),
        decreases subs@.len() - i,
    {
        let (k, v) = subs[i];
        s = substitute_first_chars(&s, k, v);
        proof {
            let pre = str_pairs(subs@).subrange(0, i as int);
            let next = str_pairs(subs@).subrange(0, i + 1);
            assert(next.drop_last() =~= pre);
            assert(next.last() == (k@, v@));
        }
        i = i + 1;
    }
    assert(str_pairs(subs@).subrange(0, subs@.len() as int) =~= str_pairs(subs@));
    let n = s.len();
    string_of(&s, 0, n)
}

/// The template of command `name` in a brand's command list.
fn find_template<'a>(cmds: &'a Vec<(String, String)>, name: &str) -> (r: Option<&'a String>)
    ensures
        match r {
            Some(t) => lookup(string_pairs(cmds@), name@) == Some(t@),
            None => lookup(string_pairs(cmds@), name@) is None,
        },
{
    let ghost entries = string_pairs(cmds@);
    assert(entries.subrange(0, entries.len() as int) =~= entries);
    let mut i: usize = 0;
    while i < cmds.len()
        invariant
            i <= cmds@.len(),
            entries == string_pairs(cmds@),
            lookup(entries, name@) == lookup(entries.subrange(i as int, entries.len() as int), name@),
        decreases cmds@.len() - i,
    {
        if str_eq(cmds[i].0.as_str(), name) {
            return Some(&cmds[i].1);
        }
        proof {
            lemma_lookup_skip(entries, name@, i as int);
        }
        i = i + 1;
    }
    None
}

// ── Responses and waveform text ─────────────────────────────

/// A channel-state response reads as "on": `1` or `ON` in any ASCII case,
/// surrounding whitespace ignored.
pub open spec fn response_is_on(resp: Seq<char>) -> bool {
    trim(resp) == "1"@ || eq_ignore_ascii_case(trim(resp), "ON"@)
}

/// Whether a channel-state response reads as "on".
pub fn is_on_response(resp: &str) -> (r: bool)
    ensures
        r == response_is_on(resp@),
{
    let t = trimmed_chars(resp);
    let one = chars_of("1");
    let on = chars_of("ON");
    chars_eq(&t, &one) || chars_eq_ignore_ascii_case(&t, &on)
}

/// The value of the `ch` argument, when the first argument named `ch`
/// parses as a `u8`.
pub open spec fn channel_kwarg(kwargs: Seq<(Seq<char>, Seq<char>)>) -> Option<u8> {
    match lookup(kwargs, "ch"@) {
        Some(v) => parse_u8(v),
        None => None,
    }
}

/// The first argument named `ch`, parsed as a `u8`.
pub fn channel_arg(kwargs: &[(&str, &str)]) -> (r: Option<u8>)
    ensures
        r == channel_kwarg(str_pairs(kwargs@)),
{
    let ghost entries = str_pairs(kwargs@);
    assert(entries.subrange(0, entries.len() as int) =~= entries);
    let mut i: usize = 0;
    while i < kwargs.len()
        invariant
            i <= kwargs@.len(),
            entries == str_pairs(kwargs@),
            lookup(entries, "ch"@) == lookup(entries.subrange(i as int, entries.len() as int), "ch"@),
        decreases kwargs@.len() - i,
    {
        let (k, v) = kwargs[i];
        if str_eq(k, "ch") {
            let c = chars_of(v);
            return match parse_unsigned(&c, 255) {
                Some(n) => Some(n as u8),
                None => None,
            };
        }
        proof {
            lemma_lookup_skip(entries, "ch"@, i as int);
        }
        i = i + 1;
    }
    None
}

/// `c` can start a number in a waveform: an ASCII digit, `.`, `-` or `+`.
pub open spec fn starts_number(c: char) -> bool {
    is_digit(c) || c == '.' || c == '-' || c == '+'
}

/// The first index at or after `i` holding a character that can start a
/// number, or the length of `s` when there is none.
pub open spec fn number_start(s: Seq<char>, i: int) -> int
    decreases s.len() - i,
{
    if i >= s.len() {
        s.len() as int
    } else if starts_number(s[i]) {
        i
    } else {
        number_start(s, i + 1)
    }
}

/// `s` split at every `sep`, as `str::split` with a character pattern.
pub open spec fn split_fields(s: Seq<char>, sep: char) -> Seq<Seq<char>>
    decreases s.len(),
{
    if s.len() == 0 {
        seq![Seq::empty()]
    } else {
        let init = split_fields(s.drop_last(), sep);
        if s.last() == sep {
            init.push(Seq::empty())
        } else {
            init.update(init.len() - 1, init.last().push(s.last()))
        }
    }
}

pub proof fn lemma_split_fields_nonempty(s: Seq<char>, sep: char)
    ensures
        split_fields(s, sep).len() >= 1,
    decreases s.len(),
{
    if s.len() > 0 {
        lemma_split_fields_nonempty(s.drop_last(), sep);
    }
}

/// Splitting at `sep` loses and adds nothing: no field holds `sep`, and the
/// fields joined by `sep` give back `s` (the fields of `str::split`).
pub proof fn lemma_split_fields_join(s: Seq<char>, sep: char)
    ensures
        split_fields(s, sep).len() >= 1,
        join(split_fields(s, sep), seq![sep]) == s,
        forall|i: int, j: int|
            0 <= i < split_fields(s, sep).len() && 0 <= j < split_fields(s, sep)[i].len()
                ==> split_fields(s, sep)[i][j] != sep,
    decreases s.len(),
{
    if s.len() > 0 {
        let init = split_fields(s.drop_last(), sep);
        lemma_split_fields_join(s.drop_last(), sep);
        let r = split_fields(s, sep);
        if s.last() == sep {
            assert(r == init.push(Seq::<char>::empty()));
            assert(r.drop_last() =~= init);
            assert(s =~= s.drop_last() + seq![sep] + Seq::<char>::empty());
            assert forall|i: int, j: int| 0 <= i < r.len() && 0 <= j < r[i].len() implies r[i][j] != sep by {
                if i < init.len() {
                    assert(r[i] == init[i]);
                }
            }
        } else {
            let last = init.last().push(s.last());
            assert(r == init.update(init.len() - 1, last));
            if init.len() == 1 {
                assert(join(r, seq![sep]) == r[0]);
                assert(s =~= init[0].push(s.last()));
            } else {
                assert(r.drop_last() =~= init.drop_last());
                assert(join(r, seq![sep]) == join(init.drop_last(), seq![sep]) + seq![sep] + last);
                assert(join(init, seq![sep]) == join(init.drop_last(), seq![sep]) + seq![sep] + init.last());
                let jd = join(init.drop_last(), seq![sep]);
                assert(s =~= s.drop_last().push(s.last()));
                assert((jd + seq![sep] + init.last()).push(s.last()) =~= jd + seq![sep] + last);
            }
            assert forall|i: int, j: int| 0 <= i < r.len() && 0 <= j < r[i].len() implies r[i][j] != sep by {
                if i < init.len() - 1 {
                    assert(r[i] == init[i]);
                } else {
                    assert(r[i] == last);
                    if j < init.last().len() {
                        assert(last[j] == init.last()[j]);
                    }
                }
            }
        }
    }
}

/// `number_start(s, i)` is the first index at or after `i` holding a digit,
/// `.`, `-` or `+`, or the length of `s` when there is none.
proof fn lemma_number_start(s: Seq<char>, i: int)
    requires
        0 <= i <= s.len(),
    ensures
        i <= number_start(s, i) <= s.len(),
        forall|j: int| i <= j < number_start(s, i) ==> !(48 <= (s[j] as u32) <= 57 || s[j] == '.'
            || s[j] == '-' || s[j] == '+'),
        number_start(s, i) < s.len() ==> (48 <= (s[number_start(s, i)] as u32) <= 57
            || s[number_start(s, i)] == '.' || s[number_start(s, i)] == '-' || s[number_start(s, i)]
            == '+'),
    decreases s.len() - i,
{
    if i < s.len() && !starts_number(s[i]) {
        lemma_number_start(s, i + 1);
    }
}

/// An ASCII waveform response is read from its first digit, `.`, `-` or `+`
/// on (after trimming): what comes before is header text and is dropped,
/// and the rest is split at every comma; a response that starts with a
/// number (a leading sign included) loses nothing.
pub proof fn lemma_waveform_fields(raw: Seq<char>)
    ensures
        forall|k: int|
            #![trigger trim(raw).subrange(k, trim(raw).len() as int)]
            0 <= k <= trim(raw).len() && (forall|j: int|
                0 <= j < k ==> !(48 <= (trim(raw)[j] as u32) <= 57 || trim(raw)[j] == '.'
                    || trim(raw)[j] == '-' || trim(raw)[j] == '+')) && (k < trim(raw).len() ==> (48
                <= (trim(raw)[k] as u32) <= 57 || trim(raw)[k] == '.' || trim(raw)[k] == '-'
                || trim(raw)[k] == '+')) ==> waveform_fields(raw) == if k == trim(raw).len() {
                Seq::<Seq<char>>::empty()
            } else {
                split_fields(trim(raw).subrange(k, trim(raw).len() as int), ',')
            },
        trim(raw).len() > 0 && (48 <= (trim(raw)[0] as u32) <= 57 || trim(raw)[0] == '.'
            || trim(raw)[0] == '-' || trim(raw)[0] == '+') ==> waveform_fields(raw)
            == split_fields(trim(raw), ','),
{
    let t = trim(raw);
    let n = number_start(t, 0);
    lemma_number_start(t, 0);
    assert forall|k: int|
        #![trigger t.subrange(k, t.len() as int)]
        0 <= k <= t.len() && (forall|j: int|
            0 <= j < k ==> !(48 <= (t[j] as u32) <= 57 || t[j] == '.' || t[j] == '-' || t[j] == '+'))
            && (k < t.len() ==> (48 <= (t[k] as u32) <= 57 || t[k] == '.' || t[k] == '-' || t[k]
            == '+')) implies waveform_fields(raw) == if k == t.len() {
            Seq::<Seq<char>>::empty()
        } else {
            split_fields(t.subrange(k, t.len() as int), ',')
        } by {
        if k < n {
            assert(!(48 <= (t[k] as u32) <= 57 || t[k] == '.' || t[k] == '-' || t[k] == '+'));
        }
        if n < k {
            assert(!(48 <= (t[n] as u32) <= 57 || t[n] == '.' || t[n] == '-' || t[n] == '+'));
        }
        assert(k == n);
        assert(t.subrange(k, t.len() as int).len() == 0 <==> k == t.len());
    }
    if t.len() > 0 && (48 <= (t[0] as u32) <= 57 || t[0] == '.' || t[0] == '-' || t[0] == '+') {
        assert(n == 0);
        assert(t.subrange(0, t.len() as int) =~= t);
    }
}

/// The comma-separated fields of an ASCII waveform response: surrounding
/// whitespace and any header before the first number are dropped; no data
/// gives no fields.
pub open spec fn waveform_fields(raw: Seq<char>) -> Seq<Seq<char>> {
    let body = trim(raw);
    let data = body.subrange(number_start(body, 0), body.len() as int);
    if data.len() == 0 {
        Seq::empty()
    } else {
        split_fields(data, ',')
    }
}

/// Splits an ASCII waveform response into its comma-separated fields
/// (each still to be trimmed and read as a number).
pub fn waveform_csv_fields(raw: &str) -> (r: Vec<String>)
    ensures
        string_views(r@) == waveform_fields(raw@),
{
    let body = trimmed_chars(raw);
    let n = body.len();
    let mut start: usize = 0;
    while start < n && !(is_digit_exec(body[start]) || body[start] == '.' || body[start] == '-'
        || body[start] == '+')
        invariant
            n == body@.len(),
            start <= n,
            number_start(body@, 0) == number_start(body@, start as int),
        decreases n - start,
    {
        start = start + 1;
    }
    let ghost data = body@.subrange(start as int, n as int);
    let mut r: Vec<String> = Vec::new();
    if start == n {
        assert(data.len() == 0);
        return r;
    }
    let mut cur = String::new();
    let mut i: usize = start;
    assert(data.subrange(0, 0) =~= Seq::<char>::empty());
    while i < n
        invariant
            start < n,
            n == body@.len(),
            start <= i <= n,
            data == body@.subrange(start as int, n as int),
            string_views(r@).push(cur@) == split_fields(data.subrange(0, i - start), ','),
        decreases n - i,
    {
        let c = body[i];
        let ghost pre = data.subrange(0, i - start);
        let ghost next = data.subrange(0, i + 1 - start);
        assert(next.drop_last() =~= pre);
        assert(next.last() == c);
        let ghost before = string_views(r@);
        if c == ',' {
            let done = cur;
            r.push(done);
            cur = String::new();
            assert(string_views(r@) =~= before.push(done@));
            assert(string_views(r@).push(cur@) =~= before.push(done@).push(Seq::empty()));
        } else {
            push_char(&mut cur, c);
            assert(string_views(r@).push(cur@) =~= before.push(cur@));
        }
        i = i + 1;
    }
    assert(data.subrange(0, n - start) =~= data);
    r.push(cur);
    r
}

// ── Brand detection ─────────────────────────────────────────

/// `str::to_uppercase`: the full Unicode upper-case mapping of `s`.
pub uninterp spec fn uppercase(s: Seq<char>) -> Seq<char>;

/// `str::to_uppercase` (full Unicode case mapping).
#[verifier::external_body]
fn to_uppercase(s: &str) -> (r: String)
    ensures
        r@ == uppercase(s@),
{
    s.to_uppercase()
}

/// The first brand of `patterns` (brand, pattern pairs, in order) whose
/// pattern occurs in `idn`.
pub open spec fn first_brand_with_pattern(patterns: Seq<(Seq<char>, Seq<char>)>, idn: Seq<char>) -> Option<
    Seq<char>,
>
    decreases patterns.len(),
{
    if patterns.len() == 0 {
        None
    } else if contains(idn, patterns[0].1) {
        Some(patterns[0].0)
    } else {
        first_brand_with_pattern(patterns.drop_first(), idn)
    }
}

/// `p` occurs in `s` exactly when it occurs at some index.
proof fn lemma_contains_occurs(s: Seq<char>, p: Seq<char>)
    ensures
        contains(s, p) <==> exists|k: int| occurs_at(s, p, k),
{
    lemma_find_from_bounds(s, p, 0);
    if exists|k: int| occurs_at(s, p, k) {
        let k = choose|k: int| occurs_at(s, p, k);
        assert(0 <= k);
    }
}

/// Brand matching is substring matching: a brand is found exactly when the
/// pattern of some brand occurs anywhere in the response, and the brand
/// found is the first one in order whose pattern occurs there; no brand
/// before it has its pattern anywhere in the response.
pub proof fn lemma_brand_match_is_substring(ps: Seq<(Seq<char>, Seq<char>)>, s: Seq<char>)
    ensures
        first_brand_with_pattern(ps, s) is Some <==> exists|i: int, k: int|
            0 <= i < ps.len() && #[trigger] occurs_at(s, ps[i].1, k),
        first_brand_with_pattern(ps, s) matches Some(b) ==> exists|i: int|
            0 <= i < ps.len() && (#[trigger] ps[i]).0 == b && (exists|k: int| occurs_at(s, ps[i].1, k))
                && forall|h: int, m: int| 0 <= h < i ==> !#[trigger] occurs_at(s, ps[h].1, m),
    decreases ps.len(),
{
    if ps.len() > 0 {
        let rest = ps.drop_first();
        lemma_brand_match_is_substring(rest, s);
        lemma_contains_occurs(s, ps[0].1);
        if contains(s, ps[0].1) {
            let k = choose|k: int| occurs_at(s, ps[0].1, k);
            assert(occurs_at(s, ps[0].1, k));
        } else {
            if exists|i: int, k: int| 0 <= i < ps.len() && #[trigger] occurs_at(s, ps[i].1, k) {
                let (i, k) = choose|i: int, k: int| 0 <= i < ps.len() && #[trigger] occurs_at(s, ps[i].1, k);
                assert(i != 0);
                assert(rest[i - 1] == ps[i]);
                assert(occurs_at(s, rest[i - 1].1, k));
            }
            if first_brand_with_pattern(ps, s) is Some {
                let b = first_brand_with_pattern(ps, s).unwrap();
                let i = choose|i: int|
                    0 <= i < rest.len() && (#[trigger] rest[i]).0 == b && (exists|k: int|
                        occurs_at(s, rest[i].1, k)) && forall|h: int, m: int|
                        0 <= h < i ==> !#[trigger] occurs_at(s, rest[h].1, m);
                assert(ps[i + 1] == rest[i]);
                assert forall|h: int, m: int| 0 <= h < i + 1 implies !#[trigger] occurs_at(s, ps[h].1, m) by {
                    if h > 0 {
                        assert(ps[h] == rest[h - 1]);
                    }
                }
            }
        }
    }
}

/// Brand detection finds a brand exactly when some brand's upper-cased
/// pattern occurs anywhere in the trimmed, upper-cased response, and the
/// brand found is one whose pattern occurs there.
pub proof fn lemma_detect_brand_by_substring(lib: &ScopeLibrary, idn: Seq<char>)
    ensures
        first_brand_with_pattern(upper_patterns(lib.entries()), normalized_idn(idn)) is Some
            <==> exists|i: int, k: int|
            0 <= i < lib.scopes@.len() && #[trigger] occurs_at(
                normalized_idn(idn),
                uppercase(lib.scopes@[i].1.idn_pattern@),
                k,
            ),
        first_brand_with_pattern(upper_patterns(lib.entries()), normalized_idn(idn)) matches Some(b)
            ==> exists|i: int, k: int|
            0 <= i < lib.scopes@.len() && lib.scopes@[i].0@ == b && #[trigger] occurs_at(
                normalized_idn(idn),
                uppercase(lib.scopes@[i].1.idn_pattern@),
                k,
            ),
{
    let ps = upper_patterns(lib.entries());
    let s = normalized_idn(idn);
    lemma_brand_match_is_substring(ps, s);
    assert forall|i: int| 0 <= i < lib.scopes@.len() implies #[trigger] ps[i] == (
        lib.scopes@[i].0@,
        uppercase(lib.scopes@[i].1.idn_pattern@),
    ) by {}
    if exists|i: int, k: int|
        0 <= i < lib.scopes@.len() && #[trigger] occurs_at(s, uppercase(lib.scopes@[i].1.idn_pattern@), k) {
        let (i, k) = choose|i: int, k: int|
            0 <= i < lib.scopes@.len() && #[trigger] occurs_at(s, uppercase(lib.scopes@[i].1.idn_pattern@), k);
        assert(ps[i] == (lib.scopes@[i].0@, uppercase(lib.scopes@[i].1.idn_pattern@)));
        assert(occurs_at(s, ps[i].1, k));
    }
    if first_brand_with_pattern(ps, s) is Some {
        let b = first_brand_with_pattern(ps, s).unwrap();
        let i = choose|i: int|
            0 <= i < ps.len() && (#[trigger] ps[i]).0 == b && (exists|k: int| occurs_at(s, ps[i].1, k))
                && forall|h: int, m: int| 0 <= h < i ==> !#[trigger] occurs_at(s, ps[h].1, m);
        let k = choose|k: int| occurs_at(s, ps[i].1, k);
        assert(ps[i] == (lib.scopes@[i].0@, uppercase(lib.scopes@[i].1.idn_pattern@)));
        assert(lib.scopes@[i].0@ == b && occurs_at(s, uppercase(lib.scopes@[i].1.idn_pattern@), k));
    }
}

/// The library's brands, in order, each with its upper-cased pattern.
pub open spec fn upper_patterns(entries: Seq<(Seq<char>, ScopeSpec)>) -> Seq<(Seq<char>, Seq<char>)> {
    entries.map_values(|e: (Seq<char>, ScopeSpec)| (e.0, uppercase(e.1.idn_pattern@)))
}

/// The response to `*IDN?` as matched against the brand patterns.
pub open spec fn normalized_idn(idn: Seq<char>) -> Seq<char> {
    uppercase(trim(idn))
}

/// The message when no brand matches a response.
pub open spec fn no_brand_message(idn: Seq<char>) -> Seq<char> {
    "no brand matches *IDN? response: "@ + idn
}

/// The first brand whose pattern occurs in `idn`.
pub fn match_brand(patterns: &Vec<(String, String)>, idn: &str) -> (r: Result<String, ScopeError>)
    ensures
        match first_brand_with_pattern(string_pairs(patterns@), idn@) {
            Some(b) => r matches Ok(s) && s@ == b,
            None => r matches Err(ScopeError::Config(m)) && m@ == no_brand_message(idn@),
        },
{
    let uc = chars_of(idn);
    let ghost entries = string_pairs(patterns@);
    assert(entries.subrange(0, entries.len() as int) =~= entries);
    let mut i: usize = 0;
    while i < patterns.len()
        invariant
            i <= patterns@.len(),
            entries == string_pairs(patterns@),
            uc@ == idn@,
            first_brand_with_pattern(entries, idn@) == first_brand_with_pattern(
                entries.subrange(i as int, entries.len() as int),
                idn@,
            ),
        decreases patterns@.len() - i,
    {
        let pc = chars_of(patterns[i].1.as_str());
        let ghost rest = entries.subrange(i as int, entries.len() as int);
        assert(rest[0] == entries[i as int]);
        assert(rest.drop_first() =~= entries.subrange(i + 1, entries.len() as int));
        if find_chars(&uc, &pc, 0).is_some() {
            return Ok(patterns[i].0.clone());
        }
        i = i + 1;
    }
    let mut m = String::new();
    push_str(&mut m, "no brand matches *IDN? response: ");
    push_str(&mut m, idn);
    Err(ScopeError::Config(m))
}

/// The brand whose identification pattern occurs in an `*IDN?` response,
/// both compared upper-cased; the first such brand in library order.
pub fn detect_brand_in(lib: &ScopeLibrary, idn: &str) -> (r: Result<String, ScopeError>)
    ensures
        match first_brand_with_pattern(upper_patterns(lib.entries()), normalized_idn(idn@)) {
            Some(b) => r matches Ok(s) && s@ == b,
            None => r matches Err(ScopeError::Config(m)) && m@ == no_brand_message(
                normalized_idn(idn@),
            ),
        },
{
    let t = trim_string(idn);
    let upper = to_uppercase(t.as_str());
    let mut pats: Vec<(String, String)> = Vec::new();
    let mut i: usize = 0;
    while i < lib.scopes.len()
        invariant
            i <= lib.scopes@.len(),
            string_pairs(pats@) == upper_patterns(lib.entries()).subrange(0, i as int),
        decreases lib.scopes@.len() - i,
    {
        let ghost before = string_pairs(pats@);
        let p = to_uppercase(lib.scopes[i].1.idn_pattern.as_str());
        pats.push((lib.scopes[i].0.clone(), p));
        proof {
            assert(string_pairs(pats@) =~= before.push(
                (lib.scopes@[i as int].0@, uppercase(lib.scopes@[i as int].1.idn_pattern@)),
            ));
            assert(upper_patterns(lib.entries())[i as int] == (
                lib.scopes@[i as int].0@,
                uppercase(lib.scopes@[i as int].1.idn_pattern@),
            ));
        }
        i = i + 1;
        assert(string_pairs(pats@) =~= upper_patterns(lib.entries()).subrange(0, i as int));
    }
    assert(upper_patterns(lib.entries()).subrange(0, i as int) =~= upper_patterns(lib.entries()));
    match_brand(&pats, upper.as_str())
}

// ── The oscilloscope ────────────────────────────────────────

/// The port used when the library names none.
pub const DEFAULT_PORT: u16 = 5025;

/// The message of an unknown brand, listing the available ones.
pub open spec fn unknown_brand_message(brand: Seq<char>, available: Seq<Seq<char>>) -> Seq<char> {
    "unknown brand '"@ + brand + "', available: "@ + join(available, ", "@)
}

/// The state of one oscilloscope of a known brand.
pub struct Oscilloscope {
    brand: String,
    spec: ScopeSpec,
    connected: bool,
    timeout_ms: u64,
    default_port: u16,
    active: ChannelMask,
    instrument_id: String,
}

impl Oscilloscope {
    /// The brand's entry names each command once.
    #[verifier::type_invariant]
    spec fn inv(self) -> bool {
        self.spec.wf()
    }

    pub closed spec fn spec_brand(&self) -> Seq<char> {
        self.brand@
    }

    pub closed spec fn spec_scope(&self) -> ScopeSpec {
        self.spec
    }

    /// The brand's command templates.
    pub open spec fn templates(&self) -> Seq<(Seq<char>, Seq<char>)> {
        self.spec_scope().templates()
    }

    pub closed spec fn spec_connected(&self) -> bool {
        self.connected
    }

    pub closed spec fn spec_timeout_ms(&self) -> u64 {
        self.timeout_ms
    }

    pub closed spec fn spec_default_port(&self) -> u16 {
        self.default_port
    }

    pub closed spec fn spec_active(&self) -> ChannelMask {
        self.active
    }

    pub closed spec fn spec_instrument_id(&self) -> Seq<char> {
        self.instrument_id@
    }

    /// Everything but the active channels, the identification and the
    /// connection flag is the same in both.
    pub open spec fn same_setup(&self, other: &Oscilloscope) -> bool {
        &&& self.spec_brand() == other.spec_brand()
        &&& self.spec_scope().same_as(&other.spec_scope())
        &&& self.spec_timeout_ms() == other.spec_timeout_ms()
        &&& self.spec_default_port() == other.spec_default_port()
    }

    /// The brands of the library, sorted, each listed once.
    pub fn brands(lib: &ScopeLibrary) -> (r: Vec<String>)
        requires
            lib.wf(),
        ensures
            sorted(string_views(r@)),
            string_views(r@).to_multiset() == keys_of(lib.entries()).to_multiset(),
            string_views(r@).no_duplicates(),
    {
        let names = lib.brand_names();
        let r = sort_strings(&names);
        proof {
            lemma_permutation_no_duplicates(keys_of(lib.entries()), string_views(r@));
        }
        r
    }

    /// A one-line description of a brand.
    pub fn info(lib: &ScopeLibrary, brand: &str) -> (r: Result<String, String>)
        ensures
            match lookup(lib.entries(), brand@) {
                Some(spec) => r matches Ok(s) && s@ == brand@ + " \u{2014} "@ + spec.description@,
                None => r matches Err(m) && m@ == "unknown brand '"@ + brand@ + "'"@,
            },
    {
        match lib.get(brand) {
            Some(spec) => {
                let mut s = String::new();
                push_str(&mut s, brand);
                push_str(&mut s, " \u{2014} ");
                push_str(&mut s, spec.description.as_str());
                Ok(s)
            },
            None => {
                let mut m = String::new();
                push_str(&mut m, "unknown brand '");
                push_str(&mut m, brand);
                push_str(&mut m, "'");
                Err(m)
            },
        }
    }

    /// A disconnected oscilloscope of `brand`, with no active channel and
    /// the identification `OFFLINE`; its port is the library's, else 5025.
    pub fn new(brand: &str, timeout_ms: u64, lib: &ScopeLibrary) -> (r: Result<Self, ScopeError>)
        requires
            lib.wf(),
        ensures
            match lookup(lib.entries(), brand@) {
                Some(spec) => r matches Ok(o) && {
                    &&& o.spec_brand() == brand@
                    &&& o.spec_scope().same_as(&spec)
                    &&& o.spec_timeout_ms() == timeout_ms
                    &&& o.spec_default_port() == match lib.port {
                        Some(p) => p,
                        None => DEFAULT_PORT,
                    }
                    &&& !o.spec_connected()
                    &&& o.spec_active()@ == Set::<u8>::empty()
                    &&& o.spec_instrument_id() == "OFFLINE"@
                },
                None => r matches Err(ScopeError::Config(m)) && exists|names: Seq<Seq<char>>|
                    sorted(names) && names.to_multiset() == keys_of(lib.entries()).to_multiset()
                        && m@ == unknown_brand_message(brand@, names),
            },
    {
        match lib.get(brand) {
            Some(spec) => {
                proof {
                    lib.lemma_lookup_wf(brand@);
                }
                let port = match lib.port {
                    Some(p) => p,
                    None => DEFAULT_PORT,
                };
                let mut id = String::new();
                push_str(&mut id, "OFFLINE");
                Ok(Oscilloscope {
                    brand: brand.to_owned(),
                    spec: spec.duplicate(),
                    connected: false,
                    timeout_ms,
                    default_port: port,
                    active: ChannelMask::new(),
                    instrument_id: id,
                })
            },
            None => {
                let avail = Self::brands(lib);
                let mut m = String::new();
                push_str(&mut m, "unknown brand '");
                push_str(&mut m, brand);
                push_str(&mut m, "', available: ");
                push_joined(&mut m, &avail, ", ");
                assert(m@ == unknown_brand_message(brand@, string_views(avail@)));
                Err(ScopeError::Config(m))
            },
        }
    }

    /// The brand name.
    pub fn brand(&self) -> (r: &str)
        ensures
            r@ == self.spec_brand(),
    {
        self.brand.as_str()
    }

    /// The port to connect to when none is given.
    pub fn default_port(&self) -> (r: u16)
        ensures
            r == self.spec_default_port(),
    {
        self.default_port
    }

    /// The I/O timeout in milliseconds.
    pub fn timeout_ms(&self) -> (r: u64)
        ensures
            r == self.spec_timeout_ms(),
    {
        self.timeout_ms
    }

    /// Whether a connection is open.
    pub fn is_connected(&self) -> (r: bool)
        ensures
            r == self.spec_connected(),
    {
        self.connected
    }

    /// The active channels.
    pub fn active(&self) -> (r: ChannelMask)
        ensures
            r == self.spec_active(),
    {
        self.active
    }

    /// The active channels in ascending order.
    pub fn active_channels(&self) -> (r: Vec<u8>)
        ensures
            r@ == self.spec_active().members(),
    {
        let (arr, n) = self.active.to_array();
        let mut v: Vec<u8> = Vec::new();
        let mut i: usize = 0;
        while i < n
            invariant
                n <= 8,
                i <= n,
                v@ == arr@.subrange(0, i as int),
            decreases n - i,
        {
            v.push(arr[i]);
            i = i + 1;
            assert(v@ =~= arr@.subrange(0, i as int));
        }
        v
    }

    /// The `*IDN?` identification (`OFFLINE` before the first connection).
    pub fn instrument_id(&self) -> (r: &str)
        ensures
            r@ == self.spec_instrument_id(),
    {
        self.instrument_id.as_str()
    }

    /// The brand's byte order for binary waveforms is big-endian.
    pub fn is_big_endian(&self) -> (r: bool)
        ensures
            r == eq_ignore_ascii_case(self.spec_scope().endian@, "big"@),
    {
        let e = chars_of(self.spec.endian.as_str());
        let big = chars_of("big");
        chars_eq_ignore_ascii_case(&e, &big)
    }

    /// The brand command `name` with its placeholders filled in.
    pub fn cmd(&self, name: &str, subs: &[(&str, &str)]) -> (r: Result<String, ScopeError>)
        ensures
            match expand_command(self.templates(), name@, str_pairs(subs@)) {
                Some(c) => r matches Ok(s) && s@ == c,
                None => r matches Err(ScopeError::Config(m)) && m@ == missing_command_message(
                    name@,
                    self.spec_brand(),
                ),
            },
    {
        match find_template(&self.spec.cmds, name) {
            Some(t) => Ok(substitute(t.as_str(), subs)),
            None => {
                let mut m = String::new();
                push_str(&mut m, "command '");
                push_str(&mut m, name);
                push_str(&mut m, "' not found for '");
                push_str(&mut m, self.brand.as_str());
                push_str(&mut m, "'");
                Err(ScopeError::Config(m))
            },
        }
    }

    /// The brand's command names, sorted, each listed once.
    pub fn commands(&self) -> (r: Vec<String>)
        ensures
            sorted(string_views(r@)),
            string_views(r@).to_multiset() == keys_of(self.templates()).to_multiset(),
            string_views(r@).no_duplicates(),
    {
        proof {
            use_type_invariant(self);
        }
        let mut names: Vec<String> = Vec::new();
        let mut i: usize = 0;
        while i < self.spec.cmds.len()
            invariant
                i <= self.spec.cmds@.len(),
                string_views(names@) == keys_of(self.templates()).subrange(0, i as int),
            decreases self.spec.cmds@.len() - i,
        {
            let ghost before = string_views(names@);
            names.push(self.spec.cmds[i].0.clone());
            proof {
                assert(string_views(names@) =~= before.push(self.spec.cmds@[i as int].0@));
                assert(keys_of(self.templates())[i as int] == self.spec.cmds@[i as int].0@);
            }
            i = i + 1;
            assert(string_views(names@) =~= keys_of(self.templates()).subrange(0, i as int));
        }
        assert(keys_of(self.templates()).subrange(0, i as int) =~= keys_of(self.templates()));
        let r = sort_strings(&names);
        proof {
            lemma_permutation_no_duplicates(keys_of(self.templates()), string_views(r@));
        }
        r
    }
}

/// The message of an unknown generic name of the given kind
/// (`setting` or `getting`).
pub open spec fn unknown_name_message(kind: Seq<char>, name: Seq<char>) -> Seq<char> {
    "unknown "@ + kind + " '"@ + name + "'"@
}

/// The command for a generic name: `None` when the table lacks the name,
/// else the brand command it maps to, expanded (`None` inside when the brand
/// lacks that command).
pub open spec fn dispatch_command(
    table: Seq<(Seq<char>, (Seq<char>, Seq<Seq<char>>))>,
    templates: Seq<(Seq<char>, Seq<char>)>,
    name: Seq<char>,
    subs: Seq<(Seq<char>, Seq<char>)>,
) -> Option<Option<Seq<char>>> {
    match lookup(table, name) {
        Some(e) => Some(expand_command(templates, e.0, subs)),
        None => None,
    }
}

/// Whatever a brand's templates and the arguments, a generic setting writes
/// the brand command of its own name (`timebase` writes `set_h_scale`,
/// `time_position` writes `set_h_pos`, ...) and a generic getting queries
/// its own (`vertical_offset` queries `get_v_offset`, ...), expanded with
/// the arguments.
pub proof fn lemma_generic_names_resolve(
    templates: Seq<(Seq<char>, Seq<char>)>,
    subs: Seq<(Seq<char>, Seq<char>)>,
)
    ensures
        dispatch_command(settings_spec(), templates, "channel_on"@, subs) == Some(
            expand_command(templates, "set_ch_on"@, subs),
        ),
        dispatch_command(settings_spec(), templates, "channel_off"@, subs) == Some(
            expand_command(templates, "set_ch_off"@, subs),
        ),
        dispatch_command(settings_spec(), templates, "vertical_scale"@, subs) == Some(
            expand_command(templates, "set_v_scale"@, subs),
        ),
        dispatch_command(settings_spec(), templates, "vertical_offset"@, subs) == Some(
            expand_command(templates, "set_v_offset"@, subs),
        ),
        dispatch_command(settings_spec(), templates, "coupling"@, subs) == Some(
            expand_command(templates, "set_coupling"@, subs),
        ),
        dispatch_command(settings_spec(), templates, "timebase"@, subs) == Some(
            expand_command(templates, "set_h_scale"@, subs),
        ),
        dispatch_command(settings_spec(), templates, "time_position"@, subs) == Some(
            expand_command(templates, "set_h_pos"@, subs),
        ),
        dispatch_command(settings_spec(), templates, "trigger_source"@, subs) == Some(
            expand_command(templates, "set_trig_source"@, subs),
        ),
        dispatch_command(settings_spec(), templates, "trigger_level"@, subs) == Some(
            expand_command(templates, "set_trig_level"@, subs),
        ),
        dispatch_command(settings_spec(), templates, "trigger_slope"@, subs) == Some(
            expand_command(templates, "set_trig_slope"@, subs),
        ),
        dispatch_command(gettings_spec(), templates, "channel_check"@, subs) == Some(
            expand_command(templates, "check_ch"@, subs),
        ),
        dispatch_command(gettings_spec(), templates, "vertical_scale"@, subs) == Some(
            expand_command(templates, "get_v_scale"@, subs),
        ),
        dispatch_command(gettings_spec(), templates, "vertical_offset"@, subs) == Some(
            expand_command(templates, "get_v_offset"@, subs),
        ),
        dispatch_command(gettings_spec(), templates, "coupling"@, subs) == Some(
            expand_command(templates, "get_coupling"@, subs),
        ),
        dispatch_command(gettings_spec(), templates, "timebase"@, subs) == Some(
            expand_command(templates, "get_h_scale"@, subs),
        ),
        dispatch_command(gettings_spec(), templates, "time_position"@, subs) == Some(
            expand_command(templates, "get_h_pos"@, subs),
        ),
        dispatch_command(gettings_spec(), templates, "trigger_source"@, subs) == Some(
            expand_command(templates, "get_trig_source"@, subs),
        ),
        dispatch_command(gettings_spec(), templates, "trigger_level"@, subs) == Some(
            expand_command(templates, "get_trig_level"@, subs),
        ),
        dispatch_command(gettings_spec(), templates, "trigger_slope"@, subs) == Some(
            expand_command(templates, "get_trig_slope"@, subs),
        ),
{
    crate::dispatch::lemma_settings_table();
    crate::dispatch::lemma_gettings_table();
}

/// The change a setting makes to the active channels once its command has
/// been written: `channel_on` / `channel_off` with a numeric `ch` argument
/// add / remove that channel; anything else changes nothing.
pub open spec fn after_setting(
    active: Set<u8>,
    name: Seq<char>,
    kwargs: Seq<(Seq<char>, Seq<char>)>,
) -> Set<u8> {
    match channel_kwarg(kwargs) {
        Some(c) => if name == "channel_on"@ {
            active.insert(c)
        } else if name == "channel_off"@ {
            active.remove(c)
        } else {
            active
        },
        None => active,
    }
}

/// A setting of this name and arguments names a channel the bitfield can hold.
pub open spec fn setting_channel_in_range(name: Seq<char>, kwargs: Seq<(Seq<char>, Seq<char>)>) -> bool {
    (name == "channel_on"@ || name == "channel_off"@) ==> match channel_kwarg(kwargs) {
        Some(c) => 1 <= c <= 8,
        None => true,
    }
}

/// `channel_on` with `ch` set to a channel's number marks that channel
/// active, `channel_off` marks it inactive; both name a channel the
/// bitfield can hold.
pub proof fn lemma_channel_on_off(active: Set<u8>, c: u8)
    requires
        1 <= c <= 8,
    ensures
        setting_channel_in_range("channel_on"@, seq![("ch"@, decimal(c as nat))]),
        setting_channel_in_range("channel_off"@, seq![("ch"@, decimal(c as nat))]),
        after_setting(active, "channel_on"@, seq![("ch"@, decimal(c as nat))]) == active.insert(c),
        after_setting(active, "channel_off"@, seq![("ch"@, decimal(c as nat))]) == active.remove(c),
{
    let kw = seq![("ch"@, decimal(c as nat))];
    lemma_decimal_reads_back(c as nat);
    assert(lookup(kw, "ch"@) == Some(decimal(c as nat)));
    assert(channel_kwarg(kw) == Some(c));
    reveal_strlit("channel_on");
    reveal_strlit("channel_off");
    assert("channel_on"@ != "channel_off"@) by {
        assert("channel_on"@.len() != "channel_off"@.len());
    }
}

/// In a template whose text before the placeholder `{k}` holds no `{`,
/// substituting `k` puts the value in the placeholder's place.
pub proof fn lemma_substitution_fills_placeholder(
    pre: Seq<char>,
    k: Seq<char>,
    v: Seq<char>,
    post: Seq<char>,
)
    requires
        forall|i: int| 0 <= i < pre.len() ==> pre[i] != '{',
    ensures
        substitute_first(pre + placeholder(k) + post, k, v) == pre + v + post,
{
    let p = placeholder(k);
    let s = pre + p + post;
    let n = pre.len() as int;
    assert(s.subrange(n, n + p.len()) =~= p);
    assert forall|j: int| 0 <= j < n implies !crate::text::occurs_at(s, p, j) by {
        assert(s[j] == pre[j]);
        if crate::text::occurs_at(s, p, j) {
            assert(s.subrange(j, j + p.len())[0] == s[j]);
            assert(p[0] == '{');
        }
    }
    crate::text::lemma_find_from_first(s, p, 0, n);
    assert(s.subrange(0, n) =~= pre);
    assert(s.subrange(n + p.len(), s.len() as int) =~= post);
}

/// A command asked for without substitutions is its template unchanged.
pub proof fn lemma_cmd_without_substitutions(templates: Seq<(Seq<char>, Seq<char>)>, name: Seq<char>)
    ensures
        expand_command(templates, name, Seq::empty()) == lookup(templates, name),
{
}

impl Oscilloscope {
    fn dispatch(
        &self,
        table: &Vec<crate::dispatch::Dispatch>,
        kind: &str,
        name: &str,
        kwargs: &[(&str, &str)],
    ) -> (r: Result<String, ScopeError>)
        ensures
            match dispatch_command(
                crate::dispatch::dispatch_views(table@),
                self.templates(),
                name@,
                str_pairs(kwargs@),
            ) {
                None => r matches Err(ScopeError::Config(m)) && m@ == unknown_name_message(
                    kind@,
                    name@,
                ),
                Some(Some(c)) => r matches Ok(s) && s@ == c,
                Some(None) => r matches Err(ScopeError::Config(m)) && m@
                    == missing_command_message(
                    lookup(crate::dispatch::dispatch_views(table@), name@).unwrap().0,
                    self.spec_brand(),
                ),
            },
    {
        match find_in(table, name) {
            Some((ck, _params)) => self.cmd(ck, kwargs),
            None => {
                let mut m = String::new();
                push_str(&mut m, "unknown ");
                push_str(&mut m, kind);
                push_str(&mut m, " '");
                push_str(&mut m, name);
                push_str(&mut m, "'");
                Err(ScopeError::Config(m))
            },
        }
    }

    /// The command that the generic setting `name` writes.
    pub fn setting_command(&self, name: &str, kwargs: &[(&str, &str)]) -> (r: Result<
        String,
        ScopeError,
    >)
        ensures
            match dispatch_command(settings_spec(), self.templates(), name@, str_pairs(kwargs@)) {
                None => r matches Err(ScopeError::Config(m)) && m@ == unknown_name_message(
                    "setting"@,
                    name@,
                ),
                Some(Some(c)) => r matches Ok(s) && s@ == c,
                Some(None) => r matches Err(ScopeError::Config(m)) && m@
                    == missing_command_message(lookup(settings_spec(), name@).unwrap().0, self.spec_brand()),
            },
    {
        self.dispatch(&settings(), "setting", name, kwargs)
    }

    /// Records a setting whose command was written: the channel bookkeeping
    /// of `channel_on` and `channel_off`.
    pub fn apply_setting(&mut self, name: &str, kwargs: &[(&str, &str)])
        requires
            setting_channel_in_range(name@, str_pairs(kwargs@)),
        ensures
            final(self).spec_active()@ == after_setting(
                old(self).spec_active()@,
                name@,
                str_pairs(kwargs@),
            ),
            final(self).same_setup(old(self)),
            final(self).spec_connected() == old(self).spec_connected(),
            final(self).spec_instrument_id() == old(self).spec_instrument_id(),
    {
        proof {
            use_type_invariant(&*self);
        }
        let on = str_eq(name, "channel_on");
        let off = str_eq(name, "channel_off");
        if on || off {
            if let Some(ch) = channel_arg(kwargs) {
                let mut active = self.active;
                if on {
                    active.set(ch);
                } else {
                    active.clear(ch);
                }
                self.active = active;
            }
        }
    }

    /// The command that the generic getting `name` queries.
    pub fn getting_command(&self, name: &str, kwargs: &[(&str, &str)]) -> (r: Result<
        String,
        ScopeError,
    >)
        ensures
            match dispatch_command(gettings_spec(), self.templates(), name@, str_pairs(kwargs@)) {
                None => r matches Err(ScopeError::Config(m)) && m@ == unknown_name_message(
                    "getting"@,
                    name@,
                ),
                Some(Some(c)) => r matches Ok(s) && s@ == c,
                Some(None) => r matches Err(ScopeError::Config(m)) && m@
                    == missing_command_message(lookup(gettings_spec(), name@).unwrap().0, self.spec_brand()),
            },
    {
        self.dispatch(&gettings(), "getting", name, kwargs)
    }

    /// What a getting returns for the instrument's response: `channel_check`
    /// answers `1` or `0`, every other getting the response itself.
    pub fn getting_result(name: &str, resp: &str) -> (r: String)
        ensures
            r@ == if name@ == "channel_check"@ {
                if response_is_on(resp@) {
                    "1"@
                } else {
                    "0"@
                }
            } else {
                resp@
            },
    {
        if str_eq(name, "channel_check") {
            let mut s = String::new();
            if is_on_response(resp) {
                push_str(&mut s, "1");
            } else {
                push_str(&mut s, "0");
            }
            s
        } else {
            resp.to_owned()
        }
    }

    // ── Connection ──────────────────────────────────────────

    /// The quirks command to send right after connecting, if the brand has one.
    pub fn quirks_command(&self) -> (r: Option<String>)
        ensures
            match r {
                Some(q) => q@ == self.spec_scope().quirks@ && q@.len() > 0,
                None => self.spec_scope().quirks@.len() == 0,
            },
    {
        if self.spec.quirks.as_str().is_empty() {
            None
        } else {
            Some(self.spec.quirks.clone())
        }
    }

    /// Records that the socket is open.
    pub fn on_connected(&mut self)
        ensures
            final(self).spec_connected(),
            final(self).same_setup(old(self)),
            final(self).spec_active() == old(self).spec_active(),
            final(self).spec_instrument_id() == old(self).spec_instrument_id(),
    {
        proof {
            use_type_invariant(&*self);
        }
        self.connected = true;
    }

    /// Records the answer to `*IDN?` (`None` when the query failed, which
    /// reads as `UNKNOWN`) and starts the channel probe with no channel
    /// active.
    pub fn on_identified(&mut self, idn: Option<String>)
        ensures
            final(self).spec_instrument_id() == match idn {
                Some(s) => s@,
                None => "UNKNOWN"@,
            },
            final(self).spec_active()@ == Set::<u8>::empty(),
            final(self).same_setup(old(self)),
            final(self).spec_connected() == old(self).spec_connected(),
    {
        proof {
            use_type_invariant(&*self);
        }
        self.instrument_id = match idn {
            Some(s) => s,
            None => {
                let mut u = String::new();
                push_str(&mut u, "UNKNOWN");
                u
            },
        };
        self.active = ChannelMask::new();
    }

    /// The query that asks whether channel `ch` is displayed.
    pub fn channel_probe_command(&self, ch: u8) -> (r: Result<String, ScopeError>)
        requires
            1 <= ch <= 9,
        ensures
            match expand_command(
                self.templates(),
                "check_ch"@,
                seq![("ch"@, seq![digit_char(ch as nat)])],
            ) {
                Some(c) => r matches Ok(s) && s@ == c,
                None => r matches Err(ScopeError::Config(m)) && m@ == missing_command_message(
                    "check_ch"@,
                    self.spec_brand(),
                ),
            },
    {
        let mut digit = String::new();
        push_char(&mut digit, digit_to_char(ch));
        let subs = [("ch", digit.as_str())];
        let r = self.cmd("check_ch", &subs);
        proof {
            assert(str_pairs(subs@) =~= seq![("ch"@, seq![digit_char(ch as nat)])]);
        }
        r
    }

    /// Records the answer to a channel probe: the channel becomes active
    /// when the answer reads as on.
    pub fn on_channel_probe(&mut self, ch: u8, resp: &str)
        requires
            1 <= ch <= 8,
        ensures
            final(self).spec_active()@ == if response_is_on(resp@) {
                old(self).spec_active()@.insert(ch)
            } else {
                old(self).spec_active()@
            },
            final(self).same_setup(old(self)),
            final(self).spec_connected() == old(self).spec_connected(),
            final(self).spec_instrument_id() == old(self).spec_instrument_id(),
    {
        proof {
            use_type_invariant(&*self);
        }
        if is_on_response(resp) {
            let mut active = self.active;
            active.set(ch);
            self.active = active;
        }
    }

    /// Records that the socket was closed: no channel stays active.
    pub fn close(&mut self)
        ensures
            !final(self).spec_connected(),
            final(self).spec_active()@ == Set::<u8>::empty(),
            final(self).same_setup(old(self)),
            final(self).spec_instrument_id() == old(self).spec_instrument_id(),
    {
        proof {
            use_type_invariant(&*self);
        }
        self.connected = false;
        self.active = ChannelMask::new();
    }

    // ── Waveforms ───────────────────────────────────────────

    /// The command that selects `channel` as waveform source, when the brand
    /// has `set_source`.
    pub fn source_command(&self, channel: &str) -> (r: Option<String>)
        ensures
            r matches Some(s) ==> expand_command(self.templates(), "set_source"@, seq![("ch"@, channel@)])
                == Some(s@),
            r is None ==> lookup(self.templates(), "set_source"@) is None,
    {
        let subs = [("ch", channel)];
        proof {
            assert(str_pairs(subs@) =~= seq![("ch"@, channel@)]);
        }
        match self.cmd("set_source", &subs) {
            Ok(s) => Some(s),
            Err(_) => None,
        }
    }
}

} // verus!
