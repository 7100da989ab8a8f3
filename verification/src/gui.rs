//! Decisions taken by the control panel: which page is shown, importing
//! sources, and recognising numbered image sequences among file names.

use vstd::prelude::*;

use crate::status::{Status, MAX_SAMPLED_TEXTURES_PER_SHADER_STAGE};
use crate::util::str_eq;

verus! {

/// The page of the control panel that is shown.
#[derive(Debug, Clone, Copy, PartialEq, Eq, Structural)]
pub enum WindowShowStatus {
    Source,
    Filter,
    Setting,
    Info,
    Write,
    Save,
}

/// Marks the sources for reloading when the frames they hold,
/// `number_of_sources`, fit in one shader stage; refuses otherwise.
/// Returns whether the import was accepted.
pub fn request_import(status: &mut Status, number_of_sources: u32) -> (accepted: bool)
    ensures
        accepted == (number_of_sources <= MAX_SAMPLED_TEXTURES_PER_SHADER_STAGE),
        *final(status) == (Status {
            update_input: if accepted { true } else { old(status).update_input },
            ..*old(status)
        }),
{
    if number_of_sources > MAX_SAMPLED_TEXTURES_PER_SHADER_STAGE {
        false
    } else {
        status.update_input = true;
        true
    }
}

/// Index of the last `.` of `s`, or -1 when there is none.
pub open spec fn last_dot(s: Seq<char>) -> int
    decreases s.len(),
{
    if s.len() == 0 {
        -1
    } else if s.last() == '.' {
        s.len() - 1
    } else {
        last_dot(s.drop_last())
    }
}

/// The stem of a file name, as `Path::file_stem` gives it: the name before
/// its last `.`, or the whole name when it has no `.` except a leading one.
pub open spec fn name_stem(name: Seq<char>) -> Seq<char> {
    if name == ".."@ || last_dot(name) <= 0 {
        name
    } else {
        name.take(last_dot(name))
    }
}

/// The extension of a file name, as `Path::extension` gives it: the text
/// after its last `.`, when that `.` is not the first character.
pub open spec fn name_extension(name: Seq<char>) -> Option<Seq<char>> {
    if name == ".."@ || last_dot(name) <= 0 {
        None
    } else {
        Some(name.skip(last_dot(name) + 1))
    }
}

/// The last `.` lies inside the text.
pub proof fn lemma_last_dot_bounds(s: Seq<char>)
    ensures
        -1 <= last_dot(s) < s.len(),
    decreases s.len(),
{
    if s.len() > 0 {
        lemma_last_dot_bounds(s.drop_last());
    }
}

/// Index of the last `.` of `name`, if it has one.
fn find_last_dot(name: &str) -> (d: Option<usize>)
    ensures
        match d {
            Some(i) => i == last_dot(name@) && i < name@.len(),
            None => last_dot(name@) == -1,
        },
{
    let n = name.unicode_len();
    let mut k: usize = n;
    assert(name@.take(n as int) =~= name@);
    while k > 0
        invariant
            k <= n,
            n == name@.len(),
            last_dot(name@) == last_dot(name@.take(k as int)),
        decreases k,
    {
        assert(name@.take(k as int).drop_last() =~= name@.take(k - 1));
        assert(name@.take(k as int).last() == name@[k - 1]);
        if name.get_char(k - 1) == '.' {
            return Some(k - 1);
        }
        k = k - 1;
    }
    assert(name@.take(0) =~= Seq::<char>::empty());
    None
}

/// The stem of a file name (see `name_stem`).
pub fn file_stem(name: &str) -> (stem: String)
    ensures
        stem@ == name_stem(name@),
{
    match find_last_dot(name) {
        Some(d) if d > 0 && !str_eq(name, "..") => {
            let sub = name.substring_char(0, d);
            assert(sub@ =~= name@.take(d as int));
            sub.to_owned()
        },
        _ => name.to_owned(),
    }
}

/// The extension of a file name (see `name_extension`).
pub fn get_extention(name: &str) -> (ext: Option<String>)
    ensures
        match ext {
            Some(e) => name_extension(name@) == Some(e@),
            None => name_extension(name@) is None,
        },
{
    match find_last_dot(name) {
        Some(d) if d > 0 && !str_eq(name, "..") => {
            let n = name.unicode_len();
            Some(name.substring_char(d + 1, n).to_owned())
        },
        _ => None,
    }
}

#[verifier::external_type_specification]
#[verifier::external_body]
pub struct ExRegex(regex::Regex);

/// Whether `regex::Regex::new` accepts `pattern`.
pub uninterp spec fn regex_compiles(pattern: Seq<char>) -> bool;

/// The text of the first match of `pattern` in `haystack` (`Regex::find`).
pub uninterp spec fn regex_find(pattern: Seq<char>, haystack: Seq<char>) -> Option<Seq<char>>;

/// The text of capture group `group` of the first match of `pattern` in
/// `haystack` (`Regex::captures`, then `Captures::get`).
pub uninterp spec fn regex_capture(pattern: Seq<char>, haystack: Seq<char>, group: usize) -> Option<
    Seq<char>,
>;

/// A compiled regular expression together with the pattern it was compiled
/// from. Only `compile_pattern` builds one.
pub struct CompiledPattern {
    pattern: String,
    re: regex::Regex,
}

impl CompiledPattern {
    /// The pattern this expression was compiled from.
    pub closed spec fn source(&self) -> Seq<char> {
        self.pattern@
    }
}

/// `regex::Regex::new`: compiles `pattern`. Claims that success depends on
/// the pattern alone, and keeps the pattern beside the compiled expression.
#[verifier::external_body]
fn compile_pattern(pattern: &str) -> (r: Option<CompiledPattern>)
    ensures
        r is Some <==> regex_compiles(pattern@),
        r matches Some(c) ==> c.source() == pattern@,
{
    match regex::Regex::new(pattern) {
        Ok(re) => Some(CompiledPattern { pattern: pattern.to_owned(), re }),
        Err(_) => None,
    }
}

/// `regex::Regex::find` followed by `Match::as_str`: the first match of the
/// expression in `haystack`. Claims only that the result is the one named
/// `regex_find` for the expression's pattern and this haystack.
#[verifier::external_body]
fn find_match(p: &CompiledPattern, haystack: &str) -> (r: Option<String>)
    ensures
        match r {
            Some(m) => regex_find(p.source(), haystack@) == Some(m@),
            None => regex_find(p.source(), haystack@) is None,
        },
{
    match p.re.find(haystack) {
        Some(m) => Some(m.as_str().to_owned()),
        None => None,
    }
}

/// `regex::Regex::captures` followed by `Captures::get(group)` and
/// `Match::as_str`: the text of a capture group of the first match. Claims
/// only that the result is the one named `regex_capture` for the
/// expression's pattern, this haystack and this group.
#[verifier::external_body]
fn capture_group(p: &CompiledPattern, haystack: &str, group: usize) -> (r: Option<String>)
    ensures
        match r {
            Some(m) => regex_capture(p.source(), haystack@, group) == Some(m@),
            None => regex_capture(p.source(), haystack@, group) is None,
        },
{
    match p.re.captures(haystack) {
        Some(caps) => match caps.get(group) {
            Some(m) => Some(m.as_str().to_owned()),
            None => None,
        },
        None => None,
    }
}

/// The texts of an optional string.
pub open spec fn opt_text(o: Option<String>) -> Option<Seq<char>> {
    match o {
        Some(s) => Some(s@),
        None => None,
    }
}

/// Pattern of a numbered file stem; group 1 is the part before the number.
pub open spec fn name_pattern() -> Seq<char> {
    r"^(.*?)[0-9]+$"@
}

/// Pattern of the number at the end of a file stem.
pub open spec fn number_pattern() -> Seq<char> {
    r"(\d+)$"@
}

/// Splits the stem of a file name into the name before its trailing number
/// and that number, as the two patterns find them.
pub fn get_path_stem(file_name: &str) -> (parts: (Option<String>, Option<String>))
    ensures
        opt_text(parts.0) == (if regex_compiles(name_pattern()) {
            regex_capture(name_pattern(), name_stem(file_name@), 1)
        } else {
            None
        }),
        opt_text(parts.1) == (if regex_compiles(number_pattern()) {
            regex_find(number_pattern(), name_stem(file_name@))
        } else {
            None
        }),
{
    let stem = file_stem(file_name);
    let not_seq = compile_pattern(r"^(.*?)[0-9]+$");
    let seq = compile_pattern(r"(\d+)$");
    let not_seq_str = match not_seq {
        Some(p) => capture_group(&p, stem.as_str(), 1),
        None => None,
    };
    let seq_str = match seq {
        Some(p) => find_match(&p, stem.as_str()),
        None => None,
    };
    (not_seq_str, seq_str)
}

/// The parts of one file name that sequence recognition looks at.
#[derive(Debug, Clone)]
pub struct SequenceEntry {
    pub name: Option<String>,
    pub number: Option<String>,
    pub extension: Option<String>,
}

/// A numbered image sequence: its name before the numbers, how many
/// characters the chosen file's number has, and the first and last numbers.
#[derive(Debug, Clone)]
pub struct SequenceScan {
    pub filename: String,
    pub digit: u32,
    pub from: u32,
    pub to: u32,
}

/// The sequence parts of a file name: name and number of its stem, and its
/// extension.
pub fn sequence_entry(file_name: &str) -> (e: SequenceEntry)
    ensures
        opt_text(e.name) == (if regex_compiles(name_pattern()) {
            regex_capture(name_pattern(), name_stem(file_name@), 1)
        } else {
            None
        }),
        opt_text(e.number) == (if regex_compiles(number_pattern()) {
            regex_find(number_pattern(), name_stem(file_name@))
        } else {
            None
        }),
        opt_text(e.extension) == name_extension(file_name@),
{
    let (name, number) = get_path_stem(file_name);
    let extension = get_extention(file_name);
    SequenceEntry { name, number, extension }
}

/// Text made of one or more ASCII digits.
pub open spec fn is_decimal(s: Seq<char>) -> bool {
    s.len() > 0 && forall|i: int| 0 <= i < s.len() ==> '0' <= #[trigger] s[i] <= '9'
}

/// The value of a text of ASCII digits.
pub open spec fn decimal_value(s: Seq<char>) -> int
    decreases s.len(),
{
    if s.len() == 0 {
        0
    } else {
        decimal_value(s.drop_last()) * 10 + (s.last() as int - 48)
    }
}

/// The value of a digit text is at least that of any of its prefixes.
pub proof fn lemma_decimal_prefix(s: Seq<char>, i: int)
    requires
        0 <= i <= s.len(),
        forall|k: int| 0 <= k < s.len() ==> '0' <= #[trigger] s[k] <= '9',
    ensures
        0 <= decimal_value(s.take(i)) <= decimal_value(s),
    decreases s.len() - i,
{
    if i < s.len() {
        lemma_decimal_prefix(s, i + 1);
        assert(s.take(i + 1).drop_last() =~= s.take(i));
        assert(s.take(i + 1).last() == s[i]);
    } else {
        assert(s.take(i) =~= s);
        lemma_decimal_nonneg(s);
    }
}

/// Digit texts have non-negative values.
pub proof fn lemma_decimal_nonneg(s: Seq<char>)
    requires
        forall|k: int| 0 <= k < s.len() ==> '0' <= #[trigger] s[k] <= '9',
    ensures
        decimal_value(s) >= 0,
    decreases s.len(),
{
    if s.len() > 0 {
        assert(forall|k: int| 0 <= k < s.drop_last().len() ==> s.drop_last()[k] == s[k]);
        lemma_decimal_nonneg(s.drop_last());
    }
}

/// Reads a text of ASCII digits as a `u32`: `None` when it holds any other
/// character, is empty, or is too large.
pub fn parse_decimal(s: &str) -> (r: Option<u32>)
    ensures
        r == (if is_decimal(s@) && decimal_value(s@) <= u32::MAX {
            Some(decimal_value(s@) as u32)
        } else {
            None
        }),
{
    let n = s.unicode_len();
    if n == 0 {
        return None;
    }
    let mut v: u64 = 0;
    let mut i: usize = 0;
    while i < n
        invariant
            i <= n,
            n == s@.len(),
            n > 0,
            forall|k: int| 0 <= k < i ==> '0' <= #[trigger] s@[k] <= '9',
            v == decimal_value(s@.take(i as int)),
            v <= u32::MAX,
        decreases n - i,
    {
        let c = s.get_char(i);
        if !('0' <= c && c <= '9') {
            return None;
        }
        assert(s@.take(i + 1).drop_last() =~= s@.take(i as int));
        assert(s@.take(i + 1).last() == c);
        let d = (c as u32 - 48) as u64;
        let w = v * 10 + d;
        if w > 0xFFFF_FFFF {
            proof {
                if is_decimal(s@) {
                    lemma_decimal_prefix(s@, i + 1);
                }
            }
            return None;
        }
        v = w;
        i = i + 1;
    }
    assert(s@.take(n as int) =~= s@);
    Some(v as u32)
}

/// `e` belongs to the same sequence as `chosen`: it has a name and a number,
/// the same name, and the same extension (or none, like `chosen`).
pub open spec fn entry_matches(e: SequenceEntry, chosen: SequenceEntry) -> bool {
    &&& e.name is Some
    &&& e.number is Some
    &&& opt_text(e.name) == opt_text(chosen.name)
    &&& opt_text(e.extension) == opt_text(chosen.extension)
}

/// The numbers of the entries that belong to `chosen`'s sequence, in order.
pub open spec fn sequence_numbers(chosen: SequenceEntry, entries: Seq<SequenceEntry>) -> Seq<int>
    decreases entries.len(),
{
    if entries.len() == 0 {
        Seq::empty()
    } else {
        let prev = sequence_numbers(chosen, entries.drop_last());
        if entry_matches(entries.last(), chosen) {
            prev.push(decimal_value(opt_text(entries.last().number)->0))
        } else {
            prev
        }
    }
}

/// Smallest element of a non-empty sequence.
pub open spec fn seq_min(s: Seq<int>) -> int
    decreases s.len(),
{
    if s.len() <= 1 {
        s[0]
    } else {
        let m = seq_min(s.drop_last());
        if s.last() < m { s.last() } else { m }
    }
}

/// Largest element of a non-empty sequence.
pub open spec fn seq_max(s: Seq<int>) -> int
    decreases s.len(),
{
    if s.len() <= 1 {
        s[0]
    } else {
        let m = seq_max(s.drop_last());
        if s.last() > m { s.last() } else { m }
    }
}

/// Every number of `chosen`'s sequence among `entries` reads as a `u32`,
/// and there is at least one.
pub open spec fn sequence_readable(chosen: SequenceEntry, entries: Seq<SequenceEntry>) -> bool {
    &&& forall|i: int|
        0 <= i < entries.len() && entry_matches(#[trigger] entries[i], chosen) ==> {
            &&& is_decimal(opt_text(entries[i].number)->0)
            &&& decimal_value(opt_text(entries[i].number)->0) <= u32::MAX
        }
    &&& exists|i: int| 0 <= i < entries.len() && entry_matches(#[trigger] entries[i], chosen)
}

/// Whether two optional texts are equal.
fn opt_str_eq(a: &Option<String>, b: &Option<String>) -> (r: bool)
    ensures
        r == (opt_text(*a) == opt_text(*b)),
{
    match (a, b) {
        (Some(x), Some(y)) => str_eq(x.as_str(), y.as_str()),
        (None, None) => true,
        _ => false,
    }
}

/// Recognises the numbered sequence that a chosen file belongs to, among
/// the files of its directory: `None` when the chosen file's stem has no
/// name and number; otherwise the name, the digit count of the chosen
/// number, and the smallest and largest number of the files of the same
/// name and extension.
pub fn scan_sequence(chosen: &SequenceEntry, entries: &Vec<SequenceEntry>) -> (r: Option<SequenceScan>)
    requires
        chosen.name is Some && chosen.number is Some ==> sequence_readable(*chosen, entries@),
    ensures
        match r {
            None => chosen.name is None || chosen.number is None,
            Some(scan) => {
                &&& chosen.name is Some && chosen.number is Some
                &&& Some(scan.filename@) == opt_text(chosen.name)
                &&& scan.digit == (opt_text(chosen.number)->0.len() as u32)
                &&& scan.from == seq_min(sequence_numbers(*chosen, entries@))
                &&& scan.to == seq_max(sequence_numbers(*chosen, entries@))
                &&& forall|i: int|
                    0 <= i < entries@.len() && (#[trigger] entries@[i]).name is Some
                        && entries@[i].number is Some && opt_text(entries@[i].name) == opt_text(
                        chosen.name,
                    ) && opt_text(entries@[i].extension) == opt_text(chosen.extension)
                        ==> scan.from <= decimal_value(opt_text(entries@[i].number)->0) <= scan.to
                &&& exists|i: int|
                    0 <= i < entries@.len() && (#[trigger] entries@[i]).name is Some
                        && entries@[i].number is Some && opt_text(entries@[i].name) == opt_text(
                        chosen.name,
                    ) && opt_text(entries@[i].extension) == opt_text(chosen.extension)
                        && decimal_value(opt_text(entries@[i].number)->0) == scan.to
                &&& exists|i: int|
                    0 <= i < entries@.len() && (#[trigger] entries@[i]).name is Some
                        && entries@[i].number is Some && opt_text(entries@[i].name) == opt_text(
                        chosen.name,
                    ) && opt_text(entries@[i].extension) == opt_text(chosen.extension)
                        && decimal_value(opt_text(entries@[i].number)->0) == scan.from
            },
        },
{
    let (file_name, num_str) = match (&chosen.name, &chosen.number) {
        (Some(f), Some(n)) => (f, n),
        _ => {
            return None;
        },
    };
    let mut found = false;
    let mut lo: u32 = 0;
    let mut hi: u32 = 0;
    let n = entries.len();
    let mut i: usize = 0;
    while i < n
        invariant
            i <= n,
            n == entries@.len(),
            chosen.name == Some(*file_name),
            chosen.number == Some(*num_str),
            sequence_readable(*chosen, entries@),
            found == (sequence_numbers(*chosen, entries@.take(i as int)).len() > 0),
            found ==> lo == seq_min(sequence_numbers(*chosen, entries@.take(i as int))),
            found ==> hi == seq_max(sequence_numbers(*chosen, entries@.take(i as int))),
        decreases n - i,
    {
        assert(entries@.take(i + 1).drop_last() =~= entries@.take(i as int));
        assert(entries@.take(i + 1).last() == entries@[i as int]);
        let e = &entries[i];
        let is_member = match (&e.name, &e.number) {
            (Some(other_name), Some(_)) => str_eq(other_name.as_str(), file_name.as_str())
                && opt_str_eq(&e.extension, &chosen.extension),
            _ => false,
        };
        assert(is_member == entry_matches(entries@[i as int], *chosen));
        if is_member {
            let num = match &e.number {
                Some(t) => t,
                None => {
                    return None;
                },
            };
            let ghost prev = sequence_numbers(*chosen, entries@.take(i as int));
            let ghost next = sequence_numbers(*chosen, entries@.take(i + 1));
            assert(entry_matches(entries@[i as int], *chosen));
            assert(opt_text(entries@[i as int].number)->0 == num@);
            assert(is_decimal(num@) && decimal_value(num@) <= u32::MAX);
            assert(next == prev.push(decimal_value(num@)));
            assert(next.drop_last() =~= prev);
            let text = num.as_str();
            let parsed = parse_decimal(text);
            proof {
                lemma_decimal_nonneg(num@);
            }
            let value = match parsed {
                Some(v) => v,
                None => {
                    return None;
                },
            };
            assert(value == decimal_value(num@));
            if !found || value < lo {
                lo = value;
            }
            if !found || value > hi {
                hi = value;
            }
            found = true;
        }
        i = i + 1;
    }
    assert(entries@.take(n as int) =~= entries@);
    if !found {
        proof {
            let k = choose|k: int| 0 <= k < entries@.len() && entry_matches(#[trigger] entries@[k], *chosen);
            lemma_numbers_nonempty(*chosen, entries@, k);
        }
        return None;
    }
    proof {
        let k = choose|k: int| 0 <= k < entries@.len() && entry_matches(#[trigger] entries@[k], *chosen);
        assert(entries@[k].name is Some && entries@[k].number is Some && opt_text(entries@[k].name)
            == opt_text(chosen.name) && opt_text(entries@[k].extension) == opt_text(chosen.extension));
        lemma_sequence_range(*chosen, entries@);
    }
    let digit = #[verifier::truncate] (num_str.as_str().unicode_len() as u32);
    Some(SequenceScan { filename: file_name.clone(), digit, from: lo, to: hi })
}

/// A matching entry contributes a number.
pub proof fn lemma_numbers_nonempty(chosen: SequenceEntry, entries: Seq<SequenceEntry>, k: int)
    requires
        0 <= k < entries.len(),
        entry_matches(entries[k], chosen),
    ensures
        sequence_numbers(chosen, entries).len() > 0,
    decreases entries.len(),
{
    if k < entries.len() - 1 {
        assert(entries.drop_last()[k] == entries[k]);
        lemma_numbers_nonempty(chosen, entries.drop_last(), k);
    }
}

/// A file name with an extension is its stem, a dot, and the extension.
pub proof fn lemma_stem_dot_extension(name: Seq<char>)
    ensures
        name_extension(name) matches Some(e) ==> name == name_stem(name) + "."@ + e,
{
    reveal_strlit(".");
    if let Some(e) = name_extension(name) {
        lemma_last_dot_bounds(name);
        lemma_last_dot_is_dot(name);
        assert(name =~= name_stem(name) + "."@ + e);
    }
}

/// When there is a last dot, it is a `.` character.
pub proof fn lemma_last_dot_is_dot(s: Seq<char>)
    ensures
        last_dot(s) >= 0 ==> s[last_dot(s)] == '.',
    decreases s.len(),
{
    if s.len() > 0 && s.last() != '.' {
        lemma_last_dot_is_dot(s.drop_last());
        lemma_last_dot_bounds(s.drop_last());
    }
}

/// The smallest number is at most every number, and the largest at least.
pub proof fn lemma_min_max_bound(s: Seq<int>, k: int)
    requires
        0 <= k < s.len(),
    ensures
        seq_min(s) <= s[k] <= seq_max(s),
    decreases s.len(),
{
    if s.len() > 1 && k < s.len() - 1 {
        lemma_min_max_bound(s.drop_last(), k);
    }
}

/// A recognised sequence spans every matching file: `from <= n <= to` for
/// the number `n` of each file of the same name and extension.
pub proof fn lemma_scan_spans_numbers(chosen: SequenceEntry, entries: Seq<SequenceEntry>, k: int)
    requires
        0 <= k < sequence_numbers(chosen, entries).len(),
    ensures
        seq_min(sequence_numbers(chosen, entries)) <= sequence_numbers(chosen, entries)[k]
            <= seq_max(sequence_numbers(chosen, entries)),
{
    lemma_min_max_bound(sequence_numbers(chosen, entries), k);
}

/// The largest element of a non-empty sequence is one of its elements, and
/// so is the smallest.
pub proof fn lemma_min_max_attained(s: Seq<int>)
    requires
        s.len() > 0,
    ensures
        exists|k: int| 0 <= k < s.len() && #[trigger] s[k] == seq_max(s),
        exists|k: int| 0 <= k < s.len() && #[trigger] s[k] == seq_min(s),
    decreases s.len(),
{
    if s.len() > 1 {
        let d = s.drop_last();
        lemma_min_max_attained(d);
        let a = choose|k: int| 0 <= k < d.len() && #[trigger] d[k] == seq_max(d);
        let b = choose|k: int| 0 <= k < d.len() && #[trigger] d[k] == seq_min(d);
        assert(s[a] == d[a]);
        assert(s[b] == d[b]);
        assert(s[s.len() - 1] == s.last());
    } else {
        assert(s[0] == seq_max(s));
    }
}

/// Only files of exactly the chosen file's sequence contribute a number:
/// each number comes from a file with a name and a number whose name before
/// the number equals the chosen file's, with the same extension (or none,
/// like the chosen file), and is the value of that file's number.
pub proof fn lemma_sequence_number_has_file(chosen: SequenceEntry, entries: Seq<SequenceEntry>, k: int)
    requires
        0 <= k < sequence_numbers(chosen, entries).len(),
    ensures
        exists|i: int|
            0 <= i < entries.len() && (#[trigger] entries[i]).name is Some && entries[i].number is Some
                && opt_text(entries[i].name) == opt_text(chosen.name) && opt_text(
                entries[i].extension,
            ) == opt_text(chosen.extension) && sequence_numbers(chosen, entries)[k]
                == decimal_value(opt_text(entries[i].number)->0),
    decreases entries.len(),
{
    let d = entries.drop_last();
    let prev = sequence_numbers(chosen, d);
    if k < prev.len() {
        lemma_sequence_number_has_file(chosen, d, k);
        let i = choose|i: int|
            0 <= i < d.len() && (#[trigger] d[i]).name is Some && d[i].number is Some && opt_text(
                d[i].name,
            ) == opt_text(chosen.name) && opt_text(d[i].extension) == opt_text(chosen.extension)
                && prev[k] == decimal_value(opt_text(d[i].number)->0);
        assert(entries[i] == d[i]);
    } else {
        assert(entries[entries.len() - 1] == entries.last());
    }
}

/// Every file of exactly the chosen file's sequence (a name and a number,
/// the same name before the number, the same extension or none like the
/// chosen file) contributes the value of its number.
pub proof fn lemma_sequence_file_has_number(chosen: SequenceEntry, entries: Seq<SequenceEntry>, i: int)
    requires
        0 <= i < entries.len(),
        entries[i].name is Some,
        entries[i].number is Some,
        opt_text(entries[i].name) == opt_text(chosen.name),
        opt_text(entries[i].extension) == opt_text(chosen.extension),
    ensures
        exists|k: int|
            0 <= k < sequence_numbers(chosen, entries).len() && #[trigger] sequence_numbers(
                chosen,
                entries,
            )[k] == decimal_value(opt_text(entries[i].number)->0),
    decreases entries.len(),
{
    let d = entries.drop_last();
    let prev = sequence_numbers(chosen, d);
    if i < entries.len() - 1 {
        assert(d[i] == entries[i]);
        lemma_sequence_file_has_number(chosen, d, i);
        let k = choose|k: int| 0 <= k < prev.len() && #[trigger] prev[k] == decimal_value(
            opt_text(d[i].number)->0,
        );
        assert(sequence_numbers(chosen, entries)[k] == prev[k]);
    } else {
        assert(entries.last() == entries[i]);
        assert(sequence_numbers(chosen, entries)[prev.len() as int] == decimal_value(
            opt_text(entries[i].number)->0,
        ));
    }
}

/// The range of a recognised sequence is that of exactly the files of the
/// chosen file's sequence (a name and a number, the same name before the
/// number, the same extension or none like the chosen file): every such
/// file's number lies between the smallest and the largest number, and the
/// largest and the smallest are each the number of such a file.
pub proof fn lemma_sequence_range(chosen: SequenceEntry, entries: Seq<SequenceEntry>)
    requires
        exists|i: int|
            0 <= i < entries.len() && (#[trigger] entries[i]).name is Some && entries[i].number is Some
                && opt_text(entries[i].name) == opt_text(chosen.name) && opt_text(
                entries[i].extension,
            ) == opt_text(chosen.extension),
    ensures
        forall|i: int|
            0 <= i < entries.len() && (#[trigger] entries[i]).name is Some && entries[i].number is Some
                && opt_text(entries[i].name) == opt_text(chosen.name) && opt_text(
                entries[i].extension,
            ) == opt_text(chosen.extension) ==> seq_min(sequence_numbers(chosen, entries))
                <= decimal_value(opt_text(entries[i].number)->0) <= seq_max(
                sequence_numbers(chosen, entries),
            ),
        exists|i: int|
            0 <= i < entries.len() && (#[trigger] entries[i]).name is Some && entries[i].number is Some
                && opt_text(entries[i].name) == opt_text(chosen.name) && opt_text(
                entries[i].extension,
            ) == opt_text(chosen.extension) && decimal_value(opt_text(entries[i].number)->0)
                == seq_max(sequence_numbers(chosen, entries)),
        exists|i: int|
            0 <= i < entries.len() && (#[trigger] entries[i]).name is Some && entries[i].number is Some
                && opt_text(entries[i].name) == opt_text(chosen.name) && opt_text(
                entries[i].extension,
            ) == opt_text(chosen.extension) && decimal_value(opt_text(entries[i].number)->0)
                == seq_min(sequence_numbers(chosen, entries)),
{
    let ns = sequence_numbers(chosen, entries);
    let i0 = choose|i: int|
        0 <= i < entries.len() && (#[trigger] entries[i]).name is Some && entries[i].number is Some
            && opt_text(entries[i].name) == opt_text(chosen.name) && opt_text(entries[i].extension)
            == opt_text(chosen.extension);
    lemma_sequence_file_has_number(chosen, entries, i0);
    assert forall|i: int|
        0 <= i < entries.len() && (#[trigger] entries[i]).name is Some && entries[i].number is Some
            && opt_text(entries[i].name) == opt_text(chosen.name) && opt_text(entries[i].extension)
            == opt_text(chosen.extension) implies seq_min(ns) <= decimal_value(
        opt_text(entries[i].number)->0,
    ) <= seq_max(ns) by {
        lemma_sequence_file_has_number(chosen, entries, i);
        let k = choose|k: int| 0 <= k < ns.len() && #[trigger] ns[k] == decimal_value(
            opt_text(entries[i].number)->0,
        );
        lemma_min_max_bound(ns, k);
    }
    lemma_min_max_attained(ns);
    let a = choose|k: int| 0 <= k < ns.len() && #[trigger] ns[k] == seq_max(ns);
    let b = choose|k: int| 0 <= k < ns.len() && #[trigger] ns[k] == seq_min(ns);
    lemma_sequence_number_has_file(chosen, entries, a);
    lemma_sequence_number_has_file(chosen, entries, b);
}

} // verus!
