//! Reading the device's total memory from what the operating system
//! reports.
use vstd::prelude::*;
use crate::stream::{split_complete, split_lines, texts};
use crate::text::{
    chars_of, has_prefix, is_space, is_whitespace, parse_u64, parse_unsigned, starts_with,
    string_of_chars, trim, trim_start, trimmed,
};

verus! {

/// `line` without one trailing carriage return.
pub open spec fn without_cr(line: Seq<char>) -> Seq<char> {
    if line.len() > 0 && line.last() == '\r' {
        line.drop_last()
    } else {
        line
    }
}

/// The lines of `s` as `str::lines` gives them: split at `\n` (a `\r`
/// before it belongs to the line ending), the last line being the text after
/// the last `\n` when that is not empty.
pub open spec fn text_lines(s: Seq<char>) -> Seq<Seq<char>> {
    let parts = split_lines(s);
    parts.0.map_values(|l: Seq<char>| without_cr(l)) + if parts.1.len() > 0 {
        seq![parts.1]
    } else {
        Seq::empty()
    }
}

/// The number of characters before the first white space of `s`.
pub open spec fn word_len(s: Seq<char>) -> nat
    decreases s.len(),
{
    if s.len() > 0 && !is_space(s[0]) {
        1 + word_len(s.drop_first())
    } else {
        0
    }
}

/// The second white-space-separated word of `s`
/// (`s.split_whitespace().nth(1)`).
pub open spec fn second_word(s: Seq<char>) -> Option<Seq<char>> {
    let t1 = trim_start(s);
    if t1.len() == 0 {
        None
    } else {
        let t2 = trim_start(t1.skip(word_len(t1) as int));
        if t2.len() == 0 {
            None
        } else {
            Some(t2.take(word_len(t2) as int))
        }
    }
}

/// `i` is the position of the first line that begins with `prefix`.
pub open spec fn is_first_with_prefix(lines: Seq<Seq<char>>, prefix: Seq<char>, i: int) -> bool {
    &&& 0 <= i < lines.len()
    &&& has_prefix(lines[i], prefix)
    &&& forall|j: int| 0 <= j < i ==> !has_prefix(lines[j], prefix)
}

/// The total memory in KiB stated by `/proc/meminfo` text: the second word
/// of the first line that begins with `MemTotal:`, as a `u64`.
pub open spec fn meminfo_kib(content: Seq<char>) -> Option<nat> {
    let lines = text_lines(content);
    if exists|i: int| is_first_with_prefix(lines, "MemTotal:"@, i) {
        let line = lines[choose|i: int| is_first_with_prefix(lines, "MemTotal:"@, i)];
        match second_word(line) {
            Some(w) => parse_unsigned(w, u64::MAX as nat),
            None => None,
        }
    } else {
        None
    }
}

/// The position after the white space that starts at `i`.
fn skip_spaces(cs: &Vec<char>, i: usize) -> (j: usize)
    requires
        i <= cs@.len(),
    ensures
        i <= j <= cs@.len(),
        cs@.skip(j as int) == trim_start(cs@.skip(i as int)),
{
    let mut j = i;
    while j < cs.len() && is_whitespace(cs[j])
        invariant
            i <= j <= cs@.len(),
            forall|k: int| i <= k < j ==> is_space(#[trigger] cs@[k]),
        decreases cs.len() - j,
    {
        j = j + 1;
    }
    proof {
        let s = cs@.skip(i as int);
        assert forall|k: int| 0 <= k < j - i implies is_space(#[trigger] s[k]) by {
            assert(s[k] == cs@[k + i]);
        }
        if j < cs@.len() {
            assert(s[j - i] == cs@[j as int]);
        }
        crate::text::lemma_trim_start_skip(s, j - i);
        assert(s.subrange(j - i, s.len() as int) =~= cs@.skip(j as int));
    }
    j
}

/// The position where the word that starts at `i` ends.
fn word_end(cs: &Vec<char>, i: usize) -> (j: usize)
    requires
        i <= cs@.len(),
    ensures
        i <= j <= cs@.len(),
        j - i == word_len(cs@.skip(i as int)),
{
    let mut j = i;
    assert(cs@.skip(i as int) =~= cs@.skip(i as int));
    while j < cs.len() && !is_whitespace(cs[j])
        invariant
            i <= j <= cs@.len(),
            word_len(cs@.skip(i as int)) == (j - i) + word_len(cs@.skip(j as int)),
        decreases cs.len() - j,
    {
        assert(cs@.skip(j as int).drop_first() =~= cs@.skip(j + 1));
        j = j + 1;
    }
    j
}

/// The second white-space-separated word of `s`.
pub fn second_word_of(s: &str) -> (w: Option<String>)
    ensures
        match w {
            Some(t) => second_word(s@) == Some(t@),
            None => second_word(s@) is None,
        },
{
    let cs = chars_of(s);
    assert(cs@.skip(0) =~= s@);
    let a = skip_spaces(&cs, 0);
    if a == cs.len() {
        return None;
    }
    let b = word_end(&cs, a);
    assert(cs@.skip(a as int).skip((b - a) as int) =~= cs@.skip(b as int));
    let c = skip_spaces(&cs, b);
    if c == cs.len() {
        return None;
    }
    let d = word_end(&cs, c);
    assert(cs@.skip(c as int).take((d - c) as int) =~= cs@.subrange(c as int, d as int));
    Some(string_of_chars(&cs, c, d))
}

/// The lines of `s` (see `text_lines`).
pub fn lines_of(s: &str) -> (lines: Vec<String>)
    ensures
        texts(lines@) == text_lines(s@),
{
    let cs = chars_of(s);
    let (raw, start) = split_complete(&cs);
    let mut lines: Vec<String> = Vec::new();
    let mut i: usize = 0;
    while i < raw.len()
        invariant
            i <= raw@.len(),
            texts(lines@) == texts(raw@).take(i as int).map_values(|l: Seq<char>| without_cr(l)),
        decreases raw.len() - i,
    {
        let line = raw[i].as_str();
        let lc = chars_of(line);
        let n = lc.len();
        let stripped = if n > 0 && lc[n - 1] == '\r' {
            string_of_chars(&lc, 0, n - 1)
        } else {
            string_of_chars(&lc, 0, n)
        };
        assert(lc@.subrange(0, n - 1) =~= lc@.drop_last());
        assert(lc@.subrange(0, n as int) =~= lc@);
        let ghost before = texts(lines@);
        lines.push(stripped);
        assert(texts(lines@) =~= before.push(without_cr(raw@[i as int]@)));
        assert(texts(raw@).take(i + 1) =~= texts(raw@).take(i as int).push(raw@[i as int]@));
        assert(texts(raw@).take(i + 1).map_values(|l: Seq<char>| without_cr(l)) =~= texts(raw@).take(
            i as int,
        ).map_values(|l: Seq<char>| without_cr(l)).push(without_cr(raw@[i as int]@)));
        i = i + 1;
    }
    assert(texts(raw@).take(raw@.len() as int) =~= texts(raw@));
    let rest = string_of_chars(&cs, start, cs.len());
    assert(rest@ =~= cs@.skip(start as int));
    let ghost complete = texts(lines@);
    if rest.as_str().unicode_len() > 0 {
        lines.push(rest);
        assert(texts(lines@) =~= complete + seq![rest@]);
    } else {
        assert(texts(lines@) =~= complete + Seq::<Seq<char>>::empty());
    }
    lines
}

/// The total memory in KiB stated by `/proc/meminfo` text (see `meminfo_kib`).
pub fn meminfo_total_kib(content: &str) -> (kib: Option<u64>)
    ensures
        match meminfo_kib(content@) {
            Some(v) => kib == Some(v as u64),
            None => kib is None,
        },
{
    let lines = lines_of(content);
    let ghost lv = texts(lines@);
    let mut i: usize = 0;
    while i < lines.len()
        invariant
            i <= lines@.len(),
            lv == texts(lines@),
            lv == text_lines(content@),
            forall|j: int| 0 <= j < i ==> !has_prefix(lv[j], "MemTotal:"@),
        decreases lines.len() - i,
    {
        if starts_with(lines[i].as_str(), "MemTotal:") {
            assert(is_first_with_prefix(lv, "MemTotal:"@, i as int));
            let ghost c = choose|k: int| is_first_with_prefix(lv, "MemTotal:"@, k);
            assert(c == i) by {
                if c < i {
                    assert(has_prefix(lv[c], "MemTotal:"@));
                } else if c > i {
                    assert(has_prefix(lv[i as int], "MemTotal:"@));
                }
            }
            return match second_word_of(lines[i].as_str()) {
                Some(w) => parse_u64(w.as_str()),
                None => None,
            };
        }
        i = i + 1;
    }
    assert(!exists|k: int| is_first_with_prefix(lv, "MemTotal:"@, k));
    None
}

/// The total memory in bytes stated by `/proc/meminfo` text: its
/// `MemTotal` in KiB times 1024.
pub fn meminfo_total_bytes(content: &str) -> (bytes: Option<u64>)
    requires
        meminfo_kib(content@) matches Some(kib) ==> kib * 1024 <= u64::MAX,
    ensures
        match meminfo_kib(content@) {
            Some(kib) => bytes == Some((kib * 1024) as u64),
            None => bytes is None,
        },
{
    match meminfo_total_kib(content) {
        Some(kib) => Some(kib * 1024),
        None => None,
    }
}

/// A memory size reported as a decimal number (macOS `sysctl`, Windows
/// PowerShell): the trimmed text parsed as a `u64`.
pub fn parse_memory_report(text: &str) -> (bytes: Option<u64>)
    ensures
        match parse_unsigned(trimmed(text@), u64::MAX as nat) {
            Some(v) => bytes == Some(v as u64),
            None => bytes is None,
        },
{
    let t = trim(text);
    parse_u64(t.as_str())
}

} // verus!
