//! Line framing of streamed runtime responses (NDJSON and server-sent
//! events): text arrives in chunks, and each complete line is handed on,
//! trimmed, as soon as its newline has arrived.
use vstd::prelude::*;
use crate::text::{chars_of, owned, string_of_chars, trim, trimmed};

verus! {

/// `i` is the position of the first newline of `s`.
pub open spec fn is_first_newline(s: Seq<char>, i: int) -> bool {
    &&& 0 <= i < s.len()
    &&& s[i] == '\n'
    &&& forall|j: int| 0 <= j < i ==> s[j] != '\n'
}

/// The complete lines of `s` (without their newlines) and the text after
/// the last newline.
pub open spec fn split_lines(s: Seq<char>) -> (Seq<Seq<char>>, Seq<char>)
    decreases s.len(),
{
    if exists|i: int| is_first_newline(s, i) {
        let i = choose|i: int| is_first_newline(s, i);
        let rest = split_lines(s.skip(i + 1));
        (seq![s.take(i)] + rest.0, rest.1)
    } else {
        (Seq::empty(), s)
    }
}

proof fn lemma_first_newline_unique(s: Seq<char>, i: int, j: int)
    requires
        is_first_newline(s, i),
        is_first_newline(s, j),
    ensures
        i == j,
{
    if i < j {
        assert(s[i] == '\n');
    } else if j < i {
        assert(s[j] == '\n');
    }
}

proof fn lemma_split_at_newline(s: Seq<char>, i: int)
    requires
        is_first_newline(s, i),
    ensures
        split_lines(s) == (seq![s.take(i)] + split_lines(s.skip(i + 1)).0, split_lines(
            s.skip(i + 1),
        ).1),
{
    let c = choose|k: int| is_first_newline(s, k);
    lemma_first_newline_unique(s, i, c);
}

/// Chunk boundaries do not matter: splitting `a` and then the text it left
/// over followed by `b` gives the lines of `a + b` and the same remainder.
pub proof fn lemma_split_lines_concat(a: Seq<char>, b: Seq<char>)
    ensures
        ({
            let first = split_lines(a);
            let second = split_lines(first.1 + b);
            split_lines(a + b) == (first.0 + second.0, second.1)
        }),
    decreases a.len(),
{
    if exists|i: int| is_first_newline(a, i) {
        let i = choose|i: int| is_first_newline(a, i);
        assert(is_first_newline(a + b, i));
        lemma_split_at_newline(a + b, i);
        lemma_split_at_newline(a, i);
        assert((a + b).take(i) =~= a.take(i));
        assert((a + b).skip(i + 1) =~= a.skip(i + 1) + b);
        lemma_split_lines_concat(a.skip(i + 1), b);
        let rest = split_lines(a.skip(i + 1));
        let second = split_lines(rest.1 + b);
        assert(seq![a.take(i)] + (rest.0 + second.0) =~= (seq![a.take(i)] + rest.0) + second.0);
    } else {
        assert(split_lines(a) == (Seq::<Seq<char>>::empty(), a));
        assert(Seq::<Seq<char>>::empty() + split_lines(a + b).0 =~= split_lines(a + b).0);
    }
}

/// Feeding a buffer two chunks hands on, in order, the same trimmed lines
/// as feeding it their concatenation, and leaves the same text pending.
pub proof fn law_chunking_is_invisible(pending: Seq<char>, a: Seq<char>, b: Seq<char>)
    ensures
        ({
            let first = split_lines(pending + a);
            let second = split_lines(first.1 + b);
            let whole = split_lines(pending + (a + b));
            &&& trim_lines(first.0) + trim_lines(second.0) == trim_lines(whole.0)
            &&& second.1 == whole.1
        }),
{
    lemma_split_lines_concat(pending + a, b);
    assert(pending + a + b =~= pending + (a + b));
    let first = split_lines(pending + a);
    let second = split_lines(first.1 + b);
    assert(trim_lines(first.0) + trim_lines(second.0) =~= trim_lines(first.0 + second.0));
}

/// Each line, trimmed.
pub open spec fn trim_lines(lines: Seq<Seq<char>>) -> Seq<Seq<char>> {
    lines.map_values(|l: Seq<char>| trimmed(l))
}

proof fn lemma_some_newline_is_first(s: Seq<char>, j: int)
    requires
        0 <= j < s.len(),
        s[j] == '\n',
    ensures
        exists|i: int| is_first_newline(s, i),
    decreases j,
{
    if exists|k: int| 0 <= k < j && s[k] == '\n' {
        let k = choose|k: int| 0 <= k < j && s[k] == '\n';
        lemma_some_newline_is_first(s, k);
    } else {
        assert(is_first_newline(s, j));
    }
}

/// The text after the last newline holds no newline.
proof fn lemma_rest_has_no_newline(s: Seq<char>)
    ensures
        forall|k: int| 0 <= k < split_lines(s).1.len() ==> split_lines(s).1[k] != '\n',
    decreases s.len(),
{
    if exists|i: int| is_first_newline(s, i) {
        let i = choose|i: int| is_first_newline(s, i);
        lemma_split_at_newline(s, i);
        lemma_rest_has_no_newline(s.skip(i + 1));
    } else {
        assert forall|k: int| 0 <= k < s.len() implies s[k] != '\n' by {
            if s[k] == '\n' {
                lemma_some_newline_is_first(s, k);
            }
        }
    }
}

/// The text of a sequence of chunks, one after the other.
pub open spec fn concat_chunks(chunks: Seq<Seq<char>>) -> Seq<char>
    decreases chunks.len(),
{
    if chunks.len() == 0 {
        Seq::empty()
    } else {
        concat_chunks(chunks.drop_last()) + chunks.last()
    }
}

/// What a buffer holding `pending` hands on when it is given `chunks` one
/// at a time (each step as `LineBuffer::push` states it): all the trimmed
/// lines, in order, and the text left pending at the end.
pub open spec fn feed(pending: Seq<char>, chunks: Seq<Seq<char>>) -> (Seq<Seq<char>>, Seq<char>)
    decreases chunks.len(),
{
    if chunks.len() == 0 {
        (Seq::empty(), pending)
    } else {
        let before = feed(pending, chunks.drop_last());
        let step = split_lines(before.1 + chunks.last());
        (before.0 + trim_lines(step.0), step.1)
    }
}

/// However a text is cut into chunks, a buffer (which never holds a
/// newline) hands on the same trimmed lines, in the same order, and keeps
/// the same remainder as when it is given the whole text at once.
pub proof fn law_any_chunking_is_invisible(pending: Seq<char>, chunks: Seq<Seq<char>>)
    requires
        forall|i: int| 0 <= i < pending.len() ==> pending[i] != '\n',
    ensures
        feed(pending, chunks) == (
            trim_lines(split_lines(pending + concat_chunks(chunks)).0),
            split_lines(pending + concat_chunks(chunks)).1,
        ),
    decreases chunks.len(),
{
    if chunks.len() == 0 {
        assert(!exists|i: int| is_first_newline(pending, i));
        assert(pending + concat_chunks(chunks) =~= pending);
        assert(trim_lines(Seq::<Seq<char>>::empty()) =~= Seq::<Seq<char>>::empty());
    } else {
        let init = chunks.drop_last();
        let c = chunks.last();
        law_any_chunking_is_invisible(pending, init);
        let whole = pending + concat_chunks(init);
        lemma_split_lines_concat(whole, c);
        assert(pending + concat_chunks(chunks) =~= whole + c);
        let first = split_lines(whole);
        let second = split_lines(first.1 + c);
        assert(trim_lines(first.0) + trim_lines(second.0) =~= trim_lines(first.0 + second.0));
    }
}

/// The characters of each string.
pub open spec fn texts(v: Seq<String>) -> Seq<Seq<char>> {
    v.map_values(|s: String| s@)
}

/// The complete lines of `all` and where the text after the last newline
/// begins.
pub fn split_complete(all: &Vec<char>) -> (r: (Vec<String>, usize))
    ensures
        r.1 <= all@.len(),
        texts(r.0@) == split_lines(all@).0,
        all@.skip(r.1 as int) == split_lines(all@).1,
{
    let ghost whole = all@;
    let mut lines: Vec<String> = Vec::new();
    let mut start: usize = 0;
    let mut i: usize = 0;
    assert(whole.skip(0) =~= whole);
    assert(split_lines(whole).0 =~= texts(lines@) + split_lines(whole).0);
    while i < all.len()
        invariant
            all@ == whole,
            start <= i <= all@.len(),
            forall|j: int| start <= j < i ==> all@[j] != '\n',
            split_lines(whole) == (texts(lines@) + split_lines(whole.skip(start as int)).0, split_lines(
                whole.skip(start as int),
            ).1),
        decreases all.len() - i,
    {
        if all[i] == '\n' {
            let ghost rest = whole.skip(start as int);
            assert(is_first_newline(rest, i - start)) by {
                assert forall|j: int| 0 <= j < i - start implies rest[j] != '\n' by {
                    assert(rest[j] == all@[j + start]);
                }
            }
            proof {
                lemma_split_at_newline(rest, i - start);
            }
            let line = string_of_chars(all, start, i);
            assert(rest.take(i - start) =~= all@.subrange(start as int, i as int));
            assert(rest.skip(i - start + 1) =~= whole.skip(i + 1));
            let ghost before = texts(lines@);
            lines.push(line);
            proof {
                assert(texts(lines@) =~= before.push(line@));
                assert(texts(lines@) + split_lines(whole.skip(i + 1)).0 =~= before + (seq![line@]
                    + split_lines(whole.skip(i + 1)).0));
            }
            start = i + 1;
        }
        i = i + 1;
    }
    let ghost rest = whole.skip(start as int);
    assert(!exists|j: int| is_first_newline(rest, j)) by {
        if exists|j: int| is_first_newline(rest, j) {
            let j = choose|j: int| is_first_newline(rest, j);
            assert(all@[j + start] == rest[j]);
        }
    }
    assert(split_lines(rest) == (Seq::<Seq<char>>::empty(), rest));
    assert(texts(lines@) + Seq::<Seq<char>>::empty() =~= texts(lines@));
    (lines, start)
}

/// Text received but not yet ended by a newline.
pub struct LineBuffer {
    pending: String,
}

impl View for LineBuffer {
    type V = Seq<char>;

    closed spec fn view(&self) -> Seq<char> {
        self.pending@
    }
}

impl LineBuffer {
    /// A buffer that holds nothing.
    pub fn new() -> (b: LineBuffer)
        ensures
            b@ == Seq::<char>::empty(),
    {
        LineBuffer { pending: String::new() }
    }

    /// Takes in a chunk of text and gives back, trimmed and in order, the
    /// lines that it completes; the text after the last newline stays.
    pub fn push(&mut self, chunk: &str) -> (lines: Vec<String>)
        ensures
            texts(lines@) == trim_lines(split_lines(old(self)@ + chunk@).0),
            final(self)@ == split_lines(old(self)@ + chunk@).1,
            forall|i: int| 0 <= i < final(self)@.len() ==> final(self)@[i] != '\n',
    {
        let mut all = chars_of(self.pending.as_str());
        let more = chars_of(chunk);
        let ghost whole = self.pending@ + chunk@;
        let mut k: usize = 0;
        while k < more.len()
            invariant
                k <= more@.len(),
                more@ == chunk@,
                all@ == old(self)@ + chunk@.take(k as int),
            decreases more.len() - k,
        {
            all.push(more[k]);
            assert(chunk@.take(k + 1) =~= chunk@.take(k as int).push(chunk@[k as int]));
            k = k + 1;
        }
        assert(chunk@.take(chunk@.len() as int) =~= chunk@);
        let (raw, start) = split_complete(&all);
        let mut lines: Vec<String> = Vec::new();
        let mut i: usize = 0;
        while i < raw.len()
            invariant
                i <= raw@.len(),
                texts(lines@) == trim_lines(texts(raw@).take(i as int)),
            decreases raw.len() - i,
        {
            let ghost before = texts(lines@);
            let t = trim(raw[i].as_str());
            lines.push(t);
            assert(texts(lines@) =~= before.push(t@));
            assert(texts(raw@).take(i + 1) =~= texts(raw@).take(i as int).push(raw@[i as int]@));
            assert(trim_lines(texts(raw@).take(i + 1)) =~= trim_lines(texts(raw@).take(i as int)).push(
                trimmed(raw@[i as int]@),
            ));
            i = i + 1;
        }
        assert(texts(raw@).take(raw@.len() as int) =~= texts(raw@));
        self.pending = string_of_chars(&all, start, all.len());
        assert(self.pending@ =~= whole.skip(start as int));
        proof {
            lemma_rest_has_no_newline(whole);
        }
        lines
    }

    /// At the end of the stream: the text left over, trimmed, unless it is
    /// blank.
    pub fn finish(&self) -> (last: Option<String>)
        ensures
            match last {
                Some(t) => trimmed(self@).len() > 0 && t@ == trimmed(self@),
                None => trimmed(self@).len() == 0,
            },
    {
        let t = trim(self.pending.as_str());
        if t.as_str().unicode_len() == 0 {
            None
        } else {
            Some(t)
        }
    }
}

} // verus!
