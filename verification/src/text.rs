//! Text as sequences of characters: lines, white space and words, as the
//! hosts file and the shell's command line need them.

use vstd::prelude::*;

verus! {

/// `String::push`: appends one character.
pub assume_specification[ String::push ](s: &mut String, c: char)
    ensures
        final(s)@ == old(s)@.push(c),
;

/// A class of characters.
#[derive(Debug, Clone, Copy, PartialEq, Eq, Structural)]
pub enum CharClass {
    /// White space, as Unicode defines it.
    Space,
    /// ASCII white space: space, tab, line feed, form feed, carriage
    /// return.
    Blank,
    /// Anything but ASCII white space.
    Word,
    /// Anything but a line feed.
    Line,
}

/// Whether `c` is white space: a character with Unicode's `White_Space`
/// property.
pub open spec fn is_space(c: char) -> bool {
    let n = c as u32;
    (0x9 <= n <= 0xd) || n == 0x20 || n == 0x85 || n == 0xa0 || n == 0x1680 || (0x2000 <= n
        <= 0x200a) || n == 0x2028 || n == 0x2029 || n == 0x202f || n == 0x205f || n == 0x3000
}

/// Whether `c` is ASCII white space.
pub open spec fn is_blank(c: char) -> bool {
    let n = c as u32;
    n == 0x20 || n == 0x9 || n == 0xa || n == 0xc || n == 0xd
}

impl CharClass {
    /// Whether `c` belongs to the class.
    pub open spec fn holds(self, c: char) -> bool {
        match self {
            CharClass::Space => is_space(c),
            CharClass::Blank => is_blank(c),
            CharClass::Word => !is_blank(c),
            CharClass::Line => c != '\n',
        }
    }

    /// Whether `c` belongs to the class.
    pub fn has(self, c: char) -> (r: bool)
        ensures
            r == self.holds(c),
    {
        let n = c as u32;
        match self {
            CharClass::Space => (0x9 <= n && n <= 0xd) || n == 0x20 || n == 0x85 || n == 0xa0 || n
                == 0x1680 || (0x2000 <= n && n <= 0x200a) || n == 0x2028 || n == 0x2029 || n
                == 0x202f || n == 0x205f || n == 0x3000,
            CharClass::Blank => n == 0x20 || n == 0x9 || n == 0xa || n == 0xc || n == 0xd,
            CharClass::Word => !(n == 0x20 || n == 0x9 || n == 0xa || n == 0xc || n == 0xd),
            CharClass::Line => c != '\n',
        }
    }
}

/// The length of the longest prefix of `s` whose characters all belong to
/// the class `k`.
pub open spec fn run(s: Seq<char>, k: CharClass) -> int
    decreases s.len(),
{
    if s.len() == 0 || !k.holds(s[0]) {
        0
    } else {
        1 + run(s.skip(1), k)
    }
}

/// A run ends within the text, at the first character outside the class.
pub proof fn lemma_run_ends(s: Seq<char>, k: CharClass)
    ensures
        0 <= run(s, k) <= s.len(),
        forall|j: int| 0 <= j < run(s, k) ==> k.holds(#[trigger] s[j]),
        run(s, k) < s.len() ==> !k.holds(s[run(s, k)]),
    decreases s.len(),
{
    if s.len() == 0 || !k.holds(s[0]) {
    } else {
        let rest = s.skip(1);
        lemma_run_ends(rest, k);
        assert forall|j: int| 0 <= j < run(s, k) implies k.holds(#[trigger] s[j]) by {
            if j > 0 {
                assert(rest[j - 1] == s[j]);
            }
        }
        if run(s, k) < s.len() {
            assert(rest[run(rest, k)] == s[run(s, k)]);
        }
    }
}

/// A prefix within the class that stops at the end or before a character
/// outside the class is the run.
pub proof fn lemma_run_is(s: Seq<char>, k: CharClass, n: int)
    requires
        0 <= n <= s.len(),
        forall|j: int| 0 <= j < n ==> k.holds(#[trigger] s[j]),
        n < s.len() ==> !k.holds(s[n]),
    ensures
        run(s, k) == n,
    decreases s.len(),
{
    if s.len() == 0 || n == 0 {
    } else {
        assert(k.holds(s[0]));
        let rest = s.skip(1);
        assert forall|j: int| 0 <= j < n - 1 implies k.holds(#[trigger] rest[j]) by {
            assert(rest[j] == s[j + 1]);
        }
        if n - 1 < rest.len() {
            assert(rest[n - 1] == s[n]);
        }
        lemma_run_is(rest, k, n - 1);
    }
}

/// `l` without one carriage return at its end.
pub open spec fn chomp(l: Seq<char>) -> Seq<char> {
    if l.len() > 0 && l.last() == '\r' {
        l.drop_last()
    } else {
        l
    }
}

/// The lines of `s`. A line ends at a line feed, or at the end of the text
/// where text follows the last line feed. The line feed is not part of the
/// line, and neither is a carriage return just before it.
pub open spec fn lines(s: Seq<char>) -> Seq<Seq<char>>
    decreases s.len(),
{
    if s.len() == 0 {
        Seq::empty()
    } else {
        let n = run(s, CharClass::Line);
        if n < 0 || n >= s.len() {
            seq![s]
        } else {
            seq![chomp(s.take(n))] + lines(s.skip(n + 1))
        }
    }
}

/// The words of `s`: its longest stretches without ASCII white space, in
/// order.
pub open spec fn words(s: Seq<char>) -> Seq<Seq<char>>
    decreases s.len(),
{
    if s.len() == 0 {
        Seq::empty()
    } else if is_blank(s[0]) {
        words(s.skip(1))
    } else {
        let n = run(s, CharClass::Word);
        if n <= 0 || n > s.len() {
            Seq::empty()
        } else {
            seq![s.take(n)] + words(s.skip(n))
        }
    }
}

/// `s` without the white space it begins with.
pub open spec fn trim_start(s: Seq<char>) -> Seq<char> {
    s.skip(run(s, CharClass::Space))
}

/// Whether `s` begins with `p`.
pub open spec fn starts_with(s: Seq<char>, p: Seq<char>) -> bool {
    p.len() <= s.len() && s.take(p.len() as int) == p
}

/// Whether a carriage return stands directly before a line feed somewhere
/// in `s`.
pub open spec fn has_crlf(s: Seq<char>) -> bool {
    exists|i: int| 0 <= i && i + 1 < s.len() && s[i] == '\r' && #[trigger] s[i + 1] == '\n'
}

/// The text of each row of `v`, in order.
pub open spec fn rows(v: Seq<Vec<char>>) -> Seq<Seq<char>> {
    Seq::new(v.len(), |i: int| v[i]@)
}

/// The characters of `s`.
pub fn chars_of(s: &str) -> (r: Vec<char>)
    ensures
        r@ == s@,
{
    let mut r: Vec<char> = Vec::new();
    for c in it: s.chars()
        invariant
            r@ == it.seq().take(it.index() as int),
            it.seq() == s@,
            it.index() <= it.seq().len(),
    {
        r.push(c);
    }
    assert(r@ =~= s@);
    r
}

/// The string that the characters `v` spell.
pub fn string_of(v: &Vec<char>) -> (r: String)
    ensures
        r@ == v@,
{
    let mut r = String::new();
    let mut i: usize = 0;
    while i < v.len()
        invariant
            i <= v.len(),
            r@ == v@.take(i as int),
        decreases v.len() - i,
    {
        r.push(v[i]);
        assert(v@.take(i as int + 1) =~= v@.take(i as int).push(v@[i as int]));
        i = i + 1;
    }
    assert(v@.take(v.len() as int) =~= v@);
    r
}

/// Appends the characters `src` to `out`.
pub fn append_chars(out: &mut Vec<char>, src: &Vec<char>)
    ensures
        final(out)@ == old(out)@ + src@,
{
    let mut i: usize = 0;
    while i < src.len()
        invariant
            i <= src.len(),
            out@ == old(out)@ + src@.take(i as int),
        decreases src.len() - i,
    {
        out.push(src[i]);
        assert(src@.take(i as int + 1) =~= src@.take(i as int).push(src@[i as int]));
        i = i + 1;
    }
    assert(src@.take(src.len() as int) =~= src@);
}

/// The characters of `v` from `from` up to `to`.
pub fn slice_of(v: &Vec<char>, from: usize, to: usize) -> (r: Vec<char>)
    requires
        from <= to <= v.len(),
    ensures
        r@ == v@.subrange(from as int, to as int),
{
    let mut r: Vec<char> = Vec::new();
    let mut i: usize = from;
    while i < to
        invariant
            from <= i <= to,
            to <= v.len(),
            r@ == v@.subrange(from as int, i as int),
        decreases to - i,
    {
        r.push(v[i]);
        assert(v@.subrange(from as int, i as int + 1) =~= v@.subrange(from as int, i as int).push(
            v@[i as int],
        ));
        i = i + 1;
    }
    r
}

/// The end of the run of class `k` that starts at `from`.
pub fn run_end(v: &Vec<char>, from: usize, k: CharClass) -> (end: usize)
    requires
        from <= v.len(),
    ensures
        from <= end <= v.len(),
        end == from + run(v@.skip(from as int), k),
{
    let mut i: usize = from;
    while i < v.len() && k.has(v[i])
        invariant
            from <= i <= v.len(),
            forall|j: int| from <= j < i ==> k.holds(#[trigger] v@[j]),
        decreases v.len() - i,
    {
        i = i + 1;
    }
    proof {
        let s = v@.skip(from as int);
        assert forall|j: int| 0 <= j < i - from implies k.holds(#[trigger] s[j]) by {
            assert(s[j] == v@[from + j]);
        }
        if i - from < s.len() {
            assert(s[i - from] == v@[i as int]);
        }
        lemma_run_is(s, k, i - from);
    }
    i
}

/// Whether the characters of `v` from `at` on begin with `p`.
pub fn begins_at(v: &Vec<char>, at: usize, p: &Vec<char>) -> (r: bool)
    requires
        at <= v.len(),
    ensures
        r == starts_with(v@.skip(at as int), p@),
{
    if p.len() > v.len() - at {
        return false;
    }
    let ghost s = v@.skip(at as int);
    let mut i: usize = 0;
    while i < p.len()
        invariant
            i <= p.len(),
            at + p.len() <= v.len(),
            s == v@.skip(at as int),
            forall|j: int| 0 <= j < i ==> v@[at + j] == #[trigger] p@[j],
        decreases p.len() - i,
    {
        if v[at + i] != p[i] {
            assert(s.take(p.len() as int)[i as int] != p@[i as int]);
            return false;
        }
        i = i + 1;
    }
    assert(s.take(p.len() as int) =~= p@);
    true
}

/// The lines of `v`.
pub fn lines_of(v: &Vec<char>) -> (r: Vec<Vec<char>>)
    ensures
        rows(r@) == lines(v@),
{
    let mut r: Vec<Vec<char>> = Vec::new();
    let mut pos: usize = 0;
    assert(v@.skip(0) =~= v@);
    assert(rows(r@) + lines(v@.skip(0)) =~= lines(v@));
    while pos < v.len()
        invariant
            pos <= v.len(),
            rows(r@) + lines(v@.skip(pos as int)) == lines(v@),
        decreases v.len() - pos,
    {
        let ghost s = v@.skip(pos as int);
        let ghost before = rows(r@);
        let end = run_end(v, pos, CharClass::Line);
        if end >= v.len() {
            r.push(slice_of(v, pos, v.len()));
            proof {
                assert(v@.subrange(pos as int, v.len() as int) =~= s);
                assert(lines(s) == seq![s]);
                assert(rows(r@) =~= before + seq![s]);
                assert(v@.skip(v.len() as int) =~= Seq::<char>::empty());
            }
            pos = v.len();
        } else {
            let mut stop = end;
            if stop > pos && v[stop - 1] == '\r' {
                stop = stop - 1;
            }
            r.push(slice_of(v, pos, stop));
            proof {
                let n = end - pos;
                assert(s.take(n) =~= v@.subrange(pos as int, end as int));
                assert(chomp(s.take(n)) =~= v@.subrange(pos as int, stop as int));
                assert(s.skip(n + 1) =~= v@.skip(end as int + 1));
                assert(rows(r@) =~= before + seq![chomp(s.take(n))]);
                assert(rows(r@) + lines(v@.skip(end as int + 1)) =~= before + lines(s));
            }
            pos = end + 1;
        }
    }
    assert(v@.skip(v.len() as int) =~= Seq::<char>::empty());
    assert(rows(r@) + Seq::<Seq<char>>::empty() =~= rows(r@));
    r
}

/// The words of `v`.
pub fn words_of(v: &Vec<char>) -> (r: Vec<Vec<char>>)
    ensures
        rows(r@) == words(v@),
{
    let mut r: Vec<Vec<char>> = Vec::new();
    let mut pos: usize = 0;
    assert(v@.skip(0) =~= v@);
    assert(rows(r@) + words(v@.skip(0)) =~= words(v@));
    while pos < v.len()
        invariant
            pos <= v.len(),
            rows(r@) + words(v@.skip(pos as int)) == words(v@),
        decreases v.len() - pos,
    {
        let ghost s = v@.skip(pos as int);
        let ghost before = rows(r@);
        assert(s[0] == v@[pos as int]);
        if CharClass::Blank.has(v[pos]) {
            assert(s.skip(1) =~= v@.skip(pos as int + 1));
            pos = pos + 1;
        } else {
            let end = run_end(v, pos, CharClass::Word);
            proof {
                lemma_run_ends(s, CharClass::Word);
                assert(CharClass::Word.holds(s[0]));
                assert(run(s, CharClass::Word) >= 1);
            }
            r.push(slice_of(v, pos, end));
            proof {
                let n = end - pos;
                assert(s.take(n) =~= v@.subrange(pos as int, end as int));
                assert(s.skip(n) =~= v@.skip(end as int));
                assert(rows(r@) =~= before + seq![s.take(n)]);
                assert(rows(r@) + words(v@.skip(end as int)) =~= before + words(s));
            }
            pos = end;
        }
    }
    assert(v@.skip(v.len() as int) =~= Seq::<char>::empty());
    assert(rows(r@) + Seq::<Seq<char>>::empty() =~= rows(r@));
    r
}

/// Whether a carriage return stands directly before a line feed somewhere
/// in `v`.
pub fn find_crlf(v: &Vec<char>) -> (r: bool)
    ensures
        r == has_crlf(v@),
{
    let mut i: usize = 1;
    while i < v.len()
        invariant
            1 <= i,
            forall|j: int|
                0 <= j && j + 1 < i && j + 1 < v.len() ==> !(v@[j] == '\r' && #[trigger] v@[j + 1]
                    == '\n'),
        decreases v.len() - i,
    {
        if v[i - 1] == '\r' && v[i] == '\n' {
            assert(v@[(i - 1) + 1] == '\n');
            return true;
        }
        i = i + 1;
    }
    false
}

/// Whether `rows` holds a row that spells `word`.
pub fn holds_word(list: &Vec<Vec<char>>, word: &Vec<char>) -> (r: bool)
    ensures
        r == rows(list@).contains(word@),
{
    let mut i: usize = 0;
    while i < list.len()
        invariant
            i <= list.len(),
            forall|j: int| 0 <= j < i ==> rows(list@)[j] != word@,
        decreases list.len() - i,
    {
        if same_chars(&list[i], word) {
            assert(rows(list@)[i as int] == word@);
            return true;
        }
        i = i + 1;
    }
    false
}

/// Whether `a` and `b` spell the same text.
pub fn same_chars(a: &Vec<char>, b: &Vec<char>) -> (r: bool)
    ensures
        r == (a@ == b@),
{
    if a.len() != b.len() {
        return false;
    }
    let mut i: usize = 0;
    while i < a.len()
        invariant
            i <= a.len(),
            a.len() == b.len(),
            forall|j: int| 0 <= j < i ==> a@[j] == b@[j],
        decreases a.len() - i,
    {
        if a[i] != b[i] {
            return false;
        }
        i = i + 1;
    }
    assert(a@ =~= b@);
    true
}

} // verus!
