//! Operations on text, modelled as sequences of Unicode scalar values.

use vstd::prelude::*;
use vstd::string::*;

verus! {

/// Appending one character to a `String`: `String::push` adds it at the end.
pub assume_specification[ String::push ](s: &mut String, c: char)
    ensures
        final(s)@ == old(s)@.push(c),
;

/// What separates two pieces of a text.
#[derive(Clone, Copy)]
pub enum Sep {
    /// One given character.
    Char(char),
    /// Any Unicode white space.
    Space,
}

/// Unicode's `White_Space` property.
pub open spec fn is_space(c: char) -> bool {
    let n = c as u32;
    ||| 9 <= n <= 13
    ||| n == 32
    ||| n == 0x85
    ||| n == 0xa0
    ||| n == 0x1680
    ||| 0x2000 <= n <= 0x200a
    ||| n == 0x2028
    ||| n == 0x2029
    ||| n == 0x202f
    ||| n == 0x205f
    ||| n == 0x3000
}

impl Sep {
    /// Does `c` separate?
    pub open spec fn splits(self, c: char) -> bool {
        match self {
            Sep::Char(x) => c == x,
            Sep::Space => is_space(c),
        }
    }

    /// Does `c` separate?
    pub fn test(self, c: char) -> (r: bool)
        ensures
            r == self.splits(c),
    {
        match self {
            Sep::Char(x) => c == x,
            Sep::Space => {
                let n = c as u32;
                (9 <= n && n <= 13) || n == 32 || n == 0x85 || n == 0xa0 || n == 0x1680 || (0x2000
                    <= n && n <= 0x200a) || n == 0x2028 || n == 0x2029 || n == 0x202f || n == 0x205f
                    || n == 0x3000
            },
        }
    }
}

/// The views of a sequence of strings.
pub open spec fn texts(v: Seq<String>) -> Seq<Seq<char>> {
    v.map_values(|s: String| s@)
}

/// The view of an optional string.
pub open spec fn opt_text(v: Option<String>) -> Option<Seq<char>> {
    match v {
        Some(s) => Some(s@),
        None => None,
    }
}

/// The characters of `s`, one by one.
pub fn chars_of(s: &str) -> (r: Vec<char>)
    ensures
        r@ == s@,
{
    let mut v: Vec<char> = Vec::new();
    for c in it: s.chars()
        invariant
            it.seq() == s@,
            v@ == s@.take(it.index() as int),
    {
        v.push(c);
        assert(s@.take(it.index() + 1) =~= s@.take(it.index() as int).push(c));
    }
    assert(s@.take(s@.len() as int) =~= s@);
    v
}

/// The text made of `v[from..to]`.
pub fn text_of(v: &Vec<char>, from: usize, to: usize) -> (r: String)
    requires
        from <= to <= v@.len(),
    ensures
        r@ == v@.subrange(from as int, to as int),
{
    let mut out = String::new();
    let mut i: usize = from;
    while i < to
        invariant
            from <= i <= to <= v@.len(),
            out@ == v@.subrange(from as int, i as int),
        decreases to - i,
    {
        out.push(v[i]);
        assert(v@.subrange(from as int, i + 1) =~= v@.subrange(from as int, i as int).push(v@[i as int]));
        i = i + 1;
    }
    out
}

/// Are the two texts the same?
pub fn same(a: &str, b: &str) -> (r: bool)
    ensures
        r == (a@ == b@),
{
    a.to_owned() == b.to_owned()
}

/// The elements of a list of strings, copied.
pub fn clone_texts(v: &Vec<String>) -> (r: Vec<String>)
    ensures
        r@ == v@,
        texts(r@) == texts(v@),
{
    let r = v.clone();
    assert(r@ =~= v@);
    r
}

// ---------------------------------------------------------------------------
// Order
// ---------------------------------------------------------------------------
/// Lexicographic order by code point, which is the byte order of UTF-8.
pub open spec fn lex_lt(a: Seq<char>, b: Seq<char>) -> bool
    decreases a.len(),
{
    if b.len() == 0 {
        false
    } else if a.len() == 0 {
        true
    } else if a[0] == b[0] {
        lex_lt(a.drop_first(), b.drop_first())
    } else {
        (a[0] as u32) < (b[0] as u32)
    }
}

/// `a` sorts no later than `b`.
pub open spec fn lex_le(a: Seq<char>, b: Seq<char>) -> bool {
    !lex_lt(b, a)
}

/// Nothing sorts before itself.
pub proof fn lex_irreflexive(a: Seq<char>)
    ensures
        !lex_lt(a, a),
    decreases a.len(),
{
    if a.len() > 0 {
        lex_irreflexive(a.drop_first());
    }
}

/// The order is transitive.
pub proof fn lex_transitive(a: Seq<char>, b: Seq<char>, c: Seq<char>)
    requires
        lex_lt(a, b),
        lex_lt(b, c),
    ensures
        lex_lt(a, c),
    decreases a.len(),
{
    if a.len() > 0 && b.len() > 0 && c.len() > 0 {
        if a[0] == b[0] && b[0] == c[0] {
            lex_transitive(a.drop_first(), b.drop_first(), c.drop_first());
        }
    }
}

/// Of two different texts, one sorts before the other.
pub proof fn lex_total(a: Seq<char>, b: Seq<char>)
    ensures
        lex_lt(a, b) || lex_lt(b, a) || a == b,
    decreases a.len(),
{
    if a.len() > 0 && b.len() > 0 {
        if a[0] == b[0] {
            lex_total(a.drop_first(), b.drop_first());
            if a.drop_first() == b.drop_first() {
                assert(a =~= seq![a[0]] + a.drop_first());
                assert(b =~= seq![b[0]] + b.drop_first());
            }
        } else {
            vstd::utf8::char_u32_cast(a[0], a[0] as u32);
            vstd::utf8::char_u32_cast(b[0], b[0] as u32);
        }
    } else if a.len() == 0 && b.len() == 0 {
        assert(a =~= b);
    }
}

/// No two texts sort before each other.
pub proof fn lex_asymmetric(a: Seq<char>, b: Seq<char>)
    requires
        lex_lt(a, b),
    ensures
        !lex_lt(b, a),
{
    if lex_lt(b, a) {
        lex_transitive(a, b, a);
        lex_irreflexive(a);
    }
}

/// "No later than" is transitive too.
pub proof fn lex_le_transitive(a: Seq<char>, b: Seq<char>, c: Seq<char>)
    requires
        lex_le(a, b),
        lex_le(b, c),
    ensures
        lex_le(a, c),
{
    if lex_lt(c, a) {
        lex_total(a, b);
        if a != b {
            lex_transitive(c, a, b);
        }
    }
}

/// Does `a` sort before `b`?
pub fn before(a: &str, b: &str) -> (r: bool)
    ensures
        r == lex_lt(a@, b@),
{
    let x = chars_of(a);
    let y = chars_of(b);
    let mut i: usize = 0;
    assert(x@.skip(0) =~= x@);
    assert(y@.skip(0) =~= y@);
    while i < x.len() && i < y.len() && x[i] == y[i]
        invariant
            i <= x@.len(),
            i <= y@.len(),
            lex_lt(x@, y@) == lex_lt(x@.skip(i as int), y@.skip(i as int)),
        decreases x@.len() - i,
    {
        assert(x@.skip(i as int).drop_first() =~= x@.skip(i + 1));
        assert(y@.skip(i as int).drop_first() =~= y@.skip(i + 1));
        i = i + 1;
    }
    if i >= y.len() {
        false
    } else if i >= x.len() {
        true
    } else {
        (x[i] as u32) < (y[i] as u32)
    }
}

// ---------------------------------------------------------------------------
// Trimming
// ---------------------------------------------------------------------------
/// `s` without the leading characters that `sep` accepts.
pub open spec fn trimmed_start(s: Seq<char>, sep: Sep) -> Seq<char>
    decreases s.len(),
{
    if s.len() > 0 && sep.splits(s[0]) {
        trimmed_start(s.drop_first(), sep)
    } else {
        s
    }
}

/// `s` without the trailing characters that `sep` accepts.
pub open spec fn trimmed_end(s: Seq<char>, sep: Sep) -> Seq<char>
    decreases s.len(),
{
    if s.len() > 0 && sep.splits(s.last()) {
        trimmed_end(s.drop_last(), sep)
    } else {
        s
    }
}

/// `s` without leading and trailing white space.
pub open spec fn trimmed(s: Seq<char>) -> Seq<char> {
    trimmed_end(trimmed_start(s, Sep::Space), Sep::Space)
}

/// Where the text starts once the leading characters of `sep` are gone.
fn start_index(v: &Vec<char>, sep: Sep) -> (r: usize)
    ensures
        r <= v@.len(),
        v@.skip(r as int) == trimmed_start(v@, sep),
{
    let mut i: usize = 0;
    assert(v@.skip(0) =~= v@);
    while i < v.len() && sep.test(v[i])
        invariant
            i <= v@.len(),
            trimmed_start(v@, sep) == trimmed_start(v@.skip(i as int), sep),
        decreases v@.len() - i,
    {
        assert(v@.skip(i as int).drop_first() =~= v@.skip(i + 1));
        i = i + 1;
    }
    i
}

/// Where the text from `from` on ends once the trailing characters of `sep` are gone.
fn end_index(v: &Vec<char>, from: usize, sep: Sep) -> (r: usize)
    requires
        from <= v@.len(),
    ensures
        from <= r <= v@.len(),
        v@.subrange(from as int, r as int) == trimmed_end(v@.skip(from as int), sep),
{
    let mut j: usize = v.len();
    assert(v@.subrange(from as int, j as int) =~= v@.skip(from as int));
    while j > from && sep.test(v[j - 1])
        invariant
            from <= j <= v@.len(),
            trimmed_end(v@.skip(from as int), sep) == trimmed_end(
                v@.subrange(from as int, j as int),
                sep,
            ),
        decreases j,
    {
        assert(v@.subrange(from as int, j as int).drop_last() =~= v@.subrange(from as int, j - 1));
        j = j - 1;
    }
    j
}

/// `s` without leading and trailing white space.
pub fn trim(s: &str) -> (r: String)
    ensures
        r@ == trimmed(s@),
{
    let v = chars_of(s);
    let i = start_index(&v, Sep::Space);
    let j = end_index(&v, i, Sep::Space);
    text_of(&v, i, j)
}

/// `s` without the trailing occurrences of `c`.
pub fn trim_end_char(s: &str, c: char) -> (r: String)
    ensures
        r@ == trimmed_end(s@, Sep::Char(c)),
{
    let v = chars_of(s);
    let j = end_index(&v, 0, Sep::Char(c));
    assert(v@.skip(0) =~= v@);
    text_of(&v, 0, j)
}

// ---------------------------------------------------------------------------
// Splitting
// ---------------------------------------------------------------------------
/// The pieces of `s` between separators, empty ones included: read from the
/// left, a separator opens a new piece, any other character joins the last one.
pub open spec fn pieces(s: Seq<char>, sep: Sep) -> Seq<Seq<char>>
    decreases s.len(),
{
    if s.len() == 0 {
        seq![Seq::<char>::empty()]
    } else {
        let head = pieces(s.drop_last(), sep);
        if sep.splits(s.last()) {
            head.push(Seq::<char>::empty())
        } else {
            head.drop_last().push(head.last().push(s.last()))
        }
    }
}

/// There is always at least one piece.
pub proof fn pieces_nonempty(s: Seq<char>, sep: Sep)
    ensures
        pieces(s, sep).len() >= 1,
    decreases s.len(),
{
    if s.len() > 0 {
        pieces_nonempty(s.drop_last(), sep);
    }
}

/// A text without a separator is one piece.
pub proof fn pieces_single(s: Seq<char>, sep: Sep)
    requires
        forall|i: int| 0 <= i < s.len() ==> !sep.splits(#[trigger] s[i]),
    ensures
        pieces(s, sep) == seq![s],
    decreases s.len(),
{
    if s.len() > 0 {
        pieces_single(s.drop_last(), sep);
        assert(s.drop_last().push(s.last()) =~= s);
        assert(pieces(s, sep) =~= seq![s]);
    } else {
        assert(s =~= Seq::<char>::empty());
    }
}

/// A separator ends a piece: what stands before it and what stands after it
/// split apart.
pub proof fn pieces_concat(a: Seq<char>, c: char, b: Seq<char>, sep: Sep)
    requires
        sep.splits(c),
    ensures
        pieces(a + seq![c] + b, sep) == pieces(a, sep) + pieces(b, sep),
    decreases b.len(),
{
    let s = a + seq![c] + b;
    pieces_nonempty(b, sep);
    if b.len() == 0 {
        assert(s.drop_last() =~= a);
        assert(pieces(s, sep) =~= pieces(a, sep) + pieces(b, sep));
    } else {
        assert(s.drop_last() =~= a + seq![c] + b.drop_last());
        pieces_concat(a, c, b.drop_last(), sep);
        pieces_nonempty(b.drop_last(), sep);
        let head = pieces(s.drop_last(), sep);
        let tail = pieces(b.drop_last(), sep);
        assert(head.last() == tail.last());
        assert(pieces(s, sep) =~= pieces(a, sep) + pieces(b, sep));
    }
}

/// The pieces of `s` between separators.
pub fn split(s: &str, sep: Sep) -> (r: Vec<String>)
    ensures
        texts(r@) == pieces(s@, sep),
        r@.len() >= 1,
{
    let v = chars_of(s);
    let mut out: Vec<String> = Vec::new();
    let mut cur = String::new();
    let mut i: usize = 0;
    assert(texts(out@).push(cur@) =~= pieces(v@.take(0), sep));
    while i < v.len()
        invariant
            i <= v@.len(),
            texts(out@).push(cur@) == pieces(v@.take(i as int), sep),
        decreases v@.len() - i,
    {
        let c = v[i];
        let ghost before = texts(out@).push(cur@);
        assert(v@.take(i + 1).drop_last() =~= v@.take(i as int));
        assert(before.drop_last() =~= texts(out@));
        if sep.test(c) {
            let done = cur;
            let ghost done_text = done@;
            let ghost out_before = out@;
            out.push(done);
            assert(texts(out@) =~= texts(out_before).push(done_text));
            cur = String::new();
        } else {
            cur.push(c);
        }
        assert(texts(out@).push(cur@) =~= pieces(v@.take(i + 1), sep));
        i = i + 1;
    }
    assert(v@.take(v@.len() as int) =~= v@);
    let ghost last = cur@;
    let ghost out_before = out@;
    out.push(cur);
    assert(texts(out@) =~= texts(out_before).push(last));
    out
}

/// `s` without one trailing carriage return.
pub open spec fn without_cr(s: Seq<char>) -> Seq<char> {
    if s.len() > 0 && s.last() == '\r' {
        s.drop_last()
    } else {
        s
    }
}

/// The lines of `s`: ended by `\n` or `\r\n`, the last one possibly by neither.
pub open spec fn text_lines(s: Seq<char>) -> Seq<Seq<char>> {
    let p = pieces(s, Sep::Char('\n'));
    let ended = p.len() - 1;
    Seq::new(
        if p.last().len() == 0 {
            ended as nat
        } else {
            p.len()
        },
        |i: int|
            if i < ended {
                without_cr(p[i])
            } else {
                p[i]
            },
    )
}

/// `s` without one trailing carriage return.
fn strip_cr(s: &str) -> (r: String)
    ensures
        r@ == without_cr(s@),
{
    let v = chars_of(s);
    if v.len() > 0 && v[v.len() - 1] == '\r' {
        assert(v@.subrange(0, v@.len() - 1) =~= v@.drop_last());
        text_of(&v, 0, v.len() - 1)
    } else {
        s.to_owned()
    }
}

/// The lines of `s`.
pub fn lines(s: &str) -> (r: Vec<String>)
    ensures
        texts(r@) == text_lines(s@),
{
    let p = split(s, Sep::Char('\n'));
    let ghost ps = pieces(s@, Sep::Char('\n'));
    assert(forall|i: int| 0 <= i < ps.len() ==> ps[i] == #[trigger] texts(p@)[i]);
    let n = p.len();
    let mut out: Vec<String> = Vec::new();
    let mut i: usize = 0;
    while i < n - 1
        invariant
            n == p@.len(),
            n >= 1,
            i <= n - 1,
            texts(p@) == ps,
            out@.len() == i,
            forall|j: int| 0 <= j < i ==> (#[trigger] out@[j])@ == without_cr(ps[j]),
        decreases n - i,
    {
        assert(texts(p@)[i as int] == p@[i as int]@);
        out.push(strip_cr(&p[i]));
        i = i + 1;
    }
    assert(texts(p@)[n - 1] == p@[n - 1]@);
    if p[n - 1].as_str().is_empty() {
        assert(texts(out@) =~= text_lines(s@));
    } else {
        out.push(p[n - 1].clone());
        assert(texts(out@) =~= text_lines(s@));
    }
    out
}

/// The non-empty runs of characters between white space.
pub open spec fn words(s: Seq<char>) -> Seq<Seq<char>> {
    pieces(s, Sep::Space).filter(|w: Seq<char>| w.len() > 0)
}

/// The non-empty runs of characters between white space.
pub fn split_words(s: &str) -> (r: Vec<String>)
    ensures
        texts(r@) == words(s@),
{
    let p = split(s, Sep::Space);
    let ghost ps = pieces(s@, Sep::Space);
    let ghost keep = |w: Seq<char>| w.len() > 0;
    let mut out: Vec<String> = Vec::new();
    let mut i: usize = 0;
    proof {
        reveal(Seq::filter);
        assert(texts(out@) =~= ps.take(0).filter(keep));
    }
    while i < p.len()
        invariant
            i <= p@.len(),
            texts(p@) == ps,
            keep == (|w: Seq<char>| w.len() > 0),
            texts(out@) == ps.take(i as int).filter(keep),
        decreases p@.len() - i,
    {
        proof {
            reveal(Seq::filter);
            assert(ps.take(i + 1).drop_last() =~= ps.take(i as int));
            assert(texts(p@)[i as int] == p@[i as int]@);
        }
        if !p[i].as_str().is_empty() {
            let ghost out_before = out@;
            out.push(p[i].clone());
            assert(texts(out@) =~= texts(out_before).push(ps[i as int]));
        }
        i = i + 1;
    }
    assert(ps.take(p@.len() as int) =~= ps);
    out
}

// ---------------------------------------------------------------------------
// Joining
// ---------------------------------------------------------------------------
/// `parts` one after the other, `sep` between each two.
pub open spec fn joined(parts: Seq<Seq<char>>, sep: Seq<char>) -> Seq<char>
    decreases parts.len(),
{
    if parts.len() == 0 {
        Seq::empty()
    } else if parts.len() == 1 {
        parts[0]
    } else {
        joined(parts.drop_last(), sep) + sep + parts.last()
    }
}

/// `parts[from..]` one after the other, `sep` between each two.
pub fn join_from(parts: &Vec<String>, from: usize, sep: &str) -> (r: String)
    requires
        from <= parts@.len(),
    ensures
        r@ == joined(texts(parts@).skip(from as int), sep@),
{
    let ghost ps = texts(parts@).skip(from as int);
    let mut out = String::new();
    let mut i: usize = from;
    assert(out@ =~= joined(ps.take(0), sep@));
    while i < parts.len()
        invariant
            from <= i <= parts@.len(),
            ps == texts(parts@).skip(from as int),
            out@ == joined(ps.take(i - from), sep@),
        decreases parts@.len() - i,
    {
        assert(ps.take(i - from + 1).drop_last() =~= ps.take(i - from));
        assert(ps[i - from] == parts@[i as int]@);
        if i > from {
            out.append(sep);
        } else {
            assert(ps.take(1)[0] == parts@[i as int]@);
            assert(out@ + parts@[i as int]@ =~= parts@[i as int]@);
        }
        out.append(parts[i].as_str());
        i = i + 1;
    }
    assert(ps.take(parts@.len() - from) =~= ps);
    out
}

// ---------------------------------------------------------------------------
// Searching
// ---------------------------------------------------------------------------
/// `pat` stands in `s` at position `i`.
pub open spec fn stands_at(s: Seq<char>, pat: Seq<char>, i: int) -> bool {
    0 <= i <= s.len() - pat.len() && s.subrange(i, i + pat.len()) == pat
}

/// `pat` stands somewhere in `s`.
pub open spec fn holds_text(s: Seq<char>, pat: Seq<char>) -> bool {
    exists|i: int| stands_at(s, pat, i)
}

/// The first position at which `pat` stands in `s`.
pub open spec fn is_first(s: Seq<char>, pat: Seq<char>, i: int) -> bool {
    stands_at(s, pat, i) && forall|j: int| 0 <= j < i ==> !stands_at(s, pat, j)
}

/// The first position at which `pat` stands in `s`, if there is one.
pub fn find(s: &Vec<char>, pat: &str) -> (r: Option<usize>)
    ensures
        match r {
            Some(i) => is_first(s@, pat@, i as int),
            None => !holds_text(s@, pat@),
        },
{
    let p = chars_of(pat);
    if p.len() > s.len() {
        return None;
    }
    let mut i: usize = 0;
    while i <= s.len() - p.len()
        invariant
            p@ == pat@,
            p@.len() <= s@.len() <= usize::MAX,
            i <= s@.len() - p@.len() + 1,
            forall|j: int| 0 <= j < i ==> !stands_at(s@, pat@, j),
        decreases s@.len() + 1 - i,
    {
        let mut k: usize = 0;
        while k < p.len() && s[i + k] == p[k]
            invariant
                k <= p@.len(),
                i <= s@.len() - p@.len(),
                p@.len() <= s@.len() <= usize::MAX,
                forall|m: int| 0 <= m < k ==> s@[i + m] == p@[m],
            decreases p@.len() - k,
        {
            k = k + 1;
        }
        if k == p.len() {
            assert(s@.subrange(i as int, i + p@.len()) =~= p@);
            return Some(i);
        }
        assert(!stands_at(s@, pat@, i as int)) by {
            assert(s@.subrange(i as int, i + p@.len())[k as int] == s@[i + k]);
        }
        if i == s.len() - p.len() {
            return None;
        }
        i = i + 1;
    }
    None
}

/// Does `pat` stand somewhere in `s`?
pub fn contains_text(s: &str, pat: &str) -> (r: bool)
    ensures
        r == holds_text(s@, pat@),
{
    let v = chars_of(s);
    match find(&v, pat) {
        Some(i) => true,
        None => false,
    }
}

/// `s` begins with `pat`.
pub open spec fn begins(s: Seq<char>, pat: Seq<char>) -> bool {
    stands_at(s, pat, 0)
}

/// Does `s` begin with `pat`?
pub fn starts_with(s: &str, pat: &str) -> (r: bool)
    ensures
        r == begins(s@, pat@),
{
    let v = chars_of(s);
    let p = chars_of(pat);
    if p.len() > v.len() {
        return false;
    }
    let mut k: usize = 0;
    while k < p.len()
        invariant
            k <= p@.len() <= v@.len(),
            p@ == pat@,
            v@ == s@,
            forall|m: int| 0 <= m < k ==> v@[m] == p@[m],
        decreases p@.len() - k,
    {
        if v[k] != p[k] {
            assert(v@.subrange(0, p@.len() as int)[k as int] == v@[k as int]);
            return false;
        }
        k = k + 1;
    }
    assert(v@.subrange(0, p@.len() as int) =~= p@);
    true
}

// ---------------------------------------------------------------------------
// Laws
// ---------------------------------------------------------------------------
/// White space is twenty-five characters and no others.
#[verifier::rlimit(40)]
pub proof fn white_space(c: char)
    ensures
        is_space(c) <==> seq![
            0x9u32,
            0xau32,
            0xbu32,
            0xcu32,
            0xdu32,
            0x20u32,
            0x85u32,
            0xa0u32,
            0x1680u32,
            0x2000u32,
            0x2001u32,
            0x2002u32,
            0x2003u32,
            0x2004u32,
            0x2005u32,
            0x2006u32,
            0x2007u32,
            0x2008u32,
            0x2009u32,
            0x200au32,
            0x2028u32,
            0x2029u32,
            0x202fu32,
            0x205fu32,
            0x3000u32,
        ].contains(c as u32),
{
    let t = seq![
        0x9u32,
        0xau32,
        0xbu32,
        0xcu32,
        0xdu32,
        0x20u32,
        0x85u32,
        0xa0u32,
        0x1680u32,
        0x2000u32,
        0x2001u32,
        0x2002u32,
        0x2003u32,
        0x2004u32,
        0x2005u32,
        0x2006u32,
        0x2007u32,
        0x2008u32,
        0x2009u32,
        0x200au32,
        0x2028u32,
        0x2029u32,
        0x202fu32,
        0x205fu32,
        0x3000u32,
    ];
    let n = c as u32;
    if is_space(c) {
        let i: int = if n <= 13 {
            n - 9
        } else if n == 32 {
            5
        } else if n == 0x85 {
            6
        } else if n == 0xa0 {
            7
        } else if n == 0x1680 {
            8
        } else if n <= 0x200a {
            n - 0x2000 + 9
        } else if n == 0x2028 {
            20
        } else if n == 0x2029 {
            21
        } else if n == 0x202f {
            22
        } else if n == 0x205f {
            23
        } else {
            24
        };
        assert(t[i] == n);
    }
}

/// One text sorts before another if and only if, behind what the two begin with
/// in common, it ends and the other goes on, or has the lower code point.
#[verifier::rlimit(40)]
pub proof fn first_difference_decides(a: Seq<char>, b: Seq<char>, i: int)
    requires
        0 <= i <= a.len(),
        i <= b.len(),
        a.take(i) == b.take(i),
        i < a.len() && i < b.len() ==> a[i] != b[i],
    ensures
        lex_lt(a, b) <==> i < b.len() && (i == a.len() || (a[i] as u32) < (b[i] as u32)),
    decreases a.len(),
{
    if i > 0 {
        assert(a[0] == a.take(i)[0] && b[0] == b.take(i)[0]);
        let x = a.drop_first();
        let y = b.drop_first();
        assert(x.take(i - 1) =~= a.take(i).drop_first());
        assert(y.take(i - 1) =~= b.take(i).drop_first());
        if i < a.len() {
            assert(x[i - 1] == a[i]);
        }
        if i < b.len() {
            assert(y[i - 1] == b[i]);
        }
        first_difference_decides(x, y, i - 1);
    }
}

/// Trimming takes off leading and trailing separators, all of them, and nothing
/// else.
pub proof fn trimming_keeps_the_middle(s: Seq<char>, sep: Sep)
    ensures
        ({
            let a = trimmed_start(s, sep);
            let n = s.len() - a.len();
            &&& 0 <= n
            &&& a == s.skip(n)
            &&& forall|i: int| 0 <= i < n ==> sep.splits(#[trigger] s[i])
            &&& a.len() > 0 ==> !sep.splits(a[0])
        }),
        ({
            let b = trimmed_end(s, sep);
            &&& b.len() <= s.len()
            &&& b == s.take(b.len() as int)
            &&& forall|i: int| b.len() <= i < s.len() ==> sep.splits(#[trigger] s[i])
            &&& b.len() > 0 ==> !sep.splits(b.last())
        }),
    decreases s.len(),
{
    if s.len() > 0 && sep.splits(s[0]) {
        let t = s.drop_first();
        trimming_keeps_the_middle(t, sep);
        let a = trimmed_start(s, sep);
        let n = s.len() - a.len();
        assert(t.skip(n - 1) =~= s.skip(n));
        assert forall|i: int| 0 <= i < n implies sep.splits(#[trigger] s[i]) by {
            if i > 0 {
                assert(t[i - 1] == s[i]);
            }
        }
    } else {
        assert(s.skip(0) =~= s);
    }
    if s.len() > 0 && sep.splits(s.last()) {
        let t = s.drop_last();
        trimming_keeps_the_middle(t, sep);
        let b = trimmed_end(s, sep);
        assert(t.take(b.len() as int) =~= s.take(b.len() as int));
        assert forall|i: int| b.len() <= i < s.len() implies sep.splits(#[trigger] s[i]) by {
            if i < t.len() {
                assert(t[i] == s[i]);
            }
        }
    } else {
        assert(s.take(s.len() as int) =~= s);
    }
}

/// A trimmed text is what stands between white space: what is cut off on either
/// side is white space, and what is left neither begins nor ends with any.
#[verifier::rlimit(40)]
pub proof fn trimmed_is_the_middle(s: Seq<char>)
    ensures
        exists|a: Seq<char>, b: Seq<char>|
            {
                &&& s == #[trigger] (a + trimmed(s) + b)
                &&& forall|i: int| 0 <= i < a.len() ==> is_space(#[trigger] a[i])
                &&& forall|i: int| 0 <= i < b.len() ==> is_space(#[trigger] b[i])
            },
        trimmed(s).len() > 0 ==> !is_space(trimmed(s)[0]) && !is_space(trimmed(s).last()),
        trimmed(s).len() == 0 <==> forall|i: int| 0 <= i < s.len() ==> is_space(#[trigger] s[i]),
{
    let a = trimmed_start(s, Sep::Space);
    let t = trimmed(s);
    trimming_keeps_the_middle(s, Sep::Space);
    trimming_keeps_the_middle(a, Sep::Space);
    let n = s.len() - a.len();
    assert(t =~= s.subrange(n, n + t.len()));
    assert forall|i: int| 0 <= i < n || n + t.len() <= i < s.len() implies is_space(
        #[trigger] s[i],
    ) by {
        if i < n {
            assert(Sep::Space.splits(s[i]));
        } else {
            assert(a[i - n] == s[i]);
            assert(Sep::Space.splits(a[i - n]));
        }
    }
    if t.len() > 0 {
        assert(t[0] == a[0]);
        assert(t[0] == s[n]);
    }
    let front = s.take(n);
    let back = s.skip(n + t.len());
    assert(s =~= front + t + back);
    assert forall|i: int| 0 <= i < front.len() implies is_space(#[trigger] front[i]) by {
        assert(is_space(s[i]));
    }
    assert forall|i: int| 0 <= i < back.len() implies is_space(#[trigger] back[i]) by {
        assert(is_space(s[n + t.len() + i]));
    }
}

/// Pieces hold no separator, and put together with it between them they are the
/// text that was split.
#[verifier::rlimit(40)]
pub proof fn pieces_rejoin(s: Seq<char>, c: char)
    ensures
        joined(pieces(s, Sep::Char(c)), seq![c]) == s,
        forall|i: int|
            0 <= i < pieces(s, Sep::Char(c)).len() ==> !(#[trigger] pieces(
                s,
                Sep::Char(c),
            )[i]).contains(c),
    decreases s.len(),
{
    let sep = Sep::Char(c);
    let p = pieces(s, sep);
    if s.len() > 0 {
        let init = s.drop_last();
        let head = pieces(init, sep);
        pieces_rejoin(init, c);
        pieces_nonempty(init, sep);
        if sep.splits(s.last()) {
            assert(p.drop_last() =~= head);
            assert(joined(p, seq![c]) =~= s);
        } else {
            let last = head.last().push(s.last());
            assert(p.drop_last() =~= head.drop_last());
            assert(!head[head.len() - 1].contains(c));
            assert forall|i: int| 0 <= i < p.len() implies !(#[trigger] p[i]).contains(c) by {
                if i < head.len() - 1 {
                    assert(p[i] == head[i]);
                } else if p[i].contains(c) {
                    let j = p[i].index_of(c);
                    assert(head.last()[j] == c);
                }
            }
            if head.len() == 1 {
                assert(joined(p, seq![c]) == init.push(s.last()));
            } else {
                let front = joined(head.drop_last(), seq![c]);
                assert(init == front + seq![c] + head.last());
                assert(joined(p, seq![c]) =~= front + seq![c] + head.last().push(s.last()));
                assert(joined(p, seq![c]) =~= init.push(s.last()));
            }
            assert(init.push(s.last()) =~= s);
        }
    } else {
        assert(joined(p, seq![c]) =~= s);
    }
}

/// Texts without the separator that are put together with it between them are
/// the pieces of the whole.
pub proof fn joined_splits(parts: Seq<Seq<char>>, c: char)
    requires
        parts.len() >= 1,
        forall|i: int| 0 <= i < parts.len() ==> !(#[trigger] parts[i]).contains(c),
    ensures
        pieces(joined(parts, seq![c]), Sep::Char(c)) == parts,
    decreases parts.len(),
{
    let sep = Sep::Char(c);
    let last = parts.last();
    assert(!parts[parts.len() - 1].contains(c));
    assert forall|i: int| 0 <= i < last.len() implies !sep.splits(#[trigger] last[i]) by {
        assert(last.contains(last[i]));
    }
    pieces_single(last, sep);
    if parts.len() == 1 {
        assert(seq![parts[0]] =~= parts);
    } else {
        let init = parts.drop_last();
        assert forall|i: int| 0 <= i < init.len() implies !(#[trigger] init[i]).contains(c) by {
            assert(init[i] == parts[i]);
        }
        joined_splits(init, c);
        pieces_concat(joined(init, seq![c]), c, last, sep);
        assert(init + seq![last] =~= parts);
    }
}

/// What is put together is each part in order, the separator between each two.
pub proof fn joined_grows(parts: Seq<Seq<char>>, x: Seq<char>, sep: Seq<char>)
    ensures
        joined(Seq::empty(), sep) == Seq::<char>::empty(),
        joined(seq![x], sep) == x,
        parts.len() > 0 ==> joined(parts.push(x), sep) == joined(parts, sep) + sep + x,
{
    assert(parts.push(x).drop_last() =~= parts);
}

/// A line is what stands before a line feed, less one carriage return; the rest
/// of the text has the other lines. A last line needs no line feed, and an empty
/// text has no lines.
#[verifier::rlimit(40)]
pub proof fn lines_one_by_one(l: Seq<char>, rest: Seq<char>)
    requires
        !l.contains('\n'),
    ensures
        text_lines(Seq::empty()).len() == 0,
        l.len() > 0 ==> text_lines(l) == seq![l],
        l.len() > 0 && l.last() == '\r' ==> text_lines(l + seq!['\n'] + rest) == seq![l.drop_last()]
            + text_lines(rest),
        l.len() == 0 || l.last() != '\r' ==> text_lines(l + seq!['\n'] + rest) == seq![l]
            + text_lines(rest),
{
    let sep = Sep::Char('\n');
    assert forall|i: int| 0 <= i < l.len() implies !sep.splits(#[trigger] l[i]) by {
        assert(l.contains(l[i]));
    }
    pieces_single(l, sep);
    pieces_concat(l, '\n', rest, sep);
    pieces_nonempty(rest, sep);
    let p = pieces(rest, sep);
    let whole = pieces(l + seq!['\n'] + rest, sep);
    assert(whole =~= seq![l] + p);
    assert(whole.last() == p.last());
    assert(text_lines(l + seq!['\n'] + rest) =~= seq![without_cr(l)] + text_lines(rest));
    if l.len() > 0 {
        assert(text_lines(l) =~= seq![l]);
    }
}

/// White space parts words, however much of it there is; a text without any is a
/// word, unless it is empty.
#[verifier::rlimit(40)]
pub proof fn words_one_by_one(a: Seq<char>, c: char, b: Seq<char>)
    ensures
        is_space(c) ==> words(a + seq![c] + b) == words(a) + words(b),
        a.len() > 0 && (forall|i: int| 0 <= i < a.len() ==> !is_space(#[trigger] a[i])) ==> words(a)
            == seq![a],
        words(Seq::empty()) == Seq::<Seq<char>>::empty(),
{
    let keep = |w: Seq<char>| w.len() > 0;
    reveal(Seq::filter);
    let none = Seq::<char>::empty();
    assert(pieces(none, Sep::Space) =~= seq![none]);
    assert(seq![none].drop_last() =~= Seq::<Seq<char>>::empty());
    assert(seq![none].filter(keep) =~= Seq::<Seq<char>>::empty()) by {
        reveal_with_fuel(Seq::filter, 2);
    }
    if is_space(c) {
        pieces_concat(a, c, b, Sep::Space);
        Seq::filter_distributes_over_add(pieces(a, Sep::Space), pieces(b, Sep::Space), keep);
    }
    if a.len() > 0 && (forall|i: int| 0 <= i < a.len() ==> !is_space(#[trigger] a[i])) {
        assert forall|i: int| 0 <= i < a.len() implies !Sep::Space.splits(#[trigger] a[i]) by {}
        pieces_single(a, Sep::Space);
        assert(seq![a].drop_last() =~= Seq::<Seq<char>>::empty());
        assert(seq![a].filter(keep) =~= seq![a]) by {
            reveal_with_fuel(Seq::filter, 2);
        }
    }
}

/// Where a text stands, it stands character by character: at the beginning where
/// the rest follows it, anywhere where something comes before and after.
#[verifier::rlimit(40)]
pub proof fn found_means_equal(s: Seq<char>, pat: Seq<char>, i: int)
    ensures
        stands_at(s, pat, i) <==> 0 <= i && i + pat.len() <= s.len() && forall|j: int|
            0 <= j < pat.len() ==> #[trigger] pat[j] == s[i + j],
        begins(s, pat) <==> exists|rest: Seq<char>| s == #[trigger] (pat + rest),
        holds_text(s, pat) <==> exists|a: Seq<char>, b: Seq<char>| s == #[trigger] (a + pat + b),
{
    if stands_at(s, pat, i) {
        let w = s.subrange(i, i + pat.len());
        assert forall|j: int| 0 <= j < pat.len() implies #[trigger] pat[j] == s[i + j] by {
            assert(w[j] == s[i + j]);
        }
    }
    if 0 <= i && i + pat.len() <= s.len() && forall|j: int|
        0 <= j < pat.len() ==> #[trigger] pat[j] == s[i + j] {
        assert(s.subrange(i, i + pat.len()) =~= pat);
    }
    if begins(s, pat) {
        assert(s =~= pat + s.skip(pat.len() as int));
    }
    if exists|rest: Seq<char>| s == #[trigger] (pat + rest) {
        assert(s.subrange(0, pat.len() as int) =~= pat);
    }
    if holds_text(s, pat) {
        let k = choose|k: int| stands_at(s, pat, k);
        assert(s =~= s.take(k) + pat + s.skip(k + pat.len()));
    }
    if exists|a: Seq<char>, b: Seq<char>| s == #[trigger] (a + pat + b) {
        let (a, b) = choose|a: Seq<char>, b: Seq<char>| s == #[trigger] (a + pat + b);
        assert(s.subrange(a.len() as int, a.len() as int + pat.len()) =~= pat);
        assert(stands_at(s, pat, a.len() as int));
    }
}

/// Trimming what is trimmed changes nothing.
pub proof fn trim_is_stable(s: Seq<char>)
    ensures
        trimmed(trimmed(s)) == trimmed(s),
{
    trimmed_is_the_middle(s);
}

/// Words hold no white space and are not empty.
#[verifier::rlimit(40)]
pub proof fn words_are_clean(s: Seq<char>)
    ensures
        forall|i: int|
            0 <= i < words(s).len() ==> {
                let w = #[trigger] words(s)[i];
                w.len() > 0 && forall|j: int| 0 <= j < w.len() ==> !is_space(#[trigger] w[j])
            },
{
    let keep = |w: Seq<char>| w.len() > 0;
    let p = pieces(s, Sep::Space);
    pieces_are_clean(s, Sep::Space);
    assert forall|i: int| 0 <= i < words(s).len() implies {
        let w = #[trigger] words(s)[i];
        w.len() > 0 && forall|j: int| 0 <= j < w.len() ==> !is_space(#[trigger] w[j])
    } by {
        let w = words(s)[i];
        p.lemma_filter_pred(keep, i);
        assert(p.filter(keep).contains(w));
        p.lemma_filter_contains_rev(keep, w);
        let k = p.index_of(w);
        assert(p[k] == w);
        assert forall|j: int| 0 <= j < w.len() implies !is_space(#[trigger] w[j]) by {
            assert(!Sep::Space.splits(p[k][j]));
        }
    }
}

/// No piece holds what separates.
pub proof fn pieces_are_clean(s: Seq<char>, sep: Sep)
    ensures
        forall|i: int, j: int|
            0 <= i < pieces(s, sep).len() && 0 <= j < pieces(s, sep)[i].len() ==> !sep.splits(
                #[trigger] pieces(s, sep)[i][j],
            ),
    decreases s.len(),
{
    if s.len() > 0 {
        let head = pieces(s.drop_last(), sep);
        pieces_are_clean(s.drop_last(), sep);
        pieces_nonempty(s.drop_last(), sep);
        let p = pieces(s, sep);
        assert forall|i: int, j: int| 0 <= i < p.len() && 0 <= j < p[i].len() implies !sep.splits(
            #[trigger] p[i][j],
        ) by {
            if i < head.len() && j < head[i].len() {
                assert(p[i][j] == head[i][j]);
            }
        }
    }
}

/// Where a text that is not blank starts once it is trimmed.
pub proof fn first_solid(s: Seq<char>) -> (n: int)
    ensures
        trimmed(s).len() > 0 ==> {
            &&& 0 <= n < s.len()
            &&& s[n] == trimmed(s)[0]
            &&& !is_space(s[n])
            &&& forall|j: int| 0 <= j < n ==> is_space(#[trigger] s[j])
        },
{
    let a = trimmed_start(s, Sep::Space);
    let t = trimmed(s);
    trimming_keeps_the_middle(s, Sep::Space);
    trimming_keeps_the_middle(a, Sep::Space);
    let n = s.len() - a.len();
    if t.len() > 0 {
        assert(t[0] == a[0]);
        assert(a[0] == s[n]);
        assert(!Sep::Space.splits(a[0]));
        assert forall|j: int| 0 <= j < n implies is_space(#[trigger] s[j]) by {
            assert(Sep::Space.splits(s[j]));
        }
    }
    n
}

} // verus!
