//! Text as sequences of characters: the string operations that paths, headers and markup need.
use vstd::prelude::*;
use vstd::string::*;
use vstd::utf8::*;

verus! {

/// `String::push` appends one character to the end of the string.
pub assume_specification[ String::push ](s: &mut String, c: char)
    ensures
        final(s)@ == old(s)@.push(c),
;

/// The pieces of `s` between occurrences of `sep`; a text without `sep` is its own only piece.
pub open spec fn pieces(s: Seq<char>, sep: char) -> Seq<Seq<char>>
    decreases s.len(),
{
    if s.len() == 0 {
        seq![Seq::<char>::empty()]
    } else {
        let front = pieces(s.drop_last(), sep);
        if s.last() == sep {
            front.push(Seq::<char>::empty())
        } else {
            front.drop_last().push(front.last().push(s.last()))
        }
    }
}

/// The pieces one after another, with `sep` between neighbours.
pub open spec fn joined(parts: Seq<Seq<char>>, sep: char) -> Seq<char>
    decreases parts.len(),
{
    if parts.len() == 0 {
        Seq::empty()
    } else if parts.len() == 1 {
        parts[0]
    } else {
        joined(parts.drop_last(), sep).push(sep) + parts.last()
    }
}

/// Whether `s` begins with `prefix`.
pub open spec fn has_prefix(s: Seq<char>, prefix: Seq<char>) -> bool {
    s.len() >= prefix.len() && s.take(prefix.len() as int) == prefix
}

/// Whether `s` ends with the character `c`.
pub open spec fn has_last(s: Seq<char>, c: char) -> bool {
    s.len() > 0 && s.last() == c
}

/// What follows `prefix` in `s`, if `s` begins with it.
pub open spec fn after_prefix(s: Seq<char>, prefix: Seq<char>) -> Option<Seq<char>> {
    if has_prefix(s, prefix) {
        Some(s.skip(prefix.len() as int))
    } else {
        None
    }
}

/// `s` without the characters `c` at its start.
pub open spec fn left_trimmed(s: Seq<char>, c: char) -> Seq<char>
    decreases s.len(),
{
    if s.len() > 0 && s[0] == c {
        left_trimmed(s.drop_first(), c)
    } else {
        s
    }
}

/// `s` without the characters `c` at its end.
pub open spec fn right_trimmed(s: Seq<char>, c: char) -> Seq<char>
    decreases s.len(),
{
    if s.len() > 0 && s.last() == c {
        right_trimmed(s.drop_last(), c)
    } else {
        s
    }
}

/// `s` without the characters `c` at its start and at its end.
pub open spec fn trimmed(s: Seq<char>, c: char) -> Seq<char> {
    right_trimmed(left_trimmed(s, c), c)
}

/// Whether `pattern` occurs somewhere in `s`.
pub open spec fn occurs_in(pattern: Seq<char>, s: Seq<char>) -> bool {
    exists|i: int|
        0 <= i && i + pattern.len() <= s.len() && #[trigger] s.subrange(i, i + pattern.len())
            == pattern
}

/// What stands before and after the first `c` of `s`.
pub open spec fn cut(s: Seq<char>, c: char) -> Option<(Seq<char>, Seq<char>)> {
    if s.contains(c) {
        let i = s.index_of_first(c)->0;
        Some((s.take(i), s.skip(i + 1)))
    } else {
        None
    }
}

/// `s` with each occurrence of `pattern`, found from left to right, replaced by `by`.
pub open spec fn replaced(s: Seq<char>, pattern: Seq<char>, by: Seq<char>) -> Seq<char>
    decreases s.len(),
{
    if pattern.len() == 0 || s.len() < pattern.len() {
        s
    } else if has_prefix(s, pattern) {
        by + replaced(s.skip(pattern.len() as int), pattern, by)
    } else {
        seq![s[0]] + replaced(s.drop_first(), pattern, by)
    }
}

/// The digit character of a number below ten.
pub open spec fn digit(n: nat) -> char {
    ('0' as u32 + n) as char
}

/// A number in decimal, without leading zeros.
pub open spec fn decimal_text(n: nat) -> Seq<char>
    decreases n,
{
    if n < 10 {
        seq![digit(n)]
    } else {
        decimal_text(n / 10).push(digit(n % 10))
    }
}

/// The texts of a list of strings.
pub open spec fn texts(v: Seq<String>) -> Seq<Seq<char>> {
    v.map_values(|s: String| s@)
}

/// The characters of a string, as a vector.
pub fn chars_of(s: &str) -> (r: Vec<char>)
    ensures
        r@ == s@,
{
    let mut out: Vec<char> = Vec::new();
    for c in it: s.chars()
        invariant
            it.seq() == s@,
            out@ == s@.take(it.index() as int),
    {
        out.push(c);
        proof {
            assert(s@.take(it.index() as int + 1) =~= s@.take(it.index() as int).push(c));
        }
    }
    assert(s@.take(s@.len() as int) =~= s@);
    out
}

/// The string of the characters of `v` from `from` up to, not including, `to`.
pub fn string_of(v: &Vec<char>, from: usize, to: usize) -> (r: String)
    requires
        from <= to <= v.len(),
    ensures
        r@ == v@.subrange(from as int, to as int),
{
    let mut out = String::new();
    let mut i: usize = from;
    while i < to
        invariant
            from <= i <= to <= v.len(),
            out@ == v@.subrange(from as int, i as int),
        decreases to - i,
    {
        out.push(v[i]);
        i = i + 1;
        assert(v@.subrange(from as int, i as int) =~= v@.subrange(from as int, i as int - 1).push(
            v@[i as int - 1],
        ));
    }
    out
}

/// Whether two strings hold the same text.
pub fn same(a: &str, b: &str) -> (r: bool)
    ensures
        r == (a@ == b@),
{
    let x = a.as_bytes();
    let y = b.as_bytes();
    proof {
        encode_utf8_decode_utf8(a@);
        encode_utf8_decode_utf8(b@);
    }
    if x.len() != y.len() {
        return false;
    }
    let mut i: usize = 0;
    while i < x.len()
        invariant
            i <= x.len(),
            x@.len() == y@.len(),
            x@ == encode_utf8(a@),
            y@ == encode_utf8(b@),
            forall|j: int| 0 <= j < i ==> x@[j] == y@[j],
        decreases x.len() - i,
    {
        if x[i] != y[i] {
            return false;
        }
        i = i + 1;
    }
    assert(x@ =~= y@);
    true
}

/// A text always has at least one piece.
pub proof fn lemma_pieces_nonempty(s: Seq<char>, sep: char)
    ensures
        pieces(s, sep).len() > 0,
    decreases s.len(),
{
    if s.len() > 0 {
        lemma_pieces_nonempty(s.drop_last(), sep);
    }
}

/// No piece holds the separator.
pub proof fn lemma_pieces_free(s: Seq<char>, sep: char)
    ensures
        forall|i: int| 0 <= i < pieces(s, sep).len() ==> !(#[trigger] pieces(s, sep)[i]).contains(sep),
    decreases s.len(),
{
    lemma_pieces_nonempty(s, sep);
    if s.len() > 0 {
        let front = pieces(s.drop_last(), sep);
        lemma_pieces_nonempty(s.drop_last(), sep);
        lemma_pieces_free(s.drop_last(), sep);
        assert forall|i: int| 0 <= i < pieces(s, sep).len() implies !(#[trigger] pieces(
            s,
            sep,
        )[i]).contains(sep) by {
            if s.last() != sep && i == front.len() - 1 {
                let piece = front.last().push(s.last());
                assert(pieces(s, sep)[i] == piece);
                assert(!front[front.len() - 1].contains(sep));
                if piece.contains(sep) {
                    let j = choose|j: int| 0 <= j < piece.len() && piece[j] == sep;
                    assert(front.last()[j] == sep);
                }
            } else if i < front.len() {
                assert(pieces(s, sep)[i] == front[i]);
            }
        }
    }
}

/// A text without the separator after another one extends its last piece.
pub proof fn lemma_pieces_extended(a: Seq<char>, b: Seq<char>, sep: char)
    requires
        !b.contains(sep),
    ensures
        pieces(a + b, sep) == pieces(a, sep).drop_last().push(pieces(a, sep).last() + b),
    decreases b.len(),
{
    lemma_pieces_nonempty(a, sep);
    let p = pieces(a, sep);
    if b.len() == 0 {
        assert(a + b =~= a);
        assert(p.last() + b =~= p.last());
        assert(p.drop_last().push(p.last()) =~= p);
    } else {
        let front = b.drop_last();
        assert forall|i: int| 0 <= i < front.len() implies front[i] != sep by {
            assert(b[i] == front[i]);
            assert(b.contains(b[i]));
        }
        assert(b.contains(b.last()));
        lemma_pieces_extended(a, front, sep);
        assert((a + b).drop_last() =~= a + front);
        assert((p.last() + front).push(b.last()) =~= p.last() + b);
        let q = p.drop_last().push(p.last() + front);
        assert(q.drop_last() =~= p.drop_last());
    }
}

/// Texts without the separator are the pieces of what joining them gives.
pub proof fn lemma_pieces_of_joined(parts: Seq<Seq<char>>, sep: char)
    requires
        parts.len() > 0,
        forall|i: int| 0 <= i < parts.len() ==> !(#[trigger] parts[i]).contains(sep),
    ensures
        pieces(joined(parts, sep), sep) == parts,
    decreases parts.len(),
{
    let empty = Seq::<char>::empty();
    if parts.len() == 1 {
        assert(empty + parts[0] =~= parts[0]);
        lemma_pieces_extended(empty, parts[0], sep);
        assert(pieces(parts[0], sep) =~= parts);
    } else {
        let front = parts.drop_last();
        assert forall|i: int| 0 <= i < front.len() implies !(#[trigger] front[i]).contains(sep) by {
            assert(front[i] == parts[i]);
        }
        lemma_pieces_of_joined(front, sep);
        let head = joined(front, sep).push(sep);
        assert(head.drop_last() =~= joined(front, sep));
        assert(pieces(head, sep) == front.push(empty));
        assert(!parts[parts.len() - 1].contains(sep));
        lemma_pieces_extended(head, parts.last(), sep);
        assert(front.push(empty).drop_last() =~= front);
        assert(empty + parts.last() =~= parts.last());
        assert(front.push(parts.last()) =~= parts);
    }
}

/// Where a separator, or nothing, follows a text without it, that text is the first piece.
pub proof fn lemma_first_piece(a: Seq<char>, rest: Seq<char>, sep: char)
    requires
        !a.contains(sep),
        rest.len() == 0 || rest[0] == sep,
    ensures
        pieces(a + rest, sep)[0] == a,
        rest.len() > 0 ==> pieces(a + rest, sep).len() > 1,
    decreases rest.len(),
{
    if rest.len() == 0 {
        let empty = Seq::<char>::empty();
        assert(a + rest =~= a);
        assert(empty + a =~= a);
        lemma_pieces_extended(empty, a, sep);
    } else {
        lemma_first_piece(a, rest.drop_last(), sep);
        lemma_pieces_nonempty(a + rest.drop_last(), sep);
        assert((a + rest).drop_last() =~= a + rest.drop_last());
        assert((a + rest).last() == rest.last());
    }
}

/// The first occurrence of a character after a text without it is where that text ends.
pub proof fn lemma_cut(a: Seq<char>, c: char, rest: Seq<char>)
    requires
        !a.contains(c),
    ensures
        cut(a + seq![c] + rest, c) == Some((a, rest)),
{
    let s = a + seq![c] + rest;
    assert(s[a.len() as int] == c);
    assert(s.contains(c));
    s.index_of_first_ensures(c);
    let i = s.index_of_first(c)->0;
    if i < a.len() {
        assert(a[i] == c);
    }
    assert(i == a.len());
    assert(s.take(i) =~= a);
    assert(s.skip(i + 1) =~= rest);
}

/// The pieces of what is left when the first `n` characters go: the later ones stay as they are,
/// and so does the first one where a separator went last.
pub proof fn lemma_pieces_skip(s: Seq<char>, n: int, sep: char)
    requires
        0 <= n <= s.len(),
    ensures
        pieces(s.skip(n), sep).len() + pieces(s.take(n), sep).len() == pieces(s, sep).len() + 1,
        forall|j: int|
            1 <= j < pieces(s.skip(n), sep).len() ==> #[trigger] pieces(s.skip(n), sep)[j] == pieces(
                s,
                sep,
            )[j + pieces(s.take(n), sep).len() - 1],
        n == 0 || s[n - 1] == sep ==> pieces(s.skip(n), sep)[0] == pieces(s, sep)[pieces(
            s.take(n),
            sep,
        ).len() - 1],
    decreases s.len(),
{
    let rest = s.skip(n);
    let gone = pieces(s.take(n), sep);
    lemma_pieces_nonempty(s, sep);
    lemma_pieces_nonempty(rest, sep);
    lemma_pieces_nonempty(s.take(n), sep);
    if n == s.len() {
        assert(s.take(n) =~= s);
        assert(rest =~= Seq::<char>::empty());
    } else {
        let front = s.drop_last();
        lemma_pieces_nonempty(front, sep);
        lemma_pieces_nonempty(front.skip(n), sep);
        lemma_pieces_skip(front, n, sep);
        assert(front.take(n) =~= s.take(n));
        assert(rest.drop_last() =~= front.skip(n));
        assert(rest.last() == s.last());
        assert(n > 0 ==> front[n - 1] == s[n - 1]);
        let p = pieces(front, sep);
        let q = pieces(front.skip(n), sep);
        let m = q.len() as int;
        assert(m > 1 ==> q[m - 1] == p[m - 1 + gone.len() - 1]);
        assert forall|j: int| 1 <= j < pieces(rest, sep).len() implies #[trigger] pieces(rest, sep)[j]
            == pieces(s, sep)[j + gone.len() - 1] by {
            if j < m {
                assert(q[j] == p[j + gone.len() - 1]);
            }
        }
    }
}

/// Splits a string at each `sep`.
pub fn split(s: &str, sep: char) -> (r: Vec<String>)
    ensures
        texts(r@) == pieces(s@, sep),
{
    let mut done: Vec<String> = Vec::new();
    let mut current = String::new();
    assert(pieces(s@.take(0), sep) =~= texts(done@).push(current@));
    for c in it: s.chars()
        invariant
            it.seq() == s@,
            texts(done@).push(current@) == pieces(s@.take(it.index() as int), sep),
    {
        let ghost i = it.index() as int;
        proof {
            assert(s@.take(i + 1).drop_last() =~= s@.take(i));
        }
        if c == sep {
            let ghost before = texts(done@);
            let ghost piece = current@;
            done.push(current);
            current = String::new();
            proof {
                assert(texts(done@) =~= before.push(piece));
            }
        } else {
            let ghost piece = current@;
            current.push(c);
            proof {
                assert(texts(done@).push(piece).drop_last() =~= texts(done@));
            }
        }
    }
    proof {
        assert(s@.take(s@.len() as int) =~= s@);
    }
    let ghost before = texts(done@);
    let ghost piece = current@;
    done.push(current);
    assert(texts(done@) =~= before.push(piece));
    done
}

/// Joins strings, with `sep` between neighbours.
pub fn join(parts: &Vec<String>, sep: char) -> (r: String)
    ensures
        r@ == joined(texts(parts@), sep),
{
    let mut out = String::new();
    let mut i: usize = 0;
    while i < parts.len()
        invariant
            i <= parts.len(),
            out@ == joined(texts(parts@).take(i as int), sep),
        decreases parts.len() - i,
    {
        if i > 0 {
            out.push(sep);
        }
        out.append(parts[i].as_str());
        i = i + 1;
        proof {
            let now = texts(parts@).take(i as int);
            assert(now.drop_last() =~= texts(parts@).take(i as int - 1));
            assert(now.last() == parts@[i as int - 1]@);
            if i == 1 {
                assert(out@ =~= now[0]);
            }
        }
    }
    assert(texts(parts@).take(i as int) =~= texts(parts@));
    out
}

/// Whether the characters of `v` from `at` begin with those of `p`.
fn matches_at(v: &Vec<char>, at: usize, p: &Vec<char>) -> (r: bool)
    requires
        at <= v.len(),
    ensures
        r == has_prefix(v@.skip(at as int), p@),
{
    if v.len() - at < p.len() {
        return false;
    }
    let mut i: usize = 0;
    while i < p.len()
        invariant
            i <= p.len(),
            at + p.len() <= v.len(),
            forall|j: int| 0 <= j < i ==> v@[at + j] == p@[j],
        decreases p.len() - i,
    {
        if v[at + i] != p[i] {
            proof {
                assert(v@.skip(at as int).take(p@.len() as int)[i as int] == v@[at + i]);
            }
            return false;
        }
        i = i + 1;
    }
    assert(v@.skip(at as int).take(p@.len() as int) =~= p@);
    true
}

/// Whether a string begins with a prefix.
pub fn starts_with(s: &str, prefix: &str) -> (r: bool)
    ensures
        r == has_prefix(s@, prefix@),
{
    let v = chars_of(s);
    let p = chars_of(prefix);
    assert(v@.skip(0) =~= v@);
    matches_at(&v, 0, &p)
}

/// What follows a prefix of a string.
pub fn strip_prefix(s: &str, prefix: &str) -> (r: Option<String>)
    ensures
        r is Some <==> has_prefix(s@, prefix@),
        r is Some ==> r->0@ == s@.skip(prefix@.len() as int),
{
    let v = chars_of(s);
    let p = chars_of(prefix);
    assert(v@.skip(0) =~= v@);
    if matches_at(&v, 0, &p) {
        Some(string_of(&v, p.len(), v.len()))
    } else {
        None
    }
}

/// Whether a string ends with a character.
pub fn ends_with(s: &str, c: char) -> (r: bool)
    ensures
        r == has_last(s@, c),
{
    let v = chars_of(s);
    v.len() > 0 && v[v.len() - 1] == c
}

/// A string without the characters `c` at its start.
pub fn trim_start(s: &str, c: char) -> (r: String)
    ensures
        r@ == left_trimmed(s@, c),
{
    let v = chars_of(s);
    let mut i: usize = 0;
    assert(v@.skip(0) =~= v@);
    while i < v.len() && v[i] == c
        invariant
            i <= v.len(),
            v@ == s@,
            left_trimmed(s@, c) == left_trimmed(v@.skip(i as int), c),
        decreases v.len() - i,
    {
        assert(v@.skip(i as int).drop_first() =~= v@.skip(i as int + 1));
        i = i + 1;
    }
    assert(v@.skip(i as int) =~= v@.subrange(i as int, v@.len() as int));
    string_of(&v, i, v.len())
}

/// A string without the characters `c` at its start and at its end.
pub fn trim_matches(s: &str, c: char) -> (r: String)
    ensures
        r@ == trimmed(s@, c),
{
    let front = trim_start(s, c);
    let v = chars_of(front.as_str());
    let mut n: usize = v.len();
    assert(v@.take(n as int) =~= v@);
    while n > 0 && v[n - 1] == c
        invariant
            n <= v.len(),
            right_trimmed(v@, c) == right_trimmed(v@.take(n as int), c),
        decreases n,
    {
        assert(v@.take(n as int).drop_last() =~= v@.take(n as int - 1));
        n = n - 1;
    }
    assert(v@.take(n as int) =~= v@.subrange(0, n as int));
    string_of(&v, 0, n)
}

/// Whether a string contains a pattern.
pub fn contains(s: &str, pattern: &str) -> (r: bool)
    ensures
        r == occurs_in(pattern@, s@),
{
    let v = chars_of(s);
    let p = chars_of(pattern);
    let mut i: usize = 0;
    while i < v.len() && !matches_at(&v, i, &p)
        invariant
            i <= v.len(),
            v@ == s@,
            p@ == pattern@,
            forall|j: int| 0 <= j < i ==> !has_prefix(#[trigger] s@.skip(j), pattern@),
        decreases v.len() - i,
    {
        i = i + 1;
    }
    let found = matches_at(&v, i, &p);
    proof {
        if found {
            assert(s@.subrange(i as int, i + pattern@.len()) =~= s@.skip(i as int).take(
                pattern@.len() as int,
            ));
        } else {
            assert forall|j: int| 0 <= j && j + pattern@.len() <= s@.len() implies
                #[trigger] s@.subrange(j, j + pattern@.len()) != pattern@ by {
                assert(s@.subrange(j, j + pattern@.len()) =~= s@.skip(j).take(
                    pattern@.len() as int,
                ));
                assert(!has_prefix(s@.skip(j), pattern@));
            }
        }
    }
    found
}

/// What stands before and after the first `c` of a string.
pub fn split_once(s: &str, c: char) -> (r: Option<(String, String)>)
    ensures
        match r {
            Some((a, b)) => cut(s@, c) == Some((a@, b@)),
            None => cut(s@, c) is None,
        },
{
    let v = chars_of(s);
    let mut i: usize = 0;
    while i < v.len()
        invariant
            i <= v.len(),
            v@ == s@,
            forall|j: int| 0 <= j < i ==> s@[j] != c,
        decreases v.len() - i,
    {
        if v[i] == c {
            proof {
                assert(s@.contains(c));
                s@.index_of_first_ensures(c);
                assert(s@.index_of_first(c) == Some(i as int));
                assert(s@.take(i as int) =~= s@.subrange(0, i as int));
                assert(s@.skip(i as int + 1) =~= s@.subrange(i as int + 1, s@.len() as int));
            }
            return Some((string_of(&v, 0, i), string_of(&v, i + 1, v.len())));
        }
        i = i + 1;
    }
    assert(!s@.contains(c));
    None
}

/// A string with each occurrence of a pattern replaced.
pub fn replace(s: &str, pattern: &str, by: &str) -> (r: String)
    requires
        pattern@.len() > 0,
    ensures
        r@ == replaced(s@, pattern@, by@),
{
    let v = chars_of(s);
    let p = chars_of(pattern);
    let mut out = String::new();
    let mut i: usize = 0;
    assert(v@.skip(0) =~= v@);
    while i < v.len()
        invariant
            i <= v.len(),
            v@ == s@,
            p@ == pattern@,
            p@.len() > 0,
            replaced(s@, pattern@, by@) == out@ + replaced(s@.skip(i as int), pattern@, by@),
        decreases v.len() - i,
    {
        let ghost before = out@;
        let ghost rest = s@.skip(i as int);
        if matches_at(&v, i, &p) {
            out.append(by);
            i = i + p.len();
            proof {
                assert(rest.skip(pattern@.len() as int) =~= s@.skip(i as int));
                assert(out@ + replaced(s@.skip(i as int), pattern@, by@) =~= before + replaced(
                    rest,
                    pattern@,
                    by@,
                ));
            }
        } else {
            out.push(v[i]);
            i = i + 1;
            proof {
                assert(rest.drop_first() =~= s@.skip(i as int));
                if rest.len() < pattern@.len() {
                    assert(replaced(rest.drop_first(), pattern@, by@) == rest.drop_first());
                    assert(rest =~= seq![rest[0]] + rest.drop_first());
                }
                assert(out@ + replaced(s@.skip(i as int), pattern@, by@) =~= before + replaced(
                    rest,
                    pattern@,
                    by@,
                ));
            }
        }
    }
    proof {
        assert(s@.skip(i as int) =~= Seq::<char>::empty());
        assert(out@ + Seq::<char>::empty() =~= out@);
    }
    out
}

/// The digit character of a number below ten.
fn digit_char(d: u64) -> (r: char)
    requires
        d < 10,
    ensures
        r == digit(d as nat),
{
    match d {
        0 => '0',
        1 => '1',
        2 => '2',
        3 => '3',
        4 => '4',
        5 => '5',
        6 => '6',
        7 => '7',
        8 => '8',
        _ => '9',
    }
}

/// A number in decimal.
pub fn decimal(n: u64) -> (r: String)
    ensures
        r@ == decimal_text(n as nat),
    decreases n,
{
    let mut out = if n < 10 {
        String::new()
    } else {
        decimal(n / 10)
    };
    out.push(digit_char(n % 10));
    assert(n < 10 ==> out@ =~= seq![digit(n as nat)]);
    out
}

} // verus!
