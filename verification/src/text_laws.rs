//! What holds of the operations on text.
use crate::outside::escaped;
use crate::request::{all_digits, bare, digits_value, number_value};
use crate::text::{
    after_prefix, cut, decimal_text, has_last, has_prefix, joined, left_trimmed, lemma_cut,
    lemma_pieces_extended, lemma_pieces_free, lemma_pieces_nonempty, lemma_pieces_of_joined,
    occurs_in, pieces, replaced, right_trimmed, trimmed,
};
use vstd::prelude::*;

verus! {

/// A text begins with another one exactly if something follows that one to make the whole, and that
/// is what comes after it.
pub proof fn law_prefix_and_rest(s: Seq<char>, prefix: Seq<char>, rest: Seq<char>)
    ensures
        has_prefix(prefix + rest, prefix),
        after_prefix(prefix + rest, prefix) == Some(rest),
        has_prefix(s, prefix) <==> exists|r: Seq<char>| s == #[trigger] (prefix + r),
        has_prefix(s, prefix) ==> after_prefix(s, prefix) is Some && s == prefix + after_prefix(
            s,
            prefix,
        )->0,
        !has_prefix(s, prefix) ==> after_prefix(s, prefix) is None,
{
    assert((prefix + rest).take(prefix.len() as int) =~= prefix);
    assert((prefix + rest).skip(prefix.len() as int) =~= rest);
    if has_prefix(s, prefix) {
        let r = s.skip(prefix.len() as int);
        assert(s =~= prefix + r);
    }
    if exists|r: Seq<char>| s == #[trigger] (prefix + r) {
        let r = choose|r: Seq<char>| s == #[trigger] (prefix + r);
        assert(s.take(prefix.len() as int) =~= prefix);
    }
}

/// A text ends with a character exactly if that character was put last.
pub proof fn law_last_character(s: Seq<char>, c: char, d: char)
    ensures
        has_last(s.push(c), d) == (c == d),
        !has_last(Seq::empty(), d),
{
}

/// Splitting what was put together with a separator gives the parts of the one side and then those
/// of the other.
pub proof fn law_split_at_separator(a: Seq<char>, b: Seq<char>, sep: char)
    ensures
        pieces(a.push(sep) + b, sep) == pieces(a, sep) + pieces(b, sep),
        !a.contains(sep) ==> pieces(a, sep) == seq![a],
    decreases b.len(),
{
    let empty = Seq::<char>::empty();
    lemma_pieces_nonempty(a, sep);
    lemma_pieces_nonempty(b, sep);
    if !a.contains(sep) {
        lemma_pieces_extended(empty, a, sep);
        assert(empty + a =~= a);
        assert(pieces(a, sep) =~= seq![a]);
    }
    if b.len() == 0 {
        assert(a.push(sep) + b =~= a.push(sep));
        assert(a.push(sep).drop_last() =~= a);
        assert(pieces(b, sep) =~= seq![empty]);
        assert(pieces(a, sep).push(empty) =~= pieces(a, sep) + pieces(b, sep));
    } else {
        let front = b.drop_last();
        law_split_at_separator(a, front, sep);
        lemma_pieces_nonempty(front, sep);
        let whole = a.push(sep) + b;
        assert(whole.drop_last() =~= a.push(sep) + front);
        assert(whole.last() == b.last());
        let p = pieces(a, sep);
        let q = pieces(front, sep);
        assert((p + q).last() == q.last());
        assert((p + q).drop_last() =~= p + q.drop_last());
        assert(pieces(whole, sep) =~= p + pieces(b, sep));
    }
}

/// Joining the pieces of a text gives the text, and texts without the separator are the pieces of
/// what joining them gives.
pub proof fn law_join_undoes_split(s: Seq<char>, parts: Seq<Seq<char>>, sep: char)
    ensures
        joined(pieces(s, sep), sep) == s,
        parts.len() > 0 && (forall|i: int|
            0 <= i < parts.len() ==> !(#[trigger] parts[i]).contains(sep)) ==> pieces(
            joined(parts, sep),
            sep,
        ) == parts,
    decreases s.len(),
{
    if parts.len() > 0 && (forall|i: int|
        0 <= i < parts.len() ==> !(#[trigger] parts[i]).contains(sep)) {
        lemma_pieces_of_joined(parts, sep);
    }
    lemma_pieces_nonempty(s, sep);
    let p = pieces(s, sep);
    if s.len() == 0 {
        assert(p[0] =~= s);
    } else {
        let front = s.drop_last();
        let q = pieces(front, sep);
        lemma_pieces_nonempty(front, sep);
        law_join_undoes_split(front, parts, sep);
        assert(front.push(s.last()) =~= s);
        if s.last() == sep {
            assert(p.drop_last() =~= q);
            assert(joined(q, sep).push(sep) + Seq::<char>::empty() =~= s);
        } else {
            assert(p.drop_last() =~= q.drop_last());
            if q.len() == 1 {
                assert(p[0] =~= s);
            } else {
                assert(joined(q.drop_last(), sep).push(sep) + q.last().push(s.last()) =~= (joined(
                    q.drop_last(),
                    sep,
                ).push(sep) + q.last()).push(s.last()));
            }
        }
    }
}

/// A list of texts that is continued by one text is joined to the list joined, the separator and that
/// text.
pub proof fn law_join_continues(parts: Seq<Seq<char>>, next: Seq<char>, sep: char)
    ensures
        joined(Seq::empty(), sep) == Seq::<char>::empty(),
        joined(seq![next], sep) == next,
        parts.len() > 0 ==> joined(parts.push(next), sep) == joined(parts, sep).push(sep) + next,
{
    assert(parts.push(next).drop_last() =~= parts);
}

/// No piece holds the separator, and there is at least one piece.
pub proof fn law_pieces_hold_no_separator(s: Seq<char>, sep: char)
    ensures
        pieces(s, sep).len() > 0,
        forall|i: int| 0 <= i < pieces(s, sep).len() ==> !(#[trigger] pieces(s, sep)[i]).contains(sep),
{
    lemma_pieces_nonempty(s, sep);
    lemma_pieces_free(s, sep);
}

/// A character that is not the one that is trimmed stays at each end, with all between; the others go.
pub proof fn law_trimming(s: Seq<char>, c: char)
    ensures
        s.len() > 0 && s[0] != c && s.last() != c ==> trimmed(s, c) == s,
        trimmed(seq![c] + s, c) == trimmed(s, c),
        trimmed(s.push(c), c) == trimmed(s, c),
        trimmed(s, c).len() > 0 ==> trimmed(s, c)[0] != c && trimmed(s, c).last() != c,
        left_trimmed(seq![c] + s, c) == left_trimmed(s, c),
        s.len() > 0 && s[0] != c ==> left_trimmed(s, c) == s,
{
    assert((seq![c] + s).drop_first() =~= s);
    lemma_left_push(s, c);
    lemma_left_end(s, c);
    lemma_right_start(left_trimmed(s, c), c);
    lemma_right_end(left_trimmed(s, c), c);
}

proof fn lemma_left_push(s: Seq<char>, c: char)
    ensures
        right_trimmed(left_trimmed(s.push(c), c), c) == right_trimmed(left_trimmed(s, c), c),
    decreases s.len(),
{
    if s.len() == 0 {
        assert(s.push(c).drop_first() =~= s);
    } else if s[0] == c {
        lemma_left_push(s.drop_first(), c);
        assert(s.push(c).drop_first() =~= s.drop_first().push(c));
    } else {
        assert(s.push(c).drop_last() =~= s);
    }
}

proof fn lemma_left_end(s: Seq<char>, c: char)
    ensures
        left_trimmed(s, c).len() > 0 ==> left_trimmed(s, c)[0] != c,
    decreases s.len(),
{
    if s.len() > 0 && s[0] == c {
        lemma_left_end(s.drop_first(), c);
    }
}

proof fn lemma_right_end(s: Seq<char>, c: char)
    ensures
        right_trimmed(s, c).len() > 0 ==> right_trimmed(s, c).last() != c,
    decreases s.len(),
{
    if s.len() > 0 && s.last() == c {
        lemma_right_end(s.drop_last(), c);
    }
}

proof fn lemma_right_start(s: Seq<char>, c: char)
    ensures
        right_trimmed(s, c).len() > 0 ==> right_trimmed(s, c)[0] == s[0],
    decreases s.len(),
{
    if s.len() > 0 && s.last() == c {
        lemma_right_start(s.drop_last(), c);
    }
}

/// A text occurs in another one exactly if that one is made of something, the text, and something.
pub proof fn law_occurrence(pattern: Seq<char>, s: Seq<char>, before: Seq<char>, after: Seq<char>)
    ensures
        occurs_in(pattern, before + pattern + after),
        occurs_in(pattern, s) ==> exists|a: Seq<char>, b: Seq<char>|
            s == #[trigger] (a + pattern + b),
{
    let whole = before + pattern + after;
    let i = before.len() as int;
    assert(whole.subrange(i, i + pattern.len()) =~= pattern);
    if occurs_in(pattern, s) {
        let i = choose|i: int|
            0 <= i && i + pattern.len() <= s.len() && #[trigger] s.subrange(i, i + pattern.len())
                == pattern;
        let a = s.take(i);
        let b = s.skip(i + pattern.len());
        assert(s =~= a + pattern + b);
    }
}

/// Cutting at a character gives what stands before its first occurrence and what stands after that;
/// there is nothing to cut where it does not occur.
pub proof fn law_cut_at_first(a: Seq<char>, c: char, rest: Seq<char>)
    requires
        !a.contains(c),
    ensures
        cut(a + seq![c] + rest, c) == Some((a, rest)),
        cut(a, c) is None,
{
    lemma_cut(a, c, rest);
}

/// Text in which a pattern begins nowhere stays as it is when the pattern is replaced.
proof fn lemma_replaced_stays(x: Seq<char>, rest: Seq<char>, pattern: Seq<char>, by: Seq<char>)
    requires
        pattern.len() > 0,
        forall|i: int|
            0 <= i < x.len() && i + pattern.len() <= (x + rest).len() ==> #[trigger] (x
                + rest).subrange(i, i + pattern.len()) != pattern,
    ensures
        replaced(x + rest, pattern, by) == x + replaced(rest, pattern, by),
    decreases x.len(),
{
    let s = x + rest;
    if x.len() == 0 {
        assert(s =~= rest);
        assert(x + replaced(rest, pattern, by) =~= replaced(rest, pattern, by));
    } else if s.len() < pattern.len() {
    } else {
        assert(s.subrange(0, pattern.len() as int) =~= s.take(pattern.len() as int));
        assert(s.subrange(0int, 0int + pattern.len()) != pattern);
        let y = x.drop_first();
        assert(s.drop_first() =~= y + rest);
        assert forall|i: int| 0 <= i < y.len() && i + pattern.len() <= (y + rest).len() implies
            #[trigger] (y + rest).subrange(i, i + pattern.len()) != pattern by {
            assert((y + rest).subrange(i, i + pattern.len()) =~= s.subrange(
                i + 1,
                i + 1 + pattern.len(),
            ));
        }
        lemma_replaced_stays(y, rest, pattern, by);
        assert(seq![s[0]] + (y + replaced(rest, pattern, by)) =~= x + replaced(rest, pattern, by));
    }
}

/// Replacing takes the first place where a pattern begins, puts the other text there, and goes on
/// behind it; where it begins nowhere, nothing changes.
pub proof fn law_replacing(x: Seq<char>, rest: Seq<char>, pattern: Seq<char>, by: Seq<char>)
    requires
        pattern.len() > 0,
        forall|i: int|
            0 <= i < x.len() && i + pattern.len() <= (x + pattern + rest).len() ==> #[trigger] (x
                + pattern + rest).subrange(i, i + pattern.len()) != pattern,
    ensures
        replaced(x + pattern + rest, pattern, by) == x + by + replaced(rest, pattern, by),
        !occurs_in(pattern, rest) ==> replaced(rest, pattern, by) == rest,
{
    assert(x + pattern + rest =~= x + (pattern + rest));
    lemma_replaced_stays(x, pattern + rest, pattern, by);
    assert((pattern + rest).take(pattern.len() as int) =~= pattern);
    assert((pattern + rest).skip(pattern.len() as int) =~= rest);
    assert(x + (by + replaced(rest, pattern, by)) =~= x + by + replaced(rest, pattern, by));
    if !occurs_in(pattern, rest) {
        let empty = Seq::<char>::empty();
        assert(rest + empty =~= rest);
        lemma_replaced_stays(rest, empty, pattern, by);
        assert(rest + replaced(empty, pattern, by) =~= rest);
    }
}

/// A number in decimal: a digit stands for itself, and ten times a number and a digit are that number
/// and then the digit. There is no leading zero, and reading it gives the number back.
pub proof fn law_decimal(n: nat, d: nat)
    requires
        d < 10,
    ensures
        decimal_text(d) == seq![(('0' as u32) + d) as char],
        n > 0 ==> decimal_text(10 * n + d) == decimal_text(n).push((('0' as u32) + d) as char),
        n > 0 ==> decimal_text(n)[0] != '0',
        all_digits(decimal_text(n)),
        digits_value(decimal_text(n)) == n,
        number_value(decimal_text(n)) == Some(n as int),
    decreases n,
{
    if n >= 10 {
        law_decimal(n / 10, d);
        let s = decimal_text(n);
        assert(s.drop_last() =~= decimal_text(n / 10));
        assert forall|i: int| 0 <= i < s.len() implies '0' <= #[trigger] s[i] <= '9' by {
            if i < s.len() - 1 {
                assert(s[i] == decimal_text(n / 10)[i]);
                assert(crate::request::is_digit(decimal_text(n / 10)[i]));
            }
        }
        assert(n / 10 * 10 + n % 10 == n);
    } else {
        let s = decimal_text(n);
        assert(s.drop_last() =~= Seq::<char>::empty());
        assert(digits_value(s.drop_last()) == 0);
        assert forall|i: int| 0 <= i < s.len() implies '0' <= #[trigger] s[i] <= '9' by {}
    }
    assert(crate::request::is_digit(decimal_text(n)[0]));
    assert((10 * n + d) / 10 == n);
    assert((10 * n + d) % 10 == d);
}

/// Two numbers are the same in decimal only if they are the same.
pub proof fn law_decimal_tells_apart(a: nat, b: nat)
    requires
        decimal_text(a) == decimal_text(b),
    ensures
        a == b,
{
    law_decimal(a, 0);
    law_decimal(b, 0);
}

/// Escaping is done character by character: `<`, `>` and `&` become entities, others stay.
pub proof fn law_escaping(s: Seq<char>, c: char)
    ensures
        escaped(Seq::empty()) == Seq::<char>::empty(),
        escaped(s.push(c)) == escaped(s) + if c == '<' {
            seq!['&', 'l', 't', ';']
        } else if c == '>' {
            seq!['&', 'g', 't', ';']
        } else if c == '&' {
            seq!['&', 'a', 'm', 'p', ';']
        } else {
            seq![c]
        },
{
    assert(s.push(c).drop_last() =~= s);
}

/// Blanks at the ends of a text go, and nothing else does.
pub proof fn law_blanks_go(s: Seq<char>, c: char)
    requires
        c == ' ' || c == '\t',
    ensures
        bare(seq![c] + s) == bare(s),
        bare(s.push(c)) == bare(s),
        s.len() > 0 && s[0] != ' ' && s[0] != '\t' && s.last() != ' ' && s.last() != '\t' ==> bare(s)
            == s,
    decreases s.len(),
{
    assert((seq![c] + s).drop_first() =~= s);
    if s.len() == 0 {
        assert(s.push(c).drop_first() =~= s);
    } else if s[0] == ' ' || s[0] == '\t' {
        law_blanks_go(s.drop_first(), c);
        assert(s.push(c).drop_first() =~= s.drop_first().push(c));
    } else {
        assert(s.push(c).drop_last() =~= s);
    }
}

} // verus!
