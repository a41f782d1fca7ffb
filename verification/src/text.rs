//! Text as sequences of characters: searching, splitting, joining and decimal numerals.

use vstd::prelude::*;

verus! {

/// The index of the first `x` in `s`, or the length of `s` where there is none.
pub open spec fn position<T>(s: Seq<T>, x: T) -> int
    decreases s.len(),
{
    if s.len() == 0 || s.first() == x {
        0
    } else {
        1 + position(s.drop_first(), x)
    }
}

/// `s` cut at its first `sep`, which neither half keeps.
pub open spec fn split_first<T>(s: Seq<T>, sep: T) -> Option<(Seq<T>, Seq<T>)> {
    if position(s, sep) < s.len() {
        Some((s.take(position(s, sep)), s.skip(position(s, sep) + 1)))
    } else {
        None
    }
}

/// What stands behind the last `sep` of `s`: all of `s` where there is none.
pub open spec fn after_last<T>(s: Seq<T>, sep: T) -> Seq<T>
    decreases s.len(),
{
    if s.len() == 0 || s.last() == sep {
        Seq::empty()
    } else {
        after_last(s.drop_last(), sep).push(s.last())
    }
}

/// The pieces of `s` between its separators; there is always one more piece than separators.
pub open spec fn pieces<T>(s: Seq<T>, sep: T) -> Seq<Seq<T>>
    decreases s.len(),
{
    if s.len() == 0 {
        seq![Seq::empty()]
    } else {
        let before = pieces(s.drop_last(), sep);
        if s.last() == sep {
            before.push(Seq::empty())
        } else {
            before.drop_last().push(before.last().push(s.last()))
        }
    }
}

/// The parts of `list` one behind the other, with `sep` between each two of them.
pub open spec fn joined<T>(list: Seq<Seq<T>>, sep: Seq<T>) -> Seq<T>
    decreases list.len(),
{
    if list.len() == 0 {
        Seq::empty()
    } else if list.len() == 1 {
        list[0]
    } else {
        joined(list.drop_last(), sep) + sep + list.last()
    }
}

/// The character of a decimal digit.
pub open spec fn digit(d: nat) -> char {
    ('0' as nat + d) as char
}

/// The decimal numeral of a natural number, without leading zeros.
pub open spec fn numeral(n: nat) -> Seq<char>
    decreases n,
{
    if n < 10 {
        seq![digit(n)]
    } else {
        numeral(n / 10).push(digit(n % 10))
    }
}

/// The decimal numeral of an integer, with a `-` before that of a negative one.
pub open spec fn decimal(n: int) -> Seq<char> {
    if n < 0 {
        seq!['-'] + numeral((-n) as nat)
    } else {
        numeral(n as nat)
    }
}

pub proof fn lemma_position<T>(s: Seq<T>, x: T)
    ensures
        0 <= position(s, x) <= s.len(),
        position(s, x) < s.len() ==> s[position(s, x)] == x,
        forall|i: int| 0 <= i < position(s, x) ==> s[i] != x,
        s.contains(x) <==> position(s, x) < s.len(),
    decreases s.len(),
{
    if s.len() > 0 && s.first() != x {
        lemma_position(s.drop_first(), x);
        assert forall|i: int| 0 <= i < position(s, x) implies s[i] != x by {
            if i > 0 {
                assert(s[i] == s.drop_first()[i - 1]);
            }
        }
        if position(s, x) < s.len() {
            assert(s[position(s, x)] == s.drop_first()[position(s, x) - 1]);
        }
    }
}

pub proof fn lemma_position_is<T>(s: Seq<T>, x: T, i: int)
    requires
        0 <= i < s.len(),
        s[i] == x,
        forall|j: int| 0 <= j < i ==> s[j] != x,
    ensures
        position(s, x) == i,
{
    lemma_position(s, x);
}

pub proof fn lemma_after_last_lacks<T>(s: Seq<T>, sep: T)
    ensures
        forall|i: int| 0 <= i < after_last(s, sep).len() ==> after_last(s, sep)[i] != sep,
    decreases s.len(),
{
    if s.len() > 0 && s.last() != sep {
        lemma_after_last_lacks(s.drop_last(), sep);
        let before = after_last(s.drop_last(), sep);
        assert forall|i: int| 0 <= i < after_last(s, sep).len() implies after_last(s, sep)[i]
            != sep by {
            if i < before.len() {
                assert(after_last(s, sep)[i] == before[i]);
            }
        }
    }
}

/// The characters of `s`.
pub fn chars_of(s: &str) -> (r: Vec<char>)
    ensures
        r@ == s@,
{
    let mut r: Vec<char> = Vec::new();
    for c in iter: s.chars()
        invariant
            iter.seq() == s@,
            r@ == s@.take(iter.index()),
    {
        r.push(c);
    }
    r
}

/// Whether two texts are equal.
pub fn same(a: &str, b: &str) -> (r: bool)
    ensures
        r == (a@ == b@),
{
    a.to_owned() == b.to_owned()
}

/// Whether `s` begins with `prefix`.
pub fn starts_with(s: &str, prefix: &str) -> (r: bool)
    ensures
        r == prefix@.is_prefix_of(s@),
{
    let s_len: usize = s.unicode_len();
    let n: usize = prefix.unicode_len();
    if n > s_len {
        return false;
    }
    let head = s.substring_char(0, n);
    let r = same(head, prefix);
    assert(r ==> prefix@ =~= s@.subrange(0, n as int));
    r
}

/// Cuts `s` at its first `sep`.
pub fn cut_first<'a>(s: &'a str, sep: char) -> (r: Option<(&'a str, &'a str)>)
    ensures
        match r {
            Some(halves) => split_first(s@, sep) == Some((halves.0@, halves.1@)),
            None => split_first(s@, sep) is None,
        },
{
    let chars: Vec<char> = chars_of(s);
    let n: usize = chars.len();
    let mut i: usize = 0;
    while i < n
        invariant
            i <= n,
            n == chars@.len(),
            chars@ == s@,
            forall|j: int| 0 <= j < i ==> s@[j] != sep,
        decreases n - i,
    {
        if chars[i] == sep {
            proof {
                lemma_position_is(s@, sep, i as int);
            }
            let head = s.substring_char(0, i);
            let tail = s.substring_char(i + 1, n);
            assert(head@ =~= s@.take(i as int));
            assert(tail@ =~= s@.skip(i + 1));
            return Some((head, tail));
        }
        i = i + 1;
    }
    proof {
        lemma_position(s@, sep);
    }
    None
}

/// The part of `s` behind its last `sep`.
pub fn tail_after_last<'a>(s: &'a str, sep: char) -> (r: &'a str)
    ensures
        r@ == after_last(s@, sep),
{
    let chars: Vec<char> = chars_of(s);
    let n: usize = chars.len();
    let mut start: usize = 0;
    let mut i: usize = 0;
    while i < n
        invariant
            start <= i <= n,
            n == chars@.len(),
            chars@ == s@,
            after_last(s@.take(i as int), sep) =~= s@.subrange(start as int, i as int),
        decreases n - i,
    {
        assert(s@.take(i + 1).drop_last() =~= s@.take(i as int));
        if chars[i] == sep {
            start = i + 1;
        }
        i = i + 1;
    }
    assert(s@.take(n as int) =~= s@);
    s.substring_char(start, n)
}

pub proof fn lemma_pieces_nonempty<T>(s: Seq<T>, sep: T)
    ensures
        pieces(s, sep).len() > 0,
    decreases s.len(),
{
    if s.len() > 0 {
        lemma_pieces_nonempty(s.drop_last(), sep);
    }
}

/// The pieces of `s` between its separators.
pub fn split(s: &str, sep: char) -> (r: Vec<String>)
    ensures
        r.deep_view() == pieces(s@, sep),
{
    let chars: Vec<char> = chars_of(s);
    let n: usize = chars.len();
    let mut out: Vec<String> = Vec::new();
    let mut start: usize = 0;
    let mut i: usize = 0;
    assert(s@.subrange(0, 0) =~= Seq::<char>::empty());
    assert(out.deep_view().push(s@.subrange(0, 0)) =~= pieces(s@.take(0), sep));
    while i < n
        invariant
            start <= i <= n,
            n == chars@.len(),
            chars@ == s@,
            out.deep_view().push(s@.subrange(start as int, i as int)) =~= pieces(
                s@.take(i as int),
                sep,
            ),
        decreases n - i,
    {
        let ghost before = pieces(s@.take(i as int), sep);
        assert(s@.take(i + 1).drop_last() =~= s@.take(i as int));
        assert(before.last() == s@.subrange(start as int, i as int));
        assert(before.drop_last() =~= out.deep_view());
        if chars[i] == sep {
            let ghost old_out = out.deep_view();
            let piece: String = s.substring_char(start, i).to_owned();
            out.push(piece);
            assert(out.deep_view() =~= old_out.push(s@.subrange(start as int, i as int)));
            start = i + 1;
            assert(s@.subrange(start as int, i + 1) =~= Seq::<char>::empty());
        } else {
            assert(s@.subrange(start as int, i + 1) =~= before.last().push(s@[i as int]));
        }
        i = i + 1;
    }
    assert(s@.take(n as int) =~= s@);
    let ghost old_out = out.deep_view();
    let piece: String = s.substring_char(start, n).to_owned();
    out.push(piece);
    assert(out.deep_view() =~= old_out.push(s@.subrange(start as int, n as int)));
    out
}

/// The pieces of bytes between their separators.
pub fn split_bytes(s: &[u8], sep: u8) -> (r: Vec<Vec<u8>>)
    ensures
        r.deep_view() == pieces(s@, sep),
{
    let n: usize = s.len();
    let mut out: Vec<Vec<u8>> = Vec::new();
    let mut piece: Vec<u8> = Vec::new();
    let mut i: usize = 0;
    assert(piece.deep_view() =~= Seq::<u8>::empty());
    assert(out.deep_view().push(piece.deep_view()) =~= pieces(s@.take(0), sep));
    while i < n
        invariant
            i <= n,
            n == s@.len(),
            out.deep_view().push(piece.deep_view()) =~= pieces(s@.take(i as int), sep),
        decreases n - i,
    {
        let ghost before = pieces(s@.take(i as int), sep);
        let ghost old_out = out.deep_view();
        let ghost old_piece = piece.deep_view();
        assert(s@.take(i + 1).drop_last() =~= s@.take(i as int));
        assert(before.last() == old_piece);
        assert(before.drop_last() =~= old_out);
        if s[i] == sep {
            out.push(piece);
            piece = Vec::new();
            assert(out.deep_view() =~= old_out.push(old_piece));
            assert(piece.deep_view() =~= Seq::<u8>::empty());
        } else {
            piece.push(s[i]);
            assert(piece.deep_view() =~= old_piece.push(s@[i as int]));
        }
        i = i + 1;
    }
    assert(s@.take(n as int) =~= s@);
    let ghost old_out = out.deep_view();
    out.push(piece);
    assert(out.deep_view() =~= old_out.push(piece.deep_view()));
    out
}

/// The texts of `list`, with `sep` between each two of them.
pub fn join(list: &[String], sep: &str) -> (r: String)
    ensures
        r@ == joined(list.deep_view(), sep@),
{
    let mut out: String = String::new();
    let mut i: usize = 0;
    let ghost all = list.deep_view();
    while i < list.len()
        invariant
            i <= list.len(),
            all == list.deep_view(),
            out@ == joined(all.take(i as int), sep@),
        decreases list.len() - i,
    {
        assert(all.take(i + 1).drop_last() =~= all.take(i as int));
        if i > 0 {
            out.append(sep);
        }
        out.append(list[i].as_str());
        assert(out@ =~= joined(all.take(i + 1), sep@));
        i = i + 1;
    }
    assert(all.take(list.len() as int) =~= all);
    out
}

fn digit_text(d: u32) -> (r: &'static str)
    requires
        d < 10,
    ensures
        r@ == seq![digit(d as nat)],
{
    proof {
        reveal_strlit("0");
        reveal_strlit("1");
        reveal_strlit("2");
        reveal_strlit("3");
        reveal_strlit("4");
        reveal_strlit("5");
        reveal_strlit("6");
        reveal_strlit("7");
        reveal_strlit("8");
        reveal_strlit("9");
    }
    match d {
        0 => "0",
        1 => "1",
        2 => "2",
        3 => "3",
        4 => "4",
        5 => "5",
        6 => "6",
        7 => "7",
        8 => "8",
        _ => "9",
    }
}

fn numeral_string(n: u32) -> (r: String)
    ensures
        r@ == numeral(n as nat),
    decreases n,
{
    let mut out: String = if n < 10 {
        String::new()
    } else {
        numeral_string(n / 10)
    };
    out.append(digit_text(n % 10));
    assert(out@ =~= numeral(n as nat));
    out
}

/// The decimal numeral of `n`.
pub fn decimal_string(n: i32) -> (r: String)
    ensures
        r@ == decimal(n as int),
{
    if n < 0 {
        let mut out: String = "-".to_owned();
        let magnitude: u32 = (0i64 - n as i64) as u32;
        let digits: String = numeral_string(magnitude);
        out.append(digits.as_str());
        proof {
            reveal_strlit("-");
            assert("-"@ =~= seq!['-']);
        }
        out
    } else {
        numeral_string(n as u32)
    }
}

/// Joining the pieces of a sequence with their separator gives the sequence back.
pub proof fn law_split_then_join<T>(s: Seq<T>, sep: T)
    ensures
        joined(pieces(s, sep), seq![sep]) == s,
    decreases s.len(),
{
    if s.len() > 0 {
        let front = s.drop_last();
        let before = pieces(front, sep);
        law_split_then_join(front, sep);
        lemma_pieces_nonempty(front, sep);
        assert(s =~= front.push(s.last()));
        if s.last() == sep {
            assert(before.push(Seq::<T>::empty()).drop_last() =~= before);
            assert(joined(pieces(s, sep), seq![sep]) =~= s);
        } else {
            let now = before.drop_last().push(before.last().push(s.last()));
            assert(now.drop_last() =~= before.drop_last());
            if before.len() == 1 {
                assert(before.drop_last() =~= Seq::<Seq<T>>::empty());
            }
            assert(joined(now, seq![sep]) =~= joined(before, seq![sep]).push(s.last()));
        }
    }
}

/// The halves of a sequence that is cut at its first separator, with the separator between them,
/// are the sequence, and the first half holds no separator.
pub proof fn law_cut_halves_rejoin<T>(s: Seq<T>, sep: T)
    requires
        s.contains(sep),
    ensures
        split_first(s, sep) is Some,
        (split_first(s, sep)->0).0.push(sep) + (split_first(s, sep)->0).1 == s,
        !(split_first(s, sep)->0).0.contains(sep),
{
    lemma_position(s, sep);
    let i = position(s, sep);
    assert(s.take(i).push(sep) + s.skip(i + 1) =~= s);
}

/// No piece of a sequence holds the separator.
pub proof fn law_pieces_hold_no_separator<T>(s: Seq<T>, sep: T, i: int)
    requires
        0 <= i < pieces(s, sep).len(),
    ensures
        !pieces(s, sep)[i].contains(sep),
    decreases s.len(),
{
    if s.len() > 0 {
        let before = pieces(s.drop_last(), sep);
        lemma_pieces_nonempty(s.drop_last(), sep);
        if i < before.len() {
            law_pieces_hold_no_separator(s.drop_last(), sep, i);
            if s.last() != sep && i == before.len() - 1 {
                let grown = before.last().push(s.last());
                if grown.contains(sep) {
                    let k = grown.index_of(sep);
                    assert(before.last()[k] == sep);
                    assert(before.last().contains(sep));
                }
            }
        }
    }
}

pub proof fn lemma_pieces_grow<T>(a: Seq<T>, sep: T, b: Seq<T>)
    requires
        !b.contains(sep),
    ensures
        pieces(a.push(sep) + b, sep) == pieces(a, sep).push(b),
    decreases b.len(),
{
    let s = a.push(sep) + b;
    if b.len() == 0 {
        assert(s.drop_last() =~= a);
        assert(b =~= Seq::<T>::empty());
    } else {
        let front = b.drop_last();
        assert(s.drop_last() =~= a.push(sep) + front);
        assert(b.contains(b.last()));
        if front.contains(sep) {
            assert(b[front.index_of(sep)] == sep);
        }
        lemma_pieces_grow(a, sep, front);
        assert(pieces(a, sep).push(front).drop_last() =~= pieces(a, sep));
        assert(front.push(b.last()) =~= b);
    }
}

pub proof fn lemma_pieces_of_one<T>(s: Seq<T>, sep: T)
    requires
        !s.contains(sep),
    ensures
        pieces(s, sep) == seq![s],
    decreases s.len(),
{
    if s.len() > 0 {
        let front = s.drop_last();
        assert(s.contains(s.last()));
        if front.contains(sep) {
            assert(s[front.index_of(sep)] == sep);
        }
        lemma_pieces_of_one(front, sep);
        assert(front.push(s.last()) =~= s);
        assert(pieces(s, sep) =~= seq![s]);
    } else {
        assert(s =~= Seq::<T>::empty());
    }
}

/// Parts that hold no separator are the pieces of what they join to.
pub proof fn law_join_then_split<T>(list: Seq<Seq<T>>, sep: T)
    requires
        list.len() > 0,
        forall|i: int| 0 <= i < list.len() ==> !(#[trigger] list[i]).contains(sep),
    ensures
        pieces(joined(list, seq![sep]), sep) == list,
    decreases list.len(),
{
    if list.len() == 1 {
        lemma_pieces_of_one(list[0], sep);
        assert(list =~= seq![list[0]]);
    } else {
        let front = list.drop_last();
        law_join_then_split(front, sep);
        let a = joined(front, seq![sep]);
        assert(joined(list, seq![sep]) =~= a.push(sep) + list.last());
        lemma_pieces_grow(a, sep, list.last());
        assert(front.push(list.last()) =~= list);
    }
}

proof fn lemma_numeral_injective(a: nat, b: nat)
    requires
        numeral(a) == numeral(b),
    ensures
        a == b,
    decreases a,
{
    lemma_numeral_length(a);
    lemma_numeral_length(b);
    if a >= 10 && b >= 10 {
        assert(numeral(a).drop_last() =~= numeral(a / 10));
        assert(numeral(b).drop_last() =~= numeral(b / 10));
        lemma_numeral_injective(a / 10, b / 10);
        assert(numeral(a).last() == digit(a % 10));
        assert(numeral(b).last() == digit(b % 10));
    } else {
        assert(numeral(a)[0] == numeral(b)[0]);
        if a < 10 && b < 10 {
            assert(numeral(a)[0] == digit(a));
            assert(numeral(b)[0] == digit(b));
        }
    }
}

proof fn lemma_numeral_length(a: nat)
    ensures
        numeral(a).len() >= 1,
        a >= 10 <==> numeral(a).len() > 1,
        '0' <= numeral(a)[0] <= '9',
    decreases a,
{
    if a >= 10 {
        lemma_numeral_length(a / 10);
    }
}

/// Two different integers have different decimal numerals.
pub proof fn law_decimal_injective(a: int, b: int)
    requires
        decimal(a) == decimal(b),
    ensures
        a == b,
{
    let p = if a < 0 { (-a) as nat } else { a as nat };
    let q = if b < 0 { (-b) as nat } else { b as nat };
    lemma_numeral_length(p);
    lemma_numeral_length(q);
    assert(decimal(a)[0] == decimal(b)[0]);
    if a < 0 && b < 0 {
        assert(numeral(p) =~= decimal(a).skip(1));
        assert(numeral(q) =~= decimal(b).skip(1));
    }
    assert(numeral(p) == numeral(q));
    lemma_numeral_injective(p, q);
}

/// A sequence is cut where it holds the separator, and only there.
pub proof fn law_cut_needs_a_separator<T>(a: Seq<T>, sep: T, b: Seq<T>)
    requires
        !a.contains(sep),
    ensures
        split_first(a, sep) is None,
        split_first(a.push(sep) + b, sep) == Some((a, b)),
{
    lemma_position(a, sep);
    let s = a.push(sep) + b;
    assert forall|j: int| 0 <= j < a.len() implies s[j] != sep by {
        assert(s[j] == a[j]);
        assert(a.contains(a[j]));
    }
    lemma_position_is(s, sep, a.len() as int);
    assert(s.take(a.len() as int) =~= a);
    assert(s.skip(a.len() as int + 1) =~= b);
}

/// What stands behind the last separator is what follows it up to the end; it is all where there is
/// no separator.
pub proof fn law_tail_is_behind_the_last_separator<T>(a: Seq<T>, sep: T, b: Seq<T>)
    requires
        !b.contains(sep),
    ensures
        after_last(b, sep) == b,
        after_last(a.push(sep) + b, sep) == b,
    decreases b.len(),
{
    let s = a.push(sep) + b;
    if b.len() == 0 {
        assert(b =~= Seq::<T>::empty());
        assert(s.last() == sep);
    } else {
        let front = b.drop_last();
        assert(b.contains(b.last()));
        if front.contains(sep) {
            assert(b[front.index_of(sep)] == sep);
        }
        law_tail_is_behind_the_last_separator(a, sep, front);
        assert(s.drop_last() =~= a.push(sep) + front);
        assert(front.push(b.last()) =~= b);
    }
}

/// The pieces of two sequences with a separator between them are those of the one and those of the
/// other; a sequence without a separator is its own piece.
pub proof fn law_pieces_of_two<T>(a: Seq<T>, sep: T, b: Seq<T>)
    ensures
        pieces(a.push(sep) + b, sep) == pieces(a, sep) + pieces(b, sep),
        !b.contains(sep) ==> pieces(b, sep) == seq![b],
    decreases b.len(),
{
    let s = a.push(sep) + b;
    if !b.contains(sep) {
        lemma_pieces_of_one(b, sep);
    }
    if b.len() == 0 {
        assert(s.drop_last() =~= a);
        assert(s.last() == sep);
        assert(pieces(s, sep) =~= pieces(a, sep) + pieces(b, sep));
    } else {
        let front = b.drop_last();
        law_pieces_of_two(a, sep, front);
        lemma_pieces_nonempty(front, sep);
        assert(s.drop_last() =~= a.push(sep) + front);
        assert(s.last() == b.last());
        assert(pieces(s, sep) =~= pieces(a, sep) + pieces(b, sep));
    }
}

/// Nothing joins to nothing, one part to itself, and two lists to what each of them joins to, with
/// the separator between.
pub proof fn law_join_of_two<T>(a: Seq<Seq<T>>, b: Seq<Seq<T>>, part: Seq<T>, sep: Seq<T>)
    requires
        a.len() > 0,
        b.len() > 0,
    ensures
        joined(Seq::<Seq<T>>::empty(), sep) == Seq::<T>::empty(),
        joined(seq![part], sep) == part,
        joined(a + b, sep) == joined(a, sep) + sep + joined(b, sep),
    decreases b.len(),
{
    let front = b.drop_last();
    assert((a + b).drop_last() =~= a + front);
    if b.len() == 1 {
        assert(a + front =~= a);
    } else {
        law_join_of_two(a, front, part, sep);
        assert(joined(a + b, sep) =~= joined(a, sep) + sep + joined(b, sep));
    }
}

/// Decimal numerals are those of arithmetic: a digit stands for itself, ten times a number and a
/// digit is written as the number with the digit behind it, and a negative number is written with a
/// `-` before the positive one.
pub proof fn law_decimal_is_positional(n: int, d: int)
    requires
        n > 0,
        0 <= d < 10,
    ensures
        decimal(d).len() == 1,
        decimal(d)[0] as int == '0' as int + d,
        decimal(10 * n + d) == decimal(n) + decimal(d),
        decimal(-n) == seq!['-'] + decimal(n),
{
    let m: nat = (10 * n + d) as nat;
    assert(m / 10 == n);
    assert(m % 10 == d);
    assert(decimal(10 * n + d) =~= decimal(n) + decimal(d));
}

/// What `split` gives, `join` puts together again, and no part of it holds the separator.
pub proof fn law_join_undoes_split(
    text: &str,
    sep: char,
    between: &str,
    list: Vec<String>,
    parts: &[String],
    again: String,
)
    requires
        between@ == seq![sep],
        call_ensures(split, (text, sep), list),
        parts@ == list@,
        call_ensures(join, (parts, between), again),
    ensures
        again@ == text@,
        list@.len() > 0,
        forall|i: int| 0 <= i < list@.len() ==> !(#[trigger] list@[i])@.contains(sep),
{
    law_split_then_join(text@, sep);
    lemma_pieces_nonempty(text@, sep);
    assert(parts.deep_view() =~= list.deep_view());
    assert forall|i: int| 0 <= i < list@.len() implies !(#[trigger] list@[i])@.contains(sep) by {
        law_pieces_hold_no_separator(text@, sep, i);
        assert(list.deep_view()[i] == list@[i]@);
    }
}

/// The bytes between separators, with one separator between each two of them, are the bytes.
pub proof fn law_split_bytes_keeps_every_byte(bytes: &[u8], sep: u8, list: Vec<Vec<u8>>)
    requires
        call_ensures(split_bytes, (bytes, sep), list),
    ensures
        joined(list.deep_view(), seq![sep]) == bytes@,
        list@.len() > 0,
        forall|i: int| 0 <= i < list@.len() ==> !(#[trigger] list.deep_view()[i]).contains(sep),
{
    law_split_then_join(bytes@, sep);
    lemma_pieces_nonempty(bytes@, sep);
    assert forall|i: int| 0 <= i < list@.len() implies !(
    #[trigger] list.deep_view()[i]).contains(sep) by {
        law_pieces_hold_no_separator(bytes@, sep, i);
    }
}

/// A text is cut at its first separator: with the separator between them the halves are the text,
/// and the first half holds none. A text that is not cut holds none.
pub proof fn law_cut_is_at_the_first_separator<'a>(
    text: &'a str,
    sep: char,
    r: Option<(&'a str, &'a str)>,
)
    requires
        call_ensures(cut_first, (text, sep), r),
    ensures
        r is Some <==> text@.contains(sep),
        r is Some ==> (r->0).0@.push(sep) + (r->0).1@ == text@ && !(r->0).0@.contains(sep),
{
    lemma_position(text@, sep);
    if text@.contains(sep) {
        law_cut_halves_rejoin(text@, sep);
    }
}

/// The tail of a text is what follows its last separator.
pub proof fn law_tail_ends_the_text<'a>(text: &'a str, sep: char, r: &'a str, head: Seq<char>)
    requires
        call_ensures(tail_after_last, (text, sep), r),
    ensures
        !r@.contains(sep),
        !text@.contains(sep) ==> r@ == text@,
        forall|tail: Seq<char>|
            text@ == #[trigger] (head.push(sep) + tail) && !tail.contains(sep) ==> r@ == tail,
{
    lemma_after_last_lacks(text@, sep);
    if !text@.contains(sep) {
        law_tail_is_behind_the_last_separator(head, sep, text@);
    }
    assert forall|tail: Seq<char>|
        text@ == #[trigger] (head.push(sep) + tail) && !tail.contains(sep) implies r@ == tail by {
        law_tail_is_behind_the_last_separator(head, sep, tail);
    }
}

/// Numbers are written in decimal: a digit is itself, ten times a number and a digit is the number
/// with the digit behind it, a negative number has a `-` before it, and no two numbers are written
/// alike.
pub proof fn law_numbers_are_written_in_decimal(n: i32, d: i32, m: i32, a: String, b: String, c: String)
    requires
        n > 0,
        0 <= d < 10,
        call_ensures(decimal_string, (n,), a),
        call_ensures(decimal_string, (d,), b),
        call_ensures(decimal_string, (m,), c),
    ensures
        b@.len() == 1,
        b@[0] as int == '0' as int + d,
        m == 10 * n + d ==> c@ == a@ + b@,
        m == -n ==> c@ == seq!['-'] + a@,
        c@ == a@ ==> m == n,
{
    law_decimal_is_positional(n as int, d as int);
    if c@ == a@ {
        law_decimal_injective(m as int, n as int);
    }
}

/// A text begins with another where some rest behind the other is the text; two texts are the same
/// where their characters are.
pub proof fn law_prefix_has_a_rest(text: &str, prefix: &str, begins: bool, equal: bool)
    requires
        call_ensures(starts_with, (text, prefix), begins),
        call_ensures(same, (text, prefix), equal),
    ensures
        begins <==> exists|rest: Seq<char>| text@ == #[trigger] (prefix@ + rest),
        equal <==> text@ == prefix@,
{
    if begins {
        let rest = text@.skip(prefix@.len() as int);
        assert(text@ =~= prefix@ + rest);
    }
    if exists|rest: Seq<char>| text@ == #[trigger] (prefix@ + rest) {
        let rest = choose|rest: Seq<char>| text@ == #[trigger] (prefix@ + rest);
        assert(prefix@ =~= text@.subrange(0, prefix@.len() as int));
    }
}

} // verus!
