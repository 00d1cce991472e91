//! Small string utilities shared across the crate: decimal formatting,
//! zero-padding, lexicographic comparison and line splitting.

use vstd::prelude::*;

verus! {

/// The character for one decimal digit.
pub open spec fn digit_char(d: int) -> char {
    if d == 0 {
        '0'
    } else if d == 1 {
        '1'
    } else if d == 2 {
        '2'
    } else if d == 3 {
        '3'
    } else if d == 4 {
        '4'
    } else if d == 5 {
        '5'
    } else if d == 6 {
        '6'
    } else if d == 7 {
        '7'
    } else if d == 8 {
        '8'
    } else {
        '9'
    }
}

/// The decimal digit string of a natural number, without leading zeros
/// (except for zero itself, which is "0").
pub open spec fn dec_digits(n: nat) -> Seq<char>
    decreases n,
{
    if n < 10 {
        seq![digit_char(n as int)]
    } else {
        dec_digits(n / 10).push(digit_char((n % 10) as int))
    }
}

/// A number padded with zeros on the left to at least two digits.
pub open spec fn pad2_digits(n: nat) -> Seq<char> {
    if n < 10 {
        seq!['0', digit_char(n as int)]
    } else {
        dec_digits(n)
    }
}

/// A number padded with zeros on the left to at least four digits.
pub open spec fn pad4_digits(n: nat) -> Seq<char> {
    if n < 10 {
        seq!['0', '0', '0', digit_char(n as int)]
    } else if n < 100 {
        seq!['0', '0'] + dec_digits(n)
    } else if n < 1000 {
        seq!['0'] + dec_digits(n)
    } else {
        dec_digits(n)
    }
}

fn digit_str(d: u32) -> (r: &'static str)
    requires
        d < 10,
    ensures
        r@ == seq![digit_char(d as int)],
{
    proof {
        reveal_strlit("0");
        reveal_strlit("1");
        reveal_strlit("2");
        reveal_strlit("3");
        reveal_strlit("4");
        reveal_strlit("5");
        reveal_strlit("6");
        reveal_strlit("7");
        reveal_strlit("8");
        reveal_strlit("9");
    }
    let r = match d {
        0 => "0",
        1 => "1",
        2 => "2",
        3 => "3",
        4 => "4",
        5 => "5",
        6 => "6",
        7 => "7",
        8 => "8",
        _ => "9",
    };
    assert(r@ =~= seq![digit_char(d as int)]);
    r
}

/// The decimal representation of a number, as a fresh string.
pub fn u32_dec(n: u32) -> (s: String)
    ensures
        s@ == dec_digits(n as nat),
    decreases n,
{
    if n < 10 {
        digit_str(n).to_owned()
    } else {
        let mut s = u32_dec(n / 10);
        s.append(digit_str(n % 10));
        s
    }
}

/// The decimal representation of a number, zero-padded to at least two digits.
pub fn pad2(n: u32) -> (s: String)
    ensures
        s@ == pad2_digits(n as nat),
{
    if n < 10 {
        proof {
            reveal_strlit("0");
        }
        let mut s = "0".to_owned();
        s.append(digit_str(n));
        assert(s@ =~= pad2_digits(n as nat));
        s
    } else {
        u32_dec(n)
    }
}

/// The decimal representation of a number, zero-padded to at least four digits.
pub fn pad4(n: u32) -> (s: String)
    ensures
        s@ == pad4_digits(n as nat),
{
    if n >= 1000 {
        u32_dec(n)
    } else {
        proof {
            reveal_strlit("000");
            reveal_strlit("00");
            reveal_strlit("0");
        }
        let mut s = if n < 10 {
            "000".to_owned()
        } else if n < 100 {
            "00".to_owned()
        } else {
            "0".to_owned()
        };
        s.append(u32_dec(n).as_str());
        assert(s@ =~= pad4_digits(n as nat));
        s
    }
}

/// The characters of a string collected into a vector.
pub fn to_chars(s: &str) -> (r: Vec<char>)
    ensures
        r@ == s@,
{
    let len = s.unicode_len();
    let mut r: Vec<char> = Vec::new();
    let mut i: usize = 0;
    while i < len
        invariant
            i <= len,
            len == s@.len(),
            r@ == s@.take(i as int),
        decreases len - i,
    {
        r.push(s.get_char(i));
        i = i + 1;
        assert(r@ =~= s@.take(i as int));
    }
    assert(r@ =~= s@);
    r
}

/// Lexicographic order on character sequences, by code point.
pub open spec fn lex_le(a: Seq<char>, b: Seq<char>) -> bool
    decreases a.len(),
{
    if a.len() == 0 {
        true
    } else if b.len() == 0 {
        false
    } else if (a[0] as int) < (b[0] as int) {
        true
    } else if (a[0] as int) > (b[0] as int) {
        false
    } else {
        lex_le(a.skip(1), b.skip(1))
    }
}

/// Lexicographic order is total: of two sequences, one is below the other.
pub proof fn lemma_lex_le_total(a: Seq<char>, b: Seq<char>)
    ensures
        lex_le(a, b) || lex_le(b, a),
    decreases a.len(),
{
    if a.len() > 0 && b.len() > 0 && a[0] == b[0] {
        lemma_lex_le_total(a.skip(1), b.skip(1));
    }
}

/// Whether `a` is at or below `b` in lexicographic order, by code point.
pub fn str_lex_le(a: &str, b: &str) -> (r: bool)
    ensures
        r == lex_le(a@, b@),
{
    let a_len = a.unicode_len();
    let b_len = b.unicode_len();
    let mut i: usize = 0;
    proof {
        assert(a@.skip(0) =~= a@);
        assert(b@.skip(0) =~= b@);
    }
    loop
        invariant
            i <= a_len,
            i <= b_len,
            a_len == a@.len(),
            b_len == b@.len(),
            lex_le(a@, b@) == lex_le(a@.skip(i as int), b@.skip(i as int)),
        decreases a_len - i,
    {
        if i >= a_len {
            return true;
        }
        if i >= b_len {
            return false;
        }
        let ca = a.get_char(i);
        let cb = b.get_char(i);
        if (ca as u32) < (cb as u32) {
            return true;
        }
        if (ca as u32) > (cb as u32) {
            return false;
        }
        proof {
            assert(a@.skip(i as int).skip(1) =~= a@.skip(i as int + 1));
            assert(b@.skip(i as int).skip(1) =~= b@.skip(i as int + 1));
        }
        i = i + 1;
    }
}

/// The pieces of a sequence split on a terminator character: every
/// terminator ends a piece, and a trailing terminator adds no empty piece.
pub open spec fn split_term(s: Seq<char>, t: char) -> Seq<Seq<char>>
    decreases s.len(),
{
    if s.len() == 0 {
        Seq::empty()
    } else if s[0] == t {
        seq![Seq::<char>::empty()] + split_term(s.skip(1), t)
    } else {
        let rest = split_term(s.skip(1), t);
        if rest.len() == 0 {
            seq![seq![s[0]]]
        } else {
            seq![seq![s[0]] + rest[0]] + rest.skip(1)
        }
    }
}

/// The first index at which a character occurs in a sequence.
pub open spec fn first_index_of(s: Seq<char>, t: char) -> int
    decreases s.len(),
{
    if s.len() == 0 {
        0
    } else if s[0] == t {
        0
    } else {
        1 + first_index_of(s.skip(1), t)
    }
}

proof fn lemma_first_index_of(s: Seq<char>, t: char)
    requires
        s.contains(t),
    ensures
        0 <= first_index_of(s, t) < s.len(),
        s[first_index_of(s, t)] == t,
        forall|j: int| 0 <= j < first_index_of(s, t) ==> s[j] != t,
    decreases s.len(),
{
    if s.len() > 0 && s[0] != t {
        assert(s.skip(1).contains(t)) by {
            let w = choose|w: int| 0 <= w < s.len() && s[w] == t;
            assert(s.skip(1)[w - 1] == t);
        }
        lemma_first_index_of(s.skip(1), t);
        assert forall|j: int| 0 <= j < first_index_of(s, t) implies s[j] != t by {
            if j > 0 {
                assert(s.skip(1)[j - 1] == s[j]);
            }
        }
    }
}

/// A sequence without its terminator splits as itself alone.
proof fn lemma_split_term_whole(s: Seq<char>, t: char)
    requires
        s.len() > 0,
        !s.contains(t),
    ensures
        split_term(s, t) == seq![s],
    decreases s.len(),
{
    assert(s[0] != t);
    if s.len() > 1 {
        assert(!s.skip(1).contains(t)) by {
            if s.skip(1).contains(t) {
                let w = choose|w: int| 0 <= w < s.skip(1).len() && s.skip(1)[w] == t;
                assert(s[w + 1] == t);
            }
        }
        lemma_split_term_whole(s.skip(1), t);
        assert(seq![s[0]] + s.skip(1) =~= s);
        assert(split_term(s, t) =~~= seq![s]);
    } else {
        assert(s.skip(1).len() == 0);
        assert(split_term(s.skip(1), t) == Seq::<Seq<char>>::empty());
        assert(seq![s[0]] =~= s);
        assert(split_term(s, t) =~~= seq![s]);
    }
}

/// Splitting takes off the piece before the first terminator, then splits
/// what follows that terminator.
proof fn lemma_split_term_first(s: Seq<char>, t: char)
    requires
        s.contains(t),
    ensures
        split_term(s, t) == seq![s.take(first_index_of(s, t))] + split_term(
            s.skip(first_index_of(s, t) + 1),
            t,
        ),
    decreases s.len(),
{
    lemma_first_index_of(s, t);
    let f = first_index_of(s, t);
    if s[0] == t {
        assert(f == 0);
        assert(s.take(0) =~= Seq::<char>::empty());
    } else {
        assert(s.skip(1).contains(t)) by {
            let w = choose|w: int| 0 <= w < s.len() && s[w] == t;
            assert(s.skip(1)[w - 1] == t);
        }
        lemma_split_term_first(s.skip(1), t);
        lemma_first_index_of(s.skip(1), t);
        assert(first_index_of(s.skip(1), t) == f - 1);
        let rest = split_term(s.skip(1), t);
        assert(rest.len() > 0);
        assert(rest[0] == s.skip(1).take(f - 1));
        assert(seq![s[0]] + s.skip(1).take(f - 1) =~= s.take(f));
        assert(s.skip(1).skip(f) =~= s.skip(f + 1));
        assert(rest.skip(1) == split_term(s.skip(1).skip(f), t));
        assert(split_term(s, t) =~= seq![s.take(f)] + split_term(s.skip(f + 1), t));
    }
}

/// The lines of a listing: the input split on newline terminators.
pub fn split_lines(s: &str) -> (r: Vec<String>)
    ensures
        r@.map_values(|p: String| p@) == split_term(s@, '\n'),
{
    let len = s.unicode_len();
    let mut r: Vec<String> = Vec::new();
    let mut start: usize = 0;
    let mut i: usize = 0;
    proof {
        assert(s@.skip(0) =~= s@);
        assert(r@.map_values(|p: String| p@) + split_term(s@, '\n') =~= split_term(s@, '\n'));
    }
    while i < len
        invariant
            start <= i <= len,
            len == s@.len(),
            split_term(s@, '\n') == r@.map_values(|p: String| p@) + split_term(
                s@.skip(start as int),
                '\n',
            ),
            forall|j: int| start <= j < i ==> s@[j] != '\n',
        decreases len - i,
    {
        if s.get_char(i) == '\n' {
            let ghost done = r@.map_values(|p: String| p@);
            let piece = s.substring_char(start, i);
            r.push(piece.to_owned());
            proof {
                let rest = s@.skip(start as int);
                assert(rest[i - start] == '\n');
                assert(rest.contains('\n'));
                lemma_first_index_of(rest, '\n');
                assert(first_index_of(rest, '\n') == i - start) by {
                    let f = first_index_of(rest, '\n');
                    if f < i - start {
                        assert(rest[f] == s@[start + f]);
                    }
                }
                lemma_split_term_first(rest, '\n');
                assert(rest.take(i - start) =~= s@.subrange(start as int, i as int));
                assert(rest.skip(i - start + 1) =~= s@.skip(i as int + 1));
                assert(r@.map_values(|p: String| p@) =~= done.push(
                    s@.subrange(start as int, i as int),
                ));
                assert(done + split_term(rest, '\n') =~= r@.map_values(|p: String| p@)
                    + split_term(s@.skip(i as int + 1), '\n'));
            }
            start = i + 1;
        }
        i = i + 1;
    }
    if start < len {
        proof {
            let rest = s@.skip(start as int);
            assert(!rest.contains('\n')) by {
                if rest.contains('\n') {
                    let w = choose|w: int| 0 <= w < rest.len() && rest[w] == '\n';
                    assert(s@[start + w] == '\n');
                }
            }
            lemma_split_term_whole(rest, '\n');
        }
        let ghost done = r@.map_values(|p: String| p@);
        let piece = s.substring_char(start, len);
        r.push(piece.to_owned());
        proof {
            assert(s@.skip(start as int) =~= s@.subrange(start as int, len as int));
            assert(r@.map_values(|p: String| p@) =~= done.push(
                s@.subrange(start as int, len as int),
            ));
            assert(done + seq![s@.skip(start as int)] =~= r@.map_values(|p: String| p@));
        }
    } else {
        proof {
            assert(s@.skip(start as int) =~= Seq::<char>::empty());
            assert(r@.map_values(|p: String| p@) + Seq::<Seq<char>>::empty() =~= r@.map_values(
                |p: String| p@,
            ));
        }
    }
    r
}

} // verus!
