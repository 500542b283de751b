//! Text primitives shared by the parser and the dispatcher.

use vstd::prelude::*;
use vstd::string::*;
use vstd::utf8::encode_utf8_decode_utf8;

verus! {

/// Code points with the Unicode property White_Space.
pub open spec fn is_whitespace(c: char) -> bool {
    let n = c as u32;
    ||| 0x09 <= n <= 0x0d
    ||| n == 0x20
    ||| n == 0x85
    ||| n == 0xa0
    ||| n == 0x1680
    ||| 0x2000 <= n <= 0x200a
    ||| n == 0x2028
    ||| n == 0x2029
    ||| n == 0x202f
    ||| n == 0x205f
    ||| n == 0x3000
}

pub fn char_is_whitespace(c: char) -> (r: bool)
    ensures
        r == is_whitespace(c),
{
    let n: u32 = c as u32;
    (0x09 <= n && n <= 0x0d) || n == 0x20 || n == 0x85 || n == 0xa0 || n == 0x1680 || (0x2000 <= n
        && n <= 0x200a) || n == 0x2028 || n == 0x2029 || n == 0x202f || n == 0x205f || n == 0x3000
}

/// The characters of `s`.
pub fn chars_of(s: &str) -> (chars: Vec<char>)
    ensures
        chars@ == s@,
{
    let mut chars: Vec<char> = Vec::new();
    for c in it: s.chars()
        invariant
            chars@ == it.seq().take(it.index() as int),
            it.seq() == s@,
    {
        chars.push(c);
        proof {
            assert(it.seq().take(it.index() + 1) =~= it.seq().take(it.index() as int).push(c));
        }
    }
    proof {
        assert(s@.take(s@.len() as int) =~= s@);
    }
    chars
}

/// `s` without its trailing run of white space.
pub open spec fn trim_end_spec(s: Seq<char>) -> Seq<char>
    decreases s.len(),
{
    if s.len() > 0 && is_whitespace(s.last()) {
        trim_end_spec(s.drop_last())
    } else {
        s
    }
}

/// Strips trailing white space (line terminators included).
pub fn trim_end(s: &str) -> (r: &str)
    ensures
        r@ == trim_end_spec(s@),
{
    let chars = chars_of(s);
    let n: usize = chars.len();
    let mut end: usize = n;
    proof {
        assert(s@.take(n as int) =~= s@);
    }
    while end > 0 && char_is_whitespace(chars[end - 1])
        invariant
            end <= n,
            n == s@.len(),
            chars@ == s@,
            trim_end_spec(s@) == trim_end_spec(s@.take(end as int)),
        decreases end,
    {
        proof {
            assert(s@.take(end as int).drop_last() =~= s@.take(end as int - 1));
        }
        end = end - 1;
    }
    proof {
        let t = s@.take(end as int);
        assert(end > 0 ==> t.last() == s@[end as int - 1]);
        assert(trim_end_spec(t) == t);
        assert(s@.subrange(0, end as int) =~= t);
    }
    s.substring_char(0, end)
}

/// Whether two strings hold the same characters.
pub fn str_eq(a: &str, b: &str) -> (r: bool)
    ensures
        r == (a@ == b@),
{
    let x = a.as_bytes();
    let y = b.as_bytes();
    proof {
        encode_utf8_decode_utf8(a@);
        encode_utf8_decode_utf8(b@);
    }
    if x.len() != y.len() {
        return false;
    }
    let mut i: usize = 0;
    while i < x.len()
        invariant
            i <= x.len(),
            x.len() == y.len(),
            forall|k: int| 0 <= k < i ==> x@[k] == y@[k],
            a@ == b@ ==> x@ == y@,
        decreases x.len() - i,
    {
        if x[i] != y[i] {
            return false;
        }
        i = i + 1;
    }
    proof {
        assert(x@ =~= y@);
    }
    true
}

/// The pieces of `s` that lie between occurrences of `sep`, in order. There
/// is always one piece more than there are separators, so the empty string
/// has one empty piece.
pub open spec fn split_spec(s: Seq<char>, sep: char) -> Seq<Seq<char>>
    decreases s.len(),
{
    if s.len() == 0 {
        seq![Seq::<char>::empty()]
    } else {
        let init = split_spec(s.drop_last(), sep);
        if s.last() == sep {
            init.push(Seq::<char>::empty())
        } else {
            init.drop_last().push(init.last().push(s.last()))
        }
    }
}

/// The pieces joined again, with `sep` between neighbours.
pub open spec fn join_spec(pieces: Seq<Seq<char>>, sep: char) -> Seq<char>
    decreases pieces.len(),
{
    if pieces.len() == 0 {
        Seq::<char>::empty()
    } else if pieces.len() == 1 {
        pieces[0]
    } else {
        join_spec(pieces.drop_last(), sep) + seq![sep] + pieces.last()
    }
}

/// Splitting loses nothing and leaves no separator inside a piece: the pieces
/// joined by `sep` give `s` back.
pub proof fn lemma_split_join(s: Seq<char>, sep: char)
    ensures
        split_spec(s, sep).len() >= 1,
        join_spec(split_spec(s, sep), sep) == s,
        forall|i: int|
            0 <= i < split_spec(s, sep).len() ==> !(#[trigger] split_spec(s, sep)[i]).contains(
                sep,
            ),
    decreases s.len(),
{
    if s.len() == 0 {
        assert(join_spec(split_spec(s, sep), sep) =~= s);
    } else {
        let init = split_spec(s.drop_last(), sep);
        lemma_split_join(s.drop_last(), sep);
        let all = split_spec(s, sep);
        if s.last() == sep {
            assert(all.drop_last() =~= init);
            assert(join_spec(all, sep) =~= s.drop_last() + seq![sep] + Seq::<char>::empty());
            assert(join_spec(all, sep) =~= s);
        } else {
            let head = init.drop_last();
            let tail = init.last().push(s.last());
            assert(all.drop_last() =~= head);
            assert(all.last() == tail);
            if init.len() == 1 {
                assert(join_spec(init, sep) == init[0]);
                assert(all.len() == 1);
                assert(all[0] == tail);
                assert(s =~= s.drop_last().push(s.last()));
                assert(join_spec(all, sep) =~= s);
            } else {
                assert(join_spec(init, sep) == join_spec(head, sep) + seq![sep] + init.last());
                assert(join_spec(all, sep) =~= join_spec(head, sep) + seq![sep] + tail);
                assert(s =~= s.drop_last().push(s.last()));
                assert(join_spec(all, sep) =~= s);
            }
            assert forall|i: int| 0 <= i < all.len() implies !(#[trigger] all[i]).contains(
                sep,
            ) by {
                if i < all.len() - 1 {
                    assert(all[i] == init[i]);
                } else {
                    assert(!init[i].contains(sep));
                    if all[i].contains(sep) {
                        let k = choose|k: int| 0 <= k < tail.len() && tail[k] == sep;
                        assert(init.last()[k] == sep);
                    }
                }
            }
        }
    }
}

/// Splits `s` at every `sep`: the pieces hold no separator, and joined by
/// the separator they give `s` back.
pub fn split(s: &str, sep: char) -> (pieces: Vec<String>)
    ensures
        pieces.deep_view() == split_spec(s@, sep),
        pieces.len() >= 1,
        join_spec(pieces.deep_view(), sep) == s@,
        forall|i: int| 0 <= i < pieces.len() ==> !(#[trigger] pieces.deep_view()[i]).contains(sep),
{
    proof {
        lemma_split_join(s@, sep);
    }
    let chars = chars_of(s);
    let n: usize = chars.len();
    let mut pieces: Vec<String> = Vec::new();
    let mut start: usize = 0;
    let mut i: usize = 0;
    while i < n
        invariant
            start <= i <= n,
            n == s@.len(),
            chars@ == s@,
            pieces.deep_view() == split_spec(s@.take(i as int), sep).drop_last(),
            s@.subrange(start as int, i as int) == split_spec(s@.take(i as int), sep).last(),
            split_spec(s@.take(i as int), sep).len() >= 1,
        decreases n - i,
    {
        let ghost before = split_spec(s@.take(i as int), sep);
        let ghost old_pieces = pieces.deep_view();
        proof {
            assert(s@.take(i as int + 1).drop_last() =~= s@.take(i as int));
            assert(s@.take(i as int + 1).last() == s@[i as int]);
        }
        if chars[i] == sep {
            let piece = s.substring_char(start, i).to_owned();
            pieces.push(piece);
            start = i + 1;
            proof {
                let after = split_spec(s@.take(i as int + 1), sep);
                assert(after == before.push(Seq::<char>::empty()));
                assert(after.drop_last() =~= before);
                assert(pieces.deep_view() =~= old_pieces.push(piece@));
                assert(before =~= old_pieces.push(piece@));
                assert(s@.subrange(start as int, i as int + 1) =~= Seq::<char>::empty());
            }
        } else {
            proof {
                let after = split_spec(s@.take(i as int + 1), sep);
                assert(after == before.drop_last().push(before.last().push(s@[i as int])));
                assert(after.drop_last() =~= before.drop_last());
                assert(s@.subrange(start as int, i as int + 1) =~= s@.subrange(
                    start as int,
                    i as int,
                ).push(s@[i as int]));
            }
        }
        i = i + 1;
    }
    let ghost done = pieces.deep_view();
    let piece = s.substring_char(start, n).to_owned();
    pieces.push(piece);
    proof {
        assert(s@.take(n as int) =~= s@);
        let all = split_spec(s@, sep);
        assert(pieces.deep_view() =~= done.push(piece@));
        assert(all =~= all.drop_last().push(all.last()));
    }
    pieces
}

/// The decimal digit for a value below ten.
pub open spec fn digit_spec(d: nat) -> char {
    if d == 0 {
        '0'
    } else if d == 1 {
        '1'
    } else if d == 2 {
        '2'
    } else if d == 3 {
        '3'
    } else if d == 4 {
        '4'
    } else if d == 5 {
        '5'
    } else if d == 6 {
        '6'
    } else if d == 7 {
        '7'
    } else if d == 8 {
        '8'
    } else {
        '9'
    }
}

/// The decimal numeral of `n`, without sign or leading zeros.
pub open spec fn decimal_spec(n: nat) -> Seq<char>
    decreases n,
{
    if n < 10 {
        seq![digit_spec(n)]
    } else {
        decimal_spec(n / 10).push(digit_spec(n % 10))
    }
}

fn digit(d: u64) -> (r: &'static str)
    requires
        d < 10,
    ensures
        r@ == seq![digit_spec(d as nat)],
{
    proof {
        reveal_strlit("0");
        reveal_strlit("1");
        reveal_strlit("2");
        reveal_strlit("3");
        reveal_strlit("4");
        reveal_strlit("5");
        reveal_strlit("6");
        reveal_strlit("7");
        reveal_strlit("8");
        reveal_strlit("9");
    }
    let r = if d == 0 {
        "0"
    } else if d == 1 {
        "1"
    } else if d == 2 {
        "2"
    } else if d == 3 {
        "3"
    } else if d == 4 {
        "4"
    } else if d == 5 {
        "5"
    } else if d == 6 {
        "6"
    } else if d == 7 {
        "7"
    } else if d == 8 {
        "8"
    } else {
        "9"
    };
    assert(r@ =~= seq![digit_spec(d as nat)]);
    r
}

/// Writes `n` in decimal.
pub fn decimal(n: u64) -> (r: String)
    ensures
        r@ == decimal_spec(n as nat),
    decreases n,
{
    if n < 10 {
        digit(n).to_owned()
    } else {
        let r = decimal(n / 10).concat(digit(n % 10));
        assert(r@ =~= decimal_spec(n as nat / 10).push(digit_spec(n as nat % 10)));
        r
    }
}

/// `a` followed by `b`.
pub fn concat2(a: &str, b: &str) -> (r: String)
    ensures
        r@ == a@ + b@,
{
    a.to_owned().concat(b)
}

/// `a`, `b` and `c` in a row.
pub fn concat3(a: &str, b: &str, c: &str) -> (r: String)
    ensures
        r@ == a@ + b@ + c@,
{
    a.to_owned().concat(b).concat(c)
}

/// Whether `s` begins with `c`.
pub fn starts_with_char(s: &str, c: char) -> (r: bool)
    ensures
        r == (s@.len() > 0 && s@[0] == c),
{
    !s.is_empty() && s.get_char(0) == c
}

} // verus!
