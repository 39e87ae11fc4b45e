//! Character-sequence utilities shared by the PAC generator, the JSON codec
//! and the parsers: conversions between `String` and `Vec<char>`, decimal
//! rendering of ports, and splitting on a separator character.

use vstd::prelude::*;
use vstd::std_specs::iter::IteratorSpec;

verus! {

broadcast use vstd::string::group_string_axioms;

/// Relies on `core::iter::Iterator::collect` building a `String` from the
/// characters of the vector, in order.
#[verifier::external_body]
pub fn string_from_chars(v: &Vec<char>) -> (r: String)
    ensures
        r@ == v@,
{
    v.iter().collect()
}

/// Appends every character of `s` to `buf`, in order.
pub fn push_str_chars(buf: &mut Vec<char>, s: &str)
    ensures
        final(buf)@ == old(buf)@ + s@,
{
    let mut it = s.chars();
    let ghost mut taken: Seq<char> = Seq::empty();
    proof {
        assert(taken + it.remaining() =~= s@);
    }
    loop
        invariant
            buf@ == old(buf)@ + taken,
            taken + it.remaining() == s@,
            taken.len() <= s@.len(),
        ensures
            buf@ == old(buf)@ + s@,
        decreases s@.len() - taken.len(),
    {
        match it.next() {
            Some(c) => {
                buf.push(c);
                proof {
                    taken = taken.push(c);
                    assert(taken + it.remaining() =~= s@);
                    assert(buf@ =~= old(buf)@ + taken);
                }
            },
            None => {
                proof {
                    assert(it.remaining() =~= Seq::<char>::empty());
                    assert(taken =~= s@);
                }
                break;
            },
        }
    }
}

/// The characters of `s`, as a vector.
pub fn chars_of(s: &str) -> (r: Vec<char>)
    ensures
        r@ == s@,
{
    let mut v: Vec<char> = Vec::new();
    push_str_chars(&mut v, s);
    v
}

/// String-slice equality, decided by the character sequences.
pub fn str_eq(a: &str, b: &str) -> (r: bool)
    ensures
        r == (a@ == b@),
{
    let sa: String = a.to_owned();
    let sb: String = b.to_owned();
    sa == sb
}

/// The character for a single decimal digit.
pub open spec fn digit_char(d: nat) -> char {
    ((48 + d) as u8) as char
}

/// Whether `c` is an ASCII decimal digit.
pub open spec fn is_digit(c: char) -> bool {
    48 <= c as u32 && c as u32 <= 57
}

/// The value of an ASCII decimal digit character.
pub open spec fn digit_val(c: char) -> nat {
    (c as u32 - 48) as nat
}

/// The decimal rendering of `n`, most significant digit first, without
/// leading zeros (`0` renders as the single digit `0`).
pub open spec fn dec_digits(n: nat) -> Seq<char>
    decreases n,
{
    if n < 10 {
        seq![digit_char(n)]
    } else {
        dec_digits(n / 10).push(digit_char(n % 10))
    }
}

/// The number denoted by a sequence of decimal digit characters.
pub open spec fn val_of_digits(ds: Seq<char>) -> nat
    decreases ds.len(),
{
    if ds.len() == 0 {
        0
    } else {
        val_of_digits(ds.drop_last()) * 10 + digit_val(ds.last())
    }
}

/// Every character of a decimal rendering is a digit, the rendering is
/// nonempty, it starts with `0` only for the number zero, and reading it
/// back yields the number.
pub proof fn lemma_dec_digits(n: nat)
    ensures
        dec_digits(n).len() >= 1,
        forall|i: int| 0 <= i < dec_digits(n).len() ==> is_digit(#[trigger] dec_digits(n)[i]),
        dec_digits(n)[0] == digit_char(0) <==> n == 0,
        digit_val(dec_digits(n)[0]) == 0 <==> n == 0,
        val_of_digits(dec_digits(n)) == n,
    decreases n,
{
    if n < 10 {
        assert(dec_digits(n) =~= seq![digit_char(n)]);
        assert(dec_digits(n).drop_last() =~= Seq::<char>::empty());
        assert(val_of_digits(Seq::<char>::empty()) == 0);
        assert(digit_val(digit_char(n)) == n);
        assert(val_of_digits(dec_digits(n)) == digit_val(digit_char(n)));
    } else {
        lemma_dec_digits(n / 10);
        let pre = dec_digits(n / 10);
        let whole = dec_digits(n);
        assert(whole =~= pre.push(digit_char(n % 10)));
        assert(whole.drop_last() =~= pre);
        assert(whole.last() == digit_char(n % 10));
        assert(val_of_digits(whole) == val_of_digits(pre) * 10 + digit_val(digit_char(n % 10)));
        assert(digit_val(digit_char(n % 10)) == n % 10);
        assert(val_of_digits(whole) == (n / 10) * 10 + n % 10);
        assert((n / 10) * 10 + n % 10 == n) by (nonlinear_arith);
        assert(whole[0] == pre[0]);
    }
}

/// Appends the decimal rendering of `n` to `buf`.
pub fn push_u16(buf: &mut Vec<char>, n: u16)
    ensures
        final(buf)@ == old(buf)@ + dec_digits(n as nat),
    decreases n,
{
    if n < 10 {
        buf.push((48u8 + (n as u8)) as char);
        proof {
            assert(buf@ =~= old(buf)@ + dec_digits(n as nat));
        }
    } else {
        push_u16(buf, n / 10);
        buf.push((48u8 + ((n % 10) as u8)) as char);
        proof {
            assert(buf@ =~= old(buf)@ + dec_digits(n as nat));
        }
    }
}

/// A digit sequence denotes at least as much as any of its prefixes.
pub proof fn lemma_val_prefix(ds: Seq<char>, i: int)
    requires
        0 <= i <= ds.len(),
    ensures
        val_of_digits(ds.take(i)) <= val_of_digits(ds),
    decreases ds.len() - i,
{
    if i == ds.len() {
        assert(ds.take(i) =~= ds);
    } else {
        lemma_val_prefix(ds, i + 1);
        assert(ds.take(i + 1).drop_last() =~= ds.take(i));
        assert(val_of_digits(ds.take(i + 1)) == val_of_digits(ds.take(i)) * 10 + digit_val(
            ds.take(i + 1).last(),
        ));
    }
}

/// Splitting `s` on the separator `sep`, with `cur` the part accumulated so
/// far: the parts between separators, in order.  A leading, trailing or
/// doubled separator yields an empty part.
pub open spec fn split_acc(s: Seq<char>, sep: char, cur: Seq<char>) -> Seq<Seq<char>>
    decreases s.len(),
{
    if s.len() == 0 {
        seq![cur]
    } else if s[0] == sep {
        seq![cur] + split_acc(s.skip(1), sep, Seq::empty())
    } else {
        split_acc(s.skip(1), sep, cur.push(s[0]))
    }
}

/// The parts of `s` between occurrences of `sep`, in order.
pub open spec fn split_on(s: Seq<char>, sep: char) -> Seq<Seq<char>> {
    split_acc(s, sep, Seq::empty())
}

/// Splits the characters of `s` on `sep`.
pub fn split_chars(s: &Vec<char>, sep: char) -> (r: Vec<Vec<char>>)
    ensures
        r.deep_view() == split_on(s@, sep),
{
    let mut parts: Vec<Vec<char>> = Vec::new();
    let mut cur: Vec<char> = Vec::new();
    let mut i: usize = 0;
    proof {
        assert(parts.deep_view() =~~= Seq::<Seq<char>>::empty());
        assert(s@.skip(0) =~= s@);
        assert(Seq::<Seq<char>>::empty() + split_acc(s@, sep, cur@) =~= split_acc(s@, sep, cur@));
    }
    while i < s.len()
        invariant
            i <= s.len(),
            split_on(s@, sep) == parts.deep_view() + split_acc(s@.skip(i as int), sep, cur@),
        decreases s.len() - i,
    {
        let c = s[i];
        proof {
            assert(s@.skip(i as int)[0] == s@[i as int]);
            assert(s@.skip(i as int).skip(1) =~= s@.skip(i as int + 1));
        }
        if c == sep {
            let ghost before = parts.deep_view();
            let ghost done = cur@;
            parts.push(cur);
            cur = Vec::new();
            proof {
                assert(parts.deep_view() =~~= before.push(done));
                assert(before.push(done) + split_acc(s@.skip(i as int + 1), sep, cur@) =~= before
                    + (seq![done] + split_acc(s@.skip(i as int + 1), sep, cur@)));
            }
        } else {
            cur.push(c);
        }
        i = i + 1;
        proof {
            assert(split_on(s@, sep) == parts.deep_view() + split_acc(
                s@.skip(i as int),
                sep,
                cur@,
            ));
        }
    }
    proof {
        assert(s@.skip(s@.len() as int) =~= Seq::<char>::empty());
        assert(split_acc(Seq::<char>::empty(), sep, cur@) =~= seq![cur@]);
    }
    let ghost before = parts.deep_view();
    let ghost done = cur@;
    parts.push(cur);
    proof {
        assert(parts.deep_view() =~~= before.push(done));
        assert(before.push(done) =~= before + seq![done]);
        assert(parts.deep_view() =~= split_on(s@, sep));
    }
    parts
}

} // verus!
