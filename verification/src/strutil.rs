use vstd::prelude::*;

verus! {

/// Relies on std's `String::push`: appends the given character to the end of
/// the string.
#[verifier::external_body]
pub fn push_char(s: &mut String, c: char)
    ensures
        final(s)@ == old(s)@.push(c),
{
    s.push(c)
}

/// Copies the characters of a string slice into an owned `String`.
pub fn str_to_string(s: &str) -> (r: String)
    ensures
        r@ == s@,
{
    String::from_str(s)
}


/// The decimal digits of `n`, most significant first.
pub open spec fn dec_of(n: int) -> Seq<char>
    decreases n,
{
    if n <= 0 {
        Seq::empty()
    } else {
        dec_of(n / 10).push(digit_char(n % 10))
    }
}

/// The character for one decimal digit.
pub open spec fn digit_char(d: int) -> char {
    if d == 0 { '0' }
    else if d == 1 { '1' }
    else if d == 2 { '2' }
    else if d == 3 { '3' }
    else if d == 4 { '4' }
    else if d == 5 { '5' }
    else if d == 6 { '6' }
    else if d == 7 { '7' }
    else if d == 8 { '8' }
    else { '9' }
}

/// The decimal text of a number: its digits, or "0" for zero.
pub open spec fn dec_text(n: int) -> Seq<char> {
    if n == 0 {
        seq!['0']
    } else {
        dec_of(n)
    }
}

/// Formats a number in decimal.
pub fn usize_to_dec(n: usize) -> (r: String)
    ensures
        r@ == dec_text(n as int),
{
    if n == 0 {
        let mut s = String::new();
        push_char(&mut s, '0');
        proof {
            assert(s@ =~= seq!['0']);
        }
        return s;
    }
    let mut digits: Vec<char> = Vec::new();
    let mut m = n;
    while m > 0
        invariant
            m <= n,
            dec_of(n as int) == dec_of(m as int) + digits@,
        decreases m,
    {
        let d = m % 10;
        let c: char = if d == 0 { '0' }
        else if d == 1 { '1' }
        else if d == 2 { '2' }
        else if d == 3 { '3' }
        else if d == 4 { '4' }
        else if d == 5 { '5' }
        else if d == 6 { '6' }
        else if d == 7 { '7' }
        else if d == 8 { '8' }
        else { '9' };
        let ghost gm = m as int;
        let ghost gd = digits@;
        digits.insert(0, c);
        m = m / 10;
        proof {
            assert(c == digit_char(gm % 10));
            assert(dec_of(gm) == dec_of(gm / 10).push(digit_char(gm % 10)));
            assert(digits@ =~= seq![digit_char(gm % 10)] + gd);
            assert(dec_of(gm / 10).push(digit_char(gm % 10)) + gd =~= dec_of(gm / 10) + (seq![
                digit_char(gm % 10),
            ] + gd));
        }
    }
    proof {
        assert(dec_of(0) + digits@ =~= digits@);
    }
    let mut s = String::new();
    let mut i: usize = 0;
    while i < digits.len()
        invariant
            i <= digits@.len(),
            s@ == digits@.subrange(0, i as int),
        decreases digits@.len() - i,
    {
        push_char(&mut s, digits[i]);
        proof {
            assert(s@ =~= digits@.subrange(0, i as int + 1));
        }
        i = i + 1;
    }
    proof {
        assert(digits@.subrange(0, digits@.len() as int) =~= digits@);
    }
    s
}

/// A run of `n` spaces.
pub open spec fn spaces(n: int) -> Seq<char>
    decreases n,
{
    if n <= 0 {
        Seq::empty()
    } else {
        spaces(n - 1).push(' ')
    }
}

/// Builds a run of `n` spaces.
pub fn blank(n: usize) -> (r: String)
    ensures
        r@ == spaces(n as int),
{
    let mut s = String::new();
    let mut i: usize = 0;
    while i < n
        invariant
            i <= n,
            s@ == spaces(i as int),
        decreases n - i,
    {
        push_char(&mut s, ' ');
        i = i + 1;
    }
    s
}


/// Whether `p` is a prefix of `s`.
pub open spec fn spec_has_prefix(s: Seq<char>, p: Seq<char>) -> bool {
    p.len() <= s.len() && s.subrange(0, p.len() as int) == p
}

/// Tests whether `p` is a prefix of `s`.
pub fn has_prefix(s: &str, p: &str) -> (r: bool)
    ensures
        r == spec_has_prefix(s@, p@),
{
    let n = s.unicode_len();
    let m = p.unicode_len();
    if m > n {
        proof {
            assert(!spec_has_prefix(s@, p@));
        }
        return false;
    }
    let mut i: usize = 0;
    while i < m
        invariant
            i <= m <= n,
            n == s@.len(),
            m == p@.len(),
            forall|j: int| 0 <= j < i ==> s@[j] == p@[j],
        decreases m - i,
    {
        if s.get_char(i) != p.get_char(i) {
            proof {
                assert(s@.subrange(0, m as int)[i as int] != p@[i as int]);
            }
            return false;
        }
        i = i + 1;
    }
    proof {
        assert(s@.subrange(0, m as int) =~= p@);
    }
    true
}

} // verus!
