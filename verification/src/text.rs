//! Character and string primitives from std that the library builds on.

use vstd::prelude::*;
use vstd::utf8::{decode_utf8, valid_utf8};

verus! {

/// What `char::to_lowercase` yields for a non-ASCII character, collected
/// into a sequence (the Unicode lowercase mapping).
pub uninterp spec fn unicode_lowercase(c: char) -> Seq<char>;

/// What `char::to_uppercase` yields for a non-ASCII character, collected
/// into a sequence (the Unicode uppercase mapping).
pub uninterp spec fn unicode_uppercase(c: char) -> Seq<char>;

/// Lowercase mapping of a character: ASCII by the ASCII table, the rest by
/// the Unicode mapping.
pub open spec fn spec_char_lowercase(c: char) -> Seq<char> {
    if is_ascii_upper(c) {
        seq![((c as u32) + 32) as char]
    } else if (c as u32) < 128 {
        seq![c]
    } else {
        unicode_lowercase(c)
    }
}

/// Uppercase mapping of a character: ASCII by the ASCII table, the rest by
/// the Unicode mapping.
pub open spec fn spec_char_uppercase(c: char) -> Seq<char> {
    if is_ascii_lower(c) {
        seq![((c as u32) - 32) as char]
    } else if (c as u32) < 128 {
        seq![c]
    } else {
        unicode_uppercase(c)
    }
}

/// ASCII uppercase letter.
pub open spec fn is_ascii_upper(c: char) -> bool {
    'A' <= c && c <= 'Z'
}

/// ASCII lowercase letter.
pub open spec fn is_ascii_lower(c: char) -> bool {
    'a' <= c && c <= 'z'
}

/// Calls `char::to_lowercase` and collects the characters it yields.
/// Claimed: ASCII characters map by the ASCII table (one character), other
/// characters by their Unicode mapping, which is never empty.
#[verifier::external_body]
pub fn char_lowercase(c: char) -> (r: String)
    ensures
        r@ == spec_char_lowercase(c),
        (c as u32) >= 128 ==> r@ == unicode_lowercase(c),
        r@.len() >= 1,
{
    c.to_lowercase().collect()
}

/// Calls `char::to_uppercase` and collects the characters it yields.
/// Claimed: ASCII characters map by the ASCII table (one character), other
/// characters by their Unicode mapping, which is never empty.
#[verifier::external_body]
pub fn char_uppercase(c: char) -> (r: String)
    ensures
        r@ == spec_char_uppercase(c),
        (c as u32) >= 128 ==> r@ == unicode_uppercase(c),
        r@.len() >= 1,
{
    c.to_uppercase().collect()
}

/// Calls `String::push`: appends one character.
#[verifier::external_body]
pub fn push_char(s: &mut String, c: char)
    ensures
        final(s)@ == old(s)@.push(c),
{
    s.push(c)
}

} // verus!

verus! {

/// The characters of `s`, in order.
pub fn chars_of(s: &str) -> (r: Vec<char>)
    ensures
        r@ == s@,
{
    let mut v: Vec<char> = Vec::new();
    for c in it: s.chars()
        invariant
            it.seq() == s@,
            v@ == s@.take(it.index() as int),
    {
        proof {
            assert(s@.take(it.index() + 1) =~= s@.take(it.index() as int).push(c));
        }
        v.push(c);
    }
    proof {
        assert(s@.take(s@.len() as int) =~= s@);
    }
    v
}

/// Appends every character of `cs[from..to]` to `out`.
pub fn push_chars(out: &mut String, cs: &Vec<char>, from: usize, to: usize)
    requires
        from <= to <= cs@.len(),
    ensures
        final(out)@ == old(out)@ + cs@.subrange(from as int, to as int),
{
    let mut i = from;
    while i < to
        invariant
            from <= i <= to <= cs@.len(),
            out@ == old(out)@ + cs@.subrange(from as int, i as int),
        decreases to - i,
    {
        push_char(out, cs[i]);
        proof {
            assert(cs@.subrange(from as int, i + 1) =~= cs@.subrange(from as int, i as int).push(cs@[i as int]));
        }
        i = i + 1;
    }
}

/// Whether two strings hold the same characters.
pub fn str_eq(a: &str, b: &str) -> (r: bool)
    ensures
        r == (a@ == b@),
{
    let x = chars_of(a);
    let y = chars_of(b);
    chars_eq(&x, &y)
}

/// Whether two character vectors are equal.
pub fn chars_eq(x: &Vec<char>, y: &Vec<char>) -> (r: bool)
    ensures
        r == (x@ == y@),
{
    if x.len() != y.len() {
        return false;
    }
    let mut i: usize = 0;
    while i < x.len()
        invariant
            x@.len() == y@.len(),
            i <= x@.len(),
            x@.take(i as int) == y@.take(i as int),
        decreases x@.len() - i,
    {
        if x[i] != y[i] {
            assert(x@[i as int] != y@[i as int]);
            return false;
        }
        proof {
            assert(x@.take(i + 1) =~= x@.take(i as int).push(x@[i as int]));
            assert(y@.take(i + 1) =~= y@.take(i as int).push(y@[i as int]));
        }
        i = i + 1;
    }
    proof {
        assert(x@.take(x@.len() as int) =~= x@);
        assert(y@.take(y@.len() as int) =~= y@);
    }
    true
}

/// ASCII decimal digit.
pub open spec fn is_digit(c: char) -> bool {
    '0' <= c && c <= '9'
}

/// Value of a decimal digit.
pub open spec fn digit_value(c: char) -> nat {
    ((c as u32) - 48) as nat
}

/// Value of a string of decimal digits.
pub open spec fn digits_value(d: Seq<char>) -> nat
    decreases d.len(),
{
    if d.len() == 0 {
        0
    } else {
        digits_value(d.drop_last()) * 10 + digit_value(d.last())
    }
}

/// Law: the decimal representation of `n` is one or more digits that read
/// back as `n`.
pub proof fn lemma_decimal_reads_back(n: nat)
    ensures
        spec_decimal(n).len() > 0,
        forall|i: int| 0 <= i < spec_decimal(n).len() ==> is_digit(#[trigger] spec_decimal(n)[i]),
        digits_value(spec_decimal(n)) == n,
    decreases n,
{
    let d = n % 10;
    assert(d < 10);
    let c = digit_char(d);
    assert(((48 + d) as u8) as char == c);
    assert((c as u32) == 48 + d) by {
        assert(((48 + d) as u8) as u32 == 48 + d);
    }
    assert(digit_value(c) == d);
    if n < 10 {
        let s = seq![c];
        assert(s.drop_last() =~= Seq::<char>::empty());
        assert(s.last() == c);
        assert(digits_value(Seq::<char>::empty()) == 0);
        assert(digits_value(s) == digits_value(s.drop_last()) * 10 + digit_value(s.last()));
        assert(spec_decimal(n) == s);
    } else {
        lemma_decimal_reads_back(n / 10);
        let p = spec_decimal(n / 10);
        let s = p.push(c);
        assert(s.drop_last() =~= p);
        assert(s.last() == c);
        assert forall|i: int| 0 <= i < s.len() implies is_digit(#[trigger] s[i]) by {
            if i < p.len() {
                assert(s[i] == p[i]);
            }
        }
        assert(n == (n / 10) * 10 + d);
        assert(digits_value(s) == digits_value(s.drop_last()) * 10 + digit_value(s.last()));
        assert(spec_decimal(n) == s);
    }
}

/// Law: the decimal representation of an integer is a `-` for a negative
/// number, then one or more digits that read back as its magnitude; `0`
/// is written `0`.
pub proof fn lemma_signed_decimal_reads_back(n: int)
    ensures
        exists|d: Seq<char>| #![auto]
            d.len() > 0
            && (forall|i: int| 0 <= i < d.len() ==> is_digit(#[trigger] d[i]))
            && digits_value(d) == (if n < 0 { -n } else { n })
            && spec_signed_decimal(n) == (if n < 0 { seq!['-'] } else { Seq::<char>::empty() }) + d,
        n == 0 ==> spec_signed_decimal(n) == seq!['0'],
{
    let m: nat = if n < 0 { (-n) as nat } else { n as nat };
    lemma_decimal_reads_back(m);
    let d = spec_decimal(m);
    if n < 0 {
        assert(spec_signed_decimal(n) == seq!['-'] + d);
    } else {
        assert(spec_signed_decimal(n) =~= Seq::<char>::empty() + d);
    }
    if n == 0 {
        assert(digit_char(0) == '0');
    }
}

/// Decimal digit character for `d < 10`.
pub open spec fn digit_char(d: nat) -> char {
    ((48 + d) as u8) as char
}

/// Decimal representation of `n`, without leading zeros.
pub open spec fn spec_decimal(n: nat) -> Seq<char>
    decreases n,
{
    if n < 10 {
        seq![digit_char(n)]
    } else {
        spec_decimal(n / 10).push(digit_char(n % 10))
    }
}

/// Decimal representation of a signed integer: a minus sign before the
/// magnitude when negative.
pub open spec fn spec_signed_decimal(n: int) -> Seq<char> {
    if n < 0 {
        seq!['-'] + spec_decimal((-n) as nat)
    } else {
        spec_decimal(n as nat)
    }
}

/// Appends the decimal representation of `n` to `out`.
pub fn push_decimal(out: &mut String, n: u64)
    ensures
        final(out)@ == old(out)@ + spec_decimal(n as nat),
    decreases n,
{
    if n >= 10 {
        push_decimal(out, n / 10);
    }
    let d = (n % 10) as u8;
    push_char(out, (48u8 + d) as char);
    proof {
        if n >= 10 {
            assert(old(out)@ + spec_decimal(n as nat) =~= old(out)@ + spec_decimal((n / 10) as nat) + seq![digit_char((n % 10) as nat)]);
        } else {
            assert(old(out)@ + spec_decimal(n as nat) =~= old(out)@ + seq![digit_char((n % 10) as nat)]);
        }
    }
}

/// Appends the decimal representation of a signed 32-bit integer.
pub fn push_signed_decimal(out: &mut String, n: i32)
    ensures
        final(out)@ == old(out)@ + spec_signed_decimal(n as int),
{
    if n < 0 {
        push_char(out, '-');
        let m: i64 = -(n as i64);
        push_decimal(out, m as u64);
        proof {
            assert(old(out)@ + spec_signed_decimal(n as int) =~= old(out)@.push('-') + spec_decimal((-n) as nat));
        }
    } else {
        push_decimal(out, n as u64);
    }
}

/// ASCII lowercase of one character; other characters are unchanged.
pub open spec fn ascii_lower_char(c: char) -> char {
    if is_ascii_upper(c) {
        ((c as u32) + 32) as char
    } else {
        c
    }
}

/// `to_ascii_lowercase` of a sequence of characters.
pub open spec fn spec_ascii_lowercase(s: Seq<char>) -> Seq<char> {
    s.map_values(|c: char| ascii_lower_char(c))
}

/// `pat` occurs in `s` at position `i`.
pub open spec fn occurs_at(s: Seq<char>, pat: Seq<char>, i: int) -> bool {
    0 <= i && i + pat.len() <= s.len() && s.subrange(i, i + pat.len()) == pat
}

/// First position at or after `i` at which `pat` occurs in `s`.
pub open spec fn find_from(s: Seq<char>, pat: Seq<char>, i: int) -> Option<int>
    decreases s.len() + 1 - i,
{
    if i < 0 || i + pat.len() > s.len() {
        None
    } else if occurs_at(s, pat, i) {
        Some(i)
    } else {
        find_from(s, pat, i + 1)
    }
}

/// First position at which `pat` occurs in `s`.
pub open spec fn spec_find(s: Seq<char>, pat: Seq<char>) -> Option<int> {
    find_from(s, pat, 0)
}

/// What `find_from` returns is an occurrence at or after `k`.
pub proof fn lemma_find_from_occurs(s: Seq<char>, pat: Seq<char>, k: int)
    requires
        find_from(s, pat, k) is Some,
    ensures
        occurs_at(s, pat, find_from(s, pat, k)->0),
        find_from(s, pat, k)->0 >= k,
    decreases s.len() + 1 - k,
{
    if k >= 0 && k + pat.len() <= s.len() && !occurs_at(s, pat, k) {
        lemma_find_from_occurs(s, pat, k + 1);
    }
}

/// Finds the first occurrence of `pat` in `s`.
pub fn find_chars(s: &Vec<char>, pat: &Vec<char>) -> (r: Option<usize>)
    ensures
        match r {
            Some(i) => spec_find(s@, pat@) == Some(i as int),
            None => spec_find(s@, pat@) is None,
        },
{
    if pat.len() > s.len() {
        return None;
    }
    let last = s.len() - pat.len();
    let mut i: usize = 0;
    loop
        invariant
            last == s@.len() - pat@.len(),
            pat@.len() <= s@.len(),
            i <= last,
            spec_find(s@, pat@) == find_from(s@, pat@, i as int),
        decreases last - i,
    {
        let mut k: usize = 0;
        let mut matched = true;
        while k < pat.len()
            invariant
                i <= last,
                last == s@.len() - pat@.len(),
                pat@.len() <= s@.len(),
                k <= pat@.len(),
                matched ==> s@.subrange(i as int, i + k) == pat@.take(k as int),
                !matched ==> !occurs_at(s@, pat@, i as int),
            decreases pat@.len() - k,
        {
            assert(i + k < s.len());
            if matched {
                if s[i + k] != pat[k] {
                    matched = false;
                    proof {
                        if occurs_at(s@, pat@, i as int) {
                            assert(s@.subrange(i as int, i + pat@.len())[k as int] == s@[i + k]);
                        }
                    }
                } else {
                    proof {
                        assert(s@.subrange(i as int, i + k + 1) =~= s@.subrange(i as int, i + k).push(s@[i + k]));
                        assert(pat@.take(k + 1) =~= pat@.take(k as int).push(pat@[k as int]));
                    }
                }
            }
            k = k + 1;
        }
        if matched {
            proof {
                assert(pat@.take(pat@.len() as int) =~= pat@);
            }
            return Some(i);
        }
        if i == last {
            proof {
                assert(find_from(s@, pat@, i + 1) is None);
            }
            return None;
        }
        i = i + 1;
    }
}

/// Whether `s` begins with `p`.
pub open spec fn starts_with(s: Seq<char>, p: Seq<char>) -> bool {
    p.len() <= s.len() && s.take(p.len() as int) == p
}

pub fn str_starts_with(s: &str, p: &str) -> (r: bool)
    ensures
        r == starts_with(s@, p@),
{
    let sc = chars_of(s);
    let pc = chars_of(p);
    if pc.len() > sc.len() {
        return false;
    }
    let mut i: usize = 0;
    while i < pc.len()
        invariant
            sc@ == s@,
            pc@ == p@,
            pc@.len() <= sc@.len(),
            i <= pc@.len(),
            sc@.take(i as int) == pc@.take(i as int),
        decreases pc@.len() - i,
    {
        if sc[i] != pc[i] {
            proof {
                if starts_with(s@, p@) {
                    let t = sc@.take(pc@.len() as int);
                    assert(t == pc@);
                    assert(t[i as int] == sc@[i as int]);
                    assert(false);
                }
            }
            return false;
        }
        proof {
            assert(sc@.take(i + 1) =~= sc@.take(i as int).push(sc@[i as int]));
            assert(pc@.take(i + 1) =~= pc@.take(i as int).push(pc@[i as int]));
        }
        i = i + 1;
    }
    proof {
        assert(pc@.take(pc@.len() as int) =~= pc@);
    }
    true
}

/// What `String::from_utf8_lossy` gives for bytes that are not valid UTF-8.
pub uninterp spec fn lossy_utf8(bytes: Seq<u8>) -> Seq<char>;

/// Calls `String::from_utf8_lossy` and takes the text it gives.
/// Claimed: valid UTF-8 decodes exactly; other input gives the named text.
#[verifier::external_body]
pub fn utf8_lossy(bytes: &[u8]) -> (r: String)
    ensures
        valid_utf8(bytes@) ==> r@ == decode_utf8(bytes@),
        !valid_utf8(bytes@) ==> r@ == lossy_utf8(bytes@),
{
    String::from_utf8_lossy(bytes).into_owned()
}

/// Text of bytes as `String::from_utf8_lossy` reads them.
pub open spec fn spec_lossy_text(bytes: Seq<u8>) -> Seq<char> {
    if valid_utf8(bytes) {
        decode_utf8(bytes)
    } else {
        lossy_utf8(bytes)
    }
}

} // verus!
