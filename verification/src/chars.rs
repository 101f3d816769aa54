//! Character-level helpers shared by the text-processing parts of the library: moving between
//! strings and character vectors, decimal and hexadecimal numerals, white space and UTF-8 widths.
use vstd::prelude::*;
use vstd::std_specs::iter::IteratorSpec;

verus! {

/// The characters of `s`, in order.
pub fn chars_of(s: &str) -> (v: Vec<char>)
    ensures
        v@ == s@,
{
    broadcast use vstd::string::axiom_spec_iter, vstd::string::next_postcondition;

    let mut v: Vec<char> = Vec::new();
    let mut it = s.chars();
    loop
        invariant
            it.obeys_prophetic_iter_laws(),
            v@ + it.remaining() == s@,
            it.decrease() is Some,
        decreases it.decrease()->0,
    {
        let ghost before = it.remaining();
        match it.next() {
            Some(c) => {
                v.push(c);
                assert(v@ + it.remaining() =~= s@);
            },
            None => {
                assert(v@ =~= s@);
                return v;
            },
        }
    }
}

/// The string made of the characters of `v`, in order.
#[verifier::external_body]
pub(crate) fn string_from_chars(v: &[char]) -> (s: String)
    ensures
        s@ == v@,
{
    v.iter().collect()
}

/// Whether `s` begins with `prefix`.
pub open spec fn starts_with(s: Seq<char>, prefix: Seq<char>) -> bool {
    prefix.len() <= s.len() && s.take(prefix.len() as int) == prefix
}

/// Whether `v[start..]` begins with `prefix`.
pub fn has_prefix_at(v: &Vec<char>, start: usize, prefix: &Vec<char>) -> (b: bool)
    requires
        start <= v@.len(),
    ensures
        b == starts_with(v@.skip(start as int), prefix@),
{
    if prefix.len() > v.len() - start {
        return false;
    }
    let n = v.len();
    let mut k: usize = 0;
    while k < prefix.len()
        invariant
            n == v@.len(),
            start <= v@.len(),
            start + prefix@.len() <= v@.len(),
            0 <= k <= prefix@.len(),
            forall|j: int| 0 <= j < k ==> v@[start + j] == prefix@[j],
        decreases prefix@.len() - k,
    {
        if v[start + k] != prefix[k] {
            assert(v@.skip(start as int).take(prefix@.len() as int)[k as int] != prefix@[k as int]);
            return false;
        }
        k += 1;
    }
    assert(v@.skip(start as int).take(prefix@.len() as int) =~= prefix@);
    true
}

/// Whether two character sequences are equal.
pub fn chars_equal(a: &Vec<char>, b: &Vec<char>) -> (r: bool)
    ensures
        r == (a@ == b@),
{
    if a.len() != b.len() {
        return false;
    }
    let mut k: usize = 0;
    while k < a.len()
        invariant
            a@.len() == b@.len(),
            0 <= k <= a@.len(),
            forall|j: int| 0 <= j < k ==> a@[j] == b@[j],
        decreases a@.len() - k,
    {
        if a[k] != b[k] {
            return false;
        }
        k += 1;
    }
    assert(a@ =~= b@);
    true
}

/// The number of bytes that `c` takes in UTF-8.
pub open spec fn utf8_width(c: char) -> nat {
    if (c as u32) < 0x80 {
        1
    } else if (c as u32) < 0x800 {
        2
    } else if (c as u32) < 0x10000 {
        3
    } else {
        4
    }
}

/// The number of bytes that `s` takes in UTF-8.
pub open spec fn utf8_len(s: Seq<char>) -> nat
    decreases s.len(),
{
    if s.len() == 0 {
        0
    } else {
        utf8_width(s[0]) + utf8_len(s.drop_first())
    }
}

/// Whether byte offset `n` of the UTF-8 encoding of `s` falls between two characters.
pub open spec fn is_boundary(s: Seq<char>, n: int) -> bool
    decreases s.len(),
{
    n == 0 || (s.len() > 0 && n >= utf8_width(s[0]) && is_boundary(s.drop_first(), n - utf8_width(s[0])))
}

/// The number of bytes that `c` takes in UTF-8.
pub fn char_utf8_width(c: char) -> (w: usize)
    ensures
        w == utf8_width(c),
{
    let u = c as u32;
    if u < 0x80 {
        1
    } else if u < 0x800 {
        2
    } else if u < 0x10000 {
        3
    } else {
        4
    }
}

/// Whether `c` has the Unicode `White_Space` property.
pub open spec fn is_white_space(c: char) -> bool {
    let u = c as u32;
    (0x09 <= u <= 0x0d) || u == 0x20 || u == 0x85 || u == 0xa0 || u == 0x1680 || (0x2000 <= u
        <= 0x200a) || u == 0x2028 || u == 0x2029 || u == 0x202f || u == 0x205f || u == 0x3000
}

/// Whether `c` has the Unicode `White_Space` property.
pub fn char_is_white_space(c: char) -> (b: bool)
    ensures
        b == is_white_space(c),
{
    let u = c as u32;
    (0x09 <= u && u <= 0x0d) || u == 0x20 || u == 0x85 || u == 0xa0 || u == 0x1680 || (0x2000
        <= u && u <= 0x200a) || u == 0x2028 || u == 0x2029 || u == 0x202f || u == 0x205f || u
        == 0x3000
}

/// The value of `c` as a digit in base `radix` (10 or 16), if it is one.
pub open spec fn digit_value(c: char, radix: nat) -> Option<nat> {
    if '0' <= c && c <= '9' && (c as nat) - ('0' as nat) < radix {
        Some(((c as nat) - ('0' as nat)) as nat)
    } else if radix == 16 && 'a' <= c && c <= 'f' {
        Some(((c as nat) - ('a' as nat) + 10) as nat)
    } else if radix == 16 && 'A' <= c && c <= 'F' {
        Some(((c as nat) - ('A' as nat) + 10) as nat)
    } else {
        None
    }
}

/// Whether every character of `s` is a digit in base `radix`.
pub open spec fn all_digits(s: Seq<char>, radix: nat) -> bool {
    forall|i: int| 0 <= i < s.len() ==> #[trigger] digit_value(s[i], radix) is Some
}

/// The number that the digits `s` write in base `radix`, most significant first.
pub open spec fn digits_value(s: Seq<char>, radix: nat) -> nat
    decreases s.len(),
{
    if s.len() == 0 {
        0
    } else {
        digits_value(s.drop_last(), radix) * radix + digit_value(s.last(), radix).unwrap_or(0)
    }
}

/// The digits of an unsigned numeral: the text after one optional leading `+`.
pub open spec fn unsigned_digits(s: Seq<char>) -> Seq<char> {
    if s.len() > 0 && s[0] == '+' {
        s.drop_first()
    } else {
        s
    }
}

/// The number that `s` writes as an unsigned numeral in base `radix` no larger than `max`:
/// an optional `+`, then at least one digit, nothing else. This is what the standard
/// library's unsigned `from_str_radix` accepts.
pub open spec fn unsigned_numeral(s: Seq<char>, radix: nat, max: nat) -> Option<nat> {
    let d = unsigned_digits(s);
    if d.len() > 0 && all_digits(d, radix) && digits_value(d, radix) <= max {
        Some(digits_value(d, radix))
    } else {
        None
    }
}

proof fn lemma_digits_value_grows(s: Seq<char>, radix: nat, n: int)
    requires
        radix >= 1,
        0 <= n <= s.len(),
    ensures
        digits_value(s.take(n), radix) <= digits_value(s, radix),
    decreases s.len() - n,
{
    if n < s.len() {
        lemma_digits_value_grows(s, radix, n + 1);
        assert(s.take(n + 1).drop_last() =~= s.take(n));
        let v = digits_value(s.take(n), radix);
        assert(v * radix >= v) by (nonlinear_arith)
            requires
                radix >= 1,
        ;
    } else {
        assert(s.take(n) =~= s);
    }
}

proof fn lemma_step_bound(acc: int, radix: int, d: int, max: int)
    requires
        radix > 0,
        0 <= d,
        d <= max,
        acc >= 0,
    ensures
        (acc <= (max - d) / radix) <==> (acc * radix + d <= max),
{
    assert((acc <= (max - d) / radix) <==> (acc * radix + d <= max)) by (nonlinear_arith)
        requires
            radix > 0,
            0 <= d,
            d <= max,
            acc >= 0,
    ;
}

/// The value of digit `c` in base `radix`, if it is one.
pub fn char_digit_value(c: char, radix: u64) -> (r: Option<u64>)
    requires
        radix == 10 || radix == 16,
    ensures
        r matches Some(v) ==> digit_value(c, radix as nat) == Some(v as nat),
        r is None ==> digit_value(c, radix as nat) is None,
{
    let u = c as u64;
    if '0' <= c && c <= '9' && u - ('0' as u64) < radix {
        Some(u - ('0' as u64))
    } else if radix == 16 && 'a' <= c && c <= 'f' {
        Some(u - ('a' as u64) + 10)
    } else if radix == 16 && 'A' <= c && c <= 'F' {
        Some(u - ('A' as u64) + 10)
    } else {
        None
    }
}

/// Reads `s` as an unsigned numeral in base `radix` (10 or 16) no larger than `max`: an
/// optional `+`, then only digits, at least one; `None` for anything else or a larger value.
pub fn parse_unsigned(s: &Vec<char>, radix: u64, max: u64) -> (r: Option<u64>)
    requires
        radix == 10 || radix == 16,
    ensures
        r matches Some(v) ==> unsigned_numeral(s@, radix as nat, max as nat) == Some(v as nat),
        r is None ==> unsigned_numeral(s@, radix as nat, max as nat) is None,
{
    let start: usize = if s.len() > 0 && s[0] == '+' {
        1
    } else {
        0
    };
    let ghost d = unsigned_digits(s@);
    assert(d =~= s@.skip(start as int));
    if start == s.len() {
        return None;
    }
    let mut acc: u64 = 0;
    let mut i: usize = start;
    while i < s.len()
        invariant
            radix == 10 || radix == 16,
            d == s@.skip(start as int),
            d == unsigned_digits(s@),
            start <= i <= s@.len(),
            all_digits(d.take(i - start), radix as nat),
            acc as nat == digits_value(d.take(i - start), radix as nat),
            acc <= max,
        decreases s@.len() - i,
    {
        let ghost pre = d.take(i - start);
        let ghost post = d.take(i - start + 1);
        assert(post.drop_last() =~= pre);
        assert(post.last() == s@[i as int]);
        match char_digit_value(s[i], radix) {
            None => {
                assert(digit_value(d[i - start], radix as nat) is None);
                return None;
            },
            Some(dv) => {
                if dv > max {
                    proof {
                        lemma_digits_value_grows(d, radix as nat, i - start + 1);
                        assert(digits_value(post, radix as nat) >= dv);
                    }
                    return None;
                }
                proof {
                    lemma_step_bound(acc as int, radix as int, dv as int, max as int);
                }
                if acc > (max - dv) / radix {
                    proof {
                        lemma_digits_value_grows(d, radix as nat, i - start + 1);
                    }
                    return None;
                }
                acc = acc * radix + dv;
                assert forall|j: int| 0 <= j < post.len() implies #[trigger] digit_value(
                    post[j],
                    radix as nat,
                ) is Some by {
                    if j < pre.len() {
                        assert(post[j] == pre[j]);
                    }
                }
            },
        }
        i += 1;
    }
    assert(d.take(i - start) =~= d);
    Some(acc)
}

/// The decimal digit character for `d`.
pub open spec fn decimal_digit_char(d: nat) -> char {
    ((d + ('0' as nat)) as u32) as char
}

/// The decimal numeral of `n`, without sign or leading zeros (`"0"` for zero).
pub open spec fn decimal_chars(n: nat) -> Seq<char>
    decreases n,
{
    if n < 10 {
        seq![decimal_digit_char(n)]
    } else {
        decimal_chars(n / 10).push(decimal_digit_char(n % 10))
    }
}

/// Appends the decimal numeral of `n` to `out`.
pub fn push_decimal(n: u64, out: &mut Vec<char>)
    ensures
        final(out)@ == old(out)@ + decimal_chars(n as nat),
    decreases n,
{
    if n >= 10 {
        push_decimal(n / 10, out);
    }
    let d = (n % 10) as u32;
    let c = char_from_digit(d);
    out.push(c);
    proof {
        if n >= 10 {
            assert(decimal_chars(n as nat) == decimal_chars((n / 10) as nat).push(
                decimal_digit_char((n % 10) as nat),
            ));
        }
    }
}

fn char_from_digit(d: u32) -> (c: char)
    requires
        d < 10,
    ensures
        c == decimal_digit_char(d as nat),
{
    if d == 0 {
        '0'
    } else if d == 1 {
        '1'
    } else if d == 2 {
        '2'
    } else if d == 3 {
        '3'
    } else if d == 4 {
        '4'
    } else if d == 5 {
        '5'
    } else if d == 6 {
        '6'
    } else if d == 7 {
        '7'
    } else if d == 8 {
        '8'
    } else {
        '9'
    }
}

} // verus!
