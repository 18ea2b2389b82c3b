//! Text as sequences of characters: the few string operations the other
//! modules are built from, each with an exact statement of its result.

use vstd::prelude::*;
use vstd::string::StringExecFns;

verus! {

/// `String::push` appends one character at the end and changes nothing else.
pub assume_specification[ String::push ](s: &mut String, c: char)
    ensures
        final(s)@ == old(s)@.push(c),
;

/// The characters of `s`, in order.
pub fn chars_of(s: &str) -> (r: Vec<char>)
    ensures
        r@ == s@,
{
    let mut out: Vec<char> = Vec::new();
    for c in iter: s.chars()
        invariant
            out@ == iter.seq().take(iter.index() as int),
            iter.seq() == s@,
    {
        proof {
            assert(iter.seq().take(iter.index() + 1) =~= iter.seq().take(iter.index() as int).push(c));
        }
        out.push(c);
    }
    out
}

/// The string made of the characters `cs[from..to]`.
pub fn string_of(cs: &[char], from: usize, to: usize) -> (r: String)
    requires
        from <= to <= cs@.len(),
    ensures
        r@ == cs@.subrange(from as int, to as int),
{
    let mut out = String::new();
    let mut i: usize = from;
    while i < to
        invariant
            from <= i <= to <= cs@.len(),
            out@ == cs@.subrange(from as int, i as int),
        decreases to - i,
    {
        out.push(cs[i]);
        proof {
            assert(cs@.subrange(from as int, i + 1) =~= cs@.subrange(from as int, i as int).push(
                cs@[i as int],
            ));
        }
        i = i + 1;
    }
    out
}

/// Whether `a` and `b` hold the same characters.
pub fn same_text(a: &str, b: &str) -> (r: bool)
    ensures
        r == (a@ == b@),
{
    let x: String = a.to_owned();
    let y: String = b.to_owned();
    x == y
}

/// The characters with the Unicode property `White_Space`.
pub open spec fn is_space(c: char) -> bool {
    let v = c as u32;
    ||| 0x09 <= v <= 0x0d
    ||| v == 0x20
    ||| v == 0x85
    ||| v == 0xa0
    ||| v == 0x1680
    ||| 0x2000 <= v <= 0x200a
    ||| v == 0x2028
    ||| v == 0x2029
    ||| v == 0x202f
    ||| v == 0x205f
    ||| v == 0x3000
}

/// Whether `c` is white space.
pub fn space(c: char) -> (r: bool)
    ensures
        r == is_space(c),
{
    let v: u32 = c as u32;
    (0x09 <= v && v <= 0x0d) || v == 0x20 || v == 0x85 || v == 0xa0 || v == 0x1680 || (0x2000 <= v
        && v <= 0x200a) || v == 0x2028 || v == 0x2029 || v == 0x202f || v == 0x205f || v == 0x3000
}

/// `s` without its leading white space.
pub open spec fn trim_left(s: Seq<char>) -> Seq<char>
    decreases s.len(),
{
    if s.len() > 0 && is_space(s[0]) {
        trim_left(s.drop_first())
    } else {
        s
    }
}

/// `s` without its trailing white space.
pub open spec fn trim_right(s: Seq<char>) -> Seq<char>
    decreases s.len(),
{
    if s.len() > 0 && is_space(s.last()) {
        trim_right(s.drop_last())
    } else {
        s
    }
}

/// `s` without the white space at either end.
pub open spec fn trimmed(s: Seq<char>) -> Seq<char> {
    trim_right(trim_left(s))
}

/// `s` without the white space at either end.
pub fn trim(s: &str) -> (r: String)
    ensures
        r@ == trimmed(s@),
{
    let cs = chars_of(s);
    let mut from: usize = 0;
    proof {
        assert(cs@.skip(0) =~= cs@);
    }
    while from < cs.len() && space(cs[from])
        invariant
            from <= cs@.len(),
            trim_left(cs@) == trim_left(cs@.skip(from as int)),
        decreases cs@.len() - from,
    {
        proof {
            assert(cs@.skip(from as int).drop_first() =~= cs@.skip(from + 1));
        }
        from = from + 1;
    }
    let mut to: usize = cs.len();
    proof {
        assert(trim_left(cs@) == cs@.skip(from as int));
        assert(cs@.subrange(from as int, to as int) =~= cs@.skip(from as int));
    }
    while from < to && space(cs[to - 1])
        invariant
            from <= to <= cs@.len(),
            trimmed(cs@) == trim_right(cs@.subrange(from as int, to as int)),
        decreases to - from,
    {
        proof {
            assert(cs@.subrange(from as int, to as int).drop_last() =~= cs@.subrange(
                from as int,
                to - 1,
            ));
        }
        to = to - 1;
    }
    string_of(cs.as_slice(), from, to)
}

/// Whether `t` occurs somewhere in `s`.
pub open spec fn has_infix(s: Seq<char>, t: Seq<char>) -> bool {
    exists|i: int| 0 <= i && i + t.len() <= s.len() && #[trigger] s.subrange(i, i + t.len()) == t
}

/// Whether `cs[at..]` begins with `t`.
fn starts_at(cs: &[char], at: usize, t: &[char]) -> (r: bool)
    requires
        at <= cs@.len(),
    ensures
        r == (at + t@.len() <= cs@.len() && cs@.subrange(at as int, at + t@.len()) == t@),
{
    let len: usize = cs.len();
    if t.len() > len - at {
        return false;
    }
    let mut i: usize = 0;
    while i < t.len()
        invariant
            i <= t@.len(),
            at + t@.len() <= cs@.len() <= usize::MAX,
            forall|k: int| 0 <= k < i ==> cs@[at + k] == t@[k],
        decreases t@.len() - i,
    {
        if cs[at + i] != t[i] {
            proof {
                assert(cs@.subrange(at as int, at + t@.len())[i as int] == cs@[at + i]);
            }
            return false;
        }
        i = i + 1;
    }
    proof {
        assert(cs@.subrange(at as int, at + t@.len()) =~= t@);
    }
    true
}

/// Whether `needle` occurs in `s`.
pub fn contains(s: &str, needle: &str) -> (r: bool)
    ensures
        r == has_infix(s@, needle@),
{
    let cs = chars_of(s);
    let t = chars_of(needle);
    if t.len() > cs.len() {
        return false;
    }
    let last: usize = cs.len() - t.len();
    let mut i: usize = 0;
    loop
        invariant
            cs@ == s@,
            t@ == needle@,
            i <= last,
            last + t@.len() == cs@.len(),
            forall|k: int| 0 <= k < i ==> #[trigger] cs@.subrange(k, k + t@.len()) != t@,
        decreases last - i,
    {
        if starts_at(cs.as_slice(), i, t.as_slice()) {
            return true;
        }
        if i == last {
            return false;
        }
        i = i + 1;
    }
}

/// What follows `key` in `s`, when `s` begins with `key`.
pub open spec fn after_prefix(s: Seq<char>, key: Seq<char>) -> Option<Seq<char>> {
    if key.is_prefix_of(s) {
        Some(s.skip(key.len() as int))
    } else {
        None
    }
}

/// What follows `key` in the characters `cs`, when they begin with `key`.
pub fn strip_prefix(cs: &[char], key: &str) -> (r: Option<String>)
    ensures
        match r {
            Some(v) => after_prefix(cs@, key@) == Some(v@),
            None => after_prefix(cs@, key@) is None,
        },
{
    let k = chars_of(key);
    if starts_at(cs, 0, k.as_slice()) {
        let v = string_of(cs, k.len(), cs.len());
        proof {
            assert(cs@.subrange(k@.len() as int, cs@.len() as int) =~= cs@.skip(k@.len() as int));
        }
        Some(v)
    } else {
        None
    }
}

/// The ten digits.
pub open spec fn digit(d: nat) -> char {
    (48 + d) as char
}

/// The decimal digits of `n`, without leading zeros.
pub open spec fn decimal(n: nat) -> Seq<char>
    decreases n,
{
    if n < 10 {
        seq![digit(n)]
    } else {
        decimal(n / 10).push(digit(n % 10))
    }
}

/// Appends the decimal digits of `n`.
pub fn push_decimal(out: &mut String, n: u64)
    ensures
        final(out)@ == old(out)@ + decimal(n as nat),
    decreases n,
{
    if n >= 10 {
        push_decimal(out, n / 10);
    }
    let c: char = (48u8 + (n % 10) as u8) as char;
    out.push(c);
    proof {
        assert(out@ =~= old(out)@ + decimal(n as nat));
    }
}

/// `n` spaces.
pub open spec fn spaces(n: nat) -> Seq<char> {
    Seq::new(n, |i: int| ' ')
}

/// Appends `n` spaces.
pub fn push_spaces(out: &mut String, n: usize)
    ensures
        final(out)@ == old(out)@ + spaces(n as nat),
{
    let mut i: usize = 0;
    proof {
        assert(out@ =~= old(out)@ + spaces(0));
    }
    while i < n
        invariant
            i <= n,
            out@ == old(out)@ + spaces(i as nat),
        decreases n - i,
    {
        out.push(' ');
        i = i + 1;
        proof {
            assert(out@ =~= old(out)@ + spaces(i as nat));
        }
    }
}

/// `s`, followed by as many spaces as bring it to `width` characters.
pub open spec fn pad_right(s: Seq<char>, width: nat) -> Seq<char> {
    if s.len() < width {
        s + spaces((width - s.len()) as nat)
    } else {
        s
    }
}

/// Appends `s`, followed by as many spaces as bring it to `width` characters.
pub fn push_padded(out: &mut String, s: &str, width: usize)
    ensures
        final(out)@ == old(out)@ + pad_right(s@, width as nat),
{
    let len: usize = chars_of(s).len();
    out.append(s);
    if len < width {
        push_spaces(out, width - len);
    }
    proof {
        assert(out@ =~= old(out)@ + pad_right(s@, width as nat));
    }
}

/// The number that a sequence of decimal digits denotes.
pub open spec fn digits_value(s: Seq<char>) -> int
    decreases s.len(),
{
    if s.len() == 0 {
        0
    } else {
        digits_value(s.drop_last()) * 10 + (s.last() as int - 48)
    }
}

/// The decimal digits are characters from `0` to `9`.
pub proof fn lemma_decimal_digits(n: nat)
    ensures
        decimal(n).len() > 0,
        forall|i: int| 0 <= i < decimal(n).len() ==> '0' <= #[trigger] decimal(n)[i] <= '9',
    decreases n,
{
    if n >= 10 {
        lemma_decimal_digits(n / 10);
        assert(decimal(n) == decimal(n / 10).push(digit(n % 10)));
    }
}

/// Reading the digits of a number gives the number back.
pub proof fn law_decimal_reads_back(n: nat)
    ensures
        digits_value(decimal(n)) == n,
    decreases n,
{
    reveal_with_fuel(digits_value, 2);
    if n < 10 {
        assert(decimal(n).drop_last() =~= Seq::<char>::empty());
    } else {
        law_decimal_reads_back(n / 10);
        assert(decimal(n).drop_last() =~= decimal(n / 10));
    }
}

/// Different numbers have different digits.
pub proof fn law_decimal_injective(m: nat, n: nat)
    ensures
        (decimal(m) == decimal(n)) == (m == n),
{
    law_decimal_reads_back(m);
    law_decimal_reads_back(n);
}

/// Trimming takes away the white space around a text, and no more.
pub proof fn lemma_trim_around(before: Seq<char>, core: Seq<char>, after: Seq<char>)
    requires
        forall|i: int| 0 <= i < before.len() ==> is_space(#[trigger] before[i]),
        forall|i: int| 0 <= i < after.len() ==> is_space(#[trigger] after[i]),
        core.len() > 0,
        !is_space(core[0]),
        !is_space(core.last()),
    ensures
        trimmed(before + core + after) == core,
    decreases before.len() + after.len(),
{
    if before.len() > 0 {
        let rest = before.drop_first();
        assert forall|i: int| 0 <= i < rest.len() implies is_space(#[trigger] rest[i]) by {
            assert(rest[i] == before[i + 1]);
        }
        lemma_trim_around(rest, core, after);
        assert((before + core + after).drop_first() =~= rest + core + after);
        assert((before + core + after)[0] == before[0]);
    } else if after.len() > 0 {
        let rest = after.drop_last();
        assert forall|i: int| 0 <= i < rest.len() implies is_space(#[trigger] rest[i]) by {
            assert(rest[i] == after[i]);
        }
        lemma_trim_around(before, core, rest);
        let all = before + core + after;
        assert(all[0] == core[0]);
        assert((before + core + rest)[0] == core[0]);
        assert(all.last() == after[after.len() - 1]);
        assert(all.drop_last() =~= before + core + rest);
    } else {
        assert(before + core + after =~= core);
    }
}

/// White space is the tab and the four line ends that follow it, the space, and
/// the spaces and line ends beyond ASCII. No other ASCII character is.
pub proof fn law_space_characters(c: char)
    ensures
        c as u32 <= 0x7f ==> (is_space(c) <==> c == ' ' || c == '\t' || c == '\n' || c == '\u{b}' || c
            == '\u{c}' || c == '\r'),
        c as u32 > 0x7f ==> (is_space(c) <==> {
            ||| c == '\u{85}'
            ||| c == '\u{a0}'
            ||| c == '\u{1680}'
            ||| '\u{2000}' <= c <= '\u{200a}'
            ||| c == '\u{2028}'
            ||| c == '\u{2029}'
            ||| c == '\u{202f}'
            ||| c == '\u{205f}'
            ||| c == '\u{3000}'
        }),
{
}

proof fn lemma_trim_left(s: Seq<char>)
    ensures
        exists|a: int|
            {
                &&& 0 <= a <= s.len()
                &&& trim_left(s) == #[trigger] s.skip(a)
                &&& forall|i: int| 0 <= i < a ==> is_space(#[trigger] s[i])
                &&& a < s.len() ==> !is_space(s[a])
            },
    decreases s.len(),
{
    if s.len() > 0 && is_space(s[0]) {
        let rest = s.drop_first();
        lemma_trim_left(rest);
        let a = choose|a: int|
            {
                &&& 0 <= a <= rest.len()
                &&& trim_left(rest) == #[trigger] rest.skip(a)
                &&& forall|i: int| 0 <= i < a ==> is_space(#[trigger] rest[i])
                &&& a < rest.len() ==> !is_space(rest[a])
            };
        assert(rest.skip(a) =~= s.skip(a + 1));
        assert forall|i: int| 0 <= i < a + 1 implies is_space(#[trigger] s[i]) by {
            if i > 0 {
                assert(rest[i - 1] == s[i]);
            }
        }
    } else {
        assert(s.skip(0) =~= s);
    }
}

proof fn lemma_trim_right(s: Seq<char>)
    ensures
        exists|b: int|
            {
                &&& 0 <= b <= s.len()
                &&& trim_right(s) == #[trigger] s.take(b)
                &&& forall|i: int| b <= i < s.len() ==> is_space(#[trigger] s[i])
                &&& b > 0 ==> !is_space(s[b - 1])
            },
    decreases s.len(),
{
    if s.len() > 0 && is_space(s.last()) {
        let rest = s.drop_last();
        lemma_trim_right(rest);
        let b = choose|b: int|
            {
                &&& 0 <= b <= rest.len()
                &&& trim_right(rest) == #[trigger] rest.take(b)
                &&& forall|i: int| b <= i < rest.len() ==> is_space(#[trigger] rest[i])
                &&& b > 0 ==> !is_space(rest[b - 1])
            };
        assert(rest.take(b) =~= s.take(b));
        assert forall|i: int| b <= i < s.len() implies is_space(#[trigger] s[i]) by {
            if i < rest.len() {
                assert(rest[i] == s[i]);
            }
        }
    } else {
        assert(s.take(s.len() as int) =~= s);
    }
}

/// Trimming leaves one stretch of the text: everything outside it is white space,
/// and it neither begins nor ends with white space.
pub proof fn law_trim(s: Seq<char>)
    ensures
        exists|a: int, b: int|
            {
                &&& 0 <= a <= b <= s.len()
                &&& trimmed(s) == #[trigger] s.subrange(a, b)
                &&& forall|i: int|
                    0 <= i < a || b <= i < s.len() ==> is_space(#[trigger] s[i])
                &&& a < b ==> !is_space(s[a]) && !is_space(s[b - 1])
            },
{
    lemma_trim_left(s);
    let a = choose|a: int|
        {
            &&& 0 <= a <= s.len()
            &&& trim_left(s) == #[trigger] s.skip(a)
            &&& forall|i: int| 0 <= i < a ==> is_space(#[trigger] s[i])
            &&& a < s.len() ==> !is_space(s[a])
        };
    let t = s.skip(a);
    lemma_trim_right(t);
    let b = choose|b: int|
        {
            &&& 0 <= b <= t.len()
            &&& trim_right(t) == #[trigger] t.take(b)
            &&& forall|i: int| b <= i < t.len() ==> is_space(#[trigger] t[i])
            &&& b > 0 ==> !is_space(t[b - 1])
        };
    assert(t.take(b) =~= s.subrange(a, a + b));
    assert forall|i: int| 0 <= i < a || a + b <= i < s.len() implies is_space(
        #[trigger] s[i],
    ) by {
        if i >= a + b {
            assert(t[i - a] == s[i]);
        }
    }
}

/// A text is found in another exactly where the other is made of something, the
/// text, and something else.
pub proof fn law_infix(s: Seq<char>, t: Seq<char>)
    ensures
        has_infix(s, t) <==> exists|a: Seq<char>, b: Seq<char>| s == #[trigger] (a + t + b),
{
    if has_infix(s, t) {
        let i = choose|i: int|
            0 <= i && i + t.len() <= s.len() && #[trigger] s.subrange(i, i + t.len()) == t;
        assert(s =~= s.take(i) + t + s.skip(i + t.len()));
    }
    assert forall|a: Seq<char>, b: Seq<char>| s == #[trigger] (a + t + b) implies has_infix(
        s,
        t,
    ) by {
        let i = a.len() as int;
        assert(s.subrange(i, i + t.len()) =~= t);
    }
}

/// What is put behind a prefix is what follows the prefix, all of it; and only
/// a text that begins with the prefix has anything behind it.
pub proof fn law_after_prefix(key: Seq<char>, v: Seq<char>, s: Seq<char>)
    ensures
        after_prefix(key + v, key) == Some(v),
        after_prefix(s, key) matches Some(r) ==> s == key + r,
        after_prefix(s, key) is None ==> s != key + v,
{
    assert(key.is_prefix_of(key + v));
    assert((key + v).skip(key.len() as int) =~= v);
    if key.is_prefix_of(s) {
        assert(s =~= key + s.skip(key.len() as int));
    }
}

/// One more digit at the end of a number is ten times the number and the digit;
/// a number below ten is its digit alone, so there are no leading zeros.
pub proof fn law_decimal_takes_digits(n: nat, d: nat)
    requires
        d < 10,
    ensures
        decimal(d) == seq![('0' as int + d) as char],
        n > 0 ==> decimal(10 * n + d) == decimal(n).push(('0' as int + d) as char),
{
    assert((10 * n + d) / 10 == n);
    assert((10 * n + d) % 10 == d);
}

/// The value of a run of digits grows by a digit as the number does.
pub proof fn law_digits_value_takes_digits(s: Seq<char>, c: char)
    ensures
        digits_value(seq![]) == 0,
        digits_value(s.push(c)) == 10 * digits_value(s) + (c as int - '0' as int),
{
    assert(s.push(c).drop_last() =~= s);
}

/// Padding keeps the text in front, and fills up with spaces to the width; a text
/// that is wider stays as it is.
pub proof fn law_pad_right(s: Seq<char>, width: nat)
    ensures
        s.is_prefix_of(pad_right(s, width)),
        s.len() >= width ==> pad_right(s, width) == s,
        s.len() < width ==> pad_right(s, width).len() == width,
        forall|i: int|
            s.len() <= i < pad_right(s, width).len() ==> #[trigger] pad_right(s, width)[i] == ' ',
{
    if s.len() < width {
        assert(pad_right(s, width).subrange(0, s.len() as int) =~= s);
    } else {
        assert(s.subrange(0, s.len() as int) =~= s);
    }
}

} // verus!
