//! Key-value pairs in logfmt: `key=value`, separated by spaces, with values in
//! double quotes where they need them.

use vstd::prelude::*;
use vstd::string::StringExecFns;

use crate::text::chars_of;

verus! {

/// The control characters: Unicode category Cc.
pub open spec fn is_control(c: char) -> bool {
    let v = c as u32;
    v <= 0x1f || 0x7f <= v <= 0x9f
}

/// Whether a value with `c` in it needs quotes.
pub open spec fn is_special(c: char) -> bool {
    c == ' ' || c == '\t' || c == '=' || c == '"' || c == '\\' || is_control(c)
}

/// Whether a value needs quotes: it is empty, or holds a special character.
pub open spec fn needs_quotes(v: Seq<char>) -> bool {
    v.len() == 0 || exists|i: int| 0 <= i < v.len() && is_special(#[trigger] v[i])
}

/// `c` as it stands between quotes.
pub open spec fn escaped_char(c: char) -> Seq<char> {
    if c == '\\' || c == '"' {
        seq!['\\', c]
    } else {
        seq![c]
    }
}

/// `v` as it stands between quotes: backslashes and quotes get a backslash in
/// front.
pub open spec fn escaped(v: Seq<char>) -> Seq<char>
    decreases v.len(),
{
    if v.len() == 0 {
        seq![]
    } else {
        escaped_char(v[0]) + escaped(v.drop_first())
    }
}

/// The value `v` as it is logged.
pub open spec fn logfmt_value(v: Seq<char>) -> Seq<char> {
    if needs_quotes(v) {
        seq!['"'] + escaped(v) + seq!['"']
    } else {
        v
    }
}

/// Whether a value with `c` in it needs quotes.
fn special(c: char) -> (r: bool)
    ensures
        r == is_special(c),
{
    let v: u32 = c as u32;
    c == ' ' || c == '\t' || c == '=' || c == '"' || c == '\\' || v <= 0x1f || (0x7f <= v && v
        <= 0x9f)
}

/// Escapes a value for the log. A value that is empty or holds a space, `=`, `"`,
/// `\` or a control character is put in double quotes, with a backslash in front
/// of each `\` and `"`; any other stays as it is.
pub fn logfmt_escape(v: &str) -> (r: String)
    ensures
        r@ == logfmt_value(v@),
{
    let cs = chars_of(v);
    let mut quote: bool = cs.len() == 0;
    let mut i: usize = 0;
    while i < cs.len()
        invariant
            i <= cs@.len(),
            quote == (cs@.len() == 0 || exists|k: int| 0 <= k < i && is_special(#[trigger] cs@[k])),
        decreases cs@.len() - i,
    {
        if special(cs[i]) {
            quote = true;
            proof {
                assert(is_special(cs@[i as int]));
            }
        }
        i = i + 1;
    }
    if !quote {
        return v.to_owned();
    }
    let mut out = String::new();
    out.push('"');
    let mut j: usize = 0;
    proof {
        assert(cs@.skip(0) =~= cs@);
        assert(out@ + escaped(cs@) =~= seq!['"'] + escaped(cs@));
    }
    while j < cs.len()
        invariant
            j <= cs@.len(),
            out@ + escaped(cs@.skip(j as int)) == seq!['"'] + escaped(cs@),
        decreases cs@.len() - j,
    {
        let c: char = cs[j];
        let ghost before = out@;
        let ghost rest = cs@.skip(j as int);
        if c == '\\' || c == '"' {
            out.push('\\');
        }
        out.push(c);
        proof {
            assert(rest[0] == c);
            assert(rest.drop_first() =~= cs@.skip(j + 1));
            assert(out@ =~= before + escaped_char(c));
            assert(out@ + escaped(cs@.skip(j + 1)) =~= before + escaped(rest));
        }
        j = j + 1;
    }
    proof {
        assert(cs@.skip(j as int) =~= Seq::<char>::empty());
        assert(out@ =~= out@ + escaped(cs@.skip(j as int)));
    }
    out.push('"');
    proof {
        assert(out@ =~= logfmt_value(v@));
    }
    out
}

/// One pair as it is logged. The key is taken as it is.
pub open spec fn pair_text(pair: (Seq<char>, Seq<char>)) -> Seq<char> {
    pair.0 + seq!['='] + logfmt_value(pair.1)
}

/// The pairs as they are logged, separated by spaces.
pub open spec fn pairs_text(kv: Seq<(Seq<char>, Seq<char>)>) -> Seq<char>
    decreases kv.len(),
{
    if kv.len() == 0 {
        seq![]
    } else if kv.len() == 1 {
        pair_text(kv[0])
    } else {
        pairs_text(kv.drop_last()) + seq![' '] + pair_text(kv.last())
    }
}

/// The texts of a list of pairs.
pub open spec fn pairs_of(kv: Seq<(&str, &str)>) -> Seq<(Seq<char>, Seq<char>)> {
    Seq::new(kv.len(), |i: int| (kv[i].0@, kv[i].1@))
}

/// Appends the pairs, separated by spaces.
pub fn push_pairs(out: &mut String, kv: &[(&str, &str)])
    ensures
        final(out)@ == old(out)@ + pairs_text(pairs_of(kv@)),
{
    let mut i: usize = 0;
    let ghost all = pairs_of(kv@);
    let ghost start = out@;
    proof {
        assert(start + pairs_text(all.take(0)) =~= start);
    }
    while i < kv.len()
        invariant
            i <= kv@.len(),
            all == pairs_of(kv@),
            out@ == start + pairs_text(all.take(i as int)),
        decreases kv@.len() - i,
    {
        let ghost before = out@;
        if i > 0 {
            out.push(' ');
        }
        let key: &str = kv[i].0;
        let value: &str = kv[i].1;
        out.append(key);
        out.push('=');
        out.append(logfmt_escape(value).as_str());
        proof {
            let now = all.take(i + 1);
            assert(now.drop_last() =~= all.take(i as int));
            assert(now.last() == (key@, value@));
            if i == 0 {
                assert(now[0] == (key@, value@));
                assert(before =~= start);
            }
            assert(out@ =~= start + pairs_text(now));
        }
        i = i + 1;
    }
    proof {
        assert(all.take(i as int) =~= all);
    }
}

/// Reads a quoted value from behind its opening quote: the value, and what
/// follows the closing quote.
pub open spec fn take_quoted(s: Seq<char>) -> (Seq<char>, Seq<char>)
    decreases s.len(),
{
    if s.len() == 0 {
        (seq![], seq![])
    } else if s[0] == '"' {
        (seq![], s.drop_first())
    } else if s[0] == '\\' && s.len() >= 2 {
        let (v, rest) = take_quoted(s.skip(2));
        (seq![s[1]] + v, rest)
    } else {
        let (v, rest) = take_quoted(s.drop_first());
        (seq![s[0]] + v, rest)
    }
}

/// Reads a value without quotes: everything before the next space, and what is
/// left.
pub open spec fn take_plain(s: Seq<char>) -> (Seq<char>, Seq<char>)
    decreases s.len(),
{
    if s.len() == 0 || s[0] == ' ' {
        (seq![], s)
    } else {
        let (v, rest) = take_plain(s.drop_first());
        (seq![s[0]] + v, rest)
    }
}

/// Reads a value: the value, and what is left.
pub open spec fn take_value(s: Seq<char>) -> (Seq<char>, Seq<char>) {
    if s.len() > 0 && s[0] == '"' {
        take_quoted(s.drop_first())
    } else {
        take_plain(s)
    }
}

/// Reading a value leaves no more than there was.
pub proof fn lemma_take_value_shrinks(s: Seq<char>)
    ensures
        take_value(s).1.len() <= s.len(),
        take_quoted(s).1.len() <= s.len(),
        take_plain(s).1.len() <= s.len(),
    decreases s.len(),
{
    if s.len() > 0 {
        lemma_take_value_shrinks(s.drop_first());
        if s.len() >= 2 {
            lemma_take_value_shrinks(s.skip(2));
        }
    }
}

/// Reads logged pairs: a key ends at the next `=`, and one space stands between
/// a value and the next key.
pub open spec fn read_pairs(s: Seq<char>) -> Seq<(Seq<char>, Seq<char>)>
    decreases s.len(),
{
    match s.index_of_first('=') {
        Some(i) if 0 <= i < s.len() => {
            let (v, rest) = take_value(s.skip(i + 1));
            proof {
                lemma_take_value_shrinks(s.skip(i + 1));
            }
            seq![(s.take(i), v)] + read_pairs(rest.skip(if rest.len() > 0 {
                1
            } else {
                0
            }))
        },
        _ => seq![],
    }
}

/// A quoted value is read back, up to its closing quote.
proof fn lemma_quoted_reads_back(v: Seq<char>, rest: Seq<char>)
    ensures
        take_quoted(escaped(v) + seq!['"'] + rest) == (v, rest),
    decreases v.len(),
{
    let s = escaped(v) + seq!['"'] + rest;
    if v.len() == 0 {
        assert(s[0] == '"');
        assert(s.drop_first() =~= rest);
        assert(v =~= seq![]);
    } else {
        let tail = v.drop_first();
        lemma_quoted_reads_back(tail, rest);
        let t = escaped(tail) + seq!['"'] + rest;
        assert(seq![v[0]] + tail =~= v);
        if v[0] == '\\' || v[0] == '"' {
            assert(s[0] == '\\' && s[1] == v[0]);
            assert(s.skip(2) =~= t);
        } else {
            assert(s[0] == v[0]);
            assert(s.drop_first() =~= t);
        }
    }
}

/// A value without spaces is read back, up to the next space.
proof fn lemma_plain_reads_back(v: Seq<char>, rest: Seq<char>)
    requires
        forall|i: int| 0 <= i < v.len() ==> #[trigger] v[i] != ' ',
        rest.len() == 0 || rest[0] == ' ',
    ensures
        take_plain(v + rest) == (v, rest),
    decreases v.len(),
{
    if v.len() == 0 {
        assert(v + rest =~= rest);
        assert(v =~= seq![]);
    } else {
        let tail = v.drop_first();
        assert forall|i: int| 0 <= i < tail.len() implies #[trigger] tail[i] != ' ' by {
            assert(tail[i] == v[i + 1]);
        }
        lemma_plain_reads_back(tail, rest);
        assert((v + rest)[0] == v[0]);
        assert((v + rest).drop_first() =~= tail + rest);
        assert(seq![v[0]] + tail =~= v);
    }
}

/// A logged value is read back, whatever pair follows it.
pub proof fn law_value_reads_back(v: Seq<char>, rest: Seq<char>)
    requires
        rest.len() == 0 || rest[0] == ' ',
    ensures
        take_value(logfmt_value(v) + rest) == (v, rest),
{
    let s = logfmt_value(v) + rest;
    if needs_quotes(v) {
        assert(s[0] == '"');
        assert(s.drop_first() =~= escaped(v) + seq!['"'] + rest);
        lemma_quoted_reads_back(v, rest);
    } else {
        assert forall|i: int| 0 <= i < v.len() implies #[trigger] v[i] != ' ' && v[i] != '"' by {
            assert(!is_special(v[i]));
        }
        assert(s[0] == v[0]);
        lemma_plain_reads_back(v, rest);
    }
}

/// Different values are logged differently.
pub proof fn law_escape_is_injective(v: Seq<char>, w: Seq<char>)
    ensures
        (logfmt_value(v) == logfmt_value(w)) == (v == w),
{
    law_value_reads_back(v, seq![]);
    law_value_reads_back(w, seq![]);
    assert(logfmt_value(v) + seq![] =~= logfmt_value(v));
    assert(logfmt_value(w) + seq![] =~= logfmt_value(w));
}

/// The first pair stands first.
proof fn lemma_pairs_front(kv: Seq<(Seq<char>, Seq<char>)>)
    requires
        kv.len() >= 2,
    ensures
        pairs_text(kv) == pair_text(kv[0]) + seq![' '] + pairs_text(kv.drop_first()),
    decreases kv.len(),
{
    let front = kv.drop_last();
    let back = kv.drop_first();
    if kv.len() == 2 {
        assert(front[0] == kv[0]);
        assert(back[0] == kv[1]);
        assert(pairs_text(front) == pair_text(kv[0]));
        assert(pairs_text(back) == pair_text(kv[1]));
    } else {
        lemma_pairs_front(front);
        assert(front.drop_first() =~= back.drop_last());
        assert(front[0] == kv[0]);
        assert(back.last() == kv.last());
        assert(pairs_text(kv) =~= pair_text(kv[0]) + seq![' '] + pairs_text(back));
    }
}

/// Logged pairs are read back, key by key and value by value. A key with `=` in it
/// is the exception: keys are logged as they are.
pub proof fn law_pairs_read_back(kv: Seq<(Seq<char>, Seq<char>)>)
    requires
        forall|i: int| 0 <= i < kv.len() ==> !(#[trigger] kv[i]).0.contains('='),
    ensures
        read_pairs(pairs_text(kv)) == kv,
    decreases kv.len(),
{
    let s = pairs_text(kv);
    s.index_of_first_ensures('=');
    if kv.len() == 0 {
        assert(!s.contains('='));
        assert(kv =~= seq![]);
    } else {
        let key = kv[0].0;
        let value = kv[0].1;
        let later = kv.drop_first();
        let rest = if kv.len() == 1 {
            seq![]
        } else {
            seq![' '] + pairs_text(later)
        };
        if kv.len() > 1 {
            lemma_pairs_front(kv);
        }
        assert(s =~= key + seq!['='] + logfmt_value(value) + rest);
        let i = key.len() as int;
        assert(s[i] == '=');
        assert(s.contains('='));
        let at = s.index_of_first('=')->0;
        assert(!kv[0].0.contains('='));
        if at < i {
            assert(key[at] == '=');
        }
        assert(at == i);
        assert(s.take(i) =~= key);
        assert(s.skip(i + 1) =~= logfmt_value(value) + rest);
        law_value_reads_back(value, rest);
        assert forall|j: int| 0 <= j < later.len() implies !(#[trigger] later[j]).0.contains(
            '=',
        ) by {
            assert(later[j] == kv[j + 1]);
        }
        law_pairs_read_back(later);
        if kv.len() == 1 {
            assert(rest.skip(0) =~= pairs_text(later));
        } else {
            assert(rest.skip(1) =~= pairs_text(later));
        }
        assert(seq![kv[0]] + later =~= kv);
    }
}

/// A value of ordinary characters is logged as it is; one that is empty, or holds
/// a space, `=`, `"`, a backslash or a control character, is logged in quotes.
pub proof fn law_quotes(v: Seq<char>)
    ensures
        ({
            let ordinary = |c: char|
                {
                    &&& c != ' ' && c != '=' && c != '"' && c != '\\'
                    &&& c as u32 > 0x1f
                    &&& !(0x7f <= c as u32 <= 0x9f)
                };
            if v.len() > 0 && forall|i: int| 0 <= i < v.len() ==> ordinary(#[trigger] v[i]) {
                logfmt_value(v) == v
            } else {
                logfmt_value(v) == seq!['"'] + escaped(v) + seq!['"']
            }
        }),
{
    let ordinary = |c: char|
        {
            &&& c != ' ' && c != '=' && c != '"' && c != '\\'
            &&& c as u32 > 0x1f
            &&& !(0x7f <= c as u32 <= 0x9f)
        };
    assert forall|c: char| #[trigger] is_special(c) == !ordinary(c) by {}
    if v.len() > 0 && !(forall|i: int| 0 <= i < v.len() ==> ordinary(#[trigger] v[i])) {
        let i = choose|i: int| 0 <= i < v.len() && !ordinary(#[trigger] v[i]);
        assert(is_special(v[i]));
    }
}

/// Between quotes each character is written by itself: a backslash and a quote
/// with a backslash in front, any other as it is.
pub proof fn law_escaping_goes_by_characters(v: Seq<char>, w: Seq<char>, c: char)
    ensures
        escaped(v + w) == escaped(v) + escaped(w),
        escaped(seq![]) == Seq::<char>::empty(),
        escaped(seq!['\\']) == seq!['\\', '\\'],
        escaped(seq!['"']) == seq!['\\', '"'],
        c != '\\' && c != '"' ==> escaped(seq![c]) == seq![c],
    decreases v.len(),
{
    reveal_with_fuel(escaped, 2);
    if v.len() == 0 {
        assert(v + w =~= w);
        assert(escaped(v) + escaped(w) =~= escaped(w));
    } else {
        law_escaping_goes_by_characters(v.drop_first(), w, c);
        assert((v + w).drop_first() =~= v.drop_first() + w);
        assert(escaped(v + w) =~= escaped(v) + escaped(w));
    }
    assert(escaped(seq!['\\']) =~= seq!['\\', '\\']);
    assert(escaped(seq!['"']) =~= seq!['\\', '"']);
    assert(c != '\\' && c != '"' ==> escaped(seq![c]) =~= seq![c]);
}

/// Pairs are logged one by one, with a single space between them: a pair is its
/// key as it is, `=`, and its value.
pub proof fn law_pairs_are_joined(
    key: Seq<char>,
    value: Seq<char>,
    a: Seq<(Seq<char>, Seq<char>)>,
    b: Seq<(Seq<char>, Seq<char>)>,
)
    ensures
        pairs_text(seq![]) == Seq::<char>::empty(),
        pairs_text(seq![(key, value)]) == key + seq!['='] + logfmt_value(value),
        a.len() > 0 && b.len() > 0 ==> pairs_text(a + b) == pairs_text(a) + seq![' '] + pairs_text(
            b,
        ),
    decreases a.len(),
{
    if a.len() > 0 && b.len() > 0 {
        let all = a + b;
        let later = a.drop_first();
        lemma_pairs_front(all);
        assert(all.drop_first() =~= later + b);
        assert(all[0] == a[0]);
        if a.len() == 1 {
            assert(later + b =~= b);
        } else {
            law_pairs_are_joined(key, value, later, b);
            lemma_pairs_front(a);
            assert(pairs_text(all) =~= pairs_text(a) + seq![' '] + pairs_text(b));
        }
    }
}

/// The texts of a list of pairs are those of its pairs, one for one.
pub proof fn law_pairs_of(kv: Seq<(&str, &str)>)
    ensures
        pairs_of(kv).len() == kv.len(),
        forall|i: int|
            0 <= i < kv.len() ==> (#[trigger] pairs_of(kv)[i]).0 == kv[i].0@ && pairs_of(kv)[i].1
                == kv[i].1@,
{
}

} // verus!
