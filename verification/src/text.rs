//! Decimal and hexadecimal text, and separator-joined fields: the textual
//! forms that cache file names and persisted job payloads are made of.

use vstd::prelude::*;

verus! {

broadcast use vstd::seq::group_seq_axioms;

// ---------------------------------------------------------------------------
// Characters
// ---------------------------------------------------------------------------

/// The characters of a string, in order.
pub fn chars_of(s: &str) -> (r: Vec<char>)
    ensures
        r@ == s@,
{
    let mut out: Vec<char> = Vec::new();
    for c in it: s.chars()
        invariant
            out@ == it.seq().take(it.index() as int),
            it.seq() == s@,
    {
        out.push(c);
    }
    out
}

/// The decimal digit character for `d < 10`.
pub open spec fn digit_char(d: nat) -> char {
    (48 + d) as char
}

/// The lower-case hexadecimal digit character for `d < 16`.
pub open spec fn hex_char(d: nat) -> char {
    if d < 10 {
        (48 + d) as char
    } else {
        (87 + d) as char
    }
}

/// Whether `c` is an ASCII decimal digit.
pub open spec fn is_digit(c: char) -> bool {
    '0' <= c && c <= '9'
}

/// The value of a decimal digit character.
pub open spec fn digit_value(c: char) -> nat {
    (c as int - 48) as nat
}

/// A one-character string holding the decimal digit `d`.
fn digit_str(d: u64) -> (r: &'static str)
    requires
        d < 10,
    ensures
        r@ == seq![digit_char(d as nat)],
{
    proof {
        reveal_strlit("0");
        reveal_strlit("1");
        reveal_strlit("2");
        reveal_strlit("3");
        reveal_strlit("4");
        reveal_strlit("5");
        reveal_strlit("6");
        reveal_strlit("7");
        reveal_strlit("8");
        reveal_strlit("9");
    }
    let r = if d == 0 {
        "0"
    } else if d == 1 {
        "1"
    } else if d == 2 {
        "2"
    } else if d == 3 {
        "3"
    } else if d == 4 {
        "4"
    } else if d == 5 {
        "5"
    } else if d == 6 {
        "6"
    } else if d == 7 {
        "7"
    } else if d == 8 {
        "8"
    } else {
        "9"
    };
    assert(r@ =~= seq![digit_char(d as nat)]);
    r
}

/// A one-character string holding the hexadecimal digit `d`.
fn hex_str(d: u64) -> (r: &'static str)
    requires
        d < 16,
    ensures
        r@ == seq![hex_char(d as nat)],
{
    if d < 10 {
        return digit_str(d);
    }
    proof {
        reveal_strlit("a");
        reveal_strlit("b");
        reveal_strlit("c");
        reveal_strlit("d");
        reveal_strlit("e");
        reveal_strlit("f");
    }
    let r = if d == 10 {
        "a"
    } else if d == 11 {
        "b"
    } else if d == 12 {
        "c"
    } else if d == 13 {
        "d"
    } else if d == 14 {
        "e"
    } else {
        "f"
    };
    assert(r@ =~= seq![hex_char(d as nat)]);
    r
}

// ---------------------------------------------------------------------------
// Decimal
// ---------------------------------------------------------------------------

/// The shortest decimal representation of `v`.
pub open spec fn dec_digits(v: nat) -> Seq<char>
    decreases v,
{
    if v < 10 {
        seq![digit_char(v)]
    } else {
        dec_digits(v / 10).push(digit_char(v % 10))
    }
}

/// `n` zero characters.
pub open spec fn zeros(n: nat) -> Seq<char> {
    Seq::new(n, |i: int| '0')
}

/// The decimal representation of `v`, left-padded with zeros to at least
/// `width` characters.
pub open spec fn dec_padded(v: nat, width: nat) -> Seq<char> {
    let d = dec_digits(v);
    if d.len() < width {
        zeros((width - d.len()) as nat) + d
    } else {
        d
    }
}

/// The value of a string of decimal digits.
pub open spec fn digits_value(s: Seq<char>) -> nat
    decreases s.len(),
{
    if s.len() == 0 {
        0
    } else {
        digits_value(s.drop_last()) * 10 + digit_value(s.last())
    }
}

/// Every character is a decimal digit.
pub open spec fn all_digits(s: Seq<char>) -> bool {
    forall|i: int| 0 <= i < s.len() ==> is_digit(#[trigger] s[i])
}

/// What parsing `s` as an unsigned integer of at most `max` gives: an
/// optional leading `+`, then one or more decimal digits whose value is at
/// most `max`.
pub open spec fn spec_parse_unsigned(s: Seq<char>, max: nat) -> Option<nat> {
    let body = if s.len() > 0 && s[0] == '+' {
        s.drop_first()
    } else {
        s
    };
    if body.len() > 0 && all_digits(body) && digits_value(body) <= max {
        Some(digits_value(body))
    } else {
        None
    }
}

/// The decimal representation of `v`.
pub fn fmt_dec(v: u64) -> (r: String)
    ensures
        r@ == dec_digits(v as nat),
    decreases v,
{
    if v < 10 {
        String::from_str(digit_str(v))
    } else {
        let mut s = fmt_dec(v / 10);
        s.append(digit_str(v % 10));
        s
    }
}

/// The decimal representation of `v`, left-padded with zeros to at least
/// `width` characters.
pub fn fmt_dec_padded(v: u64, width: usize) -> (r: String)
    ensures
        r@ == dec_padded(v as nat, width as nat),
{
    let d = fmt_dec(v);
    let n = d.as_str().unicode_len();
    let mut s = String::new();
    if n < width {
        let mut k: usize = 0;
        while k < width - n
            invariant
                n < width,
                k <= width - n,
                s@ == zeros(k as nat),
            decreases width - n - k,
        {
            proof {
                reveal_strlit("0");
            }
            s.append("0");
            proof {
                assert(s@ =~= zeros((k + 1) as nat));
            }
            k += 1;
        }
    }
    s.append(d.as_str());
    proof {
        if !(n < width) {
            assert(s@ =~= dec_digits(v as nat));
        }
    }
    s
}

/// Parses an unsigned decimal integer of at most `max`.
fn parse_unsigned(s: &str, max: u64) -> (r: Option<u64>)
    ensures
        r == match spec_parse_unsigned(s@, max as nat) {
            Some(v) => Some(v as u64),
            None => None::<u64>,
        },
{
    let cs = chars_of(s);
    let n = cs.len();
    let start: usize = if n > 0 && cs[0] == '+' {
        1
    } else {
        0
    };
    let ghost body = if s@.len() > 0 && s@[0] == '+' {
        s@.drop_first()
    } else {
        s@
    };
    proof {
        assert(body =~= s@.subrange(start as int, n as int));
    }
    if start == n {
        return None;
    }
    let mut acc: u64 = 0;
    let mut i: usize = start;
    while i < n
        invariant
            cs@ == s@,
            n == cs.len(),
            start < n,
            start <= i <= n,
            body == s@.subrange(start as int, n as int),
            body == (if s@.len() > 0 && s@[0] == '+' {
                s@.drop_first()
            } else {
                s@
            }),
            all_digits(s@.subrange(start as int, i as int)),
            acc == digits_value(s@.subrange(start as int, i as int)),
            acc <= max,
        decreases n - i,
    {
        let c = cs[i];
        if !('0' <= c && c <= '9') {
            proof {
                assert(s@[i as int] == c);
                assert(body[i - start] == c);
                assert(!is_digit(body[i - start]));
            }
            return None;
        }
        let d = (c as u32 - 48) as u64;
        let ghost prefix = s@.subrange(start as int, (i + 1) as int);
        proof {
            assert(prefix.drop_last() =~= s@.subrange(start as int, i as int));
            assert(prefix.last() == c);
            assert(digit_value(c) == d);
            assert(digits_value(prefix) == acc * 10 + d);
        }
        if d > max || acc > (max - d) / 10 {
            proof {
                assert(acc * 10 + d > max) by (nonlinear_arith)
                    requires
                        d > max || acc > (max - d) / 10,
                        acc >= 0,
                ;
                if all_digits(body) {
                    assert(prefix =~= body.take((i + 1 - start) as int));
                    lemma_digits_value_prefix(body, (i + 1 - start) as int);
                }
            }
            return None;
        }
        proof {
            assert(acc * 10 + d <= max) by (nonlinear_arith)
                requires
                    acc <= (max - d) / 10,
                    d <= max,
            ;
            assert forall|j: int| 0 <= j < prefix.len() implies is_digit(#[trigger] prefix[j]) by {
                if j < prefix.len() - 1 {
                    assert(prefix[j] == s@.subrange(start as int, i as int)[j]);
                }
            }
        }
        acc = acc * 10 + d;
        i += 1;
    }
    proof {
        assert(s@.subrange(start as int, n as int) =~= body);
    }
    Some(acc)
}

/// A prefix of a digit string never has a larger value than the whole.
proof fn lemma_digits_value_prefix(s: Seq<char>, k: int)
    requires
        0 <= k <= s.len(),
        all_digits(s),
    ensures
        digits_value(s.take(k)) <= digits_value(s),
    decreases s.len(),
{
    if k < s.len() {
        assert(s.drop_last().take(k) =~= s.take(k));
        assert forall|j: int| 0 <= j < s.drop_last().len() implies is_digit(
            #[trigger] s.drop_last()[j],
        ) by {
            assert(s.drop_last()[j] == s[j]);
        }
        lemma_digits_value_prefix(s.drop_last(), k);
    } else {
        assert(s.take(k) =~= s);
    }
}

/// Parses a `u64` the way `str::parse::<u64>` does.
pub fn parse_u64(s: &str) -> (r: Option<u64>)
    ensures
        r == match spec_parse_unsigned(s@, u64::MAX as nat) {
            Some(v) => Some(v as u64),
            None => None::<u64>,
        },
{
    parse_unsigned(s, u64::MAX)
}

/// Parses a `u32` the way `str::parse::<u32>` does.
pub fn parse_u32(s: &str) -> (r: Option<u32>)
    ensures
        r == match spec_parse_unsigned(s@, u32::MAX as nat) {
            Some(v) => Some(v as u32),
            None => None::<u32>,
        },
{
    match parse_unsigned(s, 0xFFFF_FFFF) {
        Some(v) => Some(v as u32),
        None => None,
    }
}

/// The decimal representation of a number is all digits and has its value.
proof fn lemma_dec_digits_value(v: nat)
    ensures
        all_digits(dec_digits(v)),
        digits_value(dec_digits(v)) == v,
        dec_digits(v).len() > 0,
    decreases v,
{
    assert(digits_value(Seq::<char>::empty()) == 0);
    if v < 10 {
        assert(dec_digits(v).drop_last() =~= Seq::<char>::empty());
        assert(digit_value(digit_char(v)) == v);
        assert(digits_value(dec_digits(v)) == digits_value(dec_digits(v).drop_last()) * 10
            + digit_value(dec_digits(v).last()));
    } else {
        lemma_dec_digits_value(v / 10);
        let d = dec_digits(v);
        assert(d.drop_last() =~= dec_digits(v / 10));
        assert(d.last() == digit_char(v % 10));
        assert(digit_value(digit_char(v % 10)) == v % 10);
        assert(digits_value(d) == (v / 10) * 10 + v % 10);
        assert forall|i: int| 0 <= i < d.len() implies is_digit(#[trigger] d[i]) by {
            if i < d.len() - 1 {
                assert(d[i] == dec_digits(v / 10)[i]);
            }
        }
    }
}

/// Leading zeros do not change the value of a digit string.
proof fn lemma_leading_zeros(n: nat, s: Seq<char>)
    ensures
        digits_value(zeros(n) + s) == digits_value(s),
        all_digits(s) ==> all_digits(zeros(n) + s),
    decreases s.len() + n,
{
    if s.len() == 0 {
        assert(zeros(n) + s =~= zeros(n));
        if n > 0 {
            assert(zeros(n).drop_last() =~= zeros((n - 1) as nat));
            lemma_leading_zeros((n - 1) as nat, s);
            assert(zeros((n - 1) as nat) + s =~= zeros((n - 1) as nat));
        }
    } else {
        assert((zeros(n) + s).drop_last() =~= zeros(n) + s.drop_last());
        lemma_leading_zeros(n, s.drop_last());
        if all_digits(s) {
            assert forall|i: int| 0 <= i < s.drop_last().len() implies is_digit(
                #[trigger] s.drop_last()[i],
            ) by {
                assert(s.drop_last()[i] == s[i]);
            }
        }
    }
    if all_digits(s) {
        assert forall|i: int| 0 <= i < (zeros(n) + s).len() implies is_digit(
            #[trigger] (zeros(n) + s)[i],
        ) by {
            if i >= n {
                assert((zeros(n) + s)[i] == s[i - n]);
            }
        }
    }
}

/// Parsing the decimal text of a number, padded or not, gives the number
/// back.
pub proof fn lemma_parse_dec(v: nat, width: nat, max: nat)
    requires
        v <= max,
    ensures
        spec_parse_unsigned(dec_digits(v), max) == Some(v),
        spec_parse_unsigned(dec_padded(v, width), max) == Some(v),
{
    lemma_dec_digits_value(v);
    let d = dec_digits(v);
    assert(is_digit(d[0]));
    let p = dec_padded(v, width);
    if d.len() < width {
        lemma_leading_zeros((width - d.len()) as nat, d);
        assert(p[0] == '0');
    }
    assert(all_digits(p));
    assert(is_digit(p[0]));
}

// ---------------------------------------------------------------------------
// Hexadecimal
// ---------------------------------------------------------------------------

/// Nibble `j` of `h`, counting from the most significant.
pub open spec fn nibble(h: u64, j: int) -> u64 {
    (h >> ((15 - j) * 4) as u64) & 0xf
}

/// The sixteen lower-case hexadecimal digits of `h`, most significant
/// first.
pub open spec fn hex16(h: u64) -> Seq<char> {
    Seq::new(16, |j: int| hex_char(nibble(h, j) as nat))
}

/// The sixteen lower-case hexadecimal digits of `h`.
pub fn fmt_hex16(h: u64) -> (r: String)
    ensures
        r@ == hex16(h),
{
    let mut s = String::new();
    let mut j: u64 = 0;
    while j < 16
        invariant
            j <= 16,
            s@ == hex16(h).take(j as int),
        decreases 16 - j,
    {
        let sh: u64 = (15 - j) * 4;
        let nib = (h >> sh) & 0xf;
        assert(nib < 16) by (bit_vector)
            requires
                nib == (h >> sh) & 0xf,
        ;
        s.append(hex_str(nib));
        proof {
            assert(s@ =~= hex16(h).take((j + 1) as int));
        }
        j += 1;
    }
    proof {
        assert(hex16(h).take(16) =~= hex16(h));
    }
    s
}

/// Distinct numbers have distinct hexadecimal text.
pub proof fn lemma_hex16_injective(a: u64, b: u64)
    requires
        hex16(a) == hex16(b),
    ensures
        a == b,
{
    assert forall|j: int| 0 <= j < 16 implies nibble(a, j) == nibble(b, j) by {
        assert(hex16(a)[j] == hex16(b)[j]);
        assert(hex16(a)[j] == hex_char(nibble(a, j) as nat));
        assert(hex16(b)[j] == hex_char(nibble(b, j) as nat));
        let sh = ((15 - j) * 4) as u64;
        let x = nibble(a, j);
        let y = nibble(b, j);
        assert(x < 16 && y < 16) by (bit_vector)
            requires
                x == (a >> sh) & 0xf,
                y == (b >> sh) & 0xf,
        ;
        assert(hex_char(x as nat) as int == if x < 10 {
            48 + x
        } else {
            87 + x
        });
        assert(hex_char(y as nat) as int == if y < 10 {
            48 + y
        } else {
            87 + y
        });
        assert(hex_char(x as nat) == hex_char(y as nat));
        assert(hex_char(x as nat) as int == hex_char(y as nat) as int);
    }
    assert(nibble(a, 0) == nibble(b, 0));
    assert(nibble(a, 1) == nibble(b, 1));
    assert(nibble(a, 2) == nibble(b, 2));
    assert(nibble(a, 3) == nibble(b, 3));
    assert(nibble(a, 4) == nibble(b, 4));
    assert(nibble(a, 5) == nibble(b, 5));
    assert(nibble(a, 6) == nibble(b, 6));
    assert(nibble(a, 7) == nibble(b, 7));
    assert(nibble(a, 8) == nibble(b, 8));
    assert(nibble(a, 9) == nibble(b, 9));
    assert(nibble(a, 10) == nibble(b, 10));
    assert(nibble(a, 11) == nibble(b, 11));
    assert(nibble(a, 12) == nibble(b, 12));
    assert(nibble(a, 13) == nibble(b, 13));
    assert(nibble(a, 14) == nibble(b, 14));
    assert(nibble(a, 15) == nibble(b, 15));
    assert(a == b) by (bit_vector)
        requires
            (a >> 60u64) & 0xf == (b >> 60u64) & 0xf,
            (a >> 56u64) & 0xf == (b >> 56u64) & 0xf,
            (a >> 52u64) & 0xf == (b >> 52u64) & 0xf,
            (a >> 48u64) & 0xf == (b >> 48u64) & 0xf,
            (a >> 44u64) & 0xf == (b >> 44u64) & 0xf,
            (a >> 40u64) & 0xf == (b >> 40u64) & 0xf,
            (a >> 36u64) & 0xf == (b >> 36u64) & 0xf,
            (a >> 32u64) & 0xf == (b >> 32u64) & 0xf,
            (a >> 28u64) & 0xf == (b >> 28u64) & 0xf,
            (a >> 24u64) & 0xf == (b >> 24u64) & 0xf,
            (a >> 20u64) & 0xf == (b >> 20u64) & 0xf,
            (a >> 16u64) & 0xf == (b >> 16u64) & 0xf,
            (a >> 12u64) & 0xf == (b >> 12u64) & 0xf,
            (a >> 8u64) & 0xf == (b >> 8u64) & 0xf,
            (a >> 4u64) & 0xf == (b >> 4u64) & 0xf,
            (a >> 0u64) & 0xf == (b >> 0u64) & 0xf,
    ;
}

// ---------------------------------------------------------------------------
// Separated fields
// ---------------------------------------------------------------------------

/// The fields of `s` between occurrences of `sep`, as `str::split` gives
/// them: one more field than there are separators.
pub open spec fn split_on(s: Seq<char>, sep: char) -> Seq<Seq<char>>
    decreases s.len(),
{
    if s.len() == 0 {
        seq![Seq::empty()]
    } else {
        let p = split_on(s.drop_last(), sep);
        if s.last() == sep {
            p.push(Seq::empty())
        } else {
            p.update(p.len() - 1, p.last().push(s.last()))
        }
    }
}

/// The fields joined with `sep` between consecutive ones.
pub open spec fn join_with(fs: Seq<Seq<char>>, sep: char) -> Seq<char>
    decreases fs.len(),
{
    if fs.len() == 0 {
        Seq::empty()
    } else if fs.len() == 1 {
        fs[0]
    } else {
        join_with(fs.drop_last(), sep).push(sep) + fs.last()
    }
}

/// `split_on` always gives at least one field.
pub proof fn lemma_split_nonempty(s: Seq<char>, sep: char)
    ensures
        split_on(s, sep).len() >= 1,
    decreases s.len(),
{
    if s.len() > 0 {
        lemma_split_nonempty(s.drop_last(), sep);
    }
}

/// Appending text without separators extends the last field.
proof fn lemma_split_append(a: Seq<char>, b: Seq<char>, sep: char)
    requires
        !b.contains(sep),
    ensures
        split_on(a + b, sep) == split_on(a, sep).update(
            split_on(a, sep).len() - 1,
            split_on(a, sep).last() + b,
        ),
    decreases b.len(),
{
    lemma_split_nonempty(a, sep);
    let p = split_on(a, sep);
    if b.len() == 0 {
        assert(a + b =~= a);
        assert(p.last() + b =~= p.last());
        assert(p.update(p.len() - 1, p.last()) =~= p);
    } else {
        let b0 = b.drop_last();
        assert(!b0.contains(sep)) by {
            if b0.contains(sep) {
                let i = choose|i: int| 0 <= i < b0.len() && b0[i] == sep;
                assert(b[i] == sep);
            }
        }
        assert(b.last() != sep) by {
            assert(b[b.len() - 1] == b.last());
        }
        lemma_split_append(a, b0, sep);
        assert((a + b).drop_last() =~= a + b0);
        assert((a + b).last() == b.last());
        let q = split_on(a + b0, sep);
        assert(q.len() == p.len());
        assert(split_on(a + b, sep) == q.update(q.len() - 1, q.last().push(b.last())));
        assert(q.last() == p.last() + b0);
        assert((p.last() + b0).push(b.last()) =~= p.last() + b);
        assert(q.update(q.len() - 1, q.last().push(b.last())) =~= p.update(
            p.len() - 1,
            p.last() + b,
        ));
    }
}

/// Splitting fields that were joined with a separator none of them holds
/// gives the fields back.
pub proof fn lemma_split_join(fs: Seq<Seq<char>>, sep: char)
    requires
        fs.len() >= 1,
        forall|i: int| 0 <= i < fs.len() ==> !(#[trigger] fs[i]).contains(sep),
    ensures
        split_on(join_with(fs, sep), sep) == fs,
    decreases fs.len(),
{
    if fs.len() == 1 {
        lemma_split_append(Seq::empty(), fs[0], sep);
        assert(Seq::<char>::empty() + fs[0] =~= fs[0]);
        assert(Seq::<char>::empty() + fs[0] =~= fs[0]);
        assert(split_on(Seq::<char>::empty(), sep) =~= seq![Seq::<char>::empty()]);
        assert(seq![Seq::<char>::empty()].update(0, Seq::<char>::empty() + fs[0]) =~= fs);
    } else {
        let init = fs.drop_last();
        assert forall|i: int| 0 <= i < init.len() implies !(#[trigger] init[i]).contains(sep) by {
            assert(init[i] == fs[i]);
        }
        lemma_split_join(init, sep);
        let j = join_with(init, sep);
        assert(fs.last() == fs[fs.len() - 1]);
        lemma_split_append(j.push(sep), fs.last(), sep);
        assert(j.push(sep).drop_last() =~= j);
        let p = split_on(j.push(sep), sep);
        assert(p == init.push(Seq::empty()));
        assert(Seq::<char>::empty() + fs.last() =~= fs.last());
        assert(p.update(p.len() - 1, p.last() + fs.last()) =~= fs);
    }
}

/// The field separator of persisted payloads: the unit separator, which
/// never appears in sane paths.
pub open spec fn field_sep() -> char {
    '\u{1}'
}

/// Splits `s` at every unit separator.
pub fn split_fields(s: &str) -> (r: Vec<String>)
    ensures
        r.len() == split_on(s@, field_sep()).len(),
        forall|k: int| 0 <= k < r.len() ==> #[trigger] r[k]@ == split_on(s@, field_sep())[k],
{
    let cs = chars_of(s);
    let n = cs.len();
    let mut fields: Vec<String> = Vec::new();
    let mut start: usize = 0;
    let mut i: usize = 0;
    while i < n
        invariant
            cs@ == s@,
            n == cs.len(),
            start <= i <= n,
            split_on(s@.take(i as int), field_sep()).len() == fields.len() + 1,
            forall|k: int|
                0 <= k < fields.len() ==> #[trigger] fields[k]@ == split_on(
                    s@.take(i as int),
                    field_sep(),
                )[k],
            split_on(s@.take(i as int), field_sep()).last() == s@.subrange(start as int, i as int),
        decreases n - i,
    {
        let ghost parts = split_on(s@.take(i as int), field_sep());
        proof {
            assert(s@.take((i + 1) as int).drop_last() =~= s@.take(i as int));
            assert(s@.take((i + 1) as int).last() == cs@[i as int]);
        }
        if cs[i] == '\u{1}' {
            let f = String::from_str(s.substring_char(start, i));
            fields.push(f);
            start = i + 1;
            proof {
                assert(s@.subrange(start as int, (i + 1) as int) =~= Seq::<char>::empty());
            }
        } else {
            proof {
                assert(s@.subrange(start as int, (i + 1) as int) =~= s@.subrange(
                    start as int,
                    i as int,
                ).push(cs@[i as int]));
            }
        }
        i += 1;
    }
    let f = String::from_str(s.substring_char(start, n));
    fields.push(f);
    proof {
        assert(s@.take(n as int) =~= s@);
    }
    fields
}

/// The fields joined with unit separators.
pub fn join_fields(fields: &Vec<String>) -> (r: String)
    ensures
        r@ == join_with(fields@.map_values(|f: String| f@), field_sep()),
{
    let ghost fs = fields@.map_values(|f: String| f@);
    let mut s = String::new();
    let mut k: usize = 0;
    while k < fields.len()
        invariant
            fs == fields@.map_values(|f: String| f@),
            k <= fields.len(),
            s@ == join_with(fs.take(k as int), field_sep()),
        decreases fields.len() - k,
    {
        proof {
            assert(fs.take((k + 1) as int).drop_last() =~= fs.take(k as int));
            assert(fs.take((k + 1) as int).last() == fields[k as int]@);
            reveal_strlit("\u{1}");
        }
        if k > 0 {
            s.append("\u{1}");
        }
        s.append(fields[k].as_str());
        proof {
            if k == 0 {
                assert(s@ =~= join_with(fs.take(1), field_sep()));
            } else {
                assert(s@ =~= join_with(fs.take((k + 1) as int), field_sep()));
            }
        }
        k += 1;
    }
    proof {
        assert(fs.take(fields.len() as int) =~= fs);
    }
    s
}


// ---------------------------------------------------------------------------
// Floating-point text
// ---------------------------------------------------------------------------

/// One step of the recognizer of decimal floating-point numbers:
/// `Sign? (Digit+ | Digit+ '.' Digit* | Digit* '.' Digit+) Exp?` with
/// `Exp ::= ('e' | 'E') Sign? Digit+`. States: 0 start, 1 after the sign,
/// 2 in the integer digits, 3 a leading dot, 4 in the fraction, 5 after
/// the exponent mark, 6 after the exponent sign, 7 in the exponent
/// digits, 8 rejected.
pub open spec fn float_step(state: u8, c: char) -> u8 {
    let digit = is_digit(c);
    let sign = c == '+' || c == '-';
    let exp = c == 'e' || c == 'E';
    if state == 0 {
        if sign { 1 } else if digit { 2 } else if c == '.' { 3 } else { 8 }
    } else if state == 1 {
        if digit { 2 } else if c == '.' { 3 } else { 8 }
    } else if state == 2 {
        if digit { 2 } else if c == '.' { 4 } else if exp { 5 } else { 8 }
    } else if state == 3 {
        if digit { 4 } else { 8 }
    } else if state == 4 {
        if digit { 4 } else if exp { 5 } else { 8 }
    } else if state == 5 {
        if sign { 6 } else if digit { 7 } else { 8 }
    } else if state == 6 {
        if digit { 7 } else { 8 }
    } else if state == 7 {
        if digit { 7 } else { 8 }
    } else {
        8
    }
}

/// The recognizer's state after reading `s`.
pub open spec fn float_run(s: Seq<char>) -> u8
    decreases s.len(),
{
    if s.len() == 0 {
        0
    } else {
        float_step(float_run(s.drop_last()), s.last())
    }
}

/// `s` without one leading sign.
pub open spec fn unsigned_part(s: Seq<char>) -> Seq<char> {
    if s.len() > 0 && (s[0] == '+' || s[0] == '-') {
        s.drop_first()
    } else {
        s
    }
}

/// Whether `s` is text that `str::parse::<f64>` accepts: an optional sign,
/// then `inf`, `infinity` or `nan` in any ASCII case, or a decimal number
/// with an optional fraction and exponent.
pub open spec fn spec_is_float_text(s: Seq<char>) -> bool {
    let word = crate::extensions::lower(unsigned_part(s));
    ||| word == "inf"@
    ||| word == "infinity"@
    ||| word == "nan"@
    ||| (float_run(s) == 2 || float_run(s) == 4 || float_run(s) == 7)
}

/// Once the recognizer reads the separator it rejects, whatever follows.
proof fn lemma_float_run_rejects_sep(s: Seq<char>, i: int)
    requires
        0 <= i < s.len(),
        s[i] == field_sep(),
    ensures
        float_run(s) == 8,
    decreases s.len(),
{
    if i < s.len() - 1 {
        lemma_float_run_rejects_sep(s.drop_last(), i);
    }
}

/// Text that parses as a floating-point number never holds the field
/// separator.
pub proof fn lemma_float_text_clean(s: Seq<char>)
    requires
        spec_is_float_text(s),
    ensures
        !s.contains(field_sep()),
{
    if s.contains(field_sep()) {
        let i = choose|i: int| 0 <= i < s.len() && s[i] == field_sep();
        lemma_float_run_rejects_sep(s, i);
        let u = unsigned_part(s);
        let j = if s.len() > 0 && (s[0] == '+' || s[0] == '-') {
            i - 1
        } else {
            i
        };
        assert(0 <= j < u.len() && u[j] == field_sep());
        let w = crate::extensions::lower(u);
        assert(w[j] == field_sep());
        reveal_strlit("inf");
        reveal_strlit("infinity");
        reveal_strlit("nan");
        let inf = seq!['i', 'n', 'f'];
        let infinity = seq!['i', 'n', 'f', 'i', 'n', 'i', 't', 'y'];
        let nan = seq!['n', 'a', 'n'];
        assert("inf"@ =~= inf);
        assert("infinity"@ =~= infinity);
        assert("nan"@ =~= nan);
        assert(w != inf) by {
            if w == inf {
                assert(inf[j] != field_sep());
            }
        }
        assert(w != infinity) by {
            if w == infinity {
                assert(infinity[j] != field_sep());
            }
        }
        assert(w != nan) by {
            if w == nan {
                assert(nan[j] != field_sep());
            }
        }
    }
}

/// One step of the recognizer.
fn float_step_exec(state: u8, c: char) -> (r: u8)
    ensures
        r == float_step(state, c),
{
    let digit = '0' <= c && c <= '9';
    let sign = c == '+' || c == '-';
    let exp = c == 'e' || c == 'E';
    if state == 0 {
        if sign { 1 } else if digit { 2 } else if c == '.' { 3 } else { 8 }
    } else if state == 1 {
        if digit { 2 } else if c == '.' { 3 } else { 8 }
    } else if state == 2 {
        if digit { 2 } else if c == '.' { 4 } else if exp { 5 } else { 8 }
    } else if state == 3 {
        if digit { 4 } else { 8 }
    } else if state == 4 {
        if digit { 4 } else if exp { 5 } else { 8 }
    } else if state == 5 {
        if sign { 6 } else if digit { 7 } else { 8 }
    } else if state == 6 {
        if digit { 7 } else { 8 }
    } else if state == 7 {
        if digit { 7 } else { 8 }
    } else {
        8
    }
}

/// Whether `str::parse::<f64>` accepts `s`.
pub fn is_float_text(s: &str) -> (r: bool)
    ensures
        r == spec_is_float_text(s@),
{
    let cs = chars_of(s);
    let mut state: u8 = 0;
    let mut i: usize = 0;
    while i < cs.len()
        invariant
            cs@ == s@,
            i <= cs.len(),
            state == float_run(s@.take(i as int)),
        decreases cs.len() - i,
    {
        proof {
            assert(s@.take((i + 1) as int).drop_last() =~= s@.take(i as int));
        }
        state = float_step_exec(state, cs[i]);
        i += 1;
    }
    proof {
        assert(s@.take(cs.len() as int) =~= s@);
    }
    if state == 2 || state == 4 || state == 7 {
        return true;
    }
    let start: usize = if cs.len() > 0 && (cs[0] == '+' || cs[0] == '-') {
        1
    } else {
        0
    };
    let rest = s.substring_char(start, cs.len());
    proof {
        assert(rest@ =~= unsigned_part(s@));
    }
    let word = crate::extensions::ascii_lowercase(rest);
    word_is(&word, "inf") || word_is(&word, "infinity") || word_is(&word, "nan")
}

/// Whether `a` is exactly the text of `b`.
pub fn word_is(a: &Vec<char>, b: &str) -> (r: bool)
    ensures
        r == (a@ == b@),
{
    let bs = chars_of(b);
    if a.len() != bs.len() {
        return false;
    }
    let mut i: usize = 0;
    while i < a.len()
        invariant
            bs@ == b@,
            a.len() == bs.len(),
            i <= a.len(),
            forall|k: int| 0 <= k < i ==> a@[k] == bs@[k],
        decreases a.len() - i,
    {
        if a[i] != bs[i] {
            return false;
        }
        i += 1;
    }
    proof {
        assert(a@ =~= bs@);
    }
    true
}

} // verus!
