//! Character sequences: decimal numbers, substring replacement and the
//! conversions between `str`, `String` and `Vec<char>`.

use vstd::prelude::*;

verus! {

/// The character of one decimal digit.
pub open spec fn digit_char(d: nat) -> char
    recommends
        d < 10,
{
    ((48 + d) as u8) as char
}

/// The decimal numeral of `n`, most significant digit first, without leading
/// zeros (`"0"` for zero).
pub open spec fn decimal(n: nat) -> Seq<char>
    decreases n,
{
    if n < 10 {
        seq![digit_char(n)]
    } else {
        decimal(n / 10).push(digit_char(n % 10))
    }
}

/// Whether `c` is one of `'0'..='9'`.
pub open spec fn is_digit(c: char) -> bool {
    '0' <= c <= '9'
}

/// The number that a string of decimal digits denotes.
pub open spec fn digits_value(s: Seq<char>) -> nat
    decreases s.len(),
{
    if s.len() == 0 {
        0
    } else {
        digits_value(s.drop_last()) * 10 + ((s.last() as u32 - 48) as nat)
    }
}

/// Whether `s` is a non-empty string of decimal digits.
pub open spec fn is_digits(s: Seq<char>) -> bool {
    s.len() > 0 && forall|i: int| 0 <= i < s.len() ==> is_digit(#[trigger] s[i])
}

/// The digits of an unsigned numeral: the text itself, or what follows one
/// leading `+`.
pub open spec fn numeral_digits(s: Seq<char>) -> Seq<char> {
    if s.len() > 0 && s[0] == '+' {
        s.drop_first()
    } else {
        s
    }
}

/// The value of an unsigned decimal numeral that does not exceed `max`:
/// an optional `+`, then one or more digits. Anything else has no value.
pub open spec fn parse_unsigned(s: Seq<char>, max: nat) -> Option<nat> {
    let body = numeral_digits(s);
    if is_digits(body) && digits_value(body) <= max {
        Some(digits_value(body))
    } else {
        None
    }
}

/// The characters of a text that may be missing.
pub open spec fn text_of(s: Option<String>) -> Option<Seq<char>> {
    match s {
        Some(s) => Some(s@),
        None => None,
    }
}

/// The characters of a string slice.
pub fn chars_of(s: &str) -> (v: Vec<char>)
    ensures
        v@ == s@,
{
    let mut v: Vec<char> = Vec::new();
    for c in it: s.chars()
        invariant
            it.seq() == s@,
            v@ == s@.take(it.index() as int),
    {
        v.push(c);
        assert(s@.take(it.index() + 1) =~= s@.take(it.index() as int).push(c));
    }
    assert(s@.take(s@.len() as int) =~= s@);
    v
}

/// `String::from_iter` over the characters of `v`: the string that holds
/// exactly these characters, in this order.
#[verifier::external_body]
pub(crate) fn string_of(v: &Vec<char>) -> (s: String)
    ensures
        s@ == v@,
{
    String::from_iter(v.iter())
}

/// Appends the decimal numeral of `n` to `out`.
pub fn push_decimal(n: u64, out: &mut Vec<char>)
    ensures
        final(out)@ == old(out)@ + decimal(n as nat),
    decreases n,
{
    if n >= 10 {
        push_decimal(n / 10, out);
    }
    let d: u8 = (n % 10) as u8;
    out.push((48u8 + d) as char);
    assert(final(out)@ =~= old(out)@ + decimal(n as nat));
}

/// The decimal numeral of `n`.
pub fn to_decimal(n: u64) -> (s: Vec<char>)
    ensures
        s@ == decimal(n as nat),
{
    let mut s: Vec<char> = Vec::new();
    push_decimal(n, &mut s);
    assert(s@ =~= decimal(n as nat));
    s
}

/// What is left of `s` once every occurrence of `pat`, found from the left
/// and never overlapping an earlier one, has been replaced by `with`. An
/// empty pattern replaces nothing.
pub open spec fn replace_all(s: Seq<char>, pat: Seq<char>, with: Seq<char>) -> Seq<char>
    decreases s.len(),
{
    if pat.len() == 0 || s.len() < pat.len() {
        s
    } else if s.subrange(0, pat.len() as int) == pat {
        with + replace_all(s.subrange(pat.len() as int, s.len() as int), pat, with)
    } else {
        seq![s[0]] + replace_all(s.drop_first(), pat, with)
    }
}

/// The lower-case form of an ASCII capital letter; any other character
/// unchanged.
pub open spec fn ascii_lower(c: char) -> char {
    if 'A' <= c <= 'Z' {
        ((c as u8 + 32) as u8) as char
    } else {
        c
    }
}

/// `s` with every ASCII capital letter in lower case.
pub open spec fn ascii_lowercase(s: Seq<char>) -> Seq<char> {
    Seq::new(s.len(), |i: int| ascii_lower(s[i]))
}

/// A prefix of a digit string never denotes more than the whole string.
pub proof fn lemma_digits_value_prefix(s: Seq<char>, k: int)
    requires
        0 <= k <= s.len(),
    ensures
        digits_value(s.take(k)) <= digits_value(s),
    decreases s.len() - k,
{
    if k == s.len() {
        assert(s.take(k) =~= s);
    } else {
        lemma_digits_value_prefix(s, k + 1);
        assert(s.take(k + 1).drop_last() =~= s.take(k));
        assert(digits_value(s.take(k + 1)) >= digits_value(s.take(k))) by (nonlinear_arith)
            requires
                digits_value(s.take(k + 1)) == digits_value(s.take(k)) * 10 + ((s.take(k + 1).last()
                    as u32 - 48) as nat),
        ;
    }
}

/// Reads an unsigned decimal numeral of at most `max`.
pub fn parse_number(s: &Vec<char>, max: u64) -> (r: Option<u64>)
    ensures
        match r {
            Some(n) => parse_unsigned(s@, max as nat) == Some(n as nat),
            None => parse_unsigned(s@, max as nat) is None,
        },
{
    let start: usize = if s.len() > 0 && s[0] == '+' {
        1
    } else {
        0
    };
    let ghost body = numeral_digits(s@);
    assert(body =~= s@.subrange(start as int, s.len() as int));
    if start >= s.len() {
        return None;
    }
    let mut acc: u64 = 0;
    let mut i: usize = start;
    assert(s@.subrange(start as int, start as int) =~= Seq::<char>::empty());
    while i < s.len()
        invariant
            start <= i <= s.len(),
            start < s.len(),
            body == numeral_digits(s@),
            body == s@.subrange(start as int, s.len() as int),
            forall|j: int| start <= j < i ==> is_digit(#[trigger] s@[j]),
            acc == digits_value(body.take(i - start)),
            acc <= max,
        decreases s.len() - i,
    {
        let c: char = s[i];
        assert(c == body[i - start]);
        if !('0' <= c && c <= '9') {
            assert(!is_digit(body[i - start]));
            return None;
        }
        let d: u64 = (c as u32 - 48) as u64;
        proof {
            assert(body.take(i - start + 1).drop_last() =~= body.take(i - start));
            assert(body.take(i - start + 1).last() == s@[i as int]);
            assert(digits_value(body.take(i - start + 1)) == acc * 10 + d);
            lemma_digits_value_prefix(body, i - start + 1);
        }
        if d > max || acc > (max - d) / 10 {
            return None;
        }
        acc = acc * 10 + d;
        i = i + 1;
    }
    assert(body.take(i - start) =~= body);
    assert(is_digits(body)) by {
        assert forall|j: int| 0 <= j < body.len() implies is_digit(#[trigger] body[j]) by {
            assert(body[j] == s@[j + start]);
        }
    }
    Some(acc)
}

/// The fields of `s`: the stretches between one occurrence of `sep` and the
/// next, from the start to the end. There is one field more than there are
/// occurrences of `sep`, and a field may be empty.
pub open spec fn split(s: Seq<char>, sep: char) -> Seq<Seq<char>>
    decreases s.len(),
{
    if s.len() == 0 {
        seq![Seq::empty()]
    } else {
        let front = split(s.drop_last(), sep);
        if s.last() == sep {
            front.push(Seq::empty())
        } else {
            front.update(front.len() - 1, front.last().push(s.last()))
        }
    }
}

/// The texts of a list of strings.
pub open spec fn texts(v: Seq<String>) -> Seq<Seq<char>> {
    v.map_values(|s: String| s@)
}

/// A line without the carriage return at its end, if it has one.
pub open spec fn without_cr(line: Seq<char>) -> Seq<char> {
    if line.len() > 0 && line.last() == '\r' {
        line.drop_last()
    } else {
        line
    }
}

/// The lines of a text. A line ends with a line feed, or with a carriage
/// return and a line feed, which are no part of it; what follows the last
/// line feed is a line too unless it is empty.
pub open spec fn lines_of_text(s: Seq<char>) -> Seq<Seq<char>> {
    let fields = split(s, '\n');
    let ended = fields.drop_last().map_values(|line: Seq<char>| without_cr(line));
    if fields.last().len() > 0 {
        ended.push(fields.last())
    } else {
        ended
    }
}

/// There is always a field.
pub proof fn lemma_split_len(s: Seq<char>, sep: char)
    ensures
        split(s, sep).len() >= 1,
    decreases s.len(),
{
    if s.len() > 0 {
        lemma_split_len(s.drop_last(), sep);
    }
}

/// The fields of a text between occurrences of `sep`.
pub fn split_fields(s: &str, sep: char) -> (fields: Vec<String>)
    ensures
        texts(fields@) == split(s@, sep),
{
    let chars: Vec<char> = chars_of(s);
    let mut fields: Vec<String> = Vec::new();
    let mut current: Vec<char> = Vec::new();
    let mut i: usize = 0;
    assert(chars@.take(0) =~= Seq::<char>::empty());
    assert(texts(fields@).push(current@) =~= split(chars@.take(0), sep));
    while i < chars.len()
        invariant
            i <= chars.len(),
            texts(fields@).push(current@) == split(chars@.take(i as int), sep),
        decreases chars.len() - i,
    {
        let c: char = chars[i];
        let ghost before = split(chars@.take(i as int), sep);
        proof {
            assert(chars@.take(i + 1).drop_last() =~= chars@.take(i as int));
            assert(chars@.take(i + 1).last() == c);
            assert(before.last() == current@);
        }
        if c == sep {
            let ghost done = fields@;
            let field: String = string_of(&current);
            fields.push(field);
            current = Vec::new();
            proof {
                assert(texts(fields@) =~= texts(done).push(field@));
                assert(texts(fields@).push(current@) =~= before.push(Seq::empty()));
            }
        } else {
            current.push(c);
            proof {
                assert(texts(fields@).push(current@) =~= before.update(
                    before.len() - 1,
                    before.last().push(c),
                ));
            }
        }
        i = i + 1;
    }
    proof {
        assert(chars@.take(i as int) =~= chars@);
    }
    let ghost done = fields@;
    let field: String = string_of(&current);
    fields.push(field);
    proof {
        assert(texts(fields@) =~= texts(done).push(field@));
    }
    fields
}

/// The lines of a text.
pub fn text_lines(s: &str) -> (lines: Vec<String>)
    ensures
        texts(lines@) == lines_of_text(s@),
{
    let fields: Vec<String> = split_fields(s, '\n');
    proof {
        lemma_split_len(s@, '\n');
    }
    let mut lines: Vec<String> = Vec::new();
    let n: usize = fields.len();
    let ghost all = split(s@, '\n');
    let ghost ended = all.drop_last().map_values(|line: Seq<char>| without_cr(line));
    let mut i: usize = 0;
    while i + 1 < n
        invariant
            n == fields.len(),
            n >= 1,
            i + 1 <= n,
            texts(fields@) == all,
            ended == all.drop_last().map_values(|line: Seq<char>| without_cr(line)),
            texts(lines@) == ended.take(i as int),
        decreases n - i,
    {
        let line: Vec<char> = chars_of(fields[i].as_str());
        assert(line@ == all[i as int]) by {
            assert(texts(fields@)[i as int] == fields@[i as int]@);
        }
        let ghost done = lines@;
        let kept: String = if line.len() > 0 && line[line.len() - 1] == '\r' {
            let mut short: Vec<char> = line;
            short.pop();
            assert(short@ =~= all[i as int].drop_last());
            string_of(&short)
        } else {
            string_of(&line)
        };
        lines.push(kept);
        proof {
            assert(kept@ == without_cr(all[i as int]));
            assert(texts(lines@) =~= texts(done).push(kept@));
            assert(ended.take(i + 1) =~= ended.take(i as int).push(ended[i as int]));
        }
        i = i + 1;
    }
    proof {
        assert(ended.take(i as int) =~= ended);
        assert(texts(fields@)[n - 1] == fields@[n - 1]@);
    }
    let last: Vec<char> = chars_of(fields[n - 1].as_str());
    if last.len() > 0 {
        let ghost done = lines@;
        let kept: String = string_of(&last);
        lines.push(kept);
        proof {
            assert(texts(lines@) =~= texts(done).push(kept@));
        }
    }
    lines
}

/// Whether `text` is the word `word`.
pub fn is_word(text: &Vec<char>, word: &Vec<char>) -> (same: bool)
    ensures
        same == (text@ == word@),
{
    if text.len() != word.len() {
        return false;
    }
    let mut i: usize = 0;
    while i < text.len()
        invariant
            i <= text.len(),
            text.len() == word.len(),
            forall|j: int| 0 <= j < i ==> text@[j] == word@[j],
        decreases text.len() - i,
    {
        if text[i] != word[i] {
            return false;
        }
        i = i + 1;
    }
    assert(text@ =~= word@);
    true
}

/// Whether `pat` stands in `s` at position `at`.
fn occurs_at(s: &Vec<char>, at: usize, pat: &Vec<char>) -> (r: bool)
    requires
        at + pat.len() <= s.len(),
    ensures
        r == (s@.subrange(at as int, at + pat.len()) == pat@),
{
    let mut k: usize = 0;
    while k < pat.len()
        invariant
            k <= pat.len(),
            at + pat.len() <= s.len(),
            forall|j: int| 0 <= j < k ==> s@[at + j] == pat@[j],
        decreases pat.len() - k,
    {
        if s[at + k] != pat[k] {
            assert(s@.subrange(at as int, at + pat.len())[k as int] != pat@[k as int]);
            return false;
        }
        k = k + 1;
    }
    assert(s@.subrange(at as int, at + pat.len()) =~= pat@);
    true
}

/// Replaces every occurrence of `pat` in `s` by `with`, from the left. An
/// empty pattern occurs nowhere.
pub fn replace(s: &Vec<char>, pat: &Vec<char>, with: &Vec<char>) -> (out: Vec<char>)
    ensures
        out@ == replace_all(s@, pat@, with@),
{
    let mut out: Vec<char> = Vec::new();
    let mut i: usize = 0;
    let n: usize = s.len();
    let m: usize = pat.len();
    assert(s@.subrange(0, n as int) =~= s@);
    if m == 0 {
        while i < n
            invariant
                i <= n,
                n == s.len(),
                out@ == s@.take(i as int),
            decreases n - i,
        {
            out.push(s[i]);
            assert(s@.take(i + 1) =~= s@.take(i as int).push(s@[i as int]));
            i = i + 1;
        }
        assert(s@.take(n as int) =~= s@);
        return out;
    }
    while i < n
        invariant
            i <= n,
            n == s.len(),
            m == pat.len(),
            m > 0,
            out@ + replace_all(s@.subrange(i as int, n as int), pat@, with@) == replace_all(
                s@,
                pat@,
                with@,
            ),
        decreases n - i,
    {
        let ghost rest = s@.subrange(i as int, n as int);
        if n - i >= m && occurs_at(s, i, pat) {
            assert(rest.subrange(0, m as int) =~= s@.subrange(i as int, i + m));
            assert(rest.subrange(m as int, rest.len() as int) =~= s@.subrange(i + m, n as int));
            let ghost before = out@;
            let mut k: usize = 0;
            while k < with.len()
                invariant
                    k <= with.len(),
                    out@ == before + with@.take(k as int),
                decreases with.len() - k,
            {
                out.push(with[k]);
                assert(with@.take(k + 1) =~= with@.take(k as int).push(with@[k as int]));
                assert(out@ =~= before + with@.take(k + 1));
                k = k + 1;
            }
            assert(with@.take(k as int) =~= with@);
            assert((before + with@) + replace_all(s@.subrange(i + m, n as int), pat@, with@)
                =~= before + (with@ + replace_all(s@.subrange(i + m, n as int), pat@, with@)));
            i = i + m;
        } else {
            let ghost before = out@;
            out.push(s[i]);
            if n - i >= m {
                assert(rest.subrange(0, m as int) =~= s@.subrange(i as int, i + m));
                assert(rest.drop_first() =~= s@.subrange(i + 1, n as int));
                assert(before.push(s@[i as int]) + replace_all(
                    s@.subrange(i + 1, n as int),
                    pat@,
                    with@,
                ) =~= before + (seq![rest[0]] + replace_all(rest.drop_first(), pat@, with@)));
                i = i + 1;
            } else {
                // too short for another occurrence: the rest is kept as it is
                let ghost from = i;
                i = i + 1;
                while i < n
                    invariant
                        from < i <= n,
                        n == s.len(),
                        out@ == before + s@.subrange(from as int, i as int),
                    decreases n - i,
                {
                    out.push(s[i]);
                    assert(s@.subrange(from as int, i + 1) =~= s@.subrange(from as int, i as int).push(
                        s@[i as int],
                    ));
                    i = i + 1;
                }
                assert(s@.subrange(n as int, n as int) =~= Seq::<char>::empty());
                assert(replace_all(s@.subrange(n as int, n as int), pat@, with@) =~= Seq::<
                    char,
                >::empty());
                assert(out@ + Seq::<char>::empty() =~= out@);
            }
        }
    }
    assert(s@.subrange(n as int, n as int) =~= Seq::<char>::empty());
    assert(out@ + Seq::<char>::empty() =~= out@);
    out
}

/// The lower-case form of one character, for ASCII letters.
pub fn to_ascii_lower(c: char) -> (r: char)
    ensures
        r == ascii_lower(c),
{
    if 'A' <= c && c <= 'Z' {
        let b: u8 = (c as u32 + 32) as u8;
        b as char
    } else {
        c
    }
}

/// Every ASCII capital letter of `s` in lower case.
pub fn to_ascii_lowercase(s: &Vec<char>) -> (out: Vec<char>)
    ensures
        out@ == ascii_lowercase(s@),
{
    let mut out: Vec<char> = Vec::new();
    let mut i: usize = 0;
    while i < s.len()
        invariant
            i <= s.len(),
            out@.len() == i,
            forall|j: int| 0 <= j < i ==> out@[j] == ascii_lower(s@[j]),
        decreases s.len() - i,
    {
        out.push(to_ascii_lower(s[i]));
        i = i + 1;
    }
    assert(out@ =~= ascii_lowercase(s@));
    out
}

} // verus!
