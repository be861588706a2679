//! Character-level text helpers that the rest of the library reasons about.

use vstd::prelude::*;

verus! {

broadcast use vstd::string::group_string_axioms;

/// The characters of a string, in order.
pub fn chars_of(s: &str) -> (v: Vec<char>)
    ensures
        v@ == s@,
{
    let n = s.unicode_len();
    let mut v: Vec<char> = Vec::new();
    let mut i: usize = 0;
    while i < n
        invariant
            n == s@.len(),
            i <= n,
            v@ == s@.subrange(0, i as int),
        decreases n - i,
    {
        v.push(s.get_char(i));
        assert(s@.subrange(0, i + 1) =~= s@.subrange(0, i as int).push(s@[i as int]));
        i = i + 1;
    }
    assert(s@.subrange(0, n as int) =~= s@);
    v
}

/// Appends one character (std's `String::push`).
#[verifier::external_body]
pub(crate) fn push_char(s: &mut String, c: char)
    ensures
        final(s)@ == old(s)@.push(c),
{
    s.push(c);
}

/// A string holding exactly the given characters.
pub fn string_from(v: &[char]) -> (s: String)
    ensures
        s@ == v@,
{
    let mut s = String::new();
    let mut i: usize = 0;
    while i < v.len()
        invariant
            i <= v@.len(),
            s@ == v@.subrange(0, i as int),
        decreases v@.len() - i,
    {
        push_char(&mut s, v[i]);
        assert(v@.subrange(0, i + 1) =~= v@.subrange(0, i as int).push(v@[i as int]));
        i = i + 1;
    }
    assert(v@.subrange(0, v@.len() as int) =~= v@);
    s
}

/// The decimal digit for `d`, which is below ten.
pub open spec fn digit_char(d: nat) -> char {
    ((d + 48) as u8) as char
}

/// The decimal notation of `n`, without sign or leading zeros.
pub open spec fn decimal(n: nat) -> Seq<char>
    decreases n,
{
    if n < 10 {
        seq![digit_char(n)]
    } else {
        decimal(n / 10).push(digit_char(n % 10))
    }
}

/// Appends the decimal notation of `n` to `out`.
pub fn push_decimal(out: &mut Vec<char>, n: u64)
    ensures
        final(out)@ == old(out)@ + decimal(n as nat),
    decreases n,
{
    if n >= 10 {
        push_decimal(out, n / 10);
    }
    let c = ((n % 10 + 48) as u8) as char;
    out.push(c);
    if n < 10 {
        assert(decimal(n as nat) =~= seq![c]);
    }
}

/// The decimal notation of `n`.
pub fn decimal_string(n: u64) -> (s: String)
    ensures
        s@ == decimal(n as nat),
{
    let mut out: Vec<char> = Vec::new();
    push_decimal(&mut out, n);
    assert(out@ =~= decimal(n as nat));
    string_from(&out)
}

/// The characters Unicode calls white space (`char::is_whitespace`).
pub open spec fn is_white_space(c: char) -> bool {
    ('\u{9}' <= c && c <= '\u{d}') || c == ' ' || c == '\u{85}' || c == '\u{a0}' || c == '\u{1680}'
        || ('\u{2000}' <= c && c <= '\u{200a}') || c == '\u{2028}' || c == '\u{2029}' || c
        == '\u{202f}' || c == '\u{205f}' || c == '\u{3000}'
}

/// Whether `c` is white space.
pub fn white_space(c: char) -> (ws: bool)
    ensures
        ws == is_white_space(c),
{
    ('\u{9}' <= c && c <= '\u{d}') || c == ' ' || c == '\u{85}' || c == '\u{a0}' || c == '\u{1680}'
        || ('\u{2000}' <= c && c <= '\u{200a}') || c == '\u{2028}' || c == '\u{2029}' || c
        == '\u{202f}' || c == '\u{205f}' || c == '\u{3000}'
}

/// The number of leading white-space characters.
pub open spec fn leading_space(s: Seq<char>) -> nat
    decreases s.len(),
{
    if s.len() > 0 && is_white_space(s[0]) {
        1 + leading_space(s.drop_first())
    } else {
        0
    }
}

/// The number of trailing white-space characters.
pub open spec fn trailing_space(s: Seq<char>) -> nat
    decreases s.len(),
{
    if s.len() > 0 && is_white_space(s.last()) {
        1 + trailing_space(s.drop_last())
    } else {
        0
    }
}

/// `s` without leading and trailing white space (`str::trim`).
pub open spec fn trimmed(s: Seq<char>) -> Seq<char> {
    let start = leading_space(s) as int;
    let rest = s.subrange(start, s.len() as int);
    rest.subrange(0, rest.len() - trailing_space(rest))
}

pub proof fn lemma_leading_space_bound(s: Seq<char>)
    ensures
        leading_space(s) <= s.len(),
    decreases s.len(),
{
    if s.len() > 0 && is_white_space(s[0]) {
        lemma_leading_space_bound(s.drop_first());
    }
}

pub proof fn lemma_trailing_space_bound(s: Seq<char>)
    ensures
        trailing_space(s) <= s.len(),
    decreases s.len(),
{
    if s.len() > 0 && is_white_space(s.last()) {
        lemma_trailing_space_bound(s.drop_last());
    }
}

/// The characters of `s` without leading and trailing white space.
pub fn trim_chars(s: &Vec<char>) -> (t: Vec<char>)
    ensures
        t@ == trimmed(s@),
{
    proof {
        lemma_leading_space_bound(s@);
    }
    let mut start: usize = 0;
    assert(s@.subrange(0, s@.len() as int) =~= s@);
    while start < s.len() && white_space(s[start])
        invariant
            start <= s@.len(),
            leading_space(s@) == start + leading_space(s@.subrange(start as int, s@.len() as int)),
        decreases s@.len() - start,
    {
        proof {
            let rest = s@.subrange(start as int, s@.len() as int);
            assert(rest.drop_first() =~= s@.subrange(start + 1, s@.len() as int));
        }
        start = start + 1;
    }
    proof {
        assert(s@.subrange(s@.len() as int, s@.len() as int) =~= Seq::<char>::empty());
        let rest = s@.subrange(start as int, s@.len() as int);
        if start < s@.len() {
            assert(rest[0] == s@[start as int]);
        }
        assert(leading_space(rest) == 0);
    }
    let ghost rest = s@.subrange(start as int, s@.len() as int);
    proof {
        lemma_trailing_space_bound(rest);
    }
    let mut end: usize = s.len();
    while end > start && white_space(s[end - 1])
        invariant
            start <= end <= s@.len(),
            rest == s@.subrange(start as int, s@.len() as int),
            trailing_space(rest) == (s@.len() - end) + trailing_space(
                s@.subrange(start as int, end as int),
            ),
        decreases end,
    {
        proof {
            let part = s@.subrange(start as int, end as int);
            assert(part.drop_last() =~= s@.subrange(start as int, end - 1));
        }
        end = end - 1;
    }
    proof {
        let part = s@.subrange(start as int, end as int);
        if end > start {
            assert(part.last() == s@[end - 1]);
        }
        assert(trailing_space(part) == 0);
        assert(rest.subrange(0, rest.len() - trailing_space(rest)) =~= part);
    }
    let mut t: Vec<char> = Vec::new();
    let mut i: usize = start;
    while i < end
        invariant
            start <= i <= end <= s@.len(),
            t@ == s@.subrange(start as int, i as int),
        decreases end - i,
    {
        t.push(s[i]);
        assert(s@.subrange(start as int, i + 1) =~= s@.subrange(start as int, i as int).push(s@[i as int]));
        i = i + 1;
    }
    t
}

/// Whether `s` has no character but white space.
pub open spec fn is_blank(s: Seq<char>) -> bool {
    forall|i: int| 0 <= i < s.len() ==> is_white_space(#[trigger] s[i])
}

/// The maximal runs of non-white-space characters of `s`, in order
/// (`str::split_whitespace`). `current` is the run being collected.
pub open spec fn words_from(s: Seq<char>, current: Seq<char>) -> Seq<Seq<char>>
    decreases s.len(),
{
    if s.len() == 0 {
        if current.len() == 0 {
            Seq::empty()
        } else {
            seq![current]
        }
    } else if is_white_space(s[0]) {
        if current.len() == 0 {
            words_from(s.drop_first(), current)
        } else {
            seq![current] + words_from(s.drop_first(), Seq::empty())
        }
    } else {
        words_from(s.drop_first(), current.push(s[0]))
    }
}

/// The words of `s`, separated by white space.
pub open spec fn words(s: Seq<char>) -> Seq<Seq<char>> {
    words_from(s, Seq::empty())
}

/// Splits `s` into its white-space separated words.
pub fn split_words(s: &Vec<char>) -> (result: Vec<Vec<char>>)
    ensures
        result@.map_values(|w: Vec<char>| w@) == words(s@),
{
    let mut result: Vec<Vec<char>> = Vec::new();
    let mut current: Vec<char> = Vec::new();
    let mut i: usize = 0;
    assert(s@.subrange(0, s@.len() as int) =~= s@);
    assert(result@.map_values(|w: Vec<char>| w@) =~= Seq::<Seq<char>>::empty());
    assert(current@ =~= Seq::<char>::empty());
    while i < s.len()
        invariant
            i <= s@.len(),
            words(s@) == result@.map_values(|w: Vec<char>| w@) + words_from(
                s@.subrange(i as int, s@.len() as int),
                current@,
            ),
        decreases s@.len() - i,
    {
        let ghost rest = s@.subrange(i as int, s@.len() as int);
        proof {
            assert(rest.drop_first() =~= s@.subrange(i + 1, s@.len() as int));
            assert(rest[0] == s@[i as int]);
        }
        if white_space(s[i]) {
            if current.len() > 0 {
                let ghost before = result@.map_values(|w: Vec<char>| w@);
                let word = current;
                current = Vec::new();
                result.push(word);
                proof {
                    assert(result@.map_values(|w: Vec<char>| w@) =~= before.push(word@));
                    assert(before + (seq![word@] + words_from(rest.drop_first(), Seq::empty()))
                        =~= before.push(word@) + words_from(rest.drop_first(), Seq::empty()));
                    assert(current@ =~= Seq::<char>::empty());
                }
            }
        } else {
            current.push(s[i]);
        }
        i = i + 1;
    }
    proof {
        assert(s@.subrange(s@.len() as int, s@.len() as int) =~= Seq::<char>::empty());
    }
    if current.len() > 0 {
        let ghost before = result@.map_values(|w: Vec<char>| w@);
        result.push(current);
        proof {
            assert(result@.map_values(|w: Vec<char>| w@) =~= before + seq![result@.last()@]);
        }
    } else {
        proof {
            assert(result@.map_values(|w: Vec<char>| w@) + Seq::<Seq<char>>::empty() =~= result@.map_values(|w: Vec<char>| w@));
        }
    }
    result
}

/// The value of a string of ASCII digits.
pub open spec fn digits_value(s: Seq<char>) -> nat
    decreases s.len(),
{
    if s.len() == 0 {
        0
    } else {
        digits_value(s.drop_last()) * 10 + ((s.last() as u32) - 48) as nat
    }
}

pub open spec fn all_digits(s: Seq<char>) -> bool {
    forall|i: int| 0 <= i < s.len() ==> '0' <= #[trigger] s[i] && s[i] <= '9'
}

/// What `str::parse` makes of `s` for an unsigned integer type whose largest
/// value is `max`: an optional `+`, then one or more ASCII digits whose value
/// is at most `max`.
pub open spec fn parsed_unsigned(s: Seq<char>, max: nat) -> Option<nat> {
    let digits = if s.len() > 0 && s[0] == '+' {
        s.drop_first()
    } else {
        s
    };
    if digits.len() > 0 && all_digits(digits) && digits_value(digits) <= max {
        Some(digits_value(digits))
    } else {
        None
    }
}

/// A digit string is worth at least any of its prefixes.
pub proof fn lemma_digits_value_monotone(s: Seq<char>, n: int)
    requires
        0 <= n <= s.len(),
        all_digits(s),
    ensures
        digits_value(s.subrange(0, n)) <= digits_value(s),
    decreases s.len() - n,
{
    if n < s.len() {
        lemma_digits_value_monotone(s, n + 1);
        assert(s.subrange(0, n + 1).drop_last() =~= s.subrange(0, n));
        assert('0' <= s[n]);
    } else {
        assert(s.subrange(0, n) =~= s);
    }
}

/// Parses `s` from `start` on as an unsigned integer no larger than `max`.
pub fn parse_unsigned(s: &Vec<char>, start: usize, max: u64) -> (value: Option<u64>)
    requires
        start <= s@.len(),
    ensures
        match parsed_unsigned(s@.subrange(start as int, s@.len() as int), max as nat) {
            Some(v) => value == Some(v as u64),
            None => value is None,
        },
{
    let ghost whole = s@.subrange(start as int, s@.len() as int);
    let mut i = start;
    if i < s.len() && s[i] == '+' {
        i = i + 1;
    }
    let ghost digits = s@.subrange(i as int, s@.len() as int);
    proof {
        if start < s@.len() && s@[start as int] == '+' {
            assert(whole.drop_first() =~= digits);
        } else {
            assert(whole =~= digits);
        }
    }
    if i >= s.len() {
        return None;
    }
    let mut value: u64 = 0;
    let mut j = i;
    while j < s.len()
        invariant
            i < s@.len(),
            whole == s@.subrange(start as int, s@.len() as int),
            parsed_unsigned(whole, max as nat) == (if digits.len() > 0 && all_digits(digits) && digits_value(digits) <= max {
                Some(digits_value(digits))
            } else {
                None
            }),
            i <= j <= s@.len(),
            digits == s@.subrange(i as int, s@.len() as int),
            all_digits(s@.subrange(i as int, j as int)),
            value == digits_value(s@.subrange(i as int, j as int)),
            value <= max,
        decreases s@.len() - j,
    {
        let c = s[j];
        if !('0' <= c && c <= '9') {
            assert(digits[j - i] == c);
            assert(!all_digits(digits));
            return None;
        }
        proof {
            assert(s@.subrange(i as int, j + 1).drop_last() =~= s@.subrange(i as int, j as int));
        }
        let d = ((c as u32) - 48) as u64;
        if d > max || value > (max - d) / 10 {
            proof {
                if d <= max {
                    assert(value * 10 + d > max) by (nonlinear_arith)
                        requires
                            value > (max - d) / 10,
                            d <= max,
                    ;
                }
                if all_digits(digits) {
                    lemma_digits_value_monotone(digits, (j + 1 - i) as int);
                    assert(digits.subrange(0, (j + 1 - i) as int) =~= s@.subrange(i as int, j + 1));
                }
            }
            return None;
        }
        assert(value * 10 + d <= max) by (nonlinear_arith)
            requires
                value <= (max - d) / 10,
                d <= max,
        ;
        value = value * 10 + d;
        j = j + 1;
    }
    assert(s@.subrange(i as int, j as int) =~= digits);
    Some(value)
}

/// Whether `s` holds exactly the characters of `text`.
pub fn equals_text(s: &Vec<char>, text: &str) -> (same: bool)
    ensures
        same == (s@ == text@),
{
    let t = chars_of(text);
    if t.len() != s.len() {
        return false;
    }
    let mut i: usize = 0;
    while i < t.len()
        invariant
            t@ == text@,
            t@.len() == s@.len(),
            i <= t@.len(),
            forall|j: int| 0 <= j < i ==> s@[j] == t@[j],
        decreases t@.len() - i,
    {
        if s[i] != t[i] {
            return false;
        }
        i = i + 1;
    }
    assert(s@ =~= t@);
    true
}

/// Appends the characters of `text` to `out`.
pub fn append_text(out: &mut Vec<char>, text: &str)
    ensures
        final(out)@ == old(out)@ + text@,
{
    let t = chars_of(text);
    let mut i: usize = 0;
    while i < t.len()
        invariant
            t@ == text@,
            i <= t@.len(),
            out@ == old(out)@ + t@.subrange(0, i as int),
        decreases t@.len() - i,
    {
        out.push(t[i]);
        assert(t@.subrange(0, i + 1) =~= t@.subrange(0, i as int).push(t@[i as int]));
        i = i + 1;
    }
    assert(t@.subrange(0, t@.len() as int) =~= t@);
}

/// Appends `more` to `out`.
pub fn append_chars(out: &mut Vec<char>, more: &Vec<char>)
    ensures
        final(out)@ == old(out)@ + more@,
{
    let mut i: usize = 0;
    while i < more.len()
        invariant
            i <= more@.len(),
            out@ == old(out)@ + more@.subrange(0, i as int),
        decreases more@.len() - i,
    {
        out.push(more[i]);
        assert(more@.subrange(0, i + 1) =~= more@.subrange(0, i as int).push(more@[i as int]));
        i = i + 1;
    }
    assert(more@.subrange(0, more@.len() as int) =~= more@);
}

/// Whether `a` and `b` hold the same characters.
pub fn same_chars(a: &Vec<char>, b: &Vec<char>) -> (same: bool)
    ensures
        same == (a@ == b@),
{
    if a.len() != b.len() {
        return false;
    }
    let mut i: usize = 0;
    while i < a.len()
        invariant
            a@.len() == b@.len(),
            i <= a@.len(),
            forall|j: int| 0 <= j < i ==> a@[j] == b@[j],
        decreases a@.len() - i,
    {
        if a[i] != b[i] {
            return false;
        }
        i = i + 1;
    }
    assert(a@ =~= b@);
    true
}

/// Whether `s` begins with `prefix`.
pub open spec fn has_prefix(s: Seq<char>, prefix: Seq<char>) -> bool {
    prefix.len() <= s.len() && s.subrange(0, prefix.len() as int) == prefix
}

/// Whether `s` begins with `prefix`.
pub fn starts_with(s: &Vec<char>, prefix: &str) -> (result: bool)
    ensures
        result == has_prefix(s@, prefix@),
{
    let p = chars_of(prefix);
    if p.len() > s.len() {
        return false;
    }
    let mut i: usize = 0;
    while i < p.len()
        invariant
            p@ == prefix@,
            p@.len() <= s@.len(),
            i <= p@.len(),
            forall|j: int| 0 <= j < i ==> s@[j] == p@[j],
        decreases p@.len() - i,
    {
        if s[i] != p[i] {
            assert(s@.subrange(0, p@.len() as int)[i as int] != p@[i as int]);
            return false;
        }
        i = i + 1;
    }
    assert(s@.subrange(0, p@.len() as int) =~= p@);
    true
}

/// `PathBuf::join` on Unix paths: an absolute `child` replaces `base`;
/// otherwise a separator is inserted unless `base` is empty or already ends
/// with one.
pub open spec fn path_join(base: Seq<char>, child: Seq<char>) -> Seq<char> {
    if child.len() > 0 && child[0] == '/' {
        child
    } else if base.len() == 0 {
        child
    } else if base.last() == '/' {
        base + child
    } else {
        base + seq!['/'] + child
    }
}

/// Joins `child` onto `base` as `PathBuf::join` does.
pub fn join_path(base: &str, child: &str) -> (joined: String)
    ensures
        joined@ == path_join(base@, child@),
{
    let b = chars_of(base);
    let c = chars_of(child);
    if c.len() > 0 && c[0] == '/' {
        return child.to_owned();
    }
    if b.len() == 0 {
        return child.to_owned();
    }
    let mut joined = base.to_owned();
    if b[b.len() - 1] != '/' {
        push_char(&mut joined, '/');
    }
    joined.append(child);
    joined
}

} // verus!
