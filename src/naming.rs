//! Numbered names (`<ordinal>_<name>`), markdown file names, and decimal text.
use vstd::prelude::*;
use vstd::string::StrSliceExecFns;
use vstd::string::StringExecFns;

verus! {

/// The largest ordinal a numbered name can carry.
pub const MAX_ORDINAL: u16 = 65535;

/// The extension that marks a lesson file, with its dot.
pub const MARKDOWN_SUFFIX: &'static str = ".md";

/// The ten decimal digits, in order.
pub const DIGITS: &'static str = "0123456789";

pub open spec fn is_digit(c: char) -> bool {
    '0' <= c && c <= '9'
}

pub open spec fn digit_value(c: char) -> nat {
    (c as u32 - '0' as u32) as nat
}

/// The number that a run of decimal digits writes.
pub open spec fn digits_value(s: Seq<char>) -> nat
    decreases s.len(),
{
    if s.len() == 0 {
        0
    } else {
        digits_value(s.drop_last()) * 10 + digit_value(s.last())
    }
}

/// How many decimal digits `s` starts with.
pub open spec fn digit_run(s: Seq<char>) -> nat
    decreases s.len(),
{
    if s.len() > 0 && is_digit(s[0]) {
        1 + digit_run(s.drop_first())
    } else {
        0
    }
}

/// A numbered name `<digits>_<rest>` split into its ordinal and the text after
/// the first underscore; `None` when the name has no such form or the ordinal
/// does not fit in a `u16`.
pub open spec fn split_ordinal_spec(s: Seq<char>) -> Option<(u16, Seq<char>)> {
    let k = digit_run(s) as int;
    if 0 < k < s.len() && s[k] == '_' && digits_value(s.subrange(0, k)) <= MAX_ORDINAL {
        Some((digits_value(s.subrange(0, k)) as u16, s.subrange(k + 1, s.len() as int)))
    } else {
        None
    }
}

/// The stem of a markdown file name: what precedes a final `.md`, when that
/// is not empty.
pub open spec fn markdown_stem_spec(file_name: Seq<char>) -> Option<Seq<char>> {
    let n = file_name.len();
    if n > 3 && file_name.subrange(n - 3, n as int) == MARKDOWN_SUFFIX@ {
        Some(file_name.subrange(0, n - 3))
    } else {
        None
    }
}

pub open spec fn digit_char(d: nat) -> char {
    if d == 0 {
        '0'
    } else if d == 1 {
        '1'
    } else if d == 2 {
        '2'
    } else if d == 3 {
        '3'
    } else if d == 4 {
        '4'
    } else if d == 5 {
        '5'
    } else if d == 6 {
        '6'
    } else if d == 7 {
        '7'
    } else if d == 8 {
        '8'
    } else {
        '9'
    }
}

/// The decimal text of `n`, without leading zeros.
pub open spec fn decimal(n: nat) -> Seq<char>
    decreases n,
{
    if n < 10 {
        seq![digit_char(n)]
    } else {
        decimal(n / 10).push(digit_char(n % 10))
    }
}

proof fn lemma_digit_run(s: Seq<char>, i: int)
    requires
        0 <= i <= s.len(),
        forall|j: int| 0 <= j < i ==> is_digit(#[trigger] s[j]),
        i == s.len() || !is_digit(s[i]),
    ensures
        digit_run(s) == i,
    decreases i,
{
    if i > 0 {
        lemma_digit_run(s.drop_first(), i - 1);
    }
}

proof fn lemma_digits_value_step(s: Seq<char>, i: int)
    requires
        0 <= i < s.len(),
    ensures
        digits_value(s.subrange(0, i + 1)) == digits_value(s.subrange(0, i)) * 10
            + digit_value(s[i]),
{
    assert(s.subrange(0, i + 1).drop_last() =~= s.subrange(0, i));
}

/// Reads the decimal digits that `s` starts with: how many there are, and
/// the number they write when it is at most `limit`.
fn read_number(s: &str, limit: u64) -> (r: (usize, Option<u64>))
    ensures
        r.0 == digit_run(s@),
        r.0 <= s@.len(),
        r.1 == (if digits_value(s@.subrange(0, r.0 as int)) <= limit {
            Some(digits_value(s@.subrange(0, r.0 as int)) as u64)
        } else {
            None::<u64>
        }),
{
    let len = s.unicode_len();
    let mut i: usize = 0;
    let mut value: u128 = 0;
    let mut over = false;
    while i < len && '0' <= s.get_char(i) && s.get_char(i) <= '9'
        invariant
            i <= len,
            len == s@.len(),
            value <= limit,
            forall|j: int| 0 <= j < i ==> is_digit(#[trigger] s@[j]),
            !over ==> value == digits_value(s@.subrange(0, i as int)),
            over ==> digits_value(s@.subrange(0, i as int)) > limit,
        decreases len - i,
    {
        let c = s.get_char(i);
        let d = ((c as u32) - ('0' as u32)) as u128;
        proof {
            lemma_digits_value_step(s@, i as int);
        }
        if !over {
            let next = value * 10 + d;
            if next > limit as u128 {
                over = true;
            } else {
                value = next;
            }
        }
        i = i + 1;
    }
    proof {
        lemma_digit_run(s@, i as int);
    }
    if over {
        (i, None)
    } else {
        (i, Some(value as u64))
    }
}

/// Splits a numbered name `<digits>_<rest>` into its ordinal and the text
/// after the first underscore.
pub fn split_ordinal(s: &str) -> (r: Option<(u16, String)>)
    ensures
        match r {
            Some((n, rest)) => split_ordinal_spec(s@) == Some((n, rest@)),
            None => split_ordinal_spec(s@) is None,
        },
{
    let len = s.unicode_len();
    let (i, value) = read_number(s, MAX_ORDINAL as u64);
    match value {
        Some(v) => {
            if i == 0 || i >= len || s.get_char(i) != '_' {
                None
            } else {
                let rest = String::from_str(s.substring_char(i + 1, len));
                Some((v as u16, rest))
            }
        },
        None => None,
    }
}

/// A name `<digits>_<rest>` split into the number that `<digits>` writes,
/// whatever its size, and the text after the first underscore; `None` for a
/// name without such a prefix.
pub open spec fn split_prefix_spec(s: Seq<char>) -> Option<(nat, Seq<char>)> {
    let k = digit_run(s) as int;
    if 0 < k < s.len() && s[k] == '_' {
        Some((digits_value(s.subrange(0, k)), s.subrange(k + 1, s.len() as int)))
    } else {
        None
    }
}

/// The number as a `u64`, where it fits in one.
pub open spec fn fitting_u64(v: nat) -> Option<u64> {
    if v <= u64::MAX {
        Some(v as u64)
    } else {
        None
    }
}

/// Splits a name `<digits>_<rest>` into the number that `<digits>` writes,
/// where it fits in a `u64`, and the text after the first underscore.
pub fn split_prefix(s: &str) -> (r: Option<(Option<u64>, String)>)
    ensures
        match r {
            Some((n, rest)) => split_prefix_spec(s@) matches Some((v, tail)) && n == fitting_u64(v)
                && rest@ == tail,
            None => split_prefix_spec(s@) is None,
        },
{
    let len = s.unicode_len();
    let (i, value) = read_number(s, u64::MAX);
    if i == 0 || i >= len || s.get_char(i) != '_' {
        None
    } else {
        let rest = String::from_str(s.substring_char(i + 1, len));
        Some((value, rest))
    }
}

/// The stem of a markdown file name, `None` for a file of another kind.
pub fn markdown_stem(file_name: &str) -> (r: Option<String>)
    ensures
        match r {
            Some(stem) => markdown_stem_spec(file_name@) == Some(stem@),
            None => markdown_stem_spec(file_name@) is None,
        },
{
    let n = file_name.unicode_len();
    if n <= 3 {
        return None;
    }
    let suffix = file_name.substring_char(n - 3, n);
    proof {
        reveal_strlit(".md");
    }
    if suffix.get_char(0) == '.' && suffix.get_char(1) == 'm' && suffix.get_char(2) == 'd' {
        assert(suffix@ =~= MARKDOWN_SUFFIX@);
        Some(String::from_str(file_name.substring_char(0, n - 3)))
    } else {
        None
    }
}

/// Appends the decimal text of `n` to `buf`.
pub fn push_decimal(buf: &mut String, n: u64)
    ensures
        final(buf)@ == old(buf)@ + decimal(n as nat),
    decreases n,
{
    if n >= 10 {
        push_decimal(buf, n / 10);
    }
    let d = (n % 10) as usize;
    proof {
        reveal_strlit("0123456789");
    }
    let digit = DIGITS.substring_char(d, d + 1);
    assert(digit@ =~= seq![digit_char(d as nat)]);
    buf.append(digit);
    assert(final(buf)@ =~= old(buf)@ + decimal(n as nat));
}

/// A numbered name `<digits>_<name>` splits into the number that `<digits>`
/// writes and `<name>`, whatever `<name>` holds.
pub proof fn lemma_split_numbered(digits: Seq<char>, name: Seq<char>)
    requires
        digits.len() > 0,
        forall|i: int| 0 <= i < digits.len() ==> is_digit(#[trigger] digits[i]),
        digits_value(digits) <= MAX_ORDINAL,
    ensures
        split_ordinal_spec(digits + seq!['_'] + name) == Some((digits_value(digits) as u16, name)),
{
    let s = digits + seq!['_'] + name;
    let k = digits.len() as int;
    assert forall|j: int| 0 <= j < k implies is_digit(#[trigger] s[j]) by {
        assert(s[j] == digits[j]);
    }
    assert(s[k] == '_');
    lemma_digit_run(s, k);
    assert(s.subrange(0, k) =~= digits);
    assert(s.subrange(k + 1, s.len() as int) =~= name);
}


/// A name `<digits>_<name>` splits into the number that `<digits>` writes
/// and `<name>`, whatever the size of the number and whatever `<name>` holds.
pub proof fn lemma_split_prefixed(digits: Seq<char>, name: Seq<char>)
    requires
        digits.len() > 0,
        forall|i: int| 0 <= i < digits.len() ==> is_digit(#[trigger] digits[i]),
    ensures
        split_prefix_spec(digits + seq!['_'] + name) == Some((digits_value(digits), name)),
{
    let s = digits + seq!['_'] + name;
    let k = digits.len() as int;
    assert forall|j: int| 0 <= j < k implies is_digit(#[trigger] s[j]) by {
        assert(s[j] == digits[j]);
    }
    assert(s[k] == '_');
    lemma_digit_run(s, k);
    assert(s.subrange(0, k) =~= digits);
    assert(s.subrange(k + 1, s.len() as int) =~= name);
}


} // verus!
