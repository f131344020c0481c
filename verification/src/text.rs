//! Text building blocks: joining with a separator, decimal numerals and
//! white-space trimming, each with its meaning as a sequence of characters.

use vstd::prelude::*;
use vstd::string::*;

verus! {

/// The character sequences of a sequence of strings.
pub open spec fn texts(strings: Seq<String>) -> Seq<Seq<char>> {
    strings.map_values(|s: String| s@)
}

/// `parts` written one after another with `sep` between neighbours.
pub open spec fn join(parts: Seq<Seq<char>>, sep: Seq<char>) -> Seq<char>
    decreases parts.len(),
{
    if parts.len() == 0 {
        Seq::empty()
    } else if parts.len() == 1 {
        parts[0]
    } else {
        join(parts.drop_last(), sep) + sep + parts.last()
    }
}

/// Joining one more part to a non-empty list appends the separator and the part.
pub proof fn lemma_join_push(parts: Seq<Seq<char>>, sep: Seq<char>, part: Seq<char>)
    ensures
        join(parts.push(part), sep) == if parts.len() == 0 {
            part
        } else {
            join(parts, sep) + sep + part
        },
{
    assert(parts.push(part).drop_last() =~= parts);
}

/// Joins `parts` with `sep` between neighbours.
pub fn join_strings(parts: &Vec<String>, sep: &str) -> (joined: String)
    ensures
        joined@ == join(texts(parts@), sep@),
{
    let mut joined = String::new();
    let mut i: usize = 0;
    while i < parts.len()
        invariant
            i <= parts.len(),
            joined@ == join(texts(parts@.take(i as int)), sep@),
        decreases parts.len() - i,
    {
        proof {
            let done = texts(parts@.take(i as int));
            assert(texts(parts@.take(i + 1)) =~= done.push(parts@[i as int]@));
            lemma_join_push(done, sep@, parts@[i as int]@);
        }
        if i > 0 {
            joined.append(sep);
        }
        joined.append(parts[i].as_str());
        i += 1;
    }
    proof {
        assert(parts@.take(parts.len() as int) =~= parts@);
    }
    joined
}

/// The character that writes the digit `d`.
pub open spec fn digit_char(d: nat) -> char {
    if d == 0 {
        '0'
    } else if d == 1 {
        '1'
    } else if d == 2 {
        '2'
    } else if d == 3 {
        '3'
    } else if d == 4 {
        '4'
    } else if d == 5 {
        '5'
    } else if d == 6 {
        '6'
    } else if d == 7 {
        '7'
    } else if d == 8 {
        '8'
    } else {
        '9'
    }
}

/// The decimal numeral of `n`, without sign or leading zeros.
pub open spec fn decimal(n: nat) -> Seq<char>
    decreases n,
{
    if n < 10 {
        seq![digit_char(n)]
    } else {
        decimal(n / 10).push(digit_char(n % 10))
    }
}

fn digit_str(d: u64) -> (s: &'static str)
    requires
        d < 10,
    ensures
        s@ == seq![digit_char(d as nat)],
{
    proof {
        reveal_strlit("0");
        reveal_strlit("1");
        reveal_strlit("2");
        reveal_strlit("3");
        reveal_strlit("4");
        reveal_strlit("5");
        reveal_strlit("6");
        reveal_strlit("7");
        reveal_strlit("8");
        reveal_strlit("9");
    }
    let s = if d == 0 {
        "0"
    } else if d == 1 {
        "1"
    } else if d == 2 {
        "2"
    } else if d == 3 {
        "3"
    } else if d == 4 {
        "4"
    } else if d == 5 {
        "5"
    } else if d == 6 {
        "6"
    } else if d == 7 {
        "7"
    } else if d == 8 {
        "8"
    } else {
        "9"
    };
    assert(s@ =~= seq![digit_char(d as nat)]);
    s
}

/// Writes `n` as a decimal numeral.
pub fn decimal_string(n: u64) -> (numeral: String)
    ensures
        numeral@ == decimal(n as nat),
    decreases n,
{
    if n < 10 {
        String::from_str(digit_str(n))
    } else {
        let mut numeral = decimal_string(n / 10);
        numeral.append(digit_str(n % 10));
        assert(numeral@ =~= decimal(n as nat));
        numeral
    }
}

/// Whether `c` is white space: what `char::is_whitespace` answers for it.
pub uninterp spec fn is_whitespace(c: char) -> bool;

/// `s` without its leading white space.
pub open spec fn trim_start(s: Seq<char>) -> Seq<char>
    decreases s.len(),
{
    if s.len() > 0 && is_whitespace(s.first()) {
        trim_start(s.drop_first())
    } else {
        s
    }
}

/// `s` without its trailing white space.
pub open spec fn trim_end(s: Seq<char>) -> Seq<char>
    decreases s.len(),
{
    if s.len() > 0 && is_whitespace(s.last()) {
        trim_end(s.drop_last())
    } else {
        s
    }
}

/// `s` without its leading and trailing white space.
pub open spec fn trimmed(s: Seq<char>) -> Seq<char> {
    trim_end(trim_start(s))
}

/// Whether `s` holds nothing but white space.
pub open spec fn is_blank(s: Seq<char>) -> bool {
    trimmed(s).len() == 0
}

/// `str::trim`: the slice of `s` that is left when the white space at both
/// ends is taken away, white space being what `char::is_whitespace` accepts.
#[verifier::external_body]
pub(crate) fn trim(s: &str) -> (inner: &str)
    ensures
        inner@ == trimmed(s@),
        inner@.len() > 0 ==> !is_whitespace(inner@.first()) && !is_whitespace(inner@.last()),
{
    s.trim()
}

/// Whether `s` holds nothing but white space.
pub fn is_blank_str(s: &str) -> (blank: bool)
    ensures
        blank == is_blank(s@),
{
    trim(s).is_empty()
}

/// Whether `lang` is the code of the Czech language.
pub open spec fn is_czech(lang: Seq<char>) -> bool {
    lang == seq!['c', 's']
}

/// Whether `lang` is the code of the Czech language.
pub fn is_czech_code(lang: &str) -> (czech: bool)
    ensures
        czech == is_czech(lang@),
{
    let czech = lang.unicode_len() == 2 && lang.get_char(0) == 'c' && lang.get_char(1) == 's';
    assert(czech ==> lang@ =~= seq!['c', 's']);
    czech
}

} // verus!
