//! Text that the library compares and composes.
use vstd::prelude::*;
use vstd::string::*;
use vstd::utf8::is_ascii_chars;

verus! {

/// The Unicode lower case of `s`, as std maps it.
pub uninterp spec fn lowercase(s: Seq<char>) -> Seq<char>;

/// The lower case of an ASCII character: `A` to `Z` become `a` to `z`, all
/// others stay.
pub open spec fn ascii_lower_char(c: char) -> char {
    if 'A' <= c <= 'Z' {
        (c as u32 + 32) as char
    } else {
        c
    }
}

/// The lower case of ASCII text, letter by letter.
pub open spec fn ascii_lower(s: Seq<char>) -> Seq<char> {
    s.map_values(|c: char| ascii_lower_char(c))
}

/// The lower case of `s`.
pub open spec fn lower(s: Seq<char>) -> Seq<char> {
    if is_ascii_chars(s) {
        ascii_lower(s)
    } else {
        lowercase(s)
    }
}

/// `str::to_lowercase` of std. Claims that the result depends on the
/// characters alone, and not, say, on a locale, and that ASCII text is mapped
/// letter by letter.
pub assume_specification[ str::to_lowercase ](s: &str) -> (res: String)
    ensures
        res@ == lowercase(s@),
        is_ascii_chars(s@) ==> res@ == ascii_lower(s@),
;

/// `String::push` of std: appends one character.
pub assume_specification[ String::push ](s: &mut String, c: char)
    ensures
        final(s)@ == old(s)@.push(c),
;

/// The lower case of `s`.
pub fn lowered(s: &str) -> (res: String)
    ensures
        res@ == lower(s@),
{
    s.to_lowercase()
}

/// The decimal digits of `n`.
pub open spec fn decimal(n: nat) -> Seq<char>
    decreases n,
{
    if n < 10 {
        seq![(48 + n) as char]
    } else {
        decimal(n / 10).push((48 + n % 10) as char)
    }
}

/// Appends the decimal digits of `n`.
pub fn push_decimal(s: &mut String, n: usize)
    ensures
        final(s)@ == old(s)@ + decimal(n as nat),
    decreases n,
{
    if n >= 10 {
        push_decimal(s, n / 10);
    }
    s.push((48 + (n % 10) as u8) as char);
    proof {
        if n < 10 {
            assert(s@ =~= old(s)@ + decimal(n as nat));
        } else {
            assert(s@ =~= old(s)@ + decimal(n as nat / 10).push((48 + n % 10) as char));
        }
    }
}

/// `s` without the dots at its end.
pub open spec fn trimmed(s: Seq<char>) -> Seq<char>
    decreases s.len(),
{
    if s.len() > 0 && s.last() == '.' {
        trimmed(s.drop_last())
    } else {
        s
    }
}

/// `s` without the dots at its end.
pub fn trim_end_dots(s: &str) -> (res: &str)
    ensures
        res@ == trimmed(s@),
{
    let mut n: usize = s.unicode_len();
    assert(s@.take(n as int) =~= s@);
    while n > 0 && s.get_char(n - 1) == '.'
        invariant
            n <= s@.len(),
            trimmed(s@.take(n as int)) == trimmed(s@),
        decreases n,
    {
        assert(s@.take(n as int).drop_last() =~= s@.take(n - 1));
        n = n - 1;
    }
    s.substring_char(0, n)
}

/// What is left of a text is the beginning of it.
pub proof fn lemma_trimmed_is_prefix(s: Seq<char>)
    ensures
        trimmed(s).len() <= s.len(),
        trimmed(s) == s.take(trimmed(s).len() as int),
    decreases s.len(),
{
    if s.len() > 0 && s.last() == '.' {
        lemma_trimmed_is_prefix(s.drop_last());
        assert(s.drop_last().take(trimmed(s).len() as int) =~= s.take(trimmed(s).len() as int));
    } else {
        assert(s.take(s.len() as int) =~= s);
    }
}

/// Dots are trimmed from ASCII text before or after it is put in lower case,
/// which comes to the same.
pub proof fn trimming_commutes_with_lower_case(s: Seq<char>)
    ensures
        ascii_lower(trimmed(s)) == trimmed(ascii_lower(s)),
    decreases s.len(),
{
    if s.len() > 0 {
        assert(ascii_lower(s).last() == ascii_lower_char(s.last()));
        assert(ascii_lower_char(s.last()) == '.' <==> s.last() == '.');
        if s.last() == '.' {
            trimming_commutes_with_lower_case(s.drop_last());
            assert(ascii_lower(s).drop_last() =~= ascii_lower(s.drop_last()));
        }
    }
}

/// The characters of `s`.
pub fn chars_of(s: &str) -> (res: Vec<char>)
    ensures
        res@ == s@,
{
    let mut res: Vec<char> = Vec::new();
    for c in iter: s.chars()
        invariant
            res@ == iter.seq().take(iter.index()),
            iter.seq() == s@,
    {
        res.push(c);
    }
    res
}

/// `name` is `suffix` or a name below it.
pub open spec fn at_or_below(name: Seq<char>, suffix: Seq<char>) -> bool {
    name == suffix || (seq!['.'] + suffix).is_suffix_of(name)
}

/// `name` is `suffix` or a name below it.
pub fn is_at_or_below(name: &Vec<char>, suffix: &Vec<char>) -> (res: bool)
    ensures
        res == at_or_below(name@, suffix@),
{
    let n = name.len();
    let k = suffix.len();
    if n < k {
        return false;
    }
    let start = n - k;
    let mut i: usize = 0;
    while i < k
        invariant
            i <= k,
            k == suffix@.len(),
            n == name@.len(),
            start == n - k,
            forall|j: int| 0 <= j < i ==> name@[start + j] == #[trigger] suffix@[j],
        decreases k - i,
    {
        if name[start + i] != suffix[i] {
            proof {
                let dotted = seq!['.'] + suffix@;
                assert(dotted[i + 1] == suffix@[i as int]);
                if dotted.is_suffix_of(name@) {
                    assert(name@.subrange(start - 1, n as int)[i + 1] == name@[start + i]);
                }
            }
            return false;
        }
        i = i + 1;
    }
    if start == 0 {
        assert(name@ =~= suffix@);
        return true;
    }
    let res = name[start - 1] == '.';
    proof {
        let dotted = seq!['.'] + suffix@;
        assert(dotted[0] == '.');
        if res {
            assert(name@.subrange(start - 1, n as int) =~= dotted);
        } else if dotted.is_suffix_of(name@) {
            assert(name@.subrange(start - 1, n as int)[0] == name@[start - 1]);
        }
    }
    res
}

/// A name below a suffix ends with it at the border of a label.
pub proof fn match_begins_at_a_label(name: Seq<char>, suffix: Seq<char>)
    requires
        at_or_below(name, suffix),
        name != suffix,
    ensures
        name.len() > suffix.len(),
        name[name.len() - suffix.len() - 1] == '.',
        name.skip(name.len() - suffix.len()) == suffix,
{
    let dotted = seq!['.'] + suffix;
    let tail = name.subrange(name.len() - dotted.len(), name.len() as int);
    assert(tail == dotted);
    assert(tail[0] == '.');
    assert(name.skip(name.len() - suffix.len()) =~= tail.skip(1));
    assert(dotted.skip(1) =~= suffix);
}

/// Whatever lies below a name that matches matches too.
pub proof fn names_below_match(label: Seq<char>, name: Seq<char>, suffix: Seq<char>)
    requires
        at_or_below(name, suffix),
    ensures
        at_or_below(label + seq!['.'] + name, suffix),
{
    let dotted = seq!['.'] + suffix;
    let longer = label + seq!['.'] + name;
    let tail = longer.subrange(longer.len() - dotted.len(), longer.len() as int);
    if name == suffix {
        assert(tail =~= dotted);
    } else {
        assert(tail =~= name.subrange(name.len() - dotted.len(), name.len() as int));
    }
}

/// What is trimmed is dots, and all of them.
pub proof fn only_final_dots_are_trimmed(s: Seq<char>)
    ensures
        trimmed(s).len() <= s.len(),
        trimmed(s) == s.take(trimmed(s).len() as int),
        forall|i: int| trimmed(s).len() <= i < s.len() ==> #[trigger] s[i] == '.',
        trimmed(s).len() > 0 ==> trimmed(s).last() != '.',
    decreases s.len(),
{
    lemma_trimmed_is_prefix(s);
    if s.len() > 0 && s.last() == '.' {
        only_final_dots_are_trimmed(s.drop_last());
        assert forall|i: int| trimmed(s).len() <= i < s.len() implies #[trigger] s[i] == '.' by {
            if i < s.len() - 1 {
                assert(s.drop_last()[i] == s[i]);
            }
        }
    }
}

/// A name matches itself and every name below it, whatever its length.
pub proof fn a_name_and_all_below_it_match(suffix: Seq<char>, label: Seq<char>)
    ensures
        at_or_below(suffix, suffix),
        at_or_below(label + seq!['.'] + suffix, suffix),
{
    let name = label + seq!['.'] + suffix;
    let dotted = seq!['.'] + suffix;
    assert(name.subrange(name.len() - dotted.len(), name.len() as int) =~= dotted);
}

/// Nothing else matches: a name that matches is the suffix, or ends in a dot
/// and the suffix.
pub proof fn nothing_else_matches(name: Seq<char>, suffix: Seq<char>)
    requires
        at_or_below(name, suffix),
    ensures
        name == suffix || exists|label: Seq<char>| name == #[trigger] (label + seq!['.']) + suffix,
{
    if name != suffix {
        match_begins_at_a_label(name, suffix);
        let label = name.take(name.len() - suffix.len() - 1);
        assert(name =~= (label + seq!['.']) + suffix);
    }
}

/// The lower case of ASCII text has the same length, small letters where
/// capitals stood, and everything else as it was.
pub proof fn only_capitals_are_lowered(s: Seq<char>, i: int)
    requires
        is_ascii_chars(s),
        0 <= i < s.len(),
    ensures
        lower(s).len() == s.len(),
        65 <= s[i] as u32 <= 90 ==> lower(s)[i] as u32 == s[i] as u32 + 32,
        !(65 <= s[i] as u32 <= 90) ==> lower(s)[i] == s[i],
{
}

/// Text that is not all ASCII is lowered as Unicode has it.
pub proof fn other_text_is_lowered_by_unicode(s: Seq<char>, i: int)
    requires
        0 <= i < s.len(),
        s[i] as u32 > 127,
    ensures
        lower(s) == lowercase(s),
{
    assert(!is_ascii_chars(s));
}

/// The number that decimal digits stand for.
pub open spec fn number(digits: Seq<char>) -> int
    decreases digits.len(),
{
    if digits.len() == 0 {
        0
    } else {
        number(digits.drop_last()) * 10 + (digits.last() as int - 48)
    }
}

/// A number that is written in decimal reads back as itself, in digits alone
/// and without a zero before it.
pub proof fn decimal_reads_back(n: nat)
    ensures
        number(decimal(n)) == n,
        decimal(n).len() > 0,
        forall|i: int|
            0 <= i < decimal(n).len() ==> 48 <= #[trigger] decimal(n)[i] as u32 <= 57,
        decimal(n).len() > 1 ==> decimal(n)[0] != '0',
    decreases n,
{
    if n < 10 {
        assert(decimal(n).drop_last() =~= seq![]);
        assert(number(decimal(n).drop_last()) == 0);
    } else {
        decimal_reads_back(n / 10);
        assert(decimal(n).drop_last() =~= decimal(n / 10));
        assert(decimal(n)[0] == decimal(n / 10)[0]);
        if decimal(n / 10).len() == 1 {
            assert(number(decimal(n / 10).drop_last()) == 0);
        }
    }
}

} // verus!
