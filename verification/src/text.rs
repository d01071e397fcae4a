//! Character-level text handling: whitespace, trimming, case mapping and the
//! normalization that turns a user-chosen profile name into a file-name stem.

use vstd::prelude::*;

verus! {

/// Unicode `White_Space` property: the characters that `str::trim` removes.
pub open spec fn is_white_space(c: char) -> bool {
    ||| ('\u{9}' <= c && c <= '\u{d}')
    ||| c == ' '
    ||| c == '\u{85}'
    ||| c == '\u{a0}'
    ||| c == '\u{1680}'
    ||| ('\u{2000}' <= c && c <= '\u{200a}')
    ||| c == '\u{2028}'
    ||| c == '\u{2029}'
    ||| c == '\u{202f}'
    ||| c == '\u{205f}'
    ||| c == '\u{3000}'
}

/// `s` without its leading white space.
pub open spec fn trim_start(s: Seq<char>) -> Seq<char>
    decreases s.len(),
{
    if s.len() > 0 && is_white_space(s[0]) {
        trim_start(s.drop_first())
    } else {
        s
    }
}

/// `s` without its trailing white space.
pub open spec fn trim_end(s: Seq<char>) -> Seq<char>
    decreases s.len(),
{
    if s.len() > 0 && is_white_space(s.last()) {
        trim_end(s.drop_last())
    } else {
        s
    }
}

/// `s` without leading and trailing white space, as `str::trim` gives it.
pub open spec fn trim(s: Seq<char>) -> Seq<char> {
    trim_end(trim_start(s))
}

/// An ASCII letter or digit.
pub open spec fn is_ascii_alphanumeric(c: char) -> bool {
    ||| ('a' <= c && c <= 'z')
    ||| ('A' <= c && c <= 'Z')
    ||| ('0' <= c && c <= '9')
}

/// A character that may stand in a profile's file-name stem.
pub open spec fn is_name_char(c: char) -> bool {
    is_ascii_alphanumeric(c) || c == '-' || c == '_'
}

/// Keeps a name character and turns any other character into `_`.
pub open spec fn sanitize(c: char) -> char {
    if is_name_char(c) {
        c
    } else {
        '_'
    }
}

/// The file-name stem under which a profile called `name` is stored:
/// the trimmed name with every character other than an ASCII letter,
/// digit, `-` or `_` replaced by `_`.
pub open spec fn normalized_name(name: Seq<char>) -> Seq<char> {
    trim(name).map_values(|c: char| sanitize(c))
}

/// ASCII upper-case letters mapped to lower case, everything else kept.
pub open spec fn ascii_lower(c: char) -> char {
    if 'A' <= c && c <= 'Z' {
        ((c as int) + 32) as char
    } else {
        c
    }
}

/// `str::to_ascii_lowercase` on a character sequence.
pub open spec fn ascii_lowercase(s: Seq<char>) -> Seq<char> {
    s.map_values(|c: char| ascii_lower(c))
}

/// What `char::to_uppercase` yields for `c` (Unicode's full upper-case mapping).
pub uninterp spec fn char_to_uppercase(c: char) -> Seq<char>;

/// `value` with its first character mapped to upper case.
pub open spec fn capitalized(value: Seq<char>) -> Seq<char> {
    if value.len() == 0 {
        Seq::empty()
    } else {
        char_to_uppercase(value[0]) + value.drop_first()
    }
}

/// Appends one character to a string (`String::push`).
#[verifier::external_body]
pub(crate) fn push_char(s: &mut String, c: char)
    ensures
        final(s)@ == old(s)@.push(c),
{
    s.push(c);
}

/// The upper-case mapping of `c`, collected into a string
/// (`char::to_uppercase`). The contract names the result and states the
/// documented ASCII case: `a`..`z` map to `A`..`Z`; it says nothing else of
/// the Unicode tables.
#[verifier::external_body]
fn char_uppercase(c: char) -> (res: String)
    ensures
        res@ == char_to_uppercase(c),
        'a' <= c && c <= 'z' ==> res@ == seq![((c as int) - 32) as char],
{
    c.to_uppercase().collect::<String>()
}

/// The characters of a string slice, in order.
pub fn chars_of(s: &str) -> (res: Vec<char>)
    ensures
        res@ == s@,
{
    let mut res: Vec<char> = Vec::new();
    for c in it: s.chars()
        invariant
            res@ == it.seq().take(it.index() as int),
    {
        res.push(c);
    }
    res
}

/// A string holding the characters of `chars[from..to]`.
pub fn string_of(chars: &Vec<char>, from: usize, to: usize) -> (res: String)
    requires
        from <= to <= chars@.len(),
    ensures
        res@ == chars@.subrange(from as int, to as int),
{
    let mut res = String::new();
    let mut i = from;
    while i < to
        invariant
            from <= i <= to <= chars@.len(),
            res@ == chars@.subrange(from as int, i as int),
        decreases to - i,
    {
        push_char(&mut res, chars[i]);
        i = i + 1;
        assert(res@ == chars@.subrange(from as int, i as int));
    }
    res
}

/// Whether `c` has the Unicode `White_Space` property.
pub fn is_white_space_char(c: char) -> (res: bool)
    ensures
        res == is_white_space(c),
{
    ('\u{9}' <= c && c <= '\u{d}') || c == ' ' || c == '\u{85}' || c == '\u{a0}' || c
        == '\u{1680}' || ('\u{2000}' <= c && c <= '\u{200a}') || c == '\u{2028}' || c
        == '\u{2029}' || c == '\u{202f}' || c == '\u{205f}' || c == '\u{3000}'
}

/// Whether `c` is an ASCII letter or digit, `-` or `_`.
pub fn is_profile_name_char(c: char) -> (res: bool)
    ensures
        res == is_name_char(c),
{
    ('a' <= c && c <= 'z') || ('A' <= c && c <= 'Z') || ('0' <= c && c <= '9') || c == '-' || c
        == '_'
}

/// The bounds `(start, end)` of `chars` without leading and trailing white space.
pub fn trim_bounds(chars: &Vec<char>) -> (res: (usize, usize))
    ensures
        res.0 <= res.1 <= chars@.len(),
        chars@.subrange(res.0 as int, res.1 as int) == trim(chars@),
{
    let n = chars.len();
    let mut start: usize = 0;
    assert(chars@.subrange(0, n as int) =~= chars@);
    while start < n && is_white_space_char(chars[start])
        invariant
            start <= n == chars@.len(),
            trim_start(chars@) == trim_start(chars@.subrange(start as int, n as int)),
        decreases n - start,
    {
        assert(chars@.subrange(start as int, n as int).drop_first() =~= chars@.subrange(
            start + 1,
            n as int,
        ));
        start = start + 1;
    }
    let mut end: usize = n;
    while end > start && is_white_space_char(chars[end - 1])
        invariant
            start <= end <= n == chars@.len(),
            trim_start(chars@) == chars@.subrange(start as int, n as int),
            trim(chars@) == trim_end(chars@.subrange(start as int, end as int)),
        decreases end - start,
    {
        assert(chars@.subrange(start as int, end as int).drop_last() =~= chars@.subrange(
            start as int,
            end - 1,
        ));
        end = end - 1;
    }
    (start, end)
}

/// `trim` leaves a sequence without white space unchanged.
pub proof fn lemma_trim_without_white_space(s: Seq<char>)
    requires
        forall|i: int| 0 <= i < s.len() ==> !is_white_space(#[trigger] s[i]),
    ensures
        trim(s) == s,
{
}

/// Normalizing a normalized name changes nothing: the stem under which a
/// profile is saved is also the stem that its own name normalizes to.
pub proof fn lemma_normalized_name_idempotent(name: Seq<char>)
    ensures
        normalized_name(normalized_name(name)) == normalized_name(name),
{
    let n = normalized_name(name);
    assert forall|i: int| 0 <= i < n.len() implies is_name_char(#[trigger] n[i]) by {}
    lemma_trim_without_white_space(n);
    assert(normalized_name(n) =~= n);
}

/// Every character of a normalized name is an ASCII letter, digit, `-` or `_`.
pub proof fn lemma_normalized_name_chars(name: Seq<char>)
    ensures
        forall|i: int|
            0 <= i < normalized_name(name).len() ==> is_name_char(
                #[trigger] normalized_name(name)[i],
            ),
{
}

/// Normalization keeps exactly the characters a file-name stem may hold:
/// a name made only of ASCII letters (code points 65..=90 and 97..=122),
/// ASCII digits (48..=57), `-` and `_` normalizes to itself.
pub proof fn lemma_normalization_keeps_ascii_alphanumerics(name: Seq<char>)
    requires
        forall|i: int|
            0 <= i < name.len() ==> {
                let u = (#[trigger] name[i]) as int;
                (48 <= u && u <= 57) || (65 <= u && u <= 90) || (97 <= u && u <= 122) || u == 45
                    || u == 95
            },
    ensures
        normalized_name(name) == name,
{
    assert forall|i: int| 0 <= i < name.len() implies !is_white_space(#[trigger] name[i]) by {
        let u = name[i] as int;
        assert((48 <= u && u <= 57) || (65 <= u && u <= 90) || (97 <= u && u <= 122) || u == 45
            || u == 95);
    }
    lemma_trim_without_white_space(name);
    assert forall|i: int| 0 <= i < name.len() implies sanitize(#[trigger] name[i]) == name[i] by {
        let u = name[i] as int;
        assert((48 <= u && u <= 57) || (65 <= u && u <= 90) || (97 <= u && u <= 122) || u == 45
            || u == 95);
    }
    assert(normalized_name(name) =~= name);
}

/// Normalization replaces every other character that is not white space by
/// `_`: a single character outside ASCII letters, digits, `-` and `_`, and
/// not white space, normalizes to `_`.
pub proof fn lemma_normalization_replaces_other_chars(c: char)
    requires
        !is_white_space(c),
        !({
            let u = c as int;
            (48 <= u && u <= 57) || (65 <= u && u <= 90) || (97 <= u && u <= 122) || u == 45
                || u == 95
        }),
    ensures
        normalized_name(seq![c]) == seq!['_'],
{
    lemma_trim_without_white_space(seq![c]);
    assert(normalized_name(seq![c]) =~= seq!['_']);
}

/// Dropping leading white space from `s + t`: the trimmed `s` followed by
/// `t`, or the trimmed `t` when `s` is all white space.
proof fn lemma_trim_start_append(s: Seq<char>, t: Seq<char>)
    ensures
        trim_start(s + t) == (if trim_start(s).len() > 0 {
            trim_start(s) + t
        } else {
            trim_start(t)
        }),
    decreases s.len(),
{
    if s.len() == 0 {
        assert(s + t =~= t);
    } else {
        assert((s + t)[0] == s[0]);
        if is_white_space(s[0]) {
            assert((s + t).drop_first() =~= s.drop_first() + t);
            lemma_trim_start_append(s.drop_first(), t);
        }
    }
}

/// Trimming removes exactly the Unicode `White_Space` characters, the code
/// points 9..=13, 32, 133, 160, 5760, 8192..=8202, 8232, 8233, 8239, 8287
/// and 12288: one of them at either end of a text goes, and any other
/// character stays.
pub proof fn lemma_trim_strips_white_space(c: char, s: Seq<char>)
    ensures
        ({
            let u = c as int;
            (9 <= u && u <= 13) || u == 32 || u == 133 || u == 160 || u == 5760 || (8192 <= u
                && u <= 8202) || u == 8232 || u == 8233 || u == 8239 || u == 8287 || u == 12288
        }) ==> trim(seq![c] + s) == trim(s) && trim(s + seq![c]) == trim(s),
        !({
            let u = c as int;
            (9 <= u && u <= 13) || u == 32 || u == 133 || u == 160 || u == 5760 || (8192 <= u
                && u <= 8202) || u == 8232 || u == 8233 || u == 8239 || u == 8287 || u == 12288
        }) ==> trim(seq![c]) == seq![c],
{
    let u = c as int;
    let listed = (9 <= u && u <= 13) || u == 32 || u == 133 || u == 160 || u == 5760 || (8192
        <= u && u <= 8202) || u == 8232 || u == 8233 || u == 8239 || u == 8287 || u == 12288;
    assert(listed == is_white_space(c));
    if listed {
        assert((seq![c] + s).drop_first() =~= s);
        lemma_trim_start_append(s, seq![c]);
        let ts = trim_start(s);
        if ts.len() > 0 {
            assert((ts + seq![c]).drop_last() =~= ts);
        } else {
            assert(seq![c].drop_first() =~= Seq::<char>::empty());
            assert(trim_start(seq![c]) == trim_start(Seq::<char>::empty()));
        }
    } else {
        assert(trim_start(seq![c]) == seq![c]);
    }
}

/// ASCII lower-casing adds 32 to the code points of `A`..=`Z` (65..=90) and
/// keeps every other character.
pub proof fn lemma_ascii_lowercase_shifts_capitals(s: Seq<char>)
    ensures
        ascii_lowercase(s).len() == s.len(),
        forall|i: int|
            0 <= i < s.len() ==> (#[trigger] ascii_lowercase(s)[i]) as int == (if 65 <= s[i] as int
                && s[i] as int <= 90 {
                s[i] as int + 32
            } else {
                s[i] as int
            }),
{
}

/// The stem under which a profile called `name` is stored: `name` trimmed,
/// with every character other than an ASCII letter, digit, `-` or `_`
/// replaced by `_`.
pub fn normalized_profile_name(name: &str) -> (res: String)
    ensures
        res@ == normalized_name(name@),
{
    let chars = chars_of(name);
    let (start, end) = trim_bounds(&chars);
    let ghost trimmed = chars@.subrange(start as int, end as int);
    let mut res = String::new();
    let mut i = start;
    while i < end
        invariant
            start <= i <= end <= chars@.len(),
            trimmed == chars@.subrange(start as int, end as int),
            res@ == trimmed.subrange(0, i - start).map_values(|c: char| sanitize(c)),
        decreases end - i,
    {
        let c = chars[i];
        let kept = if is_profile_name_char(c) {
            c
        } else {
            '_'
        };
        push_char(&mut res, kept);
        i = i + 1;
        assert(trimmed.subrange(0, i - start) =~= trimmed.subrange(0, i - 1 - start).push(c));
        assert(res@ =~= trimmed.subrange(0, i - start).map_values(|c: char| sanitize(c)));
    }
    assert(trimmed.subrange(0, end - start) =~= trimmed);
    res
}

/// The ASCII lower-case form of `s` (`str::to_ascii_lowercase`).
pub fn to_ascii_lowercase(s: &Vec<char>, from: usize, to: usize) -> (res: String)
    requires
        from <= to <= s@.len(),
    ensures
        res@ == ascii_lowercase(s@.subrange(from as int, to as int)),
{
    let ghost part = s@.subrange(from as int, to as int);
    let mut res = String::new();
    let mut i = from;
    while i < to
        invariant
            from <= i <= to <= s@.len(),
            part == s@.subrange(from as int, to as int),
            res@ == ascii_lowercase(part.subrange(0, i - from)),
        decreases to - i,
    {
        let c = s[i];
        let lower = if 'A' <= c && c <= 'Z' {
            ((c as u8) + 32) as char
        } else {
            c
        };
        push_char(&mut res, lower);
        i = i + 1;
        assert(part.subrange(0, i - from) =~= part.subrange(0, i - 1 - from).push(c));
        assert(res@ =~= ascii_lowercase(part.subrange(0, i - from)));
    }
    assert(part.subrange(0, to - from) =~= part);
    res
}

/// `value` with its first character mapped to upper case.
pub fn capitalize(value: &str) -> (res: String)
    ensures
        res@ == capitalized(value@),
        value@.len() > 0 && 'a' <= value@[0] && value@[0] <= 'z' ==> res@ == seq![
            ((value@[0] as int) - 32) as char,
        ] + value@.drop_first(),
{
    let chars = chars_of(value);
    if chars.len() == 0 {
        return String::new();
    }
    let mut res = char_uppercase(chars[0]);
    let rest = string_of(&chars, 1, chars.len());
    res.append(rest.as_str());
    res
}

/// The decimal digit for `d` (below ten).
pub open spec fn digit_char(d: int) -> char {
    (('0' as int) + d) as char
}

/// The decimal form of `n`, without leading zeros (`0` for zero).
pub open spec fn decimal(n: nat) -> Seq<char>
    decreases n,
{
    if n < 10 {
        seq![digit_char(n as int)]
    } else {
        decimal(n / 10).push(digit_char((n % 10) as int))
    }
}

/// The number that the digits `s` stand for, read in base ten.
pub open spec fn digits_value(s: Seq<char>) -> int
    decreases s.len(),
{
    if s.len() == 0 {
        0
    } else {
        digits_value(s.drop_last()) * 10 + (s.last() as int - 48)
    }
}

/// `decimal(n)` is the base-ten numeral of `n`: at least one character,
/// only the digits `0`..=`9` (code points 48..=57), read back as `n`, and
/// without a leading `0` unless `n` is zero.
pub proof fn lemma_decimal_is_numeral(n: nat)
    ensures
        decimal(n).len() > 0,
        forall|i: int|
            0 <= i < decimal(n).len() ==> 48 <= (#[trigger] decimal(n)[i]) as int && decimal(
                n,
            )[i] as int <= 57,
        digits_value(decimal(n)) == n,
        n > 0 ==> decimal(n)[0] != '0',
    decreases n,
{
    if n >= 10 {
        lemma_decimal_is_numeral(n / 10);
        let d = decimal(n);
        assert(d.drop_last() =~= decimal(n / 10));
        assert(d.last() as int == 48 + (n % 10) as int);
        assert(digits_value(d) == digits_value(decimal(n / 10)) * 10 + (n % 10) as int);
        assert forall|i: int| 0 <= i < d.len() implies 48 <= (#[trigger] d[i]) as int && d[i] as int
            <= 57 by {
            if i < d.len() - 1 {
                assert(d[i] == decimal(n / 10)[i]);
            }
        }
    } else {
        assert(seq![digit_char(n as int)].drop_last() =~= Seq::<char>::empty());
        assert(digit_char(n as int) as int == 48 + n);
        assert(digits_value(seq![digit_char(n as int)]) == digits_value(Seq::<char>::empty()) * 10
            + n);
    }
}

/// The decimal form of `n`, as `format!("{}", n)` writes it.
pub fn decimal_text(n: u64) -> (res: String)
    ensures
        res@ == decimal(n as nat),
{
    let mut q = n;
    let mut low: Vec<char> = Vec::new();
    while q >= 10
        invariant
            decimal(n as nat) == decimal(q as nat) + low@,
        decreases q,
    {
        let d = q % 10;
        let c = ((d as u8) + 48) as char;
        assert(c == digit_char(d as int));
        assert(decimal(q as nat) == decimal((q / 10) as nat).push(c));
        let ghost old_low = low@;
        low.insert(0, c);
        assert(decimal(q as nat) + old_low =~= decimal((q / 10) as nat) + low@);
        q = q / 10;
    }
    let mut res = String::new();
    push_char(&mut res, ((q as u8) + 48) as char);
    let mut i: usize = 0;
    while i < low.len()
        invariant
            i <= low@.len(),
            res@ == decimal(q as nat) + low@.subrange(0, i as int),
            decimal(n as nat) == decimal(q as nat) + low@,
        decreases low@.len() - i,
    {
        push_char(&mut res, low[i]);
        i = i + 1;
        assert(low@.subrange(0, i as int) =~= low@.subrange(0, i - 1).push(low@[i - 1]));
        assert(res@ =~= decimal(q as nat) + low@.subrange(0, i as int));
    }
    assert(low@.subrange(0, low@.len() as int) =~= low@);
    res
}

} // verus!
