//! Formatting of phone numbers for display: a number is parsed with the
//! user's country as default and shown in E.164 form.  A number without a
//! leading `+` is also tried as an international number.

use phonenumber::country::Id;
use phonenumber::Mode;
use std::str::FromStr;
use vstd::prelude::*;
use vstd::string::*;

verus! {

/// The ways a parsed phone number can be written.
#[derive(Clone, Copy, Debug, PartialEq, Eq, Structural)]
pub enum NumberFormat {
    /// E.164: `+` and the digits, nothing else.
    E164,
    /// International: country code and the country's grouping.
    International,
    /// National: the country's grouping, without country code.
    National,
    /// RFC 3966: a `tel:` URI.
    Rfc3966,
}

/// What `phonenumber` makes of the text `number`, read with the country
/// whose two-letter code is `country` as default (no default when the
/// code is not a known country), written in `format`: `None` when the
/// text does not parse as a phone number.
pub uninterp spec fn phone_number_text(number: Seq<char>, format: NumberFormat, country: Seq<char>) -> Option<Seq<char>>;

/// Parses `number` with `phonenumber::parse`, with the country of
/// `country_code` as default, and writes the number in `format`.  The
/// result is named by `phone_number_text`, a function of the arguments.
#[verifier::external_body]
pub(crate) fn format_with_country_helper(number: &str, format: NumberFormat, country_code: &str) -> (res: Option<String>)
    ensures
        res is None ==> phone_number_text(number@, format, country_code@) is None,
        res is Some ==> phone_number_text(number@, format, country_code@) == Some(res->Some_0@),
{
    let mode = match format {
        NumberFormat::E164 => Mode::E164,
        NumberFormat::International => Mode::International,
        NumberFormat::National => Mode::National,
        NumberFormat::Rfc3966 => Mode::Rfc3966,
    };
    let country = Id::from_str(country_code).ok();
    match phonenumber::parse(country, number) {
        Ok(parsed) => Some(parsed.format().mode(mode).to_string()),
        Err(_) => None,
    }
}

/// Whether `c` is white space: the Unicode `White_Space` property, which
/// `char::is_whitespace` and `str::trim` use.
pub open spec fn is_white_space(c: char) -> bool {
    let u = c as u32;
    ||| 0x09 <= u <= 0x0d
    ||| u == 0x20
    ||| u == 0x85
    ||| u == 0xa0
    ||| u == 0x1680
    ||| 0x2000 <= u <= 0x200a
    ||| u == 0x2028
    ||| u == 0x2029
    ||| u == 0x202f
    ||| u == 0x205f
    ||| u == 0x3000
}

/// The number of white-space characters that `s` starts with.
pub open spec fn leading_white_space(s: Seq<char>) -> nat
    decreases s.len(),
{
    if s.len() == 0 {
        0
    } else if is_white_space(s[0]) {
        1 + leading_white_space(s.drop_first())
    } else {
        0
    }
}

/// The number of white-space characters that `s` ends with.
pub open spec fn trailing_white_space(s: Seq<char>) -> nat
    decreases s.len(),
{
    if s.len() == 0 {
        0
    } else if is_white_space(s.last()) {
        1 + trailing_white_space(s.drop_last())
    } else {
        0
    }
}

/// `s` without its leading and trailing white space.
pub open spec fn trimmed(s: Seq<char>) -> Seq<char> {
    if leading_white_space(s) >= s.len() {
        Seq::empty()
    } else {
        s.subrange(leading_white_space(s) as int, s.len() - trailing_white_space(s))
    }
}

/// The number as the contact list shows it: the trimmed text in E.164
/// form, read as it stands or, failing that and when it has no leading
/// `+`, with a `+` in front.  `None` for empty text or text that reads as
/// no phone number either way.
pub open spec fn formatted_number(number: Seq<char>, country: Seq<char>) -> Option<Seq<char>> {
    let n = trimmed(number);
    if n.len() == 0 {
        None
    } else {
        let direct = phone_number_text(n, NumberFormat::E164, country);
        let with_plus = if n[0] != '+' {
            phone_number_text(seq!['+'] + n, NumberFormat::E164, country)
        } else {
            None
        };
        if direct is Some {
            direct
        } else {
            with_plus
        }
    }
}

/// Which reading of a number is shown.  Blank text gives no number.  When
/// the trimmed text reads as a phone number as it stands, with the user's
/// country as default, that reading is shown.  Only when it does not, and
/// the text has no leading `+`, is it read again as an international
/// number with a `+` in front; text with a leading `+` is read once.
pub proof fn lemma_formatted_number_readings(number: Seq<char>, country: Seq<char>)
    ensures
        trimmed(number).len() == 0 ==> formatted_number(number, country) is None,
        trimmed(number).len() > 0 && phone_number_text(trimmed(number), NumberFormat::E164, country)
            is Some ==> formatted_number(number, country) == phone_number_text(
            trimmed(number),
            NumberFormat::E164,
            country,
        ),
        trimmed(number).len() > 0 && phone_number_text(trimmed(number), NumberFormat::E164, country)
            is None && trimmed(number)[0] != '+' ==> formatted_number(number, country)
            == phone_number_text(seq!['+'] + trimmed(number), NumberFormat::E164, country),
        trimmed(number).len() > 0 && trimmed(number)[0] == '+' ==> formatted_number(number, country)
            == phone_number_text(trimmed(number), NumberFormat::E164, country),
{
}

/// Trimming removes exactly the white space around the text: the result
/// is a piece of the text that neither starts nor ends with white space,
/// and everything before and after it is white space.
pub proof fn lemma_trimmed(s: Seq<char>)
    ensures
        trimmed(s).len() > 0 ==> !is_white_space(trimmed(s)[0]) && !is_white_space(
            trimmed(s).last(),
        ),
        exists|a: int, b: int|
            0 <= a <= b <= s.len() && trimmed(s) == s.subrange(a, b) && (forall|j: int|
                0 <= j < a ==> is_white_space(#[trigger] s[j])) && (forall|j: int|
                b <= j < s.len() ==> is_white_space(#[trigger] s[j])),
{
    lemma_leading_white_space_props(s);
    lemma_trailing_white_space_props(s);
    let l = leading_white_space(s) as int;
    let t = trailing_white_space(s) as int;
    if l >= s.len() {
        assert(trimmed(s) =~= s.subrange(0, 0));
        assert(forall|j: int| 0 <= j < 0 ==> is_white_space(#[trigger] s[j]));
    } else {
        assert(!is_white_space(s[l]));
        // the trailing run stops before the leading one ends
        if t > s.len() - l - 1 {
            assert(is_white_space(s[l]));
        }
        assert(trimmed(s) == s.subrange(l, s.len() - t));
    }
}

/// `s` starts with exactly `leading_white_space(s)` white-space characters.
proof fn lemma_leading_white_space_props(s: Seq<char>)
    ensures
        leading_white_space(s) <= s.len(),
        forall|j: int| 0 <= j < leading_white_space(s) ==> is_white_space(#[trigger] s[j]),
        leading_white_space(s) < s.len() ==> !is_white_space(s[leading_white_space(s) as int]),
    decreases s.len(),
{
    if s.len() > 0 && is_white_space(s[0]) {
        let t = s.drop_first();
        lemma_leading_white_space_props(t);
        assert forall|j: int| 0 <= j < leading_white_space(s) implies is_white_space(#[trigger] s[j]) by {
            if j > 0 {
                assert(s[j] == t[j - 1]);
            }
        }
        if leading_white_space(s) < s.len() {
            assert(s[leading_white_space(s) as int] == t[leading_white_space(t) as int]);
        }
    }
}

/// `s` ends with exactly `trailing_white_space(s)` white-space characters.
proof fn lemma_trailing_white_space_props(s: Seq<char>)
    ensures
        trailing_white_space(s) <= s.len(),
        forall|j: int| s.len() - trailing_white_space(s) <= j < s.len() ==> is_white_space(#[trigger] s[j]),
        trailing_white_space(s) < s.len() ==> !is_white_space(s[s.len() - trailing_white_space(s) - 1]),
    decreases s.len(),
{
    if s.len() > 0 && is_white_space(s.last()) {
        let t = s.drop_last();
        lemma_trailing_white_space_props(t);
        assert forall|j: int| s.len() - trailing_white_space(s) <= j < s.len() implies is_white_space(#[trigger] s[j]) by {
            if j < s.len() - 1 {
                assert(s[j] == t[j]);
            }
        }
        if trailing_white_space(s) < s.len() {
            assert(s[s.len() - trailing_white_space(s) - 1] == t[t.len() - trailing_white_space(t) - 1]);
        }
    }
}

/// Whether `c` is white space.
pub fn is_white_space_char(c: char) -> (res: bool)
    ensures
        res == is_white_space(c),
{
    let u = c as u32;
    (0x09 <= u && u <= 0x0d) || u == 0x20 || u == 0x85 || u == 0xa0 || u == 0x1680 || (0x2000 <= u
        && u <= 0x200a) || u == 0x2028 || u == 0x2029 || u == 0x202f || u == 0x205f || u == 0x3000
}

proof fn lemma_leading_white_space(s: Seq<char>, i: int)
    requires
        0 <= i <= s.len(),
        forall|j: int| 0 <= j < i ==> is_white_space(#[trigger] s[j]),
        i == s.len() || !is_white_space(s[i]),
    ensures
        leading_white_space(s) == i,
    decreases i,
{
    if i > 0 {
        let t = s.drop_first();
        assert forall|j: int| 0 <= j < i - 1 implies is_white_space(#[trigger] t[j]) by {
            assert(t[j] == s[j + 1]);
        }
        if i < s.len() {
            assert(t[i - 1] == s[i]);
        }
        lemma_leading_white_space(t, i - 1);
        assert(is_white_space(s[0]));
    }
}

proof fn lemma_trailing_white_space(s: Seq<char>, k: int)
    requires
        0 <= k <= s.len(),
        forall|j: int| s.len() - k <= j < s.len() ==> is_white_space(#[trigger] s[j]),
        k == s.len() || !is_white_space(s[s.len() - k - 1]),
    ensures
        trailing_white_space(s) == k,
    decreases k,
{
    if k > 0 {
        let t = s.drop_last();
        assert forall|j: int| t.len() - (k - 1) <= j < t.len() implies is_white_space(
            #[trigger] t[j],
        ) by {
            assert(t[j] == s[j]);
        }
        if k < s.len() {
            assert(t[t.len() - (k - 1) - 1] == s[s.len() - k - 1]);
        }
        lemma_trailing_white_space(t, k - 1);
        assert(is_white_space(s[s.len() - 1]));
    }
}

/// `s` without leading and trailing white space (`str::trim`).
pub fn trim_white_space(s: &str) -> (res: &str)
    ensures
        res@ == trimmed(s@),
{
    let n = s.unicode_len();
    let mut i: usize = 0;
    while i < n && is_white_space_char(s.get_char(i))
        invariant
            n == s@.len(),
            i <= n,
            forall|j: int| 0 <= j < i ==> is_white_space(#[trigger] s@[j]),
        decreases n - i,
    {
        i = i + 1;
    }
    proof {
        lemma_leading_white_space(s@, i as int);
    }
    if i == n {
        let res = s.substring_char(0, 0);
        proof {
            assert(res@ =~= Seq::<char>::empty());
        }
        return res;
    }
    let mut j: usize = n;
    while j > i && is_white_space_char(s.get_char(j - 1))
        invariant
            n == s@.len(),
            i < n,
            i <= j <= n,
            !is_white_space(s@[i as int]),
            forall|k: int| j <= k < n ==> is_white_space(#[trigger] s@[k]),
        decreases j,
    {
        j = j - 1;
    }
    proof {
        lemma_trailing_white_space(s@, n - j);
    }
    s.substring_char(i, j)
}

/// The E.164 text of the phone number `number`, read with the country
/// `country_code` as default; a number without a leading `+` is also
/// tried with one.  `None` for blank text or text that is no phone number.
pub fn format_with_country(number: &str, country_code: &str) -> (res: Option<String>)
    ensures
        res is None ==> formatted_number(number@, country_code@) is None,
        res is Some ==> formatted_number(number@, country_code@) == Some(res->Some_0@),
{
    let number = trim_white_space(number);
    if number.is_empty() {
        return None;
    }
    let try_with_plus = if number.get_char(0) != '+' {
        let mut number_with_plus = "+".to_owned();
        number_with_plus.append(number);
        proof {
            reveal_strlit("+");
            assert(number_with_plus@ =~= seq!['+'] + number@);
        }
        format_with_country_helper(number_with_plus.as_str(), NumberFormat::E164, country_code)
    } else {
        None
    };
    let direct = format_with_country_helper(number, NumberFormat::E164, country_code);
    first_formatted(direct, try_with_plus)
}

/// The first of two readings that gave a number.
pub fn first_formatted(direct: Option<String>, with_plus: Option<String>) -> (res: Option<String>)
    ensures
        res == (if direct is Some {
            direct
        } else {
            with_plus
        }),
{
    match direct {
        Some(d) => Some(d),
        None => with_plus,
    }
}

} // verus!
