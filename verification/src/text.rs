//! Text helpers: decimal numbers, whitespace, joining and plural words.
use vstd::prelude::*;

verus! {

/// The character of a decimal digit.
pub open spec fn digit_char(d: nat) -> char {
    ((('0' as u32) as nat) + d) as char
}

/// The decimal digits of a number, most significant first, without sign or
/// leading zeros.
pub open spec fn decimal_digits(n: nat) -> Seq<char>
    decreases n,
{
    if n < 10 {
        seq![digit_char(n)]
    } else {
        decimal_digits(n / 10).push(digit_char(n % 10))
    }
}

/// Writes a number in decimal with `usize`'s `Display` impl (through
/// `ToString::to_string`), which the standard library documents as the
/// plain base-10 digits.
#[verifier::external_body]
pub(crate) fn usize_to_string(n: usize) -> (s: String)
    ensures
        s@ == decimal_digits(n as nat),
{
    n.to_string()
}

/// Whether a character has the Unicode `White_Space` property, which is
/// what `char::is_whitespace` tests.
pub open spec fn is_white_space(c: char) -> bool {
    let n = c as u32;
    ||| 0x09 <= n <= 0x0d
    ||| n == 0x20
    ||| n == 0x85
    ||| n == 0xa0
    ||| n == 0x1680
    ||| 0x2000 <= n <= 0x200a
    ||| n == 0x2028
    ||| n == 0x2029
    ||| n == 0x202f
    ||| n == 0x205f
    ||| n == 0x3000
}

/// Whether a character is white space (Unicode `White_Space`).
pub fn is_whitespace(c: char) -> (white: bool)
    ensures
        white == is_white_space(c),
{
    let n = c as u32;
    (0x09 <= n && n <= 0x0d) || n == 0x20 || n == 0x85 || n == 0xa0 || n == 0x1680
        || (0x2000 <= n && n <= 0x200a) || n == 0x2028 || n == 0x2029 || n == 0x202f || n == 0x205f
        || n == 0x3000
}

/// A text without its leading white space.
pub open spec fn strip_front(s: Seq<char>) -> Seq<char>
    decreases s.len(),
{
    if s.len() > 0 && is_white_space(s[0]) {
        strip_front(s.drop_first())
    } else {
        s
    }
}

/// A text without its trailing white space.
pub open spec fn strip_back(s: Seq<char>) -> Seq<char>
    decreases s.len(),
{
    if s.len() > 0 && is_white_space(s.last()) {
        strip_back(s.drop_last())
    } else {
        s
    }
}

/// A text without its leading and trailing white space, as `str::trim`
/// gives it.
pub open spec fn trimmed(s: Seq<char>) -> Seq<char> {
    strip_back(strip_front(s))
}

proof fn lemma_strip_front_skip(s: Seq<char>, a: int)
    requires
        0 <= a <= s.len(),
        forall|j: int| 0 <= j < a ==> is_white_space(#[trigger] s[j]),
    ensures
        strip_front(s) == strip_front(s.skip(a)),
    decreases a,
{
    if a > 0 {
        assert(s.skip(1) =~= s.drop_first());
        lemma_strip_front_skip(s.drop_first(), a - 1);
        assert(s.drop_first().skip(a - 1) =~= s.skip(a));
    } else {
        assert(s.skip(0) =~= s);
    }
}

proof fn lemma_strip_back_take(s: Seq<char>, b: int)
    requires
        0 <= b <= s.len(),
        forall|j: int| b <= j < s.len() ==> is_white_space(#[trigger] s[j]),
    ensures
        strip_back(s) == strip_back(s.take(b)),
    decreases s.len() - b,
{
    if b < s.len() {
        assert(s.take(s.len() - 1) =~= s.drop_last());
        lemma_strip_back_take(s.drop_last(), b);
        assert(s.drop_last().take(b) =~= s.take(b));
    } else {
        assert(s.take(b) =~= s);
    }
}

/// The text without its leading and trailing white space.
pub fn trim(s: &str) -> (t: String)
    ensures
        t@ == trimmed(s@),
{
    let len = s.unicode_len();
    let mut a: usize = 0;
    while a < len && is_whitespace(s.get_char(a))
        invariant
            len == s@.len(),
            a <= len,
            forall|j: int| 0 <= j < a ==> is_white_space(#[trigger] s@[j]),
        decreases len - a,
    {
        a = a + 1;
    }
    proof {
        lemma_strip_front_skip(s@, a as int);
        if a < len {
            assert(!is_white_space(s@.skip(a as int)[0]));
        }
    }
    let ghost front = s@.skip(a as int);
    assert(strip_front(front) == front);
    let mut b: usize = len;
    while b > a && is_whitespace(s.get_char(b - 1))
        invariant
            len == s@.len(),
            a <= b <= len,
            forall|j: int| b <= j < len ==> is_white_space(#[trigger] s@[j]),
        decreases b,
    {
        b = b - 1;
    }
    let ghost kept = s@.subrange(a as int, b as int);
    proof {
        assert(front.take(b - a) =~= kept);
        assert forall|j: int| b - a <= j < front.len() implies is_white_space(#[trigger] front[j]) by {
            assert(front[j] == s@[a + j]);
        }
        lemma_strip_back_take(front, b - a);
        if b > a {
            assert(kept.last() == s@[b - 1]);
        }
        assert(strip_back(kept) == kept);
    }
    String::from_str(s.substring_char(a, b))
}

/// A character with ASCII capitals put in lower case.
pub open spec fn fold_case_char(c: char) -> char {
    if 'A' <= c <= 'Z' { ((c as u32) + 32) as char } else { c }
}

/// A text with ASCII capitals put in lower case.
pub open spec fn fold_case(name: Seq<char>) -> Seq<char> {
    name.map_values(|c: char| fold_case_char(c))
}

/// Whether every character of a text is ASCII.
pub open spec fn all_ascii(s: Seq<char>) -> bool {
    forall|i: int| 0 <= i < s.len() ==> (#[trigger] s[i] as u32) < 128
}

/// What `str::to_lowercase` makes of a text. The standard library defines
/// it by the Unicode lower-case mapping of every character, which is not
/// written out here beyond ASCII (see `to_lowercase`).
pub uninterp spec fn lowercase(s: Seq<char>) -> Seq<char>;

/// A text in lower case as `str::to_lowercase` puts it: ASCII text by
/// `fold_case`, any other by the Unicode mapping (`lowercase`).
pub open spec fn lowered(s: Seq<char>) -> Seq<char> {
    if all_ascii(s) { fold_case(s) } else { lowercase(s) }
}

/// The text in lower case, by `str::to_lowercase`. The contract names the
/// result (see `lowercase`); of ASCII text it also says, as the standard
/// library documents, that 'A' to 'Z' become 'a' to 'z' and every other
/// character stays. Beyond ASCII it claims no more.
#[verifier::external_body]
pub(crate) fn to_lowercase(s: &str) -> (lower: String)
    ensures
        lower@ == lowercase(s@),
        all_ascii(s@) ==> lower@ == fold_case(s@),
{
    s.to_lowercase()
}

/// Appends a character, with `String::push`.
#[verifier::external_body]
pub(crate) fn push_char(s: &mut String, c: char)
    ensures
        final(s)@ == old(s)@.push(c),
{
    s.push(c)
}

/// Whether a character is an ASCII lower-case letter.
pub open spec fn is_ascii_lower(c: char) -> bool {
    'a' <= c <= 'z'
}

/// The upper-case form of an ASCII lower-case letter: its code less 32.
pub open spec fn ascii_upper(c: char) -> char {
    ((c as u8) - 32) as char
}

/// Capitalises the first character of a text when it is an ASCII letter;
/// any other text is left as it is.
pub fn make_first_char_uppercase(input: &mut String)
    ensures
        final(input)@ == if old(input)@.len() > 0 && is_ascii_lower(old(input)@[0]) {
            old(input)@.update(0, ascii_upper(old(input)@[0]))
        } else {
            old(input)@
        },
{
    let len = input.as_str().unicode_len();
    if len == 0 {
        return;
    }
    let first = input.as_str().get_char(0);
    if !('a' <= first && first <= 'z') {
        return;
    }
    let wide = first as u32;
    let code = first as u8;
    assert(code == wide as u8);
    assert(code >= 32) by (bit_vector)
        requires
            97 <= wide <= 122,
            code == wide as u8,
    ;
    let upper = (code - 32) as char;
    let mut result = String::new();
    push_char(&mut result, upper);
    result.append(input.as_str().substring_char(1, len));
    assert(result@ =~= input@.update(0, ascii_upper(first)));
    *input = result;
}

/// The singular word for a count of one, the plural word otherwise.
pub fn pluralize<'a>(count: usize, singular: &'a str, plural: &'a str) -> (word: &'a str)
    ensures
        word == if count == 1 { singular } else { plural },
{
    if count == 1 { singular } else { plural }
}

/// `Some(input)` when the condition holds, `None` otherwise.
pub fn some_if<T>(input: T, condition: bool) -> (result: Option<T>)
    ensures
        result == if condition { Some(input) } else { None },
{
    if condition { Some(input) } else { None }
}

/// ", " and each of the words from `from` up to (not including) `to`.
pub open spec fn comma_words(words: Seq<Seq<char>>, from: int, to: int) -> Seq<char>
    decreases to - from,
{
    if to <= from {
        Seq::empty()
    } else {
        comma_words(words, from, to - 1) + ", "@ + words[to - 1]
    }
}

/// A list of words in English: "a", "a and b", "a, b, and c".
pub open spec fn list_text(words: Seq<Seq<char>>) -> Seq<char> {
    let n = words.len() as int;
    if n == 0 {
        Seq::empty()
    } else if n == 1 {
        words[0]
    } else if n == 2 {
        words[0] + " and "@ + words[1]
    } else {
        words[0] + comma_words(words, 1, n - 1) + ", and "@ + words[n - 1]
    }
}

/// Writes a list of words in English: "a", "a and b", "a, b, and c".
pub fn stringify_list(list: &[String]) -> (text: String)
    ensures
        text@ == list_text(list@.map_values(|w: String| w@)),
{
    let ghost words = list@.map_values(|w: String| w@);
    let len = list.len();
    if len == 0 {
        return String::new();
    }
    let mut output = list[0].clone();
    if len == 1 {
        return output;
    }
    if len == 2 {
        output.append(" and ");
        output.append(list[1].as_str());
        proof {
            reveal_strlit(" and ");
        }
        return output;
    }
    let mut i: usize = 1;
    while i < len - 1
        invariant
            len == list@.len(),
            len >= 3,
            1 <= i <= len - 1,
            words == list@.map_values(|w: String| w@),
            output@ == words[0] + comma_words(words, 1, i as int),
        decreases len - i,
    {
        output.append(", ");
        output.append(list[i].as_str());
        proof {
            reveal_strlit(", ");
        }
        i = i + 1;
    }
    output.append(", and ");
    output.append(list[len - 1].as_str());
    proof {
        reveal_strlit(", and ");
    }
    output
}

/// Whether a character is an ASCII decimal digit.
pub open spec fn is_ascii_digit(c: char) -> bool {
    '0' <= c <= '9'
}

/// The value of a string of decimal digits.
pub open spec fn digits_value(ds: Seq<char>) -> nat
    decreases ds.len(),
{
    if ds.len() == 0 {
        0
    } else {
        digits_value(ds.drop_last()) * 10 + ((ds.last() as nat) - ('0' as nat)) as nat
    }
}

/// The number a text spells in decimal, as `usize`'s `FromStr` reads it:
/// an optional `+` and then one or more ASCII digits, nothing else.
pub open spec fn decimal_value(s: Seq<char>) -> Option<nat> {
    let ds = if s.len() > 0 && s[0] == '+' { s.drop_first() } else { s };
    if ds.len() > 0 && forall|i: int| 0 <= i < ds.len() ==> is_ascii_digit(#[trigger] ds[i]) {
        Some(digits_value(ds))
    } else {
        None
    }
}

/// Reads a `usize` with `str::parse::<usize>`. The standard library accepts
/// an optional `+` followed by ASCII digits whose value fits; the contract
/// says so. On failure the error's text is handed back; what it says is left
/// open.
#[verifier::external_body]
pub(crate) fn parse_usize(s: &str) -> (result: Result<usize, String>)
    ensures
        match result {
            Ok(v) => decimal_value(s@) == Some(v as nat),
            Err(_) => decimal_value(s@) matches None || decimal_value(s@)->0 > usize::MAX,
        },
{
    match s.parse::<usize>() {
        Ok(v) => Ok(v),
        Err(e) => Err(e.to_string()),
    }
}

/// A text cut at every `sep`, as `str::split` cuts it at a character: one
/// piece more than there are separators, empty pieces included.
pub open spec fn split_on(s: Seq<char>, sep: char) -> Seq<Seq<char>>
    decreases s.len(),
{
    if s.len() == 0 {
        seq![Seq::<char>::empty()]
    } else if s.last() == sep {
        split_on(s.drop_last(), sep).push(Seq::empty())
    } else {
        let pieces = split_on(s.drop_last(), sep);
        pieces.update(pieces.len() - 1, pieces.last().push(s.last()))
    }
}

/// Cutting a text always gives at least one piece.
pub proof fn lemma_split_nonempty(s: Seq<char>, sep: char)
    ensures
        split_on(s, sep).len() >= 1,
    decreases s.len(),
{
    if s.len() > 0 {
        lemma_split_nonempty(s.drop_last(), sep);
    }
}

/// Cuts a text at every `sep`.
pub fn split_at_char(s: &str, sep: char) -> (pieces: Vec<String>)
    ensures
        pieces@.map_values(|p: String| p@) == split_on(s@, sep),
{
    let len = s.unicode_len();
    let mut pieces: Vec<String> = Vec::new();
    let mut current = String::new();
    let mut i: usize = 0;
    while i < len
        invariant
            len == s@.len(),
            i <= len,
            pieces@.map_values(|p: String| p@).push(current@) == split_on(s@.take(i as int), sep),
        decreases len - i,
    {
        proof {
            assert(s@.take(i + 1).drop_last() =~= s@.take(i as int));
            lemma_split_nonempty(s@.take(i as int), sep);
        }
        let c = s.get_char(i);
        if c == sep {
            let done = current;
            pieces.push(done);
            current = String::new();
            assert(pieces@.map_values(|p: String| p@).push(current@) =~= split_on(s@.take(i + 1), sep));
        } else {
            push_char(&mut current, c);
            assert(pieces@.map_values(|p: String| p@).push(current@) =~= split_on(s@.take(i + 1), sep));
        }
        i = i + 1;
    }
    pieces.push(current);
    assert(s@.take(len as int) =~= s@);
    pieces
}

} // verus!
