//! Text as sequences of characters: searching, splitting, trimming and numbers.
use vstd::prelude::*;

verus! {

/// What a list of strings holds.
pub open spec fn texts(list: Seq<String>) -> Seq<Seq<char>> {
    list.map_values(|s: String| s@)
}

/// The text that an optional string holds.
pub open spec fn optional_text(s: Option<String>) -> Option<Seq<char>> {
    match s {
        Some(text) => Some(text@),
        None => None,
    }
}

/// The position of the first character of `s` that occurs in `stops`, or the length of `s` where
/// none does.
pub open spec fn first_of(s: Seq<char>, stops: Seq<char>) -> int
    decreases s.len(),
{
    if s.len() == 0 || stops.contains(s[0]) {
        0
    } else {
        1 + first_of(s.drop_first(), stops)
    }
}

/// The pieces of `s` between the occurrences of `separator`: one more than it occurs.
pub open spec fn split_on(s: Seq<char>, separator: char) -> Seq<Seq<char>>
    decreases s.len(),
{
    let end = first_of(s, seq![separator]);
    if 0 <= end < s.len() {
        seq![s.take(end)] + split_on(s.skip(end + 1), separator)
    } else {
        seq![s]
    }
}

/// The text before the first `separator` and the text behind it, where it occurs.
pub open spec fn split_once(s: Seq<char>, separator: char) -> Option<(Seq<char>, Seq<char>)> {
    let end = first_of(s, seq![separator]);
    if 0 <= end < s.len() {
        Some((s.take(end), s.skip(end + 1)))
    } else {
        None
    }
}

/// Nothing before the first stop is one, and what stands there is.
pub proof fn lemma_first_of(s: Seq<char>, stops: Seq<char>)
    ensures
        0 <= first_of(s, stops) <= s.len(),
        forall|i: int| 0 <= i < first_of(s, stops) ==> !stops.contains(#[trigger] s[i]),
        first_of(s, stops) < s.len() ==> stops.contains(s[first_of(s, stops)]),
    decreases s.len(),
{
    if s.len() > 0 && !stops.contains(s[0]) {
        let rest = s.drop_first();
        lemma_first_of(rest, stops);
        assert forall|i: int| 0 <= i < first_of(s, stops) implies !stops.contains(
            #[trigger] s[i],
        ) by {
            if i > 0 {
                assert(rest[i - 1] == s[i]);
            }
        }
    }
}

/// A position that has no stop before it and is a stop, or the end, is the first one.
pub proof fn lemma_first_of_is(s: Seq<char>, stops: Seq<char>, at: int)
    requires
        0 <= at <= s.len(),
        forall|i: int| 0 <= i < at ==> !stops.contains(#[trigger] s[i]),
        at < s.len() ==> stops.contains(s[at]),
    ensures
        first_of(s, stops) == at,
{
    lemma_first_of(s, stops);
    let found = first_of(s, stops);
    if found < at {
        assert(!stops.contains(s[found]));
    }
    if at < found {
        assert(!stops.contains(s[at]));
    }
}

/// The characters of `s`.
pub fn chars_of(s: &str) -> (r: Vec<char>)
    ensures
        r@ == s@,
{
    let mut r: Vec<char> = Vec::new();
    for c in it: s.chars()
        invariant
            it.seq() == s@,
            r@ == s@.take(it.index()),
    {
        r.push(c);
    }
    r
}

/// Whether two texts hold the same characters.
pub fn same_text(a: &str, b: &str) -> (r: bool)
    ensures
        r == (a@ == b@),
{
    a.to_owned() == b.to_owned()
}

/// The pieces of `s` between the occurrences of `separator`.
pub fn split_text<'a>(s: &'a str, separator: char) -> (r: Vec<&'a str>)
    ensures
        r@.map_values(|piece: &str| piece@) == split_on(s@, separator),
{
    let chars = chars_of(s);
    let ghost stops = seq![separator];
    let mut r: Vec<&'a str> = Vec::new();
    let mut start: usize = 0;
    let mut i: usize = 0;
    assert(s@.skip(0) == s@);
    while i < chars.len()
        invariant
            chars@ == s@,
            stops == seq![separator],
            start <= i <= chars.len(),
            forall|k: int| start <= k < i ==> s@[k] != separator,
            split_on(s@, separator) == r@.map_values(|piece: &str| piece@) + split_on(
                s@.skip(start as int),
                separator,
            ),
        decreases chars.len() - i,
    {
        if chars[i] == separator {
            let ghost rest = s@.skip(start as int);
            let ghost before = r@.map_values(|piece: &str| piece@);
            proof {
                assert(stops[0] == separator);
                lemma_first_of_is(rest, stops, i - start);
            }
            r.push(s.substring_char(start, i));
            proof {
                assert(rest.take(i - start) == s@.subrange(start as int, i as int));
                assert(rest.skip(i - start + 1) == s@.skip(i + 1));
                assert(r@.map_values(|piece: &str| piece@) == before.push(rest.take(i - start)));
            }
            start = i + 1;
        }
        i = i + 1;
    }
    let ghost rest = s@.skip(start as int);
    let ghost before = r@.map_values(|piece: &str| piece@);
    proof {
        lemma_first_of_is(rest, stops, rest.len() as int);
    }
    r.push(s.substring_char(start, chars.len()));
    proof {
        assert(rest == s@.subrange(start as int, s@.len() as int));
        assert(r@.map_values(|piece: &str| piece@) == before.push(rest));
    }
    r
}

/// The text before the first `separator` and the text behind it, where it occurs.
pub fn split_text_once<'a>(s: &'a str, separator: char) -> (r: Option<(&'a str, &'a str)>)
    ensures
        match r {
            Some((before, behind)) => split_once(s@, separator) == Some((before@, behind@)),
            None => split_once(s@, separator) is None,
        },
{
    let chars = chars_of(s);
    let ghost stops = seq![separator];
    let mut i: usize = 0;
    while i < chars.len()
        invariant
            chars@ == s@,
            stops == seq![separator],
            i <= chars.len(),
            forall|k: int| 0 <= k < i ==> s@[k] != separator,
        decreases chars.len() - i,
    {
        if chars[i] == separator {
            proof {
                assert(stops[0] == separator);
                lemma_first_of_is(s@, stops, i as int);
                assert(s@.take(i as int) == s@.subrange(0, i as int));
                assert(s@.skip(i + 1) == s@.subrange(i + 1, s@.len() as int));
            }
            return Some((s.substring_char(0, i), s.substring_char(i + 1, chars.len())));
        }
        i = i + 1;
    }
    proof {
        lemma_first_of_is(s@, stops, s@.len() as int);
    }
    None
}

/// The characters with the Unicode property `White_Space`.
pub open spec fn is_white_space(c: char) -> bool {
    ||| '\u{9}' <= c <= '\u{d}'
    ||| c == ' '
    ||| c == '\u{85}'
    ||| c == '\u{a0}'
    ||| c == '\u{1680}'
    ||| '\u{2000}' <= c <= '\u{200a}'
    ||| c == '\u{2028}'
    ||| c == '\u{2029}'
    ||| c == '\u{202f}'
    ||| c == '\u{205f}'
    ||| c == '\u{3000}'
}

/// `s` without the white space that it starts with.
pub open spec fn trimmed_start(s: Seq<char>) -> Seq<char>
    decreases s.len(),
{
    if s.len() > 0 && is_white_space(s[0]) {
        trimmed_start(s.drop_first())
    } else {
        s
    }
}

/// `s` without the white space that it ends with.
pub open spec fn trimmed_end(s: Seq<char>) -> Seq<char>
    decreases s.len(),
{
    if s.len() > 0 && is_white_space(s.last()) {
        trimmed_end(s.drop_last())
    } else {
        s
    }
}

/// `s` without the white space at its ends.
pub open spec fn trimmed(s: Seq<char>) -> Seq<char> {
    trimmed_end(trimmed_start(s))
}

/// Whether `s` has no white space at its ends.
pub open spec fn is_trimmed(s: Seq<char>) -> bool {
    s.len() > 0 ==> !is_white_space(s[0]) && !is_white_space(s.last())
}

/// `str::trim` of the standard library: the text without leading and trailing white space, as
/// Unicode's property `White_Space` defines it.
pub assume_specification[ str::trim ](s: &str) -> (r: &str)
    ensures
        r@ == trimmed(s@),
;

/// Whether `c` is one of the letters `A` to `Z`.
pub open spec fn is_capital(c: char) -> bool {
    'A' <= c <= 'Z'
}

/// The small letter for one of `A` to `Z`; any other character as it is.
pub open spec fn small_letter(c: char) -> char {
    if is_capital(c) {
        ((c as u32) + 32) as char
    } else {
        c
    }
}

/// Whether all characters of `s` are ASCII.
pub open spec fn is_ascii_text(s: Seq<char>) -> bool {
    forall|i: int| 0 <= i < s.len() ==> (#[trigger] s[i]) <= '\u{7f}'
}

/// The lower case by Unicode's mapping of a text that is not all ASCII: what `str::to_lowercase`
/// returns.
pub uninterp spec fn unicode_lower_case(s: Seq<char>) -> Seq<char>;

/// The lower case of a text: letter by letter where all of it is ASCII.
pub open spec fn lower_case(s: Seq<char>) -> Seq<char> {
    if is_ascii_text(s) {
        s.map_values(|c: char| small_letter(c))
    } else {
        unicode_lower_case(s)
    }
}

/// `str::to_lowercase` of the standard library. ASCII text is mapped letter by letter; what comes
/// of other text depends on the text alone. The result holds none of the letters `A` to `Z`, no `=`
/// or `;` that the text does not hold, and no white space at its ends unless the text has some.
pub assume_specification[ str::to_lowercase ](s: &str) -> (r: String)
    ensures
        is_ascii_text(s@) ==> r@ == s@.map_values(|c: char| small_letter(c)),
        !is_ascii_text(s@) ==> r@ == unicode_lower_case(s@),
        forall|i: int| 0 <= i < r@.len() ==> !is_capital(#[trigger] r@[i]),
        r@.contains('=') ==> s@.contains('='),
        r@.contains(';') ==> s@.contains(';'),
        is_trimmed(s@) ==> is_trimmed(r@),
;

/// Whether `c` is a decimal digit.
pub open spec fn is_digit(c: char) -> bool {
    '0' <= c <= '9'
}

/// The number that a sequence of decimal digits writes.
pub open spec fn digits_value(s: Seq<char>) -> int
    decreases s.len(),
{
    if s.len() == 0 {
        0
    } else {
        digits_value(s.drop_last()) * 10 + (s.last() as int - '0' as int)
    }
}

/// Whether `s` is one or more decimal digits.
pub open spec fn all_digits(s: Seq<char>) -> bool {
    s.len() > 0 && forall|i: int| 0 <= i < s.len() ==> is_digit(#[trigger] s[i])
}

/// The number that `s` writes: one or more digits, with or without a `+` before them.
pub open spec fn unsigned_value(s: Seq<char>) -> Option<int> {
    let digits = if s.len() > 0 && s[0] == '+' {
        s.drop_first()
    } else {
        s
    };
    if all_digits(digits) {
        Some(digits_value(digits))
    } else {
        None
    }
}

/// The value of `s` as a number of at most `max`.
pub open spec fn bounded_value(s: Seq<char>, max: int) -> Option<int> {
    match unsigned_value(s) {
        Some(n) if n <= max => Some(n),
        _ => None,
    }
}

/// The standard library's error for text that is no integer.
#[verifier::external_type_specification]
#[verifier::external_body]
pub struct ExParseIntError(std::num::ParseIntError);

/// What is wrong with a text that is no number of 16 bits: the error of `u16::from_str`.
pub uninterp spec fn u16_error(s: Seq<char>) -> std::num::ParseIntError;

/// `u16::from_str` of the standard library: an optional `+` and decimal digits, whose value fits.
/// The error that comes of other text depends on the text alone.
#[verifier::external_body]
pub(crate) fn parse_u16(s: &str) -> (r: Result<u16, std::num::ParseIntError>)
    ensures
        match r {
            Ok(n) => bounded_value(s@, u16::MAX as int) == Some(n as int),
            Err(error) => bounded_value(s@, u16::MAX as int) is None && error == u16_error(s@),
        },
{
    s.parse::<u16>()
}

/// `usize::from_str` of the standard library: an optional `+` and decimal digits, whose value
/// fits. Which error comes of other text is not stated.
#[verifier::external_body]
pub(crate) fn parse_usize(s: &str) -> (r: Result<usize, std::num::ParseIntError>)
    ensures
        match r {
            Ok(n) => bounded_value(s@, usize::MAX as int) == Some(n as int),
            Err(_) => bounded_value(s@, usize::MAX as int) is None,
        },
{
    s.parse::<usize>()
}

/// The decimal digits of `n`, without leading zeros.
pub open spec fn decimal_digits(n: nat) -> Seq<char>
    decreases n,
{
    let digit = ('0' as int + n % 10) as char;
    if n < 10 {
        seq![digit]
    } else {
        decimal_digits(n / 10).push(digit)
    }
}

/// The text of one decimal digit.
fn digit_text(n: u32) -> (r: &'static str)
    requires
        n < 10,
    ensures
        r@ == seq![('0' as int + n) as char],
{
    proof {
        reveal_strlit("0");
        reveal_strlit("1");
        reveal_strlit("2");
        reveal_strlit("3");
        reveal_strlit("4");
        reveal_strlit("5");
        reveal_strlit("6");
        reveal_strlit("7");
        reveal_strlit("8");
        reveal_strlit("9");
    }
    match n {
        0 => "0",
        1 => "1",
        2 => "2",
        3 => "3",
        4 => "4",
        5 => "5",
        6 => "6",
        7 => "7",
        8 => "8",
        _ => "9",
    }
}

/// The decimal digits of `n` as text.
pub fn decimal_text(n: u32) -> (r: String)
    ensures
        r@ == decimal_digits(n as nat),
    decreases n,
{
    let mut r = if n < 10 {
        String::new()
    } else {
        decimal_text(n / 10)
    };
    r.append(digit_text(n % 10));
    r
}

/// A number reads back from its decimal digits.
pub proof fn lemma_decimal_digits_value(n: nat)
    ensures
        unsigned_value(decimal_digits(n)) == Some(n as int),
    decreases n,
{
    lemma_decimal_digits(n);
    let s = decimal_digits(n);
    assert(is_digit(s[0]));
}

proof fn lemma_decimal_digits(n: nat)
    ensures
        all_digits(decimal_digits(n)),
        digits_value(decimal_digits(n)) == n,
    decreases n,
{
    let s = decimal_digits(n);
    let digit = ('0' as int + n % 10) as char;
    assert(digit as int == '0' as int + n % 10);
    if n < 10 {
        assert(s.drop_last() == Seq::<char>::empty());
        assert(digits_value(s.drop_last()) == 0);
    } else {
        lemma_decimal_digits(n / 10);
        assert(s.drop_last() == decimal_digits(n / 10));
        assert(s.last() == digit);
        assert forall|i: int| 0 <= i < s.len() implies is_digit(#[trigger] s[i]) by {
            if i < s.len() - 1 {
                assert(s[i] == decimal_digits(n / 10)[i]);
            }
        }
    }
}

/// Whether `c` separates the parts of a path on a machine where `separator` does. A slash does on
/// each.
pub open spec fn separates(c: char, separator: char) -> bool {
    c == '/' || c == separator
}

/// Whether `name` is a path of its own on a machine where `separator` separates the parts of paths:
/// it starts with a separator, or, where that is not the slash, with a drive's letter and a colon.
pub open spec fn is_rooted(name: Seq<char>, separator: char) -> bool {
    ||| name.len() > 0 && separates(name[0], separator)
    ||| separator != '/' && name.len() > 1 && name[1] == ':' && ('a' <= name[0] <= 'z' || is_capital(
        name[0],
    ))
}

/// The path of `name` inside the directory `dir`, which is on no drive, on a machine where
/// `separator` separates the parts of paths: a path of its own stands for itself, any other is put
/// behind `dir` and one separator.
pub open spec fn joined(dir: Seq<char>, name: Seq<char>, separator: char) -> Seq<char> {
    if is_rooted(name, separator) {
        name
    } else if dir.len() == 0 || separates(dir.last(), separator) {
        dir + name
    } else {
        dir.push(separator) + name
    }
}

/// `String::push` of the standard library: it puts a character behind the text.
pub assume_specification[ String::push ](s: &mut String, c: char)
    ensures
        final(s)@ == old(s)@.push(c),
;

/// The path of `name` inside the directory `dir`.
pub fn join_path(dir: &str, name: &str, separator: char) -> (r: String)
    ensures
        r@ == joined(dir@, name@, separator),
{
    let chars = chars_of(name);
    if chars.len() > 0 && (chars[0] == '/' || chars[0] == separator) {
        return name.to_owned();
    }
    if separator != '/' && chars.len() > 1 && chars[1] == ':' && (('a' <= chars[0] && chars[0]
        <= 'z') || ('A' <= chars[0] && chars[0] <= 'Z')) {
        return name.to_owned();
    }
    let dir_chars = chars_of(dir);
    let mut r = dir.to_owned();
    if dir_chars.len() > 0 {
        let last = dir_chars[dir_chars.len() - 1];
        if last != '/' && last != separator {
            r.push(separator);
        }
    }
    r.append(name);
    r
}

/// The last segment of a path: the text behind its last `/`, or all of it.
pub fn last_segment(path: &str) -> (r: String)
    ensures
        r@ == split_on(path@, '/').last(),
{
    let pieces = split_text(path, '/');
    let ghost views = pieces@.map_values(|piece: &str| piece@);
    proof {
        lemma_split_on_nonempty(path@, '/');
        assert(views.len() == pieces@.len());
    }
    let last = pieces[pieces.len() - 1];
    assert(views.last() == last@);
    last.to_owned()
}

/// Splitting gives at least one piece.
pub proof fn lemma_split_on_nonempty(s: Seq<char>, separator: char)
    ensures
        split_on(s, separator).len() > 0,
{
}

/// Pieces with a separator between each two.
pub open spec fn join_with(pieces: Seq<Seq<char>>, separator: char) -> Seq<char>
    decreases pieces.len(),
{
    if pieces.len() == 0 {
        Seq::empty()
    } else if pieces.len() == 1 {
        pieces[0]
    } else {
        pieces[0].push(separator) + join_with(pieces.drop_first(), separator)
    }
}

/// The pieces of a text hold no separator, and with separators between them they are the text.
pub proof fn law_split_and_join(s: Seq<char>, separator: char)
    ensures
        forall|i: int|
            0 <= i < split_on(s, separator).len() ==> !(#[trigger] split_on(
                s,
                separator,
            )[i]).contains(separator),
        join_with(split_on(s, separator), separator) == s,
    decreases s.len(),
{
    let stops = seq![separator];
    let end = first_of(s, stops);
    lemma_first_of(s, stops);
    assert(stops[0] == separator);
    assert(forall|i: int| 0 <= i < end ==> #[trigger] s[i] != separator);
    if end < s.len() {
        let rest = s.skip(end + 1);
        let pieces = split_on(s, separator);
        law_split_and_join(rest, separator);
        lemma_split_on_nonempty(rest, separator);
        assert(pieces == seq![s.take(end)] + split_on(rest, separator));
        assert(pieces.drop_first() == split_on(rest, separator));
        assert(s[end] == separator);
        assert(s == s.take(end).push(separator) + rest);
        assert forall|i: int| 0 <= i < pieces.len() implies !(#[trigger] pieces[i]).contains(
            separator,
        ) by {
            if i > 0 {
                assert(pieces[i] == split_on(rest, separator)[i - 1]);
            }
        }
    } else {
        assert(split_on(s, separator) == seq![s]);
    }
}

/// What holds no separator is a piece of its own in front of one.
pub proof fn lemma_split_front(piece: Seq<char>, separator: char, rest: Seq<char>)
    requires
        !piece.contains(separator),
    ensures
        split_on(piece.push(separator) + rest, separator) == seq![piece] + split_on(
            rest,
            separator,
        ),
{
    let s = piece.push(separator) + rest;
    let stops = seq![separator];
    assert(stops[0] == separator);
    assert forall|i: int| 0 <= i < piece.len() implies !stops.contains(#[trigger] s[i]) by {
        assert(s[i] == piece[i]);
    }
    lemma_first_of_is(s, stops, piece.len() as int);
    assert(s.take(piece.len() as int) == piece);
    assert(s.skip(piece.len() as int + 1) == rest);
}

/// What holds no separator is one piece.
pub proof fn lemma_split_none(s: Seq<char>, separator: char)
    requires
        !s.contains(separator),
    ensures
        split_on(s, separator) == seq![s],
{
    lemma_first_of_is(s, seq![separator], s.len() as int);
}

/// The first separator stands behind what holds none.
pub proof fn lemma_split_once_at(before: Seq<char>, separator: char, behind: Seq<char>)
    requires
        !before.contains(separator),
    ensures
        split_once(before.push(separator) + behind, separator) == Some((before, behind)),
{
    let s = before.push(separator) + behind;
    let stops = seq![separator];
    assert(stops[0] == separator);
    assert forall|i: int| 0 <= i < before.len() implies !stops.contains(#[trigger] s[i]) by {
        assert(s[i] == before[i]);
    }
    lemma_first_of_is(s, stops, before.len() as int);
    assert(s.take(before.len() as int) == before);
    assert(s.skip(before.len() as int + 1) == behind);
}

/// Text without white space at its ends stays as it is.
pub proof fn lemma_trimmed_stays(s: Seq<char>)
    requires
        is_trimmed(s),
    ensures
        trimmed(s) == s,
{
}

/// Whether `s` is white space.
pub open spec fn all_white_space(s: Seq<char>) -> bool {
    forall|i: int| 0 <= i < s.len() ==> is_white_space(#[trigger] s[i])
}

/// White space round a text is cut off with what the text has at its ends.
pub proof fn lemma_trimmed_padded(front: Seq<char>, s: Seq<char>, end: Seq<char>)
    requires
        all_white_space(front),
        all_white_space(end),
    ensures
        trimmed(front + s) == trimmed(s),
        trimmed(s + end) == trimmed(s),
{
    lemma_padded_front(front, s);
    lemma_padded_end(s, end);
}

proof fn lemma_padded_front(front: Seq<char>, s: Seq<char>)
    requires
        all_white_space(front),
    ensures
        trimmed_start(front + s) == trimmed_start(s),
    decreases front.len(),
{
    if front.len() == 0 {
        assert(front + s == s);
    } else {
        let rest = front.drop_first();
        assert(is_white_space(front[0]));
        assert((front + s).drop_first() == rest + s);
        assert forall|i: int| 0 <= i < rest.len() implies is_white_space(#[trigger] rest[i]) by {
            assert(rest[i] == front[i + 1]);
        }
        lemma_padded_front(rest, s);
    }
}

proof fn lemma_padded_end(s: Seq<char>, end: Seq<char>)
    requires
        all_white_space(end),
    ensures
        trimmed(s + end) == trimmed(s),
    decreases s.len(),
{
    let empty = Seq::<char>::empty();
    if s.len() == 0 {
        assert(s + end == end);
        lemma_padded_front(end, empty);
        assert(end + empty == end);
        assert(s == empty);
    } else if is_white_space(s[0]) {
        assert((s + end).drop_first() == s.drop_first() + end);
        lemma_padded_end(s.drop_first(), end);
    } else {
        assert((s + end)[0] == s[0]);
        lemma_cut_end(s, end);
    }
}

proof fn lemma_cut_end(s: Seq<char>, end: Seq<char>)
    requires
        all_white_space(end),
    ensures
        trimmed_end(s + end) == trimmed_end(s),
    decreases end.len(),
{
    if end.len() == 0 {
        assert(s + end == s);
    } else {
        let rest = end.drop_last();
        assert(is_white_space(end[end.len() - 1]));
        assert((s + end).drop_last() == s + rest);
        assert forall|i: int| 0 <= i < rest.len() implies is_white_space(#[trigger] rest[i]) by {
            assert(rest[i] == end[i]);
        }
        lemma_cut_end(s, rest);
    }
}

/// What holds no separator, in front of a text, goes to its first piece.
pub proof fn lemma_split_padded_front(front: Seq<char>, s: Seq<char>, separator: char)
    requires
        !front.contains(separator),
    ensures
        split_on(front + s, separator) == split_on(s, separator).update(
            0,
            front + split_on(s, separator)[0],
        ),
{
    let stops = seq![separator];
    let whole = front + s;
    let at = first_of(s, stops);
    lemma_first_of(s, stops);
    assert(stops[0] == separator);
    assert forall|i: int| 0 <= i < front.len() + at implies !stops.contains(#[trigger] whole[i]) by {
        if i < front.len() {
            assert(whole[i] == front[i]);
        } else {
            assert(whole[i] == s[i - front.len()]);
        }
    }
    lemma_first_of_is(whole, stops, front.len() + at);
    if at < s.len() {
        assert(whole.take(front.len() + at) == front + s.take(at));
        assert(whole.skip(front.len() + at + 1) == s.skip(at + 1));
    }
}

/// What holds no separator, behind a text, goes to its last piece.
pub proof fn lemma_split_padded_end(s: Seq<char>, end: Seq<char>, separator: char)
    requires
        !end.contains(separator),
    ensures
        split_on(s + end, separator) == split_on(s, separator).update(
            split_on(s, separator).len() - 1,
            split_on(s, separator).last() + end,
        ),
    decreases s.len(),
{
    let stops = seq![separator];
    let at = first_of(s, stops);
    lemma_first_of(s, stops);
    assert(stops[0] == separator);
    if at < s.len() {
        let piece = s.take(at);
        let rest = s.skip(at + 1);
        assert(s[at] == separator);
        assert(s == piece.push(separator) + rest);
        assert(s + end == piece.push(separator) + (rest + end));
        assert(!piece.contains(separator));
        lemma_split_front(piece, separator, rest);
        lemma_split_front(piece, separator, rest + end);
        lemma_split_padded_end(rest, end, separator);
        lemma_split_on_nonempty(rest, separator);
    } else {
        assert forall|i: int| 0 <= i < (s + end).len() implies (s + end)[i] != separator by {
            if i < s.len() {
                assert((s + end)[i] == s[i]);
            } else {
                assert((s + end)[i] == end[i - s.len()]);
            }
        }
        assert(!s.contains(separator));
        lemma_split_none(s, separator);
        lemma_split_none(s + end, separator);
    }
}

/// What is cut off at the ends of a text is white space, and no more of it is left there.
pub proof fn law_trimmed(s: Seq<char>)
    ensures
        is_trimmed(trimmed(s)),
        exists|start: int, end: int|
            {
                &&& 0 <= start <= end <= s.len()
                &&& trimmed(s) == #[trigger] s.subrange(start, end)
                &&& forall|i: int|
                    0 <= i < start || end <= i < s.len() ==> is_white_space(#[trigger] s[i])
            },
{
    lemma_trimmed_start(s);
    let behind = trimmed_start(s);
    lemma_trimmed_end(behind);
    let start = s.len() - behind.len();
    let end = start + trimmed(s).len();
    assert(trimmed(s) == s.subrange(start, end));
    assert forall|i: int| 0 <= i < start || end <= i < s.len() implies is_white_space(
        #[trigger] s[i],
    ) by {
        if end <= i {
            assert(s[i] == behind[i - start]);
        }
    }
}

/// What a text does not hold, it does not hold without the white space at its ends.
pub proof fn lemma_trimmed_lacks(s: Seq<char>, c: char)
    requires
        !s.contains(c),
    ensures
        !trimmed(s).contains(c),
{
    law_trimmed(s);
    let (start, end) = choose|start: int, end: int|
        {
            &&& 0 <= start <= end <= s.len()
            &&& trimmed(s) == #[trigger] s.subrange(start, end)
            &&& forall|i: int|
                0 <= i < start || end <= i < s.len() ==> is_white_space(#[trigger] s[i])
        };
    assert forall|i: int| 0 <= i < trimmed(s).len() implies trimmed(s)[i] != c by {
        assert(trimmed(s)[i] == s[start + i]);
    }
}

proof fn lemma_trimmed_start(s: Seq<char>)
    ensures
        trimmed_start(s).len() <= s.len(),
        trimmed_start(s) == s.skip(s.len() - trimmed_start(s).len()),
        forall|i: int|
            0 <= i < s.len() - trimmed_start(s).len() ==> is_white_space(#[trigger] s[i]),
        trimmed_start(s).len() > 0 ==> !is_white_space(trimmed_start(s)[0]),
    decreases s.len(),
{
    if s.len() > 0 && is_white_space(s[0]) {
        let rest = s.drop_first();
        lemma_trimmed_start(rest);
        assert forall|i: int| 0 <= i < s.len() - trimmed_start(s).len() implies is_white_space(
            #[trigger] s[i],
        ) by {
            if i > 0 {
                assert(rest[i - 1] == s[i]);
            }
        }
    }
}

proof fn lemma_trimmed_end(s: Seq<char>)
    ensures
        trimmed_end(s).len() <= s.len(),
        trimmed_end(s) == s.take(trimmed_end(s).len() as int),
        forall|i: int| trimmed_end(s).len() <= i < s.len() ==> is_white_space(#[trigger] s[i]),
        trimmed_end(s).len() > 0 ==> !is_white_space(trimmed_end(s).last()),
        s.len() > 0 && !is_white_space(s[0]) ==> trimmed_end(s).len() > 0,
    decreases s.len(),
{
    if s.len() > 0 && is_white_space(s.last()) {
        let rest = s.drop_last();
        lemma_trimmed_end(rest);
        assert forall|i: int| trimmed_end(s).len() <= i < s.len() implies is_white_space(
            #[trigger] s[i],
        ) by {
            if i < s.len() - 1 {
                assert(rest[i] == s[i]);
            }
        }
    }
}

/// What a list of strings holds are the texts of its strings, each at its place.
pub proof fn law_texts(list: Seq<String>)
    ensures
        texts(list).len() == list.len(),
        forall|i: int| 0 <= i < list.len() ==> texts(list)[i] == (#[trigger] list[i])@,
{
}

/// An optional string holds text if and only if it is there, and then its own.
pub proof fn law_optional_text(s: Option<String>)
    ensures
        optional_text(s) is Some <==> s is Some,
        s matches Some(text) ==> optional_text(s) == Some(text@),
{
}

/// A text is cut at its first separator: what stands before it, the separator and what stands
/// behind it are the text, and before it there is no other. Without a separator nothing is cut.
pub proof fn law_split_once(s: Seq<char>, separator: char)
    ensures
        split_once(s, separator) is Some <==> s.contains(separator),
        split_once(s, separator) matches Some((before, behind)) ==> s =~= before + seq![separator]
            + behind && !before.contains(separator),
{
    let stops = seq![separator];
    lemma_first_of(s, stops);
    assert(stops[0] == separator);
    let at = first_of(s, stops);
    if at < s.len() {
        assert(s[at] == separator);
        assert(s =~= s.take(at) + seq![separator] + s.skip(at + 1));
    } else {
        assert(forall|i: int| 0 <= i < s.len() ==> #[trigger] s[i] != separator);
    }
}

/// Digits write a number that is not negative.
pub proof fn lemma_digits_value_nonneg(s: Seq<char>)
    requires
        forall|i: int| 0 <= i < s.len() ==> is_digit(#[trigger] s[i]),
    ensures
        digits_value(s) >= 0,
    decreases s.len(),
{
    if s.len() > 0 {
        assert(is_digit(s[s.len() - 1]));
        assert forall|i: int| 0 <= i < s.drop_last().len() implies is_digit(
            #[trigger] s.drop_last()[i],
        ) by {
            assert(s.drop_last()[i] == s[i]);
        }
        lemma_digits_value_nonneg(s.drop_last());
    }
}

/// What is read as a number is not negative.
pub proof fn lemma_unsigned_value_nonneg(s: Seq<char>)
    ensures
        unsigned_value(s) matches Some(n) ==> n >= 0,
{
    if s.len() > 0 && s[0] == '+' {
        if all_digits(s.drop_first()) {
            lemma_digits_value_nonneg(s.drop_first());
        }
    } else if all_digits(s) {
        lemma_digits_value_nonneg(s);
    }
}

/// A number is written in decimal digits, of which the first is a zero only for zero itself, and
/// reads back as itself.
pub proof fn law_decimal_digits(n: nat)
    ensures
        decimal_digits(n).len() > 0,
        forall|i: int|
            0 <= i < decimal_digits(n).len() ==> '0' <= #[trigger] decimal_digits(n)[i] <= '9',
        decimal_digits(n)[0] == '0' ==> n == 0 && decimal_digits(n).len() == 1,
        unsigned_value(decimal_digits(n)) == Some(n as int),
    decreases n,
{
    lemma_decimal_digits_value(n);
    lemma_decimal_digits(n);
    let digit = ('0' as int + n % 10) as char;
    assert(digit as int == '0' as int + n % 10);
    assert forall|i: int| 0 <= i < decimal_digits(n).len() implies '0' <= #[trigger] decimal_digits(
        n,
    )[i] <= '9' by {
        assert(is_digit(decimal_digits(n)[i]));
    }
    if n >= 10 {
        law_decimal_digits(n / 10);
        assert(decimal_digits(n)[0] == decimal_digits(n / 10)[0]);
    }
}

/// Of a path inside a directory the name is the end. A name with a root of its own is all of it;
/// any other stands behind the directory, with one separator between where the directory has none
/// at its end.
pub proof fn law_joined(dir: Seq<char>, name: Seq<char>, separator: char)
    ensures
        ({
            let path = joined(dir, name, separator);
            let rooted = (name.len() > 0 && (name[0] == '/' || name[0] == separator)) || (separator
                != '/' && name.len() > 1 && name[1] == ':' && ('a' <= name[0] <= 'z' || 'A'
                <= name[0] <= 'Z'));
            let open = dir.len() > 0 && dir.last() != '/' && dir.last() != separator;
            &&& rooted ==> path =~= name
            &&& !rooted && open ==> path =~= dir + seq![separator] + name
            &&& !rooted && !open ==> path =~= dir + name
        }),
{
    assert(dir.push(separator) + name =~= dir + seq![separator] + name);
}

} // verus!
