//! Characters and strings: the character classes of the lexer and the pieces of text that error
//! messages and type names are put together from.
use vstd::prelude::*;

verus! {

/// Whether `c`, outside ASCII, has the Unicode property `White_Space`.
pub uninterp spec fn unicode_white_space(c: char) -> bool;

/// Whether `c`, outside ASCII, has the Unicode property `Alphabetic`.
pub uninterp spec fn unicode_alphabetic(c: char) -> bool;

/// Whether `c`, outside ASCII, is alphabetic or numeric in Unicode.
pub uninterp spec fn unicode_alphanumeric(c: char) -> bool;

/// How a string is written inside double quotes, special characters escaped.
pub uninterp spec fn quoted(s: Seq<char>) -> Seq<char>;

/// `char::is_whitespace`: among the ASCII characters the space and the controls from tab to
/// carriage return, beyond them the characters with the property `White_Space`.
pub assume_specification[ char::is_whitespace ](c: char) -> (r: bool)
    ensures
        r == (if (c as u32) < 128 {
            is_ascii_space(c)
        } else {
            unicode_white_space(c)
        }),
;

/// `char::is_alphabetic`: among the ASCII characters the letters, beyond them the characters with
/// the property `Alphabetic`.
pub assume_specification[ char::is_alphabetic ](c: char) -> (r: bool)
    ensures
        r == (if (c as u32) < 128 {
            is_ascii_letter(c)
        } else {
            unicode_alphabetic(c)
        }),
;

/// `char::is_alphanumeric`: among the ASCII characters the letters and the digits, beyond them the
/// characters that Unicode counts as alphabetic or numeric, so all alphabetic ones.
pub assume_specification[ char::is_alphanumeric ](c: char) -> (r: bool)
    ensures
        r == (if (c as u32) < 128 {
            is_ascii_letter(c) || is_digit(c)
        } else {
            unicode_alphanumeric(c)
        }),
        (c as u32) >= 128 && unicode_alphabetic(c) ==> r,
;

/// `String::push`: one character is appended.
pub assume_specification[ String::push ](s: &mut String, c: char)
    ensures
        final(s)@ == old(s)@.push(c),
;

/// Whether a text is made of ASCII letters, digits and underscores.
pub open spec fn is_plain(s: Seq<char>) -> bool {
    forall|k: int|
        0 <= k < s.len() ==> is_ascii_letter(#[trigger] s[k]) || is_digit(s[k]) || s[k] == '_'
}

/// The `Debug` output of a string, as `format!` writes it: a function of the characters alone. A
/// text of ASCII letters, digits and underscores stands in double quotes as it is.
#[verifier::external_body]
pub(crate) fn debug_str(s: &str) -> (r: String)
    ensures
        r@ == quoted(s@),
        is_plain(s@) ==> r@ == seq!['"'] + s@ + seq!['"'],
{
    format!("{:?}", s)
}

/// The space and the controls from tab to carriage return.
pub open spec fn is_ascii_space(c: char) -> bool {
    c == ' ' || '\t' <= c <= '\r'
}

/// The letters `a` to `z` and `A` to `Z`.
pub open spec fn is_ascii_letter(c: char) -> bool {
    'a' <= c <= 'z' || 'A' <= c <= 'Z'
}

/// The decimal digits `0` to `9`.
pub open spec fn is_digit(c: char) -> bool {
    '0' <= c <= '9'
}

/// The characters that separate tokens and mean nothing else.
pub open spec fn is_space(c: char) -> bool {
    if (c as u32) < 128 {
        is_ascii_space(c)
    } else {
        unicode_white_space(c)
    }
}

/// The characters that an identifier may begin with.
pub open spec fn is_ident_start(c: char) -> bool {
    c == '_' || if (c as u32) < 128 {
        is_ascii_letter(c)
    } else {
        unicode_alphabetic(c)
    }
}

/// The characters that an identifier may go on with.
pub open spec fn is_ident_char(c: char) -> bool {
    c == '_' || if (c as u32) < 128 {
        is_ascii_letter(c) || is_digit(c)
    } else {
        unicode_alphabetic(c) || unicode_alphanumeric(c)
    }
}

/// The number that a digit stands for.
pub open spec fn digit_value(c: char) -> int {
    c as int - '0' as int
}

/// The digit that stands for a number below ten.
pub open spec fn digit_char(d: int) -> char {
    (d + '0' as int) as char
}

/// The number that a row of decimal digits stands for.
pub open spec fn decimal_value(s: Seq<char>) -> int
    decreases s.len(),
{
    if s.len() == 0 {
        0
    } else {
        decimal_value(s.drop_last()) * 10 + digit_value(s.last())
    }
}

/// The decimal digits of a natural number, without leading zeros.
pub open spec fn digits(n: nat) -> Seq<char>
    decreases n,
{
    if n < 10 {
        seq![digit_char(n as int)]
    } else {
        digits(n / 10).push(digit_char((n % 10) as int))
    }
}

/// An integer in decimal, with a minus sign in front of a negative one.
pub open spec fn decimal(n: int) -> Seq<char> {
    if n < 0 {
        seq!['-'] + digits((-n) as nat)
    } else {
        digits(n as nat)
    }
}

/// The parts, one after the other, with `sep` between each two neighbours.
pub open spec fn join(parts: Seq<Seq<char>>, sep: Seq<char>) -> Seq<char>
    decreases parts.len(),
{
    if parts.len() == 0 {
        Seq::empty()
    } else if parts.len() == 1 {
        parts[0]
    } else {
        join(parts.drop_last(), sep) + sep + parts.last()
    }
}

/// What each value of a row holds.
pub open spec fn views<T: View>(items: Seq<T>) -> Seq<T::V> {
    items.map_values(|item: T| item@)
}

/// The decimal digits of a number determine it.
pub proof fn law_decimal_value_of_digits(n: nat)
    ensures
        decimal_value(digits(n)) == n,
        forall|k: int| 0 <= k < digits(n).len() ==> is_digit(#[trigger] digits(n)[k]),
        digits(n).len() > 0,
    decreases n,
{
    if n < 10 {
        assert(digits(n).drop_last() =~= Seq::empty());
        assert(decimal_value(Seq::empty()) == 0);
    } else {
        law_decimal_value_of_digits(n / 10);
        assert(digits(n).drop_last() =~= digits(n / 10));
    }
}

/// Whether two strings hold the same characters.
pub fn str_eq(a: &str, b: &str) -> (r: bool)
    ensures
        r == (a@ == b@),
{
    let a: String = a.to_owned();
    let b: String = b.to_owned();
    a == b
}

/// The characters of a string.
pub fn chars_of(s: &str) -> (v: Vec<char>)
    ensures
        v@ == s@,
{
    let mut v: Vec<char> = Vec::new();
    for c in it: s.chars()
        invariant
            v@ == it.seq().take(it.index()),
    {
        v.push(c);
    }
    v
}

/// The string of the characters from `from` up to `to`.
pub fn slice_text(chars: &Vec<char>, from: usize, to: usize) -> (r: String)
    requires
        from <= to <= chars@.len(),
    ensures
        r@ == chars@.subrange(from as int, to as int),
{
    let mut r: String = String::new();
    let mut i: usize = from;
    while i < to
        invariant
            from <= i <= to <= chars@.len(),
            r@ == chars@.subrange(from as int, i as int),
        decreases to - i,
    {
        r.push(chars[i]);
        i = i + 1;
    }
    r
}

/// Whether `s` ends in `suffix`.
pub open spec fn has_suffix(s: Seq<char>, suffix: Seq<char>) -> bool {
    suffix.len() <= s.len() && s.skip(s.len() - suffix.len()) == suffix
}

/// Whether `s` ends in `suffix`.
pub fn ends_with(s: &str, suffix: &str) -> (r: bool)
    ensures
        r == has_suffix(s@, suffix@),
{
    let text: Vec<char> = chars_of(s);
    let tail: Vec<char> = chars_of(suffix);
    let len: usize = text.len();
    if tail.len() > len {
        return false;
    }
    let start: usize = len - tail.len();
    let mut i: usize = 0;
    while i < tail.len()
        invariant
            i <= tail@.len(),
            len == text@.len(),
            start + tail@.len() == len,
            text@ == s@,
            tail@ == suffix@,
            forall|k: int| 0 <= k < i ==> text@[start + k] == tail@[k],
        decreases tail.len() - i,
    {
        if text[start + i] != tail[i] {
            assert(s@.skip(start as int)[i as int] == s@[start + i]);
            return false;
        }
        i = i + 1;
    }
    assert(s@.skip(start as int) =~= suffix@);
    true
}

/// Where a name first stands among `names`, looked for from place `from` on.
pub open spec fn find_from(names: Seq<Seq<char>>, name: Seq<char>, from: int) -> Option<usize>
    decreases names.len() - from,
{
    if from >= names.len() {
        None
    } else if names[from] == name {
        Some(from as usize)
    } else {
        find_from(names, name, from + 1)
    }
}

/// Where a name first stands among `names`.
pub open spec fn find(names: Seq<Seq<char>>, name: Seq<char>) -> Option<usize> {
    find_from(names, name, 0)
}

/// Where a name first stands among `names`.
pub fn find_name(names: &Vec<String>, name: &str) -> (r: Option<usize>)
    ensures
        r == find(views(names@), name@),
        match r {
            Some(i) => {
                &&& i < names@.len()
                &&& names@[i as int]@ == name@
                &&& forall|k: int| 0 <= k < i ==> #[trigger] names@[k]@ != name@
            },
            None => forall|k: int| 0 <= k < names@.len() ==> #[trigger] names@[k]@ != name@,
        },
{
    let mut i: usize = 0;
    while i < names.len()
        invariant
            i <= names@.len(),
            find(views(names@), name@) == find_from(views(names@), name@, i as int),
            forall|k: int| 0 <= k < i ==> #[trigger] names@[k]@ != name@,
        decreases names.len() - i,
    {
        if str_eq(names[i].as_str(), name) {
            return Some(i);
        }
        i = i + 1;
    }
    None
}

/// Two texts put together.
pub fn concat2(a: &str, b: &str) -> (r: String)
    ensures
        r@ == a@ + b@,
{
    let mut r: String = a.to_owned();
    r.append(b);
    r
}

/// Three texts put together.
pub fn concat3(a: &str, b: &str, c: &str) -> (r: String)
    ensures
        r@ == a@ + b@ + c@,
{
    let mut r: String = a.to_owned();
    r.append(b);
    r.append(c);
    r
}

/// Four texts put together.
pub fn concat4(a: &str, b: &str, c: &str, d: &str) -> (r: String)
    ensures
        r@ == a@ + b@ + c@ + d@,
{
    let mut r: String = a.to_owned();
    r.append(b);
    r.append(c);
    r.append(d);
    r
}

/// The parts, one after the other, with `sep` between each two neighbours.
pub fn join_strings(parts: &Vec<String>, sep: &str) -> (r: String)
    ensures
        r@ == join(views(parts@), sep@),
{
    let mut r: String = String::new();
    let mut i: usize = 0;
    while i < parts.len()
        invariant
            i <= parts@.len(),
            r@ == join(views(parts@.take(i as int)), sep@),
        decreases parts.len() - i,
    {
        if i > 0 {
            r.append(sep);
        }
        r.append(parts[i].as_str());
        proof {
            let longer = views(parts@.take(i + 1));
            assert(longer.drop_last() =~= views(parts@.take(i as int)));
            assert(longer.last() == parts@[i as int]@);
            if i == 0 {
                assert(r@ =~= longer[0]);
            }
        }
        i = i + 1;
    }
    assert(parts@.take(i as int) =~= parts@);
    r
}

/// The decimal digits of a number.
pub fn unsigned_text(n: u64) -> (r: String)
    ensures
        r@ == digits(n as nat),
    decreases n,
{
    let mut r: String = if n < 10 {
        String::new()
    } else {
        unsigned_text(n / 10)
    };
    let d: u8 = (n % 10) as u8;
    r.push((48 + d) as char);
    assert(r@ =~= digits(n as nat));
    r
}

/// An integer in decimal.
pub fn signed_text(n: i64) -> (r: String)
    ensures
        r@ == decimal(n as int),
{
    if n < 0 {
        let mut r: String = String::new();
        r.push('-');
        let magnitude: u64 = (-(n as i128)) as u64;
        let rest: String = unsigned_text(magnitude);
        r.append(rest.as_str());
        assert(r@ =~= decimal(n as int));
        r
    } else {
        unsigned_text(n as u64)
    }
}

/// A name is found exactly if it stands among the names, and then at the first place where it does.
pub proof fn law_first_is_found(names: Seq<Seq<char>>, name: Seq<char>)
    requires
        names.len() <= usize::MAX,
    ensures
        match find(names, name) {
            Some(i) => {
                &&& i < names.len()
                &&& names[i as int] == name
                &&& forall|k: int| 0 <= k < i ==> #[trigger] names[k] != name
            },
            None => forall|k: int| 0 <= k < names.len() ==> #[trigger] names[k] != name,
        },
{
    lemma_find_from(names, name, 0);
}

proof fn lemma_find_from(names: Seq<Seq<char>>, name: Seq<char>, from: int)
    requires
        names.len() <= usize::MAX,
        0 <= from <= names.len(),
    ensures
        match find_from(names, name, from) {
            Some(i) => {
                &&& from <= i < names.len()
                &&& names[i as int] == name
                &&& forall|k: int| from <= k < i ==> #[trigger] names[k] != name
            },
            None => forall|k: int| from <= k < names.len() ==> #[trigger] names[k] != name,
        },
    decreases names.len() - from,
{
    if from < names.len() && names[from] != name {
        lemma_find_from(names, name, from + 1);
    }
}

/// A text ends in a suffix exactly if it is some text with the suffix behind it.
pub proof fn law_suffix_stands_behind(s: Seq<char>, suffix: Seq<char>)
    ensures
        has_suffix(s, suffix) <==> exists|front: Seq<char>| s == #[trigger] (front + suffix),
{
    if has_suffix(s, suffix) {
        let front = s.take(s.len() - suffix.len());
        assert(s =~= front + suffix);
    }
    if exists|front: Seq<char>| s == #[trigger] (front + suffix) {
        let front = choose|front: Seq<char>| s == #[trigger] (front + suffix);
        assert(s.skip(s.len() - suffix.len()) =~= suffix);
    }
}

/// The character classes of the lexer among the ASCII characters, by their code points: the letters
/// and the underscore begin an identifier, the digits may follow, and the space and the five
/// controls from tab on are white space.
pub proof fn law_ascii_classes(c: char)
    requires
        (c as u32) < 128,
    ensures
        is_ident_start(c) <==> 65 <= c as u32 <= 90 || 97 <= c as u32 <= 122 || c as u32 == 95,
        is_ident_char(c) <==> is_ident_start(c) || 48 <= c as u32 <= 57,
        is_digit(c) <==> 48 <= c as u32 <= 57,
        is_space(c) <==> c as u32 == 32 || 9 <= c as u32 <= 13,
{
}

/// Beyond ASCII there are no digits, and what begins an identifier may also go on with one.
pub proof fn law_classes_beyond_ascii(c: char)
    requires
        (c as u32) >= 128,
    ensures
        !is_digit(c),
        is_ident_start(c) <==> unicode_alphabetic(c),
        is_space(c) <==> unicode_white_space(c),
        is_ident_start(c) ==> is_ident_char(c),
        unicode_alphanumeric(c) ==> is_ident_char(c),
        is_ident_char(c) ==> unicode_alphanumeric(c) || unicode_alphabetic(c),
{
}

/// Two rows of parts joined: the parts of the first, the separator, the parts of the second. One
/// part alone is the part, and no parts are nothing.
pub proof fn law_joined_rows(a: Seq<Seq<char>>, b: Seq<Seq<char>>, part: Seq<char>, sep: Seq<char>)
    ensures
        join(Seq::empty(), sep) == Seq::<char>::empty(),
        join(seq![part], sep) == part,
        a.len() > 0 && b.len() > 0 ==> join(a + b, sep) == join(a, sep) + sep + join(b, sep),
    decreases b.len(),
{
    if a.len() > 0 && b.len() > 0 {
        let all = a + b;
        assert(all.drop_last() =~= a + b.drop_last());
        if b.len() == 1 {
            assert(all.drop_last() =~= a);
        } else {
            law_joined_rows(a, b.drop_last(), part, sep);
            assert(join(a, sep) + sep + join(b.drop_last(), sep) + sep + b.last() =~= join(a, sep)
                + sep + (join(b.drop_last(), sep) + sep + b.last()));
        }
    }
}

/// A zero in front of a row of digits changes nothing about its number.
pub proof fn law_leading_zeros(s: Seq<char>)
    ensures
        decimal_value(seq!['0'] + s) == decimal_value(s),
    decreases s.len(),
{
    let longer = seq!['0'] + s;
    if s.len() == 0 {
        assert(longer.drop_last() =~= Seq::empty());
        assert(decimal_value(longer.drop_last()) == 0);
    } else {
        law_leading_zeros(s.drop_last());
        assert(longer.drop_last() =~= seq!['0'] + s.drop_last());
    }
}

/// A negative integer in decimal is the positive one with a minus sign in front of it.
pub proof fn law_minus_sign(n: int)
    requires
        n > 0,
    ensures
        decimal(-n) == seq!['-'] + decimal(n),
        decimal_value(decimal(n)) == n,
{
    law_decimal_value_of_digits(n as nat);
}

/// Whether a text stands in a message.
pub open spec fn holds_text(message: Seq<char>, text: Seq<char>) -> bool {
    exists|before: Seq<char>, after: Seq<char>| message == #[trigger] (before + text + after)
}

/// Whether two texts are the same but for the one place where each holds its own part.
pub open spec fn differ_in(
    a: Seq<char>,
    part_a: Seq<char>,
    b: Seq<char>,
    part_b: Seq<char>,
) -> bool {
    exists|before: Seq<char>, after: Seq<char>| {
        &&& a == #[trigger] (before + part_a + after)
        &&& b == #[trigger] (before + part_b + after)
    }
}

/// A text stands at the end of another one.
pub proof fn lemma_holds_at_end(before: Seq<char>, text: Seq<char>)
    ensures
        holds_text(before + text, text),
{
    assert(before + text =~= before + text + Seq::empty());
}

/// What stands in a part of a text stands in the text.
pub proof fn lemma_holds_through(whole: Seq<char>, part: Seq<char>, text: Seq<char>)
    requires
        holds_text(whole, part),
        holds_text(part, text),
    ensures
        holds_text(whole, text),
{
    let (a, b) = choose|a: Seq<char>, b: Seq<char>| whole == #[trigger] (a + part + b);
    let (c, d) = choose|c: Seq<char>, d: Seq<char>| part == #[trigger] (c + text + d);
    assert(whole =~= (a + c) + text + (d + b));
}

/// Each of a row of parts stands in what they are joined to.
pub proof fn law_joined_parts_are_held(parts: Seq<Seq<char>>, sep: Seq<char>, k: int)
    requires
        0 <= k < parts.len(),
    ensures
        holds_text(join(parts, sep), parts[k]),
    decreases parts.len(),
{
    if parts.len() == 1 {
        lemma_holds_at_end(Seq::empty(), parts[0]);
        assert(Seq::empty() + parts[0] =~= parts[0]);
    } else if k == parts.len() - 1 {
        lemma_holds_at_end(join(parts.drop_last(), sep) + sep, parts[k]);
    } else {
        let fewer = parts.drop_last();
        law_joined_parts_are_held(fewer, sep, k);
        assert(fewer[k] == parts[k]);
        let front = join(fewer, sep);
        assert(join(parts, sep) =~= Seq::empty() + front + (sep + parts.last()));
        lemma_holds_through(join(parts, sep), front, parts[k]);
    }
}

/// Two numbers in decimal with other characters behind them are the same texts only if they are the
/// same numbers.
pub proof fn law_numbers_in_texts(a: nat, x: Seq<char>, b: nat, y: Seq<char>)
    requires
        digits(a) + x == digits(b) + y,
        x.len() > 0 && !is_digit(x[0]),
        y.len() > 0 && !is_digit(y[0]),
    ensures
        a == b,
        x == y,
{
    law_decimal_value_of_digits(a);
    law_decimal_value_of_digits(b);
    let s = digits(a) + x;
    let m = digits(a).len() as int;
    let n = digits(b).len() as int;
    assert(s[m] == x[0]);
    assert(s[n] == (digits(b) + y)[n]);
    assert(s[n] == y[0]);
    if m < n {
        assert(s[m] == digits(b)[m]);
    }
    if n < m {
        assert(s[n] == digits(a)[n]);
    }
    assert(digits(a) =~= s.take(m));
    assert(digits(b) =~= (digits(b) + y).take(n));
    assert(x =~= s.skip(m));
    assert(y =~= (digits(b) + y).skip(n));
}

} // verus!
