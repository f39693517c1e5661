//! Text as sequences of characters: classes of characters, letter case, and the way from a text to
//! its characters and back.
//!
//! The other modules state what they do to texts over the views of these texts, `Seq<char>`.
use vstd::prelude::*;

verus! {

// ---------------------------------------------------------------------------
// Character classes
// ---------------------------------------------------------------------------

/// The code points that have the Unicode `White_Space` property.
pub open spec fn white_space(c: char) -> bool {
    let u = c as int;
    ||| 0x09 <= u <= 0x0D
    ||| u == 0x20
    ||| u == 0x85
    ||| u == 0xA0
    ||| u == 0x1680
    ||| 0x2000 <= u <= 0x200A
    ||| u == 0x2028
    ||| u == 0x2029
    ||| u == 0x202F
    ||| u == 0x205F
    ||| u == 0x3000
}

/// `0` to `9`.
pub open spec fn ascii_digit(c: char) -> bool {
    '0' <= c <= '9'
}

/// The ASCII letters and digits.
pub open spec fn ascii_alphanumeric(c: char) -> bool {
    ||| ascii_digit(c)
    ||| 'A' <= c <= 'Z'
    ||| 'a' <= c <= 'z'
}

/// `A` to `Z`.
pub open spec fn ascii_capital(c: char) -> bool {
    'A' <= c <= 'Z'
}

/// The character with an ASCII capital made small.
pub open spec fn ascii_small(c: char) -> char {
    if 'A' <= c <= 'Z' {
        (c as int + 32) as char
    } else {
        c
    }
}

/// The character with a small ASCII letter made a capital.
pub open spec fn ascii_large(c: char) -> char {
    if 'a' <= c <= 'z' {
        (c as int - 32) as char
    } else {
        c
    }
}

/// The first 128 characters.
pub open spec fn is_ascii(c: char) -> bool {
    (c as int) < 0x80
}

/// All characters are ASCII.
pub open spec fn all_ascii(s: Seq<char>) -> bool {
    forall|i: int| 0 <= i < s.len() ==> is_ascii(#[trigger] s[i])
}

/// What `char::is_alphanumeric` answers beyond ASCII.
pub uninterp spec fn unicode_alphanumeric(c: char) -> bool;

/// What `char::is_uppercase` answers beyond ASCII.
pub uninterp spec fn unicode_upper_case(c: char) -> bool;

/// What `str::to_lowercase` gives for a text that is not all ASCII.
pub uninterp spec fn unicode_lowercase(s: Seq<char>) -> Seq<char>;

/// The characters that `char::to_uppercase` yields beyond ASCII.
pub uninterp spec fn unicode_uppercase(c: char) -> Seq<char>;

/// The character is a letter or a digit in some script.
pub open spec fn alphanumeric(c: char) -> bool {
    if is_ascii(c) {
        ascii_alphanumeric(c)
    } else {
        unicode_alphanumeric(c)
    }
}

/// The character is a capital in some script.
pub open spec fn upper_case(c: char) -> bool {
    if is_ascii(c) {
        ascii_capital(c)
    } else {
        unicode_upper_case(c)
    }
}

/// The text in small letters.
pub open spec fn lowercase(s: Seq<char>) -> Seq<char> {
    if all_ascii(s) {
        s.map_values(|c: char| ascii_small(c))
    } else {
        unicode_lowercase(s)
    }
}

/// The character as a capital; some need several characters.
pub open spec fn uppercase_of(c: char) -> Seq<char> {
    if is_ascii(c) {
        seq![ascii_large(c)]
    } else {
        unicode_uppercase(c)
    }
}

/// `char::is_whitespace`: true exactly for the characters with the `White_Space` property.
pub assume_specification[ char::is_whitespace ](c: char) -> (r: bool)
    ensures
        r == white_space(c),
;

/// `char::is_alphanumeric`: the character is alphabetic or numeric in Unicode, which of ASCII are
/// the letters and digits; beyond ASCII its answer is named `unicode_alphanumeric`.
pub assume_specification[ char::is_alphanumeric ](c: char) -> (r: bool)
    ensures
        r == (if is_ascii(c) {
            ascii_alphanumeric(c)
        } else {
            unicode_alphanumeric(c)
        }),
;

/// `char::is_uppercase`: the character has the Unicode `Uppercase` property, which of ASCII are `A`
/// to `Z`; beyond ASCII its answer is named `unicode_upper_case`.
pub assume_specification[ char::is_uppercase ](c: char) -> (r: bool)
    ensures
        r == (if is_ascii(c) {
            ascii_capital(c)
        } else {
            unicode_upper_case(c)
        }),
;

/// `str::to_lowercase`: of a text that is all ASCII the capitals are made small; of any other text
/// the result is named `unicode_lowercase`.
pub assume_specification[ str::to_lowercase ](s: &str) -> (r: String)
    ensures
        r@ == (if all_ascii(s@) {
            s@.map_values(|c: char| ascii_small(c))
        } else {
            unicode_lowercase(s@)
        }),
;

/// `String::push`: appends one character.
pub assume_specification[ String::push ](s: &mut String, c: char)
    ensures
        final(s)@ == old(s)@.push(c),
;

/// `char::to_uppercase`, its characters collected into a text: of ASCII a small letter gives its
/// capital and any other character itself; beyond ASCII the result is named `unicode_uppercase`.
#[verifier::external_body]
pub(crate) fn uppercase_text(c: char) -> (r: String)
    ensures
        r@ == (if is_ascii(c) {
            seq![ascii_large(c)]
        } else {
            unicode_uppercase(c)
        }),
{
    format!("{}", c.to_uppercase())
}

// ---------------------------------------------------------------------------
// From text to characters and back
// ---------------------------------------------------------------------------

/// The characters of each text of a list.
pub open spec fn texts(v: Seq<String>) -> Seq<Seq<char>> {
    v.map_values(|s: String| s@)
}

pub proof fn lemma_texts_push(v: Seq<String>, s: String)
    ensures
        texts(v.push(s)) == texts(v).push(s@),
{
    assert(texts(v.push(s)) =~= texts(v).push(s@));
}

/// The characters of a text.
pub fn chars_of(s: &str) -> (v: Vec<char>)
    ensures
        v@ == s@,
{
    let mut v: Vec<char> = Vec::new();
    for c in it: s.chars()
        invariant
            it.seq() == s@,
            v@ == s@.take(it.index()),
    {
        v.push(c);
        assert(v@ =~= s@.take(it.index() + 1));
    }
    assert(s@.take(s@.len() as int) =~= s@);
    v
}

/// The text of the characters from position `from` up to, but not including, `to`.
pub fn text_between(v: &Vec<char>, from: usize, to: usize) -> (s: String)
    requires
        from <= to <= v@.len(),
    ensures
        s@ == v@.subrange(from as int, to as int),
{
    let mut s = String::new();
    let mut i: usize = from;
    assert(s@ =~= v@.subrange(from as int, from as int));
    while i < to
        invariant
            from <= i <= to <= v@.len(),
            s@ == v@.subrange(from as int, i as int),
        decreases to - i,
    {
        s.push(v[i]);
        assert(s@ =~= v@.subrange(from as int, i + 1));
        i += 1;
    }
    s
}

/// The text made of these characters.
pub fn text_of(v: &Vec<char>) -> (s: String)
    ensures
        s@ == v@,
{
    let s = text_between(v, 0, v.len());
    assert(v@.subrange(0, v@.len() as int) =~= v@);
    s
}

/// Whether two texts have the same characters.
pub fn same_text(a: &str, b: &str) -> (r: bool)
    ensures
        r == (a@ == b@),
{
    let x = chars_of(a);
    let y = chars_of(b);
    if x.len() != y.len() {
        return false;
    }
    let mut i: usize = 0;
    while i < x.len()
        invariant
            i <= x@.len(),
            x@.len() == y@.len(),
            x@ == a@,
            y@ == b@,
            forall|k: int| 0 <= k < i ==> x@[k] == y@[k],
        decreases x@.len() - i,
    {
        if x[i] != y[i] {
            return false;
        }
        i += 1;
    }
    assert(x@ =~= y@);
    true
}

/// A text that may be absent.
pub open spec fn text_view(s: Option<String>) -> Option<Seq<char>> {
    match s {
        Some(t) => Some(t@),
        None => None,
    }
}

/// A slice of text that may be absent.
pub open spec fn str_view(s: Option<&str>) -> Option<Seq<char>> {
    match s {
        Some(t) => Some(t@),
        None => None,
    }
}

} // verus!
