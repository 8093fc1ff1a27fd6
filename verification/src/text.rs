//! Text: numbers in decimal, and the few operations of the standard library that the rest of the
//! crate relies on.

use vstd::prelude::*;
use vstd::string::*;
use vstd::utf8::{decode_utf8, valid_utf8};

verus! {

/// The decimal digit of a number below ten.
pub open spec fn digit(d: nat) -> char {
    seq!['0', '1', '2', '3', '4', '5', '6', '7', '8', '9'][d as int]
}

/// A number in decimal, without leading zeros.
pub open spec fn decimal(n: nat) -> Seq<char>
    decreases n,
{
    if n < 10 {
        seq![digit(n)]
    } else {
        decimal(n / 10).push(digit(n % 10))
    }
}

fn digit_text(d: usize) -> (r: &'static str)
    requires
        d < 10,
    ensures
        r@ == seq![digit(d as nat)],
{
    proof {
        reveal_strlit("0");
        reveal_strlit("1");
        reveal_strlit("2");
        reveal_strlit("3");
        reveal_strlit("4");
        reveal_strlit("5");
        reveal_strlit("6");
        reveal_strlit("7");
        reveal_strlit("8");
        reveal_strlit("9");
    }
    let r = if d == 0 {
        "0"
    } else if d == 1 {
        "1"
    } else if d == 2 {
        "2"
    } else if d == 3 {
        "3"
    } else if d == 4 {
        "4"
    } else if d == 5 {
        "5"
    } else if d == 6 {
        "6"
    } else if d == 7 {
        "7"
    } else if d == 8 {
        "8"
    } else {
        "9"
    };
    assert(r@ =~= seq![digit(d as nat)]);
    r
}

/// A number in decimal.
pub fn decimal_text(n: usize) -> (r: String)
    ensures
        r@ == decimal(n as nat),
    decreases n,
{
    if n < 10 {
        digit_text(n).to_owned()
    } else {
        let mut r = decimal_text(n / 10);
        let ghost head = r@;
        r.append(digit_text(n % 10));
        assert(r@ =~= head.push(digit((n % 10) as nat)));
        r
    }
}

/// A text holds exactly the given characters.
pub fn text_is(text: &String, expected: &str) -> (r: bool)
    ensures
        r == (text@ == expected@),
{
    *text == expected.to_owned()
}

/// What is said of a path at which something failed.
pub open spec fn failure_at(what: Seq<char>, path: Seq<char>, error: Seq<char>) -> Seq<char> {
    what + path + ": "@ + error
}

/// What is said of a path at which something failed.
pub fn failure_text_at(what: &str, path: &str, error: &str) -> (r: String)
    ensures
        r@ == failure_at(what@, path@, error@),
{
    let mut r = what.to_owned();
    r.append(path);
    r.append(": ");
    r.append(error);
    r
}

/// A text behind another.
pub fn two_texts(first: &str, second: &str) -> (r: String)
    ensures
        r@ == first@ + second@,
{
    let mut r = first.to_owned();
    r.append(second);
    r
}

/// The characters of a text.
pub fn chars_of(text: &str) -> (r: Vec<char>)
    ensures
        r@ == text@,
{
    let mut out: Vec<char> = Vec::new();
    for c in it: text.chars()
        invariant
            it.seq() == text@,
            out@ == text@.take(it.index()),
    {
        out.push(c);
        assert(out@ =~= text@.take(it.index() + 1));
    }
    assert(out@ =~= text@);
    out
}

/// The name of what `str::to_lowercase` makes of a text: its characters in Unicode lower case.
pub uninterp spec fn lowercase(text: Seq<char>) -> Seq<char>;

/// `str::to_lowercase` of the standard library. The result depends on the text alone; which
/// character becomes which is Unicode's table, and is left to the name.
pub assume_specification[ str::to_lowercase ](s: &str) -> (r: String)
    ensures
        r@ == lowercase(s@),
;

/// The character has the Unicode property `White_Space`.
pub open spec fn is_whitespace(c: char) -> bool {
    let code = c as u32;
    ||| 0x9 <= code <= 0xd
    ||| code == 0x20
    ||| code == 0x85
    ||| code == 0xa0
    ||| code == 0x1680
    ||| 0x2000 <= code <= 0x200a
    ||| 0x2028 <= code <= 0x2029
    ||| code == 0x202f
    ||| code == 0x205f
    ||| code == 0x3000
}

/// The character is white space.
pub fn whitespace(c: char) -> (r: bool)
    ensures
        r == is_whitespace(c),
{
    let code = c as u32;
    (0x9 <= code && code <= 0xd) || code == 0x20 || code == 0x85 || code == 0xa0 || code == 0x1680 || (
    0x2000 <= code && code <= 0x200a) || code == 0x2028 || code == 0x2029 || code == 0x202f || code
        == 0x205f || code == 0x3000
}

/// `inner` is `text` without the white space at its ends: the part from position `i` up to
/// position `j`, with nothing but white space outside it and none at its own ends.
pub open spec fn trims_at(text: Seq<char>, inner: Seq<char>, i: int, j: int) -> bool {
    &&& 0 <= i <= j <= text.len()
    &&& inner == text.subrange(i, j)
    &&& forall|k: int| 0 <= k < i ==> is_whitespace(#[trigger] text[k])
    &&& forall|k: int| j <= k < text.len() ==> is_whitespace(#[trigger] text[k])
    &&& inner.len() > 0 ==> !is_whitespace(inner[0]) && !is_whitespace(inner.last())
}

/// `inner` is `text` without the white space at its ends.
pub open spec fn trims_to(text: Seq<char>, inner: Seq<char>) -> bool {
    exists|i: int, j: int| trims_at(text, inner, i, j)
}

/// A text has one trimmed form.
pub proof fn trim_unique(text: Seq<char>, a: Seq<char>, b: Seq<char>)
    requires
        trims_to(text, a),
        trims_to(text, b),
    ensures
        a == b,
{
    let (i, j) = choose|i: int, j: int| trims_at(text, a, i, j);
    let (m, n) = choose|m: int, n: int| trims_at(text, b, m, n);
    if i < j {
        assert(!is_whitespace(text[i]) && !is_whitespace(text[j - 1])) by {
            assert(a[0] == text[i] && a.last() == text[j - 1]);
        }
    }
    if m < n {
        assert(!is_whitespace(text[m]) && !is_whitespace(text[n - 1])) by {
            assert(b[0] == text[m] && b.last() == text[n - 1]);
        }
    }
    assert(a =~= b);
}

/// The text without the white space at its ends.
pub open spec fn trimmed(text: Seq<char>) -> Seq<char> {
    choose|inner: Seq<char>| trims_to(text, inner)
}

/// A text without the white space at its ends.
pub fn trim_text(text: &String) -> (r: String)
    ensures
        r@ == trimmed(text@),
        trims_to(text@, r@),
{
    let chars = chars_of(text.as_str());
    let mut i: usize = 0;
    while i < chars.len() && whitespace(chars[i])
        invariant
            i <= chars.len(),
            chars@ == text@,
            forall|k: int| 0 <= k < i ==> is_whitespace(#[trigger] text@[k]),
        decreases chars.len() - i,
    {
        i = i + 1;
    }
    let mut j: usize = chars.len();
    while i < j && whitespace(chars[j - 1])
        invariant
            i <= j <= chars.len(),
            chars@ == text@,
            i < chars.len() ==> !is_whitespace(text@[i as int]),
            forall|k: int| j <= k < text@.len() ==> is_whitespace(#[trigger] text@[k]),
        decreases j,
    {
        j = j - 1;
    }
    let r = text.as_str().substring_char(i, j).to_owned();
    proof {
        assert(trims_at(text@, r@, i as int, j as int));
        assert(trims_to(text@, r@));
        trim_unique(text@, r@, trimmed(text@));
    }
    r
}

/// The error of `String::from_utf8`. Nothing of it is read.
#[verifier::external_type_specification]
#[verifier::external_body]
pub struct ExFromUtf8Error(std::string::FromUtf8Error);

/// `String::from_utf8` of the standard library: the text that the bytes encode, where they are
/// valid UTF-8, and an error where they are not.
pub assume_specification[ String::from_utf8 ](vec: Vec<u8>) -> (r: Result<
    String,
    std::string::FromUtf8Error,
>)
    ensures
        r is Ok <==> valid_utf8(vec@),
        r matches Ok(s) ==> s@ == decode_utf8(vec@),
;

/// The name of what `String::from_utf8_lossy` makes of bytes.
pub uninterp spec fn lossy(bytes: Seq<u8>) -> Seq<char>;

/// `String::from_utf8_lossy` of the standard library. On valid UTF-8 the result is the text that
/// the bytes encode; elsewhere replacement characters stand in it, and it is left to the name.
#[verifier::external_body]
pub(crate) fn lossy_text(bytes: &Vec<u8>) -> (r: String)
    ensures
        r@ == lossy(bytes@),
        valid_utf8(bytes@) ==> r@ == decode_utf8(bytes@),
{
    String::from_utf8_lossy(bytes).into_owned()
}

} // verus!
