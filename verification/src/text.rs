//! Building and taking apart text.

use crate::order::{key_less, key_less_headed};
use vstd::prelude::*;

verus! {

/// `String::push` puts one character at the end.
pub assume_specification[ String::push ](s: &mut String, c: char)
    ensures
        final(s)@ == old(s)@.push(c),
;

/// The characters with Unicode's `White_Space` property.
pub open spec fn white_space(c: char) -> bool {
    let n = c as int;
    ||| 0x9 <= n <= 0xD
    ||| n == 0x20
    ||| n == 0x85
    ||| n == 0xA0
    ||| n == 0x1680
    ||| 0x2000 <= n <= 0x200A
    ||| 0x2028 <= n <= 0x2029
    ||| n == 0x202F
    ||| n == 0x205F
    ||| n == 0x3000
}

/// `char::is_whitespace` answers whether the character has Unicode's `White_Space`
/// property.
pub assume_specification[ char::is_whitespace ](c: char) -> (b: bool)
    ensures
        b == white_space(c),
;

/// All characters of the text are ASCII.
pub open spec fn all_ascii(text: Seq<char>) -> bool {
    forall|i: int| 0 <= i < text.len() ==> (#[trigger] text[i] as int) < 0x80
}

/// The lower-case letter of an upper-case ASCII letter; any other character itself.
pub open spec fn ascii_lower(c: char) -> char {
    if 'A' <= c <= 'Z' {
        (c as int + 32) as char
    } else {
        c
    }
}

/// The upper-case letter of a lower-case ASCII letter; any other character itself.
pub open spec fn ascii_upper(c: char) -> char {
    if 'a' <= c <= 'z' {
        (c as int - 32) as char
    } else {
        c
    }
}

/// What `str::to_lowercase` makes of a text that is not all ASCII: Unicode's
/// lower-case mapping.
pub uninterp spec fn unicode_lower(text: Seq<char>) -> Seq<char>;

/// The text in lower case.
pub open spec fn lower_case(text: Seq<char>) -> Seq<char> {
    if all_ascii(text) {
        text.map_values(|c: char| ascii_lower(c))
    } else {
        unicode_lower(text)
    }
}

/// `str::to_lowercase` depends on the text alone. Of an ASCII text it maps the letters
/// one by one; what it makes of another text is left to the named result.
pub assume_specification[ str::to_lowercase ](s: &str) -> (r: String)
    ensures
        all_ascii(s@) ==> r@ == s@.map_values(|c: char| ascii_lower(c)),
        !all_ascii(s@) ==> r@ == unicode_lower(s@),
;

/// What `str::to_uppercase` makes of a text that is not all ASCII: Unicode's
/// upper-case mapping.
pub uninterp spec fn unicode_upper(text: Seq<char>) -> Seq<char>;

/// The text in upper case.
pub open spec fn upper_case(text: Seq<char>) -> Seq<char> {
    if all_ascii(text) {
        text.map_values(|c: char| ascii_upper(c))
    } else {
        unicode_upper(text)
    }
}

/// `str::to_uppercase` depends on the text alone. Of an ASCII text it maps the letters
/// one by one; what it makes of another text is left to the named result.
pub assume_specification[ str::to_uppercase ](s: &str) -> (r: String)
    ensures
        all_ascii(s@) ==> r@ == s@.map_values(|c: char| ascii_upper(c)),
        !all_ascii(s@) ==> r@ == unicode_upper(s@),
;

/// What `String::from_utf8_lossy` makes of bytes that are not UTF-8.
pub uninterp spec fn lossy(bytes: Seq<u8>) -> Seq<char>;

/// The text by which bytes are displayed: what they encode, where they are UTF-8.
pub open spec fn displayed(bytes: Seq<u8>) -> Seq<char> {
    if vstd::utf8::valid_utf8(bytes) {
        vstd::utf8::decode_utf8(bytes)
    } else {
        lossy(bytes)
    }
}

/// `String::from_utf8_lossy`: text for display. Bytes that are UTF-8 already
/// are only decoded; how other bytes are replaced is left to the named result.
#[verifier::external_body]
pub(crate) fn lossy_text(bytes: &[u8]) -> (r: String)
    ensures
        vstd::utf8::valid_utf8(bytes@) ==> r@ == vstd::utf8::decode_utf8(bytes@),
        !vstd::utf8::valid_utf8(bytes@) ==> r@ == lossy(bytes@),
{
    String::from_utf8_lossy(bytes).into_owned()
}

/// `std::str::from_utf8`: the text that the bytes encode, if they are UTF-8.
#[verifier::external_body]
pub(crate) fn utf8_text(bytes: &[u8]) -> (r: Option<String>)
    ensures
        r is Some <==> vstd::utf8::valid_utf8(bytes@),
        r is Some ==> r->0@ == vstd::utf8::decode_utf8(bytes@),
{
    match std::str::from_utf8(bytes) {
        Ok(s) => Some(String::from(s)),
        Err(_) => None,
    }
}

/// The character for one decimal digit.
pub open spec fn digit(d: int) -> char {
    (48 + d) as char
}

/// A number in decimal, without leading zeros.
pub open spec fn decimal(n: nat) -> Seq<char>
    decreases n,
{
    if n < 10 {
        seq![digit(n as int)]
    } else {
        decimal(n / 10).push(digit((n % 10) as int))
    }
}

/// `n` times the same character.
pub open spec fn run_of(c: char, n: int) -> Seq<char> {
    Seq::new(
        if n > 0 {
            n as nat
        } else {
            0
        },
        |i: int| c,
    )
}

/// `text` filled up on the left to `width` characters.
pub open spec fn padded_left(text: Seq<char>, width: int, fill: char) -> Seq<char> {
    run_of(fill, width - text.len()) + text
}

/// `text` filled up on the right to `width` characters.
pub open spec fn padded_right(text: Seq<char>, width: int, fill: char) -> Seq<char> {
    text + run_of(fill, width - text.len())
}

/// The character for one hexadecimal digit.
pub open spec fn hex_digit(d: int) -> char {
    if d < 10 {
        (48 + d) as char
    } else {
        (87 + d) as char
    }
}

/// Two hexadecimal digits for each byte.
pub open spec fn hex(bytes: Seq<u8>) -> Seq<char> {
    Seq::new(
        2 * bytes.len(),
        |i: int|
            if i % 2 == 0 {
                hex_digit(bytes[i / 2] as int / 16)
            } else {
                hex_digit(bytes[i / 2] as int % 16)
            },
    )
}

/// The text without white space at either end.
#[verifier::opaque]
pub open spec fn trimmed(text: Seq<char>) -> Seq<char>
    decreases text.len(),
{
    if text.len() == 0 {
        text
    } else if white_space(text[0]) {
        trimmed(text.drop_first())
    } else if white_space(text.last()) {
        trimmed(text.drop_last())
    } else {
        text
    }
}

/// The text without any number of `c` at its start.
pub open spec fn without_leading(text: Seq<char>, c: char) -> Seq<char>
    decreases text.len(),
{
    if text.len() > 0 && text[0] == c {
        without_leading(text.drop_first(), c)
    } else {
        text
    }
}

/// The texts of a list.
pub open spec fn texts(list: Seq<String>) -> Seq<Seq<char>> {
    list.map_values(|s: String| s@)
}

/// The text that may be there.
pub open spec fn text_in(text: Option<String>) -> Option<Seq<char>> {
    match text {
        Some(s) => Some(s@),
        None => None,
    }
}

/// The sort key of a text: its code points, each above the zero that ends it.
pub open spec fn text_key(text: Seq<char>) -> Seq<u64> {
    Seq::new(text.len(), |i: int| (text[i] as u32 + 1) as u64).push(0)
}

/// A text of its own with these characters.
pub fn text_from(s: &str) -> (r: String)
    ensures
        r@ == s@,
{
    s.to_owned()
}

/// The characters of a text.
pub fn chars_of(s: &str) -> (out: Vec<char>)
    ensures
        out@ == s@,
{
    let mut out: Vec<char> = Vec::new();
    for c in it: s.chars()
        invariant
            out@.len() == it.index(),
            it.seq() == s@,
            forall|j: int| 0 <= j < out@.len() ==> out@[j] == s@[j],
    {
        out.push(c);
    }
    out
}

/// The characters `from..to` as text.
pub fn text_of(chars: &Vec<char>, from: usize, to: usize) -> (r: String)
    requires
        from <= to <= chars@.len(),
    ensures
        r@ == chars@.subrange(from as int, to as int),
{
    let mut r = String::new();
    let mut i: usize = from;
    while i < to
        invariant
            from <= i <= to <= chars@.len(),
            r@ == chars@.subrange(from as int, i as int),
        decreases to - i,
    {
        r.push(chars[i]);
        i += 1;
    }
    r
}

fn digit_char(d: u8) -> (c: char)
    requires
        d < 10,
    ensures
        c == digit(d as int),
{
    (48 + d) as char
}

/// The number in decimal.
pub fn decimal_text(n: u64) -> (r: String)
    ensures
        r@ == decimal(n as nat),
    decreases n,
{
    let mut r = if n < 10 {
        String::new()
    } else {
        decimal_text(n / 10)
    };
    r.push(digit_char((n % 10) as u8));
    assert(r@ == decimal(n as nat));
    r
}

/// The decimal number of an index or a length.
pub fn decimal_of(n: usize) -> (r: String)
    ensures
        r@ == decimal(n as nat),
{
    decimal_text(n as u64)
}

/// `n` times the same character.
pub fn run_text(c: char, n: usize) -> (r: String)
    ensures
        r@ == run_of(c, n as int),
{
    let mut r = String::new();
    let mut i: usize = 0;
    while i < n
        invariant
            i <= n,
            r@ == run_of(c, i as int),
        decreases n - i,
    {
        r.push(c);
        i += 1;
    }
    r
}

/// How many characters a text has.
pub fn char_count(s: &str) -> (n: usize)
    ensures
        n == s@.len(),
{
    s.unicode_len()
}

/// `s` filled up on the left to `width` characters.
pub fn pad_left(s: &str, width: usize, fill: char) -> (r: String)
    ensures
        r@ == padded_left(s@, width as int, fill),
{
    let have: usize = char_count(s);
    let mut r = if have < width {
        run_text(fill, width - have)
    } else {
        String::new()
    };
    r.append(s);
    assert(r@ == padded_left(s@, width as int, fill));
    r
}

/// `s` filled up on the right to `width` characters.
pub fn pad_right(s: &str, width: usize, fill: char) -> (r: String)
    ensures
        r@ == padded_right(s@, width as int, fill),
{
    let have: usize = char_count(s);
    let mut r = text_from(s);
    if have < width {
        let tail = run_text(fill, width - have);
        r.append(tail.as_str());
    }
    assert(r@ == padded_right(s@, width as int, fill));
    r
}

fn hex_char(d: u8) -> (c: char)
    requires
        d < 16,
    ensures
        c == hex_digit(d as int),
{
    if d < 10 {
        (48 + d) as char
    } else {
        (87 + d) as char
    }
}

/// The first `count` bytes of a digest, two hexadecimal digits each.
pub fn hex_text(bytes: &[u8; 32], count: usize) -> (r: String)
    requires
        count <= 32,
    ensures
        r@ == hex(bytes@.take(count as int)),
{
    let mut r = String::new();
    let mut i: usize = 0;
    while i < count
        invariant
            i <= count <= 32,
            r@ == hex(bytes@.take(i as int)),
        decreases count - i,
    {
        let ghost before = r@;
        r.push(hex_char(bytes[i] / 16));
        r.push(hex_char(bytes[i] % 16));
        i += 1;
        assert(r@ =~= hex(bytes@.take(i as int)));
    }
    r
}

pub(crate) proof fn trimmed_step(text: Seq<char>)
    ensures
        text.len() == 0 ==> trimmed(text) == text,
        text.len() > 0 && white_space(text[0]) ==> trimmed(text) == trimmed(text.drop_first()),
        text.len() > 0 && !white_space(text[0]) && white_space(text.last()) ==> trimmed(text)
            == trimmed(text.drop_last()),
        text.len() > 0 && !white_space(text[0]) && !white_space(text.last()) ==> trimmed(text)
            == text,
{
    reveal_with_fuel(trimmed, 1);
}

/// The text without white space at either end.
pub fn trim(s: &str) -> (r: String)
    ensures
        r@ == trimmed(s@),
{
    let chars = chars_of(s);
    let mut from: usize = 0;
    let mut to: usize = chars.len();
    assert(chars@.subrange(0, to as int) =~= chars@);
    while from < to && chars[from].is_whitespace()
        invariant
            from <= to == chars@.len(),
            trimmed(chars@) == trimmed(chars@.subrange(from as int, to as int)),
        decreases to - from,
    {
        proof {
            trimmed_step(chars@.subrange(from as int, to as int));
            assert(chars@.subrange(from as int, to as int).drop_first() =~= chars@.subrange(
                from + 1,
                to as int,
            ));
        }
        from += 1;
    }
    while from < to && chars[to - 1].is_whitespace()
        invariant
            from <= to <= chars@.len(),
            from < to ==> !white_space(chars@[from as int]),
            trimmed(chars@) == trimmed(chars@.subrange(from as int, to as int)),
        decreases to - from,
    {
        proof {
            trimmed_step(chars@.subrange(from as int, to as int));
            assert(chars@.subrange(from as int, to as int).drop_last() =~= chars@.subrange(
                from as int,
                to - 1,
            ));
        }
        to -= 1;
    }
    proof {
        trimmed_step(chars@.subrange(from as int, to as int));
    }
    text_of(&chars, from, to)
}

/// The text without any number of `c` at its start.
pub fn trim_leading(s: &str, c: char) -> (r: String)
    ensures
        r@ == without_leading(s@, c),
{
    let chars = chars_of(s);
    let mut from: usize = 0;
    assert(chars@.subrange(0, chars@.len() as int) =~= chars@);
    while from < chars.len() && chars[from] == c
        invariant
            from <= chars@.len(),
            without_leading(chars@, c) == without_leading(
                chars@.subrange(from as int, chars@.len() as int),
                c,
            ),
        decreases chars@.len() - from,
    {
        assert(chars@.subrange(from as int, chars@.len() as int).drop_first() =~= chars@.subrange(
            from + 1,
            chars@.len() as int,
        ));
        from += 1;
    }
    text_of(&chars, from, chars.len())
}

/// Whether two texts have the same characters.
pub fn same_text(a: &String, b: &String) -> (same: bool)
    ensures
        same == (a@ == b@),
{
    *a == *b
}

/// Whether the list holds this text.
pub fn lists_text(list: &Vec<String>, text: &String) -> (found: bool)
    ensures
        found == texts(list@).contains(text@),
{
    let mut i: usize = 0;
    while i < list.len()
        invariant
            i <= list@.len(),
            forall|j: int| 0 <= j < i ==> #[trigger] list@[j]@ != text@,
        decreases list@.len() - i,
    {
        if same_text(&list[i], text) {
            assert(texts(list@)[i as int] == text@);
            return true;
        }
        i += 1;
    }
    false
}

/// A list with the same texts.
pub fn copied_texts(list: &Vec<String>) -> (out: Vec<String>)
    ensures
        texts(out@) == texts(list@),
{
    let mut out: Vec<String> = Vec::new();
    let mut i: usize = 0;
    while i < list.len()
        invariant
            i <= list@.len(),
            out@.len() == i,
            forall|j: int| 0 <= j < i ==> #[trigger] out@[j]@ == list@[j]@,
        decreases list@.len() - i,
    {
        out.push(text_from(list[i].as_str()));
        i += 1;
    }
    assert(texts(out@) =~= texts(list@));
    out
}

/// The sort key of a text.
pub fn text_sort_key(s: &str) -> (key: Vec<u64>)
    ensures
        key@ == text_key(s@),
{
    let chars = chars_of(s);
    let mut key: Vec<u64> = Vec::new();
    let mut i: usize = 0;
    while i < chars.len()
        invariant
            i <= chars@.len(),
            key@ == Seq::new(i as nat, |j: int| (chars@[j] as u32 + 1) as u64),
        decreases chars@.len() - i,
    {
        key.push(chars[i] as u32 as u64 + 1);
        i += 1;
        assert(key@ =~= Seq::new(i as nat, |j: int| (chars@[j] as u32 + 1) as u64));
    }
    key.push(0);
    key
}

/// Texts are ordered by their first different code point; what a text starts with
/// comes before it.
pub open spec fn text_before(a: Seq<char>, b: Seq<char>) -> bool {
    exists|i: int| differs_at(a, b, i)
}

/// `a` and `b` agree before position `i`, and `a` is the smaller one there.
pub open spec fn differs_at(a: Seq<char>, b: Seq<char>, i: int) -> bool {
    &&& 0 <= i <= a.len()
    &&& i < b.len()
    &&& forall|j: int| 0 <= j < i ==> #[trigger] a[j] == b[j]
    &&& i == a.len() || (a[i] as u32) < (b[i] as u32)
}

/// The number that stands for a character in a key.
pub open spec fn char_key(c: char) -> u64 {
    (c as u32 + 1) as u64
}

proof fn char_key_orders(c: char, d: char)
    ensures
        char_key(c) > 0,
        char_key(c) < char_key(d) <==> (c as u32) < (d as u32),
        char_key(c) == char_key(d) <==> c == d,
{
    vstd::utf8::char_is_scalar(c);
    vstd::utf8::char_is_scalar(d);
}

proof fn text_key_of_more(text: Seq<char>, x: Seq<u64>)
    requires
        text.len() > 0,
    ensures
        text == seq![text[0]] + text.drop_first(),
        text_key(text) + x == seq![char_key(text[0])] + (text_key(text.drop_first()) + x),
{
    assert(text =~= seq![text[0]] + text.drop_first());
    assert(text_key(text) + x =~= seq![char_key(text[0])] + (text_key(text.drop_first()) + x));
}

proof fn text_before_of_more(a: Seq<char>, b: Seq<char>)
    requires
        a.len() > 0,
        b.len() > 0,
    ensures
        text_before(a, b) <==> (a[0] as u32) < (b[0] as u32) || (a[0] == b[0] && text_before(
            a.drop_first(),
            b.drop_first(),
        )),
{
    let a2 = a.drop_first();
    let b2 = b.drop_first();
    char_key_orders(a[0], b[0]);
    if (a[0] as u32) < (b[0] as u32) {
        assert(differs_at(a, b, 0));
    }
    if a[0] == b[0] && text_before(a2, b2) {
        let i = choose|i: int| differs_at(a2, b2, i);
        assert forall|j: int| 0 <= j < i + 1 implies #[trigger] a[j] == b[j] by {
            if j > 0 {
                assert(a2[j - 1] == b2[j - 1]);
            }
        }
        assert(differs_at(a, b, i + 1));
    }
    if text_before(a, b) {
        let i = choose|i: int| differs_at(a, b, i);
        if i > 0 {
            assert(a[0] == b[0]);
            assert forall|j: int| 0 <= j < i - 1 implies #[trigger] a2[j] == b2[j] by {
                assert(a[j + 1] == b[j + 1]);
            }
            assert(differs_at(a2, b2, i - 1));
        }
    }
}

/// A key that starts with a text is ordered by the text; between equal texts the rest
/// decides.
pub proof fn text_key_decides(a: Seq<char>, x: Seq<u64>, b: Seq<char>, y: Seq<u64>)
    ensures
        key_less(text_key(a) + x, text_key(b) + y) <==> text_before(a, b) || (a == b && key_less(
            x,
            y,
        )),
    decreases a.len(),
{
    if a.len() == 0 {
        assert(text_key(a) + x =~= seq![0u64] + x);
    } else {
        text_key_of_more(a, x);
    }
    if b.len() == 0 {
        assert(text_key(b) + y =~= seq![0u64] + y);
    } else {
        text_key_of_more(b, y);
    }
    if a.len() == 0 && b.len() == 0 {
        assert(a =~= b);
        key_less_headed(0, x, 0, y);
    } else if a.len() == 0 {
        char_key_orders(b[0], b[0]);
        key_less_headed(0, x, char_key(b[0]), text_key(b.drop_first()) + y);
        assert(differs_at(a, b, 0));
    } else if b.len() == 0 {
        char_key_orders(a[0], a[0]);
        key_less_headed(char_key(a[0]), text_key(a.drop_first()) + x, 0, y);
    } else {
        let a2 = a.drop_first();
        let b2 = b.drop_first();
        char_key_orders(a[0], b[0]);
        key_less_headed(char_key(a[0]), text_key(a2) + x, char_key(b[0]), text_key(b2) + y);
        text_key_decides(a2, x, b2, y);
        text_before_of_more(a, b);
        if a[0] == b[0] && a2 == b2 {
            assert(a == b);
        }
    }
}

/// The number that decimal digits stand for.
pub open spec fn number_in(digits: Seq<char>) -> int
    decreases digits.len(),
{
    if digits.len() == 0 {
        0
    } else {
        10 * number_in(digits.drop_last()) + (digits.last() as int - '0' as int)
    }
}

/// A number in decimal reads back as the number; it has digits only, and no zero in front
/// but for zero itself.
pub proof fn decimals_read_back(n: nat)
    ensures
        number_in(decimal(n)) == n,
        decimal(n).len() > 0,
        forall|i: int| 0 <= i < decimal(n).len() ==> '0' <= #[trigger] decimal(n)[i] <= '9',
        n > 0 ==> decimal(n)[0] != '0',
    decreases n,
{
    reveal_with_fuel(number_in, 2);
    if n >= 10 {
        let front = decimal(n / 10);
        let last = digit((n % 10) as int);
        decimals_read_back(n / 10);
        assert(front.push(last).drop_last() =~= front);
        assert forall|i: int| 0 <= i < decimal(n).len() implies '0' <= #[trigger] decimal(n)[i]
            <= '9' by {
            if i < front.len() {
                assert(decimal(n)[i] == front[i]);
            }
        }
        assert(decimal(n)[0] == front[0]);
    } else {
        assert(decimal(n).drop_last() =~= Seq::empty());
    }
}

/// The value of a hexadecimal digit in lower case.
pub open spec fn hex_value(c: char) -> int {
    if '0' <= c <= '9' {
        c as int - '0' as int
    } else if 'a' <= c <= 'f' {
        c as int - 'a' as int + 10
    } else {
        -1
    }
}

/// Bytes in hexadecimal read back: two digits each, the higher one first.
pub proof fn hexadecimals_read_back(bytes: Seq<u8>, i: int)
    requires
        0 <= i < bytes.len(),
    ensures
        hex(bytes).len() == 2 * bytes.len(),
        0 <= hex_value(hex(bytes)[2 * i]) < 16,
        0 <= hex_value(hex(bytes)[2 * i + 1]) < 16,
        16 * hex_value(hex(bytes)[2 * i]) + hex_value(hex(bytes)[2 * i + 1]) == bytes[i],
{
    assert(2 * i / 2 == i && (2 * i) % 2 == 0 && (2 * i + 1) / 2 == i && (2 * i + 1) % 2 == 1);
}

/// Filling up keeps the text and adds nothing but fill, up to the width.
pub proof fn padding_only_fills(text: Seq<char>, width: int, fill: char)
    ensures
        ({
            let all = if text.len() < width {
                width
            } else {
                text.len() as int
            };
            let left = padded_left(text, width, fill);
            let right = padded_right(text, width, fill);
            &&& left.len() == all && right.len() == all
            &&& left.skip(all - text.len()) == text
            &&& right.take(text.len() as int) == text
            &&& forall|i: int| 0 <= i < all - text.len() ==> #[trigger] left[i] == fill
            &&& forall|i: int| text.len() <= i < all ==> #[trigger] right[i] == fill
        }),
{
    let left = padded_left(text, width, fill);
    let right = padded_right(text, width, fill);
    assert(left.skip(left.len() - text.len()) =~= text);
    assert(right.take(text.len() as int) =~= text);
}

/// Trimming takes white space off both ends and nothing else: what is left is the part from
/// `r.0` to `r.1`, around it there is only white space, and it has none at its ends.
pub proof fn trimming_takes_off_white_space(text: Seq<char>) -> (r: (int, int))
    ensures
        0 <= r.0 <= r.1 <= text.len(),
        trimmed(text) == text.subrange(r.0, r.1),
        forall|i: int| 0 <= i < r.0 || r.1 <= i < text.len() ==> white_space(#[trigger] text[i]),
        r.0 < r.1 ==> !white_space(text[r.0]) && !white_space(text[r.1 - 1]),
    decreases text.len(),
{
    trimmed_step(text);
    let n = text.len() as int;
    if n == 0 {
        assert(text.subrange(0, 0) =~= text);
        (0, 0)
    } else if white_space(text[0]) {
        let rest = text.drop_first();
        let (a, b) = trimming_takes_off_white_space(rest);
        assert(rest.subrange(a, b) =~= text.subrange(a + 1, b + 1));
        assert forall|i: int| 0 <= i < a + 1 || b + 1 <= i < n implies white_space(
            #[trigger] text[i],
        ) by {
            if i > 0 {
                assert(rest[i - 1] == text[i]);
            }
        }
        (a + 1, b + 1)
    } else if white_space(text.last()) {
        let rest = text.drop_last();
        let (a, b) = trimming_takes_off_white_space(rest);
        assert(rest.subrange(a, b) =~= text.subrange(a, b));
        assert forall|i: int| 0 <= i < a || b <= i < n implies white_space(#[trigger] text[i]) by {
            if i < n - 1 {
                assert(rest[i] == text[i]);
            }
        }
        (a, b)
    } else {
        assert(text.subrange(0, n) =~= text);
        (0, n)
    }
}

/// What is taken off the start of a text is nothing but that character, and all of it.
pub proof fn only_leading_ones_are_taken_off(text: Seq<char>, c: char) -> (k: int)
    ensures
        0 <= k <= text.len(),
        without_leading(text, c) == text.skip(k),
        forall|i: int| 0 <= i < k ==> #[trigger] text[i] == c,
        k < text.len() ==> text[k] != c,
    decreases text.len(),
{
    if text.len() > 0 && text[0] == c {
        let rest = text.drop_first();
        let k = only_leading_ones_are_taken_off(rest, c);
        assert(rest.skip(k) =~= text.skip(k + 1));
        assert forall|i: int| 0 <= i < k + 1 implies #[trigger] text[i] == c by {
            if i > 0 {
                assert(rest[i - 1] == text[i]);
            }
        }
        k + 1
    } else {
        assert(text.skip(0) =~= text);
        0
    }
}

/// One text comes before another where it is the smaller one at the first place where they
/// differ, or the start of the other.
pub proof fn texts_are_ordered_by_their_first_difference(a: Seq<char>, b: Seq<char>, i: int)
    requires
        0 <= i <= a.len(),
        i < b.len(),
        a.take(i) == b.take(i),
        i < a.len() ==> (a[i] as u32) < (b[i] as u32),
    ensures
        text_before(a, b),
        !text_before(b, a),
        a != b,
{
    assert forall|j: int| 0 <= j < i implies #[trigger] a[j] == b[j] by {
        assert(a.take(i)[j] == a[j]);
        assert(b.take(i)[j] == b[j]);
    }
    assert(differs_at(a, b, i));
    if text_before(b, a) {
        let j = choose|j: int| differs_at(b, a, j);
        if j < i {
            assert(a[j] == b[j]);
        } else if i < j {
            assert(a[i] == b[i]);
        }
    }
}

} // verus!
