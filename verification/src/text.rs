//! String helpers: concatenation, decimal text, whitespace and UTF-8.
use crate::bytes::{bytes_eq, decimal, eq_ignore_case, lower_bytes};
use vstd::prelude::*;
use vstd::string::*;
use vstd::utf8::*;

verus! {

/// ASCII bytes read as characters.
pub open spec fn ascii_chars(s: Seq<u8>) -> Seq<char> {
    s.map_values(|b: u8| b as char)
}

/// The decimal text of `n`.
pub open spec fn decimal_text(n: nat) -> Seq<char> {
    ascii_chars(decimal(n))
}

/// Unicode white space, as `char::is_whitespace` counts it.
pub open spec fn is_white_space(c: char) -> bool {
    ||| 0x09 <= c as u32 <= 0x0d
    ||| c as u32 == 0x20
    ||| c as u32 == 0x85
    ||| c as u32 == 0xa0
    ||| c as u32 == 0x1680
    ||| 0x2000 <= c as u32 <= 0x200a
    ||| c as u32 == 0x2028
    ||| c as u32 == 0x2029
    ||| c as u32 == 0x202f
    ||| c as u32 == 0x205f
    ||| c as u32 == 0x3000
}

/// Every character of the text is white space; so is every character of the
/// empty text.
pub open spec fn blank(s: Seq<char>) -> bool {
    forall|i: int| 0 <= i < s.len() ==> is_white_space(#[trigger] s[i])
}

/// Has the character the Unicode property `White_Space`?
fn char_is_whitespace(c: char) -> (r: bool)
    ensures
        r == is_white_space(c),
{
    let n = c as u32;
    (0x09 <= n && n <= 0x0d) || n == 0x20 || n == 0x85 || n == 0xa0 || n == 0x1680 || (0x2000 <= n
        && n <= 0x200a) || n == 0x2028 || n == 0x2029 || n == 0x202f || n == 0x205f || n == 0x3000
}

/// `std::str::from_utf8`: the text that the bytes encode, when they are valid
/// UTF-8.
#[verifier::external_body]
pub(crate) fn str_from_utf8(b: &[u8]) -> (r: Option<&str>)
    ensures
        match r {
            Some(s) => valid_utf8(b@) && s.spec_bytes() == b@ && s@ == decode_utf8(b@),
            None => !valid_utf8(b@),
        },
{
    std::str::from_utf8(b).ok()
}

/// Is the text empty or white space throughout?
pub fn is_blank(s: &str) -> (r: bool)
    ensures
        r == blank(s@),
{
    let n = s.unicode_len();
    let mut i: usize = 0;
    while i < n
        invariant
            n == s@.len(),
            i <= n,
            forall|j: int| 0 <= j < i ==> is_white_space(#[trigger] s@[j]),
        decreases n - i,
    {
        if !char_is_whitespace(s.get_char(i)) {
            assert(!is_white_space(s@[i as int]));
            return false;
        }
        i += 1;
    }
    true
}

pub proof fn lemma_encode_injective(a: Seq<char>, b: Seq<char>)
    ensures
        (encode_utf8(a) == encode_utf8(b)) == (a == b),
{
    encode_utf8_decode_utf8(a);
    encode_utf8_decode_utf8(b);
}

/// Are the two texts equal?
pub fn str_eq(a: &str, b: &str) -> (r: bool)
    ensures
        r == (a@ == b@),
{
    proof {
        lemma_encode_injective(a@, b@);
    }
    bytes_eq(a.as_bytes(), b.as_bytes())
}

/// Are the UTF-8 bytes of the two texts equal up to ASCII letter case?
pub fn str_eq_ignore_case(a: &str, b: &str) -> (r: bool)
    ensures
        r == (lower_bytes(a.spec_bytes()) == lower_bytes(b.spec_bytes())),
{
    eq_ignore_case(a.as_bytes(), b.as_bytes())
}

/// A fresh string with the text of `s`.
pub fn string_of(s: &str) -> (r: String)
    ensures
        r@ == s@,
{
    s.to_owned()
}

fn push_digit(out: &mut String, d: u64)
    requires
        d < 10,
    ensures
        final(out)@ == old(out)@.push((0x30 + d) as u8 as char),
{
    proof {
        reveal_strlit("0");
        reveal_strlit("1");
        reveal_strlit("2");
        reveal_strlit("3");
        reveal_strlit("4");
        reveal_strlit("5");
        reveal_strlit("6");
        reveal_strlit("7");
        reveal_strlit("8");
        reveal_strlit("9");
    }
    let text = match d {
        0 => "0",
        1 => "1",
        2 => "2",
        3 => "3",
        4 => "4",
        5 => "5",
        6 => "6",
        7 => "7",
        8 => "8",
        _ => "9",
    };
    out.append(text);
    assert(out@ =~= old(out)@.push((0x30 + d) as u8 as char));
}

/// Appends the decimal text of `n`.
pub fn push_number(out: &mut String, n: u64)
    ensures
        final(out)@ == old(out)@ + decimal_text(n as nat),
    decreases n,
{
    if n >= 10 {
        push_number(out, n / 10);
    }
    push_digit(out, n % 10);
    proof {
        let d = (0x30 + n % 10) as u8;
        if n >= 10 {
            assert(decimal(n as nat) =~= decimal((n / 10) as nat).push(d));
            assert(ascii_chars(decimal(n as nat)) =~= ascii_chars(decimal((n / 10) as nat)).push(
                d as char,
            ));
            assert(out@ =~= old(out)@ + decimal_text(n as nat));
        } else {
            assert(decimal(n as nat) =~= seq![d]);
            assert(decimal_text(n as nat) =~= seq![d as char]);
            assert(out@ =~= old(out)@ + decimal_text(n as nat));
        }
    }
}

/// The decimal text of `n` as a string.
pub fn number_string(n: u64) -> (r: String)
    ensures
        r@ == decimal_text(n as nat),
{
    let mut out = String::new();
    push_number(&mut out, n);
    assert(out@ =~= decimal_text(n as nat));
    out
}

/// The three texts joined.
pub fn concat3(a: &str, b: &str, c: &str) -> (r: String)
    ensures
        r@ == a@ + b@ + c@,
{
    let mut out = String::new();
    out.append(a);
    out.append(b);
    out.append(c);
    assert(out@ =~= a@ + b@ + c@);
    out
}

/// The text without the white space that it starts with.
pub open spec fn trim_text_start(s: Seq<char>) -> Seq<char>
    decreases s.len(),
{
    if s.len() > 0 && is_white_space(s[0]) {
        trim_text_start(s.subrange(1, s.len() as int))
    } else {
        s
    }
}

/// The text without the white space that it ends with.
pub open spec fn trim_text_end(s: Seq<char>) -> Seq<char>
    decreases s.len(),
{
    if s.len() > 0 && is_white_space(s[s.len() - 1]) {
        trim_text_end(s.subrange(0, s.len() - 1))
    } else {
        s
    }
}

/// The text without the white space around it.
pub open spec fn trim_text(s: Seq<char>) -> Seq<char> {
    trim_text_end(trim_text_start(s))
}

/// Nothing but white space leaves nothing.
proof fn lemma_trim_blank(s: Seq<char>)
    requires
        blank(s),
    ensures
        trim_text_start(s) == Seq::<char>::empty(),
    decreases s.len(),
{
    if s.len() > 0 {
        assert(is_white_space(s[0]));
        let rest = s.subrange(1, s.len() as int);
        assert forall|i: int| 0 <= i < rest.len() implies is_white_space(#[trigger] rest[i]) by {
            assert(rest[i] == s[i + 1]);
        }
        lemma_trim_blank(rest);
    } else {
        assert(s =~= Seq::<char>::empty());
    }
}

/// White space at the start does not count.
proof fn lemma_trim_start_more(space: Seq<char>, s: Seq<char>)
    requires
        blank(space),
    ensures
        trim_text_start(space + s) == trim_text_start(s),
    decreases space.len(),
{
    if space.len() > 0 {
        let all = space + s;
        assert(is_white_space(space[0]) && all[0] == space[0]);
        let rest = space.subrange(1, space.len() as int);
        assert forall|i: int| 0 <= i < rest.len() implies is_white_space(#[trigger] rest[i]) by {
            assert(rest[i] == space[i + 1]);
        }
        lemma_trim_start_more(rest, s);
        assert(all.subrange(1, all.len() as int) =~= rest + s);
    } else {
        assert(space + s =~= s);
    }
}

/// White space at the end does not count.
pub(crate) proof fn lemma_trim_end_more(s: Seq<char>, space: Seq<char>)
    requires
        blank(space),
    ensures
        trim_text_end(s + space) == trim_text_end(s),
    decreases space.len(),
{
    if space.len() > 0 {
        let all = s + space;
        let n = space.len() as int;
        assert(is_white_space(space[n - 1]) && all[all.len() - 1] == space[n - 1]);
        let rest = space.subrange(0, n - 1);
        assert forall|i: int| 0 <= i < rest.len() implies is_white_space(#[trigger] rest[i]) by {
            assert(rest[i] == space[i]);
        }
        lemma_trim_end_more(s, rest);
        assert(all.subrange(0, all.len() - 1) =~= s + rest);
    } else {
        assert(s + space =~= s);
    }
}

/// What follows a character that is no white space stays at the start.
proof fn lemma_trim_start_front(s: Seq<char>, more: Seq<char>)
    requires
        !blank(s),
    ensures
        trim_text_start(s + more) == trim_text_start(s) + more,
    decreases s.len(),
{
    let all = s + more;
    assert(s.len() > 0);
    assert(all[0] == s[0]);
    if is_white_space(s[0]) {
        let rest = s.subrange(1, s.len() as int);
        let i = choose|i: int| 0 <= i < s.len() && !is_white_space(#[trigger] s[i]);
        assert(rest[i - 1] == s[i]);
        lemma_trim_start_front(rest, more);
        assert(all.subrange(1, all.len() as int) =~= rest + more);
    }
}

/// White space around a text does not count.
pub proof fn law_white_space_around_is_dropped(before: Seq<char>, s: Seq<char>, after: Seq<char>)
    requires
        blank(before),
        blank(after),
    ensures
        trim_text(before + s + after) == trim_text(s),
{
    assert(before + s + after =~= before + (s + after));
    lemma_trim_start_more(before, s + after);
    if blank(s) {
        let both = s + after;
        assert forall|i: int| 0 <= i < both.len() implies is_white_space(#[trigger] both[i]) by {
            if i < s.len() {
                assert(both[i] == s[i]);
            } else {
                assert(both[i] == after[i - s.len()]);
            }
        }
        lemma_trim_blank(both);
        lemma_trim_blank(s);
    } else {
        lemma_trim_start_front(s, after);
        lemma_trim_end_more(trim_text_start(s), after);
    }
}

/// The end of a text is trimmed apart from a front that ends in something other
/// than white space.
pub(crate) proof fn lemma_trim_end_behind(front: Seq<char>, s: Seq<char>)
    requires
        front.len() > 0,
        !is_white_space(front[front.len() - 1]),
    ensures
        trim_text_end(front + s) == front + trim_text_end(s),
        trim_text_end(s).len() <= s.len(),
        trim_text_end(s).len() > 0 ==> trim_text_end(s)[0] == s[0],
    decreases s.len(),
{
    let all = front + s;
    if s.len() == 0 {
        assert(all =~= front);
        assert(front + s =~= front);
    } else {
        assert(all[all.len() - 1] == s[s.len() - 1]);
        if is_white_space(s[s.len() - 1]) {
            let rest = s.subrange(0, s.len() - 1);
            lemma_trim_end_behind(front, rest);
            assert(all.subrange(0, all.len() - 1) =~= front + rest);
        }
    }
}

/// Trimming the end leaves a front of the text.
pub(crate) proof fn lemma_trim_end_is_front(s: Seq<char>)
    ensures
        trim_text_end(s).len() <= s.len(),
        trim_text_end(s) == s.take(trim_text_end(s).len() as int),
    decreases s.len(),
{
    if s.len() > 0 && is_white_space(s[s.len() - 1]) {
        let rest = s.subrange(0, s.len() - 1);
        lemma_trim_end_is_front(rest);
        let n = trim_text_end(rest).len() as int;
        assert(rest.take(n) =~= s.take(n));
    } else {
        assert(s.take(s.len() as int) =~= s);
    }
}

/// ASCII characters are encoded as they are, and what follows them after them.
pub(crate) proof fn lemma_encode_ascii_front(w: Seq<u8>, s: Seq<char>)
    requires
        forall|i: int| 0 <= i < w.len() ==> #[trigger] w[i] < 0x80,
    ensures
        encode_utf8(ascii_chars(w) + s) == w + encode_utf8(s),
    decreases w.len(),
{
    let text = ascii_chars(w) + s;
    if w.len() == 0 {
        assert(text =~= s);
        assert(w + encode_utf8(s) =~= encode_utf8(s));
    } else {
        let rest = w.subrange(1, w.len() as int);
        assert forall|i: int| 0 <= i < rest.len() implies #[trigger] rest[i] < 0x80 by {
            assert(rest[i] == w[i + 1]);
        }
        lemma_encode_ascii_front(rest, s);
        assert(text.drop_first() =~= ascii_chars(rest) + s);
        let c = w[0] as char;
        assert(w[0] < 0x80);
        assert(text[0] == c);
        let one = seq![c];
        assert(is_ascii_chars(one));
        is_ascii_chars_encode_utf8(one);
        assert(encode_utf8(one.drop_first()) =~= Seq::<u8>::empty()) by {
            assert(one.drop_first() =~= Seq::<char>::empty());
        }
        assert(encode_utf8(one) == encode_scalar(c as u32) + encode_utf8(one.drop_first()));
        assert(encode_scalar(c as u32) =~= seq![w[0]]) by {
            assert(encode_utf8(one) =~= encode_scalar(c as u32));
            assert(one[0] as u8 == encode_utf8(one)[0]);
        }
        assert(encode_utf8(text) == encode_scalar(text[0] as u32) + encode_utf8(
            text.drop_first(),
        ));
        assert(seq![w[0]] + (rest + encode_utf8(s)) =~= w + encode_utf8(s));
    }
}

/// The text without the white space around it.
pub fn trim_str(s: &str) -> (r: &str)
    ensures
        r@ == trim_text(s@),
{
    let n = s.unicode_len();
    let mut a: usize = 0;
    assert(s@.subrange(0, n as int) =~= s@);
    while a < n && char_is_whitespace(s.get_char(a))
        invariant
            n == s@.len(),
            a <= n,
            trim_text_start(s@) == trim_text_start(s@.subrange(a as int, n as int)),
        decreases n - a,
    {
        let ghost rest = s@.subrange(a as int, n as int);
        assert(rest.subrange(1, rest.len() as int) =~= s@.subrange(a + 1, n as int));
        a += 1;
    }
    let ghost head = s@.subrange(a as int, n as int);
    assert(trim_text_start(s@) == head);
    let mut b: usize = n;
    while b > a && char_is_whitespace(s.get_char(b - 1))
        invariant
            n == s@.len(),
            a <= b <= n,
            trim_text_end(head) == trim_text_end(s@.subrange(a as int, b as int)),
        decreases b,
    {
        let ghost rest = s@.subrange(a as int, b as int);
        assert(rest.subrange(0, rest.len() - 1) =~= s@.subrange(a as int, b - 1));
        b -= 1;
    }
    s.substring_char(a, b)
}

/// The text of the first `n` bytes, which end where a character ends.
pub fn text_prefix(s: &str, n: usize) -> (r: &str)
    requires
        n < s.spec_bytes().len(),
        s.spec_bytes()[n as int] < 0x80,
    ensures
        r.spec_bytes() == s.spec_bytes().subrange(0, n as int),
{
    let bytes = s.as_bytes();
    proof {
        encode_utf8_valid_utf8(s@);
        is_char_boundary_iff_not_is_continuation_byte(bytes@, n as int);
        valid_utf8_split(bytes@, n as int);
    }
    str_from_utf8(&bytes[0..n]).unwrap()
}

/// The text of the bytes from `a` to `b`, when both the first and the last of
/// them stand for a character each.
pub fn text_slice(s: &str, a: usize, b: usize) -> (r: &str)
    requires
        a < b <= s.spec_bytes().len(),
        s.spec_bytes()[a as int] < 0x80,
        s.spec_bytes()[b - 1] < 0x80,
    ensures
        r.spec_bytes() == s.spec_bytes().subrange(a as int, b as int),
{
    let bytes = s.as_bytes();
    proof {
        let all = bytes@;
        encode_utf8_valid_utf8(s@);
        is_char_boundary_iff_not_is_continuation_byte(all, b - 1);
        valid_utf8_split(all, b - 1);
        let front = all.subrange(0, b - 1);
        if a < b - 1 {
            is_char_boundary_iff_not_is_continuation_byte(front, a as int);
        } else {
            is_char_boundary_start_end_of_seq(front);
        }
        valid_utf8_split(front, a as int);
        let mid = front.subrange(a as int, front.len() as int);
        let last = all.subrange(b - 1, b as int);
        assert(valid_utf8(last)) by {
            reveal_with_fuel(valid_utf8, 2);
            assert(pop_first_scalar(last).len() == 0);
        }
        valid_utf8_concat(mid, last);
        assert(mid + last =~= all.subrange(a as int, b as int));
    }
    str_from_utf8(&bytes[a..b]).unwrap()
}

// ---------------------------------------------------------------------------
// Letter case
// ---------------------------------------------------------------------------

/// The characters are one, or the same ASCII letter in two cases.
pub open spec fn same_letter(a: char, b: char) -> bool {
    ||| a == b
    ||| 'A' <= a <= 'Z' && a as int + 32 == b as int
    ||| 'A' <= b <= 'Z' && b as int + 32 == a as int
}

/// The texts differ in the case of ASCII letters at most.
pub open spec fn same_letters(a: Seq<char>, b: Seq<char>) -> bool {
    a.len() == b.len() && forall|i: int|
        0 <= i < a.len() ==> same_letter(#[trigger] a[i], b[i])
}

/// The bytes of an ASCII text are its characters.
pub(crate) proof fn lemma_ascii_bytes(text: Seq<char>)
    requires
        is_ascii_chars(text),
    ensures
        encode_utf8(text).len() == text.len(),
        forall|i: int|
            0 <= i < text.len() ==> #[trigger] encode_utf8(text)[i] as int == text[i] as int,
        ascii_chars(encode_utf8(text)) == text,
{
    is_ascii_chars_encode_utf8(text);
    let b = encode_utf8(text);
    assert forall|i: int| 0 <= i < text.len() implies #[trigger] b[i] as int == text[i] as int by {
        assert('\0' <= text[i] <= '\u{7f}');
        assert(text[i] as u8 == b[i]);
    }
    assert forall|i: int| 0 <= i < text.len() implies ascii_chars(b)[i] == text[i] by {
        assert(b[i] as int == text[i] as int);
    }
    assert(ascii_chars(b) =~= text);
}

/// Bytes of ASCII alone are those of the text of their characters, and of no
/// other.
pub(crate) proof fn lemma_ascii_text(text: Seq<char>)
    requires
        forall|i: int| 0 <= i < encode_utf8(text).len() ==> #[trigger] encode_utf8(text)[i] < 0x80,
    ensures
        text == ascii_chars(encode_utf8(text)),
        is_ascii_chars(text),
{
    let b = encode_utf8(text);
    lemma_encode_ascii_front(b, Seq::empty());
    assert(ascii_chars(b) + Seq::<char>::empty() =~= ascii_chars(b));
    assert(encode_utf8(Seq::<char>::empty()) =~= Seq::<u8>::empty());
    assert(encode_utf8(ascii_chars(b)) =~= b);
    lemma_encode_injective(text, ascii_chars(b));
    assert forall|i: int| 0 <= i < text.len() implies '\0' <= #[trigger] text[i] <= '\u{7f}' by {
        assert(b[i] < 0x80);
        assert(text[i] == b[i] as char);
    }
}

proof fn lemma_first_byte_of_char(c: char)
    ensures
        encode_scalar(c as u32).len() > 0,
        c <= '\u{7f}' ==> encode_scalar(c as u32)[0] as int == c as int,
        c > '\u{7f}' ==> encode_scalar(c as u32)[0] >= 0x80,
{
    let v = c as u32;
    char_is_scalar(c);
    assert(v <= 0x7f ==> (v & 0x7F) as u8 == v) by (bit_vector);
    assert(0xC0u8 | ((v >> 6) & 0x1F) as u8 >= 0x80 && 0xE0u8 | ((v >> 12) & 0x0F) as u8 >= 0x80
        && 0xF0u8 | ((v >> 18) & 0x7) as u8 >= 0x80) by (bit_vector);
}

/// The first byte of a text is its first character where that is ASCII, and no
/// ASCII where it is not.
pub(crate) proof fn lemma_first_of_text(text: Seq<char>)
    requires
        text.len() > 0,
    ensures
        encode_utf8(text).len() > 0,
        text[0] <= '\u{7f}' ==> encode_utf8(text)[0] as int == text[0] as int,
        text[0] > '\u{7f}' ==> encode_utf8(text)[0] >= 0x80,
{
    lemma_first_byte_of_char(text[0]);
    assert(encode_utf8(text) == encode_scalar(text[0] as u32) + encode_utf8(text.drop_first()));
}

/// A text is an ASCII word in any letter case exactly where their bytes in small
/// letters are the same.
pub proof fn law_letter_case(text: Seq<char>, word: Seq<char>)
    requires
        is_ascii_chars(word),
    ensures
        (lower_bytes(encode_utf8(text)) == lower_bytes(encode_utf8(word))) == same_letters(
            text,
            word,
        ),
{
    let t = encode_utf8(text);
    let w = encode_utf8(word);
    lemma_ascii_bytes(word);
    if same_letters(text, word) {
        assert forall|i: int| 0 <= i < text.len() implies '\0' <= #[trigger] text[i] <= '\u{7f}' by {
            assert(same_letter(text[i], word[i]));
            assert('\0' <= word[i] <= '\u{7f}');
        }
        lemma_ascii_bytes(text);
        assert forall|i: int| 0 <= i < t.len() implies lower_bytes(t)[i] == lower_bytes(w)[i] by {
            assert(same_letter(text[i], word[i]));
            assert(t[i] as int == text[i] as int && w[i] as int == word[i] as int);
        }
        assert(lower_bytes(t) =~= lower_bytes(w));
    }
    if lower_bytes(t) == lower_bytes(w) {
        assert(lower_bytes(t).len() == t.len() && lower_bytes(w).len() == w.len());
        assert forall|i: int| 0 <= i < t.len() implies #[trigger] t[i] < 0x80 by {
            assert(lower_bytes(t)[i] == lower_bytes(w)[i]);
            assert(w[i] as int == word[i] as int);
            assert('\0' <= word[i] <= '\u{7f}');
        }
        lemma_ascii_text(text);
        lemma_ascii_bytes(text);
        assert forall|i: int| 0 <= i < text.len() implies same_letter(
            #[trigger] text[i],
            word[i],
        ) by {
            assert(t[i] as int == text[i] as int);
            assert(lower_bytes(t)[i] == lower_bytes(w)[i]);
            assert(w[i] as int == word[i] as int);
        }
    }
}

/// Texts are encoded one after the other.
pub(crate) proof fn lemma_encode_concat(a: Seq<char>, b: Seq<char>)
    ensures
        encode_utf8(a + b) == encode_utf8(a) + encode_utf8(b),
    decreases a.len(),
{
    if a.len() == 0 {
        assert(a + b =~= b);
        assert(encode_utf8(a) =~= Seq::<u8>::empty());
        assert(encode_utf8(a) + encode_utf8(b) =~= encode_utf8(b));
    } else {
        assert((a + b).drop_first() =~= a.drop_first() + b);
        lemma_encode_concat(a.drop_first(), b);
        assert(encode_utf8(a + b) =~= encode_utf8(a) + encode_utf8(b));
    }
}

} // verus!
