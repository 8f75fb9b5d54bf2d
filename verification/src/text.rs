use vstd::prelude::*;
use vstd::string::StrSliceExecFns;
use vstd::string::StringExecFns;
use vstd::string::StringSliceAdditionalSpecFns;
use vstd::utf8::encode_utf8_decode_utf8;

verus! {

/// Two texts with the same UTF-8 encoding are the same text.
pub proof fn lemma_same_bytes_same_text(a: Seq<char>, b: Seq<char>)
    requires
        vstd::utf8::encode_utf8(a) == vstd::utf8::encode_utf8(b),
    ensures
        a == b,
{
    encode_utf8_decode_utf8(a);
    encode_utf8_decode_utf8(b);
}

/// Whether two string slices hold the same text.
pub fn str_eq(a: &str, b: &str) -> (same: bool)
    ensures
        same == (a@ == b@),
{
    let x = a.as_bytes();
    let y = b.as_bytes();
    if x.len() != y.len() {
        return false;
    }
    let mut i: usize = 0;
    while i < x.len()
        invariant
            x.len() == y.len(),
            i <= x.len(),
            x@ == a.spec_bytes(),
            y@ == b.spec_bytes(),
            forall|k: int| 0 <= k < i ==> x@[k] == y@[k],
        decreases x.len() - i,
    {
        if x[i] != y[i] {
            return false;
        }
        i += 1;
    }
    proof {
        assert(x@ =~= y@);
        lemma_same_bytes_same_text(a@, b@);
    }
    true
}

/// The character of a decimal digit.
pub open spec fn digit(value: nat) -> char {
    if value == 0 {
        '0'
    } else if value == 1 {
        '1'
    } else if value == 2 {
        '2'
    } else if value == 3 {
        '3'
    } else if value == 4 {
        '4'
    } else if value == 5 {
        '5'
    } else if value == 6 {
        '6'
    } else if value == 7 {
        '7'
    } else if value == 8 {
        '8'
    } else {
        '9'
    }
}

/// The decimal numeral of a number, without leading zeros.
pub open spec fn decimal(value: nat) -> Seq<char>
    decreases value,
{
    if value < 10 {
        seq![digit(value)]
    } else {
        decimal(value / 10).push(digit(value % 10))
    }
}

fn digit_text(value: usize) -> (text: &'static str)
    requires
        value < 10,
    ensures
        text@ == seq![digit(value as nat)],
{
    proof {
        reveal_strlit("0");
        reveal_strlit("1");
        reveal_strlit("2");
        reveal_strlit("3");
        reveal_strlit("4");
        reveal_strlit("5");
        reveal_strlit("6");
        reveal_strlit("7");
        reveal_strlit("8");
        reveal_strlit("9");
    }
    let text = if value == 0 {
        "0"
    } else if value == 1 {
        "1"
    } else if value == 2 {
        "2"
    } else if value == 3 {
        "3"
    } else if value == 4 {
        "4"
    } else if value == 5 {
        "5"
    } else if value == 6 {
        "6"
    } else if value == 7 {
        "7"
    } else if value == 8 {
        "8"
    } else {
        "9"
    };
    assert(text@ =~= seq![digit(value as nat)]);
    text
}

/// Appends the decimal numeral of a number to a text.
pub fn push_decimal(text: &mut String, value: usize)
    ensures
        final(text)@ == old(text)@ + decimal(value as nat),
    decreases value,
{
    if value >= 10 {
        push_decimal(text, value / 10);
    }
    text.append(digit_text(value % 10));
    assert(text@ =~= old(text)@ + decimal(value as nat));
}

/// Two numbers with the same decimal numeral are the same number.
pub proof fn lemma_decimal_injective(left: nat, right: nat)
    requires
        decimal(left) == decimal(right),
    ensures
        left == right,
    decreases left,
{
    if left < 10 {
        if right >= 10 {
            lemma_decimal_length(right / 10);
            assert(decimal(right).len() >= 2);
            assert(decimal(left).len() == 1);
        } else {
            assert(decimal(left)[0] == digit(left));
            assert(decimal(right)[0] == digit(right));
        }
    } else {
        if right < 10 {
            lemma_decimal_length(left / 10);
            assert(decimal(left).len() >= 2);
            assert(decimal(right).len() == 1);
        } else {
            assert(decimal(left).drop_last() =~= decimal(left / 10));
            assert(decimal(right).drop_last() =~= decimal(right / 10));
            assert(decimal(left).last() == digit(left % 10));
            assert(decimal(right).last() == digit(right % 10));
            lemma_decimal_injective(left / 10, right / 10);
            assert(left % 10 == right % 10);
        }
    }
}

/// A decimal numeral has at least one digit.
pub proof fn lemma_decimal_length(value: nat)
    ensures
        decimal(value).len() >= 1,
    decreases value,
{
    if value >= 10 {
        lemma_decimal_length(value / 10);
    }
}

/// Whether the character can stand in a name: a letter, a digit, `_` or `$`.
pub open spec fn is_name_char(c: char) -> bool {
    ('a' <= c && c <= 'z') || ('A' <= c && c <= 'Z') || ('0' <= c && c <= '9') || c == '_' || c
        == '$'
}

/// Whether the text is a name as the scanner reads one: characters of
/// names, the first of them no digit.
pub open spec fn is_name(text: Seq<char>) -> bool {
    &&& text.len() > 0
    &&& !('0' <= text[0] && text[0] <= '9')
    &&& forall|i: int| 0 <= i < text.len() ==> is_name_char(#[trigger] text[i])
}

/// Whether the text holds no line feed.
pub open spec fn is_one_line(text: Seq<char>) -> bool {
    forall|i: int| 0 <= i < text.len() ==> #[trigger] text[i] != '\n'
}

/// Whether the character is a decimal digit.
pub open spec fn is_digit(c: char) -> bool {
    '0' <= c && c <= '9'
}

/// The index behind the decimal digits that stand in the text from `from` on.
pub open spec fn digits_end(text: Seq<char>, from: nat) -> nat
    decreases text.len() - from,
{
    if from >= text.len() {
        text.len()
    } else if is_digit(text[from as int]) {
        digits_end(text, from + 1)
    } else {
        from
    }
}

/// The number that the text starts with, as its digits; zero if it starts
/// with no digit.
pub open spec fn number_text(text: Seq<char>) -> Seq<char> {
    if digits_end(text, 0) == 0 {
        "0"@
    } else {
        text.take(digits_end(text, 0) as int)
    }
}

fn holds_digit(c: char) -> (found: bool)
    ensures
        found == is_digit(c),
{
    '0' <= c && c <= '9'
}

/// Appends the number that the text `value` starts with.
pub fn push_number(text: &mut String, value: &str)
    ensures
        final(text)@ == old(text)@ + number_text(value@),
{
    let length = value.unicode_len();
    let mut end: usize = 0;
    while end < length && holds_digit(value.get_char(end))
        invariant
            end <= length,
            length == value@.len(),
            digits_end(value@, 0) == digits_end(value@, end as nat),
        decreases length - end,
    {
        end += 1;
    }
    if end == 0 {
        text.append("0");
    } else {
        text.append(value.substring_char(0, end));
        assert(value@.subrange(0, end as int) =~= value@.take(end as int));
    }
}

/// The bytes without the quote at their start and the quote at their end,
/// if they stand between two such quotes.
pub open spec fn unquoted(bytes: Seq<u8>, quote: u8) -> Seq<u8> {
    if bytes.len() >= 2 && bytes[0] == quote && bytes.last() == quote {
        bytes.subrange(1, bytes.len() - 1)
    } else {
        bytes
    }
}

/// The bytes of a text without the quotes around it.
pub fn unquoted_bytes(value: &str, quote: u8) -> (content: Vec<u8>)
    ensures
        content@ == unquoted(value.spec_bytes(), quote),
{
    let bytes = value.as_bytes();
    let length = bytes.len();
    let quoted = length >= 2 && bytes[0] == quote && bytes[length - 1] == quote;
    let from: usize = if quoted {
        1
    } else {
        0
    };
    let to: usize = if quoted {
        length - 1
    } else {
        length
    };
    let mut content: Vec<u8> = Vec::new();
    let mut at: usize = from;
    while at < to
        invariant
            from <= at <= to <= bytes.len(),
            content@ == bytes@.subrange(from as int, at as int),
        decreases to - at,
    {
        content.push(bytes[at]);
        assert(bytes@.subrange(from as int, at as int).push(bytes@[at as int]) =~= bytes@.subrange(
            from as int,
            at + 1,
        ));
        at += 1;
    }
    assert(bytes@.subrange(0, length as int) =~= bytes@);
    content
}

} // verus!
