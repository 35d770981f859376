//! Values as text: the decimal form of integers, the `TAG, VALUE` form of
//! values, and the parser that reads that form back.

use vstd::prelude::*;
use vstd::std_specs::iter::IteratorSpec;
use vstd::string::{axiom_spec_iter, next_postcondition};
use crate::program::{OutputLine, TraceEvent};
use crate::values::GpssValue;

verus! {

/// The characters of a string, in a vector.
pub fn chars_of(text: &str) -> (chars: Vec<char>)
    ensures
        chars@ == text@,
{
    broadcast use {axiom_spec_iter, next_postcondition};

    let mut rest = text.chars();
    let mut chars: Vec<char> = Vec::new();
    loop
        invariant
            rest.obeys_prophetic_iter_laws(),
            rest.decrease() is Some,
            chars@ + rest.remaining() == text@,
        ensures
            chars@ == text@,
        decreases rest.decrease()->0,
    {
        match rest.next() {
            Some(c) => {
                chars.push(c);
            },
            None => {
                break ;
            },
        }
    }
    chars
}

/// The character of a decimal digit.
pub open spec fn digit_char(d: nat) -> char {
    (d + 48) as char
}

/// A natural number in decimal, without leading zeros.
pub open spec fn digits(n: nat) -> Seq<char>
    decreases n,
{
    if n < 10 {
        seq![digit_char(n)]
    } else {
        digits(n / 10).push(digit_char(n % 10))
    }
}

/// An integer in decimal, with a minus sign where it is negative.
pub open spec fn decimal(n: int) -> Seq<char> {
    if n < 0 {
        seq!['-'] + digits((-n) as nat)
    } else {
        digits(n as nat)
    }
}

/// The name of a value's tag.
pub open spec fn tag_name(value: GpssValue) -> Seq<char> {
    match value {
        GpssValue::Boolean(_) => "Boolean"@,
        GpssValue::Float(_) => "Float"@,
        GpssValue::Integer(_) => "Integer"@,
        GpssValue::UnsignedInteger(_) => "UnsignedInteger"@,
        GpssValue::Facility(_) => "Facility"@,
    }
}

/// The payload of a value as text. The decimal form of a `Float` is not
/// made here: it is `float_text`, which the caller supplies.
pub open spec fn payload_text(value: GpssValue, float_text: Seq<char>) -> Seq<char> {
    match value {
        GpssValue::Boolean(b) => if b {
            "true"@
        } else {
            "false"@
        },
        GpssValue::Float(_) => float_text,
        GpssValue::Integer(n) => decimal(n as int),
        GpssValue::UnsignedInteger(n) => digits(n as nat),
        GpssValue::Facility(n) => digits(n as nat),
    }
}

/// A value in the form `TAG, VALUE`.
pub open spec fn display_spec(value: GpssValue, float_text: Seq<char>) -> Seq<char> {
    tag_name(value) + ", "@ + payload_text(value, float_text)
}

/// An output line as text.
pub open spec fn output_text(line: OutputLine, float_text: Seq<char>) -> Seq<char> {
    match line {
        OutputLine::Clock(time) => "Clock "@ + digits(time as nat),
        OutputLine::Value(value) => display_spec(value, float_text),
    }
}

/// A trace record as text.
pub open spec fn trace_text(record: TraceEvent, float_text: Seq<char>) -> Seq<char> {
    match record {
        TraceEvent::WakeTimeGenerate(time) => "Wake time for GENERATE "@ + digits(time as nat),
        TraceEvent::WakeTimeAdvance(time) => "Wake time for ADVANCE "@ + digits(time as nat),
        TraceEvent::Terminate(count) => "TERMINATE "@ + digits(count as nat),
        TraceEvent::Stop => "STOP"@,
        TraceEvent::Transfer { from, to } => "TRANSFER FROM "@ + digits(from as nat) + " TO "@
            + digits(to as nat),
        TraceEvent::Condition(condition) => "Condition is "@ + (if condition {
            "true"@
        } else {
            "false"@
        }),
        TraceEvent::SavingValue { value, address } => "Saving value "@ + display_spec(
            value,
            float_text,
        ) + " to "@ + digits(address as nat),
        TraceEvent::Push(value) => "Push: "@ + display_spec(value, float_text),
        TraceEvent::WokeUp(time) => "Woke up at "@ + digits(time as nat),
        TraceEvent::DoingGenerate => "DOING GENERATE"@,
        TraceEvent::DoingAdvance => "DOING ADVANCE"@,
    }
}

fn digit_text(d: u8) -> (text: &'static str)
    requires
        d < 10,
    ensures
        text@ == seq![digit_char(d as nat)],
{
    proof {
        reveal_strlit("0");
        reveal_strlit("1");
        reveal_strlit("2");
        reveal_strlit("3");
        reveal_strlit("4");
        reveal_strlit("5");
        reveal_strlit("6");
        reveal_strlit("7");
        reveal_strlit("8");
        reveal_strlit("9");
    }
    let text = match d {
        0 => "0",
        1 => "1",
        2 => "2",
        3 => "3",
        4 => "4",
        5 => "5",
        6 => "6",
        7 => "7",
        8 => "8",
        _ => "9",
    };
    assert(text@ =~= seq![digit_char(d as nat)]);
    text
}

/// Appends a natural number in decimal.
pub fn append_digits(text: &mut String, n: u64)
    ensures
        final(text)@ == old(text)@ + digits(n as nat),
    decreases n,
{
    if n >= 10 {
        append_digits(text, n / 10);
    }
    text.append(digit_text((n % 10) as u8));
    assert(text@ =~= old(text)@ + digits(n as nat));
}

/// Appends an integer in decimal.
pub fn append_decimal(text: &mut String, n: i64)
    ensures
        final(text)@ == old(text)@ + decimal(n as int),
{
    if n < 0 {
        proof {
            reveal_strlit("-");
        }
        text.append("-");
        let magnitude: u64 = if n == i64::MIN {
            0x8000_0000_0000_0000
        } else {
            (-n) as u64
        };
        append_digits(text, magnitude);
        assert(text@ =~= old(text)@ + decimal(n as int));
    } else {
        append_digits(text, n as u64);
    }
}

fn append_display(text: &mut String, value: GpssValue, float_text: &str)
    ensures
        final(text)@ == old(text)@ + display_spec(value, float_text@),
{
    match value {
        GpssValue::Boolean(b) => {
            text.append("Boolean");
            text.append(", ");
            if b {
                text.append("true");
            } else {
                text.append("false");
            }
        },
        GpssValue::Float(_) => {
            text.append("Float");
            text.append(", ");
            text.append(float_text);
        },
        GpssValue::Integer(n) => {
            text.append("Integer");
            text.append(", ");
            append_decimal(text, n as i64);
        },
        GpssValue::UnsignedInteger(n) => {
            text.append("UnsignedInteger");
            text.append(", ");
            append_digits(text, n as u64);
        },
        GpssValue::Facility(n) => {
            text.append("Facility");
            text.append(", ");
            append_digits(text, n as u64);
        },
    }
    assert(text@ =~= old(text)@ + display_spec(value, float_text@));
}

impl GpssValue {
    /// The encoding of the number, where the value is a `Float`: the caller
    /// of [`GpssValue::display`] then owes its decimal form.
    pub fn float_bits(self) -> (r: Option<u32>)
        ensures
            r == (match self {
                GpssValue::Float(bits) => Some(bits),
                _ => None::<u32>,
            }),
    {
        match self {
            GpssValue::Float(bits) => Some(bits),
            _ => None,
        }
    }

    /// The value in the form `TAG, VALUE`, with `float_text` as the VALUE of
    /// a `Float`.
    pub fn display(self, float_text: &str) -> (text: String)
        ensures
            text@ == display_spec(self, float_text@),
    {
        let mut text = String::new();
        append_display(&mut text, self, float_text);
        assert(text@ =~= display_spec(self, float_text@));
        text
    }
}

impl OutputLine {
    /// The encoding of the number that the line shows, where it shows one.
    pub fn float_bits(self) -> (r: Option<u32>)
        ensures
            r == (match self {
                OutputLine::Value(GpssValue::Float(bits)) => Some(bits),
                _ => None::<u32>,
            }),
    {
        match self {
            OutputLine::Value(value) => value.float_bits(),
            _ => None,
        }
    }

    /// The line as it is printed.
    pub fn text(self, float_text: &str) -> (text: String)
        ensures
            text@ == output_text(self, float_text@),
    {
        let mut text = String::new();
        match self {
            OutputLine::Clock(time) => {
                text.append("Clock ");
                append_digits(&mut text, time);
            },
            OutputLine::Value(value) => {
                append_display(&mut text, value, float_text);
            },
        }
        assert(text@ =~= output_text(self, float_text@));
        text
    }
}

impl TraceEvent {
    /// The encoding of the number that the record shows, where it shows one.
    pub fn float_bits(self) -> (r: Option<u32>)
        ensures
            r == (match self {
                TraceEvent::SavingValue { value: GpssValue::Float(bits), .. } => Some(bits),
                TraceEvent::Push(GpssValue::Float(bits)) => Some(bits),
                _ => None::<u32>,
            }),
    {
        match self {
            TraceEvent::SavingValue { value, .. } => value.float_bits(),
            TraceEvent::Push(value) => value.float_bits(),
            _ => None,
        }
    }

    /// The record as it is logged.
    pub fn text(self, float_text: &str) -> (text: String)
        ensures
            text@ == trace_text(self, float_text@),
    {
        let mut text = String::new();
        match self {
            TraceEvent::WakeTimeGenerate(time) => {
                text.append("Wake time for GENERATE ");
                append_digits(&mut text, time);
            },
            TraceEvent::WakeTimeAdvance(time) => {
                text.append("Wake time for ADVANCE ");
                append_digits(&mut text, time);
            },
            TraceEvent::Terminate(count) => {
                text.append("TERMINATE ");
                append_digits(&mut text, count as u64);
            },
            TraceEvent::Stop => {
                text.append("STOP");
            },
            TraceEvent::Transfer { from, to } => {
                text.append("TRANSFER FROM ");
                append_digits(&mut text, from as u64);
                text.append(" TO ");
                append_digits(&mut text, to as u64);
            },
            TraceEvent::Condition(condition) => {
                text.append("Condition is ");
                if condition {
                    text.append("true");
                } else {
                    text.append("false");
                }
            },
            TraceEvent::SavingValue { value, address } => {
                text.append("Saving value ");
                append_display(&mut text, value, float_text);
                text.append(" to ");
                append_digits(&mut text, address as u64);
            },
            TraceEvent::Push(value) => {
                text.append("Push: ");
                append_display(&mut text, value, float_text);
            },
            TraceEvent::WokeUp(time) => {
                text.append("Woke up at ");
                append_digits(&mut text, time);
            },
            TraceEvent::DoingGenerate => {
                text.append("DOING GENERATE");
            },
            TraceEvent::DoingAdvance => {
                text.append("DOING ADVANCE");
            },
        }
        assert(text@ =~= trace_text(self, float_text@));
        text
    }
}

/// A decimal digit.
pub open spec fn is_digit(c: char) -> bool {
    '0' <= c <= '9'
}

/// The value of a decimal digit; 0 for any other character.
pub open spec fn digit_value(c: char) -> nat {
    if is_digit(c) {
        (c as int - 48) as nat
    } else {
        0
    }
}

/// The number that a string of digits writes.
pub open spec fn number_of(text: Seq<char>) -> nat
    decreases text.len(),
{
    if text.len() == 0 {
        0
    } else {
        number_of(text.drop_last()) * 10 + digit_value(text.last())
    }
}

/// The text is made of digits, at least one, and has no leading zero.
pub open spec fn is_canonical(text: Seq<char>) -> bool {
    &&& text.len() > 0
    &&& forall|i: int| 0 <= i < text.len() ==> is_digit(#[trigger] text[i])
    &&& text.len() > 1 ==> text[0] != '0'
}

/// The natural number that a text writes in canonical decimal form.
pub open spec fn natural_of(text: Seq<char>) -> Option<nat> {
    if is_canonical(text) {
        Some(number_of(text))
    } else {
        None
    }
}

/// The integer that a text writes: canonical digits, with a minus sign
/// before them only where the number is below zero.
pub open spec fn integer_of(text: Seq<char>) -> Option<int> {
    if text.len() > 0 && text[0] == '-' {
        match natural_of(text.skip(1)) {
            Some(n) => if n > 0 {
                Some(-(n as int))
            } else {
                None
            },
            None => None,
        }
    } else {
        match natural_of(text) {
            Some(n) => Some(n as int),
            None => None,
        }
    }
}

/// The value that a text in the form `TAG, VALUE` writes. A `Float` is not
/// read here: its text is no integer arithmetic.
pub open spec fn parse_spec(text: Seq<char>) -> Option<GpssValue> {
    if "Boolean, "@.is_prefix_of(text) {
        let rest = text.skip("Boolean, "@.len() as int);
        if rest == "true"@ {
            Some(GpssValue::Boolean(true))
        } else if rest == "false"@ {
            Some(GpssValue::Boolean(false))
        } else {
            None
        }
    } else if "Integer, "@.is_prefix_of(text) {
        match integer_of(text.skip("Integer, "@.len() as int)) {
            Some(n) => if i32::MIN <= n <= i32::MAX {
                Some(GpssValue::Integer(n as i32))
            } else {
                None
            },
            None => None,
        }
    } else if "UnsignedInteger, "@.is_prefix_of(text) {
        match natural_of(text.skip("UnsignedInteger, "@.len() as int)) {
            Some(n) => if n <= u32::MAX {
                Some(GpssValue::UnsignedInteger(n as u32))
            } else {
                None
            },
            None => None,
        }
    } else if "Facility, "@.is_prefix_of(text) {
        match natural_of(text.skip("Facility, "@.len() as int)) {
            Some(n) => if n <= u8::MAX {
                Some(GpssValue::Facility(n as u8))
            } else {
                None
            },
            None => None,
        }
    } else {
        None
    }
}

/// The decimal form of a number is canonical and writes that number.
pub proof fn lemma_digits(n: nat)
    ensures
        is_canonical(digits(n)),
        number_of(digits(n)) == n,
        n > 0 ==> digits(n)[0] != '0',
    decreases n,
{
    if n < 10 {
        assert(digits(n).drop_last() =~= Seq::<char>::empty());
        assert(number_of(digits(n).drop_last()) == 0);
    } else {
        lemma_digits(n / 10);
        let head = digits(n / 10);
        assert(digits(n).drop_last() =~= head);
        assert forall|i: int| 0 <= i < digits(n).len() implies is_digit(#[trigger] digits(n)[i]) by {
            if i < head.len() {
                assert(digits(n)[i] == head[i]);
            }
        }
        assert(digits(n)[0] == head[0]);
    }
}

/// A longer string of digits writes no smaller a number than its beginning.
pub proof fn lemma_number_grows(text: Seq<char>, k: int)
    requires
        0 <= k <= text.len(),
    ensures
        number_of(text.take(k)) <= number_of(text),
    decreases text.len() - k,
{
    if k == text.len() {
        assert(text.take(k) =~= text);
    } else {
        lemma_number_grows(text.drop_last(), k);
        assert(text.drop_last().take(k) =~= text.take(k));
    }
}

/// What is displayed is read back as the same value: for every value that
/// is no `Float`, the parser gives the value whose display it reads.
pub proof fn lemma_display_round_trip(value: GpssValue, float_text: Seq<char>)
    requires
        !(value is Float),
    ensures
        parse_spec(display_spec(value, float_text)) == Some(value),
{
    reveal_strlit("Boolean");
    reveal_strlit("Float");
    reveal_strlit("Integer");
    reveal_strlit("UnsignedInteger");
    reveal_strlit("Facility");
    reveal_strlit(", ");
    reveal_strlit("Boolean, ");
    reveal_strlit("Integer, ");
    reveal_strlit("UnsignedInteger, ");
    reveal_strlit("Facility, ");
    reveal_strlit("true");
    reveal_strlit("false");
    let text = display_spec(value, float_text);
    let payload = payload_text(value, float_text);
    match value {
        GpssValue::Boolean(b) => {
            assert("Boolean, "@ =~= "Boolean"@ + ", "@);
            assert("Boolean, "@.is_prefix_of(text));
            assert(text.skip("Boolean, "@.len() as int) =~= payload);
            assert("true"@ != "false"@) by {
                assert("true"@[0] != "false"@[0]);
            }
        },
        GpssValue::Integer(n) => {
            assert("Integer, "@ =~= "Integer"@ + ", "@);
            assert("Integer, "@.is_prefix_of(text));
            assert(!"Boolean, "@.is_prefix_of(text)) by {
                assert(text[0] == 'I');
                assert("Boolean, "@[0] == 'B');
            }
            assert(text.skip("Integer, "@.len() as int) =~= payload);
            if n < 0 {
                lemma_digits((-n) as nat);
                assert(payload.skip(1) =~= digits((-n) as nat));
                assert(payload[0] == '-');
            } else {
                lemma_digits(n as nat);
                assert(payload[0] != '-');
            }
        },
        GpssValue::UnsignedInteger(n) => {
            assert("UnsignedInteger, "@ =~= "UnsignedInteger"@ + ", "@);
            assert("UnsignedInteger, "@.is_prefix_of(text));
            assert(!"Boolean, "@.is_prefix_of(text)) by {
                assert(text[0] == 'U');
                assert("Boolean, "@[0] == 'B');
            }
            assert(!"Integer, "@.is_prefix_of(text)) by {
                assert(text[0] == 'U');
                assert("Integer, "@[0] == 'I');
            }
            assert(text.skip("UnsignedInteger, "@.len() as int) =~= payload);
            lemma_digits(n as nat);
        },
        GpssValue::Facility(n) => {
            assert("Facility, "@ =~= "Facility"@ + ", "@);
            assert("Facility, "@.is_prefix_of(text));
            assert(!"Boolean, "@.is_prefix_of(text)) by {
                assert(text[0] == 'F');
                assert("Boolean, "@[0] == 'B');
            }
            assert(!"Integer, "@.is_prefix_of(text)) by {
                assert(text[0] == 'F');
                assert("Integer, "@[0] == 'I');
            }
            assert(!"UnsignedInteger, "@.is_prefix_of(text)) by {
                assert(text[0] == 'F');
                assert("UnsignedInteger, "@[0] == 'U');
            }
            assert(text.skip("Facility, "@.len() as int) =~= payload);
            lemma_digits(n as nat);
        },
        GpssValue::Float(_) => {},
    }
}

fn has_prefix(chars: &Vec<char>, prefix: &str) -> (r: bool)
    ensures
        r == prefix@.is_prefix_of(chars@),
{
    let wanted = chars_of(prefix);
    if wanted.len() > chars.len() {
        return false;
    }
    let mut i: usize = 0;
    while i < wanted.len()
        invariant
            i <= wanted@.len() <= chars@.len(),
            wanted@ == prefix@,
            forall|j: int| 0 <= j < i ==> wanted@[j] == chars@[j],
        decreases wanted@.len() - i,
    {
        if wanted[i] != chars[i] {
            assert(chars@.subrange(0, wanted@.len() as int)[i as int] != wanted@[i as int]);
            return false;
        }
        i = i + 1;
    }
    assert(wanted@ =~= chars@.subrange(0, wanted@.len() as int));
    true
}

fn is_word_from(chars: &Vec<char>, from: usize, word: &str) -> (r: bool)
    requires
        from <= chars@.len(),
    ensures
        r == (chars@.skip(from as int) == word@),
{
    let wanted = chars_of(word);
    let len: usize = chars.len();
    if wanted.len() != len - from {
        return false;
    }
    let mut i: usize = 0;
    while i < wanted.len()
        invariant
            i <= wanted@.len(),
            from <= chars@.len(),
            len == chars@.len(),
            wanted@.len() == chars@.len() - from,
            wanted@ == word@,
            forall|j: int| 0 <= j < i ==> wanted@[j] == chars@[from + j],
        decreases wanted@.len() - i,
    {
        if wanted[i] != chars[from + i] {
            assert(chars@.skip(from as int)[i as int] != wanted@[i as int]);
            return false;
        }
        i = i + 1;
    }
    assert(wanted@ =~= chars@.skip(from as int));
    true
}

fn parse_natural(chars: &Vec<char>, from: usize, bound: u64) -> (r: Option<u64>)
    requires
        from <= chars@.len(),
        bound <= 0xffff_ffff_ffff,
    ensures
        r == (match natural_of(chars@.skip(from as int)) {
            Some(n) => if n <= bound {
                Some(n as u64)
            } else {
                None
            },
            None => None::<u64>,
        }),
{
    let len: usize = chars.len();
    let ghost text = chars@.skip(from as int);
    if from >= len {
        return None;
    }
    if chars[from] == '0' && len - from > 1 {
        assert(text[0] == '0');
        return None;
    }
    let mut acc: u64 = 0;
    let mut i: usize = from;
    assert(text.take(0) =~= Seq::<char>::empty());
    while i < len
        invariant
            from <= i <= len,
            len == chars@.len(),
            text == chars@.skip(from as int),
            bound <= 0xffff_ffff_ffff,
            acc <= bound,
            acc == number_of(text.take(i - from)),
            forall|j: int| 0 <= j < i - from ==> is_digit(#[trigger] text[j]),
        decreases len - i,
    {
        let c: char = chars[i];
        if !(c >= '0' && c <= '9') {
            assert(!is_digit(text[i - from]));
            return None;
        }
        let d: u64 = (c as u32 - 48) as u64;
        acc = acc * 10 + d;
        proof {
            let now = text.take(i - from + 1);
            assert(now.drop_last() =~= text.take(i - from));
            assert(now.last() == c);
            assert(acc == number_of(now));
            lemma_number_grows(text, i - from + 1);
        }
        if acc > bound {
            return None;
        }
        i = i + 1;
    }
    assert(text.take(len - from) =~= text);
    Some(acc)
}

fn parse_integer(chars: &Vec<char>, from: usize) -> (r: Option<i32>)
    requires
        from <= chars@.len(),
    ensures
        r == (match integer_of(chars@.skip(from as int)) {
            Some(n) => if i32::MIN <= n <= i32::MAX {
                Some(n as i32)
            } else {
                None
            },
            None => None::<i32>,
        }),
{
    if from < chars.len() && chars[from] == '-' {
        assert(chars@.skip(from as int).skip(1) =~= chars@.skip(from + 1));
        match parse_natural(chars, from + 1, 0x8000_0000) {
            Some(n) => if n == 0 {
                None
            } else if n == 0x8000_0000 {
                Some(i32::MIN)
            } else {
                Some(-(n as i32))
            },
            None => None,
        }
    } else {
        match parse_natural(chars, from, 0x7fff_ffff) {
            Some(n) => Some(n as i32),
            None => None,
        }
    }
}

/// Reads a value from its `TAG, VALUE` form. `None` for any other text, and
/// for the text of a `Float`.
pub fn parse(text: &str) -> (r: Option<GpssValue>)
    ensures
        r == parse_spec(text@),
{
    let chars = chars_of(text);
    if has_prefix(&chars, "Boolean, ") {
        let from: usize = "Boolean, ".unicode_len();
        if is_word_from(&chars, from, "true") {
            Some(GpssValue::Boolean(true))
        } else if is_word_from(&chars, from, "false") {
            Some(GpssValue::Boolean(false))
        } else {
            None
        }
    } else if has_prefix(&chars, "Integer, ") {
        let from: usize = "Integer, ".unicode_len();
        match parse_integer(&chars, from) {
            Some(n) => Some(GpssValue::Integer(n)),
            None => None,
        }
    } else if has_prefix(&chars, "UnsignedInteger, ") {
        let from: usize = "UnsignedInteger, ".unicode_len();
        match parse_natural(&chars, from, 0xffff_ffff) {
            Some(n) => Some(GpssValue::UnsignedInteger(n as u32)),
            None => None,
        }
    } else if has_prefix(&chars, "Facility, ") {
        let from: usize = "Facility, ".unicode_len();
        match parse_natural(&chars, from, 0xff) {
            Some(n) => Some(GpssValue::Facility(n as u8)),
            None => None,
        }
    } else {
        None
    }
}

} // verus!
