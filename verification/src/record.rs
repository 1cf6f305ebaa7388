//! The line that the submission log gains for an accepted submission.
//!
//! A record names the three fields in a fixed order and puts each value in
//! double quotes. Inside the quotes a backslash, a double quote and every
//! control or line-breaking character is written as an escape, so that the
//! record never holds a line feed and a quote inside a value cannot be taken
//! for the end of it.

use vstd::prelude::*;
use vstd::string::*;
use crate::form::FormData;
use crate::text::chars_of;

verus! {

/// The file that accepted submissions are appended to.
pub const LOG_FILE: &'static str = "form_submissions.txt";

/// The permissions that the log file is created with: its owner may read and
/// write it, nobody else may do anything with it.
pub const LOG_FILE_MODE: u32 = 0o600;

pub const RECORD_OPEN: &'static str = "FormData { name: ";

pub const RECORD_EMAIL: &'static str = ", email: ";

pub const RECORD_MESSAGE: &'static str = ", message: ";

pub const RECORD_CLOSE: &'static str = " }";

/// The hexadecimal digit of a value below 16, in lower case.
pub open spec fn hex_digit(n: int) -> char {
    if n == 0 {
        '0'
    } else if n == 1 {
        '1'
    } else if n == 2 {
        '2'
    } else if n == 3 {
        '3'
    } else if n == 4 {
        '4'
    } else if n == 5 {
        '5'
    } else if n == 6 {
        '6'
    } else if n == 7 {
        '7'
    } else if n == 8 {
        '8'
    } else if n == 9 {
        '9'
    } else if n == 10 {
        'a'
    } else if n == 11 {
        'b'
    } else if n == 12 {
        'c'
    } else if n == 13 {
        'd'
    } else if n == 14 {
        'e'
    } else {
        'f'
    }
}

/// `n` in hexadecimal, without leading zeros.
pub open spec fn hex(n: nat) -> Seq<char>
    decreases n,
{
    if n < 16 {
        seq![hex_digit(n as int)]
    } else {
        hex(n / 16).push(hex_digit((n % 16) as int))
    }
}

/// A character that is written by its code: a control character, or one
/// that ends a line or a paragraph.
pub open spec fn written_by_code(c: char) -> bool {
    c < ' ' || '\u{7f}' <= c <= '\u{9f}' || c == '\u{2028}' || c == '\u{2029}'
}

/// How a character of a value stands in a record.
pub open spec fn escaped(c: char) -> Seq<char> {
    if c == '\\' {
        seq!['\\', '\\']
    } else if c == '"' {
        seq!['\\', '"']
    } else if c == '\n' {
        seq!['\\', 'n']
    } else if c == '\r' {
        seq!['\\', 'r']
    } else if c == '\t' {
        seq!['\\', 't']
    } else if c == '\0' {
        seq!['\\', '0']
    } else if written_by_code(c) {
        seq!['\\', 'u', '{'] + hex(c as nat) + seq!['}']
    } else {
        seq![c]
    }
}

/// How a value stands between its quotes.
pub open spec fn escaped_text(value: Seq<char>) -> Seq<char>
    decreases value.len(),
{
    if value.len() == 0 {
        Seq::empty()
    } else {
        escaped_text(value.drop_last()) + escaped(value.last())
    }
}

/// A value in its quotes.
pub open spec fn quoted(value: Seq<char>) -> Seq<char> {
    seq!['"'] + escaped_text(value) + seq!['"']
}

/// The record of a submission, without the line feed that ends it.
pub open spec fn record(name: Seq<char>, email: Seq<char>, message: Seq<char>) -> Seq<char> {
    RECORD_OPEN@ + quoted(name) + RECORD_EMAIL@ + quoted(email) + RECORD_MESSAGE@ + quoted(message)
        + RECORD_CLOSE@
}

/// The line that the log gains for a submission.
pub open spec fn log_line(name: Seq<char>, email: Seq<char>, message: Seq<char>) -> Seq<char> {
    record(name, email, message).push('\n')
}

/// No character of `s` is a line feed.
pub open spec fn one_line(s: Seq<char>) -> bool {
    forall|i: int| 0 <= i < s.len() ==> #[trigger] s[i] != '\n'
}

/// `String::push` of the standard library. Believed, not proved: it appends
/// the character to the end of the string and changes nothing else.
pub assume_specification[ String::push ](s: &mut String, c: char)
    ensures
        final(s)@ == old(s)@.push(c),
;

fn hex_digit_of(n: u32) -> (digit: char)
    requires
        n < 16,
    ensures
        digit == hex_digit(n as int),
{
    if n == 0 {
        '0'
    } else if n == 1 {
        '1'
    } else if n == 2 {
        '2'
    } else if n == 3 {
        '3'
    } else if n == 4 {
        '4'
    } else if n == 5 {
        '5'
    } else if n == 6 {
        '6'
    } else if n == 7 {
        '7'
    } else if n == 8 {
        '8'
    } else if n == 9 {
        '9'
    } else if n == 10 {
        'a'
    } else if n == 11 {
        'b'
    } else if n == 12 {
        'c'
    } else if n == 13 {
        'd'
    } else if n == 14 {
        'e'
    } else {
        'f'
    }
}

fn push_hex(out: &mut String, n: u32)
    ensures
        final(out)@ == old(out)@ + hex(n as nat),
    decreases n,
{
    if n >= 16 {
        push_hex(out, n / 16);
    }
    out.push(hex_digit_of(n % 16));
    assert(out@ =~= old(out)@ + hex(n as nat));
}

fn push_escaped(out: &mut String, c: char)
    ensures
        final(out)@ == old(out)@ + escaped(c),
{
    if c == '\\' {
        out.push('\\');
        out.push('\\');
    } else if c == '"' {
        out.push('\\');
        out.push('"');
    } else if c == '\n' {
        out.push('\\');
        out.push('n');
    } else if c == '\r' {
        out.push('\\');
        out.push('r');
    } else if c == '\t' {
        out.push('\\');
        out.push('t');
    } else if c == '\0' {
        out.push('\\');
        out.push('0');
    } else if c < ' ' || ('\u{7f}' <= c && c <= '\u{9f}') || c == '\u{2028}' || c == '\u{2029}' {
        out.push('\\');
        out.push('u');
        out.push('{');
        push_hex(out, c as u32);
        out.push('}');
    } else {
        out.push(c);
    }
    assert(out@ =~= old(out)@ + escaped(c));
}

fn push_quoted(out: &mut String, value: &str)
    ensures
        final(out)@ == old(out)@ + quoted(value@),
{
    let chars = chars_of(value);
    out.push('"');
    let mut i: usize = 0;
    while i < chars.len()
        invariant
            i <= chars.len(),
            chars@ == value@,
            out@ == old(out)@ + seq!['"'] + escaped_text(value@.take(i as int)),
        decreases chars.len() - i,
    {
        proof {
            let next = value@.take(i + 1);
            assert(next.drop_last() =~= value@.take(i as int));
            assert(next.last() == chars@[i as int]);
        }
        push_escaped(out, chars[i]);
        i += 1;
        assert(out@ =~= old(out)@ + seq!['"'] + escaped_text(value@.take(i as int)));
    }
    out.push('"');
    assert(value@.take(i as int) =~= value@);
    assert(out@ =~= old(out)@ + quoted(value@));
}

/// The line to append to the log for `form`.
pub fn log_entry(form: &FormData) -> (line: String)
    ensures
        line@ == log_line(form.name@, form.email@, form.message@),
{
    let mut line = RECORD_OPEN.to_owned();
    push_quoted(&mut line, form.name.as_str());
    line.append(RECORD_EMAIL);
    push_quoted(&mut line, form.email.as_str());
    line.append(RECORD_MESSAGE);
    push_quoted(&mut line, form.message.as_str());
    line.append(RECORD_CLOSE);
    line.push('\n');
    line
}

proof fn lemma_hex_one_line(n: nat)
    ensures
        one_line(hex(n)),
    decreases n,
{
    if n >= 16 {
        lemma_hex_one_line(n / 16);
    }
}

proof fn lemma_escaped_text_one_line(value: Seq<char>)
    ensures
        one_line(escaped_text(value)),
    decreases value.len(),
{
    if value.len() > 0 {
        lemma_escaped_text_one_line(value.drop_last());
        lemma_hex_one_line(value.last() as nat);
    }
}

/// A record holds no line feed, whatever the three values hold.
pub proof fn lemma_record_one_line(name: Seq<char>, email: Seq<char>, message: Seq<char>)
    ensures
        one_line(record(name, email, message)),
{
    reveal_strlit("FormData { name: ");
    reveal_strlit(", email: ");
    reveal_strlit(", message: ");
    reveal_strlit(" }");
    lemma_escaped_text_one_line(name);
    lemma_escaped_text_one_line(email);
    lemma_escaped_text_one_line(message);
}

/// A log line is exactly one line: it ends with a line feed and holds no
/// other.
pub proof fn lemma_log_line_is_one_line(name: Seq<char>, email: Seq<char>, message: Seq<char>)
    ensures
        log_line(name, email, message).last() == '\n',
        one_line(log_line(name, email, message).drop_last()),
{
    lemma_record_one_line(name, email, message);
    assert(log_line(name, email, message).drop_last() =~= record(name, email, message));
}

/// The value of a hexadecimal digit; 16 for any other character.
spec fn digit_value(c: char) -> nat {
    if c == '0' {
        0
    } else if c == '1' {
        1
    } else if c == '2' {
        2
    } else if c == '3' {
        3
    } else if c == '4' {
        4
    } else if c == '5' {
        5
    } else if c == '6' {
        6
    } else if c == '7' {
        7
    } else if c == '8' {
        8
    } else if c == '9' {
        9
    } else if c == 'a' {
        10
    } else if c == 'b' {
        11
    } else if c == 'c' {
        12
    } else if c == 'd' {
        13
    } else if c == 'e' {
        14
    } else if c == 'f' {
        15
    } else {
        16
    }
}

/// The number that a run of hexadecimal digits stands for.
spec fn hex_value(digits: Seq<char>) -> nat
    decreases digits.len(),
{
    if digits.len() == 0 {
        0
    } else {
        hex_value(digits.drop_last()) * 16 + digit_value(digits.last())
    }
}

/// The digits of a number are hexadecimal digits and stand for that number.
proof fn lemma_hex_reads_back(n: nat)
    ensures
        hex_value(hex(n)) == n,
        hex(n).len() >= 1,
        forall|i: int| 0 <= i < hex(n).len() ==> digit_value(#[trigger] hex(n)[i]) < 16,
    decreases n,
{
    if n < 16 {
        let digits = hex(n);
        assert(digits.drop_last() =~= Seq::<char>::empty());
        assert(hex_value(digits.drop_last()) == 0);
    } else {
        lemma_hex_reads_back(n / 16);
        let digits = hex(n);
        assert(digits.drop_last() =~= hex(n / 16));
        assert(digits.last() == hex_digit((n % 16) as int));
    }
}

/// Two texts that are equal after the same beginning are equal.
proof fn lemma_same_beginning(begin: Seq<char>, x: Seq<char>, y: Seq<char>)
    requires
        begin + x == begin + y,
    ensures
        x == y,
{
    assert((begin + x).skip(begin.len() as int) =~= x);
    assert((begin + y).skip(begin.len() as int) =~= y);
}

/// Where a code ends is told by the code itself: if two characters, written
/// as they stand in a record and each followed by anything, give the same
/// text, they are the same character followed by the same.
proof fn lemma_escaped_ends(c1: char, rest1: Seq<char>, c2: char, rest2: Seq<char>)
    requires
        escaped(c1) + rest1 == escaped(c2) + rest2,
    ensures
        c1 == c2,
        rest1 == rest2,
{
    let whole = escaped(c1) + rest1;
    let e1 = escaped(c1);
    let e2 = escaped(c2);
    lemma_hex_reads_back(c1 as nat);
    lemma_hex_reads_back(c2 as nat);
    assert(whole[0] == e1[0] && whole[0] == e2[0]);
    assert(e1.len() >= 2 ==> whole[1] == e1[1]);
    assert(e2.len() >= 2 ==> whole[1] == e2[1]);
    if written_by_code(c1) && c1 != '\n' && c1 != '\r' && c1 != '\t' && c1 != '\0' {
        let h1 = hex(c1 as nat);
        let h2 = hex(c2 as nat);
        let open = seq!['\\', 'u', '{'];
        let close = seq!['}'];
        assert(e1 =~= open + h1 + close);
        assert(e1[1] == 'u');
        assert(e2[0] == '\\' && e2[1] == 'u');
        assert(e2 =~= open + h2 + close);
        assert(whole =~= open + (h1 + (close + rest1)));
        assert(whole =~= open + (h2 + (close + rest2)));
        lemma_same_beginning(open, h1 + (close + rest1), h2 + (close + rest2));
        let tail = h1 + (close + rest1);
        if h1.len() < h2.len() {
            assert(tail[h1.len() as int] == '}');
            assert(tail[h1.len() as int] == h2[h1.len() as int]);
            assert(false);
        }
        if h2.len() < h1.len() {
            assert(tail[h2.len() as int] == '}');
            assert(tail[h2.len() as int] == h1[h2.len() as int]);
            assert(false);
        }
        assert(h1 =~= h2) by {
            assert forall|i: int| 0 <= i < h1.len() implies h1[i] == h2[i] by {
                assert(tail[i] == h1[i]);
                assert(tail[i] == h2[i]);
            }
        }
        assert(c1 as nat == c2 as nat);
        lemma_same_beginning(h1, close + rest1, close + rest2);
        lemma_same_beginning(close, rest1, rest2);
    } else {
        assert(e1.len() == e2.len());
        assert(c1 == c2);
        lemma_same_beginning(e1, rest1, rest2);
    }
}

/// How a value stands between its quotes, read from its first character on.
proof fn lemma_escaped_text_front(value: Seq<char>)
    requires
        value.len() > 0,
    ensures
        escaped_text(value) == escaped(value[0]) + escaped_text(value.skip(1)),
    decreases value.len(),
{
    if value.len() == 1 {
        assert(value.drop_last() =~= Seq::<char>::empty());
        assert(value.skip(1) =~= Seq::<char>::empty());
        assert(escaped_text(value) =~= escaped(value[0]) + escaped_text(value.skip(1)));
    } else {
        let front = value.drop_last();
        lemma_escaped_text_front(front);
        assert(front.skip(1) =~= value.skip(1).drop_last());
        assert(value.skip(1).last() == value.last());
        assert(front[0] == value[0]);
        assert(escaped_text(value) =~= escaped(value[0]) + escaped_text(value.skip(1)));
    }
}

/// The quote that ends a value is the first one that is not part of a
/// code: if two values, each followed by a quote and anything after it, give
/// the same text, they are the same value followed by the same.
proof fn lemma_value_ends(v1: Seq<char>, rest1: Seq<char>, v2: Seq<char>, rest2: Seq<char>)
    requires
        escaped_text(v1) + (seq!['"'] + rest1) == escaped_text(v2) + (seq!['"'] + rest2),
    ensures
        v1 == v2,
        rest1 == rest2,
    decreases v1.len(),
{
    let quote = seq!['"'];
    let whole = escaped_text(v1) + (quote + rest1);
    if v1.len() > 0 {
        lemma_escaped_text_front(v1);
        lemma_hex_reads_back(v1[0] as nat);
        assert(whole[0] == escaped(v1[0])[0]);
    }
    if v2.len() > 0 {
        lemma_escaped_text_front(v2);
        lemma_hex_reads_back(v2[0] as nat);
        assert(whole[0] == escaped(v2[0])[0]);
    }
    if v1.len() == 0 || v2.len() == 0 {
        assert(v1.len() == 0 ==> whole[0] == '"');
        assert(v2.len() == 0 ==> whole[0] == '"');
        assert(v1.len() == 0 && v2.len() == 0);
        assert(v1 =~= v2);
        assert(escaped_text(v1) =~= Seq::<char>::empty());
        lemma_same_beginning(escaped_text(v1), quote + rest1, quote + rest2);
        lemma_same_beginning(quote, rest1, rest2);
    } else {
        let after1 = escaped_text(v1.skip(1)) + (quote + rest1);
        let after2 = escaped_text(v2.skip(1)) + (quote + rest2);
        assert(whole =~= escaped(v1[0]) + after1);
        assert(whole =~= escaped(v2[0]) + after2);
        lemma_escaped_ends(v1[0], after1, v2[0], after2);
        lemma_value_ends(v1.skip(1), rest1, v2.skip(1), rest2);
        assert(v1 =~= seq![v1[0]] + v1.skip(1));
        assert(v2 =~= seq![v2[0]] + v2.skip(1));
    }
}

/// `label`, then `value` between quotes, then `rest`, grouped from the right.
spec fn field(label: Seq<char>, value: Seq<char>, rest: Seq<char>) -> Seq<char> {
    label + (seq!['"'] + (value + (seq!['"'] + rest)))
}

/// A text followed by a quoted value and a rest is a field.
proof fn lemma_field(begin: Seq<char>, value: Seq<char>, rest: Seq<char>)
    ensures
        begin + (seq!['"'] + value + seq!['"']) + rest == field(begin, value, rest),
{
    assert(begin + (seq!['"'] + value + seq!['"']) + rest =~= field(begin, value, rest));
}

/// Appending to a field appends to its rest.
proof fn lemma_field_grows(label: Seq<char>, value: Seq<char>, rest: Seq<char>, more: Seq<char>)
    ensures
        field(label, value, rest) + more == field(label, value, rest + more),
{
    assert(field(label, value, rest) + more =~= field(label, value, rest + more));
}

/// A record is the name as a field, followed by the email address as a
/// field, followed by the message as a field.
proof fn lemma_record_from_the_left(name: Seq<char>, email: Seq<char>, message: Seq<char>)
    ensures
        record(name, email, message) == field(
            RECORD_OPEN@,
            escaped_text(name),
            field(
                RECORD_EMAIL@,
                escaped_text(email),
                field(RECORD_MESSAGE@, escaped_text(message), RECORD_CLOSE@),
            ),
        ),
{
    let n = escaped_text(name);
    let e = escaped_text(email);
    let m = escaped_text(message);
    let empty = Seq::<char>::empty();
    let one = RECORD_OPEN@ + quoted(name);
    lemma_field(RECORD_OPEN@, n, empty);
    assert(one + empty =~= one);
    assert(one == field(RECORD_OPEN@, n, empty));
    let two = one + RECORD_EMAIL@;
    lemma_field_grows(RECORD_OPEN@, n, empty, RECORD_EMAIL@);
    assert(empty + RECORD_EMAIL@ =~= RECORD_EMAIL@);
    assert(two == field(RECORD_OPEN@, n, RECORD_EMAIL@));
    let three = two + quoted(email);
    lemma_field_grows(RECORD_OPEN@, n, RECORD_EMAIL@, quoted(email));
    lemma_field(RECORD_EMAIL@, e, empty);
    assert(RECORD_EMAIL@ + quoted(email) + empty =~= RECORD_EMAIL@ + quoted(email));
    assert(three == field(RECORD_OPEN@, n, field(RECORD_EMAIL@, e, empty)));
    let four = three + RECORD_MESSAGE@;
    lemma_field_grows(RECORD_OPEN@, n, field(RECORD_EMAIL@, e, empty), RECORD_MESSAGE@);
    lemma_field_grows(RECORD_EMAIL@, e, empty, RECORD_MESSAGE@);
    assert(empty + RECORD_MESSAGE@ =~= RECORD_MESSAGE@);
    assert(four == field(RECORD_OPEN@, n, field(RECORD_EMAIL@, e, RECORD_MESSAGE@)));
    let five = four + quoted(message);
    lemma_field_grows(RECORD_OPEN@, n, field(RECORD_EMAIL@, e, RECORD_MESSAGE@), quoted(message));
    lemma_field_grows(RECORD_EMAIL@, e, RECORD_MESSAGE@, quoted(message));
    lemma_field(RECORD_MESSAGE@, m, empty);
    assert(RECORD_MESSAGE@ + quoted(message) + empty =~= RECORD_MESSAGE@ + quoted(message));
    assert(five == field(
        RECORD_OPEN@,
        n,
        field(RECORD_EMAIL@, e, field(RECORD_MESSAGE@, m, empty)),
    ));
    lemma_field_grows(
        RECORD_OPEN@,
        n,
        field(RECORD_EMAIL@, e, field(RECORD_MESSAGE@, m, empty)),
        RECORD_CLOSE@,
    );
    lemma_field_grows(RECORD_EMAIL@, e, field(RECORD_MESSAGE@, m, empty), RECORD_CLOSE@);
    lemma_field_grows(RECORD_MESSAGE@, m, empty, RECORD_CLOSE@);
    assert(empty + RECORD_CLOSE@ =~= RECORD_CLOSE@);
}

/// A record tells its three values apart and holds all of each: two
/// submissions with the same record have the same name, the same email
/// address and the same message.
pub proof fn lemma_record_keeps_values(
    name1: Seq<char>,
    email1: Seq<char>,
    message1: Seq<char>,
    name2: Seq<char>,
    email2: Seq<char>,
    message2: Seq<char>,
)
    requires
        record(name1, email1, message1) == record(name2, email2, message2),
    ensures
        name1 == name2,
        email1 == email2,
        message1 == message2,
{
    let quote = seq!['"'];
    let close = RECORD_CLOSE@;
    let after_email1 = RECORD_MESSAGE@ + (quote + (escaped_text(message1) + (quote + close)));
    let after_email2 = RECORD_MESSAGE@ + (quote + (escaped_text(message2) + (quote + close)));
    let after_name1 = RECORD_EMAIL@ + (quote + (escaped_text(email1) + (quote + after_email1)));
    let after_name2 = RECORD_EMAIL@ + (quote + (escaped_text(email2) + (quote + after_email2)));
    lemma_record_from_the_left(name1, email1, message1);
    lemma_record_from_the_left(name2, email2, message2);
    lemma_same_beginning(
        RECORD_OPEN@,
        quote + (escaped_text(name1) + (quote + after_name1)),
        quote + (escaped_text(name2) + (quote + after_name2)),
    );
    lemma_same_beginning(
        quote,
        escaped_text(name1) + (quote + after_name1),
        escaped_text(name2) + (quote + after_name2),
    );
    lemma_value_ends(name1, after_name1, name2, after_name2);
    lemma_same_beginning(
        RECORD_EMAIL@,
        quote + (escaped_text(email1) + (quote + after_email1)),
        quote + (escaped_text(email2) + (quote + after_email2)),
    );
    lemma_same_beginning(
        quote,
        escaped_text(email1) + (quote + after_email1),
        escaped_text(email2) + (quote + after_email2),
    );
    lemma_value_ends(email1, after_email1, email2, after_email2);
    lemma_same_beginning(
        RECORD_MESSAGE@,
        quote + (escaped_text(message1) + (quote + close)),
        quote + (escaped_text(message2) + (quote + close)),
    );
    lemma_same_beginning(
        quote,
        escaped_text(message1) + (quote + close),
        escaped_text(message2) + (quote + close),
    );
    lemma_value_ends(message1, close, message2, close);
}

/// Two submissions that differ in any field give two different log lines.
pub proof fn lemma_log_lines_differ(
    name1: Seq<char>,
    email1: Seq<char>,
    message1: Seq<char>,
    name2: Seq<char>,
    email2: Seq<char>,
    message2: Seq<char>,
)
    requires
        name1 != name2 || email1 != email2 || message1 != message2,
    ensures
        log_line(name1, email1, message1) != log_line(name2, email2, message2),
{
    if log_line(name1, email1, message1) == log_line(name2, email2, message2) {
        assert(log_line(name1, email1, message1).drop_last() =~= record(name1, email1, message1));
        assert(log_line(name2, email2, message2).drop_last() =~= record(name2, email2, message2));
        lemma_record_keeps_values(name1, email1, message1, name2, email2, message2);
    }
}

} // verus!
