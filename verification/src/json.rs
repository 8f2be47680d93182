//! Lists of texts as JSON: an array of strings in canonical form, without
//! white space, in which `"`, `\` and the control characters are escaped and
//! nothing else is.

use vstd::prelude::*;
use crate::outside::push_char;
use crate::text::{digit, digit_char};

verus! {

/// A control character, which JSON asks to be written by its code.
pub open spec fn is_control(c: char) -> bool {
    (c as u32) < 0x20
}

/// A character as it stands inside a JSON string.
pub open spec fn escape_char(c: char) -> Seq<char> {
    if c == '"' {
        seq!['\\', '"']
    } else if c == '\\' {
        seq!['\\', '\\']
    } else if is_control(c) {
        seq!['\\', 'u', '0', '0', digit_char(c as int / 16), digit_char(c as int % 16)]
    } else {
        seq![c]
    }
}

/// A text as it stands inside a JSON string.
pub open spec fn escaped(text: Seq<char>) -> Seq<char>
    decreases text.len(),
{
    if text.len() == 0 {
        Seq::empty()
    } else {
        escape_char(text[0]) + escaped(text.drop_first())
    }
}

/// A text as a JSON string.
pub open spec fn quoted(text: Seq<char>) -> Seq<char> {
    seq!['"'] + escaped(text) + seq!['"']
}

/// Texts as JSON strings with commas between them.
pub open spec fn joined(texts: Seq<Seq<char>>) -> Seq<char>
    decreases texts.len(),
{
    if texts.len() == 0 {
        Seq::empty()
    } else if texts.len() == 1 {
        quoted(texts[0])
    } else {
        quoted(texts[0]) + seq![','] + joined(texts.drop_first())
    }
}

/// Texts as a JSON array of strings.
pub open spec fn array_text(texts: Seq<Seq<char>>) -> Seq<char> {
    seq!['['] + joined(texts) + seq![']']
}

/// The value of a lower-case hexadecimal digit, or -1.
pub open spec fn hex_value(c: char) -> int {
    if '0' <= c <= '9' {
        c as int - '0' as int
    } else if 'a' <= c <= 'f' {
        c as int - 'a' as int + 10
    } else {
        -1
    }
}

/// The character that `text` begins with inside a JSON string, and how many
/// characters write it. Only the canonical way of writing a character is
/// read.
pub open spec fn read_char(text: Seq<char>) -> Option<(char, int)> {
    if text.len() == 0 {
        None
    } else if text[0] == '\\' {
        if text.len() >= 2 && text[1] == '"' {
            Some(('"', 2))
        } else if text.len() >= 2 && text[1] == '\\' {
            Some(('\\', 2))
        } else if text.len() >= 6 && text[1] == 'u' && text[2] == '0' && text[3] == '0' && (text[4] == '0'
            || text[4] == '1') && hex_value(text[5]) >= 0 {
            Some((((hex_value(text[4]) * 16 + hex_value(text[5])) as u8) as char, 6))
        } else {
            None
        }
    } else if text[0] == '"' || is_control(text[0]) {
        None
    } else {
        Some((text[0], 1))
    }
}

/// What stands before the closing quote of a JSON string, and what follows
/// that quote.
pub open spec fn read_body(text: Seq<char>) -> Option<(Seq<char>, Seq<char>)>
    decreases text.len(),
{
    if text.len() == 0 {
        None
    } else if text[0] == '"' {
        Some((Seq::empty(), text.skip(1)))
    } else {
        match read_char(text) {
            None => None,
            Some((c, used)) => match read_body(text.skip(used)) {
                None => None,
                Some((body, rest)) => Some((seq![c] + body, rest)),
            },
        }
    }
}

/// The JSON string that `text` begins with, and what follows it.
pub open spec fn read_quoted(text: Seq<char>) -> Option<(Seq<char>, Seq<char>)> {
    if text.len() > 0 && text[0] == '"' {
        read_body(text.skip(1))
    } else {
        None
    }
}

/// The JSON strings, one or more with commas between them, that stand
/// before a closing bracket at the end of `text`.
pub open spec fn read_items(text: Seq<char>) -> Option<Seq<Seq<char>>>
    decreases text.len(),
{
    match read_quoted(text) {
        None => None,
        Some((item, rest)) => if rest.len() == 1 && rest[0] == ']' {
            Some(seq![item])
        } else if rest.len() >= 1 && rest.len() < text.len() && rest[0] == ',' {
            match read_items(rest.skip(1)) {
                None => None,
                Some(items) => Some(seq![item] + items),
            }
        } else {
            None
        },
    }
}

/// The texts that `text` is the JSON array of.
pub open spec fn read_array(text: Seq<char>) -> Option<Seq<Seq<char>>> {
    if text.len() >= 2 && text[0] == '[' {
        if text.len() == 2 && text[1] == ']' {
            Some(Seq::empty())
        } else {
            read_items(text.skip(1))
        }
    } else {
        None
    }
}

proof fn lemma_hex_digit(d: int)
    requires
        0 <= d < 16,
    ensures
        hex_value(digit_char(d)) == d,
        d < 2 ==> digit_char(d) == '0' || digit_char(d) == '1',
{
}

/// A character is read back from the way it is written.
pub proof fn lemma_read_escape(c: char, rest: Seq<char>)
    ensures
        read_char(escape_char(c) + rest) == Some((c, escape_char(c).len() as int)),
        1 <= escape_char(c).len() <= 6,
        escape_char(c)[0] != '"',
{
    let text = escape_char(c) + rest;
    if c == '"' {
        assert(text[0] == '\\' && text[1] == '"');
    } else if c == '\\' {
        assert(text[0] == '\\' && text[1] == '\\');
    } else if is_control(c) {
        let code = c as int;
        assert(0 <= code < 32);
        lemma_hex_digit(code / 16);
        lemma_hex_digit(code % 16);
        assert(text[0] == '\\' && text[1] == 'u' && text[2] == '0' && text[3] == '0');
        assert(text[4] == digit_char(code / 16));
        assert(text[5] == digit_char(code % 16));
        assert(((code / 16) * 16 + code % 16) == code);
        assert((code as u8) as char == c);
    } else {
        assert(text[0] == c);
    }
}

/// What is read as a character is that character as it is written.
pub proof fn lemma_read_is_escape(text: Seq<char>)
    requires
        read_char(text) is Some,
    ensures
        1 <= (read_char(text)->0).1 <= text.len(),
        text.take((read_char(text)->0).1) == escape_char((read_char(text)->0).0),
        text[0] != '"',
{
    let (c, used) = read_char(text)->0;
    if text[0] == '\\' {
        if text.len() >= 2 && text[1] == '"' {
            assert(text.take(2) =~= escape_char('"'));
        } else if text.len() >= 2 && text[1] == '\\' {
            assert(text.take(2) =~= escape_char('\\'));
        } else {
            let hi = hex_value(text[4]);
            let lo = hex_value(text[5]);
            let code = hi * 16 + lo;
            assert(0 <= code < 32);
            assert(c as int == code);
            assert(is_control(c));
            assert(code / 16 == hi && code % 16 == lo);
            assert(digit_char(hi) == text[4]);
            assert(digit_char(lo) == text[5]);
            assert(text.take(6) =~= escape_char(c));
        }
    } else {
        assert(text.take(1) =~= escape_char(c));
    }
}

/// The body of a JSON string is read back from the text that it was written
/// of, whatever follows the closing quote.
pub proof fn lemma_read_body_of_escaped(body: Seq<char>, rest: Seq<char>)
    ensures
        read_body(escaped(body) + seq!['"'] + rest) == Some((body, rest)),
    decreases body.len(),
{
    let text = escaped(body) + seq!['"'] + rest;
    if body.len() == 0 {
        assert(text[0] == '"');
        assert(text.skip(1) =~= rest);
    } else {
        let c = body[0];
        let tail = body.drop_first();
        let after = escaped(tail) + seq!['"'] + rest;
        lemma_read_escape(c, after);
        assert(text =~= escape_char(c) + after);
        assert(text[0] == escape_char(c)[0]);
        let used = escape_char(c).len() as int;
        assert(text.skip(used) =~= after);
        lemma_read_body_of_escaped(tail, rest);
        assert(seq![c] + tail =~= body);
    }
}

/// What is read as the body of a JSON string is written as it was read.
pub proof fn lemma_read_body_is_escaped(text: Seq<char>)
    requires
        read_body(text) is Some,
    ensures
        text == escaped((read_body(text)->0).0) + seq!['"'] + (read_body(text)->0).1,
        (read_body(text)->0).1.len() < text.len(),
    decreases text.len(),
{
    if text[0] == '"' {
        assert(text =~= escaped(Seq::empty()) + seq!['"'] + text.skip(1));
    } else {
        let (c, used) = read_char(text)->0;
        lemma_read_is_escape(text);
        let (body, rest) = read_body(text.skip(used))->0;
        lemma_read_body_is_escaped(text.skip(used));
        let whole = seq![c] + body;
        assert(whole[0] == c);
        assert(whole.drop_first() =~= body);
        assert(escaped(whole) == escape_char(c) + escaped(body));
        assert(text =~= text.take(used) + text.skip(used));
        assert(text =~= escaped(whole) + seq!['"'] + rest);
    }
}

/// A JSON string is read back from the text that it was written of.
pub proof fn lemma_read_quoted_of_quoted(item: Seq<char>, rest: Seq<char>)
    ensures
        read_quoted(quoted(item) + rest) == Some((item, rest)),
{
    let text = quoted(item) + rest;
    assert(text[0] == '"');
    assert(text.skip(1) =~= escaped(item) + seq!['"'] + rest);
    lemma_read_body_of_escaped(item, rest);
}

/// What is read as a JSON string is written as it was read.
pub proof fn lemma_read_quoted_is_quoted(text: Seq<char>)
    requires
        read_quoted(text) is Some,
    ensures
        text == quoted((read_quoted(text)->0).0) + (read_quoted(text)->0).1,
        (read_quoted(text)->0).1.len() < text.len(),
{
    lemma_read_body_is_escaped(text.skip(1));
    let (item, rest) = read_quoted(text)->0;
    assert(text =~= seq!['"'] + text.skip(1));
    assert(text =~= quoted(item) + rest);
}

proof fn lemma_read_items_of_joined(items: Seq<Seq<char>>)
    requires
        items.len() >= 1,
    ensures
        read_items(joined(items) + seq![']']) == Some(items),
    decreases items.len(),
{
    let text = joined(items) + seq![']'];
    if items.len() == 1 {
        lemma_read_quoted_of_quoted(items[0], seq![']']);
        assert(seq![items[0]] =~= items);
    } else {
        let tail = items.drop_first();
        let after = seq![','] + (joined(tail) + seq![']']);
        assert(text =~= quoted(items[0]) + after);
        lemma_read_quoted_of_quoted(items[0], after);
        assert(after.skip(1) =~= joined(tail) + seq![']']);
        lemma_read_items_of_joined(tail);
        assert(after.len() < text.len());
        assert(seq![items[0]] + tail =~= items);
    }
}

proof fn lemma_read_items_is_joined(text: Seq<char>)
    requires
        read_items(text) is Some,
    ensures
        read_items(text)->0.len() >= 1,
        text == joined(read_items(text)->0) + seq![']'],
    decreases text.len(),
{
    let (item, rest) = read_quoted(text)->0;
    lemma_read_quoted_is_quoted(text);
    if rest.len() == 1 && rest[0] == ']' {
        assert(rest =~= seq![']']);
        assert(joined(seq![item]) == quoted(item));
    } else {
        let items = read_items(rest.skip(1))->0;
        lemma_read_items_is_joined(rest.skip(1));
        let all = seq![item] + items;
        assert(all[0] == item);
        assert(all.drop_first() =~= items);
        assert(rest =~= seq![','] + rest.skip(1));
        assert(text =~= joined(all) + seq![']']);
    }
}

/// A list of texts is read back from the JSON array that it was written as.
pub proof fn lemma_read_array_of_text(items: Seq<Seq<char>>)
    ensures
        read_array(array_text(items)) == Some(items),
{
    let text = array_text(items);
    assert(text[0] == '[');
    if items.len() == 0 {
        assert(text =~= seq!['[', ']']);
        assert(items =~= Seq::empty());
    } else {
        assert(text.skip(1) =~= joined(items) + seq![']']);
        lemma_read_items_of_joined(items);
        assert(quoted(items[0])[0] == '"');
        assert(joined(items)[0] == '"');
        assert(text[1] == '"');
    }
}

/// What is read as a JSON array of strings is written as it was read: only
/// the canonical form is read.
pub proof fn lemma_read_array_is_text(text: Seq<char>)
    requires
        read_array(text) is Some,
    ensures
        text == array_text(read_array(text)->0),
{
    if text.len() == 2 && text[1] == ']' {
        assert(text =~= array_text(Seq::empty()));
    } else {
        lemma_read_items_is_joined(text.skip(1));
        assert(text =~= seq!['['] + text.skip(1));
        assert(text =~= array_text(read_array(text)->0));
    }
}


/// Writing a text and one character more is writing the text and then the
/// character.
pub proof fn lemma_escaped_push(text: Seq<char>, c: char)
    ensures
        escaped(text.push(c)) == escaped(text) + escape_char(c),
    decreases text.len(),
{
    let whole = text.push(c);
    if text.len() == 0 {
        assert(whole.drop_first() =~= Seq::<char>::empty());
        assert(escaped(whole) =~= escape_char(c) + escaped(Seq::<char>::empty()));
        assert(escaped(whole) =~= escaped(text) + escape_char(c));
    } else {
        assert(whole.drop_first() =~= text.drop_first().push(c));
        lemma_escaped_push(text.drop_first(), c);
        assert(whole[0] == text[0]);
        assert(escaped(whole) =~= escaped(text) + escape_char(c));
    }
}

/// Appends a character as it stands inside a JSON string.
pub fn append_escaped_char(out: &mut String, c: char)
    ensures
        final(out)@ == old(out)@ + escape_char(c),
{
    if c == '"' {
        push_char(out, '\\');
        push_char(out, '"');
    } else if c == '\\' {
        push_char(out, '\\');
        push_char(out, '\\');
    } else if (c as u32) < 0x20 {
        let code: u8 = c as u8;
        push_char(out, '\\');
        push_char(out, 'u');
        push_char(out, '0');
        push_char(out, '0');
        push_char(out, digit(code / 16));
        push_char(out, digit(code % 16));
    } else {
        push_char(out, c);
    }
    assert(out@ =~= old(out)@ + escape_char(c));
}

/// Appends a text as it stands inside a JSON string.
pub fn append_escaped(out: &mut String, text: &str)
    ensures
        final(out)@ == old(out)@ + escaped(text@),
{
    assert(out@ =~= old(out)@ + escaped(text@.take(0)));
    for c in iter: text.chars()
        invariant
            iter.seq() == text@,
            out@ == old(out)@ + escaped(text@.take(iter.index() as int)),
    {
        proof {
            let i = iter.index() as int;
            assert(text@.take(i + 1) =~= text@.take(i).push(c));
            lemma_escaped_push(text@.take(i), c);
        }
        append_escaped_char(out, c);
        assert(out@ =~= old(out)@ + escaped(text@.take(iter.index() as int + 1)));
    }
    assert(text@.take(text@.len() as int) =~= text@);
}

/// Appends a text as a JSON string.
pub fn append_quoted(out: &mut String, text: &str)
    ensures
        final(out)@ == old(out)@ + quoted(text@),
{
    push_char(out, '"');
    append_escaped(out, text);
    push_char(out, '"');
    assert(out@ =~= old(out)@ + quoted(text@));
}

/// The contents of a list of texts.
pub open spec fn texts_view(texts: Seq<String>) -> Seq<Seq<char>> {
    Seq::new(texts.len(), |i: int| texts[i]@)
}

proof fn lemma_joined_push(texts: Seq<Seq<char>>, last: Seq<char>)
    requires
        texts.len() >= 1,
    ensures
        joined(texts.push(last)) == joined(texts) + seq![','] + quoted(last),
    decreases texts.len(),
{
    let whole = texts.push(last);
    assert(whole[0] == texts[0]);
    if texts.len() == 1 {
        assert(whole.drop_first() =~= seq![last]);
        assert(joined(seq![last]) == quoted(last));
    } else {
        assert(whole.drop_first() =~= texts.drop_first().push(last));
        lemma_joined_push(texts.drop_first(), last);
        assert(joined(whole) =~= joined(texts) + seq![','] + quoted(last));
    }
}

/// Writes texts as a JSON array of strings.
pub fn write_array(texts: &Vec<String>) -> (out: String)
    ensures
        out@ == array_text(texts_view(texts@)),
{
    let ghost all = texts_view(texts@);
    let mut out = String::new();
    push_char(&mut out, '[');
    let mut i: usize = 0;
    assert(out@ =~= seq!['['] + joined(all.take(0)));
    while i < texts.len()
        invariant
            i <= texts.len(),
            all == texts_view(texts@),
            out@ == seq!['['] + joined(all.take(i as int)),
        decreases texts.len() - i,
    {
        if i > 0 {
            push_char(&mut out, ',');
        }
        append_quoted(&mut out, texts[i].as_str());
        proof {
            assert(all.take(i as int + 1) =~= all.take(i as int).push(all[i as int]));
            if i > 0 {
                lemma_joined_push(all.take(i as int), all[i as int]);
            } else {
                assert(all.take(1).len() == 1);
                assert(all.take(1)[0] == all[0]);
            }
            assert(out@ =~= seq!['['] + joined(all.take(i as int + 1)));
        }
        i += 1;
    }
    assert(all.take(all.len() as int) =~= all);
    push_char(&mut out, ']');
    assert(out@ =~= array_text(all));
    out
}

/// `found` followed by what `more` finds.
pub open spec fn then_body(found: Seq<char>, more: Option<(Seq<char>, Seq<char>)>) -> Option<
    (Seq<char>, Seq<char>),
> {
    match more {
        Some((body, rest)) => Some((found + body, rest)),
        None => None,
    }
}

/// `found` followed by what `more` finds.
pub open spec fn then_items(found: Seq<Seq<char>>, more: Option<Seq<Seq<char>>>) -> Option<Seq<Seq<char>>> {
    match more {
        Some(items) => Some(found + items),
        None => None,
    }
}

/// Reads the character that stands at `at` inside a JSON string.
fn scan_char(input: &Vec<char>, at: usize) -> (found: Option<(char, usize)>)
    requires
        at <= input.len(),
    ensures
        match found {
            Some((c, used)) => read_char(input@.skip(at as int)) == Some((c, used as int)) && 1 <= used
                && at + used <= input.len(),
            None => read_char(input@.skip(at as int)) is None,
        },
{
    let ghost text = input@.skip(at as int);
    let left = input.len() - at;
    if left == 0 {
        return None;
    }
    let c = input[at];
    assert(text[0] == c);
    if c == '\\' {
        if left < 2 {
            return None;
        }
        let e = input[at + 1];
        assert(text[1] == e);
        if e == '"' {
            return Some(('"', 2));
        }
        if e == '\\' {
            return Some(('\\', 2));
        }
        if e != 'u' || left < 6 {
            return None;
        }
        assert(text[2] == input@[at + 2] && text[3] == input@[at + 3] && text[4] == input@[at + 4] && text[5]
            == input@[at + 5]);
        if input[at + 2] != '0' || input[at + 3] != '0' {
            return None;
        }
        let h = input[at + 4];
        let l = input[at + 5];
        let hi: u8 = if h == '0' {
            0
        } else if h == '1' {
            1
        } else {
            return None;
        };
        let lo: u8 = if '0' <= l && l <= '9' {
            (l as u32 - '0' as u32) as u8
        } else if 'a' <= l && l <= 'f' {
            (l as u32 - 'a' as u32 + 10) as u8
        } else {
            return None;
        };
        assert(hi == hex_value(h) && lo == hex_value(l));
        let code: u8 = hi * 16 + lo;
        Some((code as char, 6))
    } else if c == '"' || (c as u32) < 0x20 {
        None
    } else {
        Some((c, 1))
    }
}

/// Reads the body of a JSON string from `at` up to its closing quote.
fn scan_body(input: &Vec<char>, at: usize) -> (found: Option<(String, usize)>)
    requires
        at <= input.len(),
    ensures
        match found {
            Some((body, end)) => at < end <= input.len() && read_body(input@.skip(at as int)) == Some(
                (body@, input@.skip(end as int)),
            ),
            None => read_body(input@.skip(at as int)) is None,
        },
{
    let ghost whole = read_body(input@.skip(at as int));
    let mut body = String::new();
    let mut i: usize = at;
    assert(whole == then_body(body@, read_body(input@.skip(i as int)))) by {
        let r = read_body(input@.skip(at as int));
        if let Some((b, rest)) = r {
            assert(Seq::<char>::empty() + b =~= b);
        }
    }
    while i < input.len()
        invariant
            at <= i <= input.len(),
            whole == read_body(input@.skip(at as int)),
            whole == then_body(body@, read_body(input@.skip(i as int))),
        decreases input.len() - i,
    {
        let ghost text = input@.skip(i as int);
        assert(text[0] == input@[i as int]);
        if input[i] == '"' {
            assert(text.skip(1) =~= input@.skip(i as int + 1));
            assert(body@ + Seq::<char>::empty() =~= body@);
            return Some((body, i + 1));
        }
        match scan_char(input, i) {
            Some((c, used)) => {
                proof {
                    assert(text.skip(used as int) =~= input@.skip(i as int + used as int));
                    let more = read_body(input@.skip(i as int + used as int));
                    if let Some((b, rest)) = more {
                        assert(body@ + (seq![c] + b) =~= body@.push(c) + b);
                    }
                }
                push_char(&mut body, c);
                i = i + used;
            },
            None => {
                return None;
            },
        }
    }
    assert(input@.skip(i as int).len() == 0);
    None
}

/// Reads the JSON string that stands at `at`.
fn scan_quoted(input: &Vec<char>, at: usize) -> (found: Option<(String, usize)>)
    requires
        at <= input.len(),
    ensures
        match found {
            Some((item, end)) => at < end <= input.len() && read_quoted(input@.skip(at as int)) == Some(
                (item@, input@.skip(end as int)),
            ),
            None => read_quoted(input@.skip(at as int)) is None,
        },
{
    let ghost text = input@.skip(at as int);
    if at == input.len() {
        return None;
    }
    assert(text[0] == input@[at as int]);
    if input[at] != '"' {
        return None;
    }
    assert(text.skip(1) =~= input@.skip(at as int + 1));
    scan_body(input, at + 1)
}

/// Reads a JSON array of strings in canonical form.
pub fn scan_array(input: &Vec<char>) -> (found: Option<Vec<String>>)
    ensures
        match found {
            Some(items) => read_array(input@) == Some(texts_view(items@)),
            None => read_array(input@) is None,
        },
{
    let n = input.len();
    if n < 2 || input[0] != '[' {
        return None;
    }
    let mut items: Vec<String> = Vec::new();
    if n == 2 && input[1] == ']' {
        assert(texts_view(items@) =~= Seq::empty());
        return Some(items);
    }
    let ghost whole = read_items(input@.skip(1));
    let mut i: usize = 1;
    assert(whole == then_items(texts_view(items@), read_items(input@.skip(i as int)))) by {
        if let Some(found) = whole {
            assert(texts_view(items@) + found =~= found);
        }
    }
    assert(read_array(input@) == whole);
    while i < n
        invariant
            1 <= i <= n,
            n == input.len(),
            read_array(input@) == whole,
            whole == then_items(texts_view(items@), read_items(input@.skip(i as int))),
        decreases n - i,
    {
        let ghost text = input@.skip(i as int);
        let ghost so_far = texts_view(items@);
        match scan_quoted(input, i) {
            None => {
                return None;
            },
            Some((item, end)) => {
                let ghost rest = input@.skip(end as int);
                let ghost text_of_item = item@;
                proof {
                    lemma_read_quoted_is_quoted(text);
                }
                items.push(item);
                assert(texts_view(items@) =~= so_far.push(text_of_item));
                if end == n {
                    return None;
                }
                assert(rest[0] == input@[end as int]);
                if input[end] == ']' {
                    if end + 1 == n {
                        assert(so_far + seq![text_of_item] =~= so_far.push(text_of_item));
                        return Some(items);
                    } else {
                        return None;
                    }
                }
                if input[end] != ',' {
                    return None;
                }
                proof {
                    assert(rest.skip(1) =~= input@.skip(end as int + 1));
                    let more = read_items(input@.skip(end as int + 1));
                    if let Some(found) = more {
                        assert(so_far + (seq![text_of_item] + found) =~= so_far.push(text_of_item) + found);
                    }
                }
                i = end + 1;
            },
        }
    }
    assert(input@.skip(i as int).len() == 0);
    None
}

} // verus!
