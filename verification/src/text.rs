//! Text as sequences of characters: decimal and hexadecimal spelling, comparison and assembly.

use vstd::prelude::*;
use vstd::string::*;

verus! {

/// `String::push`: appends one character to the end of the string.
pub assume_specification[ String::push ](text: &mut String, character: char)
    ensures
        final(text)@ == old(text)@.push(character),
;

/// `String::push_str`: appends every character of a string slice to the end of the string.
pub assume_specification[ String::push_str ](text: &mut String, suffix: &str)
    ensures
        final(text)@ == old(text)@ + suffix@,
;

/// The decimal digit of a number below ten.
pub open spec fn digit(value: nat) -> char {
    (48 + value) as char
}

/// The decimal spelling of a number, without leading zeros.
pub open spec fn decimal(value: nat) -> Seq<char>
    decreases value,
{
    if value < 10 {
        seq![digit(value)]
    } else {
        decimal(value / 10).push(digit(value % 10))
    }
}

/// The lower-case hexadecimal digit of a number below sixteen.
pub open spec fn hex_digit(value: nat) -> char {
    if value < 10 {
        (48 + value) as char
    } else {
        (87 + value) as char
    }
}

/// The `width` low-order hexadecimal digits of a number, most significant digit first.
pub open spec fn hex(value: nat, width: nat) -> Seq<char>
    decreases width,
{
    if width == 0 {
        Seq::empty()
    } else {
        hex(value / 16, (width - 1) as nat).push(hex_digit(value % 16))
    }
}

pub fn push_decimal(out: &mut String, value: u64)
    ensures
        final(out)@ == old(out)@ + decimal(value as nat),
    decreases value,
{
    if value >= 10 {
        push_decimal(out, value / 10);
    }
    out.push((48u8 + (value % 10) as u8) as char);
    assert(out@ =~= old(out)@ + decimal(value as nat));
}

/// Appends the lower-case hexadecimal digit of `value`.
pub fn push_hex_digit(out: &mut String, value: u8)
    requires
        value < 16,
    ensures
        final(out)@ == old(out)@.push(hex_digit(value as nat)),
{
    if value < 10 {
        out.push((48u8 + value) as char);
    } else {
        out.push((87u8 + value) as char);
    }
}

pub fn push_hex(out: &mut String, value: u64, width: usize)
    ensures
        final(out)@ == old(out)@ + hex(value as nat, width as nat),
    decreases width,
{
    if width > 0 {
        push_hex(out, value / 16, width - 1);
        push_hex_digit(out, (value % 16) as u8);
    }
    assert(out@ =~= old(out)@ + hex(value as nat, width as nat));
}

/// Whether two texts are the same.
pub fn same_text(left: &str, right: &str) -> (same: bool)
    ensures
        same == (left@ == right@),
{
    left.to_owned() == right.to_owned()
}

/// The characters of a text.
pub fn characters(text: &str) -> (out: Vec<char>)
    ensures
        out@ == text@,
{
    let mut out: Vec<char> = Vec::new();
    for c in it: text.chars()
        invariant
            it.seq() == text@,
            out@ == text@.take(it.index()),
    {
        out.push(c);
        assert(text@.take(it.index() + 1) =~= text@.take(it.index()).push(c));
    }
    assert(out@ =~= text@);
    out
}

/// The text made of the characters `from..to`.
pub fn text_of(chars: &[char], from: usize, to: usize) -> (out: String)
    requires
        from <= to <= chars.len(),
    ensures
        out@ == chars@.subrange(from as int, to as int),
{
    let mut out = String::new();
    let mut i: usize = from;
    while i < to
        invariant
            from <= i <= to <= chars.len(),
            out@ == chars@.subrange(from as int, i as int),
        decreases to - i,
    {
        out.push(chars[i]);
        i = i + 1;
        assert(out@ =~= chars@.subrange(from as int, i as int));
    }
    out
}

/// The spelling of a character between single quotes, as the standard library's debug form gives it.
pub uninterp spec fn quoted_char(character: char) -> Seq<char>;

/// `char`'s `Debug` form, which quotes and escapes the character. The escapes themselves are those of
/// the standard library and are not spelled out here.
#[verifier::external_body]
fn debug_char(character: char) -> (text: String)
    ensures
        text@ == quoted_char(character),
{
    format!("{character:?}")
}

/// Appends a character between single quotes.
pub fn push_quoted(out: &mut String, character: char)
    ensures
        final(out)@ == old(out)@ + quoted_char(character),
{
    out.push_str(debug_char(character).as_str());
}

/// Whether `a` comes before `b` in the order of a dictionary.
pub open spec fn precedes(a: Seq<char>, b: Seq<char>) -> bool {
    exists|k: int| #[trigger] splits_at(a, b, k)
}

/// Whether `a` and `b` agree up to `k` and `a` is the smaller from there.
pub open spec fn splits_at(a: Seq<char>, b: Seq<char>, k: int) -> bool {
    &&& 0 <= k <= a.len()
    &&& k < b.len()
    &&& a.take(k) == b.take(k)
    &&& k == a.len() || a[k] < b[k]
}

pub proof fn lemma_precedes_irreflexive(a: Seq<char>)
    ensures
        !precedes(a, a),
{
}

pub proof fn lemma_precedes_transitive(a: Seq<char>, b: Seq<char>, c: Seq<char>)
    requires
        precedes(a, b),
        precedes(b, c),
    ensures
        precedes(a, c),
{
    let i = choose|k: int| splits_at(a, b, k);
    let j = choose|k: int| splits_at(b, c, k);
    if i <= j {
        assert(b.take(j).take(i) =~= b.take(i));
        assert(c.take(j).take(i) =~= c.take(i));
        if i < j {
            assert(b.take(j)[i] == c.take(j)[i]);
        }
        assert(splits_at(a, c, i));
    } else {
        assert(a.take(i).take(j) =~= a.take(j));
        assert(b.take(i).take(j) =~= b.take(j));
        assert(a.take(i)[j] == b.take(i)[j]);
        assert(splits_at(a, c, j));
    }
}

/// Whether one text comes before another in the order of a dictionary.
pub fn comes_before(left: &str, right: &str) -> (before: bool)
    ensures
        before == precedes(left@, right@),
        !before && left@ != right@ ==> precedes(right@, left@),
{
    let a = characters(left);
    let b = characters(right);
    let mut i: usize = 0;
    while i < a.len() && i < b.len() && a[i] == b[i]
        invariant
            i <= a.len(),
            i <= b.len(),
            a@ == left@,
            b@ == right@,
            a@.take(i as int) == b@.take(i as int),
        decreases a.len() - i,
    {
        assert(a@.take(i + 1) =~= a@.take(i as int).push(a@[i as int]));
        assert(b@.take(i + 1) =~= b@.take(i as int).push(b@[i as int]));
        i = i + 1;
    }
    let before = if i < b.len() {
        i == a.len() || a[i] < b[i]
    } else {
        false
    };
    proof {
        let at = i as int;
        if before {
            assert(splits_at(left@, right@, at));
        } else {
            assert forall|k: int| !splits_at(left@, right@, k) by {
                if splits_at(left@, right@, k) {
                    if k < at {
                        assert(a@.take(at)[k] == b@.take(at)[k]);
                    } else if k > at {
                        assert(a@.take(k)[at] == b@.take(k)[at]);
                    }
                }
            }
            if i == a.len() {
                assert(i == b.len());
                assert(a@ =~= a@.take(at));
                assert(b@ =~= b@.take(at));
            } else {
                assert(splits_at(right@, left@, at));
            }
        }
    }
    before
}

/// What strings say, in order.
pub open spec fn string_views(strings: Seq<String>) -> Seq<Seq<char>> {
    strings.map_values(|text: String| text@)
}

/// The parts of a text between separators; there is always at least one.
pub open spec fn parts(text: Seq<char>, separator: char) -> Seq<Seq<char>>
    decreases text.len(),
{
    if text.len() == 0 {
        seq![Seq::empty()]
    } else {
        let earlier = parts(text.drop_last(), separator);
        if text.last() == separator {
            earlier.push(Seq::empty())
        } else {
            earlier.drop_last().push(earlier.last().push(text.last()))
        }
    }
}

/// Whether a text begins with another.
pub open spec fn begins_with(text: Seq<char>, prefix: Seq<char>) -> bool {
    prefix.len() <= text.len() && text.take(prefix.len() as int) == prefix
}

pub proof fn lemma_parts_not_empty(text: Seq<char>, separator: char)
    ensures
        parts(text, separator).len() > 0,
    decreases text.len(),
{
    if text.len() > 0 {
        lemma_parts_not_empty(text.drop_last(), separator);
    }
}

/// A piece without separator only lengthens the last part.
pub proof fn lemma_parts_lengthen(text: Seq<char>, piece: Seq<char>, separator: char)
    requires
        forall|i: int| 0 <= i < piece.len() ==> #[trigger] piece[i] != separator,
    ensures
        parts(text + piece, separator) == parts(text, separator).drop_last().push(
            parts(text, separator).last() + piece,
        ),
    decreases piece.len(),
{
    let before = parts(text, separator);
    lemma_parts_not_empty(text, separator);
    if piece.len() == 0 {
        assert(text + piece =~= text);
        assert(before.last() + piece =~= before.last());
        assert(before.drop_last().push(before.last()) =~= before);
    } else {
        let shorter = piece.drop_last();
        assert forall|i: int| 0 <= i < shorter.len() implies #[trigger] shorter[i]
            != separator by {
            assert(shorter[i] == piece[i]);
        }
        lemma_parts_lengthen(text, shorter, separator);
        assert((text + piece).drop_last() =~= text + shorter);
        assert((text + piece).last() == piece[piece.len() - 1]);
        let middle = parts(text + shorter, separator);
        assert(middle.drop_last() =~= before.drop_last());
        assert(middle.last().push(piece.last()) =~= before.last() + piece);
    }
}

/// A separator starts a new part.
pub proof fn lemma_parts_separate(text: Seq<char>, separator: char)
    ensures
        parts(text.push(separator), separator) == parts(text, separator).push(Seq::empty()),
{
    assert(text.push(separator).drop_last() =~= text);
}

/// The parts of a text between separators.
pub fn split_parts(chars: &[char], separator: char) -> (out: Vec<String>)
    ensures
        string_views(out@) == parts(chars@, separator),
{
    let mut out: Vec<String> = Vec::new();
    let mut current = String::new();
    let mut i: usize = 0;
    assert(chars@.take(0) =~= Seq::<char>::empty());
    assert(string_views(out@).push(current@) =~= parts(chars@.take(0), separator));
    while i < chars.len()
        invariant
            i <= chars.len(),
            string_views(out@).push(current@) == parts(chars@.take(i as int), separator),
        decreases chars.len() - i,
    {
        let ghost earlier = string_views(out@);
        let ghost part = current@;
        let character = chars[i];
        proof {
            assert(chars@.take(i + 1).drop_last() =~= chars@.take(i as int));
            assert(earlier.push(part).drop_last() =~= earlier);
        }
        if character == separator {
            out.push(current);
            current = String::new();
            assert(string_views(out@) =~= earlier.push(part));
        } else {
            current.push(character);
        }
        i = i + 1;
    }
    let ghost earlier = string_views(out@);
    let ghost part = current@;
    out.push(current);
    assert(string_views(out@) =~= earlier.push(part));
    assert(chars@.take(i as int) =~= chars@);
    out
}

/// Whether characters begin with the characters of a text.
pub fn chars_begin_with(chars: &[char], prefix: &str) -> (begins: bool)
    ensures
        begins == begins_with(chars@, prefix@),
{
    let wanted = characters(prefix);
    if wanted.len() > chars.len() {
        return false;
    }
    let mut i: usize = 0;
    while i < wanted.len()
        invariant
            i <= wanted.len() <= chars.len(),
            wanted@ == prefix@,
            forall|j: int| 0 <= j < i ==> chars@[j] == prefix@[j],
        decreases wanted.len() - i,
    {
        if chars[i] != wanted[i] {
            assert(chars@.take(prefix@.len() as int)[i as int] != prefix@[i as int]);
            return false;
        }
        i = i + 1;
    }
    assert(chars@.take(prefix@.len() as int) =~= prefix@);
    true
}

/// `std::str::from_utf8`, copied into a string: a text exactly where the bytes are well-formed UTF-8,
/// and then the text that they encode.
#[verifier::external_body]
pub(crate) fn utf8_text(bytes: &[u8]) -> (text: Option<String>)
    ensures
        match text {
            Some(text) => vstd::utf8::valid_utf8(bytes@) && text@ == vstd::utf8::decode_utf8(
                bytes@,
            ),
            None => !vstd::utf8::valid_utf8(bytes@),
        },
{
    match std::str::from_utf8(bytes) {
        Ok(text) => Some(text.to_owned()),
        Err(_) => None,
    }
}

/// The spelling of a text between double quotes, as the standard library's debug form gives it.
pub uninterp spec fn quoted_text(text: Seq<char>) -> Seq<char>;

/// `str`'s `Debug` form, which quotes and escapes the text. The escapes themselves are those of the
/// standard library and are not spelled out here.
#[verifier::external_body]
fn debug_text(text: &str) -> (quoted: String)
    ensures
        quoted@ == quoted_text(text@),
{
    format!("{text:?}")
}

/// Whether a character has the Unicode property `White_Space`.
pub open spec fn white_space(character: char) -> bool {
    ||| '\u{9}' <= character <= '\u{d}'
    ||| character == ' '
    ||| character == '\u{85}'
    ||| character == '\u{a0}'
    ||| character == '\u{1680}'
    ||| '\u{2000}' <= character <= '\u{200a}'
    ||| character == '\u{2028}'
    ||| character == '\u{2029}'
    ||| character == '\u{202f}'
    ||| character == '\u{205f}'
    ||| character == '\u{3000}'
}

pub fn is_white_space(character: char) -> (white: bool)
    ensures
        white == white_space(character),
{
    ('\u{9}' <= character && character <= '\u{d}') || character == ' ' || character == '\u{85}'
        || character == '\u{a0}' || character == '\u{1680}' || ('\u{2000}' <= character && character
        <= '\u{200a}') || character == '\u{2028}' || character == '\u{2029}' || character
        == '\u{202f}' || character == '\u{205f}' || character == '\u{3000}'
}

/// Texts one after the other, a separator between any two.
pub open spec fn joined(items: Seq<Seq<char>>, separator: Seq<char>) -> Seq<char>
    decreases items.len(),
{
    if items.len() == 0 {
        Seq::empty()
    } else if items.len() == 1 {
        items[0]
    } else {
        joined(items.drop_last(), separator) + separator + items.last()
    }
}

/// Joins texts.
pub fn join(items: &[String], separator: &str) -> (out: String)
    ensures
        out@ == joined(string_views(items@), separator@),
{
    let mut out = String::new();
    let ghost views = string_views(items@);
    let mut i: usize = 0;
    assert(out@ =~= joined(views.take(0), separator@));
    while i < items.len()
        invariant
            i <= items@.len(),
            views == string_views(items@),
            out@ == joined(views.take(i as int), separator@),
        decreases items@.len() - i,
    {
        proof {
            assert(views.take(i + 1).drop_last() =~= views.take(i as int));
            assert(views.take(i + 1).last() == items@[i as int]@);
        }
        if i > 0 {
            out.push_str(separator);
        }
        out.push_str(items[i].as_str());
        i = i + 1;
        assert(out@ =~= joined(views.take(i as int), separator@));
    }
    assert(views.take(i as int) =~= views);
    out
}

/// Texts between double quotes, one after the other between brackets.
pub open spec fn quoted_list(
    items: Seq<Seq<char>>,
    opening: Seq<char>,
    closing: Seq<char>,
) -> Seq<char> {
    opening + joined(items.map_values(|item: Seq<char>| quoted_text(item)), ", "@) + closing
}

/// Lists texts between double quotes.
pub fn quote_list(items: &[String], opening: &str, closing: &str) -> (out: String)
    ensures
        out@ == quoted_list(string_views(items@), opening@, closing@),
{
    let mut quoted: Vec<String> = Vec::new();
    let ghost wanted = string_views(items@).map_values(|item: Seq<char>| quoted_text(item));
    let mut i: usize = 0;
    while i < items.len()
        invariant
            i <= items@.len(),
            wanted == string_views(items@).map_values(|item: Seq<char>| quoted_text(item)),
            string_views(quoted@) == wanted.take(i as int),
        decreases items@.len() - i,
    {
        let ghost before = string_views(quoted@);
        let text = debug_text(items[i].as_str());
        let ghost view = text@;
        quoted.push(text);
        i = i + 1;
        assert(string_views(quoted@) =~= before.push(view));
        assert(before.push(view) =~= wanted.take(i as int));
    }
    assert(wanted.take(i as int) =~= wanted);
    let mut out = opening.to_owned();
    out.push_str(join(quoted.as_slice(), ", ").as_str());
    out.push_str(closing);
    out
}

/// A line without the carriage return at its end.
pub open spec fn without_return(line: Seq<char>) -> Seq<char> {
    if line.len() > 0 && line.last() == '\r' {
        line.drop_last()
    } else {
        line
    }
}

/// The lines of a text: each ends with a line feed, or with a carriage return and a line feed; the
/// last may go without.
pub open spec fn lines(text: Seq<char>) -> Seq<Seq<char>> {
    let pieces = parts(text, '\n');
    let ended = pieces.drop_last().map_values(|line: Seq<char>| without_return(line));
    if pieces.last().len() == 0 {
        ended
    } else {
        ended.push(pieces.last())
    }
}

/// The lines of a text.
pub fn split_lines(text: &str) -> (out: Vec<String>)
    ensures
        string_views(out@) == lines(text@),
{
    let chars = characters(text);
    let pieces = split_parts(chars.as_slice(), '\n');
    let ghost views = parts(text@, '\n');
    proof {
        lemma_parts_not_empty(text@, '\n');
        assert(pieces@.len() == views.len());
    }
    let mut out: Vec<String> = Vec::new();
    let ghost ended = views.drop_last().map_values(|line: Seq<char>| without_return(line));
    let last: usize = pieces.len() - 1;
    let mut i: usize = 0;
    while i < last
        invariant
            i <= last,
            last + 1 == pieces@.len(),
            views == parts(text@, '\n'),
            views == string_views(pieces@),
            ended == views.drop_last().map_values(|line: Seq<char>| without_return(line)),
            string_views(out@) == ended.take(i as int),
        decreases last - i,
    {
        let ghost before = string_views(out@);
        assert(views[i as int] == pieces@[i as int]@);
        let line = characters(pieces[i].as_str());
        let kept: usize = if line.len() > 0 && line[line.len() - 1] == '\r' {
            line.len() - 1
        } else {
            line.len()
        };
        let stripped = text_of(line.as_slice(), 0, kept);
        let ghost view = stripped@;
        assert(view =~= without_return(views[i as int]));
        out.push(stripped);
        i = i + 1;
        assert(string_views(out@) =~= before.push(view));
        assert(before.push(view) =~= ended.take(i as int));
    }
    assert(ended.take(i as int) =~= ended);
    assert(views.last() == pieces@[last as int]@);
    let rest = characters(pieces[last].as_str());
    if rest.len() > 0 {
        let ghost before = string_views(out@);
        out.push(pieces[last].clone());
        assert(string_views(out@) =~= before.push(views.last()));
    }
    out
}

/// The words of a text so far, and the word that it ends in.
pub open spec fn word_runs(text: Seq<char>) -> (Seq<Seq<char>>, Seq<char>)
    decreases text.len(),
{
    if text.len() == 0 {
        (Seq::empty(), Seq::empty())
    } else {
        let (earlier, current) = word_runs(text.drop_last());
        if !white_space(text.last()) {
            (earlier, current.push(text.last()))
        } else if current.len() == 0 {
            (earlier, current)
        } else {
            (earlier.push(current), Seq::empty())
        }
    }
}

/// The words of a text: the runs of characters that are no white space.
pub open spec fn words(text: Seq<char>) -> Seq<Seq<char>> {
    let (earlier, current) = word_runs(text);
    if current.len() == 0 {
        earlier
    } else {
        earlier.push(current)
    }
}

/// The words of a text.
pub fn split_words(text: &str) -> (out: Vec<String>)
    ensures
        string_views(out@) == words(text@),
{
    let chars = characters(text);
    let mut out: Vec<String> = Vec::new();
    let mut current = String::new();
    let mut length: usize = 0;
    let mut i: usize = 0;
    assert(chars@.take(0) =~= Seq::<char>::empty());
    assert(string_views(out@) =~= Seq::<Seq<char>>::empty());
    assert(current@ =~= Seq::<char>::empty());
    while i < chars.len()
        invariant
            i <= chars.len(),
            chars@ == text@,
            length == current@.len(),
            length <= i,
            (string_views(out@), current@) == word_runs(chars@.take(i as int)),
        decreases chars.len() - i,
    {
        let ghost earlier = string_views(out@);
        let ghost word = current@;
        assert(chars@.take(i + 1).drop_last() =~= chars@.take(i as int));
        if !is_white_space(chars[i]) {
            current.push(chars[i]);
            length = length + 1;
        } else if length > 0 {
            out.push(current);
            current = String::new();
            length = 0;
            assert(string_views(out@) =~= earlier.push(word));
            assert(current@ =~= Seq::<char>::empty());
        }
        i = i + 1;
    }
    assert(chars@.take(i as int) =~= text@);
    if length > 0 {
        let ghost earlier = string_views(out@);
        let ghost word = current@;
        out.push(current);
        assert(string_views(out@) =~= earlier.push(word));
    }
    out
}

} // verus!
