//! Lines as sequences of characters: trimming, splitting and comparing.

use vstd::prelude::*;
use vstd::string::StrSliceExecFns;

verus! {

/// Whether `c` is white space: one of the characters that Unicode gives the
/// property `White_Space`.
pub open spec fn is_whitespace(c: char) -> bool {
    ||| '\u{9}' <= c <= '\u{d}'
    ||| c == ' '
    ||| c == '\u{85}'
    ||| c == '\u{a0}'
    ||| c == '\u{1680}'
    ||| '\u{2000}' <= c <= '\u{200a}'
    ||| c == '\u{2028}'
    ||| c == '\u{2029}'
    ||| c == '\u{202f}'
    ||| c == '\u{205f}'
    ||| c == '\u{3000}'
}

/// `s` without the white space at its start.
pub open spec fn trim_start(s: Seq<char>) -> Seq<char>
    decreases s.len(),
{
    if s.len() > 0 && is_whitespace(s[0]) {
        trim_start(s.drop_first())
    } else {
        s
    }
}

/// `s` without the white space at its end.
pub open spec fn trim_end(s: Seq<char>) -> Seq<char>
    decreases s.len(),
{
    if s.len() > 0 && is_whitespace(s.last()) {
        trim_end(s.drop_last())
    } else {
        s
    }
}

/// `s` without the white space that surrounds it.
pub open spec fn trimmed(s: Seq<char>) -> Seq<char> {
    trim_end(trim_start(s))
}

/// The fields of `s`: the stretches between one `separator` and the next.
/// A text with `n` separators has `n + 1` fields, empty ones among them.
pub open spec fn split_on(s: Seq<char>, separator: char) -> Seq<Seq<char>>
    decreases s.len(),
{
    if s.len() == 0 {
        seq![Seq::empty()]
    } else {
        let before = split_on(s.drop_last(), separator);
        if s.last() == separator {
            before.push(Seq::empty())
        } else {
            before.drop_last().push(before.last().push(s.last()))
        }
    }
}

/// The fields `fields` in one text, with `separator` between each field and
/// the next.
pub open spec fn joined(fields: Seq<Seq<char>>, separator: char) -> Seq<char>
    decreases fields.len(),
{
    if fields.len() == 0 {
        Seq::empty()
    } else if fields.len() == 1 {
        fields[0]
    } else {
        joined(fields.drop_last(), separator) + seq![separator] + fields.last()
    }
}

/// Whether `s` begins with `prefix`.
pub open spec fn starts_with(s: Seq<char>, prefix: Seq<char>) -> bool {
    prefix.len() <= s.len() && s.take(prefix.len() as int) == prefix
}

/// The texts that a sequence of string slices stands for.
pub open spec fn slice_views(parts: Seq<&str>) -> Seq<Seq<char>> {
    parts.map_values(|part: &str| part@)
}

/// The texts that a sequence of strings stands for.
pub open spec fn line_views(lines: Seq<String>) -> Seq<Seq<char>> {
    lines.map_values(|line: String| line@)
}

/// Every text has at least one field.
pub proof fn lemma_split_on_nonempty(s: Seq<char>, separator: char)
    ensures
        split_on(s, separator).len() >= 1,
    decreases s.len(),
{
    if s.len() > 0 {
        lemma_split_on_nonempty(s.drop_last(), separator);
    }
}

/// A text without the separator is one field.
pub proof fn lemma_split_on_one_field(s: Seq<char>, separator: char)
    requires
        !s.contains(separator),
    ensures
        split_on(s, separator) == seq![s],
    decreases s.len(),
{
    if s.len() == 0 {
        assert(s =~= Seq::<char>::empty());
    } else {
        let shorter = s.drop_last();
        assert(!shorter.contains(separator)) by {
            if shorter.contains(separator) {
                let at = choose|at: int| 0 <= at < shorter.len() && shorter[at] == separator;
                assert(s[at] == separator);
            }
        }
        lemma_split_on_one_field(shorter, separator);
        assert(shorter.push(s.last()) =~= s);
        let before = seq![shorter];
        assert(before.drop_last() =~= Seq::<Seq<char>>::empty());
    }
}

/// A separator and a field without one, behind a text, add that field to
/// the fields of the text.
pub proof fn lemma_split_on_one_more(s: Seq<char>, field: Seq<char>, separator: char)
    requires
        !field.contains(separator),
    ensures
        split_on(s + seq![separator] + field, separator) == split_on(s, separator).push(field),
    decreases field.len(),
{
    let whole = s + seq![separator] + field;
    if field.len() == 0 {
        assert(whole.drop_last() =~= s);
        assert(field =~= Seq::<char>::empty());
    } else {
        let shorter = field.drop_last();
        assert(!shorter.contains(separator)) by {
            if shorter.contains(separator) {
                let at = choose|at: int| 0 <= at < shorter.len() && shorter[at] == separator;
                assert(field[at] == separator);
            }
        }
        lemma_split_on_one_more(s, shorter, separator);
        assert(whole.drop_last() =~= s + seq![separator] + shorter);
        assert(shorter.push(field.last()) =~= field);
        let before = split_on(s, separator).push(shorter);
        assert(before.drop_last() =~= split_on(s, separator));
    }
}

/// Splitting undoes joining: fields without the separator, joined by it,
/// are the fields of the joined text.
pub proof fn lemma_split_on_joined(fields: Seq<Seq<char>>, separator: char)
    requires
        fields.len() > 0,
        forall|i: int| 0 <= i < fields.len() ==> !(#[trigger] fields[i]).contains(separator),
    ensures
        split_on(joined(fields, separator), separator) == fields,
    decreases fields.len(),
{
    if fields.len() == 1 {
        lemma_split_on_one_field(fields[0], separator);
    } else {
        let shorter = fields.drop_last();
        assert forall|i: int| 0 <= i < shorter.len() implies !(#[trigger] shorter[i]).contains(
            separator,
        ) by {
            assert(shorter[i] == fields[i]);
        }
        lemma_split_on_joined(shorter, separator);
        lemma_split_on_one_more(joined(shorter, separator), fields.last(), separator);
    }
}

/// Joining undoes splitting: no field of a text holds the separator, and
/// the fields, joined by it, are the text.
pub proof fn lemma_joined_split_on(s: Seq<char>, separator: char)
    ensures
        joined(split_on(s, separator), separator) == s,
        forall|i: int|
            0 <= i < split_on(s, separator).len() ==> !(#[trigger] split_on(s, separator)[i]).contains(
                separator,
            ),
    decreases s.len(),
{
    let fields = split_on(s, separator);
    if s.len() == 0 {
        assert(s =~= Seq::<char>::empty());
    } else {
        let shorter = s.drop_last();
        let before = split_on(shorter, separator);
        lemma_joined_split_on(shorter, separator);
        lemma_split_on_nonempty(shorter, separator);
        assert(shorter.push(s.last()) =~= s);
        if s.last() == separator {
            assert(fields.drop_last() =~= before);
            assert forall|i: int| 0 <= i < fields.len() implies !(#[trigger] fields[i]).contains(
                separator,
            ) by {
                if i < before.len() {
                    assert(fields[i] == before[i]);
                }
            }
        } else {
            let grown = before.last().push(s.last());
            assert(!grown.contains(separator)) by {
                if grown.contains(separator) {
                    let at = choose|at: int| 0 <= at < grown.len() && grown[at] == separator;
                    assert(before.last()[at] == separator);
                }
            }
            assert forall|i: int| 0 <= i < fields.len() implies !(#[trigger] fields[i]).contains(
                separator,
            ) by {
                if i < before.len() - 1 {
                    assert(fields[i] == before[i]);
                }
            }
            if before.len() == 1 {
                assert(joined(fields, separator) =~= s);
            } else {
                assert(fields.drop_last() =~= before.drop_last());
            }
        }
    }
}

/// Every character of a text that is not the separator stands in one of its
/// fields.
pub proof fn lemma_split_on_keeps(s: Seq<char>, separator: char, c: char)
    requires
        s.contains(c),
        c != separator,
    ensures
        exists|k: int|
            0 <= k < split_on(s, separator).len() && (#[trigger] split_on(s, separator)[k]).contains(
                c,
            ),
    decreases s.len(),
{
    let at = choose|at: int| 0 <= at < s.len() && s[at] == c;
    let shorter = s.drop_last();
    let before = split_on(shorter, separator);
    let fields = split_on(s, separator);
    lemma_split_on_nonempty(shorter, separator);
    if at < s.len() - 1 {
        assert(shorter[at] == c);
        lemma_split_on_keeps(shorter, separator, c);
        let k = choose|k: int| 0 <= k < before.len() && (#[trigger] before[k]).contains(c);
        let inner = choose|inner: int| 0 <= inner < before[k].len() && before[k][inner] == c;
        if s.last() == separator {
            assert(fields[k] == before[k]);
        } else if k < before.len() - 1 {
            assert(fields[k] == before[k]);
        } else {
            assert(fields[k][inner] == c);
        }
    } else {
        let k = before.len() - 1;
        assert(fields[k][before[k].len() as int] == c);
    }
}

/// The characters of `s`, one by one.
pub fn chars_of(s: &str) -> (chars: Vec<char>)
    ensures
        chars@ == s@,
{
    let mut chars: Vec<char> = Vec::new();
    for c in it: s.chars()
        invariant
            it.seq() == s@,
            chars@ == it.seq().take(it.index() as int),
    {
        chars.push(c);
    }
    chars
}

/// Whether `c` is white space.
pub fn char_is_whitespace(c: char) -> (b: bool)
    ensures
        b == is_whitespace(c),
{
    ('\u{9}' <= c && c <= '\u{d}') || c == ' ' || c == '\u{85}' || c == '\u{a0}' || c
        == '\u{1680}' || ('\u{2000}' <= c && c <= '\u{200a}') || c == '\u{2028}' || c
        == '\u{2029}' || c == '\u{202f}' || c == '\u{205f}' || c == '\u{3000}'
}

/// `line` without the white space that surrounds it.
pub fn trim(line: &str) -> (inner: &str)
    ensures
        inner@ == trimmed(line@),
{
    let chars = chars_of(line);
    let mut first: usize = 0;
    assert(chars@.skip(0) =~= chars@);
    while first < chars.len() && char_is_whitespace(chars[first])
        invariant
            first <= chars.len(),
            trim_start(chars@) == trim_start(chars@.skip(first as int)),
        decreases chars.len() - first,
    {
        assert(chars@.skip(first as int).drop_first() =~= chars@.skip(first as int + 1));
        first = first + 1;
    }
    let ghost rest = chars@.skip(first as int);
    let mut end: usize = chars.len();
    assert(rest.take(end - first) =~= rest);
    while end > first && char_is_whitespace(chars[end - 1])
        invariant
            first <= end <= chars.len(),
            rest == chars@.skip(first as int),
            trim_end(rest) == trim_end(rest.take(end - first)),
        decreases end,
    {
        assert(rest.take(end - first).drop_last() =~= rest.take(end - first - 1));
        end = end - 1;
    }
    line.substring_char(first, end)
}

/// The fields of `line` between its occurrences of `separator`.
pub fn split_fields<'a>(line: &'a str, separator: char) -> (parts: Vec<&'a str>)
    ensures
        slice_views(parts@) == split_on(line@, separator),
{
    let chars = chars_of(line);
    let mut parts: Vec<&'a str> = Vec::new();
    let mut start: usize = 0;
    let mut index: usize = 0;
    assert(chars@.take(0) =~= Seq::<char>::empty());
    while index < chars.len()
        invariant
            chars@ == line@,
            start <= index <= chars.len(),
            slice_views(parts@).push(chars@.subrange(start as int, index as int)) == split_on(
                chars@.take(index as int),
                separator,
            ),
        decreases chars.len() - index,
    {
        let ghost fields = slice_views(parts@);
        let ghost upto = chars@.take(index as int + 1);
        assert(upto.drop_last() =~= chars@.take(index as int));
        if chars[index] == separator {
            let part = line.substring_char(start, index);
            parts.push(part);
            start = index + 1;
            assert(chars@.subrange(start as int, index as int + 1) =~= Seq::<char>::empty());
        } else {
            let ghost field = chars@.subrange(start as int, index as int);
            assert(field.push(chars@[index as int]) =~= chars@.subrange(
                start as int,
                index as int + 1,
            ));
        }
        index = index + 1;
    }
    let ghost fields = slice_views(parts@);
    let part = line.substring_char(start, index);
    parts.push(part);
    assert(chars@.take(index as int) =~= chars@);
    parts
}

/// Whether the characters `chars` begin with the text `prefix`.
pub fn begins_with(chars: &Vec<char>, prefix: &str) -> (b: bool)
    ensures
        b == starts_with(chars@, prefix@),
{
    let wanted = chars_of(prefix);
    if wanted.len() > chars.len() {
        return false;
    }
    let mut index: usize = 0;
    while index < wanted.len()
        invariant
            wanted@ == prefix@,
            wanted.len() <= chars.len(),
            index <= wanted.len(),
            chars@.take(index as int) == wanted@.take(index as int),
        decreases wanted.len() - index,
    {
        if chars[index] != wanted[index] {
            return false;
        }
        index = index + 1;
    }
    assert(wanted@.take(index as int) =~= wanted@);
    true
}

/// Whether two texts hold the same characters.
pub fn same_text(a: &str, b: &str) -> (same: bool)
    ensures
        same == (a@ == b@),
{
    let chars = chars_of(a);
    let same_start = begins_with(&chars, b);
    let wanted: usize = b.unicode_len();
    assert(chars@.take(chars@.len() as int) =~= chars@);
    same_start && chars.len() == wanted
}

} // verus!
