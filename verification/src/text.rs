//! Text as sequences of characters: whitespace, trimming and lines.

use vstd::prelude::*;

verus! {

/// Whether `c` has the Unicode property White_Space.
pub open spec fn is_whitespace(c: char) -> bool {
    let code = c as u32;
    ||| 0x09 <= code <= 0x0D
    ||| code == 0x20
    ||| code == 0x85
    ||| code == 0xA0
    ||| code == 0x1680
    ||| 0x2000 <= code <= 0x200A
    ||| code == 0x2028
    ||| code == 0x2029
    ||| code == 0x202F
    ||| code == 0x205F
    ||| code == 0x3000
}

/// Whether every character of `s` is whitespace.
pub open spec fn is_blank(s: Seq<char>) -> bool {
    forall|i: int| 0 <= i < s.len() ==> is_whitespace(#[trigger] s[i])
}

/// Whether `c` has the Unicode property White_Space.
pub fn char_is_whitespace(c: char) -> (b: bool)
    ensures
        b == is_whitespace(c),
{
    let code: u32 = c as u32;
    (0x09 <= code && code <= 0x0D) || code == 0x20 || code == 0x85 || code == 0xA0 || code
        == 0x1680 || (0x2000 <= code && code <= 0x200A) || code == 0x2028 || code == 0x2029 || code
        == 0x202F || code == 0x205F || code == 0x3000
}

/// Whether every character of `chars` is whitespace.
pub fn all_whitespace(chars: &[char]) -> (b: bool)
    ensures
        b == is_blank(chars@),
{
    let mut i: usize = 0;
    while i < chars.len()
        invariant
            i <= chars@.len(),
            forall|j: int| 0 <= j < i ==> is_whitespace(#[trigger] chars@[j]),
        decreases chars.len() - i,
    {
        if !char_is_whitespace(chars[i]) {
            return false;
        }
        i += 1;
    }
    true
}

/// `s` without its leading whitespace.
pub open spec fn trim_start(s: Seq<char>) -> Seq<char>
    decreases s.len(),
{
    if s.len() > 0 && is_whitespace(s.first()) {
        trim_start(s.drop_first())
    } else {
        s
    }
}

/// `s` without its trailing whitespace.
pub open spec fn trim_end(s: Seq<char>) -> Seq<char>
    decreases s.len(),
{
    if s.len() > 0 && is_whitespace(s.last()) {
        trim_end(s.drop_last())
    } else {
        s
    }
}

/// `s` without its leading and trailing whitespace.
pub open spec fn trimmed(s: Seq<char>) -> Seq<char> {
    trim_end(trim_start(s))
}

/// Whether `s` neither begins nor ends with whitespace.
pub open spec fn is_trimmed(s: Seq<char>) -> bool {
    s.len() > 0 ==> !is_whitespace(s.first()) && !is_whitespace(s.last())
}

/// Leading whitespace ends at the first character that is none.
pub proof fn lemma_trim_start_at(s: Seq<char>, k: int)
    requires
        0 <= k <= s.len(),
        is_blank(s.take(k)),
        k < s.len() ==> !is_whitespace(s[k]),
    ensures
        trim_start(s) == s.skip(k),
    decreases k,
{
    if k == 0 {
        assert(s.skip(0) =~= s);
    } else {
        assert(s.take(k)[0] == s[0]);
        let rest = s.drop_first();
        assert forall|i: int| 0 <= i < rest.take(k - 1).len() implies is_whitespace(
            #[trigger] rest.take(k - 1)[i],
        ) by {
            assert(rest.take(k - 1)[i] == s.take(k)[i + 1]);
        }
        lemma_trim_start_at(rest, k - 1);
        assert(rest.skip(k - 1) =~= s.skip(k));
    }
}

/// Trailing whitespace begins after the last character that is none.
pub proof fn lemma_trim_end_at(s: Seq<char>, k: int)
    requires
        0 <= k <= s.len(),
        is_blank(s.skip(k)),
        k > 0 ==> !is_whitespace(s[k - 1]),
    ensures
        trim_end(s) == s.take(k),
    decreases s.len() - k,
{
    if k == s.len() {
        assert(s.take(k) =~= s);
    } else {
        assert(s.skip(k)[s.len() - k - 1] == s.last());
        let rest = s.drop_last();
        assert forall|i: int| 0 <= i < rest.skip(k).len() implies is_whitespace(
            #[trigger] rest.skip(k)[i],
        ) by {
            assert(rest.skip(k)[i] == s.skip(k)[i]);
        }
        lemma_trim_end_at(rest, k);
        assert(rest.take(k) =~= s.take(k));
    }
}

/// Where leading whitespace ends: what trimming the start keeps begins at the
/// index that is returned, with a character that is no whitespace.
pub proof fn lemma_trim_start_bound(s: Seq<char>) -> (k: int)
    ensures
        0 <= k <= s.len(),
        trim_start(s) == s.skip(k),
        k < s.len() ==> !is_whitespace(s[k]),
    decreases s.len(),
{
    if s.len() > 0 && is_whitespace(s.first()) {
        let k = lemma_trim_start_bound(s.drop_first());
        assert(s.drop_first().skip(k) =~= s.skip(k + 1));
        k + 1
    } else {
        assert(s.skip(0) =~= s);
        0
    }
}

/// Where trailing whitespace begins: what trimming the end keeps ends before
/// the index that is returned, with a character that is no whitespace.
pub proof fn lemma_trim_end_bound(s: Seq<char>) -> (k: int)
    ensures
        0 <= k <= s.len(),
        trim_end(s) == s.take(k),
        k > 0 ==> !is_whitespace(s[k - 1]),
    decreases s.len(),
{
    if s.len() > 0 && is_whitespace(s.last()) {
        let k = lemma_trim_end_bound(s.drop_last());
        assert(s.drop_last().take(k) =~= s.take(k));
        k
    } else {
        assert(s.take(s.len() as int) =~= s);
        s.len() as int
    }
}

/// What trimming keeps is a stretch of the text that neither begins nor ends
/// with whitespace. The bounds of the stretch are returned.
pub proof fn lemma_trimmed_bounds(s: Seq<char>) -> (bounds: (int, int))
    ensures
        0 <= bounds.0 <= bounds.1 <= s.len(),
        trimmed(s) == s.subrange(bounds.0, bounds.1),
        is_trimmed(trimmed(s)),
{
    let start = lemma_trim_start_bound(s);
    let rest = s.skip(start);
    let kept = lemma_trim_end_bound(rest);
    assert(rest.take(kept) =~= s.subrange(start, start + kept));
    (start, start + kept)
}

/// Trimming leaves a text alone that neither begins nor ends with whitespace.
pub proof fn lemma_trimmed_of_trimmed(s: Seq<char>)
    requires
        is_trimmed(s),
    ensures
        trimmed(s) == s,
{
}

/// Trimming twice is trimming once.
pub proof fn lemma_trimmed_twice(s: Seq<char>)
    ensures
        trimmed(trimmed(s)) == trimmed(s),
{
    lemma_trimmed_bounds(s);
    lemma_trimmed_of_trimmed(trimmed(s));
}

/// The characters of `s`, in order.
pub fn chars_of(s: &str) -> (chars: Vec<char>)
    ensures
        chars@ == s@,
{
    let mut chars: Vec<char> = Vec::new();
    for c in it: s.chars()
        invariant
            chars@ == it.seq().take(it.index()),
    {
        chars.push(c);
    }
    chars
}

/// The bounds of what trimming keeps of `chars`: the index of the first
/// character kept and the index after the last.
pub fn trim_bounds(chars: &[char]) -> (bounds: (usize, usize))
    ensures
        bounds.0 <= bounds.1 <= chars@.len(),
        trimmed(chars@) == chars@.subrange(bounds.0 as int, bounds.1 as int),
{
    let n = chars.len();
    let mut start: usize = 0;
    while start < n && char_is_whitespace(chars[start])
        invariant
            start <= n == chars@.len(),
            is_blank(chars@.take(start as int)),
        decreases n - start,
    {
        start += 1;
    }
    let mut end: usize = n;
    while end > start && char_is_whitespace(chars[end - 1])
        invariant
            start <= end <= n == chars@.len(),
            is_blank(chars@.skip(end as int)),
        decreases end,
    {
        proof {
            let shorter = chars@.skip(end - 1);
            assert forall|i: int| 0 <= i < shorter.len() implies is_whitespace(
                #[trigger] shorter[i],
            ) by {
                if i > 0 {
                    assert(shorter[i] == chars@.skip(end as int)[i - 1]);
                }
            }
        }
        end -= 1;
    }
    proof {
        lemma_trim_start_at(chars@, start as int);
        let rest = chars@.skip(start as int);
        assert(rest.skip(end - start) =~= chars@.skip(end as int));
        lemma_trim_end_at(rest, end - start);
        assert(rest.take(end - start) =~= chars@.subrange(start as int, end as int));
    }
    (start, end)
}

/// `s` without its leading and trailing whitespace.
pub fn trim<'a>(s: &'a str) -> (text: &'a str)
    ensures
        text@ == trimmed(s@),
{
    let chars = chars_of(s);
    let (start, end) = trim_bounds(chars.as_slice());
    s.substring_char(start, end)
}

/// The lowercase form of an ASCII capital letter; any other character as it
/// is.
pub open spec fn ascii_lowercase(c: char) -> char {
    if 0x41 <= c as u32 <= 0x5A {
        ((c as u32 + 0x20) as u8) as char
    } else {
        c
    }
}

/// `s` with its ASCII capital letters in lowercase.
pub open spec fn ascii_lowercased(s: Seq<char>) -> Seq<char> {
    s.map_values(|c: char| ascii_lowercase(c))
}

/// Whether `s` ends with `suffix`.
pub open spec fn ends_with(s: Seq<char>, suffix: Seq<char>) -> bool {
    s.len() >= suffix.len() && s.skip(s.len() - suffix.len()) == suffix
}

/// Whether `phrase` occurs in `s` at index `i`.
pub open spec fn phrase_at(s: Seq<char>, phrase: Seq<char>, i: int) -> bool {
    0 <= i <= s.len() - phrase.len() && s.subrange(i, i + phrase.len()) == phrase
}

/// Whether `phrase` occurs in `s`.
pub open spec fn has_phrase(s: Seq<char>, phrase: Seq<char>) -> bool {
    exists|i: int| phrase_at(s, phrase, i)
}

/// The lowercase form of an ASCII capital letter; any other character as it
/// is.
pub fn char_ascii_lowercase(c: char) -> (lower: char)
    ensures
        lower == ascii_lowercase(c),
{
    let code: u32 = c as u32;
    if 0x41 <= code && code <= 0x5A {
        ((code + 0x20) as u8) as char
    } else {
        c
    }
}

/// Whether `chars`, with its ASCII capital letters read as lowercase, ends
/// with `suffix`.
pub fn ends_with_lowercased(chars: &[char], suffix: &[char]) -> (b: bool)
    ensures
        b == ends_with(ascii_lowercased(chars@), suffix@),
{
    let n = chars.len();
    let m = suffix.len();
    if n < m {
        return false;
    }
    let ghost tail = ascii_lowercased(chars@).skip(n - m);
    let mut i: usize = 0;
    while i < m
        invariant
            i <= m <= n,
            n == chars@.len(),
            m == suffix@.len(),
            tail == ascii_lowercased(chars@).skip(n - m),
            forall|j: int| 0 <= j < i ==> tail[j] == suffix@[j],
        decreases m - i,
    {
        if char_ascii_lowercase(chars[n - m + i]) != suffix[i] {
            assert(tail[i as int] != suffix@[i as int]);
            return false;
        }
        i += 1;
    }
    assert(tail =~= suffix@);
    true
}

/// Whether `phrase` occurs in `chars`.
pub fn contains_phrase(chars: &[char], phrase: &[char]) -> (b: bool)
    ensures
        b == has_phrase(chars@, phrase@),
{
    let n = chars.len();
    let m = phrase.len();
    if n < m {
        return false;
    }
    let mut i: usize = 0;
    while i <= n - m
        invariant
            m <= n,
            n == chars@.len(),
            m == phrase@.len(),
            i <= n - m + 1,
            forall|k: int| 0 <= k < i ==> !phrase_at(chars@, phrase@, k),
        decreases n - m + 1 - i,
    {
        let mut j: usize = 0;
        while j < m && chars[i + j] == phrase[j]
            invariant
                m <= n,
                n == chars@.len(),
                m == phrase@.len(),
                i <= n - m,
                j <= m,
                forall|k: int| 0 <= k < j ==> chars@[i + k] == phrase@[k],
            decreases m - j,
        {
            j += 1;
        }
        if j == m {
            assert(chars@.subrange(i as int, i + m) =~= phrase@);
            assert(phrase_at(chars@, phrase@, i as int));
            return true;
        }
        assert(chars@.subrange(i as int, i + m)[j as int] != phrase@[j as int]);
        i += 1;
    }
    false
}

/// The number of characters of `s` before its first line feed; the length of
/// `s` where it holds none.
pub open spec fn line_len(s: Seq<char>) -> nat
    decreases s.len(),
{
    if s.len() == 0 || s.first() == '\n' {
        0
    } else {
        1 + line_len(s.drop_first())
    }
}

/// `line` without the carriage return at its end, if it has one.
pub open spec fn strip_cr(line: Seq<char>) -> Seq<char> {
    if line.len() > 0 && line.last() == '\r' {
        line.drop_last()
    } else {
        line
    }
}

/// The lines of `s`. A line ends at a line feed, or at a carriage return
/// directly followed by one; neither belongs to the line. What follows the
/// last line feed is a line too, unless it is empty.
pub open spec fn lines(s: Seq<char>) -> Seq<Seq<char>>
    decreases s.len(),
{
    if s.len() == 0 {
        seq![]
    } else {
        let n = line_len(s) as int;
        if n >= s.len() {
            seq![s]
        } else {
            seq![strip_cr(s.take(n))] + lines(s.skip(n + 1))
        }
    }
}

/// The last of `lines` that is not blank.
pub open spec fn last_non_blank(lines: Seq<Seq<char>>) -> Option<Seq<char>>
    decreases lines.len(),
{
    if lines.len() == 0 {
        None
    } else if is_blank(lines.last()) {
        last_non_blank(lines.drop_last())
    } else {
        Some(lines.last())
    }
}

/// The first line of `s` ends at its first line feed.
pub proof fn lemma_line_len_at(s: Seq<char>, n: int)
    requires
        0 <= n <= s.len(),
        forall|i: int| 0 <= i < n ==> s[i] != '\n',
        n < s.len() ==> s[n] == '\n',
    ensures
        line_len(s) == n,
    decreases n,
{
    if n > 0 {
        lemma_line_len_at(s.drop_first(), n - 1);
    }
}

/// No line feed stands before the end of the first line, and one stands at
/// its end unless the line ends with `s`.
pub proof fn lemma_line_len(s: Seq<char>)
    ensures
        line_len(s) <= s.len(),
        forall|i: int| 0 <= i < line_len(s) ==> s[i] != '\n',
        line_len(s) < s.len() ==> s[line_len(s) as int] == '\n',
    decreases s.len(),
{
    if s.len() > 0 && s.first() != '\n' {
        let rest = s.drop_first();
        lemma_line_len(rest);
        assert forall|i: int| 0 <= i < line_len(s) implies s[i] != '\n' by {
            if i > 0 {
                assert(s[i] == rest[i - 1]);
            }
        }
    }
}

/// A line added behind whole lines comes out as the last line: as it is where
/// nothing follows it, and without its carriage return where a line feed
/// does.
pub proof fn lemma_lines_push(before: Seq<char>, line: Seq<char>)
    requires
        before.len() > 0 ==> before.last() == '\n',
        !line.contains('\n'),
    ensures
        line.len() > 0 ==> lines(before + line) == lines(before).push(line),
        lines(before + line + seq!['\n']) == lines(before).push(strip_cr(line)),
    decreases before.len(),
{
    let open = before + line;
    let closed = before + line + seq!['\n'];
    if before.len() == 0 {
        assert(open =~= line);
        assert forall|i: int| 0 <= i < line.len() implies line[i] != '\n' by {
            if line[i] == '\n' {
                assert(line.contains('\n'));
            }
        }
        lemma_line_len_at(line, line.len() as int);
        lemma_line_len_at(closed, line.len() as int);
        assert(closed.take(line.len() as int) =~= line);
        assert(closed.skip(line.len() as int + 1) =~= Seq::<char>::empty());
        assert(before =~= Seq::<char>::empty());
        assert(lines(Seq::<char>::empty()) =~= Seq::<Seq<char>>::empty());
        assert(lines(closed) =~= lines(before).push(strip_cr(line)));
        if line.len() > 0 {
            assert(lines(open) =~= lines(before).push(line));
        }
    } else {
        lemma_line_len(before);
        let n = line_len(before) as int;
        let first = strip_cr(before.take(n));
        let rest = before.skip(n + 1);
        assert(n < before.len());
        lemma_line_len_at(open, n);
        lemma_line_len_at(closed, n);
        assert(open.take(n) =~= before.take(n));
        assert(closed.take(n) =~= before.take(n));
        assert(open.skip(n + 1) =~= rest + line);
        assert(closed.skip(n + 1) =~= rest + line + seq!['\n']);
        if rest.len() > 0 {
            assert(rest.last() == before.last());
        }
        lemma_lines_push(rest, line);
        assert(lines(before) == seq![first] + lines(rest));
        assert(lines(closed) =~= lines(before).push(strip_cr(line)));
        if line.len() > 0 {
            assert(lines(open) =~= lines(before).push(line));
        }
    }
}

/// A line of a blank text is blank.
pub proof fn lemma_lines_of_blank(content: Seq<char>)
    requires
        is_blank(content),
    ensures
        forall|i: int| 0 <= i < lines(content).len() ==> is_blank(#[trigger] lines(content)[i]),
    decreases content.len(),
{
    if content.len() > 0 {
        lemma_line_len(content);
        let n = line_len(content) as int;
        if n < content.len() {
            let first = strip_cr(content.take(n));
            let rest = content.skip(n + 1);
            assert forall|i: int| 0 <= i < first.len() implies is_whitespace(#[trigger] first[i]) by {
                assert(first[i] == content[i]);
            }
            assert forall|i: int| 0 <= i < rest.len() implies is_whitespace(#[trigger] rest[i]) by {
                assert(rest[i] == content[i + n + 1]);
            }
            lemma_lines_of_blank(rest);
            assert forall|i: int| 0 <= i < lines(content).len() implies is_blank(
                #[trigger] lines(content)[i],
            ) by {
                if i > 0 {
                    assert(lines(content)[i] == lines(rest)[i - 1]);
                }
            }
        }
    }
}

/// Among blank lines there is none that is not blank.
pub proof fn lemma_no_prompt_among_blank_lines(all: Seq<Seq<char>>)
    requires
        forall|i: int| 0 <= i < all.len() ==> is_blank(#[trigger] all[i]),
    ensures
        last_non_blank(all) is None,
    decreases all.len(),
{
    if all.len() > 0 {
        assert(is_blank(all[all.len() - 1]));
        assert forall|i: int| 0 <= i < all.drop_last().len() implies is_blank(
            #[trigger] all.drop_last()[i],
        ) by {
            assert(all.drop_last()[i] == all[i]);
        }
        lemma_no_prompt_among_blank_lines(all.drop_last());
    }
}

/// The last line of `s`, where that line begins at `start`: what stands from
/// there up to the end, without the line feed at the end and the carriage
/// return before it, where they are there.
pub open spec fn last_line(s: Seq<char>, start: int) -> Seq<char> {
    if s.last() == '\n' {
        strip_cr(s.subrange(start, s.len() - 1))
    } else {
        s.subrange(start, s.len() as int)
    }
}

/// The lines of a text are the lines before its last line, and its last
/// line, which begins at `start`.
pub proof fn lemma_last_line(s: Seq<char>, start: int)
    requires
        s.len() > 0,
        0 <= start <= s.len(),
        start > 0 ==> s[start - 1] == '\n',
        forall|i: int| start <= i < s.len() - 1 ==> s[i] != '\n',
        s.last() == '\n' ==> start < s.len(),
    ensures
        lines(s) == lines(s.take(start)).push(last_line(s, start)),
{
    let before = s.take(start);
    if s.last() == '\n' {
        let body = s.subrange(start, s.len() - 1);
        if body.contains('\n') {
            let i = choose|i: int| 0 <= i < body.len() && body[i] == '\n';
            assert(s[start + i] == '\n');
        }
        lemma_lines_push(before, body);
        assert(s =~= before + body + seq!['\n']);
    } else {
        let body = s.subrange(start, s.len() as int);
        if body.contains('\n') {
            let i = choose|i: int| 0 <= i < body.len() && body[i] == '\n';
            assert(s[start + i] == '\n');
        }
        if start == s.len() {
            assert(s[start - 1] == s.last());
        }
        lemma_lines_push(before, body);
        assert(s =~= before + body);
    }
}

/// Where the last line of the first `end` characters of `s` ends, when it
/// begins at `start`: before the line feed at the end and the carriage return
/// before that, where they are there.
pub open spec fn last_line_end(s: Seq<char>, start: int, end: int) -> int {
    if s[end - 1] != '\n' {
        end
    } else if end - 1 > start && s[end - 2] == '\r' {
        end - 2
    } else {
        end - 1
    }
}

/// Looking for the last line that is not blank among the first `end`
/// characters of a text comes down to its last line, which begins at `start`:
/// that line is the one, or a blank line to be passed over.
pub proof fn lemma_last_line_counts(s: Seq<char>, start: int, end: int)
    requires
        0 <= start <= end <= s.len(),
        end > 0,
        start > 0 ==> s[start - 1] == '\n',
        forall|i: int| start <= i < end - 1 ==> s[i] != '\n',
        s[end - 1] == '\n' ==> start < end,
    ensures
        last_non_blank(lines(s.take(end))) == if is_blank(
            s.subrange(start, last_line_end(s, start, end)),
        ) {
            last_non_blank(lines(s.take(start)))
        } else {
            Some(s.subrange(start, last_line_end(s, start, end)))
        },
{
    let shown = s.take(end);
    lemma_last_line(shown, start);
    assert(shown.take(start) =~= s.take(start));
    assert(last_line(shown, start) =~= s.subrange(start, last_line_end(s, start, end)));
    let all = lines(shown);
    assert(all.drop_last() =~= lines(s.take(start)));
}

/// The bounds in `chars` of its last line that is not blank: the index of the
/// line's first character and the index after its last. `None` where every
/// line is blank.
pub fn last_non_blank_line(chars: &[char]) -> (bounds: Option<(usize, usize)>)
    ensures
        match bounds {
            Some((start, end)) => start <= end <= chars@.len() && last_non_blank(lines(chars@))
                == Some(chars@.subrange(start as int, end as int)),
            None => last_non_blank(lines(chars@)) is None,
        },
{
    let mut end: usize = chars.len();
    assert(chars@.take(end as int) =~= chars@);
    while end > 0
        invariant
            end <= chars@.len(),
            last_non_blank(lines(chars@)) == last_non_blank(lines(chars@.take(end as int))),
        decreases end,
    {
        let terminated = chars[end - 1] == '\n';
        let body_end = if terminated {
            end - 1
        } else {
            end
        };
        let mut start: usize = body_end;
        while start > 0 && chars[start - 1] != '\n'
            invariant
                start <= body_end <= chars@.len(),
                forall|i: int| start <= i < body_end ==> chars@[i] != '\n',
            decreases start,
        {
            start -= 1;
        }
        let line_end = if terminated && body_end > start && chars[body_end - 1] == '\r' {
            body_end - 1
        } else {
            body_end
        };
        proof {
            lemma_last_line_counts(chars@, start as int, end as int);
        }
        if !all_whitespace(vstd::slice::slice_subrange(chars, start, line_end)) {
            return Some((start, line_end));
        }
        end = start;
    }
    assert(chars@.take(0) =~= Seq::<char>::empty());
    None
}

} // verus!
