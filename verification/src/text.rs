//! Reading and cutting text as sequences of characters.

use vstd::prelude::*;
use vstd::string::*;

verus! {

/// Position of the first occurrence of `c` in `text`, or its length when there is none.
pub open spec fn first_at(text: Seq<char>, c: char) -> nat
    decreases text.len(),
{
    if text.len() == 0 {
        0
    } else if text[0] == c {
        0
    } else {
        1 + first_at(text.drop_first(), c)
    }
}

/// `first_at` points at the first `c`, and everything before it differs from `c`.
pub proof fn lemma_first_at(text: Seq<char>, c: char)
    ensures
        first_at(text, c) <= text.len(),
        first_at(text, c) < text.len() ==> text[first_at(text, c) as int] == c,
        forall|i: int| 0 <= i < first_at(text, c) ==> text[i] != c,
    decreases text.len(),
{
    if text.len() > 0 && text[0] != c {
        let rest = text.drop_first();
        lemma_first_at(rest, c);
        assert forall|i: int| 0 <= i < first_at(text, c) implies text[i] != c by {
            if i > 0 {
                assert(text[i] == rest[i - 1]);
            }
        }
        if first_at(text, c) < text.len() {
            assert(text[first_at(text, c) as int] == rest[first_at(rest, c) as int]);
        }
    }
}

/// A position that holds `c` with no `c` before it is the one that `first_at` names.
pub proof fn lemma_first_at_unique(text: Seq<char>, c: char, at: nat)
    requires
        at <= text.len(),
        at < text.len() ==> text[at as int] == c,
        forall|i: int| 0 <= i < at ==> text[i] != c,
    ensures
        first_at(text, c) == at,
{
    lemma_first_at(text, c);
    let found = first_at(text, c);
    if found < at {
        assert(text[found as int] != c);
    } else if at < found {
        assert(text[at as int] != c);
    }
}

/// The characters of `s`, in order.
pub fn chars_of(s: &str) -> (chars: Vec<char>)
    ensures
        chars@ == s@,
{
    let mut chars: Vec<char> = Vec::new();
    for c in walk: s.chars()
        invariant
            chars@ == walk.seq().take(walk.index() as int),
            walk.seq() == s@,
    {
        chars.push(c);
    }
    chars
}

/// Position of the first `c` in `chars`, or the length when there is none.
pub fn find_char(chars: &[char], c: char) -> (at: usize)
    ensures
        at == first_at(chars@, c),
        at <= chars@.len(),
{
    let mut at: usize = 0;
    while at < chars.len() && chars[at] != c
        invariant
            at <= chars@.len(),
            forall|i: int| 0 <= i < at ==> chars@[i] != c,
        decreases chars@.len() - at,
    {
        at = at + 1;
    }
    proof {
        lemma_first_at_unique(chars@, c, at as nat);
    }
    at
}

/// The part of `s` from character `from` up to character `to`.
pub fn cut(s: &str, from: usize, to: usize) -> (part: String)
    requires
        from <= to <= s@.len(),
    ensures
        part@ == s@.subrange(from as int, to as int),
{
    s.substring_char(from, to).to_owned()
}

/// Whether `s` reads `expected`.
pub fn reads(s: &str, expected: &str) -> (equal: bool)
    ensures
        equal == (s@ == expected@),
{
    s.to_owned() == expected.to_owned()
}

/// Whether `a` comes before `b` in the order of dictionaries, character by character.
pub open spec fn before(a: Seq<char>, b: Seq<char>) -> bool
    decreases a.len(),
{
    if b.len() == 0 {
        false
    } else if a.len() == 0 {
        true
    } else if a[0] != b[0] {
        (a[0] as int) < (b[0] as int)
    } else {
        before(a.drop_first(), b.drop_first())
    }
}

/// The order of dictionaries puts each of two different texts before the other one way only.
pub proof fn lemma_before_total(a: Seq<char>, b: Seq<char>)
    ensures
        a == b ==> !before(a, b),
        a != b ==> before(a, b) != before(b, a),
    decreases a.len(),
{
    if a.len() == 0 || b.len() == 0 {
        if a.len() == 0 && b.len() == 0 {
            assert(a =~= b);
        }
    } else if a[0] == b[0] {
        lemma_before_total(a.drop_first(), b.drop_first());
        if a.drop_first() == b.drop_first() {
            assert(a =~= seq![a[0]] + a.drop_first());
            assert(b =~= seq![b[0]] + b.drop_first());
            assert(a == b);
        }
    } else {
        assert(a[0] as int != b[0] as int);
    }
}

/// The order of dictionaries is transitive.
pub proof fn lemma_before_transitive(a: Seq<char>, b: Seq<char>, c: Seq<char>)
    requires
        before(a, b),
        before(b, c),
    ensures
        before(a, c),
    decreases a.len(),
{
    if a.len() > 0 && a[0] == b[0] && b[0] == c[0] {
        lemma_before_transitive(a.drop_first(), b.drop_first(), c.drop_first());
    }
}

/// Whether `a` comes before `b` in the order of dictionaries.
pub fn precedes(a: &str, b: &str) -> (earlier: bool)
    ensures
        earlier == before(a@, b@),
{
    let left: Vec<char> = chars_of(a);
    let right: Vec<char> = chars_of(b);
    let mut i: usize = 0;
    proof {
        assert(left@.skip(0) =~= left@);
        assert(right@.skip(0) =~= right@);
    }
    while i < left.len() && i < right.len() && left[i] == right[i]
        invariant
            i <= left@.len(),
            i <= right@.len(),
            left@ == a@,
            right@ == b@,
            before(a@, b@) == before(left@.skip(i as int), right@.skip(i as int)),
        decreases left@.len() - i,
    {
        proof {
            assert(left@.skip(i as int).drop_first() =~= left@.skip(i + 1));
            assert(right@.skip(i as int).drop_first() =~= right@.skip(i + 1));
        }
        i = i + 1;
    }
    if i >= right.len() {
        false
    } else if i >= left.len() {
        true
    } else {
        let x: char = left[i];
        let y: char = right[i];
        proof {
            vstd::utf8::char_u32_cast(x, x as u32);
            vstd::utf8::char_u32_cast(y, y as u32);
            assert(left@.skip(i as int)[0] == x);
            assert(right@.skip(i as int)[0] == y);
        }
        (x as u32) < (y as u32)
    }
}

/// The decimal digit for a number below ten.
pub open spec fn digit(n: nat) -> char {
    if n == 0 {
        '0'
    } else if n == 1 {
        '1'
    } else if n == 2 {
        '2'
    } else if n == 3 {
        '3'
    } else if n == 4 {
        '4'
    } else if n == 5 {
        '5'
    } else if n == 6 {
        '6'
    } else if n == 7 {
        '7'
    } else if n == 8 {
        '8'
    } else {
        '9'
    }
}

/// A number in decimal digits.
pub open spec fn decimal(n: nat) -> Seq<char>
    decreases n,
{
    if n < 10 {
        seq![digit(n)]
    } else {
        decimal(n / 10).push(digit(n % 10))
    }
}

fn digit_text(n: u64) -> (text: &'static str)
    requires
        n < 10,
    ensures
        text@ == seq![digit(n as nat)],
{
    proof {
        reveal_strlit("0");
        reveal_strlit("1");
        reveal_strlit("2");
        reveal_strlit("3");
        reveal_strlit("4");
        reveal_strlit("5");
        reveal_strlit("6");
        reveal_strlit("7");
        reveal_strlit("8");
        reveal_strlit("9");
    }
    if n == 0 {
        "0"
    } else if n == 1 {
        "1"
    } else if n == 2 {
        "2"
    } else if n == 3 {
        "3"
    } else if n == 4 {
        "4"
    } else if n == 5 {
        "5"
    } else if n == 6 {
        "6"
    } else if n == 7 {
        "7"
    } else if n == 8 {
        "8"
    } else {
        "9"
    }
}

/// A number in decimal digits.
pub fn decimal_text(n: u64) -> (text: String)
    ensures
        text@ == decimal(n as nat),
    decreases n,
{
    if n < 10 {
        digit_text(n).to_owned()
    } else {
        let mut text: String = decimal_text(n / 10);
        let ghost head = text@;
        text.append(digit_text(n % 10));
        assert(text@ =~= head.push(digit((n % 10) as nat)));
        text
    }
}

/// One text after another.
pub fn join(head: &str, tail: &str) -> (text: String)
    ensures
        text@ == head@ + tail@,
{
    let mut text: String = head.to_owned();
    text.append(tail);
    text
}

/// Whether a character is white space.
pub open spec fn is_space(c: char) -> bool {
    ||| '\u{9}' <= c <= '\u{d}'
    ||| c == ' '
    ||| c == '\u{85}'
    ||| c == '\u{a0}'
    ||| c == '\u{1680}'
    ||| '\u{2000}' <= c <= '\u{200a}'
    ||| c == '\u{2028}'
    ||| c == '\u{2029}'
    ||| c == '\u{202f}'
    ||| c == '\u{205f}'
    ||| c == '\u{3000}'
}

fn is_white(c: char) -> (white: bool)
    ensures
        white == is_space(c),
{
    ('\u{9}' <= c && c <= '\u{d}') || c == ' ' || c == '\u{85}' || c == '\u{a0}' || c == '\u{1680}'
        || ('\u{2000}' <= c && c <= '\u{200a}') || c == '\u{2028}' || c == '\u{2029}' || c
        == '\u{202f}' || c == '\u{205f}' || c == '\u{3000}'
}

/// A text without the white space at its start.
pub open spec fn trim_start(text: Seq<char>) -> Seq<char>
    decreases text.len(),
{
    if text.len() > 0 && is_space(text[0]) {
        trim_start(text.drop_first())
    } else {
        text
    }
}

/// A text without the white space at its end.
pub open spec fn trim_end(text: Seq<char>) -> Seq<char>
    decreases text.len(),
{
    if text.len() > 0 && is_space(text.last()) {
        trim_end(text.drop_last())
    } else {
        text
    }
}

/// A text without the white space around it.
pub open spec fn trimmed(text: Seq<char>) -> Seq<char> {
    trim_end(trim_start(text))
}

/// A text without the white space around it.
pub fn trim(s: &str) -> (part: String)
    ensures
        part@ == trimmed(s@),
{
    let chars: Vec<char> = chars_of(s);
    let len: usize = chars.len();
    let mut from: usize = 0;
    proof {
        assert(chars@.skip(0) =~= chars@);
    }
    while from < len && is_white(chars[from])
        invariant
            from <= len,
            len == chars@.len(),
            trim_start(chars@) == trim_start(chars@.skip(from as int)),
        decreases len - from,
    {
        proof {
            assert(chars@.skip(from as int)[0] == chars@[from as int]);
            assert(chars@.skip(from as int).drop_first() =~= chars@.skip(from + 1));
        }
        from = from + 1;
    }
    let mut to: usize = len;
    proof {
        if from < len {
            assert(chars@.skip(from as int)[0] == chars@[from as int]);
        }
        assert(trim_start(chars@) == chars@.skip(from as int));
        assert(chars@.skip(from as int) =~= chars@.subrange(from as int, to as int));
    }
    while to > from && is_white(chars[to - 1])
        invariant
            from <= to <= len,
            len == chars@.len(),
            trimmed(chars@) == trim_end(chars@.subrange(from as int, to as int)),
        decreases to,
    {
        proof {
            let part = chars@.subrange(from as int, to as int);
            assert(part.last() == chars@[to - 1]);
            assert(part.drop_last() =~= chars@.subrange(from as int, to - 1));
        }
        to = to - 1;
    }
    proof {
        let part = chars@.subrange(from as int, to as int);
        if to > from {
            assert(part.last() == chars@[to - 1]);
        }
    }
    cut(s, from, to)
}

/// The lines of a text; the last one may lack its end.
pub open spec fn lines(text: Seq<char>) -> Seq<Seq<char>>
    decreases text.len(),
{
    if text.len() == 0 {
        Seq::empty()
    } else {
        let end = first_at(text, '\n');
        if end >= text.len() {
            seq![text]
        } else {
            seq![text.take(end as int)] + lines(text.skip(end as int + 1))
        }
    }
}

/// The views of some texts.
pub open spec fn views(texts: Seq<String>) -> Seq<Seq<char>> {
    texts.map_values(|text: String| text@)
}

/// The lines of a text; the last one may lack its end.
pub fn split_lines(s: &str) -> (parts: Vec<String>)
    ensures
        views(parts@) == lines(s@),
{
    let chars: Vec<char> = chars_of(s);
    let len: usize = chars.len();
    let mut parts: Vec<String> = Vec::new();
    let mut from: usize = 0;
    proof {
        assert(chars@.skip(0) =~= chars@);
        assert(views(parts@) =~= Seq::empty());
        assert(views(parts@) + lines(chars@.skip(0)) =~= lines(chars@));
    }
    while from < len
        invariant
            from <= len,
            len == chars@.len(),
            chars@ == s@,
            lines(s@) == views(parts@) + lines(chars@.skip(from as int)),
        decreases len - from,
    {
        let ghost rest = chars@.skip(from as int);
        let mut end: usize = from;
        while end < len && chars[end] != '\n'
            invariant
                from <= end <= len,
                len == chars@.len(),
                forall|i: int| from <= i < end ==> chars@[i] != '\n',
            decreases len - end,
        {
            end = end + 1;
        }
        let ghost shown = views(parts@);
        parts.push(cut(s, from, end));
        proof {
            lemma_first_at_unique(rest, '\n', (end - from) as nat);
            assert(views(parts@) =~= shown.push(chars@.subrange(from as int, end as int)));
            if end < len {
                assert(rest.take(end - from) =~= chars@.subrange(from as int, end as int));
                assert(rest.skip(end - from + 1) =~= chars@.skip(end + 1));
                assert(lines(rest) == seq![rest.take(end - from)] + lines(
                    rest.skip(end - from + 1),
                ));
            } else {
                assert(rest =~= chars@.subrange(from as int, end as int));
                assert(lines(rest) == seq![rest]);
                assert(lines(chars@.skip(len as int)) =~= Seq::empty());
            }
            assert(lines(s@) =~= views(parts@) + lines(
                chars@.skip(if end < len {
                    end + 1
                } else {
                    len as int
                }),
            ));
        }
        if end < len {
            from = end + 1;
        } else {
            from = len;
        }
    }
    proof {
        assert(chars@.skip(from as int) =~= Seq::empty());
        assert(lines(s@) =~= views(parts@));
    }
    parts
}

/// Whether a text starts with another.
pub open spec fn starts_with(text: Seq<char>, head: Seq<char>) -> bool {
    head.len() <= text.len() && text.take(head.len() as int) == head
}

/// A text without the occurrences of another, found from the start.
pub open spec fn without_all(text: Seq<char>, part: Seq<char>) -> Seq<char>
    decreases text.len(),
{
    if text.len() == 0 || part.len() == 0 {
        text
    } else if starts_with(text, part) {
        without_all(text.skip(part.len() as int), part)
    } else {
        seq![text[0]] + without_all(text.drop_first(), part)
    }
}

fn stands_at(chars: &Vec<char>, at: usize, part: &Vec<char>) -> (found: bool)
    requires
        at <= chars@.len(),
    ensures
        found == starts_with(chars@.skip(at as int), part@),
{
    let len: usize = chars.len();
    if part.len() > len - at {
        return false;
    }
    let mut j: usize = 0;
    while j < part.len()
        invariant
            j <= part@.len(),
            len == chars@.len(),
            at + part@.len() <= len,
            forall|k: int| 0 <= k < j ==> chars@[at + k] == #[trigger] part@[k],
        decreases part@.len() - j,
    {
        if chars[at + j] != part[j] {
            proof {
                let head = chars@.skip(at as int).take(part@.len() as int);
                assert(head[j as int] == chars@[at + j]);
            }
            return false;
        }
        j = j + 1;
    }
    assert(chars@.skip(at as int).take(part@.len() as int) =~= part@);
    true
}

/// A text without the occurrences of another, found from the start.
pub fn remove_all(s: &str, part: &str) -> (left: String)
    ensures
        left@ == without_all(s@, part@),
{
    let chars: Vec<char> = chars_of(s);
    let wanted: Vec<char> = chars_of(part);
    if wanted.len() == 0 {
        return s.to_owned();
    }
    let len: usize = chars.len();
    let mut left: String = String::new();
    let mut at: usize = 0;
    proof {
        assert(chars@.skip(0) =~= chars@);
        assert(left@ + without_all(chars@.skip(0), wanted@) =~= without_all(chars@, wanted@));
    }
    while at < len
        invariant
            at <= len,
            len == chars@.len(),
            chars@ == s@,
            wanted@ == part@,
            wanted@.len() > 0,
            without_all(s@, part@) == left@ + without_all(chars@.skip(at as int), wanted@),
        decreases len - at,
    {
        let ghost rest = chars@.skip(at as int);
        let ghost kept = left@;
        if stands_at(&chars, at, &wanted) {
            proof {
                assert(rest.skip(wanted@.len() as int) =~= chars@.skip(at + wanted@.len()));
            }
            at = at + wanted.len();
        } else {
            left.append(cut(s, at, at + 1).as_str());
            proof {
                assert(left@ =~= kept.push(rest[0]));
                assert(rest.drop_first() =~= chars@.skip(at + 1));
                assert(left@ + without_all(chars@.skip(at + 1), wanted@) =~= kept + (seq![rest[0]]
                    + without_all(rest.drop_first(), wanted@)));
            }
            at = at + 1;
        }
    }
    proof {
        assert(chars@.skip(at as int) =~= Seq::empty());
        assert(left@ + without_all(Seq::empty(), wanted@) =~= left@);
    }
    left
}

/// Position of the last occurrence of `c` in `text`, if there is one.
pub open spec fn last_at(text: Seq<char>, c: char) -> Option<nat>
    decreases text.len(),
{
    if text.len() == 0 {
        None
    } else if text.last() == c {
        Some((text.len() - 1) as nat)
    } else {
        last_at(text.drop_last(), c)
    }
}

/// Position of the last `c` in `chars`, if there is one.
pub fn find_last(chars: &[char], c: char) -> (at: Option<usize>)
    ensures
        match at {
            Some(i) => i < chars@.len() && last_at(chars@, c) == Some(i as nat),
            None => last_at(chars@, c) is None,
        },
{
    let mut end: usize = chars.len();
    proof {
        assert(chars@.take(end as int) =~= chars@);
    }
    while end > 0
        invariant
            end <= chars@.len(),
            last_at(chars@, c) == last_at(chars@.take(end as int), c),
        decreases end,
    {
        proof {
            assert(chars@.take(end as int).last() == chars@[end - 1]);
            assert(chars@.take(end as int).drop_last() =~= chars@.take(end - 1));
        }
        if chars[end - 1] == c {
            return Some(end - 1);
        }
        end = end - 1;
    }
    None
}

/// Texts are ordered by the first letter in which they differ, and a text comes before those that it
/// begins: `k` is the number of letters that the two have in common.
pub proof fn texts_are_ordered_letter_by_letter(a: Seq<char>, b: Seq<char>, k: int)
    requires
        0 <= k <= a.len(),
        k <= b.len(),
        forall|i: int| 0 <= i < k ==> #[trigger] a[i] == b[i],
    ensures
        k == a.len() && k < b.len() ==> before(a, b),
        k == b.len() ==> !before(a, b),
        k < a.len() && k < b.len() && a[k] != b[k] ==> before(a, b) == (a[k] < b[k]),
    decreases k,
{
    if k > 0 {
        assert(a[0] == b[0]);
        assert forall|i: int| 0 <= i < k - 1 implies #[trigger] a.drop_first()[i]
            == b.drop_first()[i] by {
            assert(a[i + 1] == b[i + 1]);
        }
        texts_are_ordered_letter_by_letter(a.drop_first(), b.drop_first(), k - 1);
    }
}

/// The number that decimal digits stand for.
pub open spec fn number(digits: Seq<char>) -> int
    decreases digits.len(),
{
    if digits.len() == 0 {
        0
    } else {
        10 * number(digits.drop_last()) + (digits.last() as int - '0' as int)
    }
}

/// A number in decimal is made of digits that stand for it, and does not begin with a zero, but for 0
/// itself.
pub proof fn a_decimal_stands_for_its_number(n: nat)
    ensures
        number(decimal(n)) == n,
        decimal(n).len() > 0,
        forall|i: int| 0 <= i < decimal(n).len() ==> '0' <= #[trigger] decimal(n)[i] <= '9',
        n > 0 ==> decimal(n)[0] != '0',
        n == 0 ==> decimal(n).len() == 1,
    decreases n,
{
    let d = (n % 10) as nat;
    assert('0' <= digit(d) <= '9' && digit(d) as int - '0' as int == d);
    if n < 10 {
        assert(decimal(n).drop_last() =~= Seq::empty());
        assert(number(Seq::<char>::empty()) == 0);
    } else {
        a_decimal_stands_for_its_number(n / 10);
        assert(decimal(n).drop_last() =~= decimal(n / 10));
        assert forall|i: int| 0 <= i < decimal(n).len() implies '0' <= #[trigger] decimal(n)[i]
            <= '9' by {
            if i < decimal(n / 10).len() {
                assert(decimal(n)[i] == decimal(n / 10)[i]);
            }
        }
        assert(decimal(n)[0] == decimal(n / 10)[0]);
    }
}

/// The ASCII letters, digits and signs are no white space; the blank, the tab and the ends of lines
/// are.
pub proof fn signs_are_no_white_space(c: char)
    ensures
        '!' <= c <= '~' ==> !is_space(c),
        c == ' ' || c == '\t' || c == '\n' || c == '\r' ==> is_space(c),
{
}

/// Whether all of a text is white space.
pub open spec fn is_blank(text: Seq<char>) -> bool {
    forall|i: int| 0 <= i < text.len() ==> is_space(#[trigger] text[i])
}

proof fn lemma_trim_start(text: Seq<char>) -> (from: int)
    ensures
        0 <= from <= text.len(),
        trim_start(text) == text.skip(from),
        is_blank(text.take(from)),
        from < text.len() ==> !is_space(text[from]),
    decreases text.len(),
{
    if text.len() > 0 && is_space(text[0]) {
        let from = lemma_trim_start(text.drop_first()) + 1;
        assert(text.drop_first().skip(from - 1) =~= text.skip(from));
        assert forall|i: int| 0 <= i < from implies is_space(#[trigger] text.take(from)[i]) by {
            if i > 0 {
                assert(text.drop_first().take(from - 1)[i - 1] == text[i]);
            }
        }
        from
    } else {
        assert(text.skip(0) =~= text);
        0
    }
}

proof fn lemma_trim_end(text: Seq<char>) -> (to: int)
    ensures
        0 <= to <= text.len(),
        trim_end(text) == text.take(to),
        is_blank(text.skip(to)),
        to > 0 ==> !is_space(text[to - 1]),
    decreases text.len(),
{
    if text.len() > 0 && is_space(text.last()) {
        let to = lemma_trim_end(text.drop_last());
        assert(text.drop_last().take(to) =~= text.take(to));
        assert forall|i: int| 0 <= i < text.len() - to implies is_space(
            #[trigger] text.skip(to)[i],
        ) by {
            if i < text.len() - to - 1 {
                assert(text.drop_last().skip(to)[i] == text[i + to]);
            }
        }
        to
    } else {
        assert(text.take(text.len() as int) =~= text);
        text.len() as int
    }
}

/// Whether a text is some part with white space before and behind it.
pub open spec fn padded(text: Seq<char>, part: Seq<char>, from: int) -> bool {
    &&& 0 <= from
    &&& from + part.len() <= text.len()
    &&& text.subrange(from, from + part.len()) == part
    &&& is_blank(text.take(from))
    &&& is_blank(text.skip(from + part.len()))
}

/// Trimming takes the white space at both ends away, and nothing else: what is left neither begins
/// nor ends with white space.
pub proof fn trimming_takes_outer_space_away(text: Seq<char>)
    ensures
        exists|from: int| #[trigger] padded(text, trimmed(text), from),
        trimmed(text).len() > 0 ==> !is_space(trimmed(text)[0]) && !is_space(trimmed(text).last()),
{
    let from = lemma_trim_start(text);
    let rest = text.skip(from);
    let to = lemma_trim_end(rest);
    assert(text.subrange(from, from + to) =~= rest.take(to));
    assert forall|i: int| 0 <= i < text.len() - from - to implies is_space(
        #[trigger] text.skip(from + to)[i],
    ) by {
        assert(rest.skip(to)[i] == text[from + to + i]);
    }
    assert(padded(text, trimmed(text), from));
    if to > 0 {
        assert(trimmed(text)[0] == text[from]);
        assert(trimmed(text).last() == rest[to - 1]);
    }
}

/// A text that neither begins nor ends with white space is what trimming leaves of it, whatever white
/// space is put around it.
pub proof fn added_space_is_trimmed(text: Seq<char>, part: Seq<char>, from: int)
    requires
        padded(text, part, from),
        part.len() > 0,
        !is_space(part[0]),
        !is_space(part.last()),
    ensures
        trimmed(text) == part,
{
    let first = lemma_trim_start(text);
    let to = from + part.len();
    assert(text[from] == part[0]) by {
        assert(text.subrange(from, to)[0] == part[0]);
    }
    assert(text[to - 1] == part.last()) by {
        assert(text.subrange(from, to)[part.len() - 1] == part.last());
    }
    assert(first == from) by {
        if first < from {
            assert(is_space(text.take(from)[first]));
        } else if first > from {
            assert(is_space(text.take(first)[from]));
        }
    }
    let rest = text.skip(from);
    let end = lemma_trim_end(rest);
    assert(end == part.len()) by {
        if end < part.len() {
            assert(is_space(rest.skip(end)[part.len() - 1 - end]));
        } else if end > part.len() {
            assert(rest[end - 1] == text.skip(to)[end - 1 - part.len()]);
        }
    }
    assert(rest.take(end) =~= text.subrange(from, to));
}

/// Lines, each with its end.
pub open spec fn joined(parts: Seq<Seq<char>>) -> Seq<char>
    decreases parts.len(),
{
    if parts.len() == 0 {
        Seq::empty()
    } else {
        parts[0].push('\n') + joined(parts.drop_first())
    }
}

/// The lines of a text, each with its end, are the text, with an end added if its last line has none;
/// and no line holds an end.
pub proof fn lines_make_up_the_text(text: Seq<char>)
    ensures
        text.len() == 0 || text.last() == '\n' ==> joined(lines(text)) == text,
        text.len() > 0 && text.last() != '\n' ==> joined(lines(text)) == text.push('\n'),
        forall|i: int|
            0 <= i < lines(text).len() ==> !(#[trigger] lines(text)[i]).contains('\n'),
    decreases text.len(),
{
    if text.len() > 0 {
        let end = first_at(text, '\n');
        lemma_first_at(text, '\n');
        if end >= text.len() {
            assert(lines(text) =~= seq![text]);
            assert(lines(text).drop_first() =~= Seq::empty());
            assert(joined(Seq::<Seq<char>>::empty()) =~= Seq::empty());
            assert(text.push('\n') + Seq::empty() =~= text.push('\n'));
            assert(text.last() == text[text.len() - 1]);
        } else {
            let line = text.take(end as int);
            let rest = text.skip(end as int + 1);
            lines_make_up_the_text(rest);
            assert(lines(text) =~= seq![line] + lines(rest));
            assert(lines(text)[0] == line);
            assert(lines(text).drop_first() =~= lines(rest));
            assert(line.push('\n') + rest =~= text);
            assert(line.push('\n') + rest.push('\n') =~= text.push('\n'));
            if rest.len() > 0 {
                assert(rest.last() == text.last());
            }
            assert forall|i: int| 0 <= i < lines(text).len() implies !(#[trigger] lines(
                text,
            )[i]).contains('\n') by {
                if i > 0 {
                    assert(lines(text)[i] == lines(rest)[i - 1]);
                }
            }
        }
    }
}

/// Taking a part out of a text takes out its first occurrence, leaves what stands before it, and goes
/// on behind it; a text without the part stays as it is. `at` is where the part first occurs.
pub proof fn a_part_is_taken_out_where_it_occurs(text: Seq<char>, part: Seq<char>, at: int)
    requires
        part.len() > 0,
        0 <= at <= text.len(),
        forall|i: int|
            #![trigger text.skip(i)]
            0 <= i < at && i + part.len() <= text.len() ==> text.skip(i).take(part.len() as int)
                != part,
        at < text.len() ==> at + part.len() <= text.len() && text.skip(at).take(part.len() as int)
            == part,
    ensures
        at == text.len() ==> without_all(text, part) == text,
        at < text.len() ==> without_all(text, part) == text.take(at) + without_all(
            text.skip(at + part.len()),
            part,
        ),
    decreases at,
{
    if at > 0 {
        let rest = text.drop_first();
        assert(text.skip(0) =~= text);
        assert forall|i: int|
            #![trigger rest.skip(i)]
            0 <= i < at - 1 && i + part.len() <= rest.len() implies rest.skip(i).take(
            part.len() as int,
        ) != part by {
            assert(rest.skip(i) =~= text.skip(i + 1));
        }
        assert(rest.skip(at - 1) =~= text.skip(at));
        a_part_is_taken_out_where_it_occurs(rest, part, at - 1);
        assert(!starts_with(text, part));
        if at == text.len() {
            assert(seq![text[0]] + rest =~= text);
        } else {
            assert(rest.skip(at - 1 + part.len()) =~= text.skip(at + part.len()));
            let left = without_all(text.skip(at + part.len()), part);
            assert(seq![text[0]] + (rest.take(at - 1) + left) =~= text.take(at) + left);
        }
    } else {
        assert(text.skip(0) =~= text);
        if text.len() > 0 {
            let left = without_all(text.skip(part.len() as int), part);
            assert(text.take(0) + left =~= left);
        }
    }
}

/// The last occurrence of a letter is one behind which there is no other.
pub proof fn the_last_occurrence_has_none_behind_it(text: Seq<char>, c: char)
    ensures
        match last_at(text, c) {
            Some(at) => at < text.len() && text[at as int] == c && forall|i: int|
                at < i < text.len() ==> text[i] != c,
            None => !text.contains(c),
        },
    decreases text.len(),
{
    if text.len() > 0 && text.last() != c {
        let shorter = text.drop_last();
        the_last_occurrence_has_none_behind_it(shorter, c);
        assert(text[text.len() - 1] != c);
        match last_at(text, c) {
            Some(at) => {
                assert forall|i: int| at < i < text.len() implies text[i] != c by {
                    if i < shorter.len() {
                        assert(shorter[i] == text[i]);
                    }
                }
            },
            None => {
                if text.contains(c) {
                    let i = text.index_of(c);
                    assert(text[i] == c);
                    assert(shorter[i] == c);
                }
            },
        }
    }
}

} // verus!
