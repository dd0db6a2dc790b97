//! Texts as character sequences: comparing, trimming, splitting and copying.

use vstd::prelude::*;
use vstd::string::*;
use vstd::utf8::*;

verus! {

/// Whether `c` has the Unicode property `White_Space`.
pub open spec fn is_white_space(c: char) -> bool {
    let u = c as u32;
    ||| 0x9 <= u <= 0xd
    ||| u == 0x20
    ||| u == 0x85
    ||| u == 0xa0
    ||| u == 0x1680
    ||| 0x2000 <= u <= 0x200a
    ||| u == 0x2028
    ||| u == 0x2029
    ||| u == 0x202f
    ||| u == 0x205f
    ||| u == 0x3000
}

/// `s` without its leading white space.
pub open spec fn trim_start(s: Seq<char>) -> Seq<char>
    decreases s.len(),
{
    if s.len() > 0 && is_white_space(s[0]) {
        trim_start(s.skip(1))
    } else {
        s
    }
}

/// `s` without its trailing white space.
pub open spec fn trim_end(s: Seq<char>) -> Seq<char>
    decreases s.len(),
{
    if s.len() > 0 && is_white_space(s.last()) {
        trim_end(s.drop_last())
    } else {
        s
    }
}

/// `s` without leading and trailing white space.
pub open spec fn trim(s: Seq<char>) -> Seq<char> {
    trim_end(trim_start(s))
}

/// `s` without its trailing occurrences of `c`.
pub open spec fn trim_end_char(s: Seq<char>, c: char) -> Seq<char>
    decreases s.len(),
{
    if s.len() > 0 && s.last() == c {
        trim_end_char(s.drop_last(), c)
    } else {
        s
    }
}

/// The index of the first `c` in `s`, or the length of `s` if there is none.
pub open spec fn first_index(s: Seq<char>, c: char) -> nat
    decreases s.len(),
{
    if s.len() == 0 || s[0] == c {
        0
    } else {
        1 + first_index(s.skip(1), c)
    }
}

/// `s` cut at its first `sep` characters into at most `limit` parts; the last
/// part keeps every `sep` that is left.
pub open spec fn split_limited(s: Seq<char>, limit: nat, sep: char) -> Seq<Seq<char>>
    decreases limit,
{
    let i = first_index(s, sep) as int;
    if limit == 0 {
        Seq::empty()
    } else if limit == 1 || i == s.len() {
        seq![s]
    } else {
        seq![s.take(i)] + split_limited(s.skip(i + 1), (limit - 1) as nat, sep)
    }
}

/// The characters of an optional text.
pub open spec fn opt_text(o: Option<&str>) -> Option<Seq<char>> {
    match o {
        Some(s) => Some(s@),
        None => None,
    }
}

/// The characters of an optional owned text.
pub open spec fn opt_string(o: Option<String>) -> Option<Seq<char>> {
    match o {
        Some(s) => Some(s@),
        None => None,
    }
}

/// The characters of some texts.
pub open spec fn texts(s: Seq<String>) -> Seq<Seq<char>> {
    Seq::new(s.len(), |i: int| s[i]@)
}

/// `first_index` is the least index that holds `c`.
pub proof fn lemma_first_index(s: Seq<char>, c: char)
    ensures
        first_index(s, c) <= s.len(),
        forall|j: int| 0 <= j < first_index(s, c) ==> s[j] != c,
        first_index(s, c) < s.len() ==> s[first_index(s, c) as int] == c,
    decreases s.len(),
{
    if s.len() > 0 && s[0] != c {
        lemma_first_index(s.skip(1), c);
        assert forall|j: int| 0 <= j < first_index(s, c) implies s[j] != c by {
            if j > 0 {
                assert(s[j] == s.skip(1)[j - 1]);
            }
        }
    }
}

/// The least index that holds `c` is `first_index`.
pub proof fn lemma_first_index_is(s: Seq<char>, c: char, i: int)
    requires
        0 <= i <= s.len(),
        forall|j: int| 0 <= j < i ==> s[j] != c,
        i < s.len() ==> s[i] == c,
    ensures
        first_index(s, c) == i,
{
    lemma_first_index(s, c);
    if first_index(s, c) < i {
        assert(s[first_index(s, c) as int] == c);
    }
}

/// Whether `c` is white space.
pub fn char_is_white_space(c: char) -> (r: bool)
    ensures
        r == is_white_space(c),
{
    let u: u32 = c as u32;
    (0x9 <= u && u <= 0xd) || u == 0x20 || u == 0x85 || u == 0xa0 || u == 0x1680 || (0x2000 <= u
        && u <= 0x200a) || u == 0x2028 || u == 0x2029 || u == 0x202f || u == 0x205f || u == 0x3000
}

/// The characters of `s`, one by one.
pub fn chars_of(s: &str) -> (r: Vec<char>)
    ensures
        r@ == s@,
{
    let mut out: Vec<char> = Vec::new();
    for c in it: s.chars()
        invariant
            out@ == s@.take(it.index() as int),
            it.seq() == s@,
    {
        out.push(c);
        assert(s@.take(it.index() as int).push(c) =~= s@.take(it.index() + 1));
    }
    assert(s@.take(s@.len() as int) =~= s@);
    out
}

/// Whether two texts hold the same characters.
pub fn same_text(a: &str, b: &str) -> (r: bool)
    ensures
        r == (a@ == b@),
{
    let x = a.as_bytes();
    let y = b.as_bytes();
    proof {
        encode_utf8_decode_utf8(a@);
        encode_utf8_decode_utf8(b@);
    }
    if x.len() != y.len() {
        return false;
    }
    let mut i: usize = 0;
    while i < x.len()
        invariant
            i <= x@.len(),
            x@.len() == y@.len(),
            forall|j: int| 0 <= j < i ==> x@[j] == y@[j],
            x@ == encode_utf8(a@),
            y@ == encode_utf8(b@),
        decreases x@.len() - i,
    {
        if x[i] != y[i] {
            return false;
        }
        i = i + 1;
    }
    assert(x@ =~= y@);
    true
}

/// `s` without leading and trailing white space.
pub fn trimmed<'a>(s: &'a str) -> (r: &'a str)
    ensures
        r@ == trim(s@),
{
    let chars = chars_of(s);
    let n: usize = chars.len();
    let mut start: usize = 0;
    assert(s@.skip(0) =~= s@);
    while start < n && char_is_white_space(chars[start])
        invariant
            start <= n,
            n == s@.len(),
            chars@ == s@,
            trim_start(s@) == trim_start(s@.skip(start as int)),
        decreases n - start,
    {
        assert(s@.skip(start as int).skip(1) =~= s@.skip(start + 1));
        start = start + 1;
    }
    assert(trim_start(s@) == s@.skip(start as int));
    let mut end: usize = n;
    assert(s@.subrange(start as int, end as int) =~= s@.skip(start as int));
    while start < end && char_is_white_space(chars[end - 1])
        invariant
            start <= end <= n,
            n == s@.len(),
            chars@ == s@,
            trim(s@) == trim_end(s@.subrange(start as int, end as int)),
        decreases end,
    {
        assert(s@.subrange(start as int, end as int).drop_last() =~= s@.subrange(
            start as int,
            end - 1,
        ));
        end = end - 1;
    }
    s.substring_char(start, end)
}

/// `s` without its trailing occurrences of `c`.
pub fn trimmed_end_char<'a>(s: &'a str, c: char) -> (r: &'a str)
    ensures
        r@ == trim_end_char(s@, c),
{
    let chars = chars_of(s);
    let mut end: usize = chars.len();
    assert(s@.take(s@.len() as int) =~= s@);
    while end > 0 && chars[end - 1] == c
        invariant
            end <= s@.len(),
            chars@ == s@,
            trim_end_char(s@, c) == trim_end_char(s@.take(end as int), c),
        decreases end,
    {
        assert(s@.take(end as int).drop_last() =~= s@.take(end - 1));
        end = end - 1;
    }
    assert(s@.take(end as int) =~= s@.subrange(0, end as int));
    s.substring_char(0, end)
}

/// The rest of `s` behind `prefix`, if `s` starts with it.
pub fn without_prefix<'a>(s: &'a str, prefix: &str) -> (r: Option<&'a str>)
    ensures
        r is Some <==> prefix@.is_prefix_of(s@),
        r matches Some(rest) ==> rest@ == s@.skip(prefix@.len() as int),
{
    let n: usize = s.unicode_len();
    let k: usize = prefix.unicode_len();
    if k > n {
        return None;
    }
    let head = s.substring_char(0, k);
    if same_text(head, prefix) {
        let rest = s.substring_char(k, n);
        assert(rest@ =~= s@.skip(k as int));
        Some(rest)
    } else {
        None
    }
}

/// Whether `s` ends with `suffix`.
pub fn has_suffix(s: &str, suffix: &str) -> (r: bool)
    ensures
        r == suffix@.is_suffix_of(s@),
{
    let n: usize = s.unicode_len();
    let k: usize = suffix.unicode_len();
    k <= n && same_text(s.substring_char(n - k, n), suffix)
}

/// The parts of `s` between its first `sep` characters, at most `limit` of them.
pub fn split_parts<'a>(s: &'a str, limit: usize, sep: char) -> (r: Vec<&'a str>)
    ensures
        r@.len() == split_limited(s@, limit as nat, sep).len(),
        forall|i: int| 0 <= i < r@.len() ==> (#[trigger] r@[i])@ == split_limited(s@, limit as nat, sep)[i],
{
    let chars = chars_of(s);
    let n: usize = chars.len();
    let mut out: Vec<&'a str> = Vec::new();
    let ghost parts = split_limited(s@, limit as nat, sep);
    if limit == 0 {
        return out;
    }
    let mut left: usize = limit;
    let mut start: usize = 0;
    let mut i: usize = 0;
    assert(s@.skip(0) =~= s@);
    while i < n && left > 1
        invariant
            start <= i <= n,
            n == s@.len(),
            chars@ == s@,
            1 <= left <= limit,
            parts == split_limited(s@, limit as nat, sep),
            forall|j: int| start <= j < i ==> s@[j] != sep,
            parts.len() == out@.len() + split_limited(s@.skip(start as int), left as nat, sep).len(),
            forall|k: int|
                0 <= k < out@.len() ==> (#[trigger] out@[k])@ == parts[k],
            forall|k: int|
                out@.len() <= k < parts.len() ==> parts[k] == #[trigger] split_limited(
                    s@.skip(start as int),
                    left as nat,
                    sep,
                )[k - out@.len()],
        decreases n - i,
    {
        if chars[i] == sep {
            let ghost rest = s@.skip(start as int);
            let ghost tail = split_limited(s@.skip(i + 1), (left - 1) as nat, sep);
            let ghost before = out@;
            proof {
                lemma_first_index_is(rest, sep, i - start);
                assert(rest.take(i - start) =~= s@.subrange(start as int, i as int));
                assert(rest.skip(i - start + 1) =~= s@.skip(i + 1));
                assert(split_limited(rest, left as nat, sep) == seq![rest.take(i - start)] + tail);
            }
            out.push(s.substring_char(start, i));
            proof {
                assert forall|k: int| 0 <= k < out@.len() implies (#[trigger] out@[k])@ == parts[k] by {
                    if k == before.len() {
                        assert(parts[k] == split_limited(rest, left as nat, sep)[k - before.len()]);
                    } else {
                        assert(out@[k] == before[k]);
                    }
                }
                assert forall|k: int| out@.len() <= k < parts.len() implies parts[k]
                    == #[trigger] tail[k - out@.len()] by {
                    assert(parts[k] == split_limited(rest, left as nat, sep)[k - before.len()]);
                }
            }
            start = i + 1;
            left = left - 1;
        }
        i = i + 1;
    }
    let ghost rest = s@.skip(start as int);
    proof {
        if left > 1 {
            lemma_first_index_is(rest, sep, n - start);
        }
        assert(split_limited(rest, left as nat, sep) == seq![rest]);
    }
    let ghost before = out@;
    out.push(s.substring_char(start, n));
    proof {
        assert(s@.subrange(start as int, n as int) =~= rest);
        assert forall|k: int| 0 <= k < out@.len() implies (#[trigger] out@[k])@ == parts[k] by {
            if k == before.len() {
                assert(parts[k] == split_limited(rest, left as nat, sep)[k - before.len()]);
            } else {
                assert(out@[k] == before[k]);
            }
        }
    }
    out
}

/// Borrows an optional text.
pub fn as_text(o: &Option<String>) -> (r: Option<&str>)
    ensures
        opt_text(r) == opt_string(*o),
{
    match o {
        Some(s) => Some(s.as_str()),
        None => None,
    }
}

/// Copies an optional text.
pub fn copied_text(o: &Option<String>) -> (r: Option<String>)
    ensures
        opt_string(r) == opt_string(*o),
{
    match o {
        Some(s) => Some(s.clone()),
        None => None,
    }
}

proof fn lemma_trim_start(before: Seq<char>, rest: Seq<char>)
    requires
        forall|i: int| 0 <= i < before.len() ==> is_white_space(#[trigger] before[i]),
        rest.len() == 0 || !is_white_space(rest[0]),
    ensures
        trim_start(before + rest) == rest,
    decreases before.len(),
{
    if before.len() == 0 {
        assert(before + rest =~= rest);
    } else {
        assert((before + rest)[0] == before[0]);
        assert((before + rest).skip(1) =~= before.skip(1) + rest);
        lemma_trim_start(before.skip(1), rest);
    }
}

proof fn lemma_trim_end(rest: Seq<char>, after: Seq<char>)
    requires
        forall|i: int| 0 <= i < after.len() ==> is_white_space(#[trigger] after[i]),
        rest.len() == 0 || !is_white_space(rest.last()),
    ensures
        trim_end(rest + after) == rest,
    decreases after.len(),
{
    if after.len() == 0 {
        assert(rest + after =~= rest);
    } else {
        assert((rest + after).last() == after[after.len() - 1]);
        assert((rest + after).drop_last() =~= rest + after.drop_last());
        lemma_trim_end(rest, after.drop_last());
    }
}

/// Trimming takes the white space at both ends of a text away, all of it, and
/// nothing else.
pub proof fn law_trimming_takes_white_space_only(
    before: Seq<char>,
    middle: Seq<char>,
    after: Seq<char>,
)
    requires
        forall|i: int| 0 <= i < before.len() ==> is_white_space(#[trigger] before[i]),
        forall|i: int| 0 <= i < after.len() ==> is_white_space(#[trigger] after[i]),
        middle.len() == 0 || (!is_white_space(middle[0]) && !is_white_space(middle.last())),
    ensures
        trim(before + middle + after) == middle,
{
    if middle.len() == 0 {
        let all = before + after;
        assert(before + middle + after =~= all + Seq::<char>::empty());
        lemma_trim_start(all, Seq::empty());
    } else {
        assert(before + middle + after =~= before + (middle + after));
        lemma_trim_start(before, middle + after);
        lemma_trim_end(middle, after);
    }
}

/// Some occurrences of one character.
pub open spec fn repeated(c: char, n: nat) -> Seq<char> {
    Seq::new(n, |i: int| c)
}

/// Trimming a character at the end takes all its occurrences there away, and
/// nothing else.
pub proof fn law_trimming_a_character_takes_it_only(s: Seq<char>, c: char, n: nat)
    requires
        s.len() == 0 || s.last() != c,
    ensures
        trim_end_char(s + repeated(c, n), c) == s,
    decreases n,
{
    if n == 0 {
        assert(s + repeated(c, n) =~= s);
    } else {
        let all = s + repeated(c, n);
        assert(all.last() == c);
        assert(all.drop_last() =~= s + repeated(c, (n - 1) as nat));
        law_trimming_a_character_takes_it_only(s, c, (n - 1) as nat);
    }
}

/// Parts with a separator between each two of them.
pub open spec fn joined(parts: Seq<Seq<char>>, sep: char) -> Seq<char>
    decreases parts.len(),
{
    if parts.len() == 0 {
        Seq::empty()
    } else if parts.len() == 1 {
        parts[0]
    } else {
        parts[0] + seq![sep] + joined(parts.skip(1), sep)
    }
}

/// A text that is cut loses nothing but the separators: its parts with separators
/// between them are the text. It is cut at every separator until the limit is
/// reached.
pub proof fn law_parts_make_the_text(s: Seq<char>, limit: nat, sep: char)
    requires
        limit > 0,
    ensures
        ({
            let parts = split_limited(s, limit, sep);
            &&& 1 <= parts.len() <= limit
            &&& joined(parts, sep) == s
            &&& forall|i: int| 0 <= i < parts.len() - 1 ==> !(#[trigger] parts[i]).contains(sep)
            &&& parts.len() < limit ==> !parts.last().contains(sep)
        }),
    decreases limit,
{
    let parts = split_limited(s, limit, sep);
    let i = first_index(s, sep) as int;
    lemma_first_index(s, sep);
    if limit > 1 && i < s.len() {
        let rest = split_limited(s.skip(i + 1), (limit - 1) as nat, sep);
        law_parts_make_the_text(s.skip(i + 1), (limit - 1) as nat, sep);
        assert(parts.skip(1) =~= rest);
        assert(s =~= s.take(i) + seq![sep] + s.skip(i + 1));
        assert forall|k: int| 0 <= k < parts.len() - 1 implies !(#[trigger] parts[k]).contains(
            sep,
        ) by {
            if k == 0 {
                assert(!s.take(i).contains(sep)) by {
                    if s.take(i).contains(sep) {
                        let j = choose|j: int| 0 <= j < s.take(i).len() && s.take(i)[j] == sep;
                        assert(s[j] == sep);
                    }
                }
            } else {
                assert(parts[k] == rest[k - 1]);
            }
        }
        assert(parts.last() == rest.last());
    } else {
        assert(parts =~= seq![s]);
        if limit > 1 {
            assert(!s.contains(sep));
        }
    }
}

/// The characters of optional texts are those of the texts, and none of none.
pub proof fn law_optional_texts_are_their_texts(owned: String, lent: &str)
    ensures
        opt_string(Some(owned)) == Some(owned@),
        opt_string(None) == None::<Seq<char>>,
        opt_text(Some(lent)) == Some(lent@),
        opt_text(None) == None::<Seq<char>>,
{
}

/// The characters of some texts are those of each text, in order.
pub proof fn law_texts_are_in_order(s: Seq<String>)
    ensures
        texts(s).len() == s.len(),
        forall|i: int| 0 <= i < s.len() ==> #[trigger] texts(s)[i] == s[i]@,
{
}

/// Whether a text holds nothing but white space.
pub open spec fn is_blank(s: Seq<char>) -> bool {
    forall|i: int| 0 <= i < s.len() ==> is_white_space(#[trigger] s[i])
}

/// Whether a text has no white space at its ends.
pub open spec fn is_tight(s: Seq<char>) -> bool {
    s.len() == 0 || (!is_white_space(s[0]) && !is_white_space(s.last()))
}

proof fn lemma_middle(s: Seq<char>) -> (r: (Seq<char>, Seq<char>, Seq<char>))
    ensures
        s == r.0 + r.1 + r.2,
        is_blank(r.0),
        is_tight(r.1),
        is_blank(r.2),
    decreases s.len(),
{
    let none = Seq::<char>::empty();
    if s.len() == 0 {
        assert(s =~= none + none + none);
        (none, none, none)
    } else if is_white_space(s[0]) {
        let (before, middle, after) = lemma_middle(s.skip(1));
        let first = seq![s[0]] + before;
        assert(s =~= seq![s[0]] + s.skip(1));
        assert(s =~= first + middle + after);
        assert(is_blank(first)) by {
            assert forall|i: int| 0 <= i < first.len() implies is_white_space(
                #[trigger] first[i],
            ) by {
                if i > 0 {
                    assert(first[i] == before[i - 1]);
                }
            }
        }
        (first, middle, after)
    } else if is_white_space(s.last()) {
        let (before, middle, after) = lemma_middle(s.drop_last());
        let last = after.push(s.last());
        assert(s =~= s.drop_last().push(s.last()));
        assert(s =~= before + middle + last);
        (before, middle, last)
    } else {
        assert(s =~= none + s + none);
        (none, s, none)
    }
}

/// Exactly the blank texts have nothing left when they are trimmed.
pub proof fn law_blank_texts_are_trimmed_away(s: Seq<char>)
    ensures
        trim(s).len() == 0 <==> is_blank(s),
{
    let (before, middle, after) = lemma_middle(s);
    law_trimming_takes_white_space_only(before, middle, after);
    if middle.len() == 0 {
        assert(is_blank(s)) by {
            assert forall|i: int| 0 <= i < s.len() implies is_white_space(#[trigger] s[i]) by {
                if i < before.len() {
                    assert(s[i] == before[i]);
                } else {
                    assert(s[i] == after[i - before.len()]);
                }
            }
        }
    } else {
        assert(s[before.len() as int] == middle[0]);
    }
}

/// Cutting a text whose first part holds no separator.
pub proof fn lemma_cut_first(head: Seq<char>, rest: Seq<char>, limit: nat, sep: char)
    requires
        !head.contains(sep),
        limit >= 2,
    ensures
        split_limited(head + seq![sep] + rest, limit, sep) == seq![head] + split_limited(
            rest,
            (limit - 1) as nat,
            sep,
        ),
{
    let s = head + seq![sep] + rest;
    assert forall|j: int| 0 <= j < head.len() implies s[j] != sep by {
        assert(s[j] == head[j]);
        assert(head.contains(head[j]));
    }
    lemma_first_index_is(s, sep, head.len() as int);
    assert(s.take(head.len() as int) =~= head);
    assert(s.skip(head.len() as int + 1) =~= rest);
}

/// A text without a separator is its only part.
pub proof fn lemma_cut_last(s: Seq<char>, limit: nat, sep: char)
    requires
        !s.contains(sep) || limit == 1,
        limit >= 1,
    ensures
        split_limited(s, limit, sep) == seq![s],
{
    lemma_first_index(s, sep);
    if first_index(s, sep) < s.len() {
        assert(s.contains(s[first_index(s, sep) as int]));
    }
}

} // verus!
