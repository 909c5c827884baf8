//! Text as a sequence of characters: the vocabulary every other module states its contracts in.

use vstd::prelude::*;

verus! {

/// `String::push` adds one character at the end and changes nothing else.
pub assume_specification[ String::push ](s: &mut String, c: char)
    ensures
        final(s)@ == old(s)@.push(c),
;

/// The characters of each string, in order.
pub open spec fn views(strings: Seq<String>) -> Seq<Seq<char>> {
    strings.map_values(|s: String| s@)
}

/// The characters of a string, as a vector that can be indexed.
pub fn chars_of(s: &str) -> (v: Vec<char>)
    ensures
        v@ == s@,
{
    let mut v: Vec<char> = Vec::new();
    for c in it: s.chars()
        invariant
            v@ == it.seq().take(it.index()),
            it.seq() == s@,
    {
        v.push(c);
    }
    v
}

/// The string a run of characters spells: those of `v` from `from` up to `to`.
pub fn text_between(v: &Vec<char>, from: usize, to: usize) -> (s: String)
    requires
        from <= to <= v@.len(),
    ensures
        s@ == v@.subrange(from as int, to as int),
{
    let mut s = String::new();
    let mut i: usize = from;
    while i < to
        invariant
            from <= i <= to <= v@.len(),
            s@ == v@.subrange(from as int, i as int),
        decreases to - i,
    {
        s.push(v[i]);
        i = i + 1;
    }
    s
}

/// The string a vector of characters spells.
pub fn text_of(v: &Vec<char>) -> (s: String)
    ensures
        s@ == v@,
{
    let s = text_between(v, 0, v.len());
    assert(v@.subrange(0, v@.len() as int) =~= v@);
    s
}

/// Whether two strings hold the same characters.
pub fn same(a: &str, b: &str) -> (r: bool)
    ensures
        r == (a@ == b@),
{
    a.to_owned() == b.to_owned()
}

/// Whether two lists of strings hold the same texts in the same order.
pub fn same_list(a: &Vec<String>, b: &Vec<String>) -> (r: bool)
    ensures
        r == (views(a@) == views(b@)),
{
    if a.len() != b.len() {
        assert(views(a@).len() != views(b@).len());
        return false;
    }
    let mut i: usize = 0;
    while i < a.len()
        invariant
            i <= a@.len(),
            a@.len() == b@.len(),
            forall|j: int| 0 <= j < i ==> a@[j]@ == b@[j]@,
        decreases a@.len() - i,
    {
        if !same(a[i].as_str(), b[i].as_str()) {
            assert(views(a@)[i as int] != views(b@)[i as int]);
            return false;
        }
        i = i + 1;
    }
    assert(views(a@) =~= views(b@));
    true
}

/// A list of the same strings.
pub fn copy_list(list: &Vec<String>) -> (r: Vec<String>)
    ensures
        r@ == list@,
{
    let mut r: Vec<String> = Vec::new();
    let mut i: usize = 0;
    while i < list.len()
        invariant
            i <= list@.len(),
            r@ == list@.take(i as int),
        decreases list@.len() - i,
    {
        r.push(list[i].clone());
        i = i + 1;
    }
    r
}

/// Whether `needle` stands in `s` at position `at`.
pub open spec fn stands_at(s: Seq<char>, needle: Seq<char>, at: int) -> bool {
    0 <= at && at + needle.len() <= s.len() && s.subrange(at, at + needle.len()) == needle
}

/// Whether `s` begins with `prefix`.
pub open spec fn begins_with(s: Seq<char>, prefix: Seq<char>) -> bool {
    stands_at(s, prefix, 0)
}

/// Whether `needle` stands anywhere in `s`.
pub open spec fn holds(s: Seq<char>, needle: Seq<char>) -> bool {
    exists|at: int| #[trigger] stands_at(s, needle, at)
}

/// Whether `needle` stands at position `at` of a vector of characters.
pub fn matches_at(v: &Vec<char>, needle: &Vec<char>, at: usize) -> (r: bool)
    ensures
        r == stands_at(v@, needle@, at as int),
{
    if at > v.len() || needle.len() > v.len() - at {
        return false;
    }
    let mut i: usize = 0;
    while i < needle.len()
        invariant
            i <= needle@.len(),
            at + needle@.len() <= v.len(),
            forall|j: int| 0 <= j < i ==> v@[at + j] == needle@[j],
        decreases needle@.len() - i,
    {
        if v[at + i] != needle[i] {
            assert(v@.subrange(at as int, at + needle@.len())[i as int] != needle@[i as int]);
            return false;
        }
        i = i + 1;
    }
    assert(v@.subrange(at as int, at + needle@.len()) =~= needle@);
    true
}

/// The first position at or after `from` where `needle` stands, if there is one.
pub open spec fn first_from(s: Seq<char>, needle: Seq<char>, from: int) -> Option<int>
    decreases s.len() + 1 - from,
{
    if from > s.len() {
        None
    } else if stands_at(s, needle, from) {
        Some(from)
    } else {
        first_from(s, needle, from + 1)
    }
}

/// What the first position is: `needle` stands there, and nowhere between `from` and there.
pub proof fn lemma_first_from(s: Seq<char>, needle: Seq<char>, from: int)
    requires
        0 <= from,
    ensures
        match first_from(s, needle, from) {
            Some(at) => {
                &&& from <= at
                &&& stands_at(s, needle, at)
                &&& forall|k: int| from <= k < at ==> !#[trigger] stands_at(s, needle, k)
            },
            None => forall|k: int| from <= k ==> !#[trigger] stands_at(s, needle, k),
        },
    decreases s.len() + 1 - from,
{
    if from > s.len() {
    } else if stands_at(s, needle, from) {
    } else {
        lemma_first_from(s, needle, from + 1);
    }
}

/// The first place `needle` stands at or after `from`.
pub fn find_from(v: &Vec<char>, needle: &Vec<char>, from: usize) -> (r: Option<usize>)
    ensures
        match r {
            Some(at) => first_from(v@, needle@, from as int) == Some(at as int),
            None => first_from(v@, needle@, from as int) is None,
        },
{
    let mut i: usize = from;
    while i < v.len()
        invariant
            from <= i,
            first_from(v@, needle@, from as int) == first_from(v@, needle@, i as int),
        decreases v@.len() - i,
    {
        if matches_at(v, needle, i) {
            return Some(i);
        }
        i = i + 1;
    }
    if i == v.len() && matches_at(v, needle, i) {
        return Some(i);
    }
    proof {
        reveal_with_fuel(first_from, 2);
    }
    None
}

/// The last position at or before `from` where `needle` stands, if there is one.
pub open spec fn last_before(s: Seq<char>, needle: Seq<char>, from: int) -> Option<int>
    decreases from + 1,
{
    if from < 0 {
        None
    } else if stands_at(s, needle, from) {
        Some(from)
    } else {
        last_before(s, needle, from - 1)
    }
}

/// The last position where `needle` stands, if there is one.
pub open spec fn last_at(s: Seq<char>, needle: Seq<char>) -> Option<int> {
    last_before(s, needle, s.len() as int)
}

/// The last place `needle` stands.
pub fn find_last(v: &Vec<char>, needle: &Vec<char>) -> (r: Option<usize>)
    ensures
        match r {
            Some(at) => last_at(v@, needle@) == Some(at as int) && at <= v@.len(),
            None => last_at(v@, needle@) is None,
        },
{
    let mut i: usize = v.len();
    loop
        invariant
            i <= v@.len(),
            last_at(v@, needle@) == last_before(v@, needle@, i as int),
        decreases i,
    {
        if matches_at(v, needle, i) {
            return Some(i);
        }
        if i == 0 {
            proof {
                reveal_with_fuel(last_before, 2);
            }
            return None;
        }
        i = i - 1;
    }
}

/// Whether one string begins with another.
pub fn has_prefix(s: &str, prefix: &str) -> (r: bool)
    ensures
        r == begins_with(s@, prefix@),
{
    let v = chars_of(s);
    let p = chars_of(prefix);
    matches_at(&v, &p, 0)
}

/// Whether one string stands anywhere in another.
pub fn contains(s: &str, needle: &str) -> (r: bool)
    ensures
        r == holds(s@, needle@),
{
    let v = chars_of(s);
    let p = chars_of(needle);
    proof {
        lemma_first_from(v@, p@, 0);
    }
    find_from(&v, &p, 0).is_some()
}

/// What is left of `s` behind `prefix`, where it begins with it.
pub fn without_prefix(s: &str, prefix: &str) -> (r: Option<String>)
    ensures
        match r {
            Some(rest) => begins_with(s@, prefix@) && rest@ == s@.skip(prefix@.len() as int),
            None => !begins_with(s@, prefix@),
        },
{
    let v = chars_of(s);
    let p = chars_of(prefix);
    if matches_at(&v, &p, 0) {
        let rest = text_between(&v, p.len(), v.len());
        assert(rest@ =~= s@.skip(prefix@.len() as int));
        Some(rest)
    } else {
        None
    }
}

/// An ASCII capital as the small letter it pairs with; any other character as it is.
pub open spec fn ascii_lower(c: char) -> char {
    if 'A' <= c <= 'Z' {
        (c as int + 32) as char
    } else {
        c
    }
}

/// An ASCII small letter as the capital it pairs with; any other character as it is.
pub open spec fn ascii_upper(c: char) -> char {
    if 'a' <= c <= 'z' {
        (c as int - 32) as char
    } else {
        c
    }
}

/// The small letter an ASCII capital pairs with; any other character as it is.
pub fn to_ascii_lower(c: char) -> (r: char)
    ensures
        r == ascii_lower(c),
{
    if 'A' <= c && c <= 'Z' {
        (c as u8 + 32) as char
    } else {
        c
    }
}

/// The capital an ASCII small letter pairs with; any other character as it is.
pub fn to_ascii_upper(c: char) -> (r: char)
    ensures
        r == ascii_upper(c),
{
    if 'a' <= c && c <= 'z' {
        (c as u8 - 32) as char
    } else {
        c
    }
}

/// The lower-case form of a character, which may be more than one character.
pub uninterp spec fn lowercase_form(c: char) -> Seq<char>;

/// `char::to_lowercase`, collected into a string: the form depends on the character alone.
#[verifier::external_body]
pub(crate) fn lowercase_char(c: char) -> (r: String)
    ensures
        r@ == lowercase_form(c),
{
    c.to_lowercase().to_string()
}

/// The upper-case form of a text that holds characters beyond ASCII.
pub uninterp spec fn uppercase_form(s: Seq<char>) -> Seq<char>;

/// `str::to_uppercase`: the form depends on the characters of the text alone.
#[verifier::external_body]
pub(crate) fn uppercase_text(s: &str) -> (r: String)
    ensures
        r@ == uppercase_form(s@),
{
    s.to_uppercase()
}

/// The lower-case form of a text that holds characters beyond ASCII.
pub uninterp spec fn lowercase_text_form(s: Seq<char>) -> Seq<char>;

/// `str::to_lowercase`: the form depends on the characters of the text alone.
#[verifier::external_body]
pub(crate) fn lowercase_text(s: &str) -> (r: String)
    ensures
        r@ == lowercase_text_form(s@),
{
    s.to_lowercase()
}

/// Whether every character of a text is an ASCII one.
pub open spec fn all_ascii(s: Seq<char>) -> bool {
    forall|i: int| 0 <= i < s.len() ==> (#[trigger] s[i] as int) < 128
}

/// A text in upper case.
pub open spec fn uppercase(s: Seq<char>) -> Seq<char> {
    if all_ascii(s) {
        s.map_values(|c: char| ascii_upper(c))
    } else {
        uppercase_form(s)
    }
}

/// A text in lower case.
pub open spec fn lowercase(s: Seq<char>) -> Seq<char> {
    if all_ascii(s) {
        s.map_values(|c: char| ascii_lower(c))
    } else {
        lowercase_text_form(s)
    }
}

/// Whether a character is an ASCII one.
pub fn is_ascii_char(c: char) -> (r: bool)
    ensures
        r == ((c as int) < 128),
{
    (c as u32) < 128
}

fn is_all_ascii(v: &Vec<char>) -> (r: bool)
    ensures
        r == all_ascii(v@),
{
    let mut i: usize = 0;
    while i < v.len()
        invariant
            i <= v@.len(),
            forall|j: int| 0 <= j < i ==> (#[trigger] v@[j] as int) < 128,
        decreases v@.len() - i,
    {
        if !is_ascii_char(v[i]) {
            return false;
        }
        i = i + 1;
    }
    true
}

/// A text in upper case.
pub fn to_upper(s: &str) -> (r: String)
    ensures
        r@ == uppercase(s@),
{
    let v = chars_of(s);
    if !is_all_ascii(&v) {
        return uppercase_text(s);
    }
    let mut r = String::new();
    let mut i: usize = 0;
    while i < v.len()
        invariant
            i <= v@.len(),
            r@ == v@.take(i as int).map_values(|c: char| ascii_upper(c)),
        decreases v@.len() - i,
    {
        r.push(to_ascii_upper(v[i]));
        i = i + 1;
        assert(r@ =~= v@.take(i as int).map_values(|c: char| ascii_upper(c)));
    }
    assert(v@.take(v@.len() as int) =~= v@);
    r
}

/// A text in lower case.
pub fn to_lower(s: &str) -> (r: String)
    ensures
        r@ == lowercase(s@),
{
    let v = chars_of(s);
    if !is_all_ascii(&v) {
        return lowercase_text(s);
    }
    let mut r = String::new();
    let mut i: usize = 0;
    while i < v.len()
        invariant
            i <= v@.len(),
            r@ == v@.take(i as int).map_values(|c: char| ascii_lower(c)),
        decreases v@.len() - i,
    {
        r.push(to_ascii_lower(v[i]));
        i = i + 1;
        assert(r@ =~= v@.take(i as int).map_values(|c: char| ascii_lower(c)));
    }
    assert(v@.take(v@.len() as int) =~= v@);
    r
}

/// A text with its ASCII capitals as small letters.
pub open spec fn lower_ascii(s: Seq<char>) -> Seq<char> {
    s.map_values(|c: char| ascii_lower(c))
}

/// A text with its ASCII capitals as small letters.
pub fn to_lower_ascii(s: &str) -> (r: String)
    ensures
        r@ == lower_ascii(s@),
{
    let v = chars_of(s);
    let mut r = String::new();
    let mut i: usize = 0;
    while i < v.len()
        invariant
            i <= v@.len(),
            r@ == lower_ascii(v@.take(i as int)),
        decreases v@.len() - i,
    {
        r.push(to_ascii_lower(v[i]));
        i = i + 1;
        assert(r@ =~= lower_ascii(v@.take(i as int)));
    }
    assert(v@.take(v@.len() as int) =~= v@);
    r
}

/// Whether a character has the Unicode property White_Space.
pub open spec fn is_space(c: char) -> bool {
    let n = c as int;
    9 <= n <= 13 || n == 0x20 || n == 0x85 || n == 0xA0 || n == 0x1680 || 0x2000 <= n <= 0x200A || n == 0x2028 || n
        == 0x2029 || n == 0x202F || n == 0x205F || n == 0x3000
}

/// Whether a character is white space.
pub fn is_space_char(c: char) -> (r: bool)
    ensures
        r == is_space(c),
{
    let n: u32 = c as u32;
    (9 <= n && n <= 13) || n == 0x20 || n == 0x85 || n == 0xA0 || n == 0x1680 || (0x2000 <= n && n <= 0x200A) || n
        == 0x2028 || n == 0x2029 || n == 0x202F || n == 0x205F || n == 0x3000
}

/// A text without the white space at its beginning.
pub open spec fn trim_start(s: Seq<char>) -> Seq<char>
    decreases s.len(),
{
    if s.len() > 0 && is_space(s[0]) {
        trim_start(s.drop_first())
    } else {
        s
    }
}

/// A text without the white space at its end.
pub open spec fn trim_end(s: Seq<char>) -> Seq<char>
    decreases s.len(),
{
    if s.len() > 0 && is_space(s.last()) {
        trim_end(s.drop_last())
    } else {
        s
    }
}

/// A text without the white space at either end.
pub open spec fn trimmed(s: Seq<char>) -> Seq<char> {
    trim_start(trim_end(s))
}

/// A text without a character wherever it stands at the end.
pub open spec fn without_trailing(s: Seq<char>, c: char) -> Seq<char>
    decreases s.len(),
{
    if s.len() > 0 && s.last() == c {
        without_trailing(s.drop_last(), c)
    } else {
        s
    }
}

/// A text without a character wherever it stands at the beginning.
pub open spec fn without_leading(s: Seq<char>, c: char) -> Seq<char>
    decreases s.len(),
{
    if s.len() > 0 && s[0] == c {
        without_leading(s.drop_first(), c)
    } else {
        s
    }
}

/// A string without the white space at either end.
pub fn trim(s: &str) -> (r: String)
    ensures
        r@ == trimmed(s@),
{
    let v = chars_of(s);
    let mut to: usize = v.len();
    assert(v@.take(to as int) =~= v@);
    while to > 0 && is_space_char(v[to - 1])
        invariant
            to <= v@.len(),
            trim_end(v@) == trim_end(v@.take(to as int)),
        decreases to,
    {
        assert(v@.take(to as int).drop_last() =~= v@.take(to - 1));
        to = to - 1;
    }
    let mut from: usize = 0;
    assert(v@.subrange(0, to as int) =~= v@.take(to as int));
    while from < to && is_space_char(v[from])
        invariant
            from <= to <= v@.len(),
            trim_start(v@.take(to as int)) == trim_start(v@.subrange(from as int, to as int)),
        decreases to - from,
    {
        assert(v@.subrange(from as int, to as int).drop_first() =~= v@.subrange(from + 1, to as int));
        from = from + 1;
    }
    text_between(&v, from, to)
}

/// A string without the white space at its beginning.
pub fn trim_leading_space(s: &str) -> (r: String)
    ensures
        r@ == trim_start(s@),
{
    let v = chars_of(s);
    let mut from: usize = 0;
    assert(v@.skip(0) =~= v@);
    while from < v.len() && is_space_char(v[from])
        invariant
            from <= v@.len(),
            trim_start(v@) == trim_start(v@.skip(from as int)),
        decreases v@.len() - from,
    {
        assert(v@.skip(from as int).drop_first() =~= v@.skip(from + 1));
        from = from + 1;
    }
    let r = text_between(&v, from, v.len());
    assert(r@ =~= v@.skip(from as int));
    r
}

/// A string without a character wherever it stands at the end.
pub fn trim_trailing(s: &str, c: char) -> (r: String)
    ensures
        r@ == without_trailing(s@, c),
{
    let v = chars_of(s);
    let mut to: usize = v.len();
    assert(v@.take(to as int) =~= v@);
    while to > 0 && v[to - 1] == c
        invariant
            to <= v@.len(),
            without_trailing(v@, c) == without_trailing(v@.take(to as int), c),
        decreases to,
    {
        assert(v@.take(to as int).drop_last() =~= v@.take(to - 1));
        to = to - 1;
    }
    let r = text_between(&v, 0, to);
    assert(r@ =~= v@.take(to as int));
    r
}

/// A string without a character wherever it stands at the beginning.
pub fn trim_leading(s: &str, c: char) -> (r: String)
    ensures
        r@ == without_leading(s@, c),
{
    let v = chars_of(s);
    let mut from: usize = 0;
    assert(v@.skip(0) =~= v@);
    while from < v.len() && v[from] == c
        invariant
            from <= v@.len(),
            without_leading(v@, c) == without_leading(v@.skip(from as int), c),
        decreases v@.len() - from,
    {
        assert(v@.skip(from as int).drop_first() =~= v@.skip(from + 1));
        from = from + 1;
    }
    let r = text_between(&v, from, v.len());
    assert(r@ =~= v@.skip(from as int));
    r
}

/// The words of a text: what stands between white space, in order.
pub open spec fn words(s: Seq<char>) -> Seq<Seq<char>>
    decreases s.len(),
{
    if s.len() == 0 {
        Seq::empty()
    } else {
        let before = words(s.drop_last());
        let c = s.last();
        if is_space(c) {
            before
        } else if s.len() > 1 && !is_space(s[s.len() - 2]) {
            before.update(before.len() - 1, before.last().push(c))
        } else {
            before.push(seq![c])
        }
    }
}

/// A text that ends in a word has a last word.
proof fn lemma_words_some(s: Seq<char>)
    requires
        s.len() > 0,
        !is_space(s.last()),
    ensures
        words(s).len() > 0,
    decreases s.len(),
{
    if s.len() > 1 && !is_space(s[s.len() - 2]) {
        lemma_words_some(s.drop_last());
    }
}

/// The words of a string: what stands between white space, in order.
pub fn split_words(s: &str) -> (r: Vec<String>)
    ensures
        views(r@) == words(s@),
{
    let v = chars_of(s);
    let mut r: Vec<String> = Vec::new();
    let mut i: usize = 0;
    while i < v.len()
        invariant
            i <= v@.len(),
            views(r@) == words(v@.take(i as int)),
        decreases v@.len() - i,
    {
        let ghost upto = v@.take(i + 1);
        assert(upto.drop_last() =~= v@.take(i as int));
        let c = v[i];
        if is_space_char(c) {
        } else if i > 0 && !is_space_char(v[i - 1]) {
            proof {
                lemma_words_some(v@.take(i as int));
            }
            let ghost was = r@;
            let last: usize = r.len() - 1;
            let mut word = r[last].clone();
            word.push(c);
            r.set(last, word);
            assert(views(r@) =~= views(was).update(last as int, views(was).last().push(c)));
        } else {
            let ghost was = r@;
            let mut word = String::new();
            word.push(c);
            r.push(word);
            assert(word@ =~= seq![c]);
            assert(views(r@) =~= views(was).push(seq![c]));
        }
        i = i + 1;
    }
    assert(v@.take(v@.len() as int) =~= v@);
    r
}

/// What stands before and behind the first place a character stands, where it stands anywhere.
pub open spec fn split_at_first(s: Seq<char>, c: char) -> Option<(Seq<char>, Seq<char>)>
    decreases s.len(),
{
    if s.len() == 0 {
        None
    } else if s[0] == c {
        Some((Seq::empty(), s.drop_first()))
    } else {
        match split_at_first(s.drop_first(), c) {
            Some((before, behind)) => Some((seq![s[0]] + before, behind)),
            None => None,
        }
    }
}

/// The parts of a split are what the character stands between, and it does not stand in the first.
pub proof fn lemma_split_at_first(s: Seq<char>, c: char)
    ensures
        match split_at_first(s, c) {
            Some((before, behind)) => s == before + seq![c] + behind && !before.contains(c),
            None => !s.contains(c),
        },
    decreases s.len(),
{
    if s.len() > 0 && s[0] != c {
        lemma_split_at_first(s.drop_first(), c);
        match split_at_first(s.drop_first(), c) {
            Some((before, behind)) => {
                let whole = seq![s[0]] + before;
                assert(s =~= seq![s[0]] + s.drop_first());
                assert(s =~= whole + seq![c] + behind);
                assert(!whole.contains(c)) by {
                    if whole.contains(c) {
                        let i = choose|i: int| 0 <= i < whole.len() && whole[i] == c;
                        assert(before[i - 1] == c);
                    }
                }
            },
            None => {
                assert(!s.contains(c)) by {
                    if s.contains(c) {
                        let i = choose|i: int| 0 <= i < s.len() && s[i] == c;
                        assert(s.drop_first()[i - 1] == c);
                    }
                }
            },
        }
    } else if s.len() > 0 {
        assert(s =~= Seq::<char>::empty() + seq![c] + s.drop_first());
    }
}

/// What stands before and behind the first place a character stands, where it stands anywhere.
pub fn split_once(s: &str, c: char) -> (r: Option<(String, String)>)
    ensures
        match r {
            Some((before, behind)) => split_at_first(s@, c) == Some((before@, behind@)),
            None => split_at_first(s@, c) is None,
        },
{
    let v = chars_of(s);
    let mut i: usize = 0;
    assert(v@.skip(0) =~= v@);
    assert(v@.take(0) =~= Seq::<char>::empty());
    while i < v.len()
        invariant
            i <= v@.len(),
            v@ == s@,
            match split_at_first(v@.skip(i as int), c) {
                Some((before, behind)) => split_at_first(s@, c) == Some((v@.take(i as int) + before, behind)),
                None => split_at_first(s@, c) is None,
            },
        decreases v@.len() - i,
    {
        let ghost rest = v@.skip(i as int);
        assert(rest.drop_first() =~= v@.skip(i + 1));
        if v[i] == c {
            let before = text_between(&v, 0, i);
            let behind = text_between(&v, i + 1, v.len());
            assert(before@ =~= v@.take(i as int) + Seq::<char>::empty());
            assert(behind@ =~= rest.drop_first());
            return Some((before, behind));
        }
        proof {
            match split_at_first(rest.drop_first(), c) {
                Some((before, behind)) => {
                    assert(v@.take(i as int) + (seq![v@[i as int]] + before) =~= v@.take(i + 1) + before);
                },
                None => {},
            }
        }
        i = i + 1;
    }
    None
}

/// The parts of a text between one character and the next.
pub open spec fn split_on(s: Seq<char>, c: char) -> Seq<Seq<char>>
    decreases s.len(),
    via split_on_shrinks
{
    match split_at_first(s, c) {
        None => seq![s],
        Some((before, behind)) => seq![before] + split_on(behind, c),
    }
}

#[via_fn]
proof fn split_on_shrinks(s: Seq<char>, c: char) {
    lemma_split_at_first(s, c);
}

/// The parts of a string between one character and the next.
pub fn split(s: &str, c: char) -> (r: Vec<String>)
    ensures
        views(r@) == split_on(s@, c),
{
    let mut r: Vec<String> = Vec::new();
    let mut rest = s.to_owned();
    assert(views(r@) + split_on(rest@, c) =~= split_on(s@, c));
    loop
        invariant_except_break
            views(r@) + split_on(rest@, c) == split_on(s@, c),
        ensures
            views(r@) == split_on(s@, c),
        decreases rest@.len(),
    {
        let ghost was = r@;
        let ghost whole = rest@;
        match split_once(rest.as_str(), c) {
            None => {
                r.push(rest);
                assert(views(r@) =~= views(was) + seq![whole]);
                break;
            },
            Some((before, behind)) => {
                proof {
                    lemma_split_at_first(whole, c);
                }
                r.push(before);
                rest = behind;
                assert(views(r@) + split_on(rest@, c) =~= views(was) + (seq![before@] + split_on(rest@, c)));
            },
        }
    }
    r
}

/// What stands before and behind the last place a character stands, where it stands anywhere.
pub open spec fn split_at_last(s: Seq<char>, c: char) -> Option<(Seq<char>, Seq<char>)>
    decreases s.len(),
{
    if s.len() == 0 {
        None
    } else if s.last() == c {
        Some((s.drop_last(), Seq::empty()))
    } else {
        match split_at_last(s.drop_last(), c) {
            Some((before, behind)) => Some((before, behind.push(s.last()))),
            None => None,
        }
    }
}

/// What stands before and behind the last place a character stands, where it stands anywhere.
pub fn split_last(s: &str, c: char) -> (r: Option<(String, String)>)
    ensures
        match r {
            Some((before, behind)) => split_at_last(s@, c) == Some((before@, behind@)),
            None => split_at_last(s@, c) is None,
        },
{
    let v = chars_of(s);
    let mut i: usize = v.len();
    assert(v@.take(i as int) =~= v@);
    assert(v@.skip(i as int) =~= Seq::<char>::empty());
    assert(forall|a: Seq<char>| #[trigger] (a + Seq::<char>::empty()) =~= a);
    while i > 0
        invariant
            i <= v@.len(),
            v@ == s@,
            match split_at_last(v@.take(i as int), c) {
                Some((before, behind)) => split_at_last(s@, c) == Some((before, behind + v@.skip(i as int))),
                None => split_at_last(s@, c) is None,
            },
        decreases i,
    {
        let ghost upto = v@.take(i as int);
        assert(upto.drop_last() =~= v@.take(i - 1));
        if v[i - 1] == c {
            let before = text_between(&v, 0, i - 1);
            let behind = text_between(&v, i, v.len());
            assert(before@ =~= upto.drop_last());
            assert(behind@ =~= Seq::<char>::empty() + v@.skip(i as int));
            return Some((before, behind));
        }
        proof {
            match split_at_last(upto.drop_last(), c) {
                Some((before, behind)) => {
                    assert(behind.push(upto.last()) + v@.skip(i as int) =~= behind + v@.skip(i - 1));
                },
                None => {},
            }
        }
        i = i - 1;
    }
    None
}

/// The order of text: character by character, and a prefix before what it is a prefix of.
pub open spec fn precedes(a: Seq<char>, b: Seq<char>) -> bool
    decreases a.len(),
{
    if b.len() == 0 {
        false
    } else if a.len() == 0 {
        true
    } else if a[0] != b[0] {
        a[0] < b[0]
    } else {
        precedes(a.drop_first(), b.drop_first())
    }
}

/// No text stands before itself.
pub proof fn lemma_precedes_irreflexive(a: Seq<char>)
    ensures
        !precedes(a, a),
    decreases a.len(),
{
    if a.len() > 0 {
        lemma_precedes_irreflexive(a.drop_first());
    }
}

/// Of two different texts one stands before the other.
pub proof fn lemma_precedes_total(a: Seq<char>, b: Seq<char>)
    ensures
        a == b || precedes(a, b) || precedes(b, a),
    decreases a.len(),
{
    if a.len() > 0 && b.len() > 0 && a[0] == b[0] {
        lemma_precedes_total(a.drop_first(), b.drop_first());
        if a.drop_first() == b.drop_first() {
            assert(a =~= seq![a[0]] + a.drop_first());
            assert(b =~= seq![b[0]] + b.drop_first());
        }
    } else if a.len() == 0 && b.len() == 0 {
        assert(a =~= b);
    }
}

/// What stands before a text stands before everything that follows it.
pub proof fn lemma_precedes_transitive(a: Seq<char>, b: Seq<char>, c: Seq<char>)
    requires
        precedes(a, b),
        precedes(b, c),
    ensures
        precedes(a, c),
    decreases a.len(),
{
    if a.len() > 0 && b.len() > 0 && c.len() > 0 && a[0] == b[0] && b[0] == c[0] {
        lemma_precedes_transitive(a.drop_first(), b.drop_first(), c.drop_first());
    }
}

/// A common beginning does not change the order of two texts.
pub proof fn lemma_precedes_behind(common: Seq<char>, a: Seq<char>, b: Seq<char>)
    ensures
        precedes(common + a, common + b) == precedes(a, b),
    decreases common.len(),
{
    if common.len() == 0 {
        assert(common + a =~= a);
        assert(common + b =~= b);
    } else {
        assert((common + a).drop_first() =~= common.drop_first() + a);
        assert((common + b).drop_first() =~= common.drop_first() + b);
        lemma_precedes_behind(common.drop_first(), a, b);
    }
}

/// Two texts of one length keep their order whatever is written behind them.
pub proof fn lemma_precedes_decided(a: Seq<char>, b: Seq<char>, x: Seq<char>, y: Seq<char>)
    requires
        a.len() == b.len(),
        precedes(a, b),
    ensures
        precedes(a + x, b + y),
    decreases a.len(),
{
    if a[0] == b[0] {
        assert((a + x).drop_first() =~= a.drop_first() + x);
        assert((b + y).drop_first() =~= b.drop_first() + y);
        lemma_precedes_decided(a.drop_first(), b.drop_first(), x, y);
    }
}

/// Whether one string stands before another in the order of text.
pub fn before(a: &str, b: &str) -> (r: bool)
    ensures
        r == precedes(a@, b@),
{
    let x = chars_of(a);
    let y = chars_of(b);
    let mut i: usize = 0;
    proof {
        assert(x@.skip(0) =~= x@);
        assert(y@.skip(0) =~= y@);
    }
    while i < x.len() && i < y.len()
        invariant
            x@ == a@,
            y@ == b@,
            i <= x@.len(),
            i <= y@.len(),
            precedes(a@, b@) == precedes(x@.skip(i as int), y@.skip(i as int)),
        decreases x@.len() - i,
    {
        if x[i] != y[i] {
            return x[i] < y[i];
        }
        assert(x@.skip(i as int).drop_first() =~= x@.skip(i + 1));
        assert(y@.skip(i as int).drop_first() =~= y@.skip(i + 1));
        i = i + 1;
    }
    i < y.len()
}

/// Parts strung together with a separator between each and the next.
pub open spec fn joined(parts: Seq<Seq<char>>, separator: Seq<char>) -> Seq<char>
    decreases parts.len(),
{
    if parts.len() == 0 {
        Seq::empty()
    } else if parts.len() == 1 {
        parts[0]
    } else {
        joined(parts.drop_last(), separator) + separator + parts.last()
    }
}

/// Strings strung together with a separator between each and the next.
pub fn join(parts: &Vec<String>, separator: &str) -> (r: String)
    ensures
        r@ == joined(views(parts@), separator@),
{
    let mut r = String::new();
    let mut i: usize = 0;
    while i < parts.len()
        invariant
            i <= parts@.len(),
            r@ == joined(views(parts@.take(i as int)), separator@),
        decreases parts@.len() - i,
    {
        let ghost so_far = views(parts@.take(i as int));
        let ghost next = views(parts@.take(i + 1));
        assert(next.drop_last() =~= so_far);
        assert(next.last() == parts@[i as int]@);
        if i > 0 {
            r.append(separator);
        }
        r.append(parts[i].as_str());
        assert(r@ =~= joined(next, separator@));
        i = i + 1;
    }
    assert(parts@.take(parts@.len() as int) =~= parts@);
    r
}

/// What `{:?}` writes for a string: its characters in double quotes, those that do not print or
/// would end the quotes escaped.
pub uninterp spec fn debug_form(s: Seq<char>) -> Seq<char>;

/// `{:?}` of `format!` on a string. What it escapes follows tables of the standard library, so the
/// contract only says that the text written depends on the characters of the string alone.
#[verifier::external_body]
pub(crate) fn debug_text(s: &str) -> (r: String)
    ensures
        r@ == debug_form(s@),
{
    format!("{:?}", s)
}

/// What `{:?}` writes for a list of strings.
pub open spec fn debug_list(items: Seq<Seq<char>>) -> Seq<char> {
    "["@ + joined(items.map_values(|s: Seq<char>| debug_form(s)), ", "@) + "]"@
}

/// A list of strings, each in quotes, in square brackets.
pub fn debug_list_text(items: &Vec<String>) -> (r: String)
    ensures
        r@ == debug_list(views(items@)),
{
    let mut quoted: Vec<String> = Vec::new();
    let mut i: usize = 0;
    while i < items.len()
        invariant
            i <= items@.len(),
            quoted@.len() == i,
            forall|j: int| 0 <= j < i ==> (#[trigger] quoted@[j])@ == debug_form(items@[j]@),
        decreases items@.len() - i,
    {
        quoted.push(debug_text(items[i].as_str()));
        i = i + 1;
    }
    assert(views(quoted@) =~= views(items@).map_values(|s: Seq<char>| debug_form(s)));
    let body = join(&quoted, ", ");
    let mut r = "[".to_string();
    r.append(body.as_str());
    r.append("]");
    r
}

/// Parts strung together begin with the first of them.
proof fn lemma_joined_front(parts: Seq<Seq<char>>, separator: Seq<char>)
    requires
        parts.len() > 1,
    ensures
        joined(parts, separator) == parts[0] + separator + joined(parts.skip(1), separator),
    decreases parts.len(),
{
    let rest = parts.skip(1);
    let before = parts.drop_last();
    if parts.len() == 2 {
        reveal_with_fuel(joined, 2);
        assert(joined(before, separator) == parts[0]);
        assert(joined(rest, separator) == parts[1]);
    } else {
        lemma_joined_front(before, separator);
        assert(before.skip(1) =~= rest.drop_last());
        assert(joined(parts, separator) =~= parts[0] + separator + joined(rest, separator));
    }
}

/// Parts that do not hold a character come back from being strung together with it and split at it.
pub proof fn joined_parts_come_back(parts: Seq<Seq<char>>, c: char)
    requires
        parts.len() > 0,
        forall|i: int| 0 <= i < parts.len() ==> !(#[trigger] parts[i]).contains(c),
    ensures
        split_on(joined(parts, seq![c]), c) == parts,
    decreases parts.len(),
{
    assert(!parts[0].contains(c));
    if parts.len() == 1 {
        lemma_split_at_first(parts[0], c);
        if let Some((before, behind)) = split_at_first(parts[0], c) {
            assert(parts[0][before.len() as int] == c);
        }
        assert(seq![parts[0]] =~= parts);
    } else {
        let rest = parts.skip(1);
        assert forall|i: int| 0 <= i < rest.len() implies !(#[trigger] rest[i]).contains(c) by {
            assert(rest[i] == parts[i + 1]);
        }
        joined_parts_come_back(rest, c);
        lemma_joined_front(parts, seq![c]);
        lemma_cut_at_first(parts[0], joined(rest, seq![c]), c);
        assert(seq![parts[0]] + rest =~= parts);
    }
}

/// A text is cut at the first place a character stands, wherever what stands in front does not hold it.
pub proof fn lemma_cut_at_first(before: Seq<char>, behind: Seq<char>, c: char)
    requires
        !before.contains(c),
    ensures
        split_at_first(before + seq![c] + behind, c) == Some((before, behind)),
    decreases before.len(),
{
    let s = before + seq![c] + behind;
    if before.len() == 0 {
        assert(s.drop_first() =~= behind);
        assert(before =~= Seq::empty());
    } else {
        let rest = before.drop_first();
        assert(before[0] != c);
        assert(rest + seq![c] + behind =~= s.drop_first());
        assert(!rest.contains(c)) by {
            if rest.contains(c) {
                let i = choose|i: int| 0 <= i < rest.len() && rest[i] == c;
                assert(before[i + 1] == c);
            }
        }
        lemma_cut_at_first(rest, behind, c);
        assert(seq![s[0]] + rest =~= before);
    }
}

/// What a character stands nowhere in is not cut.
pub proof fn lemma_uncut(s: Seq<char>, c: char)
    requires
        !s.contains(c),
    ensures
        split_at_first(s, c) is None,
        split_on(s, c) == seq![s],
{
    lemma_split_at_first(s, c);
    if let Some((before, behind)) = split_at_first(s, c) {
        assert(s[before.len() as int] == c);
    }
}

/// The parts of a text, strung together again, are the text.
pub proof fn split_parts_make_the_whole(s: Seq<char>, c: char)
    ensures
        split_on(s, c).len() > 0,
        joined(split_on(s, c), seq![c]) == s,
        forall|i: int| 0 <= i < split_on(s, c).len() ==> !(#[trigger] split_on(s, c)[i]).contains(c),
    decreases s.len(),
{
    lemma_split_at_first(s, c);
    if let Some((before, behind)) = split_at_first(s, c) {
        let parts = split_on(s, c);
        split_parts_make_the_whole(behind, c);
        assert(parts.skip(1) =~= split_on(behind, c));
        lemma_joined_front(parts, seq![c]);
        assert forall|i: int| 0 <= i < parts.len() implies !(#[trigger] parts[i]).contains(c) by {
            if i > 0 {
                assert(parts[i] == split_on(behind, c)[i - 1]);
            }
        }
    }
}

/// A trimmed text has no white space at either end, and only white space was taken from it.
pub proof fn trimming_takes_white_space(s: Seq<char>)
    ensures
        trimmed(s).len() > 0 ==> !is_space(trimmed(s)[0]) && !is_space(trimmed(s).last()),
        exists|from: int, to: int|
            0 <= from <= to <= s.len() && trimmed(s) == #[trigger] s.subrange(from, to) && (forall|i: int|
                0 <= i < from || to <= i < s.len() ==> is_space(#[trigger] s[i])),
{
    let t = trim_end(s);
    lemma_trim_end(s);
    lemma_trim_start(t);
    let r = trim_start(t);
    let from = t.len() - r.len();
    assert(r =~= s.subrange(from, t.len() as int));
    assert forall|i: int| 0 <= i < from || t.len() <= i < s.len() implies is_space(#[trigger] s[i]) by {
        if i < from {
            assert(t[i] == s[i]);
        }
    }
}

proof fn lemma_trim_end(s: Seq<char>)
    ensures
        trim_end(s).len() <= s.len(),
        trim_end(s) == s.take(trim_end(s).len() as int),
        trim_end(s).len() > 0 ==> !is_space(trim_end(s).last()),
        forall|i: int| trim_end(s).len() <= i < s.len() ==> is_space(#[trigger] s[i]),
    decreases s.len(),
{
    if s.len() > 0 && is_space(s.last()) {
        let before = s.drop_last();
        lemma_trim_end(before);
        assert(before.take(trim_end(s).len() as int) =~= s.take(trim_end(s).len() as int));
        assert forall|i: int| trim_end(s).len() <= i < s.len() implies is_space(#[trigger] s[i]) by {
            if i < before.len() {
                assert(before[i] == s[i]);
            }
        }
    } else {
        assert(s.take(s.len() as int) =~= s);
    }
}

proof fn lemma_trim_start(s: Seq<char>)
    ensures
        trim_start(s).len() <= s.len(),
        trim_start(s) == s.skip(s.len() - trim_start(s).len()),
        trim_start(s).len() > 0 ==> !is_space(trim_start(s)[0]),
        trim_start(s).len() > 0 ==> trim_start(s).last() == s.last(),
        forall|i: int| 0 <= i < s.len() - trim_start(s).len() ==> is_space(#[trigger] s[i]),
    decreases s.len(),
{
    if s.len() > 0 && is_space(s[0]) {
        let rest = s.drop_first();
        lemma_trim_start(rest);
        let n = trim_start(s).len();
        assert(rest.skip(rest.len() - n) =~= s.skip(s.len() - n));
        assert forall|i: int| 0 <= i < s.len() - n implies is_space(#[trigger] s[i]) by {
            if i > 0 {
                assert(rest[i - 1] == s[i]);
            }
        }
    } else {
        assert(s.skip(0) =~= s);
    }
}

/// A text with no white space at either end is left as it is.
pub proof fn lemma_trimmed_already(s: Seq<char>)
    requires
        s.len() > 0 ==> !is_space(s[0]) && !is_space(s.last()),
    ensures
        trimmed(s) == s,
{
    reveal_with_fuel(trim_end, 2);
    reveal_with_fuel(trim_start, 2);
}

/// A text without white space is one word.
pub proof fn unbroken_text_is_a_word(s: Seq<char>)
    requires
        s.len() > 0,
        forall|i: int| 0 <= i < s.len() ==> !is_space(#[trigger] s[i]),
    ensures
        words(s) == seq![s],
    decreases s.len(),
{
    if s.len() > 1 {
        let before = s.drop_last();
        unbroken_text_is_a_word(before);
        assert(!is_space(s[s.len() - 2]));
        assert(words(s) =~= seq![before.push(s.last())]);
        assert(before.push(s.last()) =~= s);
    } else {
        assert(s.drop_last() =~= Seq::empty());
        assert(words(s.drop_last()) =~= Seq::empty());
        assert(seq![s.last()] =~= s);
    }
}

/// White space parts words, whatever it is: the words of two texts with white space between are those of
/// the one and then those of the other.
pub proof fn white_space_parts_words(a: Seq<char>, space: char, b: Seq<char>)
    requires
        is_space(space),
    ensures
        words(a + seq![space] + b) == words(a) + words(b),
    decreases b.len(),
{
    let s = a + seq![space] + b;
    if b.len() == 0 {
        assert(s.drop_last() =~= a);
        assert(words(b) =~= Seq::empty());
    } else {
        let c = b.last();
        white_space_parts_words(a, space, b.drop_last());
        assert(s.drop_last() =~= a + seq![space] + b.drop_last());
        if !is_space(c) {
            if b.len() > 1 {
                assert(s[s.len() - 2] == b[b.len() - 2]);
                if !is_space(b[b.len() - 2]) {
                    lemma_words_some(b.drop_last());
                }
            } else {
                assert(s[s.len() - 2] == space);
            }
        }
        assert(words(s) =~= words(a) + words(b));
    }
}

/// Case is what ASCII says: each capital has one small letter, thirty-two behind it, and nothing else has
/// another case.
pub proof fn ascii_case_is_thirty_two_apart(c: char)
    ensures
        'A' <= c <= 'Z' ==> ascii_lower(c) as int == c as int + 32 && ascii_upper(ascii_lower(c)) == c,
        'a' <= c <= 'z' ==> ascii_upper(c) as int == c as int - 32 && ascii_lower(ascii_upper(c)) == c,
        !('A' <= c <= 'Z') ==> ascii_lower(c) == c,
        !('a' <= c <= 'z') ==> ascii_upper(c) == c,
{
}

/// What stands in front of and behind the last place of a character is the text around it, and the
/// character does not stand behind.
pub proof fn last_cuts_are_last(s: Seq<char>, c: char)
    ensures
        match split_at_last(s, c) {
            Some((before, behind)) => s == before + seq![c] + behind && !behind.contains(c),
            None => !s.contains(c),
        },
    decreases s.len(),
{
    if s.len() > 0 {
        let rest = s.drop_last();
        last_cuts_are_last(rest, c);
        if s.last() == c {
            assert(s =~= rest + seq![c] + Seq::<char>::empty());
        } else {
            match split_at_last(rest, c) {
                Some((before, behind)) => {
                    let more = behind.push(s.last());
                    assert(s =~= rest.push(s.last()));
                    assert(s =~= before + seq![c] + more);
                    assert(!more.contains(c)) by {
                        if more.contains(c) {
                            let i = choose|i: int| 0 <= i < more.len() && more[i] == c;
                            assert(behind[i] == c);
                        }
                    }
                },
                None => {
                    assert(!s.contains(c)) by {
                        if s.contains(c) {
                            let i = choose|i: int| 0 <= i < s.len() && s[i] == c;
                            assert(rest[i] == c);
                        }
                    }
                },
            }
        }
    }
}

/// Where a needle stands in a text, the text is what stands before it, the needle, and what follows.
pub proof fn found_needles_are_there(s: Seq<char>, needle: Seq<char>, at: int)
    ensures
        stands_at(s, needle, at) <==> 0 <= at && at + needle.len() <= s.len() && s == s.take(at) + needle + s.skip(
            at + needle.len(),
        ),
{
    if 0 <= at && at + needle.len() <= s.len() {
        if stands_at(s, needle, at) {
            assert(s =~= s.take(at) + s.subrange(at, at + needle.len()) + s.skip(at + needle.len()));
        }
        if s == s.take(at) + needle + s.skip(at + needle.len()) {
            let whole = s.take(at) + needle + s.skip(at + needle.len());
            assert(whole.subrange(at, at + needle.len()) =~= needle);
        }
    }
}

/// Without a character at its end, a text ends in another; what was taken away was that character alone.
pub proof fn only_trailing_characters_go(s: Seq<char>, c: char)
    ensures
        ({
            let kept = without_trailing(s, c);
            &&& kept.len() > 0 ==> kept.last() != c
            &&& kept.is_prefix_of(s)
            &&& forall|i: int| kept.len() <= i < s.len() ==> #[trigger] s[i] == c
        }),
    decreases s.len(),
{
    if s.len() > 0 && s.last() == c {
        let rest = s.drop_last();
        only_trailing_characters_go(rest, c);
        let kept = without_trailing(s, c);
        assert forall|i: int| kept.len() <= i < s.len() implies #[trigger] s[i] == c by {
            if i < rest.len() {
                assert(rest[i] == s[i]);
            }
        }
        assert(s.take(kept.len() as int) =~= rest.take(kept.len() as int));
    }
}

/// Without a character at its beginning, a text begins with another; what was taken away was that character alone.
pub proof fn only_leading_characters_go(s: Seq<char>, c: char)
    ensures
        ({
            let kept = without_leading(s, c);
            let n = s.len() - kept.len();
            &&& kept.len() > 0 ==> kept[0] != c
            &&& 0 <= n && kept == s.skip(n)
            &&& forall|i: int| 0 <= i < n ==> #[trigger] s[i] == c
        }),
    decreases s.len(),
{
    if s.len() > 0 && s[0] == c {
        let rest = s.drop_first();
        only_leading_characters_go(rest, c);
        let kept = without_leading(s, c);
        let n = s.len() - kept.len();
        assert forall|i: int| 0 <= i < n implies #[trigger] s[i] == c by {
            if i > 0 {
                assert(rest[i - 1] == s[i]);
            }
        }
        assert(rest.skip(n - 1) =~= s.skip(n));
    } else {
        assert(s.skip(0) =~= s);
    }
}

/// In an ASCII text every letter is put in small letters, or in capitals, where it stands.
pub proof fn ascii_texts_change_case_letter_by_letter(s: Seq<char>, i: int)
    requires
        0 <= i < s.len(),
        forall|k: int| 0 <= k < s.len() ==> (#[trigger] s[k] as int) < 128,
    ensures
        lowercase(s).len() == s.len() && uppercase(s).len() == s.len(),
        'A' <= s[i] <= 'Z' ==> lowercase(s)[i] as int == s[i] as int + 32,
        !('A' <= s[i] <= 'Z') ==> lowercase(s)[i] == s[i],
        'a' <= s[i] <= 'z' ==> uppercase(s)[i] as int == s[i] as int - 32,
        !('a' <= s[i] <= 'z') ==> uppercase(s)[i] == s[i],
{
    assert(all_ascii(s));
    ascii_case_is_thirty_two_apart(s[i]);
}

} // verus!
